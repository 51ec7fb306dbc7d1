use vstd::prelude::*;

verus! {

/// The character of the decimal digit `d`.
pub open spec fn digit_char(d: int) -> char {
    (48 + d) as char
}

/// The decimal writing of `n`, without leading zeros.
pub open spec fn decimal(n: nat) -> Seq<char>
    decreases n,
{
    if n < 10 {
        seq![digit_char(n as int)]
    } else {
        decimal(n / 10).push(digit_char((n % 10) as int))
    }
}

fn digit_str(d: usize) -> (res: &'static str)
    requires
        d < 10,
    ensures
        res@ == seq![digit_char(d as int)],
{
    if d == 0 {
        proof { reveal_strlit("0"); }
        "0"
    } else if d == 1 {
        proof { reveal_strlit("1"); }
        "1"
    } else if d == 2 {
        proof { reveal_strlit("2"); }
        "2"
    } else if d == 3 {
        proof { reveal_strlit("3"); }
        "3"
    } else if d == 4 {
        proof { reveal_strlit("4"); }
        "4"
    } else if d == 5 {
        proof { reveal_strlit("5"); }
        "5"
    } else if d == 6 {
        proof { reveal_strlit("6"); }
        "6"
    } else if d == 7 {
        proof { reveal_strlit("7"); }
        "7"
    } else if d == 8 {
        proof { reveal_strlit("8"); }
        "8"
    } else {
        proof { reveal_strlit("9"); }
        "9"
    }
}

/// Appends the decimal writing of `n`.
fn push_decimal(out: &mut String, n: usize)
    ensures
        final(out)@ == old(out)@ + decimal(n as nat),
    decreases n,
{
    if n >= 10 {
        push_decimal(out, n / 10);
    }
    out.append(digit_str(n % 10));
    proof {
        if n >= 10 {
            assert(decimal(n as nat) == decimal((n / 10) as nat).push(digit_char((n % 10) as int)));
        }
    }
}

/// The decimal writing of `n`, as `n.to_string()` gives it.
pub fn decimal_string(n: usize) -> (res: String)
    ensures
        res@ == decimal(n as nat),
{
    let mut s = String::new();
    push_decimal(&mut s, n);
    s
}

/// The fields of a row, each followed by a comma.
pub open spec fn cells(fields: Seq<Seq<char>>) -> Seq<char>
    decreases fields.len(),
{
    if fields.len() == 0 {
        Seq::empty()
    } else {
        cells(fields.drop_last()) + fields.last() + seq![',']
    }
}

/// A row of a log: its first field and the others, each followed by a
/// comma, and the end of the line.
pub open spec fn csv_line(first: Seq<char>, fields: Seq<Seq<char>>) -> Seq<char> {
    first + seq![','] + cells(fields) + seq!['\n']
}

/// How many characters the first `k` fields take in a row, each with its comma.
pub open spec fn fields_width(fields: Seq<Seq<char>>, k: int) -> int
    decreases k,
{
    if k <= 0 {
        0
    } else {
        fields_width(fields, k - 1) + fields[k - 1].len() + 1
    }
}

proof fn lemma_fields_width_prefix(fields: Seq<Seq<char>>, k: int)
    requires
        0 <= k < fields.len(),
    ensures
        fields_width(fields.drop_last(), k) == fields_width(fields, k),
    decreases k,
{
    if k > 0 {
        lemma_fields_width_prefix(fields, k - 1);
    }
}

proof fn lemma_fields_width_mono(fields: Seq<Seq<char>>, j: int, k: int)
    requires
        0 <= j <= k <= fields.len(),
    ensures
        fields_width(fields, j) <= fields_width(fields, k),
        j < k ==> fields_width(fields, j) + fields[j].len() + 1 <= fields_width(fields, k),
    decreases k - j,
{
    if j < k {
        lemma_fields_width_mono(fields, j, k - 1);
    }
}

/// Each field, with its comma, stands in the cells at its own place.
proof fn lemma_cells_layout(fields: Seq<Seq<char>>)
    ensures
        cells(fields).len() == fields_width(fields, fields.len() as int),
        forall|i: int|
            0 <= i < fields.len() ==> cells(fields).subrange(
                fields_width(fields, i),
                fields_width(fields, i) + fields[i].len(),
            ) == #[trigger] fields[i],
        forall|i: int|
            0 <= i < fields.len() ==> cells(fields)[fields_width(fields, i) + (
            #[trigger] fields[i]).len()] == ',',
    decreases fields.len(),
{
    if fields.len() > 0 {
        let init = fields.drop_last();
        let n = fields.len() - 1;
        lemma_cells_layout(init);
        lemma_fields_width_prefix(fields, n);
        let pre = cells(init);
        let whole = cells(fields);
        assert(whole == pre + fields.last() + seq![',']);
        assert forall|i: int|
            0 <= i < fields.len() implies whole.subrange(
            fields_width(fields, i),
            fields_width(fields, i) + fields[i].len(),
        ) == #[trigger] fields[i] && whole[fields_width(fields, i) + fields[i].len()] == ',' by {
            if i < n {
                lemma_fields_width_prefix(fields, i);
                lemma_fields_width_mono(init, i, n);
                lemma_fields_width_mono(init, 0, i);
                assert(init[i] == fields[i]);
                let lo = fields_width(fields, i);
                let hi = lo + fields[i].len();
                assert(pre.len() == fields_width(init, n));
                assert(hi + 1 <= pre.len());
                assert(pre.subrange(lo, hi) == init[i]);
                assert forall|k: int| 0 <= k < pre.len() implies whole[k] == pre[k] by {
                    assert((pre + fields.last())[k] == pre[k]);
                }
                assert(whole.subrange(lo, hi) =~= pre.subrange(lo, hi));
                assert(pre[hi] == ',');
            } else {
                assert(whole.subrange(pre.len() as int, (pre.len() + fields[i].len()) as int) =~= fields[i]);
            }
        }
    }
}

/// A row has one cell per field, an empty field too: the first field, a
/// comma, then each field in its turn followed by a comma, then the end of
/// the line. Field `i` starts after the first field, its comma, and the
/// fields before it with their commas; the row is as long as all of that
/// and the end of the line.
pub proof fn lemma_row_layout(first: Seq<char>, fields: Seq<Seq<char>>)
    ensures
        csv_line(first, fields).len() == first.len() + 1 + fields_width(
            fields,
            fields.len() as int,
        ) + 1,
        csv_line(first, fields).subrange(0, first.len() as int) == first,
        csv_line(first, fields)[first.len() as int] == ',',
        forall|i: int|
            0 <= i < fields.len() ==> csv_line(first, fields).subrange(
                first.len() + 1 + fields_width(fields, i),
                first.len() + 1 + fields_width(fields, i) + fields[i].len(),
            ) == #[trigger] fields[i],
        forall|i: int|
            0 <= i < fields.len() ==> csv_line(first, fields)[first.len() + 1 + fields_width(
                fields,
                i,
            ) + (#[trigger] fields[i]).len()] == ',',
        csv_line(first, fields)[csv_line(first, fields).len() - 1] == '\n',
{
    lemma_cells_layout(fields);
    let line = csv_line(first, fields);
    let body = cells(fields);
    let o = first.len() + 1;
    assert(line == first + seq![','] + body + seq!['\n']);
    assert(line.subrange(0, first.len() as int) =~= first);
    assert forall|i: int|
        0 <= i < fields.len() implies line.subrange(
        o + fields_width(fields, i),
        o + fields_width(fields, i) + fields[i].len(),
    ) == #[trigger] fields[i] && line[o + fields_width(fields, i) + fields[i].len()] == ',' by {
        lemma_fields_width_mono(fields, i, fields.len() as int);
        lemma_fields_width_mono(fields, 0, i);
        let lo = fields_width(fields, i);
        let hi = lo + fields[i].len();
        assert(body.subrange(lo, hi) == fields[i]);
        assert(line.subrange(o + lo, o + hi) =~= body.subrange(lo, hi));
        assert(body[hi] == ',');
    }
}

/// The value of a writing in decimal digits, the most significant first.
pub open spec fn decimal_value(s: Seq<char>) -> int
    decreases s.len(),
{
    if s.len() == 0 {
        0
    } else {
        decimal_value(s.drop_last()) * 10 + (s.last() as int - 48)
    }
}

/// The decimal writing of `n` reads back as `n`: it is made of the digits
/// '0' to '9', starts with '0' only for 0 itself, and its value is `n`.
pub proof fn lemma_decimal_reads_back(n: nat)
    ensures
        decimal_value(decimal(n)) == n,
        decimal(n).len() >= 1,
        forall|i: int| 0 <= i < decimal(n).len() ==> '0' <= #[trigger] decimal(n)[i] <= '9',
        decimal(n)[0] == '0' ==> n == 0,
    decreases n,
{
    let d = decimal(n);
    assert(digit_char((n % 10) as int) as int == 48 + n % 10);
    if n >= 10 {
        lemma_decimal_reads_back(n / 10);
        assert(d.drop_last() == decimal(n / 10));
        assert(d[0] == decimal(n / 10)[0]);
        assert forall|i: int| 0 <= i < d.len() implies '0' <= #[trigger] d[i] <= '9' by {
            if i < d.len() - 1 {
                assert(d[i] == decimal(n / 10)[i]);
            }
        }
        assert(n == (n / 10) * 10 + n % 10);
    } else {
        assert(d.drop_last() =~= Seq::<char>::empty());
        assert(decimal_value(d.drop_last()) == 0);
    }
}

/// The text of each field.
pub open spec fn texts(fields: Seq<String>) -> Seq<Seq<char>> {
    fields.map_values(|s: String| s@)
}

/// The row of a log that starts with `first` and goes on with `fields`.
pub fn csv_row(first: &str, fields: &[String]) -> (res: String)
    ensures
        res@ == csv_line(first@, texts(fields@)),
{
    proof {
        reveal_strlit(",");
        reveal_strlit("\n");
    }
    let mut out = String::from_str(first);
    out.append(",");
    let mut i: usize = 0;
    while i < fields.len()
        invariant
            i <= fields.len(),
            out@ == first@ + seq![','] + cells(texts(fields@).take(i as int)),
            ","@ == seq![','],
        decreases fields.len() - i,
    {
        proof {
            assert(texts(fields@).take(i + 1).drop_last() =~= texts(fields@).take(i as int));
            assert(texts(fields@).take(i + 1).last() == fields@[i as int]@);
        }
        out.append(fields[i].as_str());
        out.append(",");
        i = i + 1;
    }
    proof {
        assert(texts(fields@).take(fields.len() as int) =~= texts(fields@));
    }
    out.append("\n");
    out
}

/// The name of level `a` of the tree in the log's header.
pub open spec fn level_name(a: nat) -> Seq<char> {
    seq!['l', 'e', 'v', 'e', 'l', ' '] + decimal(a)
}

/// The name of level `a` is the word "level", a space, and the number `a`
/// written in decimal, which reads back as `a`.
pub proof fn lemma_level_name_reads_back(a: nat)
    ensures
        level_name(a).subrange(0, 6) == seq!['l', 'e', 'v', 'e', 'l', ' '],
        decimal_value(level_name(a).subrange(6, level_name(a).len() as int)) == a,
        forall|i: int|
            6 <= i < level_name(a).len() ==> '0' <= #[trigger] level_name(a)[i] <= '9',
{
    lemma_decimal_reads_back(a);
    let w = seq!['l', 'e', 'v', 'e', 'l', ' '];
    assert(level_name(a).subrange(0, 6) =~= w);
    assert(level_name(a).subrange(6, level_name(a).len() as int) =~= decimal(a));
    assert forall|i: int| 6 <= i < level_name(a).len() implies '0' <= #[trigger] level_name(a)[i]
        <= '9' by {
        assert(level_name(a)[i] == decimal(a)[i - 6]);
    }
}

/// The names of the levels of a tree of height `height`, from the root down.
pub fn level_names(height: usize) -> (res: Vec<String>)
    ensures
        res.len() == height,
        forall|a: int| 0 <= a < height ==> #[trigger] res@[a]@ == level_name(a as nat),
{
    proof {
        reveal_strlit("level ");
    }
    let mut v: Vec<String> = Vec::new();
    let mut a: usize = 0;
    while a < height
        invariant
            a <= height,
            v.len() == a,
            forall|b: int| 0 <= b < a ==> #[trigger] v@[b]@ == level_name(b as nat),
            "level "@ == seq!['l', 'e', 'v', 'e', 'l', ' '],
        decreases height - a,
    {
        let mut name = String::from_str("level ");
        push_decimal(&mut name, a);
        v.push(name);
        a = a + 1;
    }
    v
}

/// The start of a row of numbers: its index and a comma.
pub fn data_row_prefix(counter: usize) -> (res: String)
    ensures
        res@ == decimal(counter as nat) + seq![','],
{
    proof {
        reveal_strlit(",");
    }
    let mut s = String::new();
    push_decimal(&mut s, counter);
    s.append(",");
    s
}

} // verus!

use vstd::prelude::*;
use crate::csv::{decimal, digit_char};

verus! {

/// Where the pixels of the single decimal digit `d` lie, as
/// `ascii_num::get_coords(d)` draws it (x grows rightwards, y downwards, one
/// unit per character of its font).
pub uninterp spec fn ascii_digit_glyph(d: usize) -> Seq<(usize, usize)>;

/// Where the pixels of the symbol `num` of its font lie, as `ascii_num::get_misc` draws them.
pub uninterp spec fn ascii_misc_coords(num: usize) -> Seq<(usize, usize)>;

/// Calls `ascii_num::get_coords` on a single digit and collects the points of
/// the digits it yields, each `[x, y]` as `(x, y)`. The crate counts digits as
/// one more than the floor of a floating-point `log10`, cast to `u32`: for
/// `1 <= d < 10` that floor is 0, and for 0 the cast takes the negative
/// infinity to 0, so it yields exactly one digit, `d` itself, whose points it
/// reads from a static string. The points are named, not stated: they are ten
/// pictures.
#[verifier::external_body]
fn digit_glyph(d: usize) -> (res: Vec<(usize, usize)>)
    requires
        d < 10,
    ensures
        res@ == ascii_digit_glyph(d),
{
    ascii_num::get_coords(d).flat_map(|g| g).map(|p| (p[0], p[1])).collect()
}

/// Calls `ascii_num::get_misc`, which asserts that `num < 6` and reads the
/// points of the symbol from a static string.
#[verifier::external_body]
fn misc_coords(num: usize) -> (res: Vec<(usize, usize)>)
    requires
        num < 6,
    ensures
        res@ == ascii_misc_coords(num),
{
    ascii_num::get_misc(num)
}

/// The symbol `num` of the font: the arrows, the play sign, the colour and debug labels.
pub fn misc_glyph(num: usize) -> (res: Vec<(usize, usize)>)
    requires
        num < 6,
    ensures
        res@ == ascii_misc_coords(num),
{
    misc_coords(num)
}

/// The decimal digits of `n`, the most significant first, without leading zeros.
pub open spec fn digit_values(n: nat) -> Seq<usize>
    decreases n,
{
    if n < 10 {
        seq![n as usize]
    } else {
        digit_values(n / 10).push((n % 10) as usize)
    }
}

/// The digits are those of the decimal writing of `n`.
pub proof fn lemma_digit_values_decimal(n: nat)
    ensures
        decimal(n).len() == digit_values(n).len(),
        forall|i: int|
            0 <= i < decimal(n).len() ==> decimal(n)[i] == digit_char(
                #[trigger] digit_values(n)[i] as int,
            ),
        forall|i: int| 0 <= i < digit_values(n).len() ==> #[trigger] digit_values(n)[i] < 10,
    decreases n,
{
    if n >= 10 {
        lemma_digit_values_decimal(n / 10);
    }
}

/// The pixels of each decimal digit of `n`, the most significant digit first.
pub open spec fn number_glyphs(n: nat) -> Seq<Seq<(usize, usize)>> {
    digit_values(n).map_values(|d: usize| ascii_digit_glyph(d))
}

proof fn lemma_cells_deep_view(v: Vec<(usize, usize)>)
    ensures
        v.deep_view() == v@,
{
    assert(v.deep_view() =~= v@);
}

/// Appends the pixels of each digit of `n`.
fn push_glyphs(out: &mut Vec<Vec<(usize, usize)>>, n: usize)
    ensures
        final(out).deep_view() == old(out).deep_view() + number_glyphs(n as nat),
    decreases n,
{
    if n >= 10 {
        push_glyphs(out, n / 10);
    }
    let g = digit_glyph(n % 10);
    let ghost before = out.deep_view();
    proof {
        lemma_cells_deep_view(g);
    }
    out.push(g);
    proof {
        assert(out.deep_view() =~= before.push(ascii_digit_glyph((n % 10) as usize)));
        if n >= 10 {
            assert(digit_values(n as nat) == digit_values((n / 10) as nat).push((n % 10) as usize));
            assert(number_glyphs(n as nat) =~= number_glyphs((n / 10) as nat).push(
                ascii_digit_glyph((n % 10) as usize),
            ));
        } else {
            assert(number_glyphs(n as nat) =~= seq![ascii_digit_glyph(n)]);
        }
    }
}

fn glyphs_of(n: usize) -> (res: Vec<Vec<(usize, usize)>>)
    ensures
        res.deep_view() == number_glyphs(n as nat),
{
    let mut v: Vec<Vec<(usize, usize)>> = Vec::new();
    proof {
        assert(v.deep_view() =~= Seq::<Seq<(usize, usize)>>::empty());
    }
    push_glyphs(&mut v, n);
    proof {
        assert(v.deep_view() =~= number_glyphs(n as nat));
    }
    v
}

/// A number together with the pixels of its digits.
pub struct NumberDigits {
    digits: Vec<Vec<(usize, usize)>>,
    number: usize,
}

impl View for NumberDigits {
    /// The number and the pixels of its digits.
    type V = (usize, Seq<Seq<(usize, usize)>>);

    closed spec fn view(&self) -> (usize, Seq<Seq<(usize, usize)>>) {
        (self.number, self.digits.deep_view())
    }
}

impl NumberDigits {
    #[verifier::type_invariant]
    spec fn digits_match(self) -> bool {
        self.digits.deep_view() == number_glyphs(self.number as nat)
    }

    /// The number shown.
    pub open spec fn number(self) -> usize {
        self@.0
    }

    pub fn new(number: usize) -> (res: NumberDigits)
        ensures
            res@ == (number, number_glyphs(number as nat)),
    {
        NumberDigits { digits: glyphs_of(number), number }
    }

    /// Shows another number.
    pub fn update_number(&mut self, number: usize)
        ensures
            final(self)@ == (number, number_glyphs(number as nat)),
    {
        *self = NumberDigits { digits: glyphs_of(number), number };
    }

    pub fn get_number(&self) -> (res: usize)
        ensures
            res == self.number(),
            self@.1 == number_glyphs(res as nat),
    {
        proof {
            use_type_invariant(self);
        }
        self.number
    }

    /// The pixels of each digit, from the most significant one.
    pub fn digits(&self) -> (res: &Vec<Vec<(usize, usize)>>)
        ensures
            res.deep_view() == self@.1,
            self@.1 == number_glyphs(self.number() as nat),
    {
        proof {
            use_type_invariant(self);
        }
        &self.digits
    }
}

/// The extent of a pixel pattern: the largest x, or 0 when there is none.
pub open spec fn is_max_x(s: Seq<(usize, usize)>, m: usize) -> bool {
    &&& forall|i: int| 0 <= i < s.len() ==> s[i].0 <= m
    &&& m == 0 || exists|i: int| 0 <= i < s.len() && s[i].0 == m
}

/// The extent of a pixel pattern: the largest y, or 0 when there is none.
pub open spec fn is_max_y(s: Seq<(usize, usize)>, m: usize) -> bool {
    &&& forall|i: int| 0 <= i < s.len() ==> s[i].1 <= m
    &&& m == 0 || exists|i: int| 0 <= i < s.len() && s[i].1 == m
}

/// The largest x and the largest y of the pixels of a button, each 0 when
/// there are no pixels; the button is that many pixel spacings wide and high.
pub fn grid_extent(poses: &[(usize, usize)]) -> (res: (usize, usize))
    ensures
        is_max_x(poses@, res.0),
        is_max_y(poses@, res.1),
{
    let mut mx: usize = 0;
    let mut my: usize = 0;
    let mut i: usize = 0;
    while i < poses.len()
        invariant
            i <= poses.len(),
            is_max_x(poses@.take(i as int), mx),
            is_max_y(poses@.take(i as int), my),
        decreases poses.len() - i,
    {
        let p = poses[i];
        let ghost s0 = poses@.take(i as int);
        let ghost s1 = poses@.take(i + 1);
        let ghost (mx0, my0) = (mx, my);
        if p.0 > mx {
            mx = p.0;
        }
        if p.1 > my {
            my = p.1;
        }
        proof {
            assert(s1 == s0.push(p));
            assert(s1[i as int] == p);
            if mx == mx0 && mx0 != 0 {
                let j = choose|j: int| 0 <= j < s0.len() && s0[j].0 == mx0;
                assert(s1[j] == s0[j]);
            }
            if my == my0 && my0 != 0 {
                let j = choose|j: int| 0 <= j < s0.len() && s0[j].1 == my0;
                assert(s1[j] == s0[j]);
            }
            assert forall|k: int| 0 <= k < s1.len() implies s1[k].0 <= mx && s1[k].1 <= my by {
                if k < i {
                    assert(s1[k] == s0[k]);
                }
            }
        }
        i = i + 1;
    }
    proof {
        assert(poses@.take(poses.len() as int) == poses@);
    }
    (mx, my)
}

/// What one menu bot is placed on: a pixel of a digit, counted by its place
/// from the least significant digit, or a pixel of one of the icons.
#[derive(Clone, Copy, Debug, PartialEq, Eq)]
pub enum Slot {
    Digit { place: usize, x: usize, y: usize },
    Icon { icon: usize, x: usize, y: usize },
}

/// The slots of the pixels of one digit, in the order of its pixels.
pub open spec fn digit_group(place: int, cells: Seq<(usize, usize)>) -> Seq<Slot> {
    Seq::new(cells.len(), |i: int| Slot::Digit { place: place as usize, x: cells[i].0, y: cells[i].1 })
}

/// The slots of the pixels of one icon, in the order of its pixels.
pub open spec fn icon_group(icon: int, cells: Seq<(usize, usize)>) -> Seq<Slot> {
    Seq::new(cells.len(), |i: int| Slot::Icon { icon: icon as usize, x: cells[i].0, y: cells[i].1 })
}

/// The slots of the last `p` digits, the least significant digit first.
pub open spec fn digit_slots_upto(digits: Seq<Seq<(usize, usize)>>, p: nat) -> Seq<Slot>
    decreases p,
{
    if p == 0 {
        Seq::empty()
    } else {
        digit_slots_upto(digits, (p - 1) as nat) + digit_group(p - 1, digits[digits.len() - p])
    }
}

/// The slots of all digits, the least significant digit first.
pub open spec fn digit_slots(digits: Seq<Seq<(usize, usize)>>) -> Seq<Slot> {
    digit_slots_upto(digits, digits.len())
}

/// The slots of the first `k` icons, in their order.
pub open spec fn icon_slots_upto(icons: Seq<Seq<(usize, usize)>>, k: nat) -> Seq<Slot>
    decreases k,
{
    if k == 0 {
        Seq::empty()
    } else {
        icon_slots_upto(icons, (k - 1) as nat) + icon_group(k - 1, icons[k - 1])
    }
}

/// The slots of all icons, in their order.
pub open spec fn icon_slots(icons: Seq<Seq<(usize, usize)>>) -> Seq<Slot> {
    icon_slots_upto(icons, icons.len())
}

/// The slots of one group of pixels: of a digit, or of an icon.
pub open spec fn group_slots(digit: bool, index: int, cells: Seq<(usize, usize)>) -> Seq<Slot> {
    if digit {
        digit_group(index, cells)
    } else {
        icon_group(index, cells)
    }
}

/// How many pixels the groups hold together.
pub open spec fn pixel_count(groups: Seq<Seq<(usize, usize)>>) -> nat
    decreases groups.len(),
{
    if groups.len() == 0 {
        0
    } else {
        pixel_count(groups.drop_last()) + groups.last().len()
    }
}

proof fn lemma_digit_slots_upto_len(digits: Seq<Seq<(usize, usize)>>, p: nat)
    requires
        p <= digits.len(),
    ensures
        digit_slots_upto(digits, p).len() == pixel_count(digits) - pixel_count(
            digits.take(digits.len() - p),
        ),
    decreases p,
{
    if p == 0 {
        assert(digits.take(digits.len() as int) == digits);
    } else {
        lemma_digit_slots_upto_len(digits, (p - 1) as nat);
        let k = digits.len() - p;
        assert(digits.take(k + 1).drop_last() == digits.take(k));
        assert(digits.take(k + 1).last() == digits[k]);
    }
}

proof fn lemma_icon_slots_upto_len(icons: Seq<Seq<(usize, usize)>>, k: nat)
    requires
        k <= icons.len(),
    ensures
        icon_slots_upto(icons, k).len() == pixel_count(icons.take(k as int)),
    decreases k,
{
    if k > 0 {
        lemma_icon_slots_upto_len(icons, (k - 1) as nat);
        assert(icons.take(k as int).drop_last() == icons.take(k - 1));
        assert(icons.take(k as int).last() == icons[k - 1]);
    }
}

/// The menu takes one bot per pixel: as many slots as the digits and icons
/// have pixels together.
pub proof fn lemma_slot_count(digits: Seq<Seq<(usize, usize)>>, icons: Seq<Seq<(usize, usize)>>)
    ensures
        (digit_slots(digits) + icon_slots(icons)).len() == pixel_count(digits) + pixel_count(icons),
{
    lemma_digit_slots_upto_len(digits, digits.len());
    assert(digits.take(0) == Seq::<Seq<(usize, usize)>>::empty());
    lemma_icon_slots_upto_len(icons, icons.len());
    assert(icons.take(icons.len() as int) == icons);
}

/// How many pixels the last `p` digits have together.
pub open spec fn trailing_pixels(digits: Seq<Seq<(usize, usize)>>, p: int) -> int
    decreases p,
{
    if p <= 0 {
        0
    } else {
        trailing_pixels(digits, p - 1) + digits[digits.len() - p].len()
    }
}

/// How many pixels the first `k` icons have together.
pub open spec fn leading_pixels(icons: Seq<Seq<(usize, usize)>>, k: int) -> int
    decreases k,
{
    if k <= 0 {
        0
    } else {
        leading_pixels(icons, k - 1) + icons[k - 1].len()
    }
}

proof fn lemma_trailing_mono(digits: Seq<Seq<(usize, usize)>>, q: int, p: int)
    requires
        0 <= q <= p <= digits.len(),
    ensures
        0 <= trailing_pixels(digits, q) <= trailing_pixels(digits, p),
        q < p ==> trailing_pixels(digits, q) + digits[digits.len() - 1 - q].len()
            <= trailing_pixels(digits, p),
    decreases p - q,
{
    if q < p {
        lemma_trailing_mono(digits, q, p - 1);
    } else {
        lemma_trailing_nonneg(digits, q);
    }
}

proof fn lemma_trailing_nonneg(digits: Seq<Seq<(usize, usize)>>, p: int)
    ensures
        0 <= trailing_pixels(digits, p),
    decreases p,
{
    if p > 0 {
        lemma_trailing_nonneg(digits, p - 1);
    }
}

proof fn lemma_leading_mono(icons: Seq<Seq<(usize, usize)>>, j: int, k: int)
    requires
        0 <= j <= k <= icons.len(),
    ensures
        0 <= leading_pixels(icons, j) <= leading_pixels(icons, k),
        j < k ==> leading_pixels(icons, j) + icons[j].len() <= leading_pixels(icons, k),
    decreases k - j,
{
    if j < k {
        lemma_leading_mono(icons, j, k - 1);
    } else {
        lemma_leading_nonneg(icons, j);
    }
}

proof fn lemma_leading_nonneg(icons: Seq<Seq<(usize, usize)>>, k: int)
    ensures
        0 <= leading_pixels(icons, k),
    decreases k,
{
    if k > 0 {
        lemma_leading_nonneg(icons, k - 1);
    }
}

proof fn lemma_digit_slots_upto_at(digits: Seq<Seq<(usize, usize)>>, p: int)
    requires
        0 <= p <= digits.len(),
    ensures
        digit_slots_upto(digits, p as nat).len() == trailing_pixels(digits, p),
        forall|q: int|
            0 <= q < p ==> digit_slots_upto(digits, p as nat).subrange(
                #[trigger] trailing_pixels(digits, q),
                trailing_pixels(digits, q) + digits[digits.len() - 1 - q].len(),
            ) == Seq::new(
                digits[digits.len() - 1 - q].len(),
                |j: int|
                    Slot::Digit {
                        place: q as usize,
                        x: digits[digits.len() - 1 - q][j].0,
                        y: digits[digits.len() - 1 - q][j].1,
                    },
            ),
    decreases p,
{
    if p > 0 {
        lemma_digit_slots_upto_at(digits, p - 1);
        let pre = digit_slots_upto(digits, (p - 1) as nat);
        let whole = digit_slots_upto(digits, p as nat);
        assert(whole == pre + digit_group(p - 1, digits[digits.len() - p]));
        assert forall|q: int|
            0 <= q < p implies whole.subrange(
            #[trigger] trailing_pixels(digits, q),
            trailing_pixels(digits, q) + digits[digits.len() - 1 - q].len(),
        ) == Seq::new(
            digits[digits.len() - 1 - q].len(),
            |j: int|
                Slot::Digit {
                    place: q as usize,
                    x: digits[digits.len() - 1 - q][j].0,
                    y: digits[digits.len() - 1 - q][j].1,
                },
        ) by {
            lemma_trailing_mono(digits, q, p - 1);
            let lo = trailing_pixels(digits, q);
            let hi = lo + digits[digits.len() - 1 - q].len();
            if q < p - 1 {
                assert(whole.subrange(lo, hi) =~= pre.subrange(lo, hi));
            } else {
                assert(whole.subrange(lo, hi) =~= digit_group(p - 1, digits[digits.len() - p]));
            }
        }
    }
}

/// The digits are laid out from the least significant one: the slots of
/// place `q` (0 for the last digit) come after the pixels of the `q` digits
/// to its right, and are the pixels of that digit in their order, each
/// marked with place `q`.
pub proof fn lemma_digit_slot_places(digits: Seq<Seq<(usize, usize)>>)
    ensures
        digit_slots(digits).len() == trailing_pixels(digits, digits.len() as int),
        forall|q: int|
            0 <= q < digits.len() ==> digit_slots(digits).subrange(
                #[trigger] trailing_pixels(digits, q),
                trailing_pixels(digits, q) + digits[digits.len() - 1 - q].len(),
            ) == Seq::new(
                digits[digits.len() - 1 - q].len(),
                |j: int|
                    Slot::Digit {
                        place: q as usize,
                        x: digits[digits.len() - 1 - q][j].0,
                        y: digits[digits.len() - 1 - q][j].1,
                    },
            ),
{
    lemma_digit_slots_upto_at(digits, digits.len() as int);
}

proof fn lemma_icon_slots_upto_at(icons: Seq<Seq<(usize, usize)>>, k: int)
    requires
        0 <= k <= icons.len(),
    ensures
        icon_slots_upto(icons, k as nat).len() == leading_pixels(icons, k),
        forall|i: int|
            0 <= i < k ==> icon_slots_upto(icons, k as nat).subrange(
                #[trigger] leading_pixels(icons, i),
                leading_pixels(icons, i) + icons[i].len(),
            ) == Seq::new(
                icons[i].len(),
                |j: int| Slot::Icon { icon: i as usize, x: icons[i][j].0, y: icons[i][j].1 },
            ),
    decreases k,
{
    if k > 0 {
        lemma_icon_slots_upto_at(icons, k - 1);
        let pre = icon_slots_upto(icons, (k - 1) as nat);
        let whole = icon_slots_upto(icons, k as nat);
        assert(whole == pre + icon_group(k - 1, icons[k - 1]));
        assert forall|i: int|
            0 <= i < k implies whole.subrange(
            #[trigger] leading_pixels(icons, i),
            leading_pixels(icons, i) + icons[i].len(),
        ) == Seq::new(
            icons[i].len(),
            |j: int| Slot::Icon { icon: i as usize, x: icons[i][j].0, y: icons[i][j].1 },
        ) by {
            lemma_leading_mono(icons, i, k - 1);
            let lo = leading_pixels(icons, i);
            let hi = lo + icons[i].len();
            if i < k - 1 {
                assert(whole.subrange(lo, hi) =~= pre.subrange(lo, hi));
            } else {
                assert(whole.subrange(lo, hi) =~= icon_group(k - 1, icons[k - 1]));
            }
        }
    }
}

/// The icons are laid out in their order: the slots of icon `i` come after
/// the pixels of the icons before it, and are its pixels in their order, each
/// marked with icon `i`.
pub proof fn lemma_icon_slot_places(icons: Seq<Seq<(usize, usize)>>)
    ensures
        icon_slots(icons).len() == leading_pixels(icons, icons.len() as int),
        forall|i: int|
            0 <= i < icons.len() ==> icon_slots(icons).subrange(
                #[trigger] leading_pixels(icons, i),
                leading_pixels(icons, i) + icons[i].len(),
            ) == Seq::new(
                icons[i].len(),
                |j: int| Slot::Icon { icon: i as usize, x: icons[i][j].0, y: icons[i][j].1 },
            ),
{
    lemma_icon_slots_upto_at(icons, icons.len() as int);
}

fn push_group(out: &mut Vec<Slot>, cells: &Vec<(usize, usize)>, index: usize, digit: bool)
    ensures
        final(out)@ == old(out)@ + group_slots(digit, index as int, cells@),
{
    let ghost start = old(out)@;
    let mut j: usize = 0;
    while j < cells.len()
        invariant
            j <= cells.len(),
            out@ == start + group_slots(digit, index as int, cells@.take(j as int)),
        decreases cells.len() - j,
    {
        let c = cells[j];
        let slot = if digit {
            Slot::Digit { place: index, x: c.0, y: c.1 }
        } else {
            Slot::Icon { icon: index, x: c.0, y: c.1 }
        };
        proof {
            assert(group_slots(digit, index as int, cells@.take(j + 1)) =~= group_slots(
                digit,
                index as int,
                cells@.take(j as int),
            ).push(slot));
        }
        out.push(slot);
        j = j + 1;
    }
    proof {
        assert(cells@.take(cells.len() as int) == cells@);
    }
}

/// The slots that the menu places its bots on, in the order the bots are
/// taken: the digits of the number from the least significant one, then the
/// icons in their order.
pub fn menu_slots(digits: &Vec<Vec<(usize, usize)>>, icons: &Vec<Vec<(usize, usize)>>) -> (res: Vec<
    Slot,
>)
    ensures
        res@ == digit_slots(digits.deep_view()) + icon_slots(icons.deep_view()),
{
    let mut out: Vec<Slot> = Vec::new();
    let n = digits.len();
    let mut p: usize = 0;
    while p < n
        invariant
            n == digits.len(),
            p <= n,
            out@ == digit_slots_upto(digits.deep_view(), p as nat),
        decreases n - p,
    {
        proof {
            lemma_cells_deep_view(digits@[n - 1 - p]);
        }
        push_group(&mut out, &digits[n - 1 - p], p, true);
        p = p + 1;
    }
    let ghost after_digits = out@;
    let m = icons.len();
    let mut k: usize = 0;
    while k < m
        invariant
            m == icons.len(),
            k <= m,
            out@ == after_digits + icon_slots_upto(icons.deep_view(), k as nat),
        decreases m - k,
    {
        proof {
            lemma_cells_deep_view(icons@[k as int]);
        }
        push_group(&mut out, &icons[k], k, false);
        proof {
            assert(after_digits + icon_slots_upto(icons.deep_view(), (k + 1) as nat) =~= after_digits
                + icon_slots_upto(icons.deep_view(), k as nat) + icon_group(
                k as int,
                icons@[k as int]@,
            ));
        }
        k = k + 1;
    }
    out
}

} // verus!

use vstd::prelude::*;
use crate::clicker::{any_touch, fires, Clicker};
use crate::glyph::{
    ascii_misc_coords, digit_slots, icon_slots, menu_slots, misc_glyph, number_glyphs,
    NumberDigits, Slot,
};

verus! {

/// How many colours the menu cycles through.
pub const NUM_COLORS: usize = 7;

/// The number of bots the menu offers at first.
pub const START_NUMBER: usize = 5000;

/// How much one touch of an arrow changes the number.
pub const NUMBER_STEP: usize = 20;

/// The down arrow never takes the number below this.
pub const MIN_NUMBER: usize = 1000;

/// Which of the menu's areas one touch lies on.
#[derive(Clone, Copy, Debug, PartialEq, Eq)]
pub struct PoseHits {
    pub up: bool,
    pub down: bool,
    pub start: bool,
    pub color: bool,
    pub debug: bool,
}

/// What a step of the menu leads to.
#[derive(Clone, Copy, Debug, PartialEq, Eq)]
pub enum MenuOutcome {
    /// Leave the menu for a simulation of `num_bots` bots, drawing its tree if `draw_tree`.
    StartGame { num_bots: usize, draw_tree: bool },
    /// Stay in the menu. `color` is the new colour when the colour button was
    /// just pressed, and `None` when the colour did not change; `debug_pushed`
    /// tells that the debug button was just pressed.
    Stay { color: Option<usize>, debug_pushed: bool },
}

/// What the menu holds: the number of bots offered, the colour, whether the
/// simulation will draw its tree, and whether the colour and debug buttons
/// were touched in the last step.
#[derive(Clone, Copy, Debug, PartialEq, Eq)]
pub struct MenuView {
    pub number: usize,
    pub color: usize,
    pub draw_tree: bool,
    pub color_was_touched: bool,
    pub debug_was_touched: bool,
}

/// The colour is one of the colours and the number is at least 1000.
pub open spec fn view_ok(v: MenuView) -> bool {
    &&& v.color < NUM_COLORS
    &&& v.number >= MIN_NUMBER
}

/// The number after the down arrow. Within `isize` it is 20 less, but not
/// below 1000; above `isize::MAX` the number turns negative as an `isize` and
/// the floor gives 1000.
pub open spec fn lowered(n: int) -> int {
    if n <= isize::MAX {
        if n - NUMBER_STEP >= MIN_NUMBER {
            n - NUMBER_STEP
        } else {
            MIN_NUMBER as int
        }
    } else {
        MIN_NUMBER as int
    }
}

/// The down arrow can be applied: just above `isize::MAX`, subtracting 20 from
/// the number taken as an `isize` overflows.
pub open spec fn lowering_ok(n: int) -> bool {
    !(isize::MAX < n <= isize::MAX + NUMBER_STEP)
}

/// The number after one touch. Both arrows start from the number the touch
/// found, and the down arrow is applied last.
pub open spec fn after_touch(n: int, h: PoseHits) -> int {
    if h.down {
        lowered(n)
    } else if h.up {
        n + NUMBER_STEP
    } else {
        n
    }
}

/// The number after the first `k` touches.
pub open spec fn number_before(n: int, hits: Seq<PoseHits>, k: int) -> int
    decreases k,
{
    if k <= 0 {
        n
    } else {
        after_touch(number_before(n, hits, k - 1), hits[k - 1])
    }
}

/// The first touch, from `k` on, that lies on the start button; the length if none does.
pub open spec fn first_start_from(hits: Seq<PoseHits>, k: int) -> int
    decreases hits.len() - k,
{
    if k >= hits.len() {
        hits.len() as int
    } else if hits[k].start {
        k
    } else {
        first_start_from(hits, k + 1)
    }
}

/// The first touch that lies on the start button; the length if none does.
pub open spec fn first_start(hits: Seq<PoseHits>) -> int {
    first_start_from(hits, 0)
}

/// How many touches a step looks at: up to and with the first one on the start button.
pub open spec fn touches_seen(hits: Seq<PoseHits>) -> int {
    if first_start(hits) < hits.len() {
        first_start(hits) + 1
    } else {
        hits.len() as int
    }
}

/// No touch that the step looks at overflows: a raised number fits in a
/// `usize`, and a lowered one can be taken as an `isize`.
pub open spec fn numbers_fit(n: int, hits: Seq<PoseHits>) -> bool {
    forall|k: int|
        0 <= k < touches_seen(hits) ==> {
            &&& #[trigger] hits[k].up ==> number_before(n, hits, k) + NUMBER_STEP <= usize::MAX
            &&& hits[k].down ==> lowering_ok(number_before(n, hits, k))
        }
}

proof fn lemma_first_start_from(hits: Seq<PoseHits>, k: int)
    requires
        0 <= k <= hits.len(),
    ensures
        k <= first_start_from(hits, k) <= hits.len(),
        forall|j: int| k <= j < first_start_from(hits, k) ==> !hits[j].start,
        first_start_from(hits, k) < hits.len() ==> hits[first_start_from(hits, k)].start,
    decreases hits.len() - k,
{
    if k < hits.len() && !hits[k].start {
        lemma_first_start_from(hits, k + 1);
    }
}

/// The first touch on the start button is the first one, and no touch before it is on it.
pub proof fn lemma_first_start(hits: Seq<PoseHits>)
    ensures
        0 <= first_start(hits) <= hits.len(),
        forall|j: int| 0 <= j < first_start(hits) ==> !hits[j].start,
        first_start(hits) < hits.len() ==> hits[first_start(hits)].start,
{
    lemma_first_start_from(hits, 0);
}

/// For each touch, whether it lies on the colour button.
pub open spec fn color_hits(hits: Seq<PoseHits>) -> Seq<bool> {
    hits.map_values(|h: PoseHits| h.color)
}

/// For each touch, whether it lies on the debug button.
pub open spec fn debug_hits(hits: Seq<PoseHits>) -> Seq<bool> {
    hits.map_values(|h: PoseHits| h.debug)
}

/// The colour that follows colour `c` on a press of the colour button.
pub open spec fn next_color(c: int) -> int {
    (c + 1) % (NUM_COLORS as int)
}

/// The colour after `k` presses.
pub open spec fn color_after(c: int, k: nat) -> int
    decreases k,
{
    if k == 0 {
        c
    } else {
        next_color(color_after(c, (k - 1) as nat))
    }
}

/// The colours come round: seven presses of the colour button give the colour back.
pub proof fn lemma_colors_cycle(c: int)
    requires
        0 <= c < NUM_COLORS,
    ensures
        color_after(c, NUM_COLORS as nat) == c,
        forall|k: nat| 0 <= #[trigger] color_after(c, k) < NUM_COLORS,
{
    reveal_with_fuel(color_after, 8);
    assert forall|k: nat| 0 <= #[trigger] color_after(c, k) < NUM_COLORS by {
        if k > 0 {
            assert(color_after(c, k) == next_color(color_after(c, (k - 1) as nat)));
        }
    }
}

/// The menu after one step over `hits`, and what the step leads to. The
/// touches are taken in turn: each arrow moves the number from the value the
/// touch found; a touch on the start button leaves the menu with that value
/// at once. When no touch starts the game, the colour and debug buttons each
/// act on a press, and the colour is reported only when it changed.
pub open spec fn menu_next(s: MenuView, hits: Seq<PoseHits>) -> (MenuView, MenuOutcome) {
    let n = s.number as int;
    let fs = first_start(hits);
    if fs < hits.len() {
        (
            MenuView {
                number: number_before(n, hits, fs + 1) as usize,
                color: s.color,
                draw_tree: s.draw_tree,
                color_was_touched: s.color_was_touched,
                debug_was_touched: s.debug_was_touched,
            },
            MenuOutcome::StartGame {
                num_bots: number_before(n, hits, fs) as usize,
                draw_tree: s.draw_tree,
            },
        )
    } else {
        let color_touched = any_touch(color_hits(hits));
        let debug_touched = any_touch(debug_hits(hits));
        let color_fired = fires(s.color_was_touched, color_touched);
        let debug_fired = fires(s.debug_was_touched, debug_touched);
        let color = if color_fired {
            next_color(s.color as int) as usize
        } else {
            s.color
        };
        (
            MenuView {
                number: number_before(n, hits, hits.len() as int) as usize,
                color,
                draw_tree: s.draw_tree != debug_fired,
                color_was_touched: color_touched,
                debug_was_touched: debug_touched,
            },
            MenuOutcome::Stay {
                color: if color_fired {
                    Some(color)
                } else {
                    None
                },
                debug_pushed: debug_fired,
            },
        )
    }
}

/// The floor of the down arrow: from a number of at least 1000, the menu's
/// number stays at least 1000 whatever the touches.
pub proof fn lemma_number_floor(n: int, hits: Seq<PoseHits>, k: int)
    requires
        n >= MIN_NUMBER,
    ensures
        number_before(n, hits, k) >= MIN_NUMBER,
    decreases k,
{
    if k > 0 {
        lemma_number_floor(n, hits, k - 1);
    }
}

/// The numbers the touches that a step looks at lead to fit in a `usize`.
pub proof fn lemma_numbers_in_range(n: int, hits: Seq<PoseHits>, k: int)
    requires
        0 <= n <= usize::MAX,
        numbers_fit(n, hits),
        0 <= k <= touches_seen(hits),
    ensures
        0 <= number_before(n, hits, k) <= usize::MAX,
    decreases k,
{
    if k > 0 {
        lemma_numbers_in_range(n, hits, k - 1);
        let h = hits[k - 1];
        assert(h.up ==> number_before(n, hits, k - 1) + NUMBER_STEP <= usize::MAX);
    }
}

/// A step keeps the colour among the colours and the number at least 1000.
pub proof fn lemma_step_keeps_view_ok(s: MenuView, hits: Seq<PoseHits>)
    requires
        view_ok(s),
        numbers_fit(s.number as int, hits),
    ensures
        view_ok(menu_next(s, hits).0),
{
    lemma_first_start(hits);
    if first_start(hits) < hits.len() {
        lemma_number_floor(s.number as int, hits, first_start(hits) + 1);
        lemma_numbers_in_range(s.number as int, hits, first_start(hits) + 1);
    } else {
        lemma_number_floor(s.number as int, hits, hits.len() as int);
        lemma_numbers_in_range(s.number as int, hits, hits.len() as int);
    }
}

/// The game is started with at least 1000 bots.
pub proof fn lemma_start_with_enough_bots(s: MenuView, hits: Seq<PoseHits>)
    requires
        view_ok(s),
        numbers_fit(s.number as int, hits),
    ensures
        menu_next(s, hits).1 matches MenuOutcome::StartGame { num_bots, .. } ==> num_bots
            >= MIN_NUMBER,
{
    lemma_first_start(hits);
    if first_start(hits) < hits.len() {
        lemma_number_floor(s.number as int, hits, first_start(hits));
        lemma_numbers_in_range(s.number as int, hits, first_start(hits));
    }
}

/// The arrows move the number touch by touch: with no touch on an arrow, the number stays.
pub proof fn lemma_number_stays_without_arrows(n: int, hits: Seq<PoseHits>, k: int)
    requires
        forall|j: int| 0 <= j < hits.len() ==> !(#[trigger] hits[j]).up && !hits[j].down,
        k <= hits.len(),
    ensures
        number_before(n, hits, k) == n,
    decreases k,
{
    if k > 0 {
        lemma_number_stays_without_arrows(n, hits, k - 1);
        assert(!hits[k - 1].up && !hits[k - 1].down);
    }
}

/// Each touch on the up arrow alone raises the number by 20: after `k` such
/// touches it is 20·k above where it began.
pub proof fn lemma_up_raises(n: int, hits: Seq<PoseHits>, k: int)
    requires
        0 <= k <= hits.len(),
        forall|j: int| 0 <= j < k ==> (#[trigger] hits[j]).up && !hits[j].down,
    ensures
        number_before(n, hits, k) == n + 20 * k,
    decreases k,
{
    if k > 0 {
        lemma_up_raises(n, hits, k - 1);
        assert(hits[k - 1].up && !hits[k - 1].down);
    }
}

/// Each touch on the down arrow lowers the number by 20 but never below 1000:
/// after `k` such touches from a number of at least 1000 (within `isize`), it
/// is 20·k lower, or 1000 if that would go below.
pub proof fn lemma_down_lowers(n: int, hits: Seq<PoseHits>, k: int)
    requires
        0 <= k <= hits.len(),
        MIN_NUMBER <= n <= isize::MAX,
        forall|j: int| 0 <= j < k ==> (#[trigger] hits[j]).down,
    ensures
        number_before(n, hits, k) == (if n - 20 * k >= 1000 {
            n - 20 * k
        } else {
            1000
        }),
    decreases k,
{
    if k > 0 {
        lemma_down_lowers(n, hits, k - 1);
        assert(hits[k - 1].down);
    }
}

/// A touch on the start button leaves the menu with the number that touch
/// found, keeping the colour and the choice of drawing the tree: after `k`
/// touches on the up arrow alone, a touch on the start button starts the game
/// with 20·k bots more than were offered.
pub proof fn lemma_start_after_ups(s: MenuView, hits: Seq<PoseHits>, k: int)
    requires
        0 <= k < hits.len(),
        hits[k].start,
        forall|j: int| 0 <= j < k ==> (#[trigger] hits[j]).up && !hits[j].down && !hits[j].start,
    ensures
        menu_next(s, hits).1 == (MenuOutcome::StartGame {
            num_bots: (s.number + 20 * k) as usize,
            draw_tree: s.draw_tree,
        }),
        menu_next(s, hits).0.color == s.color,
        menu_next(s, hits).0.draw_tree == s.draw_tree,
{
    lemma_first_start(hits);
    let fs = first_start(hits);
    if fs < k {
        assert(hits[fs].start);
    }
    if fs > k {
        assert(!hits[k].start);
    }
    assert(fs == k);
    lemma_up_raises(s.number as int, hits, k);
}

/// A touch on the up arrow alone.
pub open spec fn up_touch() -> PoseHits {
    PoseHits { up: true, down: false, start: false, color: false, debug: false }
}

/// A touch on the down arrow alone.
pub open spec fn down_touch() -> PoseHits {
    PoseHits { up: false, down: true, start: false, color: false, debug: false }
}

/// The down arrow undoes the up arrow: a step with one touch on the up arrow
/// and then one with a touch on the down arrow give the number back, from a
/// number of at least 1000 that stays within `isize` when raised.
pub proof fn lemma_down_undoes_up(s: MenuView)
    requires
        view_ok(s),
        s.number + NUMBER_STEP <= isize::MAX,
    ensures
        menu_next(menu_next(s, seq![up_touch()]).0, seq![down_touch()]).0.number == s.number,
{
    reveal_with_fuel(first_start_from, 2);
    reveal_with_fuel(number_before, 2);
}

/// The colour is reported exactly when it changed, and then it is the new colour.
pub proof fn lemma_color_reported_iff_changed(s: MenuView, hits: Seq<PoseHits>)
    requires
        view_ok(s),
    ensures
        ({
            let (t, o) = menu_next(s, hits);
            o matches MenuOutcome::Stay { color, .. } ==> {
                &&& (color is Some <==> t.color != s.color)
                &&& color is Some ==> color->0 == t.color
            }
        }),
{
}

/// A press of the debug button flips whether the tree is drawn; nothing else changes it.
pub proof fn lemma_debug_flips(s: MenuView, hits: Seq<PoseHits>)
    ensures
        ({
            let (t, o) = menu_next(s, hits);
            match o {
                MenuOutcome::Stay { debug_pushed, .. } => t.draw_tree == (s.draw_tree
                    != debug_pushed),
                MenuOutcome::StartGame { .. } => t.draw_tree == s.draw_tree,
            }
        }),
{
}

/// Two presses of the debug button, with the finger lifted in between, give
/// the choice of drawing the tree back.
pub proof fn lemma_debug_twice(
    s: MenuView,
    press: Seq<PoseHits>,
    lift: Seq<PoseHits>,
    press_again: Seq<PoseHits>,
)
    requires
        !s.debug_was_touched,
        first_start(press) >= press.len(),
        first_start(lift) >= lift.len(),
        first_start(press_again) >= press_again.len(),
        any_touch(debug_hits(press)),
        !any_touch(debug_hits(lift)),
        any_touch(debug_hits(press_again)),
    ensures
        ({
            let (s1, o1) = menu_next(s, press);
            let (s2, o2) = menu_next(s1, lift);
            let (s3, o3) = menu_next(s2, press_again);
            &&& o1 matches MenuOutcome::Stay { debug_pushed: true, .. }
            &&& o3 matches MenuOutcome::Stay { debug_pushed: true, .. }
            &&& s1.draw_tree != s.draw_tree
            &&& s3.draw_tree == s.draw_tree
        }),
{
}

/// Without a touch on the start button, the colour and debug buttons each act
/// on their own press, whatever the other does: a press of the colour button
/// (some touch on it now, none in the step before) moves to the next of the
/// seven colours and reports it, and a press of the debug button flips whether
/// the tree is drawn.
pub proof fn lemma_buttons_act_apart(s: MenuView, hits: Seq<PoseHits>)
    requires
        forall|i: int| 0 <= i < hits.len() ==> !(#[trigger] hits[i]).start,
    ensures
        ({
            let (t, o) = menu_next(s, hits);
            let color_now = exists|i: int| 0 <= i < hits.len() && (#[trigger] hits[i]).color;
            let debug_now = exists|i: int| 0 <= i < hits.len() && (#[trigger] hits[i]).debug;
            let color_press = !s.color_was_touched && color_now;
            let debug_press = !s.debug_was_touched && debug_now;
            &&& t.color == (if color_press {
                ((s.color + 1) % 7) as usize
            } else {
                s.color
            })
            &&& t.draw_tree == (s.draw_tree != debug_press)
            &&& t.color_was_touched == color_now
            &&& t.debug_was_touched == debug_now
            &&& o == MenuOutcome::Stay {
                color: if color_press {
                    Some(t.color)
                } else {
                    None
                },
                debug_pushed: debug_press,
            }
        }),
{
    lemma_first_start(hits);
    if first_start(hits) < hits.len() {
        assert(hits[first_start(hits)].start);
    }
    let ch = color_hits(hits);
    let dh = debug_hits(hits);
    assert(any_touch(ch) == exists|i: int| 0 <= i < hits.len() && (#[trigger] hits[i]).color) by {
        if any_touch(ch) {
            let i = choose|i: int| 0 <= i < ch.len() && ch[i];
            assert(hits[i].color);
        }
        if exists|i: int| 0 <= i < hits.len() && (#[trigger] hits[i]).color {
            let i = choose|i: int| 0 <= i < hits.len() && (#[trigger] hits[i]).color;
            assert(ch[i]);
        }
    }
    assert(any_touch(dh) == exists|i: int| 0 <= i < hits.len() && (#[trigger] hits[i]).debug) by {
        if any_touch(dh) {
            let i = choose|i: int| 0 <= i < dh.len() && dh[i];
            assert(hits[i].debug);
        }
        if exists|i: int| 0 <= i < hits.len() && (#[trigger] hits[i]).debug {
            let i = choose|i: int| 0 <= i < hits.len() && (#[trigger] hits[i]).debug;
            assert(dh[i]);
        }
    }
    assert(first_start(hits) == hits.len());
}

/// The menu shows its icons in the order of its buttons: the up arrow (symbol
/// 0), the down arrow (1), the play sign (2), the colour label (3), then the
/// debug label, symbol 5 when the tree is drawn and 4 when it is not.
pub proof fn lemma_icons_in_button_order(draw_tree: bool)
    ensures
        shown_icons(draw_tree).len() == 5,
        forall|i: int| 0 <= i < 4 ==> #[trigger] shown_icons(draw_tree)[i] == ascii_misc_coords(
            i as usize,
        ),
        shown_icons(draw_tree)[4] == ascii_misc_coords(if draw_tree { 5 } else { 4 }),
{
    assert forall|i: int| 0 <= i < 4 implies #[trigger] shown_icons(draw_tree)[i]
        == ascii_misc_coords(i as usize) by {
        if i == 0 {
        } else if i == 1 {
        } else if i == 2 {
        } else {
        }
    }
}

/// The icons the menu shows, in drawing order: the up arrow, the down arrow,
/// the play sign, the colour label, and the debug label as it stands.
pub open spec fn shown_icons(draw_tree: bool) -> Seq<Seq<(usize, usize)>> {
    seq![
        ascii_misc_coords(0),
        ascii_misc_coords(1),
        ascii_misc_coords(2),
        ascii_misc_coords(3),
        if draw_tree {
            ascii_misc_coords(5)
        } else {
            ascii_misc_coords(4)
        },
    ]
}

/// The icons the menu shows, in drawing order (see `shown_icons`).
pub fn menu_icons(draw_tree: bool) -> (res: Vec<Vec<(usize, usize)>>)
    ensures
        res.deep_view() == shown_icons(draw_tree),
{
    let mut v: Vec<Vec<(usize, usize)>> = Vec::new();
    v.push(misc_glyph(0));
    v.push(misc_glyph(1));
    v.push(misc_glyph(2));
    v.push(misc_glyph(3));
    if draw_tree {
        v.push(misc_glyph(5));
    } else {
        v.push(misc_glyph(4));
    }
    proof {
        assert forall|i: int| 0 <= i < v.len() implies v@[i].deep_view() == v@[i]@ by {
            assert(v@[i].deep_view() =~= v@[i]@);
        }
        assert(v.deep_view() =~= shown_icons(draw_tree));
    }
    v
}

/// The decisions of the start menu: the number of bots chosen with the
/// arrows, the colour, and whether the simulation will draw its tree.
pub struct MenuLogic {
    numberthing: NumberDigits,
    color_clicker: Clicker,
    debug_clicker: Clicker,
    col_counter: usize,
    draw_debug: bool,
}

impl View for MenuLogic {
    type V = MenuView;

    closed spec fn view(&self) -> MenuView {
        MenuView {
            number: self.numberthing.number(),
            color: self.col_counter,
            draw_tree: self.draw_debug,
            color_was_touched: self.color_clicker.was_touched(),
            debug_was_touched: self.debug_clicker.was_touched(),
        }
    }
}

impl MenuLogic {
    #[verifier::type_invariant]
    spec fn in_range(self) -> bool {
        &&& self.col_counter < NUM_COLORS
        &&& self.numberthing.number() >= MIN_NUMBER
    }

    /// The menu as it opens.
    pub fn new() -> (res: MenuLogic)
        ensures
            res@ == (MenuView {
                number: START_NUMBER,
                color: 0,
                draw_tree: false,
                color_was_touched: false,
                debug_was_touched: false,
            }),
            view_ok(res@),
    {
        MenuLogic {
            numberthing: NumberDigits::new(START_NUMBER),
            color_clicker: Clicker::new(),
            debug_clicker: Clicker::new(),
            col_counter: 0,
            draw_debug: false,
        }
    }

    pub fn get_number(&self) -> (res: usize)
        ensures
            res == self@.number,
            res >= MIN_NUMBER,
    {
        proof {
            use_type_invariant(self);
        }
        self.numberthing.get_number()
    }

    pub fn color_index(&self) -> (res: usize)
        ensures
            res == self@.color,
            res < NUM_COLORS,
    {
        proof {
            use_type_invariant(self);
        }
        self.col_counter
    }

    pub fn get_draw_tree(&self) -> (res: bool)
        ensures
            res == self@.draw_tree,
    {
        self.draw_debug
    }

    /// The pixels of the digits of the number, from the most significant digit.
    pub fn digits(&self) -> (res: &Vec<Vec<(usize, usize)>>)
        ensures
            res.deep_view() == number_glyphs(self@.number as nat),
    {
        self.numberthing.digits()
    }

    /// Whether no touch that `step` would look at overflows, that is,
    /// whether `step` may be called with these touches.
    pub fn can_step(&self, hits: &[PoseHits]) -> (res: bool)
        ensures
            res == numbers_fit(self@.number as int, hits@),
    {
        proof {
            lemma_first_start(hits@);
        }
        let ghost n0 = self@.number as int;
        let mut n = self.numberthing.get_number();
        let mut i: usize = 0;
        while i < hits.len()
            invariant
                i <= hits.len(),
                i <= first_start(hits@),
                0 <= first_start(hits@) <= hits.len(),
                forall|j: int| 0 <= j < first_start(hits@) ==> !hits@[j].start,
                first_start(hits@) < hits.len() ==> hits@[first_start(hits@)].start,
                n0 == self@.number,
                n == number_before(n0, hits@, i as int),
                forall|k: int|
                    0 <= k < i ==> {
                        &&& #[trigger] hits@[k].up ==> number_before(n0, hits@, k) + NUMBER_STEP
                            <= usize::MAX
                        &&& hits@[k].down ==> lowering_ok(number_before(n0, hits@, k))
                    },
            decreases hits.len() - i,
        {
            let h = hits[i];
            let ghost n_i = n;
            if (h.up && n > usize::MAX - NUMBER_STEP) || (h.down && n > isize::MAX as usize && n
                - NUMBER_STEP <= isize::MAX as usize) {
                assert(i < touches_seen(hits@));
                assert(hits@[i as int] == h);
                return false;
            }
            n = down_or_up(n, h);
            assert(hits@[i as int] == h);
            assert forall|k: int|
                0 <= k < i + 1 implies {
                &&& #[trigger] hits@[k].up ==> number_before(n0, hits@, k) + NUMBER_STEP <= usize::MAX
                &&& hits@[k].down ==> lowering_ok(number_before(n0, hits@, k))
            } by {
                if k == i {
                    assert(hits@[k] == h);
                }
            }
            if h.start {
                assert(i == first_start(hits@));
                assert(touches_seen(hits@) == i + 1);
                return true;
            }
            i = i + 1;
        }
        true
    }

    /// One step of the menu (see `menu_next`). `hits` tells, for each touch of
    /// this step, which of the menu's areas it lies on.
    pub fn step(&mut self, hits: &[PoseHits]) -> (res: MenuOutcome)
        requires
            numbers_fit(old(self)@.number as int, hits@),
        ensures
            view_ok(old(self)@),
            view_ok(final(self)@),
            (final(self)@, res) == menu_next(old(self)@, hits@),
    {
        proof {
            use_type_invariant(&*self);
            lemma_first_start(hits@);
        }
        let ghost s0 = self@;
        let ghost n0 = self@.number as int;
        let mut n = self.numberthing.get_number();
        let mut moved = false;
        let mut i: usize = 0;
        while i < hits.len()
            invariant
                i <= hits.len(),
                i <= first_start(hits@),
                0 <= first_start(hits@) <= hits.len(),
                forall|j: int| 0 <= j < first_start(hits@) ==> !hits@[j].start,
                first_start(hits@) < hits.len() ==> hits@[first_start(hits@)].start,
                numbers_fit(n0, hits@),
                s0 == old(self)@,
                view_ok(s0),
                n0 == s0.number,
                n0 >= MIN_NUMBER,
                n == number_before(n0, hits@, i as int),
                self@ == s0,
                !moved ==> n == n0,
            decreases hits.len() - i,
        {
            let curr = n;
            let h = hits[i];
            assert(hits@[i as int] == h);
            assert(i < touches_seen(hits@));
            proof {
                lemma_number_floor(n0, hits@, i as int);
            }
            n = down_or_up(n, h);
            assert(n == number_before(n0, hits@, i + 1));
            proof {
                lemma_number_floor(n0, hits@, i + 1);
            }
            if h.up || h.down {
                moved = true;
            }
            if h.start {
                assert(i == first_start(hits@));
                if moved {
                    self.numberthing = NumberDigits::new(n);
                }
                return MenuOutcome::StartGame { num_bots: curr, draw_tree: self.draw_debug };
            }
            i = i + 1;
        }
        proof {
            lemma_number_floor(n0, hits@, hits.len() as int);
        }
        if moved {
            self.numberthing = NumberDigits::new(n);
        }
        let mut ch: Vec<bool> = Vec::new();
        let mut dh: Vec<bool> = Vec::new();
        let mut j: usize = 0;
        while j < hits.len()
            invariant
                j <= hits.len(),
                ch@ == color_hits(hits@).take(j as int),
                dh@ == debug_hits(hits@).take(j as int),
            decreases hits.len() - j,
        {
            proof {
                assert(color_hits(hits@).take(j + 1) =~= color_hits(hits@).take(j as int).push(
                    hits@[j as int].color,
                ));
                assert(debug_hits(hits@).take(j + 1) =~= debug_hits(hits@).take(j as int).push(
                    hits@[j as int].debug,
                ));
            }
            ch.push(hits[j].color);
            dh.push(hits[j].debug);
            j = j + 1;
        }
        proof {
            assert(ch@ =~= color_hits(hits@));
            assert(dh@ =~= debug_hits(hits@));
        }
        let mut cc = self.color_clicker;
        let color_fired = cc.update(ch.as_slice());
        self.color_clicker = cc;
        let mut color = None;
        if color_fired {
            self.col_counter = (self.col_counter + 1) % NUM_COLORS;
            color = Some(self.col_counter);
        }
        let mut dc = self.debug_clicker;
        let debug_fired = dc.update(dh.as_slice());
        self.debug_clicker = dc;
        if debug_fired {
            self.draw_debug = !self.draw_debug;
        }
        MenuOutcome::Stay { color, debug_pushed: debug_fired }
    }

    /// The slots the menu places its bots on, in the order the bots are taken:
    /// the digits of the number, then the icons, the debug label as the choice
    /// of drawing the tree stands.
    pub fn slots(&self) -> (res: Vec<Slot>)
        ensures
            res@ == digit_slots(number_glyphs(self@.number as nat)) + icon_slots(
                shown_icons(self@.draw_tree),
            ),
    {
        let icons = menu_icons(self.draw_debug);
        menu_slots(self.numberthing.digits(), &icons)
    }
}

/// The number after one touch, in `usize`.
fn down_or_up(n: usize, h: PoseHits) -> (res: usize)
    requires
        h.up && !h.down ==> n + NUMBER_STEP <= usize::MAX,
    ensures
        res == after_touch(n as int, h),
{
    if h.down {
        if n <= isize::MAX as usize {
            if n >= MIN_NUMBER + NUMBER_STEP {
                n - NUMBER_STEP
            } else {
                MIN_NUMBER
            }
        } else {
            MIN_NUMBER
        }
    } else if h.up {
        n + NUMBER_STEP
    } else {
        n
    }
}

} // verus!

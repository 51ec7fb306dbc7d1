use botsim::{Clicker, IteratorCounter};
use botsim::{grid_extent, menu_slots, misc_glyph, NumberDigits, Slot};

#[test]
fn counter_counts_items_handed_out() {
    let mut c = IteratorCounter::new(vec![7u32, 8, 9].into_iter());
    assert_eq!(c.steps_taken(), 0);
    assert_eq!(c.next(), Some(7));
    assert_eq!(c.steps_taken(), 1);
    assert_eq!(c.next(), Some(8));
    assert_eq!(c.next(), Some(9));
    assert_eq!(c.steps_taken(), 3);
    assert_eq!(c.next(), None);
    assert_eq!(c.steps_taken(), 3);
}

#[test]
fn counter_over_empty_iterator() {
    let mut c = IteratorCounter::new(Vec::<u8>::new().into_iter());
    assert_eq!(c.next(), None);
    assert_eq!(c.steps_taken(), 0);
}

#[test]
fn clicker_fires_on_press() {
    let mut c = Clicker::new();
    assert!(!c.update(&[]));
    assert!(!c.update(&[false, false]));
    assert!(c.update(&[false, true]));
}

#[test]
fn clicker_held_touch_fires_once() {
    let mut c = Clicker::new();
    assert!(c.update(&[true]));
    assert!(!c.update(&[true]));
    assert!(!c.update(&[false, true]));
}

#[test]
fn clicker_fires_again_after_release() {
    let mut c = Clicker::new();
    assert!(c.update(&[true]));
    assert!(!c.update(&[false]));
    assert!(c.update(&[true, true]));
}

#[test]
fn grid_extent_of_nothing_is_zero() {
    assert_eq!(grid_extent(&[]), (0, 0));
}

#[test]
fn grid_extent_takes_largest_of_each_axis() {
    assert_eq!(grid_extent(&[(1, 5), (3, 2), (0, 0)]), (3, 5));
    assert_eq!(grid_extent(&[(4, 0)]), (4, 0));
}

#[test]
fn grid_extent_of_play_sign() {
    let g = misc_glyph(2);
    assert_eq!(grid_extent(&g), (13, 4));
}

#[test]
fn misc_glyph_up_arrow() {
    assert_eq!(
        misc_glyph(0),
        vec![
            (4, 0), (3, 1), (4, 1), (5, 1), (2, 2), (3, 2), (4, 2), (5, 2), (6, 2), (1, 3),
            (2, 3), (3, 3), (4, 3), (5, 3), (6, 3), (7, 3), (3, 4), (4, 4), (5, 4)
        ]
    );
}

#[test]
fn misc_glyph_down_arrow() {
    assert_eq!(
        misc_glyph(1),
        vec![
            (3, 0), (4, 0), (5, 0), (1, 1), (2, 1), (3, 1), (4, 1), (5, 1), (6, 1), (7, 1),
            (2, 2), (3, 2), (4, 2), (5, 2), (6, 2), (3, 3), (4, 3), (5, 3), (4, 4)
        ]
    );
}

fn five() -> Vec<(usize, usize)> {
    vec![
        (0, 0), (1, 0), (2, 0), (3, 0), (4, 0), (5, 0), (0, 1), (1, 1), (0, 2), (1, 2), (2, 2),
        (3, 2), (4, 2), (4, 3), (5, 3), (0, 4), (1, 4), (2, 4), (3, 4), (4, 4)
    ]
}

fn zero() -> Vec<(usize, usize)> {
    vec![
        (1, 0), (2, 0), (3, 0), (4, 0), (0, 1), (1, 1), (4, 1), (5, 1), (0, 2), (1, 2), (4, 2),
        (5, 2), (0, 3), (1, 3), (4, 3), (5, 3), (1, 4), (2, 4), (3, 4), (4, 4)
    ]
}

#[test]
fn number_digits_of_5000() {
    let n = NumberDigits::new(5000);
    assert_eq!(n.get_number(), 5000);
    assert_eq!(n.digits(), &vec![five(), zero(), zero(), zero()]);
}

#[test]
fn number_digits_update() {
    let mut n = NumberDigits::new(5000);
    n.update_number(7);
    assert_eq!(n.get_number(), 7);
    assert_eq!(
        n.digits(),
        &vec![vec![(0, 0), (1, 0), (2, 0), (3, 0), (4, 0), (5, 0), (3, 1), (4, 1), (2, 2), (3, 2), (1, 3), (2, 3), (0, 4), (1, 4)]]
    );
    n.update_number(0);
    assert_eq!(n.digits(), &vec![zero()]);
}

#[test]
fn menu_slots_digits_from_least_significant() {
    let digits = vec![vec![(1, 2)], vec![(3, 4), (5, 6)]];
    let icons = vec![vec![(7, 8)], vec![], vec![(9, 0)]];
    assert_eq!(
        menu_slots(&digits, &icons),
        vec![
            Slot::Digit { place: 0, x: 3, y: 4 },
            Slot::Digit { place: 0, x: 5, y: 6 },
            Slot::Digit { place: 1, x: 1, y: 2 },
            Slot::Icon { icon: 0, x: 7, y: 8 },
            Slot::Icon { icon: 2, x: 9, y: 0 },
        ]
    );
}

#[test]
fn menu_slots_of_nothing() {
    assert_eq!(menu_slots(&vec![], &vec![]), vec![]);
}

#[test]
fn number_digits_of_power_of_ten() {
    let n = NumberDigits::new(10000);
    assert_eq!(n.digits(), &vec![
        vec![(0, 0), (1, 0), (2, 0), (3, 0), (2, 1), (3, 1), (2, 2), (3, 2), (2, 3), (3, 3), (0, 4), (1, 4), (2, 4), (3, 4), (4, 4), (5, 4)],
        zero(), zero(), zero(), zero()
    ]);
}

#[test]
fn number_digits_of_large_number() {
    let n = NumberDigits::new(usize::MAX);
    assert_eq!(n.digits().len(), usize::MAX.to_string().len());
}

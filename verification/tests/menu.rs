use botsim::{menu_icons, misc_glyph, MenuLogic, MenuOutcome, PoseHits, Slot};

fn touch(up: bool, down: bool, start: bool, color: bool, debug: bool) -> PoseHits {
    PoseHits { up, down, start, color, debug }
}

fn nothing() -> PoseHits {
    touch(false, false, false, false, false)
}

#[test]
fn menu_opens_with_5000() {
    let m = MenuLogic::new();
    assert_eq!(m.get_number(), 5000);
    assert_eq!(m.color_index(), 0);
    assert!(!m.get_draw_tree());
}

#[test]
fn menu_up_arrow_adds_20() {
    let mut m = MenuLogic::new();
    let r = m.step(&[touch(true, false, false, false, false)]);
    assert_eq!(r, MenuOutcome::Stay { color: None, debug_pushed: false });
    assert_eq!(m.get_number(), 5020);
    m.step(&[touch(true, false, false, false, false), touch(true, false, false, false, false)]);
    assert_eq!(m.get_number(), 5060);
}

#[test]
fn menu_down_arrow_subtracts_20() {
    let mut m = MenuLogic::new();
    m.step(&[touch(false, true, false, false, false)]);
    assert_eq!(m.get_number(), 4980);
}

#[test]
fn menu_down_arrow_stops_at_1000() {
    let mut m = MenuLogic::new();
    for _ in 0..300 {
        m.step(&[touch(false, true, false, false, false)]);
    }
    assert_eq!(m.get_number(), 1000);
    m.step(&[touch(false, true, false, false, false)]);
    assert_eq!(m.get_number(), 1000);
}

#[test]
fn menu_down_undoes_up() {
    let mut m = MenuLogic::new();
    m.step(&[touch(true, false, false, false, false)]);
    m.step(&[touch(false, true, false, false, false)]);
    assert_eq!(m.get_number(), 5000);
}

#[test]
fn menu_both_arrows_in_one_touch_go_down() {
    let mut m = MenuLogic::new();
    m.step(&[touch(true, true, false, false, false)]);
    assert_eq!(m.get_number(), 4980);
}

#[test]
fn menu_start_uses_number_before_the_touch() {
    let mut m = MenuLogic::new();
    let r = m.step(&[
        touch(true, false, false, false, false),
        touch(true, false, true, false, false),
        touch(true, false, false, true, true),
    ]);
    assert_eq!(r, MenuOutcome::StartGame { num_bots: 5020, draw_tree: false });
    assert_eq!(m.get_number(), 5040);
    assert_eq!(m.color_index(), 0);
}

#[test]
fn menu_start_skips_colour_and_debug() {
    let mut m = MenuLogic::new();
    let r = m.step(&[touch(false, false, true, true, true)]);
    assert_eq!(r, MenuOutcome::StartGame { num_bots: 5000, draw_tree: false });
    assert_eq!(m.color_index(), 0);
    assert!(!m.get_draw_tree());
}

#[test]
fn menu_colour_press_changes_colour_once() {
    let mut m = MenuLogic::new();
    let c = touch(false, false, false, true, false);
    assert_eq!(m.step(&[c]), MenuOutcome::Stay { color: Some(1), debug_pushed: false });
    assert_eq!(m.step(&[c]), MenuOutcome::Stay { color: None, debug_pushed: false });
    assert_eq!(m.step(&[nothing()]), MenuOutcome::Stay { color: None, debug_pushed: false });
    assert_eq!(m.color_index(), 1);
    assert_eq!(m.step(&[c, c]), MenuOutcome::Stay { color: Some(2), debug_pushed: false });
}

#[test]
fn menu_colours_come_round_after_seven_presses() {
    let mut m = MenuLogic::new();
    let c = touch(false, false, false, true, false);
    for _ in 0..7 {
        m.step(&[c]);
        m.step(&[]);
    }
    assert_eq!(m.color_index(), 0);
}

#[test]
fn menu_debug_press_toggles_tree_drawing() {
    let mut m = MenuLogic::new();
    let d = touch(false, false, false, false, true);
    assert_eq!(m.step(&[d]), MenuOutcome::Stay { color: None, debug_pushed: true });
    assert!(m.get_draw_tree());
    assert_eq!(m.step(&[d]), MenuOutcome::Stay { color: None, debug_pushed: false });
    assert!(m.get_draw_tree());
    m.step(&[]);
    assert_eq!(m.step(&[d]), MenuOutcome::Stay { color: None, debug_pushed: true });
    assert!(!m.get_draw_tree());
    let r = m.step(&[touch(false, false, true, false, false)]);
    assert_eq!(r, MenuOutcome::StartGame { num_bots: 5000, draw_tree: false });
}

#[test]
fn menu_starts_game_drawing_tree() {
    let mut m = MenuLogic::new();
    m.step(&[touch(false, false, false, false, true)]);
    let r = m.step(&[touch(false, false, true, false, false)]);
    assert_eq!(r, MenuOutcome::StartGame { num_bots: 5000, draw_tree: true });
}

#[test]
fn menu_icons_follow_debug_state() {
    let off = menu_icons(false);
    assert_eq!(off.len(), 5);
    assert_eq!(off[0], misc_glyph(0));
    assert_eq!(off[3], misc_glyph(3));
    assert_eq!(off[4], misc_glyph(4));
    let on = menu_icons(true);
    assert_eq!(on[4], misc_glyph(5));
}

#[test]
fn menu_slots_count_every_pixel() {
    let m = MenuLogic::new();
    let slots = m.slots();
    let icons = menu_icons(false);
    let pixels: usize = m.digits().iter().map(|d| d.len()).sum::<usize>()
        + icons.iter().map(|i| i.len()).sum::<usize>();
    assert_eq!(slots.len(), pixels);
    assert_eq!(slots[0], Slot::Digit { place: 0, x: 1, y: 0 });
    assert_eq!(slots[slots.len() - 1], {
        let last = *icons[4].last().unwrap();
        Slot::Icon { icon: 4, x: last.0, y: last.1 }
    });
}

#[test]
fn menu_reports_colour_only_when_it_changes() {
    let mut m = MenuLogic::new();
    let r = m.step(&[touch(true, false, false, false, true)]);
    assert_eq!(r, MenuOutcome::Stay { color: None, debug_pushed: true });
    let r = m.step(&[]);
    assert_eq!(r, MenuOutcome::Stay { color: None, debug_pushed: false });
}

#[test]
fn menu_colours_wrap_to_first() {
    let mut m = MenuLogic::new();
    let c = touch(false, false, false, true, false);
    for _ in 0..6 {
        m.step(&[c]);
        m.step(&[]);
    }
    assert_eq!(m.color_index(), 6);
    assert_eq!(m.step(&[c]), MenuOutcome::Stay { color: Some(0), debug_pushed: false });
}

#[test]
fn menu_can_step_with_ordinary_touches() {
    let m = MenuLogic::new();
    assert!(m.can_step(&[touch(true, true, true, true, true), nothing()]));
    assert!(m.can_step(&[]));
}

#[test]
fn menu_reaches_power_of_ten() {
    let mut m = MenuLogic::new();
    for _ in 0..250 {
        m.step(&[touch(true, false, false, false, false)]);
    }
    assert_eq!(m.get_number(), 10000);
    assert_eq!(m.digits().len(), 5);
}

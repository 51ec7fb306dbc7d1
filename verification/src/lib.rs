//! Verified logic of a small bot-swarm touch demo: the decisions of its start
//! menu, which bot is placed on which pixel of the menu, how many vertices the
//! drawing takes, and the text rows of its logs.
mod clicker;
mod counter;
mod csv;
mod glyph;
mod menu;
mod vertices;

pub use clicker::{
    any_touch, fires, lemma_held_touch_fires_once, lemma_touch_after_release_fires,
    lemma_touch_anywhere_counts, Clicker,
};
pub use counter::{obeys_iter_laws, IteratorCounter};
pub use csv::{
    cells, csv_line, csv_row, data_row_prefix, decimal, decimal_string, decimal_value, digit_char,
    fields_width, lemma_decimal_reads_back, lemma_level_name_reads_back, lemma_row_layout, level_name, level_names, texts,
};
pub use glyph::{
    ascii_digit_glyph, ascii_misc_coords, digit_group, digit_slots, digit_slots_upto,
    digit_values, grid_extent, group_slots, icon_group, icon_slots, icon_slots_upto, is_max_x,
    is_max_y, leading_pixels, lemma_digit_slot_places, lemma_digit_values_decimal,
    lemma_icon_slot_places, lemma_slot_count, trailing_pixels, menu_slots, misc_glyph,
    number_glyphs, pixel_count, NumberDigits, Slot,
};
pub use menu::{
    after_touch, color_after, color_hits, debug_hits, down_touch, first_start, first_start_from,
    lemma_buttons_act_apart, lemma_color_reported_iff_changed, lemma_colors_cycle,
    lemma_icons_in_button_order, lemma_debug_flips, lemma_debug_twice,
    lemma_down_lowers, lemma_down_undoes_up, lemma_first_start, lemma_number_floor,
    lemma_number_stays_without_arrows, lemma_start_after_ups, lemma_up_raises, lemma_start_with_enough_bots, lemma_step_keeps_view_ok,
    lowered, lowering_ok, menu_icons, menu_next, next_color, number_before, numbers_fit,
    shown_icons, touches_seen, up_touch, view_ok, MenuLogic, MenuOutcome, MenuView, PoseHits,
    MIN_NUMBER, NUMBER_STEP, NUM_COLORS, START_NUMBER,
};
pub use vertices::{
    bot_vertex_count, bot_vertices, lemma_vertex_counts, checked_system_vertex_count, checked_tree_vertex_count,
    system_vertex_count, system_vertex_count_for, system_vertices, tree_height, tree_vertex_count,
    tree_vertices, vertices_fit, TREE_ELEM_PER_NODE,
};

use botsim::{
    bot_vertex_count, checked_system_vertex_count, checked_tree_vertex_count, csv_row, data_row_prefix, decimal_string, level_names,
    system_vertex_count, system_vertex_count_for, tree_height, tree_vertex_count,
};

#[test]
fn three_vertices_per_bot() {
    assert_eq!(bot_vertex_count(0), 0);
    assert_eq!(bot_vertex_count(10), 30);
}

#[test]
fn tree_vertices_by_height() {
    assert_eq!(tree_vertex_count(0), 0);
    assert_eq!(tree_vertex_count(1), 0);
    assert_eq!(tree_vertex_count(3), 18);
    assert_eq!(tree_vertex_count(5), 90);
}

#[test]
fn tree_height_of_few_bots_is_one() {
    assert_eq!(tree_height(0), 1);
    assert_eq!(tree_height(128), 1);
}

#[test]
fn tree_height_of_many_bots_is_odd() {
    for n in [129usize, 512, 1000, 5000, usize::MAX] {
        let h = tree_height(n);
        assert_eq!(h % 2, 1);
        assert!(h >= 1);
    }
}

#[test]
fn system_vertices_with_and_without_tree() {
    let (h, count) = system_vertex_count(1000, true);
    assert_eq!(h % 2, 1);
    assert_eq!(count, Some(tree_vertex_count(h) + 3000));
    let (h, count) = system_vertex_count(100, true);
    assert_eq!(h, 1);
    assert_eq!(count, Some(300));
    assert_eq!(system_vertex_count(1000, false).1, Some(3000));
    assert_eq!(system_vertex_count_for(5, 1000, true), 3090);
    assert_eq!(system_vertex_count(usize::MAX, false).1, None);
    assert_eq!(checked_system_vertex_count(5, 1000, true), Some(3090));
    assert_eq!(checked_system_vertex_count(usize::BITS as usize, 1, true), None);
    assert_eq!(checked_system_vertex_count(usize::BITS as usize, 1, false), Some(3));
    assert_eq!(checked_tree_vertex_count(3), Some(18));
}

#[test]
fn decimal_strings() {
    assert_eq!(decimal_string(0), "0");
    assert_eq!(decimal_string(7), "7");
    assert_eq!(decimal_string(305), "305");
    assert_eq!(decimal_string(usize::MAX), usize::MAX.to_string());
}

#[test]
fn csv_header_row() {
    let names = vec!["a".to_string(), "bc".to_string()];
    assert_eq!(csv_row("Iteration", &names), "Iteration,a,bc,\n");
    assert_eq!(csv_row("x", &[]), "x,\n");
}

#[test]
fn level_names_count_up() {
    assert_eq!(level_names(0), Vec::<String>::new());
    assert_eq!(level_names(3), vec!["level 0", "level 1", "level 2"]);
    let many = level_names(12);
    assert_eq!(many[11], "level 11");
}

#[test]
fn data_rows_start_with_counter() {
    assert_eq!(data_row_prefix(0), "0,");
    assert_eq!(data_row_prefix(12), "12,");
}

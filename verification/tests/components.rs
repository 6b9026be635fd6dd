//! Unit tests of the engine's components: ranking, viewport,
//! selection and layout.

use fz::engine::Fz;
use fz::rank::rank;
use fz::render::layout;
use fz::selection::{is_selected, toggle};
use fz::viewport::{visible_rows_for, Viewport};

fn fruit() -> Vec<String> {
    vec!["banana".to_string(), "apple".to_string(), "grape".to_string()]
}

#[test]
fn empty_pattern_ranks_lexicographically() {
    let cands = fruit();
    let r = rank(&cands, &Vec::new());
    assert_eq!(r, vec![1, 0, 2]);
}

#[test]
fn empty_pattern_keeps_duplicates() {
    let cands = vec!["b".to_string(), "a".to_string(), "b".to_string()];
    let r = rank(&cands, &Vec::new());
    assert_eq!(r.len(), 3);
    assert_eq!(r[0], 1);
}

#[test]
fn scored_pattern_filters_non_matches() {
    let cands = fruit();
    let r = rank(&cands, &vec!['b', 'a']);
    assert_eq!(r, vec![0]);
}

#[test]
fn scored_pattern_prefers_tighter_matches() {
    let cands = vec!["axbxc".to_string(), "abc".to_string()];
    let r = rank(&cands, &vec!['a', 'b', 'c']);
    assert_eq!(r[0], 1);
    assert_eq!(r.len(), 2);
}

#[test]
fn equal_scores_fall_back_to_lexicographic_order() {
    let cands = vec!["pear".to_string(), "pea".to_string()];
    let r = rank(&cands, &Vec::new());
    assert_eq!(r, vec![1, 0]);
}

#[test]
fn move_up_stops_at_the_last_match() {
    let mut vp = Viewport { offset: 0, index: 2, visible_rows: 10 };
    vp.move_up(3);
    assert_eq!(vp, Viewport { offset: 0, index: 2, visible_rows: 10 });
}

#[test]
fn move_up_on_empty_list_is_a_no_op() {
    let mut vp = Viewport { offset: 0, index: 0, visible_rows: 10 };
    vp.move_up(0);
    assert_eq!(vp, Viewport { offset: 0, index: 0, visible_rows: 10 });
}

#[test]
fn move_up_scrolls_when_the_frame_is_full() {
    let mut vp = Viewport { offset: 0, index: 2, visible_rows: 2 };
    vp.move_up(5);
    assert_eq!(vp, Viewport { offset: 1, index: 2, visible_rows: 2 });
}

#[test]
fn move_down_stops_at_position_zero() {
    let mut vp = Viewport { offset: 0, index: 0, visible_rows: 10 };
    vp.move_down(3);
    assert_eq!(vp, Viewport { offset: 0, index: 0, visible_rows: 10 });
}

#[test]
fn move_down_scrolls_past_the_frame() {
    let mut vp = Viewport { offset: 3, index: 0, visible_rows: 2 };
    vp.move_down(6);
    assert_eq!(vp, Viewport { offset: 2, index: 0, visible_rows: 2 });
}

#[test]
fn reset_clamps_the_cursor_into_the_new_list() {
    let mut vp = Viewport { offset: 4, index: 5, visible_rows: 10 };
    vp.reset_for_new_matches(3);
    assert_eq!(vp, Viewport { offset: 0, index: 2, visible_rows: 10 });
    vp.reset_for_new_matches(0);
    assert_eq!(vp, Viewport { offset: 0, index: 0, visible_rows: 10 });
}

#[test]
fn visible_rows_follow_the_height() {
    assert_eq!(visible_rows_for(24), 22);
    assert_eq!(visible_rows_for(3), 1);
    assert_eq!(visible_rows_for(2), 1);
}

#[test]
fn toggle_adds_then_removes_by_value() {
    let mut sel: Vec<String> = Vec::new();
    let apple = "apple".to_string();
    assert!(toggle(&mut sel, &apple));
    assert!(is_selected(&sel, &apple));
    assert!(!toggle(&mut sel, &apple));
    assert!(!is_selected(&sel, &apple));
    assert!(sel.is_empty());
}

#[test]
fn toggle_keeps_other_selections() {
    let mut sel: Vec<String> = Vec::new();
    let a = "a".to_string();
    let b = "b".to_string();
    toggle(&mut sel, &a);
    toggle(&mut sel, &b);
    toggle(&mut sel, &a);
    assert_eq!(sel, vec!["b".to_string()]);
}

#[test]
fn layout_fills_rows_bottom_up() {
    let cands = fruit();
    let matches = vec![1usize, 0, 2];
    let vp = Viewport { offset: 0, index: 0, visible_rows: 22 };
    let selected = vec!["banana".to_string()];
    let pattern: Vec<char> = Vec::new();
    let plan = layout(&cands, &matches, &vp, &selected, &pattern, 80, 24);
    assert_eq!(plan.rows.len(), 3);
    assert_eq!(plan.rows[0].y, 22);
    assert_eq!(plan.rows[0].idx, 1);
    assert!(!plan.rows[0].selected);
    assert_eq!(plan.rows[1].y, 21);
    assert_eq!(plan.rows[1].idx, 0);
    assert!(plan.rows[1].selected);
    assert_eq!(plan.rows[2].idx, 2);
    assert_eq!(plan.marker_y, Some(22));
    assert_eq!(plan.pattern_row, 23);
    assert_eq!(plan.cursor_col, 0);
}

#[test]
fn layout_caps_rows_at_the_budget_and_marks_overflow() {
    let cands = vec![
        "a-very-long-candidate-name".to_string(),
        "b".to_string(),
        "c".to_string(),
        "d".to_string(),
    ];
    let matches = vec![0usize, 1, 2, 3];
    let vp = Viewport { offset: 1, index: 1, visible_rows: 1 };
    let selected: Vec<String> = Vec::new();
    let pattern = vec!['x'];
    let plan = layout(&cands, &matches, &vp, &selected, &pattern, 10, 3);
    assert_eq!(plan.rows.len(), 2);
    assert_eq!(plan.rows[0].idx, 1);
    assert_eq!(plan.rows[1].idx, 2);
    assert!(!plan.rows[0].truncated);
    assert_eq!(plan.marker_y, Some(0));
    assert_eq!(plan.pattern_row, 2);
    assert_eq!(plan.cursor_col, 1);
    let wide = layout(&cands, &matches, &Viewport { offset: 0, index: 0, visible_rows: 1 }, &selected, &pattern, 10, 3);
    assert!(wide.rows[0].truncated);
}

#[test]
fn marker_is_absent_without_matches() {
    let cands = fruit();
    let matches: Vec<usize> = Vec::new();
    let vp = Viewport { offset: 0, index: 0, visible_rows: 22 };
    let plan = layout(&cands, &matches, &vp, &Vec::new(), &Vec::new(), 80, 24);
    assert!(plan.rows.is_empty());
    assert_eq!(plan.marker_y, None);
}

#[test]
fn max_rows_reserves_two_lines() {
    let cands = fruit();
    let fz = Fz::new(&cands, 80, 24);
    assert_eq!(fz.max_rows(), 22);
}

#[test]
fn new_session_starts_clean() {
    let cands = fruit();
    let fz = Fz::new(&cands, 80, 24);
    assert!(fz.pattern.is_empty());
    assert!(fz.selected.is_empty());
    assert_eq!(fz.matches, vec![1, 0, 2]);
    assert_eq!(fz.vp, Viewport { offset: 0, index: 0, visible_rows: 22 });
}

#[test]
fn resize_step_touches_only_dimensions() {
    let cands = fruit();
    let mut fz = Fz::new(&cands, 80, 24);
    fz.step(&cands, fz::engine::Event::Key(fz::engine::Key::Up, fz::engine::Mods { shift: false, control: false, other: false }));
    let before = fz.vp;
    fz.step(&cands, fz::engine::Event::Resize(100, 50));
    assert_eq!(fz.width, 100);
    assert_eq!(fz.height, 50);
    assert_eq!(fz.vp.offset, before.offset);
    assert_eq!(fz.vp.index, before.index);
    assert_eq!(fz.vp.visible_rows, 48);
    assert_eq!(fz.pattern, Vec::<char>::new());
    assert_eq!(fz.matches, vec![1, 0, 2]);
}

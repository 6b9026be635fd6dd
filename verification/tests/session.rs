//! End-to-end sessions driven through `fz::select`.

use fz::engine::{Effect, Event, Key, Mods};
use fz::select;

fn no_mods() -> Mods {
    Mods { shift: false, control: false, other: false }
}

fn ctrl() -> Mods {
    Mods { shift: false, control: true, other: false }
}

fn shift() -> Mods {
    Mods { shift: true, control: false, other: false }
}

fn fruit() -> Vec<String> {
    vec!["banana".to_string(), "apple".to_string(), "grape".to_string()]
}

fn key(k: Key) -> Event {
    Event::Key(k, no_mods())
}

#[test]
fn empty_pattern_confirm_picks_lexicographic_first() {
    let cands = fruit();
    let events = vec![key(Key::Enter)];
    let r = select(&cands, 80, 24, &events);
    assert_eq!(r, vec!["apple".to_string()]);
}

#[test]
fn typed_pattern_filters_and_confirms_best_match() {
    let cands = fruit();
    let events = vec![
        Event::Key(Key::Char('b'), no_mods()),
        Event::Key(Key::Char('a'), no_mods()),
        key(Key::Enter),
    ];
    let r = select(&cands, 80, 24, &events);
    assert_eq!(r, vec!["banana".to_string()]);
}

#[test]
fn two_toggles_confirm_returns_both_in_toggle_order() {
    let cands = fruit();
    let events = vec![key(Key::Tab), key(Key::Up), key(Key::Tab), key(Key::Enter)];
    let r = select(&cands, 80, 24, &events);
    assert_eq!(r, vec!["apple".to_string(), "banana".to_string()]);
}

#[test]
fn toggles_survive_pattern_changes_at_confirm_time() {
    let cands = fruit();
    let events = vec![
        key(Key::Tab),
        key(Key::Up),
        key(Key::Tab),
        Event::Key(Key::Char('z'), no_mods()),
        Event::Key(Key::Char('z'), no_mods()),
        key(Key::Enter),
    ];
    let r = select(&cands, 80, 24, &events);
    assert_eq!(r, vec!["apple".to_string(), "banana".to_string()]);
}

#[test]
fn double_toggle_returns_to_implicit_selection() {
    let cands = fruit();
    let events = vec![key(Key::Tab), key(Key::Tab), key(Key::Enter)];
    let r = select(&cands, 80, 24, &events);
    assert_eq!(r, vec!["apple".to_string()]);
}

#[test]
fn confirm_on_empty_candidate_list_returns_nothing() {
    let cands: Vec<String> = Vec::new();
    let events = vec![key(Key::Enter)];
    let r = select(&cands, 80, 24, &events);
    assert!(r.is_empty());
}

#[test]
fn confirm_on_filtered_out_everything_returns_nothing() {
    let cands = fruit();
    let events = vec![
        Event::Key(Key::Char('q'), no_mods()),
        Event::Key(Key::Char('q'), no_mods()),
        key(Key::Enter),
    ];
    let r = select(&cands, 80, 24, &events);
    assert!(r.is_empty());
}

#[test]
fn ctrl_m_confirms_like_enter() {
    let cands = fruit();
    let events = vec![Event::Key(Key::Char('m'), ctrl())];
    let r = select(&cands, 80, 24, &events);
    assert_eq!(r, vec!["apple".to_string()]);
}

#[test]
fn ctrl_p_and_ctrl_n_navigate() {
    let cands = fruit();
    let events = vec![
        Event::Key(Key::Char('p'), ctrl()),
        Event::Key(Key::Char('p'), ctrl()),
        Event::Key(Key::Char('n'), ctrl()),
        key(Key::Enter),
    ];
    let r = select(&cands, 80, 24, &events);
    assert_eq!(r, vec!["banana".to_string()]);
}

#[test]
fn backspace_restores_the_full_list() {
    let cands = fruit();
    let events = vec![
        Event::Key(Key::Char('b'), no_mods()),
        key(Key::Backspace),
        key(Key::Enter),
    ];
    let r = select(&cands, 80, 24, &events);
    assert_eq!(r, vec!["apple".to_string()]);
}

#[test]
fn modified_characters_are_ignored() {
    let cands = fruit();
    let events = vec![
        Event::Key(Key::Char('b'), ctrl()),
        Event::Key(Key::Char('q'), Mods { shift: false, control: false, other: true }),
        key(Key::Enter),
    ];
    let r = select(&cands, 80, 24, &events);
    assert_eq!(r, vec!["apple".to_string()]);
}

#[test]
fn shift_uppercases_typed_characters() {
    let cands = vec!["LOUD".to_string(), "quiet".to_string()];
    let events = vec![
        Event::Key(Key::Char('l'), shift()),
        key(Key::Enter),
    ];
    let r = select(&cands, 80, 24, &events);
    assert_eq!(r, vec!["LOUD".to_string()]);
}

#[test]
fn resize_mid_session_keeps_cursor_and_result() {
    let cands = fruit();
    let events = vec![key(Key::Up), Event::Resize(40, 10), key(Key::Enter)];
    let r = select(&cands, 80, 24, &events);
    assert_eq!(r, vec!["banana".to_string()]);
}

#[test]
fn events_after_confirm_are_ignored() {
    let cands = fruit();
    let events = vec![key(Key::Enter), key(Key::Up), key(Key::Tab)];
    let r = select(&cands, 80, 24, &events);
    assert_eq!(r, vec!["apple".to_string()]);
}

#[test]
fn session_without_confirm_reports_current_state() {
    let cands = fruit();
    let events = vec![key(Key::Up)];
    let r = select(&cands, 80, 24, &events);
    assert_eq!(r, vec!["banana".to_string()]);
}

#[test]
fn step_effects_follow_the_redraw_policy() {
    let cands = fruit();
    let mut fz = fz::engine::Fz::new(&cands, 80, 24);
    let up = fz.step(&cands, key(Key::Up));
    assert_eq!(up, Effect::Moved { prev: 0, now: 1 });
    let resize = fz.step(&cands, Event::Resize(40, 10));
    assert_eq!(resize, Effect::Full);
    let tab = fz.step(&cands, key(Key::Tab));
    assert_eq!(tab, Effect::Toggled { row: 1, on: true });
    let other = fz.step(&cands, Event::Other);
    assert_eq!(other, Effect::Stay);
    let quit = fz.step(&cands, key(Key::Enter));
    assert_eq!(quit, Effect::Quit);
}

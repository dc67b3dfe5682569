use backlog::input::{Key, KeyInput, StepResult};
use backlog::item::{Backlog, BacklogItem};
use backlog::session::{adjust_scroll, App, Mode};

fn item(desc: &str, done: bool) -> BacklogItem {
    BacklogItem { description: desc.chars().collect(), created_at: 1_700_000_000, done }
}

fn store3() -> Backlog {
    Backlog {
        items: vec![item("write tests", false), item("fix bug", true), item("ship", false)],
    }
}

fn app3() -> App {
    App::new(store3())
}

fn plain(key: Key) -> KeyInput {
    KeyInput { key, shift: false }
}

fn shifted(key: Key) -> KeyInput {
    KeyInput { key, shift: true }
}

fn desc_of(app: &App, idx: usize) -> String {
    app.backlog.items[idx].description.iter().collect()
}

#[test]
fn new_session_starts_in_normal_mode_at_top() {
    let app = app3();
    assert_eq!(app.selected, 0);
    assert_eq!(app.scroll_offset, 0);
    assert_eq!(app.mode, Mode::Normal);
    assert!(app.edit_buffer.is_empty());
    assert_eq!(app.edit_cursor, 0);
    assert!(app.output.is_none());
    assert!(!app.pending_d);
    assert!(!app.hide_completed);
}

#[test]
fn toggle_done_on_first_row_marks_it_and_keeps_selection() {
    let mut app = app3();
    let r = app.handle_key(plain(Key::Char('x')));
    assert_eq!(r, StepResult { exit: false, persist: true });
    assert!(app.backlog.items[0].done);
    assert!(app.backlog.items[1].done);
    assert!(!app.backlog.items[2].done);
    assert_eq!(desc_of(&app, 0), "write tests");
    assert_eq!(app.selected, 0);
}

#[test]
fn hiding_completed_shows_only_pending_items() {
    let mut app = app3();
    app.backlog.items[0].done = true;
    app.handle_key(plain(Key::Char('h')));
    assert!(app.hide_completed);
    assert_eq!(app.visible_indices(), vec![2]);
}

#[test]
fn visible_indices_with_filter_off_lists_everything() {
    let app = app3();
    assert_eq!(app.visible_indices(), vec![0, 1, 2]);
}

#[test]
fn visible_indices_with_filter_on_skips_done() {
    let mut app = app3();
    app.hide_completed = true;
    assert_eq!(app.visible_indices(), vec![0, 2]);
}

#[test]
fn visible_and_actual_maps_invert_each_other() {
    let mut app = app3();
    app.hide_completed = true;
    assert_eq!(app.visible_to_actual(0), Some(0));
    assert_eq!(app.visible_to_actual(1), Some(2));
    assert_eq!(app.visible_to_actual(2), None);
    assert_eq!(app.actual_to_visible(0), Some(0));
    assert_eq!(app.actual_to_visible(1), None);
    assert_eq!(app.actual_to_visible(2), Some(1));
    for v in 0..2 {
        let a = app.visible_to_actual(v).unwrap();
        assert_eq!(app.actual_to_visible(a), Some(v));
    }
}

#[test]
fn toggling_hide_twice_restores_the_visible_set() {
    let mut app = app3();
    let before = app.visible_indices();
    app.handle_key(plain(Key::Char('h')));
    app.handle_key(plain(Key::Char('h')));
    assert_eq!(app.visible_indices(), before);
    assert!(!app.hide_completed);
}

#[test]
fn navigation_stays_within_bounds() {
    let mut app = app3();
    app.handle_key(plain(Key::Char('k')));
    assert_eq!(app.selected, 0);
    app.handle_key(plain(Key::Char('j')));
    assert_eq!(app.selected, 1);
    app.handle_key(plain(Key::Down));
    assert_eq!(app.selected, 2);
    app.handle_key(plain(Key::Down));
    assert_eq!(app.selected, 2);
    app.handle_key(plain(Key::Up));
    assert_eq!(app.selected, 1);
}

#[test]
fn move_item_down_swaps_two_neighbours_and_follows() {
    let mut app = app3();
    let r = app.handle_key(shifted(Key::Char('J')));
    assert_eq!(r, StepResult { exit: false, persist: true });
    assert_eq!(desc_of(&app, 0), "fix bug");
    assert_eq!(desc_of(&app, 1), "write tests");
    assert_eq!(desc_of(&app, 2), "ship");
    assert_eq!(app.selected, 1);
}

#[test]
fn move_item_down_on_last_row_is_a_no_op() {
    let mut app = app3();
    app.selected = 2;
    let r = app.handle_key(shifted(Key::Char('J')));
    assert_eq!(r, StepResult { exit: false, persist: false });
    assert_eq!(desc_of(&app, 0), "write tests");
    assert_eq!(desc_of(&app, 1), "fix bug");
    assert_eq!(desc_of(&app, 2), "ship");
    assert_eq!(app.selected, 2);
}

#[test]
fn move_item_up_skips_over_hidden_neighbours() {
    let mut app = app3();
    app.hide_completed = true;
    app.selected = 1; // the visible position of "ship", actual index 2
    let r = app.handle_key(shifted(Key::Char('K')));
    assert_eq!(r, StepResult { exit: false, persist: true });
    // the swap is with the actual neighbour, the hidden "fix bug"
    assert_eq!(desc_of(&app, 0), "write tests");
    assert_eq!(desc_of(&app, 1), "ship");
    assert_eq!(desc_of(&app, 2), "fix bug");
    assert_eq!(app.selected, 1);
}

#[test]
fn adding_an_item_appends_and_selects_it() {
    let mut app = app3();
    app.handle_key(plain(Key::Char('a')));
    assert_eq!(app.mode, Mode::Add);
    assert!(app.edit_buffer.is_empty());
    assert_eq!(app.edit_cursor, 0);
    for c in "buy milk".chars() {
        app.handle_key(plain(Key::Char(c)));
    }
    let r = app.handle_key(plain(Key::Enter));
    assert_eq!(r, StepResult { exit: false, persist: true });
    assert_eq!(app.mode, Mode::Normal);
    assert_eq!(app.backlog.items.len(), 4);
    assert_eq!(desc_of(&app, 3), "buy milk");
    assert!(!app.backlog.items[3].done);
    assert_eq!(app.selected, 3);
}

#[test]
fn committing_add_with_an_empty_buffer_adds_nothing() {
    let mut app = app3();
    app.handle_key(plain(Key::Char('a')));
    let r = app.handle_key(plain(Key::Enter));
    assert_eq!(r, StepResult { exit: false, persist: false });
    assert_eq!(app.backlog.items.len(), 3);
    assert_eq!(app.mode, Mode::Normal);
}

#[test]
fn editing_overwrites_the_selected_description() {
    let mut app = app3();
    app.handle_key(plain(Key::Char('j')));
    app.handle_key(plain(Key::Char('e')));
    assert_eq!(app.mode, Mode::Edit);
    let seeded: String = app.edit_buffer.iter().collect();
    assert_eq!(seeded, "fix bug");
    assert_eq!(app.edit_cursor, 7);
    app.handle_key(plain(Key::Char('s')));
    let r = app.handle_key(plain(Key::Enter));
    assert_eq!(r, StepResult { exit: false, persist: true });
    assert_eq!(desc_of(&app, 1), "fix bugs");
    assert_eq!(app.mode, Mode::Normal);
}

#[test]
fn escape_discards_the_edit_buffer() {
    let mut app = app3();
    app.handle_key(plain(Key::Char('e')));
    app.handle_key(plain(Key::Char('!')));
    app.handle_key(plain(Key::Esc));
    assert_eq!(app.mode, Mode::Normal);
    assert_eq!(desc_of(&app, 0), "write tests");
}

#[test]
fn text_editing_moves_and_deletes_by_code_points() {
    let mut app = app3();
    app.handle_key(plain(Key::Char('a')));
    for c in "abc".chars() {
        app.handle_key(plain(Key::Char(c)));
    }
    app.handle_key(plain(Key::Left));
    app.handle_key(plain(Key::Left));
    assert_eq!(app.edit_cursor, 1);
    app.handle_key(plain(Key::Backspace));
    let buf: String = app.edit_buffer.iter().collect();
    assert_eq!(buf, "bc");
    assert_eq!(app.edit_cursor, 0);
    app.handle_key(plain(Key::Delete));
    let buf: String = app.edit_buffer.iter().collect();
    assert_eq!(buf, "c");
    app.handle_key(plain(Key::Right));
    assert_eq!(app.edit_cursor, 1);
    app.handle_key(plain(Key::Right));
    assert_eq!(app.edit_cursor, 1);
}

#[test]
fn double_tap_delete_removes_the_selected_item() {
    let mut app = app3();
    let r1 = app.handle_key(plain(Key::Char('d')));
    assert_eq!(r1, StepResult { exit: false, persist: false });
    assert!(app.pending_d);
    assert_eq!(app.backlog.items.len(), 3);
    let r2 = app.handle_key(plain(Key::Char('d')));
    assert_eq!(r2, StepResult { exit: false, persist: true });
    assert_eq!(app.backlog.items.len(), 2);
    assert_eq!(desc_of(&app, 0), "fix bug");
}

#[test]
fn an_unrelated_key_disarms_the_pending_delete() {
    let mut app = app3();
    app.handle_key(plain(Key::Char('d')));
    assert!(app.pending_d);
    app.handle_key(plain(Key::Char('z')));
    assert!(!app.pending_d);
    app.handle_key(plain(Key::Char('d')));
    assert_eq!(app.backlog.items.len(), 3);
}

#[test]
fn confirm_gated_delete_matches_the_double_tap_path() {
    let mut tapped = app3();
    tapped.selected = 1;
    tapped.handle_key(plain(Key::Char('d')));
    let r1 = tapped.handle_key(plain(Key::Char('d')));

    let mut gated = app3();
    gated.selected = 1;
    gated.handle_key(plain(Key::Backspace));
    assert_eq!(gated.mode, Mode::ConfirmDelete);
    let r2 = gated.handle_key(plain(Key::Char('y')));

    assert_eq!(r1, r2);
    assert_eq!(tapped.backlog.items.len(), gated.backlog.items.len());
    for i in 0..tapped.backlog.items.len() {
        assert_eq!(desc_of(&tapped, i), desc_of(&gated, i));
        assert_eq!(tapped.backlog.items[i].done, gated.backlog.items[i].done);
    }
    assert_eq!(tapped.selected, gated.selected);
}

#[test]
fn answering_no_keeps_the_item() {
    let mut app = app3();
    app.handle_key(plain(Key::Delete));
    assert_eq!(app.mode, Mode::ConfirmDelete);
    let r = app.handle_key(plain(Key::Char('n')));
    assert_eq!(r, StepResult { exit: false, persist: false });
    assert_eq!(app.backlog.items.len(), 3);
    assert_eq!(app.mode, Mode::Normal);
}

#[test]
fn deleting_the_last_visible_item_clamps_the_selection() {
    let mut app = app3();
    app.selected = 2;
    app.handle_key(plain(Key::Char('d')));
    app.handle_key(plain(Key::Char('d')));
    assert_eq!(app.backlog.items.len(), 2);
    assert_eq!(app.selected, 1);
}

#[test]
fn enter_captures_the_selected_description_and_exits() {
    let mut app = app3();
    app.handle_key(plain(Key::Char('j')));
    let r = app.handle_key(plain(Key::Enter));
    assert_eq!(r, StepResult { exit: true, persist: false });
    let out: String = app.output.clone().unwrap().iter().collect();
    assert_eq!(out, "fix bug");
}

#[test]
fn quit_exits_without_output() {
    let mut app = app3();
    let r = app.handle_key(plain(Key::Char('q')));
    assert_eq!(r, StepResult { exit: true, persist: false });
    assert!(app.output.is_none());
    let mut app2 = app3();
    let r2 = app2.handle_key(plain(Key::Esc));
    assert_eq!(r2, StepResult { exit: true, persist: false });
}

#[test]
fn completing_the_last_pending_item_under_the_filter_clamps() {
    let mut app = app3();
    app.backlog.items[0].done = true;
    app.hide_completed = true;
    app.selected = 0; // "ship" is the only visible row
    app.handle_key(plain(Key::Char('x')));
    assert!(app.backlog.items[2].done);
    assert_eq!(app.visible_indices(), Vec::<usize>::new());
    assert_eq!(app.selected, 0);
}

#[test]
fn a_filtered_view_renumbers_from_one() {
    let mut app = app3();
    app.backlog.items[0].done = true;
    app.handle_key(plain(Key::Char('h')));
    assert_eq!(app.visible_indices(), vec![2]);
    let rows = backlog::visibility::visible_items(&app.backlog, app.hide_completed);
    let list = backlog::render::BacklogList::new(
        rows,
        app.selected,
        app.scroll_offset,
        "Backlog (hiding completed)".to_string(),
        app.hide_completed,
    );
    let grid = list.render(16, 4);
    assert_eq!(grid.len(), 1);
    let text: String = grid[0].iter().map(|c| c.ch).collect();
    // "ship" sits at store position 3 but renders with the number 1
    assert_eq!(text, "1. [ ]  ship    ");
}

#[test]
fn scroll_follows_the_selection() {
    assert_eq!(adjust_scroll(1, 4, 3), 1);
    assert_eq!(adjust_scroll(4, 4, 3), 4);
    assert_eq!(adjust_scroll(6, 4, 3), 4);
    assert_eq!(adjust_scroll(7, 4, 3), 5);
    assert_eq!(adjust_scroll(9, 4, 3), 7);
    assert_eq!(adjust_scroll(9, 4, 0), 4);
}

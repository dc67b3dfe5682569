//! Key events and the modal dispatcher: one verified step of the session
//! state machine per key press. The surrounding loop reads keys, performs
//! the persistence the step asks for, and exits when the step says so.

use vstd::prelude::*;
use crate::item::ItemModel;
use crate::session::{
    App, AppModel, Mode, clamp_selected, position_of, move_up_spec, move_down_spec,
    toggle_done_spec, move_item_up_spec, move_item_down_spec, delete_selected_spec,
    toggle_hide_spec, enter_edit_spec, confirm_edit_spec, select_item_spec, enter_add_spec,
    confirm_add_spec, insert_char_spec, backspace_spec, delete_char_spec, cursor_left_spec,
    cursor_right_spec, lemma_all_visible, lemma_visible_same, now_timestamp,
};
use crate::visibility::{
    item_visible, visible_indices_spec, lemma_visible_indices_shape,
    lemma_visible_indices_complete,
};

verus! {

/// A key, as the session understands it.
#[derive(PartialEq, Eq, Structural, Clone, Copy, Debug)]
pub enum Key {
    Char(char),
    Up,
    Down,
    Left,
    Right,
    Enter,
    Esc,
    Backspace,
    Delete,
    /// Any key the session has no binding for: it only disarms the pending
    /// double-tap delete.
    Other,
}

/// One key press: the key and whether shift was held.
#[derive(PartialEq, Eq, Structural, Clone, Copy, Debug)]
pub struct KeyInput {
    pub key: Key,
    pub shift: bool,
}

/// What the surrounding loop must do after a step: persist the store, and
/// whether the session ends.
#[derive(PartialEq, Eq, Structural, Clone, Copy, Debug)]
pub struct StepResult {
    pub exit: bool,
    pub persist: bool,
}

pub open spec fn no_step() -> StepResult {
    StepResult { exit: false, persist: false }
}

/// Whether the selection names a row of the visible set.
pub open spec fn selection_valid(m: AppModel) -> bool {
    0 <= m.selected < m.vis().len()
}

/// One step in the normal mode.
pub open spec fn step_normal_spec(m: AppModel, key: KeyInput) -> (AppModel, StepResult) {
    match key.key {
        Key::Char(c) => {
            if c == 'q' {
                (m, StepResult { exit: true, persist: false })
            } else if c == 'J' && key.shift {
                (
                    AppModel { pending_d: false, ..move_item_down_spec(m) },
                    StepResult {
                        exit: false,
                        persist: selection_valid(m) && m.vis()[m.selected] < m.items.len() - 1,
                    },
                )
            } else if c == 'K' && key.shift {
                (
                    AppModel { pending_d: false, ..move_item_up_spec(m) },
                    StepResult {
                        exit: false,
                        persist: selection_valid(m) && m.vis()[m.selected] > 0,
                    },
                )
            } else if c == 'j' {
                (AppModel { pending_d: false, ..move_down_spec(m) }, no_step())
            } else if c == 'k' {
                (AppModel { pending_d: false, ..move_up_spec(m) }, no_step())
            } else if c == 'x' {
                (
                    AppModel { pending_d: false, ..toggle_done_spec(m) },
                    StepResult { exit: false, persist: selection_valid(m) },
                )
            } else if c == 'e' {
                (AppModel { pending_d: false, ..enter_edit_spec(m) }, no_step())
            } else if c == 'a' {
                (AppModel { pending_d: false, ..enter_add_spec(m) }, no_step())
            } else if c == 'h' {
                (AppModel { pending_d: false, ..toggle_hide_spec(m) }, no_step())
            } else if c == 'd' {
                if m.pending_d {
                    (
                        AppModel { pending_d: false, ..delete_selected_spec(m) },
                        StepResult { exit: false, persist: selection_valid(m) },
                    )
                } else {
                    (AppModel { pending_d: true, ..m }, no_step())
                }
            } else {
                (AppModel { pending_d: false, ..m }, no_step())
            }
        },
        Key::Esc => (m, StepResult { exit: true, persist: false }),
        Key::Down => {
            if key.shift {
                (
                    AppModel { pending_d: false, ..move_item_down_spec(m) },
                    StepResult {
                        exit: false,
                        persist: selection_valid(m) && m.vis()[m.selected] < m.items.len() - 1,
                    },
                )
            } else {
                (AppModel { pending_d: false, ..move_down_spec(m) }, no_step())
            }
        },
        Key::Up => {
            if key.shift {
                (
                    AppModel { pending_d: false, ..move_item_up_spec(m) },
                    StepResult {
                        exit: false,
                        persist: selection_valid(m) && m.vis()[m.selected] > 0,
                    },
                )
            } else {
                (AppModel { pending_d: false, ..move_up_spec(m) }, no_step())
            }
        },
        Key::Delete => (
            AppModel { mode: Mode::ConfirmDelete, pending_d: false, ..m },
            no_step(),
        ),
        Key::Backspace => (
            AppModel { mode: Mode::ConfirmDelete, pending_d: false, ..m },
            no_step(),
        ),
        Key::Enter => (select_item_spec(m), StepResult { exit: true, persist: false }),
        _ => (AppModel { pending_d: false, ..m }, no_step()),
    }
}

/// One step in the delete-confirmation mode.
pub open spec fn step_confirm_delete_spec(m: AppModel, key: KeyInput) -> (AppModel, StepResult) {
    match key.key {
        Key::Char(c) => {
            if c == 'y' {
                (
                    delete_selected_spec(m),
                    StepResult { exit: false, persist: selection_valid(m) },
                )
            } else if c == 'n' {
                (AppModel { mode: Mode::Normal, ..m }, no_step())
            } else {
                (m, no_step())
            }
        },
        Key::Esc => (AppModel { mode: Mode::Normal, ..m }, no_step()),
        _ => (m, no_step()),
    }
}

/// One step in the add or edit mode: inline text editing, committed by
/// Enter, discarded by Escape.
pub open spec fn step_text_spec(m: AppModel, key: KeyInput, now: int) -> (AppModel, StepResult) {
    match key.key {
        Key::Enter => {
            if m.mode == Mode::Add {
                (
                    confirm_add_spec(m, now),
                    StepResult { exit: false, persist: m.edit_buffer.len() > 0 },
                )
            } else {
                (
                    confirm_edit_spec(m),
                    StepResult { exit: false, persist: selection_valid(m) },
                )
            }
        },
        Key::Esc => (AppModel { mode: Mode::Normal, ..m }, no_step()),
        Key::Backspace => (backspace_spec(m), no_step()),
        Key::Delete => (delete_char_spec(m), no_step()),
        Key::Left => (cursor_left_spec(m), no_step()),
        Key::Right => (cursor_right_spec(m), no_step()),
        Key::Char(c) => (insert_char_spec(m, c), no_step()),
        _ => (m, no_step()),
    }
}

/// One step of the whole state machine. `now` is the clock reading used if
/// and only if the step commits the add mode.
pub open spec fn step_spec(m: AppModel, key: KeyInput, now: int) -> (AppModel, StepResult) {
    match m.mode {
        Mode::Normal => step_normal_spec(m, key),
        Mode::ConfirmDelete => step_confirm_delete_spec(m, key),
        Mode::Add => step_text_spec(m, key, now),
        Mode::Edit => step_text_spec(m, key, now),
    }
}

proof fn lemma_toggle_done_wf(m: AppModel)
    requires
        m.wf(),
    ensures
        toggle_done_spec(m).wf(),
{
    if selection_valid(m) {
        lemma_visible_indices_shape(m.items, m.hide_completed);
        let a = m.vis()[m.selected];
        let items2 = m.items.update(a, ItemModel { done: !m.items[a].done, ..m.items[a] });
        if m.hide_completed && items2[a].done {
        } else {
            if m.hide_completed {
                assert(item_visible(m.items[a], m.hide_completed));
                assert(items2[a].done);
            } else {
                lemma_all_visible(m.items);
                lemma_all_visible(items2);
            }
        }
    }
}

proof fn lemma_move_item_up_wf(m: AppModel)
    requires
        m.wf(),
    ensures
        move_item_up_spec(m).wf(),
{
    if selection_valid(m) && m.vis()[m.selected] > 0 {
        lemma_visible_indices_shape(m.items, m.hide_completed);
        let a = m.vis()[m.selected];
        let items2 = m.items.update(a, m.items[a - 1]).update(a - 1, m.items[a]);
        let vis2 = visible_indices_spec(items2, m.hide_completed);
        assert(items2[a - 1] == m.items[a]);
        assert(item_visible(items2[a - 1], m.hide_completed));
        lemma_visible_indices_complete(items2, m.hide_completed, a - 1);
        assert(vis2.contains(a - 1));
        assert(exists|p: int| 0 <= p < vis2.len() && #[trigger] vis2[p] == a - 1);
        assert(0 <= position_of(vis2, a - 1) < vis2.len());
    }
}

proof fn lemma_move_item_down_wf(m: AppModel)
    requires
        m.wf(),
    ensures
        move_item_down_spec(m).wf(),
{
    if selection_valid(m) && m.vis()[m.selected] < m.items.len() - 1 {
        lemma_visible_indices_shape(m.items, m.hide_completed);
        let a = m.vis()[m.selected];
        let items2 = m.items.update(a, m.items[a + 1]).update(a + 1, m.items[a]);
        let vis2 = visible_indices_spec(items2, m.hide_completed);
        assert(items2[a + 1] == m.items[a]);
        assert(item_visible(items2[a + 1], m.hide_completed));
        lemma_visible_indices_complete(items2, m.hide_completed, a + 1);
        assert(vis2.contains(a + 1));
        assert(exists|p: int| 0 <= p < vis2.len() && #[trigger] vis2[p] == a + 1);
        assert(0 <= position_of(vis2, a + 1) < vis2.len());
    }
}

proof fn lemma_confirm_edit_wf(m: AppModel)
    requires
        m.wf(),
    ensures
        confirm_edit_spec(m).wf(),
{
    if selection_valid(m) {
        lemma_visible_indices_shape(m.items, m.hide_completed);
        let a = m.vis()[m.selected];
        let items2 = m.items.update(a, ItemModel { description: m.edit_buffer, ..m.items[a] });
        lemma_visible_same(m.items, items2, m.hide_completed);
    }
}

proof fn lemma_confirm_add_wf(m: AppModel, now: int)
    requires
        m.wf(),
    ensures
        confirm_add_spec(m, now).wf(),
{
    if m.edit_buffer.len() > 0 {
        let it = ItemModel { description: m.edit_buffer, created_at: now, done: false };
        let items2 = m.items.push(it);
        assert(items2.drop_last() =~= m.items);
        assert(items2.last() == it);
        assert(item_visible(items2.last(), m.hide_completed));
        assert(visible_indices_spec(items2, m.hide_completed).len() > 0);
    }
}

/// Every step of the state machine preserves the session invariant; in
/// particular the selection stays within `[0, max(0, visible_count - 1)]`
/// under every input, navigation or not.
pub proof fn lemma_step_preserves_wf(m: AppModel, key: KeyInput, now: int)
    requires
        m.wf(),
    ensures
        step_spec(m, key, now).0.wf(),
{
    match m.mode {
        Mode::Normal => {
            lemma_toggle_done_wf(m);
            lemma_move_item_up_wf(m);
            lemma_move_item_down_wf(m);
        },
        Mode::ConfirmDelete => {
        },
        Mode::Add => {
            lemma_confirm_add_wf(m, now);
            lemma_confirm_edit_wf(m);
        },
        Mode::Edit => {
            lemma_confirm_add_wf(m, now);
            lemma_confirm_edit_wf(m);
        },
    }
}

impl App {
    fn step_normal(&mut self, key: KeyInput) -> (r: StepResult)
        requires
            old(self)@.mode == Mode::Normal,
        ensures
            (final(self)@, r) == step_normal_spec(old(self)@, key),
    {
        match key.key {
            Key::Char(c) => {
                if c == 'q' {
                    let r = StepResult { exit: true, persist: false };
                    proof {
                        assert((self@, r) == step_normal_spec(old(self)@, key));
                    }
                    r
                } else if c == 'J' && key.shift {
                    let changed = self.move_item_down();
                    self.pending_d = false;
                    let r = StepResult { exit: false, persist: changed };
                    proof {
                        assert(self@ =~= step_normal_spec(old(self)@, key).0);
                    }
                    r
                } else if c == 'K' && key.shift {
                    let changed = self.move_item_up();
                    self.pending_d = false;
                    let r = StepResult { exit: false, persist: changed };
                    proof {
                        assert(self@ =~= step_normal_spec(old(self)@, key).0);
                    }
                    r
                } else if c == 'j' {
                    self.move_down();
                    self.pending_d = false;
                    proof {
                        assert(self@ =~= step_normal_spec(old(self)@, key).0);
                    }
                    StepResult { exit: false, persist: false }
                } else if c == 'k' {
                    self.move_up();
                    self.pending_d = false;
                    proof {
                        assert(self@ =~= step_normal_spec(old(self)@, key).0);
                    }
                    StepResult { exit: false, persist: false }
                } else if c == 'x' {
                    let changed = self.toggle_done();
                    self.pending_d = false;
                    let r = StepResult { exit: false, persist: changed };
                    proof {
                        assert(self@ =~= step_normal_spec(old(self)@, key).0);
                    }
                    r
                } else if c == 'e' {
                    self.enter_edit_mode();
                    self.pending_d = false;
                    proof {
                        assert(self@ =~= step_normal_spec(old(self)@, key).0);
                    }
                    StepResult { exit: false, persist: false }
                } else if c == 'a' {
                    self.enter_add_mode();
                    self.pending_d = false;
                    proof {
                        assert(self@ =~= step_normal_spec(old(self)@, key).0);
                    }
                    StepResult { exit: false, persist: false }
                } else if c == 'h' {
                    self.toggle_hide_completed();
                    self.pending_d = false;
                    proof {
                        assert(self@ =~= step_normal_spec(old(self)@, key).0);
                    }
                    StepResult { exit: false, persist: false }
                } else if c == 'd' {
                    if self.pending_d {
                        let changed = self.delete_selected();
                        self.pending_d = false;
                        let r = StepResult { exit: false, persist: changed };
                        proof {
                            assert(self@ =~= step_normal_spec(old(self)@, key).0);
                        }
                        r
                    } else {
                        self.pending_d = true;
                        proof {
                            assert(self@ =~= step_normal_spec(old(self)@, key).0);
                        }
                        StepResult { exit: false, persist: false }
                    }
                } else {
                    self.pending_d = false;
                    proof {
                        assert(self@ =~= step_normal_spec(old(self)@, key).0);
                    }
                    StepResult { exit: false, persist: false }
                }
            },
            Key::Esc => StepResult { exit: true, persist: false },
            Key::Down => {
                if key.shift {
                    let changed = self.move_item_down();
                    self.pending_d = false;
                    let r = StepResult { exit: false, persist: changed };
                    proof {
                        assert(self@ =~= step_normal_spec(old(self)@, key).0);
                    }
                    r
                } else {
                    self.move_down();
                    self.pending_d = false;
                    proof {
                        assert(self@ =~= step_normal_spec(old(self)@, key).0);
                    }
                    StepResult { exit: false, persist: false }
                }
            },
            Key::Up => {
                if key.shift {
                    let changed = self.move_item_up();
                    self.pending_d = false;
                    let r = StepResult { exit: false, persist: changed };
                    proof {
                        assert(self@ =~= step_normal_spec(old(self)@, key).0);
                    }
                    r
                } else {
                    self.move_up();
                    self.pending_d = false;
                    proof {
                        assert(self@ =~= step_normal_spec(old(self)@, key).0);
                    }
                    StepResult { exit: false, persist: false }
                }
            },
            Key::Delete => {
                self.mode = Mode::ConfirmDelete;
                self.pending_d = false;
                proof {
                    assert(self@ =~= step_normal_spec(old(self)@, key).0);
                }
                StepResult { exit: false, persist: false }
            },
            Key::Backspace => {
                self.mode = Mode::ConfirmDelete;
                self.pending_d = false;
                proof {
                    assert(self@ =~= step_normal_spec(old(self)@, key).0);
                }
                StepResult { exit: false, persist: false }
            },
            Key::Enter => {
                self.select_item();
                proof {
                    assert(self@ =~= step_normal_spec(old(self)@, key).0);
                }
                StepResult { exit: true, persist: false }
            },
            _ => {
                self.pending_d = false;
                proof {
                    assert(self@ =~= step_normal_spec(old(self)@, key).0);
                }
                StepResult { exit: false, persist: false }
            },
        }
    }

    fn step_confirm_delete(&mut self, key: KeyInput) -> (r: StepResult)
        requires
            old(self)@.mode == Mode::ConfirmDelete,
        ensures
            (final(self)@, r) == step_confirm_delete_spec(old(self)@, key),
    {
        match key.key {
            Key::Char(c) => {
                if c == 'y' {
                    let changed = self.delete_selected();
                    let r = StepResult { exit: false, persist: changed };
                    proof {
                        assert(self@ =~= step_confirm_delete_spec(old(self)@, key).0);
                    }
                    r
                } else if c == 'n' {
                    self.mode = Mode::Normal;
                    proof {
                        assert(self@ =~= step_confirm_delete_spec(old(self)@, key).0);
                    }
                    StepResult { exit: false, persist: false }
                } else {
                    StepResult { exit: false, persist: false }
                }
            },
            Key::Esc => {
                self.mode = Mode::Normal;
                proof {
                    assert(self@ =~= step_confirm_delete_spec(old(self)@, key).0);
                }
                StepResult { exit: false, persist: false }
            },
            _ => StepResult { exit: false, persist: false },
        }
    }

    fn step_text(&mut self, key: KeyInput) -> (r: StepResult)
        requires
            old(self)@.wf(),
            old(self)@.mode == Mode::Add || old(self)@.mode == Mode::Edit,
        ensures
            exists|t: int| (final(self)@, r) == #[trigger] step_text_spec(old(self)@, key, t),
    {
        match key.key {
            Key::Enter => {
                if self.mode == Mode::Add {
                    let now = now_timestamp();
                    let changed = self.confirm_add(now);
                    let r = StepResult { exit: false, persist: changed };
                    proof {
                        assert((self@, r) == step_text_spec(old(self)@, key, now as int));
                    }
                    r
                } else {
                    let changed = self.confirm_edit();
                    let r = StepResult { exit: false, persist: changed };
                    proof {
                        assert((self@, r) == step_text_spec(old(self)@, key, 0));
                    }
                    r
                }
            },
            Key::Esc => {
                if self.mode == Mode::Add {
                    self.cancel_add();
                } else {
                    self.cancel_edit();
                }
                proof {
                    assert((self@, StepResult { exit: false, persist: false })
                        == step_text_spec(old(self)@, key, 0));
                }
                StepResult { exit: false, persist: false }
            },
            Key::Backspace => {
                self.backspace();
                proof {
                    assert((self@, StepResult { exit: false, persist: false })
                        == step_text_spec(old(self)@, key, 0));
                }
                StepResult { exit: false, persist: false }
            },
            Key::Delete => {
                self.delete_char();
                proof {
                    assert((self@, StepResult { exit: false, persist: false })
                        == step_text_spec(old(self)@, key, 0));
                }
                StepResult { exit: false, persist: false }
            },
            Key::Left => {
                self.cursor_left();
                proof {
                    assert((self@, StepResult { exit: false, persist: false })
                        == step_text_spec(old(self)@, key, 0));
                }
                StepResult { exit: false, persist: false }
            },
            Key::Right => {
                self.cursor_right();
                proof {
                    assert((self@, StepResult { exit: false, persist: false })
                        == step_text_spec(old(self)@, key, 0));
                }
                StepResult { exit: false, persist: false }
            },
            Key::Char(c) => {
                self.insert_char(c);
                proof {
                    assert((self@, StepResult { exit: false, persist: false })
                        == step_text_spec(old(self)@, key, 0));
                }
                StepResult { exit: false, persist: false }
            },
            _ => {
                proof {
                    assert((self@, StepResult { exit: false, persist: false })
                        == step_text_spec(old(self)@, key, 0));
                }
                StepResult { exit: false, persist: false }
            },
        }
    }

    /// Interprets one key press in the current mode: the session state takes
    /// exactly one step of the state machine, and the result says whether
    /// the surrounding loop must persist the store and whether the session
    /// ends. The clock is read if and only if the step commits an added
    /// item.
    pub fn handle_key(&mut self, key: KeyInput) -> (r: StepResult)
        requires
            old(self)@.wf(),
        ensures
            final(self)@.wf(),
            exists|t: int| (final(self)@, r) == #[trigger] step_spec(old(self)@, key, t),
    {
        let r = match self.mode {
            Mode::Normal => {
                let r = self.step_normal(key);
                proof {
                    assert((self@, r) == step_spec(old(self)@, key, 0));
                }
                r
            },
            Mode::ConfirmDelete => {
                let r = self.step_confirm_delete(key);
                proof {
                    assert((self@, r) == step_spec(old(self)@, key, 0));
                }
                r
            },
            Mode::Add => {
                let r = self.step_text(key);
                proof {
                    let t = choose|t: int| (self@, r) == #[trigger] step_text_spec(old(self)@, key, t);
                    assert((self@, r) == step_spec(old(self)@, key, t));
                }
                r
            },
            Mode::Edit => {
                let r = self.step_text(key);
                proof {
                    let t = choose|t: int| (self@, r) == #[trigger] step_text_spec(old(self)@, key, t);
                    assert((self@, r) == step_spec(old(self)@, key, t));
                }
                r
            },
        };
        proof {
            let t = choose|t: int| (self@, r) == #[trigger] step_spec(old(self)@, key, t);
            lemma_step_preserves_wf(old(self)@, key, t);
        }
        r
    }
}

/// A row-navigation key press: plain `j`/`k` or the plain arrow keys.
pub open spec fn navigation_key(k: KeyInput) -> bool {
    !k.shift && (k.key == Key::Char('j') || k.key == Key::Char('k') || k.key == Key::Up
        || k.key == Key::Down)
}

/// The state after a sequence of key presses, none of which reads the
/// clock.
pub open spec fn run_keys_spec(m: AppModel, keys: Seq<KeyInput>) -> AppModel
    decreases keys.len(),
{
    if keys.len() == 0 {
        m
    } else {
        run_keys_spec(step_spec(m, keys[0], 0).0, keys.drop_first())
    }
}

/// Law: over every sequence of navigation-only key events the selection
/// stays within `[0, max(0, visible_count - 1)]`.
pub proof fn lemma_navigation_keeps_selection_in_range(m: AppModel, keys: Seq<KeyInput>)
    requires
        m.wf(),
        forall|i: int| 0 <= i < keys.len() ==> navigation_key(#[trigger] keys[i]),
    ensures
        ({
            let r = run_keys_spec(m, keys);
            &&& r.wf()
            &&& 0 <= r.selected
            &&& (r.vis().len() == 0 ==> r.selected == 0)
            &&& (r.vis().len() > 0 ==> r.selected <= r.vis().len() - 1)
        }),
    decreases keys.len(),
{
    if keys.len() > 0 {
        lemma_step_preserves_wf(m, keys[0], 0);
        lemma_navigation_keeps_selection_in_range(step_spec(m, keys[0], 0).0, keys.drop_first());
    }
}

/// Law: reordering is a transposition. Moving the selected item down is a
/// no-op on the last actual index; on any other it swaps exactly the two
/// neighbouring store positions and the selection follows the moved item to
/// its new visible position.
pub proof fn lemma_move_item_down_transposition(m: AppModel)
    requires
        m.wf(),
        selection_valid(m),
    ensures
        m.vis()[m.selected] == m.items.len() - 1 ==> move_item_down_spec(m) == m,
        m.vis()[m.selected] < m.items.len() - 1 ==> ({
            let a = m.vis()[m.selected];
            let r = move_item_down_spec(m);
            &&& r.items.len() == m.items.len()
            &&& r.items[a] == m.items[a + 1]
            &&& r.items[a + 1] == m.items[a]
            &&& (forall|j: int|
                0 <= j < m.items.len() && j != a && j != a + 1 ==> r.items[j] == m.items[j])
            &&& 0 <= r.selected < visible_indices_spec(r.items, r.hide_completed).len()
            &&& visible_indices_spec(r.items, r.hide_completed)[r.selected] == a + 1
        }),
{
    lemma_visible_indices_shape(m.items, m.hide_completed);
    let a = m.vis()[m.selected];
    if a < m.items.len() - 1 {
        let items2 = m.items.update(a, m.items[a + 1]).update(a + 1, m.items[a]);
        let vis2 = visible_indices_spec(items2, m.hide_completed);
        assert(items2[a + 1] == m.items[a]);
        assert(item_visible(items2[a + 1], m.hide_completed));
        lemma_visible_indices_complete(items2, m.hide_completed, a + 1);
        assert(vis2.contains(a + 1));
        assert(exists|p: int| 0 <= p < vis2.len() && #[trigger] vis2[p] == a + 1);
        assert(0 <= position_of(vis2, a + 1) < vis2.len()
            && vis2[position_of(vis2, a + 1)] == a + 1);
    }
}

/// Law: the double-tap delete gesture and the confirm-gated delete path
/// make the same store mutation from the same starting selection, and ask
/// the loop for the same persistence.
pub proof fn lemma_delete_paths_agree(m: AppModel, t1: int, t2: int)
    ensures
        ({
            let armed = AppModel { mode: Mode::Normal, pending_d: true, ..m };
            let gated = AppModel { mode: Mode::ConfirmDelete, ..m };
            let tap = step_spec(armed, KeyInput { key: Key::Char('d'), shift: false }, t1);
            let confirm = step_spec(gated, KeyInput { key: Key::Char('y'), shift: false }, t2);
            &&& tap.0.items == confirm.0.items
            &&& tap.0.selected == confirm.0.selected
            &&& tap.0.mode == confirm.0.mode
            &&& tap.1 == confirm.1
        }),
{
    let armed = AppModel { mode: Mode::Normal, pending_d: true, ..m };
    let gated = AppModel { mode: Mode::ConfirmDelete, ..m };
    assert(visible_indices_spec(armed.items, armed.hide_completed) == visible_indices_spec(
        gated.items,
        gated.hide_completed,
    ));
}

/// Law: toggling hide-completed twice with no mutation in between restores
/// the same visible set. The selection index is clamped, not restored: the
/// round trip holds of the filter, not of `selected`.
pub proof fn lemma_toggle_hide_twice_restores_visible(m: AppModel)
    ensures
        toggle_hide_spec(toggle_hide_spec(m)).items == m.items,
        toggle_hide_spec(toggle_hide_spec(m)).hide_completed == m.hide_completed,
        visible_indices_spec(
            toggle_hide_spec(toggle_hide_spec(m)).items,
            toggle_hide_spec(toggle_hide_spec(m)).hide_completed,
        ) == visible_indices_spec(m.items, m.hide_completed),
{
}

} // verus!

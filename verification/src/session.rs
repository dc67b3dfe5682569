//! The interactive session state: the modal controller over the store, the
//! selection, the edit buffer, and the mutation operations the key handler
//! dispatches to.

use vstd::prelude::*;
use crate::item::{Backlog, BacklogItem, ItemModel};
use crate::item::clone_chars;
use crate::visibility::{
    item_visible, visible_indices_spec, visible_indices, visible_to_actual, actual_to_visible,
    as_ints, lemma_visible_indices_shape,
};

verus! {

/// The session's modal state.
#[derive(PartialEq, Eq, Structural, Clone, Copy, Debug)]
pub enum Mode {
    Normal,
    Edit,
    Add,
    ConfirmDelete,
}

/// The interactive session state over a borrowed store.
pub struct App {
    pub backlog: Backlog,
    pub selected: usize,
    pub scroll_offset: usize,
    pub mode: Mode,
    pub edit_buffer: Vec<char>,
    pub edit_cursor: usize,
    pub output: Option<Vec<char>>,
    pub pending_d: bool,
    pub hide_completed: bool,
}

/// Mathematical model of the session state.
#[verifier::ext_equal]
pub struct AppModel {
    pub items: Seq<ItemModel>,
    pub selected: int,
    pub scroll_offset: int,
    pub mode: Mode,
    pub edit_buffer: Seq<char>,
    pub edit_cursor: int,
    pub output: Option<Seq<char>>,
    pub pending_d: bool,
    pub hide_completed: bool,
}

impl View for App {
    type V = AppModel;

    open spec fn view(&self) -> AppModel {
        AppModel {
            items: self.backlog@,
            selected: self.selected as int,
            scroll_offset: self.scroll_offset as int,
            mode: self.mode,
            edit_buffer: self.edit_buffer@,
            edit_cursor: self.edit_cursor as int,
            output: match self.output {
                Some(ref v) => Some(v@),
                None => None,
            },
            pending_d: self.pending_d,
            hide_completed: self.hide_completed,
        }
    }
}

impl AppModel {
    /// The actual indices currently displayed.
    pub open spec fn vis(self) -> Seq<int> {
        visible_indices_spec(self.items, self.hide_completed)
    }

    /// The session invariant: the selection stays within
    /// `[0, max(1, visible_count) - 1]`, and the cursor is a valid offset
    /// into the edit buffer.
    pub open spec fn wf(self) -> bool {
        &&& if self.vis().len() == 0 {
            self.selected == 0
        } else {
            0 <= self.selected < self.vis().len()
        }
        &&& 0 <= self.edit_cursor <= self.edit_buffer.len()
        &&& 0 <= self.scroll_offset
    }
}

/// A selection clamped into `[0, max(1, count) - 1]`.
pub open spec fn clamp_selected(sel: int, count: int) -> int {
    if count == 0 {
        0
    } else if sel >= count {
        count - 1
    } else {
        sel
    }
}

/// The position of actual index `a` within a visible listing.
pub open spec fn position_of(vis: Seq<int>, a: int) -> int {
    choose|p: int| 0 <= p < vis.len() && vis[p] == a
}

/// Moving the selection one row up: a no-op at the top, no wraparound.
pub open spec fn move_up_spec(m: AppModel) -> AppModel {
    if m.selected > 0 {
        AppModel { selected: m.selected - 1, ..m }
    } else {
        m
    }
}

/// Moving the selection one row down: a no-op at the bottom, no wraparound.
pub open spec fn move_down_spec(m: AppModel) -> AppModel {
    if m.vis().len() > 0 && m.selected < m.vis().len() - 1 {
        AppModel { selected: m.selected + 1, ..m }
    } else {
        m
    }
}

/// Flipping the done flag of the selected item; when hiding is on and the
/// item just became done, the selection is clamped back into the shrunken
/// visible set.
pub open spec fn toggle_done_spec(m: AppModel) -> AppModel {
    if 0 <= m.selected < m.vis().len() {
        let a = m.vis()[m.selected];
        let items2 = m.items.update(a, ItemModel { done: !m.items[a].done, ..m.items[a] });
        let sel2 = if m.hide_completed && items2[a].done {
            clamp_selected(
                m.selected,
                visible_indices_spec(items2, m.hide_completed).len() as int,
            )
        } else {
            m.selected
        };
        AppModel { items: items2, selected: sel2, ..m }
    } else {
        m
    }
}

/// Swapping the selected item with its store-order neighbour above, the
/// selection following the moved item; a no-op at the store boundary.
pub open spec fn move_item_up_spec(m: AppModel) -> AppModel {
    if 0 <= m.selected < m.vis().len() && m.vis()[m.selected] > 0 {
        let a = m.vis()[m.selected];
        let items2 = m.items.update(a, m.items[a - 1]).update(a - 1, m.items[a]);
        let vis2 = visible_indices_spec(items2, m.hide_completed);
        let sel2 = if vis2.contains(a - 1) {
            position_of(vis2, a - 1)
        } else {
            m.selected
        };
        AppModel { items: items2, selected: sel2, ..m }
    } else {
        m
    }
}

/// Swapping the selected item with its store-order neighbour below, the
/// selection following the moved item; a no-op at the store boundary.
pub open spec fn move_item_down_spec(m: AppModel) -> AppModel {
    if 0 <= m.selected < m.vis().len() && m.vis()[m.selected] < m.items.len() - 1 {
        let a = m.vis()[m.selected];
        let items2 = m.items.update(a, m.items[a + 1]).update(a + 1, m.items[a]);
        let vis2 = visible_indices_spec(items2, m.hide_completed);
        let sel2 = if vis2.contains(a + 1) {
            position_of(vis2, a + 1)
        } else {
            m.selected
        };
        AppModel { items: items2, selected: sel2, ..m }
    } else {
        m
    }
}

/// Removing the selected item and clamping the selection; always returns to
/// the normal mode.
pub open spec fn delete_selected_spec(m: AppModel) -> AppModel {
    let m1 = if 0 <= m.selected < m.vis().len() {
        let a = m.vis()[m.selected];
        let items2 = m.items.remove(a);
        let sel2 = clamp_selected(
            m.selected,
            visible_indices_spec(items2, m.hide_completed).len() as int,
        );
        AppModel { items: items2, selected: sel2, ..m }
    } else {
        m
    };
    AppModel { mode: Mode::Normal, ..m1 }
}

/// Flipping the hide-completed filter and clamping the selection into the
/// new visible set. The selection index, not the selected item, is kept.
pub open spec fn toggle_hide_spec(m: AppModel) -> AppModel {
    let h2 = !m.hide_completed;
    let sel2 = clamp_selected(m.selected, visible_indices_spec(m.items, h2).len() as int);
    AppModel { hide_completed: h2, selected: sel2, ..m }
}

/// Seeding the edit buffer with the selected description, cursor at its end.
pub open spec fn enter_edit_spec(m: AppModel) -> AppModel {
    if 0 <= m.selected < m.vis().len() {
        let a = m.vis()[m.selected];
        AppModel {
            edit_buffer: m.items[a].description,
            edit_cursor: m.items[a].description.len() as int,
            mode: Mode::Edit,
            ..m
        }
    } else {
        m
    }
}

/// Overwriting the selected description with the edit buffer; always returns
/// to the normal mode.
pub open spec fn confirm_edit_spec(m: AppModel) -> AppModel {
    let m1 = if 0 <= m.selected < m.vis().len() {
        let a = m.vis()[m.selected];
        let items2 = m.items.update(a, ItemModel { description: m.edit_buffer, ..m.items[a] });
        AppModel { items: items2, ..m }
    } else {
        m
    };
    AppModel { mode: Mode::Normal, ..m1 }
}

/// Capturing the selected description as the session's output.
pub open spec fn select_item_spec(m: AppModel) -> AppModel {
    if 0 <= m.selected < m.vis().len() {
        AppModel { output: Some(m.items[m.vis()[m.selected]].description), ..m }
    } else {
        m
    }
}

/// Entering the add mode with an empty buffer.
pub open spec fn enter_add_spec(m: AppModel) -> AppModel {
    AppModel { edit_buffer: Seq::empty(), edit_cursor: 0, mode: Mode::Add, ..m }
}

/// Appending a new, not-done item carrying the edit buffer, created at the
/// given time, and selecting it; with an empty buffer, only the mode resets.
pub open spec fn confirm_add_spec(m: AppModel, now: int) -> AppModel {
    if m.edit_buffer.len() > 0 {
        let items2 = m.items.push(
            ItemModel { description: m.edit_buffer, created_at: now, done: false },
        );
        let sel2 = visible_indices_spec(items2, m.hide_completed).len() - 1;
        AppModel { items: items2, selected: sel2, mode: Mode::Normal, ..m }
    } else {
        AppModel { mode: Mode::Normal, ..m }
    }
}

/// Inserting a code point at the cursor.
pub open spec fn insert_char_spec(m: AppModel, c: char) -> AppModel {
    AppModel {
        edit_buffer: m.edit_buffer.insert(m.edit_cursor, c),
        edit_cursor: m.edit_cursor + 1,
        ..m
    }
}

/// Removing the code point before the cursor, if any.
pub open spec fn backspace_spec(m: AppModel) -> AppModel {
    if m.edit_cursor > 0 {
        AppModel {
            edit_buffer: m.edit_buffer.remove(m.edit_cursor - 1),
            edit_cursor: m.edit_cursor - 1,
            ..m
        }
    } else {
        m
    }
}

/// Removing the code point at the cursor, if any.
pub open spec fn delete_char_spec(m: AppModel) -> AppModel {
    if m.edit_cursor < m.edit_buffer.len() {
        AppModel { edit_buffer: m.edit_buffer.remove(m.edit_cursor), ..m }
    } else {
        m
    }
}

/// Moving the cursor one code point left, clamped at the start.
pub open spec fn cursor_left_spec(m: AppModel) -> AppModel {
    if m.edit_cursor > 0 {
        AppModel { edit_cursor: m.edit_cursor - 1, ..m }
    } else {
        m
    }
}

/// Moving the cursor one code point right, clamped at the end.
pub open spec fn cursor_right_spec(m: AppModel) -> AppModel {
    if m.edit_cursor < m.edit_buffer.len() {
        AppModel { edit_cursor: m.edit_cursor + 1, ..m }
    } else {
        m
    }
}

/// With hiding off, every store index is listed.
pub proof fn lemma_all_visible(items: Seq<ItemModel>)
    ensures
        visible_indices_spec(items, false).len() == items.len(),
    decreases items.len(),
{
    if items.len() > 0 {
        lemma_all_visible(items.drop_last());
    }
}

/// Two stores of equal length whose items pass the filter alike are listed
/// alike.
pub proof fn lemma_visible_same(items1: Seq<ItemModel>, items2: Seq<ItemModel>, h: bool)
    requires
        items1.len() == items2.len(),
        forall|i: int|
            0 <= i < items1.len() ==> item_visible(#[trigger] items1[i], h) == item_visible(
                items2[i],
                h,
            ),
    ensures
        visible_indices_spec(items1, h) == visible_indices_spec(items2, h),
    decreases items1.len(),
{
    if items1.len() > 0 {
        assert(forall|i: int|
            0 <= i < items1.drop_last().len() ==> item_visible(
                #[trigger] items1.drop_last()[i],
                h,
            ) == item_visible(items2.drop_last()[i], h));
        lemma_visible_same(items1.drop_last(), items2.drop_last(), h);
        assert(item_visible(items1.last(), h) == item_visible(items2.last(), h));
    }
}

impl App {
    /// A fresh session over the given store: normal mode, selection and
    /// scroll at the top, empty buffer, no output, filter off.
    pub fn new(backlog: Backlog) -> (app: App)
        ensures
            app@ == (AppModel {
                items: backlog@,
                selected: 0,
                scroll_offset: 0,
                mode: Mode::Normal,
                edit_buffer: Seq::<char>::empty(),
                edit_cursor: 0,
                output: None,
                pending_d: false,
                hide_completed: false,
            }),
            app@.wf(),
    {
        let app = App {
            backlog,
            selected: 0,
            scroll_offset: 0,
            mode: Mode::Normal,
            edit_buffer: Vec::new(),
            edit_cursor: 0,
            output: None,
            pending_d: false,
            hide_completed: false,
        };
        proof {
            assert(app@ =~= AppModel {
                items: app.backlog@,
                selected: 0,
                scroll_offset: 0,
                mode: Mode::Normal,
                edit_buffer: Seq::<char>::empty(),
                edit_cursor: 0,
                output: None,
                pending_d: false,
                hide_completed: false,
            });
        }
        app
    }

    /// The actual indices of the items passing the filter, in store order.
    pub fn visible_indices(&self) -> (r: Vec<usize>)
        ensures
            as_ints(r@) == self@.vis(),
    {
        visible_indices(&self.backlog, self.hide_completed)
    }

    /// Converts a visible position to the actual store index it stands for.
    pub fn visible_to_actual(&self, visible_idx: usize) -> (r: Option<usize>)
        ensures
            ({
                match r {
                    Some(a) => visible_idx < self@.vis().len() && a as int
                        == self@.vis()[visible_idx as int],
                    None => visible_idx >= self@.vis().len(),
                }
            }),
    {
        visible_to_actual(&self.backlog, self.hide_completed, visible_idx)
    }

    /// Converts an actual store index to its position in the visible set.
    pub fn actual_to_visible(&self, actual_idx: usize) -> (r: Option<usize>)
        ensures
            ({
                match r {
                    Some(p) => p < self@.vis().len() && self@.vis()[p as int] == actual_idx as int,
                    None => forall|q: int|
                        0 <= q < self@.vis().len() ==> self@.vis()[q] != actual_idx as int,
                }
            }),
    {
        actual_to_visible(&self.backlog, self.hide_completed, actual_idx)
    }

    pub fn move_up(&mut self)
        ensures
            final(self)@ == move_up_spec(old(self)@),
    {
        if self.selected > 0 {
            self.selected = self.selected - 1;
        }
        proof {
            assert(self@ =~= move_up_spec(old(self)@));
        }
    }

    pub fn move_down(&mut self)
        ensures
            final(self)@ == move_down_spec(old(self)@),
    {
        let vis = visible_indices(&self.backlog, self.hide_completed);
        let count = vis.len();
        if count > 0 && self.selected < count - 1 {
            self.selected = self.selected + 1;
        }
        proof {
            assert(self@ =~= move_down_spec(old(self)@));
        }
    }

    pub fn toggle_done(&mut self) -> (changed: bool)
        ensures
            final(self)@ == toggle_done_spec(old(self)@),
            changed == (0 <= old(self)@.selected < old(self)@.vis().len()),
    {
        match visible_to_actual(&self.backlog, self.hide_completed, self.selected) {
            Some(a) => {
                proof {
                    lemma_visible_indices_shape(self.backlog@, self.hide_completed);
                }
                let was_done = self.backlog.items[a].done;
                self.backlog.items[a].done = !was_done;
                proof {
                    assert(self.backlog@ =~= old(self)@.items.update(
                        a as int,
                        ItemModel { done: !old(self)@.items[a as int].done, ..old(self)@.items[a as int] },
                    ));
                }
                if self.hide_completed && !was_done {
                    let vis = visible_indices(&self.backlog, self.hide_completed);
                    if vis.len() == 0 {
                        self.selected = 0;
                    } else if self.selected >= vis.len() {
                        self.selected = vis.len() - 1;
                    }
                }
                proof {
                    assert(self@ =~= toggle_done_spec(old(self)@));
                }
                true
            }
            None => {
                proof {
                    assert(self@ =~= toggle_done_spec(old(self)@));
                }
                false
            }
        }
    }

    pub fn move_item_up(&mut self) -> (changed: bool)
        ensures
            final(self)@ == move_item_up_spec(old(self)@),
            changed == (0 <= old(self)@.selected < old(self)@.vis().len()
                && old(self)@.vis()[old(self)@.selected] > 0),
    {
        match visible_to_actual(&self.backlog, self.hide_completed, self.selected) {
            Some(a) => {
                proof {
                    lemma_visible_indices_shape(self.backlog@, self.hide_completed);
                }
                if a > 0 {
                    let x = self.backlog.items.remove(a);
                    self.backlog.items.insert(a - 1, x);
                    proof {
                        assert(self.backlog@ =~= old(self)@.items.update(
                            a as int,
                            old(self)@.items[a - 1],
                        ).update(a - 1, old(self)@.items[a as int]));
                    }
                    match actual_to_visible(&self.backlog, self.hide_completed, a - 1) {
                        Some(p) => {
                            proof {
                                let vis2 = visible_indices_spec(self.backlog@, self.hide_completed);
                                assert(vis2[p as int] == a - 1);
                                assert(vis2.contains(a - 1));
                                lemma_position_of_unique(self.backlog@, self.hide_completed, p as int, a - 1);
                            }
                            self.selected = p;
                        }
                        None => {
                            proof {
                                let vis2 = visible_indices_spec(self.backlog@, self.hide_completed);
                                assert(!vis2.contains(a - 1)) by {
                                    if vis2.contains(a - 1) {
                                        let q = choose|q: int| 0 <= q < vis2.len() && vis2[q] == a - 1;
                                        assert(vis2[q] == a - 1);
                                    }
                                }
                            }
                        }
                    }
                    proof {
                        assert(self@ =~= move_item_up_spec(old(self)@));
                    }
                    true
                } else {
                    proof {
                        assert(self@ =~= move_item_up_spec(old(self)@));
                    }
                    false
                }
            }
            None => {
                proof {
                    assert(self@ =~= move_item_up_spec(old(self)@));
                }
                false
            }
        }
    }

    pub fn move_item_down(&mut self) -> (changed: bool)
        ensures
            final(self)@ == move_item_down_spec(old(self)@),
            changed == (0 <= old(self)@.selected < old(self)@.vis().len()
                && old(self)@.vis()[old(self)@.selected] < old(self)@.items.len() - 1),
    {
        match visible_to_actual(&self.backlog, self.hide_completed, self.selected) {
            Some(a) => {
                proof {
                    lemma_visible_indices_shape(self.backlog@, self.hide_completed);
                }
                if a < self.backlog.items.len() - 1 {
                    let x = self.backlog.items.remove(a);
                    self.backlog.items.insert(a + 1, x);
                    proof {
                        assert(self.backlog@ =~= old(self)@.items.update(
                            a as int,
                            old(self)@.items[a + 1],
                        ).update(a + 1, old(self)@.items[a as int]));
                    }
                    match actual_to_visible(&self.backlog, self.hide_completed, a + 1) {
                        Some(p) => {
                            proof {
                                let vis2 = visible_indices_spec(self.backlog@, self.hide_completed);
                                assert(vis2[p as int] == a + 1);
                                assert(vis2.contains(a + 1));
                                lemma_position_of_unique(self.backlog@, self.hide_completed, p as int, a + 1);
                            }
                            self.selected = p;
                        }
                        None => {
                            proof {
                                let vis2 = visible_indices_spec(self.backlog@, self.hide_completed);
                                assert(!vis2.contains(a + 1)) by {
                                    if vis2.contains(a + 1) {
                                        let q = choose|q: int| 0 <= q < vis2.len() && vis2[q] == a + 1;
                                        assert(vis2[q] == a + 1);
                                    }
                                }
                            }
                        }
                    }
                    proof {
                        assert(self@ =~= move_item_down_spec(old(self)@));
                    }
                    true
                } else {
                    proof {
                        assert(self@ =~= move_item_down_spec(old(self)@));
                    }
                    false
                }
            }
            None => {
                proof {
                    assert(self@ =~= move_item_down_spec(old(self)@));
                }
                false
            }
        }
    }

    pub fn delete_selected(&mut self) -> (changed: bool)
        ensures
            final(self)@ == delete_selected_spec(old(self)@),
            changed == (0 <= old(self)@.selected < old(self)@.vis().len()),
    {
        let changed = match visible_to_actual(&self.backlog, self.hide_completed, self.selected) {
            Some(a) => {
                proof {
                    lemma_visible_indices_shape(self.backlog@, self.hide_completed);
                }
                let _removed = self.backlog.items.remove(a);
                proof {
                    assert(self.backlog@ =~= old(self)@.items.remove(a as int));
                }
                let vis = visible_indices(&self.backlog, self.hide_completed);
                if vis.len() == 0 {
                    self.selected = 0;
                } else if self.selected >= vis.len() {
                    self.selected = vis.len() - 1;
                }
                true
            }
            None => false,
        };
        self.mode = Mode::Normal;
        proof {
            assert(self@ =~= delete_selected_spec(old(self)@));
        }
        changed
    }

    pub fn toggle_hide_completed(&mut self)
        ensures
            final(self)@ == toggle_hide_spec(old(self)@),
    {
        self.hide_completed = !self.hide_completed;
        let vis = visible_indices(&self.backlog, self.hide_completed);
        if vis.len() == 0 {
            self.selected = 0;
        } else if self.selected >= vis.len() {
            self.selected = vis.len() - 1;
        }
        proof {
            assert(self@ =~= toggle_hide_spec(old(self)@));
        }
    }

    pub fn enter_edit_mode(&mut self)
        ensures
            final(self)@ == enter_edit_spec(old(self)@),
    {
        match visible_to_actual(&self.backlog, self.hide_completed, self.selected) {
            Some(a) => {
                proof {
                    lemma_visible_indices_shape(self.backlog@, self.hide_completed);
                }
                self.edit_buffer = clone_chars(&self.backlog.items[a].description);
                self.edit_cursor = self.edit_buffer.len();
                self.mode = Mode::Edit;
                proof {
                    assert(self@ =~= enter_edit_spec(old(self)@));
                }
            }
            None => {
                proof {
                    assert(self@ =~= enter_edit_spec(old(self)@));
                }
            }
        }
    }

    pub fn confirm_edit(&mut self) -> (changed: bool)
        ensures
            final(self)@ == confirm_edit_spec(old(self)@),
            changed == (0 <= old(self)@.selected < old(self)@.vis().len()),
    {
        let changed = match visible_to_actual(&self.backlog, self.hide_completed, self.selected) {
            Some(a) => {
                proof {
                    lemma_visible_indices_shape(self.backlog@, self.hide_completed);
                }
                let desc = clone_chars(&self.edit_buffer);
                let created_at = self.backlog.items[a].created_at;
                let done = self.backlog.items[a].done;
                self.backlog.items[a] = BacklogItem { description: desc, created_at, done };
                proof {
                    assert(self.backlog@ =~= old(self)@.items.update(
                        a as int,
                        ItemModel { description: old(self)@.edit_buffer, ..old(self)@.items[a as int] },
                    ));
                }
                true
            }
            None => false,
        };
        self.mode = Mode::Normal;
        proof {
            assert(self@ =~= confirm_edit_spec(old(self)@));
        }
        changed
    }

    pub fn cancel_edit(&mut self)
        ensures
            final(self)@ == (AppModel { mode: Mode::Normal, ..old(self)@ }),
    {
        self.mode = Mode::Normal;
        proof {
            assert(self@ =~= AppModel { mode: Mode::Normal, ..old(self)@ });
        }
    }

    pub fn select_item(&mut self)
        ensures
            final(self)@ == select_item_spec(old(self)@),
    {
        match visible_to_actual(&self.backlog, self.hide_completed, self.selected) {
            Some(a) => {
                proof {
                    lemma_visible_indices_shape(self.backlog@, self.hide_completed);
                }
                self.output = Some(clone_chars(&self.backlog.items[a].description));
                proof {
                    assert(self@ =~= select_item_spec(old(self)@));
                }
            }
            None => {
                proof {
                    assert(self@ =~= select_item_spec(old(self)@));
                }
            }
        }
    }

    pub fn enter_add_mode(&mut self)
        ensures
            final(self)@ == enter_add_spec(old(self)@),
    {
        self.edit_buffer = Vec::new();
        self.edit_cursor = 0;
        self.mode = Mode::Add;
        proof {
            assert(self@ =~= enter_add_spec(old(self)@));
        }
    }

    /// Commits the add mode. The creation time of the new item is handed in
    /// by the caller, read from the clock at the moment of the commit.
    pub fn confirm_add(&mut self, now: i64) -> (changed: bool)
        ensures
            final(self)@ == confirm_add_spec(old(self)@, now as int),
            changed == (old(self)@.edit_buffer.len() > 0),
    {
        if self.edit_buffer.len() > 0 {
            let desc = clone_chars(&self.edit_buffer);
            self.backlog.items.push(BacklogItem { description: desc, created_at: now, done: false });
            proof {
                assert(self.backlog@ =~= old(self)@.items.push(
                    ItemModel {
                        description: old(self)@.edit_buffer,
                        created_at: now as int,
                        done: false,
                    },
                ));
                assert(item_visible(self.backlog@.last(), self.hide_completed));
                assert(visible_indices_spec(self.backlog@, self.hide_completed).len() > 0);
            }
            let vis = visible_indices(&self.backlog, self.hide_completed);
            self.selected = vis.len() - 1;
            self.mode = Mode::Normal;
            proof {
                assert(self@ =~= confirm_add_spec(old(self)@, now as int));
            }
            true
        } else {
            self.mode = Mode::Normal;
            proof {
                assert(self@ =~= confirm_add_spec(old(self)@, now as int));
            }
            false
        }
    }

    pub fn cancel_add(&mut self)
        ensures
            final(self)@ == (AppModel { mode: Mode::Normal, ..old(self)@ }),
    {
        self.mode = Mode::Normal;
        proof {
            assert(self@ =~= AppModel { mode: Mode::Normal, ..old(self)@ });
        }
    }

    pub fn insert_char(&mut self, c: char)
        requires
            old(self)@.wf(),
        ensures
            final(self)@ == insert_char_spec(old(self)@, c),
    {
        self.edit_buffer.insert(self.edit_cursor, c);
        let grown_len = self.edit_buffer.len();
        proof {
            assert(self.edit_cursor < grown_len);
        }
        self.edit_cursor = self.edit_cursor + 1;
        proof {
            assert(self@ =~= insert_char_spec(old(self)@, c));
        }
    }

    pub fn backspace(&mut self)
        requires
            old(self)@.wf(),
        ensures
            final(self)@ == backspace_spec(old(self)@),
    {
        if self.edit_cursor > 0 {
            let _removed = self.edit_buffer.remove(self.edit_cursor - 1);
            self.edit_cursor = self.edit_cursor - 1;
        }
        proof {
            assert(self@ =~= backspace_spec(old(self)@));
        }
    }

    pub fn delete_char(&mut self)
        requires
            old(self)@.wf(),
        ensures
            final(self)@ == delete_char_spec(old(self)@),
    {
        if self.edit_cursor < self.edit_buffer.len() {
            let _removed = self.edit_buffer.remove(self.edit_cursor);
        }
        proof {
            assert(self@ =~= delete_char_spec(old(self)@));
        }
    }

    pub fn cursor_left(&mut self)
        ensures
            final(self)@ == cursor_left_spec(old(self)@),
    {
        if self.edit_cursor > 0 {
            self.edit_cursor = self.edit_cursor - 1;
        }
        proof {
            assert(self@ =~= cursor_left_spec(old(self)@));
        }
    }

    pub fn cursor_right(&mut self)
        ensures
            final(self)@ == cursor_right_spec(old(self)@),
    {
        if self.edit_cursor < self.edit_buffer.len() {
            self.edit_cursor = self.edit_cursor + 1;
        }
        proof {
            assert(self@ =~= cursor_right_spec(old(self)@));
        }
    }
}

/// The position of a listed actual index is the unique one: the listing is
/// strictly increasing, so no index appears twice.
pub proof fn lemma_position_of_unique(items: Seq<ItemModel>, h: bool, p: int, a: int)
    requires
        0 <= p < visible_indices_spec(items, h).len(),
        visible_indices_spec(items, h)[p] == a,
    ensures
        position_of(visible_indices_spec(items, h), a) == p,
{
    let vis = visible_indices_spec(items, h);
    lemma_visible_indices_shape(items, h);
    assert(0 <= p < vis.len() && vis[p] == a);
    let q = position_of(vis, a);
    assert(0 <= q < vis.len() && vis[q] == a) by {
        assert(exists|p2: int| 0 <= p2 < vis.len() && #[trigger] vis[p2] == a);
    }
    if p < q {
        assert(vis[p] < vis[q]);
    } else if q < p {
        assert(vis[q] < vis[p]);
    }
}

/// Scroll adjustment, recomputed every frame from the current list height:
/// the window slides up to the selection when it lies above, and down just
/// far enough when it lies below; otherwise it stays.
pub fn adjust_scroll(selected: usize, scroll_offset: usize, height: usize) -> (r: usize)
    ensures
        selected < scroll_offset ==> r == selected,
        selected >= scroll_offset && height > 0 && selected as int >= scroll_offset as int
            + height as int ==> r as int == selected as int - height as int + 1,
        selected >= scroll_offset && (height == 0 || (selected as int) < scroll_offset as int
            + height as int) ==> r == scroll_offset,
{
    if selected < scroll_offset {
        selected
    } else if height > 0 && selected - scroll_offset >= height {
        selected - (height - 1)
    } else {
        scroll_offset
    }
}

/// Relies on chrono::Utc::now and chrono::DateTime::timestamp for the
/// current wall-clock time in whole seconds since the Unix epoch. Nothing is
/// promised of the value: it depends on the clock.
#[verifier::external_body]
pub fn now_timestamp() -> i64 {
    chrono::Utc::now().timestamp()
}

} // verus!

use vstd::prelude::*;

verus! {

/// An entry of the open list: just its text.
pub struct TodoItem {
    pub text: Vec<char>,
}

/// An entry of the done list: its text and the date it was completed.
pub struct DoneItem {
    pub text: Vec<char>,
    pub date: Vec<char>,
}

/// Which of the two lists has focus.
#[derive(Clone, Copy, Debug, PartialEq, Eq, Structural)]
pub enum Panel {
    Todo,
    Done,
}

/// Transient text being typed plus its cursor offset. `fresh` remembers
/// whether the item under edit was just created by an insert, so that a
/// cancelled or empty-committed insert removes the item again.
pub struct EditBuffer {
    pub text: Vec<char>,
    pub cursor: usize,
    pub fresh: bool,
}

/// `Editing` holds the buffer, so "in edit mode" and "a buffer exists"
/// are one invariant by construction.
pub enum Mode {
    Normal,
    Editing(EditBuffer),
}

/// One retained snapshot, enough to reverse the most recent mutation.
pub struct Snapshot {
    pub todos: Vec<TodoItem>,
    pub dones: Vec<DoneItem>,
    pub panel: Panel,
    pub todo_cur: usize,
    pub done_cur: usize,
}

/// The list state machine: both ordered collections, focus, per-panel
/// cursors, edit state, a one-level undo entry and a status message.
pub struct TodoApp {
    pub todos: Vec<TodoItem>,
    pub dones: Vec<DoneItem>,
    pub panel: Panel,
    pub todo_cur: usize,
    pub done_cur: usize,
    pub mode: Mode,
    pub undo_entry: Option<Snapshot>,
    pub message: Vec<char>,
}

/// Item text never holds a line break, so the on-disk format can keep one
/// item per line.
pub open spec fn ok_text(t: Seq<char>) -> bool {
    forall|i: int| 0 <= i < t.len() ==> t[i] != '\n'
}

/// Dates additionally avoid the field delimiter of the on-disk format.
pub open spec fn ok_date(t: Seq<char>) -> bool {
    forall|i: int| 0 <= i < t.len() ==> t[i] != '\n' && t[i] != '|'
}

pub open spec fn texts_of(s: Seq<TodoItem>) -> Seq<Seq<char>> {
    s.map_values(|t: TodoItem| t.text@)
}

pub open spec fn dtexts_of(s: Seq<DoneItem>) -> Seq<Seq<char>> {
    s.map_values(|d: DoneItem| d.text@)
}

pub open spec fn ddates_of(s: Seq<DoneItem>) -> Seq<Seq<char>> {
    s.map_values(|d: DoneItem| d.date@)
}

pub open spec fn all_ok_text(s: Seq<Seq<char>>) -> bool {
    forall|i: int| 0 <= i < s.len() ==> ok_text(#[trigger] s[i])
}

pub open spec fn all_ok_date(s: Seq<Seq<char>>) -> bool {
    forall|i: int| 0 <= i < s.len() ==> ok_date(#[trigger] s[i])
}

pub open spec fn todos_ok(s: Seq<TodoItem>) -> bool {
    all_ok_text(texts_of(s))
}

pub open spec fn dones_ok(s: Seq<DoneItem>) -> bool {
    all_ok_text(dtexts_of(s)) && all_ok_date(ddates_of(s))
}

proof fn lemma_ok_text_swap(s: Seq<Seq<char>>, i: int, j: int)
    requires
        all_ok_text(s),
        0 <= i < s.len(),
        0 <= j < s.len(),
    ensures
        all_ok_text(s.update(i, s[j]).update(j, s[i])),
{
    let r = s.update(i, s[j]).update(j, s[i]);
    assert forall|k: int| 0 <= k < r.len() implies ok_text(#[trigger] r[k]) by {
        if k != i && k != j {
            assert(r[k] == s[k]);
        }
    }
}

proof fn lemma_ok_date_swap(s: Seq<Seq<char>>, i: int, j: int)
    requires
        all_ok_date(s),
        0 <= i < s.len(),
        0 <= j < s.len(),
    ensures
        all_ok_date(s.update(i, s[j]).update(j, s[i])),
{
    let r = s.update(i, s[j]).update(j, s[i]);
    assert forall|k: int| 0 <= k < r.len() implies ok_date(#[trigger] r[k]) by {
        if k != i && k != j {
            assert(r[k] == s[k]);
        }
    }
}

proof fn lemma_ok_text_remove(s: Seq<Seq<char>>, i: int)
    requires
        all_ok_text(s),
        0 <= i < s.len(),
    ensures
        all_ok_text(s.remove(i)),
{
    s.remove_ensures(i);
    assert forall|k: int| 0 <= k < s.remove(i).len() implies ok_text(#[trigger] s.remove(i)[k]) by {
        if k < i {
            assert(s.remove(i)[k] == s[k]);
        } else {
            assert(s.remove(i)[k] == s[k + 1]);
        }
    }
}

proof fn lemma_ok_date_remove(s: Seq<Seq<char>>, i: int)
    requires
        all_ok_date(s),
        0 <= i < s.len(),
    ensures
        all_ok_date(s.remove(i)),
{
    s.remove_ensures(i);
    assert forall|k: int| 0 <= k < s.remove(i).len() implies ok_date(#[trigger] s.remove(i)[k]) by {
        if k < i {
            assert(s.remove(i)[k] == s[k]);
        } else {
            assert(s.remove(i)[k] == s[k + 1]);
        }
    }
}

pub proof fn lemma_ok_text_push(s: Seq<Seq<char>>, v: Seq<char>)
    requires
        all_ok_text(s),
        ok_text(v),
    ensures
        all_ok_text(s.push(v)),
{
    assert forall|k: int| 0 <= k < s.push(v).len() implies ok_text(#[trigger] s.push(v)[k]) by {
        if k < s.len() {
            assert(s.push(v)[k] == s[k]);
        }
    }
}

pub proof fn lemma_ok_date_push(s: Seq<Seq<char>>, v: Seq<char>)
    requires
        all_ok_date(s),
        ok_date(v),
    ensures
        all_ok_date(s.push(v)),
{
    assert forall|k: int| 0 <= k < s.push(v).len() implies ok_date(#[trigger] s.push(v)[k]) by {
        if k < s.len() {
            assert(s.push(v)[k] == s[k]);
        }
    }
}

proof fn lemma_ok_text_insert(s: Seq<Seq<char>>, i: int, v: Seq<char>)
    requires
        all_ok_text(s),
        0 <= i <= s.len(),
        ok_text(v),
    ensures
        all_ok_text(s.insert(i, v)),
{
    s.insert_ensures(i, v);
    assert forall|k: int| 0 <= k < s.insert(i, v).len() implies ok_text(
        #[trigger] s.insert(i, v)[k],
    ) by {
        if k < i {
            assert(s.insert(i, v)[k] == s[k]);
        } else if k > i {
            assert(s.insert(i, v)[k] == s[k - 1]);
        }
    }
}

proof fn lemma_ok_text_update(s: Seq<Seq<char>>, i: int, v: Seq<char>)
    requires
        all_ok_text(s),
        0 <= i < s.len(),
        ok_text(v),
    ensures
        all_ok_text(s.update(i, v)),
{
    assert forall|k: int| 0 <= k < s.update(i, v).len() implies ok_text(
        #[trigger] s.update(i, v)[k],
    ) by {
        if k != i {
            assert(s.update(i, v)[k] == s[k]);
        }
    }
}

/// A cursor is pinned to 0 on an empty collection, otherwise in range.
pub open spec fn cursor_ok(len: int, cur: int) -> bool {
    if len == 0 {
        cur == 0
    } else {
        0 <= cur < len
    }
}

/// Clamping rule applied after a removal.
pub open spec fn clamp_cursor(cur: int, len: int) -> int {
    if len == 0 {
        0
    } else if cur < len {
        cur
    } else {
        len - 1
    }
}

pub open spec fn snap_wf(s: Snapshot) -> bool {
    &&& cursor_ok(s.todos@.len() as int, s.todo_cur as int)
    &&& cursor_ok(s.dones@.len() as int, s.done_cur as int)
    &&& todos_ok(s.todos@)
    &&& dones_ok(s.dones@)
}

impl TodoApp {
    /// Length of the focused collection.
    pub open spec fn cur_len(self) -> int {
        match self.panel {
            Panel::Todo => self.todos@.len() as int,
            Panel::Done => self.dones@.len() as int,
        }
    }

    /// Cursor index of the focused panel.
    pub open spec fn cur_idx(self) -> int {
        match self.panel {
            Panel::Todo => self.todo_cur as int,
            Panel::Done => self.done_cur as int,
        }
    }

    pub open spec fn editing(self) -> bool {
        match self.mode {
            Mode::Editing(_) => true,
            Mode::Normal => false,
        }
    }

    pub open spec fn ebuf(self) -> EditBuffer
        recommends
            self.editing(),
    {
        match self.mode {
            Mode::Editing(b) => b,
            Mode::Normal => arbitrary(),
        }
    }

    pub open spec fn wf(self) -> bool {
        &&& cursor_ok(self.todos@.len() as int, self.todo_cur as int)
        &&& cursor_ok(self.dones@.len() as int, self.done_cur as int)
        &&& todos_ok(self.todos@)
        &&& dones_ok(self.dones@)
        &&& (match self.undo_entry {
            Some(s) => snap_wf(s),
            None => true,
        })
        &&& (match self.mode {
            Mode::Editing(b) => {
                &&& self.cur_len() > 0
                &&& b.cursor <= b.text@.len()
                &&& ok_text(b.text@)
                &&& (b.fresh ==> {
                    &&& self.panel is Todo
                    &&& self.undo_entry is Some
                    &&& self.todos@[self.todo_cur as int].text@.len() == 0
                })
            },
            Mode::Normal => true,
        })
    }
}

/// Both collections of `b` hold the same texts and dates as those of `a`.
pub open spec fn same_items(a: TodoApp, b: TodoApp) -> bool {
    &&& texts_of(b.todos@) == texts_of(a.todos@)
    &&& dtexts_of(b.dones@) == dtexts_of(a.dones@)
    &&& ddates_of(b.dones@) == ddates_of(a.dones@)
}

pub open spec fn same_buf(x: EditBuffer, y: EditBuffer) -> bool {
    x.text@ == y.text@ && x.cursor == y.cursor && x.fresh == y.fresh
}

pub open spec fn same_mode(a: TodoApp, b: TodoApp) -> bool {
    match (a.mode, b.mode) {
        (Mode::Normal, Mode::Normal) => true,
        (Mode::Editing(x), Mode::Editing(y)) => same_buf(x, y),
        _ => false,
    }
}

/// The snapshot `s` records exactly the collections, focus and cursors of `a`.
pub open spec fn snap_records(s: Snapshot, a: TodoApp) -> bool {
    &&& texts_of(s.todos@) == texts_of(a.todos@)
    &&& dtexts_of(s.dones@) == dtexts_of(a.dones@)
    &&& ddates_of(s.dones@) == ddates_of(a.dones@)
    &&& s.panel == a.panel
    &&& s.todo_cur == a.todo_cur
    &&& s.done_cur == a.done_cur
}

pub open spec fn same_undo(a: TodoApp, b: TodoApp) -> bool {
    match (a.undo_entry, b.undo_entry) {
        (Option::None, Option::None) => true,
        (Option::Some(x), Option::Some(y)) => {
            &&& texts_of(y.todos@) == texts_of(x.todos@)
            &&& dtexts_of(y.dones@) == dtexts_of(x.dones@)
            &&& ddates_of(y.dones@) == ddates_of(x.dones@)
            &&& y.panel == x.panel
            &&& y.todo_cur == x.todo_cur
            &&& y.done_cur == x.done_cur
        },
        _ => false,
    }
}

/// `b` holds an undo entry recording the state `a`.
pub open spec fn undo_records(b: TodoApp, a: TodoApp) -> bool {
    match b.undo_entry {
        Some(s) => snap_records(s, a),
        None => false,
    }
}

/// Observable equality: nothing a caller can see distinguishes `b` from `a`.
pub open spec fn same_state(a: TodoApp, b: TodoApp) -> bool {
    &&& same_items(a, b)
    &&& b.panel == a.panel
    &&& b.todo_cur == a.todo_cur
    &&& b.done_cur == a.done_cur
    &&& same_mode(a, b)
    &&& same_undo(a, b)
    &&& b.message@ == a.message@
}

/// `b` is `a` with only the focused cursor moved to `idx`.
pub open spec fn nav_result(a: TodoApp, b: TodoApp, idx: int) -> bool {
    &&& same_items(a, b)
    &&& same_mode(a, b)
    &&& same_undo(a, b)
    &&& b.message@ == a.message@
    &&& b.panel == a.panel
    &&& (match a.panel {
        Panel::Todo => b.todo_cur == idx && b.done_cur == a.done_cur,
        Panel::Done => b.done_cur == idx && b.todo_cur == a.todo_cur,
    })
}

/// Where one step up from `cur` lands.
pub open spec fn up_idx(cur: int) -> int {
    if cur > 0 {
        cur - 1
    } else {
        cur
    }
}

/// Where one step down from `cur` lands in a collection of length `len`.
pub open spec fn down_idx(cur: int, len: int) -> int {
    if cur + 1 < len {
        cur + 1
    } else {
        cur
    }
}

impl TodoApp {
    /// A fresh machine: two empty lists, focus on the open panel.
    pub fn new() -> (r: Self)
        ensures
            r.wf(),
            r.todos@.len() == 0,
            r.dones@.len() == 0,
            r.panel is Todo,
            r.todo_cur == 0,
            r.done_cur == 0,
            !r.editing(),
            r.undo_entry is None,
            r.message@.len() == 0,
    {
        TodoApp {
            todos: Vec::new(),
            dones: Vec::new(),
            panel: Panel::Todo,
            todo_cur: 0,
            done_cur: 0,
            mode: Mode::Normal,
            undo_entry: None,
            message: Vec::new(),
        }
    }

    /// A machine seeded from loaded collections, as on startup.
    pub fn from_lists(todos: Vec<TodoItem>, dones: Vec<DoneItem>) -> (r: Self)
        requires
            todos_ok(todos@),
            dones_ok(dones@),
        ensures
            r.wf(),
            texts_of(r.todos@) == texts_of(todos@),
            dtexts_of(r.dones@) == dtexts_of(dones@),
            ddates_of(r.dones@) == ddates_of(dones@),
            r.panel is Todo,
            r.todo_cur == 0,
            r.done_cur == 0,
            !r.editing(),
            r.undo_entry is None,
    {
        TodoApp {
            todos,
            dones,
            panel: Panel::Todo,
            todo_cur: 0,
            done_cur: 0,
            mode: Mode::Normal,
            undo_entry: None,
            message: Vec::new(),
        }
    }

    pub fn get_todos(&self) -> (r: &Vec<TodoItem>)
        ensures
            r == &self.todos,
    {
        &self.todos
    }

    pub fn get_dones(&self) -> (r: &Vec<DoneItem>)
        ensures
            r == &self.dones,
    {
        &self.dones
    }

    pub fn get_todos_n(&self) -> (r: usize)
        ensures
            r == self.todos@.len(),
    {
        self.todos.len()
    }

    pub fn get_dones_n(&self) -> (r: usize)
        ensures
            r == self.dones@.len(),
    {
        self.dones.len()
    }

    pub fn is_in_todo_panel(&self) -> (r: bool)
        ensures
            r == (self.panel is Todo),
    {
        match self.panel {
            Panel::Todo => true,
            Panel::Done => false,
        }
    }

    pub fn is_in_done_panel(&self) -> (r: bool)
        ensures
            r == (self.panel is Done),
    {
        match self.panel {
            Panel::Todo => false,
            Panel::Done => true,
        }
    }

    /// Whether index `i` is the one under the open-panel cursor.
    pub fn is_cur_todo(&self, i: usize) -> (r: bool)
        ensures
            r == (i == self.todo_cur),
    {
        i == self.todo_cur
    }

    /// Whether index `i` is the one under the done-panel cursor.
    pub fn is_cur_done(&self, i: usize) -> (r: bool)
        ensures
            r == (i == self.done_cur),
    {
        i == self.done_cur
    }

    pub fn get_message(&self) -> (r: &Vec<char>)
        ensures
            r == &self.message,
    {
        &self.message
    }

    pub fn set_message(&mut self, m: Vec<char>)
        ensures
            *final(self) == (TodoApp { message: m, ..*old(self) }),
    {
        self.message = m;
    }

    pub fn clear_message(&mut self)
        ensures
            final(self).message@.len() == 0,
            *final(self) == (TodoApp { message: final(self).message, ..*old(self) }),
    {
        self.message = Vec::new();
    }

    /// Whether a Normal-mode operation may move or mutate anything now.
    fn active(&self) -> (r: bool)
        ensures
            r == !self.editing(),
    {
        match self.mode {
            Mode::Normal => true,
            Mode::Editing(_) => false,
        }
    }

    /// Move the cursor one item up, clamped at the top; ignored while
    /// editing or on an empty collection.
    pub fn go_up(&mut self)
        requires
            old(self).wf(),
        ensures
            final(self).wf(),
            old(self).editing() || old(self).cur_len() == 0 ==> same_state(*old(self), *final(self)),
            !old(self).editing() && old(self).cur_len() > 0 ==> nav_result(
                *old(self),
                *final(self),
                up_idx(old(self).cur_idx()),
            ),
    {
        if self.active() {
            match self.panel {
                Panel::Todo => {
                    if self.todo_cur > 0 {
                        self.todo_cur = self.todo_cur - 1;
                    }
                },
                Panel::Done => {
                    if self.done_cur > 0 {
                        self.done_cur = self.done_cur - 1;
                    }
                },
            }
        }
    }

    /// Move the cursor one item down, clamped at the bottom; ignored while
    /// editing or on an empty collection.
    pub fn go_down(&mut self)
        requires
            old(self).wf(),
        ensures
            final(self).wf(),
            old(self).editing() || old(self).cur_len() == 0 ==> same_state(*old(self), *final(self)),
            !old(self).editing() && old(self).cur_len() > 0 ==> nav_result(
                *old(self),
                *final(self),
                down_idx(old(self).cur_idx(), old(self).cur_len()),
            ),
    {
        if self.active() {
            match self.panel {
                Panel::Todo => {
                    if self.todos.len() > 0 && self.todo_cur + 1 < self.todos.len() {
                        self.todo_cur = self.todo_cur + 1;
                    }
                },
                Panel::Done => {
                    if self.dones.len() > 0 && self.done_cur + 1 < self.dones.len() {
                        self.done_cur = self.done_cur + 1;
                    }
                },
            }
        }
    }

    /// Jump to the first item; ignored while editing or on an empty collection.
    pub fn go_top(&mut self)
        requires
            old(self).wf(),
        ensures
            final(self).wf(),
            old(self).editing() || old(self).cur_len() == 0 ==> same_state(*old(self), *final(self)),
            !old(self).editing() && old(self).cur_len() > 0 ==> nav_result(
                *old(self),
                *final(self),
                0,
            ),
    {
        if self.active() {
            match self.panel {
                Panel::Todo => {
                    self.todo_cur = 0;
                },
                Panel::Done => {
                    self.done_cur = 0;
                },
            }
        }
    }

    /// Jump to the last item; ignored while editing or on an empty collection.
    pub fn go_bottom(&mut self)
        requires
            old(self).wf(),
        ensures
            final(self).wf(),
            old(self).editing() || old(self).cur_len() == 0 ==> same_state(*old(self), *final(self)),
            !old(self).editing() && old(self).cur_len() > 0 ==> nav_result(
                *old(self),
                *final(self),
                old(self).cur_len() - 1,
            ),
    {
        if self.active() {
            match self.panel {
                Panel::Todo => {
                    if self.todos.len() > 0 {
                        self.todo_cur = self.todos.len() - 1;
                    }
                },
                Panel::Done => {
                    if self.dones.len() > 0 {
                        self.done_cur = self.dones.len() - 1;
                    }
                },
            }
        }
    }

    /// Switch focus between the two panels; each keeps its own cursor.
    pub fn toggle_panel(&mut self)
        requires
            old(self).wf(),
        ensures
            final(self).wf(),
            old(self).editing() ==> same_state(*old(self), *final(self)),
            !old(self).editing() ==> {
                &&& same_items(*old(self), *final(self))
                &&& same_mode(*old(self), *final(self))
                &&& same_undo(*old(self), *final(self))
                &&& final(self).message@ == old(self).message@
                &&& final(self).todo_cur == old(self).todo_cur
                &&& final(self).done_cur == old(self).done_cur
                &&& final(self).panel == (match old(self).panel {
                    Panel::Todo => Panel::Done,
                    Panel::Done => Panel::Todo,
                })
            },
    {
        if self.active() {
            self.panel = match self.panel {
                Panel::Todo => Panel::Done,
                Panel::Done => Panel::Todo,
            };
        }
    }
}

/// `b` is `a` with the focused items at `from` and `to` swapped, the
/// cursor moved along to `to`, and an undo entry recording `a`.
pub open spec fn drag_result(a: TodoApp, b: TodoApp, from: int, to: int) -> bool {
    &&& b.panel == a.panel
    &&& same_mode(a, b)
    &&& b.message@ == a.message@
    &&& undo_records(b, a)
    &&& (match a.panel {
        Panel::Todo => {
            &&& texts_of(b.todos@) == texts_of(a.todos@).update(
                from,
                texts_of(a.todos@)[to],
            ).update(to, texts_of(a.todos@)[from])
            &&& b.todo_cur == to
            &&& b.done_cur == a.done_cur
            &&& dtexts_of(b.dones@) == dtexts_of(a.dones@)
            &&& ddates_of(b.dones@) == ddates_of(a.dones@)
        },
        Panel::Done => {
            &&& dtexts_of(b.dones@) == dtexts_of(a.dones@).update(
                from,
                dtexts_of(a.dones@)[to],
            ).update(to, dtexts_of(a.dones@)[from])
            &&& ddates_of(b.dones@) == ddates_of(a.dones@).update(
                from,
                ddates_of(a.dones@)[to],
            ).update(to, ddates_of(a.dones@)[from])
            &&& b.done_cur == to
            &&& b.todo_cur == a.todo_cur
            &&& texts_of(b.todos@) == texts_of(a.todos@)
        },
    })
}

/// `b` is `a` with the focused item moved to the end of the other
/// collection; on the way into the done list it gains the date `d`, on the
/// way back the stored date is dropped. An undo entry records `a`.
pub open spec fn transfer_fire(a: TodoApp, b: TodoApp, d: Seq<char>) -> bool {
    &&& b.panel == a.panel
    &&& same_mode(a, b)
    &&& b.message@ == a.message@
    &&& undo_records(b, a)
    &&& (match a.panel {
        Panel::Todo => {
            &&& texts_of(b.todos@) == texts_of(a.todos@).remove(a.todo_cur as int)
            &&& dtexts_of(b.dones@) == dtexts_of(a.dones@).push(
                texts_of(a.todos@)[a.todo_cur as int],
            )
            &&& ddates_of(b.dones@) == ddates_of(a.dones@).push(d)
            &&& b.todo_cur == clamp_cursor(a.todo_cur as int, a.todos@.len() - 1)
            &&& b.done_cur == a.done_cur
        },
        Panel::Done => {
            &&& dtexts_of(b.dones@) == dtexts_of(a.dones@).remove(a.done_cur as int)
            &&& ddates_of(b.dones@) == ddates_of(a.dones@).remove(a.done_cur as int)
            &&& texts_of(b.todos@) == texts_of(a.todos@).push(
                dtexts_of(a.dones@)[a.done_cur as int],
            )
            &&& b.done_cur == clamp_cursor(a.done_cur as int, a.dones@.len() - 1)
            &&& b.todo_cur == a.todo_cur
        },
    })
}

/// `b` is `a` with the focused done item removed for good and an undo
/// entry recording `a`.
pub open spec fn delete_fire(a: TodoApp, b: TodoApp) -> bool {
    &&& b.panel == a.panel
    &&& same_mode(a, b)
    &&& b.message@ == a.message@
    &&& undo_records(b, a)
    &&& dtexts_of(b.dones@) == dtexts_of(a.dones@).remove(a.done_cur as int)
    &&& ddates_of(b.dones@) == ddates_of(a.dones@).remove(a.done_cur as int)
    &&& texts_of(b.todos@) == texts_of(a.todos@)
    &&& b.done_cur == clamp_cursor(a.done_cur as int, a.dones@.len() - 1)
    &&& b.todo_cur == a.todo_cur
}

fn clone_chars(v: &Vec<char>) -> (r: Vec<char>)
    ensures
        r@ == v@,
{
    let mut r: Vec<char> = Vec::new();
    let mut i: usize = 0;
    while i < v.len()
        invariant
            i <= v@.len(),
            r@.len() == i,
            forall|k: int| 0 <= k < i ==> r@[k] == v@[k],
        decreases v@.len() - i,
    {
        r.push(v[i]);
        i = i + 1;
    }
    proof {
        assert(r@ =~= v@);
    }
    r
}

fn clone_todos(v: &Vec<TodoItem>) -> (r: Vec<TodoItem>)
    ensures
        texts_of(r@) == texts_of(v@),
        r@.len() == v@.len(),
{
    let mut r: Vec<TodoItem> = Vec::new();
    let mut i: usize = 0;
    while i < v.len()
        invariant
            i <= v@.len(),
            r@.len() == i,
            forall|k: int| 0 <= k < i ==> #[trigger] r@[k].text@ == v@[k].text@,
        decreases v@.len() - i,
    {
        r.push(TodoItem { text: clone_chars(&v[i].text) });
        i = i + 1;
    }
    proof {
        assert(texts_of(r@) =~= texts_of(v@));
    }
    r
}

fn clone_dones(v: &Vec<DoneItem>) -> (r: Vec<DoneItem>)
    ensures
        dtexts_of(r@) == dtexts_of(v@),
        ddates_of(r@) == ddates_of(v@),
        r@.len() == v@.len(),
{
    let mut r: Vec<DoneItem> = Vec::new();
    let mut i: usize = 0;
    while i < v.len()
        invariant
            i <= v@.len(),
            r@.len() == i,
            forall|k: int| 0 <= k < i ==> #[trigger] r@[k].text@ == v@[k].text@,
            forall|k: int| 0 <= k < i ==> #[trigger] r@[k].date@ == v@[k].date@,
        decreases v@.len() - i,
    {
        r.push(DoneItem { text: clone_chars(&v[i].text), date: clone_chars(&v[i].date) });
        i = i + 1;
    }
    proof {
        assert(dtexts_of(r@) =~= dtexts_of(v@));
        assert(ddates_of(r@) =~= ddates_of(v@));
    }
    r
}

impl TodoApp {
    /// A full snapshot of the present collections, focus and cursors.
    fn record(&self) -> (s: Snapshot)
        requires
            self.wf(),
        ensures
            snap_records(s, *self),
            snap_wf(s),
    {
        Snapshot {
            todos: clone_todos(&self.todos),
            dones: clone_dones(&self.dones),
            panel: self.panel,
            todo_cur: self.todo_cur,
            done_cur: self.done_cur,
        }
    }

    /// Swap the focused item with the one above it and follow it with the
    /// cursor; ignored while editing or with no item above.
    pub fn drag_up(&mut self)
        requires
            old(self).wf(),
        ensures
            final(self).wf(),
            old(self).editing() || old(self).cur_len() == 0 || old(self).cur_idx() == 0
                ==> same_state(*old(self), *final(self)),
            !old(self).editing() && old(self).cur_len() > 0 && old(self).cur_idx() > 0
                ==> drag_result(
                *old(self),
                *final(self),
                old(self).cur_idx(),
                old(self).cur_idx() - 1,
            ),
    {
        if self.active() {
            match self.panel {
                Panel::Todo => {
                    if self.todos.len() > 0 && self.todo_cur > 0 {
                        self.undo_entry = Some(self.record());
                        let i = self.todo_cur - 1;
                        let it = self.todos.remove(i);
                        self.todos.insert(i + 1, it);
                        self.todo_cur = i;
                        proof {
                            let a = texts_of(old(self).todos@);
                            assert(texts_of(self.todos@) =~= a.update(
                                old(self).cur_idx(),
                                a[old(self).cur_idx() - 1],
                            ).update(old(self).cur_idx() - 1, a[old(self).cur_idx()]));
                            lemma_ok_text_swap(a, old(self).cur_idx(), old(self).cur_idx() - 1);
                        }
                    }
                },
                Panel::Done => {
                    if self.dones.len() > 0 && self.done_cur > 0 {
                        self.undo_entry = Some(self.record());
                        let i = self.done_cur - 1;
                        let it = self.dones.remove(i);
                        self.dones.insert(i + 1, it);
                        self.done_cur = i;
                        proof {
                            let t = dtexts_of(old(self).dones@);
                            let d = ddates_of(old(self).dones@);
                            assert(dtexts_of(self.dones@) =~= t.update(
                                old(self).cur_idx(),
                                t[old(self).cur_idx() - 1],
                            ).update(old(self).cur_idx() - 1, t[old(self).cur_idx()]));
                            assert(ddates_of(self.dones@) =~= d.update(
                                old(self).cur_idx(),
                                d[old(self).cur_idx() - 1],
                            ).update(old(self).cur_idx() - 1, d[old(self).cur_idx()]));
                            lemma_ok_text_swap(t, old(self).cur_idx(), old(self).cur_idx() - 1);
                            lemma_ok_date_swap(d, old(self).cur_idx(), old(self).cur_idx() - 1);
                        }
                    }
                },
            }
        }
    }

    /// Swap the focused item with the one below it and follow it with the
    /// cursor; ignored while editing or on the last item, whose drag is a
    /// no-op by design.
    pub fn drag_down(&mut self)
        requires
            old(self).wf(),
        ensures
            final(self).wf(),
            old(self).editing() || old(self).cur_len() == 0 || old(self).cur_idx()
                == old(self).cur_len() - 1 ==> same_state(*old(self), *final(self)),
            !old(self).editing() && old(self).cur_len() > 0 && old(self).cur_idx()
                < old(self).cur_len() - 1 ==> drag_result(
                *old(self),
                *final(self),
                old(self).cur_idx(),
                old(self).cur_idx() + 1,
            ),
    {
        if self.active() {
            match self.panel {
                Panel::Todo => {
                    if self.todos.len() > 0 && self.todo_cur + 1 < self.todos.len() {
                        self.undo_entry = Some(self.record());
                        let i = self.todo_cur;
                        let it = self.todos.remove(i);
                        self.todos.insert(i + 1, it);
                        self.todo_cur = i + 1;
                        proof {
                            let a = texts_of(old(self).todos@);
                            assert(texts_of(self.todos@) =~= a.update(
                                old(self).cur_idx(),
                                a[old(self).cur_idx() + 1],
                            ).update(old(self).cur_idx() + 1, a[old(self).cur_idx()]));
                            lemma_ok_text_swap(a, old(self).cur_idx(), old(self).cur_idx() + 1);
                        }
                    }
                },
                Panel::Done => {
                    if self.dones.len() > 0 && self.done_cur + 1 < self.dones.len() {
                        self.undo_entry = Some(self.record());
                        let i = self.done_cur;
                        let it = self.dones.remove(i);
                        self.dones.insert(i + 1, it);
                        self.done_cur = i + 1;
                        proof {
                            let t = dtexts_of(old(self).dones@);
                            let d = ddates_of(old(self).dones@);
                            assert(dtexts_of(self.dones@) =~= t.update(
                                old(self).cur_idx(),
                                t[old(self).cur_idx() + 1],
                            ).update(old(self).cur_idx() + 1, t[old(self).cur_idx()]));
                            assert(ddates_of(self.dones@) =~= d.update(
                                old(self).cur_idx(),
                                d[old(self).cur_idx() + 1],
                            ).update(old(self).cur_idx() + 1, d[old(self).cur_idx()]));
                            lemma_ok_text_swap(t, old(self).cur_idx(), old(self).cur_idx() + 1);
                            lemma_ok_date_swap(d, old(self).cur_idx(), old(self).cur_idx() + 1);
                        }
                    }
                },
            }
        }
    }

    /// Move the focused item to the end of the other collection, stamping
    /// it with `date` when it enters the done list and dropping the stored
    /// date when it returns; ignored while editing or on an empty
    /// collection. An undo entry records the prior state.
    pub fn transfer_item_dated(&mut self, date: Vec<char>)
        requires
            old(self).wf(),
            ok_date(date@),
        ensures
            final(self).wf(),
            old(self).editing() || old(self).cur_len() == 0 ==> same_state(
                *old(self),
                *final(self),
            ),
            !old(self).editing() && old(self).cur_len() > 0 ==> transfer_fire(
                *old(self),
                *final(self),
                date@,
            ),
    {
        if self.active() {
            match self.panel {
                Panel::Todo => {
                    if self.todos.len() > 0 {
                        self.undo_entry = Some(self.record());
                        let it = self.todos.remove(self.todo_cur);
                        self.dones.push(DoneItem { text: it.text, date });
                        if self.todo_cur >= self.todos.len() && self.todos.len() > 0 {
                            self.todo_cur = self.todos.len() - 1;
                        }
                        if self.todos.len() == 0 {
                            self.todo_cur = 0;
                        }
                        proof {
                            assert(texts_of(self.todos@) =~= texts_of(old(self).todos@).remove(
                                old(self).todo_cur as int,
                            ));
                            assert(dtexts_of(self.dones@) =~= dtexts_of(old(self).dones@).push(
                                texts_of(old(self).todos@)[old(self).todo_cur as int],
                            ));
                            assert(ddates_of(self.dones@) =~= ddates_of(old(self).dones@).push(
                                date@,
                            ));
                            lemma_ok_text_remove(texts_of(old(self).todos@), old(self).todo_cur as int);
                            lemma_ok_text_push(
                                dtexts_of(old(self).dones@),
                                texts_of(old(self).todos@)[old(self).todo_cur as int],
                            );
                            lemma_ok_date_push(ddates_of(old(self).dones@), date@);
                        }
                    }
                },
                Panel::Done => {
                    if self.dones.len() > 0 {
                        self.undo_entry = Some(self.record());
                        let it = self.dones.remove(self.done_cur);
                        self.todos.push(TodoItem { text: it.text });
                        if self.done_cur >= self.dones.len() && self.dones.len() > 0 {
                            self.done_cur = self.dones.len() - 1;
                        }
                        if self.dones.len() == 0 {
                            self.done_cur = 0;
                        }
                        proof {
                            assert(dtexts_of(self.dones@) =~= dtexts_of(old(self).dones@).remove(
                                old(self).done_cur as int,
                            ));
                            assert(ddates_of(self.dones@) =~= ddates_of(old(self).dones@).remove(
                                old(self).done_cur as int,
                            ));
                            assert(texts_of(self.todos@) =~= texts_of(old(self).todos@).push(
                                dtexts_of(old(self).dones@)[old(self).done_cur as int],
                            ));
                            lemma_ok_text_remove(dtexts_of(old(self).dones@), old(self).done_cur as int);
                            lemma_ok_date_remove(ddates_of(old(self).dones@), old(self).done_cur as int);
                            lemma_ok_text_push(
                                texts_of(old(self).todos@),
                                dtexts_of(old(self).dones@)[old(self).done_cur as int],
                            );
                        }
                    }
                },
            }
        }
    }

    /// Like `transfer_item_dated`, stamped with the current local date read
    /// from the clock.
    pub fn transfer_item(&mut self)
        requires
            old(self).wf(),
        ensures
            final(self).wf(),
            old(self).editing() || old(self).cur_len() == 0 ==> same_state(
                *old(self),
                *final(self),
            ),
            !old(self).editing() && old(self).cur_len() > 0 ==> exists|d: Seq<char>|
                ok_date(d) && #[trigger] transfer_fire(*old(self), *final(self), d),
    {
        let date = crate::dates::now_date_chars();
        let ghost d = date@;
        self.transfer_item_dated(date);
        proof {
            if !old(self).editing() && old(self).cur_len() > 0 {
                assert(ok_date(d) && transfer_fire(*old(self), *self, d));
            }
        }
    }

    /// Remove the focused done item for good; only the done panel exposes
    /// deletion, everything else is ignored. An undo entry records the
    /// prior state.
    pub fn delete_item(&mut self)
        requires
            old(self).wf(),
        ensures
            final(self).wf(),
            old(self).editing() || !(old(self).panel is Done) || old(self).dones@.len() == 0
                ==> same_state(*old(self), *final(self)),
            !old(self).editing() && old(self).panel is Done && old(self).dones@.len() > 0
                ==> delete_fire(*old(self), *final(self)),
    {
        if self.active() {
            match self.panel {
                Panel::Done => {
                    if self.dones.len() > 0 {
                        self.undo_entry = Some(self.record());
                        let _ = self.dones.remove(self.done_cur);
                        if self.done_cur >= self.dones.len() && self.dones.len() > 0 {
                            self.done_cur = self.dones.len() - 1;
                        }
                        if self.dones.len() == 0 {
                            self.done_cur = 0;
                        }
                        proof {
                            assert(dtexts_of(self.dones@) =~= dtexts_of(old(self).dones@).remove(
                                old(self).done_cur as int,
                            ));
                            assert(ddates_of(self.dones@) =~= ddates_of(old(self).dones@).remove(
                                old(self).done_cur as int,
                            ));
                            lemma_ok_text_remove(dtexts_of(old(self).dones@), old(self).done_cur as int);
                            lemma_ok_date_remove(ddates_of(old(self).dones@), old(self).done_cur as int);
                        }
                    }
                },
                Panel::Todo => {},
            }
        }
    }
}

/// Text of the item under the cursor of the focused panel.
pub open spec fn focused_text(a: TodoApp) -> Seq<char>
    recommends
        a.cur_len() > 0,
{
    match a.panel {
        Panel::Todo => texts_of(a.todos@)[a.todo_cur as int],
        Panel::Done => dtexts_of(a.dones@)[a.done_cur as int],
    }
}

/// `b` is `a` with a fresh empty open item at `idx`, the cursor on it,
/// edit mode entered on an empty buffer, and an undo entry recording `a`.
pub open spec fn insert_fire(a: TodoApp, b: TodoApp, idx: int) -> bool {
    &&& b.panel == a.panel
    &&& texts_of(b.todos@) == texts_of(a.todos@).insert(idx, Seq::<char>::empty())
    &&& dtexts_of(b.dones@) == dtexts_of(a.dones@)
    &&& ddates_of(b.dones@) == ddates_of(a.dones@)
    &&& b.todo_cur == idx
    &&& b.done_cur == a.done_cur
    &&& undo_records(b, a)
    &&& b.message@ == a.message@
    &&& (match b.mode {
        Mode::Editing(buf) => buf.text@.len() == 0 && buf.cursor == 0 && buf.fresh,
        Mode::Normal => false,
    })
}

/// `b` is `a` put into edit mode on the focused item: the buffer is seeded
/// with its text, the offset sits at the end, and an undo entry records `a`.
pub open spec fn edit_fire(a: TodoApp, b: TodoApp) -> bool {
    &&& same_items(a, b)
    &&& b.panel == a.panel
    &&& b.todo_cur == a.todo_cur
    &&& b.done_cur == a.done_cur
    &&& undo_records(b, a)
    &&& b.message@ == a.message@
    &&& (match b.mode {
        Mode::Editing(buf) => {
            &&& buf.text@ == focused_text(a)
            &&& buf.cursor == focused_text(a).len()
            &&& !buf.fresh
        },
        Mode::Normal => false,
    })
}

/// Key codes the edit buffer reacts to, as the terminal reports them.
pub const KEY_DEL: i32 = 127;

pub const KEY_BACKSPACE: i32 = 263;

pub const KEY_LEFT: i32 = 260;

pub const KEY_RIGHT: i32 = 261;

/// What one key does to the buffer text: printable characters are
/// inserted at the offset, the delete keys take out the character before
/// it, everything else leaves the text alone.
pub open spec fn buf_step_text(t: Seq<char>, c: int, key: int) -> Seq<char> {
    if 32 <= key <= 126 {
        t.insert(c, (key as u8) as char)
    } else if (key == KEY_DEL || key == KEY_BACKSPACE) && c > 0 {
        t.remove(c - 1)
    } else {
        t
    }
}

/// What one key does to the buffer offset, kept within `[0, text.len()]`.
pub open spec fn buf_step_cursor(t: Seq<char>, c: int, key: int) -> int {
    if 32 <= key <= 126 {
        c + 1
    } else if (key == KEY_DEL || key == KEY_BACKSPACE) && c > 0 {
        c - 1
    } else if key == KEY_LEFT && c > 0 {
        c - 1
    } else if key == KEY_RIGHT && c < t.len() {
        c + 1
    } else {
        c
    }
}

/// `b` is `a` with one key applied to the edit buffer.
pub open spec fn edit_step_fire(a: TodoApp, b: TodoApp, key: int) -> bool {
    &&& same_items(a, b)
    &&& same_undo(a, b)
    &&& b.panel == a.panel
    &&& b.todo_cur == a.todo_cur
    &&& b.done_cur == a.done_cur
    &&& b.message@ == a.message@
    &&& (match (a.mode, b.mode) {
        (Mode::Editing(x), Mode::Editing(y)) => {
            &&& y.text@ == buf_step_text(x.text@, x.cursor as int, key)
            &&& y.cursor == buf_step_cursor(x.text@, x.cursor as int, key)
            &&& y.fresh == x.fresh
        },
        _ => false,
    })
}

/// `b` is `a` with the buffer text committed into the focused item and
/// edit mode left.
pub open spec fn commit_fire(a: TodoApp, b: TodoApp) -> bool {
    &&& b.panel == a.panel
    &&& b.todo_cur == a.todo_cur
    &&& b.done_cur == a.done_cur
    &&& same_undo(a, b)
    &&& b.message@ == a.message@
    &&& b.mode is Normal
    &&& (match a.panel {
        Panel::Todo => {
            &&& texts_of(b.todos@) == texts_of(a.todos@).update(
                a.todo_cur as int,
                a.ebuf().text@,
            )
            &&& dtexts_of(b.dones@) == dtexts_of(a.dones@)
            &&& ddates_of(b.dones@) == ddates_of(a.dones@)
        },
        Panel::Done => {
            &&& dtexts_of(b.dones@) == dtexts_of(a.dones@).update(
                a.done_cur as int,
                a.ebuf().text@,
            )
            &&& ddates_of(b.dones@) == ddates_of(a.dones@)
            &&& texts_of(b.todos@) == texts_of(a.todos@)
        },
    })
}

/// `b` is `a` with the freshly inserted, still empty item removed again
/// and edit mode left.
pub open spec fn drop_fresh_fire(a: TodoApp, b: TodoApp) -> bool {
    &&& b.panel == a.panel
    &&& b.mode is Normal
    &&& same_undo(a, b)
    &&& b.message@ == a.message@
    &&& texts_of(b.todos@) == texts_of(a.todos@).remove(a.todo_cur as int)
    &&& dtexts_of(b.dones@) == dtexts_of(a.dones@)
    &&& ddates_of(b.dones@) == ddates_of(a.dones@)
    &&& b.todo_cur == clamp_cursor(a.todo_cur as int, a.todos@.len() - 1)
    &&& b.done_cur == a.done_cur
}

/// `b` is the state recorded in `a`'s undo entry, with the entry consumed
/// and edit mode left.
pub open spec fn restore_fire(a: TodoApp, b: TodoApp) -> bool {
    &&& b.mode is Normal
    &&& b.undo_entry is None
    &&& b.message@ == a.message@
    &&& (match a.undo_entry {
        Some(s) => {
            &&& texts_of(b.todos@) == texts_of(s.todos@)
            &&& dtexts_of(b.dones@) == dtexts_of(s.dones@)
            &&& ddates_of(b.dones@) == ddates_of(s.dones@)
            &&& b.panel == s.panel
            &&& b.todo_cur == s.todo_cur
            &&& b.done_cur == s.done_cur
        },
        None => false,
    })
}

/// `b` is `a` with edit mode left and nothing else touched.
pub open spec fn leave_edit_fire(a: TodoApp, b: TodoApp) -> bool {
    &&& same_items(a, b)
    &&& same_undo(a, b)
    &&& b.panel == a.panel
    &&& b.todo_cur == a.todo_cur
    &&& b.done_cur == a.done_cur
    &&& b.message@ == a.message@
    &&& b.mode is Normal
}

impl TodoApp {
    /// Create a new empty item before the cursor of the open list and
    /// start editing it; hands back the initial edit offset. Only the open
    /// panel accepts inserts; anywhere else nothing happens.
    pub fn insert_item(&mut self) -> (r: Option<usize>)
        requires
            old(self).wf(),
        ensures
            final(self).wf(),
            old(self).editing() || !(old(self).panel is Todo) ==> r is None && same_state(
                *old(self),
                *final(self),
            ),
            !old(self).editing() && old(self).panel is Todo ==> r == Some(0usize) && insert_fire(
                *old(self),
                *final(self),
                old(self).todo_cur as int,
            ),
    {
        let can = self.active() && self.is_in_todo_panel();
        if can {
            self.undo_entry = Some(self.record());
            self.todos.insert(self.todo_cur, TodoItem { text: Vec::new() });
            self.mode = Mode::Editing(EditBuffer { text: Vec::new(), cursor: 0, fresh: true });
            proof {
                assert(texts_of(self.todos@) =~= texts_of(old(self).todos@).insert(
                    old(self).todo_cur as int,
                    Seq::<char>::empty(),
                ));
                lemma_ok_text_insert(
                    texts_of(old(self).todos@),
                    old(self).todo_cur as int,
                    Seq::<char>::empty(),
                );
                texts_of(old(self).todos@).insert_ensures(
                    old(self).todo_cur as int,
                    Seq::<char>::empty(),
                );
            }
            Some(0)
        } else {
            None
        }
    }

    /// Create a new empty item after the cursor of the open list and start
    /// editing it; hands back the initial edit offset. Only the open panel
    /// accepts appends; anywhere else nothing happens.
    pub fn append_item(&mut self) -> (r: Option<usize>)
        requires
            old(self).wf(),
        ensures
            final(self).wf(),
            old(self).editing() || !(old(self).panel is Todo) ==> r is None && same_state(
                *old(self),
                *final(self),
            ),
            !old(self).editing() && old(self).panel is Todo ==> r == Some(0usize) && insert_fire(
                *old(self),
                *final(self),
                if old(self).todos@.len() == 0 {
                    0
                } else {
                    old(self).todo_cur + 1
                },
            ),
    {
        let can = self.active() && self.is_in_todo_panel();
        if can {
            self.undo_entry = Some(self.record());
            let idx = if self.todos.len() == 0 {
                0
            } else {
                self.todo_cur + 1
            };
            self.todos.insert(idx, TodoItem { text: Vec::new() });
            self.todo_cur = idx;
            self.mode = Mode::Editing(EditBuffer { text: Vec::new(), cursor: 0, fresh: true });
            proof {
                assert(texts_of(self.todos@) =~= texts_of(old(self).todos@).insert(
                    idx as int,
                    Seq::<char>::empty(),
                ));
                lemma_ok_text_insert(texts_of(old(self).todos@), idx as int, Seq::<char>::empty());
                texts_of(old(self).todos@).insert_ensures(idx as int, Seq::<char>::empty());
            }
            Some(0)
        } else {
            None
        }
    }

    /// Start editing the focused item: the buffer is seeded with its text
    /// and the offset is handed back, sitting at the end of the text.
    /// Ignored while already editing or on an empty collection.
    pub fn edit_item(&mut self) -> (r: Option<usize>)
        requires
            old(self).wf(),
        ensures
            final(self).wf(),
            old(self).editing() || old(self).cur_len() == 0 ==> r is None && same_state(
                *old(self),
                *final(self),
            ),
            !old(self).editing() && old(self).cur_len() > 0 ==> (match r {
                Some(c) => c == focused_text(*old(self)).len() && edit_fire(
                    *old(self),
                    *final(self),
                ),
                None => false,
            }),
    {
        if self.active() {
            match self.panel {
                Panel::Todo => {
                    if self.todos.len() > 0 {
                        self.undo_entry = Some(self.record());
                        let t = clone_chars(&self.todos[self.todo_cur].text);
                        let c = t.len();
                        self.mode = Mode::Editing(EditBuffer { text: t, cursor: c, fresh: false });
                        proof {
                            assert(ok_text(texts_of(self.todos@)[self.todo_cur as int]));
                        }
                        Some(c)
                    } else {
                        None
                    }
                },
                Panel::Done => {
                    if self.dones.len() > 0 {
                        self.undo_entry = Some(self.record());
                        let t = clone_chars(&self.dones[self.done_cur].text);
                        let c = t.len();
                        self.mode = Mode::Editing(EditBuffer { text: t, cursor: c, fresh: false });
                        proof {
                            assert(ok_text(dtexts_of(self.dones@)[self.done_cur as int]));
                        }
                        Some(c)
                    } else {
                        None
                    }
                },
            }
        } else {
            None
        }
    }

    /// Apply one raw key to the edit buffer; ignored outside edit mode.
    pub fn edit_item_with(&mut self, key: i32)
        requires
            old(self).wf(),
        ensures
            final(self).wf(),
            !old(self).editing() ==> same_state(*old(self), *final(self)),
            old(self).editing() ==> edit_step_fire(*old(self), *final(self), key as int),
    {
        let mut m = Mode::Normal;
        core::mem::swap(&mut self.mode, &mut m);
        match m {
            Mode::Editing(buf) => {
                let mut buf = buf;
                if 32 <= key && key <= 126 {
                    let ch = (key as u8) as char;
                    buf.text.insert(buf.cursor, ch);
                    let n = buf.text.len();
                    proof {
                        assert(buf.cursor < n);
                    }
                    buf.cursor = buf.cursor + 1;
                    proof {
                        let t = old(self).ebuf().text@;
                        let c = old(self).ebuf().cursor as int;
                        t.insert_ensures(c, ch);
                        assert forall|i: int| 0 <= i < t.insert(c, ch).len() implies #[trigger] t.insert(
                            c,
                            ch,
                        )[i] != '\n' by {
                            if i < c {
                                assert(t.insert(c, ch)[i] == t[i]);
                            } else if i > c {
                                assert(t.insert(c, ch)[i] == t[i - 1]);
                            }
                        }
                    }
                } else if key == KEY_DEL || key == KEY_BACKSPACE {
                    if buf.cursor > 0 {
                        let _ = buf.text.remove(buf.cursor - 1);
                        buf.cursor = buf.cursor - 1;
                        proof {
                            let t = old(self).ebuf().text@;
                            let c = old(self).ebuf().cursor as int;
                            t.remove_ensures(c - 1);
                            assert forall|i: int|
                                0 <= i < t.remove(c - 1).len() implies #[trigger] t.remove(
                                c - 1,
                            )[i] != '\n' by {
                                if i < c - 1 {
                                    assert(t.remove(c - 1)[i] == t[i]);
                                } else {
                                    assert(t.remove(c - 1)[i] == t[i + 1]);
                                }
                            }
                        }
                    }
                } else if key == KEY_LEFT {
                    if buf.cursor > 0 {
                        buf.cursor = buf.cursor - 1;
                    }
                } else if key == KEY_RIGHT {
                    if buf.cursor < buf.text.len() {
                        buf.cursor = buf.cursor + 1;
                    }
                }
                self.mode = Mode::Editing(buf);
            },
            Mode::Normal => {},
        }
    }

    /// Commit the buffer back into the focused item and leave edit mode,
    /// reporting success; a freshly inserted item committed empty is
    /// removed instead of being left behind. Outside edit mode nothing
    /// happens and failure is reported.
    pub fn finish_edit(&mut self) -> (r: bool)
        requires
            old(self).wf(),
        ensures
            final(self).wf(),
            !old(self).editing() ==> r == false && same_state(*old(self), *final(self)),
            old(self).editing() && old(self).ebuf().fresh && old(self).ebuf().text@.len() == 0
                ==> r == true && drop_fresh_fire(*old(self), *final(self)),
            old(self).editing() && !(old(self).ebuf().fresh && old(self).ebuf().text@.len() == 0)
                ==> r == true && commit_fire(*old(self), *final(self)),
    {
        let mut m = Mode::Normal;
        core::mem::swap(&mut self.mode, &mut m);
        match m {
            Mode::Editing(buf) => {
                if buf.fresh && buf.text.len() == 0 {
                    let _ = self.todos.remove(self.todo_cur);
                    if self.todo_cur >= self.todos.len() && self.todos.len() > 0 {
                        self.todo_cur = self.todos.len() - 1;
                    }
                    if self.todos.len() == 0 {
                        self.todo_cur = 0;
                    }
                    proof {
                        assert(texts_of(self.todos@) =~= texts_of(old(self).todos@).remove(
                            old(self).todo_cur as int,
                        ));
                        lemma_ok_text_remove(texts_of(old(self).todos@), old(self).todo_cur as int);
                    }
                } else {
                    match self.panel {
                        Panel::Todo => {
                            let it = self.todos.remove(self.todo_cur);
                            let _ = it;
                            self.todos.insert(self.todo_cur, TodoItem { text: buf.text });
                            proof {
                                assert(texts_of(self.todos@) =~= texts_of(old(self).todos@).update(
                                    old(self).todo_cur as int,
                                    old(self).ebuf().text@,
                                ));
                                lemma_ok_text_update(
                                    texts_of(old(self).todos@),
                                    old(self).todo_cur as int,
                                    old(self).ebuf().text@,
                                );
                            }
                        },
                        Panel::Done => {
                            let it = self.dones.remove(self.done_cur);
                            self.dones.insert(
                                self.done_cur,
                                DoneItem { text: buf.text, date: it.date },
                            );
                            proof {
                                assert(dtexts_of(self.dones@) =~= dtexts_of(old(self).dones@).update(
                                    old(self).done_cur as int,
                                    old(self).ebuf().text@,
                                ));
                                assert(ddates_of(self.dones@) =~= ddates_of(old(self).dones@));
                                lemma_ok_text_update(
                                    dtexts_of(old(self).dones@),
                                    old(self).done_cur as int,
                                    old(self).ebuf().text@,
                                );
                            }
                        },
                    }
                }
                true
            },
            Mode::Normal => false,
        }
    }

    /// Leave edit mode without committing; a freshly inserted item is
    /// removed again by restoring the snapshot its insert recorded.
    pub fn cancel_edit(&mut self)
        requires
            old(self).wf(),
        ensures
            final(self).wf(),
            !old(self).editing() ==> same_state(*old(self), *final(self)),
            old(self).editing() && old(self).ebuf().fresh ==> restore_fire(
                *old(self),
                *final(self),
            ),
            old(self).editing() && !old(self).ebuf().fresh ==> leave_edit_fire(
                *old(self),
                *final(self),
            ),
    {
        let mut m = Mode::Normal;
        core::mem::swap(&mut self.mode, &mut m);
        match m {
            Mode::Editing(buf) => {
                if buf.fresh {
                    let mut u: Option<Snapshot> = None;
                    core::mem::swap(&mut self.undo_entry, &mut u);
                    match u {
                        Some(s) => {
                            self.todos = s.todos;
                            self.dones = s.dones;
                            self.panel = s.panel;
                            self.todo_cur = s.todo_cur;
                            self.done_cur = s.done_cur;
                        },
                        None => {
                            proof {
                                assert(false);
                            }
                        },
                    }
                }
            },
            Mode::Normal => {},
        }
    }

    /// Restore the snapshot of the most recent mutation and consume it; a
    /// second call without a new mutation in between finds no entry and
    /// does nothing. Ignored while editing.
    pub fn undo(&mut self)
        requires
            old(self).wf(),
        ensures
            final(self).wf(),
            old(self).editing() || old(self).undo_entry is None ==> same_state(
                *old(self),
                *final(self),
            ),
            !old(self).editing() && old(self).undo_entry is Some ==> restore_fire(
                *old(self),
                *final(self),
            ),
    {
        if self.active() {
            let mut u: Option<Snapshot> = None;
            core::mem::swap(&mut self.undo_entry, &mut u);
            match u {
                Some(s) => {
                    self.todos = s.todos;
                    self.dones = s.dones;
                    self.panel = s.panel;
                    self.todo_cur = s.todo_cur;
                    self.done_cur = s.done_cur;
                },
                None => {},
            }
        }
    }
}

/// Law: one step up then one step down from any interior index returns
/// the cursor to where it started, while items, panel and the other
/// cursor stay untouched.
pub proof fn lemma_nav_up_down(a: TodoApp, b: TodoApp, c: TodoApp)
    requires
        a.wf(),
        !a.editing(),
        a.cur_len() > 0,
        0 < a.cur_idx(),
        nav_result(a, b, up_idx(a.cur_idx())),
        nav_result(b, c, down_idx(b.cur_idx(), b.cur_len())),
    ensures
        c.cur_idx() == a.cur_idx(),
        same_items(a, c),
        c.panel == a.panel,
{
    assert(b.cur_len() == a.cur_len()) by {
        assert(texts_of(b.todos@).len() == texts_of(a.todos@).len());
        assert(dtexts_of(b.dones@).len() == dtexts_of(a.dones@).len());
    }
}

/// Law: at the top of the list a step up stays put, and at the bottom a
/// step down stays put.
pub proof fn lemma_navigate_edges(len: int)
    requires
        len > 0,
    ensures
        up_idx(0) == 0,
        down_idx(len - 1, len) == len - 1,
{
}

/// Law: transferring the focused item and then undoing restores both
/// collections, the focus and both cursors exactly as they were.
pub proof fn lemma_transfer_undo(a: TodoApp, b: TodoApp, c: TodoApp, d: Seq<char>)
    requires
        a.wf(),
        !a.editing(),
        a.cur_len() > 0,
        transfer_fire(a, b, d),
        restore_fire(b, c),
    ensures
        same_items(a, c),
        c.panel == a.panel,
        c.todo_cur == a.todo_cur,
        c.done_cur == a.done_cur,
{
}

/// Law: inserting a new item and then cancelling the edit without a
/// commit restores both collections, the focus and both cursors exactly
/// as they were.
pub proof fn lemma_insert_cancel(a: TodoApp, b: TodoApp, c: TodoApp)
    requires
        a.wf(),
        !a.editing(),
        a.panel is Todo,
        insert_fire(a, b, a.todo_cur as int),
        restore_fire(b, c),
    ensures
        same_items(a, c),
        c.panel == a.panel,
        c.todo_cur == a.todo_cur,
        c.done_cur == a.done_cur,
{
}

} // verus!

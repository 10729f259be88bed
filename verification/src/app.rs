use vstd::prelude::*;
use crate::grouping::{
    context_groups, group_tasks, law_context_groups, law_priority_groups, law_sorted_by_update,
    law_status_groups, priority_groups, sorted_by_update, status_groups,
};
use crate::keys::{KeyCode, KeyPress};
use crate::modal::{
    adding, editing, modal_after_key, modal_commits, EditTaskModal, Modal, ModalControl, ModalView,
};
use crate::state::{saturating_add_u16, saturating_sub_u16, sort_after, SortBy, State};
use crate::store::{counter_step, first_with_id, has_id, lemma_first_with_id, reprioritized_at, restatused_at, upserted, Store};
use crate::task::{ClockUnavailable, Status, Task, TaskView};
use crate::text::trim;

verus! {

broadcast use vstd::seq_lib::group_seq_properties;

/// The title of the single section when the listing is ordered by update.
pub open spec fn updated_title() -> Seq<char> {
    "in order of most recent update"@
}

/// The sections of the listing under a grouping.
pub open spec fn sections_of(s: Seq<TaskView>, sort_by: SortBy) -> Seq<(Seq<char>, Seq<TaskView>)> {
    match sort_by {
        SortBy::Context => context_groups(s),
        SortBy::Priority => priority_groups(s),
        SortBy::Status => status_groups(s),
        SortBy::UpdatedAt => seq![(updated_title(), sorted_by_update(s))],
    }
}

/// The identifiers of a run of tasks.
pub open spec fn ids_of(s: Seq<TaskView>) -> Seq<u128> {
    s.map_values(|t: TaskView| t.id)
}

/// The identifiers in the order the listing shows the tasks.
pub open spec fn section_ids(s: Seq<TaskView>, sort_by: SortBy) -> Seq<u128> {
    ids_of(group_tasks(sections_of(s, sort_by)))
}

/// The first position of `x` in `ids`, or -1.
pub open spec fn first_index(ids: Seq<u128>, x: u128) -> int
    decreases ids.len(),
{
    if ids.len() == 0 {
        -1
    } else if ids[0] == x {
        0
    } else {
        let r = first_index(ids.drop_first(), x);
        if r < 0 {
            -1
        } else {
            r + 1
        }
    }
}

/// The last position of `x` in `ids`, or -1.
pub open spec fn last_index(ids: Seq<u128>, x: u128) -> int
    decreases ids.len(),
{
    if ids.len() == 0 {
        -1
    } else if ids.last() == x {
        ids.len() - 1
    } else {
        last_index(ids.drop_last(), x)
    }
}

/// The identifier after the first occurrence of `sel`, or the first
/// identifier when `sel` does not occur or is last.
pub open spec fn selection_after(ids: Seq<u128>, sel: u128) -> u128 {
    let i = first_index(ids, sel);
    if 0 <= i && i + 1 < ids.len() {
        ids[i + 1]
    } else {
        ids[0]
    }
}

/// The identifier before the last occurrence of `sel`, or the last
/// identifier when `sel` does not occur or is first.
pub open spec fn selection_before(ids: Seq<u128>, sel: u128) -> u128 {
    let j = last_index(ids, sel);
    if j > 0 {
        ids[j - 1]
    } else {
        ids.last()
    }
}

/// `first_index` names the first occurrence, or -1 when there is none.
pub proof fn lemma_first_index(ids: Seq<u128>, x: u128)
    ensures
        -1 <= first_index(ids, x) < ids.len(),
        first_index(ids, x) == -1 <==> !ids.contains(x),
        first_index(ids, x) >= 0 ==> ids[first_index(ids, x)] == x,
        forall|j: int| 0 <= j < first_index(ids, x) ==> ids[j] != x,
    decreases ids.len(),
{
    if ids.len() > 0 {
        lemma_first_index(ids.drop_first(), x);
        if ids[0] != x {
            assert forall|j: int| 0 <= j < ids.len() && ids[j] == x implies ids.drop_first().contains(x) by {
                assert(ids.drop_first()[j - 1] == x);
            }
        }
    }
}

/// `last_index` names the last occurrence, or -1 when there is none.
pub proof fn lemma_last_index(ids: Seq<u128>, x: u128)
    ensures
        -1 <= last_index(ids, x) < ids.len(),
        last_index(ids, x) == -1 <==> !ids.contains(x),
        last_index(ids, x) >= 0 ==> ids[last_index(ids, x)] == x,
        forall|j: int| last_index(ids, x) < j < ids.len() ==> ids[j] != x,
    decreases ids.len(),
{
    if ids.len() > 0 {
        lemma_last_index(ids.drop_last(), x);
        if ids.last() != x {
            assert forall|j: int| 0 <= j < ids.len() && ids[j] == x implies ids.drop_last().contains(x) by {
                assert(ids.drop_last()[j] == x);
            }
            assert forall|j: int| last_index(ids, x) < j < ids.len() implies ids[j] != x by {
                if j < ids.len() - 1 {
                    assert(ids.drop_last()[j] == ids[j]);
                }
            }
        }
    }
}

/// Every grouping lists each task of the store exactly once.
pub proof fn law_sections_cover_store(s: Seq<TaskView>, sort_by: SortBy)
    ensures
        group_tasks(sections_of(s, sort_by)).to_multiset() == s.to_multiset(),
        group_tasks(sections_of(s, sort_by)).len() == s.len(),
        section_ids(s, sort_by).len() == s.len(),
{
    match sort_by {
        SortBy::Context => law_context_groups(s),
        SortBy::Priority => law_priority_groups(s),
        SortBy::Status => law_status_groups(s),
        SortBy::UpdatedAt => {
            law_sorted_by_update(s);
            let g = seq![(updated_title(), sorted_by_update(s))];
            reveal_with_fuel(Seq::flatten, 2);
            let f = |e: (Seq<char>, Seq<TaskView>)| e.1;
            assert(g.map_values(f) == seq![sorted_by_update(s)]);
            assert(seq![sorted_by_update(s)].drop_first() == Seq::<Seq<TaskView>>::empty());
            assert(group_tasks(g) == sorted_by_update(s));
        },
    }
    vstd::seq_lib::to_multiset_len(group_tasks(sections_of(s, sort_by)));
    vstd::seq_lib::to_multiset_len(s);
}

/// The outcome of a key press for the caller: whether the tasks must be
/// written back, and whether the view state must be.
#[derive(Debug, Clone, Copy, PartialEq, Eq, Structural)]
pub struct KeyOutcome {
    pub store_changed: bool,
    pub save_state: bool,
}

/// A key press with nothing to write back.
pub open spec fn quiet() -> KeyOutcome {
    KeyOutcome { store_changed: false, save_state: false }
}

/// The entries of the menu line at the bottom of the list view.
#[derive(Debug, Clone, Copy, PartialEq, Eq, Structural)]
pub enum MenuItem {
    Add,
    Edit,
    Priority,
    Close,
    Reopen,
    Delete,
    SortBy,
    Quit,
}

/// The menu for the store `s` with `sel` selected.
pub open spec fn menu_of(s: Seq<TaskView>, sel: u128) -> Seq<MenuItem> {
    if s.len() == 0 {
        seq![MenuItem::Add, MenuItem::Quit]
    } else {
        seq![MenuItem::Add, MenuItem::Edit, MenuItem::Priority] + (if s[first_with_id(
            s,
            sel,
        )].status == Status::Open {
            seq![MenuItem::Close]
        } else {
            seq![MenuItem::Reopen, MenuItem::Delete]
        }) + seq![MenuItem::SortBy, MenuItem::Quit]
    }
}

/// Rows the sections take on screen: a border row above and below each
/// section and one row per task, each section's count taken modulo 2^16 as
/// a `u16` conversion truncates it.
pub open spec fn rows_total(g: Seq<(Seq<char>, Seq<TaskView>)>) -> int
    decreases g.len(),
{
    if g.len() == 0 {
        0
    } else {
        rows_total(g.drop_last()) + (g.last().1.len() % 65536) + 2
    }
}

/// The rows the sections take, or `None` when that does not fit in a `u16`.
pub fn section_rows(sections: &Vec<(String, Vec<Task>)>) -> (r: Option<u16>)
    ensures
        r is Some <==> rows_total(sections.deep_view()) <= u16::MAX,
        r matches Some(t) ==> t == rows_total(sections.deep_view()),
{
    let mut total: u16 = 0;
    let mut i: usize = 0;
    while i < sections.len()
        invariant
            i <= sections.len(),
            total == rows_total(sections.deep_view().take(i as int)),
        decreases sections.len() - i,
    {
        assert(sections.deep_view().take(i + 1).drop_last() == sections.deep_view().take(i as int));
        let n = (sections[i].1.len() % 65536) as u16;
        if total as u32 + n as u32 + 2 > 65535 {
            proof {
                lemma_rows_total_grows(sections.deep_view(), i as int + 1);
            }
            return None;
        }
        total = total + n + 2;
        i = i + 1;
    }
    assert(sections.deep_view().take(sections.len() as int) == sections.deep_view());
    Some(total)
}

proof fn lemma_rows_total_grows(g: Seq<(Seq<char>, Seq<TaskView>)>, k: int)
    requires
        0 <= k <= g.len(),
    ensures
        rows_total(g.take(k)) <= rows_total(g),
    decreases g.len(),
{
    if k < g.len() {
        lemma_rows_total_grows(g.drop_last(), k);
        assert(g.drop_last().take(k) == g.take(k));
    } else {
        assert(g.take(k) == g);
    }
}

/// The view and its data, as plain values.
pub struct AppView {
    pub state: State,
    pub store: Seq<TaskView>,
    pub modal: Option<ModalView>,
    pub exited: bool,
}

/// The list view: the tasks, the view state and the overlay, if one is open.
#[derive(Debug)]
pub struct App {
    pub state: State,
    pub store: Store,
    pub modal: Option<Modal>,
    pub exited: bool,
}

impl View for App {
    type V = AppView;

    open spec fn view(&self) -> AppView {
        AppView {
            state: self.state,
            store: self.store@,
            modal: match self.modal {
                Some(m) => Some(m@),
                None => None,
            },
            exited: self.exited,
        }
    }
}

/// Whether the open overlay, if any, is done.
pub open spec fn modal_closed(a: AppView) -> bool {
    match a.modal {
        Some(m) => m.closed,
        None => false,
    }
}

/// Whether the frame about to be drawn picks a new selection: there are
/// tasks, and the selected one is gone or an overlay has just closed.
pub open spec fn reselects(a: AppView) -> bool {
    a.store.len() > 0 && (!has_id(a.store, a.state.selected) || modal_closed(a))
}

/// Before each frame: when a new selection is picked (`reselects`) the task
/// updated last is selected and any overlay is dropped; a closed overlay is
/// dropped in any case; nothing else changes.
pub open spec fn settled(a: AppView, b: AppView) -> bool {
    b == AppView {
        state: State {
            selected: if reselects(a) {
                sorted_by_update(a.store)[0].id
            } else {
                a.state.selected
            },
            ..a.state
        },
        modal: if modal_closed(a) || reselects(a) {
            None
        } else {
            a.modal
        },
        ..a
    }
}

/// What a key press does in the list view (no overlay open).
pub open spec fn list_key_ok(a: AppView, b: AppView, key: KeyPress, out: KeyOutcome) -> bool {
    let s = a.store;
    let sel = a.state.selected;
    let ids = section_ids(s, a.state.sort_by);
    if key.control {
        &&& out == quiet()
        &&& b == AppView {
            state: State {
                scroll: match key.code {
                    KeyCode::Char('e') => saturating_add_u16(a.state.scroll, 1),
                    KeyCode::Char('y') => saturating_sub_u16(a.state.scroll, 1),
                    _ => a.state.scroll,
                },
                ..a.state
            },
            ..a
        }
    } else {
        match key.code {
            KeyCode::Char('a') => {
                &&& out == quiet()
                &&& b == AppView {
                    modal: Some(
                        adding(
                            if has_id(s, sel) {
                                s[first_with_id(s, sel)].context
                            } else {
                                Seq::empty()
                            },
                        ),
                    ),
                    ..a
                }
            },
            KeyCode::Esc => {
                &&& out == KeyOutcome { store_changed: false, save_state: true }
                &&& b == AppView { exited: true, ..a }
            },
            KeyCode::Char('e') => {
                &&& out == quiet()
                &&& b == if s.len() > 0 {
                    AppView {
                        modal: Some(
                            editing(sel, s[first_with_id(s, sel)].body, s[first_with_id(s, sel)].context),
                        ),
                        ..a
                    }
                } else {
                    a
                }
            },
            KeyCode::Char('p') => if s.len() > 0 && has_id(s, sel) {
                &&& out == KeyOutcome { store_changed: true, save_state: false }
                &&& reprioritized_at(s, b.store, first_with_id(s, sel))
                &&& b == AppView { store: b.store, ..a }
            } else {
                out == quiet() && b == a
            },
            KeyCode::Char('s') => {
                &&& out == quiet()
                &&& b == if s.len() > 0 {
                    AppView { state: State { sort_by: sort_after(a.state.sort_by), ..a.state }, ..a }
                } else {
                    a
                }
            },
            KeyCode::Down | KeyCode::Char('j') => {
                &&& out == quiet()
                &&& b == if s.len() > 0 {
                    AppView { state: State { selected: selection_after(ids, sel), ..a.state }, ..a }
                } else {
                    a
                }
            },
            KeyCode::Up | KeyCode::Char('k') => {
                &&& out == quiet()
                &&& b == if s.len() > 0 {
                    AppView { state: State { selected: selection_before(ids, sel), ..a.state }, ..a }
                } else {
                    a
                }
            },
            KeyCode::Char(' ') => if has_id(s, sel) {
                &&& out == KeyOutcome { store_changed: true, save_state: false }
                &&& restatused_at(s, b.store, first_with_id(s, sel))
                &&& b == AppView { store: b.store, ..a }
            } else {
                out == quiet() && b == a
            },
            KeyCode::Char('d') => if has_id(s, sel) && s[first_with_id(s, sel)].status == Status::Closed {
                &&& out == KeyOutcome { store_changed: true, save_state: false }
                &&& b == AppView {
                    state: State {
                        selected: if sel == ids.last() {
                            selection_before(ids, sel)
                        } else {
                            selection_after(ids, sel)
                        },
                        ..a.state
                    },
                    store: s.remove(first_with_id(s, sel)),
                    ..a
                }
            } else {
                out == quiet() && b == a
            },
            _ => out == quiet() && b == a,
        }
    }
}

/// What a key press does: an open overlay takes every key; otherwise the list
/// view handles it.
pub open spec fn key_event_ok(a: AppView, b: AppView, key: KeyPress, out: KeyOutcome) -> bool {
    match a.modal {
        Some(m) => {
            &&& out == KeyOutcome { store_changed: modal_commits(m, key), save_state: false }
            &&& b == AppView { modal: Some(modal_after_key(m, key)), store: b.store, ..a }
            &&& modal_commits(m, key) ==> upserted(a.store, b.store, m.task_id, trim(m.body), trim(m.context))
            &&& !modal_commits(m, key) ==> b.store == a.store
        },
        None => list_key_ok(a, b, key, out),
    }
}

/// Whether a key press in the list view needs the clock: only a change to
/// the selected task (its priority, or its status) stamps it.
pub open spec fn list_key_reads_clock(a: AppView, key: KeyPress) -> bool {
    &&& !key.control
    &&& has_id(a.store, a.state.selected)
    &&& (key.code == KeyCode::Char(' ') || (key.code == KeyCode::Char('p') && a.store.len() > 0))
}

/// Whether a key press needs the clock: in the overlay, only a key that
/// saves; in the list view, see `list_key_reads_clock`.
pub open spec fn key_reads_clock(a: AppView, key: KeyPress) -> bool {
    match a.modal {
        Some(m) => modal_commits(m, key),
        None => list_key_reads_clock(a, key),
    }
}

/// The key press that opens the overlay on the selected task.
pub open spec fn opens_editor(key: KeyPress) -> bool {
    !key.control && key.code == KeyCode::Char('e')
}

/// A selection that names a task whenever there are tasks.
pub open spec fn selection_valid(a: AppView) -> bool {
    a.store.len() == 0 || has_id(a.store, a.state.selected)
}

impl App {
    /// A list view over `store` with the remembered `state`, no overlay open.
    pub fn new(state: State, store: Store) -> (a: App)
        ensures
            a@ == (AppView { state, store: store@, modal: None, exited: false }),
            a.store.format_spec() == store.format_spec(),
    {
        App { state, store, modal: None, exited: false }
    }

    /// The sections of the listing under the current grouping.
    pub fn sections(&self) -> (r: Vec<(String, Vec<Task>)>)
        ensures
            r.deep_view() == sections_of(self.store@, self.state.sort_by),
    {
        match self.state.sort_by {
            SortBy::Context => self.store.tasks_by_context(),
            SortBy::Priority => self.store.tasks_by_priority(),
            SortBy::Status => self.store.tasks_by_status(),
            SortBy::UpdatedAt => {
                let mut v: Vec<(String, Vec<Task>)> = Vec::new();
                v.push(("in order of most recent update".to_owned(), self.store.tasks_by_most_recently_updated_at()));
                v
            },
        }
    }

    /// The identifiers in the order the listing shows the tasks.
    pub fn ids_in_section_order(&self) -> (r: Vec<u128>)
        ensures
            r@ == section_ids(self.store@, self.state.sort_by),
    {
        let secs = self.sections();
        let ghost g = secs.deep_view();
        let mut ids: Vec<u128> = Vec::new();
        let mut i: usize = 0;
        assert(group_tasks(g.take(0)) == Seq::<TaskView>::empty()) by {
            reveal_with_fuel(Seq::flatten, 1);
        }
        while i < secs.len()
            invariant
                g == secs.deep_view(),
                i <= secs.len(),
                ids@ == ids_of(group_tasks(g.take(i as int))),
            decreases secs.len() - i,
        {
            let tasks = &secs[i].1;
            let ghost done = group_tasks(g.take(i as int));
            let mut j: usize = 0;
            while j < tasks.len()
                invariant
                    g == secs.deep_view(),
                    i < secs.len(),
                    tasks.deep_view() == g[i as int].1,
                    j <= tasks.len(),
                    ids@ == ids_of(done + tasks.deep_view().take(j as int)),
                decreases tasks.len() - j,
            {
                let ghost before = ids@;
                ids.push(tasks[j].id);
                assert(done + tasks.deep_view().take(j + 1) == (done + tasks.deep_view().take(j as int)).push(tasks.deep_view()[j as int]));
                assert(ids@ == ids_of(done + tasks.deep_view().take(j + 1)));
                j = j + 1;
            }
            proof {
                assert(tasks.deep_view().take(tasks.len() as int) == tasks.deep_view());
                assert(g.take(i + 1) == g.take(i as int).push(g[i as int]));
                crate::grouping::lemma_group_tasks_push(g.take(i as int), g[i as int]);
            }
            i = i + 1;
        }
        assert(g.take(secs.len() as int) == g);
        ids
    }

    /// Selects the task after the selected one in listing order, wrapping to
    /// the first.
    pub fn select_next(&mut self)
        requires
            old(self).store@.len() > 0,
        ensures
            final(self)@ == (AppView {
                state: State {
                    selected: selection_after(
                        section_ids(old(self).store@, old(self).state.sort_by),
                        old(self).state.selected,
                    ),
                    ..old(self).state
                },
                ..old(self)@
            }),
            final(self).store.format_spec() == old(self).store.format_spec(),
            final(self).store.last_drawn() == old(self).store.last_drawn(),
    {
        let ids = self.ids_in_section_order();
        proof {
            law_sections_cover_store(self.store@, self.state.sort_by);
            lemma_first_index(ids@, self.state.selected);
        }
        let sel = self.state.selected;
        let mut i: usize = 0;
        while i < ids.len() && ids[i] != sel
            invariant
                i <= ids.len(),
                forall|j: int| 0 <= j < i ==> ids@[j] != sel,
            decreases ids.len() - i,
        {
            i = i + 1;
        }
        proof {
            if i < ids.len() {
                assert(first_index(ids@, sel) == i);
            } else {
                assert(!ids@.contains(sel));
            }
        }
        if i < ids.len() && i + 1 < ids.len() {
            self.state.selected = ids[i + 1];
        } else {
            self.state.selected = ids[0];
        }
    }

    /// Selects the task before the selected one in listing order, wrapping
    /// to the last.
    pub fn select_previous(&mut self)
        requires
            old(self).store@.len() > 0,
        ensures
            final(self)@ == (AppView {
                state: State {
                    selected: selection_before(
                        section_ids(old(self).store@, old(self).state.sort_by),
                        old(self).state.selected,
                    ),
                    ..old(self).state
                },
                ..old(self)@
            }),
            final(self).store.format_spec() == old(self).store.format_spec(),
            final(self).store.last_drawn() == old(self).store.last_drawn(),
    {
        let ids = self.ids_in_section_order();
        proof {
            law_sections_cover_store(self.store@, self.state.sort_by);
            lemma_last_index(ids@, self.state.selected);
        }
        let sel = self.state.selected;
        let mut i: usize = ids.len();
        while i > 0 && ids[i - 1] != sel
            invariant
                i <= ids.len(),
                forall|j: int| i <= j < ids.len() ==> ids@[j] != sel,
            decreases i,
        {
            i = i - 1;
        }
        proof {
            if i > 0 {
                assert(last_index(ids@, sel) == i - 1);
            } else {
                assert(!ids@.contains(sel));
            }
        }
        if i > 1 {
            self.state.selected = ids[i - 2];
        } else {
            self.state.selected = ids[ids.len() - 1];
        }
    }

    /// Prepares a frame: a closed overlay is dropped, and when there are tasks
    /// and no task is selected, or the selected one no longer exists, or an
    /// overlay has closed, the task updated last is selected and any overlay
    /// is dropped. Afterwards a task is selected whenever there are tasks.
    pub fn settle_selection(&mut self)
        ensures
            settled(old(self)@, final(self)@),
            selection_valid(final(self)@),
            final(self).store.format_spec() == old(self).store.format_spec(),
            final(self).store.last_drawn() == old(self).store.last_drawn(),
    {
        let closed = match &self.modal {
            Some(m) => m.closed(),
            None => false,
        };
        if closed {
            self.modal = None;
        }
        if !self.store.is_empty() && (self.store.find_task(self.state.selected).is_none() || closed) {
            let sorted = self.store.tasks_by_most_recently_updated_at();
            proof {
                law_sorted_by_update(self.store@);
                vstd::seq_lib::to_multiset_contains(self.store@, sorted.deep_view()[0]);
                vstd::seq_lib::to_multiset_contains(sorted.deep_view(), sorted.deep_view()[0]);
            }
            assert(sorted.deep_view()[0] == sorted[0]@);
            self.modal = None;
            self.state.selected = sorted[0].id;
        }
    }

    /// Whether the task `id` is the selected one (the listing marks it).
    pub fn is_selected(&self, id: u128) -> (b: bool)
        ensures
            b == (id == self.state.selected),
    {
        id == self.state.selected
    }

    /// The entries of the menu line.
    pub fn menu(&self) -> (r: Vec<MenuItem>)
        requires
            selection_valid(self@),
        ensures
            r@ == menu_of(self.store@, self.state.selected),
    {
        let mut menu: Vec<MenuItem> = Vec::new();
        menu.push(MenuItem::Add);
        if !self.store.is_empty() {
            let task = self.store.find_task(self.state.selected).unwrap();
            menu.push(MenuItem::Edit);
            menu.push(MenuItem::Priority);
            match task.status {
                Status::Open => {
                    menu.push(MenuItem::Close);
                },
                Status::Closed => {
                    menu.push(MenuItem::Reopen);
                    menu.push(MenuItem::Delete);
                },
            }
            menu.push(MenuItem::SortBy);
        }
        menu.push(MenuItem::Quit);
        menu
    }

    /// Handles a key press in the list view. Fails, changing nothing, when a
    /// change to a task needs the clock and it cannot be read.
    pub fn handle_keys(&mut self, key_event: KeyPress) -> (r: Result<KeyOutcome, ClockUnavailable>)
        requires
            opens_editor(key_event) ==> selection_valid(old(self)@),
        ensures
            r matches Ok(out) ==> list_key_ok(old(self)@, final(self)@, key_event, out),
            r is Err ==> final(self)@ == old(self)@ && list_key_reads_clock(old(self)@, key_event),
            final(self).store.format_spec() == old(self).store.format_spec(),
            final(self).store.last_drawn() == old(self).store.last_drawn(),
    {
        let quiet = KeyOutcome { store_changed: false, save_state: false };
        if key_event.control {
            match key_event.code {
                KeyCode::Char('e') => self.state.scroll = self.state.scroll.saturating_add(1),
                KeyCode::Char('y') => self.state.scroll = self.state.scroll.saturating_sub(1),
                _ => {},
            }
            return Ok(quiet);
        }
        let sel = self.state.selected;
        proof {
            if has_id(self.store@, sel) {
                lemma_first_with_id(self.store@, sel);
            }
        }
        match key_event.code {
            KeyCode::Char('a') => {
                let context = match self.store.find_task(sel) {
                    Some(t) => t.context.clone(),
                    None => String::new(),
                };
                self.modal = Some(EditTaskModal::new_task(context));
                Ok(quiet)
            },
            KeyCode::Esc => {
                self.exited = true;
                Ok(KeyOutcome { store_changed: false, save_state: true })
            },
            KeyCode::Char('e') => {
                if !self.store.is_empty() {
                    self.modal = Some(EditTaskModal::edit_task(sel, &self.store));
                }
                Ok(quiet)
            },
            KeyCode::Char('p') => {
                if !self.store.is_empty() {
                    match self.store.rotate_priority(sel) {
                        Ok(found) => Ok(KeyOutcome { store_changed: found, save_state: false }),
                        Err(e) => Err(e),
                    }
                } else {
                    Ok(quiet)
                }
            },
            KeyCode::Char('s') => {
                if !self.store.is_empty() {
                    self.state.rotate_sort_by();
                }
                Ok(quiet)
            },
            KeyCode::Down | KeyCode::Char('j') => {
                if !self.store.is_empty() {
                    self.select_next();
                }
                Ok(quiet)
            },
            KeyCode::Up | KeyCode::Char('k') => {
                if !self.store.is_empty() {
                    self.select_previous();
                }
                Ok(quiet)
            },
            KeyCode::Char(' ') => {
                if self.store.find_task(sel).is_some() {
                    match self.store.rotate_status(sel) {
                        Ok(found) => Ok(KeyOutcome { store_changed: found, save_state: false }),
                        Err(e) => Err(e),
                    }
                } else {
                    Ok(quiet)
                }
            },
            KeyCode::Char('d') => {
                let closed = match self.store.find_task(sel) {
                    Some(t) => t.status == Status::Closed,
                    None => false,
                };
                if closed {
                    let ids = self.ids_in_section_order();
                    proof {
                        law_sections_cover_store(self.store@, self.state.sort_by);
                    }
                    if sel == ids[ids.len() - 1] {
                        self.select_previous();
                    } else {
                        self.select_next();
                    }
                    let found = self.store.delete(sel);
                    Ok(KeyOutcome { store_changed: found, save_state: false })
                } else {
                    Ok(quiet)
                }
            },
            _ => Ok(quiet),
        }
    }

    /// Handles a key press: an open overlay takes it, otherwise the list view
    /// does. The caller writes back what the outcome names. Fails, changing
    /// nothing, when a change to a task needs the clock and it cannot be read.
    pub fn handle_key_event(&mut self, key_event: KeyPress) -> (r: Result<KeyOutcome, ClockUnavailable>)
        requires
            old(self).modal is None && opens_editor(key_event) ==> selection_valid(old(self)@),
        ensures
            r matches Ok(out) ==> key_event_ok(old(self)@, final(self)@, key_event, out),
            r is Err ==> final(self)@ == old(self)@ && key_reads_clock(old(self)@, key_event),
            r is Err ==> final(self).store.last_drawn() == old(self).store.last_drawn(),
            r is Ok ==> match old(self)@.modal {
                Some(m) => if modal_commits(m, key_event) {
                    counter_step(
                        old(self).store@,
                        final(self).store@,
                        m.task_id,
                        old(self).store.last_drawn(),
                        final(self).store.last_drawn(),
                    )
                } else {
                    final(self).store.last_drawn() == old(self).store.last_drawn()
                },
                None => final(self).store.last_drawn() == old(self).store.last_drawn(),
            },
            final(self).store.format_spec() == old(self).store.format_spec(),
    {
        match &mut self.modal {
            Some(m) => {
                match m.handle_keys(key_event, &mut self.store) {
                    Ok(saved) => Ok(KeyOutcome { store_changed: saved, save_state: false }),
                    Err(e) => Err(e),
                }
            },
            None => self.handle_keys(key_event),
        }
    }
}

} // verus!

//! Properties that relate several operations of the to-do list.

use vstd::prelude::*;
use crate::app::{first_index, key_event_ok, last_index, lemma_first_index, lemma_last_index, selection_after, selection_before, AppView, KeyOutcome};
use crate::grouping::{law_sorted_by_update, lemma_max_stamp, max_stamp, sorted_by_update, with_stamp};
use crate::keys::{KeyCode, KeyPress};
use crate::modal::{modal_after_key, modal_commits, toggled, Field, ModalView};
use crate::state::{sort_after, SortBy};
use crate::store::{counter_step, first_with_id, has_id, is_first_with_id, lemma_first_with_id, reprioritized_at, restatused_at, upserted};
use crate::text::{cut_last_word, is_white_space, trim, trim_end, trim_start};
use crate::task::{lemma_v7_not_nil, priority_before, status_after, uuid_version, Priority, Status, TaskView};

verus! {

broadcast use vstd::seq_lib::group_seq_properties;

/// Every task carries a version-7 identifier (so none is nil).
pub open spec fn all_v7(s: Seq<TaskView>) -> bool {
    forall|i: int| 0 <= i < s.len() ==> uuid_version(#[trigger] s[i].id) == 7
}

/// Five steps of `rotate_priority` bring a task back to its priority.
pub proof fn law_priority_cycle(p: Priority)
    ensures
        priority_before(priority_before(priority_before(priority_before(priority_before(p)))))
            == p,
        priority_before(p) != p,
{
}

/// Two steps of `rotate_status` bring a task back to its status; one step
/// always changes it.
pub proof fn law_status_cycle(s: Status)
    ensures
        status_after(status_after(s)) == s,
        status_after(s) != s,
{
}

/// Four steps of `rotate_sort_by` bring back the grouping.
pub proof fn law_sort_by_cycle(s: SortBy)
    ensures
        sort_after(sort_after(sort_after(sort_after(s)))) == s,
        sort_after(s) != s,
{
}

/// Tab twice returns the focus to where it was.
pub proof fn law_toggle_twice(f: Field)
    ensures
        toggled(toggled(f)) == f,
        toggled(f) != f,
{
}

/// The first task of the update-order listing carries the latest stamp (no
/// task was updated later): this is the task that is selected when the
/// selection is lost.
pub proof fn law_first_sorted_is_latest(s: Seq<TaskView>)
    requires
        s.len() > 0,
    ensures
        sorted_by_update(s)[0].updated_at == max_stamp(s),
        forall|k: int| 0 <= k < s.len() ==> s[k].updated_at <= sorted_by_update(s)[0].updated_at,
        has_id(s, sorted_by_update(s)[0].id),
{
    reveal_with_fuel(sorted_by_update, 1);
    lemma_max_stamp(s);
    let m = max_stamp(s);
    let k = choose|k: int| 0 <= k < s.len() && s[k].updated_at == m;
    s.lemma_filter_contains(with_stamp(m), k);
    s.lemma_filter_pred(with_stamp(m), 0);
    law_sorted_by_update(s);
    vstd::seq_lib::to_multiset_contains(s, sorted_by_update(s)[0]);
    vstd::seq_lib::to_multiset_contains(sorted_by_update(s), sorted_by_update(s)[0]);
}

/// Moving the selection never leaves the listing: the next and the previous
/// selection are both identifiers that the listing shows.
pub proof fn law_selection_stays_listed(ids: Seq<u128>, sel: u128)
    requires
        ids.len() > 0,
    ensures
        ids.contains(selection_after(ids, sel)),
        ids.contains(selection_before(ids, sel)),
{
    lemma_first_index(ids, sel);
    lemma_last_index(ids, sel);
    let i = first_index(ids, sel);
    let j = last_index(ids, sel);
    if 0 <= i && i + 1 < ids.len() {
        assert(ids[i + 1] == selection_after(ids, sel));
    } else {
        assert(ids[0] == selection_after(ids, sel));
    }
    if j > 0 {
        assert(ids[j - 1] == selection_before(ids, sel));
    } else {
        assert(ids[ids.len() - 1] == selection_before(ids, sel));
    }
}

/// When every identifier occurs once, moving down then up (or up then down)
/// returns to the task that was selected, wrapping around at both ends.
pub proof fn law_selection_round_trip(ids: Seq<u128>, sel: u128)
    requires
        ids.no_duplicates(),
        ids.contains(sel),
    ensures
        selection_before(ids, selection_after(ids, sel)) == sel,
        selection_after(ids, selection_before(ids, sel)) == sel,
{
    lemma_first_index(ids, sel);
    lemma_last_index(ids, sel);
    let i = first_index(ids, sel);
    assert(last_index(ids, sel) == i);
    let n = selection_after(ids, sel);
    let k = if i + 1 < ids.len() { i + 1 } else { 0 };
    assert(ids[k] == n);
    lemma_last_index(ids, n);
    assert(last_index(ids, n) == k);
    let p = selection_before(ids, sel);
    let q = if i > 0 { i - 1 } else { ids.len() - 1 };
    assert(ids[q] == p);
    lemma_first_index(ids, p);
    assert(first_index(ids, p) == q);
}

/// An upsert never changes the identifier of a task that was there, and
/// keeps every task other than the edited one as it was.
pub proof fn law_upsert_keeps_others(
    s: Seq<TaskView>,
    t: Seq<TaskView>,
    id: u128,
    body: Seq<char>,
    context: Seq<char>,
)
    requires
        upserted(s, t, id, body, context),
    ensures
        t.len() >= s.len(),
        forall|i: int| 0 <= i < s.len() ==> #[trigger] t[i].id == s[i].id,
        has_id(t, id) || !has_id(s, id),
{
    if has_id(s, id) {
        lemma_first_with_id(s, id);
        let f = first_with_id(s, id);
        assert(t[f].id == id);
    } else {
        assert forall|i: int| 0 <= i < s.len() implies #[trigger] t[i].id == s[i].id by {
            assert(t.take(s.len() as int)[i] == t[i]);
        }
    }
}

/// Adding through the overlay (nil identifier) to a list in which no task is
/// nil appends a task, and the new task is not nil either.
pub proof fn law_add_appends_non_nil(
    s: Seq<TaskView>,
    t: Seq<TaskView>,
    body: Seq<char>,
    context: Seq<char>,
)
    requires
        !has_id(s, 0),
        upserted(s, t, 0, body, context),
    ensures
        t.len() == s.len() + 1,
        t.take(s.len() as int) == s,
        t.last().id != 0,
        t.last().body == body && t.last().context == context,
{
    lemma_v7_not_nil(t.last().id);
}

/// Every operation that changes the tasks keeps all identifiers version-7
/// (never nil), so an identifier-nil upsert always adds.
pub proof fn law_identifiers_stay_v7(
    s: Seq<TaskView>,
    t: Seq<TaskView>,
    id: u128,
    body: Seq<char>,
    context: Seq<char>,
    i: int,
)
    requires
        all_v7(s),
    ensures
        upserted(s, t, id, body, context) ==> all_v7(t),
        reprioritized_at(s, t, i) ==> all_v7(t),
        restatused_at(s, t, i) ==> all_v7(t),
        0 <= i < s.len() ==> all_v7(s.remove(i)),
        !has_id(s, 0),
{
    if upserted(s, t, id, body, context) {
        law_upsert_keeps_others(s, t, id, body, context);
        if !has_id(s, id) {
            assert forall|k: int| 0 <= k < t.len() implies uuid_version(#[trigger] t[k].id) == 7 by {
                if k < s.len() {
                    assert(t[k].id == s[k].id);
                }
            }
        } else {
            assert(t.len() == s.len());
        }
    }
    if has_id(s, 0) {
        let k = choose|k: int| 0 <= k < s.len() && s[k].id == 0;
        lemma_v7_not_nil(s[k].id);
    }
    if 0 <= i < s.len() {
        assert forall|k: int| 0 <= k < s.remove(i).len() implies uuid_version(#[trigger] s.remove(i)[k].id) == 7 by {
            if k < i {
                assert(s.remove(i)[k] == s[k]);
            } else {
                assert(s.remove(i)[k] == s[k + 1]);
            }
        }
    }
}

/// While the overlay is open it takes every key press: the list view's
/// selection, grouping and scroll stay as they were, and no key quits.
pub proof fn law_overlay_captures_keys(a: AppView, b: AppView, key: KeyPress, out: KeyOutcome)
    requires
        a.modal is Some,
        key_event_ok(a, b, key, out),
    ensures
        b.state == a.state,
        b.exited == a.exited,
        !out.save_state,
{
}

/// The overlay saves only on Enter, and never a task whose body is blank;
/// Esc abandons what was typed.
pub proof fn law_enter_never_saves_blank(m: ModalView, key: KeyPress)
    ensures
        modal_commits(m, key) ==> key.code == KeyCode::Enter && !key.control && trim(m.body).len() > 0,
        key.code == KeyCode::Esc ==> !modal_commits(m, key),
{
}

/// A key press whose outcome does not ask for the tasks to be written back
/// leaves the tasks as they were, so nothing changed is ever left unsaved.
pub proof fn law_unsaved_means_unchanged(a: AppView, b: AppView, key: KeyPress, out: KeyOutcome)
    requires
        key_event_ok(a, b, key, out),
        !out.store_changed,
    ensures
        b.store == a.store,
{
}

/// Reading back an edit: after an upsert of an identifier that is present,
/// looking the identifier up finds the new body and context, at the same
/// position.
pub proof fn law_upsert_then_find(
    s: Seq<TaskView>,
    t: Seq<TaskView>,
    id: u128,
    body: Seq<char>,
    context: Seq<char>,
)
    requires
        has_id(s, id),
        upserted(s, t, id, body, context),
    ensures
        has_id(t, id),
        first_with_id(t, id) == first_with_id(s, id),
        t[first_with_id(t, id)].body == body,
        t[first_with_id(t, id)].context == context,
{
    lemma_first_with_id(s, id);
    let f = first_with_id(s, id);
    assert(t[f].id == id);
    assert(crate::store::is_first_with_id(t, id, f)) by {
        assert forall|j: int| 0 <= j < f implies t[j].id != id by {
            assert(t[j] == s[j]);
        }
    }
    lemma_first_with_id(t, id);
}

/// Flipping a task's status twice through `Store::rotate_status` gives it
/// back its status: after two successful calls on the same identifier the
/// task sits where it did with everything as before but its time stamp, and
/// every other task is untouched. With `Store::rotate_status_at` the stamp is
/// the second call's `now2`.
pub proof fn law_status_round_trip(s0: Seq<TaskView>, s1: Seq<TaskView>, s2: Seq<TaskView>, id: u128)
    requires
        has_id(s0, id),
        restatused_at(s0, s1, first_with_id(s0, id)),
        restatused_at(s1, s2, first_with_id(s1, id)),
    ensures
        has_id(s1, id),
        first_with_id(s1, id) == first_with_id(s0, id),
        s2.len() == s0.len(),
        forall|j: int| 0 <= j < s0.len() && j != first_with_id(s0, id) ==> s2[j] == s0[j],
        s2[first_with_id(s0, id)] == (TaskView {
            updated_at: s2[first_with_id(s0, id)].updated_at,
            ..s0[first_with_id(s0, id)]
        }),
{
    lemma_first_with_id(s0, id);
    let f = first_with_id(s0, id);
    assert(s1[f].id == id);
    assert(has_id(s1, id));
    lemma_first_with_id(s1, id);
    assert(is_first_with_id(s1, id, f)) by {
        assert forall|j: int| 0 <= j < f implies s1[j].id != id by {
            assert(s1[j] == s0[j]);
        }
    }
}

/// With the stamps given (`Store::rotate_status_at`), two flips of one task
/// restore the list exactly but for the task's stamp, which is the second
/// call's `now2`.
pub proof fn law_status_round_trip_at(
    s0: Seq<TaskView>,
    s1: Seq<TaskView>,
    s2: Seq<TaskView>,
    id: u128,
    now2: i128,
)
    requires
        has_id(s0, id),
        restatused_at(s0, s1, first_with_id(s0, id)),
        restatused_at(s1, s2, first_with_id(s1, id)),
        s2[first_with_id(s1, id)].updated_at == now2,
    ensures
        s2 == s0.update(first_with_id(s0, id), TaskView { updated_at: now2, ..s0[first_with_id(s0, id)] }),
{
    law_status_round_trip(s0, s1, s2, id);
    lemma_first_with_id(s0, id);
    let f = first_with_id(s0, id);
    assert(s2 =~= s0.update(f, TaskView { updated_at: now2, ..s0[f] }));
}

/// Tasks added one after the other through a store's `upsert` (or the
/// overlay's Enter) get increasing identifiers: the second new task sits
/// right after the first, and its identifier is the greater.
pub proof fn law_added_ids_increase(
    s0: Seq<TaskView>,
    s1: Seq<TaskView>,
    s2: Seq<TaskView>,
    id1: u128,
    id2: u128,
    body1: Seq<char>,
    context1: Seq<char>,
    body2: Seq<char>,
    context2: Seq<char>,
    last0: u128,
    last1: u128,
    last2: u128,
)
    requires
        !has_id(s0, id1),
        upserted(s0, s1, id1, body1, context1),
        counter_step(s0, s1, id1, last0, last1),
        !has_id(s1, id2),
        upserted(s1, s2, id2, body2, context2),
        counter_step(s1, s2, id2, last1, last2),
    ensures
        s2.len() == s0.len() + 2,
        s2[s0.len() as int] == s1.last(),
        s2[s0.len() as int].id < s2[s0.len() as int + 1].id,
        last2 == s2.last().id,
{
    assert(s2.take(s1.len() as int)[s0.len() as int] == s2[s0.len() as int]);
}

/// Enter with a body that is not blank once trimmed always saves, whatever
/// the context (a blank context is stored as it is): the outcome asks for the
/// tasks to be written, the overlay closes, the edited task (or, for an
/// identifier no task has, a new open task of normal priority appended at the
/// end) carries the trimmed body and the trimmed context, and nothing else
/// changes.
pub proof fn law_enter_saves_text(a: AppView, b: AppView, key: KeyPress, out: KeyOutcome)
    requires
        a.modal is Some,
        !key.control,
        key.code == KeyCode::Enter,
        trim(a.modal->0.body).len() > 0,
        key_event_ok(a, b, key, out),
    ensures
        out.store_changed,
        b.modal is Some && b.modal->0.closed,
        b.state == a.state,
        has_id(a.store, a.modal->0.task_id) ==> {
            &&& b.store.len() == a.store.len()
            &&& forall|i: int| #![auto] is_first_with_id(a.store, a.modal->0.task_id, i) ==> {
                &&& b.store[i].body == trim(a.modal->0.body)
                &&& b.store[i].context == trim(a.modal->0.context)
                &&& b.store[i].id == a.store[i].id
                &&& b.store[i].status == a.store[i].status
                &&& b.store[i].priority == a.store[i].priority
            }
            &&& forall|j: int| 0 <= j < a.store.len() && a.store[j].id != a.modal->0.task_id ==> b.store[j] == a.store[j]
        },
        !has_id(a.store, a.modal->0.task_id) ==> {
            &&& b.store.len() == a.store.len() + 1
            &&& forall|j: int| 0 <= j < a.store.len() ==> b.store[j] == a.store[j]
            &&& b.store.last().body == trim(a.modal->0.body)
            &&& b.store.last().context == trim(a.modal->0.context)
            &&& b.store.last().status == Status::Open
            &&& b.store.last().priority == Priority::Normal
        },
{
    let m = a.modal->0;
    if has_id(a.store, m.task_id) {
        lemma_first_with_id(a.store, m.task_id);
        assert forall|j: int| 0 <= j < a.store.len() && a.store[j].id != m.task_id implies b.store[j] == a.store[j] by {
            assert(j != first_with_id(a.store, m.task_id));
        }
    } else {
        assert forall|j: int| 0 <= j < a.store.len() implies b.store[j] == a.store[j] by {
            assert(b.store.take(a.store.len() as int)[j] == b.store[j]);
        }
    }
}

/// In the overlay, the editing keys touch only the focused input, and Tab
/// only moves the focus: a typed character is appended to the focused input,
/// Backspace removes its last character (if any), Ctrl-U empties it, Ctrl-W
/// shortens it to a prefix that is empty or ends in a space; the other input,
/// the identifier and whether the overlay is done stay as they were.
pub proof fn law_edit_keys_touch_the_focused_input(m: ModalView, key: KeyPress)
    ensures
        modal_after_key(m, key).task_id == m.task_id,
        !key.control && key.code == KeyCode::Tab ==> {
            &&& modal_after_key(m, key).body == m.body
            &&& modal_after_key(m, key).context == m.context
            &&& modal_after_key(m, key).focus != m.focus
            &&& modal_after_key(m, key).closed == m.closed
        },
        !key.control && key.code != KeyCode::Tab && key.code != KeyCode::Enter && key.code != KeyCode::Esc ==> {
            &&& modal_after_key(m, key).focus == m.focus
            &&& modal_after_key(m, key).closed == m.closed
        },
        key.control ==> modal_after_key(m, key).focus == m.focus && modal_after_key(m, key).closed == m.closed,
        m.focus == Field::Body && (key.control || (key.code != KeyCode::Tab && key.code != KeyCode::Enter
            && key.code != KeyCode::Esc)) ==> modal_after_key(m, key).context == m.context,
        m.focus == Field::Context && (key.control || (key.code != KeyCode::Tab && key.code != KeyCode::Enter
            && key.code != KeyCode::Esc)) ==> modal_after_key(m, key).body == m.body,
        !key.control && key.code == KeyCode::Backspace && m.focus == Field::Body ==>
            modal_after_key(m, key).body == (if m.body.len() > 0 { m.body.drop_last() } else { m.body }),
        !key.control && key.code == KeyCode::Backspace && m.focus == Field::Context ==>
            modal_after_key(m, key).context == (if m.context.len() > 0 { m.context.drop_last() } else { m.context }),
        forall|c: char| !key.control && key.code == KeyCode::Char(c) && m.focus == Field::Body ==>
            #[trigger] m.body.push(c) == modal_after_key(m, key).body,
        forall|c: char| !key.control && key.code == KeyCode::Char(c) && m.focus == Field::Context ==>
            #[trigger] m.context.push(c) == modal_after_key(m, key).context,
        key.control && key.code == KeyCode::Char('u') && m.focus == Field::Body ==> modal_after_key(m, key).body.len() == 0,
        key.control && key.code == KeyCode::Char('u') && m.focus == Field::Context ==> modal_after_key(m, key).context.len() == 0,
        key.control && key.code == KeyCode::Char('w') && m.focus == Field::Body ==> is_cut_of(modal_after_key(m, key).body, m.body),
        key.control && key.code == KeyCode::Char('w') && m.focus == Field::Context ==> is_cut_of(modal_after_key(m, key).context, m.context),
        !key.control && (key.code == KeyCode::Enter || key.code == KeyCode::Esc) ==> {
            &&& modal_after_key(m, key).body == m.body
            &&& modal_after_key(m, key).context == m.context
            &&& modal_after_key(m, key).closed
        },
{
    lemma_cut_word_is_cut(m.body);
    lemma_cut_word_is_cut(m.context);
}

/// `t` is what Ctrl-W leaves of `s`: with the trailing white space of `s`
/// set aside, `t` is the prefix up to and including the last space, or
/// nothing when no space is left.
pub open spec fn is_cut_of(t: Seq<char>, s: Seq<char>) -> bool {
    &&& t.len() <= trim_end(s).len()
    &&& t == s.take(t.len() as int)
    &&& (t.len() == 0 || t.last() == ' ')
    &&& forall|k: int| t.len() <= k < trim_end(s).len() ==> #[trigger] trim_end(s)[k] != ' '
}

proof fn lemma_trim_end_prefix(s: Seq<char>)
    ensures
        trim_end(s).len() <= s.len(),
        trim_end(s) == s.take(trim_end(s).len() as int),
        forall|k: int| trim_end(s).len() <= k < s.len() ==> is_white_space(#[trigger] s[k]),
        trim_end(s).len() > 0 ==> !is_white_space(trim_end(s).last()),
    decreases s.len(),
{
    if s.len() > 0 && is_white_space(s.last()) {
        lemma_trim_end_prefix(s.drop_last());
        assert(s.drop_last().take(trim_end(s).len() as int) == s.take(trim_end(s).len() as int));
        assert forall|k: int| trim_end(s).len() <= k < s.len() implies is_white_space(#[trigger] s[k]) by {
            if k < s.len() - 1 {
                assert(s[k] == s.drop_last()[k]);
            }
        }
    } else {
        assert(s.take(s.len() as int) == s);
    }
}

proof fn lemma_cut_last_word_prefix(s: Seq<char>)
    ensures
        cut_last_word(s).len() <= s.len(),
        cut_last_word(s) == s.take(cut_last_word(s).len() as int),
        cut_last_word(s).len() == 0 || cut_last_word(s).last() == ' ',
        forall|k: int| cut_last_word(s).len() <= k < s.len() ==> #[trigger] s[k] != ' ',
    decreases s.len(),
{
    if s.len() == 0 || s.last() == ' ' {
        assert(s.take(s.len() as int) == s);
    } else {
        lemma_cut_last_word_prefix(s.drop_last());
        assert(s.drop_last().take(cut_last_word(s).len() as int) == s.take(cut_last_word(s).len() as int));
        assert forall|k: int| cut_last_word(s).len() <= k < s.len() implies #[trigger] s[k] != ' ' by {
            if k < s.len() - 1 {
                assert(s[k] == s.drop_last()[k]);
            }
        }
    }
}

proof fn lemma_cut_word_is_cut(s: Seq<char>)
    ensures
        is_cut_of(cut_last_word(trim_end(s)), s),
{
    lemma_trim_end_prefix(s);
    lemma_cut_last_word_prefix(trim_end(s));
    let t = trim_end(s);
    let c = cut_last_word(t);
    assert(t.take(c.len() as int) == s.take(c.len() as int));
}

/// 'a' in the list view opens the overlay to add a task: nil identifier,
/// empty body, focus on the body, prefilled with the context of the selected
/// task (empty when no task is selected); the tasks and the list state stay.
/// 'e' opens it on the selected task, with that task's identifier, body and
/// context.
pub proof fn law_open_keys_prefill_from_the_selected_task(a: AppView, b: AppView, key: KeyPress, out: KeyOutcome)
    requires
        a.modal is None,
        !key.control,
        key.code == KeyCode::Char('a') || key.code == KeyCode::Char('e'),
        key_event_ok(a, b, key, out),
    ensures
        b.store == a.store,
        b.state == a.state,
        !out.store_changed,
        key.code == KeyCode::Char('a') ==> {
            &&& b.modal is Some
            &&& b.modal->0.task_id == 0
            &&& b.modal->0.body.len() == 0
            &&& b.modal->0.focus == Field::Body
            &&& !b.modal->0.closed
            &&& forall|i: int| #![auto] is_first_with_id(a.store, a.state.selected, i) ==> b.modal->0.context == a.store[i].context
            &&& !has_id(a.store, a.state.selected) ==> b.modal->0.context.len() == 0
        },
        key.code == KeyCode::Char('e') && has_id(a.store, a.state.selected) ==> {
            &&& b.modal is Some
            &&& b.modal->0.task_id == a.state.selected
            &&& b.modal->0.focus == Field::Body
            &&& !b.modal->0.closed
            &&& forall|i: int| #![auto] is_first_with_id(a.store, a.state.selected, i) ==> {
                &&& b.modal->0.body == a.store[i].body
                &&& b.modal->0.context == a.store[i].context
            }
        },
{
    if has_id(a.store, a.state.selected) {
        lemma_first_with_id(a.store, a.state.selected);
    }
}

/// Trimming cuts white space off both ends and nothing else: the result is
/// a contiguous stretch of the input, everything cut off is white space, and
/// the result neither starts nor ends with white space.
pub proof fn law_trim(s: Seq<char>)
    ensures
        exists|a: int, b: int|
            0 <= a <= b <= s.len() && trim(s) == s.subrange(a, b) && (forall|k: int|
                0 <= k < a ==> is_white_space(#[trigger] s[k])) && (forall|k: int|
                b <= k < s.len() ==> is_white_space(#[trigger] s[k])),
        trim(s).len() > 0 ==> !is_white_space(trim(s)[0]) && !is_white_space(trim(s).last()),
{
    lemma_trim_start_suffix(s);
    let x = trim_start(s);
    let a = s.len() - x.len();
    lemma_trim_end_prefix(x);
    let b = a + trim_end(x).len();
    assert(trim(s) == s.subrange(a, b));
    assert forall|k: int| b <= k < s.len() implies is_white_space(#[trigger] s[k]) by {
        assert(s[k] == x[k - a]);
    }
    if trim(s).len() > 0 {
        assert(trim(s)[0] == x[0]);
    }
}

proof fn lemma_trim_start_suffix(s: Seq<char>)
    ensures
        trim_start(s).len() <= s.len(),
        trim_start(s) == s.skip(s.len() - trim_start(s).len()),
        forall|k: int| 0 <= k < s.len() - trim_start(s).len() ==> is_white_space(#[trigger] s[k]),
        trim_start(s).len() > 0 ==> !is_white_space(trim_start(s)[0]),
    decreases s.len(),
{
    if s.len() > 0 && is_white_space(s[0]) {
        lemma_trim_start_suffix(s.drop_first());
        assert forall|k: int| 0 <= k < s.len() - trim_start(s).len() implies is_white_space(#[trigger] s[k]) by {
            if k > 0 {
                assert(s[k] == s.drop_first()[k - 1]);
            }
        }
        assert(s.drop_first().skip(s.drop_first().len() - trim_start(s).len()) == s.skip(s.len() - trim_start(s).len()));
    } else {
        assert(s.skip(0) == s);
    }
}

} // verus!

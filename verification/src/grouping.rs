use vstd::prelude::*;
use crate::task::{Priority, Status, Task, TaskView, priority_label, priority_rank, status_label, status_rank};
use crate::text::{lex_lt, str_lt, lemma_lex_irreflexive, lemma_lex_trichotomy, lemma_lex_transitive};
use crate::store::{Store, with_priority, with_status, with_context, without_context};

verus! {

broadcast use vstd::seq_lib::group_seq_properties;

/// The latest update stamp among the tasks of `s` (meaningful when `s` is
/// not empty).
pub open spec fn max_stamp(s: Seq<TaskView>) -> i128
    decreases s.len(),
{
    if s.len() <= 1 {
        s[0].updated_at
    } else {
        let m = max_stamp(s.drop_last());
        if s.last().updated_at > m {
            s.last().updated_at
        } else {
            m
        }
    }
}

/// Tasks stamped `t`.
pub open spec fn with_stamp(t: i128) -> spec_fn(TaskView) -> bool {
    |x: TaskView| x.updated_at == t
}

/// Tasks stamped otherwise than `t`.
pub open spec fn without_stamp(t: i128) -> spec_fn(TaskView) -> bool {
    |x: TaskView| x.updated_at != t
}

/// The context that sorts first among the tasks of `s` (meaningful when `s`
/// is not empty).
pub open spec fn min_context(s: Seq<TaskView>) -> Seq<char>
    decreases s.len(),
{
    if s.len() <= 1 {
        s[0].context
    } else {
        let m = min_context(s.drop_last());
        if lex_lt(s.last().context, m) {
            s.last().context
        } else {
            m
        }
    }
}

/// Filtering out an element that the predicate rejects makes the sequence
/// shorter.
pub proof fn lemma_filter_shrinks(s: Seq<TaskView>, pred: spec_fn(TaskView) -> bool, k: int)
    requires
        0 <= k < s.len(),
        !pred(s[k]),
    ensures
        s.filter(pred).len() < s.len(),
    decreases s.len(),
{
    reveal(Seq::filter);
    s.drop_last().lemma_filter_len(pred);
    if k < s.len() - 1 {
        lemma_filter_shrinks(s.drop_last(), pred, k);
    }
}

/// `max_stamp` is the stamp of some task and no task has a later one.
pub proof fn lemma_max_stamp(s: Seq<TaskView>)
    requires
        s.len() > 0,
    ensures
        exists|k: int| 0 <= k < s.len() && s[k].updated_at == max_stamp(s),
        forall|k: int| 0 <= k < s.len() ==> s[k].updated_at <= max_stamp(s),
    decreases s.len(),
{
    if s.len() > 1 {
        lemma_max_stamp(s.drop_last());
        let k = choose|k: int| 0 <= k < s.drop_last().len() && s.drop_last()[k].updated_at == max_stamp(s.drop_last());
        assert(s[k].updated_at == max_stamp(s.drop_last()));
        assert(s[s.len() - 1].updated_at == s.last().updated_at);
        assert forall|j: int| 0 <= j < s.len() implies s[j].updated_at <= max_stamp(s) by {
            if j < s.len() - 1 {
                assert(s[j].updated_at == s.drop_last()[j].updated_at);
            }
        }
    } else {
        assert(s[0].updated_at == max_stamp(s));
    }
}

/// `min_context` is the context of some task and no task's context sorts
/// before it.
pub proof fn lemma_min_context(s: Seq<TaskView>)
    requires
        s.len() > 0,
    ensures
        exists|k: int| 0 <= k < s.len() && s[k].context == min_context(s),
        forall|k: int| 0 <= k < s.len() ==> !lex_lt(#[trigger] s[k].context, min_context(s)),
    decreases s.len(),
{
    if s.len() > 1 {
        let d = s.drop_last();
        lemma_min_context(d);
        let k = choose|k: int| 0 <= k < d.len() && d[k].context == min_context(d);
        assert(s[k].context == min_context(d));
        assert(s[s.len() - 1].context == s.last().context);
        let m = min_context(d);
        let l = s.last().context;
        assert forall|j: int| 0 <= j < s.len() implies !lex_lt(#[trigger] s[j].context, min_context(s)) by {
            if j < s.len() - 1 {
                assert(s[j].context == d[j].context);
                assert(!lex_lt(d[j].context, m));
                if lex_lt(l, m) {
                    if lex_lt(s[j].context, l) {
                        lemma_lex_transitive(s[j].context, l, m);
                    }
                }
            } else {
                lemma_lex_irreflexive(l);
                if !lex_lt(l, m) {
                    lemma_lex_irreflexive(m);
                }
            }
        }
    } else {
        assert(s[0].context == min_context(s));
        lemma_lex_irreflexive(s[0].context);
    }
}

/// Dropping the tasks of the latest stamp leaves fewer tasks.
pub proof fn lemma_rest_by_stamp_shrinks(s: Seq<TaskView>)
    requires
        s.len() > 0,
    ensures
        s.filter(without_stamp(max_stamp(s))).len() < s.len(),
{
    lemma_max_stamp(s);
    let k = choose|k: int| 0 <= k < s.len() && s[k].updated_at == max_stamp(s);
    lemma_filter_shrinks(s, without_stamp(max_stamp(s)), k);
}

/// Dropping the tasks of the first context leaves fewer tasks.
pub proof fn lemma_rest_by_context_shrinks(s: Seq<TaskView>)
    requires
        s.len() > 0,
    ensures
        s.filter(without_context(min_context(s))).len() < s.len(),
{
    lemma_min_context(s);
    let k = choose|k: int| 0 <= k < s.len() && s[k].context == min_context(s);
    lemma_filter_shrinks(s, without_context(min_context(s)), k);
}

/// The tasks ordered by update stamp, most recently updated first; tasks
/// with the same stamp keep their relative order (a stable sort): the tasks
/// of the latest stamp first, then the rest ordered the same way.
pub open spec fn sorted_by_update(s: Seq<TaskView>) -> Seq<TaskView>
    decreases s.len(),
{
    if s.len() == 0 {
        s
    } else {
        let m = max_stamp(s);
        proof {
            lemma_rest_by_stamp_shrinks(s);
        }
        s.filter(with_stamp(m)) + sorted_by_update(s.filter(without_stamp(m)))
    }
}

/// The tasks ordered by priority, most pressing first; tasks of the same
/// priority keep their relative order (a stable sort).
pub open spec fn sorted_by_priority(s: Seq<TaskView>) -> Seq<TaskView> {
    s.filter(with_priority(Priority::Urgent)) + s.filter(with_priority(Priority::High)) + s.filter(
        with_priority(Priority::Normal),
    ) + s.filter(with_priority(Priority::Low)) + s.filter(with_priority(Priority::DontForget))
}

/// One group per context, contexts in code-point order, each group's tasks
/// sorted by priority.
pub open spec fn context_groups(s: Seq<TaskView>) -> Seq<(Seq<char>, Seq<TaskView>)>
    decreases s.len(),
{
    if s.len() == 0 {
        Seq::empty()
    } else {
        let c = min_context(s);
        proof {
            lemma_rest_by_context_shrinks(s);
        }
        seq![(c, sorted_by_priority(s.filter(with_context(c))))] + context_groups(
            s.filter(without_context(c)),
        )
    }
}

/// The groups that hold at least one task.
pub open spec fn nonempty_groups(g: Seq<(Seq<char>, Seq<TaskView>)>) -> Seq<
    (Seq<char>, Seq<TaskView>),
> {
    g.filter(holds_tasks())
}

/// Groups that hold at least one task.
pub open spec fn holds_tasks() -> spec_fn((Seq<char>, Seq<TaskView>)) -> bool {
    |e: (Seq<char>, Seq<TaskView>)| e.1.len() > 0
}

/// One group per priority that occurs, most pressing first, labelled with the
/// priority's icon; each group keeps the tasks' order.
pub open spec fn priority_groups(s: Seq<TaskView>) -> Seq<(Seq<char>, Seq<TaskView>)> {
    nonempty_groups(
        seq![
            (priority_label(Priority::Urgent), s.filter(with_priority(Priority::Urgent))),
            (priority_label(Priority::High), s.filter(with_priority(Priority::High))),
            (priority_label(Priority::Normal), s.filter(with_priority(Priority::Normal))),
            (priority_label(Priority::Low), s.filter(with_priority(Priority::Low))),
            (priority_label(Priority::DontForget), s.filter(with_priority(Priority::DontForget))),
        ],
    )
}

/// One group per status that occurs, open first, labelled with the status's
/// icon; each group's tasks sorted by priority.
pub open spec fn status_groups(s: Seq<TaskView>) -> Seq<(Seq<char>, Seq<TaskView>)> {
    nonempty_groups(
        seq![
            (status_label(Status::Open), sorted_by_priority(s.filter(with_status(Status::Open)))),
            (status_label(Status::Closed), sorted_by_priority(s.filter(with_status(Status::Closed)))),
        ],
    )
}

/// Splitting a sequence by a predicate and its negation keeps every element
/// exactly once.
pub proof fn lemma_split_multiset(
    s: Seq<TaskView>,
    p: spec_fn(TaskView) -> bool,
    q: spec_fn(TaskView) -> bool,
)
    requires
        forall|t: TaskView| #[trigger] q(t) == !p(t),
    ensures
        s.to_multiset() == s.filter(p).to_multiset().add(s.filter(q).to_multiset()),
    decreases s.len(),
{
    broadcast use vstd::seq_lib::group_to_multiset_ensures, vstd::multiset::group_multiset_axioms;

    if s.len() == 0 {
        reveal(Seq::filter);
        assert(s.filter(p) == s);
        assert(s.filter(q) == s);
    } else {
        let d = s.drop_last();
        let x = s.last();
        assert(s == d.push(x));
        lemma_split_multiset(d, p, q);
        d.lemma_filter_push(x, p);
        d.lemma_filter_push(x, q);
        assert(s.to_multiset() =~= s.filter(p).to_multiset().add(s.filter(q).to_multiset()));
    }
}

/// Sorting by priority keeps every task exactly once.
pub proof fn lemma_sorted_by_priority_permutes(s: Seq<TaskView>)
    ensures
        sorted_by_priority(s).to_multiset() == s.to_multiset(),
        sorted_by_priority(s).len() == s.len(),
    decreases s.len(),
{
    broadcast use vstd::seq_lib::group_to_multiset_ensures, vstd::multiset::group_multiset_axioms, vstd::seq_lib::lemma_multiset_commutative;

    if s.len() == 0 {
        reveal(Seq::filter);
        assert(sorted_by_priority(s) =~= s);
    } else {
        let d = s.drop_last();
        let x = s.last();
        assert(s == d.push(x));
        lemma_sorted_by_priority_permutes(d);
        d.lemma_filter_push(x, with_priority(Priority::Urgent));
        d.lemma_filter_push(x, with_priority(Priority::High));
        d.lemma_filter_push(x, with_priority(Priority::Normal));
        d.lemma_filter_push(x, with_priority(Priority::Low));
        d.lemma_filter_push(x, with_priority(Priority::DontForget));
        assert(sorted_by_priority(s).to_multiset() =~= s.to_multiset());
    }
}

/// Filtering twice is filtering once by both predicates.
pub proof fn lemma_filter_filter(
    s: Seq<TaskView>,
    p: spec_fn(TaskView) -> bool,
    q: spec_fn(TaskView) -> bool,
    r: spec_fn(TaskView) -> bool,
)
    requires
        forall|t: TaskView| #[trigger] r(t) == (p(t) && q(t)),
    ensures
        s.filter(p).filter(q) == s.filter(r),
    decreases s.len(),
{
    reveal(Seq::filter);
    if s.len() > 0 {
        let d = s.drop_last();
        let x = s.last();
        assert(s == d.push(x));
        lemma_filter_filter(d, p, q, r);
        d.lemma_filter_push(x, p);
        d.lemma_filter_push(x, r);
        d.filter(p).lemma_filter_push(x, q);
    }
}

/// A filter that rejects every element leaves nothing.
pub proof fn lemma_filter_none(s: Seq<TaskView>, p: spec_fn(TaskView) -> bool)
    requires
        forall|i: int| 0 <= i < s.len() ==> !p(#[trigger] s[i]),
    ensures
        s.filter(p) == Seq::<TaskView>::empty(),
    decreases s.len(),
{
    reveal(Seq::filter);
    if s.len() > 0 {
        let d = s.drop_last();
        assert forall|i: int| 0 <= i < d.len() implies !p(#[trigger] d[i]) by {
            assert(d[i] == s[i]);
        }
        lemma_filter_none(d, p);
    }
}

/// A filter that accepts every element keeps everything.
pub proof fn lemma_filter_all(s: Seq<TaskView>, p: spec_fn(TaskView) -> bool)
    requires
        forall|i: int| 0 <= i < s.len() ==> p(#[trigger] s[i]),
    ensures
        s.filter(p) == s,
    decreases s.len(),
{
    reveal(Seq::filter);
    if s.len() > 0 {
        let d = s.drop_last();
        assert forall|i: int| 0 <= i < d.len() implies p(#[trigger] d[i]) by {
            assert(d[i] == s[i]);
        }
        lemma_filter_all(d, p);
        assert(s == d.push(s.last()));
    }
}

/// Ordering by update yields every task exactly once, in non-increasing
/// order of stamp (most recently updated first), and tasks with the same
/// stamp keep the order they had (the sort is stable).
pub proof fn law_sorted_by_update(s: Seq<TaskView>)
    ensures
        forall|i: int, j: int|
            0 <= i < j < sorted_by_update(s).len() ==> #[trigger] sorted_by_update(s)[j].updated_at
                <= #[trigger] sorted_by_update(s)[i].updated_at,
        sorted_by_update(s).to_multiset() == s.to_multiset(),
        sorted_by_update(s).len() == s.len(),
        forall|t: i128| #[trigger] sorted_by_update(s).filter(with_stamp(t)) == s.filter(with_stamp(t)),
    decreases s.len(),
{
    broadcast use vstd::seq_lib::group_to_multiset_ensures, vstd::multiset::group_multiset_axioms, vstd::seq_lib::lemma_multiset_commutative, vstd::seq_lib::group_filter_ensures, vstd::seq::Seq::lemma_filter_contains_rev;

    if s.len() == 0 {
        reveal(Seq::filter);
    } else {
        let m = max_stamp(s);
        let g = s.filter(with_stamp(m));
        let rest = s.filter(without_stamp(m));
        let r = sorted_by_update(s);
        lemma_rest_by_stamp_shrinks(s);
        law_sorted_by_update(rest);
        let sr = sorted_by_update(rest);
        assert(r == g + sr);
        lemma_max_stamp(s);
        lemma_split_multiset(s, with_stamp(m), without_stamp(m));
        assert forall|k: int| 0 <= k < sr.len() implies #[trigger] sr[k].updated_at != m && sr[k].updated_at <= m by {
            assert(sr.to_multiset().count(sr[k]) > 0);
            assert(rest.contains(sr[k]));
            assert(s.contains(sr[k]));
        }
        assert forall|k: int| 0 <= k < g.len() implies #[trigger] g[k].updated_at == m by {}
        assert forall|i: int, j: int| 0 <= i < j < r.len() implies #[trigger] r[j].updated_at <= #[trigger] r[i].updated_at by {
            if j < g.len() {
                assert(r[i] == g[i] && r[j] == g[j]);
            } else if i < g.len() {
                assert(r[i] == g[i] && r[j] == sr[j - g.len()]);
            } else {
                assert(r[i] == sr[i - g.len()] && r[j] == sr[j - g.len()]);
            }
        }
        assert(r.to_multiset() == s.to_multiset());
        vstd::seq_lib::to_multiset_len(r);
        vstd::seq_lib::to_multiset_len(s);
        assert forall|t: i128| #[trigger] r.filter(with_stamp(t)) == s.filter(with_stamp(t)) by {
            assert(r.filter(with_stamp(t)) == g.filter(with_stamp(t)) + sr.filter(with_stamp(t)));
            if t == m {
                lemma_filter_all(g, with_stamp(t));
                assert forall|k: int| 0 <= k < rest.len() implies !with_stamp(t)(#[trigger] rest[k]) by {}
                lemma_filter_none(rest, with_stamp(t));
                assert(g + Seq::<TaskView>::empty() == g);
            } else {
                lemma_filter_none(g, with_stamp(t));
                lemma_filter_filter(s, without_stamp(m), with_stamp(t), with_stamp(t));
                assert(Seq::<TaskView>::empty() + rest.filter(with_stamp(t)) == rest.filter(with_stamp(t)));
            }
        }
    }
}

spec fn block_of(k: int, ra: int, rb: int, rc: int, rd: int) -> int {
    if k < ra {
        0
    } else if k < rb {
        1
    } else if k < rc {
        2
    } else if k < rd {
        3
    } else {
        4
    }
}

/// Ordering by priority yields every task exactly once, most pressing
/// first, and tasks of the same priority keep the order they had.
pub proof fn law_sorted_by_priority(s: Seq<TaskView>)
    ensures
        forall|i: int, j: int|
            0 <= i < j < sorted_by_priority(s).len() ==> priority_rank(
                #[trigger] sorted_by_priority(s)[i].priority,
            ) <= priority_rank(#[trigger] sorted_by_priority(s)[j].priority),
        sorted_by_priority(s).to_multiset() == s.to_multiset(),
        forall|p: Priority| #[trigger] sorted_by_priority(s).filter(with_priority(p)) == s.filter(
            with_priority(p),
        ),
{
    broadcast use vstd::seq_lib::group_filter_ensures;

    lemma_sorted_by_priority_permutes(s);
    let a = s.filter(with_priority(Priority::Urgent));
    let b = s.filter(with_priority(Priority::High));
    let c = s.filter(with_priority(Priority::Normal));
    let d = s.filter(with_priority(Priority::Low));
    let e = s.filter(with_priority(Priority::DontForget));
    let r = sorted_by_priority(s);
    assert(r == a + b + c + d + e);
    let ra: int = a.len() as int;
    let rb: int = ra + b.len();
    let rc: int = rb + c.len();
    let rd: int = rc + d.len();
    assert forall|k: int| 0 <= k < r.len() implies priority_rank(#[trigger] r[k].priority) == block_of(k, ra, rb, rc, rd) by {
        if k < ra {
            assert(r[k] == a[k]);
        } else if k < rb {
            assert(r[k] == b[k - ra]);
        } else if k < rc {
            assert(r[k] == c[k - rb]);
        } else if k < rd {
            assert(r[k] == d[k - rc]);
        } else {
            assert(r[k] == e[k - rd]);
        }
    }
    assert forall|i: int, j: int| 0 <= i < j < r.len() implies priority_rank(
        #[trigger] r[i].priority,
    ) <= priority_rank(#[trigger] r[j].priority) by {
        assert(priority_rank(r[i].priority) == block_of(i, ra, rb, rc, rd));
        assert(priority_rank(r[j].priority) == block_of(j, ra, rb, rc, rd));
    }
    assert forall|p: Priority| #[trigger] r.filter(with_priority(p)) == s.filter(with_priority(p)) by {
        let wp = with_priority(p);
        assert(r.filter(wp) == a.filter(wp) + b.filter(wp) + c.filter(wp) + d.filter(wp) + e.filter(wp));
        lemma_filter_filter(s, with_priority(Priority::Urgent), wp, if p == Priority::Urgent { wp } else { |t: TaskView| false });
        lemma_filter_filter(s, with_priority(Priority::High), wp, if p == Priority::High { wp } else { |t: TaskView| false });
        lemma_filter_filter(s, with_priority(Priority::Normal), wp, if p == Priority::Normal { wp } else { |t: TaskView| false });
        lemma_filter_filter(s, with_priority(Priority::Low), wp, if p == Priority::Low { wp } else { |t: TaskView| false });
        lemma_filter_filter(s, with_priority(Priority::DontForget), wp, if p == Priority::DontForget { wp } else { |t: TaskView| false });
        lemma_filter_none(s, |t: TaskView| false);
        assert(s.filter(wp) + Seq::<TaskView>::empty() == s.filter(wp));
        assert(Seq::<TaskView>::empty() + s.filter(wp) == s.filter(wp));
    }
}

/// All tasks of a listing of groups, group after group.
pub open spec fn group_tasks(g: Seq<(Seq<char>, Seq<TaskView>)>) -> Seq<TaskView> {
    g.map_values(|e: (Seq<char>, Seq<TaskView>)| e.1).flatten()
}

proof fn lemma_group_tasks_cons(e: (Seq<char>, Seq<TaskView>), g: Seq<(Seq<char>, Seq<TaskView>)>)
    ensures
        group_tasks(seq![e] + g) == e.1 + group_tasks(g),
{
    let f = |e: (Seq<char>, Seq<TaskView>)| e.1;
    let all = (seq![e] + g).map_values(f);
    assert(all.first() == e.1);
    assert(all.drop_first() == g.map_values(f));
}

/// Grouping by context: contexts come in strictly increasing code-point
/// order (so each occurs once), every group holds exactly the tasks of its
/// context ordered by priority, no group is empty, and every task appears
/// exactly once in the listing.
pub proof fn law_context_groups(s: Seq<TaskView>)
    ensures
        forall|i: int, j: int|
            0 <= i < j < context_groups(s).len() ==> lex_lt(
                #[trigger] context_groups(s)[i].0,
                #[trigger] context_groups(s)[j].0,
            ),
        forall|i: int|
            0 <= i < context_groups(s).len() ==> #[trigger] context_groups(s)[i].1
                == sorted_by_priority(s.filter(with_context(context_groups(s)[i].0))),
        forall|i: int|
            0 <= i < context_groups(s).len() ==> (#[trigger] context_groups(s)[i]).1.len() > 0,
        forall|i: int|
            0 <= i < context_groups(s).len() ==> exists|k: int|
                0 <= k < s.len() && s[k].context == (#[trigger] context_groups(s)[i]).0,
        group_tasks(context_groups(s)).to_multiset() == s.to_multiset(),
    decreases s.len(),
{
    broadcast use vstd::seq_lib::group_to_multiset_ensures, vstd::multiset::group_multiset_axioms, vstd::seq_lib::lemma_multiset_commutative, vstd::seq_lib::group_filter_ensures, vstd::seq::Seq::lemma_filter_contains_rev;

    let g = context_groups(s);
    if s.len() == 0 {
        reveal_with_fuel(Seq::flatten, 1);
        assert(group_tasks(g) == Seq::<TaskView>::empty());
    } else {
        let c = min_context(s);
        let here = s.filter(with_context(c));
        let rest = s.filter(without_context(c));
        lemma_rest_by_context_shrinks(s);
        law_context_groups(rest);
        let gr = context_groups(rest);
        let e = (c, sorted_by_priority(here));
        assert(g == seq![e] + gr);
        lemma_min_context(s);
        let k0 = choose|k: int| 0 <= k < s.len() && s[k].context == c;
        lemma_sorted_by_priority_permutes(here);
        assert(here.contains(s[k0]));
        // every key of the rest names a context of the rest, other than c
        assert forall|i: int| 0 <= i < gr.len() implies lex_lt(c, #[trigger] gr[i].0) && exists|k: int|
            0 <= k < s.len() && s[k].context == gr[i].0 by {
            let k = choose|k: int| 0 <= k < rest.len() && rest[k].context == gr[i].0;
            assert(rest.contains(rest[k]));
            assert(s.contains(rest[k]));
            let ks = choose|ks: int| 0 <= ks < s.len() && s[ks] == rest[k];
            assert(!lex_lt(s[ks].context, c));
            lemma_lex_trichotomy(c, gr[i].0);
        }
        assert forall|i: int, j: int| 0 <= i < j < g.len() implies lex_lt(
            #[trigger] g[i].0,
            #[trigger] g[j].0,
        ) by {
            if i == 0 {
                assert(g[j] == gr[j - 1]);
            } else {
                assert(g[i] == gr[i - 1] && g[j] == gr[j - 1]);
            }
        }
        assert forall|i: int| 0 <= i < g.len() implies #[trigger] g[i].1 == sorted_by_priority(
            s.filter(with_context(g[i].0)),
        ) by {
            if i > 0 {
                assert(g[i] == gr[i - 1]);
                assert(lex_lt(c, gr[i - 1].0));
                lemma_lex_irreflexive(c);
                lemma_filter_filter(s, without_context(c), with_context(gr[i - 1].0), with_context(gr[i - 1].0));
            }
        }
        assert forall|i: int| 0 <= i < g.len() implies (#[trigger] g[i]).1.len() > 0 by {
            if i > 0 {
                assert(g[i] == gr[i - 1]);
            } else {
                assert(here.to_multiset().count(s[k0]) > 0);
            }
        }
        assert forall|i: int| 0 <= i < g.len() implies exists|k: int|
            0 <= k < s.len() && s[k].context == (#[trigger] g[i]).0 by {
            if i > 0 {
                assert(g[i] == gr[i - 1]);
            }
        }
        lemma_group_tasks_cons(e, gr);
        lemma_split_multiset(s, with_context(c), without_context(c));
    }
}

pub(crate) proof fn lemma_group_tasks_push(g: Seq<(Seq<char>, Seq<TaskView>)>, e: (Seq<char>, Seq<TaskView>))
    ensures
        group_tasks(g.push(e)) == group_tasks(g) + e.1,
{
    let f = |e: (Seq<char>, Seq<TaskView>)| e.1;
    assert(g.push(e).map_values(f) == g.map_values(f).push(e.1));
    g.map_values(f).lemma_flatten_push(e.1);
}

/// Leaving out the empty groups leaves the listed tasks as they were.
pub proof fn lemma_group_tasks_nonempty(g: Seq<(Seq<char>, Seq<TaskView>)>)
    ensures
        group_tasks(nonempty_groups(g)) == group_tasks(g),
    decreases g.len(),
{
    reveal(Seq::filter);
    if g.len() == 0 {
    } else {
        let d = g.drop_last();
        let e = g.last();
        assert(g == d.push(e));
        lemma_group_tasks_nonempty(d);
        d.lemma_filter_push(e, holds_tasks());
        lemma_group_tasks_push(d, e);
        if e.1.len() > 0 {
            lemma_group_tasks_push(nonempty_groups(d), e);
        } else {
            assert(group_tasks(d) + e.1 == group_tasks(d));
        }
    }
}

/// Grouping by priority lists every task exactly once, most pressing group
/// first, and leaves out priorities that no task has.
pub proof fn law_priority_groups(s: Seq<TaskView>)
    ensures
        group_tasks(priority_groups(s)) == sorted_by_priority(s),
        group_tasks(priority_groups(s)).to_multiset() == s.to_multiset(),
        forall|i: int| 0 <= i < priority_groups(s).len() ==> (#[trigger] priority_groups(s)[i]).1.len() > 0,
{
    broadcast use vstd::seq_lib::group_filter_ensures;

    let a = (priority_label(Priority::Urgent), s.filter(with_priority(Priority::Urgent)));
    let b = (priority_label(Priority::High), s.filter(with_priority(Priority::High)));
    let c = (priority_label(Priority::Normal), s.filter(with_priority(Priority::Normal)));
    let d = (priority_label(Priority::Low), s.filter(with_priority(Priority::Low)));
    let e = (priority_label(Priority::DontForget), s.filter(with_priority(Priority::DontForget)));
    let all = seq![a, b, c, d, e];
    lemma_group_tasks_nonempty(all);
    reveal_with_fuel(Seq::flatten, 1);
    assert(seq![e] == seq![e] + Seq::<(Seq<char>, Seq<TaskView>)>::empty());
    lemma_group_tasks_cons(e, Seq::empty());
    assert(group_tasks(Seq::<(Seq<char>, Seq<TaskView>)>::empty()) == Seq::<TaskView>::empty());
    assert(seq![d, e] == seq![d] + seq![e]);
    lemma_group_tasks_cons(d, seq![e]);
    assert(seq![c, d, e] == seq![c] + seq![d, e]);
    lemma_group_tasks_cons(c, seq![d, e]);
    assert(seq![b, c, d, e] == seq![b] + seq![c, d, e]);
    lemma_group_tasks_cons(b, seq![c, d, e]);
    assert(all == seq![a] + seq![b, c, d, e]);
    lemma_group_tasks_cons(a, seq![b, c, d, e]);
    assert(group_tasks(all) == sorted_by_priority(s));
    lemma_sorted_by_priority_permutes(s);
}

/// Grouping by status lists every task exactly once, open tasks first, and
/// leaves out a status that no task has.
pub proof fn law_status_groups(s: Seq<TaskView>)
    ensures
        group_tasks(status_groups(s)).to_multiset() == s.to_multiset(),
        forall|i: int| 0 <= i < status_groups(s).len() ==> (#[trigger] status_groups(s)[i]).1.len() > 0,
{
    broadcast use vstd::seq_lib::group_filter_ensures, vstd::seq_lib::lemma_multiset_commutative;

    let open = s.filter(with_status(Status::Open));
    let closed = s.filter(with_status(Status::Closed));
    let a = (status_label(Status::Open), sorted_by_priority(open));
    let b = (status_label(Status::Closed), sorted_by_priority(closed));
    let all = seq![a, b];
    lemma_group_tasks_nonempty(all);
    reveal_with_fuel(Seq::flatten, 1);
    assert(seq![b] == seq![b] + Seq::<(Seq<char>, Seq<TaskView>)>::empty());
    lemma_group_tasks_cons(b, Seq::empty());
    assert(group_tasks(Seq::<(Seq<char>, Seq<TaskView>)>::empty()) == Seq::<TaskView>::empty());
    assert(all == seq![a] + seq![b]);
    lemma_group_tasks_cons(a, seq![b]);
    assert(group_tasks(all) == sorted_by_priority(open) + sorted_by_priority(closed));
    lemma_sorted_by_priority_permutes(open);
    lemma_sorted_by_priority_permutes(closed);
    lemma_split_multiset(s, with_status(Status::Open), with_status(Status::Closed));
}

/// Keeping only some entries of a sequence keeps a property that every entry
/// has, and a relation that holds from every entry to every later one.
proof fn lemma_filter_keeps<A>(
    g: Seq<A>,
    p: spec_fn(A) -> bool,
    u: spec_fn(A) -> bool,
    r: spec_fn(A, A) -> bool,
)
    requires
        forall|i: int| 0 <= i < g.len() ==> #[trigger] u(g[i]),
        forall|i: int, j: int| 0 <= i < j < g.len() ==> #[trigger] r(g[i], g[j]),
    ensures
        forall|i: int| 0 <= i < g.filter(p).len() ==> #[trigger] u(g.filter(p)[i]),
        forall|i: int, j: int|
            0 <= i < j < g.filter(p).len() ==> #[trigger] r(g.filter(p)[i], g.filter(p)[j]),
        forall|i: int|
            #![trigger g.filter(p)[i]]
            0 <= i < g.filter(p).len() ==> exists|k: int| 0 <= k < g.len() && g.filter(p)[i] == #[trigger] g[k],
    decreases g.len(),
{
    if g.len() == 0 {
        reveal(Seq::filter);
        assert(g.filter(p).len() == 0);
    } else {
        let d = g.drop_last();
        let e = g.last();
        let n = g.len() - 1;
        assert(g == d.push(e));
        assert forall|i: int| 0 <= i < d.len() implies #[trigger] u(d[i]) by {
            assert(d[i] == g[i]);
        }
        assert forall|i: int, j: int| 0 <= i < j < d.len() implies #[trigger] r(d[i], d[j]) by {
            assert(d[i] == g[i] && d[j] == g[j]);
        }
        lemma_filter_keeps(d, p, u, r);
        d.lemma_filter_push(e, p);
        let fd = d.filter(p);
        if p(e) {
            let fg = fd.push(e);
            assert(g.filter(p) == fg);
            assert(fg[fd.len() as int] == g[n]);
            assert forall|i: int| 0 <= i < fg.len() implies #[trigger] u(fg[i]) by {
                if i < fd.len() {
                    assert(fg[i] == fd[i]);
                }
            }
            assert forall|i: int| #![trigger fg[i]] 0 <= i < fg.len() implies exists|k: int|
                0 <= k < g.len() && fg[i] == #[trigger] g[k] by {
                if i < fd.len() {
                    let k = choose|k: int| 0 <= k < d.len() && fd[i] == #[trigger] d[k];
                    assert(fg[i] == g[k]);
                } else {
                    assert(fg[i] == g[n]);
                }
            }
            assert forall|i: int, j: int| 0 <= i < j < fg.len() implies #[trigger] r(fg[i], fg[j]) by {
                if j < fd.len() {
                    assert(fg[i] == fd[i] && fg[j] == fd[j]);
                } else {
                    let k = choose|k: int| 0 <= k < d.len() && fd[i] == #[trigger] d[k];
                    assert(fg[i] == g[k]);
                    assert(fg[j] == g[n]);
                    assert(r(g[k], g[n]));
                }
            }
        } else {
            assert(g.filter(p) == fd);
            assert forall|i: int| #![trigger fd[i]] 0 <= i < fd.len() implies exists|k: int|
                0 <= k < g.len() && fd[i] == #[trigger] g[k] by {
                let k = choose|k: int| 0 <= k < d.len() && fd[i] == #[trigger] d[k];
                assert(fd[i] == g[k]);
            }
        }
    }
}

/// A section of the priority grouping as it must be: headed by the icon of
/// the priority its tasks carry, holding exactly the tasks of `s` with that
/// priority, in the order they had.
pub open spec fn priority_section_of(s: Seq<TaskView>, e: (Seq<char>, Seq<TaskView>)) -> bool {
    &&& e.1.len() > 0
    &&& forall|k: int| 0 <= k < e.1.len() ==> e.0 == priority_label(#[trigger] e.1[k].priority)
    &&& e.1 == s.filter(with_priority(e.1[0].priority))
}

/// Every task of section `x` is more pressing than every task of the later
/// section `y`.
pub open spec fn more_pressing_section(x: (Seq<char>, Seq<TaskView>), y: (Seq<char>, Seq<TaskView>)) -> bool {
    forall|k: int, l: int|
        0 <= k < x.1.len() && 0 <= l < y.1.len() ==> priority_rank(#[trigger] x.1[k].priority) < priority_rank(
            #[trigger] y.1[l].priority,
        )
}

/// The priority grouping section by section: each section is headed by the
/// icon of the priority that its tasks carry and holds exactly the tasks of
/// that priority in the order they had, and every task of a section is more
/// pressing than every task of a later one.
pub proof fn law_priority_sections(s: Seq<TaskView>)
    ensures
        forall|i: int| 0 <= i < priority_groups(s).len() ==> priority_section_of(s, #[trigger] priority_groups(s)[i]),
        forall|i: int, j: int|
            0 <= i < j < priority_groups(s).len() ==> more_pressing_section(
                #[trigger] priority_groups(s)[i],
                #[trigger] priority_groups(s)[j],
            ),
{
    broadcast use vstd::seq_lib::group_filter_ensures;

    let ps = seq![Priority::Urgent, Priority::High, Priority::Normal, Priority::Low, Priority::DontForget];
    let all = seq![
        (priority_label(Priority::Urgent), s.filter(with_priority(Priority::Urgent))),
        (priority_label(Priority::High), s.filter(with_priority(Priority::High))),
        (priority_label(Priority::Normal), s.filter(with_priority(Priority::Normal))),
        (priority_label(Priority::Low), s.filter(with_priority(Priority::Low))),
        (priority_label(Priority::DontForget), s.filter(with_priority(Priority::DontForget))),
    ];
    assert forall|i: int| 0 <= i < 5 implies #[trigger] all[i] == (
        priority_label(ps[i]),
        s.filter(with_priority(ps[i])),
    ) && priority_rank(ps[i]) == i by {}
    let u = |e: (Seq<char>, Seq<TaskView>)| e.1.len() > 0 ==> priority_section_of(s, e);
    let r = |x: (Seq<char>, Seq<TaskView>), y: (Seq<char>, Seq<TaskView>)| more_pressing_section(x, y);
    assert forall|i: int| 0 <= i < all.len() implies #[trigger] u(all[i]) by {
        let f = s.filter(with_priority(ps[i]));
        assert forall|k: int| 0 <= k < f.len() implies #[trigger] f[k].priority == ps[i] by {
            assert(with_priority(ps[i])(f[k]));
        }
    }
    assert forall|i: int, j: int| 0 <= i < j < all.len() implies #[trigger] r(all[i], all[j]) by {
        let fi = s.filter(with_priority(ps[i]));
        let fj = s.filter(with_priority(ps[j]));
        assert forall|k: int, l: int| 0 <= k < fi.len() && 0 <= l < fj.len() implies priority_rank(
            #[trigger] fi[k].priority,
        ) < priority_rank(#[trigger] fj[l].priority) by {
            assert(with_priority(ps[i])(fi[k]));
            assert(with_priority(ps[j])(fj[l]));
        }
    }
    lemma_filter_keeps(all, holds_tasks(), u, r);
    assert(priority_groups(s) == all.filter(holds_tasks()));
    assert forall|i: int| 0 <= i < priority_groups(s).len() implies priority_section_of(
        s,
        #[trigger] priority_groups(s)[i],
    ) by {
        assert(u(priority_groups(s)[i]));
        assert(holds_tasks()(priority_groups(s)[i]));
    }
    assert forall|i: int, j: int| 0 <= i < j < priority_groups(s).len() implies more_pressing_section(
        #[trigger] priority_groups(s)[i],
        #[trigger] priority_groups(s)[j],
    ) by {
        assert(r(priority_groups(s)[i], priority_groups(s)[j]));
    }
}

/// Ordering by priority keeps a status that all the tasks share.
proof fn lemma_sorted_keeps_status(x: Seq<TaskView>, st: Status)
    requires
        forall|k: int| 0 <= k < x.len() ==> (#[trigger] x[k]).status == st,
    ensures
        forall|k: int| 0 <= k < sorted_by_priority(x).len() ==> (#[trigger] sorted_by_priority(x)[k]).status == st,
{
    broadcast use vstd::seq_lib::to_multiset_contains;

    lemma_sorted_by_priority_permutes(x);
    let y = sorted_by_priority(x);
    assert forall|k: int| 0 <= k < y.len() implies (#[trigger] y[k]).status == st by {
        assert(y.contains(y[k]));
        assert(y.to_multiset().count(y[k]) > 0);
        assert(x.to_multiset().count(y[k]) > 0);
        assert(x.contains(y[k]));
        let j = choose|j: int| 0 <= j < x.len() && x[j] == y[k];
        assert(x[j].status == st);
    }
}

/// A section of the status grouping as it must be: headed by the icon of the
/// status its tasks carry, holding the tasks of `s` with that status, ordered
/// by priority, most pressing first.
pub open spec fn status_section_of(s: Seq<TaskView>, e: (Seq<char>, Seq<TaskView>)) -> bool {
    &&& e.1.len() > 0
    &&& forall|k: int| 0 <= k < e.1.len() ==> e.0 == status_label(#[trigger] e.1[k].status)
    &&& forall|k: int, l: int|
        0 <= k < l < e.1.len() ==> priority_rank(#[trigger] e.1[k].priority) <= priority_rank(
            #[trigger] e.1[l].priority,
        )
    &&& e.1.to_multiset() == s.filter(with_status(e.1[0].status)).to_multiset()
}

/// Every task of section `x` comes before every task of the later section
/// `y` in status order (open before closed).
pub open spec fn earlier_status_section(x: (Seq<char>, Seq<TaskView>), y: (Seq<char>, Seq<TaskView>)) -> bool {
    forall|k: int, l: int|
        0 <= k < x.1.len() && 0 <= l < y.1.len() ==> status_rank(#[trigger] x.1[k].status) < status_rank(
            #[trigger] y.1[l].status,
        )
}

/// The status grouping section by section: each section is headed by the
/// icon of the status that its tasks carry, holds exactly the tasks of that
/// status, and lists them by priority, most pressing first; the open section
/// comes before the closed one.
pub proof fn law_status_sections(s: Seq<TaskView>)
    ensures
        forall|i: int| 0 <= i < status_groups(s).len() ==> status_section_of(s, #[trigger] status_groups(s)[i]),
        forall|i: int, j: int|
            0 <= i < j < status_groups(s).len() ==> earlier_status_section(
                #[trigger] status_groups(s)[i],
                #[trigger] status_groups(s)[j],
            ),
{
    broadcast use vstd::seq_lib::group_filter_ensures;

    let sts = seq![Status::Open, Status::Closed];
    let all = seq![
        (status_label(Status::Open), sorted_by_priority(s.filter(with_status(Status::Open)))),
        (status_label(Status::Closed), sorted_by_priority(s.filter(with_status(Status::Closed)))),
    ];
    assert forall|i: int| 0 <= i < 2 implies #[trigger] all[i] == (
        status_label(sts[i]),
        sorted_by_priority(s.filter(with_status(sts[i]))),
    ) && status_rank(sts[i]) == i by {}
    assert forall|i: int| 0 <= i < 2 implies forall|k: int|
        0 <= k < (#[trigger] all[i]).1.len() ==> (#[trigger] all[i].1[k]).status == sts[i] by {
        let f = s.filter(with_status(sts[i]));
        assert forall|k: int| 0 <= k < f.len() implies (#[trigger] f[k]).status == sts[i] by {
            assert(with_status(sts[i])(f[k]));
        }
        lemma_sorted_keeps_status(f, sts[i]);
    }
    let u = |e: (Seq<char>, Seq<TaskView>)| e.1.len() > 0 ==> status_section_of(s, e);
    let r = |x: (Seq<char>, Seq<TaskView>), y: (Seq<char>, Seq<TaskView>)| earlier_status_section(x, y);
    assert forall|i: int| 0 <= i < all.len() implies #[trigger] u(all[i]) by {
        let f = s.filter(with_status(sts[i]));
        law_sorted_by_priority(f);
        if all[i].1.len() > 0 {
            assert(all[i].1[0].status == sts[i]);
        }
    }
    assert forall|i: int, j: int| 0 <= i < j < all.len() implies #[trigger] r(all[i], all[j]) by {
        assert forall|k: int, l: int| 0 <= k < all[i].1.len() && 0 <= l < all[j].1.len() implies status_rank(
            #[trigger] all[i].1[k].status,
        ) < status_rank(#[trigger] all[j].1[l].status) by {
            assert(all[i].1[k].status == sts[i]);
            assert(all[j].1[l].status == sts[j]);
        }
    }
    lemma_filter_keeps(all, holds_tasks(), u, r);
    assert(status_groups(s) == all.filter(holds_tasks()));
    assert forall|i: int| 0 <= i < status_groups(s).len() implies status_section_of(
        s,
        #[trigger] status_groups(s)[i],
    ) by {
        assert(u(status_groups(s)[i]));
        assert(holds_tasks()(status_groups(s)[i]));
    }
    assert forall|i: int, j: int| 0 <= i < j < status_groups(s).len() implies earlier_status_section(
        #[trigger] status_groups(s)[i],
        #[trigger] status_groups(s)[j],
    ) by {
        assert(r(status_groups(s)[i], status_groups(s)[j]));
    }
}

/// Which tasks a filter keeps.
enum Pick {
    Stamp(i128),
    OtherStamp(i128),
    Priority(Priority),
    Status(Status),
}

spec fn pick_pred(p: Pick) -> spec_fn(TaskView) -> bool {
    match p {
        Pick::Stamp(t) => with_stamp(t),
        Pick::OtherStamp(t) => without_stamp(t),
        Pick::Priority(q) => with_priority(q),
        Pick::Status(st) => with_status(st),
    }
}

fn picks(t: &Task, p: &Pick) -> (b: bool)
    ensures
        b == pick_pred(*p)(t@),
{
    match p {
        Pick::Stamp(x) => t.updated_at == *x,
        Pick::OtherStamp(x) => t.updated_at != *x,
        Pick::Priority(q) => t.priority == *q,
        Pick::Status(st) => t.status == *st,
    }
}

/// A copy of the tasks.
pub fn copy_tasks(v: &Vec<Task>) -> (r: Vec<Task>)
    ensures
        r.deep_view() == v.deep_view(),
{
    let mut r: Vec<Task> = Vec::new();
    let mut i: usize = 0;
    while i < v.len()
        invariant
            i <= v.len(),
            r.deep_view() == v.deep_view().take(i as int),
        decreases v.len() - i,
    {
        let ghost before = r.deep_view();
        let t = v[i].clone();
        r.push(t);
        assert(r.deep_view() == before.push(v[i as int]@));
        assert(v.deep_view().take(i + 1) == v.deep_view().take(i as int).push(v[i as int]@));
        i = i + 1;
    }
    assert(v.deep_view().take(v.len() as int) == v.deep_view());
    r
}

fn filter_tasks(v: &Vec<Task>, p: Pick) -> (r: Vec<Task>)
    ensures
        r.deep_view() == v.deep_view().filter(pick_pred(p)),
{
    let ghost pred = pick_pred(p);
    let mut r: Vec<Task> = Vec::new();
    let mut i: usize = 0;
    while i < v.len()
        invariant
            i <= v.len(),
            pred == pick_pred(p),
            r.deep_view() == v.deep_view().take(i as int).filter(pred),
        decreases v.len() - i,
    {
        let ghost before = r.deep_view();
        let keep = picks(&v[i], &p);
        if keep {
            let t = v[i].clone();
            r.push(t);
            assert(r.deep_view() == before.push(v[i as int]@));
        } else {
            assert(r.deep_view() == before);
        }
        proof {
            assert(v.deep_view().take(i + 1) == v.deep_view().take(i as int).push(v[i as int]@));
            v.deep_view().take(i as int).lemma_filter_push(v[i as int]@, pred);
        }
        i = i + 1;
    }
    assert(v.deep_view().take(v.len() as int) == v.deep_view());
    r
}

fn filter_context(v: &Vec<Task>, c: &String, keep_equal: bool) -> (r: Vec<Task>)
    ensures
        r.deep_view() == v.deep_view().filter(
            if keep_equal {
                with_context(c@)
            } else {
                without_context(c@)
            },
        ),
{
    let ghost pred = if keep_equal {
        with_context(c@)
    } else {
        without_context(c@)
    };
    let mut r: Vec<Task> = Vec::new();
    let mut i: usize = 0;
    while i < v.len()
        invariant
            i <= v.len(),
            pred == (if keep_equal {
                with_context(c@)
            } else {
                without_context(c@)
            }),
            r.deep_view() == v.deep_view().take(i as int).filter(pred),
        decreases v.len() - i,
    {
        let ghost before = r.deep_view();
        let same = v[i].context == *c;
        if same == keep_equal {
            let t = v[i].clone();
            r.push(t);
            assert(r.deep_view() == before.push(v[i as int]@));
        } else {
            assert(r.deep_view() == before);
        }
        proof {
            assert(v.deep_view().take(i + 1) == v.deep_view().take(i as int).push(v[i as int]@));
            v.deep_view().take(i as int).lemma_filter_push(v[i as int]@, pred);
        }
        i = i + 1;
    }
    assert(v.deep_view().take(v.len() as int) == v.deep_view());
    r
}

fn max_stamp_of(v: &Vec<Task>) -> (m: i128)
    requires
        v.len() > 0,
    ensures
        m == max_stamp(v.deep_view()),
{
    let mut m = v[0].updated_at;
    let mut i: usize = 1;
    assert(v.deep_view().take(1).len() == 1);
    while i < v.len()
        invariant
            1 <= i <= v.len(),
            m == max_stamp(v.deep_view().take(i as int)),
        decreases v.len() - i,
    {
        assert(v.deep_view().take(i + 1).drop_last() == v.deep_view().take(i as int));
        if v[i].updated_at > m {
            m = v[i].updated_at;
        }
        i = i + 1;
    }
    assert(v.deep_view().take(v.len() as int) == v.deep_view());
    m
}

fn min_context_of(v: &Vec<Task>) -> (m: String)
    requires
        v.len() > 0,
    ensures
        m@ == min_context(v.deep_view()),
{
    let mut m = v[0].context.clone();
    let mut i: usize = 1;
    assert(v.deep_view().take(1).len() == 1);
    while i < v.len()
        invariant
            1 <= i <= v.len(),
            m@ == min_context(v.deep_view().take(i as int)),
        decreases v.len() - i,
    {
        assert(v.deep_view().take(i + 1).drop_last() == v.deep_view().take(i as int));
        if str_lt(v[i].context.as_str(), m.as_str()) {
            m = v[i].context.clone();
        }
        i = i + 1;
    }
    assert(v.deep_view().take(v.len() as int) == v.deep_view());
    m
}

/// The tasks ordered by priority, most pressing first, keeping the order of
/// tasks of equal priority.
pub fn sort_by_priority(v: &Vec<Task>) -> (r: Vec<Task>)
    ensures
        r.deep_view() == sorted_by_priority(v.deep_view()),
{
    let mut r = filter_tasks(v, Pick::Priority(Priority::Urgent));
    let mut g = filter_tasks(v, Pick::Priority(Priority::High));
    r.append(&mut g);
    let mut g = filter_tasks(v, Pick::Priority(Priority::Normal));
    r.append(&mut g);
    let mut g = filter_tasks(v, Pick::Priority(Priority::Low));
    r.append(&mut g);
    let mut g = filter_tasks(v, Pick::Priority(Priority::DontForget));
    r.append(&mut g);
    r
}

/// The tasks ordered by update stamp, most recent first, keeping the order
/// of tasks with equal stamps.
pub fn sort_by_update(v: &Vec<Task>) -> (r: Vec<Task>)
    ensures
        r.deep_view() == sorted_by_update(v.deep_view()),
{
    let mut out: Vec<Task> = Vec::new();
    let mut rest = copy_tasks(v);
    while rest.len() > 0
        invariant
            out.deep_view() + sorted_by_update(rest.deep_view()) == sorted_by_update(v.deep_view()),
        decreases rest.len(),
    {
        let m = max_stamp_of(&rest);
        let mut group = filter_tasks(&rest, Pick::Stamp(m));
        let next = filter_tasks(&rest, Pick::OtherStamp(m));
        proof {
            lemma_rest_by_stamp_shrinks(rest.deep_view());
            assert(sorted_by_update(rest.deep_view()) == group.deep_view() + sorted_by_update(next.deep_view()));
        }
        let ghost before = out.deep_view();
        let ghost gv = group.deep_view();
        out.append(&mut group);
        assert(out.deep_view() == before + gv);
        rest = next;
    }
    out
}

/// Appends the group when it holds a task.
fn push_group(out: &mut Vec<(String, Vec<Task>)>, label: String, group: Vec<Task>)
    ensures
        final(out).deep_view() == (if group.len() > 0 {
            old(out).deep_view().push((label@, group.deep_view()))
        } else {
            old(out).deep_view()
        }),
{
    let ghost before = out.deep_view();
    let ghost e = (label@, group.deep_view());
    if group.len() > 0 {
        out.push((label, group));
        assert(out.deep_view() == before.push(e));
    }
}

impl Store {
    /// The tasks, most recently updated first; tasks stamped at the same
    /// instant keep their order.
    pub fn tasks_by_most_recently_updated_at(&self) -> (r: Vec<Task>)
        ensures
            r.deep_view() == sorted_by_update(self@),
    {
        sort_by_update(self.tasks())
    }

    /// One group per context, in code-point order of the context, each
    /// group's tasks sorted by priority.
    pub fn tasks_by_context(&self) -> (r: Vec<(String, Vec<Task>)>)
        ensures
            r.deep_view() == context_groups(self@),
    {
        let mut out: Vec<(String, Vec<Task>)> = Vec::new();
        let mut rest = copy_tasks(self.tasks());
        while rest.len() > 0
            invariant
                out.deep_view() + context_groups(rest.deep_view()) == context_groups(self@),
            decreases rest.len(),
        {
            let c = min_context_of(&rest);
            let group = filter_context(&rest, &c, true);
            let next = filter_context(&rest, &c, false);
            let sorted = sort_by_priority(&group);
            proof {
                lemma_rest_by_context_shrinks(rest.deep_view());
                assert(context_groups(rest.deep_view()) == seq![(c@, sorted.deep_view())]
                    + context_groups(next.deep_view()));
            }
            let ghost before = out.deep_view();
            let ghost e = (c@, sorted.deep_view());
            out.push((c, sorted));
            assert(out.deep_view() == before.push(e));
            assert(before.push(e) + context_groups(next.deep_view()) == before + (seq![e]
                + context_groups(next.deep_view())));
            rest = next;
        }
        out
    }

    /// One group per priority that occurs, most pressing first, labelled with
    /// the priority's icon; each group keeps the order of the tasks.
    pub fn tasks_by_priority(&self) -> (r: Vec<(String, Vec<Task>)>)
        ensures
            r.deep_view() == priority_groups(self@),
    {
        let v = self.tasks();
        let mut out: Vec<(String, Vec<Task>)> = Vec::new();
        let ghost g0 = out.deep_view();
        push_group(&mut out, Priority::Urgent.label().to_owned(), filter_tasks(v, Pick::Priority(Priority::Urgent)));
        push_group(&mut out, Priority::High.label().to_owned(), filter_tasks(v, Pick::Priority(Priority::High)));
        push_group(&mut out, Priority::Normal.label().to_owned(), filter_tasks(v, Pick::Priority(Priority::Normal)));
        push_group(&mut out, Priority::Low.label().to_owned(), filter_tasks(v, Pick::Priority(Priority::Low)));
        push_group(&mut out, Priority::DontForget.label().to_owned(), filter_tasks(v, Pick::Priority(Priority::DontForget)));
        proof {
            let s = self@;
            let all = seq![
                (priority_label(Priority::Urgent), s.filter(with_priority(Priority::Urgent))),
                (priority_label(Priority::High), s.filter(with_priority(Priority::High))),
                (priority_label(Priority::Normal), s.filter(with_priority(Priority::Normal))),
                (priority_label(Priority::Low), s.filter(with_priority(Priority::Low))),
                (priority_label(Priority::DontForget), s.filter(with_priority(Priority::DontForget))),
            ];
            reveal_with_fuel(Seq::filter, 1);
            assert(nonempty_groups(all.take(0)) == g0);
            assert(all.take(1) == all.take(0).push(all[0]));
            assert(all.take(2) == all.take(1).push(all[1]));
            assert(all.take(3) == all.take(2).push(all[2]));
            assert(all.take(4) == all.take(3).push(all[3]));
            assert(all.take(5) == all.take(4).push(all[4]));
            all.take(0).lemma_filter_push(all[0], holds_tasks());
            all.take(1).lemma_filter_push(all[1], holds_tasks());
            all.take(2).lemma_filter_push(all[2], holds_tasks());
            all.take(3).lemma_filter_push(all[3], holds_tasks());
            all.take(4).lemma_filter_push(all[4], holds_tasks());
            assert(all.take(5) == all);
        }
        out
    }

    /// One group per status that occurs, open first, labelled with the
    /// status's icon; each group's tasks sorted by priority.
    pub fn tasks_by_status(&self) -> (r: Vec<(String, Vec<Task>)>)
        ensures
            r.deep_view() == status_groups(self@),
    {
        let v = self.tasks();
        let mut out: Vec<(String, Vec<Task>)> = Vec::new();
        let ghost g0 = out.deep_view();
        let open = filter_tasks(v, Pick::Status(Status::Open));
        let sorted_open = sort_by_priority(&open);
        proof {
            lemma_sorted_by_priority_permutes(open.deep_view());
        }
        push_group(&mut out, Status::Open.label().to_owned(), sorted_open);
        let closed = filter_tasks(v, Pick::Status(Status::Closed));
        let sorted_closed = sort_by_priority(&closed);
        proof {
            lemma_sorted_by_priority_permutes(closed.deep_view());
        }
        push_group(&mut out, Status::Closed.label().to_owned(), sorted_closed);
        proof {
            let s = self@;
            let all = seq![
                (status_label(Status::Open), sorted_by_priority(s.filter(with_status(Status::Open)))),
                (status_label(Status::Closed), sorted_by_priority(s.filter(with_status(Status::Closed)))),
            ];
            reveal_with_fuel(Seq::filter, 1);
            assert(nonempty_groups(all.take(0)) == g0);
            assert(all.take(1) == all.take(0).push(all[0]));
            assert(all.take(2) == all.take(1).push(all[1]));
            all.take(0).lemma_filter_push(all[0], holds_tasks());
            all.take(1).lemma_filter_push(all[1], holds_tasks());
            assert(all.take(2) == all);
        }
        out
    }
}


} // verus!

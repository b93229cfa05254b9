//! What holds of the ledger across operations: a lookup after an `add` or a
//! `set_status` finds what the operation left, a status change never makes a
//! schedulable ledger unschedulable or the reverse, and a schedulable ledger
//! never stalls while work is pending.
use vstd::prelude::*;

use super::{
    all_task_ids, dep_edge, deps_all_done, has_dangling_dep, has_dep_cycle, is_dep_path,
    is_first_with, is_last_with, is_ready, is_task_id, lemma_absent_not_found,
    lemma_distinct_ids_bounded, lemma_first_is_found, task_with_id, unschedulable, with_status,
    TaskStatus, TaskView,
};

verus! {

/// A task with id `id` exists exactly when there is a first one.
proof fn lemma_exists_first(tasks: Seq<TaskView>, id: Seq<char>) -> (i: int)
    requires
        is_task_id(tasks, id),
    ensures
        is_first_with(tasks, id, i),
    decreases tasks.len(),
{
    let prefix = tasks.drop_last();
    if is_task_id(prefix, id) {
        let i = lemma_exists_first(prefix, id);
        assert(tasks[i] == prefix[i]);
        assert forall|j: int| 0 <= j < i implies tasks[j].id != id by {
            assert(tasks[j] == prefix[j]);
        }
        i
    } else {
        let i = tasks.len() - 1;
        let w = choose|w: int| 0 <= w < tasks.len() && #[trigger] tasks[w].id == id;
        if w < i {
            assert(prefix[w] == tasks[w]);
        }
        assert forall|j: int| 0 <= j < i implies tasks[j].id != id by {
            assert(tasks[j] == prefix[j]);
        }
        i
    }
}

/// After `add(task)`, a lookup of `task`'s id finds it unless an earlier
/// task already had that id; lookups of other ids are unchanged.
pub proof fn law_get_after_add(tasks: Seq<TaskView>, task: TaskView, id: Seq<char>)
    ensures
        task_with_id(tasks.push(task), id) == if is_task_id(tasks, id) {
            task_with_id(tasks, id)
        } else if task.id == id {
            Some(task)
        } else {
            None::<TaskView>
        },
{
    let after = tasks.push(task);
    if is_task_id(tasks, id) {
        let i = lemma_exists_first(tasks, id);
        lemma_first_is_found(tasks, id, i);
        assert(is_first_with(after, id, i)) by {
            assert forall|j: int| 0 <= j < i implies after[j].id != id by {
                assert(after[j] == tasks[j]);
            }
        }
        lemma_first_is_found(after, id, i);
    } else if task.id == id {
        assert(is_first_with(after, id, tasks.len() as int)) by {
            assert forall|j: int| 0 <= j < tasks.len() implies after[j].id != id by {
                assert(after[j] == tasks[j]);
            }
        }
        lemma_first_is_found(after, id, tasks.len() as int);
    } else {
        assert(!is_task_id(after, id)) by {
            if is_task_id(after, id) {
                let w = choose|w: int| 0 <= w < after.len() && #[trigger] after[w].id == id;
                assert(after[w] == tasks[w]);
            }
        }
        lemma_absent_not_found(after, id);
    }
}

/// After `set_status(id, status)`, a lookup of `id` finds the same task with
/// the new status, and a lookup of any other id finds what it found before.
pub proof fn law_get_after_set_status(
    tasks: Seq<TaskView>,
    id: Seq<char>,
    status: TaskStatus,
    other: Seq<char>,
)
    ensures
        task_with_id(with_status(tasks, id, status), id) == match task_with_id(tasks, id) {
            Some(t) => Some(TaskView { status: status, ..t }),
            None => None,
        },
        other != id ==> task_with_id(with_status(tasks, id, status), other) == task_with_id(
            tasks,
            other,
        ),
{
    let after = with_status(tasks, id, status);
    if exists|i: int| is_first_with(tasks, id, i) {
        let i = choose|i: int| is_first_with(tasks, id, i);
        lemma_first_is_found(tasks, id, i);
        assert(is_first_with(after, id, i)) by {
            assert forall|j: int| 0 <= j < i implies after[j].id != id by {
                assert(after[j] == tasks[j]);
            }
        }
        lemma_first_is_found(after, id, i);
        if other != id {
            if is_task_id(tasks, other) {
                let k = lemma_exists_first(tasks, other);
                lemma_first_is_found(tasks, other, k);
                assert(after[k] == tasks[k]);
                assert(is_first_with(after, other, k)) by {
                    assert forall|j: int| 0 <= j < k implies after[j].id != other by {
                        assert(after[j].id == tasks[j].id);
                    }
                }
                lemma_first_is_found(after, other, k);
            } else {
                lemma_absent_not_found(tasks, other);
                assert(!is_task_id(after, other)) by {
                    if is_task_id(after, other) {
                        let w = choose|w: int| 0 <= w < after.len() && #[trigger] after[w].id == other;
                        assert(after[w].id == tasks[w].id);
                    }
                }
                lemma_absent_not_found(after, other);
            }
        }
    } else {
        if is_task_id(tasks, id) {
            let i = lemma_exists_first(tasks, id);
        }
        lemma_absent_not_found(tasks, id);
    }
}

/// Two ledgers whose tasks carry the same ids and dependencies, in the same
/// order, are alike in every respect scheduling looks at.
proof fn lemma_same_shape(a: Seq<TaskView>, b: Seq<TaskView>)
    requires
        a.len() == b.len(),
        forall|i: int|
            #![trigger a[i]]
            #![trigger b[i]]
            0 <= i < a.len() ==> a[i].id == b[i].id && a[i].deps == b[i].deps,
    ensures
        forall|x: Seq<char>| is_task_id(a, x) == is_task_id(b, x),
        forall|x: Seq<char>, y: Seq<char>| dep_edge(a, x, y) == dep_edge(b, x, y),
        has_dangling_dep(a) == has_dangling_dep(b),
        has_dep_cycle(a) == has_dep_cycle(b),
{
    assert forall|x: Seq<char>| is_task_id(a, x) == is_task_id(b, x) by {
        if is_task_id(a, x) {
            let w = choose|w: int| 0 <= w < a.len() && #[trigger] a[w].id == x;
            assert(b[w].id == x);
        }
        if is_task_id(b, x) {
            let w = choose|w: int| 0 <= w < b.len() && #[trigger] b[w].id == x;
            assert(a[w].id == b[w].id);
        }
    }
    assert forall|x: Seq<char>, y: Seq<char>| dep_edge(a, x, y) == dep_edge(b, x, y) by {
        if dep_edge(a, x, y) {
            let i = choose|i: int| is_last_with(a, x, i) && #[trigger] a[i].deps.contains(y);
            assert(a[i].id == b[i].id);
            assert forall|j: int| i < j < b.len() implies b[j].id != x by {
                assert(a[j].id == b[j].id);
            }
            assert(is_last_with(b, x, i));
        }
        if dep_edge(b, x, y) {
            let i = choose|i: int| is_last_with(b, x, i) && #[trigger] b[i].deps.contains(y);
            assert(a[i].id == b[i].id);
            assert forall|j: int| i < j < a.len() implies a[j].id != x by {
                assert(a[j].id == b[j].id);
            }
            assert(is_last_with(a, x, i));
        }
    }
    if has_dangling_dep(a) {
        let (i, k) = choose|i: int, k: int|
            0 <= i < a.len() && 0 <= k < a[i].deps.len() && !is_task_id(a, #[trigger] a[i].deps[k]);
        assert(a[i].deps == b[i].deps);
        assert(!is_task_id(b, b[i].deps[k]));
    }
    if has_dangling_dep(b) {
        let (i, k) = choose|i: int, k: int|
            0 <= i < b.len() && 0 <= k < b[i].deps.len() && !is_task_id(b, #[trigger] b[i].deps[k]);
        assert(a[i].deps == b[i].deps);
        assert(!is_task_id(a, a[i].deps[k]));
    }
    if has_dep_cycle(a) {
        let p = choose|p: Seq<Seq<char>>| p.len() >= 2 && p[0] == p[p.len() - 1] && #[trigger] is_dep_path(a, p);
        assert forall|k: int| 0 <= k < p.len() - 1 implies #[trigger] dep_edge(b, p[k], p[k + 1]) by {
            assert(dep_edge(a, p[k], p[k + 1]));
        }
        assert(is_dep_path(b, p));
    }
    if has_dep_cycle(b) {
        let p = choose|p: Seq<Seq<char>>| p.len() >= 2 && p[0] == p[p.len() - 1] && #[trigger] is_dep_path(b, p);
        assert forall|k: int| 0 <= k < p.len() - 1 implies #[trigger] dep_edge(a, p[k], p[k + 1]) by {
            assert(dep_edge(b, p[k], p[k + 1]));
        }
        assert(is_dep_path(a, p));
    }
}

/// Changing a task's status never changes whether the ledger can be
/// scheduled: `has_cycle` gives the same answer before and after.
pub proof fn law_status_change_keeps_schedulability(tasks: Seq<TaskView>, id: Seq<char>, status: TaskStatus)
    ensures
        unschedulable(with_status(tasks, id, status)) == unschedulable(tasks),
{
    let after = with_status(tasks, id, status);
    assert forall|i: int| 0 <= i < tasks.len() implies #[trigger] tasks[i].id == after[i].id
        && tasks[i].deps == after[i].deps by {}
    lemma_same_shape(tasks, after);
}

/// No two tasks share an id.
pub open spec fn unique_ids(tasks: Seq<TaskView>) -> bool {
    forall|a: int, b: int|
        0 <= a < b < tasks.len() ==> #[trigger] tasks[a].id != #[trigger] tasks[b].id
}

/// Every task is either waiting or finished: none is running, failed or
/// blocked.
pub open spec fn only_pending_or_done(tasks: Seq<TaskView>) -> bool {
    forall|i: int|
        0 <= i < tasks.len() ==> (#[trigger] tasks[i].status == TaskStatus::Pending
            || tasks[i].status == TaskStatus::Done)
}

/// Some pending task carries id `x`.
spec fn pending_id(tasks: Seq<TaskView>, x: Seq<char>) -> bool {
    exists|j: int| 0 <= j < tasks.len() && #[trigger] tasks[j].id == x && tasks[j].status == TaskStatus::Pending
}

/// The hypotheses under which a stall is refuted, with the stall itself: no
/// task is ready.
spec fn stalled(tasks: Seq<TaskView>) -> bool {
    &&& !unschedulable(tasks)
    &&& unique_ids(tasks)
    &&& only_pending_or_done(tasks)
    &&& forall|j: int| 0 <= j < tasks.len() ==> !is_ready(tasks, #[trigger] tasks[j])
}

/// In a stalled ledger every pending task waits on another pending task.
proof fn lemma_pending_waits_on_pending(tasks: Seq<TaskView>, x: Seq<char>) -> (y: Seq<char>)
    requires
        stalled(tasks),
        pending_id(tasks, x),
    ensures
        dep_edge(tasks, x, y),
        pending_id(tasks, y),
{
    let j = choose|j: int| 0 <= j < tasks.len() && #[trigger] tasks[j].id == x && tasks[j].status == TaskStatus::Pending;
    let t = tasks[j];
    assert(!is_ready(tasks, t));
    assert(!deps_all_done(tasks, t));
    let k = choose|k: int| 0 <= k < t.deps.len() && !(match #[trigger] task_with_id(tasks, t.deps[k]) {
        Some(d) => d.status == TaskStatus::Done,
        None => false,
    });
    let d = t.deps[k];
    assert(is_task_id(tasks, d));
    let m = lemma_exists_first(tasks, d);
    lemma_first_is_found(tasks, d, m);
    assert(tasks[m].status == TaskStatus::Pending);
    assert(is_last_with(tasks, x, j)) by {
        assert forall|l: int| j < l < tasks.len() implies tasks[l].id != x by {
            assert(tasks[j].id != tasks[l].id);
        }
    }
    assert(t.deps.contains(d)) by {
        assert(t.deps[k] == d);
    }
    assert(dep_edge(tasks, x, d));
    d
}

/// In a stalled ledger, a dependency walk through pending tasks can go on for
/// `n` steps from any pending task.
proof fn lemma_pending_walk(tasks: Seq<TaskView>, x: Seq<char>, n: nat) -> (p: Seq<Seq<char>>)
    requires
        stalled(tasks),
        pending_id(tasks, x),
    ensures
        p.len() == n + 1,
        p[0] == x,
        is_dep_path(tasks, p),
        forall|k: int| 0 <= k < p.len() ==> #[trigger] pending_id(tasks, p[k]),
    decreases n,
{
    if n == 0 {
        seq![x]
    } else {
        let y = lemma_pending_waits_on_pending(tasks, x);
        let rest = lemma_pending_walk(tasks, y, (n - 1) as nat);
        let p = seq![x] + rest;
        assert forall|k: int| 0 <= k < p.len() - 1 implies #[trigger] dep_edge(tasks, p[k], p[k + 1]) by {
            if k == 0 {
                assert(p[1] == rest[0]);
            } else {
                assert(p[k] == rest[k - 1]);
                assert(p[k + 1] == rest[k]);
                assert(dep_edge(tasks, rest[k - 1], rest[(k - 1) + 1]));
            }
        }
        assert forall|k: int| 0 <= k < p.len() implies #[trigger] pending_id(tasks, p[k]) by {
            if k > 0 {
                assert(p[k] == rest[k - 1]);
            }
        }
        p
    }
}

/// A schedulable ledger never stalls: when every id is used once and every
/// task is pending or done, some task is ready as long as one is pending, so
/// `ready` returns at least one task.
pub proof fn law_schedulable_ledger_never_stalls(tasks: Seq<TaskView>, i: int)
    requires
        !unschedulable(tasks),
        unique_ids(tasks),
        only_pending_or_done(tasks),
        0 <= i < tasks.len(),
        tasks[i].status == TaskStatus::Pending,
    ensures
        exists|j: int| 0 <= j < tasks.len() && is_ready(tasks, #[trigger] tasks[j]),
        tasks.filter(|t: TaskView| is_ready(tasks, t)).len() > 0,
{
    if !exists|j: int| 0 <= j < tasks.len() && is_ready(tasks, #[trigger] tasks[j]) {
        assert(stalled(tasks));
        let x = tasks[i].id;
        let p = lemma_pending_walk(tasks, x, tasks.len());
        assert(all_task_ids(tasks, p)) by {
            assert forall|k: int| 0 <= k < p.len() implies #[trigger] is_task_id(tasks, p[k]) by {
                assert(pending_id(tasks, p[k]));
                let j = choose|j: int| 0 <= j < tasks.len() && #[trigger] tasks[j].id == p[k] && tasks[j].status == TaskStatus::Pending;
                assert(tasks[j].id == p[k]);
            }
        }
        if p.no_duplicates() {
            lemma_distinct_ids_bounded(tasks, p);
        }
        let (a, b) = choose|a: int, b: int| 0 <= a < p.len() && 0 <= b < p.len() && a != b && p[a] == p[b];
        let (lo, hi) = if a < b { (a, b) } else { (b, a) };
        let c = p.subrange(lo, hi + 1);
        assert forall|k: int| 0 <= k < c.len() - 1 implies #[trigger] dep_edge(tasks, c[k], c[k + 1]) by {
            assert(c[k] == p[lo + k]);
            assert(c[k + 1] == p[lo + k + 1]);
            assert(dep_edge(tasks, p[lo + k], p[(lo + k) + 1]));
        }
        assert(c.len() >= 2 && c[0] == c[c.len() - 1] && is_dep_path(tasks, c));
        assert(has_dep_cycle(tasks));
        assert(false);
    }
    let j = choose|j: int| 0 <= j < tasks.len() && is_ready(tasks, #[trigger] tasks[j]);
    let pred = |t: TaskView| is_ready(tasks, t);
    tasks.filter_lemma(pred);
    assert(tasks.filter(pred).contains(tasks[j]));
}

/// What `ready` returns is exactly the pending tasks whose every dependency
/// names a task (found by id) whose status is `Done`: a dependency that is
/// running, failed, blocked, pending or missing keeps a task back.
pub proof fn law_ready_means_dependencies_done(tasks: Seq<TaskView>, t: TaskView)
    ensures
        tasks.filter(|x: TaskView| is_ready(tasks, x)).contains(t) <==> (tasks.contains(t) && t.status
            == TaskStatus::Pending && forall|k: int|
            0 <= k < t.deps.len() ==> (#[trigger] task_with_id(tasks, t.deps[k]) matches Some(d) && d.status
                == TaskStatus::Done)),
{
    let pred = |x: TaskView| is_ready(tasks, x);
    tasks.filter_lemma(pred);
    if tasks.filter(pred).contains(t) {
        tasks.lemma_filter_contains_rev(pred, t);
        let i = choose|i: int| 0 <= i < tasks.filter(pred).len() && tasks.filter(pred)[i] == t;
        assert(pred(tasks.filter(pred)[i]));
        assert forall|k: int| 0 <= k < t.deps.len() implies (#[trigger] task_with_id(tasks, t.deps[k]) matches Some(d)
            && d.status == TaskStatus::Done) by {
            assert(deps_all_done(tasks, t));
        }
    }
    if tasks.contains(t) && t.status == TaskStatus::Pending && forall|k: int|
        0 <= k < t.deps.len() ==> (#[trigger] task_with_id(tasks, t.deps[k]) matches Some(d) && d.status
            == TaskStatus::Done) {
        assert(deps_all_done(tasks, t));
        let i = choose|i: int| 0 <= i < tasks.len() && tasks[i] == t;
        assert(pred(tasks[i]));
    }
}

} // verus!

//! The task ledger: the orchestrator's structured shared state (the
//! "blackboard"). Holds the task DAG and statuses so no single agent context
//! has to carry the whole plan. Persisting it as JSON is left to the caller.
pub mod laws;

use vstd::prelude::*;

use crate::strings::{holds_string, str_eq, str_views, string_views};

verus! {

/// Where a task is in its lifecycle.
#[derive(Debug, Clone, Copy, PartialEq, Eq, Structural)]
pub enum TaskStatus {
    Pending,
    Running,
    Done,
    Failed,
    /// Ready by deps, but its region is leased by another actor.
    Blocked,
}

/// One unit of work.
#[derive(Debug, Clone)]
pub struct Task {
    pub id: String,
    pub intent: String,
    /// Task ids that must complete before this one.
    pub deps: Vec<String>,
    /// Target path globs the task is expected to touch (drives footprint/lease).
    pub targets: Vec<String>,
    pub status: TaskStatus,
}

/// A task as plain values.
pub struct TaskView {
    pub id: Seq<char>,
    pub intent: Seq<char>,
    pub deps: Seq<Seq<char>>,
    pub targets: Seq<Seq<char>>,
    pub status: TaskStatus,
}

impl View for Task {
    type V = TaskView;

    open spec fn view(&self) -> TaskView {
        TaskView {
            id: self.id@,
            intent: self.intent@,
            deps: string_views(self.deps@),
            targets: string_views(self.targets@),
            status: self.status,
        }
    }
}

/// The status of a task with no decision taken on it yet.
fn pending() -> (res: TaskStatus)
    ensures
        res == TaskStatus::Pending,
{
    TaskStatus::Pending
}

/// Owned copies of `items`, in order.
fn owned_strings(items: &[&str]) -> (res: Vec<String>)
    ensures
        string_views(res@) == str_views(items@),
{
    let mut res: Vec<String> = Vec::new();
    let mut i: usize = 0;
    while i < items.len()
        invariant
            i <= items@.len(),
            res@.len() == i,
            forall|k: int| 0 <= k < i ==> #[trigger] res@[k]@ == items@[k]@,
        decreases items@.len() - i,
    {
        let s = String::from_str(items[i]);
        res.push(s);
        i = i + 1;
    }
    assert(string_views(res@) =~= str_views(items@));
    res
}

impl Task {
    pub fn new(id: &str, intent: &str) -> (res: Task)
        ensures
            res@.id == id@,
            res@.intent == intent@,
            res@.deps == Seq::<Seq<char>>::empty(),
            res@.targets == Seq::<Seq<char>>::empty(),
            res@.status == TaskStatus::Pending,
    {
        let res = Task {
            id: String::from_str(id),
            intent: String::from_str(intent),
            deps: Vec::new(),
            targets: Vec::new(),
            status: pending(),
        };
        assert(res@.deps =~= Seq::<Seq<char>>::empty());
        assert(res@.targets =~= Seq::<Seq<char>>::empty());
        res
    }

    pub fn with_deps(self, deps: &[&str]) -> (res: Task)
        ensures
            res@.id == self@.id,
            res@.intent == self@.intent,
            res@.deps == str_views(deps@),
            res@.targets == self@.targets,
            res@.status == self@.status,
    {
        let mut task = self;
        task.deps = owned_strings(deps);
        task
    }

    pub fn with_targets(self, targets: &[&str]) -> (res: Task)
        ensures
            res@.id == self@.id,
            res@.intent == self@.intent,
            res@.deps == self@.deps,
            res@.targets == str_views(targets@),
            res@.status == self@.status,
    {
        let mut task = self;
        task.targets = owned_strings(targets);
        task
    }
}

/// The DAG of tasks.
#[derive(Debug, Clone)]
pub struct Ledger {
    pub tasks: Vec<Task>,
}

impl View for Ledger {
    type V = Seq<TaskView>;

    open spec fn view(&self) -> Seq<TaskView> {
        self.tasks@.map_values(|t: Task| t@)
    }
}

/// `i` is the first position of a task with id `id`.
pub open spec fn is_first_with(tasks: Seq<TaskView>, id: Seq<char>, i: int) -> bool {
    &&& 0 <= i < tasks.len()
    &&& tasks[i].id == id
    &&& forall|j: int| 0 <= j < i ==> tasks[j].id != id
}

/// `i` is the last position of a task with id `id`.
pub open spec fn is_last_with(tasks: Seq<TaskView>, id: Seq<char>, i: int) -> bool {
    &&& 0 <= i < tasks.len()
    &&& tasks[i].id == id
    &&& forall|j: int| i < j < tasks.len() ==> tasks[j].id != id
}

/// Some task has id `id`.
pub open spec fn is_task_id(tasks: Seq<TaskView>, id: Seq<char>) -> bool {
    exists|i: int| 0 <= i < tasks.len() && #[trigger] tasks[i].id == id
}

/// The task that a lookup by id finds: the first one with that id.
pub open spec fn task_with_id(tasks: Seq<TaskView>, id: Seq<char>) -> Option<TaskView> {
    if exists|i: int| is_first_with(tasks, id, i) {
        Some(tasks[choose|i: int| is_first_with(tasks, id, i)])
    } else {
        None
    }
}

/// The ledger after the first task with id `id` takes `status`; unchanged
/// when no task has that id.
pub open spec fn with_status(tasks: Seq<TaskView>, id: Seq<char>, status: TaskStatus) -> Seq<TaskView> {
    if exists|i: int| is_first_with(tasks, id, i) {
        let i = choose|i: int| is_first_with(tasks, id, i);
        tasks.update(i, TaskView { status: status, ..tasks[i] })
    } else {
        tasks
    }
}

/// Some task depends on an id that no task has.
pub open spec fn has_dangling_dep(tasks: Seq<TaskView>) -> bool {
    exists|i: int, k: int|
        0 <= i < tasks.len() && 0 <= k < tasks[i].deps.len() && !is_task_id(
            tasks,
            #[trigger] tasks[i].deps[k],
        )
}

/// `b` is a dependency of `a` in the dependency graph, where the deps of an
/// id are those of the last task carrying it.
pub open spec fn dep_edge(tasks: Seq<TaskView>, a: Seq<char>, b: Seq<char>) -> bool {
    exists|i: int| is_last_with(tasks, a, i) && #[trigger] tasks[i].deps.contains(b)
}

/// Consecutive ids of `p` are joined by dependency edges.
pub open spec fn is_dep_path(tasks: Seq<TaskView>, p: Seq<Seq<char>>) -> bool {
    forall|k: int| 0 <= k < p.len() - 1 ==> #[trigger] dep_edge(tasks, p[k], p[k + 1])
}

/// The dependency graph has a cycle: a path of at least one edge that returns
/// to its start.
pub open spec fn has_dep_cycle(tasks: Seq<TaskView>) -> bool {
    exists|p: Seq<Seq<char>>| p.len() >= 2 && p[0] == p[p.len() - 1] && #[trigger] is_dep_path(tasks, p)
}

/// The ledger cannot be scheduled: a dependency cycle or a dangling dependency.
pub open spec fn unschedulable(tasks: Seq<TaskView>) -> bool {
    has_dangling_dep(tasks) || has_dep_cycle(tasks)
}

/// Every dependency of `t` names a task (as found by id) that is done.
pub open spec fn deps_all_done(tasks: Seq<TaskView>, t: TaskView) -> bool {
    forall|k: int| 0 <= k < t.deps.len() ==> match #[trigger] task_with_id(tasks, t.deps[k]) {
        Some(d) => d.status == TaskStatus::Done,
        None => false,
    }
}

/// `t` is eligible to run: pending, with all its dependencies done.
pub open spec fn is_ready(tasks: Seq<TaskView>, t: TaskView) -> bool {
    t.status == TaskStatus::Pending && deps_all_done(tasks, t)
}

/// Every id finished in `done` has all its dependencies finished earlier.
pub open spec fn finished_in_order(tasks: Seq<TaskView>, done: Seq<Seq<char>>) -> bool {
    forall|i: int, b: Seq<char>|
        0 <= i < done.len() && #[trigger] dep_edge(tasks, done[i], b) ==> #[trigger] done.take(
            i,
        ).contains(b)
}

/// Every element of `s` is a task id.
pub open spec fn all_task_ids(tasks: Seq<TaskView>, s: Seq<Seq<char>>) -> bool {
    forall|k: int| 0 <= k < s.len() ==> #[trigger] is_task_id(tasks, s[k])
}

proof fn lemma_edge_target_is_id(tasks: Seq<TaskView>, a: Seq<char>, b: Seq<char>)
    requires
        !has_dangling_dep(tasks),
        dep_edge(tasks, a, b),
    ensures
        is_task_id(tasks, b),
{
    let i = choose|i: int| is_last_with(tasks, a, i) && #[trigger] tasks[i].deps.contains(b);
    let k = choose|k: int| 0 <= k < tasks[i].deps.len() && tasks[i].deps[k] == b;
    assert(is_task_id(tasks, tasks[i].deps[k]));
}

/// Along a dependency path whose ids are all finished in order, each id was
/// finished strictly before the one preceding it.
proof fn lemma_path_descends(tasks: Seq<TaskView>, done: Seq<Seq<char>>, p: Seq<Seq<char>>, k: int)
    requires
        finished_in_order(tasks, done),
        done.no_duplicates(),
        is_dep_path(tasks, p),
        0 <= k < p.len(),
        forall|j: int| 0 <= j < p.len() ==> #[trigger] done.contains(p[j]),
    ensures
        done.index_of(p[k]) <= done.index_of(p[0]) - k,
    decreases k,
{
    if k > 0 {
        lemma_path_descends(tasks, done, p, k - 1);
        assert(done.contains(p[k - 1]));
        assert(done.contains(p[k]));
        let i = done.index_of(p[k - 1]);
        assert(done[i] == p[k - 1]);
        let m = k - 1;
        assert(dep_edge(tasks, p[m], p[m + 1]));
        assert(dep_edge(tasks, p[k - 1], p[k]));
        assert(dep_edge(tasks, done[i], p[k]));
        assert(done.take(i).contains(p[k]));
        let j = choose|j: int| 0 <= j < done.take(i).len() && done.take(i)[j] == p[k];
        assert(done[j] == p[k]);
        assert(done[done.index_of(p[k])] == p[k]);
        assert(done.index_of(p[k]) == j);
    }
}

/// When every task id is finished in dependency order, there is no cycle.
proof fn lemma_finished_means_acyclic(tasks: Seq<TaskView>, done: Seq<Seq<char>>)
    requires
        !has_dangling_dep(tasks),
        finished_in_order(tasks, done),
        done.no_duplicates(),
        forall|x: Seq<char>| is_task_id(tasks, x) ==> #[trigger] done.contains(x),
    ensures
        !has_dep_cycle(tasks),
{
    if has_dep_cycle(tasks) {
        let p = choose|p: Seq<Seq<char>>| p.len() >= 2 && p[0] == p[p.len() - 1] && #[trigger] is_dep_path(tasks, p);
        assert forall|j: int| 0 <= j < p.len() implies #[trigger] done.contains(p[j]) by {
            if j == 0 {
                let m = p.len() - 2;
                assert(dep_edge(tasks, p[m], p[m + 1]));
                lemma_edge_target_is_id(tasks, p[m], p[m + 1]);
            } else {
                let m = j - 1;
                assert(dep_edge(tasks, p[m], p[m + 1]));
                lemma_edge_target_is_id(tasks, p[m], p[m + 1]);
            }
        }
        lemma_path_descends(tasks, done, p, p.len() - 1);
    }
}

/// Position of the last task with id `id`, if any.
fn last_position(tasks: &Vec<Task>, id: &str) -> (res: Option<usize>)
    ensures
        match res {
            Some(i) => is_last_with(tasks@.map_values(|t: Task| t@), id@, i as int),
            None => !is_task_id(tasks@.map_values(|t: Task| t@), id@),
        },
{
    let ghost tv = tasks@.map_values(|t: Task| t@);
    let mut i: usize = tasks.len();
    while i > 0
        invariant
            i <= tasks@.len(),
            tv == tasks@.map_values(|t: Task| t@),
            forall|j: int| i <= j < tasks@.len() ==> #[trigger] tv[j].id != id@,
        decreases i,
    {
        i = i - 1;
        if str_eq(tasks[i].id.as_str(), id) {
            return Some(i);
        }
    }
    None
}

/// Position of the first task with id `id`, if any.
fn first_position(tasks: &Vec<Task>, id: &str) -> (res: Option<usize>)
    ensures
        match res {
            Some(i) => is_first_with(tasks@.map_values(|t: Task| t@), id@, i as int),
            None => !is_task_id(tasks@.map_values(|t: Task| t@), id@),
        },
{
    let ghost tv = tasks@.map_values(|t: Task| t@);
    let mut i: usize = 0;
    while i < tasks.len()
        invariant
            i <= tasks@.len(),
            tv == tasks@.map_values(|t: Task| t@),
            forall|j: int| 0 <= j < i ==> #[trigger] tv[j].id != id@,
        decreases tasks@.len() - i,
    {
        if str_eq(tasks[i].id.as_str(), id) {
            return Some(i);
        }
        i = i + 1;
    }
    None
}

pub(crate) proof fn lemma_first_is_found(tasks: Seq<TaskView>, id: Seq<char>, i: int)
    requires
        is_first_with(tasks, id, i),
    ensures
        (choose|j: int| is_first_with(tasks, id, j)) == i,
        task_with_id(tasks, id) == Some(tasks[i]),
{
    let j = choose|j: int| is_first_with(tasks, id, j);
    assert(j == i) by {
        if j < i {
        } else if i < j {
        }
    }
}

pub(crate) proof fn lemma_absent_not_found(tasks: Seq<TaskView>, id: Seq<char>)
    requires
        !is_task_id(tasks, id),
    ensures
        task_with_id(tasks, id) is None,
{
    if exists|i: int| is_first_with(tasks, id, i) {
        let i = choose|i: int| is_first_with(tasks, id, i);
        assert(tasks[i].id == id);
    }
}

pub(crate) proof fn lemma_distinct_ids_bounded(tasks: Seq<TaskView>, s: Seq<Seq<char>>)
    requires
        s.no_duplicates(),
        all_task_ids(tasks, s),
    ensures
        s.len() <= tasks.len(),
{
    let ids = tasks.map_values(|t: TaskView| t.id);
    assert(s.to_set().subset_of(ids.to_set())) by {
        assert forall|x: Seq<char>| s.to_set().contains(x) implies ids.to_set().contains(x) by {
            let k = choose|k: int| 0 <= k < s.len() && s[k] == x;
            assert(is_task_id(tasks, s[k]));
            let i = choose|i: int| 0 <= i < tasks.len() && #[trigger] tasks[i].id == s[k];
            assert(ids[i] == x);
        }
    }
    broadcast use vstd::seq_lib::seq_to_set_is_finite;
    s.unique_seq_to_set();
    ids.lemma_cardinality_of_set();
    vstd::set_lib::lemma_len_subset(s.to_set(), ids.to_set());
}

/// Depth-first search from `id` for a dependency cycle. `visiting` is the
/// current path (grey), `done` the finished ids (black), in finishing order.
fn visit_cycle(
    tasks: &Vec<Task>,
    id: &String,
    visiting: &mut Vec<String>,
    done: &mut Vec<String>,
) -> (res: bool)
    requires
        !has_dangling_dep(tasks@.map_values(|t: Task| t@)),
        is_task_id(tasks@.map_values(|t: Task| t@), id@),
        string_views(old(visiting)@).no_duplicates(),
        all_task_ids(tasks@.map_values(|t: Task| t@), string_views(old(visiting)@)),
        is_dep_path(tasks@.map_values(|t: Task| t@), string_views(old(visiting)@)),
        old(visiting)@.len() > 0 ==> dep_edge(
            tasks@.map_values(|t: Task| t@),
            string_views(old(visiting)@).last(),
            id@,
        ),
        string_views(old(done)@).no_duplicates(),
        all_task_ids(tasks@.map_values(|t: Task| t@), string_views(old(done)@)),
        string_views(old(visiting)@).disjoint(string_views(old(done)@)),
        finished_in_order(tasks@.map_values(|t: Task| t@), string_views(old(done)@)),
    ensures
        res ==> has_dep_cycle(tasks@.map_values(|t: Task| t@)),
        !res ==> {
            &&& final(visiting)@ == old(visiting)@
            &&& string_views(old(done)@).is_prefix_of(string_views(final(done)@))
            &&& string_views(final(done)@).contains(id@)
            &&& string_views(final(done)@).no_duplicates()
            &&& all_task_ids(tasks@.map_values(|t: Task| t@), string_views(final(done)@))
            &&& string_views(old(visiting)@).disjoint(string_views(final(done)@))
            &&& finished_in_order(tasks@.map_values(|t: Task| t@), string_views(final(done)@))
        },
    decreases tasks@.len() - old(visiting)@.len(),
{
    let ghost tv = tasks@.map_values(|t: Task| t@);
    let ghost vis = string_views(visiting@);
    let ghost dn = string_views(done@);
    if holds_string(done, id.as_str()) {
        assert(dn.is_prefix_of(dn));
        return false;
    }
    if holds_string(visiting, id.as_str()) {
        proof {
            let j = choose|j: int| 0 <= j < vis.len() && vis[j] == id@;
            let p = vis.skip(j).push(id@);
            assert(p[0] == p[p.len() - 1]);
            assert forall|k: int| 0 <= k < p.len() - 1 implies #[trigger] dep_edge(tv, p[k], p[k + 1]) by {
                if k < p.len() - 2 {
                    assert(dep_edge(tv, vis[j + k], vis[j + k + 1]));
                } else {
                    assert(p[k] == vis.last());
                }
            }
            assert(is_dep_path(tv, p));
        }
        return true;
    }
    proof {
        lemma_distinct_ids_bounded(tv, vis.push(id@));
    }
    let ghost old_visiting = visiting@;
    visiting.push(id.clone());
    let ghost pushed = visiting@;
    assert(pushed =~= old_visiting.push(pushed.last()));
    assert(string_views(visiting@) =~= vis.push(id@));
    let pos = last_position(tasks, id.as_str());
    let idx = match pos {
        Some(i) => i,
        None => { return false; },
    };
    let deps = &tasks[idx].deps;
    let mut k: usize = 0;
    while k < deps.len()
        invariant
            tv == tasks@.map_values(|t: Task| t@),
            !has_dangling_dep(tv),
            is_last_with(tv, id@, idx as int),
            tv[idx as int].deps == string_views(deps@),
            string_views(visiting@) == vis.push(id@),
            visiting@ == pushed,
            vis.push(id@).no_duplicates(),
            all_task_ids(tv, vis.push(id@)),
            is_dep_path(tv, vis.push(id@)),
            visiting@.len() == vis.len() + 1,
            visiting@.len() == old(visiting)@.len() + 1,
            visiting@.len() <= tasks@.len(),
            k <= deps@.len(),
            dn.is_prefix_of(string_views(done@)),
            string_views(done@).no_duplicates(),
            all_task_ids(tv, string_views(done@)),
            vis.push(id@).disjoint(string_views(done@)),
            finished_in_order(tv, string_views(done@)),
            forall|m: int| 0 <= m < k ==> #[trigger] string_views(done@).contains(string_views(deps@)[m]),
        decreases deps@.len() - k,
    {
        proof {
            assert(string_views(deps@)[k as int] == deps@[k as int]@);
            assert(tv[idx as int].deps.contains(deps@[k as int]@));
            assert(dep_edge(tv, id@, deps@[k as int]@));
            lemma_edge_target_is_id(tv, id@, deps@[k as int]@);
            assert(string_views(visiting@).last() == id@);
        }
        let ghost before = string_views(done@);
        if visit_cycle(tasks, &deps[k], visiting, done) {
            return true;
        }
        proof {
            assert forall|m: int| 0 <= m < k + 1 implies #[trigger] string_views(done@).contains(
                string_views(deps@)[m],
            ) by {
                if m < k {
                    assert(before.contains(string_views(deps@)[m]));
                    let w = choose|w: int| 0 <= w < before.len() && before[w] == string_views(deps@)[m];
                    assert(string_views(done@)[w] == before[w]);
                }
            }
        }
        k = k + 1;
    }
    let ghost before = string_views(done@);
    let ghost vv = visiting@;
    visiting.pop();
    assert forall|w: int| 0 <= w < vis.len() implies #[trigger] string_views(visiting@)[w] == vis[w] by {
        assert(string_views(vv)[w] == vis.push(id@)[w]);
    }
    assert(string_views(visiting@) =~= vis);
    assert(visiting@ =~= old_visiting);
    done.push(id.clone());
    proof {
        let nd = string_views(done@);
        assert(nd =~= before.push(id@));
        assert(!before.contains(id@)) by {
            if before.contains(id@) {
                let w = choose|w: int| 0 <= w < before.len() && before[w] == id@;
                assert(vis.push(id@)[vis.len() as int] == id@);
                assert(vis.push(id@)[vis.len() as int] != before[w]);
            }
        }
        assert(dn.is_prefix_of(nd)) by {
            assert forall|w: int| 0 <= w < dn.len() implies dn[w] == nd[w] by {
                assert(dn[w] == before[w]);
            }
        }
        assert(nd[nd.len() - 1] == id@);
        assert(nd.no_duplicates()) by {
            assert forall|a: int, b: int| 0 <= a < b < nd.len() implies nd[a] != nd[b] by {
                if b == nd.len() - 1 {
                    assert(before[a] == nd[a]);
                } else {
                    assert(before[a] == nd[a] && before[b] == nd[b]);
                }
            }
        }
        assert(all_task_ids(tv, nd)) by {
            assert forall|w: int| 0 <= w < nd.len() implies #[trigger] is_task_id(tv, nd[w]) by {
                if w < before.len() {
                    assert(nd[w] == before[w]);
                    assert(is_task_id(tv, before[w]));
                }
            }
        }
        assert(vis.disjoint(nd)) by {
            assert forall|a: int, b: int| 0 <= a < vis.len() && 0 <= b < nd.len() implies vis[a] != nd[b] by {
                assert(vis.push(id@)[a] == vis[a]);
                if b < before.len() {
                    assert(nd[b] == before[b]);
                }
            }
        }
        assert(finished_in_order(tv, nd)) by {
            assert forall|i: int, b: Seq<char>| 0 <= i < nd.len() && #[trigger] dep_edge(tv, nd[i], b) implies #[trigger] nd.take(i).contains(b) by {
                if i < before.len() {
                    assert(nd[i] == before[i]);
                    assert(dep_edge(tv, before[i], b));
                    assert(before.take(i).contains(b));
                    assert(nd.take(i) =~= before.take(i));
                } else {
                    assert(nd[i] == id@);
                    let t = choose|t: int| is_last_with(tv, id@, t) && #[trigger] tv[t].deps.contains(b);
                    assert(t == idx as int) by {
                        if t < idx as int {
                        } else if t > idx as int {
                        }
                    }
                    let m = choose|m: int| 0 <= m < tv[t].deps.len() && tv[t].deps[m] == b;
                    assert(string_views(deps@)[m] == b);
                    assert(before.contains(b));
                    assert(nd.take(i) =~= before);
                }
            }
        }
    }
    false
}

impl Ledger {
    pub fn new() -> (res: Ledger)
        ensures
            res@ == Seq::<TaskView>::empty(),
    {
        let res = Ledger { tasks: Vec::new() };
        assert(res@ =~= Seq::<TaskView>::empty());
        res
    }

    pub fn add(&mut self, task: Task)
        ensures
            final(self)@ == old(self)@.push(task@),
    {
        self.tasks.push(task);
        assert(self@ =~= old(self)@.push(task@));
    }

    /// The first task with id `id`.
    pub fn get(&self, id: &str) -> (res: Option<&Task>)
        ensures
            match res {
                Some(t) => task_with_id(self@, id@) == Some(t@),
                None => task_with_id(self@, id@) is None,
            },
    {
        match first_position(&self.tasks, id) {
            Some(i) => {
                proof {
                    lemma_first_is_found(self@, id@, i as int);
                }
                Some(&self.tasks[i])
            },
            None => {
                proof {
                    lemma_absent_not_found(self@, id@);
                }
                None
            },
        }
    }

    /// Sets the status of the first task with id `id`; no effect when there
    /// is none.
    pub fn set_status(&mut self, id: &str, status: TaskStatus)
        ensures
            final(self)@ == with_status(old(self)@, id@, status),
    {
        match first_position(&self.tasks, id) {
            Some(i) => {
                proof {
                    lemma_first_is_found(old(self)@, id@, i as int);
                }
                self.tasks[i].status = status;
                assert(self@ =~= old(self)@.update(
                    i as int,
                    TaskView { status: status, ..old(self)@[i as int] },
                ));
            },
            None => {
                proof {
                    if exists|i: int| is_first_with(old(self)@, id@, i) {
                        let i = choose|i: int| is_first_with(old(self)@, id@, i);
                        assert(old(self)@[i].id == id@);
                    }
                }
            },
        }
    }

    /// True if the dependency graph contains a cycle (or a dangling dep).
    pub fn has_cycle(&self) -> (res: bool)
        ensures
            res == unschedulable(self@),
    {
        let ghost tv = self@;
        // A dep on a non-existent task is malformed; treat as unschedulable.
        let mut i: usize = 0;
        while i < self.tasks.len()
            invariant
                tv == self.tasks@.map_values(|t: Task| t@),
                i <= self.tasks@.len(),
                forall|a: int, k: int|
                    0 <= a < i && 0 <= k < tv[a].deps.len() ==> is_task_id(tv, #[trigger] tv[a].deps[k]),
            decreases self.tasks@.len() - i,
        {
            let deps = &self.tasks[i].deps;
            let mut k: usize = 0;
            while k < deps.len()
                invariant
                    tv == self.tasks@.map_values(|t: Task| t@),
                    i < self.tasks@.len(),
                    tv[i as int].deps == string_views(deps@),
                    k <= deps@.len(),
                    forall|a: int, m: int|
                        0 <= a < i && 0 <= m < tv[a].deps.len() ==> is_task_id(tv, #[trigger] tv[a].deps[m]),
                    forall|m: int| 0 <= m < k ==> is_task_id(tv, #[trigger] tv[i as int].deps[m]),
                decreases deps@.len() - k,
            {
                assert(tv[i as int].deps[k as int] == deps@[k as int]@);
                if last_position(&self.tasks, deps[k].as_str()).is_none() {
                    assert(has_dangling_dep(tv));
                    return true;
                }
                k = k + 1;
            }
            i = i + 1;
        }
        assert(!has_dangling_dep(tv));
        let mut visiting: Vec<String> = Vec::new();
        let mut done: Vec<String> = Vec::new();
        assert(string_views(visiting@) =~= Seq::<Seq<char>>::empty());
        assert(string_views(done@) =~= Seq::<Seq<char>>::empty());
        let mut j: usize = 0;
        while j < self.tasks.len()
            invariant
                tv == self.tasks@.map_values(|t: Task| t@),
                !has_dangling_dep(tv),
                j <= self.tasks@.len(),
                visiting@.len() == 0,
                string_views(done@).no_duplicates(),
                all_task_ids(tv, string_views(done@)),
                finished_in_order(tv, string_views(done@)),
                forall|a: int| 0 <= a < j ==> #[trigger] string_views(done@).contains(tv[a].id),
            decreases self.tasks@.len() - j,
        {
            let ghost before = string_views(done@);
            assert(is_task_id(tv, tv[j as int].id));
            assert(string_views(visiting@) =~= Seq::<Seq<char>>::empty());
            if visit_cycle(&self.tasks, &self.tasks[j].id, &mut visiting, &mut done) {
                return true;
            }
            proof {
                assert forall|a: int| 0 <= a < j + 1 implies #[trigger] string_views(done@).contains(tv[a].id) by {
                    if a < j {
                        assert(before.contains(tv[a].id));
                        let w = choose|w: int| 0 <= w < before.len() && before[w] == tv[a].id;
                        assert(string_views(done@)[w] == before[w]);
                    }
                }
            }
            j = j + 1;
        }
        proof {
            assert forall|x: Seq<char>| is_task_id(tv, x) implies #[trigger] string_views(done@).contains(x) by {
                let a = choose|a: int| 0 <= a < tv.len() && #[trigger] tv[a].id == x;
                assert(string_views(done@).contains(tv[a].id));
            }
            lemma_finished_means_acyclic(tv, string_views(done@));
        }
        false
    }

    /// Tasks that are `Pending` and whose deps are all `Done` — eligible to run.
    pub fn ready(&self) -> (res: Vec<&Task>)
        ensures
            res@.map_values(|t: &Task| t@) == self@.filter(|t: TaskView| is_ready(self@, t)),
    {
        let ghost tv = self@;
        let mut res: Vec<&Task> = Vec::new();
        let mut i: usize = 0;
        while i < self.tasks.len()
            invariant
                tv == self.tasks@.map_values(|t: Task| t@),
                i <= self.tasks@.len(),
                res@.map_values(|t: &Task| t@) == tv.take(i as int).filter(
                    |t: TaskView| is_ready(tv, t),
                ),
            decreases self.tasks@.len() - i,
        {
            let task = &self.tasks[i];
            let ok = task.status == TaskStatus::Pending && self.deps_done(task);
            let ghost prev = res@;
            proof {
                assert(tv.take(i + 1) =~= tv.take(i as int).push(task@));
                tv.take(i as int).lemma_filter_push(task@, |t: TaskView| is_ready(tv, t));
            }
            if ok {
                res.push(task);
                assert(res@.map_values(|t: &Task| t@) =~= prev.map_values(|t: &Task| t@).push(task@));
            }
            i = i + 1;
        }
        assert(tv.take(self.tasks@.len() as int) =~= tv);
        res
    }

    fn deps_done(&self, task: &Task) -> (res: bool)
        ensures
            res == deps_all_done(self@, task@),
    {
        let mut k: usize = 0;
        while k < task.deps.len()
            invariant
                k <= task.deps@.len(),
                forall|m: int| 0 <= m < k ==> match #[trigger] task_with_id(self@, task@.deps[m]) {
                    Some(d) => d.status == TaskStatus::Done,
                    None => false,
                },
            decreases task.deps@.len() - k,
        {
            assert(task@.deps[k as int] == task.deps@[k as int]@);
            match self.get(task.deps[k].as_str()) {
                Some(d) => {
                    if d.status != TaskStatus::Done {
                        return false;
                    }
                },
                None => {
                    return false;
                },
            }
            k = k + 1;
        }
        true
    }
}

} // verus!

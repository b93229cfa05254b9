use agent_doctor::ledger::{Ledger, Task, TaskStatus};

#[test]
fn ready_respects_deps() {
    let mut ledger = Ledger::new();
    ledger.add(Task::new("a", "first"));
    ledger.add(Task::new("b", "second").with_deps(&["a"]));
    // only `a` is ready initially.
    assert_eq!(
        ledger.ready().iter().map(|t| t.id.as_str()).collect::<Vec<_>>(),
        vec!["a"]
    );
    ledger.set_status("a", TaskStatus::Done);
    assert_eq!(
        ledger.ready().iter().map(|t| t.id.as_str()).collect::<Vec<_>>(),
        vec!["b"]
    );
}

#[test]
fn detects_cycles_and_dangling_deps() {
    let mut cyclic = Ledger::new();
    cyclic.add(Task::new("a", "x").with_deps(&["b"]));
    cyclic.add(Task::new("b", "y").with_deps(&["a"]));
    assert!(cyclic.has_cycle());

    let mut acyclic = Ledger::new();
    acyclic.add(Task::new("a", "x"));
    acyclic.add(Task::new("b", "y").with_deps(&["a"]));
    assert!(!acyclic.has_cycle());

    let mut dangling = Ledger::new();
    dangling.add(Task::new("a", "x").with_deps(&["ghost"]));
    assert!(dangling.has_cycle());
}

#[test]
fn self_dependency_is_a_cycle() {
    let mut ledger = Ledger::new();
    ledger.add(Task::new("a", "x").with_deps(&["a"]));
    assert!(ledger.has_cycle());
}

#[test]
fn long_cycle_behind_an_acyclic_prefix_is_found() {
    let mut ledger = Ledger::new();
    ledger.add(Task::new("root", "r"));
    ledger.add(Task::new("a", "x").with_deps(&["root", "c"]));
    ledger.add(Task::new("b", "y").with_deps(&["a"]));
    ledger.add(Task::new("c", "z").with_deps(&["b"]));
    assert!(ledger.has_cycle());
}

#[test]
fn diamond_is_not_a_cycle() {
    let mut ledger = Ledger::new();
    ledger.add(Task::new("a", "x"));
    ledger.add(Task::new("b", "y").with_deps(&["a"]));
    ledger.add(Task::new("c", "z").with_deps(&["a"]));
    ledger.add(Task::new("d", "w").with_deps(&["b", "c"]));
    assert!(!ledger.has_cycle());
    assert_eq!(
        ledger.ready().iter().map(|t| t.id.as_str()).collect::<Vec<_>>(),
        vec!["a"]
    );
}

#[test]
fn get_and_set_status_use_the_first_task_with_an_id() {
    let mut ledger = Ledger::new();
    ledger.add(Task::new("a", "first"));
    ledger.add(Task::new("a", "second"));
    assert_eq!(ledger.get("a").unwrap().intent, "first");
    ledger.set_status("a", TaskStatus::Running);
    assert_eq!(ledger.tasks[0].status, TaskStatus::Running);
    assert_eq!(ledger.tasks[1].status, TaskStatus::Pending);
    assert!(ledger.get("missing").is_none());
    ledger.set_status("missing", TaskStatus::Done);
    assert_eq!(ledger.tasks.len(), 2);
}

#[test]
fn only_pending_tasks_are_ready() {
    let mut ledger = Ledger::new();
    ledger.add(Task::new("a", "x"));
    ledger.add(Task::new("b", "y"));
    ledger.set_status("b", TaskStatus::Failed);
    assert_eq!(
        ledger.ready().iter().map(|t| t.id.as_str()).collect::<Vec<_>>(),
        vec!["a"]
    );
}

#[test]
fn builders_set_deps_and_targets() {
    let task = Task::new("a", "do a").with_deps(&["x", "y"]).with_targets(&["src/a/**"]);
    assert_eq!(task.deps, vec!["x".to_string(), "y".to_string()]);
    assert_eq!(task.targets, vec!["src/a/**".to_string()]);
    assert_eq!(task.status, TaskStatus::Pending);
}

#[test]
fn added_task_is_found_by_id() {
    let mut ledger = Ledger::new();
    ledger.add(Task::new("a", "first").with_targets(&["src/a/**"]));
    let found = ledger.get("a").expect("added task");
    assert_eq!(found.intent, "first");
    assert_eq!(found.targets, vec!["src/a/**".to_string()]);
    assert_eq!(found.status, TaskStatus::Pending);
    assert!(ledger.get("b").is_none());
}

#[test]
fn status_change_is_seen_by_get_and_keeps_schedulability() {
    let mut ledger = Ledger::new();
    ledger.add(Task::new("a", "x").with_deps(&["b"]));
    ledger.add(Task::new("b", "y").with_deps(&["a"]));
    assert!(ledger.has_cycle());
    ledger.set_status("a", TaskStatus::Done);
    assert_eq!(ledger.get("a").unwrap().status, TaskStatus::Done);
    assert_eq!(ledger.get("b").unwrap().status, TaskStatus::Pending);
    assert!(ledger.has_cycle());
}

#[test]
fn schedulable_ledger_runs_to_completion() {
    let mut ledger = Ledger::new();
    ledger.add(Task::new("d", "w").with_deps(&["b", "c"]));
    ledger.add(Task::new("c", "z").with_deps(&["a"]));
    ledger.add(Task::new("b", "y").with_deps(&["a"]));
    ledger.add(Task::new("a", "x"));
    assert!(!ledger.has_cycle());
    let mut order: Vec<String> = Vec::new();
    while ledger.tasks.iter().any(|t| t.status == TaskStatus::Pending) {
        let next: Vec<String> = ledger.ready().iter().map(|t| t.id.clone()).collect();
        assert!(!next.is_empty(), "a schedulable ledger never stalls");
        for id in next {
            ledger.set_status(&id, TaskStatus::Done);
            order.push(id);
        }
    }
    assert_eq!(order, vec!["a", "c", "b", "d"]);
}

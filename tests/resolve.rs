use decaff::config::{ActionSuite, Actions};
use decaff::executor::schedule;
use decaff::graph::{resolve, Step};

fn suite(name: &str, requires: &[&str], actions: usize) -> ActionSuite {
    let mut list = Vec::new();
    for _ in 0..actions {
        list.push(decaff::config::ActionSingle::Unknown(decaff::actions::Unknown { name: "x".to_string() }));
    }
    ActionSuite {
        name: name.to_string(),
        actions: list,
        requirements: requires.iter().map(|s| s.to_string()).collect(),
    }
}

fn names(suites: &[ActionSuite], order: &[usize]) -> Vec<String> {
    order.iter().map(|i| suites[*i].name.clone()).collect()
}

#[test]
fn requirement_runs_first() {
    let suites = vec![suite("a", &["b"], 1), suite("b", &[], 1)];
    let r = resolve(&suites);
    assert_eq!(names(&suites, &r.order), vec!["b", "a"]);
    assert!(r.unresolved.is_empty());
    assert!(r.blocked.is_empty());
}

#[test]
fn sole_suite_with_missing_requirement() {
    let suites = vec![suite("a", &["missing"], 1)];
    let r = resolve(&suites);
    assert_eq!(r.unresolved, vec!["missing".to_string()]);
    assert_eq!(names(&suites, &r.order), vec!["a"]);
}

#[test]
fn acyclic_chain_orders_every_suite_once() {
    let suites = vec![suite("c", &["b"], 0), suite("a", &[], 0), suite("b", &["a"], 0), suite("d", &[], 0)];
    let r = resolve(&suites);
    assert_eq!(names(&suites, &r.order), vec!["d", "a", "b", "c"]);
    assert!(r.blocked.is_empty());
}

#[test]
fn missing_name_reported_once() {
    let suites = vec![suite("a", &["x", "x"], 0), suite("b", &["x", "y"], 0)];
    let r = resolve(&suites);
    let mut u = r.unresolved.clone();
    u.sort();
    assert_eq!(u, vec!["x".to_string(), "y".to_string()]);
}

#[test]
fn cycle_is_blocked() {
    let suites = vec![suite("a", &["a"], 0), suite("b", &[], 0), suite("c", &["a"], 0)];
    let r = resolve(&suites);
    assert_eq!(names(&suites, &r.order), vec!["b"]);
    assert_eq!(r.blocked, vec![0, 2]);
}

#[test]
fn schedule_lists_actions_suite_by_suite() {
    let suites = vec![suite("a", &["b"], 2), suite("b", &[], 1)];
    let s = schedule(&suites);
    assert_eq!(s.steps, vec![(1, 0), (0, 0), (0, 1)]);
    let _ = Actions::Empty;
}

#[test]
fn step_accessors() {
    let r = Step::Resolved(3);
    let u = Step::Unresolved("x".to_string());
    assert!(r.is_resolved());
    assert!(!u.is_resolved());
    assert_eq!(r.as_resolved(), Some(3));
    assert_eq!(u.as_resolved(), None);
    assert_eq!(u.as_unresolved(), Some(&"x".to_string()));
    assert_eq!(r.as_unresolved(), None);
}

#[test]
fn drain_steps_list_unresolved_first() {
    let suites = vec![suite("a", &["zz"], 0), suite("b", &["a"], 0)];
    let steps = resolve(&suites).steps();
    assert_eq!(steps.len(), 3);
    assert_eq!(steps[0].as_unresolved(), Some(&"zz".to_string()));
    assert_eq!(steps[1].as_resolved(), Some(0));
    assert_eq!(steps[2].as_resolved(), Some(1));
}

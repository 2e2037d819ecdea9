use turbo::info::{resolve_dep_names, AurInfo};
use turbo::resolve::{Resolver, ResolveError};

fn rec(name: &str, deps: &[&str]) -> AurInfo {
    AurInfo {
        name: name.to_string(),
        pkgbase: name.to_string(),
        version: "1-1".to_string(),
        depends: if deps.is_empty() { None } else { Some(deps.iter().map(|s| s.to_string()).collect()) },
        makedepends: None,
        checkdepends: None,
    }
}

fn names(v: &[&str]) -> Vec<String> {
    v.iter().map(|s| s.to_string()).collect()
}

/// Runs a resolution against a fixed dataset.
fn run(roots: &[&str], data: &[AurInfo]) -> (Result<Vec<String>, ResolveError>, Vec<Vec<String>>) {
    let mut r = Resolver::new(&names(roots));
    let mut batches = vec![];
    while let Some(batch) = r.next_batch() {
        let found: Vec<AurInfo> = data.iter().filter(|i| batch.contains(&i.name)).cloned().collect();
        batches.push(batch);
        r.absorb(&found);
    }
    (r.finish(), batches)
}

#[test]
fn chain_resolves_dependencies_first() {
    let data = vec![rec("A", &["B"]), rec("B", &["C>=2"]), rec("C", &[])];
    let (order, batches) = run(&["A"], &data);
    assert_eq!(order.unwrap(), names(&["C", "B", "A"]));
    assert_eq!(batches, vec![names(&["A"]), names(&["B"]), names(&["C"])]);
}

#[test]
fn cycle_is_reported() {
    let data = vec![rec("A", &["B"]), rec("B", &["A"])];
    let (order, _) = run(&["A"], &data);
    match order {
        Err(ResolveError::Cycle(n)) => assert!(n == "A" || n == "B"),
        _ => panic!("a cycle must be reported"),
    }
}

#[test]
fn self_dependency_is_a_cycle() {
    let data = vec![rec("A", &["A"])];
    let (order, _) = run(&["A"], &data);
    assert!(matches!(order, Err(ResolveError::Cycle(_))));
}

#[test]
fn unresolvable_dependency_is_dropped() {
    let data = vec![rec("A", &["glibc", "B"]), rec("B", &[])];
    let (order, batches) = run(&["A"], &data);
    assert_eq!(order.unwrap(), names(&["B", "A"]));
    assert_eq!(batches[1], names(&["glibc", "B"]));
}

#[test]
fn resolution_is_repeatable() {
    let data = vec![rec("A", &["B", "C"]), rec("B", &["D"]), rec("C", &["D"]), rec("D", &[]), rec("E", &["D"])];
    let first = run(&["A", "E"], &data).0.unwrap();
    let second = run(&["A", "E"], &data).0.unwrap();
    assert_eq!(first, second);
    let pos = |n: &str| first.iter().position(|x| x == n).unwrap();
    assert!(pos("D") < pos("B") && pos("D") < pos("C") && pos("D") < pos("E"));
    assert!(pos("B") < pos("A") && pos("C") < pos("A"));
    assert_eq!(first.len(), 5);
}

#[test]
fn visited_names_are_not_fetched_again() {
    let data = vec![rec("A", &["B"]), rec("B", &["A"])];
    let (_, batches) = run(&["A", "A"], &data);
    assert_eq!(batches, vec![names(&["A", "A"]), names(&["B"])]);
}

#[test]
fn empty_roots_give_empty_order() {
    let (order, batches) = run(&[], &[]);
    assert_eq!(order.unwrap(), Vec::<String>::new());
    assert!(batches.is_empty());
}

#[test]
fn batches_hold_at_most_one_hundred_names() {
    let roots: Vec<String> = (0..250).map(|i| format!("p{}", i)).collect();
    let mut r = Resolver::new(&roots);
    let mut sizes = vec![];
    while let Some(b) = r.next_batch() {
        sizes.push(b.len());
        r.absorb(&vec![]);
    }
    assert_eq!(sizes, vec![100, 100, 50]);
}

#[test]
fn absorbing_twice_changes_nothing() {
    let mut r = Resolver::new(&names(&["A"]));
    let batch = r.next_batch().unwrap();
    assert_eq!(batch, names(&["A"]));
    let found = vec![rec("A", &["B"])];
    r.absorb(&found);
    r.absorb(&found);
    assert_eq!(r.next_batch(), Some(names(&["B"])));
    assert_eq!(r.next_batch(), None);
    assert_eq!(r.finish().unwrap(), names(&["A"]));
}

#[test]
fn dependency_names_are_stripped_in_order() {
    let mut i = rec("A", &["b>=1", "c"]);
    i.makedepends = Some(names(&["m<2"]));
    i.checkdepends = Some(names(&["t=3"]));
    assert_eq!(resolve_dep_names(&i), names(&["b", "c", "m", "t"]));
    assert_eq!(resolve_dep_names(&rec("x", &[])), Vec::<String>::new());
}

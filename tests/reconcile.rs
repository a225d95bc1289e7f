use letterboxd_sync::ids::IdSet;
use letterboxd_sync::reconcile::diff;
use letterboxd_sync::sync::plan_sync;

fn set(ids: &[&str]) -> IdSet {
    IdSet::from_vec(ids.iter().map(|s| s.to_string()).collect())
}

fn sorted(ids: &IdSet) -> Vec<String> {
    let mut v = ids.to_vec();
    v.sort();
    v
}

#[test]
fn diff_splits_into_additions_and_removals() {
    let d = diff(&set(&["a", "b", "c"]), &set(&["b", "c", "d", "e"]));
    assert_eq!(sorted(&d.to_add), vec!["a"]);
    assert_eq!(sorted(&d.to_remove), vec!["d", "e"]);
    assert!(!d.is_empty());
}

#[test]
fn diff_of_equal_sets_is_empty() {
    let d = diff(&set(&["x", "y"]), &set(&["y", "x"]));
    assert!(d.to_add.to_vec().is_empty());
    assert!(d.to_remove.to_vec().is_empty());
    assert!(d.is_empty());
}

#[test]
fn diff_of_empty_sets_is_empty() {
    let d = diff(&set(&[]), &set(&[]));
    assert!(d.is_empty());
}

#[test]
fn diff_against_empty_remote_adds_everything() {
    let d = diff(&set(&["a", "b"]), &set(&[]));
    assert_eq!(sorted(&d.to_add), vec!["a", "b"]);
    assert!(d.to_remove.to_vec().is_empty());
}

#[test]
fn second_reconciliation_finds_nothing_to_do() {
    let local = set(&["A", "B", "C"]);
    let remote = set(&["B", "C", "D"]);
    let first = diff(&local, &remote);
    let mut after: Vec<String> = remote
        .to_vec()
        .into_iter()
        .filter(|id| !first.to_remove.contains(id))
        .collect();
    after.extend(first.to_add.to_vec());
    let second = diff(&local, &IdSet::from_vec(after));
    assert!(second.is_empty());
}

#[test]
fn end_to_end_plan_updates_with_exact_delta() {
    let plan = plan_sync(&set(&["A", "B", "C"]), &set(&["B", "C", "D"]), false);
    assert_eq!(sorted(&plan.delta.to_add), vec!["A"]);
    assert_eq!(sorted(&plan.delta.to_remove), vec!["D"]);
    assert!(plan.update);
    assert!(plan.save_cache);
}

#[test]
fn end_to_end_dry_run_sends_no_update() {
    let plan = plan_sync(&set(&["A", "B", "C"]), &set(&["B", "C", "D"]), true);
    assert_eq!(sorted(&plan.delta.to_add), vec!["A"]);
    assert_eq!(sorted(&plan.delta.to_remove), vec!["D"]);
    assert!(!plan.update);
    assert!(!plan.save_cache);
}

#[test]
fn plan_with_matching_lists_sends_no_update() {
    let plan = plan_sync(&set(&["A", "B"]), &set(&["B", "A"]), false);
    assert!(plan.delta.is_empty());
    assert!(!plan.update);
    assert!(plan.save_cache);
}

#[test]
fn id_set_keeps_each_id_once() {
    let s = set(&["a", "b", "a", "b", "c"]);
    assert_eq!(s.len(), 3);
    assert!(s.contains(&"c".to_string()));
    assert!(!s.contains(&"d".to_string()));
}

use letterboxd_sync::cache::Cache;
use letterboxd_sync::sync::local_ids;

#[test]
fn local_ids_collapse_repeated_ids() {
    let mut c = Cache::new();
    c.insert("a.mkv".to_string(), "X".to_string());
    c.insert("a.cd2.mkv".to_string(), "X".to_string());
    c.insert("b.mkv".to_string(), "Y".to_string());
    let ids = local_ids(&c);
    let mut v = ids.to_vec();
    v.sort();
    assert_eq!(v, vec!["X".to_string(), "Y".to_string()]);
}

#[test]
fn no_resolved_names_give_no_ids() {
    assert_eq!(local_ids(&Cache::new()).len(), 0);
}

use py0::env::{ArityError, PyEnv};

#[test]
fn get_after_set() {
    let mut e: PyEnv<i64> = PyEnv::new(None);
    e.set("x", 1);
    assert_eq!(e.env_get("x"), Some(&1));
    e.env_set("x", 2);
    assert_eq!(e.env_get("x"), Some(&2));
    assert_eq!(e.items.len(), 1);
    assert_eq!(e.env_get("y"), None);
}

#[test]
fn set_keeps_other_names() {
    let mut e: PyEnv<i64> = PyEnv::env_new(None);
    e.set("a", 1);
    e.set("b", 2);
    e.set("a", 3);
    assert_eq!(e.env_get("a"), Some(&3));
    assert_eq!(e.env_get("b"), Some(&2));
}

#[test]
fn lookup_falls_back_to_parent() {
    let mut g: PyEnv<i64> = PyEnv::new(None);
    g.set("x", 10);
    let mut local = PyEnv::new(Some(g));
    assert_eq!(local.env_get("x"), Some(&10));
    local.set("x", 20);
    assert_eq!(local.env_get("x"), Some(&20));
    assert_eq!(local.parent.as_ref().unwrap().env_get("x"), Some(&10));
}

#[test]
fn assign_updates_the_defining_frame() {
    let mut g: PyEnv<i64> = PyEnv::new(None);
    g.set("count", 0);
    let mut local = PyEnv::new(Some(g));
    local.env_assign("count", 5);
    assert!(local.items.is_empty());
    assert_eq!(local.env_get("count"), Some(&5));
    assert_eq!(local.parent.as_ref().unwrap().env_get("count"), Some(&5));
}

#[test]
fn assign_binds_locally_when_unbound() {
    let g: PyEnv<i64> = PyEnv::new(None);
    let mut local = PyEnv::new(Some(g));
    local.env_assign("fresh", 7);
    assert_eq!(local.items.len(), 1);
    assert_eq!(local.parent.as_ref().unwrap().env_get("fresh"), None);
    assert_eq!(local.env_get("fresh"), Some(&7));
}

#[test]
fn assign_prefers_the_innermost_binding() {
    let mut g: PyEnv<i64> = PyEnv::new(None);
    g.set("v", 1);
    let mut mid = PyEnv::new(Some(g));
    mid.set("v", 2);
    let mut inner = PyEnv::new(Some(mid));
    inner.env_assign("v", 3);
    let mid = inner.parent.as_ref().unwrap();
    assert_eq!(mid.env_get("v"), Some(&3));
    assert_eq!(mid.parent.as_ref().unwrap().env_get("v"), Some(&1));
}

#[test]
fn bind_params_binds_in_order() {
    let mut g: PyEnv<i64> = PyEnv::new(None);
    g.set("z", 9);
    let params = vec!["a".to_string(), "b".to_string()];
    let e = PyEnv::bind_params(g, &params, vec![1, 2]).unwrap();
    assert_eq!(e.env_get("a"), Some(&1));
    assert_eq!(e.env_get("b"), Some(&2));
    assert_eq!(e.env_get("z"), Some(&9));
    assert_eq!(e.items.len(), 2);
}

#[test]
fn bind_params_later_duplicate_wins() {
    let params = vec!["a".to_string(), "a".to_string()];
    let e = PyEnv::bind_params(PyEnv::new(None), &params, vec![1i64, 2]).unwrap();
    assert_eq!(e.env_get("a"), Some(&2));
}

#[test]
fn bind_params_checks_the_count() {
    let params = vec!["a".to_string()];
    let r = PyEnv::bind_params(PyEnv::<i64>::new(None), &params, vec![1, 2]);
    assert_eq!(r.err(), Some(ArityError { expected: 1, got: 2 }));
}

#[test]
fn set_replaces_in_place_and_appends_new_names() {
    let mut e: PyEnv<i64> = PyEnv::new(None);
    e.set("a", 1);
    e.set("b", 2);
    e.set("a", 3);
    assert_eq!(e.items.len(), 2);
    assert_eq!(e.items[0], ("a".to_string(), 3));
    assert_eq!(e.items[1], ("b".to_string(), 2));
    e.set("c", 4);
    assert_eq!(e.items[2], ("c".to_string(), 4));
}

#[test]
fn assign_rewrites_the_item_of_the_defining_frame() {
    let mut g: PyEnv<i64> = PyEnv::new(None);
    g.set("x", 1);
    g.set("y", 2);
    let mut e = PyEnv::new(Some(g));
    e.set("z", 0);
    e.env_assign("y", 5);
    assert_eq!(e.items, vec![("z".to_string(), 0)]);
    let parent = e.parent.as_ref().unwrap();
    assert_eq!(parent.items, vec![("x".to_string(), 1), ("y".to_string(), 5)]);
    e.env_assign("w", 7);
    assert_eq!(e.items, vec![("z".to_string(), 0), ("w".to_string(), 7)]);
    assert_eq!(e.parent.as_ref().unwrap().items.len(), 2);
}

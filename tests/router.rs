use scoped_router::route::{find_provider, Method, ResolutionKind, StateBinding};
use scoped_router::router::{Dispatch, Router};

fn b(tag: u64, value: u64) -> StateBinding {
    StateBinding { tag, value }
}

#[test]
fn duplicate_registration_fails_before_finalize() {
    let mut r = Router::new();
    r.register(Method::Get, "/a", 1, None).unwrap();
    let e = r.register(Method::Get, "/a", 2, None).unwrap_err();
    assert_eq!(e.method, Method::Get);
    assert_eq!(e.path, "/a");
    assert_eq!(r.len(), 1);
    let t = r.finalize().unwrap();
    assert_eq!(t.dispatch(Method::Get, "/a"), Dispatch::Found { handler: 1, state: None });
}

#[test]
fn same_path_other_method_registers() {
    let mut r = Router::new();
    r.register(Method::Get, "/a", 1, None).unwrap();
    r.register(Method::Post, "/a", 2, None).unwrap();
    assert_eq!(r.len(), 2);
    let t = r.finalize().unwrap();
    assert_eq!(t.dispatch(Method::Post, "/a"), Dispatch::Found { handler: 2, state: None });
}

#[test]
fn contains_sees_registered_route() {
    let mut r = Router::new();
    r.register(Method::Put, "/p", 1, None).unwrap();
    assert!(r.contains(Method::Put, &"/p".to_string()));
    assert!(!r.contains(Method::Get, &"/p".to_string()));
}

#[test]
fn merge_collision_names_first_clash() {
    let mut parent = Router::new();
    parent.register(Method::Get, "/b", 1, None).unwrap();
    parent.register(Method::Get, "/c", 2, None).unwrap();
    let mut sub = Router::new();
    sub.register(Method::Get, "/a", 3, None).unwrap();
    sub.register(Method::Get, "/c", 4, None).unwrap();
    sub.register(Method::Get, "/b", 5, None).unwrap();
    let e = parent.merge(sub).unwrap_err();
    assert_eq!(e.path, "/c");
    assert_eq!(parent.len(), 2);
}

#[test]
fn missing_state_fails_finalize() {
    let mut r = Router::new();
    r.register(Method::Get, "/ok", 1, None).unwrap();
    r.register(Method::Get, "/needs", 2, Some(9)).unwrap();
    r.bind_state(b(8, 0));
    let e = r.finalize().unwrap_err();
    assert_eq!(e.kind, ResolutionKind::Missing);
    assert_eq!(e.path, "/needs");
}

#[test]
fn unbound_scope_fails_finalize() {
    let mut r = Router::new();
    r.register(Method::Get, "/needs", 2, Some(9)).unwrap();
    let e = r.finalize().unwrap_err();
    assert_eq!(e.kind, ResolutionKind::Missing);
}

#[test]
fn ambiguous_state_fails_finalize() {
    let mut sub = Router::new();
    sub.register(Method::Get, "/x", 1, Some(5)).unwrap();
    sub.bind_state(b(5, 1));
    let mut parent = Router::new();
    parent.merge(sub).unwrap();
    parent.bind_state(b(5, 2));
    let e = parent.finalize().unwrap_err();
    assert_eq!(e.kind, ResolutionKind::Ambiguous);
    assert_eq!(e.method, Method::Get);
    assert_eq!(e.path, "/x");
}

#[test]
fn first_unresolved_route_is_reported() {
    let mut r = Router::new();
    r.register(Method::Get, "/one", 1, Some(3)).unwrap();
    r.register(Method::Get, "/two", 2, Some(4)).unwrap();
    r.bind_state(b(4, 0));
    r.bind_state(b(4, 1));
    let e = r.finalize().unwrap_err();
    assert_eq!(e.path, "/one");
    assert_eq!(e.kind, ResolutionKind::Missing);
}

#[test]
fn each_route_gets_its_one_provider() {
    let mut sub = Router::new();
    sub.register(Method::Get, "/in", 1, Some(2)).unwrap();
    sub.bind_state(b(2, 20));
    let mut r = Router::new();
    r.register(Method::Get, "/out", 2, Some(1)).unwrap();
    r.merge(sub).unwrap();
    r.bind_state(b(1, 10));
    let t = r.finalize().unwrap();
    assert_eq!(t.dispatch(Method::Get, "/in"), Dispatch::Found { handler: 1, state: Some(b(2, 20)) });
    assert_eq!(t.dispatch(Method::Get, "/out"), Dispatch::Found { handler: 2, state: Some(b(1, 10)) });
}

fn deferred_subtree() -> Router {
    let mut sub = Router::new();
    sub.register(Method::Get, "/inner", 7, Some(3)).unwrap();
    sub
}

#[test]
fn subtree_merged_twice_resolves_per_parent() {
    let mut p1 = Router::new();
    p1.register(Method::Get, "/a", 1, None).unwrap();
    p1.merge(deferred_subtree()).unwrap();
    p1.bind_state(b(3, 100));
    let mut p2 = Router::new();
    p2.register(Method::Get, "/b", 2, None).unwrap();
    p2.merge(deferred_subtree()).unwrap();
    p2.bind_state(b(3, 200));
    let t1 = p1.finalize().unwrap();
    let t2 = p2.finalize().unwrap();
    assert_eq!(t1.dispatch(Method::Get, "/inner"), Dispatch::Found { handler: 7, state: Some(b(3, 100)) });
    assert_eq!(t2.dispatch(Method::Get, "/inner"), Dispatch::Found { handler: 7, state: Some(b(3, 200)) });
}

#[test]
fn find_provider_counts_matches() {
    assert_eq!(find_provider(&vec![], 1), Err(ResolutionKind::Missing));
    assert_eq!(find_provider(&vec![b(2, 0), b(1, 5)], 1), Ok(b(1, 5)));
    assert_eq!(find_provider(&vec![b(1, 0), b(2, 0), b(1, 5)], 1), Err(ResolutionKind::Ambiguous));
}

#[test]
fn empty_table_finds_nothing() {
    let t = Router::new().finalize().unwrap();
    assert_eq!(t.len(), 0);
    assert_eq!(t.dispatch(Method::Get, "/"), Dispatch::NotFound);
}

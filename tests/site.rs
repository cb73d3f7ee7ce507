use scoped_router::route::{Method, StateBinding};
use scoped_router::router::{Dispatch, Router};
use scoped_router::site::{
    app, app_table, get_sub_router, handler, inner_handler, outer_handler, respond, HELLO_HANDLER,
    INNER_HANDLER, INNER_STATE, OUTER_HANDLER, OUTER_STATE,
};

#[test]
fn test_new_router_with_state_without_used() {
    let mut app = Router::new();
    app.register(Method::Get, "/", HELLO_HANDLER, None).unwrap();
    app.register(Method::Get, "/outer", OUTER_HANDLER, Some(OUTER_STATE)).unwrap();
    app.merge(get_sub_router()).unwrap();
    app.bind_state(StateBinding { tag: OUTER_STATE, value: 0 });
    assert!(app.finalize().is_ok());
}

#[test]
fn root_returns_greeting() {
    let t = app_table().unwrap();
    let r = respond(&t, Method::Get, "/");
    assert_eq!(r.status, 200);
    assert!(r.html);
    assert_eq!(r.body, "<h1>Hello, World!</h1>");
}

#[test]
fn outer_returns_outer_with_outer_state() {
    let t = app_table().unwrap();
    let r = respond(&t, Method::Get, "/outer");
    assert_eq!(r.status, 200);
    assert!(!r.html);
    assert_eq!(r.body, "outer");
    assert_eq!(
        t.dispatch(Method::Get, "/outer"),
        Dispatch::Found {
            handler: OUTER_HANDLER,
            state: Some(StateBinding { tag: OUTER_STATE, value: 0 })
        }
    );
}

#[test]
fn inner_returns_inner_with_inner_state() {
    let t = app_table().unwrap();
    let r = respond(&t, Method::Get, "/inner");
    assert_eq!(r.status, 200);
    assert_eq!(r.body, "inner");
    assert_eq!(
        t.dispatch(Method::Get, "/inner"),
        Dispatch::Found {
            handler: INNER_HANDLER,
            state: Some(StateBinding { tag: INNER_STATE, value: 0 })
        }
    );
}

#[test]
fn unregistered_path_is_not_found() {
    let t = app_table().unwrap();
    let r = respond(&t, Method::Get, "/missing");
    assert_eq!(r.status, 404);
    assert_eq!(r.body, "");
    assert_eq!(t.dispatch(Method::Get, "/missing"), Dispatch::NotFound);
}

#[test]
fn other_method_is_not_found() {
    let t = app_table().unwrap();
    assert_eq!(respond(&t, Method::Post, "/").status, 404);
}

#[test]
fn site_tree_has_three_routes() {
    assert_eq!(app().len(), 3);
    assert_eq!(app_table().unwrap().len(), 3);
    assert_eq!(get_sub_router().len(), 1);
}

#[test]
fn handlers_reply_directly() {
    let s = StateBinding { tag: OUTER_STATE, value: 0 };
    assert_eq!(handler().body, "<h1>Hello, World!</h1>");
    assert_eq!(outer_handler(s).body, "outer");
    assert_eq!(inner_handler(s).body, "inner");
}

#[test]
fn unknown_handler_is_a_server_error() {
    let mut r = Router::new();
    r.register(Method::Get, "/x", 99, None).unwrap();
    let t = r.finalize().unwrap();
    let resp = respond(&t, Method::Get, "/x");
    assert_eq!(resp.status, 500);
}

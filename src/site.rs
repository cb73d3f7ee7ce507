use vstd::prelude::*;

use crate::route::{Method, RouteView, StateBinding};
use crate::router::{
    answers, resolved_table, Dispatch, EntryView, ResolvedView, Router, Table, Unresolved,
};

verus! {

/// Type tag of the state bound to the outer scope.
pub const OUTER_STATE: u64 = 1;

/// Type tag of the state bound to the inner scope.
pub const INNER_STATE: u64 = 2;

/// Handler that greets with a small HTML page.
pub const HELLO_HANDLER: u64 = 0;

/// Handler of the outer scope, reading its state.
pub const OUTER_HANDLER: u64 = 1;

/// Handler of the inner scope, reading its state.
pub const INNER_HANDLER: u64 = 2;

pub open spec fn outer_state() -> StateBinding {
    StateBinding { tag: OUTER_STATE, value: 0 }
}

pub open spec fn inner_state() -> StateBinding {
    StateBinding { tag: INNER_STATE, value: 0 }
}

/// A response as handed back to the server: status code, whether the body
/// is HTML (otherwise plain text), and the body.
#[derive(Debug)]
pub struct Response {
    pub status: u16,
    pub html: bool,
    pub body: String,
}

pub struct ResponseView {
    pub status: u16,
    pub html: bool,
    pub body: Seq<char>,
}

impl View for Response {
    type V = ResponseView;

    open spec fn view(&self) -> ResponseView {
        ResponseView { status: self.status, html: self.html, body: self.body@ }
    }
}

pub open spec fn not_found() -> ResponseView {
    ResponseView { status: 404, html: false, body: Seq::empty() }
}

/// What running handler `h` with the resolved state `st` answers.
pub open spec fn reply(h: u64, st: Option<StateBinding>) -> ResponseView {
    if h == HELLO_HANDLER {
        ResponseView { status: 200, html: true, body: "<h1>Hello, World!</h1>"@ }
    } else if h == OUTER_HANDLER && st is Some {
        ResponseView { status: 200, html: false, body: "outer"@ }
    } else if h == INNER_HANDLER && st is Some {
        ResponseView { status: 200, html: false, body: "inner"@ }
    } else {
        ResponseView { status: 500, html: false, body: Seq::empty() }
    }
}

pub fn handler() -> (r: Response)
    ensures
        r@ == reply(HELLO_HANDLER, None),
{
    Response { status: 200, html: true, body: String::from_str("<h1>Hello, World!</h1>") }
}

pub fn outer_handler(_state: StateBinding) -> (r: Response)
    ensures
        r@ == reply(OUTER_HANDLER, Some(_state)),
{
    Response { status: 200, html: false, body: String::from_str("outer") }
}

pub fn inner_handler(_state: StateBinding) -> (r: Response)
    ensures
        r@ == reply(INNER_HANDLER, Some(_state)),
{
    Response { status: 200, html: false, body: String::from_str("inner") }
}

/// The subtree built on its own: `GET /inner`, reading the inner state,
/// in a scope closed with that state.
pub open spec fn sub_tree() -> Seq<EntryView> {
    seq![
        EntryView {
            route: RouteView { method: Method::Get, path: "/inner"@, handler: INNER_HANDLER, needs: Some(INNER_STATE) },
            bindings: seq![inner_state()],
        },
    ]
}

/// The whole site: `GET /` and `GET /outer` in the outer scope, the subtree
/// merged beneath it, and the outer scope closed with the outer state.
pub open spec fn site_tree() -> Seq<EntryView> {
    seq![
        EntryView {
            route: RouteView { method: Method::Get, path: "/"@, handler: HELLO_HANDLER, needs: None },
            bindings: seq![outer_state()],
        },
        EntryView {
            route: RouteView { method: Method::Get, path: "/outer"@, handler: OUTER_HANDLER, needs: Some(OUTER_STATE) },
            bindings: seq![outer_state()],
        },
        EntryView {
            route: RouteView { method: Method::Get, path: "/inner"@, handler: INNER_HANDLER, needs: Some(INNER_STATE) },
            bindings: seq![inner_state(), outer_state()],
        },
    ]
}

pub fn get_sub_router() -> (r: Router)
    ensures
        r.wf(),
        r@ == sub_tree(),
{
    let mut r = Router::new();
    let res = r.register(Method::Get, "/inner", INNER_HANDLER, Some(INNER_STATE));
    assert(res is Ok);
    r.bind_state(StateBinding { tag: INNER_STATE, value: 0 });
    assert(r@ =~= sub_tree());
    r
}

pub fn app() -> (r: Router)
    ensures
        r.wf(),
        r@ == site_tree(),
{
    proof {
        reveal_strlit("/");
        reveal_strlit("/outer");
        reveal_strlit("/inner");
    }
    let mut r = Router::new();
    let res = r.register(Method::Get, "/", HELLO_HANDLER, None);
    assert(res is Ok);
    let ghost one = r@;
    let res = r.register(Method::Get, "/outer", OUTER_HANDLER, Some(OUTER_STATE));
    assert(one[0].route.path == "/"@);
    assert("/"@.len() != "/outer"@.len());
    assert(res is Ok);
    let ghost two = r@;
    let sub = get_sub_router();
    assert(two[0].route.path == "/"@ && two[1].route.path == "/outer"@);
    assert("/"@.len() != "/inner"@.len());
    assert("/outer"@[1] != "/inner"@[1]);
    assert(sub@[0].route.path == "/inner"@);
    let res = r.merge(sub);
    assert(res is Ok);
    let ghost three = r@;
    r.bind_state(StateBinding { tag: OUTER_STATE, value: 0 });
    assert(three.len() == 3);
    assert(r@[0].bindings =~= seq![outer_state()]);
    assert(r@[1].bindings =~= seq![outer_state()]);
    assert(three[2] == sub_tree()[0]);
    assert(r@[2].bindings =~= seq![inner_state(), outer_state()]);
    assert(r@ =~= site_tree());
    r
}

/// The site's dispatch table: `/` with no state, `/outer` with the outer
/// state, `/inner` with the inner state.
pub open spec fn site_table() -> Seq<ResolvedView> {
    seq![
        ResolvedView { method: Method::Get, path: "/"@, handler: HELLO_HANDLER, state: None },
        ResolvedView { method: Method::Get, path: "/outer"@, handler: OUTER_HANDLER, state: Some(outer_state()) },
        ResolvedView { method: Method::Get, path: "/inner"@, handler: INNER_HANDLER, state: Some(inner_state()) },
    ]
}

/// The site frozen into its dispatch table: every route's state resolves,
/// each to the state of the scope that binds it.
pub fn app_table() -> (r: Result<Table, Unresolved>)
    ensures
        r is Ok,
        match r {
            Ok(t) => t@ == resolved_table(site_tree()) && t@ == site_table() && t.wf(),
            Err(_) => false,
        },
{
    proof {
        let outer = |b: StateBinding| b.tag == OUTER_STATE;
        let inner = |b: StateBinding| b.tag == INNER_STATE;
        assert(seq![outer_state()] == Seq::<StateBinding>::empty().push(outer_state()));
        assert(seq![inner_state(), outer_state()] == seq![inner_state()].push(outer_state()));
        assert(seq![inner_state()] == Seq::<StateBinding>::empty().push(inner_state()));
        Seq::<StateBinding>::empty().lemma_filter_push(outer_state(), outer);
        Seq::<StateBinding>::empty().lemma_filter_push(inner_state(), inner);
        seq![inner_state()].lemma_filter_push(outer_state(), inner);
        assert(Seq::<StateBinding>::empty().filter(outer) == Seq::<StateBinding>::empty());
        assert(Seq::<StateBinding>::empty().filter(inner) == Seq::<StateBinding>::empty());
        assert(resolved_table(site_tree()) =~= site_table());
    }
    app().finalize()
}

/// Answers a request from the site's table: the matched handler's reply,
/// or not found when no route answers to the method and path.
pub fn respond(table: &Table, method: Method, path: &str) -> (r: Response)
    requires
        table.wf(),
    ensures
        !(exists|i: int| 0 <= i < table@.len() && answers(#[trigger] table@[i], method, path@)) ==> r@
            == not_found(),
        forall|i: int|
            0 <= i < table@.len() && answers(#[trigger] table@[i], method, path@) ==> r@ == reply(
                table@[i].handler,
                table@[i].state,
            ),
{
    match table.dispatch(method, path) {
        Dispatch::NotFound => Response { status: 404, html: false, body: String::new() },
        Dispatch::Found { handler: h, state } => {
            if h == HELLO_HANDLER {
                handler()
            } else if h == OUTER_HANDLER && state.is_some() {
                outer_handler(state.unwrap())
            } else if h == INNER_HANDLER && state.is_some() {
                inner_handler(state.unwrap())
            } else {
                Response { status: 500, html: false, body: String::new() }
            }
        },
    }
}

} // verus!

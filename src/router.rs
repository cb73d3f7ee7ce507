use vstd::prelude::*;

use crate::route::{
    bound_state, find_provider, is_resolved, resolve, Method, Resolution, ResolutionKind, Route,
    RouteView, StateBinding,
};

verus! {

/// A route as it stands in a tree: the route itself and the bindings of the
/// scopes that were closed around it, innermost first.
pub struct EntryView {
    pub route: RouteView,
    pub bindings: Seq<StateBinding>,
}

pub open spec fn entry_resolution(e: EntryView) -> Resolution {
    resolve(e.route.needs, e.bindings)
}

pub open spec fn has_route(s: Seq<EntryView>, method: Method, path: Seq<char>) -> bool {
    exists|i: int| 0 <= i < s.len() && #[trigger] s[i].route.method == method && s[i].route.path == path
}

/// No two routes of the tree share a method and a path.
pub open spec fn unique_keys(s: Seq<EntryView>) -> bool {
    forall|i: int, j: int|
        0 <= i < s.len() && 0 <= j < s.len() && i != j && #[trigger] s[i].route.method == #[trigger] s[j].route.method
            ==> s[i].route.path != s[j].route.path
}

/// The tree after its current scope is closed with the binding `b`.
pub open spec fn bound(s: Seq<EntryView>, b: StateBinding) -> Seq<EntryView> {
    Seq::new(s.len(), |i: int| EntryView { route: s[i].route, bindings: s[i].bindings.push(b) })
}

/// `other[j]` is the first route of `other` whose method and path `s` already has.
pub open spec fn first_collision(s: Seq<EntryView>, other: Seq<EntryView>, j: int) -> bool {
    &&& 0 <= j < other.len()
    &&& has_route(s, other[j].route.method, other[j].route.path)
    &&& forall|k: int| 0 <= k < j ==> !has_route(s, #[trigger] other[k].route.method, other[k].route.path)
}

/// `s[i]` is the first route of `s` whose state cannot be resolved.
pub open spec fn first_unresolved(s: Seq<EntryView>, i: int) -> bool {
    &&& 0 <= i < s.len()
    &&& !is_resolved(entry_resolution(s[i]))
    &&& forall|k: int| 0 <= k < i ==> is_resolved(#[trigger] entry_resolution(s[k]))
}

pub open spec fn all_resolved(s: Seq<EntryView>) -> bool {
    forall|i: int| 0 <= i < s.len() ==> is_resolved(#[trigger] entry_resolution(s[i]))
}

/// A route of the finished table: where it answers, what it runs, and the
/// state its handler receives.
pub struct ResolvedView {
    pub method: Method,
    pub path: Seq<char>,
    pub handler: u64,
    pub state: Option<StateBinding>,
}

pub open spec fn resolved_entry(e: EntryView) -> ResolvedView {
    ResolvedView {
        method: e.route.method,
        path: e.route.path,
        handler: e.route.handler,
        state: bound_state(entry_resolution(e)),
    }
}

/// The dispatch table that a fully resolved tree freezes into.
pub open spec fn resolved_table(s: Seq<EntryView>) -> Seq<ResolvedView> {
    Seq::new(s.len(), |i: int| resolved_entry(s[i]))
}

/// A route registered twice for one method and path.
#[derive(Debug)]
pub struct Collision {
    pub method: Method,
    pub path: String,
}

/// A route whose state could not be resolved when the tree was finalized.
#[derive(Debug)]
pub struct Unresolved {
    pub kind: ResolutionKind,
    pub method: Method,
    pub path: String,
}

#[derive(Debug)]
pub struct Entry {
    route: Route,
    bindings: Vec<StateBinding>,
}

impl View for Entry {
    type V = EntryView;

    closed spec fn view(&self) -> EntryView {
        EntryView { route: self.route@, bindings: self.bindings@ }
    }
}

/// A tree of routes under construction. Routes are registered in the
/// current scope; `bind_state` closes that scope with its state value, and
/// `merge` brings in a tree built on its own.
#[derive(Debug)]
pub struct Router {
    entries: Vec<Entry>,
}

impl View for Router {
    type V = Seq<EntryView>;

    closed spec fn view(&self) -> Seq<EntryView> {
        self.entries@.map_values(|e: Entry| e@)
    }
}

fn same_path(a: &String, b: &String) -> (r: bool)
    ensures
        r == (a@ == b@),
{
    a.eq(b)
}

impl Router {
    pub open spec fn wf(&self) -> bool {
        unique_keys(self@)
    }

    pub fn new() -> (r: Router)
        ensures
            r@ == Seq::<EntryView>::empty(),
            r.wf(),
    {
        Router { entries: Vec::new() }
    }

    pub fn len(&self) -> (n: usize)
        ensures
            n == self@.len(),
    {
        self.entries.len()
    }

    /// Whether the tree already holds a route for `method` and `path`.
    pub fn contains(&self, method: Method, path: &String) -> (r: bool)
        ensures
            r == has_route(self@, method, path@),
    {
        let mut i: usize = 0;
        while i < self.entries.len()
            invariant
                i <= self@.len(),
                self@.len() == self.entries@.len(),
                forall|k: int| 0 <= k < i ==> !(#[trigger] self@[k].route.method == method && self@[k].route.path == path@),
            decreases self@.len() - i,
        {
            let e = &self.entries[i];
            assert(self@[i as int] == e@);
            if e.route.method == method && same_path(&e.route.path, path) {
                assert(self@[i as int].route.method == method);
                return true;
            }
            i = i + 1;
        }
        false
    }

    /// Adds a route to the current scope. Fails, leaving the tree as it was,
    /// when a route for the same method and path is already in the tree:
    /// the table is flat at dispatch, so a path answers once per method.
    pub fn register(&mut self, method: Method, path: &str, handler: u64, needs: Option<u64>) -> (r:
        Result<(), Collision>)
        requires
            old(self).wf(),
        ensures
            final(self).wf(),
            r is Err <==> has_route(old(self)@, method, path@),
            match r {
                Ok(_) => final(self)@ == old(self)@.push(
                    EntryView {
                        route: RouteView { method, path: path@, handler, needs },
                        bindings: Seq::empty(),
                    },
                ),
                Err(e) => final(self)@ == old(self)@ && e.method == method && e.path@ == path@,
            },
    {
        let p = String::from_str(path);
        if self.contains(method, &p) {
            return Err(Collision { method, path: p });
        }
        let e = Entry { route: Route { method, path: p, handler, needs }, bindings: Vec::new() };
        self.entries.push(e);
        proof {
            let s = old(self)@;
            let t = self@;
            assert(t == s.push(e@));
            assert forall|i: int, j: int|
                0 <= i < t.len() && 0 <= j < t.len() && i != j && #[trigger] t[i].route.method == #[trigger] t[j].route.method
                implies t[i].route.path != t[j].route.path by {
                if i == s.len() as int {
                    assert(s[j].route.method == method);
                } else if j == s.len() as int {
                    assert(s[i].route.method == method);
                }
            }
        }
        Ok(())
    }

    /// Brings the routes of `other`, with the scopes already closed around
    /// them, into this tree. Fails, leaving this tree as it was, when `other`
    /// has a route for a method and path that this tree already has; the
    /// error names the first such route of `other`.
    pub fn merge(&mut self, other: Router) -> (r: Result<(), Collision>)
        requires
            old(self).wf(),
            other.wf(),
        ensures
            final(self).wf(),
            r is Err <==> exists|j: int|
                0 <= j < other@.len() && has_route(old(self)@, #[trigger] other@[j].route.method, other@[j].route.path),
            match r {
                Ok(_) => final(self)@ == old(self)@ + other@,
                Err(e) => final(self)@ == old(self)@ && exists|j: int|
                    first_collision(old(self)@, other@, j) && e.method == other@[j].route.method
                        && e.path@ == other@[j].route.path,
            },
    {
        let mut rest = other;
        let mut j: usize = 0;
        while j < rest.entries.len()
            invariant
                old(self).wf(),
                self@ == old(self)@,
                rest == other,
                j <= other@.len(),
                other@.len() == other.entries@.len(),
                forall|k: int| 0 <= k < j ==> !has_route(self@, #[trigger] other@[k].route.method, other@[k].route.path),
            decreases other@.len() - j,
        {
            let e = &rest.entries[j];
            assert(other@[j as int] == e@);
            if self.contains(e.route.method, &e.route.path) {
                assert(first_collision(old(self)@, other@, j as int));
                assert(has_route(old(self)@, other@[j as int].route.method, other@[j as int].route.path));
                return Err(Collision { method: e.route.method, path: e.route.path.clone() });
            }
            j = j + 1;
        }
        let ghost s = self@;
        let ghost o = other@;
        self.entries.append(&mut rest.entries);
        proof {
            let t = self@;
            assert(t == s + o);
            assert forall|i: int, k: int|
                0 <= i < t.len() && 0 <= k < t.len() && i != k && #[trigger] t[i].route.method == #[trigger] t[k].route.method
                implies t[i].route.path != t[k].route.path by {
                if i < s.len() && k >= s.len() {
                    assert(o[k - s.len()].route.method == t[k].route.method);
                    if t[i].route.path == t[k].route.path {
                        assert(s[i].route.method == o[k - s.len()].route.method);
                        assert(has_route(s, o[k - s.len()].route.method, o[k - s.len()].route.path));
                    }
                } else if k < s.len() && i >= s.len() {
                    assert(o[i - s.len()].route.method == t[i].route.method);
                    if t[i].route.path == t[k].route.path {
                        assert(s[k].route.method == o[i - s.len()].route.method);
                        assert(has_route(s, o[i - s.len()].route.method, o[i - s.len()].route.path));
                    }
                } else if i >= s.len() && k >= s.len() {
                    assert(o[i - s.len()].route.method == o[k - s.len()].route.method);
                } else {
                    assert(s[i].route.method == s[k].route.method);
                }
            }
        }
        Ok(())
    }

    /// Closes the current scope with the state value `b`: every route of the
    /// tree now has `b` among the bindings of its enclosing scopes, and
    /// routes registered afterwards stand in a new, unbound scope.
    pub fn bind_state(&mut self, b: StateBinding)
        requires
            old(self).wf(),
        ensures
            final(self).wf(),
            final(self)@ == bound(old(self)@, b),
    {
        let n = self.entries.len();
        let mut i: usize = 0;
        while i < n
            invariant
                n == old(self)@.len(),
                i <= n,
                self.entries@.len() == n,
                forall|k: int| 0 <= k < i ==> #[trigger] self.entries@[k]@ == bound(old(self)@, b)[k],
                forall|k: int| i <= k < n ==> #[trigger] self.entries@[k]@ == old(self)@[k],
            decreases n - i,
        {
            let ghost before = self.entries@;
            self.entries[i].bindings.push(b);
            assert(self.entries@[i as int].bindings@ == before[i as int].bindings@.push(b));
            assert(self.entries@[i as int].route == before[i as int].route);
            assert(before[i as int]@ == old(self)@[i as int]);
            assert(self.entries@[i as int]@ == EntryView {
                route: old(self)@[i as int].route,
                bindings: old(self)@[i as int].bindings.push(b),
            });
            assert(self.entries@[i as int]@ == bound(old(self)@, b)[i as int]);
            assert forall|k: int| 0 <= k < n && k != i implies #[trigger] self.entries@[k] == before[k] by {}
            i = i + 1;
        }
        proof {
            assert(self@ =~= bound(old(self)@, b));
            let s = old(self)@;
            let t = self@;
            assert forall|i: int, k: int|
                0 <= i < t.len() && 0 <= k < t.len() && i != k && #[trigger] t[i].route.method == #[trigger] t[k].route.method
                implies t[i].route.path != t[k].route.path by {
                assert(s[i].route.method == s[k].route.method);
            }
        }
    }

    /// Resolves the state of every route and freezes the tree into a
    /// dispatch table. Fails when some route's state is provided by no
    /// enclosing scope or by several; the error names the first such route.
    pub fn finalize(self) -> (r: Result<Table, Unresolved>)
        requires
            self.wf(),
        ensures
            r is Ok <==> all_resolved(self@),
            match r {
                Ok(t) => t@ == resolved_table(self@) && t.wf(),
                Err(e) => exists|i: int|
                    first_unresolved(self@, i) && e.method == self@[i].route.method && e.path@ == self@[i].route.path
                        && (e.kind == ResolutionKind::Missing <==> entry_resolution(self@[i]) is Missing),
            },
    {
        let mut routes: Vec<Resolved> = Vec::new();
        let mut i: usize = 0;
        while i < self.entries.len()
            invariant
                self.wf(),
                i <= self@.len(),
                self@.len() == self.entries@.len(),
                routes@.len() == i,
                forall|k: int| 0 <= k < i ==> #[trigger] routes@[k]@ == resolved_entry(self@[k]),
                forall|k: int| 0 <= k < i ==> is_resolved(#[trigger] entry_resolution(self@[k])),
            decreases self@.len() - i,
        {
            let e = &self.entries[i];
            assert(self@[i as int] == e@);
            let state = match e.route.needs {
                None => None,
                Some(tag) => match find_provider(&e.bindings, tag) {
                    Ok(b) => Some(b),
                    Err(kind) => {
                        assert(first_unresolved(self@, i as int));
                        return Err(Unresolved { kind, method: e.route.method, path: e.route.path.clone() });
                    },
                },
            };
            routes.push(Resolved { method: e.route.method, path: e.route.path.clone(), handler: e.route.handler, state });
            i = i + 1;
        }
        let t = Table { routes };
        assert(t@ =~= resolved_table(self@));
        proof {
            let s = self@;
            let v = t@;
            assert forall|a: int, c: int|
                0 <= a < v.len() && 0 <= c < v.len() && a != c && #[trigger] v[a].method == #[trigger] v[c].method
                implies v[a].path != v[c].path by {
                assert(s[a].route.method == s[c].route.method);
            }
        }
        Ok(t)
    }
}


/// A route of the finished table.
#[derive(Debug)]
pub struct Resolved {
    pub method: Method,
    pub path: String,
    pub handler: u64,
    pub state: Option<StateBinding>,
}

impl View for Resolved {
    type V = ResolvedView;

    open spec fn view(&self) -> ResolvedView {
        ResolvedView { method: self.method, path: self.path@, handler: self.handler, state: self.state }
    }
}

/// What dispatch found for a request.
#[derive(Debug, PartialEq, Eq, Structural)]
pub enum Dispatch {
    /// The handler to run and the state of the scope it was resolved to.
    Found { handler: u64, state: Option<StateBinding> },
    /// No route answers to the request's method and path.
    NotFound,
}

/// A finalized, immutable dispatch table.
#[derive(Debug)]
pub struct Table {
    routes: Vec<Resolved>,
}

impl View for Table {
    type V = Seq<ResolvedView>;

    closed spec fn view(&self) -> Seq<ResolvedView> {
        self.routes@.map_values(|r: Resolved| r@)
    }
}

pub open spec fn answers(r: ResolvedView, method: Method, path: Seq<char>) -> bool {
    r.method == method && r.path == path
}

impl Table {
    /// No two routes of the table share a method and a path.
    pub open spec fn wf(&self) -> bool {
        forall|a: int, c: int|
            0 <= a < self@.len() && 0 <= c < self@.len() && a != c && #[trigger] self@[a].method == #[trigger] self@[c].method
                ==> self@[a].path != self@[c].path
    }

    pub fn len(&self) -> (n: usize)
        ensures
            n == self@.len(),
    {
        self.routes.len()
    }

    /// Finds the route that answers to `method` and `path`.
    pub fn dispatch(&self, method: Method, path: &str) -> (d: Dispatch)
        ensures
            d is NotFound <==> !exists|i: int| 0 <= i < self@.len() && answers(#[trigger] self@[i], method, path@),
            match d {
                Dispatch::Found { handler, state } => exists|i: int|
                    0 <= i < self@.len() && answers(#[trigger] self@[i], method, path@) && self@[i].handler == handler
                        && self@[i].state == state,
                Dispatch::NotFound => true,
            },
    {
        let p = String::from_str(path);
        let mut i: usize = 0;
        while i < self.routes.len()
            invariant
                p@ == path@,
                i <= self@.len(),
                self@.len() == self.routes@.len(),
                forall|k: int| 0 <= k < i ==> !answers(#[trigger] self@[k], method, path@),
            decreases self@.len() - i,
        {
            let r = &self.routes[i];
            assert(self@[i as int] == r@);
            if r.method == method && same_path(&r.path, &p) {
                return Dispatch::Found { handler: r.handler, state: r.state };
            }
            i = i + 1;
        }
        Dispatch::NotFound
    }
}

} // verus!

use vstd::prelude::*;

verus! {

/// The HTTP method a route answers to.
#[derive(Clone, Copy, Debug, PartialEq, Eq, Structural)]
pub enum Method {
    Get,
    Head,
    Post,
    Put,
    Delete,
    Patch,
    Options,
}

/// A concrete state value bound to a scope: `tag` identifies the state's
/// type, `value` is the datum handlers of that scope receive.
#[derive(Clone, Copy, Debug, PartialEq, Eq, Structural)]
pub struct StateBinding {
    pub tag: u64,
    pub value: u64,
}

/// A registered route: method and exact path, the handler to run, and the
/// type tag of the state that handler reads, if it reads any.
#[derive(Debug)]
pub struct Route {
    pub method: Method,
    pub path: String,
    pub handler: u64,
    pub needs: Option<u64>,
}

pub struct RouteView {
    pub method: Method,
    pub path: Seq<char>,
    pub handler: u64,
    pub needs: Option<u64>,
}

impl View for Route {
    type V = RouteView;

    open spec fn view(&self) -> RouteView {
        RouteView {
            method: self.method,
            path: self.path@,
            handler: self.handler,
            needs: self.needs,
        }
    }
}

/// The bindings among `bs` that provide state of type `tag`.
pub open spec fn providers(bs: Seq<StateBinding>, tag: u64) -> Seq<StateBinding> {
    bs.filter(|b: StateBinding| b.tag == tag)
}

/// How a route's state requirement is met by the bindings of the scopes
/// that enclose it.
pub enum Resolution {
    /// The route reads no state.
    Stateless,
    /// Exactly one enclosing scope provides the state.
    Bound(StateBinding),
    /// No enclosing scope provides the state.
    Missing,
    /// Several enclosing scopes provide the state.
    Ambiguous,
}

pub open spec fn resolve(needs: Option<u64>, bs: Seq<StateBinding>) -> Resolution {
    match needs {
        None => Resolution::Stateless,
        Some(tag) => {
            let p = providers(bs, tag);
            if p.len() == 0 {
                Resolution::Missing
            } else if p.len() == 1 {
                Resolution::Bound(p[0])
            } else {
                Resolution::Ambiguous
            }
        },
    }
}

pub open spec fn is_resolved(r: Resolution) -> bool {
    match r {
        Resolution::Missing | Resolution::Ambiguous => false,
        _ => true,
    }
}

/// The state handed to a handler under a resolution that succeeded.
pub open spec fn bound_state(r: Resolution) -> Option<StateBinding> {
    match r {
        Resolution::Bound(b) => Some(b),
        _ => None,
    }
}

/// Looks up the state of type `tag` among `bs`: `Ok(b)` when exactly one
/// binding provides it, otherwise whether none or several do.
pub fn find_provider(bs: &Vec<StateBinding>, tag: u64) -> (r: Result<StateBinding, ResolutionKind>)
    ensures
        match r {
            Ok(b) => providers(bs@, tag).len() == 1 && b == providers(bs@, tag)[0],
            Err(ResolutionKind::Missing) => providers(bs@, tag).len() == 0,
            Err(ResolutionKind::Ambiguous) => providers(bs@, tag).len() > 1,
        },
{
    let mut count: usize = 0;
    let mut first = StateBinding { tag: 0, value: 0 };
    let mut i: usize = 0;
    while i < bs.len()
        invariant
            i <= bs@.len(),
            count as int == if providers(bs@.subrange(0, i as int), tag).len() < 2 {
                providers(bs@.subrange(0, i as int), tag).len() as int
            } else {
                2
            },
            count >= 1 ==> first == providers(bs@.subrange(0, i as int), tag)[0],
        decreases bs@.len() - i,
    {
        proof {
            let pre = bs@.subrange(0, i as int);
            assert(bs@.subrange(0, i + 1) == pre.push(bs@[i as int]));
            pre.lemma_filter_push(bs@[i as int], |b: StateBinding| b.tag == tag);
        }
        if bs[i].tag == tag {
            if count == 0 {
                first = bs[i];
            }
            if count < 2 {
                count = count + 1;
            }
        }
        i = i + 1;
    }
    assert(bs@.subrange(0, bs@.len() as int) == bs@);
    if count == 0 {
        Err(ResolutionKind::Missing)
    } else if count == 1 {
        Ok(first)
    } else {
        Err(ResolutionKind::Ambiguous)
    }
}

/// Why a route's state could not be resolved.
#[derive(Clone, Copy, Debug, PartialEq, Eq, Structural)]
pub enum ResolutionKind {
    /// No enclosing scope binds the state the handler reads.
    Missing,
    /// More than one enclosing scope binds it.
    Ambiguous,
}

} // verus!

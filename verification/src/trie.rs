//! The routing trie as a mathematical value, and what registering a route
//! and resolving a path mean on it.

use crate::method::Method;
use crate::scan::{split_on, trim_by};
use crate::text::exactly;
use vstd::prelude::*;

verus! {

/// The bindings of path parameters: from parameter name to segment text.
pub type Params = Map<Seq<char>, Seq<char>>;

/// A node of the routing trie.
pub struct Trie<H> {
    /// The children reached by a literal segment, keyed by its text.
    pub children: Map<Seq<char>, Trie<H>>,
    /// The one child that stands for any segment, if there is one.
    pub dynamic: Option<Box<Trie<H>>>,
    /// The handler bound to the route that ends at this node.
    pub handler: Option<H>,
    /// The name under which a segment that led to this node is captured.
    pub param_name: Option<Seq<char>>,
}

/// Whether a segment of a route pattern captures a parameter.
pub open spec fn is_dynamic(segment: Seq<char>) -> bool {
    segment.len() > 0 && segment[0] == ':'
}

/// The segments of a path: what lies between its slashes, once the slashes
/// at both of its ends are dropped.
pub open spec fn segments(path: Seq<char>) -> Seq<Seq<char>> {
    split_on(trim_by(path, exactly('/')), seq!['/'])
}

impl<H> Trie<H> {
    /// The node without children, handler or name.
    pub open spec fn empty() -> Trie<H> {
        Trie { children: Map::empty(), dynamic: None, handler: None, param_name: None }
    }

    /// The child reached by the literal segment `key`; an empty node if
    /// there is none.
    pub open spec fn child_or_empty(self, key: Seq<char>) -> Trie<H> {
        if self.children.contains_key(key) {
            self.children[key]
        } else {
            Trie::empty()
        }
    }

    /// The dynamic child; an empty node if there is none.
    pub open spec fn dynamic_or_empty(self) -> Trie<H> {
        match self.dynamic {
            Some(child) => *child,
            None => Trie::empty(),
        }
    }

    /// This node under the parameter name `name`.
    pub open spec fn named(self, name: Seq<char>) -> Trie<H> {
        Trie { param_name: Some(name), ..self }
    }

    /// The trie after `handler` is registered under `pattern`. A segment
    /// that begins with `:` goes to the dynamic child, created if need be,
    /// and gives it its name; any other goes to the literal child of that
    /// text, created if need be. The node at the end gets the handler.
    pub open spec fn insert(self, pattern: Seq<Seq<char>>, handler: H) -> Trie<H>
        decreases pattern.len(),
    {
        if pattern.len() == 0 {
            Trie { handler: Some(handler), ..self }
        } else if is_dynamic(pattern[0]) {
            let child = self.dynamic_or_empty().named(pattern[0].drop_first());
            Trie { dynamic: Some(Box::new(child.insert(pattern.drop_first(), handler))), ..self }
        } else {
            let child = self.child_or_empty(pattern[0]);
            Trie {
                children: self.children.insert(
                    pattern[0],
                    child.insert(pattern.drop_first(), handler),
                ),
                ..self
            }
        }
    }

    /// The outcome of walking `path` down from this node with the bindings
    /// `params` so far. Each segment goes to the literal child of its text
    /// where there is one, else to the dynamic child, which binds its name
    /// to the segment. The walk ends without a handler where a segment has
    /// neither child; else it ends with what the last node holds.
    pub open spec fn lookup(self, path: Seq<Seq<char>>, params: Params) -> (Option<H>, Params)
        decreases path.len(),
    {
        if path.len() == 0 {
            (self.handler, params)
        } else if self.children.contains_key(path[0]) {
            self.children[path[0]].lookup(path.drop_first(), params)
        } else {
            match self.dynamic {
                Some(child) => child.lookup(path.drop_first(), child.bind(path[0], params)),
                None => (None, params),
            }
        }
    }

    /// The bindings after a segment led to this node by the dynamic branch.
    pub open spec fn bind(self, segment: Seq<char>, params: Params) -> Params {
        match self.param_name {
            Some(name) => params.insert(name, segment),
            None => params,
        }
    }
}

/// The routes of a router: for each method that has any, its trie.
pub type Routes<H> = Map<Method, Trie<H>>;

/// The trie of `method`; an empty one where the method has no route yet.
pub open spec fn root_or_empty<H>(routes: Routes<H>, method: Method) -> Trie<H> {
    if routes.contains_key(method) {
        routes[method]
    } else {
        Trie::empty()
    }
}

/// The routes after `handler` is registered under `method` and the pattern
/// `path`.
pub open spec fn register<H>(
    routes: Routes<H>,
    method: Method,
    path: Seq<char>,
    handler: H,
) -> Routes<H> {
    routes.insert(method, root_or_empty(routes, method).insert(segments(path), handler))
}

/// The handler that `path` resolves to under `method`, if any, and the
/// parameters captured on the way.
pub open spec fn resolution<H>(routes: Routes<H>, method: Method, path: Seq<char>) -> (
    Option<H>,
    Params,
) {
    if routes.contains_key(method) {
        routes[method].lookup(segments(path), Map::empty())
    } else {
        (None, Map::empty())
    }
}

} // verus!

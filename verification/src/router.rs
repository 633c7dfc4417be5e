//! The routing trie in memory: registration of route patterns and
//! resolution of request paths, one trie per method.

use crate::method::Method;
use crate::strmap::StrMap;
use crate::text::{split_chars, to_chars, to_string, trim_matches};
use crate::trie::{is_dynamic, register, resolution, segments, Routes, Trie};
use vstd::prelude::*;

verus! {

/// The texts of a sequence of strings.
pub open spec fn texts(strings: Seq<String>) -> Seq<Seq<char>> {
    Seq::new(strings.len(), |i: int| strings[i]@)
}

/// What a reference in an option refers to.
pub open spec fn referent<T>(option: Option<&T>) -> Option<T> {
    match option {
        Some(value) => Some(*value),
        None => None,
    }
}

/// The segments of `path`, each as a string of its own.
pub fn path_segments(path: &str) -> (parts: Vec<String>)
    ensures
        texts(parts@) == segments(path@),
{
    let chars = to_chars(path);
    let inner = trim_matches(chars.as_slice(), '/');
    let slash: [char; 1] = ['/'];
    assert(slash@ =~= seq!['/']);
    let pieces = split_chars(inner, slash.as_slice());
    let mut parts: Vec<String> = Vec::new();
    let mut i: usize = 0;
    while i < pieces.len()
        invariant
            i <= pieces.len(),
            parts.len() == i,
            forall|j: int| 0 <= j < i ==> parts[j]@ == pieces[j]@,
        decreases pieces.len() - i,
    {
        parts.push(to_string(pieces[i]));
        i += 1;
    }
    assert(texts(parts@) =~= crate::scan::views(pieces@));
    parts
}

/// A node of the routing trie.
pub struct RouteNode<H> {
    children: Vec<(String, RouteNode<H>)>,
    dynamic: Option<Box<RouteNode<H>>>,
    handler: Option<H>,
    param_name: Option<String>,
}

impl<H> RouteNode<H> {
    /// The literal child at position `i` is keyed by `key`.
    spec fn has_key(&self, key: Seq<char>, i: int) -> bool {
        0 <= i < self.children.len() && self.children[i].0@ == key
    }

    /// Position `i` is the first whose literal child is keyed by `key`.
    spec fn first_key(&self, key: Seq<char>, i: int) -> bool {
        self.has_key(key, i) && forall|j: int| 0 <= j < i ==> !self.has_key(key, j)
    }

    /// The first position whose literal child is keyed by `key`.
    spec fn index_of(&self, key: Seq<char>) -> int {
        choose|i: int| self.first_key(key, i)
    }

    /// The trie that this node and the nodes below it make up.
    pub closed spec fn model(&self) -> Trie<H>
        decreases self,
    {
        Trie {
            children: Map::new(
                |key: Seq<char>| exists|i: int| self.has_key(key, i),
                |key: Seq<char>|
                    {
                        let i = self.index_of(key);
                        if 0 <= i < self.children.len() {
                            self.children[i].1.model()
                        } else {
                            arbitrary()
                        }
                    },
            ),
            dynamic: match self.dynamic {
                Some(child) => Some(Box::new(child.model())),
                None => None,
            },
            handler: self.handler,
            param_name: match self.param_name {
                Some(name) => Some(name@),
                None => None,
            },
        }
    }

    /// A key that some literal child has is first had at `index_of`.
    proof fn lemma_index_of(&self, key: Seq<char>, i: int)
        requires
            self.has_key(key, i),
        ensures
            self.first_key(key, self.index_of(key)),
            self.index_of(key) <= i,
        decreases i,
    {
        if exists|j: int| 0 <= j < i && self.has_key(key, j) {
            let j = choose|j: int| 0 <= j < i && self.has_key(key, j);
            self.lemma_index_of(key, j);
        } else {
            assert(self.first_key(key, i));
        }
    }

    /// The model's child under a key is the model of the first literal
    /// child with that key.
    proof fn lemma_child(&self, key: Seq<char>, i: int)
        requires
            self.first_key(key, i),
        ensures
            self.model().children.contains_key(key),
            self.model().children[key] == self.children[i].1.model(),
    {
        self.lemma_index_of(key, i);
        let k = self.index_of(key);
        assert(self.first_key(key, k));
        if k < i {
            assert(self.has_key(key, k));
        }
    }

    /// Replacing the first literal child under `key` replaces the model's
    /// child under `key` and nothing else.
    proof fn lemma_replaced(&self, before: RouteNode<H>, key: Seq<char>, i: int)
        requires
            before.first_key(key, i),
            self.children.len() == before.children.len(),
            self.children[i].0@ == key,
            forall|j: int| 0 <= j < self.children.len() && j != i ==> self.children[j] == before.children[j],
            self.dynamic == before.dynamic,
            self.handler == before.handler,
            self.param_name == before.param_name,
        ensures
            self.model() == (Trie {
                children: before.model().children.insert(key, self.children[i].1.model()),
                ..before.model()
            }),
    {
        let mine = self.model().children;
        let theirs = before.model().children.insert(key, self.children[i].1.model());
        assert forall|k: Seq<char>, j: int| self.has_key(k, j) == before.has_key(k, j) by {}
        assert forall|k: Seq<char>| #[trigger] mine.contains_key(k) == theirs.contains_key(k) by {
            if mine.contains_key(k) {
                let j = choose|j: int| self.has_key(k, j);
                assert(before.has_key(k, j));
            }
            if before.model().children.contains_key(k) {
                let j = choose|j: int| before.has_key(k, j);
                assert(self.has_key(k, j));
            }
            if k == key {
                assert(self.has_key(k, i));
            }
        }
        assert forall|k: Seq<char>| mine.contains_key(k) implies #[trigger] mine[k] == theirs[k] by {
            let j = choose|j: int| self.has_key(k, j);
            self.lemma_index_of(k, j);
            let f = self.index_of(k);
            assert(before.first_key(k, f));
            self.lemma_child(k, f);
            before.lemma_child(k, f);
            if k == key {
                if f < i {
                    assert(before.has_key(key, f));
                }
                if i < f {
                    assert(self.has_key(key, i));
                }
            } else {
                assert(f != i);
            }
        }
        assert(mine =~= theirs);
    }

    /// Appending a literal child under a key that no child has adds the
    /// model's child under that key and nothing else.
    proof fn lemma_pushed(&self, before: RouteNode<H>, key: Seq<char>)
        requires
            forall|i: int| !before.has_key(key, i),
            self.children.len() == before.children.len() + 1,
            self.children[before.children.len() as int].0@ == key,
            forall|j: int| 0 <= j < before.children.len() ==> self.children[j] == before.children[j],
            self.dynamic == before.dynamic,
            self.handler == before.handler,
            self.param_name == before.param_name,
        ensures
            self.model() == (Trie {
                children: before.model().children.insert(
                    key,
                    self.children[before.children.len() as int].1.model(),
                ),
                ..before.model()
            }),
    {
        let last = before.children.len() as int;
        let mine = self.model().children;
        let theirs = before.model().children.insert(key, self.children[last].1.model());
        assert forall|k: Seq<char>, j: int|
            self.has_key(k, j) == (before.has_key(k, j) || (j == last && k == key)) by {}
        assert forall|k: Seq<char>| #[trigger] mine.contains_key(k) == theirs.contains_key(k) by {
            if mine.contains_key(k) {
                let j = choose|j: int| self.has_key(k, j);
                assert(before.has_key(k, j) || (j == last && k == key));
            }
            if before.model().children.contains_key(k) {
                let j = choose|j: int| before.has_key(k, j);
                assert(self.has_key(k, j));
            }
            if k == key {
                assert(self.has_key(k, last));
            }
        }
        assert forall|k: Seq<char>| mine.contains_key(k) implies #[trigger] mine[k] == theirs[k] by {
            let j = choose|j: int| self.has_key(k, j);
            self.lemma_index_of(k, j);
            let f = self.index_of(k);
            self.lemma_child(k, f);
            if k == key {
                if f < last {
                    assert(before.has_key(key, f));
                }
            } else {
                assert(before.has_key(k, f));
                assert(before.first_key(k, f)) by {
                    assert forall|m: int| 0 <= m < f implies !before.has_key(k, m) by {
                        assert(!self.has_key(k, m));
                    }
                }
                before.lemma_child(k, f);
            }
        }
        assert(mine =~= theirs);
    }

    /// Nodes with the same literal children have the same children in
    /// their models.
    proof fn lemma_same_children(&self, before: RouteNode<H>)
        requires
            self.children == before.children,
        ensures
            self.model().children == before.model().children,
    {
        let mine = self.model().children;
        let theirs = before.model().children;
        assert forall|k: Seq<char>, j: int| self.has_key(k, j) == before.has_key(k, j) by {}
        assert forall|k: Seq<char>| #[trigger] mine.contains_key(k) == theirs.contains_key(k) by {
            if mine.contains_key(k) {
                let j = choose|j: int| self.has_key(k, j);
                assert(before.has_key(k, j));
            }
            if theirs.contains_key(k) {
                let j = choose|j: int| before.has_key(k, j);
                assert(self.has_key(k, j));
            }
        }
        assert forall|k: Seq<char>| mine.contains_key(k) implies #[trigger] mine[k] == theirs[k] by {
            let j = choose|j: int| self.has_key(k, j);
            self.lemma_index_of(k, j);
            let f = self.index_of(k);
            assert(before.first_key(k, f));
            self.lemma_child(k, f);
            before.lemma_child(k, f);
        }
        assert(mine =~= theirs);
    }

    /// The model has no child under a key that no literal child has.
    proof fn lemma_no_child(&self, key: Seq<char>)
        requires
            forall|i: int| !self.has_key(key, i),
        ensures
            !self.model().children.contains_key(key),
    {
    }
}

impl<H> View for RouteNode<H> {
    type V = Trie<H>;

    closed spec fn view(&self) -> Trie<H> {
        self.model()
    }
}

impl<H> RouteNode<H> {
    /// A node without children, handler or name.
    pub fn new() -> (node: RouteNode<H>)
        ensures
            node@ == Trie::<H>::empty(),
    {
        let node = RouteNode { children: Vec::new(), dynamic: None, handler: None, param_name: None };
        assert(node.model().children =~= Map::empty());
        node
    }

    /// The first position whose literal child is keyed by `key`.
    fn child_index(&self, key: &String) -> (found: Option<usize>)
        ensures
            match found {
                Some(i) => self.first_key(key@, i as int),
                None => forall|i: int| !self.has_key(key@, i),
            },
    {
        let mut i: usize = 0;
        while i < self.children.len()
            invariant
                i <= self.children.len(),
                forall|j: int| 0 <= j < i ==> !self.has_key(key@, j),
            decreases self.children.len() - i,
        {
            if self.children[i].0 == *key {
                return Some(i);
            }
            i += 1;
        }
        None
    }

    /// Registers `handler` under the segments of a pattern from `depth` on,
    /// below this node.
    pub fn insert(&mut self, segments: &Vec<String>, depth: usize, handler: H)
        requires
            depth <= segments.len(),
        ensures
            final(self)@ == old(self)@.insert(texts(segments@).skip(depth as int), handler),
        decreases segments.len() - depth,
    {
        let ghost before = *self;
        let ghost pattern = texts(segments@).skip(depth as int);
        if depth == segments.len() {
            self.handler = Some(handler);
            proof {
                self.lemma_same_children(before);
            }
            return ;
        }
        assert(pattern[0] == segments[depth as int]@);
        assert(pattern.drop_first() =~= texts(segments@).skip(depth + 1));
        let chars = to_chars(segments[depth].as_str());
        if chars.len() > 0 && chars[0] == ':' {
            let name = to_string(&chars[1..chars.len()]);
            assert(name@ =~= pattern[0].drop_first());
            let mut child = match self.dynamic.take() {
                Some(boxed) => *boxed,
                None => RouteNode::new(),
            };
            let ghost unnamed = child;
            assert(unnamed.model() == before.model().dynamic_or_empty());
            child.param_name = Some(name);
            proof {
                child.lemma_same_children(unnamed);
            }
            assert(child.model() == before.model().dynamic_or_empty().named(name@));
            child.insert(segments, depth + 1, handler);
            self.dynamic = Some(Box::new(child));
            proof {
                self.lemma_same_children(before);
            }
        } else {
            assert(!is_dynamic(pattern[0]));
            match self.child_index(&segments[depth]) {
                Some(i) => {
                    proof {
                        before.lemma_child(pattern[0], i as int);
                    }
                    let (key, mut child) = self.children.remove(i);
                    child.insert(segments, depth + 1, handler);
                    self.children.insert(i, (key, child));
                    proof {
                        self.lemma_replaced(before, pattern[0], i as int);
                    }
                },
                None => {
                    proof {
                        before.lemma_no_child(pattern[0]);
                    }
                    let mut child = RouteNode::new();
                    child.insert(segments, depth + 1, handler);
                    self.children.push((segments[depth].clone(), child));
                    proof {
                        self.lemma_pushed(before, pattern[0]);
                    }
                },
            }
        }
    }

    /// Walks `segments` down from this node and gives the handler found at
    /// the end, with the parameters captured on the way.
    pub fn lookup<'a>(&'a self, segments: &Vec<String>) -> (found: (Option<&'a H>, StrMap))
        ensures
            (referent(found.0), found.1@) == self@.lookup(texts(segments@), Map::empty()),
    {
        let ghost path = texts(segments@);
        let mut node: &RouteNode<H> = self;
        let mut params = StrMap::new();
        let mut i: usize = 0;
        assert(path.skip(0) =~= path);
        while i < segments.len()
            invariant
                i <= segments.len(),
                path == texts(segments@),
                self@.lookup(path, Map::empty()) == node@.lookup(path.skip(i as int), params@),
            decreases segments.len() - i,
        {
            let ghost rest = path.skip(i as int);
            assert(rest.len() > 0);
            assert(rest[0] == segments[i as int]@);
            assert(rest.drop_first() =~= path.skip(i + 1));
            match node.child_index(&segments[i]) {
                Some(k) => {
                    proof {
                        node.lemma_child(rest[0], k as int);
                    }
                    node = &node.children[k].1;
                },
                None => {
                    proof {
                        node.lemma_no_child(rest[0]);
                    }
                    match &node.dynamic {
                        Some(child) => {
                            node = &**child;
                            if let Some(name) = &node.param_name {
                                params.insert(name.clone(), segments[i].clone());
                            }
                        },
                        None => {
                            return (None, params);
                        },
                    }
                },
            }
            i += 1;
        }
        (node.handler.as_ref(), params)
    }
}

/// The routes of a server: one trie for each method that has routes.
pub struct Router<H> {
    get: Option<RouteNode<H>>,
    post: Option<RouteNode<H>>,
    put: Option<RouteNode<H>>,
    delete: Option<RouteNode<H>>,
    patch: Option<RouteNode<H>>,
}

impl<H> Router<H> {
    /// The root of the trie of `method`, if the method has routes.
    spec fn root(&self, method: Method) -> Option<RouteNode<H>> {
        match method {
            Method::GET => self.get,
            Method::POST => self.post,
            Method::PUT => self.put,
            Method::DELETE => self.delete,
            Method::PATCH => self.patch,
        }
    }
}

impl<H> View for Router<H> {
    type V = Routes<H>;

    closed spec fn view(&self) -> Routes<H> {
        Map::new(
            |method: Method| self.root(method) is Some,
            |method: Method| self.root(method)->0.model(),
        )
    }
}

/// Registers `handler` under `segments` in the trie held in `slot`, which is
/// created if it is not there.
fn insert_under<H>(slot: &mut Option<RouteNode<H>>, segments: &Vec<String>, handler: H)
    ensures
        *final(slot) is Some,
        (*final(slot))->0@ == (match *old(slot) {
            Some(root) => root@,
            None => Trie::empty(),
        }).insert(texts(segments@), handler),
{
    let mut root = match slot.take() {
        Some(root) => root,
        None => RouteNode::new(),
    };
    assert(texts(segments@).skip(0) =~= texts(segments@));
    root.insert(segments, 0, handler);
    *slot = Some(root);
}

impl<H> Router<H> {
    /// A router without routes.
    pub fn new() -> (router: Router<H>)
        ensures
            router@ == Map::<Method, Trie<H>>::empty(),
    {
        let router = Router { get: None, post: None, put: None, delete: None, patch: None };
        assert(router@ =~= Map::<Method, Trie<H>>::empty());
        router
    }

    /// Registers `handler` for requests of `method` whose path matches the
    /// pattern `route`. A handler registered before under the same method
    /// and pattern is replaced.
    pub fn add_route(&mut self, method: Method, route: &str, handler: H)
        ensures
            final(self)@ == register(old(self)@, method, route@, handler),
    {
        let ghost before = *self;
        let segments = path_segments(route);
        match method {
            Method::GET => insert_under(&mut self.get, &segments, handler),
            Method::POST => insert_under(&mut self.post, &segments, handler),
            Method::PUT => insert_under(&mut self.put, &segments, handler),
            Method::DELETE => insert_under(&mut self.delete, &segments, handler),
            Method::PATCH => insert_under(&mut self.patch, &segments, handler),
        }
        proof {
            assert forall|m: Method| m != method implies self.root(m) == before.root(m) by {}
            assert(self@ =~= register(before@, method, route@, handler));
        }
    }

    /// Registers `handler` for `GET` requests that match `route`.
    pub fn get(&mut self, route: &str, handler: H)
        ensures
            final(self)@ == register(old(self)@, Method::GET, route@, handler),
    {
        self.add_route(Method::GET, route, handler)
    }

    /// Registers `handler` for `POST` requests that match `route`.
    pub fn post(&mut self, route: &str, handler: H)
        ensures
            final(self)@ == register(old(self)@, Method::POST, route@, handler),
    {
        self.add_route(Method::POST, route, handler)
    }

    /// Registers `handler` for `PUT` requests that match `route`.
    pub fn put(&mut self, route: &str, handler: H)
        ensures
            final(self)@ == register(old(self)@, Method::PUT, route@, handler),
    {
        self.add_route(Method::PUT, route, handler)
    }

    /// Registers `handler` for `DELETE` requests that match `route`.
    pub fn delete(&mut self, route: &str, handler: H)
        ensures
            final(self)@ == register(old(self)@, Method::DELETE, route@, handler),
    {
        self.add_route(Method::DELETE, route, handler)
    }

    /// The handler registered for `method` and `path`, if any, and the path
    /// parameters captured on the way. The router is left as it was, so that
    /// resolving again gives the same.
    pub fn resolve<'a>(&'a self, method: Method, path: &str) -> (found: (Option<&'a H>, StrMap))
        ensures
            (referent(found.0), found.1@) == resolution(self@, method, path@),
    {
        let segments = path_segments(path);
        let root = match method {
            Method::GET => &self.get,
            Method::POST => &self.post,
            Method::PUT => &self.put,
            Method::DELETE => &self.delete,
            Method::PATCH => &self.patch,
        };
        match root {
            Some(node) => node.lookup(&segments),
            None => (None, StrMap::new()),
        }
    }
}

} // verus!

//! What holds of registration and resolution, whatever the routes are.

use crate::method::Method;
use crate::trie::{
    is_dynamic, register, resolution, root_or_empty, segments, Params, Routes, Trie,
};
use vstd::prelude::*;

verus! {

/// No segment of the pattern captures a parameter.
pub open spec fn is_literal(pattern: Seq<Seq<char>>) -> bool {
    forall|i: int| 0 <= i < pattern.len() ==> !is_dynamic(#[trigger] pattern[i])
}

/// The bindings that a walk along `pattern` adds to `params`: each
/// capturing segment binds its name, without the colon, to the segment of
/// `path` at the same place. A name that comes twice keeps the later
/// segment.
pub open spec fn bindings(pattern: Seq<Seq<char>>, path: Seq<Seq<char>>, params: Params) -> Params
    decreases pattern.len(),
{
    if pattern.len() == 0 || path.len() == 0 {
        params
    } else if is_dynamic(pattern[0]) {
        bindings(
            pattern.drop_first(),
            path.drop_first(),
            params.insert(pattern[0].drop_first(), path[0]),
        )
    } else {
        bindings(pattern.drop_first(), path.drop_first(), params)
    }
}

/// The walk of `path` down from `trie` goes the way of `pattern`: the two
/// are as long, a literal segment of the pattern is met by the same text,
/// and where the pattern captures, the node has no literal child of the
/// segment's text, which would be preferred.
pub open spec fn follows<H>(trie: Trie<H>, pattern: Seq<Seq<char>>, path: Seq<Seq<char>>) -> bool
    decreases pattern.len(),
{
    if pattern.len() == 0 {
        path.len() == 0
    } else if path.len() == 0 {
        false
    } else if is_dynamic(pattern[0]) {
        &&& !trie.children.contains_key(path[0])
        &&& trie.dynamic is Some
        &&& follows(*trie.dynamic->0, pattern.drop_first(), path.drop_first())
    } else {
        &&& path[0] == pattern[0]
        &&& trie.children.contains_key(path[0])
        &&& follows(trie.children[path[0]], pattern.drop_first(), path.drop_first())
    }
}

/// A way down the trie: at each step the text of a literal child, or
/// `None` for the dynamic child.
pub type Way = Seq<Option<Seq<char>>>;

/// The way that a pattern names: its capturing segments go to the dynamic
/// child, the others to the literal child of their text.
pub open spec fn way_of(pattern: Seq<Seq<char>>) -> Way {
    Seq::new(
        pattern.len(),
        |i: int|
            if is_dynamic(pattern[i]) {
                None
            } else {
                Some(pattern[i])
            },
    )
}

/// The way that the walk of `path` takes down from `trie`, as far as it
/// gets.
pub open spec fn way_taken<H>(trie: Trie<H>, path: Seq<Seq<char>>) -> Way
    decreases path.len(),
{
    if path.len() == 0 {
        Seq::empty()
    } else if trie.children.contains_key(path[0]) {
        seq![Some(path[0])] + way_taken(trie.children[path[0]], path.drop_first())
    } else {
        match trie.dynamic {
            Some(child) => seq![None] + way_taken(*child, path.drop_first()),
            None => Seq::empty(),
        }
    }
}

/// `way` is as long as `path`, and each of its literal steps bears the text
/// of the path's segment at its place.
pub open spec fn admits(way: Way, path: Seq<Seq<char>>) -> bool {
    &&& way.len() == path.len()
    &&& forall|i: int| 0 <= i < way.len() ==> (#[trigger] way[i] matches Some(text) ==> text == path[i])
}

/// The handler bound at the end of `way` down from `trie`, if the way
/// exists and a handler is bound there.
pub open spec fn bound_at<H>(trie: Trie<H>, way: Way) -> Option<H>
    decreases way.len(),
{
    if way.len() == 0 {
        trie.handler
    } else {
        match way[0] {
            Some(text) => if trie.children.contains_key(text) {
                bound_at(trie.children[text], way.drop_first())
            } else {
                None
            },
            None => match trie.dynamic {
                Some(child) => bound_at(*child, way.drop_first()),
                None => None,
            },
        }
    }
}

/// The handler bound under `method` at the end of `way`, if any.
pub open spec fn bound<H>(routes: Routes<H>, method: Method, way: Way) -> Option<H> {
    if routes.contains_key(method) {
        bound_at(routes[method], way)
    } else {
        None
    }
}

/// Registration below a node leaves the node's own name as it was.
pub proof fn lemma_insert_keeps_name<H>(trie: Trie<H>, pattern: Seq<Seq<char>>, handler: H)
    ensures
        trie.insert(pattern, handler).param_name == trie.param_name,
{
}

/// A path whose walk goes the way of a pattern just registered resolves to
/// the handler registered, and captures what the pattern names.
pub proof fn lemma_lookup_after_insert<H>(
    trie: Trie<H>,
    pattern: Seq<Seq<char>>,
    path: Seq<Seq<char>>,
    handler: H,
    params: Params,
)
    requires
        follows(trie.insert(pattern, handler), pattern, path),
    ensures
        trie.insert(pattern, handler).lookup(path, params) == (
            Some(handler),
            bindings(pattern, path, params),
        ),
    decreases pattern.len(),
{
    if pattern.len() == 0 {
    } else if is_dynamic(pattern[0]) {
        let child = trie.dynamic_or_empty().named(pattern[0].drop_first());
        lemma_insert_keeps_name(child, pattern.drop_first(), handler);
        lemma_lookup_after_insert(
            child,
            pattern.drop_first(),
            path.drop_first(),
            handler,
            params.insert(pattern[0].drop_first(), path[0]),
        );
    } else {
        let child = trie.child_or_empty(pattern[0]);
        lemma_lookup_after_insert(child, pattern.drop_first(), path.drop_first(), handler, params);
    }
}

/// After a literal pattern is registered, the walk of the pattern itself
/// goes its way, and binds nothing.
pub proof fn lemma_literal_follows<H>(
    trie: Trie<H>,
    pattern: Seq<Seq<char>>,
    handler: H,
    params: Params,
)
    requires
        is_literal(pattern),
    ensures
        follows(trie.insert(pattern, handler), pattern, pattern),
        bindings(pattern, pattern, params) == params,
    decreases pattern.len(),
{
    if pattern.len() > 0 {
        assert(!is_dynamic(pattern[0]));
        let rest = pattern.drop_first();
        assert forall|i: int| 0 <= i < rest.len() implies !is_dynamic(#[trigger] rest[i]) by {
            assert(rest[i] == pattern[i + 1]);
        }
        lemma_literal_follows(trie.child_or_empty(pattern[0]), rest, handler, params);
    }
}

/// A name that no capturing segment of the pattern bears is bound after
/// the walk as it was before.
pub proof fn lemma_bindings_keep(
    pattern: Seq<Seq<char>>,
    path: Seq<Seq<char>>,
    params: Params,
    name: Seq<char>,
)
    requires
        forall|j: int|
            0 <= j < pattern.len() && is_dynamic(#[trigger] pattern[j]) ==> pattern[j].drop_first()
                != name,
    ensures
        bindings(pattern, path, params).contains_key(name) == params.contains_key(name),
        params.contains_key(name) ==> bindings(pattern, path, params)[name] == params[name],
    decreases pattern.len(),
{
    if pattern.len() == 0 || path.len() == 0 {
    } else {
        let rest = pattern.drop_first();
        assert forall|j: int| 0 <= j < rest.len() && is_dynamic(#[trigger] rest[j]) implies rest[j].drop_first()
            != name by {
            assert(rest[j] == pattern[j + 1]);
        }
        if is_dynamic(pattern[0]) {
            lemma_bindings_keep(
                rest,
                path.drop_first(),
                params.insert(pattern[0].drop_first(), path[0]),
                name,
            );
        } else {
            lemma_bindings_keep(rest, path.drop_first(), params, name);
        }
    }
}

/// The capturing segment at `at` binds its name to the segment of the path
/// at `at`, unless a later capturing segment bears the same name.
pub proof fn lemma_binding_at(
    pattern: Seq<Seq<char>>,
    path: Seq<Seq<char>>,
    at: int,
    params: Params,
)
    requires
        pattern.len() == path.len(),
        0 <= at < pattern.len(),
        is_dynamic(pattern[at]),
        forall|j: int|
            at < j < pattern.len() && is_dynamic(#[trigger] pattern[j]) ==> pattern[j].drop_first()
                != pattern[at].drop_first(),
    ensures
        bindings(pattern, path, params).contains_key(pattern[at].drop_first()),
        bindings(pattern, path, params)[pattern[at].drop_first()] == path[at],
    decreases pattern.len(),
{
    let name = pattern[at].drop_first();
    let rest = pattern.drop_first();
    if at == 0 {
        assert forall|j: int| 0 <= j < rest.len() && is_dynamic(#[trigger] rest[j]) implies rest[j].drop_first()
            != name by {
            assert(rest[j] == pattern[j + 1]);
        }
        lemma_bindings_keep(rest, path.drop_first(), params.insert(name, path[0]), name);
    } else {
        assert(rest[at - 1] == pattern[at]);
        assert(path.drop_first()[at - 1] == path[at]);
        assert forall|j: int|
            at - 1 < j < rest.len() && is_dynamic(#[trigger] rest[j]) implies rest[j].drop_first()
            != rest[at - 1].drop_first() by {
            assert(rest[j] == pattern[j + 1]);
        }
        if is_dynamic(pattern[0]) {
            lemma_binding_at(
                rest,
                path.drop_first(),
                at - 1,
                params.insert(pattern[0].drop_first(), path[0]),
            );
        } else {
            lemma_binding_at(rest, path.drop_first(), at - 1, params);
        }
    }
}

/// Registering twice under one pattern leaves the trie that the second
/// registration alone would have made.
pub proof fn lemma_insert_twice<H>(trie: Trie<H>, pattern: Seq<Seq<char>>, first: H, second: H)
    ensures
        trie.insert(pattern, first).insert(pattern, second) == trie.insert(pattern, second),
    decreases pattern.len(),
{
    let once = trie.insert(pattern, first);
    if pattern.len() == 0 {
    } else if is_dynamic(pattern[0]) {
        let name = pattern[0].drop_first();
        let child = trie.dynamic_or_empty().named(name);
        let grown = child.insert(pattern.drop_first(), first);
        lemma_insert_keeps_name(child, pattern.drop_first(), first);
        assert(once.dynamic_or_empty().named(name) == grown);
        lemma_insert_twice(child, pattern.drop_first(), first, second);
    } else {
        let child = trie.child_or_empty(pattern[0]);
        let grown = child.insert(pattern.drop_first(), first);
        assert(once.child_or_empty(pattern[0]) == grown);
        lemma_insert_twice(child, pattern.drop_first(), first, second);
        assert(once.children.insert(pattern[0], grown.insert(pattern.drop_first(), second))
            =~= trie.children.insert(pattern[0], child.insert(pattern.drop_first(), second)));
    }
}

/// The empty trie binds no handler anywhere.
pub proof fn lemma_empty_binds_nothing<H>(way: Way)
    ensures
        bound_at(Trie::<H>::empty(), way) is None,
{
}

/// Naming a node changes nothing of what is bound at or below it.
pub proof fn lemma_named_binds_alike<H>(trie: Trie<H>, name: Seq<char>, way: Way)
    ensures
        bound_at(trie.named(name), way) == bound_at(trie, way),
{
}

/// Registration binds the handler at the way of its pattern, and leaves
/// what is bound at every other way as it was.
pub proof fn lemma_insert_binds<H>(trie: Trie<H>, pattern: Seq<Seq<char>>, handler: H, way: Way)
    ensures
        bound_at(trie.insert(pattern, handler), way) == if way == way_of(pattern) {
            Some(handler)
        } else {
            bound_at(trie, way)
        },
    decreases pattern.len(),
{
    if pattern.len() == 0 {
        assert(way_of(pattern) =~= Seq::<Option<Seq<char>>>::empty());
        if way.len() == 0 {
            assert(way =~= way_of(pattern));
        }
    } else {
        let rest = pattern.drop_first();
        assert(way_of(pattern).drop_first() =~= way_of(rest));
        if way.len() == 0 {
        } else {
            let tail = way.drop_first();
            assert(way =~= seq![way[0]] + tail);
            assert(way_of(pattern) =~= seq![way_of(pattern)[0]] + way_of(rest));
            if is_dynamic(pattern[0]) {
                let name = pattern[0].drop_first();
                let child = trie.dynamic_or_empty().named(name);
                if way[0] is None {
                    lemma_insert_binds(child, rest, handler, tail);
                    lemma_named_binds_alike(trie.dynamic_or_empty(), name, tail);
                    lemma_empty_binds_nothing::<H>(tail);
                }
            } else {
                let child = trie.child_or_empty(pattern[0]);
                if way[0] == Some(pattern[0]) {
                    lemma_insert_binds(child, rest, handler, tail);
                    lemma_empty_binds_nothing::<H>(tail);
                }
            }
        }
    }
}

/// A path resolves to a handler only if that handler is bound at the way
/// its walk takes, and that way admits the path: a path that no registered
/// pattern admits resolves to nothing.
pub proof fn lemma_found_is_bound<H>(trie: Trie<H>, path: Seq<Seq<char>>, params: Params)
    requires
        trie.lookup(path, params).0 is Some,
    ensures
        admits(way_taken(trie, path), path),
        bound_at(trie, way_taken(trie, path)) == trie.lookup(path, params).0,
    decreases path.len(),
{
    if path.len() == 0 {
    } else if trie.children.contains_key(path[0]) {
        let child = trie.children[path[0]];
        lemma_found_is_bound(child, path.drop_first(), params);
        let rest = way_taken(child, path.drop_first());
        let way = way_taken(trie, path);
        assert(way.drop_first() =~= rest);
        assert forall|i: int| 0 <= i < way.len() implies (#[trigger] way[i] matches Some(text)
            ==> text == path[i]) by {
            if i > 0 {
                assert(way[i] == rest[i - 1]);
                assert(path[i] == path.drop_first()[i - 1]);
            }
        }
    } else {
        let child = *trie.dynamic->0;
        lemma_found_is_bound(child, path.drop_first(), child.bind(path[0], params));
        let rest = way_taken(child, path.drop_first());
        let way = way_taken(trie, path);
        assert(way.drop_first() =~= rest);
        assert forall|i: int| 0 <= i < way.len() implies (#[trigger] way[i] matches Some(text)
            ==> text == path[i]) by {
            if i > 0 {
                assert(way[i] == rest[i - 1]);
                assert(path[i] == path.drop_first()[i - 1]);
            }
        }
    }
}

/// A path whose walk goes the way of a pattern resolves to what is bound
/// at the way of that pattern, whatever was registered since.
pub proof fn lemma_follows_resolves<H>(
    trie: Trie<H>,
    pattern: Seq<Seq<char>>,
    path: Seq<Seq<char>>,
    params: Params,
)
    requires
        follows(trie, pattern, path),
    ensures
        trie.lookup(path, params).0 == bound_at(trie, way_of(pattern)),
    decreases pattern.len(),
{
    if pattern.len() == 0 {
        assert(way_of(pattern) =~= Seq::<Option<Seq<char>>>::empty());
    } else {
        let rest = pattern.drop_first();
        assert(way_of(pattern).drop_first() =~= way_of(rest));
        if is_dynamic(pattern[0]) {
            let child = *trie.dynamic->0;
            lemma_follows_resolves(child, rest, path.drop_first(), child.bind(path[0], params));
        } else {
            lemma_follows_resolves(trie.children[path[0]], rest, path.drop_first(), params);
        }
    }
}

/// Where a handler is bound at the way of a literal pattern, the walk of
/// the pattern itself goes that way, and binds no parameter.
pub proof fn lemma_bound_literal_follows<H>(trie: Trie<H>, pattern: Seq<Seq<char>>, params: Params)
    requires
        is_literal(pattern),
        bound_at(trie, way_of(pattern)) is Some,
    ensures
        follows(trie, pattern, pattern),
        trie.lookup(pattern, params).1 == params,
    decreases pattern.len(),
{
    if pattern.len() > 0 {
        assert(!is_dynamic(pattern[0]));
        let rest = pattern.drop_first();
        assert(way_of(pattern).drop_first() =~= way_of(rest));
        assert(way_of(pattern)[0] == Some(pattern[0]));
        assert forall|i: int| 0 <= i < rest.len() implies !is_dynamic(#[trigger] rest[i]) by {
            assert(rest[i] == pattern[i + 1]);
        }
        lemma_bound_literal_follows(trie.children[pattern[0]], rest, params);
    }
}

/// A literal path that is registered resolves to the handler registered
/// for it, with no parameter bound.
pub proof fn lemma_resolve_literal<H>(
    routes: Routes<H>,
    method: Method,
    path: Seq<char>,
    handler: H,
)
    requires
        is_literal(segments(path)),
    ensures
        resolution(register(routes, method, path, handler), method, path) == (
            Some(handler),
            Map::<Seq<char>, Seq<char>>::empty(),
        ),
{
    let root = root_or_empty(routes, method);
    lemma_literal_follows(root, segments(path), handler, Map::empty());
    lemma_lookup_after_insert(root, segments(path), segments(path), handler, Map::empty());
}

/// A path whose walk goes the way of a registered pattern resolves to the
/// handler registered, and each capturing segment of the pattern binds its
/// name to the very text of the path's segment at its place.
pub proof fn lemma_resolve_pattern<H>(
    routes: Routes<H>,
    method: Method,
    pattern: Seq<char>,
    path: Seq<char>,
    handler: H,
)
    requires
        follows(
            register(routes, method, pattern, handler)[method],
            segments(pattern),
            segments(path),
        ),
    ensures
        resolution(register(routes, method, pattern, handler), method, path) == (
            Some(handler),
            bindings(segments(pattern), segments(path), Map::empty()),
        ),
{
    let root = root_or_empty(routes, method);
    lemma_lookup_after_insert(root, segments(pattern), segments(path), handler, Map::empty());
}

/// Registering the same method and path twice leaves the routes that the
/// second registration alone would have made: the first handler is gone.
pub proof fn lemma_register_twice<H>(
    routes: Routes<H>,
    method: Method,
    path: Seq<char>,
    first: H,
    second: H,
)
    ensures
        register(register(routes, method, path, first), method, path, second) == register(
            routes,
            method,
            path,
            second,
        ),
{
    lemma_insert_twice(root_or_empty(routes, method), segments(path), first, second);
    assert(register(register(routes, method, path, first), method, path, second) =~= register(
        routes,
        method,
        path,
        second,
    ));
}

/// Without routes nothing resolves.
pub proof fn lemma_resolve_without_routes<H>(method: Method, path: Seq<char>)
    ensures
        resolution(Map::<Method, Trie<H>>::empty(), method, path) == (
            None::<H>,
            Map::<Seq<char>, Seq<char>>::empty(),
        ),
{
}

/// A method under which nothing was registered resolves no path.
pub proof fn lemma_resolve_unregistered_method<H>(
    routes: Routes<H>,
    method: Method,
    path: Seq<char>,
)
    requires
        !routes.contains_key(method),
    ensures
        resolution(routes, method, path) == (None::<H>, Map::<Seq<char>, Seq<char>>::empty()),
{
}

/// Registration under one method changes no resolution under another, and
/// gives the other method no routes.
pub proof fn lemma_register_other_method<H>(
    routes: Routes<H>,
    method: Method,
    pattern: Seq<char>,
    handler: H,
    other: Method,
    path: Seq<char>,
)
    requires
        other != method,
    ensures
        register(routes, method, pattern, handler).contains_key(other) == routes.contains_key(
            other,
        ),
        resolution(register(routes, method, pattern, handler), other, path) == resolution(
            routes,
            other,
            path,
        ),
{
}

/// Resolution depends on the routes, the method and the path alone: as long
/// as nothing is registered, resolving again gives the same handler and the
/// same parameters.
pub proof fn lemma_resolving_again_gives_the_same<H>(
    first: Routes<H>,
    second: Routes<H>,
    method: Method,
    path: Seq<char>,
)
    requires
        second == first,
    ensures
        resolution(second, method, path) == resolution(first, method, path),
{
}

/// Without routes no handler is bound.
pub proof fn lemma_nothing_bound_without_routes<H>(method: Method, way: Way)
    ensures
        bound(Map::<Method, Trie<H>>::empty(), method, way) is None,
{
}

/// Registration binds the handler under its method at the way of its
/// pattern, in place of what was bound there, and changes what is bound
/// nowhere else.
pub proof fn lemma_register_binds<H>(
    routes: Routes<H>,
    method: Method,
    pattern: Seq<char>,
    handler: H,
    other: Method,
    way: Way,
)
    ensures
        bound(register(routes, method, pattern, handler), other, way) == if other == method && way
            == way_of(segments(pattern)) {
            Some(handler)
        } else {
            bound(routes, other, way)
        },
{
    if other == method {
        lemma_insert_binds(root_or_empty(routes, method), segments(pattern), handler, way);
        lemma_empty_binds_nothing::<H>(way);
    }
}

/// A path resolves to a handler only if the handler is bound under the
/// method at a way that admits the path.
pub proof fn lemma_resolved_is_bound<H>(routes: Routes<H>, method: Method, path: Seq<char>)
    requires
        resolution(routes, method, path).0 is Some,
    ensures
        admits(way_taken(routes[method], segments(path)), segments(path)),
        bound(routes, method, way_taken(routes[method], segments(path))) == resolution(
            routes,
            method,
            path,
        ).0,
{
    lemma_found_is_bound(routes[method], segments(path), Map::empty());
}

/// A literal path under which a handler is bound resolves to that handler,
/// with no parameter bound, whatever else was registered before or since.
pub proof fn lemma_bound_literal_resolves<H>(routes: Routes<H>, method: Method, path: Seq<char>)
    requires
        is_literal(segments(path)),
        bound(routes, method, way_of(segments(path))) is Some,
    ensures
        resolution(routes, method, path) == (
            bound(routes, method, way_of(segments(path))),
            Map::<Seq<char>, Seq<char>>::empty(),
        ),
{
    lemma_bound_literal_follows(routes[method], segments(path), Map::empty());
    lemma_follows_resolves(routes[method], segments(path), segments(path), Map::empty());
}

/// A path whose walk goes the way of a pattern resolves to what is bound
/// under the method at the way of that pattern.
pub proof fn lemma_following_path_resolves<H>(
    routes: Routes<H>,
    method: Method,
    pattern: Seq<char>,
    path: Seq<char>,
)
    requires
        routes.contains_key(method),
        follows(routes[method], segments(pattern), segments(path)),
    ensures
        resolution(routes, method, path).0 == bound(routes, method, way_of(segments(pattern))),
{
    lemma_follows_resolves(routes[method], segments(pattern), segments(path), Map::empty());
}

} // verus!

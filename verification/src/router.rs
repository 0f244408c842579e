//! The routing trie: handlers keyed by method and path pattern.
//!
//! A router is modelled as a mapping from node paths to nodes. A node path is
//! the sequence of segment keys that leads from the root to the node; the
//! root has the empty path, and with every node all nodes above it are in
//! the mapping. [`with_route`] says how a registration changes the mapping
//! and [`resolution`] what a lookup finds in it.

use crate::pattern::{
    collect_offsets, param_offsets, regex_captures, regex_compiles, regex_first_groups,
    regex_new, regex_replace_all, regex_replaced, regex_source,
};
use crate::request::HTTPMethod;
use crate::string_map::StringMap;
use crate::text::{from_chars, split, split_chars, to_chars, views};
use regex::Regex;
use vstd::prelude::*;

verus! {

// ---------------------------------------------------------------------------
// The model
// ---------------------------------------------------------------------------

/// The key that stands for "any parameter segment here".
pub open spec fn wildcard() -> Seq<char> {
    seq!['*']
}

/// The key under which an empty segment is kept.
pub open spec fn root_key() -> Seq<char> {
    seq!['/']
}

/// The expression that finds parameter tokens: a colon and a name made of
/// lower-case letters, digits and underscores.
pub open spec fn param_pattern() -> Seq<char> {
    ":([a-z0-9_]+)"@
}

/// The segment keys of a path: its `/`-separated segments, an empty segment
/// counting as [`root_key`].
pub open spec fn route_keys(path: Seq<char>) -> Seq<Seq<char>> {
    let segments = split(path, seq!['/']);
    Seq::new(
        segments.len(),
        |i: int|
            if segments[i].len() == 0 {
                root_key()
            } else {
                segments[i]
            },
    )
}

/// What one node of the trie holds: a handler for each method that has one,
/// keyed by the method's text, and the parameter offsets that were
/// registered at this node.
pub struct RouteNode<H> {
    pub handlers: Map<Seq<char>, H>,
    pub params: Map<Seq<char>, usize>,
}

impl<H> RouteNode<H> {
    /// A node without handlers and without parameters.
    pub open spec fn empty() -> Self {
        RouteNode { handlers: Map::empty(), params: Map::empty() }
    }
}

/// Where a walk from the node at path `at` along `keys[t..]` ends, and
/// whether it used up all the keys. At each level a child under the very key
/// is preferred to the child under the wildcard; where there is neither, the
/// walk stops.
pub open spec fn reach<H>(
    routes: Map<Seq<Seq<char>>, RouteNode<H>>,
    at: Seq<Seq<char>>,
    keys: Seq<Seq<char>>,
    t: int,
) -> (Seq<Seq<char>>, bool)
    decreases keys.len() - t,
{
    if t < 0 || t >= keys.len() {
        (at, true)
    } else if routes.contains_key(at.push(keys[t])) {
        reach(routes, at.push(keys[t]), keys, t + 1)
    } else if routes.contains_key(at.push(wildcard())) {
        reach(routes, at.push(wildcard()), keys, t + 1)
    } else {
        (at, false)
    }
}

/// What a lookup of `method` and `path` gives: the handler, if the walk used
/// up the whole path and the node it reached has one for the method, and in
/// any case the parameter offsets of the node at which the walk ended.
pub open spec fn resolution<H>(
    routes: Map<Seq<Seq<char>>, RouteNode<H>>,
    method: HTTPMethod,
    path: Seq<char>,
) -> (Option<H>, Map<Seq<char>, usize>) {
    let (at, complete) = reach(routes, Seq::empty(), route_keys(path), 0);
    let node = routes[at];
    (
        if complete && node.handlers.contains_key(method.spec_text()) {
            Some(node.handlers[method.spec_text()])
        } else {
            None
        },
        node.params,
    )
}

/// The routes after a registration at the node path `keys`: every node on
/// the way there exists, new ones being empty; the node at `keys` has
/// `handler` for `method`, in place of any earlier handler for that method,
/// and has `params` merged into its parameter offsets. Nothing else changes.
pub open spec fn with_route<H>(
    routes: Map<Seq<Seq<char>>, RouteNode<H>>,
    keys: Seq<Seq<char>>,
    method: HTTPMethod,
    params: Map<Seq<char>, usize>,
    handler: H,
) -> Map<Seq<Seq<char>>, RouteNode<H>> {
    Map::new(
        |p: Seq<Seq<char>>| routes.contains_key(p) || p.is_prefix_of(keys),
        |p: Seq<Seq<char>>|
            {
                let before = if routes.contains_key(p) {
                    routes[p]
                } else {
                    RouteNode::empty()
                };
                if p == keys {
                    RouteNode {
                        handlers: before.handlers.insert(method.spec_text(), handler),
                        params: before.params.union_prefer_right(params),
                    }
                } else {
                    before
                }
            },
    )
}

// ---------------------------------------------------------------------------
// The trie
// ---------------------------------------------------------------------------

/// One node of the trie. Children are named by their index in the router's
/// list of nodes.
struct TrieNode<H> {
    params: StringMap<usize>,
    children: StringMap<usize>,
    handlers: StringMap<H>,
    path: Ghost<Seq<Seq<char>>>,
}

spec fn path_of<H>(nodes: Seq<TrieNode<H>>, i: int) -> Seq<Seq<char>> {
    nodes[i].path@
}

spec fn has_child<H>(nodes: Seq<TrieNode<H>>, i: int, key: Seq<char>) -> bool {
    nodes[i].children@.contains_key(key)
}

spec fn child<H>(nodes: Seq<TrieNode<H>>, i: int, key: Seq<char>) -> int {
    nodes[i].children@[key] as int
}

spec fn has_node<H>(nodes: Seq<TrieNode<H>>, p: Seq<Seq<char>>) -> bool {
    exists|i: int| 0 <= i < nodes.len() && #[trigger] path_of(nodes, i) == p
}

spec fn node_at<H>(nodes: Seq<TrieNode<H>>, p: Seq<Seq<char>>) -> int {
    choose|i: int| 0 <= i < nodes.len() && #[trigger] path_of(nodes, i) == p
}

spec fn model_of<H>(node: TrieNode<H>) -> RouteNode<H> {
    RouteNode { handlers: node.handlers@, params: node.params@ }
}

spec fn has_parent<H>(nodes: Seq<TrieNode<H>>, j: int) -> bool {
    exists|i: int|
        0 <= i < nodes.len() && #[trigger] path_of(nodes, i) == path_of(nodes, j).drop_last()
            && has_child(nodes, i, path_of(nodes, j).last())
}

/// The nodes form a tree under node 0: no two nodes have the same path, each
/// child entry leads to the node whose path is one key longer, and each node
/// but the root is some node's child.
#[verifier::opaque]
spec fn is_trie<H>(nodes: Seq<TrieNode<H>>) -> bool {
    &&& nodes.len() >= 1
    &&& path_of(nodes, 0) == Seq::<Seq<char>>::empty()
    &&& forall|i: int, j: int|
        #![trigger path_of(nodes, i), path_of(nodes, j)]
        0 <= i < nodes.len() && 0 <= j < nodes.len() && path_of(nodes, i) == path_of(nodes, j)
            ==> i == j
    &&& forall|i: int, key: Seq<char>|
        0 <= i < nodes.len() && #[trigger] has_child(nodes, i, key) ==> 0 <= child(nodes, i, key)
            < nodes.len() && path_of(nodes, child(nodes, i, key)) == path_of(nodes, i).push(key)
    &&& forall|j: int|
        0 <= j < nodes.len() && (#[trigger] path_of(nodes, j)).len() > 0 ==> has_parent(nodes, j)
}

#[verifier::opaque]
spec fn routes_of<H>(nodes: Seq<TrieNode<H>>) -> Map<Seq<Seq<char>>, RouteNode<H>> {
    Map::new(
        |p: Seq<Seq<char>>| has_node(nodes, p),
        |p: Seq<Seq<char>>| model_of(nodes[node_at(nodes, p)]),
    )
}

proof fn lemma_root<H>(nodes: Seq<TrieNode<H>>)
    requires
        is_trie(nodes),
    ensures
        nodes.len() >= 1,
        path_of(nodes, 0) == Seq::<Seq<char>>::empty(),
        routes_of(nodes).contains_key(Seq::empty()),
        routes_of(nodes)[Seq::empty()] == model_of(nodes[0]),
{
    reveal(is_trie);
    lemma_node_at(nodes, 0);
}

proof fn lemma_node_at<H>(nodes: Seq<TrieNode<H>>, i: int)
    requires
        is_trie(nodes),
        0 <= i < nodes.len(),
    ensures
        has_node(nodes, path_of(nodes, i)),
        node_at(nodes, path_of(nodes, i)) == i,
        routes_of(nodes).contains_key(path_of(nodes, i)),
        routes_of(nodes)[path_of(nodes, i)] == model_of(nodes[i]),
{
    reveal(is_trie);
    reveal(routes_of);
    let p = path_of(nodes, i);
    assert(has_node(nodes, p));
    let c = node_at(nodes, p);
    assert(path_of(nodes, c) == path_of(nodes, i));
}

/// A node has a child under `key` exactly if the trie has a node whose path
/// is the node's path and then `key`; the child entry leads to that node.
proof fn lemma_child<H>(nodes: Seq<TrieNode<H>>, i: int, key: Seq<char>)
    requires
        is_trie(nodes),
        0 <= i < nodes.len(),
    ensures
        has_child(nodes, i, key) == routes_of(nodes).contains_key(path_of(nodes, i).push(key)),
        has_child(nodes, i, key) ==> 0 <= child(nodes, i, key) < nodes.len() && path_of(
            nodes,
            child(nodes, i, key),
        ) == path_of(nodes, i).push(key),
{
    reveal(is_trie);
    reveal(routes_of);
    let longer = path_of(nodes, i).push(key);
    if has_child(nodes, i, key) {
        assert(path_of(nodes, child(nodes, i, key)) == longer);
        assert(has_node(nodes, longer));
    }
    if has_node(nodes, longer) {
        let j = node_at(nodes, longer);
        assert(path_of(nodes, j).len() > 0);
        assert(has_parent(nodes, j));
        let parent = choose|parent: int|
            0 <= parent < nodes.len() && #[trigger] path_of(nodes, parent) == path_of(
                nodes,
                j,
            ).drop_last() && has_child(nodes, parent, path_of(nodes, j).last());
        assert(longer.drop_last() =~= path_of(nodes, i));
        assert(longer.last() == key);
        assert(path_of(nodes, parent) == path_of(nodes, i));
        assert(parent == i);
    }
}

/// The routes once the first `t` keys of `keys` have their nodes: the routes
/// from before, and an empty node at each prefix of `keys[..t]` that had
/// none.
#[verifier::opaque]
spec fn grown<H>(
    routes: Map<Seq<Seq<char>>, RouteNode<H>>,
    keys: Seq<Seq<char>>,
    t: int,
) -> Map<Seq<Seq<char>>, RouteNode<H>> {
    Map::new(
        |p: Seq<Seq<char>>| routes.contains_key(p) || (p.is_prefix_of(keys) && p.len() <= t),
        |p: Seq<Seq<char>>|
            if routes.contains_key(p) {
                routes[p]
            } else {
                RouteNode::empty()
            },
    )
}

proof fn lemma_grown_start<H>(routes: Map<Seq<Seq<char>>, RouteNode<H>>, keys: Seq<Seq<char>>)
    requires
        routes.contains_key(Seq::empty()),
    ensures
        grown(routes, keys, 0) == routes,
{
    reveal(grown);
    assert forall|p: Seq<Seq<char>>| p.is_prefix_of(keys) && p.len() <= 0 implies routes.contains_key(
        p,
    ) by {
        assert(p =~= Seq::<Seq<char>>::empty());
    }
    assert(routes =~= grown(routes, keys, 0));
}

proof fn lemma_grown_step<H>(routes: Map<Seq<Seq<char>>, RouteNode<H>>, keys: Seq<Seq<char>>, t: int)
    requires
        0 <= t < keys.len(),
    ensures
        grown(routes, keys, t).contains_key(keys.take(t + 1)) ==> grown(routes, keys, t + 1)
            == grown(routes, keys, t),
        !grown(routes, keys, t).contains_key(keys.take(t + 1)) ==> grown(routes, keys, t + 1)
            == grown(routes, keys, t).insert(keys.take(t + 1), RouteNode::empty()),
{
    reveal(grown);
    let longer = keys.take(t + 1);
    assert(longer.is_prefix_of(keys));
    assert forall|p: Seq<Seq<char>>| p.is_prefix_of(keys) && p.len() <= t + 1 implies (
    p.is_prefix_of(keys) && p.len() <= t) || p == longer by {
        if p.len() == t + 1 {
            assert(p =~= longer);
        }
    }
    if grown(routes, keys, t).contains_key(longer) {
        assert(grown(routes, keys, t + 1) =~= grown(routes, keys, t));
    } else {
        assert(grown(routes, keys, t + 1) =~= grown(routes, keys, t).insert(
            longer,
            RouteNode::empty(),
        ));
    }
}

proof fn lemma_grown_end<H>(
    routes: Map<Seq<Seq<char>>, RouteNode<H>>,
    keys: Seq<Seq<char>>,
    method: HTTPMethod,
    params: Map<Seq<char>, usize>,
    handler: H,
)
    requires
        grown(routes, keys, keys.len() as int).contains_key(keys),
    ensures
        with_route(routes, keys, method, params, handler) == grown(
            routes,
            keys,
            keys.len() as int,
        ).insert(
            keys,
            RouteNode {
                handlers: grown(routes, keys, keys.len() as int)[keys].handlers.insert(
                    method.spec_text(),
                    handler,
                ),
                params: grown(routes, keys, keys.len() as int)[keys].params.union_prefer_right(
                    params,
                ),
            },
        ),
{
    reveal(grown);
    assert(with_route(routes, keys, method, params, handler) =~= grown(
        routes,
        keys,
        keys.len() as int,
    ).insert(
        keys,
        RouteNode {
            handlers: grown(routes, keys, keys.len() as int)[keys].handlers.insert(
                method.spec_text(),
                handler,
            ),
            params: grown(routes, keys, keys.len() as int)[keys].params.union_prefer_right(
                params,
            ),
        },
    ));
}

/// `after` is `before` with one more node, a fresh child of node `at` under
/// `key`.
spec fn adds_child<H>(before: Seq<TrieNode<H>>, after: Seq<TrieNode<H>>, at: int, key: Seq<char>) -> bool {
    &&& 0 <= at < before.len() <= usize::MAX
    &&& after.len() == before.len() + 1
    &&& forall|i: int| 0 <= i < before.len() && i != at ==> #[trigger] after[i] == before[i]
    &&& after[at].path@ == before[at].path@
    &&& after[at].params == before[at].params
    &&& after[at].handlers == before[at].handlers
    &&& after[at].children@ == before[at].children@.insert(key, before.len() as usize)
    &&& after[before.len() as int].path@ == before[at].path@.push(key)
    &&& after[before.len() as int].children@ == Map::<Seq<char>, usize>::empty()
    &&& model_of(after[before.len() as int]) == RouteNode::<H>::empty()
}

proof fn lemma_adds_child<H>(
    before: Seq<TrieNode<H>>,
    after: Seq<TrieNode<H>>,
    at: int,
    key: Seq<char>,
)
    requires
        is_trie(before),
        adds_child(before, after, at, key),
        !has_child(before, at, key),
    ensures
        is_trie(after),
        routes_of(after) == routes_of(before).insert(
            path_of(before, at).push(key),
            RouteNode::empty(),
        ),
{
    reveal(is_trie);
    reveal(routes_of);
    let n = before.len() as int;
    let longer = path_of(before, at).push(key);
    lemma_child(before, at, key);
    assert(!has_node(before, longer));
    assert forall|i: int| 0 <= i < n implies path_of(after, i) == path_of(before, i) by {}
    assert forall|i: int, j: int|
        #![trigger path_of(after, i), path_of(after, j)]
        0 <= i < after.len() && 0 <= j < after.len() && path_of(after, i) == path_of(
            after,
            j,
        ) implies i == j by {
        if i < n && j < n {
            assert(path_of(before, i) == path_of(before, j));
        } else if i < n {
            assert(path_of(before, i) == longer);
        } else if j < n {
            assert(path_of(before, j) == longer);
        }
    }
    assert forall|i: int, k: Seq<char>|
        0 <= i < after.len() && #[trigger] has_child(after, i, k) implies 0 <= child(after, i, k)
            < after.len() && path_of(after, child(after, i, k)) == path_of(after, i).push(k) by {
        if i == at {
            if k != key {
                assert(has_child(before, i, k));
            }
        } else if i < n {
            assert(has_child(before, i, k));
        }
    }
    assert forall|j: int|
        0 <= j < after.len() && (#[trigger] path_of(after, j)).len() > 0 implies has_parent(
            after,
            j,
        ) by {
        if j < n {
            assert(has_parent(before, j));
            let i = choose|i: int|
                0 <= i < before.len() && #[trigger] path_of(before, i) == path_of(
                    before,
                    j,
                ).drop_last() && has_child(before, i, path_of(before, j).last());
            assert(path_of(after, i) == path_of(after, j).drop_last());
            assert(has_child(after, i, path_of(after, j).last()));
        } else {
            assert(longer.drop_last() =~= path_of(before, at));
            assert(path_of(after, at) == path_of(after, j).drop_last());
            assert(has_child(after, at, path_of(after, j).last()));
        }
    }
    assert(is_trie(after));
    assert forall|p: Seq<Seq<char>>| has_node(after, p) == (has_node(before, p) || p
        == longer) by {
        if has_node(after, p) {
            let i = node_at(after, p);
            if i < n {
                assert(path_of(before, i) == p);
            }
        }
        if has_node(before, p) {
            let i = node_at(before, p);
            assert(path_of(after, i) == p);
        }
        if p == longer {
            assert(path_of(after, n) == p);
        }
    }
    assert forall|p: Seq<Seq<char>>| has_node(after, p) implies routes_of(after)[p]
        == routes_of(before).insert(longer, RouteNode::empty())[p] by {
        let i = node_at(after, p);
        if p == longer {
            assert(path_of(after, n) == path_of(after, i));
        } else {
            let j = node_at(before, p);
            assert(path_of(after, j) == path_of(after, i));
        }
    }
    assert(routes_of(after) =~= routes_of(before).insert(longer, RouteNode::empty()));
}

/// `after` is `before` with the handlers and parameters of node `at`
/// replaced.
spec fn updates_node<H>(before: Seq<TrieNode<H>>, after: Seq<TrieNode<H>>, at: int) -> bool {
    &&& 0 <= at < before.len()
    &&& after.len() == before.len()
    &&& forall|i: int| 0 <= i < before.len() && i != at ==> #[trigger] after[i] == before[i]
    &&& after[at].path@ == before[at].path@
    &&& after[at].children == before[at].children
}

proof fn lemma_updates_node<H>(before: Seq<TrieNode<H>>, after: Seq<TrieNode<H>>, at: int)
    requires
        is_trie(before),
        updates_node(before, after, at),
    ensures
        is_trie(after),
        routes_of(after) == routes_of(before).insert(path_of(before, at), model_of(after[at])),
{
    reveal(is_trie);
    reveal(routes_of);
    assert forall|i: int| 0 <= i < before.len() implies path_of(after, i) == path_of(
        before,
        i,
    ) by {}
    assert forall|i: int, j: int|
        #![trigger path_of(after, i), path_of(after, j)]
        0 <= i < after.len() && 0 <= j < after.len() && path_of(after, i) == path_of(
            after,
            j,
        ) implies i == j by {
        assert(path_of(before, i) == path_of(before, j));
    }
    assert forall|i: int, k: Seq<char>|
        0 <= i < after.len() && #[trigger] has_child(after, i, k) implies 0 <= child(after, i, k)
            < after.len() && path_of(after, child(after, i, k)) == path_of(after, i).push(k) by {
        assert(has_child(before, i, k));
    }
    assert forall|j: int|
        0 <= j < after.len() && (#[trigger] path_of(after, j)).len() > 0 implies has_parent(
            after,
            j,
        ) by {
        assert(has_parent(before, j));
        let i = choose|i: int|
            0 <= i < before.len() && #[trigger] path_of(before, i) == path_of(
                before,
                j,
            ).drop_last() && has_child(before, i, path_of(before, j).last());
        assert(path_of(after, i) == path_of(after, j).drop_last());
        assert(has_child(after, i, path_of(after, j).last()));
    }
    assert(is_trie(after));
    let here = path_of(before, at);
    assert forall|p: Seq<Seq<char>>| has_node(after, p) == has_node(before, p) by {
        if has_node(after, p) {
            let i = node_at(after, p);
            assert(path_of(before, i) == p);
        }
        if has_node(before, p) {
            let i = node_at(before, p);
            assert(path_of(after, i) == p);
        }
    }
    assert(has_node(before, here)) by {
        assert(path_of(before, at) == here);
    }
    assert forall|p: Seq<Seq<char>>| has_node(after, p) implies routes_of(after)[p]
        == routes_of(before).insert(here, model_of(after[at]))[p] by {
        let i = node_at(after, p);
        let j = node_at(before, p);
        assert(path_of(after, j) == path_of(after, i));
        if p == here {
            assert(path_of(after, at) == path_of(after, i));
        }
    }
    assert(routes_of(after) =~= routes_of(before).insert(here, model_of(after[at])));
}

/// A trie that holds the root and nothing else.
fn root_only<H>() -> (nodes: Vec<TrieNode<H>>)
    ensures
        is_trie(nodes@),
        routes_of(nodes@) == Map::<Seq<Seq<char>>, RouteNode<H>>::empty().insert(
            Seq::empty(),
            RouteNode::empty(),
        ),
{
    let mut nodes: Vec<TrieNode<H>> = Vec::new();
    nodes.push(
        TrieNode {
            params: StringMap::new(),
            children: StringMap::new(),
            handlers: StringMap::new(),
            path: Ghost(Seq::empty()),
        },
    );
    proof {
        reveal(is_trie);
        reveal(routes_of);
        assert(path_of(nodes@, 0) == Seq::<Seq<char>>::empty());
        assert forall|p: Seq<Seq<char>>| has_node(nodes@, p) == (p == Seq::<
            Seq<char>,
        >::empty()) by {
            if p == Seq::<Seq<char>>::empty() {
                assert(path_of(nodes@, 0) == p);
            }
        }
        assert(routes_of(nodes@) =~= Map::<Seq<Seq<char>>, RouteNode<H>>::empty().insert(
            Seq::empty(),
            RouteNode::empty(),
        ));
    }
    nodes
}

/// Walks `nodes` from the root along `keys`, making the nodes that are
/// missing, and gives the index of the node at the end.
fn descend<H>(nodes: &mut Vec<TrieNode<H>>, keys: &Vec<String>, Ghost(all): Ghost<
    Seq<Seq<char>>,
>) -> (end: usize)
    requires
        is_trie(old(nodes)@),
        keys@.len() == all.len(),
        forall|i: int| 0 <= i < keys@.len() ==> (#[trigger] keys@[i])@ == all[i],
    ensures
        is_trie(final(nodes)@),
        end < final(nodes).len(),
        path_of(final(nodes)@, end as int) == all,
        routes_of(final(nodes)@) == grown(routes_of(old(nodes)@), all, all.len() as int),
{
    let ghost before = routes_of(nodes@);
    let mut current: usize = 0;
    let mut t: usize = 0;
    proof {
        lemma_root(nodes@);
        lemma_grown_start(before, all);
    }
    while t < keys.len()
        invariant
            t <= keys.len(),
            keys@.len() == all.len(),
            forall|i: int| 0 <= i < keys@.len() ==> (#[trigger] keys@[i])@ == all[i],
            is_trie(nodes@),
            current < nodes.len(),
            path_of(nodes@, current as int) == all.take(t as int),
            routes_of(nodes@) == grown(before, all, t as int),
        decreases keys.len() - t,
    {
        let ghost here = nodes@;
        let ghost longer = all.take(t + 1);
        proof {
            lemma_child(here, current as int, all[t as int]);
            lemma_grown_step(before, all, t as int);
            assert(all.take(t as int).push(all[t as int]) =~= longer);
        }
        let found = match nodes[current].children.get(keys[t].as_str()) {
            Some(next) => Some(*next),
            None => None,
        };
        match found {
            Some(next) => {
                current = next;
            },
            None => {
                let index = nodes.len();
                nodes.push(
                    TrieNode {
                        params: StringMap::new(),
                        children: StringMap::new(),
                        handlers: StringMap::new(),
                        path: Ghost(longer),
                    },
                );
                nodes[current].children.insert(keys[t].clone(), index);
                proof {
                    lemma_adds_child(here, nodes@, current as int, all[t as int]);
                }
                current = index;
            },
        }
        t += 1;
    }
    current
}

/// The router: a trie of path segments with handlers of type `H` at its
/// nodes.
pub struct Router<H> {
    nodes: Vec<TrieNode<H>>,
    params_regex: Regex,
}

/// Why a router could not be made or a route could not be registered.
#[derive(Debug, Clone, Copy, PartialEq, Eq, Structural)]
pub enum RouterError {
    /// The expression that finds parameter tokens did not compile.
    ParameterPattern,
    /// A parameter name was reported at the very start of a pattern, where
    /// no colon can precede it.
    ParameterStart,
}

impl<H> View for Router<H> {
    type V = Map<Seq<Seq<char>>, RouteNode<H>>;

    /// The routes, by node path.
    closed spec fn view(&self) -> Map<Seq<Seq<char>>, RouteNode<H>> {
        routes_of(self.nodes@)
    }
}

fn wildcard_key() -> (key: &'static str)
    ensures
        key@ == wildcard(),
{
    proof {
        reveal_strlit("*");
    }
    "*"
}

fn root_key_string() -> (key: String)
    ensures
        key@ == root_key(),
{
    proof {
        reveal_strlit("/");
    }
    "/".to_owned()
}

/// Computes [`route_keys`].
fn path_keys(path: &str) -> (keys: Vec<String>)
    ensures
        keys@.len() == route_keys(path@).len(),
        forall|i: int| 0 <= i < keys@.len() ==> (#[trigger] keys@[i])@ == route_keys(path@)[i],
{
    let mut slash: Vec<char> = Vec::new();
    slash.push('/');
    let segments = split_chars(&to_chars(path), &slash);
    let mut keys: Vec<String> = Vec::new();
    let mut i: usize = 0;
    while i < segments.len()
        invariant
            i <= segments.len(),
            views(segments@) == split(path@, seq!['/']),
            keys@.len() == i,
            forall|j: int| 0 <= j < i ==> (#[trigger] keys@[j])@ == route_keys(path@)[j],
        decreases segments.len() - i,
    {
        let key = if segments[i].len() == 0 {
            root_key_string()
        } else {
            from_chars(&segments[i])
        };
        keys.push(key);
        i += 1;
    }
    keys
}

/// The text of [`param_pattern`].
fn param_pattern_text() -> (pattern: &'static str)
    ensures
        pattern@ == param_pattern(),
{
    ":([a-z0-9_]+)"
}

/// The literal pattern that `path` is registered under: `path` with every
/// parameter token replaced by `*`. A path in which the search finds no
/// token is its own pattern.
pub open spec fn normalized(path: Seq<char>) -> Seq<char> {
    if regex_first_groups(param_pattern(), path).len() == 0 {
        path
    } else {
        regex_replaced(param_pattern(), path, wildcard())
    }
}

/// What [`Router::define_route`] promises: `outcome` tells whether the
/// parameter tokens of `path` could be placed, and `after` is `before` with
/// the route added, or `before` itself where they could not.
pub open spec fn defines<H>(
    before: Map<Seq<Seq<char>>, RouteNode<H>>,
    after: Map<Seq<Seq<char>>, RouteNode<H>>,
    method: HTTPMethod,
    path: Seq<char>,
    handler: H,
    outcome: Result<(), RouterError>,
) -> bool {
    match param_offsets(path, regex_first_groups(param_pattern(), path)) {
        Some(params) => outcome is Ok && after == with_route(
            before,
            route_keys(normalized(path)),
            method,
            params,
            handler,
        ),
        None => outcome == Err::<(), RouterError>(RouterError::ParameterStart) && after == before,
    }
}

// ---------------------------------------------------------------------------
// Laws of registration and lookup
// ---------------------------------------------------------------------------

/// Two different methods are written differently.
pub proof fn lemma_method_texts_differ(a: HTTPMethod, b: HTTPMethod)
    requires
        a != b,
    ensures
        a.spec_text() != b.spec_text(),
{
    a.lemma_parse_text();
    b.lemma_parse_text();
}

/// In routes that hold a node at every prefix of `keys`, the walk along
/// `keys` stays on those nodes and ends at `keys`.
pub proof fn lemma_reach_own_keys<H>(
    routes: Map<Seq<Seq<char>>, RouteNode<H>>,
    keys: Seq<Seq<char>>,
    t: int,
)
    requires
        0 <= t <= keys.len(),
        forall|p: Seq<Seq<char>>| p.is_prefix_of(keys) ==> routes.contains_key(p),
    ensures
        reach(routes, keys.take(t), keys, t) == (keys, true),
    decreases keys.len() - t,
{
    if t < keys.len() {
        assert(keys.take(t).push(keys[t]) =~= keys.take(t + 1));
        assert(keys.take(t + 1).is_prefix_of(keys));
        lemma_reach_own_keys(routes, keys, t + 1);
    } else {
        assert(keys.take(t) =~= keys);
    }
}

/// At level `i` the route key `keys[i]` takes the segment `segments[i]`:
/// the key is the segment itself, or it is the wildcard and no node stands
/// under the segment itself.
pub open spec fn takes_segment<H>(
    routes: Map<Seq<Seq<char>>, RouteNode<H>>,
    keys: Seq<Seq<char>>,
    segments: Seq<Seq<char>>,
    i: int,
) -> bool {
    keys[i] == segments[i] || (keys[i] == wildcard() && !routes.contains_key(
        keys.take(i).push(segments[i]),
    ))
}

/// The walk along a request path ends at the node of a route whose keys
/// take the path's segments level by level.
pub proof fn lemma_reach_through_wildcards<H>(
    routes: Map<Seq<Seq<char>>, RouteNode<H>>,
    keys: Seq<Seq<char>>,
    segments: Seq<Seq<char>>,
    t: int,
)
    requires
        0 <= t <= keys.len(),
        keys.len() == segments.len(),
        forall|p: Seq<Seq<char>>| p.is_prefix_of(keys) ==> routes.contains_key(p),
        forall|i: int| 0 <= i < keys.len() ==> #[trigger] takes_segment(routes, keys, segments, i),
    ensures
        reach(routes, keys.take(t), segments, t) == (keys, true),
    decreases keys.len() - t,
{
    if t < keys.len() {
        assert(keys.take(t).push(keys[t]) =~= keys.take(t + 1));
        assert(keys.take(t + 1).is_prefix_of(keys));
        assert(takes_segment(routes, keys, segments, t));
        lemma_reach_through_wildcards(routes, keys, segments, t + 1);
    } else {
        assert(keys.take(t) =~= keys);
    }
}

/// A route with parameter segments matches every path of its shape: after
/// `handler` has been registered for `method` at the node path `keys`, a
/// request path resolves to that handler, and to the parameter offsets of
/// that node, if it has as many segments as `keys` and the keys take its
/// segments level by level ([`takes_segment`]).
pub proof fn law_parameter_route_resolves<H>(
    routes: Map<Seq<Seq<char>>, RouteNode<H>>,
    keys: Seq<Seq<char>>,
    method: HTTPMethod,
    params: Map<Seq<char>, usize>,
    handler: H,
    path: Seq<char>,
)
    requires
        route_keys(path).len() == keys.len(),
        forall|i: int|
            0 <= i < keys.len() ==> #[trigger] takes_segment(
                with_route(routes, keys, method, params, handler),
                keys,
                route_keys(path),
                i,
            ),
    ensures
        resolution(with_route(routes, keys, method, params, handler), method, path).0 == Some(
            handler,
        ),
        forall|name: Seq<char>|
            params.contains_key(name) ==> resolution(
                with_route(routes, keys, method, params, handler),
                method,
                path,
            ).1.contains_key(name) && #[trigger] resolution(
                with_route(routes, keys, method, params, handler),
                method,
                path,
            ).1[name] == params[name],
{
    let after = with_route(routes, keys, method, params, handler);
    lemma_reach_through_wildcards(after, keys, route_keys(path), 0);
    assert(keys.take(0) =~= Seq::<Seq<char>>::empty());
    assert(keys.is_prefix_of(keys));
    assert(after[keys].handlers.contains_key(method.spec_text()));
}

/// The routes hold `handler` for `method` under the literal pattern
/// `pattern`: every node on the way to the pattern's node exists, and that
/// node has `handler` for `method`.
pub open spec fn holds_route<H>(
    routes: Map<Seq<Seq<char>>, RouteNode<H>>,
    method: HTTPMethod,
    pattern: Seq<char>,
    handler: H,
) -> bool {
    &&& forall|p: Seq<Seq<char>>| p.is_prefix_of(route_keys(pattern)) ==> routes.contains_key(p)
    &&& routes[route_keys(pattern)].handlers.contains_key(method.spec_text())
    &&& routes[route_keys(pattern)].handlers[method.spec_text()] == handler
}

/// A route that is held resolves: the lookup of its method and its own
/// pattern gives its handler, whatever else the routes hold. The walk takes
/// the literal child at every level, so no wildcard can lead it astray.
pub proof fn law_held_route_resolves<H>(
    routes: Map<Seq<Seq<char>>, RouteNode<H>>,
    method: HTTPMethod,
    pattern: Seq<char>,
    handler: H,
)
    requires
        holds_route(routes, method, pattern, handler),
    ensures
        resolution(routes, method, pattern).0 == Some(handler),
{
    let keys = route_keys(pattern);
    lemma_reach_own_keys(routes, keys, 0);
    assert(keys.take(0) =~= Seq::<Seq<char>>::empty());
}

/// A registration holds its route.
pub proof fn law_registration_holds_route<H>(
    routes: Map<Seq<Seq<char>>, RouteNode<H>>,
    pattern: Seq<char>,
    method: HTTPMethod,
    params: Map<Seq<char>, usize>,
    handler: H,
)
    ensures
        holds_route(
            with_route(routes, route_keys(pattern), method, params, handler),
            method,
            pattern,
            handler,
        ),
{
    assert(route_keys(pattern).is_prefix_of(route_keys(pattern)));
}

/// Other registrations leave a held route alone: a registration for
/// another method, or at another node, keeps every route that was held.
/// So the handler that was registered last for a method and a literal
/// pattern is the one that the lookup gives, however many other routes
/// were registered since.
pub proof fn law_other_registration_keeps_route<H>(
    routes: Map<Seq<Seq<char>>, RouteNode<H>>,
    method: HTTPMethod,
    pattern: Seq<char>,
    handler: H,
    other_keys: Seq<Seq<char>>,
    other_method: HTTPMethod,
    other_params: Map<Seq<char>, usize>,
    other_handler: H,
)
    requires
        holds_route(routes, method, pattern, handler),
        other_method != method || other_keys != route_keys(pattern),
    ensures
        holds_route(
            with_route(routes, other_keys, other_method, other_params, other_handler),
            method,
            pattern,
            handler,
        ),
{
    if other_method != method {
        lemma_method_texts_differ(other_method, method);
    }
    assert(route_keys(pattern).is_prefix_of(route_keys(pattern)));
}

/// The same for [`Router::define_route`]: whatever it was called with and
/// however it ended, a held route is held afterwards, unless the call was
/// for the same method and led to the same node.
pub proof fn law_define_route_keeps_route<H>(
    before: Map<Seq<Seq<char>>, RouteNode<H>>,
    after: Map<Seq<Seq<char>>, RouteNode<H>>,
    method: HTTPMethod,
    pattern: Seq<char>,
    handler: H,
    other_method: HTTPMethod,
    other_path: Seq<char>,
    other_handler: H,
    outcome: Result<(), RouterError>,
)
    requires
        holds_route(before, method, pattern, handler),
        defines(before, after, other_method, other_path, other_handler, outcome),
        other_method != method || route_keys(normalized(other_path)) != route_keys(pattern),
    ensures
        holds_route(after, method, pattern, handler),
        resolution(after, method, pattern).0 == Some(handler),
{
    match param_offsets(other_path, regex_first_groups(param_pattern(), other_path)) {
        Some(params) => {
            law_other_registration_keeps_route(
                before,
                method,
                pattern,
                handler,
                route_keys(normalized(other_path)),
                other_method,
                params,
                other_handler,
            );
        },
        None => {},
    }
    law_held_route_resolves(after, method, pattern, handler);
}

/// A registered pattern resolves to the handler that was registered: after
/// `handler` has been registered for `method` under the literal pattern
/// `pattern`, the lookup of `method` and `pattern` gives that very handler.
pub proof fn law_registered_pattern_resolves<H>(
    routes: Map<Seq<Seq<char>>, RouteNode<H>>,
    pattern: Seq<char>,
    method: HTTPMethod,
    params: Map<Seq<char>, usize>,
    handler: H,
)
    ensures
        resolution(
            with_route(routes, route_keys(pattern), method, params, handler),
            method,
            pattern,
        ).0 == Some(handler),
{
    let keys = route_keys(pattern);
    let after = with_route(routes, keys, method, params, handler);
    lemma_reach_own_keys(after, keys, 0);
    assert(keys.take(0) =~= Seq::<Seq<char>>::empty());
    assert(keys.is_prefix_of(keys));
    assert(after[keys].handlers.contains_key(method.spec_text()));
}

/// A route without parameters resolves under its own path: where the search
/// finds no parameter token in `path`, registering `handler` for `method`
/// and `path` succeeds, and the lookup of `method` and `path` then gives
/// that very handler.
pub proof fn law_literal_route_resolves<H>(
    before: Map<Seq<Seq<char>>, RouteNode<H>>,
    after: Map<Seq<Seq<char>>, RouteNode<H>>,
    method: HTTPMethod,
    path: Seq<char>,
    handler: H,
    outcome: Result<(), RouterError>,
)
    requires
        defines(before, after, method, path, handler, outcome),
        regex_first_groups(param_pattern(), path).len() == 0,
    ensures
        outcome is Ok,
        resolution(after, method, path).0 == Some(handler),
        holds_route(after, method, path, handler),
{
    law_registered_pattern_resolves(before, path, method, Map::empty(), handler);
    law_registration_holds_route(before, path, method, Map::empty(), handler);
}

/// Two methods on one pattern do not disturb each other: after `first` has
/// been registered for `method_a` and then `second` for another method
/// `method_b` at the same node, every path whose walk ends at that node
/// resolves to `first` under `method_a` and to `second` under `method_b`.
/// The parameter offsets of the first registration stay, but for the names
/// that the second registration sets anew.
pub proof fn law_methods_are_independent<H>(
    routes: Map<Seq<Seq<char>>, RouteNode<H>>,
    keys: Seq<Seq<char>>,
    method_a: HTTPMethod,
    params_a: Map<Seq<char>, usize>,
    first: H,
    method_b: HTTPMethod,
    params_b: Map<Seq<char>, usize>,
    second: H,
    path: Seq<char>,
)
    requires
        method_a != method_b,
        reach(
            with_route(
                with_route(routes, keys, method_a, params_a, first),
                keys,
                method_b,
                params_b,
                second,
            ),
            Seq::empty(),
            route_keys(path),
            0,
        ) == (keys, true),
    ensures
        ({
            let both = with_route(
                with_route(routes, keys, method_a, params_a, first),
                keys,
                method_b,
                params_b,
                second,
            );
            &&& resolution(both, method_a, path).0 == Some(first)
            &&& resolution(both, method_b, path).0 == Some(second)
            &&& resolution(both, method_a, path).1 == resolution(both, method_b, path).1
            &&& forall|name: Seq<char>|
                params_a.contains_key(name) ==> #[trigger] resolution(
                    both,
                    method_a,
                    path,
                ).1.contains_key(name)
            &&& forall|name: Seq<char>|
                params_a.contains_key(name) && !params_b.contains_key(name) ==> (
                #[trigger] resolution(both, method_a, path).1[name]) == params_a[name]
            &&& forall|name: Seq<char>|
                params_b.contains_key(name) ==> resolution(both, method_a, path).1.contains_key(
                    name,
                ) && (#[trigger] resolution(both, method_a, path).1[name]) == params_b[name]
        }),
{
    lemma_method_texts_differ(method_a, method_b);
    let one = with_route(routes, keys, method_a, params_a, first);
    let both = with_route(one, keys, method_b, params_b, second);
    assert(keys.is_prefix_of(keys));
    assert(one.contains_key(keys));
    assert(both.contains_key(keys));
    assert(one[keys].handlers.contains_key(method_a.spec_text()));
    assert(both[keys].handlers == one[keys].handlers.insert(method_b.spec_text(), second));
    assert(both[keys].params == one[keys].params.union_prefer_right(params_b));
}

/// The last registration wins: registering a second handler for the same
/// method at the same node replaces the first, and leaves the routes as if
/// only the second had been registered, with the parameters of both.
pub proof fn law_last_registration_wins<H>(
    routes: Map<Seq<Seq<char>>, RouteNode<H>>,
    pattern: Seq<char>,
    method: HTTPMethod,
    params_a: Map<Seq<char>, usize>,
    first: H,
    params_b: Map<Seq<char>, usize>,
    second: H,
)
    ensures
        ({
            let keys = route_keys(pattern);
            let twice = with_route(
                with_route(routes, keys, method, params_a, first),
                keys,
                method,
                params_b,
                second,
            );
            &&& resolution(twice, method, pattern).0 == Some(second)
            &&& twice == with_route(
                routes,
                keys,
                method,
                params_a.union_prefer_right(params_b),
                second,
            )
        }),
{
    let keys = route_keys(pattern);
    let one = with_route(routes, keys, method, params_a, first);
    let twice = with_route(one, keys, method, params_b, second);
    let direct = with_route(routes, keys, method, params_a.union_prefer_right(params_b), second);
    law_registered_pattern_resolves(one, pattern, method, params_b, second);
    assert(keys.is_prefix_of(keys));
    assert forall|p: Seq<Seq<char>>| twice.contains_key(p) implies #[trigger] twice[p]
        == direct[p] by {
        if p == keys {
            assert(twice[p].handlers =~= direct[p].handlers);
            assert(twice[p].params =~= direct[p].params);
        }
    }
    assert(twice =~= direct);
}

impl<H> Router<H> {
    #[verifier::type_invariant]
    spec fn well_formed(self) -> bool {
        &&& is_trie(self.nodes@)
        &&& regex_source(self.params_regex) == param_pattern()
    }

    /// A router that holds the root node and no route. It fails exactly
    /// where the expression that finds parameter tokens does not compile.
    pub fn new() -> (made: Result<Router<H>, RouterError>)
        ensures
            made is Ok == regex_compiles(param_pattern()),
            match made {
                Ok(router) => router@ == Map::<Seq<Seq<char>>, RouteNode<H>>::empty().insert(
                    Seq::empty(),
                    RouteNode::empty(),
                ),
                Err(e) => e == RouterError::ParameterPattern,
            },
    {
        match regex_new(param_pattern_text()) {
            Ok(params_regex) => Ok(Router { nodes: root_only(), params_regex }),
            Err(_) => Err(RouterError::ParameterPattern),
        }
    }

    /// Registers `handler` for `GET` requests to `path`: see
    /// [`Self::define_route`].
    pub fn get(&mut self, path: &str, handler: H) -> (outcome: Result<(), RouterError>)
        ensures
            defines(old(self)@, final(self)@, HTTPMethod::GET, path@, handler, outcome),
    {
        self.define_route(&HTTPMethod::GET, path.to_owned(), handler)
    }

    /// Registers `handler` for `POST` requests to `path`: see
    /// [`Self::define_route`].
    pub fn post(&mut self, path: &str, handler: H) -> (outcome: Result<(), RouterError>)
        ensures
            defines(old(self)@, final(self)@, HTTPMethod::POST, path@, handler, outcome),
    {
        self.define_route(&HTTPMethod::POST, path.to_owned(), handler)
    }

    /// Registers `handler` for `PUT` requests to `path`: see
    /// [`Self::define_route`].
    pub fn put(&mut self, path: &str, handler: H) -> (outcome: Result<(), RouterError>)
        ensures
            defines(old(self)@, final(self)@, HTTPMethod::PUT, path@, handler, outcome),
    {
        self.define_route(&HTTPMethod::PUT, path.to_owned(), handler)
    }

    /// Registers `handler` for `PATCH` requests to `path`: see
    /// [`Self::define_route`].
    pub fn patch(&mut self, path: &str, handler: H) -> (outcome: Result<(), RouterError>)
        ensures
            defines(old(self)@, final(self)@, HTTPMethod::PATCH, path@, handler, outcome),
    {
        self.define_route(&HTTPMethod::PATCH, path.to_owned(), handler)
    }

    /// Registers `handler` for `DELETE` requests to `path`: see
    /// [`Self::define_route`].
    pub fn delete(&mut self, path: &str, handler: H) -> (outcome: Result<(), RouterError>)
        ensures
            defines(old(self)@, final(self)@, HTTPMethod::DELETE, path@, handler, outcome),
    {
        self.define_route(&HTTPMethod::DELETE, path.to_owned(), handler)
    }

    /// Registers `handler` for `OPTIONS` requests to `path`: see
    /// [`Self::define_route`].
    pub fn options(&mut self, path: &str, handler: H) -> (outcome: Result<(), RouterError>)
        ensures
            defines(old(self)@, final(self)@, HTTPMethod::OPTIONS, path@, handler, outcome),
    {
        self.define_route(&HTTPMethod::OPTIONS, path.to_owned(), handler)
    }

    /// Registers `handler` for `HEAD` requests to `path`: see
    /// [`Self::define_route`].
    pub fn head(&mut self, path: &str, handler: H) -> (outcome: Result<(), RouterError>)
        ensures
            defines(old(self)@, final(self)@, HTTPMethod::HEAD, path@, handler, outcome),
    {
        self.define_route(&HTTPMethod::HEAD, path.to_owned(), handler)
    }

    /// Registers `handler` for `method` and the pattern `path`.
    ///
    /// The parameter tokens of the pattern are searched for; each gives a
    /// parameter name and the character offset of the token in the pattern
    /// ([`param_offsets`]). The pattern with every token replaced by `*` is
    /// then registered: see [`Self::register`]. Where a token cannot be
    /// placed, the router stays as it was.
    pub fn define_route(&mut self, method: &HTTPMethod, path: String, handler: H) -> (outcome:
        Result<(), RouterError>)
        ensures
            defines(old(self)@, final(self)@, *method, path@, handler, outcome),
    {
        proof {
            use_type_invariant(&*self);
        }
        let groups = regex_captures(&self.params_regex, path.as_str());
        let params = match collect_offsets(&to_chars(path.as_str()), &groups) {
            Some(params) => params,
            None => {
                return Err(RouterError::ParameterStart);
            },
        };
        let star: String = "*".to_owned();
        proof {
            reveal_strlit("*");
            assert(star@ =~= wildcard());
        }
        let pattern = regex_replace_all(&self.params_regex, path.as_str(), star.as_str());
        self.register(method, pattern.as_str(), &params, handler);
        Ok(())
    }

    /// Registers `handler` for `method` at the node that the literal path
    /// `pattern` leads to, and merges `params` into that node's parameter
    /// offsets: exactly [`with_route`]. A segment `*` of `pattern` stands for
    /// any parameter segment.
    pub fn register(
        &mut self,
        method: &HTTPMethod,
        pattern: &str,
        params: &StringMap<usize>,
        handler: H,
    )
        ensures
            final(self)@ == with_route(
                old(self)@,
                route_keys(pattern@),
                *method,
                params@,
                handler,
            ),
    {
        proof {
            use_type_invariant(&*self);
        }
        let keys = path_keys(pattern);
        let ghost all = route_keys(pattern@);
        let ghost before = self@;
        // The nodes are taken out while they change, so that the router is
        // well-formed at every moment; a root-only trie stands in for them.
        let mut nodes: Vec<TrieNode<H>> = root_only();
        core::mem::swap(&mut self.nodes, &mut nodes);
        let end = descend(&mut nodes, &keys, Ghost(all));
        let ghost walked = nodes@;
        nodes[end].handlers.insert(method.text().to_owned(), handler);
        nodes[end].params.extend(params);
        proof {
            lemma_updates_node(walked, nodes@, end as int);
            lemma_node_at(walked, end as int);
            lemma_grown_end(before, all, *method, params@, handler);
        }
        core::mem::swap(&mut self.nodes, &mut nodes);
    }

    /// Looks up the handler for `method` and `path`: exactly
    /// [`resolution`]. The second part holds the parameter offsets of the
    /// node that the walk reached; they come back even where no handler
    /// does.
    pub fn get_handler(&self, method: &HTTPMethod, path: &str) -> (found: (
        Option<&H>,
        &StringMap<usize>,
    ))
        ensures
            (
                match found.0 {
                    Some(handler) => Some(*handler),
                    None => None,
                },
                found.1@,
            ) == resolution(self@, *method, path@),
            self@.contains_key(reach(self@, Seq::empty(), route_keys(path@), 0).0),
    {
        proof {
            use_type_invariant(self);
            lemma_root(self.nodes@);
        }
        let keys = path_keys(path);
        let ghost all = route_keys(path@);
        let ghost routes = self@;
        let mut current: usize = 0;
        let mut t: usize = 0;
        while t < keys.len()
            invariant
                t <= keys.len(),
                current < self.nodes.len(),
                is_trie(self.nodes@),
                routes == routes_of(self.nodes@),
                all == route_keys(path@),
                keys@.len() == all.len(),
                forall|i: int| 0 <= i < keys@.len() ==> (#[trigger] keys@[i])@ == all[i],
                reach(routes, Seq::empty(), all, 0) == reach(
                    routes,
                    path_of(self.nodes@, current as int),
                    all,
                    t as int,
                ),
            decreases keys.len() - t,
        {
            let node = &self.nodes[current];
            proof {
                lemma_child(self.nodes@, current as int, all[t as int]);
                lemma_child(self.nodes@, current as int, wildcard());
                lemma_node_at(self.nodes@, current as int);
            }
            let next = match node.children.get(keys[t].as_str()) {
                Some(next) => Some(*next),
                None => match node.children.get(wildcard_key()) {
                    Some(next) => Some(*next),
                    None => None,
                },
            };
            match next {
                Some(next) => {
                    current = next;
                },
                None => {
                    return (None, &node.params);
                },
            }
            t += 1;
        }
        proof {
            lemma_node_at(self.nodes@, current as int);
        }
        let node = &self.nodes[current];
        (node.handlers.get(method.text()), &node.params)
    }
}

} // verus!

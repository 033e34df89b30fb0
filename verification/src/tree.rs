//! The segment tree in memory.
//!
//! The tree is held as an arena: a vector of nodes in the order in which they
//! were created, the root first, each node naming its children by their
//! places in the vector. A tree is built through a [`TreeBuilder`] and looked
//! up in the [`Tree`] that the builder is closed into.

use vstd::prelude::*;
use crate::path::{string_views, Segment, SegmentType, SegmentView};
use crate::tree_model::{
    bindings, has_pattern, index_of_pattern, is_dynamic_child, is_first_dynamic_child, is_tree,
    lemma_walk_stays_lost, lookup, parent_precedes, select_child, walk, with_route, NodeView,
};

verus! {

/// A value bound by a dynamic segment.
#[derive(Debug, PartialEq, Eq)]
pub struct PathParam {
    pub name: String,
    pub value: String,
}

impl View for PathParam {
    type V = (Seq<char>, Seq<char>);

    open spec fn view(&self) -> (Seq<char>, Seq<char>) {
        (self.name@, self.value@)
    }
}

/// The views of a list of bound values, in order.
pub open spec fn param_views(params: Seq<PathParam>) -> Seq<(Seq<char>, Seq<char>)> {
    Seq::new(params.len(), |i: int| params[i]@)
}

/// Where a lookup ended: the node, and what the dynamic segments on the way
/// to it bound.
#[derive(Debug, PartialEq, Eq)]
pub struct Found {
    pub node: usize,
    pub params: Vec<PathParam>,
}

/// A node of the arena.
struct Node<R> {
    segment: String,
    segment_type: SegmentType,
    children: Vec<usize>,
    routes: Vec<R>,
    pattern: Ghost<Seq<SegmentView>>,
    parent: Ghost<int>,
}

impl<R> Node<R> {
    /// The segment by which the node is found among its siblings.
    spec fn key(&self) -> SegmentView {
        SegmentView { name: self.segment@, segment_type: self.segment_type }
    }

    /// What the node stands for.
    spec fn view(&self) -> NodeView<R> {
        NodeView { pattern: self.pattern@, routes: self.routes@ }
    }
}

/// What the nodes of an arena stand for, in the order of the arena.
spec fn arena_view<R>(nodes: Seq<Node<R>>) -> Seq<NodeView<R>> {
    Seq::new(nodes.len(), |i: int| nodes[i]@)
}

/// Whether the node at `i` is linked to its parent: the parent was created
/// before it, lists it as a child, and its pattern is the parent's followed
/// by its own segment.
spec fn linked_up<R>(nodes: Seq<Node<R>>, i: int) -> bool {
    let p = nodes[i].parent@;
    &&& 0 <= p < i
    &&& nodes[p].children@.contains(i as usize)
    &&& nodes[i].pattern@ == nodes[p].pattern@.push(nodes[i].key())
}

/// Whether the `k`-th child of the node at `n` is a node created after `n`
/// with `n` as its parent.
spec fn linked_down<R>(nodes: Seq<Node<R>>, n: int, k: int) -> bool {
    let c = nodes[n].children@[k];
    &&& n < c < nodes.len()
    &&& nodes[c as int].parent@ == n
}

/// Whether the nodes at `i` and `j` stand for the same pattern.
spec fn same_pattern<R>(nodes: Seq<Node<R>>, i: int, j: int) -> bool {
    nodes[i].pattern@ == nodes[j].pattern@
}

/// The invariant of an arena: the links between the nodes are those of a
/// tree in which every child was created after its parent, the children of a
/// node are listed in the order of their creation, and no two nodes stand for
/// the same pattern.
spec fn arena_wf<R>(nodes: Seq<Node<R>>) -> bool {
    &&& nodes.len() >= 1
    &&& nodes[0].pattern@.len() == 0
    &&& forall|i: int| 0 < i < nodes.len() ==> #[trigger] linked_up(nodes, i)
    &&& forall|n: int, k: int|
        0 <= n < nodes.len() && 0 <= k < nodes[n].children@.len() ==> #[trigger] linked_down(
            nodes,
            n,
            k,
        )
    &&& forall|n: int, j: int, k: int|
        0 <= n < nodes.len() && 0 <= j < k < nodes[n].children@.len()
            ==> #[trigger] nodes[n].children@[j] < #[trigger] nodes[n].children@[k]
    &&& forall|i: int, j: int|
        0 <= i < nodes.len() && 0 <= j < nodes.len() && #[trigger] same_pattern(nodes, i, j) ==> i
            == j
}

/// In a well-formed arena a node whose pattern is that of `n` followed by
/// `key` is a child of `n` and has `key` as its own segment.
proof fn lemma_extension_is_child<R>(nodes: Seq<Node<R>>, n: int, x: int, key: SegmentView)
    requires
        arena_wf(nodes),
        0 <= n < nodes.len(),
        0 <= x < nodes.len(),
        nodes[x].pattern@ == nodes[n].pattern@.push(key),
    ensures
        x > n,
        nodes[x].parent@ == n,
        nodes[n].children@.contains(x as usize),
        nodes[x].key() == key,
{
    assert(nodes[x].pattern@.len() > 0);
    assert(x != 0);
    assert(linked_up(nodes, x));
    let p = nodes[x].parent@;
    let mine = nodes[p].pattern@.push(nodes[x].key());
    let other = nodes[n].pattern@.push(key);
    assert(mine == other);
    assert(mine.drop_last() =~= nodes[p].pattern@);
    assert(other.drop_last() =~= nodes[n].pattern@);
    assert(mine.last() == nodes[x].key());
    assert(other.last() == key);
    assert(same_pattern(nodes, p, n));
}

/// What a well-formed arena stands for is the node list of a tree.
proof fn lemma_arena_is_tree<R>(nodes: Seq<Node<R>>)
    requires
        arena_wf(nodes),
    ensures
        is_tree(arena_view(nodes)),
{
    let view = arena_view(nodes);
    assert forall|i: int| 0 < i < view.len() implies #[trigger] parent_precedes(view, i) by {
        assert(linked_up(nodes, i));
        let p = nodes[i].parent@;
        assert(nodes[i].pattern@.drop_last() =~= nodes[p].pattern@);
        assert(view[p].pattern == view[i].pattern.drop_last());
    }
    assert forall|i: int, j: int|
        0 <= i < view.len() && 0 <= j < view.len() && (#[trigger] view[i]).pattern == (
        #[trigger] view[j]).pattern implies i == j by {
        assert(same_pattern(nodes, i, j));
    }
}

/// The child of `node` with the given name and type, if it has one.
fn find_child<R>(nodes: &Vec<Node<R>>, node: usize, name: &String, segment_type: SegmentType) -> (found:
    Option<usize>)
    requires
        arena_wf(nodes@),
        node < nodes.len(),
    ensures
        (match found {
            Some(c) => c < nodes.len() && nodes@[c as int].pattern@ == nodes@[node as int].pattern@.push(
                SegmentView { name: name@, segment_type },
            ),
            None => !has_pattern(
                arena_view(nodes@),
                nodes@[node as int].pattern@.push(SegmentView { name: name@, segment_type }),
            ),
        }),
{
    let ghost key = SegmentView { name: name@, segment_type };
    let children = &nodes[node].children;
    let mut k: usize = 0;
    while k < children.len()
        invariant
            arena_wf(nodes@),
            node < nodes.len(),
            children == &nodes@[node as int].children,
            key == (SegmentView { name: name@, segment_type }),
            k <= children.len(),
            forall|j: int| 0 <= j < k ==> nodes@[(#[trigger] children@[j]) as int].key() != key,
        decreases children.len() - k,
    {
        let c = children[k];
        assert(linked_down(nodes@, node as int, k as int));
        if nodes[c].segment_type == segment_type && nodes[c].segment == *name {
            assert(nodes@[c as int].key() == key);
            assert(linked_up(nodes@, c as int));
            return Some(c);
        }
        k += 1;
    }
    proof {
        let view = arena_view(nodes@);
        let wanted = nodes@[node as int].pattern@.push(key);
        if has_pattern(view, wanted) {
            let x = index_of_pattern(view, wanted);
            lemma_extension_is_child(nodes@, node as int, x, key);
            let j = choose|j: int| 0 <= j < children@.len() && children@[j] == x as usize;
            assert(nodes@[children@[j] as int].key() != key);
        }
    }
    None
}

/// The first child of `node` that is dynamic, if it has one.
fn first_dynamic_child<R>(nodes: &Vec<Node<R>>, node: usize) -> (found: Option<usize>)
    requires
        arena_wf(nodes@),
        node < nodes.len(),
    ensures
        (match found {
            Some(c) => c < nodes.len() && is_first_dynamic_child(
                arena_view(nodes@),
                nodes@[node as int].pattern@,
                c as int,
            ) && nodes@[c as int].pattern@ == nodes@[node as int].pattern@.push(
                nodes@[c as int].key(),
            ),
            None => forall|i: int|
                !is_dynamic_child(arena_view(nodes@), nodes@[node as int].pattern@, i),
        }),
{
    let ghost view = arena_view(nodes@);
    let ghost prefix = nodes@[node as int].pattern@;
    let children = &nodes[node].children;
    let mut k: usize = 0;
    while k < children.len()
        invariant
            arena_wf(nodes@),
            node < nodes.len(),
            children == &nodes@[node as int].children,
            view == arena_view(nodes@),
            prefix == nodes@[node as int].pattern@,
            k <= children.len(),
            forall|j: int|
                0 <= j < k ==> nodes@[(#[trigger] children@[j]) as int].key().segment_type
                    != SegmentType::Dynamic,
        decreases children.len() - k,
    {
        let c = children[k];
        assert(linked_down(nodes@, node as int, k as int));
        if nodes[c].segment_type == SegmentType::Dynamic {
            proof {
                assert(linked_up(nodes@, c as int));
                let key = nodes@[c as int].key();
                assert(prefix.push(key).drop_last() =~= prefix);
                assert(is_dynamic_child(view, prefix, c as int));
                assert forall|i: int| 0 <= i < c implies !is_dynamic_child(view, prefix, i) by {
                    if is_dynamic_child(view, prefix, i) {
                        let last = view[i].pattern.last();
                        assert(view[i].pattern =~= prefix.push(last));
                        lemma_extension_is_child(nodes@, node as int, i, last);
                        let m = choose|m: int|
                            0 <= m < children@.len() && children@[m] == i as usize;
                        if m >= k {
                            if m > k {
                                assert(children@[k as int] < children@[m]);
                            }
                        } else {
                            assert(nodes@[children@[m] as int].key().segment_type
                                != SegmentType::Dynamic);
                        }
                    }
                }
            }
            return Some(c);
        }
        k += 1;
    }
    proof {
        assert forall|i: int| !is_dynamic_child(view, prefix, i) by {
            if is_dynamic_child(view, prefix, i) {
                let last = view[i].pattern.last();
                assert(view[i].pattern =~= prefix.push(last));
                lemma_extension_is_child(nodes@, node as int, i, last);
                let m = choose|m: int| 0 <= m < children@.len() && children@[m] == i as usize;
                assert(nodes@[children@[m] as int].key().segment_type != SegmentType::Dynamic);
            }
        }
    }
    None
}

/// The child of `node` that a request segment leads to, if there is one.
fn select<R>(nodes: &Vec<Node<R>>, node: usize, segment: &String) -> (chosen: Option<usize>)
    requires
        arena_wf(nodes@),
        node < nodes.len(),
    ensures
        (match chosen {
            Some(c) => c < nodes.len() && nodes@[c as int].pattern@ == nodes@[node as int].pattern@.push(
                nodes@[c as int].key(),
            ) && select_child(arena_view(nodes@), nodes@[node as int].pattern@, segment@) == Some(
                c as int,
            ),
            None => select_child(arena_view(nodes@), nodes@[node as int].pattern@, segment@)
                is None,
        }),
{
    let ghost view = arena_view(nodes@);
    let ghost prefix = nodes@[node as int].pattern@;
    let ghost fixed = prefix.push(
        SegmentView { name: segment@, segment_type: SegmentType::Static },
    );
    match find_child(nodes, node, segment, SegmentType::Static) {
        Some(c) => {
            proof {
                assert(view[c as int].pattern == fixed);
                let x = index_of_pattern(view, fixed);
                assert(same_pattern(nodes@, x, c as int));
                lemma_extension_is_child(nodes@, node as int, c as int, fixed.last());
                assert(fixed.last() == nodes@[c as int].key());
            }
            Some(c)
        },
        None => {
            let found = first_dynamic_child(nodes, node);
            proof {
                match found {
                    Some(c) => {
                        let x = choose|i: int| is_first_dynamic_child(view, prefix, i);
                        assert(is_first_dynamic_child(view, prefix, x));
                        if x < c {
                            assert(!is_dynamic_child(view, prefix, x));
                        } else if c < x {
                            assert(!is_dynamic_child(view, prefix, c as int));
                        }
                    },
                    None => {
                        assert forall|i: int| !is_first_dynamic_child(view, prefix, i) by {
                            assert(!is_dynamic_child(view, prefix, i));
                        }
                    },
                }
            }
            found
        },
    }
}

/// A tree under construction.
pub struct TreeBuilder<R> {
    nodes: Vec<Node<R>>,
}

impl<R> TreeBuilder<R> {
    /// What the nodes stand for, in the order of their creation; the root
    /// is the first.
    pub closed spec fn view(&self) -> Seq<NodeView<R>> {
        arena_view(self.nodes@)
    }

    /// The invariant of the builder.
    pub closed spec fn wf(&self) -> bool {
        arena_wf(self.nodes@)
    }

    /// What a well-formed builder holds is the node list of a tree.
    pub proof fn lemma_view_is_tree(&self)
        requires
            self.wf(),
        ensures
            is_tree(self@),
    {
        lemma_arena_is_tree(self.nodes@);
    }

    /// A tree with the root alone.
    pub fn new() -> (tree: TreeBuilder<R>)
        ensures
            tree.wf(),
            tree@ == seq![NodeView::<R> { pattern: Seq::empty(), routes: Seq::empty() }],
    {
        let root = Node {
            segment: String::new(),
            segment_type: SegmentType::Static,
            children: Vec::new(),
            routes: Vec::new(),
            pattern: Ghost(Seq::empty()),
            parent: Ghost(0),
        };
        let mut nodes: Vec<Node<R>> = Vec::new();
        nodes.push(root);
        let tree = TreeBuilder { nodes };
        proof {
            assert(tree@ =~= seq![NodeView::<R> { pattern: Seq::empty(), routes: Seq::empty() }]);
        }
        tree
    }

    /// The root, from which every path starts.
    pub fn root(&self) -> (root: usize)
        requires
            self.wf(),
        ensures
            root == 0,
            root < self@.len(),
    {
        0
    }

    /// The number of nodes.
    pub fn len(&self) -> (n: usize)
        ensures
            n == self@.len(),
    {
        self.nodes.len()
    }

    /// Whether `node` has a child with the segment `key`.
    pub fn has_child(&self, node: usize, key: &Segment) -> (found: bool)
        requires
            self.wf(),
            node < self@.len(),
        ensures
            found == has_pattern(self@, self@[node as int].pattern.push(key@)),
    {
        let found = find_child(&self.nodes, node, &key.name, key.segment_type);
        proof {
            if let Some(c) = found {
                assert(self@[c as int].pattern == self@[node as int].pattern.push(key@));
            }
        }
        found.is_some()
    }

    /// The child of `node` with the segment `key`, if it has one.
    pub fn child(&self, node: usize, key: &Segment) -> (found: Option<usize>)
        requires
            self.wf(),
            node < self@.len(),
        ensures
            (match found {
                Some(c) => c < self@.len() && self@[c as int].pattern == self@[node as int].pattern.push(
                    key@,
                ),
                None => !has_pattern(self@, self@[node as int].pattern.push(key@)),
            }),
    {
        find_child(&self.nodes, node, &key.name, key.segment_type)
    }

    /// Adds a child with the segment `segment` under `node`, unless `node`
    /// has such a child already: then nothing changes.
    pub fn add_child(&mut self, node: usize, segment: Segment) -> (added: bool)
        requires
            old(self).wf(),
            node < old(self)@.len(),
        ensures
            final(self).wf(),
            added == !has_pattern(old(self)@, old(self)@[node as int].pattern.push(segment@)),
            added ==> final(self)@ == old(self)@.push(
                NodeView {
                    pattern: old(self)@[node as int].pattern.push(segment@),
                    routes: Seq::empty(),
                },
            ),
            !added ==> final(self)@ == old(self)@,
    {
        let found = find_child(&self.nodes, node, &segment.name, segment.segment_type);
        if found.is_some() {
            proof {
                let c = found->0;
                assert(self@[c as int].pattern == self@[node as int].pattern.push(segment@));
            }
            return false;
        }
        let index = self.nodes.len();
        let ghost before = self.nodes@;
        let ghost pattern = before[node as int].pattern@.push(segment@);
        let child = Node {
            segment: segment.name,
            segment_type: segment.segment_type,
            children: Vec::new(),
            routes: Vec::new(),
            pattern: Ghost(pattern),
            parent: Ghost(node as int),
        };
        self.nodes.push(child);
        self.nodes[node].children.push(index);
        proof {
            let after = self.nodes@;
            assert(after.len() == before.len() + 1);
            assert(after[index as int].pattern@ == pattern);
            assert(after[index as int].key() == segment@);
            assert(after[node as int].children@ == before[node as int].children@.push(index));
            assert forall|i: int| 0 <= i < before.len() implies (#[trigger] after[i]).pattern@
                == before[i].pattern@ && after[i].parent@ == before[i].parent@ && after[i].key()
                == before[i].key() && after[i].routes@ == before[i].routes@ && (i != node
                ==> after[i].children@ == before[i].children@) by {}
            assert forall|i: int| 0 < i < after.len() implies #[trigger] linked_up(after, i) by {
                if i < before.len() {
                    assert(linked_up(before, i));
                    let p = before[i].parent@;
                    if p == node {
                        let k = choose|k: int|
                            0 <= k < before[p].children@.len() && before[p].children@[k]
                                == i as usize;
                        assert(after[p].children@[k] == i as usize);
                    }
                } else {
                    assert(after[node as int].children@[before[node as int].children@.len() as int]
                        == index);
                }
            }
            assert forall|n: int, k: int|
                0 <= n < after.len() && 0 <= k < after[n].children@.len()
                implies #[trigger] linked_down(after, n, k) by {
                if n == node && k == before[node as int].children@.len() {
                } else {
                    assert(linked_down(before, n, k));
                }
            }
            assert forall|n: int, j: int, k: int|
                0 <= n < after.len() && 0 <= j < k < after[n].children@.len()
                implies #[trigger] after[n].children@[j] < #[trigger] after[n].children@[k] by {
                if n == node && k == before[node as int].children@.len() {
                    assert(linked_down(before, n, j));
                } else {
                    assert(before[n].children@[j] < before[n].children@[k]);
                }
            }
            assert forall|i: int, j: int|
                0 <= i < after.len() && 0 <= j < after.len() && #[trigger] same_pattern(
                    after,
                    i,
                    j,
                ) implies i == j by {
                if i < before.len() && j < before.len() {
                    assert(same_pattern(before, i, j));
                } else if i < before.len() {
                    assert(arena_view(before)[i].pattern == pattern);
                } else if j < before.len() {
                    assert(arena_view(before)[j].pattern == pattern);
                }
            }
            assert(self@ =~= old(self)@.push(
                NodeView { pattern: pattern, routes: Seq::empty() },
            ));
        }
        true
    }

    /// Adds `route` after the routes that `node` already holds.
    pub fn add_route(&mut self, node: usize, route: R)
        requires
            old(self).wf(),
            node < old(self)@.len(),
        ensures
            final(self).wf(),
            final(self)@ == with_route(old(self)@, node as int, route),
    {
        let ghost before = self.nodes@;
        self.nodes[node].routes.push(route);
        proof {
            let after = self.nodes@;
            assert forall|i: int| 0 <= i < before.len() implies (#[trigger] after[i]).pattern@
                == before[i].pattern@ && after[i].parent@ == before[i].parent@ && after[i].key()
                == before[i].key() && after[i].children@ == before[i].children@ by {}
            assert forall|i: int| 0 < i < after.len() implies #[trigger] linked_up(after, i) by {
                assert(linked_up(before, i));
            }
            assert forall|n: int, k: int|
                0 <= n < after.len() && 0 <= k < after[n].children@.len()
                implies #[trigger] linked_down(after, n, k) by {
                assert(linked_down(before, n, k));
            }
            assert forall|n: int, j: int, k: int|
                0 <= n < after.len() && 0 <= j < k < after[n].children@.len()
                implies #[trigger] after[n].children@[j] < #[trigger] after[n].children@[k] by {
                assert(before[n].children@[j] < before[n].children@[k]);
            }
            assert forall|i: int, j: int|
                0 <= i < after.len() && 0 <= j < after.len() && #[trigger] same_pattern(
                    after,
                    i,
                    j,
                ) implies i == j by {
                assert(same_pattern(before, i, j));
            }
            assert(self@ =~= old(self)@.update(
                node as int,
                NodeView {
                    pattern: old(self)@[node as int].pattern,
                    routes: old(self)@[node as int].routes.push(route),
                },
            ));
        }
    }

    /// Closes the tree: what it holds can be looked up and no longer changed.
    pub fn finalize(self) -> (tree: Tree<R>)
        requires
            self.wf(),
        ensures
            tree.wf(),
            tree@ == self@,
    {
        Tree { nodes: self.nodes }
    }
}

/// A finished tree.
pub struct Tree<R> {
    nodes: Vec<Node<R>>,
}

impl<R> Tree<R> {
    /// What the nodes stand for, in the order of their creation; the root
    /// is the first.
    pub closed spec fn view(&self) -> Seq<NodeView<R>> {
        arena_view(self.nodes@)
    }

    /// The invariant of the tree.
    pub closed spec fn wf(&self) -> bool {
        arena_wf(self.nodes@)
    }

    /// What a well-formed tree holds is the node list of a tree.
    pub proof fn lemma_view_is_tree(&self)
        requires
            self.wf(),
        ensures
            is_tree(self@),
    {
        lemma_arena_is_tree(self.nodes@);
    }

    /// The number of nodes.
    pub fn len(&self) -> (n: usize)
        ensures
            n == self@.len(),
    {
        self.nodes.len()
    }

    /// Follows the segments of a request from the root.
    pub fn lookup(&self, segments: &Vec<String>) -> (found: Option<Found>)
        requires
            self.wf(),
        ensures
            (match lookup(self@, string_views(segments@)) {
                Some(n) => found is Some && found->0.node == n && n < self@.len() && param_views(
                    found->0.params@,
                ) == bindings(self@[n].pattern, string_views(segments@)),
                None => found is None,
            }),
    {
        let ghost view = self@;
        let ghost wanted = string_views(segments@);
        let mut node: usize = 0;
        let mut params: Vec<PathParam> = Vec::new();
        let mut k: usize = 0;
        assert(param_views(params@) =~= bindings(view[0].pattern, wanted.take(0)));
        while k < segments.len()
            invariant
                self.wf(),
                view == self@,
                wanted == string_views(segments@),
                k <= segments.len(),
                node < self.nodes.len(),
                walk(view, wanted, k as nat) == Some(node as int),
                view[node as int].pattern.len() == k,
                param_views(params@) == bindings(view[node as int].pattern, wanted.take(k as int)),
            decreases segments.len() - k,
        {
            let segment = &segments[k];
            assert(wanted[k as int] == segment@);
            match select(&self.nodes, node, segment) {
                Some(c) => {
                    let ghost before = param_views(params@);
                    let ghost pattern = view[c as int].pattern;
                    proof {
                        assert(pattern.drop_last() =~= view[node as int].pattern);
                        assert(wanted.take(k + 1).drop_last() =~= wanted.take(k as int));
                        assert(wanted.take(k + 1).last() == segment@);
                    }
                    if self.nodes[c].segment_type == SegmentType::Dynamic {
                        params.push(
                            PathParam { name: self.nodes[c].segment.clone(), value: segment.clone() },
                        );
                        assert(param_views(params@) =~= before.push(
                            (pattern.last().name, segment@),
                        ));
                    }
                    node = c;
                },
                None => {
                    proof {
                        lemma_walk_stays_lost(view, wanted, (k + 1) as nat, wanted.len());
                    }
                    return None;
                },
            }
            k += 1;
        }
        proof {
            assert(wanted.take(k as int) =~= wanted);
        }
        Some(Found { node, params })
    }

    /// The routes that `node` holds, in the order of their registration.
    pub fn routes(&self, node: usize) -> (routes: &Vec<R>)
        requires
            node < self@.len(),
        ensures
            routes@ == self@[node as int].routes,
    {
        &self.nodes[node].routes
    }
}

} // verus!

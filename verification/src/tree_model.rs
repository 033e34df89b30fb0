//! What a segment tree means.
//!
//! A tree is described by the list of its nodes in the order of their
//! creation. A node stands for a pattern, the segments on the way from the
//! root to it, and holds the routes registered under that pattern. How a
//! request is led through the tree, and what registering does to it, is
//! said here over such lists; the arena that holds a tree in memory is
//! proved to behave so.

use vstd::prelude::*;
use crate::path::{SegmentType, SegmentView};

verus! {

/// What a node of the tree stands for: a pattern and the routes under it.
pub struct NodeView<R> {
    pub pattern: Seq<SegmentView>,
    pub routes: Seq<R>,
}

/// Whether some node of `nodes` stands for `pattern`.
pub open spec fn has_pattern<R>(nodes: Seq<NodeView<R>>, pattern: Seq<SegmentView>) -> bool {
    exists|i: int| 0 <= i < nodes.len() && (#[trigger] nodes[i]).pattern == pattern
}

/// The index of a node of `nodes` that stands for `pattern`.
pub open spec fn index_of_pattern<R>(nodes: Seq<NodeView<R>>, pattern: Seq<SegmentView>) -> int {
    choose|i: int| 0 <= i < nodes.len() && (#[trigger] nodes[i]).pattern == pattern
}

/// Whether the node at `i` comes after the node for its pattern without the
/// last segment.
pub open spec fn parent_precedes<R>(nodes: Seq<NodeView<R>>, i: int) -> bool {
    nodes[i].pattern.len() > 0 && exists|j: int|
        0 <= j < i && (#[trigger] nodes[j]).pattern == nodes[i].pattern.drop_last()
}

/// Whether `nodes` is the node list of a tree: the root comes first and
/// stands for the empty pattern, no two nodes stand for the same pattern, and
/// every other node comes after the node for its pattern without the last
/// segment.
pub open spec fn is_tree<R>(nodes: Seq<NodeView<R>>) -> bool {
    &&& nodes.len() >= 1
    &&& nodes[0].pattern.len() == 0
    &&& forall|i: int, j: int|
        0 <= i < nodes.len() && 0 <= j < nodes.len() && (#[trigger] nodes[i]).pattern == (
        #[trigger] nodes[j]).pattern ==> i == j
    &&& forall|i: int| 0 < i < nodes.len() ==> #[trigger] parent_precedes(nodes, i)
}

/// `nodes` with `route` added after the routes of the node at `node`.
pub open spec fn with_route<R>(nodes: Seq<NodeView<R>>, node: int, route: R) -> Seq<NodeView<R>> {
    nodes.update(
        node,
        NodeView { pattern: nodes[node].pattern, routes: nodes[node].routes.push(route) },
    )
}

/// `nodes` with a node for `pattern` and for each of its beginnings: those
/// that `nodes` lacks are added at the end, the shorter first, without
/// routes.
pub open spec fn with_pattern<R>(nodes: Seq<NodeView<R>>, pattern: Seq<SegmentView>) -> Seq<
    NodeView<R>,
>
    decreases pattern.len(),
{
    if pattern.len() == 0 {
        nodes
    } else {
        let shorter = with_pattern(nodes, pattern.drop_last());
        if has_pattern(shorter, pattern) {
            shorter
        } else {
            shorter.push(NodeView { pattern, routes: Seq::empty() })
        }
    }
}

/// Whether the node at `i` stands for `prefix` followed by one dynamic
/// segment.
pub open spec fn is_dynamic_child<R>(
    nodes: Seq<NodeView<R>>,
    prefix: Seq<SegmentView>,
    i: int,
) -> bool {
    &&& 0 <= i < nodes.len()
    &&& nodes[i].pattern.len() == prefix.len() + 1
    &&& nodes[i].pattern.drop_last() == prefix
    &&& nodes[i].pattern.last().segment_type == SegmentType::Dynamic
}

/// Whether the node at `i` is the first that was created with `prefix` and
/// one dynamic segment as its pattern.
pub open spec fn is_first_dynamic_child<R>(
    nodes: Seq<NodeView<R>>,
    prefix: Seq<SegmentView>,
    i: int,
) -> bool {
    &&& is_dynamic_child(nodes, prefix, i)
    &&& forall|j: int| 0 <= j < i ==> !is_dynamic_child(nodes, prefix, j)
}

/// The node that a request segment leads to from the node for `prefix`: the
/// node for `prefix` followed by the segment as a static one, if there is
/// one; else the first that was created for `prefix` followed by a dynamic
/// segment, if there is one.
pub open spec fn select_child<R>(
    nodes: Seq<NodeView<R>>,
    prefix: Seq<SegmentView>,
    segment: Seq<char>,
) -> Option<int> {
    let fixed = prefix.push(SegmentView { name: segment, segment_type: SegmentType::Static });
    if has_pattern(nodes, fixed) {
        Some(index_of_pattern(nodes, fixed))
    } else if exists|i: int| is_first_dynamic_child(nodes, prefix, i) {
        Some(choose|i: int| is_first_dynamic_child(nodes, prefix, i))
    } else {
        None
    }
}

/// The node reached from the root by the first `taken` of `segments`, if
/// every one of them led on.
pub open spec fn walk<R>(nodes: Seq<NodeView<R>>, segments: Seq<Seq<char>>, taken: nat) -> Option<
    int,
>
    decreases taken,
{
    if taken == 0 {
        Some(0)
    } else {
        match walk(nodes, segments, (taken - 1) as nat) {
            Some(n) => select_child(nodes, nodes[n].pattern, segments[taken - 1]),
            None => None,
        }
    }
}

/// The node that the segments of a request lead to, if there is one.
pub open spec fn lookup<R>(nodes: Seq<NodeView<R>>, segments: Seq<Seq<char>>) -> Option<int> {
    walk(nodes, segments, segments.len())
}

/// What the dynamic segments of `pattern` bind when the pattern is matched by
/// `segments`: for each of them, in order, its name and the request segment
/// at its place.
pub open spec fn bindings(pattern: Seq<SegmentView>, segments: Seq<Seq<char>>) -> Seq<
    (Seq<char>, Seq<char>),
>
    decreases pattern.len(),
{
    if pattern.len() == 0 || segments.len() == 0 {
        Seq::empty()
    } else {
        let before = bindings(pattern.drop_last(), segments.drop_last());
        if pattern.last().segment_type == SegmentType::Dynamic {
            before.push((pattern.last().name, segments.last()))
        } else {
            before
        }
    }
}

/// A walk ends at a node of the list.
pub proof fn lemma_walk_in_range<R>(nodes: Seq<NodeView<R>>, segments: Seq<Seq<char>>, taken: nat)
    requires
        nodes.len() >= 1,
    ensures
        walk(nodes, segments, taken) matches Some(n) ==> 0 <= n < nodes.len(),
    decreases taken,
{
    if taken > 0 {
        lemma_walk_in_range(nodes, segments, (taken - 1) as nat);
    }
}

/// Once a segment leads nowhere, no later one leads anywhere.
pub proof fn lemma_walk_stays_lost<R>(
    nodes: Seq<NodeView<R>>,
    segments: Seq<Seq<char>>,
    taken: nat,
    later: nat,
)
    requires
        taken <= later,
        walk(nodes, segments, taken) is None,
    ensures
        walk(nodes, segments, later) is None,
    decreases later,
{
    if taken < later {
        lemma_walk_stays_lost(nodes, segments, taken, (later - 1) as nat);
    }
}

/// The pattern of static segments that is matched by `segments` alone.
pub open spec fn static_pattern(segments: Seq<Seq<char>>) -> Seq<SegmentView> {
    Seq::new(
        segments.len(),
        |i: int| SegmentView { name: segments[i], segment_type: SegmentType::Static },
    )
}

/// Whether `segments` match `pattern`: there are as many of them, and at
/// the place of each static segment of the pattern stands its name.
pub open spec fn matches_pattern(pattern: Seq<SegmentView>, segments: Seq<Seq<char>>) -> bool {
    &&& pattern.len() == segments.len()
    &&& forall|i: int|
        0 <= i < pattern.len() && (#[trigger] pattern[i]).segment_type == SegmentType::Static
            ==> pattern[i].name == segments[i]
}

/// Adding nodes for a pattern keeps the nodes that were there, with their
/// routes, at their places; the nodes that are added have no routes.
pub proof fn lemma_with_pattern_keeps_routes<R>(nodes: Seq<NodeView<R>>, pattern: Seq<SegmentView>)
    ensures
        with_pattern(nodes, pattern).len() >= nodes.len(),
        forall|i: int| 0 <= i < nodes.len() ==> #[trigger] with_pattern(nodes, pattern)[i] == nodes[i],
        forall|i: int|
            nodes.len() <= i < with_pattern(nodes, pattern).len() ==> (#[trigger] with_pattern(
                nodes,
                pattern,
            )[i]).routes.len() == 0,
    decreases pattern.len(),
{
    if pattern.len() > 0 {
        lemma_with_pattern_keeps_routes(nodes, pattern.drop_last());
    }
}

/// Adding a route keeps the node list that of a tree.
pub proof fn lemma_with_route_is_tree<R>(nodes: Seq<NodeView<R>>, node: int, route: R)
    requires
        is_tree(nodes),
        0 <= node < nodes.len(),
    ensures
        is_tree(with_route(nodes, node, route)),
{
    let after = with_route(nodes, node, route);
    assert forall|i: int, j: int|
        0 <= i < after.len() && 0 <= j < after.len() && (#[trigger] after[i]).pattern == (
        #[trigger] after[j]).pattern implies i == j by {
        assert(nodes[i].pattern == nodes[j].pattern);
    }
    assert forall|i: int| 0 < i < after.len() implies #[trigger] parent_precedes(after, i) by {
        assert(parent_precedes(nodes, i));
        let j = choose|j: int|
            0 <= j < i && (#[trigger] nodes[j]).pattern == nodes[i].pattern.drop_last();
        assert(after[j].pattern == after[i].pattern.drop_last());
    }
}

/// Adding the nodes for a pattern keeps the node list that of a tree, and
/// the list then has a node for the pattern.
pub proof fn lemma_with_pattern_is_tree<R>(nodes: Seq<NodeView<R>>, pattern: Seq<SegmentView>)
    requires
        is_tree(nodes),
    ensures
        is_tree(with_pattern(nodes, pattern)),
        has_pattern(with_pattern(nodes, pattern), pattern),
    decreases pattern.len(),
{
    if pattern.len() == 0 {
        assert(nodes[0].pattern =~= pattern);
    } else {
        let shorter = with_pattern(nodes, pattern.drop_last());
        lemma_with_pattern_is_tree(nodes, pattern.drop_last());
        if !has_pattern(shorter, pattern) {
            let after = shorter.push(NodeView { pattern, routes: Seq::empty() });
            let last = shorter.len() as int;
            assert(after[last].pattern == pattern);
            assert forall|i: int, j: int|
                0 <= i < after.len() && 0 <= j < after.len() && (#[trigger] after[i]).pattern == (
                #[trigger] after[j]).pattern implies i == j by {
                if i < last && j < last {
                    assert(shorter[i].pattern == shorter[j].pattern);
                } else if i < last {
                    assert(shorter[i].pattern == pattern);
                } else if j < last {
                    assert(shorter[j].pattern == pattern);
                }
            }
            assert forall|i: int| 0 < i < after.len() implies #[trigger] parent_precedes(
                after,
                i,
            ) by {
                if i < last {
                    assert(parent_precedes(shorter, i));
                    let j = choose|j: int|
                        0 <= j < i && (#[trigger] shorter[j]).pattern
                            == shorter[i].pattern.drop_last();
                    assert(after[j].pattern == after[i].pattern.drop_last());
                } else {
                    let j = index_of_pattern(shorter, pattern.drop_last());
                    assert(after[j].pattern == after[i].pattern.drop_last());
                }
            }
        }
    }
}

/// A tree that has a node for a pattern has one for each of its beginnings.
pub proof fn lemma_beginnings_have_nodes<R>(nodes: Seq<NodeView<R>>, node: int, length: int)
    requires
        is_tree(nodes),
        0 <= node < nodes.len(),
        0 <= length <= nodes[node].pattern.len(),
    ensures
        has_pattern(nodes, nodes[node].pattern.take(length)),
    decreases node,
{
    let pattern = nodes[node].pattern;
    if length == pattern.len() {
        assert(pattern.take(length) =~= pattern);
    } else {
        assert(node > 0);
        assert(parent_precedes(nodes, node));
        let j = choose|j: int| 0 <= j < node && (#[trigger] nodes[j]).pattern == pattern.drop_last();
        lemma_beginnings_have_nodes(nodes, j, length);
        assert(pattern.drop_last().take(length) =~= pattern.take(length));
    }
}

/// Whether a request segment `segment` leads from the node for `prefix` to
/// the node for `prefix` followed by `next`: a static `next` has the segment
/// as its name; a dynamic `next` is the first dynamic segment that was
/// registered after `prefix`, and no static one has the segment as its name.
pub open spec fn leads_on<R>(
    nodes: Seq<NodeView<R>>,
    prefix: Seq<SegmentView>,
    next: SegmentView,
    segment: Seq<char>,
) -> bool {
    match next.segment_type {
        SegmentType::Static => next.name == segment,
        SegmentType::Dynamic => {
            &&& !has_pattern(
                nodes,
                prefix.push(SegmentView { name: segment, segment_type: SegmentType::Static }),
            )
            &&& forall|i: int|
                is_dynamic_child(nodes, prefix, i) ==> index_of_pattern(nodes, prefix.push(next))
                    <= i
        },
    }
}

/// Whether every one of `segments` leads on along `pattern`.
pub open spec fn leads_along<R>(
    nodes: Seq<NodeView<R>>,
    pattern: Seq<SegmentView>,
    segments: Seq<Seq<char>>,
) -> bool {
    &&& pattern.len() == segments.len()
    &&& forall|k: int|
        0 <= k < pattern.len() ==> #[trigger] leads_on(
            nodes,
            pattern.take(k),
            pattern[k],
            segments[k],
        )
}

/// A path leads to the node for a pattern if each of its segments leads on
/// along the pattern.
pub proof fn lemma_path_leads_to_its_node<R>(
    nodes: Seq<NodeView<R>>,
    segments: Seq<Seq<char>>,
    node: int,
)
    requires
        is_tree(nodes),
        0 <= node < nodes.len(),
        leads_along(nodes, nodes[node].pattern, segments),
    ensures
        lookup(nodes, segments) == Some(node),
{
    let pattern = nodes[node].pattern;
    lemma_walk_along(nodes, segments, node, segments.len());
    assert(pattern.take(segments.len() as int) =~= pattern);
    let found = index_of_pattern(nodes, pattern);
    assert(nodes[found].pattern == nodes[node].pattern);
}

/// The first `taken` segments of such a path lead to the node for the
/// first `taken` segments of the pattern.
proof fn lemma_walk_along<R>(
    nodes: Seq<NodeView<R>>,
    segments: Seq<Seq<char>>,
    node: int,
    taken: nat,
)
    requires
        is_tree(nodes),
        0 <= node < nodes.len(),
        leads_along(nodes, nodes[node].pattern, segments),
        taken <= segments.len(),
    ensures
        has_pattern(nodes, nodes[node].pattern.take(taken as int)),
        walk(nodes, segments, taken) == Some(
            index_of_pattern(nodes, nodes[node].pattern.take(taken as int)),
        ),
    decreases taken,
{
    let whole = nodes[node].pattern;
    lemma_beginnings_have_nodes(nodes, node, taken as int);
    if taken == 0 {
        let found = index_of_pattern(nodes, whole.take(0));
        assert(nodes[found].pattern == nodes[0].pattern);
    } else {
        lemma_walk_along(nodes, segments, node, (taken - 1) as nat);
        let prefix = whole.take(taken - 1);
        let next = whole[taken - 1];
        let segment = segments[taken - 1];
        let before = index_of_pattern(nodes, prefix);
        let target = index_of_pattern(nodes, whole.take(taken as int));
        assert(nodes[before].pattern == prefix);
        assert(prefix.push(next) =~= whole.take(taken as int));
        assert(leads_on(nodes, prefix, next, segment));
        match next.segment_type {
            SegmentType::Static => {
                assert(next == SegmentView { name: segment, segment_type: SegmentType::Static });
            },
            SegmentType::Dynamic => {
                assert(nodes[target].pattern.drop_last() =~= prefix);
                assert(is_first_dynamic_child(nodes, prefix, target));
                let chosen = choose|i: int| is_first_dynamic_child(nodes, prefix, i);
                if chosen < target {
                    assert(!is_dynamic_child(nodes, prefix, chosen));
                } else if target < chosen {
                    assert(!is_dynamic_child(nodes, prefix, target));
                }
            },
        }
    }
}

/// A path whose segments are the names of a pattern of static segments
/// leads to the node for that pattern.
pub proof fn lemma_static_path_leads_to_its_node<R>(
    nodes: Seq<NodeView<R>>,
    segments: Seq<Seq<char>>,
    node: int,
)
    requires
        is_tree(nodes),
        0 <= node < nodes.len(),
        nodes[node].pattern == static_pattern(segments),
    ensures
        lookup(nodes, segments) == Some(node),
{
    let pattern = nodes[node].pattern;
    assert forall|k: int| 0 <= k < pattern.len() implies #[trigger] leads_on(
        nodes,
        pattern.take(k),
        pattern[k],
        segments[k],
    ) by {}
    lemma_path_leads_to_its_node(nodes, segments, node);
}

/// The segments of a path match the pattern of the node that they lead to.
pub proof fn lemma_walk_matches_pattern<R>(
    nodes: Seq<NodeView<R>>,
    segments: Seq<Seq<char>>,
    taken: nat,
)
    requires
        is_tree(nodes),
        taken <= segments.len(),
    ensures
        walk(nodes, segments, taken) matches Some(n) ==> 0 <= n < nodes.len() && matches_pattern(
            nodes[n].pattern,
            segments.take(taken as int),
        ),
    decreases taken,
{
    lemma_walk_in_range(nodes, segments, taken);
    if taken > 0 {
        lemma_walk_matches_pattern(nodes, segments, (taken - 1) as nat);
        lemma_walk_in_range(nodes, segments, (taken - 1) as nat);
        if let Some(before) = walk(nodes, segments, (taken - 1) as nat) {
            if let Some(n) = select_child(nodes, nodes[before].pattern, segments[taken - 1]) {
                let pattern = nodes[n].pattern;
                let prefix = nodes[before].pattern;
                assert(pattern.drop_last() =~= prefix);
                assert(pattern.len() == taken);
                assert forall|i: int|
                    0 <= i < pattern.len() && (#[trigger] pattern[i]).segment_type
                        == SegmentType::Static implies pattern[i].name == segments.take(
                    taken as int,
                )[i] by {
                    if i < taken - 1 {
                        assert(pattern[i] == prefix[i]);
                        assert(segments.take(taken - 1)[i] == segments[i]);
                    }
                }
            }
        }
    }
}

} // verus!

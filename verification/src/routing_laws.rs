//! What holds of registering routes and of resolving requests, whatever is
//! registered.

use vstd::prelude::*;
use crate::method::MethodView;
use crate::path::{
    is_static_path, parse_segment, path_pattern, path_segments, SegmentType, SegmentView,
};
use crate::route::Route;
use crate::router::{accepts_first, allowed_methods, resolve, Resolution};
use crate::tree_model::{
    bindings, has_pattern, index_of_pattern, is_dynamic_child, is_first_dynamic_child, is_tree,
    leads_along, lemma_beginnings_have_nodes, lemma_path_leads_to_its_node,
    lemma_static_path_leads_to_its_node, lemma_walk_matches_pattern, lemma_with_pattern_is_tree,
    lemma_with_pattern_keeps_routes, lemma_with_route_is_tree, matches_pattern, select_child,
    static_pattern, with_pattern, with_route, NodeView,
};

verus! {

/// What registering `route` under `path` makes of `nodes`: the nodes for
/// the path are added where they are missing, and the route is added after
/// the routes that the node for the path holds.
pub open spec fn with_registration<R>(nodes: Seq<NodeView<R>>, path: Seq<char>, route: R) -> Seq<
    NodeView<R>,
> {
    let grown = with_pattern(nodes, path_pattern(path));
    with_route(grown, index_of_pattern(grown, path_pattern(path)), route)
}

/// Whether `shorter` is a beginning of `longer`.
pub open spec fn begins_with<T>(longer: Seq<T>, shorter: Seq<T>) -> bool {
    shorter.len() <= longer.len() && longer.take(shorter.len() as int) == shorter
}

/// The pattern of a path without dynamic segments is made of its segments
/// as static ones.
pub proof fn lemma_static_path_pattern(path: Seq<char>)
    requires
        is_static_path(path),
    ensures
        path_pattern(path) == static_pattern(path_segments(path)),
{
    let segments = path_segments(path);
    assert forall|i: int| 0 <= i < segments.len() implies path_pattern(path)[i] == static_pattern(
        segments,
    )[i] by {
        assert(parse_segment(segments[i]).segment_type == SegmentType::Static);
    }
    assert(path_pattern(path) =~= static_pattern(segments));
}

/// Registration only adds. A registration keeps the list that of a tree;
/// every node that was there stays at its place with its pattern, and its
/// routes stay the first of its routes, in their order; the node for the
/// path holds the new route as its last.
pub proof fn law_registration_only_adds<R>(nodes: Seq<NodeView<R>>, path: Seq<char>, route: R)
    requires
        is_tree(nodes),
    ensures
        ({
            let after = with_registration(nodes, path, route);
            let target = index_of_pattern(after, path_pattern(path));
            &&& is_tree(after)
            &&& after.len() >= nodes.len()
            &&& forall|i: int|
                0 <= i < nodes.len() ==> (#[trigger] after[i]).pattern == nodes[i].pattern
                    && begins_with(after[i].routes, nodes[i].routes)
            &&& 0 <= target < after.len()
            &&& after[target].pattern == path_pattern(path)
            &&& after[target].routes.len() > 0
            &&& after[target].routes.last() == route
        }),
{
    let pattern = path_pattern(path);
    let grown = with_pattern(nodes, pattern);
    lemma_with_pattern_is_tree(nodes, pattern);
    lemma_with_pattern_keeps_routes(nodes, pattern);
    let node = index_of_pattern(grown, pattern);
    lemma_with_route_is_tree(grown, node, route);
    let after = with_registration(nodes, path, route);
    assert(after[node].pattern == pattern);
    let target = index_of_pattern(after, pattern);
    assert(after[target].pattern == after[node].pattern);
    assert forall|i: int| 0 <= i < nodes.len() implies (#[trigger] after[i]).pattern
        == nodes[i].pattern && begins_with(after[i].routes, nodes[i].routes) by {
        assert(grown[i] == nodes[i]);
        assert(after[i].routes.take(nodes[i].routes.len() as int) =~= nodes[i].routes);
    }
}

/// A registered route is reached. Where the node for a path without dynamic
/// segments holds a route that takes a method, a request for that path with
/// that method is dispatched at that node, to the first of the node's
/// routes that takes the method: to the route itself, unless one that was
/// registered before it takes the method too. Nothing is bound.
pub proof fn law_registered_route_is_dispatched<NH>(
    nodes: Seq<NodeView<Route<NH>>>,
    node: int,
    route: int,
    method: MethodView,
    path: Seq<char>,
)
    requires
        is_tree(nodes),
        is_static_path(path),
        0 <= node < nodes.len(),
        nodes[node].pattern == path_pattern(path),
        0 <= route < nodes[node].routes.len(),
        nodes[node].routes[route].methods().contains(method),
    ensures
        resolve(nodes, method, path) matches Resolution::Dispatch { node: n, route: r, params }
            && n == node && 0 <= r <= route && accepts_first(nodes[node].routes, method, r)
            && params.len() == 0,
        (forall|j: int| 0 <= j < route ==> !(#[trigger] nodes[node].routes[j]).methods().contains(
            method,
        )) ==> resolve(nodes, method, path)->route == route,
{
    let segments = path_segments(path);
    let routes = nodes[node].routes;
    lemma_static_path_pattern(path);
    lemma_static_path_leads_to_its_node(nodes, segments, node);
    lemma_first_taker(routes, method, route);
    let r = choose|r: int| accepts_first(routes, method, r);
    if r > route {
        assert(!routes[route].methods().contains(method));
    }
    lemma_static_binds_nothing(static_pattern(segments), segments);
}

/// A request that nothing leads astray is dispatched. Where the node for a
/// pattern holds a route that takes a method, and each segment of a path
/// leads on along the pattern, a request for that path with that method is
/// dispatched at that node, to the first of the node's routes that takes
/// the method, with what the dynamic segments of the pattern bind.
pub proof fn law_matching_request_is_dispatched<NH>(
    nodes: Seq<NodeView<Route<NH>>>,
    node: int,
    route: int,
    method: MethodView,
    path: Seq<char>,
)
    requires
        is_tree(nodes),
        0 <= node < nodes.len(),
        leads_along(nodes, nodes[node].pattern, path_segments(path)),
        0 <= route < nodes[node].routes.len(),
        nodes[node].routes[route].methods().contains(method),
    ensures
        resolve(nodes, method, path) matches Resolution::Dispatch { node: n, route: r, params }
            && n == node && 0 <= r <= route && accepts_first(nodes[node].routes, method, r)
            && params == bindings(nodes[node].pattern, path_segments(path)),
{
    let routes = nodes[node].routes;
    lemma_path_leads_to_its_node(nodes, path_segments(path), node);
    lemma_first_taker(routes, method, route);
    let r = choose|r: int| accepts_first(routes, method, r);
    if r > route {
        assert(!routes[route].methods().contains(method));
    }
}

/// Where some route of a list takes a method, one of them is the first.
pub proof fn lemma_first_taker<NH>(routes: Seq<Route<NH>>, method: MethodView, route: int)
    requires
        0 <= route < routes.len(),
        routes[route].methods().contains(method),
    ensures
        exists|r: int| accepts_first(routes, method, r),
    decreases route,
{
    if exists|j: int| 0 <= j < route && (#[trigger] routes[j]).methods().contains(method) {
        let j = choose|j: int| 0 <= j < route && (#[trigger] routes[j]).methods().contains(method);
        lemma_first_taker(routes, method, j);
    } else {
        assert(accepts_first(routes, method, route));
    }
}

/// A pattern of static segments binds nothing.
pub proof fn lemma_static_binds_nothing(
    pattern: Seq<SegmentView>,
    segments: Seq<Seq<char>>,
)
    requires
        forall|i: int|
            0 <= i < pattern.len() ==> (#[trigger] pattern[i]).segment_type
                == SegmentType::Static,
    ensures
        bindings(pattern, segments).len() == 0,
    decreases pattern.len(),
{
    if pattern.len() > 0 && segments.len() > 0 {
        assert forall|i: int| 0 <= i < pattern.drop_last().len() implies (
        #[trigger] pattern.drop_last()[i]).segment_type == SegmentType::Static by {
            assert(pattern.drop_last()[i] == pattern[i]);
        }
        lemma_static_binds_nothing(pattern.drop_last(), segments.drop_last());
    }
}

/// A static segment wins. Where a node stands for `prefix` followed by a
/// request segment as a static one, the segment leads from the node for
/// `prefix` to that node, whatever dynamic segments were registered there.
pub proof fn law_static_segment_wins<R>(
    nodes: Seq<NodeView<R>>,
    prefix: Seq<SegmentView>,
    segment: Seq<char>,
    node: int,
)
    requires
        is_tree(nodes),
        0 <= node < nodes.len(),
        nodes[node].pattern == prefix.push(
            SegmentView { name: segment, segment_type: SegmentType::Static },
        ),
    ensures
        select_child(nodes, prefix, segment) == Some(node),
{
    let fixed = prefix.push(SegmentView { name: segment, segment_type: SegmentType::Static });
    let found = index_of_pattern(nodes, fixed);
    assert(nodes[found].pattern == nodes[node].pattern);
}

/// The first dynamic segment wins. Where no static segment after `prefix`
/// has a request segment as its name, the segment leads to the node of the
/// dynamic segment that was registered first after `prefix`, and to no node
/// at all if there is none.
pub proof fn law_first_dynamic_segment_wins<R>(
    nodes: Seq<NodeView<R>>,
    prefix: Seq<SegmentView>,
    segment: Seq<char>,
)
    requires
        !has_pattern(
            nodes,
            prefix.push(SegmentView { name: segment, segment_type: SegmentType::Static }),
        ),
    ensures
        (match select_child(nodes, prefix, segment) {
            Some(node) => is_dynamic_child(nodes, prefix, node) && forall|other: int|
                is_dynamic_child(nodes, prefix, other) ==> node <= other,
            None => forall|other: int| !is_dynamic_child(nodes, prefix, other),
        }),
{
    if exists|i: int| is_first_dynamic_child(nodes, prefix, i) {
        let node = choose|i: int| is_first_dynamic_child(nodes, prefix, i);
        assert forall|other: int| is_dynamic_child(nodes, prefix, other) implies node
            <= other by {
            if other < node {
                assert(!is_dynamic_child(nodes, prefix, other));
            }
        }
    } else {
        assert forall|other: int| !is_dynamic_child(nodes, prefix, other) by {
            if is_dynamic_child(nodes, prefix, other) {
                lemma_least_dynamic_child(nodes, prefix, other);
            }
        }
    }
}

/// Where a node stands for `prefix` followed by a dynamic segment, one such
/// node is the first.
proof fn lemma_least_dynamic_child<R>(nodes: Seq<NodeView<R>>, prefix: Seq<SegmentView>, node: int)
    requires
        is_dynamic_child(nodes, prefix, node),
    ensures
        exists|i: int| is_first_dynamic_child(nodes, prefix, i),
    decreases node,
{
    if exists|j: int| 0 <= j < node && is_dynamic_child(nodes, prefix, j) {
        let j = choose|j: int| 0 <= j < node && is_dynamic_child(nodes, prefix, j);
        lemma_least_dynamic_child(nodes, prefix, j);
    } else {
        assert(is_first_dynamic_child(nodes, prefix, node));
    }
}

/// A dynamic segment binds the request segment at its place, a static one
/// binds nothing.
pub proof fn law_one_segment_binds(segment: SegmentView, value: Seq<char>)
    ensures
        bindings(seq![segment], seq![value]) == if segment.segment_type == SegmentType::Dynamic {
            seq![(segment.name, value)]
        } else {
            Seq::empty()
        },
{
    let pattern = seq![segment];
    let segments = seq![value];
    assert(pattern.drop_last() =~= Seq::empty());
    assert(bindings(pattern.drop_last(), segments.drop_last()) =~= Seq::empty());
    assert(bindings(pattern, segments) =~= if segment.segment_type == SegmentType::Dynamic {
        seq![(segment.name, value)]
    } else {
        Seq::empty()
    });
}

/// What a pattern binds is what its segments bind, in their order: the
/// bindings of two patterns put together are those of the first followed by
/// those of the second.
pub proof fn law_bindings_follow_the_pattern(
    first: Seq<SegmentView>,
    values: Seq<Seq<char>>,
    second: Seq<SegmentView>,
    more: Seq<Seq<char>>,
)
    requires
        first.len() == values.len(),
        second.len() == more.len(),
    ensures
        bindings(first + second, values + more) == bindings(first, values) + bindings(second, more),
    decreases second.len(),
{
    if second.len() == 0 {
        assert(first + second =~= first);
        assert(values + more =~= values);
        assert(bindings(first, values) + bindings(second, more) =~= bindings(first, values));
    } else {
        law_bindings_follow_the_pattern(first, values, second.drop_last(), more.drop_last());
        assert((first + second).drop_last() =~= first + second.drop_last());
        assert((values + more).drop_last() =~= values + more.drop_last());
        assert((first + second).last() == second.last());
        assert((values + more).last() == more.last());
        assert(bindings(first + second, values + more) =~= bindings(first, values) + bindings(
            second,
            more,
        ));
    }
}

/// The same path twice makes one node. Two registrations under one path
/// add its nodes once; the node for the path then holds the routes that it
/// held, then the first route, then the second.
pub proof fn law_same_path_shares_node<R>(
    nodes: Seq<NodeView<R>>,
    path: Seq<char>,
    first: R,
    second: R,
)
    requires
        is_tree(nodes),
    ensures
        ({
            let pattern = path_pattern(path);
            let grown = with_pattern(nodes, pattern);
            let once = with_registration(nodes, path, first);
            let twice = with_registration(once, path, second);
            let node = index_of_pattern(grown, pattern);
            &&& is_tree(twice)
            &&& twice.len() == once.len() == grown.len()
            &&& 0 <= node < twice.len()
            &&& forall|i: int|
                0 <= i < twice.len() && (#[trigger] twice[i]).pattern == pattern ==> i == node
            &&& twice[node].pattern == pattern
            &&& twice[node].routes == grown[node].routes.push(first).push(second)
            &&& forall|i: int| 0 <= i < twice.len() && i != node ==> #[trigger] twice[i] == grown[i]
        }),
{
    let pattern = path_pattern(path);
    let grown = with_pattern(nodes, pattern);
    lemma_with_pattern_is_tree(nodes, pattern);
    let node = index_of_pattern(grown, pattern);
    let once = with_route(grown, node, first);
    lemma_with_route_is_tree(grown, node, first);
    assert(once[node].pattern == pattern);
    lemma_has_pattern_stays(once, pattern);
    assert(with_pattern(once, pattern) == once);
    let again = index_of_pattern(once, pattern);
    assert(once[again].pattern == once[node].pattern);
    let twice = with_route(once, node, second);
    lemma_with_route_is_tree(once, node, second);
    assert forall|i: int| 0 <= i < twice.len() && (#[trigger] twice[i]).pattern
        == pattern implies i == node by {
        assert(twice[i].pattern == twice[node].pattern);
    }
    assert(twice[node].routes =~= grown[node].routes.push(first).push(second));
}

/// Two routes of one path are both reached. After two registrations under
/// one path without dynamic segments, a request for that path is dispatched
/// to the first of the two routes if it takes the request's method, and to
/// the second if that takes it and the first does not, unless a route that
/// the node held before takes the method.
pub proof fn law_routes_of_one_path_are_both_reached<NH>(
    nodes: Seq<NodeView<Route<NH>>>,
    path: Seq<char>,
    first: Route<NH>,
    second: Route<NH>,
    method: MethodView,
)
    requires
        is_tree(nodes),
        is_static_path(path),
        ({
            let grown = with_pattern(nodes, path_pattern(path));
            let held = grown[index_of_pattern(grown, path_pattern(path))].routes;
            forall|r: int| 0 <= r < held.len() ==> !(#[trigger] held[r]).methods().contains(method)
        }),
    ensures
        ({
            let grown = with_pattern(nodes, path_pattern(path));
            let node = index_of_pattern(grown, path_pattern(path));
            let held = grown[node].routes.len() as int;
            let twice = with_registration(with_registration(nodes, path, first), path, second);
            &&& first.methods().contains(method) ==> resolve(twice, method, path) == (
            Resolution::Dispatch { node, route: held, params: Seq::empty() })
            &&& !first.methods().contains(method) && second.methods().contains(method) ==> resolve(
                twice,
                method,
                path,
            ) == (Resolution::Dispatch { node, route: held + 1, params: Seq::empty() })
        }),
{
    let pattern = path_pattern(path);
    let grown = with_pattern(nodes, pattern);
    let node = index_of_pattern(grown, pattern);
    let held = grown[node].routes.len() as int;
    let twice = with_registration(with_registration(nodes, path, first), path, second);
    law_same_path_shares_node(nodes, path, first, second);
    let routes = twice[node].routes;
    assert(routes[held] == first);
    assert(routes[held + 1] == second);
    assert forall|j: int| 0 <= j < held implies !(#[trigger] routes[j]).methods().contains(
        method,
    ) by {
        assert(routes[j] == grown[node].routes[j]);
    }
    if first.methods().contains(method) {
        law_registered_route_is_dispatched(twice, node, held, method, path);
        let found = resolve(twice, method, path);
        assert(found->params =~= Seq::empty());
    } else if second.methods().contains(method) {
        law_registered_route_is_dispatched(twice, node, held + 1, method, path);
        let found = resolve(twice, method, path);
        assert(found->params =~= Seq::empty());
    }
}

/// A list that has a node for a pattern is not changed by adding the nodes
/// for that pattern.
pub proof fn lemma_has_pattern_stays<R>(nodes: Seq<NodeView<R>>, pattern: Seq<SegmentView>)
    requires
        is_tree(nodes),
        has_pattern(nodes, pattern),
    ensures
        with_pattern(nodes, pattern) == nodes,
    decreases pattern.len(),
{
    if pattern.len() > 0 {
        let node = index_of_pattern(nodes, pattern);
        lemma_beginnings_have_nodes(nodes, node, pattern.len() - 1);
        assert(pattern.take(pattern.len() - 1) =~= pattern.drop_last());
        lemma_has_pattern_stays(nodes, pattern.drop_last());
    }
}

/// The methods that a `405` response allows are those of the routes, no
/// more and no fewer.
pub proof fn law_allowed_is_union<NH>(routes: Seq<Route<NH>>)
    ensures
        forall|method: MethodView| #[trigger]
            allowed_methods(routes).contains(method) <==> exists|r: int|
                0 <= r < routes.len() && (#[trigger] routes[r]).methods().contains(method),
    decreases routes.len(),
{
    if routes.len() == 0 {
        assert forall|method: MethodView| !(#[trigger] allowed_methods(routes).contains(method)) by {}
    } else {
        let before = routes.drop_last();
        let head = allowed_methods(before);
        let tail = routes.last().methods();
        law_allowed_is_union(before);
        assert forall|method: MethodView| #[trigger]
            allowed_methods(routes).contains(method) <==> exists|r: int|
                0 <= r < routes.len() && (#[trigger] routes[r]).methods().contains(method) by {
            if allowed_methods(routes).contains(method) {
                let i = choose|i: int|
                    0 <= i < (head + tail).len() && (head + tail)[i] == method;
                if i < head.len() {
                    assert(head[i] == method);
                    assert(head.contains(method));
                    let r = choose|r: int|
                        0 <= r < before.len() && (#[trigger] before[r]).methods().contains(method);
                    assert(routes[r].methods().contains(method));
                } else {
                    assert(tail[i - head.len()] == method);
                    assert(routes[routes.len() - 1].methods().contains(method));
                }
            }
            if exists|r: int|
                0 <= r < routes.len() && (#[trigger] routes[r]).methods().contains(method) {
                let r = choose|r: int|
                    0 <= r < routes.len() && (#[trigger] routes[r]).methods().contains(method);
                if r < before.len() {
                    assert(before[r].methods().contains(method));
                    assert(head.contains(method));
                    let i = choose|i: int| 0 <= i < head.len() && head[i] == method;
                    assert((head + tail)[i] == method);
                } else {
                    let i = choose|i: int| 0 <= i < tail.len() && tail[i] == method;
                    assert((head + tail)[head.len() + i] == method);
                }
            }
        }
    }
}

/// A method that is not registered is a mismatch. Where the node for a path
/// without dynamic segments holds routes, none of which takes a method, a
/// request for that path with that method is resolved as a mismatch of the
/// method, and the methods reported as allowed are those of the routes of
/// that node, no more and no fewer.
pub proof fn law_unregistered_method_is_mismatch<NH>(
    nodes: Seq<NodeView<Route<NH>>>,
    node: int,
    method: MethodView,
    path: Seq<char>,
)
    requires
        is_tree(nodes),
        is_static_path(path),
        0 <= node < nodes.len(),
        nodes[node].pattern == path_pattern(path),
        nodes[node].routes.len() > 0,
        forall|r: int|
            0 <= r < nodes[node].routes.len() ==> !(#[trigger] nodes[node].routes[r]).methods().contains(
                method,
            ),
    ensures
        resolve(nodes, method, path) == (Resolution::MethodMismatch {
            allowed: allowed_methods(nodes[node].routes),
        }),
        forall|other: MethodView| #[trigger]
            allowed_methods(nodes[node].routes).contains(other) <==> exists|r: int|
                0 <= r < nodes[node].routes.len() && (#[trigger] nodes[node].routes[r]).methods().contains(
                    other,
                ),
{
    lemma_static_path_pattern(path);
    lemma_static_path_leads_to_its_node(nodes, path_segments(path), node);
    law_allowed_is_union(nodes[node].routes);
    assert forall|r: int| !accepts_first(nodes[node].routes, method, r) by {
        if 0 <= r < nodes[node].routes.len() {
            assert(!nodes[node].routes[r].methods().contains(method));
        }
    }
}

/// A path that is not registered is not found. Where no node that holds a
/// route has a pattern that the segments of a path match, a request for
/// that path is resolved as not found, whatever its method.
pub proof fn law_unregistered_path_is_not_found<NH>(
    nodes: Seq<NodeView<Route<NH>>>,
    method: MethodView,
    path: Seq<char>,
)
    requires
        is_tree(nodes),
        forall|n: int|
            0 <= n < nodes.len() && (#[trigger] nodes[n]).routes.len() > 0 ==> !matches_pattern(
                nodes[n].pattern,
                path_segments(path),
            ),
    ensures
        resolve(nodes, method, path) == Resolution::NotFound,
{
    let segments = path_segments(path);
    lemma_walk_matches_pattern(nodes, segments, segments.len());
    assert(segments.take(segments.len() as int) =~= segments);
}

} // verus!

use vstd::prelude::*;
use crate::ant::{Ant, is_tour, path_length};
use crate::colony::{Colony, deposit_amount, deposit_total};
use crate::geometry::{Point, dist};
use crate::pheromone::edge_count;
use crate::selection::LEVEL_BOUND;

verus! {

/// Two ants that both run once along the edge between `u` and `v` leave on
/// `(u, v)` the sum of their two deposits: deposits add up, none replaces
/// another.
pub proof fn additive_deposit(a1: Ant, a2: Ant, u: int, v: int)
    requires
        edge_count(a1.route_view(), u, v) == 1,
        edge_count(a2.route_view(), u, v) == 1,
    ensures
        deposit_total(seq![a1, a2], u, v) == deposit_amount(a1.travelled()) + deposit_amount(a2.travelled()),
{
    let s = seq![a1, a2];
    assert(s.len() == 2 && s.last() == a2);
    assert(seq![a1].len() == 1 && seq![a1].last() == a1);
    assert(s.drop_last() =~= seq![a1]);
    assert(seq![a1].drop_last() =~= Seq::<Ant>::empty());
    assert(deposit_total(Seq::<Ant>::empty(), u, v) == 0);
    assert(deposit_total(seq![a1], u, v) == deposit_amount(a1.travelled()));
}

/// In a well-formed colony every pheromone level is non-negative and stays
/// within the store's bound.
pub proof fn pheromone_levels_bounded(c: Colony, u: int, v: int)
    requires
        c.wf(),
        0 <= u < c.nodes_view().len(),
        0 <= v < c.nodes_view().len(),
    ensures
        0 <= c.level(u, v) <= LEVEL_BOUND,
{
    c.lemma_level_bounded(u, v);
}

/// With two nodes, a path that starts at node 0 and visits both has the
/// distance between them as its length: no return leg is counted.
pub proof fn two_node_path(nodes: Seq<Point>, route: Seq<u32>)
    requires
        nodes.len() == 2,
        is_tour(route, 2),
        route[0] == 0,
    ensures
        route == seq![0u32, 1u32],
        path_length(nodes, route) == dist(nodes[0], nodes[1]),
{
    assert(route.contains(1u32));
    let q = choose|q: int| 0 <= q < route.len() && route[q] == 1u32;
    assert(q == 1);
    assert(route =~= seq![0u32, 1u32]);
    assert(route.drop_last() =~= seq![0u32]);
    assert(path_length(nodes, seq![0u32]) == 0);
}

} // verus!

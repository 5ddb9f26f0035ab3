use vstd::prelude::*;
use crate::geometry::{Point, dist, distance};
use crate::pheromone::{PheromoneStore, MAX_NODES};
use crate::random::random_below;
use crate::selection::{
    attractiveness, lemma_ones_sum, select_from, select_weighted, weight, weight_sum, wheel, LEVEL_BOUND,
};

verus! {

/// Every distance between two points is below this bound.
pub const DIST_BOUND: u64 = 0x800_0000_0000;

/// Length of the open path that visits `route` in order, in thousandths.
pub open spec fn path_length(nodes: Seq<Point>, route: Seq<u32>) -> nat
    decreases route.len(),
{
    if route.len() < 2 {
        0
    } else {
        path_length(nodes, route.drop_last()) + dist(
            nodes[route[route.len() - 2] as int],
            nodes[route[route.len() - 1] as int],
        )
    }
}

/// `route` visits each of the nodes `0..n` exactly once.
pub open spec fn is_tour(route: Seq<u32>, n: nat) -> bool {
    &&& route.len() == n
    &&& route.no_duplicates()
    &&& forall|k: int| 0 <= k < route.len() ==> route[k] < n
    &&& forall|x: u32| x < n ==> #[trigger] route.contains(x)
}

/// An agent that builds one tour, step by step, starting from a given node.
pub struct Ant {
    location: u32,
    exploring: bool,
    distance_travelled: u64,
    allowed: Vec<u32>,
    route: Vec<u32>,
}

impl Ant {
    /// The nodes visited so far, in order.
    pub closed spec fn route_view(&self) -> Seq<u32> {
        self.route@
    }

    /// The nodes not visited yet.
    pub closed spec fn allowed_view(&self) -> Seq<u32> {
        self.allowed@
    }

    /// Length travelled so far, in thousandths.
    pub closed spec fn travelled(&self) -> nat {
        self.distance_travelled as nat
    }

    /// The node the ant stands on.
    pub closed spec fn current(&self) -> u32 {
        self.location
    }

    /// Whether the ant ignores pheromone and distance when choosing.
    pub closed spec fn is_exploring(&self) -> bool {
        self.exploring
    }

    pub closed spec fn inv(&self, nodes: Seq<Point>) -> bool {
        let n = nodes.len();
        let route = self.route@;
        let allowed = self.allowed@;
        &&& n <= MAX_NODES
        &&& route.len() >= 1
        &&& self.location == route.last()
        &&& route.len() + allowed.len() == n
        &&& forall|k: int| 0 <= k < route.len() ==> route[k] < n
        &&& forall|k: int| 0 <= k < allowed.len() ==> allowed[k] < n
        &&& route.no_duplicates()
        &&& allowed.no_duplicates()
        &&& forall|j: int, k: int| 0 <= j < route.len() && 0 <= k < allowed.len() ==> route[j] != allowed[k]
        &&& forall|x: u32| x < n ==> #[trigger] route.contains(x) || allowed.contains(x)
        &&& self.distance_travelled == path_length(nodes, route)
        &&& self.distance_travelled <= route.len() * DIST_BOUND
    }

    pub proof fn lemma_route_bounds(&self, nodes: Seq<Point>)
        requires
            self.inv(nodes),
        ensures
            self.route_view().len() <= nodes.len() <= MAX_NODES,
            forall|k: int| 0 <= k < self.route_view().len() ==> self.route_view()[k] < nodes.len(),
            self.travelled() == path_length(nodes, self.route_view()),
            self.travelled() <= nodes.len() * DIST_BOUND,
    {
        assert(self.route@.len() * DIST_BOUND <= nodes.len() * DIST_BOUND) by (nonlinear_arith)
            requires self.route@.len() <= nodes.len();
    }

    /// A fresh ant standing on `start`, which counts as visited; every other
    /// node is still to be visited.
    pub fn new(start: u32, exploring: bool, nodes: &Vec<Point>) -> (a: Ant)
        requires
            start < nodes.len(),
            nodes.len() <= MAX_NODES,
        ensures
            a.inv(nodes@),
            a.route_view() == seq![start],
            a.current() == start,
            a.allowed_view().len() == nodes.len() - 1,
            forall|x: u32| x < nodes.len() && x != start ==> #[trigger] a.allowed_view().contains(x),
            a.travelled() == 0,
            a.is_exploring() == exploring,
    {
        let n: u32 = nodes.len() as u32;
        let mut allowed: Vec<u32> = Vec::new();
        let mut i: u32 = 0;
        while i < n
            invariant
                n == nodes.len(),
                i <= n,
                start < n,
                forall|j: int, k: int| 0 <= j < k < allowed.len() ==> allowed@[j] < allowed@[k],
                forall|k: int| 0 <= k < allowed.len() ==> allowed@[k] < i && allowed@[k] != start,
                forall|x: u32| x < i && x != start ==> #[trigger] allowed@.contains(x),
                allowed.len() + (if start < i { 1int } else { 0int }) == i,
            decreases n - i,
        {
            if i != start {
                let ghost prev = allowed@;
                allowed.push(i);
                proof {
                    assert forall|x: u32| x < i + 1 && x != start implies #[trigger] allowed@.contains(x) by {
                        if x == i {
                            assert(allowed@[allowed.len() - 1] == x);
                        } else {
                            assert(prev.contains(x));
                            let q = choose|q: int| 0 <= q < prev.len() && prev[q] == x;
                            assert(allowed@[q] == x);
                        }
                    }
                }
            }
            i = i + 1;
        }
        let mut route: Vec<u32> = Vec::new();
        route.push(start);
        let a = Ant { location: start, exploring, distance_travelled: 0, allowed, route };
        proof {
            assert forall|x: u32| x < n implies #[trigger] a.route@.contains(x) || a.allowed@.contains(x) by {
                if x == start {
                    assert(a.route@[0] == x);
                }
            }
            assert forall|x: u32| x < n && x != start implies #[trigger] a.allowed@.contains(x) by {
                if a.route@.contains(x) {
                    let q = choose|q: int| 0 <= q < a.route@.len() && a.route@[q] == x;
                    assert(a.route@[q] == start);
                }
            }
        }
        a
    }

    /// The nodes visited so far, in order.
    pub fn route(&self) -> (r: &Vec<u32>)
        ensures
            r@ == self.route_view(),
    {
        &self.route
    }

    /// A copy of the nodes visited so far, in order.
    pub fn route_copy(&self) -> (r: Vec<u32>)
        ensures
            r@ == self.route_view(),
    {
        let mut r: Vec<u32> = Vec::new();
        let mut i: usize = 0;
        while i < self.route.len()
            invariant
                i <= self.route.len(),
                r@ == self.route@.take(i as int),
            decreases self.route.len() - i,
        {
            r.push(self.route[i]);
            i = i + 1;
            assert(r@ =~= self.route@.take(i as int));
        }
        assert(self.route@.take(i as int) =~= self.route@);
        r
    }

    /// Length travelled so far, in thousandths.
    pub fn distance_travelled(&self) -> (r: u64)
        ensures
            r == self.travelled(),
    {
        self.distance_travelled
    }

    /// Attractiveness of each node still to visit, seen from the current
    /// location, in the order of the nodes to visit.
    pub open spec fn weights_view(&self, nodes: Seq<Point>, store: PheromoneStore) -> Seq<u128> {
        Seq::new(
            self.allowed_view().len(),
            |k: int|
                weight(
                    store.level(self.current() as int, self.allowed_view()[k] as int),
                    dist(nodes[self.current() as int], nodes[self.allowed_view()[k] as int]),
                ) as u128,
        )
    }

    /// Attractiveness of each node still to visit, seen from the current
    /// location, in the order of the nodes to visit.
    pub fn candidate_weights(&self, nodes: &Vec<Point>, store: &PheromoneStore) -> (w: Vec<u128>)
        requires
            self.inv(nodes@),
            store.wf(),
            store.size() == nodes.len(),
            store.bounded(LEVEL_BOUND as int),
        ensures
            w.len() == self.allowed_view().len(),
            forall|k: int|
                0 <= k < w.len() ==> #[trigger] w@[k] == weight(
                    store.level(self.current() as int, self.allowed_view()[k] as int),
                    dist(nodes@[self.current() as int], nodes@[self.allowed_view()[k] as int]),
                ),
            forall|k: int| 0 <= k < w.len() ==> w@[k] < 0x8_0000_0000_0000_0000_000,
    {
        let count: usize = self.allowed.len();
        let mut weights: Vec<u128> = Vec::new();
        let mut i: usize = 0;
        while i < count
            invariant
                self.inv(nodes@),
                store.wf(),
                store.size() == nodes.len(),
                store.bounded(LEVEL_BOUND as int),
                count == self.allowed.len(),
                i <= count,
                weights.len() == i,
                forall|k: int|
                    0 <= k < i ==> #[trigger] weights@[k] == weight(
                        store.level(self.location as int, self.allowed@[k] as int),
                        dist(nodes@[self.location as int], nodes@[self.allowed@[k] as int]),
                    ),
                forall|k: int| 0 <= k < i ==> weights@[k] < 0x8_0000_0000_0000_0000_000,
            decreases count - i,
        {
            let c: u32 = self.allowed[i];
            let level: u128 = store.get(self.location, c);
            proof {
                store.lemma_bounded_level(LEVEL_BOUND as int, self.location as int, c as int);
            }
            let length: u64 = distance(nodes[self.location as usize], nodes[c as usize]);
            let w: u128 = attractiveness(level, length);
            weights.push(w);
            i = i + 1;
        }
        weights
    }

    /// Chooses the next node among those not visited yet: uniformly while
    /// exploring, otherwise by roulette-wheel selection on the attractiveness
    /// of each candidate edge (all candidates weigh the same when every
    /// attractiveness is zero).
    pub fn decide(&self, nodes: &Vec<Point>, store: &PheromoneStore) -> (r: u32)
        requires
            self.inv(nodes@),
            self.allowed_view().len() > 0,
            store.wf(),
            store.size() == nodes.len(),
            store.bounded(LEVEL_BOUND as int),
        ensures
            self.allowed_view().contains(r),
            !self.is_exploring() ==> exists|draw: int|
                0 <= draw < weight_sum(wheel(self.weights_view(nodes@, *store))) && r == self.allowed_view()[
                    #[trigger] select_from(wheel(self.weights_view(nodes@, *store)), draw, 0)],
    {
        if self.exploring {
            let k: usize = random_below(self.allowed.len() as u128) as usize;
            assert(self.allowed@[k as int] == self.allowed[k as int]);
            return self.allowed[k];
        }
        let count: usize = self.allowed.len();
        let mut weights = self.candidate_weights(nodes, store);
        let ghost spun = wheel(self.weights_view(nodes@, *store));
        assert(weights@ =~= self.weights_view(nodes@, *store));
        let mut total: u128 = 0;
        let mut i: usize = 0;
        while i < count
            invariant
                count == weights.len(),
                i <= count,
                forall|k: int| 0 <= k < weights.len() ==> weights@[k] < 0x8_0000_0000_0000_0000_000,
                total <= i * 0x8_0000_0000_0000_0000_000,
                total == weight_sum(weights@.take(i as int)),
                count <= MAX_NODES,
            decreases count - i,
        {
            assert(weights@.take(i + 1).drop_last() =~= weights@.take(i as int));
            total = total + weights[i];
            i = i + 1;
        }
        assert(weights@.take(count as int) =~= weights@);
        if total == 0 {
            weights = Vec::new();
            while weights.len() < count
                invariant
                    weights.len() <= count,
                    forall|k: int| 0 <= k < weights.len() ==> weights@[k] == 1,
                decreases count - weights.len(),
            {
                weights.push(1);
            }
            proof {
                lemma_ones_sum(weights@);
            }
            total = count as u128;
        }
        assert(weights@ =~= spun);
        let draw: u128 = random_below(total);
        let k: usize = select_weighted(&weights, draw);
        assert(select_from(spun, draw as int, 0) == k);
        assert(self.allowed@[k as int] == self.allowed[k as int]);
        self.allowed[k]
    }

    /// Moves to `end`, a node not visited yet: it leaves the nodes to visit,
    /// joins the route, and the length of the step is added to the distance.
    pub fn move_(&mut self, end: u32, nodes: &Vec<Point>)
        requires
            old(self).inv(nodes@),
            old(self).allowed_view().contains(end),
        ensures
            final(self).inv(nodes@),
            final(self).route_view() == old(self).route_view().push(end),
            final(self).allowed_view().len() == old(self).allowed_view().len() - 1,
            !final(self).allowed_view().contains(end),
            final(self).current() == end,
            final(self).travelled() == old(self).travelled() + dist(
                nodes@[old(self).current() as int],
                nodes@[end as int],
            ),
            final(self).is_exploring() == old(self).is_exploring(),
    {
        let ghost route0 = self.route@;
        let ghost allowed0 = self.allowed@;
        let mut pos: usize = 0;
        while self.allowed[pos] != end
            invariant
                self.inv(nodes@),
                self.allowed@ == allowed0,
                allowed0.contains(end),
                pos < self.allowed.len(),
                forall|k: int| 0 <= k < pos ==> allowed0[k] != end,
            decreases self.allowed.len() - pos,
        {
            pos = pos + 1;
            proof {
                if pos == self.allowed.len() {
                    let q = choose|q: int| 0 <= q < allowed0.len() && allowed0[q] == end;
                    assert(allowed0[q] == end);
                }
            }
        }
        let step: u64 = distance(nodes[self.location as usize], nodes[end as usize]);
        self.allowed.remove(pos);
        self.route.push(end);
        self.distance_travelled = self.distance_travelled + step;
        self.location = end;
        proof {
            let route = self.route@;
            let allowed = self.allowed@;
            allowed0.remove_ensures(pos as int);
            assert(route.drop_last() =~= route0);
            assert forall|j: int, k: int| 0 <= j < allowed.len() && 0 <= k < allowed.len() && j != k implies
                allowed[j] != allowed[k] by {
                let jj = if j < pos { j } else { j + 1 };
                let kk = if k < pos { k } else { k + 1 };
                assert(allowed0[jj] != allowed0[kk]);
            }
            assert forall|j: int, k: int| 0 <= j < route.len() && 0 <= k < route.len() && j != k implies
                route[j] != route[k] by {
                if j < route0.len() && k < route0.len() {
                } else if j == route0.len() {
                    assert(route0[k] != allowed0[pos as int]);
                } else {
                    assert(route0[j] != allowed0[pos as int]);
                }
            }
            assert forall|j: int, k: int| 0 <= j < route.len() && 0 <= k < allowed.len() implies route[j]
                != allowed[k] by {
                let kk = if k < pos { k } else { k + 1 };
                if j < route0.len() {
                    assert(route0[j] != allowed0[kk]);
                } else {
                    assert(allowed0[pos as int] != allowed0[kk]);
                }
            }
            assert forall|x: u32| x < nodes.len() implies #[trigger] route.contains(x) || allowed.contains(x) by {
                if route0.contains(x) {
                    let q = choose|q: int| 0 <= q < route0.len() && route0[q] == x;
                    assert(route[q] == x);
                } else {
                    assert(allowed0.contains(x));
                    let q = choose|q: int| 0 <= q < allowed0.len() && allowed0[q] == x;
                    if q == pos {
                        assert(route[route.len() - 1] == x);
                    } else if q < pos {
                        assert(allowed[q] == x);
                    } else {
                        assert(allowed[q - 1] == x);
                    }
                }
            }
            assert forall|k: int| 0 <= k < allowed.len() implies allowed[k] != end by {
                let kk = if k < pos { k } else { k + 1 };
                assert(allowed0[kk] != allowed0[pos as int]);
            }
            assert forall|k: int| 0 <= k < allowed.len() implies allowed[k] < nodes.len() by {
                let kk = if k < pos { k } else { k + 1 };
                assert(allowed0[kk] < nodes.len());
            }
        }
    }

    /// Visits every remaining node, one decision and one move at a time.
    pub fn run(&mut self, nodes: &Vec<Point>, store: &PheromoneStore)
        requires
            old(self).inv(nodes@),
            store.wf(),
            store.size() == nodes.len(),
            store.bounded(LEVEL_BOUND as int),
        ensures
            final(self).inv(nodes@),
            final(self).allowed_view().len() == 0,
            is_tour(final(self).route_view(), nodes.len() as nat),
            final(self).route_view()[0] == old(self).route_view()[0],
            final(self).travelled() == path_length(nodes@, final(self).route_view()),
            final(self).travelled() <= nodes.len() * DIST_BOUND,
            final(self).is_exploring() == old(self).is_exploring(),
    {
        let ghost first = self.route@[0];
        while self.allowed.len() > 0
            invariant
                self.inv(nodes@),
                store.wf(),
                store.size() == nodes.len(),
                store.bounded(LEVEL_BOUND as int),
                self.route@[0] == first,
                self.exploring == old(self).exploring,
            decreases self.allowed.len(),
        {
            let next: u32 = self.decide(nodes, store);
            self.move_(next, nodes);
        }
    }
}

} // verus!

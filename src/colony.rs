use vstd::prelude::*;
use crate::ant::{Ant, is_tour, path_length};
use crate::geometry::Point;
use crate::pheromone::{PheromoneStore, MAX_NODES, KEEP_PERCENT, edge_count};
use crate::selection::LEVEL_BOUND;

verus! {

/// Number of ants in each round.
pub const ANT_COUNT: usize = 50;

/// Suggested number of rounds for a run.
pub const ROUND_HINT: u32 = 80;

/// An ant whose tour has length `d` thousandths deposits `DEPOSIT / d` on
/// each of its edges: a deposit scale of 1000 in millionths of a unit.
pub const DEPOSIT: u128 = 1_000_000_000_000;

/// Bound on what one round deposits on any pair.
pub const DELTA_BOUND: u128 = 0x4000_0000_0000_0000;

/// What an ant that travelled `length` deposits on each edge of its route; a
/// zero length counts as one.
pub open spec fn deposit_amount(length: nat) -> nat {
    DEPOSIT as nat / if length == 0 { 1 } else { length }
}

/// Sum of the deposits of `ants` on the pair `(u, v)`.
pub open spec fn deposit_total(ants: Seq<Ant>, u: int, v: int) -> nat
    decreases ants.len(),
{
    if ants.len() == 0 {
        0
    } else {
        deposit_total(ants.drop_last(), u, v) + deposit_amount(ants.last().travelled()) * edge_count(
            ants.last().route_view(),
            u,
            v,
        )
    }
}

/// Whether the colony builds tours at random or guided by pheromone.
pub enum Phase {
    Exploration,
    Exploitation,
}

/// A colony of ants searching for a short open path through a set of nodes.
pub struct Colony {
    nodes: Vec<Point>,
    start: u32,
    phase: Phase,
    pheromones: PheromoneStore,
    shortest_distance: Option<u64>,
    shortest_path: Vec<u32>,
}

/// Deposits of the ants in `ants`, each of which has finished its tour.
pub fn ant_pheromone(nodes: &Vec<Point>, ants: &Vec<Ant>) -> (d: PheromoneStore)
    requires
        1 <= nodes.len() <= MAX_NODES,
        ants.len() <= ANT_COUNT,
        forall|i: int| 0 <= i < ants.len() ==> #[trigger] ants@[i].inv(nodes@),
    ensures
        d.wf(),
        d.size() == nodes.len(),
        d.bounded(DELTA_BOUND as int),
        forall|u: int, v: int|
            0 <= u < nodes.len() && 0 <= v < nodes.len() ==> #[trigger] d.level(u, v) == deposit_total(
                ants@,
                u,
                v,
            ),
{
    let mut d = PheromoneStore::new(nodes.len());
    let mut k: usize = 0;
    let ghost cap: int = 0;
    while k < ants.len()
        invariant
            k <= ants.len(),
            ants.len() <= ANT_COUNT,
            1 <= nodes.len() <= MAX_NODES,
            forall|i: int| 0 <= i < ants.len() ==> #[trigger] ants@[i].inv(nodes@),
            d.wf(),
            d.size() == nodes.len(),
            cap == k * (DEPOSIT * MAX_NODES),
            d.bounded(cap),
            forall|u: int, v: int|
                0 <= u < nodes.len() && 0 <= v < nodes.len() ==> #[trigger] d.level(u, v) == deposit_total(
                    ants@.take(k as int),
                    u,
                    v,
                ),
        decreases ants.len() - k,
    {
        let ant = &ants[k];
        assert(ant.inv(nodes@));
        let travelled: u64 = ant.distance_travelled();
        let amount: u128 = DEPOSIT / if travelled == 0 { 1 } else { travelled as u128 };
        let route = ant.route();
        proof {
            ant.lemma_route_bounds(nodes@);
            assert(amount <= DEPOSIT);
            assert(amount * route.len() <= DEPOSIT * MAX_NODES) by (nonlinear_arith)
                requires amount <= DEPOSIT, route.len() <= MAX_NODES;
            let c = DEPOSIT * MAX_NODES;
            assert(cap <= 49 * c) by (nonlinear_arith)
                requires cap == k * c, k < 50, c > 0;
        }
        let ghost before = d;
        d.deposit(route, amount, Ghost(cap));
        proof {
            d.lemma_bounded_mono(cap + amount * route.len(), cap + DEPOSIT * MAX_NODES);
            let c = DEPOSIT * MAX_NODES;
            assert(cap + c == (k + 1) * c) by (nonlinear_arith)
                requires cap == k * c;
            cap = cap + c;
            let t = ants@.take(k + 1);
            assert(t.drop_last() =~= ants@.take(k as int));
            assert forall|u: int, v: int| 0 <= u < nodes.len() && 0 <= v < nodes.len() implies #[trigger] d.level(u, v)
                == deposit_total(ants@.take(k + 1), u, v) by {
                assert(before.level(u, v) == deposit_total(ants@.take(k as int), u, v));
            }
        }
        k = k + 1;
    }
    proof {
        assert(ants@.take(k as int) =~= ants@);
        let c = DEPOSIT * MAX_NODES;
        assert(cap <= 50 * c) by (nonlinear_arith)
            requires cap == k * c, k <= 50, c > 0;
        d.lemma_bounded_mono(cap, DELTA_BOUND as int);
    }
    d
}

impl Colony {
    /// The nodes, in the order given.
    pub closed spec fn nodes_view(&self) -> Seq<Point> {
        self.nodes@
    }

    /// Length of the shortest path found so far, if a round has completed.
    pub closed spec fn best_distance_view(&self) -> Option<u64> {
        self.shortest_distance
    }

    /// The shortest path found so far; empty before the first round.
    pub closed spec fn best_route_view(&self) -> Seq<u32> {
        self.shortest_path@
    }

    /// Whether the next round is the exploration round.
    pub closed spec fn is_exploring(&self) -> bool {
        match self.phase {
            Phase::Exploration => true,
            Phase::Exploitation => false,
        }
    }

    /// Pheromone level on the pair `(u, v)`.
    pub closed spec fn level(&self, u: int, v: int) -> nat {
        self.pheromones.level(u, v)
    }

    pub closed spec fn store_ok(&self) -> bool {
        &&& self.start == 0
        &&& self.pheromones.wf()
        &&& self.pheromones.size() == self.nodes.len()
        &&& self.pheromones.bounded(LEVEL_BOUND as int)
    }

    /// Every path starts at node 0; the best path, once there is one, visits
    /// every node once and has the best length as its length.
    pub open spec fn wf(&self) -> bool {
        let n = self.nodes_view().len();
        &&& 1 <= n <= MAX_NODES
        &&& self.store_ok()
        &&& match self.best_distance_view() {
            Some(d) => {
                &&& is_tour(self.best_route_view(), n)
                &&& self.best_route_view()[0] == 0
                &&& d == path_length(self.nodes_view(), self.best_route_view())
            },
            None => self.best_route_view().len() == 0,
        }
    }

    /// What one round did, with `ants` the batch that ran in it.
    pub open spec fn round_result(before: Colony, after: Colony, ants: Seq<Ant>) -> bool {
        let nodes = before.nodes_view();
        let n = nodes.len();
        &&& ants.len() == ANT_COUNT
        &&& forall|i: int|
            0 <= i < ants.len() ==> {
                &&& is_tour(#[trigger] ants[i].route_view(), n)
                &&& ants[i].route_view()[0] == 0
                &&& ants[i].travelled() == path_length(nodes, ants[i].route_view())
                &&& ants[i].is_exploring() == before.is_exploring()
                &&& after.best_distance_view().unwrap() <= ants[i].travelled()
            }
        &&& after.best_distance_view() == before.best_distance_view() || exists|i: int|
            0 <= i < ants.len() && after.best_distance_view().unwrap() == #[trigger] ants[i].travelled()
                && after.best_route_view() == ants[i].route_view()
        &&& forall|u: int, v: int|
            0 <= u < n && 0 <= v < n ==> #[trigger] after.level(u, v) == before.level(u, v)
                * KEEP_PERCENT as nat / 100 + deposit_total(ants, u, v)
    }

    pub proof fn lemma_level_bounded(&self, u: int, v: int)
        requires
            self.wf(),
            0 <= u < self.nodes_view().len(),
            0 <= v < self.nodes_view().len(),
        ensures
            self.level(u, v) <= LEVEL_BOUND,
    {
        self.pheromones.lemma_bounded_level(LEVEL_BOUND as int, u, v);
    }

    /// A colony over `nodes` with the default settings: an empty pheromone
    /// store, no best path yet, and the exploration round to come.
    pub fn default(nodes: Vec<Point>) -> (c: Colony)
        requires
            1 <= nodes.len() <= MAX_NODES,
        ensures
            c.wf(),
            c.nodes_view() == nodes@,
            c.is_exploring(),
            c.best_distance_view().is_none(),
            forall|u: int, v: int| 0 <= u < nodes.len() && 0 <= v < nodes.len() ==> #[trigger] c.level(u, v) == 0,
    {
        let pheromones = PheromoneStore::new(nodes.len());
        proof {
            pheromones.lemma_bounded_mono(0, LEVEL_BOUND as int);
        }
        Colony {
            nodes,
            start: 0,
            phase: Phase::Exploration,
            pheromones,
            shortest_distance: None,
            shortest_path: Vec::new(),
        }
    }

    /// A fresh batch of ants, all on the start node.
    fn init_ants(&self) -> (r: Vec<Ant>)
        requires
            self.wf(),
        ensures
            r.len() == ANT_COUNT,
            forall|i: int|
                0 <= i < r.len() ==> {
                    &&& (#[trigger] r@[i]).inv(self.nodes@)
                    &&& r@[i].route_view() == seq![0u32]
                    &&& r@[i].is_exploring() == self.is_exploring()
                },
    {
        let exploring: bool = match self.phase {
            Phase::Exploration => true,
            Phase::Exploitation => false,
        };
        let mut r: Vec<Ant> = Vec::new();
        while r.len() < ANT_COUNT
            invariant
                self.wf(),
                r.len() <= ANT_COUNT,
                exploring == self.is_exploring(),
                forall|i: int|
                    0 <= i < r.len() ==> {
                        &&& (#[trigger] r@[i]).inv(self.nodes@)
                        &&& r@[i].route_view() == seq![0u32]
                        &&& r@[i].is_exploring() == exploring
                    },
            decreases ANT_COUNT - r.len(),
        {
            let a = Ant::new(self.start, exploring, &self.nodes);
            r.push(a);
        }
        r
    }

    /// Evaporates the store and adds the round's deposits `delta`.
    fn update_pheromone(&mut self, delta: &PheromoneStore)
        requires
            old(self).store_ok(),
            delta.wf(),
            delta.size() == old(self).nodes.len(),
            delta.bounded(DELTA_BOUND as int),
        ensures
            final(self).store_ok(),
            final(self).nodes == old(self).nodes,
            final(self).phase == old(self).phase,
            final(self).shortest_distance == old(self).shortest_distance,
            final(self).shortest_path == old(self).shortest_path,
            forall|u: int, v: int|
                0 <= u < old(self).nodes.len() && 0 <= v < old(self).nodes.len() ==> #[trigger] final(self).level(u, v)
                    == old(self).level(u, v) * KEEP_PERCENT as nat / 100 + delta.level(u, v),
    {
        let ghost b0 = self.pheromones;
        self.pheromones.evaporate();
        assert(self.pheromones.bounded(LEVEL_BOUND as int * KEEP_PERCENT / 100));
        let ghost b1 = self.pheromones;
        self.pheromones.merge(delta, Ghost(LEVEL_BOUND as int * KEEP_PERCENT / 100), Ghost(DELTA_BOUND as int));
        proof {
            self.pheromones.lemma_bounded_mono(
                LEVEL_BOUND as int * KEEP_PERCENT / 100 + DELTA_BOUND as int,
                LEVEL_BOUND as int,
            );
            assert forall|u: int, v: int| 0 <= u < old(self).nodes.len() && 0 <= v < old(self).nodes.len() implies
                #[trigger] self.level(u, v) == old(self).level(u, v) * KEEP_PERCENT as nat / 100 + delta.level(u, v) by {
                assert(b1.level(u, v) == b0.level(u, v) * KEEP_PERCENT as nat / 100);
            }
        }
    }

    /// Runs one round: every ant of a fresh batch builds a tour, the best
    /// path is updated, the store evaporates and takes the round's deposits,
    /// and later rounds are guided by pheromone.
    pub fn mainloop(&mut self)
        requires
            old(self).wf(),
        ensures
            final(self).wf(),
            final(self).nodes_view() == old(self).nodes_view(),
            !final(self).is_exploring(),
            final(self).best_distance_view().is_some(),
            old(self).best_distance_view().is_some() ==> final(self).best_distance_view().unwrap()
                <= old(self).best_distance_view().unwrap(),
            exists|ants: Seq<Ant>| Colony::round_result(*old(self), *final(self), ants),
    {
        let ghost before = *self;
        let mut batch = self.init_ants();
        let mut done: Vec<Ant> = Vec::new();
        let n = self.nodes.len();
        while batch.len() > 0
            invariant
                self.wf(),
                *self == before,
                n == self.nodes.len(),
                self.pheromones.bounded(LEVEL_BOUND as int),
                batch.len() + done.len() == ANT_COUNT,
                forall|i: int|
                    0 <= i < batch.len() ==> {
                        &&& (#[trigger] batch@[i]).inv(self.nodes@)
                        &&& batch@[i].route_view() == seq![0u32]
                        &&& batch@[i].is_exploring() == self.is_exploring()
                    },
                forall|i: int|
                    0 <= i < done.len() ==> {
                        &&& (#[trigger] done@[i]).inv(self.nodes@)
                        &&& is_tour(done@[i].route_view(), n as nat)
                        &&& done@[i].route_view()[0] == 0
                        &&& done@[i].travelled() == path_length(self.nodes@, done@[i].route_view())
                        &&& done@[i].is_exploring() == self.is_exploring()
                    },
            decreases batch.len(),
        {
            let ghost prev = batch@;
            match batch.pop() {
                Some(ant) => {
                    let mut ant = ant;
                    assert(ant == prev[prev.len() - 1]);
                    ant.run(&self.nodes, &self.pheromones);
                    done.push(ant);
                    proof {
                        assert forall|i: int| 0 <= i < batch.len() implies {
                            &&& (#[trigger] batch@[i]).inv(self.nodes@)
                            &&& batch@[i].route_view() == seq![0u32]
                            &&& batch@[i].is_exploring() == self.is_exploring()
                        } by {
                            assert(batch@[i] == prev[i]);
                        }
                    }
                },
                None => {},
            }
        }
        let delta = ant_pheromone(&self.nodes, &done);
        let mut i: usize = 0;
        while i < done.len()
            invariant
                self.store_ok(),
                self.nodes == before.nodes,
                self.phase == before.phase,
                self.pheromones == before.pheromones,
                before.wf(),
                n == self.nodes.len(),
                i <= done.len(),
                done.len() == ANT_COUNT,
                forall|j: int|
                    0 <= j < done.len() ==> {
                        &&& (#[trigger] done@[j]).inv(self.nodes@)
                        &&& is_tour(done@[j].route_view(), n as nat)
                        &&& done@[j].route_view()[0] == 0
                        &&& done@[j].travelled() == path_length(self.nodes@, done@[j].route_view())
                        &&& done@[j].is_exploring() == before.is_exploring()
                    },
                match self.shortest_distance {
                    Some(d) => {
                        &&& is_tour(self.shortest_path@, n as nat)
                        &&& self.shortest_path@[0] == 0
                        &&& d == path_length(self.nodes@, self.shortest_path@)
                    },
                    None => self.shortest_path@.len() == 0,
                },
                i > 0 ==> self.shortest_distance.is_some(),
                forall|j: int| 0 <= j < i ==> self.shortest_distance.unwrap() <= (#[trigger] done@[j]).travelled(),
                before.shortest_distance.is_some() ==> self.shortest_distance.is_some()
                    && self.shortest_distance.unwrap() <= before.shortest_distance.unwrap(),
                self.shortest_distance == before.shortest_distance || exists|j: int|
                    0 <= j < done.len() && self.shortest_distance.unwrap() == #[trigger] done@[j].travelled()
                        && self.shortest_path@ == done@[j].route_view(),
            decreases done.len() - i,
        {
            let t: u64 = done[i].distance_travelled();
            let better: bool = match self.shortest_distance {
                None => true,
                Some(b) => t < b,
            };
            if better {
                self.shortest_distance = Some(t);
                self.shortest_path = done[i].route_copy();
                assert(self.shortest_distance.unwrap() == done@[i as int].travelled());
            }
            i = i + 1;
        }
        let ghost mid = *self;
        self.update_pheromone(&delta);
        let ghost updated = *self;
        self.phase = Phase::Exploitation;
        proof {
            let ants = done@;
            assert forall|u: int, v: int| 0 <= u < n && 0 <= v < n implies #[trigger] self.level(u, v)
                == before.level(u, v) * KEEP_PERCENT as nat / 100 + deposit_total(ants, u, v) by {
                assert(delta.level(u, v) == deposit_total(ants, u, v));
                assert(mid.level(u, v) == before.level(u, v));
                assert(updated.level(u, v) == mid.level(u, v) * KEEP_PERCENT as nat / 100 + delta.level(u, v));
                assert(self.level(u, v) == updated.level(u, v));
            }
            assert forall|i: int| 0 <= i < ants.len() implies {
                &&& is_tour(#[trigger] ants[i].route_view(), n as nat)
                &&& ants[i].route_view()[0] == 0
                &&& ants[i].travelled() == path_length(before.nodes_view(), ants[i].route_view())
                &&& ants[i].is_exploring() == before.is_exploring()
                &&& self.best_distance_view().unwrap() <= ants[i].travelled()
            } by {
                assert(done@[i] == ants[i]);
            }
            assert(Colony::round_result(before, *self, ants));
        }
    }

    /// Length of the shortest path found so far, in thousandths; `None`
    /// before the first round.
    pub fn best_distance(&self) -> (r: Option<u64>)
        ensures
            r == self.best_distance_view(),
    {
        self.shortest_distance
    }

    /// The shortest path found so far, as node indices from node 0; empty
    /// before the first round.
    pub fn best_route(&self) -> (r: &Vec<u32>)
        ensures
            r@ == self.best_route_view(),
    {
        &self.shortest_path
    }

    /// Suggested number of rounds for a run.
    pub fn iterations(&self) -> (r: u32)
        ensures
            r == ROUND_HINT,
    {
        ROUND_HINT
    }

    /// Pheromone level on the pair `(u, v)`.
    pub fn pheromone(&self, u: u32, v: u32) -> (r: u128)
        requires
            self.wf(),
            u < self.nodes_view().len(),
            v < self.nodes_view().len(),
        ensures
            r == self.level(u as int, v as int),
    {
        self.pheromones.get(u, v)
    }
}

} // verus!

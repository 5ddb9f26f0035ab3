use vstd::prelude::*;

verus! {

/// The largest number of nodes a store can be made for.
pub const MAX_NODES: usize = 65535;

/// Share of each level that survives evaporation, in percent.
pub const KEEP_PERCENT: u128 = 60;

/// Whether the undirected edge between `a` and `b` is the pair `(u, v)` in
/// either direction.
pub open spec fn touches(a: u32, b: u32, u: int, v: int) -> bool {
    (a == u && b == v) || (a == v && b == u)
}

/// How many consecutive steps of `route` run between `u` and `v`, in either
/// direction.
pub open spec fn edge_count(route: Seq<u32>, u: int, v: int) -> nat
    decreases route.len(),
{
    if route.len() < 2 {
        0
    } else {
        edge_count(route.drop_last(), u, v) + if touches(
            route[route.len() - 2],
            route[route.len() - 1],
            u,
            v,
        ) {
            1nat
        } else {
            0nat
        }
    }
}

proof fn lemma_index(u: int, v: int, n: int)
    requires
        0 <= u < n,
        0 <= v < n,
    ensures
        0 <= u * n + v < n * n,
{
    assert(u * n + v < n * n) by (nonlinear_arith)
        requires 0 <= u < n, 0 <= v < n;
    assert(0 <= u * n) by (nonlinear_arith)
        requires 0 <= u, 0 <= n;
}

proof fn lemma_index_injective(u1: int, v1: int, u2: int, v2: int, n: int)
    requires
        0 <= u1 < n,
        0 <= v1 < n,
        0 <= u2 < n,
        0 <= v2 < n,
        u1 * n + v1 == u2 * n + v2,
    ensures
        u1 == u2,
        v1 == v2,
{
    if u1 < u2 {
        assert(u1 * n + v1 < u2 * n + v2) by (nonlinear_arith)
            requires u1 < u2, 0 <= v1 < n, 0 <= v2;
    } else if u2 < u1 {
        assert(u2 * n + v2 < u1 * n + v1) by (nonlinear_arith)
            requires u2 < u1, 0 <= v2 < n, 0 <= v1;
    }
}

/// Pheromone levels on the ordered pairs of `n` nodes; a pair that never
/// received a deposit has level zero.
pub struct PheromoneStore {
    n: usize,
    levels: Vec<u128>,
}

impl PheromoneStore {
    /// Number of nodes the store covers.
    pub closed spec fn size(&self) -> nat {
        self.n as nat
    }

    /// Level on the pair `(u, v)`.
    pub closed spec fn level(&self, u: int, v: int) -> nat {
        self.levels@[u * self.n + v] as nat
    }

    pub closed spec fn wf(&self) -> bool {
        &&& self.n <= MAX_NODES
        &&& self.levels.len() == self.n * self.n
    }

    /// Every level is at most `b`.
    pub closed spec fn bounded(&self, b: int) -> bool {
        forall|k: int| 0 <= k < self.levels.len() ==> self.levels@[k] <= b
    }

    pub proof fn lemma_bounded_mono(&self, b: int, c: int)
        requires
            self.bounded(b),
            b <= c,
        ensures
            self.bounded(c),
    {
    }

    pub proof fn lemma_bounded_level(&self, b: int, u: int, v: int)
        requires
            self.wf(),
            self.bounded(b),
            0 <= u < self.size(),
            0 <= v < self.size(),
        ensures
            self.level(u, v) <= b,
    {
        lemma_index(u, v, self.n as int);
    }

    /// An empty store for `n` nodes.
    pub fn new(n: usize) -> (s: Self)
        requires
            n <= MAX_NODES,
        ensures
            s.wf(),
            s.size() == n,
            s.bounded(0),
            forall|u: int, v: int| 0 <= u < n && 0 <= v < n ==> #[trigger] s.level(u, v) == 0,
    {
        assert(n * n <= MAX_NODES * MAX_NODES) by (nonlinear_arith)
            requires n <= MAX_NODES;
        let total: usize = n * n;
        let mut levels: Vec<u128> = Vec::new();
        while levels.len() < total
            invariant
                levels.len() <= total,
                forall|i: int| 0 <= i < levels.len() ==> levels@[i] == 0,
            decreases total - levels.len(),
        {
            levels.push(0);
        }
        let s = PheromoneStore { n, levels };
        assert forall|u: int, v: int| 0 <= u < n && 0 <= v < n implies #[trigger] s.level(u, v) == 0 by {
            lemma_index(u, v, n as int);
        }
        s
    }

    /// Level on the pair `(u, v)`.
    pub fn get(&self, u: u32, v: u32) -> (r: u128)
        requires
            self.wf(),
            u < self.size(),
            v < self.size(),
        ensures
            r == self.level(u as int, v as int),
    {
        proof {
            lemma_index(u as int, v as int, self.n as int);
        }
        self.levels[u as usize * self.n + v as usize]
    }

    /// Multiplies every level by `KEEP_PERCENT / 100`, rounding down.
    pub fn evaporate(&mut self)
        requires
            old(self).wf(),
        ensures
            final(self).wf(),
            final(self).size() == old(self).size(),
            forall|u: int, v: int|
                0 <= u < old(self).size() && 0 <= v < old(self).size() ==> #[trigger] final(self).level(u, v)
                    == old(self).level(u, v) * KEEP_PERCENT as nat / 100,
            forall|b: int| #[trigger] old(self).bounded(b) ==> final(self).bounded(b * KEEP_PERCENT / 100),
    {
        let ghost before = self.levels@;
        let mut i: usize = 0;
        while i < self.levels.len()
            invariant
                self.wf(),
                self.n == old(self).n,
                self.levels.len() == before.len(),
                before == old(self).levels@,
                0 <= i <= self.levels.len(),
                forall|k: int| 0 <= k < i ==> self.levels@[k] == before[k] * KEEP_PERCENT / 100,
                forall|k: int| i <= k < self.levels.len() ==> self.levels@[k] == before[k],
            decreases self.levels.len() - i,
        {
            let x: u128 = self.levels[i];
            let y: u128 = x / 100 * KEEP_PERCENT + x % 100 * KEEP_PERCENT / 100;
            assert(y == x * KEEP_PERCENT / 100) by (nonlinear_arith)
                requires y == x / 100 * KEEP_PERCENT + x % 100 * KEEP_PERCENT / 100, KEEP_PERCENT == 60;
            self.levels.set(i, y);
            i = i + 1;
        }
        assert forall|u: int, v: int| 0 <= u < old(self).size() && 0 <= v < old(self).size() implies
            #[trigger] self.level(u, v) == old(self).level(u, v) * KEEP_PERCENT as nat / 100 by {
            lemma_index(u, v, self.n as int);
        }
        assert forall|b: int| #[trigger] old(self).bounded(b) implies self.bounded(b * KEEP_PERCENT / 100) by {
            assert forall|k: int| 0 <= k < self.levels.len() implies self.levels@[k] <= b * KEEP_PERCENT / 100 by {
                let x = before[k] as int;
                assert(x * 60 / 100 <= b * 60 / 100) by (nonlinear_arith)
                    requires x <= b, 0 <= x;
            }
        }
    }

    /// Adds the pointwise levels of `other`, a store over the same nodes.
    pub(crate) fn merge(&mut self, other: &PheromoneStore, Ghost(a): Ghost<int>, Ghost(c): Ghost<int>)
        requires
            old(self).wf(),
            other.wf(),
            other.size() == old(self).size(),
            old(self).bounded(a),
            other.bounded(c),
            a + c <= u128::MAX,
        ensures
            final(self).wf(),
            final(self).size() == old(self).size(),
            final(self).bounded(a + c),
            forall|u: int, v: int|
                0 <= u < old(self).size() && 0 <= v < old(self).size() ==> #[trigger] final(self).level(u, v)
                    == old(self).level(u, v) + other.level(u, v),
    {
        let ghost before = self.levels@;
        let mut i: usize = 0;
        while i < self.levels.len()
            invariant
                self.wf(),
                other.wf(),
                self.n == old(self).n,
                other.n == self.n,
                self.levels.len() == before.len(),
                before == old(self).levels@,
                old(self).bounded(a),
                other.bounded(c),
                a + c <= u128::MAX,
                0 <= i <= self.levels.len(),
                forall|k: int| 0 <= k < i ==> self.levels@[k] == before[k] + other.levels@[k],
                forall|k: int| i <= k < self.levels.len() ==> self.levels@[k] == before[k],
            decreases self.levels.len() - i,
        {
            assert(before[i as int] <= a);
            assert(other.levels@[i as int] <= c);
            let y: u128 = self.levels[i] + other.levels[i];
            self.levels.set(i, y);
            i = i + 1;
        }
        assert forall|u: int, v: int| 0 <= u < old(self).size() && 0 <= v < old(self).size() implies
            #[trigger] self.level(u, v) == old(self).level(u, v) + other.level(u, v) by {
            lemma_index(u, v, self.n as int);
        }
    }

    /// Adds `amount` to both directions of every step of `route`.
    pub(crate) fn deposit(&mut self, route: &Vec<u32>, amount: u128, Ghost(b): Ghost<int>)
        requires
            old(self).wf(),
            old(self).bounded(b),
            0 <= b,
            b + amount * route.len() <= u128::MAX,
            forall|k: int| 0 <= k < route.len() ==> route@[k] < old(self).size(),
        ensures
            final(self).wf(),
            final(self).size() == old(self).size(),
            final(self).bounded(b + amount * route.len()),
            forall|u: int, v: int|
                0 <= u < old(self).size() && 0 <= v < old(self).size() ==> #[trigger] final(self).level(u, v)
                    == old(self).level(u, v) + amount * edge_count(route@, u, v),
    {
        let ghost start = *self;
        let n = self.n;
        if route.len() < 2 {
            assert forall|u: int, v: int| 0 <= u < n && 0 <= v < n implies
                #[trigger] self.level(u, v) == start.level(u, v) + amount * edge_count(route@, u, v) by {
            }
            assert(b <= b + amount * route.len()) by (nonlinear_arith)
                requires 0 <= amount, 0 <= route.len();
            return;
        }
        let mut i: usize = 0;
        let ghost cap: int = b;
        while i + 1 < route.len()
            invariant
                self.wf(),
                self.n == n,
                n == start.n,
                start.wf(),
                i + 1 <= route.len(),
                cap == b + amount * i,
                b + amount * route.len() <= u128::MAX,
                self.bounded(cap),
                forall|k: int| 0 <= k < route.len() ==> route@[k] < n,
                forall|u: int, v: int| 0 <= u < n && 0 <= v < n ==> #[trigger] self.level(u, v)
                    == start.level(u, v) + amount * edge_count(route@.take(i + 1), u, v),
            decreases route.len() - i,
        {
            let a: u32 = route[i];
            let c: u32 = route[i + 1];
            proof {
                assert(cap + amount <= b + amount * route.len()) by (nonlinear_arith)
                    requires cap == b + amount * i, i + 1 < route.len(), 0 <= amount;
                lemma_index(a as int, c as int, n as int);
                lemma_index(c as int, a as int, n as int);
            }
            let ghost mid_store = *self;
            let ghost mid = self.levels@;
            let j: usize = a as usize * n + c as usize;
            let x: u128 = self.levels[j] + amount;
            self.levels.set(j, x);
            let ghost after_one = self.levels@;
            if a != c {
                let j2: usize = c as usize * n + a as usize;
                proof {
                    if j2 == j {
                        lemma_index_injective(c as int, a as int, a as int, c as int, n as int);
                    }
                }
                let x2: u128 = self.levels[j2] + amount;
                self.levels.set(j2, x2);
            }
            proof {
                let t = route@.take(i + 2);
                assert(t.drop_last() =~= route@.take(i + 1));
                assert(t.len() == i + 2);
                assert(t[i as int] == a && t[i + 1] == c);
                assert forall|u: int, v: int| 0 <= u < n && 0 <= v < n implies #[trigger] self.level(u, v)
                    == start.level(u, v) + amount * edge_count(route@.take(i + 2), u, v) by {
                    let k = u * n + v;
                    lemma_index(u, v, n as int);
                    let e = edge_count(route@.take(i + 1), u, v);
                    assert(mid_store.level(u, v) == start.level(u, v) + amount * e);
                    assert(mid[k] == mid_store.level(u, v));
                    if touches(a, c, u, v) {
                        assert(edge_count(t, u, v) == e + 1);
                        assert(amount * (e + 1) == amount * e + amount) by (nonlinear_arith);
                        if u == a && v == c {
                            assert(k == j);
                            if a != c {
                                if k == c * n + a {
                                    lemma_index_injective(c as int, a as int, a as int, c as int, n as int);
                                }
                            }
                        } else {
                            assert(u == c && v == a);
                            assert(a != c);
                            if k == j {
                                lemma_index_injective(u, v, a as int, c as int, n as int);
                            }
                        }
                    } else {
                        assert(edge_count(t, u, v) == e);
                        if k == j {
                            lemma_index_injective(u, v, a as int, c as int, n as int);
                        }
                        if k == c * n + a {
                            lemma_index_injective(u, v, c as int, a as int, n as int);
                        }
                        assert(self.levels@[k] == mid[k]);
                    }
                }
                cap = cap + amount;
                assert(cap == b + amount * (i + 1)) by (nonlinear_arith)
                    requires cap == b + amount * i + amount;
            }
            i = i + 1;
        }
        proof {
            assert(route@.take(i + 1) =~= route@);
            assert(cap <= b + amount * route.len()) by (nonlinear_arith)
                requires cap == b + amount * i, i + 1 == route.len(), 0 <= amount;
        }
    }
}

} // verus!

use ant_colony::ant::Ant;
use ant_colony::colony::{ant_pheromone, Colony, DEPOSIT};
use ant_colony::geometry::{distance, fifth_root, isqrt};
use ant_colony::pheromone::PheromoneStore;
use ant_colony::selection::{attractiveness, select_weighted};

fn is_permutation(route: &[u32], n: usize) -> bool {
    let mut seen = vec![false; n];
    for &x in route {
        if (x as usize) >= n || seen[x as usize] {
            return false;
        }
        seen[x as usize] = true;
    }
    route.len() == n
}

#[test]
fn distance_of_three_four_five() {
    assert_eq!(distance((0, 0), (3, 4)), 5000);
    assert_eq!(distance((3, 4), (0, 0)), 5000);
    assert_eq!(distance((7, 7), (7, 7)), 0);
    assert_eq!(distance((0, 0), (1, 1)), 1414);
    assert_eq!(distance((0, 0), (u32::MAX, u32::MAX)), 6_074_000_998_537);
}

#[test]
fn integer_roots() {
    assert_eq!(isqrt(0), 0);
    assert_eq!(isqrt(15), 3);
    assert_eq!(isqrt(16), 4);
    assert_eq!(isqrt(1_000_000), 1000);
    assert_eq!(fifth_root(0), 0);
    assert_eq!(fifth_root(31), 1);
    assert_eq!(fifth_root(32), 2);
    assert_eq!(fifth_root(u64::MAX), 7131);
}

#[test]
fn attractiveness_values() {
    assert_eq!(attractiveness(0, 5000), 0);
    assert_eq!(attractiveness(100, 1), 10 * (1u128 << 32));
    assert_eq!(attractiveness(100, 0), 10 * (1u128 << 32));
    // length 32: fifth root 2, so the divisor is 64
    assert_eq!(attractiveness(100, 32), 10 * (1u128 << 32) / 64);
}

#[test]
fn roulette_selection() {
    let w = vec![1u128, 2, 3];
    assert_eq!(select_weighted(&w, 0), 0);
    assert_eq!(select_weighted(&w, 1), 1);
    assert_eq!(select_weighted(&w, 2), 1);
    assert_eq!(select_weighted(&w, 3), 2);
    assert_eq!(select_weighted(&w, 5), 2);
    assert_eq!(select_weighted(&w, 100), 2);
    assert_eq!(select_weighted(&vec![0u128, 0, 5], 0), 2);
    assert_eq!(select_weighted(&vec![7u128], 3), 0);
}

#[test]
fn new_colony_has_no_best() {
    let c = Colony::default(vec![(0, 0), (5, 5)]);
    assert_eq!(c.best_distance(), None);
    assert!(c.best_route().is_empty());
    assert_eq!(c.iterations(), 80);
    assert_eq!(c.pheromone(0, 1), 0);
}

#[test]
fn ant_route_is_permutation() {
    let nodes = vec![(0, 0), (10, 3), (4, 9), (7, 7), (1, 12), (20, 2)];
    let store = PheromoneStore::new(nodes.len());
    for exploring in [true, false] {
        let mut ant = Ant::new(0, exploring, &nodes);
        ant.run(&nodes, &store);
        assert!(is_permutation(ant.route(), nodes.len()));
        assert_eq!(ant.route()[0], 0);
        let mut len = 0u64;
        for w in ant.route().windows(2) {
            len += distance(nodes[w[0] as usize], nodes[w[1] as usize]);
        }
        assert_eq!(ant.distance_travelled(), len);
    }
}

#[test]
fn round_routes_are_permutations() {
    let nodes = vec![(0, 0), (10, 3), (4, 9), (7, 7), (1, 12)];
    let mut c = Colony::default(nodes.clone());
    for _ in 0..5 {
        c.mainloop();
        assert!(is_permutation(c.best_route(), nodes.len()));
        assert_eq!(c.best_route()[0], 0);
    }
}

#[test]
fn single_node_is_zero_length() {
    let mut c = Colony::default(vec![(3, 3)]);
    c.mainloop();
    assert_eq!(c.best_distance(), Some(0));
    assert_eq!(c.best_route().clone(), vec![0]);
}

#[test]
fn best_distance_never_increases() {
    let nodes = vec![(0, 0), (50, 10), (30, 40), (5, 60), (70, 70), (90, 5), (45, 45)];
    let mut c = Colony::default(nodes);
    c.mainloop();
    let mut last = c.best_distance().unwrap();
    for _ in 0..30 {
        c.mainloop();
        let now = c.best_distance().unwrap();
        assert!(now <= last);
        last = now;
    }
}

#[test]
fn pheromone_stays_non_negative_and_marks_tours() {
    let nodes = vec![(0, 0), (0, 10), (10, 10), (10, 0)];
    let mut c = Colony::default(nodes);
    for _ in 0..20 {
        c.mainloop();
    }
    let mut total: u128 = 0;
    for u in 0..4u32 {
        for v in 0..4u32 {
            assert_eq!(c.pheromone(u, v), c.pheromone(v, u));
            total += c.pheromone(u, v);
        }
    }
    assert!(total > 0);
}

#[test]
fn evaporation_keeps_sixty_percent() {
    let nodes = vec![(0, 0), (3, 4)];
    let mut c = Colony::default(nodes);
    c.mainloop();
    let first = c.pheromone(0, 1);
    // every ant of every round takes the single edge of length 5000
    assert_eq!(first, 50 * (DEPOSIT / 5000));
    c.mainloop();
    assert_eq!(c.pheromone(0, 1), first * 60 / 100 + first);
}

#[test]
fn deposits_of_two_ants_add_up() {
    let nodes = vec![(0, 0), (3, 0), (3, 4)];
    let mut a1 = Ant::new(0, false, &nodes);
    a1.move_(1, &nodes);
    a1.move_(2, &nodes);
    let mut a2 = Ant::new(0, false, &nodes);
    a2.move_(2, &nodes);
    a2.move_(1, &nodes);
    assert_eq!(a1.distance_travelled(), 7000);
    assert_eq!(a2.distance_travelled(), 9000);
    let delta = ant_pheromone(&nodes, &vec![a1, a2]);
    let expected = DEPOSIT / 7000 + DEPOSIT / 9000;
    assert_eq!(delta.get(1, 2), expected);
    assert_eq!(delta.get(2, 1), expected);
    assert_eq!(delta.get(0, 1), DEPOSIT / 7000);
    assert_eq!(delta.get(0, 2), DEPOSIT / 9000);
    assert_eq!(delta.get(0, 0), 0);
}

#[test]
fn exploration_is_uniform() {
    let nodes = vec![(0, 0), (1, 0), (100, 100)];
    let store = PheromoneStore::new(3);
    let ant = Ant::new(0, true, &nodes);
    let trials = 4000;
    let mut counts = [0u32; 3];
    for _ in 0..trials {
        counts[ant.decide(&nodes, &store) as usize] += 1;
    }
    assert_eq!(counts[0], 0);
    let expected = trials as f64 / 2.0;
    let chi2: f64 = counts[1..]
        .iter()
        .map(|&o| (o as f64 - expected) * (o as f64 - expected) / expected)
        .sum();
    // one degree of freedom, significance 0.001
    assert!(chi2 < 10.83, "chi-square {}", chi2);
}

#[test]
fn square_converges_to_perimeter() {
    let nodes = vec![(0, 0), (0, 10), (10, 10), (10, 0)];
    let mut c = Colony::default(nodes);
    for _ in 0..80 {
        c.mainloop();
    }
    assert_eq!(c.best_distance(), Some(30000));
    let route = c.best_route().clone();
    assert!(route == vec![0, 1, 2, 3] || route == vec![0, 3, 2, 1]);
}

#[test]
fn two_nodes_give_single_edge() {
    let mut c = Colony::default(vec![(0, 0), (3, 4)]);
    c.mainloop();
    assert_eq!(c.best_distance(), Some(5000));
    assert_eq!(c.best_route().clone(), vec![0, 1]);
    let mut d = Colony::default(vec![(2, 2), (2, 9)]);
    d.mainloop();
    assert_eq!(d.best_distance(), Some(7000));
}

use metaheuristics::ant_colony::{
    deposit, evaporate, initial_pheromones, weight_of_edge, AntColony, FIXED_ONE, PHEROMONE_FLOOR,
    PHEROMONE_UNIT,
};
use metaheuristics::archive::{Archive, BasicArchive};
use metaheuristics::errors::ConfigError;
use metaheuristics::individuals::TourIndividual;
use metaheuristics::observer::DistributionObserver;
use metaheuristics::{Individual, Optimizer, Random};

fn example_matrix() -> Vec<Vec<u64>> {
    vec![
        vec![0, 2, 2, 1],
        vec![2, 0, 4, 3],
        vec![2, 4, 0, 5],
        vec![1, 3, 5, 0],
    ]
}

fn tour_length(d: &Vec<Vec<u64>>, tour: &Vec<usize>) -> u64 {
    let mut total = 0;
    for k in 0..tour.len() - 1 {
        total += d[tour[k]][tour[k + 1]];
    }
    total
}

fn assert_valid_tour(tour: &Vec<usize>, n: usize) {
    assert_eq!(tour.len(), n + 1);
    assert_eq!(tour[0], tour[n]);
    let mut seen = vec![false; n];
    for &node in &tour[..n] {
        assert!(node < n);
        assert!(!seen[node]);
        seen[node] = true;
    }
}

fn brute_force_best(d: &Vec<Vec<u64>>) -> u64 {
    let n = d.len();
    let mut best = u64::MAX;
    let mut perm: Vec<usize> = (1..n).collect();
    loop {
        let mut tour = vec![0];
        tour.extend(perm.iter().copied());
        tour.push(0);
        best = best.min(tour_length(d, &tour));
        // next permutation
        let mut i = perm.len();
        while i > 1 && perm[i - 2] >= perm[i - 1] {
            i -= 1;
        }
        if i <= 1 {
            break;
        }
        let mut j = perm.len() - 1;
        while perm[j] <= perm[i - 2] {
            j -= 1;
        }
        perm.swap(i - 2, j);
        perm[i - 1..].reverse();
    }
    best
}

#[test]
fn test_ant_colony_optimization() {
    let distances = example_matrix();

    let aco = AntColony::new(10, 100, 1, 5, 500_000, distances.clone()).unwrap();
    let mut archive: BasicArchive<TourIndividual> = BasicArchive::new(3).unwrap();

    let mut observers = vec![DistributionObserver::<TourIndividual>::new()];
    let mut rng = Random::seeded(7);

    aco.optimize(&mut archive, &mut observers, &mut rng).unwrap();

    assert!(archive.get_best().is_some());

    if let Some(best_tour) = archive.get_best() {
        let fitness = best_tour.fitness();
        assert!(fitness >= 0);
    }
}

#[test]
fn ant_colony_finds_brute_force_optimum() {
    let distances = example_matrix();
    assert_eq!(brute_force_best(&distances), 10);
    for seed in 0..5 {
        let aco = AntColony::new(10, 100, 1, 5, 500_000, distances.clone()).unwrap();
        let mut archive: BasicArchive<TourIndividual> = BasicArchive::new(3).unwrap();
        let mut observers: Vec<DistributionObserver<TourIndividual>> = Vec::new();
        let mut rng = Random::seeded(seed);
        aco.optimize(&mut archive, &mut observers, &mut rng).unwrap();
        let best = archive.get_best().unwrap();
        assert_valid_tour(&best.tour, 4);
        assert_eq!(best.length, tour_length(&distances, &best.tour));
        assert_eq!(best.length, 10);
    }
}

#[test]
fn every_tour_is_a_closed_permutation() {
    let distances = example_matrix();
    let aco = AntColony::new(3, 4, 1, 2, 100_000, distances.clone()).unwrap();
    let pheromones = initial_pheromones(4);
    let mut rng = Random::seeded(11);
    for _ in 0..50 {
        let (tour, length) = aco.construct_solution(&pheromones, &mut rng);
        assert_valid_tour(&tour, 4);
        assert_eq!(length, tour_length(&distances, &tour));
    }
    let mut archive: BasicArchive<TourIndividual> = BasicArchive::new(20).unwrap();
    let mut observers = vec![DistributionObserver::<TourIndividual>::new()];
    aco.optimize(&mut archive, &mut observers, &mut rng).unwrap();
    assert_eq!(archive.len(), 12);
    for i in 0..archive.len() {
        let entry = archive.get(i).unwrap();
        assert_valid_tour(&entry.tour, 4);
        assert_eq!(entry.length, tour_length(&distances, &entry.tour));
    }
    // one snapshot for iteration 0 (empty) and one per iteration
    let snapshots = observers[0].distributions();
    assert_eq!(snapshots.len(), 5);
    assert_eq!(snapshots[0].len(), 0);
    assert_eq!(snapshots[1].len(), 3);
}

#[test]
fn ant_colony_refuses_bad_matrices() {
    let mut zero = example_matrix();
    zero[1][2] = 0;
    zero[2][1] = 0;
    assert_eq!(AntColony::new(1, 1, 1, 1, 0, zero).err(), Some(ConfigError::DistanceOutOfRange));
    let ragged = vec![vec![0, 1], vec![1]];
    assert_eq!(AntColony::new(1, 1, 1, 1, 0, ragged).err(), Some(ConfigError::MatrixShape));
    let single = vec![vec![0]];
    assert_eq!(AntColony::new(1, 1, 1, 1, 0, single).err(), Some(ConfigError::MatrixShape));
    assert_eq!(
        AntColony::new(1, 1, 1, 1, 1_000_001, example_matrix()).err(),
        Some(ConfigError::RateOutOfRange)
    );
    let lopsided = vec![vec![0, 1], vec![2, 0]];
    assert_eq!(AntColony::new(1, 1, 1, 1, 0, lopsided).err(), Some(ConfigError::AsymmetricMatrix));
    let far = vec![vec![0, 2_000_000], vec![2_000_000, 0]];
    assert_eq!(AntColony::new(1, 1, 1, 1, 0, far).err(), Some(ConfigError::DistanceOutOfRange));
}

#[test]
fn edge_weight_values() {
    let one = FIXED_ONE;
    // the best candidate in both respects has weight one (squared unit)
    assert_eq!(weight_of_edge(PHEROMONE_UNIT, PHEROMONE_UNIT, 2, 2, 1, 1), one * one);
    // half the pheromone and twice the distance: a quarter
    assert_eq!(weight_of_edge(PHEROMONE_UNIT / 2, PHEROMONE_UNIT, 4, 2, 1, 1), one * one / 4);
    // beta = 2 squares the distance ratio
    assert_eq!(weight_of_edge(7, 7, 4, 2, 1, 2), one * one / 4);
    // alpha = beta = 0 gives weight one
    assert_eq!(weight_of_edge(1, 9, 3, 1, 0, 0), one * one);
    // far distances still differ
    let w40 = weight_of_edge(5, 5, 40_000, 40_000, 1, 1);
    let w50 = weight_of_edge(5, 5, 50_000, 40_000, 1, 1);
    assert_eq!(w40, one * one);
    assert_eq!(w50, one * (40_000 * one / 50_000));
    assert!(w50 < w40);
}

#[test]
fn pheromone_never_falls_below_floor() {
    let mut p = initial_pheromones(3);
    assert!(p.iter().all(|row| row.iter().all(|&x| x == PHEROMONE_UNIT)));
    evaporate(&mut p, 500_000);
    assert_eq!(p[0][1], PHEROMONE_UNIT / 2);
    for _ in 0..10 {
        evaporate(&mut p, 500_000);
    }
    assert!(p[0][1] >= PHEROMONE_FLOOR);
    assert!(p.iter().all(|row| row.iter().all(|&x| x == PHEROMONE_FLOOR)));
    evaporate(&mut p, 1_000_000);
    assert_eq!(p[2][2], PHEROMONE_FLOOR);
    let tour = vec![0, 2, 1, 0];
    deposit(&mut p, &tour, 4);
    assert_eq!(p[0][2], PHEROMONE_FLOOR + PHEROMONE_UNIT / 4);
    assert_eq!(p[2][0], PHEROMONE_FLOOR + PHEROMONE_UNIT / 4);
    assert_eq!(p[1][2], PHEROMONE_FLOOR + PHEROMONE_UNIT / 4);
    assert_eq!(p[0][0], PHEROMONE_FLOOR);
    assert_eq!(p[1][1], PHEROMONE_FLOOR);
}

#[test]
fn update_pheromones_keeps_floor() {
    let distances = example_matrix();
    let aco = AntColony::new(2, 1, 1, 1, 900_000, distances.clone()).unwrap();
    let mut p = initial_pheromones(4);
    let tour = vec![0, 2, 1, 3, 0];
    let length = tour_length(&distances, &tour);
    let population = vec![TourIndividual::new(tour, length)];
    for _ in 0..5 {
        aco.update_pheromones(&mut p, &population);
    }
    assert!(p.iter().all(|row| row.iter().all(|&x| x >= PHEROMONE_FLOOR)));
    assert_eq!(p[0][1], PHEROMONE_FLOOR);
    assert!(p[0][2] > PHEROMONE_FLOOR);
}

#[test]
fn tour_individual_fitness_is_length() {
    let t = TourIndividual::new(vec![0, 1, 0], 17);
    assert_eq!(t.fitness(), 17);
}

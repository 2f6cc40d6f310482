use metaheuristics::archive::{Archive, BasicArchive};
use metaheuristics::errors::ConfigError;
use metaheuristics::individuals::{NumericIndividual, GENE_UNIT};
use metaheuristics::observer::DistributionObserver;
use metaheuristics::simulated_annealing::{
    accepts, bernoulli_exp, cool, exp_test_outcome, falling_run_outcome, SimulatedAnnealing,
};
use metaheuristics::{Individual, Neighbor, Optimizer, Random};

#[test]
fn test_simulated_annealing_numeric_individual() {
    // 100.0 in the fitness unit of the sphere function (1 / GENE_UNIT^2)
    let sa = SimulatedAnnealing::new(100_000_000, 10_000, 500).unwrap();
    let mut archive: BasicArchive<NumericIndividual> = BasicArchive::new(5).unwrap();
    let mut observers = vec![DistributionObserver::new(), DistributionObserver::new()];
    let mut rng = Random::seeded(31);

    sa.optimize(&mut archive, &mut observers, &mut rng).unwrap();

    assert!(archive.get_best().is_some());
    if let Some(best_individual) = archive.get_best() {
        let fitness = best_individual.fitness();
        assert!(fitness >= 0);
    }
}

#[test]
fn cooling_is_geometric_and_never_zero() {
    assert_eq!(cool(1000, 100_000), 900);
    assert_eq!(cool(1000, 0), 1000);
    assert_eq!(cool(1, 500_000), 1);
    let sa = SimulatedAnnealing::new(1_000_000, 500_000, 10).unwrap();
    assert_eq!(sa.temperature_at(0), 1_000_000);
    assert_eq!(sa.temperature_at(1), 500_000);
    assert_eq!(sa.temperature_at(3), 125_000);
    assert_eq!(sa.temperature_at(6), 15_625);
    assert_eq!(sa.temperature_at(100), 1);
}

#[test]
fn simulated_annealing_refuses_bad_configuration() {
    assert_eq!(SimulatedAnnealing::new(0, 0, 1).err(), Some(ConfigError::NonPositiveTemperature));
    assert_eq!(
        SimulatedAnnealing::new(10, 1_000_000, 1).err(),
        Some(ConfigError::CoolingRateTooHigh)
    );
}

#[test]
fn improving_moves_are_always_accepted() {
    let mut rng = Random::seeded(6);
    for _ in 0..100 {
        assert!(accepts(10, 9, 1, &mut rng));
        assert!(accepts(10, 10, 1, &mut rng));
        assert!(bernoulli_exp(0, 5, &mut rng));
    }
    // a move worse by 50 temperatures is practically never taken
    let taken = (0..200).filter(|_| accepts(0, 50, 1, &mut rng)).count();
    assert_eq!(taken, 0);
}

#[test]
fn acceptance_rate_follows_the_exponential() {
    let mut rng = Random::seeded(99);
    let trials = 20_000;
    // exp(-1) is about 0.368
    let hits = (0..trials).filter(|_| bernoulli_exp(1, 1, &mut rng)).count();
    let rate = hits as f64 / trials as f64;
    assert!((rate - (-1.0f64).exp()).abs() < 0.02);
    // exp(-2.5) is about 0.082
    let hits = (0..trials).filter(|_| bernoulli_exp(5, 2, &mut rng)).count();
    let rate = hits as f64 / trials as f64;
    assert!((rate - (-2.5f64).exp()).abs() < 0.02);
}

#[test]
fn neighbor_moves_each_gene_by_at_most_one() {
    let mut rng = Random::seeded(14);
    let mut n = NumericIndividual { genes: vec![0, 5 * GENE_UNIT, -7] };
    let m = n.neighbor(&mut rng);
    assert_eq!(m.genes.len(), 3);
    for (a, b) in n.genes.iter().zip(m.genes.iter()) {
        assert!((b - a).abs() <= GENE_UNIT);
    }
    assert_eq!(n.genes, vec![0, 5 * GENE_UNIT, -7]);
}

#[test]
fn annealing_best_never_worse_than_first_iteration() {
    for seed in 0..5 {
        let sa = SimulatedAnnealing::new(10_000_000, 5_000, 300).unwrap();
        let mut archive: BasicArchive<NumericIndividual> = BasicArchive::new(3).unwrap();
        let mut observers = vec![DistributionObserver::new()];
        let mut rng = Random::seeded(100 + seed);
        sa.optimize(&mut archive, &mut observers, &mut rng).unwrap();
        let first = observers[0].distributions()[1][0].fitness();
        assert!(archive.get_best().unwrap().fitness() <= first);
        assert_eq!(observers[0].distributions().len(), 301);
    }
}

#[test]
fn falling_run_tests_on_given_draws() {
    // three falling draws then a rise: an even run of two, passes
    assert_eq!(falling_run_outcome(1, 1, &vec![5, 3, 4]), Some(true));
    // one falling draw then a rise: fails
    assert_eq!(falling_run_outcome(1, 1, &vec![5, 6]), Some(false));
    // still falling: undecided
    assert_eq!(falling_run_outcome(1, 1, &vec![5, 3]), None);
    // for exp(0) the first draw never lies below zero
    assert_eq!(falling_run_outcome(0, 4, &vec![0]), Some(true));
    // exp(-1.5): one unit, then the half
    assert_eq!(exp_test_outcome(3, 2, &vec![vec![5, 3, 4], vec![7, 9]]), Some(false));
    assert_eq!(exp_test_outcome(3, 2, &vec![vec![5, 3, 4], vec![7, 2, 9]]), Some(true));
    assert_eq!(exp_test_outcome(3, 2, &vec![vec![5, 6]]), Some(false));
    assert_eq!(exp_test_outcome(3, 2, &vec![vec![5, 3, 4]]), None);
}

use metaheuristics::archive::{Archive, BasicArchive};
use metaheuristics::errors::ConfigError;
use metaheuristics::genetic_algorithm::GeneticAlgorithm;
use metaheuristics::individuals::{BitStringIndividual, NumericIndividual, GENE_UNIT};
use metaheuristics::observer::DistributionObserver;
use metaheuristics::selection::{roulette_draw, roulette_index, total_weight};
use metaheuristics::{Individual, Optimizer, Random};

#[test]
fn test_genetic_algorithm_numeric_individual() {
    let ga = GeneticAlgorithm::new(50, 50_000, 800_000, 30).unwrap();
    let mut archive: BasicArchive<NumericIndividual> = BasicArchive::new(5).unwrap();

    let mut observers = vec![DistributionObserver::new(), DistributionObserver::new()];
    let mut rng = Random::seeded(21);

    ga.optimize(&mut archive, &mut observers, &mut rng).unwrap();

    assert!(archive.get_best().is_some());
    if let Some(best_individual) = archive.get_best() {
        let fitness = best_individual.fitness();
        assert!(fitness >= 0);
    }
}

#[test]
fn genetic_algorithm_refuses_bad_configuration() {
    assert_eq!(GeneticAlgorithm::new(5, 0, 0, 1).err(), Some(ConfigError::PopulationSize));
    assert_eq!(GeneticAlgorithm::new(0, 0, 0, 1).err(), Some(ConfigError::PopulationSize));
    assert_eq!(GeneticAlgorithm::new(4, 1_000_001, 0, 1).err(), Some(ConfigError::RateOutOfRange));
    assert_eq!(GeneticAlgorithm::new(4, 0, 2_000_000, 1).err(), Some(ConfigError::RateOutOfRange));
    let ga = GeneticAlgorithm::new(4, 1_000_000, 1_000_000, 9).unwrap();
    assert_eq!(ga.population_size(), 4);
    assert_eq!(ga.generations(), 9);
}

#[test]
fn roulette_picks_first_index_past_the_draw() {
    let w: Vec<u128> = vec![3, 0, 2, 5];
    assert_eq!(total_weight(&w), 10);
    assert_eq!(roulette_index(&w, 0), 0);
    assert_eq!(roulette_index(&w, 2), 0);
    assert_eq!(roulette_index(&w, 3), 2);
    assert_eq!(roulette_index(&w, 4), 2);
    assert_eq!(roulette_index(&w, 5), 3);
    assert_eq!(roulette_index(&w, 9), 3);
}

#[test]
fn roulette_never_draws_zero_weight() {
    let mut rng = Random::seeded(8);
    let w: Vec<u128> = vec![0, 4, 0, 1, 0];
    for _ in 0..200 {
        let i = roulette_draw(&w, &mut rng).unwrap();
        assert!(i == 1 || i == 3);
    }
    let zeros: Vec<u128> = vec![0, 0, 0];
    assert_eq!(roulette_draw(&zeros, &mut rng), None);
    let empty: Vec<u128> = vec![];
    assert_eq!(roulette_draw(&empty, &mut rng), None);
}

#[test]
fn selection_keeps_population_size_and_skips_zero_scores() {
    let ga = GeneticAlgorithm::new(6, 0, 0, 1).unwrap();
    let mut rng = Random::seeded(4);
    let population = vec![
        BitStringIndividual { bits: vec![false, false] },
        BitStringIndividual { bits: vec![true, false] },
        BitStringIndividual { bits: vec![true, true] },
    ];
    let scores: Vec<u64> = population.iter().map(|p| p.fitness()).collect();
    let pool = ga.selection(&population, &scores, &mut rng).unwrap();
    assert_eq!(pool.len(), 6);
    assert!(pool.iter().all(|p| p.fitness() > 0));
    let zero_scores = vec![0, 0, 0];
    assert!(ga.selection(&population, &zero_scores, &mut rng).is_none());
    let next = ga.crossover_and_mutate(pool, &mut rng);
    assert_eq!(next.len(), 6);
    assert!(next.iter().all(|p| p.fitness() > 0));
}

#[test]
fn population_size_is_invariant_across_generations() {
    let ga = GeneticAlgorithm::new(8, 300_000, 900_000, 12).unwrap();
    let mut archive: BasicArchive<BitStringIndividual> = BasicArchive::new(4).unwrap();
    let mut observers = vec![DistributionObserver::new()];
    let mut rng = Random::seeded(12);
    ga.optimize(&mut archive, &mut observers, &mut rng).unwrap();
    let snaps = observers[0].distributions();
    assert_eq!(snaps.len(), 13);
    assert!(snaps.iter().all(|p| p.len() == 8));
    assert_eq!(archive.len(), 4);
}

#[test]
fn numeric_fitness_is_sphere() {
    let n = NumericIndividual { genes: vec![3 * GENE_UNIT, -4 * GENE_UNIT, 0] };
    assert_eq!(n.fitness(), 25_000_000);
    let huge = NumericIndividual { genes: vec![i64::MIN, i64::MAX] };
    assert_eq!(huge.fitness(), u64::MAX);
    let empty = NumericIndividual { genes: vec![] };
    assert_eq!(empty.fitness(), 0);
}

#[test]
fn genetic_algorithm_best_never_worse_than_first_generation() {
    for seed in 0..5 {
        let ga = GeneticAlgorithm::new(20, 100_000, 700_000, 15).unwrap();
        let mut archive: BasicArchive<NumericIndividual> = BasicArchive::new(3).unwrap();
        let mut observers = vec![DistributionObserver::new()];
        let mut rng = Random::seeded(seed);
        ga.optimize(&mut archive, &mut observers, &mut rng).unwrap();
        let first_best = observers[0].distributions()[1].iter().map(|p| p.fitness()).min().unwrap();
        assert!(archive.get_best().unwrap().fitness() <= first_best);
    }
}

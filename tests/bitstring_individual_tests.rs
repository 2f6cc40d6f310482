use metaheuristics::archive::{Archive, BasicArchive};
use metaheuristics::genetic_algorithm::GeneticAlgorithm;
use metaheuristics::individuals::{splice, BitStringIndividual};
use metaheuristics::observer::DistributionObserver;
use metaheuristics::{Crossover, Individual, Mutate, Optimizer, Random};

#[test]
fn test_genetic_algorithm_bitstring_individual() {
    let ga = GeneticAlgorithm::new(50, 50_000, 800_000, 30).unwrap();
    let mut archive: BasicArchive<BitStringIndividual> = BasicArchive::new(5).unwrap();

    let mut observers = vec![DistributionObserver::new()];
    let mut rng = Random::seeded(3);

    let outcome = ga.optimize(&mut archive, &mut observers, &mut rng);
    assert!(outcome.is_ok());

    assert!(archive.get_best().is_some());
    if let Some(best_individual) = archive.get_best() {
        let fitness = best_individual.fitness();
        assert!(fitness <= 20);
    }
}

#[test]
fn bitstring_fitness_counts_ones() {
    let b = BitStringIndividual { bits: vec![true, false, true, true, false] };
    assert_eq!(b.fitness(), 3);
    let empty = BitStringIndividual { bits: vec![] };
    assert_eq!(empty.fitness(), 0);
}

#[test]
fn bitstring_mutation_flips_one_bit() {
    let mut rng = Random::seeded(5);
    let start = BitStringIndividual { bits: vec![false; 12] };
    let mut b = start.clone();
    b.mutate(&mut rng);
    assert_eq!(b.fitness(), 1);
    let mut e = BitStringIndividual { bits: vec![] };
    e.mutate(&mut rng);
    assert!(e.bits.is_empty());
}

#[test]
fn bitstring_crossover_joins_parents() {
    let mut rng = Random::seeded(9);
    let a = BitStringIndividual { bits: vec![true; 8] };
    let b = BitStringIndividual { bits: vec![false; 8] };
    for _ in 0..20 {
        let c = a.crossover(&b, &mut rng);
        assert_eq!(c.bits.len(), 8);
        let point = c.bits.iter().take_while(|&&x| x).count();
        assert!(point < 8);
        assert!(c.bits[point..].iter().all(|&x| !x));
    }
    assert_eq!(splice(&vec![1, 2, 3], &vec![7, 8, 9, 10], 1), vec![1, 8, 9, 10]);
    assert_eq!(splice(&vec![1, 2, 3], &vec![7], 2), vec![1, 2]);
}

#[test]
fn bitstring_default_has_twenty_bits() {
    let mut rng = Random::seeded(1);
    let b = <BitStringIndividual as metaheuristics::individual::Default>::default(&mut rng);
    assert_eq!(b.bits.len(), 20);
    assert_eq!(BitStringIndividual::new(7, &mut rng).bits.len(), 7);
}

use metaheuristics::archive::{Archive, BasicArchive};
use metaheuristics::errors::SearchError;
use metaheuristics::genetic_algorithm::GeneticAlgorithm;
use metaheuristics::individual::{Crossover, Individual, Mutate};
use metaheuristics::observer::{DistributionObserver, Observer};
use metaheuristics::{Optimizer, Random};

#[derive(Clone, Debug)]
struct TestIndividual {
    data: Vec<u8>,
}

impl Individual for TestIndividual {
    fn spec_fitness(&self) -> u64 {
        self.fitness()
    }

    fn fitness(&self) -> u64 {
        // count the zeros
        self.data.iter().filter(|&&x| x == 0).count() as u64
    }
}

impl Crossover for TestIndividual {
    fn crossover(&self, other: &Self, rng: &mut Random) -> Self {
        let point = rng.index(self.data.len());
        let mut new_data = self.data[..point].to_vec();
        new_data.extend_from_slice(&other.data[point..]);
        Self { data: new_data }
    }
}

impl Mutate for TestIndividual {
    fn mutate(&mut self, rng: &mut Random) {
        let idx = rng.index(self.data.len());
        self.data[idx] = rng.below(256) as u8;
    }
}

impl metaheuristics::individual::Default for TestIndividual {
    fn default(rng: &mut Random) -> Self {
        let data = (0..10).map(|_| rng.below(3) as u8).collect();
        Self { data }
    }
}

#[test]
fn test_individual_trait_with_genetic_algorithm() {
    let ga = GeneticAlgorithm::new(50, 50_000, 800_000, 30).unwrap();
    let mut archive: BasicArchive<TestIndividual> = BasicArchive::new(5).unwrap();

    let mut observers = vec![DistributionObserver::new(), DistributionObserver::new()];
    let mut rng = Random::seeded(17);

    let _outcome = ga.optimize(&mut archive, &mut observers, &mut rng);

    assert!(archive.get_best().is_some());
}

/// Every candidate scores zero: fitness-proportional selection has nothing
/// to weigh and the run stops with an error in its first generation.
#[derive(Clone, Debug)]
struct Flat;

impl Individual for Flat {
    fn spec_fitness(&self) -> u64 {
        self.fitness()
    }

    fn fitness(&self) -> u64 {
        0
    }
}

impl Crossover for Flat {
    fn crossover(&self, _other: &Self, _rng: &mut Random) -> Self {
        Flat
    }
}

impl Mutate for Flat {
    fn mutate(&mut self, _rng: &mut Random) {}
}

impl metaheuristics::individual::Default for Flat {
    fn default(_rng: &mut Random) -> Self {
        Flat
    }
}

#[test]
fn zero_fitness_population_is_a_domain_error() {
    let ga = GeneticAlgorithm::new(4, 0, 0, 10).unwrap();
    let mut archive: BasicArchive<Flat> = BasicArchive::new(2).unwrap();
    let mut observers = vec![DistributionObserver::new()];
    let mut rng = Random::seeded(1);
    let outcome = ga.optimize(&mut archive, &mut observers, &mut rng);
    assert_eq!(outcome, Err(SearchError::ZeroTotalFitness { generation: 1 }));
    // the first generation was archived and shown before selection failed
    assert_eq!(archive.len(), 2);
    assert_eq!(observers[0].distributions().len(), 2);
}

#[test]
fn observer_protocol_records_every_iteration() {
    let ga = GeneticAlgorithm::new(6, 0, 0, 4).unwrap();
    let mut archive: BasicArchive<TestIndividual> = BasicArchive::new(3).unwrap();
    let mut observers = vec![DistributionObserver::new()];
    let mut rng = Random::seeded(2);
    // with both rates zero every child clones a parent of positive score
    ga.optimize(&mut archive, &mut observers, &mut rng).unwrap();
    let snaps = observers[0].distributions();
    assert_eq!(snaps.len(), 5);
    assert!(snaps.iter().all(|p| p.len() == 6));
    let mut o: DistributionObserver<TestIndividual> = DistributionObserver::new();
    o.on_start();
    o.on_iteration(0, &[]);
    o.on_finish();
    assert_eq!(o.distributions().len(), 1);
}

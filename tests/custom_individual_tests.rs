use metaheuristics::archive::{Archive, BasicArchive};
use metaheuristics::genetic_algorithm::GeneticAlgorithm;
use metaheuristics::individual::{Crossover, Individual, Mutate};
use metaheuristics::observer::DistributionObserver;
use metaheuristics::{Optimizer, Random};

#[derive(Clone, Debug)]
struct CustomIndividual {
    data: Vec<char>,
}

fn random_letter(rng: &mut Random) -> char {
    (b'a' + rng.below(26) as u8) as char
}

impl CustomIndividual {
    fn new(target: &str, rng: &mut Random) -> Self {
        let data = (0..target.len()).map(|_| random_letter(rng)).collect();
        Self { data }
    }
}

impl Individual for CustomIndividual {
    fn spec_fitness(&self) -> u64 {
        self.fitness()
    }

    fn fitness(&self) -> u64 {
        let target = "hello";
        self.data.iter().zip(target.chars()).filter(|&(a, b)| *a != b).count() as u64
    }
}

impl Crossover for CustomIndividual {
    fn crossover(&self, other: &Self, rng: &mut Random) -> Self {
        let point = rng.index(self.data.len());
        let mut new_data = self.data[..point].to_vec();
        new_data.extend_from_slice(&other.data[point..]);
        Self { data: new_data }
    }
}

impl Mutate for CustomIndividual {
    fn mutate(&mut self, rng: &mut Random) {
        let idx = rng.index(self.data.len());
        self.data[idx] = random_letter(rng);
    }
}

impl metaheuristics::individual::Default for CustomIndividual {
    fn default(rng: &mut Random) -> Self {
        CustomIndividual::new("hello", rng)
    }
}

#[test]
fn test_genetic_algorithm_custom_individual() {
    let ga = GeneticAlgorithm::new(100, 100_000, 700_000, 50).unwrap();
    let mut archive: BasicArchive<CustomIndividual> = BasicArchive::new(5).unwrap();

    let mut observers: Vec<DistributionObserver<CustomIndividual>> = vec![];
    let mut rng = Random::seeded(42);

    let _outcome = ga.optimize(&mut archive, &mut observers, &mut rng);

    assert!(archive.get_best().is_some());
}

use metaheuristics::archive::{Archive, BasicArchive};
use metaheuristics::genetic_algorithm::GeneticAlgorithm;
use metaheuristics::individuals::BitStringIndividual;
use metaheuristics::logging_observers::{LogSink, LoggingObserver};
use metaheuristics::{Optimizer, Random};

struct Recorder {
    lines: Vec<String>,
}

impl<I> LogSink<I> for Recorder {
    fn started(&mut self) {
        self.lines.push("start".to_string());
    }

    fn iteration(&mut self, iteration: usize) {
        self.lines.push(format!("iteration {}", iteration));
    }

    fn fitness_values(&mut self, values: &Vec<u64>) {
        self.lines.push(format!("fitness {}", values.len()));
    }

    fn population(&mut self, population: &[I]) {
        self.lines.push(format!("population {}", population.len()));
    }

    fn finished(&mut self) {
        self.lines.push("finish".to_string());
    }
}

#[test]
fn logging_observer_reports_what_its_flags_ask() {
    let ga = GeneticAlgorithm::new(4, 0, 0, 2).unwrap();
    let mut archive: BasicArchive<BitStringIndividual> = BasicArchive::new(2).unwrap();
    let mut observers = vec![
        LoggingObserver::new(true, true, false, Recorder { lines: vec![] }),
        LoggingObserver::new(false, false, true, Recorder { lines: vec![] }),
    ];
    let mut rng = Random::seeded(4);
    ga.optimize(&mut archive, &mut observers, &mut rng).unwrap();
    assert!(archive.get_best().is_some());
    let expected_first = vec![
        "start", "iteration 0", "fitness 4", "iteration 1", "fitness 4", "iteration 2",
        "fitness 4", "finish",
    ];
    let expected_second = vec!["start", "population 4", "population 4", "population 4", "finish"];
    let first = observers[0].sink().lines.clone();
    let second = observers[1].sink().lines.clone();
    assert_eq!(first, expected_first);
    assert_eq!(second, expected_second);
}

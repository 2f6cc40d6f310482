use metaheuristics::archive::{Archive, BasicArchive};
use metaheuristics::errors::ConfigError;
use metaheuristics::individuals::TourIndividual;
use metaheuristics::Random;

fn entry(tag: usize, length: u64) -> TourIndividual {
    TourIndividual::new(vec![tag], length)
}

#[test]
fn zero_capacity_is_refused() {
    assert_eq!(BasicArchive::<TourIndividual>::new(0).err(), Some(ConfigError::ZeroCapacity));
}

#[test]
fn empty_archive_has_no_best() {
    let a: BasicArchive<TourIndividual> = BasicArchive::new(2).unwrap();
    assert!(a.get_best().is_none());
    assert_eq!(a.len(), 0);
}

#[test]
fn archive_keeps_the_k_best_in_order() {
    let mut a: BasicArchive<TourIndividual> = BasicArchive::new(3).unwrap();
    for (tag, f) in [(0, 9), (1, 4), (2, 7), (3, 1), (4, 8), (5, 3)] {
        a.add(entry(tag, f), f);
        assert!(a.len() <= 3);
    }
    assert_eq!(a.len(), 3);
    let kept: Vec<u64> = (0..3).map(|i| a.get(i).unwrap().length).collect();
    assert_eq!(kept, vec![1, 3, 4]);
    assert_eq!(a.get_best().unwrap().tour, vec![3]);
    assert!(a.get(3).is_none());
}

#[test]
fn equal_fitness_keeps_insertion_order() {
    let mut a: BasicArchive<TourIndividual> = BasicArchive::new(2).unwrap();
    a.add(entry(0, 5), 5);
    a.add(entry(1, 5), 5);
    a.add(entry(2, 5), 5);
    assert_eq!(a.get(0).unwrap().tour, vec![0]);
    assert_eq!(a.get(1).unwrap().tour, vec![1]);
}

#[test]
fn duplicates_occupy_separate_slots() {
    let mut a: BasicArchive<TourIndividual> = BasicArchive::new(4).unwrap();
    a.add(entry(7, 2), 2);
    a.add(entry(7, 2), 2);
    assert_eq!(a.fitness_at(1), Some(2));
    assert_eq!(a.fitness_at(2), None);
    assert_eq!(a.len(), 2);
}

#[test]
fn best_is_the_minimum_of_random_additions() {
    let mut rng = Random::seeded(77);
    let mut a: BasicArchive<TourIndividual> = BasicArchive::new(5).unwrap();
    let mut seen: Vec<u64> = Vec::new();
    for i in 0..200 {
        let f = rng.below(1000);
        seen.push(f);
        a.add(entry(i, f), f);
        assert_eq!(a.get_best().unwrap().length, *seen.iter().min().unwrap());
    }
    seen.sort();
    let kept: Vec<u64> = (0..a.len()).map(|i| a.get(i).unwrap().length).collect();
    assert_eq!(kept, seen[..5].to_vec());
}

#[test]
fn random_draws_stay_in_range() {
    let mut rng = Random::seeded(123);
    for _ in 0..500 {
        assert!(rng.below(10) < 10);
        assert!(rng.below_wide(3) < 3);
        assert!(rng.index(4) < 4);
        let x = rng.between(-5, 5);
        assert!(-5 <= x && x < 5);
        assert!(!rng.chance(0));
        assert!(rng.chance(1_000_000));
    }
    let mut r1 = Random::seeded(5);
    let mut r2 = Random::seeded(5);
    let a: Vec<u64> = (0..10).map(|_| r1.below(1_000_000)).collect();
    let b: Vec<u64> = (0..10).map(|_| r2.below(1_000_000)).collect();
    assert_eq!(a, b);
    assert!(a.iter().any(|&x| x != a[0]));
}

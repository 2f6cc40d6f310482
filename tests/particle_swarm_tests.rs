use metaheuristics::archive::{Archive, BasicArchive};
use metaheuristics::errors::ConfigError;
use metaheuristics::individuals::ParticleIndividual;
use metaheuristics::observer::DistributionObserver;
use metaheuristics::particle_swarm::{velocity_step, ParticleSwarm, VELOCITY_LIMIT};
use metaheuristics::{Individual, Optimizer, Random};

fn sphere(position: &Vec<i64>) -> u64 {
    position
        .iter()
        .map(|&x| (x as i128 * x as i128) as u128)
        .fold(0u128, |a, b| a.saturating_add(b))
        .min(u64::MAX as u128) as u64
}

#[test]
fn test_particle_swarm() {
    // Define the fitness function
    let fitness_function = |position: &Vec<i64>| -> u64 {
        // Sphere function: sum of squares
        sphere(position)
    };

    let pso = ParticleSwarm::new(
        30,        // swarm_size
        5,         // dimensions
        100,       // iterations
        500_000,   // inertia_weight
        1_500_000, // cognitive_coeff
        1_500_000, // social_coeff
        fitness_function,
    )
    .unwrap();

    let mut archive: BasicArchive<ParticleIndividual> = BasicArchive::new(5).unwrap();

    let mut observers = vec![DistributionObserver::new(), DistributionObserver::new()];
    let mut rng = Random::seeded(5);

    pso.optimize(&mut archive, &mut observers, &mut rng).unwrap();

    assert!(archive.get_best().is_some());

    if let Some(best_particle) = archive.get_best() {
        let fitness = best_particle.fitness();
        assert!(fitness >= 0);
    }
}

#[test]
fn personal_and_global_bests_never_worsen() {
    let pso = ParticleSwarm::new(6, 3, 0, 700_000, 1_400_000, 1_400_000, sphere).unwrap();
    let mut rng = Random::seeded(19);
    let mut particles: Vec<ParticleIndividual> =
        (0..6).map(|_| ParticleIndividual::new(3, &mut rng)).collect();
    let mut best_position = vec![0i64; 3];
    let mut best_score = u64::MAX;
    for p in particles.iter_mut() {
        p.update_fitness(&sphere);
        if p.fitness() < best_score {
            best_score = p.fitness();
            best_position = p.position.clone();
        }
    }
    let mut archive: BasicArchive<ParticleIndividual> = BasicArchive::new(2).unwrap();
    for _ in 0..30 {
        let before: Vec<u64> = particles.iter().map(|p| p.personal_best_score).collect();
        let global_before = best_score;
        pso.iterate(&mut particles, &mut best_position, &mut best_score, &mut archive, &mut rng);
        for (p, b) in particles.iter().zip(before.iter()) {
            assert!(p.personal_best_score <= *b);
            assert!(best_score <= p.personal_best_score);
        }
        assert!(best_score <= global_before);
    }
    assert_eq!(best_score, sphere(&best_position));
}

#[test]
fn record_fitness_keeps_the_best() {
    let mut rng = Random::seeded(2);
    let mut p = ParticleIndividual::new(2, &mut rng);
    assert_eq!(p.personal_best_score, u64::MAX);
    p.record_fitness(50);
    assert_eq!(p.personal_best_score, 50);
    p.position[0] += 1;
    p.record_fitness(70);
    assert_eq!(p.personal_best_score, 50);
    assert_ne!(p.personal_best_position, p.position);
    p.record_fitness(10);
    assert_eq!(p.personal_best_position, p.position);
}

#[test]
fn velocity_update_rule() {
    // w = 0.5, v = 100: 50; c1 = 1.0, r1 = 0.5, pb - x = 40: 20; c2 = 2.0, r2 = 0.25, gb - x = -8: -4
    assert_eq!(velocity_step(100, 10, 50, 2, 500_000, 1_000_000, 2_000_000, 500_000, 250_000), 66);
    // rounding goes towards zero
    assert_eq!(velocity_step(-3, 0, 0, 0, 500_000, 0, 0, 0, 0), -1);
    assert_eq!(velocity_step(3, 0, 0, 0, 500_000, 0, 0, 0, 0), 1);
    // held at the limit
    assert_eq!(
        velocity_step(VELOCITY_LIMIT, 0, 0, 0, 100_000_000, 0, 0, 0, 0),
        VELOCITY_LIMIT
    );
}

#[test]
fn particle_swarm_refuses_large_coefficients() {
    let r = ParticleSwarm::new(1, 1, 1, 100_000_001, 0, 0, sphere);
    assert_eq!(r.err(), Some(ConfigError::CoefficientTooLarge));
}

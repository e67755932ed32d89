//! Seeded streams.

use dodge_royale::rng::{Domain, GameSeed, Stream};

/// Take a short sample from one domain's stream.
fn sample(seed: u64, domain: Domain) -> Vec<u64> {
    let mut rng = GameSeed::new(seed).rng(domain);
    (0..8).map(|_| rng.below(1 << 32)).collect()
}

#[test]
fn the_same_seed_and_domain_always_derive_the_same_stream() {
    let seed = GameSeed::new(12_345);
    assert_eq!(seed.stream(Domain::Spawn), seed.stream(Domain::Spawn));
    assert_eq!(sample(12_345, Domain::Spawn), sample(12_345, Domain::Spawn));
}

#[test]
fn different_seeds_produce_different_streams() {
    assert_ne!(sample(1, Domain::Spawn), sample(2, Domain::Spawn));
}

#[test]
fn domains_of_one_seed_are_independent() {
    let seed = GameSeed::new(12_345);
    assert_ne!(seed.stream(Domain::Spawn), seed.stream(Domain::Shatter));
    assert_ne!(sample(12_345, Domain::Spawn), sample(12_345, Domain::Shatter));
}

#[test]
fn exhausting_one_domain_leaves_another_untouched() {
    let seed = GameSeed::new(7);
    let before = sample(7, Domain::Shatter);
    let mut spawn = seed.rng(Domain::Spawn);
    for _ in 0..1_000 {
        spawn.below(1 << 32);
    }
    assert_eq!(before, sample(7, Domain::Shatter));
}

#[test]
fn neighbouring_seeds_are_thoroughly_mixed() {
    // Without mixing, seeds 0, 1, 2 would open with near-identical values.
    let openings: Vec<u64> = (0..3)
        .map(|seed| GameSeed::new(seed).rng(Domain::Spawn).below(1 << 32))
        .collect();
    assert_ne!(openings.first(), openings.get(1));
    assert_ne!(openings.get(1), openings.get(2));
}

#[test]
fn a_seed_survives_a_round_trip() {
    assert_eq!(GameSeed::new(42).get(), 42);
}

#[test]
fn entropy_seeds_vary_between_runs() {
    let seeds: Vec<u64> = (0..4).map(|_| GameSeed::from_entropy().get()).collect();
    assert!(
        seeds.iter().any(|value| Some(value) != seeds.first()),
        "entropy seeding produced four identical seeds"
    );
}

#[test]
fn an_unspecified_seed_is_an_unpredictable_one() {
    let seeds: Vec<u64> = (0..4).map(|_| GameSeed::default().get()).collect();
    assert!(seeds.iter().any(|value| Some(value) != seeds.first()));
}

#[test]
fn draws_are_those_of_the_generator_with_the_same_seed() {
    let mut stream = Stream::with_seed(99);
    let mut generator = fastrand::Rng::with_seed(99);
    for bound in [1, 7, 1_000, u64::MAX] {
        assert_eq!(stream.below(bound), generator.u64(..bound));
        assert_eq!(stream.seed(), generator.get_seed());
    }
    for _ in 0..16 {
        assert_eq!(stream.side(), generator.u8(0..4));
        assert_eq!(stream.seed(), generator.get_seed());
    }
}

#[test]
fn a_stream_opens_at_its_derived_seed() {
    let seed = GameSeed::new(5);
    assert_eq!(seed.rng(Domain::Shatter).seed(), seed.stream(Domain::Shatter));
}

//! Seeded randomness, split into independent per-domain streams.
//!
//! One [`GameSeed`] fixes a whole run. Each domain derives its own stream from
//! it, so the number of draws one domain makes never shifts another's sequence.

use crate::mixing::{law_mix_injective, mix, mixed};
use vstd::prelude::*;

verus! {

/// A part of the game that draws randomness on its own schedule.
#[derive(Clone, Copy, Debug, PartialEq, Eq, Structural)]
pub enum Domain {
    /// Choosing and placing enemies.
    Spawn,
    /// Scattering pieces when an enemy shatters.
    Shatter,
}

impl Domain {
    /// A fixed, arbitrary constant that separates a domain from the others.
    pub open spec fn constant(self) -> u64 {
        match self {
            Domain::Spawn => 0x5350_4157_4e5f_3031,
            Domain::Shatter => 0x5348_4154_5445_5230,
        }
    }

    fn salt(self) -> (salt: u64)
        ensures
            salt == self.constant(),
    {
        match self {
            Domain::Spawn => 0x5350_4157_4e5f_3031,
            Domain::Shatter => 0x5348_4154_5445_5230,
        }
    }
}

/// What `fastrand::Rng::u64` draws below a bound from a generator with that
/// seed, and the seed of the generator afterwards.
pub uninterp spec fn fastrand_u64(seed: u64, bound: u64) -> (u64, u64);

/// What `fastrand::Rng::u8` draws below a bound from a generator with that
/// seed, and the seed of the generator afterwards.
pub uninterp spec fn fastrand_u8(seed: u64, bound: u8) -> (u8, u64);

/// `fastrand::u64` over all of its range: any number, from the entropy of the
/// process.
#[verifier::external_body]
fn draw_entropy() -> u64 {
    fastrand::u64(..)
}

/// `fastrand::Rng::u64` below a bound: the number drawn is in that range, and
/// both it and the generator's next seed follow from the seed and the bound. An
/// empty range would panic.
#[verifier::external_body]
fn draw_u64(seed: u64, bound: u64) -> (drawn: (u64, u64))
    requires
        bound > 0,
    ensures
        drawn == fastrand_u64(seed, bound),
        drawn.0 < bound,
{
    let mut rng = fastrand::Rng::with_seed(seed);
    let value: u64 = rng.u64(..bound);
    (value, rng.get_seed())
}

/// `fastrand::Rng::u8` below a bound: the number drawn is in that range, and
/// both it and the generator's next seed follow from the seed and the bound. An
/// empty range would panic.
#[verifier::external_body]
fn draw_u8(seed: u64, bound: u8) -> (drawn: (u8, u64))
    requires
        bound > 0,
    ensures
        drawn == fastrand_u8(seed, bound),
        drawn.0 < bound,
{
    let mut rng = fastrand::Rng::with_seed(seed);
    let value: u8 = rng.u8(..bound);
    (value, rng.get_seed())
}

/// The single seed every stream in a run derives from.
#[derive(Clone, Copy, Debug, PartialEq, Eq, Structural)]
pub struct GameSeed(u64);

impl View for GameSeed {
    type V = u64;

    closed spec fn view(&self) -> u64 {
        self.0
    }
}

/// The seed of one domain's stream in a run.
pub open spec fn stream_seed(seed: u64, domain: Domain) -> u64 {
    mixed(seed ^ mixed(domain.constant()))
}

impl GameSeed {
    /// Fix a run to an exact seed.
    pub fn new(seed: u64) -> (game: Self)
        ensures
            game@ == seed,
    {
        GameSeed(seed)
    }

    /// Draw an unpredictable seed, for ordinary play.
    pub fn from_entropy() -> Self {
        GameSeed(draw_entropy())
    }

    /// The seed itself, for logging or reporting back to a player.
    pub fn get(self) -> (seed: u64)
        ensures
            seed == self@,
    {
        self.0
    }

    /// The derived seed for one domain's stream.
    pub fn stream(self, domain: Domain) -> (seed: u64)
        ensures
            seed == stream_seed(self@, domain),
    {
        mix(self.0 ^ mix(domain.salt()))
    }

    /// A fresh generator for one domain, positioned at the start of its stream.
    pub fn rng(self, domain: Domain) -> (stream: Stream)
        ensures
            stream@ == stream_seed(self@, domain),
    {
        Stream::with_seed(self.stream(domain))
    }
}

impl Default for GameSeed {
    /// Ordinary play varies; pass an explicit seed to replay a run.
    fn default() -> Self {
        GameSeed::from_entropy()
    }
}

/// A generator, by the seed that holds all of its state.
#[derive(Clone, Copy, Debug, PartialEq, Eq, Structural)]
pub struct Stream {
    seed: u64,
}

impl View for Stream {
    type V = u64;

    closed spec fn view(&self) -> u64 {
        self.seed
    }
}

impl Stream {
    /// A generator with that seed.
    pub fn with_seed(seed: u64) -> (stream: Self)
        ensures
            stream@ == seed,
    {
        Stream { seed }
    }

    /// The seed the generator goes on from.
    pub fn seed(&self) -> (seed: u64)
        ensures
            seed == self@,
    {
        self.seed
    }

    /// Draw a number below a bound.
    pub fn below(&mut self, bound: u64) -> (value: u64)
        requires
            bound > 0,
        ensures
            (value, final(self)@) == fastrand_u64(old(self)@, bound),
            value < bound,
    {
        let drawn: (u64, u64) = draw_u64(self.seed, bound);
        self.seed = drawn.1;
        drawn.0
    }

    /// Draw one of the four sides of a square.
    pub fn side(&mut self) -> (value: u8)
        ensures
            (value, final(self)@) == fastrand_u8(old(self)@, 4),
            value < 4,
    {
        let drawn: (u8, u64) = draw_u8(self.seed, 4);
        self.seed = drawn.1;
        drawn.0
    }
}

/// The domains of one run never share a stream.
pub proof fn law_domains_differ(seed: u64)
    ensures
        stream_seed(seed, Domain::Spawn) != stream_seed(seed, Domain::Shatter),
{
    let spawn = mixed(Domain::Spawn.constant());
    let shatter = mixed(Domain::Shatter.constant());
    if stream_seed(seed, Domain::Spawn) == stream_seed(seed, Domain::Shatter) {
        law_mix_injective(seed ^ spawn, seed ^ shatter);
        assert((seed ^ spawn) == (seed ^ shatter) ==> spawn == shatter) by (bit_vector);
        law_mix_injective(Domain::Spawn.constant(), Domain::Shatter.constant());
    }
}

/// Two runs of different seeds never share a domain's stream.
pub proof fn law_seeds_differ(first: u64, second: u64, domain: Domain)
    requires
        first != second,
    ensures
        stream_seed(first, domain) != stream_seed(second, domain),
{
    let salt = mixed(domain.constant());
    if stream_seed(first, domain) == stream_seed(second, domain) {
        law_mix_injective(first ^ salt, second ^ salt);
        assert((first ^ salt) == (second ^ salt) ==> first == second) by (bit_vector);
    }
}

/// The domains of a run are kept apart by their constants alone: where two seeds
/// differ by exactly what the constants mix to, the one's first domain and the
/// other's second draw the same stream.
pub proof fn law_domains_part_by_their_constants(seed: u64)
    ensures
        stream_seed(seed, Domain::Spawn) == stream_seed(
            (seed ^ mixed(0x5350_4157_4e5f_3031)) ^ mixed(0x5348_4154_5445_5230),
            Domain::Shatter,
        ),
        stream_seed(mixed(0x5350_4157_4e5f_3031), Domain::Spawn) == mixed(0),
{
    let spawn = mixed(0x5350_4157_4e5f_3031);
    let shatter = mixed(0x5348_4154_5445_5230);
    assert((seed ^ spawn) == (((seed ^ spawn) ^ shatter) ^ shatter)) by (bit_vector);
    assert((spawn ^ spawn) == 0) by (bit_vector);
}

} // verus!

//! The seed of every episode, as a pure function of its counters.

use crate::mixing::{law_mix_injective, lemma_product_injective, mix, mixed, product};
use vstd::prelude::*;

verus! {

/// Domain separation for the episode seed stream.
pub const SEED_DOMAIN: u64 = 0x444f_4447_4559_4d00;

/// Separates the envs of one batch.
pub const ENV_STRIDE: u64 = 0x9e37_79b9_7f4a_7c15;

/// Separates the episodes of one env.
pub const EPISODE_STRIDE: u64 = 0xbf58_476d_1ce4_e5b9;

/// The state one env's stream of seeds is drawn from.
pub open spec fn stream_of(root: u64, env: u32) -> u64 {
    mixed((root ^ SEED_DOMAIN) ^ product(env as u64, ENV_STRIDE))
}

/// The seed of one env's `episode`-th episode.
pub open spec fn seed_of(root: u64, env: u32, episode: u64) -> u64 {
    mixed(stream_of(root, env) ^ product(episode, EPISODE_STRIDE))
}

/// The seed for one env's `episode`-th episode.
///
/// Counter-based on purpose: an env's seeds do not depend on when it finished,
/// how many workers there are, or which order results came back in.
pub fn episode_seed(root: u64, env: u32, episode: u64) -> (seed: u64)
    ensures
        seed == seed_of(root, env, episode),
{
    let mut value: u64 = root ^ SEED_DOMAIN;
    value = mix(value ^ (env as u64).wrapping_mul(ENV_STRIDE));
    mix(value ^ episode.wrapping_mul(EPISODE_STRIDE))
}

/// An env never plays the same seed twice: its episodes all differ.
pub proof fn law_episodes_differ(root: u64, env: u32, first: u64, second: u64)
    requires
        first != second,
    ensures
        seed_of(root, env, first) != seed_of(root, env, second),
{
    if seed_of(root, env, first) == seed_of(root, env, second) {
        let stream = stream_of(root, env);
        let p = product(first, EPISODE_STRIDE);
        let q = product(second, EPISODE_STRIDE);
        law_mix_injective(stream ^ p, stream ^ q);
        assert((stream ^ p) == (stream ^ q) ==> p == q) by (bit_vector);
        lemma_product_injective(
            first,
            second,
            EPISODE_STRIDE,
            0x96de_1b17_3f11_9089,
            0x70c3_bca7_8f27_f46c,
        );
    }
}

/// Two envs of one batch never play the same seed in the same episode.
pub proof fn law_envs_differ(root: u64, first: u32, second: u32, episode: u64)
    requires
        first != second,
    ensures
        seed_of(root, first, episode) != seed_of(root, second, episode),
{
    if seed_of(root, first, episode) == seed_of(root, second, episode) {
        let p = product(episode, EPISODE_STRIDE);
        let one = stream_of(root, first);
        let other = stream_of(root, second);
        law_mix_injective(one ^ p, other ^ p);
        assert((one ^ p) == (other ^ p) ==> one == other) by (bit_vector);
        let base = root ^ SEED_DOMAIN;
        let s = product(first as u64, ENV_STRIDE);
        let t = product(second as u64, ENV_STRIDE);
        law_mix_injective(base ^ s, base ^ t);
        assert((base ^ s) == (base ^ t) ==> s == t) by (bit_vector);
        lemma_product_injective(
            first as u64,
            second as u64,
            ENV_STRIDE,
            0xf1de_83e1_9937_733d,
            0x957b_bf35_006e_d677,
        );
    }
}

/// Two roots never open one env's same episode with the same seed.
pub proof fn law_roots_differ(first: u64, second: u64, env: u32, episode: u64)
    requires
        first != second,
    ensures
        seed_of(first, env, episode) != seed_of(second, env, episode),
{
    if seed_of(first, env, episode) == seed_of(second, env, episode) {
        let p = product(episode, EPISODE_STRIDE);
        let one = stream_of(first, env);
        let other = stream_of(second, env);
        law_mix_injective(one ^ p, other ^ p);
        assert((one ^ p) == (other ^ p) ==> one == other) by (bit_vector);
        let s = product(env as u64, ENV_STRIDE);
        law_mix_injective((first ^ SEED_DOMAIN) ^ s, (second ^ SEED_DOMAIN) ^ s);
        assert(((first ^ SEED_DOMAIN) ^ s) == ((second ^ SEED_DOMAIN) ^ s) ==> first == second)
            by (bit_vector);
    }
}

} // verus!

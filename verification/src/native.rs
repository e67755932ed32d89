//! What the command line asks for, and what is said about a run.

use crate::gym::workers::BatchConfig;
use crate::simulation::StepResult;
use vstd::prelude::*;

verus! {

/// The arguments of a batch of headless arenas.
#[derive(Clone, Copy, Debug, PartialEq, Eq, Structural)]
pub struct GymArgs {
    /// Arenas stepped together.
    pub envs: u32,
    /// Threads owning those arenas.
    pub threads: u32,
    /// Fixes every episode seed in the session.
    pub seed: u64,
    /// Enemies each arena is kept stocked with.
    pub enemies: usize,
    /// Frames an episode may last before it is truncated.
    pub max_frames: u32,
    /// Frames a predicted path assumes its action is held.
    pub hold_frames: u32,
}

/// What is wrong with the arguments, if anything is.
pub open spec fn gym_fault(args: GymArgs) -> Option<Seq<char>> {
    if args.envs == 0 {
        Some("--envs must be at least one"@)
    } else if args.threads == 0 {
        Some("--threads must be at least one"@)
    } else if args.max_frames == 0 {
        Some("--max-frames must be at least one"@)
    } else {
        None
    }
}

/// The batch that is asked for, or what is wrong with the arguments.
pub fn gym_config(args: GymArgs) -> (config: Result<BatchConfig, &'static str>)
    ensures
        match gym_fault(args) {
            Some(fault) => config matches Err(reason) && reason@ == fault,
            None => config == Ok::<BatchConfig, &'static str>(
                BatchConfig {
                    envs: args.envs,
                    workers: args.threads,
                    root_seed: args.seed,
                    enemy_count: args.enemies,
                    max_frames: args.max_frames,
                    hold_frames: args.hold_frames,
                },
            ),
        },
{
    if args.envs == 0 {
        return Err("--envs must be at least one");
    }
    if args.threads == 0 {
        return Err("--threads must be at least one");
    }
    if args.max_frames == 0 {
        return Err("--max-frames must be at least one");
    }
    Ok(
        BatchConfig {
            envs: args.envs,
            workers: args.threads,
            root_seed: args.seed,
            enemy_count: args.enemies,
            max_frames: args.max_frames,
            hold_frames: args.hold_frames,
        },
    )
}

/// How an episode ended, in words.
pub fn ending(last: &StepResult) -> (words: &'static str)
    ensures
        words@ == if last.terminated {
            "the player was hit"@
        } else {
            "the frame budget ran out"@
        },
{
    if last.terminated {
        "the player was hit"
    } else {
        "the frame budget ran out"
    }
}

/// Arguments that are accepted describe a batch whose arenas can be played.
pub proof fn law_accepted_arguments_can_be_played(args: GymArgs, config: BatchConfig, seed: u64)
    requires
        gym_fault(args) is None,
        config.envs == args.envs,
        config.workers == args.threads,
        config.max_frames == args.max_frames,
    ensures
        crate::gym::batch::batch_fault(config) is None,
        crate::simulation::config_fault(crate::gym::workers::arena_config(config, seed)) is None,
{
}

/// Arguments are accepted exactly when there is an env, a thread and a frame to
/// play.
pub proof fn law_arguments_need_one_of_each(args: GymArgs)
    ensures
        args.envs > 0 && args.threads > 0 && args.max_frames > 0 ==> gym_fault(args) is None,
        args.envs == 0 || args.threads == 0 || args.max_frames == 0 ==> gym_fault(args) is Some,
{
}

/// What is refused is the first argument that is missing.
pub proof fn law_the_first_missing_argument_is_named(args: GymArgs)
    ensures
        args.envs == 0 ==> gym_fault(args) == Some("--envs must be at least one"@),
        args.envs > 0 && args.threads == 0 ==> gym_fault(args) == Some(
            "--threads must be at least one"@,
        ),
        args.envs > 0 && args.threads > 0 && args.max_frames == 0 ==> gym_fault(args) == Some(
            "--max-frames must be at least one"@,
        ),
{
}

} // verus!

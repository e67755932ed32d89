//! The rules of a batch: which worker plays which env, what an env does between
//! episodes, and how the workers' replies become one result.
//!
//! Each worker creates its own arenas and keeps them for the life of the
//! session; only actions and results cross between threads. Results are
//! gathered by env index, never by completion order, so the bytes a client sees
//! do not depend on how many workers there are or which one finished first.

use crate::bits::{Vec2, ZERO};
use crate::gym::protocol::EnvTransition;
use crate::gym::seeds::{episode_seed, law_episodes_differ, seed_of};
use crate::observation::{blank, encode, observes, sight_fault, Sight, OBSERVATION_VALUES};
use crate::ranked::Ranked;
use crate::simulation::{
    config_fault, intended, law_episodes_end, played, ArenaConfig, ArenaError, ArenaFill, Episode,
    FrameCounters, HeadlessArena, StepResult, DEFAULT_HOLD_FRAMES, DEFAULT_MAX_INIT_PASSES,
};
use crate::text::{decimal, push_decimal};
use vstd::prelude::*;
use vstd::string::*;

verus! {

/// How the batch is built.
#[derive(Clone, Copy, Debug, PartialEq, Eq, Structural)]
pub struct BatchConfig {
    pub envs: u32,
    pub workers: u32,
    pub root_seed: u64,
    pub enemy_count: usize,
    pub max_frames: u32,
    pub hold_frames: u32,
}

impl Default for BatchConfig {
    fn default() -> (config: Self)
        ensures
            config == (BatchConfig {
                envs: 8,
                workers: 2,
                root_seed: 0,
                enemy_count: 100,
                max_frames: 3_600,
                hold_frames: DEFAULT_HOLD_FRAMES,
            }),
    {
        BatchConfig {
            envs: 8,
            workers: 2,
            root_seed: 0,
            enemy_count: 100,
            max_frames: 3_600,
            hold_frames: DEFAULT_HOLD_FRAMES,
        }
    }
}

/// Why a batch could not start, step or reset.
#[derive(Debug)]
pub enum BatchError {
    /// A configuration that cannot describe a batch.
    InvalidConfig(&'static str),
    /// An arena refused to start or step, reported with its env.
    Arena { env: u32, reason: String },
    /// A worker died or its channel closed.
    WorkerLost(String),
}

/// What a batch error says.
pub enum BatchFault {
    InvalidConfig(Seq<char>),
    Arena { env: u32, reason: Seq<char> },
    WorkerLost(Seq<char>),
}

impl View for BatchError {
    type V = BatchFault;

    open spec fn view(&self) -> BatchFault {
        match self {
            BatchError::InvalidConfig(reason) => BatchFault::InvalidConfig(reason@),
            BatchError::Arena { env, reason } => BatchFault::Arena { env: *env, reason: reason@ },
            BatchError::WorkerLost(reason) => BatchFault::WorkerLost(reason@),
        }
    }
}

impl BatchFault {
    /// The words an error is reported by.
    pub open spec fn words(self) -> Seq<char> {
        match self {
            BatchFault::InvalidConfig(reason) => "invalid batch config: "@ + reason,
            BatchFault::Arena { env, reason } => "env "@ + decimal(env as nat) + ": "@ + reason,
            BatchFault::WorkerLost(reason) => "worker lost: "@ + reason,
        }
    }
}

impl BatchError {
    /// Say what went wrong.
    pub fn message(&self) -> (message: String)
        ensures
            message@ == self@.words(),
    {
        match self {
            BatchError::InvalidConfig(reason) => {
                let mut text: String = "invalid batch config: ".to_owned();
                text.append(reason);
                text
            },
            BatchError::Arena { env, reason } => {
                let mut text: String = "env ".to_owned();
                push_decimal(&mut text, *env as u64);
                text.append(": ");
                text.append(reason.as_str());
                text
            },
            BatchError::WorkerLost(reason) => {
                let mut text: String = "worker lost: ".to_owned();
                text.append(reason.as_str());
                text
            },
        }
    }
}

/// What one env did during one command.
#[derive(Debug)]
pub struct EnvOutcome {
    pub env: u32,
    pub transition: EnvTransition,
    /// What the env is on now: after an auto-reset, the new episode's frame.
    pub observation: Vec<u32>,
    /// The finished episode's last frame, when one ended.
    pub terminal: Option<Vec<u32>>,
}

impl Ranked for EnvOutcome {
    open spec fn at_most(&self, other: &Self) -> bool {
        self.env <= other.env
    }

    fn is_at_most(&self, other: &Self) -> (result: bool) {
        self.env <= other.env
    }

    proof fn lemma_total(&self, other: &Self) {
    }

    proof fn lemma_transitive(first: &Self, second: &Self, third: &Self) {
    }
}

/// The arena an env's episode is played in.
pub open spec fn arena_config(config: BatchConfig, seed: u64) -> ArenaConfig {
    ArenaConfig {
        seed,
        enemy_count: config.enemy_count,
        max_frames: config.max_frames,
        max_init_passes: DEFAULT_MAX_INIT_PASSES,
    }
}

/// One env and the episode counter that names its seeds.
pub struct EnvArena {
    env: u32,
    arena: HeadlessArena,
    root_seed: u64,
    episode: u64,
}

/// Where an env stands in its stream of episodes.
pub struct EnvState {
    pub env: u32,
    pub root_seed: u64,
    pub episode: u64,
    pub arena: Episode,
}

impl View for EnvArena {
    type V = EnvState;

    closed spec fn view(&self) -> EnvState {
        EnvState {
            env: self.env,
            root_seed: self.root_seed,
            episode: self.episode,
            arena: self.arena@,
        }
    }
}

impl EnvState {
    /// The seed of the episode the env is on.
    pub open spec fn seed(self) -> u64 {
        seed_of(self.root_seed, self.env, self.episode)
    }

    /// On to the next episode of the stream. The counter stops at its end.
    pub open spec fn next(self) -> EnvState {
        EnvState {
            episode: if self.episode < u64::MAX {
                (self.episode + 1) as u64
            } else {
                u64::MAX
            },
            ..self
        }
    }

    /// Begun again: a root restarts the stream, and without one it advances.
    pub open spec fn restarted(self, root: Option<u64>) -> EnvState {
        match root {
            Some(root) => EnvState { root_seed: root, episode: 0, ..self },
            None => self.next(),
        }
    }

    /// What is reported at the first frame of the episode the env is on.
    pub open spec fn first_transition(self) -> EnvTransition {
        EnvTransition {
            frame: 0,
            terminated: false,
            truncated: false,
            enemy_deaths: 0,
            episode_seed: self.seed(),
            reset_seed: None,
        }
    }

    /// What the env reports at that frame, observed like this.
    pub open spec fn first_outcome(self, observation: Vec<u32>) -> EnvOutcome {
        EnvOutcome {
            env: self.env,
            transition: self.first_transition(),
            observation,
            terminal: None,
        }
    }

    /// A failure of this env's arena.
    pub open spec fn fault(self, error: ArenaError) -> BatchFault {
        BatchFault::Arena { env: self.env, reason: error.words() }
    }

    /// What is reported of a frame of this env.
    pub open spec fn transition(self, result: StepResult) -> EnvTransition {
        EnvTransition {
            frame: result.frame,
            terminated: result.terminated,
            truncated: result.truncated,
            enemy_deaths: result.enemy_deaths,
            episode_seed: self.seed(),
            reset_seed: if result.ended() {
                Some(self.next().seed())
            } else {
                None
            },
        }
    }
}

/// What a frame leaves an env to do.
#[derive(Clone, Copy, Debug, PartialEq, Eq, Structural)]
pub enum Stepped {
    /// The episode goes on.
    Continues(EnvTransition),
    /// It ended. Its last frame is observed first; a learner needs it to
    /// bootstrap a truncation. Then the next arena is filled.
    Ended(EnvTransition, ArenaFill),
}

impl Stepped {
    /// What is reported of the frame.
    pub open spec fn transition(self) -> EnvTransition {
        match self {
            Stepped::Continues(transition) => transition,
            Stepped::Ended(transition, _) => transition,
        }
    }
}

impl EnvArena {
    /// Begin the arena of an env's first episode.
    pub fn start(env: u32, config: BatchConfig) -> (begun: Result<ArenaFill, BatchError>)
        ensures
            ({
                let arena = arena_config(config, seed_of(config.root_seed, env, 0));
                match config_fault(arena) {
                    Some(fault) => begun matches Err(error) && error@ == (BatchFault::Arena {
                        env,
                        reason: fault.words(),
                    }),
                    None => begun matches Ok(filling) && filling.built_from() == arena
                        && filling.passes_run() == 0,
                }
            }),
    {
        let begun: Result<ArenaFill, ArenaError> = HeadlessArena::new(
            ArenaConfig {
                seed: episode_seed(config.root_seed, env, 0),
                enemy_count: config.enemy_count,
                max_frames: config.max_frames,
                max_init_passes: DEFAULT_MAX_INIT_PASSES,
            },
        );
        match begun {
            Ok(filling) => Ok(filling),
            Err(error) => Err(BatchError::Arena { env, reason: error.message() }),
        }
    }

    /// Open an env on the arena of its first episode.
    pub fn open(env: u32, config: BatchConfig, arena: HeadlessArena) -> (opened: Self)
        ensures
            opened@ == (EnvState {
                env,
                root_seed: config.root_seed,
                episode: 0,
                arena: arena@,
            }),
    {
        EnvArena { env, arena, root_seed: config.root_seed, episode: 0 }
    }

    /// Put a failure of this env's arena in the batch's terms.
    pub fn fault(&self, error: &ArenaError) -> (fault: BatchError)
        ensures
            fault@ == self@.fault(*error),
    {
        BatchError::Arena { env: self.env, reason: error.message() }
    }

    /// Observe what the player of this env sees.
    pub fn observe(&self, sight: &Sight) -> (observation: Result<Vec<u32>, BatchError>)
        ensures
            match sight.player {
                None => observation matches Ok(values) && values@.len() == OBSERVATION_VALUES
                    && blank(values@),
                Some(seen) => match sight_fault(
                    seen.player,
                    sight.enemies@,
                    sight.blasts@,
                    sight.half_extents,
                ) {
                    None => observation matches Ok(values) && observes(
                        values@,
                        seen,
                        sight.enemies@,
                        sight.blasts@,
                    ),
                    Some(fault) => observation matches Err(error) && error@ == self@.fault(fault),
                },
            },
    {
        let mut values: Vec<u32> = Vec::new();
        values.resize(OBSERVATION_VALUES, ZERO);
        match encode(sight, &mut values) {
            Ok(()) => Ok(values),
            Err(error) => Err(self.fault(&error)),
        }
    }

    /// Which env this is.
    pub fn env(&self) -> (env: u32)
        ensures
            env == self@.env,
    {
        self.env
    }

    /// The seed of the episode the env is on.
    pub fn current_seed(&self) -> (seed: u64)
        ensures
            seed == self@.seed(),
    {
        episode_seed(self.root_seed, self.env, self.episode)
    }

    /// The direction movement is asked for.
    pub fn intent(&self) -> (intent: Vec2)
        ensures
            intent == self@.arena.intent,
    {
        self.arena.intent()
    }

    /// Ask for a heading; `length_squared` is the square of its length.
    pub fn command(&mut self, direction: Vec2, length_squared: u32) -> (result: Result<
        (),
        BatchError,
    >)
        ensures
            ({
                let intent = intended(direction, length_squared);
                if intent.finite() {
                    result is Ok && final(self)@ == (EnvState {
                        arena: Episode { intent, ..old(self)@.arena },
                        ..old(self)@
                    })
                } else {
                    result matches Err(error) && error@ == old(self)@.fault(
                        ArenaError::NonFinite("an intent must be a finite direction"),
                    ) && final(self)@ == old(self)@
                }
            }),
    {
        match self.arena.set_action(direction, length_squared) {
            Ok(()) => Ok(()),
            Err(error) => Err(self.fault(&error)),
        }
    }

    /// Whether a frame may be played: an episode that has ended plays no more of
    /// them.
    pub fn ready(&self) -> (result: Result<(), BatchError>)
        ensures
            if self@.arena.ended() {
                result matches Err(error) && error@ == self@.fault(ArenaError::Completed)
            } else {
                result is Ok
            },
    {
        if self.arena.done() {
            Err(self.fault(&ArenaError::Completed))
        } else {
            Ok(())
        }
    }

    /// Step once, during which this happened, and go on to the next episode if
    /// this one ended.
    pub fn step(&mut self, counters: FrameCounters) -> (result: Result<Stepped, BatchError>)
        ensures
            ({
                let before = old(self)@;
                let arena = before.arena.advanced(counters);
                let report = arena.report(counters);
                if before.arena.ended() {
                    result matches Err(error) && error@ == before.fault(ArenaError::Completed)
                        && final(self)@ == before
                } else if arena.ended() {
                    &&& result matches Ok(Stepped::Ended(transition, filling))
                    &&& transition == before.transition(report)
                    &&& filling.built_from() == (ArenaConfig {
                        seed: before.next().seed(),
                        ..before.arena.config
                    })
                    &&& filling.passes_run() == 0
                    &&& final(self)@ == (EnvState { arena, ..before.next() })
                } else {
                    &&& result matches Ok(Stepped::Continues(transition))
                    &&& transition == before.transition(report)
                    &&& final(self)@ == (EnvState { arena, ..before })
                }
            }),
    {
        let episode_seed_before: u64 = self.current_seed();
        let report: StepResult = match self.arena.step(counters) {
            Ok(report) => report,
            Err(error) => {
                return Err(self.fault(&error));
            },
        };
        let mut transition: EnvTransition = EnvTransition {
            frame: report.frame,
            terminated: report.terminated,
            truncated: report.truncated,
            enemy_deaths: report.enemy_deaths,
            episode_seed: episode_seed_before,
            reset_seed: None,
        };
        if !report.done() {
            return Ok(Stepped::Continues(transition));
        }
        self.episode = self.episode.saturating_add(1);
        let seed: u64 = self.current_seed();
        transition.reset_seed = Some(seed);
        match self.arena.reset(seed) {
            Ok(filling) => Ok(Stepped::Ended(transition, filling)),
            Err(error) => Err(self.fault(&error)),
        }
    }

    /// What the env reports of a frame: the frame that was played was observed
    /// as `last`, and the one the env is on now as `present`. They differ only
    /// where the episode ended and the next one has begun; then the last frame
    /// goes along, because a learner needs it to bootstrap a truncation.
    pub fn outcome(&self, stepped: Stepped, last: Vec<u32>, present: Vec<u32>) -> (outcome:
        EnvOutcome)
        ensures
            outcome.env == self@.env,
            outcome.transition == stepped.transition(),
            outcome.observation == present,
            outcome.terminal == if stepped.transition().ended() {
                Some(last)
            } else {
                None
            },
    {
        let transition: EnvTransition = match stepped {
            Stepped::Continues(transition) => transition,
            Stepped::Ended(transition, _) => transition,
        };
        EnvOutcome {
            env: self.env,
            transition,
            observation: present,
            terminal: if transition.done() {
                Some(last)
            } else {
                None
            },
        }
    }

    /// What the env reports at the first frame of an episode.
    pub fn first_outcome(&self, observation: Vec<u32>) -> (outcome: EnvOutcome)
        ensures
            outcome == self@.first_outcome(observation),
    {
        EnvOutcome {
            env: self.env,
            transition: self.first_transition(),
            observation,
            terminal: None,
        }
    }

    /// Begin again. A root restarts the stream; without one it advances.
    pub fn reset(&mut self, root: Option<u64>) -> (begun: Result<ArenaFill, BatchError>)
        ensures
            final(self)@ == old(self)@.restarted(root),
            begun matches Ok(filling) && filling.built_from() == (ArenaConfig {
                seed: final(self)@.seed(),
                ..old(self)@.arena.config
            }) && filling.passes_run() == 0,
    {
        match root {
            Some(root) => {
                self.root_seed = root;
                self.episode = 0;
            },
            None => {
                self.episode = self.episode.saturating_add(1);
            },
        }
        let seed: u64 = self.current_seed();
        match self.arena.reset(seed) {
            Ok(filling) => Ok(filling),
            Err(error) => Err(self.fault(&error)),
        }
    }

    /// Put the arena of the next episode in place.
    pub fn replace(&mut self, arena: HeadlessArena)
        ensures
            final(self)@ == (EnvState { arena: arena@, ..old(self)@ }),
    {
        self.arena = arena;
    }

    /// What is reported of an env that has just begun an episode.
    pub fn first_transition(&self) -> (transition: EnvTransition)
        ensures
            transition == self@.first_transition(),
    {
        let mut transition: EnvTransition = EnvTransition::default();
        transition.episode_seed = self.current_seed();
        transition
    }
}

/// An env carries its last frame exactly when its episode ended, and then tells
/// the seed of the next one of its stream.
pub proof fn law_ended_envs_carry_their_last_frame(
    before: EnvState,
    counters: FrameCounters,
    outcome: EnvOutcome,
    last: Vec<u32>,
)
    requires
        !before.arena.ended(),
        outcome.transition == before.transition(before.arena.advanced(counters).report(counters)),
        outcome.terminal == if outcome.transition.ended() {
            Some(last)
        } else {
            None
        },
    ensures
        outcome.transition.episode_seed == before.seed(),
        outcome.transition.ended() == before.arena.advanced(counters).ended(),
        outcome.terminal is Some <==> outcome.transition.ended(),
        outcome.transition.reset_seed == if outcome.transition.ended() {
            Some(before.next().seed())
        } else {
            None
        },
{
}

/// An env that goes on to its next episode plays a seed it has not played, and
/// an env whose stream is restarted from a root plays that root's first seed.
pub proof fn law_streams_advance_or_restart(env: EnvState, root: u64)
    requires
        env.episode < u64::MAX,
    ensures
        env.next().episode == env.episode + 1,
        env.next().seed() != env.seed(),
        (EnvState { root_seed: root, episode: 0, ..env }).seed() == seed_of(root, env.env, 0),
{
    law_episodes_differ(env.root_seed, env.env, env.next().episode, env.episode);
}

/// A transition says why the frame ended the episode, each reason on its own: it
/// is terminated exactly when the player was hit, and truncated exactly when the
/// frames have reached the budget. It counts the frame, carries the frame's
/// deaths, and names the seed that was played; the seed that comes next it names
/// only when there is a next episode.
pub proof fn law_transitions_say_why_they_end(before: EnvState, counters: FrameCounters)
    requires
        !before.arena.terminated,
        !before.arena.truncated,
        before.arena.frame < u32::MAX,
    ensures
        ({
            let arena = before.arena.advanced(counters);
            let transition = before.transition(arena.report(counters));
            let over = counters.hit || before.arena.frame + 1 >= before.arena.config.max_frames;
            &&& transition.terminated <==> counters.hit
            &&& transition.truncated <==> before.arena.frame + 1
                >= before.arena.config.max_frames
            &&& transition.frame == before.arena.frame + 1
            &&& transition.enemy_deaths == counters.enemy_deaths
            &&& transition.episode_seed == seed_of(before.root_seed, before.env, before.episode)
            &&& arena.ended() <==> over
            &&& transition.ended() <==> over
            &&& transition.reset_seed is Some <==> over
            &&& over && before.episode < u64::MAX ==> transition.reset_seed == Some(
                seed_of(before.root_seed, before.env, (before.episode + 1) as u64),
            )
        }),
{
}

/// Over an episode a transition is terminated exactly when some frame of it had a
/// hit, truncated exactly when it stands at the budget, and numbered by how many
/// frames were played.
pub proof fn law_transitions_tell_the_episode(
    start: EnvState,
    frames: Seq<FrameCounters>,
    counters: FrameCounters,
)
    requires
        start.arena.frame == 0,
        !start.arena.terminated,
        !start.arena.truncated,
        start.arena.config.max_frames > 0,
        !played(start.arena, frames).ended(),
    ensures
        ({
            let now = EnvState { arena: played(start.arena, frames), ..start };
            let transition = now.transition(now.arena.advanced(counters).report(counters));
            let all = frames.push(counters);
            &&& transition.frame == all.len()
            &&& transition.terminated <==> exists|i: int|
                0 <= i < all.len() && (#[trigger] all[i]).hit
            &&& transition.truncated <==> transition.frame == start.arena.config.max_frames
            &&& transition.enemy_deaths == counters.enemy_deaths
        }),
{
    let all = frames.push(counters);
    law_episodes_end(start.arena, frames);
    law_episodes_end(start.arena, all);
    assert(all.drop_last() =~= frames);
    assert(played(start.arena, all) == played(start.arena, frames).advanced(counters));
}

/// Where an env begins again: a root restarts its stream at that root's first
/// seed, and without one it goes on to the next seed of the stream it is on. It
/// stays the same env.
pub proof fn law_restarts_choose_the_seed(state: EnvState, root: u64)
    ensures
        state.seed() == seed_of(state.root_seed, state.env, state.episode),
        state.restarted(Some(root)).env == state.env,
        state.restarted(Some(root)).seed() == seed_of(root, state.env, 0),
        state.restarted(None).env == state.env,
        state.restarted(None).root_seed == state.root_seed,
        state.episode < u64::MAX ==> state.restarted(None).seed() == seed_of(
            state.root_seed,
            state.env,
            (state.episode + 1) as u64,
        ),
        state.episode < u64::MAX ==> state.restarted(None).restarted(None).episode
            == if state.episode + 1 < u64::MAX {
            state.episode + 2
        } else {
            u64::MAX as int
        },
{
}

/// An env that has just begun reports a frame on which nothing has happened, with
/// the seed it plays, what it sees, and no last frame.
pub proof fn law_beginnings_report_nothing_yet(state: EnvState, observation: Vec<u32>)
    ensures
        ({
            let outcome = state.first_outcome(observation);
            &&& outcome.env == state.env
            &&& outcome.observation == observation
            &&& outcome.terminal is None
            &&& outcome.transition.frame == 0 && outcome.transition.enemy_deaths == 0
            &&& !outcome.transition.terminated && !outcome.transition.truncated
            &&& outcome.transition.reset_seed is None
            &&& outcome.transition.episode_seed == seed_of(
                state.root_seed,
                state.env,
                state.episode,
            )
        }),
{
}

/// An env plays the batch's population and budget, on the seed it is given.
pub proof fn law_envs_play_the_batch(config: BatchConfig, seed: u64)
    ensures
        arena_config(config, seed).seed == seed,
        arena_config(config, seed).enemy_count == config.enemy_count,
        arena_config(config, seed).max_frames == config.max_frames,
        config.max_frames > 0 <==> config_fault(arena_config(config, seed)) is None,
{
}

/// A failure is reported with the env it happened to and the words of what went
/// wrong there.
pub proof fn law_failures_name_their_env(state: EnvState, error: ArenaError)
    ensures
        state.fault(error) matches BatchFault::Arena { env, reason } && env == state.env && reason
            == error.words(),
        state.fault(error).words() == "env "@ + decimal(state.env as nat) + (": "@
            + error.words()),
{
    assert(state.fault(error).words() =~= "env "@ + decimal(state.env as nat) + (": "@
        + error.words()));
}

/// A frame reports the transition it was given, whether the episode goes on or
/// ended with it.
pub proof fn law_frames_report_their_transition(transition: EnvTransition, fill: ArenaFill)
    ensures
        Stepped::Continues(transition).transition() == transition,
        Stepped::Ended(transition, fill).transition() == transition,
{
}

} // verus!

//! The rules of an episode: what it is built from, how it fills, how it ends,
//! and what is seen of it.
//!
//! The world itself is advanced outside; every frame reports here, and what
//! that means for the episode is decided here.

use crate::bits::{less, nan, scaled, Vec2, MINUS_ONE, ONE, ZERO};
use crate::collision::Collider;
use crate::enemy_types::EnemyKind;
use crate::identities::has_identity;
use crate::motion::{MAX_FRAME_SECONDS, MOVEMENT_RESPONSE, TOP_SPEED};
use crate::ranked::{in_order, law_ranked, lemma_ranked_contains, rank, ranked, Ranked};
use crate::scale::{PIXEL, WORLD_HALF_X, WORLD_HALF_Y};
use crate::text::{decimal, push_decimal};
use vstd::prelude::*;
use vstd::string::*;

verus! {

/// One 60 Hz frame in nanoseconds.
pub const FRAME_NANOS: u64 = 16_666_667;

/// One 60 Hz frame in seconds, by its bit pattern.
pub const FRAME_SECONDS: u32 = 0x3c88_8889;

/// How many spawn-only passes an arena may run before it gives up filling.
///
/// Placement samples random positions and can fail, so filling is not a fixed
/// number of passes; this bounds the retries rather than looping forever.
pub const DEFAULT_MAX_INIT_PASSES: u32 = 64;

/// The frames a predicted path is sampled at.
///
/// Six, not one: a single danger value per cell cannot say "lethal now, clear
/// in two seconds". The last reaches 1.8 seconds.
pub const SAMPLE_FRAMES: [u32; 6] = [4, 12, 24, 48, 72, 108];

/// How many samples each predicted path carries.
pub const SAMPLE_COUNT: usize = 6;

/// The last frame a path is sampled at, and so the length of the walk.
pub const HORIZON: u32 = 108;

/// How long a predicted path assumes its action stays held, by default.
pub const DEFAULT_HOLD_FRAMES: u32 = 24;

/// Below this length a commanded direction means standing still, by its bit
/// pattern: 0.2.
pub const IDLE_THRESHOLD: u32 = 0x3e4c_cccd;

/// The idle threshold times itself, by its bit pattern.
pub const IDLE_SQUARED: u32 = 0x3d23_d70b;

/// What an arena is built from.
#[derive(Clone, Copy, Debug, PartialEq, Eq, Structural)]
pub struct ArenaConfig {
    /// Fixes the run: the same seed and the same actions replay exactly.
    pub seed: u64,
    /// Enemies the arena is kept stocked with. Zero is allowed.
    pub enemy_count: usize,
    /// Frames an episode may last before it is truncated. Never zero.
    pub max_frames: u32,
    /// Spawn-only passes allowed while filling the arena before frame zero.
    pub max_init_passes: u32,
}

impl Default for ArenaConfig {
    fn default() -> (config: Self)
        ensures
            config == (ArenaConfig {
                seed: 0,
                enemy_count: 100,
                max_frames: 3_600,
                max_init_passes: DEFAULT_MAX_INIT_PASSES,
            }),
    {
        ArenaConfig {
            seed: 0,
            enemy_count: 100,
            max_frames: 3_600,
            max_init_passes: DEFAULT_MAX_INIT_PASSES,
        }
    }
}

/// Why an arena could not start or step.
#[derive(Clone, Copy, Debug, PartialEq, Eq)]
pub enum ArenaError {
    /// The configuration could never produce an episode.
    InvalidConfig(&'static str),
    /// The arena could not place the requested population before frame zero.
    Population { placed: usize, requested: usize },
    /// The episode has already ended; reset before stepping again.
    Completed,
    /// A position, velocity or direction that is not a finite number.
    NonFinite(&'static str),
}

impl ArenaError {
    /// The words an error is reported by.
    pub open spec fn words(self) -> Seq<char> {
        match self {
            ArenaError::InvalidConfig(reason) => "invalid arena config: "@ + reason@,
            ArenaError::Population { placed, requested } => "placed "@ + decimal(placed as nat)
                + " of "@ + decimal(requested as nat) + " enemies before frame zero"@,
            ArenaError::Completed => "the episode has ended; reset before stepping"@,
            ArenaError::NonFinite(reason) => reason@,
        }
    }

    /// Say what went wrong.
    pub fn message(&self) -> (message: String)
        ensures
            message@ == self.words(),
    {
        match *self {
            ArenaError::InvalidConfig(reason) => {
                let mut text: String = "invalid arena config: ".to_owned();
                text.append(reason);
                text
            },
            ArenaError::Population { placed, requested } => {
                let mut text: String = "placed ".to_owned();
                push_decimal(&mut text, placed as u64);
                text.append(" of ");
                push_decimal(&mut text, requested as u64);
                text.append(" enemies before frame zero");
                text
            },
            ArenaError::Completed => "the episode has ended; reset before stepping".to_owned(),
            ArenaError::NonFinite(reason) => reason.to_owned(),
        }
    }
}

/// Why a configuration can not produce a playable episode, if it can not.
pub open spec fn config_fault(config: ArenaConfig) -> Option<ArenaError> {
    if config.max_frames == 0 {
        Some(ArenaError::InvalidConfig("max_frames must be at least one frame"))
    } else if config.max_init_passes == 0 && config.enemy_count > 0 {
        Some(ArenaError::InvalidConfig("max_init_passes must be at least one to place any enemy"))
    } else {
        None
    }
}

impl ArenaConfig {
    /// Reject a configuration that cannot produce a playable episode.
    pub fn validate(self) -> (result: Result<Self, ArenaError>)
        ensures
            match config_fault(self) {
                Some(fault) => result == Err::<Self, ArenaError>(fault),
                None => result == Ok::<Self, ArenaError>(self),
            },
    {
        if self.max_frames == 0 {
            return Err(ArenaError::InvalidConfig("max_frames must be at least one frame"));
        }
        if self.max_init_passes == 0 && self.enemy_count > 0 {
            return Err(
                ArenaError::InvalidConfig(
                    "max_init_passes must be at least one to place any enemy",
                ),
            );
        }
        Ok(self)
    }
}

/// What one step produced.
#[derive(Clone, Copy, Debug, PartialEq, Eq, Structural)]
pub struct StepResult {
    /// Frames simulated in this episode, counting this one.
    pub frame: u32,
    /// The controlled player was hit during this frame.
    pub hit: bool,
    /// Enemies killed by enemy-on-enemy collision during this frame.
    pub enemy_deaths: u32,
    /// The episode ended because the player died.
    pub terminated: bool,
    /// The episode ended because it ran out of frames.
    pub truncated: bool,
}

impl Default for StepResult {
    fn default() -> (result: Self)
        ensures
            result == (StepResult {
                frame: 0,
                hit: false,
                enemy_deaths: 0,
                terminated: false,
                truncated: false,
            }),
    {
        StepResult { frame: 0, hit: false, enemy_deaths: 0, terminated: false, truncated: false }
    }
}

impl StepResult {
    /// This frame ended the episode.
    pub open spec fn ended(self) -> bool {
        self.terminated || self.truncated
    }

    /// Whether this frame ended the episode, for either reason.
    pub fn done(&self) -> (result: bool)
        ensures
            result == self.ended(),
    {
        self.terminated || self.truncated
    }
}

/// Per-frame tallies, cleared before each step.
#[derive(Clone, Copy, Debug, PartialEq, Eq, Structural)]
pub struct FrameCounters {
    pub hit: bool,
    pub enemy_deaths: u32,
}

impl Default for FrameCounters {
    fn default() -> (counters: Self)
        ensures
            counters == (FrameCounters { hit: false, enemy_deaths: 0 }),
    {
        FrameCounters { hit: false, enemy_deaths: 0 }
    }
}

impl FrameCounters {
    /// Count the enemies marked for death by enemy-on-enemy collision this
    /// frame, as far as the tally counts.
    pub fn count_enemy_deaths(&mut self, dying: usize)
        ensures
            *final(self) == (FrameCounters {
                enemy_deaths: if dying > u32::MAX {
                    u32::MAX
                } else {
                    dying as u32
                },
                ..*old(self)
            }),
    {
        self.enemy_deaths = if dying > u32::MAX as usize { u32::MAX } else { dying as u32 };
    }

    /// Record whether one of the players was among those hit this frame.
    pub fn record_player_hits(&mut self, hits: &[u64], players: &[u64])
        ensures
            *final(self) == (FrameCounters {
                hit: old(self).hit || exists|i: int|
                    0 <= i < hits@.len() && players@.contains(#[trigger] hits@[i]),
                ..*old(self)
            }),
    {
        let mut index: usize = 0;
        let ghost before = *self;
        while index < hits.len()
            invariant
                index <= hits@.len(),
                *self == (FrameCounters {
                    hit: before.hit || exists|i: int|
                        0 <= i < index && players@.contains(#[trigger] hits@[i]),
                    ..before
                }),
            decreases hits@.len() - index,
        {
            if has_identity(players, hits[index]) {
                assert(players@.contains(hits@[index as int]));
                self.hit = true;
            }
            index = index + 1;
        }
    }
}

/// An arena that is still being filled.
#[derive(Clone, Copy, Debug, PartialEq, Eq, Structural)]
pub struct ArenaFill {
    config: ArenaConfig,
    passes: u32,
}

/// What an arena that is being filled needs next.
#[derive(Clone, Copy, Debug, PartialEq, Eq, Structural)]
pub enum FillStep {
    /// Another spawn-only pass.
    RunPass(ArenaFill),
    /// Nothing: it is ready for its first step.
    Ready(HeadlessArena),
}

impl ArenaFill {
    /// Only a configuration that can be played is filled.
    #[verifier::type_invariant]
    spec fn playable(self) -> bool {
        config_fault(self.config) is None
    }

    /// What the arena is built from.
    pub closed spec fn built_from(self) -> ArenaConfig {
        self.config
    }

    /// The spawn-only passes that were asked for.
    pub closed spec fn passes_run(self) -> u32 {
        self.passes
    }

    /// The configuration the arena is built from.
    pub fn config(&self) -> (config: ArenaConfig)
        ensures
            config == self.built_from(),
    {
        self.config
    }

    /// Go on filling, with so many enemies placed so far: until the arena is
    /// full, or the budget of passes has run out.
    pub fn fill(self, placed: usize) -> (step: Result<FillStep, ArenaError>)
        ensures
            if placed >= self.built_from().enemy_count {
                step matches Ok(FillStep::Ready(arena)) && arena.fresh(self.built_from())
            } else if self.passes_run() < self.built_from().max_init_passes {
                step matches Ok(FillStep::RunPass(filling)) && filling.built_from()
                    == self.built_from() && filling.passes_run() == self.passes_run() + 1
            } else {
                step == Err::<FillStep, ArenaError>(
                    ArenaError::Population {
                        placed,
                        requested: self.built_from().enemy_count,
                    },
                )
            },
    {
        proof {
            use_type_invariant(self);
        }
        if placed >= self.config.enemy_count {
            return Ok(
                FillStep::Ready(
                    HeadlessArena {
                        config: self.config,
                        intent: Vec2 { x: ZERO, y: ZERO },
                        frame: 0,
                        terminated: false,
                        truncated: false,
                    },
                ),
            );
        }
        if self.passes < self.config.max_init_passes {
            return Ok(
                FillStep::RunPass(ArenaFill { config: self.config, passes: self.passes + 1 }),
            );
        }
        Err(ArenaError::Population { placed, requested: self.config.enemy_count })
    }
}

/// A deterministic, windowless game, stepped one frame at a time.
#[derive(Clone, Copy, Debug, PartialEq, Eq, Structural)]
pub struct HeadlessArena {
    config: ArenaConfig,
    intent: Vec2,
    frame: u32,
    terminated: bool,
    truncated: bool,
}

/// An episode, as far as its rules go.
pub struct Episode {
    pub config: ArenaConfig,
    /// The direction movement is asked for.
    pub intent: Vec2,
    pub frame: u32,
    pub terminated: bool,
    pub truncated: bool,
}

impl Episode {
    /// It has ended, for either reason.
    pub open spec fn ended(self) -> bool {
        self.terminated || self.truncated
    }

    /// One frame later, given what happened during it.
    ///
    /// A hit is latched: it ends the episode even though the world could carry
    /// on. Death and the frame budget can land on the same frame; both are
    /// reported.
    pub open spec fn advanced(self, counters: FrameCounters) -> Episode {
        let frame = if self.frame < u32::MAX {
            (self.frame + 1) as u32
        } else {
            u32::MAX
        };
        Episode {
            frame,
            terminated: self.terminated || counters.hit,
            truncated: frame >= self.config.max_frames,
            ..self
        }
    }

    /// What is reported of the frame the episode is on.
    pub open spec fn report(self, counters: FrameCounters) -> StepResult {
        StepResult {
            frame: self.frame,
            hit: counters.hit,
            enemy_deaths: counters.enemy_deaths,
            terminated: self.terminated,
            truncated: self.truncated,
        }
    }
}

impl View for HeadlessArena {
    type V = Episode;

    closed spec fn view(&self) -> Episode {
        Episode {
            config: self.config,
            intent: self.intent,
            frame: self.frame,
            terminated: self.terminated,
            truncated: self.truncated,
        }
    }
}

impl HeadlessArena {
    /// Only a configuration that can be played is played.
    #[verifier::type_invariant]
    spec fn playable(self) -> bool {
        config_fault(self.config) is None
    }

    /// At frame zero of an episode of that configuration.
    pub open spec fn fresh(self, config: ArenaConfig) -> bool {
        self@ == (Episode {
            config,
            intent: Vec2 { x: ZERO, y: ZERO },
            frame: 0,
            terminated: false,
            truncated: false,
        })
    }

    /// Begin an arena, which is then filled before its first step.
    pub fn new(config: ArenaConfig) -> (begun: Result<ArenaFill, ArenaError>)
        ensures
            match config_fault(config) {
                Some(fault) => begun == Err::<ArenaFill, ArenaError>(fault),
                None => begun matches Ok(filling) && filling.built_from() == config
                    && filling.passes_run() == 0,
            },
    {
        match config.validate() {
            Ok(config) => Ok(ArenaFill { config, passes: 0 }),
            Err(fault) => Err(fault),
        }
    }

    /// Ask for a direction on the next step. Length is ignored; zero coasts.
    ///
    /// A direction that is not finite would reach the player's position and,
    /// from there, every observation the arena produces, so it is refused.
    pub fn set_intent(&mut self, direction: Vec2) -> (result: Result<(), ArenaError>)
        ensures
            if direction.finite() {
                result is Ok && final(self)@ == (Episode { intent: direction, ..old(self)@ })
            } else {
                result == Err::<(), ArenaError>(
                    ArenaError::NonFinite("an intent must be a finite direction"),
                ) && *final(self) == *old(self)
            },
    {
        if !direction.is_finite() {
            return Err(ArenaError::NonFinite("an intent must be a finite direction"));
        }
        proof {
            use_type_invariant(&*self);
        }
        self.intent = direction;
        Ok(())
    }

    /// Ask for a heading on the next step.
    ///
    /// Its length is not speed, and a direction shorter than the idle threshold
    /// is a decision to stand still. `length_squared` is the square of that
    /// length.
    pub fn set_action(&mut self, direction: Vec2, length_squared: u32) -> (result: Result<
        (),
        ArenaError,
    >)
        ensures
            ({
                let intent = intended(direction, length_squared);
                if intent.finite() {
                    result is Ok && final(self)@ == (Episode { intent, ..old(self)@ })
                } else {
                    result == Err::<(), ArenaError>(
                        ArenaError::NonFinite("an intent must be a finite direction"),
                    ) && *final(self) == *old(self)
                }
            }),
    {
        self.set_intent(intent_from_command(direction, length_squared))
    }

    /// The direction movement is asked for.
    pub fn intent(&self) -> (intent: Vec2)
        ensures
            intent == self@.intent,
    {
        self.intent
    }

    /// Advance exactly one 60 Hz frame, during which this happened.
    ///
    /// A finished episode stays frozen rather than quietly going on past its
    /// own ending.
    pub fn step(&mut self, counters: FrameCounters) -> (result: Result<StepResult, ArenaError>)
        ensures
            if old(self)@.ended() {
                result == Err::<StepResult, ArenaError>(ArenaError::Completed) && *final(self)
                    == *old(self)
            } else {
                final(self)@ == old(self)@.advanced(counters) && result == Ok::<
                    StepResult,
                    ArenaError,
                >(final(self)@.report(counters))
            },
    {
        if self.terminated || self.truncated {
            return Err(ArenaError::Completed);
        }
        proof {
            use_type_invariant(&*self);
        }
        self.frame = self.frame.saturating_add(1);
        self.terminated = self.terminated || counters.hit;
        self.truncated = self.frame >= self.config.max_frames;
        Ok(
            StepResult {
                frame: self.frame,
                hit: counters.hit,
                enemy_deaths: counters.enemy_deaths,
                terminated: self.terminated,
                truncated: self.truncated,
            },
        )
    }

    /// Frames simulated in this episode.
    pub fn frame(&self) -> (frame: u32)
        ensures
            frame == self@.frame,
    {
        self.frame
    }

    /// Whether this episode has ended, for either reason.
    pub fn done(&self) -> (result: bool)
        ensures
            result == self@.ended(),
    {
        self.terminated || self.truncated
    }

    /// The configuration this arena was built with.
    pub fn config(&self) -> (config: ArenaConfig)
        ensures
            config == self@.config,
    {
        self.config
    }

    /// Begin a new episode on a new seed, which takes this one's place once it
    /// has been filled.
    pub fn reset(&self, seed: u64) -> (begun: Result<ArenaFill, ArenaError>)
        ensures
            begun matches Ok(filling) && filling.built_from() == (ArenaConfig {
                seed,
                ..self@.config
            }) && filling.passes_run() == 0,
    {
        proof {
            use_type_invariant(self);
        }
        HeadlessArena::new(
            ArenaConfig {
                seed,
                enemy_count: self.config.enemy_count,
                max_frames: self.config.max_frames,
                max_init_passes: self.config.max_init_passes,
            },
        )
    }
}

/// The episode after these frames.
pub open spec fn played(episode: Episode, frames: Seq<FrameCounters>) -> Episode
    decreases frames.len(),
{
    if frames.len() == 0 {
        episode
    } else {
        let before = played(episode, frames.drop_last());
        if before.ended() {
            before
        } else {
            before.advanced(frames.last())
        }
    }
}

/// An episode counts its frames one by one, ends at its budget at the latest,
/// and is terminated exactly when a hit has happened.
pub proof fn law_episodes_end(episode: Episode, frames: Seq<FrameCounters>)
    requires
        episode.frame == 0,
        !episode.ended(),
        episode.config.max_frames > 0,
    ensures
        ({
            let after = played(episode, frames);
            &&& after.config == episode.config
            &&& after.frame <= frames.len()
            &&& after.frame <= episode.config.max_frames
            &&& after.truncated == (after.frame == episode.config.max_frames)
            &&& !after.ended() ==> after.frame == frames.len()
            &&& after.terminated == exists|i: int| 0 <= i < after.frame && (#[trigger] frames[i]).hit
            &&& frames.len() >= episode.config.max_frames ==> after.ended()
        }),
    decreases frames.len(),
{
    if frames.len() > 0 {
        let shorter = frames.drop_last();
        law_episodes_end(episode, shorter);
        let before = played(episode, shorter);
        let after = played(episode, frames);
        if before.ended() {
            if before.terminated {
                let i = choose|i: int| 0 <= i < before.frame && (#[trigger] shorter[i]).hit;
                assert(frames[i].hit);
            } else {
                assert forall|i: int| 0 <= i < after.frame implies !(#[trigger] frames[i]).hit by {
                    assert(shorter[i] == frames[i]);
                }
            }
        } else {
            assert(before.frame == shorter.len());
            if frames.last().hit {
                assert(frames[after.frame - 1].hit);
            } else {
                assert forall|i: int| 0 <= i < after.frame implies !(#[trigger] frames[i]).hit by {
                    if i < shorter.len() {
                        assert(shorter[i] == frames[i]);
                    }
                }
            }
        }
    }
}

/// An ended episode never changes again.
pub proof fn law_ended_episodes_are_frozen(episode: Episode, frames: Seq<FrameCounters>)
    requires
        episode.ended(),
    ensures
        played(episode, frames) == episode,
    decreases frames.len(),
{
    if frames.len() > 0 {
        law_ended_episodes_are_frozen(episode, frames.drop_last());
    }
}

/// What is asked of an arena between two resets.
pub enum Call {
    /// A direction.
    Intent(Vec2),
    /// A frame, during which this happened.
    Frame(FrameCounters),
}

/// The episode after these calls: a direction that is not finite is refused, and
/// an ended episode is not stepped.
pub open spec fn called(episode: Episode, calls: Seq<Call>) -> Episode
    decreases calls.len(),
{
    if calls.len() == 0 {
        episode
    } else {
        let before = called(episode, calls.drop_last());
        match calls.last() {
            Call::Intent(direction) => if direction.finite() {
                Episode { intent: direction, ..before }
            } else {
                before
            },
            Call::Frame(counters) => if before.ended() {
                before
            } else {
                before.advanced(counters)
            },
        }
    }
}

/// Two arenas that are being filled, from the same configuration and after as
/// many passes, are the same: they go on alike.
pub proof fn law_fillings_go_on_alike(left: ArenaFill, right: ArenaFill)
    requires
        left.built_from() == right.built_from(),
        left.passes_run() == right.passes_run(),
    ensures
        left == right,
{
}

/// Nothing of an earlier episode remains after a reset: an arena that is reset
/// to a seed begins to be filled as a new one of that seed does, can be played if
/// it could be before, and once both are filled they are the same and stay so
/// through any calls made on both.
pub proof fn law_reset_is_a_new_start(
    earlier: Episode,
    seed: u64,
    reset: ArenaFill,
    begun: ArenaFill,
    ready: HeadlessArena,
    other: HeadlessArena,
    calls: Seq<Call>,
)
    requires
        reset.built_from() == (ArenaConfig { seed, ..earlier.config }),
        reset.passes_run() == 0,
        begun.built_from() == (ArenaConfig { seed, ..earlier.config }),
        begun.passes_run() == 0,
        ready.fresh(reset.built_from()),
        other.fresh(begun.built_from()),
    ensures
        config_fault(ArenaConfig { seed, ..earlier.config }) == config_fault(earlier.config),
        reset == begun,
        ready == other,
        called(ready@, calls) == called(other@, calls),
{
    law_fillings_go_on_alike(reset, begun);
}

/// A commanded direction as a player intent: below the idle floor the command
/// is what it was trying to say, nowhere.
pub open spec fn intended(direction: Vec2, length_squared: u32) -> Vec2 {
    if !nan(length_squared) && scaled(length_squared) < scaled(IDLE_SQUARED) {
        Vec2 { x: ZERO, y: ZERO }
    } else {
        direction
    }
}

/// Turn a commanded direction into a player intent.
///
/// The one place a continuous action becomes movement, so the idle floor is
/// applied once and every caller gets the same rule.
pub fn intent_from_command(direction: Vec2, length_squared: u32) -> (intent: Vec2)
    ensures
        intent == intended(direction, length_squared),
{
    proof {
        assert(!nan(IDLE_SQUARED));
    }
    if less(length_squared, IDLE_SQUARED) {
        Vec2 { x: ZERO, y: ZERO }
    } else {
        direction
    }
}

/// The nine headings the observation predicts a path along.
///
/// The order is the layout's: it is what the path section is indexed by.
#[derive(Clone, Copy, Debug, PartialEq, Eq, Structural)]
pub enum Action {
    Idle,
    Left,
    Right,
    Up,
    Down,
    UpLeft,
    UpRight,
    DownLeft,
    DownRight,
}

impl Action {
    /// Every action, in protocol order.
    pub const ALL: [Action; 9] = [
        Action::Idle,
        Action::Left,
        Action::Right,
        Action::Up,
        Action::Down,
        Action::UpLeft,
        Action::UpRight,
        Action::DownLeft,
        Action::DownRight,
    ];

    /// The byte that names an action.
    pub open spec fn byte(self) -> u8 {
        match self {
            Action::Idle => 0,
            Action::Left => 1,
            Action::Right => 2,
            Action::Up => 3,
            Action::Down => 4,
            Action::UpLeft => 5,
            Action::UpRight => 6,
            Action::DownLeft => 7,
            Action::DownRight => 8,
        }
    }

    /// The candidate path at an index, or `None` past the ninth.
    pub fn from_byte(byte: u8) -> (action: Option<Self>)
        ensures
            match action {
                Some(found) => found.byte() == byte,
                None => byte > 8,
            },
    {
        match byte {
            0 => Some(Action::Idle),
            1 => Some(Action::Left),
            2 => Some(Action::Right),
            3 => Some(Action::Up),
            4 => Some(Action::Down),
            5 => Some(Action::UpLeft),
            6 => Some(Action::UpRight),
            7 => Some(Action::DownLeft),
            8 => Some(Action::DownRight),
            _ => None,
        }
    }

    /// This action's index, which is the byte that names it.
    pub fn index(self) -> (index: u8)
        ensures
            index == self.byte(),
    {
        match self {
            Action::Idle => 0,
            Action::Left => 1,
            Action::Right => 2,
            Action::Up => 3,
            Action::Down => 4,
            Action::UpLeft => 5,
            Action::UpRight => 6,
            Action::DownLeft => 7,
            Action::DownRight => 8,
        }
    }

    /// The way an action goes along each axis: -1, 0 or 1. Up is positive.
    pub open spec fn heading(self) -> (int, int) {
        match self {
            Action::Idle => (0, 0),
            Action::Left => (-1, 0),
            Action::Right => (1, 0),
            Action::Up => (0, 1),
            Action::Down => (0, -1),
            Action::UpLeft => (-1, 1),
            Action::UpRight => (1, 1),
            Action::DownLeft => (-1, -1),
            Action::DownRight => (1, -1),
        }
    }

    /// The direction it asks for, in world axes.
    ///
    /// Unnormalised on the diagonals; motion normalises, so a diagonal is no
    /// faster than a cardinal.
    pub fn direction(self) -> (direction: Vec2)
        ensures
            direction == (Vec2 {
                x: sign_bits(self.heading().0),
                y: sign_bits(self.heading().1),
            }),
    {
        match self {
            Action::Idle => Vec2 { x: ZERO, y: ZERO },
            Action::Left => Vec2 { x: MINUS_ONE, y: ZERO },
            Action::Right => Vec2 { x: ONE, y: ZERO },
            Action::Up => Vec2 { x: ZERO, y: ONE },
            Action::Down => Vec2 { x: ZERO, y: MINUS_ONE },
            Action::UpLeft => Vec2 { x: MINUS_ONE, y: ONE },
            Action::UpRight => Vec2 { x: ONE, y: ONE },
            Action::DownLeft => Vec2 { x: MINUS_ONE, y: MINUS_ONE },
            Action::DownRight => Vec2 { x: ONE, y: MINUS_ONE },
        }
    }

    /// The name of an action.
    pub open spec fn called(self) -> Seq<char> {
        match self {
            Action::Idle => "idle"@,
            Action::Left => "left"@,
            Action::Right => "right"@,
            Action::Up => "up"@,
            Action::Down => "down"@,
            Action::UpLeft => "up-left"@,
            Action::UpRight => "up-right"@,
            Action::DownLeft => "down-left"@,
            Action::DownRight => "down-right"@,
        }
    }

    /// The name used in logs and in the protocol handshake.
    pub fn name(self) -> (name: &'static str)
        ensures
            name@ == self.called(),
    {
        match self {
            Action::Idle => "idle",
            Action::Left => "left",
            Action::Right => "right",
            Action::Up => "up",
            Action::Down => "down",
            Action::UpLeft => "up-left",
            Action::UpRight => "up-right",
            Action::DownLeft => "down-left",
            Action::DownRight => "down-right",
        }
    }
}

/// The bits of -1, 0 and 1.
pub open spec fn sign_bits(sign: int) -> u32 {
    if sign < 0 {
        MINUS_ONE
    } else if sign > 0 {
        ONE
    } else {
        ZERO
    }
}

/// Every action has its own byte, stands in the table where its byte says, and
/// no byte up to the eighth is left over.
pub proof fn law_actions_are_bytes(left: Action, right: Action, byte: u8)
    ensures
        left.byte() == right.byte() ==> left == right,
        left.byte() < 9,
        Action::ALL@[left.byte() as int] == left,
        byte < 9 ==> Action::ALL@[byte as int].byte() == byte,
{
}

/// The player, in world units.
#[derive(Clone, Copy, Debug, PartialEq, Eq, Structural)]
pub struct PlayerView {
    pub entity: u64,
    pub position: Vec2,
    pub velocity: Vec2,
    pub collider: Collider,
}

/// One live enemy, in world units.
#[derive(Clone, Copy, Debug, PartialEq, Eq, Structural)]
pub struct EnemyView {
    /// Identity, so a cell contested by two hazards breaks its tie the same
    /// way on every run.
    pub entity: u64,
    pub kind: EnemyKind,
    pub position: Vec2,
    pub velocity: Vec2,
    pub collider: Collider,
}

/// One kamikaze blast, in world units.
#[derive(Clone, Copy, Debug, PartialEq, Eq, Structural)]
pub struct BlastView {
    pub entity: u64,
    pub position: Vec2,
    pub collider: Collider,
    /// Seconds since it detonated. With the duration this says whether the
    /// blast is still growing or already shrinking, which its size alone
    /// cannot: the same width occurs twice.
    pub age: u32,
    /// Seconds the blast lives in total.
    pub duration: u32,
}

/// Everything the encoder needs from one frame, in world units.
#[derive(Debug)]
pub struct ArenaView {
    pub frame: u32,
    pub player: Option<PlayerView>,
    pub enemies: Vec<EnemyView>,
    pub blasts: Vec<BlastView>,
    /// Half the arena's width and height; the world wraps at these edges.
    pub half_extents: Vec2,
}

impl Ranked for EnemyView {
    open spec fn at_most(&self, other: &Self) -> bool {
        self.entity <= other.entity
    }

    fn is_at_most(&self, other: &Self) -> (result: bool) {
        self.entity <= other.entity
    }

    proof fn lemma_total(&self, other: &Self) {
    }

    proof fn lemma_transitive(first: &Self, second: &Self, third: &Self) {
    }
}

impl Ranked for BlastView {
    open spec fn at_most(&self, other: &Self) -> bool {
        self.entity <= other.entity
    }

    fn is_at_most(&self, other: &Self) -> (result: bool) {
        self.entity <= other.entity
    }

    proof fn lemma_total(&self, other: &Self) {
    }

    proof fn lemma_transitive(first: &Self, second: &Self, third: &Self) {
    }
}

/// The enemies that are not dying, in their own order.
pub open spec fn alive(enemies: Seq<(EnemyView, bool)>) -> Seq<EnemyView>
    decreases enemies.len(),
{
    if enemies.len() == 0 {
        Seq::empty()
    } else if enemies.last().1 {
        alive(enemies.drop_last())
    } else {
        alive(enemies.drop_last()).push(enemies.last().0)
    }
}

/// The snapshot of one frame.
///
/// Each enemy comes with whether it is dying. Dying enemies are excluded: they
/// are removed this update and cannot kill anything, so an encoder that painted
/// them would invent a threat. What is left is told apart by identity alone, in
/// increasing order. Without bounds of its own the world has the arena's.
pub fn view_world(
    frame: u32,
    half_extents: Option<Vec2>,
    players: &[PlayerView],
    enemies: &[(EnemyView, bool)],
    blasts: Vec<BlastView>,
) -> (view: ArenaView)
    ensures
        view.frame == frame,
        view.half_extents == match half_extents {
            Some(bounds) => bounds,
            None => Vec2 { x: WORLD_HALF_X, y: WORLD_HALF_Y },
        },
        view.player == if players@.len() > 0 {
            Some(players@[0])
        } else {
            None
        },
        view.enemies@ == ranked(alive(enemies@)),
        view.blasts@ == ranked(blasts@),
{
    let mut living: Vec<EnemyView> = Vec::new();
    let mut index: usize = 0;
    assert(enemies@.take(0) =~= Seq::empty());
    while index < enemies.len()
        invariant
            index <= enemies@.len(),
            living@ == alive(enemies@.take(index as int)),
        decreases enemies@.len() - index,
    {
        assert(enemies@.take(index + 1).drop_last() =~= enemies@.take(index as int));
        if !enemies[index].1 {
            living.push(enemies[index].0);
        }
        index = index + 1;
    }
    assert(enemies@.take(index as int) =~= enemies@);
    ArenaView {
        frame,
        player: if players.len() > 0 {
            Some(players[0])
        } else {
            None
        },
        enemies: rank(living),
        blasts: rank(blasts),
        half_extents: match half_extents {
            Some(bounds) => bounds,
            None => Vec2 { x: WORLD_HALF_X, y: WORLD_HALF_Y },
        },
    }
}

proof fn lemma_alive(enemies: Seq<(EnemyView, bool)>, enemy: EnemyView)
    ensures
        alive(enemies).contains(enemy) <==> enemies.contains((enemy, false)),
    decreases enemies.len(),
{
    if enemies.len() > 0 {
        let shorter = enemies.drop_last();
        lemma_alive(shorter, enemy);
        if enemies.contains((enemy, false)) {
            let i = choose|i: int| 0 <= i < enemies.len() && enemies[i] == (enemy, false);
            if i < shorter.len() {
                assert(shorter[i] == (enemy, false));
            } else {
                let more = alive(shorter).push(enemy);
                assert(more[more.len() - 1] == enemy);
            }
        }
        if alive(shorter).contains(enemy) {
            let i = choose|i: int| 0 <= i < shorter.len() && shorter[i] == (enemy, false);
            assert(enemies[i] == (enemy, false));
            let k = choose|k: int| 0 <= k < alive(shorter).len() && alive(shorter)[k] == enemy;
            if !enemies.last().1 {
                assert(alive(enemies)[k] == enemy);
            }
        }
        if alive(enemies).contains(enemy) && !enemies.last().1 {
            let k = choose|k: int| 0 <= k < alive(enemies).len() && alive(enemies)[k] == enemy;
            if k < alive(shorter).len() {
                assert(alive(shorter)[k] == enemy);
            } else {
                assert(enemies[enemies.len() - 1] == (enemy, false));
            }
        }
    }
}

/// A snapshot holds exactly the enemies that are not dying, by increasing
/// identity.
pub proof fn law_views_hold_the_living(enemies: Seq<(EnemyView, bool)>, enemy: EnemyView)
    ensures
        ranked(alive(enemies)).contains(enemy) <==> enemies.contains((enemy, false)),
        in_order(ranked(alive(enemies))),
{
    lemma_alive(enemies, enemy);
    law_ranked(alive(enemies));
    lemma_ranked_contains(alive(enemies), enemy);
}

/// Where a player is and how fast it goes.
#[derive(Clone, Copy, Debug, PartialEq, Eq, Structural)]
pub struct PlayerMotion {
    pub position: Vec2,
    pub velocity: Vec2,
}

/// Move a player, given where its intent would take it this frame.
///
/// A defeated player stops dead and stays put.
pub fn move_player(defeated: bool, before: PlayerMotion, moved: PlayerMotion) -> (after:
    PlayerMotion)
    ensures
        after == if defeated {
            PlayerMotion { velocity: Vec2 { x: ZERO, y: ZERO }, ..before }
        } else {
            moved
        },
{
    if defeated {
        PlayerMotion { position: before.position, velocity: Vec2 { x: ZERO, y: ZERO } }
    } else {
        moved
    }
}

/// A predicted path that is being walked, one frame at a time.
pub struct PathWalk {
    direction: Vec2,
    hold_frames: u32,
    frame: u32,
    samples: Vec<Vec2>,
}

/// How far a predicted path has been walked.
#[verifier::ext_equal]
pub struct WalkView {
    pub direction: Vec2,
    pub hold_frames: u32,
    /// Frames walked.
    pub frame: u32,
    /// The positions at the sample frames that were passed.
    pub samples: Seq<Vec2>,
}

/// A path is sampled at that frame.
pub open spec fn sampled(frame: u32) -> bool {
    SAMPLE_FRAMES@.contains(frame)
}

fn is_sampled(frame: u32) -> (result: bool)
    ensures
        result == sampled(frame),
{
    proof {
        let frames = SAMPLE_FRAMES@;
        if sampled(frame) {
            let k = choose|k: int| 0 <= k < frames.len() && frames[k] == frame;
            assert(k == 0 || k == 1 || k == 2 || k == 3 || k == 4 || k == 5);
        }
        assert(frames[0] == 4 && frames[1] == 12 && frames[2] == 24);
        assert(frames[3] == 48 && frames[4] == 72 && frames[5] == 108);
    }
    frame == 4 || frame == 12 || frame == 24 || frame == 48 || frame == 72 || frame == 108
}

impl View for PathWalk {
    type V = WalkView;

    closed spec fn view(&self) -> WalkView {
        WalkView {
            direction: self.direction,
            hold_frames: self.hold_frames,
            frame: self.frame,
            samples: self.samples@,
        }
    }
}

/// The direction that is held over a frame, counted from zero: the input, until
/// the hold is over.
pub open spec fn held_at(direction: Vec2, hold_frames: u32, frame: int) -> Vec2 {
    if frame < hold_frames {
        direction
    } else {
        Vec2 { x: ZERO, y: ZERO }
    }
}

impl WalkView {
    /// One frame further, at that position.
    pub open spec fn advanced(self, position: Vec2) -> WalkView {
        let frame = (self.frame + 1) as u32;
        WalkView {
            frame,
            samples: if sampled(frame) {
                self.samples.push(position)
            } else {
                self.samples
            },
            ..self
        }
    }
}

/// Start walking the path a direction takes the player.
///
/// A position, velocity or direction that is not finite is refused, rather than
/// let into an observation.
pub fn predict_path(position: Vec2, velocity: Vec2, direction: Vec2, hold_frames: u32) -> (walk:
    Result<PathWalk, ArenaError>)
    ensures
        if position.finite() && velocity.finite() && direction.finite() {
            walk matches Ok(begun) && begun@ == (WalkView {
                direction,
                hold_frames,
                frame: 0,
                samples: Seq::empty(),
            })
        } else {
            walk == Err::<PathWalk, ArenaError>(
                ArenaError::NonFinite(
                    "predicted paths need finite position, velocity and direction",
                ),
            )
        },
{
    if !position.is_finite() || !velocity.is_finite() || !direction.is_finite() {
        return Err(
            ArenaError::NonFinite("predicted paths need finite position, velocity and direction"),
        );
    }
    Ok(PathWalk { direction, hold_frames, frame: 0, samples: Vec::new() })
}

impl PathWalk {
    /// The direction that is held over the next frame, or nothing once the walk
    /// has reached the horizon.
    ///
    /// The input is held for the hold and released after it. The walk is
    /// bounded by the horizon, never by the hold.
    pub fn held(&self) -> (direction: Option<Vec2>)
        ensures
            direction == if self@.frame >= HORIZON {
                None
            } else {
                Some(held_at(self@.direction, self@.hold_frames, self@.frame as int))
            },
    {
        if self.frame >= HORIZON {
            None
        } else if self.frame < self.hold_frames {
            Some(self.direction)
        } else {
            Some(Vec2 { x: ZERO, y: ZERO })
        }
    }

    /// Walk one frame, which ended at that position. Past the horizon nothing
    /// happens.
    pub fn advance(&mut self, position: Vec2)
        ensures
            final(self)@ == if old(self)@.frame >= HORIZON {
                old(self)@
            } else {
                old(self)@.advanced(position)
            },
    {
        if self.frame >= HORIZON {
            return;
        }
        self.frame = self.frame + 1;
        if is_sampled(self.frame) {
            self.samples.push(position);
        }
    }

    /// The positions at the sample frames that were passed.
    pub fn samples(&self) -> (samples: &[Vec2])
        ensures
            samples@ == self@.samples,
    {
        self.samples.as_slice()
    }
}

/// The walk after these frames.
pub open spec fn walked(walk: WalkView, positions: Seq<Vec2>) -> WalkView
    decreases positions.len(),
{
    if positions.len() == 0 {
        walk
    } else {
        walked(walk, positions.drop_last()).advanced(positions.last())
    }
}

proof fn lemma_walked(walk: WalkView, positions: Seq<Vec2>, passed: int)
    requires
        walk.frame == 0,
        walk.samples.len() == 0,
        positions.len() <= HORIZON,
        0 <= passed <= SAMPLE_COUNT,
        passed > 0 ==> SAMPLE_FRAMES@[passed - 1] <= positions.len(),
        passed < SAMPLE_COUNT ==> positions.len() < SAMPLE_FRAMES@[passed],
    ensures
        walked(walk, positions).frame == positions.len(),
        walked(walk, positions).samples.len() == passed,
        forall|k: int|
            0 <= k < passed ==> #[trigger] walked(walk, positions).samples[k]
                == positions[SAMPLE_FRAMES@[k] - 1],
    decreases positions.len(),
{
    let frames = SAMPLE_FRAMES@;
    assert(frames.len() == 6);
    assert(frames[0] == 4 && frames[1] == 12 && frames[2] == 24);
    assert(frames[3] == 48 && frames[4] == 72 && frames[5] == 108);
    assert(SAMPLE_COUNT == 6);
    if positions.len() > 0 {
        let shorter = positions.drop_last();
        let frame = positions.len() as u32;
        if passed > 0 && frames[passed - 1] == frame {
            lemma_walked(walk, shorter, passed - 1);
            assert(sampled(frame));
        } else {
            lemma_walked(walk, shorter, passed);
            assert(!sampled(frame)) by {
                if sampled(frame) {
                    let k = choose|k: int| 0 <= k < frames.len() && frames[k] == frame;
                    assert(k == 0 || k == 1 || k == 2 || k == 3 || k == 4 || k == 5);
                    assert(passed == 0 || passed == 1 || passed == 2 || passed == 3 || passed == 4
                        || passed == 5 || passed == 6);
                }
            }
        }
    }
}

/// A walk to the horizon carries one sample for each sample frame, in order:
/// the position that frame ended at.
pub proof fn law_paths_are_sampled(walk: WalkView, positions: Seq<Vec2>)
    requires
        walk.frame == 0,
        walk.samples.len() == 0,
        positions.len() == HORIZON,
    ensures
        walked(walk, positions).samples.len() == SAMPLE_COUNT,
        forall|k: int|
            0 <= k < SAMPLE_COUNT ==> #[trigger] walked(walk, positions).samples[k]
                == positions[SAMPLE_FRAMES@[k] - 1],
{
    lemma_walked(walk, positions, SAMPLE_COUNT as int);
}

/// The player's motion after so many frames of a predicted path, each frame of
/// which moves it like this.
pub open spec fn motion_along(
    start: PlayerMotion,
    direction: Vec2,
    hold_frames: u32,
    advance: spec_fn(PlayerMotion, Vec2) -> PlayerMotion,
    frames: nat,
) -> PlayerMotion
    decreases frames,
{
    if frames == 0 {
        start
    } else {
        let before = (frames - 1) as nat;
        advance(
            motion_along(start, direction, hold_frames, advance, before),
            held_at(direction, hold_frames, before as int),
        )
    }
}

/// Where every frame of a predicted path ends, up to the horizon.
pub open spec fn predicted(
    start: PlayerMotion,
    direction: Vec2,
    hold_frames: u32,
    advance: spec_fn(PlayerMotion, Vec2) -> PlayerMotion,
) -> Seq<Vec2> {
    Seq::new(
        HORIZON as nat,
        |frame: int|
            motion_along(start, direction, hold_frames, advance, (frame + 1) as nat).position,
    )
}

proof fn lemma_same_holds(
    start: PlayerMotion,
    direction: Vec2,
    hold_frames: u32,
    other: Vec2,
    other_hold: u32,
    advance: spec_fn(PlayerMotion, Vec2) -> PlayerMotion,
    frames: nat,
)
    requires
        forall|frame: int|
            0 <= frame < frames ==> #[trigger] held_at(direction, hold_frames, frame) == held_at(
                other,
                other_hold,
                frame,
            ),
    ensures
        motion_along(start, direction, hold_frames, advance, frames) == motion_along(
            start,
            other,
            other_hold,
            advance,
            frames,
        ),
    decreases frames,
{
    if frames > 0 {
        let before = (frames - 1) as nat;
        lemma_same_holds(start, direction, hold_frames, other, other_hold, advance, before);
        assert(held_at(direction, hold_frames, before as int) == held_at(
            other,
            other_hold,
            before as int,
        ));
    }
}

/// In the world: both coordinates are numbers, and no further from its middle
/// than its edges.
pub open spec fn inside(position: Vec2) -> bool {
    &&& !nan(position.x) && -scaled(WORLD_HALF_X) <= scaled(position.x) <= scaled(WORLD_HALF_X)
    &&& !nan(position.y) && -scaled(WORLD_HALF_Y) <= scaled(position.y) <= scaled(WORLD_HALF_Y)
}

impl PlayerMotion {
    /// Neither part of it is infinite or NaN.
    pub open spec fn finite(self) -> bool {
        self.position.finite() && self.velocity.finite()
    }
}

/// A frame that takes every finite motion, under every finite direction, to a
/// place in the world and to a finite velocity.
pub open spec fn frame_wraps(advance: spec_fn(PlayerMotion, Vec2) -> PlayerMotion) -> bool {
    forall|motion: PlayerMotion, direction: Vec2|
        motion.finite() && direction.finite() ==> inside(
            (#[trigger] advance(motion, direction)).position,
        ) && advance(motion, direction).finite()
}

proof fn lemma_finite_along(
    start: PlayerMotion,
    direction: Vec2,
    hold_frames: u32,
    advance: spec_fn(PlayerMotion, Vec2) -> PlayerMotion,
    frames: nat,
)
    requires
        frame_wraps(advance),
        start.finite(),
        direction.finite(),
    ensures
        motion_along(start, direction, hold_frames, advance, frames).finite(),
        frames > 0 ==> inside(
            motion_along(start, direction, hold_frames, advance, frames).position,
        ),
    decreases frames,
{
    if frames > 0 {
        let before = (frames - 1) as nat;
        lemma_finite_along(start, direction, hold_frames, advance, before);
        assert(held_at(direction, hold_frames, before as int).finite());
    }
}

/// A path is predicted inside the world where every frame ends in it, or where
/// every frame wraps and the path sets out from a finite motion in a finite
/// direction; and so is every sample of that path.
pub proof fn law_paths_stay_inside(
    walk: WalkView,
    start: PlayerMotion,
    direction: Vec2,
    hold_frames: u32,
    advance: spec_fn(PlayerMotion, Vec2) -> PlayerMotion,
)
    requires
        walk.frame == 0,
        walk.samples.len() == 0,
    ensures
        (forall|motion: PlayerMotion, held: Vec2|
            inside((#[trigger] advance(motion, held)).position)) ==> {
            let path = predicted(start, direction, hold_frames, advance);
            &&& forall|k: int| 0 <= k < HORIZON ==> inside(#[trigger] path[k])
            &&& forall|k: int|
                0 <= k < SAMPLE_COUNT ==> inside(#[trigger] walked(walk, path).samples[k])
        },
        frame_wraps(advance) && start.finite() && direction.finite() ==> {
            let path = predicted(start, direction, hold_frames, advance);
            &&& forall|k: int| 0 <= k < HORIZON ==> inside(#[trigger] path[k])
            &&& forall|k: int|
                0 <= k < SAMPLE_COUNT ==> inside(#[trigger] walked(walk, path).samples[k])
        },
{
    let path = predicted(start, direction, hold_frames, advance);
    law_paths_are_sampled(walk, path);
    let unconditional = forall|motion: PlayerMotion, held: Vec2|
        inside((#[trigger] advance(motion, held)).position);
    let wrapping = frame_wraps(advance) && start.finite() && direction.finite();
    if unconditional || wrapping {
        assert forall|k: int| 0 <= k < HORIZON implies inside(#[trigger] path[k]) by {
            if wrapping {
                lemma_finite_along(start, direction, hold_frames, advance, (k + 1) as nat);
            }
        }
        assert forall|k: int| 0 <= k < SAMPLE_COUNT implies inside(
            #[trigger] walked(walk, path).samples[k],
        ) by {
            assert(0 < SAMPLE_FRAMES@[k] <= HORIZON);
        }
    }
}

/// A hold past the horizon comes to the same path as one up to it: the walk is
/// bounded by the horizon, never by the hold.
pub proof fn law_holds_end_at_the_horizon(
    start: PlayerMotion,
    direction: Vec2,
    hold_frames: u32,
    advance: spec_fn(PlayerMotion, Vec2) -> PlayerMotion,
)
    requires
        hold_frames >= HORIZON,
    ensures
        forall|frame: int|
            0 <= frame < HORIZON ==> #[trigger] held_at(direction, hold_frames, frame)
                == direction,
        predicted(start, direction, hold_frames, advance) == predicted(
            start,
            direction,
            HORIZON,
            advance,
        ),
{
    let path = predicted(start, direction, hold_frames, advance);
    let other = predicted(start, direction, HORIZON, advance);
    assert forall|frame: int| 0 <= frame < HORIZON implies path[frame] == other[frame] by {
        lemma_same_holds(
            start,
            direction,
            hold_frames,
            direction,
            HORIZON,
            advance,
            (frame + 1) as nat,
        );
    }
    assert(path =~= other);
}

/// Without a hold, every direction comes to the path of no direction.
pub proof fn law_no_hold_is_no_direction(
    start: PlayerMotion,
    direction: Vec2,
    hold_frames: u32,
    advance: spec_fn(PlayerMotion, Vec2) -> PlayerMotion,
)
    ensures
        predicted(start, direction, 0, advance) == predicted(
            start,
            Vec2 { x: ZERO, y: ZERO },
            hold_frames,
            advance,
        ),
{
    let nowhere = Vec2 { x: ZERO, y: ZERO };
    let path = predicted(start, direction, 0, advance);
    let other = predicted(start, nowhere, hold_frames, advance);
    assert forall|frame: int| 0 <= frame < HORIZON implies path[frame] == other[frame] by {
        lemma_same_holds(
            start,
            direction,
            0,
            nowhere,
            hold_frames,
            advance,
            (frame + 1) as nat,
        );
    }
    assert(path =~= other);
}

/// Names the movement rules this build implements.
pub const MOTION_CONTRACT_ID: &'static str = "royale-motion-1";

/// Every constant a second implementation of the movement rules must agree on,
/// each by its bit pattern.
#[derive(Debug)]
pub struct MotionContract {
    /// Which movement rules these are.
    pub id: String,
    /// World units per second at full speed.
    pub top_speed: u32,
    /// How sharply velocity approaches its target, per second.
    pub movement_response: u32,
    /// The longest frame the motion model will integrate in one go.
    pub max_frame_seconds: u32,
    /// Commands shorter than this mean standing still.
    pub idle_threshold: u32,
    /// Seconds one simulation frame advances.
    pub seconds_per_frame: u32,
    /// World units in one reference pixel.
    pub world_units_per_pixel: u32,
    /// Half the arena, for the wrap both sides have to perform identically.
    pub world_half_extents: Vec2,
}

/// What this build's movement rules are.
pub fn motion_contract() -> (contract: MotionContract)
    ensures
        contract.id@ == MOTION_CONTRACT_ID@,
        contract.top_speed == TOP_SPEED,
        contract.movement_response == MOVEMENT_RESPONSE,
        contract.max_frame_seconds == MAX_FRAME_SECONDS,
        contract.idle_threshold == IDLE_THRESHOLD,
        contract.seconds_per_frame == FRAME_SECONDS,
        contract.world_units_per_pixel == PIXEL,
        contract.world_half_extents == (Vec2 { x: WORLD_HALF_X, y: WORLD_HALF_Y }),
{
    MotionContract {
        id: MOTION_CONTRACT_ID.to_owned(),
        top_speed: TOP_SPEED,
        movement_response: MOVEMENT_RESPONSE,
        max_frame_seconds: MAX_FRAME_SECONDS,
        idle_threshold: IDLE_THRESHOLD,
        seconds_per_frame: FRAME_SECONDS,
        world_units_per_pixel: PIXEL,
        world_half_extents: Vec2 { x: WORLD_HALF_X, y: WORLD_HALF_Y },
    }
}

/// One frame of an episode counts one frame, keeps the configuration and what was
/// asked for, and ends it for the reasons there are: a hit now or before, and a
/// frame count that has reached the budget. The report says all of it.
pub proof fn law_a_frame_ends_for_its_reasons(episode: Episode, counters: FrameCounters)
    requires
        episode.frame < u32::MAX,
    ensures
        ({
            let after = episode.advanced(counters);
            let report = after.report(counters);
            &&& after.frame == episode.frame + 1
            &&& after.config == episode.config
            &&& after.intent == episode.intent
            &&& after.terminated <==> episode.terminated || counters.hit
            &&& after.truncated <==> episode.frame + 1 >= episode.config.max_frames
            &&& after.ended() <==> after.terminated || after.truncated
            &&& report.frame == episode.frame + 1
            &&& report.hit == counters.hit
            &&& report.enemy_deaths == counters.enemy_deaths
            &&& report.terminated == after.terminated
            &&& report.truncated == after.truncated
            &&& report.ended() <==> after.ended()
        }),
{
}

/// Every configuration with at least one frame, and with a pass to place enemies
/// in where it has any, can be played; no other can. Its seed does not matter.
pub proof fn law_playable_configurations(config: ArenaConfig)
    ensures
        config.max_frames > 0 && (config.enemy_count == 0 || config.max_init_passes > 0)
            ==> config_fault(config) is None,
        config.max_frames == 0 ==> config_fault(config) is Some,
        config.enemy_count > 0 && config.max_init_passes == 0 ==> config_fault(config) is Some,
        config.max_frames == 0 ==> config_fault(config) == Some(
            ArenaError::InvalidConfig("max_frames must be at least one frame"),
        ),
        config.max_frames > 0 && config_fault(config) is Some ==> config_fault(config) == Some(
            ArenaError::InvalidConfig("max_init_passes must be at least one to place any enemy"),
        ),
{
}

/// A command no shorter than the idle floor is taken as it is, and a shorter one
/// means standing still, whichever way it points.
pub proof fn law_the_idle_floor(direction: Vec2, length_squared: u32)
    requires
        !nan(length_squared),
    ensures
        scaled(length_squared) >= scaled(IDLE_SQUARED) ==> intended(direction, length_squared)
            == direction,
        scaled(length_squared) < scaled(IDLE_SQUARED) ==> intended(direction, length_squared).x == 0
            && intended(direction, length_squared).y == 0,
{
}

/// Opposite actions point in opposite ways, a diagonal is the two ways it is
/// named after, and idling goes nowhere.
pub proof fn law_actions_point_where_they_say()
    ensures
        Action::Idle.heading() == (0int, 0int),
        Action::Right.heading() == (1int, 0int) && Action::Up.heading() == (0int, 1int),
        Action::Left.heading().0 == -Action::Right.heading().0 && Action::Left.heading().1 == 0,
        Action::Down.heading().1 == -Action::Up.heading().1 && Action::Down.heading().0 == 0,
        Action::UpLeft.heading() == (Action::Left.heading().0, Action::Up.heading().1),
        Action::UpRight.heading() == (Action::Right.heading().0, Action::Up.heading().1),
        Action::DownLeft.heading() == (Action::Left.heading().0, Action::Down.heading().1),
        Action::DownRight.heading() == (Action::Right.heading().0, Action::Down.heading().1),
        scaled(sign_bits(-1)) == -scaled(sign_bits(1)) && sign_bits(1) == ONE,
        sign_bits(0) == ZERO,
{
    crate::bits::law_signs(ONE);
}

/// A snapshot lists the living by identity, each as often as it is there, and a
/// dying one not at all.
pub proof fn law_views_are_listed_by_identity(
    enemies: Seq<(EnemyView, bool)>,
    blasts: Seq<BlastView>,
    i: int,
    j: int,
)
    ensures
        ({
            let seen = ranked(alive(enemies));
            let blown = ranked(blasts);
            &&& 0 <= i < j < seen.len() ==> seen[i].entity <= seen[j].entity
            &&& 0 <= i < j < blown.len() ==> blown[i].entity <= blown[j].entity
            &&& blown.to_multiset() == blasts.to_multiset()
            &&& seen.len() == enemies.filter(|enemy: (EnemyView, bool)| !enemy.1).len()
            &&& 0 <= i < enemies.len() && !enemies[i].1 ==> seen.contains(enemies[i].0)
            &&& forall|enemy: EnemyView| #[trigger]
                seen.contains(enemy) ==> enemies.contains((enemy, false))
        }),
{
    law_ranked(alive(enemies));
    law_ranked(blasts);
    lemma_alive_count(enemies);
    if 0 <= i < enemies.len() && !enemies[i].1 {
        assert(enemies[i] == (enemies[i].0, false));
        law_views_hold_the_living(enemies, enemies[i].0);
    }
    assert forall|enemy: EnemyView| #[trigger]
        ranked(alive(enemies)).contains(enemy) implies enemies.contains((enemy, false)) by {
        law_views_hold_the_living(enemies, enemy);
    }
}

proof fn lemma_alive_count(enemies: Seq<(EnemyView, bool)>)
    ensures
        alive(enemies).len() == enemies.filter(|enemy: (EnemyView, bool)| !enemy.1).len(),
    decreases enemies.len(),
{
    reveal(Seq::filter);
    if enemies.len() > 0 {
        lemma_alive_count(enemies.drop_last());
    }
}

/// A direction is held on every frame before the hold is over and on none after
/// it; a walk counts its frames and samples nothing between sample frames.
pub proof fn law_directions_are_held_for_the_hold(
    direction: Vec2,
    hold_frames: u32,
    frame: int,
    walk: WalkView,
    position: Vec2,
)
    requires
        walk.frame < HORIZON,
    ensures
        frame < hold_frames ==> held_at(direction, hold_frames, frame) == direction,
        frame >= hold_frames ==> held_at(direction, hold_frames, frame).x == 0 && held_at(
            direction,
            hold_frames,
            frame,
        ).y == 0,
        walk.advanced(position).frame == walk.frame + 1,
        walk.advanced(position).direction == walk.direction,
        walk.advanced(position).hold_frames == walk.hold_frames,
        !SAMPLE_FRAMES@.contains((walk.frame + 1) as u32) ==> walk.advanced(position).samples
            == walk.samples,
        SAMPLE_FRAMES@.contains((walk.frame + 1) as u32) ==> walk.advanced(position).samples
            == walk.samples.push(position),
{
}

/// An arena that has been filled stands at frame zero of its episode, with nothing
/// asked for and nothing ended.
pub proof fn law_filled_arenas_stand_at_frame_zero(arena: HeadlessArena, config: ArenaConfig)
    requires
        arena.fresh(config),
    ensures
        arena@.frame == 0,
        arena@.config == config,
        !arena@.terminated && !arena@.truncated && !arena@.ended(),
        arena@.intent.x == 0 && arena@.intent.y == 0,
{
}

/// An error of the population says how many were placed, of how many.
pub proof fn law_population_errors_say_both_counts(placed: usize, requested: usize)
    ensures
        (ArenaError::Population { placed, requested }).words() == "placed "@ + (decimal(
            placed as nat,
        ) + (" of "@ + (decimal(requested as nat) + " enemies before frame zero"@))),
{
    assert((ArenaError::Population { placed, requested }).words() =~= "placed "@ + (decimal(
        placed as nat,
    ) + (" of "@ + (decimal(requested as nat) + " enemies before frame zero"@))));
}

/// No frame is sampled before the first sample or past the horizon, which is one.
pub proof fn law_samples_lie_on_the_walk(frame: u32)
    ensures
        frame < 4 || frame > HORIZON ==> !sampled(frame),
        frame == HORIZON ==> sampled(frame),
        sampled(frame) ==> frame % 4 == 0,
{
    let frames = SAMPLE_FRAMES@;
    assert(frames[0] == 4 && frames[1] == 12 && frames[2] == 24);
    assert(frames[3] == 48 && frames[4] == 72 && frames[5] == 108);
    if sampled(frame) {
        let k = choose|k: int| 0 <= k < frames.len() && frames[k] == frame;
        assert(k == 0 || k == 1 || k == 2 || k == 3 || k == 4 || k == 5);
    }
}

/// An action is called by the ways it goes: up or down first, then left or right.
pub proof fn law_actions_are_called_by_their_ways(action: Action)
    ensures
        ({
            let (across, up) = action.heading();
            let sideways = if across < 0 {
                "left"@
            } else {
                "right"@
            };
            let upright = if up > 0 {
                "up"@
            } else {
                "down"@
            };
            &&& across == 0 && up == 0 ==> action.called() == "idle"@
            &&& across != 0 && up == 0 ==> action.called() == sideways
            &&& across == 0 && up != 0 ==> action.called() == upright
            &&& across != 0 && up != 0 ==> action.called() == upright + "-"@ + sideways
        }),
{
    reveal_strlit("left");
    reveal_strlit("right");
    reveal_strlit("up");
    reveal_strlit("down");
    reveal_strlit("-");
    reveal_strlit("up-left");
    reveal_strlit("up-right");
    reveal_strlit("down-left");
    reveal_strlit("down-right");
    assert("up-left"@ =~= "up"@ + "-"@ + "left"@);
    assert("up-right"@ =~= "up"@ + "-"@ + "right"@);
    assert("down-left"@ =~= "down"@ + "-"@ + "left"@);
    assert("down-right"@ =~= "down"@ + "-"@ + "right"@);
}

/// An arena's error says what is wrong in its own words.
pub proof fn law_arena_errors_say_what_is_wrong(reason: &'static str)
    ensures
        ArenaError::InvalidConfig(reason).words() == "invalid arena config: "@ + reason@,
        ArenaError::NonFinite(reason).words() == reason@,
        ArenaError::Completed.words() == "the episode has ended; reset before stepping"@,
{
}

} // verus!

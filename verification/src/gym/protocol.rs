//! The byte schema the trainer speaks, version 2.
//!
//! Everything is explicit: fixed width, little endian, length-prefixed. No
//! struct is ever handed to the wire, so layout, padding and `usize` cannot
//! leak into the format. Values travel as the bit patterns of binary32.

use crate::bits::Vec2;
pub use crate::gym::seeds::episode_seed;
pub use crate::gym::wire::ProtocolError;
use crate::observation::Layout;
pub use reading::{read_handshake, read_request, read_request_or_eof, read_reset, read_step};
pub use writing::{
    write_closed, write_error, write_handshake, write_request, write_reset, write_step,
};
use vstd::prelude::*;

pub mod format;
pub mod laws;
pub mod reading;
pub mod request;
pub mod response;
pub mod writing;

verus! {

/// Identifies the stream, and catches a client pointed at the wrong binary.
pub const MAGIC: [u8; 8] = [0x44, 0x52, 0x47, 0x59, 0x4d, 0, 0, 2];

/// Bumped whenever a message's meaning changes.
pub const PROTOCOL_VERSION: u32 = 2;

/// The largest handshake document that is read.
pub const HANDSHAKE_MAXIMUM: u64 = 0x10_0000;

/// The longest diagnostic that is sent, in bytes.
pub const ERROR_MAXIMUM: usize = 1_024;

/// What the server announces before any stepping.
#[derive(Debug)]
pub struct Handshake {
    pub protocol_version: u32,
    pub envs: u32,
    pub enemy_count: u32,
    pub max_frames: u32,
    pub root_seed: u64,
    pub workers: u32,
    /// How the observation is laid out, with channel names and sections.
    pub layout: Layout,
}

/// What a client asks for.
#[derive(Debug)]
pub enum Request {
    /// One direction per env, in env order.
    Step(Vec<Vec2>),
    /// Restart every env. `Some` restarts the seed stream from that root;
    /// `None` continues it, which is why the seed carries a presence flag:
    /// zero is a perfectly good seed.
    Reset(Option<u64>),
    /// Finish, acknowledge, and exit.
    Close,
}

/// What a request says.
pub enum RequestView {
    Step(Seq<Vec2>),
    Reset(Option<u64>),
    Close,
}

impl View for Request {
    type V = RequestView;

    open spec fn view(&self) -> RequestView {
        match self {
            Request::Step(actions) => RequestView::Step(actions@),
            Request::Reset(seed) => RequestView::Reset(*seed),
            Request::Close => RequestView::Close,
        }
    }
}

/// What happened to one env during one step.
#[derive(Clone, Copy, Debug, PartialEq, Eq, Structural)]
pub struct EnvTransition {
    /// Frames the finished-or-continuing episode had run, counting this one.
    pub frame: u32,
    pub terminated: bool,
    pub truncated: bool,
    pub enemy_deaths: u32,
    /// The seed of the episode this transition belongs to.
    pub episode_seed: u64,
    /// The seed of the episode that replaced it, if this one ended.
    pub reset_seed: Option<u64>,
}

impl Default for EnvTransition {
    fn default() -> (transition: Self)
        ensures
            transition == (EnvTransition {
                frame: 0,
                terminated: false,
                truncated: false,
                enemy_deaths: 0,
                episode_seed: 0,
                reset_seed: None,
            }),
    {
        EnvTransition {
            frame: 0,
            terminated: false,
            truncated: false,
            enemy_deaths: 0,
            episode_seed: 0,
            reset_seed: None,
        }
    }
}

impl EnvTransition {
    /// The episode ended on this frame.
    pub open spec fn ended(self) -> bool {
        self.terminated || self.truncated
    }

    /// Whether the episode ended on this frame.
    pub fn done(&self) -> (result: bool)
        ensures
            result == self.ended(),
    {
        self.terminated || self.truncated
    }
}

/// One finished episode's last observation.
#[derive(Debug)]
pub struct TerminalObservation {
    pub env: u32,
    pub observation: Vec<u32>,
}

/// What a terminal observation says.
#[verifier::ext_equal]
pub struct TerminalView {
    pub env: u32,
    pub observation: Seq<u32>,
}

impl View for TerminalObservation {
    type V = TerminalView;

    open spec fn view(&self) -> TerminalView {
        TerminalView { env: self.env, observation: self.observation@ }
    }
}

/// The response to a step.
///
/// `observations` holds the observation each env is now on: for an env that
/// finished, that is its new episode's first frame. The final observation of
/// the episode that ended travels separately, in `terminal`, because a learner
/// needs both.
#[derive(Debug)]
pub struct StepBatch {
    pub transitions: Vec<EnvTransition>,
    pub observations: Vec<u32>,
    pub terminal: Vec<TerminalObservation>,
}

/// What a step response says.
#[verifier::ext_equal]
pub struct StepView {
    pub transitions: Seq<EnvTransition>,
    pub observations: Seq<u32>,
    pub terminal: Seq<TerminalView>,
}

/// What a list of terminal observations says.
pub open spec fn terminal_views(terminal: Seq<TerminalObservation>) -> Seq<TerminalView> {
    terminal.map_values(|item: TerminalObservation| item@)
}

impl View for StepBatch {
    type V = StepView;

    open spec fn view(&self) -> StepView {
        StepView {
            transitions: self.transitions@,
            observations: self.observations@,
            terminal: terminal_views(self.terminal@),
        }
    }
}

/// The response to a reset.
#[derive(Debug)]
pub struct ResetBatch {
    pub seeds: Vec<u64>,
    pub observations: Vec<u32>,
}

/// What a reset response says.
#[verifier::ext_equal]
pub struct ResetView {
    pub seeds: Seq<u64>,
    pub observations: Seq<u32>,
}

impl View for ResetBatch {
    type V = ResetView;

    open spec fn view(&self) -> ResetView {
        ResetView { seeds: self.seeds@, observations: self.observations@ }
    }
}

/// A number, or the limit where it is above it.
pub open spec fn capped(value: int, limit: int) -> int {
    if value > limit {
        limit
    } else {
        value
    }
}

/// The payload bound as the session derives it, each step capped at the
/// largest number of its type.
pub open spec fn payload_bound(envs: u32, observation_values: usize) -> int {
    let scaled = capped(observation_values * 4, usize::MAX as int);
    let per_env = capped(scaled + 64, usize::MAX as int);
    let all = capped((envs + 1) * per_env, u64::MAX as int);
    capped(capped(all * 2, u64::MAX as int) + 4_096, u64::MAX as int)
}

fn capped_product(a: u64, b: u64) -> (result: u64)
    ensures
        result == capped(a * b, u64::MAX as int),
{
    match a.checked_mul(b) {
        Some(value) => value,
        None => u64::MAX,
    }
}

/// The largest payload this session will accept, derived from its env count.
///
/// A step's payload is bounded by every env reporting a full observation plus a
/// terminal one, so anything beyond that is a malformed length rather than a
/// message worth allocating for.
pub fn max_payload(envs: u32, observation_values: usize) -> (bound: u64)
    ensures
        bound == payload_bound(envs, observation_values),
{
    let scaled: usize = match observation_values.checked_mul(4) {
        Some(value) => value,
        None => usize::MAX,
    };
    let per_env: u64 = scaled.saturating_add(64) as u64;
    let envs: u64 = envs as u64 + 1;
    capped_product(capped_product(envs, per_env), 2).saturating_add(4_096)
}

} // verus!

//! The request loop: a handshake, then step and reset until told to stop.
//!
//! Every event of a session is answered by the bytes that go to the client and
//! by what is to be done next. Reading, writing and stepping the arenas are
//! done outside.

use crate::bits::{less, nan, scaled, Vec2};
use crate::gym::protocol::format::{wire_error, wire_handshake, wire_reset, wire_step};
use crate::gym::protocol::{
    max_payload, payload_bound, response, write_closed, write_error, write_handshake, write_reset,
    write_step, Handshake, ProtocolError, Request, ResetBatch, StepBatch, PROTOCOL_VERSION,
};
use crate::gym::workers::{BatchConfig, BatchError};
use crate::observation::{describes, layout, OBSERVATION_VALUES, WINDOW_HALF};
use vstd::prelude::*;
use vstd::utf8::encode_utf8;

pub mod code;

verus! {

/// Why the session ended badly.
#[derive(Debug)]
pub enum ServerError {
    Protocol(ProtocolError),
    Batch(BatchError),
}

impl ServerError {
    /// The words an error is reported by.
    pub open spec fn words(self) -> Seq<char> {
        match self {
            ServerError::Protocol(error) => error.words(),
            ServerError::Batch(error) => error@.words(),
        }
    }

    /// The code an error is reported under.
    pub open spec fn number(self) -> u32 {
        match self {
            ServerError::Protocol(_) => code::PROTOCOL,
            ServerError::Batch(_) => code::ARENA,
        }
    }

    /// Say what went wrong.
    pub fn message(&self) -> (message: String)
        ensures
            message@ == self.words(),
    {
        match self {
            ServerError::Protocol(error) => error.message(),
            ServerError::Batch(error) => error.message(),
        }
    }

    /// The code an error is reported under.
    pub fn code(&self) -> (code: u32)
        ensures
            code == self.number(),
    {
        match self {
            ServerError::Protocol(_) => code::PROTOCOL,
            ServerError::Batch(_) => code::ARENA,
        }
    }
}

impl From<ProtocolError> for ServerError {
    fn from(error: ProtocolError) -> (result: Self) {
        ServerError::Protocol(error)
    }
}

impl vstd::std_specs::convert::FromSpecImpl<ProtocolError> for ServerError {
    open spec fn obeys_from_spec() -> bool {
        true
    }

    open spec fn from_spec(error: ProtocolError) -> Self {
        ServerError::Protocol(error)
    }
}

impl From<BatchError> for ServerError {
    fn from(error: BatchError) -> (result: Self) {
        ServerError::Batch(error)
    }
}

impl vstd::std_specs::convert::FromSpecImpl<BatchError> for ServerError {
    open spec fn obeys_from_spec() -> bool {
        true
    }

    open spec fn from_spec(error: BatchError) -> Self {
        ServerError::Batch(error)
    }
}

/// What the server announces of a batch.
pub fn announce(config: BatchConfig) -> (handshake: Handshake)
    ensures
        handshake.protocol_version == PROTOCOL_VERSION,
        handshake.envs == config.envs,
        handshake.enemy_count == if config.enemy_count > u32::MAX {
            u32::MAX
        } else {
            config.enemy_count as u32
        },
        handshake.max_frames == config.max_frames,
        handshake.root_seed == config.root_seed,
        handshake.workers == config.workers,
        describes(handshake.layout, config.hold_frames),
{
    Handshake {
        protocol_version: PROTOCOL_VERSION,
        envs: config.envs,
        enemy_count: if config.enemy_count > u32::MAX as usize {
            u32::MAX
        } else {
            config.enemy_count as u32
        },
        max_frames: config.max_frames,
        root_seed: config.root_seed,
        workers: config.workers,
        layout: layout(config.hold_frames),
    }
}

/// Whether a predicted path that reaches so many pixels can leave the window.
///
/// Paths are allowed to, but a hold long enough to make that usual is worth
/// saying out loud, once.
pub fn leaves_window(reach: u32) -> (leaves: bool)
    ensures
        leaves == (!nan(reach) && scaled(reach) > scaled(WINDOW_HALF)),
{
    proof {
        assert(!nan(WINDOW_HALF));
    }
    less(WINDOW_HALF, reach)
}

/// What happened in a session.
#[derive(Debug)]
pub enum Event {
    /// It opened, and this is the handshake document.
    Opened(Vec<u8>),
    /// The batch was started.
    Started(Result<ResetBatch, BatchError>),
    /// The client was heard, or went away between messages.
    Received(Result<Option<Request>, ProtocolError>),
    /// The batch was stepped.
    Stepped(Result<StepBatch, BatchError>),
    /// The batch was restarted.
    Restarted(Result<ResetBatch, BatchError>),
}

/// What a session does next.
#[derive(Debug)]
pub enum Next {
    /// Start the batch.
    Start,
    /// Read a request of so many actions, of at most so many bytes.
    Receive { envs: usize, maximum: u64 },
    /// Step the batch.
    Step(Vec<Vec2>),
    /// Restart the batch.
    Restart(Option<u64>),
    /// Nothing: it is over.
    Finish,
    /// Nothing: it has failed.
    Fail(ServerError),
}

/// The bytes of a failure: an error record, never a partial batch.
pub open spec fn failure_bytes(error: ServerError) -> Seq<u8> {
    wire_error(error.number(), encode_utf8(error.words()))
}

impl Event {
    /// What went wrong, if anything did.
    pub open spec fn failure(self) -> Option<ServerError> {
        match self {
            Event::Opened(_) => None,
            Event::Started(Err(error)) => Some(ServerError::Batch(error)),
            Event::Started(Ok(_)) => None,
            Event::Received(Err(error)) => Some(ServerError::Protocol(error)),
            Event::Received(Ok(_)) => None,
            Event::Stepped(Err(error)) => Some(ServerError::Batch(error)),
            Event::Stepped(Ok(_)) => None,
            Event::Restarted(Err(error)) => Some(ServerError::Batch(error)),
            Event::Restarted(Ok(_)) => None,
        }
    }

    /// What the client is sent.
    pub open spec fn answer(self) -> Seq<u8> {
        match self {
            Event::Opened(document) => wire_handshake(document@),
            Event::Started(Ok(batch)) => wire_reset(batch@),
            Event::Started(Err(error)) => failure_bytes(ServerError::Batch(error)),
            Event::Received(Ok(Some(Request::Close))) => seq![response::CLOSED],
            Event::Received(Ok(_)) => Seq::empty(),
            Event::Received(Err(error)) => failure_bytes(ServerError::Protocol(error)),
            Event::Stepped(Ok(batch)) => wire_step(batch@),
            Event::Stepped(Err(error)) => failure_bytes(ServerError::Batch(error)),
            Event::Restarted(Ok(batch)) => wire_reset(batch@),
            Event::Restarted(Err(error)) => failure_bytes(ServerError::Batch(error)),
        }
    }

    /// What comes next.
    pub open spec fn leads_to(self, config: BatchConfig) -> Next {
        let receive = Next::Receive {
            envs: config.envs as usize,
            maximum: payload_bound(config.envs, OBSERVATION_VALUES) as u64,
        };
        match self {
            Event::Opened(_) => Next::Start,
            Event::Started(Ok(_)) => receive,
            Event::Started(Err(error)) => Next::Fail(ServerError::Batch(error)),
            Event::Received(Ok(None)) => Next::Finish,
            Event::Received(Ok(Some(Request::Close))) => Next::Finish,
            Event::Received(Ok(Some(Request::Step(actions)))) => Next::Step(actions),
            Event::Received(Ok(Some(Request::Reset(seed)))) => Next::Restart(seed),
            Event::Received(Err(error)) => Next::Fail(ServerError::Protocol(error)),
            Event::Stepped(Ok(_)) => receive,
            Event::Stepped(Err(error)) => Next::Fail(ServerError::Batch(error)),
            Event::Restarted(Ok(_)) => receive,
            Event::Restarted(Err(error)) => Next::Fail(ServerError::Batch(error)),
        }
    }
}

fn fail(error: ServerError, writer: &mut Vec<u8>) -> (next: Next)
    ensures
        final(writer)@ == old(writer)@ + failure_bytes(error),
        next == Next::Fail(error),
{
    let message: String = error.message();
    let _ = write_error(writer, error.code(), message.as_str());
    Next::Fail(error)
}

fn receive(config: BatchConfig) -> (next: Next)
    ensures
        next == (Next::Receive {
            envs: config.envs as usize,
            maximum: payload_bound(config.envs, OBSERVATION_VALUES) as u64,
        }),
{
    Next::Receive {
        envs: config.envs as usize,
        maximum: max_payload(config.envs, OBSERVATION_VALUES),
    }
}

/// Answer one event of a session.
///
/// The opening is the handshake and then frame zero, so a client can start
/// stepping without asking for a reset it does not want. A malformed request or
/// a failing arena is reported as an error record first, and then ends the
/// session, because a half-stepped batch is worse than no batch at all. A
/// client that goes away between messages is an ordinary exit.
pub fn serve(config: BatchConfig, event: Event, writer: &mut Vec<u8>) -> (next: Next)
    ensures
        final(writer)@ == old(writer)@ + event.answer(),
        next == event.leads_to(config),
{
    match event {
        Event::Opened(document) => {
            let _ = write_handshake(writer, document.as_slice());
            Next::Start
        },
        Event::Started(Ok(batch)) => {
            let _ = write_reset(writer, &batch);
            receive(config)
        },
        Event::Started(Err(error)) => fail(ServerError::Batch(error), writer),
        Event::Received(Ok(None)) => {
            assert(writer@ =~= old(writer)@ + Seq::<u8>::empty());
            Next::Finish
        },
        Event::Received(Ok(Some(Request::Close))) => {
            let _ = write_closed(writer);
            Next::Finish
        },
        Event::Received(Ok(Some(Request::Step(actions)))) => {
            assert(writer@ =~= old(writer)@ + Seq::<u8>::empty());
            Next::Step(actions)
        },
        Event::Received(Ok(Some(Request::Reset(seed)))) => {
            assert(writer@ =~= old(writer)@ + Seq::<u8>::empty());
            Next::Restart(seed)
        },
        Event::Received(Err(error)) => fail(ServerError::Protocol(error), writer),
        Event::Stepped(Ok(batch)) => {
            let _ = write_step(writer, &batch);
            receive(config)
        },
        Event::Stepped(Err(error)) => fail(ServerError::Batch(error), writer),
        Event::Restarted(Ok(batch)) => {
            let _ = write_reset(writer, &batch);
            receive(config)
        },
        Event::Restarted(Err(error)) => fail(ServerError::Batch(error), writer),
    }
}

/// A session fails exactly when something went wrong, with that failure, and
/// then the client was sent an error record and nothing else.
pub proof fn law_failures_are_reported(config: BatchConfig, event: Event)
    ensures
        match event.failure() {
            Some(error) => event.leads_to(config) == Next::Fail(error) && event.answer()
                == failure_bytes(error),
            None => !(event.leads_to(config) is Fail),
        },
{
}

/// A session does what it is asked: a step is passed on with its directions and a
/// reset with its seed, both without an answer of their own; a close is
/// acknowledged and ends it, and a client that goes away ends it without a word.
pub proof fn law_requests_are_carried_out(
    config: BatchConfig,
    actions: Vec<Vec2>,
    seed: Option<u64>,
)
    ensures
        Event::Received(Ok(Some(Request::Step(actions)))).leads_to(config) == Next::Step(actions),
        Event::Received(Ok(Some(Request::Step(actions)))).answer().len() == 0,
        Event::Received(Ok(Some(Request::Reset(seed)))).leads_to(config) == Next::Restart(seed),
        Event::Received(Ok(Some(Request::Reset(seed)))).answer().len() == 0,
        Event::Received(Ok(Some(Request::Close))).leads_to(config) is Finish,
        Event::Received(Ok(Some(Request::Close))).answer() == seq![0x84u8],
        Event::Received(Ok(None)).leads_to(config) is Finish,
        Event::Received(Ok(None)).answer().len() == 0,
{
}

/// A session opens with the handshake and then starts the batch; whatever the
/// batch came to is sent as it is, and the next request is read, of one direction
/// for each env.
pub proof fn law_results_are_sent(
    config: BatchConfig,
    document: Vec<u8>,
    reset: ResetBatch,
    step: StepBatch,
)
    ensures
        Event::Opened(document).answer() == wire_handshake(document@),
        Event::Opened(document).leads_to(config) is Start,
        Event::Started(Ok(reset)).answer() == wire_reset(reset@),
        Event::Restarted(Ok(reset)).answer() == wire_reset(reset@),
        Event::Stepped(Ok(step)).answer() == wire_step(step@),
        Event::Started(Ok(reset)).leads_to(config) matches Next::Receive { envs, maximum }
            && envs == config.envs && maximum == payload_bound(config.envs, OBSERVATION_VALUES)
            as u64,
        Event::Restarted(Ok(reset)).leads_to(config) == Event::Started(Ok(reset)).leads_to(config),
        Event::Stepped(Ok(step)).leads_to(config) == Event::Started(Ok(reset)).leads_to(config),
{
}

/// Whatever fails ends the session with that failure, under the code that tells a
/// bad request from a failing arena; nothing but the error record is sent.
pub proof fn law_every_failure_ends_the_session(
    config: BatchConfig,
    arena: BatchError,
    request: ProtocolError,
)
    ensures
        Event::Started(Err(arena)).leads_to(config) == Next::Fail(ServerError::Batch(arena)),
        Event::Stepped(Err(arena)).leads_to(config) == Next::Fail(ServerError::Batch(arena)),
        Event::Restarted(Err(arena)).leads_to(config) == Next::Fail(ServerError::Batch(arena)),
        Event::Received(Err(request)).leads_to(config) == Next::Fail(
            ServerError::Protocol(request),
        ),
        Event::Stepped(Err(arena)).answer() == wire_error(2, encode_utf8(arena@.words())),
        Event::Started(Err(arena)).answer() == Event::Stepped(Err(arena)).answer(),
        Event::Restarted(Err(arena)).answer() == Event::Stepped(Err(arena)).answer(),
        Event::Received(Err(request)).answer() == wire_error(1, encode_utf8(request.words())),
{
}

/// A failure of the stream or of the batch becomes the server's without a change.
pub proof fn law_failures_are_kept(request: ProtocolError, arena: BatchError)
    ensures
        <ServerError as vstd::std_specs::convert::FromSpec<ProtocolError>>::from_spec(request)
            == ServerError::Protocol(request),
        <ServerError as vstd::std_specs::convert::FromSpec<BatchError>>::from_spec(arena)
            == ServerError::Batch(arena),
        ServerError::Protocol(request).words() == request.words(),
        ServerError::Batch(arena).words() == arena@.words(),
        ServerError::Protocol(request).number() == 1,
        ServerError::Batch(arena).number() == 2,
{
}

} // verus!

//! What each message looks like on the wire, and what reading bytes comes to.

use crate::bits::Vec2;
use crate::gym::protocol::{
    capped, request, response, EnvTransition, ProtocolError, RequestView, ResetView, StepView,
    TerminalView, ERROR_MAXIMUM, HANDSHAKE_MAXIMUM, MAGIC, PROTOCOL_VERSION,
};
use crate::gym::wire::{
    float_record, float_wire, le_value, reads_bytes, reads_counted, reads_le, reads_length,
    reads_records, reads_u8, seed_record, seed_wire, wire_bytes, wire_counted, wire_flag,
    wire_optional_u64, wire_u32, wire_u64, Read,
};
use vstd::prelude::*;

verus! {

/// The bytes of one direction: x, then y.
pub open spec fn direction_wire() -> spec_fn(Vec2) -> Seq<u8> {
    |direction: Vec2| wire_u32(direction.x) + wire_u32(direction.y)
}

/// An eight-byte record: one direction.
pub open spec fn direction_record() -> spec_fn(Seq<u8>) -> Vec2 {
    |bytes: Seq<u8>|
        Vec2 {
            x: le_value(bytes.subrange(0, 4)) as u32,
            y: le_value(bytes.subrange(4, 8)) as u32,
        }
}

/// The bytes of one transition.
pub open spec fn transition_wire() -> spec_fn(EnvTransition) -> Seq<u8> {
    |transition: EnvTransition|
        wire_u32(transition.frame) + wire_flag(transition.terminated) + wire_flag(
            transition.truncated,
        ) + wire_u32(transition.enemy_deaths) + wire_u64(transition.episode_seed)
            + wire_optional_u64(transition.reset_seed)
}

/// The width of one transition on the wire.
pub const TRANSITION_WIDTH: usize = 27;

/// A record of twenty-seven bytes: one transition.
pub open spec fn transition_record() -> spec_fn(Seq<u8>) -> EnvTransition {
    |bytes: Seq<u8>|
        EnvTransition {
            frame: le_value(bytes.subrange(0, 4)) as u32,
            terminated: bytes[4] != 0,
            truncated: bytes[5] != 0,
            enemy_deaths: le_value(bytes.subrange(6, 10)) as u32,
            episode_seed: le_value(bytes.subrange(10, 18)) as u64,
            reset_seed: if bytes[18] != 0 {
                Some(le_value(bytes.subrange(19, 27)) as u64)
            } else {
                None
            },
        }
}

/// The bytes of one terminal observation: its env, then its values.
pub open spec fn terminal_wire() -> spec_fn(TerminalView) -> Seq<u8> {
    |terminal: TerminalView|
        wire_u32(terminal.env) + wire_counted(terminal.observation, float_wire())
}

/// The bytes of a request.
pub open spec fn wire_request(request: RequestView) -> Seq<u8> {
    match request {
        RequestView::Step(actions) => seq![request::STEP] + wire_counted(
            actions,
            direction_wire(),
        ),
        RequestView::Reset(seed) => seq![request::RESET] + wire_optional_u64(seed),
        RequestView::Close => seq![request::CLOSE],
    }
}

/// The bytes of a step response.
pub open spec fn wire_step(batch: StepView) -> Seq<u8> {
    seq![response::STEP] + wire_counted(batch.transitions, transition_wire()) + wire_counted(
        batch.observations,
        float_wire(),
    ) + wire_counted(batch.terminal, terminal_wire())
}

/// The bytes of a reset response: no transition, and so no reward, ever.
pub open spec fn wire_reset(batch: ResetView) -> Seq<u8> {
    seq![response::RESET] + wire_counted(batch.seeds, seed_wire()) + wire_counted(
        batch.observations,
        float_wire(),
    )
}

/// The bytes of the opening: magic, version, then the handshake document.
pub open spec fn wire_handshake(document: Seq<u8>) -> Seq<u8> {
    MAGIC@ + wire_u32(PROTOCOL_VERSION) + seq![response::HANDSHAKE] + wire_bytes(document)
}

/// The bytes of an error record. The diagnostic is cut, never refused.
pub open spec fn wire_error(code: u32, message: Seq<u8>) -> Seq<u8> {
    seq![response::ERROR] + wire_u32(code) + wire_bytes(
        message.take(capped(message.len() as int, ERROR_MAXIMUM as int)),
    )
}

/// The first direction that is not finite, if there is one at or after `from`.
pub open spec fn first_unusable(actions: Seq<Vec2>, from: int) -> Option<int>
    decreases actions.len() - from,
{
    if from >= actions.len() {
        None
    } else if !actions[from].finite() {
        Some(from)
    } else {
        first_unusable(actions, from + 1)
    }
}

/// What a step request with these directions comes to.
pub open spec fn judge_actions(actions: Seq<Vec2>, envs: nat) -> Result<
    RequestView,
    ProtocolError,
> {
    if actions.len() != envs {
        Err(ProtocolError::ActionCount { got: actions.len() as usize, expected: envs as usize })
    } else {
        match first_unusable(actions, 0) {
            Some(env) => Err(ProtocolError::InvalidAction { env: env as u32 }),
            None => Ok(RequestView::Step(actions)),
        }
    }
}

/// Read a step request after its opcode.
///
/// The count names envs, and each costs eight bytes: what must not exceed the
/// maximum is the cost in bytes.
pub open spec fn reads_step_request(bytes: Seq<u8>, envs: nat, maximum: u64) -> Read<RequestView> {
    match reads_le(bytes, 4) {
        (Ok(count), rest) => if count * 8 > maximum {
            (
                Err(
                    ProtocolError::PayloadTooLarge { declared: (count * 8) as u64, maximum },
                ),
                rest,
            )
        } else {
            match reads_records(rest, count, 8, direction_record()) {
                (Ok(actions), rest) => (judge_actions(actions, envs), rest),
                (Err(fault), rest) => (Err(fault), rest),
            }
        },
        (Err(fault), rest) => (Err(fault), rest),
    }
}

/// Read a request whose opcode has been read.
pub open spec fn reads_request_body(
    opcode: u8,
    bytes: Seq<u8>,
    envs: nat,
    maximum: u64,
) -> Read<RequestView> {
    if opcode == request::STEP {
        reads_step_request(bytes, envs, maximum)
    } else if opcode == request::RESET {
        if bytes.len() < 9 {
            (Err(ProtocolError::Truncated), Seq::empty())
        } else {
            (
                Ok(
                    RequestView::Reset(
                        if bytes[0] != 0 {
                            Some(le_value(bytes.subrange(1, 9)) as u64)
                        } else {
                            None
                        },
                    ),
                ),
                bytes.skip(9),
            )
        }
    } else if opcode == request::CLOSE {
        (Ok(RequestView::Close), bytes)
    } else {
        (Err(ProtocolError::UnknownOpcode(opcode)), bytes)
    }
}

/// Read a request.
pub open spec fn reads_request(bytes: Seq<u8>, envs: nat, maximum: u64) -> Read<RequestView> {
    if bytes.len() == 0 {
        (Err(ProtocolError::Truncated), Seq::empty())
    } else {
        reads_request_body(bytes[0], bytes.skip(1), envs, maximum)
    }
}

/// How many bytes the request takes that begins like this, as far as these
/// bytes tell. A payload that is refused for its size is not waited for.
pub open spec fn request_length(bytes: Seq<u8>, maximum: u64) -> nat {
    if bytes.len() == 0 {
        1
    } else if bytes[0] == request::STEP {
        if bytes.len() < 5 {
            5
        } else {
            let declared = le_value(bytes.subrange(1, 5)) * 8;
            if declared > maximum {
                5
            } else {
                5 + declared
            }
        }
    } else if bytes[0] == request::RESET {
        10
    } else {
        1
    }
}

/// Read one terminal observation.
pub open spec fn reads_terminal(bytes: Seq<u8>, maximum: u64) -> Read<TerminalView> {
    match reads_le(bytes, 4) {
        (Ok(env), rest) => match reads_counted(rest, maximum, 4, float_record()) {
            (Ok(observation), rest) => (Ok(TerminalView { env: env as u32, observation }), rest),
            (Err(fault), rest) => (Err(fault), rest),
        },
        (Err(fault), rest) => (Err(fault), rest),
    }
}

/// Read so many terminal observations, one after the other.
pub open spec fn reads_terminals(bytes: Seq<u8>, count: nat, maximum: u64) -> Read<
    Seq<TerminalView>,
>
    decreases count,
{
    if count == 0 {
        (Ok(Seq::empty()), bytes)
    } else {
        match reads_terminals(bytes, (count - 1) as nat, maximum) {
            (Ok(earlier), rest) => match reads_terminal(rest, maximum) {
                (Ok(last), rest) => (Ok(earlier.push(last)), rest),
                (Err(fault), rest) => (Err(fault), rest),
            },
            (Err(fault), rest) => (Err(fault), rest),
        }
    }
}

/// Read a count and that many terminal observations.
pub open spec fn reads_terminal_list(bytes: Seq<u8>, maximum: u64) -> Read<Seq<TerminalView>> {
    match reads_length(bytes, maximum) {
        (Ok(count), rest) => reads_terminals(rest, count, maximum),
        (Err(fault), rest) => (Err(fault), rest),
    }
}

/// Read what follows the transitions of a step response.
pub open spec fn reads_step_tail(bytes: Seq<u8>, maximum: u64) -> Read<
    (Seq<u32>, Seq<TerminalView>),
> {
    match reads_counted(bytes, maximum, 4, float_record()) {
        (Ok(observations), rest) => match reads_terminal_list(rest, maximum) {
            (Ok(terminal), rest) => (Ok((observations, terminal)), rest),
            (Err(fault), rest) => (Err(fault), rest),
        },
        (Err(fault), rest) => (Err(fault), rest),
    }
}

/// Read a step response after its opcode.
pub open spec fn reads_step_body(bytes: Seq<u8>, maximum: u64) -> Read<StepView> {
    match reads_counted(bytes, maximum, TRANSITION_WIDTH as nat, transition_record()) {
        (Ok(transitions), rest) => match reads_step_tail(rest, maximum) {
            (Ok((observations, terminal)), rest) => (
                Ok(StepView { transitions, observations, terminal }),
                rest,
            ),
            (Err(fault), rest) => (Err(fault), rest),
        },
        (Err(fault), rest) => (Err(fault), rest),
    }
}

/// Read a reset response after its opcode.
pub open spec fn reads_reset_body(bytes: Seq<u8>, maximum: u64) -> Read<ResetView> {
    match reads_counted(bytes, maximum, 8, seed_record()) {
        (Ok(seeds), rest) => match reads_counted(rest, maximum, 4, float_record()) {
            (Ok(observations), rest) => (Ok(ResetView { seeds, observations }), rest),
            (Err(fault), rest) => (Err(fault), rest),
        },
        (Err(fault), rest) => (Err(fault), rest),
    }
}

/// Read a step response.
pub open spec fn reads_step(bytes: Seq<u8>, maximum: u64) -> Read<StepView> {
    match reads_u8(bytes) {
        (Ok(opcode), rest) => if opcode != response::STEP {
            (Err(ProtocolError::UnknownOpcode(opcode)), rest)
        } else {
            reads_step_body(rest, maximum)
        },
        (Err(fault), rest) => (Err(fault), rest),
    }
}

/// Read a reset response.
pub open spec fn reads_reset(bytes: Seq<u8>, maximum: u64) -> Read<ResetView> {
    match reads_u8(bytes) {
        (Ok(opcode), rest) => if opcode != response::RESET {
            (Err(ProtocolError::UnknownOpcode(opcode)), rest)
        } else {
            reads_reset_body(rest, maximum)
        },
        (Err(fault), rest) => (Err(fault), rest),
    }
}

/// Read the opening up to the handshake document.
pub open spec fn reads_handshake(bytes: Seq<u8>) -> Read<Seq<u8>> {
    if bytes.len() < 8 {
        (Err(ProtocolError::Truncated), Seq::empty())
    } else if bytes.take(8) != MAGIC@ {
        (Err(ProtocolError::BadMagic), bytes.skip(8))
    } else {
        match reads_le(bytes.skip(8), 4) {
            (Ok(version), rest) => if version != PROTOCOL_VERSION {
                (Err(ProtocolError::UnsupportedVersion(version as u32)), rest)
            } else {
                match reads_u8(rest) {
                    (Ok(opcode), rest) => if opcode != response::HANDSHAKE {
                        (Err(ProtocolError::UnknownOpcode(opcode)), rest)
                    } else {
                        reads_bytes(rest, HANDSHAKE_MAXIMUM)
                    },
                    (Err(fault), rest) => (Err(fault), rest),
                }
            },
            (Err(fault), rest) => (Err(fault), rest),
        }
    }
}

} // verus!

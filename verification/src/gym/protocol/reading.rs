//! Reading messages from the bytes that have arrived.

use crate::bits::Vec2;
use crate::gym::protocol::format::{
    direction_record, first_unusable, reads_handshake, reads_request, reads_request_body,
    reads_reset, reads_step, reads_step_request, reads_terminal, reads_terminal_list,
    reads_terminals, request_length, transition_record, TRANSITION_WIDTH,
};
use crate::gym::protocol::{
    request, response, terminal_views, EnvTransition, ProtocolError, Request, ResetBatch,
    StepBatch, TerminalObservation, HANDSHAKE_MAXIMUM, MAGIC, PROTOCOL_VERSION,
};
use crate::gym::wire::{
    advance, has_records, le_at, le_value, lemma_count_bound, lemma_le_value_bound, lemma_spans,
    read_bytes, read_floats, read_length, read_seeds, read_u32, read_u8, reads_counted,
    reads_length, reads_records, record_at, run_out,
};
use vstd::prelude::*;

verus! {

/// The four bytes at `at`, as the number they are.
fn u32_at(bytes: &[u8], at: usize) -> (value: u32)
    requires
        at + 4 <= bytes@.len(),
    ensures
        value == le_value(bytes@.subrange(at as int, at + 4)),
{
    proof {
        lemma_spans();
        lemma_le_value_bound(bytes@.subrange(at as int, at + 4));
    }
    le_at(bytes, at, 4) as u32
}

fn read_directions(reader: &mut &[u8], count: usize) -> (read: Result<Vec<Vec2>, ProtocolError>)
    requires
        count <= u32::MAX,
    ensures
        final(reader)@ == reads_records(old(reader)@, count as nat, 8, direction_record()).1,
        match reads_records(old(reader)@, count as nat, 8, direction_record()).0 {
            Ok(actions) => read matches Ok(found) && found@ == actions,
            Err(fault) => read == Err::<Vec<Vec2>, ProtocolError>(fault),
        },
{
    if !has_records(*reader, count, 8) {
        return Err(run_out(reader));
    }
    let bytes: &[u8] = *reader;
    assert(bytes@.len() == bytes.len());
    let mut actions: Vec<Vec2> = Vec::new();
    let mut index: usize = 0;
    while index < count
        invariant
            index <= count,
            count * 8 <= bytes@.len() <= usize::MAX,
            actions@.len() == index,
            forall|k: int|
                0 <= k < index ==> actions@[k] == record_at(bytes@, k, 8, direction_record()),
        decreases count - index,
    {
        let at: usize = index * 8;
        proof {
            let record = bytes@.subrange(index * 8, index * 8 + 8);
            assert(record.subrange(0, 4) =~= bytes@.subrange(at as int, at + 4));
            assert(record.subrange(4, 8) =~= bytes@.subrange(at + 4, at + 8));
        }
        actions.push(Vec2 { x: u32_at(bytes, at), y: u32_at(bytes, at + 4) });
        index = index + 1;
    }
    advance(reader, count * 8);
    assert(actions@ =~= Seq::new(
        count as nat,
        |k: int| record_at(bytes@, k, 8, direction_record()),
    ));
    Ok(actions)
}

/// The first direction that is not finite, if there is one.
fn find_unusable(actions: &[Vec2]) -> (found: Option<usize>)
    ensures
        match first_unusable(actions@, 0) {
            Some(env) => found matches Some(index) && index == env,
            None => found is None,
        },
        found matches Some(index) ==> index < actions@.len(),
{
    let mut index: usize = 0;
    while index < actions.len()
        invariant
            index <= actions@.len(),
            first_unusable(actions@, 0) == first_unusable(actions@, index as int),
        decreases actions@.len() - index,
    {
        if !actions[index].is_finite() {
            return Some(index);
        }
        index = index + 1;
    }
    None
}

/// Read a step request after its opcode, validating it completely.
fn read_step_request(reader: &mut &[u8], envs: usize, maximum: u64) -> (read: Result<
    Request,
    ProtocolError,
>)
    ensures
        final(reader)@ == reads_step_request(old(reader)@, envs as nat, maximum).1,
        match reads_step_request(old(reader)@, envs as nat, maximum).0 {
            Ok(request) => read matches Ok(found) && found@ == request,
            Err(fault) => read == Err::<Request, ProtocolError>(fault),
        },
{
    let count: u32 = match read_u32(reader) {
        Ok(count) => count,
        Err(fault) => {
            return Err(fault);
        },
    };
    let declared: u64 = count as u64 * 8;
    if declared > maximum {
        return Err(ProtocolError::PayloadTooLarge { declared, maximum });
    }
    let actions: Vec<Vec2> = match read_directions(reader, count as usize) {
        Ok(actions) => actions,
        Err(fault) => {
            return Err(fault);
        },
    };
    if actions.len() != envs {
        return Err(ProtocolError::ActionCount { got: actions.len(), expected: envs });
    }
    match find_unusable(actions.as_slice()) {
        Some(env) => Err(ProtocolError::InvalidAction { env: env as u32 }),
        None => Ok(Request::Step(actions)),
    }
}

/// Read a request whose opcode has been read.
pub fn read_request_body(
    reader: &mut &[u8],
    opcode: u8,
    envs: usize,
    maximum: u64,
) -> (read: Result<Request, ProtocolError>)
    ensures
        final(reader)@ == reads_request_body(opcode, old(reader)@, envs as nat, maximum).1,
        match reads_request_body(opcode, old(reader)@, envs as nat, maximum).0 {
            Ok(request) => read matches Ok(found) && found@ == request,
            Err(fault) => read == Err::<Request, ProtocolError>(fault),
        },
{
    if opcode == request::STEP {
        read_step_request(reader, envs, maximum)
    } else if opcode == request::RESET {
        if reader.len() < 9 {
            return Err(run_out(reader));
        }
        let present: bool = reader[0] != 0;
        let seed: u64 = le_at(*reader, 1, 8);
        advance(reader, 9);
        Ok(Request::Reset(if present { Some(seed) } else { None }))
    } else if opcode == request::CLOSE {
        Ok(Request::Close)
    } else {
        Err(ProtocolError::UnknownOpcode(opcode))
    }
}

/// Read one request, validating it completely before it can act on anything.
///
/// A malformed or truncated request, a wrong number of directions, or a
/// direction that is not finite is an error. None of these step any env.
pub fn read_request(reader: &mut &[u8], envs: usize, maximum: u64) -> (read: Result<
    Request,
    ProtocolError,
>)
    ensures
        final(reader)@ == reads_request(old(reader)@, envs as nat, maximum).1,
        match reads_request(old(reader)@, envs as nat, maximum).0 {
            Ok(request) => read matches Ok(found) && found@ == request,
            Err(fault) => read == Err::<Request, ProtocolError>(fault),
        },
{
    let opcode: u8 = match read_u8(reader) {
        Ok(opcode) => opcode,
        Err(fault) => {
            return Err(fault);
        },
    };
    read_request_body(reader, opcode, envs, maximum)
}

/// Read one request, or `None` if the stream ended cleanly between messages.
///
/// A client that simply goes away is a normal shutdown; a client that stops
/// halfway through a message is not, and that difference is only visible here,
/// at the message boundary.
pub fn read_request_or_eof(reader: &mut &[u8], envs: usize, maximum: u64) -> (read: Result<
    Option<Request>,
    ProtocolError,
>)
    ensures
        old(reader)@.len() == 0 ==> (read matches Ok(None)) && final(reader)@ == old(reader)@,
        old(reader)@.len() > 0 ==> {
            &&& final(reader)@ == reads_request(old(reader)@, envs as nat, maximum).1
            &&& match reads_request(old(reader)@, envs as nat, maximum).0 {
                Ok(request) => read matches Ok(Some(found)) && found@ == request,
                Err(fault) => read == Err::<Option<Request>, ProtocolError>(fault),
            }
        },
{
    if reader.len() == 0 {
        return Ok(None);
    }
    match read_request(reader, envs, maximum) {
        Ok(request) => Ok(Some(request)),
        Err(fault) => Err(fault),
    }
}

/// How many bytes the request takes that begins like this, as far as the bytes
/// that have arrived can tell.
///
/// A stream is read until it has given that many; then, and not before, the
/// request can be judged.
pub fn request_needs(arrived: &[u8], maximum: u64) -> (needed: u64)
    ensures
        needed == request_length(arrived@, maximum),
{
    if arrived.len() == 0 {
        1
    } else if arrived[0] == request::STEP {
        if arrived.len() < 5 {
            5
        } else {
            let declared: u64 = u32_at(arrived, 1) as u64 * 8;
            if declared > maximum {
                5
            } else {
                5 + declared
            }
        }
    } else if arrived[0] == request::RESET {
        10
    } else {
        1
    }
}

fn transition_at(bytes: &[u8], at: usize) -> (transition: EnvTransition)
    requires
        at + TRANSITION_WIDTH <= bytes@.len(),
    ensures
        transition == transition_record()(bytes@.subrange(at as int, at + TRANSITION_WIDTH)),
{
    assert(bytes@.len() == bytes.len());
    proof {
        let record = bytes@.subrange(at as int, at + TRANSITION_WIDTH);
        assert(record.subrange(0, 4) =~= bytes@.subrange(at as int, at + 4));
        assert(record.subrange(6, 10) =~= bytes@.subrange(at + 6, at + 10));
        assert(record.subrange(10, 18) =~= bytes@.subrange(at + 10, at + 18));
        assert(record.subrange(19, 27) =~= bytes@.subrange(at + 19, at + 27));
    }
    let reset_seed: u64 = le_at(bytes, at + 19, 8);
    EnvTransition {
        frame: u32_at(bytes, at),
        terminated: bytes[at + 4] != 0,
        truncated: bytes[at + 5] != 0,
        enemy_deaths: u32_at(bytes, at + 6),
        episode_seed: le_at(bytes, at + 10, 8),
        reset_seed: if bytes[at + 18] != 0 { Some(reset_seed) } else { None },
    }
}

fn read_transitions(reader: &mut &[u8], maximum: u64) -> (read: Result<
    Vec<EnvTransition>,
    ProtocolError,
>)
    ensures
        final(reader)@ == reads_counted(
            old(reader)@,
            maximum,
            TRANSITION_WIDTH as nat,
            transition_record(),
        ).1,
        match reads_counted(
            old(reader)@,
            maximum,
            TRANSITION_WIDTH as nat,
            transition_record(),
        ).0 {
            Ok(transitions) => read matches Ok(found) && found@ == transitions,
            Err(fault) => read == Err::<Vec<EnvTransition>, ProtocolError>(fault),
        },
{
    let ghost start = reader@;
    let count: usize = match read_length(reader, maximum) {
        Ok(count) => count,
        Err(fault) => {
            return Err(fault);
        },
    };
    proof {
        lemma_count_bound(start, maximum);
    }
    if !has_records(*reader, count, TRANSITION_WIDTH) {
        return Err(run_out(reader));
    }
    let bytes: &[u8] = *reader;
    assert(bytes@.len() == bytes.len());
    let mut transitions: Vec<EnvTransition> = Vec::new();
    let mut index: usize = 0;
    while index < count
        invariant
            index <= count,
            count * TRANSITION_WIDTH <= bytes@.len() <= usize::MAX,
            transitions@.len() == index,
            forall|k: int|
                0 <= k < index ==> transitions@[k] == record_at(
                    bytes@,
                    k,
                    TRANSITION_WIDTH as nat,
                    transition_record(),
                ),
        decreases count - index,
    {
        transitions.push(transition_at(bytes, index * TRANSITION_WIDTH));
        index = index + 1;
    }
    advance(reader, count * TRANSITION_WIDTH);
    assert(transitions@ =~= Seq::new(
        count as nat,
        |k: int| record_at(bytes@, k, TRANSITION_WIDTH as nat, transition_record()),
    ));
    Ok(transitions)
}

fn read_terminal(reader: &mut &[u8], maximum: u64) -> (read: Result<
    TerminalObservation,
    ProtocolError,
>)
    ensures
        final(reader)@ == reads_terminal(old(reader)@, maximum).1,
        match reads_terminal(old(reader)@, maximum).0 {
            Ok(terminal) => read matches Ok(found) && found@ == terminal,
            Err(fault) => read == Err::<TerminalObservation, ProtocolError>(fault),
        },
{
    let env: u32 = match read_u32(reader) {
        Ok(env) => env,
        Err(fault) => {
            return Err(fault);
        },
    };
    match read_floats(reader, maximum) {
        Ok(observation) => Ok(TerminalObservation { env, observation }),
        Err(fault) => Err(fault),
    }
}

/// A list that cannot be read this far cannot be read any further.
proof fn lemma_terminals_fail(bytes: Seq<u8>, short: nat, long: nat, maximum: u64)
    requires
        short <= long,
        reads_terminals(bytes, short, maximum).0 is Err,
    ensures
        reads_terminals(bytes, long, maximum) == reads_terminals(bytes, short, maximum),
    decreases long,
{
    if short < long {
        lemma_terminals_fail(bytes, short, (long - 1) as nat, maximum);
    }
}

fn read_terminals(reader: &mut &[u8], maximum: u64) -> (read: Result<
    Vec<TerminalObservation>,
    ProtocolError,
>)
    ensures
        final(reader)@ == reads_terminal_list(old(reader)@, maximum).1,
        match reads_terminal_list(old(reader)@, maximum).0 {
            Ok(terminal) => read matches Ok(found) && terminal_views(found@) == terminal,
            Err(fault) => read == Err::<Vec<TerminalObservation>, ProtocolError>(fault),
        },
{
    let count: usize = match read_length(reader, maximum) {
        Ok(count) => count,
        Err(fault) => {
            return Err(fault);
        },
    };
    let ghost start = reader@;
    let mut terminal: Vec<TerminalObservation> = Vec::new();
    let mut index: usize = 0;
    assert(terminal_views(terminal@) =~= Seq::empty());
    while index < count
        invariant
            index <= count,
            start == reads_length(old(reader)@, maximum).1,
            reads_length(old(reader)@, maximum).0 == Ok::<nat, ProtocolError>(count as nat),
            reads_terminals(start, index as nat, maximum) == (
                Ok::<Seq<crate::gym::protocol::TerminalView>, ProtocolError>(
                    terminal_views(terminal@),
                ),
                reader@,
            ),
        decreases count - index,
    {
        let ghost earlier = terminal@;
        match read_terminal(reader, maximum) {
            Ok(item) => {
                terminal.push(item);
                assert(terminal_views(terminal@) =~= terminal_views(earlier).push(item@));
            },
            Err(fault) => {
                proof {
                    lemma_terminals_fail(start, (index + 1) as nat, count as nat, maximum);
                }
                return Err(fault);
            },
        }
        index = index + 1;
    }
    Ok(terminal)
}

/// Read a step response.
pub fn read_step(reader: &mut &[u8], maximum: u64) -> (read: Result<StepBatch, ProtocolError>)
    ensures
        final(reader)@ == reads_step(old(reader)@, maximum).1,
        match reads_step(old(reader)@, maximum).0 {
            Ok(batch) => read matches Ok(found) && found@ == batch,
            Err(fault) => read == Err::<StepBatch, ProtocolError>(fault),
        },
{
    let opcode: u8 = match read_u8(reader) {
        Ok(opcode) => opcode,
        Err(fault) => {
            return Err(fault);
        },
    };
    if opcode != response::STEP {
        return Err(ProtocolError::UnknownOpcode(opcode));
    }
    let transitions: Vec<EnvTransition> = match read_transitions(reader, maximum) {
        Ok(transitions) => transitions,
        Err(fault) => {
            return Err(fault);
        },
    };
    let observations: Vec<u32> = match read_floats(reader, maximum) {
        Ok(observations) => observations,
        Err(fault) => {
            return Err(fault);
        },
    };
    match read_terminals(reader, maximum) {
        Ok(terminal) => Ok(StepBatch { transitions, observations, terminal }),
        Err(fault) => Err(fault),
    }
}

/// Read a reset response.
pub fn read_reset(reader: &mut &[u8], maximum: u64) -> (read: Result<ResetBatch, ProtocolError>)
    ensures
        final(reader)@ == reads_reset(old(reader)@, maximum).1,
        match reads_reset(old(reader)@, maximum).0 {
            Ok(batch) => read matches Ok(found) && found@ == batch,
            Err(fault) => read == Err::<ResetBatch, ProtocolError>(fault),
        },
{
    let opcode: u8 = match read_u8(reader) {
        Ok(opcode) => opcode,
        Err(fault) => {
            return Err(fault);
        },
    };
    if opcode != response::RESET {
        return Err(ProtocolError::UnknownOpcode(opcode));
    }
    let seeds: Vec<u64> = match read_seeds(reader, maximum) {
        Ok(seeds) => seeds,
        Err(fault) => {
            return Err(fault);
        },
    };
    match read_floats(reader, maximum) {
        Ok(observations) => Ok(ResetBatch { seeds, observations }),
        Err(fault) => Err(fault),
    }
}

/// Whether the stream opens with the magic of this protocol.
fn opens_with_magic(bytes: &[u8]) -> (result: bool)
    requires
        bytes@.len() >= 8,
    ensures
        result == (bytes@.take(8) == MAGIC@),
{
    let magic: [u8; 8] = MAGIC;
    let mut index: usize = 0;
    while index < 8
        invariant
            index <= 8,
            magic@.len() == 8,
            magic == MAGIC,
            bytes@.len() >= 8,
            forall|k: int| 0 <= k < index ==> bytes@[k] == magic@[k],
        decreases 8 - index,
    {
        if bytes[index] != magic[index] {
            assert(bytes@.take(8)[index as int] != MAGIC@[index as int]);
            return false;
        }
        index = index + 1;
    }
    assert(bytes@.take(8) =~= MAGIC@);
    true
}

/// Read the stream's opening, up to the handshake document.
///
/// Another program's output is told by its magic, and a version this build
/// cannot read is refused before anything else is.
pub fn read_handshake(reader: &mut &[u8]) -> (read: Result<Vec<u8>, ProtocolError>)
    ensures
        final(reader)@ == reads_handshake(old(reader)@).1,
        match reads_handshake(old(reader)@).0 {
            Ok(document) => read matches Ok(found) && found@ == document,
            Err(fault) => read == Err::<Vec<u8>, ProtocolError>(fault),
        },
{
    if reader.len() < 8 {
        return Err(run_out(reader));
    }
    let known: bool = opens_with_magic(*reader);
    advance(reader, 8);
    if !known {
        return Err(ProtocolError::BadMagic);
    }
    let version: u32 = match read_u32(reader) {
        Ok(version) => version,
        Err(fault) => {
            return Err(fault);
        },
    };
    if version != PROTOCOL_VERSION {
        return Err(ProtocolError::UnsupportedVersion(version));
    }
    let opcode: u8 = match read_u8(reader) {
        Ok(opcode) => opcode,
        Err(fault) => {
            return Err(fault);
        },
    };
    if opcode != response::HANDSHAKE {
        return Err(ProtocolError::UnknownOpcode(opcode));
    }
    read_bytes(reader, HANDSHAKE_MAXIMUM)
}

} // verus!

//! Writing messages to a buffer.

use crate::bits::Vec2;
use crate::gym::protocol::format::{
    direction_wire, terminal_wire, transition_wire, wire_error, wire_handshake, wire_request,
    wire_reset, wire_step,
};
use crate::gym::protocol::{
    request, response, terminal_views, EnvTransition, ProtocolError, Request, ResetBatch,
    StepBatch, TerminalObservation, TerminalView, ERROR_MAXIMUM, MAGIC, PROTOCOL_VERSION,
};
use crate::gym::wire::{
    wire_counted, wire_each, write_all, write_bytes, write_count, write_flag, write_floats,
    write_optional_u64, write_seeds, write_u32, write_u64, write_u8,
};
use vstd::prelude::*;
use vstd::utf8::encode_utf8;

verus! {

fn write_directions(writer: &mut Vec<u8>, actions: &[Vec2])
    ensures
        final(writer)@ == old(writer)@ + wire_counted(actions@, direction_wire()),
{
    write_count(writer, actions.len());
    let ghost start = writer@;
    assert(start + wire_each(actions@.take(0), direction_wire()) =~= start);
    let mut index: usize = 0;
    while index < actions.len()
        invariant
            index <= actions@.len(),
            writer@ == start + wire_each(actions@.take(index as int), direction_wire()),
        decreases actions@.len() - index,
    {
        write_u32(writer, actions[index].x);
        write_u32(writer, actions[index].y);
        proof {
            let longer = actions@.take(index + 1);
            assert(longer.drop_last() =~= actions@.take(index as int));
            assert(writer@ =~= start + wire_each(longer, direction_wire()));
        }
        index = index + 1;
    }
    assert(actions@.take(index as int) =~= actions@);
    assert(writer@ =~= old(writer)@ + wire_counted(actions@, direction_wire()));
}

fn write_transition(writer: &mut Vec<u8>, transition: &EnvTransition)
    ensures
        final(writer)@ == old(writer)@ + transition_wire()(*transition),
{
    write_u32(writer, transition.frame);
    write_flag(writer, transition.terminated);
    write_flag(writer, transition.truncated);
    write_u32(writer, transition.enemy_deaths);
    write_u64(writer, transition.episode_seed);
    // A presence flag, so that seed zero stays a usable seed.
    write_optional_u64(writer, transition.reset_seed);
    assert(writer@ =~= old(writer)@ + transition_wire()(*transition));
}

fn write_transitions(writer: &mut Vec<u8>, transitions: &[EnvTransition])
    ensures
        final(writer)@ == old(writer)@ + wire_counted(transitions@, transition_wire()),
{
    write_count(writer, transitions.len());
    let ghost start = writer@;
    assert(start + wire_each(transitions@.take(0), transition_wire()) =~= start);
    let mut index: usize = 0;
    while index < transitions.len()
        invariant
            index <= transitions@.len(),
            writer@ == start + wire_each(transitions@.take(index as int), transition_wire()),
        decreases transitions@.len() - index,
    {
        write_transition(writer, &transitions[index]);
        proof {
            let longer = transitions@.take(index + 1);
            assert(longer.drop_last() =~= transitions@.take(index as int));
            assert(writer@ =~= start + wire_each(longer, transition_wire()));
        }
        index = index + 1;
    }
    assert(transitions@.take(index as int) =~= transitions@);
    assert(writer@ =~= old(writer)@ + wire_counted(transitions@, transition_wire()));
}

fn write_terminals(writer: &mut Vec<u8>, terminal: &[TerminalObservation])
    ensures
        final(writer)@ == old(writer)@ + wire_counted(
            terminal_views(terminal@),
            terminal_wire(),
        ),
{
    let ghost items: Seq<TerminalView> = terminal_views(terminal@);
    write_count(writer, terminal.len());
    let ghost start = writer@;
    assert(start + wire_each(items.take(0), terminal_wire()) =~= start);
    let mut index: usize = 0;
    while index < terminal.len()
        invariant
            index <= terminal@.len(),
            items == terminal_views(terminal@),
            writer@ == start + wire_each(items.take(index as int), terminal_wire()),
        decreases terminal@.len() - index,
    {
        write_u32(writer, terminal[index].env);
        write_floats(writer, terminal[index].observation.as_slice());
        proof {
            let longer = items.take(index + 1);
            assert(longer.drop_last() =~= items.take(index as int));
            assert(longer.last() == terminal@[index as int]@);
            assert(writer@ =~= start + wire_each(longer, terminal_wire()));
        }
        index = index + 1;
    }
    assert(items.take(index as int) =~= items);
    assert(writer@ =~= old(writer)@ + wire_counted(items, terminal_wire()));
}

/// Announce the stream: magic, version, then the handshake document.
pub fn write_handshake(writer: &mut Vec<u8>, document: &[u8]) -> (written: Result<
    (),
    ProtocolError,
>)
    ensures
        written is Ok,
        final(writer)@ == old(writer)@ + wire_handshake(document@),
{
    write_all(writer, &MAGIC);
    write_u32(writer, PROTOCOL_VERSION);
    write_u8(writer, response::HANDSHAKE);
    write_bytes(writer, document);
    assert(writer@ =~= old(writer)@ + wire_handshake(document@));
    Ok(())
}

/// Send one step's results.
pub fn write_step(writer: &mut Vec<u8>, batch: &StepBatch) -> (written: Result<
    (),
    ProtocolError,
>)
    ensures
        written is Ok,
        final(writer)@ == old(writer)@ + wire_step(batch@),
{
    write_u8(writer, response::STEP);
    write_transitions(writer, batch.transitions.as_slice());
    write_floats(writer, batch.observations.as_slice());
    write_terminals(writer, batch.terminal.as_slice());
    assert(writer@ =~= old(writer)@ + wire_step(batch@));
    Ok(())
}

/// Send a reset's results: no transition, and so no reward, ever.
pub fn write_reset(writer: &mut Vec<u8>, batch: &ResetBatch) -> (written: Result<
    (),
    ProtocolError,
>)
    ensures
        written is Ok,
        final(writer)@ == old(writer)@ + wire_reset(batch@),
{
    write_u8(writer, response::RESET);
    write_seeds(writer, batch.seeds.as_slice());
    write_floats(writer, batch.observations.as_slice());
    assert(writer@ =~= old(writer)@ + wire_reset(batch@));
    Ok(())
}

/// Acknowledge a close.
pub fn write_closed(writer: &mut Vec<u8>) -> (written: Result<(), ProtocolError>)
    ensures
        written is Ok,
        final(writer)@ == old(writer)@ + seq![response::CLOSED],
{
    write_u8(writer, response::CLOSED);
    Ok(())
}

/// Report a failure that ends the session; never a partial batch.
///
/// The diagnostic is bounded: it must never become a denial of service.
pub fn write_error(writer: &mut Vec<u8>, code: u32, message: &str) -> (written: Result<
    (),
    ProtocolError,
>)
    ensures
        written is Ok,
        final(writer)@ == old(writer)@ + wire_error(code, encode_utf8(message@)),
{
    write_u8(writer, response::ERROR);
    write_u32(writer, code);
    let bytes: &[u8] = message.as_bytes();
    let length: usize = bytes.len();
    let kept: usize = if length > ERROR_MAXIMUM { ERROR_MAXIMUM } else { length };
    let cut: &[u8] = vstd::slice::slice_subrange(bytes, 0, kept);
    assert(cut@ =~= bytes@.take(kept as int));
    write_bytes(writer, cut);
    assert(writer@ =~= old(writer)@ + wire_error(code, encode_utf8(message@)));
    Ok(())
}

/// Send one request.
pub fn write_request(writer: &mut Vec<u8>, request: &Request) -> (written: Result<
    (),
    ProtocolError,
>)
    ensures
        written is Ok,
        final(writer)@ == old(writer)@ + wire_request(request@),
{
    match request {
        Request::Step(actions) => {
            write_u8(writer, request::STEP);
            write_directions(writer, actions.as_slice());
        },
        Request::Reset(seed) => {
            write_u8(writer, request::RESET);
            write_optional_u64(writer, *seed);
        },
        Request::Close => {
            write_u8(writer, request::CLOSE);
        },
    }
    assert(writer@ =~= old(writer)@ + wire_request(request@));
    Ok(())
}

} // verus!

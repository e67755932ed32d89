//! What holds of writing and reading together.

use crate::bits::{finite, Vec2};
use crate::gym::protocol::format::{
    direction_record, direction_wire, first_unusable, judge_actions, reads_handshake, reads_request, reads_reset,
    reads_step, reads_step_tail, reads_terminal, reads_terminal_list, reads_terminals,
    request_length, terminal_wire, transition_record, transition_wire, wire_error, wire_handshake,
    wire_request, wire_reset, wire_step, TRANSITION_WIDTH,
};
use crate::gym::protocol::{
    payload_bound, request, response, EnvTransition, ProtocolError, RequestView, ResetView,
    StepView, TerminalView, ERROR_MAXIMUM, HANDSHAKE_MAXIMUM, MAGIC, PROTOCOL_VERSION,
};
use crate::gym::wire::{
    float_record, float_wire, law_le_round_trip, le_value, lemma_float_wire, lemma_le_bytes_len,
    lemma_reads_counted, lemma_reads_le, lemma_reads_records, lemma_seed_wire, lemma_spans,
    lemma_wire_each, reads_counted, seed_record, seed_wire, wire_count, wire_counted, wire_each,
    wire_optional_u64, wire_u32, wire_u64,
};
use vstd::prelude::*;

verus! {

/// A list whose count the wire can hold and the reader accepts.
pub open spec fn countable(length: nat, maximum: u64) -> bool {
    length <= u32::MAX && length <= maximum
}

/// A request the server accepts: a step names every env with a finite
/// direction and is no larger than the maximum.
pub open spec fn acceptable(request: RequestView, envs: nat, maximum: u64) -> bool {
    match request {
        RequestView::Step(actions) => {
            &&& actions.len() == envs
            &&& actions.len() <= u32::MAX
            &&& actions.len() * 8 <= maximum
            &&& forall|env: int| 0 <= env < actions.len() ==> (#[trigger] actions[env]).finite()
        },
        _ => true,
    }
}

/// A step response whose every list is countable.
pub open spec fn sendable_step(batch: StepView, maximum: u64) -> bool {
    &&& countable(batch.transitions.len(), maximum)
    &&& countable(batch.observations.len(), maximum)
    &&& countable(batch.terminal.len(), maximum)
    &&& forall|index: int|
        0 <= index < batch.terminal.len() ==> countable(
            (#[trigger] batch.terminal[index]).observation.len(),
            maximum,
        )
}

/// A reset response whose every list is countable.
pub open spec fn sendable_reset(batch: ResetView, maximum: u64) -> bool {
    &&& countable(batch.seeds.len(), maximum)
    &&& countable(batch.observations.len(), maximum)
}

proof fn lemma_direction_wire()
    ensures
        forall|item: Vec2|
            (#[trigger] direction_wire()(item)).len() == 8 && direction_record()(
                direction_wire()(item),
            ) == item,
{
    assert forall|item: Vec2|
        (#[trigger] direction_wire()(item)).len() == 8 && direction_record()(
            direction_wire()(item),
        ) == item by {
        lemma_spans();
        law_le_round_trip(item.x as nat, 4);
        law_le_round_trip(item.y as nat, 4);
        let bytes = direction_wire()(item);
        assert(bytes.subrange(0, 4) =~= wire_u32(item.x));
        assert(bytes.subrange(4, 8) =~= wire_u32(item.y));
    }
}

proof fn lemma_optional_wire(value: Option<u64>)
    ensures
        wire_optional_u64(value).len() == 9,
        wire_optional_u64(value)[0] != 0 <==> value is Some,
        value matches Some(seed) ==> le_value(wire_optional_u64(value).subrange(1, 9)) == seed,
{
    lemma_spans();
    let seed = match value {
        Some(seed) => seed,
        None => 0u64,
    };
    law_le_round_trip(seed as nat, 8);
    assert(wire_optional_u64(value).subrange(1, 9) =~= wire_u64(seed));
}

proof fn lemma_transition_wire()
    ensures
        forall|item: EnvTransition|
            (#[trigger] transition_wire()(item)).len() == TRANSITION_WIDTH && transition_record()(
                transition_wire()(item),
            ) == item,
{
    assert forall|item: EnvTransition|
        (#[trigger] transition_wire()(item)).len() == TRANSITION_WIDTH && transition_record()(
            transition_wire()(item),
        ) == item by {
        lemma_spans();
        law_le_round_trip(item.frame as nat, 4);
        law_le_round_trip(item.enemy_deaths as nat, 4);
        law_le_round_trip(item.episode_seed as nat, 8);
        lemma_optional_wire(item.reset_seed);
        let bytes = transition_wire()(item);
        assert(bytes.subrange(0, 4) =~= wire_u32(item.frame));
        assert(bytes.subrange(6, 10) =~= wire_u32(item.enemy_deaths));
        assert(bytes.subrange(10, 18) =~= wire_u64(item.episode_seed));
        let tail = wire_optional_u64(item.reset_seed);
        assert(bytes[18] == tail[0]);
        assert(bytes.subrange(19, 27) =~= tail.subrange(1, 9));
    }
}

proof fn lemma_all_usable(actions: Seq<Vec2>, from: int)
    requires
        0 <= from,
        forall|env: int| 0 <= env < actions.len() ==> (#[trigger] actions[env]).finite(),
    ensures
        first_unusable(actions, from) is None,
    decreases actions.len() - from,
{
    if from < actions.len() {
        lemma_all_usable(actions, from + 1);
    }
}

/// A request the server accepts is read back exactly, whatever follows it.
pub proof fn law_request_round_trip(
    request: RequestView,
    envs: nat,
    maximum: u64,
    rest: Seq<u8>,
)
    requires
        acceptable(request, envs, maximum),
    ensures
        reads_request(wire_request(request) + rest, envs, maximum) == (
            Ok::<RequestView, ProtocolError>(request),
            rest,
        ),
{
    let all = wire_request(request) + rest;
    match request {
        RequestView::Step(actions) => {
            lemma_direction_wire();
            lemma_spans();
            let body = wire_each(actions, direction_wire());
            let count = wire_u32(wire_count(actions.len()));
            assert(all.skip(1) =~= count + (body + rest));
            lemma_reads_le(actions.len(), 4, body + rest);
            lemma_reads_records(actions, direction_wire(), 8, direction_record(), rest);
            lemma_all_usable(actions, 0);
        },
        RequestView::Reset(seed) => {
            lemma_optional_wire(seed);
            let body = all.skip(1);
            assert(body =~= wire_optional_u64(seed) + rest);
            assert(body.subrange(1, 9) =~= wire_optional_u64(seed).subrange(1, 9));
            assert(body.skip(9) =~= rest);
        },
        RequestView::Close => {
            assert(all.skip(1) =~= rest);
        },
    }
}

proof fn lemma_reads_terminal(terminal: TerminalView, maximum: u64, rest: Seq<u8>)
    requires
        countable(terminal.observation.len(), maximum),
    ensures
        reads_terminal(terminal_wire()(terminal) + rest, maximum) == (
            Ok::<TerminalView, ProtocolError>(terminal),
            rest,
        ),
{
    let values = wire_counted(terminal.observation, float_wire());
    lemma_spans();
    lemma_float_wire();
    assert(terminal_wire()(terminal) + rest =~= wire_u32(terminal.env) + (values + rest));
    lemma_reads_le(terminal.env as nat, 4, values + rest);
    lemma_reads_counted(terminal.observation, float_wire(), 4, float_record(), maximum, rest);
}

proof fn lemma_reads_terminals(items: Seq<TerminalView>, maximum: u64, rest: Seq<u8>)
    requires
        forall|index: int|
            0 <= index < items.len() ==> countable(
                (#[trigger] items[index]).observation.len(),
                maximum,
            ),
    ensures
        reads_terminals(wire_each(items, terminal_wire()) + rest, items.len(), maximum) == (
            Ok::<Seq<TerminalView>, ProtocolError>(items),
            rest,
        ),
    decreases items.len(),
{
    if items.len() == 0 {
        assert(wire_each(items, terminal_wire()) + rest =~= rest);
        assert(items =~= Seq::empty());
    } else {
        let earlier = items.drop_last();
        let last = terminal_wire()(items.last());
        assert(wire_each(items, terminal_wire()) + rest =~= wire_each(earlier, terminal_wire()) + (
        last + rest));
        lemma_reads_terminals(earlier, maximum, last + rest);
        lemma_reads_terminal(items.last(), maximum, rest);
        assert(earlier.push(items.last()) =~= items);
    }
}

proof fn lemma_reads_terminal_list(items: Seq<TerminalView>, maximum: u64, rest: Seq<u8>)
    requires
        countable(items.len(), maximum),
        forall|index: int|
            0 <= index < items.len() ==> countable(
                (#[trigger] items[index]).observation.len(),
                maximum,
            ),
    ensures
        reads_terminal_list(wire_counted(items, terminal_wire()) + rest, maximum) == (
            Ok::<Seq<TerminalView>, ProtocolError>(items),
            rest,
        ),
{
    let body = wire_each(items, terminal_wire());
    lemma_spans();
    lemma_reads_le(items.len(), 4, body + rest);
    assert(wire_counted(items, terminal_wire()) + rest =~= wire_u32(wire_count(items.len())) + (
    body + rest));
    lemma_reads_terminals(items, maximum, rest);
}

/// A step response is read back exactly, whatever follows it.
pub proof fn law_step_round_trip(batch: StepView, maximum: u64, rest: Seq<u8>)
    requires
        sendable_step(batch, maximum),
    ensures
        reads_step(wire_step(batch) + rest, maximum) == (
            Ok::<StepView, ProtocolError>(batch),
            rest,
        ),
{
    let transitions = wire_counted(batch.transitions, transition_wire());
    let observations = wire_counted(batch.observations, float_wire());
    let terminal = wire_counted(batch.terminal, terminal_wire());
    let all = wire_step(batch) + rest;
    assert(all.skip(1) =~= transitions + (observations + (terminal + rest)));
    lemma_transition_wire();
    lemma_float_wire();
    lemma_reads_counted(
        batch.transitions,
        transition_wire(),
        TRANSITION_WIDTH as nat,
        transition_record(),
        maximum,
        observations + (terminal + rest),
    );
    lemma_reads_counted(
        batch.observations,
        float_wire(),
        4,
        float_record(),
        maximum,
        terminal + rest,
    );
    lemma_reads_terminal_list(batch.terminal, maximum, rest);
}

/// A reset response is read back exactly, whatever follows it.
pub proof fn law_reset_round_trip(batch: ResetView, maximum: u64, rest: Seq<u8>)
    requires
        sendable_reset(batch, maximum),
    ensures
        reads_reset(wire_reset(batch) + rest, maximum) == (
            Ok::<ResetView, ProtocolError>(batch),
            rest,
        ),
{
    let seeds = wire_counted(batch.seeds, seed_wire());
    let observations = wire_counted(batch.observations, float_wire());
    let all = wire_reset(batch) + rest;
    assert(all.skip(1) =~= seeds + (observations + rest));
    lemma_seed_wire();
    lemma_float_wire();
    lemma_reads_counted(
        batch.seeds,
        seed_wire(),
        8,
        seed_record(),
        maximum,
        observations + rest,
    );
    lemma_reads_counted(batch.observations, float_wire(), 4, float_record(), maximum, rest);
}

/// A handshake document is read back exactly, whatever follows it.
pub proof fn law_handshake_round_trip(document: Seq<u8>, rest: Seq<u8>)
    requires
        document.len() <= HANDSHAKE_MAXIMUM,
    ensures
        reads_handshake(wire_handshake(document) + rest) == (
            Ok::<Seq<u8>, ProtocolError>(document),
            rest,
        ),
{
    let all = wire_handshake(document) + rest;
    let count = wire_u32(wire_count(document.len()));
    lemma_spans();
    lemma_le_bytes_len(PROTOCOL_VERSION as nat, 4);
    lemma_le_bytes_len(document.len(), 4);
    assert(all.take(8) =~= MAGIC@);
    let after_magic = seq![response::HANDSHAKE] + count + document + rest;
    assert(all.skip(8) =~= wire_u32(PROTOCOL_VERSION) + after_magic);
    lemma_reads_le(PROTOCOL_VERSION as nat, 4, after_magic);
    assert(after_magic.skip(1) =~= count + (document + rest));
    lemma_reads_le(document.len(), 4, document + rest);
    let tail = document + rest;
    assert(tail.take(document.len() as int) =~= document);
    assert(tail.skip(document.len() as int) =~= rest);
}

/// Bytes that end inside a counted list of fixed records are truncated.
proof fn lemma_cut_counted<T>(
    items: Seq<T>,
    wire: spec_fn(T) -> Seq<u8>,
    width: nat,
    record: spec_fn(Seq<u8>) -> T,
    maximum: u64,
    kept: int,
)
    requires
        forall|item: T| (#[trigger] wire(item)).len() == width,
        countable(items.len(), maximum),
        0 <= kept < wire_counted(items, wire).len(),
    ensures
        reads_counted(wire_counted(items, wire).take(kept), maximum, width, record).0 == Err::<
            Seq<T>,
            ProtocolError,
        >(ProtocolError::Truncated),
{
    let all = wire_counted(items, wire);
    let cut = all.take(kept);
    lemma_spans();
    law_le_round_trip(items.len(), 4);
    lemma_wire_each(items, wire, width);
    if kept >= 4 {
        assert(cut.take(4) =~= wire_u32(wire_count(items.len())));
        assert(cut.skip(4).len() < items.len() * width);
    }
}

/// A request that ends early is truncated, never a shorter request.
pub proof fn law_cut_request(request: RequestView, envs: nat, maximum: u64, kept: int)
    requires
        acceptable(request, envs, maximum),
        0 <= kept < wire_request(request).len(),
    ensures
        reads_request(wire_request(request).take(kept), envs, maximum).0 == Err::<
            RequestView,
            ProtocolError,
        >(ProtocolError::Truncated),
{
    let all = wire_request(request);
    let cut = all.take(kept);
    if kept > 0 {
        match request {
            RequestView::Step(actions) => {
                lemma_direction_wire();
                lemma_spans();
                law_le_round_trip(actions.len(), 4);
                lemma_wire_each(actions, direction_wire(), 8);
                if kept >= 5 {
                    assert(cut.skip(1).take(4) =~= wire_u32(wire_count(actions.len())));
                    assert(cut.skip(1).skip(4).len() < actions.len() * 8);
                }
            },
            RequestView::Reset(seed) => {
                lemma_optional_wire(seed);
            },
            RequestView::Close => {},
        }
    }
}

/// A reset response that ends early is truncated, never a shorter response.
pub proof fn law_cut_reset(batch: ResetView, maximum: u64, kept: int)
    requires
        sendable_reset(batch, maximum),
        0 <= kept < wire_reset(batch).len(),
    ensures
        reads_reset(wire_reset(batch).take(kept), maximum).0 == Err::<ResetView, ProtocolError>(
            ProtocolError::Truncated,
        ),
{
    let seeds = wire_counted(batch.seeds, seed_wire());
    let observations = wire_counted(batch.observations, float_wire());
    let cut = wire_reset(batch).take(kept);
    lemma_seed_wire();
    lemma_float_wire();
    if kept > 0 {
        let body = cut.skip(1);
        if kept - 1 < seeds.len() {
            assert(body =~= seeds.take(kept - 1));
            lemma_cut_counted(
                batch.seeds,
                seed_wire(),
                8,
                seed_record(),
                maximum,
                kept - 1,
            );
        } else {
            let left = kept - 1 - seeds.len();
            assert(body =~= seeds + observations.take(left));
            lemma_reads_counted(
                batch.seeds,
                seed_wire(),
                8,
                seed_record(),
                maximum,
                observations.take(left),
            );
            lemma_cut_counted(
                batch.observations,
                float_wire(),
                4,
                float_record(),
                maximum,
                left,
            );
        }
    }
}

proof fn lemma_cut_terminal(terminal: TerminalView, maximum: u64, kept: int)
    requires
        countable(terminal.observation.len(), maximum),
        0 <= kept < terminal_wire()(terminal).len(),
    ensures
        reads_terminal(terminal_wire()(terminal).take(kept), maximum).0 == Err::<
            TerminalView,
            ProtocolError,
        >(ProtocolError::Truncated),
{
    let values = wire_counted(terminal.observation, float_wire());
    let cut = terminal_wire()(terminal).take(kept);
    lemma_spans();
    lemma_float_wire();
    lemma_le_bytes_len(terminal.env as nat, 4);
    if kept >= 4 {
        assert(cut =~= wire_u32(terminal.env) + values.take(kept - 4));
        lemma_reads_le(terminal.env as nat, 4, values.take(kept - 4));
        lemma_cut_counted(
            terminal.observation,
            float_wire(),
            4,
            float_record(),
            maximum,
            kept - 4,
        );
    }
}

proof fn lemma_cut_terminals(items: Seq<TerminalView>, maximum: u64, kept: int)
    requires
        forall|index: int|
            0 <= index < items.len() ==> countable(
                (#[trigger] items[index]).observation.len(),
                maximum,
            ),
        0 <= kept < wire_each(items, terminal_wire()).len(),
    ensures
        reads_terminals(
            wire_each(items, terminal_wire()).take(kept),
            items.len(),
            maximum,
        ).0 == Err::<Seq<TerminalView>, ProtocolError>(ProtocolError::Truncated),
    decreases items.len(),
{
    let all = wire_each(items, terminal_wire());
    let earlier = items.drop_last();
    let head = wire_each(earlier, terminal_wire());
    let last = terminal_wire()(items.last());
    if kept < head.len() {
        assert(all.take(kept) =~= head.take(kept));
        lemma_cut_terminals(earlier, maximum, kept);
    } else {
        let left = kept - head.len();
        assert(all.take(kept) =~= head + last.take(left));
        lemma_reads_terminals(earlier, maximum, last.take(left));
        lemma_cut_terminal(items.last(), maximum, left);
    }
}

proof fn lemma_cut_terminal_list(items: Seq<TerminalView>, maximum: u64, kept: int)
    requires
        countable(items.len(), maximum),
        forall|index: int|
            0 <= index < items.len() ==> countable(
                (#[trigger] items[index]).observation.len(),
                maximum,
            ),
        0 <= kept < wire_counted(items, terminal_wire()).len(),
    ensures
        reads_terminal_list(wire_counted(items, terminal_wire()).take(kept), maximum).0 == Err::<
            Seq<TerminalView>,
            ProtocolError,
        >(ProtocolError::Truncated),
{
    let count = wire_u32(wire_count(items.len()));
    let body = wire_each(items, terminal_wire());
    let cut = wire_counted(items, terminal_wire()).take(kept);
    lemma_spans();
    lemma_le_bytes_len(items.len(), 4);
    if kept >= 4 {
        assert(cut =~= count + body.take(kept - 4));
        lemma_reads_le(items.len(), 4, body.take(kept - 4));
        lemma_cut_terminals(items, maximum, kept - 4);
    }
}

proof fn lemma_cut_step_tail(batch: StepView, maximum: u64, kept: int)
    requires
        sendable_step(batch, maximum),
        0 <= kept < (wire_counted(batch.observations, float_wire()) + wire_counted(
            batch.terminal,
            terminal_wire(),
        )).len(),
    ensures
        reads_step_tail(
            (wire_counted(batch.observations, float_wire()) + wire_counted(
                batch.terminal,
                terminal_wire(),
            )).take(kept),
            maximum,
        ).0 == Err::<(Seq<u32>, Seq<TerminalView>), ProtocolError>(ProtocolError::Truncated),
{
    let observations = wire_counted(batch.observations, float_wire());
    let terminal = wire_counted(batch.terminal, terminal_wire());
    let tail = (observations + terminal).take(kept);
    lemma_float_wire();
    if kept < observations.len() {
        assert(tail =~= observations.take(kept));
        lemma_cut_counted(
            batch.observations,
            float_wire(),
            4,
            float_record(),
            maximum,
            kept,
        );
    } else {
        let left = kept - observations.len();
        assert(tail =~= observations + terminal.take(left));
        lemma_reads_counted(
            batch.observations,
            float_wire(),
            4,
            float_record(),
            maximum,
            terminal.take(left),
        );
        lemma_cut_terminal_list(batch.terminal, maximum, left);
    }
}

/// A step response that ends early is truncated, never a shorter batch.
pub proof fn law_cut_step(batch: StepView, maximum: u64, kept: int)
    requires
        sendable_step(batch, maximum),
        0 <= kept < wire_step(batch).len(),
    ensures
        reads_step(wire_step(batch).take(kept), maximum).0 == Err::<StepView, ProtocolError>(
            ProtocolError::Truncated,
        ),
{
    let transitions = wire_counted(batch.transitions, transition_wire());
    let tail = wire_counted(batch.observations, float_wire()) + wire_counted(
        batch.terminal,
        terminal_wire(),
    );
    let cut = wire_step(batch).take(kept);
    assert(wire_step(batch) =~= seq![response::STEP] + (transitions + tail));
    if kept > 0 {
        let body = cut.skip(1);
        let left = kept - 1;
        assert(body =~= (transitions + tail).take(left));
        lemma_transition_wire();
        if left < transitions.len() {
            assert(body =~= transitions.take(left));
            lemma_cut_counted(
                batch.transitions,
                transition_wire(),
                TRANSITION_WIDTH as nat,
                transition_record(),
                maximum,
                left,
            );
        } else {
            let more = left - transitions.len();
            assert(body =~= transitions + tail.take(more));
            lemma_reads_counted(
                batch.transitions,
                transition_wire(),
                TRANSITION_WIDTH as nat,
                transition_record(),
                maximum,
                tail.take(more),
            );
            lemma_cut_step_tail(batch, maximum, more);
        }
    }
}

/// An opening that ends early is truncated, never a shorter document.
pub proof fn law_cut_handshake(document: Seq<u8>, kept: int)
    requires
        document.len() <= HANDSHAKE_MAXIMUM,
        0 <= kept < wire_handshake(document).len(),
    ensures
        reads_handshake(wire_handshake(document).take(kept)).0 == Err::<Seq<u8>, ProtocolError>(
            ProtocolError::Truncated,
        ),
{
    let cut = wire_handshake(document).take(kept);
    lemma_spans();
    law_le_round_trip(PROTOCOL_VERSION as nat, 4);
    law_le_round_trip(document.len(), 4);
    if kept >= 8 {
        assert(cut.take(8) =~= MAGIC@);
        if kept >= 12 {
            assert(cut.skip(8).take(4) =~= wire_u32(PROTOCOL_VERSION));
            if kept >= 17 {
                assert(cut.skip(8).skip(4).skip(1).take(4) =~= wire_u32(
                    wire_count(document.len()),
                ));
            }
        }
    }
}

/// The bytes a request needs are exactly those that decide it: with fewer it is
/// truncated, and what follows them changes nothing.
pub proof fn law_request_length(bytes: Seq<u8>, envs: nat, maximum: u64)
    ensures
        bytes.len() < request_length(bytes, maximum) ==> reads_request(bytes, envs, maximum).0
            == Err::<RequestView, ProtocolError>(ProtocolError::Truncated),
        bytes.len() >= request_length(bytes, maximum) ==> {
            let needed = request_length(bytes, maximum) as int;
            &&& reads_request(bytes, envs, maximum).0 == reads_request(
                bytes.take(needed),
                envs,
                maximum,
            ).0
            &&& reads_request(bytes, envs, maximum).0 != Err::<RequestView, ProtocolError>(
                ProtocolError::Truncated,
            )
            &&& reads_request(bytes, envs, maximum).1 == bytes.skip(needed)
        },
{
    let needed = request_length(bytes, maximum) as int;
    if bytes.len() > 0 && bytes[0] == request::STEP && bytes.len() >= 5 {
        let body = bytes.skip(1);
        assert(body.take(4) =~= bytes.subrange(1, 5));
        let count = le_value(bytes.subrange(1, 5));
        if bytes.len() >= needed {
            let short = bytes.take(needed).skip(1);
            assert(short.take(4) =~= bytes.subrange(1, 5));
            assert(body.skip(4) =~= bytes.skip(5));
            if count * 8 <= maximum {
                assert(bytes.skip(5).skip((count * 8) as int) =~= bytes.skip(needed));
            }
            assert(short.skip(4) =~= bytes.subrange(5, needed));
            if count * 8 <= maximum {
                let long = bytes.skip(5);
                let exact = bytes.subrange(5, needed);
                let read_long = Seq::new(
                    count,
                    |index: int|
                        crate::gym::wire::record_at(long, index, 8, direction_record()),
                );
                let read_exact = Seq::new(
                    count,
                    |index: int|
                        crate::gym::wire::record_at(exact, index, 8, direction_record()),
                );
                assert forall|index: int| 0 <= index < count implies read_long[index]
                    == read_exact[index] by {
                    assert(long.subrange(index * 8, index * 8 + 8) =~= exact.subrange(
                        index * 8,
                        index * 8 + 8,
                    ));
                }
                assert(read_long =~= read_exact);
            }
        }
    } else if bytes.len() > 0 && bytes[0] == request::RESET && bytes.len() >= 10 {
        let body = bytes.skip(1);
        let short = bytes.take(10).skip(1);
        assert(body.subrange(1, 9) =~= short.subrange(1, 9));
        assert(body.skip(9) =~= bytes.skip(10));
    }
}

/// A diagnostic never grows an error record beyond a fixed size.
pub proof fn law_error_bounded(code: u32, message: Seq<u8>)
    ensures
        wire_error(code, message).len() <= 9 + ERROR_MAXIMUM,
{
    lemma_le_bytes_len(code as nat, 4);
    let kept = message.take(
        crate::gym::protocol::capped(message.len() as int, ERROR_MAXIMUM as int),
    );
    lemma_le_bytes_len(wire_count(kept.len()) as nat, 4);
}

/// The largest batch a session can send is accepted under its own bound: every
/// env reporting an observation, and at most one terminal one each.
pub proof fn law_full_batch_fits(envs: u32, values: usize, batch: StepView)
    requires
        batch.transitions.len() == envs,
        batch.observations.len() == envs * values,
        envs * values <= u32::MAX,
        batch.terminal.len() <= envs,
        forall|index: int|
            0 <= index < batch.terminal.len() ==> (
            #[trigger] batch.terminal[index]).observation.len() == values,
        values <= u32::MAX,
    ensures
        sendable_step(batch, payload_bound(envs, values) as u64),
        0 <= payload_bound(envs, values) <= u64::MAX,
{
    let bound = payload_bound(envs, values);
    let per_env = crate::gym::protocol::capped(
        crate::gym::protocol::capped(values * 4, usize::MAX as int) + 64,
        usize::MAX as int,
    );
    assert(per_env >= values && per_env >= 1);
    assert((envs + 1) * per_env >= envs * values && (envs + 1) * per_env >= values && (envs + 1)
        * per_env >= envs) by (nonlinear_arith)
        requires
            per_env >= values,
            per_env >= 1,
            envs >= 0,
            values >= 0,
    ;
    assert(bound >= envs * values && bound >= values && bound >= envs);
}

/// Where each part of a transition stands among its bytes: the frame, the two
/// reasons it may have ended for, the deaths, the seed, and the seed that comes
/// next behind its flag.
pub proof fn law_transitions_on_the_wire(transition: EnvTransition)
    ensures
        ({
            let bytes = transition_wire()(transition);
            &&& bytes.len() == 27
            &&& le_value(bytes.subrange(0, 4)) == transition.frame
            &&& bytes[4] == 1 <==> transition.terminated
            &&& bytes[5] == 1 <==> transition.truncated
            &&& bytes[4] <= 1 && bytes[5] <= 1 && bytes[18] <= 1
            &&& le_value(bytes.subrange(6, 10)) == transition.enemy_deaths
            &&& le_value(bytes.subrange(10, 18)) == transition.episode_seed
            &&& bytes[18] == 1 <==> transition.reset_seed is Some
            &&& transition.reset_seed matches Some(seed) ==> le_value(bytes.subrange(19, 27))
                == seed
        }),
{
    lemma_spans();
    law_le_round_trip(transition.frame as nat, 4);
    law_le_round_trip(transition.enemy_deaths as nat, 4);
    law_le_round_trip(transition.episode_seed as nat, 8);
    lemma_optional_wire(transition.reset_seed);
    let bytes = transition_wire()(transition);
    let tail = wire_optional_u64(transition.reset_seed);
    assert(bytes.subrange(0, 4) =~= wire_u32(transition.frame));
    assert(bytes.subrange(6, 10) =~= wire_u32(transition.enemy_deaths));
    assert(bytes.subrange(10, 18) =~= wire_u64(transition.episode_seed));
    assert(bytes[18] == tail[0]);
    assert(bytes.subrange(19, 27) =~= tail.subrange(1, 9));
    assert(tail[0] <= 1);
}

/// A direction is its x and then its y, four bytes each; a last frame is its env
/// and then its values.
pub proof fn law_directions_on_the_wire(direction: Vec2, terminal: TerminalView)
    ensures
        direction_wire()(direction).len() == 8,
        le_value(direction_wire()(direction).subrange(0, 4)) == direction.x,
        le_value(direction_wire()(direction).subrange(4, 8)) == direction.y,
        le_value(terminal_wire()(terminal).subrange(0, 4)) == terminal.env,
        terminal_wire()(terminal).skip(4) == wire_counted(terminal.observation, float_wire()),
{
    lemma_spans();
    law_le_round_trip(direction.x as nat, 4);
    law_le_round_trip(direction.y as nat, 4);
    law_le_round_trip(terminal.env as nat, 4);
    assert(direction_wire()(direction).subrange(0, 4) =~= wire_u32(direction.x));
    assert(direction_wire()(direction).subrange(4, 8) =~= wire_u32(direction.y));
    assert(terminal_wire()(terminal).subrange(0, 4) =~= wire_u32(terminal.env));
    assert(terminal_wire()(terminal).skip(4) =~= wire_counted(
        terminal.observation,
        float_wire(),
    ));
}

/// Every message begins with an opcode of its own, and no request begins like a
/// response.
pub proof fn law_messages_begin_with_their_opcode(
    actions: Seq<Vec2>,
    seed: Option<u64>,
    step: StepView,
    reset: ResetView,
    code: u32,
    message: Seq<u8>,
)
    ensures
        wire_request(RequestView::Step(actions))[0] == 0x01,
        wire_request(RequestView::Reset(seed))[0] == 0x02,
        wire_request(RequestView::Close) == seq![0x03u8],
        wire_step(step)[0] == 0x82,
        wire_reset(reset)[0] == 0x83,
        wire_error(code, message)[0] == 0xff,
{
}

/// A step request is taken only if it names every env, and then only if every
/// direction is finite; otherwise the count that came, or the first env whose
/// direction is not finite, is reported.
pub proof fn law_steps_are_judged(actions: Seq<Vec2>, envs: nat, first: int)
    requires
        envs <= u32::MAX,
        actions.len() <= u32::MAX,
    ensures
        actions.len() != envs ==> judge_actions(actions, envs) == Err::<RequestView, ProtocolError>(
            ProtocolError::ActionCount { got: actions.len() as usize, expected: envs as usize },
        ),
        actions.len() == envs && (forall|env: int|
            0 <= env < envs ==> finite((#[trigger] actions[env]).x) && finite(actions[env].y))
            ==> judge_actions(actions, envs) == Ok::<RequestView, ProtocolError>(
            RequestView::Step(actions),
        ),
        actions.len() == envs && 0 <= first < envs && (!finite(actions[first].x) || !finite(
            actions[first].y,
        )) && (forall|env: int|
            0 <= env < first ==> finite((#[trigger] actions[env]).x) && finite(actions[env].y))
            ==> judge_actions(actions, envs) == Err::<RequestView, ProtocolError>(
            ProtocolError::InvalidAction { env: first as u32 },
        ),
{
    if actions.len() == envs {
        if forall|env: int|
            0 <= env < envs ==> finite((#[trigger] actions[env]).x) && finite(actions[env].y) {
            assert forall|env: int| 0 <= env < actions.len() implies (
            #[trigger] actions[env]).finite() by {}
            lemma_all_usable(actions, 0);
        }
        if 0 <= first < envs && !actions[first].finite() && (forall|env: int|
            0 <= env < first ==> finite((#[trigger] actions[env]).x) && finite(actions[env].y)) {
            lemma_first_unusable(actions, 0, first);
        }
    }
}

proof fn lemma_first_unusable(actions: Seq<Vec2>, from: int, first: int)
    requires
        0 <= from <= first < actions.len(),
        !actions[first].finite(),
        forall|env: int|
            from <= env < first ==> finite((#[trigger] actions[env]).x) && finite(actions[env].y),
    ensures
        first_unusable(actions, from) == Some(first),
    decreases first - from,
{
    if from < first {
        assert(finite(actions[from].x));
        lemma_first_unusable(actions, from + 1, first);
    }
}

/// A request whose opcode is none of the three is refused by that opcode, and a
/// step that would take more bytes than the session accepts is refused by its
/// size, before its directions are looked at.
pub proof fn law_strange_requests_are_refused(bytes: Seq<u8>, envs: nat, maximum: u64)
    requires
        bytes.len() >= 5,
    ensures
        bytes[0] != 0x01 && bytes[0] != 0x02 && bytes[0] != 0x03 ==> reads_request(
            bytes,
            envs,
            maximum,
        ).0 == Err::<RequestView, ProtocolError>(ProtocolError::UnknownOpcode(bytes[0])),
        bytes[0] == 0x01 && le_value(bytes.subrange(1, 5)) * 8 > maximum ==> reads_request(
            bytes,
            envs,
            maximum,
        ).0 == Err::<RequestView, ProtocolError>(
            ProtocolError::PayloadTooLarge {
                declared: (le_value(bytes.subrange(1, 5)) * 8) as u64,
                maximum,
            },
        ),
        bytes[0] == 0x03 ==> reads_request(bytes, envs, maximum) == (
            Ok::<RequestView, ProtocolError>(RequestView::Close),
            bytes.skip(1),
        ),
{
    assert(bytes.skip(1).take(4) =~= bytes.subrange(1, 5));
}

/// A reset with its flag set names its seed, zero included; without it it names
/// none, whatever stands where the seed would.
pub proof fn law_resets_are_read_by_their_flag(bytes: Seq<u8>, envs: nat, maximum: u64)
    requires
        bytes.len() >= 10,
        bytes[0] == 0x02,
    ensures
        bytes[1] == 0 ==> reads_request(bytes, envs, maximum).0 == Ok::<
            RequestView,
            ProtocolError,
        >(RequestView::Reset(None)),
        bytes[1] != 0 ==> reads_request(bytes, envs, maximum).0 == Ok::<
            RequestView,
            ProtocolError,
        >(RequestView::Reset(Some(le_value(bytes.subrange(2, 10)) as u64))),
        reads_request(bytes, envs, maximum).1 == bytes.skip(10),
{
    let body = bytes.skip(1);
    assert(body.subrange(1, 9) =~= bytes.subrange(2, 10));
    assert(body.skip(9) =~= bytes.skip(10));
}

/// A stream that does not begin with the magic is not read, nor is one of another
/// version.
pub proof fn law_strange_streams_are_refused(bytes: Seq<u8>)
    requires
        bytes.len() >= 12,
    ensures
        bytes.take(8) != MAGIC@ ==> reads_handshake(bytes).0 == Err::<Seq<u8>, ProtocolError>(
            ProtocolError::BadMagic,
        ),
        bytes.take(8) == MAGIC@ && le_value(bytes.subrange(8, 12)) != PROTOCOL_VERSION
            ==> reads_handshake(bytes).0 == Err::<Seq<u8>, ProtocolError>(
            ProtocolError::UnsupportedVersion(le_value(bytes.subrange(8, 12)) as u32),
        ),
{
    assert(bytes.skip(8).take(4) =~= bytes.subrange(8, 12));
}

/// An error record carries its code, and its diagnostic whole where that is short
/// enough and from its beginning where it is not.
pub proof fn law_errors_carry_code_and_words(code: u32, message: Seq<u8>)
    ensures
        ({
            let bytes = wire_error(code, message);
            &&& le_value(bytes.subrange(1, 5)) == code
            &&& message.len() <= ERROR_MAXIMUM ==> bytes.skip(9) == message
            &&& message.len() > ERROR_MAXIMUM ==> bytes.skip(9) == message.take(
                ERROR_MAXIMUM as int,
            )
        }),
{
    lemma_spans();
    law_le_round_trip(code as nat, 4);
    let kept = message.take(
        crate::gym::protocol::capped(message.len() as int, ERROR_MAXIMUM as int),
    );
    lemma_le_bytes_len(wire_count(kept.len()) as nat, 4);
    let bytes = wire_error(code, message);
    assert(bytes.subrange(1, 5) =~= wire_u32(code));
    assert(bytes.skip(9) =~= kept);
    assert(message.take(message.len() as int) =~= message);
}

/// The largest payload a session accepts is twice what all envs and one more
/// would report, each its values and some room, with some room to spare.
pub proof fn law_the_payload_bound(envs: u32, values: usize)
    requires
        values <= 1_000_000,
    ensures
        payload_bound(envs, values) == 2 * (envs + 1) * (4 * values + 64) + 4_096,
{
    let per_env = 4 * values + 64;
    assert((envs + 1) * per_env <= 0x1_0000_0000 * 4_000_064) by (nonlinear_arith)
        requires
            envs <= 0xffff_ffff,
            0 <= per_env <= 4_000_064,
    ;
    assert(((envs + 1) * per_env) * 2 == 2 * (envs + 1) * per_env) by (nonlinear_arith);
}

/// What a message says is what it holds, in the order it holds it.
pub proof fn law_messages_say_what_they_hold(
    step: crate::gym::protocol::StepBatch,
    reset: crate::gym::protocol::ResetBatch,
    actions: Vec<Vec2>,
    seed: Option<u64>,
    i: int,
)
    requires
        0 <= i < step.terminal@.len(),
    ensures
        step@.transitions == step.transitions@,
        step@.observations == step.observations@,
        step@.terminal.len() == step.terminal@.len(),
        step@.terminal[i].env == step.terminal@[i].env,
        step@.terminal[i].observation == step.terminal@[i].observation@,
        reset@.seeds == reset.seeds@,
        reset@.observations == reset.observations@,
        crate::gym::protocol::Request::Step(actions)@ == RequestView::Step(actions@),
        crate::gym::protocol::Request::Reset(seed)@ == RequestView::Reset(seed),
        crate::gym::protocol::Request::Close@ == RequestView::Close,
{
}

/// A transition ends its episode for either reason, and for no other.
pub proof fn law_transitions_end_for_either_reason(transition: EnvTransition)
    ensures
        transition.terminated ==> transition.ended(),
        transition.truncated ==> transition.ended(),
        !transition.terminated && !transition.truncated ==> !transition.ended(),
{
}

} // verus!

//! Little-endian integers and byte counts on a stream of bytes.
//!
//! Every reader takes the bytes that have arrived and leaves the bytes it did
//! not use. What a reader does is stated by a function from the bytes to its
//! outcome and the bytes left over.

use crate::text::{decimal, hex_byte, push_decimal, push_hex_byte};
use vstd::prelude::*;
use vstd::string::*;

verus! {

/// Why a message could not be read or written.
#[derive(Debug)]
pub enum ProtocolError {
    /// The stream itself failed.
    Io(String),
    /// The stream did not start with the magic of this protocol.
    BadMagic,
    /// A version this build does not speak.
    UnsupportedVersion(u32),
    /// An opcode outside the two tables.
    UnknownOpcode(u8),
    /// A payload larger than the configured maximum.
    PayloadTooLarge { declared: u64, maximum: u64 },
    /// The stream ended inside a message.
    Truncated,
    /// A step carrying the wrong number of actions.
    ActionCount { got: usize, expected: usize },
    /// An action whose direction is not finite.
    InvalidAction { env: u32 },
    /// A string field that was not UTF-8, or JSON that did not parse.
    Malformed(String),
}

impl ProtocolError {
    /// The words an error is reported by.
    pub open spec fn words(self) -> Seq<char> {
        match self {
            ProtocolError::Io(error) => "io error: "@ + error@,
            ProtocolError::BadMagic => "the stream is not a DodgeRoyale gym stream"@,
            ProtocolError::UnsupportedVersion(version) => "protocol version "@ + decimal(
                version as nat,
            ) + " is not supported"@,
            ProtocolError::UnknownOpcode(code) => "unknown opcode 0x"@ + hex_byte(code),
            ProtocolError::PayloadTooLarge { declared, maximum } => "payload of "@ + decimal(
                declared as nat,
            ) + " bytes exceeds the "@ + decimal(maximum as nat) + " byte maximum"@,
            ProtocolError::Truncated => "the stream ended inside a message"@,
            ProtocolError::ActionCount { got, expected } => "expected "@ + decimal(expected as nat)
                + " actions, got "@ + decimal(got as nat),
            ProtocolError::InvalidAction { env } => "the action for env "@ + decimal(env as nat)
                + " is not a finite direction"@,
            ProtocolError::Malformed(reason) => "malformed message: "@ + reason@,
        }
    }

    /// Say what went wrong.
    pub fn message(&self) -> (message: String)
        ensures
            message@ == self.words(),
    {
        match self {
            ProtocolError::Io(error) => {
                let mut text: String = "io error: ".to_owned();
                text.append(error.as_str());
                text
            },
            ProtocolError::BadMagic => "the stream is not a DodgeRoyale gym stream".to_owned(),
            ProtocolError::UnsupportedVersion(version) => {
                let mut text: String = "protocol version ".to_owned();
                push_decimal(&mut text, *version as u64);
                text.append(" is not supported");
                text
            },
            ProtocolError::UnknownOpcode(code) => {
                let mut text: String = "unknown opcode 0x".to_owned();
                push_hex_byte(&mut text, *code);
                text
            },
            ProtocolError::PayloadTooLarge { declared, maximum } => {
                let mut text: String = "payload of ".to_owned();
                push_decimal(&mut text, *declared);
                text.append(" bytes exceeds the ");
                push_decimal(&mut text, *maximum);
                text.append(" byte maximum");
                text
            },
            ProtocolError::Truncated => "the stream ended inside a message".to_owned(),
            ProtocolError::ActionCount { got, expected } => {
                let mut text: String = "expected ".to_owned();
                push_decimal(&mut text, *expected as u64);
                text.append(" actions, got ");
                push_decimal(&mut text, *got as u64);
                text
            },
            ProtocolError::InvalidAction { env } => {
                let mut text: String = "the action for env ".to_owned();
                push_decimal(&mut text, *env as u64);
                text.append(" is not a finite direction");
                text
            },
            ProtocolError::Malformed(reason) => {
                let mut text: String = "malformed message: ".to_owned();
                text.append(reason.as_str());
                text
            },
        }
    }
}

/// What reading came to, and the bytes that were not used.
pub type Read<T> = (Result<T, ProtocolError>, Seq<u8>);

/// How many values `width` bytes can tell apart.
pub open spec fn span(width: nat) -> nat
    decreases width,
{
    if width == 0 {
        1
    } else {
        256 * span((width - 1) as nat)
    }
}

/// The `width` low bytes of a number, least significant first.
pub open spec fn le_bytes(value: nat, width: nat) -> Seq<u8>
    decreases width,
{
    if width == 0 {
        Seq::empty()
    } else {
        seq![(value % 256) as u8] + le_bytes(value / 256, (width - 1) as nat)
    }
}

/// The number whose bytes these are, least significant first.
pub open spec fn le_value(bytes: Seq<u8>) -> nat
    decreases bytes.len(),
{
    if bytes.len() == 0 {
        0
    } else {
        bytes[0] as nat + 256 * le_value(bytes.skip(1))
    }
}

/// A number that fits its width comes back from its bytes.
pub proof fn law_le_round_trip(value: nat, width: nat)
    requires
        value < span(width),
    ensures
        le_bytes(value, width).len() == width,
        le_value(le_bytes(value, width)) == value,
    decreases width,
{
    if width > 0 {
        law_le_round_trip(value / 256, (width - 1) as nat);
        assert(le_bytes(value, width).skip(1) =~= le_bytes(value / 256, (width - 1) as nat));
    }
}

/// The bytes of a number always have the width that was asked for.
pub proof fn lemma_le_bytes_len(value: nat, width: nat)
    ensures
        le_bytes(value, width).len() == width,
    decreases width,
{
    if width > 0 {
        lemma_le_bytes_len(value / 256, (width - 1) as nat);
    }
}

/// Bytes name a number that fits their width.
pub proof fn lemma_le_value_bound(bytes: Seq<u8>)
    ensures
        le_value(bytes) < span(bytes.len()),
    decreases bytes.len(),
{
    if bytes.len() > 0 {
        lemma_le_value_bound(bytes.skip(1));
    }
}

/// The widths in use, as numbers.
pub proof fn lemma_spans()
    ensures
        span(1) == 0x100,
        span(4) == 0x1_0000_0000,
        span(8) == 0x1_0000_0000_0000_0000,
{
    reveal_with_fuel(span, 9);
}

/// Read `width` bytes as one number.
pub open spec fn reads_le(bytes: Seq<u8>, width: nat) -> Read<nat> {
    if bytes.len() < width {
        (Err(ProtocolError::Truncated), Seq::empty())
    } else {
        (Ok(le_value(bytes.take(width as int))), bytes.skip(width as int))
    }
}

/// Read one byte.
pub open spec fn reads_u8(bytes: Seq<u8>) -> Read<u8> {
    if bytes.len() < 1 {
        (Err(ProtocolError::Truncated), Seq::empty())
    } else {
        (Ok(bytes[0]), bytes.skip(1))
    }
}

/// Read a count of `u32`, refused when it is above the maximum.
pub open spec fn reads_length(bytes: Seq<u8>, maximum: u64) -> Read<nat> {
    match reads_le(bytes, 4) {
        (Ok(declared), rest) => if declared > maximum {
            (Err(ProtocolError::PayloadTooLarge { declared: declared as u64, maximum }), rest)
        } else {
            (Ok(declared), rest)
        },
        (Err(fault), rest) => (Err(fault), rest),
    }
}

/// Read exactly so many bytes.
pub open spec fn reads_exact(bytes: Seq<u8>, length: nat) -> Read<Seq<u8>> {
    if bytes.len() < length {
        (Err(ProtocolError::Truncated), Seq::empty())
    } else {
        (Ok(bytes.take(length as int)), bytes.skip(length as int))
    }
}

/// Read a count and that many bytes.
pub open spec fn reads_bytes(bytes: Seq<u8>, maximum: u64) -> Read<Seq<u8>> {
    match reads_length(bytes, maximum) {
        (Ok(length), rest) => reads_exact(rest, length),
        (Err(fault), rest) => (Err(fault), rest),
    }
}

/// What the record at `index` holds, in records of one width.
pub open spec fn record_at<T>(
    bytes: Seq<u8>,
    index: int,
    width: nat,
    record: spec_fn(Seq<u8>) -> T,
) -> T {
    record(bytes.subrange(index * width, index * width + width))
}

/// Read so many records of one width.
pub open spec fn reads_records<T>(
    bytes: Seq<u8>,
    count: nat,
    width: nat,
    record: spec_fn(Seq<u8>) -> T,
) -> Read<Seq<T>> {
    if bytes.len() < count * width {
        (Err(ProtocolError::Truncated), Seq::empty())
    } else {
        (
            Ok(Seq::new(count, |index: int| record_at(bytes, index, width, record))),
            bytes.skip((count * width) as int),
        )
    }
}

/// Read a count and that many records of one width.
pub open spec fn reads_counted<T>(
    bytes: Seq<u8>,
    maximum: u64,
    width: nat,
    record: spec_fn(Seq<u8>) -> T,
) -> Read<Seq<T>> {
    match reads_length(bytes, maximum) {
        (Ok(count), rest) => reads_records(rest, count, width, record),
        (Err(fault), rest) => (Err(fault), rest),
    }
}

/// A four-byte record: the bit pattern of one value.
pub open spec fn float_record() -> spec_fn(Seq<u8>) -> u32 {
    |bytes: Seq<u8>| le_value(bytes) as u32
}

/// An eight-byte record: one seed.
pub open spec fn seed_record() -> spec_fn(Seq<u8>) -> u64 {
    |bytes: Seq<u8>| le_value(bytes) as u64
}

/// The bytes of a `u32`.
pub open spec fn wire_u32(value: u32) -> Seq<u8> {
    le_bytes(value as nat, 4)
}

/// The bytes of a `u64`.
pub open spec fn wire_u64(value: u64) -> Seq<u8> {
    le_bytes(value as nat, 8)
}

/// The byte of a flag.
pub open spec fn wire_flag(value: bool) -> Seq<u8> {
    seq![if value { 1u8 } else { 0u8 }]
}

/// The bytes of an optional seed: a presence flag, then the value, always both.
pub open spec fn wire_optional_u64(value: Option<u64>) -> Seq<u8> {
    match value {
        Some(seed) => wire_flag(true) + wire_u64(seed),
        None => wire_flag(false) + wire_u64(0),
    }
}

/// A length as the wire counts it: one that does not fit is the largest that
/// does.
pub open spec fn wire_count(length: nat) -> u32 {
    if length <= u32::MAX {
        length as u32
    } else {
        u32::MAX
    }
}

/// The bytes of a byte string: its count, then itself.
pub open spec fn wire_bytes(bytes: Seq<u8>) -> Seq<u8> {
    wire_u32(wire_count(bytes.len())) + bytes
}

/// The bytes of each item in turn.
pub open spec fn wire_each<T>(items: Seq<T>, wire: spec_fn(T) -> Seq<u8>) -> Seq<u8>
    decreases items.len(),
{
    if items.len() == 0 {
        Seq::empty()
    } else {
        wire_each(items.drop_last(), wire) + wire(items.last())
    }
}

/// The bytes of a list: its count, then each item.
pub open spec fn wire_counted<T>(items: Seq<T>, wire: spec_fn(T) -> Seq<u8>) -> Seq<u8> {
    wire_u32(wire_count(items.len())) + wire_each(items, wire)
}

/// The bytes of one value, given by its bit pattern.
pub open spec fn float_wire() -> spec_fn(u32) -> Seq<u8> {
    |value: u32| wire_u32(value)
}

/// The bytes of one seed.
pub open spec fn seed_wire() -> spec_fn(u64) -> Seq<u8> {
    |value: u64| wire_u64(value)
}

/// A number that was written is read back, whatever follows it.
pub proof fn lemma_reads_le(value: nat, width: nat, rest: Seq<u8>)
    requires
        value < span(width),
    ensures
        reads_le(le_bytes(value, width) + rest, width) == (
            Ok::<nat, ProtocolError>(value),
            rest,
        ),
{
    law_le_round_trip(value, width);
    let all = le_bytes(value, width) + rest;
    assert(all.take(width as int) =~= le_bytes(value, width));
    assert(all.skip(width as int) =~= rest);
}

/// Items of one width stand one after the other.
pub proof fn lemma_wire_each<T>(items: Seq<T>, wire: spec_fn(T) -> Seq<u8>, width: nat)
    requires
        forall|item: T| (#[trigger] wire(item)).len() == width,
    ensures
        wire_each(items, wire).len() == items.len() * width,
        forall|index: int|
            0 <= index < items.len() ==> #[trigger] wire_each(items, wire).subrange(
                index * width,
                index * width + width,
            ) == wire(items[index]),
    decreases items.len(),
{
    if items.len() == 0 {
        assert(0 * width == 0) by (nonlinear_arith);
    } else {
        let shorter = items.drop_last();
        let head = wire_each(shorter, wire);
        lemma_wire_each(shorter, wire, width);
        assert((items.len() - 1) * width + width == items.len() * width) by (nonlinear_arith);
        assert(shorter.len() * width == (items.len() - 1) * width);
        let all = wire_each(items, wire);
        assert forall|index: int| 0 <= index < items.len() implies #[trigger] all.subrange(
            index * width,
            index * width + width,
        ) == wire(items[index]) by {
            if index < shorter.len() {
                assert(0 <= index * width && index * width + width <= shorter.len() * width)
                    by (nonlinear_arith)
                    requires
                        0 <= index < shorter.len(),
                        width >= 0,
                ;
                assert(all.subrange(index * width, index * width + width) =~= head.subrange(
                    index * width,
                    index * width + width,
                ));
            } else {
                assert(index * width == head.len()) by (nonlinear_arith)
                    requires
                        index == shorter.len(),
                        head.len() == shorter.len() * width,
                ;
                assert(all.subrange(index * width, index * width + width) =~= wire(items.last()));
            }
        }
    }
}

/// Records that were written are read back, whatever follows them.
pub proof fn lemma_reads_records<T>(
    items: Seq<T>,
    wire: spec_fn(T) -> Seq<u8>,
    width: nat,
    record: spec_fn(Seq<u8>) -> T,
    rest: Seq<u8>,
)
    requires
        forall|item: T| (#[trigger] wire(item)).len() == width && record(wire(item)) == item,
    ensures
        reads_records(wire_each(items, wire) + rest, items.len(), width, record) == (
            Ok::<Seq<T>, ProtocolError>(items),
            rest,
        ),
{
    lemma_wire_each(items, wire, width);
    let body = wire_each(items, wire);
    let all = body + rest;
    let read = Seq::new(items.len(), |index: int| record_at(all, index, width, record));
    assert forall|index: int| 0 <= index < items.len() implies read[index] == items[index] by {
        assert(0 <= index * width && index * width + width <= items.len() * width)
            by (nonlinear_arith)
            requires
                0 <= index < items.len(),
                width >= 0,
        ;
        assert(all.subrange(index * width, index * width + width) =~= body.subrange(
            index * width,
            index * width + width,
        ));
    }
    assert(read =~= items);
    assert(all.skip((items.len() * width) as int) =~= rest);
}

/// A counted list that was written is read back, whatever follows it.
pub proof fn lemma_reads_counted<T>(
    items: Seq<T>,
    wire: spec_fn(T) -> Seq<u8>,
    width: nat,
    record: spec_fn(Seq<u8>) -> T,
    maximum: u64,
    rest: Seq<u8>,
)
    requires
        forall|item: T| (#[trigger] wire(item)).len() == width && record(wire(item)) == item,
        items.len() <= u32::MAX,
        items.len() <= maximum,
    ensures
        reads_counted(wire_counted(items, wire) + rest, maximum, width, record) == (
            Ok::<Seq<T>, ProtocolError>(items),
            rest,
        ),
{
    let count = wire_u32(wire_count(items.len()));
    let body = wire_each(items, wire);
    lemma_spans();
    lemma_reads_le(items.len(), 4, body + rest);
    assert(count + body + rest =~= count + (body + rest));
    lemma_reads_records(items, wire, width, record, rest);
}

/// Values keep their width and their bits on the wire.
pub proof fn lemma_float_wire()
    ensures
        forall|item: u32|
            (#[trigger] float_wire()(item)).len() == 4 && float_record()(float_wire()(item))
                == item,
{
    assert forall|item: u32|
        (#[trigger] float_wire()(item)).len() == 4 && float_record()(float_wire()(item)) == item by {
        lemma_spans();
        law_le_round_trip(item as nat, 4);
    }
}

/// Seeds keep their width and their value on the wire.
pub proof fn lemma_seed_wire()
    ensures
        forall|item: u64|
            (#[trigger] seed_wire()(item)).len() == 8 && seed_record()(seed_wire()(item)) == item,
{
    assert forall|item: u64|
        (#[trigger] seed_wire()(item)).len() == 8 && seed_record()(seed_wire()(item)) == item by {
        lemma_spans();
        law_le_round_trip(item as nat, 8);
    }
}

// --- writing ------------------------------------------------------------

fn write_le(writer: &mut Vec<u8>, value: u64, width: usize)
    ensures
        final(writer)@ == old(writer)@ + le_bytes(value as nat, width as nat),
{
    let mut left: u64 = value;
    let mut written: usize = 0;
    while written < width
        invariant
            written <= width,
            writer@ + le_bytes(left as nat, (width - written) as nat) == old(writer)@ + le_bytes(
                value as nat,
                width as nat,
            ),
        decreases width - written,
    {
        let ghost before = writer@;
        let ghost tail = le_bytes((left / 256) as nat, (width - written - 1) as nat);
        writer.push((left % 256) as u8);
        assert(before + (seq![(left % 256) as u8] + tail) =~= writer@ + tail);
        left = left / 256;
        written = written + 1;
    }
    assert(writer@ + le_bytes(left as nat, 0) =~= writer@);
}

/// Append one byte.
pub fn write_u8(writer: &mut Vec<u8>, value: u8)
    ensures
        final(writer)@ == old(writer)@ + seq![value],
{
    writer.push(value);
    assert(writer@ =~= old(writer)@ + seq![value]);
}

/// Append one flag.
pub fn write_flag(writer: &mut Vec<u8>, value: bool)
    ensures
        final(writer)@ == old(writer)@ + wire_flag(value),
{
    write_u8(writer, if value { 1 } else { 0 });
}

/// Append a `u32`.
pub fn write_u32(writer: &mut Vec<u8>, value: u32)
    ensures
        final(writer)@ == old(writer)@ + wire_u32(value),
{
    write_le(writer, value as u64, 4);
}

/// Append a `u64`.
pub fn write_u64(writer: &mut Vec<u8>, value: u64)
    ensures
        final(writer)@ == old(writer)@ + wire_u64(value),
{
    write_le(writer, value, 8);
}

/// Append an optional seed: a presence flag, then the value, always both.
pub fn write_optional_u64(writer: &mut Vec<u8>, value: Option<u64>)
    ensures
        final(writer)@ == old(writer)@ + wire_optional_u64(value),
{
    match value {
        Some(seed) => {
            write_flag(writer, true);
            write_u64(writer, seed);
            assert(writer@ =~= old(writer)@ + (wire_flag(true) + wire_u64(seed)));
        },
        None => {
            write_flag(writer, false);
            write_u64(writer, 0);
            assert(writer@ =~= old(writer)@ + (wire_flag(false) + wire_u64(0)));
        },
    }
}

/// Append the count of something so long.
pub fn write_count(writer: &mut Vec<u8>, length: usize)
    ensures
        final(writer)@ == old(writer)@ + wire_u32(wire_count(length as nat)),
{
    if length <= u32::MAX as usize {
        write_u32(writer, length as u32);
    } else {
        write_u32(writer, u32::MAX);
    }
}

/// Append bytes as they are.
pub fn write_all(writer: &mut Vec<u8>, bytes: &[u8])
    ensures
        final(writer)@ == old(writer)@ + bytes@,
{
    let mut index: usize = 0;
    while index < bytes.len()
        invariant
            index <= bytes@.len(),
            writer@ == old(writer)@ + bytes@.take(index as int),
        decreases bytes@.len() - index,
    {
        writer.push(bytes[index]);
        assert(bytes@.take(index + 1) =~= bytes@.take(index as int).push(bytes@[index as int]));
        index = index + 1;
    }
    assert(bytes@.take(index as int) =~= bytes@);
}

/// Append a byte string: its count, then itself.
pub fn write_bytes(writer: &mut Vec<u8>, bytes: &[u8])
    ensures
        final(writer)@ == old(writer)@ + wire_bytes(bytes@),
{
    write_count(writer, bytes.len());
    write_all(writer, bytes);
    assert(writer@ =~= old(writer)@ + wire_bytes(bytes@));
}

/// Append a list of values: a `u32` count, then each bit pattern.
pub fn write_floats(writer: &mut Vec<u8>, values: &[u32])
    ensures
        final(writer)@ == old(writer)@ + wire_counted(values@, float_wire()),
{
    write_count(writer, values.len());
    let ghost start = writer@;
    assert(start + wire_each(values@.take(0), float_wire()) =~= start);
    let mut index: usize = 0;
    while index < values.len()
        invariant
            index <= values@.len(),
            writer@ == start + wire_each(values@.take(index as int), float_wire()),
        decreases values@.len() - index,
    {
        write_u32(writer, values[index]);
        proof {
            let longer = values@.take(index + 1);
            assert(longer.drop_last() =~= values@.take(index as int));
            assert(writer@ =~= start + wire_each(longer, float_wire()));
        }
        index = index + 1;
    }
    assert(values@.take(index as int) =~= values@);
    assert(writer@ =~= old(writer)@ + wire_counted(values@, float_wire()));
}

/// Append a list of seeds: a `u32` count, then each seed.
pub fn write_seeds(writer: &mut Vec<u8>, seeds: &[u64])
    ensures
        final(writer)@ == old(writer)@ + wire_counted(seeds@, seed_wire()),
{
    write_count(writer, seeds.len());
    let ghost start = writer@;
    assert(start + wire_each(seeds@.take(0), seed_wire()) =~= start);
    let mut index: usize = 0;
    while index < seeds.len()
        invariant
            index <= seeds@.len(),
            writer@ == start + wire_each(seeds@.take(index as int), seed_wire()),
        decreases seeds@.len() - index,
    {
        write_u64(writer, seeds[index]);
        proof {
            let longer = seeds@.take(index + 1);
            assert(longer.drop_last() =~= seeds@.take(index as int));
            assert(writer@ =~= start + wire_each(longer, seed_wire()));
        }
        index = index + 1;
    }
    assert(seeds@.take(index as int) =~= seeds@);
    assert(writer@ =~= old(writer)@ + wire_counted(seeds@, seed_wire()));
}

// --- reading ------------------------------------------------------------

/// The number in the `width` bytes at `at`.
pub fn le_at(bytes: &[u8], at: usize, width: usize) -> (value: u64)
    requires
        width <= 8,
        at + width <= bytes@.len(),
    ensures
        value == le_value(bytes@.subrange(at as int, at + width)),
{
    assert(bytes@.len() == bytes.len());
    let end: usize = at + width;
    let mut value: u64 = 0;
    let mut low: usize = end;
    proof {
        assert(bytes@.subrange(end as int, end as int) =~= Seq::<u8>::empty());
    }
    while low > at
        invariant
            at <= low <= end,
            end == at + width,
            width <= 8,
            end <= bytes@.len(),
            value == le_value(bytes@.subrange(low as int, end as int)),
        decreases low,
    {
        let ghost tail = bytes@.subrange(low as int, end as int);
        let ghost longer = bytes@.subrange(low - 1, end as int);
        proof {
            lemma_le_value_bound(longer);
            assert(longer.skip(1) =~= tail);
            assert(longer[0] == bytes@[low - 1]);
            reveal_with_fuel(span, 9);
        }
        value = bytes[low - 1] as u64 + 256 * value;
        low = low - 1;
    }
    value
}

/// Pass over the bytes that were used.
pub fn advance(reader: &mut &[u8], used: usize)
    requires
        used <= old(reader)@.len(),
    ensures
        final(reader)@ == old(reader)@.skip(used as int),
{
    let bytes: &[u8] = *reader;
    *reader = vstd::slice::slice_subrange(bytes, used, bytes.len());
    assert(reader@ =~= bytes@.skip(used as int));
}

/// Pass over everything: the stream ended inside what was being read.
pub fn run_out(reader: &mut &[u8]) -> (fault: ProtocolError)
    ensures
        fault == ProtocolError::Truncated,
        final(reader)@ == Seq::<u8>::empty(),
{
    let len: usize = reader.len();
    advance(reader, len);
    assert(reader@ =~= Seq::<u8>::empty());
    ProtocolError::Truncated
}

fn read_le(reader: &mut &[u8], width: usize) -> (read: Result<u64, ProtocolError>)
    requires
        width <= 8,
    ensures
        final(reader)@ == reads_le(old(reader)@, width as nat).1,
        match reads_le(old(reader)@, width as nat).0 {
            Ok(value) => read matches Ok(found) && found == value,
            Err(fault) => read == Err::<u64, ProtocolError>(fault),
        },
{
    if reader.len() < width {
        return Err(run_out(reader));
    }
    let value: u64 = le_at(*reader, 0, width);
    assert(reader@.subrange(0, width as int) =~= reader@.take(width as int));
    advance(reader, width);
    Ok(value)
}

/// Read exactly as many bytes as the buffer holds.
pub fn read_exact(reader: &mut &[u8], buffer: &mut [u8]) -> (read: Result<(), ProtocolError>)
    ensures
        final(reader)@ == reads_exact(old(reader)@, old(buffer)@.len()).1,
        match reads_exact(old(reader)@, old(buffer)@.len()).0 {
            Ok(bytes) => read is Ok && final(buffer)@ == bytes,
            Err(fault) => read == Err::<(), ProtocolError>(fault) && final(buffer)@ == old(
                buffer,
            )@,
        },
{
    let length: usize = buffer.len();
    if reader.len() < length {
        return Err(run_out(reader));
    }
    let bytes: &[u8] = *reader;
    let mut index: usize = 0;
    while index < length
        invariant
            index <= length,
            length == buffer@.len(),
            length <= bytes@.len(),
            buffer@.take(index as int) == bytes@.take(index as int),
        decreases length - index,
    {
        buffer[index] = bytes[index];
        assert(buffer@.take(index + 1) =~= bytes@.take(index + 1)) by {
            assert forall|k: int| 0 <= k <= index implies buffer@[k] == bytes@[k] by {
                if k < index {
                    assert(buffer@[k] == buffer@.take(index as int)[k]);
                    assert(bytes@[k] == bytes@.take(index as int)[k]);
                }
            }
        }
        index = index + 1;
    }
    assert(buffer@ =~= buffer@.take(length as int));
    advance(reader, length);
    Ok(())
}

/// Read one byte.
pub fn read_u8(reader: &mut &[u8]) -> (read: Result<u8, ProtocolError>)
    ensures
        (read, final(reader)@) == reads_u8(old(reader)@),
{
    if reader.len() < 1 {
        return Err(run_out(reader));
    }
    let byte: u8 = reader[0];
    advance(reader, 1);
    Ok(byte)
}

/// Read a `u32`.
pub fn read_u32(reader: &mut &[u8]) -> (read: Result<u32, ProtocolError>)
    ensures
        final(reader)@ == reads_le(old(reader)@, 4).1,
        match reads_le(old(reader)@, 4).0 {
            Ok(value) => read matches Ok(found) && found == value,
            Err(fault) => read == Err::<u32, ProtocolError>(fault),
        },
{
    proof {
        lemma_spans();
        if reader@.len() >= 4 {
            lemma_le_value_bound(reader@.take(4));
        }
    }
    match read_le(reader, 4) {
        Ok(value) => Ok(value as u32),
        Err(fault) => Err(fault),
    }
}

/// Read a count, refused when it is above the maximum.
pub fn read_length(reader: &mut &[u8], maximum: u64) -> (read: Result<usize, ProtocolError>)
    ensures
        final(reader)@ == reads_length(old(reader)@, maximum).1,
        match reads_length(old(reader)@, maximum).0 {
            Ok(length) => read matches Ok(found) && found == length,
            Err(fault) => read == Err::<usize, ProtocolError>(fault),
        },
{
    let declared: u64 = match read_u32(reader) {
        Ok(value) => value as u64,
        Err(fault) => {
            return Err(fault);
        },
    };
    if declared > maximum {
        return Err(ProtocolError::PayloadTooLarge { declared, maximum });
    }
    Ok(declared as usize)
}

/// Read a byte string: its count, then itself.
pub fn read_bytes(reader: &mut &[u8], maximum: u64) -> (read: Result<Vec<u8>, ProtocolError>)
    ensures
        final(reader)@ == reads_bytes(old(reader)@, maximum).1,
        match reads_bytes(old(reader)@, maximum).0 {
            Ok(bytes) => read matches Ok(found) && found@ == bytes,
            Err(fault) => read == Err::<Vec<u8>, ProtocolError>(fault),
        },
{
    let length: usize = match read_length(reader, maximum) {
        Ok(length) => length,
        Err(fault) => {
            return Err(fault);
        },
    };
    if reader.len() < length {
        return Err(run_out(reader));
    }
    let bytes: Vec<u8> = vstd::slice::slice_to_vec(
        vstd::slice::slice_subrange(*reader, 0, length),
    );
    assert(bytes@ =~= reader@.take(length as int));
    advance(reader, length);
    Ok(bytes)
}

/// Whether so many records of one width have arrived.
pub fn has_records(reader: &[u8], count: usize, width: usize) -> (enough: bool)
    requires
        count <= u32::MAX,
        width <= 64,
    ensures
        enough == (reader@.len() >= count * width),
{
    assert(count * width <= u32::MAX * 64) by (nonlinear_arith)
        requires
            count <= u32::MAX,
            width <= 64,
    ;
    reader.len() as u64 >= count as u64 * width as u64
}

/// Read a list of values: a `u32` count, then each bit pattern.
pub fn read_floats(reader: &mut &[u8], maximum: u64) -> (read: Result<Vec<u32>, ProtocolError>)
    ensures
        final(reader)@ == reads_counted(old(reader)@, maximum, 4, float_record()).1,
        match reads_counted(old(reader)@, maximum, 4, float_record()).0 {
            Ok(values) => read matches Ok(found) && found@ == values,
            Err(fault) => read == Err::<Vec<u32>, ProtocolError>(fault),
        },
{
    let ghost start = reader@;
    let count: usize = match read_length(reader, maximum) {
        Ok(count) => count,
        Err(fault) => {
            return Err(fault);
        },
    };
    proof {
        lemma_count_bound(start, maximum);
    }
    if !has_records(*reader, count, 4) {
        return Err(run_out(reader));
    }
    let bytes: &[u8] = *reader;
    assert(bytes@.len() == bytes.len());
    let mut values: Vec<u32> = Vec::new();
    let mut index: usize = 0;
    while index < count
        invariant
            index <= count,
            count * 4 <= bytes@.len() <= usize::MAX,
            values@.len() == index,
            forall|k: int|
                0 <= k < index ==> values@[k] == record_at(bytes@, k, 4, float_record()),
        decreases count - index,
    {
        proof {
            lemma_spans();
            lemma_le_value_bound(bytes@.subrange(index * 4, index * 4 + 4));
        }
        values.push(le_at(bytes, index * 4, 4) as u32);
        index = index + 1;
    }
    advance(reader, count * 4);
    assert(values@ =~= Seq::new(
        count as nat,
        |k: int| record_at(bytes@, k, 4, float_record()),
    ));
    Ok(values)
}

/// Read a list of seeds: a `u32` count, then each seed.
pub fn read_seeds(reader: &mut &[u8], maximum: u64) -> (read: Result<Vec<u64>, ProtocolError>)
    ensures
        final(reader)@ == reads_counted(old(reader)@, maximum, 8, seed_record()).1,
        match reads_counted(old(reader)@, maximum, 8, seed_record()).0 {
            Ok(seeds) => read matches Ok(found) && found@ == seeds,
            Err(fault) => read == Err::<Vec<u64>, ProtocolError>(fault),
        },
{
    let ghost start = reader@;
    let count: usize = match read_length(reader, maximum) {
        Ok(count) => count,
        Err(fault) => {
            return Err(fault);
        },
    };
    proof {
        lemma_count_bound(start, maximum);
    }
    if !has_records(*reader, count, 8) {
        return Err(run_out(reader));
    }
    let bytes: &[u8] = *reader;
    assert(bytes@.len() == bytes.len());
    let mut seeds: Vec<u64> = Vec::new();
    let mut index: usize = 0;
    while index < count
        invariant
            index <= count,
            count * 8 <= bytes@.len() <= usize::MAX,
            seeds@.len() == index,
            forall|k: int| 0 <= k < index ==> seeds@[k] == record_at(bytes@, k, 8, seed_record()),
        decreases count - index,
    {
        seeds.push(le_at(bytes, index * 8, 8));
        index = index + 1;
    }
    advance(reader, count * 8);
    assert(seeds@ =~= Seq::new(count as nat, |k: int| record_at(bytes@, k, 8, seed_record())));
    Ok(seeds)
}

/// A count that was read fits the four bytes it was read from.
pub proof fn lemma_count_bound(bytes: Seq<u8>, maximum: u64)
    ensures
        reads_length(bytes, maximum).0 matches Ok(count) ==> count <= u32::MAX,
{
    lemma_spans();
    if bytes.len() >= 4 {
        lemma_le_value_bound(bytes.take(4));
    }
}

/// The low byte of a number comes first, and the others follow as those of a
/// 256th of it; and a number is read as its first byte and 256 times the rest.
pub proof fn law_low_bytes_come_first(value: nat, width: nat, bytes: Seq<u8>)
    requires
        width > 0,
        bytes.len() > 0,
    ensures
        le_bytes(value, width).len() == width,
        le_bytes(value, width)[0] == value % 256,
        le_bytes(value, width).skip(1) == le_bytes(value / 256, (width - 1) as nat),
        le_value(bytes) == bytes[0] + 256 * le_value(bytes.skip(1)),
{
    lemma_le_bytes_len(value, width);
    assert(le_bytes(value, width).skip(1) =~= le_bytes(value / 256, (width - 1) as nat));
}

/// A flag is one byte, and a missing seed takes as many bytes as one that is
/// there, but says that it is missing.
pub proof fn law_missing_seeds_are_flagged(seed: u64)
    ensures
        wire_flag(true).len() == 1 && wire_flag(false).len() == 1,
        wire_flag(true)[0] == 1 && wire_flag(false)[0] == 0,
        wire_optional_u64(Some(seed)).len() == 9 && wire_optional_u64(None).len() == 9,
        wire_optional_u64(Some(seed))[0] == 1 && wire_optional_u64(None)[0] == 0,
        le_value(wire_optional_u64(Some(seed)).skip(1)) == seed,
{
    lemma_spans();
    law_le_round_trip(seed as nat, 8);
    law_le_round_trip(0, 8);
    assert(wire_optional_u64(Some(seed)).skip(1) =~= wire_u64(seed));
}

/// A list is its count and then its items, each where it stands: one more item is
/// its bytes behind all the others.
pub proof fn law_lists_are_counted<T>(items: Seq<T>, item: T, wire: spec_fn(T) -> Seq<u8>)
    requires
        items.len() < u32::MAX,
    ensures
        wire_each(items.push(item), wire) == wire_each(items, wire) + wire(item),
        wire_each(Seq::<T>::empty(), wire).len() == 0,
        wire_counted(items, wire).len() == 4 + wire_each(items, wire).len(),
        le_value(wire_counted(items, wire).take(4)) == items.len(),
        wire_counted(items, wire).skip(4) == wire_each(items, wire),
{
    lemma_spans();
    law_le_round_trip(items.len(), 4);
    assert(items.push(item).drop_last() =~= items);
    assert(wire_counted(items, wire).take(4) =~= wire_u32(wire_count(items.len())));
    assert(wire_counted(items, wire).skip(4) =~= wire_each(items, wire));
}

/// A protocol error says every number it carries, in its place.
pub proof fn law_protocol_errors_say_their_numbers(
    version: u32,
    code: u8,
    declared: u64,
    maximum: u64,
    got: usize,
    expected: usize,
    env: u32,
)
    ensures
        ProtocolError::UnsupportedVersion(version).words() == "protocol version "@ + (decimal(
            version as nat,
        ) + " is not supported"@),
        ProtocolError::UnknownOpcode(code).words() == "unknown opcode 0x"@ + hex_byte(code),
        (ProtocolError::PayloadTooLarge { declared, maximum }).words() == "payload of "@ + (decimal(
            declared as nat,
        ) + (" bytes exceeds the "@ + (decimal(maximum as nat) + " byte maximum"@))),
        (ProtocolError::ActionCount { got, expected }).words() == "expected "@ + (decimal(
            expected as nat,
        ) + (" actions, got "@ + decimal(got as nat))),
        (ProtocolError::InvalidAction { env }).words() == "the action for env "@ + (decimal(
            env as nat,
        ) + " is not a finite direction"@),
        ProtocolError::BadMagic.words() == "the stream is not a DodgeRoyale gym stream"@,
        ProtocolError::Truncated.words() == "the stream ended inside a message"@,
{
    assert(ProtocolError::UnsupportedVersion(version).words() =~= "protocol version "@ + (decimal(
        version as nat,
    ) + " is not supported"@));
    assert((ProtocolError::PayloadTooLarge { declared, maximum }).words() =~= "payload of "@ + (
    decimal(declared as nat) + (" bytes exceeds the "@ + (decimal(maximum as nat)
        + " byte maximum"@))));
    assert((ProtocolError::ActionCount { got, expected }).words() =~= "expected "@ + (decimal(
        expected as nat,
    ) + (" actions, got "@ + decimal(got as nat))));
    assert((ProtocolError::InvalidAction { env }).words() =~= "the action for env "@ + (decimal(
        env as nat,
    ) + " is not a finite direction"@));
}

/// Bytes are written behind their count, and read back as many as the count says: a
/// count above the maximum is refused with both numbers, and a stream that holds
/// fewer bytes ended too early.
pub proof fn law_bytes_are_counted(bytes: Seq<u8>, maximum: u64)
    ensures
        bytes.len() < u32::MAX ==> wire_bytes(bytes).len() == 4 + bytes.len() && le_value(
            wire_bytes(bytes).take(4),
        ) == bytes.len() && wire_bytes(bytes).skip(4) == bytes,
        bytes.len() < 4 ==> reads_bytes(bytes, maximum).0 == Err::<Seq<u8>, ProtocolError>(
            ProtocolError::Truncated,
        ),
        bytes.len() >= 4 ==> {
            let count = le_value(bytes.take(4)) as int;
            &&& count > maximum ==> reads_bytes(bytes, maximum) == (
                Err::<Seq<u8>, ProtocolError>(
                    ProtocolError::PayloadTooLarge { declared: count as u64, maximum },
                ),
                bytes.skip(4),
            )
            &&& count <= maximum && bytes.len() < 4 + count ==> reads_bytes(bytes, maximum).0
                == Err::<Seq<u8>, ProtocolError>(ProtocolError::Truncated)
            &&& count <= maximum && bytes.len() >= 4 + count ==> reads_bytes(bytes, maximum) == (
                Ok::<Seq<u8>, ProtocolError>(bytes.subrange(4, 4 + count)),
                bytes.skip(4 + count),
            )
        },
{
    lemma_spans();
    if bytes.len() < u32::MAX {
        law_le_round_trip(bytes.len(), 4);
        assert(wire_bytes(bytes).take(4) =~= wire_u32(wire_count(bytes.len())));
        assert(wire_bytes(bytes).skip(4) =~= bytes);
    }
    if bytes.len() >= 4 {
        let count = le_value(bytes.take(4)) as int;
        if bytes.len() >= 4 + count {
            assert(bytes.skip(4).take(count) =~= bytes.subrange(4, 4 + count));
            assert(bytes.skip(4).skip(count) =~= bytes.skip(4 + count));
        }
    }
}

/// A byte is read from the front of what is left.
pub proof fn law_single_bytes(bytes: Seq<u8>)
    ensures
        bytes.len() == 0 ==> reads_u8(bytes).0 == Err::<u8, ProtocolError>(
            ProtocolError::Truncated,
        ),
        bytes.len() > 0 ==> reads_u8(bytes).0 == Ok::<u8, ProtocolError>(bytes[0]),
        bytes.len() > 0 ==> seq![bytes[0]] + reads_u8(bytes).1 == bytes,
{
    if bytes.len() > 0 {
        assert(seq![bytes[0]] + reads_u8(bytes).1 =~= bytes);
    }
}

} // verus!

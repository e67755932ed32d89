//! Byte-level tests for protocol version 2.
//!
//! These pin the format: a change that breaks one of these breaks every
//! trained checkpoint's ability to be fed, so it needs a version bump.

use dodge_royale::bits::Vec2;
use dodge_royale::gym::protocol::reading::request_needs;
use dodge_royale::gym::protocol::{
    episode_seed, max_payload, read_handshake, read_request, read_request_or_eof, read_reset,
    read_step, response, write_closed, write_error, write_handshake, write_request, write_reset,
    write_step, EnvTransition, ProtocolError, Request, ResetBatch, StepBatch,
    TerminalObservation, MAGIC,
};
use dodge_royale::observation::OBSERVATION_VALUES;

fn vec2(x: f32, y: f32) -> Vec2 {
    Vec2 {
        x: x.to_bits(),
        y: y.to_bits(),
    }
}

fn zero() -> Vec2 {
    vec2(0.0, 0.0)
}

fn bits(values: &[f32]) -> Vec<u32> {
    values.iter().map(|value| value.to_bits()).collect()
}

fn step_of(request: Request) -> Vec<Vec2> {
    match request {
        Request::Step(actions) => actions,
        other => panic!("expected a step, got {other:?}"),
    }
}

#[test]
fn another_programs_output_is_rejected_rather_than_parsed() {
    let mut noise = b"hello there, this is not a gym".to_vec();
    noise.extend_from_slice(&[0_u8; 64]);
    assert!(matches!(
        read_handshake(&mut noise.as_slice()),
        Err(ProtocolError::BadMagic)
    ));
}

#[test]
fn a_future_version_is_refused_before_anything_is_built() {
    let mut bytes = Vec::new();
    bytes.extend_from_slice(&MAGIC);
    bytes.extend_from_slice(&99_u32.to_le_bytes());
    match read_handshake(&mut bytes.as_slice()) {
        Err(ProtocolError::UnsupportedVersion(99)) => {}
        other => panic!("expected an unsupported version, got {other:?}"),
    }
}

#[test]
fn a_handshake_document_is_framed_and_comes_back() {
    let mut bytes = Vec::new();
    write_handshake(&mut bytes, b"{}").expect("writing a handshake");
    assert_eq!(
        bytes,
        b"DRGYM\0\0\x02\x02\0\0\0\x81\x02\0\0\0{}",
        "magic, version, opcode, count, document"
    );
    let mut reader = bytes.as_slice();
    assert_eq!(read_handshake(&mut reader).expect("reading it back"), b"{}");
    assert!(reader.is_empty());
    bytes[12] = 0x80;
    assert!(matches!(
        read_handshake(&mut bytes.as_slice()),
        Err(ProtocolError::UnknownOpcode(0x80))
    ));
    assert!(matches!(
        read_handshake(&mut b"DRGYM".as_slice()),
        Err(ProtocolError::Truncated)
    ));
}

#[test]
fn a_step_request_is_bytes_we_can_write_out_by_hand() {
    let mut bytes = Vec::new();
    let actions = vec![zero(), vec2(1.0, -0.5)];
    write_request(&mut bytes, &Request::Step(actions.clone())).expect("writing a step");
    assert_eq!(
        bytes,
        vec![
            0x01, // STEP
            2, 0, 0, 0, // two envs, not two floats
            0, 0, 0, 0, // env 0 x = 0.0
            0, 0, 0, 0, // env 0 y = 0.0
            0, 0, 0x80, 0x3F, // env 1 x = 1.0
            0, 0, 0, 0xBF, // env 1 y = -0.5
        ],
        "opcode, env count, then x and y per env"
    );

    let request = read_request(&mut bytes.as_slice(), 2, 1_024).expect("reading it back");
    assert_eq!(step_of(request), actions);
}

#[test]
fn a_direction_survives_the_wire_exactly() {
    // Not a round number in binary: a client that read the payload as
    // anything but little-endian f32 would come back with a different angle.
    let actions = vec![vec2(0.123_456_79, -0.987_654_3)];
    let mut bytes = Vec::new();
    write_request(&mut bytes, &Request::Step(actions.clone())).expect("writing a step");
    assert_eq!(
        step_of(read_request(&mut bytes.as_slice(), 1, 1_024).expect("reading it back")),
        actions
    );
}

#[test]
fn a_reset_carries_a_presence_flag_so_seed_zero_stays_a_seed() {
    let mut seeded = Vec::new();
    write_request(&mut seeded, &Request::Reset(Some(0))).expect("writing a reset");
    assert_eq!(seeded, vec![0x02, 1, 0, 0, 0, 0, 0, 0, 0, 0]);
    assert!(
        matches!(
            read_request(&mut seeded.as_slice(), 2, 1_024).expect("reading it"),
            Request::Reset(Some(0))
        ),
        "an explicit zero seed is not an absent seed"
    );

    let mut unseeded = Vec::new();
    write_request(&mut unseeded, &Request::Reset(None)).expect("writing a reset");
    assert!(matches!(
        read_request(&mut unseeded.as_slice(), 2, 1_024).expect("reading it"),
        Request::Reset(None)
    ));
}

#[test]
fn a_close_is_one_byte() {
    let mut bytes = Vec::new();
    write_request(&mut bytes, &Request::Close).expect("writing a close");
    assert_eq!(bytes, vec![0x03]);
    assert!(matches!(
        read_request(&mut bytes.as_slice(), 2, 1_024).expect("reading it"),
        Request::Close
    ));
}

#[test]
fn a_step_with_the_wrong_number_of_actions_steps_nothing() {
    let mut bytes = Vec::new();
    write_request(&mut bytes, &Request::Step(vec![zero(); 3])).expect("writing a step");
    match read_request(&mut bytes.as_slice(), 2, 1_024) {
        Err(ProtocolError::ActionCount {
            got: 3,
            expected: 2,
        }) => {}
        other => panic!("expected an action-count error, got {other:?}"),
    }
}

#[test]
fn a_direction_that_is_not_finite_is_refused() {
    // A NaN would reach the player's position and from there every value in
    // every observation, so it must not get past the reader.
    for bad in [
        vec2(f32::NAN, 0.0),
        vec2(0.0, f32::INFINITY),
        vec2(f32::NEG_INFINITY, f32::NEG_INFINITY),
    ] {
        let mut bytes = Vec::new();
        write_request(&mut bytes, &Request::Step(vec![zero(), bad])).expect("writing a step");
        match read_request(&mut bytes.as_slice(), 2, 1_024) {
            Err(ProtocolError::InvalidAction { env: 1 }) => {}
            other => panic!("expected env 1 refused for {bad:?}, got {other:?}"),
        }
    }
}

#[test]
fn a_long_direction_is_carried_rather_than_refused() {
    // Only finiteness is the reader's business. Length does not set speed, and
    // clamping here would hide a client bug the arena would otherwise ignore.
    let actions = vec![vec2(1_000.0, 1_000.0)];
    let mut bytes = Vec::new();
    write_request(&mut bytes, &Request::Step(actions.clone())).expect("writing a step");
    assert_eq!(
        step_of(read_request(&mut bytes.as_slice(), 1, 1_024).expect("reading it back")),
        actions
    );
}

#[test]
fn an_unknown_opcode_is_named_rather_than_guessed() {
    match read_request(&mut [0x7f_u8].as_slice(), 1, 1_024) {
        Err(ProtocolError::UnknownOpcode(0x7f)) => {}
        other => panic!("expected an unknown opcode, got {other:?}"),
    }
}

#[test]
fn a_declared_length_beyond_the_maximum_is_refused_before_allocating() {
    // Opcode, then four billion envs. The count names envs and each costs
    // eight bytes, so what is refused is the eight-times-larger byte cost --
    // and the refusal quotes the cap that really exists, not a scaled one.
    let bytes = vec![0x01, 0xff, 0xff, 0xff, 0xff];
    match read_request(&mut bytes.as_slice(), 2, 64) {
        Err(ProtocolError::PayloadTooLarge { declared, maximum }) => {
            assert_eq!(declared, u64::from(u32::MAX) * 8);
            assert_eq!(maximum, 64);
        }
        other => panic!("expected a size refusal, got {other:?}"),
    }
}

#[test]
fn a_message_cut_in_half_is_truncation_not_a_short_batch() {
    let mut bytes = Vec::new();
    write_request(&mut bytes, &Request::Step(vec![zero(); 2])).expect("writing a step");
    bytes.truncate(bytes.len() - 1);
    assert!(matches!(
        read_request(&mut bytes.as_slice(), 2, 1_024),
        Err(ProtocolError::Truncated)
    ));
}

#[test]
fn every_cut_of_every_message_is_truncation() {
    let mut bytes = Vec::new();
    write_request(&mut bytes, &Request::Reset(Some(9))).expect("writing a reset");
    for kept in 0..bytes.len() {
        assert!(matches!(
            read_request(&mut &bytes[..kept], 2, 1_024),
            Err(ProtocolError::Truncated)
        ));
    }
    let mut bytes = Vec::new();
    write_step(&mut bytes, &sample_batch()).expect("writing a batch");
    for kept in 0..bytes.len() {
        assert!(matches!(
            read_step(&mut &bytes[..kept], 1 << 20),
            Err(ProtocolError::Truncated)
        ));
    }
}

#[test]
fn the_end_of_the_stream_between_messages_is_no_request() {
    let mut empty: &[u8] = &[];
    assert!(matches!(
        read_request_or_eof(&mut empty, 1, 64),
        Ok(None)
    ));
    let mut half: &[u8] = &[0x02, 1];
    assert!(matches!(
        read_request_or_eof(&mut half, 1, 64),
        Err(ProtocolError::Truncated)
    ));
    let mut close: &[u8] = &[0x03, 0x7f];
    assert!(matches!(
        read_request_or_eof(&mut close, 1, 64),
        Ok(Some(Request::Close))
    ));
    assert_eq!(close, &[0x7f]);
}

#[test]
fn a_request_says_how_many_bytes_it_needs() {
    assert_eq!(request_needs(&[], 1_024), 1);
    assert_eq!(request_needs(&[0x03], 1_024), 1);
    assert_eq!(request_needs(&[0x7f], 1_024), 1);
    assert_eq!(request_needs(&[0x02], 1_024), 10);
    assert_eq!(request_needs(&[0x01], 1_024), 5);
    assert_eq!(request_needs(&[0x01, 3, 0, 0, 0], 1_024), 29);
    assert_eq!(request_needs(&[0x01, 3, 0, 0, 0], 16), 5);
}

fn sample_batch() -> StepBatch {
    StepBatch {
        transitions: vec![
            EnvTransition {
                frame: 17,
                terminated: false,
                truncated: false,
                enemy_deaths: 2,
                episode_seed: 7,
                reset_seed: None,
            },
            EnvTransition {
                frame: 3_600,
                terminated: true,
                truncated: true,
                enemy_deaths: 0,
                episode_seed: 8,
                reset_seed: Some(0),
            },
        ],
        observations: bits(&[0.5, -0.25, 1.0, 0.0]),
        terminal: vec![TerminalObservation {
            env: 1,
            observation: bits(&[0.125, 0.25]),
        }],
    }
}

fn assert_same_step(read: &StepBatch, batch: &StepBatch) {
    assert_eq!(read.transitions, batch.transitions);
    assert_eq!(read.observations, batch.observations);
    assert_eq!(read.terminal.len(), batch.terminal.len());
    for (left, right) in read.terminal.iter().zip(&batch.terminal) {
        assert_eq!(left.env, right.env);
        assert_eq!(left.observation, right.observation);
    }
}

#[test]
fn a_step_response_round_trips_every_field() {
    let batch = sample_batch();
    let mut bytes = Vec::new();
    write_step(&mut bytes, &batch).expect("writing a batch");
    let read = read_step(&mut bytes.as_slice(), 1 << 20).expect("reading it back");
    assert_same_step(&read, &batch);

    let ended = read.transitions.get(1).expect("the second env");
    assert!(
        ended.done(),
        "death and timeout on the same frame both land"
    );
    assert_eq!(
        ended.reset_seed,
        Some(0),
        "a replacement episode's seed of zero survives the round trip"
    );
    assert_eq!(read.transitions.first().expect("the first env").frame, 17);
}

#[test]
fn a_reset_response_carries_seeds_and_observations_and_no_transition() {
    let batch = ResetBatch {
        seeds: vec![11, 12],
        observations: bits(&[0.0, 1.0, 2.0, 3.0]),
    };
    let mut bytes = Vec::new();
    write_reset(&mut bytes, &batch).expect("writing a reset");
    let read = read_reset(&mut bytes.as_slice(), 1 << 20).expect("reading it back");
    assert_eq!(read.seeds, batch.seeds);
    assert_eq!(read.observations, batch.observations);
}

#[test]
fn a_response_read_as_the_wrong_kind_is_an_opcode_error() {
    let mut bytes = Vec::new();
    write_reset(
        &mut bytes,
        &ResetBatch {
            seeds: vec![1],
            observations: bits(&[0.0]),
        },
    )
    .expect("writing a reset");
    assert!(matches!(
        read_step(&mut bytes.as_slice(), 1 << 20),
        Err(ProtocolError::UnknownOpcode(_))
    ));
}

#[test]
fn an_error_record_is_bounded() {
    let mut bytes = Vec::new();
    let long = "x".repeat(10_000);
    write_error(&mut bytes, 7, &long).expect("writing an error");
    assert!(
        bytes.len() < 2_048,
        "a diagnostic must not become a denial of service: {} bytes",
        bytes.len()
    );
    let mut short = Vec::new();
    write_error(&mut short, 7, "no").expect("writing an error");
    assert_eq!(short, vec![0xff, 7, 0, 0, 0, 2, 0, 0, 0, b'n', b'o']);
}

#[test]
fn a_close_acknowledgement_is_its_own_opcode() {
    let mut bytes = Vec::new();
    write_closed(&mut bytes).expect("writing an ack");
    assert_eq!(bytes, vec![0x84]);
}

#[test]
fn episode_seeds_are_fixed_vectors_both_sides_can_check() {
    // Pinned so a client can preview a seed with the same published function.
    assert_eq!(episode_seed(0, 0, 0), 0x03c9_45fe_bf14_bb41);
    assert_eq!(episode_seed(42, 0, 0), 0xf180_f60c_3220_5505);
    assert_eq!(episode_seed(42, 1, 0), 0x9669_bf1b_feab_f0a8);
    assert_eq!(episode_seed(42, 0, 1), 0x3f14_9731_2d1e_30a8);
}

#[test]
fn an_envs_seed_stream_does_not_depend_on_other_envs() {
    let first: Vec<u64> = (0..4).map(|episode| episode_seed(5, 0, episode)).collect();
    let second: Vec<u64> = (0..4).map(|episode| episode_seed(5, 1, episode)).collect();
    assert_ne!(first, second, "two envs are two streams");
    assert_eq!(
        first,
        (0..4)
            .map(|episode| episode_seed(5, 0, episode))
            .collect::<Vec<_>>(),
        "and a stream is a pure function of its counters"
    );
}

#[test]
fn the_payload_bound_covers_a_full_batch_and_refuses_more() {
    let maximum = max_payload(8, OBSERVATION_VALUES);
    let one_batch = (8 * OBSERVATION_VALUES * 4) as u64;
    assert!(maximum > one_batch, "a real batch fits: {maximum}");
    assert!(
        maximum < one_batch * 4,
        "but the bound still bounds something: {maximum}"
    );
    assert_eq!(maximum, 9 * (28_782 * 4 + 64) * 2 + 4_096);
    assert_eq!(max_payload(u32::MAX, usize::MAX), u64::MAX);
}

/// The exact bytes `sample_batch` must occupy on the wire.
///
/// Written out by hand rather than captured from the writer, so it is a
/// statement about the format and not a photograph of the implementation. A
/// codec that changes how many calls it makes must still produce this.
fn sample_batch_bytes() -> Vec<u8> {
    let mut bytes = Vec::new();
    bytes.push(response::STEP);
    bytes.extend_from_slice(&[2, 0, 0, 0]); // two envs

    // Env 0: frame 17, running, two enemy deaths, episode seed 7, no reset.
    bytes.extend_from_slice(&[17, 0, 0, 0]);
    bytes.extend_from_slice(&[0, 0]); // terminated, truncated
    bytes.extend_from_slice(&[2, 0, 0, 0]);
    bytes.extend_from_slice(&[7, 0, 0, 0, 0, 0, 0, 0]);
    bytes.extend_from_slice(&[0]); // no replacement seed
    bytes.extend_from_slice(&[0, 0, 0, 0, 0, 0, 0, 0]); // written even so

    // Env 1: frame 3600, died as the budget ran out, replaced on seed zero.
    bytes.extend_from_slice(&[0x10, 0x0E, 0, 0]);
    bytes.extend_from_slice(&[1, 1]);
    bytes.extend_from_slice(&[0, 0, 0, 0]);
    bytes.extend_from_slice(&[8, 0, 0, 0, 0, 0, 0, 0]);
    bytes.extend_from_slice(&[1]); // present, and the value is zero
    bytes.extend_from_slice(&[0, 0, 0, 0, 0, 0, 0, 0]);

    // Observations: 0.5, -0.25, 1.0, 0.0.
    bytes.extend_from_slice(&[4, 0, 0, 0]);
    bytes.extend_from_slice(&[0x00, 0x00, 0x00, 0x3F]);
    bytes.extend_from_slice(&[0x00, 0x00, 0x80, 0xBE]);
    bytes.extend_from_slice(&[0x00, 0x00, 0x80, 0x3F]);
    bytes.extend_from_slice(&[0x00, 0x00, 0x00, 0x00]);

    // One terminal observation, for env 1: 0.125, 0.25.
    bytes.extend_from_slice(&[1, 0, 0, 0]);
    bytes.extend_from_slice(&[1, 0, 0, 0]);
    bytes.extend_from_slice(&[2, 0, 0, 0]);
    bytes.extend_from_slice(&[0x00, 0x00, 0x00, 0x3E]);
    bytes.extend_from_slice(&[0x00, 0x00, 0x80, 0x3E]);
    bytes
}

#[test]
fn an_auto_reset_step_response_is_bytes_we_can_write_out_by_hand() {
    let mut written = Vec::new();
    write_step(&mut written, &sample_batch()).expect("writing a batch");
    assert_eq!(
        written,
        sample_batch_bytes(),
        "the wire format is frozen: little endian, length prefixed, in this order"
    );
}

#[test]
fn a_reset_response_is_bytes_we_can_write_out_by_hand() {
    let mut written = Vec::new();
    write_reset(
        &mut written,
        &ResetBatch {
            seeds: vec![11, 12],
            observations: bits(&[0.5, -0.25]),
        },
    )
    .expect("writing a reset");

    let mut expected = Vec::new();
    expected.push(response::RESET);
    expected.extend_from_slice(&[2, 0, 0, 0]);
    expected.extend_from_slice(&[11, 0, 0, 0, 0, 0, 0, 0]);
    expected.extend_from_slice(&[12, 0, 0, 0, 0, 0, 0, 0]);
    expected.extend_from_slice(&[2, 0, 0, 0]);
    expected.extend_from_slice(&[0x00, 0x00, 0x00, 0x3F]);
    expected.extend_from_slice(&[0x00, 0x00, 0x80, 0xBE]);
    assert_eq!(written, expected);
}

#[test]
fn float_arrays_survive_any_length_a_chunked_codec_might_split() {
    // A codec that moves floats in blocks has a seam. These lengths sit on
    // both sides of every power-of-two block size it might pick, so a batch
    // that ends mid-block is covered whatever the block turns out to be.
    for count in [
        0_usize, 1, 2, 255, 256, 257, 511, 512, 1_023, 1_024, 1_025, 4_097,
    ] {
        let observations: Vec<u32> = (0..count)
            .map(|index| {
                // Values that are not round: a byte swap or a dropped block
                // has to show up as a different number, not a similar one.
                let scaled = index as f32;
                scaled.mul_add(0.001_25, -3.5).to_bits()
            })
            .collect();
        let batch = ResetBatch {
            seeds: vec![1],
            observations,
        };

        let mut bytes = Vec::new();
        write_reset(&mut bytes, &batch).expect("writing a reset");
        assert_eq!(
            bytes.len(),
            1 + 4 + 8 + 4 + count * 4,
            "a float array is a count and that many four-byte values: {count}"
        );
        let read = read_reset(&mut bytes.as_slice(), 1 << 20).expect("reading it back");
        assert_eq!(
            read.observations, batch.observations,
            "every value comes back bit for bit at length {count}"
        );
        assert_eq!(read.seeds, batch.seeds);
    }
}

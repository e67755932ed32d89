//! The rules of an episode, its actions, and the paths it predicts.

use std::time::Duration;

use dodge_royale::bits::Vec2 as Bits;
use dodge_royale::collision::Collider;
use dodge_royale::enemy_types::{resolve_blasts, resolve_contacts, EnemyContact, EnemyKind, Quarry};
use dodge_royale::motion::{movement_response, top_speed, MAX_FRAME_SECONDS};
use dodge_royale::simulation::{
    intent_from_command, motion_contract, move_player, predict_path, view_world, Action,
    ArenaConfig, ArenaError, ArenaFill, BlastView, EnemyView, FillStep, FrameCounters,
    HeadlessArena, PlayerMotion, PlayerView, StepResult, DEFAULT_HOLD_FRAMES, FRAME_NANOS,
    FRAME_SECONDS, HORIZON, IDLE_SQUARED, IDLE_THRESHOLD, SAMPLE_COUNT, SAMPLE_FRAMES,
};

const WORLD_HALF: Vec2 = Vec2 { x: 3_000.0, y: 2_000.0 };

#[derive(Clone, Copy, Debug, PartialEq)]
struct Vec2 {
    x: f32,
    y: f32,
}

impl Vec2 {
    const ZERO: Vec2 = Vec2 { x: 0.0, y: 0.0 };
    const X: Vec2 = Vec2 { x: 1.0, y: 0.0 };
    const Y: Vec2 = Vec2 { x: 0.0, y: 1.0 };

    fn new(x: f32, y: f32) -> Vec2 {
        Vec2 { x, y }
    }

    fn bits(self) -> Bits {
        Bits { x: self.x.to_bits(), y: self.y.to_bits() }
    }

    fn length(self) -> f32 {
        (self.x * self.x + self.y * self.y).sqrt()
    }

    fn distance(self, other: Vec2) -> f32 {
        Vec2::new(self.x - other.x, self.y - other.y).length()
    }
}

fn floats(value: Bits) -> Vec2 {
    Vec2::new(f32::from_bits(value.x), f32::from_bits(value.y))
}

fn wrap(value: f32, half: f32) -> f32 {
    (value + half).rem_euclid(half * 2.0) - half
}

/// One frame of player movement.
fn advance_motion(position: Vec2, velocity: &mut Vec2, direction: Vec2) -> Vec2 {
    let seconds = f32::from_bits(FRAME_SECONDS);
    let response = f32::from_bits(movement_response());
    let speed = f32::from_bits(top_speed());
    let length = direction.length();
    let target = if length > 0.0 {
        Vec2::new(direction.x / length * speed, direction.y / length * speed)
    } else {
        Vec2::ZERO
    };
    let before = *velocity;
    let kept = (-response * seconds).exp();
    *velocity = Vec2::new(
        target.x + (before.x - target.x) * kept,
        target.y + (before.y - target.y) * kept,
    );
    Vec2::new(
        wrap(position.x + target.x * seconds + (before.x - velocity.x) / response, WORLD_HALF.x),
        wrap(position.y + target.y * seconds + (before.y - velocity.y) / response, WORLD_HALF.y),
    )
}

/// An arena with a player in it.
struct Arena {
    rules: HeadlessArena,
    motion: PlayerMotion,
}

impl Arena {
    fn new(config: ArenaConfig) -> Result<Arena, ArenaError> {
        Ok(Arena { rules: filled(HeadlessArena::new(config)?, 64)?, motion: standing(Vec2::ZERO) })
    }

    fn set_intent(&mut self, direction: Vec2) {
        self.rules.set_intent(direction.bits()).expect("a finite direction");
    }

    fn step(&mut self) -> Result<StepResult, ArenaError> {
        self.step_with(FrameCounters::default())
    }

    fn step_with(&mut self, counters: FrameCounters) -> Result<StepResult, ArenaError> {
        let result = self.rules.step(counters)?;
        self.motion = moved(false, self.motion, floats(self.rules.intent()));
        Ok(result)
    }

    fn position(&self) -> Vec2 {
        floats(self.motion.position)
    }
}

fn standing(at: Vec2) -> PlayerMotion {
    PlayerMotion { position: at.bits(), velocity: Vec2::ZERO.bits() }
}

fn moved(defeated: bool, before: PlayerMotion, intent: Vec2) -> PlayerMotion {
    let mut velocity = floats(before.velocity);
    let position = advance_motion(floats(before.position), &mut velocity, intent);
    move_player(
        defeated,
        before,
        PlayerMotion { position: position.bits(), velocity: velocity.bits() },
    )
}

/// Fill an arena, so many enemies to the pass.
fn filled(filling: ArenaFill, per_pass: usize) -> Result<HeadlessArena, ArenaError> {
    let mut filling = filling;
    let mut placed = 0;
    loop {
        match filling.fill(placed)? {
            FillStep::Ready(arena) => return Ok(arena),
            FillStep::RunPass(more) => filling = more,
        }
        placed += per_pass;
    }
}

fn empty_arena(max_frames: u32) -> Arena {
    Arena::new(ArenaConfig { seed: 7, enemy_count: 0, max_frames, ..ArenaConfig::default() })
        .expect("an empty arena always builds")
}

/// The tally of a frame on which the player was hit.
fn fatal() -> FrameCounters {
    let mut counters = FrameCounters::default();
    counters.record_player_hits(&[1], &[1]);
    counters
}

#[test]
fn intent_written_this_update_moves_the_player_in_the_same_update() {
    let after = moved(false, standing(Vec2::ZERO), Vec2::X);
    let (position, velocity) = (floats(after.position), floats(after.velocity));
    assert!(position.x > 0.0, "the player should have moved right");
    assert!(velocity.x > 0.0, "and be carrying rightward velocity");
    assert!(
        position.y.abs() < f32::EPSILON,
        "with no drift on the unasked axis"
    );
}

#[test]
fn intent_persists_across_updates_without_being_rewritten() {
    let mut arena = empty_arena(600);
    arena.set_intent(Vec2::X);
    arena.step().expect("a step");
    let first = arena.position();
    arena.step().expect("a step");
    let second = arena.position();
    assert!(
        second.x > first.x,
        "a held direction keeps accelerating the player"
    );
}

#[test]
fn a_defeated_player_stops_and_stays_put() {
    let before = moved(false, standing(Vec2::ZERO), Vec2::X);
    assert!(floats(before.velocity).x > 0.0, "the player was moving before defeat");
    let after = moved(true, before, Vec2::X);
    assert_eq!(after.position, before.position, "a defeated player does not move");
    assert_eq!(floats(after.velocity), Vec2::ZERO, "and keeps no velocity");
}

#[test]
fn the_first_step_advances_exactly_one_frame_of_movement() {
    let mut arena = empty_arena(600);
    arena.set_intent(Vec2::X);

    let result = arena.step().expect("the first step runs");

    assert_eq!(result.frame, 1, "the first step is frame one");
    let reference = {
        let mut velocity = Vec2::ZERO;
        advance_motion(Vec2::ZERO, &mut velocity, Vec2::X)
    };
    let moved = arena.position();
    assert!(
        moved.distance(reference) < 0.001,
        "one step must integrate exactly one frame: {moved:?} against {reference:?}"
    );
}

#[test]
fn the_shared_timestep_is_the_duration_the_clock_actually_uses() {
    // What matters is that prediction integrates the duration the clock ticks.
    let clock = Duration::from_nanos(FRAME_NANOS).as_secs_f32();
    let predicted = f32::from_bits(FRAME_SECONDS);
    assert!(
        (clock - predicted).abs() < 1e-9,
        "prediction ({predicted}) must integrate the clock's frame ({clock})"
    );
}

#[test]
fn frame_zero_waits_for_the_full_population_and_asks_for_no_movement() {
    let filling = HeadlessArena::new(ArenaConfig {
        seed: 11,
        enemy_count: 100,
        ..ArenaConfig::default()
    })
    .expect("a hundred enemies are allowed");
    let short = match filling.fill(99).expect("a pass is left") {
        FillStep::RunPass(more) => more,
        FillStep::Ready(_) => panic!("ninety-nine are not a hundred"),
    };
    let arena = filled(short, 30).expect("a hundred enemies fit");
    assert_eq!(arena.frame(), 0, "no frame has been simulated yet");
    assert_eq!(arena.intent(), Vec2::ZERO.bits());
    assert!(!arena.done());
    assert_eq!(arena.config().enemy_count, 100);
}

#[test]
fn a_population_that_does_not_fit_the_pass_budget_is_an_error() {
    // One pass places at most the population controller's per-update budget,
    // so asking for far more than that in a single pass cannot succeed.
    let filling = HeadlessArena::new(ArenaConfig {
        seed: 3,
        enemy_count: 200,
        max_init_passes: 1,
        ..ArenaConfig::default()
    })
    .expect("the configuration is allowed");

    match filled(filling, 64).err().expect("one pass cannot place two hundred enemies") {
        ArenaError::Population { placed, requested } => {
            assert_eq!(requested, 200);
            assert!(placed < 200, "the arena reports what it managed: {placed}");
        }
        other => panic!("expected a population error, got {other:?}"),
    }
}

#[test]
fn a_budget_of_zero_passes_cannot_place_an_enemy() {
    let error = HeadlessArena::new(ArenaConfig {
        seed: 3,
        enemy_count: 1,
        max_init_passes: 0,
        ..ArenaConfig::default()
    });
    assert_eq!(
        error.err(),
        Some(ArenaError::InvalidConfig(
            "max_init_passes must be at least one to place any enemy"
        )),
    );
}

#[test]
fn a_zero_frame_budget_is_rejected() {
    let error = HeadlessArena::new(ArenaConfig { max_frames: 0, ..ArenaConfig::default() });
    assert_eq!(
        error.err(),
        Some(ArenaError::InvalidConfig(
            "max_frames must be at least one frame"
        ))
    );
}

fn quarry(entity: u64) -> Quarry {
    Quarry {
        entity,
        collider: Collider::default(),
        velocity: Vec2::X.bits(),
        defeated: false,
    }
}

#[test]
fn touching_an_enemy_terminates_the_episode() {
    let mut arena = empty_arena(600);
    let mut quarries = vec![quarry(1)];
    let contacts = [EnemyContact { enemy: 5, target: 1 }];
    let casualties = resolve_contacts(&contacts, &mut quarries);
    let mut counters = FrameCounters::default();
    counters.count_enemy_deaths(0);
    counters.record_player_hits(&casualties.hits, &[1]);

    let result = arena.step_with(counters).expect("the step runs");

    assert!(result.hit, "an enemy on the player is a hit");
    assert!(result.terminated, "a hit ends the episode");
    assert!(!result.truncated, "the frame budget is untouched");
    assert_eq!(
        result.enemy_deaths, 0,
        "the enemy that reaches the player is not an enemy-on-enemy death"
    );
}

#[test]
fn a_blast_kills_the_player_too() {
    let mut arena = empty_arena(600);
    let mut quarries = vec![quarry(1)];
    let hits = resolve_blasts(&[1, 1], &mut quarries);
    assert_eq!(hits, vec![1], "once, however many blasts there are");
    let mut counters = FrameCounters::default();
    counters.record_player_hits(&hits, &[1]);

    let result = arena.step_with(counters).expect("the step runs");

    assert!(result.hit, "the blast covers the player");
    assert!(result.terminated);
}

#[test]
fn a_finished_episode_stays_frozen_until_it_is_reset() {
    let mut arena = empty_arena(600);
    let ended = arena.step_with(fatal()).expect("the fatal step runs");
    assert!(ended.terminated);
    let after_death = arena.rules;

    assert_eq!(
        arena.step().err(),
        Some(ArenaError::Completed),
        "a completed episode refuses to advance"
    );
    assert_eq!(arena.rules, after_death, "and nothing about the episode changed");

    let begun = arena.rules.reset(99).expect("reset builds a fresh episode");
    arena.rules = filled(begun, 64).expect("an empty arena fills");
    assert_eq!(arena.rules.frame(), 0, "reset returns to frame zero");
    assert_eq!(arena.rules.config().seed, 99, "on the new seed");
    assert!(!arena.rules.done(), "and clears the ending");
    assert!(arena.step().is_ok(), "so stepping works again");
}

#[test]
fn the_frame_budget_truncates_without_terminating() {
    let mut arena = empty_arena(3);
    for frame in 1..=3 {
        let result = arena.step().expect("steps within the budget run");
        assert_eq!(result.frame, frame);
        assert_eq!(
            result.truncated,
            frame == 3,
            "only the last frame is a truncation"
        );
        assert!(!result.terminated, "running out of frames is not a death");
    }
    assert_eq!(arena.step().err(), Some(ArenaError::Completed));
}

#[test]
fn death_and_the_frame_budget_can_land_on_the_same_frame() {
    let mut arena = empty_arena(1);
    let result = arena.step_with(fatal()).expect("the only step runs");
    assert!(result.terminated, "the player died");
    assert!(result.truncated, "and the budget ran out");
    assert!(result.done());
}

#[test]
fn per_step_counters_do_not_leak_into_the_next_step() {
    let mut arena = empty_arena(600);
    let mut counters = FrameCounters::default();
    counters.count_enemy_deaths(2);
    let first = arena.step_with(counters).expect("the collision step runs");
    assert_eq!(first.enemy_deaths, 2);
    let second = arena.step().expect("the next step runs");
    assert_eq!(second.enemy_deaths, 0, "the tally starts again each frame");
}

#[test]
fn a_tally_counts_no_further_than_it_can_and_only_players_are_hit() {
    let mut counters = FrameCounters::default();
    counters.count_enemy_deaths(usize::MAX);
    counters.record_player_hits(&[7, 8], &[1, 2]);
    assert_eq!(counters, FrameCounters { hit: false, enemy_deaths: u32::MAX });
    counters.record_player_hits(&[7, 2], &[1, 2]);
    counters.record_player_hits(&[], &[1, 2]);
    assert!(counters.hit, "a hit stays recorded");
}

fn enemy(entity: u64, kind: EnemyKind) -> EnemyView {
    EnemyView {
        entity,
        kind,
        position: Vec2::new(500.0, -250.0).bits(),
        velocity: Vec2::ZERO.bits(),
        collider: Collider::rectangle(Vec2::new(15.0, 15.0).bits()),
    }
}

#[test]
fn the_view_reports_world_units_identity_and_blast_phase() {
    let player = PlayerView {
        entity: 1,
        position: Vec2::ZERO.bits(),
        velocity: Vec2::ZERO.bits(),
        collider: Collider::default(),
    };
    let blast = BlastView {
        entity: 9,
        position: Vec2::new(-100.0, 0.0).bits(),
        collider: Collider::rectangle(Vec2::new(40.0, 40.0).bits()),
        age: 0.25_f32.to_bits(),
        duration: 1.0_f32.to_bits(),
    };
    let other = BlastView { entity: 3, ..blast };
    let enemies = [
        (enemy(8, EnemyKind::Normal), false),
        (enemy(4, EnemyKind::Kamikaze), false),
    ];
    let view = view_world(12, None, &[player], &enemies, vec![blast, other]);

    assert_eq!(view.frame, 12);
    assert_eq!(view.player, Some(player));
    let seen = view.enemies.first().expect("the placed enemy is in the view");
    assert_eq!((seen.entity, seen.kind), (4, EnemyKind::Kamikaze), "in order of identity");
    assert_eq!(floats(seen.position), Vec2::new(500.0, -250.0));
    assert_eq!(floats(seen.collider.half_extents), Vec2::new(15.0, 15.0));
    assert_eq!(floats(view.half_extents), WORLD_HALF);
    assert_eq!(view.blasts, vec![other, blast]);
    assert!(f32::from_bits(view.blasts[0].duration) > 0.0, "the phase needs the full duration");
}

#[test]
fn dying_enemies_leave_the_view_before_they_can_be_painted() {
    let enemies = [(enemy(2, EnemyKind::Normal), true), (enemy(3, EnemyKind::Normal), true)];
    let bounds = Vec2::new(300.0, 100.0).bits();
    let view = view_world(1, Some(bounds), &[], &enemies, Vec::new());
    assert!(
        view.enemies.is_empty(),
        "a hazard that cannot kill is not reported as one"
    );
    assert_eq!(view.player, None);
    assert_eq!(view.half_extents, bounds);
}

#[test]
fn the_arena_world_wraps_at_the_documented_extents() {
    let view = view_world(0, None, &[], &[], Vec::new());
    assert_eq!(floats(view.half_extents), WORLD_HALF);
    assert_eq!(floats(motion_contract().world_half_extents), WORLD_HALF);
}

#[test]
fn an_empty_population_is_allowed_for_controlled_tests() {
    let mut arena = empty_arena(60);
    assert!(arena.step().is_ok());
}

// --- actions and predicted paths ---------------------------------------

/// Walk an arena with one action held for so long, sampling where the player
/// actually is at each horizon.
fn simulated_path(
    action: Action,
    hold_frames: u32,
    start: Vec2,
    warmup: Option<(Vec2, u32)>,
) -> Vec<Vec2> {
    let mut arena = empty_arena(10_000);
    arena.motion = standing(start);
    if let Some((direction, frames)) = warmup {
        arena.set_intent(direction);
        for _ in 0..frames {
            arena.step().expect("warm-up steps run");
        }
    }
    let mut samples = Vec::new();
    for frame in 1..=HORIZON {
        arena.set_intent(if frame <= hold_frames {
            floats(action.direction())
        } else {
            Vec2::ZERO
        });
        arena.step().expect("a step inside the budget");
        if SAMPLE_FRAMES.contains(&frame) {
            samples.push(arena.position());
        }
    }
    samples
}

/// Walk a predicted path to the horizon.
fn walk(position: Vec2, velocity: Vec2, direction: Bits, hold_frames: u32) -> Vec<Vec2> {
    let (mut position, mut velocity) = (position, velocity);
    let mut walk = predict_path(position.bits(), velocity.bits(), direction, hold_frames)
        .expect("finite inputs");
    let mut frames = 0;
    while let Some(held) = walk.held() {
        position = advance_motion(position, &mut velocity, floats(held));
        walk.advance(position.bits());
        frames += 1;
    }
    assert_eq!(frames, HORIZON, "a walk always stops at the horizon");
    walk.advance(Bits { x: 1, y: 1 });
    assert_eq!(walk.samples().len(), SAMPLE_COUNT, "and past it nothing happens");
    walk.samples().iter().map(|sample| floats(*sample)).collect()
}

fn predicted_path(
    action: Action,
    hold_frames: u32,
    start: Vec2,
    warmup: Option<(Vec2, u32)>,
) -> Vec<Vec2> {
    let mut arena = empty_arena(10_000);
    arena.motion = standing(start);
    if let Some((direction, frames)) = warmup {
        arena.set_intent(direction);
        for _ in 0..frames {
            arena.step().expect("warm-up steps run");
        }
    }
    walk(
        floats(arena.motion.position),
        floats(arena.motion.velocity),
        action.direction(),
        hold_frames,
    )
}

fn assert_paths_agree(action: Action, hold: u32, start: Vec2, warmup: Option<(Vec2, u32)>) {
    let predicted = predicted_path(action, hold, start, warmup);
    let simulated = simulated_path(action, hold, start, warmup);
    assert_eq!(predicted.len(), SAMPLE_COUNT);
    for (index, (left, right)) in predicted.iter().zip(simulated.iter()).enumerate() {
        let frame = SAMPLE_FRAMES[index];
        assert!(
            left.distance(*right) < 0.5,
            "{} hold {hold} at frame {frame}: predicted {left:?}, simulated {right:?}",
            action.name()
        );
    }
}

#[test]
fn every_action_predicts_where_the_arena_actually_goes_from_rest() {
    for action in Action::ALL {
        assert_paths_agree(action, DEFAULT_HOLD_FRAMES, Vec2::ZERO, None);
    }
}

#[test]
fn prediction_agrees_with_the_arena_from_a_moving_start() {
    // Run right for half a second first, then predict each action from the
    // momentum that leaves behind.
    for action in Action::ALL {
        assert_paths_agree(action, DEFAULT_HOLD_FRAMES, Vec2::ZERO, Some((Vec2::X, 30)));
    }
}

#[test]
fn prediction_agrees_for_every_hold_length() {
    for hold in [0, 1, DEFAULT_HOLD_FRAMES, 108] {
        assert_paths_agree(Action::Right, hold, Vec2::ZERO, None);
        assert_paths_agree(Action::UpLeft, hold, Vec2::ZERO, Some((Vec2::Y, 20)));
    }
}

#[test]
fn a_released_action_brakes_instead_of_stopping_dead() {
    let path = predicted_path(Action::Right, 4, Vec2::ZERO, None);
    let travelled: Vec<f32> = path.iter().map(|point| point.x).collect();
    assert!(travelled[0] > 0.0, "the held frames move the player");
    for pair in travelled.windows(2) {
        assert!(
            pair[1] >= pair[0] - 0.001,
            "coasting carries on in the same direction: {travelled:?}"
        );
    }
    // In reference pixels: four frames of input plus coasting is about ten
    // pixels of momentum, not a journey.
    let last = travelled[SAMPLE_COUNT - 1] / 6.25;
    assert!(
        (8.0..12.0).contains(&last),
        "four frames of input carries about ten pixels, not {last}"
    );
}

#[test]
fn idle_predicts_braking_from_a_moving_start() {
    let moving = predicted_path(
        Action::Idle,
        DEFAULT_HOLD_FRAMES,
        Vec2::ZERO,
        Some((Vec2::X, 30)),
    );
    let gaps: Vec<f32> = moving.windows(2).map(|pair| pair[1].x - pair[0].x).collect();
    assert!(gaps[0] > 0.0, "momentum carries the player on");
    assert!(
        gaps.last().copied().unwrap_or(1.0) < gaps[0],
        "and decays rather than continuing forever: {gaps:?}"
    );
}

#[test]
fn a_reversal_turns_the_player_around() {
    let path = predicted_path(
        Action::Left,
        DEFAULT_HOLD_FRAMES,
        Vec2::ZERO,
        Some((Vec2::X, 30)),
    );
    assert!(
        path[SAMPLE_COUNT - 1].x < path[0].x,
        "holding left against rightward momentum ends up further left: {path:?}"
    );
}

#[test]
fn a_diagonal_is_no_faster_than_a_cardinal() {
    let straight = predicted_path(Action::Right, 108, Vec2::ZERO, None);
    let diagonal = predicted_path(Action::UpRight, 108, Vec2::ZERO, None);
    let straight_distance = straight[SAMPLE_COUNT - 1].length();
    let diagonal_distance = diagonal[SAMPLE_COUNT - 1].length();
    assert!(
        (straight_distance - diagonal_distance).abs() < 0.5,
        "normalisation keeps both at the same speed: {straight_distance} against {diagonal_distance}"
    );
}

#[test]
fn predicted_paths_cross_both_seams_the_way_the_arena_does() {
    // Start a few units inside each edge, heading out of the world.
    let cases = [
        (Action::Right, Vec2::new(WORLD_HALF.x - 5.0, 0.0)),
        (Action::Up, Vec2::new(0.0, WORLD_HALF.y - 5.0)),
    ];
    for (action, start) in cases {
        let path = predicted_path(action, 108, start, None);
        for point in path {
            assert!(
                point.x.abs() <= WORLD_HALF.x && point.y.abs() <= WORLD_HALF.y,
                "a wrapped path stays inside the world: {point:?}"
            );
        }
        assert_paths_agree(action, 108, start, None);
    }
}

#[test]
fn every_sample_of_a_path_lies_inside_the_world() {
    let near = Vec2::new(WORLD_HALF.x - 1.0, WORLD_HALF.y - 1.0);
    let corners = [
        near,
        Vec2::new(-near.x, near.y),
        Vec2::new(near.x, -near.y),
        Vec2::new(-near.x, -near.y),
        WORLD_HALF,
        Vec2::new(1.0e7, -1.0e7),
    ];
    for start in corners {
        for action in Action::ALL {
            for hold in [0, DEFAULT_HOLD_FRAMES, HORIZON, u32::MAX] {
                let path = predicted_path(action, hold, start, Some((Vec2::X, 20)));
                assert_eq!(path.len(), SAMPLE_COUNT);
                for point in path {
                    assert!(point.x.abs() <= WORLD_HALF.x, "{point:?} is out of the world");
                    assert!(point.y.abs() <= WORLD_HALF.y, "{point:?} is out of the world");
                }
            }
        }
    }
}

#[test]
fn prediction_leaves_the_arena_untouched() {
    let mut arena = empty_arena(600);
    arena.set_intent(Vec2::X);
    arena.step().expect("one step before predicting");
    let before = (arena.rules, arena.motion);
    let path_of = |action: Action| {
        walk(
            floats(arena.motion.position),
            floats(arena.motion.velocity),
            action.direction(),
            DEFAULT_HOLD_FRAMES,
        )
    };
    let (left, right) = (path_of(Action::Left), path_of(Action::Right));
    assert_eq!((arena.rules, arena.motion), before, "predicting is not playing");
    assert_ne!(left, right, "and the actions are actually different");
}

#[test]
fn predicted_paths_start_from_the_players_momentum() {
    let at_rest = walk(Vec2::ZERO, Vec2::ZERO, Action::Idle.direction(), 24);
    let moving = walk(Vec2::ZERO, Vec2::new(900.0, 0.0), Action::Idle.direction(), 24);
    assert!(
        moving[0].x > at_rest[0].x,
        "a moving player's idle path is not a standing one"
    );
}

#[test]
fn action_bytes_are_the_protocol_order() {
    let names: Vec<&str> = Action::ALL.iter().map(|action| action.name()).collect();
    assert_eq!(
        names,
        vec![
            "idle",
            "left",
            "right",
            "up",
            "down",
            "up-left",
            "up-right",
            "down-left",
            "down-right"
        ]
    );
    for (index, action) in Action::ALL.iter().enumerate() {
        let byte = u8::try_from(index).expect("nine actions fit a byte");
        assert_eq!(Action::from_byte(byte), Some(*action));
        assert_eq!(action.index(), byte);
    }
    assert_eq!(Action::from_byte(9), None, "there is no tenth action");
}

#[test]
fn non_finite_prediction_inputs_fail_instead_of_reaching_an_observation() {
    let bad = predict_path(Vec2::new(f32::NAN, 0.0).bits(), Vec2::ZERO.bits(), Vec2::X.bits(), 24);
    assert!(matches!(bad, Err(ArenaError::NonFinite(_))));
    let bad =
        predict_path(Vec2::ZERO.bits(), Vec2::new(0.0, f32::INFINITY).bits(), Vec2::X.bits(), 24);
    assert!(matches!(bad, Err(ArenaError::NonFinite(_))));
    let bad = predict_path(Vec2::ZERO.bits(), Vec2::ZERO.bits(), Vec2::new(f32::NAN, 1.0).bits(), 24);
    assert!(matches!(bad, Err(ArenaError::NonFinite(_))));
}

#[test]
fn a_heading_that_is_not_finite_is_refused_and_a_short_one_stands_still() {
    let mut arena = empty_arena(60).rules;
    let square = |direction: Vec2| (direction.x * direction.x + direction.y * direction.y).to_bits();
    let ask = |arena: &mut HeadlessArena, direction: Vec2| {
        arena.set_action(direction.bits(), square(direction))
    };
    assert!(ask(&mut arena, Vec2::new(0.3, -0.4)).is_ok());
    assert_eq!(floats(arena.intent()), Vec2::new(0.3, -0.4));
    assert_eq!(
        ask(&mut arena, Vec2::new(f32::NAN, 0.0)).err(),
        Some(ArenaError::NonFinite("an intent must be a finite direction"))
    );
    assert_eq!(floats(arena.intent()), Vec2::new(0.3, -0.4), "the last one stands");
    assert!(ask(&mut arena, Vec2::new(0.1, 0.1)).is_ok());
    assert_eq!(floats(arena.intent()), Vec2::ZERO, "shorter than the floor is nowhere");
    let floor = f32::from_bits(IDLE_THRESHOLD);
    assert_eq!((floor * floor).to_bits(), IDLE_SQUARED);
    let edge = Vec2::new(floor, 0.0);
    assert_eq!(intent_from_command(edge.bits(), IDLE_SQUARED), edge.bits(), "the floor moves");
}

#[test]
fn arena_errors_say_what_went_wrong() {
    assert_eq!(
        ArenaError::InvalidConfig("max_frames must be at least one frame").message(),
        "invalid arena config: max_frames must be at least one frame"
    );
    assert_eq!(
        ArenaError::Population { placed: 12, requested: 200 }.message(),
        "placed 12 of 200 enemies before frame zero"
    );
    assert_eq!(
        ArenaError::Completed.message(),
        "the episode has ended; reset before stepping"
    );
    assert_eq!(ArenaError::NonFinite("not a place").message(), "not a place");
}

#[test]
fn the_movement_rules_are_on_record() {
    let contract = motion_contract();
    assert_eq!(contract.id, "royale-motion-1");
    let recorded = [
        (contract.top_speed, 937.5_f32),
        (contract.movement_response, 13.388_61),
        (contract.max_frame_seconds, 0.05),
        (contract.idle_threshold, 0.2),
        (contract.seconds_per_frame, 16_666_667.0 / 1_000_000_000.0),
        (contract.world_units_per_pixel, 6.25),
    ];
    for (bits, value) in recorded {
        assert_eq!(f32::from_bits(bits), value);
    }
    assert_eq!(f32::from_bits(MAX_FRAME_SECONDS), 0.05);
}

#[test]
fn an_arena_that_is_being_filled_tells_what_it_is_built_from() {
    let config = ArenaConfig { seed: 41, enemy_count: 3, ..ArenaConfig::default() };
    let filling = HeadlessArena::new(config).expect("a playable configuration");
    assert_eq!(filling.config(), config);
    let nothing = StepResult::default();
    assert_eq!((nothing.frame, nothing.enemy_deaths), (0, 0));
    assert!(!nothing.hit && !nothing.done());
}

#[test]
fn a_hold_past_the_horizon_comes_to_the_same_path_and_none_to_standing_still() {
    let start = Vec2::new(2_990.0, -100.0);
    let velocity = Vec2::new(300.0, -40.0);
    let direction = Action::UpRight.direction();
    let held = walk(start, velocity, direction, HORIZON);
    for hold_frames in [HORIZON + 1, 1_000, u32::MAX] {
        assert_eq!(walk(start, velocity, direction, hold_frames), held);
    }
    assert_ne!(walk(start, velocity, direction, HORIZON - 60), held);
    let still = walk(start, velocity, Action::Idle.direction(), DEFAULT_HOLD_FRAMES);
    assert_eq!(walk(start, velocity, direction, 0), still);
}

#[test]
fn an_arena_that_is_reset_goes_on_as_a_new_one_does() {
    let config = ArenaConfig { seed: 1, enemy_count: 3, max_frames: 3, ..ArenaConfig::default() };
    let mut arena = filled(HeadlessArena::new(config).expect("playable"), 64).expect("full");
    arena.step(FrameCounters { hit: true, enemy_deaths: 2 }).expect("a frame");
    let reset = arena.reset(9).expect("a reset");
    let begun = HeadlessArena::new(ArenaConfig { seed: 9, ..config }).expect("playable");
    assert_eq!(reset, begun);
    let mut left = filled(reset, 64).expect("full");
    let mut right = filled(begun, 64).expect("full");
    for frame in 0..4_u32 {
        assert_eq!(left, right);
        let direction = Action::Left.direction();
        assert_eq!(left.set_intent(direction), right.set_intent(direction));
        let counters = FrameCounters { hit: false, enemy_deaths: frame };
        assert_eq!(left.step(counters), right.step(counters));
    }
    assert!(left.done());
}

//! Enemies: what they chase, how they meet walls and each other, what they do
//! to a player, and how the arena is kept stocked with them.
//!
//! Distances are measured here, in ordinary floating point, and handed to the
//! rules.

use dodge_royale::bits::Vec2 as Bits;
use dodge_royale::collision::Collider;
use dodge_royale::enemy::{
    choose_course, choose_edges, collision_victims, fits_world, frame_delta, meet_walls, nearest,
    settled, speed_share, BoundaryMode, Course, Edges, EnemySettings, EnemyState, Pursuit,
    Sighting, SteeringMode,
};
use dodge_royale::enemy_population::{
    opening_target, perimeter_offset, pick, reference_archetypes, replenish_enemies, sum_weights,
    Clearance, EnemyArchetype, EnemyPopulation, EnemySpawnQueue, Opening, Search,
};
use dodge_royale::enemy_types::{
    blast_half_width, blast_progress, hit_player, motor_multiplier, resolve_blasts,
    resolve_contacts, EnemyContact, EnemyKind, KamikazeSettings, Quarry, SMALLEST_BLAST,
};
use dodge_royale::identities::{has_identity, include_identity};
use dodge_royale::motion::{effect_seconds, motion_seconds, MAX_FRAME_SECONDS};
use dodge_royale::rng::Stream;
use dodge_royale::simulation::{
    view_world, ArenaConfig, EnemyView, FillStep, FrameCounters, HeadlessArena,
};

const WORLD: Vec2 = Vec2 { x: 3_000.0, y: 2_000.0 };

#[derive(Clone, Copy, Debug, PartialEq)]
struct Vec2 {
    x: f32,
    y: f32,
}

impl Vec2 {
    const ZERO: Vec2 = Vec2 { x: 0.0, y: 0.0 };

    fn new(x: f32, y: f32) -> Vec2 {
        Vec2 { x, y }
    }

    fn splat(value: f32) -> Vec2 {
        Vec2::new(value, value)
    }

    fn bits(self) -> Bits {
        Bits { x: self.x.to_bits(), y: self.y.to_bits() }
    }

    fn length(self) -> f32 {
        (self.x * self.x + self.y * self.y).sqrt()
    }
}

fn floats(value: Bits) -> Vec2 {
    Vec2::new(f32::from_bits(value.x), f32::from_bits(value.y))
}

fn wrap(value: f32, half: f32) -> f32 {
    (value + half).rem_euclid(half * 2.0) - half
}

/// The way from one place to another, the short way where the world wraps.
fn delta(from: Vec2, to: Vec2, world: Option<Vec2>) -> Vec2 {
    let flat = Vec2::new(to.x - from.x, to.y - from.y);
    match world {
        Some(half) => Vec2::new(wrap(flat.x, half.x), wrap(flat.y, half.y)),
        None => flat,
    }
}

fn overlaps(
    left: Collider,
    position: Vec2,
    right: Collider,
    other: Vec2,
    world: Option<Vec2>,
) -> bool {
    let (a, b) = (floats(left.offset), floats(right.offset));
    let separation = delta(
        Vec2::new(position.x + a.x, position.y + a.y),
        Vec2::new(other.x + b.x, other.y + b.y),
        world,
    );
    let (a, b) = (floats(left.half_extents), floats(right.half_extents));
    let reach = Vec2::new(a.x + b.x, a.y + b.y);
    left.overlaps_wrapped(position.bits(), right, other.bits(), separation.bits(), reach.bits())
}

/// Every overlapping pair of these enemies.
fn pairs(enemies: &[(u64, Vec2, Collider)]) -> Vec<(u64, u64)> {
    let mut found = Vec::new();
    for (index, (a, at, collider)) in enemies.iter().enumerate() {
        for (b, other_at, other) in &enemies[index + 1..] {
            if overlaps(*collider, *at, *other, *other_at, Some(WORLD)) {
                found.push((*a, *b));
            }
        }
    }
    found
}

fn splat_collider(half: f32) -> Collider {
    Collider::rectangle(Vec2::splat(half).bits())
}

fn sighting(entity: u64, distance: f32) -> Sighting {
    Sighting { entity, distance: distance.to_bits() }
}

#[test]
fn every_enemy_of_a_cluster_that_collides_at_once_is_named_once() {
    let enemies = [
        (1, Vec2::new(-20.0, 0.0), Collider::default()),
        (2, Vec2::ZERO, Collider::default()),
        (3, Vec2::new(20.0, 0.0), Collider::default()),
        (4, Vec2::new(100.0, 0.0), Collider::default()),
    ];
    let victims = collision_victims(&pairs(&enemies));
    assert_eq!(victims, vec![1, 2, 3], "each once, and the survivor not at all");
}

#[test]
fn a_cluster_of_colliding_enemies_is_counted_once_each() {
    let far = |x: f32, y: f32| Vec2::new(1_000.0 + x, 1_000.0 + y);
    let enemies = [
        (7, far(0.0, 0.0), splat_collider(30.0)),
        (5, far(5.0, 0.0), splat_collider(30.0)),
        (6, far(0.0, 5.0), splat_collider(30.0)),
    ];
    let victims = collision_victims(&pairs(&enemies));
    assert_eq!(victims, vec![5, 6, 7]);

    let config =
        ArenaConfig { seed: 7, enemy_count: 0, max_frames: 600, ..ArenaConfig::default() };
    let filling = HeadlessArena::new(config).expect("an empty arena");
    let mut arena = match filling.fill(0).expect("an empty arena fills") {
        FillStep::Ready(arena) => arena,
        FillStep::RunPass(_) => panic!("nothing is left to place"),
    };
    let mut counters = FrameCounters::default();
    counters.count_enemy_deaths(victims.len());
    let result = arena.step(counters).expect("the step runs");
    assert_eq!(result.enemy_deaths, 3, "each victim is counted exactly once");
    assert!(!result.hit, "none of this reached the player");

    let seen: Vec<(EnemyView, bool)> = enemies
        .iter()
        .map(|(entity, at, collider)| {
            let enemy = EnemyView {
                entity: *entity,
                kind: EnemyKind::Normal,
                position: at.bits(),
                velocity: Vec2::ZERO.bits(),
                collider: *collider,
            };
            (enemy, victims.contains(entity))
        })
        .collect();
    let view = view_world(arena.frame(), Some(WORLD.bits()), &[], &seen, Vec::new());
    assert!(view.enemies.is_empty(), "and the cluster is gone from the view");
}

#[test]
fn disabled_enemy_colliders_do_not_kill() {
    let mut enemies = [
        (1, Vec2::ZERO, Collider::default()),
        (2, Vec2::ZERO, Collider { enabled: false, ..Collider::default() }),
    ];
    assert!(collision_victims(&pairs(&enemies)).is_empty());
    enemies[1].2.enabled = true;
    assert_eq!(collision_victims(&pairs(&enemies)), vec![1, 2]);
}

#[test]
fn base_inserts_dependencies_and_tracks_nearest_target() {
    let settings = EnemySettings::default();
    let (far, near) = (10, 20);
    let mut state = EnemyState::default();
    let rest = Vec2::ZERO.bits();
    state.steer(settings, &[sighting(far, 700.0), sighting(near, 300.0)], rest);
    assert_eq!(state.target, Some(near));
    // A closer newcomer does not cause target switching while the old target is retained.
    state.steer(settings, &[sighting(far, 30.0), sighting(near, 300.0)], rest);
    assert_eq!(state.target, Some(near));
    // Retain beyond the acquisition radius, even with another target nearby.
    state.steer(settings, &[sighting(far, 30.0), sighting(near, 1_000.0)], rest);
    assert_eq!(state.target, Some(near));
    state.steer(settings, &[sighting(far, 30.0)], rest);
    assert_eq!(state.target, Some(far));
    state.steer(settings, &[sighting(far, 2_000.0)], rest);
    assert_eq!(state.target, None);
}

#[test]
fn of_two_targets_at_one_distance_the_lower_identity_is_chased() {
    let seen = [sighting(9, 100.0), sighting(4, 100.0), sighting(2, f32::NAN)];
    assert_eq!(nearest(&seen, 900.0_f32.to_bits()), Some(4));
    assert_eq!(nearest(&seen, 99.0_f32.to_bits()), None);
    assert_eq!(nearest(&[], 900.0_f32.to_bits()), None);
}

#[test]
fn manual_steering_is_left_alone_and_broken_tuning_forgets_its_target() {
    let mut state = EnemyState { target: Some(3), separation: Vec2::ZERO.bits() };
    let manual = EnemySettings { steering: SteeringMode::Manual, ..EnemySettings::default() };
    state.steer(manual, &[sighting(1, 10.0)], Vec2::splat(5.0).bits());
    assert_eq!(state.target, Some(3));
    let broken =
        EnemySettings { response: 0.0_f32.to_bits(), ..EnemySettings::default() };
    state.steer(broken, &[sighting(1, 10.0)], Vec2::splat(5.0).bits());
    assert_eq!(state, EnemyState::default());
}

/// The velocity a pursuing enemy asks for.
fn desired_velocity(settings: EnemySettings, target: Vec2, target_velocity: Vec2) -> Vec2 {
    let distance = target.length();
    let float = f32::from_bits;
    let pursuit = settings.pursuit(
        Vec2::ZERO.bits(),
        target.bits(),
        target_velocity.bits(),
        distance.to_bits(),
    );
    let ahead = float(settings.lookahead_seconds);
    let toward = Vec2::new(
        target.x + target_velocity.x * ahead,
        target.y + target_velocity.y * ahead,
    );
    let arrival = match pursuit {
        Pursuit::Rest => return Vec2::ZERO,
        Pursuit::FullSpeed => 1.0,
        Pursuit::Slowing => {
            let remaining = (distance - float(settings.stop_distance)).max(0.0);
            (remaining / float(settings.arrival_radius)).min(1.0)
        }
    };
    let scale = float(settings.speed) * arrival / toward.length();
    Vec2::new(toward.x * scale, toward.y * scale)
}

#[test]
fn lookahead_arrival_and_stop_distance_change_steering() {
    let settings = EnemySettings {
        speed: 200.0_f32.to_bits(),
        stop_distance: 20.0_f32.to_bits(),
        arrival_radius: 100.0_f32.to_bits(),
        lookahead_seconds: 0.5_f32.to_bits(),
        ..EnemySettings::default()
    };
    let desired = desired_velocity(settings, Vec2::new(70.0, 0.0), Vec2::new(0.0, 100.0));
    assert!(desired.y > 0.0);
    assert!((desired.length() - 100.0).abs() < 0.001);
    assert_eq!(
        desired_velocity(settings, Vec2::new(10.0, 0.0), Vec2::new(1.0, 0.0)),
        Vec2::ZERO
    );
    let eager = EnemySettings { arrival_radius: 0.0_f32.to_bits(), ..settings };
    let desired = desired_velocity(eager, Vec2::new(70.0, 0.0), Vec2::ZERO);
    assert!((desired.length() - 200.0).abs() < 0.001, "without a radius there is no slowing");
}

/// Settings with a known speed and reach, for the separation cases.
fn spreader() -> EnemySettings {
    EnemySettings {
        speed: 100.0_f32.to_bits(),
        detection_range: 500.0_f32.to_bits(),
        ..EnemySettings::default()
    }
}

/// The velocity that backs away from the crowd.
fn separation_velocity(
    settings: EnemySettings,
    position: Vec2,
    neighbours: &[Vec2],
    world: Option<Vec2>,
) -> Vec2 {
    let mut crowd = Vec2::ZERO;
    for other in neighbours {
        let way = delta(position, *other, world);
        if settings.crowds(way.length().to_bits()) {
            crowd = Vec2::new(crowd.x + way.x, crowd.y + way.y);
        }
    }
    let length = crowd.length();
    if length == 0.0 {
        return Vec2::ZERO;
    }
    let scale = -f32::from_bits(settings.speed) / length;
    Vec2::new(crowd.x * scale, crowd.y * scale)
}

#[test]
fn an_enemy_with_no_neighbours_does_not_spread() {
    assert_eq!(separation_velocity(spreader(), Vec2::ZERO, &[], None), Vec2::ZERO);
}

#[test]
fn a_crowded_enemy_moves_directly_away_from_the_crowd() {
    let away = separation_velocity(spreader(), Vec2::ZERO, &[Vec2::new(50.0, 0.0)], None);
    assert!(away.x < 0.0, "expected a push to the left, got {away:?}");
    assert!(
        (away.length() - 100.0).abs() < 0.001,
        "speed should be used in full"
    );
}

#[test]
fn neighbours_on_opposite_sides_cancel_each_other() {
    let balanced = separation_velocity(
        spreader(),
        Vec2::ZERO,
        &[Vec2::new(50.0, 0.0), Vec2::new(-50.0, 0.0)],
        None,
    );
    assert!(balanced.length() < 0.001, "a balanced crowd has no way out");
}

#[test]
fn neighbours_beyond_the_detection_range_are_ignored() {
    let far = separation_velocity(spreader(), Vec2::ZERO, &[Vec2::new(501.0, 0.0)], None);
    assert_eq!(far, Vec2::ZERO);
}

#[test]
fn an_enemy_does_not_flee_from_itself() {
    // Callers pass every enemy, including the one being steered.
    let alone = separation_velocity(spreader(), Vec2::ZERO, &[Vec2::ZERO], None);
    assert_eq!(alone, Vec2::ZERO);
}

#[test]
fn spreading_takes_the_short_route_across_a_seam() {
    let world = Vec2::new(300.0, 100.0);
    // The neighbour is fifteen units away through the seam, to the right.
    let away = separation_velocity(
        spreader(),
        Vec2::new(290.0, 0.0),
        &[Vec2::new(-295.0, 0.0)],
        Some(world),
    );
    assert!(
        away.x < 0.0,
        "should back away from the seam, not toward it: {away:?}"
    );
}

fn course(settings: EnemySettings, state: EnemyState, present: &[u64]) -> Course {
    choose_course(
        settings,
        state,
        Collider::default(),
        Vec2::ZERO.bits(),
        1.0_f32.to_bits(),
        present,
    )
}

#[test]
fn an_enemy_chases_its_target_and_spreads_out_without_one() {
    let settings = EnemySettings::default();
    let out = Vec2::new(-3.0, 4.0).bits();
    let state = EnemyState { target: Some(5), separation: out };
    assert_eq!(course(settings, state, &[4, 5]), Course::Pursue(5));
    assert_eq!(course(settings, state, &[4]), Course::Spread(out), "a lost target is no target");
    let manual = EnemySettings { steering: SteeringMode::Manual, ..settings };
    assert_eq!(course(manual, state, &[5]), Course::Coast);
}

#[test]
fn an_invalid_configuration_freezes_motion() {
    let settings = EnemySettings { speed: (-5.0_f32).to_bits(), ..EnemySettings::default() };
    assert!(!settings.is_valid());
    assert!(EnemySettings::default().is_valid());
    let state = EnemyState { target: Some(5), separation: Vec2::ZERO.bits() };
    assert_eq!(course(settings, state, &[5]), Course::Frozen);
    for broken in [
        EnemySettings { response: f32::INFINITY.to_bits(), ..EnemySettings::default() },
        EnemySettings { detection_range: 1_201.0_f32.to_bits(), ..EnemySettings::default() },
        EnemySettings { lookahead_seconds: f32::NAN.to_bits(), ..EnemySettings::default() },
    ] {
        assert!(!broken.is_valid());
    }
}

#[test]
fn manual_steering_obeys_speed_bounds_offset() {
    // A hitbox of half width 10, offset by 5, in a world of half width 100: the
    // actor may stand from -95 to 85.
    let (lower, upper) = (-95.0_f32, 85.0_f32);
    let next = 84.0_f32 + 200.0 * 0.05;
    let met = meet_walls(
        BoundaryMode::Clamp,
        next.to_bits(),
        200.0_f32.to_bits(),
        lower.to_bits(),
        upper.to_bits(),
    );
    assert_eq!((f32::from_bits(met.0), f32::from_bits(met.1)), (85.0, 0.0));
    let met = meet_walls(
        BoundaryMode::Clamp,
        next.to_bits(),
        (-200.0_f32).to_bits(),
        lower.to_bits(),
        upper.to_bits(),
    );
    assert_eq!(f32::from_bits(met.1), -200.0, "a velocity away from the wall is kept");
    let nowhere = |velocity: f32| {
        let met = meet_walls(
            BoundaryMode::Bounce,
            f32::NAN.to_bits(),
            velocity.to_bits(),
            lower.to_bits(),
            upper.to_bits(),
        );
        (f32::from_bits(met.0), f32::from_bits(met.1))
    };
    assert_eq!(nowhere(-20.0), (-95.0, 20.0), "a place that is no number is at the lower wall");
    assert_eq!(nowhere(20.0), (-95.0, 20.0));
}

/// One frame of an enemy that is steered by hand, along x: where it is, and how
/// fast.
fn drift(settings: EnemySettings, x: f32, speed: f32, seconds: f32) -> (f32, f32) {
    let collider = Collider::default();
    let cap = MAX_FRAME_SECONDS;
    let delta = f32::from_bits(frame_delta(seconds.to_bits(), cap).expect("a cap"));
    let course = choose_course(
        settings,
        EnemyState::default(),
        collider,
        Vec2::new(x, 0.0).bits(),
        1.0_f32.to_bits(),
        &[],
    );
    assert_eq!(course, Course::Coast, "nothing steers it");
    let top = f32::from_bits(settings.speed);
    let speed = floats(settled(Vec2::new(speed, 0.0).bits())).x.clamp(-top, top);
    let next = x + speed * delta;
    match choose_edges(Some(WORLD.bits()), settings.boundary, collider) {
        Edges::Open | Edges::Misfit => panic!("the world has edges that fit"),
        Edges::Seam(half) => (wrap(next, floats(half).x), speed),
        Edges::Wall(half) => {
            let bound = floats(half).x - floats(collider.half_extents).x;
            let met = meet_walls(
                settings.boundary,
                next.to_bits(),
                speed.to_bits(),
                (-bound).to_bits(),
                bound.to_bits(),
            );
            (f32::from_bits(met.0), f32::from_bits(met.1))
        }
    }
}

fn steered_by_hand(boundary: BoundaryMode) -> EnemySettings {
    EnemySettings { steering: SteeringMode::Manual, boundary, ..EnemySettings::default() }
}

#[test]
fn reference_types_wrap_at_arena_edges() {
    let (moved, speed) = drift(steered_by_hand(BoundaryMode::Wrap), 2_999.0, 500.0, 0.05);
    assert!(moved < 0.0, "expected a wrap to the left edge, got {moved}");
    // A seam is not a wall, so the enemy keeps its speed through it.
    assert!(speed > 0.0);
}

#[test]
fn reference_types_bounce_at_arena_edges() {
    let (moved, speed) = drift(steered_by_hand(BoundaryMode::Bounce), 2_987.0, 100.0, 0.05);
    assert!(speed < 0.0);
    assert!(moved <= 2_988.0);
}

#[test]
fn a_world_too_small_for_an_enemy_is_a_misfit() {
    let tiny = Vec2::ONE_BITS;
    assert_eq!(choose_edges(Some(tiny), BoundaryMode::Wrap, Collider::default()), Edges::Misfit);
    assert!(!fits_world(tiny, Collider::default()));
    assert_eq!(choose_edges(None, BoundaryMode::Clamp, Collider::default()), Edges::Open);
}

impl Vec2 {
    const ONE_BITS: Bits = Bits { x: 0x3f80_0000, y: 0x3f80_0000 };
}

#[test]
fn tab_time_is_capped_and_a_broken_cap_stops_time() {
    let cap = 0.05_f32;
    let capped = |elapsed: f32| {
        frame_delta(elapsed.to_bits(), cap.to_bits()).map(f32::from_bits)
    };
    assert_eq!(capped(60.0), Some(0.05));
    assert_eq!(capped(0.01), Some(0.01));
    assert_eq!(capped(-1.0), Some(0.0));
    assert_eq!(frame_delta(0.01_f32.to_bits(), 0.0_f32.to_bits()), None);
    assert_eq!(frame_delta(0.01_f32.to_bits(), f32::NAN.to_bits()), None);
    assert_eq!(floats(settled(Vec2::new(f32::NAN, 1.0).bits())), Vec2::ZERO);
    assert_eq!(floats(settled(Vec2::new(2.0, 1.0).bits())), Vec2::new(2.0, 1.0));
}

// --- what enemies do to a player -----------------------------------------

fn quarry(entity: u64) -> Quarry {
    Quarry {
        entity,
        collider: Collider::default(),
        velocity: Vec2::new(1.0, 0.0).bits(),
        defeated: false,
    }
}

#[test]
fn normal_contact_defeats_player_once_without_spawning_a_blast() {
    let mut quarries = vec![quarry(1)];
    let first = resolve_contacts(&[EnemyContact { enemy: 7, target: 1 }], &mut quarries);
    assert!(quarries[0].defeated);
    assert!(!quarries[0].collider.enabled);
    assert_eq!(floats(quarries[0].velocity), Vec2::ZERO);
    assert_eq!(first.dying, vec![7]);
    assert_eq!(first.hits, vec![1]);
    assert!(!EnemyKind::Normal.detonates());
    let second = resolve_contacts(&[EnemyContact { enemy: 8, target: 1 }], &mut quarries);
    assert!(second.hits.is_empty(), "a defeated player is not hit again");
    assert_eq!(second.dying, vec![8], "but the enemy still dies of it");
}

#[test]
fn a_colliding_kamikaze_leaves_one_blast_that_hits_no_enemy() {
    let kinds = [(1, EnemyKind::Kamikaze), (2, EnemyKind::Normal)];
    let enemies: Vec<(u64, Vec2, Collider)> =
        kinds.iter().map(|(id, _)| (*id, Vec2::ZERO, Collider::default())).collect();
    let victims = collision_victims(&pairs(&enemies));
    assert_eq!(victims, vec![1, 2]);
    let blasts = kinds
        .iter()
        .filter(|(id, kind)| victims.contains(id) && kind.detonates())
        .count();
    assert_eq!(blasts, 1);

    // Another enemy is covered by the blast, which hits only what is hunted.
    let survivor = [(3, Vec2::ZERO, Collider::default())];
    assert!(collision_victims(&pairs(&survivor)).is_empty(), "it touches no other enemy");
    let mut quarries = vec![quarry(9)];
    assert!(resolve_blasts(&[3], &mut quarries).is_empty());
    assert!(!quarries[0].defeated);
    assert!(!KamikazeSettings::default().has_expired(0.05_f32.to_bits()), "the blast goes on");
}

#[test]
fn a_blast_hits_everyone_it_covers_once() {
    let mut quarries = vec![quarry(1), quarry(2), quarry(3)];
    quarries[2].collider.enabled = false;
    assert_eq!(resolve_blasts(&[3, 2, 2, 1], &mut quarries), vec![1, 2]);
    assert!(quarries[0].defeated && quarries[1].defeated && !quarries[2].defeated);
    assert!(!hit_player(&mut quarries, 2), "and never a second time");
}

#[test]
fn a_blast_expires_after_one_second_and_a_motor_turns_near_its_target() {
    let settings = KamikazeSettings::default();
    assert!(!settings.has_expired(0.999_f32.to_bits()));
    assert!(settings.has_expired(1.0_f32.to_bits()));
    assert!(settings.is_near(Some(156.25_f32.to_bits())));
    assert!(!settings.is_near(Some(156.5_f32.to_bits())));
    assert!(!settings.is_near(None));
    assert_eq!(f32::from_bits(settings.motor_rate), 0.6);
    assert_eq!(f32::from_bits(settings.blast_width), 187.5);
}

#[test]
fn a_motor_runs_between_full_speed_backwards_and_full_speed_onwards() {
    let settings = KamikazeSettings::default();
    let change = 0.03_f32;
    let turned = |distance: Option<f32>| {
        f32::from_bits(settings.motor_change(distance.map(f32::to_bits), change.to_bits()))
    };
    assert_eq!((turned(Some(100.0)), turned(Some(200.0)), turned(None)), (-0.03, 0.03, 0.03));
    let motor = |multiplier: f32| f32::from_bits(motor_multiplier(multiplier.to_bits()));
    assert_eq!((motor(1.03), motor(-1.03), motor(0.25)), (1.0, -1.0, 0.25));
    let share = |scale: f32| f32::from_bits(speed_share(scale.to_bits()));
    assert_eq!((share(2.0), share(-2.0), share(0.5)), (1.0, -1.0, 0.5));
}

#[test]
fn a_blast_keeps_a_width_and_a_frame_spike_counts_as_the_longest_frame() {
    let progress = |share: f32| f32::from_bits(blast_progress(share.to_bits()));
    assert_eq!((progress(-0.5), progress(0.25), progress(1.5)), (0.0, 0.25, 1.0));
    let half = |width: f32| f32::from_bits(blast_half_width(width.to_bits()));
    assert_eq!((half(0.0), half(93.75), half(f32::NAN)), (0.001, 93.75, 0.001));
    assert_eq!(f32::from_bits(SMALLEST_BLAST), 0.001);
    let effect = |elapsed: f32| f32::from_bits(effect_seconds(elapsed.to_bits()));
    assert_eq!((effect(0.01), effect(3.0), effect(f32::NAN)), (0.01, 0.05, 0.05));
    let motion = |elapsed: f32| f32::from_bits(motion_seconds(elapsed.to_bits()));
    assert_eq!((motion(0.01), motion(3.0), motion(-1.0)), (0.01, 0.05, 0.0));
}

#[test]
fn identities_are_kept_once_and_in_order() {
    let mut ids = Vec::new();
    for id in [5, 2, 9, 5, 2] {
        include_identity(&mut ids, id);
    }
    assert_eq!(ids, vec![2, 5, 9]);
    assert!(has_identity(&ids, 9) && !has_identity(&ids, 3));
}

// --- the population --------------------------------------------------------

#[test]
fn catalog_has_only_hostiles_with_reference_size_and_personality_weights() {
    let types = reference_archetypes();
    assert_eq!(types.len(), 8);
    let normal: u32 = types
        .iter()
        .filter(|kind| kind.kind == EnemyKind::Normal)
        .map(|kind| u32::from(kind.weight))
        .sum();
    let kamikaze: u32 = types
        .iter()
        .filter(|kind| kind.kind == EnemyKind::Kamikaze)
        .map(|kind| u32::from(kind.weight))
        .sum();
    assert_eq!((normal, kamikaze), (15_300, 3_500));
    assert_eq!(sum_weights(&types), 18_800);
    for kind in &types {
        assert_eq!(kind.settings.boundary, BoundaryMode::Wrap);
        assert!([12.5, 15.625, 18.75, 21.875]
            .contains(&f32::from_bits(kind.collider.half_extents.x)));
    }
}

#[test]
fn every_ticket_falls_to_the_type_whose_share_it_is_in() {
    let mut types = reference_archetypes();
    types[1].weight = 0;
    let first = u64::from(types[0].weight);
    assert_eq!(pick(&types, 0), Some(0));
    assert_eq!(pick(&types, first - 1), Some(0));
    assert_eq!(pick(&types, first), Some(2), "a type of no weight is never picked");
    assert_eq!(pick(&types, sum_weights(&types) - 1), Some(7));
    assert_eq!(pick(&types, sum_weights(&types)), None);
}

/// An enemy that was placed.
struct Placed {
    name: String,
    kind: EnemyKind,
    at: Vec2,
    settings: EnemySettings,
    collider: Collider,
}

/// An arena that is kept stocked.
struct Arena {
    population: EnemyPopulation,
    queue: EnemySpawnQueue,
    bounds: Option<Vec2>,
    /// Each target with the half width of its opening window, if it has one.
    targets: Vec<(u64, Vec2, Option<f32>)>,
    enemies: Vec<Placed>,
}

impl Arena {
    fn new(count: usize) -> Arena {
        Arena {
            population: EnemyPopulation { target_count: count, ..EnemyPopulation::default() },
            queue: EnemySpawnQueue::with_seed(123),
            bounds: Some(WORLD),
            targets: vec![(1, Vec2::ZERO, None)],
            enemies: Vec::new(),
        }
    }

    fn update(&mut self) {
        let edges: Vec<u64> = self
            .targets
            .iter()
            .filter(|(_, _, window)| window.is_some())
            .map(|(entity, _, _)| *entity)
            .collect();
        let begun = replenish_enemies(
            &mut self.queue,
            &self.population,
            self.enemies.len(),
            !self.targets.is_empty(),
            self.bounds.map(Vec2::bits),
            &edges,
        );
        let Some((mut round, bounds)) = begun else {
            return;
        };
        let bounds = floats(bounds);
        while let Some(request) = round.next(&self.queue) {
            let window = round.opening(&self.queue).and_then(|entity| {
                self.targets
                    .iter()
                    .find(|(target, _, _)| *target == entity)
                    .and_then(|(_, at, half)| half.map(|half| (*at, half)))
            });
            let mut random = self.queue.stream();
            let targets: Vec<(Vec2, Collider)> =
                self.targets.iter().map(|(_, at, _)| (*at, Collider::default())).collect();
            let occupied: Vec<(Vec2, Collider)> =
                self.enemies.iter().map(|enemy| (enemy.at, enemy.collider)).collect();
            let at = place_enemy(
                request,
                bounds,
                &targets,
                &occupied,
                &self.population,
                &mut random,
                window,
            );
            self.queue.resume(random);
            if let Some(placement) = round.settle(&mut self.queue, at.is_some()) {
                if let Some(opened) = placement.opened {
                    for target in &mut self.targets {
                        if target.0 == opened {
                            target.2 = None;
                        }
                    }
                }
                self.enemies.push(Placed {
                    name: placement.request.name,
                    kind: placement.request.kind,
                    at: at.expect("a placement has a place"),
                    settings: placement.request.settings,
                    collider: placement.request.collider,
                });
            }
        }
    }

    fn waiting(&self) -> Vec<String> {
        (0..self.queue.len())
            .filter_map(|index| self.queue.pending(index))
            .map(|request| request.name.clone())
            .collect()
    }
}

/// Draw a number from zero to one.
fn unit(random: &mut Stream) -> f32 {
    let mut generator = fastrand::Rng::with_seed(random.seed());
    let value = generator.f32();
    *random = Stream::with_seed(generator.get_seed());
    value
}

fn place_enemy(
    archetype: &EnemyArchetype,
    bounds: Vec2,
    targets: &[(Vec2, Collider)],
    occupied: &[(Vec2, Collider)],
    population: &EnemyPopulation,
    random: &mut Stream,
    opening: Option<(Vec2, f32)>,
) -> Option<Vec2> {
    let window =
        opening.map(|(target, half)| Opening { target: target.bits(), half: half.to_bits() });
    let mut search = Search::begin(archetype, bounds.bits(), population, window)?;
    let half = floats(archetype.collider.half_extents);
    let offset = floats(archetype.collider.offset);
    let exclusion = f32::from_bits(archetype.settings.detection_range)
        + f32::from_bits(population.detection_margin);
    while search.attempt() {
        let (position, away) = match opening {
            Some((target, width)) => {
                let along = unit(random).mul_add(2.0, -1.0) * width;
                let side = random.side();
                let way = floats(perimeter_offset(side, along.to_bits(), width.to_bits()));
                let at = Vec2::new(
                    wrap(target.x + way.x, bounds.x),
                    wrap(target.y + way.y, bounds.y),
                );
                (at, way.length())
            }
            None => {
                let lower = Vec2::new(half.x - bounds.x - offset.x, half.y - bounds.y - offset.y);
                let upper = Vec2::new(bounds.x - half.x - offset.x, bounds.y - half.y - offset.y);
                let (x, y) = (unit(random), unit(random));
                let at = Vec2::new(
                    lower.x + (upper.x - lower.x) * x,
                    lower.y + (upper.y - lower.y) * y,
                );
                (at, 0.0)
            }
        };
        let clearances: Vec<Clearance> = targets
            .iter()
            .map(|(target, collider)| Clearance {
                distance: delta(position, *target, Some(bounds)).length().to_bits(),
                touching: overlaps(archetype.collider, position, *collider, *target, Some(bounds)),
            })
            .collect();
        let taken: Vec<bool> = occupied
            .iter()
            .map(|(other, collider)| {
                overlaps(archetype.collider, position, *collider, *other, Some(bounds))
            })
            .collect();
        if search.accepts(away.to_bits(), exclusion.to_bits(), &clearances, &taken) {
            return Some(position);
        }
    }
    None
}

#[test]
fn fills_exact_population_using_each_selected_types_range_and_reserves_placements() {
    let mut arena = Arena::new(24);
    arena.update();
    assert_eq!(arena.enemies.len(), 24);
    let range = |enemy: &Placed| f32::from_bits(enemy.settings.detection_range);
    assert!(arena.enemies.iter().any(|enemy| range(enemy) > 1_000.0));
    assert!(arena.enemies.iter().any(|enemy| range(enemy) < 1_000.0));
    for (index, enemy) in arena.enemies.iter().enumerate() {
        assert!(enemy.at.length() > range(enemy) + 32.0);
        let half = floats(enemy.collider.half_extents);
        assert!(enemy.at.x.abs() + half.x <= 3_000.0 && enemy.at.y.abs() + half.y <= 2_000.0);
        for other in &arena.enemies[index + 1..] {
            assert!(!overlaps(enemy.collider, enemy.at, other.collider, other.at, None));
        }
    }
    arena.update();
    assert_eq!(arena.enemies.len(), 24);
    assert_eq!(arena.queue.len(), 0);
}

#[test]
fn collision_deaths_are_replaced_in_the_same_update() {
    let mut arena = Arena::new(4);
    arena.update();
    arena.enemies.drain(..2);
    arena.update();
    assert_eq!(arena.enemies.len(), 4);
    assert!(arena
        .enemies
        .iter()
        .all(|enemy| enemy.at.length() > f32::from_bits(enemy.settings.detection_range)));
}

#[test]
fn failed_placement_keeps_the_selected_type_and_retries_when_space_opens() {
    let mut arena = Arena::new(1);
    let range = 10_000.0_f32.to_bits();
    arena.population.types = vec![EnemyArchetype {
        name: "Queued giant range".to_owned(),
        kind: EnemyKind::Normal,
        weight: 1,
        settings: EnemySettings {
            detection_range: range,
            retention_range: range,
            ..EnemySettings::default()
        },
        collider: Collider::default(),
    }];
    arena.update();
    assert!(arena.enemies.is_empty());
    // A catalog change must not reroll the already selected type.
    arena.population.types = EnemyPopulation::default().types;
    arena.update();
    assert_eq!(arena.waiting(), vec!["Queued giant range".to_owned()]);
    assert!(arena.enemies.is_empty());
    arena.population.types.clear();
    arena.bounds = Some(Vec2::splat(20_000.0));
    arena.update();
    assert_eq!(arena.enemies.len(), 1);
    assert_eq!(arena.enemies[0].name, "Queued giant range");
    assert!(arena.enemies[0].at.length() > 10_032.0);
}

#[test]
fn no_player_means_no_spawns_and_budget_limits_work() {
    let mut arena = Arena::new(8);
    let target = arena.targets.pop().expect("a target");
    arena.update();
    assert!(arena.enemies.is_empty());
    arena.targets.push(target);
    arena.population.budget_per_frame = 2;
    arena.update();
    assert_eq!(arena.enemies.len(), 2);
    for _ in 0..3 {
        arena.update();
    }
    assert_eq!(arena.enemies.len(), 8);
}

#[test]
fn placement_respects_all_targets_collider_offsets_and_impossible_geometry() {
    let archetype = EnemyArchetype {
        name: "Offset".to_owned(),
        kind: EnemyKind::Normal,
        weight: 1,
        settings: EnemySettings {
            detection_range: 50.0_f32.to_bits(),
            ..EnemySettings::default()
        },
        collider: Collider { offset: Vec2::new(80.0, -60.0).bits(), ..Collider::default() },
    };
    let bounds = Vec2::splat(300.0);
    let targets =
        [(Vec2::ZERO, Collider::default()), (Vec2::new(200.0, 200.0), Collider::default())];
    let mut random = Stream::with_seed(10);
    let population = EnemyPopulation::default();
    let position =
        place_enemy(&archetype, bounds, &targets, &[], &population, &mut random, None)
            .expect("there is room");
    assert!((position.x + 80.0).abs() + 12.0 <= bounds.x);
    assert!((position.y - 60.0).abs() + 12.0 <= bounds.y);
    for (target, _) in targets {
        assert!(delta(position, target, None).length() > 82.0);
    }
    assert!(place_enemy(
        &archetype,
        Vec2::splat(1.0),
        &targets,
        &[],
        &population,
        &mut random,
        None
    )
    .is_none());
}

#[test]
fn opening_spawn_wraps_with_the_player_and_only_happens_once() {
    let mut arena = Arena::new(1);
    let origin = Vec2::new(2_950.0, 1_950.0);
    arena.targets = vec![(1, origin, Some(800.0))];
    arena.update();
    let enemy = arena.enemies.pop().expect("one opener");
    let way = delta(origin, enemy.at, Some(WORLD));
    assert!((way.x.abs().max(way.y.abs()) - 800.0).abs() < 0.001);
    assert!(way.length() <= f32::from_bits(enemy.settings.detection_range));
    assert!(!overlaps(enemy.collider, enemy.at, Collider::default(), origin, Some(WORLD)));
    assert_eq!(arena.targets[0].2, None, "the opening is spent");
    arena.update();
    assert_eq!(arena.enemies.len(), 1);
    let replacement = &arena.enemies[0];
    assert!(
        delta(origin, replacement.at, Some(WORLD)).length()
            > f32::from_bits(replacement.settings.detection_range) + 32.0
    );
}

#[test]
fn a_failed_opening_placement_keeps_its_request_for_retry() {
    let mut arena = Arena::new(1);
    arena.targets[0].2 = Some(800.0);
    arena.population.placement_attempts = 0;
    arena.update();
    assert!(arena.enemies.is_empty());
    assert!(arena.targets[0].2.is_some());
    arena.population.placement_attempts = 64;
    arena.update();
    assert_eq!(arena.enemies.len(), 1);
    assert!(arena.targets[0].2.is_none());
}

#[test]
fn opening_retry_does_not_switch_to_a_type_with_a_larger_detection_range() {
    let mut arena = Arena::new(2);
    arena.targets[0].2 = Some(800.0);
    let mut short_sighted = reference_archetypes().remove(0);
    short_sighted.name = "Cannot see the window edge".to_owned();
    short_sighted.settings.detection_range = 700.0_f32.to_bits();
    arena.queue.push(short_sighted);
    arena.queue.push(reference_archetypes().remove(0));
    arena.update();
    assert!(
        arena.enemies.is_empty(),
        "the easier second type must not take the opening slot"
    );
    assert_eq!(
        arena.waiting().first().map(String::as_str),
        Some("Cannot see the window edge")
    );
    assert_eq!(arena.waiting(), vec!["Cannot see the window edge", "Normal"]);
    assert_eq!(arena.targets[0].2, Some(800.0), "the opening is still asked for");
}

#[test]
fn without_bounds_types_are_chosen_but_nothing_is_placed() {
    let mut arena = Arena::new(3);
    arena.bounds = None;
    arena.update();
    assert!(arena.enemies.is_empty());
    assert_eq!(arena.queue.len(), 3);
    let chosen = arena.waiting();
    arena.bounds = Some(WORLD);
    arena.update();
    let placed: Vec<String> = arena.enemies.iter().map(|enemy| enemy.name.clone()).collect();
    assert_eq!(placed, chosen, "what was chosen is what is placed");
}

#[test]
fn a_round_in_which_nothing_fits_keeps_its_order_and_its_cap() {
    let mut arena = Arena::new(5);
    arena.population.budget_per_frame = 4;
    arena.population.placement_attempts = 0;
    arena.update();
    let waiting = arena.waiting();
    assert_eq!(waiting.len(), 4, "no more than the budget");
    arena.population.types.truncate(1);
    arena.update();
    assert_eq!(arena.waiting(), waiting);
    assert_eq!(opening_target(&[9, 4, 7]), Some(4));
    arena.population.target_count = 2;
    arena.update();
    assert_eq!(arena.waiting(), waiting[..2], "what is no longer wanted is dropped");
}

#[test]
fn an_opening_enemy_cannot_spawn_on_an_occupied_perimeter() {
    let archetype = reference_archetypes().remove(0);
    let mut random = Stream::with_seed(1);
    let blocked = [(Vec2::ZERO, splat_collider(900.0))];
    assert!(place_enemy(
        &archetype,
        WORLD,
        &[(Vec2::ZERO, Collider::default())],
        &blocked,
        &EnemyPopulation::default(),
        &mut random,
        Some((Vec2::ZERO, 800.0)),
    )
    .is_none());
}

#[test]
fn types_of_no_weight_are_never_drawn() {
    let mut arena = Arena::new(20);
    for kind in &mut arena.population.types {
        if kind.kind == EnemyKind::Normal {
            kind.weight = 0;
        }
    }
    arena.update();
    assert_eq!(arena.enemies.len(), 20);
    assert!(arena.enemies.iter().all(|enemy| enemy.kind == EnemyKind::Kamikaze));
    let mut barren = Arena::new(3);
    for kind in &mut barren.population.types {
        kind.weight = 0;
    }
    barren.update();
    assert!(barren.enemies.is_empty() && barren.queue.len() == 0);
}

#[test]
fn enemies_wrap_at_the_seam_rather_than_stopping() {
    let mut arena = Arena::new(10);
    arena.update();
    assert_eq!(arena.enemies.len(), 10);
    assert!(
        arena.enemies.iter().all(|enemy| enemy.settings.boundary == BoundaryMode::Wrap),
        "the catalog's wrapping must survive the move into the arena"
    );
}

#[test]
fn a_finished_game_leaves_no_requests_but_keeps_its_stream() {
    let mut queue = EnemySpawnQueue::with_seed(5);
    let population = EnemyPopulation { target_count: 3, ..EnemyPopulation::default() };
    queue.select(&population, 0, true);
    assert_eq!(queue.len(), 3);
    let stream = queue.stream();
    assert_ne!(stream.seed(), 5, "each request was drawn");
    queue.clear();
    assert_eq!((queue.len(), queue.stream()), (0, stream));
    assert!(queue.pending(0).is_none() && queue.take_first().is_none());
}

//! Batches of arenas and the sessions that drive them.
//!
//! The arenas here have a world of their own: a player that goes where it is
//! told, and one enemy whose place follows from the seed. What the batch makes
//! of them does not depend on how a world works.

use dodge_royale::bits::Vec2;
use dodge_royale::collision::Collider;
use dodge_royale::enemy_types::EnemyKind;
use dodge_royale::gym::batch::{
    collect_replies, reset_batch, shard_actions, shard_envs, step_batch, ArenaBatch, Command,
    Reply,
};
use dodge_royale::gym::protocol::{
    read_handshake, read_request_or_eof, read_reset, read_step, write_handshake,
    write_request, EnvTransition, Handshake, ProtocolError, Request, ResetBatch, StepBatch,
    PROTOCOL_VERSION,
};
use dodge_royale::gym::seeds::episode_seed;
use dodge_royale::gym::server::{announce, leaves_window, serve, Event, Next, ServerError};
use dodge_royale::gym::workers::{BatchConfig, BatchError, EnvArena, EnvOutcome, Stepped};
use dodge_royale::native::{ending, gym_config, GymArgs};
use dodge_royale::observation::{
    layout, Bounds, Footprint, Layout, Section, SeenEnemy, SeenPlayer, Sight, OBSERVATION_VALUES,
};
use dodge_royale::simulation::{
    predict_path, Action, ArenaError, ArenaFill, EnemyView, FillStep, FrameCounters, HeadlessArena,
    PlayerView, StepResult, DEFAULT_HOLD_FRAMES,
};

fn bits(x: f32, y: f32) -> Vec2 {
    Vec2 { x: x.to_bits(), y: y.to_bits() }
}

/// A direction off the compass, so a test exercises the space the policy
/// actually sends rather than the nine headings.
fn heading(step: usize) -> Vec2 {
    let degrees = f32::from(u16::try_from(step.wrapping_mul(37) % 360).unwrap_or(0));
    let radians = degrees.to_radians();
    bits(radians.cos(), radians.sin())
}

/// One arena's world.
struct World {
    seed: u64,
    x: f32,
    y: f32,
    intent: Vec2,
}

impl World {
    fn new(seed: u64) -> World {
        World { seed, x: 0.0, y: 0.0, intent: bits(0.0, 0.0) }
    }

    fn advance(&mut self) {
        self.x += f32::from_bits(self.intent.x);
        self.y += f32::from_bits(self.intent.y);
    }

    fn sight(&self, hold_frames: u32) -> Sight {
        let position = bits(self.x, self.y);
        let collider = Collider::default();
        let mut paths = [[bits(0.0, 0.0); 6]; 9];
        for (path, action) in paths.iter_mut().zip(Action::ALL) {
            let mut walk = predict_path(position, bits(0.0, 0.0), action.direction(), hold_frames)
                .expect("finite inputs");
            let (mut x, mut y) = (0.0, 0.0);
            while let Some(held) = walk.held() {
                x += f32::from_bits(held.x);
                y += f32::from_bits(held.y);
                walk.advance(bits(x, y));
            }
            path.copy_from_slice(walk.samples());
        }
        let at = 64.0 + f32::from(u8::try_from(self.seed % 97).unwrap_or(0)) - self.x;
        Sight {
            player: Some(SeenPlayer {
                player: PlayerView { entity: 1, position, velocity: self.intent, collider },
                velocity: self.intent,
                hitbox: Bounds { min: bits(126.0, 126.0), max: bits(130.0, 130.0) },
                paths,
            }),
            enemies: vec![SeenEnemy {
                enemy: EnemyView {
                    entity: 2,
                    kind: EnemyKind::Normal,
                    position,
                    velocity: bits(0.5, 0.0),
                    collider,
                },
                footprint: Footprint {
                    position,
                    bounds: Bounds { min: bits(at, 20.0), max: bits(at + 8.0, 28.0) },
                    area: 16.0_f32.to_bits(),
                    velocity: bits(0.5, 0.0),
                },
            }],
            blasts: Vec::new(),
            half_extents: bits(3_000.0, 2_000.0),
        }
    }
}

/// Fill an arena, so many enemies to the pass.
fn fill(filling: ArenaFill, count: usize) -> Result<HeadlessArena, String> {
    let mut filling = filling;
    let mut placed = 0;
    loop {
        match filling.fill(placed) {
            Ok(FillStep::Ready(arena)) => return Ok(arena),
            Ok(FillStep::RunPass(more)) => filling = more,
            Err(error) => return Err(error.message()),
        }
        placed = count.min(placed + 64);
    }
}

/// A worker: its envs and their worlds.
struct Worker {
    config: BatchConfig,
    envs: Vec<(EnvArena, World)>,
}

impl Worker {
    fn start(config: BatchConfig, shard: &[u32]) -> Result<Worker, BatchError> {
        let mut envs = Vec::new();
        for env in shard {
            let filling = EnvArena::start(*env, config)?;
            let arena = fill(filling, config.enemy_count)
                .map_err(|reason| BatchError::Arena { env: *env, reason })?;
            let seed = arena.config().seed;
            envs.push((EnvArena::open(*env, config, arena), World::new(seed)));
        }
        Ok(Worker { config, envs })
    }

    fn first(&self) -> Result<Vec<EnvOutcome>, BatchError> {
        let hold = self.config.hold_frames;
        self.envs
            .iter()
            .map(|(arena, world)| {
                Ok(arena.first_outcome(arena.observe(&world.sight(hold))?))
            })
            .collect()
    }

    fn answer(&mut self, command: Command) -> Result<Vec<EnvOutcome>, BatchError> {
        let config = self.config;
        let mut outcomes = Vec::new();
        for (index, (arena, world)) in self.envs.iter_mut().enumerate() {
            let env = arena.env();
            match &command {
                Command::Shutdown => {}
                Command::Step(actions) => {
                    outcomes.push(step_env(env, config, arena, world, actions[index])?);
                }
                Command::Reset(root) => {
                    let filling = arena.reset(*root)?;
                    let fresh = fill(filling, config.enemy_count)
                        .map_err(|reason| BatchError::Arena { env, reason })?;
                    *world = World::new(fresh.config().seed);
                    arena.replace(fresh);
                    let observation = arena.observe(&world.sight(config.hold_frames))?;
                    outcomes.push(arena.first_outcome(observation));
                }
            }
        }
        Ok(outcomes)
    }
}

fn step_env(
    env: u32,
    config: BatchConfig,
    arena: &mut EnvArena,
    world: &mut World,
    action: Vec2,
) -> Result<EnvOutcome, BatchError> {
    let (x, y) = (f32::from_bits(action.x), f32::from_bits(action.y));
    arena.command(action, (x * x + y * y).to_bits())?;
    world.intent = arena.intent();
    world.advance();
    let stepped = arena.step(FrameCounters::default())?;
    let last = arena.observe(&world.sight(config.hold_frames))?;
    if let Stepped::Ended(_, filling) = stepped {
        let fresh = fill(filling, config.enemy_count)
            .map_err(|reason| BatchError::Arena { env, reason })?;
        *world = World::new(fresh.config().seed);
        arena.replace(fresh);
    }
    let present = arena.observe(&world.sight(config.hold_frames))?;
    Ok(arena.outcome(stepped, last, present))
}

fn reply(answer: Result<Vec<EnvOutcome>, BatchError>) -> Reply {
    match answer {
        Ok(outcomes) => Reply::Done(outcomes),
        Err(error) => Reply::Failed(error),
    }
}

/// A batch and its workers.
struct Batch {
    plan: ArenaBatch,
    workers: Vec<Worker>,
}

impl Batch {
    fn start(config: BatchConfig) -> Result<(Batch, ResetBatch), BatchError> {
        let plan = ArenaBatch::start(config)?;
        let mut workers = Vec::new();
        for shard in plan.shards() {
            workers.push(Worker::start(config, shard)?);
        }
        let replies = workers.iter().map(|worker| reply(worker.first())).collect();
        let initial = plan.restarted(replies)?;
        Ok((Batch { plan, workers }, initial))
    }

    fn envs(&self) -> u32 {
        self.plan.envs()
    }

    fn ask(&mut self, commands: Vec<Command>) -> Vec<Reply> {
        self.workers
            .iter_mut()
            .zip(commands)
            .map(|(worker, command)| reply(worker.answer(command)))
            .collect()
    }

    fn step(&mut self, actions: &[Vec2]) -> Result<StepBatch, BatchError> {
        let commands = self.plan.step(actions)?;
        let replies = self.ask(commands);
        self.plan.stepped(replies)
    }

    fn reset(&mut self, seed: Option<u64>) -> Result<ResetBatch, BatchError> {
        let commands = self.plan.reset(seed);
        let replies = self.ask(commands);
        self.plan.restarted(replies)
    }
}

/// A small batch: few enemies, short episodes.
fn config(envs: u32, workers: u32) -> BatchConfig {
    BatchConfig {
        envs,
        workers,
        root_seed: 2_024,
        enemy_count: 8,
        max_frames: 40,
        hold_frames: 24,
    }
}

/// Step a whole batch with a fixed action cycle and collect what came back.
fn run(envs: u32, workers: u32, steps: usize) -> (Vec<u64>, Vec<u32>, Vec<String>) {
    let (mut batch, initial) = Batch::start(config(envs, workers)).expect("the batch starts");
    let mut seeds = initial.seeds;
    let mut observations = initial.observations;
    let mut records = Vec::new();

    for step in 0..steps {
        let actions: Vec<Vec2> = (0..envs)
            .map(|env| heading(usize::try_from(env).unwrap_or(0).wrapping_add(step)))
            .collect();
        let result = batch.step(&actions).expect("a step runs");
        observations.extend_from_slice(&result.observations);
        for transition in &result.transitions {
            records.push(format!(
                "f{} t{} r{} d{} s{:x} n{:?}",
                transition.frame,
                u8::from(transition.terminated),
                u8::from(transition.truncated),
                transition.enemy_deaths,
                transition.episode_seed,
                transition.reset_seed
            ));
            if let Some(seed) = transition.reset_seed {
                seeds.push(seed);
            }
        }
        for terminal in &result.terminal {
            records.push(format!("terminal env {}", terminal.env));
            observations.extend_from_slice(&terminal.observation);
        }
    }
    (seeds, observations, records)
}

/// The same batch, with a different prediction horizon.
fn held(envs: u32, workers: u32, hold_frames: u32) -> BatchConfig {
    BatchConfig { hold_frames, ..config(envs, workers) }
}

fn rest() -> Vec2 {
    bits(0.0, 0.0)
}

#[test]
fn one_step_advances_exactly_one_frame() {
    // The cadence everything else is built on: a policy decides once per
    // simulated 1/60 second, because that is what one STEP costs.
    let (mut batch, _frame_zero) = Batch::start(config(2, 1)).expect("the batch starts");
    for expected in 1..=5_u32 {
        let stepped = batch.step(&[rest(); 2]).expect("a step runs");
        for transition in &stepped.transitions {
            assert_eq!(
                transition.frame, expected,
                "one step advanced more than one frame"
            );
        }
    }
}

#[test]
fn hold_frames_moves_the_predicted_paths_and_nothing_else() {
    // `hold_frames` is how far ahead the observation's candidate paths are
    // predicted, and it is never an action repeat.
    let brief = held(1, 1, 6);
    let long = held(1, 1, 48);
    let layout = layout(brief.hold_frames);
    let paths = layout.path_section.offset..layout.path_section.offset + layout.path_section.length;

    let (mut brief, _) = Batch::start(brief).expect("the brief batch starts");
    let (mut long, _) = Batch::start(long).expect("the long batch starts");

    let heading = bits(0.966, 0.259);
    let mut brief_step = brief.step(&[heading]).expect("a step runs");
    let mut long_step = long.step(&[heading]).expect("a step runs");
    for _ in 0..4 {
        brief_step = brief.step(&[heading]).expect("a step runs");
        long_step = long.step(&[heading]).expect("a step runs");
    }

    assert_eq!(
        brief_step.transitions.first().map(|t| t.frame),
        long_step.transitions.first().map(|t| t.frame),
        "the horizon changed how fast the arena advanced"
    );

    let (brief_values, long_values) = (&brief_step.observations, &long_step.observations);
    assert_eq!(brief_values.len(), long_values.len());
    let before_paths = paths.start;
    assert_eq!(
        brief_values.get(..before_paths),
        long_values.get(..before_paths),
        "the player and the hazards must be identical"
    );
    assert_ne!(
        brief_values.get(paths.clone()),
        long_values.get(paths),
        "a longer horizon must reach further"
    );
}

#[test]
fn a_batch_reports_one_observation_for_every_env() {
    let (mut batch, initial) = Batch::start(config(4, 2)).expect("the batch starts");
    assert_eq!(batch.envs(), 4);
    assert_eq!(initial.seeds.len(), 4);
    assert_eq!(initial.observations.len(), 4 * OBSERVATION_VALUES);

    let result = batch
        .step(&[heading(0), heading(1), heading(2), heading(3)])
        .expect("a step runs");
    assert_eq!(result.transitions.len(), 4);
    assert_eq!(result.observations.len(), 4 * OBSERVATION_VALUES);
    assert!(
        result
            .transitions
            .iter()
            .all(|transition| transition.frame == 1),
        "every env advanced exactly one frame"
    );
}

#[test]
fn worker_count_does_not_change_a_single_byte() {
    let one = run(4, 1, 60);
    let two = run(4, 2, 60);
    let four = run(4, 4, 60);
    assert_eq!(one.0, two.0, "the same seeds");
    assert_eq!(one.1, two.1, "the same observations");
    assert_eq!(one.2, two.2, "the same transitions");
    assert_eq!(one, four, "however the shards are cut");
}

#[test]
fn more_workers_than_envs_is_allowed() {
    let (mut batch, initial) = Batch::start(config(2, 8)).expect("the batch starts");
    assert_eq!(initial.seeds.len(), 2);
    let result = batch.step(&[rest(); 2]).expect("a step runs");
    assert_eq!(result.transitions.len(), 2);
}

#[test]
fn envs_finish_at_different_times_and_each_resets_on_its_own() {
    // Episodes are 40 frames, so 45 steps takes every env past one ending.
    let (_, _, records) = run(3, 2, 45);
    let resets = records
        .iter()
        .filter(|record| record.contains("nSome"))
        .count();
    assert_eq!(resets, 3, "each env ended once and reset once: {records:?}");
    let terminals = records
        .iter()
        .filter(|record| record.starts_with("terminal env"))
        .count();
    assert_eq!(terminals, 3, "and each carried a final observation");
}

#[test]
fn an_auto_reset_returns_the_new_episodes_frame_and_keeps_the_old_one() {
    let (mut batch, _) = Batch::start(config(1, 1)).expect("the batch starts");
    let mut last = None;
    for _ in 0..40 {
        last = Some(batch.step(&[rest()]).expect("a step runs"));
    }
    let ending = last.expect("forty steps happened");
    let transition = ending.transitions.first().expect("one env");
    assert!(transition.truncated, "the budget ran out at frame 40");
    assert_eq!(transition.frame, 40);
    assert!(
        transition.reset_seed.is_some(),
        "the env carried on into a new episode"
    );
    assert_eq!(ending.terminal.len(), 1, "with the old episode's last frame");

    let next = batch.step(&[rest()]).expect("the new episode steps");
    let transition = next.transitions.first().expect("one env");
    assert_eq!(transition.frame, 1, "the replacement episode starts at one");
    assert!(!transition.truncated);
}

#[test]
fn a_seeded_reset_reproduces_the_batch_exactly() {
    let (mut batch, first) = Batch::start(config(2, 2)).expect("the batch starts");
    batch.step(&[heading(1), heading(2)]).expect("a step runs");
    let again = batch.reset(Some(2_024)).expect("a seeded reset runs");
    assert_eq!(again.seeds, first.seeds, "the stream restarts from the root");
    assert_eq!(again.observations, first.observations, "and so does every arena");
}

#[test]
fn an_unseeded_reset_advances_the_stream_rather_than_repeating_it() {
    let (mut batch, first) = Batch::start(config(2, 1)).expect("the batch starts");
    let next = batch.reset(None).expect("an unseeded reset runs");
    assert_ne!(next.seeds, first.seeds, "a fresh episode, not the same one");
    let after = batch.reset(None).expect("another reset runs");
    assert_ne!(after.seeds, next.seeds, "and it keeps advancing");
}

#[test]
fn repeated_resets_keep_working() {
    let (mut batch, _) = Batch::start(config(2, 2)).expect("the batch starts");
    for _ in 0..5 {
        batch.reset(None).expect("a reset runs");
        batch.step(&[rest(); 2]).expect("a step runs");
    }
}

#[test]
fn a_batch_that_cannot_build_its_arenas_says_so_at_startup() {
    let error = Batch::start(BatchConfig {
        envs: 2,
        workers: 1,
        root_seed: 1,
        // More enemies than every initialisation pass can place.
        enemy_count: 5_000,
        max_frames: 10,
        hold_frames: 24,
    });
    match error {
        Err(BatchError::Arena { reason, .. }) => {
            assert!(
                reason.contains("enemies"),
                "reported as a population: {reason}"
            );
        }
        Err(other) => panic!("expected an arena failure, got {other:?}"),
        Ok(_) => panic!("five thousand enemies should not fit"),
    }
}

#[test]
fn a_batch_needs_envs_and_workers() {
    assert!(matches!(
        ArenaBatch::start(BatchConfig { envs: 0, ..config(1, 1) }),
        Err(BatchError::InvalidConfig(_))
    ));
    assert!(matches!(
        ArenaBatch::start(BatchConfig { workers: 0, ..config(1, 1) }),
        Err(BatchError::InvalidConfig(_))
    ));
}

#[test]
fn an_action_batch_of_the_wrong_size_is_refused() {
    let (mut batch, _) = Batch::start(config(3, 2)).expect("the batch starts");
    assert!(matches!(
        batch.step(&[rest(); 2]),
        Err(BatchError::InvalidConfig(_))
    ));
}

#[test]
fn a_shard_is_every_so_many_th_env() {
    assert_eq!(shard_envs(7, 3), vec![vec![0, 3, 6], vec![1, 4], vec![2, 5]]);
    assert_eq!(shard_envs(2, 8), vec![vec![0], vec![1]]);
    assert_eq!(shard_envs(0, 4), vec![Vec::<u32>::new()]);
    let actions = [bits(1.0, 0.0), bits(0.0, 1.0), bits(-1.0, 0.0)];
    assert_eq!(shard_actions(&actions, &[2, 0, 9]), vec![actions[2], actions[0], rest()]);
}

fn outcome(env: u32, terminal: Option<Vec<u32>>) -> EnvOutcome {
    let mut transition = EnvTransition::default();
    transition.episode_seed = u64::from(env) * 100;
    EnvOutcome { env, transition, observation: vec![env, env + 1], terminal }
}

#[test]
fn replies_are_gathered_by_env_whoever_finished_first() {
    let replies = vec![
        Reply::Done(vec![outcome(1, None), outcome(3, Some(vec![9]))]),
        Reply::Done(vec![outcome(0, None), outcome(2, None)]),
    ];
    let outcomes = collect_replies(replies).expect("nobody failed");
    let envs: Vec<u32> = outcomes.iter().map(|outcome| outcome.env).collect();
    assert_eq!(envs, vec![0, 1, 2, 3]);
    let step = step_batch(&outcomes);
    assert_eq!(step.observations, vec![0, 1, 1, 2, 2, 3, 3, 4]);
    assert_eq!(step.terminal.len(), 1);
    assert_eq!((step.terminal[0].env, step.terminal[0].observation.clone()), (3, vec![9]));
    assert_eq!(reset_batch(&outcomes).seeds, vec![0, 100, 200, 300]);
}

#[test]
fn the_first_failing_worker_is_the_one_reported() {
    let replies = vec![
        Reply::Done(vec![outcome(0, None)]),
        Reply::Lost("receiving on a closed channel".to_owned()),
        Reply::Failed(BatchError::Arena { env: 2, reason: "stopped".to_owned() }),
    ];
    let error = collect_replies(replies).expect_err("two workers failed");
    assert_eq!(error.message(), "worker lost: receiving on a closed channel");
}

#[test]
fn batch_errors_say_what_went_wrong() {
    let refused = ArenaBatch::start(BatchConfig { envs: 0, ..config(1, 1) });
    assert_eq!(
        refused.err().map(|error| error.message()),
        Some("invalid batch config: a batch needs at least one env".to_owned())
    );
    let refused = EnvArena::start(3, BatchConfig { max_frames: 0, ..config(1, 1) });
    assert_eq!(
        refused.err().map(|error| error.message()),
        Some("env 3: invalid arena config: max_frames must be at least one frame".to_owned())
    );
}

#[test]
fn a_direction_that_is_not_finite_stops_its_env() {
    let (mut batch, _) = Batch::start(config(2, 1)).expect("the batch starts");
    let error = batch
        .step(&[rest(), bits(f32::NAN, 0.0)])
        .expect_err("env 1 can not go nowhere");
    assert_eq!(error.message(), "env 1: an intent must be a finite direction");
}

#[test]
fn a_default_batch_is_eight_envs_on_two_workers() {
    let config = BatchConfig::default();
    assert_eq!((config.envs, config.workers, config.root_seed), (8, 2, 0));
    assert_eq!((config.enemy_count, config.max_frames), (100, 3_600));
    assert_eq!(config.hold_frames, DEFAULT_HOLD_FRAMES);
}

// --- sessions ------------------------------------------------------------

fn section(value: Section) -> serde_json::Value {
    let mut map = serde_json::Map::new();
    map.insert("offset".to_owned(), value.offset.into());
    map.insert("length".to_owned(), value.length.into());
    serde_json::Value::Object(map)
}

fn layout_document(layout: &Layout) -> serde_json::Value {
    let float = |value: u32| serde_json::Value::from(f32::from_bits(value));
    let mut map = serde_json::Map::new();
    map.insert("version".to_owned(), layout.version.into());
    map.insert("dtype".to_owned(), layout.dtype.clone().into());
    map.insert("grid".to_owned(), layout.grid.into());
    map.insert("cell_pixels".to_owned(), layout.cell_pixels.into());
    map.insert("window_pixels".to_owned(), layout.window_pixels.into());
    map.insert("world_units_per_pixel".to_owned(), float(layout.world_units_per_pixel));
    map.insert("velocity_scale".to_owned(), float(layout.velocity_scale));
    map.insert("y_axis".to_owned(), layout.y_axis.clone().into());
    map.insert("channels".to_owned(), layout.channels.clone().into());
    map.insert("actions".to_owned(), layout.actions.clone().into());
    map.insert("horizons".to_owned(), layout.horizons.clone().into());
    map.insert("hold_frames".to_owned(), layout.hold_frames.into());
    map.insert("path_scale".to_owned(), float(layout.path_scale));
    map.insert("player_section".to_owned(), section(layout.player_section));
    map.insert("grid_section".to_owned(), section(layout.grid_section));
    map.insert("path_section".to_owned(), section(layout.path_section));
    map.insert("observation_values".to_owned(), layout.observation_values.into());
    serde_json::Value::Object(map)
}

fn document(handshake: &Handshake) -> serde_json::Value {
    let mut map = serde_json::Map::new();
    map.insert("protocol_version".to_owned(), handshake.protocol_version.into());
    map.insert("envs".to_owned(), handshake.envs.into());
    map.insert("enemy_count".to_owned(), handshake.enemy_count.into());
    map.insert("max_frames".to_owned(), handshake.max_frames.into());
    map.insert("root_seed".to_owned(), handshake.root_seed.into());
    map.insert("workers".to_owned(), handshake.workers.into());
    map.insert("layout".to_owned(), layout_document(&handshake.layout));
    serde_json::Value::Object(map)
}

fn handshake() -> Handshake {
    Handshake {
        protocol_version: PROTOCOL_VERSION,
        envs: 2,
        enemy_count: 100,
        max_frames: 3_600,
        root_seed: 42,
        workers: 2,
        layout: layout(DEFAULT_HOLD_FRAMES),
    }
}

#[test]
fn a_handshake_round_trips_with_its_whole_layout() {
    let mut bytes = Vec::new();
    let text = serde_json::to_vec(&document(&handshake())).expect("a document");
    write_handshake(&mut bytes, &text).expect("writing a handshake");

    assert_eq!(
        bytes.get(..8).expect("the magic"),
        b"DRGYM\0\0\x02",
        "the stream identifies itself first, and says which version it speaks"
    );
    let read = read_handshake(&mut bytes.as_slice()).expect("reading it back");
    let read: serde_json::Value = serde_json::from_slice(&read).expect("a document");
    assert_eq!(read, document(&handshake()));
    assert_eq!(read["layout"]["observation_values"], OBSERVATION_VALUES);
    assert_eq!(
        read["layout"]["channels"][0], "normal-enemy",
        "channel names travel with the data"
    );
}

/// The small session the tests below drive.
fn small() -> BatchConfig {
    BatchConfig {
        envs: 2,
        workers: 2,
        root_seed: 7,
        enemy_count: 4,
        max_frames: 3,
        hold_frames: DEFAULT_HOLD_FRAMES,
    }
}

/// Run a session on these bytes to its end: what the client was sent, and
/// whether the session ended well.
fn session(config: BatchConfig, input: &[u8]) -> (Vec<u8>, Result<(), ServerError>) {
    let mut reader = input;
    let mut sent = Vec::new();
    let mut batch = None;
    let opening = serde_json::to_vec(&document(&announce(config))).expect("a document");
    let mut event = Event::Opened(opening);
    loop {
        event = match serve(config, event, &mut sent) {
            Next::Start => match Batch::start(config) {
                Ok((started, initial)) => {
                    batch = Some(started);
                    Event::Started(Ok(initial))
                }
                Err(error) => Event::Started(Err(error)),
            },
            Next::Receive { envs, maximum } => {
                Event::Received(read_request_or_eof(&mut reader, envs, maximum))
            }
            Next::Step(actions) => {
                Event::Stepped(batch.as_mut().expect("a batch").step(&actions))
            }
            Next::Restart(seed) => {
                Event::Restarted(batch.as_mut().expect("a batch").reset(seed))
            }
            Next::Finish => return (sent, Ok(())),
            Next::Fail(error) => return (sent, Err(error)),
        };
    }
}

fn requests(all: &[Request]) -> Vec<u8> {
    let mut bytes = Vec::new();
    for request in all {
        write_request(&mut bytes, request).expect("writing a request");
    }
    bytes
}

#[test]
fn the_opening_is_a_handshake_and_frame_zero() {
    let (sent, ended) = session(small(), &requests(&[Request::Close]));
    let mut reader = sent.as_slice();
    let read = read_handshake(&mut reader).expect("a handshake arrives");
    let handshake: serde_json::Value = serde_json::from_slice(&read).expect("a document");
    assert_eq!(handshake["envs"], 2);
    assert_eq!(handshake["root_seed"], 7);
    assert_eq!(handshake["layout"]["observation_values"], OBSERVATION_VALUES);
    assert_eq!(handshake["layout"]["channels"].as_array().map(Vec::len), Some(7));
    assert_eq!(handshake["layout"]["actions"].as_array().map(Vec::len), Some(9));

    let initial = read_reset(&mut reader, 1 << 30).expect("frame zero arrives");
    assert_eq!(initial.seeds.len(), 2);
    assert_eq!(initial.observations.len(), 2 * OBSERVATION_VALUES);
    assert!(
        initial.observations.iter().all(|value| f32::from_bits(*value).is_finite()),
        "an observation is all finite numbers"
    );
    assert!(ended.is_ok(), "a closed session exits cleanly");
}

#[test]
fn stepping_reports_transitions_and_auto_resets_at_the_budget() {
    let step = || Request::Step(vec![bits(1.0, 0.0), bits(-1.0, 1.0)]);
    let (sent, ended) = session(small(), &requests(&[step(), step(), step(), Request::Close]));
    let mut reader = sent.as_slice();
    read_handshake(&mut reader).expect("a handshake");
    read_reset(&mut reader, 1 << 30).expect("frame zero");

    // The budget is three frames, so the third step ends both episodes.
    for frame in 1..=3_u32 {
        let batch = read_step(&mut reader, 1 << 30).expect("a step response");
        assert_eq!(batch.transitions.len(), 2);
        assert_eq!(batch.observations.len(), 2 * OBSERVATION_VALUES);
        for transition in &batch.transitions {
            assert_eq!(transition.frame, frame);
            assert_eq!(transition.truncated, frame == 3);
        }
        if frame == 3 {
            assert_eq!(batch.terminal.len(), 2, "both episodes ended");
            for terminal in &batch.terminal {
                assert_eq!(terminal.observation.len(), OBSERVATION_VALUES);
            }
            for transition in &batch.transitions {
                assert!(
                    transition.reset_seed.is_some(),
                    "and each carried a new episode's seed"
                );
            }
        } else {
            assert!(batch.terminal.is_empty());
        }
    }
    assert!(ended.is_ok());
}

#[test]
fn a_seeded_reset_reproduces_frame_zero() {
    let asked = [
        Request::Step(vec![bits(-1.0, 0.0), bits(-1.0, 0.0)]),
        Request::Reset(Some(7)),
        Request::Close,
    ];
    let (sent, ended) = session(small(), &requests(&asked));
    let mut reader = sent.as_slice();
    read_handshake(&mut reader).expect("a handshake");
    let first = read_reset(&mut reader, 1 << 30).expect("frame zero");
    read_step(&mut reader, 1 << 30).expect("a step");
    let again = read_reset(&mut reader, 1 << 30).expect("a reset");
    assert_eq!(again.seeds, first.seeds);
    assert_eq!(
        again.observations, first.observations,
        "the same root seed is the same arena"
    );
    assert!(ended.is_ok());
}

#[test]
fn the_session_ends_cleanly_when_the_client_goes_away() {
    let (sent, ended) = session(small(), &[]);
    let mut reader = sent.as_slice();
    read_handshake(&mut reader).expect("a handshake");
    read_reset(&mut reader, 1 << 30).expect("frame zero");
    assert!(reader.is_empty());
    assert!(ended.is_ok(), "an EOF between messages is an ordinary exit");
}

#[test]
fn a_malformed_request_is_an_error_record_and_a_failed_exit() {
    // A direction that is not finite: the batch must not step at all.
    let asked = [Request::Step(vec![rest(), bits(f32::INFINITY, 0.0)])];
    let (sent, ended) = session(small(), &requests(&asked));
    let mut reader = sent.as_slice();
    read_handshake(&mut reader).expect("a handshake");
    read_reset(&mut reader, 1 << 30).expect("frame zero");
    let error = read_step(&mut reader, 1 << 30);
    assert!(
        matches!(error, Err(ProtocolError::UnknownOpcode(0xFF))),
        "the answer is an ERROR record, not a batch: {error:?}"
    );
    assert!(ended.is_err(), "and the session fails rather than carrying on");
}

#[test]
fn a_step_with_the_wrong_action_count_never_steps_an_env() {
    let (sent, ended) = session(small(), &requests(&[Request::Step(vec![rest()])]));
    let mut reader = sent.as_slice();
    read_handshake(&mut reader).expect("a handshake");
    read_reset(&mut reader, 1 << 30).expect("frame zero");
    let error = read_step(&mut reader, 1 << 30);
    assert!(matches!(error, Err(ProtocolError::UnknownOpcode(0xFF))));
    assert_eq!(
        ended.err().map(|error| (error.code(), error.message())),
        Some((1, "expected 2 actions, got 1".to_owned()))
    );
}

#[test]
fn protocol_output_carries_nothing_but_protocol() {
    let asked = [Request::Step(vec![rest(), rest()]), Request::Close];
    let (sent, ended) = session(small(), &requests(&asked));
    let mut reader = sent.as_slice();
    read_handshake(&mut reader).expect("a handshake");
    read_reset(&mut reader, 1 << 30).expect("frame zero");
    read_step(&mut reader, 1 << 30).expect("a step");
    assert_eq!(
        reader,
        &[0x84],
        "the close acknowledgement, and not one byte more"
    );
    assert!(ended.is_ok());
}

#[test]
fn a_batch_that_does_not_start_is_an_error_record_after_the_handshake() {
    let (sent, ended) = session(BatchConfig { enemy_count: 5_000, ..small() }, &[]);
    let mut reader = sent.as_slice();
    read_handshake(&mut reader).expect("a handshake");
    assert_eq!(reader.get(..5), Some(&[0xFF, 2, 0, 0, 0][..]), "an arena failure");
    assert_eq!(
        ended.err().map(|error| error.message()),
        Some("env 0: placed 4096 of 5000 enemies before frame zero".to_owned())
    );
}

#[test]
fn failures_keep_their_origin() {
    let protocol = ServerError::from(ProtocolError::Truncated);
    assert_eq!((protocol.code(), protocol.message().as_str()), (
        1,
        "the stream ended inside a message"
    ));
    let batch = ServerError::from(BatchError::WorkerLost("gone".to_owned()));
    assert_eq!((batch.code(), batch.message().as_str()), (2, "worker lost: gone"));
}

#[test]
fn an_announcement_counts_no_further_than_it_can() {
    let announced = announce(BatchConfig { enemy_count: usize::MAX, ..small() });
    assert_eq!(announced.enemy_count, u32::MAX);
    assert_eq!(announced.layout.hold_frames, DEFAULT_HOLD_FRAMES);
    assert!(leaves_window(128.5_f32.to_bits()) && !leaves_window(128.0_f32.to_bits()));
    assert!(!leaves_window(f32::NAN.to_bits()));
}

#[test]
fn protocol_errors_say_what_went_wrong() {
    let said = [
        (ProtocolError::Io("broken pipe".to_owned()), "io error: broken pipe"),
        (ProtocolError::BadMagic, "the stream is not a DodgeRoyale gym stream"),
        (ProtocolError::UnsupportedVersion(9), "protocol version 9 is not supported"),
        (ProtocolError::UnknownOpcode(7), "unknown opcode 0x07"),
        (
            ProtocolError::PayloadTooLarge { declared: 4_096, maximum: 12 },
            "payload of 4096 bytes exceeds the 12 byte maximum",
        ),
        (ProtocolError::Truncated, "the stream ended inside a message"),
        (ProtocolError::ActionCount { got: 3, expected: 8 }, "expected 8 actions, got 3"),
        (
            ProtocolError::InvalidAction { env: 20 },
            "the action for env 20 is not a finite direction",
        ),
        (ProtocolError::Malformed("no".to_owned()), "malformed message: no"),
    ];
    for (error, words) in said {
        assert_eq!(error.message(), words);
    }
}

#[test]
fn arguments_become_a_batch_or_a_reason() {
    let args = GymArgs {
        envs: 3,
        threads: 2,
        seed: 11,
        enemies: 50,
        max_frames: 600,
        hold_frames: 12,
    };
    assert_eq!(
        gym_config(args),
        Ok(BatchConfig {
            envs: 3,
            workers: 2,
            root_seed: 11,
            enemy_count: 50,
            max_frames: 600,
            hold_frames: 12,
        })
    );
    assert_eq!(
        gym_config(GymArgs { envs: 0, ..args }),
        Err("--envs must be at least one")
    );
    assert_eq!(
        gym_config(GymArgs { threads: 0, ..args }),
        Err("--threads must be at least one")
    );
    assert_eq!(
        gym_config(GymArgs { max_frames: 0, ..args }),
        Err("--max-frames must be at least one")
    );
}

#[test]
fn an_ending_is_told_in_words() {
    let mut last =
        StepResult { frame: 9, hit: true, enemy_deaths: 0, terminated: true, truncated: true };
    assert_eq!(ending(&last), "the player was hit");
    last.terminated = false;
    assert_eq!(ending(&last), "the frame budget ran out");
}

#[test]
fn an_ended_env_carries_its_last_frame_and_a_running_one_does_not() {
    let config = BatchConfig { enemy_count: 0, max_frames: 2, ..BatchConfig::default() };
    let filling = EnvArena::start(3, config).expect("a playable env");
    let mut env = EnvArena::open(3, config, fill(filling, 0).expect("an empty arena"));
    let seed = env.current_seed();
    let running = env.step(FrameCounters::default()).expect("a first frame");
    let outcome = env.outcome(running, vec![1], vec![2]);
    assert_eq!((outcome.env, outcome.observation, outcome.terminal), (3, vec![2], None));
    assert_eq!((outcome.transition.episode_seed, outcome.transition.reset_seed), (seed, None));
    assert!(env.ready().is_ok(), "there is a frame left");
    let ended = env.step(FrameCounters::default()).expect("a last frame");
    let refused = env.ready().expect_err("an ended episode plays no more frames");
    assert_eq!(refused.message(), format!("env 3: {}", ArenaError::Completed.message()));
    let stopped = env.step(FrameCounters::default()).err().expect("and steps no further");
    assert_eq!(stopped.message(), refused.message());
    let outcome = env.outcome(ended, vec![1], vec![2]);
    assert_eq!((outcome.observation, outcome.terminal), (vec![2], Some(vec![1])));
    assert!(outcome.transition.done());
    assert_eq!(outcome.transition.episode_seed, seed);
    assert_eq!(outcome.transition.reset_seed, Some(env.current_seed()));
    let begun = env.first_outcome(vec![9]);
    assert_eq!((begun.env, begun.observation, begun.terminal), (3, vec![9], None));
    assert_eq!((begun.transition.frame, begun.transition.episode_seed), (0, env.current_seed()));
}

#[test]
fn a_reset_answers_with_the_seeds_of_its_root_in_env_order() {
    let config = BatchConfig {
        envs: 5,
        workers: 3,
        root_seed: 40,
        enemy_count: 2,
        max_frames: 4,
        ..BatchConfig::default()
    };
    let (mut batch, first) = Batch::start(config).expect("a batch");
    for frame in 0..6 {
        let actions: Vec<Vec2> = (0..5).map(|env| heading(env + frame)).collect();
        batch.step(&actions).expect("a step");
    }
    let seeds = |root: u64| -> Vec<u64> { (0..5).map(|env| episode_seed(root, env, 0)).collect() };
    assert_eq!(batch.reset(Some(77)).expect("a reset").seeds, seeds(77));
    let next: Vec<u64> = (0..5).map(|env| episode_seed(77, env, 1)).collect();
    assert_eq!(batch.reset(None).expect("a reset").seeds, next);
    let again = batch.reset(Some(40)).expect("a reset");
    assert_eq!(again.seeds, seeds(40));
    assert_eq!((again.seeds, again.observations), (first.seeds, first.observations));
}

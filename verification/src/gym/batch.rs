//! Every env, stepped together: commands go out by shard, replies come back by
//! env.

use crate::bits::{Vec2, ZERO};
use crate::gym::protocol::{
    terminal_views, EnvTransition, ResetBatch, StepBatch, TerminalObservation, TerminalView,
};
use crate::gym::seeds::seed_of;
use crate::gym::workers::{
    arena_config, law_streams_advance_or_restart, BatchConfig, BatchError, BatchFault, EnvOutcome,
    EnvState,
};
use crate::ranked::{in_order, law_ranked, rank, ranked, Ranked};
use crate::simulation::ArenaConfig;
use vstd::prelude::*;
use vstd::seq_lib::lemma_multiset_commutative;

verus! {

/// How many shards there are: no more than envs, and at least one.
pub open spec fn shard_count(envs: u32, workers: u32) -> int {
    let fewer = if workers < envs {
        workers as int
    } else {
        envs as int
    };
    if fewer < 1 {
        1
    } else {
        fewer
    }
}

/// The envs dealt out to the shards one after the other.
pub open spec fn dealt(envs: nat, count: int) -> Seq<Seq<u32>>
    decreases envs,
{
    if envs == 0 {
        Seq::new(count as nat, |shard: int| Seq::empty())
    } else {
        let before = dealt((envs - 1) as nat, count);
        let turn = (envs - 1) % count;
        before.update(turn, before[turn].push((envs - 1) as u32))
    }
}

/// The shards as lists.
pub open spec fn shard_views(shards: Seq<Vec<u32>>) -> Seq<Seq<u32>> {
    shards.map_values(|shard: Vec<u32>| shard@)
}

/// Give each worker a stable shard of env indices.
pub fn shard_envs(envs: u32, workers: u32) -> (shards: Vec<Vec<u32>>)
    ensures
        shards@.len() == shard_count(envs, workers),
        shard_views(shards@) == dealt(envs as nat, shard_count(envs, workers)),
{
    let fewer: u32 = if workers < envs { workers } else { envs };
    let count: u32 = if fewer < 1 { 1 } else { fewer };
    let mut shards: Vec<Vec<u32>> = Vec::new();
    let mut made: u32 = 0;
    while made < count
        invariant
            made <= count,
            shards@.len() == made,
            forall|k: int| 0 <= k < made ==> (#[trigger] shards@[k])@.len() == 0,
        decreases count - made,
    {
        shards.push(Vec::new());
        made = made + 1;
    }
    assert(shard_views(shards@) =~= dealt(0, count as int)) by {
        assert forall|k: int| 0 <= k < count implies shard_views(shards@)[k] == dealt(
            0,
            count as int,
        )[k] by {
            assert(shards@[k]@ =~= Seq::<u32>::empty());
        }
    }
    let mut env: u32 = 0;
    while env < envs
        invariant
            env <= envs,
            count > 0,
            shards@.len() == count,
            shard_views(shards@) == dealt(env as nat, count as int),
        decreases envs - env,
    {
        let turn: usize = (env % count) as usize;
        let ghost before = shard_views(shards@);
        shards[turn].push(env);
        proof {
            assert(shard_views(shards@) =~= before.update(
                turn as int,
                before[turn as int].push(env),
            ));
            assert(dealt((env + 1) as nat, count as int) == before.update(
                turn as int,
                before[turn as int].push(env),
            ));
        }
        env = env + 1;
    }
    shards
}

/// What is sent to an env: the action at its index, or no direction where there
/// is none.
pub open spec fn action_for(actions: Seq<Vec2>, env: u32) -> Vec2 {
    if env < actions.len() {
        actions[env as int]
    } else {
        Vec2 { x: ZERO, y: ZERO }
    }
}

/// The actions of one shard, in shard order.
pub fn shard_actions(actions: &[Vec2], envs: &[u32]) -> (shard: Vec<Vec2>)
    ensures
        shard@ == envs@.map_values(|env: u32| action_for(actions@, env)),
{
    let mut shard: Vec<Vec2> = Vec::new();
    let mut index: usize = 0;
    while index < envs.len()
        invariant
            index <= envs@.len(),
            shard@ =~= envs@.take(index as int).map_values(|env: u32| action_for(actions@, env)),
        decreases envs@.len() - index,
    {
        let env: u32 = envs[index];
        if (env as u64) < actions.len() as u64 {
            shard.push(actions[env as usize]);
        } else {
            shard.push(Vec2 { x: ZERO, y: ZERO });
        }
        index = index + 1;
    }
    assert(envs@.take(index as int) =~= envs@);
    shard
}

/// What came back from a worker.
#[derive(Debug)]
pub enum Reply {
    /// Its shard, in shard order.
    Done(Vec<EnvOutcome>),
    /// One of its arenas failed.
    Failed(BatchError),
    /// Nothing: its channel closed, for this reason.
    Lost(String),
}

impl Reply {
    /// What a worker failed of, if it did.
    pub open spec fn failure(self) -> Option<BatchFault> {
        match self {
            Reply::Done(_) => None,
            Reply::Failed(error) => Some(error@),
            Reply::Lost(reason) => Some(BatchFault::WorkerLost(reason@)),
        }
    }

    /// What a worker did.
    pub open spec fn outcomes(self) -> Seq<EnvOutcome> {
        match self {
            Reply::Done(shard) => shard@,
            _ => Seq::empty(),
        }
    }
}

/// The first failure, in worker order.
pub open spec fn first_failure(replies: Seq<Reply>) -> Option<BatchFault>
    decreases replies.len(),
{
    if replies.len() == 0 {
        None
    } else {
        match first_failure(replies.drop_last()) {
            Some(fault) => Some(fault),
            None => replies.last().failure(),
        }
    }
}

/// Lists one behind the other.
pub open spec fn joined<T>(lists: Seq<Seq<T>>) -> Seq<T>
    decreases lists.len(),
{
    if lists.len() == 0 {
        Seq::empty()
    } else {
        joined(lists.drop_last()) + lists.last()
    }
}

/// What each worker did.
pub open spec fn reported(replies: Seq<Reply>) -> Seq<Seq<EnvOutcome>> {
    replies.map_values(|reply: Reply| reply.outcomes())
}

fn append_outcomes(all: &mut Vec<EnvOutcome>, shard: Vec<EnvOutcome>)
    ensures
        final(all)@ == old(all)@ + shard@,
{
    let mut shard: Vec<EnvOutcome> = shard;
    all.append(&mut shard);
}

/// Gather every worker's shard and order the results by env.
///
/// Every reply is taken even after one failed, so no worker is left blocked on
/// an answer nobody reads; the first failure, in worker order, is the one
/// reported.
pub fn collect_replies(replies: Vec<Reply>) -> (collected: Result<Vec<EnvOutcome>, BatchError>)
    ensures
        match first_failure(replies@) {
            Some(fault) => collected matches Err(error) && error@ == fault,
            None => collected matches Ok(outcomes) && outcomes@ == ranked(
                joined(reported(replies@)),
            ),
        },
{
    let ghost all = replies@;
    let mut failure: Option<BatchError> = None;
    let mut outcomes: Vec<EnvOutcome> = Vec::new();
    let mut left: Vec<Reply> = replies;
    let mut turned: Vec<Reply> = Vec::new();
    while left.len() > 0
        invariant
            all.len() == left@.len() + turned@.len(),
            left@ == all.take(left@.len() as int),
            turned@ == all.skip(left@.len() as int).reverse(),
        decreases left@.len(),
    {
        match left.pop() {
            Some(reply) => {
                turned.push(reply);
                assert(turned@ =~= all.skip(left@.len() as int).reverse());
                assert(left@ =~= all.take(left@.len() as int));
            },
            None => {},
        }
    }
    assert(all.skip(0) =~= all);
    assert(reported(all.take(0)) =~= Seq::empty());
    while turned.len() > 0
        invariant
            turned@.len() <= all.len(),
            turned@ == all.skip(all.len() - turned@.len()).reverse(),
            match first_failure(all.take(all.len() - turned@.len())) {
                Some(fault) => failure matches Some(error) && error@ == fault,
                None => failure is None && outcomes@ == joined(
                    reported(all.take(all.len() - turned@.len())),
                ),
            },
        decreases turned@.len(),
    {
        let ghost done = all.len() - turned@.len();
        let ghost fewer = all.take(done);
        let ghost more = all.take(done + 1);
        match turned.pop() {
            Some(reply) => {
                proof {
                    assert(reply == all[done]);
                    assert(turned@ =~= all.skip(done + 1).reverse());
                    assert(more.drop_last() =~= fewer);
                    assert(more.last() == reply);
                    assert(reported(more).drop_last() =~= reported(fewer));
                    assert(reported(more).last() == reply.outcomes());
                }
                match reply {
                    Reply::Done(shard) => {
                        append_outcomes(&mut outcomes, shard);
                    },
                    Reply::Failed(error) => {
                        if failure.is_none() {
                            failure = Some(error);
                        }
                    },
                    Reply::Lost(reason) => {
                        if failure.is_none() {
                            failure = Some(BatchError::WorkerLost(reason));
                        }
                    },
                }
            },
            None => {},
        }
    }
    assert(all.take(all.len() as int) =~= all);
    match failure {
        Some(error) => Err(error),
        None => Ok(rank(outcomes)),
    }
}

/// The transitions of these outcomes, in order.
pub open spec fn transitions_of(outcomes: Seq<EnvOutcome>) -> Seq<EnvTransition> {
    outcomes.map_values(|outcome: EnvOutcome| outcome.transition)
}

/// The seeds of the episodes these outcomes are on, in order.
pub open spec fn seeds_of(outcomes: Seq<EnvOutcome>) -> Seq<u64> {
    outcomes.map_values(|outcome: EnvOutcome| outcome.transition.episode_seed)
}

/// Every observation of these outcomes, one behind the other.
pub open spec fn observations_of(outcomes: Seq<EnvOutcome>) -> Seq<u32> {
    joined(outcomes.map_values(|outcome: EnvOutcome| outcome.observation@))
}

/// The last frames of the episodes that ended, in order.
pub open spec fn terminals_of(outcomes: Seq<EnvOutcome>) -> Seq<TerminalView>
    decreases outcomes.len(),
{
    if outcomes.len() == 0 {
        Seq::empty()
    } else {
        let before = terminals_of(outcomes.drop_last());
        match outcomes.last().terminal {
            Some(frame) => before.push(
                TerminalView { env: outcomes.last().env, observation: frame@ },
            ),
            None => before,
        }
    }
}

fn append_values(all: &mut Vec<u32>, values: &Vec<u32>)
    ensures
        final(all)@ == old(all)@ + values@,
{
    let mut index: usize = 0;
    assert(all@ =~= old(all)@ + values@.take(0));
    while index < values.len()
        invariant
            index <= values@.len(),
            all@ == old(all)@ + values@.take(index as int),
        decreases values@.len() - index,
    {
        all.push(values[index]);
        assert(all@ =~= old(all)@ + values@.take(index + 1));
        index = index + 1;
    }
    assert(values@.take(index as int) =~= values@);
}

fn copy_values(values: &Vec<u32>) -> (copied: Vec<u32>)
    ensures
        copied@ == values@,
{
    let mut copied: Vec<u32> = Vec::new();
    append_values(&mut copied, values);
    assert(copied@ =~= values@);
    copied
}

/// Put the outcomes of a step, in order, into one response.
pub fn step_batch(outcomes: &[EnvOutcome]) -> (batch: StepBatch)
    ensures
        batch@.transitions == transitions_of(outcomes@),
        batch@.observations == observations_of(outcomes@),
        batch@.terminal == terminals_of(outcomes@),
{
    let mut transitions: Vec<EnvTransition> = Vec::new();
    let mut observations: Vec<u32> = Vec::new();
    let mut terminal: Vec<TerminalObservation> = Vec::new();
    let ghost observed = outcomes@.map_values(|outcome: EnvOutcome| outcome.observation@);
    let mut index: usize = 0;
    assert(observed.take(0) =~= Seq::empty());
    assert(terminal_views(terminal@) =~= Seq::empty());
    assert(outcomes@.take(0) =~= Seq::empty());
    while index < outcomes.len()
        invariant
            index <= outcomes@.len(),
            observed == outcomes@.map_values(|outcome: EnvOutcome| outcome.observation@),
            transitions@ =~= transitions_of(outcomes@).take(index as int),
            observations@ == joined(observed.take(index as int)),
            terminal_views(terminal@) == terminals_of(outcomes@.take(index as int)),
        decreases outcomes@.len() - index,
    {
        let outcome: &EnvOutcome = &outcomes[index];
        transitions.push(outcome.transition);
        append_values(&mut observations, &outcome.observation);
        proof {
            assert(observed.take(index + 1).drop_last() =~= observed.take(index as int));
            assert(observed.take(index + 1).last() == outcome.observation@);
            assert(outcomes@.take(index + 1).drop_last() =~= outcomes@.take(index as int));
        }
        if let Some(frame) = &outcome.terminal {
            let ghost before = terminal_views(terminal@);
            terminal.push(
                TerminalObservation { env: outcome.env, observation: copy_values(frame) },
            );
            assert(terminal_views(terminal@) =~= before.push(
                TerminalView { env: outcome.env, observation: frame@ },
            ));
        }
        index = index + 1;
    }
    proof {
        assert(observed.take(index as int) =~= observed);
        assert(outcomes@.take(index as int) =~= outcomes@);
        assert(transitions@ =~= transitions_of(outcomes@));
    }
    StepBatch { transitions, observations, terminal }
}

/// Put the outcomes of a reset, in order, into one response.
pub fn reset_batch(outcomes: &[EnvOutcome]) -> (batch: ResetBatch)
    ensures
        batch@.seeds == seeds_of(outcomes@),
        batch@.observations == observations_of(outcomes@),
{
    let mut seeds: Vec<u64> = Vec::new();
    let mut observations: Vec<u32> = Vec::new();
    let ghost observed = outcomes@.map_values(|outcome: EnvOutcome| outcome.observation@);
    let mut index: usize = 0;
    assert(observed.take(0) =~= Seq::empty());
    while index < outcomes.len()
        invariant
            index <= outcomes@.len(),
            observed == outcomes@.map_values(|outcome: EnvOutcome| outcome.observation@),
            seeds@ =~= seeds_of(outcomes@).take(index as int),
            observations@ == joined(observed.take(index as int)),
        decreases outcomes@.len() - index,
    {
        let outcome: &EnvOutcome = &outcomes[index];
        seeds.push(outcome.transition.episode_seed);
        append_values(&mut observations, &outcome.observation);
        proof {
            assert(observed.take(index + 1).drop_last() =~= observed.take(index as int));
            assert(observed.take(index + 1).last() == outcome.observation@);
        }
        index = index + 1;
    }
    proof {
        assert(observed.take(index as int) =~= observed);
        assert(seeds@ =~= seeds_of(outcomes@));
    }
    ResetBatch { seeds, observations }
}

/// What a worker is asked to do.
#[derive(Debug)]
pub enum Command {
    /// One action per env in this worker's shard, in shard order.
    Step(Vec<Vec2>),
    /// Restart every env in the shard. `Some` restarts the seed stream.
    Reset(Option<u64>),
    Shutdown,
}

/// Every env, stepped together.
pub struct ArenaBatch {
    shards: Vec<Vec<u32>>,
    envs: u32,
}

/// Why a batch of that configuration can not exist, if it can not.
pub open spec fn batch_fault(config: BatchConfig) -> Option<BatchFault> {
    if config.envs == 0 {
        Some(BatchFault::InvalidConfig("a batch needs at least one env"@))
    } else if config.workers == 0 {
        Some(BatchFault::InvalidConfig("a batch needs at least one worker"@))
    } else {
        None
    }
}

impl ArenaBatch {
    /// How many envs it steps.
    pub closed spec fn env_count(self) -> u32 {
        self.envs
    }

    /// The envs of each worker, in worker order.
    pub closed spec fn shares(self) -> Seq<Seq<u32>> {
        shard_views(self.shards@)
    }

    /// Plan a batch: one worker for each shard.
    pub fn start(config: BatchConfig) -> (planned: Result<Self, BatchError>)
        ensures
            match batch_fault(config) {
                Some(fault) => planned matches Err(error) && error@ == fault,
                None => planned matches Ok(batch) && batch.env_count() == config.envs
                    && batch.shares() == dealt(
                    config.envs as nat,
                    shard_count(config.envs, config.workers),
                ),
            },
    {
        if config.envs == 0 {
            return Err(BatchError::InvalidConfig("a batch needs at least one env"));
        }
        if config.workers == 0 {
            return Err(BatchError::InvalidConfig("a batch needs at least one worker"));
        }
        Ok(ArenaBatch { shards: shard_envs(config.envs, config.workers), envs: config.envs })
    }

    /// How many envs this batch steps.
    pub fn envs(&self) -> (envs: u32)
        ensures
            envs == self.env_count(),
    {
        self.envs
    }

    /// The envs of each worker, in worker order.
    pub fn shards(&self) -> (shards: &Vec<Vec<u32>>)
        ensures
            shard_views(shards@) == self.shares(),
    {
        &self.shards
    }

    /// What to ask of each worker, in worker order, to step every env once.
    pub fn step(&self, actions: &[Vec2]) -> (asked: Result<Vec<Command>, BatchError>)
        ensures
            if actions@.len() == self.env_count() {
                &&& asked matches Ok(commands)
                &&& commands@.len() == self.shares().len()
                &&& forall|worker: int|
                    0 <= worker < commands@.len() ==> (#[trigger] commands@[worker] matches
                        Command::Step(shard) && shard@ == self.shares()[worker].map_values(
                        |env: u32| action_for(actions@, env),
                    ))
            } else {
                asked matches Err(error) && error@ == BatchFault::InvalidConfig(
                    "one action per env, in env order"@,
                )
            },
    {
        if actions.len() as u64 != self.envs as u64 {
            return Err(BatchError::InvalidConfig("one action per env, in env order"));
        }
        let mut commands: Vec<Command> = Vec::new();
        let mut worker: usize = 0;
        while worker < self.shards.len()
            invariant
                worker <= self.shards@.len(),
                commands@.len() == worker,
                forall|k: int|
                    0 <= k < worker ==> (#[trigger] commands@[k] matches Command::Step(shard)
                        && shard@ == self.shares()[k].map_values(
                        |env: u32| action_for(actions@, env),
                    )),
            decreases self.shards@.len() - worker,
        {
            commands.push(Command::Step(shard_actions(actions, self.shards[worker].as_slice())));
            worker = worker + 1;
        }
        Ok(commands)
    }

    /// What to ask of each worker, in worker order, to restart every env.
    pub fn reset(&self, seed: Option<u64>) -> (commands: Vec<Command>)
        ensures
            commands@.len() == self.shares().len(),
            forall|worker: int|
                0 <= worker < commands@.len() ==> #[trigger] commands@[worker] == Command::Reset(
                    seed,
                ),
    {
        let mut commands: Vec<Command> = Vec::new();
        while commands.len() < self.shards.len()
            invariant
                commands@.len() <= self.shards@.len(),
                forall|k: int|
                    0 <= k < commands@.len() ==> #[trigger] commands@[k] == Command::Reset(seed),
            decreases self.shards@.len() - commands@.len(),
        {
            commands.push(Command::Reset(seed));
        }
        commands
    }

    /// Turn the workers' replies to a step into one response. An env that
    /// failed ends the batch rather than returning a partial result.
    pub fn stepped(&self, replies: Vec<Reply>) -> (result: Result<StepBatch, BatchError>)
        ensures
            match first_failure(replies@) {
                Some(fault) => result matches Err(error) && error@ == fault,
                None => result matches Ok(batch) && ({
                    let outcomes = ranked(joined(reported(replies@)));
                    &&& batch@.transitions == transitions_of(outcomes)
                    &&& batch@.observations == observations_of(outcomes)
                    &&& batch@.terminal == terminals_of(outcomes)
                }),
            },
    {
        match collect_replies(replies) {
            Ok(outcomes) => Ok(step_batch(outcomes.as_slice())),
            Err(error) => Err(error),
        }
    }

    /// Turn the workers' replies to a reset, or to starting, into one response.
    pub fn restarted(&self, replies: Vec<Reply>) -> (result: Result<ResetBatch, BatchError>)
        ensures
            match first_failure(replies@) {
                Some(fault) => result matches Err(error) && error@ == fault,
                None => result matches Ok(batch) && ({
                    let outcomes = ranked(joined(reported(replies@)));
                    &&& batch@.seeds == seeds_of(outcomes)
                    &&& batch@.observations == observations_of(outcomes)
                }),
            },
    {
        match collect_replies(replies) {
            Ok(outcomes) => Ok(reset_batch(outcomes.as_slice())),
            Err(error) => Err(error),
        }
    }
}

/// A shard holds every env that is its own number modulo the number of shards,
/// and no other, in increasing order: so every env is played exactly once.
pub proof fn law_shards_part_the_envs(envs: nat, count: int, shard: int)
    requires
        0 <= shard < count,
        envs <= u32::MAX,
    ensures
        dealt(envs, count).len() == count,
        forall|env: u32| #[trigger]
            dealt(envs, count)[shard].contains(env) <==> env < envs && env as int % count == shard,
        forall|i: int, j: int|
            #![trigger dealt(envs, count)[shard][i], dealt(envs, count)[shard][j]]
            0 <= i < j < dealt(envs, count)[shard].len() ==> dealt(envs, count)[shard][i] < dealt(
                envs,
                count,
            )[shard][j],
    decreases envs,
{
    let list = dealt(envs, count)[shard];
    if envs == 0 {
        assert(list =~= Seq::empty());
    } else {
        let fewer = (envs - 1) as nat;
        law_shards_part_the_envs(fewer, count, shard);
        let before = dealt(fewer, count)[shard];
        let last = (envs - 1) as u32;
        if fewer as int % count == shard {
            assert(list == before.push(last));
            assert forall|env: u32| #[trigger] list.contains(env) <==> env < envs && env as int
                % count == shard by {
                if list.contains(env) {
                    let k = choose|k: int| 0 <= k < list.len() && list[k] == env;
                    if k < before.len() {
                        assert(before[k] == env);
                        assert(before.contains(env));
                    }
                }
                if env < envs && env as int % count == shard {
                    if env == last {
                        assert(list[list.len() - 1] == env);
                    } else {
                        assert(before.contains(env));
                        let k = choose|k: int| 0 <= k < before.len() && before[k] == env;
                        assert(list[k] == env);
                    }
                }
            }
            assert forall|i: int, j: int|
                #![trigger list[i], list[j]]
                0 <= i < j < list.len() implies list[i] < list[j] by {
                assert(list[i] == before[i]);
                if j < before.len() {
                    assert(list[j] == before[j]);
                } else {
                    assert(before.contains(before[i]));
                }
            }
        } else {
            assert(list == before);
        }
    }
}

/// What each worker reports when every env of its shard comes to this.
pub open spec fn shares_of(
    shards: Seq<Seq<u32>>,
    outcome: spec_fn(u32) -> EnvOutcome,
) -> Seq<Seq<EnvOutcome>> {
    shards.map_values(|shard: Seq<u32>| shard.map_values(outcome))
}

/// What every env comes to, by env.
pub open spec fn by_env(envs: nat, outcome: spec_fn(u32) -> EnvOutcome) -> Seq<EnvOutcome> {
    Seq::new(envs, |env: int| outcome(env as u32))
}

/// One more item in one of the lists is one more item in all.
proof fn lemma_joined_push<T>(lists: Seq<Seq<T>>, at: int, item: T)
    requires
        0 <= at < lists.len(),
    ensures
        joined(lists.update(at, lists[at].push(item))).to_multiset() == joined(
            lists,
        ).to_multiset().insert(item),
    decreases lists.len(),
{
    broadcast use vstd::seq_lib::group_to_multiset_ensures;
    broadcast use vstd::multiset::group_multiset_axioms;

    let more = lists.update(at, lists[at].push(item));
    if at == lists.len() - 1 {
        assert(more.drop_last() =~= lists.drop_last());
        assert(joined(more) =~= joined(lists).push(item));
    } else {
        lemma_joined_push(lists.drop_last(), at, item);
        assert(more.drop_last() =~= lists.drop_last().update(at, lists[at].push(item)));
        lemma_multiset_commutative(joined(more.drop_last()), more.last());
        lemma_multiset_commutative(joined(lists.drop_last()), lists.last());
        assert(joined(more).to_multiset() =~= joined(lists).to_multiset().insert(item));
    }
}

proof fn lemma_joined_empties<T>(lists: Seq<Seq<T>>)
    requires
        forall|k: int| 0 <= k < lists.len() ==> (#[trigger] lists[k]).len() == 0,
    ensures
        joined(lists).len() == 0,
    decreases lists.len(),
{
    if lists.len() > 0 {
        lemma_joined_empties(lists.drop_last());
    }
}

proof fn lemma_dealt_len(envs: nat, count: int)
    requires
        count > 0,
    ensures
        dealt(envs, count).len() == count,
    decreases envs,
{
    if envs > 0 {
        lemma_dealt_len((envs - 1) as nat, count);
    }
}

proof fn lemma_shares(envs: nat, count: int, outcome: spec_fn(u32) -> EnvOutcome)
    requires
        count > 0,
        envs <= u32::MAX,
    ensures
        joined(shares_of(dealt(envs, count), outcome)).to_multiset() == by_env(
            envs,
            outcome,
        ).to_multiset(),
    decreases envs,
{
    broadcast use vstd::seq_lib::group_to_multiset_ensures;

    lemma_dealt_len(envs, count);
    let shares = shares_of(dealt(envs, count), outcome);
    if envs == 0 {
        assert forall|k: int| 0 <= k < shares.len() implies (#[trigger] shares[k]).len() == 0 by {}
        lemma_joined_empties(shares);
        assert(joined(shares) =~= by_env(0, outcome));
    } else {
        let fewer = (envs - 1) as nat;
        let last = fewer as u32;
        lemma_shares(fewer, count, outcome);
        lemma_dealt_len(fewer, count);
        let before = dealt(fewer, count);
        let turn = fewer as int % count;
        let shorter = shares_of(before, outcome);
        assert(0 <= turn < count);
        assert(before[turn].push(last).map_values(outcome) =~= shorter[turn].push(outcome(last)));
        assert(shares =~= shorter.update(turn, shorter[turn].push(outcome(last))));
        lemma_joined_push(shorter, turn, outcome(last));
        assert(by_env(envs, outcome) =~= by_env(fewer, outcome).push(outcome(last)));
    }
}

/// Outcomes in env order, one for each env, are in their only order.
proof fn lemma_only_order(outcomes: Seq<EnvOutcome>, envs: nat, outcome: spec_fn(u32) -> EnvOutcome)
    requires
        envs <= u32::MAX,
        forall|env: u32| (#[trigger] outcome(env)).env == env,
        in_order(outcomes),
        outcomes.to_multiset() == by_env(envs, outcome).to_multiset(),
    ensures
        outcomes == by_env(envs, outcome),
    decreases envs,
{
    broadcast use vstd::seq_lib::group_to_multiset_ensures;
    broadcast use vstd::multiset::group_multiset_axioms;

    let all = by_env(envs, outcome);
    vstd::seq_lib::to_multiset_len(outcomes);
    vstd::seq_lib::to_multiset_len(all);
    assert(outcomes.len() == all.len());
    if envs == 0 {
        assert(outcomes =~= all);
    } else {
        let last = outcome((envs - 1) as u32);
        let end = outcomes.len() - 1;
        assert(all[envs - 1] == last);
        assert(outcomes.to_multiset().count(last) > 0);
        assert(outcomes.contains(last));
        let at = choose|at: int| 0 <= at < outcomes.len() && outcomes[at] == last;
        assert(outcomes.contains(outcomes[end]));
        assert(all.to_multiset().count(outcomes[end]) > 0);
        assert(all.contains(outcomes[end]));
        let k = choose|k: int| 0 <= k < all.len() && all[k] == outcomes[end];
        assert(outcomes[end] == last) by {
            if at < end {
                assert(outcomes[at].at_most(&outcomes[end]));
            }
        }
        let fewer = (envs - 1) as nat;
        let shorter = outcomes.drop_last();
        assert(shorter.push(last) =~= outcomes);
        assert(by_env(fewer, outcome).push(last) =~= all);
        vstd::seq_lib::to_multiset_build(shorter, last);
        vstd::seq_lib::to_multiset_build(by_env(fewer, outcome), last);
        let left = shorter.to_multiset();
        let right = by_env(fewer, outcome).to_multiset();
        assert(left.insert(last) == right.insert(last));
        assert forall|item: EnvOutcome| left.count(item) == right.count(item) by {
            assert(left.insert(last).count(item) == right.insert(last).count(item));
        }
        assert(left =~= right);
        assert(in_order(shorter));
        lemma_only_order(shorter, fewer, outcome);
    }
}

/// Worker count is invisible: where each env comes to something of its own,
/// however the shards are cut, the gathered outcomes are those of the envs in
/// env order.
pub proof fn law_worker_count_is_invisible(
    envs: u32,
    workers: u32,
    replies: Seq<Reply>,
    outcome: spec_fn(u32) -> EnvOutcome,
)
    requires
        forall|env: u32| (#[trigger] outcome(env)).env == env,
        reported(replies) == shares_of(dealt(envs as nat, shard_count(envs, workers)), outcome),
    ensures
        ranked(joined(reported(replies))) == by_env(envs as nat, outcome),
{
    lemma_shares(envs as nat, shard_count(envs, workers), outcome);
    law_ranked(joined(reported(replies)));
    lemma_only_order(ranked(joined(reported(replies))), envs as nat, outcome);
}

/// The seed an env plays after a reset: a root's first, or the next of its own
/// stream.
pub open spec fn restarted_seed(state: EnvState, root: Option<u64>) -> u64 {
    match root {
        Some(root) => seed_of(root, state.env, 0),
        None => state.next().seed(),
    }
}

/// A batch that is reset answers with one seed for each env, in env order: the
/// first of the root it is reset to, or without a root the next of each env's
/// own stream, which is not the one it played.
pub proof fn law_resets_answer_with_their_seeds(
    envs: u32,
    workers: u32,
    before: spec_fn(u32) -> EnvState,
    observed: spec_fn(u32) -> Vec<u32>,
    root: Option<u64>,
    replies: Seq<Reply>,
)
    requires
        forall|env: u32| (#[trigger] before(env)).env == env,
        reported(replies) == shares_of(
            dealt(envs as nat, shard_count(envs, workers)),
            |env: u32| before(env).restarted(root).first_outcome(observed(env)),
        ),
    ensures
        seeds_of(ranked(joined(reported(replies)))) == Seq::new(
            envs as nat,
            |env: int| restarted_seed(before(env as u32), root),
        ),
        forall|env: u32|
            root is None && (#[trigger] before(env)).episode < u64::MAX ==> restarted_seed(
                before(env),
                root,
            ) != before(env).seed(),
{
    let outcome = |env: u32| before(env).restarted(root).first_outcome(observed(env));
    assert forall|env: u32| (#[trigger] outcome(env)).env == env by {
        assert(before(env).env == env);
    }
    law_worker_count_is_invisible(envs, workers, replies, outcome);
    let seeds = seeds_of(ranked(joined(reported(replies))));
    let wanted = Seq::new(
        envs as nat,
        |env: int| restarted_seed(before(env as u32), root),
    );
    assert forall|env: int| 0 <= env < envs implies seeds[env] == wanted[env] by {
        assert(by_env(envs as nat, outcome)[env] == outcome(env as u32));
        assert(before(env as u32).env == env as u32);
    }
    assert(seeds =~= wanted);
    assert forall|env: u32|
        root is None && (#[trigger] before(env)).episode < u64::MAX implies restarted_seed(
        before(env),
        root,
    ) != before(env).seed() by {
        law_streams_advance_or_restart(before(env), 0);
    }
}

/// The arena an env plays in has the shape the batch was started with, whatever
/// its seed.
pub open spec fn plays(state: EnvState, config: BatchConfig, env: u32) -> bool {
    state.env == env && (ArenaConfig { seed: 0, ..state.arena.config }) == arena_config(config, 0)
}

/// Resetting a batch to the root it was started with gives back its first
/// response, the same seeds and the same observations, whatever was played in
/// between: `frame_zero` is what is observed at the first frame of an arena.
pub proof fn law_a_reset_to_the_root_repeats_the_start(
    config: BatchConfig,
    before: spec_fn(u32) -> EnvState,
    frame_zero: spec_fn(ArenaConfig) -> Vec<u32>,
    first: Seq<Reply>,
    again: Seq<Reply>,
    begun: spec_fn(u32) -> EnvState,
)
    requires
        forall|env: u32| plays(#[trigger] before(env), config, env),
        forall|env: u32|
            (#[trigger] begun(env)).env == env && begun(env).root_seed == config.root_seed && begun(
                env,
            ).episode == 0,
        reported(first) == shares_of(
            dealt(config.envs as nat, shard_count(config.envs, config.workers)),
            |env: u32|
                begun(env).first_outcome(
                    frame_zero(arena_config(config, seed_of(config.root_seed, env, 0))),
                ),
        ),
        reported(again) == shares_of(
            dealt(config.envs as nat, shard_count(config.envs, config.workers)),
            |env: u32|
                before(env).restarted(Some(config.root_seed)).first_outcome(
                    frame_zero(
                        ArenaConfig {
                            seed: before(env).restarted(Some(config.root_seed)).seed(),
                            ..before(env).arena.config
                        },
                    ),
                ),
        ),
    ensures
        seeds_of(ranked(joined(reported(again)))) == seeds_of(ranked(joined(reported(first)))),
        observations_of(ranked(joined(reported(again)))) == observations_of(
            ranked(joined(reported(first))),
        ),
{
    let start = |env: u32|
        begun(env).first_outcome(
            frame_zero(arena_config(config, seed_of(config.root_seed, env, 0))),
        );
    let reset = |env: u32|
        before(env).restarted(Some(config.root_seed)).first_outcome(
            frame_zero(
                ArenaConfig {
                    seed: before(env).restarted(Some(config.root_seed)).seed(),
                    ..before(env).arena.config
                },
            ),
        );
    assert forall|env: u32| (#[trigger] start(env)).env == env by {
        assert(begun(env).env == env);
    }
    assert forall|env: u32| (#[trigger] reset(env)).env == env by {
        assert(plays(before(env), config, env));
    }
    law_worker_count_is_invisible(config.envs, config.workers, first, start);
    law_worker_count_is_invisible(config.envs, config.workers, again, reset);
    let left = by_env(config.envs as nat, reset);
    let right = by_env(config.envs as nat, start);
    assert forall|env: int| 0 <= env < config.envs implies left[env] == right[env] by {
        let number = env as u32;
        assert(plays(before(number), config, number));
        assert(begun(number).env == number);
        let seed = seed_of(config.root_seed, number, 0);
        assert((ArenaConfig { seed, ..before(number).arena.config }) == arena_config(
            config,
            seed,
        )) by {
            assert((ArenaConfig { seed: 0, ..before(number).arena.config }) == arena_config(
                config,
                0,
            ));
        }
    }
    assert(left =~= right);
}

/// There are as many shards as workers, but never more than envs, and always one.
pub proof fn law_shards_are_as_many_as_can_work(envs: u32, workers: u32)
    ensures
        shard_count(envs, workers) >= 1,
        envs >= 1 ==> shard_count(envs, workers) <= envs,
        workers >= 1 ==> shard_count(envs, workers) <= workers,
        1 <= workers <= envs ==> shard_count(envs, workers) == workers,
        1 <= envs <= workers ==> shard_count(envs, workers) == envs,
{
}

/// Every env of a shard is sent the action at its own index.
pub proof fn law_envs_get_their_own_action(actions: Seq<Vec2>, shard: Seq<u32>, i: int)
    requires
        0 <= i < shard.len(),
        shard[i] < actions.len(),
    ensures
        action_for(actions, shard[i]) == actions[shard[i] as int],
        shard.map_values(|env: u32| action_for(actions, env))[i] == actions[shard[i] as int],
{
}

/// A batch of at least one env and one worker can be started, and no other.
pub proof fn law_batches_need_an_env_and_a_worker(config: BatchConfig)
    ensures
        config.envs > 0 && config.workers > 0 ==> batch_fault(config) is None,
        config.envs == 0 || config.workers == 0 ==> batch_fault(config) is Some,
{
}

/// A batch fails exactly when one of its workers does, and then of what the first
/// of those failed of.
pub proof fn law_the_first_failure_is_reported(replies: Seq<Reply>, i: int)
    requires
        0 <= i < replies.len(),
        forall|k: int| 0 <= k < i ==> (#[trigger] replies[k]) is Done,
    ensures
        replies[i] matches Reply::Failed(error) ==> first_failure(replies) == Some(error@),
        replies[i] matches Reply::Lost(reason) ==> first_failure(replies) == Some(
            BatchFault::WorkerLost(reason@),
        ),
        (forall|k: int| 0 <= k < replies.len() ==> (#[trigger] replies[k]) is Done)
            ==> first_failure(replies) is None,
    decreases replies.len(),
{
    lemma_no_failure(replies);
    if replies.len() > 0 {
        let shorter = replies.drop_last();
        if i < shorter.len() {
            assert forall|k: int| 0 <= k < i implies (#[trigger] shorter[k]) is Done by {
                assert(shorter[k] == replies[k]);
            }
            law_the_first_failure_is_reported(shorter, i);
        } else {
            assert forall|k: int| 0 <= k < shorter.len() implies (#[trigger] shorter[k]) is Done by {
                assert(shorter[k] == replies[k]);
            }
            lemma_no_failure(shorter);
        }
    }
}

proof fn lemma_no_failure(replies: Seq<Reply>)
    ensures
        (forall|k: int| 0 <= k < replies.len() ==> (#[trigger] replies[k]) is Done)
            ==> first_failure(replies) is None,
    decreases replies.len(),
{
    if replies.len() > 0 && (forall|k: int|
        0 <= k < replies.len() ==> (#[trigger] replies[k]) is Done) {
        let shorter = replies.drop_last();
        assert forall|k: int| 0 <= k < shorter.len() implies (#[trigger] shorter[k]) is Done by {
            assert(shorter[k] == replies[k]);
        }
        lemma_no_failure(shorter);
        assert(replies[replies.len() - 1] is Done);
    }
}

/// What is gathered is every worker's shard as it was reported, one behind the
/// other.
pub proof fn law_shards_are_gathered_whole(replies: Seq<Reply>, i: int)
    requires
        0 <= i < replies.len(),
    ensures
        reported(replies).len() == replies.len(),
        replies[i] matches Reply::Done(shard) ==> reported(replies)[i] == shard@,
        joined(reported(replies)) == joined(reported(replies.take(i))) + reported(replies)[i]
            + joined(reported(replies.skip(i + 1))),
{
    let lists = reported(replies);
    lemma_joined_parts(lists.take(i + 1), lists.skip(i + 1));
    assert(lists.take(i + 1) + lists.skip(i + 1) =~= lists);
    assert(lists.take(i + 1).drop_last() =~= reported(replies.take(i)));
    assert(lists.skip(i + 1) =~= reported(replies.skip(i + 1)));
    assert(lists.take(i + 1).last() == lists[i]);
}

proof fn lemma_joined_parts<T>(left: Seq<Seq<T>>, right: Seq<Seq<T>>)
    ensures
        joined(left + right) == joined(left) + joined(right),
    decreases right.len(),
{
    if right.len() == 0 {
        assert(left + right =~= left);
        assert(joined(left) + joined(right) =~= joined(left));
    } else {
        lemma_joined_parts(left, right.drop_last());
        assert((left + right).drop_last() =~= left + right.drop_last());
        assert((left + right).last() == right.last());
        assert(joined(left + right) =~= joined(left) + joined(right));
    }
}

proof fn lemma_joined_alike<T>(lists: Seq<Seq<T>>, length: nat)
    requires
        forall|k: int| 0 <= k < lists.len() ==> (#[trigger] lists[k]).len() == length,
    ensures
        joined(lists).len() == lists.len() * length,
        forall|k: int, at: int|
            #![trigger lists[k][at]]
            0 <= k < lists.len() && 0 <= at < length ==> joined(lists)[k * length + at]
                == lists[k][at],
    decreases lists.len(),
{
    if lists.len() == 0 {
        assert(lists.len() * length == 0) by (nonlinear_arith)
            requires
                lists.len() == 0,
        ;
    } else {
        let shorter = lists.drop_last();
        let count = lists.len();
        assert forall|k: int| 0 <= k < shorter.len() implies (#[trigger] shorter[k]).len()
            == length by {
            assert(shorter[k] == lists[k]);
        }
        lemma_joined_alike(shorter, length);
        assert(lists[count - 1].len() == length);
        assert(count * length == (count - 1) * length + length) by (nonlinear_arith)
            requires
                count >= 1,
        ;
        assert forall|k: int, at: int|
            #![trigger lists[k][at]]
            0 <= k < lists.len() && 0 <= at < length implies joined(lists)[k * length + at]
            == lists[k][at] by {
            if k < count - 1 {
                assert(0 <= k * length && k * length + at < (count - 1) * length)
                    by (nonlinear_arith)
                    requires
                        0 <= k < count - 1,
                        0 <= at < length,
                ;
                assert(shorter[k][at] == lists[k][at]);
            }
        }
    }
}

/// A response carries one transition, one seed and one observation for each env,
/// in the order of the envs: the observations stand one behind the other, each
/// where its env's number says.
pub proof fn law_responses_are_in_env_order(
    outcomes: Seq<EnvOutcome>,
    length: nat,
    i: int,
    at: int,
)
    requires
        forall|k: int|
            0 <= k < outcomes.len() ==> (#[trigger] outcomes[k]).observation@.len() == length,
        0 <= i < outcomes.len(),
        0 <= at < length,
    ensures
        transitions_of(outcomes).len() == outcomes.len(),
        transitions_of(outcomes)[i] == outcomes[i].transition,
        seeds_of(outcomes).len() == outcomes.len(),
        seeds_of(outcomes)[i] == outcomes[i].transition.episode_seed,
        observations_of(outcomes).len() == outcomes.len() * length,
        observations_of(outcomes)[i * length + at] == outcomes[i].observation@[at],
{
    let lists = outcomes.map_values(|outcome: EnvOutcome| outcome.observation@);
    assert forall|k: int| 0 <= k < lists.len() implies (#[trigger] lists[k]).len() == length by {
        assert(lists[k] == outcomes[k].observation@);
    }
    lemma_joined_alike(lists, length);
    assert(lists[i][at] == outcomes[i].observation@[at]);
}

/// Every episode that ended sends its last frame along, under its env and behind
/// those of the envs before it; an episode that goes on sends none.
pub proof fn law_ended_episodes_send_their_last_frames(outcomes: Seq<EnvOutcome>, i: int)
    requires
        0 <= i < outcomes.len(),
    ensures
        ({
            let before = terminals_of(outcomes.take(i));
            let all = terminals_of(outcomes);
            let sent = if outcomes[i].terminal is Some {
                1nat
            } else {
                0
            };
            &&& before.len() + sent <= all.len() <= before.len() + sent + (outcomes.len() - i - 1)
            &&& forall|k: int| 0 <= k < before.len() ==> #[trigger] all[k] == before[k]
            &&& outcomes[i].terminal matches Some(frame) ==> all[before.len() as int].env
                == outcomes[i].env && all[before.len() as int].observation == frame@
        }),
    decreases outcomes.len(),
{
    let shorter = outcomes.drop_last();
    if i < shorter.len() {
        law_ended_episodes_send_their_last_frames(shorter, i);
        assert(shorter.take(i) =~= outcomes.take(i));
        assert(shorter[i] == outcomes[i]);
    } else {
        assert(outcomes.take(i) =~= shorter);
    }
}

/// Where no episode ended, no last frame is sent.
pub proof fn law_running_episodes_send_no_last_frame(outcomes: Seq<EnvOutcome>)
    requires
        forall|k: int| 0 <= k < outcomes.len() ==> (#[trigger] outcomes[k]).terminal is None,
    ensures
        terminals_of(outcomes).len() == 0,
    decreases outcomes.len(),
{
    if outcomes.len() > 0 {
        let shorter = outcomes.drop_last();
        assert forall|k: int| 0 <= k < shorter.len() implies (
        #[trigger] shorter[k]).terminal is None by {
            assert(shorter[k] == outcomes[k]);
        }
        law_running_episodes_send_no_last_frame(shorter);
        assert(outcomes[outcomes.len() - 1].terminal is None);
    }
}

/// A batch error says its kind and what went wrong.
pub proof fn law_batch_errors_say_what_went_wrong(
    config: BatchConfig,
    reason: Seq<char>,
    env: u32,
)
    ensures
        BatchFault::InvalidConfig(reason).words() == "invalid batch config: "@ + reason,
        BatchFault::WorkerLost(reason).words() == "worker lost: "@ + reason,
        config.envs == 0 ==> batch_fault(config) == Some(
            BatchFault::InvalidConfig("a batch needs at least one env"@),
        ),
        config.envs > 0 && config.workers == 0 ==> batch_fault(config) == Some(
            BatchFault::InvalidConfig("a batch needs at least one worker"@),
        ),
{
}

/// A list of shards shows every shard in its place.
pub proof fn law_shards_show_what_they_hold(shards: Seq<Vec<u32>>, i: int)
    requires
        0 <= i < shards.len(),
    ensures
        shard_views(shards).len() == shards.len(),
        shard_views(shards)[i] == shards[i]@,
{
}

} // verus!

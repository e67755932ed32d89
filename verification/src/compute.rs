//! Scoring on owned snapshots, on a separate bounded pool of workers.

use crate::model::{PlayerScore, RoundResult};
use rayon::iter::{IntoParallelRefIterator, ParallelIterator};
use vstd::prelude::*;

verus! {

/// Points for one dodge.
pub const POINTS: i64 = 10;

/// A pool of worker threads.
#[verifier::external_type_specification]
#[verifier::external_body]
pub struct ExThreadPool(rayon::ThreadPool);

/// The score is what the round earned.
pub open spec fn earned(result: RoundResult, score: PlayerScore) -> bool {
    &&& score.player_name@ == result.player_name@
    &&& score.score == result.dodges * POINTS
}

/// Compute ten points per dodge.
pub fn score_result(result: &RoundResult) -> (score: PlayerScore)
    ensures
        earned(*result, score),
{
    PlayerScore { player_name: result.player_name.clone(), score: result.dodges as i64 * POINTS }
}

/// `rayon::ThreadPool::install` on a parallel map over a slice, collected into
/// a `Vec`: the items of an indexed parallel iterator are collected in their
/// own order, one for each item of the slice, whichever worker made them.
#[verifier::external_body]
fn score_in_parallel(pool: &rayon::ThreadPool, results: &[RoundResult]) -> (scores: Vec<
    PlayerScore,
>)
    ensures
        scores@.len() == results@.len(),
        forall|index: int|
            0 <= index < results@.len() ==> earned(results@[index], #[trigger] scores@[index]),
{
    pool.install(|| results.par_iter().map(score_result).collect())
}

/// Compute ten points per dodge in parallel, preserving the input order.
///
/// This blocks its caller until the batch finishes, so a substantial batch
/// belongs on a background worker.
pub fn score_round(pool: &rayon::ThreadPool, results: &[RoundResult]) -> (scores: Vec<
    PlayerScore,
>)
    ensures
        scores@.len() == results@.len(),
        forall|index: int|
            0 <= index < results@.len() ==> earned(results@[index], #[trigger] scores@[index]),
{
    score_in_parallel(pool, results)
}

/// Every dodge earns ten points and nothing else does, under the name that played
/// the round: one more dodge is ten points more.
pub proof fn law_ten_points_a_dodge(
    result: RoundResult,
    score: PlayerScore,
    better: RoundResult,
    higher: PlayerScore,
)
    requires
        earned(result, score),
        earned(better, higher),
        better.dodges == result.dodges + 1,
    ensures
        score.score == 10 * result.dodges,
        higher.score == score.score + 10,
        score.player_name@ == result.player_name@,
        higher.player_name@ == better.player_name@,
{
}

} // verus!

//! Scoring on a pool of workers.

use dodge_royale::compute::{score_result, score_round};
use dodge_royale::model::{PlayerScore, RoundResult};

fn cpu_pool() -> rayon::ThreadPool {
    rayon::ThreadPoolBuilder::new().num_threads(2).build().expect("test CPU pool should start")
}

#[test]
fn scoring_preserves_order_and_handles_boundaries() {
    let pool = cpu_pool();
    let results = [
        RoundResult { player_name: "Zero".to_owned(), dodges: 0 },
        RoundResult { player_name: "Maximum".to_owned(), dodges: u32::MAX },
        RoundResult { player_name: "One".to_owned(), dodges: 1 },
    ];
    let expected = vec![
        PlayerScore { player_name: "Zero".to_owned(), score: 0 },
        PlayerScore { player_name: "Maximum".to_owned(), score: 42_949_672_950 },
        PlayerScore { player_name: "One".to_owned(), score: 10 },
    ];

    assert_eq!(pool.current_num_threads(), 2);
    assert_eq!(score_round(&pool, &results), expected);
    assert!(score_round(&pool, &[]).is_empty());
}

#[test]
fn scoring_in_parallel_is_scoring_one_by_one() {
    let pool = cpu_pool();
    let results: Vec<RoundResult> = (0..500)
        .map(|index| RoundResult { player_name: format!("Player {index}"), dodges: index * 3 })
        .collect();
    let one_by_one: Vec<PlayerScore> = results.iter().map(score_result).collect();
    assert_eq!(score_round(&pool, &results), one_by_one);
}

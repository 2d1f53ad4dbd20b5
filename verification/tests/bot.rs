use threes::board::rank_to_face;
use threes::bot::{
    ab_config, AbBot, AbConfig, AbConfigError, BotKind, RandomBot, RootResult,
};
use threes::bot::select_root_move;
use threes::budget::{SearchBudget, SearchStats};
use threes::cache::{AbCache, AbCacheBound, AbCacheEntry, AbCacheKey, AB_CACHE_MAX_ENTRIES};
use threes::eval::{
    corner_path, empty_cell_score, legal_move_score, line_orderedness, max_corner_score,
    merge_chain_pairs, merge_opportunity_score, one_two_imbalance_penalty, one_two_merge_score,
    orderedness_score, path_to_corner_is_clearish, step_toward,
};
use threes::game::DEFAULT_BONUS_FORECAST_HORIZON;
use threes::plan::{dfs_plan_score, Planner};
use threes::probability::Probability;
use threes::ranking::rank_by_score;
use threes::search::{Judge, WeightedValue};
use threes::{Board, Direction, Game};

fn score_of(value: f64) -> i64 {
    if value == f64::INFINITY {
        return i64::MAX;
    }
    if value == f64::NEG_INFINITY {
        return i64::MIN;
    }
    let bits = (value + 0.0).to_bits() as i64;
    if bits < 0 {
        bits ^ i64::MAX
    } else {
        bits
    }
}

fn value_of(score: i64) -> f64 {
    if score == i64::MAX {
        f64::INFINITY
    } else if score == i64::MIN {
        f64::NEG_INFINITY
    } else if score < 0 {
        f64::from_bits((score ^ i64::MAX) as u64)
    } else {
        f64::from_bits(score as u64)
    }
}

fn share(probability: Probability) -> f64 {
    probability.numerator as f64 / probability.denominator as f64
}

fn high_tile_score(board: &Board) -> f64 {
    let high = board.high_face();
    if high == 0 {
        0.0
    } else {
        (high as f64).log2() * 80.0
    }
}

fn base_evaluate_board(board: &Board) -> f64 {
    board.score() as f64
        + empty_cell_score(board) as f64
        + legal_move_score(board) as f64
        + merge_opportunity_score(board) as f64
        + one_two_merge_score(board) as f64
        + high_tile_score(board)
        + orderedness_score(board) as f64 / 4.0
        + max_corner_score(board) as f64
        - one_two_imbalance_penalty(board) as f64
}

fn bonus_forecast_score(game: &Game) -> f64 {
    let forecast = game.bonus_forecast(DEFAULT_BONUS_FORECAST_HORIZON);
    if !forecast.unlocked {
        return 0.0;
    }
    let scale = (game.high_tile() as f64).log2().max(1.0);
    forecast
        .slots
        .iter()
        .map(|slot| {
            let urgency = 1.0 / f64::from(slot.accepted_moves_from_now + 1);
            share(slot.probability) * urgency * (220.0 + scale * 18.0)
        })
        .sum()
}

fn corner_path_score(board: &Board) -> f64 {
    match corner_path(board) {
        Some(path) => {
            let aligned = if path.aligned { 120.0 } else { 0.0 };
            let clear = if path.clear { 90.0 } else { 0.0 };
            260.0 / (path.distance + 1) as f64 + aligned + clear
        }
        None => 0.0,
    }
}

fn merge_chain_path_score(board: &Board) -> f64 {
    let mut score = 0.0;
    for pair in merge_chain_pairs(board) {
        let weight = (rank_to_face(pair.rank) as f64).log2().max(1.0);
        let alignment = if pair.aligned { 85.0 } else { 35.0 };
        score += alignment * weight / (pair.distance + 1) as f64;
    }
    score
}

fn plan_progress_score(game: &Game, root_score: u64, root_high_rank: u16) -> f64 {
    let board = game.board();
    board.score().saturating_sub(root_score) as f64 * 0.75
        + board.high_rank().saturating_sub(root_high_rank) as f64 * 650.0
        + max_corner_score(&board) as f64 * 0.7
        + orderedness_score(&board) as f64 / 4.0 * 0.35
        + merge_opportunity_score(&board) as f64 * 0.45
        + one_two_merge_score(&board) as f64 * 0.6
        + bonus_forecast_score(game) * 0.5
        + corner_path_score(&board)
        + merge_chain_path_score(&board)
}

fn plan_value(game: &Game) -> f64 {
    let root_score = game.board().score();
    let root_high_rank = game.board().high_rank();
    let planner = Planner {
        progress: move |game: &Game| score_of(plan_progress_score(game, root_score, root_high_rank)),
        settle: |gain: i64, ply: u8| score_of(value_of(gain) / f64::from(ply + 1)),
        weigh: |spawn: Probability, rank: Probability, value: i64| {
            score_of((share(spawn) * share(rank)).sqrt() * value_of(value))
        },
    };
    value_of(dfs_plan_score(game, &planner))
}

fn evaluate(game: &Game, dfs: bool) -> f64 {
    let base = base_evaluate_board(&game.board()) + bonus_forecast_score(game);
    if dfs {
        base + plan_value(game) * 0.35
    } else {
        base
    }
}

fn expect(values: &Vec<WeightedValue>) -> i64 {
    let mut sum = 0.0;
    for item in values {
        sum += share(item.spawn_probability) * share(item.rank_probability) * value_of(item.value);
    }
    score_of(sum)
}

fn judge(
    dfs: bool,
) -> Judge<impl Fn(&Game) -> i64, impl Fn(&Vec<WeightedValue>) -> i64, impl Fn(u64) -> bool> {
    Judge {
        evaluate: move |game: &Game| score_of(evaluate(game, dfs)),
        expect,
        stop: |_poll: u64| false,
    }
}

/// A judge that counts free cells and stops at some poll.
fn simple_judge(
    stop_at: u64,
) -> Judge<impl Fn(&Game) -> i64, impl Fn(&Vec<WeightedValue>) -> i64, impl Fn(u64) -> bool> {
    Judge {
        evaluate: |game: &Game| game.board().empty_indices().len() as i64 * 100,
        expect: |values: &Vec<WeightedValue>| {
            let sum: i64 = values.iter().map(|item| item.value).sum();
            sum / values.len() as i64
        },
        stop: move |poll: u64| poll >= stop_at,
    }
}

#[test]
fn random_bot_is_deterministic_for_seed() {
    let game = Game::new(123);
    let mut a = RandomBot::new(123);
    let mut b = RandomBot::new(123);

    assert_eq!(a.choose_move(&game), b.choose_move(&game));
}

#[test]
fn random_bot_picks_legal_moves() {
    let game = Game::new(123);
    let legal = game.legal_directions();
    let mut bot = RandomBot::new(123);

    for _ in 0..20 {
        let direction = bot.choose_move(&game).unwrap();
        assert!(legal.contains(&direction));
    }
}

#[test]
fn ab_bot_picks_legal_move() {
    let game = Game::new(123);
    let mut bot = AbBot::new(AbConfig::default());
    let direction = bot.choose_move(&game, &judge(false)).unwrap();
    assert!(game.legal_directions().contains(&direction));
}

#[test]
fn ab_bot_is_deterministic_for_board() {
    let game = Game::new(123);
    let mut a = AbBot::new(AbConfig::default());
    let mut b = AbBot::new(AbConfig::default());
    assert_eq!(
        a.choose_move(&game, &judge(false)),
        b.choose_move(&game, &judge(false))
    );
}

#[test]
fn ab_cache_reuses_visible_states() {
    let game = Game::new(123);
    let mut bot = AbBot::new(AbConfig::default());
    let first = bot.search(&game, 2, i64::MIN, i64::MAX, &judge(false));
    let cache_len = bot.cache_len();
    let second = bot.search(&game, 2, i64::MIN, i64::MAX, &judge(false));
    assert_eq!(first, second);
    assert_eq!(cache_len, bot.cache_len());
    assert!(cache_len > 0);
}

#[test]
fn ab_dfs_keeps_move_legal() {
    let game = Game::new(123);
    let config = AbConfig {
        depth: 1,
        dfs: true,
        ..AbConfig::default()
    };
    let mut bot = AbBot::new(config);
    let direction = bot.choose_move(&game, &judge(true)).unwrap();
    assert!(game.legal_directions().contains(&direction));
}

#[test]
fn dfs_plan_score_is_non_negative() {
    let game = Game::new(123);
    assert!(plan_value(&game) >= 0.0);
}

#[test]
fn corner_high_tile_scores_better() {
    let corner = Board::from_ranks([7, 1, 2, 3, 1, 2, 3, 1, 2, 3, 1, 2, 3, 1, 2, 3]);
    let middle = Board::from_ranks([1, 1, 2, 3, 1, 7, 3, 1, 2, 3, 1, 2, 3, 1, 2, 3]);
    assert!(max_corner_score(&corner) > max_corner_score(&middle));
}

#[test]
fn ordered_line_scores_better_than_disordered_line() {
    assert!(line_orderedness([7, 6, 5, 4]) > line_orderedness([4, 7, 5, 6]));
}

#[test]
fn ab_bot_reports_search_stats_after_move() {
    let game = Game::new(123);
    let mut bot = AbBot::new(AbConfig::default());
    bot.choose_move(&game, &judge(false)).unwrap();

    let Some(stats) = bot.search_stats() else {
        panic!("ab bot should expose search stats");
    };

    assert!(stats.searched_depth >= 1);
    assert!(stats.predicted_states > 0);
    assert!(value_of(stats.board_eval) >= 0.0);
    assert!(value_of(stats.selected_score).is_finite());
}

#[test]
fn merge_chain_path_rewards_aligned_pairs() {
    let aligned = Board::from_ranks([6, 6, 0, 0, 1, 2, 3, 1, 2, 3, 1, 2, 3, 1, 2, 3]);
    let distant = Board::from_ranks([6, 1, 2, 3, 1, 2, 3, 1, 2, 3, 1, 2, 3, 1, 2, 6]);
    assert!(merge_chain_path_score(&aligned) > merge_chain_path_score(&distant));
}

#[test]
fn one_two_merge_score_rewards_adjacent_pairs() {
    let adjacent = Board::from_ranks([1, 2, 0, 0, 0, 0, 0, 0, 0, 0, 0, 0, 0, 0, 0, 0]);
    let reversed = Board::from_ranks([2, 1, 0, 0, 0, 0, 0, 0, 0, 0, 0, 0, 0, 0, 0, 0]);
    let separated = Board::from_ranks([1, 0, 2, 0, 0, 0, 0, 0, 0, 0, 0, 0, 0, 0, 0, 0]);

    assert!(one_two_merge_score(&adjacent) > one_two_merge_score(&separated));
    assert_eq!(
        one_two_merge_score(&adjacent),
        one_two_merge_score(&reversed)
    );
}

#[test]
fn base_eval_rewards_one_two_merge_setup() {
    let adjacent = Board::from_ranks([1, 2, 0, 0, 4, 5, 6, 7, 4, 5, 6, 7, 4, 5, 6, 7]);
    let separated = Board::from_ranks([1, 0, 2, 0, 4, 5, 6, 7, 4, 5, 6, 7, 4, 5, 6, 7]);

    assert!(one_two_merge_score(&adjacent) > 0);
    assert!(base_evaluate_board(&adjacent) > base_evaluate_board(&separated));
}

#[test]
fn board_features_are_exact() {
    let board = Board::from_ranks([7, 6, 5, 4, 1, 2, 3, 3, 0, 0, 0, 0, 0, 0, 0, 0]);
    assert_eq!(empty_cell_score(&board), 8 * 120);
    assert_eq!(
        legal_move_score(&board),
        board.legal_directions().len() as i64 * 45
    );
    assert_eq!(merge_opportunity_score(&board), 2 * 90);
    assert_eq!(one_two_merge_score(&board), 110);
    assert_eq!(one_two_imbalance_penalty(&board), 0);
    assert_eq!(max_corner_score(&board), 500);
    let ones = Board::from_ranks([1, 0, 1, 0, 1, 0, 0, 2, 0, 0, 0, 0, 0, 0, 0, 0]);
    assert_eq!(one_two_imbalance_penalty(&ones), 80);
    assert_eq!(max_corner_score(&Board::empty()), 0);
}

#[test]
fn orderedness_counts_in_quarter_points() {
    assert_eq!(line_orderedness([7, 6, 5, 4]), 12);
    assert_eq!(line_orderedness([4, 5, 6, 7]), 12);
    assert_eq!(line_orderedness([0, 0, 0, 0]), 3);
    assert_eq!(line_orderedness([4, 7, 5, 6]), 4 - 3 * 2 + 4);
    assert_eq!(orderedness_score(&Board::empty()), 35 * 8 * 3);
}

#[test]
fn the_best_corner_path_is_found() {
    assert_eq!(corner_path(&Board::empty()), None);
    let corner = Board::from_ranks([7, 1, 2, 3, 1, 2, 3, 1, 2, 3, 1, 2, 3, 1, 2, 3]);
    let path = corner_path(&corner).unwrap();
    assert_eq!((path.distance, path.aligned, path.clear), (0, true, true));
    assert_eq!(path.worth(), 420 * (260 + 120 + 90));

    let blocked = Board::from_ranks([1, 1, 2, 3, 1, 7, 3, 1, 2, 3, 1, 2, 3, 1, 2, 3]);
    let path = corner_path(&blocked).unwrap();
    assert_eq!((path.distance, path.aligned, path.clear), (2, false, false));
    assert_eq!(path.worth(), 420 * 260 / 3);
}

#[test]
fn a_way_to_a_corner_leads_over_free_cells() {
    let board = Board::from_ranks([0, 0, 0, 0, 0, 7, 0, 0, 0, 0, 0, 0, 0, 0, 0, 1]);
    assert!(path_to_corner_is_clearish(&board, 1, 1, 0, 0));
    assert!(path_to_corner_is_clearish(&board, 1, 1, 3, 0));
    assert!(!path_to_corner_is_clearish(&board, 1, 1, 3, 3));
    assert_eq!(step_toward(1, 3), 1);
    assert_eq!(step_toward(3, 1), -1);
    assert_eq!(step_toward(2, 2), 0);
}

#[test]
fn chains_hold_every_pair() {
    let board = Board::from_ranks([6, 6, 0, 0, 0, 0, 0, 0, 0, 0, 0, 0, 1, 1, 0, 6]);
    let pairs = merge_chain_pairs(&board);
    let shown: Vec<(u16, usize, bool)> = pairs
        .iter()
        .map(|pair| (pair.rank, pair.distance, pair.aligned))
        .collect();
    assert_eq!(shown, vec![(6, 1, true), (6, 6, false), (6, 5, false)]);
}

#[test]
fn better_scores_come_first_and_equal_ones_keep_their_order() {
    assert_eq!(rank_by_score(&vec![]), Vec::<usize>::new());
    assert_eq!(rank_by_score(&vec![1, 5, 3, 5]), vec![1, 3, 2, 0]);
    assert_eq!(
        rank_by_score(&vec![i64::MIN, i64::MAX, 0]),
        vec![1, 2, 0]
    );
}

#[test]
fn the_first_of_the_best_moves_is_selected() {
    let stats = |count: u64| SearchStats {
        predicted_states: count,
        pruned_states: 1,
        cache_hits: 2,
        cache_misses: 3,
    };
    let results = vec![
        RootResult { direction: Direction::Up, value: 4, stats: stats(10) },
        RootResult { direction: Direction::Left, value: 9, stats: stats(20) },
        RootResult { direction: Direction::Right, value: 9, stats: stats(30) },
    ];
    let (direction, score, report) = select_root_move(&results, 3, 7).unwrap();
    assert_eq!(direction, Direction::Left);
    assert_eq!(score, 9);
    assert_eq!(report.predicted_states, 60);
    assert_eq!(report.pruned_states, 3);
    assert_eq!(report.cache_hits, 6);
    assert_eq!(report.cache_misses, 9);
    assert_eq!(report.searched_depth, 3);
    assert_eq!(report.selected_score, 9);
    assert_eq!(report.board_eval, 7);
    assert!(select_root_move(&vec![], 3, 7).is_none());
}

#[test]
fn a_stored_entry_is_found_again() {
    let game = Game::new(5);
    let mut cache = AbCache::new();
    let key = AbCacheKey::new(&game, 2, false);
    assert!(cache.get(&key).is_none());
    let entry = AbCacheEntry { value: 17, bound: AbCacheBound::Lower };
    cache.store(key, entry);
    assert_eq!(cache.get(&key), Some(entry));
    assert_eq!(cache.len(), 1);
    let newer = AbCacheEntry { value: 18, bound: AbCacheBound::Exact };
    cache.store(key, newer);
    assert_eq!(cache.get(&key), Some(newer));
    assert_eq!(cache.len(), 1);
    assert!(cache.get(&AbCacheKey::new(&game, 3, false)).is_none());
    assert!(cache.get(&AbCacheKey::new(&game, 2, true)).is_none());
    assert!(cache.get(&AbCacheKey::new(&Game::new(6), 2, false)).is_none());
}

#[test]
fn a_full_cache_is_emptied() {
    let game = Game::new(5);
    let mut key = AbCacheKey::new(&game, 2, false);
    let mut cache = AbCache::new();
    let entry = AbCacheEntry { value: 0, bound: AbCacheBound::Exact };
    for i in 0..AB_CACHE_MAX_ENTRIES {
        key.board[0] = (i % 65536) as u16;
        key.board[1] = (i / 65536) as u16;
        cache.store(key, entry);
    }
    assert_eq!(cache.len(), AB_CACHE_MAX_ENTRIES);
    key.board[1] = 9;
    cache.store(key, entry);
    assert_eq!(cache.len(), 1);
    assert_eq!(cache.get(&key), Some(entry));
}

#[test]
fn a_budget_counts_and_ends() {
    let mut budget = SearchBudget::new(Some(2));
    assert!(budget.can_continue(&|_poll: u64| false));
    budget.record_node();
    assert!(!budget.can_continue(&|_poll: u64| true));
    assert!(budget.can_continue(&|_poll: u64| false));
    budget.record_node();
    assert!(!budget.can_continue(&|_poll: u64| false));
    budget.record_prune();
    budget.record_cache_hit();
    budget.record_cache_miss();
    let stats = budget.stats();
    assert_eq!(
        (
            stats.predicted_states,
            stats.pruned_states,
            stats.cache_hits,
            stats.cache_misses
        ),
        (2, 1, 1, 1)
    );
    assert_eq!(budget.polls, 4);
    let mut unlimited = SearchBudget::unlimited();
    assert!(unlimited.can_continue(&|_poll: u64| false));
}

#[test]
fn a_node_limit_is_kept() {
    let game = Game::new(123);
    let config = AbConfig {
        node_limit: Some(5),
        ..AbConfig::default()
    };
    let mut bot = AbBot::new(config);
    let direction = bot.choose_move(&game, &simple_judge(u64::MAX)).unwrap();
    assert!(game.legal_directions().contains(&direction));
    assert!(bot.search_stats().unwrap().predicted_states <= 5);
}

#[test]
fn a_search_that_is_stopped_at_once_takes_the_most_promising_move() {
    let game = Game::new(123);
    let config = AbConfig {
        time_limit_ms: Some(1),
        ..AbConfig::default()
    };
    let mut bot = AbBot::new(config);
    let judge = simple_judge(0);
    let order = bot.order_directions(&game, &game.legal_directions(), &judge);
    let direction = bot.choose_move(&game, &judge).unwrap();
    assert_eq!(direction, order[0]);
    let stats = bot.search_stats().unwrap();
    assert_eq!(stats.searched_depth, 0);
    assert_eq!(stats.predicted_states, 0);
    assert_eq!(stats.selected_score, stats.board_eval);
}

#[test]
fn a_stop_signal_of_its_own_mind_stops_the_search_where_it_says_so() {
    let game = Game::new(123);
    let config = AbConfig {
        time_limit_ms: Some(1000),
        ..AbConfig::default()
    };
    for patience in [0, 1, 2, 3, 10, 40, 200, 1000] {
        let asked = std::cell::Cell::new(0u64);
        let plain = simple_judge(patience);
        let restless = Judge {
            evaluate: plain.evaluate,
            expect: plain.expect,
            stop: |_poll: u64| {
                asked.set(asked.get() + 1);
                asked.get() > patience
            },
        };
        let mut first = AbBot::new(config);
        let mut second = AbBot::new(config);
        let choice = first.choose_with_score(&game, &restless);
        assert_eq!(choice, second.choose_with_score(&game, &simple_judge(patience)));
        assert_eq!(first.cache_len(), second.cache_len());
    }
}

#[test]
fn reported_scores_lie_within_the_bounds_of_the_judge() {
    for seed in 0..10 {
        let game = Game::new(seed);
        for time_limit_ms in [None, Some(1000)] {
            let mut bot = AbBot::new(AbConfig {
                depth: 2,
                time_limit_ms,
                ..AbConfig::default()
            });
            bot.choose_move(&game, &simple_judge(30)).unwrap();
            let stats = bot.search_stats().unwrap();
            assert!((0..=1600).contains(&stats.selected_score));
            assert_eq!(stats.board_eval, 700);
        }
    }
}

#[test]
fn a_search_that_may_visit_nothing_takes_the_first_move() {
    let game = Game::new(123);
    let config = AbConfig {
        node_limit: Some(0),
        ..AbConfig::default()
    };
    let order = game.legal_directions();
    for judge in [simple_judge(u64::MAX), simple_judge(3)] {
        let mut bot = AbBot::new(config);
        let (direction, score, stats) = bot
            .choose_with_limited_budget(&game, &order, 77, &judge)
            .unwrap();
        assert_eq!(direction, order[0]);
        assert_eq!(score, 77);
        assert_eq!(stats.searched_depth, 0);
        assert_eq!(stats.predicted_states, 0);
        assert_eq!(stats.selected_score, 77);
        assert_eq!(stats.board_eval, 77);
        assert_eq!(bot.cache_len(), 0);
    }
}

#[test]
fn no_search_goes_deeper_than_it_is_meant_to() {
    let game = Game::new(123);
    for depth in 1..=3 {
        for stop_at in [0, 1, 2, 5, 20, 100, u64::MAX] {
            let mut bot = AbBot::new(AbConfig {
                depth,
                time_limit_ms: Some(1000),
                ..AbConfig::default()
            });
            bot.choose_move(&game, &simple_judge(stop_at)).unwrap();
            assert!(bot.search_stats().unwrap().searched_depth <= depth);
        }
        let mut bot = AbBot::new(AbConfig {
            depth,
            ..AbConfig::default()
        });
        bot.choose_move(&game, &simple_judge(0)).unwrap();
        assert_eq!(bot.search_stats().unwrap().searched_depth, depth);
    }
}

#[test]
fn a_deep_search_visits_a_position() {
    let game = Game::new(123);
    for node_limit in [None, Some(1), Some(50)] {
        for (depth, visits) in [(1, false), (2, true), (3, true)] {
            let mut bot = AbBot::new(AbConfig {
                depth,
                node_limit,
                ..AbConfig::default()
            });
            bot.choose_move(&game, &simple_judge(u64::MAX)).unwrap();
            let stats = bot.search_stats().unwrap();
            assert_eq!(stats.predicted_states > 0, visits);
        }
    }
}

#[test]
fn a_limited_search_goes_as_deep_as_it_can() {
    let game = Game::new(123);
    let config = AbConfig {
        time_limit_ms: Some(1000),
        ..AbConfig::default()
    };
    let mut bot = AbBot::new(config);
    bot.choose_move(&game, &simple_judge(u64::MAX)).unwrap();
    assert_eq!(bot.search_stats().unwrap().searched_depth, 3);
    bot.set_time_limit_ms(None);
    assert_eq!(bot.config.time_limit_ms, None);
    assert_eq!(
        bot.board_eval(&game, &simple_judge(0)),
        Some(game.board().empty_indices().len() as i64 * 100)
    );
}

#[test]
fn a_window_that_is_reached_cuts_the_search_off() {
    let game = Game::new(123);
    let mut wide = AbBot::new(AbConfig { depth: 2, ..AbConfig::default() });
    let mut narrow = AbBot::new(AbConfig {
        depth: 2,
        alpha: i64::MIN,
        beta: i64::MIN + 1,
        ..AbConfig::default()
    });
    wide.choose_move(&game, &simple_judge(u64::MAX)).unwrap();
    narrow.choose_move(&game, &simple_judge(u64::MAX)).unwrap();
    assert_eq!(wide.search_stats().unwrap().pruned_states, 0);
    assert!(narrow.search_stats().unwrap().pruned_states > 0);
}

#[test]
fn a_bot_has_no_move_in_a_finished_game() {
    let mut game = Game::new(3);
    while !game.is_game_over() {
        let direction = game.legal_directions()[0];
        game.step(direction);
    }
    assert_eq!(RandomBot::new(1).choose_move(&game), None);
    let mut bot = AbBot::new(AbConfig::default());
    assert_eq!(bot.choose_move(&game, &simple_judge(u64::MAX)), None);
    assert!(bot.search_stats().is_none());
}

#[test]
fn settings_are_checked_in_turn() {
    assert_eq!(
        ab_config(0, 5, 1, false, Some(0), Some(0)),
        Err(AbConfigError::NoDepth)
    );
    assert_eq!(
        ab_config(1, 5, 5, false, Some(0), Some(0)),
        Err(AbConfigError::EmptyWindow)
    );
    assert_eq!(
        ab_config(1, 1, 5, false, Some(0), Some(0)),
        Err(AbConfigError::NoTime)
    );
    assert_eq!(
        ab_config(1, 1, 5, false, None, Some(0)),
        Err(AbConfigError::NoNodes)
    );
    let config = ab_config(2, 1, 5, true, Some(3), Some(4)).unwrap();
    assert_eq!(
        config,
        AbConfig {
            depth: 2,
            alpha: 1,
            beta: 5,
            dfs: true,
            time_limit_ms: Some(3),
            node_limit: Some(4),
        }
    );
    assert_eq!(
        AbConfigError::NoDepth.message(),
        "--ab-depth must be at least 1"
    );
    assert_eq!(
        AbConfigError::EmptyWindow.message(),
        "--ab-alpha must be less than --ab-beta"
    );
    assert_eq!(
        AbConfigError::NoTime.message(),
        "--ab-time-limit-ms must be greater than 0"
    );
    assert_eq!(
        AbConfigError::NoNodes.message(),
        "--ab-node-limit must be greater than 0"
    );
}

#[test]
fn limits_are_known() {
    let mut config = AbConfig::default();
    assert_eq!(config.depth, 3);
    assert!(!config.has_limits());
    assert_eq!(config.search_time_limit(), None);
    config.time_limit_ms = Some(0);
    assert!(config.has_limits());
    assert_eq!(config.search_time_limit(), None);
    config.time_limit_ms = Some(20);
    assert_eq!(config.search_time_limit(), Some(20));
    config.time_limit_ms = None;
    config.node_limit = Some(9);
    assert!(config.has_limits());
}

#[test]
fn kinds_of_bots_have_names() {
    assert_eq!(BotKind::Random.name(), "random");
    assert_eq!(BotKind::Ab(AbConfig::default()).name(), "ab");
}

#[test]
fn a_plan_is_worth_at_least_the_gain() {
    let game = Game::new(9);
    let planner = Planner {
        progress: |game: &Game| game.board().empty_indices().len() as i64,
        settle: |gain: i64, ply: u8| gain * 12 / (i64::from(ply) + 1),
        weigh: |_spawn: Probability, _rank: Probability, value: i64| value / 2,
    };
    let gain = game.board().empty_indices().len() as i64;
    assert!(dfs_plan_score(&game, &planner) >= gain * 12);
}

#[test]
fn every_legal_move_is_tried_the_more_promising_first() {
    let game = Game::new(31);
    let bot = AbBot::new(AbConfig::default());
    let judge = simple_judge(u64::MAX);
    let legal = game.legal_directions();
    let order = bot.order_directions(&game, &legal, &judge);
    assert_eq!(order.len(), legal.len());
    let promise = |direction: &Direction| {
        let outcomes = game.preview_outcomes(*direction);
        let sum: i64 = outcomes
            .iter()
            .map(|outcome| outcome.game().board().empty_indices().len() as i64 * 100)
            .sum();
        sum / outcomes.len() as i64
    };
    for direction in &legal {
        assert!(order.contains(direction));
    }
    assert!(order
        .windows(2)
        .all(|pair| promise(&pair[0]) >= promise(&pair[1])));
}

#[test]
fn the_lower_bound_makes_no_difference_in_an_open_window() {
    let game = Game::new(31);
    let judge = simple_judge(u64::MAX);
    let mut first = AbBot::new(AbConfig::default());
    let mut second = AbBot::new(AbConfig::default());
    assert_eq!(
        first.search(&game, 3, i64::MIN, i64::MAX, &judge),
        second.search(&game, 3, 1_000_000, i64::MAX, &judge)
    );
    assert_eq!(first.cache_len(), second.cache_len());
}

#[test]
fn scores_stand_for_values_in_their_order() {
    let values = [f64::NEG_INFINITY, -2.5, -1.0, 0.0, 0.25, 1.0, 1e300, f64::INFINITY];
    for pair in values.windows(2) {
        assert!(score_of(pair[0]) < score_of(pair[1]));
        assert_eq!(value_of(score_of(pair[0])), pair[0]);
    }
}

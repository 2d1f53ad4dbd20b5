//! The bots: one that moves at random, and one that searches.

use crate::board::{legal_moves, moves, pushes_fit, Direction};
use crate::budget::{SearchBudget, SearchStats};
use crate::cache::{AbCache, AbCacheEntry, KeyModel};
use crate::dice::Dice;
use crate::game::{Game, GameModel};
use crate::search::{
    a_poll_was_asked, expected_value_for_move, higher, is_true_as_heard, keeps_the_limit,
    lets_go_on, move_comes_to, nothing_was_asked, one_thing_was_heard_after_another,
    ordered_move_candidates, outcome_room, playable_of, search_room, search_with_budget,
    searches_to, state_of, what_follows_was_heard, Judge, SearchState, Valuation, WeightedValue,
    EVALUATION_ROOM, LOWEST_SCORE,
};
use vstd::prelude::*;

verus! {

/// What sets the random stream of a bot apart from that of the game of the same seed.
pub const BOT_SEED_DOMAIN: u64 = 0x9e37_79b9_7f4a_7c15;

/// How the searching bot searches: how deep, within which window of scores, with or without
/// plans in the evaluation, and within which limits.
#[derive(Clone, Copy, Debug, PartialEq, Eq, Structural)]
pub struct AbConfig {
    pub depth: u8,
    pub alpha: i64,
    pub beta: i64,
    pub dfs: bool,
    pub time_limit_ms: Option<u64>,
    pub node_limit: Option<u64>,
}

impl Default for AbConfig {
    fn default() -> (config: Self)
        ensures
            config == (AbConfig {
                depth: 3,
                alpha: i64::MIN,
                beta: i64::MAX,
                dfs: false,
                time_limit_ms: None,
                node_limit: None,
            }),
    {
        AbConfig {
            depth: 3,
            alpha: i64::MIN,
            beta: i64::MAX,
            dfs: false,
            time_limit_ms: None,
            node_limit: None,
        }
    }
}

/// What is wrong with the settings of a search.
#[derive(Clone, Copy, Debug, PartialEq, Eq, Structural)]
pub enum AbConfigError {
    NoDepth,
    EmptyWindow,
    NoTime,
    NoNodes,
}

impl AbConfigError {
    /// The message of an error.
    pub open spec fn text(self) -> Seq<char> {
        match self {
            AbConfigError::NoDepth => "--ab-depth must be at least 1"@,
            AbConfigError::EmptyWindow => "--ab-alpha must be less than --ab-beta"@,
            AbConfigError::NoTime => "--ab-time-limit-ms must be greater than 0"@,
            AbConfigError::NoNodes => "--ab-node-limit must be greater than 0"@,
        }
    }

    /// The message of the error.
    pub fn message(self) -> (message: &'static str)
        ensures
            message@ == self.text(),
    {
        match self {
            AbConfigError::NoDepth => "--ab-depth must be at least 1",
            AbConfigError::EmptyWindow => "--ab-alpha must be less than --ab-beta",
            AbConfigError::NoTime => "--ab-time-limit-ms must be greater than 0",
            AbConfigError::NoNodes => "--ab-node-limit must be greater than 0",
        }
    }
}

/// What is wrong first with the settings of a search, if anything is.
pub open spec fn config_fault(config: AbConfig) -> Option<AbConfigError> {
    if config.depth == 0 {
        Some(AbConfigError::NoDepth)
    } else if config.alpha >= config.beta {
        Some(AbConfigError::EmptyWindow)
    } else if config.time_limit_ms == Some(0u64) {
        Some(AbConfigError::NoTime)
    } else if config.node_limit == Some(0u64) {
        Some(AbConfigError::NoNodes)
    } else {
        None
    }
}

/// The settings of a search, if they make sense.
pub fn ab_config(
    depth: u8,
    alpha: i64,
    beta: i64,
    dfs: bool,
    time_limit_ms: Option<u64>,
    node_limit: Option<u64>,
) -> (config: Result<AbConfig, AbConfigError>)
    ensures
        ({
            let asked = AbConfig { depth, alpha, beta, dfs, time_limit_ms, node_limit };
            match config_fault(asked) {
                Some(fault) => config == Err::<AbConfig, AbConfigError>(fault),
                None => config == Ok::<AbConfig, AbConfigError>(asked),
            }
        }),
{
    if depth == 0 {
        return Err(AbConfigError::NoDepth);
    }
    if alpha >= beta {
        return Err(AbConfigError::EmptyWindow);
    }
    if let Some(ms) = time_limit_ms {
        if ms == 0 {
            return Err(AbConfigError::NoTime);
        }
    }
    if let Some(nodes) = node_limit {
        if nodes == 0 {
            return Err(AbConfigError::NoNodes);
        }
    }
    Ok(AbConfig { depth, alpha, beta, dfs, time_limit_ms, node_limit })
}

impl AbConfig {
    /// The time limit of a search in milliseconds; a limit of 0 is none.
    pub fn search_time_limit(&self) -> (limit: Option<u64>)
        ensures
            limit == (if self.time_limit_ms == Some(0u64) {
                None
            } else {
                self.time_limit_ms
            }),
    {
        match self.time_limit_ms {
            Some(ms) => if ms > 0 {
                Some(ms)
            } else {
                None
            },
            None => None,
        }
    }

    /// Whether a search has a time limit or a node limit.
    pub fn has_limits(&self) -> (limited: bool)
        ensures
            limited == self.is_limited(),
    {
        self.time_limit_ms.is_some() || self.node_limit.is_some()
    }

    /// Whether a search has a time limit or a node limit.
    pub open spec fn is_limited(self) -> bool {
        self.time_limit_ms is Some || self.node_limit is Some
    }
}

/// The kinds of bots.
#[derive(Clone, Copy, Debug, PartialEq, Eq, Structural)]
pub enum BotKind {
    Random,
    Ab(AbConfig),
}

impl BotKind {
    /// The name of a kind of bot.
    pub open spec fn spec_name(self) -> Seq<char> {
        match self {
            BotKind::Random => "random"@,
            BotKind::Ab(_) => "ab"@,
        }
    }

    /// The name of the kind of bot.
    pub fn name(self) -> (name: &'static str)
        ensures
            name@ == self.spec_name(),
    {
        match self {
            BotKind::Random => "random",
            BotKind::Ab(_) => "ab",
        }
    }
}

/// What a search found out and what it took.
#[derive(Clone, Copy, Debug, PartialEq, Eq, Structural)]
pub struct AbSearchStats {
    pub predicted_states: u64,
    pub pruned_states: u64,
    pub cache_hits: u64,
    pub cache_misses: u64,
    pub searched_depth: u8,
    pub selected_score: i64,
    pub board_eval: i64,
}

/// The report of a search with these counts.
pub open spec fn reported_stats(
    counts: SearchStats,
    searched_depth: u8,
    selected_score: i64,
    board_eval: i64,
) -> AbSearchStats {
    AbSearchStats {
        predicted_states: counts.predicted_states,
        pruned_states: counts.pruned_states,
        cache_hits: counts.cache_hits,
        cache_misses: counts.cache_misses,
        searched_depth,
        selected_score,
        board_eval,
    }
}

impl Default for AbSearchStats {
    fn default() -> (stats: Self)
        ensures
            stats == reported_stats(SearchStats::none(), 0, 0, 0),
    {
        AbSearchStats {
            predicted_states: 0,
            pruned_states: 0,
            cache_hits: 0,
            cache_misses: 0,
            searched_depth: 0,
            selected_score: 0,
            board_eval: 0,
        }
    }
}

impl AbSearchStats {
    fn new(counts: SearchStats, searched_depth: u8, selected_score: i64, board_eval: i64) -> (stats:
        Self)
        ensures
            stats == reported_stats(counts, searched_depth, selected_score, board_eval),
    {
        AbSearchStats {
            predicted_states: counts.predicted_states,
            pruned_states: counts.pruned_states,
            cache_hits: counts.cache_hits,
            cache_misses: counts.cache_misses,
            searched_depth,
            selected_score,
            board_eval,
        }
    }
}

// ---------------------------------------------------------------------------------------------
// The bot that moves at random
// ---------------------------------------------------------------------------------------------

/// The numbers from 0 up to a count.
pub open spec fn numbers_below(count: nat) -> Seq<usize> {
    Seq::new(count, |i: int| i as usize)
}

/// A bot that makes any legal move.
#[derive(Clone, Copy, Debug)]
pub struct RandomBot {
    pub dice: Dice,
}

impl RandomBot {
    /// The move that the bot makes, and the bot afterwards.
    pub open spec fn chosen(self, game: GameModel) -> (Option<Direction>, Dice) {
        let legal = legal_moves(game.board);
        let (place, dice) = self.dice.picked(numbers_below(legal.len()));
        (
            match place {
                Some(i) => Some(legal[i as int]),
                None => None,
            },
            dice,
        )
    }

    /// The bot for the game of a seed.
    pub fn new(game_seed: u64) -> (bot: Self)
        ensures
            bot.dice == (Dice { seed: game_seed ^ BOT_SEED_DOMAIN, word_pos: 0 }),
    {
        RandomBot { dice: Dice::seeded(game_seed ^ BOT_SEED_DOMAIN) }
    }

    /// Chooses one of the legal moves; none where there is none.
    pub fn choose_move(&mut self, game: &Game) -> (choice: Option<Direction>)
        requires
            pushes_fit(game@.board),
        ensures
            (choice, final(self).dice) == old(self).chosen(game@),
            choice is None <==> game@.is_over(),
            choice is Some ==> moves(game@.board, choice->Some_0),
    {
        proof {
            crate::game_laws::the_list_of_legal_moves_is_exact(game@.board);
            crate::game_laws::a_game_is_over_without_legal_moves(game@);
        }
        let legal: Vec<Direction> = game.legal_directions();
        let mut places: Vec<usize> = Vec::new();
        let mut i: usize = 0;
        while i < legal.len()
            invariant
                i <= legal@.len(),
                places@.len() == i,
                forall|j: int| 0 <= j < i ==> places@[j] == j,
            decreases legal@.len() - i,
        {
            places.push(i);
            i = i + 1;
        }
        assert(places@ =~= numbers_below(legal@.len()));
        match self.dice.pick(&places) {
            Some(place) => {
                assert(legal@.contains(legal@[place as int]));
                Some(legal[place])
            },
            None => None,
        }
    }
}

// ---------------------------------------------------------------------------------------------
// The bot that searches
// ---------------------------------------------------------------------------------------------

/// What the search of one move of a position came to.
#[derive(Clone, Copy, Debug, PartialEq, Eq, Structural)]
pub struct RootResult {
    pub direction: Direction,
    pub value: i64,
    pub stats: SearchStats,
}

/// Whether a result is the best one, and the first among equals.
pub open spec fn is_first_best(results: Seq<RootResult>, i: int) -> bool {
    &&& 0 <= i < results.len()
    &&& forall|j: int| 0 <= j < results.len() ==> (#[trigger] results[j]).value <= results[i].value
    &&& forall|j: int| 0 <= j < i ==> (#[trigger] results[j]).value < results[i].value
}

/// The counts of the first few results together.
pub open spec fn joined_counts(results: Seq<RootResult>, count: int) -> SearchStats
    decreases count,
{
    if count <= 0 {
        SearchStats::none()
    } else {
        joined_counts(results, count - 1).joined(results[count - 1].stats)
    }
}

/// A move that a search chose: the direction, its score, and the report.
pub type Choice = (Direction, i64, AbSearchStats);

/// The choice of a direction with a report.
pub open spec fn choice_with(direction: Option<Direction>, stats: Option<AbSearchStats>) -> Option<
    Choice,
> {
    match direction {
        Some(direction) => Some((direction, stats->Some_0.selected_score, stats->Some_0)),
        None => None,
    }
}

/// Whether a choice is the one that the results of the moves come to.
pub open spec fn is_selected(
    choice: Option<Choice>,
    results: Seq<RootResult>,
    depth: u8,
    board_eval: i64,
) -> bool {
    &&& choice is Some <==> results.len() > 0
    &&& choice matches Some((direction, score, stats)) ==> {
        &&& exists|i: int|
            #![trigger results[i]]
            is_first_best(results, i) && direction == results[i].direction && score
                == results[i].value
        &&& stats == reported_stats(
            joined_counts(results, results.len() as int),
            depth,
            score,
            board_eval,
        )
    }
}

/// The choice among some moves of which none was searched: the first one, with the score of the
/// position itself.
pub open spec fn unsearched_choice(order: Seq<Direction>, board_eval: i64) -> Choice {
    (order[0], board_eval, reported_stats(SearchStats::none(), 0, board_eval, board_eval))
}

/// Whether every one of some moves can be made.
pub open spec fn are_legal(game: GameModel, order: Seq<Direction>) -> bool {
    forall|i: int| 0 <= i < order.len() ==> moves(game.board, #[trigger] order[i])
}

/// Whether the scores that a search reports lie between two scores.
pub open spec fn reports_within(stats: AbSearchStats, low: i64, high: i64) -> bool {
    low <= stats.selected_score <= high && low <= stats.board_eval <= high
}

/// Whether a stop signal tells a search to stop the first time that it is asked.
pub open spec fn stops_at_once<S>(stop: S) -> bool where S: Fn(u64) -> bool {
    forall|told: bool| #[trigger] call_ensures(stop, (0u64,), told) ==> told
}

impl Valuation {
    /// What the search of one move comes to, and the cache after it.
    pub open spec fn root_result(
        self,
        config: AbConfig,
        game: GameModel,
        direction: Direction,
        cache: Map<KeyModel, AbCacheEntry>,
    ) -> (RootResult, Map<KeyModel, AbCacheEntry>) {
        let start = SearchState { cache, budget: SearchBudget::fresh(None) };
        let (value, after) = self.move_value(
            game,
            direction,
            config.depth,
            config.alpha,
            config.beta,
            start,
        );
        (RootResult { direction, value, stats: after.budget.counts() }, after.cache)
    }

    /// What the searches of the first few moves come to, and the cache after them.
    pub open spec fn root_results(
        self,
        config: AbConfig,
        game: GameModel,
        order: Seq<Direction>,
        count: int,
        cache: Map<KeyModel, AbCacheEntry>,
    ) -> (Seq<RootResult>, Map<KeyModel, AbCacheEntry>)
        decreases count,
    {
        if count <= 0 {
            (Seq::empty(), cache)
        } else {
            let (results, before) = self.root_results(config, game, order, count - 1, cache);
            let (result, after) = self.root_result(config, game, order[count - 1], before);
            (results.push(result), after)
        }
    }

    /// The best move of a position at one depth, and the state after the search, from one of the
    /// moves on.
    pub open spec fn best_move(
        self,
        game: GameModel,
        order: Seq<Direction>,
        i: int,
        depth: u8,
        alpha: i64,
        beta: i64,
        best: Option<(Direction, i64)>,
        state: SearchState,
    ) -> (Option<(Direction, i64)>, SearchState)
        decreases order.len() - i,
    {
        if i >= order.len() {
            (best, state)
        } else if !state.budget.allows(self.stop) {
            (best, state.polled())
        } else {
            let (value, after) = self.move_value(
                game,
                order[i],
                depth,
                alpha,
                beta,
                state.polled(),
            );
            let new_best = if best is None || value > best->Some_0.1 {
                Some((order[i], value))
            } else {
                best
            };
            let new_alpha = higher(alpha, new_best->Some_0.1);
            if new_alpha >= beta {
                (new_best, after)
            } else {
                self.best_move(game, order, i + 1, depth, new_alpha, beta, new_best, after)
            }
        }
    }

    /// The best move of a position at the deepest depth that is reached, that depth, and the
    /// state after the search, from one depth on.
    pub open spec fn deepened(
        self,
        config: AbConfig,
        game: GameModel,
        order: Seq<Direction>,
        depth: int,
        alpha: i64,
        best: Option<(Direction, i64)>,
        searched_depth: u8,
        state: SearchState,
    ) -> (Option<(Direction, i64)>, u8, SearchState)
        decreases config.depth + 1 - depth,
    {
        if depth > config.depth {
            (best, searched_depth, state)
        } else if !state.budget.allows(self.stop) {
            (best, searched_depth, state.polled())
        } else {
            let (found, after) = self.best_move(
                game,
                order,
                0,
                depth as u8,
                alpha,
                config.beta,
                None,
                state.polled(),
            );
            match found {
                Some((direction, score)) => {
                    let new_alpha = higher(alpha, score);
                    if new_alpha >= config.beta {
                        (found, depth as u8, after)
                    } else {
                        self.deepened(
                            config,
                            game,
                            order,
                            depth + 1,
                            new_alpha,
                            found,
                            depth as u8,
                            after,
                        )
                    }
                },
                None => self.deepened(
                    config,
                    game,
                    order,
                    depth + 1,
                    alpha,
                    best,
                    searched_depth,
                    after,
                ),
            }
        }
    }

    /// The choice of a search within limits, and the cache after it. Where the limits leave no
    /// time for any move, the choice is the most promising one.
    pub open spec fn limited_choice(
        self,
        config: AbConfig,
        game: GameModel,
        order: Seq<Direction>,
        board_eval: i64,
        cache: Map<KeyModel, AbCacheEntry>,
    ) -> (Option<Choice>, Map<KeyModel, AbCacheEntry>) {
        let start = SearchState { cache, budget: SearchBudget::fresh(config.node_limit) };
        let (best, depth, after) = self.deepened(
            config,
            game,
            order,
            1,
            config.alpha,
            None,
            0,
            start,
        );
        let choice = match best {
            Some((direction, score)) => Some(
                (
                    direction,
                    score,
                    reported_stats(after.budget.counts(), depth, score, board_eval),
                ),
            ),
            None => if order.len() > 0 {
                Some(unsearched_choice(order, board_eval))
            } else {
                None
            },
        };
        (choice, after.cache)
    }

    /// Whether a choice in a position is the one that the search comes to, with this cache
    /// before and that one after it.
    pub open spec fn is_choice(
        self,
        config: AbConfig,
        game: GameModel,
        choice: Option<Choice>,
        before: Map<KeyModel, AbCacheEntry>,
        after: Map<KeyModel, AbCacheEntry>,
    ) -> bool {
        let order = self.candidates(game, legal_moves(game.board));
        let board_eval = (self.evaluate)(game);
        if game.is_over() {
            choice is None && after == before
        } else if config.is_limited() {
            (choice, after) == self.limited_choice(config, game, order, board_eval, before)
        } else {
            let (results, last) = self.root_results(
                config,
                game,
                order,
                order.len() as int,
                before,
            );
            is_selected(choice, results, config.depth, board_eval) && after == last
        }
    }
}

// ---------------------------------------------------------------------------------------------
// What a search comes to whatever its stop signal tells
// ---------------------------------------------------------------------------------------------

/// Whether something is true of a search that asked its stop signal from the first poll on.
pub open spec fn is_true_of_a_search<E, C, S>(
    judge: Judge<E, C, S>,
    thing: spec_fn(Valuation) -> bool,
) -> bool where E: Fn(&Game) -> i64, C: Fn(&Vec<WeightedValue>) -> i64, S: Fn(u64) -> bool {
    exists|polls: u64| #[trigger] is_true_as_heard(judge, 0, polls, thing)
}

/// That a position without limits has this score, with this cache before and that one after.
pub open spec fn search_gives(
    dfs: bool,
    game: GameModel,
    depth: u8,
    alpha: i64,
    beta: i64,
    before: Map<KeyModel, AbCacheEntry>,
    value: i64,
    after: Map<KeyModel, AbCacheEntry>,
) -> spec_fn(Valuation) -> bool {
    |v: Valuation|
        {
            let start = SearchState { cache: before, budget: SearchBudget::fresh(None) };
            let (score, end) = v.searched(game, depth, alpha, beta, start);
            v.dfs == dfs ==> score == value && end.cache == after
        }
}

/// That the search of one move comes to this, with this cache before and that one after.
pub open spec fn root_search_gives(
    config: AbConfig,
    game: GameModel,
    direction: Direction,
    before: Map<KeyModel, AbCacheEntry>,
    result: RootResult,
    after: Map<KeyModel, AbCacheEntry>,
) -> spec_fn(Valuation) -> bool {
    |v: Valuation|
        v.dfs == config.dfs ==> v.root_result(config, game, direction, before) == (result, after)
}

/// That this is the best move at one depth, with this state before and that one after.
pub open spec fn best_move_is(
    dfs: bool,
    game: GameModel,
    order: Seq<Direction>,
    depth: u8,
    alpha: i64,
    beta: i64,
    before: SearchState,
    result: (Option<(Direction, i64)>, SearchState),
) -> spec_fn(Valuation) -> bool {
    |v: Valuation|
        v.dfs == dfs ==> v.best_move(game, order, 0, depth, alpha, beta, None, before) == result
}

/// That this is the choice within limits, with this cache before and that one after.
pub open spec fn limited_choice_is(
    config: AbConfig,
    game: GameModel,
    order: Seq<Direction>,
    board_eval: i64,
    before: Map<KeyModel, AbCacheEntry>,
    choice: Option<Choice>,
    after: Map<KeyModel, AbCacheEntry>,
) -> spec_fn(Valuation) -> bool {
    |v: Valuation|
        v.dfs == config.dfs ==> v.limited_choice(config, game, order, board_eval, before) == (
            choice,
            after,
        )
}

/// Whether these are the results of searching some moves one after the other, each with the cache
/// that the one before it left. Every search asks the stop signal anew.
pub open spec fn are_root_searches<E, C, S>(
    judge: Judge<E, C, S>,
    config: AbConfig,
    game: GameModel,
    order: Seq<Direction>,
    results: Seq<RootResult>,
    caches: Seq<Map<KeyModel, AbCacheEntry>>,
) -> bool where E: Fn(&Game) -> i64, C: Fn(&Vec<WeightedValue>) -> i64, S: Fn(u64) -> bool {
    &&& caches.len() == results.len() + 1
    &&& forall|i: int|
        #![trigger results[i]]
        0 <= i < results.len() ==> results[i].direction == order[i] && is_true_of_a_search(
            judge,
            root_search_gives(config, game, order[i], caches[i], results[i], caches[i + 1]),
        )
}

/// Whether a choice is the best of some moves that were searched to the full depth, with this
/// cache before and that one after.
pub open spec fn is_best_of_all<E, C, S>(
    judge: Judge<E, C, S>,
    config: AbConfig,
    game: GameModel,
    order: Seq<Direction>,
    board_eval: i64,
    before: Map<KeyModel, AbCacheEntry>,
    choice: Option<Choice>,
    after: Map<KeyModel, AbCacheEntry>,
) -> bool where E: Fn(&Game) -> i64, C: Fn(&Vec<WeightedValue>) -> i64, S: Fn(u64) -> bool {
    exists|results: Seq<RootResult>, caches: Seq<Map<KeyModel, AbCacheEntry>>| #[trigger]
        are_root_searches(judge, config, game, order, results, caches) && results.len()
            == order.len() && caches.first() == before && caches.last() == after && is_selected(
            choice,
            results,
            config.depth,
            board_eval,
        )
}

/// Whether these are the legal moves in the order in which they are searched, and this is the
/// score of the position itself.
pub open spec fn is_plan<E, C, S>(
    judge: Judge<E, C, S>,
    game: GameModel,
    order: Seq<Direction>,
    board_eval: i64,
) -> bool where E: Fn(&Game) -> i64, C: Fn(&Vec<WeightedValue>) -> i64, S: Fn(u64) -> bool {
    &&& order.len() > 0
    &&& are_legal(game, order)
    &&& forall|v: Valuation| #[trigger]
        v.scores_like(judge) ==> order == v.candidates(game, legal_moves(game.board)) && board_eval
            == (v.evaluate)(game)
}

/// Whether a choice is the one that a search came to, whatever its stop signal told, with this
/// cache before and that one after.
pub open spec fn is_choice_as_heard<E, C, S>(
    judge: Judge<E, C, S>,
    config: AbConfig,
    game: GameModel,
    choice: Option<Choice>,
    before: Map<KeyModel, AbCacheEntry>,
    after: Map<KeyModel, AbCacheEntry>,
) -> bool where E: Fn(&Game) -> i64, C: Fn(&Vec<WeightedValue>) -> i64, S: Fn(u64) -> bool {
    if game.is_over() {
        choice is None && after == before
    } else {
        exists|order: Seq<Direction>, board_eval: i64| #[trigger]
            is_plan(judge, game, order, board_eval) && if config.is_limited() {
                is_true_of_a_search(
                    judge,
                    limited_choice_is(config, game, order, board_eval, before, choice, after),
                )
            } else {
                is_best_of_all(judge, config, game, order, board_eval, before, choice, after)
            }
    }
}

/// Searches one move of a position to the full depth, without limits.
pub fn search_root_move<E, C, S>(
    cache: &mut AbCache,
    config: AbConfig,
    game: &Game,
    direction: Direction,
    judge: &Judge<E, C, S>,
) -> (result: RootResult) where
    E: Fn(&Game) -> i64,
    C: Fn(&Vec<WeightedValue>) -> i64,
    S: Fn(u64) -> bool,

    requires
        old(cache).is_sound(),
        judge.is_ready(),
        game@.is_sound(),
        game@.has_room_for(outcome_room(config.depth) + 1),
    ensures
        final(cache).is_sound(),
        result.direction == direction,
        forall|low: i64, high: i64|
            #[trigger] judge.scores_within(low, high) && moves(game@.board, direction) ==> low
                <= result.value <= high,
        forall|v: Valuation| #[trigger]
            v.describes(*judge) && v.dfs == config.dfs ==> v.root_result(
                config,
                game@,
                direction,
                old(cache)@,
            ) == (result, final(cache)@),
        is_true_of_a_search(
            *judge,
            root_search_gives(config, game@, direction, old(cache)@, result, final(cache)@),
        ),
{
    let mut budget = SearchBudget::unlimited();
    let ghost first = state_of(*cache, budget);
    let value: i64 = expected_value_for_move(
        cache,
        config.dfs,
        game,
        direction,
        config.depth,
        config.alpha,
        config.beta,
        &mut budget,
        judge,
    );
    let result = RootResult { direction, value, stats: budget.stats() };
    proof {
        what_follows_was_heard(
            *judge,
            0,
            budget.polls,
            move_comes_to(
                config.dfs,
                game@,
                direction,
                config.depth,
                config.alpha,
                config.beta,
                first,
                (value, state_of(*cache, budget)),
            ),
            root_search_gives(config, game@, direction, first.cache, result, cache@),
        );
    }
    result
}

/// Selects the best of the moves that were searched, the first one among equals.
pub fn select_root_move(results: &Vec<RootResult>, depth: u8, board_eval: i64) -> (choice: Option<
    Choice,
>)
    ensures
        is_selected(choice, results@, depth, board_eval),
{
    let mut aggregate = SearchStats::default();
    let mut best: Option<usize> = None;
    let mut i: usize = 0;
    while i < results.len()
        invariant
            i <= results@.len(),
            aggregate == joined_counts(results@, i as int),
            best is None <==> i == 0,
            best matches Some(b) ==> is_first_best(results@.take(i as int), b as int),
        decreases results@.len() - i,
    {
        aggregate.add(results[i].stats);
        let better = match best {
            Some(b) => results[i].value > results[b].value,
            None => true,
        };
        proof {
            assert(results@.take(i + 1) =~= results@.take(i as int).push(results@[i as int]));
            assert forall|j: int| 0 <= j < i implies results@.take(i + 1)[j] == results@.take(
                i as int,
            )[j] by {}
        }
        if better {
            best = Some(i);
        }
        i = i + 1;
    }
    assert(results@.take(i as int) =~= results@);
    match best {
        Some(b) => {
            let chosen = results[b];
            Some(
                (
                    chosen.direction,
                    chosen.value,
                    AbSearchStats::new(aggregate, depth, chosen.value, board_eval),
                ),
            )
        },
        None => None,
    }
}

proof fn lemma_less_room(game: GameModel, count: int, less: int)
    requires
        game.has_room_for(count),
        less <= count,
    ensures
        game.has_room_for(less),
{
}

/// A bot that searches for the move with the best score to be expected. It remembers what it
/// found out from one move to the next.
pub struct AbBot {
    pub config: AbConfig,
    pub cache: AbCache,
    pub last_stats: Option<AbSearchStats>,
}

impl AbBot {
    /// What holds of every searching bot.
    pub open spec fn is_sound(self) -> bool {
        self.cache.is_sound()
    }

    /// Whether the bot can search the moves of a game.
    pub open spec fn can_search(self, game: GameModel) -> bool {
        &&& self.is_sound()
        &&& game.is_sound()
        &&& game.has_room_for(outcome_room(self.config.depth) + 1)
    }

    /// A bot that has searched nothing yet.
    pub fn new(config: AbConfig) -> (bot: Self)
        ensures
            bot.is_sound(),
            bot.config == config,
            bot.cache@ == Map::<KeyModel, AbCacheEntry>::empty(),
            bot.last_stats is None,
    {
        AbBot { config, cache: AbCache::new(), last_stats: None }
    }

    /// The report of the last search that chose a move.
    pub fn search_stats(&self) -> (stats: Option<AbSearchStats>)
        ensures
            stats == self.last_stats,
    {
        self.last_stats
    }

    /// Sets the time limit.
    pub fn set_time_limit_ms(&mut self, time_limit_ms: Option<u64>)
        ensures
            final(self).config == (AbConfig { time_limit_ms, ..old(self).config }),
            final(self).cache == old(self).cache,
            final(self).last_stats == old(self).last_stats,
    {
        self.config.time_limit_ms = time_limit_ms;
    }

    /// Number of entries in the cache.
    pub fn cache_len(&self) -> (count: usize)
        requires
            self.is_sound(),
        ensures
            count == self.cache@.len(),
    {
        self.cache.len()
    }

    /// Searches a position without limits.
    pub fn search<E, C, S>(
        &mut self,
        game: &Game,
        depth: u8,
        alpha: i64,
        beta: i64,
        judge: &Judge<E, C, S>,
    ) -> (value: i64) where
        E: Fn(&Game) -> i64,
        C: Fn(&Vec<WeightedValue>) -> i64,
        S: Fn(u64) -> bool,

        requires
            old(self).is_sound(),
            judge.is_ready(),
            game@.is_sound(),
            game@.has_room_for(search_room(depth)),
        ensures
            final(self).is_sound(),
            final(self).config == old(self).config,
            final(self).last_stats == old(self).last_stats,
            forall|v: Valuation| #[trigger]
                v.describes(*judge) && v.dfs == old(self).config.dfs ==> {
                    let start = SearchState {
                        cache: old(self).cache@,
                        budget: SearchBudget::fresh(None),
                    };
                    let (score, after) = v.searched(game@, depth, alpha, beta, start);
                    value == score && final(self).cache@ == after.cache
                },
            is_true_of_a_search(
                *judge,
                search_gives(
                    old(self).config.dfs,
                    game@,
                    depth,
                    alpha,
                    beta,
                    old(self).cache@,
                    value,
                    final(self).cache@,
                ),
            ),
    {
        let mut budget = SearchBudget::unlimited();
        let ghost first = state_of(self.cache, budget);
        let value: i64 = search_with_budget(
            &mut self.cache,
            self.config.dfs,
            game,
            depth,
            alpha,
            beta,
            &mut budget,
            judge,
        );
        proof {
            let dfs = self.config.dfs;
            what_follows_was_heard(
                *judge,
                0,
                budget.polls,
                searches_to(
                    dfs,
                    game@,
                    depth,
                    alpha,
                    beta,
                    first,
                    (value, state_of(self.cache, budget)),
                ),
                search_gives(dfs, game@, depth, alpha, beta, first.cache, value, self.cache@),
            );
        }
        value
    }

    /// The legal moves, the most promising first.
    pub fn order_directions<E, C, S>(
        &self,
        game: &Game,
        legal: &Vec<Direction>,
        judge: &Judge<E, C, S>,
    ) -> (order: Vec<Direction>) where
        E: Fn(&Game) -> i64,
        C: Fn(&Vec<WeightedValue>) -> i64,
        S: Fn(u64) -> bool,

        requires
            judge.is_ready(),
            game@.is_sound(),
            game@.has_room_for(EVALUATION_ROOM + 1),
        ensures
            order@.len() == playable_of(game@, legal@).len(),
            forall|i: int|
                0 <= i < order@.len() ==> moves(game@.board, #[trigger] order@[i])
                    && legal@.contains(order@[i]),
            forall|v: Valuation| #[trigger]
                v.scores_like(*judge) ==> order@ == v.candidates(game@, legal@),
    {
        let candidates = ordered_move_candidates(game, legal, judge);
        assert(candidates.belong_to(game@, EVALUATION_ROOM as int));
        let mut order: Vec<Direction> = Vec::new();
        let mut i: usize = 0;
        while i < candidates.order.len()
            invariant
                i <= candidates.order@.len(),
                candidates.belong_to(game@, EVALUATION_ROOM as int),
                order@.len() == i,
                forall|j: int| 0 <= j < i ==> #[trigger] order@[j] == candidates.directions()[j],
            decreases candidates.order@.len() - i,
        {
            let item: usize = candidates.order[i];
            order.push(candidates.items[item].direction);
            i = i + 1;
        }
        assert(order@ =~= candidates.directions());
        order
    }

    /// Searches the moves of a position one by one to a depth, within a budget. Gives the best of
    /// those that were searched, the first one among equals.
    pub fn choose_with_depth_and_budget<E, C, S>(
        &mut self,
        game: &Game,
        ordered_directions: &Vec<Direction>,
        depth: u8,
        alpha: i64,
        beta: i64,
        budget: &mut SearchBudget,
        judge: &Judge<E, C, S>,
    ) -> (best: Option<(Direction, i64)>) where
        E: Fn(&Game) -> i64,
        C: Fn(&Vec<WeightedValue>) -> i64,
        S: Fn(u64) -> bool,

        requires
            old(self).is_sound(),
            judge.is_ready(),
            game@.is_sound(),
            game@.has_room_for(outcome_room(depth) + 1),
        ensures
            final(self).is_sound(),
            final(self).config == old(self).config,
            final(self).last_stats == old(self).last_stats,
            keeps_the_limit(*old(budget), *final(budget)),
            old(budget).is_used_up() ==> best is None,
            forall|low: i64, high: i64|
                #[trigger] judge.scores_within(low, high) && are_legal(game@, ordered_directions@)
                    && best is Some ==> low <= best->Some_0.1 <= high,
            best matches Some((direction, _)) ==> ordered_directions@.contains(direction),
            forall|v: Valuation| #[trigger]
                v.describes(*judge) && v.dfs == old(self).config.dfs ==> v.best_move(
                    game@,
                    ordered_directions@,
                    0,
                    depth,
                    alpha,
                    beta,
                    None,
                    state_of(old(self).cache, *old(budget)),
                ) == (best, state_of(final(self).cache, *final(budget))),
            is_true_as_heard(
                *judge,
                old(budget).polls,
                final(budget).polls,
                best_move_is(
                    old(self).config.dfs,
                    game@,
                    ordered_directions@,
                    depth,
                    alpha,
                    beta,
                    state_of(old(self).cache, *old(budget)),
                    (best, state_of(final(self).cache, *final(budget))),
                ),
            ),
    {
        let ghost first = state_of(self.cache, *budget);
        let ghost first_budget = *budget;
        let ghost config = self.config;
        let ghost last_stats = self.last_stats;
        let mut low: i64 = alpha;
        let mut best_direction: Option<Direction> = None;
        let mut best_score: i64 = LOWEST_SCORE;
        let mut i: usize = 0;
        let ghost window = (alpha, beta);
        proof {
            nothing_was_asked(
                *judge,
                first_budget.polls,
                best_move_stands_at(
                    config.dfs,
                    game@,
                    ordered_directions@,
                    depth,
                    window,
                    first,
                    (0, alpha, None, first),
                ),
            );
        }
        while i < ordered_directions.len()
            invariant
                i <= ordered_directions@.len(),
                window == (alpha, beta),
                is_true_as_heard(
                    *judge,
                    first_budget.polls,
                    budget.polls,
                    best_move_stands_at(
                        config.dfs,
                        game@,
                        ordered_directions@,
                        depth,
                        window,
                        first,
                        (
                            i as int,
                            low,
                            paired(best_direction, best_score),
                            state_of(self.cache, *budget),
                        ),
                    ),
                ),
                self.is_sound(),
                self.config == config,
                self.last_stats == last_stats,
                judge.is_ready(),
                game@.is_sound(),
                game@.has_room_for(outcome_room(depth) + 1),
                keeps_the_limit(first_budget, *budget),
                best_direction is None ==> best_score == LOWEST_SCORE,
                first_budget.is_used_up() ==> best_direction is None,
                forall|least: i64, most: i64|
                    #[trigger] judge.scores_within(least, most) && are_legal(
                        game@,
                        ordered_directions@,
                    ) && best_direction is Some ==> least <= best_score <= most,
                best_direction matches Some(direction) ==> ordered_directions@.contains(direction),
                config == old(self).config,
                last_stats == old(self).last_stats,
                first == state_of(old(self).cache, *old(budget)),
                first_budget == *old(budget),
                forall|v: Valuation| #[trigger]
                    v.describes(*judge) && v.dfs == config.dfs ==> v.best_move(
                        game@,
                        ordered_directions@,
                        0,
                        depth,
                        alpha,
                        beta,
                        None,
                        first,
                    ) == v.best_move(
                        game@,
                        ordered_directions@,
                        i as int,
                        depth,
                        low,
                        beta,
                        paired(best_direction, best_score),
                        state_of(self.cache, *budget),
                    ),
            decreases ordered_directions@.len() - i,
        {
            let ghost at = state_of(self.cache, *budget);
            let ghost at_low = low;
            let ghost so_far = paired(best_direction, best_score);
            let ghost stands = best_move_stands_at(
                config.dfs,
                game@,
                ordered_directions@,
                depth,
                window,
                first,
                (i as int, low, so_far, at),
            );
            if !budget.can_continue(&judge.stop) {
                proof {
                    a_poll_was_asked(*judge, at.budget, false);
                    one_thing_was_heard_after_another(
                        *judge,
                        first_budget.polls,
                        at.budget.polls,
                        budget.polls,
                        stands,
                        lets_go_on(at.budget, false),
                        best_move_is(
                            config.dfs,
                            game@,
                            ordered_directions@,
                            depth,
                            alpha,
                            beta,
                            first,
                            (so_far, state_of(self.cache, *budget)),
                        ),
                    );
                }
                return pair(best_direction, best_score);
            }
            let ghost asked = state_of(self.cache, *budget);
            let ghost goes_on = |v: Valuation| stands(v) && lets_go_on(at.budget, true)(v);
            proof {
                a_poll_was_asked(*judge, at.budget, true);
                one_thing_was_heard_after_another(
                    *judge,
                    first_budget.polls,
                    at.budget.polls,
                    asked.budget.polls,
                    stands,
                    lets_go_on(at.budget, true),
                    goes_on,
                );
            }
            let direction = ordered_directions[i];
            let value: i64 = expected_value_for_move(
                &mut self.cache,
                self.config.dfs,
                game,
                direction,
                depth,
                low,
                beta,
                budget,
                judge,
            );
            if value > best_score || (value == best_score && best_direction.is_none()) {
                best_score = value;
                best_direction = Some(direction);
            }
            if low < best_score {
                low = best_score;
            }
            let ghost now = state_of(self.cache, *budget);
            let ghost comes_to = move_comes_to(
                config.dfs,
                game@,
                direction,
                depth,
                at_low,
                beta,
                asked,
                (value, now),
            );
            if low >= beta {
                proof {
                    one_thing_was_heard_after_another(
                        *judge,
                        first_budget.polls,
                        asked.budget.polls,
                        budget.polls,
                        goes_on,
                        comes_to,
                        best_move_is(
                            config.dfs,
                            game@,
                            ordered_directions@,
                            depth,
                            alpha,
                            beta,
                            first,
                            (paired(best_direction, best_score), now),
                        ),
                    );
                }
                return pair(best_direction, best_score);
            }
            i = i + 1;
            proof {
                one_thing_was_heard_after_another(
                    *judge,
                    first_budget.polls,
                    asked.budget.polls,
                    budget.polls,
                    goes_on,
                    comes_to,
                    best_move_stands_at(
                        config.dfs,
                        game@,
                        ordered_directions@,
                        depth,
                        window,
                        first,
                        (i as int, low, paired(best_direction, best_score), now),
                    ),
                );
            }
        }
        proof {
            let now = state_of(self.cache, *budget);
            let best = paired(best_direction, best_score);
            what_follows_was_heard(
                *judge,
                first_budget.polls,
                budget.polls,
                best_move_stands_at(
                    config.dfs,
                    game@,
                    ordered_directions@,
                    depth,
                    window,
                    first,
                    (i as int, low, best, now),
                ),
                best_move_is(
                    config.dfs,
                    game@,
                    ordered_directions@,
                    depth,
                    alpha,
                    beta,
                    first,
                    (best, now),
                ),
            );
        }
        pair(best_direction, best_score)
    }

    /// Searches the moves of a position ever deeper, within the limits and no deeper than the
    /// bot is meant to. Gives the best move of the last depth that gave one; where none did, the
    /// first of the moves.
    pub fn choose_with_limited_budget<E, C, S>(
        &mut self,
        game: &Game,
        ordered_directions: &Vec<Direction>,
        board_eval: i64,
        judge: &Judge<E, C, S>,
    ) -> (choice: Option<Choice>) where
        E: Fn(&Game) -> i64,
        C: Fn(&Vec<WeightedValue>) -> i64,
        S: Fn(u64) -> bool,

        requires
            old(self).can_search(game@),
            judge.is_ready(),
        ensures
            final(self).is_sound(),
            final(self).config == old(self).config,
            final(self).last_stats == old(self).last_stats,
            choice matches Some((_, score, stats)) ==> stats.selected_score == score,
            choice is Some <==> ordered_directions@.len() > 0,
            choice matches Some((direction, _, _)) ==> ordered_directions@.contains(direction),
            choice matches Some((_, _, stats)) ==> (old(self).config.node_limit is Some
                ==> stats.predicted_states <= old(self).config.node_limit->Some_0),
            choice matches Some((_, _, stats)) ==> stats.searched_depth <= old(self).config.depth,
            choice matches Some((_, _, stats)) ==> (stats.searched_depth == 0 ==> choice == Some(
                unsearched_choice(ordered_directions@, board_eval),
            )),
            forall|low: i64, high: i64|
                #[trigger] judge.scores_within(low, high) && are_legal(game@, ordered_directions@)
                    && low <= board_eval <= high && choice is Some ==> reports_within(
                    choice->Some_0.2,
                    low,
                    high,
                ),
            ordered_directions@.len() > 0 && (old(self).config.node_limit == Some(0u64)
                || old(self).config.depth == 0 || stops_at_once(judge.stop)) ==> choice == Some(
                unsearched_choice(ordered_directions@, board_eval),
            ),
            forall|v: Valuation| #[trigger]
                v.describes(*judge) && v.dfs == old(self).config.dfs ==> v.limited_choice(
                    old(self).config,
                    game@,
                    ordered_directions@,
                    board_eval,
                    old(self).cache@,
                ) == (choice, final(self).cache@),
            is_true_of_a_search(
                *judge,
                limited_choice_is(
                    old(self).config,
                    game@,
                    ordered_directions@,
                    board_eval,
                    old(self).cache@,
                    choice,
                    final(self).cache@,
                ),
            ),
    {
        let ghost config = self.config;
        let ghost last_stats = self.last_stats;
        let mut budget = SearchBudget::new(self.config.node_limit);
        let ghost first = state_of(self.cache, budget);
        let ghost first_budget = budget;
        let mut best: Option<(Direction, i64)> = None;
        let mut alpha: i64 = self.config.alpha;
        let mut searched_depth: u8 = 0;
        let mut depth: u16 = 1;
        let mut open = true;
        proof {
            nothing_was_asked(
                *judge,
                0,
                deepening_stands_at(
                    config,
                    game@,
                    ordered_directions@,
                    first,
                    true,
                    1,
                    alpha,
                    (best, searched_depth, first),
                ),
            );
        }
        while open && depth <= self.config.depth as u16
            invariant
                is_true_as_heard(
                    *judge,
                    0,
                    budget.polls,
                    deepening_stands_at(
                        config,
                        game@,
                        ordered_directions@,
                        first,
                        open,
                        depth as int,
                        alpha,
                        (best, searched_depth, state_of(self.cache, budget)),
                    ),
                ),
                1 <= depth <= config.depth + 1,
                self.is_sound(),
                self.config == config,
                self.last_stats == last_stats,
                judge.is_ready(),
                game@.is_sound(),
                game@.has_room_for(outcome_room(config.depth) + 1),
                first_budget == SearchBudget::fresh(config.node_limit),
                keeps_the_limit(first_budget, budget),
                open && depth == 1 ==> budget == first_budget,
                best matches Some((direction, _)) ==> ordered_directions@.contains(direction),
                best is Some ==> 1 <= searched_depth <= config.depth,
                forall|low: i64, high: i64|
                    #[trigger] judge.scores_within(low, high) && are_legal(
                        game@,
                        ordered_directions@,
                    ) && best is Some ==> low <= best->Some_0.1 <= high,
                config.node_limit == Some(0u64) ==> best is None,
                stops_at_once(judge.stop) ==> best is None && (open ==> depth == 1),
                forall|v: Valuation| #[trigger]
                    v.describes(*judge) && v.dfs == config.dfs ==> v.deepened(
                        config,
                        game@,
                        ordered_directions@,
                        1,
                        config.alpha,
                        None,
                        0,
                        first,
                    ) == (if open {
                        v.deepened(
                            config,
                            game@,
                            ordered_directions@,
                            depth as int,
                            alpha,
                            best,
                            searched_depth,
                            state_of(self.cache, budget),
                        )
                    } else {
                        (best, searched_depth, state_of(self.cache, budget))
                    }),
            decreases config.depth + 1 - depth + (if open {
                1int
            } else {
                0
            }),
        {
            let ghost at = state_of(self.cache, budget);
            let ghost stands = deepening_stands_at(
                config,
                game@,
                ordered_directions@,
                first,
                true,
                depth as int,
                alpha,
                (best, searched_depth, at),
            );
            if !budget.can_continue(&judge.stop) {
                open = false;
                proof {
                    a_poll_was_asked(*judge, at.budget, false);
                    one_thing_was_heard_after_another(
                        *judge,
                        0,
                        at.budget.polls,
                        budget.polls,
                        stands,
                        lets_go_on(at.budget, false),
                        deepening_stands_at(
                            config,
                            game@,
                            ordered_directions@,
                            first,
                            false,
                            depth as int,
                            alpha,
                            (best, searched_depth, state_of(self.cache, budget)),
                        ),
                    );
                }
            } else {
                let level: u8 = depth as u8;
                let ghost asked = state_of(self.cache, budget);
                let ghost at_alpha = alpha;
                let ghost goes_on = |v: Valuation| stands(v) && lets_go_on(at.budget, true)(v);
                proof {
                    a_poll_was_asked(*judge, at.budget, true);
                    one_thing_was_heard_after_another(
                        *judge,
                        0,
                        at.budget.polls,
                        asked.budget.polls,
                        stands,
                        lets_go_on(at.budget, true),
                        goes_on,
                    );
                    lemma_less_room(
                        game@,
                        outcome_room(config.depth) + 1,
                        outcome_room(level) + 1,
                    );
                }
                let found: Option<(Direction, i64)> = self.choose_with_depth_and_budget(
                    game,
                    ordered_directions,
                    level,
                    alpha,
                    self.config.beta,
                    &mut budget,
                    judge,
                );
                if let Some((direction, score)) = found {
                    best = Some((direction, score));
                    if alpha < score {
                        alpha = score;
                    }
                    searched_depth = level;
                    if alpha >= self.config.beta {
                        open = false;
                    }
                }
                if open {
                    depth = depth + 1;
                }
                proof {
                    let now = state_of(self.cache, budget);
                    one_thing_was_heard_after_another(
                        *judge,
                        0,
                        asked.budget.polls,
                        budget.polls,
                        goes_on,
                        best_move_is(
                            config.dfs,
                            game@,
                            ordered_directions@,
                            level,
                            at_alpha,
                            config.beta,
                            asked,
                            (found, now),
                        ),
                        deepening_stands_at(
                            config,
                            game@,
                            ordered_directions@,
                            first,
                            open,
                            depth as int,
                            alpha,
                            (best, searched_depth, now),
                        ),
                    );
                }
            }
        }
        let choice: Option<Choice> = match best {
            Some((direction, score)) => Some(
                (
                    direction,
                    score,
                    AbSearchStats::new(budget.stats(), searched_depth, score, board_eval),
                ),
            ),
            None => if ordered_directions.len() > 0 {
                Some(
                    (
                        ordered_directions[0],
                        board_eval,
                        AbSearchStats {
                            selected_score: board_eval,
                            board_eval,
                            searched_depth: 0,
                            ..AbSearchStats::default()
                        },
                    ),
                )
            } else {
                None
            },
        };
        proof {
            what_follows_was_heard(
                *judge,
                0,
                budget.polls,
                deepening_stands_at(
                    config,
                    game@,
                    ordered_directions@,
                    first,
                    open,
                    depth as int,
                    alpha,
                    (best, searched_depth, state_of(self.cache, budget)),
                ),
                limited_choice_is(
                    config,
                    game@,
                    ordered_directions@,
                    board_eval,
                    first.cache,
                    choice,
                    self.cache@,
                ),
            );
        }
        choice
    }

    /// Searches every move of a position to the full depth, one after the other.
    pub fn choose_with_fixed_depth<E, C, S>(
        &mut self,
        game: &Game,
        ordered_directions: &Vec<Direction>,
        board_eval: i64,
        judge: &Judge<E, C, S>,
    ) -> (choice: Option<Choice>) where
        E: Fn(&Game) -> i64,
        C: Fn(&Vec<WeightedValue>) -> i64,
        S: Fn(u64) -> bool,

        requires
            old(self).can_search(game@),
            judge.is_ready(),
        ensures
            final(self).is_sound(),
            final(self).config == old(self).config,
            final(self).last_stats == old(self).last_stats,
            choice matches Some((_, score, stats)) ==> stats.selected_score == score,
            choice is Some <==> ordered_directions@.len() > 0,
            choice matches Some((direction, _, _)) ==> ordered_directions@.contains(direction),
            choice matches Some((_, _, stats)) ==> stats.searched_depth == old(self).config.depth,
            forall|low: i64, high: i64|
                #[trigger] judge.scores_within(low, high) && are_legal(game@, ordered_directions@)
                    && low <= board_eval <= high && choice is Some ==> reports_within(
                    choice->Some_0.2,
                    low,
                    high,
                ),
            forall|v: Valuation| #[trigger]
                v.describes(*judge) && v.dfs == old(self).config.dfs ==> {
                    let (results, after) = v.root_results(
                        old(self).config,
                        game@,
                        ordered_directions@,
                        ordered_directions@.len() as int,
                        old(self).cache@,
                    );
                    is_selected(choice, results, old(self).config.depth, board_eval)
                        && final(self).cache@ == after
                },
            is_best_of_all(
                *judge,
                old(self).config,
                game@,
                ordered_directions@,
                board_eval,
                old(self).cache@,
                choice,
                final(self).cache@,
            ),
    {
        let ghost config = self.config;
        let ghost last_stats = self.last_stats;
        let ghost first = self.cache@;
        let mut results: Vec<RootResult> = Vec::new();
        let mut i: usize = 0;
        assert(results@ =~= Seq::empty());
        let ghost mut caches: Seq<Map<KeyModel, AbCacheEntry>> = seq![first];
        while i < ordered_directions.len()
            invariant
                i <= ordered_directions@.len(),
                results@.len() == i,
                are_root_searches(*judge, config, game@, ordered_directions@, results@, caches),
                caches.first() == first,
                caches.last() == self.cache@,
                forall|low: i64, high: i64, j: int|
                    #![trigger judge.scores_within(low, high), results@[j]]
                    judge.scores_within(low, high) && are_legal(game@, ordered_directions@) && 0
                        <= j < i ==> low <= results@[j].value <= high,
                self.is_sound(),
                self.config == config,
                self.last_stats == last_stats,
                judge.is_ready(),
                game@.is_sound(),
                game@.has_room_for(outcome_room(config.depth) + 1),
                forall|j: int|
                    0 <= j < i ==> (#[trigger] results@[j]).direction == ordered_directions@[j],
                forall|v: Valuation| #[trigger]
                    v.describes(*judge) && v.dfs == config.dfs ==> v.root_results(
                        config,
                        game@,
                        ordered_directions@,
                        i as int,
                        first,
                    ) == (results@, self.cache@),
            decreases ordered_directions@.len() - i,
        {
            let result = search_root_move(
                &mut self.cache,
                self.config,
                game,
                ordered_directions[i],
                judge,
            );
            proof {
                let earlier = caches;
                let shorter = results@;
                caches = caches.push(self.cache@);
                assert forall|j: int|
                    #![trigger shorter.push(result)[j]]
                    0 <= j <= shorter.len() implies shorter.push(result)[j].direction
                    == ordered_directions@[j] && is_true_of_a_search(
                    *judge,
                    root_search_gives(
                        config,
                        game@,
                        ordered_directions@[j],
                        caches[j],
                        shorter.push(result)[j],
                        caches[j + 1],
                    ),
                ) by {
                    if j < shorter.len() {
                        assert(shorter.push(result)[j] == shorter[j]);
                        assert(caches[j] == earlier[j] && caches[j + 1] == earlier[j + 1]);
                    } else {
                        assert(caches[j] == earlier.last());
                    }
                }
            }
            results.push(result);
            i = i + 1;
        }
        let choice: Option<Choice> = select_root_move(&results, self.config.depth, board_eval);
        assert(are_root_searches(*judge, config, game@, ordered_directions@, results@, caches));
        choice
    }

    /// The choice of the bot in a position, with its score and the report of the search.
    pub fn choose_with_score<E, C, S>(&mut self, game: &Game, judge: &Judge<E, C, S>) -> (choice:
        Option<Choice>) where
        E: Fn(&Game) -> i64,
        C: Fn(&Vec<WeightedValue>) -> i64,
        S: Fn(u64) -> bool,

        requires
            old(self).can_search(game@),
            judge.is_ready(),
        ensures
            final(self).is_sound(),
            final(self).config == old(self).config,
            final(self).last_stats == old(self).last_stats,
            choice matches Some((_, _, stats)) ==> (old(self).config.node_limit is Some
                ==> stats.predicted_states <= old(self).config.node_limit->Some_0),
            choice matches Some((_, _, stats)) ==> stats.searched_depth <= old(self).config.depth,
            choice matches Some((_, _, stats)) ==> (!old(self).config.is_limited()
                ==> stats.searched_depth == old(self).config.depth),
            forall|low: i64, high: i64|
                #[trigger] judge.scores_within(low, high) && choice is Some ==> reports_within(
                    choice->Some_0.2,
                    low,
                    high,
                ),
            choice matches Some((_, score, stats)) ==> stats.selected_score == score,
            choice is Some <==> !game@.is_over(),
            choice matches Some((direction, _, _)) ==> moves(game@.board, direction),
            forall|v: Valuation| #[trigger]
                v.describes(*judge) && v.dfs == old(self).config.dfs ==> v.is_choice(
                    old(self).config,
                    game@,
                    choice,
                    old(self).cache@,
                    final(self).cache@,
                ),
            is_choice_as_heard(
                *judge,
                old(self).config,
                game@,
                choice,
                old(self).cache@,
                final(self).cache@,
            ),
    {
        let (order, board_eval) = match self.plan_search(game, judge) {
            Some(plan) => plan,
            None => {
                return None;
            },
        };
        assert(is_plan(*judge, game@, order@, board_eval));
        if self.config.has_limits() {
            self.choose_with_limited_budget(game, &order, board_eval, judge)
        } else {
            self.choose_with_fixed_depth(game, &order, board_eval, judge)
        }
    }

    /// The legal moves, the most promising first, and the score of the position itself; none
    /// where there is no legal move.
    pub fn plan_search<E, C, S>(&self, game: &Game, judge: &Judge<E, C, S>) -> (plan: Option<
        (Vec<Direction>, i64),
    >) where
        E: Fn(&Game) -> i64,
        C: Fn(&Vec<WeightedValue>) -> i64,
        S: Fn(u64) -> bool,

        requires
            self.can_search(game@),
            judge.is_ready(),
        ensures
            plan is None <==> game@.is_over(),
            plan matches Some((order, _)) ==> order@.len() > 0 && are_legal(game@, order@),
            plan matches Some((_, board_eval)) ==> forall|low: i64, high: i64| #[trigger]
                judge.scores_within(low, high) ==> low <= board_eval <= high,
            plan matches Some((order, board_eval)) ==> forall|v: Valuation| #[trigger]
                v.scores_like(*judge) ==> order@ == v.candidates(
                    game@,
                    legal_moves(game@.board),
                ) && board_eval == (v.evaluate)(game@),
    {
        proof {
            lemma_less_room(
                game@,
                outcome_room(self.config.depth) + 1,
                EVALUATION_ROOM as int,
            );
            lemma_less_room(
                game@,
                outcome_room(self.config.depth) + 1,
                EVALUATION_ROOM + 1,
            );
            crate::game_laws::the_list_of_legal_moves_is_exact(game@.board);
            crate::game_laws::a_game_is_over_without_legal_moves(game@);
            legal_moves_are_playable(game@);
        }
        let legal: Vec<Direction> = game.legal_directions();
        if legal.len() == 0 {
            return None;
        }
        let order: Vec<Direction> = self.order_directions(game, &legal, judge);
        let evaluate = &judge.evaluate;
        let board_eval: i64 = evaluate(game);
        Some((order, board_eval))
    }

    /// Chooses a move and keeps the report of the search; none where there is no legal move.
    pub fn choose_move<E, C, S>(&mut self, game: &Game, judge: &Judge<E, C, S>) -> (choice: Option<
        Direction,
    >) where
        E: Fn(&Game) -> i64,
        C: Fn(&Vec<WeightedValue>) -> i64,
        S: Fn(u64) -> bool,

        requires
            old(self).can_search(game@),
            judge.is_ready(),
        ensures
            final(self).is_sound(),
            final(self).config == old(self).config,
            choice is Some <==> !game@.is_over(),
            choice matches Some(direction) ==> moves(game@.board, direction)
                && final(self).last_stats is Some,
            choice is None ==> final(self).last_stats == old(self).last_stats,
            choice is Some && old(self).config.node_limit is Some
                ==> final(self).last_stats->Some_0.predicted_states
                <= old(self).config.node_limit->Some_0,
            choice is Some ==> final(self).last_stats->Some_0.searched_depth
                <= old(self).config.depth,
            choice is Some && !old(self).config.is_limited()
                ==> final(self).last_stats->Some_0.searched_depth == old(self).config.depth,
            forall|low: i64, high: i64|
                #[trigger] judge.scores_within(low, high) && choice is Some ==> reports_within(
                    final(self).last_stats->Some_0,
                    low,
                    high,
                ),
            forall|v: Valuation| #[trigger]
                v.describes(*judge) && v.dfs == old(self).config.dfs ==> v.is_choice(
                    old(self).config,
                    game@,
                    choice_with(choice, final(self).last_stats),
                    old(self).cache@,
                    final(self).cache@,
                ),
            is_choice_as_heard(
                *judge,
                old(self).config,
                game@,
                choice_with(choice, final(self).last_stats),
                old(self).cache@,
                final(self).cache@,
            ),
    {
        let made: Option<Choice> = self.choose_with_score(game, judge);
        match made {
            Some((direction, _, stats)) => {
                self.last_stats = Some(stats);
                Some(direction)
            },
            None => None,
        }
    }

    /// The score of a position itself.
    pub fn board_eval<E, C, S>(&self, game: &Game, judge: &Judge<E, C, S>) -> (score: Option<
        i64,
    >) where
        E: Fn(&Game) -> i64,
        C: Fn(&Vec<WeightedValue>) -> i64,
        S: Fn(u64) -> bool,

        requires
            judge.is_ready(),
            game@.is_sound(),
            game@.has_room_for(EVALUATION_ROOM as int),
        ensures
            score is Some,
            forall|v: Valuation| #[trigger]
                v.scores_like(*judge) ==> score == Some((v.evaluate)(game@)),
    {
        let evaluate = &judge.evaluate;
        let score: i64 = evaluate(game);
        Some(score)
    }
}

proof fn lemma_filter_keeps_all(directions: Seq<Direction>, keep: spec_fn(Direction) -> bool)
    requires
        forall|i: int| 0 <= i < directions.len() ==> keep(#[trigger] directions[i]),
    ensures
        directions.filter(keep) == directions,
    decreases directions.len(),
{
    reveal(Seq::filter);
    if directions.len() > 0 {
        let shorter = directions.drop_last();
        assert forall|i: int| 0 <= i < shorter.len() implies keep(#[trigger] shorter[i]) by {
            assert(shorter[i] == directions[i]);
        }
        lemma_filter_keeps_all(shorter, keep);
        assert(keep(directions[directions.len() - 1]));
        assert(shorter.push(directions.last()) =~= directions);
    }
}

/// Every move in the list of legal moves can be made.
pub proof fn legal_moves_are_playable(game: GameModel)
    ensures
        playable_of(game, legal_moves(game.board)) == legal_moves(game.board),
{
    let legal = legal_moves(game.board);
    crate::game_laws::the_list_of_legal_moves_is_exact(game.board);
    assert forall|i: int| 0 <= i < legal.len() implies moves(game.board, #[trigger] legal[i]) by {
        assert(legal.contains(legal[i]));
    }
    lemma_filter_keeps_all(legal, |direction: Direction| moves(game.board, direction));
}

spec fn best_move_stands_at(
    dfs: bool,
    game: GameModel,
    order: Seq<Direction>,
    depth: u8,
    window: (i64, i64),
    first: SearchState,
    now: (int, i64, Option<(Direction, i64)>, SearchState),
) -> spec_fn(Valuation) -> bool {
    |v: Valuation|
        v.dfs == dfs ==> v.best_move(game, order, 0, depth, window.0, window.1, None, first)
            == v.best_move(game, order, now.0, depth, now.1, window.1, now.2, now.3)
}

spec fn deepening_stands_at(
    config: AbConfig,
    game: GameModel,
    order: Seq<Direction>,
    first: SearchState,
    open: bool,
    depth: int,
    alpha: i64,
    now: (Option<(Direction, i64)>, u8, SearchState),
) -> spec_fn(Valuation) -> bool {
    |v: Valuation|
        v.dfs == config.dfs ==> v.deepened(
            config,
            game,
            order,
            1,
            config.alpha,
            None,
            0,
            first,
        ) == (if open {
            v.deepened(config, game, order, depth, alpha, now.0, now.1, now.2)
        } else {
            now
        })
}

spec fn paired(direction: Option<Direction>, score: i64) -> Option<(Direction, i64)> {
    match direction {
        Some(direction) => Some((direction, score)),
        None => None,
    }
}

fn pair(direction: Option<Direction>, score: i64) -> (pair: Option<(Direction, i64)>)
    ensures
        pair == paired(direction, score),
{
    match direction {
        Some(direction) => Some((direction, score)),
        None => None,
    }
}

} // verus!

//! What holds of the search and of the bots.

use crate::board::{legal_moves, moves, Direction};
use crate::bot::{
    config_fault, is_first_best, is_selected, joined_counts, legal_moves_are_playable,
    numbers_below, reported_stats, unsearched_choice, AbConfig, AbConfigError, Choice, RandomBot,
    RootResult,
};
use crate::budget::{SearchBudget, SearchStats};
use crate::cache::{key_of, looked_up, AbCacheBound, AbCacheEntry, KeyModel};
use crate::game::{GameModel, OutcomeModel};
use crate::ranking::{ranking, the_ranking_is_a_stable_order};
use crate::search::{higher, lower, weighted, SearchState, Valuation, WeightedValue, LOWEST_SCORE};
use vstd::prelude::*;

verus! {

// ---------------------------------------------------------------------------------------------
// Order
// ---------------------------------------------------------------------------------------------

/// A search tries every legal move once, and the more promising one of two first.
pub proof fn every_legal_move_is_tried_the_more_promising_first(v: Valuation, game: GameModel)
    ensures
        v.candidates(game, legal_moves(game.board)).len() == legal_moves(game.board).len(),
        forall|direction: Direction|
            v.candidates(game, legal_moves(game.board)).contains(direction) <==> moves(
                game.board,
                direction,
            ),
        forall|i: int, j: int|
            0 <= i < j < v.candidates(game, legal_moves(game.board)).len() ==> v.quick_value(
                game.outcomes(#[trigger] v.candidates(game, legal_moves(game.board))[i]),
            ) >= v.quick_value(
                game.outcomes(#[trigger] v.candidates(game, legal_moves(game.board))[j]),
            ),
{
    let legal = legal_moves(game.board);
    legal_moves_are_playable(game);
    crate::game_laws::the_list_of_legal_moves_is_exact(game.board);
    let scores = v.quick_values(game, legal);
    let order = ranking(scores);
    let candidates = v.candidates(game, legal);
    the_ranking_is_a_stable_order(scores);
    assert forall|direction: Direction|
        candidates.contains(direction) <==> moves(game.board, direction) by {
        if candidates.contains(direction) {
            let i = choose|i: int| 0 <= i < candidates.len() && candidates[i] == direction;
            assert(order[i] < legal.len());
            assert(legal.contains(legal[order[i] as int]));
        }
        if moves(game.board, direction) {
            assert(legal.contains(direction));
            let j = choose|j: int| 0 <= j < legal.len() && legal[j] == direction;
            assert(order.contains(j as usize));
            let i = choose|i: int| 0 <= i < order.len() && order[i] == j as usize;
            assert(candidates[i] == direction);
        }
    }
    assert forall|i: int, j: int| 0 <= i < j < candidates.len() implies v.quick_value(
        game.outcomes(#[trigger] candidates[i]),
    ) >= v.quick_value(game.outcomes(#[trigger] candidates[j])) by {
        assert(scores[order[i] as int] >= scores[order[j] as int]);
    }
}

// ---------------------------------------------------------------------------------------------
// Repetition
// ---------------------------------------------------------------------------------------------

/// Whether a search is never told to stop.
pub open spec fn never_stops(v: Valuation) -> bool {
    forall|poll: u64| !#[trigger] (v.stop)(poll)
}

spec fn counts_up(before: SearchState, after: SearchState) -> bool {
    &&& after.budget.node_limit == before.budget.node_limit
    &&& before.budget.nodes <= after.budget.nodes
}

proof fn lemma_searched_counts_up(
    v: Valuation,
    game: GameModel,
    depth: u8,
    alpha: i64,
    beta: i64,
    state: SearchState,
)
    ensures
        counts_up(state, v.searched(game, depth, alpha, beta, state).1),
        state.budget.allows(v.stop) ==> v.searched(
            game,
            depth,
            alpha,
            beta,
            state,
        ).1.budget.nodes > 0,
    decreases depth, 3int, 0int,
{
    let key = key_of(game, depth, v.dfs);
    match looked_up(state.cache, key) {
        None => {
            lemma_expanded_counts_up(v, game, depth, alpha, alpha, beta, state.entered(key));
        },
        Some(entry) => {
            let low = if entry.bound is Lower {
                higher(alpha, entry.value)
            } else {
                alpha
            };
            let high = if entry.bound is Upper {
                lower(beta, entry.value)
            } else {
                beta
            };
            lemma_expanded_counts_up(v, game, depth, alpha, low, high, state.entered(key));
        },
    }
}

proof fn lemma_expanded_counts_up(
    v: Valuation,
    game: GameModel,
    depth: u8,
    first_alpha: i64,
    alpha: i64,
    beta: i64,
    state: SearchState,
)
    ensures
        counts_up(state, v.expanded(game, depth, first_alpha, alpha, beta, state).1),
    decreases depth, 2int, 0int,
{
    if depth > 0 && !game.is_over() {
        let order = v.candidates(game, legal_moves(game.board));
        lemma_tried_counts_up(v, game, order, 0, depth, LOWEST_SCORE, alpha, beta, state);
    }
}

proof fn lemma_tried_counts_up(
    v: Valuation,
    game: GameModel,
    order: Seq<Direction>,
    i: int,
    depth: u8,
    best: i64,
    alpha: i64,
    beta: i64,
    state: SearchState,
)
    ensures
        counts_up(state, v.tried(game, order, i, depth, best, alpha, beta, state).state),
    decreases depth, 1int, order.len() - i,
{
    if i < order.len() {
        let outcomes = game.outcomes(order[i]);
        lemma_weighed_counts_up(v, outcomes, depth, alpha, beta, Seq::empty(), state.polled());
        let (value, after) = v.weighed(outcomes, depth, alpha, beta, Seq::empty(), state.polled());
        let new_best = higher(best, value);
        let new_alpha = higher(alpha, new_best);
        if new_alpha < beta {
            lemma_tried_counts_up(
                v,
                game,
                order,
                i + 1,
                depth,
                new_best,
                new_alpha,
                beta,
                after,
            );
        }
    }
}

proof fn lemma_weighed_counts_up(
    v: Valuation,
    outcomes: Seq<OutcomeModel>,
    depth: u8,
    alpha: i64,
    beta: i64,
    done: Seq<WeightedValue>,
    state: SearchState,
)
    ensures
        counts_up(state, v.weighed(outcomes, depth, alpha, beta, done, state).1),
    decreases depth, 0int, outcomes.len() - done.len(),
{
    if done.len() < outcomes.len() {
        let outcome = outcomes[done.len() as int];
        let (value, after) = if depth <= 1 || outcome.state.is_over() {
            ((v.evaluate)(outcome.state), state.polled())
        } else {
            lemma_searched_counts_up(
                v,
                outcome.state,
                (depth - 1) as u8,
                alpha,
                beta,
                state.polled(),
            );
            v.searched(outcome.state, (depth - 1) as u8, alpha, beta, state.polled())
        };
        lemma_weighed_counts_up(
            v,
            outcomes,
            depth,
            alpha,
            beta,
            done.push(weighted(outcome, value)),
            after,
        );
    }
}

proof fn lemma_tried_to_the_end(
    v: Valuation,
    game: GameModel,
    order: Seq<Direction>,
    i: int,
    depth: u8,
    best: i64,
    alpha: i64,
    beta: i64,
    state: SearchState,
)
    requires
        never_stops(v),
        state.budget.node_limit is None,
    ensures
        !v.tried(game, order, i, depth, best, alpha, beta, state).stopped,
        v.tried(game, order, i, depth, best, alpha, beta, state).cut_off ==> v.tried(
            game,
            order,
            i,
            depth,
            best,
            alpha,
            beta,
            state,
        ).best >= beta || alpha >= beta,
    decreases order.len() - i,
{
    if i < order.len() {
        assert(!(v.stop)(state.budget.polls));
        let outcomes = game.outcomes(order[i]);
        lemma_weighed_counts_up(v, outcomes, depth, alpha, beta, Seq::empty(), state.polled());
        let (value, after) = v.weighed(outcomes, depth, alpha, beta, Seq::empty(), state.polled());
        let new_best = higher(best, value);
        let new_alpha = higher(alpha, new_best);
        if new_alpha < beta {
            lemma_tried_to_the_end(
                v,
                game,
                order,
                i + 1,
                depth,
                new_best,
                new_alpha,
                beta,
                after,
            );
        }
    }
}

/// A position that was searched without limits in the full window is in the cache afterwards. If
/// it is searched so again, with this cache, then it has the same score, and the cache stays as
/// it is.
pub proof fn a_repeated_search_gives_the_same_score(
    v: Valuation,
    game: GameModel,
    depth: u8,
    state: SearchState,
    budget: SearchBudget,
)
    requires
        never_stops(v),
        state.budget.node_limit is None,
        budget.node_limit is None,
        !state.cache.contains_key(key_of(game, depth, v.dfs)),
    ensures
        ({
            let (first, after) = v.searched(game, depth, i64::MIN, i64::MAX, state);
            let again = SearchState { cache: after.cache, budget };
            let (second, last) = v.searched(game, depth, i64::MIN, i64::MAX, again);
            &&& after.cache.contains_key(key_of(game, depth, v.dfs))
            &&& second == first
            &&& last.cache == after.cache
        }),
{
    let key = key_of(game, depth, v.dfs);
    assert(!(v.stop)(state.budget.polls));
    assert(!(v.stop)(budget.polls));
    let entered = state.entered(key);
    if depth > 0 && !game.is_over() {
        let order = v.candidates(game, legal_moves(game.board));
        lemma_tried_to_the_end(
            v,
            game,
            order,
            0,
            depth,
            LOWEST_SCORE,
            i64::MIN,
            i64::MAX,
            entered,
        );
    }
}

// ---------------------------------------------------------------------------------------------
// The open window
// ---------------------------------------------------------------------------------------------

/// Whether no score is the highest possible one.
pub open spec fn stays_below_the_top(v: Valuation) -> bool {
    &&& forall|game: GameModel| #[trigger] (v.evaluate)(game) < i64::MAX
    &&& forall|values: Seq<WeightedValue>| #[trigger] (v.expect)(values) < i64::MAX
}

/// Whether every entry of a cache is exact, and none has the highest possible score.
pub open spec fn is_all_exact(cache: Map<KeyModel, AbCacheEntry>) -> bool {
    forall|key: KeyModel| #[trigger]
        cache.contains_key(key) ==> cache[key].bound is Exact && cache[key].value < i64::MAX
}

proof fn lemma_stays_all_exact(state: SearchState, key: KeyModel, value: i64)
    requires
        is_all_exact(state.cache),
        value < i64::MAX,
    ensures
        is_all_exact(state.remembering(key, value, AbCacheBound::Exact).cache),
{
}

proof fn lemma_open_search(
    v: Valuation,
    game: GameModel,
    depth: u8,
    alpha: i64,
    other: i64,
    state: SearchState,
)
    requires
        stays_below_the_top(v),
        is_all_exact(state.cache),
        alpha < i64::MAX,
        other < i64::MAX,
    ensures
        v.searched(game, depth, alpha, i64::MAX, state) == v.searched(
            game,
            depth,
            other,
            i64::MAX,
            state,
        ),
        is_all_exact(v.searched(game, depth, alpha, i64::MAX, state).1.cache),
        v.searched(game, depth, alpha, i64::MAX, state).1.budget.pruned_states
            == state.budget.pruned_states,
        v.searched(game, depth, alpha, i64::MAX, state).0 < i64::MAX,
    decreases depth, 3int, 0int,
{
    let key = key_of(game, depth, v.dfs);
    if state.budget.allows(v.stop) && looked_up(state.cache, key) is None {
        let entered = state.entered(key);
        if depth > 0 && !game.is_over() {
            let order = v.candidates(game, legal_moves(game.board));
            lemma_open_trial(v, game, order, 0, depth, LOWEST_SCORE, alpha, other, entered);
            let trial = v.tried(
                game,
                order,
                0,
                depth,
                LOWEST_SCORE,
                alpha,
                i64::MAX,
                entered,
            );
            lemma_stays_all_exact(trial.state, key, trial.best);
        } else {
            lemma_stays_all_exact(entered, key, (v.evaluate)(game));
        }
    }
}

proof fn lemma_open_trial(
    v: Valuation,
    game: GameModel,
    order: Seq<Direction>,
    i: int,
    depth: u8,
    best: i64,
    alpha: i64,
    other: i64,
    state: SearchState,
)
    requires
        stays_below_the_top(v),
        is_all_exact(state.cache),
        best < i64::MAX,
        alpha < i64::MAX,
        other < i64::MAX,
    ensures
        v.tried(game, order, i, depth, best, alpha, i64::MAX, state) == v.tried(
            game,
            order,
            i,
            depth,
            best,
            other,
            i64::MAX,
            state,
        ),
        ({
            let trial = v.tried(game, order, i, depth, best, alpha, i64::MAX, state);
            &&& !trial.cut_off
            &&& trial.best < i64::MAX
            &&& is_all_exact(trial.state.cache)
            &&& trial.state.budget.pruned_states == state.budget.pruned_states
        }),
    decreases depth, 1int, order.len() - i,
{
    if i < order.len() && state.budget.allows(v.stop) {
        let outcomes = game.outcomes(order[i]);
        lemma_open_outcomes(v, outcomes, depth, alpha, other, Seq::empty(), state.polled());
        let (value, after) = v.weighed(
            outcomes,
            depth,
            alpha,
            i64::MAX,
            Seq::empty(),
            state.polled(),
        );
        let new_best = higher(best, value);
        lemma_open_trial(
            v,
            game,
            order,
            i + 1,
            depth,
            new_best,
            higher(alpha, new_best),
            higher(other, new_best),
            after,
        );
    }
}

proof fn lemma_open_outcomes(
    v: Valuation,
    outcomes: Seq<OutcomeModel>,
    depth: u8,
    alpha: i64,
    other: i64,
    done: Seq<WeightedValue>,
    state: SearchState,
)
    requires
        stays_below_the_top(v),
        is_all_exact(state.cache),
        alpha < i64::MAX,
        other < i64::MAX,
    ensures
        v.weighed(outcomes, depth, alpha, i64::MAX, done, state) == v.weighed(
            outcomes,
            depth,
            other,
            i64::MAX,
            done,
            state,
        ),
        ({
            let (value, after) = v.weighed(outcomes, depth, alpha, i64::MAX, done, state);
            &&& value < i64::MAX
            &&& is_all_exact(after.cache)
            &&& after.budget.pruned_states == state.budget.pruned_states
        }),
    decreases depth, 0int, outcomes.len() - done.len(),
{
    if done.len() < outcomes.len() && state.budget.allows(v.stop) {
        let outcome = outcomes[done.len() as int];
        let (value, after) = if depth <= 1 || outcome.state.is_over() {
            ((v.evaluate)(outcome.state), state.polled())
        } else {
            lemma_open_search(
                v,
                outcome.state,
                (depth - 1) as u8,
                alpha,
                other,
                state.polled(),
            );
            v.searched(outcome.state, (depth - 1) as u8, alpha, i64::MAX, state.polled())
        };
        lemma_open_outcomes(
            v,
            outcomes,
            depth,
            alpha,
            other,
            done.push(weighted(outcome, value)),
            after,
        );
    }
}

/// Without an upper bound a search cuts nothing off, whatever the lower bound is: it counts no
/// cut, every value that it stores is exact, and the lower bound makes no difference.
pub proof fn an_open_window_cuts_nothing_off(
    v: Valuation,
    game: GameModel,
    depth: u8,
    alpha: i64,
    other: i64,
    state: SearchState,
)
    requires
        stays_below_the_top(v),
        is_all_exact(state.cache),
        alpha < i64::MAX,
        other < i64::MAX,
    ensures
        ({
            let (score, after) = v.searched(game, depth, alpha, i64::MAX, state);
            &&& after.budget.pruned_states == state.budget.pruned_states
            &&& is_all_exact(after.cache)
            &&& v.searched(game, depth, other, i64::MAX, state) == (score, after)
        }),
{
    lemma_open_search(v, game, depth, alpha, other, state);
}

/// The state in which a search comes to one of the moves of a position, where nothing is cut off:
/// after all the moves before it were searched, each in the state that the one before it left.
pub open spec fn state_before_move(
    v: Valuation,
    game: GameModel,
    order: Seq<Direction>,
    i: int,
    depth: u8,
    first: SearchState,
) -> SearchState
    decreases i,
{
    if i <= 0 {
        first.polled()
    } else {
        v.weighed(
            game.outcomes(order[i - 1]),
            depth,
            i64::MIN,
            i64::MAX,
            Seq::empty(),
            state_before_move(v, game, order, i - 1, depth, first),
        ).1.polled()
    }
}

/// The score that is found for one of the moves of a position, where nothing is cut off.
pub open spec fn score_in_turn(
    v: Valuation,
    game: GameModel,
    order: Seq<Direction>,
    i: int,
    depth: u8,
    first: SearchState,
) -> i64 {
    v.weighed(
        game.outcomes(order[i]),
        depth,
        i64::MIN,
        i64::MAX,
        Seq::empty(),
        state_before_move(v, game, order, i, depth, first),
    ).0
}

proof fn lemma_best_in_turn(
    v: Valuation,
    game: GameModel,
    order: Seq<Direction>,
    i: int,
    depth: u8,
    best: i64,
    alpha: i64,
    state: SearchState,
    first: SearchState,
)
    requires
        never_stops(v),
        stays_below_the_top(v),
        is_all_exact(state.cache),
        state.budget.node_limit is None,
        best < i64::MAX,
        alpha < i64::MAX,
        0 <= i <= order.len(),
        state.polled() == state_before_move(v, game, order, i, depth, first),
    ensures
        ({
            let trial = v.tried(game, order, i, depth, best, alpha, i64::MAX, state);
            &&& !trial.stopped && !trial.cut_off
            &&& trial.best >= best
            &&& forall|k: int|
                i <= k < order.len() ==> #[trigger] score_in_turn(v, game, order, k, depth, first)
                    <= trial.best
            &&& trial.best == best || exists|k: int|
                i <= k < order.len() && #[trigger] score_in_turn(v, game, order, k, depth, first)
                    == trial.best
        }),
    decreases order.len() - i,
{
    if i < order.len() {
        assert(!(v.stop)(state.budget.polls));
        let outcomes = game.outcomes(order[i]);
        lemma_open_outcomes(v, outcomes, depth, alpha, i64::MIN, Seq::empty(), state.polled());
        lemma_weighed_counts_up(v, outcomes, depth, alpha, i64::MAX, Seq::empty(), state.polled());
        let (value, after) = v.weighed(
            outcomes,
            depth,
            alpha,
            i64::MAX,
            Seq::empty(),
            state.polled(),
        );
        assert(score_in_turn(v, game, order, i, depth, first) == value);
        let so_far = higher(best, value);
        assert(after.polled() == state_before_move(v, game, order, i + 1, depth, first));
        lemma_best_in_turn(
            v,
            game,
            order,
            i + 1,
            depth,
            so_far,
            higher(alpha, so_far),
            after,
            first,
        );
    }
}

/// The score of a position that is searched without limits and without an upper bound is the best
/// of the scores that are found for its legal moves one after the other: none of them is higher,
/// and one of them is just as high. It is what the cache then holds of the position.
pub proof fn a_score_is_the_best_of_the_scores_of_the_moves(
    v: Valuation,
    game: GameModel,
    depth: u8,
    state: SearchState,
)
    requires
        never_stops(v),
        stays_below_the_top(v),
        is_all_exact(state.cache),
        !state.cache.contains_key(key_of(game, depth, v.dfs)),
        state.budget.node_limit is None,
        depth > 0,
        !game.is_over(),
    ensures
        ({
            let (score, after) = v.searched(game, depth, i64::MIN, i64::MAX, state);
            let order = v.candidates(game, legal_moves(game.board));
            let first = state.entered(key_of(game, depth, v.dfs));
            &&& forall|k: int|
                0 <= k < order.len() ==> #[trigger] score_in_turn(v, game, order, k, depth, first)
                    <= score
            &&& exists|k: int|
                0 <= k < order.len() && #[trigger] score_in_turn(v, game, order, k, depth, first)
                    == score
            &&& looked_up(after.cache, key_of(game, depth, v.dfs)) == Some(
                AbCacheEntry { value: score, bound: AbCacheBound::Exact },
            )
        }),
{
    let key = key_of(game, depth, v.dfs);
    let first = state.entered(key);
    let order = v.candidates(game, legal_moves(game.board));
    assert(!(v.stop)(state.budget.polls));
    every_legal_move_is_tried_the_more_promising_first(v, game);
    crate::game_laws::a_game_is_over_without_legal_moves(game);
    assert(order.len() > 0);
    lemma_best_in_turn(v, game, order, 0, depth, LOWEST_SCORE, i64::MIN, first, first);
    assert(score_in_turn(v, game, order, 0, depth, first) >= LOWEST_SCORE);
}

// ---------------------------------------------------------------------------------------------
// Determinism
// ---------------------------------------------------------------------------------------------

proof fn lemma_one_first_best(results: Seq<RootResult>, i: int, j: int)
    requires
        is_first_best(results, i),
        is_first_best(results, j),
    ensures
        i == j,
{
    assert(results[i].value <= results[j].value);
    assert(results[j].value <= results[i].value);
}

proof fn lemma_one_selection(
    results: Seq<RootResult>,
    depth: u8,
    board_eval: i64,
    one: Option<Choice>,
    other: Option<Choice>,
)
    requires
        is_selected(one, results, depth, board_eval),
        is_selected(other, results, depth, board_eval),
    ensures
        one == other,
{
    if one is Some {
        let i = choose|i: int|
            #![trigger results[i]]
            is_first_best(results, i) && one->Some_0.0 == results[i].direction && one->Some_0.1
                == results[i].value;
        let j = choose|j: int|
            #![trigger results[j]]
            is_first_best(results, j) && other->Some_0.0 == results[j].direction && other->Some_0.1
                == results[j].value;
        lemma_one_first_best(results, i, j);
    }
}

/// A searching bot is deterministic: its settings, the answers of its judge, the position and
/// what it remembers fix the move that it chooses, the report, and what it remembers afterwards.
pub proof fn a_position_and_a_cache_fix_the_choice(
    v: Valuation,
    config: AbConfig,
    game: GameModel,
    before: Map<KeyModel, AbCacheEntry>,
    one: Option<Choice>,
    after_one: Map<KeyModel, AbCacheEntry>,
    other: Option<Choice>,
    after_other: Map<KeyModel, AbCacheEntry>,
)
    requires
        v.is_choice(config, game, one, before, after_one),
        v.is_choice(config, game, other, before, after_other),
    ensures
        one == other,
        after_one == after_other,
{
    if !game.is_over() && !config.is_limited() {
        let order = v.candidates(game, legal_moves(game.board));
        let (results, last) = v.root_results(config, game, order, order.len() as int, before);
        lemma_one_selection(results, config.depth, (v.evaluate)(game), one, other);
    }
}

// ---------------------------------------------------------------------------------------------
// Visited positions
// ---------------------------------------------------------------------------------------------

/// Whether a move has an outcome after which the game goes on.
pub open spec fn goes_on(game: GameModel, direction: Direction) -> bool {
    exists|j: int|
        0 <= j < game.outcomes(direction).len() && !(#[trigger] game.outcomes(
            direction,
        )[j]).state.is_over()
}

proof fn lemma_weighed_visits(
    v: Valuation,
    outcomes: Seq<OutcomeModel>,
    depth: u8,
    alpha: i64,
    beta: i64,
    done: Seq<WeightedValue>,
    state: SearchState,
    j: int,
)
    requires
        never_stops(v),
        state.budget.node_limit != Some(0u64),
        depth > 1,
        done.len() <= j < outcomes.len(),
        !outcomes[j].state.is_over(),
    ensures
        v.weighed(outcomes, depth, alpha, beta, done, state).1.budget.nodes > 0,
    decreases outcomes.len() - done.len(),
{
    assert(!(v.stop)(state.budget.polls));
    if !state.budget.is_used_up() {
        let outcome = outcomes[done.len() as int];
        if outcome.state.is_over() {
            let value = (v.evaluate)(outcome.state);
            lemma_weighed_visits(
                v,
                outcomes,
                depth,
                alpha,
                beta,
                done.push(weighted(outcome, value)),
                state.polled(),
                j,
            );
        } else {
            let next = (depth - 1) as u8;
            let (value, after) = v.searched(outcome.state, next, alpha, beta, state.polled());
            assert(!(v.stop)(state.polled().budget.polls));
            lemma_searched_counts_up(v, outcome.state, next, alpha, beta, state.polled());
            lemma_weighed_counts_up(
                v,
                outcomes,
                depth,
                alpha,
                beta,
                done.push(weighted(outcome, value)),
                after,
            );
        }
    }
}

proof fn lemma_move_visits(
    v: Valuation,
    game: GameModel,
    direction: Direction,
    depth: u8,
    alpha: i64,
    beta: i64,
    state: SearchState,
)
    requires
        never_stops(v),
        state.budget.node_limit != Some(0u64),
        depth > 1,
        goes_on(game, direction),
    ensures
        v.move_value(game, direction, depth, alpha, beta, state).1.budget.nodes > 0,
{
    let outcomes = game.outcomes(direction);
    let j = choose|j: int|
        0 <= j < outcomes.len() && !(#[trigger] outcomes[j]).state.is_over();
    lemma_weighed_visits(v, outcomes, depth, alpha, beta, Seq::empty(), state, j);
}

proof fn lemma_move_counts_up(
    v: Valuation,
    game: GameModel,
    direction: Direction,
    depth: u8,
    alpha: i64,
    beta: i64,
    state: SearchState,
)
    ensures
        counts_up(state, v.move_value(game, direction, depth, alpha, beta, state).1),
{
    lemma_weighed_counts_up(
        v,
        game.outcomes(direction),
        depth,
        alpha,
        beta,
        Seq::empty(),
        state,
    );
}

proof fn lemma_weighed_below_the_top(
    v: Valuation,
    outcomes: Seq<OutcomeModel>,
    depth: u8,
    alpha: i64,
    beta: i64,
    done: Seq<WeightedValue>,
    state: SearchState,
)
    requires
        stays_below_the_top(v),
    ensures
        v.weighed(outcomes, depth, alpha, beta, done, state).0 < i64::MAX,
    decreases outcomes.len() - done.len(),
{
    if done.len() < outcomes.len() {
        let outcome = outcomes[done.len() as int];
        let (value, after) = if depth <= 1 || outcome.state.is_over() {
            ((v.evaluate)(outcome.state), state.polled())
        } else {
            v.searched(outcome.state, (depth - 1) as u8, alpha, beta, state.polled())
        };
        lemma_weighed_below_the_top(
            v,
            outcomes,
            depth,
            alpha,
            beta,
            done.push(weighted(outcome, value)),
            after,
        );
    }
}

proof fn lemma_best_move_counts_up(
    v: Valuation,
    game: GameModel,
    order: Seq<Direction>,
    i: int,
    depth: u8,
    alpha: i64,
    beta: i64,
    best: Option<(Direction, i64)>,
    state: SearchState,
)
    ensures
        counts_up(state, v.best_move(game, order, i, depth, alpha, beta, best, state).1),
        best is Some || (i < order.len() && state.budget.allows(v.stop)) ==> v.best_move(
            game,
            order,
            i,
            depth,
            alpha,
            beta,
            best,
            state,
        ).0 is Some,
    decreases order.len() - i,
{
    if i < order.len() {
        lemma_move_counts_up(v, game, order[i], depth, alpha, beta, state.polled());
        let (value, after) = v.move_value(game, order[i], depth, alpha, beta, state.polled());
        let new_best = if best is None || value > best->Some_0.1 {
            Some((order[i], value))
        } else {
            best
        };
        let new_alpha = higher(alpha, new_best->Some_0.1);
        lemma_best_move_counts_up(
            v,
            game,
            order,
            i + 1,
            depth,
            new_alpha,
            beta,
            new_best,
            after,
        );
    }
}

proof fn lemma_open_best_move(
    v: Valuation,
    game: GameModel,
    order: Seq<Direction>,
    i: int,
    depth: u8,
    alpha: i64,
    best: Option<(Direction, i64)>,
    state: SearchState,
    k: int,
)
    requires
        never_stops(v),
        stays_below_the_top(v),
        state.budget.node_limit != Some(0u64),
        alpha < i64::MAX,
        best is Some ==> best->Some_0.1 < i64::MAX,
        0 <= k < order.len(),
        goes_on(game, order[k]),
    ensures
        ({
            let (found, after) = v.best_move(
                game,
                order,
                i,
                depth,
                alpha,
                i64::MAX,
                best,
                state,
            );
            &&& found is Some ==> found->Some_0.1 < i64::MAX
            &&& depth > 1 && 0 <= i <= k ==> after.budget.nodes > 0
        }),
    decreases order.len() - i,
{
    if i < order.len() {
        assert(!(v.stop)(state.budget.polls));
        let outcomes = game.outcomes(order[i]);
        lemma_weighed_below_the_top(
            v,
            outcomes,
            depth,
            alpha,
            i64::MAX,
            Seq::empty(),
            state.polled(),
        );
        lemma_move_counts_up(v, game, order[i], depth, alpha, i64::MAX, state.polled());
        let (value, after) = v.move_value(game, order[i], depth, alpha, i64::MAX, state.polled());
        let new_best = if best is None || value > best->Some_0.1 {
            Some((order[i], value))
        } else {
            best
        };
        let new_alpha = higher(alpha, new_best->Some_0.1);
        lemma_open_best_move(
            v,
            game,
            order,
            i + 1,
            depth,
            new_alpha,
            new_best,
            after,
            k,
        );
        if depth > 1 && i == k {
            lemma_move_visits(v, game, order[i], depth, alpha, i64::MAX, state.polled());
            lemma_best_move_counts_up(
                v,
                game,
                order,
                i + 1,
                depth,
                new_alpha,
                i64::MAX,
                new_best,
                after,
            );
        }
    }
}

proof fn lemma_deepened_counts_up(
    v: Valuation,
    config: AbConfig,
    game: GameModel,
    order: Seq<Direction>,
    depth: int,
    alpha: i64,
    best: Option<(Direction, i64)>,
    searched_depth: u8,
    state: SearchState,
)
    requires
        depth >= 1,
    ensures
        ({
            let (found, reached, after) = v.deepened(
                config,
                game,
                order,
                depth,
                alpha,
                best,
                searched_depth,
                state,
            );
            &&& counts_up(state, after)
            &&& best is Some ==> found is Some
            &&& searched_depth >= 1 ==> reached >= 1
        }),
    decreases config.depth + 1 - depth,
{
    if depth <= config.depth {
        let level = depth as u8;
        lemma_best_move_counts_up(
            v,
            game,
            order,
            0,
            level,
            alpha,
            config.beta,
            None,
            state.polled(),
        );
        let (found, after) = v.best_move(
            game,
            order,
            0,
            level,
            alpha,
            config.beta,
            None,
            state.polled(),
        );
        if found is Some {
            let new_alpha = higher(alpha, found->Some_0.1);
            lemma_deepened_counts_up(
                v,
                config,
                game,
                order,
                depth + 1,
                new_alpha,
                found,
                level,
                after,
            );
        } else {
            lemma_deepened_counts_up(
                v,
                config,
                game,
                order,
                depth + 1,
                alpha,
                best,
                searched_depth,
                after,
            );
        }
    }
}

proof fn lemma_deepened_visits(
    v: Valuation,
    config: AbConfig,
    game: GameModel,
    order: Seq<Direction>,
    depth: int,
    alpha: i64,
    best: Option<(Direction, i64)>,
    searched_depth: u8,
    state: SearchState,
    k: int,
)
    requires
        never_stops(v),
        stays_below_the_top(v),
        state.budget.node_limit != Some(0u64),
        alpha < i64::MAX,
        config.beta == i64::MAX,
        0 <= k < order.len(),
        goes_on(game, order[k]),
        2 <= depth <= config.depth,
    ensures
        v.deepened(
            config,
            game,
            order,
            depth,
            alpha,
            best,
            searched_depth,
            state,
        ).2.budget.nodes > 0,
{
    assert(!(v.stop)(state.budget.polls));
    if !state.budget.is_used_up() {
        let level = depth as u8;
        lemma_open_best_move(v, game, order, 0, level, alpha, None, state.polled(), k);
        let (found, after) = v.best_move(
            game,
            order,
            0,
            level,
            alpha,
            i64::MAX,
            None,
            state.polled(),
        );
        if found is Some {
            lemma_deepened_counts_up(
                v,
                config,
                game,
                order,
                depth + 1,
                higher(alpha, found->Some_0.1),
                found,
                level,
                after,
            );
        } else {
            lemma_deepened_counts_up(
                v,
                config,
                game,
                order,
                depth + 1,
                alpha,
                best,
                searched_depth,
                after,
            );
        }
    }
}

proof fn lemma_limited_choice_visits(
    v: Valuation,
    config: AbConfig,
    game: GameModel,
    order: Seq<Direction>,
    board_eval: i64,
    cache: Map<KeyModel, AbCacheEntry>,
    k: int,
)
    requires
        never_stops(v),
        stays_below_the_top(v),
        config.node_limit != Some(0u64),
        config.alpha < i64::MAX,
        config.beta == i64::MAX,
        config.depth > 1,
        0 <= k < order.len(),
        goes_on(game, order[k]),
    ensures
        v.limited_choice(config, game, order, board_eval, cache).0 matches Some((_, _, stats))
            && stats.predicted_states > 0 && stats.searched_depth >= 1,
{
    let start = SearchState { cache, budget: SearchBudget::fresh(config.node_limit) };
    assert(!(v.stop)(start.budget.polls));
    assert(!(v.stop)(start.polled().budget.polls));
    lemma_open_best_move(v, game, order, 0, 1, config.alpha, None, start.polled(), k);
    lemma_best_move_counts_up(
        v,
        game,
        order,
        0,
        1,
        config.alpha,
        i64::MAX,
        None,
        start.polled(),
    );
    let (found, after) = v.best_move(
        game,
        order,
        0,
        1,
        config.alpha,
        i64::MAX,
        None,
        start.polled(),
    );
    let alpha = higher(config.alpha, found->Some_0.1);
    lemma_deepened_visits(v, config, game, order, 2, alpha, found, 1, after, k);
    lemma_deepened_counts_up(v, config, game, order, 2, alpha, found, 1, after);
}

proof fn lemma_root_results_visit(
    v: Valuation,
    config: AbConfig,
    game: GameModel,
    order: Seq<Direction>,
    count: int,
    cache: Map<KeyModel, AbCacheEntry>,
    k: int,
)
    requires
        never_stops(v),
        config.depth > 1,
        0 <= k < order.len(),
        goes_on(game, order[k]),
        0 <= count <= order.len(),
    ensures
        v.root_results(config, game, order, count, cache).0.len() == count,
        k < count ==> v.root_results(
            config,
            game,
            order,
            count,
            cache,
        ).0[k].stats.predicted_states > 0,
    decreases count,
{
    if count > 0 {
        lemma_root_results_visit(v, config, game, order, count - 1, cache, k);
        if k == count - 1 {
            let before = v.root_results(config, game, order, count - 1, cache).1;
            lemma_move_visits(
                v,
                game,
                order[k],
                config.depth,
                config.alpha,
                config.beta,
                SearchState { cache: before, budget: SearchBudget::fresh(None) },
            );
        }
    }
}

proof fn lemma_joined_counts_are_no_less(results: Seq<RootResult>, count: int, k: int)
    requires
        0 <= k < count <= results.len(),
    ensures
        joined_counts(results, count).predicted_states >= results[k].stats.predicted_states,
    decreases count,
{
    if k < count - 1 {
        lemma_joined_counts_are_no_less(results, count - 1, k);
    }
}

/// A search that is not told to stop and goes deeper than one move, from a position with a legal
/// move after which the game can go on, visits a position at least and says so. A search within
/// limits ends after the first depth where a move has reached the upper bound; so there the
/// window must be open, and the limit not zero.
pub proof fn a_deep_search_visits_a_position(
    v: Valuation,
    config: AbConfig,
    game: GameModel,
    choice: Option<Choice>,
    before: Map<KeyModel, AbCacheEntry>,
    after: Map<KeyModel, AbCacheEntry>,
    direction: Direction,
)
    requires
        never_stops(v),
        v.is_choice(config, game, choice, before, after),
        config.depth > 1,
        goes_on(game, direction),
        config.is_limited() ==> {
            &&& config.node_limit != Some(0u64)
            &&& config.alpha < i64::MAX
            &&& config.beta == i64::MAX
            &&& stays_below_the_top(v)
        },
    ensures
        choice matches Some((_, _, stats)) && stats.predicted_states > 0 && stats.searched_depth
            >= 1,
{
    let order = v.candidates(game, legal_moves(game.board));
    let board_eval = (v.evaluate)(game);
    assert(moves(game.board, direction));
    crate::game_laws::the_list_of_legal_moves_is_exact(game.board);
    crate::game_laws::a_game_is_over_without_legal_moves(game);
    every_legal_move_is_tried_the_more_promising_first(v, game);
    assert(order.contains(direction));
    let k = choose|k: int| 0 <= k < order.len() && order[k] == direction;
    if config.is_limited() {
        lemma_limited_choice_visits(v, config, game, order, board_eval, before, k);
    } else {
        let count = order.len() as int;
        let results = v.root_results(config, game, order, count, before).0;
        lemma_root_results_visit(v, config, game, order, count, before, k);
        lemma_joined_counts_are_no_less(results, count, k);
    }
}

// ---------------------------------------------------------------------------------------------
// Windows, bounds and limits
// ---------------------------------------------------------------------------------------------

/// A position that the cache knows exactly is not searched again: its value is taken, and one
/// position, one poll and one look into the cache are counted.
pub proof fn an_exact_value_is_taken_from_the_cache(
    v: Valuation,
    game: GameModel,
    depth: u8,
    alpha: i64,
    beta: i64,
    state: SearchState,
)
    requires
        state.budget.allows(v.stop),
        state.cache.contains_key(key_of(game, depth, v.dfs)),
        state.cache[key_of(game, depth, v.dfs)].bound is Exact,
    ensures
        ({
            let (score, after) = v.searched(game, depth, alpha, beta, state);
            &&& score == state.cache[key_of(game, depth, v.dfs)].value
            &&& after.cache == state.cache
            &&& after.budget == state.budget.polled().visited().probed(true)
        }),
{
}

/// A position of which the cache knows only a bound is not searched again where the bound already
/// lies outside of the window; this counts as a cut.
pub proof fn a_bound_outside_of_the_window_is_enough(
    v: Valuation,
    game: GameModel,
    depth: u8,
    alpha: i64,
    beta: i64,
    state: SearchState,
)
    requires
        state.budget.allows(v.stop),
        state.cache.contains_key(key_of(game, depth, v.dfs)),
        alpha < beta,
    ensures
        ({
            let entry = state.cache[key_of(game, depth, v.dfs)];
            let (score, after) = v.searched(game, depth, alpha, beta, state);
            (entry.bound is Lower && entry.value >= beta) || (entry.bound is Upper && entry.value
                <= alpha) ==> {
                &&& score == entry.value
                &&& after.cache == state.cache
                &&& after.budget == state.budget.polled().visited().probed(true).pruned()
            }
        }),
{
}

/// A search that is told to stop, or that has reached its limit, looks at nothing any more: it
/// values the position as it is and remembers nothing.
pub proof fn a_stopped_search_values_the_position_as_it_is(
    v: Valuation,
    game: GameModel,
    depth: u8,
    alpha: i64,
    beta: i64,
    state: SearchState,
)
    requires
        !state.budget.allows(v.stop),
    ensures
        v.searched(game, depth, alpha, beta, state) == ((v.evaluate)(game), state.polled()),
        state.polled().cache == state.cache,
{
}

/// At depth 0, and where the game is over, a position is worth what it is valued at, and that is
/// remembered as exact.
pub proof fn a_position_at_the_end_is_worth_its_value(
    v: Valuation,
    game: GameModel,
    depth: u8,
    alpha: i64,
    beta: i64,
    state: SearchState,
)
    requires
        state.budget.allows(v.stop),
        !state.cache.contains_key(key_of(game, depth, v.dfs)),
        depth == 0 || game.is_over(),
    ensures
        ({
            let (score, after) = v.searched(game, depth, alpha, beta, state);
            &&& score == (v.evaluate)(game)
            &&& looked_up(after.cache, key_of(game, depth, v.dfs)) == Some(
                AbCacheEntry { value: score, bound: AbCacheBound::Exact },
            )
        }),
{
}

proof fn lemma_trial_within_a_window(
    v: Valuation,
    game: GameModel,
    order: Seq<Direction>,
    i: int,
    depth: u8,
    best: i64,
    alpha: i64,
    beta: i64,
    state: SearchState,
)
    requires
        alpha < beta,
        best < beta,
    ensures
        ({
            let trial = v.tried(game, order, i, depth, best, alpha, beta, state);
            &&& trial.best >= best
            &&& trial.cut_off <==> trial.best >= beta
            &&& !(trial.cut_off && trial.stopped)
        }),
    decreases order.len() - i,
{
    if i < order.len() && state.budget.allows(v.stop) {
        let outcomes = game.outcomes(order[i]);
        let (value, after) = v.weighed(
            outcomes,
            depth,
            alpha,
            beta,
            Seq::empty(),
            state.polled(),
        );
        let so_far = higher(best, value);
        let low = higher(alpha, so_far);
        if low < beta {
            lemma_trial_within_a_window(v, game, order, i + 1, depth, so_far, low, beta, after);
        }
    }
}

/// What a search finds out is remembered as exact where it stayed below the upper end of the
/// window, and as a lower bound where it reached it and cut the rest of the moves off.
pub proof fn a_score_that_reaches_the_window_is_a_lower_bound(
    v: Valuation,
    game: GameModel,
    depth: u8,
    alpha: i64,
    beta: i64,
    state: SearchState,
)
    requires
        never_stops(v),
        state.budget.node_limit is None,
        !state.cache.contains_key(key_of(game, depth, v.dfs)),
        alpha < beta,
        LOWEST_SCORE < beta,
        depth > 0,
        !game.is_over(),
    ensures
        ({
            let (score, after) = v.searched(game, depth, alpha, beta, state);
            let entry = looked_up(after.cache, key_of(game, depth, v.dfs));
            &&& score < beta ==> entry == Some(
                AbCacheEntry { value: score, bound: AbCacheBound::Exact },
            )
            &&& score >= beta ==> entry == Some(
                AbCacheEntry { value: score, bound: AbCacheBound::Lower },
            )
        }),
{
    let key = key_of(game, depth, v.dfs);
    let order = v.candidates(game, legal_moves(game.board));
    assert(!(v.stop)(state.budget.polls));
    lemma_trial_within_a_window(
        v,
        game,
        order,
        0,
        depth,
        LOWEST_SCORE,
        alpha,
        beta,
        state.entered(key),
    );
    lemma_tried_to_the_end(
        v,
        game,
        order,
        0,
        depth,
        LOWEST_SCORE,
        alpha,
        beta,
        state.entered(key),
    );
}

/// Once a move has reached the upper end of the window, the moves behind it are not looked at, and
/// a cut is counted.
pub proof fn a_move_that_reaches_the_window_cuts_the_others_off(
    v: Valuation,
    game: GameModel,
    order: Seq<Direction>,
    depth: u8,
    alpha: i64,
    beta: i64,
    state: SearchState,
)
    requires
        order.len() > 0,
        state.budget.allows(v.stop),
    ensures
        ({
            let trial = v.tried(game, order, 0, depth, LOWEST_SCORE, alpha, beta, state);
            let (value, after) = v.weighed(
                game.outcomes(order[0]),
                depth,
                alpha,
                beta,
                Seq::empty(),
                state.polled(),
            );
            value >= beta ==> trial.best == value && trial.cut_off && trial.state == after.pruned()
        }),
{
}

/// The report of a search tells what it counted, how deep it went, what it found and what the
/// position itself is valued at.
pub proof fn a_report_tells_what_a_search_counted(
    counts: SearchStats,
    depth: u8,
    score: i64,
    board_eval: i64,
)
    ensures
        ({
            let report = reported_stats(counts, depth, score, board_eval);
            &&& report.predicted_states == counts.predicted_states
            &&& report.pruned_states == counts.pruned_states
            &&& report.cache_hits == counts.cache_hits
            &&& report.cache_misses == counts.cache_misses
            &&& report.searched_depth == depth
            &&& report.selected_score == score
            &&& report.board_eval == board_eval
        }),
{
}

/// The report of a choice among moves that were all searched tells the counts of all of them.
pub proof fn a_report_joins_the_counts_of_all_moves(results: Seq<RootResult>, count: int)
    requires
        0 <= count < results.len(),
    ensures
        joined_counts(results, 0).predicted_states == 0,
        joined_counts(results, count + 1) == joined_counts(results, count).joined(
            results[count].stats,
        ),
{
}

// ---------------------------------------------------------------------------------------------
// Settings and the bot that moves at random
// ---------------------------------------------------------------------------------------------

/// Settings make sense exactly where a search looks at least one move ahead, its window is not
/// empty, and neither limit is 0. What is wrong with others is told in this order.
pub proof fn settings_make_sense_where_a_search_can_run(config: AbConfig)
    ensures
        config_fault(config) is None <==> {
            &&& config.depth >= 1
            &&& config.alpha < config.beta
            &&& config.time_limit_ms != Some(0u64)
            &&& config.node_limit != Some(0u64)
        },
        config.depth == 0 ==> config_fault(config) == Some(AbConfigError::NoDepth),
        config.depth >= 1 && config.alpha >= config.beta ==> config_fault(config) == Some(
            AbConfigError::EmptyWindow,
        ),
        config.depth >= 1 && config.alpha < config.beta && config.time_limit_ms == Some(0u64)
            ==> config_fault(config) == Some(AbConfigError::NoTime),
        config.is_limited() <==> config.time_limit_ms is Some || config.node_limit is Some,
{
}

/// The bot that moves at random lets the dice pick a place in the list of legal moves, among as
/// many as there are, and makes the move at that place.
pub proof fn the_dice_pick_a_random_move(bot: RandomBot, game: GameModel)
    ensures
        ({
            let legal = legal_moves(game.board);
            let (place, dice) = bot.dice.picked(Seq::new(legal.len(), |i: int| i as usize));
            &&& bot.chosen(game).1 == dice
            &&& place is Some ==> bot.chosen(game).0 == Some(legal[place->Some_0 as int])
            &&& place is None ==> bot.chosen(game).0 is None
        }),
{
    let legal = legal_moves(game.board);
    assert(Seq::new(legal.len(), |i: int| i as usize) =~= numbers_below(legal.len()));
}

/// A search within limits that is stopped before its first move, or that has no positions left to
/// visit, chooses the most promising move, and reports the value of the position and no depth; it
/// leaves the cache as it is.
pub proof fn a_search_without_time_chooses_the_most_promising_move(
    v: Valuation,
    config: AbConfig,
    game: GameModel,
    order: Seq<Direction>,
    board_eval: i64,
    cache: Map<KeyModel, AbCacheEntry>,
)
    requires
        config.depth > 0,
        order.len() > 0,
        (v.stop)(0) || config.node_limit == Some(0u64),
    ensures
        ({
            let (choice, after) = v.limited_choice(config, game, order, board_eval, cache);
            &&& after == cache
            &&& choice is Some
            &&& choice->Some_0.0 == order[0]
            &&& choice->Some_0.1 == board_eval
            &&& choice->Some_0.2.searched_depth == 0
            &&& choice->Some_0.2.selected_score == board_eval
            &&& choice->Some_0.2.board_eval == board_eval
            &&& choice->Some_0.2.predicted_states == 0
            &&& choice->Some_0.2.pruned_states == 0
        }),
{
    let start = SearchState { cache, budget: SearchBudget::fresh(config.node_limit) };
    assert(!start.budget.allows(v.stop));
    assert(unsearched_choice(order, board_eval).0 == order[0]);
}

/// A search within limits looks one move further ahead each time. Where it is stopped it keeps what
/// it has; a move that is found takes the place of the one before, and its score raises the lower
/// bound of the window; once the window is closed the search is over.
pub proof fn a_search_within_limits_looks_further_ahead_each_time(
    v: Valuation,
    config: AbConfig,
    game: GameModel,
    order: Seq<Direction>,
    depth: u8,
    alpha: i64,
    best: Option<(Direction, i64)>,
    searched: u8,
    state: SearchState,
)
    ensures
        ({
            let result = v.deepened(
                config,
                game,
                order,
                depth as int,
                alpha,
                best,
                searched,
                state,
            );
            let (found, after) = v.best_move(
                game,
                order,
                0,
                depth,
                alpha,
                config.beta,
                None,
                state.polled(),
            );
            let further = |raised: i64, best: Option<(Direction, i64)>, reached: u8|
                v.deepened(config, game, order, depth + 1, raised, best, reached, after);
            &&& depth > config.depth ==> result == (best, searched, state)
            &&& depth <= config.depth && !state.budget.allows(v.stop) ==> result.0 == best
                && result.1 == searched && result.2.cache == state.cache
            &&& depth <= config.depth && state.budget.allows(v.stop) ==> {
                &&& found is None ==> result == further(alpha, best, searched)
                &&& found is Some && (found->Some_0.1 >= config.beta || alpha >= config.beta)
                    ==> result == (found, depth, after)
                &&& found is Some && alpha <= found->Some_0.1 < config.beta ==> result == further(
                    found->Some_0.1,
                    found,
                    depth,
                )
                &&& found is Some && found->Some_0.1 < alpha < config.beta ==> result == further(
                    alpha,
                    found,
                    depth,
                )
            }
        }),
{
}

/// Of equally good moves the first is chosen, and none is better.
pub proof fn the_first_of_equal_moves_is_chosen(results: Seq<RootResult>, i: int, j: int)
    requires
        is_first_best(results, i),
        0 <= j < results.len(),
    ensures
        results[j].value <= results[i].value,
        results[j].value == results[i].value ==> i <= j,
        is_first_best(results, j) ==> i == j,
{
}

/// What is said of a search, of a move and of some outcomes is the score and the state that the
/// valuation of the search gives them.
pub proof fn a_search_comes_to_what_its_valuation_says(
    v: Valuation,
    game: GameModel,
    direction: Direction,
    outcomes: Seq<OutcomeModel>,
    depth: u8,
    alpha: i64,
    beta: i64,
    before: SearchState,
    result: (i64, SearchState),
)
    ensures
        crate::search::searches_to(v.dfs, game, depth, alpha, beta, before, result)(v)
            ==> v.searched(game, depth, alpha, beta, before) == result,
        crate::search::move_comes_to(v.dfs, game, direction, depth, alpha, beta, before, result)(v)
            ==> v.move_value(game, direction, depth, alpha, beta, before) == result,
        crate::search::weighs_to(v.dfs, outcomes, depth, alpha, beta, before, result)(v)
            ==> v.weighed(outcomes, depth, alpha, beta, Seq::empty(), before) == result,
        crate::search::lets_go_on(before.budget, true)(v) ==> !(v.stop)(before.budget.polls),
        crate::search::lets_go_on(before.budget, false)(v) && before.budget.node_limit is None
            ==> (v.stop)(before.budget.polls),
{
}

} // verus!

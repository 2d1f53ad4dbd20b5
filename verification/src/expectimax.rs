//! What the score of a position is meant to be, said without a window, a cache, an order of the
//! moves or a budget, and that the search finds it.

use crate::board::{legal_moves, moves, Direction};
use crate::bot::{is_first_best, AbConfig, Choice};
use crate::budget::SearchBudget;
use crate::cache::{key_of, looked_up, AbCacheBound, AbCacheEntry, KeyModel};
use crate::game::{GameModel, OutcomeModel};
use crate::search::{higher, weighted, SearchState, Valuation, WeightedValue, LOWEST_SCORE};
use crate::search_laws::{
    every_legal_move_is_tried_the_more_promising_first, never_stops, stays_below_the_top,
};
use vstd::prelude::*;

verus! {

// ---------------------------------------------------------------------------------------------
// What a position is worth
// ---------------------------------------------------------------------------------------------

/// What a position is worth to someone who looks some moves ahead: what it is valued at where the
/// game is over or nothing is looked ahead, else as much as the best of its legal moves.
pub open spec fn worth(v: Valuation, game: GameModel, depth: nat) -> i64
    decreases depth, 1int,
{
    if depth == 0 || game.is_over() {
        (v.evaluate)(game)
    } else {
        best_of_four(
            move_worth(v, game, Direction::Up, depth),
            move_worth(v, game, Direction::Down, depth),
            move_worth(v, game, Direction::Left, depth),
            move_worth(v, game, Direction::Right, depth),
        )
    }
}

/// What a move is worth: what is to be expected where the new tile comes into any of the cells it
/// can come into, with any of its ranks. A move that moves nothing is worth nothing.
pub open spec fn move_worth(v: Valuation, game: GameModel, direction: Direction, depth: nat) -> i64
    decreases depth, 0int,
{
    if depth == 0 || !moves(game.board, direction) {
        i64::MIN
    } else {
        (v.expect)(outcome_worths(v, game.outcomes(direction), (depth - 1) as nat))
    }
}

/// What each of some outcomes is worth, with the chances that lead there.
pub open spec fn outcome_worths(
    v: Valuation,
    outcomes: Seq<OutcomeModel>,
    depth: nat,
) -> Seq<WeightedValue>
    decreases depth, 2int,
{
    Seq::new(
        outcomes.len(),
        |i: int|
            WeightedValue {
                spawn_probability: outcomes[i].spawn_probability,
                rank_probability: outcomes[i].rank_probability,
                value: worth(v, outcomes[i].state, depth),
            },
    )
}

/// The highest of four scores.
pub open spec fn best_of_four(a: i64, b: i64, c: i64, d: i64) -> i64 {
    if a >= b && a >= c && a >= d {
        a
    } else if b >= c && b >= d {
        b
    } else if c >= d {
        c
    } else {
        d
    }
}

/// A position from which the game can go on is worth at least as much as each of its legal moves,
/// and exactly as much as one of them.
pub proof fn a_position_is_worth_its_best_move(v: Valuation, game: GameModel, depth: nat)
    requires
        depth > 0,
        !game.is_over(),
    ensures
        forall|direction: Direction|
            moves(game.board, direction) ==> #[trigger] move_worth(v, game, direction, depth)
                <= worth(v, game, depth),
        exists|direction: Direction|
            moves(game.board, direction) && #[trigger] move_worth(v, game, direction, depth)
                == worth(v, game, depth),
{
    let best = worth(v, game, depth);
    assert forall|direction: Direction| moves(game.board, direction) implies #[trigger] move_worth(
        v,
        game,
        direction,
        depth,
    ) <= best by {
        assert(direction is Up || direction is Down || direction is Left || direction is Right);
    }
    let some = choose|direction: Direction| moves(game.board, direction);
    assert(move_worth(v, game, some, depth) <= best);
    let up = move_worth(v, game, Direction::Up, depth);
    let down = move_worth(v, game, Direction::Down, depth);
    let left = move_worth(v, game, Direction::Left, depth);
    let right = move_worth(v, game, Direction::Right, depth);
    assert(best == up || best == down || best == left || best == right);
    if best == i64::MIN {
        assert(move_worth(v, game, some, depth) == best);
    }
}

// ---------------------------------------------------------------------------------------------
// What a cache may hold
// ---------------------------------------------------------------------------------------------

/// Whether positions with the same key are worth the same, as far as fewer moves than some number
/// are looked ahead. What the key does not tell, such as the order of the deck, may make a
/// difference to a position; where it does, a value of one stands for the other in the cache.
pub open spec fn keys_tell_enough(v: Valuation, depth: nat) -> bool {
    forall|a: GameModel, b: GameModel, da: u8, db: u8|
        0 < da < depth && 0 < db < depth && #[trigger] key_of(a, da, v.dfs) == #[trigger] key_of(
            b,
            db,
            v.dfs,
        ) ==> worth(v, a, da as nat) == worth(v, b, db as nat)
}

/// Whether what a cache holds of positions that are searched fewer moves ahead than some number is
/// what they are worth. An empty cache holds nothing that is wrong.
pub open spec fn holds_the_worth(
    v: Valuation,
    cache: Map<KeyModel, AbCacheEntry>,
    depth: nat,
) -> bool {
    forall|game: GameModel, d: u8|
        0 < d < depth && #[trigger] cache.contains_key(key_of(game, d, v.dfs)) ==> cache[key_of(
            game,
            d,
            v.dfs,
        )].bound is Exact && cache[key_of(game, d, v.dfs)].value == worth(v, game, d as nat)
}

proof fn lemma_storing_the_worth(
    v: Valuation,
    state: SearchState,
    game: GameModel,
    d: u8,
    top: nat,
)
    requires
        keys_tell_enough(v, top),
        holds_the_worth(v, state.cache, top),
        0 < d < top,
    ensures
        holds_the_worth(
            v,
            state.remembering(
                key_of(game, d, v.dfs),
                worth(v, game, d as nat),
                AbCacheBound::Exact,
            ).cache,
            top,
        ),
{
    let key = key_of(game, d, v.dfs);
    let after = state.remembering(key, worth(v, game, d as nat), AbCacheBound::Exact).cache;
    assert forall|other: GameModel, e: u8|
        0 < e < top && #[trigger] after.contains_key(key_of(other, e, v.dfs)) implies after[key_of(
        other,
        e,
        v.dfs,
    )].bound is Exact && after[key_of(other, e, v.dfs)].value == worth(v, other, e as nat) by {
        if key_of(other, e, v.dfs) != key {
            assert(state.cache.contains_key(key_of(other, e, v.dfs)));
        }
    }
}

// ---------------------------------------------------------------------------------------------
// The search finds it
// ---------------------------------------------------------------------------------------------

proof fn lemma_search_finds_the_worth(
    v: Valuation,
    game: GameModel,
    depth: u8,
    alpha: i64,
    state: SearchState,
    top: nat,
)
    requires
        never_stops(v),
        stays_below_the_top(v),
        keys_tell_enough(v, top),
        holds_the_worth(v, state.cache, top),
        state.budget.node_limit is None,
        alpha < i64::MAX,
        0 < depth <= top,
        depth == top ==> !state.cache.contains_key(key_of(game, depth, v.dfs)),
    ensures
        ({
            let (value, after) = v.searched(game, depth, alpha, i64::MAX, state);
            &&& value == worth(v, game, depth as nat)
            &&& holds_the_worth(v, after.cache, top)
            &&& after.budget.node_limit is None
            &&& value < i64::MAX
        }),
    decreases depth, 3int, 0int,
{
    let key = key_of(game, depth, v.dfs);
    assert(!(v.stop)(state.budget.polls));
    let entered = state.entered(key);
    assert(holds_the_worth(v, entered.cache, top));
    lemma_worth_below_the_top(v, game, depth as nat);
    if looked_up(state.cache, key) is None {
        if game.is_over() {
            if depth < top {
                lemma_storing_the_worth(v, entered, game, depth, top);
            } else {
                lemma_storing_beside(v, entered, game, depth, top, (v.evaluate)(game));
            }
        } else {
            let order = v.candidates(game, legal_moves(game.board));
            lemma_candidates_are_legal(v, game);
            lemma_trial_finds_the_best(
                v,
                game,
                order,
                0,
                depth,
                LOWEST_SCORE,
                alpha,
                entered,
                top,
            );
            every_legal_move_is_tried_the_more_promising_first(v, game);
            a_position_is_worth_its_best_move(v, game, depth as nat);
            let trial = v.tried(
                game,
                order,
                0,
                depth,
                LOWEST_SCORE,
                alpha,
                i64::MAX,
                entered,
            );
            let best = choose|direction: Direction|
                moves(game.board, direction) && #[trigger] move_worth(
                    v,
                    game,
                    direction,
                    depth as nat,
                ) == worth(v, game, depth as nat);
            assert(order.contains(best));
            let k = choose|k: int| 0 <= k < order.len() && order[k] == best;
            assert(move_worth(v, game, order[k], depth as nat) <= trial.best);
            if trial.best != LOWEST_SCORE {
                let j = choose|j: int|
                    0 <= j < order.len() && #[trigger] move_worth(v, game, order[j], depth as nat)
                        == trial.best;
                assert(order.contains(order[j]));
            }
            assert(trial.best == worth(v, game, depth as nat));
            if depth < top {
                lemma_storing_the_worth(v, trial.state, game, depth, top);
            } else {
                lemma_storing_beside(v, trial.state, game, depth, top, trial.best);
            }
        }
    } else {
        assert(state.cache.contains_key(key_of(game, depth, v.dfs)));
    }
}

proof fn lemma_candidates_are_legal(v: Valuation, game: GameModel)
    ensures
        forall|k: int|
            0 <= k < v.candidates(game, legal_moves(game.board)).len() ==> moves(
                game.board,
                #[trigger] v.candidates(game, legal_moves(game.board))[k],
            ),
{
    let order = v.candidates(game, legal_moves(game.board));
    every_legal_move_is_tried_the_more_promising_first(v, game);
    assert forall|k: int| 0 <= k < order.len() implies moves(game.board, #[trigger] order[k]) by {
        assert(order.contains(order[k]));
    }
}

proof fn lemma_storing_beside(
    v: Valuation,
    state: SearchState,
    game: GameModel,
    depth: u8,
    top: nat,
    value: i64,
)
    requires
        holds_the_worth(v, state.cache, top),
        depth >= top,
    ensures
        holds_the_worth(
            v,
            state.remembering(key_of(game, depth, v.dfs), value, AbCacheBound::Exact).cache,
            top,
        ),
{
    let key = key_of(game, depth, v.dfs);
    let after = state.remembering(key, value, AbCacheBound::Exact).cache;
    assert forall|other: GameModel, e: u8|
        0 < e < top && #[trigger] after.contains_key(key_of(other, e, v.dfs)) implies after[key_of(
        other,
        e,
        v.dfs,
    )].bound is Exact && after[key_of(other, e, v.dfs)].value == worth(v, other, e as nat) by {
        assert(key_of(other, e, v.dfs).depth != key.depth);
        assert(state.cache.contains_key(key_of(other, e, v.dfs)));
    }
}

proof fn lemma_worth_below_the_top(v: Valuation, game: GameModel, depth: nat)
    requires
        stays_below_the_top(v),
    ensures
        worth(v, game, depth) < i64::MAX,
{
    assert(forall|direction: Direction| #[trigger] move_worth(v, game, direction, depth)
        < i64::MAX);
}

proof fn lemma_trial_finds_the_best(
    v: Valuation,
    game: GameModel,
    order: Seq<Direction>,
    i: int,
    depth: u8,
    best: i64,
    alpha: i64,
    state: SearchState,
    top: nat,
)
    requires
        never_stops(v),
        stays_below_the_top(v),
        keys_tell_enough(v, top),
        holds_the_worth(v, state.cache, top),
        state.budget.node_limit is None,
        best < i64::MAX,
        alpha < i64::MAX,
        0 < depth <= top,
        0 <= i <= order.len(),
        forall|k: int| 0 <= k < order.len() ==> moves(game.board, #[trigger] order[k]),
    ensures
        ({
            let trial = v.tried(game, order, i, depth, best, alpha, i64::MAX, state);
            &&& !trial.stopped
            &&& !trial.cut_off
            &&& best <= trial.best < i64::MAX
            &&& forall|k: int|
                i <= k < order.len() ==> #[trigger] move_worth(v, game, order[k], depth as nat)
                    <= trial.best
            &&& trial.best == best || exists|k: int|
                i <= k < order.len() && #[trigger] move_worth(v, game, order[k], depth as nat)
                    == trial.best
            &&& holds_the_worth(v, trial.state.cache, top)
            &&& trial.state.budget.node_limit is None
        }),
    decreases depth, 1int, order.len() - i,
{
    if i < order.len() {
        assert(!(v.stop)(state.budget.polls));
        assert(holds_the_worth(v, state.polled().cache, top));
        lemma_a_move_has_its_worth(v, game, order[i], depth, alpha, state.polled(), top);
        let (value, after) = v.weighed(
            game.outcomes(order[i]),
            depth,
            alpha,
            i64::MAX,
            Seq::empty(),
            state.polled(),
        );
        let so_far = higher(best, value);
        lemma_trial_finds_the_best(
            v,
            game,
            order,
            i + 1,
            depth,
            so_far,
            higher(alpha, so_far),
            after,
            top,
        );
        let trial = v.tried(game, order, i, depth, best, alpha, i64::MAX, state);
        assert(move_worth(v, game, order[i], depth as nat) == value);
    }
}

proof fn lemma_a_move_has_its_worth(
    v: Valuation,
    game: GameModel,
    direction: Direction,
    depth: u8,
    alpha: i64,
    state: SearchState,
    top: nat,
)
    requires
        never_stops(v),
        stays_below_the_top(v),
        keys_tell_enough(v, top),
        holds_the_worth(v, state.cache, top),
        state.budget.node_limit is None,
        alpha < i64::MAX,
        0 < depth <= top,
        moves(game.board, direction),
    ensures
        ({
            let (value, after) = v.weighed(
                game.outcomes(direction),
                depth,
                alpha,
                i64::MAX,
                Seq::empty(),
                state,
            );
            &&& value == move_worth(v, game, direction, depth as nat)
            &&& value < i64::MAX
            &&& holds_the_worth(v, after.cache, top)
            &&& after.budget.node_limit is None
        }),
    decreases depth, 0int, game.outcomes(direction).len() + 1,
{
    assert(outcome_worths(v, game.outcomes(direction), (depth - 1) as nat).take(0)
        =~= Seq::empty());
    lemma_outcomes_have_their_worth(
        v,
        game.outcomes(direction),
        depth,
        alpha,
        Seq::empty(),
        state,
        top,
    );
}

proof fn lemma_outcomes_have_their_worth(
    v: Valuation,
    outcomes: Seq<OutcomeModel>,
    depth: u8,
    alpha: i64,
    done: Seq<WeightedValue>,
    state: SearchState,
    top: nat,
)
    requires
        never_stops(v),
        stays_below_the_top(v),
        keys_tell_enough(v, top),
        holds_the_worth(v, state.cache, top),
        state.budget.node_limit is None,
        alpha < i64::MAX,
        0 < depth <= top,
        done.len() <= outcomes.len(),
        done == outcome_worths(v, outcomes, (depth - 1) as nat).take(done.len() as int),
    ensures
        ({
            let (value, after) = v.weighed(outcomes, depth, alpha, i64::MAX, done, state);
            &&& value == (v.expect)(outcome_worths(v, outcomes, (depth - 1) as nat))
            &&& value < i64::MAX
            &&& holds_the_worth(v, after.cache, top)
            &&& after.budget.node_limit is None
        }),
    decreases depth, 0int, outcomes.len() - done.len(),
{
    let all = outcome_worths(v, outcomes, (depth - 1) as nat);
    if done.len() < outcomes.len() {
        assert(!(v.stop)(state.budget.polls));
        let outcome = outcomes[done.len() as int];
        assert(holds_the_worth(v, state.polled().cache, top));
        let (value, after) = if depth <= 1 || outcome.state.is_over() {
            ((v.evaluate)(outcome.state), state.polled())
        } else {
            lemma_search_finds_the_worth(
                v,
                outcome.state,
                (depth - 1) as u8,
                alpha,
                state.polled(),
                top,
            );
            v.searched(outcome.state, (depth - 1) as u8, alpha, i64::MAX, state.polled())
        };
        assert(value == worth(v, outcome.state, (depth - 1) as nat));
        let more = done.push(weighted(outcome, value));
        assert(more =~= all.take(more.len() as int));
        lemma_outcomes_have_their_worth(v, outcomes, depth, alpha, more, after, top);
    } else {
        assert(done =~= all);
    }
}

/// A search that is neither stopped nor limited nor bounded from above gives a position the score
/// that it is worth: the best that can be expected of its legal moves, of each as the average over
/// the outcomes that the judge makes of what they are worth one move less ahead. The cache may hold
/// what was found out before, as long as it is right and keys tell positions apart; an empty cache
/// is right, and one move ahead no key matters.
pub proof fn a_search_finds_what_a_position_is_worth(
    v: Valuation,
    game: GameModel,
    depth: u8,
    alpha: i64,
    state: SearchState,
)
    requires
        never_stops(v),
        stays_below_the_top(v),
        keys_tell_enough(v, depth as nat),
        holds_the_worth(v, state.cache, depth as nat),
        !state.cache.contains_key(key_of(game, depth, v.dfs)),
        state.budget.node_limit is None,
        alpha < i64::MAX,
        depth > 0,
    ensures
        v.searched(game, depth, alpha, i64::MAX, state).0 == worth(v, game, depth as nat),
        looked_up(v.searched(game, depth, alpha, i64::MAX, state).1.cache, key_of(
            game,
            depth,
            v.dfs,
        )) == Some(
            AbCacheEntry { value: worth(v, game, depth as nat), bound: AbCacheBound::Exact },
        ),
        holds_the_worth(
            v,
            v.searched(game, depth, alpha, i64::MAX, state).1.cache,
            depth as nat,
        ),
{
    lemma_search_finds_the_worth(v, game, depth, alpha, state, depth as nat);
    assert(!(v.stop)(state.budget.polls));
    if !game.is_over() {
        let order = v.candidates(game, legal_moves(game.board));
        lemma_candidates_are_legal(v, game);
        lemma_trial_finds_the_best(
            v,
            game,
            order,
            0,
            depth,
            LOWEST_SCORE,
            alpha,
            state.entered(key_of(game, depth, v.dfs)),
            depth as nat,
        );
    }
}

/// A search one move ahead, from an empty cache and in the full window, gives the best that is to
/// be expected of a legal move if every outcome is valued as it is.
pub proof fn a_search_of_one_move_finds_the_best_move(
    v: Valuation,
    game: GameModel,
    budget: SearchBudget,
)
    requires
        never_stops(v),
        stays_below_the_top(v),
        budget.node_limit is None,
        !game.is_over(),
    ensures
        ({
            let start = SearchState { cache: Map::empty(), budget };
            let score = v.searched(game, 1, i64::MIN, i64::MAX, start).0;
            &&& forall|direction: Direction|
                moves(game.board, direction) ==> (v.expect)(
                    #[trigger] v.weights(game.outcomes(direction)),
                ) <= score
            &&& exists|direction: Direction|
                moves(game.board, direction) && (v.expect)(
                    #[trigger] v.weights(game.outcomes(direction)),
                ) == score
        }),
{
    let start = SearchState { cache: Map::empty(), budget };
    a_search_finds_what_a_position_is_worth(v, game, 1, i64::MIN, start);
    a_position_is_worth_its_best_move(v, game, 1);
    assert forall|direction: Direction| moves(game.board, direction) implies (v.expect)(
        #[trigger] v.weights(game.outcomes(direction)),
    ) == move_worth(v, game, direction, 1) by {
        lemma_one_move_ahead(v, game, direction);
    }
    let best = choose|direction: Direction|
        moves(game.board, direction) && #[trigger] move_worth(v, game, direction, 1) == worth(
            v,
            game,
            1,
        );
    assert((v.expect)(v.weights(game.outcomes(best))) == move_worth(v, game, best, 1));
}

proof fn lemma_one_move_ahead(v: Valuation, game: GameModel, direction: Direction)
    requires
        moves(game.board, direction),
    ensures
        (v.expect)(v.weights(game.outcomes(direction))) == move_worth(v, game, direction, 1),
{
    let outcomes = game.outcomes(direction);
    assert forall|i: int| 0 <= i < outcomes.len() implies worth(v, outcomes[i].state, 0) == (
    v.evaluate)(outcomes[i].state) by {}
    assert(v.weights(outcomes) =~= outcome_worths(v, outcomes, 0));
}

// ---------------------------------------------------------------------------------------------
// The bot chooses by it
// ---------------------------------------------------------------------------------------------

/// Whether nothing keeps a search from going to the full depth: it is not told to stop, has no
/// node limit and no upper bound, and what it remembers is right.
pub open spec fn nothing_is_in_the_way(
    v: Valuation,
    config: AbConfig,
    before: Map<KeyModel, AbCacheEntry>,
) -> bool {
    &&& never_stops(v)
    &&& stays_below_the_top(v)
    &&& keys_tell_enough(v, config.depth as nat)
    &&& holds_the_worth(v, before, config.depth as nat)
    &&& config.node_limit is None
    &&& config.alpha < i64::MAX
    &&& config.beta == i64::MAX
    &&& config.depth > 0
}

proof fn lemma_a_move_value_is_its_worth(
    v: Valuation,
    game: GameModel,
    direction: Direction,
    depth: u8,
    alpha: i64,
    state: SearchState,
    top: nat,
)
    requires
        never_stops(v),
        stays_below_the_top(v),
        keys_tell_enough(v, top),
        holds_the_worth(v, state.cache, top),
        state.budget.node_limit is None,
        alpha < i64::MAX,
        0 < depth <= top,
        moves(game.board, direction),
    ensures
        ({
            let (value, after) = v.move_value(game, direction, depth, alpha, i64::MAX, state);
            &&& value == move_worth(v, game, direction, depth as nat)
            &&& value < i64::MAX
            &&& holds_the_worth(v, after.cache, top)
            &&& after.budget.node_limit is None
        }),
{
    lemma_a_move_has_its_worth(v, game, direction, depth, alpha, state, top);
}

proof fn lemma_results_are_worths(
    v: Valuation,
    config: AbConfig,
    game: GameModel,
    order: Seq<Direction>,
    count: int,
    cache: Map<KeyModel, AbCacheEntry>,
)
    requires
        nothing_is_in_the_way(v, config, cache),
        0 <= count <= order.len(),
        forall|k: int| 0 <= k < order.len() ==> moves(game.board, #[trigger] order[k]),
    ensures
        ({
            let (results, after) = v.root_results(config, game, order, count, cache);
            &&& results.len() == count
            &&& forall|k: int|
                0 <= k < count ==> (#[trigger] results[k]).direction == order[k]
                    && results[k].value == move_worth(v, game, order[k], config.depth as nat)
            &&& holds_the_worth(v, after, config.depth as nat)
        }),
    decreases count,
{
    if count > 0 {
        lemma_results_are_worths(v, config, game, order, count - 1, cache);
        let (results, before) = v.root_results(config, game, order, count - 1, cache);
        let start = SearchState { cache: before, budget: SearchBudget::fresh(None) };
        lemma_a_move_value_is_its_worth(
            v,
            game,
            order[count - 1],
            config.depth,
            config.alpha,
            start,
            config.depth as nat,
        );
        let (result, after) = v.root_result(config, game, order[count - 1], before);
        assert forall|k: int| 0 <= k < count implies (#[trigger] results.push(result)[k]).direction
            == order[k] && results.push(result)[k].value == move_worth(
            v,
            game,
            order[k],
            config.depth as nat,
        ) by {
            if k < count - 1 {
                assert(results.push(result)[k] == results[k]);
            }
        }
    }
}

spec fn is_best_so_far(
    v: Valuation,
    game: GameModel,
    order: Seq<Direction>,
    i: int,
    depth: nat,
    best: Option<(Direction, i64)>,
) -> bool {
    &&& best is None <==> i == 0
    &&& best is Some ==> exists|j: int|
        0 <= j < i && order[j] == best->Some_0.0 && #[trigger] move_worth(v, game, order[j], depth)
            == best->Some_0.1 && forall|k: int|
            0 <= k < i ==> (#[trigger] move_worth(v, game, order[k], depth) <= best->Some_0.1
                && (k < j ==> move_worth(v, game, order[k], depth) < best->Some_0.1))
    &&& best is Some ==> best->Some_0.1 < i64::MAX
}

proof fn lemma_best_move_is_best(
    v: Valuation,
    game: GameModel,
    order: Seq<Direction>,
    i: int,
    depth: u8,
    alpha: i64,
    best: Option<(Direction, i64)>,
    state: SearchState,
    top: nat,
)
    requires
        never_stops(v),
        stays_below_the_top(v),
        keys_tell_enough(v, top),
        holds_the_worth(v, state.cache, top),
        state.budget.node_limit is None,
        alpha < i64::MAX,
        0 < depth <= top,
        0 <= i <= order.len(),
        forall|k: int| 0 <= k < order.len() ==> moves(game.board, #[trigger] order[k]),
        is_best_so_far(v, game, order, i, depth as nat, best),
    ensures
        ({
            let (found, after) = v.best_move(
                game,
                order,
                i,
                depth,
                alpha,
                i64::MAX,
                best,
                state,
            );
            &&& is_best_so_far(v, game, order, order.len() as int, depth as nat, found)
            &&& holds_the_worth(v, after.cache, top)
            &&& after.budget.node_limit is None
        }),
    decreases order.len() - i,
{
    if i < order.len() {
        assert(!(v.stop)(state.budget.polls));
        assert(holds_the_worth(v, state.polled().cache, top));
        lemma_a_move_value_is_its_worth(v, game, order[i], depth, alpha, state.polled(), top);
        let (value, after) = v.move_value(
            game,
            order[i],
            depth,
            alpha,
            i64::MAX,
            state.polled(),
        );
        assert(move_worth(v, game, order[i], depth as nat) == value);
        let new_best = if best is None || value > best->Some_0.1 {
            Some((order[i], value))
        } else {
            best
        };
        if best is Some {
            let j = choose|j: int|
                0 <= j < i && order[j] == best->Some_0.0 && #[trigger] move_worth(
                    v,
                    game,
                    order[j],
                    depth as nat,
                ) == best->Some_0.1 && forall|k: int|
                    0 <= k < i ==> (#[trigger] move_worth(v, game, order[k], depth as nat)
                        <= best->Some_0.1 && (k < j ==> move_worth(v, game, order[k], depth as nat)
                        < best->Some_0.1));
            assert(move_worth(v, game, order[j], depth as nat) == best->Some_0.1);
        }
        assert(is_best_so_far(v, game, order, i + 1, depth as nat, new_best));
        lemma_best_move_is_best(
            v,
            game,
            order,
            i + 1,
            depth,
            higher(alpha, new_best->Some_0.1),
            new_best,
            after,
            top,
        );
    }
}

proof fn lemma_deepening_ends_with_the_best(
    v: Valuation,
    config: AbConfig,
    game: GameModel,
    order: Seq<Direction>,
    depth: int,
    alpha: i64,
    best: Option<(Direction, i64)>,
    searched_depth: u8,
    state: SearchState,
)
    requires
        never_stops(v),
        stays_below_the_top(v),
        keys_tell_enough(v, config.depth as nat),
        holds_the_worth(v, state.cache, config.depth as nat),
        state.budget.node_limit is None,
        alpha < i64::MAX,
        config.beta == i64::MAX,
        1 <= depth <= config.depth,
        order.len() > 0,
        forall|k: int| 0 <= k < order.len() ==> moves(game.board, #[trigger] order[k]),
    ensures
        ({
            let (found, reached, after) = v.deepened(
                config,
                game,
                order,
                depth,
                alpha,
                best,
                searched_depth,
                state,
            );
            &&& is_best_so_far(v, game, order, order.len() as int, config.depth as nat, found)
            &&& reached == config.depth
            &&& holds_the_worth(v, after.cache, config.depth as nat)
        }),
    decreases config.depth - depth,
{
    assert(!(v.stop)(state.budget.polls));
    let level = depth as u8;
    assert(holds_the_worth(v, state.polled().cache, config.depth as nat));
    lemma_best_move_is_best(
        v,
        game,
        order,
        0,
        level,
        alpha,
        None,
        state.polled(),
        config.depth as nat,
    );
    let (found, after) = v.best_move(
        game,
        order,
        0,
        level,
        alpha,
        i64::MAX,
        None,
        state.polled(),
    );
    if depth < config.depth {
        lemma_deepening_ends_with_the_best(
            v,
            config,
            game,
            order,
            depth + 1,
            higher(alpha, found->Some_0.1),
            found,
            level,
            after,
        );
    } else {
        reveal_with_fuel(Valuation::deepened, 2);
    }
}

/// Where nothing is in its way, a bot chooses a move that is worth the most, whether it deepens its
/// search within a time limit or searches every move to the full depth at once: no legal move is
/// worth more, the score is what the move is worth, and among moves that are worth the same it
/// takes the one that looked most promising. The report tells the full depth and the score of the
/// position itself.
pub proof fn a_bot_chooses_a_move_that_is_worth_the_most(
    v: Valuation,
    config: AbConfig,
    game: GameModel,
    choice: Option<Choice>,
    before: Map<KeyModel, AbCacheEntry>,
    after: Map<KeyModel, AbCacheEntry>,
)
    requires
        nothing_is_in_the_way(v, config, before),
        !game.is_over(),
        v.is_choice(config, game, choice, before, after),
    ensures
        choice is Some,
        ({
            let (direction, score, stats) = choice->Some_0;
            let depth = config.depth as nat;
            &&& moves(game.board, direction)
            &&& score == move_worth(v, game, direction, depth)
            &&& score == worth(v, game, depth)
            &&& forall|other: Direction|
                moves(game.board, other) ==> #[trigger] move_worth(v, game, other, depth) <= score
            &&& forall|other: Direction|
                moves(game.board, other) && #[trigger] move_worth(v, game, other, depth) == score
                    ==> v.quick_value(game.outcomes(other)) <= v.quick_value(
                    game.outcomes(direction),
                )
            &&& stats.searched_depth == config.depth
            &&& stats.selected_score == score
            &&& stats.board_eval == (v.evaluate)(game)
        }),
{
    let order = v.candidates(game, legal_moves(game.board));
    let depth = config.depth as nat;
    lemma_candidates_are_legal(v, game);
    every_legal_move_is_tried_the_more_promising_first(v, game);
    crate::game_laws::a_game_is_over_without_legal_moves(game);
    a_position_is_worth_its_best_move(v, game, depth);
    let j: int = if config.is_limited() {
        let start = SearchState { cache: before, budget: SearchBudget::fresh(None) };
        lemma_deepening_ends_with_the_best(
            v,
            config,
            game,
            order,
            1,
            config.alpha,
            None,
            0,
            start,
        );
        let found = v.deepened(config, game, order, 1, config.alpha, None, 0, start).0;
        choose|j: int|
            0 <= j < order.len() && order[j] == found->Some_0.0 && #[trigger] move_worth(
                v,
                game,
                order[j],
                depth,
            ) == found->Some_0.1 && forall|k: int|
                0 <= k < order.len() ==> (#[trigger] move_worth(v, game, order[k], depth)
                    <= found->Some_0.1 && (k < j ==> move_worth(v, game, order[k], depth)
                    < found->Some_0.1))
    } else {
        lemma_results_are_worths(v, config, game, order, order.len() as int, before);
        let results = v.root_results(config, game, order, order.len() as int, before).0;
        let j = choose|j: int|
            #![trigger results[j]]
            is_first_best(results, j) && choice->Some_0.0 == results[j].direction
                && choice->Some_0.1 == results[j].value;
        assert forall|k: int| 0 <= k < order.len() implies #[trigger] move_worth(
            v,
            game,
            order[k],
            depth,
        ) <= choice->Some_0.1 && (k < j ==> move_worth(v, game, order[k], depth)
            < choice->Some_0.1) by {
            assert(results[k].value <= results[j].value);
        }
        j
    };
    let (direction, score, stats) = choice->Some_0;
    assert(order[j] == direction);
    assert(move_worth(v, game, order[j], depth) == score);
    assert forall|other: Direction| moves(game.board, other) implies #[trigger] move_worth(
        v,
        game,
        other,
        depth,
    ) <= score by {
        assert(order.contains(other));
        let k = choose|k: int| 0 <= k < order.len() && order[k] == other;
        assert(move_worth(v, game, order[k], depth) <= score);
    }
    assert forall|other: Direction|
        moves(game.board, other) && #[trigger] move_worth(v, game, other, depth)
            == score implies v.quick_value(game.outcomes(other)) <= v.quick_value(
        game.outcomes(direction),
    ) by {
        assert(order.contains(other));
        let k = choose|k: int| 0 <= k < order.len() && order[k] == other;
        assert(move_worth(v, game, order[k], depth) == score);
        assert(k >= j);
    }
    let best = choose|best: Direction|
        moves(game.board, best) && #[trigger] move_worth(v, game, best, depth) == worth(
            v,
            game,
            depth,
        );
    assert(move_worth(v, game, best, depth) <= score);
}

} // verus!

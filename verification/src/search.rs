//! The alpha-beta search over the moves of a game and the tiles that can follow them.

use crate::board::{legal_moves, moves, Direction};
use crate::budget::{can_be_polled, SearchBudget};
use crate::cache::{
    key_of, looked_up, stored, AbCache, AbCacheBound, AbCacheEntry, AbCacheKey, KeyModel,
};
use crate::game::{outcome_models, Game, GameModel, Outcome, OutcomeModel};
use crate::probability::Probability;
use crate::ranking::{rank_by_score, ranking};
use vstd::prelude::*;

verus! {

/// The score below every other one.
pub const LOWEST_SCORE: i64 = i64::MIN;

/// The number of moves that an evaluation may look ahead.
pub const EVALUATION_ROOM: u16 = 4;

/// The score of one way in which a move can turn out, with the chances that lead there.
#[derive(Clone, Copy, Debug, PartialEq, Eq, Structural)]
pub struct WeightedValue {
    pub spawn_probability: Probability,
    pub rank_probability: Probability,
    pub value: i64,
}

/// What a search asks from outside. A score is a number by which positions compare: a higher one
/// is better.
pub struct Judge<E, C, S> {
    /// The score of a position.
    pub evaluate: E,
    /// The score that is to be expected where one of several things happens.
    pub expect: C,
    /// Whether to stop now; it is told how often it was asked before.
    pub stop: S,
}

impl<E, C, S> Judge<E, C, S> where
    E: Fn(&Game) -> i64,
    C: Fn(&Vec<WeightedValue>) -> i64,
    S: Fn(u64) -> bool,
 {
    /// Whether the judge takes every position that a search can ask about.
    pub open spec fn is_ready(self) -> bool {
        &&& forall|game: &Game|
            game@.is_sound() && game@.has_room_for(EVALUATION_ROOM as int)
                ==> #[trigger] call_requires(self.evaluate, (game,))
        &&& forall|values: &Vec<WeightedValue>| #[trigger] call_requires(self.expect, (values,))
        &&& can_be_polled(self.stop)
    }

    /// Whether every score that the judge gives lies between two scores.
    pub open spec fn scores_within(self, low: i64, high: i64) -> bool {
        &&& forall|game: &Game, value: i64| #[trigger]
            call_ensures(self.evaluate, (game,), value) ==> low <= value <= high
        &&& forall|values: &Vec<WeightedValue>, value: i64| #[trigger]
            call_ensures(self.expect, (values,), value) ==> low <= value <= high
    }
}

/// What a search changes.
pub struct SearchState {
    pub cache: Map<KeyModel, AbCacheEntry>,
    pub budget: SearchBudget,
}

/// The state that a cache and a budget are in.
pub open spec fn state_of(cache: AbCache, budget: SearchBudget) -> SearchState {
    SearchState { cache: cache@, budget }
}

impl SearchState {
    /// The state after one more poll.
    pub open spec fn polled(self) -> Self {
        SearchState { budget: self.budget.polled(), ..self }
    }

    /// The state after one more cut.
    pub open spec fn pruned(self) -> Self {
        SearchState { budget: self.budget.pruned(), ..self }
    }

    /// The state after one more position, whose key was looked up.
    pub open spec fn entered(self, key: KeyModel) -> Self {
        SearchState {
            budget: self.budget.polled().visited().probed(looked_up(self.cache, key) is Some),
            ..self
        }
    }

    /// The state after one more value was stored.
    pub open spec fn remembering(self, key: KeyModel, value: i64, bound: AbCacheBound) -> Self {
        SearchState { cache: stored(self.cache, key, AbCacheEntry { value, bound }), ..self }
    }
}

/// The higher of two scores.
pub open spec fn higher(a: i64, b: i64) -> i64 {
    if a >= b {
        a
    } else {
        b
    }
}

/// The lower of two scores.
pub open spec fn lower(a: i64, b: i64) -> i64 {
    if a <= b {
        a
    } else {
        b
    }
}

/// How the moves of a position turned out.
pub struct Trial {
    pub best: i64,
    pub cut_off: bool,
    pub stopped: bool,
    pub state: SearchState,
}

/// The answers of a judge, as functions, and whether the search belongs to a bot that makes plans.
pub struct Valuation {
    pub evaluate: spec_fn(GameModel) -> i64,
    pub expect: spec_fn(Seq<WeightedValue>) -> i64,
    pub stop: spec_fn(u64) -> bool,
    pub dfs: bool,
}

impl Valuation {
    /// Whether a judge gives scores like this.
    pub open spec fn scores_like<E, C, S>(self, judge: Judge<E, C, S>) -> bool where
        E: Fn(&Game) -> i64,
        C: Fn(&Vec<WeightedValue>) -> i64,
        S: Fn(u64) -> bool,
     {
        &&& forall|game: &Game, value: i64| #[trigger]
            call_ensures(judge.evaluate, (game,), value) ==> value == (self.evaluate)(game@)
        &&& forall|values: &Vec<WeightedValue>, value: i64| #[trigger]
            call_ensures(judge.expect, (values,), value) ==> value == (self.expect)(values@)
    }

    /// Whether a judge answers like this.
    pub open spec fn describes<E, C, S>(self, judge: Judge<E, C, S>) -> bool where
        E: Fn(&Game) -> i64,
        C: Fn(&Vec<WeightedValue>) -> i64,
        S: Fn(u64) -> bool,
     {
        &&& self.scores_like(judge)
        &&& forall|poll: u64, told: bool| #[trigger]
            call_ensures(judge.stop, (poll,), told) ==> told == (self.stop)(poll)
    }

    /// Whether the stop signal answers the polls from one number up to another as it was heard to.
    pub open spec fn stops_as(self, heard: spec_fn(u64) -> bool, from: u64, to: u64) -> bool {
        forall|poll: u64| from <= poll < to ==> #[trigger] (self.stop)(poll) == heard(poll)
    }

    /// The scores of the outcomes themselves, with their chances.
    pub open spec fn weights(self, outcomes: Seq<OutcomeModel>) -> Seq<WeightedValue> {
        Seq::new(
            outcomes.len(),
            |i: int| weighted(outcomes[i], (self.evaluate)(outcomes[i].state)),
        )
    }

    /// The score that is to be expected of a move if the search ended right after it.
    pub open spec fn quick_value(self, outcomes: Seq<OutcomeModel>) -> i64 {
        (self.expect)(self.weights(outcomes))
    }

    /// The scores by which moves are put in order.
    pub open spec fn quick_values(self, game: GameModel, directions: Seq<Direction>) -> Seq<i64> {
        Seq::new(directions.len(), |i: int| self.quick_value(game.outcomes(directions[i])))
    }

    /// Those of some moves that can be made, the most promising first.
    pub open spec fn candidates(self, game: GameModel, legal: Seq<Direction>) -> Seq<Direction> {
        let playable = playable_of(game, legal);
        let order = ranking(self.quick_values(game, playable));
        Seq::new(order.len(), |i: int| playable[order[i] as int])
    }

    /// The score of a position that is searched to a depth within a window, and the state after
    /// the search.
    pub open spec fn searched(
        self,
        game: GameModel,
        depth: u8,
        alpha: i64,
        beta: i64,
        state: SearchState,
    ) -> (i64, SearchState)
        decreases depth, 3int, 0int,
    {
        let key = key_of(game, depth, self.dfs);
        if !state.budget.allows(self.stop) {
            ((self.evaluate)(game), state.polled())
        } else {
            match looked_up(state.cache, key) {
                None => self.expanded(game, depth, alpha, alpha, beta, state.entered(key)),
                Some(entry) => {
                    let low = if entry.bound is Lower {
                        higher(alpha, entry.value)
                    } else {
                        alpha
                    };
                    let high = if entry.bound is Upper {
                        lower(beta, entry.value)
                    } else {
                        beta
                    };
                    if entry.bound is Exact {
                        (entry.value, state.entered(key))
                    } else if low >= high {
                        (entry.value, state.entered(key).pruned())
                    } else {
                        self.expanded(game, depth, alpha, low, high, state.entered(key))
                    }
                },
            }
        }
    }

    /// The score of a position whose value the cache does not settle.
    pub open spec fn expanded(
        self,
        game: GameModel,
        depth: u8,
        first_alpha: i64,
        alpha: i64,
        beta: i64,
        state: SearchState,
    ) -> (i64, SearchState)
        decreases depth, 2int, 0int,
    {
        let key = key_of(game, depth, self.dfs);
        if depth == 0 || game.is_over() {
            let value = (self.evaluate)(game);
            (value, state.remembering(key, value, AbCacheBound::Exact))
        } else {
            let order = self.candidates(game, legal_moves(game.board));
            let trial = self.tried(game, order, 0, depth, LOWEST_SCORE, alpha, beta, state);
            if trial.stopped {
                ((self.evaluate)(game), trial.state)
            } else {
                let bound = if !trial.cut_off {
                    AbCacheBound::Exact
                } else if trial.best <= first_alpha {
                    AbCacheBound::Upper
                } else {
                    AbCacheBound::Lower
                };
                (trial.best, trial.state.remembering(key, trial.best, bound))
            }
        }
    }

    /// How the moves of a position turn out, from one of them on.
    pub open spec fn tried(
        self,
        game: GameModel,
        order: Seq<Direction>,
        i: int,
        depth: u8,
        best: i64,
        alpha: i64,
        beta: i64,
        state: SearchState,
    ) -> Trial
        decreases depth, 1int, order.len() - i,
    {
        if i >= order.len() {
            Trial { best, cut_off: false, stopped: false, state }
        } else if !state.budget.allows(self.stop) {
            Trial { best, cut_off: false, stopped: true, state: state.polled() }
        } else {
            let (value, after) = self.weighed(
                game.outcomes(order[i]),
                depth,
                alpha,
                beta,
                Seq::empty(),
                state.polled(),
            );
            let new_best = higher(best, value);
            let new_alpha = higher(alpha, new_best);
            if new_alpha >= beta {
                Trial { best: new_best, cut_off: true, stopped: false, state: after.pruned() }
            } else {
                self.tried(game, order, i + 1, depth, new_best, new_alpha, beta, after)
            }
        }
    }

    /// The score that is to be expected of some outcomes, of which some are done.
    pub open spec fn weighed(
        self,
        outcomes: Seq<OutcomeModel>,
        depth: u8,
        alpha: i64,
        beta: i64,
        done: Seq<WeightedValue>,
        state: SearchState,
    ) -> (i64, SearchState)
        decreases depth, 0int, outcomes.len() - done.len(),
    {
        if done.len() >= outcomes.len() {
            ((self.expect)(done), state)
        } else {
            let outcome = outcomes[done.len() as int];
            if !state.budget.allows(self.stop) {
                ((self.evaluate)(outcome.state), state.polled())
            } else {
                let (value, after) = if depth <= 1 || outcome.state.is_over() {
                    ((self.evaluate)(outcome.state), state.polled())
                } else {
                    self.searched(outcome.state, (depth - 1) as u8, alpha, beta, state.polled())
                };
                self.weighed(
                    outcomes,
                    depth,
                    alpha,
                    beta,
                    done.push(weighted(outcome, value)),
                    after,
                )
            }
        }
    }

    /// The score that is to be expected of a move, and the state after its search.
    pub open spec fn move_value(
        self,
        game: GameModel,
        direction: Direction,
        depth: u8,
        alpha: i64,
        beta: i64,
        state: SearchState,
    ) -> (i64, SearchState) {
        if moves(game.board, direction) {
            self.weighed(game.outcomes(direction), depth, alpha, beta, Seq::empty(), state)
        } else {
            (LOWEST_SCORE, state)
        }
    }
}

/// The score of an outcome, with its chances.
pub open spec fn weighted(outcome: OutcomeModel, value: i64) -> WeightedValue {
    WeightedValue {
        spawn_probability: outcome.spawn_probability,
        rank_probability: outcome.rank_probability,
        value,
    }
}

/// Those of some moves that can be made.
pub open spec fn playable_of(game: GameModel, directions: Seq<Direction>) -> Seq<Direction> {
    directions.filter(|direction: Direction| moves(game.board, direction))
}

/// What a budget keeps whatever a search does: the node limit stays, no count goes down, and the
/// search does not visit more positions than the limit allows.
pub open spec fn keeps_the_limit(before: SearchBudget, after: SearchBudget) -> bool {
    &&& after.node_limit == before.node_limit
    &&& before.polls <= after.polls
    &&& before.nodes <= after.nodes
    &&& before.node_limit is Some && before.nodes <= before.node_limit->Some_0 ==> after.nodes
        <= before.node_limit->Some_0
}

// ---------------------------------------------------------------------------------------------
// What is heard of a stop signal
// ---------------------------------------------------------------------------------------------

/// Whether a stop signal can have given these answers to the polls from one number up to another.
pub open spec fn can_be_heard<S>(
    stop: S,
    heard: spec_fn(u64) -> bool,
    from: u64,
    to: u64,
) -> bool where S: Fn(u64) -> bool {
    forall|poll: u64|
        from <= poll < to ==> call_ensures(stop, (poll,), #[trigger] heard(poll))
}

/// Whether something is true of a search in which the polls from one number up to another were
/// asked. The stop signal gave some answers to them, and it may give others another time, as a
/// clock does; but of every valuation that scores like the judge and stops as it was heard to, the
/// thing is true. Where so many polls were asked that their number stays at the highest, nothing
/// is said.
pub open spec fn is_true_as_heard<E, C, S>(
    judge: Judge<E, C, S>,
    from: u64,
    to: u64,
    thing: spec_fn(Valuation) -> bool,
) -> bool where E: Fn(&Game) -> i64, C: Fn(&Vec<WeightedValue>) -> i64, S: Fn(u64) -> bool {
    exists|heard: spec_fn(u64) -> bool| #[trigger]
        can_be_heard(judge.stop, heard, from, to) && (to < u64::MAX ==> forall|v: Valuation|
            #[trigger] v.scores_like(judge) && v.stops_as(heard, from, to) ==> thing(v))
}

/// That a budget lets a search go on, or does not.
pub open spec fn lets_go_on(budget: SearchBudget, go_on: bool) -> spec_fn(Valuation) -> bool {
    |v: Valuation| budget.allows(v.stop) == go_on
}

/// That some outcomes have this score, with this state before and that one after.
pub open spec fn weighs_to(
    dfs: bool,
    outcomes: Seq<OutcomeModel>,
    depth: u8,
    alpha: i64,
    beta: i64,
    before: SearchState,
    result: (i64, SearchState),
) -> spec_fn(Valuation) -> bool {
    |v: Valuation|
        v.dfs == dfs ==> v.weighed(outcomes, depth, alpha, beta, Seq::empty(), before) == result
}

/// That a position has this score, with this state before and that one after.
pub open spec fn searches_to(
    dfs: bool,
    game: GameModel,
    depth: u8,
    alpha: i64,
    beta: i64,
    before: SearchState,
    result: (i64, SearchState),
) -> spec_fn(Valuation) -> bool {
    |v: Valuation| v.dfs == dfs ==> v.searched(game, depth, alpha, beta, before) == result
}

/// That a move has this score, with this state before and that one after.
pub open spec fn move_comes_to(
    dfs: bool,
    game: GameModel,
    direction: Direction,
    depth: u8,
    alpha: i64,
    beta: i64,
    before: SearchState,
    result: (i64, SearchState),
) -> spec_fn(Valuation) -> bool {
    |v: Valuation|
        v.dfs == dfs ==> v.move_value(game, direction, depth, alpha, beta, before) == result
}

/// Where no poll was asked, a thing that is true of every valuation with the scores is true.
pub proof fn nothing_was_asked<E, C, S>(
    judge: Judge<E, C, S>,
    poll: u64,
    thing: spec_fn(Valuation) -> bool,
) where E: Fn(&Game) -> i64, C: Fn(&Vec<WeightedValue>) -> i64, S: Fn(u64) -> bool
    requires
        forall|v: Valuation| #[trigger] v.scores_like(judge) ==> thing(v),
    ensures
        is_true_as_heard(judge, poll, poll, thing),
{
    let heard = |poll: u64| false;
    assert(can_be_heard(judge.stop, heard, poll, poll));
}

/// What one poll tells.
pub proof fn a_poll_was_asked<E, C, S>(
    judge: Judge<E, C, S>,
    budget: SearchBudget,
    go_on: bool,
) where E: Fn(&Game) -> i64, C: Fn(&Vec<WeightedValue>) -> i64, S: Fn(u64) -> bool
    requires
        exists|told: bool| #[trigger]
            call_ensures(judge.stop, (budget.polls,), told) && go_on == (!told
                && !budget.is_used_up()),
    ensures
        is_true_as_heard(judge, budget.polls, budget.polled().polls, lets_go_on(budget, go_on)),
{
    let told = choose|told: bool| #[trigger]
        call_ensures(judge.stop, (budget.polls,), told) && go_on == (!told
            && !budget.is_used_up());
    let heard = |poll: u64| told;
    assert(can_be_heard(judge.stop, heard, budget.polls, budget.polled().polls));
    if budget.polled().polls < u64::MAX {
        assert forall|v: Valuation| #[trigger]
            v.scores_like(judge) && v.stops_as(
                heard,
                budget.polls,
                budget.polled().polls,
            ) implies lets_go_on(budget, go_on)(v) by {
            assert((v.stop)(budget.polls) == heard(budget.polls));
        }
    }
}

/// What is heard first and what is heard after it are heard together.
pub proof fn one_thing_was_heard_after_another<E, C, S>(
    judge: Judge<E, C, S>,
    from: u64,
    between: u64,
    to: u64,
    first: spec_fn(Valuation) -> bool,
    second: spec_fn(Valuation) -> bool,
    both: spec_fn(Valuation) -> bool,
) where E: Fn(&Game) -> i64, C: Fn(&Vec<WeightedValue>) -> i64, S: Fn(u64) -> bool
    requires
        from <= between <= to,
        is_true_as_heard(judge, from, between, first),
        is_true_as_heard(judge, between, to, second),
        forall|v: Valuation| #[trigger]
            v.scores_like(judge) && first(v) && second(v) ==> both(v),
    ensures
        is_true_as_heard(judge, from, to, both),
{
    let early = choose|heard: spec_fn(u64) -> bool| #[trigger]
        can_be_heard(judge.stop, heard, from, between) && (between < u64::MAX ==> forall|
            v: Valuation,
        | #[trigger]
            v.scores_like(judge) && v.stops_as(heard, from, between) ==> first(v));
    let late = choose|heard: spec_fn(u64) -> bool| #[trigger]
        can_be_heard(judge.stop, heard, between, to) && (to < u64::MAX ==> forall|v: Valuation|
            #[trigger] v.scores_like(judge) && v.stops_as(heard, between, to) ==> second(v));
    let heard = |poll: u64|
        if poll < between {
            early(poll)
        } else {
            late(poll)
        };
    assert forall|poll: u64| from <= poll < to implies call_ensures(
        judge.stop,
        (poll,),
        #[trigger] heard(poll),
    ) by {
        if poll < between {
            assert(call_ensures(judge.stop, (poll,), early(poll)));
        } else {
            assert(call_ensures(judge.stop, (poll,), late(poll)));
        }
    }
    assert(can_be_heard(judge.stop, heard, from, to));
    if to < u64::MAX {
        assert forall|v: Valuation| #[trigger]
            v.scores_like(judge) && v.stops_as(heard, from, to) implies both(v) by {
            assert forall|poll: u64| from <= poll < between implies #[trigger] (v.stop)(poll)
                == early(poll) by {
                assert((v.stop)(poll) == heard(poll));
            }
            assert forall|poll: u64| between <= poll < to implies #[trigger] (v.stop)(poll)
                == late(poll) by {
                assert((v.stop)(poll) == heard(poll));
            }
            assert(v.stops_as(early, from, between));
            assert(v.stops_as(late, between, to));
        }
    }
}

/// What follows from a thing that was heard was heard.
pub proof fn what_follows_was_heard<E, C, S>(
    judge: Judge<E, C, S>,
    from: u64,
    to: u64,
    first: spec_fn(Valuation) -> bool,
    second: spec_fn(Valuation) -> bool,
) where E: Fn(&Game) -> i64, C: Fn(&Vec<WeightedValue>) -> i64, S: Fn(u64) -> bool
    requires
        is_true_as_heard(judge, from, to, first),
        forall|v: Valuation| #[trigger] v.scores_like(judge) && first(v) ==> second(v),
    ensures
        is_true_as_heard(judge, from, to, second),
{
}

/// A thing that was heard of a judge is true of every valuation that describes it.
pub proof fn a_description_fits_what_was_heard<E, C, S>(
    judge: Judge<E, C, S>,
    from: u64,
    to: u64,
    thing: spec_fn(Valuation) -> bool,
    v: Valuation,
) where E: Fn(&Game) -> i64, C: Fn(&Vec<WeightedValue>) -> i64, S: Fn(u64) -> bool
    requires
        is_true_as_heard(judge, from, to, thing),
        to < u64::MAX,
        v.describes(judge),
    ensures
        thing(v),
{
    let heard = choose|heard: spec_fn(u64) -> bool| #[trigger]
        can_be_heard(judge.stop, heard, from, to) && (to < u64::MAX ==> forall|v: Valuation|
            #[trigger] v.scores_like(judge) && v.stops_as(heard, from, to) ==> thing(v));
    assert forall|poll: u64| from <= poll < to implies #[trigger] (v.stop)(poll) == heard(
        poll,
    ) by {
        assert(call_ensures(judge.stop, (poll,), heard(poll)));
    }
    assert(v.stops_as(heard, from, to));
}

/// The number of moves for which a position must have room to be searched to a depth.
pub open spec fn search_room(depth: u8) -> int {
    EVALUATION_ROOM + depth
}

/// The number of moves for which an outcome must have room to be searched on.
pub open spec fn outcome_room(depth: u8) -> int {
    if depth == 0 {
        EVALUATION_ROOM as int
    } else {
        EVALUATION_ROOM + depth - 1
    }
}

/// Whether outcomes can be searched on.
pub open spec fn can_be_searched(outcomes: Seq<Outcome>, room: int) -> bool {
    forall|i: int|
        0 <= i < outcomes.len() ==> (#[trigger] outcomes[i])@.state.is_sound()
            && outcomes[i]@.state.has_room_for(room)
}

/// A move that can be made, with the ways in which it can turn out.
pub struct MoveCandidate {
    pub direction: Direction,
    pub outcomes: Vec<Outcome>,
    pub score: i64,
}

/// The moves that can be made, and the order in which they are tried.
pub struct MoveCandidates {
    pub items: Vec<MoveCandidate>,
    pub order: Vec<usize>,
}

impl MoveCandidates {
    /// The candidates in their order.
    pub open spec fn directions(self) -> Seq<Direction> {
        Seq::new(self.order@.len(), |i: int| self.items@[self.order@[i] as int].direction)
    }

    /// Whether the candidates are moves of a game, with their outcomes.
    pub open spec fn belong_to(self, game: GameModel, room: int) -> bool {
        &&& forall|i: int|
            0 <= i < self.order@.len() ==> #[trigger] self.order@[i] < self.items@.len()
        &&& forall|i: int|
            0 <= i < self.items@.len() ==> outcome_models((#[trigger] self.items@[i]).outcomes@)
                == game.outcomes(self.items@[i].direction) && moves(
                game.board,
                self.items@[i].direction,
            ) && can_be_searched(self.items@[i].outcomes@, room)
    }
}

/// The score that is to be expected of a move if the search ended right after it.
pub fn quick_outcome_value<E, C, S>(
    outcomes: &Vec<Outcome>,
    judge: &Judge<E, C, S>,
) -> (value: i64) where
    E: Fn(&Game) -> i64,
    C: Fn(&Vec<WeightedValue>) -> i64,
    S: Fn(u64) -> bool,

    requires
        judge.is_ready(),
        can_be_searched(outcomes@, EVALUATION_ROOM as int),
    ensures
        forall|v: Valuation| #[trigger]
            v.scores_like(*judge) ==> value == v.quick_value(outcome_models(outcomes@)),
{
    let mut values: Vec<WeightedValue> = Vec::new();
    let evaluate = &judge.evaluate;
    let expect = &judge.expect;
    let mut i: usize = 0;
    while i < outcomes.len()
        invariant
            i <= outcomes@.len(),
            values@.len() == i,
            judge.is_ready(),
            *evaluate == judge.evaluate,
            can_be_searched(outcomes@, EVALUATION_ROOM as int),
            forall|v: Valuation, j: int|
                #[trigger] v.scores_like(*judge) && 0 <= j < i ==> #[trigger] values@[j]
                    == weighted(outcomes@[j]@, (v.evaluate)(outcomes@[j]@.state)),
        decreases outcomes@.len() - i,
    {
        let value: i64 = evaluate(outcomes[i].game());
        values.push(
            WeightedValue {
                spawn_probability: outcomes[i].spawn_probability,
                rank_probability: outcomes[i].rank_probability,
                value,
            },
        );
        i = i + 1;
    }
    let value: i64 = expect(&values);
    proof {
        assert forall|v: Valuation| #[trigger] v.scores_like(*judge) implies value
            == v.quick_value(outcome_models(outcomes@)) by {
            assert(values@ =~= v.weights(outcome_models(outcomes@)));
        }
    }
    value
}

/// Those of some moves that can be made, the most promising first, with their outcomes.
pub fn ordered_move_candidates<E, C, S>(
    game: &Game,
    legal: &Vec<Direction>,
    judge: &Judge<E, C, S>,
) -> (candidates: MoveCandidates) where
    E: Fn(&Game) -> i64,
    C: Fn(&Vec<WeightedValue>) -> i64,
    S: Fn(u64) -> bool,

    requires
        judge.is_ready(),
        game@.is_sound(),
        game@.has_room_for(EVALUATION_ROOM + 1),
    ensures
        forall|room: int|
            0 <= room < 60000 && game@.has_room_for(room + 1) ==> #[trigger] candidates.belong_to(
                game@,
                room,
            ),
        candidates.order@.len() == playable_of(game@, legal@).len(),
        forall|i: int|
            0 <= i < candidates.directions().len() ==> moves(
                game@.board,
                #[trigger] candidates.directions()[i],
            ) && legal@.contains(candidates.directions()[i]),
        forall|v: Valuation| #[trigger]
            v.scores_like(*judge) ==> candidates.directions() == v.candidates(game@, legal@),
{
    let ghost can_move = |direction: Direction| moves(game@.board, direction);
    let mut items: Vec<MoveCandidate> = Vec::new();
    let mut scores: Vec<i64> = Vec::new();
    let mut i: usize = 0;
    proof {
        assert(legal@.take(0) =~= Seq::empty());
        reveal(Seq::filter);
    }
    while i < legal.len()
        invariant
            i <= legal@.len(),
            judge.is_ready(),
            game@.is_sound(),
            game@.has_room_for(EVALUATION_ROOM + 1),
            can_move == (|direction: Direction| moves(game@.board, direction)),
            scores@.len() == items@.len(),
            items@.len() == legal@.take(i as int).filter(can_move).len(),
            forall|j: int|
                0 <= j < items@.len() ==> {
                    &&& (#[trigger] items@[j]).direction == legal@.take(i as int).filter(
                        can_move,
                    )[j]
                    &&& outcome_models(items@[j].outcomes@) == game@.outcomes(items@[j].direction)
                    &&& moves(game@.board, items@[j].direction)
                    &&& legal@.contains(items@[j].direction)
                },
            forall|j: int, room: int|
                0 <= j < items@.len() && 0 <= room < 60000 && #[trigger] game@.has_room_for(
                    room + 1,
                ) ==> can_be_searched((#[trigger] items@[j]).outcomes@, room),
            forall|v: Valuation, j: int|
                #[trigger] v.scores_like(*judge) && 0 <= j < items@.len() ==> #[trigger] scores@[j]
                    == v.quick_value(game@.outcomes(items@[j].direction)),
        decreases legal@.len() - i,
    {
        let direction = legal[i];
        let outcomes: Vec<Outcome> = game.preview_outcomes(direction);
        proof {
            assert(legal@.take(i + 1) =~= legal@.take(i as int).push(direction));
            legal@.take(i as int).lemma_filter_push(direction, can_move);
            assert forall|room: int|
                0 <= room < 60000 && #[trigger] game@.has_room_for(
                    room + 1,
                ) implies can_be_searched(outcomes@, room) by {
                assert forall|k: int| 0 <= k < outcomes@.len() implies {
                    &&& (#[trigger] outcomes@[k])@.state.is_sound()
                    &&& outcomes@[k]@.state.has_room_for(room)
                } by {
                    assert(outcomes@[k]@.state.has_room_for((room + 1) - 1));
                }
            }
        }
        if outcomes.len() > 0 {
            let score: i64 = quick_outcome_value(&outcomes, judge);
            scores.push(score);
            items.push(MoveCandidate { direction, outcomes, score });
        }
        i = i + 1;
    }
    let order: Vec<usize> = rank_by_score(&scores);
    let candidates = MoveCandidates { items, order };
    proof {
        assert(legal@.take(legal@.len() as int) =~= legal@);
        assert(playable_of(game@, legal@) == legal@.filter(can_move));
        assert forall|v: Valuation| #[trigger]
            v.scores_like(*judge) implies candidates.directions() == v.candidates(
            game@,
            legal@,
        ) by {
            let playable = playable_of(game@, legal@);
            assert(scores@ =~= v.quick_values(game@, playable));
            assert(candidates.directions() =~= v.candidates(game@, legal@));
        }
    }
    candidates
}

spec fn weighing_stands_at(
    dfs: bool,
    outcomes: Seq<OutcomeModel>,
    depth: u8,
    alpha: i64,
    beta: i64,
    first: SearchState,
    done: Seq<WeightedValue>,
    now: SearchState,
) -> spec_fn(Valuation) -> bool {
    |v: Valuation|
        v.dfs == dfs ==> v.weighed(outcomes, depth, alpha, beta, Seq::empty(), first)
            == v.weighed(outcomes, depth, alpha, beta, done, now)
}

/// The score that is to be expected of some outcomes.
pub fn expected_value_for_move_with_outcomes<E, C, S>(
    cache: &mut AbCache,
    dfs: bool,
    outcomes: &Vec<Outcome>,
    depth: u8,
    alpha: i64,
    beta: i64,
    budget: &mut SearchBudget,
    judge: &Judge<E, C, S>,
) -> (value: i64) where
    E: Fn(&Game) -> i64,
    C: Fn(&Vec<WeightedValue>) -> i64,
    S: Fn(u64) -> bool,

    requires
        old(cache).is_sound(),
        judge.is_ready(),
        can_be_searched(outcomes@, outcome_room(depth)),
    ensures
        final(cache).is_sound(),
        keeps_the_limit(*old(budget), *final(budget)),
        forall|low: i64, high: i64| #[trigger]
            judge.scores_within(low, high) ==> low <= value <= high,
        forall|v: Valuation| #[trigger]
            v.describes(*judge) && v.dfs == dfs ==> v.weighed(
                outcome_models(outcomes@),
                depth,
                alpha,
                beta,
                Seq::empty(),
                state_of(*old(cache), *old(budget)),
            ) == (value, state_of(*final(cache), *final(budget))),
        is_true_as_heard(
            *judge,
            old(budget).polls,
            final(budget).polls,
            weighs_to(
                dfs,
                outcome_models(outcomes@),
                depth,
                alpha,
                beta,
                state_of(*old(cache), *old(budget)),
                (value, state_of(*final(cache), *final(budget))),
            ),
        ),
    decreases depth, 0int,
{
    let ghost models = outcome_models(outcomes@);
    let ghost first = state_of(*cache, *budget);
    let ghost first_budget = *budget;
    let mut values: Vec<WeightedValue> = Vec::new();
    let evaluate = &judge.evaluate;
    let expect = &judge.expect;
    let mut i: usize = 0;
    assert(values@ =~= Seq::empty());
    proof {
        nothing_was_asked(
            *judge,
            first_budget.polls,
            weighing_stands_at(dfs, models, depth, alpha, beta, first, values@, first),
        );
    }
    while i < outcomes.len()
        invariant
            i <= outcomes@.len(),
            values@.len() == i,
            is_true_as_heard(
                *judge,
                first_budget.polls,
                budget.polls,
                weighing_stands_at(
                    dfs,
                    models,
                    depth,
                    alpha,
                    beta,
                    first,
                    values@,
                    state_of(*cache, *budget),
                ),
            ),
            first == state_of(*old(cache), *old(budget)),
            first_budget == *old(budget),
            cache.is_sound(),
            judge.is_ready(),
            *evaluate == judge.evaluate,
            models == outcome_models(outcomes@),
            can_be_searched(outcomes@, outcome_room(depth)),
            keeps_the_limit(first_budget, *budget),
            forall|v: Valuation| #[trigger]
                v.describes(*judge) && v.dfs == dfs ==> v.weighed(
                    models,
                    depth,
                    alpha,
                    beta,
                    Seq::empty(),
                    first,
                ) == v.weighed(models, depth, alpha, beta, values@, state_of(*cache, *budget)),
        decreases outcomes@.len() - i,
    {
        let outcome = &outcomes[i];
        assert(models[i as int] == outcome@);
        let ghost at = state_of(*cache, *budget);
        let ghost earlier = values@;
        let ghost stands = weighing_stands_at(
            dfs,
            models,
            depth,
            alpha,
            beta,
            first,
            earlier,
            at,
        );
        if !budget.can_continue(&judge.stop) {
            let value: i64 = evaluate(outcome.game());
            proof {
                a_poll_was_asked(*judge, at.budget, false);
                one_thing_was_heard_after_another(
                    *judge,
                    first_budget.polls,
                    at.budget.polls,
                    budget.polls,
                    stands,
                    lets_go_on(at.budget, false),
                    weighs_to(
                        dfs,
                        models,
                        depth,
                        alpha,
                        beta,
                        first,
                        (value, state_of(*cache, *budget)),
                    ),
                );
            }
            return value;
        }
        let ghost asked = state_of(*cache, *budget);
        let ghost goes_on = |v: Valuation| stands(v) && lets_go_on(at.budget, true)(v);
        proof {
            a_poll_was_asked(*judge, at.budget, true);
            one_thing_was_heard_after_another(
                *judge,
                first_budget.polls,
                at.budget.polls,
                asked.budget.polls,
                stands,
                lets_go_on(at.budget, true),
                goes_on,
            );
        }
        let value: i64 = if depth <= 1 || outcome.game().is_game_over() {
            evaluate(outcome.game())
        } else {
            search_with_budget(
                cache,
                dfs,
                outcome.game(),
                depth - 1,
                alpha,
                beta,
                budget,
                judge,
            )
        };
        proof {
            let now = state_of(*cache, *budget);
            let done = earlier.push(weighted(outcome@, value));
            let stands_next = weighing_stands_at(
                dfs,
                models,
                depth,
                alpha,
                beta,
                first,
                done,
                now,
            );
            if depth <= 1 || outcome@.state.is_over() {
                what_follows_was_heard(
                    *judge,
                    first_budget.polls,
                    asked.budget.polls,
                    goes_on,
                    stands_next,
                );
            } else {
                one_thing_was_heard_after_another(
                    *judge,
                    first_budget.polls,
                    asked.budget.polls,
                    budget.polls,
                    goes_on,
                    searches_to(
                        dfs,
                        outcome@.state,
                        (depth - 1) as u8,
                        alpha,
                        beta,
                        asked,
                        (value, now),
                    ),
                    stands_next,
                );
            }
        }
        values.push(
            WeightedValue {
                spawn_probability: outcome.spawn_probability,
                rank_probability: outcome.rank_probability,
                value,
            },
        );
        i = i + 1;
    }
    let value: i64 = expect(&values);
    proof {
        what_follows_was_heard(
            *judge,
            first_budget.polls,
            budget.polls,
            weighing_stands_at(
                dfs,
                models,
                depth,
                alpha,
                beta,
                first,
                values@,
                state_of(*cache, *budget),
            ),
            weighs_to(
                dfs,
                models,
                depth,
                alpha,
                beta,
                first,
                (value, state_of(*cache, *budget)),
            ),
        );
    }
    value
}

spec fn search_stands_at(
    dfs: bool,
    game: GameModel,
    depth: u8,
    window: (i64, i64),
    first: SearchState,
    narrowed: (i64, i64),
    entered: SearchState,
    order: Seq<Direction>,
    now: (int, i64, i64, bool, SearchState),
) -> spec_fn(Valuation) -> bool {
    |v: Valuation|
        v.dfs == dfs ==> v.searched(game, depth, window.0, window.1, first) == v.expanded(
            game,
            depth,
            window.0,
            narrowed.0,
            narrowed.1,
            entered,
        ) && v.tried(game, order, 0, depth, LOWEST_SCORE, narrowed.0, narrowed.1, entered) == (
        if now.3 {
            Trial { best: now.1, cut_off: true, stopped: false, state: now.4 }
        } else {
            v.tried(game, order, now.0, depth, now.1, now.2, narrowed.1, now.4)
        })
}

/// The score of a position that is searched to a depth within a window. A value that the cache
/// holds is used, and what the search finds out goes into the cache.
pub fn search_with_budget<E, C, S>(
    cache: &mut AbCache,
    dfs: bool,
    game: &Game,
    depth: u8,
    alpha: i64,
    beta: i64,
    budget: &mut SearchBudget,
    judge: &Judge<E, C, S>,
) -> (value: i64) where
    E: Fn(&Game) -> i64,
    C: Fn(&Vec<WeightedValue>) -> i64,
    S: Fn(u64) -> bool,

    requires
        old(cache).is_sound(),
        judge.is_ready(),
        game@.is_sound(),
        game@.has_room_for(search_room(depth)),
    ensures
        final(cache).is_sound(),
        keeps_the_limit(*old(budget), *final(budget)),
        forall|v: Valuation| #[trigger]
            v.describes(*judge) && v.dfs == dfs ==> v.searched(
                game@,
                depth,
                alpha,
                beta,
                state_of(*old(cache), *old(budget)),
            ) == (value, state_of(*final(cache), *final(budget))),
        is_true_as_heard(
            *judge,
            old(budget).polls,
            final(budget).polls,
            searches_to(
                dfs,
                game@,
                depth,
                alpha,
                beta,
                state_of(*old(cache), *old(budget)),
                (value, state_of(*final(cache), *final(budget))),
            ),
        ),
    decreases depth, 1int,
{
    let ghost first = state_of(*cache, *budget);
    let ghost first_budget = *budget;
    let evaluate = &judge.evaluate;
    let mut low: i64 = alpha;
    let mut high: i64 = beta;
    if !budget.can_continue(&judge.stop) {
        let value: i64 = evaluate(game);
        proof {
            a_poll_was_asked(*judge, first_budget, false);
            what_follows_was_heard(
                *judge,
                first_budget.polls,
                budget.polls,
                lets_go_on(first_budget, false),
                searches_to(
                    dfs,
                    game@,
                    depth,
                    alpha,
                    beta,
                    first,
                    (value, state_of(*cache, *budget)),
                ),
            );
        }
        return value;
    }
    let ghost starts = lets_go_on(first_budget, true);
    proof {
        a_poll_was_asked(*judge, first_budget, true);
    }
    budget.record_node();
    let key = AbCacheKey::new(game, depth, dfs);
    let found: Option<AbCacheEntry> = cached_entry(cache, &key, budget);
    assert(state_of(*cache, *budget) == first.entered(key@));
    if let Some(entry) = found {
        match entry.bound {
            AbCacheBound::Exact => {
                proof {
                    what_follows_was_heard(
                        *judge,
                        first_budget.polls,
                        budget.polls,
                        starts,
                        searches_to(
                            dfs,
                            game@,
                            depth,
                            alpha,
                            beta,
                            first,
                            (entry.value, state_of(*cache, *budget)),
                        ),
                    );
                }
                return entry.value;
            },
            AbCacheBound::Lower => {
                if low < entry.value {
                    low = entry.value;
                }
            },
            AbCacheBound::Upper => {
                if entry.value < high {
                    high = entry.value;
                }
            },
        }
        if low >= high {
            budget.record_prune();
            proof {
                what_follows_was_heard(
                    *judge,
                    first_budget.polls,
                    budget.polls,
                    starts,
                    searches_to(
                        dfs,
                        game@,
                        depth,
                        alpha,
                        beta,
                        first,
                        (entry.value, state_of(*cache, *budget)),
                    ),
                );
            }
            return entry.value;
        }
    }
    let ghost entered = state_of(*cache, *budget);
    assert(forall|v: Valuation| #[trigger]
        v.describes(*judge) && v.dfs == dfs ==> v.searched(game@, depth, alpha, beta, first)
            == v.expanded(game@, depth, alpha, low, high, entered));
    if depth == 0 || game.is_game_over() {
        let value: i64 = evaluate(game);
        store_cached_value(cache, key, value, AbCacheBound::Exact);
        proof {
            what_follows_was_heard(
                *judge,
                first_budget.polls,
                budget.polls,
                starts,
                searches_to(
                    dfs,
                    game@,
                    depth,
                    alpha,
                    beta,
                    first,
                    (value, state_of(*cache, *budget)),
                ),
            );
        }
        return value;
    }
    let legal: Vec<Direction> = game.legal_directions();
    let candidates = ordered_move_candidates(game, &legal, judge);
    let ghost order = candidates.directions();
    let ghost first_low = low;
    assert(game@.has_room_for(outcome_room(depth) + 1));
    assert(candidates.belong_to(game@, outcome_room(depth)));
    let mut best: i64 = LOWEST_SCORE;
    let mut cut_off = false;
    let mut i: usize = 0;
    proof {
        what_follows_was_heard(
            *judge,
            first_budget.polls,
            budget.polls,
            starts,
            search_stands_at(
                dfs,
                game@,
                depth,
                (alpha, beta),
                first,
                (first_low, high),
                entered,
                order,
                (0, best, low, cut_off, state_of(*cache, *budget)),
            ),
        );
    }
    while i < candidates.order.len() && !cut_off
        invariant
            i <= candidates.order@.len(),
            is_true_as_heard(
                *judge,
                first_budget.polls,
                budget.polls,
                search_stands_at(
                    dfs,
                    game@,
                    depth,
                    (alpha, beta),
                    first,
                    (first_low, high),
                    entered,
                    order,
                    (i as int, best, low, cut_off, state_of(*cache, *budget)),
                ),
            ),
            depth > 0,
            first == state_of(*old(cache), *old(budget)),
            first_budget == *old(budget),
            cache.is_sound(),
            judge.is_ready(),
            *evaluate == judge.evaluate,
            game@.is_sound(),
            game@.has_room_for(search_room(depth)),
            !game@.is_over(),
            candidates.belong_to(game@, outcome_room(depth)),
            order == candidates.directions(),
            keeps_the_limit(first_budget, *budget),
            key@ == key_of(game@, depth, dfs),
            forall|v: Valuation| #[trigger]
                v.scores_like(*judge) ==> order == v.candidates(game@, legal_moves(game@.board)),
            forall|v: Valuation| #[trigger]
                v.describes(*judge) && v.dfs == dfs ==> v.searched(game@, depth, alpha, beta, first)
                    == v.expanded(game@, depth, alpha, first_low, high, entered),
            forall|v: Valuation| #[trigger]
                v.describes(*judge) && v.dfs == dfs ==> v.tried(
                    game@,
                    order,
                    0,
                    depth,
                    LOWEST_SCORE,
                    first_low,
                    high,
                    entered,
                ) == (if cut_off {
                    Trial {
                        best,
                        cut_off: true,
                        stopped: false,
                        state: state_of(*cache, *budget),
                    }
                } else {
                    v.tried(
                        game@,
                        order,
                        i as int,
                        depth,
                        best,
                        low,
                        high,
                        state_of(*cache, *budget),
                    )
                }),
        decreases candidates.order@.len() - i,
    {
        let ghost at = state_of(*cache, *budget);
        let ghost stands = search_stands_at(
            dfs,
            game@,
            depth,
            (alpha, beta),
            first,
            (first_low, high),
            entered,
            order,
            (i as int, best, low, false, at),
        );
        let ghost at_low = low;
        if !budget.can_continue(&judge.stop) {
            let value: i64 = evaluate(game);
            proof {
                a_poll_was_asked(*judge, at.budget, false);
                one_thing_was_heard_after_another(
                    *judge,
                    first_budget.polls,
                    at.budget.polls,
                    budget.polls,
                    stands,
                    lets_go_on(at.budget, false),
                    searches_to(
                        dfs,
                        game@,
                        depth,
                        alpha,
                        beta,
                        first,
                        (value, state_of(*cache, *budget)),
                    ),
                );
            }
            return value;
        }
        let ghost asked = state_of(*cache, *budget);
        let ghost goes_on = |v: Valuation| stands(v) && lets_go_on(at.budget, true)(v);
        proof {
            a_poll_was_asked(*judge, at.budget, true);
            one_thing_was_heard_after_another(
                *judge,
                first_budget.polls,
                at.budget.polls,
                asked.budget.polls,
                stands,
                lets_go_on(at.budget, true),
                goes_on,
            );
        }
        let item: usize = candidates.order[i];
        let candidate = &candidates.items[item];
        assert(order[i as int] == candidate.direction);
        let value: i64 = expected_value_for_move_with_outcomes(
            cache,
            dfs,
            &candidate.outcomes,
            depth,
            low,
            high,
            budget,
            judge,
        );
        let ghost weighed = state_of(*cache, *budget);
        if best < value {
            best = value;
        }
        if low < best {
            low = best;
        }
        if low >= high {
            budget.record_prune();
            cut_off = true;
        }
        i = i + 1;
        proof {
            one_thing_was_heard_after_another(
                *judge,
                first_budget.polls,
                asked.budget.polls,
                budget.polls,
                goes_on,
                weighs_to(
                    dfs,
                    outcome_models(candidate.outcomes@),
                    depth,
                    at_low,
                    high,
                    asked,
                    (value, weighed),
                ),
                search_stands_at(
                    dfs,
                    game@,
                    depth,
                    (alpha, beta),
                    first,
                    (first_low, high),
                    entered,
                    order,
                    (i as int, best, low, cut_off, state_of(*cache, *budget)),
                ),
            );
        }
    }
    let bound = if !cut_off {
        AbCacheBound::Exact
    } else if best <= alpha {
        AbCacheBound::Upper
    } else {
        AbCacheBound::Lower
    };
    let ghost stands = search_stands_at(
        dfs,
        game@,
        depth,
        (alpha, beta),
        first,
        (first_low, high),
        entered,
        order,
        (i as int, best, low, cut_off, state_of(*cache, *budget)),
    );
    store_cached_value(cache, key, best, bound);
    proof {
        what_follows_was_heard(
            *judge,
            first_budget.polls,
            budget.polls,
            stands,
            searches_to(
                dfs,
                game@,
                depth,
                alpha,
                beta,
                first,
                (best, state_of(*cache, *budget)),
            ),
        );
    }
    best
}

/// What the cache holds of a key; the look into it is counted.
pub fn cached_entry(cache: &AbCache, key: &AbCacheKey, budget: &mut SearchBudget) -> (found: Option<
    AbCacheEntry,
>)
    requires
        cache.is_sound(),
    ensures
        found == looked_up(cache@, key@),
        *final(budget) == old(budget).probed(found is Some),
{
    let found: Option<AbCacheEntry> = cache.get(key);
    if found.is_some() {
        budget.record_cache_hit();
    } else {
        budget.record_cache_miss();
    }
    found
}

/// Puts a value into the cache.
pub fn store_cached_value(cache: &mut AbCache, key: AbCacheKey, value: i64, bound: AbCacheBound)
    requires
        old(cache).is_sound(),
    ensures
        final(cache).is_sound(),
        final(cache)@ == stored(old(cache)@, key@, AbCacheEntry { value, bound }),
{
    cache.store(key, AbCacheEntry { value, bound });
}

/// The score that is to be expected of a move; the lowest score where the move moves nothing.
pub fn expected_value_for_move<E, C, S>(
    cache: &mut AbCache,
    dfs: bool,
    game: &Game,
    direction: Direction,
    depth: u8,
    alpha: i64,
    beta: i64,
    budget: &mut SearchBudget,
    judge: &Judge<E, C, S>,
) -> (value: i64) where
    E: Fn(&Game) -> i64,
    C: Fn(&Vec<WeightedValue>) -> i64,
    S: Fn(u64) -> bool,

    requires
        old(cache).is_sound(),
        judge.is_ready(),
        game@.is_sound(),
        game@.has_room_for(outcome_room(depth) + 1),
    ensures
        final(cache).is_sound(),
        keeps_the_limit(*old(budget), *final(budget)),
        forall|low: i64, high: i64|
            #[trigger] judge.scores_within(low, high) && moves(game@.board, direction) ==> low
                <= value <= high,
        forall|v: Valuation| #[trigger]
            v.describes(*judge) && v.dfs == dfs ==> v.move_value(
                game@,
                direction,
                depth,
                alpha,
                beta,
                state_of(*old(cache), *old(budget)),
            ) == (value, state_of(*final(cache), *final(budget))),
        is_true_as_heard(
            *judge,
            old(budget).polls,
            final(budget).polls,
            move_comes_to(
                dfs,
                game@,
                direction,
                depth,
                alpha,
                beta,
                state_of(*old(cache), *old(budget)),
                (value, state_of(*final(cache), *final(budget))),
            ),
        ),
{
    let ghost first = state_of(*cache, *budget);
    let outcomes: Vec<Outcome> = game.preview_outcomes(direction);
    if outcomes.len() == 0 {
        proof {
            nothing_was_asked(
                *judge,
                budget.polls,
                move_comes_to(
                    dfs,
                    game@,
                    direction,
                    depth,
                    alpha,
                    beta,
                    first,
                    (LOWEST_SCORE, first),
                ),
            );
        }
        return LOWEST_SCORE;
    }
    proof {
        assert forall|k: int| 0 <= k < outcomes@.len() implies {
            &&& (#[trigger] outcomes@[k])@.state.is_sound()
            &&& outcomes@[k]@.state.has_room_for(outcome_room(depth))
        } by {
            assert(outcomes@[k]@.state.has_room_for((outcome_room(depth) + 1) - 1));
        }
    }
    let value: i64 = expected_value_for_move_with_outcomes(
        cache,
        dfs,
        &outcomes,
        depth,
        alpha,
        beta,
        budget,
        judge,
    );
    proof {
        let result = (value, state_of(*cache, *budget));
        what_follows_was_heard(
            *judge,
            first.budget.polls,
            budget.polls,
            weighs_to(dfs, game@.outcomes(direction), depth, alpha, beta, first, result),
            move_comes_to(dfs, game@, direction, depth, alpha, beta, first, result),
        );
    }
    value
}

} // verus!

//! Plans: a narrow look ahead from a position along its most promising outcomes.

use crate::board::{legal_moves, moves, Direction};
use crate::game::{outcome_models, Game, GameModel, Outcome, OutcomeModel};
use crate::probability::Probability;
use crate::ranking::{rank_by_score, ranking};
use crate::search::{can_be_searched, higher};
use vstd::prelude::*;

verus! {

/// How many moves a plan looks ahead.
pub const DFS_PLAN_DEPTH: u8 = 4;

/// How many outcomes of a move a plan follows.
pub const DFS_PLAN_BEAM: usize = 2;

/// What a plan asks from outside. A score is a number by which positions compare: a higher one is
/// better.
pub struct Planner<P, A, W> {
    /// The score of what was gained since the start of the plan.
    pub progress: P,
    /// The score of such a gain after some moves.
    pub settle: A,
    /// The score of a way on, given the chances of its first step and the score at its end.
    pub weigh: W,
}

impl<P, A, W> Planner<P, A, W> where
    P: Fn(&Game) -> i64,
    A: Fn(i64, u8) -> i64,
    W: Fn(Probability, Probability, i64) -> i64,
 {
    /// Whether the planner takes everything that a plan can ask about.
    pub open spec fn is_ready(self) -> bool {
        &&& forall|game: &Game|
            game@.is_sound() && game@.has_room_for(0) ==> #[trigger] call_requires(
                self.progress,
                (game,),
            )
        &&& forall|gain: i64, ply: u8| #[trigger] call_requires(self.settle, (gain, ply))
        &&& forall|spawn: Probability, rank: Probability, value: i64| #[trigger]
            call_requires(self.weigh, (spawn, rank, value))
    }
}

/// The answers of a planner, as functions.
pub struct PlanValuation {
    pub progress: spec_fn(GameModel) -> i64,
    pub settle: spec_fn(i64, u8) -> i64,
    pub weigh: spec_fn(Probability, Probability, i64) -> i64,
}

impl PlanValuation {
    /// Whether a planner answers like this.
    pub open spec fn describes<P, A, W>(self, planner: Planner<P, A, W>) -> bool where
        P: Fn(&Game) -> i64,
        A: Fn(i64, u8) -> i64,
        W: Fn(Probability, Probability, i64) -> i64,
     {
        &&& forall|game: &Game, gain: i64| #[trigger]
            call_ensures(planner.progress, (game,), gain) ==> gain == (self.progress)(game@)
        &&& forall|gain: i64, ply: u8, score: i64| #[trigger]
            call_ensures(planner.settle, (gain, ply), score) ==> score == (self.settle)(gain, ply)
        &&& forall|spawn: Probability, rank: Probability, value: i64, score: i64| #[trigger]
            call_ensures(planner.weigh, (spawn, rank, value), score) ==> score == (self.weigh)(
                spawn,
                rank,
                value,
            )
    }

    /// The gains of some outcomes.
    pub open spec fn gains(self, outcomes: Seq<OutcomeModel>) -> Seq<i64> {
        Seq::new(outcomes.len(), |i: int| (self.progress)(outcomes[i].state))
    }

    /// The outcomes that a plan follows: those with the highest gains, the first ones among
    /// equals.
    pub open spec fn beam(self, outcomes: Seq<OutcomeModel>) -> Seq<OutcomeModel> {
        let order = ranking(self.gains(outcomes));
        let width = if order.len() < DFS_PLAN_BEAM {
            order.len()
        } else {
            DFS_PLAN_BEAM as nat
        };
        Seq::new(width, |i: int| outcomes[order[i] as int])
    }

    /// The score of the best plan from a position, so many moves deep, which was itself reached
    /// by so many moves.
    pub open spec fn planned(self, game: GameModel, depth: u8, ply: u8) -> i64
        decreases depth, 2int, 0int,
    {
        let immediate = (self.settle)((self.progress)(game), ply);
        if depth == 0 || game.is_over() {
            immediate
        } else {
            self.best_plan(game, legal_moves(game.board), 0, depth, ply, immediate)
        }
    }

    /// The best of a score and of the plans that start with one of the moves from some place on.
    pub open spec fn best_plan(
        self,
        game: GameModel,
        directions: Seq<Direction>,
        i: int,
        depth: u8,
        ply: u8,
        best: i64,
    ) -> i64
        decreases depth, 1int, directions.len() - i,
    {
        if i >= directions.len() {
            best
        } else {
            let beam = self.beam(game.outcomes(directions[i]));
            self.best_plan(
                game,
                directions,
                i + 1,
                depth,
                ply,
                self.best_way(beam, 0, depth, ply, best),
            )
        }
    }

    /// The best of a score and of the plans that go on from one of the outcomes from some place
    /// on.
    pub open spec fn best_way(
        self,
        beam: Seq<OutcomeModel>,
        j: int,
        depth: u8,
        ply: u8,
        best: i64,
    ) -> i64
        decreases depth, 0int, beam.len() - j,
    {
        if j >= beam.len() || depth == 0 {
            best
        } else {
            let value = self.planned(beam[j].state, (depth - 1) as u8, (ply + 1) as u8);
            let way = (self.weigh)(beam[j].spawn_probability, beam[j].rank_probability, value);
            self.best_way(beam, j + 1, depth, ply, higher(best, way))
        }
    }
}

fn gains_of<P, A, W>(outcomes: &Vec<Outcome>, planner: &Planner<P, A, W>) -> (gains: Vec<i64>) where
    P: Fn(&Game) -> i64,
    A: Fn(i64, u8) -> i64,
    W: Fn(Probability, Probability, i64) -> i64,

    requires
        planner.is_ready(),
        can_be_searched(outcomes@, 0),
    ensures
        gains@.len() == outcomes@.len(),
        forall|v: PlanValuation| #[trigger]
            v.describes(*planner) ==> gains@ == v.gains(outcome_models(outcomes@)),
{
    let mut gains: Vec<i64> = Vec::new();
    let progress = &planner.progress;
    let mut i: usize = 0;
    while i < outcomes.len()
        invariant
            i <= outcomes@.len(),
            gains@.len() == i,
            planner.is_ready(),
            *progress == planner.progress,
            can_be_searched(outcomes@, 0),
            forall|v: PlanValuation, j: int|
                #[trigger] v.describes(*planner) && 0 <= j < i ==> #[trigger] gains@[j] == (
                v.progress)(outcomes@[j]@.state),
        decreases outcomes@.len() - i,
    {
        let gain: i64 = progress(outcomes[i].game());
        gains.push(gain);
        i = i + 1;
    }
    proof {
        assert forall|v: PlanValuation| #[trigger] v.describes(*planner) implies gains@ == v.gains(
            outcome_models(outcomes@),
        ) by {
            assert(gains@ =~= v.gains(outcome_models(outcomes@)));
        }
    }
    gains
}

/// The score of the best plan from a position, so many moves deep, which was itself reached by so
/// many moves: the better of what it has gained itself and of where its moves lead. Of each move
/// only the outcomes with the highest gains are followed.
pub fn dfs_plan_visit<P, A, W>(
    game: &Game,
    depth: u8,
    ply: u8,
    planner: &Planner<P, A, W>,
) -> (score: i64) where
    P: Fn(&Game) -> i64,
    A: Fn(i64, u8) -> i64,
    W: Fn(Probability, Probability, i64) -> i64,

    requires
        planner.is_ready(),
        game@.is_sound(),
        game@.has_room_for(depth as int),
        depth + ply <= u8::MAX,
    ensures
        forall|v: PlanValuation| #[trigger]
            v.describes(*planner) ==> score == v.planned(game@, depth, ply),
    decreases depth,
{
    let progress = &planner.progress;
    let settle = &planner.settle;
    let weigh = &planner.weigh;
    assert(game@.has_room_for(0));
    let gain: i64 = progress(game);
    let immediate: i64 = settle(gain, ply);
    if depth == 0 || game.is_game_over() {
        return immediate;
    }
    let legal: Vec<Direction> = game.legal_directions();
    let mut best: i64 = immediate;
    let mut i: usize = 0;
    while i < legal.len()
        invariant
            i <= legal@.len(),
            depth > 0,
            legal@ == legal_moves(game@.board),
            planner.is_ready(),
            *weigh == planner.weigh,
            game@.is_sound(),
            game@.has_room_for(depth as int),
            depth + ply <= u8::MAX,
            forall|v: PlanValuation| #[trigger]
                v.describes(*planner) ==> v.planned(game@, depth, ply) == v.best_plan(
                    game@,
                    legal@,
                    i as int,
                    depth,
                    ply,
                    best,
                ),
        decreases legal@.len() - i,
    {
        assert(game@.has_room_for(1));
        let outcomes: Vec<Outcome> = game.preview_outcomes(legal[i]);
        let ghost models = outcome_models(outcomes@);
        proof {
            assert(can_be_searched(outcomes@, depth - 1));
            assert(can_be_searched(outcomes@, 0));
        }
        let gains: Vec<i64> = gains_of(&outcomes, planner);
        let order: Vec<usize> = rank_by_score(&gains);
        let ghost before = best;
        let mut j: usize = 0;
        while j < order.len() && j < DFS_PLAN_BEAM
            invariant
                j <= order@.len(),
                j <= DFS_PLAN_BEAM,
                depth > 0,
                depth + ply <= u8::MAX,
                planner.is_ready(),
                *weigh == planner.weigh,
                models == outcome_models(outcomes@),
                can_be_searched(outcomes@, depth - 1),
                order@ == ranking(gains@),
                order@.len() == outcomes@.len(),
                forall|k: int| 0 <= k < order@.len() ==> #[trigger] order@[k] < outcomes@.len(),
                forall|v: PlanValuation| #[trigger]
                    v.describes(*planner) ==> gains@ == v.gains(models),
                forall|v: PlanValuation| #[trigger]
                    v.describes(*planner) ==> v.best_way(v.beam(models), 0, depth, ply, before)
                        == v.best_way(v.beam(models), j as int, depth, ply, best),
            decreases order@.len() - j,
        {
            let outcome = &outcomes[order[j]];
            assert(models[order@[j as int] as int] == outcome@);
            let value: i64 = dfs_plan_visit(outcome.game(), depth - 1, ply + 1, planner);
            let way: i64 = weigh(outcome.spawn_probability, outcome.rank_probability, value);
            if best < way {
                best = way;
            }
            j = j + 1;
        }
        i = i + 1;
    }
    best
}

/// The score of the best plan from a position.
pub fn dfs_plan_score<P, A, W>(game: &Game, planner: &Planner<P, A, W>) -> (score: i64) where
    P: Fn(&Game) -> i64,
    A: Fn(i64, u8) -> i64,
    W: Fn(Probability, Probability, i64) -> i64,

    requires
        planner.is_ready(),
        game@.is_sound(),
        game@.has_room_for(DFS_PLAN_DEPTH as int),
    ensures
        forall|v: PlanValuation| #[trigger]
            v.describes(*planner) ==> score == v.planned(game@, DFS_PLAN_DEPTH, 0),
{
    dfs_plan_visit(game, DFS_PLAN_DEPTH, 0, planner)
}

proof fn lemma_ways_only_improve(
    v: PlanValuation,
    beam: Seq<OutcomeModel>,
    j: int,
    depth: u8,
    ply: u8,
    best: i64,
)
    ensures
        v.best_way(beam, j, depth, ply, best) >= best,
    decreases beam.len() - j,
{
    if j < beam.len() && depth > 0 {
        let value = v.planned(beam[j].state, (depth - 1) as u8, (ply + 1) as u8);
        let way = (v.weigh)(beam[j].spawn_probability, beam[j].rank_probability, value);
        lemma_ways_only_improve(v, beam, j + 1, depth, ply, higher(best, way));
    }
}

proof fn lemma_plans_only_improve(
    v: PlanValuation,
    game: GameModel,
    directions: Seq<Direction>,
    i: int,
    depth: u8,
    ply: u8,
    best: i64,
)
    ensures
        v.best_plan(game, directions, i, depth, ply, best) >= best,
    decreases directions.len() - i,
{
    if i < directions.len() {
        let beam = v.beam(game.outcomes(directions[i]));
        lemma_ways_only_improve(v, beam, 0, depth, ply, best);
        let improved = v.best_way(beam, 0, depth, ply, best);
        lemma_plans_only_improve(v, game, directions, i + 1, depth, ply, improved);
    }
}

/// A plan is never worth less than what the position itself has gained.
pub proof fn a_plan_is_worth_at_least_the_gain(
    v: PlanValuation,
    game: GameModel,
    depth: u8,
    ply: u8,
)
    ensures
        v.planned(game, depth, ply) >= (v.settle)((v.progress)(game), ply),
{
    let immediate = (v.settle)((v.progress)(game), ply);
    lemma_plans_only_improve(v, game, legal_moves(game.board), 0, depth, ply, immediate);
}

/// A plan looks four moves ahead and follows two outcomes of every move.
pub proof fn a_plan_is_deep_and_narrow(v: PlanValuation, outcomes: Seq<OutcomeModel>)
    requires
        outcomes.len() <= usize::MAX,
    ensures
        DFS_PLAN_DEPTH == 4,
        outcomes.len() >= 2 ==> v.beam(outcomes).len() == 2,
        outcomes.len() < 2 ==> v.beam(outcomes).len() == outcomes.len(),
{
    crate::ranking::the_ranking_is_a_stable_order(v.gains(outcomes));
}

/// The outcomes that a plan follows are outcomes of the move, and no outcome that it does not
/// follow has gained more than one that it does.
pub proof fn a_plan_follows_the_highest_gains(
    v: PlanValuation,
    outcomes: Seq<OutcomeModel>,
    i: int,
    other: int,
)
    requires
        outcomes.len() <= usize::MAX,
        0 <= i < v.beam(outcomes).len(),
        0 <= other < outcomes.len(),
    ensures
        outcomes.contains(v.beam(outcomes)[i]),
        v.beam(outcomes).contains(outcomes[other]) || (v.progress)(outcomes[other].state) <= (
        v.progress)(v.beam(outcomes)[i].state),
        i > 0 ==> (v.progress)(v.beam(outcomes)[i].state) <= (v.progress)(
            v.beam(outcomes)[i - 1].state,
        ),
{
    let gains = v.gains(outcomes);
    let order = ranking(gains);
    crate::ranking::the_ranking_is_a_stable_order(gains);
    assert(order[i] < outcomes.len());
    assert(outcomes[order[i] as int] == v.beam(outcomes)[i]);
    assert(order.contains(other as usize));
    let k = choose|k: int| 0 <= k < order.len() && order[k] == other as usize;
    if k < v.beam(outcomes).len() {
        assert(v.beam(outcomes)[k] == outcomes[other]);
    } else {
        crate::ranking::a_higher_score_comes_first(gains, i, k);
    }
    if i > 0 {
        crate::ranking::a_higher_score_comes_first(gains, i - 1, i);
    }
}

/// The score of a way on from an outcome that a plan follows.
pub open spec fn way_on(
    v: PlanValuation,
    game: GameModel,
    direction: Direction,
    j: int,
    depth: u8,
    ply: u8,
) -> i64 {
    let outcome = v.beam(game.outcomes(direction))[j];
    (v.weigh)(
        outcome.spawn_probability,
        outcome.rank_probability,
        v.planned(outcome.state, (depth - 1) as u8, (ply + 1) as u8),
    )
}

proof fn lemma_best_way(
    v: PlanValuation,
    game: GameModel,
    direction: Direction,
    j: int,
    depth: u8,
    ply: u8,
    best: i64,
)
    requires
        0 <= j,
        depth > 0,
    ensures
        ({
            let beam = v.beam(game.outcomes(direction));
            let found = v.best_way(beam, j, depth, ply, best);
            &&& found >= best
            &&& forall|k: int|
                j <= k < beam.len() ==> #[trigger] way_on(v, game, direction, k, depth, ply)
                    <= found
            &&& found == best || exists|k: int|
                j <= k < beam.len() && #[trigger] way_on(v, game, direction, k, depth, ply)
                    == found
        }),
    decreases v.beam(game.outcomes(direction)).len() - j,
{
    let beam = v.beam(game.outcomes(direction));
    if j < beam.len() {
        let way = way_on(v, game, direction, j, depth, ply);
        lemma_best_way(v, game, direction, j + 1, depth, ply, higher(best, way));
    }
}

proof fn lemma_best_plan(
    v: PlanValuation,
    game: GameModel,
    directions: Seq<Direction>,
    i: int,
    depth: u8,
    ply: u8,
    best: i64,
)
    requires
        0 <= i,
        depth > 0,
    ensures
        ({
            let found = v.best_plan(game, directions, i, depth, ply, best);
            &&& found >= best
            &&& forall|d: int, k: int|
                i <= d < directions.len() && 0 <= k < v.beam(game.outcomes(directions[d])).len()
                    ==> #[trigger] way_on(v, game, directions[d], k, depth, ply) <= found
            &&& found == best || exists|d: int, k: int|
                i <= d < directions.len() && 0 <= k < v.beam(game.outcomes(directions[d])).len()
                    && #[trigger] way_on(v, game, directions[d], k, depth, ply) == found
        }),
    decreases directions.len() - i,
{
    if i < directions.len() {
        let beam = v.beam(game.outcomes(directions[i]));
        lemma_best_way(v, game, directions[i], 0, depth, ply, best);
        let improved = v.best_way(beam, 0, depth, ply, best);
        lemma_best_plan(v, game, directions, i + 1, depth, ply, improved);
        let found = v.best_plan(game, directions, i, depth, ply, best);
        if found == improved && improved != best {
            let k = choose|k: int|
                0 <= k < beam.len() && #[trigger] way_on(v, game, directions[i], k, depth, ply)
                    == improved;
            assert(way_on(v, game, directions[i], k, depth, ply) == found);
        }
        assert forall|d: int, k: int|
            i <= d < directions.len() && 0 <= k < v.beam(
                game.outcomes(directions[d]),
            ).len() implies #[trigger] way_on(v, game, directions[d], k, depth, ply) <= found by {
            if d == i {
                assert(way_on(v, game, directions[i], k, depth, ply) <= improved);
            }
        }
    }
}

/// The best plan from a position is the best of staying with what it has gained and of going on
/// along any outcome that is followed after any legal move: none of them is better, and one of them
/// is just as good. At the end of the plan, and where the game is over, only the gain counts.
pub proof fn the_best_plan_is_the_best_way_on(
    v: PlanValuation,
    game: GameModel,
    depth: u8,
    ply: u8,
)
    ensures
        depth == 0 || game.is_over() ==> v.planned(game, depth, ply) == (v.settle)(
            (v.progress)(game),
            ply,
        ),
        depth > 0 && !game.is_over() ==> {
            let score = v.planned(game, depth, ply);
            let staying = (v.settle)((v.progress)(game), ply);
            &&& score >= staying
            &&& forall|direction: Direction, k: int|
                moves(game.board, direction) && 0 <= k < v.beam(game.outcomes(direction)).len()
                    ==> #[trigger] way_on(v, game, direction, k, depth, ply) <= score
            &&& score == staying || exists|direction: Direction, k: int|
                moves(game.board, direction) && 0 <= k < v.beam(game.outcomes(direction)).len()
                    && #[trigger] way_on(v, game, direction, k, depth, ply) == score
        },
{
    if depth > 0 && !game.is_over() {
        let legal = legal_moves(game.board);
        let staying = (v.settle)((v.progress)(game), ply);
        let score = v.planned(game, depth, ply);
        crate::game_laws::the_list_of_legal_moves_is_exact(game.board);
        lemma_best_plan(v, game, legal, 0, depth, ply, staying);
        assert forall|direction: Direction, k: int|
            moves(game.board, direction) && 0 <= k < v.beam(
                game.outcomes(direction),
            ).len() implies #[trigger] way_on(v, game, direction, k, depth, ply) <= score by {
            assert(legal.contains(direction));
            let d = choose|d: int| 0 <= d < legal.len() && legal[d] == direction;
            assert(way_on(v, game, legal[d], k, depth, ply) <= score);
        }
        if score != staying {
            let (d, k) = choose|d: int, k: int|
                0 <= d < legal.len() && 0 <= k < v.beam(game.outcomes(legal[d])).len()
                    && #[trigger] way_on(v, game, legal[d], k, depth, ply) == score;
            assert(legal.contains(legal[d]));
            assert(way_on(v, game, legal[d], k, depth, ply) == score);
        }
    }
}

} // verus!

//! What holds of every game.

use crate::board::{
    direction_number, face_of, free_cells, highest, legal_among, legal_mask, legal_moves, line_at,
    line_moves, merged_cells_of, moved_lines_of, moves, push_fits, saturated, slid_cells,
    total_points, Direction,
};
use crate::board_laws::{exact_points, exact_total, total};
use crate::dice::Dice;
use crate::draw::{
    a_part_holds_no_more, fresh_draw, occurrences, replacing_an_item_changes_two_counts, DrawModel,
};
use crate::game::{
    dealt, entries_after, entry_cell, faces_differ, is_the_one_that_shows, moment_seed,
    reading_seed, GameModel, OutcomeModel,
};
use crate::probability::{always, never, one_in, Probability};
use crate::tile::SpawnSource;
use vstd::prelude::*;

verus! {

// ---------------------------------------------------------------------------------------------
// Legal moves
// ---------------------------------------------------------------------------------------------

proof fn lemma_legal_among(cells: Seq<u16>, count: int)
    requires
        0 <= count <= 4,
    ensures
        forall|i: int|
            0 <= i < legal_among(cells, count).len() ==> exists|n: int|
                0 <= n < count && #[trigger] legal_among(cells, count)[i] == direction_number(n)
                    && moves(cells, direction_number(n)),
        forall|n: int|
            0 <= n < count && moves(cells, #[trigger] direction_number(n)) ==> legal_among(
                cells,
                count,
            ).contains(direction_number(n)),
        legal_among(cells, count).no_duplicates(),
        legal_among(cells, count).len() <= count,
    decreases count,
{
    if count > 0 {
        lemma_legal_among(cells, count - 1);
        let before = legal_among(cells, count - 1);
        let after = legal_among(cells, count);
        assert forall|i: int| 0 <= i < after.len() implies exists|n: int|
            0 <= n < count && #[trigger] after[i] == direction_number(n) && moves(
                cells,
                direction_number(n),
            ) by {
            if i < before.len() {
                assert(after[i] == before[i]);
                let n = choose|n: int|
                    0 <= n < count - 1 && before[i] == direction_number(n) && moves(
                        cells,
                        direction_number(n),
                    );
                assert(after[i] == direction_number(n));
            } else {
                assert(after[i] == direction_number(count - 1));
            }
        }
        assert forall|n: int|
            0 <= n < count && moves(cells, #[trigger] direction_number(n)) implies after.contains(
            direction_number(n),
        ) by {
            if n < count - 1 {
                let i = choose|i: int| 0 <= i < before.len() && before[i] == direction_number(n);
                assert(after[i] == before[i]);
            } else {
                assert(after[after.len() - 1] == direction_number(n));
            }
        }
        assert forall|i: int, j: int|
            0 <= i < after.len() && 0 <= j < after.len() && i != j implies after[i] != after[j] by {
            if i < before.len() && j < before.len() {
                assert(after[i] == before[i] && after[j] == before[j]);
            } else if i < before.len() {
                let n = choose|n: int|
                    0 <= n < count - 1 && before[i] == direction_number(n) && moves(
                        cells,
                        direction_number(n),
                    );
                assert(after[i] == before[i]);
            } else {
                let n = choose|n: int|
                    0 <= n < count - 1 && before[j] == direction_number(n) && moves(
                        cells,
                        direction_number(n),
                    );
                assert(after[j] == before[j]);
            }
        }
    }
}

/// The list of legal moves holds every direction whose push moves something, once, and no other.
pub proof fn the_list_of_legal_moves_is_exact(cells: Seq<u16>)
    ensures
        forall|direction: Direction|
            legal_moves(cells).contains(direction) <==> moves(cells, direction),
        legal_moves(cells).no_duplicates(),
        legal_moves(cells).len() <= 4,
{
    lemma_legal_among(cells, 4);
    assert forall|direction: Direction|
        legal_moves(cells).contains(direction) <==> moves(cells, direction) by {
        let n: int = match direction {
            Direction::Up => 0,
            Direction::Down => 1,
            Direction::Left => 2,
            Direction::Right => 3,
        };
        assert(direction == direction_number(n));
        if legal_moves(cells).contains(direction) {
            let i = choose|i: int|
                0 <= i < legal_moves(cells).len() && legal_moves(cells)[i] == direction;
            assert(legal_among(cells, 4)[i] == direction);
        }
    }
}

/// A game is over exactly where the list of legal moves is empty, which is where the mask of
/// legal moves is 0.
pub proof fn a_game_is_over_without_legal_moves(game: GameModel)
    ensures
        game.is_over() <==> legal_moves(game.board).len() == 0,
        game.is_over() <==> legal_mask(game.board) == 0,
{
    the_list_of_legal_moves_is_exact(game.board);
    let legal = legal_moves(game.board);
    if legal.len() > 0 {
        assert(legal.contains(legal[0]));
        assert(moves(game.board, legal[0]));
    }
    if !game.is_over() {
        let direction = choose|direction: Direction| moves(game.board, direction);
        assert(legal.contains(direction));
        assert(direction == Direction::Up || direction == Direction::Down || direction
            == Direction::Left || direction == Direction::Right);
    }
}

// ---------------------------------------------------------------------------------------------
// Replaying
// ---------------------------------------------------------------------------------------------

/// Whether some games are the course of a game: it starts with a seed, and each move leads from
/// one game to the next.
pub open spec fn is_course(games: Seq<GameModel>, seed: u64, directions: Seq<Direction>) -> bool {
    &&& games.len() == directions.len() + 1
    &&& games[0] == GameModel::started(seed)
    &&& forall|i: int|
        0 <= i < directions.len() ==> #[trigger] games[i + 1] == games[i].stepped(directions[i])
}

/// Games with the same seed and the same moves take the same course.
pub proof fn a_seed_and_moves_fix_the_game(
    first: Seq<GameModel>,
    second: Seq<GameModel>,
    seed: u64,
    directions: Seq<Direction>,
)
    requires
        is_course(first, seed, directions),
        is_course(second, seed, directions),
    ensures
        first == second,
{
    assert forall|n: int| 0 <= n < first.len() implies first[n] == second[n] by {
        lemma_courses_agree(first, second, seed, directions, n);
    }
    assert(first =~= second);
}

proof fn lemma_courses_agree(
    first: Seq<GameModel>,
    second: Seq<GameModel>,
    seed: u64,
    directions: Seq<Direction>,
    n: int,
)
    requires
        is_course(first, seed, directions),
        is_course(second, seed, directions),
        0 <= n <= directions.len(),
    ensures
        first[n] == second[n],
    decreases n,
{
    if n > 0 {
        lemma_courses_agree(first, second, seed, directions, n - 1);
        assert(first[n - 1 + 1] == first[n - 1].stepped(directions[n - 1]));
        assert(second[n - 1 + 1] == second[n - 1].stepped(directions[n - 1]));
    }
}

// ---------------------------------------------------------------------------------------------
// Moves
// ---------------------------------------------------------------------------------------------

/// A move that is not legal changes nothing but the number of tries.
pub proof fn an_illegal_move_changes_only_the_tries(game: GameModel, direction: Direction)
    requires
        !moves(game.board, direction),
        game.attempted < u64::MAX,
    ensures
        game.stepped(direction) == (GameModel {
            attempted: (game.attempted + 1) as u64,
            ..game
        }),
        game.stepped(direction).attempted == game.attempted + 1,
        game.report(direction).spawn is None,
        !game.report(direction).accepted,
{
}

/// The tiles of a deal and the one that comes next hold a basic rank at most four times, as often
/// as the deck does.
pub proof fn a_deal_holds_a_basic_rank_at_most_four_times(game: GameModel, rank: u16)
    requires
        game.is_sound(),
        game.is_fair(),
        game.is_a_deal(),
        game.shows_the_deck(),
        1 <= rank <= 3,
    ensures
        game.basic_tiles(rank) <= 4,
{
    let deck = game.draw.deck;
    a_part_holds_no_more(deck, 10, rank);
    assert(deck.take(10).drop_last() =~= deck.take(9));
    assert(occurrences(deck.take(10), rank) == occurrences(deck.take(9), rank) + (if deck[9]
        == rank {
        1nat
    } else {
        0
    }));
    assert(occurrences(deck, 1u16) == 4 && occurrences(deck, 2u16) == 4 && occurrences(deck, 3u16)
        == 4);
}

proof fn lemma_filling_adds_points(cells: Seq<u16>, cell: int, rank: u16)
    requires
        0 <= cell < cells.len(),
        cells[cell] == 0,
    ensures
        exact_total(cells.update(cell, rank)) == exact_total(cells) + exact_points(rank as int),
    decreases cells.len(),
{
    let filled = cells.update(cell, rank);
    let value = |r: u16| exact_points(r as int);
    if cell == cells.len() - 1 {
        assert(filled.drop_last() =~= cells.drop_last());
    } else {
        lemma_filling_adds_points(cells.drop_last(), cell, rank);
        assert(filled.drop_last() =~= cells.drop_last().update(cell, rank));
    }
    assert(exact_total(filled) == total(filled.drop_last(), value) + value(filled.last()));
    assert(exact_total(cells) == total(cells.drop_last(), value) + value(cells.last()));
}

/// A legal move pushes the board and puts one tile into one free cell; the counters go up by
/// one, and neither the score nor the highest rank goes down.
pub proof fn a_legal_move_adds_one_tile(
    game: GameModel,
    direction: Direction,
    cell: usize,
    rank: u16,
)
    requires
        game.is_sound(),
        game.has_room_for(1),
        push_fits(game.board, direction),
        moves(game.board, direction),
        entries_after(game.board, direction).contains(cell),
        rank != 0,
    ensures
        ({
            let slid = slid_cells(game.board, direction);
            let after = game.landed(direction, cell, rank);
            &&& slid[cell as int] == 0
            &&& after.board == slid.update(cell as int, rank)
            &&& occurrences(after.board, 0u16) + 1 == occurrences(slid, 0u16)
            &&& after.accepted == game.accepted + 1
            &&& after.attempted == game.attempted + 1
            &&& after.seed == game.seed
            &&& total_points(after.board) >= total_points(game.board)
            &&& highest(after.board) >= highest(game.board)
        }),
{
    let slid = slid_cells(game.board, direction);
    let after = game.landed(direction, cell, rank);
    crate::game::a_legal_push_leaves_room(game.board, direction);
    let i = choose|i: int|
        0 <= i < entries_after(game.board, direction).len() && entries_after(
            game.board,
            direction,
        )[i] == cell;
    assert(entries_after(game.board, direction)[i] == cell);
    replacing_an_item_changes_two_counts(slid, cell as int, rank, 0u16);
    lemma_filling_adds_points(slid, cell as int, rank);
    crate::board_laws::a_push_never_lowers_the_score(game.board, direction);
    crate::board_laws::score_is_the_cut_off_sum(slid);
    crate::board_laws::score_is_the_cut_off_sum(after.board);
    assert(exact_points(rank as int) >= 0) by {
        if rank >= 3 {
            vstd::arithmetic::power::lemma_pow_positive(3, (rank - 2) as nat);
        }
    }
    crate::board_laws::a_push_raises_the_highest_rank_by_at_most_one(game.board, direction);
    crate::board_laws::highest_is_the_maximum(slid);
    crate::board_laws::highest_is_the_maximum(after.board);
    let top = choose|k: int| 0 <= k < 16 && slid[k] == highest(slid);
    if top != cell {
        assert(after.board[top] == slid[top]);
    }
}

// ---------------------------------------------------------------------------------------------
// Outcomes
// ---------------------------------------------------------------------------------------------

#[verifier::opaque]
spec fn outcome_number(game: GameModel, direction: Direction, c: int, r: int) -> OutcomeModel {
    game.outcome(direction, entries_after(game.board, direction)[c], game.next.options()[r])
}

proof fn lemma_outcomes_in_cell(game: GameModel, direction: Direction, c: int, r: int)
    requires
        0 <= r < game.next.ranks().len(),
    ensures
        game.outcomes_in_cell(
            direction,
            entries_after(game.board, direction)[c],
            game.next.ranks().len() as int,
        )[r] == outcome_number(game, direction, c, r),
{
    reveal(outcome_number);
}

proof fn lemma_outcome_count(game: GameModel, direction: Direction, cells: int)
    requires
        0 <= cells,
    ensures
        game.outcomes_in_cells(direction, cells).len() == cells * game.next.ranks().len(),
    decreases cells,
{
    let ranks = game.next.ranks().len() as int;
    if cells > 0 {
        lemma_outcome_count(game, direction, cells - 1);
        assert((cells - 1) * ranks + ranks == cells * ranks) by (nonlinear_arith);
    } else {
        assert(0 * ranks == 0);
    }
}

proof fn lemma_find_outcome(
    game: GameModel,
    direction: Direction,
    cells: int,
    c: int,
    r: int,
) -> (i: int)
    requires
        0 <= c < cells,
        0 <= r < game.next.ranks().len(),
    ensures
        0 <= i < game.outcomes_in_cells(direction, cells).len(),
        i == c * game.next.ranks().len() + r,
        game.outcomes_in_cells(direction, cells)[i] == outcome_number(game, direction, c, r),
    decreases cells,
{
    let earlier = game.outcomes_in_cells(direction, cells - 1);
    lemma_outcome_count(game, direction, cells - 1);
    if c < cells - 1 {
        lemma_find_outcome(game, direction, cells - 1, c, r)
    } else {
        lemma_outcomes_in_cell(game, direction, c, r);
        earlier.len() + r
    }
}

proof fn lemma_place_outcome(game: GameModel, direction: Direction, cells: int, i: int) -> (place: (
    int,
    int,
))
    requires
        0 <= cells,
        0 <= i < game.outcomes_in_cells(direction, cells).len(),
    ensures
        0 <= place.0 < cells,
        0 <= place.1 < game.next.ranks().len(),
        i == place.0 * game.next.ranks().len() + place.1,
        game.outcomes_in_cells(direction, cells)[i] == outcome_number(
            game,
            direction,
            place.0,
            place.1,
        ),
    decreases cells,
{
    let earlier = game.outcomes_in_cells(direction, cells - 1);
    lemma_outcome_count(game, direction, cells - 1);
    if i < earlier.len() {
        lemma_place_outcome(game, direction, cells - 1, i)
    } else {
        lemma_outcomes_in_cell(game, direction, cells - 1, i - earlier.len());
        (cells - 1, i - earlier.len())
    }
}

proof fn lemma_outcome_probability(game: GameModel, direction: Direction, i: int)
    requires
        game.is_sound(),
        moves(game.board, direction),
        0 <= i < game.outcomes(direction).len(),
    ensures
        game.outcomes(direction)[i].probability.numerator == 1,
        game.outcomes(direction)[i].probability.denominator == game.outcomes(direction).len(),
{
    let cells = entries_after(game.board, direction).len() as int;
    let ranks = game.next.ranks().len() as int;
    crate::game::a_legal_push_leaves_room(game.board, direction);
    lemma_outcome_count(game, direction, cells);
    let (c, r) = lemma_place_outcome(game, direction, cells, i);
    reveal(outcome_number);
    let option = game.next.options()[r];
    assert(option.1.numerator == 1);
    assert(option.1.denominator == ranks);
    assert(cells * ranks <= u64::MAX) by (nonlinear_arith)
        requires
            0 <= cells <= 4,
            0 <= ranks <= u32::MAX,
    ;
    let first = one_in(cells as u64).numerator;
    let second = option.1.numerator;
    assert(first * second == 1) by (nonlinear_arith)
        requires
            first == 1,
            second == 1,
    ;
}

/// The sum of the numerators of the probabilities of the first few outcomes.
pub open spec fn summed_chances(outcomes: Seq<OutcomeModel>, count: int) -> int
    decreases count,
{
    if count <= 0 {
        0
    } else {
        summed_chances(outcomes, count - 1) + outcomes[count - 1].probability.numerator
    }
}

proof fn lemma_summed_chances(game: GameModel, direction: Direction, count: int)
    requires
        game.is_sound(),
        moves(game.board, direction),
        0 <= count <= game.outcomes(direction).len(),
    ensures
        summed_chances(game.outcomes(direction), count) == count,
    decreases count,
{
    if count > 0 {
        lemma_summed_chances(game, direction, count - 1);
        lemma_outcome_probability(game, direction, count - 1);
    }
}

/// The probabilities of the outcomes of a legal move add up to one: they have a common
/// denominator, and the sum of their numerators is that denominator.
pub proof fn outcome_probabilities_add_up_to_one(game: GameModel, direction: Direction)
    requires
        game.is_sound(),
        moves(game.board, direction),
    ensures
        forall|i: int|
            0 <= i < game.outcomes(direction).len() ==> (#[trigger] game.outcomes(
                direction,
            )[i]).probability.denominator == game.outcomes(direction).len(),
        summed_chances(game.outcomes(direction), game.outcomes(direction).len() as int)
            == game.outcomes(direction).len(),
        game.outcomes(direction).len() > 0,
{
    let outcomes = game.outcomes(direction);
    assert forall|i: int| 0 <= i < outcomes.len() implies (
    #[trigger] outcomes[i]).probability.denominator == outcomes.len() by {
        lemma_outcome_probability(game, direction, i);
    }
    lemma_summed_chances(game, direction, outcomes.len() as int);
    only_legal_moves_have_outcomes(game, direction);
}

/// Whatever free cell and whatever rank of the shown tile a legal move gets, the game that it
/// leads to is one of the previewed outcomes.
pub proof fn every_landing_is_previewed(
    game: GameModel,
    direction: Direction,
    cell: usize,
    rank: u16,
)
    requires
        moves(game.board, direction),
        entries_after(game.board, direction).contains(cell),
        game.next.ranks().contains(rank),
    ensures
        exists|i: int|
            0 <= i < game.outcomes(direction).len() && (#[trigger] game.outcomes(
                direction,
            )[i]).state == game.landed(direction, cell, rank),
{
    let cells = entries_after(game.board, direction);
    let c = choose|c: int| 0 <= c < cells.len() && cells[c] == cell;
    let r = choose|r: int| 0 <= r < game.next.ranks().len() && game.next.ranks()[r] == rank;
    let i = lemma_find_outcome(game, direction, cells.len() as int, c, r);
    reveal(outcome_number);
    assert(game.outcomes(direction)[i].state == game.landed(direction, cell, rank));
}

/// The outcomes of a legal move are one for each cell into which the new tile can come and each
/// rank that it can have, cell by cell.
pub proof fn each_cell_and_rank_has_its_outcome(
    game: GameModel,
    direction: Direction,
    c: int,
    r: int,
)
    requires
        moves(game.board, direction),
        0 <= c < entries_after(game.board, direction).len(),
        0 <= r < game.next.ranks().len(),
    ensures
        ({
            let outcomes = game.outcomes(direction);
            let cells = entries_after(game.board, direction);
            let ranks = game.next.ranks();
            let i = c * ranks.len() + r;
            &&& outcomes.len() == cells.len() * ranks.len()
            &&& 0 <= i < outcomes.len()
            &&& outcomes[i] == game.outcome(direction, cells[c], game.next.options()[r])
            &&& outcomes[i].state == game.landed(direction, cells[c], ranks[r])
        }),
{
    let cells = entries_after(game.board, direction).len() as int;
    lemma_outcome_count(game, direction, cells);
    lemma_find_outcome(game, direction, cells, c, r);
    reveal(outcome_number);
}

/// Whatever free cell and whatever rank of the shown tile a legal move gets, exactly one of the
/// previewed outcomes shows the new tile, provided that the ranks of the shown tile have faces
/// that differ; and the game of this outcome is the one that the move leads to.
pub proof fn one_outcome_shows_the_new_tile(
    game: GameModel,
    direction: Direction,
    cell: usize,
    rank: u16,
)
    requires
        game.is_sound(),
        moves(game.board, direction),
        entries_after(game.board, direction).contains(cell),
        game.next.ranks().contains(rank),
        faces_differ(game.next.ranks()),
    ensures
        exists|i: int| #[trigger]
            is_the_one_that_shows(game.outcomes(direction), game.spawned(cell, rank), i)
                && game.outcomes(direction)[i].state == game.landed(direction, cell, rank),
{
    let outcomes = game.outcomes(direction);
    let spawn = game.spawned(cell, rank);
    let cells = entries_after(game.board, direction);
    let ranks = game.next.ranks();
    let c = choose|c: int| 0 <= c < cells.len() && cells[c] == cell;
    let r = choose|r: int| 0 <= r < ranks.len() && ranks[r] == rank;
    crate::game::entries_are_distinct(game.board, direction);
    crate::board::every_face_fits(rank as int);
    let i = lemma_find_outcome(game, direction, cells.len() as int, c, r);
    reveal(outcome_number);
    assert(outcomes[i].shows(spawn));
    assert forall|j: int| 0 <= j < outcomes.len() && (#[trigger] outcomes[j]).shows(
        spawn,
    ) implies j == i by {
        let (d, q) = lemma_place_outcome(game, direction, cells.len() as int, j);
        assert(cells[d] as int == 4 * (cells[d] as int / 4) + cells[d] as int % 4);
        assert(cells[d] == cell);
        assert(d == c);
        assert(game.next.options()[q].0 == ranks[q]);
        assert(face_of(ranks[q] as int) == face_of(rank as int));
        if q < r {
            assert(face_of(ranks[q] as int) != face_of(ranks[r] as int));
        } else if r < q {
            assert(face_of(ranks[r] as int) != face_of(ranks[q] as int));
        }
    }
    assert(is_the_one_that_shows(outcomes, spawn, i));
}

/// The ranks of a shown tile have faces that differ, as long as no tile on the board is beyond
/// rank 70.
pub proof fn shown_faces_differ(game: GameModel)
    requires
        game.shows_a_window(),
        highest(game.board) <= 70,
    ensures
        faces_differ(game.next.ranks()),
{
    let ranks = game.next.ranks();
    assert forall|i: int, j: int| 0 <= i < j < ranks.len() implies face_of(
        #[trigger] ranks[i] as int,
    ) != face_of(#[trigger] ranks[j] as int) by {
        assert(game.next is Bonus);
        assert(ranks.last() == ranks[0] + ranks.len() - 1);
        crate::board::two_ranks_have_two_faces(ranks[i] as int, ranks[j] as int);
    }
}

/// A preview of a move that is not legal is empty, and one of a legal move is not.
pub proof fn only_legal_moves_have_outcomes(game: GameModel, direction: Direction)
    requires
        game.is_sound(),
    ensures
        game.outcomes(direction).len() > 0 <==> moves(game.board, direction),
{
    if moves(game.board, direction) {
        let cells = entries_after(game.board, direction).len() as int;
        let ranks = game.next.ranks().len() as int;
        crate::game::a_legal_push_leaves_room(game.board, direction);
        lemma_outcome_count(game, direction, cells);
        assert(cells * ranks > 0) by (nonlinear_arith)
            requires
                cells > 0,
                ranks > 0,
        ;
    }
}

// ---------------------------------------------------------------------------------------------
// The forecast
// ---------------------------------------------------------------------------------------------

/// Within the running cycle the forecast never errs: what it calls certain is a bonus tile, and
/// what it calls impossible is none.
pub proof fn the_forecast_never_errs(game: GameModel, ahead: u8)
    requires
        game.is_sound(),
        game.is_fair(),
        game.forecast_is_in_step(),
        game.tracker.active,
        game.draw.bonus_pos + ahead < 21,
    ensures
        game.tracker.chance(ahead) == always() ==> game.draw.cycle[game.draw.bonus_pos + ahead],
        game.tracker.chance(ahead) == never() ==> !game.draw.cycle[game.draw.bonus_pos + ahead],
{
    crate::draw::one_bonus_place_per_cycle(game.draw.cycle);
    let p = choose|p: int|
        0 <= p < 21 && #[trigger] game.draw.cycle[p] && forall|q: int|
            0 <= q < 21 && game.draw.cycle[q] ==> q == p;
    let place = game.draw.bonus_pos + ahead;
    match game.tracker.seen_bonus_offset {
        Some(seen) => {
            assert(game.draw.cycle[seen as int]);
            assert(seen == p);
            if seen != place {
                assert(!game.draw.cycle[place]);
            }
        },
        None => {
            assert(p > game.draw.bonus_pos);
            if ahead == 0 {
                assert(!game.draw.cycle[game.draw.bonus_pos]);
            }
        },
    }
}

// ---------------------------------------------------------------------------------------------
// Where tiles come from and where they go
// ---------------------------------------------------------------------------------------------

/// A tile that is dealt is the one on top of the deck, and it goes into the free cell before which
/// as many cells are free as the dice roll, among as many numbers as there are free cells. No other
/// cell changes, so for every free cell there is a roll that puts the tile there.
pub proof fn a_dealt_tile_goes_where_the_dice_say(draw: DrawModel, dice: Dice, tiles: int)
    requires
        0 < tiles,
        dealt(draw, dice, tiles - 1).0.len() == 16,
    ensures
        ({
            let (before, deck, start) = dealt(draw, dice, tiles - 1);
            let (after, rest, last) = dealt(draw, dice, tiles);
            let (taken, drawn) = deck.without_a_basic_tile(start);
            let free = occurrences(before, 0u16);
            let (roll, rolled) = drawn.rolled(free as u64);
            &&& rest == taken
            &&& last == rolled
            &&& roll < free ==> exists|cell: int|
                #![trigger before[cell]]
                0 <= cell < 16 && before[cell] == 0 && occurrences(before.take(cell), 0u16) == roll
                    && after == before.update(cell, deck.top_basic(start))
            &&& forall|cell: int|
                #![trigger before[cell]]
                0 <= cell < 16 && before[cell] == 0 && occurrences(before.take(cell), 0u16) == roll
                    ==> after == before.update(cell, deck.top_basic(start))
        }),
{
    let (before, deck, start) = dealt(draw, dice, tiles - 1);
    let (after, rest, last) = dealt(draw, dice, tiles);
    let free = free_cells(before, 16);
    let drawn = deck.without_a_basic_tile(start).1;
    let roll = drawn.rolled(occurrences(before, 0u16) as u64).0;
    crate::board_laws::free_cells_are_listed_in_order(before, 16);
    assert(before.take(16) =~= before);
    if roll < occurrences(before, 0u16) {
        let cell = free[roll as int] as int;
        assert(before[cell] == 0);
        assert(after == before.update(cell, deck.top_basic(start)));
    }
    assert forall|cell: int|
        #![trigger before[cell]]
        0 <= cell < 16 && before[cell] == 0 && occurrences(before.take(cell), 0u16)
            == roll implies after == before.update(cell, deck.top_basic(start)) by {
        assert(crate::board_laws::free_before(before, cell) == roll);
        assert(free[roll as int] == cell);
    }
}

/// A game starts on an empty board with a fresh draw from the start of the stream of its seed;
/// nine tiles are dealt, and the next one is revealed. Nothing is counted yet.
pub proof fn a_game_starts_with_nine_dealt_tiles(seed: u64)
    ensures
        ({
            let game = GameModel::started(seed);
            let (draw, dice) = fresh_draw(Dice { seed, word_pos: 0 });
            let (cells, rest, last) = dealt(draw, dice, 9);
            &&& dealt(draw, dice, 0).0 == Seq::new(16, |i: int| 0u16)
            &&& dealt(draw, dice, 0).1 == draw && dealt(draw, dice, 0).2 == dice
            &&& game.seed == seed
            &&& game.board == cells
            &&& (game.next, game.draw, game.dice) == rest.revealed(highest(cells), last)
            &&& game.accepted == 0 && game.attempted == 0
        }),
{
}

/// A new tile comes in at the side from which the board was pushed: after a push to the left in
/// the last column, after one to the right in the first column, after one up in the last row,
/// after one down in the first row. It comes into a line that moved, and every such line has its
/// cell, in the order of the lines.
pub proof fn a_new_tile_comes_in_from_behind(cells: Seq<u16>, direction: Direction, i: int)
    requires
        cells.len() == 16,
        moves(cells, direction),
        0 <= i < entries_after(cells, direction).len(),
    ensures
        ({
            let entries = entries_after(cells, direction);
            let cell = entries[i] as int;
            let line: int = match direction {
                Direction::Left | Direction::Right => cell / 4,
                Direction::Up | Direction::Down => cell % 4,
            };
            &&& 0 <= cell < 16
            &&& direction is Left ==> cell % 4 == 3
            &&& direction is Right ==> cell % 4 == 0
            &&& direction is Up ==> cell / 4 == 3
            &&& direction is Down ==> cell / 4 == 0
            &&& moved_lines_of(cells, direction)[line]
            &&& forall|j: int| 0 <= j < i ==> #[trigger] entries[j] < entries[i]
        }),
        forall|l: int|
            0 <= l < 4 && #[trigger] moved_lines_of(cells, direction)[l] ==> entries_after(
                cells,
                direction,
            ).contains(
                (match direction {
                    Direction::Left => 4 * l + 3,
                    Direction::Right => 4 * l,
                    Direction::Up => 12 + l,
                    Direction::Down => l,
                }) as usize,
            ),
{
    crate::game::a_legal_push_leaves_room(cells, direction);
    let entries = entries_after(cells, direction);
    assert(entries[i] < 16);
    let l = choose|l: int|
        0 <= l < 4 && line_moves(line_at(cells, direction, l)) && entries[i] == entry_cell(
            direction,
            l,
        );
    assert(moved_lines_of(cells, direction)[l]);
    crate::game::entries_are_in_order(cells, direction);
    assert forall|l: int|
        0 <= l < 4 && #[trigger] moved_lines_of(cells, direction)[l] implies entries_after(
        cells,
        direction,
    ).contains(
        (match direction {
            Direction::Left => 4 * l + 3,
            Direction::Right => 4 * l,
            Direction::Up => 12 + l,
            Direction::Down => l,
        }) as usize,
    ) by {
        assert(line_moves(line_at(cells, direction, l)));
        assert(entries_after(cells, direction).contains(entry_cell(direction, l) as usize));
    }
}

/// Of the cells into which a new tile can come, it comes into the one whose place the dice roll,
/// among as many numbers as there are such cells, after the shown tile was taken from the draw. The
/// rest of the board is as the push left it.
pub proof fn the_dice_pick_the_cell_of_a_new_tile(game: GameModel, direction: Direction)
    requires
        moves(game.board, direction),
    ensures
        ({
            let entries = entries_after(game.board, direction);
            let (taken, dice) = game.draw.consumed(game.next, game.dice);
            let (roll, last) = dice.rolled(entries.len() as u64);
            let after = game.stepped(direction);
            let rank = game.draw.consumed_rank(game.next, game.dice);
            &&& game.spawn_cell(direction) == entries[roll as int]
            &&& after.board == slid_cells(game.board, direction).update(
                entries[roll as int] as int,
                rank,
            )
            &&& (after.next, after.draw, after.dice) == taken.revealed(highest(after.board), last)
            &&& after.tracker == game.tracker.advanced().observed(highest(after.board), after.next)
            &&& after.seed == game.seed
        }),
{
}

/// A forced tile changes the rank of the new tile and nothing of where it comes from or goes to:
/// the deck, the cell and the dice after the tile was placed are those of the move that is not
/// forced.
pub proof fn a_forced_tile_only_changes_the_rank(game: GameModel, direction: Direction, rank: u16)
    requires
        game.board.len() == 16,
        moves(game.board, direction),
        entries_after(game.board, direction).contains(game.spawn_cell(direction)),
    ensures
        ({
            let forced = game.stepped_with(direction, rank);
            let free = game.stepped(direction);
            let cell = game.spawn_cell(direction) as int;
            &&& forced.board[cell] == rank
            &&& forall|i: int|
                0 <= i < 16 && i != cell ==> #[trigger] forced.board[i] == free.board[i]
            &&& rank == game.spawn_rank() ==> forced == free
            &&& forced.accepted == free.accepted && forced.attempted == free.attempted
        }),
{
    lemma_a_spawn_lies_on_the_board(game, direction);
}

proof fn lemma_a_spawn_lies_on_the_board(game: GameModel, direction: Direction)
    requires
        game.board.len() == 16,
        moves(game.board, direction),
        entries_after(game.board, direction).contains(game.spawn_cell(direction)),
    ensures
        game.spawn_cell(direction) < 16,
{
    let entries = entries_after(game.board, direction);
    crate::game::a_legal_push_leaves_room(game.board, direction);
    let i = choose|i: int| 0 <= i < entries.len() && entries[i] == game.spawn_cell(direction);
    assert(entries[i] < 16);
}

/// The report of a move tells the faces before the push, after it and with the new tile, the score
/// and the highest face of the board that the move leads to, the tile that comes next there, and
/// whether the game is over there.
pub proof fn a_report_tells_what_happened(game: GameModel, direction: Direction, i: int)
    requires
        game.board.len() == 16,
        moves(game.board, direction) ==> entries_after(game.board, direction).contains(
            game.spawn_cell(direction),
        ),
        0 <= i < 16,
    ensures
        ({
            let report = game.report(direction);
            let after = game.stepped(direction);
            let slid = slid_cells(game.board, direction);
            &&& report.direction == direction
            &&& report.accepted == moves(game.board, direction)
            &&& report.board_before[i] as int == face_of(game.board[i] as int)
            &&& report.board_after_slide[i] as int == face_of(slid[i] as int)
            &&& report.board_after_spawn[i] as int == face_of(after.board[i] as int)
            &&& report.score == saturated(exact_total(after.board))
            &&& report.high_tile == face_of(highest(after.board) as int)
            &&& report.next_tile == after.next
            &&& report.bonus_forecast == after.tracker.forecasted(8)
            &&& report.game_over <==> (!moves(after.board, Direction::Up) && !moves(
                after.board,
                Direction::Down,
            ) && !moves(after.board, Direction::Left) && !moves(after.board, Direction::Right))
            &&& report.spawn is Some <==> report.accepted
            &&& report.moved_lines == moved_lines_of(game.board, direction)
            &&& report.merged_cells == merged_cells_of(game.board, direction)
        }),
{
    let after = game.stepped(direction);
    let slid = slid_cells(game.board, direction);
    if moves(game.board, direction) {
        lemma_a_spawn_lies_on_the_board(game, direction);
    }
    crate::board_laws::every_cell_shows_its_face(game.board, i);
    crate::board_laws::every_cell_shows_its_face(slid, i);
    crate::board_laws::every_cell_shows_its_face(after.board, i);
    crate::board_laws::score_is_the_cut_off_sum(after.board);
    assert forall|other: Direction|
        !moves(after.board, Direction::Up) && !moves(after.board, Direction::Down) && !moves(
            after.board,
            Direction::Left,
        ) && !moves(after.board, Direction::Right) implies !#[trigger] moves(
        after.board,
        other,
    ) by {
        assert(other is Up || other is Down || other is Left || other is Right);
    }
}

/// A report tells of the new tile where it stands, what it shows, and what had been shown of it.
pub proof fn a_report_tells_of_the_new_tile(game: GameModel, direction: Direction)
    requires
        moves(game.board, direction),
    ensures
        ({
            let spawn = game.report(direction).spawn->Some_0;
            &&& spawn.row * 4 + spawn.col == game.spawn_cell(direction)
            &&& 0 <= spawn.col < 4
            &&& spawn.rank == game.spawn_rank()
            &&& spawn.face as int == face_of(game.spawn_rank() as int)
            &&& spawn.source == SpawnSource::Basic <==> game.next is Basic
            &&& spawn.preview == game.next
        }),
{
    crate::board::every_face_fits(game.spawn_rank() as int);
}

/// A snapshot tells the faces on the board, the score and the highest face, the counters, the bits
/// of the legal moves, the tile that comes next and the forecast.
pub proof fn a_snapshot_tells_the_state(game: GameModel, i: int)
    requires
        0 <= i < game.board.len(),
    ensures
        ({
            let shown = game.shown();
            &&& shown.seed == game.seed
            &&& shown.board.len() == game.board.len()
            &&& shown.board[i] as int == face_of(game.board[i] as int)
            &&& shown.score == saturated(exact_total(game.board))
            &&& shown.high_tile == face_of(highest(game.board) as int)
            &&& shown.accepted_moves == game.accepted
            &&& shown.attempted_moves == game.attempted
            &&& shown.legal_moves_mask == legal_mask(game.board)
            &&& shown.next_tile == game.next
            &&& shown.bonus_forecast == game.tracker.forecasted(8)
        }),
{
    crate::board_laws::every_cell_shows_its_face(game.board, i);
    crate::board_laws::score_is_the_cut_off_sum(game.board);
}

/// An outcome tells where the new tile stands and what it shows, the board and the numbers of the
/// game that it leads to, and how likely its cell and its rank are.
pub proof fn an_outcome_tells_of_its_game(
    game: GameModel,
    direction: Direction,
    cell: usize,
    option: (u16, Probability),
    i: int,
)
    requires
        entries_after(game.board, direction).len() <= 4,
        cell < 16,
        0 <= i < 16,
    ensures
        ({
            let outcome = game.outcome(direction, cell, option);
            let state = game.landed(direction, cell, option.0);
            &&& outcome.state == state
            &&& outcome.direction == direction
            &&& outcome.row * 4 + outcome.col == cell
            &&& 0 <= outcome.col < 4
            &&& outcome.face == face_of(option.0 as int)
            &&& outcome.board[i] as int == face_of(state.board[i] as int)
            &&& outcome.next_tile == state.next
            &&& outcome.bonus_forecast == state.tracker.forecasted(8)
            &&& outcome.score == saturated(exact_total(state.board))
            &&& outcome.high_tile == face_of(highest(state.board) as int)
            &&& outcome.spawn_probability.numerator == 1
            &&& outcome.spawn_probability.denominator == entries_after(game.board, direction).len()
            &&& outcome.rank_probability == option.1
        }),
{
    let state = game.landed(direction, cell, option.0);
    crate::board_laws::every_cell_shows_its_face(state.board, i);
    crate::board_laws::score_is_the_cut_off_sum(state.board);
}

/// The lower half of a seed that a moment gives is that of its seconds, and its upper half tells
/// the nanoseconds; two moments of the same seconds give two seeds. Without a moment the seed is 0.
pub proof fn a_seed_holds_the_seconds_and_the_nanoseconds(seconds: u64, nanos: u32, other: u32)
    ensures
        moment_seed(seconds, nanos) & 0xffff_ffff == seconds & 0xffff_ffff,
        moment_seed(seconds, nanos) >> 32 == (seconds >> 32) ^ (nanos as u64),
        nanos != other ==> moment_seed(seconds, nanos) != moment_seed(seconds, other),
        reading_seed(Some((seconds, nanos))) == moment_seed(seconds, nanos),
        reading_seed(None) == 0,
{
    assert((seconds ^ ((nanos as u64) << 32)) & 0xffff_ffff == seconds & 0xffff_ffff && (seconds
        ^ ((nanos as u64) << 32)) >> 32 == (seconds >> 32) ^ (nanos as u64) && (nanos != other
        ==> seconds ^ ((nanos as u64) << 32) != seconds ^ ((other as u64) << 32)) && 0u64 ^ ((0u32
        as u64) << 32) == 0u64) by (bit_vector);
}

} // verus!

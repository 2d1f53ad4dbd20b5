//! What holds of the parts of an evaluation.

use crate::board::highest;
use crate::board_laws::{mirrored, transposed};
use crate::draw::occurrences;
use crate::eval::{
    chain_pair, chain_pairs, falling_quarters, is_in_a_corner, line_quarters, lines_quarters,
    neighbour_pairs, one_and_two, pairs_from, path_to, path_worth, step_quarters, tiles_of_rank,
    way_is_clearish, ChainPair, CornerPath,
};
use vstd::prelude::*;

verus! {

// ---------------------------------------------------------------------------------------------
// Pairs
// ---------------------------------------------------------------------------------------------

/// One where something holds, else nothing.
pub open spec fn one_where(holds: bool) -> int {
    if holds {
        1
    } else {
        0
    }
}

/// The pairs of neighbours on a board are counted once each: three in every row and three in every
/// column.
pub proof fn every_two_neighbours_are_counted_once(
    cells: Seq<u16>,
    is_pair: spec_fn(u16, u16) -> bool,
)
    requires
        cells.len() == 16,
    ensures
        neighbour_pairs(cells, is_pair, 16) == one_where(is_pair(cells[0], cells[1])) + one_where(
            is_pair(cells[1], cells[2]),
        ) + one_where(is_pair(cells[2], cells[3])) + one_where(is_pair(cells[4], cells[5]))
            + one_where(is_pair(cells[5], cells[6])) + one_where(is_pair(cells[6], cells[7]))
            + one_where(is_pair(cells[8], cells[9])) + one_where(is_pair(cells[9], cells[10]))
            + one_where(is_pair(cells[10], cells[11])) + one_where(is_pair(cells[12], cells[13]))
            + one_where(is_pair(cells[13], cells[14])) + one_where(is_pair(cells[14], cells[15]))
            + one_where(is_pair(cells[0], cells[4])) + one_where(is_pair(cells[1], cells[5]))
            + one_where(is_pair(cells[2], cells[6])) + one_where(is_pair(cells[3], cells[7]))
            + one_where(is_pair(cells[4], cells[8])) + one_where(is_pair(cells[5], cells[9]))
            + one_where(is_pair(cells[6], cells[10])) + one_where(is_pair(cells[7], cells[11]))
            + one_where(is_pair(cells[8], cells[12])) + one_where(is_pair(cells[9], cells[13]))
            + one_where(is_pair(cells[10], cells[14])) + one_where(is_pair(cells[11], cells[15])),
{
    assert(neighbour_pairs(cells, is_pair, 0) == 0);
    lemma_pairs_of_a_row(cells, is_pair, 0);
    lemma_pairs_of_a_row(cells, is_pair, 4);
    lemma_pairs_of_a_row(cells, is_pair, 8);
    lemma_pairs_of_the_last_row(cells, is_pair);
}

proof fn lemma_pairs_of_a_row(cells: Seq<u16>, is_pair: spec_fn(u16, u16) -> bool, cell: int)
    requires
        cell == 0 || cell == 4 || cell == 8,
    ensures
        neighbour_pairs(cells, is_pair, cell + 4) == neighbour_pairs(cells, is_pair, cell)
            + one_where(is_pair(cells[cell], cells[cell + 1])) + one_where(
            is_pair(cells[cell + 1], cells[cell + 2]),
        ) + one_where(is_pair(cells[cell + 2], cells[cell + 3])) + one_where(
            is_pair(cells[cell], cells[cell + 4]),
        ) + one_where(is_pair(cells[cell + 1], cells[cell + 5])) + one_where(
            is_pair(cells[cell + 2], cells[cell + 6]),
        ) + one_where(is_pair(cells[cell + 3], cells[cell + 7])),
{
    assert(neighbour_pairs(cells, is_pair, cell + 1) == neighbour_pairs(cells, is_pair, cell)
        + one_where(is_pair(cells[cell], cells[cell + 1])) + one_where(
        is_pair(cells[cell], cells[cell + 4]),
    ));
    assert(neighbour_pairs(cells, is_pair, cell + 2) == neighbour_pairs(cells, is_pair, cell + 1)
        + one_where(is_pair(cells[cell + 1], cells[cell + 2])) + one_where(
        is_pair(cells[cell + 1], cells[cell + 5]),
    ));
    assert(neighbour_pairs(cells, is_pair, cell + 3) == neighbour_pairs(cells, is_pair, cell + 2)
        + one_where(is_pair(cells[cell + 2], cells[cell + 3])) + one_where(
        is_pair(cells[cell + 2], cells[cell + 6]),
    ));
    assert(neighbour_pairs(cells, is_pair, cell + 4) == neighbour_pairs(cells, is_pair, cell + 3)
        + one_where(is_pair(cells[cell + 3], cells[cell + 7])));
}

proof fn lemma_pairs_of_the_last_row(cells: Seq<u16>, is_pair: spec_fn(u16, u16) -> bool)
    ensures
        neighbour_pairs(cells, is_pair, 16) == neighbour_pairs(cells, is_pair, 12) + one_where(
            is_pair(cells[12], cells[13]),
        ) + one_where(is_pair(cells[13], cells[14])) + one_where(is_pair(cells[14], cells[15])),
{
    assert(neighbour_pairs(cells, is_pair, 13) == neighbour_pairs(cells, is_pair, 12) + one_where(
        is_pair(cells[12], cells[13]),
    ));
    assert(neighbour_pairs(cells, is_pair, 14) == neighbour_pairs(cells, is_pair, 13) + one_where(
        is_pair(cells[13], cells[14]),
    ));
    assert(neighbour_pairs(cells, is_pair, 15) == neighbour_pairs(cells, is_pair, 14) + one_where(
        is_pair(cells[14], cells[15]),
    ));
    assert(neighbour_pairs(cells, is_pair, 16) == neighbour_pairs(cells, is_pair, 15));
}

/// Turning the board does not change the number of its pairs, where it does not matter which of
/// two tiles comes first.
pub proof fn turning_the_board_keeps_its_pairs(
    cells: Seq<u16>,
    is_pair: spec_fn(u16, u16) -> bool,
)
    requires
        cells.len() == 16,
        forall|a: u16, b: u16| #[trigger] is_pair(a, b) == is_pair(b, a),
    ensures
        neighbour_pairs(mirrored(cells), is_pair, 16) == neighbour_pairs(cells, is_pair, 16),
        neighbour_pairs(transposed(cells), is_pair, 16) == neighbour_pairs(cells, is_pair, 16),
{
    every_two_neighbours_are_counted_once(cells, is_pair);
    every_two_neighbours_are_counted_once(mirrored(cells), is_pair);
    every_two_neighbours_are_counted_once(transposed(cells), is_pair);
}

/// A 1 and a 2 are such a pair in either order, and nothing else is.
pub proof fn only_a_one_and_a_two_are_one_and_two(left: u16, right: u16)
    ensures
        one_and_two(1, 2) && one_and_two(2, 1),
        one_and_two(left, right) ==> left + right == 3 && left != right && left > 0 && right > 0,
        left + right == 3 && left > 0 && right > 0 ==> one_and_two(left, right),
{
}

/// The tiles of a rank among the first few cells are those that occur there.
pub proof fn tiles_of_a_rank_are_counted(cells: Seq<u16>, rank: u16, count: int)
    requires
        0 <= count <= cells.len(),
    ensures
        tiles_of_rank(cells, rank, count) == occurrences(cells.take(count), rank),
    decreases count,
{
    if count > 0 {
        tiles_of_a_rank_are_counted(cells, rank, count - 1);
        assert(cells.take(count).drop_last() =~= cells.take(count - 1));
    }
}

// ---------------------------------------------------------------------------------------------
// Order
// ---------------------------------------------------------------------------------------------

/// Two neighbours are worth a whole point where the first is at least as high as the second, a
/// quarter where one of the cells is free, and lose three quarters for every rank by which the
/// second is higher.
pub proof fn two_neighbours_are_worth_most_where_they_do_not_rise(first: u16, second: u16)
    ensures
        first == 0 || second == 0 ==> step_quarters(first, second) == 1,
        first > 0 && second > 0 && first >= second ==> step_quarters(first, second) == 4,
        first > 0 && second == first + 1 ==> step_quarters(first, second) == -3,
        first > 0 && first < second < u16::MAX ==> step_quarters(first, (second + 1) as u16)
            == step_quarters(first, second) - 3,
{
}

/// A line is worth the same read from either end, at least as much as either way says, and most
/// where it is full and does not rise.
pub proof fn a_line_is_worth_its_better_order(a: u16, b: u16, c: u16, d: u16)
    ensures
        line_quarters(seq![a, b, c, d]) == line_quarters(seq![d, c, b, a]),
        falling_quarters(seq![a, b, c, d]) == step_quarters(a, b) + step_quarters(b, c)
            + step_quarters(c, d),
        line_quarters(seq![a, b, c, d]) >= falling_quarters(seq![a, b, c, d]),
        line_quarters(seq![a, b, c, d]) >= falling_quarters(seq![d, c, b, a]),
        line_quarters(seq![a, b, c, d]) == falling_quarters(seq![a, b, c, d]) || line_quarters(
            seq![a, b, c, d],
        ) == falling_quarters(seq![d, c, b, a]),
        line_quarters(seq![a, b, c, d]) <= 12,
        a >= b >= c >= d > 0 ==> line_quarters(seq![a, b, c, d]) == 12,
{
    let line = seq![a, b, c, d];
    let back = seq![d, c, b, a];
    assert(seq![line[3], line[2], line[1], line[0]] =~= back);
    assert(seq![back[3], back[2], back[1], back[0]] =~= line);
}

/// The order of a board is that of its four rows and its four columns.
pub proof fn every_row_and_column_counts(cells: Seq<u16>)
    requires
        cells.len() == 16,
    ensures
        lines_quarters(cells, 4) == line_quarters(seq![cells[0], cells[1], cells[2], cells[3]])
            + line_quarters(seq![cells[4], cells[5], cells[6], cells[7]]) + line_quarters(
            seq![cells[8], cells[9], cells[10], cells[11]],
        ) + line_quarters(seq![cells[12], cells[13], cells[14], cells[15]]) + line_quarters(
            seq![cells[0], cells[4], cells[8], cells[12]],
        ) + line_quarters(seq![cells[1], cells[5], cells[9], cells[13]]) + line_quarters(
            seq![cells[2], cells[6], cells[10], cells[14]],
        ) + line_quarters(seq![cells[3], cells[7], cells[11], cells[15]]),
{
    reveal_with_fuel(lines_quarters, 5);
    assert(crate::eval::row_of(cells, 0) =~= seq![cells[0], cells[1], cells[2], cells[3]]);
    assert(crate::eval::row_of(cells, 1) =~= seq![cells[4], cells[5], cells[6], cells[7]]);
    assert(crate::eval::row_of(cells, 2) =~= seq![cells[8], cells[9], cells[10], cells[11]]);
    assert(crate::eval::row_of(cells, 3) =~= seq![cells[12], cells[13], cells[14], cells[15]]);
    assert(crate::eval::col_of(cells, 0) =~= seq![cells[0], cells[4], cells[8], cells[12]]);
    assert(crate::eval::col_of(cells, 1) =~= seq![cells[1], cells[5], cells[9], cells[13]]);
    assert(crate::eval::col_of(cells, 2) =~= seq![cells[2], cells[6], cells[10], cells[14]]);
    assert(crate::eval::col_of(cells, 3) =~= seq![cells[3], cells[7], cells[11], cells[15]]);
}

// ---------------------------------------------------------------------------------------------
// Corners
// ---------------------------------------------------------------------------------------------

/// A rank lies in a corner where the first or the last row has it first or last; turning the board
/// keeps it there.
pub proof fn a_board_has_four_corners(cells: Seq<u16>, rank: u16)
    requires
        cells.len() == 16,
    ensures
        is_in_a_corner(cells, rank) <==> exists|cell: int|
            0 <= cell < 16 && (cell / 4 == 0 || cell / 4 == 3) && (cell % 4 == 0 || cell % 4 == 3)
                && #[trigger] cells[cell] == rank,
        is_in_a_corner(mirrored(cells), rank) == is_in_a_corner(cells, rank),
        is_in_a_corner(transposed(cells), rank) == is_in_a_corner(cells, rank),
{
    if is_in_a_corner(cells, rank) {
        assert(cells[0] == rank || cells[3] == rank || cells[12] == rank || cells[15] == rank);
    }
    if exists|cell: int|
        0 <= cell < 16 && (cell / 4 == 0 || cell / 4 == 3) && (cell % 4 == 0 || cell % 4 == 3)
            && #[trigger] cells[cell] == rank {
        let cell = choose|cell: int|
            0 <= cell < 16 && (cell / 4 == 0 || cell / 4 == 3) && (cell % 4 == 0 || cell % 4 == 3)
                && #[trigger] cells[cell] == rank;
        assert(cell == 0 || cell == 3 || cell == 12 || cell == 15);
    }
}

/// A way to a corner first follows the column of the tile to the row of the corner and then that
/// row to the corner. It is clear where every cell on it but the first is free or holds a highest
/// tile; in its corner a tile has a clear way.
pub proof fn a_way_leads_along_the_column_and_the_row(
    cells: Seq<u16>,
    row: int,
    col: int,
    corner_row: int,
    corner_col: int,
)
    requires
        cells.len() == 16,
    ensures
        way_is_clearish(cells, row, col, corner_row, corner_col) <==> {
            &&& forall|r: int|
                row < r <= corner_row || corner_row <= r < row ==> (#[trigger] cells[r * 4 + col]
                    == 0 || cells[r * 4 + col] == highest(cells))
            &&& forall|c: int|
                col < c <= corner_col || corner_col <= c < col ==> (#[trigger] cells[corner_row * 4
                    + c] == 0 || cells[corner_row * 4 + c] == highest(cells))
        },
        way_is_clearish(cells, corner_row, corner_col, corner_row, corner_col),
{
    if way_is_clearish(cells, row, col, corner_row, corner_col) {
        assert forall|r: int| row < r <= corner_row || corner_row <= r < row implies (
        #[trigger] cells[r * 4 + col] == 0 || cells[r * 4 + col] == highest(cells)) by {
            assert(crate::eval::on_the_way(row, corner_row, r));
        }
        assert forall|c: int| col < c <= corner_col || corner_col <= c < col implies (
        #[trigger] cells[corner_row * 4 + c] == 0 || cells[corner_row * 4 + c] == highest(
            cells,
        )) by {
            assert(crate::eval::on_the_way(col, corner_col, c));
        }
    }
    if (forall|r: int|
        row < r <= corner_row || corner_row <= r < row ==> (#[trigger] cells[r * 4 + col] == 0
            || cells[r * 4 + col] == highest(cells))) && (forall|c: int|
        col < c <= corner_col || corner_col <= c < col ==> (#[trigger] cells[corner_row * 4 + c]
            == 0 || cells[corner_row * 4 + c] == highest(cells))) {
        assert forall|r: int| #[trigger]
            crate::eval::on_the_way(row, corner_row, r) implies crate::eval::is_clearish(
            cells,
            r * 4 + col,
        ) by {
            assert(cells[r * 4 + col] == 0 || cells[r * 4 + col] == highest(cells));
        }
        assert forall|c: int| #[trigger]
            crate::eval::on_the_way(col, corner_col, c) implies crate::eval::is_clearish(
            cells,
            corner_row * 4 + c,
        ) by {
            assert(cells[corner_row * 4 + c] == 0 || cells[corner_row * 4 + c] == highest(cells));
        }
    }
}

/// The four corners are the first and the last cell of the first and the last row, and the distance
/// to one of them is counted in steps along rows and columns.
pub proof fn a_path_leads_to_one_of_four_corners(cells: Seq<u16>, cell: int)
    requires
        0 <= cell < 16,
    ensures
        ({
            let row = cell / 4;
            let col = cell % 4;
            &&& path_to(cells, cell, 0).distance == row + col
            &&& path_to(cells, cell, 1).distance == row + 3 - col
            &&& path_to(cells, cell, 2).distance == 3 - row + col
            &&& path_to(cells, cell, 3).distance == 6 - row - col
            &&& path_to(cells, cell, 0).aligned == (row == 0 || col == 0)
            &&& path_to(cells, cell, 1).aligned == (row == 0 || col == 3)
            &&& path_to(cells, cell, 2).aligned == (row == 3 || col == 0)
            &&& path_to(cells, cell, 3).aligned == (row == 3 || col == 3)
            &&& path_to(cells, cell, 0).clear == way_is_clearish(cells, row, col, 0, 0)
            &&& path_to(cells, cell, 1).clear == way_is_clearish(cells, row, col, 0, 3)
            &&& path_to(cells, cell, 2).clear == way_is_clearish(cells, row, col, 3, 0)
            &&& path_to(cells, cell, 3).clear == way_is_clearish(cells, row, col, 3, 3)
        }),
{
}

/// A path is worth 260 points divided by one more than its distance, 120 more on a row or column of
/// the corner, and 90 more where the way is clear; 420 parts make a point.
pub proof fn a_path_is_worth_more_the_shorter_it_is(path: CornerPath)
    requires
        path.distance < 7,
    ensures
        (path.distance + 1) * path_worth(CornerPath { aligned: false, clear: false, ..path }) == 260
            * 420,
        path_worth(CornerPath { aligned: true, ..path }) == path_worth(
            CornerPath { aligned: false, ..path },
        ) + 120 * 420,
        path_worth(CornerPath { clear: true, ..path }) == path_worth(
            CornerPath { clear: false, ..path },
        ) + 90 * 420,
{
    let d = path.distance as int;
    assert(d == 0 || d == 1 || d == 2 || d == 3 || d == 4 || d == 5 || d == 6);
}

// ---------------------------------------------------------------------------------------------
// Chains
// ---------------------------------------------------------------------------------------------

proof fn lemma_pairs_from(cells: Seq<u16>, left: int, end: int)
    requires
        0 <= left < end <= 16,
    ensures
        forall|right: int|
            left < right < end && cells[left] >= 3 && cells[right] == cells[left]
                ==> pairs_from(cells, left, end).contains(#[trigger] chain_pair(cells, left, right)),
        forall|i: int|
            #![trigger pairs_from(cells, left, end)[i]]
            0 <= i < pairs_from(cells, left, end).len() ==> exists|right: int|
                left < right < end && cells[left] >= 3 && cells[right] == cells[left]
                    && pairs_from(cells, left, end)[i] == #[trigger] chain_pair(
                    cells,
                    left,
                    right,
                ),
        pairs_from(cells, left, end).len() == (if cells[left] >= 3 {
            tiles_of_rank(cells, cells[left], end) - tiles_of_rank(cells, cells[left], left + 1)
        } else {
            0
        }),
    decreases end,
{
    if end > left + 1 {
        lemma_pairs_from(cells, left, end - 1);
        let before = pairs_from(cells, left, end - 1);
        let after = pairs_from(cells, left, end);
        assert forall|right: int|
            left < right < end && cells[left] >= 3 && cells[right]
                == cells[left] implies after.contains(#[trigger] chain_pair(cells, left, right)) by {
            if right < end - 1 {
                let i = choose|i: int|
                    0 <= i < before.len() && before[i] == chain_pair(cells, left, right);
                assert(after[i] == before[i]);
            } else {
                assert(after[after.len() - 1] == chain_pair(cells, left, right));
            }
        }
        assert forall|i: int|
            #![trigger after[i]]
            0 <= i < after.len() implies exists|right: int|
            left < right < end && cells[left] >= 3 && cells[right] == cells[left] && after[i]
                == #[trigger] chain_pair(cells, left, right) by {
            if i < before.len() {
                assert(after[i] == before[i]);
                let right = choose|right: int|
                    left < right < end - 1 && cells[left] >= 3 && cells[right] == cells[left]
                        && before[i] == #[trigger] chain_pair(cells, left, right);
                assert(after[i] == chain_pair(cells, left, right));
            } else {
                assert(after[i] == chain_pair(cells, left, end - 1));
            }
        }
    }
}

spec fn is_a_pair(cells: Seq<u16>, count: int, pair: ChainPair) -> bool {
    exists|left: int, right: int|
        0 <= left < count && left < right < 16 && cells[left] >= 3 && cells[right] == cells[left]
            && pair == #[trigger] chain_pair(cells, left, right)
}

proof fn lemma_chain_pairs(cells: Seq<u16>, count: int)
    requires
        0 <= count <= 16,
    ensures
        forall|left: int, right: int|
            0 <= left < count && left < right < 16 && cells[left] >= 3 && cells[right]
                == cells[left] ==> chain_pairs(cells, count).contains(
                #[trigger] chain_pair(cells, left, right),
            ),
        forall|i: int|
            0 <= i < chain_pairs(cells, count).len() ==> is_a_pair(
                cells,
                count,
                #[trigger] chain_pairs(cells, count)[i],
            ),
    decreases count,
{
    if count > 0 {
        lemma_chain_pairs(cells, count - 1);
        lemma_pairs_from(cells, count - 1, 16);
        let before = chain_pairs(cells, count - 1);
        let more = pairs_from(cells, count - 1, 16);
        let after = chain_pairs(cells, count);
        assert(after == before + more);
        assert forall|left: int, right: int|
            0 <= left < count && left < right < 16 && cells[left] >= 3 && cells[right]
                == cells[left] implies after.contains(#[trigger] chain_pair(
            cells,
            left,
            right,
        )) by {
            let pair = chain_pair(cells, left, right);
            if left < count - 1 {
                let i = choose|i: int| 0 <= i < before.len() && before[i] == pair;
                assert(after[i] == pair);
            } else {
                let i = choose|i: int| 0 <= i < more.len() && more[i] == pair;
                assert(after[before.len() + i] == pair);
            }
        }
        assert forall|i: int| 0 <= i < after.len() implies is_a_pair(
            cells,
            count,
            #[trigger] after[i],
        ) by {
            if i < before.len() {
                assert(after[i] == before[i]);
                let (left, right) = choose|left: int, right: int|
                    0 <= left < count - 1 && left < right < 16 && cells[left] >= 3 && cells[right]
                        == cells[left] && before[i] == #[trigger] chain_pair(cells, left, right);
                assert(after[i] == chain_pair(cells, left, right));
            } else {
                let j = i - before.len();
                assert(after[i] == more[j]);
                let right = choose|right: int|
                    count - 1 < right < 16 && cells[count - 1] >= 3 && cells[right]
                        == cells[count - 1] && more[j] == #[trigger] chain_pair(
                        cells,
                        count - 1,
                        right,
                    );
                assert(after[i] == chain_pair(cells, count - 1, right));
            }
        }
    }
}

/// The pairs that can be chained are those of two cells with the same rank from 3 on, and no
/// others: each with its rank, the steps between its cells, and whether they share a row or a
/// column. A cell forms as many with later ones as hold its rank.
pub proof fn every_two_equal_tiles_can_be_chained(cells: Seq<u16>, left: int, right: int)
    requires
        cells.len() == 16,
        0 <= left < right < 16,
    ensures
        cells[left] == cells[right] && cells[left] >= 3 ==> exists|i: int|
            0 <= i < chain_pairs(cells, 16).len() && #[trigger] chain_pairs(cells, 16)[i] == (
            ChainPair {
                rank: cells[left],
                distance: (if left % 4 <= right % 4 {
                    right / 4 - left / 4 + right % 4 - left % 4
                } else {
                    right / 4 - left / 4 + left % 4 - right % 4
                }) as usize,
                aligned: left / 4 == right / 4 || left % 4 == right % 4,
            }),
        forall|i: int|
            0 <= i < chain_pairs(cells, 16).len() ==> (#[trigger] chain_pairs(cells, 16)[i]).rank
                >= 3 && cells.contains(chain_pairs(cells, 16)[i].rank) && 1 <= chain_pairs(
                cells,
                16,
            )[i].distance <= 6,
        pairs_from(cells, left, 16).len() == (if cells[left] >= 3 {
            occurrences(cells, cells[left]) - occurrences(cells.take(left + 1), cells[left])
        } else {
            0
        }),
{
    lemma_chain_pairs(cells, 16);
    lemma_pairs_from(cells, left, 16);
    tiles_of_a_rank_are_counted(cells, cells[left], 16);
    tiles_of_a_rank_are_counted(cells, cells[left], left + 1);
    assert(cells.take(16) =~= cells);
    let all = chain_pairs(cells, 16);
    if cells[left] == cells[right] && cells[left] >= 3 {
        assert(all.contains(chain_pair(cells, left, right)));
        let i = choose|i: int| 0 <= i < all.len() && all[i] == chain_pair(cells, left, right);
        assert(all[i] == chain_pair(cells, left, right));
    }
    assert forall|i: int| 0 <= i < all.len() implies (#[trigger] all[i]).rank >= 3
        && cells.contains(all[i].rank) && 1 <= all[i].distance <= 6 by {
        let (l, r) = choose|l: int, r: int|
            0 <= l < 16 && l < r < 16 && cells[l] >= 3 && cells[r] == cells[l] && all[i]
                == #[trigger] chain_pair(cells, l, r);
        assert(cells.contains(cells[l]));
        assert(l / 4 != r / 4 || l % 4 != r % 4);
    }
}

/// The pairs are listed by their first cell: those of the first few cells are the beginning of
/// those of more cells.
pub proof fn pairs_are_listed_by_their_first_cell(cells: Seq<u16>, count: int)
    requires
        0 <= count,
    ensures
        chain_pairs(cells, 0).len() == 0,
        chain_pairs(cells, count + 1) == chain_pairs(cells, count) + pairs_from(cells, count, 16),
{
}

/// No way of a highest tile to a corner is worth more than the best path, which is the way of a
/// highest tile; and where a highest tile lies in a corner, the best path has no step.
pub proof fn the_best_path_is_worth_the_most(
    cells: Seq<u16>,
    path: crate::eval::CornerPath,
    cell: int,
    corner: int,
)
    requires
        cells.len() == 16,
        crate::eval::is_best_path(cells, path),
        0 <= cell < 16,
        0 <= corner < 4,
        cells[cell] == highest(cells),
    ensures
        path_worth(path) >= path_worth(path_to(cells, cell, corner)),
        exists|from: int, to: int|
            0 <= from < 16 && 0 <= to < 4 && cells[from] == highest(cells) && path
                == #[trigger] path_to(cells, from, to),
        cell == 0 || cell == 3 || cell == 12 || cell == 15 ==> path.distance == 0,
{
    if cell == 0 || cell == 3 || cell == 12 || cell == 15 {
        let own: int = if cell == 0 {
            0
        } else if cell == 3 {
            1
        } else if cell == 12 {
            2
        } else {
            3
        };
        let here = path_to(cells, cell, own);
        assert(here.distance == 0 && here.aligned && here.clear);
        let steps = here.distance;
        assert(109_200int / (steps + 1) == 109_200) by (nonlinear_arith)
            requires
                steps == 0,
        ;
        assert(path_worth(here) == 197_400);
        let distance = path.distance;
        if distance > 0 {
            assert(109_200int / (distance + 1) <= 54_600) by (nonlinear_arith)
                requires
                    distance >= 1,
            ;
        }
    }
}

} // verus!

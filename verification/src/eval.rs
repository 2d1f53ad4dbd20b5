//! What a board is worth: the parts of an evaluation that are whole numbers.

use crate::board::{
    board_has_sixteen_cells, free_cells, highest, legal_moves, merges, pushes_fit, Board, CELLS,
    SIZE,
};
use vstd::prelude::*;

verus! {

broadcast use board_has_sixteen_cells;

// ---------------------------------------------------------------------------------------------
// Room
// ---------------------------------------------------------------------------------------------

/// 120 points for every free cell.
pub fn empty_cell_score(board: &Board) -> (points: i64)
    ensures
        points == 120 * free_cells(board@, 16).len(),
{
    proof {
        lemma_at_most_all_cells_are_free(board@, 16);
    }
    board.empty_indices().len() as i64 * 120
}

proof fn lemma_at_most_all_cells_are_free(cells: Seq<u16>, end: int)
    requires
        0 <= end,
    ensures
        free_cells(cells, end).len() <= end,
    decreases end,
{
    if end > 0 {
        lemma_at_most_all_cells_are_free(cells, end - 1);
    }
}

/// 45 points for every legal move.
pub fn legal_move_score(board: &Board) -> (points: i64)
    requires
        pushes_fit(board@),
    ensures
        points == 45 * legal_moves(board@).len(),
{
    proof {
        crate::game_laws::the_list_of_legal_moves_is_exact(board@);
    }
    board.legal_directions().len() as i64 * 45
}

// ---------------------------------------------------------------------------------------------
// Pairs of neighbours
// ---------------------------------------------------------------------------------------------

/// Whether two ranks are a 1 and a 2.
pub open spec fn one_and_two(left: u16, right: u16) -> bool {
    (left == 1 && right == 2) || (left == 2 && right == 1)
}

/// The number of pairs that the first few cells form with the next cell to the right and the
/// next cell down.
pub open spec fn neighbour_pairs(
    cells: Seq<u16>,
    is_pair: spec_fn(u16, u16) -> bool,
    count: int,
) -> int
    decreases count,
{
    if count <= 0 {
        0
    } else {
        let cell = count - 1;
        let right: int = if cell % 4 < 3 && is_pair(cells[cell], cells[cell + 1]) {
            1
        } else {
            0
        };
        let down: int = if cell / 4 < 3 && is_pair(cells[cell], cells[cell + 4]) {
            1
        } else {
            0
        };
        neighbour_pairs(cells, is_pair, cell) + right + down
    }
}

fn can_merge(left: u16, right: u16) -> (can: bool)
    ensures
        can == merges(left, right),
{
    is_one_two_pair(left, right) || (left >= 3 && left == right)
}

/// Whether two ranks are a 1 and a 2.
pub fn is_one_two_pair(left: u16, right: u16) -> (pair: bool)
    ensures
        pair == one_and_two(left, right),
{
    (left == 1 && right == 2) || (left == 2 && right == 1)
}

/// 90 points for every two neighbours that merge.
pub fn merge_opportunity_score(board: &Board) -> (points: i64)
    ensures
        points == 90 * neighbour_pairs(board@, |a: u16, b: u16| merges(a, b), 16),
{
    let ghost is_pair = |a: u16, b: u16| merges(a, b);
    let mut opportunities: i64 = 0;
    let mut cell: usize = 0;
    while cell < CELLS
        invariant
            cell <= 16,
            is_pair == (|a: u16, b: u16| merges(a, b)),
            opportunities == neighbour_pairs(board@, is_pair, cell as int),
            0 <= opportunities <= 2 * cell,
        decreases 16 - cell,
    {
        let rank: u16 = board.get_index(cell);
        if cell % SIZE + 1 < SIZE && can_merge(rank, board.get_index(cell + 1)) {
            opportunities = opportunities + 1;
        }
        if cell / SIZE + 1 < SIZE && can_merge(rank, board.get_index(cell + SIZE)) {
            opportunities = opportunities + 1;
        }
        cell = cell + 1;
    }
    opportunities * 90
}

/// 110 points for every two neighbours that are a 1 and a 2.
pub fn one_two_merge_score(board: &Board) -> (points: i64)
    ensures
        points == 110 * neighbour_pairs(board@, |a: u16, b: u16| one_and_two(a, b), 16),
{
    let ghost is_pair = |a: u16, b: u16| one_and_two(a, b);
    let mut pairs: i64 = 0;
    let mut cell: usize = 0;
    while cell < CELLS
        invariant
            cell <= 16,
            is_pair == (|a: u16, b: u16| one_and_two(a, b)),
            pairs == neighbour_pairs(board@, is_pair, cell as int),
            0 <= pairs <= 2 * cell,
        decreases 16 - cell,
    {
        let rank: u16 = board.get_index(cell);
        if cell % SIZE + 1 < SIZE && is_one_two_pair(rank, board.get_index(cell + 1)) {
            pairs = pairs + 1;
        }
        if cell / SIZE + 1 < SIZE && is_one_two_pair(rank, board.get_index(cell + SIZE)) {
            pairs = pairs + 1;
        }
        cell = cell + 1;
    }
    pairs * 110
}

/// The number of tiles of a rank among the first few cells.
pub open spec fn tiles_of_rank(cells: Seq<u16>, rank: u16, count: int) -> int
    decreases count,
{
    if count <= 0 {
        0
    } else {
        tiles_of_rank(cells, rank, count - 1) + (if cells[count - 1] == rank {
            1int
        } else {
            0
        })
    }
}

/// 40 points for every 1 that has no 2, or every 2 that has no 1.
pub fn one_two_imbalance_penalty(board: &Board) -> (points: i64)
    ensures
        ({
            let ones = tiles_of_rank(board@, 1, 16);
            let twos = tiles_of_rank(board@, 2, 16);
            points == 40 * (if ones >= twos {
                ones - twos
            } else {
                twos - ones
            })
        }),
{
    let mut ones: i64 = 0;
    let mut twos: i64 = 0;
    let mut cell: usize = 0;
    while cell < CELLS
        invariant
            cell <= 16,
            ones == tiles_of_rank(board@, 1, cell as int),
            twos == tiles_of_rank(board@, 2, cell as int),
            0 <= ones <= cell,
            0 <= twos <= cell,
        decreases 16 - cell,
    {
        let rank: u16 = board.get_index(cell);
        if rank == 1 {
            ones = ones + 1;
        } else if rank == 2 {
            twos = twos + 1;
        }
        cell = cell + 1;
    }
    if ones >= twos {
        (ones - twos) * 40
    } else {
        (twos - ones) * 40
    }
}

// ---------------------------------------------------------------------------------------------
// Order
// ---------------------------------------------------------------------------------------------

/// What two neighbours in a line are worth, in quarter points: four where they do not rise, one
/// where a cell is free, and three less for every rank by which they rise.
pub open spec fn step_quarters(first: u16, second: u16) -> int {
    if first == 0 || second == 0 {
        1
    } else if first >= second {
        4
    } else {
        -3 * (second - first)
    }
}

/// What a line is worth that should not rise, in quarter points.
pub open spec fn falling_quarters(line: Seq<u16>) -> int {
    step_quarters(line[0], line[1]) + step_quarters(line[1], line[2]) + step_quarters(
        line[2],
        line[3],
    )
}

/// What a line is worth in the better one of its two orders, in quarter points.
pub open spec fn line_quarters(line: Seq<u16>) -> int {
    let there = falling_quarters(line);
    let back = falling_quarters(seq![line[3], line[2], line[1], line[0]]);
    if there >= back {
        there
    } else {
        back
    }
}

/// A row of a board.
pub open spec fn row_of(cells: Seq<u16>, row: int) -> Seq<u16> {
    Seq::new(4, |col: int| cells[row * 4 + col])
}

/// A column of a board.
pub open spec fn col_of(cells: Seq<u16>, col: int) -> Seq<u16> {
    Seq::new(4, |row: int| cells[row * 4 + col])
}

/// What the first few rows and columns are worth together, in quarter points.
pub open spec fn lines_quarters(cells: Seq<u16>, lines: int) -> int
    decreases lines,
{
    if lines <= 0 {
        0
    } else {
        lines_quarters(cells, lines - 1) + line_quarters(row_of(cells, lines - 1)) + line_quarters(
            col_of(cells, lines - 1),
        )
    }
}

fn step_score(first: u16, second: u16) -> (quarters: i64)
    ensures
        quarters == step_quarters(first, second),
        -200_000 <= quarters <= 4,
{
    if first == 0 || second == 0 {
        1
    } else if first >= second {
        4
    } else {
        -3 * (second as i64 - first as i64)
    }
}

/// What a line is worth that should not rise, in quarter points.
pub fn adjacent_order_score(line: [u16; 4]) -> (quarters: i64)
    ensures
        quarters == falling_quarters(line@),
        -600_000 <= quarters <= 12,
{
    step_score(line[0], line[1]) + step_score(line[1], line[2]) + step_score(line[2], line[3])
}

/// What a line is worth in the better one of its two orders, in quarter points.
pub fn line_orderedness(line: [u16; 4]) -> (quarters: i64)
    ensures
        quarters == line_quarters(line@),
        -600_000 <= quarters <= 12,
{
    let back: [u16; 4] = [line[3], line[2], line[1], line[0]];
    assert(back@ =~= seq![line@[3], line@[2], line@[1], line@[0]]);
    let increasing: i64 = adjacent_order_score(line);
    let decreasing: i64 = adjacent_order_score(back);
    if increasing >= decreasing {
        increasing
    } else {
        decreasing
    }
}

/// 35 points for every point that the rows and the columns are worth, in quarter points.
pub fn orderedness_score(board: &Board) -> (quarters: i64)
    ensures
        quarters == 35 * lines_quarters(board@, 4),
{
    let mut quarters: i64 = 0;
    let mut line: usize = 0;
    while line < SIZE
        invariant
            line <= 4,
            quarters == lines_quarters(board@, line as int),
            -1_200_000 * line <= quarters <= 24 * line,
        decreases 4 - line,
    {
        let row: [u16; 4] = [
            board.get(line, 0),
            board.get(line, 1),
            board.get(line, 2),
            board.get(line, 3),
        ];
        let col: [u16; 4] = [
            board.get(0, line),
            board.get(1, line),
            board.get(2, line),
            board.get(3, line),
        ];
        assert(row@ =~= row_of(board@, line as int));
        assert(col@ =~= col_of(board@, line as int));
        quarters = quarters + line_orderedness(row) + line_orderedness(col);
        line = line + 1;
    }
    quarters * 35
}

// ---------------------------------------------------------------------------------------------
// Corners
// ---------------------------------------------------------------------------------------------

/// Whether a tile of a rank lies in a corner.
pub open spec fn is_in_a_corner(cells: Seq<u16>, rank: u16) -> bool {
    cells[0] == rank || cells[3] == rank || cells[12] == rank || cells[15] == rank
}

/// 500 points where the highest tile lies in a corner.
pub fn max_corner_score(board: &Board) -> (points: i64)
    ensures
        points == (if highest(board@) > 0 && is_in_a_corner(board@, highest(board@)) {
            500int
        } else {
            0
        }),
{
    let high: u16 = board.high_rank();
    if high == 0 {
        return 0;
    }
    let last: usize = SIZE - 1;
    if board.get(0, 0) == high || board.get(0, last) == high || board.get(last, 0) == high
        || board.get(last, last) == high {
        500
    } else {
        0
    }
}

/// Whether a place lies on the way from another one, which is left out, to its end.
pub open spec fn on_the_way(from: int, to: int, place: int) -> bool {
    (from < place <= to) || (to <= place < from)
}

/// Whether a cell is free or holds a highest tile.
pub open spec fn is_clearish(cells: Seq<u16>, cell: int) -> bool {
    cells[cell] == 0 || cells[cell] == highest(cells)
}

/// Whether the way from a cell to a corner, first along the column and then along the row of the
/// corner, leads over free cells and highest tiles only.
pub open spec fn way_is_clearish(
    cells: Seq<u16>,
    row: int,
    col: int,
    corner_row: int,
    corner_col: int,
) -> bool {
    &&& forall|r: int| #[trigger]
        on_the_way(row, corner_row, r) ==> is_clearish(cells, r * 4 + col)
    &&& forall|c: int| #[trigger]
        on_the_way(col, corner_col, c) ==> is_clearish(cells, corner_row * 4 + c)
}

/// The step from a place toward another one.
pub fn step_toward(from: usize, to: usize) -> (step: isize)
    ensures
        step == (if from < to {
            1int
        } else if from > to {
            -1
        } else {
            0
        }),
{
    if from < to {
        1
    } else if from > to {
        -1
    } else {
        0
    }
}

/// Whether the way from a cell to a corner, first along the column and then along the row of the
/// corner, leads over free cells and highest tiles only.
pub fn path_to_corner_is_clearish(
    board: &Board,
    row: usize,
    col: usize,
    corner_row: usize,
    corner_col: usize,
) -> (clear: bool)
    requires
        row < 4,
        col < 4,
        corner_row < 4,
        corner_col < 4,
    ensures
        clear == way_is_clearish(
            board@,
            row as int,
            col as int,
            corner_row as int,
            corner_col as int,
        ),
{
    let high: u16 = board.high_rank();
    let row_step: isize = step_toward(row, corner_row);
    let col_step: isize = step_toward(col, corner_col);
    let mut current_row: usize = row;
    while current_row != corner_row
        invariant
            row < 4,
            col < 4,
            corner_row < 4,
            current_row < 4,
            high == highest(board@),
            current_row == row || on_the_way(row as int, corner_row as int, current_row as int),
            row_step == (if row < corner_row {
                1int
            } else if row > corner_row {
                -1
            } else {
                0
            }),
            forall|r: int| #[trigger]
                on_the_way(row as int, corner_row as int, r) && !on_the_way(
                    current_row as int,
                    corner_row as int,
                    r,
                ) ==> is_clearish(board@, r * 4 + col),
        decreases
                if current_row < corner_row {
                    corner_row - current_row
                } else {
                    current_row - corner_row
                },
    {
        current_row = (current_row as isize + row_step) as usize;
        let rank: u16 = board.get(current_row, col);
        if rank > 0 && rank != high {
            proof {
                assert(on_the_way(row as int, corner_row as int, current_row as int));
                assert(!is_clearish(board@, current_row * 4 + col));
            }
            return false;
        }
    }
    let mut current_col: usize = col;
    while current_col != corner_col
        invariant
            row < 4,
            col < 4,
            corner_row < 4,
            corner_col < 4,
            current_col < 4,
            high == highest(board@),
            current_col == col || on_the_way(col as int, corner_col as int, current_col as int),
            col_step == (if col < corner_col {
                1int
            } else if col > corner_col {
                -1
            } else {
                0
            }),
            forall|c: int| #[trigger]
                on_the_way(col as int, corner_col as int, c) && !on_the_way(
                    current_col as int,
                    corner_col as int,
                    c,
                ) ==> is_clearish(board@, corner_row * 4 + c),
        decreases
                if current_col < corner_col {
                    corner_col - current_col
                } else {
                    current_col - corner_col
                },
    {
        current_col = (current_col as isize + col_step) as usize;
        let rank: u16 = board.get(corner_row, current_col);
        if rank > 0 && rank != high {
            proof {
                assert(on_the_way(col as int, corner_col as int, current_col as int));
                assert(!is_clearish(board@, corner_row * 4 + current_col));
            }
            return false;
        }
    }
    true
}

/// How a highest tile lies to a corner: how far away, whether in the same row or column, and
/// whether the way there is free of other tiles.
#[derive(Clone, Copy, Debug, PartialEq, Eq, Structural)]
pub struct CornerPath {
    pub distance: usize,
    pub aligned: bool,
    pub clear: bool,
}

/// The distance of two places.
pub open spec fn apart(a: int, b: int) -> int {
    if a >= b {
        a - b
    } else {
        b - a
    }
}

/// The row of a corner.
pub open spec fn corner_row(corner: int) -> int {
    if corner < 2 {
        0
    } else {
        3
    }
}

/// The column of a corner.
pub open spec fn corner_col(corner: int) -> int {
    if corner % 2 == 0 {
        0
    } else {
        3
    }
}

/// How a cell lies to a corner.
pub open spec fn path_to(cells: Seq<u16>, cell: int, corner: int) -> CornerPath {
    let row = cell / 4;
    let col = cell % 4;
    CornerPath {
        distance: (apart(row, corner_row(corner)) + apart(col, corner_col(corner))) as usize,
        aligned: row == corner_row(corner) || col == corner_col(corner),
        clear: way_is_clearish(cells, row, col, corner_row(corner), corner_col(corner)),
    }
}

/// What a path is worth, in parts of a point of which there are 420: 260 points shared by one
/// more than the distance, 120 points for the same row or column, and 90 for a clear way.
pub open spec fn path_worth(path: CornerPath) -> int {
    109_200int / (path.distance + 1) + (if path.aligned {
        50_400int
    } else {
        0
    }) + (if path.clear {
        37_800int
    } else {
        0
    })
}

/// Whether a path is one that a highest tile has to a corner, and none is worth more.
pub open spec fn is_best_path(cells: Seq<u16>, path: CornerPath) -> bool {
    &&& exists|cell: int, corner: int|
        0 <= cell < 16 && 0 <= corner < 4 && cells[cell] == highest(cells) && path
            == #[trigger] path_to(cells, cell, corner)
    &&& forall|cell: int, corner: int|
        0 <= cell < 16 && 0 <= corner < 4 && cells[cell] == highest(cells) ==> path_worth(
            #[trigger] path_to(cells, cell, corner),
        ) <= path_worth(path)
}

fn distance_of(a: usize, b: usize) -> (distance: usize)
    ensures
        distance == apart(a as int, b as int),
{
    if a >= b {
        a - b
    } else {
        b - a
    }
}

impl CornerPath {
    /// What the path is worth, in parts of a point of which there are 420.
    pub fn worth(&self) -> (parts: u64)
        requires
            self.distance < 7,
        ensures
            parts == path_worth(*self),
    {
        let near: u64 = 109_200 / (self.distance as u64 + 1);
        let aligned: u64 = if self.aligned {
            50_400
        } else {
            0
        };
        let clear: u64 = if self.clear {
            37_800
        } else {
            0
        };
        proof {
            let d = self.distance as int;
            assert(109_200int / (d + 1) <= 109_200) by (nonlinear_arith)
                requires
                    d >= 0,
            ;
        }
        near + aligned + clear
    }
}

/// The path of a highest tile to a corner that is worth most; none on an empty board.
pub fn corner_path(board: &Board) -> (best: Option<CornerPath>)
    ensures
        best is None <==> highest(board@) == 0,
        best matches Some(path) ==> path.distance < 7 && is_best_path(board@, path),
{
    let high: u16 = board.high_rank();
    proof {
        crate::board_laws::highest_is_the_maximum(board@);
    }
    if high == 0 {
        return None;
    }
    let mut best: Option<CornerPath> = None;
    let mut idx: usize = 0;
    while idx < CELLS
        invariant
            idx <= 16,
            high == highest(board@),
            best is None ==> forall|cell: int| 0 <= cell < idx ==> #[trigger] board@[cell] != high,
            best matches Some(path) ==> {
                &&& path.distance < 7
                &&& exists|cell: int, corner: int|
                    0 <= cell < 16 && 0 <= corner < 4 && board@[cell] == high && path
                        == #[trigger] path_to(board@, cell, corner)
                &&& forall|cell: int, corner: int|
                    0 <= cell < idx && 0 <= corner < 4 && board@[cell] == high ==> path_worth(
                        #[trigger] path_to(board@, cell, corner),
                    ) <= path_worth(path)
            },
        decreases 16 - idx,
    {
        if board.get_index(idx) == high {
            let row: usize = idx / SIZE;
            let col: usize = idx % SIZE;
            let mut corner: usize = 0;
            while corner < 4
                invariant
                    idx < 16,
                    corner <= 4,
                    row == idx / 4,
                    col == idx % 4,
                    high == highest(board@),
                    board@[idx as int] == high,
                    best is None ==> corner == 0,
                    best is None ==> forall|cell: int|
                        0 <= cell < idx ==> #[trigger] board@[cell] != high,
                    best matches Some(path) ==> {
                        &&& path.distance < 7
                        &&& exists|cell: int, corner: int|
                            0 <= cell < 16 && 0 <= corner < 4 && board@[cell] == high && path
                                == #[trigger] path_to(board@, cell, corner)
                        &&& forall|cell: int, other: int|
                            0 <= other < 4 && board@[cell] == high && (0 <= cell < idx || (cell
                                == idx && other < corner)) ==> path_worth(
                                #[trigger] path_to(board@, cell, other),
                            ) <= path_worth(path)
                    },
                decreases 4 - corner,
            {
                let end_row: usize = if corner < 2 {
                    0
                } else {
                    SIZE - 1
                };
                let end_col: usize = if corner % 2 == 0 {
                    0
                } else {
                    SIZE - 1
                };
                let path = CornerPath {
                    distance: distance_of(row, end_row) + distance_of(col, end_col),
                    aligned: row == end_row || col == end_col,
                    clear: path_to_corner_is_clearish(board, row, col, end_row, end_col),
                };
                assert(path == path_to(board@, idx as int, corner as int));
                let better = match best {
                    Some(found) => path.worth() > found.worth(),
                    None => true,
                };
                if better {
                    best = Some(path);
                }
                corner = corner + 1;
            }
        }
        idx = idx + 1;
    }
    best
}

// ---------------------------------------------------------------------------------------------
// Chains
// ---------------------------------------------------------------------------------------------

/// Two tiles of one rank: how far apart they lie, and whether in one row or column.
#[derive(Clone, Copy, Debug, PartialEq, Eq, Structural)]
pub struct ChainPair {
    pub rank: u16,
    pub distance: usize,
    pub aligned: bool,
}

/// How two cells of one rank lie to each other.
pub open spec fn chain_pair(cells: Seq<u16>, left: int, right: int) -> ChainPair {
    ChainPair {
        rank: cells[left],
        distance: (apart(left / 4, right / 4) + apart(left % 4, right % 4)) as usize,
        aligned: left / 4 == right / 4 || left % 4 == right % 4,
    }
}

/// The pairs that a cell forms with the later ones before an end, in order.
pub open spec fn pairs_from(cells: Seq<u16>, left: int, end: int) -> Seq<ChainPair>
    decreases end - left,
{
    if end <= left + 1 {
        Seq::empty()
    } else {
        let before = pairs_from(cells, left, end - 1);
        if cells[left] >= 3 && cells[end - 1] == cells[left] {
            before.push(chain_pair(cells, left, end - 1))
        } else {
            before
        }
    }
}

/// The pairs that the first few cells form with later ones, in order.
pub open spec fn chain_pairs(cells: Seq<u16>, count: int) -> Seq<ChainPair>
    decreases count,
{
    if count <= 0 {
        Seq::empty()
    } else {
        chain_pairs(cells, count - 1) + pairs_from(cells, count - 1, 16)
    }
}

/// Every two tiles of one rank of at least 3, in the order of their cells.
pub fn merge_chain_pairs(board: &Board) -> (pairs: Vec<ChainPair>)
    ensures
        pairs@ == chain_pairs(board@, 16),
{
    let mut pairs: Vec<ChainPair> = Vec::new();
    let mut left: usize = 0;
    assert(pairs@ =~= Seq::empty());
    while left < CELLS
        invariant
            left <= 16,
            pairs@ == chain_pairs(board@, left as int),
        decreases 16 - left,
    {
        let rank: u16 = board.get_index(left);
        let ghost before = pairs@;
        let mut right: usize = left + 1;
        assert(before + pairs_from(board@, left as int, right as int) =~= before);
        while right < CELLS
            invariant
                left < right <= 16,
                rank == board@[left as int],
                pairs@ == before + pairs_from(board@, left as int, right as int),
            decreases 16 - right,
        {
            if rank >= 3 && board.get_index(right) == rank {
                pairs.push(
                    ChainPair {
                        rank,
                        distance: distance_of(left / SIZE, right / SIZE) + distance_of(
                            left % SIZE,
                            right % SIZE,
                        ),
                        aligned: left / SIZE == right / SIZE || left % SIZE == right % SIZE,
                    },
                );
            }
            assert(pairs@ =~= before + pairs_from(board@, left as int, right + 1));
            right = right + 1;
        }
        left = left + 1;
    }
    pairs
}

} // verus!

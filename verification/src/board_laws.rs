//! What holds of every push of the board.

use crate::board::{
    advances, any_merge, face_of, faces_of, free_cells, highest, legal_mask, legal_moves, line_at,
    line_cell, line_fits, line_merges, line_moves, line_of_cell, lines_cover_the_board,
    merged_cells_of, merged_rank, merges, moved_lines_of, moves, offset_of_cell, pivot, points_of,
    push_fits, rank_showing, saturated, slid_cells, slid_line, total_points, Direction,
};
use crate::draw::occurrences;
use vstd::arithmetic::power::pow;
use vstd::prelude::*;

verus! {

// ---------------------------------------------------------------------------------------------
// One line
// ---------------------------------------------------------------------------------------------

/// Whether a cell holds a tile, as a number.
pub open spec fn occupied(rank: u16) -> int {
    if rank == 0 {
        0
    } else {
        1
    }
}

/// Number of tiles on a line.
pub open spec fn tiles_on(line: Seq<u16>) -> int {
    occupied(line[0]) + occupied(line[1]) + occupied(line[2]) + occupied(line[3])
}

/// A push moves a tile by at most one cell: what stands in a cell afterwards stood there before,
/// stood one cell behind, or was merged out of these two.
pub proof fn tiles_move_at_most_one_cell(line: Seq<u16>, j: int)
    requires
        line.len() == 4,
        line_fits(line),
        0 <= j < 4,
    ensures
        ({
            let behind: u16 = if j < 3 {
                line[j + 1]
            } else {
                0
            };
            ||| slid_line(line)[j] == line[j]
            ||| slid_line(line)[j] == behind
            ||| merges(line[j], behind) && slid_line(line)[j] == merged_rank(line[j])
        }),
{
}

/// A push merges at most one pair per line: it takes one tile off the line where it merges, and
/// none where it does not.
pub proof fn at_most_one_merge_per_line(line: Seq<u16>)
    requires
        line.len() == 4,
        line_fits(line),
    ensures
        tiles_on(slid_line(line)) == tiles_on(line) - (if line_merges(line) {
            1int
        } else {
            0
        }),
{
}

/// A line that moves leaves its last cell free.
pub proof fn a_moved_line_frees_its_last_cell(line: Seq<u16>)
    requires
        line.len() == 4,
        line_moves(line),
    ensures
        slid_line(line)[3] == 0,
{
}

/// A line moves exactly where the push changes it.
pub proof fn a_line_moves_where_it_changes(line: Seq<u16>)
    requires
        line.len() == 4,
        line_fits(line),
    ensures
        line_moves(line) <==> slid_line(line) != line,
{
    if line_moves(line) {
        assert(slid_line(line)[pivot(line) - 1] != line[pivot(line) - 1]);
    }
}

/// Two tiles of the same rank from 3 on merge into one of the next rank, however high they are.
pub proof fn equal_tiles_merge_into_the_next_rank(rank: u16, c: u16, d: u16)
    requires
        3 <= rank < u16::MAX,
    ensures
        merges(rank, rank),
        merged_rank(rank) == rank + 1,
        slid_line(seq![rank, rank, c, d]) == seq![(rank + 1) as u16, c, d, 0u16],
        slid_line(seq![rank, rank, 0u16, 0u16]) == seq![(rank + 1) as u16, 0u16, 0u16, 0u16],
        line_moves(seq![rank, rank, c, d]),
        line_merges(seq![rank, rank, c, d]),
{
    let line = seq![rank, rank, c, d];
    assert(advances(line, 1));
    assert(slid_line(line) =~= seq![(rank + 1) as u16, c, d, 0u16]);
    let alone = seq![rank, rank, 0u16, 0u16];
    assert(advances(alone, 1));
    assert(slid_line(alone) =~= seq![(rank + 1) as u16, 0u16, 0u16, 0u16]);
}

/// A 1 and a 2 merge into a 3, whichever of them stands in front.
pub proof fn a_one_and_a_two_merge_into_a_three(c: u16, d: u16)
    ensures
        merges(1, 2) && merges(2, 1),
        merged_rank(1) == 3 && merged_rank(2) == 3,
        slid_line(seq![1u16, 2u16, c, d]) == seq![3u16, c, d, 0u16],
        slid_line(seq![2u16, 1u16, c, d]) == seq![3u16, c, d, 0u16],
        line_merges(seq![1u16, 2u16, c, d]),
        line_merges(seq![2u16, 1u16, c, d]),
{
    let low = seq![1u16, 2u16, c, d];
    let high = seq![2u16, 1u16, c, d];
    assert(advances(low, 1));
    assert(advances(high, 1));
    assert(slid_line(low) =~= seq![3u16, c, d, 0u16]);
    assert(slid_line(high) =~= seq![3u16, c, d, 0u16]);
}

/// No other two tiles merge: neither two 1s nor two 2s, nor a 1 or a 2 with a higher tile, nor
/// tiles of two ranks from 3 on, nor anything with a free cell. Where two tiles merge, the order
/// does not matter.
pub proof fn other_tiles_do_not_merge(front: u16, back: u16)
    ensures
        front == 0 || back == 0 ==> !merges(front, back),
        front == back && front < 3 ==> !merges(front, back),
        front != back && front >= 3 ==> !merges(front, back),
        front != back && back >= 3 ==> !merges(front, back),
        merges(front, back) == merges(back, front),
        merges(front, back) ==> merged_rank(front) == merged_rank(back),
{
}

/// What a push does to a line, by where something can give way first: a cell that is free before
/// a tile, or two neighbours that make 3 together, or two equal ones from 3 on. Everything behind
/// moves up by one cell; where nothing gives way, the line stays.
pub proof fn a_line_gives_way_at_the_first_place(a: u16, b: u16, c: u16, d: u16)
    ensures
        ({
            let slid = slid_line(seq![a, b, c, d]);
            let moved = line_moves(seq![a, b, c, d]);
            let first = a != 0 && b != 0 && a + b == 3 || a == b && a >= 3;
            let second = b != 0 && c != 0 && b + c == 3 || b == c && b >= 3;
            let third = c != 0 && d != 0 && c + d == 3 || c == d && c >= 3;
            &&& a == 0 && b != 0 ==> moved && slid == seq![b, c, d, 0u16]
            &&& first && a < 3 ==> moved && slid == seq![3u16, c, d, 0u16]
            &&& first && 3 <= a < u16::MAX ==> moved && slid == seq![
                (a + 1) as u16,
                c,
                d,
                0u16,
            ]
            &&& b == 0 && c != 0 ==> moved && slid == seq![a, c, d, 0u16]
            &&& a != 0 && b != 0 && !first && second && b < 3 ==> moved && slid == seq![
                a,
                3u16,
                d,
                0u16,
            ]
            &&& a != 0 && b != 0 && !first && second && 3 <= b < u16::MAX ==> moved && slid
                == seq![a, (b + 1) as u16, d, 0u16]
            &&& (a == 0 ==> b == 0) && !first && c == 0 && d != 0 ==> moved && slid == seq![
                a,
                b,
                d,
                0u16,
            ]
            &&& a != 0 && b != 0 && c != 0 && !first && !second && third && c < 3 ==> moved && slid
                == seq![a, b, 3u16, 0u16]
            &&& a != 0 && b != 0 && c != 0 && !first && !second && third && 3 <= c < u16::MAX
                ==> moved && slid == seq![a, b, (c + 1) as u16, 0u16]
            &&& a != 0 && b != 0 && c != 0 && !first && !second && !third ==> !moved && slid
                == seq![a, b, c, d]
            &&& a != 0 && b != 0 && !first && c == 0 && d == 0 ==> !moved && slid == seq![
                a,
                b,
                c,
                d,
            ]
            &&& b == 0 && c == 0 && d == 0 ==> !moved && slid == seq![a, b, c, d]
        }),
{
    let line = seq![a, b, c, d];
    assert(line[0] == a && line[1] == b && line[2] == c && line[3] == d);
    let slid = slid_line(line);
    assert(slid =~= seq![slid[0], slid[1], slid[2], slid[3]]);
}

/// A cell is marked as merged exactly where a tile stands after the push that stood neither there
/// nor right behind it, and in no other cell.
pub proof fn merges_are_marked_where_a_new_tile_arises(
    cells: Seq<u16>,
    direction: Direction,
    l: int,
)
    requires
        cells.len() == 16,
        push_fits(cells, direction),
        0 <= l < 4,
    ensures
        forall|k: int|
            0 <= k < 3 ==> (merged_cells_of(cells, direction)[#[trigger] line_cell(direction, l, k)]
                <==> slid_cells(cells, direction)[line_cell(direction, l, k)] != cells[line_cell(
                direction,
                l,
                k,
            )] && slid_cells(cells, direction)[line_cell(direction, l, k)] != cells[line_cell(
                direction,
                l,
                k + 1,
            )]),
        !merged_cells_of(cells, direction)[line_cell(direction, l, 3)],
        moved_lines_of(cells, direction)[l] <==> exists|k: int|
            0 <= k < 4 && slid_cells(cells, direction)[#[trigger] line_cell(direction, l, k)]
                != cells[line_cell(direction, l, k)],
        any_merge(cells, direction) <==> exists|idx: int|
            0 <= idx < 16 && #[trigger] merged_cells_of(cells, direction)[idx],
{
    let line = line_at(cells, direction, l);
    assert(line_fits(line));
    lines_cover_the_board(direction, l, 3, 0);
    assert forall|k: int| 0 <= k < 3 implies (merged_cells_of(cells, direction)[#[trigger] line_cell(
        direction,
        l,
        k,
    )] <==> slid_cells(cells, direction)[line_cell(direction, l, k)] != cells[line_cell(
        direction,
        l,
        k,
    )] && slid_cells(cells, direction)[line_cell(direction, l, k)] != cells[line_cell(
        direction,
        l,
        k + 1,
    )]) by {
        lines_cover_the_board(direction, l, k, 0);
        lines_cover_the_board(direction, l, k + 1, 0);
        assert(line[k] == cells[line_cell(direction, l, k)]);
        assert(line[k + 1] == cells[line_cell(direction, l, k + 1)]);
        assert(slid_cells(cells, direction)[line_cell(direction, l, k)] == slid_line(line)[k]);
    }
    assert(moved_lines_of(cells, direction)[l] == line_moves(line));
    if line_moves(line) {
        let k = pivot(line) - 1;
        lines_cover_the_board(direction, l, k, 0);
        assert(slid_cells(cells, direction)[line_cell(direction, l, k)] == slid_line(line)[k]);
        assert(slid_line(line)[k] != line[k]);
        assert(line[k] == cells[line_cell(direction, l, k)]);
    } else {
        assert forall|k: int| 0 <= k < 4 implies slid_cells(
            cells,
            direction,
        )[#[trigger] line_cell(direction, l, k)] == cells[line_cell(direction, l, k)] by {
            lines_cover_the_board(direction, l, k, 0);
        }
    }
    if any_merge(cells, direction) {
        let m = choose|m: int| 0 <= m < 4 && #[trigger] line_merges(line_at(cells, direction, m));
        let merging = line_at(cells, direction, m);
        let k = pivot(merging) - 1;
        lines_cover_the_board(direction, m, k, 0);
        assert(merged_cells_of(cells, direction)[line_cell(direction, m, k)]);
    }
    if exists|idx: int| 0 <= idx < 16 && #[trigger] merged_cells_of(cells, direction)[idx] {
        let idx = choose|idx: int|
            0 <= idx < 16 && #[trigger] merged_cells_of(cells, direction)[idx];
        lines_cover_the_board(direction, 0, 0, idx);
        assert(line_merges(line_at(cells, direction, line_of_cell(direction, idx))));
    }
}

// ---------------------------------------------------------------------------------------------
// The whole board
// ---------------------------------------------------------------------------------------------

/// A push to the left pushes every row toward its first cell, one to the right every row toward
/// its last cell, one up every column toward its top and one down every column toward its bottom.
pub proof fn a_push_works_line_by_line(cells: Seq<u16>, n: int)
    requires
        cells.len() == 16,
        0 <= n < 4,
    ensures
        ({
            let row = seq![cells[4 * n], cells[4 * n + 1], cells[4 * n + 2], cells[4 * n + 3]];
            let back = seq![cells[4 * n + 3], cells[4 * n + 2], cells[4 * n + 1], cells[4 * n]];
            let column = seq![cells[n], cells[n + 4], cells[n + 8], cells[n + 12]];
            let rising = seq![cells[n + 12], cells[n + 8], cells[n + 4], cells[n]];
            let left = slid_cells(cells, Direction::Left);
            let right = slid_cells(cells, Direction::Right);
            let up = slid_cells(cells, Direction::Up);
            let down = slid_cells(cells, Direction::Down);
            &&& left.len() == 16 && right.len() == 16 && up.len() == 16 && down.len() == 16
            &&& forall|k: int|
                0 <= k < 4 ==> left[4 * n + k] == #[trigger] slid_line(row)[k]
            &&& forall|k: int|
                0 <= k < 4 ==> right[4 * n + 3 - k] == #[trigger] slid_line(back)[k]
            &&& forall|k: int| 0 <= k < 4 ==> up[n + 4 * k] == #[trigger] slid_line(column)[k]
            &&& forall|k: int|
                0 <= k < 4 ==> down[n + 12 - 4 * k] == #[trigger] slid_line(rising)[k]
            &&& line_moves(row) ==> moves(cells, Direction::Left)
            &&& line_moves(back) ==> moves(cells, Direction::Right)
            &&& line_moves(column) ==> moves(cells, Direction::Up)
            &&& line_moves(rising) ==> moves(cells, Direction::Down)
        }),
{
    let row = seq![cells[4 * n], cells[4 * n + 1], cells[4 * n + 2], cells[4 * n + 3]];
    let back = seq![cells[4 * n + 3], cells[4 * n + 2], cells[4 * n + 1], cells[4 * n]];
    let column = seq![cells[n], cells[n + 4], cells[n + 8], cells[n + 12]];
    let rising = seq![cells[n + 12], cells[n + 8], cells[n + 4], cells[n]];
    assert(line_at(cells, Direction::Left, n) =~= row);
    assert(line_at(cells, Direction::Right, n) =~= back);
    assert(line_at(cells, Direction::Up, n) =~= column);
    assert(line_at(cells, Direction::Down, n) =~= rising);
}

/// A push is legal exactly where it changes the board.
pub proof fn a_push_is_legal_where_it_changes_the_board(cells: Seq<u16>, direction: Direction)
    requires
        cells.len() == 16,
        push_fits(cells, direction),
    ensures
        moves(cells, direction) <==> slid_cells(cells, direction) != cells,
{
    let after = slid_cells(cells, direction);
    if moves(cells, direction) {
        let l = choose|l: int| 0 <= l < 4 && #[trigger] line_moves(line_at(cells, direction, l));
        let line = line_at(cells, direction, l);
        let k = pivot(line) - 1;
        lines_cover_the_board(direction, l, k, 0);
        assert(slid_line(line)[k] != line[k]);
        assert(after[line_cell(direction, l, k)] == slid_line(line)[k]);
    } else {
        assert forall|i: int| 0 <= i < 16 implies after[i] == cells[i] by {
            lines_cover_the_board(direction, 0, 0, i);
            assert(!line_moves(line_at(cells, direction, line_of_cell(direction, i))));
        }
        assert(after =~= cells);
    }
}

/// The rank in a row and a column.
pub open spec fn rank_in(cells: Seq<u16>, row: int, col: int) -> u16 {
    cells[row * 4 + col]
}

/// Whether two neighbouring tiles on the board merge.
pub open spec fn neighbours_merge(cells: Seq<u16>) -> bool {
    ||| exists|r: int, c: int|
        0 <= r < 4 && 0 <= c < 3 && merges(
            #[trigger] rank_in(cells, r, c),
            rank_in(cells, r, c + 1),
        )
    ||| exists|r: int, c: int|
        0 <= r < 3 && 0 <= c < 4 && merges(
            #[trigger] rank_in(cells, r, c),
            rank_in(cells, r + 1, c),
        )
}

/// A board with a tile has no legal move exactly where it is full and no two neighbouring tiles
/// merge.
pub proof fn no_legal_move_means_full_and_unmergeable(cells: Seq<u16>)
    requires
        cells.len() == 16,
        exists|i: int| 0 <= i < 16 && cells[i] != 0,
    ensures
        (forall|direction: Direction| !moves(cells, direction)) <==> ((forall|i: int|
            0 <= i < 16 ==> cells[i] != 0) && !neighbours_merge(cells)),
{
    if forall|direction: Direction| !moves(cells, direction) {
        lemma_stuck_is_full(cells);
    }
    if (forall|i: int| 0 <= i < 16 ==> cells[i] != 0) && !neighbours_merge(cells) {
        lemma_full_is_stuck(cells);
    }
}

proof fn lemma_stuck_is_full(cells: Seq<u16>)
    requires
        cells.len() == 16,
        exists|i: int| 0 <= i < 16 && cells[i] != 0,
        forall|direction: Direction| !moves(cells, direction),
    ensures
        forall|i: int| 0 <= i < 16 ==> cells[i] != 0,
        !neighbours_merge(cells),
{
    assert forall|direction: Direction, l: int, k: int| 0 <= l < 4 && 1 <= k < 4 implies
        !#[trigger] advances(line_at(cells, direction, l), k) by {
        assert(!moves(cells, direction));
        assert(!line_moves(line_at(cells, direction, l)));
        let line = line_at(cells, direction, l);
        assert(k == 1 || k == 2 || k == 3);
    }
    assert forall|r: int, c: int| 0 <= r < 4 && 0 <= c < 3 implies !merges(
        #[trigger] rank_in(cells, r, c),
        rank_in(cells, r, c + 1),
    ) && (rank_in(cells, r, c) == 0 <==> rank_in(cells, r, c + 1) == 0) by {
        assert(!advances(line_at(cells, Direction::Left, r), c + 1));
        assert(!advances(line_at(cells, Direction::Right, r), 3 - c));
    }
    assert forall|r: int, c: int| 0 <= r < 3 && 0 <= c < 4 implies !merges(
        #[trigger] rank_in(cells, r, c),
        rank_in(cells, r + 1, c),
    ) && (rank_in(cells, r, c) == 0 <==> rank_in(cells, r + 1, c) == 0) by {
        assert(!advances(line_at(cells, Direction::Up, c), r + 1));
        assert(!advances(line_at(cells, Direction::Down, c), 3 - r));
    }
    assert forall|i: int| 0 <= i < 16 implies (#[trigger] cells[i] == 0 <==> cells[0] == 0) by {
        let r = i / 4;
        let c = i % 4;
        assert(rank_in(cells, r, c) == cells[i]);
        assert(rank_in(cells, 0, 0) == cells[0]);
        assert(rank_in(cells, 0, 0) == 0 <==> rank_in(cells, 1, 0) == 0);
        assert(rank_in(cells, 1, 0) == 0 <==> rank_in(cells, 2, 0) == 0);
        assert(rank_in(cells, 2, 0) == 0 <==> rank_in(cells, 3, 0) == 0);
        assert(rank_in(cells, r, 0) == 0 <==> rank_in(cells, r, 1) == 0);
        assert(rank_in(cells, r, 1) == 0 <==> rank_in(cells, r, 2) == 0);
        assert(rank_in(cells, r, 2) == 0 <==> rank_in(cells, r, 3) == 0);
        assert(r == 0 || r == 1 || r == 2 || r == 3);
        assert(c == 0 || c == 1 || c == 2 || c == 3);
    }
}

proof fn lemma_full_is_stuck(cells: Seq<u16>)
    requires
        cells.len() == 16,
        forall|i: int| 0 <= i < 16 ==> cells[i] != 0,
        !neighbours_merge(cells),
    ensures
        forall|direction: Direction| !moves(cells, direction),
{
    assert forall|direction: Direction, l: int, k: int| 0 <= l < 4 && 1 <= k < 4 implies
        !#[trigger] advances(line_at(cells, direction, l), k) by {
        lines_cover_the_board(direction, l, k, 0);
        lines_cover_the_board(direction, l, k - 1, 0);
        match direction {
            Direction::Left => {
                assert(!merges(rank_in(cells, l, k - 1), rank_in(cells, l, k - 1 + 1)));
            },
            Direction::Right => {
                assert(!merges(rank_in(cells, l, 3 - k), rank_in(cells, l, 3 - k + 1)));
            },
            Direction::Up => {
                assert(!merges(rank_in(cells, k - 1, l), rank_in(cells, k - 1 + 1, l)));
            },
            Direction::Down => {
                assert(!merges(rank_in(cells, 3 - k, l), rank_in(cells, 3 - k + 1, l)));
            },
        }
    }
    assert forall|direction: Direction| !moves(cells, direction) by {
        assert forall|l: int| 0 <= l < 4 implies !#[trigger] line_moves(
            line_at(cells, direction, l),
        ) by {
            let line = line_at(cells, direction, l);
            assert(!advances(line, 1) && !advances(line, 2) && !advances(line, 3));
        }
    }
}

/// The board mirrored left to right.
pub open spec fn mirrored(cells: Seq<u16>) -> Seq<u16> {
    Seq::new(16, |i: int| cells[(i / 4) * 4 + (3 - i % 4)])
}

/// The board with rows and columns exchanged.
pub open spec fn transposed(cells: Seq<u16>) -> Seq<u16> {
    Seq::new(16, |i: int| cells[(i % 4) * 4 + i / 4])
}

/// A push to the right is the mirror image of a push to the left, and a push up or down is a
/// push to the left or right with rows and columns exchanged.
pub proof fn pushes_are_symmetric(cells: Seq<u16>)
    requires
        cells.len() == 16,
    ensures
        slid_cells(mirrored(cells), Direction::Left) == mirrored(
            slid_cells(cells, Direction::Right),
        ),
        slid_cells(transposed(cells), Direction::Left) == transposed(
            slid_cells(cells, Direction::Up),
        ),
        slid_cells(transposed(cells), Direction::Right) == transposed(
            slid_cells(cells, Direction::Down),
        ),
{
    assert forall|l: int| 0 <= l < 4 implies #[trigger] line_at(mirrored(cells), Direction::Left, l)
        == line_at(cells, Direction::Right, l) by {
        assert(line_at(mirrored(cells), Direction::Left, l) =~= line_at(
            cells,
            Direction::Right,
            l,
        ));
    }
    assert forall|l: int| 0 <= l < 4 implies #[trigger] line_at(
        transposed(cells),
        Direction::Left,
        l,
    ) == line_at(cells, Direction::Up, l) by {
        assert(line_at(transposed(cells), Direction::Left, l) =~= line_at(
            cells,
            Direction::Up,
            l,
        ));
    }
    assert forall|l: int| 0 <= l < 4 implies #[trigger] line_at(
        transposed(cells),
        Direction::Right,
        l,
    ) == line_at(cells, Direction::Down, l) by {
        assert(line_at(transposed(cells), Direction::Right, l) =~= line_at(
            cells,
            Direction::Down,
            l,
        ));
    }
    assert(slid_cells(mirrored(cells), Direction::Left) =~= mirrored(
        slid_cells(cells, Direction::Right),
    ));
    assert(slid_cells(transposed(cells), Direction::Left) =~= transposed(
        slid_cells(cells, Direction::Up),
    ));
    assert(slid_cells(transposed(cells), Direction::Right) =~= transposed(
        slid_cells(cells, Direction::Down),
    ));
}


// ---------------------------------------------------------------------------------------------
// Faces and points
// ---------------------------------------------------------------------------------------------

/// The first four faces are the ranks themselves; from rank 3 on the face doubles with every rank,
/// as long as it fits.
pub proof fn faces_double_from_three_on(rank: int)
    requires
        3 <= rank < 65,
    ensures
        face_of(0) == 0 && face_of(1) == 1 && face_of(2) == 2 && face_of(3) == 3,
        face_of(rank + 1) == 2 * face_of(rank),
{
    vstd::arithmetic::power::lemma_pow0(2);
    reveal(pow);
    assert(pow(2, (rank - 2) as nat) == 2 * pow(2, (rank - 3) as nat));
}

/// Below rank 3 a tile has no points, a 3 has three, and from there on the points triple with
/// every rank until they are cut off.
pub proof fn points_triple_from_three_on(rank: int)
    requires
        3 <= rank,
    ensures
        points_of(0) == 0 && points_of(1) == 0 && points_of(2) == 0 && points_of(3) == 3,
        3 * points_of(rank) <= u64::MAX ==> points_of(rank + 1) == 3 * points_of(rank),
        3 * points_of(rank) > u64::MAX ==> points_of(rank + 1) == u64::MAX,
{
    vstd::arithmetic::power::lemma_pow1(3);
    reveal(pow);
    assert(pow(3, (rank - 1) as nat) == 3 * pow(3, (rank - 2) as nat));
    vstd::arithmetic::power::lemma_pow_positive(3, (rank - 2) as nat);
}

/// The score grows with the board: a free cell adds nothing, and a tile adds its points, up to the
/// highest number.
pub proof fn a_tile_adds_its_points(ranks: Seq<u16>, rank: u16)
    ensures
        total_points(Seq::<u16>::empty()) == 0,
        total_points(ranks.push(0)) == total_points(ranks),
        total_points(ranks) + points_of(rank as int) <= u64::MAX ==> total_points(ranks.push(rank))
            == total_points(ranks) + points_of(rank as int),
        total_points(ranks) + points_of(rank as int) > u64::MAX ==> total_points(ranks.push(rank))
            == u64::MAX,
{
    score_is_the_cut_off_sum(ranks);
    assert(ranks.push(0).drop_last() =~= ranks);
    assert(ranks.push(rank).drop_last() =~= ranks);
}

/// Every rank is shown by its face, in its place.
pub proof fn every_cell_shows_its_face(ranks: Seq<u16>, i: int)
    requires
        0 <= i < ranks.len(),
    ensures
        faces_of(ranks).len() == ranks.len(),
        faces_of(ranks)[i] as int == face_of(ranks[i] as int),
{
    crate::board::every_face_fits(ranks[i] as int);
}

/// Number of cells before a cell that hold no tile.
pub open spec fn free_before(cells: Seq<u16>, cell: int) -> nat {
    occurrences(cells.take(cell), 0u16)
}

/// The list of free cells holds the cells without a tile, from the first to the last: before each
/// of them in the list stand as many cells as are free before it on the board.
#[verifier::spinoff_prover]
pub proof fn free_cells_are_listed_in_order(cells: Seq<u16>, end: int)
    requires
        0 <= end <= cells.len() <= usize::MAX,
    ensures
        free_cells(cells, end).len() == occurrences(cells.take(end), 0u16),
        forall|i: int|
            0 <= i < free_cells(cells, end).len() ==> {
                let cell = #[trigger] free_cells(cells, end)[i];
                &&& cell < end
                &&& cells[cell as int] == 0
                &&& free_before(cells, cell as int) == i
            },
        forall|cell: int|
            0 <= cell < end && cells[cell] == 0 ==> #[trigger] free_before(cells, cell)
                < free_cells(cells, end).len() && free_cells(cells, end)[free_before(
                cells,
                cell,
            ) as int] == cell,
    decreases end,
{
    if end > 0 {
        free_cells_are_listed_in_order(cells, end - 1);
        let shorter = free_cells(cells, end - 1);
        let list = free_cells(cells, end);
        assert(cells.take(end).drop_last() =~= cells.take(end - 1));
        assert(free_before(cells, end - 1) == shorter.len());
        assert forall|i: int| 0 <= i < list.len() implies {
            let cell = #[trigger] list[i];
            &&& cell < end
            &&& cells[cell as int] == 0
            &&& free_before(cells, cell as int) == i
        } by {
            if i < shorter.len() {
                assert(list[i] == shorter[i]);
            } else {
                assert(list[i] == end - 1);
            }
        }
        assert forall|cell: int| 0 <= cell < end && cells[cell] == 0 implies #[trigger] free_before(
            cells,
            cell,
        ) < list.len() && list[free_before(cells, cell) as int] == cell by {
            let place = free_before(cells, cell) as int;
            if cell < end - 1 {
                assert(shorter[place] == cell);
                assert(list[place] == shorter[place]);
            }
        }
    }
}

/// The bits of the mask of legal moves are 1 for up, 2 for down, 4 for left and 8 for right, and
/// the list of legal moves has them in this order.
pub proof fn legal_moves_have_their_bits_and_their_order(cells: Seq<u16>)
    ensures
        ({
            let mask = legal_mask(cells);
            let list = legal_moves(cells);
            &&& 0 <= mask < 16
            &&& mask % 2 == 1 <==> moves(cells, Direction::Up)
            &&& (mask / 2) % 2 == 1 <==> moves(cells, Direction::Down)
            &&& (mask / 4) % 2 == 1 <==> moves(cells, Direction::Left)
            &&& mask / 8 == 1 <==> moves(cells, Direction::Right)
            &&& moves(cells, Direction::Up) ==> list.len() > 0 && list[0] == Direction::Up
            &&& moves(cells, Direction::Right) ==> list.len() > 0 && list.last()
                == Direction::Right
            &&& moves(cells, Direction::Down) && moves(cells, Direction::Left) ==> exists|i: int|
                0 <= i < list.len() - 1 && #[trigger] list[i] == Direction::Down && list[i + 1]
                    == Direction::Left
        }),
{
    reveal_with_fuel(crate::board::legal_among, 5);
    let list = legal_moves(cells);
    if moves(cells, Direction::Down) && moves(cells, Direction::Left) {
        if moves(cells, Direction::Up) {
            assert(list[1] == Direction::Down && list[2] == Direction::Left);
        } else {
            assert(list[0] == Direction::Down && list[1] == Direction::Left);
        }
    }
}

/// The sum of a value over some ranks.
pub open spec fn total(ranks: Seq<u16>, value: spec_fn(u16) -> int) -> int
    decreases ranks.len(),
{
    if ranks.len() == 0 {
        0
    } else {
        total(ranks.drop_last(), value) + value(ranks.last())
    }
}

/// The sum of the faces of some ranks.
pub open spec fn face_total(ranks: Seq<u16>) -> int {
    total(ranks, |rank: u16| face_of(rank as int))
}

/// The points of a rank without the cut-off.
pub open spec fn exact_points(rank: int) -> int {
    if rank < 3 {
        0
    } else {
        pow(3, (rank - 2) as nat)
    }
}

/// The sum of the points of some ranks, without the cut-off.
pub open spec fn exact_total(ranks: Seq<u16>) -> int {
    total(ranks, |rank: u16| exact_points(rank as int))
}

proof fn lemma_exact_points_positive(rank: int)
    ensures
        exact_points(rank) >= 0,
{
    if rank >= 3 {
        vstd::arithmetic::power::lemma_pow_positive(3, (rank - 2) as nat);
    }
}

/// The score of a board is the exact sum of its points, cut off once at `u64::MAX`.
pub proof fn score_is_the_cut_off_sum(ranks: Seq<u16>)
    ensures
        total_points(ranks) == saturated(exact_total(ranks)),
        exact_total(ranks) >= 0,
    decreases ranks.len(),
{
    if ranks.len() > 0 {
        score_is_the_cut_off_sum(ranks.drop_last());
        lemma_exact_points_positive(ranks.last() as int);
        assert(points_of(ranks.last() as int) == saturated(exact_points(ranks.last() as int)));
    }
}

spec fn line_total(line: Seq<u16>, value: spec_fn(u16) -> int) -> int {
    value(line[0]) + value(line[1]) + value(line[2]) + value(line[3])
}

proof fn lemma_total_by_cell(cells: Seq<u16>, value: spec_fn(u16) -> int)
    requires
        cells.len() == 16,
    ensures
        total(cells, value) == value(cells[0]) + value(cells[1]) + value(cells[2]) + value(cells[3])
            + value(cells[4]) + value(cells[5]) + value(cells[6]) + value(cells[7]) + value(
            cells[8],
        ) + value(cells[9]) + value(cells[10]) + value(cells[11]) + value(cells[12]) + value(
            cells[13],
        ) + value(cells[14]) + value(cells[15]),
{
    reveal_with_fuel(total, 17);
}

proof fn lemma_total_by_line(cells: Seq<u16>, direction: Direction, value: spec_fn(u16) -> int)
    requires
        cells.len() == 16,
    ensures
        total(cells, value) == line_total(line_at(cells, direction, 0), value) + line_total(
            line_at(cells, direction, 1),
            value,
        ) + line_total(line_at(cells, direction, 2), value) + line_total(
            line_at(cells, direction, 3),
            value,
        ),
{
    lemma_total_by_cell(cells, value);
}

proof fn lemma_merge_keeps_faces(front: u16, back: u16)
    requires
        merges(front, back),
        front <= 64,
    ensures
        face_of(merged_rank(front)) == face_of(front as int) + face_of(back as int),
{
    vstd::arithmetic::power::lemma_pow0(2);
    if front >= 3 {
        reveal(pow);
        assert(pow(2, (front - 2) as nat) == 2 * pow(2, (front - 3) as nat));
    }
}

proof fn lemma_merge_gains_points(front: u16, back: u16)
    requires
        merges(front, back),
    ensures
        exact_points(merged_rank(front)) >= exact_points(front as int) + exact_points(back as int),
{
    reveal(pow);
    if front >= 3 {
        vstd::arithmetic::power::lemma_pow_positive(3, (front - 2) as nat);
        assert(pow(3, (front - 1) as nat) == 3 * pow(3, (front - 2) as nat));
    } else {
        vstd::arithmetic::power::lemma_pow_positive(3, 1);
    }
}

proof fn lemma_line_sums(line: Seq<u16>)
    requires
        line.len() == 4,
        line_fits(line),
    ensures
        (forall|j: int| 0 <= j < 4 ==> line[j] <= 64) ==> line_total(
            slid_line(line),
            |rank: u16| face_of(rank as int),
        ) == line_total(line, |rank: u16| face_of(rank as int)),
        line_total(slid_line(line), |rank: u16| exact_points(rank as int)) >= line_total(
            line,
            |rank: u16| exact_points(rank as int),
        ),
{
    if line_merges(line) {
        let front = line[pivot(line) - 1];
        let back = line[pivot(line)];
        lemma_merge_gains_points(front, back);
        if forall|j: int| 0 <= j < 4 ==> line[j] <= 64 {
            lemma_merge_keeps_faces(front, back);
        }
    }
}

proof fn lemma_lines_of_the_board(cells: Seq<u16>, direction: Direction, l: int)
    requires
        cells.len() == 16,
        0 <= l < 4,
    ensures
        line_at(slid_cells(cells, direction), direction, l) == slid_line(
            line_at(cells, direction, l),
        ),
{
    let after = slid_cells(cells, direction);
    assert forall|k: int| 0 <= k < 4 implies line_at(after, direction, l)[k] == slid_line(
        line_at(cells, direction, l),
    )[k] by {
        lines_cover_the_board(direction, l, k, 0);
    }
    assert(line_at(after, direction, l) =~= slid_line(line_at(cells, direction, l)));
}

/// A push keeps the sum of the faces on the board, as long as every rank is at most 64.
pub proof fn a_push_keeps_the_face_total(cells: Seq<u16>, direction: Direction)
    requires
        cells.len() == 16,
        forall|i: int| 0 <= i < 16 ==> cells[i] <= 64,
    ensures
        face_total(slid_cells(cells, direction)) == face_total(cells),
{
    let value = |rank: u16| face_of(rank as int);
    lemma_total_by_line(cells, direction, value);
    lemma_total_by_line(slid_cells(cells, direction), direction, value);
    assert forall|l: int| 0 <= l < 4 implies line_total(
        #[trigger] line_at(slid_cells(cells, direction), direction, l),
        value,
    ) == line_total(line_at(cells, direction, l), value) by {
        lemma_lines_of_the_board(cells, direction, l);
        lemma_line_sums(line_at(cells, direction, l));
    }
}

/// A push never lowers the score.
pub proof fn a_push_never_lowers_the_score(cells: Seq<u16>, direction: Direction)
    requires
        cells.len() == 16,
        push_fits(cells, direction),
    ensures
        total_points(slid_cells(cells, direction)) >= total_points(cells),
{
    let value = |rank: u16| exact_points(rank as int);
    lemma_total_by_line(cells, direction, value);
    lemma_total_by_line(slid_cells(cells, direction), direction, value);
    assert forall|l: int| 0 <= l < 4 implies line_total(
        #[trigger] line_at(slid_cells(cells, direction), direction, l),
        value,
    ) >= line_total(line_at(cells, direction, l), value) by {
        lemma_lines_of_the_board(cells, direction, l);
        lemma_line_sums(line_at(cells, direction, l));
    }
    score_is_the_cut_off_sum(cells);
    score_is_the_cut_off_sum(slid_cells(cells, direction));
}

// ---------------------------------------------------------------------------------------------
// The highest rank
// ---------------------------------------------------------------------------------------------

/// The highest rank is an upper bound, and some cell holds it unless there is no cell.
pub proof fn highest_is_the_maximum(ranks: Seq<u16>)
    ensures
        forall|i: int| 0 <= i < ranks.len() ==> ranks[i] <= highest(ranks),
        ranks.len() > 0 ==> ranks.contains(highest(ranks)),
    decreases ranks.len(),
{
    if ranks.len() > 0 {
        highest_is_the_maximum(ranks.drop_last());
        assert forall|i: int| 0 <= i < ranks.len() implies ranks[i] <= highest(ranks) by {
            if i < ranks.len() - 1 {
                assert(ranks.drop_last()[i] == ranks[i]);
            }
        }
        if ranks.last() > highest(ranks.drop_last()) {
            assert(ranks[ranks.len() - 1] == highest(ranks));
        } else if ranks.len() > 1 {
            let i = choose|i: int|
                0 <= i < ranks.len() - 1 && ranks.drop_last()[i] == highest(ranks.drop_last());
            assert(ranks[i] == highest(ranks));
        } else {
            assert(ranks[0] == 0);
        }
    }
}

proof fn lemma_a_tile_never_shrinks(line: Seq<u16>, k: int)
    requires
        line.len() == 4,
        line_fits(line),
        0 <= k < 4,
    ensures
        k > 0 && slid_line(line)[k - 1] >= line[k] || slid_line(line)[k] >= line[k],
{
}

/// A push never lowers the highest rank, and raises it by at most one, or to 3.
pub proof fn a_push_raises_the_highest_rank_by_at_most_one(cells: Seq<u16>, direction: Direction)
    requires
        cells.len() == 16,
        push_fits(cells, direction),
    ensures
        highest(slid_cells(cells, direction)) >= highest(cells),
        highest(slid_cells(cells, direction)) <= highest(cells) + 1 || highest(
            slid_cells(cells, direction),
        ) <= 3,
{
    let after = slid_cells(cells, direction);
    highest_is_the_maximum(cells);
    highest_is_the_maximum(after);
    assert(highest(after) >= highest(cells)) by {
        let top = choose|i: int| 0 <= i < 16 && cells[i] == highest(cells);
        let l = line_of_cell(direction, top);
        let k = offset_of_cell(direction, top);
        lines_cover_the_board(direction, 0, 0, top);
        lemma_a_tile_never_shrinks(line_at(cells, direction, l), k);
        lemma_lines_of_the_board(cells, direction, l);
        assert(line_at(after, direction, l)[k] == after[top]);
        if k > 0 {
            lines_cover_the_board(direction, l, k - 1, 0);
            assert(line_at(after, direction, l)[k - 1] == after[line_cell(direction, l, k - 1)]);
        }
    }
    let peak = choose|i: int| 0 <= i < 16 && after[i] == highest(after);
    let l = line_of_cell(direction, peak);
    let k = offset_of_cell(direction, peak);
    let line = line_at(cells, direction, l);
    lines_cover_the_board(direction, 0, 0, peak);
    lemma_lines_of_the_board(cells, direction, l);
    assert(line_at(after, direction, l)[k] == after[peak]);
    tiles_move_at_most_one_cell(line, k);
    lines_cover_the_board(direction, l, k, 0);
    assert(line[k] == cells[line_cell(direction, l, k)]);
    if k < 3 {
        lines_cover_the_board(direction, l, k + 1, 0);
        assert(line[k + 1] == cells[line_cell(direction, l, k + 1)]);
    }
}

/// The directions have the bits 1, 2, 4 and 8 and their English names.
pub proof fn directions_have_their_bits_and_names(direction: Direction)
    ensures
        direction == Direction::Up ==> direction.spec_mask() == 1 && direction.spec_name() == "up"@,
        direction == Direction::Down ==> direction.spec_mask() == 2 && direction.spec_name()
            == "down"@,
        direction == Direction::Left ==> direction.spec_mask() == 4 && direction.spec_name()
            == "left"@,
        direction == Direction::Right ==> direction.spec_mask() == 8 && direction.spec_name()
            == "right"@,
{
}

/// A face is read as the one rank up to 65 that shows it, and as none where there is no such rank.
pub proof fn a_face_is_read_as_the_rank_that_shows_it(face: int, rank: int)
    ensures
        rank_showing(face) == Some(rank) <==> 0 <= rank <= 65 && face_of(rank) == face,
{
    if 0 <= rank <= 65 && face_of(rank) == face {
        crate::board::face_round_trip(rank);
    }
}

} // verus!

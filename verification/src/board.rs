//! The 4x4 board: ranks, faces, scores and the one-cell slide.

use vstd::arithmetic::power::pow;
use vstd::prelude::*;

verus! {

/// Number of rows and of columns.
pub const SIZE: usize = 4;

/// Number of cells.
pub const CELLS: usize = 16;

/// A direction in which the whole board is pushed.
#[derive(Clone, Copy, Debug, PartialEq, Eq, Structural)]
pub enum Direction {
    Up,
    Down,
    Left,
    Right,
}

impl Direction {
    /// Every direction, in the order in which legal moves are reported.
    pub const ALL: [Direction; 4] = [
        Direction::Up,
        Direction::Down,
        Direction::Left,
        Direction::Right,
    ];

    /// The name of a direction.
    pub open spec fn spec_name(self) -> Seq<char> {
        match self {
            Direction::Up => "up"@,
            Direction::Down => "down"@,
            Direction::Left => "left"@,
            Direction::Right => "right"@,
        }
    }

    /// The bit of a direction in a mask of directions.
    pub open spec fn spec_mask(self) -> u8 {
        match self {
            Direction::Up => 1,
            Direction::Down => 2,
            Direction::Left => 4,
            Direction::Right => 8,
        }
    }

    /// The lower-case name of the direction.
    pub fn as_str(self) -> (name: &'static str)
        ensures
            name@ == self.spec_name(),
    {
        match self {
            Direction::Up => "up",
            Direction::Down => "down",
            Direction::Left => "left",
            Direction::Right => "right",
        }
    }

    /// The bit that stands for the direction in a mask of directions.
    pub fn mask(self) -> (bit: u8)
        ensures
            bit == self.spec_mask(),
    {
        match self {
            Direction::Up => 1,
            Direction::Down => 2,
            Direction::Left => 4,
            Direction::Right => 8,
        }
    }
}

// ---------------------------------------------------------------------------------------------
// Ranks, faces and scores
// ---------------------------------------------------------------------------------------------

/// The number shown on a tile of a rank: 0 to 3 for the first four ranks, then doubling. The
/// doubling drops the top bit once at rank 66 and is cut off at `u64::MAX` from rank 67 on.
pub open spec fn face_of(rank: int) -> int {
    if rank < 3 {
        rank
    } else if rank <= 65 {
        3 * pow(2, (rank - 3) as nat)
    } else if rank == 66 {
        pow(2, 63)
    } else {
        u64::MAX as int
    }
}

/// The points of a tile of a rank: a power of three from rank 3 on, cut off at `u64::MAX`.
pub open spec fn points_of(rank: int) -> int {
    if rank < 3 {
        0
    } else {
        saturated(pow(3, (rank - 2) as nat))
    }
}

/// A sum or power that is cut off at `u64::MAX`.
pub open spec fn saturated(n: int) -> int {
    if n <= u64::MAX {
        n
    } else {
        u64::MAX as int
    }
}

proof fn lemma_pow2_62()
    ensures
        pow(2, 62) == 0x4000_0000_0000_0000,
        pow(2, 63) == 0x8000_0000_0000_0000,
{
    vstd::arithmetic::power2::lemma2_to64_rest();
    vstd::arithmetic::power2::lemma_pow2(62);
    vstd::arithmetic::power2::lemma_pow2(63);
}

/// The face of a rank.
pub fn rank_to_face(rank: u16) -> (face: u64)
    ensures
        face == face_of(rank as int),
{
    if rank < 3 {
        return rank as u64;
    }
    let shift: u16 = rank - 3;
    proof {
        lemma_pow2_62();
    }
    if shift >= 64 {
        u64::MAX
    } else if shift == 63 {
        assert(3u64 << 63u64 == 0x8000_0000_0000_0000u64) by (bit_vector);
        3u64 << 63u64
    } else {
        proof {
            vstd::arithmetic::power::lemma_pow_increases(2, shift as nat, 62);
            vstd::arithmetic::power::lemma_pow_positive(2, shift as nat);
            vstd::bits::lemma_u64_shl_is_mul(3, shift as u64);
            vstd::arithmetic::power2::lemma_pow2(shift as nat);
        }
        3u64 << (shift as u64)
    }
}

/// The points of a rank.
pub fn rank_score(rank: u16) -> (points: u64)
    ensures
        points == points_of(rank as int),
{
    if rank < 3 {
        return 0;
    }
    let exponent: u16 = rank - 2;
    let mut power: u64 = 1;
    let mut i: u16 = 0;
    proof {
        vstd::arithmetic::power::lemma_pow0(3);
    }
    while i < exponent
        invariant
            i <= exponent,
            exponent == rank - 2,
            rank >= 3,
            power == pow(3, i as nat),
        decreases exponent - i,
    {
        proof {
            reveal(pow);
            assert(pow(3, (i + 1) as nat) == 3 * pow(3, i as nat));
            vstd::arithmetic::power::lemma_pow_increases(3, (i + 1) as nat, exponent as nat);
        }
        match power.checked_mul(3) {
            Some(next) => {
                power = next;
            },
            None => {
                return u64::MAX;
            },
        }
        i = i + 1;
    }
    power
}

/// The rank of a face, for the faces that some rank up to 65 shows.
pub open spec fn rank_showing(face: int) -> Option<int> {
    if exists|rank: int| 0 <= rank <= 65 && #[trigger] face_of(rank) == face {
        Some(choose|rank: int| 0 <= rank <= 65 && #[trigger] face_of(rank) == face)
    } else {
        None
    }
}

/// Faces grow with the rank.
pub proof fn faces_grow(low: int, high: int)
    requires
        0 <= low < high <= 65,
    ensures
        face_of(low) < face_of(high),
{
    vstd::arithmetic::power::lemma_pow_positive(2, (high - 3) as nat);
    vstd::arithmetic::power::lemma_pow0(2);
    if low >= 3 {
        vstd::arithmetic::power::lemma_pow_strictly_increases(
            2,
            (low - 3) as nat,
            (high - 3) as nat,
        );
    }
}

/// Every face is a number of 64 bits.
pub proof fn every_face_fits(rank: int)
    requires
        0 <= rank,
    ensures
        0 <= face_of(rank) <= u64::MAX,
{
    lemma_pow2_62();
    if 3 <= rank <= 65 {
        vstd::arithmetic::power::lemma_pow_positive(2, (rank - 3) as nat);
        vstd::arithmetic::power::lemma_pow_increases(2, (rank - 3) as nat, 62);
    }
}

/// Two ranks up to 67 have two faces. All ranks from 67 on have the same one.
pub proof fn two_ranks_have_two_faces(low: int, high: int)
    requires
        0 <= low < high <= 67,
    ensures
        face_of(low) != face_of(high),
{
    lemma_pow2_62();
    if high <= 65 {
        faces_grow(low, high);
    } else if low == 66 {
        assert(face_of(low) < face_of(high));
    } else if low == 65 {
        assert(face_of(low) == 3 * pow(2, 62));
    } else {
        if low < 64 {
            faces_grow(low, 64);
        }
        vstd::arithmetic::power::lemma_pow_adds(2, 61, 1);
        vstd::arithmetic::power::lemma_pow1(2);
        assert(face_of(64) == 3 * pow(2, 61));
        assert(face_of(64) < pow(2, 63));
    }
}

/// A rank up to 65 is recovered from the face it shows.
pub proof fn face_round_trip(rank: int)
    requires
        0 <= rank <= 65,
    ensures
        rank_showing(face_of(rank)) == Some(rank),
{
    let found = rank_showing(face_of(rank))->Some_0;
    assert(face_of(rank) == face_of(rank));
    if found < rank {
        faces_grow(found, rank);
    }
    if rank < found {
        faces_grow(rank, found);
    }
}

/// The rank whose face this is, if a rank up to 65 shows it.
pub fn face_to_rank(face: u64) -> (rank: Option<u16>)
    ensures
        rank is Some <==> rank_showing(face as int) is Some,
        rank is Some ==> rank->Some_0 as int == rank_showing(face as int)->Some_0,
{
    if face <= 3 {
        proof {
            vstd::arithmetic::power::lemma_pow0(2);
            face_round_trip(face as int);
        }
        return Some(face as u16);
    }
    let mut quotient: u64 = 3;
    let mut rank: u16 = 3;
    proof {
        vstd::arithmetic::power::lemma_pow0(2);
        lemma_pow2_62();
    }
    while quotient < face && rank < 65
        invariant
            3 <= rank <= 65,
            quotient == face_of(rank as int),
            rank > 3 ==> face_of(rank - 1) < face,
            face > 3,
            pow(2, 62) == 0x4000_0000_0000_0000,
        decreases 65 - rank,
    {
        proof {
            reveal(pow);
            assert(pow(2, (rank + 1 - 3) as nat) == 2 * pow(2, (rank - 3) as nat));
            vstd::arithmetic::power::lemma_pow_increases(2, (rank + 1 - 3) as nat, 62);
        }
        quotient = quotient * 2;
        rank = rank + 1;
    }
    if quotient == face {
        proof {
            face_round_trip(rank as int);
        }
        Some(rank)
    } else {
        proof {
            if exists|r: int| 0 <= r <= 65 && #[trigger] face_of(r) == face {
                let r = choose|r: int| 0 <= r <= 65 && #[trigger] face_of(r) == face;
                if r < rank - 1 {
                    faces_grow(r, rank - 1);
                } else if r > rank {
                    faces_grow(rank as int, r);
                }
            }
        }
        None
    }
}

// ---------------------------------------------------------------------------------------------
// Merging and coordinates
// ---------------------------------------------------------------------------------------------

/// Whether a tile pushed against another one merges with it.
pub open spec fn merges(front: u16, back: u16) -> bool {
    ||| front == 1 && back == 2
    ||| front == 2 && back == 1
    ||| front >= 3 && front == back
}

/// The rank that a merge with a tile of this rank makes: 3 out of a 1 and a 2, else one more.
pub open spec fn merged_rank(front: u16) -> int {
    if front < 3 {
        3
    } else {
        front + 1
    }
}

/// The rank of two merged tiles, or `None` where they do not merge.
pub fn merge_rank(front: u16, back: u16) -> (rank: Option<u16>)
    requires
        !(front == u16::MAX && back == u16::MAX),
    ensures
        rank is Some <==> merges(front, back),
        rank is Some ==> rank->Some_0 == merged_rank(front),
{
    if (front == 1 && back == 2) || (front == 2 && back == 1) {
        Some(3)
    } else if front >= 3 && front == back {
        Some(front + 1)
    } else {
        None
    }
}

/// The cell in a row and a column.
pub fn index(row: usize, col: usize) -> (idx: usize)
    requires
        row * 4 + col <= usize::MAX,
    ensures
        idx == row * 4 + col,
{
    row * SIZE + col
}

/// The row and the column of a cell.
pub fn row_col(idx: usize) -> (at: (usize, usize))
    ensures
        at.0 == idx / 4,
        at.1 == idx % 4,
{
    (idx / SIZE, idx % SIZE)
}

/// A row and a column on the board are recovered from their cell.
pub proof fn row_col_inverts_index(row: int, col: int)
    requires
        0 <= row,
        0 <= col < 4,
    ensures
        (row * 4 + col) / 4 == row,
        (row * 4 + col) % 4 == col,
{
}

/// The row and column of the cell at an offset from the front of a line. The front is the side
/// toward which the board is pushed.
pub open spec fn line_coords(direction: Direction, line: int, offset: int) -> (int, int) {
    match direction {
        Direction::Left => (line, offset),
        Direction::Right => (line, 3 - offset),
        Direction::Up => (offset, line),
        Direction::Down => (3 - offset, line),
    }
}

/// The cell at an offset from the front of a line.
pub open spec fn line_cell(direction: Direction, line: int, offset: int) -> int {
    line_coords(direction, line, offset).0 * 4 + line_coords(direction, line, offset).1
}

/// The line on which a cell lies when the board is pushed in a direction.
pub open spec fn line_of_cell(direction: Direction, idx: int) -> int {
    match direction {
        Direction::Left | Direction::Right => idx / 4,
        Direction::Up | Direction::Down => idx % 4,
    }
}

/// The offset of a cell from the front of its line.
pub open spec fn offset_of_cell(direction: Direction, idx: int) -> int {
    match direction {
        Direction::Left => idx % 4,
        Direction::Right => 3 - idx % 4,
        Direction::Up => idx / 4,
        Direction::Down => 3 - idx / 4,
    }
}

/// Lines and offsets number the cells of the board one to one.
pub proof fn lines_cover_the_board(direction: Direction, line: int, offset: int, idx: int)
    requires
        0 <= line < 4,
        0 <= offset < 4,
        0 <= idx < 16,
    ensures
        0 <= line_cell(direction, line, offset) < 16,
        line_of_cell(direction, line_cell(direction, line, offset)) == line,
        offset_of_cell(direction, line_cell(direction, line, offset)) == offset,
        0 <= line_of_cell(direction, idx) < 4,
        0 <= offset_of_cell(direction, idx) < 4,
        line_cell(direction, line_of_cell(direction, idx), offset_of_cell(direction, idx)) == idx,
{
}

fn coords_for(direction: Direction, line_idx: usize, offset: usize) -> (at: (usize, usize))
    requires
        line_idx < 4,
        offset < 4,
    ensures
        at.0 as int == line_coords(direction, line_idx as int, offset as int).0,
        at.1 as int == line_coords(direction, line_idx as int, offset as int).1,
        at.0 < 4,
        at.1 < 4,
{
    match direction {
        Direction::Left => (line_idx, offset),
        Direction::Right => (line_idx, SIZE - 1 - offset),
        Direction::Up => (offset, line_idx),
        Direction::Down => (SIZE - 1 - offset, line_idx),
    }
}

fn index_for_line(direction: Direction, line_idx: usize, offset: usize) -> (idx: usize)
    requires
        line_idx < 4,
        offset < 4,
    ensures
        idx as int == line_cell(direction, line_idx as int, offset as int),
        idx < 16,
{
    let (row, col) = coords_for(direction, line_idx, offset);
    index(row, col)
}

// ---------------------------------------------------------------------------------------------
// Sliding one line
// ---------------------------------------------------------------------------------------------

/// Whether the tile at offset `k` moves on its own: into a free cell, or into a merge.
pub open spec fn advances(line: Seq<u16>, k: int) -> bool {
    line[k] != 0 && (line[k - 1] == 0 || merges(line[k - 1], line[k]))
}

/// The offset of the first tile that moves on its own; 4 where none does. From there on the
/// whole rest of the line moves up by one cell.
pub open spec fn pivot(line: Seq<u16>) -> int {
    if advances(line, 1) {
        1
    } else if advances(line, 2) {
        2
    } else if advances(line, 3) {
        3
    } else {
        4
    }
}

/// Whether pushing the line moves any tile.
pub open spec fn line_moves(line: Seq<u16>) -> bool {
    pivot(line) < 4
}

/// Whether pushing the line merges two tiles.
pub open spec fn line_merges(line: Seq<u16>) -> bool {
    line_moves(line) && line[pivot(line) - 1] != 0
}

/// The rank that comes to stand in front of the pivot.
pub open spec fn rank_at_pivot(line: Seq<u16>) -> int {
    if line_merges(line) {
        merged_rank(line[pivot(line) - 1])
    } else {
        line[pivot(line)] as int
    }
}

/// The line after the push: the tiles before the pivot stay, the pivot moves or merges, the
/// rest closes up by one cell and the last cell falls free.
pub open spec fn slid_line(line: Seq<u16>) -> Seq<u16> {
    if line_moves(line) {
        Seq::new(
            4,
            |j: int|
                if j < pivot(line) - 1 {
                    line[j]
                } else if j == pivot(line) - 1 {
                    rank_at_pivot(line) as u16
                } else if j < 3 {
                    line[j + 1]
                } else {
                    0
                },
        )
    } else {
        line
    }
}

/// Whether the merge that the push makes, if any, has a rank to make.
pub open spec fn line_fits(line: Seq<u16>) -> bool {
    line_merges(line) ==> line[pivot(line) - 1] < u16::MAX
}

/// What pushing a line does to it.
pub struct LineSlide {
    pub line: [u16; 4],
    pub changed: bool,
    pub merged: bool,
    pub merged_cells: [bool; 4],
}

/// Pushes a line toward its front by one cell.
pub fn slide_line_toward_front(line: [u16; 4]) -> (slide: LineSlide)
    requires
        line_fits(line@),
    ensures
        slide.line@ == slid_line(line@),
        slide.changed == line_moves(line@),
        slide.merged == line_merges(line@),
        slide.merged_cells@ == Seq::new(
            4,
            |j: int| line_merges(line@) && j == pivot(line@) - 1,
        ),
{
    let mut moving: [bool; 4] = [false; 4];
    let mut merged_cells: [bool; 4] = [false; 4];
    let mut idx: usize = 1;
    while idx < SIZE
        invariant
            1 <= idx <= 4,
            line_fits(line@),
            !moving@[0],
            forall|j: int| 1 <= j < idx ==> moving@[j] == (line@[j] != 0 && pivot(line@) <= j),
        decreases 4 - idx,
    {
        let rank: u16 = line[idx];
        if rank != 0 {
            let target: usize = idx - 1;
            moving[idx] = line[target] == 0 || moving[target] || merge_rank(
                line[target],
                rank,
            ).is_some();
        } else {
            moving[idx] = false;
        }
        idx = idx + 1;
    }

    let mut output: [u16; 4] = [0; 4];
    let mut merged: bool = false;
    let mut at: usize = 0;
    while at < SIZE
        invariant
            at <= 4,
            line_fits(line@),
            !moving@[0],
            forall|j: int| 1 <= j < 4 ==> moving@[j] == (line@[j] != 0 && pivot(line@) <= j),
            merged == (line_merges(line@) && pivot(line@) < at),
            forall|j: int|
                0 <= j < 4 ==> merged_cells@[j] == (line_merges(line@) && j == pivot(line@) - 1
                    && pivot(line@) < at),
            forall|j: int|
                0 <= j < 4 ==> output@[j] == if pivot(line@) < at {
                    if j < at - 1 {
                        slid_line(line@)[j]
                    } else {
                        0
                    }
                } else if j < at {
                    line@[j]
                } else {
                    0
                },
        decreases 4 - at,
    {
        let rank: u16 = line[at];
        if rank != 0 {
            if at > 0 && moving[at] {
                let target: usize = at - 1;
                if line[target] != 0 && !moving[target] {
                    if let Some(joined) = merge_rank(line[target], rank) {
                        output[target] = joined;
                        merged_cells[target] = true;
                        merged = true;
                    } else {
                        output[target] = rank;
                    }
                } else {
                    output[target] = rank;
                }
            } else {
                output[at] = rank;
            }
        }
        at = at + 1;
    }

    let mut changed: bool = false;
    let mut k: usize = 0;
    while k < SIZE
        invariant
            k <= 4,
            changed == exists|j: int| 0 <= j < k && output@[j] != line@[j],
        decreases 4 - k,
    {
        if output[k] != line[k] {
            changed = true;
        }
        k = k + 1;
    }
    proof {
        assert(output@ =~= slid_line(line@));
        if line_moves(line@) {
            assert(output@[pivot(line@) - 1] != line@[pivot(line@) - 1]);
        }
        assert(merged_cells@ =~= Seq::new(
            4,
            |j: int| line_merges(line@) && j == pivot(line@) - 1,
        ));
    }
    LineSlide { line: output, changed, merged, merged_cells }
}

// ---------------------------------------------------------------------------------------------
// The board
// ---------------------------------------------------------------------------------------------

/// The ranks of one line of the board, from front to back.
pub open spec fn line_at(cells: Seq<u16>, direction: Direction, line: int) -> Seq<u16> {
    Seq::new(4, |offset: int| cells[line_cell(direction, line, offset)])
}

/// The cells after a push: each line slides on its own.
pub open spec fn slid_cells(cells: Seq<u16>, direction: Direction) -> Seq<u16> {
    Seq::new(
        16,
        |i: int|
            slid_line(line_at(cells, direction, line_of_cell(direction, i)))[offset_of_cell(
                direction,
                i,
            )],
    )
}

/// Which lines a push moves.
pub open spec fn moved_lines_of(cells: Seq<u16>, direction: Direction) -> Seq<bool> {
    Seq::new(4, |l: int| line_moves(line_at(cells, direction, l)))
}

/// Whether a push moves any line, which is what makes it a legal move.
pub open spec fn moves(cells: Seq<u16>, direction: Direction) -> bool {
    exists|l: int| 0 <= l < 4 && #[trigger] line_moves(line_at(cells, direction, l))
}

/// Whether a push merges any two tiles.
pub open spec fn any_merge(cells: Seq<u16>, direction: Direction) -> bool {
    exists|l: int| 0 <= l < 4 && #[trigger] line_merges(line_at(cells, direction, l))
}

/// Whether a push makes a merged tile in a cell.
pub open spec fn merged_at(cells: Seq<u16>, direction: Direction, idx: int) -> bool {
    let line = line_at(cells, direction, line_of_cell(direction, idx));
    line_merges(line) && offset_of_cell(direction, idx) == pivot(line) - 1
}

/// Which cells hold a merged tile after a push.
pub open spec fn merged_cells_of(cells: Seq<u16>, direction: Direction) -> Seq<bool> {
    Seq::new(16, |i: int| merged_at(cells, direction, i))
}

/// Whether every merge of a push has a rank to make.
pub open spec fn push_fits(cells: Seq<u16>, direction: Direction) -> bool {
    forall|l: int| 0 <= l < 4 ==> line_fits(#[trigger] line_at(cells, direction, l))
}

/// Whether every merge of every push has a rank to make.
pub open spec fn pushes_fit(cells: Seq<u16>) -> bool {
    forall|direction: Direction| #[trigger] push_fits(cells, direction)
}

/// The largest of some ranks; 0 of none.
pub open spec fn highest(ranks: Seq<u16>) -> u16
    decreases ranks.len(),
{
    if ranks.len() == 0 {
        0
    } else if ranks.last() > highest(ranks.drop_last()) {
        ranks.last()
    } else {
        highest(ranks.drop_last())
    }
}

/// The points of some ranks, summed up and cut off at `u64::MAX`.
pub open spec fn total_points(ranks: Seq<u16>) -> int
    decreases ranks.len(),
{
    if ranks.len() == 0 {
        0
    } else {
        saturated(total_points(ranks.drop_last()) + points_of(ranks.last() as int))
    }
}

/// The cells below a bound that are free, in order.
pub open spec fn free_cells(cells: Seq<u16>, end: int) -> Seq<usize>
    decreases end,
{
    if end <= 0 {
        Seq::empty()
    } else if cells[end - 1] == 0 {
        free_cells(cells, end - 1).push((end - 1) as usize)
    } else {
        free_cells(cells, end - 1)
    }
}

/// The faces of some ranks.
pub open spec fn faces_of(ranks: Seq<u16>) -> Seq<u64> {
    Seq::new(ranks.len(), |i: int| face_of(ranks[i] as int) as u64)
}

/// The mask with the bits of the legal moves.
pub open spec fn legal_mask(cells: Seq<u16>) -> int {
    (if moves(cells, Direction::Up) { 1int } else { 0 })
        + (if moves(cells, Direction::Down) { 2int } else { 0 })
        + (if moves(cells, Direction::Left) { 4int } else { 0 })
        + (if moves(cells, Direction::Right) { 8int } else { 0 })
}

/// The legal moves among the first few directions, in order.
pub open spec fn legal_among(cells: Seq<u16>, count: int) -> Seq<Direction>
    decreases count,
{
    if count <= 0 {
        Seq::empty()
    } else if moves(cells, direction_number(count - 1)) {
        legal_among(cells, count - 1).push(direction_number(count - 1))
    } else {
        legal_among(cells, count - 1)
    }
}

/// The legal moves, in the order up, down, left, right.
pub open spec fn legal_moves(cells: Seq<u16>) -> Seq<Direction> {
    legal_among(cells, 4)
}

/// The directions in the order in which legal moves are reported.
pub open spec fn direction_number(i: int) -> Direction {
    if i == 0 {
        Direction::Up
    } else if i == 1 {
        Direction::Down
    } else if i == 2 {
        Direction::Left
    } else {
        Direction::Right
    }
}

/// Sixteen cells, row by row; each holds the rank of its tile, or 0 where it is free.
#[derive(Clone, Copy, Debug, PartialEq, Eq)]
pub struct Board {
    cells: [u16; 16],
}

/// The board after a push, and what the push did.
#[derive(Clone, Copy, Debug, PartialEq, Eq)]
pub struct SlideResult {
    pub board: Board,
    pub moved_lines: [bool; 4],
    pub changed: bool,
    pub merged: bool,
    pub merged_cells: [bool; 16],
}

impl View for Board {
    type V = Seq<u16>;

    closed spec fn view(&self) -> Seq<u16> {
        self.cells@
    }
}

impl Default for Board {
    fn default() -> (board: Self)
        ensures
            board@ == Seq::new(16, |i: int| 0u16),
    {
        Board::empty()
    }
}

/// A board has sixteen cells.
pub broadcast proof fn board_has_sixteen_cells(board: Board)
    ensures
        #[trigger] board@.len() == 16,
{
}

impl Board {
    /// The board without tiles.
    pub fn empty() -> (board: Self)
        ensures
            board@ == Seq::new(16, |i: int| 0u16),
    {
        let board = Board { cells: [0; 16] };
        assert(board@ =~= Seq::new(16, |i: int| 0u16));
        board
    }

    /// The board with these ranks.
    pub fn from_ranks(cells: [u16; 16]) -> (board: Self)
        ensures
            board@ == cells@,
    {
        Board { cells }
    }

    /// The rank of every cell.
    pub fn ranks(&self) -> (ranks: [u16; 16])
        ensures
            ranks@ == self@,
    {
        self.cells
    }

    /// The face of every cell.
    pub fn face_values(&self) -> (faces: [u64; 16])
        ensures
            faces@ == faces_of(self@),
    {
        let mut faces: [u64; 16] = [0; 16];
        let mut i: usize = 0;
        while i < CELLS
            invariant
                i <= 16,
                forall|j: int| 0 <= j < i ==> faces@[j] == face_of(self@[j] as int) as u64,
            decreases 16 - i,
        {
            faces[i] = rank_to_face(self.cells[i]);
            i = i + 1;
        }
        assert(faces@ =~= faces_of(self@));
        faces
    }

    /// The rank in a row and a column.
    pub fn get(&self, row: usize, col: usize) -> (rank: u16)
        requires
            row * 4 + col < 16,
        ensures
            rank == self@[row * 4 + col],
    {
        self.cells[index(row, col)]
    }

    /// Puts a rank into a row and a column.
    pub fn set(&mut self, row: usize, col: usize, rank: u16)
        requires
            row * 4 + col < 16,
        ensures
            final(self)@ == old(self)@.update(row * 4 + col, rank),
    {
        let idx: usize = index(row, col);
        self.cells[idx] = rank;
        assert(self.cells@ =~= old(self).cells@.update(idx as int, rank));
    }

    /// The rank in a cell.
    pub fn get_index(&self, idx: usize) -> (rank: u16)
        requires
            idx < 16,
        ensures
            rank == self@[idx as int],
    {
        self.cells[idx]
    }

    /// Puts a rank into a cell.
    pub fn set_index(&mut self, idx: usize, rank: u16)
        requires
            idx < 16,
        ensures
            final(self)@ == old(self)@.update(idx as int, rank),
    {
        self.cells[idx] = rank;
        assert(self.cells@ =~= old(self).cells@.update(idx as int, rank));
    }

    /// The highest rank on the board.
    pub fn high_rank(&self) -> (rank: u16)
        ensures
            rank == highest(self@),
    {
        let mut high: u16 = 0;
        let mut i: usize = 0;
        while i < CELLS
            invariant
                i <= 16,
                high == highest(self@.take(i as int)),
            decreases 16 - i,
        {
            assert(self@.take(i + 1).drop_last() =~= self@.take(i as int));
            if self.cells[i] > high {
                high = self.cells[i];
            }
            i = i + 1;
        }
        assert(self@.take(16) =~= self@);
        high
    }

    /// The face of the highest tile.
    pub fn high_face(&self) -> (face: u64)
        ensures
            face == face_of(highest(self@) as int),
    {
        rank_to_face(self.high_rank())
    }

    /// The points of all tiles.
    pub fn score(&self) -> (points: u64)
        ensures
            points == total_points(self@),
    {
        let mut points: u64 = 0;
        let mut i: usize = 0;
        while i < CELLS
            invariant
                i <= 16,
                points == total_points(self@.take(i as int)),
            decreases 16 - i,
        {
            assert(self@.take(i + 1).drop_last() =~= self@.take(i as int));
            points = points.saturating_add(rank_score(self.cells[i]));
            i = i + 1;
        }
        assert(self@.take(16) =~= self@);
        points
    }

    /// The free cells, in order.
    pub fn empty_indices(&self) -> (indices: Vec<usize>)
        ensures
            indices@ == free_cells(self@, 16),
    {
        let mut indices: Vec<usize> = Vec::new();
        let mut i: usize = 0;
        while i < CELLS
            invariant
                i <= 16,
                indices@ == free_cells(self@, i as int),
            decreases 16 - i,
        {
            if self.cells[i] == 0 {
                indices.push(i);
            }
            i = i + 1;
        }
        indices
    }

    /// The mask with the bits of the legal moves.
    pub fn legal_moves_mask(&self) -> (mask: u8)
        requires
            pushes_fit(self@),
        ensures
            mask == legal_mask(self@),
    {
        let mut mask: u8 = 0;
        if self.slide(Direction::Up).changed {
            mask = mask | Direction::Up.mask();
        }
        if self.slide(Direction::Down).changed {
            mask = mask | Direction::Down.mask();
        }
        if self.slide(Direction::Left).changed {
            mask = mask | Direction::Left.mask();
        }
        if self.slide(Direction::Right).changed {
            mask = mask | Direction::Right.mask();
        }
        proof {
            let up: u8 = if moves(self@, Direction::Up) { 1 } else { 0 };
            let down: u8 = if moves(self@, Direction::Down) { 2 } else { 0 };
            let left: u8 = if moves(self@, Direction::Left) { 4 } else { 0 };
            let right: u8 = if moves(self@, Direction::Right) { 8 } else { 0 };
            assert(0u8 | 0 == 0 && forall|a: u8| #[trigger] (a | 0u8) == a) by (bit_vector);
            assert(up | down | left | right == up + down + left + right) by (bit_vector)
                requires
                    up == 0 || up == 1,
                    down == 0 || down == 2,
                    left == 0 || left == 4,
                    right == 0 || right == 8,
            ;
            assert(0u8 | 1u8 == 1u8) by (bit_vector);
            assert(0u8 | 2u8 == 2u8) by (bit_vector);
            assert(0u8 | 4u8 == 4u8) by (bit_vector);
            assert(0u8 | 8u8 == 8u8) by (bit_vector);
            assert(mask == up | down | left | right);
        }
        mask
    }

    /// The legal moves, in the order up, down, left, right.
    pub fn legal_directions(&self) -> (legal: Vec<Direction>)
        requires
            pushes_fit(self@),
        ensures
            legal@ == legal_moves(self@),
    {
        let mut legal: Vec<Direction> = Vec::new();
        let mut i: usize = 0;
        while i < 4
            invariant
                i <= 4,
                pushes_fit(self@),
                legal@ == legal_among(self@, i as int),
            decreases 4 - i,
        {
            let direction: Direction = Direction::ALL[i];
            assert(direction == direction_number(i as int));
            if self.slide(direction).changed {
                legal.push(direction);
            }
            i = i + 1;
        }
        legal
    }

    /// Whether any push is legal.
    pub fn has_legal_move(&self) -> (any: bool)
        requires
            pushes_fit(self@),
        ensures
            any == exists|direction: Direction| moves(self@, direction),
    {
        let mask: u8 = self.legal_moves_mask();
        proof {
            assert(mask != 0 <==> (moves(self@, Direction::Up) || moves(self@, Direction::Down)
                || moves(self@, Direction::Left) || moves(self@, Direction::Right)));
            if exists|direction: Direction| moves(self@, direction) {
                let direction = choose|direction: Direction| moves(self@, direction);
                assert(direction == Direction::Up || direction == Direction::Down || direction
                    == Direction::Left || direction == Direction::Right);
            }
        }
        mask != 0
    }

    /// Pushes the board: every line slides toward the front by one cell.
    pub fn slide(&self, direction: Direction) -> (result: SlideResult)
        requires
            push_fits(self@, direction),
        ensures
            result.board@ == slid_cells(self@, direction),
            result.moved_lines@ == moved_lines_of(self@, direction),
            result.changed == moves(self@, direction),
            result.merged == any_merge(self@, direction),
            result.merged_cells@ == merged_cells_of(self@, direction),
    {
        let mut next: Board = *self;
        let mut moved_lines: [bool; 4] = [false; 4];
        let mut changed: bool = false;
        let mut merged: bool = false;
        let mut merged_cells: [bool; 16] = [false; 16];

        let mut line_idx: usize = 0;
        while line_idx < SIZE
            invariant
                line_idx <= 4,
                push_fits(self@, direction),
                forall|l: int|
                    0 <= l < line_idx ==> moved_lines@[l] == line_moves(
                        #[trigger] line_at(self@, direction, l),
                    ),
                changed == exists|l: int|
                    0 <= l < line_idx && #[trigger] line_moves(line_at(self@, direction, l)),
                merged == exists|l: int|
                    0 <= l < line_idx && #[trigger] line_merges(line_at(self@, direction, l)),
                forall|i: int|
                    0 <= i < 16 ==> #[trigger] merged_cells@[i] == (line_of_cell(direction, i)
                        < line_idx && merged_at(self@, direction, i)),
                forall|i: int|
                    0 <= i < 16 ==> #[trigger] next@[i] == if line_of_cell(direction, i)
                        < line_idx {
                        slid_cells(self@, direction)[i]
                    } else {
                        self@[i]
                    },
            decreases 4 - line_idx,
        {
            let line: [u16; 4] = self.line_front_to_back(direction, line_idx);
            let slide: LineSlide = slide_line_toward_front(line);
            if slide.changed {
                moved_lines[line_idx] = true;
                changed = true;
            } else {
                moved_lines[line_idx] = false;
            }
            let mut offset: usize = 0;
            while offset < SIZE
                invariant
                    offset <= 4,
                    line_idx < 4,
                    line@ == line_at(self@, direction, line_idx as int),
                    slide.merged_cells@ == Seq::new(
                        4,
                        |j: int| line_merges(line@) && j == pivot(line@) - 1,
                    ),
                    forall|i: int|
                        0 <= i < 16 ==> #[trigger] merged_cells@[i] == ((line_of_cell(direction, i)
                            < line_idx || (line_of_cell(direction, i) == line_idx && offset_of_cell(
                            direction,
                            i,
                        ) < offset)) && merged_at(self@, direction, i)),
                decreases 4 - offset,
            {
                if slide.merged_cells[offset] {
                    let idx: usize = index_for_line(direction, line_idx, offset);
                    merged_cells[idx] = true;
                }
                offset = offset + 1;
            }
            if slide.merged {
                merged = true;
            }
            next.write_line_front_to_back(direction, line_idx, slide.line);
            line_idx = line_idx + 1;
        }
        proof {
            assert forall|i: int| 0 <= i < 16 implies 0 <= #[trigger] line_of_cell(direction, i)
                < 4 by {
                lines_cover_the_board(direction, 0, 0, i);
            }
            assert(next@ =~= slid_cells(self@, direction));
            assert(moved_lines@ =~= moved_lines_of(self@, direction));
            assert(merged_cells@ =~= merged_cells_of(self@, direction));
        }
        SlideResult { board: next, moved_lines, changed, merged, merged_cells }
    }

    fn line_front_to_back(&self, direction: Direction, line_idx: usize) -> (line: [u16; 4])
        requires
            line_idx < 4,
        ensures
            line@ == line_at(self@, direction, line_idx as int),
    {
        let mut line: [u16; 4] = [0; 4];
        let mut offset: usize = 0;
        while offset < SIZE
            invariant
                offset <= 4,
                line_idx < 4,
                forall|j: int|
                    0 <= j < offset ==> line@[j] == self@[line_cell(
                        direction,
                        line_idx as int,
                        j,
                    )],
            decreases 4 - offset,
        {
            let (row, col) = coords_for(direction, line_idx, offset);
            line[offset] = self.get(row, col);
            offset = offset + 1;
        }
        assert(line@ =~= line_at(self@, direction, line_idx as int));
        line
    }

    fn write_line_front_to_back(&mut self, direction: Direction, line_idx: usize, line: [u16; 4])
        requires
            line_idx < 4,
        ensures
            final(self)@ == Seq::new(
                16,
                |i: int|
                    if line_of_cell(direction, i) == line_idx {
                        line@[offset_of_cell(direction, i)]
                    } else {
                        old(self)@[i]
                    },
            ),
    {
        let mut offset: usize = 0;
        while offset < SIZE
            invariant
                offset <= 4,
                line_idx < 4,
                self@.len() == 16,
                forall|i: int|
                    0 <= i < 16 ==> #[trigger] self@[i] == if line_of_cell(direction, i) == line_idx
                        && offset_of_cell(direction, i) < offset {
                        line@[offset_of_cell(direction, i)]
                    } else {
                        old(self)@[i]
                    },
            decreases 4 - offset,
        {
            let (row, col) = coords_for(direction, line_idx, offset);
            self.set(row, col, line[offset]);
            offset = offset + 1;
        }
        proof {
            assert forall|i: int| 0 <= i < 16 implies offset_of_cell(direction, i) < 4 by {
                lines_cover_the_board(direction, 0, 0, i);
            }
            assert(self@ =~= Seq::new(
                16,
                |i: int|
                    if line_of_cell(direction, i) == line_idx {
                        line@[offset_of_cell(direction, i)]
                    } else {
                        old(self)@[i]
                    },
            ));
        }
    }
}

} // verus!

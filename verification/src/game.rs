//! A game: the board, the draw, the moves, and the outcomes that a move can have.

use crate::board::{
    board_has_sixteen_cells, face_of, faces_of, free_cells, highest, index, legal_mask,
    legal_moves, line_at, line_cell, line_fits, line_moves, merged_cells_of, moved_lines_of, moves,
    push_fits, pushes_fit, rank_to_face, slid_cells, total_points, Board, Direction, SlideResult,
    SIZE,
};
use crate::dice::Dice;
use crate::draw::{
    fresh_draw, is_bonus_window, occurrences, replacing_an_item_changes_two_counts, DrawModel,
    DrawState,
};
use crate::forecast::{BonusTracker, ForecastModel};
use crate::probability::{both, one_in, Probability};
use std::time::{SystemTime, UNIX_EPOCH};
use vstd::prelude::*;

pub use crate::forecast::{BonusForecast, BonusForecastSlot, DEFAULT_BONUS_FORECAST_HORIZON};
pub use crate::tile::{NextTile, Preview, SpawnSource};

verus! {

broadcast use board_has_sixteen_cells;

// ---------------------------------------------------------------------------------------------
// The model of a game
// ---------------------------------------------------------------------------------------------

/// Everything that a game depends on.
#[verifier::ext_equal]
pub struct GameModel {
    pub seed: u64,
    pub dice: Dice,
    pub board: Seq<u16>,
    pub draw: DrawModel,
    pub tracker: BonusTracker,
    pub next: Preview,
    pub accepted: u64,
    pub attempted: u64,
}

/// Whether every rank on the board is below a bound.
pub open spec fn ranks_below(cells: Seq<u16>, bound: int) -> bool {
    forall|i: int| 0 <= i < cells.len() ==> #[trigger] cells[i] < bound
}

/// The cell at the back of a line, where a new tile comes in.
pub open spec fn entry_cell(direction: Direction, line: int) -> int {
    line_cell(direction, line, 3)
}

/// The free cells at the backs of the moved ones among the first few lines.
pub open spec fn entries(
    cells: Seq<u16>,
    direction: Direction,
    moved: Seq<bool>,
    lines: int,
) -> Seq<usize>
    decreases lines,
{
    if lines <= 0 {
        Seq::empty()
    } else if moved[lines - 1] && cells[entry_cell(direction, lines - 1)] == 0 {
        entries(cells, direction, moved, lines - 1).push(
            entry_cell(direction, lines - 1) as usize,
        )
    } else {
        entries(cells, direction, moved, lines - 1)
    }
}

/// The cells into which a new tile can come after a push.
pub open spec fn entries_after(cells: Seq<u16>, direction: Direction) -> Seq<usize> {
    entries(slid_cells(cells, direction), direction, moved_lines_of(cells, direction), 4)
}

/// The board, the draw and the dice after some tiles were dealt onto an empty board, each into a
/// free cell.
pub open spec fn dealt(draw: DrawModel, dice: Dice, tiles: int) -> (Seq<u16>, DrawModel, Dice)
    decreases tiles,
{
    if tiles <= 0 {
        (Seq::new(16, |i: int| 0u16), draw, dice)
    } else {
        let (cells, before, start_dice) = dealt(draw, dice, tiles - 1);
        let rank = before.top_basic(start_dice);
        let (after, drawn_dice) = before.without_a_basic_tile(start_dice);
        let free = free_cells(cells, 16);
        let (choice, last_dice) = drawn_dice.rolled(free.len() as u64);
        (cells.update(free[choice as int] as int, rank), after, last_dice)
    }
}

impl GameModel {
    /// What holds of every game.
    pub open spec fn is_sound(self) -> bool {
        &&& self.board.len() == 16
        &&& self.draw.in_range()
        &&& self.tracker.current_offset < 21
        &&& 0 < self.next.ranks().len() <= u32::MAX
        &&& ranks_below(self.next.ranks(), u16::MAX as int)
        &&& self.accepted <= self.attempted
    }

    /// Whether the draw of the game is fair, and every rank that the shown tile can have is one
    /// of a tile.
    pub open spec fn is_fair(self) -> bool {
        &&& self.draw.is_fair()
        &&& forall|i: int|
            0 <= i < self.next.ranks().len() ==> 1 <= #[trigger] self.next.ranks()[i]
    }

    /// Whether the numbers of a game have room for some more moves: no rank and no counter
    /// overflows in them.
    pub open spec fn has_room_for(self, count: int) -> bool {
        &&& ranks_below(self.board, u16::MAX - count)
        &&& ranks_below(self.next.ranks(), u16::MAX - count + 1)
        &&& ranks_below(self.draw.deck, u16::MAX - count + 1)
        &&& self.attempted + count <= u64::MAX
    }

    /// Whether the shown tile is the one that the deck will give.
    pub open spec fn shows_the_deck(self) -> bool {
        self.next is Basic ==> self.draw.basic_pos < 12 && self.next->rank
            == self.draw.deck[self.draw.basic_pos]
    }

    /// Whether a shown bonus tile is one of up to three ranks in a row, the highest of them at
    /// least three below the highest rank on the board.
    pub open spec fn shows_a_window(self) -> bool {
        self.next is Bonus ==> is_bonus_window(self.next.ranks(), highest(self.board))
    }

    /// Whether the tiles on the board are the first nine of the deck.
    pub open spec fn is_a_deal(self) -> bool {
        &&& self.draw.basic_pos == 9
        &&& forall|rank: u16|
            rank != 0 ==> #[trigger] occurrences(self.board, rank) == occurrences(
                self.draw.deck.take(9),
                rank,
            )
    }

    /// How often a basic rank occurs on the board and as the tile to come.
    pub open spec fn basic_tiles(self, rank: u16) -> nat {
        occurrences(self.board, rank) + (if self.next is Basic && self.next->rank == rank {
            1nat
        } else {
            0
        })
    }

    /// Whether the forecast counts the bonus cycle as the draw does: it is active exactly while
    /// the draw uses the cycle, at the same position, and knows the place of the bonus tile
    /// exactly where that lies at the position or before it.
    pub open spec fn forecast_is_in_step(self) -> bool {
        &&& self.tracker.active == self.draw.pending
        &&& self.tracker.active == (highest(self.board) >= 7)
        &&& self.tracker.active ==> self.draw.bonus_pos == self.tracker.current_offset
        &&& self.tracker.active ==> match self.tracker.seen_bonus_offset {
            Some(seen) => seen <= self.draw.bonus_pos && self.draw.cycle[seen as int],
            None => forall|p: int|
                0 <= p <= self.draw.bonus_pos ==> !#[trigger] self.draw.cycle[p],
        }
        &&& self.next is Bonus <==> self.draw.pending && self.draw.cycle[self.draw.bonus_pos]
        &&& !self.tracker.active ==> self.draw.bonus_pos == 0
    }

    /// The game of a seed.
    pub open spec fn started(seed: u64) -> GameModel {
        let (draw, dice) = fresh_draw(Dice { seed, word_pos: 0 });
        let (board, dealt_draw, dealt_dice) = dealt(draw, dice, 9);
        let (next, last_draw, last_dice) = dealt_draw.revealed(highest(board), dealt_dice);
        GameModel {
            seed,
            dice: last_dice,
            board,
            draw: last_draw,
            tracker: BonusTracker::locked().observed(highest(board), next),
            next,
            accepted: 0,
            attempted: 0,
        }
    }

    /// The game after a push that a new tile of some rank follows in some cell.
    pub open spec fn landed(self, direction: Direction, cell: usize, rank: u16) -> GameModel {
        let (taken, taken_dice) = self.draw.consumed(self.next, self.dice);
        let spawn_dice = taken_dice.rolled(entries_after(self.board, direction).len() as u64).1;
        let board = slid_cells(self.board, direction).update(cell as int, rank);
        let (next, draw, dice) = taken.revealed(highest(board), spawn_dice);
        GameModel {
            seed: self.seed,
            dice,
            board,
            draw,
            tracker: self.tracker.advanced().observed(highest(board), next),
            next,
            accepted: (self.accepted + 1) as u64,
            attempted: (self.attempted + 1) as u64,
        }
    }

    /// The rank that the shown tile turns out to have.
    pub open spec fn spawn_rank(self) -> u16 {
        self.draw.consumed_rank(self.next, self.dice)
    }

    /// The cell into which the new tile comes after a push.
    pub open spec fn spawn_cell(self, direction: Direction) -> usize {
        let dice = self.draw.consumed(self.next, self.dice).1;
        let cells = entries_after(self.board, direction);
        cells[dice.rolled(cells.len() as u64).0 as int]
    }

    /// The game after a push that moves nothing.
    pub open spec fn refused(self) -> GameModel {
        GameModel { attempted: (self.attempted + 1) as u64, ..self }
    }

    /// The game after a move in a direction.
    pub open spec fn stepped(self, direction: Direction) -> GameModel {
        if moves(self.board, direction) {
            self.landed(direction, self.spawn_cell(direction), self.spawn_rank())
        } else {
            self.refused()
        }
    }

    /// The game after a move in a direction whose new tile is given a rank.
    pub open spec fn stepped_with(self, direction: Direction, rank: u16) -> GameModel {
        if moves(self.board, direction) {
            self.landed(direction, self.spawn_cell(direction), rank)
        } else {
            self.refused()
        }
    }

    /// Whether no push moves anything.
    pub open spec fn is_over(self) -> bool {
        forall|direction: Direction| !moves(self.board, direction)
    }

    /// The forecast that the game reports.
    pub open spec fn default_forecast(self) -> ForecastModel {
        self.tracker.forecasted(DEFAULT_BONUS_FORECAST_HORIZON)
    }
}

// ---------------------------------------------------------------------------------------------
// Reports
// ---------------------------------------------------------------------------------------------

/// A tile that came in.
#[derive(Debug)]
pub struct SpawnEvent {
    pub row: usize,
    pub col: usize,
    pub rank: u16,
    pub face: u64,
    pub source: SpawnSource,
    pub preview: NextTile,
}

/// What a spawn event says.
pub struct SpawnModel {
    pub row: int,
    pub col: int,
    pub rank: u16,
    pub face: u64,
    pub source: SpawnSource,
    pub preview: Preview,
}

impl View for SpawnEvent {
    type V = SpawnModel;

    open spec fn view(&self) -> SpawnModel {
        SpawnModel {
            row: self.row as int,
            col: self.col as int,
            rank: self.rank,
            face: self.face,
            source: self.source,
            preview: self.preview@,
        }
    }
}

impl Clone for SpawnEvent {
    fn clone(&self) -> (copy: Self)
        ensures
            copy@ == self@,
    {
        SpawnEvent {
            row: self.row,
            col: self.col,
            rank: self.rank,
            face: self.face,
            source: self.source,
            preview: self.preview.clone(),
        }
    }
}

/// The outward state of a game.
#[derive(Debug)]
pub struct GameSnapshot {
    pub seed: u64,
    pub board: [u64; 16],
    pub score: u64,
    pub high_tile: u64,
    pub accepted_moves: u64,
    pub attempted_moves: u64,
    pub legal_moves_mask: u8,
    pub next_tile: NextTile,
    pub bonus_forecast: BonusForecast,
}

/// What a snapshot says.
#[verifier::ext_equal]
pub struct SnapshotModel {
    pub seed: u64,
    pub board: Seq<u64>,
    pub score: int,
    pub high_tile: int,
    pub accepted_moves: u64,
    pub attempted_moves: u64,
    pub legal_moves_mask: int,
    pub next_tile: Preview,
    pub bonus_forecast: ForecastModel,
}

impl View for GameSnapshot {
    type V = SnapshotModel;

    open spec fn view(&self) -> SnapshotModel {
        SnapshotModel {
            seed: self.seed,
            board: self.board@,
            score: self.score as int,
            high_tile: self.high_tile as int,
            accepted_moves: self.accepted_moves,
            attempted_moves: self.attempted_moves,
            legal_moves_mask: self.legal_moves_mask as int,
            next_tile: self.next_tile@,
            bonus_forecast: self.bonus_forecast@,
        }
    }
}

impl Clone for GameSnapshot {
    fn clone(&self) -> (copy: Self)
        ensures
            copy@ == self@,
    {
        GameSnapshot {
            seed: self.seed,
            board: self.board,
            score: self.score,
            high_tile: self.high_tile,
            accepted_moves: self.accepted_moves,
            attempted_moves: self.attempted_moves,
            legal_moves_mask: self.legal_moves_mask,
            next_tile: self.next_tile.clone(),
            bonus_forecast: self.bonus_forecast.clone(),
        }
    }
}

/// What a move did.
#[derive(Debug)]
pub struct MoveResult {
    pub direction: Direction,
    pub accepted: bool,
    pub board_before: [u64; 16],
    pub board_after_slide: [u64; 16],
    pub board_after_spawn: [u64; 16],
    pub moved_lines: [bool; 4],
    pub merged_cells: [bool; 16],
    pub spawn: Option<SpawnEvent>,
    pub score: u64,
    pub high_tile: u64,
    pub next_tile: NextTile,
    pub bonus_forecast: BonusForecast,
    pub game_over: bool,
}

/// What a move result says.
#[verifier::ext_equal]
pub struct MoveModel {
    pub direction: Direction,
    pub accepted: bool,
    pub board_before: Seq<u64>,
    pub board_after_slide: Seq<u64>,
    pub board_after_spawn: Seq<u64>,
    pub moved_lines: Seq<bool>,
    pub merged_cells: Seq<bool>,
    pub spawn: Option<SpawnModel>,
    pub score: int,
    pub high_tile: int,
    pub next_tile: Preview,
    pub bonus_forecast: ForecastModel,
    pub game_over: bool,
}

impl View for MoveResult {
    type V = MoveModel;

    open spec fn view(&self) -> MoveModel {
        MoveModel {
            direction: self.direction,
            accepted: self.accepted,
            board_before: self.board_before@,
            board_after_slide: self.board_after_slide@,
            board_after_spawn: self.board_after_spawn@,
            moved_lines: self.moved_lines@,
            merged_cells: self.merged_cells@,
            spawn: match self.spawn {
                Some(event) => Some(event@),
                None => None,
            },
            score: self.score as int,
            high_tile: self.high_tile as int,
            next_tile: self.next_tile@,
            bonus_forecast: self.bonus_forecast@,
            game_over: self.game_over,
        }
    }
}

impl Clone for MoveResult {
    fn clone(&self) -> (copy: Self)
        ensures
            copy@ == self@,
    {
        let spawn = match &self.spawn {
            Some(event) => Some(event.clone()),
            None => None,
        };
        MoveResult {
            direction: self.direction,
            accepted: self.accepted,
            board_before: self.board_before,
            board_after_slide: self.board_after_slide,
            board_after_spawn: self.board_after_spawn,
            moved_lines: self.moved_lines,
            merged_cells: self.merged_cells,
            spawn,
            score: self.score,
            high_tile: self.high_tile,
            next_tile: self.next_tile.clone(),
            bonus_forecast: self.bonus_forecast.clone(),
            game_over: self.game_over,
        }
    }
}

impl GameModel {
    /// The snapshot of a game.
    pub open spec fn shown(self) -> SnapshotModel {
        SnapshotModel {
            seed: self.seed,
            board: faces_of(self.board),
            score: total_points(self.board),
            high_tile: face_of(highest(self.board) as int),
            accepted_moves: self.accepted,
            attempted_moves: self.attempted,
            legal_moves_mask: legal_mask(self.board),
            next_tile: self.next,
            bonus_forecast: self.default_forecast(),
        }
    }

    /// The report of a move that leads from one game to another with this spawn.
    pub open spec fn reported(
        self,
        direction: Direction,
        after: GameModel,
        spawn: Option<SpawnModel>,
    ) -> MoveModel {
        MoveModel {
            direction,
            accepted: moves(self.board, direction),
            board_before: faces_of(self.board),
            board_after_slide: faces_of(slid_cells(self.board, direction)),
            board_after_spawn: faces_of(after.board),
            moved_lines: moved_lines_of(self.board, direction),
            merged_cells: merged_cells_of(self.board, direction),
            spawn,
            score: total_points(after.board),
            high_tile: face_of(highest(after.board) as int),
            next_tile: after.next,
            bonus_forecast: after.default_forecast(),
            game_over: after.is_over(),
        }
    }

    /// The spawn of a new tile of some rank in some cell.
    pub open spec fn spawned(self, cell: usize, rank: u16) -> SpawnModel {
        SpawnModel {
            row: cell as int / 4,
            col: cell as int % 4,
            rank,
            face: face_of(rank as int) as u64,
            source: self.next.source(),
            preview: self.next,
        }
    }

    /// The report of a move whose new tile is given a rank.
    pub open spec fn report_with(self, direction: Direction, rank: u16) -> MoveModel {
        self.reported(
            direction,
            self.stepped_with(direction, rank),
            if moves(self.board, direction) {
                Some(self.spawned(self.spawn_cell(direction), rank))
            } else {
                None
            },
        )
    }

    /// The report of a move.
    pub open spec fn report(self, direction: Direction) -> MoveModel {
        self.report_with(direction, self.spawn_rank())
    }
}

// ---------------------------------------------------------------------------------------------
// Facts about pushes in a game
// ---------------------------------------------------------------------------------------------

/// Where every rank is below the largest one, every push fits.
pub proof fn low_ranks_fit(cells: Seq<u16>)
    requires
        cells.len() == 16,
        ranks_below(cells, u16::MAX as int),
    ensures
        pushes_fit(cells),
{
    assert forall|direction: Direction| #[trigger] push_fits(cells, direction) by {
        assert forall|l: int| 0 <= l < 4 implies line_fits(
            #[trigger] line_at(cells, direction, l),
        ) by {
            let line = line_at(cells, direction, l);
            assert forall|k: int| 0 <= k < 4 implies line[k] < u16::MAX by {
                crate::board::lines_cover_the_board(direction, l, k, 0);
            }
        }
    }
}

proof fn lemma_push_keeps_ranks_below(cells: Seq<u16>, direction: Direction, bound: int)
    requires
        cells.len() == 16,
        ranks_below(cells, bound),
        3 < bound < u16::MAX,
    ensures
        ranks_below(slid_cells(cells, direction), bound + 1),
{
    assert(ranks_below(cells, u16::MAX as int));
    low_ranks_fit(cells);
    assert(push_fits(cells, direction));
    assert forall|i: int| 0 <= i < 16 implies #[trigger] slid_cells(cells, direction)[i]
        < bound + 1 by {
        crate::board::lines_cover_the_board(direction, 0, 0, i);
        let l = crate::board::line_of_cell(direction, i);
        let k = crate::board::offset_of_cell(direction, i);
        let line = line_at(cells, direction, l);
        assert(line_fits(line));
        crate::board_laws::tiles_move_at_most_one_cell(line, k);
        assert(line[k] < bound);
        if k < 3 {
            crate::board::lines_cover_the_board(direction, l, k + 1, 0);
            assert(line[k + 1] < bound);
        }
    }
}

proof fn lemma_entries(cells: Seq<u16>, direction: Direction, moved: Seq<bool>, lines: int)
    requires
        cells.len() == 16,
        moved.len() == 4,
        0 <= lines <= 4,
    ensures
        entries(cells, direction, moved, lines).len() <= lines,
        forall|i: int|
            0 <= i < entries(cells, direction, moved, lines).len() ==> ({
                let cell = #[trigger] entries(cells, direction, moved, lines)[i];
                &&& cell < 16
                &&& cells[cell as int] == 0
                &&& exists|l: int| 0 <= l < lines && moved[l] && cell == entry_cell(direction, l)
            }),
        forall|l: int|
            0 <= l < lines && moved[l] && cells[#[trigger] entry_cell(direction, l)] == 0
                ==> entries(cells, direction, moved, lines).contains(
                entry_cell(direction, l) as usize,
            ),
    decreases lines,
{
    if lines > 0 {
        lemma_entries(cells, direction, moved, lines - 1);
        let before = entries(cells, direction, moved, lines - 1);
        let after = entries(cells, direction, moved, lines);
        crate::board::lines_cover_the_board(direction, lines - 1, 3, 0);
        assert forall|i: int| 0 <= i < after.len() implies ({
            let cell = #[trigger] after[i];
            &&& cell < 16
            &&& cells[cell as int] == 0
            &&& exists|l: int| 0 <= l < lines && moved[l] && cell == entry_cell(direction, l)
        }) by {
            if i < before.len() {
                assert(after[i] == before[i]);
                let l = choose|l: int|
                    0 <= l < lines - 1 && moved[l] && before[i] == entry_cell(direction, l);
                assert(after[i] == entry_cell(direction, l));
            } else {
                assert(after[i] == entry_cell(direction, lines - 1));
            }
        }
        assert forall|l: int|
            0 <= l < lines && moved[l] && cells[#[trigger] entry_cell(direction, l)]
                == 0 implies after.contains(entry_cell(direction, l) as usize) by {
            if l < lines - 1 {
                let i = choose|i: int|
                    0 <= i < before.len() && before[i] == entry_cell(direction, l) as usize;
                assert(after[i] == before[i]);
            } else {
                assert(after[after.len() - 1] == entry_cell(direction, l) as usize);
            }
        }
    }
}

/// No cell is listed twice among those into which a new tile can come.
pub proof fn entries_are_distinct(cells: Seq<u16>, direction: Direction)
    requires
        cells.len() == 16,
    ensures
        entries_after(cells, direction).no_duplicates(),
{
    lemma_entries_are_distinct(
        slid_cells(cells, direction),
        direction,
        moved_lines_of(cells, direction),
        4,
    );
}

/// The cells into which a new tile can come are listed from the first to the last.
pub proof fn entries_are_in_order(cells: Seq<u16>, direction: Direction)
    requires
        cells.len() == 16,
    ensures
        forall|i: int, j: int|
            0 <= i < j < entries_after(cells, direction).len() ==> #[trigger] entries_after(
                cells,
                direction,
            )[i] < #[trigger] entries_after(cells, direction)[j],
{
    lemma_entries_are_in_order(
        slid_cells(cells, direction),
        direction,
        moved_lines_of(cells, direction),
        4,
    );
}

proof fn lemma_entries_are_in_order(
    cells: Seq<u16>,
    direction: Direction,
    moved: Seq<bool>,
    lines: int,
)
    requires
        cells.len() == 16,
        moved.len() == 4,
        0 <= lines <= 4,
    ensures
        forall|i: int, j: int|
            0 <= i < j < entries(cells, direction, moved, lines).len() ==> #[trigger] entries(
                cells,
                direction,
                moved,
                lines,
            )[i] < #[trigger] entries(cells, direction, moved, lines)[j],
    decreases lines,
{
    if lines > 0 {
        let before = entries(cells, direction, moved, lines - 1);
        let after = entries(cells, direction, moved, lines);
        lemma_entries_are_in_order(cells, direction, moved, lines - 1);
        lemma_entries(cells, direction, moved, lines - 1);
        crate::board::lines_cover_the_board(direction, lines - 1, 3, 0);
        assert forall|i: int, j: int| 0 <= i < j < after.len() implies #[trigger] after[i]
            < #[trigger] after[j] by {
            assert(after[i] == before[i]);
            if j < before.len() {
                assert(after[j] == before[j]);
            } else {
                let l = choose|l: int|
                    0 <= l < lines - 1 && moved[l] && before[i] == entry_cell(direction, l);
                crate::board::lines_cover_the_board(direction, l, 3, 0);
            }
        }
    }
}

proof fn lemma_entries_are_distinct(
    cells: Seq<u16>,
    direction: Direction,
    moved: Seq<bool>,
    lines: int,
)
    requires
        cells.len() == 16,
        moved.len() == 4,
        0 <= lines <= 4,
    ensures
        entries(cells, direction, moved, lines).no_duplicates(),
    decreases lines,
{
    if lines > 0 {
        let before = entries(cells, direction, moved, lines - 1);
        lemma_entries_are_distinct(cells, direction, moved, lines - 1);
        lemma_entries(cells, direction, moved, lines - 1);
        crate::board::lines_cover_the_board(direction, lines - 1, 3, 0);
        assert forall|i: int| 0 <= i < before.len() implies before[i] != entry_cell(
            direction,
            lines - 1,
        ) as usize by {
            let l = choose|l: int|
                0 <= l < lines - 1 && moved[l] && before[i] == entry_cell(direction, l);
            crate::board::lines_cover_the_board(direction, l, 3, 0);
        }
    }
}

/// After a legal push a new tile has room: the back of every moved line is free, and these cells
/// are the ones into which it can come.
pub proof fn a_legal_push_leaves_room(cells: Seq<u16>, direction: Direction)
    requires
        cells.len() == 16,
        moves(cells, direction),
    ensures
        1 <= entries_after(cells, direction).len() <= 4,
        forall|l: int|
            0 <= l < 4 && line_moves(line_at(cells, direction, l)) ==> entries_after(
                cells,
                direction,
            ).contains(#[trigger] entry_cell(direction, l) as usize),
        forall|i: int|
            0 <= i < entries_after(cells, direction).len() ==> ({
                let cell = #[trigger] entries_after(cells, direction)[i];
                &&& cell < 16
                &&& slid_cells(cells, direction)[cell as int] == 0
                &&& exists|l: int|
                    0 <= l < 4 && line_moves(line_at(cells, direction, l)) && cell == entry_cell(
                        direction,
                        l,
                    )
            }),
{
    let after = slid_cells(cells, direction);
    let moved = moved_lines_of(cells, direction);
    lemma_entries(after, direction, moved, 4);
    assert forall|l: int| 0 <= l < 4 && moved[l] implies after[#[trigger] entry_cell(direction, l)]
        == 0 by {
        crate::board::lines_cover_the_board(direction, l, 3, 0);
        crate::board_laws::a_moved_line_frees_its_last_cell(line_at(cells, direction, l));
    }
    let l = choose|l: int| 0 <= l < 4 && #[trigger] line_moves(line_at(cells, direction, l));
    assert(moved[l]);
    assert(entries_after(cells, direction).contains(entry_cell(direction, l) as usize));
    assert forall|i: int| 0 <= i < entries_after(cells, direction).len() implies ({
        let cell = #[trigger] entries_after(cells, direction)[i];
        &&& cell < 16
        &&& after[cell as int] == 0
        &&& exists|l: int|
            0 <= l < 4 && line_moves(line_at(cells, direction, l)) && cell == entry_cell(
                direction,
                l,
            )
    }) by {
        let cell = entries(after, direction, moved, 4)[i];
        let l = choose|l: int| 0 <= l < 4 && moved[l] && cell == entry_cell(direction, l);
        assert(line_moves(line_at(cells, direction, l)));
    }
}

/// The cells into which a new tile can come: the free backs of the moved lines.
pub fn spawn_candidates(board: &Board, direction: Direction, moved_lines: [bool; 4]) -> (cells: Vec<
    usize,
>)
    ensures
        cells@ == entries(board@, direction, moved_lines@, 4),
{
    let mut candidates: Vec<usize> = Vec::new();
    let mut line_idx: usize = 0;
    while line_idx < SIZE
        invariant
            line_idx <= 4,
            candidates@ == entries(board@, direction, moved_lines@, line_idx as int),
        decreases 4 - line_idx,
    {
        if moved_lines[line_idx] {
            let idx: usize = match direction {
                Direction::Left => index(line_idx, SIZE - 1),
                Direction::Right => index(line_idx, 0),
                Direction::Up => index(SIZE - 1, line_idx),
                Direction::Down => index(0, line_idx),
            };
            if board.get_index(idx) == 0 {
                candidates.push(idx);
            }
        }
        line_idx = line_idx + 1;
    }
    candidates
}

// ---------------------------------------------------------------------------------------------
// The game
// ---------------------------------------------------------------------------------------------

/// A running game.
pub struct Game {
    seed: u64,
    dice: Dice,
    board: Board,
    draw: DrawState,
    bonus_tracker: BonusTracker,
    next_tile: NextTile,
    accepted_moves: u64,
    attempted_moves: u64,
}

impl View for Game {
    type V = GameModel;

    closed spec fn view(&self) -> GameModel {
        GameModel {
            seed: self.seed,
            dice: self.dice,
            board: self.board@,
            draw: self.draw@,
            tracker: self.bonus_tracker,
            next: self.next_tile@,
            accepted: self.accepted_moves,
            attempted: self.attempted_moves,
        }
    }
}

impl Clone for Game {
    fn clone(&self) -> (copy: Self)
        ensures
            copy@ == self@,
    {
        Game {
            seed: self.seed,
            dice: self.dice,
            board: self.board,
            draw: self.draw,
            bonus_tracker: self.bonus_tracker,
            next_tile: self.next_tile.clone(),
            accepted_moves: self.accepted_moves,
            attempted_moves: self.attempted_moves,
        }
    }
}

proof fn lemma_free_cells(cells: Seq<u16>, end: int)
    requires
        0 <= end <= cells.len() <= 16,
    ensures
        free_cells(cells, end).len() == occurrences(cells.take(end), 0u16),
        forall|i: int|
            0 <= i < free_cells(cells, end).len() ==> #[trigger] free_cells(cells, end)[i] < end
                && cells[free_cells(cells, end)[i] as int] == 0,
    decreases end,
{
    if end > 0 {
        lemma_free_cells(cells, end - 1);
        assert(cells.take(end).drop_last() =~= cells.take(end - 1));
        assert forall|i: int| 0 <= i < free_cells(cells, end).len() implies #[trigger] free_cells(
            cells,
            end,
        )[i] < end && cells[free_cells(cells, end)[i] as int] == 0 by {
            if i < free_cells(cells, end - 1).len() {
                assert(free_cells(cells, end)[i] == free_cells(cells, end - 1)[i]);
            }
        }
    }
}

proof fn lemma_highest_after_filling(cells: Seq<u16>, cell: int, rank: u16)
    requires
        cells.len() == 16,
        0 <= cell < 16,
        cells[cell] == 0,
    ensures
        highest(cells.update(cell, rank)) == if rank > highest(cells) {
            rank
        } else {
            highest(cells)
        },
{
    let filled = cells.update(cell, rank);
    crate::board_laws::highest_is_the_maximum(cells);
    crate::board_laws::highest_is_the_maximum(filled);
    let top = choose|i: int| 0 <= i < 16 && cells[i] == highest(cells);
    assert(filled[cell] == rank);
    if top != cell {
        assert(filled[top] == highest(cells));
    }
    let peak = choose|i: int| 0 <= i < 16 && filled[i] == highest(filled);
    if peak != cell {
        assert(cells[peak] == highest(filled));
    }
}

proof fn lemma_empty_board()
    ensures
        occurrences(Seq::new(16, |i: int| 0u16), 0u16) == 16,
{
    reveal_with_fuel(occurrences, 17);
}

proof fn lemma_empty_board_has_no_tiles(rank: u16)
    requires
        rank != 0,
    ensures
        occurrences(Seq::new(16, |i: int| 0u16), rank) == 0,
{
    reveal_with_fuel(occurrences, 17);
}

/// The forecast keeps counting the bonus cycle as the draw does, whichever free cell and rank
/// the new tile gets.
pub proof fn landing_keeps_the_forecast_in_step(
    game: GameModel,
    direction: Direction,
    cell: usize,
    rank: u16,
)
    requires
        game.is_sound(),
        game.forecast_is_in_step(),
        push_fits(game.board, direction),
        cell < 16,
        slid_cells(game.board, direction)[cell as int] == 0,
    ensures
        game.landed(direction, cell, rank).forecast_is_in_step(),
{
    let after = game.landed(direction, cell, rank);
    let slid = slid_cells(game.board, direction);
    crate::board_laws::a_push_raises_the_highest_rank_by_at_most_one(game.board, direction);
    lemma_highest_after_filling(slid, cell as int, rank);
    assert(highest(after.board) >= highest(game.board));
    let taken = game.draw.consumed(game.next, game.dice).0;
    if game.draw.pending && game.draw.bonus_pos < 20 {
        assert(taken.bonus_pos == game.draw.bonus_pos + 1);
        assert(taken.cycle == game.draw.cycle);
    } else {
        assert(taken.bonus_pos == 0);
    }
    assert(after.draw.bonus_pos == taken.bonus_pos);
    assert(after.draw.cycle == taken.cycle);
}

impl Game {
    /// Starts the game of a seed: nine basic tiles on the board, and the first tile to come.
    pub fn new(seed: u64) -> (game: Self)
        ensures
            game@ == GameModel::started(seed),
            game@.is_sound(),
            game@.is_fair(),
            forall|count: int| 0 <= count <= 60000 ==> game@.has_room_for(count),
            pushes_fit(game@.board),
            game@.shows_the_deck(),
            game@.shows_a_window(),
            game@.forecast_is_in_step(),
            game@.is_a_deal(),
            forall|rank: u16| 1 <= rank <= 3 ==> #[trigger] game@.basic_tiles(rank) <= 4,
            game@.next is Basic,
            game@.next.is_coherent(),
            occurrences(game@.board, 0u16) == 7,
            ranks_below(game@.board, 4),
    {
        let mut dice = Dice::seeded(seed);
        let mut draw = DrawState::new(&mut dice);
        let ghost first_draw = draw@;
        let ghost first_dice = dice;
        let mut board = Board::empty();
        proof {
            lemma_empty_board();
        }
        let mut tiles: usize = 0;
        assert forall|rank: u16| rank != 0 implies #[trigger] occurrences(board@, rank)
            == occurrences(first_draw.deck.take(0), rank) by {
            lemma_empty_board_has_no_tiles(rank);
        }
        while tiles < 9
            invariant
                tiles <= 9,
                draw@.deck == first_draw.deck,
                draw@.basic_pos == tiles,
                forall|rank: u16|
                    rank != 0 ==> #[trigger] occurrences(board@, rank) == occurrences(
                        first_draw.deck.take(tiles as int),
                        rank,
                    ),
                (board@, draw@, dice) == dealt(first_draw, first_dice, tiles as int),
                draw@.in_range(),
                draw@.is_fair(),
                draw@.cycle == first_draw.cycle,
                draw@.bonus_pos == 0,
                occurrences(board@, 0u16) == 16 - tiles,
                ranks_below(board@, 4),
            decreases 9 - tiles,
        {
            let rank: u16 = draw.draw_basic(&mut dice);
            let empty: Vec<usize> = board.empty_indices();
            proof {
                lemma_free_cells(board@, 16);
                assert(board@.take(16) =~= board@);
            }
            let choice: usize = dice.roll(empty.len() as u64) as usize;
            let idx: usize = empty[choice];
            let ghost cells = board@;
            board.set_index(idx, rank);
            proof {
                replacing_an_item_changes_two_counts(cells, idx as int, rank, 0u16);
                let part = first_draw.deck.take(tiles + 1);
                assert(part.drop_last() =~= first_draw.deck.take(tiles as int));
                assert forall|other: u16| other != 0 implies #[trigger] occurrences(board@, other)
                    == occurrences(part, other) by {
                    replacing_an_item_changes_two_counts(cells, idx as int, rank, other);
                }
            }
            tiles = tiles + 1;
        }
        proof {
            crate::board_laws::highest_is_the_maximum(board@);
        }
        let next_tile: NextTile = draw.next_tile(&board, &mut dice);
        let mut bonus_tracker = BonusTracker::default();
        bonus_tracker.observe_revealed_next(board.high_rank(), &next_tile);
        let game = Game {
            seed,
            dice,
            board,
            draw,
            bonus_tracker,
            next_tile,
            accepted_moves: 0,
            attempted_moves: 0,
        };
        proof {
            assert forall|rank: u16| 1 <= rank <= 3 implies #[trigger] game@.basic_tiles(rank)
                <= 4 by {
                crate::game_laws::a_deal_holds_a_basic_rank_at_most_four_times(game@, rank);
            }
        }
        game
    }

    /// The seed of the game.
    pub fn seed(&self) -> (seed: u64)
        ensures
            seed == self@.seed,
    {
        self.seed
    }

    /// The board.
    pub fn board(&self) -> (board: Board)
        ensures
            board@ == self@.board,
    {
        self.board
    }

    /// The points of the board.
    pub fn score(&self) -> (points: u64)
        ensures
            points == total_points(self@.board),
    {
        self.board.score()
    }

    /// The face of the highest tile.
    pub fn high_tile(&self) -> (face: u64)
        ensures
            face == face_of(highest(self@.board) as int),
    {
        self.board.high_face()
    }

    /// The tile that the next move brings.
    pub fn next_tile(&self) -> (next: &NextTile)
        ensures
            next@ == self@.next,
    {
        &self.next_tile
    }

    /// The forecast of the bonus tiles up to a horizon.
    pub fn bonus_forecast(&self, horizon: u8) -> (forecast: BonusForecast)
        ensures
            forecast@ == self@.tracker.forecasted(horizon),
    {
        self.bonus_tracker.forecast(horizon)
    }

    /// What the forecast depends on, as three numbers.
    pub fn bonus_forecast_signature(&self) -> (digest: [u8; 3])
        ensures
            digest@ == self@.tracker.digest(),
    {
        self.bonus_tracker.signature()
    }

    /// Number of moves that moved something.
    pub fn accepted_moves(&self) -> (count: u64)
        ensures
            count == self@.accepted,
    {
        self.accepted_moves
    }

    /// Number of moves that were tried.
    pub fn attempted_moves(&self) -> (count: u64)
        ensures
            count == self@.attempted,
    {
        self.attempted_moves
    }

    /// Whether no move is left.
    pub fn is_game_over(&self) -> (over: bool)
        requires
            pushes_fit(self@.board),
        ensures
            over == self@.is_over(),
    {
        !self.board.has_legal_move()
    }

    /// The legal moves, in the order up, down, left, right.
    pub fn legal_directions(&self) -> (legal: Vec<Direction>)
        requires
            pushes_fit(self@.board),
        ensures
            legal@ == legal_moves(self@.board),
    {
        self.board.legal_directions()
    }

    /// The outward state of the game.
    pub fn snapshot(&self) -> (snapshot: GameSnapshot)
        requires
            pushes_fit(self@.board),
        ensures
            snapshot@ == self@.shown(),
    {
        GameSnapshot {
            seed: self.seed,
            board: self.board.face_values(),
            score: self.score(),
            high_tile: self.high_tile(),
            accepted_moves: self.accepted_moves,
            attempted_moves: self.attempted_moves,
            legal_moves_mask: self.board.legal_moves_mask(),
            next_tile: self.next_tile.clone(),
            bonus_forecast: self.bonus_forecast(DEFAULT_BONUS_FORECAST_HORIZON),
        }
    }

    /// Whether the numbers of the game have room for some more moves.
    pub fn has_room_for(&self, count: u16) -> (room: bool)
        ensures
            room == self@.has_room_for(count as int),
    {
        let ranks: Vec<u16> = self.next_tile.rank_signature();
        proof {
            crate::board_laws::highest_is_the_maximum(self.board@);
        }
        let high: u16 = self.board.high_rank();
        if high as i64 >= u16::MAX as i64 - count as i64 {
            proof {
                let top = choose|i: int| 0 <= i < 16 && self.board@[i] == high;
                assert(!(self.board@[top] < u16::MAX - count));
            }
            return false;
        }
        let mut i: usize = 0;
        while i < ranks.len()
            invariant
                i <= ranks@.len(),
                ranks@ == self@.next.ranks(),
                forall|j: int| 0 <= j < i ==> #[trigger] ranks@[j] < u16::MAX - count + 1,
            decreases ranks@.len() - i,
        {
            if ranks[i] as i64 >= u16::MAX as i64 - count as i64 + 1 {
                return false;
            }
            i = i + 1;
        }
        let mut k: usize = 0;
        while k < 12
            invariant
                k <= 12,
                forall|j: int|
                    0 <= j < k ==> #[trigger] self@.draw.deck[j] < u16::MAX - count + 1,
            decreases 12 - k,
        {
            if self.draw.basic_deck[k] as i64 >= u16::MAX as i64 - count as i64 + 1 {
                assert(!(self@.draw.deck[k as int] < u16::MAX - count + 1));
                return false;
            }
            k = k + 1;
        }
        self.attempted_moves <= u64::MAX - count as u64
    }

    /// Puts another tile in the place of the one that is shown next.
    pub fn force_next_tile(&mut self, next_tile: NextTile)
        ensures
            final(self)@ == (GameModel { next: next_tile@, ..old(self)@ }),
    {
        self.next_tile = next_tile;
    }

    fn advance(&mut self, direction: Direction, forced: Option<u16>) -> (result: MoveResult)
        requires
            old(self)@.is_sound(),
            old(self)@.has_room_for(1),
            forced is Some ==> forced->Some_0 < u16::MAX,
        ensures
            forced is None ==> final(self)@ == old(self)@.stepped(direction) && result@
                == old(self)@.report(direction),
            forced is Some ==> final(self)@ == old(self)@.stepped_with(direction, forced->Some_0)
                && result@ == old(self)@.report_with(direction, forced->Some_0),
            final(self)@.is_sound(),
            old(self)@.is_fair() ==> final(self)@.is_fair() && (forced is None && result.spawn
                is Some ==> 1 <= result.spawn->Some_0.rank),
            ranks_below(final(self)@.board, u16::MAX as int),
            pushes_fit(final(self)@.board),
            forced is None ==> forall|count: int|
                0 <= count < 60000 && old(self)@.has_room_for(count + 1) ==>
                    #[trigger] final(self)@.has_room_for(count),
            moves(old(self)@.board, direction) ==> final(self)@.shows_the_deck()
                && final(self)@.shows_a_window() && final(self)@.next.is_coherent(),
            old(self)@.shows_the_deck() ==> final(self)@.shows_the_deck(),
            old(self)@.shows_a_window() ==> final(self)@.shows_a_window(),
            old(self)@.forecast_is_in_step() ==> final(self)@.forecast_is_in_step(),
            moves(old(self)@.board, direction) ==> entries_after(
                old(self)@.board,
                direction,
            ).contains(old(self)@.spawn_cell(direction)),
            forced is None && old(self)@.shows_the_deck() && result.spawn is Some ==>
                old(self)@.next.ranks().contains(result.spawn->Some_0.rank),
            result.spawn matches Some(spawn) ==> spawn.row < 4 && spawn.col < 4 && spawn.rank
                < u16::MAX,
    {
        let ghost start = self@;
        proof {
            assert(ranks_below(start.board, u16::MAX as int));
            low_ranks_fit(start.board);
            assert(push_fits(start.board, direction));
        }
        let before: Board = self.board;
        let slide = self.board.slide(direction);
        if !slide.changed {
            self.attempted_moves = self.attempted_moves + 1;
            proof {
                crate::board_laws::a_push_is_legal_where_it_changes_the_board(
                    start.board,
                    direction,
                );
            }
            let result = MoveResult {
                direction,
                accepted: false,
                board_before: before.face_values(),
                board_after_slide: before.face_values(),
                board_after_spawn: before.face_values(),
                moved_lines: slide.moved_lines,
                merged_cells: slide.merged_cells,
                spawn: None,
                score: self.score(),
                high_tile: self.high_tile(),
                next_tile: self.next_tile.clone(),
                bonus_forecast: self.bonus_forecast(DEFAULT_BONUS_FORECAST_HORIZON),
                game_over: self.is_game_over(),
            };
            return result;
        }

        let spawn: SpawnEvent = self.land(direction, &slide, forced);
        proof {
            low_ranks_fit(self@.board);
        }
        MoveResult {
            direction,
            accepted: true,
            board_before: before.face_values(),
            board_after_slide: slide.board.face_values(),
            board_after_spawn: self.board.face_values(),
            moved_lines: slide.moved_lines,
            merged_cells: slide.merged_cells,
            spawn: Some(spawn),
            score: self.score(),
            high_tile: self.high_tile(),
            next_tile: self.next_tile.clone(),
            bonus_forecast: self.bonus_forecast(DEFAULT_BONUS_FORECAST_HORIZON),
            game_over: self.is_game_over(),
        }
    }

    fn land(&mut self, direction: Direction, slide: &SlideResult, forced: Option<u16>) -> (spawn:
        SpawnEvent)
        requires
            old(self)@.is_sound(),
            old(self)@.has_room_for(1),
            moves(old(self)@.board, direction),
            push_fits(old(self)@.board, direction),
            slide.board@ == slid_cells(old(self)@.board, direction),
            slide.moved_lines@ == moved_lines_of(old(self)@.board, direction),
            forced is Some ==> forced->Some_0 < u16::MAX,
        ensures
            forced is None ==> spawn.rank == old(self)@.spawn_rank(),
            forced is Some ==> spawn.rank == forced->Some_0,
            spawn@ == old(self)@.spawned(old(self)@.spawn_cell(direction), spawn.rank),
            spawn.row < 4,
            spawn.col < 4,
            spawn.rank < u16::MAX,
            old(self)@.is_fair() ==> final(self)@.is_fair() && (forced is None ==> 1
                <= spawn.rank),
            final(self)@ == old(self)@.landed(
                direction,
                old(self)@.spawn_cell(direction),
                spawn.rank,
            ),
            final(self)@.is_sound(),
            ranks_below(final(self)@.board, u16::MAX as int),
            forced is None ==> forall|count: int|
                0 <= count < 60000 && old(self)@.has_room_for(count + 1) ==>
                    #[trigger] final(self)@.has_room_for(count),
            final(self)@.shows_the_deck(),
            final(self)@.shows_a_window(),
            final(self)@.next.is_coherent(),
            old(self)@.forecast_is_in_step() ==> final(self)@.forecast_is_in_step(),
            entries_after(old(self)@.board, direction).contains(old(self)@.spawn_cell(direction)),
            forced is None && old(self)@.shows_the_deck() ==>
                old(self)@.next.ranks().contains(spawn.rank),
    {
        let ghost start = self@;
        proof {
            a_legal_push_leaves_room(start.board, direction);
            lemma_push_keeps_ranks_below(start.board, direction, u16::MAX - 1);
        }
        self.attempted_moves = self.attempted_moves + 1;
        self.board = slide.board;
        let preview: NextTile = self.next_tile.clone();
        let drawn: u16 = self.draw.consume_next(&preview, &mut self.dice);
        let rank: u16 = match forced {
            Some(given) => given,
            None => drawn,
        };
        proof {
            if start.next is Basic && start.shows_the_deck() {
                assert(start.next.ranks()[0] == drawn);
            }
        }
        self.bonus_tracker.advance_after_consuming_current();
        let spawn_idx: usize = self.choose_spawn_index(&slide.board, direction, slide.moved_lines);
        let (row, col) = (spawn_idx / SIZE, spawn_idx % SIZE);
        self.board.set_index(spawn_idx, rank);
        self.accepted_moves = self.accepted_moves + 1;
        let source: SpawnSource = preview.source();
        let spawn = SpawnEvent { row, col, rank, face: rank_to_face(rank), source, preview };

        self.next_tile = self.draw.next_tile(&self.board, &mut self.dice);
        self.bonus_tracker.observe_revealed_next(self.board.high_rank(), &self.next_tile);
        proof {
            crate::board_laws::highest_is_the_maximum(self.board@);
            if forced is None {
                assert forall|count: int|
                    0 <= count < 60000 && start.has_room_for(
                        count + 1,
                    ) implies #[trigger] self@.has_room_for(count) by {
                    lemma_push_keeps_ranks_below(start.board, direction, u16::MAX - (count + 1));
                    if start.next is Bonus {
                        let i = choose|i: int|
                            0 <= i < start.next.ranks().len() && start.next.ranks()[i] == rank;
                        assert(start.next.ranks()[i] < u16::MAX - count);
                    }
                    assert(ranks_below(self@.board, u16::MAX - count));
                }
            }
            if start.forecast_is_in_step() {
                landing_keeps_the_forecast_in_step(start, direction, spawn_idx, rank);
            }
        }
        spawn
    }

    fn choose_spawn_index(
        &mut self,
        board: &Board,
        direction: Direction,
        moved_lines: [bool; 4],
    ) -> (cell: usize)
        requires
            entries(board@, direction, moved_lines@, 4).len() > 0,
        ensures
            ({
                let cells = entries(board@, direction, moved_lines@, 4);
                let (choice, dice) = old(self)@.dice.rolled(cells.len() as u64);
                &&& cell == cells[choice as int]
                &&& cells.contains(cell)
                &&& final(self)@ == GameModel { dice, ..old(self)@ }
            }),
    {
        let candidates: Vec<usize> = spawn_candidates(board, direction, moved_lines);
        let choice: usize = self.dice.roll(candidates.len() as u64) as usize;
        assert(candidates@.contains(candidates@[choice as int]));
        candidates[choice]
    }

    /// Makes a move. Where the push moves nothing, only the count of tries changes. Where it
    /// moves something, the shown tile comes in at the back of a moved line and the next tile is
    /// revealed.
    pub fn step(&mut self, direction: Direction) -> (result: MoveResult)
        requires
            old(self)@.is_sound(),
            old(self)@.has_room_for(1),
        ensures
            final(self)@ == old(self)@.stepped(direction),
            result@ == old(self)@.report(direction),
            final(self)@.is_sound(),
            old(self)@.is_fair() ==> final(self)@.is_fair() && (result.spawn is Some ==> 1
                <= result.spawn->Some_0.rank),
            ranks_below(final(self)@.board, u16::MAX as int),
            pushes_fit(final(self)@.board),
            forall|count: int|
                0 <= count < 60000 && old(self)@.has_room_for(count + 1) ==>
                    #[trigger] final(self)@.has_room_for(count),
            moves(old(self)@.board, direction) ==> final(self)@.shows_the_deck()
                && final(self)@.shows_a_window() && final(self)@.next.is_coherent(),
            old(self)@.shows_the_deck() ==> final(self)@.shows_the_deck(),
            old(self)@.shows_a_window() ==> final(self)@.shows_a_window(),
            old(self)@.forecast_is_in_step() ==> final(self)@.forecast_is_in_step(),
            moves(old(self)@.board, direction) ==> entries_after(
                old(self)@.board,
                direction,
            ).contains(old(self)@.spawn_cell(direction)),
            old(self)@.shows_the_deck() && result.spawn is Some ==>
                old(self)@.next.ranks().contains(result.spawn->Some_0.rank),
            result.spawn matches Some(spawn) ==> spawn.row < 4 && spawn.col < 4 && spawn.rank
                < u16::MAX,
            old(self)@.shows_the_deck() && moves(old(self)@.board, direction) ==> exists|i: int|
                0 <= i < old(self)@.outcomes(direction).len() && (
                #[trigger] old(self)@.outcomes(direction)[i]).state == final(self)@,
            old(self)@.shows_the_deck() && faces_differ(old(self)@.next.ranks())
                && result.spawn is Some ==> exists|i: int|
                #[trigger] is_the_one_that_shows(
                    old(self)@.outcomes(direction),
                    result.spawn->Some_0@,
                    i,
                ) && old(self)@.outcomes(direction)[i].state == final(self)@,
    {
        let ghost start = self@;
        let result = self.advance(direction, None);
        proof {
            if start.shows_the_deck() && moves(start.board, direction) {
                assert(result@.spawn is Some);
                crate::game_laws::every_landing_is_previewed(
                    start,
                    direction,
                    start.spawn_cell(direction),
                    start.spawn_rank(),
                );
                if faces_differ(start.next.ranks()) {
                    crate::game_laws::one_outcome_shows_the_new_tile(
                        start,
                        direction,
                        start.spawn_cell(direction),
                        start.spawn_rank(),
                    );
                }
            }
        }
        result
    }

    /// Makes a move whose new tile is given a rank; the draw is used as if it was not.
    pub fn step_with_forced_next(&mut self, direction: Direction, rank: u16) -> (result: MoveResult)
        requires
            old(self)@.is_sound(),
            old(self)@.has_room_for(1),
            rank < u16::MAX,
        ensures
            final(self)@ == old(self)@.stepped_with(direction, rank),
            result@ == old(self)@.report_with(direction, rank),
            final(self)@.is_sound(),
            old(self)@.is_fair() ==> final(self)@.is_fair(),
            ranks_below(final(self)@.board, u16::MAX as int),
            pushes_fit(final(self)@.board),
            result.spawn matches Some(spawn) ==> spawn.row < 4 && spawn.col < 4 && spawn.rank
                < u16::MAX,
    {
        self.advance(direction, Some(rank))
    }
}

// ---------------------------------------------------------------------------------------------
// The outcomes that a move can have
// ---------------------------------------------------------------------------------------------

/// One way in which a move can turn out.
pub struct Outcome {
    pub probability: Probability,
    pub spawn_probability: Probability,
    pub rank_probability: Probability,
    pub direction: Direction,
    pub row: usize,
    pub col: usize,
    pub face: u64,
    pub board: [u64; 16],
    pub next_tile: NextTile,
    pub bonus_forecast: BonusForecast,
    pub score: u64,
    pub high_tile: u64,
    pub state: Game,
}

/// What an outcome says.
#[verifier::ext_equal]
pub struct OutcomeModel {
    pub probability: Probability,
    pub spawn_probability: Probability,
    pub rank_probability: Probability,
    pub direction: Direction,
    pub row: int,
    pub col: int,
    pub face: int,
    pub board: Seq<u64>,
    pub next_tile: Preview,
    pub bonus_forecast: ForecastModel,
    pub score: int,
    pub high_tile: int,
    pub state: GameModel,
}

impl OutcomeModel {
    /// Whether the outcome shows a new tile: in its row and its column, with its face.
    pub open spec fn shows(self, spawn: SpawnModel) -> bool {
        &&& self.row == spawn.row
        &&& self.col == spawn.col
        &&& self.face == spawn.face
    }
}

/// Whether one of some outcomes, and no other, shows a new tile.
pub open spec fn is_the_one_that_shows(
    outcomes: Seq<OutcomeModel>,
    spawn: SpawnModel,
    i: int,
) -> bool {
    &&& 0 <= i < outcomes.len()
    &&& outcomes[i].shows(spawn)
    &&& forall|j: int|
        0 <= j < outcomes.len() && (#[trigger] outcomes[j]).shows(spawn) ==> j == i
}

/// Whether some ranks have a face each of their own.
pub open spec fn faces_differ(ranks: Seq<u16>) -> bool {
    forall|i: int, j: int|
        0 <= i < j < ranks.len() ==> face_of(#[trigger] ranks[i] as int) != face_of(
            #[trigger] ranks[j] as int,
        )
}

impl View for Outcome {
    type V = OutcomeModel;

    open spec fn view(&self) -> OutcomeModel {
        OutcomeModel {
            probability: self.probability,
            spawn_probability: self.spawn_probability,
            rank_probability: self.rank_probability,
            direction: self.direction,
            row: self.row as int,
            col: self.col as int,
            face: self.face as int,
            board: self.board@,
            next_tile: self.next_tile@,
            bonus_forecast: self.bonus_forecast@,
            score: self.score as int,
            high_tile: self.high_tile as int,
            state: self.state@,
        }
    }
}

impl Clone for Outcome {
    fn clone(&self) -> (copy: Self)
        ensures
            copy@ == self@,
    {
        Outcome {
            probability: self.probability,
            spawn_probability: self.spawn_probability,
            rank_probability: self.rank_probability,
            direction: self.direction,
            row: self.row,
            col: self.col,
            face: self.face,
            board: self.board,
            next_tile: self.next_tile.clone(),
            bonus_forecast: self.bonus_forecast.clone(),
            score: self.score,
            high_tile: self.high_tile,
            state: self.state.clone(),
        }
    }
}

/// What some outcomes say.
pub open spec fn outcome_models(outcomes: Seq<Outcome>) -> Seq<OutcomeModel> {
    Seq::new(outcomes.len(), |i: int| outcomes[i]@)
}

impl GameModel {
    /// The outcome of a push in which the new tile comes into some cell with some rank.
    pub open spec fn outcome(
        self,
        direction: Direction,
        cell: usize,
        option: (u16, Probability),
    ) -> OutcomeModel {
        let state = self.landed(direction, cell, option.0);
        let spawn_probability = one_in(entries_after(self.board, direction).len() as u64);
        OutcomeModel {
            probability: both(spawn_probability, option.1),
            spawn_probability,
            rank_probability: option.1,
            direction,
            row: cell as int / 4,
            col: cell as int % 4,
            face: face_of(option.0 as int),
            board: faces_of(state.board),
            next_tile: state.next,
            bonus_forecast: state.default_forecast(),
            score: total_points(state.board),
            high_tile: face_of(highest(state.board) as int),
            state,
        }
    }

    /// The outcomes in which the new tile comes into one cell, one for each of the first few
    /// ranks that it can have.
    pub open spec fn outcomes_in_cell(
        self,
        direction: Direction,
        cell: usize,
        ranks: int,
    ) -> Seq<OutcomeModel> {
        Seq::new(ranks as nat, |i: int| self.outcome(direction, cell, self.next.options()[i]))
    }

    /// The outcomes in which the new tile comes into one of the first few cells.
    pub open spec fn outcomes_in_cells(self, direction: Direction, cells: int) -> Seq<OutcomeModel>
        decreases cells,
    {
        if cells <= 0 {
            Seq::empty()
        } else {
            self.outcomes_in_cells(direction, cells - 1) + self.outcomes_in_cell(
                direction,
                entries_after(self.board, direction)[cells - 1],
                self.next.ranks().len() as int,
            )
        }
    }

    /// The outcomes of a move: every cell into which the new tile can come, with every rank that
    /// it can have; none where the push moves nothing.
    pub open spec fn outcomes(self, direction: Direction) -> Seq<OutcomeModel> {
        if moves(self.board, direction) {
            self.outcomes_in_cells(direction, entries_after(self.board, direction).len() as int)
        } else {
            Seq::empty()
        }
    }
}

impl Outcome {
    /// The game after the outcome.
    pub fn game(&self) -> (game: &Game)
        ensures
            game@ == self@.state,
    {
        &self.state
    }
}

impl Game {
    /// The ways in which a move can turn out, each with its probability.
    pub fn preview_outcomes(&self, direction: Direction) -> (outcomes: Vec<Outcome>)
        requires
            self@.is_sound(),
            self@.has_room_for(1),
        ensures
            outcome_models(outcomes@) == self@.outcomes(direction),
            outcomes@.len() > 0 <==> moves(self@.board, direction),
            forall|i: int|
                0 <= i < outcomes@.len() ==> {
                    &&& (#[trigger] outcomes@[i])@.state.is_sound()
                    &&& ranks_below(outcomes@[i]@.state.board, u16::MAX as int)
                },
            self@.is_fair() ==> forall|i: int|
                0 <= i < outcomes@.len() ==> (#[trigger] outcomes@[i])@.state.is_fair(),
            forall|i: int, count: int|
                0 <= i < outcomes@.len() && 0 <= count < 60000 && self@.has_room_for(count + 1)
                    ==> #[trigger] outcomes@[i]@.state.has_room_for(count),
    {
        let ghost start = self@;
        proof {
            assert(ranks_below(start.board, u16::MAX as int));
            low_ranks_fit(start.board);
            assert(push_fits(start.board, direction));
        }
        let slide = self.board.slide(direction);
        if !slide.changed {
            let outcomes: Vec<Outcome> = Vec::new();
            assert(outcome_models(outcomes@) =~= self@.outcomes(direction));
            return outcomes;
        }
        let candidates: Vec<usize> = spawn_candidates(&slide.board, direction, slide.moved_lines);
        proof {
            a_legal_push_leaves_room(start.board, direction);
        }
        let rank_options: Vec<(u16, Probability)> = self.next_tile.rank_options();
        let spawn_probability = Probability::one_out_of(candidates.len() as u64);
        let mut outcomes: Vec<Outcome> = Vec::new();
        let mut c: usize = 0;
        while c < candidates.len()
            invariant
                c <= candidates@.len() <= 4,
                start == self@,
                start.is_sound(),
                start.has_room_for(1),
                moves(start.board, direction),
                push_fits(start.board, direction),
                slide.board@ == slid_cells(start.board, direction),
                candidates@ == entries_after(start.board, direction),
                rank_options@ == start.next.options(),
                spawn_probability == one_in(candidates@.len() as u64),
                outcome_models(outcomes@) == start.outcomes_in_cells(direction, c as int),
                c > 0 ==> outcomes@.len() > 0,
                forall|i: int|
                    0 <= i < outcomes@.len() ==> {
                        &&& (#[trigger] outcomes@[i])@.state.is_sound()
                        &&& ranks_below(outcomes@[i]@.state.board, u16::MAX as int)
                        &&& start.is_fair() ==> outcomes@[i]@.state.is_fair()
                    },
                forall|i: int, count: int|
                    0 <= i < outcomes@.len() && 0 <= count < 60000 && start.has_room_for(
                        count + 1,
                    ) ==> #[trigger] outcomes@[i]@.state.has_room_for(count),
            decreases candidates@.len() - c,
        {
            let idx: usize = candidates[c];
            let ghost earlier = outcome_models(outcomes@);
            let mut r: usize = 0;
            assert(earlier + start.outcomes_in_cell(direction, idx, 0) =~= earlier);
            while r < rank_options.len()
                invariant
                    r <= rank_options@.len(),
                    c < candidates@.len() <= 4,
                    idx == candidates@[c as int],
                    start == self@,
                    start.is_sound(),
                    start.has_room_for(1),
                    moves(start.board, direction),
                    push_fits(start.board, direction),
                    slide.board@ == slid_cells(start.board, direction),
                    candidates@ == entries_after(start.board, direction),
                    rank_options@ == start.next.options(),
                    spawn_probability == one_in(candidates@.len() as u64),
                    outcome_models(outcomes@) == earlier + start.outcomes_in_cell(
                        direction,
                        idx,
                        r as int,
                    ),
                    r > 0 ==> outcomes@.len() > 0,
                    forall|i: int|
                        0 <= i < outcomes@.len() ==> {
                            &&& (#[trigger] outcomes@[i])@.state.is_sound()
                            &&& ranks_below(outcomes@[i]@.state.board, u16::MAX as int)
                            &&& start.is_fair() ==> outcomes@[i]@.state.is_fair()
                        },
                    forall|i: int, count: int|
                        0 <= i < outcomes@.len() && 0 <= count < 60000 && start.has_room_for(
                            count + 1,
                        ) ==> #[trigger] outcomes@[i]@.state.has_room_for(count),
                decreases rank_options@.len() - r,
            {
                let (rank, rank_probability) = rank_options[r];
                assert(start.next.ranks()[r as int] == rank);
                let ghost before = outcomes@;
                let outcome = self.outcome_at(
                    direction,
                    &slide,
                    candidates.len(),
                    idx,
                    r,
                    rank,
                    spawn_probability,
                    rank_probability,
                );
                outcomes.push(outcome);
                proof {
                    assert(outcome@ == start.outcome(
                        direction,
                        idx,
                        start.next.options()[r as int],
                    ));
                    assert(outcome_models(outcomes@) =~= outcome_models(before).push(outcome@));
                    assert(start.outcomes_in_cell(direction, idx, r + 1)
                        =~= start.outcomes_in_cell(direction, idx, r as int).push(outcome@));
                    assert(outcome_models(outcomes@) =~= earlier + start.outcomes_in_cell(
                        direction,
                        idx,
                        r + 1,
                    ));
                    assert forall|i: int| 0 <= i < outcomes@.len() - 1 implies outcomes@[i]
                        == before[i] by {}
                }
                r = r + 1;
            }
            c = c + 1;
        }
        outcomes
    }

    fn outcome_at(
        &self,
        direction: Direction,
        slide: &SlideResult,
        candidates: usize,
        idx: usize,
        option: usize,
        rank: u16,
        spawn_probability: Probability,
        rank_probability: Probability,
    ) -> (outcome: Outcome)
        requires
            self@.is_sound(),
            self@.has_room_for(1),
            moves(self@.board, direction),
            push_fits(self@.board, direction),
            slide.board@ == slid_cells(self@.board, direction),
            1 <= candidates <= 4,
            candidates == entries_after(self@.board, direction).len(),
            entries_after(self@.board, direction).contains(idx),
            option < self@.next.ranks().len(),
            (rank, rank_probability) == self@.next.options()[option as int],
            spawn_probability == one_in(candidates as u64),
        ensures
            outcome@ == self@.outcome(direction, idx, (rank, rank_probability)),
            outcome@.state.is_sound(),
            self@.is_fair() ==> outcome@.state.is_fair(),
            ranks_below(outcome@.state.board, u16::MAX as int),
            forall|count: int|
                0 <= count < 60000 && self@.has_room_for(count + 1)
                    ==> #[trigger] outcome@.state.has_room_for(count),
    {
        let ghost start = self@;
        proof {
            a_legal_push_leaves_room(start.board, direction);
            lemma_push_keeps_ranks_below(start.board, direction, u16::MAX - 1);
            assert(start.next.ranks()[option as int] == rank);
        }
        let mut state: Game = self.clone();
        state.attempted_moves = state.attempted_moves + 1;
        state.board = slide.board;
        let shown: NextTile = state.next_tile.clone();
        state.draw.consume_known_rank(&shown, &mut state.dice);
        state.bonus_tracker.advance_after_consuming_current();
        consume_simulated_spawn_choice(&mut state.dice, candidates);
        state.board.set_index(idx, rank);
        state.accepted_moves = state.accepted_moves + 1;
        state.next_tile = state.draw.next_tile(&state.board, &mut state.dice);
        state.bonus_tracker.observe_revealed_next(state.board.high_rank(), &state.next_tile);
        proof {
            crate::board_laws::highest_is_the_maximum(state.board@);
            assert(state@ =~= start.landed(direction, idx, rank));
            assert forall|count: int|
                0 <= count < 60000 && start.has_room_for(
                    count + 1,
                ) implies #[trigger] state@.has_room_for(count) by {
                lemma_push_keeps_ranks_below(start.board, direction, u16::MAX - (count + 1));
                assert(start.next.ranks()[option as int] < u16::MAX - count);
                assert(ranks_below(state@.board, u16::MAX - count));
            }
            assert(1 * rank_probability.numerator <= u64::MAX);
            assert(candidates * rank_probability.denominator <= u64::MAX) by (nonlinear_arith)
                requires
                    candidates <= 4,
                    rank_probability.denominator <= u64::MAX / 4,
            ;
        }
        Outcome {
            probability: spawn_probability.and(rank_probability),
            spawn_probability,
            rank_probability,
            direction,
            row: idx / SIZE,
            col: idx % SIZE,
            face: rank_to_face(rank),
            board: state.board.face_values(),
            next_tile: state.next_tile.clone(),
            bonus_forecast: state.bonus_forecast(DEFAULT_BONUS_FORECAST_HORIZON),
            score: state.score(),
            high_tile: state.high_tile(),
            state,
        }
    }
}

fn consume_simulated_spawn_choice(dice: &mut Dice, candidate_count: usize)
    requires
        candidate_count > 0,
    ensures
        *final(dice) == old(dice).rolled(candidate_count as u64).1,
{
    dice.roll(candidate_count as u64);
}

// ---------------------------------------------------------------------------------------------
// Seeds
// ---------------------------------------------------------------------------------------------

/// The seed that a moment gives: the seconds, with the nanoseconds over their upper half.
pub open spec fn moment_seed(seconds: u64, nanos: u32) -> u64 {
    seconds ^ ((nanos as u64) << 32)
}

/// Reads the clock by `SystemTime::now().duration_since(UNIX_EPOCH)`. Gives the whole seconds of
/// the time since the epoch and the nanoseconds beyond them, of which there are fewer than a
/// billion; nothing where the clock stands before the epoch. Which moment it is depends on the
/// clock alone, and nothing is said of it.
#[verifier::external_body]
fn time_since_epoch() -> (moment: Option<(u64, u32)>)
    ensures
        moment matches Some((_, nanos)) ==> nanos < 1_000_000_000,
{
    match SystemTime::now().duration_since(UNIX_EPOCH) {
        Ok(duration) => Some((duration.as_secs(), duration.subsec_nanos())),
        Err(_) => None,
    }
}

/// What the clock shows: the seconds and nanoseconds since the epoch, or nothing where it stands
/// before the epoch.
pub fn clock_reading() -> (moment: Option<(u64, u32)>)
    ensures
        moment matches Some((_, nanos)) ==> nanos < 1_000_000_000,
{
    time_since_epoch()
}

/// The seed of a moment.
pub fn seed_of_moment(seconds: u64, nanos: u32) -> (seed: u64)
    ensures
        seed == moment_seed(seconds, nanos),
{
    seconds ^ ((nanos as u64) << 32)
}

/// The seed of what a clock shows; where it shows nothing, the seed of the epoch.
pub open spec fn reading_seed(moment: Option<(u64, u32)>) -> u64 {
    match moment {
        Some((seconds, nanos)) => moment_seed(seconds, nanos),
        None => moment_seed(0, 0),
    }
}

/// Whether a seed is the one of something that the clock may have shown.
pub open spec fn is_seed_of_the_clock(seed: u64) -> bool {
    exists|moment: Option<(u64, u32)>| #[trigger]
        call_ensures(clock_reading, (), moment) && seed == reading_seed(moment)
}

/// The seed of what a clock shows; where it shows nothing, the seed of the epoch.
pub fn seed_of_reading(moment: Option<(u64, u32)>) -> (seed: u64)
    ensures
        seed == reading_seed(moment),
{
    match moment {
        Some((seconds, nanos)) => seed_of_moment(seconds, nanos),
        None => seed_of_moment(0, 0),
    }
}

/// A seed out of the current time: `seed_of_reading` of what `clock_reading` gave. Which moment
/// that was depends on the clock.
pub fn time_seed() -> (seed: u64)
    ensures
        is_seed_of_the_clock(seed),
{
    let moment = clock_reading();
    assert(call_ensures(clock_reading, (), moment));
    seed_of_reading(moment)
}

/// The seed that was asked for, or else one out of the current time, as `time_seed` gives it.
pub fn next_seed(seed: Option<u64>) -> (next: u64)
    ensures
        seed is Some ==> next == seed->Some_0,
        seed is None ==> is_seed_of_the_clock(next),
{
    match seed {
        Some(given) => given,
        None => time_seed(),
    }
}

} // verus!

//! The picture of a game, as a list of things to do on a terminal.

use crate::board::{
    board_has_sixteen_cells, face_of, highest, rank_to_face, total_points, Board, SIZE,
};
use crate::game::{Game, GameModel, DEFAULT_BONUS_FORECAST_HORIZON};
use crate::logging::{forecast_text, forecasts_of_games_have_chances};
use crate::text::{
    decimal, pad_left, pad_right, padded_left, padded_right, repeat_char, repeated, to_decimal,
};
use crate::tile::{NextTile, Preview};
use crate::tui::{
    bonus_forecast_label, center_label, centered, colors_of, fit_label, fitted, previous_label,
    previous_text, tile_colors, tile_label, tile_text, viewed, LastMoveModel, LastMoveView,
    TileColor, BOARD_GUTTER, NL, TILE_HEIGHT, TILE_LABEL_ROW, TILE_WIDTH,
};
use vstd::prelude::*;

verus! {

broadcast use board_has_sixteen_cells;

/// One thing to do on a terminal.
#[derive(Debug)]
pub enum DrawOp {
    /// Clear the screen and go to its upper left corner.
    Clear,
    Text(String),
    Foreground(TileColor),
    Background(TileColor),
    Bold,
    Underlined,
    NoUnderline,
    ResetAttributes,
    ResetColor,
}

/// What a thing to do says.
pub enum OpModel {
    Clear,
    Text(Seq<char>),
    Foreground(TileColor),
    Background(TileColor),
    Bold,
    Underlined,
    NoUnderline,
    ResetAttributes,
    ResetColor,
}

impl View for DrawOp {
    type V = OpModel;

    open spec fn view(&self) -> OpModel {
        match self {
            DrawOp::Clear => OpModel::Clear,
            DrawOp::Text(text) => OpModel::Text(text@),
            DrawOp::Foreground(color) => OpModel::Foreground(*color),
            DrawOp::Background(color) => OpModel::Background(*color),
            DrawOp::Bold => OpModel::Bold,
            DrawOp::Underlined => OpModel::Underlined,
            DrawOp::NoUnderline => OpModel::NoUnderline,
            DrawOp::ResetAttributes => OpModel::ResetAttributes,
            DrawOp::ResetColor => OpModel::ResetColor,
        }
    }
}

/// What some things to do say.
pub open spec fn op_models(ops: Seq<DrawOp>) -> Seq<OpModel> {
    Seq::new(ops.len(), |i: int| ops[i]@)
}

/// A text alone.
pub open spec fn just(text: Seq<char>) -> Seq<OpModel> {
    seq![OpModel::Text(text)]
}

/// Lists put one behind the other.
pub open spec fn chained(count: int, part: spec_fn(int) -> Seq<OpModel>) -> Seq<OpModel>
    decreases count,
{
    if count <= 0 {
        Seq::empty()
    } else {
        chained(count - 1, part) + part(count - 1)
    }
}

fn push_op(out: &mut Vec<DrawOp>, op: DrawOp)
    ensures
        op_models(final(out)@) == op_models(old(out)@) + seq![op@],
{
    out.push(op);
    assert(op_models(out@) =~= op_models(old(out)@) + seq![op@]);
}

fn push_text(out: &mut Vec<DrawOp>, text: String)
    ensures
        op_models(final(out)@) == op_models(old(out)@) + just(text@),
{
    push_op(out, DrawOp::Text(text));
}

// ---------------------------------------------------------------------------------------------
// A tile
// ---------------------------------------------------------------------------------------------

/// Whether a character is white space, as Unicode has it.
pub open spec fn is_white_space(c: char) -> bool {
    ||| '\u{9}' <= c <= '\u{d}'
    ||| c == '\u{20}'
    ||| c == '\u{85}'
    ||| c == '\u{a0}'
    ||| c == '\u{1680}'
    ||| '\u{2000}' <= c <= '\u{200a}'
    ||| c == '\u{2028}'
    ||| c == '\u{2029}'
    ||| c == '\u{202f}'
    ||| c == '\u{205f}'
    ||| c == '\u{3000}'
}

fn white_space(c: char) -> (white: bool)
    ensures
        white == is_white_space(c),
{
    ('\u{9}' <= c && c <= '\u{d}') || c == '\u{20}' || c == '\u{85}' || c == '\u{a0}' || c
        == '\u{1680}' || ('\u{2000}' <= c && c <= '\u{200a}') || c == '\u{2028}' || c == '\u{2029}'
        || c == '\u{202f}' || c == '\u{205f}' || c == '\u{3000}'
}

/// The number of white characters at the front of a text, from some place on.
pub open spec fn ink_start(text: Seq<char>, from: int) -> int
    decreases text.len() - from,
{
    if from >= text.len() || !is_white_space(text[from]) {
        from
    } else {
        ink_start(text, from + 1)
    }
}

/// The place behind the last character before an end that is not white.
pub open spec fn ink_end(text: Seq<char>, end: int) -> int
    decreases end,
{
    if end <= 0 || !is_white_space(text[end - 1]) {
        end
    } else {
        ink_end(text, end - 1)
    }
}

/// A mark where it is wanted.
pub open spec fn mark(wanted: bool, op: OpModel) -> Seq<OpModel> {
    if wanted {
        seq![op]
    } else {
        Seq::empty()
    }
}

/// A label, of which only the part between the white ends is underlined.
pub open spec fn label_ops(label: Seq<char>, underline: bool) -> Seq<OpModel> {
    let start = ink_start(label, 0);
    let end = ink_end(label, label.len() as int);
    if start >= label.len() {
        just(label)
    } else {
        just(label.subrange(0, start)) + mark(underline, OpModel::Underlined) + just(
            label.subrange(start, end),
        ) + mark(underline, OpModel::NoUnderline) + (if end < label.len() {
            just(label.subrange(end, label.len() as int))
        } else {
            Seq::empty()
        })
    }
}

/// The colors of a tile, where colors are used.
pub open spec fn color_ops(rank: u16, use_color: bool) -> Seq<OpModel> {
    if use_color {
        seq![OpModel::Foreground(colors_of(rank).0), OpModel::Background(colors_of(rank).1)]
    } else {
        Seq::empty()
    }
}

/// One line of a tile.
pub open spec fn tile_ops(
    rank: u16,
    label: Seq<char>,
    bold: bool,
    underline: bool,
    use_color: bool,
) -> Seq<OpModel> {
    color_ops(rank, use_color) + mark(bold, OpModel::Bold) + label_ops(fitted(label), underline)
        + seq![OpModel::ResetAttributes, OpModel::ResetColor]
}

proof fn lemma_ink(text: Seq<char>, from: int, end: int)
    requires
        0 <= from,
        end <= text.len(),
        ink_start(text, from) < text.len(),
        forall|i: int| 0 <= i < from ==> is_white_space(#[trigger] text[i]),
        forall|i: int| end <= i < text.len() ==> is_white_space(#[trigger] text[i]),
    ensures
        0 <= ink_start(text, from) < ink_end(text, end) <= text.len(),
    decreases text.len() - from, end,
{
    if is_white_space(text[from]) {
        lemma_ink(text, from + 1, end);
    } else if end > 0 && is_white_space(text[end - 1]) {
        lemma_ink(text, from, end - 1);
    }
}

fn find_ink_start(text: &str) -> (start: usize)
    ensures
        start == ink_start(text@, 0),
        start <= text@.len(),
{
    let len: usize = text.unicode_len();
    let mut start: usize = 0;
    while start < len && white_space(text.get_char(start))
        invariant
            start <= len,
            len == text@.len(),
            ink_start(text@, 0) == ink_start(text@, start as int),
        decreases len - start,
    {
        start = start + 1;
    }
    start
}

fn find_ink_end(text: &str) -> (end: usize)
    ensures
        end == ink_end(text@, text@.len() as int),
        end <= text@.len(),
{
    let mut end: usize = text.unicode_len();
    while end > 0 && white_space(text.get_char(end - 1))
        invariant
            end <= text@.len(),
            ink_end(text@, text@.len() as int) == ink_end(text@, end as int),
        decreases end,
    {
        end = end - 1;
    }
    end
}

fn draw_label(out: &mut Vec<DrawOp>, label: &str, underline: bool)
    ensures
        op_models(final(out)@) == op_models(old(out)@) + label_ops(label@, underline),
{
    let ghost first = op_models(out@);
    let len: usize = label.unicode_len();
    let start: usize = find_ink_start(label);
    if start >= len {
        push_text(out, String::from_str(label));
        return;
    }
    let end: usize = find_ink_end(label);
    proof {
        lemma_ink(label@, 0, label@.len() as int);
    }
    push_text(out, String::from_str(label.substring_char(0, start)));
    if underline {
        push_op(out, DrawOp::Underlined);
    }
    push_text(out, String::from_str(label.substring_char(start, end)));
    if underline {
        push_op(out, DrawOp::NoUnderline);
    }
    if end < len {
        push_text(out, String::from_str(label.substring_char(end, len)));
    }
    assert(op_models(out@) =~= first + label_ops(label@, underline));
}

/// Draws one line of a tile.
pub fn draw_tile(
    out: &mut Vec<DrawOp>,
    rank: u16,
    label: &str,
    bold: bool,
    underline: bool,
    use_color: bool,
)
    ensures
        op_models(final(out)@) == op_models(old(out)@) + tile_ops(
            rank,
            label@,
            bold,
            underline,
            use_color,
        ),
{
    let ghost first = op_models(out@);
    let fit = fit_label(label);
    if use_color {
        let (fg, bg) = tile_colors(rank);
        push_op(out, DrawOp::Foreground(fg));
        push_op(out, DrawOp::Background(bg));
    }
    if bold {
        push_op(out, DrawOp::Bold);
    }
    draw_label(out, fit.as_str(), underline);
    push_op(out, DrawOp::ResetAttributes);
    push_op(out, DrawOp::ResetColor);
    assert(op_models(out@) =~= first + tile_ops(rank, label@, bold, underline, use_color));
}

// ---------------------------------------------------------------------------------------------
// A board
// ---------------------------------------------------------------------------------------------

/// Whether the tile of a cell came in with the last move.
pub open spec fn is_new(last: Option<LastMoveModel>, cell: int) -> bool {
    last matches Some(last) && (last.spawn_idx matches Some(idx) && idx == cell)
}

/// Whether the tile of a cell was merged by the last move.
pub open spec fn is_merged(last: Option<LastMoveModel>, cell: int) -> bool {
    last matches Some(last) && last.merged_cells[cell]
}

/// One line of the tile in a cell. A new tile is bold, and a merged one is underlined.
pub open spec fn cell_ops(
    cells: Seq<u16>,
    cell: int,
    tile_row: int,
    last: Option<LastMoveModel>,
    use_color: bool,
) -> Seq<OpModel> {
    tile_ops(
        cells[cell],
        if tile_row == TILE_LABEL_ROW {
            tile_text(cells[cell])
        } else {
            repeated(' ', TILE_WIDTH as int)
        },
        is_new(last, cell),
        is_merged(last, cell),
        use_color,
    )
}

/// One line of the tiles in a row.
pub open spec fn row_ops(
    cells: Seq<u16>,
    row: int,
    tile_row: int,
    last: Option<LastMoveModel>,
    use_color: bool,
) -> Seq<OpModel> {
    chained(4, |col: int| cell_ops(cells, row * 4 + col, tile_row, last, use_color))
}

/// One line of a row of a board.
pub open spec fn line_ops(
    cells: Seq<u16>,
    row: int,
    tile_row: int,
    last: Option<LastMoveModel>,
    use_color: bool,
) -> Seq<OpModel> {
    row_ops(cells, row, tile_row, last, use_color) + just(NL@)
}

/// One line of a row of two boards side by side.
pub open spec fn double_line_ops(
    human: Seq<u16>,
    bot: Seq<u16>,
    row: int,
    tile_row: int,
    human_last: Option<LastMoveModel>,
    bot_last: Option<LastMoveModel>,
    use_color: bool,
) -> Seq<OpModel> {
    row_ops(human, row, tile_row, human_last, use_color) + just(
        repeated(' ', BOARD_GUTTER as int),
    ) + row_ops(bot, row, tile_row, bot_last, use_color) + just(NL@)
}

fn draw_row(
    out: &mut Vec<DrawOp>,
    board: &Board,
    row: usize,
    tile_row: usize,
    last_move: &Option<LastMoveView>,
    use_color: bool,
)
    requires
        row < 4,
    ensures
        op_models(final(out)@) == op_models(old(out)@) + row_ops(
            board@,
            row as int,
            tile_row as int,
            viewed(*last_move),
            use_color,
        ),
{
    let ghost first = op_models(out@);
    let ghost last = viewed(*last_move);
    let ghost part = |col: int| cell_ops(
        board@,
        row * 4 + col,
        tile_row as int,
        last,
        use_color,
    );
    let mut col: usize = 0;
    assert(first + chained(0, part) =~= first);
    while col < SIZE
        invariant
            row < 4,
            col <= 4,
            last == viewed(*last_move),
            part == (|col: int| cell_ops(board@, row * 4 + col, tile_row as int, last, use_color)),
            op_models(out@) == first + chained(col as int, part),
        decreases 4 - col,
    {
        let rank: u16 = board.get(row, col);
        let idx: usize = row * SIZE + col;
        let bold: bool = match last_move {
            Some(last) => match last.spawn_idx {
                Some(spawn) => spawn == idx,
                None => false,
            },
            None => false,
        };
        let underline: bool = match last_move {
            Some(last) => last.merged_cells[idx],
            None => false,
        };
        let label = if tile_row == TILE_LABEL_ROW {
            tile_label(rank)
        } else {
            repeat_char(' ', TILE_WIDTH)
        };
        let ghost before = op_models(out@);
        draw_tile(out, rank, label.as_str(), bold, underline, use_color);
        proof {
            assert(part(col as int) == cell_ops(
                board@,
                row * 4 + col,
                tile_row as int,
                last,
                use_color,
            ));
            assert(chained(col + 1, part) == chained(col as int, part) + part(col as int));
            assert(op_models(out@) =~= first + chained(col + 1, part));
        }
        col = col + 1;
    }
}

/// Draws one line of a row of a board.
pub fn draw_tile_row(
    out: &mut Vec<DrawOp>,
    board: &Board,
    row: usize,
    tile_row: usize,
    last_move: &Option<LastMoveView>,
    use_color: bool,
)
    requires
        row < 4,
    ensures
        op_models(final(out)@) == op_models(old(out)@) + line_ops(
            board@,
            row as int,
            tile_row as int,
            viewed(*last_move),
            use_color,
        ),
{
    let ghost first = op_models(out@);
    draw_row(out, board, row, tile_row, last_move, use_color);
    push_text(out, String::from_str(NL));
    assert(op_models(out@) =~= first + line_ops(
        board@,
        row as int,
        tile_row as int,
        viewed(*last_move),
        use_color,
    ));
}

/// Draws one line of a row of two boards side by side.
pub fn draw_tile_row_dual(
    out: &mut Vec<DrawOp>,
    human: &Board,
    bot: &Board,
    row: usize,
    tile_row: usize,
    human_last_move: &Option<LastMoveView>,
    bot_last_move: &Option<LastMoveView>,
    use_color: bool,
)
    requires
        row < 4,
    ensures
        op_models(final(out)@) == op_models(old(out)@) + double_line_ops(
            human@,
            bot@,
            row as int,
            tile_row as int,
            viewed(*human_last_move),
            viewed(*bot_last_move),
            use_color,
        ),
{
    let ghost first = op_models(out@);
    draw_row(out, human, row, tile_row, human_last_move, use_color);
    push_text(out, repeat_char(' ', BOARD_GUTTER));
    draw_row(out, bot, row, tile_row, bot_last_move, use_color);
    push_text(out, String::from_str(NL));
    assert(op_models(out@) =~= first + double_line_ops(
        human@,
        bot@,
        row as int,
        tile_row as int,
        viewed(*human_last_move),
        viewed(*bot_last_move),
        use_color,
    ));
}

// ---------------------------------------------------------------------------------------------
// The next tile
// ---------------------------------------------------------------------------------------------

/// The next tile: its face where it is known, else a plus.
pub open spec fn next_ops(next: Preview, use_color: bool) -> Seq<OpModel> {
    match next.only_rank() {
        Some(rank) => tile_ops(
            rank,
            centered(decimal(face_of(rank as int) as nat)),
            false,
            false,
            use_color,
        ),
        None => tile_ops(3, centered("+"@), false, false, use_color),
    }
}

/// The next tiles of two games side by side.
pub open spec fn next_pair_ops(human: Preview, bot: Preview, use_color: bool) -> Seq<OpModel> {
    just("you next "@) + next_ops(human, use_color) + just(repeated(' ', 19)) + just("bot next "@)
        + next_ops(bot, use_color) + just(NL@)
}

/// Draws a next tile.
pub fn draw_next_value(out: &mut Vec<DrawOp>, next: &NextTile, use_color: bool)
    ensures
        op_models(final(out)@) == op_models(old(out)@) + next_ops(next@, use_color),
{
    match next.single_rank() {
        Some(rank) => {
            let label = center_label(to_decimal(rank_to_face(rank)).as_str());
            draw_tile(out, rank, label.as_str(), false, false, use_color);
        },
        None => {
            let label = center_label("+");
            draw_tile(out, 3, label.as_str(), false, false, use_color);
        },
    }
}

/// Draws the next tile of a game.
pub fn draw_next_tile(out: &mut Vec<DrawOp>, next: &NextTile, use_color: bool)
    ensures
        op_models(final(out)@) == op_models(old(out)@) + (just("next "@) + next_ops(
            next@,
            use_color,
        )),
{
    let ghost first = op_models(out@);
    push_text(out, String::from_str("next "));
    draw_next_value(out, next, use_color);
    assert(op_models(out@) =~= first + (just("next "@) + next_ops(next@, use_color)));
}

/// Draws the next tiles of two games side by side.
pub fn draw_next_pair(
    out: &mut Vec<DrawOp>,
    human_next: &NextTile,
    bot_next: &NextTile,
    use_color: bool,
)
    ensures
        op_models(final(out)@) == op_models(old(out)@) + next_pair_ops(
            human_next@,
            bot_next@,
            use_color,
        ),
{
    let ghost first = op_models(out@);
    let prefix: usize = 9;
    let pad_between: usize = (TILE_WIDTH * SIZE).saturating_sub(prefix + TILE_WIDTH) + BOARD_GUTTER;
    push_text(out, String::from_str("you next "));
    draw_next_value(out, human_next, use_color);
    push_text(out, repeat_char(' ', pad_between));
    push_text(out, String::from_str("bot next "));
    draw_next_value(out, bot_next, use_color);
    push_text(out, String::from_str(NL));
    assert(op_models(out@) =~= first + next_pair_ops(human_next@, bot_next@, use_color));
}

// ---------------------------------------------------------------------------------------------
// A game
// ---------------------------------------------------------------------------------------------

/// The first line of the picture of a game.
pub open spec fn title_text(game: GameModel) -> Seq<char> {
    "Threes "@ + padded_left(decimal(total_points(game.board) as nat), 18) + " pts"@ + NL@
}

/// The seed, the moves and the highest tile of a game.
pub open spec fn facts_text(game: GameModel) -> Seq<char> {
    "seed "@ + decimal(game.seed as nat) + "  moves "@ + decimal(game.accepted as nat) + "  high "@
        + decimal(face_of(highest(game.board) as int) as nat)
}

/// The next tile, the last move and the forecast of a game.
pub open spec fn outlook_line(game: GameModel, last: Option<LastMoveModel>) -> Seq<char> {
    "next "@ + game.next.label() + "  "@ + previous_text(last) + "  bonus "@ + forecast_text(
        game.default_forecast(),
    ) + NL@ + NL@
}

/// The picture of a game.
pub open spec fn game_ops(
    game: GameModel,
    last: Option<LastMoveModel>,
    use_color: bool,
    message: Seq<char>,
) -> Seq<OpModel> {
    seq![OpModel::Clear] + just(title_text(game)) + just(facts_text(game) + NL@) + just(
        outlook_line(game, last),
    ) + chained(
        16,
        |i: int|
            line_ops(
                game.board,
                i / TILE_HEIGHT as int,
                i % TILE_HEIGHT as int,
                last,
                use_color,
            ),
    ) + just(NL@) + (just("next "@) + next_ops(game.next, use_color)) + just(NL@ + message + NL@)
}

/// Two texts side by side, each as wide as a board.
pub open spec fn side_by_side(human: Seq<char>, bot: Seq<char>) -> Seq<char> {
    padded_right(human, 32) + padded_right(""@, BOARD_GUTTER as int) + padded_right(bot, 32) + NL@
}

/// The points of a player.
pub open spec fn points_text(name: Seq<char>, game: GameModel) -> Seq<char> {
    name + " "@ + padded_left(decimal(total_points(game.board) as nat), 6) + " pts"@
}

/// The facts of a game, with its next tile.
pub open spec fn facts_with_next(game: GameModel) -> Seq<char> {
    facts_text(game) + "  next "@ + game.next.label()
}

/// The last line below two boards.
pub open spec fn footer_text(message: Seq<char>, bot_status: Option<Seq<char>>) -> Seq<char> {
    match bot_status {
        Some(status) => message + "  |  "@ + status + NL@,
        None => message + NL@,
    }
}

/// The picture of two games side by side.
pub open spec fn double_game_ops(
    human: GameModel,
    bot: GameModel,
    human_last: Option<LastMoveModel>,
    bot_last: Option<LastMoveModel>,
    bot_status: Option<Seq<char>>,
    use_color: bool,
    message: Seq<char>,
) -> Seq<OpModel> {
    seq![OpModel::Clear] + just(
        side_by_side(points_text("you"@, human), points_text("bot"@, bot)),
    ) + just(side_by_side(facts_with_next(human), facts_with_next(bot))) + just(
        side_by_side(previous_text(human_last), previous_text(bot_last)),
    ) + chained(
        16,
        |i: int|
            double_line_ops(
                human.board,
                bot.board,
                i / TILE_HEIGHT as int,
                i % TILE_HEIGHT as int,
                human_last,
                bot_last,
                use_color,
            ),
    ) + just(NL@) + next_pair_ops(human.next, bot.next, use_color) + just(
        footer_text(message, bot_status),
    )
}

fn facts(game: &Game) -> (text: String)
    ensures
        text@ == facts_text(game@),
{
    String::from_str("seed ").concat(to_decimal(game.seed()).as_str()).concat("  moves ").concat(
        to_decimal(game.accepted_moves()).as_str(),
    ).concat("  high ").concat(to_decimal(game.high_tile()).as_str())
}

fn facts_and_next(game: &Game) -> (text: String)
    ensures
        text@ == facts_with_next(game@),
{
    facts(game).concat("  next ").concat(game.next_tile().display_label().as_str())
}

fn points(name: &str, game: &Game) -> (text: String)
    ensures
        text@ == points_text(name@, game@),
{
    String::from_str(name).concat(" ").concat(
        pad_left(to_decimal(game.score()).as_str(), 6).as_str(),
    ).concat(" pts")
}

fn beside(human: &str, bot: &str) -> (text: String)
    ensures
        text@ == side_by_side(human@, bot@),
{
    pad_right(human, TILE_WIDTH * SIZE).concat(pad_right("", BOARD_GUTTER).as_str()).concat(
        pad_right(bot, TILE_WIDTH * SIZE).as_str(),
    ).concat(NL)
}

/// Draws a game.
pub fn draw_game(
    game: &Game,
    last_move: &Option<LastMoveView>,
    use_color: bool,
    message: &str,
) -> (ops: Vec<DrawOp>)
    requires
        game@.tracker.current_offset < 21,
    ensures
        op_models(ops@) == game_ops(game@, viewed(*last_move), use_color, message@),
{
    let ghost last = viewed(*last_move);
    let ghost cells = game@.board;
    proof {
        forecasts_of_games_have_chances(game@.tracker, DEFAULT_BONUS_FORECAST_HORIZON);
    }
    let bonus = bonus_forecast_label(&game.bonus_forecast(DEFAULT_BONUS_FORECAST_HORIZON));
    let mut out: Vec<DrawOp> = Vec::new();
    push_op(&mut out, DrawOp::Clear);
    assert(op_models(out@) =~= seq![OpModel::Clear]);
    push_text(
        &mut out,
        String::from_str("Threes ").concat(
            pad_left(to_decimal(game.score()).as_str(), 18).as_str(),
        ).concat(" pts").concat(NL),
    );
    push_text(&mut out, facts(game).concat(NL));
    push_text(
        &mut out,
        String::from_str("next ").concat(game.next_tile().display_label().as_str()).concat(
            "  ",
        ).concat(previous_label(last_move).as_str()).concat("  bonus ").concat(
            bonus.as_str(),
        ).concat(NL).concat(NL),
    );
    let ghost head = op_models(out@);
    let ghost part = |i: int| line_ops(
        cells,
        i / TILE_HEIGHT as int,
        i % TILE_HEIGHT as int,
        last,
        use_color,
    );
    let board = game.board();
    let mut line: usize = 0;
    assert(head + chained(0, part) =~= head);
    while line < SIZE * TILE_HEIGHT
        invariant
            line <= 16,
            board@ == cells,
            last == viewed(*last_move),
            part == (|i: int| line_ops(
                cells,
                i / TILE_HEIGHT as int,
                i % TILE_HEIGHT as int,
                last,
                use_color,
            )),
            op_models(out@) == head + chained(line as int, part),
        decreases 16 - line,
    {
        draw_tile_row(
            &mut out,
            &board,
            line / TILE_HEIGHT,
            line % TILE_HEIGHT,
            last_move,
            use_color,
        );
        proof {
            assert(part(line as int) == line_ops(
                cells,
                line as int / TILE_HEIGHT as int,
                line as int % TILE_HEIGHT as int,
                last,
                use_color,
            ));
            assert(op_models(out@) =~= head + chained(line + 1, part));
        }
        line = line + 1;
    }
    push_text(&mut out, String::from_str(NL));
    draw_next_tile(&mut out, game.next_tile(), use_color);
    push_text(&mut out, String::from_str(NL).concat(message).concat(NL));
    out
}

/// Draws two games side by side.
pub fn draw_dual_game(
    human_game: &Game,
    bot_game: &Game,
    human_last_move: &Option<LastMoveView>,
    bot_last_move: &Option<LastMoveView>,
    bot_status: &Option<String>,
    use_color: bool,
    message: &str,
) -> (ops: Vec<DrawOp>)
    ensures
        op_models(ops@) == double_game_ops(
            human_game@,
            bot_game@,
            viewed(*human_last_move),
            viewed(*bot_last_move),
            match *bot_status {
                Some(status) => Some(status@),
                None => None,
            },
            use_color,
            message@,
        ),
{
    let ghost human_last = viewed(*human_last_move);
    let ghost bot_last = viewed(*bot_last_move);
    let ghost human_cells = human_game@.board;
    let ghost bot_cells = bot_game@.board;
    let mut out: Vec<DrawOp> = Vec::new();
    push_op(&mut out, DrawOp::Clear);
    assert(op_models(out@) =~= seq![OpModel::Clear]);
    push_text(
        &mut out,
        beside(points("you", human_game).as_str(), points("bot", bot_game).as_str()),
    );
    push_text(
        &mut out,
        beside(facts_and_next(human_game).as_str(), facts_and_next(bot_game).as_str()),
    );
    push_text(
        &mut out,
        beside(
            previous_label(human_last_move).as_str(),
            previous_label(bot_last_move).as_str(),
        ),
    );
    let ghost head = op_models(out@);
    let ghost part = |i: int| double_line_ops(
        human_cells,
        bot_cells,
        i / TILE_HEIGHT as int,
        i % TILE_HEIGHT as int,
        human_last,
        bot_last,
        use_color,
    );
    let human_board = human_game.board();
    let bot_board = bot_game.board();
    let mut line: usize = 0;
    assert(head + chained(0, part) =~= head);
    while line < SIZE * TILE_HEIGHT
        invariant
            line <= 16,
            human_board@ == human_cells,
            bot_board@ == bot_cells,
            human_last == viewed(*human_last_move),
            bot_last == viewed(*bot_last_move),
            part == (|i: int| double_line_ops(
                human_cells,
                bot_cells,
                i / TILE_HEIGHT as int,
                i % TILE_HEIGHT as int,
                human_last,
                bot_last,
                use_color,
            )),
            op_models(out@) == head + chained(line as int, part),
        decreases 16 - line,
    {
        draw_tile_row_dual(
            &mut out,
            &human_board,
            &bot_board,
            line / TILE_HEIGHT,
            line % TILE_HEIGHT,
            human_last_move,
            bot_last_move,
            use_color,
        );
        proof {
            assert(part(line as int) == double_line_ops(
                human_cells,
                bot_cells,
                line as int / TILE_HEIGHT as int,
                line as int % TILE_HEIGHT as int,
                human_last,
                bot_last,
                use_color,
            ));
            assert(op_models(out@) =~= head + chained(line + 1, part));
        }
        line = line + 1;
    }
    push_text(&mut out, String::from_str(NL));
    draw_next_pair(&mut out, human_game.next_tile(), bot_game.next_tile(), use_color);
    let footer = match bot_status {
        Some(status) => String::from_str(message).concat("  |  ").concat(status.as_str()).concat(
            NL,
        ),
        None => String::from_str(message).concat(NL),
    };
    push_text(&mut out, footer);
    out
}

// ---------------------------------------------------------------------------------------------
// Laws
// ---------------------------------------------------------------------------------------------

/// The texts of some things to do, one behind the other.
pub open spec fn shown_text(ops: Seq<OpModel>) -> Seq<char>
    decreases ops.len(),
{
    if ops.len() == 0 {
        Seq::empty()
    } else {
        shown_text(ops.drop_last()) + (match ops.last() {
            OpModel::Text(text) => text,
            _ => Seq::empty(),
        })
    }
}

proof fn lemma_shown_text_behind(before: Seq<OpModel>, after: Seq<OpModel>)
    ensures
        shown_text(before + after) == shown_text(before) + shown_text(after),
    decreases after.len(),
{
    if after.len() == 0 {
        assert(before + after =~= before);
        assert(shown_text(before) + shown_text(after) =~= shown_text(before));
    } else {
        lemma_shown_text_behind(before, after.drop_last());
        assert((before + after).drop_last() =~= before + after.drop_last());
        assert(shown_text(before + after) =~= shown_text(before) + shown_text(after));
    }
}

proof fn lemma_shown_text_alone(text: Seq<char>, op: OpModel)
    requires
        !(op is Text),
    ensures
        shown_text(just(text)) == text,
        shown_text(seq![op]) == Seq::<char>::empty(),
        shown_text(Seq::<OpModel>::empty()) == Seq::<char>::empty(),
{
    assert(just(text).drop_last() =~= Seq::empty());
    assert(seq![op].drop_last() =~= Seq::empty());
    assert(shown_text(Seq::<OpModel>::empty()) =~= Seq::<char>::empty());
    assert(just(text).last() == OpModel::Text(text));
    assert(shown_text(just(text)) =~= text);
    assert(shown_text(seq![op]) =~= Seq::<char>::empty());
}

/// The part of a label between its white ends starts and ends with ink, and all before and behind
/// it is white.
pub proof fn ink_lies_between_white_ends(text: Seq<char>, from: int, end: int)
    requires
        0 <= from <= text.len(),
        0 <= end <= text.len(),
    ensures
        from <= ink_start(text, from) <= text.len(),
        ink_start(text, from) < text.len() ==> !is_white_space(text[ink_start(text, from)]),
        forall|i: int| from <= i < ink_start(text, from) ==> is_white_space(#[trigger] text[i]),
        0 <= ink_end(text, end) <= end,
        ink_end(text, end) > 0 ==> !is_white_space(text[ink_end(text, end) - 1]),
        forall|i: int| ink_end(text, end) <= i < end ==> is_white_space(#[trigger] text[i]),
    decreases text.len() - from, end,
{
    if from < text.len() && is_white_space(text[from]) {
        ink_lies_between_white_ends(text, from + 1, end);
    } else if end > 0 && is_white_space(text[end - 1]) {
        ink_lies_between_white_ends(text, from, end - 1);
    }
}

/// A label is drawn whole, whether it is underlined or not.
pub proof fn a_label_is_drawn_whole(label: Seq<char>, underline: bool)
    ensures
        shown_text(label_ops(label, underline)) == label,
{
    let start = ink_start(label, 0);
    let end = ink_end(label, label.len() as int);
    ink_lies_between_white_ends(label, 0, label.len() as int);
    lemma_shown_text_alone(label, OpModel::Underlined);
    if start < label.len() {
        lemma_ink(label, 0, label.len() as int);
        let front = label.subrange(0, start);
        let ink = label.subrange(start, end);
        let back = label.subrange(end, label.len() as int);
        lemma_shown_text_alone(front, OpModel::Underlined);
        lemma_shown_text_alone(ink, OpModel::NoUnderline);
        lemma_shown_text_alone(back, OpModel::NoUnderline);
        let on = mark(underline, OpModel::Underlined);
        let off = mark(underline, OpModel::NoUnderline);
        let rest = if end < label.len() {
            just(back)
        } else {
            Seq::empty()
        };
        lemma_shown_text_behind(just(front), on);
        lemma_shown_text_behind(just(front) + on, just(ink));
        lemma_shown_text_behind(just(front) + on + just(ink), off);
        lemma_shown_text_behind(just(front) + on + just(ink) + off, rest);
        assert(front + ink + back =~= label);
        assert(shown_text(label_ops(label, underline)) =~= label);
    }
}

/// A row of tiles is drawn cell by cell from left to right. A tile shows its face in one of the
/// four lines that it is high and spaces in the others; it is bold where it came in last and
/// underlined where it was merged last.
pub proof fn a_row_is_drawn_cell_by_cell(
    cells: Seq<u16>,
    row: int,
    tile_row: int,
    last: Option<LastMoveModel>,
    use_color: bool,
)
    ensures
        row_ops(cells, row, tile_row, last, use_color) == cell_ops(
            cells,
            4 * row,
            tile_row,
            last,
            use_color,
        ) + cell_ops(cells, 4 * row + 1, tile_row, last, use_color) + cell_ops(
            cells,
            4 * row + 2,
            tile_row,
            last,
            use_color,
        ) + cell_ops(cells, 4 * row + 3, tile_row, last, use_color),
        forall|cell: int| #[trigger]
            cell_ops(cells, cell, tile_row, last, use_color) == tile_ops(
                cells[cell],
                if tile_row == 1 {
                    tile_text(cells[cell])
                } else {
                    repeated(' ', 8)
                },
                last is Some && last->Some_0.spawn_idx is Some && last->Some_0.spawn_idx->Some_0
                    == cell,
                last is Some && last->Some_0.merged_cells[cell],
                use_color,
            ),
{
    reveal_with_fuel(chained, 5);
    let part = |col: int| cell_ops(cells, row * 4 + col, tile_row, last, use_color);
    assert(row_ops(cells, row, tile_row, last, use_color) =~= part(0) + part(1) + part(2) + part(
        3,
    ));
}

/// The colors and marks of a tile stand before its label and are undone behind it; without colors
/// none are set.
pub proof fn a_tile_is_drawn_with_its_marks(
    rank: u16,
    label: Seq<char>,
    bold: bool,
    underline: bool,
    use_color: bool,
)
    ensures
        ({
            let ops = tile_ops(rank, label, bold, underline, use_color);
            &&& ops.last() == OpModel::ResetColor
            &&& ops[ops.len() - 2] == OpModel::ResetAttributes
            &&& use_color ==> ops[0] == OpModel::Foreground(colors_of(rank).0) && ops[1]
                == OpModel::Background(colors_of(rank).1)
            &&& use_color && bold ==> ops[2] == OpModel::Bold
            &&& !use_color && bold ==> ops[0] == OpModel::Bold
            &&& !use_color && !bold ==> ops[0] is Text
            &&& shown_text(ops) == fitted(label)
        }),
{
    let colors = color_ops(rank, use_color);
    let weight = mark(bold, OpModel::Bold);
    let body = label_ops(fitted(label), underline);
    let end = seq![OpModel::ResetAttributes, OpModel::ResetColor];
    a_label_is_drawn_whole(fitted(label), underline);
    lemma_shown_text_behind(colors, weight);
    lemma_shown_text_behind(colors + weight, body);
    lemma_shown_text_behind(colors + weight + body, end);
    lemma_shown_text_alone(label, OpModel::Bold);
    lemma_shown_text_alone(label, OpModel::ResetAttributes);
    lemma_shown_text_alone(label, OpModel::ResetColor);
    lemma_shown_text_alone(label, OpModel::Foreground(colors_of(rank).0));
    lemma_shown_text_alone(label, OpModel::Background(colors_of(rank).1));
    lemma_shown_text_behind(seq![OpModel::ResetAttributes], seq![OpModel::ResetColor]);
    assert(seq![OpModel::ResetAttributes] + seq![OpModel::ResetColor] =~= end);
    let fore = seq![OpModel::Foreground(colors_of(rank).0)];
    let back = seq![OpModel::Background(colors_of(rank).1)];
    lemma_shown_text_behind(fore, back);
    assert(use_color ==> fore + back =~= colors);
    assert(shown_text(end) =~= Seq::<char>::empty());
    assert(shown_text(colors) =~= Seq::<char>::empty());
    assert(shown_text(weight) =~= Seq::<char>::empty());
    assert(shown_text(tile_ops(rank, label, bold, underline, use_color)) =~= fitted(label));
}

/// The next tile is drawn like a tile where it is known which one it will be, and as a plus where
/// it is not.
pub proof fn a_next_tile_is_drawn_where_it_is_known(next: Preview, use_color: bool)
    ensures
        next.ranks().len() == 1 ==> next_ops(next, use_color) == tile_ops(
            next.ranks()[0],
            centered(decimal(face_of(next.ranks()[0] as int) as nat)),
            false,
            false,
            use_color,
        ),
        next.ranks().len() != 1 ==> next_ops(next, use_color) == tile_ops(
            3,
            centered("+"@),
            false,
            false,
            use_color,
        ),
{
}

/// The picture of a game clears the screen and then shows the points, the seed, the moves and the
/// highest face, the next tile with the last move and the forecast, the board in sixteen lines of
/// which four belong to each row, the next tile and the message.
pub proof fn a_picture_shows_a_game_from_top_to_bottom(
    game: GameModel,
    last: Option<LastMoveModel>,
    use_color: bool,
    message: Seq<char>,
)
    ensures
        ({
            let ops = game_ops(game, last, use_color, message);
            &&& ops[0] == OpModel::Clear
            &&& ops[1] == OpModel::Text(
                "Threes "@ + padded_left(decimal(total_points(game.board) as nat), 18) + " pts"@
                    + NL@,
            )
            &&& ops[2] == OpModel::Text(
                "seed "@ + decimal(game.seed as nat) + "  moves "@ + decimal(game.accepted as nat)
                    + "  high "@ + decimal(face_of(highest(game.board) as int) as nat) + NL@,
            )
            &&& ops[3] == OpModel::Text(
                "next "@ + game.next.label() + "  "@ + previous_text(last) + "  bonus "@
                    + forecast_text(game.default_forecast()) + NL@ + NL@,
            )
            &&& ops.last() == OpModel::Text(NL@ + message + NL@)
        }),
{
}

/// The four lines of a row of a board: in each, the row and the end of the line.
pub open spec fn row_picture(
    cells: Seq<u16>,
    row: int,
    last: Option<LastMoveModel>,
    use_color: bool,
) -> Seq<OpModel> {
    (row_ops(cells, row, 0, last, use_color) + just("\r\n"@)) + (row_ops(
        cells,
        row,
        1,
        last,
        use_color,
    ) + just("\r\n"@)) + (row_ops(cells, row, 2, last, use_color) + just("\r\n"@)) + (row_ops(
        cells,
        row,
        3,
        last,
        use_color,
    ) + just("\r\n"@))
}

spec fn four_parts(from: int, part: spec_fn(int) -> Seq<OpModel>) -> Seq<OpModel> {
    part(from) + part(from + 1) + part(from + 2) + part(from + 3)
}

proof fn lemma_four_parts(count: int, part: spec_fn(int) -> Seq<OpModel>)
    requires
        count >= 0,
    ensures
        chained(count + 4, part) == chained(count, part) + four_parts(count, part),
{
    reveal_with_fuel(chained, 5);
    let before = chained(count, part);
    let (a, b, c, d) = (part(count), part(count + 1), part(count + 2), part(count + 3));
    assert(chained(count + 4, part) == before + a + b + c + d);
    assert(before + a + b + c + d =~= before + (a + b + c + d));
}

proof fn lemma_sixteen_parts(part: spec_fn(int) -> Seq<OpModel>)
    ensures
        chained(16, part) == four_parts(0, part) + four_parts(4, part) + four_parts(8, part)
            + four_parts(12, part),
{
    lemma_four_parts(0, part);
    lemma_four_parts(4, part);
    lemma_four_parts(8, part);
    lemma_four_parts(12, part);
    assert(chained(0, part) + four_parts(0, part) =~= four_parts(0, part));
}

proof fn lemma_behind_four(
    a: OpModel,
    b: OpModel,
    c: OpModel,
    d: OpModel,
    rows: Seq<OpModel>,
    space: Seq<OpModel>,
    next: Seq<OpModel>,
    last: Seq<OpModel>,
)
    ensures
        (seq![a] + seq![b] + seq![c] + seq![d] + rows + space + next + last).skip(4) == rows + space
            + next + last,
{
    assert((seq![a] + seq![b] + seq![c] + seq![d] + rows + space + next + last).skip(4) =~= rows
        + space + next + last);
}

/// The board is drawn row by row, each in four lines, between the lines above it and the next tile
/// and the message below it.
pub proof fn a_board_is_drawn_row_by_row(
    game: GameModel,
    last: Option<LastMoveModel>,
    use_color: bool,
    message: Seq<char>,
)
    ensures
        game_ops(game, last, use_color, message).skip(4) == row_picture(
            game.board,
            0,
            last,
            use_color,
        ) + row_picture(game.board, 1, last, use_color) + row_picture(
            game.board,
            2,
            last,
            use_color,
        ) + row_picture(game.board, 3, last, use_color) + just("\r\n"@) + just("next "@)
            + next_ops(game.next, use_color) + just("\r\n"@ + message + "\r\n"@),
{
    let part = |i: int|
        line_ops(game.board, i / TILE_HEIGHT as int, i % TILE_HEIGHT as int, last, use_color);
    lemma_sixteen_parts(part);
    lemma_behind_four(
        OpModel::Clear,
        OpModel::Text(title_text(game)),
        OpModel::Text(facts_text(game) + NL@),
        OpModel::Text(outlook_line(game, last)),
        chained(16, part),
        just(NL@),
        just("next "@) + next_ops(game.next, use_color),
        just(NL@ + message + NL@),
    );
    assert(four_parts(0, part) == row_picture(game.board, 0, last, use_color));
    assert(four_parts(4, part) == row_picture(game.board, 1, last, use_color));
    assert(four_parts(8, part) == row_picture(game.board, 2, last, use_color));
    assert(four_parts(12, part) == row_picture(game.board, 3, last, use_color));
    let rows = chained(16, part) + just(NL@);
    let next = next_ops(game.next, use_color);
    assert(rows + (just("next "@) + next) =~= rows + just("next "@) + next);
}

/// Every line of a board is 32 characters wide.
pub proof fn every_line_of_a_board_is_equally_wide(
    cells: Seq<u16>,
    row: int,
    tile_row: int,
    last: Option<LastMoveModel>,
    use_color: bool,
)
    ensures
        shown_text(row_ops(cells, row, tile_row, last, use_color)).len() == 32,
{
    let first = cell_ops(cells, 4 * row, tile_row, last, use_color);
    let second = cell_ops(cells, 4 * row + 1, tile_row, last, use_color);
    let third = cell_ops(cells, 4 * row + 2, tile_row, last, use_color);
    let fourth = cell_ops(cells, 4 * row + 3, tile_row, last, use_color);
    a_row_is_drawn_cell_by_cell(cells, row, tile_row, last, use_color);
    lemma_shown_text_behind(first, second);
    lemma_shown_text_behind(first + second, third);
    lemma_shown_text_behind(first + second + third, fourth);
    assert forall|cell: int| shown_text(
        #[trigger] cell_ops(cells, cell, tile_row, last, use_color),
    ).len() == 8 by {
        let label = if tile_row == 1 {
            tile_text(cells[cell])
        } else {
            repeated(' ', 8)
        };
        a_tile_is_drawn_with_its_marks(
            cells[cell],
            label,
            is_new(last, cell),
            is_merged(last, cell),
            use_color,
        );
    }
}

/// Of two boards side by side, the one of the human is on the left; what belongs to the bot starts
/// in the same column in every line, four spaces behind the board of the human.
pub proof fn two_boards_stand_side_by_side(
    human: Seq<u16>,
    bot: Seq<u16>,
    row: int,
    tile_row: int,
    human_last: Option<LastMoveModel>,
    bot_last: Option<LastMoveModel>,
    use_color: bool,
)
    ensures
        ({
            let text = shown_text(
                double_line_ops(human, bot, row, tile_row, human_last, bot_last, use_color),
            );
            let left = shown_text(row_ops(human, row, tile_row, human_last, use_color));
            let right = shown_text(row_ops(bot, row, tile_row, bot_last, use_color));
            &&& left.len() == 32 && right.len() == 32
            &&& text == left + seq![' ', ' ', ' ', ' '] + right + "\r\n"@
        }),
{
    let left = row_ops(human, row, tile_row, human_last, use_color);
    let right = row_ops(bot, row, tile_row, bot_last, use_color);
    let gap = repeated(' ', 4);
    every_line_of_a_board_is_equally_wide(human, row, tile_row, human_last, use_color);
    every_line_of_a_board_is_equally_wide(bot, row, tile_row, bot_last, use_color);
    lemma_shown_text_alone(gap, OpModel::Clear);
    lemma_shown_text_alone(NL@, OpModel::Clear);
    lemma_shown_text_behind(left, just(gap));
    lemma_shown_text_behind(left + just(gap), right);
    lemma_shown_text_behind(left + just(gap) + right, just(NL@));
    assert(gap =~= seq![' ', ' ', ' ', ' ']);
}

/// Above and below two boards too, what belongs to the bot starts four characters behind the board
/// of the human, as long as what belongs to the human is not wider than its board.
pub proof fn texts_of_the_bot_stand_above_its_board(
    human: Seq<char>,
    bot: Seq<char>,
    human_next: Preview,
    bot_next: Preview,
    use_color: bool,
)
    requires
        human.len() <= 32,
        bot.len() <= 32,
    ensures
        side_by_side(human, bot).len() == 70,
        side_by_side(human, bot).subrange(0, human.len() as int) == human,
        side_by_side(human, bot).subrange(36, 36 + bot.len() as int) == bot,
        shown_text(next_pair_ops(human_next, bot_next, use_color)).len() == 55,
        shown_text(next_pair_ops(human_next, bot_next, use_color)).subrange(0, 9) == "you next "@,
        shown_text(next_pair_ops(human_next, bot_next, use_color)).subrange(36, 45)
            == "bot next "@,
{
    reveal_strlit("");
    reveal_strlit("\r\n");
    reveal_strlit("you next ");
    reveal_strlit("bot next ");
    assert(side_by_side(human, bot).subrange(0, human.len() as int) =~= human);
    assert(side_by_side(human, bot).subrange(36, 36 + bot.len() as int) =~= bot);
    let first = next_ops(human_next, use_color);
    let second = next_ops(bot_next, use_color);
    let gap = repeated(' ', 19);
    lemma_shown_text_of_next(human_next, use_color);
    lemma_shown_text_of_next(bot_next, use_color);
    lemma_shown_text_alone("you next "@, OpModel::Clear);
    lemma_shown_text_alone(gap, OpModel::Clear);
    lemma_shown_text_alone("bot next "@, OpModel::Clear);
    lemma_shown_text_alone(NL@, OpModel::Clear);
    let one = just("you next "@);
    let two = one + first;
    let three = two + just(gap);
    let four = three + just("bot next "@);
    let five = four + second;
    lemma_shown_text_behind(one, first);
    lemma_shown_text_behind(two, just(gap));
    lemma_shown_text_behind(three, just("bot next "@));
    lemma_shown_text_behind(four, second);
    lemma_shown_text_behind(five, just(NL@));
    let text = shown_text(next_pair_ops(human_next, bot_next, use_color));
    assert(text == shown_text(five) + NL@);
    assert(text.subrange(0, 9) =~= "you next "@);
    assert(text.subrange(36, 45) =~= "bot next "@);
}

proof fn lemma_shown_text_of_next(next: Preview, use_color: bool)
    ensures
        shown_text(next_ops(next, use_color)).len() == 8,
{
    match next.only_rank() {
        Some(rank) => {
            a_tile_is_drawn_with_its_marks(
                rank,
                centered(decimal(face_of(rank as int) as nat)),
                false,
                false,
                use_color,
            );
        },
        None => {
            a_tile_is_drawn_with_its_marks(3, centered("+"@), false, false, use_color);
        },
    }
}

/// The picture of two games clears the screen and then shows the points, the facts and the last
/// moves of both, and in its last line the message and what the bot has to say.
pub proof fn a_picture_of_two_games_shows_both(
    human: GameModel,
    bot: GameModel,
    human_last: Option<LastMoveModel>,
    bot_last: Option<LastMoveModel>,
    bot_status: Option<Seq<char>>,
    use_color: bool,
    message: Seq<char>,
)
    ensures
        ({
            let ops = double_game_ops(
                human,
                bot,
                human_last,
                bot_last,
                bot_status,
                use_color,
                message,
            );
            &&& ops[0] == OpModel::Clear
            &&& ops[1] == OpModel::Text(
                side_by_side(
                    "you"@ + " "@ + padded_left(decimal(total_points(human.board) as nat), 6)
                        + " pts"@,
                    "bot"@ + " "@ + padded_left(decimal(total_points(bot.board) as nat), 6)
                        + " pts"@,
                ),
            )
            &&& ops[2] == OpModel::Text(
                side_by_side(
                    facts_text(human) + "  next "@ + human.next.label(),
                    facts_text(bot) + "  next "@ + bot.next.label(),
                ),
            )
            &&& ops[3] == OpModel::Text(
                side_by_side(previous_text(human_last), previous_text(bot_last)),
            )
            &&& bot_status is None ==> ops.last() == OpModel::Text(message + "\r\n"@)
            &&& bot_status is Some ==> ops.last() == OpModel::Text(
                message + "  |  "@ + bot_status->Some_0 + "\r\n"@,
            )
        }),
{
}

/// Two boards are drawn row by row, each row in four lines, above the next tiles.
pub proof fn two_boards_are_drawn_row_by_row(
    human: GameModel,
    bot: GameModel,
    human_last: Option<LastMoveModel>,
    bot_last: Option<LastMoveModel>,
    bot_status: Option<Seq<char>>,
    use_color: bool,
    message: Seq<char>,
)
    ensures
        ({
            let line = |row: int, tile_row: int|
                double_line_ops(
                    human.board,
                    bot.board,
                    row,
                    tile_row,
                    human_last,
                    bot_last,
                    use_color,
                );
            double_game_ops(
                human,
                bot,
                human_last,
                bot_last,
                bot_status,
                use_color,
                message,
            ).skip(4) == (line(0, 0) + line(0, 1) + line(0, 2) + line(0, 3)) + (line(1, 0) + line(
                1,
                1,
            ) + line(1, 2) + line(1, 3)) + (line(2, 0) + line(2, 1) + line(2, 2) + line(2, 3)) + (
            line(3, 0) + line(3, 1) + line(3, 2) + line(3, 3)) + just("\r\n"@) + next_pair_ops(
                human.next,
                bot.next,
                use_color,
            ) + just(footer_text(message, bot_status))
        }),
{
    let line = |row: int, tile_row: int|
        double_line_ops(human.board, bot.board, row, tile_row, human_last, bot_last, use_color);
    let part = |i: int|
        double_line_ops(
            human.board,
            bot.board,
            i / TILE_HEIGHT as int,
            i % TILE_HEIGHT as int,
            human_last,
            bot_last,
            use_color,
        );
    lemma_sixteen_parts(part);
    lemma_behind_four(
        OpModel::Clear,
        OpModel::Text(side_by_side(points_text("you"@, human), points_text("bot"@, bot))),
        OpModel::Text(side_by_side(facts_with_next(human), facts_with_next(bot))),
        OpModel::Text(side_by_side(previous_text(human_last), previous_text(bot_last))),
        chained(16, part),
        just(NL@),
        next_pair_ops(human.next, bot.next, use_color),
        just(footer_text(message, bot_status)),
    );
    assert(four_parts(0, part) == line(0, 0) + line(0, 1) + line(0, 2) + line(0, 3));
    assert(four_parts(4, part) == line(1, 0) + line(1, 1) + line(1, 2) + line(1, 3));
    assert(four_parts(8, part) == line(2, 0) + line(2, 1) + line(2, 2) + line(2, 3));
    assert(four_parts(12, part) == line(3, 0) + line(3, 1) + line(3, 2) + line(3, 3));
}

} // verus!

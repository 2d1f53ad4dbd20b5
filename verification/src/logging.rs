//! The text of the game log.

use crate::forecast::{BonusForecast, BonusForecastSlot, BonusTracker, ForecastModel};
use crate::game::{GameSnapshot, MoveModel, MoveResult, SnapshotModel, SpawnEvent, SpawnModel};
use crate::probability::Probability;
use crate::text::{
    a_decimal_number_is_read_back, bool_str, bool_word, decimal, digit_char, number_read,
    option_text, pad_left, padded_left, show_option, to_decimal,
};
use crate::tile::{NextTile, SpawnSource};
use vstd::prelude::*;

verus! {

/// The version of the machine-readable log.
pub const SCHEMA_VERSION: u8 = 1;

/// The settings of a searching bot, as they are logged.
#[derive(Debug)]
pub struct AbConfigLog {
    pub depth: u8,
    pub alpha: String,
    pub beta: String,
    pub dfs: bool,
    pub time_limit_ms: Option<u64>,
    pub node_limit: Option<u64>,
}

/// The settings of a run, as they are logged.
#[derive(Debug)]
pub struct RunConfigLog {
    pub mode: String,
    pub seed_source: String,
    pub speed_hz: String,
    pub color: String,
    pub ab: Option<AbConfigLog>,
}

impl Clone for AbConfigLog {
    fn clone(&self) -> (copy: Self)
        ensures
            ab_text(copy) == ab_text(*self),
    {
        AbConfigLog {
            depth: self.depth,
            alpha: self.alpha.clone(),
            beta: self.beta.clone(),
            dfs: self.dfs,
            time_limit_ms: self.time_limit_ms,
            node_limit: self.node_limit,
        }
    }
}

impl Clone for RunConfigLog {
    fn clone(&self) -> (copy: Self)
        ensures
            config_text(copy) == config_text(*self),
    {
        RunConfigLog {
            mode: self.mode.clone(),
            seed_source: self.seed_source.clone(),
            speed_hz: self.speed_hz.clone(),
            color: self.color.clone(),
            ab: match &self.ab {
                Some(ab) => Some(ab.clone()),
                None => None,
            },
        }
    }
}

// ---------------------------------------------------------------------------------------------
// Parts
// ---------------------------------------------------------------------------------------------

/// A face as it stands in the log: a dot for a free cell.
pub open spec fn cell_text(face: u64) -> Seq<char> {
    if face == 0 {
        "."@
    } else {
        decimal(face as nat)
    }
}

/// A row of faces, each six characters wide.
pub open spec fn row_text(board: Seq<u64>, row: int) -> Seq<char> {
    padded_left(cell_text(board[row * 4]), 6) + " "@ + padded_left(cell_text(board[row * 4 + 1]), 6)
        + " "@ + padded_left(cell_text(board[row * 4 + 2]), 6) + " "@ + padded_left(
        cell_text(board[row * 4 + 3]),
        6,
    ) + "\n"@
}

/// The first few rows of a board.
pub open spec fn rows_text(board: Seq<u64>, rows: int) -> Seq<char>
    decreases rows,
{
    if rows <= 0 {
        Seq::empty()
    } else {
        rows_text(board, rows - 1) + row_text(board, rows - 1)
    }
}

/// The quotient of two numbers, rounded to the nearest whole number, and to the even one of two
/// that are equally near.
pub open spec fn rounded(n: int, d: int) -> int {
    let down = n / d;
    let rest = n % d;
    if 2 * rest < d || (2 * rest == d && down % 2 == 0) {
        down
    } else {
        down + 1
    }
}

/// A probability in percent, with one decimal place.
pub open spec fn percent_text(probability: Probability) -> Seq<char> {
    let tenths = rounded(1000 * probability.numerator, probability.denominator as int);
    decimal((tenths / 10) as nat) + "."@ + seq![digit_char(tenths % 10)] + "%"@
}

/// The first slot from some place on in which a bonus tile is possible.
pub open spec fn first_chance(slots: Seq<BonusForecastSlot>, from: int) -> Option<BonusForecastSlot>
    decreases slots.len() - from,
{
    if from >= slots.len() {
        None
    } else if slots[from].probability.numerator > 0 {
        Some(slots[from])
    } else {
        first_chance(slots, from + 1)
    }
}

/// A forecast in short: when a bonus tile is first possible, and how likely it is there.
pub open spec fn forecast_text(forecast: ForecastModel) -> Seq<char> {
    if !forecast.unlocked {
        "locked"@
    } else {
        match first_chance(forecast.slots, 0) {
            None => "none"@,
            Some(slot) => "+"@ + decimal(slot.accepted_moves_from_now as nat) + " "@
                + percent_text(slot.probability),
        }
    }
}

/// Whether the chances of a forecast are fractions between 0 and 1.
pub open spec fn has_chances(forecast: ForecastModel) -> bool {
    forall|i: int|
        0 <= i < forecast.slots.len() ==> 0 < (#[trigger] forecast.slots[i]).probability.denominator
            && forecast.slots[i].probability.numerator
            <= forecast.slots[i].probability.denominator
}

/// A face as it stands in the log.
pub fn display_cell(value: u64) -> (text: String)
    ensures
        text@ == cell_text(value),
{
    if value == 0 {
        String::from_str(".")
    } else {
        to_decimal(value)
    }
}

/// The rows of a board.
pub fn board_text(board: &[u64; 16]) -> (text: String)
    ensures
        text@ == rows_text(board@, 4),
{
    let mut text = String::new();
    let mut row: usize = 0;
    assert(text@ =~= Seq::empty());
    while row < 4
        invariant
            row <= 4,
            text@ == rows_text(board@, row as int),
        decreases 4 - row,
    {
        let line = pad_left(display_cell(board[row * 4]).as_str(), 6).concat(" ").concat(
            pad_left(display_cell(board[row * 4 + 1]).as_str(), 6).as_str(),
        ).concat(" ").concat(
            pad_left(display_cell(board[row * 4 + 2]).as_str(), 6).as_str(),
        ).concat(" ").concat(
            pad_left(display_cell(board[row * 4 + 3]).as_str(), 6).as_str(),
        ).concat("\n");
        text.append(line.as_str());
        row = row + 1;
    }
    text
}

fn percent(probability: Probability) -> (text: String)
    requires
        0 < probability.denominator,
        probability.numerator <= probability.denominator,
    ensures
        text@ == percent_text(probability),
{
    let n: u128 = 1000 * probability.numerator as u128;
    let d: u128 = probability.denominator as u128;
    proof {
        assert(n / d <= 1000 && n % d < d && d * (n / d) + n % d == n) by (nonlinear_arith)
            requires
                n <= 1000 * d,
                d > 0,
        ;
        assert(n / d == 1000 ==> n % d == 0) by (nonlinear_arith)
            requires
                n <= 1000 * d,
                d > 0,
                d * (n / d) + n % d == n,
        ;
    }
    let down: u128 = n / d;
    let rest: u128 = n % d;
    let tenths: u128 = if 2 * rest < d || (2 * rest == d && down % 2 == 0) {
        down
    } else {
        down + 1
    };
    let whole: u64 = (tenths / 10) as u64;
    let part: u64 = (tenths % 10) as u64;
    let text = to_decimal(whole).concat(".").concat(to_decimal(part).as_str()).concat("%");
    assert(decimal(part as nat) =~= seq![digit_char(tenths as int % 10)]);
    text
}

/// A forecast in short.
pub fn display_bonus_forecast(forecast: &BonusForecast) -> (text: String)
    requires
        has_chances(forecast@),
    ensures
        text@ == forecast_text(forecast@),
{
    if !forecast.unlocked {
        return String::from_str("locked");
    }
    let mut i: usize = 0;
    while i < forecast.slots.len()
        invariant
            i <= forecast.slots@.len(),
            forecast.unlocked,
            has_chances(forecast@),
            first_chance(forecast.slots@, 0) == first_chance(forecast.slots@, i as int),
        decreases forecast.slots@.len() - i,
    {
        let slot = forecast.slots[i];
        assert(forecast@.slots[i as int] == slot);
        if slot.probability.is_positive() {
            return String::from_str("+").concat(
                to_decimal(slot.accepted_moves_from_now as u64).as_str(),
            ).concat(" ").concat(percent(slot.probability).as_str());
        }
        i = i + 1;
    }
    String::from_str("none")
}

/// The forecasts of a game have chances between 0 and 1.
pub proof fn forecasts_of_games_have_chances(tracker: BonusTracker, horizon: u8)
    requires
        tracker.current_offset < 21,
    ensures
        has_chances(tracker.forecasted(horizon)),
{
    let forecast = tracker.forecasted(horizon);
    assert forall|i: int| 0 <= i < forecast.slots.len() implies 0
        < (#[trigger] forecast.slots[i]).probability.denominator
        && forecast.slots[i].probability.numerator
        <= forecast.slots[i].probability.denominator by {
        assert(forecast.slots[i].probability == tracker.chance(i as u8));
    }
}

// ---------------------------------------------------------------------------------------------
// Events
// ---------------------------------------------------------------------------------------------

/// What follows the head of an entry: the next tile, the forecast, the board and an empty line.
pub open spec fn outlook_text(
    next: Seq<char>,
    forecast: ForecastModel,
    board: Seq<u64>,
) -> Seq<char> {
    "next="@ + next + "\nbonus_forecast="@ + forecast_text(forecast) + "\n"@ + rows_text(board, 4)
        + "\n"@
}

/// The settings of a searching bot, in two lines.
pub open spec fn ab_text(ab: AbConfigLog) -> Seq<char> {
    "ab depth="@ + decimal(ab.depth as nat) + " alpha="@ + ab.alpha@ + " beta="@ + ab.beta@
        + " time_limit_ms="@ + option_text(ab.time_limit_ms) + " node_limit="@ + option_text(
        ab.node_limit,
    ) + "\nab dfs="@ + bool_word(ab.dfs) + "\n"@
}

/// The settings of a run.
pub open spec fn config_text(config: RunConfigLog) -> Seq<char> {
    "mode="@ + config.mode@ + " seed_source="@ + config.seed_source@ + " speed_hz="@
        + config.speed_hz@ + " color="@ + config.color@ + "\n"@ + (match config.ab {
        Some(ab) => ab_text(ab),
        None => Seq::empty(),
    })
}

/// The entry for the start of a game.
pub open spec fn start_entry(snapshot: SnapshotModel, config: RunConfigLog) -> Seq<char> {
    "START seed="@ + decimal(snapshot.seed as nat) + " score="@ + decimal(snapshot.score as nat)
        + "\n"@ + config_text(config) + outlook_text(
        snapshot.next_tile.label(),
        snapshot.bonus_forecast,
        snapshot.board,
    )
}

/// The name of where a tile came from.
pub open spec fn source_name(source: SpawnSource) -> Seq<char> {
    match source {
        SpawnSource::Basic => "Basic"@,
        SpawnSource::Bonus => "Bonus"@,
    }
}

/// The line for a tile that came in.
pub open spec fn spawn_text(spawn: SpawnModel) -> Seq<char> {
    "spawn row="@ + decimal(spawn.row as nat) + " col="@ + decimal(spawn.col as nat) + " value="@
        + decimal(spawn.face as nat) + " source="@ + source_name(spawn.source) + " preview="@
        + spawn.preview.label() + "\n"@
}

/// The entry for a move.
pub open spec fn turn_entry(result: MoveModel) -> Seq<char> {
    "TURN move="@ + result.direction.spec_name() + " accepted="@ + bool_word(result.accepted)
        + " score="@ + decimal(result.score as nat) + " high="@ + decimal(result.high_tile as nat)
        + "\n"@ + (match result.spawn {
        Some(spawn) => spawn_text(spawn),
        None => Seq::empty(),
    }) + outlook_text(result.next_tile.label(), result.bonus_forecast, result.board_after_spawn)
}

/// The entry for the end of a game.
pub open spec fn end_entry(reason: Seq<char>, snapshot: SnapshotModel) -> Seq<char> {
    "END reason="@ + reason + " seed="@ + decimal(snapshot.seed as nat) + " score="@ + decimal(
        snapshot.score as nat,
    ) + " high="@ + decimal(snapshot.high_tile as nat) + " accepted_moves="@ + decimal(
        snapshot.accepted_moves as nat,
    ) + " attempted_moves="@ + decimal(snapshot.attempted_moves as nat) + "\n"@ + rows_text(
        snapshot.board,
        4,
    ) + "\n"@
}

fn outlook(next: &NextTile, forecast: &BonusForecast, board: &[u64; 16]) -> (text: String)
    requires
        has_chances(forecast@),
    ensures
        text@ == outlook_text(next@.label(), forecast@, board@),
{
    String::from_str("next=").concat(next.display_label().as_str()).concat(
        "\nbonus_forecast=",
    ).concat(display_bonus_forecast(forecast).as_str()).concat("\n").concat(
        board_text(board).as_str(),
    ).concat("\n")
}

fn ab_settings(ab: &AbConfigLog) -> (text: String)
    ensures
        text@ == ab_text(*ab),
{
    String::from_str("ab depth=").concat(to_decimal(ab.depth as u64).as_str()).concat(
        " alpha=",
    ).concat(ab.alpha.as_str()).concat(" beta=").concat(ab.beta.as_str()).concat(
        " time_limit_ms=",
    ).concat(show_option(ab.time_limit_ms).as_str()).concat(" node_limit=").concat(
        show_option(ab.node_limit).as_str(),
    ).concat("\nab dfs=").concat(bool_str(ab.dfs)).concat("\n")
}

fn run_settings(config: &RunConfigLog) -> (text: String)
    ensures
        text@ == config_text(*config),
{
    let ab = match &config.ab {
        Some(ab) => ab_settings(ab),
        None => String::new(),
    };
    assert(ab@ =~= (match config.ab {
        Some(ab) => ab_text(ab),
        None => Seq::empty(),
    }));
    String::from_str("mode=").concat(config.mode.as_str()).concat(" seed_source=").concat(
        config.seed_source.as_str(),
    ).concat(" speed_hz=").concat(config.speed_hz.as_str()).concat(" color=").concat(
        config.color.as_str(),
    ).concat("\n").concat(ab.as_str())
}

fn source_str(source: SpawnSource) -> (name: &'static str)
    ensures
        name@ == source_name(source),
{
    match source {
        SpawnSource::Basic => "Basic",
        SpawnSource::Bonus => "Bonus",
    }
}

fn spawn_line(spawn: &SpawnEvent) -> (text: String)
    ensures
        text@ == spawn_text(spawn@),
{
    String::from_str("spawn row=").concat(to_decimal(spawn.row as u64).as_str()).concat(
        " col=",
    ).concat(to_decimal(spawn.col as u64).as_str()).concat(" value=").concat(
        to_decimal(spawn.face).as_str(),
    ).concat(" source=").concat(source_str(spawn.source)).concat(" preview=").concat(
        spawn.preview.display_label().as_str(),
    ).concat("\n")
}

/// The log entry for the start of a game.
pub fn start_text(snapshot: &GameSnapshot, config: &RunConfigLog) -> (text: String)
    requires
        has_chances(snapshot@.bonus_forecast),
    ensures
        text@ == start_entry(snapshot@, *config),
{
    String::from_str("START seed=").concat(to_decimal(snapshot.seed).as_str()).concat(
        " score=",
    ).concat(to_decimal(snapshot.score).as_str()).concat("\n").concat(
        run_settings(config).as_str(),
    ).concat(
        outlook(&snapshot.next_tile, &snapshot.bonus_forecast, &snapshot.board).as_str(),
    )
}

/// The log entry for a move.
pub fn turn_text(result: &MoveResult) -> (text: String)
    requires
        has_chances(result@.bonus_forecast),
    ensures
        text@ == turn_entry(result@),
{
    let spawn = match &result.spawn {
        Some(spawn) => spawn_line(spawn),
        None => String::new(),
    };
    assert(spawn@ =~= (match result@.spawn {
        Some(spawn) => spawn_text(spawn),
        None => Seq::empty(),
    }));
    String::from_str("TURN move=").concat(result.direction.as_str()).concat(" accepted=").concat(
        bool_str(result.accepted),
    ).concat(" score=").concat(to_decimal(result.score).as_str()).concat(" high=").concat(
        to_decimal(result.high_tile).as_str(),
    ).concat("\n").concat(spawn.as_str()).concat(
        outlook(&result.next_tile, &result.bonus_forecast, &result.board_after_spawn).as_str(),
    )
}

/// The log entry for the end of a game.
pub fn end_text(reason: &str, snapshot: &GameSnapshot) -> (text: String)
    ensures
        text@ == end_entry(reason@, snapshot@),
{
    String::from_str("END reason=").concat(reason).concat(" seed=").concat(
        to_decimal(snapshot.seed).as_str(),
    ).concat(" score=").concat(to_decimal(snapshot.score).as_str()).concat(" high=").concat(
        to_decimal(snapshot.high_tile).as_str(),
    ).concat(" accepted_moves=").concat(to_decimal(snapshot.accepted_moves).as_str()).concat(
        " attempted_moves=",
    ).concat(to_decimal(snapshot.attempted_moves).as_str()).concat("\n").concat(
        board_text(&snapshot.board).as_str(),
    ).concat("\n")
}

// ---------------------------------------------------------------------------------------------
// Laws
// ---------------------------------------------------------------------------------------------

/// A rounded quotient is as near as any whole number can be, and the even one of two that are
/// equally near.
pub proof fn a_rounded_quotient_is_the_nearest(n: int, d: int)
    requires
        d > 0,
    ensures
        ({
            let q = rounded(n, d);
            &&& -d <= 2 * (n - q * d) <= d
            &&& 2 * (n - q * d) == d || 2 * (n - q * d) == -d ==> q % 2 == 0
        }),
{
    let down = n / d;
    let rest = n % d;
    assert(n == down * d + rest && 0 <= rest < d) by (nonlinear_arith)
        requires
            d > 0,
            down == n / d,
            rest == n % d,
    ;
    assert((down + 1) * d == down * d + d) by (nonlinear_arith);
}

/// A forecast in short tells of the first move at which a bonus tile is possible: none before it
/// has a chance.
pub proof fn the_first_chance_is_the_first(slots: Seq<BonusForecastSlot>, from: int)
    requires
        0 <= from <= slots.len(),
    ensures
        first_chance(slots, from) is None <==> forall|i: int|
            from <= i < slots.len() ==> (#[trigger] slots[i]).probability.numerator == 0,
        first_chance(slots, from) is Some ==> exists|i: int|
            from <= i < slots.len() && first_chance(slots, from) == Some(#[trigger] slots[i])
                && slots[i].probability.numerator > 0 && forall|j: int|
                from <= j < i ==> (#[trigger] slots[j]).probability.numerator == 0,
    decreases slots.len() - from,
{
    if from < slots.len() {
        if slots[from].probability.numerator > 0 {
            assert(first_chance(slots, from) == Some(slots[from]));
        } else {
            the_first_chance_is_the_first(slots, from + 1);
            if first_chance(slots, from + 1) is Some {
                let i = choose|i: int|
                    from + 1 <= i < slots.len() && first_chance(slots, from + 1) == Some(
                        #[trigger] slots[i],
                    ) && slots[i].probability.numerator > 0 && forall|j: int|
                        from + 1 <= j < i ==> (#[trigger] slots[j]).probability.numerator == 0;
                assert(first_chance(slots, from) == Some(slots[i]));
            }
        }
    }
}

/// What a forecast says in short.
pub proof fn a_forecast_in_short(forecast: ForecastModel)
    ensures
        !forecast.unlocked ==> forecast_text(forecast) == "locked"@,
        forecast.unlocked && first_chance(forecast.slots, 0) is None ==> forecast_text(forecast)
            == "none"@,
        forecast.unlocked ==> forall|slot: BonusForecastSlot| #[trigger]
            first_chance(forecast.slots, 0) == Some(slot) ==> forecast_text(forecast) == "+"@
                + decimal(slot.accepted_moves_from_now as nat) + " "@ + percent_text(
                slot.probability,
            ),
{
}

/// A board in the log has its four rows one below the other, and each row its four faces from left
/// to right, in six characters each with a space between them; a free cell is a dot.
pub proof fn a_logged_board_has_its_rows_and_columns(board: Seq<u64>, row: int)
    requires
        board.len() == 16,
        0 <= row < 4,
    ensures
        rows_text(board, 4) == row_text(board, 0) + row_text(board, 1) + row_text(board, 2)
            + row_text(board, 3),
        row_text(board, row) == padded_left(cell_text(board[4 * row]), 6) + " "@ + padded_left(
            cell_text(board[4 * row + 1]),
            6,
        ) + " "@ + padded_left(cell_text(board[4 * row + 2]), 6) + " "@ + padded_left(
            cell_text(board[4 * row + 3]),
            6,
        ) + "\n"@,
        cell_text(0) == "."@,
        board[row] > 0 ==> cell_text(board[row]) == decimal(board[row] as nat),
{
    reveal_with_fuel(rows_text, 5);
    assert(rows_text(board, 4) =~= row_text(board, 0) + row_text(board, 1) + row_text(board, 2)
        + row_text(board, 3));
}

/// The entry for the end of a game names the reason, the seed, the score, the highest face, the
/// moves that were accepted and those that were tried, and shows the board.
pub proof fn an_end_entry_tells_how_a_game_ended(reason: Seq<char>, snapshot: SnapshotModel)
    ensures
        end_entry(reason, snapshot) == "END reason="@ + reason + " seed="@ + decimal(
            snapshot.seed as nat,
        ) + " score="@ + decimal(snapshot.score as nat) + " high="@ + decimal(
            snapshot.high_tile as nat,
        ) + " accepted_moves="@ + decimal(snapshot.accepted_moves as nat) + " attempted_moves="@
            + decimal(snapshot.attempted_moves as nat) + "\n"@ + rows_text(snapshot.board, 4)
            + "\n"@,
{
}

/// The entry for a move names the direction, whether it was accepted, the score and the highest
/// face after it; where a tile came in, its row, its column, its face, where it came from and what
/// had been shown of it; then the next tile, the forecast and the board after the move.
pub proof fn a_turn_entry_tells_what_a_move_did(result: MoveModel)
    ensures
        ({
            let head = "TURN move="@ + result.direction.spec_name() + " accepted="@ + bool_word(
                result.accepted,
            ) + " score="@ + decimal(result.score as nat) + " high="@ + decimal(
                result.high_tile as nat,
            ) + "\n"@;
            let tail = "next="@ + result.next_tile.label() + "\nbonus_forecast="@ + forecast_text(
                result.bonus_forecast,
            ) + "\n"@ + rows_text(result.board_after_spawn, 4) + "\n"@;
            &&& result.spawn is None ==> turn_entry(result) == head + tail
            &&& result.spawn matches Some(spawn) ==> turn_entry(result) == head + (
            "spawn row="@ + decimal(spawn.row as nat) + " col="@ + decimal(spawn.col as nat)
                + " value="@ + decimal(spawn.face as nat) + " source="@ + source_name(spawn.source)
                + " preview="@ + spawn.preview.label() + "\n"@) + tail
        }),
{
    let head = "TURN move="@ + result.direction.spec_name() + " accepted="@ + bool_word(
        result.accepted,
    ) + " score="@ + decimal(result.score as nat) + " high="@ + decimal(result.high_tile as nat)
        + "\n"@;
    assert(head + Seq::<char>::empty() =~= head);
}

/// The entry for the start of a game names the seed and the score, the settings of the run, the
/// next tile and the forecast, and shows the board.
pub proof fn a_start_entry_tells_how_a_game_starts(snapshot: SnapshotModel, config: RunConfigLog)
    ensures
        start_entry(snapshot, config) == "START seed="@ + decimal(snapshot.seed as nat)
            + " score="@ + decimal(snapshot.score as nat) + "\n"@ + config_text(config) + (
        "next="@ + snapshot.next_tile.label() + "\nbonus_forecast="@ + forecast_text(
            snapshot.bonus_forecast,
        ) + "\n"@ + rows_text(snapshot.board, 4) + "\n"@),
        config.ab is None ==> config_text(config) == "mode="@ + config.mode@ + " seed_source="@
            + config.seed_source@ + " speed_hz="@ + config.speed_hz@ + " color="@ + config.color@
            + "\n"@ + Seq::<char>::empty(),
        config.ab matches Some(ab) ==> config_text(config) == "mode="@ + config.mode@
            + " seed_source="@ + config.seed_source@ + " speed_hz="@ + config.speed_hz@
            + " color="@ + config.color@ + "\n"@ + ("ab depth="@ + decimal(ab.depth as nat)
            + " alpha="@ + ab.alpha@ + " beta="@ + ab.beta@ + " time_limit_ms="@ + option_text(
            ab.time_limit_ms,
        ) + " node_limit="@ + option_text(ab.node_limit) + "\nab dfs="@ + bool_word(ab.dfs)
            + "\n"@),
{
}

/// A probability in percent has one digit behind the point, and is as near as it can then be: it is
/// not more than half a tenth of a percent off.
pub proof fn a_percentage_is_off_by_less_than_a_tenth(probability: Probability)
    requires
        probability.denominator > 0,
    ensures
        ({
            let text = percent_text(probability);
            let end = text.len() as int;
            let tenths = 10 * number_read(text.subrange(0, end - 3)) + (text[end - 2] as int
                - '0' as int);
            let (n, d) = (probability.numerator as int, probability.denominator as int);
            &&& end >= 4
            &&& text[end - 3] == '.' && text[end - 1] == '%'
            &&& -d <= 2 * (1000 * n - tenths * d) <= d
        }),
{
    reveal_strlit(".");
    reveal_strlit("%");
    let (n, d) = (probability.numerator as int, probability.denominator as int);
    let text = percent_text(probability);
    let end = text.len() as int;
    let tenths = rounded(1000 * n, d);
    a_rounded_quotient_is_the_nearest(1000 * n, d);
    assert(tenths >= 0) by (nonlinear_arith)
        requires
            d > 0,
            n >= 0,
            2 * (1000 * n - tenths * d) <= d,
    ;
    let whole = (tenths / 10) as nat;
    a_decimal_number_is_read_back(whole);
    assert(text.subrange(0, end - 3) =~= decimal(whole));
    assert(text[end - 2] == digit_char(tenths % 10));
    assert(text[end - 2] as int - '0' as int == tenths % 10);
}

/// Truth values, numbers that may be missing and the kinds of tiles are named in the log.
pub proof fn words_of_the_log(n: u64)
    ensures
        bool_word(true) == "true"@ && bool_word(false) == "false"@,
        option_text(None) == "None"@ && option_text(Some(n)) == "Some("@ + decimal(n as nat)
            + ")"@,
        source_name(SpawnSource::Basic) == "Basic"@,
        source_name(SpawnSource::Bonus) == "Bonus"@,
{
}

} // verus!

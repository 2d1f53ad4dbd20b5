//! What the terminal shows and what the keys mean.

use crate::board::{face_of, rank_to_face, total_points, Direction};
use crate::bot::{AbSearchStats, BotKind};
use crate::forecast::BonusForecast;
use crate::game::{Game, MoveModel, MoveResult};
use crate::logging::{display_bonus_forecast, forecast_text, has_chances, AbConfigLog};
use crate::text::{
    cut, cut_to, decimal, join, joined, pad_right, padded_right, repeat_char, repeated, texts,
    to_decimal,
};
use vstd::prelude::*;

verus! {

/// How many characters wide a tile is.
pub const TILE_WIDTH: usize = 8;

/// How many lines high a tile is.
pub const TILE_HEIGHT: usize = 4;

/// The line of a tile that holds its label.
pub const TILE_LABEL_ROW: usize = 1;

/// How many characters lie between two boards.
pub const BOARD_GUTTER: usize = 4;

/// The end of a line.
pub const NL: &'static str = "\r\n";

// ---------------------------------------------------------------------------------------------
// Colors
// ---------------------------------------------------------------------------------------------

/// When to use colors.
#[derive(Clone, Copy, Debug, PartialEq, Eq, Structural)]
pub enum ColorMode {
    Auto,
    Always,
    Never,
}

impl ColorMode {
    /// The name of a mode.
    pub open spec fn spec_name(self) -> Seq<char> {
        match self {
            ColorMode::Auto => "auto"@,
            ColorMode::Always => "always"@,
            ColorMode::Never => "never"@,
        }
    }

    /// The name of the mode.
    pub fn as_str(self) -> (name: &'static str)
        ensures
            name@ == self.spec_name(),
    {
        match self {
            ColorMode::Auto => "auto",
            ColorMode::Always => "always",
            ColorMode::Never => "never",
        }
    }

    /// Whether to use colors on an output that is a terminal or not.
    pub fn uses_color(self, is_terminal: bool) -> (color: bool)
        ensures
            color == (self == ColorMode::Always || (self == ColorMode::Auto && is_terminal)),
    {
        match self {
            ColorMode::Auto => is_terminal,
            ColorMode::Always => true,
            ColorMode::Never => false,
        }
    }
}

/// A color of the terminal.
#[derive(Clone, Copy, Debug, PartialEq, Eq, Structural)]
pub enum TileColor {
    Black,
    White,
    Ansi(u8),
}

/// The colors of a tile: the one of the text, then the one behind it.
pub open spec fn colors_of(rank: u16) -> (TileColor, TileColor) {
    if rank == 0 {
        (TileColor::Ansi(250), TileColor::Ansi(238))
    } else if rank == 1 {
        (TileColor::White, TileColor::Ansi(25))
    } else if rank == 2 {
        (TileColor::White, TileColor::Ansi(160))
    } else if rank <= 5 {
        (TileColor::Black, TileColor::Ansi(253))
    } else if rank <= 8 {
        (TileColor::Black, TileColor::Ansi(250))
    } else if rank <= 11 {
        (TileColor::White, TileColor::Ansi(244))
    } else {
        (TileColor::White, TileColor::Ansi(239))
    }
}

/// The colors of a tile: the one of the text, then the one behind it.
pub fn tile_colors(rank: u16) -> (colors: (TileColor, TileColor))
    ensures
        colors == colors_of(rank),
{
    match rank {
        0 => (TileColor::Ansi(250), TileColor::Ansi(238)),
        1 => (TileColor::White, TileColor::Ansi(25)),
        2 => (TileColor::White, TileColor::Ansi(160)),
        3..=5 => (TileColor::Black, TileColor::Ansi(253)),
        6..=8 => (TileColor::Black, TileColor::Ansi(250)),
        9..=11 => (TileColor::White, TileColor::Ansi(244)),
        _ => (TileColor::White, TileColor::Ansi(239)),
    }
}

// ---------------------------------------------------------------------------------------------
// Labels
// ---------------------------------------------------------------------------------------------

/// A label in the middle of a tile, cut off where it is wider.
pub open spec fn centered(label: Seq<char>) -> Seq<char> {
    let free = TILE_WIDTH - label.len();
    if free <= 0 {
        label.take(TILE_WIDTH as int)
    } else {
        repeated(' ', free / 2) + label + repeated(' ', free - free / 2)
    }
}

/// A label filled up or cut off to the width of a tile.
pub open spec fn fitted(label: Seq<char>) -> Seq<char> {
    cut(padded_right(label, TILE_WIDTH as int), TILE_WIDTH as int)
}

/// The label of a tile: its face, or a dot for a free cell.
pub open spec fn tile_text(rank: u16) -> Seq<char> {
    if rank == 0 {
        centered("."@)
    } else {
        centered(decimal(face_of(rank as int) as nat))
    }
}

/// Puts a label in the middle of a tile.
pub fn center_label(label: &str) -> (centre: String)
    ensures
        centre@ == centered(label@),
        centre@.len() == TILE_WIDTH,
{
    let len: usize = label.unicode_len();
    if len >= TILE_WIDTH {
        let short = cut_to(label, TILE_WIDTH);
        assert(short@ =~= centered(label@));
        return short;
    }
    let left: usize = (TILE_WIDTH - len) / 2;
    let right: usize = TILE_WIDTH - len - left;
    repeat_char(' ', left).concat(label).concat(repeat_char(' ', right).as_str())
}

/// Fills up or cuts off a label to the width of a tile.
pub fn fit_label(label: &str) -> (fit: String)
    ensures
        fit@ == fitted(label@),
        fit@.len() == TILE_WIDTH,
{
    let padded = pad_right(label, TILE_WIDTH);
    cut_to(padded.as_str(), TILE_WIDTH)
}

/// The label of a tile.
pub fn tile_label(rank: u16) -> (label: String)
    ensures
        label@ == tile_text(rank),
        label@.len() == TILE_WIDTH,
{
    if rank == 0 {
        center_label(".")
    } else {
        center_label(to_decimal(rank_to_face(rank)).as_str())
    }
}

/// The arrow of a direction.
pub open spec fn arrow(direction: Direction) -> Seq<char> {
    match direction {
        Direction::Up => "↑"@,
        Direction::Down => "↓"@,
        Direction::Left => "←"@,
        Direction::Right => "→"@,
    }
}

/// The arrow of a direction.
pub fn direction_arrow(direction: Direction) -> (arrow_text: &'static str)
    ensures
        arrow_text@ == arrow(direction),
{
    match direction {
        Direction::Up => "↑",
        Direction::Down => "↓",
        Direction::Left => "←",
        Direction::Right => "→",
    }
}

/// What is shown of the last move: the direction, the face of the tile that came in and its
/// cell, and the cells that hold merged tiles.
#[derive(Clone, Copy, Debug)]
pub struct LastMoveView {
    pub direction: Direction,
    pub tile_face: u64,
    pub spawn_idx: Option<usize>,
    pub merged_cells: [bool; 16],
}

/// What a view of the last move says.
#[verifier::ext_equal]
pub struct LastMoveModel {
    pub direction: Direction,
    pub tile_face: u64,
    pub spawn_idx: Option<usize>,
    pub merged_cells: Seq<bool>,
}

impl View for LastMoveView {
    type V = LastMoveModel;

    open spec fn view(&self) -> LastMoveModel {
        LastMoveModel {
            direction: self.direction,
            tile_face: self.tile_face,
            spawn_idx: self.spawn_idx,
            merged_cells: self.merged_cells@,
        }
    }
}

/// What is said of a view, if there is one.
pub open spec fn viewed(last_move: Option<LastMoveView>) -> Option<LastMoveModel> {
    match last_move {
        Some(last) => Some(last@),
        None => None,
    }
}

/// What is shown of a move that brought in a tile.
pub open spec fn view_of(result: MoveModel) -> Option<LastMoveModel> {
    match result.spawn {
        Some(spawn) => Some(
            LastMoveModel {
                direction: result.direction,
                tile_face: spawn.face,
                spawn_idx: Some((spawn.row * 4 + spawn.col) as usize),
                merged_cells: result.merged_cells,
            },
        ),
        None => None,
    }
}

impl LastMoveView {
    /// What is shown of a move that brought in a tile.
    pub fn of_result(result: &MoveResult) -> (view: Option<LastMoveView>)
        requires
            result.spawn matches Some(spawn) ==> spawn.row < 4 && spawn.col < 4,
        ensures
            viewed(view) == view_of(result@),
    {
        match &result.spawn {
            Some(spawn) => Some(
                LastMoveView {
                    direction: result.direction,
                    tile_face: spawn.face,
                    spawn_idx: Some(spawn.row * 4 + spawn.col),
                    merged_cells: result.merged_cells,
                },
            ),
            None => None,
        }
    }
}

/// The last move in words.
pub open spec fn last_move_text(last: LastMoveModel) -> Seq<char> {
    "previous "@ + arrow(last.direction) + " "@ + decimal(last.tile_face as nat)
}

/// The last move in words, or a dash where there is none.
pub open spec fn previous_text(last: Option<LastMoveModel>) -> Seq<char> {
    match last {
        Some(last) => last_move_text(last),
        None => "previous -"@,
    }
}

/// The last move in words.
pub fn last_move_label(last_move: &LastMoveView) -> (label: String)
    ensures
        label@ == last_move_text(last_move@),
{
    String::from_str("previous ").concat(direction_arrow(last_move.direction)).concat(" ").concat(
        to_decimal(last_move.tile_face).as_str(),
    )
}

/// The last move in words, or a dash where there is none.
pub fn previous_label(last_move: &Option<LastMoveView>) -> (label: String)
    ensures
        label@ == previous_text(viewed(*last_move)),
{
    match last_move {
        Some(last) => last_move_label(last),
        None => String::from_str("previous -"),
    }
}

/// A forecast in short.
pub fn bonus_forecast_label(forecast: &BonusForecast) -> (label: String)
    requires
        has_chances(forecast@),
    ensures
        label@ == forecast_text(forecast@),
{
    display_bonus_forecast(forecast)
}

// ---------------------------------------------------------------------------------------------
// Messages
// ---------------------------------------------------------------------------------------------

/// The message at the end of a game.
pub open spec fn game_over_text(score: int) -> Seq<char> {
    "GAME OVER - final score "@ + decimal(score as nat) + " - press any key to exit"@
}

/// The message at the end of a game.
pub fn game_over_message(game: &Game) -> (message: String)
    ensures
        message@ == game_over_text(total_points(game@.board)),
{
    String::from_str("GAME OVER - final score ").concat(to_decimal(game.score()).as_str()).concat(
        " - press any key to exit",
    )
}

/// The number of layers of a search that are shown. The number of layers counts modulo 256.
pub open spec fn shown_layers(searched_depth: u8, layers: nat) -> int {
    let short = layers as int % 256;
    let deep = if searched_depth >= short {
        searched_depth as int
    } else {
        short
    };
    if deep <= layers {
        deep
    } else {
        layers as int
    }
}

/// How many times as many states a layer has as the one above it, rounded up.
pub open spec fn growth(parent: u64, current: u64) -> int {
    if parent == 0 {
        0
    } else {
        (current + parent - 1) / (parent as int)
    }
}

/// What is shown of the first few layers of a search: the number of states in the first one, and
/// how the number grows from each to the next.
pub open spec fn layer_texts(layers: Seq<u64>, count: int) -> Seq<Seq<char>> {
    Seq::new(
        count as nat,
        |i: int|
            if i == 0 {
                decimal(layers[0] as nat)
            } else {
                decimal(growth(layers[i - 1], layers[i]) as nat)
            },
    )
}

/// The layers of a search in short, if any are shown.
pub open spec fn layers_text(searched_depth: u8, layers: Seq<u64>) -> Option<Seq<char>> {
    let count = shown_layers(searched_depth, layers.len());
    if count == 0 {
        None
    } else {
        Some(joined(layer_texts(layers, count), "/"@))
    }
}

/// The layers of a search in short.
pub fn format_state_layers(searched_depth: u8, layers: &Vec<u64>) -> (summary: Option<String>)
    ensures
        summary is Some <==> layers_text(searched_depth, layers@) is Some,
        summary matches Some(text) ==> text@ == layers_text(searched_depth, layers@)->Some_0,
{
    if layers.len() == 0 {
        return None;
    }
    let short: usize = layers.len() % 256;
    let deep: usize = if searched_depth as usize >= short {
        searched_depth as usize
    } else {
        short
    };
    let count: usize = if deep <= layers.len() {
        deep
    } else {
        layers.len()
    };
    assert(count == shown_layers(searched_depth, layers@.len()));
    let mut parts: Vec<String> = Vec::new();
    let mut layer: usize = 0;
    while layer < count
        invariant
            layer <= count <= layers@.len(),
            parts@.len() == layer,
            forall|i: int|
                0 <= i < layer ==> (#[trigger] parts@[i])@ == layer_texts(layers@, count as int)[i],
        decreases count - layer,
    {
        let part: u64 = if layer == 0 {
            layers[0]
        } else {
            let parent: u64 = layers[layer - 1];
            let current: u64 = layers[layer];
            if parent == 0 {
                0
            } else {
                proof {
                    lemma_rounded_up(current as int, parent as int);
                }
                if current % parent == 0 {
                    current / parent
                } else {
                    current / parent + 1
                }
            }
        };
        parts.push(to_decimal(part));
        layer = layer + 1;
    }
    if parts.len() == 0 {
        None
    } else {
        assert(texts(parts@) =~= layer_texts(layers@, count as int));
        Some(join(&parts, "/"))
    }
}

proof fn lemma_rounded_up(n: int, d: int)
    requires
        0 <= n <= u64::MAX,
        0 < d,
    ensures
        (n + d - 1) / d == n / d + (if n % d == 0 {
            0int
        } else {
            1
        }),
        n % d != 0 ==> n / d + 1 <= u64::MAX,
{
    vstd::arithmetic::div_mod::lemma_fundamental_div_mod(n, d);
    let q = n / d;
    let r = n % d;
    if r == 0 {
        assert(n + d - 1 == q * d + (d - 1)) by (nonlinear_arith)
            requires
                n == d * q + r,
                r == 0,
        ;
        vstd::arithmetic::div_mod::lemma_fundamental_div_mod_converse(n + d - 1, d, q, d - 1);
    } else {
        assert(n + d - 1 == (q + 1) * d + (r - 1)) by (nonlinear_arith)
            requires
                n == d * q + r,
        ;
        vstd::arithmetic::div_mod::lemma_fundamental_div_mod_converse(n + d - 1, d, q + 1, r - 1);
        assert(q < n) by (nonlinear_arith)
            requires
                n == d * q + r,
                r > 0,
                d > 0,
                q >= 0,
        ;
    }
}

/// What is shown of a search, one text for each thing: how deep it went, how many positions it
/// kept and cut, what the cache gave, the best score, and the layers.
pub open spec fn search_texts(
    stats: AbSearchStats,
    best: Seq<char>,
    layers: Seq<u64>,
) -> Seq<Seq<char>> {
    let kept: nat = if stats.predicted_states >= stats.pruned_states {
        (stats.predicted_states - stats.pruned_states) as nat
    } else {
        0
    };
    let always = seq![
        "d "@ + decimal(stats.searched_depth as nat),
        "pred "@ + decimal(kept) + " ("@ + decimal(stats.pruned_states as nat) + " pruned)"@,
        "cache "@ + decimal(stats.cache_hits as nat) + "h/"@ + decimal(stats.cache_misses as nat)
            + "m"@,
        "best "@ + best,
    ];
    match layers_text(stats.searched_depth, layers) {
        Some(summary) => always.push(summary),
        None => always,
    }
}

/// Texts in square brackets behind a space; nothing where there are none.
pub open spec fn bracketed(parts: Seq<Seq<char>>) -> Seq<char> {
    if parts.len() == 0 {
        Seq::empty()
    } else {
        " ["@ + joined(parts, ", "@) + "]"@
    }
}

/// The line below the board of a bot that is watched.
pub open spec fn bot_status_text(
    name: Seq<char>,
    speed: Seq<char>,
    eval: Option<Seq<char>>,
    search: Option<Seq<Seq<char>>>,
) -> Seq<char> {
    let first = match eval {
        Some(eval) => seq!["eval "@ + eval],
        None => Seq::empty(),
    };
    let rest = match search {
        Some(parts) => parts,
        None => Seq::empty(),
    };
    "bot "@ + name + " running at "@ + speed + " Hz"@ + bracketed(first + rest)
        + "; q quit; r restart"@
}

/// What is shown of a bot that plays against a human.
pub open spec fn opponent_text(
    name: Seq<char>,
    eval: Seq<char>,
    search: Seq<Seq<char>>,
) -> Seq<char> {
    "bot "@ + name + bracketed(seq!["eval "@ + eval] + search)
}

/// A search as it is shown: its report, with the scores as texts, and the number of states in
/// each of its layers.
#[derive(Debug)]
pub struct ShownSearch {
    pub stats: AbSearchStats,
    pub eval: String,
    pub best: String,
    pub layers: Vec<u64>,
}

impl ShownSearch {
    /// What is shown of the search.
    pub open spec fn parts(self) -> Seq<Seq<char>> {
        search_texts(self.stats, self.best@, self.layers@)
    }

    fn push_parts(&self, parts: &mut Vec<String>)
        ensures
            texts(final(parts)@) == texts(old(parts)@) + self.parts(),
    {
        let ghost first = parts@;
        let stats = self.stats;
        let kept: u64 = stats.predicted_states.saturating_sub(stats.pruned_states);
        parts.push(String::from_str("d ").concat(to_decimal(stats.searched_depth as u64).as_str()));
        parts.push(
            String::from_str("pred ").concat(to_decimal(kept).as_str()).concat(" (").concat(
                to_decimal(stats.pruned_states).as_str(),
            ).concat(" pruned)"),
        );
        parts.push(
            String::from_str("cache ").concat(to_decimal(stats.cache_hits).as_str()).concat(
                "h/",
            ).concat(to_decimal(stats.cache_misses).as_str()).concat("m"),
        );
        parts.push(String::from_str("best ").concat(self.best.as_str()));
        if let Some(summary) = format_state_layers(stats.searched_depth, &self.layers) {
            parts.push(summary);
        }
        assert(texts(parts@) =~= texts(first) + self.parts());
    }
}

fn in_brackets(parts: &Vec<String>) -> (text: String)
    ensures
        text@ == bracketed(texts(parts@)),
{
    if parts.len() == 0 {
        let text = String::new();
        assert(text@ =~= bracketed(texts(parts@)));
        text
    } else {
        String::from_str(" [").concat(join(parts, ", ").as_str()).concat("]")
    }
}

/// The line below the board of a bot that is watched. The speed and the score of the position
/// come as texts.
pub fn bot_status(
    name: &str,
    speed: &str,
    eval: &Option<String>,
    search: &Option<ShownSearch>,
) -> (status: String)
    ensures
        status@ == bot_status_text(
            name@,
            speed@,
            match *eval {
                Some(eval) => Some(eval@),
                None => None,
            },
            match *search {
                Some(search) => Some(search.parts()),
                None => None,
            },
        ),
{
    let mut parts: Vec<String> = Vec::new();
    assert(texts(parts@) =~= Seq::empty());
    if let Some(eval) = eval {
        parts.push(String::from_str("eval ").concat(eval.as_str()));
        assert(texts(parts@) =~= seq!["eval "@ + eval@]);
    }
    let ghost first = texts(parts@);
    assert(first + Seq::<Seq<char>>::empty() =~= first);
    if let Some(search) = search {
        search.push_parts(&mut parts);
    }
    String::from_str("bot ").concat(name).concat(" running at ").concat(speed).concat(" Hz").concat(
        in_brackets(&parts).as_str(),
    ).concat("; q quit; r restart")
}

/// What is shown of a bot that plays against a human; nothing where it did not search.
pub fn format_opponent_status(name: &str, search: &Option<ShownSearch>) -> (status: Option<String>)
    ensures
        status is Some <==> *search is Some,
        status matches Some(text) ==> text@ == opponent_text(
            name@,
            search->Some_0.eval@,
            search->Some_0.parts(),
        ),
{
    match search {
        Some(search) => {
            let mut parts: Vec<String> = Vec::new();
            parts.push(String::from_str("eval ").concat(search.eval.as_str()));
            assert(texts(parts@) =~= seq!["eval "@ + search.eval@]);
            search.push_parts(&mut parts);
            Some(String::from_str("bot ").concat(name).concat(in_brackets(&parts).as_str()))
        },
        None => None,
    }
}

/// A bound of a search window as it is logged, where a bound that is neither the lowest nor the
/// highest score has this text.
pub open spec fn bound_text(bound: i64, text: Seq<char>) -> Seq<char> {
    if bound == i64::MAX {
        "inf"@
    } else if bound == i64::MIN {
        "-inf"@
    } else {
        text
    }
}

/// A bound of a search window as it is logged.
pub fn log_bound(bound: i64, text: &str) -> (logged: String)
    ensures
        logged@ == bound_text(bound, text@),
{
    if bound == i64::MAX {
        String::from_str("inf")
    } else if bound == i64::MIN {
        String::from_str("-inf")
    } else {
        String::from_str(text)
    }
}

/// The settings of a bot as they are logged; only a searching bot has some. The bounds of the
/// window come as texts too.
pub fn ab_log_config(bot: BotKind, alpha: &str, beta: &str) -> (log: Option<AbConfigLog>)
    ensures
        log is Some <==> bot is Ab,
        log matches Some(ab) ==> {
            let config = bot->Ab_0;
            &&& ab.depth == config.depth
            &&& ab.alpha@ == bound_text(config.alpha, alpha@)
            &&& ab.beta@ == bound_text(config.beta, beta@)
            &&& ab.dfs == config.dfs
            &&& ab.time_limit_ms == config.time_limit_ms
            &&& ab.node_limit == config.node_limit
        },
{
    match bot {
        BotKind::Random => None,
        BotKind::Ab(config) => Some(
            AbConfigLog {
                depth: config.depth,
                alpha: log_bound(config.alpha, alpha),
                beta: log_bound(config.beta, beta),
                dfs: config.dfs,
                time_limit_ms: config.time_limit_ms,
                node_limit: config.node_limit,
            },
        ),
    }
}

/// Where the seed of a game comes from, as it is logged.
pub fn seed_source(seed: Option<u64>) -> (source: &'static str)
    ensures
        source@ == (if seed is Some {
            "explicit"@
        } else {
            "time"@
        }),
{
    if seed.is_some() {
        "explicit"
    } else {
        "time"
    }
}

/// The mode of a run in which a bot is watched, as it is logged.
pub fn bot_mode(name: &str) -> (mode: String)
    ensures
        mode@ == "bot:"@ + name@,
{
    String::from_str("bot:").concat(name)
}

/// The time that a bot gets for its move after a human took so many milliseconds for theirs: as
/// long, but at least one.
pub fn human_move_budget_ms(elapsed_ms: u128) -> (budget: u64)
    ensures
        budget == (if elapsed_ms == 0 {
            1
        } else if elapsed_ms <= u64::MAX {
            elapsed_ms as int
        } else {
            u64::MAX as int
        }),
{
    if elapsed_ms == 0 {
        1
    } else if elapsed_ms <= u64::MAX as u128 {
        elapsed_ms as u64
    } else {
        u64::MAX
    }
}

// ---------------------------------------------------------------------------------------------
// Keys
// ---------------------------------------------------------------------------------------------

/// A key of the keyboard.
#[derive(Clone, Copy, Debug, PartialEq, Eq, Structural)]
pub enum Key {
    Left,
    Right,
    Up,
    Down,
    Char(char),
    Escape,
    Other,
}

/// What the player wants.
#[derive(Clone, Copy, Debug, PartialEq, Eq, Structural)]
pub enum Action {
    Move(Direction),
    Quit,
    Restart,
    Terminate,
    Nothing,
}

/// What a key means, pressed together with the control key or without it.
pub open spec fn action_of(key: Key, control: bool) -> Action {
    if control && key == Key::Char('c') {
        Action::Terminate
    } else if key == Key::Left || key == Key::Char('a') || key == Key::Char('h') {
        Action::Move(Direction::Left)
    } else if key == Key::Right || key == Key::Char('d') || key == Key::Char('l') {
        Action::Move(Direction::Right)
    } else if key == Key::Up || key == Key::Char('w') || key == Key::Char('k') {
        Action::Move(Direction::Up)
    } else if key == Key::Down || key == Key::Char('s') || key == Key::Char('j') {
        Action::Move(Direction::Down)
    } else if key == Key::Char('q') {
        Action::Quit
    } else if key == Key::Char('r') {
        Action::Restart
    } else {
        Action::Nothing
    }
}

/// What a key means.
pub fn key_to_action(key: Key, control: bool) -> (action: Action)
    ensures
        action == action_of(key, control),
{
    match key {
        Key::Left => Action::Move(Direction::Left),
        Key::Right => Action::Move(Direction::Right),
        Key::Up => Action::Move(Direction::Up),
        Key::Down => Action::Move(Direction::Down),
        Key::Char(c) => {
            if control && c == 'c' {
                Action::Terminate
            } else if c == 'a' || c == 'h' {
                Action::Move(Direction::Left)
            } else if c == 'd' || c == 'l' {
                Action::Move(Direction::Right)
            } else if c == 'w' || c == 'k' {
                Action::Move(Direction::Up)
            } else if c == 's' || c == 'j' {
                Action::Move(Direction::Down)
            } else if c == 'q' {
                Action::Quit
            } else if c == 'r' {
                Action::Restart
            } else {
                Action::Nothing
            }
        },
        _ => Action::Nothing,
    }
}

/// What a key answers to a question that is to be confirmed; nothing where it is no answer.
pub fn key_to_answer(key: Key) -> (answer: Option<bool>)
    ensures
        answer == (if key == Key::Char('y') || key == Key::Char('Y') {
            Some(true)
        } else if key == Key::Char('n') || key == Key::Char('N') || key == Key::Escape {
            Some(false)
        } else {
            None
        }),
{
    match key {
        Key::Char(c) => {
            if c == 'y' || c == 'Y' {
                Some(true)
            } else if c == 'n' || c == 'N' {
                Some(false)
            } else {
                None
            }
        },
        Key::Escape => Some(false),
        _ => None,
    }
}

// ---------------------------------------------------------------------------------------------
// Laws
// ---------------------------------------------------------------------------------------------

/// The arrow keys, `wasd` and `hjkl` move, `q` quits and `r` restarts; control and `c` end the
/// program, and no other key does anything.
pub proof fn keys_mean_what_they_are_said_to(key: Key, control: bool)
    ensures
        key == Key::Left || key == Key::Char('a') || key == Key::Char('h') ==> action_of(
            key,
            control,
        ) == Action::Move(Direction::Left),
        key == Key::Right || key == Key::Char('d') || key == Key::Char('l') ==> action_of(
            key,
            control,
        ) == Action::Move(Direction::Right),
        key == Key::Up || key == Key::Char('w') || key == Key::Char('k') ==> action_of(
            key,
            control,
        ) == Action::Move(Direction::Up),
        key == Key::Down || key == Key::Char('s') || key == Key::Char('j') ==> action_of(
            key,
            control,
        ) == Action::Move(Direction::Down),
        key == Key::Char('q') <==> action_of(key, control) == Action::Quit,
        key == Key::Char('r') <==> action_of(key, control) == Action::Restart,
        control && key == Key::Char('c') <==> action_of(key, control) == Action::Terminate,
        key == Key::Escape || key == Key::Other ==> action_of(key, control) == Action::Nothing,
{
}

/// A label stands in the middle of a tile: it is as wide as the tile, and where a space is left
/// over it stands behind the label.
pub proof fn a_label_stands_in_the_middle(label: Seq<char>, i: int)
    ensures
        centered(label).len() == 8,
        fitted(label).len() == 8,
        label.len() == 8 ==> centered(label) == label && fitted(label) == label,
        ({
            let left = (8 - label.len()) / 2;
            &&& label.len() < 8 && 0 <= i < left ==> centered(label)[i] == ' '
            &&& label.len() < 8 && 0 <= i < label.len() ==> centered(label)[left + i] == label[i]
            &&& label.len() < 8 && left + label.len() <= i < 8 ==> centered(label)[i] == ' '
            &&& label.len() >= 8 && 0 <= i < 8 ==> centered(label)[i] == label[i]
        }),
        0 <= i < 8 && i < label.len() ==> fitted(label)[i] == label[i],
        label.len() <= i < 8 ==> fitted(label)[i] == ' ',
{
    if label.len() == 8 {
        assert(centered(label) =~= label);
        assert(fitted(label) =~= label);
    }
}

/// A tile shows its face, and a free cell a dot.
pub proof fn a_tile_shows_its_face(rank: u16)
    ensures
        rank == 0 ==> tile_text(rank) == centered("."@),
        rank > 0 ==> tile_text(rank) == centered(decimal(face_of(rank as int) as nat)),
{
}

/// A layer of a search is shown by how many times as many states it has as the one above it, which
/// is the smallest number of times that is enough.
pub proof fn a_layer_grows_by_the_smallest_number_that_is_enough(parent: u64, current: u64)
    ensures
        parent == 0 ==> growth(parent, current) == 0,
        parent > 0 ==> growth(parent, current) * parent >= current,
        parent > 0 && current > 0 ==> (growth(parent, current) - 1) * parent < current,
        parent > 0 && current == 0 ==> growth(parent, current) == 0,
{
    if parent > 0 {
        let p = parent as int;
        let n = current + parent - 1;
        let g = n / p;
        assert(g * p <= n < g * p + p) by (nonlinear_arith)
            requires
                p > 0,
                g == n / p,
        ;
        assert((g - 1) * p == g * p - p) by (nonlinear_arith);
        if current == 0 {
            assert(n / p == 0) by (nonlinear_arith)
                requires
                    0 <= n < p,
            ;
        }
    }
}

/// A layer is shown for every move that the search looked ahead, as far as there is one, and where
/// there are fewer than 256 layers all are shown: the first by its number of states, each other one
/// by its growth.
pub proof fn layers_are_shown_from_the_first_on(searched_depth: u8, layers: Seq<u64>, i: int)
    ensures
        shown_layers(searched_depth, layers.len()) <= layers.len(),
        shown_layers(searched_depth, layers.len()) >= searched_depth || shown_layers(
            searched_depth,
            layers.len(),
        ) == layers.len(),
        layers.len() < 256 ==> shown_layers(searched_depth, layers.len()) == layers.len(),
        0 < i < layers.len() ==> layer_texts(layers, layers.len() as int)[i] == decimal(
            growth(layers[i - 1], layers[i]) as nat,
        ),
        layers.len() > 0 ==> layer_texts(layers, layers.len() as int)[0] == decimal(
            layers[0] as nat,
        ),
        0 < layers.len() < 256 ==> layers_text(searched_depth, layers) == Some(
            joined(layer_texts(layers, layers.len() as int), "/"@),
        ),
        layers.len() == 0 ==> layers_text(searched_depth, layers) is None,
{
}

/// What is shown of a search: how deep it went, how many positions were left after the cuts and how
/// many cuts there were, how often the cache knew a position and how often it did not, and the best
/// score.
pub proof fn a_status_tells_what_a_search_did(
    stats: AbSearchStats,
    best: Seq<char>,
    layers: Seq<u64>,
)
    ensures
        ({
            let parts = search_texts(stats, best, layers);
            &&& parts.len() == if layers_text(stats.searched_depth, layers) is Some {
                5int
            } else {
                4
            }
            &&& parts[0] == "d "@ + decimal(stats.searched_depth as nat)
            &&& stats.predicted_states >= stats.pruned_states ==> parts[1] == "pred "@ + decimal(
                (stats.predicted_states - stats.pruned_states) as nat,
            ) + " ("@ + decimal(stats.pruned_states as nat) + " pruned)"@
            &&& stats.predicted_states < stats.pruned_states ==> parts[1] == "pred "@ + decimal(0)
                + " ("@ + decimal(stats.pruned_states as nat) + " pruned)"@
            &&& parts[2] == "cache "@ + decimal(stats.cache_hits as nat) + "h/"@ + decimal(
                stats.cache_misses as nat,
            ) + "m"@
            &&& parts[3] == "best "@ + best
            &&& layers_text(stats.searched_depth, layers) matches Some(summary) ==> parts[4]
                == summary
        }),
{
}

/// What is remembered of a move for the picture: the direction, the face and the cell of the tile
/// that came in, and the cells in which tiles merged; nothing where no tile came in.
pub proof fn a_last_move_remembers_its_tile(result: MoveModel)
    ensures
        result.spawn is None <==> view_of(result) is None,
        result.spawn matches Some(spawn) ==> 0 <= spawn.row < 4 && 0 <= spawn.col < 4 ==> ({
            let view = view_of(result)->Some_0;
            &&& view.direction == result.direction
            &&& view.tile_face == spawn.face
            &&& view.spawn_idx == Some((spawn.row * 4 + spawn.col) as usize)
            &&& view.merged_cells == result.merged_cells
        }),
{
}

/// The colors tell free cells, 1s, 2s and the bands of higher tiles apart: those of a band look the
/// same, and neighbouring bands do not.
pub proof fn colors_tell_tiles_apart(rank: u16, other: u16)
    ensures
        3 <= rank <= 5 && 3 <= other <= 5 ==> colors_of(rank) == colors_of(other),
        6 <= rank <= 8 && 6 <= other <= 8 ==> colors_of(rank) == colors_of(other),
        9 <= rank <= 11 && 9 <= other <= 11 ==> colors_of(rank) == colors_of(other),
        rank >= 12 && other >= 12 ==> colors_of(rank) == colors_of(other),
        colors_of(0) != colors_of(1) && colors_of(1) != colors_of(2),
        colors_of(2) != colors_of(3),
        colors_of(5) != colors_of(6) && colors_of(8) != colors_of(9) && colors_of(11) != colors_of(
            12,
        ),
{
}

/// Parts are shown in square brackets with a comma between any two; without parts there are no
/// brackets.
pub proof fn parts_are_shown_in_brackets(part: Seq<char>, other: Seq<char>)
    ensures
        bracketed(Seq::empty()) == Seq::<char>::empty(),
        bracketed(seq![part]) == " ["@ + part + "]"@,
        bracketed(seq![part, other]) == " ["@ + (part + ", "@ + other) + "]"@,
{
    crate::text::a_separator_stands_between_texts(seq![part], part, ", "@);
    crate::text::a_separator_stands_between_texts(seq![part], other, ", "@);
    assert(seq![part].push(other) =~= seq![part, other]);
}

/// The status of a bot that is watched names the bot and its speed, and then its value of the
/// position and its search as far as there are any; that of an opponent names the bot, the value
/// and the search.
pub proof fn a_status_names_the_bot(
    name: Seq<char>,
    speed: Seq<char>,
    eval: Seq<char>,
    search: Seq<Seq<char>>,
)
    ensures
        bot_status_text(name, speed, None, None) == "bot "@ + name + " running at "@ + speed
            + " Hz"@ + "; q quit; r restart"@,
        bot_status_text(name, speed, Some(eval), None) == "bot "@ + name + " running at "@ + speed
            + " Hz"@ + (" ["@ + ("eval "@ + eval) + "]"@) + "; q quit; r restart"@,
        bot_status_text(name, speed, Some(eval), Some(search)) == "bot "@ + name + " running at "@
            + speed + " Hz"@ + bracketed(seq!["eval "@ + eval] + search) + "; q quit; r restart"@,
        opponent_text(name, eval, search) == "bot "@ + name + bracketed(
            seq!["eval "@ + eval] + search,
        ),
{
    let first = "eval "@ + eval;
    let none = Seq::<Seq<char>>::empty();
    parts_are_shown_in_brackets(first, first);
    assert(none + none =~= none);
    assert(seq![first] + none =~= seq![first]);
    let head = "bot "@ + name + " running at "@ + speed + " Hz"@;
    assert(head + Seq::<char>::empty() =~= head);
}

/// The last move is shown by the arrow of its direction and the face of the tile that came in.
pub proof fn the_last_move_is_shown_by_its_arrow(last: LastMoveModel)
    ensures
        previous_text(None) == "previous -"@,
        last.direction == Direction::Up ==> previous_text(Some(last)) == "previous "@ + "↑"@
            + " "@ + decimal(last.tile_face as nat),
        last.direction == Direction::Down ==> previous_text(Some(last)) == "previous "@ + "↓"@
            + " "@ + decimal(last.tile_face as nat),
        last.direction == Direction::Left ==> previous_text(Some(last)) == "previous "@ + "←"@
            + " "@ + decimal(last.tile_face as nat),
        last.direction == Direction::Right ==> previous_text(Some(last)) == "previous "@ + "→"@
            + " "@ + decimal(last.tile_face as nat),
{
}

/// A bound that is none is logged as infinite; every other bound by its text.
pub proof fn a_bound_that_is_none_is_infinite(bound: i64, text: Seq<char>)
    ensures
        i64::MIN < bound < i64::MAX ==> bound_text(bound, text) == text,
        bound_text(i64::MAX, text) == "inf"@,
        bound_text(i64::MIN, text) == "-inf"@,
{
}

} // verus!

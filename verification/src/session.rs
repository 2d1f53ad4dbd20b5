//! A sitting at the terminal: which game is played, and what happens next.

use crate::board::{total_points, Direction};
use crate::game::{
    low_ranks_fit, ranks_below, Game, GameModel, MoveModel, MoveResult, NextTile, Preview,
};
use crate::screen::{
    double_game_ops, draw_dual_game, draw_game, game_ops, op_models, DrawOp, OpModel,
};
use crate::tui::{
    game_over_message, game_over_text, human_move_budget_ms, view_of, viewed, Action, LastMoveModel,
    LastMoveView,
};
use vstd::prelude::*;

verus! {

// ---------------------------------------------------------------------------------------------
// The opponent
// ---------------------------------------------------------------------------------------------

/// Where a bot stands that plays beside a human: what is shown of its last move, whether it still
/// plays, and what is shown of its last search.
pub struct BotOpponentState {
    pub last_move: Option<LastMoveView>,
    pub active: bool,
    pub last_status: Option<String>,
}

impl Clone for BotOpponentState {
    fn clone(&self) -> (copy: Self)
        ensures
            viewed(copy.last_move) == viewed(self.last_move),
            copy.active == self.active,
            read(copy.last_status) == read(self.last_status),
    {
        BotOpponentState {
            last_move: self.last_move,
            active: self.active,
            last_status: match &self.last_status {
                Some(status) => Some(status.clone()),
                None => None,
            },
        }
    }
}

/// A bot that plays beside a human, in a game of its own.
pub struct BotOpponent {
    pub game: Game,
    pub state: BotOpponentState,
}

/// What there is to say of an opponent.
#[verifier::ext_equal]
pub struct OpponentModel {
    pub game: GameModel,
    pub last_move: Option<LastMoveModel>,
    pub active: bool,
    pub status: Option<Seq<char>>,
}

/// The characters of a string, if there is one.
pub open spec fn read(text: Option<String>) -> Option<Seq<char>> {
    match text {
        Some(text) => Some(text@),
        None => None,
    }
}

/// What there is to say of an opponent with this game in this state.
pub open spec fn opponent_model(game: GameModel, state: BotOpponentState) -> OpponentModel {
    OpponentModel {
        game,
        last_move: viewed(state.last_move),
        active: state.active,
        status: read(state.last_status),
    }
}

/// A game in which this tile is shown next, where one is given.
pub open spec fn showing(game: GameModel, next: Option<Preview>) -> GameModel {
    match next {
        Some(next) => GameModel { next, ..game },
        None => game,
    }
}

/// What a next tile shows, if there is one.
pub open spec fn previewed(next: Option<NextTile>) -> Option<Preview> {
    match next {
        Some(next) => Some(next@),
        None => None,
    }
}

/// Whether a move can be made in a game.
pub open spec fn can_step(game: GameModel) -> bool {
    game.is_sound() && game.has_room_for(1)
}

impl OpponentModel {
    /// Whether the opponent still has a move to make.
    pub open spec fn goes_on(self) -> bool {
        self.active && !self.game.is_over()
    }

    /// The opponent after a turn in which it moves in some direction. A tile that is given takes
    /// the place of the one that its game shows next, and where it mirrors the human, it does so
    /// again after the move. A rank that is given is the one of the new tile. Without a direction
    /// the opponent gives up.
    pub open spec fn after_turn(
        self,
        direction: Option<Direction>,
        visible_next: Option<Preview>,
        forced_rank: Option<u16>,
        mirror: bool,
    ) -> OpponentModel {
        if !self.goes_on() {
            OpponentModel { active: false, ..self }
        } else {
            let start = showing(self.game, visible_next);
            match direction {
                None => OpponentModel { game: start, last_move: None, active: false, ..self },
                Some(direction) => {
                    let after = match forced_rank {
                        Some(rank) => start.stepped_with(direction, rank),
                        None => start.stepped(direction),
                    };
                    let report = match forced_rank {
                        Some(rank) => start.report_with(direction, rank),
                        None => start.report(direction),
                    };
                    OpponentModel {
                        game: if mirror {
                            showing(after, visible_next)
                        } else {
                            after
                        },
                        last_move: view_of(report),
                        active: !report.game_over,
                        ..self
                    }
                },
            }
        }
    }
}

/// Makes the turn of a bot that plays beside a human. Gives whether it still has a move to make.
pub fn step_bot_opponent_turn(
    opponent_game: &mut Game,
    opponent_state: &mut BotOpponentState,
    direction: Option<Direction>,
    visible_next: &Option<NextTile>,
    forced_rank: Option<u16>,
    mirror_human_next: bool,
) -> (goes_on: bool)
    requires
        ranks_below(old(opponent_game)@.board, u16::MAX as int),
        old(opponent_game)@.board.len() == 16,
        old(opponent_state).active && direction is Some ==> can_step(
            showing(old(opponent_game)@, previewed(*visible_next)),
        ),
        forced_rank matches Some(rank) ==> rank < u16::MAX,
    ensures
        opponent_model(final(opponent_game)@, *final(opponent_state)) == opponent_model(
            old(opponent_game)@,
            *old(opponent_state),
        ).after_turn(direction, previewed(*visible_next), forced_rank, mirror_human_next),
        goes_on == opponent_model(final(opponent_game)@, *final(opponent_state)).goes_on(),
        ranks_below(final(opponent_game)@.board, u16::MAX as int),
        old(opponent_game)@.is_sound() && (previewed(*visible_next) matches Some(next) ==> showing(
            old(opponent_game)@,
            Some(next),
        ).is_sound()) ==> final(opponent_game)@.is_sound(),
{
    let ghost first = opponent_model(opponent_game@, *opponent_state);
    let ghost next = previewed(*visible_next);
    proof {
        low_ranks_fit(opponent_game@.board);
    }
    if !opponent_state.active || opponent_game.is_game_over() {
        opponent_state.active = false;
        return false;
    }
    if let Some(tile) = visible_next {
        opponent_game.force_next_tile(tile.clone());
    }
    assert(opponent_game@ == showing(first.game, next));
    match direction {
        Some(bot_direction) => {
            let result: MoveResult = match forced_rank {
                Some(rank) => opponent_game.step_with_forced_next(bot_direction, rank),
                None => opponent_game.step(bot_direction),
            };
            opponent_state.last_move = LastMoveView::of_result(&result);
            opponent_state.active = !result.game_over;
            if mirror_human_next {
                if let Some(tile) = visible_next {
                    opponent_game.force_next_tile(tile.clone());
                }
            }
        },
        None => {
            opponent_state.active = false;
            opponent_state.last_move = None;
        },
    }
    proof {
        low_ranks_fit(opponent_game@.board);
    }
    opponent_state.active && !opponent_game.is_game_over()
}

// ---------------------------------------------------------------------------------------------
// What is to be done
// ---------------------------------------------------------------------------------------------

/// Why a game ended.
#[derive(Clone, Copy, Debug, PartialEq, Eq, Structural)]
pub enum EndReason {
    GameOver,
    Quit,
    Restart,
    Terminated,
}

impl EndReason {
    /// The name of a reason, as it is logged.
    pub open spec fn spec_name(self) -> Seq<char> {
        match self {
            EndReason::GameOver => "game_over"@,
            EndReason::Quit => "quit"@,
            EndReason::Restart => "restart"@,
            EndReason::Terminated => "terminated"@,
        }
    }

    /// The name of the reason, as it is logged.
    pub fn as_str(self) -> (name: &'static str)
        ensures
            name@ == self.spec_name(),
    {
        match self {
            EndReason::GameOver => "game_over",
            EndReason::Quit => "quit",
            EndReason::Restart => "restart",
            EndReason::Terminated => "terminated",
        }
    }
}

/// What is written below the board.
#[derive(Clone, Copy, Debug, PartialEq, Eq, Structural)]
pub enum Notice {
    Help,
    GameOver,
    BotContinues,
    QuitQuestion,
    RestartQuestion,
    BotStatus,
}

/// One thing to do outside. What a sitting asks for is done in the order in which it asks.
#[derive(Clone, Copy, Debug, PartialEq, Eq, Structural)]
pub enum Effect {
    /// Log the start of the game.
    LogStart,
    /// Log the last move of the sitting.
    LogTurn,
    /// Log the end of the game.
    LogEnd(EndReason),
    /// Draw the sitting with something written below it.
    Redraw(Notice),
    /// Have the bot think about its game, within a number of milliseconds.
    RequestMove(Option<u64>),
    /// Tell the bot to stop thinking, take its reply and hand it over.
    CancelAndTakeReply,
    /// Wait for the reply of the bot and hand it over.
    TakeReply,
    /// Have a bot for the new game.
    NewBot,
    /// Have the bot choose a move and hand it over.
    ChooseMove,
    /// Get a seed and hand it over.
    NewSeed,
    /// Wait for a key and hand over what it means.
    ReadAction,
    /// Wait for a key as long as a move of the bot takes, and hand over what it means.
    PollAction,
    /// Wait for an answer and hand it over.
    ReadAnswer,
    /// Wait as long as a move of the bot takes.
    Pause,
    /// Wait for any key.
    WaitForKey,
    /// Leave.
    Exit,
}

/// What is asked for at the end of a game: the entry in the log, a key, and to leave.
pub open spec fn farewell() -> Seq<Effect> {
    seq![Effect::LogEnd(EndReason::GameOver), Effect::WaitForKey, Effect::Exit]
}

fn push_farewell(effects: &mut Vec<Effect>)
    ensures
        final(effects)@ == old(effects)@ + farewell(),
{
    effects.push(Effect::LogEnd(EndReason::GameOver));
    effects.push(Effect::WaitForKey);
    effects.push(Effect::Exit);
    assert(effects@ =~= old(effects)@ + farewell());
}

/// An effect where it is wanted.
pub open spec fn maybe(wanted: bool, effect: Effect) -> Seq<Effect> {
    if wanted {
        seq![effect]
    } else {
        Seq::empty()
    }
}

// ---------------------------------------------------------------------------------------------
// A human plays
// ---------------------------------------------------------------------------------------------

/// What a sitting waits for.
#[derive(Clone, Copy, Debug, PartialEq, Eq, Structural)]
pub enum Phase {
    /// A key.
    Playing,
    /// The reply of the bot to a move of the human.
    AwaitingReply,
    /// The reply of the bot, which plays on after the human finished.
    BotAlone,
    /// An answer to the question whether to quit.
    ConfirmingQuit,
    /// An answer to the question whether to restart.
    ConfirmingRestart,
    /// A seed for the next game.
    Restarting,
    /// Nothing any more.
    Done,
}

/// A sitting in which a human plays, with or without a bot beside them.
pub struct HumanSession {
    pub game: Game,
    pub opponent: Option<BotOpponent>,
    pub last_move: Option<LastMoveView>,
    pub turn: Option<MoveResult>,
    pub budget_ms: u64,
    pub phase: Phase,
}

/// What there is to say of a sitting in which a human plays.
#[verifier::ext_equal]
pub struct HumanModel {
    pub game: GameModel,
    pub opponent: Option<OpponentModel>,
    pub last_move: Option<LastMoveModel>,
    pub turn: Option<MoveModel>,
    pub budget_ms: u64,
    pub phase: Phase,
}

impl View for HumanSession {
    type V = HumanModel;

    open spec fn view(&self) -> HumanModel {
        HumanModel {
            game: self.game@,
            opponent: match self.opponent {
                Some(opponent) => Some(opponent_model(opponent.game@, opponent.state)),
                None => None,
            },
            last_move: viewed(self.last_move),
            turn: match self.turn {
                Some(result) => Some(result@),
                None => None,
            },
            budget_ms: self.budget_ms,
            phase: self.phase,
        }
    }
}

/// An opponent at the start of the game of a seed.
pub open spec fn fresh_opponent(seed: u64) -> OpponentModel {
    OpponentModel { game: GameModel::started(seed), last_move: None, active: true, status: None }
}

impl HumanModel {
    /// What holds of every sitting.
    pub open spec fn is_sound(self) -> bool {
        &&& self.game.is_sound()
        &&& ranks_below(self.game.board, u16::MAX as int)
        &&& self.opponent matches Some(opponent) ==> opponent.game.is_sound() && ranks_below(
            opponent.game.board,
            u16::MAX as int,
        )
        &&& self.phase == Phase::AwaitingReply ==> self.opponent is Some && self.turn is Some
        &&& self.phase == Phase::BotAlone ==> self.opponent is Some
        &&& self.turn matches Some(turn) ==> (turn.spawn matches Some(spawn) ==> 0 <= spawn.row < 4
            && 0 <= spawn.col < 4 && spawn.rank < u16::MAX)
    }

    /// Whether the bot, if it still plays, has room for another move.
    pub open spec fn bot_can_step(self) -> bool {
        self.opponent matches Some(opponent) ==> opponent.active ==> opponent.game.has_room_for(1)
    }

    /// A sitting at the start of the game of a seed.
    pub open spec fn started(seed: u64, with_bot: bool) -> HumanModel {
        HumanModel {
            game: GameModel::started(seed),
            opponent: if with_bot {
                Some(fresh_opponent(seed))
            } else {
                None
            },
            last_move: None,
            turn: None,
            budget_ms: 0,
            phase: Phase::Playing,
        }
    }

    /// Whether a bot plays that has not finished.
    pub open spec fn bot_is_active(self) -> bool {
        self.opponent matches Some(opponent) && opponent.active
    }

    /// Whether a bot plays that still has a move to make.
    pub open spec fn bot_goes_on(self) -> bool {
        self.opponent matches Some(opponent) && opponent.goes_on()
    }

    /// The sitting after the human moved, before the bot does.
    pub open spec fn after_move(self, direction: Direction, elapsed_ms: u128) -> HumanModel {
        HumanModel {
            game: self.game.stepped(direction),
            turn: Some(self.game.report(direction)),
            budget_ms: if elapsed_ms == 0 {
                1
            } else if elapsed_ms <= u64::MAX {
                elapsed_ms as u64
            } else {
                u64::MAX
            },
            ..self
        }
    }

    /// The rank that the new tile of the bot has: that of the tile that came in for the human.
    pub open spec fn shared_rank(self) -> u16 {
        match self.turn->Some_0.spawn {
            Some(spawn) => spawn.rank,
            None => match self.game.next.only_rank() {
                Some(rank) => rank,
                None => 3,
            },
        }
    }

    /// The sitting after the bot replied to a move of the human: it moves with the same new tile
    /// and is shown the same next one.
    pub open spec fn after_reply(
        self,
        direction: Option<Direction>,
        status: Option<Seq<char>>,
    ) -> HumanModel {
        let opponent = OpponentModel { status, ..self.opponent->Some_0 };
        HumanModel {
            opponent: Some(
                opponent.after_turn(
                    direction,
                    Some(self.game.next),
                    Some(self.shared_rank()),
                    true,
                ),
            ),
            ..self
        }
    }

    /// The sitting after the bot, which plays on alone, moved in a direction.
    pub open spec fn after_lone_move(
        self,
        direction: Option<Direction>,
        status: Option<Seq<char>>,
    ) -> HumanModel {
        let opponent = OpponentModel { status, ..self.opponent->Some_0 };
        HumanModel {
            opponent: Some(
                opponent.after_turn(direction, Some(opponent.game.next), None, false),
            ),
            ..self
        }
    }

    /// What follows where the human has finished: the bot plays on, or the sitting ends.
    pub open spec fn alone(self) -> (HumanModel, Seq<Effect>) {
        if self.bot_goes_on() {
            (
                HumanModel { phase: Phase::BotAlone, ..self },
                seq![Effect::RequestMove(Some(self.budget_ms)), Effect::TakeReply],
            )
        } else {
            (
                HumanModel { phase: Phase::Done, ..self },
                seq![Effect::Redraw(Notice::GameOver)] + farewell(),
            )
        }
    }

    /// What follows a turn of the human, and of the bot where it takes part.
    pub open spec fn turn_finished(self) -> (HumanModel, Seq<Effect>) {
        let result = self.turn->Some_0;
        let after = HumanModel {
            last_move: match view_of(result) {
                Some(view) => Some(view),
                None => self.last_move,
            },
            ..self
        };
        let first = seq![Effect::LogTurn] + maybe(
            result.accepted && self.bot_is_active(),
            Effect::RequestMove(Some(self.budget_ms)),
        );
        if !result.game_over {
            (
                HumanModel { phase: Phase::Playing, ..after },
                first + seq![Effect::Redraw(Notice::Help), Effect::ReadAction],
            )
        } else if self.opponent is None {
            (
                HumanModel { phase: Phase::Done, ..after },
                first + seq![Effect::Redraw(Notice::GameOver)] + farewell(),
            )
        } else {
            let (last, rest) = after.alone();
            (last, first + seq![Effect::Redraw(Notice::GameOver)] + rest)
        }
    }

    /// What follows what a key means.
    pub open spec fn acted(self, action: Action, elapsed_ms: u128) -> (HumanModel, Seq<Effect>) {
        match action {
            Action::Move(direction) => {
                let moved = self.after_move(direction, elapsed_ms);
                if moved.opponent is Some && moved.turn->Some_0.accepted {
                    (
                        HumanModel { phase: Phase::AwaitingReply, ..moved },
                        seq![Effect::CancelAndTakeReply],
                    )
                } else {
                    moved.turn_finished()
                }
            },
            Action::Quit => (
                HumanModel { phase: Phase::ConfirmingQuit, ..self },
                seq![Effect::Redraw(Notice::QuitQuestion), Effect::ReadAnswer],
            ),
            Action::Restart => (
                HumanModel { phase: Phase::ConfirmingRestart, ..self },
                seq![Effect::Redraw(Notice::RestartQuestion), Effect::ReadAnswer],
            ),
            Action::Terminate => (
                HumanModel { phase: Phase::Done, ..self },
                seq![Effect::LogEnd(EndReason::Terminated), Effect::Exit],
            ),
            Action::Nothing => (self, seq![Effect::ReadAction]),
        }
    }

    /// What follows a reply of the bot.
    pub open spec fn replied(self, direction: Option<Direction>, status: Option<Seq<char>>) -> (
        HumanModel,
        Seq<Effect>,
    ) {
        if self.phase == Phase::AwaitingReply {
            self.after_reply(direction, status).turn_finished()
        } else {
            let moved = self.after_lone_move(direction, status);
            let (last, rest) = moved.alone();
            if moved.bot_goes_on() {
                (last, seq![Effect::Redraw(Notice::BotContinues), Effect::Pause] + rest)
            } else {
                (last, rest)
            }
        }
    }

    /// What follows an answer.
    pub open spec fn answered(self, yes: bool) -> (HumanModel, Seq<Effect>) {
        if !yes {
            (
                HumanModel { phase: Phase::Playing, ..self },
                seq![Effect::Redraw(Notice::Help), Effect::ReadAction],
            )
        } else if self.phase == Phase::ConfirmingQuit {
            (
                HumanModel { phase: Phase::Done, ..self },
                seq![Effect::LogEnd(EndReason::Quit), Effect::Exit],
            )
        } else {
            (
                HumanModel { phase: Phase::Restarting, ..self },
                seq![Effect::LogEnd(EndReason::Restart), Effect::NewSeed],
            )
        }
    }

    /// What follows the seed of the next game.
    pub open spec fn restarted(self, seed: u64) -> (HumanModel, Seq<Effect>) {
        let with_bot = self.opponent is Some;
        (
            HumanModel { budget_ms: self.budget_ms, ..HumanModel::started(seed, with_bot) },
            maybe(with_bot, Effect::NewBot) + maybe(with_bot, Effect::RequestMove(None)) + seq![
                Effect::LogStart,
                Effect::Redraw(Notice::Help),
                Effect::ReadAction,
            ],
        )
    }

    /// What is written below the board.
    pub open spec fn notice_text(self, notice: Notice) -> Seq<char> {
        match notice {
            Notice::GameOver => game_over_text(total_points(self.game.board)),
            Notice::BotContinues => "human finished, bot continues"@,
            Notice::QuitQuestion => "Quit? y/n"@,
            Notice::RestartQuestion => "Restart? y/n"@,
            _ => "arrows, wasd/hjkl to move; q quit; r restart"@,
        }
    }

    /// The picture of the sitting.
    pub open spec fn picture(self, notice: Notice, use_color: bool) -> Seq<OpModel> {
        match self.opponent {
            Some(opponent) => double_game_ops(
                self.game,
                opponent.game,
                self.last_move,
                opponent.last_move,
                opponent.status,
                use_color,
                self.notice_text(notice),
            ),
            None => game_ops(self.game, self.last_move, use_color, self.notice_text(notice)),
        }
    }
}

impl BotOpponent {
    fn new(seed: u64) -> (opponent: Self)
        ensures
            opponent_model(opponent.game@, opponent.state) == fresh_opponent(seed),
            opponent.game@.is_sound(),
            ranks_below(opponent.game@.board, 4),
    {
        BotOpponent {
            game: Game::new(seed),
            state: BotOpponentState { last_move: None, active: true, last_status: None },
        }
    }
}

impl HumanSession {
    /// A sitting at the start of the game of a seed.
    pub fn new(seed: u64, with_bot: bool) -> (session: Self)
        ensures
            session@ == HumanModel::started(seed, with_bot),
            session@.is_sound(),
    {
        let opponent = if with_bot {
            Some(BotOpponent::new(seed))
        } else {
            None
        };
        HumanSession {
            game: Game::new(seed),
            opponent,
            last_move: None,
            turn: None,
            budget_ms: 0,
            phase: Phase::Playing,
        }
    }

    /// What is to be done at the start.
    pub fn start(&self) -> (effects: Vec<Effect>)
        ensures
            effects@ == seq![Effect::LogStart, Effect::Redraw(Notice::Help)] + maybe(
                self@.opponent is Some,
                Effect::RequestMove(None),
            ) + seq![Effect::ReadAction],
    {
        let mut effects: Vec<Effect> = Vec::new();
        effects.push(Effect::LogStart);
        effects.push(Effect::Redraw(Notice::Help));
        if self.opponent.is_some() {
            effects.push(Effect::RequestMove(None));
        }
        effects.push(Effect::ReadAction);
        assert(effects@ =~= seq![Effect::LogStart, Effect::Redraw(Notice::Help)] + maybe(
            self@.opponent is Some,
            Effect::RequestMove(None),
        ) + seq![Effect::ReadAction]);
        effects
    }

    /// Whether the human has room for another move.
    pub fn human_has_room(&self) -> (room: bool)
        ensures
            room == self@.game.has_room_for(1),
    {
        self.game.has_room_for(1)
    }

    /// Whether the bot, if it still plays, has room for another move.
    pub fn bot_has_room(&self) -> (room: bool)
        ensures
            room == self@.bot_can_step(),
    {
        match &self.opponent {
            Some(opponent) => !opponent.state.active || opponent.game.has_room_for(1),
            None => true,
        }
    }

    fn bot_goes_on(&self) -> (goes_on: bool)
        requires
            self@.is_sound(),
        ensures
            goes_on == self@.bot_goes_on(),
    {
        match &self.opponent {
            Some(opponent) => {
                proof {
                    low_ranks_fit(opponent.game@.board);
                }
                opponent.state.active && !opponent.game.is_game_over()
            },
            None => false,
        }
    }

    fn go_on_alone(&mut self, effects: &mut Vec<Effect>)
        requires
            old(self)@.is_sound(),
        ensures
            ({
                let (after, more) = old(self)@.alone();
                final(self)@ == after && final(effects)@ == old(effects)@ + more
            }),
            final(self)@.is_sound(),
    {
        if self.bot_goes_on() {
            self.phase = Phase::BotAlone;
            effects.push(Effect::RequestMove(Some(self.budget_ms)));
            effects.push(Effect::TakeReply);
        } else {
            self.phase = Phase::Done;
            effects.push(Effect::Redraw(Notice::GameOver));
            push_farewell(effects);
        }
        assert(self@ =~= old(self)@.alone().0);
        assert(effects@ =~= old(effects)@ + old(self)@.alone().1);
    }

    fn finish_turn(&mut self) -> (effects: Vec<Effect>)
        requires
            old(self)@.is_sound(),
            old(self)@.turn is Some,
        ensures
            (final(self)@, effects@) == old(self)@.turn_finished(),
            final(self)@.is_sound(),
    {
        let ghost first = self@;
        let (view, accepted, game_over) = match &self.turn {
            Some(result) => (LastMoveView::of_result(result), result.accepted, result.game_over),
            None => (None, false, false),
        };
        if view.is_some() {
            self.last_move = view;
        }
        let ghost after = HumanModel {
            last_move: match view_of(first.turn->Some_0) {
                Some(view) => Some(view),
                None => first.last_move,
            },
            ..first
        };
        assert(self@ =~= after);
        let bot_is_active = match &self.opponent {
            Some(opponent) => opponent.state.active,
            None => false,
        };
        let mut effects: Vec<Effect> = Vec::new();
        effects.push(Effect::LogTurn);
        if accepted && bot_is_active {
            effects.push(Effect::RequestMove(Some(self.budget_ms)));
        }
        if !game_over {
            self.phase = Phase::Playing;
            effects.push(Effect::Redraw(Notice::Help));
            effects.push(Effect::ReadAction);
        } else {
            effects.push(Effect::Redraw(Notice::GameOver));
            if self.opponent.is_none() {
                self.phase = Phase::Done;
                push_farewell(&mut effects);
            } else {
                self.go_on_alone(&mut effects);
            }
        }
        assert(self@ =~= first.turn_finished().0);
        assert(effects@ =~= first.turn_finished().1);
        effects
    }

    /// What is to be done where a key means this, after the human took so long.
    pub fn on_action(&mut self, action: Action, elapsed_ms: u128) -> (effects: Vec<Effect>)
        requires
            old(self)@.is_sound(),
            action is Move ==> old(self)@.game.has_room_for(1),
        ensures
            (final(self)@, effects@) == old(self)@.acted(action, elapsed_ms),
            final(self)@.is_sound(),
    {
        let ghost first = self@;
        match action {
            Action::Move(direction) => {
                let result: MoveResult = self.game.step(direction);
                let accepted: bool = result.accepted;
                self.budget_ms = human_move_budget_ms(elapsed_ms);
                self.turn = Some(result);
                assert(self@ =~= first.after_move(direction, elapsed_ms));
                if self.opponent.is_some() && accepted {
                    self.phase = Phase::AwaitingReply;
                    let mut effects: Vec<Effect> = Vec::new();
                    effects.push(Effect::CancelAndTakeReply);
                    assert(self@ =~= first.acted(action, elapsed_ms).0);
                    assert(effects@ =~= first.acted(action, elapsed_ms).1);
                    effects
                } else {
                    self.finish_turn()
                }
            },
            Action::Quit => {
                self.phase = Phase::ConfirmingQuit;
                two(Effect::Redraw(Notice::QuitQuestion), Effect::ReadAnswer)
            },
            Action::Restart => {
                self.phase = Phase::ConfirmingRestart;
                two(Effect::Redraw(Notice::RestartQuestion), Effect::ReadAnswer)
            },
            Action::Terminate => {
                self.phase = Phase::Done;
                two(Effect::LogEnd(EndReason::Terminated), Effect::Exit)
            },
            Action::Nothing => {
                let mut effects: Vec<Effect> = Vec::new();
                effects.push(Effect::ReadAction);
                assert(effects@ =~= seq![Effect::ReadAction]);
                effects
            },
        }
    }

    /// What is to be done after the bot replied: it moves in a direction, or gives up, and this is
    /// shown of its search.
    pub fn on_reply(&mut self, direction: Option<Direction>, status: Option<String>) -> (effects:
        Vec<Effect>)
        requires
            old(self)@.is_sound(),
            old(self)@.phase == Phase::AwaitingReply || old(self)@.phase == Phase::BotAlone,
            old(self)@.bot_can_step(),
        ensures
            (final(self)@, effects@) == old(self)@.replied(direction, read(status)),
            final(self)@.is_sound(),
    {
        let ghost first = self@;
        let mirrored: bool = self.phase == Phase::AwaitingReply;
        let rank: u16 = match &self.turn {
            Some(result) => match &result.spawn {
                Some(spawn) => spawn.rank,
                None => match self.game.next_tile().single_rank() {
                    Some(rank) => rank,
                    None => 3,
                },
            },
            None => 3,
        };
        let human_next: NextTile = self.game.next_tile().clone();
        match self.opponent.take() {
            Some(taken) => {
                let mut game: Game = taken.game;
                let mut state: BotOpponentState = taken.state;
                state.last_status = status;
                if mirrored {
                    assert(rank == first.shared_rank());
                    step_bot_opponent_turn(
                        &mut game,
                        &mut state,
                        direction,
                        &Some(human_next),
                        Some(rank),
                        true,
                    );
                } else {
                    let bot_next: NextTile = game.next_tile().clone();
                    step_bot_opponent_turn(
                        &mut game,
                        &mut state,
                        direction,
                        &Some(bot_next),
                        None,
                        false,
                    );
                }
                self.opponent = Some(BotOpponent { game, state });
            },
            None => {},
        }
        if mirrored {
            assert(self@ =~= first.after_reply(direction, read(status)));
            self.finish_turn()
        } else {
            assert(self@ =~= first.after_lone_move(direction, read(status)));
            let mut effects: Vec<Effect> = Vec::new();
            if self.bot_goes_on() {
                effects.push(Effect::Redraw(Notice::BotContinues));
                effects.push(Effect::Pause);
            }
            self.go_on_alone(&mut effects);
            assert(effects@ =~= first.replied(direction, read(status)).1);
            effects
        }
    }

    /// What is to be done after an answer.
    pub fn on_answer(&mut self, yes: bool) -> (effects: Vec<Effect>)
        requires
            old(self)@.is_sound(),
            old(self)@.phase == Phase::ConfirmingQuit || old(self)@.phase
                == Phase::ConfirmingRestart,
        ensures
            (final(self)@, effects@) == old(self)@.answered(yes),
            final(self)@.is_sound(),
    {
        if !yes {
            self.phase = Phase::Playing;
            two(Effect::Redraw(Notice::Help), Effect::ReadAction)
        } else if self.phase == Phase::ConfirmingQuit {
            self.phase = Phase::Done;
            two(Effect::LogEnd(EndReason::Quit), Effect::Exit)
        } else {
            self.phase = Phase::Restarting;
            two(Effect::LogEnd(EndReason::Restart), Effect::NewSeed)
        }
    }

    /// What is to be done with the seed of the next game.
    pub fn on_seed(&mut self, seed: u64) -> (effects: Vec<Effect>)
        ensures
            (final(self)@, effects@) == old(self)@.restarted(seed),
            final(self)@.is_sound(),
    {
        let ghost first = self@;
        let with_bot: bool = self.opponent.is_some();
        self.game = Game::new(seed);
        self.opponent = if with_bot {
            Some(BotOpponent::new(seed))
        } else {
            None
        };
        self.last_move = None;
        self.turn = None;
        self.phase = Phase::Playing;
        let mut effects: Vec<Effect> = Vec::new();
        if with_bot {
            effects.push(Effect::NewBot);
            effects.push(Effect::RequestMove(None));
        }
        effects.push(Effect::LogStart);
        effects.push(Effect::Redraw(Notice::Help));
        effects.push(Effect::ReadAction);
        assert(self@ =~= first.restarted(seed).0);
        assert(effects@ =~= first.restarted(seed).1);
        effects
    }

    /// What is written below the board.
    pub fn message(&self, notice: Notice) -> (message: String)
        ensures
            message@ == self@.notice_text(notice),
    {
        match notice {
            Notice::GameOver => game_over_message(&self.game),
            Notice::BotContinues => String::from_str("human finished, bot continues"),
            Notice::QuitQuestion => String::from_str("Quit? y/n"),
            Notice::RestartQuestion => String::from_str("Restart? y/n"),
            _ => String::from_str("arrows, wasd/hjkl to move; q quit; r restart"),
        }
    }

    /// Draws the sitting.
    pub fn redraw(&self, notice: Notice, use_color: bool) -> (ops: Vec<DrawOp>)
        requires
            self@.is_sound(),
        ensures
            op_models(ops@) == self@.picture(notice, use_color),
    {
        let message = self.message(notice);
        match &self.opponent {
            Some(opponent) => draw_dual_game(
                &self.game,
                &opponent.game,
                &self.last_move,
                &opponent.state.last_move,
                &opponent.state.last_status,
                use_color,
                message.as_str(),
            ),
            None => draw_game(&self.game, &self.last_move, use_color, message.as_str()),
        }
    }
}

fn two(first: Effect, second: Effect) -> (effects: Vec<Effect>)
    ensures
        effects@ == seq![first, second],
{
    let mut effects: Vec<Effect> = Vec::new();
    effects.push(first);
    effects.push(second);
    assert(effects@ =~= seq![first, second]);
    effects
}

// ---------------------------------------------------------------------------------------------
// A bot is watched
// ---------------------------------------------------------------------------------------------

/// A sitting in which a bot is watched.
pub struct BotSession {
    pub game: Game,
    pub last_move: Option<LastMoveView>,
    pub turn: Option<MoveResult>,
}

/// What there is to say of a sitting in which a bot is watched.
#[verifier::ext_equal]
pub struct BotModel {
    pub game: GameModel,
    pub last_move: Option<LastMoveModel>,
    pub turn: Option<MoveModel>,
}

impl View for BotSession {
    type V = BotModel;

    open spec fn view(&self) -> BotModel {
        BotModel {
            game: self.game@,
            last_move: viewed(self.last_move),
            turn: match self.turn {
                Some(result) => Some(result@),
                None => None,
            },
        }
    }
}

impl BotModel {
    /// A sitting at the start of the game of a seed.
    pub open spec fn started(seed: u64) -> BotModel {
        BotModel { game: GameModel::started(seed), last_move: None, turn: None }
    }

    /// What is to be done where a key means this: the bot moves on unless the watcher wants
    /// something else.
    pub open spec fn asked(action: Action) -> Seq<Effect> {
        match action {
            Action::Quit => seq![Effect::LogEnd(EndReason::Quit), Effect::Exit],
            Action::Restart => seq![Effect::LogEnd(EndReason::Restart), Effect::NewSeed],
            Action::Terminate => seq![Effect::LogEnd(EndReason::Terminated), Effect::Exit],
            _ => seq![Effect::ChooseMove],
        }
    }

    /// What follows the choice of the bot. A bot without a move has finished.
    pub open spec fn chosen(self, direction: Option<Direction>) -> (BotModel, Seq<Effect>) {
        match direction {
            None => (self, seq![Effect::Redraw(Notice::GameOver)] + farewell()),
            Some(direction) => {
                let result = self.game.report(direction);
                let after = BotModel {
                    game: self.game.stepped(direction),
                    last_move: match view_of(result) {
                        Some(view) => Some(view),
                        None => self.last_move,
                    },
                    turn: Some(result),
                };
                if result.game_over {
                    (
                        after,
                        seq![Effect::LogTurn, Effect::Redraw(Notice::GameOver)] + farewell(),
                    )
                } else {
                    (
                        after,
                        seq![
                            Effect::LogTurn,
                            Effect::Redraw(Notice::BotStatus),
                            Effect::PollAction,
                        ],
                    )
                }
            },
        }
    }

    /// What is written below the board, where this is what is shown of the bot.
    pub open spec fn notice_text(self, notice: Notice, status: Seq<char>) -> Seq<char> {
        match notice {
            Notice::GameOver => game_over_text(total_points(self.game.board)),
            _ => status,
        }
    }
}

impl BotSession {
    /// A sitting at the start of the game of a seed.
    pub fn new(seed: u64) -> (session: Self)
        ensures
            session@ == BotModel::started(seed),
            session@.game.is_sound(),
            ranks_below(session@.game.board, u16::MAX as int),
    {
        BotSession { game: Game::new(seed), last_move: None, turn: None }
    }

    /// What is to be done at the start.
    pub fn start(&self) -> (effects: Vec<Effect>)
        ensures
            effects@ == seq![
                Effect::LogStart,
                Effect::Redraw(Notice::BotStatus),
                Effect::PollAction,
            ],
    {
        let mut effects: Vec<Effect> = two(Effect::LogStart, Effect::Redraw(Notice::BotStatus));
        effects.push(Effect::PollAction);
        assert(effects@ =~= seq![
            Effect::LogStart,
            Effect::Redraw(Notice::BotStatus),
            Effect::PollAction,
        ]);
        effects
    }

    /// What is to be done where a key means this.
    pub fn on_action(&self, action: Action) -> (effects: Vec<Effect>)
        ensures
            effects@ == BotModel::asked(action),
    {
        match action {
            Action::Quit => two(Effect::LogEnd(EndReason::Quit), Effect::Exit),
            Action::Restart => two(Effect::LogEnd(EndReason::Restart), Effect::NewSeed),
            Action::Terminate => two(Effect::LogEnd(EndReason::Terminated), Effect::Exit),
            _ => {
                let mut effects: Vec<Effect> = Vec::new();
                effects.push(Effect::ChooseMove);
                assert(effects@ =~= seq![Effect::ChooseMove]);
                effects
            },
        }
    }

    /// Whether the game has room for another move.
    pub fn has_room(&self) -> (room: bool)
        ensures
            room == self@.game.has_room_for(1),
    {
        self.game.has_room_for(1)
    }

    /// What is to be done after the bot chose a direction, or none.
    pub fn on_choice(&mut self, direction: Option<Direction>) -> (effects: Vec<Effect>)
        requires
            direction is Some ==> can_step(old(self)@.game),
        ensures
            (final(self)@, effects@) == old(self)@.chosen(direction),
            direction is Some ==> final(self)@.game.is_sound() && ranks_below(
                final(self)@.game.board,
                u16::MAX as int,
            ),
    {
        let ghost first = self@;
        let mut effects: Vec<Effect> = Vec::new();
        match direction {
            None => {
                effects.push(Effect::Redraw(Notice::GameOver));
                push_farewell(&mut effects);
            },
            Some(direction) => {
                let result: MoveResult = self.game.step(direction);
                let view: Option<LastMoveView> = LastMoveView::of_result(&result);
                let game_over: bool = result.game_over;
                if view.is_some() {
                    self.last_move = view;
                }
                self.turn = Some(result);
                effects.push(Effect::LogTurn);
                if game_over {
                    effects.push(Effect::Redraw(Notice::GameOver));
                    push_farewell(&mut effects);
                } else {
                    effects.push(Effect::Redraw(Notice::BotStatus));
                    effects.push(Effect::PollAction);
                }
            },
        }
        assert(self@ =~= first.chosen(direction).0);
        assert(effects@ =~= first.chosen(direction).1);
        effects
    }

    /// What is to be done with the seed of the next game.
    pub fn on_seed(&mut self, seed: u64) -> (effects: Vec<Effect>)
        ensures
            final(self)@ == BotModel::started(seed),
            final(self)@.game.is_sound(),
            ranks_below(final(self)@.game.board, u16::MAX as int),
            effects@ == seq![
                Effect::NewBot,
                Effect::LogStart,
                Effect::Redraw(Notice::BotStatus),
                Effect::PollAction,
            ],
    {
        *self = BotSession::new(seed);
        let mut effects: Vec<Effect> = two(Effect::NewBot, Effect::LogStart);
        effects.push(Effect::Redraw(Notice::BotStatus));
        effects.push(Effect::PollAction);
        assert(effects@ =~= seq![
            Effect::NewBot,
            Effect::LogStart,
            Effect::Redraw(Notice::BotStatus),
            Effect::PollAction,
        ]);
        effects
    }

    /// Draws the sitting, where this is what is shown of the bot.
    pub fn redraw(&self, notice: Notice, status: &str, use_color: bool) -> (ops: Vec<DrawOp>)
        requires
            self@.game.is_sound(),
        ensures
            op_models(ops@) == game_ops(
                self@.game,
                self@.last_move,
                use_color,
                self@.notice_text(notice, status@),
            ),
    {
        let message = match notice {
            Notice::GameOver => game_over_message(&self.game),
            _ => String::from_str(status),
        };
        draw_game(&self.game, &self.last_move, use_color, message.as_str())
    }
}

// ---------------------------------------------------------------------------------------------
// Laws
// ---------------------------------------------------------------------------------------------

/// What a sitting asks for last, according to what it waits for.
pub open spec fn awaited(phase: Phase) -> Effect {
    match phase {
        Phase::Playing => Effect::ReadAction,
        Phase::AwaitingReply => Effect::CancelAndTakeReply,
        Phase::BotAlone => Effect::TakeReply,
        Phase::ConfirmingQuit => Effect::ReadAnswer,
        Phase::ConfirmingRestart => Effect::ReadAnswer,
        Phase::Restarting => Effect::NewSeed,
        Phase::Done => Effect::Exit,
    }
}

/// Whether a sitting goes on in good order: it asks last for what it waits for, it asks to leave
/// only where it is done, and it does not leave without a log entry for the end of the game.
pub open spec fn leads_on(step: (HumanModel, Seq<Effect>)) -> bool {
    let (after, effects) = step;
    &&& effects.len() > 0
    &&& effects.last() == awaited(after.phase)
    &&& effects.contains(Effect::Exit) <==> after.phase == Phase::Done
    &&& after.phase == Phase::Done ==> exists|reason: EndReason|
        #[trigger] effects.contains(Effect::LogEnd(reason))
}

proof fn lemma_leads_on(
    after: HumanModel,
    before: Seq<Effect>,
    rest: Seq<Effect>,
)
    requires
        leads_on((after, rest)),
        !before.contains(Effect::Exit),
    ensures
        leads_on((after, before + rest)),
{
    let effects = before + rest;
    assert(effects.last() == rest.last());
    assert forall|effect: Effect| rest.contains(effect) implies effects.contains(effect) by {
        let i = choose|i: int| 0 <= i < rest.len() && rest[i] == effect;
        assert(effects[before.len() + i] == effect);
    }
    if effects.contains(Effect::Exit) {
        let i = choose|i: int| 0 <= i < effects.len() && effects[i] == Effect::Exit;
        if i < before.len() {
            assert(before[i] == Effect::Exit);
        } else {
            assert(rest[i - before.len()] == Effect::Exit);
        }
    }
    if after.phase == Phase::Done {
        let reason = choose|reason: EndReason| #[trigger] rest.contains(Effect::LogEnd(reason));
        assert(effects.contains(Effect::LogEnd(reason)));
    }
}

proof fn lemma_farewell_leads_on(after: HumanModel)
    requires
        after.phase == Phase::Done,
    ensures
        leads_on((after, farewell())),
{
    let effects = farewell();
    assert(effects[0] == Effect::LogEnd(EndReason::GameOver));
    assert(effects.contains(Effect::LogEnd(EndReason::GameOver)));
    assert(effects[2] == Effect::Exit);
}

proof fn lemma_alone_leads_on(session: HumanModel)
    ensures
        leads_on(session.alone()),
{
    let (after, effects) = session.alone();
    if !session.bot_goes_on() {
        lemma_farewell_leads_on(after);
        lemma_leads_on(after, seq![Effect::Redraw(Notice::GameOver)], farewell());
    }
}

proof fn lemma_turn_leads_on(session: HumanModel)
    ensures
        leads_on(session.turn_finished()),
{
    let result = session.turn->Some_0;
    let (after, effects) = session.turn_finished();
    let first = seq![Effect::LogTurn] + maybe(
        result.accepted && session.bot_is_active(),
        Effect::RequestMove(Some(session.budget_ms)),
    );
    let head = first + seq![Effect::Redraw(Notice::GameOver)];
    assert(!first.contains(Effect::Exit));
    assert(!head.contains(Effect::Exit));
    if !result.game_over {
        let rest = seq![Effect::Redraw(Notice::Help), Effect::ReadAction];
        assert(leads_on((after, rest)));
        lemma_leads_on(after, first, rest);
    } else if session.opponent is None {
        lemma_farewell_leads_on(after);
        lemma_leads_on(after, head, farewell());
    } else {
        let moved = HumanModel {
            last_move: match view_of(result) {
                Some(view) => Some(view),
                None => session.last_move,
            },
            ..session
        };
        lemma_alone_leads_on(moved);
        lemma_leads_on(after, head, moved.alone().1);
    }
}

/// Whatever happens in a sitting, it goes on in good order: after a key, a reply of the bot, an
/// answer or a new seed.
pub proof fn a_sitting_never_gets_stuck(
    session: HumanModel,
    action: Action,
    elapsed_ms: u128,
    direction: Option<Direction>,
    status: Option<Seq<char>>,
    yes: bool,
    seed: u64,
)
    ensures
        session.phase == Phase::Playing ==> leads_on(session.acted(action, elapsed_ms)),
        session.phase == Phase::AwaitingReply || session.phase == Phase::BotAlone ==> leads_on(
            session.replied(direction, status),
        ),
        session.phase == Phase::ConfirmingQuit || session.phase == Phase::ConfirmingRestart
            ==> leads_on(session.answered(yes)),
        leads_on(session.restarted(seed)),
{
    if session.phase == Phase::Playing {
        match action {
            Action::Move(direction) => {
                lemma_turn_leads_on(session.after_move(direction, elapsed_ms));
            },
            Action::Terminate => {
                let effects = session.acted(action, elapsed_ms).1;
                assert(effects[0] == Effect::LogEnd(EndReason::Terminated));
                assert(effects.contains(Effect::LogEnd(EndReason::Terminated)));
                assert(effects[1] == Effect::Exit);
            },
            _ => {},
        }
    }
    lemma_turn_leads_on(session.after_reply(direction, status));
    let moved = session.after_lone_move(direction, status);
    lemma_alone_leads_on(moved);
    lemma_leads_on(
        moved.alone().0,
        seq![Effect::Redraw(Notice::BotContinues), Effect::Pause],
        moved.alone().1,
    );
    let quit = session.answered(true).1;
    if session.phase == Phase::ConfirmingQuit {
        assert(quit[0] == Effect::LogEnd(EndReason::Quit));
        assert(quit.contains(Effect::LogEnd(EndReason::Quit)));
        assert(quit[1] == Effect::Exit);
    }
    let (fresh, effects) = session.restarted(seed);
    let with_bot = session.opponent is Some;
    let rest = seq![Effect::LogStart, Effect::Redraw(Notice::Help), Effect::ReadAction];
    assert(leads_on((fresh, rest)));
    lemma_leads_on(
        fresh,
        maybe(with_bot, Effect::NewBot) + maybe(with_bot, Effect::RequestMove(None)),
        rest,
    );
}

/// A bot that moved after the human is shown the same next tile as the human.
pub proof fn the_bot_is_shown_the_same_next_tile(
    session: HumanModel,
    direction: Direction,
    status: Option<Seq<char>>,
)
    requires
        session.opponent is Some,
        session.bot_goes_on(),
    ensures
        session.after_reply(Some(direction), status).opponent->Some_0.game.next
            == session.game.next,
{
}

/// A bot that has finished moves no more.
pub proof fn a_bot_that_has_finished_stays_as_it_is(
    opponent: OpponentModel,
    direction: Option<Direction>,
    visible_next: Option<Preview>,
    forced_rank: Option<u16>,
    mirror: bool,
)
    requires
        !opponent.goes_on(),
    ensures
        opponent.after_turn(direction, visible_next, forced_rank, mirror).game == opponent.game,
        !opponent.after_turn(direction, visible_next, forced_rank, mirror).goes_on(),
{
}

/// A key that moves makes the move in the game of the human and keeps the report of it; the bot
/// gets as long as the human took, but at least a millisecond.
pub proof fn a_key_moves_the_game_of_the_human(
    session: HumanModel,
    direction: Direction,
    elapsed_ms: u128,
)
    ensures
        ({
            let after = session.acted(Action::Move(direction), elapsed_ms).0;
            &&& after.game == session.game.stepped(direction)
            &&& after.turn == Some(session.game.report(direction))
            &&& after.opponent == session.opponent
            &&& 1 <= elapsed_ms <= u64::MAX ==> after.budget_ms == elapsed_ms
            &&& elapsed_ms == 0 ==> after.budget_ms == 1
            &&& elapsed_ms > u64::MAX ==> after.budget_ms == u64::MAX
            &&& session.opponent is Some && crate::board::moves(
                session.game.board,
                direction,
            ) ==> after.phase == Phase::AwaitingReply && after.last_move == session.last_move
        }),
{
}

/// Without a bot a turn is over at once: it is logged, the picture shows the tile that came in, and
/// the next key is read, or the game is ended where no move is left. A move that moves nothing
/// leaves the last move as it was.
pub proof fn a_turn_without_a_bot_is_over_at_once(
    session: HumanModel,
    direction: Direction,
    elapsed_ms: u128,
)
    requires
        session.opponent is None,
    ensures
        ({
            let (after, effects) = session.acted(Action::Move(direction), elapsed_ms);
            let report = session.game.report(direction);
            &&& effects[0] == Effect::LogTurn
            &&& !report.game_over ==> after.phase == Phase::Playing && effects == seq![
                Effect::LogTurn,
                Effect::Redraw(Notice::Help),
                Effect::ReadAction,
            ]
            &&& report.game_over ==> after.phase == Phase::Done && effects == seq![
                Effect::LogTurn,
                Effect::Redraw(Notice::GameOver),
                Effect::LogEnd(EndReason::GameOver),
                Effect::WaitForKey,
                Effect::Exit,
            ]
            &&& report.spawn is None ==> after.last_move == session.last_move
            &&& report.spawn is Some ==> after.last_move == view_of(report)
        }),
{
    let (after, effects) = session.acted(Action::Move(direction), elapsed_ms);
    let report = session.game.report(direction);
    if report.game_over {
        assert(effects =~= seq![
            Effect::LogTurn,
            Effect::Redraw(Notice::GameOver),
            Effect::LogEnd(EndReason::GameOver),
            Effect::WaitForKey,
            Effect::Exit,
        ]);
    } else {
        assert(effects =~= seq![Effect::LogTurn, Effect::Redraw(Notice::Help), Effect::ReadAction]);
    }
}

/// To quit and to restart is asked first, and nothing of the sitting changes until it is answered;
/// to end the program is done at once, and what means nothing changes nothing.
pub proof fn quitting_and_restarting_are_asked_first(
    session: HumanModel,
    action: Action,
    elapsed_ms: u128,
)
    requires
        !(action is Move),
    ensures
        ({
            let (after, effects) = session.acted(action, elapsed_ms);
            &&& after.game == session.game && after.opponent == session.opponent
                && after.last_move == session.last_move && after.turn == session.turn
            &&& action == Action::Quit ==> after.phase == Phase::ConfirmingQuit && effects == seq![
                Effect::Redraw(Notice::QuitQuestion),
                Effect::ReadAnswer,
            ]
            &&& action == Action::Restart ==> after.phase == Phase::ConfirmingRestart && effects
                == seq![Effect::Redraw(Notice::RestartQuestion), Effect::ReadAnswer]
            &&& action == Action::Terminate ==> effects == seq![
                Effect::LogEnd(EndReason::Terminated),
                Effect::Exit,
            ]
            &&& action == Action::Nothing ==> after == session && effects == seq![
                Effect::ReadAction,
            ]
        }),
{
}

/// A yes does what was asked, and is logged; a no goes on with the game as it was.
pub proof fn an_answer_does_what_was_asked(session: HumanModel, yes: bool)
    ensures
        ({
            let (after, effects) = session.answered(yes);
            &&& after.game == session.game && after.opponent == session.opponent
            &&& !yes ==> after == HumanModel { phase: Phase::Playing, ..session } && effects
                == seq![Effect::Redraw(Notice::Help), Effect::ReadAction]
            &&& yes && session.phase == Phase::ConfirmingQuit ==> effects == seq![
                Effect::LogEnd(EndReason::Quit),
                Effect::Exit,
            ]
            &&& yes && session.phase == Phase::ConfirmingRestart ==> effects == seq![
                Effect::LogEnd(EndReason::Restart),
                Effect::NewSeed,
            ]
        }),
{
}

/// A restart begins the game of the new seed, for the human and for the bot where there is one,
/// and logs it.
pub proof fn a_restart_begins_anew(session: HumanModel, seed: u64)
    ensures
        ({
            let (after, effects) = session.restarted(seed);
            &&& after.game == GameModel::started(seed)
            &&& after.last_move is None && after.turn is None
            &&& after.phase == Phase::Playing
            &&& session.opponent is None ==> after.opponent is None && effects == seq![
                Effect::LogStart,
                Effect::Redraw(Notice::Help),
                Effect::ReadAction,
            ]
            &&& session.opponent is Some ==> effects == seq![
                Effect::NewBot,
                Effect::RequestMove(None),
                Effect::LogStart,
                Effect::Redraw(Notice::Help),
                Effect::ReadAction,
            ]
            &&& session.opponent is Some ==> after.opponent is Some
                && after.opponent->Some_0.game == GameModel::started(seed)
                && after.opponent->Some_0.active && after.opponent->Some_0.last_move is None
        }),
{
    let effects = session.restarted(seed).1;
    if session.opponent is Some {
        assert(effects =~= seq![
            Effect::NewBot,
            Effect::RequestMove(None),
            Effect::LogStart,
            Effect::Redraw(Notice::Help),
            Effect::ReadAction,
        ]);
    } else {
        assert(effects =~= seq![
            Effect::LogStart,
            Effect::Redraw(Notice::Help),
            Effect::ReadAction,
        ]);
    }
}

/// The turn of a bot that still has a move: without a direction it gives up; with one it makes the
/// move, and it plays on unless the game is over then. Which tile was shown to it before, and
/// whether it is shown it again, depends on whether it mirrors the human.
pub proof fn a_bot_makes_its_move(
    opponent: OpponentModel,
    direction: Direction,
    visible_next: Preview,
    rank: u16,
)
    requires
        opponent.goes_on(),
    ensures
        ({
            let shown = GameModel { next: visible_next, ..opponent.game };
            let mirrored = opponent.after_turn(
                Some(direction),
                Some(visible_next),
                Some(rank),
                true,
            );
            let free = opponent.after_turn(Some(direction), Some(visible_next), None, false);
            let lost = opponent.after_turn(None, Some(visible_next), None, false);
            &&& mirrored.game.board == shown.stepped_with(direction, rank).board
            &&& mirrored.game.next == visible_next
            &&& mirrored.last_move == view_of(shown.report_with(direction, rank))
            &&& mirrored.active == !shown.report_with(direction, rank).game_over
            &&& free.game == shown.stepped(direction)
            &&& free.last_move == view_of(shown.report(direction))
            &&& free.active == !shown.report(direction).game_over
            &&& free.status == opponent.status && mirrored.status == opponent.status
            &&& !lost.active && lost.game.board == opponent.game.board && lost.last_move is None
        }),
{
}

/// A bot that replies to a move of the human gets a new tile of the same rank as the human did, and
/// is shown the same next tile; where nothing came in for the human, it gets the one that the human
/// is shown. Its status is what it replied, and the game of the human stays as it is.
pub proof fn a_bot_gets_the_tile_of_the_human(
    session: HumanModel,
    direction: Direction,
    status: Option<Seq<char>>,
)
    requires
        session.bot_goes_on(),
        session.turn is Some,
    ensures
        ({
            let after = session.after_reply(Some(direction), status);
            let opponent = after.opponent->Some_0;
            let shown = GameModel { next: session.game.next, ..session.opponent->Some_0.game };
            let spawn = session.turn->Some_0.spawn;
            &&& after.game == session.game && after.turn == session.turn
            &&& opponent.status == status
            &&& opponent.game.next == session.game.next
            &&& spawn is Some ==> opponent.game.board == shown.stepped_with(
                direction,
                spawn->Some_0.rank,
            ).board
            &&& spawn is None && session.game.next is Basic ==> opponent.game.board
                == shown.stepped_with(direction, session.game.next->rank).board
        }),
{
}

/// After the human has finished, the bot plays its own game on: with its own next tile and its own
/// dice, until it has no move left; then the sitting ends.
pub proof fn a_bot_plays_on_alone(
    session: HumanModel,
    direction: Direction,
    status: Option<Seq<char>>,
)
    requires
        session.phase == Phase::BotAlone,
        session.bot_goes_on(),
    ensures
        ({
            let (after, effects) = session.replied(Some(direction), status);
            let opponent = session.opponent->Some_0;
            &&& after.game == session.game
            &&& after.opponent->Some_0.game == opponent.game.stepped(direction)
            &&& after.opponent->Some_0.status == status
            &&& after.bot_goes_on() ==> after.phase == Phase::BotAlone && effects == seq![
                Effect::Redraw(Notice::BotContinues),
                Effect::Pause,
                Effect::RequestMove(Some(session.budget_ms)),
                Effect::TakeReply,
            ]
            &&& !after.bot_goes_on() ==> after.phase == Phase::Done && effects == seq![
                Effect::Redraw(Notice::GameOver),
                Effect::LogEnd(EndReason::GameOver),
                Effect::WaitForKey,
                Effect::Exit,
            ]
        }),
{
    let opponent = session.opponent->Some_0;
    let (after, effects) = session.replied(Some(direction), status);
    let same = GameModel { next: opponent.game.next, ..opponent.game };
    assert(same == opponent.game);
    if after.bot_goes_on() {
        assert(effects =~= seq![
            Effect::Redraw(Notice::BotContinues),
            Effect::Pause,
            Effect::RequestMove(Some(session.budget_ms)),
            Effect::TakeReply,
        ]);
    } else {
        assert(effects =~= seq![
            Effect::Redraw(Notice::GameOver),
            Effect::LogEnd(EndReason::GameOver),
            Effect::WaitForKey,
            Effect::Exit,
        ]);
    }
}

/// With a bot a turn ends after the bot moved: it is logged, the bot may think about its next move
/// as long as the human took, and the next key is read as long as the human has a move.
pub proof fn a_turn_with_a_bot_ends_after_its_move(
    session: HumanModel,
    direction: Option<Direction>,
    status: Option<Seq<char>>,
)
    requires
        session.phase == Phase::AwaitingReply,
        session.opponent is Some,
        session.turn is Some,
        session.turn->Some_0.accepted,
        !session.turn->Some_0.game_over,
    ensures
        ({
            let (after, effects) = session.replied(direction, status);
            &&& after.phase == Phase::Playing
            &&& after.opponent->Some_0.active ==> effects == seq![
                Effect::LogTurn,
                Effect::RequestMove(Some(session.budget_ms)),
                Effect::Redraw(Notice::Help),
                Effect::ReadAction,
            ]
            &&& !after.opponent->Some_0.active ==> effects == seq![
                Effect::LogTurn,
                Effect::Redraw(Notice::Help),
                Effect::ReadAction,
            ]
            &&& session.turn->Some_0.spawn is Some ==> after.last_move == view_of(
                session.turn->Some_0,
            )
        }),
{
    let (after, effects) = session.replied(direction, status);
    if after.opponent->Some_0.active {
        assert(effects =~= seq![
            Effect::LogTurn,
            Effect::RequestMove(Some(session.budget_ms)),
            Effect::Redraw(Notice::Help),
            Effect::ReadAction,
        ]);
    } else {
        assert(effects =~= seq![Effect::LogTurn, Effect::Redraw(Notice::Help), Effect::ReadAction]);
    }
}

/// A bot that is watched makes the moves that it chooses, and every move is logged; it goes on
/// until it has none or the watcher wants something else.
pub proof fn a_watched_bot_makes_its_choices(session: BotModel, direction: Direction)
    ensures
        ({
            let (after, effects) = session.chosen(Some(direction));
            let report = session.game.report(direction);
            &&& after.game == session.game.stepped(direction)
            &&& after.turn == Some(report)
            &&& report.spawn is Some ==> after.last_move == view_of(report)
            &&& report.spawn is None ==> after.last_move == session.last_move
            &&& !report.game_over ==> effects == seq![
                Effect::LogTurn,
                Effect::Redraw(Notice::BotStatus),
                Effect::PollAction,
            ]
            &&& report.game_over ==> effects == seq![
                Effect::LogTurn,
                Effect::Redraw(Notice::GameOver),
                Effect::LogEnd(EndReason::GameOver),
                Effect::WaitForKey,
                Effect::Exit,
            ]
            &&& session.chosen(None) == (
                session,
                seq![
                    Effect::Redraw(Notice::GameOver),
                    Effect::LogEnd(EndReason::GameOver),
                    Effect::WaitForKey,
                    Effect::Exit,
                ],
            )
            &&& BotModel::asked(Action::Quit) == seq![Effect::LogEnd(EndReason::Quit), Effect::Exit]
            &&& BotModel::asked(Action::Restart) == seq![
                Effect::LogEnd(EndReason::Restart),
                Effect::NewSeed,
            ]
            &&& BotModel::asked(Action::Terminate) == seq![
                Effect::LogEnd(EndReason::Terminated),
                Effect::Exit,
            ]
            &&& BotModel::asked(Action::Nothing) == seq![Effect::ChooseMove]
            &&& BotModel::asked(Action::Move(direction)) == seq![Effect::ChooseMove]
        }),
{
    let effects = session.chosen(Some(direction)).1;
    let report = session.game.report(direction);
    let rest = seq![
        Effect::Redraw(Notice::GameOver),
        Effect::LogEnd(EndReason::GameOver),
        Effect::WaitForKey,
        Effect::Exit,
    ];
    assert(session.chosen(None).1 =~= rest);
    if report.game_over {
        assert(effects =~= seq![
            Effect::LogTurn,
            Effect::Redraw(Notice::GameOver),
            Effect::LogEnd(EndReason::GameOver),
            Effect::WaitForKey,
            Effect::Exit,
        ]);
    }
}

/// Where no tile came in for the human, the bot gets the one that is shown next, and a 3 where it
/// is not known which one that will be.
pub proof fn a_bot_without_a_shared_tile_gets_the_next_one(session: HumanModel)
    requires
        session.turn is Some,
    ensures
        ({
            let spawn = session.turn->Some_0.spawn;
            let ranks = session.game.next.ranks();
            &&& spawn is Some ==> session.shared_rank() == spawn->Some_0.rank
            &&& spawn is None && ranks.len() == 1 ==> session.shared_rank() == ranks[0]
            &&& spawn is None && ranks.len() != 1 ==> session.shared_rank() == 3
        }),
{
}

/// A bot that gave up, or that has no move left, does not go on; every other one does.
pub proof fn a_bot_goes_on_while_it_has_a_move(opponent: OpponentModel)
    ensures
        !opponent.active ==> !opponent.goes_on(),
        opponent.active ==> (opponent.goes_on() <==> exists|direction: Direction|
            #[trigger] crate::board::moves(opponent.game.board, direction)),
{
}

} // verus!

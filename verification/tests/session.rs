use threes::session::{
    step_bot_opponent_turn, BotOpponentState, BotSession, Effect, EndReason, HumanSession, Notice,
    Phase,
};
use threes::tui::Action;
use threes::{Direction, Game};

fn choose_move(wanted: Direction, game: &Game) -> Option<Direction> {
    if game.legal_directions().contains(&wanted) {
        Some(wanted)
    } else {
        None
    }
}

fn fresh_state() -> BotOpponentState {
    BotOpponentState {
        last_move: None,
        active: true,
        last_status: None,
    }
}

fn farewell() -> Vec<Effect> {
    vec![
        Effect::LogEnd(EndReason::GameOver),
        Effect::WaitForKey,
        Effect::Exit,
    ]
}

#[test]
fn step_bot_turn_without_mirroring_updates_opponent_next() {
    let mut opponent_game = Game::new(123);
    let legal = opponent_game.legal_directions();
    let Some(direction) = legal.first().copied() else {
        panic!("game should have a legal move in test fixture");
    };

    let mut expected = opponent_game.clone();
    expected.step(direction);

    let mut state = fresh_state();
    let direction = choose_move(direction, &opponent_game);
    step_bot_opponent_turn(&mut opponent_game, &mut state, direction, &None, None, false);

    assert_eq!(
        opponent_game.next_tile().display_label(),
        expected.next_tile().display_label()
    );
    assert_eq!(opponent_game.score(), expected.score());
    assert_eq!(opponent_game.board(), expected.board());
}

#[test]
fn a_mirrored_turn_shows_the_same_next_tile() {
    let mut human = Game::new(123);
    let mut bot = Game::new(123);
    let direction = human.legal_directions()[0];
    let result = human.step(direction);
    let rank = result.spawn.unwrap().rank;
    let bot_direction = *bot.legal_directions().last().unwrap();
    let mut state = fresh_state();
    let next = Some(human.next_tile().clone());
    let goes_on =
        step_bot_opponent_turn(&mut bot, &mut state, Some(bot_direction), &next, Some(rank), true);
    assert!(goes_on);
    assert_eq!(
        bot.next_tile().display_label(),
        human.next_tile().display_label()
    );
    let last = state.last_move.unwrap();
    assert_eq!(last.direction, bot_direction);
    assert_eq!(bot.board().get_index(last.spawn_idx.unwrap()), rank);
}

#[test]
fn a_bot_without_a_move_gives_up() {
    let mut game = Game::new(123);
    let before = game.board();
    let mut state = fresh_state();
    assert!(!step_bot_opponent_turn(&mut game, &mut state, None, &None, None, false));
    assert!(!state.active);
    assert!(state.last_move.is_none());
    assert!(!step_bot_opponent_turn(
        &mut game,
        &mut state,
        Some(Direction::Left),
        &None,
        None,
        false
    ));
    assert_eq!(game.board(), before);
}

#[test]
fn a_human_plays_alone() {
    let mut session = HumanSession::new(123, false);
    assert_eq!(
        session.start(),
        vec![
            Effect::LogStart,
            Effect::Redraw(Notice::Help),
            Effect::ReadAction
        ]
    );
    let mut expected = Game::new(123);
    let direction = expected.legal_directions()[0];
    expected.step(direction);
    assert_eq!(
        session.on_action(Action::Move(direction), 30),
        vec![
            Effect::LogTurn,
            Effect::Redraw(Notice::Help),
            Effect::ReadAction
        ]
    );
    assert_eq!(session.game.board(), expected.board());
    assert_eq!(session.last_move.unwrap().direction, direction);
    assert!(session.turn.as_ref().unwrap().accepted);
    assert_eq!(
        session.on_action(Action::Nothing, 1),
        vec![Effect::ReadAction]
    );
    assert_eq!(
        session.on_action(Action::Terminate, 1),
        vec![Effect::LogEnd(EndReason::Terminated), Effect::Exit]
    );
}

#[test]
fn questions_are_asked_before_quitting_and_restarting() {
    let mut session = HumanSession::new(123, false);
    assert_eq!(
        session.on_action(Action::Quit, 1),
        vec![Effect::Redraw(Notice::QuitQuestion), Effect::ReadAnswer]
    );
    assert_eq!(
        session.on_answer(false),
        vec![Effect::Redraw(Notice::Help), Effect::ReadAction]
    );
    session.on_action(Action::Restart, 1);
    assert_eq!(session.phase, Phase::ConfirmingRestart);
    assert_eq!(
        session.on_answer(true),
        vec![Effect::LogEnd(EndReason::Restart), Effect::NewSeed]
    );
    assert_eq!(
        session.on_seed(9),
        vec![
            Effect::LogStart,
            Effect::Redraw(Notice::Help),
            Effect::ReadAction
        ]
    );
    assert_eq!(session.game.seed(), 9);
    session.on_action(Action::Quit, 1);
    assert_eq!(
        session.on_answer(true),
        vec![Effect::LogEnd(EndReason::Quit), Effect::Exit]
    );
    assert_eq!(session.message(Notice::QuitQuestion), "Quit? y/n");
    assert_eq!(session.message(Notice::RestartQuestion), "Restart? y/n");
    assert_eq!(
        session.message(Notice::Help),
        "arrows, wasd/hjkl to move; q quit; r restart"
    );
    assert_eq!(
        session.message(Notice::BotContinues),
        "human finished, bot continues"
    );
    assert!(session.message(Notice::GameOver).starts_with("GAME OVER"));
}

#[test]
fn a_bot_plays_beside_a_human() {
    let mut session = HumanSession::new(123, true);
    assert_eq!(
        session.start(),
        vec![
            Effect::LogStart,
            Effect::Redraw(Notice::Help),
            Effect::RequestMove(None),
            Effect::ReadAction
        ]
    );
    let direction = session.game.legal_directions()[0];
    assert_eq!(
        session.on_action(Action::Move(direction), 250),
        vec![Effect::CancelAndTakeReply]
    );
    assert_eq!(session.phase, Phase::AwaitingReply);
    let reply = session.opponent.as_ref().unwrap().game.legal_directions()[0];
    assert_eq!(
        session.on_reply(Some(reply), Some("thinking".to_string())),
        vec![
            Effect::LogTurn,
            Effect::RequestMove(Some(250)),
            Effect::Redraw(Notice::Help),
            Effect::ReadAction
        ]
    );
    let opponent = session.opponent.as_ref().unwrap();
    assert_eq!(opponent.state.last_status, Some("thinking".to_string()));
    assert_eq!(opponent.game.accepted_moves(), 1);
    assert_eq!(
        opponent.game.next_tile().display_label(),
        session.game.next_tile().display_label()
    );
}

#[test]
fn a_sitting_with_a_bot_comes_to_its_end() {
    let mut session = HumanSession::new(5, true);
    let mut steps = 0;
    let mut human_done = false;
    let mut effects = session.start();
    while *effects.last().unwrap() != Effect::Exit {
        steps += 1;
        assert!(steps < 20_000);
        effects = match *effects.last().unwrap() {
            Effect::ReadAction => {
                let direction = session.game.legal_directions()[0];
                session.on_action(Action::Move(direction), 7)
            }
            Effect::CancelAndTakeReply => {
                let game = &session.opponent.as_ref().unwrap().game;
                let reply = game.legal_directions().first().copied();
                session.on_reply(reply, None)
            }
            Effect::TakeReply => {
                human_done = true;
                let game = &session.opponent.as_ref().unwrap().game;
                let reply = game.legal_directions().last().copied();
                session.on_reply(reply, None)
            }
            other => panic!("unexpected {other:?}"),
        };
    }
    assert!(session.game.is_game_over());
    assert!(!session.opponent.as_ref().unwrap().state.active || human_done);
    let end = effects.len();
    assert_eq!(effects[end - 3..].to_vec(), farewell());
    assert_eq!(session.phase, Phase::Done);
}

#[test]
fn a_bot_is_watched() {
    let mut session = BotSession::new(8);
    assert_eq!(
        session.start(),
        vec![
            Effect::LogStart,
            Effect::Redraw(Notice::BotStatus),
            Effect::PollAction
        ]
    );
    assert_eq!(
        session.on_action(Action::Nothing),
        vec![Effect::ChooseMove]
    );
    assert_eq!(
        session.on_action(Action::Move(Direction::Up)),
        vec![Effect::ChooseMove]
    );
    assert_eq!(
        session.on_action(Action::Quit),
        vec![Effect::LogEnd(EndReason::Quit), Effect::Exit]
    );
    assert_eq!(
        session.on_action(Action::Terminate),
        vec![Effect::LogEnd(EndReason::Terminated), Effect::Exit]
    );
    assert_eq!(
        session.on_action(Action::Restart),
        vec![Effect::LogEnd(EndReason::Restart), Effect::NewSeed]
    );
    let direction = session.game.legal_directions()[0];
    assert_eq!(
        session.on_choice(Some(direction)),
        vec![
            Effect::LogTurn,
            Effect::Redraw(Notice::BotStatus),
            Effect::PollAction
        ]
    );
    assert_eq!(session.game.accepted_moves(), 1);
    assert_eq!(
        session.on_seed(4),
        vec![
            Effect::NewBot,
            Effect::LogStart,
            Effect::Redraw(Notice::BotStatus),
            Effect::PollAction
        ]
    );
    assert_eq!(session.game.seed(), 4);
    let mut expected = vec![Effect::Redraw(Notice::GameOver)];
    expected.extend(farewell());
    assert_eq!(session.on_choice(None), expected);
}

#[test]
fn reasons_have_names() {
    assert_eq!(EndReason::GameOver.as_str(), "game_over");
    assert_eq!(EndReason::Quit.as_str(), "quit");
    assert_eq!(EndReason::Restart.as_str(), "restart");
    assert_eq!(EndReason::Terminated.as_str(), "terminated");
}

#[test]
fn a_picture_of_two_games_shows_both() {
    let session = HumanSession::new(123, true);
    let ops = session.redraw(Notice::Help, false);
    let shown = format!("{:?}", ops);
    assert!(shown.contains("you "));
    assert!(shown.contains("bot "));
    assert!(shown.contains("bot next "));
    let alone = HumanSession::new(123, false);
    let shown = format!("{:?}", alone.redraw(Notice::Help, true));
    assert!(shown.contains("Threes "));
    assert!(shown.contains("Foreground"));
    let watched = BotSession::new(123);
    let shown = format!("{:?}", watched.redraw(Notice::BotStatus, "status", false));
    assert!(shown.contains("status"));
}

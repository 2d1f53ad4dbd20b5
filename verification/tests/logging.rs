use threes::logging::{
    board_text, display_bonus_forecast, display_cell, end_text, start_text, turn_text, AbConfigLog,
    RunConfigLog, SCHEMA_VERSION,
};
use threes::Game;

fn config(ab: Option<AbConfigLog>) -> RunConfigLog {
    RunConfigLog {
        mode: "human".to_string(),
        seed_source: "explicit".to_string(),
        speed_hz: "4".to_string(),
        color: "auto".to_string(),
        ab,
    }
}

fn rows(board: &[u64; 16]) -> String {
    let mut text = String::new();
    for row in board.chunks(4) {
        let cells: Vec<String> = row
            .iter()
            .map(|face| {
                let cell = if *face == 0 {
                    ".".to_string()
                } else {
                    face.to_string()
                };
                format!("{cell:>6}")
            })
            .collect();
        text.push_str(&cells.join(" "));
        text.push('\n');
    }
    text
}

#[test]
fn the_log_has_a_version() {
    assert_eq!(SCHEMA_VERSION, 1);
}

#[test]
fn cells_are_shown_as_faces() {
    assert_eq!(display_cell(0), ".");
    assert_eq!(display_cell(192), "192");
}

#[test]
fn boards_are_shown_row_by_row() {
    let mut board = [0u64; 16];
    board[0] = 1;
    board[5] = 12288;
    board[15] = 123456789;
    assert_eq!(board_text(&board), rows(&board));
}

#[test]
fn the_start_is_logged() {
    let game = Game::new(1);
    let snapshot = game.snapshot();
    assert_eq!(
        start_text(&snapshot, &config(None)),
        format!(
            "START seed=1 score={}\nmode=human seed_source=explicit speed_hz=4 color=auto\n\
             next={}\nbonus_forecast=locked\n{}\n",
            snapshot.score,
            snapshot.next_tile.display_label(),
            rows(&snapshot.board)
        )
    );
}

#[test]
fn the_settings_of_a_bot_are_logged() {
    let game = Game::new(1);
    let ab = AbConfigLog {
        depth: 3,
        alpha: "-inf".to_string(),
        beta: "2.5".to_string(),
        dfs: true,
        time_limit_ms: Some(100),
        node_limit: None,
    };
    let text = start_text(&game.snapshot(), &config(Some(ab)));
    assert!(text.contains(
        "\nab depth=3 alpha=-inf beta=2.5 time_limit_ms=Some(100) node_limit=None\nab dfs=true\n"
    ));
}

#[test]
fn a_turn_is_logged() {
    let mut game = Game::new(123);
    let direction = game.legal_directions()[0];
    let result = game.step(direction);
    let spawn = result.spawn.as_ref().unwrap();
    assert_eq!(
        turn_text(&result),
        format!(
            "TURN move={} accepted=true score={} high={}\n\
             spawn row={} col={} value={} source={:?} preview={}\n\
             next={}\nbonus_forecast={}\n{}\n",
            direction.as_str(),
            result.score,
            result.high_tile,
            spawn.row,
            spawn.col,
            spawn.face,
            spawn.source,
            spawn.preview.display_label(),
            result.next_tile.display_label(),
            display_bonus_forecast(&result.bonus_forecast),
            rows(&result.board_after_spawn)
        )
    );
}

#[test]
fn the_end_is_logged() {
    let game = Game::new(5);
    let snapshot = game.snapshot();
    assert_eq!(
        end_text("quit", &snapshot),
        format!(
            "END reason=quit seed=5 score={} high={} accepted_moves=0 attempted_moves=0\n{}\n",
            snapshot.score,
            snapshot.high_tile,
            rows(&snapshot.board)
        )
    );
}

use threes::bot::{AbBot, AbConfig, AbSearchStats, BotKind};
use threes::forecast::{BonusForecast, BonusForecastSlot};
use threes::probability::Probability;
use threes::screen::{draw_game, draw_next_pair, draw_tile, DrawOp};
use threes::search::{Judge, WeightedValue};
use threes::tui::{
    ab_log_config, bonus_forecast_label, bot_mode, bot_status, center_label, direction_arrow,
    fit_label, format_opponent_status, format_state_layers, game_over_message,
    human_move_budget_ms, key_to_action, key_to_answer, last_move_label, log_bound,
    previous_label, seed_source, tile_colors, tile_label, Action, ColorMode, Key, LastMoveView,
    ShownSearch, TileColor, TILE_HEIGHT, TILE_WIDTH,
};
use threes::{Direction, Game, NextTile};

fn chance(numerator: u64, denominator: u64) -> Probability {
    Probability { numerator, denominator }
}

fn forecast(slots: Vec<(u8, Probability)>) -> BonusForecast {
    BonusForecast {
        unlocked: true,
        cycle_position: Some(0),
        bonus_seen_this_cycle: false,
        slots: slots
            .into_iter()
            .map(|(accepted_moves_from_now, probability)| BonusForecastSlot {
                accepted_moves_from_now,
                probability,
            })
            .collect(),
    }
}

fn stats() -> AbSearchStats {
    AbSearchStats {
        predicted_states: 10,
        pruned_states: 4,
        cache_hits: 1,
        cache_misses: 9,
        searched_depth: 3,
        selected_score: 0,
        board_eval: 0,
    }
}

fn shown(layers: Vec<u64>) -> ShownSearch {
    ShownSearch {
        stats: stats(),
        eval: "12.5".to_string(),
        best: "99.0".to_string(),
        layers,
    }
}

fn texts(ops: &Vec<DrawOp>) -> String {
    let mut text = String::new();
    for op in ops {
        if let DrawOp::Text(part) = op {
            text.push_str(part);
        }
    }
    text
}

#[test]
fn tile_labels_fit_fixed_width() {
    assert_eq!(center_label("3").chars().count(), TILE_WIDTH);
    assert_eq!(center_label("12288").chars().count(), TILE_WIDTH);
    assert_eq!(fit_label("1234567890").chars().count(), TILE_WIDTH);
}

#[test]
fn tile_shape_is_terminal_square() {
    assert_eq!(TILE_WIDTH, TILE_HEIGHT * 2);
}

#[test]
fn game_over_message_contains_final_score() {
    let game = Game::new(123);
    assert!(game_over_message(&game).contains("final score"));
    assert!(game_over_message(&game).contains(&game.score().to_string()));
}

#[test]
fn bot_status_mentions_bot_and_speed() {
    let status = bot_status(BotKind::Random.name(), &format!("{}", 4.0), &None, &None);
    assert!(status.contains("random"));
    assert!(status.contains("4"));
}

#[test]
fn bot_status_includes_ab_stats_after_move() {
    let mut bot = AbBot::new(AbConfig::default());
    let game = Game::new(123);
    let judge = Judge {
        evaluate: |game: &Game| game.score() as i64,
        expect: |values: &Vec<WeightedValue>| {
            values.iter().map(|item| item.value).max().unwrap_or(0)
        },
        stop: |_poll: u64| false,
    };
    bot.choose_move(&game, &judge);
    let stats = bot.search_stats().unwrap();
    let search = ShownSearch {
        stats,
        eval: format!("{:.1}", stats.board_eval as f64),
        best: format!("{:.1}", stats.selected_score as f64),
        layers: vec![],
    };

    let eval = bot
        .board_eval(&game, &judge)
        .map(|eval| format!("{:.1}", eval as f64));
    let status = bot_status("ab", &format!("{}", 4.0), &eval, &Some(search));
    assert!(status.contains("pred"));
    assert!(status.contains("cache"));
    assert!(status.contains("best"));
    assert!(status.contains(";"));
    assert!(status.contains("/"));
}

#[test]
fn direction_arrows_are_utf8_symbols() {
    assert_eq!(direction_arrow(Direction::Up), "↑");
    assert_eq!(direction_arrow(Direction::Down), "↓");
    assert_eq!(direction_arrow(Direction::Left), "←");
    assert_eq!(direction_arrow(Direction::Right), "→");
}

#[test]
fn last_move_label_shows_face_value_and_arrow() {
    let label = last_move_label(&LastMoveView {
        direction: Direction::Left,
        tile_face: 48,
        spawn_idx: None,
        merged_cells: [false; 16],
    });
    assert_eq!(label, "previous ← 48");
}

#[test]
fn bonus_forecast_label_shows_first_nonzero_probability() {
    let forecast = forecast(vec![(0, chance(0, 1)), (1, chance(1, 20))]);
    assert_eq!(bonus_forecast_label(&forecast), "+1 5.0%");
}

#[test]
fn forecasts_are_rounded_to_tenths() {
    assert_eq!(
        bonus_forecast_label(&forecast(vec![(3, chance(1, 3))])),
        "+3 33.3%"
    );
    assert_eq!(
        bonus_forecast_label(&forecast(vec![(3, chance(1, 6))])),
        "+3 16.7%"
    );
    assert_eq!(
        bonus_forecast_label(&forecast(vec![(3, chance(1, 16))])),
        format!("+3 {:.1}%", 1.0 / 16.0 * 100.0)
    );
    assert_eq!(
        bonus_forecast_label(&forecast(vec![(0, chance(1, 1))])),
        "+0 100.0%"
    );
    assert_eq!(
        bonus_forecast_label(&forecast(vec![(0, chance(0, 1))])),
        "none"
    );
    let mut locked = forecast(vec![(0, chance(1, 1))]);
    locked.unlocked = false;
    assert_eq!(bonus_forecast_label(&locked), "locked");
    for cases in 1..=21u64 {
        let percent = 1.0 / cases as f64 * 100.0;
        assert_eq!(
            bonus_forecast_label(&forecast(vec![(2, chance(1, cases))])),
            format!("+2 {percent:.1}%")
        );
    }
}

#[test]
fn labels_stand_in_the_middle() {
    assert_eq!(center_label("3"), "   3    ");
    assert_eq!(center_label("12288"), " 12288  ");
    assert_eq!(center_label("123456789"), "12345678");
    assert_eq!(fit_label("12"), "12      ");
    assert_eq!(fit_label("12345678"), "12345678");
    assert_eq!(tile_label(0), "   .    ");
    assert_eq!(tile_label(5), "   12   ");
}

#[test]
fn tiles_have_their_colors() {
    assert_eq!(
        tile_colors(0),
        (TileColor::Ansi(250), TileColor::Ansi(238))
    );
    assert_eq!(tile_colors(1), (TileColor::White, TileColor::Ansi(25)));
    assert_eq!(tile_colors(2), (TileColor::White, TileColor::Ansi(160)));
    assert_eq!(tile_colors(5), (TileColor::Black, TileColor::Ansi(253)));
    assert_eq!(tile_colors(8), (TileColor::Black, TileColor::Ansi(250)));
    assert_eq!(tile_colors(11), (TileColor::White, TileColor::Ansi(244)));
    assert_eq!(tile_colors(12), (TileColor::White, TileColor::Ansi(239)));
}

#[test]
fn color_modes_have_names_and_effects() {
    assert_eq!(ColorMode::Auto.as_str(), "auto");
    assert_eq!(ColorMode::Always.as_str(), "always");
    assert_eq!(ColorMode::Never.as_str(), "never");
    assert!(ColorMode::Auto.uses_color(true));
    assert!(!ColorMode::Auto.uses_color(false));
    assert!(ColorMode::Always.uses_color(false));
    assert!(!ColorMode::Never.uses_color(true));
}

#[test]
fn a_status_lists_what_is_known() {
    assert_eq!(
        bot_status("random", "4", &None, &None),
        "bot random running at 4 Hz; q quit; r restart"
    );
    assert_eq!(
        bot_status("ab", "4", &Some("7.0".to_string()), &None),
        "bot ab running at 4 Hz [eval 7.0]; q quit; r restart"
    );
    assert_eq!(
        bot_status("ab", "2.5", &Some("7.0".to_string()), &Some(shown(vec![]))),
        "bot ab running at 2.5 Hz [eval 7.0, d 3, pred 6 (4 pruned), cache 1h/9m, best 99.0]; \
         q quit; r restart"
    );
    assert_eq!(format_opponent_status("ab", &None), None);
    assert_eq!(
        format_opponent_status("ab", &Some(shown(vec![4, 9]))),
        Some(
            "bot ab [eval 12.5, d 3, pred 6 (4 pruned), cache 1h/9m, best 99.0, 4/3]".to_string()
        )
    );
}

#[test]
fn layers_show_how_they_grow() {
    assert_eq!(format_state_layers(3, &vec![]), None);
    assert_eq!(
        format_state_layers(3, &vec![4, 9, 18]),
        Some("4/3/2".to_string())
    );
    assert_eq!(
        format_state_layers(1, &vec![0, 9]),
        Some("0/0".to_string())
    );
}

#[test]
fn bounds_are_logged_as_words_where_they_have_no_end() {
    assert_eq!(log_bound(i64::MAX, "x"), "inf");
    assert_eq!(log_bound(i64::MIN, "x"), "-inf");
    assert_eq!(log_bound(5, "2.5"), "2.5");
    assert!(ab_log_config(BotKind::Random, "a", "b").is_none());
    let config = AbConfig {
        beta: 7,
        ..AbConfig::default()
    };
    let log = ab_log_config(BotKind::Ab(config), "a", "b").unwrap();
    assert_eq!(log.depth, 3);
    assert_eq!(log.alpha, "-inf");
    assert_eq!(log.beta, "b");
    assert!(!log.dfs);
    assert_eq!(seed_source(Some(1)), "explicit");
    assert_eq!(seed_source(None), "time");
    assert_eq!(bot_mode("ab"), "bot:ab");
}

#[test]
fn a_bot_gets_as_long_as_the_human_took() {
    assert_eq!(human_move_budget_ms(0), 1);
    assert_eq!(human_move_budget_ms(250), 250);
    assert_eq!(human_move_budget_ms(u128::MAX), u64::MAX);
}

#[test]
fn keys_have_their_meanings() {
    for (key, direction) in [
        (Key::Left, Direction::Left),
        (Key::Char('a'), Direction::Left),
        (Key::Char('h'), Direction::Left),
        (Key::Right, Direction::Right),
        (Key::Char('d'), Direction::Right),
        (Key::Char('l'), Direction::Right),
        (Key::Up, Direction::Up),
        (Key::Char('w'), Direction::Up),
        (Key::Char('k'), Direction::Up),
        (Key::Down, Direction::Down),
        (Key::Char('s'), Direction::Down),
        (Key::Char('j'), Direction::Down),
    ] {
        assert_eq!(key_to_action(key, false), Action::Move(direction));
    }
    assert_eq!(key_to_action(Key::Char('q'), false), Action::Quit);
    assert_eq!(key_to_action(Key::Char('r'), false), Action::Restart);
    assert_eq!(key_to_action(Key::Char('c'), true), Action::Terminate);
    assert_eq!(key_to_action(Key::Char('c'), false), Action::Nothing);
    assert_eq!(key_to_action(Key::Escape, false), Action::Nothing);
    assert_eq!(key_to_answer(Key::Char('y')), Some(true));
    assert_eq!(key_to_answer(Key::Char('Y')), Some(true));
    assert_eq!(key_to_answer(Key::Char('n')), Some(false));
    assert_eq!(key_to_answer(Key::Char('N')), Some(false));
    assert_eq!(key_to_answer(Key::Escape), Some(false));
    assert_eq!(key_to_answer(Key::Char('x')), None);
    assert_eq!(key_to_answer(Key::Left), None);
}

#[test]
fn a_tile_is_marked_where_it_is_new_or_merged() {
    let mut ops = Vec::new();
    draw_tile(&mut ops, 4, "  6", true, true, true);
    let shown: Vec<String> = ops.iter().map(|op| format!("{:?}", op)).collect();
    assert_eq!(
        shown,
        vec![
            "Foreground(Black)",
            "Background(Ansi(253))",
            "Bold",
            "Text(\"  \")",
            "Underlined",
            "Text(\"6\")",
            "NoUnderline",
            "Text(\"     \")",
            "ResetAttributes",
            "ResetColor",
        ]
    );
    let mut plain = Vec::new();
    draw_tile(&mut plain, 0, "", false, true, false);
    let shown: Vec<String> = plain.iter().map(|op| format!("{:?}", op)).collect();
    assert_eq!(
        shown,
        vec!["Text(\"        \")", "ResetAttributes", "ResetColor"]
    );
}

#[test]
fn a_picture_shows_the_game() {
    let game = Game::new(123);
    let ops = draw_game(&game, &None, false, "hello");
    let text = texts(&ops);
    let lines: Vec<&str> = text.split("\r\n").collect();
    assert_eq!(lines[0], format!("Threes {:>18} pts", game.score()));
    assert_eq!(
        lines[1],
        format!("seed 123  moves 0  high {}", game.high_tile())
    );
    assert_eq!(
        lines[2],
        format!(
            "next {}  previous -  bonus locked",
            game.next_tile().display_label()
        )
    );
    let mut row = String::new();
    for col in 0..4 {
        row.push_str(&tile_label(game.board().get(0, col)));
    }
    assert_eq!(lines[4], " ".repeat(32));
    assert_eq!(lines[5], row);
    assert_eq!(lines.len(), 24);
    assert_eq!(lines[22], "hello");
}

#[test]
fn two_next_tiles_stand_below_their_boards() {
    let mut ops = Vec::new();
    let known = NextTile::Basic { rank: 3, face: 3 };
    let unknown = NextTile::Bonus {
        ranks: vec![4, 5],
        faces: vec![6, 12],
    };
    draw_next_pair(&mut ops, &known, &unknown, false);
    assert_eq!(
        texts(&ops),
        format!(
            "you next {}{}bot next {}\r\n",
            center_label("3"),
            " ".repeat(19),
            center_label("+")
        )
    );
    assert_eq!(previous_label(&None), "previous -");
}

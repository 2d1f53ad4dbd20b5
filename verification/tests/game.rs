use threes::dice::Dice;
use threes::draw::DrawState;
use threes::forecast::BonusTracker;
use threes::game::{next_seed, seed_of_moment, seed_of_reading, SpawnSource};
use threes::probability::Probability;
use threes::{Board, Direction, Game, NextTile};

fn share(probability: Probability) -> f64 {
    probability.numerator as f64 / probability.denominator as f64
}

#[test]
fn initial_board_has_nine_tiles_and_basic_distribution_remaining() {
    let game = Game::new(7);
    let occupied = game
        .board()
        .ranks()
        .into_iter()
        .filter(|rank| *rank != 0)
        .count();
    assert_eq!(occupied, 9);
    assert!(matches!(game.next_tile(), NextTile::Basic { .. }));
}

#[test]
fn deterministic_seed_replays_initial_board() {
    let a = Game::new(123);
    let b = Game::new(123);
    assert_eq!(a.board(), b.board());
    assert_eq!(
        format!("{:?}", a.next_tile()),
        format!("{:?}", b.next_tile())
    );
}

#[test]
fn fixed_seed_replays_moves() {
    let mut a = Game::new(123);
    let mut b = Game::new(123);
    for direction in [
        Direction::Left,
        Direction::Up,
        Direction::Right,
        Direction::Down,
        Direction::Left,
    ] {
        let ar = a.step(direction);
        let br = b.step(direction);
        assert_eq!(format!("{:?}", ar), format!("{:?}", br));
    }
}

#[test]
fn bonus_windows_are_consecutive_and_limited_to_three() {
    let mut dice = Dice::seeded(3);
    let mut draw = DrawState::new(&mut dice);
    draw.bonus_cycle = [true; 21];
    draw.bonus_pos = 0;
    let board = Board::from_ranks([10, 0, 0, 0, 0, 0, 0, 0, 0, 0, 0, 0, 0, 0, 0, 0]);

    for _ in 0..100 {
        match draw.next_tile(&board, &mut dice) {
            NextTile::Bonus { ranks, .. } => {
                assert!((1..=3).contains(&ranks.len()));
                assert!(ranks.windows(2).all(|pair| pair[1] == pair[0] + 1));
                assert!(ranks[0] >= 4);
                assert!(*ranks.last().unwrap() <= 7);
            }
            NextTile::Basic { .. } => panic!("forced cycle should produce bonus"),
        }
    }
}

#[test]
fn one_bonus_slot_per_cycle() {
    let mut dice = Dice::seeded(5);
    let draw = DrawState::new(&mut dice);
    assert_eq!(
        draw.bonus_cycle
            .into_iter()
            .filter(|is_bonus| *is_bonus)
            .count(),
        1
    );
}

#[test]
fn bonus_forecast_is_locked_before_high_tile_unlocks_bonus() {
    let mut tracker = BonusTracker::default();
    tracker.observe_revealed_next(6, &NextTile::Basic { rank: 1, face: 1 });

    let forecast = tracker.forecast(3);
    assert!(!forecast.unlocked);
    assert!(forecast.slots.iter().all(|slot| share(slot.probability) == 0.0));
}

#[test]
fn bonus_forecast_spreads_probability_over_unseen_current_cycle_slots() {
    let mut tracker = BonusTracker::default();
    tracker.observe_revealed_next(7, &NextTile::Basic { rank: 1, face: 1 });

    let forecast = tracker.forecast(3);
    assert!(forecast.unlocked);
    assert_eq!(forecast.cycle_position, Some(0));
    assert_eq!(share(forecast.slots[0].probability), 0.0);
    assert!((share(forecast.slots[1].probability) - 0.05).abs() < f64::EPSILON);
    assert!((share(forecast.slots[2].probability) - 0.05).abs() < f64::EPSILON);
}

#[test]
fn bonus_forecast_knows_current_bonus_and_suppresses_rest_of_cycle() {
    let mut tracker = BonusTracker::default();
    tracker.observe_revealed_next(
        7,
        &NextTile::Bonus {
            ranks: vec![4],
            faces: vec![6],
        },
    );

    let forecast = tracker.forecast(3);
    assert_eq!(share(forecast.slots[0].probability), 1.0);
    assert_eq!(share(forecast.slots[1].probability), 0.0);
    assert_eq!(share(forecast.slots[2].probability), 0.0);
}

#[test]
fn bonus_forecast_resets_after_cycle_wrap_and_observed_basic() {
    let mut tracker = BonusTracker {
        active: true,
        current_offset: 20,
        seen_bonus_offset: Some(5),
    };
    tracker.advance_after_consuming_current();
    tracker.observe_revealed_next(7, &NextTile::Basic { rank: 1, face: 1 });

    let forecast = tracker.forecast(2);
    assert_eq!(forecast.cycle_position, Some(0));
    assert!(!forecast.bonus_seen_this_cycle);
    assert_eq!(share(forecast.slots[0].probability), 0.0);
    assert!((share(forecast.slots[1].probability) - 0.05).abs() < f64::EPSILON);
}

#[test]
fn preview_outcome_probabilities_sum_to_one_for_legal_move() {
    let game = Game::new(123);
    let direction = game.legal_directions()[0];
    let outcomes = game.preview_outcomes(direction);
    let total = outcomes
        .iter()
        .map(|outcome| share(outcome.probability))
        .sum::<f64>();
    assert!((total - 1.0).abs() < f64::EPSILON);
}

#[test]
fn preview_outcomes_do_not_mutate_game() {
    let game = Game::new(123);
    let before = game.snapshot();
    let direction = game.legal_directions()[0];
    let _ = game.preview_outcomes(direction);
    let after = game.snapshot();
    assert_eq!(format!("{:?}", before), format!("{:?}", after));
}

#[test]
fn another_seed_gives_another_game() {
    assert_ne!(Game::new(1).board(), Game::new(2).board());
}

#[test]
fn a_deal_depends_on_the_place_in_the_stream() {
    let mut dice = Dice::seeded(11);
    let first = DrawState::new(&mut dice);
    let second = DrawState::new(&mut dice);
    assert_ne!(
        format!("{:?}", first.basic_deck),
        format!("{:?}", second.basic_deck)
    );
    let mut again = Dice::seeded(11);
    assert_eq!(
        format!("{:?}", DrawState::new(&mut again).basic_deck),
        format!("{:?}", first.basic_deck)
    );
}

#[test]
fn dice_stay_within_their_bounds() {
    let mut dice = Dice::seeded(9);
    let mut seen = [0u32; 6];
    for _ in 0..600 {
        let value = dice.roll(6);
        seen[value as usize] += 1;
    }
    assert!(seen.iter().all(|count| *count > 0));
}

#[test]
fn a_shuffle_keeps_the_items_and_moves_them() {
    let mut dice = Dice::seeded(4);
    let items: Vec<usize> = (0..50).collect();
    let shuffled = dice.shuffle(items.clone());
    assert_ne!(shuffled, items);
    let mut sorted = shuffled.clone();
    sorted.sort();
    assert_eq!(sorted, items);
}

#[test]
fn a_pick_is_one_of_the_items() {
    let mut dice = Dice::seeded(4);
    assert_eq!(dice.pick(&vec![]), None);
    let items = vec![3, 5, 8];
    let mut seen = Vec::new();
    for _ in 0..50 {
        let item = dice.pick(&items).unwrap();
        assert!(items.contains(&item));
        if !seen.contains(&item) {
            seen.push(item);
        }
    }
    assert_eq!(seen.len(), 3);
}

#[test]
fn an_illegal_move_counts_as_a_try_only() {
    let mut game = Game::new(123);
    for _ in 0..2000 {
        let legal = game.legal_directions();
        let illegal = Direction::ALL
            .into_iter()
            .find(|direction| !legal.contains(direction));
        if let Some(direction) = illegal {
            let before = game.snapshot();
            let result = game.step(direction);
            assert!(!result.accepted);
            assert!(result.spawn.is_none());
            assert_eq!(result.board_before, result.board_after_spawn);
            let after = game.snapshot();
            assert_eq!(after.attempted_moves, before.attempted_moves + 1);
            assert_eq!(after.accepted_moves, before.accepted_moves);
            assert_eq!(after.board, before.board);
            return;
        }
        game.step(legal[0]);
    }
    panic!("no illegal move came up");
}

#[test]
fn a_legal_move_adds_one_tile_and_is_previewed() {
    let mut game = Game::new(42);
    let mut moves = 0;
    while !game.is_game_over() && moves < 500 {
        let direction = game.legal_directions()[0];
        let previews: Vec<[u16; 16]> = game
            .preview_outcomes(direction)
            .iter()
            .map(|outcome| outcome.game().board().ranks())
            .collect();
        let slid = game.board().slide(direction).board;
        let result = game.step(direction);
        assert!(result.accepted);
        let spawn = result.spawn.unwrap();
        assert_eq!(slid.get(spawn.row, spawn.col), 0);
        assert_eq!(game.board().get(spawn.row, spawn.col), spawn.rank);
        assert!(previews.contains(&game.board().ranks()));
        moves += 1;
    }
    assert!(game.accepted_moves() == moves);
    assert!(game.is_game_over());
    assert!(game.legal_directions().is_empty());
}

#[test]
fn the_forecast_never_errs() {
    for seed in 0..20 {
        let mut game = Game::new(seed);
        while !game.is_game_over() {
            let forecast = game.bonus_forecast(8);
            let chance = forecast.slots[0].probability;
            let is_bonus = matches!(game.next_tile(), NextTile::Bonus { .. });
            if is_bonus {
                assert!(chance.numerator > 0);
            }
            if forecast.unlocked && forecast.bonus_seen_this_cycle {
                assert!(chance.numerator == 0 || chance.numerator == chance.denominator);
                assert_eq!(is_bonus, chance.numerator == chance.denominator);
            }
            let legal = game.legal_directions();
            let direction = legal[game.accepted_moves() as usize % legal.len()];
            game.step(direction);
        }
    }
}

#[test]
fn a_forced_tile_is_the_one_that_comes() {
    let mut game = Game::new(123);
    let direction = game.legal_directions()[0];
    game.force_next_tile(NextTile::Basic { rank: 3, face: 3 });
    assert_eq!(game.next_tile().display_label(), "3");
    let result = game.step_with_forced_next(direction, 5);
    let spawn = result.spawn.unwrap();
    assert_eq!(spawn.rank, 5);
    assert_eq!(spawn.face, 12);
    assert_eq!(spawn.source, SpawnSource::Basic);
    assert_eq!(game.board().get(spawn.row, spawn.col), 5);
}

#[test]
fn next_tiles_show_what_they_can_be() {
    let basic = NextTile::Basic { rank: 2, face: 2 };
    assert_eq!(basic.display_label(), "2");
    assert_eq!(basic.rank_signature(), vec![2]);
    assert_eq!(basic.single_rank(), Some(2));
    assert_eq!(basic.source(), SpawnSource::Basic);

    let bonus = NextTile::Bonus {
        ranks: vec![4, 5, 6],
        faces: vec![6, 12, 24],
    };
    assert_eq!(bonus.display_label(), "+ 6/12/24");
    assert_eq!(bonus.rank_signature(), vec![4, 5, 6]);
    assert_eq!(bonus.single_rank(), None);
    assert_eq!(bonus.source(), SpawnSource::Bonus);
    let options = bonus.rank_options();
    assert_eq!(options.len(), 3);
    assert_eq!(
        options[1],
        (
            5,
            Probability {
                numerator: 1,
                denominator: 3
            }
        )
    );

    let known = NextTile::Bonus {
        ranks: vec![4],
        faces: vec![6],
    };
    assert_eq!(known.single_rank(), Some(4));
}

#[test]
fn a_snapshot_tells_the_state() {
    let game = Game::new(7);
    let snapshot = game.snapshot();
    assert_eq!(snapshot.seed, 7);
    assert_eq!(snapshot.board, game.board().face_values());
    assert_eq!(snapshot.score, game.score());
    assert_eq!(snapshot.high_tile, game.high_tile());
    assert_eq!(snapshot.accepted_moves, 0);
    assert_eq!(snapshot.attempted_moves, 0);
    assert_eq!(snapshot.legal_moves_mask, game.board().legal_moves_mask());
}

#[test]
fn seeds_come_from_the_clock_unless_given() {
    assert_eq!(next_seed(Some(5)), 5);
    assert_eq!(seed_of_moment(1, 0), 1);
    assert_eq!(seed_of_moment(1, 1), 4_294_967_297);
    assert!(next_seed(None) != 0);
}

#[test]
fn a_clock_before_the_epoch_counts_as_the_epoch() {
    assert_eq!(seed_of_reading(None), 0);
    assert_eq!(seed_of_reading(Some((7, 9))), 7 + 9 * 4_294_967_296);
}

#[test]
fn a_deal_holds_a_basic_rank_at_most_four_times() {
    for seed in 0..200 {
        let game = Game::new(seed);
        let mut counts = [0; 4];
        for rank in game.board().ranks() {
            counts[rank as usize] += 1;
        }
        let NextTile::Basic { rank, .. } = game.next_tile() else {
            panic!("the first tile to come is a basic one");
        };
        counts[*rank as usize] += 1;
        assert_eq!(counts[0], 7);
        for count in &counts[1..] {
            assert!(*count <= 4);
        }
        assert_eq!(counts[1] + counts[2] + counts[3], 10);
    }
}

#[test]
fn one_outcome_shows_the_new_tile() {
    let mut game = Game::new(42);
    let mut bonus_tiles = 0;
    while !game.is_game_over() {
        let legal = game.legal_directions();
        let direction = legal[game.accepted_moves() as usize % legal.len()];
        let outcomes = game.preview_outcomes(direction);
        let result = game.step(direction);
        let spawn = result.spawn.unwrap();
        let matching: Vec<_> = outcomes
            .iter()
            .filter(|outcome| {
                (outcome.row, outcome.col, outcome.face) == (spawn.row, spawn.col, spawn.face)
            })
            .collect();
        assert_eq!(matching.len(), 1);
        let previewed = matching[0].game();
        assert_eq!(previewed.board(), game.board());
        assert_eq!(
            format!("{:?}", previewed.next_tile()),
            format!("{:?}", game.next_tile())
        );
        assert_eq!(previewed.accepted_moves(), game.accepted_moves());
        assert_eq!(previewed.attempted_moves(), game.attempted_moves());
        if spawn.source == SpawnSource::Bonus {
            bonus_tiles += 1;
        }
    }
    assert!(game.accepted_moves() > 0);
    assert!(bonus_tiles < game.accepted_moves());
}

#[test]
fn each_cell_and_rank_has_its_outcome() {
    let mut game = Game::new(42);
    game.force_next_tile(NextTile::Bonus {
        ranks: vec![4, 5, 6],
        faces: vec![6, 12, 24],
    });
    let moved = game.board().slide(Direction::Right).moved_lines;
    let mut expected = Vec::new();
    for row in 0..4 {
        if moved[row] {
            for face in [6, 12, 24] {
                expected.push((row, 0, face));
            }
        }
    }
    assert!(!expected.is_empty());
    let tiles: Vec<(usize, usize, u64)> = game
        .preview_outcomes(Direction::Right)
        .iter()
        .map(|outcome| (outcome.row, outcome.col, outcome.face))
        .collect();
    assert_eq!(tiles, expected);
}

#[test]
fn an_unseen_bonus_is_spread_over_the_rest_of_the_cycle() {
    for offset in 0..20u8 {
        let tracker = BonusTracker {
            active: true,
            current_offset: offset,
            seen_bonus_offset: None,
        };
        let mut total = 0;
        for ahead in 0..=(20 - offset) {
            total += tracker.probability_at(ahead).numerator;
        }
        assert_eq!(total, (20 - offset) as u64);
        assert_eq!(
            tracker.probability_at(1).denominator,
            (20 - offset) as u64
        );
        assert_eq!(tracker.probability_at(21).denominator, 21);
    }
}

#[test]
fn a_tracker_is_known_by_three_numbers() {
    let mut tracker = BonusTracker::default();
    assert_eq!(tracker.signature(), [0, 0, 255]);
    tracker.observe_revealed_next(
        7,
        &NextTile::Bonus {
            ranks: vec![4],
            faces: vec![6],
        },
    );
    assert_eq!(tracker.signature(), [1, 0, 0]);
    tracker.advance_after_consuming_current();
    assert_eq!(tracker.signature(), [1, 1, 0]);
}

#[test]
fn a_fresh_game_has_room() {
    let game = Game::new(3);
    assert!(game.has_room_for(1));
    assert!(game.has_room_for(60_000));
    assert!(!game.has_room_for(u16::MAX));
}

#[test]
fn only_legal_moves_have_outcomes() {
    let mut game = Game::new(77);
    while !game.is_game_over() {
        let legal = game.legal_directions();
        for direction in Direction::ALL {
            assert_eq!(
                legal.contains(&direction),
                !game.preview_outcomes(direction).is_empty()
            );
            assert_eq!(
                legal.contains(&direction),
                game.board().legal_moves_mask() & direction.mask() != 0
            );
        }
        game.step(legal[0]);
    }
    assert_eq!(game.board().legal_moves_mask(), 0);
}

#[test]
fn chances_lie_between_zero_and_one() {
    let mut game = Game::new(78);
    while !game.is_game_over() {
        for slot in game.bonus_forecast(30).slots {
            assert!(slot.probability.denominator > 0);
            assert!(slot.probability.numerator <= slot.probability.denominator);
        }
        let direction = game.legal_directions()[0];
        game.step(direction);
    }
}

#[test]
fn copies_say_the_same() {
    let mut game = Game::new(5);
    let direction = game.legal_directions()[0];
    let outcome = &game.preview_outcomes(direction)[0];
    assert_eq!(
        format!("{:?}", outcome.game().snapshot()),
        format!("{:?}", outcome.clone().game().snapshot())
    );
    let result = game.step(direction);
    assert_eq!(format!("{:?}", result), format!("{:?}", result.clone()));
    let snapshot = game.snapshot();
    assert_eq!(format!("{:?}", snapshot), format!("{:?}", snapshot.clone()));
    let spawn = result.spawn.unwrap();
    assert_eq!(format!("{:?}", spawn), format!("{:?}", spawn.clone()));
}

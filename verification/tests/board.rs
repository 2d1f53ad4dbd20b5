use threes::board::{
    face_to_rank, index, merge_rank, rank_score, rank_to_face, row_col, slide_line_toward_front,
};
use threes::{Board, Direction};

fn line_after(line: [u16; 4]) -> [u16; 4] {
    slide_line_toward_front(line).line
}

#[test]
fn encodes_faces_and_scores() {
    assert_eq!(rank_to_face(0), 0);
    assert_eq!(rank_to_face(1), 1);
    assert_eq!(rank_to_face(2), 2);
    assert_eq!(rank_to_face(3), 3);
    assert_eq!(rank_to_face(4), 6);
    assert_eq!(rank_to_face(9), 192);

    assert_eq!(rank_score(1), 0);
    assert_eq!(rank_score(2), 0);
    assert_eq!(rank_score(3), 3);
    assert_eq!(rank_score(4), 9);
    assert_eq!(rank_score(9), 2187);

    assert_eq!(face_to_rank(0), Some(0));
    assert_eq!(face_to_rank(1), Some(1));
    assert_eq!(face_to_rank(2), Some(2));
    assert_eq!(face_to_rank(3), Some(3));
    assert_eq!(face_to_rank(192), Some(9));
    assert_eq!(face_to_rank(5), None);
}

#[test]
fn slides_one_cell_without_compressing() {
    assert_eq!(line_after([0, 1, 2, 0]), [1, 2, 0, 0]);
    assert_eq!(line_after([0, 3, 3, 0]), [3, 3, 0, 0]);
}

#[test]
fn merges_against_stationary_front_tile() {
    assert_eq!(line_after([1, 2, 0, 0]), [3, 0, 0, 0]);
    assert_eq!(line_after([2, 1, 0, 0]), [3, 0, 0, 0]);
    assert_eq!(line_after([3, 3, 0, 0]), [4, 0, 0, 0]);
}

#[test]
fn does_not_double_merge_in_one_slide() {
    assert_eq!(line_after([1, 2, 3, 0]), [3, 3, 0, 0]);
    assert_eq!(line_after([3, 3, 3, 3]), [4, 3, 3, 0]);
}

#[test]
fn reports_legal_moves() {
    let blocked = Board::from_ranks([1, 3, 1, 3, 3, 1, 3, 1, 1, 3, 1, 3, 3, 1, 3, 1]);
    assert!(!blocked.has_legal_move());

    let mergeable = Board::from_ranks([1, 2, 1, 3, 3, 1, 3, 1, 1, 3, 1, 3, 3, 1, 3, 1]);
    assert!(mergeable.has_legal_move());
}

#[test]
fn faces_and_points_stop_at_the_highest_number() {
    assert_eq!(rank_to_face(65), 13_835_058_055_282_163_712);
    assert_eq!(rank_to_face(66), 9_223_372_036_854_775_808);
    assert_eq!(rank_to_face(67), u64::MAX);
    assert_eq!(rank_to_face(u16::MAX), u64::MAX);
    assert_eq!(rank_score(u16::MAX), u64::MAX);
}

#[test]
fn a_face_that_no_tile_has_gives_no_rank() {
    assert_eq!(face_to_rank(4), None);
    assert_eq!(face_to_rank(9), None);
    assert_eq!(face_to_rank(13_835_058_055_282_163_712), Some(65));
}

#[test]
fn only_a_one_and_a_two_or_equal_tiles_merge() {
    assert_eq!(merge_rank(1, 2), Some(3));
    assert_eq!(merge_rank(2, 1), Some(3));
    assert_eq!(merge_rank(1, 1), None);
    assert_eq!(merge_rank(2, 2), None);
    assert_eq!(merge_rank(0, 0), None);
    assert_eq!(merge_rank(5, 5), Some(6));
    assert_eq!(merge_rank(5, 6), None);
}

#[test]
fn cells_and_places_correspond() {
    assert_eq!(index(2, 3), 11);
    assert_eq!(row_col(11), (2, 3));
}

#[test]
fn directions_have_names_and_bits() {
    assert_eq!(Direction::Up.as_str(), "up");
    assert_eq!(Direction::Down.as_str(), "down");
    assert_eq!(Direction::Left.as_str(), "left");
    assert_eq!(Direction::Right.as_str(), "right");
    let mut bits = 0;
    for direction in Direction::ALL {
        bits |= direction.mask();
    }
    assert_eq!(bits, 15);
}

#[test]
fn a_push_moves_every_line() {
    let board = Board::from_ranks([1, 2, 0, 0, 0, 3, 3, 0, 5, 4, 4, 5, 0, 0, 0, 6]);
    let left = board.slide(Direction::Left);
    assert_eq!(
        left.board.ranks(),
        [3, 0, 0, 0, 3, 3, 0, 0, 5, 5, 5, 0, 0, 0, 6, 0]
    );
    assert!(left.changed);
    assert_eq!(left.moved_lines, [true, true, true, true]);

    let right = board.slide(Direction::Right);
    assert_eq!(
        right.board.ranks(),
        [0, 1, 2, 0, 0, 0, 3, 3, 0, 5, 5, 5, 0, 0, 0, 6]
    );
    assert_eq!(right.moved_lines, [true, true, true, false]);
}

#[test]
fn a_push_against_the_wall_changes_nothing() {
    let board = Board::from_ranks([1, 0, 0, 0, 0, 0, 0, 0, 0, 0, 0, 0, 0, 0, 0, 0]);
    let up = board.slide(Direction::Up);
    assert!(!up.changed);
    assert_eq!(up.board, board);
    assert_eq!(board.legal_directions(), vec![Direction::Down, Direction::Right]);
    assert_eq!(
        board.legal_moves_mask(),
        Direction::Down.mask() | Direction::Right.mask()
    );
}

#[test]
fn a_push_marks_the_merged_cells() {
    let board = Board::from_ranks([3, 3, 0, 0, 0, 0, 0, 0, 0, 0, 0, 0, 0, 0, 0, 0]);
    let slide = board.slide(Direction::Left);
    let mut merged = [false; 16];
    merged[0] = true;
    assert_eq!(slide.merged_cells, merged);
}

#[test]
fn a_push_keeps_the_sum_of_the_faces() {
    let board = Board::from_ranks([1, 2, 5, 5, 0, 3, 3, 0, 5, 4, 4, 5, 2, 1, 0, 6]);
    let before: u64 = board.face_values().iter().sum();
    for direction in Direction::ALL {
        let after: u64 = board.slide(direction).board.face_values().iter().sum();
        assert_eq!(before, after);
    }
}

#[test]
fn a_push_never_lowers_the_score_nor_raises_the_top_by_two() {
    let board = Board::from_ranks([1, 2, 5, 5, 0, 3, 3, 0, 5, 4, 4, 5, 2, 1, 0, 6]);
    for direction in Direction::ALL {
        let after = board.slide(direction).board;
        assert!(after.score() >= board.score());
        assert!(after.high_rank() >= board.high_rank());
        assert!(after.high_rank() <= board.high_rank() + 1);
    }
}

#[test]
fn a_board_counts_its_points_and_free_cells() {
    let board = Board::from_ranks([1, 2, 3, 4, 0, 0, 0, 0, 0, 0, 0, 0, 0, 0, 0, 9]);
    assert_eq!(board.score(), 3 + 9 + 2187);
    assert_eq!(board.high_rank(), 9);
    assert_eq!(board.high_face(), 192);
    assert_eq!(board.empty_indices(), (4..15).collect::<Vec<usize>>());
    assert_eq!(Board::default(), Board::empty());
    assert_eq!(Board::empty().high_face(), 0);
}

#[test]
fn a_cell_can_be_set() {
    let mut board = Board::empty();
    board.set(1, 2, 7);
    board.set_index(15, 4);
    assert_eq!(board.get(1, 2), 7);
    assert_eq!(board.get_index(6), 7);
    assert_eq!(board.get(3, 3), 4);
}

#[test]
fn a_moved_line_frees_its_last_cell() {
    for line in [[0, 1, 2, 3], [1, 2, 4, 4], [5, 5, 1, 2], [3, 0, 3, 1]] {
        let slide = slide_line_toward_front(line);
        assert!(slide.changed);
        assert_eq!(slide.line[3], 0);
    }
    for line in [[1, 3, 1, 3], [4, 0, 0, 0], [0, 0, 0, 0], [1, 1, 2, 2]] {
        let slide = slide_line_toward_front(line);
        assert_eq!(slide.changed, slide.line != line);
    }
}

#[test]
fn a_blocked_board_is_full_and_nothing_merges() {
    let blocked = Board::from_ranks([1, 3, 1, 3, 3, 1, 3, 1, 1, 3, 1, 3, 3, 1, 3, 1]);
    assert!(blocked.legal_directions().is_empty());
    assert!(blocked.empty_indices().is_empty());
    for row in 0..4 {
        for col in 0..3 {
            assert_eq!(merge_rank(blocked.get(row, col), blocked.get(row, col + 1)), None);
            assert_eq!(merge_rank(blocked.get(col, row), blocked.get(col + 1, row)), None);
        }
    }
}

#[test]
fn pushes_are_mirror_images() {
    let board = Board::from_ranks([1, 2, 5, 5, 0, 3, 3, 0, 5, 4, 4, 5, 2, 1, 0, 6]);
    let mut mirrored = Board::empty();
    let mut turned = Board::empty();
    for row in 0..4 {
        for col in 0..4 {
            mirrored.set(row, 3 - col, board.get(row, col));
            turned.set(col, row, board.get(row, col));
        }
    }
    let left = board.slide(Direction::Left).board;
    let right = mirrored.slide(Direction::Right).board;
    let up = turned.slide(Direction::Up).board;
    for row in 0..4 {
        for col in 0..4 {
            assert_eq!(left.get(row, col), right.get(row, 3 - col));
            assert_eq!(left.get(row, col), up.get(col, row));
        }
    }
}

#[test]
fn a_score_is_a_sum_that_is_cut_off() {
    let mut board = Board::empty();
    let mut sum = 0;
    for idx in 0..16 {
        board.set_index(idx, idx as u16);
        sum += rank_score(idx as u16);
    }
    assert_eq!(board.score(), sum);
    let high = Board::from_ranks([u16::MAX; 16]);
    assert_eq!(high.score(), u64::MAX);
}

use checkers::{Board, Direction, Move, PieceColor, PieceData};

fn man(color: PieceColor) -> PieceData {
    PieceData { color, is_active: true, is_king: false }
}

fn king(color: PieceColor) -> PieceData {
    PieceData { color, is_active: true, is_king: true }
}

fn simple(index: usize, end: usize, promoted: bool) -> Move {
    Move { index, end, captured: None, promoted }
}

#[test]
fn start_position_has_only_simple_moves() {
    let mut board = Board::new();
    board.start_new_game(PieceColor::Red);
    let moves = board.get_legal_moves().unwrap();
    assert_eq!(
        moves,
        vec![
            simple(23, 19, false),
            simple(24, 20, false),
            simple(25, 20, false),
            simple(25, 21, false),
            simple(26, 21, false),
            simple(26, 22, false),
            simple(27, 22, false),
        ]
    );
    for i in 0..32 {
        assert_eq!(board.is_marked(i), (19..=22).contains(&i), "square {}", i);
    }
}

#[test]
fn start_position_counts() {
    let mut board = Board::new();
    board.start_new_game(PieceColor::Black);
    assert_eq!(board.player_color(), PieceColor::Black);
    assert_eq!(board.get_player_piece_count(), 9);
    assert_eq!(board.get_enemy_piece_count(), 3);
    assert_eq!(board.get_empty_piece_count(), 20);
    assert!(board.piece_is_enemy(6));
    assert!(board.piece_is_enemy(14));
    assert!(board.piece_is_enemy(17));
    assert!(board.piece_is_player(23));
    assert!(board.piece_is_empty(22));
    assert_eq!(board.piece(31), man(PieceColor::Black));
    assert_eq!(board.piece(6), man(PieceColor::Red));
}

#[test]
fn single_capture_is_forced() {
    let mut board = Board::new();
    board.set_piece(25, man(PieceColor::Red));
    board.set_piece(21, man(PieceColor::Black));
    let expected = vec![Move { index: 25, end: 18, captured: Some(vec![21]), promoted: false }];
    assert_eq!(board.get_legal_moves_piece(25), Some((expected.clone(), true)));
    assert_eq!(board.get_legal_moves(), Some(expected));
}

#[test]
fn king_double_capture_is_one_move() {
    let mut board = Board::new();
    board.set_piece(25, king(PieceColor::Red));
    board.set_piece(21, man(PieceColor::Black));
    board.set_piece(13, man(PieceColor::Black));
    let expected = vec![Move { index: 25, end: 9, captured: Some(vec![21, 13]), promoted: false }];
    assert_eq!(board.get_legal_moves_piece(25), Some((expected.clone(), true)));
    assert_eq!(board.get_legal_moves(), Some(expected));
}

#[test]
fn man_double_capture_changes_direction() {
    let mut board = Board::new();
    board.set_piece(29, man(PieceColor::Red));
    board.set_piece(25, man(PieceColor::Black));
    board.set_piece(17, man(PieceColor::Black));
    let expected = vec![Move { index: 29, end: 13, captured: Some(vec![25, 17]), promoted: false }];
    assert_eq!(board.get_legal_moves(), Some(expected));
}

#[test]
fn left_edge_blocks_leftward_moves() {
    let mut board = Board::new();
    board.set_piece(16, king(PieceColor::Red));
    let (moves, taking) = board.get_legal_moves_piece(16).unwrap();
    assert!(!taking);
    let ends: Vec<usize> = moves.iter().map(|m| m.end).collect();
    assert_eq!(ends, vec![2, 5, 9, 12, 29, 25, 20]);

    let mut board = Board::new();
    board.set_piece(8, man(PieceColor::Red));
    board.set_piece(0, man(PieceColor::Black));
    let (moves, taking) = board.get_legal_moves_piece(8).unwrap();
    assert!(!taking);
    assert_eq!(moves, vec![simple(8, 4, false)]);
}

#[test]
fn capture_removes_exactly_the_captured_pieces() {
    let mut board = Board::new();
    board.set_piece(25, man(PieceColor::Red));
    board.set_piece(21, man(PieceColor::Black));
    board.set_piece(6, man(PieceColor::Black));
    let before = 32 - board.get_empty_piece_count();
    let mov = board.get_legal_moves().unwrap().remove(0);
    let taken = mov.captured.as_ref().unwrap().len() as u8;
    board.move_piece(mov);
    assert_eq!(32 - board.get_empty_piece_count(), before - taken);
    assert_eq!(board.get_enemy_piece_count(), 1);
    assert_eq!(board.get_player_piece_count(), 1);
    assert!(board.piece_is_empty(25));
    assert!(board.piece_is_empty(21));
    assert_eq!(board.piece(18), man(PieceColor::Red));
}

#[test]
fn simple_move_keeps_the_count() {
    let mut board = Board::new();
    board.start_new_game(PieceColor::Red);
    let before = board.get_empty_piece_count();
    let mov = board.get_legal_moves().unwrap().remove(0);
    board.move_piece(mov);
    assert_eq!(board.get_empty_piece_count(), before);
    assert!(board.piece_is_player(19));
    assert!(board.piece_is_empty(23));
}

#[test]
fn promotion_crowns_and_king_stays_king() {
    let mut board = Board::new();
    board.set_piece(5, man(PieceColor::Red));
    let moves = board.get_legal_moves().unwrap();
    assert_eq!(moves, vec![simple(5, 1, true), simple(5, 2, true)]);
    board.move_piece(moves[0].clone());
    assert_eq!(board.piece(1), king(PieceColor::Red));
    let again = board.get_legal_moves().unwrap();
    let ends: Vec<usize> = again.iter().map(|m| m.end).collect();
    assert_eq!(ends, vec![8, 4, 23, 19, 14, 10, 5]);
    assert!(again.iter().all(|m| m.index == 1 && m.captured.is_none() && !m.promoted));
    board.move_piece(again[6].clone());
    assert_eq!(board.piece(5), king(PieceColor::Red));
}

#[test]
fn opponent_man_moves_down_and_promotes() {
    let mut board = Board::new();
    board.set_piece(24, man(PieceColor::Black));
    let (moves, taking) = board.get_legal_moves_piece(24).unwrap();
    assert!(!taking);
    assert_eq!(moves, vec![simple(24, 28, true)]);
}

#[test]
fn capture_elsewhere_freezes_simple_movers() {
    let mut board = Board::new();
    board.set_piece(30, man(PieceColor::Red));
    board.set_piece(25, man(PieceColor::Red));
    board.set_piece(21, man(PieceColor::Black));
    let (alone, taking) = board.get_legal_moves_piece(30).unwrap();
    assert!(!taking);
    assert_eq!(alone, vec![simple(30, 26, false), simple(30, 27, false)]);
    let moves = board.get_legal_moves().unwrap();
    assert_eq!(moves, vec![Move { index: 25, end: 18, captured: Some(vec![21]), promoted: false }]);
}

#[test]
fn blocked_side_has_empty_move_list() {
    let mut board = Board::new();
    board.set_piece(0, man(PieceColor::Red));
    assert_eq!(board.get_legal_moves_piece(0), Some((vec![], false)));
    assert_eq!(board.get_legal_moves(), Some(vec![]));
}

#[test]
fn side_without_pieces_has_no_move_list() {
    let mut board = Board::new();
    board.set_piece(10, man(PieceColor::Black));
    assert_eq!(board.get_legal_moves(), None);
    assert_eq!(board.get_legal_moves_piece(11), None);
}

#[test]
fn own_piece_blocks_and_cannot_be_jumped() {
    let mut board = Board::new();
    board.set_piece(25, man(PieceColor::Red));
    board.set_piece(21, man(PieceColor::Red));
    board.set_piece(20, man(PieceColor::Black));
    board.set_piece(16, man(PieceColor::Black));
    let (moves, taking) = board.get_legal_moves_piece(25).unwrap();
    assert!(!taking);
    assert_eq!(moves, vec![]);
}

#[test]
fn marking_and_resetting_squares() {
    let mut board = Board::new();
    board.mark_squares(&[3, 7]);
    assert!(board.is_marked(3));
    assert!(board.is_marked(7));
    assert!(!board.is_marked(4));
    board.reset_squares();
    assert!((0..32).all(|i| !board.is_marked(i)));
}

#[test]
fn direction_offsets_follow_row_parity() {
    assert_eq!(Direction::UpLeft.get_value(9), -5);
    assert_eq!(Direction::UpLeft.get_value(13), -4);
    assert_eq!(Direction::UpRight.get_value(9), -4);
    assert_eq!(Direction::UpRight.get_value(13), -3);
    assert_eq!(Direction::DownLeft.get_value(9), 3);
    assert_eq!(Direction::DownRight.get_value(13), 5);
    assert!(Direction::UpLeft.is_left() && Direction::UpLeft.is_up());
    assert!(Direction::DownRight.is_right() && Direction::DownRight.is_down());
    assert_eq!(Direction::values().len(), 4);
    assert_eq!(PieceColor::Red.get_opposite(), PieceColor::Black);
    assert_eq!(PieceData::const_default().is_active, false);
}

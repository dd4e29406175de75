use smartypants::ChessPiece::{Bishoph, King, Knight, Pawn, Queen, Rook};
use smartypants::Color::{Black, White};
use smartypants::{BoardPosition, ChessBoard, ChessPiece, Color, MoveMask, Occupant};

fn pos(x: u8, y: u8) -> BoardPosition {
    BoardPosition { x, y }
}

fn board_rows(board: &ChessBoard) -> Vec<Vec<Occupant>> {
    (0..8u8)
        .map(|y| (0..8u8).map(|x| board.get_piece_at_position(&pos(x, y))).collect())
        .collect()
}

fn mask_rows(moves: &MoveMask) -> Vec<Vec<bool>> {
    (0..8u8)
        .map(|y| (0..8u8).map(|x| moves.contains(&pos(x, y))).collect())
        .collect()
}

fn rows(expected: [[bool; 8]; 8]) -> Vec<Vec<bool>> {
    expected.iter().map(|r| r.to_vec()).collect()
}

#[test]
fn board_inits() {
    let board = ChessBoard::init_default();

    let back = |c: Color| {
        vec![
            Some((Rook, c)),
            Some((Knight, c)),
            Some((Bishoph, c)),
            Some((Queen, c)),
            Some((King, c)),
            Some((Bishoph, c)),
            Some((Knight, c)),
            Some((Rook, c)),
        ]
    };
    let pawns = |c: Color| vec![Some((Pawn, c)); 8];
    let empty: Vec<Occupant> = vec![None; 8];
    assert_eq!(
        board_rows(&board),
        vec![
            back(Black),
            pawns(Black),
            empty.clone(),
            empty.clone(),
            empty.clone(),
            empty.clone(),
            pawns(White),
            back(White),
        ]
    );
}

#[test]
fn pawn_moves_correct() {
    let chess_board = ChessBoard::init_default();
    let position = BoardPosition { x: 0, y: 1 };
    assert_eq!(
        chess_board.get_piece_at_position(&position),
        Some((Pawn, Black))
    );

    let moves = ChessPiece::get_moves(&position, &chess_board);

    assert_eq!(
        mask_rows(&moves),
        rows([
            [false, false, false, false, false, false, false, false],
            [false, false, false, false, false, false, false, false],
            [true, false, false, false, false, false, false, false],
            [true, false, false, false, false, false, false, false],
            [false, false, false, false, false, false, false, false],
            [false, false, false, false, false, false, false, false],
            [false, false, false, false, false, false, false, false],
            [false, false, false, false, false, false, false, false]
        ])
    );
}

#[test]
fn queen_moves_correct() {
    let mut chess_board = ChessBoard::init_default();
    let position = BoardPosition { x: 3, y: 0 };
    assert_eq!(
        chess_board.get_piece_at_position(&position),
        Some((Queen, Black))
    );

    let moves = ChessPiece::get_moves(&position, &chess_board);

    assert_eq!(mask_rows(&moves), rows([[false; 8]; 8]));

    let other_position = BoardPosition { x: 3, y: 3 };
    let queen = chess_board.get_piece_at_position(&position);
    chess_board.set_piece_at_position(&position, None);
    chess_board.set_piece_at_position(&other_position, queen);

    let moves = ChessPiece::get_moves(&other_position, &chess_board);

    assert_eq!(
        mask_rows(&moves),
        rows([
            [false, false, false, false, false, false, false, false],
            [false, false, false, false, false, false, false, false],
            [false, false, true, true, true, false, false, false],
            [true, true, true, false, true, true, true, true],
            [false, false, true, true, true, false, false, false],
            [false, true, false, true, false, true, false, false],
            [true, false, false, true, false, false, true, false],
            [false, false, false, false, false, false, false, false]
        ])
    );
}

#[test]
fn starting_layout_counts() {
    let board = ChessBoard::init_default();
    let all = board.get_all_pieces_and_positions();
    assert_eq!(all.len(), 32);
    for color in [White, Black] {
        let count = |piece: ChessPiece| {
            all.iter()
                .filter(|(p, c, _)| *p == piece && *c == color)
                .count()
        };
        assert_eq!(all.iter().filter(|(_, c, _)| *c == color).count(), 16);
        assert_eq!(count(Pawn), 8);
        assert_eq!(count(Rook), 2);
        assert_eq!(count(Knight), 2);
        assert_eq!(count(Bishoph), 2);
        assert_eq!(count(Queen), 1);
        assert_eq!(count(King), 1);
    }
    for (_, color, position) in &all {
        let expected = if *color == Black { [0, 1] } else { [6, 7] };
        assert!(expected.contains(&position.y));
    }
}

#[test]
fn listing_is_row_major() {
    let board = ChessBoard::init_default();
    let all = board.get_all_pieces_and_positions();
    assert_eq!(all[0], (Rook, Black, pos(0, 0)));
    assert_eq!(all[4], (King, Black, pos(4, 0)));
    assert_eq!(all[8], (Pawn, Black, pos(0, 1)));
    assert_eq!(all[16], (Pawn, White, pos(0, 6)));
    assert_eq!(all[31], (Rook, White, pos(7, 7)));
}

#[test]
fn starting_counts_per_kind() {
    assert_eq!(Pawn.get_starting_count(), 16);
    assert_eq!(Rook.get_starting_count(), 4);
    assert_eq!(Knight.get_starting_count(), 4);
    assert_eq!(Bishoph.get_starting_count(), 4);
    assert_eq!(Queen.get_starting_count(), 2);
    assert_eq!(King.get_starting_count(), 2);
    let layout = King.get_starting_layout();
    assert_eq!(layout.len(), 64);
    assert_eq!(layout[4], Some(Black));
    assert_eq!(layout[7 * 8 + 4], Some(White));
    assert_eq!(layout[3], None);
}

#[test]
fn new_board_is_empty() {
    let board = ChessBoard::new();
    assert!(board.get_all_pieces_and_positions().is_empty());
    let moves = ChessPiece::get_moves(&pos(4, 4), &board);
    assert_eq!(mask_rows(&moves), rows([[false; 8]; 8]));
}

#[test]
fn pawn_advance_moves_the_piece() {
    let mut board = ChessBoard::init_default();
    assert!(board.move_piece(&pos(0, 6), &pos(0, 5)));
    assert_eq!(board.get_piece_at_position(&pos(0, 6)), None);
    assert_eq!(board.get_piece_at_position(&pos(0, 5)), Some((Pawn, White)));
    assert_eq!(board.get_all_pieces_and_positions().len(), 32);
}

#[test]
fn move_rejects_unmarked_destination() {
    let mut board = ChessBoard::init_default();
    assert!(!board.move_piece(&pos(0, 6), &pos(0, 3)));
    assert!(!board.move_piece(&pos(1, 7), &pos(1, 5)));
    assert!(!board.move_piece(&pos(3, 3), &pos(3, 4)));
    assert_eq!(board_rows(&board), board_rows(&ChessBoard::init_default()));
}

#[test]
fn move_rejects_same_side_capture() {
    let mut board = ChessBoard::init_default();
    assert!(!board.move_piece(&pos(0, 7), &pos(0, 6)));
    assert_eq!(board.get_piece_at_position(&pos(0, 7)), Some((Rook, White)));
    assert_eq!(board.get_piece_at_position(&pos(0, 6)), Some((Pawn, White)));
}

#[test]
fn move_rejects_off_board_destination() {
    let mut board = ChessBoard::init_default();
    assert!(!board.move_piece(&pos(0, 6), &pos(0, 8)));
    assert!(!board.move_piece(&pos(0, 6), &pos(9, 5)));
}

#[test]
fn capture_replaces_the_occupant() {
    let mut board = ChessBoard::new();
    board.set_piece_at_position(&pos(0, 7), Some((Rook, White)));
    board.set_piece_at_position(&pos(0, 2), Some((Knight, Black)));
    assert!(!board.move_piece(&pos(0, 7), &pos(0, 1)));
    assert!(board.move_piece(&pos(0, 7), &pos(0, 2)));
    assert_eq!(board.get_piece_at_position(&pos(0, 7)), None);
    assert_eq!(board.get_piece_at_position(&pos(0, 2)), Some((Rook, White)));
    assert_eq!(board.get_all_pieces_and_positions().len(), 1);
}

#[test]
fn knight_opening_moves() {
    let board = ChessBoard::init_default();
    let moves = ChessPiece::get_moves(&pos(1, 7), &board);
    let mut expected = [[false; 8]; 8];
    expected[5][0] = true;
    expected[5][2] = true;
    assert_eq!(mask_rows(&moves), rows(expected));
}

#[test]
fn knight_in_the_centre_jumps_eight_ways() {
    let mut board = ChessBoard::new();
    board.set_piece_at_position(&pos(4, 4), Some((Knight, Black)));
    board.set_piece_at_position(&pos(5, 6), Some((Pawn, Black)));
    board.set_piece_at_position(&pos(3, 6), Some((Pawn, White)));
    let moves = ChessPiece::get_moves(&pos(4, 4), &board);
    let mut expected = [[false; 8]; 8];
    for (x, y) in [(3, 2), (5, 2), (2, 3), (6, 3), (2, 5), (6, 5), (3, 6)] {
        expected[y][x] = true;
    }
    assert_eq!(mask_rows(&moves), rows(expected));
}

#[test]
fn rook_ray_stops_at_pieces() {
    let mut board = ChessBoard::new();
    board.set_piece_at_position(&pos(0, 0), Some((Rook, White)));
    board.set_piece_at_position(&pos(0, 3), Some((Pawn, Black)));
    board.set_piece_at_position(&pos(2, 0), Some((Pawn, White)));
    let moves = ChessPiece::get_moves(&pos(0, 0), &board);
    let mut expected = [[false; 8]; 8];
    expected[1][0] = true;
    expected[2][0] = true;
    expected[3][0] = true;
    expected[0][1] = true;
    assert_eq!(mask_rows(&moves), rows(expected));
}

#[test]
fn bishop_ray_captures_first_enemy_only() {
    let mut board = ChessBoard::new();
    board.set_piece_at_position(&pos(0, 7), Some((Bishoph, White)));
    board.set_piece_at_position(&pos(2, 5), Some((Knight, Black)));
    let moves = ChessPiece::get_moves(&pos(0, 7), &board);
    let mut expected = [[false; 8]; 8];
    expected[6][1] = true;
    expected[5][2] = true;
    assert_eq!(mask_rows(&moves), rows(expected));
    assert!(!moves.contains(&pos(3, 4)));
}

#[test]
fn king_moves_one_square() {
    let mut board = ChessBoard::new();
    board.set_piece_at_position(&pos(4, 4), Some((King, White)));
    board.set_piece_at_position(&pos(4, 3), Some((Pawn, White)));
    let moves = ChessPiece::get_moves(&pos(4, 4), &board);
    let mut expected = [[false; 8]; 8];
    for (x, y) in [(3, 3), (5, 3), (3, 4), (5, 4), (3, 5), (4, 5), (5, 5)] {
        expected[y][x] = true;
    }
    assert_eq!(mask_rows(&moves), rows(expected));
    assert!(!moves.contains(&pos(4, 2)));
    assert!(!moves.contains(&pos(6, 4)));
}

#[test]
fn pawn_two_step_ignores_blocker() {
    let mut board = ChessBoard::init_default();
    board.set_piece_at_position(&pos(4, 5), Some((Knight, Black)));
    let moves = ChessPiece::get_moves(&pos(4, 6), &board);
    let mut expected = [[false; 8]; 8];
    expected[4][4] = true;
    assert_eq!(mask_rows(&moves), rows(expected));
}

#[test]
fn pawn_does_not_capture_diagonally() {
    let mut board = ChessBoard::new();
    board.set_piece_at_position(&pos(3, 4), Some((Pawn, White)));
    board.set_piece_at_position(&pos(2, 3), Some((Knight, Black)));
    board.set_piece_at_position(&pos(4, 3), Some((Knight, Black)));
    let moves = ChessPiece::get_moves(&pos(3, 4), &board);
    let mut expected = [[false; 8]; 8];
    expected[3][3] = true;
    assert_eq!(mask_rows(&moves), rows(expected));
}

#[test]
fn clone_is_independent() {
    let board = ChessBoard::init_default();
    let mut copy = board.clone();
    assert!(copy.move_piece(&pos(1, 7), &pos(2, 5)));
    assert_eq!(board.get_piece_at_position(&pos(1, 7)), Some((Knight, White)));
    assert_eq!(board.get_piece_at_position(&pos(2, 5)), None);
    assert_eq!(copy.get_piece_at_position(&pos(2, 5)), Some((Knight, White)));
}

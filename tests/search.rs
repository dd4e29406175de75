use smartypants::ChessPiece::{Bishoph, King, Knight, Pawn, Queen, Rook};
use smartypants::{crossover, BoardPosition, ChessBoard, Color};

fn pos(x: u8, y: u8) -> BoardPosition {
    BoardPosition { x, y }
}

#[test]
fn opening_successors_for_white() {
    let board = ChessBoard::init_default();
    let moves = board.successors(Color::White);
    assert_eq!(moves.len(), 20);
    let pawn_moves = moves
        .iter()
        .filter(|(from, _, _)| board.get_piece_at_position(from) == Some((Pawn, Color::White)))
        .count();
    assert_eq!(pawn_moves, 16);
    assert_eq!(moves[0].0, pos(0, 6));
    assert_eq!(moves[0].1, pos(0, 4));
    assert_eq!(moves[1].1, pos(0, 5));
    for (from, to, after) in &moves {
        let mut expected = board.clone();
        assert!(expected.move_piece(from, to));
        for y in 0..8 {
            for x in 0..8 {
                assert_eq!(
                    after.get_piece_at_position(&pos(x, y)),
                    expected.get_piece_at_position(&pos(x, y))
                );
            }
        }
    }
    assert_eq!(board.get_all_pieces_and_positions().len(), 32);
    assert_eq!(board.get_piece_at_position(&pos(0, 6)), Some((Pawn, Color::White)));
}

#[test]
fn opening_successors_for_black() {
    let board = ChessBoard::init_default();
    let moves = board.successors(Color::Black);
    assert_eq!(moves.len(), 20);
    assert!(moves.iter().all(|(from, _, _)| from.y <= 1));
    let knights = moves
        .iter()
        .filter(|(from, _, _)| board.get_piece_at_position(from) == Some((Knight, Color::Black)))
        .count();
    assert_eq!(knights, 4);
}

#[test]
fn successors_of_an_empty_board() {
    assert!(ChessBoard::new().successors(Color::White).is_empty());
}

#[test]
fn crossover_takes_whole_cells() {
    let own = vec![1.0f64, 2.0, 3.0, 4.0];
    let other = vec![10.0f64, 20.0, 30.0, 40.0];
    let child = crossover(&own, &other, &vec![true, false, false, true]);
    assert_eq!(child, vec![1.0, 20.0, 30.0, 4.0]);
    let all_other = crossover(&own, &other, &vec![false; 4]);
    assert_eq!(all_other, other);
}

#[test]
fn heat_map_order() {
    assert_eq!(Pawn.heat_map_index(), 0);
    assert_eq!(Bishoph.heat_map_index(), 1);
    assert_eq!(Knight.heat_map_index(), 2);
    assert_eq!(Rook.heat_map_index(), 3);
    assert_eq!(Queen.heat_map_index(), 4);
    assert_eq!(King.heat_map_index(), 5);
}

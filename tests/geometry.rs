use smartypants::{BoardPosition, Color, Direction};

fn pos(x: u8, y: u8) -> BoardPosition {
    BoardPosition { x, y }
}

#[test]
fn forward_off_the_board_is_none() {
    assert_eq!(pos(3, 0).forward(&Color::White, 1), None);
    assert_eq!(pos(3, 7).forward(&Color::Black, 1), None);
    assert_eq!(pos(3, 1).forward(&Color::White, 2), None);
    assert_eq!(pos(3, 0).forward(&Color::White, 0), Some(pos(3, 0)));
}

#[test]
fn forward_is_relative_to_the_side() {
    assert_eq!(pos(3, 6).forward(&Color::White, 1), Some(pos(3, 5)));
    assert_eq!(pos(3, 1).forward(&Color::Black, 2), Some(pos(3, 3)));
    assert_eq!(pos(3, 6).backward(&Color::White, 1), Some(pos(3, 7)));
    assert_eq!(pos(3, 6).backward(&Color::Black, 1), Some(pos(3, 5)));
    assert_eq!(pos(3, 6).backward(&Color::White, 2), None);
}

#[test]
fn left_and_right_are_mirrored() {
    assert_eq!(pos(3, 3).left(&Color::White, 1), Some(pos(2, 3)));
    assert_eq!(pos(3, 3).left(&Color::Black, 1), Some(pos(4, 3)));
    assert_eq!(pos(3, 3).right(&Color::White, 4), Some(pos(7, 3)));
    assert_eq!(pos(3, 3).right(&Color::Black, 3), Some(pos(0, 3)));
    assert_eq!(pos(0, 3).left(&Color::White, 1), None);
    assert_eq!(pos(7, 3).right(&Color::White, 1), None);
    assert_eq!(pos(5, 3).right(&Color::White, 255), None);
}

#[test]
fn diagonals_compose_both_steps() {
    assert_eq!(pos(3, 3).diag_fr(&Color::White, 1), Some(pos(4, 2)));
    assert_eq!(pos(3, 3).diag_fl(&Color::White, 1), Some(pos(2, 2)));
    assert_eq!(pos(3, 3).diag_br(&Color::White, 1), Some(pos(4, 4)));
    assert_eq!(pos(3, 3).diag_bl(&Color::White, 1), Some(pos(2, 4)));
    assert_eq!(pos(3, 3).diag_fr(&Color::Black, 2), Some(pos(1, 5)));
    assert_eq!(pos(7, 3).diag_fr(&Color::White, 1), None);
    assert_eq!(pos(3, 0).diag_fl(&Color::White, 1), None);
}

#[test]
fn step_follows_direction() {
    assert_eq!(pos(3, 3).step(Direction::Forward, &Color::White), Some(pos(3, 2)));
    assert_eq!(pos(3, 3).step(Direction::DiagBl, &Color::Black), Some(pos(4, 2)));
    assert_eq!(pos(0, 0).step(Direction::DiagBr, &Color::Black), None);
}

#[test]
fn bounds_and_indices() {
    assert!(pos(7, 7).is_in_bounds());
    assert!(!pos(8, 0).is_in_bounds());
    assert!(!pos(0, 8).is_in_bounds());
    assert_eq!(pos(2, 5).get_idx(), [5, 2]);
    assert_eq!(BoardPosition::from_idx(5, 2), pos(2, 5));
}

#[test]
fn flip_swaps_sides() {
    assert_eq!(Color::White.flip(), Color::Black);
    assert_eq!(Color::Black.flip(), Color::White);
    assert_eq!(Color::White.score_sign(), 1);
    assert_eq!(Color::Black.score_sign(), -1);
}

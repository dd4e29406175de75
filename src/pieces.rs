use vstd::prelude::*;

verus! {

/// The kind of a chess piece; it selects the movement rule and the heat-map.
#[derive(Clone, Copy, Debug, PartialEq, Eq, Structural)]
pub enum ChessPiece {
    Pawn,
    Bishoph,
    Rook,
    Knight,
    Queen,
    King,
}

/// The side a piece belongs to.
#[derive(Clone, Copy, Debug, PartialEq, Eq, Structural)]
pub enum Color {
    Black,
    White,
}

impl Color {
    pub open spec fn opponent(self) -> Color {
        match self {
            Color::White => Color::Black,
            Color::Black => Color::White,
        }
    }

    /// The other side.
    pub fn flip(&self) -> (r: Color)
        ensures
            r == self.opponent(),
    {
        match self {
            Color::White => Color::Black,
            Color::Black => Color::White,
        }
    }
}

/// Step of one square "forward" on the rank axis: White moves towards rank 0.
pub open spec fn forward_dy(color: Color) -> int {
    match color {
        Color::White => -1,
        Color::Black => 1,
    }
}

/// Step of one square "left" on the file axis: mirrored between the sides.
pub open spec fn left_dx(color: Color) -> int {
    match color {
        Color::White => -1,
        Color::Black => 1,
    }
}

/// A square of the board: `x` is the file (column), `y` the rank (row).
#[derive(Clone, Copy, Debug, PartialEq, Eq, Structural)]
pub struct BoardPosition {
    pub x: u8,
    pub y: u8,
}

/// A one-square step direction, relative to the side that moves.
#[derive(Clone, Copy, Debug, PartialEq, Eq, Structural)]
pub enum Direction {
    Forward,
    Backward,
    Left,
    Right,
    DiagFr,
    DiagFl,
    DiagBr,
    DiagBl,
}

impl Direction {
    /// File offset of one step in this direction for `color`.
    pub open spec fn dx(self, color: Color) -> int {
        match self {
            Direction::Forward | Direction::Backward => 0,
            Direction::Left | Direction::DiagFl | Direction::DiagBl => left_dx(color),
            Direction::Right | Direction::DiagFr | Direction::DiagBr => -left_dx(color),
        }
    }

    /// Rank offset of one step in this direction for `color`.
    pub open spec fn dy(self, color: Color) -> int {
        match self {
            Direction::Left | Direction::Right => 0,
            Direction::Forward | Direction::DiagFr | Direction::DiagFl => forward_dy(color),
            Direction::Backward | Direction::DiagBr | Direction::DiagBl => -forward_dy(color),
        }
    }
}

/// `v` moved `k` steps along the sign of `d`.
pub open spec fn along(v: int, d: int, k: int) -> int {
    if d > 0 {
        v + k
    } else if d < 0 {
        v - k
    } else {
        v
    }
}

pub open spec fn coords_in_bounds(x: int, y: int) -> bool {
    0 <= x <= 7 && 0 <= y <= 7
}

/// Row-major index of the cell at file `x`, rank `y`.
pub open spec fn cell_index(x: int, y: int) -> int {
    y * 8 + x
}

impl BoardPosition {
    pub open spec fn in_bounds(self) -> bool {
        self.x <= 7 && self.y <= 7
    }

    pub open spec fn index(self) -> int {
        cell_index(self.x as int, self.y as int)
    }

    /// The square at offset (`dx`, `dy`), if it lies on the board.
    pub open spec fn shifted(self, dx: int, dy: int) -> Option<BoardPosition> {
        if coords_in_bounds(self.x + dx, self.y + dy) {
            Some(BoardPosition { x: (self.x + dx) as u8, y: (self.y + dy) as u8 })
        } else {
            None
        }
    }

    /// The square `k` steps away in direction `d` for `color`, if on the board.
    pub open spec fn toward(self, d: Direction, color: Color, k: int) -> Option<BoardPosition> {
        let x = along(self.x as int, d.dx(color), k);
        let y = along(self.y as int, d.dy(color), k);
        if coords_in_bounds(x, y) {
            Some(BoardPosition { x: x as u8, y: y as u8 })
        } else {
            None
        }
    }

    pub open spec fn forward_spec(self, color: Color, count: int) -> Option<BoardPosition> {
        self.shifted(0, along(0, forward_dy(color), count))
    }

    pub open spec fn backward_spec(self, color: Color, count: int) -> Option<BoardPosition> {
        self.shifted(0, along(0, -forward_dy(color), count))
    }

    pub open spec fn left_spec(self, color: Color, count: int) -> Option<BoardPosition> {
        self.shifted(along(0, left_dx(color), count), 0)
    }

    pub open spec fn right_spec(self, color: Color, count: int) -> Option<BoardPosition> {
        self.shifted(along(0, -left_dx(color), count), 0)
    }

    /// `count` squares forward for `color`; `None` when that leaves the board.
    pub fn forward(&self, color: &Color, count: u8) -> (r: Option<BoardPosition>)
        ensures
            r == self.forward_spec(*color, count as int),
    {
        let new_y = match color {
            Color::White => self.y.checked_sub(count),
            Color::Black => self.y.checked_add(count),
        };
        match new_y {
            Some(y) => {
                let out = BoardPosition { x: self.x, y };
                if out.is_in_bounds() {
                    Some(out)
                } else {
                    None
                }
            },
            None => None,
        }
    }

    /// `count` squares backward for `color`; `None` when that leaves the board.
    pub fn backward(&self, color: &Color, count: u8) -> (r: Option<BoardPosition>)
        ensures
            r == self.backward_spec(*color, count as int),
    {
        let new_y = match color {
            Color::White => self.y.checked_add(count),
            Color::Black => self.y.checked_sub(count),
        };
        match new_y {
            Some(y) => {
                let out = BoardPosition { x: self.x, y };
                if out.is_in_bounds() {
                    Some(out)
                } else {
                    None
                }
            },
            None => None,
        }
    }

    /// `count` squares to the left for `color`; `None` when that leaves the board.
    pub fn left(&self, color: &Color, count: u8) -> (r: Option<BoardPosition>)
        ensures
            r == self.left_spec(*color, count as int),
    {
        let new_x = match color {
            Color::White => self.x.checked_sub(count),
            Color::Black => self.x.checked_add(count),
        };
        match new_x {
            Some(x) => {
                let out = BoardPosition { x, y: self.y };
                if out.is_in_bounds() {
                    Some(out)
                } else {
                    None
                }
            },
            None => None,
        }
    }

    /// `count` squares to the right for `color`; `None` when that leaves the board.
    pub fn right(&self, color: &Color, count: u8) -> (r: Option<BoardPosition>)
        ensures
            r == self.right_spec(*color, count as int),
    {
        let new_x = match color {
            Color::White => self.x.checked_add(count),
            Color::Black => self.x.checked_sub(count),
        };
        match new_x {
            Some(x) => {
                let out = BoardPosition { x, y: self.y };
                if out.is_in_bounds() {
                    Some(out)
                } else {
                    None
                }
            },
            None => None,
        }
    }

    /// Forward then right, `count` squares each; `None` if either step leaves the board.
    pub fn diag_fr(&self, color: &Color, count: u8) -> (r: Option<BoardPosition>)
        ensures
            r == match self.forward_spec(*color, count as int) {
                Some(p) => p.right_spec(*color, count as int),
                None => None,
            },
    {
        match self.forward(color, count) {
            Some(forward) => forward.right(color, count),
            None => None,
        }
    }

    /// Forward then left, `count` squares each; `None` if either step leaves the board.
    pub fn diag_fl(&self, color: &Color, count: u8) -> (r: Option<BoardPosition>)
        ensures
            r == match self.forward_spec(*color, count as int) {
                Some(p) => p.left_spec(*color, count as int),
                None => None,
            },
    {
        match self.forward(color, count) {
            Some(forward) => forward.left(color, count),
            None => None,
        }
    }

    /// Backward then right, `count` squares each; `None` if either step leaves the board.
    pub fn diag_br(&self, color: &Color, count: u8) -> (r: Option<BoardPosition>)
        ensures
            r == match self.backward_spec(*color, count as int) {
                Some(p) => p.right_spec(*color, count as int),
                None => None,
            },
    {
        match self.backward(color, count) {
            Some(backward) => backward.right(color, count),
            None => None,
        }
    }

    /// Backward then left, `count` squares each; `None` if either step leaves the board.
    pub fn diag_bl(&self, color: &Color, count: u8) -> (r: Option<BoardPosition>)
        ensures
            r == match self.backward_spec(*color, count as int) {
                Some(p) => p.left_spec(*color, count as int),
                None => None,
            },
    {
        match self.backward(color, count) {
            Some(backward) => backward.left(color, count),
            None => None,
        }
    }

    /// One square in direction `d` for `color`.
    pub fn step(&self, d: Direction, color: &Color) -> (r: Option<BoardPosition>)
        requires
            self.in_bounds(),
        ensures
            r == self.toward(d, *color, 1),
    {
        match d {
            Direction::Forward => self.forward(color, 1),
            Direction::Backward => self.backward(color, 1),
            Direction::Left => self.left(color, 1),
            Direction::Right => self.right(color, 1),
            Direction::DiagFr => self.diag_fr(color, 1),
            Direction::DiagFl => self.diag_fl(color, 1),
            Direction::DiagBr => self.diag_br(color, 1),
            Direction::DiagBl => self.diag_bl(color, 1),
        }
    }

    pub fn is_in_bounds(&self) -> (r: bool)
        ensures
            r == self.in_bounds(),
    {
        !(self.x > 7 || self.y > 7)
    }

    /// The grid index `[rank, file]` of this square.
    pub fn get_idx(&self) -> (r: [usize; 2])
        ensures
            r@ == seq![self.y as usize, self.x as usize],
    {
        [self.y as usize, self.x as usize]
    }

    /// The square at grid index `[row, col]`.
    pub fn from_idx(row: usize, col: usize) -> (r: BoardPosition)
        requires
            row <= 7,
            col <= 7,
        ensures
            r.x == col,
            r.y == row,
            r.in_bounds(),
    {
        BoardPosition { x: col as u8, y: row as u8 }
    }
}

} // verus!

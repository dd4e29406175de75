use crate::grid::{cells_of, copy_cells, cell_at, empty_cells, set_cell, CellGrid, Occupant};
use crate::moves::{move_target, ray_reaches};
use crate::pieces::{cell_index, BoardPosition, ChessPiece, Color};
use vstd::prelude::*;

verus! {

/// The piece on file `x` of a back rank: Rook, Knight, Bishop, Queen, King, Bishop, Knight, Rook.
pub open spec fn back_rank_piece(x: int) -> ChessPiece {
    if x == 0 || x == 7 {
        ChessPiece::Rook
    } else if x == 1 || x == 6 {
        ChessPiece::Knight
    } else if x == 2 || x == 5 {
        ChessPiece::Bishoph
    } else if x == 3 {
        ChessPiece::Queen
    } else {
        ChessPiece::King
    }
}

/// The occupant of file `x`, rank `y` in the standard starting position.
pub open spec fn starting_occupant(x: int, y: int) -> Occupant {
    if y == 0 {
        Some((back_rank_piece(x), Color::Black))
    } else if y == 1 {
        Some((ChessPiece::Pawn, Color::Black))
    } else if y == 6 {
        Some((ChessPiece::Pawn, Color::White))
    } else if y == 7 {
        Some((back_rank_piece(x), Color::White))
    } else {
        None
    }
}

/// The side whose `piece` stands on file `x`, rank `y` at the start, if any.
pub open spec fn starting_color(piece: ChessPiece, x: int, y: int) -> Option<Color> {
    match starting_occupant(x, y) {
        Some((p, c)) => if p == piece {
            Some(c)
        } else {
            None
        },
        None => None,
    }
}

/// The same occupant seen from the other side: same piece, other colour.
pub open spec fn mirrored(o: Occupant) -> Occupant {
    match o {
        Some((p, c)) => Some((p, c.opponent())),
        None => None,
    }
}

/// The starting position is symmetric between the sides: each square holds the
/// mirror of what the square on the same file and the mirrored rank holds. A
/// score that weighs the two sides' pieces alike therefore sums to zero on it.
pub proof fn lemma_start_is_mirrored(board: ChessBoard)
    requires
        board.wf(),
        forall|x: int, y: int| 0 <= x < 8 && 0 <= y < 8 ==> #[trigger] board.occ(x, y) == starting_occupant(x, y),
    ensures
        forall|x: int, y: int| 0 <= x < 8 && 0 <= y < 8 ==> #[trigger] board.occ(x, 7 - y) == mirrored(board.occ(x, y)),
{
    assert forall|x: int, y: int| 0 <= x < 8 && 0 <= y < 8 implies #[trigger] board.occ(x, 7 - y) == mirrored(
        board.occ(x, y),
    ) by {
        assert(board.occ(x, 7 - y) == starting_occupant(x, 7 - y));
    }
}

/// Number of `Some` entries among the first `n` of `s`.
pub open spec fn count_placed(s: Seq<Option<Color>>, n: int) -> nat
    decreases n,
{
    if n <= 0 {
        0
    } else {
        count_placed(s, n - 1) + if s[n - 1] is Some {
            1nat
        } else {
            0nat
        }
    }
}

/// Whether `from` and `to` both hold pieces, of the same side.
pub open spec fn same_side(b: Seq<Occupant>, from: BoardPosition, to: BoardPosition) -> bool {
    match (b[from.index()], b[to.index()]) {
        (Some((_, a)), Some((_, c))) => a == c,
        _ => false,
    }
}

/// Whether `move_piece` accepts moving the piece on `from` to `to`.
pub open spec fn move_allowed(b: Seq<Occupant>, from: BoardPosition, to: BoardPosition) -> bool {
    &&& to.in_bounds()
    &&& !same_side(b, from, to)
    &&& move_target(b, from, to)
}

/// The cells after the occupant of `from` is taken off and put on `to`.
pub open spec fn moved(b: Seq<Occupant>, from: BoardPosition, to: BoardPosition) -> Seq<Occupant> {
    b.update(from.index(), None).update(to.index(), b[from.index()])
}

/// No piece is ever marked as moving onto its own square.
pub proof fn lemma_no_null_move(b: Seq<Occupant>, from: BoardPosition)
    requires
        b.len() == 64,
        from.in_bounds(),
    ensures
        !move_target(b, from, from),
{
    reveal(ray_reaches);
}

/// The 8x8 board. Each cell is empty or holds one piece of one side.
pub struct ChessBoard {
    pub fields: CellGrid,
}

impl View for ChessBoard {
    type V = Seq<Occupant>;

    /// The cells in row-major order: file `x`, rank `y` is at `y * 8 + x`.
    open spec fn view(&self) -> Seq<Occupant> {
        cells_of(self.fields)
    }
}

impl Clone for ChessBoard {
    /// An independent copy: later changes to either board leave the other as it was.
    fn clone(&self) -> (r: Self)
        ensures
            r@ == self@,
    {
        ChessBoard { fields: copy_cells(&self.fields) }
    }
}

impl ChessPiece {
    /// Where the pieces of kind `self` stand at the start, by side, in row-major order.
    pub fn get_starting_layout(&self) -> (r: Vec<Option<Color>>)
        ensures
            r@.len() == 64,
            forall|x: int, y: int|
                0 <= x < 8 && 0 <= y < 8 ==> #[trigger] r@[cell_index(x, y)] == starting_color(*self, x, y),
    {
        let mut layout: Vec<Option<Color>> = Vec::new();
        let mut row: usize = 0;
        while row < 8
            invariant
                row <= 8,
                layout@.len() == row * 8,
                forall|x: int, y: int|
                    0 <= x < 8 && 0 <= y < row ==> #[trigger] layout@[cell_index(x, y)] == starting_color(*self, x, y),
            decreases 8 - row,
        {
            let mut col: usize = 0;
            while col < 8
                invariant
                    row < 8,
                    col <= 8,
                    layout@.len() == row * 8 + col,
                    forall|x: int, y: int|
                        0 <= x < 8 && 0 <= y < row ==> #[trigger] layout@[cell_index(x, y)] == starting_color(*self, x, y),
                    forall|x: int|
                        0 <= x < col ==> #[trigger] layout@[cell_index(x, row as int)] == starting_color(*self, x, row as int),
                decreases 8 - col,
            {
                let here = match starting_occupant_at(col, row) {
                    Some((piece, color)) => if piece == *self {
                        Some(color)
                    } else {
                        None
                    },
                    None => None,
                };
                layout.push(here);
                col += 1;
            }
            row += 1;
        }
        layout
    }

    /// How many pieces of kind `self` the starting position holds, both sides together.
    pub fn get_starting_count(&self) -> (r: usize)
        ensures
            r == count_placed(
                Seq::new(64, |i: int| starting_color(*self, i % 8, i / 8)),
                64,
            ),
    {
        let layout = self.get_starting_layout();
        let ghost s = Seq::new(64, |i: int| starting_color(*self, i % 8, i / 8));
        assert forall|i: int| 0 <= i < 64 implies layout@[i] == s[i] by {
            assert(i == cell_index(i % 8, i / 8));
            assert(layout@[cell_index(i % 8, i / 8)] == starting_color(*self, i % 8, i / 8));
        }
        let mut count: usize = 0;
        let mut i: usize = 0;
        while i < 64
            invariant
                i <= 64,
                layout@.len() == 64,
                forall|k: int| 0 <= k < 64 ==> layout@[k] == s[k],
                count == count_placed(s, i as int),
                count <= i,
            decreases 64 - i,
        {
            if layout[i].is_some() {
                count += 1;
            }
            i += 1;
        }
        count
    }
}

impl ChessBoard {
    pub open spec fn wf(&self) -> bool {
        self@.len() == 64
    }

    /// The occupant of the in-bounds square `p`.
    pub open spec fn at(&self, p: BoardPosition) -> Occupant {
        self@[p.index()]
    }

    /// The occupant of file `x`, rank `y`.
    pub open spec fn occ(&self, x: int, y: int) -> Occupant {
        self@[cell_index(x, y)]
    }

    pub fn get_piece_at_position(&self, position: &BoardPosition) -> (r: Occupant)
        requires
            self.wf(),
            position.in_bounds(),
        ensures
            r == self.at(*position),
    {
        cell_at(&self.fields, position.y as usize, position.x as usize)
    }

    /// Puts `occupant` on `position`, whatever stood there; for setting up arrangements.
    pub fn set_piece_at_position(&mut self, position: &BoardPosition, occupant: Occupant)
        requires
            old(self).wf(),
            position.in_bounds(),
        ensures
            final(self)@ == old(self)@.update(position.index(), occupant),
            final(self).wf(),
    {
        set_cell(&mut self.fields, position.y as usize, position.x as usize, occupant);
    }

    /// Every occupied square with its occupant, in row-major order.
    pub fn get_all_pieces_and_positions(&self) -> (r: Vec<(ChessPiece, Color, BoardPosition)>)
        requires
            self.wf(),
        ensures
            forall|i: int|
                0 <= i < r.len() ==> {
                    &&& (#[trigger] r@[i]).2.in_bounds()
                    &&& self.at(r@[i].2) == Some((r@[i].0, r@[i].1))
                },
            forall|i: int, j: int|
                0 <= i < j < r.len() ==> (#[trigger] r@[i]).2.index() < (#[trigger] r@[j]).2.index(),
            forall|p: BoardPosition|
                p.in_bounds() && (#[trigger] self.at(p)) is Some ==> exists|i: int|
                    0 <= i < r.len() && (#[trigger] r@[i]).2 == p,
    {
        let mut out: Vec<(ChessPiece, Color, BoardPosition)> = Vec::new();
        let mut row: usize = 0;
        while row < 8
            invariant
                self.wf(),
                row <= 8,
                forall|i: int|
                    0 <= i < out.len() ==> {
                        &&& (#[trigger] out@[i]).2.in_bounds()
                        &&& self.at(out@[i].2) == Some((out@[i].0, out@[i].1))
                        &&& out@[i].2.index() < row * 8
                    },
                forall|i: int, j: int|
                    0 <= i < j < out.len() ==> (#[trigger] out@[i]).2.index() < (#[trigger] out@[j]).2.index(),
                forall|p: BoardPosition|
                    p.in_bounds() && p.y < row && (#[trigger] self.at(p)) is Some ==> exists|i: int|
                        0 <= i < out.len() && (#[trigger] out@[i]).2 == p,
            decreases 8 - row,
        {
            let mut col: usize = 0;
            while col < 8
                invariant
                    self.wf(),
                    row < 8,
                    col <= 8,
                    forall|i: int|
                        0 <= i < out.len() ==> {
                            &&& (#[trigger] out@[i]).2.in_bounds()
                            &&& self.at(out@[i].2) == Some((out@[i].0, out@[i].1))
                            &&& out@[i].2.index() < row * 8 + col
                        },
                    forall|i: int, j: int|
                        0 <= i < j < out.len() ==> (#[trigger] out@[i]).2.index() < (#[trigger] out@[j]).2.index(),
                    forall|p: BoardPosition|
                        p.in_bounds() && (p.y < row || (p.y == row && p.x < col)) && (#[trigger] self.at(p)) is Some
                            ==> exists|i: int| 0 <= i < out.len() && (#[trigger] out@[i]).2 == p,
                decreases 8 - col,
            {
                let position = BoardPosition::from_idx(row, col);
                match self.get_piece_at_position(&position) {
                    Some((piece, color)) => {
                        let ghost before = out@;
                        out.push((piece, color, position));
                        assert forall|p: BoardPosition|
                            p.in_bounds() && (p.y < row || (p.y == row && p.x < col + 1)) && (#[trigger] self.at(p)) is Some
                            implies exists|i: int| 0 <= i < out.len() && (#[trigger] out@[i]).2 == p by {
                            if p == position {
                                assert(out@[out.len() - 1].2 == p);
                            } else {
                                let i = choose|i: int| 0 <= i < before.len() && (#[trigger] before[i]).2 == p;
                                assert(out@[i] == before[i]);
                            }
                        }
                    },
                    None => {},
                }
                col += 1;
            }
            row += 1;
        }
        out
    }

    /// Moves the piece on `from` to `to`, capturing whatever stood there, if
    /// `to` is on the board, the two squares do not hold pieces of one side,
    /// and the move generator marks `to` for `from`. Returns whether it moved.
    pub fn move_piece(&mut self, from: &BoardPosition, to: &BoardPosition) -> (r: bool)
        requires
            old(self).wf(),
            from.in_bounds(),
        ensures
            final(self).wf(),
            r == move_allowed(old(self)@, *from, *to),
            r ==> final(self)@ == moved(old(self)@, *from, *to),
            r ==> final(self).at(*from) is None && final(self).at(*to) == old(self).at(*from),
            !r ==> final(self)@ == old(self)@,
    {
        // the destination must lie on the board
        if !to.is_in_bounds() {
            return false;
        }
        // no capture of a piece of one's own side
        let at_to = self.get_piece_at_position(to);
        let at_from = self.get_piece_at_position(from);
        if let (Some((_, color_to)), Some((_, color_from))) = (at_to, at_from) {
            if color_to == color_from {
                return false;
            }
        }
        // the move generator must allow it
        let moves = ChessPiece::get_moves(from, self);
        if !moves.contains(to) {
            return false;
        }
        proof {
            lemma_no_null_move(self@, *from);
        }
        self.force_move_piece(from, to);
        true
    }

    /// Takes the occupant off `from` and puts it on `to`, unchecked.
    fn force_move_piece(&mut self, from: &BoardPosition, to: &BoardPosition)
        requires
            old(self).wf(),
            from.in_bounds(),
            to.in_bounds(),
        ensures
            final(self).wf(),
            final(self)@ == moved(old(self)@, *from, *to),
    {
        let occupant = self.get_piece_at_position(from);
        self.set_piece_at_position(from, None);
        self.set_piece_at_position(to, occupant);
    }

    /// A board with every square empty.
    pub fn new() -> (r: ChessBoard)
        ensures
            r.wf(),
            forall|i: int| 0 <= i < 64 ==> r@[i] is None,
    {
        ChessBoard { fields: empty_cells() }
    }

    /// The standard starting position: pawns on the second rank of each side, and
    /// Rook, Knight, Bishop, Queen, King, Bishop, Knight, Rook on the back ranks.
    pub fn init_default() -> (r: ChessBoard)
        ensures
            r.wf(),
            forall|x: int, y: int|
                0 <= x < 8 && 0 <= y < 8 ==> #[trigger] r.occ(x, y) == starting_occupant(x, y),
    {
        let mut board = Self::new();
        board.place_starting(ChessPiece::Rook);
        board.place_starting(ChessPiece::Pawn);
        board.place_starting(ChessPiece::Queen);
        board.place_starting(ChessPiece::King);
        board.place_starting(ChessPiece::Bishoph);
        board.place_starting(ChessPiece::Knight);
        assert forall|x: int, y: int| 0 <= x < 8 && 0 <= y < 8 implies #[trigger] board.occ(x, y)
            == starting_occupant(x, y) by {
            match starting_occupant(x, y) {
                Some((p, c)) => {},
                None => {},
            }
        }
        board
    }

    /// Fills each empty square where `piece` stands at the start with it.
    fn place_starting(&mut self, piece: ChessPiece)
        requires
            old(self).wf(),
        ensures
            final(self).wf(),
            forall|x: int, y: int|
                0 <= x < 8 && 0 <= y < 8 ==> #[trigger] final(self).occ(x, y) == match old(self).occ(x, y) {
                    Some(o) => Some(o),
                    None => match starting_color(piece, x, y) {
                        Some(c) => Some((piece, c)),
                        None => None,
                    },
                },
    {
        let layout = piece.get_starting_layout();
        let ghost start = self@;
        let mut row: usize = 0;
        while row < 8
            invariant
                self.wf(),
                row <= 8,
                layout@.len() == 64,
                start.len() == 64,
                forall|x: int, y: int|
                    0 <= x < 8 && 0 <= y < 8 ==> #[trigger] layout@[cell_index(x, y)] == starting_color(piece, x, y),
                forall|x: int, y: int|
                    0 <= x < 8 && 0 <= y < 8 ==> #[trigger] self.occ(x, y) == if y < row {
                        match start[cell_index(x, y)] {
                            Some(o) => Some(o),
                            None => match starting_color(piece, x, y) {
                                Some(c) => Some((piece, c)),
                                None => None,
                            },
                        }
                    } else {
                        start[cell_index(x, y)]
                    },
            decreases 8 - row,
        {
            let mut col: usize = 0;
            while col < 8
                invariant
                    self.wf(),
                    row < 8,
                    col <= 8,
                    layout@.len() == 64,
                    start.len() == 64,
                    forall|x: int, y: int|
                        0 <= x < 8 && 0 <= y < 8 ==> #[trigger] layout@[cell_index(x, y)] == starting_color(piece, x, y),
                    forall|x: int, y: int|
                        0 <= x < 8 && 0 <= y < 8 ==> #[trigger] self.occ(x, y) == if y < row || (y == row && x < col) {
                            match start[cell_index(x, y)] {
                                Some(o) => Some(o),
                                None => match starting_color(piece, x, y) {
                                    Some(c) => Some((piece, c)),
                                    None => None,
                                },
                            }
                        } else {
                            start[cell_index(x, y)]
                        },
                decreases 8 - col,
            {
                let position = BoardPosition::from_idx(row, col);
                let on_board = self.get_piece_at_position(&position);
                assert(layout@[cell_index(col as int, row as int)] == starting_color(piece, col as int, row as int));
                let placed = match on_board {
                    Some(o) => Some(o),
                    None => match layout[row * 8 + col] {
                        Some(c) => Some((piece, c)),
                        None => None,
                    },
                };
                assert(self.occ(col as int, row as int) == start[cell_index(col as int, row as int)]);
                assert(position.index() == cell_index(col as int, row as int));
                let ghost before = *self;
                self.set_piece_at_position(&position, placed);
                assert forall|x: int, y: int| 0 <= x < 8 && 0 <= y < 8 implies #[trigger] self.occ(x, y)
                    == (if y < row || (y == row && x < col + 1) {
                        match start[cell_index(x, y)] {
                            Some(o) => Some(o),
                            None => match starting_color(piece, x, y) {
                                Some(c) => Some((piece, c)),
                                None => None,
                            },
                        }
                    } else {
                        start[cell_index(x, y)]
                    }) by {
                    if x != col || y != row {
                        assert(cell_index(x, y) != cell_index(col as int, row as int));
                        assert(self.occ(x, y) == before.occ(x, y));
                    }
                }
                col += 1;
            }
            row += 1;
        }
    }
}

/// The occupant of file `col`, rank `row` in the standard starting position.
fn starting_occupant_at(col: usize, row: usize) -> (r: Occupant)
    requires
        col < 8,
        row < 8,
    ensures
        r == starting_occupant(col as int, row as int),
{
    let back_rank = if col == 0 || col == 7 {
        ChessPiece::Rook
    } else if col == 1 || col == 6 {
        ChessPiece::Knight
    } else if col == 2 || col == 5 {
        ChessPiece::Bishoph
    } else if col == 3 {
        ChessPiece::Queen
    } else {
        ChessPiece::King
    };
    if row == 0 {
        Some((back_rank, Color::Black))
    } else if row == 1 {
        Some((ChessPiece::Pawn, Color::Black))
    } else if row == 6 {
        Some((ChessPiece::Pawn, Color::White))
    } else if row == 7 {
        Some((back_rank, Color::White))
    } else {
        None
    }
}

} // verus!

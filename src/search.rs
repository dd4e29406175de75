use crate::board::{move_allowed, moved, ChessBoard};
use crate::grid::{marks_of, Occupant};
use crate::moves::{holds_color, mask_wf, move_target};
use crate::pieces::{BoardPosition, ChessPiece, Color};
use vstd::prelude::*;

verus! {

/// Entry `a` comes before entry `b`: by origin square, then by destination square.
pub open spec fn move_precedes(a: (BoardPosition, BoardPosition), b: (BoardPosition, BoardPosition)) -> bool {
    a.0.index() < b.0.index() || (a.0 == b.0 && a.1.index() < b.1.index())
}

/// `from` holds a piece of `color` that `move_piece` would move to `to`.
pub open spec fn legal_for(b: Seq<Occupant>, color: Color, from: BoardPosition, to: BoardPosition) -> bool {
    &&& from.in_bounds()
    &&& holds_color(b, from, color)
    &&& move_allowed(b, from, to)
}

impl ChessBoard {
    /// Every move that `color` can make here, with the board that results: one
    /// entry per piece of `color` and destination that `move_piece` accepts,
    /// ordered by origin square, then by destination square (row-major).
    pub fn successors(&self, color: Color) -> (r: Vec<(BoardPosition, BoardPosition, ChessBoard)>)
        requires
            self.wf(),
        ensures
            forall|i: int|
                0 <= i < r.len() ==> {
                    &&& legal_for(self@, color, (#[trigger] r@[i]).0, r@[i].1)
                    &&& r@[i].2.wf()
                    &&& r@[i].2@ == moved(self@, r@[i].0, r@[i].1)
                },
            forall|i: int, j: int|
                0 <= i < j < r.len() ==> move_precedes(
                    ((#[trigger] r@[i]).0, r@[i].1),
                    ((#[trigger] r@[j]).0, r@[j].1),
                ),
            forall|from: BoardPosition, to: BoardPosition|
                #![trigger legal_for(self@, color, from, to)]
                legal_for(self@, color, from, to) ==> exists|i: int|
                    0 <= i < r.len() && (#[trigger] r@[i]).0 == from && r@[i].1 == to,
    {
        let pieces = self.get_all_pieces_and_positions();
        let mut out: Vec<(BoardPosition, BoardPosition, ChessBoard)> = Vec::new();
        let mut n: usize = 0;
        while n < pieces.len()
            invariant
                self.wf(),
                n <= pieces.len(),
                forall|i: int|
                    0 <= i < pieces.len() ==> {
                        &&& (#[trigger] pieces@[i]).2.in_bounds()
                        &&& self.at(pieces@[i].2) == Some((pieces@[i].0, pieces@[i].1))
                    },
                forall|i: int, j: int|
                    0 <= i < j < pieces.len() ==> (#[trigger] pieces@[i]).2.index() < (#[trigger] pieces@[j]).2.index(),
                forall|p: BoardPosition|
                    p.in_bounds() && (#[trigger] self.at(p)) is Some ==> exists|i: int|
                        0 <= i < pieces.len() && (#[trigger] pieces@[i]).2 == p,
                forall|i: int|
                    0 <= i < out.len() ==> {
                        &&& legal_for(self@, color, (#[trigger] out@[i]).0, out@[i].1)
                        &&& out@[i].2.wf()
                        &&& out@[i].2@ == moved(self@, out@[i].0, out@[i].1)
                        &&& (n < pieces.len() ==> out@[i].0.index() < pieces@[n as int].2.index())
                    },
                forall|i: int, j: int|
                    0 <= i < j < out.len() ==> move_precedes(
                        ((#[trigger] out@[i]).0, out@[i].1),
                        ((#[trigger] out@[j]).0, out@[j].1),
                    ),
                forall|k: int, to: BoardPosition|
                    #![trigger legal_for(self@, color, pieces@[k].2, to)]
                    0 <= k < n && legal_for(self@, color, pieces@[k].2, to) ==> exists|i: int|
                        0 <= i < out.len() && (#[trigger] out@[i]).0 == pieces@[k].2 && out@[i].1 == to,
            decreases pieces.len() - n,
        {
            let (_piece, piece_color, from) = pieces[n];
            if piece_color == color {
                let moves = ChessPiece::get_moves(&from, self);
                let mut row: usize = 0;
                while row < 8
                    invariant
                        self.wf(),
                        n < pieces.len(),
                        from == pieces@[n as int].2,
                        from.in_bounds(),
                        piece_color == color,
                        self.at(from) == Some((pieces@[n as int].0, piece_color)),
                        mask_wf(moves),
                        forall|q: BoardPosition|
                            q.in_bounds() ==> marks_of(moves)[q.index()] == move_target(self@, from, q),
                        row <= 8,
                        forall|i: int|
                            0 <= i < out.len() ==> {
                                &&& legal_for(self@, color, (#[trigger] out@[i]).0, out@[i].1)
                                &&& out@[i].2.wf()
                                &&& out@[i].2@ == moved(self@, out@[i].0, out@[i].1)
                                &&& (out@[i].0.index() < from.index() || (out@[i].0 == from && out@[i].1.index() < row * 8))
                            },
                        forall|i: int, j: int|
                            0 <= i < j < out.len() ==> move_precedes(
                                ((#[trigger] out@[i]).0, out@[i].1),
                                ((#[trigger] out@[j]).0, out@[j].1),
                            ),
                        forall|k: int, to: BoardPosition|
                            #![trigger legal_for(self@, color, pieces@[k].2, to)]
                            0 <= k < n && legal_for(self@, color, pieces@[k].2, to) ==> exists|i: int|
                                0 <= i < out.len() && (#[trigger] out@[i]).0 == pieces@[k].2 && out@[i].1 == to,
                        forall|to: BoardPosition|
                            #![trigger legal_for(self@, color, from, to)]
                            legal_for(self@, color, from, to) && to.index() < row * 8 ==> exists|i: int|
                                0 <= i < out.len() && (#[trigger] out@[i]).0 == from && out@[i].1 == to,
                    decreases 8 - row,
                {
                    let mut col: usize = 0;
                    while col < 8
                        invariant
                            self.wf(),
                            n < pieces.len(),
                            from == pieces@[n as int].2,
                            from.in_bounds(),
                            piece_color == color,
                            self.at(from) == Some((pieces@[n as int].0, piece_color)),
                            mask_wf(moves),
                            forall|q: BoardPosition|
                                q.in_bounds() ==> marks_of(moves)[q.index()] == move_target(self@, from, q),
                            row < 8,
                            col <= 8,
                            forall|i: int|
                                0 <= i < out.len() ==> {
                                    &&& legal_for(self@, color, (#[trigger] out@[i]).0, out@[i].1)
                                    &&& out@[i].2.wf()
                                    &&& out@[i].2@ == moved(self@, out@[i].0, out@[i].1)
                                    &&& (out@[i].0.index() < from.index() || (out@[i].0 == from && out@[i].1.index() < row * 8 + col))
                                },
                            forall|i: int, j: int|
                                0 <= i < j < out.len() ==> move_precedes(
                                    ((#[trigger] out@[i]).0, out@[i].1),
                                    ((#[trigger] out@[j]).0, out@[j].1),
                                ),
                            forall|k: int, to: BoardPosition|
                                #![trigger legal_for(self@, color, pieces@[k].2, to)]
                                0 <= k < n && legal_for(self@, color, pieces@[k].2, to) ==> exists|i: int|
                                    0 <= i < out.len() && (#[trigger] out@[i]).0 == pieces@[k].2 && out@[i].1 == to,
                            forall|to: BoardPosition|
                                #![trigger legal_for(self@, color, from, to)]
                                legal_for(self@, color, from, to) && to.index() < row * 8 + col ==> exists|i: int|
                                    0 <= i < out.len() && (#[trigger] out@[i]).0 == from && out@[i].1 == to,
                        decreases 8 - col,
                    {
                        let to = BoardPosition::from_idx(row, col);
                        if moves.contains(&to) {
                            let mut moved_board = self.clone();
                            if moved_board.move_piece(&from, &to) {
                                let ghost before = out@;
                                out.push((from, to, moved_board));
                                proof {
                                    assert(legal_for(self@, color, from, to));
                                    assert forall|t: BoardPosition|
                                        #![trigger legal_for(self@, color, from, t)]
                                        legal_for(self@, color, from, t) && t.index() < row * 8 + col + 1
                                            implies exists|i: int| 0 <= i < out.len() && (#[trigger] out@[i]).0 == from && out@[i].1 == t by {
                                        if t == to {
                                            assert(out@[out.len() - 1].0 == from && out@[out.len() - 1].1 == t);
                                        } else {
                                            let i = choose|i: int| 0 <= i < before.len() && (#[trigger] before[i]).0 == from && before[i].1 == t;
                                            assert(out@[i] == before[i]);
                                        }
                                    }
                                    assert forall|k: int, t: BoardPosition|
                                        #![trigger legal_for(self@, color, pieces@[k].2, t)]
                                        0 <= k < n && legal_for(self@, color, pieces@[k].2, t)
                                            implies exists|i: int| 0 <= i < out.len() && (#[trigger] out@[i]).0 == pieces@[k].2 && out@[i].1 == t by {
                                        let i = choose|i: int| 0 <= i < before.len() && (#[trigger] before[i]).0 == pieces@[k].2 && before[i].1 == t;
                                        assert(out@[i] == before[i]);
                                    }
                                }
                            } else {
                                proof {
                                    assert(!legal_for(self@, color, from, to));
                                }
                            }
                        } else {
                            proof {
                                assert(!legal_for(self@, color, from, to));
                            }
                        }
                        col += 1;
                    }
                    row += 1;
                }
            } else {
                proof {
                    assert forall|t: BoardPosition| !#[trigger] legal_for(self@, color, from, t) by {}
                }
            }
            proof {
                if n + 1 < pieces.len() {
                    assert(from.index() < pieces@[n + 1].2.index());
                }
            }
            n += 1;
        }
        proof {
            assert forall|from: BoardPosition, to: BoardPosition|
                #![trigger legal_for(self@, color, from, to)]
                legal_for(self@, color, from, to) implies exists|i: int|
                    0 <= i < out.len() && (#[trigger] out@[i]).0 == from && out@[i].1 == to by {
                assert(self.at(from) is Some);
                let k = choose|k: int| 0 <= k < pieces.len() && (#[trigger] pieces@[k]).2 == from;
                assert(legal_for(self@, color, pieces@[k].2, to));
            }
        }
        out
    }
}

impl ChessPiece {
    /// Position of this piece's heat-map among a model's six.
    pub open spec fn heat_map_slot(self) -> nat {
        match self {
            ChessPiece::Pawn => 0,
            ChessPiece::Bishoph => 1,
            ChessPiece::Knight => 2,
            ChessPiece::Rook => 3,
            ChessPiece::Queen => 4,
            ChessPiece::King => 5,
        }
    }

    /// The index of this piece's heat-map: Pawn, Bishop, Knight, Rook, Queen, King.
    pub fn heat_map_index(&self) -> (r: usize)
        ensures
            r == self.heat_map_slot(),
            r < 6,
    {
        match self {
            ChessPiece::Pawn => 0,
            ChessPiece::Bishoph => 1,
            ChessPiece::Knight => 2,
            ChessPiece::Rook => 3,
            ChessPiece::Queen => 4,
            ChessPiece::King => 5,
        }
    }
}

impl Color {
    /// The sign that a score seen by White takes when seen by this side.
    pub fn score_sign(&self) -> (r: i8)
        ensures
            r == (match self {
                Color::White => 1int,
                Color::Black => -1int,
            }),
    {
        match self {
            Color::White => 1,
            Color::Black => -1,
        }
    }
}

/// Crossover of two parents' cells: cell `i` is `own[i]` where `take_own[i]`
/// holds and `other[i]` elsewhere, so each cell comes whole from one parent.
pub fn crossover<T: Copy>(own: &Vec<T>, other: &Vec<T>, take_own: &Vec<bool>) -> (r: Vec<T>)
    requires
        own.len() == other.len(),
        own.len() == take_own.len(),
    ensures
        r.len() == own.len(),
        forall|i: int|
            0 <= i < r.len() ==> #[trigger] r@[i] == if take_own@[i] {
                own@[i]
            } else {
                other@[i]
            },
        forall|i: int| 0 <= i < r.len() ==> #[trigger] r@[i] == own@[i] || r@[i] == other@[i],
{
    let mut child: Vec<T> = Vec::new();
    let mut i: usize = 0;
    while i < own.len()
        invariant
            own.len() == other.len(),
            own.len() == take_own.len(),
            i <= own.len(),
            child.len() == i,
            forall|k: int|
                0 <= k < i ==> #[trigger] child@[k] == if take_own@[k] {
                    own@[k]
                } else {
                    other@[k]
                },
        decreases own.len() - i,
    {
        if take_own[i] {
            child.push(own[i]);
        } else {
            child.push(other[i]);
        }
        i += 1;
    }
    child
}

} // verus!

use crate::board::{starting_color, ChessBoard};
use crate::grid::{blank_marks, mark_at, marks_of, set_mark, MoveMask, Occupant};
use crate::pieces::{cell_index, BoardPosition, ChessPiece, Color, Direction};
use vstd::prelude::*;

verus! {

/// Whether square `p` holds a piece of side `c`.
pub open spec fn holds_color(b: Seq<Occupant>, p: BoardPosition, c: Color) -> bool {
    match b[p.index()] {
        Some((_, pc)) => pc == c,
        None => false,
    }
}

/// Whether the square `j` steps from `from` in direction `d` is on the board and empty.
pub open spec fn clear_at(b: Seq<Occupant>, from: BoardPosition, d: Direction, color: Color, j: int) -> bool {
    match from.toward(d, color, j) {
        Some(q) => b[q.index()] is None,
        None => false,
    }
}

/// A ray from `from` in direction `d` reaches `k` steps: the squares before are
/// empty, and the square itself is on the board and not held by `color`.
#[verifier::opaque]
pub open spec fn ray_reaches(b: Seq<Occupant>, from: BoardPosition, d: Direction, color: Color, k: int) -> bool {
    &&& 1 <= k
    &&& from.toward(d, color, k) is Some
    &&& !holds_color(b, from.toward(d, color, k).unwrap(), color)
    &&& forall|j: int| #![trigger from.toward(d, color, j)] 1 <= j < k ==> clear_at(b, from, d, color, j)
}

/// Square `q` is a destination of the ray from `from` in direction `d`; a
/// `limit`ed ray goes one step only.
pub open spec fn ray_marks(
    b: Seq<Occupant>,
    from: BoardPosition,
    color: Color,
    d: Direction,
    limit: bool,
    q: BoardPosition,
) -> bool {
    exists|k: int|
        #![trigger from.toward(d, color, k)]
        (limit ==> k == 1) && ray_reaches(b, from, d, color, k) && from.toward(d, color, k) == Some(q)
}

pub open spec fn orthogonal_marks(b: Seq<Occupant>, from: BoardPosition, color: Color, limit: bool, q: BoardPosition) -> bool {
    ||| ray_marks(b, from, color, Direction::Forward, limit, q)
    ||| ray_marks(b, from, color, Direction::Left, limit, q)
    ||| ray_marks(b, from, color, Direction::Right, limit, q)
    ||| ray_marks(b, from, color, Direction::Backward, limit, q)
}

pub open spec fn diagonal_marks(b: Seq<Occupant>, from: BoardPosition, color: Color, limit: bool, q: BoardPosition) -> bool {
    ||| ray_marks(b, from, color, Direction::DiagBl, limit, q)
    ||| ray_marks(b, from, color, Direction::DiagBr, limit, q)
    ||| ray_marks(b, from, color, Direction::DiagFr, limit, q)
    ||| ray_marks(b, from, color, Direction::DiagFl, limit, q)
}

/// A pawn moves one square forward onto an empty square; from either pawn rank
/// it may also go two squares forward, with neither square looked at.
pub open spec fn pawn_marks(b: Seq<Occupant>, from: BoardPosition, color: Color, q: BoardPosition) -> bool {
    ||| from.forward_spec(color, 1) == Some(q) && b[q.index()] is None
    ||| (from.y == 1 || from.y == 6) && from.forward_spec(color, 2) == Some(q)
}

/// `q` is a knight's jump from `from`: two squares on one axis and one on the other.
pub open spec fn knight_jump(from: BoardPosition, q: BoardPosition) -> bool {
    let dx = q.x - from.x;
    let dy = q.y - from.y;
    ||| (dx == 1 || dx == -1) && (dy == 2 || dy == -2)
    ||| (dx == 2 || dx == -2) && (dy == 1 || dy == -1)
}

/// Whether the move generator marks `q` for the piece on `from`.
pub open spec fn move_target(b: Seq<Occupant>, from: BoardPosition, q: BoardPosition) -> bool {
    match b[from.index()] {
        None => false,
        Some((piece, color)) => match piece {
            ChessPiece::Pawn => pawn_marks(b, from, color, q),
            ChessPiece::Knight => knight_jump(from, q) && !holds_color(b, q, color),
            ChessPiece::Bishoph => diagonal_marks(b, from, color, false, q),
            ChessPiece::Rook => orthogonal_marks(b, from, color, false, q),
            ChessPiece::Queen => orthogonal_marks(b, from, color, false, q) || diagonal_marks(
                b,
                from,
                color,
                false,
                q,
            ),
            ChessPiece::King => orthogonal_marks(b, from, color, true, q) || diagonal_marks(
                b,
                from,
                color,
                true,
                q,
            ),
        },
    }
}

pub open spec fn mask_wf(m: MoveMask) -> bool {
    marks_of(m).len() == 64
}

impl MoveMask {
    /// Whether the in-bounds square `to` is marked.
    pub fn contains(&self, to: &BoardPosition) -> (r: bool)
        requires
            mask_wf(*self),
            to.in_bounds(),
        ensures
            r == marks_of(*self)[to.index()],
    {
        mark_at(self, to.y as usize, to.x as usize)
    }
}

fn mark(moves: &mut MoveMask, p: &BoardPosition)
    requires
        mask_wf(*old(moves)),
        p.in_bounds(),
    ensures
        mask_wf(*final(moves)),
        forall|q: BoardPosition|
            q.in_bounds() ==> marks_of(*final(moves))[q.index()] == (marks_of(*old(moves))[q.index()] || q == *p),
{
    set_mark(moves, p.y as usize, p.x as usize);
}

/// Marks `target` unless it holds a piece of `color`.
fn mark_unless_own(moves: &mut MoveMask, board: &ChessBoard, target: Option<BoardPosition>, color: Color)
    requires
        mask_wf(*old(moves)),
        board.wf(),
        target matches Some(t) ==> t.in_bounds(),
    ensures
        mask_wf(*final(moves)),
        forall|q: BoardPosition|
            q.in_bounds() ==> marks_of(*final(moves))[q.index()] == (marks_of(*old(moves))[q.index()] || (target
                == Some(q) && !holds_color(board@, q, color))),
{
    if let Some(t) = target {
        let own = match board.get_piece_at_position(&t) {
            Some((_, c)) => c == color,
            None => false,
        };
        if !own {
            mark(moves, &t);
        }
    }
}

/// Marks the squares that a ray from `from` in direction `d` reaches: it stops
/// before a piece of `color`, and on the first piece of the other side.
#[verifier::rlimit(100)]
fn cast_ray(
    moves: &mut MoveMask,
    from: &BoardPosition,
    d: Direction,
    board: &ChessBoard,
    color: Color,
    limit: bool,
)
    requires
        mask_wf(*old(moves)),
        board.wf(),
        from.in_bounds(),
    ensures
        mask_wf(*final(moves)),
        forall|q: BoardPosition|
            q.in_bounds() ==> marks_of(*final(moves))[q.index()] == (marks_of(*old(moves))[q.index()]
                || ray_marks(board@, *from, color, d, limit, q)),
{
    let ghost start = marks_of(*moves);
    let ghost b = board@;
    let mut last = *from;
    let ghost mut steps: int = 0;
    proof {
        reveal(marks_through);
    }
    loop
        invariant_except_break
            limit ==> steps == 0,
            steps >= 1 ==> b[last.index()] is None,
        invariant
            mask_wf(*moves),
            board.wf(),
            b == board@,
            from.in_bounds(),
            start.len() == 64,
            last.in_bounds(),
            0 <= steps <= 7,
            steps == 0 ==> last == *from,
            steps >= 1 ==> from.toward(d, color, steps) == Some(last),
            forall|k: int| 1 <= k <= steps ==> ray_reaches(b, *from, d, color, k),
            marks_through(marks_of(*moves), start, b, *from, d, color, steps),
        ensures
            mask_wf(*moves),
            forall|q: BoardPosition|
                q.in_bounds() ==> marks_of(*moves)[q.index()] == (start[q.index()] || ray_marks(
                    b,
                    *from,
                    color,
                    d,
                    limit,
                    q,
                )),
        decreases 8 - steps,
    {
        let next = last.step(d, &color);
        proof {
            lemma_next_step(*from, d, color, steps, last);
        }
        match next {
            None => {
                proof {
                    lemma_ray_blocked(b, *from, d, color, steps + 1);
                    lemma_ray_closed(b, *from, d, color, limit, steps);
                    lemma_marks_closed(marks_of(*moves), start, b, *from, d, color, limit, steps);
                }
                break ;
            },
            Some(np) => {
                let occupant = board.get_piece_at_position(&np);
                let own = match occupant {
                    Some((_, c)) => c == color,
                    None => false,
                };
                if own {
                    proof {
                        lemma_ray_blocked(b, *from, d, color, steps + 1);
                        lemma_ray_closed(b, *from, d, color, limit, steps);
                        lemma_marks_closed(marks_of(*moves), start, b, *from, d, color, limit, steps);
                    }
                    break ;
                }
                let ghost before = marks_of(*moves);
                mark(moves, &np);
                last = np;
                proof {
                    lemma_ray_extends(b, *from, d, color, steps);
                    lemma_marks_extend(marks_of(*moves), before, start, b, *from, d, color, steps, np);
                    steps = steps + 1;
                }
                if occupant.is_some() || limit {
                    proof {
                        if !limit {
                            lemma_ray_blocked(b, *from, d, color, steps);
                        }
                        lemma_ray_closed(b, *from, d, color, limit, steps);
                        lemma_marks_closed(marks_of(*moves), start, b, *from, d, color, limit, steps);
                    }
                    break ;
                }
            },
        }
    }
}

/// The marks are those of `start` plus the first `steps` squares of the ray.
#[verifier::opaque]
pub open spec fn marks_through(
    m: Seq<bool>,
    start: Seq<bool>,
    b: Seq<Occupant>,
    from: BoardPosition,
    d: Direction,
    color: Color,
    steps: int,
) -> bool {
    &&& m.len() == 64
    &&& start.len() == 64
    &&& forall|q: BoardPosition|
        q.in_bounds() ==> m[q.index()] == (start[q.index()] || exists|k: int|
            #![trigger from.toward(d, color, k)]
            1 <= k <= steps && from.toward(d, color, k) == Some(q))
}

/// One step from the `steps`-th square of a ray is its next square.
proof fn lemma_next_step(from: BoardPosition, d: Direction, color: Color, steps: int, last: BoardPosition)
    requires
        0 <= steps,
        steps == 0 ==> last == from,
        steps >= 1 ==> from.toward(d, color, steps) == Some(last),
    ensures
        last.toward(d, color, 1) == from.toward(d, color, steps + 1),
{
}

/// A square that is not clear blocks every later square of the ray.
proof fn lemma_ray_blocked(b: Seq<Occupant>, from: BoardPosition, d: Direction, color: Color, s: int)
    requires
        1 <= s,
        !clear_at(b, from, d, color, s),
    ensures
        forall|k: int| s < k ==> !#[trigger] ray_reaches(b, from, d, color, k),
        from.toward(d, color, s) is None || holds_color(b, from.toward(d, color, s).unwrap(), color)
            ==> !ray_reaches(b, from, d, color, s),
{
    reveal(ray_reaches);
    assert forall|k: int| s < k implies !#[trigger] ray_reaches(b, from, d, color, k) by {
        if ray_reaches(b, from, d, color, k) {
            assert(clear_at(b, from, d, color, s));
        }
    }
}

/// After `steps` reached squares, the last one empty, the next square is
/// reached when it is on the board and not held by `color`.
proof fn lemma_ray_extends(b: Seq<Occupant>, from: BoardPosition, d: Direction, color: Color, steps: int)
    requires
        0 <= steps,
        forall|k: int| 1 <= k <= steps ==> ray_reaches(b, from, d, color, k),
        steps >= 1 ==> clear_at(b, from, d, color, steps),
        from.toward(d, color, steps + 1) is Some,
        !holds_color(b, from.toward(d, color, steps + 1).unwrap(), color),
    ensures
        ray_reaches(b, from, d, color, steps + 1),
{
    reveal(ray_reaches);
    assert forall|j: int| #![trigger from.toward(d, color, j)] 1 <= j < steps + 1 implies clear_at(
        b,
        from,
        d,
        color,
        j,
    ) by {
        if j < steps {
            assert(ray_reaches(b, from, d, color, steps));
        }
    }
}

proof fn lemma_marks_extend(
    after: Seq<bool>,
    before: Seq<bool>,
    start: Seq<bool>,
    b: Seq<Occupant>,
    from: BoardPosition,
    d: Direction,
    color: Color,
    steps: int,
    np: BoardPosition,
)
    requires
        0 <= steps,
        marks_through(before, start, b, from, d, color, steps),
        after.len() == 64,
        forall|q: BoardPosition| q.in_bounds() ==> after[q.index()] == (before[q.index()] || q == np),
        from.toward(d, color, steps + 1) == Some(np),
    ensures
        marks_through(after, start, b, from, d, color, steps + 1),
{
    reveal(marks_through);
    assert forall|q: BoardPosition| q.in_bounds() implies after[q.index()] == (start[q.index()] || exists|k: int|
        #![trigger from.toward(d, color, k)]
        1 <= k <= steps + 1 && from.toward(d, color, k) == Some(q)) by {
        let e1 = exists|k: int| #![trigger from.toward(d, color, k)] 1 <= k <= steps && from.toward(d, color, k) == Some(q);
        let e2 = exists|k: int| #![trigger from.toward(d, color, k)] 1 <= k <= steps + 1 && from.toward(d, color, k) == Some(q);
        assert(before[q.index()] == (start[q.index()] || e1));
        if q == np {
            assert(from.toward(d, color, steps + 1) == Some(q));
            assert(e2);
        } else {
            if e2 {
                let k = choose|k: int| #![trigger from.toward(d, color, k)] 1 <= k <= steps + 1 && from.toward(d, color, k) == Some(q);
                assert(k <= steps);
                assert(e1);
            }
            if e1 {
                let k = choose|k: int| #![trigger from.toward(d, color, k)] 1 <= k <= steps && from.toward(d, color, k) == Some(q);
                assert(1 <= k <= steps + 1 && from.toward(d, color, k) == Some(q));
            }
        }
    }
}

proof fn lemma_marks_closed(
    m: Seq<bool>,
    start: Seq<bool>,
    b: Seq<Occupant>,
    from: BoardPosition,
    d: Direction,
    color: Color,
    limit: bool,
    steps: int,
)
    requires
        marks_through(m, start, b, from, d, color, steps),
        forall|q: BoardPosition|
            (exists|k: int| #![trigger from.toward(d, color, k)] 1 <= k <= steps && from.toward(d, color, k) == Some(q))
                <==> ray_marks(b, from, color, d, limit, q),
    ensures
        forall|q: BoardPosition|
            q.in_bounds() ==> m[q.index()] == (start[q.index()] || ray_marks(b, from, color, d, limit, q)),
{
    reveal(marks_through);
}

/// Once no step beyond `steps` can be reached, the ray's destinations are the
/// first `steps` squares.
proof fn lemma_ray_closed(
    b: Seq<Occupant>,
    from: BoardPosition,
    d: Direction,
    color: Color,
    limit: bool,
    steps: int,
)
    requires
        limit ==> steps <= 1,
        forall|k: int| 1 <= k <= steps ==> ray_reaches(b, from, d, color, k),
        forall|k: int| steps < k && (limit ==> k == 1) ==> !#[trigger] ray_reaches(b, from, d, color, k),
    ensures
        forall|q: BoardPosition|
            (exists|k: int| #![trigger from.toward(d, color, k)] 1 <= k <= steps && from.toward(d, color, k) == Some(q))
                <==> ray_marks(b, from, color, d, limit, q),
{
    reveal(ray_reaches);
    assert forall|q: BoardPosition|
        (exists|k: int| #![trigger from.toward(d, color, k)] 1 <= k <= steps && from.toward(d, color, k) == Some(q))
            <==> ray_marks(b, from, color, d, limit, q) by {
        if ray_marks(b, from, color, d, limit, q) {
            let k = choose|k: int|
                #![trigger from.toward(d, color, k)]
                (limit ==> k == 1) && ray_reaches(b, from, d, color, k) && from.toward(d, color, k) == Some(q);
            assert(1 <= k <= steps);
        }
        if exists|k: int| #![trigger from.toward(d, color, k)] 1 <= k <= steps && from.toward(d, color, k) == Some(q) {
            let k = choose|k: int| #![trigger from.toward(d, color, k)] 1 <= k <= steps && from.toward(d, color, k) == Some(q);
            assert(ray_reaches(b, from, d, color, k));
        }
    }
}

/// Destinations of a pawn of `color` on `position`. Captures on the forward
/// diagonals are not generated, nor en passant or promotion.
fn pawn_moves(position: &BoardPosition, board: &ChessBoard, color: Color) -> (r: MoveMask)
    requires
        board.wf(),
        position.in_bounds(),
    ensures
        mask_wf(r),
        forall|q: BoardPosition|
            q.in_bounds() ==> marks_of(r)[q.index()] == pawn_marks(board@, *position, color, q),
{
    let mut moves = blank_marks();
    if let Some(forward) = position.forward(&color, 1) {
        if board.get_piece_at_position(&forward).is_none() {
            mark(&mut moves, &forward);
        }
    }
    let layout = ChessPiece::Pawn.get_starting_layout();
    assert(layout@[cell_index(position.x as int, position.y as int)] == starting_color(
        ChessPiece::Pawn,
        position.x as int,
        position.y as int,
    ));
    if layout[position.y as usize * 8 + position.x as usize].is_some() {
        // the pawn still stands on a pawn rank
        if let Some(two_forward) = position.forward(&color, 2) {
            mark(&mut moves, &two_forward);
        }
    }
    moves
}

/// Destinations of a knight of `color` on `position`: two squares in a primary
/// direction, then one square to either side of it.
fn knight_moves(position: &BoardPosition, board: &ChessBoard, color: Color) -> (r: MoveMask)
    requires
        board.wf(),
        position.in_bounds(),
    ensures
        mask_wf(r),
        forall|q: BoardPosition|
            q.in_bounds() ==> marks_of(r)[q.index()] == (knight_jump(*position, q) && !holds_color(
                board@,
                q,
                color,
            )),
{
    let mut moves = blank_marks();
    let ghost m0 = marks_of(moves);
    let f2 = position.forward(&color, 2);
    let l2 = position.left(&color, 2);
    let r2 = position.right(&color, 2);
    let b2 = position.backward(&color, 2);
    let (mut t1, mut t2, mut t3, mut t4) = (None, None, None, None);
    let (mut t5, mut t6, mut t7, mut t8) = (None, None, None, None);
    if let Some(p) = f2 {
        t1 = p.step(Direction::Left, &color);
        t2 = p.step(Direction::Right, &color);
    }
    if let Some(p) = l2 {
        t3 = p.step(Direction::Forward, &color);
        t4 = p.step(Direction::Backward, &color);
    }
    if let Some(p) = r2 {
        t5 = p.step(Direction::Forward, &color);
        t6 = p.step(Direction::Backward, &color);
    }
    if let Some(p) = b2 {
        t7 = p.step(Direction::Left, &color);
        t8 = p.step(Direction::Right, &color);
    }
    proof {
        lemma_knight_targets(*position, color, f2, l2, r2, b2, t1, t2, t3, t4, t5, t6, t7, t8);
    }
    mark_unless_own(&mut moves, board, t1, color);
    mark_unless_own(&mut moves, board, t2, color);
    mark_unless_own(&mut moves, board, t3, color);
    mark_unless_own(&mut moves, board, t4, color);
    mark_unless_own(&mut moves, board, t5, color);
    mark_unless_own(&mut moves, board, t6, color);
    mark_unless_own(&mut moves, board, t7, color);
    mark_unless_own(&mut moves, board, t8, color);
    moves
}

/// The eight squares that `knight_moves` tries are exactly the knight's jumps.
proof fn lemma_knight_targets(
    position: BoardPosition,
    color: Color,
    f2: Option<BoardPosition>,
    l2: Option<BoardPosition>,
    r2: Option<BoardPosition>,
    b2: Option<BoardPosition>,
    t1: Option<BoardPosition>,
    t2: Option<BoardPosition>,
    t3: Option<BoardPosition>,
    t4: Option<BoardPosition>,
    t5: Option<BoardPosition>,
    t6: Option<BoardPosition>,
    t7: Option<BoardPosition>,
    t8: Option<BoardPosition>,
)
    requires
        position.in_bounds(),
        f2 == position.forward_spec(color, 2),
        l2 == position.left_spec(color, 2),
        r2 == position.right_spec(color, 2),
        b2 == position.backward_spec(color, 2),
        t1 == (match f2 { Some(p) => p.toward(Direction::Left, color, 1), None => None }),
        t2 == (match f2 { Some(p) => p.toward(Direction::Right, color, 1), None => None }),
        t3 == (match l2 { Some(p) => p.toward(Direction::Forward, color, 1), None => None }),
        t4 == (match l2 { Some(p) => p.toward(Direction::Backward, color, 1), None => None }),
        t5 == (match r2 { Some(p) => p.toward(Direction::Forward, color, 1), None => None }),
        t6 == (match r2 { Some(p) => p.toward(Direction::Backward, color, 1), None => None }),
        t7 == (match b2 { Some(p) => p.toward(Direction::Left, color, 1), None => None }),
        t8 == (match b2 { Some(p) => p.toward(Direction::Right, color, 1), None => None }),
    ensures
        forall|q: BoardPosition|
            q.in_bounds() ==> (knight_jump(position, q) <==> (t1 == Some(q) || t2 == Some(q) || t3 == Some(q) || t4
                == Some(q) || t5 == Some(q) || t6 == Some(q) || t7 == Some(q) || t8 == Some(q))),
{
}

/// Destinations of a sliding piece of `color` on `position`, along the
/// orthogonal and/or diagonal rays; a `limit`ed piece goes one step.
fn slide_moves(
    position: &BoardPosition,
    board: &ChessBoard,
    color: Color,
    orthogonal: bool,
    diagonal: bool,
    limit: bool,
) -> (r: MoveMask)
    requires
        board.wf(),
        position.in_bounds(),
    ensures
        mask_wf(r),
        forall|q: BoardPosition|
            q.in_bounds() ==> marks_of(r)[q.index()] == ((orthogonal && orthogonal_marks(
                board@,
                *position,
                color,
                limit,
                q,
            )) || (diagonal && diagonal_marks(board@, *position, color, limit, q))),
{
    let mut moves = blank_marks();
    if orthogonal {
        cast_ray(&mut moves, position, Direction::Forward, board, color, limit);
        cast_ray(&mut moves, position, Direction::Left, board, color, limit);
        cast_ray(&mut moves, position, Direction::Right, board, color, limit);
        cast_ray(&mut moves, position, Direction::Backward, board, color, limit);
    }
    if diagonal {
        cast_ray(&mut moves, position, Direction::DiagBl, board, color, limit);
        cast_ray(&mut moves, position, Direction::DiagBr, board, color, limit);
        cast_ray(&mut moves, position, Direction::DiagFr, board, color, limit);
        cast_ray(&mut moves, position, Direction::DiagFl, board, color, limit);
    }
    moves
}

/// Two rays from one square that meet on a square are the same ray, at the same distance.
proof fn lemma_ray_unique(from: BoardPosition, color: Color, d: Direction, k: int, e: Direction, m: int)
    requires
        1 <= k,
        1 <= m,
        from.toward(d, color, k) is Some,
        from.toward(d, color, k) == from.toward(e, color, m),
    ensures
        d == e,
        k == m,
{
}

/// A sliding piece never passes over a piece: when a square strictly between
/// the Rook's, Bishop's or Queen's square and a farther square of the same
/// ray is occupied, by either side, the farther square is not a destination.
pub proof fn lemma_rays_do_not_jump(
    b: Seq<Occupant>,
    from: BoardPosition,
    piece: ChessPiece,
    color: Color,
    d: Direction,
    j: int,
    k: int,
    q: BoardPosition,
)
    requires
        b.len() == 64,
        from.in_bounds(),
        b[from.index()] == Some((piece, color)),
        piece == ChessPiece::Rook || piece == ChessPiece::Bishoph || piece == ChessPiece::Queen,
        1 <= j < k,
        from.toward(d, color, j) matches Some(blocker) && b[blocker.index()] is Some,
        from.toward(d, color, k) == Some(q),
    ensures
        !move_target(b, from, q),
{
    reveal(ray_reaches);
    assert forall|e: Direction| !#[trigger] ray_marks(b, from, color, e, false, q) by {
        if ray_marks(b, from, color, e, false, q) {
            let m = choose|m: int|
                #![trigger from.toward(e, color, m)]
                ray_reaches(b, from, e, color, m) && from.toward(e, color, m) == Some(q);
            lemma_ray_unique(from, color, d, k, e, m);
            assert(clear_at(b, from, d, color, j));
        }
    }
}

/// The King moves to an adjacent square only, never two squares away.
pub proof fn lemma_king_steps_once(b: Seq<Occupant>, from: BoardPosition, color: Color, q: BoardPosition)
    requires
        b.len() == 64,
        from.in_bounds(),
        q.in_bounds(),
        b[from.index()] == Some((ChessPiece::King, color)),
        move_target(b, from, q),
    ensures
        -1 <= q.x - from.x <= 1,
        -1 <= q.y - from.y <= 1,
        q != from,
{
}

impl ChessPiece {
    /// The squares that the piece on `position` may move to. An empty square
    /// has none. Nothing is checked about leaving a king attacked.
    pub fn get_moves(position: &BoardPosition, board: &ChessBoard) -> (r: MoveMask)
        requires
            board.wf(),
            position.in_bounds(),
        ensures
            mask_wf(r),
            forall|q: BoardPosition|
                q.in_bounds() ==> marks_of(r)[q.index()] == move_target(board@, *position, q),
    {
        match board.get_piece_at_position(position) {
            Some((piece, color)) => match piece {
                ChessPiece::Pawn => pawn_moves(position, board, color),
                ChessPiece::Knight => knight_moves(position, board, color),
                ChessPiece::Bishoph => slide_moves(position, board, color, false, true, false),
                ChessPiece::Rook => slide_moves(position, board, color, true, false, false),
                ChessPiece::Queen => slide_moves(position, board, color, true, true, false),
                ChessPiece::King => slide_moves(position, board, color, true, true, true),
            },
            None => {
                let empty = blank_marks();
                empty
            },
        }
    }
}

} // verus!

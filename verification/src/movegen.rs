//! Move generation: the moves each piece can make by its movement rules, before
//! the test for check.

use vstd::prelude::*;
use crate::board::Board;
use crate::moves::Move;
use crate::piece::{Color, PieceType};
use crate::position::{on_board, unit_step, ray_room, forward, Position};

verus! {

/// The move between two squares given by their coordinates.
pub open spec fn move_of(fr: int, fc: int, tr: int, tc: int, promotion: Option<PieceType>) -> Move {
    Move { from: (fr as usize, fc as usize), to: (tr as usize, tc as usize), promotion }
}

/// The four promotions between two squares: to queen, rook, bishop and knight,
/// in this order.
pub open spec fn promotions(fr: int, fc: int, tr: int, tc: int) -> Seq<Move> {
    seq![
        move_of(fr, fc, tr, tc, Some(PieceType::Queen)),
        move_of(fr, fc, tr, tc, Some(PieceType::Rook)),
        move_of(fr, fc, tr, tc, Some(PieceType::Bishop)),
        move_of(fr, fc, tr, tc, Some(PieceType::Knight)),
    ]
}

/// The row on which a side's pawns start.
pub open spec fn pawn_start_row(color: Color) -> int {
    match color {
        Color::White => 1,
        Color::Black => 6,
    }
}

/// The row on which a side's pawns promote.
pub open spec fn promotion_row(color: Color) -> int {
    match color {
        Color::White => 7,
        Color::Black => 0,
    }
}

/// The row on which a side's king and rooks start.
pub open spec fn back_rank(color: Color) -> int {
    match color {
        Color::White => 0,
        Color::Black => 7,
    }
}

/// Every move of the sequence starts on `(r, c)` and ends on the board.
pub open spec fn all_from(moves: Seq<Move>, r: int, c: int) -> bool {
    forall|i: int|
        0 <= i < moves.len() ==> (#[trigger] moves[i]).from == (r as usize, c as usize)
            && moves[i].on_board()
}

impl Position {
    /// A pawn's moves straight ahead: one square onto an empty square, as four
    /// promotions if that is the far rank; else also two squares from the start
    /// row, if both squares are empty.
    pub open spec fn pawn_pushes(self, r: int, c: int, color: Color) -> Seq<Move> {
        let f = r + forward(color);
        if on_board(f, c) && self.at(f, c) is None {
            if f == promotion_row(color) {
                promotions(r, c, f, c)
            } else if r == pawn_start_row(color) && on_board(f + forward(color), c) && self.at(
                f + forward(color),
                c,
            ) is None {
                seq![move_of(r, c, f, c, None), move_of(r, c, f + forward(color), c, None)]
            } else {
                seq![move_of(r, c, f, c, None)]
            }
        } else {
            Seq::empty()
        }
    }

    /// A pawn's capture towards column `c + dc`: onto an enemy piece or onto the
    /// en-passant target, as four promotions on the far rank.
    pub open spec fn pawn_capture(self, r: int, c: int, color: Color, dc: int) -> Seq<Move> {
        let f = r + forward(color);
        let tc = c + dc;
        if on_board(f, tc) && (self.occupied_by(f, tc, color.other()) || self.en_passant_target
            == Some((f as usize, tc as usize))) {
            if f == promotion_row(color) {
                promotions(r, c, f, tc)
            } else {
                seq![move_of(r, c, f, tc, None)]
            }
        } else {
            Seq::empty()
        }
    }

    /// All moves of a pawn on `(r, c)`: pushes, then the capture to the left,
    /// then the capture to the right.
    pub open spec fn pawn_moves(self, r: int, c: int, color: Color) -> Seq<Move> {
        self.pawn_pushes(r, c, color) + self.pawn_capture(r, c, color, -1) + self.pawn_capture(
            r,
            c,
            color,
            1,
        )
    }

    /// The move by a fixed offset, if it ends on the board and not on a piece of
    /// the mover's colour.
    pub open spec fn step_move(self, r: int, c: int, dr: int, dc: int, color: Color) -> Seq<Move> {
        if on_board(r + dr, c + dc) && !self.occupied_by(r + dr, c + dc, color) {
            seq![move_of(r, c, r + dr, c + dc, None)]
        } else {
            Seq::empty()
        }
    }

    /// The moves of a knight on `(r, c)`.
    pub open spec fn knight_moves(self, r: int, c: int, color: Color) -> Seq<Move> {
        self.step_move(r, c, -2, -1, color) + self.step_move(r, c, -2, 1, color) + self.step_move(
            r,
            c,
            -1,
            -2,
            color,
        ) + self.step_move(r, c, -1, 2, color) + self.step_move(r, c, 1, -2, color)
            + self.step_move(r, c, 1, 2, color) + self.step_move(r, c, 2, -1, color)
            + self.step_move(r, c, 2, 1, color)
    }

    /// The moves along one ray of a sliding piece that started on `(fr, fc)` and
    /// has come as far as `(r, c)`: each empty square in turn, then the first
    /// occupied square if an enemy piece stands on it.
    pub open spec fn ray_moves(
        self,
        fr: int,
        fc: int,
        r: int,
        c: int,
        dr: int,
        dc: int,
        color: Color,
    ) -> Seq<Move>
        decreases ray_room(r, c, dr, dc),
    {
        if !on_board(r, c) || !unit_step(dr, dc) || !on_board(r + dr, c + dc) {
            Seq::empty()
        } else {
            match self.at(r + dr, c + dc) {
                Some(p) => if p.color != color {
                    seq![move_of(fr, fc, r + dr, c + dc, None)]
                } else {
                    Seq::empty()
                },
                None => seq![move_of(fr, fc, r + dr, c + dc, None)] + self.ray_moves(
                    fr,
                    fc,
                    r + dr,
                    c + dc,
                    dr,
                    dc,
                    color,
                ),
            }
        }
    }

    /// The moves of a sliding piece along one ray.
    pub open spec fn slide(self, r: int, c: int, dr: int, dc: int, color: Color) -> Seq<Move> {
        self.ray_moves(r, c, r, c, dr, dc, color)
    }

    /// The moves of a sliding piece along each of the given directions in turn.
    pub open spec fn slides(self, r: int, c: int, color: Color, directions: Seq<(i32, i32)>) -> Seq<
        Move,
    >
        decreases directions.len(),
    {
        if directions.len() == 0 {
            Seq::empty()
        } else {
            self.slides(r, c, color, directions.drop_last()) + self.slide(
                r,
                c,
                directions.last().0 as int,
                directions.last().1 as int,
                color,
            )
        }
    }

    /// The moves of a bishop on `(r, c)`.
    pub open spec fn bishop_moves(self, r: int, c: int, color: Color) -> Seq<Move> {
        self.slide(r, c, 1, 1, color) + self.slide(r, c, 1, -1, color) + self.slide(
            r,
            c,
            -1,
            1,
            color,
        ) + self.slide(r, c, -1, -1, color)
    }

    /// The moves of a rook on `(r, c)`.
    pub open spec fn rook_moves(self, r: int, c: int, color: Color) -> Seq<Move> {
        self.slide(r, c, 0, 1, color) + self.slide(r, c, 0, -1, color) + self.slide(
            r,
            c,
            1,
            0,
            color,
        ) + self.slide(r, c, -1, 0, color)
    }

    /// The moves of a queen on `(r, c)`: those of a rook, then those of a bishop.
    pub open spec fn queen_moves(self, r: int, c: int, color: Color) -> Seq<Move> {
        self.rook_moves(r, c, color) + self.bishop_moves(r, c, color)
    }

    /// The side still has the right to castle on the given wing.
    pub open spec fn has_castling_right(self, color: Color, kingside: bool) -> bool {
        match color {
            Color::White => if kingside {
                self.castling_rights.white_kingside
            } else {
                self.castling_rights.white_queenside
            },
            Color::Black => if kingside {
                self.castling_rights.black_kingside
            } else {
                self.castling_rights.black_queenside
            },
        }
    }

    /// Castling on the king's wing is possible for a king that stands on its
    /// home square and is not in check: the right is still there, the two
    /// squares between king and rook are empty, the rook stands in its corner,
    /// and the enemy attacks neither the square the king crosses nor the one it
    /// lands on.
    pub open spec fn can_castle_kingside(self, color: Color) -> bool {
        let back = back_rank(color);
        &&& self.has_castling_right(color, true)
        &&& self.at(back, 5) is None
        &&& self.at(back, 6) is None
        &&& self.holds(back, 7, color, PieceType::Rook)
        &&& !self.attacked_by(back, 5, color.other())
        &&& !self.attacked_by(back, 6, color.other())
    }

    /// The same on the queen's wing, where three squares lie between king and
    /// rook.
    pub open spec fn can_castle_queenside(self, color: Color) -> bool {
        let back = back_rank(color);
        &&& self.has_castling_right(color, false)
        &&& self.at(back, 1) is None
        &&& self.at(back, 2) is None
        &&& self.at(back, 3) is None
        &&& self.holds(back, 0, color, PieceType::Rook)
        &&& !self.attacked_by(back, 3, color.other())
        &&& !self.attacked_by(back, 2, color.other())
    }

    /// The one-square moves of a king on `(r, c)`.
    pub open spec fn king_steps(self, r: int, c: int, color: Color) -> Seq<Move> {
        self.step_move(r, c, -1, -1, color) + self.step_move(r, c, -1, 0, color) + self.step_move(
            r,
            c,
            -1,
            1,
            color,
        ) + self.step_move(r, c, 0, -1, color) + self.step_move(r, c, 0, 1, color)
            + self.step_move(r, c, 1, -1, color) + self.step_move(r, c, 1, 0, color)
            + self.step_move(r, c, 1, 1, color)
    }

    /// The castling moves of a king on `(r, c)`: none unless it stands on its
    /// home square and is not in check; then the king's wing before the queen's.
    pub open spec fn castling_moves(self, r: int, c: int, color: Color) -> Seq<Move> {
        let back = back_rank(color);
        if r != back || c != 4 || self.in_check(color) {
            Seq::empty()
        } else {
            (if self.can_castle_kingside(color) {
                seq![move_of(r, c, back, 6, None)]
            } else {
                Seq::empty()
            }) + (if self.can_castle_queenside(color) {
                seq![move_of(r, c, back, 2, None)]
            } else {
                Seq::empty()
            })
        }
    }

    /// The moves of a king on `(r, c)`: its steps, then its castling moves.
    pub open spec fn king_moves(self, r: int, c: int, color: Color) -> Seq<Move> {
        self.king_steps(r, c, color) + self.castling_moves(r, c, color)
    }

    /// The moves of whatever piece of the given colour stands on `(r, c)`.
    pub open spec fn moves_from(self, r: int, c: int, color: Color) -> Seq<Move> {
        match self.at(r, c) {
            Some(p) => if p.color != color {
                Seq::empty()
            } else {
                match p.piece_type {
                    PieceType::Pawn => self.pawn_moves(r, c, color),
                    PieceType::Knight => self.knight_moves(r, c, color),
                    PieceType::Bishop => self.bishop_moves(r, c, color),
                    PieceType::Rook => self.rook_moves(r, c, color),
                    PieceType::Queen => self.queen_moves(r, c, color),
                    PieceType::King => self.king_moves(r, c, color),
                }
            },
            None => Seq::empty(),
        }
    }

    /// The moves of the pieces on the first `n` squares, counted row by row from
    /// a1.
    pub open spec fn moves_upto(self, color: Color, n: int) -> Seq<Move>
        decreases n,
    {
        if n <= 0 {
            Seq::empty()
        } else {
            self.moves_upto(color, n - 1) + self.moves_from((n - 1) / 8, (n - 1) % 8, color)
        }
    }

    /// Every move of the side by the movement rules, square by square from a1,
    /// whether or not it leaves the side's own king in check.
    pub open spec fn pseudo_legal_moves(self, color: Color) -> Seq<Move> {
        self.moves_upto(color, 64)
    }
}

/// Along a ray every move starts on the slider's square and ends on the board.
pub proof fn lemma_ray_moves_from(
    p: Position,
    fr: int,
    fc: int,
    r: int,
    c: int,
    dr: int,
    dc: int,
    color: Color,
)
    requires
        on_board(fr, fc),
    ensures
        all_from(p.ray_moves(fr, fc, r, c, dr, dc, color), fr, fc),
    decreases ray_room(r, c, dr, dc),
{
    if on_board(r, c) && unit_step(dr, dc) && on_board(r + dr, c + dc) && p.at(r + dr, c + dc)
        is None {
        lemma_ray_moves_from(p, fr, fc, r + dr, c + dc, dr, dc, color);
    }
}

/// Joining sequences does not depend on how the joins are grouped.
pub proof fn lemma_join_assoc(a: Seq<Move>, b: Seq<Move>, c: Seq<Move>)
    ensures
        (a + b) + c == a + (b + c),
{
    assert((a + b) + c =~= a + (b + c));
}

/// If all moves of two sequences start on a square and end on the board, so do
/// all moves of the two joined.
pub proof fn lemma_all_from_join(a: Seq<Move>, b: Seq<Move>, r: int, c: int)
    requires
        all_from(a, r, c),
        all_from(b, r, c),
    ensures
        all_from(a + b, r, c),
{
}

/// A move by a fixed offset starts on its square and ends on the board.
pub proof fn lemma_step_move_from(p: Position, r: int, c: int, dr: int, dc: int, color: Color)
    requires
        on_board(r, c),
    ensures
        all_from(p.step_move(r, c, dr, dc, color), r, c),
{
}

/// A pawn's moves start on its square and end on the board.
pub proof fn lemma_pawn_moves_from(p: Position, r: int, c: int, color: Color)
    requires
        on_board(r, c),
    ensures
        all_from(p.pawn_moves(r, c, color), r, c),
{
    assert(all_from(p.pawn_pushes(r, c, color), r, c));
    assert(all_from(p.pawn_capture(r, c, color, -1), r, c));
    assert(all_from(p.pawn_capture(r, c, color, 1), r, c));
    lemma_all_from_join(p.pawn_pushes(r, c, color), p.pawn_capture(r, c, color, -1), r, c);
    lemma_all_from_join(
        p.pawn_pushes(r, c, color) + p.pawn_capture(r, c, color, -1),
        p.pawn_capture(r, c, color, 1),
        r,
        c,
    );
}

/// Eight sequences joined keep what holds of each.
proof fn lemma_all_from_eight(
    s1: Seq<Move>,
    s2: Seq<Move>,
    s3: Seq<Move>,
    s4: Seq<Move>,
    s5: Seq<Move>,
    s6: Seq<Move>,
    s7: Seq<Move>,
    s8: Seq<Move>,
    r: int,
    c: int,
)
    requires
        all_from(s1, r, c),
        all_from(s2, r, c),
        all_from(s3, r, c),
        all_from(s4, r, c),
        all_from(s5, r, c),
        all_from(s6, r, c),
        all_from(s7, r, c),
        all_from(s8, r, c),
    ensures
        all_from(s1 + s2 + s3 + s4 + s5 + s6 + s7 + s8, r, c),
{
    lemma_all_from_join(s1, s2, r, c);
    lemma_all_from_join(s1 + s2, s3, r, c);
    lemma_all_from_join(s1 + s2 + s3, s4, r, c);
    lemma_all_from_join(s1 + s2 + s3 + s4, s5, r, c);
    lemma_all_from_join(s1 + s2 + s3 + s4 + s5, s6, r, c);
    lemma_all_from_join(s1 + s2 + s3 + s4 + s5 + s6, s7, r, c);
    lemma_all_from_join(s1 + s2 + s3 + s4 + s5 + s6 + s7, s8, r, c);
}

/// A knight's moves start on its square and end on the board.
pub proof fn lemma_knight_moves_from(p: Position, r: int, c: int, color: Color)
    requires
        on_board(r, c),
    ensures
        all_from(p.knight_moves(r, c, color), r, c),
{
    lemma_step_move_from(p, r, c, -2, -1, color);
    lemma_step_move_from(p, r, c, -2, 1, color);
    lemma_step_move_from(p, r, c, -1, -2, color);
    lemma_step_move_from(p, r, c, -1, 2, color);
    lemma_step_move_from(p, r, c, 1, -2, color);
    lemma_step_move_from(p, r, c, 1, 2, color);
    lemma_step_move_from(p, r, c, 2, -1, color);
    lemma_step_move_from(p, r, c, 2, 1, color);
    lemma_all_from_eight(
        p.step_move(r, c, -2, -1, color),
        p.step_move(r, c, -2, 1, color),
        p.step_move(r, c, -1, -2, color),
        p.step_move(r, c, -1, 2, color),
        p.step_move(r, c, 1, -2, color),
        p.step_move(r, c, 1, 2, color),
        p.step_move(r, c, 2, -1, color),
        p.step_move(r, c, 2, 1, color),
        r,
        c,
    );
}

/// A rook's moves start on its square and end on the board.
pub proof fn lemma_rook_moves_from(p: Position, r: int, c: int, color: Color)
    requires
        on_board(r, c),
    ensures
        all_from(p.rook_moves(r, c, color), r, c),
{
    lemma_ray_moves_from(p, r, c, r, c, 0, 1, color);
    lemma_ray_moves_from(p, r, c, r, c, 0, -1, color);
    lemma_ray_moves_from(p, r, c, r, c, 1, 0, color);
    lemma_ray_moves_from(p, r, c, r, c, -1, 0, color);
    lemma_all_from_join(p.slide(r, c, 0, 1, color), p.slide(r, c, 0, -1, color), r, c);
    lemma_all_from_join(
        p.slide(r, c, 0, 1, color) + p.slide(r, c, 0, -1, color),
        p.slide(r, c, 1, 0, color),
        r,
        c,
    );
    lemma_all_from_join(
        p.slide(r, c, 0, 1, color) + p.slide(r, c, 0, -1, color) + p.slide(r, c, 1, 0, color),
        p.slide(r, c, -1, 0, color),
        r,
        c,
    );
}

/// A bishop's moves start on its square and end on the board.
pub proof fn lemma_bishop_moves_from(p: Position, r: int, c: int, color: Color)
    requires
        on_board(r, c),
    ensures
        all_from(p.bishop_moves(r, c, color), r, c),
{
    lemma_ray_moves_from(p, r, c, r, c, 1, 1, color);
    lemma_ray_moves_from(p, r, c, r, c, 1, -1, color);
    lemma_ray_moves_from(p, r, c, r, c, -1, 1, color);
    lemma_ray_moves_from(p, r, c, r, c, -1, -1, color);
    lemma_all_from_join(p.slide(r, c, 1, 1, color), p.slide(r, c, 1, -1, color), r, c);
    lemma_all_from_join(
        p.slide(r, c, 1, 1, color) + p.slide(r, c, 1, -1, color),
        p.slide(r, c, -1, 1, color),
        r,
        c,
    );
    lemma_all_from_join(
        p.slide(r, c, 1, 1, color) + p.slide(r, c, 1, -1, color) + p.slide(r, c, -1, 1, color),
        p.slide(r, c, -1, -1, color),
        r,
        c,
    );
}

/// A king's moves start on its square and end on the board.
pub proof fn lemma_king_moves_from(p: Position, r: int, c: int, color: Color)
    requires
        on_board(r, c),
    ensures
        all_from(p.king_moves(r, c, color), r, c),
{
    lemma_step_move_from(p, r, c, -1, -1, color);
    lemma_step_move_from(p, r, c, -1, 0, color);
    lemma_step_move_from(p, r, c, -1, 1, color);
    lemma_step_move_from(p, r, c, 0, -1, color);
    lemma_step_move_from(p, r, c, 0, 1, color);
    lemma_step_move_from(p, r, c, 1, -1, color);
    lemma_step_move_from(p, r, c, 1, 0, color);
    lemma_step_move_from(p, r, c, 1, 1, color);
    lemma_all_from_eight(
        p.step_move(r, c, -1, -1, color),
        p.step_move(r, c, -1, 0, color),
        p.step_move(r, c, -1, 1, color),
        p.step_move(r, c, 0, -1, color),
        p.step_move(r, c, 0, 1, color),
        p.step_move(r, c, 1, -1, color),
        p.step_move(r, c, 1, 0, color),
        p.step_move(r, c, 1, 1, color),
        r,
        c,
    );
    assert(all_from(p.castling_moves(r, c, color), r, c));
    lemma_all_from_join(p.king_steps(r, c, color), p.castling_moves(r, c, color), r, c);
}

/// Every move that the rules give a piece starts on the piece's square and ends
/// on the board.
pub proof fn lemma_moves_from_square(p: Position, r: int, c: int, color: Color)
    requires
        on_board(r, c),
    ensures
        all_from(p.moves_from(r, c, color), r, c),
{
    lemma_pawn_moves_from(p, r, c, color);
    lemma_knight_moves_from(p, r, c, color);
    lemma_bishop_moves_from(p, r, c, color);
    lemma_rook_moves_from(p, r, c, color);
    lemma_king_moves_from(p, r, c, color);
    lemma_all_from_join(p.rook_moves(r, c, color), p.bishop_moves(r, c, color), r, c);
}

/// Every pseudo-legal move lies on the board.
pub proof fn lemma_moves_upto_on_board(p: Position, color: Color, n: int)
    requires
        n <= 64,
    ensures
        forall|i: int|
            0 <= i < p.moves_upto(color, n).len() ==> (#[trigger] p.moves_upto(
                color,
                n,
            )[i]).on_board(),
    decreases n,
{
    if n > 0 {
        lemma_moves_upto_on_board(p, color, n - 1);
        lemma_moves_from_square(p, (n - 1) / 8, (n - 1) % 8, color);
        let head = p.moves_upto(color, n - 1);
        let tail = p.moves_from((n - 1) / 8, (n - 1) % 8, color);
        assert forall|i: int| 0 <= i < (head + tail).len() implies (#[trigger] (head + tail)[i]).on_board() by {
            if i >= head.len() {
                assert((head + tail)[i] == tail[i - head.len()]);
            }
        }
    }
}

/// Sliding along the directions of two lists joined gives the moves of the
/// first list, then those of the second.
pub proof fn lemma_slides_join(
    p: Position,
    r: int,
    c: int,
    color: Color,
    a: Seq<(i32, i32)>,
    b: Seq<(i32, i32)>,
)
    ensures
        p.slides(r, c, color, a + b) == p.slides(r, c, color, a) + p.slides(r, c, color, b),
    decreases b.len(),
{
    if b.len() == 0 {
        assert(a + b =~= a);
        assert(p.slides(r, c, color, a) + Seq::<Move>::empty() =~= p.slides(r, c, color, a));
    } else {
        assert((a + b).drop_last() =~= a + b.drop_last());
        assert((a + b).last() == b.last());
        lemma_slides_join(p, r, c, color, a, b.drop_last());
        lemma_join_assoc(
            p.slides(r, c, color, a),
            p.slides(r, c, color, b.drop_last()),
            p.slide(r, c, b.last().0 as int, b.last().1 as int, color),
        );
    }
}

/// Sliding along four directions gives the moves along each in turn.
pub proof fn lemma_slides_four(p: Position, r: int, c: int, color: Color, d: Seq<(i32, i32)>)
    requires
        d.len() == 4,
    ensures
        p.slides(r, c, color, d) == p.slide(r, c, d[0].0 as int, d[0].1 as int, color) + p.slide(
            r,
            c,
            d[1].0 as int,
            d[1].1 as int,
            color,
        ) + p.slide(r, c, d[2].0 as int, d[2].1 as int, color) + p.slide(
            r,
            c,
            d[3].0 as int,
            d[3].1 as int,
            color,
        ),
{
    let d3 = d.drop_last();
    let d2 = d3.drop_last();
    let d1 = d2.drop_last();
    let d0 = d1.drop_last();
    assert(p.slides(r, c, color, d0) =~= Seq::<Move>::empty());
    assert(p.slides(r, c, color, d1) =~= p.slide(r, c, d[0].0 as int, d[0].1 as int, color));
    assert(p.slides(r, c, color, d2) == p.slides(r, c, color, d1) + p.slide(
        r,
        c,
        d[1].0 as int,
        d[1].1 as int,
        color,
    ));
    assert(p.slides(r, c, color, d3) == p.slides(r, c, color, d2) + p.slide(
        r,
        c,
        d[2].0 as int,
        d[2].1 as int,
        color,
    ));
}

impl Board {
    /// Appends the move by a fixed offset, if the rules allow it.
    fn push_step(&self, row: usize, col: usize, dr: i32, dc: i32, color: Color, moves: &mut Vec<Move>)
        requires
            row < 8,
            col < 8,
            -2 <= dr <= 2,
            -2 <= dc <= 2,
        ensures
            final(moves)@ == old(moves)@ + self@.step_move(
                row as int,
                col as int,
                dr as int,
                dc as int,
                color,
            ),
    {
        let r: i32 = row as i32 + dr;
        let c: i32 = col as i32 + dc;
        if !Self::in_bounds(r, c) {
            assert(moves@ =~= old(moves)@ + Seq::<Move>::empty());
            return ;
        }
        let own = match self.squares[r as usize][c as usize] {
            Some(p) => p.color == color,
            None => false,
        };
        if own {
            assert(moves@ =~= old(moves)@ + Seq::<Move>::empty());
            return ;
        }
        moves.push(Move { from: (row, col), to: (r as usize, c as usize), promotion: None });
        assert(moves@ =~= old(moves)@ + seq![
            move_of(row as int, col as int, r as int, c as int, None),
        ]);
    }

    /// Appends the four promotions between two squares.
    fn push_promotions(from: (usize, usize), to: (usize, usize), moves: &mut Vec<Move>)
        requires
            from.0 < 8,
            from.1 < 8,
            to.0 < 8,
            to.1 < 8,
        ensures
            final(moves)@ == old(moves)@ + promotions(
                from.0 as int,
                from.1 as int,
                to.0 as int,
                to.1 as int,
            ),
    {
        moves.push(Move { from, to, promotion: Some(PieceType::Queen) });
        moves.push(Move { from, to, promotion: Some(PieceType::Rook) });
        moves.push(Move { from, to, promotion: Some(PieceType::Bishop) });
        moves.push(Move { from, to, promotion: Some(PieceType::Knight) });
        assert(moves@ =~= old(moves)@ + promotions(
            from.0 as int,
            from.1 as int,
            to.0 as int,
            to.1 as int,
        ));
    }

    /// Appends a pawn's capture towards one side, if the rules allow it.
    fn push_pawn_capture(&self, row: usize, col: usize, color: Color, dc: i32, moves: &mut Vec<Move>)
        requires
            row < 8,
            col < 8,
            -1 <= dc <= 1,
        ensures
            final(moves)@ == old(moves)@ + self@.pawn_capture(
                row as int,
                col as int,
                color,
                dc as int,
            ),
    {
        let dir: i32 = match color {
            Color::White => 1,
            Color::Black => -1,
        };
        let promo_row: usize = match color {
            Color::White => 7,
            Color::Black => 0,
        };
        let forward_row: i32 = row as i32 + dir;
        let nc: i32 = col as i32 + dc;
        if !Self::in_bounds(forward_row, nc) {
            assert(moves@ =~= old(moves)@ + Seq::<Move>::empty());
            return ;
        }
        let tr: usize = forward_row as usize;
        let tc: usize = nc as usize;
        let is_capture = match self.squares[tr][tc] {
            Some(p) => p.color != color,
            None => false,
        };
        let is_en_passant = match self.en_passant_target {
            Some((er, ec)) => er == tr && ec == tc,
            None => false,
        };
        if is_capture || is_en_passant {
            if tr == promo_row {
                Self::push_promotions((row, col), (tr, tc), moves);
            } else {
                moves.push(Move { from: (row, col), to: (tr, tc), promotion: None });
                assert(moves@ =~= old(moves)@ + seq![
                    move_of(row as int, col as int, tr as int, tc as int, None),
                ]);
            }
        } else {
            assert(moves@ =~= old(moves)@ + Seq::<Move>::empty());
        }
    }

    /// Appends a pawn's moves straight ahead.
    fn push_pawn_advances(&self, row: usize, col: usize, color: Color, moves: &mut Vec<Move>)
        requires
            row < 8,
            col < 8,
        ensures
            final(moves)@ == old(moves)@ + self@.pawn_pushes(row as int, col as int, color),
    {
        let dir: i32 = match color {
            Color::White => 1,
            Color::Black => -1,
        };
        let start_row: usize = match color {
            Color::White => 1,
            Color::Black => 6,
        };
        let promo_row: usize = match color {
            Color::White => 7,
            Color::Black => 0,
        };
        let forward_row: i32 = row as i32 + dir;
        if !Self::in_bounds(forward_row, col as i32) {
            assert(moves@ =~= old(moves)@ + Seq::<Move>::empty());
            return ;
        }
        let tr: usize = forward_row as usize;
        if self.squares[tr][col].is_some() {
            assert(moves@ =~= old(moves)@ + Seq::<Move>::empty());
            return ;
        }
        if tr == promo_row {
            Self::push_promotions((row, col), (tr, col), moves);
            return ;
        }
        moves.push(Move { from: (row, col), to: (tr, col), promotion: None });
        let double: i32 = forward_row + dir;
        if row == start_row && Self::in_bounds(double, col as i32)
            && self.squares[double as usize][col].is_none() {
            moves.push(Move { from: (row, col), to: (double as usize, col), promotion: None });
            assert(moves@ =~= old(moves)@ + seq![
                move_of(row as int, col as int, tr as int, col as int, None),
                move_of(row as int, col as int, double as int, col as int, None),
            ]);
        } else {
            assert(moves@ =~= old(moves)@ + seq![
                move_of(row as int, col as int, tr as int, col as int, None),
            ]);
        }
    }

    /// Appends the moves of a pawn that stands on the square.
    pub fn generate_pawn_moves(&self, row: usize, col: usize, color: Color, moves: &mut Vec<Move>)
        requires
            row < 8,
            col < 8,
        ensures
            final(moves)@ == old(moves)@ + self@.pawn_moves(row as int, col as int, color),
    {
        let ghost p = self@;
        let ghost (r, c) = (row as int, col as int);
        let ghost s0 = moves@;
        self.push_pawn_advances(row, col, color, moves);
        self.push_pawn_capture(row, col, color, -1, moves);
        self.push_pawn_capture(row, col, color, 1, moves);
        proof {
            lemma_join_assoc(s0, p.pawn_pushes(r, c, color), p.pawn_capture(r, c, color, -1));
            lemma_join_assoc(
                s0,
                p.pawn_pushes(r, c, color) + p.pawn_capture(r, c, color, -1),
                p.pawn_capture(r, c, color, 1),
            );
        }
    }

    /// Appends the moves of a knight that stands on the square.
    pub fn generate_knight_moves(&self, row: usize, col: usize, color: Color, moves: &mut Vec<Move>)
        requires
            row < 8,
            col < 8,
        ensures
            final(moves)@ == old(moves)@ + self@.knight_moves(row as int, col as int, color),
    {
        let ghost p = self@;
        let ghost (r, c) = (row as int, col as int);
        let ghost s0 = moves@;
        self.push_step(row, col, -2, -1, color, moves);
        self.push_step(row, col, -2, 1, color, moves);
        let ghost j2 = p.step_move(r, c, -2, -1, color) + p.step_move(r, c, -2, 1, color);
        proof {
            lemma_join_assoc(s0, p.step_move(r, c, -2, -1, color), p.step_move(r, c, -2, 1, color));
        }
        self.push_step(row, col, -1, -2, color, moves);
        let ghost j3 = j2 + p.step_move(r, c, -1, -2, color);
        proof {
            lemma_join_assoc(s0, j2, p.step_move(r, c, -1, -2, color));
        }
        self.push_step(row, col, -1, 2, color, moves);
        let ghost j4 = j3 + p.step_move(r, c, -1, 2, color);
        proof {
            lemma_join_assoc(s0, j3, p.step_move(r, c, -1, 2, color));
        }
        self.push_step(row, col, 1, -2, color, moves);
        let ghost j5 = j4 + p.step_move(r, c, 1, -2, color);
        proof {
            lemma_join_assoc(s0, j4, p.step_move(r, c, 1, -2, color));
        }
        self.push_step(row, col, 1, 2, color, moves);
        let ghost j6 = j5 + p.step_move(r, c, 1, 2, color);
        proof {
            lemma_join_assoc(s0, j5, p.step_move(r, c, 1, 2, color));
        }
        self.push_step(row, col, 2, -1, color, moves);
        let ghost j7 = j6 + p.step_move(r, c, 2, -1, color);
        proof {
            lemma_join_assoc(s0, j6, p.step_move(r, c, 2, -1, color));
        }
        self.push_step(row, col, 2, 1, color, moves);
        proof {
            lemma_join_assoc(s0, j7, p.step_move(r, c, 2, 1, color));
        }
    }

    /// Appends the moves of a sliding piece along one ray.
    fn push_ray(&self, row: usize, col: usize, dr: i32, dc: i32, color: Color, moves: &mut Vec<Move>)
        requires
            row < 8,
            col < 8,
            unit_step(dr as int, dc as int),
        ensures
            final(moves)@ == old(moves)@ + self@.slide(
                row as int,
                col as int,
                dr as int,
                dc as int,
                color,
            ),
    {
        let mut r: i32 = row as i32;
        let mut c: i32 = col as i32;
        loop
            invariant
                row < 8,
                col < 8,
                on_board(r as int, c as int),
                unit_step(dr as int, dc as int),
                old(moves)@ + self@.slide(row as int, col as int, dr as int, dc as int, color)
                    == moves@ + self@.ray_moves(
                    row as int,
                    col as int,
                    r as int,
                    c as int,
                    dr as int,
                    dc as int,
                    color,
                ),
            decreases ray_room(r as int, c as int, dr as int, dc as int),
        {
            let ghost before = moves@;
            let ghost rest = self@.ray_moves(
                row as int,
                col as int,
                r as int,
                c as int,
                dr as int,
                dc as int,
                color,
            );
            let nr: i32 = r + dr;
            let nc: i32 = c + dc;
            if !Self::in_bounds(nr, nc) {
                assert(before + rest =~= before);
                return ;
            }
            let tr: usize = nr as usize;
            let tc: usize = nc as usize;
            if let Some(p) = self.squares[tr][tc] {
                if p.color != color {
                    moves.push(Move { from: (row, col), to: (tr, tc), promotion: None });
                }
                assert(moves@ =~= before + rest);
                return ;
            }
            moves.push(Move { from: (row, col), to: (tr, tc), promotion: None });
            assert(before + rest =~= moves@ + self@.ray_moves(
                row as int,
                col as int,
                nr as int,
                nc as int,
                dr as int,
                dc as int,
                color,
            ));
            r = nr;
            c = nc;
        }
    }

    /// Appends the moves of a sliding piece along each of the given directions
    /// in turn.
    pub fn generate_sliding_moves(
        &self,
        row: usize,
        col: usize,
        color: Color,
        directions: &[(i32, i32)],
        moves: &mut Vec<Move>,
    )
        requires
            row < 8,
            col < 8,
            forall|i: int|
                0 <= i < directions@.len() ==> unit_step(
                    (#[trigger] directions@[i]).0 as int,
                    directions@[i].1 as int,
                ),
        ensures
            final(moves)@ == old(moves)@ + self@.slides(row as int, col as int, color, directions@),
    {
        let mut i: usize = 0;
        while i < directions.len()
            invariant
                row < 8,
                col < 8,
                i <= directions@.len(),
                forall|k: int|
                    0 <= k < directions@.len() ==> unit_step(
                        (#[trigger] directions@[k]).0 as int,
                        directions@[k].1 as int,
                    ),
                moves@ == old(moves)@ + self@.slides(
                    row as int,
                    col as int,
                    color,
                    directions@.take(i as int),
                ),
            decreases directions.len() - i,
        {
            let ghost before = moves@;
            let (dr, dc) = directions[i];
            self.push_ray(row, col, dr, dc, color, moves);
            proof {
                let next = directions@.take(i + 1);
                assert(next.drop_last() =~= directions@.take(i as int));
                assert(next.last() == directions@[i as int]);
                assert(moves@ =~= old(moves)@ + self@.slides(row as int, col as int, color, next));
            }
            i += 1;
        }
        assert(directions@.take(i as int) =~= directions@);
    }

    /// Appends the moves of a bishop that stands on the square.
    pub fn generate_bishop_moves(&self, row: usize, col: usize, color: Color, moves: &mut Vec<Move>)
        requires
            row < 8,
            col < 8,
        ensures
            final(moves)@ == old(moves)@ + self@.bishop_moves(row as int, col as int, color),
    {
        let dirs: [(i32, i32); 4] = [(1, 1), (1, -1), (-1, 1), (-1, -1)];
        proof {
            lemma_slides_four(self@, row as int, col as int, color, dirs@);
        }
        self.generate_sliding_moves(row, col, color, &dirs, moves);
    }

    /// Appends the moves of a rook that stands on the square.
    pub fn generate_rook_moves(&self, row: usize, col: usize, color: Color, moves: &mut Vec<Move>)
        requires
            row < 8,
            col < 8,
        ensures
            final(moves)@ == old(moves)@ + self@.rook_moves(row as int, col as int, color),
    {
        let dirs: [(i32, i32); 4] = [(0, 1), (0, -1), (1, 0), (-1, 0)];
        proof {
            lemma_slides_four(self@, row as int, col as int, color, dirs@);
        }
        self.generate_sliding_moves(row, col, color, &dirs, moves);
    }

    /// Appends the moves of a queen that stands on the square.
    pub fn generate_queen_moves(&self, row: usize, col: usize, color: Color, moves: &mut Vec<Move>)
        requires
            row < 8,
            col < 8,
        ensures
            final(moves)@ == old(moves)@ + self@.queen_moves(row as int, col as int, color),
    {
        let dirs: [(i32, i32); 8] = [
            (0, 1),
            (0, -1),
            (1, 0),
            (-1, 0),
            (1, 1),
            (1, -1),
            (-1, 1),
            (-1, -1),
        ];
        proof {
            let straight = dirs@.subrange(0, 4);
            let diagonal = dirs@.subrange(4, 8);
            assert(dirs@ =~= straight + diagonal);
            lemma_slides_join(self@, row as int, col as int, color, straight, diagonal);
            lemma_slides_four(self@, row as int, col as int, color, straight);
            lemma_slides_four(self@, row as int, col as int, color, diagonal);
        }
        self.generate_sliding_moves(row, col, color, &dirs, moves);
    }

    /// Appends the one-square moves of a king that stands on the square.
    fn push_king_steps(&self, row: usize, col: usize, color: Color, moves: &mut Vec<Move>)
        requires
            row < 8,
            col < 8,
        ensures
            final(moves)@ == old(moves)@ + self@.king_steps(row as int, col as int, color),
    {
        let ghost p = self@;
        let ghost (r, c) = (row as int, col as int);
        let ghost s0 = moves@;
        self.push_step(row, col, -1, -1, color, moves);
        self.push_step(row, col, -1, 0, color, moves);
        let ghost j2 = p.step_move(r, c, -1, -1, color) + p.step_move(r, c, -1, 0, color);
        proof {
            lemma_join_assoc(s0, p.step_move(r, c, -1, -1, color), p.step_move(r, c, -1, 0, color));
        }
        self.push_step(row, col, -1, 1, color, moves);
        let ghost j3 = j2 + p.step_move(r, c, -1, 1, color);
        proof {
            lemma_join_assoc(s0, j2, p.step_move(r, c, -1, 1, color));
        }
        self.push_step(row, col, 0, -1, color, moves);
        let ghost j4 = j3 + p.step_move(r, c, 0, -1, color);
        proof {
            lemma_join_assoc(s0, j3, p.step_move(r, c, 0, -1, color));
        }
        self.push_step(row, col, 0, 1, color, moves);
        let ghost j5 = j4 + p.step_move(r, c, 0, 1, color);
        proof {
            lemma_join_assoc(s0, j4, p.step_move(r, c, 0, 1, color));
        }
        self.push_step(row, col, 1, -1, color, moves);
        let ghost j6 = j5 + p.step_move(r, c, 1, -1, color);
        proof {
            lemma_join_assoc(s0, j5, p.step_move(r, c, 1, -1, color));
        }
        self.push_step(row, col, 1, 0, color, moves);
        let ghost j7 = j6 + p.step_move(r, c, 1, 0, color);
        proof {
            lemma_join_assoc(s0, j6, p.step_move(r, c, 1, 0, color));
        }
        self.push_step(row, col, 1, 1, color, moves);
        proof {
            lemma_join_assoc(s0, j7, p.step_move(r, c, 1, 1, color));
        }
    }

    /// Whether the side may castle on the king's wing, its king standing on its
    /// home square and not in check.
    fn kingside_castling_open(&self, color: Color) -> (b: bool)
        ensures
            b == self@.can_castle_kingside(color),
    {
        let back_rank: usize = match color {
            Color::White => 0,
            Color::Black => 7,
        };
        let can_kingside = match color {
            Color::White => self.castling_rights.white_kingside,
            Color::Black => self.castling_rights.black_kingside,
        };
        let rook_present = match self.squares[back_rank][7] {
            Some(p) => p.piece_type == PieceType::Rook && p.color == color,
            None => false,
        };
        can_kingside && self.squares[back_rank][5].is_none() && self.squares[back_rank][6].is_none()
            && rook_present && !self.is_square_attacked_by(back_rank, 5, color.opposite())
            && !self.is_square_attacked_by(back_rank, 6, color.opposite())
    }

    /// Whether the side may castle on the queen's wing, its king standing on its
    /// home square and not in check.
    fn queenside_castling_open(&self, color: Color) -> (b: bool)
        ensures
            b == self@.can_castle_queenside(color),
    {
        let back_rank: usize = match color {
            Color::White => 0,
            Color::Black => 7,
        };
        let can_queenside = match color {
            Color::White => self.castling_rights.white_queenside,
            Color::Black => self.castling_rights.black_queenside,
        };
        let rook_present = match self.squares[back_rank][0] {
            Some(p) => p.piece_type == PieceType::Rook && p.color == color,
            None => false,
        };
        can_queenside && self.squares[back_rank][1].is_none() && self.squares[back_rank][2].is_none()
            && self.squares[back_rank][3].is_none() && rook_present && !self.is_square_attacked_by(
            back_rank,
            3,
            color.opposite(),
        ) && !self.is_square_attacked_by(back_rank, 2, color.opposite())
    }

    /// Appends the castling moves of a king that stands on the square.
    fn push_castling(&self, row: usize, col: usize, color: Color, moves: &mut Vec<Move>)
        requires
            row < 8,
            col < 8,
        ensures
            final(moves)@ == old(moves)@ + self@.castling_moves(row as int, col as int, color),
    {
        let back_rank: usize = match color {
            Color::White => 0,
            Color::Black => 7,
        };
        if row != back_rank || col != 4 {
            assert(moves@ =~= old(moves)@ + Seq::<Move>::empty());
            return ;
        }
        if self.is_in_check(color) {
            assert(moves@ =~= old(moves)@ + Seq::<Move>::empty());
            return ;
        }
        let ghost kingside: Seq<Move> = if self@.can_castle_kingside(color) {
            seq![move_of(row as int, col as int, back_rank as int, 6, None)]
        } else {
            Seq::empty()
        };
        let ghost queenside: Seq<Move> = if self@.can_castle_queenside(color) {
            seq![move_of(row as int, col as int, back_rank as int, 2, None)]
        } else {
            Seq::empty()
        };
        if self.kingside_castling_open(color) {
            moves.push(Move { from: (row, col), to: (back_rank, 6), promotion: None });
        }
        assert(moves@ =~= old(moves)@ + kingside);
        if self.queenside_castling_open(color) {
            moves.push(Move { from: (row, col), to: (back_rank, 2), promotion: None });
        }
        assert(moves@ =~= old(moves)@ + (kingside + queenside));
    }

    /// Appends the moves of a king that stands on the square, castling included.
    pub fn generate_king_moves(&self, row: usize, col: usize, color: Color, moves: &mut Vec<Move>)
        requires
            row < 8,
            col < 8,
        ensures
            final(moves)@ == old(moves)@ + self@.king_moves(row as int, col as int, color),
    {
        let ghost s0 = moves@;
        self.push_king_steps(row, col, color, moves);
        self.push_castling(row, col, color, moves);
        proof {
            lemma_join_assoc(
                s0,
                self@.king_steps(row as int, col as int, color),
                self@.castling_moves(row as int, col as int, color),
            );
        }
    }

    /// Every move of the side by the movement rules, whether or not it leaves
    /// the side's own king in check: exactly the moves that follow the rules,
    /// square by square from a1.
    pub fn generate_moves(&self, color: Color) -> (moves: Vec<Move>)
        ensures
            moves@ == self@.pseudo_legal_moves(color),
            forall|m: Move| #[trigger] moves@.contains(m) <==> self@.follows_rules(color, m),
            forall|i: int| 0 <= i < moves@.len() ==> (#[trigger] moves@[i]).on_board(),
    {
        let mut moves: Vec<Move> = Vec::new();
        let mut idx: usize = 0;
        assert(moves@ =~= self@.moves_upto(color, 0));
        while idx < 64
            invariant
                idx <= 64,
                moves@ == self@.moves_upto(color, idx as int),
            decreases 64 - idx,
        {
            let row: usize = idx / 8;
            let col: usize = idx % 8;
            let ghost before = moves@;
            match self.squares[row][col] {
                Some(piece) => {
                    if piece.color == color {
                        match piece.piece_type {
                            PieceType::Pawn => self.generate_pawn_moves(row, col, color, &mut moves),
                            PieceType::Knight => self.generate_knight_moves(
                                row,
                                col,
                                color,
                                &mut moves,
                            ),
                            PieceType::Bishop => self.generate_bishop_moves(
                                row,
                                col,
                                color,
                                &mut moves,
                            ),
                            PieceType::Rook => self.generate_rook_moves(row, col, color, &mut moves),
                            PieceType::Queen => self.generate_queen_moves(
                                row,
                                col,
                                color,
                                &mut moves,
                            ),
                            PieceType::King => self.generate_king_moves(row, col, color, &mut moves),
                        }
                    } else {
                        assert(moves@ =~= before + Seq::<Move>::empty());
                    }
                },
                None => {
                    assert(moves@ =~= before + Seq::<Move>::empty());
                },
            }
            idx += 1;
        }
        proof {
            lemma_moves_upto_on_board(self@, color, 64);
            assert forall|m: Move| #[trigger] moves@.contains(m) <==> self@.follows_rules(
                color,
                m,
            ) by {
                crate::rules::lemma_pseudo_legal_rule(self@, color, m);
            }
        }
        moves
    }
}

} // verus!

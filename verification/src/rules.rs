//! The movement rules stated square by square, and the proof that move
//! generation produces exactly the moves that obey them.

use vstd::prelude::*;
use crate::moves::Move;
use crate::movegen::{back_rank, move_of, pawn_start_row, promotion_row};
use crate::piece::{Color, PieceType};
use crate::position::{forward, knight_jump, on_board, ray_room, unit_step, Position};

verus! {

/// Square `(tr, tc)` lies ahead of `(r, c)` in the direction `(dr, dc)`: some
/// number of steps in that direction, at least one, leads from the one to the
/// other.
pub open spec fn ahead(r: int, c: int, dr: int, dc: int, tr: int, tc: int) -> bool {
    let a = tr - r;
    let b = tc - c;
    &&& unit_step(dr, dc)
    &&& (dr == 0 ==> a == 0)
    &&& (dr == 1 ==> a > 0)
    &&& (dr == -1 ==> a < 0)
    &&& (dc == 0 ==> b == 0)
    &&& (dc == 1 ==> b > 0)
    &&& (dc == -1 ==> b < 0)
    &&& (dr != 0 && dr == dc ==> a == b)
    &&& (dr != 0 && dr == -dc ==> a == -b)
}

/// The sign of a number: -1, 0 or 1.
pub open spec fn sign(x: int) -> int {
    if x > 0 {
        1
    } else if x < 0 {
        -1
    } else {
        0
    }
}

/// The two squares differ and lie on one rank or file.
pub open spec fn on_straight(r: int, c: int, tr: int, tc: int) -> bool {
    (r == tr) != (c == tc)
}

/// The two squares differ and lie on one diagonal.
pub open spec fn on_diagonal(r: int, c: int, tr: int, tc: int) -> bool {
    r != tr && (tr - r == tc - c || tr - r == c - tc)
}

impl Position {
    /// Every square strictly between the two squares, along the line from the
    /// first to the second, is empty.
    pub open spec fn clear_between(self, r: int, c: int, tr: int, tc: int) -> bool {
        let (dr, dc) = (sign(tr - r), sign(tc - c));
        forall|i: int, j: int|
            ahead(r, c, dr, dc, i, j) && ahead(i, j, dr, dc, tr, tc) ==> (#[trigger] self.at(
                i,
                j,
            )) is None
    }

    /// A sliding piece of the given colour may go from the one square to the
    /// other: the squares between are empty and no piece of its own colour
    /// stands on the destination.
    pub open spec fn slides_to(self, r: int, c: int, tr: int, tc: int, color: Color) -> bool {
        on_board(tr, tc) && self.clear_between(r, c, tr, tc) && !self.occupied_by(tr, tc, color)
    }

    /// The rule for a pawn's move: it promotes exactly on the far rank, to a
    /// queen, rook, bishop or knight; and it goes one square ahead onto an
    /// empty square, or two from its start row over an empty square onto an
    /// empty square, or one square diagonally ahead onto an enemy piece or onto
    /// the en-passant target.
    pub open spec fn pawn_rule(self, color: Color, m: Move) -> bool {
        let (fr, fc) = (m.from.0 as int, m.from.1 as int);
        let (tr, tc) = (m.to.0 as int, m.to.1 as int);
        let f = forward(color);
        &&& (tr == promotion_row(color)) == (m.promotion is Some)
        &&& m.promotion is Some ==> m.promotion->0 != PieceType::Pawn && m.promotion->0
            != PieceType::King
        &&& {
            ||| tc == fc && tr == fr + f && self.at(tr, tc) is None
            ||| tc == fc && fr == pawn_start_row(color) && tr == fr + 2 * f && fr + f
                != promotion_row(color) && self.at(fr + f, fc) is None && self.at(tr, tc) is None
            ||| (tc == fc - 1 || tc == fc + 1) && tr == fr + f && (self.occupied_by(
                tr,
                tc,
                color.other(),
            ) || self.en_passant_target == Some(m.to))
        }
    }

    /// The rule for castling: the king stands on its home square and is not in
    /// check, and goes two squares towards a wing on which castling is possible.
    pub open spec fn castling_rule(self, color: Color, m: Move) -> bool {
        let back = back_rank(color);
        &&& m.from.0 == back
        &&& m.from.1 == 4
        &&& m.to.0 == back
        &&& !self.in_check(color)
        &&& (m.to.1 == 6 && self.can_castle_kingside(color)) || (m.to.1 == 2
            && self.can_castle_queenside(color))
    }

    /// The movement rules: the move starts on a piece of the mover's colour,
    /// ends on the board, and is a move of that piece. Only a pawn promotes.
    /// A knight jumps, a king steps one square or castles, neither onto a piece
    /// of its own colour; a bishop slides along a diagonal, a rook along a rank
    /// or file, a queen along either.
    pub open spec fn follows_rules(self, color: Color, m: Move) -> bool {
        let (fr, fc) = (m.from.0 as int, m.from.1 as int);
        let (tr, tc) = (m.to.0 as int, m.to.1 as int);
        &&& m.on_board()
        &&& self.at(fr, fc) is Some
        &&& self.at(fr, fc)->0.color == color
        &&& match self.at(fr, fc)->0.piece_type {
            PieceType::Pawn => self.pawn_rule(color, m),
            PieceType::Knight => m.promotion is None && knight_jump(tr - fr, tc - fc)
                && !self.occupied_by(tr, tc, color),
            PieceType::Bishop => m.promotion is None && on_diagonal(fr, fc, tr, tc)
                && self.slides_to(fr, fc, tr, tc, color),
            PieceType::Rook => m.promotion is None && on_straight(fr, fc, tr, tc)
                && self.slides_to(fr, fc, tr, tc, color),
            PieceType::Queen => m.promotion is None && (on_straight(fr, fc, tr, tc)
                || on_diagonal(fr, fc, tr, tc)) && self.slides_to(fr, fc, tr, tc, color),
            PieceType::King => m.promotion is None && ((unit_step(tr - fr, tc - fc)
                && !self.occupied_by(tr, tc, color)) || self.castling_rule(color, m)),
        }
    }

    /// What a move along a ray has to meet, the slider having come from
    /// `(fr, fc)` as far as `(r, c)`: it starts on the slider's square, does not
    /// promote, ends on the board ahead of `(r, c)`, passes only empty squares
    /// on its way from `(r, c)`, and does not end on a piece of its own colour.
    pub open spec fn ray_rule(
        self,
        fr: int,
        fc: int,
        r: int,
        c: int,
        dr: int,
        dc: int,
        color: Color,
        m: Move,
    ) -> bool {
        let (tr, tc) = (m.to.0 as int, m.to.1 as int);
        &&& m.from == (fr as usize, fc as usize)
        &&& m.promotion is None
        &&& on_board(tr, tc)
        &&& ahead(r, c, dr, dc, tr, tc)
        &&& forall|i: int, j: int|
            ahead(r, c, dr, dc, i, j) && ahead(i, j, dr, dc, tr, tc) ==> (#[trigger] self.at(
                i,
                j,
            )) is None
        &&& !self.occupied_by(tr, tc, color)
    }
}

/// A move is in two sequences joined exactly if it is in one of them.
pub proof fn lemma_contains_join(a: Seq<Move>, b: Seq<Move>, m: Move)
    ensures
        (a + b).contains(m) <==> a.contains(m) || b.contains(m),
{
    if a.contains(m) {
        let i = choose|i: int| 0 <= i < a.len() && a[i] == m;
        assert((a + b)[i] == m);
    }
    if b.contains(m) {
        let i = choose|i: int| 0 <= i < b.len() && b[i] == m;
        assert((a + b)[a.len() + i] == m);
    }
    if (a + b).contains(m) {
        let i = choose|i: int| 0 <= i < (a + b).len() && (a + b)[i] == m;
        if i < a.len() {
            assert(a[i] == m);
        } else {
            assert(b[i - a.len()] == m);
        }
    }
}

/// A move is in a sequence of one move exactly if it is that move; no move is
/// in the empty sequence.
pub proof fn lemma_contains_one(x: Move, m: Move)
    ensures
        seq![x].contains(m) <==> x == m,
        !Seq::<Move>::empty().contains(m),
{
    if x == m {
        assert(seq![x][0] == m);
    }
}

/// The moves along a ray are exactly the moves that meet the rule of the ray.
pub proof fn lemma_ray_moves_rule(
    p: Position,
    fr: int,
    fc: int,
    r: int,
    c: int,
    dr: int,
    dc: int,
    color: Color,
    m: Move,
)
    requires
        on_board(fr, fc),
        on_board(r, c),
        unit_step(dr, dc),
    ensures
        p.ray_moves(fr, fc, r, c, dr, dc, color).contains(m) <==> p.ray_rule(
            fr,
            fc,
            r,
            c,
            dr,
            dc,
            color,
            m,
        ),
    decreases ray_room(r, c, dr, dc),
{
    let (nr, nc) = (r + dr, c + dc);
    let (tr, tc) = (m.to.0 as int, m.to.1 as int);
    let step = move_of(fr, fc, nr, nc, None);
    let moves = p.ray_moves(fr, fc, r, c, dr, dc, color);
    let rule = p.ray_rule(fr, fc, r, c, dr, dc, color, m);
    if !on_board(nr, nc) {
        lemma_contains_one(step, m);
        assert(!rule) by {
            if on_board(tr, tc) && ahead(r, c, dr, dc, tr, tc) {
                assert(false);
            }
        }
    } else {
        lemma_contains_one(step, m);
        let beyond = ahead(nr, nc, dr, dc, tr, tc);
        assert(ahead(r, c, dr, dc, nr, nc));
        match p.at(nr, nc) {
            Some(x) => {
                if rule {
                    if !(tr == nr && tc == nc) {
                        assert(ahead(nr, nc, dr, dc, tr, tc));
                        assert(p.at(nr, nc) is None);
                    }
                    assert(m == step);
                }
                if moves.contains(m) {
                    assert(m == step);
                }
            },
            None => {
                let rest = p.ray_moves(fr, fc, nr, nc, dr, dc, color);
                lemma_ray_moves_rule(p, fr, fc, nr, nc, dr, dc, color, m);
                lemma_contains_join(seq![step], rest, m);
                let rest_rule = p.ray_rule(fr, fc, nr, nc, dr, dc, color, m);
                if m == step {
                    assert(rule) by {
                        assert forall|i: int, j: int|
                            ahead(r, c, dr, dc, i, j) && ahead(i, j, dr, dc, tr, tc) implies (
                        #[trigger] p.at(i, j)) is None by {
                            assert(false);
                        }
                    }
                } else if rest_rule {
                    assert(rule) by {
                        assert forall|i: int, j: int|
                            ahead(r, c, dr, dc, i, j) && ahead(i, j, dr, dc, tr, tc) implies (
                        #[trigger] p.at(i, j)) is None by {
                            if !(i == nr && j == nc) {
                                assert(ahead(nr, nc, dr, dc, i, j));
                            }
                        }
                    }
                } else if rule {
                    assert(!(tr == nr && tc == nc));
                    assert(ahead(nr, nc, dr, dc, tr, tc));
                    assert forall|i: int, j: int|
                        ahead(nr, nc, dr, dc, i, j) && ahead(i, j, dr, dc, tr, tc) implies (
                    #[trigger] p.at(i, j)) is None by {
                        assert(ahead(r, c, dr, dc, i, j));
                    }
                    assert(rest_rule);
                }
            },
        }
    }
}

/// The moves of a sliding piece along one ray are exactly the moves from its
/// square to a square ahead on that ray to which it may slide.
pub proof fn lemma_slide_rule(p: Position, r: int, c: int, dr: int, dc: int, color: Color, m: Move)
    requires
        on_board(r, c),
        unit_step(dr, dc),
    ensures
        p.slide(r, c, dr, dc, color).contains(m) <==> {
            &&& m.from == (r as usize, c as usize)
            &&& m.promotion is None
            &&& ahead(r, c, dr, dc, m.to.0 as int, m.to.1 as int)
            &&& p.slides_to(r, c, m.to.0 as int, m.to.1 as int, color)
        },
{
    lemma_ray_moves_rule(p, r, c, r, c, dr, dc, color, m);
    let (tr, tc) = (m.to.0 as int, m.to.1 as int);
    if ahead(r, c, dr, dc, tr, tc) {
        assert(sign(tr - r) == dr && sign(tc - c) == dc);
    }
}

/// The moves of a rook are exactly the moves from its square along a rank or
/// file to a square to which it may slide.
pub proof fn lemma_rook_rule(p: Position, r: int, c: int, color: Color, m: Move)
    requires
        on_board(r, c),
    ensures
        p.rook_moves(r, c, color).contains(m) <==> {
            &&& m.from == (r as usize, c as usize)
            &&& m.promotion is None
            &&& on_straight(r, c, m.to.0 as int, m.to.1 as int)
            &&& p.slides_to(r, c, m.to.0 as int, m.to.1 as int, color)
        },
{
    let (a, b, cc, d) = (
        p.slide(r, c, 0, 1, color),
        p.slide(r, c, 0, -1, color),
        p.slide(r, c, 1, 0, color),
        p.slide(r, c, -1, 0, color),
    );
    lemma_slide_rule(p, r, c, 0, 1, color, m);
    lemma_slide_rule(p, r, c, 0, -1, color, m);
    lemma_slide_rule(p, r, c, 1, 0, color, m);
    lemma_slide_rule(p, r, c, -1, 0, color, m);
    lemma_contains_join(a, b, m);
    lemma_contains_join(a + b, cc, m);
    lemma_contains_join(a + b + cc, d, m);
}

/// The moves of a bishop are exactly the moves from its square along a
/// diagonal to a square to which it may slide.
pub proof fn lemma_bishop_rule(p: Position, r: int, c: int, color: Color, m: Move)
    requires
        on_board(r, c),
    ensures
        p.bishop_moves(r, c, color).contains(m) <==> {
            &&& m.from == (r as usize, c as usize)
            &&& m.promotion is None
            &&& on_diagonal(r, c, m.to.0 as int, m.to.1 as int)
            &&& p.slides_to(r, c, m.to.0 as int, m.to.1 as int, color)
        },
{
    let (a, b, cc, d) = (
        p.slide(r, c, 1, 1, color),
        p.slide(r, c, 1, -1, color),
        p.slide(r, c, -1, 1, color),
        p.slide(r, c, -1, -1, color),
    );
    lemma_slide_rule(p, r, c, 1, 1, color, m);
    lemma_slide_rule(p, r, c, 1, -1, color, m);
    lemma_slide_rule(p, r, c, -1, 1, color, m);
    lemma_slide_rule(p, r, c, -1, -1, color, m);
    lemma_contains_join(a, b, m);
    lemma_contains_join(a + b, cc, m);
    lemma_contains_join(a + b + cc, d, m);
}

/// The move by a fixed offset is generated exactly if it ends on the board and
/// not on a piece of the mover's colour.
pub proof fn lemma_step_rule(p: Position, r: int, c: int, dr: int, dc: int, color: Color, m: Move)
    requires
        on_board(r, c),
    ensures
        p.step_move(r, c, dr, dc, color).contains(m) <==> {
            &&& m == move_of(r, c, r + dr, c + dc, None)
            &&& on_board(r + dr, c + dc)
            &&& !p.occupied_by(r + dr, c + dc, color)
        },
{
    lemma_contains_one(move_of(r, c, r + dr, c + dc, None), m);
}

/// Eight sequences joined hold a move exactly if one of them does.
proof fn lemma_contains_eight(
    s1: Seq<Move>,
    s2: Seq<Move>,
    s3: Seq<Move>,
    s4: Seq<Move>,
    s5: Seq<Move>,
    s6: Seq<Move>,
    s7: Seq<Move>,
    s8: Seq<Move>,
    m: Move,
)
    ensures
        (s1 + s2 + s3 + s4 + s5 + s6 + s7 + s8).contains(m) <==> s1.contains(m) || s2.contains(m)
            || s3.contains(m) || s4.contains(m) || s5.contains(m) || s6.contains(m) || s7.contains(
            m,
        ) || s8.contains(m),
{
    lemma_contains_join(s1, s2, m);
    lemma_contains_join(s1 + s2, s3, m);
    lemma_contains_join(s1 + s2 + s3, s4, m);
    lemma_contains_join(s1 + s2 + s3 + s4, s5, m);
    lemma_contains_join(s1 + s2 + s3 + s4 + s5, s6, m);
    lemma_contains_join(s1 + s2 + s3 + s4 + s5 + s6, s7, m);
    lemma_contains_join(s1 + s2 + s3 + s4 + s5 + s6 + s7, s8, m);
}

/// The moves of a knight are exactly the knight's jumps from its square that
/// end on the board and not on a piece of its own colour.
pub proof fn lemma_knight_rule(p: Position, r: int, c: int, color: Color, m: Move)
    requires
        on_board(r, c),
    ensures
        p.knight_moves(r, c, color).contains(m) <==> {
            &&& m.from == (r as usize, c as usize)
            &&& m.promotion is None
            &&& on_board(m.to.0 as int, m.to.1 as int)
            &&& knight_jump(m.to.0 - r, m.to.1 - c)
            &&& !p.occupied_by(m.to.0 as int, m.to.1 as int, color)
        },
{
    lemma_step_rule(p, r, c, -2, -1, color, m);
    lemma_step_rule(p, r, c, -2, 1, color, m);
    lemma_step_rule(p, r, c, -1, -2, color, m);
    lemma_step_rule(p, r, c, -1, 2, color, m);
    lemma_step_rule(p, r, c, 1, -2, color, m);
    lemma_step_rule(p, r, c, 1, 2, color, m);
    lemma_step_rule(p, r, c, 2, -1, color, m);
    lemma_step_rule(p, r, c, 2, 1, color, m);
    lemma_contains_eight(
        p.step_move(r, c, -2, -1, color),
        p.step_move(r, c, -2, 1, color),
        p.step_move(r, c, -1, -2, color),
        p.step_move(r, c, -1, 2, color),
        p.step_move(r, c, 1, -2, color),
        p.step_move(r, c, 1, 2, color),
        p.step_move(r, c, 2, -1, color),
        p.step_move(r, c, 2, 1, color),
        m,
    );
}

/// The steps of a king are exactly the moves from its square to a square next
/// to it that lies on the board and holds no piece of its own colour.
pub proof fn lemma_king_steps_rule(p: Position, r: int, c: int, color: Color, m: Move)
    requires
        on_board(r, c),
    ensures
        p.king_steps(r, c, color).contains(m) <==> {
            &&& m.from == (r as usize, c as usize)
            &&& m.promotion is None
            &&& on_board(m.to.0 as int, m.to.1 as int)
            &&& unit_step(m.to.0 - r, m.to.1 - c)
            &&& !p.occupied_by(m.to.0 as int, m.to.1 as int, color)
        },
{
    lemma_step_rule(p, r, c, -1, -1, color, m);
    lemma_step_rule(p, r, c, -1, 0, color, m);
    lemma_step_rule(p, r, c, -1, 1, color, m);
    lemma_step_rule(p, r, c, 0, -1, color, m);
    lemma_step_rule(p, r, c, 0, 1, color, m);
    lemma_step_rule(p, r, c, 1, -1, color, m);
    lemma_step_rule(p, r, c, 1, 0, color, m);
    lemma_step_rule(p, r, c, 1, 1, color, m);
    lemma_contains_eight(
        p.step_move(r, c, -1, -1, color),
        p.step_move(r, c, -1, 0, color),
        p.step_move(r, c, -1, 1, color),
        p.step_move(r, c, 0, -1, color),
        p.step_move(r, c, 0, 1, color),
        p.step_move(r, c, 1, -1, color),
        p.step_move(r, c, 1, 0, color),
        p.step_move(r, c, 1, 1, color),
        m,
    );
}

/// The castling moves of a king are exactly the moves that meet the rule for
/// castling.
pub proof fn lemma_castling_rule(p: Position, r: int, c: int, color: Color, m: Move)
    requires
        on_board(r, c),
    ensures
        p.castling_moves(r, c, color).contains(m) <==> {
            &&& m.from == (r as usize, c as usize)
            &&& m.promotion is None
            &&& p.castling_rule(color, m)
        },
{
    let back = back_rank(color);
    let kingside = move_of(r, c, back, 6, None);
    let queenside = move_of(r, c, back, 2, None);
    lemma_contains_one(kingside, m);
    lemma_contains_one(queenside, m);
    let ks: Seq<Move> = if p.can_castle_kingside(color) {
        seq![kingside]
    } else {
        Seq::empty()
    };
    let qs: Seq<Move> = if p.can_castle_queenside(color) {
        seq![queenside]
    } else {
        Seq::empty()
    };
    lemma_contains_join(ks, qs, m);
}

/// Four promotions hold a move exactly if it goes between the two squares and
/// promotes to a queen, rook, bishop or knight.
pub proof fn lemma_promotions_rule(fr: int, fc: int, tr: int, tc: int, m: Move)
    ensures
        crate::movegen::promotions(fr, fc, tr, tc).contains(m) <==> {
            &&& m.from == (fr as usize, fc as usize)
            &&& m.to == (tr as usize, tc as usize)
            &&& m.promotion is Some
            &&& m.promotion->0 != PieceType::Pawn
            &&& m.promotion->0 != PieceType::King
        },
{
    let s = crate::movegen::promotions(fr, fc, tr, tc);
    if m.from == (fr as usize, fc as usize) && m.to == (tr as usize, tc as usize) {
        match m.promotion {
            Some(PieceType::Queen) => {
                assert(s[0] == m);
            },
            Some(PieceType::Rook) => {
                assert(s[1] == m);
            },
            Some(PieceType::Bishop) => {
                assert(s[2] == m);
            },
            Some(PieceType::Knight) => {
                assert(s[3] == m);
            },
            _ => {},
        }
    }
}

/// The moves of a pawn are exactly the moves from its square that meet the
/// rule for a pawn.
pub proof fn lemma_pawn_rule(p: Position, r: int, c: int, color: Color, m: Move)
    requires
        on_board(r, c),
    ensures
        p.pawn_moves(r, c, color).contains(m) <==> {
            &&& m.from == (r as usize, c as usize)
            &&& on_board(m.to.0 as int, m.to.1 as int)
            &&& p.pawn_rule(color, m)
        },
{
    let f = r + forward(color);
    let pushes = p.pawn_pushes(r, c, color);
    let left = p.pawn_capture(r, c, color, -1);
    let right = p.pawn_capture(r, c, color, 1);
    lemma_contains_join(pushes, left, m);
    lemma_contains_join(pushes + left, right, m);
    lemma_promotions_rule(r, c, f, c, m);
    lemma_promotions_rule(r, c, f, c - 1, m);
    lemma_promotions_rule(r, c, f, c + 1, m);
    lemma_contains_one(move_of(r, c, f, c, None), m);
    lemma_contains_one(move_of(r, c, f, c - 1, None), m);
    lemma_contains_one(move_of(r, c, f, c + 1, None), m);
    lemma_contains_one(move_of(r, c, f + forward(color), c, None), m);
    lemma_contains_join(
        seq![move_of(r, c, f, c, None)],
        seq![move_of(r, c, f + forward(color), c, None)],
        m,
    );
    assert(seq![move_of(r, c, f, c, None), move_of(r, c, f + forward(color), c, None)]
        =~= seq![move_of(r, c, f, c, None)] + seq![move_of(r, c, f + forward(color), c, None)]);
    lemma_pawn_pushes_rule(p, r, c, color, m);
    lemma_pawn_capture_rule(p, r, c, color, -1, m);
    lemma_pawn_capture_rule(p, r, c, color, 1, m);
}

/// A pawn's moves straight ahead are exactly the moves that meet the rule for
/// a pawn and stay on the pawn's file.
pub proof fn lemma_pawn_pushes_rule(p: Position, r: int, c: int, color: Color, m: Move)
    requires
        on_board(r, c),
    ensures
        p.pawn_pushes(r, c, color).contains(m) <==> {
            &&& m.from == (r as usize, c as usize)
            &&& on_board(m.to.0 as int, m.to.1 as int)
            &&& m.to.1 == c
            &&& p.pawn_rule(color, m)
        },
{
    let f = r + forward(color);
    let one = move_of(r, c, f, c, None);
    let two = move_of(r, c, f + forward(color), c, None);
    lemma_promotions_rule(r, c, f, c, m);
    lemma_contains_one(one, m);
    lemma_contains_one(two, m);
    lemma_contains_join(seq![one], seq![two], m);
    assert(seq![one, two] =~= seq![one] + seq![two]);
}

/// A pawn's captures towards one side are exactly the moves that meet the rule
/// for a pawn and go to the file on that side.
pub proof fn lemma_pawn_capture_rule(p: Position, r: int, c: int, color: Color, dc: int, m: Move)
    requires
        on_board(r, c),
        dc == 1 || dc == -1,
    ensures
        p.pawn_capture(r, c, color, dc).contains(m) <==> {
            &&& m.from == (r as usize, c as usize)
            &&& on_board(m.to.0 as int, m.to.1 as int)
            &&& m.to.1 == c + dc
            &&& p.pawn_rule(color, m)
        },
{
    let f = r + forward(color);
    lemma_promotions_rule(r, c, f, c + dc, m);
    lemma_contains_one(move_of(r, c, f, c + dc, None), m);
}

/// The moves of the piece on a square are exactly the moves from that square
/// that follow the movement rules.
pub proof fn lemma_moves_from_rule(p: Position, r: int, c: int, color: Color, m: Move)
    requires
        on_board(r, c),
    ensures
        p.moves_from(r, c, color).contains(m) <==> m.from == (r as usize, c as usize)
            && p.follows_rules(color, m),
{
    lemma_contains_one(m, m);
    lemma_pawn_rule(p, r, c, color, m);
    lemma_knight_rule(p, r, c, color, m);
    lemma_bishop_rule(p, r, c, color, m);
    lemma_rook_rule(p, r, c, color, m);
    lemma_king_steps_rule(p, r, c, color, m);
    lemma_castling_rule(p, r, c, color, m);
    lemma_contains_join(p.rook_moves(r, c, color), p.bishop_moves(r, c, color), m);
    lemma_contains_join(p.king_steps(r, c, color), p.castling_moves(r, c, color), m);
}

/// The moves of the pieces on the first `n` squares are exactly the moves from
/// one of those squares that follow the movement rules.
pub proof fn lemma_moves_upto_rule(p: Position, color: Color, n: int, m: Move)
    requires
        0 <= n <= 64,
    ensures
        p.moves_upto(color, n).contains(m) <==> m.from.0 * 8 + m.from.1 < n && p.follows_rules(
            color,
            m,
        ),
    decreases n,
{
    if n > 0 {
        lemma_moves_upto_rule(p, color, n - 1, m);
        lemma_moves_from_rule(p, (n - 1) / 8, (n - 1) % 8, color, m);
        lemma_contains_join(
            p.moves_upto(color, n - 1),
            p.moves_from((n - 1) / 8, (n - 1) % 8, color),
            m,
        );
    } else {
        lemma_contains_one(m, m);
    }
}

/// Move generation is sound and complete: the pseudo-legal moves of a side are
/// exactly the moves that follow the movement rules.
pub proof fn lemma_pseudo_legal_rule(p: Position, color: Color, m: Move)
    ensures
        p.pseudo_legal_moves(color).contains(m) <==> p.follows_rules(color, m),
{
    lemma_moves_upto_rule(p, color, 64, m);
}

/// The legal moves of a side are exactly the moves that follow the movement
/// rules and do not leave the side's own king in check.
pub proof fn lemma_legal_rule(p: Position, color: Color, m: Move)
    ensures
        p.legal_moves(color).contains(m) <==> p.follows_rules(color, m) && !p.moved(m).in_check(
            color,
        ),
{
    lemma_pseudo_legal_rule(p, color, m);
    if p.legal_moves(color).contains(m) {
        crate::laws::lemma_legal_moves_safe(p, color, m);
    }
    if p.follows_rules(color, m) && !p.moved(m).in_check(color) {
        crate::laws::lemma_safe_moves_legal(p, color, m);
    }
}

impl Position {
    /// The piece on `(ar, ac)` attacks the square `(r, c)`: a pawn attacks the
    /// two squares diagonally ahead of it, a knight the squares a jump away, a
    /// king the squares next to it; a rook attacks along ranks and files, a
    /// bishop along diagonals and a queen along both, as far as the squares
    /// between are empty.
    pub open spec fn piece_attacks(self, ar: int, ac: int, r: int, c: int) -> bool {
        match self.at(ar, ac) {
            Some(x) => match x.piece_type {
                PieceType::Pawn => r == ar + forward(x.color) && (c == ac - 1 || c == ac + 1),
                PieceType::Knight => knight_jump(r - ar, c - ac),
                PieceType::King => unit_step(r - ar, c - ac),
                PieceType::Rook => on_straight(r, c, ar, ac) && self.clear_between(r, c, ar, ac),
                PieceType::Bishop => on_diagonal(r, c, ar, ac) && self.clear_between(r, c, ar, ac),
                PieceType::Queen => (on_straight(r, c, ar, ac) || on_diagonal(r, c, ar, ac))
                    && self.clear_between(r, c, ar, ac),
            },
            None => false,
        }
    }

    /// Some piece of the given colour attacks the square.
    pub open spec fn some_piece_attacks(self, r: int, c: int, by: Color) -> bool {
        exists|ar: int, ac: int|
            #[trigger] self.occupied_by(ar, ac, by) && self.piece_attacks(ar, ac, r, c)
    }
}

/// A piece that stands ahead on a ray, with only empty squares before it, is
/// the first piece of the ray.
pub proof fn lemma_ray_hit(p: Position, r: int, c: int, dr: int, dc: int, tr: int, tc: int)
    requires
        on_board(r, c),
        on_board(tr, tc),
        ahead(r, c, dr, dc, tr, tc),
        p.at(tr, tc) is Some,
        forall|i: int, j: int|
            ahead(r, c, dr, dc, i, j) && ahead(i, j, dr, dc, tr, tc) ==> (#[trigger] p.at(i, j))
                is None,
    ensures
        p.first_piece(r, c, dr, dc) == p.at(tr, tc),
    decreases ray_room(r, c, dr, dc),
{
    let (nr, nc) = (r + dr, c + dc);
    assert(on_board(nr, nc));
    if !(nr == tr && nc == tc) {
        assert(ahead(r, c, dr, dc, nr, nc) && ahead(nr, nc, dr, dc, tr, tc));
        assert(p.at(nr, nc) is None);
        assert forall|i: int, j: int|
            ahead(nr, nc, dr, dc, i, j) && ahead(i, j, dr, dc, tr, tc) implies (#[trigger] p.at(
            i,
            j,
        )) is None by {
            assert(ahead(r, c, dr, dc, i, j));
        }
        lemma_ray_hit(p, nr, nc, dr, dc, tr, tc);
    }
}

/// The first piece of a ray stands ahead on the ray, with only empty squares
/// before it.
pub proof fn lemma_ray_found(p: Position, r: int, c: int, dr: int, dc: int) -> (t: (int, int))
    requires
        on_board(r, c),
        unit_step(dr, dc),
        p.first_piece(r, c, dr, dc) is Some,
    ensures
        on_board(t.0, t.1),
        ahead(r, c, dr, dc, t.0, t.1),
        p.at(t.0, t.1) == p.first_piece(r, c, dr, dc),
        forall|i: int, j: int|
            ahead(r, c, dr, dc, i, j) && ahead(i, j, dr, dc, t.0, t.1) ==> (#[trigger] p.at(i, j))
                is None,
    decreases ray_room(r, c, dr, dc),
{
    let (nr, nc) = (r + dr, c + dc);
    if p.at(nr, nc) is Some {
        (nr, nc)
    } else {
        let t = lemma_ray_found(p, nr, nc, dr, dc);
        assert forall|i: int, j: int|
            ahead(r, c, dr, dc, i, j) && ahead(i, j, dr, dc, t.0, t.1) implies (#[trigger] p.at(
            i,
            j,
        )) is None by {
            if !(i == nr && j == nc) {
                assert(ahead(nr, nc, dr, dc, i, j));
            }
        }
        t
    }
}

/// A ray from a square meets a piece of the given colour and one of two kinds
/// exactly if such a piece stands ahead on the ray with only empty squares
/// between.
pub proof fn lemma_ray_meets_rule(
    p: Position,
    r: int,
    c: int,
    dr: int,
    dc: int,
    by: Color,
    kind: PieceType,
    other_kind: PieceType,
)
    requires
        on_board(r, c),
        unit_step(dr, dc),
    ensures
        p.ray_meets(r, c, dr, dc, by, kind, other_kind) <==> exists|ar: int, ac: int|
            #[trigger] p.occupied_by(ar, ac, by) && ahead(r, c, dr, dc, ar, ac) && (p.at(
                ar,
                ac,
            )->0.piece_type == kind || p.at(ar, ac)->0.piece_type == other_kind)
                && p.clear_between(r, c, ar, ac),
{
    if p.ray_meets(r, c, dr, dc, by, kind, other_kind) {
        let t = lemma_ray_found(p, r, c, dr, dc);
        assert(sign(t.0 - r) == dr && sign(t.1 - c) == dc);
        assert(p.occupied_by(t.0, t.1, by) && p.clear_between(r, c, t.0, t.1));
    }
    if exists|ar: int, ac: int|
        #[trigger] p.occupied_by(ar, ac, by) && ahead(r, c, dr, dc, ar, ac) && (p.at(
            ar,
            ac,
        )->0.piece_type == kind || p.at(ar, ac)->0.piece_type == other_kind) && p.clear_between(
            r,
            c,
            ar,
            ac,
        ) {
        let (ar, ac) = choose|ar: int, ac: int|
            #[trigger] p.occupied_by(ar, ac, by) && ahead(r, c, dr, dc, ar, ac) && (p.at(
                ar,
                ac,
            )->0.piece_type == kind || p.at(ar, ac)->0.piece_type == other_kind)
                && p.clear_between(r, c, ar, ac);
        assert(sign(ar - r) == dr && sign(ac - c) == dc);
        lemma_ray_hit(p, r, c, dr, dc, ar, ac);
    }
}

/// A square is attacked along a rank or file exactly if a rook or queen of the
/// attacker stands on its rank or file with only empty squares between.
pub proof fn lemma_straight_attack_rule(p: Position, r: int, c: int, by: Color)
    requires
        on_board(r, c),
    ensures
        p.straight_attacks(r, c, by) <==> exists|ar: int, ac: int|
            #[trigger] p.occupied_by(ar, ac, by) && on_straight(r, c, ar, ac) && (p.at(
                ar,
                ac,
            )->0.piece_type == PieceType::Rook || p.at(ar, ac)->0.piece_type == PieceType::Queen)
                && p.clear_between(r, c, ar, ac),
{
    let (k, q) = (PieceType::Rook, PieceType::Queen);
    lemma_ray_meets_rule(p, r, c, 0, 1, by, k, q);
    lemma_ray_meets_rule(p, r, c, 0, -1, by, k, q);
    lemma_ray_meets_rule(p, r, c, 1, 0, by, k, q);
    lemma_ray_meets_rule(p, r, c, -1, 0, by, k, q);
    if exists|ar: int, ac: int|
        #[trigger] p.occupied_by(ar, ac, by) && on_straight(r, c, ar, ac) && (p.at(
            ar,
            ac,
        )->0.piece_type == k || p.at(ar, ac)->0.piece_type == q) && p.clear_between(r, c, ar, ac) {
        let (ar, ac) = choose|ar: int, ac: int|
            #[trigger] p.occupied_by(ar, ac, by) && on_straight(r, c, ar, ac) && (p.at(
                ar,
                ac,
            )->0.piece_type == k || p.at(ar, ac)->0.piece_type == q) && p.clear_between(
                r,
                c,
                ar,
                ac,
            );
        assert(ahead(r, c, sign(ar - r), sign(ac - c), ar, ac));
    }
}

/// A square is attacked along a diagonal exactly if a bishop or queen of the
/// attacker stands on one of its diagonals with only empty squares between.
pub proof fn lemma_diagonal_attack_rule(p: Position, r: int, c: int, by: Color)
    requires
        on_board(r, c),
    ensures
        p.diagonal_attacks(r, c, by) <==> exists|ar: int, ac: int|
            #[trigger] p.occupied_by(ar, ac, by) && on_diagonal(r, c, ar, ac) && (p.at(
                ar,
                ac,
            )->0.piece_type == PieceType::Bishop || p.at(ar, ac)->0.piece_type == PieceType::Queen)
                && p.clear_between(r, c, ar, ac),
{
    let (k, q) = (PieceType::Bishop, PieceType::Queen);
    lemma_ray_meets_rule(p, r, c, 1, 1, by, k, q);
    lemma_ray_meets_rule(p, r, c, 1, -1, by, k, q);
    lemma_ray_meets_rule(p, r, c, -1, 1, by, k, q);
    lemma_ray_meets_rule(p, r, c, -1, -1, by, k, q);
    if exists|ar: int, ac: int|
        #[trigger] p.occupied_by(ar, ac, by) && on_diagonal(r, c, ar, ac) && (p.at(
            ar,
            ac,
        )->0.piece_type == k || p.at(ar, ac)->0.piece_type == q) && p.clear_between(r, c, ar, ac) {
        let (ar, ac) = choose|ar: int, ac: int|
            #[trigger] p.occupied_by(ar, ac, by) && on_diagonal(r, c, ar, ac) && (p.at(
                ar,
                ac,
            )->0.piece_type == k || p.at(ar, ac)->0.piece_type == q) && p.clear_between(
                r,
                c,
                ar,
                ac,
            );
        assert(ahead(r, c, sign(ar - r), sign(ac - c), ar, ac));
    }
}

/// The attack query is sound and complete: a square is attacked by a side
/// exactly if some piece of that side attacks it by the rule of its kind.
pub proof fn lemma_attacked_rule(p: Position, r: int, c: int, by: Color)
    requires
        on_board(r, c),
    ensures
        p.attacked_by(r, c, by) <==> p.some_piece_attacks(r, c, by),
{
    reveal(Position::attacked_by);
    lemma_straight_attack_rule(p, r, c, by);
    lemma_diagonal_attack_rule(p, r, c, by);
    if p.knight_attacks(r, c, by) {
        let (ar, ac) = choose|ar: int, ac: int|
            knight_jump(ar - r, ac - c) && #[trigger] p.holds(ar, ac, by, PieceType::Knight);
        assert(p.occupied_by(ar, ac, by) && p.piece_attacks(ar, ac, r, c));
    }
    if p.king_attacks(r, c, by) {
        let (ar, ac) = choose|ar: int, ac: int|
            unit_step(ar - r, ac - c) && #[trigger] p.holds(ar, ac, by, PieceType::King);
        assert(p.occupied_by(ar, ac, by) && p.piece_attacks(ar, ac, r, c));
    }
    if p.pawn_attacks(r, c, by) {
        let ar = r - forward(by);
        if p.holds(ar, c - 1, by, PieceType::Pawn) {
            assert(p.occupied_by(ar, c - 1, by) && p.piece_attacks(ar, c - 1, r, c));
        } else {
            assert(p.occupied_by(ar, c + 1, by) && p.piece_attacks(ar, c + 1, r, c));
        }
    }
    if p.straight_attacks(r, c, by) {
        let (ar, ac) = choose|ar: int, ac: int|
            #[trigger] p.occupied_by(ar, ac, by) && on_straight(r, c, ar, ac) && (p.at(
                ar,
                ac,
            )->0.piece_type == PieceType::Rook || p.at(ar, ac)->0.piece_type == PieceType::Queen)
                && p.clear_between(r, c, ar, ac);
        assert(p.occupied_by(ar, ac, by) && p.piece_attacks(ar, ac, r, c));
    }
    if p.diagonal_attacks(r, c, by) {
        let (ar, ac) = choose|ar: int, ac: int|
            #[trigger] p.occupied_by(ar, ac, by) && on_diagonal(r, c, ar, ac) && (p.at(
                ar,
                ac,
            )->0.piece_type == PieceType::Bishop || p.at(ar, ac)->0.piece_type == PieceType::Queen)
                && p.clear_between(r, c, ar, ac);
        assert(p.occupied_by(ar, ac, by) && p.piece_attacks(ar, ac, r, c));
    }
    if p.some_piece_attacks(r, c, by) {
        let (ar, ac) = choose|ar: int, ac: int|
            #[trigger] p.occupied_by(ar, ac, by) && p.piece_attacks(ar, ac, r, c);
        let x = p.at(ar, ac)->0;
        match x.piece_type {
            PieceType::Pawn => {
                assert(p.holds(ar, ac, by, PieceType::Pawn));
            },
            PieceType::Knight => {
                assert(p.holds(ar, ac, by, PieceType::Knight));
                assert(knight_jump(ar - r, ac - c));
            },
            PieceType::King => {
                assert(p.holds(ar, ac, by, PieceType::King));
                assert(unit_step(ar - r, ac - c));
            },
            PieceType::Rook => {
                assert(p.straight_attacks(r, c, by));
            },
            PieceType::Bishop => {
                assert(p.diagonal_attacks(r, c, by));
            },
            PieceType::Queen => {
                if on_straight(r, c, ar, ac) {
                    assert(p.straight_attacks(r, c, by));
                } else {
                    assert(p.diagonal_attacks(r, c, by));
                }
            },
        }
    }
}

} // verus!

//! What the rules read: attacks, moves and scores depend on the grid, the side
//! to move, the castling rights and the en-passant target, and on nothing else
//! of a position.

use vstd::prelude::*;
use crate::eval::{AiConfig, Weights};
use crate::moves::Move;
use crate::piece::Color;
use crate::position::{on_board, ray_room, unit_step, Position};

verus! {

impl Position {
    /// Two positions agree in what the movement rules read: the grid, the side
    /// to move, the castling rights and the en-passant target.
    pub open spec fn same_setup(self, other: Position) -> bool {
        &&& self.squares == other.squares
        &&& self.current_turn == other.current_turn
        &&& self.castling_rights == other.castling_rights
        &&& self.en_passant_target == other.en_passant_target
    }
}

/// What stands on a square depends on the grid alone.
pub proof fn lemma_holds_frame(p: Position, q: Position)
    requires
        p.squares == q.squares,
    ensures
        forall|r: int, c: int, color: Color, kind: crate::piece::PieceType|
            #![trigger p.holds(r, c, color, kind)]
            #![trigger q.holds(r, c, color, kind)]
            p.holds(r, c, color, kind) == q.holds(r, c, color, kind),
{
}

/// The first piece along a ray depends on the grid alone.
pub proof fn lemma_first_piece_frame(p: Position, q: Position, r: int, c: int, dr: int, dc: int)
    requires
        p.squares == q.squares,
    ensures
        p.first_piece(r, c, dr, dc) == q.first_piece(r, c, dr, dc),
    decreases ray_room(r, c, dr, dc),
{
    if on_board(r, c) && unit_step(dr, dc) && on_board(r + dr, c + dc) && p.at(r + dr, c + dc)
        is None {
        lemma_first_piece_frame(p, q, r + dr, c + dc, dr, dc);
    }
}

/// Whether a square is attacked depends on the grid alone.
pub proof fn lemma_attacked_frame(p: Position, q: Position, r: int, c: int, by: Color)
    requires
        p.squares == q.squares,
    ensures
        p.attacked_by(r, c, by) == q.attacked_by(r, c, by),
{
    reveal(Position::attacked_by);
    lemma_first_piece_frame(p, q, r, c, 0, 1);
    lemma_first_piece_frame(p, q, r, c, 0, -1);
    lemma_first_piece_frame(p, q, r, c, 1, 0);
    lemma_first_piece_frame(p, q, r, c, -1, 0);
    lemma_first_piece_frame(p, q, r, c, 1, 1);
    lemma_first_piece_frame(p, q, r, c, 1, -1);
    lemma_first_piece_frame(p, q, r, c, -1, 1);
    lemma_first_piece_frame(p, q, r, c, -1, -1);
    lemma_holds_frame(p, q);
}

/// Where a king stands depends on the grid alone.
pub proof fn lemma_king_frame(p: Position, q: Position, color: Color, from: int)
    requires
        p.squares == q.squares,
    ensures
        p.king_from(color, from) == q.king_from(color, from),
    decreases 64 - from,
{
    if 0 <= from < 64 {
        lemma_king_frame(p, q, color, from + 1);
    }
}

/// Whether a side is in check depends on the grid alone.
pub proof fn lemma_in_check_frame(p: Position, q: Position, color: Color)
    requires
        p.squares == q.squares,
    ensures
        p.in_check(color) == q.in_check(color),
{
    reveal(Position::in_check);
    lemma_king_frame(p, q, color, 0);
    match p.king_square(color) {
        Some((r, c)) => {
            lemma_attacked_frame(p, q, r as int, c as int, color.other());
        },
        None => {},
    }
}

/// The moves along a ray depend on the grid alone.
pub proof fn lemma_ray_moves_frame(
    p: Position,
    q: Position,
    fr: int,
    fc: int,
    r: int,
    c: int,
    dr: int,
    dc: int,
    color: Color,
)
    requires
        p.squares == q.squares,
    ensures
        p.ray_moves(fr, fc, r, c, dr, dc, color) == q.ray_moves(fr, fc, r, c, dr, dc, color),
    decreases ray_room(r, c, dr, dc),
{
    if on_board(r, c) && unit_step(dr, dc) && on_board(r + dr, c + dc) && p.at(r + dr, c + dc)
        is None {
        lemma_ray_moves_frame(p, q, fr, fc, r + dr, c + dc, dr, dc, color);
    }
}

/// The moves of a rook, a bishop and a queen depend on the grid alone.
pub proof fn lemma_slider_frame(p: Position, q: Position, r: int, c: int, color: Color)
    requires
        p.squares == q.squares,
    ensures
        p.rook_moves(r, c, color) == q.rook_moves(r, c, color),
        p.bishop_moves(r, c, color) == q.bishop_moves(r, c, color),
        p.queen_moves(r, c, color) == q.queen_moves(r, c, color),
{
    lemma_ray_moves_frame(p, q, r, c, r, c, 0, 1, color);
    lemma_ray_moves_frame(p, q, r, c, r, c, 0, -1, color);
    lemma_ray_moves_frame(p, q, r, c, r, c, 1, 0, color);
    lemma_ray_moves_frame(p, q, r, c, r, c, -1, 0, color);
    lemma_ray_moves_frame(p, q, r, c, r, c, 1, 1, color);
    lemma_ray_moves_frame(p, q, r, c, r, c, 1, -1, color);
    lemma_ray_moves_frame(p, q, r, c, r, c, -1, 1, color);
    lemma_ray_moves_frame(p, q, r, c, r, c, -1, -1, color);
}

/// The castling moves of a king depend on the setup alone.
pub proof fn lemma_castling_frame(p: Position, q: Position, r: int, c: int, color: Color)
    requires
        p.same_setup(q),
    ensures
        p.castling_moves(r, c, color) == q.castling_moves(r, c, color),
{
    let back = crate::movegen::back_rank(color);
    lemma_in_check_frame(p, q, color);
    lemma_attacked_frame(p, q, back, 5, color.other());
    lemma_attacked_frame(p, q, back, 6, color.other());
    lemma_attacked_frame(p, q, back, 3, color.other());
    lemma_attacked_frame(p, q, back, 2, color.other());
}

/// A pawn's moves depend on the grid and the en-passant target alone.
pub proof fn lemma_pawn_moves_frame(p: Position, q: Position, r: int, c: int, color: Color)
    requires
        p.same_setup(q),
    ensures
        p.pawn_moves(r, c, color) == q.pawn_moves(r, c, color),
{
    assert(p.pawn_pushes(r, c, color) == q.pawn_pushes(r, c, color));
    assert(p.pawn_capture(r, c, color, -1) == q.pawn_capture(r, c, color, -1));
    assert(p.pawn_capture(r, c, color, 1) == q.pawn_capture(r, c, color, 1));
}

/// A move by a fixed offset depends on the grid alone.
pub proof fn lemma_step_move_frame(
    p: Position,
    q: Position,
    r: int,
    c: int,
    dr: int,
    dc: int,
    color: Color,
)
    requires
        p.squares == q.squares,
    ensures
        p.step_move(r, c, dr, dc, color) == q.step_move(r, c, dr, dc, color),
{
}

/// The moves of a knight and the steps of a king depend on the grid alone.
pub proof fn lemma_steps_frame(p: Position, q: Position, r: int, c: int, color: Color)
    requires
        p.squares == q.squares,
    ensures
        p.knight_moves(r, c, color) == q.knight_moves(r, c, color),
        p.king_steps(r, c, color) == q.king_steps(r, c, color),
{
    lemma_step_move_frame(p, q, r, c, -2, -1, color);
    lemma_step_move_frame(p, q, r, c, -2, 1, color);
    lemma_step_move_frame(p, q, r, c, -1, -2, color);
    lemma_step_move_frame(p, q, r, c, -1, 2, color);
    lemma_step_move_frame(p, q, r, c, 1, -2, color);
    lemma_step_move_frame(p, q, r, c, 1, 2, color);
    lemma_step_move_frame(p, q, r, c, 2, -1, color);
    lemma_step_move_frame(p, q, r, c, 2, 1, color);
    lemma_step_move_frame(p, q, r, c, -1, -1, color);
    lemma_step_move_frame(p, q, r, c, -1, 0, color);
    lemma_step_move_frame(p, q, r, c, -1, 1, color);
    lemma_step_move_frame(p, q, r, c, 0, -1, color);
    lemma_step_move_frame(p, q, r, c, 0, 1, color);
    lemma_step_move_frame(p, q, r, c, 1, -1, color);
    lemma_step_move_frame(p, q, r, c, 1, 0, color);
    lemma_step_move_frame(p, q, r, c, 1, 1, color);
}

/// The moves of the piece on a square depend on the setup alone.
pub proof fn lemma_moves_from_frame(p: Position, q: Position, r: int, c: int, color: Color)
    requires
        p.same_setup(q),
    ensures
        p.moves_from(r, c, color) == q.moves_from(r, c, color),
{
    lemma_slider_frame(p, q, r, c, color);
    lemma_castling_frame(p, q, r, c, color);
    lemma_pawn_moves_frame(p, q, r, c, color);
    lemma_steps_frame(p, q, r, c, color);
}

/// The pseudo-legal moves depend on the setup alone.
pub proof fn lemma_moves_upto_frame(p: Position, q: Position, color: Color, n: int)
    requires
        p.same_setup(q),
    ensures
        p.moves_upto(color, n) == q.moves_upto(color, n),
    decreases n,
{
    if n > 0 {
        lemma_moves_upto_frame(p, q, color, n - 1);
        lemma_moves_from_frame(p, q, (n - 1) / 8, (n - 1) % 8, color);
    }
}

/// After the same move, two positions with the same setup have the same setup
/// again.
pub proof fn lemma_moved_frame(p: Position, q: Position, m: Move)
    requires
        p.same_setup(q),
    ensures
        p.moved(m).same_setup(q.moved(m)),
{
    reveal(Position::moved);
    match p.at(m.from.0 as int, m.from.1 as int) {
        Some(piece) => {
            assert(p.grid_after(piece, m).squares == q.grid_after(piece, m).squares);
        },
        None => {},
    }
}

/// Filtering by two tests that agree on every move gives the same moves.
pub proof fn lemma_filter_same_test(
    moves: Seq<Move>,
    f: spec_fn(Move) -> bool,
    g: spec_fn(Move) -> bool,
)
    requires
        forall|m: Move| #[trigger] f(m) == g(m),
    ensures
        moves.filter(f) == moves.filter(g),
    decreases moves.len(),
{
    reveal(Seq::filter);
    if moves.len() > 0 {
        lemma_filter_same_test(moves.drop_last(), f, g);
    }
}

/// The legal moves depend on the setup alone.
pub proof fn lemma_legal_moves_frame(p: Position, q: Position, color: Color)
    requires
        p.same_setup(q),
    ensures
        p.legal_moves(color) == q.legal_moves(color),
{
    reveal(Position::legal_moves);
    lemma_moves_upto_frame(p, q, color, 64);
    assert forall|m: Move| #[trigger] (p.safety(color))(m) == (q.safety(color))(m) by {
        lemma_moved_frame(p, q, m);
        lemma_in_check_frame(p.moved(m), q.moved(m), color);
    }
    lemma_filter_same_test(p.pseudo_legal_moves(color), p.safety(color), q.safety(color));
}

/// The material balance depends on the grid alone.
pub proof fn lemma_material_frame(p: Position, q: Position, n: int)
    requires
        p.squares == q.squares,
    ensures
        p.material_upto(n) == q.material_upto(n),
    decreases n,
{
    if n > 0 {
        lemma_material_frame(p, q, n - 1);
    }
}

/// The pawn score depends on the grid alone.
pub proof fn lemma_pawns_frame(p: Position, q: Position, w: Weights, n: int)
    requires
        p.squares == q.squares,
    ensures
        p.pawns_upto(w, n) == q.pawns_upto(w, n),
    decreases n,
{
    if n > 0 {
        lemma_pawns_frame(p, q, w, n - 1);
        lemma_holds_frame(p, q);
    }
}

/// An attack balance depends on the grid alone.
pub proof fn lemma_attack_balance_frame(p: Position, q: Position, r: int, c: int, weight: int)
    requires
        p.squares == q.squares,
    ensures
        p.attack_balance(r, c, weight) == q.attack_balance(r, c, weight),
{
    lemma_attacked_frame(p, q, r, c, Color::White);
    lemma_attacked_frame(p, q, r, c, Color::Black);
}

/// Centre control depends on the grid alone.
pub proof fn lemma_centre_frame(p: Position, q: Position, w: Weights)
    requires
        p.squares == q.squares,
    ensures
        p.centre_control(w) == q.centre_control(w),
{
    let a = w.centre_attack as int;
    lemma_attack_balance_frame(p, q, 3, 3, a);
    lemma_attack_balance_frame(p, q, 3, 4, a);
    lemma_attack_balance_frame(p, q, 4, 3, a);
    lemma_attack_balance_frame(p, q, 4, 4, a);
    let x = w.extended_centre_attack as int;
    lemma_attack_balance_frame(p, q, 2, 2, x);
    lemma_attack_balance_frame(p, q, 2, 3, x);
    lemma_attack_balance_frame(p, q, 2, 4, x);
    lemma_attack_balance_frame(p, q, 2, 5, x);
    lemma_attack_balance_frame(p, q, 3, 2, x);
    lemma_attack_balance_frame(p, q, 3, 5, x);
    lemma_attack_balance_frame(p, q, 4, 2, x);
    lemma_attack_balance_frame(p, q, 4, 5, x);
    lemma_attack_balance_frame(p, q, 5, 2, x);
    lemma_attack_balance_frame(p, q, 5, 3, x);
    lemma_attack_balance_frame(p, q, 5, 4, x);
    lemma_attack_balance_frame(p, q, 5, 5, x);
}

/// The positional sum depends on the setup and on whether the game is over, and
/// on nothing else.
pub proof fn lemma_positional_frame(p: Position, q: Position, config: AiConfig)
    requires
        p.same_setup(q),
        p.game_over == q.game_over,
    ensures
        p.positional(config) == q.positional(config),
{
    lemma_in_check_frame(p, q, p.current_turn);
    lemma_legal_moves_frame(p, q, p.current_turn);
    lemma_material_frame(p, q, 64);
    lemma_pawns_frame(p, q, config.weights, 64);
    lemma_centre_frame(p, q, config.weights);
}

/// The placement part of the hash depends on the grid alone.
pub proof fn lemma_placement_hash_frame(p: Position, q: Position, n: int)
    requires
        p.squares == q.squares,
    ensures
        p.placement_hash(n) == q.placement_hash(n),
    decreases n,
{
    if n > 0 {
        lemma_placement_hash_frame(p, q, n - 1);
    }
}

/// The hash depends on the setup alone.
pub proof fn lemma_hash_frame(p: Position, q: Position)
    requires
        p.same_setup(q),
    ensures
        p.hash() == q.hash(),
{
    reveal(Position::hash);
    lemma_placement_hash_frame(p, q, 64);
}

} // verus!

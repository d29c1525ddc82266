//! What holds of every position: how a repeated position, a mate, a stalemate
//! and a promotion are scored, when a repetition ends the game, and how the
//! search order is arranged.

use vstd::prelude::*;
use crate::eval::{lemma_attack_balance_bounded, piece_worth, signed, AiConfig, Weights, MATE_SCORE};
use crate::frame::{lemma_hash_frame, lemma_material_frame, lemma_positional_frame};
use crate::moves::Move;
use crate::piece::{Color, Piece, PieceType};
use crate::position::{occurrences, on_board, Position};
use crate::search::lemma_slot_in_range;

verus! {

impl Position {
    /// The position reached once more: its own hash joins its history, and
    /// nothing else changes.
    pub open spec fn revisited(self) -> Position {
        Position { position_history: self.position_history.push(self.hash()), ..self }
    }

    /// How many pieces stand on the board.
    pub open spec fn pieces(self) -> nat {
        self.piece_count(Color::White, 64) + self.piece_count(Color::Black, 64)
    }
}

/// Reaching a position once more raises the count of its occurrences by one.
pub proof fn lemma_revisit_counts(p: Position)
    ensures
        p.revisited().hash() == p.hash(),
        p.revisited().repetitions() == p.repetitions() + 1,
{
    lemma_hash_frame(p.revisited(), p);
    assert(p.revisited().position_history.drop_last() =~= p.position_history);
}

/// Draw avoidance: when a position that has occurred once occurs again, its
/// score falls by the repeat penalty, whichever side looks at it. With a
/// penalty above 0 the score falls strictly.
pub proof fn lemma_repeat_lowers_score(p: Position, perspective: Color, config: AiConfig)
    requires
        config.draw_penalty_module,
        p.repetitions() == 1,
    ensures
        p.revisited().score(perspective, config) == p.score(perspective, config)
            - config.weights.repeat_penalty,
        config.weights.repeat_penalty > 0 ==> p.revisited().score(perspective, config) < p.score(
            perspective,
            config,
        ),
{
    reveal(Position::score);
    lemma_revisit_counts(p);
    lemma_positional_frame(p.revisited(), p, config);
}

/// Draw avoidance never pays: with a penalty that is not negative, a position
/// that occurs once more never scores higher than before.
pub proof fn lemma_repeat_never_raises_score(p: Position, perspective: Color, config: AiConfig)
    requires
        config.weights.repeat_penalty >= 0,
    ensures
        p.revisited().score(perspective, config) <= p.score(perspective, config),
{
    reveal(Position::score);
    lemma_revisit_counts(p);
    lemma_positional_frame(p.revisited(), p, config);
}

/// With the standard weights, what the squares up to `n` add to material and
/// pawn score together is at most twelve pawns for each piece on them.
pub proof fn lemma_piece_scores_bounded(p: Position, n: int)
    requires
        0 <= n <= 64,
    ensures
        ({
            let sum = p.material_upto(n) + p.pawns_upto(Weights::standard(), n);
            let count = p.piece_count(Color::White, n) + p.piece_count(Color::Black, n);
            &&& -12_000 * count <= sum <= 12_000 * count
            &&& -9_000 * count <= p.material_upto(n) <= 9_000 * count
            &&& -11_000 * count <= p.pawns_upto(Weights::standard(), n) <= 11_000 * count
            &&& count <= n
        }),
    decreases n,
{
    if n > 0 {
        lemma_piece_scores_bounded(p, n - 1);
        let (r, c) = ((n - 1) / 8, (n - 1) % 8);
        if p.at(r, c) is Some && p.at(r, c)->0.piece_type == PieceType::Pawn {
            let adv = crate::eval::advancement(p.at(r, c)->0.color, r);
            assert(0 <= adv * adv <= 36) by (nonlinear_arith)
                requires
                    -1 <= adv <= 6,
            ;
            assert(0 <= adv * adv * 300 <= 10_800) by (nonlinear_arith)
                requires
                    0 <= adv * adv <= 36,
            ;
            assert(adv * 0 == 0);
        }
    }
}

/// With the standard weights, centre control is at most five pawns.
pub proof fn lemma_standard_centre_bounded(p: Position)
    ensures
        -5_000 <= p.centre_control(Weights::standard()) <= 5_000,
{
}

/// With the standard weights, material, centre control and pawn score together
/// are at most 12 pawns for each piece and 5 pawns besides.
pub proof fn lemma_standard_positional_bounded(p: Position, config: AiConfig)
    requires
        config.weights == Weights::standard(),
    ensures
        ({
            let mate = if config.mate_module {
                p.mate_term(config.weights)
            } else {
                0
            };
            let rest = p.positional(config) - mate;
            &&& -12_000 * p.pieces() - 5_000 <= rest <= 12_000 * p.pieces() + 5_000
            &&& p.pieces() <= 64
        }),
{
    lemma_piece_scores_bounded(p, 64);
    lemma_standard_centre_bounded(p);
    let material = p.material();
    let pawns = p.passed_pawns(Weights::standard());
    let centre = p.centre_control(Weights::standard());
    let count = p.pieces();
    assert(-12_000 * count <= material + pawns <= 12_000 * count);
    assert(-9_000 * count <= material <= 9_000 * count);
    assert(-11_000 * count <= pawns <= 11_000 * count);
    assert(-5_000 <= centre <= 5_000);
}

/// With the standard weights, what is added to the mate term of a score is
/// less than 784 pawns in all, and at most 12 pawns for each piece and 15 pawns
/// besides.
pub proof fn lemma_standard_rest_bounded(p: Position, perspective: Color, config: AiConfig)
    requires
        config.weights == Weights::standard(),
    ensures
        ({
            let mate = if config.mate_module {
                signed(perspective, p.mate_term(config.weights))
            } else {
                0
            };
            let rest = p.score(perspective, config) - mate;
            &&& -784_000 < rest < 784_000
            &&& -12_000 * p.pieces() - 15_000 <= rest <= 12_000 * p.pieces() + 15_000
        }),
{
    reveal(Position::score);
    lemma_standard_positional_bounded(p, config);
    let count = p.pieces() as int;
    assert(12_000 * count <= 768_000);
    let penalty = if config.draw_penalty_module {
        p.draw_penalty(config.weights)
    } else {
        0
    };
    assert(-10_000 <= penalty <= 0);
}

/// Mate: with the standard weights and the mate module on, a position in which
/// the side to move is in check and cannot move scores more than 9000 pawns for
/// the other side, and less than 9000 pawns below zero for the side to move.
pub proof fn lemma_mate_score(p: Position, config: AiConfig)
    requires
        config.weights == Weights::standard(),
        config.mate_module,
        p.stuck(),
        p.in_check(p.current_turn),
    ensures
        p.mate_term(config.weights) == -signed(p.current_turn, MATE_SCORE as int),
        p.score(p.current_turn.other(), config) > 9_000_000,
        p.score(p.current_turn, config) < -9_000_000,
{
    lemma_standard_rest_bounded(p, p.current_turn, config);
    lemma_standard_rest_bounded(p, p.current_turn.other(), config);
}

/// Stalemate is neutral: where the side to move cannot move and is not in
/// check, the mate term is 0, whatever the weights.
pub proof fn lemma_stalemate_term(p: Position, w: Weights)
    requires
        p.stuck(),
        !p.in_check(p.current_turn),
    ensures
        p.mate_term(w) == 0,
{
}

/// Stalemate with few pieces: with the standard weights, a position with at
/// most seven pieces in which the side to move cannot move and is not in check
/// scores less than 100 pawns either way, for either side.
pub proof fn lemma_stalemate_score(p: Position, perspective: Color, config: AiConfig)
    requires
        config.weights == Weights::standard(),
        p.stuck(),
        !p.in_check(p.current_turn),
        p.pieces() <= 7,
    ensures
        -100_000 < p.score(perspective, config) < 100_000,
{
    lemma_standard_rest_bounded(p, perspective, config);
    assert(12_000 * p.pieces() <= 84_000) by (nonlinear_arith)
        requires
            p.pieces() <= 7,
    ;
}

/// Two grids that differ on one square at most differ in material by what
/// stands on that square.
pub proof fn lemma_material_one_square(a: Position, b: Position, r: int, c: int, n: int)
    requires
        on_board(r, c),
        0 <= n <= 64,
        forall|i: int, j: int| on_board(i, j) && !(i == r && j == c) ==> a.at(i, j) == b.at(i, j),
    ensures
        a.material_upto(n) - b.material_upto(n) == if r * 8 + c < n {
            piece_worth_at(a, r, c) - piece_worth_at(b, r, c)
        } else {
            0
        },
    decreases n,
{
    if n > 0 {
        lemma_material_one_square(a, b, r, c, n - 1);
        let (i, j) = ((n - 1) / 8, (n - 1) % 8);
        if i == r && j == c {
            assert(r * 8 + c == n - 1);
        } else {
            assert(r * 8 + c != n - 1);
            assert(a.at(i, j) == b.at(i, j));
        }
    }
}

/// The material value of what stands on a square, counted for White and
/// against Black; 0 for an empty square.
pub open spec fn piece_worth_at(p: Position, r: int, c: int) -> int {
    match p.at(r, c) {
        Some(x) => signed(x.color, piece_worth(x.piece_type)),
        None => 0,
    }
}

/// Promotion: where a pawn can promote, promoting to a queen leaves the mover
/// with more material than promoting to a rook, bishop or knight on the same
/// square, by the difference of the two pieces' values.
pub proof fn lemma_queen_promotion_material(p: Position, m: Move, kind: PieceType)
    requires
        p.wf(),
        m.on_board(),
        p.at(m.from.0 as int, m.from.1 as int) is Some,
        p.at(m.from.0 as int, m.from.1 as int)->0.piece_type == PieceType::Pawn,
        kind == PieceType::Rook || kind == PieceType::Bishop || kind == PieceType::Knight,
    ensures
        ({
            let mover = p.at(m.from.0 as int, m.from.1 as int)->0.color;
            let queened = p.played(Move { promotion: Some(PieceType::Queen), ..m });
            let other = p.played(Move { promotion: Some(kind), ..m });
            &&& signed(mover, queened.material()) - signed(mover, other.material()) == 9000
                - piece_worth(kind)
            &&& signed(mover, queened.material()) > signed(mover, other.material())
        }),
{
    reveal(Position::played);
    reveal(Position::moved);
    let pawn = p.at(m.from.0 as int, m.from.1 as int)->0;
    let mq = Move { promotion: Some(PieceType::Queen), ..m };
    let mk = Move { promotion: Some(kind), ..m };
    let a = p.moved(mq);
    let b = p.moved(mk);
    let (tr, tc) = (m.to.0 as int, m.to.1 as int);
    assert(a.squares == p.grid_after(pawn, mq).squares);
    assert(b.squares == p.grid_after(pawn, mk).squares);
    assert(a.at(tr, tc) == Some(Piece { piece_type: PieceType::Queen, color: pawn.color }));
    assert(b.at(tr, tc) == Some(Piece { piece_type: kind, color: pawn.color }));
    assert forall|i: int, j: int| on_board(i, j) && !(i == tr && j == tc) implies a.at(i, j)
        == b.at(i, j) by {}
    lemma_material_one_square(a, b, tr, tc, 64);
    lemma_material_frame(a.judged(), a, 64);
    lemma_material_frame(b.judged(), b, 64);
    assert(p.played(mq) == a.judged());
    assert(p.played(mk) == b.judged());
    assert(a.material() - b.material() == signed(pawn.color, 9000 - piece_worth(kind)));
}

/// Repetition ends the game at the third occurrence and not before: in a
/// position that is not over, where the side to move has a legal move and the
/// halfmove clock is below 100, the game is drawn by repetition if the
/// position's hash occurs three times in its history; if it occurs less often
/// and enough material is left, the game goes on.
pub proof fn lemma_repetition_draw(p: Position)
    requires
        !p.game_over,
        p.legal_moves(p.current_turn).len() > 0,
        p.halfmove_clock < 100,
    ensures
        p.repetitions() >= 3 ==> p.judged().game_over && p.judged().result == Some(
            "Draw by repetition"@,
        ),
        p.repetitions() < 3 && !p.insufficient_material() ==> p.judged() == p,
{
}

/// A move's slot lies behind a move whose priority is not lower than its own,
/// and every move from the slot on has a lower priority.
pub proof fn lemma_slot_divides(p: Position, sorted: Seq<Move>, m: Move)
    ensures
        ({
            let k = p.slot(sorted, m);
            &&& 0 <= k <= sorted.len()
            &&& k > 0 ==> p.priority(sorted[k - 1]) >= p.priority(m)
            &&& forall|j: int| k <= j < sorted.len() ==> p.priority(#[trigger] sorted[j]) < p.priority(m)
        }),
    decreases sorted.len(),
{
    lemma_slot_in_range(p, sorted, m);
    if sorted.len() > 0 && p.priority(sorted.last()) < p.priority(m) {
        lemma_slot_divides(p, sorted.drop_last(), m);
        let k = p.slot(sorted, m);
        assert forall|j: int| k <= j < sorted.len() implies p.priority(#[trigger] sorted[j])
            < p.priority(m) by {
            if j < sorted.len() - 1 {
                assert(sorted[j] == sorted.drop_last()[j]);
            }
        }
    }
}

/// The search order is by falling priority: no move comes before a move of
/// higher priority.
pub proof fn lemma_ordered_by_priority(p: Position, moves: Seq<Move>)
    ensures
        forall|i: int, j: int|
            0 <= i < j < p.ordered(moves).len() ==> p.priority(#[trigger] p.ordered(moves)[i])
                >= p.priority(#[trigger] p.ordered(moves)[j]),
    decreases moves.len(),
{
    if moves.len() > 0 {
        let head = p.ordered(moves.drop_last());
        let m = moves.last();
        let k = p.slot(head, m);
        lemma_ordered_by_priority(p, moves.drop_last());
        lemma_slot_divides(p, head, m);
        let out = head.insert(k, m);
        assert(out == p.ordered(moves));
        assert forall|i: int, j: int| 0 <= i < j < out.len() implies p.priority(#[trigger] out[i])
            >= p.priority(#[trigger] out[j]) by {
            let x = if i < k {
                head[i]
            } else if i == k {
                m
            } else {
                head[i - 1]
            };
            let y = if j < k {
                head[j]
            } else if j == k {
                m
            } else {
                head[j - 1]
            };
            assert(out[i] == x);
            assert(out[j] == y);
            if i < k && j == k {
                if i < k - 1 {
                    assert(p.priority(head[i]) >= p.priority(head[k - 1]));
                }
            }
        }
    }
}

/// What every applied move does to the state around the grid. After a move from
/// an occupied square the turn has passed; the move number has counted on
/// exactly if Black moved; the en-passant target is the square that a pawn
/// passed over in a double step and is cleared by every other move; no castling
/// right has come back; one hash has joined the history; and the grid is a
/// grid still.
pub proof fn lemma_move_keeps_order(p: Position, m: Move)
    requires
        p.wf(),
        m.on_board(),
        p.at(m.from.0 as int, m.from.1 as int) is Some,
    ensures
        ({
            let q = p.played(m);
            let piece = p.at(m.from.0 as int, m.from.1 as int)->0;
            let double_step = piece.piece_type == PieceType::Pawn && (m.from.0 - m.to.0 == 2
                || m.to.0 - m.from.0 == 2);
            &&& q.wf()
            &&& q.current_turn == p.current_turn.other()
            &&& q.fullmove_number == if p.current_turn == Color::Black {
                crate::play::bumped(p.fullmove_number)
            } else {
                p.fullmove_number
            }
            &&& q.en_passant_target is Some <==> double_step
            &&& double_step ==> q.en_passant_target == Some(
                (((m.from.0 + m.to.0) / 2) as usize, m.from.1),
            )
            &&& q.castling_rights.white_kingside ==> p.castling_rights.white_kingside
            &&& q.castling_rights.white_queenside ==> p.castling_rights.white_queenside
            &&& q.castling_rights.black_kingside ==> p.castling_rights.black_kingside
            &&& q.castling_rights.black_queenside ==> p.castling_rights.black_queenside
            &&& q.position_history.len() == p.position_history.len() + 1
            &&& q.position_history.last() == q.hash()
            &&& p.game_over ==> q.game_over && q.result == p.result
        }),
{
    reveal(Position::played);
    reveal(Position::moved);
    let piece = p.at(m.from.0 as int, m.from.1 as int)->0;
    let next = p.shifted(piece, m);
    let q = p.moved(m);
    lemma_hash_frame(q, next);
    lemma_hash_frame(q.judged(), q);
}

/// No legal move leaves the mover's own king in check, and every legal move is
/// a move by the movement rules that lies on the board.
pub proof fn lemma_legal_moves_safe(p: Position, color: Color, m: Move)
    requires
        p.legal_moves(color).contains(m),
    ensures
        !p.moved(m).in_check(color),
        p.pseudo_legal_moves(color).contains(m),
        m.on_board(),
{
    reveal(Position::legal_moves);
    crate::play::lemma_legal_moves_on_board(p, color);
    let legal = p.pseudo_legal_moves(color).filter(p.safety(color));
    let i = choose|i: int| 0 <= i < legal.len() && legal[i] == m;
    p.pseudo_legal_moves(color).lemma_filter_pred(p.safety(color), i);
}

/// A move by the movement rules that does not leave the mover's own king in
/// check is legal.
pub proof fn lemma_safe_moves_legal(p: Position, color: Color, m: Move)
    requires
        p.pseudo_legal_moves(color).contains(m),
        !p.moved(m).in_check(color),
    ensures
        p.legal_moves(color).contains(m),
{
    reveal(Position::legal_moves);
    let pseudo = p.pseudo_legal_moves(color);
    let i = choose|i: int| 0 <= i < pseudo.len() && pseudo[i] == m;
    pseudo.lemma_filter_contains(p.safety(color), i);
}

/// 1 for an occupied square and 0 for an empty one.
pub open spec fn occupied(x: Option<Piece>) -> int {
    if x is Some {
        1
    } else {
        0
    }
}

impl Position {
    /// How many pieces stand on the first `n` squares, counted row by row from
    /// a1.
    pub open spec fn pieces_upto(self, n: int) -> int {
        (self.piece_count(Color::White, n) + self.piece_count(Color::Black, n)) as int
    }

    /// How many pieces the game holds in all: those on the board and those
    /// recorded as captured.
    pub open spec fn pieces_in_game(self) -> int {
        (self.pieces() + self.captured_white.len() + self.captured_black.len()) as int
    }
}

/// Two grids that differ on one square at most differ in their number of pieces
/// by what stands on that square.
pub proof fn lemma_pieces_one_square(a: Position, b: Position, r: int, c: int, n: int)
    requires
        on_board(r, c),
        0 <= n <= 64,
        forall|i: int, j: int| on_board(i, j) && !(i == r && j == c) ==> a.at(i, j) == b.at(i, j),
    ensures
        a.pieces_upto(n) - b.pieces_upto(n) == if r * 8 + c < n {
            occupied(a.at(r, c)) - occupied(b.at(r, c))
        } else {
            0
        },
    decreases n,
{
    if n > 0 {
        lemma_pieces_one_square(a, b, r, c, n - 1);
        let (i, j) = ((n - 1) / 8, (n - 1) % 8);
        if i == r && j == c {
            assert(r * 8 + c == n - 1);
        } else {
            assert(r * 8 + c != n - 1);
            assert(a.at(i, j) == b.at(i, j));
        }
    }
}

/// Replacing what stands on one square changes the number of pieces by the
/// difference between what comes and what goes, and nothing else on the grid.
pub proof fn lemma_with_square(p: Position, r: int, c: int, x: Option<Piece>)
    requires
        p.wf(),
        on_board(r, c),
    ensures
        p.with_square(r, c, x).wf(),
        p.with_square(r, c, x).at(r, c) == x,
        forall|i: int, j: int|
            !(i == r && j == c) ==> #[trigger] p.with_square(r, c, x).at(i, j) == p.at(i, j),
        p.with_square(r, c, x).pieces() == p.pieces() - occupied(p.at(r, c)) + occupied(x),
{
    let q = p.with_square(r, c, x);
    assert(q.wf());
    assert forall|i: int, j: int| !(i == r && j == c) implies #[trigger] q.at(i, j) == p.at(
        i,
        j,
    ) by {}
    lemma_pieces_one_square(q, p, r, c, 64);
}

/// Captures are the only way out: a move that follows the movement rules
/// changes neither the number of pieces of the game, those on the board and
/// those recorded as captured taken together, nor the shape of the grid. The
/// one move left out is a pawn's push onto the en-passant target, which no game
/// played from the starting position offers.
pub proof fn lemma_move_conserves_pieces(p: Position, color: Color, m: Move)
    requires
        p.wf(),
        p.follows_rules(color, m),
        !(p.is_en_passant(p.at(m.from.0 as int, m.from.1 as int)->0, m) && m.to.1 == m.from.1),
    ensures
        p.played(m).wf(),
        p.played(m).pieces_in_game() == p.pieces_in_game(),
{
    reveal(Position::played);
    reveal(Position::moved);
    let (fr, fc) = (m.from.0 as int, m.from.1 as int);
    let (tr, tc) = (m.to.0 as int, m.to.1 as int);
    let piece = p.at(fr, fc)->0;
    let target = p.at(tr, tc);
    let en_passant = p.is_en_passant(piece, m);
    let s1 = if en_passant {
        p.with_square(fr, tc, None)
    } else {
        p
    };
    if en_passant {
        lemma_with_square(p, fr, tc, None);
    }
    let s2a = s1.with_square(tr, tc, Some(piece));
    lemma_with_square(s1, tr, tc, Some(piece));
    let s2 = s2a.with_square(fr, fc, None);
    lemma_with_square(s2a, fr, fc, None);
    assert(!(fr == tr && fc == tc));
    assert(s1.at(tr, tc) == target);
    assert(s2a.at(fr, fc) == Some(piece));
    let victim = if en_passant {
        p.at(fr, tc)
    } else {
        None
    };
    assert(s2.pieces() == p.pieces() - occupied(victim) - occupied(target));
    let s3 = match m.promotion {
        Some(kind) => s2.with_square(tr, tc, Some(Piece { piece_type: kind, color: piece.color })),
        None => s2,
    };
    if m.promotion is Some {
        lemma_with_square(
            s2,
            tr,
            tc,
            Some(Piece { piece_type: m.promotion->0, color: piece.color }),
        );
    }
    assert(s3.pieces() == s2.pieces());
    assert(s3.wf());
    let s4 = p.grid_after(piece, m);
    if piece.piece_type == PieceType::King && tc - fc == 2 {
        assert(p.castling_rule(color, m));
        assert(s3.at(fr, 5) is None);
        assert(s3.at(fr, 7) is Some);
        lemma_with_square(s3, fr, 5, s3.at(fr, 7));
        lemma_with_square(s3.with_square(fr, 5, s3.at(fr, 7)), fr, 7, None);
    } else if piece.piece_type == PieceType::King && tc - fc == -2 {
        assert(p.castling_rule(color, m));
        assert(s3.at(fr, 3) is None);
        assert(s3.at(fr, 0) is Some);
        lemma_with_square(s3, fr, 3, s3.at(fr, 0));
        lemma_with_square(s3.with_square(fr, 3, s3.at(fr, 0)), fr, 0, None);
    }
    assert(s4.pieces() == s3.pieces());
    assert(s4.wf());
    let q = p.moved(m);
    assert(q.squares == s4.squares);
    lemma_pieces_one_square(q, s4, 0, 0, 64);
    lemma_pieces_one_square(q.judged(), q, 0, 0, 64);
    assert(q.captured_white.len() + q.captured_black.len() == p.captured_white.len()
        + p.captured_black.len() + occupied(target) + occupied(victim));
}

} // verus!

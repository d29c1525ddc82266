//! Applying a move: how a position changes, which moves are legal, and when a
//! game ends.

use vstd::prelude::*;
use crate::board::Board;
use crate::moves::Move;
use crate::piece::{Color, Piece, PieceType};
use crate::position::{CastlingRights, Position};

verus! {

/// A capture list after a possible capture: the victim's kind is appended if
/// the victim has the list's colour.
pub open spec fn captured_after(list: Seq<PieceType>, victim: Option<Piece>, color: Color) -> Seq<
    PieceType,
> {
    match victim {
        Some(p) => if p.color == color {
            list.push(p.piece_type)
        } else {
            list
        },
        None => list,
    }
}

/// A castling right survives a move unless the side's king moves, the rook of
/// that corner moves, or anything moves onto that corner.
pub open spec fn right_kept(
    right: bool,
    piece: Piece,
    m: Move,
    color: Color,
    corner: (usize, usize),
) -> bool {
    &&& right
    &&& !(piece.piece_type == PieceType::King && piece.color == color)
    &&& !(piece.piece_type == PieceType::Rook && piece.color == color && m.from == corner)
    &&& m.to != corner
}

/// The castling rights after `piece` has made the move.
pub open spec fn rights_after(rights: CastlingRights, piece: Piece, m: Move) -> CastlingRights {
    CastlingRights {
        white_kingside: right_kept(rights.white_kingside, piece, m, Color::White, (0, 7)),
        white_queenside: right_kept(rights.white_queenside, piece, m, Color::White, (0, 0)),
        black_kingside: right_kept(rights.black_kingside, piece, m, Color::Black, (7, 7)),
        black_queenside: right_kept(rights.black_queenside, piece, m, Color::Black, (7, 0)),
    }
}

/// A counter one higher, or unchanged where it has reached the largest value
/// that its type holds.
pub open spec fn bumped(n: u32) -> u32 {
    if n < u32::MAX {
        (n + 1) as u32
    } else {
        n
    }
}

/// The text of a win for the side that has just mated a player of the given
/// colour.
pub open spec fn mate_text(loser: Color) -> Seq<char> {
    match loser {
        Color::White => "Black wins"@,
        Color::Black => "White wins"@,
    }
}

impl Position {
    /// The move takes a pawn onto the en-passant target.
    pub open spec fn is_en_passant(self, piece: Piece, m: Move) -> bool {
        piece.piece_type == PieceType::Pawn && self.en_passant_target == Some(m.to)
    }

    /// The grid after `piece` has made the move: an en-passant victim is taken
    /// off, the piece goes to its destination and leaves its origin, a promoted
    /// pawn is replaced, and a king that moves two columns brings its rook over.
    pub open spec fn grid_after(self, piece: Piece, m: Move) -> Position {
        let (fr, fc) = (m.from.0 as int, m.from.1 as int);
        let (tr, tc) = (m.to.0 as int, m.to.1 as int);
        let s1 = if self.is_en_passant(piece, m) {
            self.with_square(fr, tc, None)
        } else {
            self
        };
        let s2 = s1.with_square(tr, tc, Some(piece)).with_square(fr, fc, None);
        let s3 = match m.promotion {
            Some(kind) => s2.with_square(
                tr,
                tc,
                Some(Piece { piece_type: kind, color: piece.color }),
            ),
            None => s2,
        };
        if piece.piece_type == PieceType::King && tc - fc == 2 {
            s3.with_square(fr, 5, s3.at(fr, 7)).with_square(fr, 7, None)
        } else if piece.piece_type == PieceType::King && tc - fc == -2 {
            s3.with_square(fr, 3, s3.at(fr, 0)).with_square(fr, 0, None)
        } else {
            s3
        }
    }

    /// The position after `piece` has made the move, the history left as it
    /// was: the grid changes as `grid_after` says; captures are recorded;
    /// castling rights are withdrawn where king or rook moved or a corner was
    /// entered; the en-passant target is the square a pawn passed over in a
    /// double step, else none; the halfmove clock restarts on a pawn move or
    /// capture and counts on otherwise; the move number counts on after Black's
    /// move; and the turn passes.
    pub open spec fn shifted(self, piece: Piece, m: Move) -> Position {
        let (fr, fc) = (m.from.0 as int, m.from.1 as int);
        let (tr, tc) = (m.to.0 as int, m.to.1 as int);
        let target = self.at(tr, tc);
        let is_pawn = piece.piece_type == PieceType::Pawn;
        let victim = if self.is_en_passant(piece, m) {
            self.at(fr, tc)
        } else {
            None
        };
        Position {
            squares: self.grid_after(piece, m).squares,
            current_turn: self.current_turn.other(),
            castling_rights: rights_after(self.castling_rights, piece, m),
            en_passant_target: if is_pawn && (fr - tr == 2 || tr - fr == 2) {
                Some((((fr + tr) / 2) as usize, m.from.1))
            } else {
                None
            },
            halfmove_clock: if is_pawn || target is Some {
                0
            } else {
                bumped(self.halfmove_clock)
            },
            fullmove_number: if self.current_turn == Color::Black {
                bumped(self.fullmove_number)
            } else {
                self.fullmove_number
            },
            game_over: self.game_over,
            result: self.result,
            captured_white: captured_after(
                captured_after(self.captured_white, target, Color::White),
                victim,
                Color::White,
            ),
            captured_black: captured_after(
                captured_after(self.captured_black, target, Color::Black),
                victim,
                Color::Black,
            ),
            last_move: Some((m.from, m.to)),
            position_history: self.position_history,
        }
    }

    /// The position after the move, before the test for the end of the game. A
    /// move from an empty square changes nothing. Otherwise the piece on the
    /// origin square makes the move, and the hash of the new position joins the
    /// history.
    #[verifier::opaque]
    pub open spec fn moved(self, m: Move) -> Position {
        match self.at(m.from.0 as int, m.from.1 as int) {
            None => self,
            Some(piece) => {
                let next = self.shifted(piece, m);
                Position { position_history: self.position_history.push(next.hash()), ..next }
            },
        }
    }

    /// The move does not leave the mover's own king attacked.
    pub open spec fn leaves_king_safe(self, color: Color, m: Move) -> bool {
        !self.moved(m).in_check(color)
    }

    /// The test that a pseudo-legal move has to pass to be legal.
    pub open spec fn safety(self, color: Color) -> spec_fn(Move) -> bool {
        |m: Move| self.leaves_king_safe(color, m)
    }

    /// The legal moves of the side: its pseudo-legal moves, in their order, that
    /// do not leave its own king in check.
    #[verifier::opaque]
    pub open spec fn legal_moves(self, color: Color) -> Seq<Move> {
        self.pseudo_legal_moves(color).filter(self.safety(color))
    }

    /// How the game has ended in this position, if it has, the conditions being
    /// tried in this order: the side to move has no legal move and is in check
    /// (mate) or is not (stalemate); the halfmove clock has reached 100; the
    /// position has occurred three times; too little material is left.
    pub open spec fn verdict(self) -> Option<Seq<char>> {
        let side = self.current_turn;
        if self.legal_moves(side).len() == 0 {
            if self.in_check(side) {
                Some(mate_text(side))
            } else {
                Some("Draw"@)
            }
        } else if self.halfmove_clock >= 100 {
            Some("Draw — 50 move rule"@)
        } else if self.threefold_repetition() {
            Some("Draw by repetition"@)
        } else if self.insufficient_material() {
            Some("Draw — insufficient material"@)
        } else {
            None
        }
    }

    /// The position with the end of the game recorded, if it has ended and no
    /// end was recorded before.
    pub open spec fn judged(self) -> Position {
        if self.game_over {
            self
        } else {
            match self.verdict() {
                Some(text) => Position { game_over: true, result: Some(text), ..self },
                None => self,
            }
        }
    }

    /// The position after the move, the end of the game recorded. A move from an
    /// empty square changes nothing.
    #[verifier::opaque]
    pub open spec fn played(self, m: Move) -> Position {
        if self.at(m.from.0 as int, m.from.1 as int) is None {
            self
        } else {
            self.moved(m).judged()
        }
    }
}

/// Every legal move is a pseudo-legal move and lies on the board.
pub proof fn lemma_legal_moves_on_board(p: Position, color: Color)
    ensures
        forall|m: Move|
            #[trigger] p.legal_moves(color).contains(m) ==> m.on_board()
                && p.pseudo_legal_moves(color).contains(m),
{
    reveal(Position::legal_moves);
    crate::movegen::lemma_moves_upto_on_board(p, color, 64);
    assert forall|m: Move| #[trigger] p.legal_moves(color).contains(m) implies m.on_board()
        && p.pseudo_legal_moves(color).contains(m) by {
        p.pseudo_legal_moves(color).lemma_filter_contains_rev(p.safety(color), m);
    }
}

impl Board {
    /// Replaces what stands on one square.
    fn put(&mut self, row: usize, col: usize, p: Option<Piece>)
        requires
            row < 8,
            col < 8,
        ensures
            final(self)@ == old(self)@.with_square(row as int, col as int, p),
    {
        self.squares[row][col] = p;
        assert(self@.squares =~~= old(self)@.with_square(row as int, col as int, p).squares);
    }

    /// Applies a move without testing for the end of the game.
    pub fn apply_move_no_check(&mut self, m: &Move)
        requires
            m.on_board(),
        ensures
            final(self)@ == old(self)@.moved(*m),
    {
        proof {
            reveal(Position::moved);
        }
        let (fr, fc) = m.from;
        let (tr, tc) = m.to;
        let piece = match self.squares[fr][fc] {
            Some(p) => p,
            None => {
                return ;
            },
        };
        let target = self.squares[tr][tc];
        let is_en_passant = piece.piece_type == PieceType::Pawn && match self.en_passant_target {
            Some((er, ec)) => er == tr && ec == tc,
            None => false,
        };
        let victim = if is_en_passant {
            self.squares[fr][tc]
        } else {
            None
        };
        self.move_pieces(piece, m);
        self.record_capture(target);
        self.record_capture(victim);
        self.pass_turn(piece, target.is_some(), m);
        assert(self@ == old(self)@.shifted(piece, *m));
        let hash = self.position_hash();
        self.position_history.push(hash);
    }

    /// Appends a captured piece, if there is one, to the list of its colour.
    fn record_capture(&mut self, captured: Option<Piece>)
        ensures
            final(self)@ == (Position {
                captured_white: captured_after(old(self)@.captured_white, captured, Color::White),
                captured_black: captured_after(old(self)@.captured_black, captured, Color::Black),
                ..old(self)@
            }),
    {
        if let Some(p) = captured {
            match p.color {
                Color::White => self.captured_white.push(p.piece_type),
                Color::Black => self.captured_black.push(p.piece_type),
            }
        }
    }

    /// Updates rights, en-passant target, clocks, turn and last move for a move
    /// of `piece`.
    fn pass_turn(&mut self, piece: Piece, is_capture: bool, m: &Move)
        requires
            m.on_board(),
        ensures
            final(self)@ == (Position {
                current_turn: old(self)@.current_turn.other(),
                castling_rights: rights_after(old(self)@.castling_rights, piece, *m),
                en_passant_target: if piece.piece_type == PieceType::Pawn && (m.from.0 - m.to.0 == 2
                    || m.to.0 - m.from.0 == 2) {
                    Some((((m.from.0 + m.to.0) / 2) as usize, m.from.1))
                } else {
                    None
                },
                halfmove_clock: if piece.piece_type == PieceType::Pawn || is_capture {
                    0
                } else {
                    bumped(old(self)@.halfmove_clock)
                },
                fullmove_number: if old(self)@.current_turn == Color::Black {
                    bumped(old(self)@.fullmove_number)
                } else {
                    old(self)@.fullmove_number
                },
                last_move: Some((m.from, m.to)),
                ..old(self)@
            }),
    {
        let (fr, fc) = m.from;
        let (tr, tc) = m.to;
        let is_pawn_move = piece.piece_type == PieceType::Pawn;
        self.castling_rights = Self::updated_rights(self.castling_rights, piece, m);
        if is_pawn_move && (fr == tr + 2 || tr == fr + 2) {
            self.en_passant_target = Some(((fr + tr) / 2, fc));
        } else {
            self.en_passant_target = None;
        }
        if is_pawn_move || is_capture {
            self.halfmove_clock = 0;
        } else if self.halfmove_clock < u32::MAX {
            self.halfmove_clock += 1;
        }
        if self.current_turn == Color::Black && self.fullmove_number < u32::MAX {
            self.fullmove_number += 1;
        }
        self.current_turn = self.current_turn.opposite();
        self.last_move = Some(((fr, fc), (tr, tc)));
    }

    /// Moves the pieces on the grid for a move of `piece`.
    fn move_pieces(&mut self, piece: Piece, m: &Move)
        requires
            m.on_board(),
        ensures
            final(self)@ == (Position {
                squares: old(self)@.grid_after(piece, *m).squares,
                ..old(self)@
            }),
    {
        let (fr, fc) = m.from;
        let (tr, tc) = m.to;
        let is_en_passant = piece.piece_type == PieceType::Pawn && match self.en_passant_target {
            Some((er, ec)) => er == tr && ec == tc,
            None => false,
        };
        if is_en_passant {
            self.put(fr, tc, None);
        }
        self.put(tr, tc, Some(piece));
        self.put(fr, fc, None);
        if let Some(promo_type) = m.promotion {
            self.put(tr, tc, Some(Piece::new(promo_type, piece.color)));
        }
        if piece.piece_type == PieceType::King {
            if tc == fc + 2 {
                let rook = self.squares[fr][7];
                self.put(fr, 5, rook);
                self.put(fr, 7, None);
            } else if fc == tc + 2 {
                let rook = self.squares[fr][0];
                self.put(fr, 3, rook);
                self.put(fr, 0, None);
            }
        }
    }

    /// The castling rights after `piece` has made the move.
    fn updated_rights(rights: CastlingRights, piece: Piece, m: &Move) -> (r: CastlingRights)
        ensures
            r == rights_after(rights, piece, *m),
    {
        let mut r = rights;
        let (fr, fc) = m.from;
        let (tr, tc) = m.to;
        if piece.piece_type == PieceType::King {
            match piece.color {
                Color::White => {
                    r.white_kingside = false;
                    r.white_queenside = false;
                },
                Color::Black => {
                    r.black_kingside = false;
                    r.black_queenside = false;
                },
            }
        }
        if piece.piece_type == PieceType::Rook {
            match piece.color {
                Color::White => {
                    if fr == 0 && fc == 0 {
                        r.white_queenside = false;
                    } else if fr == 0 && fc == 7 {
                        r.white_kingside = false;
                    }
                },
                Color::Black => {
                    if fr == 7 && fc == 0 {
                        r.black_queenside = false;
                    } else if fr == 7 && fc == 7 {
                        r.black_kingside = false;
                    }
                },
            }
        }
        if tr == 0 && tc == 0 {
            r.white_queenside = false;
        } else if tr == 0 && tc == 7 {
            r.white_kingside = false;
        } else if tr == 7 && tc == 0 {
            r.black_queenside = false;
        } else if tr == 7 && tc == 7 {
            r.black_kingside = false;
        }
        r
    }

    /// Whether the side's king is safe once the move has been made. The move is
    /// tried on a scratch copy that holds the grid and nothing of the game's
    /// records: whether a king is attacked depends on the grid alone.
    pub fn king_safe_after(&self, m: &Move, color: Color) -> (safe: bool)
        requires
            m.on_board(),
        ensures
            safe == self@.leaves_king_safe(color, *m),
    {
        proof {
            reveal(Position::moved);
        }
        let piece = match self.squares[m.from.0][m.from.1] {
            Some(p) => p,
            None => {
                return !self.is_in_check(color);
            },
        };
        let mut scratch = Board {
            squares: self.squares,
            current_turn: self.current_turn,
            castling_rights: self.castling_rights,
            en_passant_target: self.en_passant_target,
            halfmove_clock: self.halfmove_clock,
            fullmove_number: self.fullmove_number,
            game_over: self.game_over,
            result: None,
            captured_white: Vec::new(),
            captured_black: Vec::new(),
            last_move: self.last_move,
            position_history: Vec::new(),
        };
        proof {
            assert(scratch@.squares =~~= self@.squares);
            assert(scratch@.grid_after(piece, *m).squares == self@.grid_after(piece, *m).squares);
        }
        scratch.move_pieces(piece, m);
        proof {
            crate::frame::lemma_in_check_frame(scratch@, self@.moved(*m), color);
        }
        !scratch.is_in_check(color)
    }

    /// The legal moves of the side: every pseudo-legal move that does not leave
    /// the side's own king in check.
    pub fn generate_legal_moves(&self, color: Color) -> (legal: Vec<Move>)
        ensures
            legal@ == self@.legal_moves(color),
            forall|m: Move|
                #[trigger] legal@.contains(m) <==> self@.follows_rules(color, m)
                    && self@.leaves_king_safe(color, m),
            forall|i: int| 0 <= i < legal@.len() ==> (#[trigger] legal@[i]).on_board(),
    {
        let pseudo_legal = self.generate_moves(color);
        let mut legal: Vec<Move> = Vec::new();
        let mut i: usize = 0;
        proof {
            reveal(Seq::filter);
            reveal(Position::legal_moves);
            assert(pseudo_legal@.take(0).filter(self@.safety(color)) =~= Seq::<Move>::empty());
        }
        while i < pseudo_legal.len()
            invariant
                i <= pseudo_legal@.len(),
                pseudo_legal@ == self@.pseudo_legal_moves(color),
                forall|k: int|
                    0 <= k < pseudo_legal@.len() ==> (#[trigger] pseudo_legal@[k]).on_board(),
                legal@ == pseudo_legal@.take(i as int).filter(self@.safety(color)),
                forall|k: int| 0 <= k < legal@.len() ==> (#[trigger] legal@[k]).on_board(),
            decreases pseudo_legal.len() - i,
        {
            let m = pseudo_legal[i];
            proof {
                assert(pseudo_legal@.take(i + 1) =~= pseudo_legal@.take(i as int).push(m));
                pseudo_legal@.take(i as int).lemma_filter_push(m, self@.safety(color));
            }
            if self.king_safe_after(&m, color) {
                legal.push(m);
            }
            i += 1;
        }
        assert(pseudo_legal@.take(i as int) =~= pseudo_legal@);
        proof {
            assert forall|m: Move|
                #[trigger] legal@.contains(m) <==> self@.follows_rules(color, m)
                    && self@.leaves_king_safe(color, m) by {
                crate::rules::lemma_legal_rule(self@, color, m);
            }
        }
        legal
    }

    /// Records the end of the game, if the game has ended in this position and
    /// no end was recorded before.
    pub fn judge(&mut self)
        ensures
            final(self)@ == old(self)@.judged(),
    {
        if self.game_over {
            return ;
        }
        let legal_moves = self.generate_legal_moves(self.current_turn);
        if legal_moves.len() == 0 {
            if self.is_in_check(self.current_turn) {
                let text = match self.current_turn {
                    Color::White => "Black wins".to_string(),
                    Color::Black => "White wins".to_string(),
                };
                assert(text@ == mate_text(self.current_turn));
                self.finish(text);
            } else {
                self.finish("Draw".to_string());
            }
        } else if self.halfmove_clock >= 100 {
            self.finish("Draw — 50 move rule".to_string());
        } else if self.is_threefold_repetition() {
            self.finish("Draw by repetition".to_string());
        } else if self.has_insufficient_material() {
            self.finish("Draw — insufficient material".to_string());
        }
    }

    /// Marks the game as over with the given result.
    fn finish(&mut self, text: String)
        ensures
            final(self)@ == (Position { game_over: true, result: Some(text@), ..old(self)@ }),
    {
        self.game_over = true;
        self.result = Some(text);
    }

    /// Applies a move and records the end of the game if the move ends it. A
    /// move from an empty square changes nothing.
    pub fn apply_move(&mut self, m: &Move)
        requires
            m.on_board(),
        ensures
            final(self)@ == old(self)@.played(*m),
    {
        proof {
            reveal(Position::played);
        }
        if self.squares[m.from.0][m.from.1].is_none() {
            return ;
        }
        self.apply_move_no_check(m);
        self.judge();
    }
}

} // verus!

//! The board: the position as data, its constructors and its queries.

use vstd::prelude::*;
use crate::piece::{Color, Piece, PieceType};
use crate::position::{on_board, unit_step, ray_room, occurrences, CastlingRights, Position};

verus! {

/// The full state of a game: the grid, the side to move, castling rights, the
/// en-passant target, the clocks, the outcome, what was captured, the last move
/// and the hash of every position reached.
#[derive(Debug)]
pub struct Board {
    pub squares: [[Option<Piece>; 8]; 8],
    pub current_turn: Color,
    pub castling_rights: CastlingRights,
    pub en_passant_target: Option<(usize, usize)>,
    pub halfmove_clock: u32,
    pub fullmove_number: u32,
    pub game_over: bool,
    pub result: Option<String>,
    pub captured_white: Vec<PieceType>,
    pub captured_black: Vec<PieceType>,
    pub last_move: Option<((usize, usize), (usize, usize))>,
    pub position_history: Vec<u64>,
}

impl View for Board {
    type V = Position;

    open spec fn view(&self) -> Position {
        Position {
            squares: Seq::new(8, |r: int| Seq::new(8, |c: int| self.squares[r][c])),
            current_turn: self.current_turn,
            castling_rights: self.castling_rights,
            en_passant_target: self.en_passant_target,
            halfmove_clock: self.halfmove_clock,
            fullmove_number: self.fullmove_number,
            game_over: self.game_over,
            result: match self.result {
                Some(s) => Some(s@),
                None => None,
            },
            captured_white: self.captured_white@,
            captured_black: self.captured_black@,
            last_move: self.last_move,
            position_history: self.position_history@,
        }
    }
}

impl Clone for Board {
    fn clone(&self) -> (b: Board)
        ensures
            b@ == self@,
            b.squares == self.squares,
    {
        let b = Board {
            squares: self.squares,
            current_turn: self.current_turn,
            castling_rights: self.castling_rights,
            en_passant_target: self.en_passant_target,
            halfmove_clock: self.halfmove_clock,
            fullmove_number: self.fullmove_number,
            game_over: self.game_over,
            result: self.result.clone(),
            captured_white: self.captured_white.clone(),
            captured_black: self.captured_black.clone(),
            last_move: self.last_move,
            position_history: self.position_history.clone(),
        };
        proof {
            assert(b.captured_white@ =~= self.captured_white@);
            assert(b.captured_black@ =~= self.captured_black@);
            assert(b.position_history@ =~= self.position_history@);
        }
        b
    }
}

impl Default for Board {
    fn default() -> (b: Board)
        ensures
            b@ == Position::initial(),
    {
        Board::new()
    }
}

/// The grid of a board has eight rows of eight squares.
pub proof fn lemma_board_grid(board: &Board)
    ensures
        board@.wf(),
{
}

/// The piece that stands on a square at the start of a game.
pub open spec fn start_piece(r: int, c: int) -> Option<Piece> {
    let back = if c == 0 || c == 7 {
        PieceType::Rook
    } else if c == 1 || c == 6 {
        PieceType::Knight
    } else if c == 2 || c == 5 {
        PieceType::Bishop
    } else if c == 3 {
        PieceType::Queen
    } else {
        PieceType::King
    };
    if r == 0 {
        Some(Piece { piece_type: back, color: Color::White })
    } else if r == 1 {
        Some(Piece { piece_type: PieceType::Pawn, color: Color::White })
    } else if r == 6 {
        Some(Piece { piece_type: PieceType::Pawn, color: Color::Black })
    } else if r == 7 {
        Some(Piece { piece_type: back, color: Color::Black })
    } else {
        None
    }
}

impl Position {
    /// The board with no piece on it: White to move, no castling rights, first
    /// move, nothing captured and no history.
    pub open spec fn cleared() -> Position {
        Position {
            squares: Seq::new(8, |r: int| Seq::new(8, |c: int| None)),
            current_turn: Color::White,
            castling_rights: CastlingRights {
                white_kingside: false,
                white_queenside: false,
                black_kingside: false,
                black_queenside: false,
            },
            en_passant_target: None,
            halfmove_clock: 0,
            fullmove_number: 1,
            game_over: false,
            result: None,
            captured_white: Seq::empty(),
            captured_black: Seq::empty(),
            last_move: None,
            position_history: Seq::empty(),
        }
    }

    /// The standard starting position before its hash is recorded.
    pub open spec fn set_up() -> Position {
        Position {
            squares: Seq::new(8, |r: int| Seq::new(8, |c: int| start_piece(r, c))),
            castling_rights: CastlingRights {
                white_kingside: true,
                white_queenside: true,
                black_kingside: true,
                black_queenside: true,
            },
            ..Position::cleared()
        }
    }
}

impl Position {
    /// The standard starting position, its own hash being the first entry of the
    /// history.
    pub open spec fn initial() -> Position {
        Position { position_history: seq![Position::set_up().hash()], ..Position::set_up() }
    }
}

impl Board {
    /// An empty board with no pieces, for setting up positions by hand.
    pub fn empty() -> (b: Board)
        ensures
            b@ == Position::cleared(),
    {
        let b = Board {
            squares: [[None; 8]; 8],
            current_turn: Color::White,
            castling_rights: CastlingRights {
                white_kingside: false,
                white_queenside: false,
                black_kingside: false,
                black_queenside: false,
            },
            en_passant_target: None,
            halfmove_clock: 0,
            fullmove_number: 1,
            game_over: false,
            result: None,
            captured_white: Vec::new(),
            captured_black: Vec::new(),
            last_move: None,
            position_history: Vec::new(),
        };
        assert(b@.squares =~~= Position::cleared().squares);
        assert(b@.captured_white =~= Seq::empty());
        assert(b@.captured_black =~= Seq::empty());
        assert(b@.position_history =~= Seq::empty());
        b
    }

    /// The standard starting position.
    pub fn new() -> (b: Board)
        ensures
            b@ == Position::initial(),
    {
        let white_pawn = Some(Piece::new(PieceType::Pawn, Color::White));
        let black_pawn = Some(Piece::new(PieceType::Pawn, Color::Black));
        let squares = [
            [
                Some(Piece::new(PieceType::Rook, Color::White)),
                Some(Piece::new(PieceType::Knight, Color::White)),
                Some(Piece::new(PieceType::Bishop, Color::White)),
                Some(Piece::new(PieceType::Queen, Color::White)),
                Some(Piece::new(PieceType::King, Color::White)),
                Some(Piece::new(PieceType::Bishop, Color::White)),
                Some(Piece::new(PieceType::Knight, Color::White)),
                Some(Piece::new(PieceType::Rook, Color::White)),
            ],
            [white_pawn; 8],
            [None; 8],
            [None; 8],
            [None; 8],
            [None; 8],
            [black_pawn; 8],
            [
                Some(Piece::new(PieceType::Rook, Color::Black)),
                Some(Piece::new(PieceType::Knight, Color::Black)),
                Some(Piece::new(PieceType::Bishop, Color::Black)),
                Some(Piece::new(PieceType::Queen, Color::Black)),
                Some(Piece::new(PieceType::King, Color::Black)),
                Some(Piece::new(PieceType::Bishop, Color::Black)),
                Some(Piece::new(PieceType::Knight, Color::Black)),
                Some(Piece::new(PieceType::Rook, Color::Black)),
            ],
        ];
        let mut board = Board {
            squares,
            current_turn: Color::White,
            castling_rights: CastlingRights {
                white_kingside: true,
                white_queenside: true,
                black_kingside: true,
                black_queenside: true,
            },
            en_passant_target: None,
            halfmove_clock: 0,
            fullmove_number: 1,
            game_over: false,
            result: None,
            captured_white: Vec::new(),
            captured_black: Vec::new(),
            last_move: None,
            position_history: Vec::new(),
        };
        proof {
            assert forall|r: int, c: int| on_board(r, c) implies board.squares[r][c] == start_piece(
                r,
                c,
            ) by {}
            assert(board@.squares =~~= Position::set_up().squares);
            assert(board@.captured_white =~= Seq::empty());
            assert(board@.captured_black =~= Seq::empty());
            assert(board@.position_history =~= Seq::empty());
            assert(board@ == Position::set_up());
        }
        let hash = board.position_hash();
        board.position_history.push(hash);
        assert(board@.position_history =~= seq![hash]);
        board
    }

    /// Row and column, as signed numbers, name one of the 64 squares.
    pub fn in_bounds(row: i32, col: i32) -> (b: bool)
        ensures
            b == on_board(row as int, col as int),
    {
        0 <= row && row < 8 && 0 <= col && col < 8
    }

    /// What stands on a square given by signed coordinates; nothing stands
    /// outside the board.
    pub fn piece_at(&self, row: i32, col: i32) -> (p: Option<Piece>)
        ensures
            p == self@.at(row as int, col as int),
    {
        if Self::in_bounds(row, col) {
            self.squares[row as usize][col as usize]
        } else {
            None
        }
    }

    /// A piece of the given colour and kind stands on the square.
    pub(crate) fn has_piece(&self, row: i32, col: i32, color: Color, kind: PieceType) -> (b: bool)
        ensures
            b == self@.holds(row as int, col as int, color, kind),
    {
        match self.piece_at(row, col) {
            Some(p) => p.color == color && p.piece_type == kind,
            None => false,
        }
    }

    /// The first piece along a ray that leaves the square.
    fn first_on_ray(&self, row: usize, col: usize, dr: i32, dc: i32) -> (p: Option<Piece>)
        requires
            row < 8,
            col < 8,
            unit_step(dr as int, dc as int),
        ensures
            p == self@.first_piece(row as int, col as int, dr as int, dc as int),
    {
        let mut r: i32 = row as i32;
        let mut c: i32 = col as i32;
        loop
            invariant
                on_board(r as int, c as int),
                unit_step(dr as int, dc as int),
                self@.first_piece(row as int, col as int, dr as int, dc as int)
                    == self@.first_piece(r as int, c as int, dr as int, dc as int),
            decreases ray_room(r as int, c as int, dr as int, dc as int),
        {
            let nr: i32 = r + dr;
            let nc: i32 = c + dc;
            if !Self::in_bounds(nr, nc) {
                return None;
            }
            let found = self.squares[nr as usize][nc as usize];
            if found.is_some() {
                return found;
            }
            r = nr;
            c = nc;
        }
    }

    /// The first piece along the ray is of the given colour and one of two kinds.
    fn ray_attacked(
        &self,
        row: usize,
        col: usize,
        dr: i32,
        dc: i32,
        by: Color,
        kind: PieceType,
        other_kind: PieceType,
    ) -> (b: bool)
        requires
            row < 8,
            col < 8,
            unit_step(dr as int, dc as int),
        ensures
            b == self@.ray_meets(row as int, col as int, dr as int, dc as int, by, kind, other_kind),
    {
        match self.first_on_ray(row, col, dr, dc) {
            Some(p) => p.color == by && (p.piece_type == kind || p.piece_type == other_kind),
            None => false,
        }
    }

    /// Where the king of the given colour stands, if the side has one.
    pub fn find_king(&self, color: Color) -> (k: Option<(usize, usize)>)
        ensures
            k == self@.king_square(color),
            match k {
                Some((r, c)) => r < 8 && c < 8 && self@.holds(
                    r as int,
                    c as int,
                    color,
                    PieceType::King,
                ),
                None => forall|r: int, c: int|
                    on_board(r, c) ==> !self@.holds(r, c, color, PieceType::King),
            },
    {
        let mut idx: usize = 0;
        while idx < 64
            invariant
                idx <= 64,
                self@.king_square(color) == self@.king_from(color, idx as int),
                forall|r: int, c: int|
                    on_board(r, c) && r * 8 + c < idx ==> !self@.holds(r, c, color, PieceType::King),
            decreases 64 - idx,
        {
            let r: usize = idx / 8;
            let c: usize = idx % 8;
            if let Some(p) = self.squares[r][c] {
                if p.piece_type == PieceType::King && p.color == color {
                    return Some((r, c));
                }
            }
            idx += 1;
        }
        None
    }

    /// Whether any piece of colour `attacker` attacks the square.
    pub fn is_square_attacked_by(&self, row: usize, col: usize, attacker: Color) -> (b: bool)
        requires
            row < 8,
            col < 8,
        ensures
            b == self@.attacked_by(row as int, col as int, attacker),
            b == self@.some_piece_attacks(row as int, col as int, attacker),
    {
        proof {
            reveal(Position::attacked_by);
            crate::rules::lemma_attacked_rule(self@, row as int, col as int, attacker);
        }
        let r: i32 = row as i32;
        let c: i32 = col as i32;
        let knight = self.has_piece(r - 2, c - 1, attacker, PieceType::Knight) || self.has_piece(
            r - 2,
            c + 1,
            attacker,
            PieceType::Knight,
        ) || self.has_piece(r - 1, c - 2, attacker, PieceType::Knight) || self.has_piece(
            r - 1,
            c + 2,
            attacker,
            PieceType::Knight,
        ) || self.has_piece(r + 1, c - 2, attacker, PieceType::Knight) || self.has_piece(
            r + 1,
            c + 2,
            attacker,
            PieceType::Knight,
        ) || self.has_piece(r + 2, c - 1, attacker, PieceType::Knight) || self.has_piece(
            r + 2,
            c + 1,
            attacker,
            PieceType::Knight,
        );
        assert(knight == self@.knight_attacks(row as int, col as int, attacker));
        if knight {
            return true;
        }
        let king = self.has_piece(r - 1, c - 1, attacker, PieceType::King) || self.has_piece(
            r - 1,
            c,
            attacker,
            PieceType::King,
        ) || self.has_piece(r - 1, c + 1, attacker, PieceType::King) || self.has_piece(
            r,
            c - 1,
            attacker,
            PieceType::King,
        ) || self.has_piece(r, c + 1, attacker, PieceType::King) || self.has_piece(
            r + 1,
            c - 1,
            attacker,
            PieceType::King,
        ) || self.has_piece(r + 1, c, attacker, PieceType::King) || self.has_piece(
            r + 1,
            c + 1,
            attacker,
            PieceType::King,
        );
        assert(king == self@.king_attacks(row as int, col as int, attacker));
        if king {
            return true;
        }
        let pawn_dir: i32 = match attacker {
            Color::White => 1,
            Color::Black => -1,
        };
        let pawn_row: i32 = r - pawn_dir;
        if self.has_piece(pawn_row, c - 1, attacker, PieceType::Pawn) || self.has_piece(
            pawn_row,
            c + 1,
            attacker,
            PieceType::Pawn,
        ) {
            return true;
        }
        if self.ray_attacked(row, col, 0, 1, attacker, PieceType::Rook, PieceType::Queen)
            || self.ray_attacked(row, col, 0, -1, attacker, PieceType::Rook, PieceType::Queen)
            || self.ray_attacked(row, col, 1, 0, attacker, PieceType::Rook, PieceType::Queen)
            || self.ray_attacked(row, col, -1, 0, attacker, PieceType::Rook, PieceType::Queen) {
            return true;
        }
        self.ray_attacked(row, col, 1, 1, attacker, PieceType::Bishop, PieceType::Queen)
            || self.ray_attacked(row, col, 1, -1, attacker, PieceType::Bishop, PieceType::Queen)
            || self.ray_attacked(row, col, -1, 1, attacker, PieceType::Bishop, PieceType::Queen)
            || self.ray_attacked(row, col, -1, -1, attacker, PieceType::Bishop, PieceType::Queen)
    }

    /// Whether a queen of colour `attacker` attacks the square.
    pub fn is_square_attacked_by_queen(&self, row: usize, col: usize, attacker: Color) -> (b: bool)
        requires
            row < 8,
            col < 8,
        ensures
            b == self@.queen_attacks(row as int, col as int, attacker),
    {
        self.ray_attacked(row, col, 0, 1, attacker, PieceType::Queen, PieceType::Queen)
            || self.ray_attacked(row, col, 0, -1, attacker, PieceType::Queen, PieceType::Queen)
            || self.ray_attacked(row, col, 1, 0, attacker, PieceType::Queen, PieceType::Queen)
            || self.ray_attacked(row, col, -1, 0, attacker, PieceType::Queen, PieceType::Queen)
            || self.ray_attacked(row, col, 1, 1, attacker, PieceType::Queen, PieceType::Queen)
            || self.ray_attacked(row, col, 1, -1, attacker, PieceType::Queen, PieceType::Queen)
            || self.ray_attacked(row, col, -1, 1, attacker, PieceType::Queen, PieceType::Queen)
            || self.ray_attacked(row, col, -1, -1, attacker, PieceType::Queen, PieceType::Queen)
    }

    /// Whether the side's king is attacked.
    pub fn is_in_check(&self, color: Color) -> (b: bool)
        ensures
            b == self@.in_check(color),
    {
        proof {
            reveal(Position::in_check);
        }
        if let Some((kr, kc)) = self.find_king(color) {
            self.is_square_attacked_by(kr, kc, color.opposite())
        } else {
            false
        }
    }

    /// The 64-bit fingerprint of the position, used to detect repetition.
    pub fn position_hash(&self) -> (h: u64)
        ensures
            h == self@.hash(),
    {
        proof {
            reveal(Position::hash);
        }
        let mut hash: u64 = 0;
        let mut idx: usize = 0;
        while idx < 64
            invariant
                idx <= 64,
                hash == self@.placement_hash(idx as int),
            decreases 64 - idx,
        {
            if let Some(p) = self.squares[idx / 8][idx % 8] {
                let piece_val: u64 = match p.piece_type {
                    PieceType::Pawn => 1,
                    PieceType::Knight => 2,
                    PieceType::Bishop => 3,
                    PieceType::Rook => 4,
                    PieceType::Queen => 5,
                    PieceType::King => 6,
                };
                let color_val: u64 = if p.color == Color::White {
                    0
                } else {
                    7
                };
                let sq_val: u64 = piece_val + color_val;
                hash ^= sq_val.wrapping_mul(
                    0x9e3779b97f4a7c15u64.wrapping_add(
                        (idx as u64).wrapping_mul(0x517cc1b727220a95u64),
                    ),
                );
            }
            idx += 1;
        }
        if self.current_turn == Color::Black {
            hash ^= 0xdeadbeefcafe1234u64;
        }
        if self.castling_rights.white_kingside {
            hash ^= 0x1u64;
        }
        if self.castling_rights.white_queenside {
            hash ^= 0x2u64;
        }
        if self.castling_rights.black_kingside {
            hash ^= 0x4u64;
        }
        if self.castling_rights.black_queenside {
            hash ^= 0x8u64;
        }
        if let Some((r, c)) = self.en_passant_target {
            hash ^= (r as u64).wrapping_mul(8).wrapping_add(c as u64).wrapping_mul(
                0xabcdef0123456789u64,
            );
        }
        hash
    }

    /// How often the hash of the position as it stands occurs in its history.
    pub fn repetition_count(&self) -> (n: usize)
        ensures
            n == self@.repetitions(),
    {
        let current = self.position_hash();
        let mut count: usize = 0;
        let mut i: usize = 0;
        while i < self.position_history.len()
            invariant
                i <= self.position_history.len(),
                count <= i,
                current == self@.hash(),
                count == occurrences(self.position_history@.take(i as int), current),
            decreases self.position_history.len() - i,
        {
            assert(self.position_history@.take(i + 1).drop_last() =~= self.position_history@.take(
                i as int,
            ));
            if self.position_history[i] == current {
                count += 1;
            }
            i += 1;
        }
        assert(self.position_history@.take(i as int) =~= self.position_history@);
        count
    }

    /// Whether the position has now occurred three times.
    pub fn is_threefold_repetition(&self) -> (b: bool)
        ensures
            b == self@.threefold_repetition(),
    {
        self.repetition_count() >= 3
    }

    /// Whether too little material is left for either side to mate, as far as
    /// this library recognises it.
    pub fn has_insufficient_material(&self) -> (b: bool)
        ensures
            b == self@.insufficient_material(),
    {
        let mut white: usize = 0;
        let mut black: usize = 0;
        let mut white_minor: usize = 0;
        let mut black_minor: usize = 0;
        let mut idx: usize = 0;
        while idx < 64
            invariant
                idx <= 64,
                white == self@.piece_count(Color::White, idx as int),
                black == self@.piece_count(Color::Black, idx as int),
                white_minor == self@.minor_count(Color::White, idx as int),
                black_minor == self@.minor_count(Color::Black, idx as int),
                white <= idx,
                black <= idx,
                white_minor <= idx,
                black_minor <= idx,
            decreases 64 - idx,
        {
            if let Some(p) = self.squares[idx / 8][idx % 8] {
                let minor = p.piece_type == PieceType::Bishop || p.piece_type == PieceType::Knight;
                match p.color {
                    Color::White => {
                        white += 1;
                        if minor {
                            white_minor += 1;
                        }
                    },
                    Color::Black => {
                        black += 1;
                        if minor {
                            black_minor += 1;
                        }
                    },
                }
            }
            idx += 1;
        }
        if white == 1 && black == 1 {
            return true;
        }
        if white == 1 && black == 2 && black_minor >= 1 {
            return true;
        }
        black == 1 && white == 2 && white_minor >= 1
    }
}

} // verus!

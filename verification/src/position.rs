//! The mathematical model of a position: what the contracts of the board speak of.

use vstd::prelude::*;
use crate::piece::{Color, Piece, PieceType};

verus! {

/// Which castling moves are still allowed, one flag for each side and wing.
#[derive(Clone, Copy, Debug, PartialEq, Eq, Structural)]
pub struct CastlingRights {
    pub white_kingside: bool,
    pub white_queenside: bool,
    pub black_kingside: bool,
    pub black_queenside: bool,
}

/// A position as a mathematical value. `squares[r][c]` is the square in row `r`
/// (row 0 is rank 1) and column `c` (column 0 is file a).
pub struct Position {
    pub squares: Seq<Seq<Option<Piece>>>,
    pub current_turn: Color,
    pub castling_rights: CastlingRights,
    pub en_passant_target: Option<(usize, usize)>,
    pub halfmove_clock: u32,
    pub fullmove_number: u32,
    pub game_over: bool,
    pub result: Option<Seq<char>>,
    pub captured_white: Seq<PieceType>,
    pub captured_black: Seq<PieceType>,
    pub last_move: Option<((usize, usize), (usize, usize))>,
    pub position_history: Seq<u64>,
}

/// Row and column name one of the 64 squares.
pub open spec fn on_board(r: int, c: int) -> bool {
    0 <= r < 8 && 0 <= c < 8
}

/// A step of one square along a rank, a file or a diagonal.
pub open spec fn unit_step(dr: int, dc: int) -> bool {
    -1 <= dr <= 1 && -1 <= dc <= 1 && !(dr == 0 && dc == 0)
}

/// How many steps in the given direction stay on one line of the board at most,
/// counted from `(r, c)`.
pub open spec fn ray_room(r: int, c: int, dr: int, dc: int) -> int {
    (if dr > 0 {
        7 - r
    } else if dr < 0 {
        r
    } else {
        0
    }) + (if dc > 0 {
        7 - c
    } else if dc < 0 {
        c
    } else {
        0
    })
}

/// The row offset of a pawn's advance: up the board for White, down for Black.
pub open spec fn forward(color: Color) -> int {
    match color {
        Color::White => 1,
        Color::Black => -1,
    }
}

/// The offsets of a knight's jump.
pub open spec fn knight_jump(dr: int, dc: int) -> bool {
    ((dr == 1 || dr == -1) && (dc == 2 || dc == -2)) || ((dr == 2 || dr == -2) && (dc == 1 || dc
        == -1))
}

/// The number that stands for a piece in the position hash: 1 to 6 for a white
/// pawn, knight, bishop, rook, queen, king, and 7 more for a black one.
pub open spec fn piece_code(p: Piece) -> u64 {
    let kind: u64 = match p.piece_type {
        PieceType::Pawn => 1,
        PieceType::Knight => 2,
        PieceType::Bishop => 3,
        PieceType::Rook => 4,
        PieceType::Queen => 5,
        PieceType::King => 6,
    };
    match p.color {
        Color::White => kind,
        Color::Black => (kind + 7) as u64,
    }
}

/// The multiplier that the position hash gives to the square with the given
/// index, counted row by row from a1.
pub open spec fn square_key(idx: int) -> u64 {
    0x9e3779b97f4a7c15u64.wrapping_add((idx as u64).wrapping_mul(0x517cc1b727220a95u64))
}

/// What an en-passant target adds to the position hash.
pub open spec fn en_passant_key(target: (usize, usize)) -> u64 {
    (target.0 as u64).wrapping_mul(8).wrapping_add(target.1 as u64).wrapping_mul(
        0xabcdef0123456789u64,
    )
}

/// How often a hash occurs in a history.
pub open spec fn occurrences(history: Seq<u64>, hash: u64) -> nat
    decreases history.len(),
{
    if history.len() == 0 {
        0
    } else {
        occurrences(history.drop_last(), hash) + if history.last() == hash {
            1nat
        } else {
            0nat
        }
    }
}

impl Position {
    /// The grid has eight rows of eight squares.
    pub open spec fn wf(self) -> bool {
        &&& self.squares.len() == 8
        &&& forall|r: int| 0 <= r < 8 ==> (#[trigger] self.squares[r]).len() == 8
    }

    /// What stands on a square; nothing stands outside the board.
    pub open spec fn at(self, r: int, c: int) -> Option<Piece> {
        if on_board(r, c) {
            self.squares[r][c]
        } else {
            None
        }
    }

    /// A piece of the given colour and kind stands on the square.
    pub open spec fn holds(self, r: int, c: int, color: Color, kind: PieceType) -> bool {
        self.at(r, c) == Some(Piece { piece_type: kind, color })
    }

    /// A piece of the given colour stands on the square.
    pub open spec fn occupied_by(self, r: int, c: int, color: Color) -> bool {
        self.at(r, c) is Some && self.at(r, c)->0.color == color
    }

    /// The same position with one square replaced.
    pub open spec fn with_square(self, r: int, c: int, p: Option<Piece>) -> Position {
        Position { squares: self.squares.update(r, self.squares[r].update(c, p)), ..self }
    }

    /// The first piece met when walking from `(r, c)` in direction `(dr, dc)`,
    /// the starting square not counted; `None` where the walk leaves the board
    /// before it meets one.
    pub open spec fn first_piece(self, r: int, c: int, dr: int, dc: int) -> Option<Piece>
        decreases ray_room(r, c, dr, dc),
    {
        if !on_board(r, c) || !unit_step(dr, dc) || !on_board(r + dr, c + dc) {
            None
        } else if self.at(r + dr, c + dc) is Some {
            self.at(r + dr, c + dc)
        } else {
            self.first_piece(r + dr, c + dc, dr, dc)
        }
    }

    /// The first piece along the ray is of the given colour and of one of the
    /// two kinds.
    pub open spec fn ray_meets(
        self,
        r: int,
        c: int,
        dr: int,
        dc: int,
        by: Color,
        kind: PieceType,
        other_kind: PieceType,
    ) -> bool {
        let p = self.first_piece(r, c, dr, dc);
        p is Some && p->0.color == by && (p->0.piece_type == kind || p->0.piece_type == other_kind)
    }

    /// A knight of colour `by` stands a knight's jump away from the square.
    pub open spec fn knight_attacks(self, r: int, c: int, by: Color) -> bool {
        exists|ar: int, ac: int|
            knight_jump(ar - r, ac - c) && #[trigger] self.holds(ar, ac, by, PieceType::Knight)
    }

    /// The king of colour `by` stands next to the square.
    pub open spec fn king_attacks(self, r: int, c: int, by: Color) -> bool {
        exists|ar: int, ac: int|
            unit_step(ar - r, ac - c) && #[trigger] self.holds(ar, ac, by, PieceType::King)
    }

    /// A pawn of colour `by` stands one row behind the square, seen from its own
    /// side, and one column to the left or right.
    pub open spec fn pawn_attacks(self, r: int, c: int, by: Color) -> bool {
        self.holds(r - forward(by), c - 1, by, PieceType::Pawn) || self.holds(
            r - forward(by),
            c + 1,
            by,
            PieceType::Pawn,
        )
    }

    /// A rook or queen of colour `by` is the first piece along a rank or file.
    pub open spec fn straight_attacks(self, r: int, c: int, by: Color) -> bool {
        ||| self.ray_meets(r, c, 0, 1, by, PieceType::Rook, PieceType::Queen)
        ||| self.ray_meets(r, c, 0, -1, by, PieceType::Rook, PieceType::Queen)
        ||| self.ray_meets(r, c, 1, 0, by, PieceType::Rook, PieceType::Queen)
        ||| self.ray_meets(r, c, -1, 0, by, PieceType::Rook, PieceType::Queen)
    }

    /// A bishop or queen of colour `by` is the first piece along a diagonal.
    pub open spec fn diagonal_attacks(self, r: int, c: int, by: Color) -> bool {
        ||| self.ray_meets(r, c, 1, 1, by, PieceType::Bishop, PieceType::Queen)
        ||| self.ray_meets(r, c, 1, -1, by, PieceType::Bishop, PieceType::Queen)
        ||| self.ray_meets(r, c, -1, 1, by, PieceType::Bishop, PieceType::Queen)
        ||| self.ray_meets(r, c, -1, -1, by, PieceType::Bishop, PieceType::Queen)
    }

    /// Some piece of colour `by` attacks the square.
    #[verifier::opaque]
    pub open spec fn attacked_by(self, r: int, c: int, by: Color) -> bool {
        ||| self.knight_attacks(r, c, by)
        ||| self.king_attacks(r, c, by)
        ||| self.pawn_attacks(r, c, by)
        ||| self.straight_attacks(r, c, by)
        ||| self.diagonal_attacks(r, c, by)
    }

    /// A queen of colour `by` is the first piece along one of the eight rays
    /// that leave the square.
    pub open spec fn queen_attacks(self, r: int, c: int, by: Color) -> bool {
        ||| self.ray_meets(r, c, 0, 1, by, PieceType::Queen, PieceType::Queen)
        ||| self.ray_meets(r, c, 0, -1, by, PieceType::Queen, PieceType::Queen)
        ||| self.ray_meets(r, c, 1, 0, by, PieceType::Queen, PieceType::Queen)
        ||| self.ray_meets(r, c, -1, 0, by, PieceType::Queen, PieceType::Queen)
        ||| self.ray_meets(r, c, 1, 1, by, PieceType::Queen, PieceType::Queen)
        ||| self.ray_meets(r, c, 1, -1, by, PieceType::Queen, PieceType::Queen)
        ||| self.ray_meets(r, c, -1, 1, by, PieceType::Queen, PieceType::Queen)
        ||| self.ray_meets(r, c, -1, -1, by, PieceType::Queen, PieceType::Queen)
    }

    /// The first square at or after index `from`, counted row by row from a1,
    /// that holds the king of the given colour.
    pub open spec fn king_from(self, color: Color, from: int) -> Option<(usize, usize)>
        decreases 64 - from,
    {
        if from < 0 || from >= 64 {
            None
        } else if self.holds(from / 8, from % 8, color, PieceType::King) {
            Some(((from / 8) as usize, (from % 8) as usize))
        } else {
            self.king_from(color, from + 1)
        }
    }

    /// Where the king of the given colour stands: the first such square, counted
    /// row by row from a1, or `None` if the side has no king.
    pub open spec fn king_square(self, color: Color) -> Option<(usize, usize)> {
        self.king_from(color, 0)
    }

    /// The side's king is attacked by the other side. A side without a king is
    /// never in check.
    #[verifier::opaque]
    pub open spec fn in_check(self, color: Color) -> bool {
        match self.king_square(color) {
            Some((r, c)) => self.attacked_by(r as int, c as int, color.other()),
            None => false,
        }
    }

    /// The part of the hash that comes from the first `n` squares, counted row by
    /// row from a1: the exclusive-or of piece code times square key over the
    /// occupied ones.
    pub open spec fn placement_hash(self, n: int) -> u64
        decreases n,
    {
        if n <= 0 {
            0
        } else {
            let rest = self.placement_hash(n - 1);
            match self.at((n - 1) / 8, (n - 1) % 8) {
                Some(p) => rest ^ piece_code(p).wrapping_mul(square_key(n - 1)),
                None => rest,
            }
        }
    }

    /// The 64-bit fingerprint of the position: piece placement, side to move,
    /// castling rights and en-passant target, combined by exclusive-or.
    #[verifier::opaque]
    pub open spec fn hash(self) -> u64 {
        let h0 = self.placement_hash(64);
        let h1 = if self.current_turn == Color::Black {
            h0 ^ 0xdeadbeefcafe1234u64
        } else {
            h0
        };
        let h2 = if self.castling_rights.white_kingside {
            h1 ^ 0x1u64
        } else {
            h1
        };
        let h3 = if self.castling_rights.white_queenside {
            h2 ^ 0x2u64
        } else {
            h2
        };
        let h4 = if self.castling_rights.black_kingside {
            h3 ^ 0x4u64
        } else {
            h3
        };
        let h5 = if self.castling_rights.black_queenside {
            h4 ^ 0x8u64
        } else {
            h4
        };
        match self.en_passant_target {
            Some(target) => h5 ^ en_passant_key(target),
            None => h5,
        }
    }

    /// How often the hash of the position as it stands occurs in its history.
    pub open spec fn repetitions(self) -> nat {
        occurrences(self.position_history, self.hash())
    }

    /// The position's hash occurs at least three times in its history.
    pub open spec fn threefold_repetition(self) -> bool {
        self.repetitions() >= 3
    }

    /// How many of the first `n` squares, counted row by row from a1, hold a
    /// piece of the given colour.
    pub open spec fn piece_count(self, color: Color, n: int) -> nat
        decreases n,
    {
        if n <= 0 {
            0
        } else {
            self.piece_count(color, n - 1) + if self.occupied_by((n - 1) / 8, (n - 1) % 8, color) {
                1nat
            } else {
                0nat
            }
        }
    }

    /// How many of the first `n` squares hold a bishop or knight of the given
    /// colour.
    pub open spec fn minor_count(self, color: Color, n: int) -> nat
        decreases n,
    {
        if n <= 0 {
            0
        } else {
            self.minor_count(color, n - 1) + if self.holds(
                (n - 1) / 8,
                (n - 1) % 8,
                color,
                PieceType::Bishop,
            ) || self.holds((n - 1) / 8, (n - 1) % 8, color, PieceType::Knight) {
                1nat
            } else {
                0nat
            }
        }
    }

    /// Neither side can mate, as far as this library recognises it: each side has
    /// one piece, or one side has one piece and the other two, a bishop or
    /// knight among them.
    pub open spec fn insufficient_material(self) -> bool {
        let white = self.piece_count(Color::White, 64);
        let black = self.piece_count(Color::Black, 64);
        ||| (white == 1 && black == 1)
        ||| (white == 1 && black == 2 && self.minor_count(Color::Black, 64) >= 1)
        ||| (black == 1 && white == 2 && self.minor_count(Color::White, 64) >= 1)
    }
}

} // verus!

//! A move as a value, and its four- or five-character text form.

use vstd::prelude::*;
use vstd::string::StringSliceAdditionalSpecFns;
use crate::piece::PieceType;

verus! {

/// A move: origin square, destination square and, for a pawn reaching the far
/// rank, the piece it becomes. A square is `(row, column)`; row 0 is rank 1 and
/// column 0 is file a.
#[derive(Clone, Copy, Debug)]
pub struct Move {
    pub from: (usize, usize),
    pub to: (usize, usize),
    pub promotion: Option<PieceType>,
}

/// The byte of the letter `a`, the first file.
pub const FILE_A: u8 = 0x61;

/// The byte of the letter `h`, the last file.
pub const FILE_H: u8 = 0x68;

/// The byte of the digit `1`, the first rank.
pub const RANK_1: u8 = 0x31;

/// The byte of the digit `8`, the last rank.
pub const RANK_8: u8 = 0x38;

/// The byte of the letter `q`.
pub const LETTER_QUEEN: u8 = 0x71;

/// The byte of the letter `r`.
pub const LETTER_ROOK: u8 = 0x72;

/// The byte of the letter `b`.
pub const LETTER_BISHOP: u8 = 0x62;

/// The byte of the letter `n`.
pub const LETTER_KNIGHT: u8 = 0x6e;

impl PartialEq for Move {
    fn eq(&self, other: &Move) -> (b: bool) {
        self.from.0 == other.from.0 && self.from.1 == other.from.1 && self.to.0 == other.to.0
            && self.to.1 == other.to.1 && self.promotion == other.promotion
    }
}

impl Eq for Move {

}

impl vstd::std_specs::cmp::PartialEqSpecImpl for Move {
    open spec fn obeys_eq_spec() -> bool {
        true
    }

    open spec fn eq_spec(&self, other: &Move) -> bool {
        *self == *other
    }
}

/// The letter that stands for a promotion piece in the text form, if it has one.
pub open spec fn promotion_letter(p: PieceType) -> Option<u8> {
    match p {
        PieceType::Queen => Some(LETTER_QUEEN),
        PieceType::Rook => Some(LETTER_ROOK),
        PieceType::Bishop => Some(LETTER_BISHOP),
        PieceType::Knight => Some(LETTER_KNIGHT),
        _ => None,
    }
}

/// What reading a text gives: the representable move that has this text, or
/// `None` where no representable move has it.
pub open spec fn decoding(text: Seq<u8>, r: Option<Move>) -> bool {
    match r {
        Some(m) => m.representable() && m.uci_bytes() == text,
        None => forall|m: Move| m.representable() ==> #[trigger] m.uci_bytes() != text,
    }
}

impl Move {
    /// Both squares lie on the 8×8 board.
    pub open spec fn on_board(self) -> bool {
        self.from.0 < 8 && self.from.1 < 8 && self.to.0 < 8 && self.to.1 < 8
    }

    /// The move can be written as text and read back: it lies on the board and
    /// promotes, if at all, to a queen, rook, bishop or knight.
    pub open spec fn representable(self) -> bool {
        self.on_board() && (self.promotion is Some ==> promotion_letter(
            self.promotion->0,
        ) is Some)
    }

    /// The four bytes that name the two squares: file letter and rank digit of
    /// the origin, then of the destination.
    pub open spec fn square_bytes(self) -> Seq<u8> {
        seq![
            (FILE_A + self.from.1) as u8,
            (RANK_1 + self.from.0) as u8,
            (FILE_A + self.to.1) as u8,
            (RANK_1 + self.to.0) as u8,
        ]
    }

    /// The text form as bytes: the two squares, then the promotion letter if the
    /// move has one.
    pub open spec fn uci_bytes(self) -> Seq<u8> {
        if self.promotion is Some && promotion_letter(self.promotion->0) is Some {
            self.square_bytes().push(promotion_letter(self.promotion->0)->0)
        } else {
            self.square_bytes()
        }
    }

    /// The text form, such as "e2e4" or "a7a8q".
    pub fn to_uci(&self) -> (s: String)
        requires
            self.on_board(),
        ensures
            vstd::utf8::encode_utf8(s@) == self.uci_bytes(),
    {
        let mut text: Vec<u8> = Vec::new();
        text.push(FILE_A + self.from.1 as u8);
        text.push(RANK_1 + self.from.0 as u8);
        text.push(FILE_A + self.to.1 as u8);
        text.push(RANK_1 + self.to.0 as u8);
        match self.promotion {
            Some(PieceType::Queen) => text.push(LETTER_QUEEN),
            Some(PieceType::Rook) => text.push(LETTER_ROOK),
            Some(PieceType::Bishop) => text.push(LETTER_BISHOP),
            Some(PieceType::Knight) => text.push(LETTER_KNIGHT),
            _ => {},
        }
        assert(text@ =~= self.uci_bytes());
        ascii_string(&text)
    }

    /// Reads the text form back. Anything that is not exactly the text of a
    /// representable move gives `None`.
    pub fn from_uci(s: &str) -> (r: Option<Move>)
        ensures
            decoding(s.spec_bytes(), r),
    {
        let bytes = s.as_bytes();
        let n = bytes.len();
        if n < 4 || n > 5 {
            return None;
        }
        let b0 = bytes[0];
        let b1 = bytes[1];
        let b2 = bytes[2];
        let b3 = bytes[3];
        if b0 < FILE_A || b0 > FILE_H || b2 < FILE_A || b2 > FILE_H {
            return None;
        }
        if b1 < RANK_1 || b1 > RANK_8 || b3 < RANK_1 || b3 > RANK_8 {
            return None;
        }
        let promotion = if n == 5 {
            let b4 = bytes[4];
            if b4 == LETTER_QUEEN {
                Some(PieceType::Queen)
            } else if b4 == LETTER_ROOK {
                Some(PieceType::Rook)
            } else if b4 == LETTER_BISHOP {
                Some(PieceType::Bishop)
            } else if b4 == LETTER_KNIGHT {
                Some(PieceType::Knight)
            } else {
                return None;
            }
        } else {
            None
        };
        let m = Move {
            from: ((b1 - RANK_1) as usize, (b0 - FILE_A) as usize),
            to: ((b3 - RANK_1) as usize, (b2 - FILE_A) as usize),
            promotion,
        };
        assert(m.uci_bytes() =~= s.spec_bytes());
        Some(m)
    }
}

/// Calls `String::from_utf8` on a copy of the bytes. Bytes below 128 are valid
/// UTF-8, so the call succeeds, and the string it gives is the one whose UTF-8
/// bytes are the bytes handed in.
#[verifier::external_body]
fn ascii_string(bytes: &Vec<u8>) -> (s: String)
    requires
        forall|i: int| 0 <= i < bytes@.len() ==> bytes@[i] < 128,
    ensures
        vstd::utf8::encode_utf8(s@) == bytes@,
{
    String::from_utf8(bytes.clone()).unwrap_or_default()
}

/// Two representable moves with the same text are the same move.
pub proof fn lemma_text_names_one_move(a: Move, b: Move)
    requires
        a.representable(),
        b.representable(),
        a.uci_bytes() == b.uci_bytes(),
    ensures
        a == b,
{
    let x = a.uci_bytes();
    let y = b.uci_bytes();
    assert(x.len() == y.len());
    assert(x[0] == y[0] && x[1] == y[1] && x[2] == y[2] && x[3] == y[3]);
    if a.promotion is Some {
        assert(x[4] == y[4]);
    }
}

/// The text form round-trips: reading the text of a representable move gives
/// that move back.
pub proof fn lemma_uci_round_trip(m: Move, r: Option<Move>)
    requires
        m.representable(),
        decoding(m.uci_bytes(), r),
    ensures
        r == Some(m),
{
    match r {
        Some(read) => {
            lemma_text_names_one_move(read, m);
        },
        None => {
            assert(m.uci_bytes() != m.uci_bytes());
        },
    }
}

} // verus!

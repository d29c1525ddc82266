use chess::moves::Move;
use chess::piece::PieceType;

fn mv(from: (usize, usize), to: (usize, usize), promotion: Option<PieceType>) -> Move {
    Move { from, to, promotion }
}

#[test]
fn to_uci_writes_squares_and_promotion() {
    assert_eq!(mv((1, 4), (3, 4), None).to_uci(), "e2e4");
    assert_eq!(mv((0, 0), (7, 7), None).to_uci(), "a1h8");
    assert_eq!(mv((6, 0), (7, 0), Some(PieceType::Queen)).to_uci(), "a7a8q");
    assert_eq!(mv((6, 0), (7, 1), Some(PieceType::Rook)).to_uci(), "a7b8r");
    assert_eq!(mv((1, 7), (0, 7), Some(PieceType::Bishop)).to_uci(), "h2h1b");
    assert_eq!(mv((1, 7), (0, 6), Some(PieceType::Knight)).to_uci(), "h2g1n");
}

#[test]
fn to_uci_has_no_letter_for_king_or_pawn() {
    assert_eq!(mv((6, 0), (7, 0), Some(PieceType::King)).to_uci(), "a7a8");
    assert_eq!(mv((6, 0), (7, 0), Some(PieceType::Pawn)).to_uci(), "a7a8");
}

#[test]
fn from_uci_reads_moves() {
    assert_eq!(Move::from_uci("e2e4"), Some(mv((1, 4), (3, 4), None)));
    assert_eq!(Move::from_uci("a1h8"), Some(mv((0, 0), (7, 7), None)));
    assert_eq!(Move::from_uci("a7a8q"), Some(mv((6, 0), (7, 0), Some(PieceType::Queen))));
    assert_eq!(Move::from_uci("a7b8r"), Some(mv((6, 0), (7, 1), Some(PieceType::Rook))));
    assert_eq!(Move::from_uci("h2h1b"), Some(mv((1, 7), (0, 7), Some(PieceType::Bishop))));
    assert_eq!(Move::from_uci("h2g1n"), Some(mv((1, 7), (0, 6), Some(PieceType::Knight))));
}

#[test]
fn from_uci_rejects_malformed_text() {
    let bad = [
        "", "e", "e2", "e2e", "e2e9", "e0e4", "e2e0", "i2e4", "e2i4", "e2e4x", "e2e4k", "e2e4p",
        "e2e4qq", "E2E4", "e2e4Q", " e2e4", "e2e4 ", "2e4e", "`2e4", "e2e4\n", "0000", "(none)",
        "\u{e9}2e4", "e2\u{2014}4",
    ];
    for text in bad {
        assert_eq!(Move::from_uci(text), None, "{text:?} should not decode");
    }
}

#[test]
fn uci_round_trips_for_every_representable_move() {
    let promotions = [
        None,
        Some(PieceType::Queen),
        Some(PieceType::Rook),
        Some(PieceType::Bishop),
        Some(PieceType::Knight),
    ];
    let mut seen = 0;
    for from in 0..64usize {
        for to in 0..64usize {
            for promotion in promotions {
                let m = mv((from / 8, from % 8), (to / 8, to % 8), promotion);
                let text = m.to_uci();
                assert_eq!(text.len(), if promotion.is_some() { 5 } else { 4 });
                assert_eq!(Move::from_uci(&text), Some(m));
                seen += 1;
            }
        }
    }
    assert_eq!(seen, 64 * 64 * 5);
}

#[test]
fn moves_compare_by_their_fields() {
    let a = mv((1, 4), (3, 4), None);
    assert_eq!(a, mv((1, 4), (3, 4), None));
    assert_ne!(a, mv((1, 4), (2, 4), None));
    assert_ne!(a, mv((1, 3), (3, 4), None));
    assert_ne!(a, mv((1, 4), (3, 4), Some(PieceType::Queen)));
    assert_ne!(
        mv((6, 0), (7, 0), Some(PieceType::Queen)),
        mv((6, 0), (7, 0), Some(PieceType::Rook))
    );
}

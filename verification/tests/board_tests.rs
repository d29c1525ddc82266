use chess::board::Board;
use chess::moves::Move;
use chess::piece::{Color, Piece, PieceType};

/// Helper: make a move from algebraic-style coordinates.
fn mv(from: (usize, usize), to: (usize, usize)) -> Move {
    Move { from, to, promotion: None }
}

/// Threefold repetition requires the same position to occur three times, not
/// two. A knight shuffles back and forth: after the first round trip the game
/// must go on, after the second it is a draw.
#[test]
fn threefold_repetition_requires_three_occurrences() {
    let mut board = Board::empty();
    board.squares[0][4] = Some(Piece::new(PieceType::King, Color::White));
    board.squares[7][4] = Some(Piece::new(PieceType::King, Color::Black));
    board.squares[0][0] = Some(Piece::new(PieceType::Rook, Color::White));
    board.squares[7][0] = Some(Piece::new(PieceType::Rook, Color::Black));
    board.squares[0][1] = Some(Piece::new(PieceType::Knight, Color::White));
    board.current_turn = Color::White;
    board.position_history.push(board.position_hash());

    board.apply_move(&mv((0, 1), (2, 2)));
    assert!(!board.game_over);
    board.apply_move(&mv((7, 4), (7, 3)));
    assert!(!board.game_over);
    board.apply_move(&mv((2, 2), (0, 1)));
    assert!(!board.game_over);
    board.apply_move(&mv((7, 3), (7, 4)));
    assert!(!board.game_over, "game ended after only 2 occurrences — should require 3");

    board.apply_move(&mv((0, 1), (2, 2)));
    assert!(!board.game_over);
    board.apply_move(&mv((7, 4), (7, 3)));
    assert!(!board.game_over);
    board.apply_move(&mv((2, 2), (0, 1)));
    assert!(!board.game_over);
    board.apply_move(&mv((7, 3), (7, 4)));
    assert!(board.game_over, "game should be over after 3 occurrences");
    assert_eq!(board.result.as_deref(), Some("Draw by repetition"));
}

fn piece(piece_type: PieceType, color: Color) -> Option<Piece> {
    Some(Piece::new(piece_type, color))
}

#[test]
fn empty_board_is_blank() {
    let board = Board::empty();
    for r in 0..8 {
        for c in 0..8 {
            assert_eq!(board.squares[r][c], None);
        }
    }
    assert_eq!(board.current_turn, Color::White);
    assert!(!board.castling_rights.white_kingside);
    assert!(!board.castling_rights.white_queenside);
    assert!(!board.castling_rights.black_kingside);
    assert!(!board.castling_rights.black_queenside);
    assert_eq!(board.en_passant_target, None);
    assert_eq!(board.halfmove_clock, 0);
    assert_eq!(board.fullmove_number, 1);
    assert!(!board.game_over);
    assert_eq!(board.result, None);
    assert!(board.captured_white.is_empty());
    assert!(board.captured_black.is_empty());
    assert_eq!(board.last_move, None);
    assert!(board.position_history.is_empty());
}

#[test]
fn new_board_is_the_starting_position() {
    let board = Board::new();
    let back = [
        PieceType::Rook,
        PieceType::Knight,
        PieceType::Bishop,
        PieceType::Queen,
        PieceType::King,
        PieceType::Bishop,
        PieceType::Knight,
        PieceType::Rook,
    ];
    for c in 0..8 {
        assert_eq!(board.squares[0][c], piece(back[c], Color::White));
        assert_eq!(board.squares[1][c], piece(PieceType::Pawn, Color::White));
        for r in 2..6 {
            assert_eq!(board.squares[r][c], None);
        }
        assert_eq!(board.squares[6][c], piece(PieceType::Pawn, Color::Black));
        assert_eq!(board.squares[7][c], piece(back[c], Color::Black));
    }
    assert_eq!(board.current_turn, Color::White);
    assert!(board.castling_rights.white_kingside);
    assert!(board.castling_rights.white_queenside);
    assert!(board.castling_rights.black_kingside);
    assert!(board.castling_rights.black_queenside);
    assert_eq!(board.fullmove_number, 1);
    assert_eq!(board.halfmove_clock, 0);
    assert!(!board.game_over);
    assert_eq!(board.position_history, vec![board.position_hash()]);
}

#[test]
fn color_opposite_swaps_sides() {
    assert_eq!(Color::White.opposite(), Color::Black);
    assert_eq!(Color::Black.opposite(), Color::White);
}

#[test]
fn in_bounds_is_the_eight_by_eight_grid() {
    assert!(Board::in_bounds(0, 0));
    assert!(Board::in_bounds(7, 7));
    assert!(!Board::in_bounds(-1, 0));
    assert!(!Board::in_bounds(0, -1));
    assert!(!Board::in_bounds(8, 0));
    assert!(!Board::in_bounds(0, 8));
}

#[test]
fn piece_at_sees_nothing_outside_the_board() {
    let board = Board::new();
    assert_eq!(board.piece_at(0, 4), piece(PieceType::King, Color::White));
    assert_eq!(board.piece_at(3, 3), None);
    assert_eq!(board.piece_at(-1, 4), None);
    assert_eq!(board.piece_at(8, 4), None);
    assert_eq!(board.piece_at(0, 8), None);
}

#[test]
fn position_hash_has_the_documented_values() {
    let mut board = Board::empty();
    assert_eq!(board.position_hash(), 0);

    board.current_turn = Color::Black;
    assert_eq!(board.position_hash(), 0xdeadbeefcafe1234);
    board.current_turn = Color::White;

    board.squares[0][0] = piece(PieceType::Pawn, Color::White);
    assert_eq!(board.position_hash(), 0x9e3779b97f4a7c15);
    board.squares[0][0] = None;

    board.squares[0][1] = piece(PieceType::King, Color::Black);
    assert_eq!(board.position_hash(), 0x2c2704b87382d6a2);
    board.squares[0][1] = None;

    board.en_passant_target = Some((2, 4));
    assert_eq!(board.position_hash(), 0x6c16ac16c16c16b4);
    board.en_passant_target = None;

    board.castling_rights.white_kingside = true;
    assert_eq!(board.position_hash(), 0x1);
    board.castling_rights.white_queenside = true;
    assert_eq!(board.position_hash(), 0x3);
    board.castling_rights.black_kingside = true;
    assert_eq!(board.position_hash(), 0x7);
    board.castling_rights.black_queenside = true;
    assert_eq!(board.position_hash(), 0xf);
}

#[test]
fn position_hash_combines_its_parts() {
    let mut board = Board::empty();
    board.squares[0][0] = piece(PieceType::Pawn, Color::White);
    board.squares[0][1] = piece(PieceType::King, Color::Black);
    board.current_turn = Color::Black;
    board.castling_rights.white_kingside = true;
    board.castling_rights.black_queenside = true;
    board.en_passant_target = Some((2, 4));
    assert_eq!(board.position_hash(), 0x00ab6ff8075aae3e);
}

#[test]
fn position_hash_reads_the_setup_only() {
    let mut board = Board::new();
    let hash = board.position_hash();
    board.halfmove_clock = 42;
    board.fullmove_number = 17;
    board.game_over = true;
    board.result = Some("Draw".to_string());
    board.captured_white.push(PieceType::Queen);
    board.last_move = Some(((1, 4), (3, 4)));
    board.position_history.push(7);
    assert_eq!(board.position_hash(), hash);
    assert_eq!(Board::new().position_hash(), hash);
}

#[test]
fn find_king_takes_the_first_in_row_order() {
    let mut board = Board::empty();
    assert_eq!(board.find_king(Color::White), None);
    board.squares[5][2] = piece(PieceType::King, Color::White);
    board.squares[7][4] = piece(PieceType::King, Color::Black);
    assert_eq!(board.find_king(Color::White), Some((5, 2)));
    assert_eq!(board.find_king(Color::Black), Some((7, 4)));
    board.squares[2][6] = piece(PieceType::King, Color::White);
    assert_eq!(board.find_king(Color::White), Some((2, 6)));
    board.squares[2][1] = piece(PieceType::King, Color::White);
    assert_eq!(board.find_king(Color::White), Some((2, 1)));
}

#[test]
fn knights_attack_by_their_jump() {
    let mut board = Board::empty();
    board.squares[3][3] = piece(PieceType::Knight, Color::White);
    let targets = [(1, 2), (1, 4), (2, 1), (2, 5), (4, 1), (4, 5), (5, 2), (5, 4)];
    for r in 0..8 {
        for c in 0..8 {
            let expected = targets.contains(&(r, c));
            assert_eq!(board.is_square_attacked_by(r, c, Color::White), expected, "({r}, {c})");
            assert!(!board.is_square_attacked_by(r, c, Color::Black));
        }
    }
}

#[test]
fn kings_attack_the_squares_next_to_them() {
    let mut board = Board::empty();
    board.squares[0][0] = piece(PieceType::King, Color::Black);
    for r in 0..8 {
        for c in 0..8 {
            let expected = (r, c) == (0, 1) || (r, c) == (1, 0) || (r, c) == (1, 1);
            assert_eq!(board.is_square_attacked_by(r, c, Color::Black), expected, "({r}, {c})");
        }
    }
}

#[test]
fn pawns_attack_diagonally_forward() {
    let mut board = Board::empty();
    board.squares[1][4] = piece(PieceType::Pawn, Color::White);
    board.squares[6][4] = piece(PieceType::Pawn, Color::Black);
    for r in 0..8 {
        for c in 0..8 {
            let white = (r, c) == (2, 3) || (r, c) == (2, 5);
            let black = (r, c) == (5, 3) || (r, c) == (5, 5);
            assert_eq!(board.is_square_attacked_by(r, c, Color::White), white, "({r}, {c})");
            assert_eq!(board.is_square_attacked_by(r, c, Color::Black), black, "({r}, {c})");
        }
    }
}

#[test]
fn sliding_attacks_stop_at_the_first_piece() {
    let mut board = Board::empty();
    board.squares[0][0] = piece(PieceType::Rook, Color::White);
    assert!(board.is_square_attacked_by(0, 7, Color::White));
    assert!(board.is_square_attacked_by(7, 0, Color::White));
    assert!(!board.is_square_attacked_by(1, 1, Color::White));
    board.squares[0][3] = piece(PieceType::Pawn, Color::Black);
    assert!(board.is_square_attacked_by(0, 3, Color::White));
    assert!(!board.is_square_attacked_by(0, 4, Color::White));
    assert!(!board.is_square_attacked_by(0, 7, Color::White));

    let mut board = Board::empty();
    board.squares[2][2] = piece(PieceType::Bishop, Color::Black);
    assert!(board.is_square_attacked_by(0, 0, Color::Black));
    assert!(board.is_square_attacked_by(7, 7, Color::Black));
    assert!(board.is_square_attacked_by(4, 0, Color::Black));
    assert!(!board.is_square_attacked_by(2, 5, Color::Black));
    board.squares[4][4] = piece(PieceType::Knight, Color::Black);
    assert!(board.is_square_attacked_by(4, 4, Color::Black));
    assert!(!board.is_square_attacked_by(5, 5, Color::Black));
}

#[test]
fn queen_attack_query_sees_queens_only() {
    let mut board = Board::empty();
    board.squares[3][3] = piece(PieceType::Queen, Color::White);
    assert!(board.is_square_attacked_by_queen(3, 7, Color::White));
    assert!(board.is_square_attacked_by_queen(7, 7, Color::White));
    assert!(board.is_square_attacked_by_queen(0, 0, Color::White));
    assert!(board.is_square_attacked_by_queen(0, 3, Color::White));
    assert!(!board.is_square_attacked_by_queen(5, 4, Color::White));
    assert!(!board.is_square_attacked_by_queen(3, 7, Color::Black));
    board.squares[3][5] = piece(PieceType::Pawn, Color::White);
    assert!(!board.is_square_attacked_by_queen(3, 7, Color::White));

    let mut board = Board::empty();
    board.squares[3][3] = piece(PieceType::Rook, Color::White);
    assert!(board.is_square_attacked_by(3, 7, Color::White));
    assert!(!board.is_square_attacked_by_queen(3, 7, Color::White));
}

#[test]
fn check_is_an_attack_on_the_king() {
    let mut board = Board::empty();
    assert!(!board.is_in_check(Color::White));
    board.squares[0][4] = piece(PieceType::King, Color::White);
    board.squares[7][4] = piece(PieceType::Rook, Color::Black);
    assert!(board.is_in_check(Color::White));
    assert!(!board.is_in_check(Color::Black));
    board.squares[3][4] = piece(PieceType::Pawn, Color::White);
    assert!(!board.is_in_check(Color::White));
}

#[test]
fn threefold_repetition_counts_occurrences() {
    let mut board = Board::new();
    let hash = board.position_hash();
    assert_eq!(board.repetition_count(), 1);
    assert!(!board.is_threefold_repetition());
    board.position_history.push(hash ^ 1);
    board.position_history.push(hash);
    assert_eq!(board.repetition_count(), 2);
    assert!(!board.is_threefold_repetition());
    board.position_history.push(hash ^ 2);
    board.position_history.push(hash);
    assert_eq!(board.repetition_count(), 3);
    assert!(board.is_threefold_repetition());

    let mut short = Board::empty();
    let h = short.position_hash();
    short.position_history = vec![h, h, h];
    assert!(short.is_threefold_repetition());
}

#[test]
fn insufficient_material_is_bare_kings_or_one_minor() {
    let mut board = Board::empty();
    board.squares[0][4] = piece(PieceType::King, Color::White);
    board.squares[7][4] = piece(PieceType::King, Color::Black);
    assert!(board.has_insufficient_material());

    board.squares[3][3] = piece(PieceType::Bishop, Color::White);
    assert!(board.has_insufficient_material());
    board.squares[3][3] = piece(PieceType::Knight, Color::Black);
    assert!(board.has_insufficient_material());
    board.squares[3][3] = piece(PieceType::Rook, Color::White);
    assert!(!board.has_insufficient_material());
    board.squares[3][3] = piece(PieceType::Pawn, Color::Black);
    assert!(!board.has_insufficient_material());
    board.squares[3][3] = piece(PieceType::Queen, Color::Black);
    assert!(!board.has_insufficient_material());

    board.squares[3][3] = piece(PieceType::Knight, Color::White);
    board.squares[4][4] = piece(PieceType::Knight, Color::White);
    assert!(!board.has_insufficient_material());
    board.squares[4][4] = piece(PieceType::Bishop, Color::Black);
    assert!(!board.has_insufficient_material());
}

#[test]
fn clone_copies_the_whole_board() {
    let mut board = Board::new();
    board.apply_move(&mv((1, 4), (3, 4)));
    let copy = board.clone();
    assert_eq!(copy.squares, board.squares);
    assert_eq!(copy.current_turn, board.current_turn);
    assert_eq!(copy.en_passant_target, board.en_passant_target);
    assert_eq!(copy.position_history, board.position_history);
    assert_eq!(copy.last_move, board.last_move);
    let mut changed = copy.clone();
    changed.apply_move(&mv((6, 4), (4, 4)));
    assert_eq!(copy.position_history.len(), 2);
    assert_eq!(changed.position_history.len(), 3);
    assert_eq!(board.squares[6][4], piece(PieceType::Pawn, Color::Black));
}

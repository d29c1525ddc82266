use chess::board::Board;
use chess::engine::{evaluate, evaluate_breakdown, is_passed_pawn, AiConfig, Weights};
use chess::eval::{
    eval_centre_control, eval_draw_penalty, eval_mate, eval_material, eval_passed_pawns,
    piece_value,
};
use chess::moves::Move;
use chess::piece::{Color, Piece, PieceType};

fn piece(piece_type: PieceType, color: Color) -> Option<Piece> {
    Some(Piece::new(piece_type, color))
}

fn kings() -> Board {
    let mut board = Board::empty();
    board.squares[0][4] = piece(PieceType::King, Color::White);
    board.squares[7][4] = piece(PieceType::King, Color::Black);
    board
}

/// Every module off.
fn silent() -> AiConfig {
    let mut config = AiConfig::new();
    config.mate_module = false;
    config.material_module = false;
    config.centre_module = false;
    config.passed_pawn_module = false;
    config.draw_penalty_module = false;
    config
}

#[test]
fn standard_configuration_values() {
    let config = AiConfig::new();
    assert!(config.mate_module);
    assert!(config.material_module);
    assert!(config.centre_module);
    assert!(config.passed_pawn_module);
    assert!(config.draw_penalty_module);
    assert_eq!(config.depth, 2);
    assert!(config.auto_deepen);
    assert_eq!(config, AiConfig::default());
    let w = Weights::default();
    assert_eq!(config.weights, w);
    assert_eq!(w.centre_attack as f64 / 1000.0, 0.15);
    assert_eq!(w.centre_occupy as f64 / 1000.0, 0.2);
    assert_eq!(w.extended_centre_attack as f64 / 1000.0, 0.3);
    assert_eq!(w.passed_pawn_base as f64 / 1000.0, 0.2);
    assert_eq!(w.passed_pawn_quadratic as f64 / 1000.0, 0.3);
    assert_eq!(w.pawn_advance as f64 / 1000.0, 0.0);
    assert_eq!(w.check_penalty as f64 / 1000.0, 0.5);
    assert_eq!(w.repeat_penalty as f64 / 1000.0, 10.0);
}

#[test]
fn piece_values_are_the_standard_ones() {
    assert_eq!(piece_value(PieceType::Pawn), 1000);
    assert_eq!(piece_value(PieceType::Knight), 3000);
    assert_eq!(piece_value(PieceType::Bishop), 3000);
    assert_eq!(piece_value(PieceType::Rook), 5000);
    assert_eq!(piece_value(PieceType::Queen), 9000);
    assert_eq!(piece_value(PieceType::King), 0);
}

#[test]
fn material_is_white_minus_black() {
    assert_eq!(eval_material(&Board::new()), 0);
    assert_eq!(eval_material(&Board::empty()), 0);
    let mut board = kings();
    assert_eq!(eval_material(&board), 0);
    board.squares[0][0] = piece(PieceType::Queen, Color::White);
    assert_eq!(eval_material(&board), 9000);
    board.squares[7][0] = piece(PieceType::Rook, Color::Black);
    board.squares[6][0] = piece(PieceType::Pawn, Color::Black);
    board.squares[6][1] = piece(PieceType::Knight, Color::Black);
    board.squares[6][2] = piece(PieceType::Bishop, Color::Black);
    assert_eq!(eval_material(&board), 9000 - 5000 - 1000 - 3000 - 3000);
    let mut full = Board::empty();
    for r in 0..8 {
        for c in 0..8 {
            full.squares[r][c] = piece(PieceType::Queen, Color::Black);
        }
    }
    assert_eq!(eval_material(&full), -576_000);
}

#[test]
fn centre_control_counts_attacks_and_occupation() {
    let w = Weights::default();
    assert_eq!(eval_centre_control(&Board::empty(), &w), 0);

    let mut board = Board::empty();
    board.squares[3][3] = piece(PieceType::Pawn, Color::White);
    assert_eq!(eval_centre_control(&board, &w), 200 + 150 + 300);

    let mut black = Board::empty();
    black.squares[4][4] = piece(PieceType::Pawn, Color::Black);
    assert_eq!(eval_centre_control(&black, &w), -(200 + 150 + 300));

    board.squares[4][4] = piece(PieceType::Pawn, Color::Black);
    assert_eq!(eval_centre_control(&board, &w), 0);

    let mut knight = Board::empty();
    knight.squares[0][1] = piece(PieceType::Knight, Color::White);
    assert_eq!(eval_centre_control(&knight, &w), 300);

    let custom = Weights {
        centre_attack: 7,
        centre_occupy: 11,
        extended_centre_attack: 13,
        ..Weights::default()
    };
    let mut rook = Board::empty();
    rook.squares[3][0] = piece(PieceType::Rook, Color::Black);
    assert_eq!(eval_centre_control(&rook, &custom), -(2 * 7 + 2 * 13));
    assert_eq!(eval_centre_control(&Board::new(), &w), 0);
}

#[test]
fn passed_pawns_score_by_the_square_of_their_advance() {
    let w = Weights::default();
    let mut board = Board::empty();
    board.squares[4][0] = piece(PieceType::Pawn, Color::White);
    assert!(is_passed_pawn(&board, 4, 0, Color::White));
    assert_eq!(eval_passed_pawns(&board, &w), 200 + 9 * 300);

    board.squares[3][1] = piece(PieceType::Pawn, Color::Black);
    assert!(is_passed_pawn(&board, 4, 0, Color::White));
    assert!(is_passed_pawn(&board, 3, 1, Color::Black));
    assert_eq!(eval_passed_pawns(&board, &w), (200 + 9 * 300) - (200 + 9 * 300));

    let mut blocked = Board::empty();
    blocked.squares[4][0] = piece(PieceType::Pawn, Color::White);
    blocked.squares[6][1] = piece(PieceType::Pawn, Color::Black);
    assert!(!is_passed_pawn(&blocked, 4, 0, Color::White));
    assert!(!is_passed_pawn(&blocked, 6, 1, Color::Black));
    assert_eq!(eval_passed_pawns(&blocked, &w), 0);
    let linear = Weights { pawn_advance: 100, ..Weights::default() };
    assert_eq!(eval_passed_pawns(&blocked, &linear), 300);

    let mut start = Board::empty();
    start.squares[1][3] = piece(PieceType::Pawn, Color::White);
    assert_eq!(eval_passed_pawns(&start, &w), 200);
    start.squares[1][3] = None;
    start.squares[6][3] = piece(PieceType::Pawn, Color::White);
    assert_eq!(eval_passed_pawns(&start, &w), 200 + 25 * 300);
    start.squares[6][3] = None;
    start.squares[1][3] = piece(PieceType::Pawn, Color::Black);
    assert_eq!(eval_passed_pawns(&start, &w), -(200 + 25 * 300));
    assert_eq!(eval_passed_pawns(&Board::new(), &w), 0);
}

#[test]
fn passed_pawn_looks_ahead_on_three_files() {
    let mut board = Board::empty();
    board.squares[3][3] = piece(PieceType::Pawn, Color::White);
    assert!(is_passed_pawn(&board, 3, 3, Color::White));
    board.squares[5][5] = piece(PieceType::Pawn, Color::Black);
    assert!(is_passed_pawn(&board, 3, 3, Color::White));
    board.squares[3][4] = piece(PieceType::Pawn, Color::Black);
    assert!(is_passed_pawn(&board, 3, 3, Color::White));
    board.squares[2][2] = piece(PieceType::Pawn, Color::Black);
    assert!(is_passed_pawn(&board, 3, 3, Color::White));
    board.squares[6][3] = piece(PieceType::Knight, Color::Black);
    board.squares[5][3] = piece(PieceType::Pawn, Color::White);
    assert!(is_passed_pawn(&board, 3, 3, Color::White));
    board.squares[7][2] = piece(PieceType::Pawn, Color::Black);
    assert!(!is_passed_pawn(&board, 3, 3, Color::White));
    assert!(is_passed_pawn(&board, 7, 7, Color::White));
    assert!(is_passed_pawn(&board, 0, 0, Color::Black));
}

#[test]
fn mate_term_tells_mate_stalemate_and_check() {
    let w = Weights::default();
    assert_eq!(eval_mate(&Board::new(), &w), 0);

    let mut mated = Board::empty();
    mated.squares[7][7] = piece(PieceType::King, Color::Black);
    mated.squares[5][6] = piece(PieceType::King, Color::White);
    mated.squares[7][0] = piece(PieceType::Rook, Color::White);
    mated.current_turn = Color::Black;
    assert_eq!(eval_mate(&mated, &w), 10_000_000);

    let mut white_mated = Board::empty();
    white_mated.squares[0][7] = piece(PieceType::King, Color::White);
    white_mated.squares[2][6] = piece(PieceType::King, Color::Black);
    white_mated.squares[0][0] = piece(PieceType::Rook, Color::Black);
    assert_eq!(eval_mate(&white_mated, &w), -10_000_000);

    let mut stale = Board::empty();
    stale.squares[0][0] = piece(PieceType::King, Color::White);
    stale.squares[2][1] = piece(PieceType::Queen, Color::Black);
    stale.squares[1][2] = piece(PieceType::King, Color::Black);
    assert!(stale.generate_legal_moves(Color::White).is_empty());
    assert!(!stale.is_in_check(Color::White));
    assert_eq!(eval_mate(&stale, &w), 0);

    let mut checked = kings();
    checked.squares[5][4] = piece(PieceType::Rook, Color::Black);
    assert_eq!(eval_mate(&checked, &w), -500);
    checked.squares[5][4] = None;
    checked.squares[2][4] = piece(PieceType::Rook, Color::White);
    checked.current_turn = Color::Black;
    assert_eq!(eval_mate(&checked, &w), 500);
    checked.current_turn = Color::White;
    assert_eq!(eval_mate(&checked, &w), 0);

    let mut over = kings();
    over.squares[5][4] = piece(PieceType::Rook, Color::Black);
    over.game_over = true;
    assert_eq!(eval_mate(&over, &w), -10_000_000);
    over.squares[5][4] = None;
    assert_eq!(eval_mate(&over, &w), 0);
}

#[test]
fn draw_penalty_starts_at_the_second_occurrence() {
    let w = Weights::default();
    let mut board = kings();
    let hash = board.position_hash();
    assert_eq!(eval_draw_penalty(&board, &w), 0);
    board.position_history.push(hash);
    assert_eq!(eval_draw_penalty(&board, &w), 0);
    board.position_history.push(hash ^ 1);
    assert_eq!(eval_draw_penalty(&board, &w), 0);
    board.position_history.push(hash);
    assert_eq!(eval_draw_penalty(&board, &w), -10_000);
    board.position_history.push(hash);
    assert_eq!(eval_draw_penalty(&board, &w), -10_000);
    let custom = Weights { repeat_penalty: 123, ..Weights::default() };
    assert_eq!(eval_draw_penalty(&board, &custom), -123);
}

#[test]
fn a_repeat_lowers_the_score_by_the_penalty() {
    let mut board = kings();
    board.squares[0][0] = piece(PieceType::Rook, Color::White);
    let config = AiConfig::new();
    let hash = board.position_hash();
    board.position_history.push(hash);
    let fresh_white = evaluate(&board, Color::White, &config);
    let fresh_black = evaluate(&board, Color::Black, &config);
    board.position_history.push(hash);
    assert_eq!(evaluate(&board, Color::White, &config), fresh_white - 10_000);
    assert_eq!(evaluate(&board, Color::Black, &config), fresh_black - 10_000);
    board.position_history.push(hash);
    assert_eq!(evaluate(&board, Color::White, &config), fresh_white - 10_000);
}

#[test]
fn evaluate_sums_the_modules_and_flips_for_black() {
    let mut board = kings();
    board.squares[3][3] = piece(PieceType::Pawn, Color::White);
    let config = AiConfig::new();
    let material = 1000;
    let centre = 200 + 150 + 300;
    let pawns = 200 + 4 * 300;
    assert_eq!(evaluate(&board, Color::White, &config), material + centre + pawns);
    assert_eq!(evaluate(&board, Color::Black, &config), -(material + centre + pawns));

    let hash = board.position_hash();
    board.position_history = vec![hash, hash];
    assert_eq!(evaluate(&board, Color::White, &config), material + centre + pawns - 10_000);
    assert_eq!(evaluate(&board, Color::Black, &config), -(material + centre + pawns) - 10_000);
}

#[test]
fn each_module_can_be_switched_off() {
    let mut board = kings();
    board.squares[3][3] = piece(PieceType::Pawn, Color::White);
    board.squares[5][4] = piece(PieceType::Rook, Color::Black);
    let hash = board.position_hash();
    board.position_history = vec![hash, hash];
    assert_eq!(evaluate(&board, Color::White, &silent()), 0);
    assert_eq!(evaluate(&board, Color::Black, &silent()), 0);

    let mut config = silent();
    config.mate_module = true;
    assert_eq!(evaluate(&board, Color::White, &config), -500);
    let mut config = silent();
    config.material_module = true;
    assert_eq!(evaluate(&board, Color::White, &config), 1000 - 5000);
    let mut config = silent();
    config.centre_module = true;
    assert_eq!(evaluate(&board, Color::White, &config), eval_centre_control(&board, &config.weights));
    let mut config = silent();
    config.passed_pawn_module = true;
    assert_eq!(evaluate(&board, Color::White, &config), 200 + 4 * 300);
    let mut config = silent();
    config.draw_penalty_module = true;
    assert_eq!(evaluate(&board, Color::White, &config), -10_000);
    assert_eq!(evaluate(&board, Color::Black, &config), -10_000);
}

#[test]
fn breakdown_lists_what_each_module_adds() {
    let mut board = kings();
    board.squares[3][3] = piece(PieceType::Pawn, Color::White);
    board.squares[5][4] = piece(PieceType::Rook, Color::Black);
    let hash = board.position_hash();
    board.position_history = vec![hash, hash];
    let config = AiConfig::new();
    for color in [Color::White, Color::Black] {
        let flip = if color == Color::White { 1 } else { -1 };
        let b = evaluate_breakdown(&board, color, &config);
        assert_eq!(b.mate, -500 * flip);
        assert_eq!(b.material, -4000 * flip);
        assert_eq!(b.centre, eval_centre_control(&board, &config.weights) * flip);
        assert_eq!(b.passed_pawns, 1400 * flip);
        assert_eq!(b.draw_penalty, -10_000);
        assert_eq!(b.total, b.mate + b.material + b.centre + b.passed_pawns + b.draw_penalty);
        assert_eq!(b.total, evaluate(&board, color, &config));
    }
    let b = evaluate_breakdown(&board, Color::White, &silent());
    assert_eq!((b.mate, b.material, b.centre, b.passed_pawns, b.draw_penalty, b.total), (0, 0, 0, 0, 0, 0));
}

#[test]
fn mate_scores_beyond_nine_thousand_pawns() {
    let mut board = Board::new();
    for m in [((1, 5), (2, 5)), ((6, 4), (4, 4)), ((1, 6), (3, 6)), ((7, 3), (3, 7))] {
        board.apply_move(&Move { from: m.0, to: m.1, promotion: None });
    }
    assert!(board.game_over);
    let config = AiConfig::new();
    assert!(evaluate(&board, Color::Black, &config) > 9_000_000);
    assert!(evaluate(&board, Color::White, &config) < -9_000_000);

    let mut crowded = Board::empty();
    for r in 0..8 {
        for c in 0..8 {
            crowded.squares[r][c] = piece(PieceType::Pawn, Color::White);
        }
    }
    crowded.squares[0][0] = piece(PieceType::King, Color::White);
    crowded.squares[1][1] = piece(PieceType::Pawn, Color::Black);
    crowded.game_over = true;
    assert!(crowded.is_in_check(Color::White));
    assert!(evaluate(&crowded, Color::Black, &config) > 9_000_000);
    assert!(evaluate(&crowded, Color::White, &config) < -9_000_000);
}

#[test]
fn stalemate_with_few_pieces_scores_near_zero() {
    let mut stale = Board::empty();
    stale.squares[0][0] = piece(PieceType::King, Color::White);
    stale.squares[2][1] = piece(PieceType::Queen, Color::Black);
    stale.squares[1][2] = piece(PieceType::King, Color::Black);
    let config = AiConfig::new();
    let white = evaluate(&stale, Color::White, &config);
    let black = evaluate(&stale, Color::Black, &config);
    assert!(white.abs() < 100_000);
    assert!(black.abs() < 100_000);
    assert_eq!(white, -black);
    assert_eq!(evaluate_breakdown(&stale, Color::White, &config).mate, 0);
    assert_eq!(evaluate_breakdown(&stale, Color::White, &config).material, -9000);
}

#[test]
fn queen_promotion_leaves_the_most_material() {
    let mut board = kings();
    board.squares[6][0] = piece(PieceType::Pawn, Color::White);
    let mut values = Vec::new();
    for kind in [PieceType::Queen, PieceType::Rook, PieceType::Bishop, PieceType::Knight] {
        let mut next = board.clone();
        next.apply_move(&Move { from: (6, 0), to: (7, 0), promotion: Some(kind) });
        values.push(eval_material(&next));
    }
    assert_eq!(values, vec![9000, 5000, 3000, 3000]);

    let mut black = kings();
    black.squares[1][7] = piece(PieceType::Pawn, Color::Black);
    black.current_turn = Color::Black;
    let mut values = Vec::new();
    for kind in [PieceType::Queen, PieceType::Rook, PieceType::Bishop, PieceType::Knight] {
        let mut next = black.clone();
        next.apply_move(&Move { from: (1, 7), to: (0, 7), promotion: Some(kind) });
        values.push(-eval_material(&next));
    }
    assert_eq!(values, vec![9000, 5000, 3000, 3000]);
}

#[test]
fn a_knight_promotion_that_mates_outranks_the_queen() {
    let mut board = Board::empty();
    board.squares[0][0] = piece(PieceType::King, Color::White);
    board.squares[3][2] = piece(PieceType::Bishop, Color::White);
    board.squares[6][5] = piece(PieceType::Pawn, Color::White);
    board.squares[4][7] = piece(PieceType::Pawn, Color::White);
    board.squares[6][7] = piece(PieceType::King, Color::Black);
    board.squares[7][7] = piece(PieceType::Bishop, Color::Black);
    board.squares[6][6] = piece(PieceType::Pawn, Color::Black);
    board.squares[5][7] = piece(PieceType::Pawn, Color::Black);
    let config = AiConfig::new();

    let mut knighted = board.clone();
    knighted.apply_move(&Move { from: (6, 5), to: (7, 5), promotion: Some(PieceType::Knight) });
    assert!(knighted.game_over);
    assert_eq!(knighted.result.as_deref(), Some("White wins"));

    let mut queened = board.clone();
    queened.apply_move(&Move { from: (6, 5), to: (7, 5), promotion: Some(PieceType::Queen) });
    assert!(!queened.game_over);

    assert!(eval_material(&queened) > eval_material(&knighted));
    assert!(evaluate(&knighted, Color::White, &config) > 9_000_000);
    assert!(evaluate(&knighted, Color::White, &config) > evaluate(&queened, Color::White, &config));
}

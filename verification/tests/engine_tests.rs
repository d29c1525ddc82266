use chess::board::Board;
use chess::engine::{evaluate, pick_move, AiConfig};
use chess::moves::Move;
use chess::piece::{Color, Piece, PieceType};

/// A score in pawns.
fn pawns(score: i64) -> f64 {
    score as f64 / 1000.0
}

/// Kings and a white pawn on a7.
fn board_pawn_on_a7() -> Board {
    let mut board = Board::empty();
    board.squares[0][4] = Some(Piece::new(PieceType::King, Color::White));
    board.squares[7][4] = Some(Piece::new(PieceType::King, Color::Black));
    board.squares[6][0] = Some(Piece::new(PieceType::Pawn, Color::White));
    board.current_turn = Color::White;
    board
}

#[test]
fn pawn_promotes_to_queen() {
    let board = board_pawn_on_a7();
    let config = AiConfig::new();
    let result = pick_move(&board, &config).expect("should find a move");
    assert_eq!(result.mv.from, (6, 0), "should move from a7");
    assert_eq!(result.mv.to, (7, 0), "should move to a8");
    assert_eq!(result.mv.promotion, Some(PieceType::Queen), "should promote to queen");
}

#[test]
fn queen_promotion_scores_higher_than_others() {
    let board = board_pawn_on_a7();
    let config = AiConfig::new();

    let moves = board.generate_legal_moves(Color::White);
    let promos: Vec<&Move> = moves
        .iter()
        .filter(|m| m.from == (6, 0) && m.to == (7, 0) && m.promotion.is_some())
        .collect();
    assert!(promos.len() >= 2, "should have multiple promotion options");

    let mut queen_score = f64::NEG_INFINITY;
    let mut best_non_queen = f64::NEG_INFINITY;
    for mv in &promos {
        let mut clone = board.clone();
        clone.apply_move(mv);
        let score = pawns(evaluate(&clone, Color::White, &config));
        if mv.promotion == Some(PieceType::Queen) {
            queen_score = score;
        } else {
            best_non_queen = best_non_queen.max(score);
        }
    }
    assert!(
        queen_score > best_non_queen,
        "queen promotion ({queen_score}) should score higher than any other ({best_non_queen})"
    );
}

#[test]
fn material_eval_counts_pieces() {
    let mut board = Board::empty();
    board.squares[0][4] = Some(Piece::new(PieceType::King, Color::White));
    board.squares[7][4] = Some(Piece::new(PieceType::King, Color::Black));
    board.squares[0][0] = Some(Piece::new(PieceType::Queen, Color::White));

    let config = AiConfig::new();
    let score_white = pawns(evaluate(&board, Color::White, &config));
    let score_black = pawns(evaluate(&board, Color::Black, &config));
    assert!(score_white > 0.0, "white with extra queen should be positive: {score_white}");
    assert!(score_black < 0.0, "black perspective should be negative: {score_black}");
}

#[test]
fn checkmate_detected() {
    let mut board = Board::empty();
    board.squares[0][4] = Some(Piece::new(PieceType::King, Color::White));
    board.squares[7][4] = Some(Piece::new(PieceType::King, Color::Black));
    board.squares[6][5] = Some(Piece::new(PieceType::Queen, Color::White));
    board.squares[5][2] = Some(Piece::new(PieceType::Bishop, Color::White));
    board.current_turn = Color::Black;

    let moves = board.generate_legal_moves(Color::Black);
    if moves.is_empty() && board.is_in_check(Color::Black) {
        board.game_over = true;
        let config = AiConfig::new();
        let score = pawns(evaluate(&board, Color::White, &config));
        assert!(score > 9000.0, "checkmate should score very high for white: {score}");
    }
}

#[test]
fn draw_penalty_applies_on_repeat() {
    let mut board = Board::empty();
    board.squares[0][4] = Some(Piece::new(PieceType::King, Color::White));
    board.squares[7][4] = Some(Piece::new(PieceType::King, Color::Black));
    board.squares[0][0] = Some(Piece::new(PieceType::Rook, Color::White));

    let config = AiConfig::new();
    let hash = board.position_hash();

    board.position_history.push(hash);
    let score_fresh = pawns(evaluate(&board, Color::White, &config));

    board.position_history.push(hash);
    let score_repeat = pawns(evaluate(&board, Color::White, &config));

    assert!(
        score_fresh > score_repeat,
        "repeated position ({score_repeat}) should score less than fresh ({score_fresh})"
    );
}

#[test]
fn pick_move_returns_eval_count() {
    let board = Board::new();
    let mut config = AiConfig::new();
    config.depth = 1;
    let result = pick_move(&board, &config).expect("should find a move");
    assert!(result.evals > 0, "should have evaluated at least one position");
}

#[test]
fn stalemate_is_draw() {
    let mut board = Board::empty();
    board.squares[0][0] = Some(Piece::new(PieceType::King, Color::White));
    board.squares[2][1] = Some(Piece::new(PieceType::Queen, Color::Black));
    board.squares[1][2] = Some(Piece::new(PieceType::King, Color::Black));
    board.current_turn = Color::White;

    let moves = board.generate_legal_moves(Color::White);
    if moves.is_empty() && !board.is_in_check(Color::White) {
        board.game_over = true;
        let config = AiConfig::new();
        let score = pawns(evaluate(&board, Color::White, &config));
        assert!(score.abs() < 100.0, "stalemate should not score like mate: {score}");
    }
}

use chess::board::Board;
use chess::engine::{evaluate, move_priority, order_moves, pick_move, pick_move_with, AiConfig};
use chess::moves::Move;
use chess::piece::{Color, Piece, PieceType};
use chess::search::{negamax, pick_move_at_depth, MAX_AUTO_PLIES, MIN_EVALS, SCORE_INF};

fn mv(from: (usize, usize), to: (usize, usize)) -> Move {
    Move { from, to, promotion: None }
}

fn promo(from: (usize, usize), to: (usize, usize), kind: PieceType) -> Move {
    Move { from, to, promotion: Some(kind) }
}

fn piece(piece_type: PieceType, color: Color) -> Option<Piece> {
    Some(Piece::new(piece_type, color))
}

fn kings() -> Board {
    let mut board = Board::empty();
    board.squares[0][4] = piece(PieceType::King, Color::White);
    board.squares[7][4] = piece(PieceType::King, Color::Black);
    board
}

/// Depth in full moves, no deepening.
fn fixed(depth: u32) -> AiConfig {
    let mut config = AiConfig::new();
    config.depth = depth;
    config.auto_deepen = false;
    config
}

/// Negamax without pruning, written out plainly.
fn plain_negamax(board: &Board, depth: u32, config: &AiConfig, evals: &mut u64) -> i64 {
    if depth == 0 || board.game_over {
        *evals += 1;
        return evaluate(board, board.current_turn, config);
    }
    let moves = board.generate_legal_moves(board.current_turn);
    if moves.is_empty() {
        *evals += 1;
        return evaluate(board, board.current_turn, config);
    }
    let mut best = i64::MIN;
    for m in &moves {
        let mut next = board.clone();
        next.apply_move(m);
        best = best.max(-plain_negamax(&next, depth - 1, config, evals));
    }
    best
}

/// A middle-game position with captures on offer.
fn tangled() -> Board {
    let mut board = Board::new();
    for m in [
        ((1, 4), (3, 4)),
        ((6, 3), (4, 3)),
        ((0, 6), (2, 5)),
        ((7, 2), (3, 6)),
        ((0, 5), (3, 2)),
        ((7, 1), (5, 2)),
    ] {
        board.apply_move(&mv(m.0, m.1));
    }
    board
}

#[test]
fn priority_ranks_promotions_then_captures() {
    let mut board = kings();
    board.squares[6][0] = piece(PieceType::Pawn, Color::White);
    board.squares[7][1] = piece(PieceType::Rook, Color::Black);
    board.squares[3][3] = piece(PieceType::Queen, Color::White);
    board.squares[3][6] = piece(PieceType::Pawn, Color::Black);
    board.squares[5][5] = piece(PieceType::Queen, Color::Black);
    board.squares[4][4] = piece(PieceType::Pawn, Color::White);
    assert_eq!(move_priority(&board, &promo((6, 0), (7, 0), PieceType::Queen)), 909);
    assert_eq!(move_priority(&board, &promo((6, 0), (7, 0), PieceType::Rook)), 905);
    assert_eq!(move_priority(&board, &promo((6, 0), (7, 0), PieceType::Bishop)), 903);
    assert_eq!(move_priority(&board, &promo((6, 0), (7, 0), PieceType::Knight)), 903);
    assert_eq!(move_priority(&board, &promo((6, 0), (7, 1), PieceType::Queen)), 909 + 100 + 50 - 1);
    assert_eq!(move_priority(&board, &mv((3, 3), (3, 6))), 100 + 10 - 9);
    assert_eq!(move_priority(&board, &mv((4, 4), (5, 5))), 100 + 90 - 1);
    assert_eq!(move_priority(&board, &mv((3, 3), (3, 4))), 0);
    assert_eq!(move_priority(&board, &mv((0, 4), (0, 3))), 0);
    assert_eq!(move_priority(&board, &mv((2, 2), (5, 5))), 100 + 90);
    assert_eq!(move_priority(&board, &mv((0, 4), (7, 4))), 100);
}

#[test]
fn order_moves_sorts_by_falling_priority_and_keeps_ties_in_order() {
    let mut board = kings();
    board.squares[6][0] = piece(PieceType::Pawn, Color::White);
    board.squares[7][1] = piece(PieceType::Rook, Color::Black);
    board.squares[3][3] = piece(PieceType::Queen, Color::White);
    board.squares[3][6] = piece(PieceType::Pawn, Color::Black);
    let mut moves = vec![
        mv((0, 4), (0, 3)),
        mv((3, 3), (3, 6)),
        promo((6, 0), (7, 0), PieceType::Knight),
        mv((0, 4), (0, 5)),
        promo((6, 0), (7, 0), PieceType::Bishop),
        promo((6, 0), (7, 1), PieceType::Rook),
        promo((6, 0), (7, 0), PieceType::Queen),
        mv((3, 3), (3, 4)),
    ];
    order_moves(&board, &mut moves);
    assert_eq!(
        moves,
        vec![
            promo((6, 0), (7, 1), PieceType::Rook),
            promo((6, 0), (7, 0), PieceType::Queen),
            promo((6, 0), (7, 0), PieceType::Knight),
            promo((6, 0), (7, 0), PieceType::Bishop),
            mv((3, 3), (3, 6)),
            mv((0, 4), (0, 3)),
            mv((0, 4), (0, 5)),
            mv((3, 3), (3, 4)),
        ]
    );
    let mut none: Vec<Move> = Vec::new();
    order_moves(&board, &mut none);
    assert!(none.is_empty());
}

#[test]
fn order_moves_rearranges_the_legal_moves() {
    let board = tangled();
    let legal = board.generate_legal_moves(board.current_turn);
    let mut ordered = legal.clone();
    order_moves(&board, &mut ordered);
    assert_eq!(ordered.len(), legal.len());
    for pair in ordered.windows(2) {
        assert!(move_priority(&board, &pair[0]) >= move_priority(&board, &pair[1]));
    }
    for m in &legal {
        assert_eq!(
            ordered.iter().filter(|x| *x == m).count(),
            legal.iter().filter(|x| *x == m).count()
        );
    }
    assert!(move_priority(&board, &ordered[0]) > 0);
    let quiet: Vec<Move> = legal.iter().filter(|m| move_priority(&board, m) == 0).cloned().collect();
    let quiet_after: Vec<Move> =
        ordered.iter().filter(|m| move_priority(&board, m) == 0).cloned().collect();
    assert_eq!(quiet, quiet_after);
}

#[test]
fn negamax_at_depth_zero_is_the_evaluation() {
    let board = tangled();
    let config = fixed(1);
    let mut evals = 5;
    let score = negamax(&board, 0, -SCORE_INF, SCORE_INF, &config, &mut evals);
    assert_eq!(score, evaluate(&board, board.current_turn, &config));
    assert_eq!(evals, 6);

    let mut over = tangled();
    over.game_over = true;
    let mut evals = 0;
    let score = negamax(&over, 3, -SCORE_INF, SCORE_INF, &config, &mut evals);
    assert_eq!(score, evaluate(&over, over.current_turn, &config));
    assert_eq!(evals, 1);

    let mut full = u64::MAX;
    negamax(&board, 0, -SCORE_INF, SCORE_INF, &config, &mut full);
    assert_eq!(full, u64::MAX);
}

#[test]
fn pruning_does_not_change_the_value() {
    let config = fixed(1);
    for board in [Board::new(), tangled()] {
        for depth in 1..=2 {
            let mut plain_evals = 0;
            let plain = plain_negamax(&board, depth, &config, &mut plain_evals);
            let mut evals = 0;
            let pruned = negamax(&board, depth, -SCORE_INF, SCORE_INF, &config, &mut evals);
            assert_eq!(pruned, plain);
            assert!(evals >= 1);
            assert!(evals <= plain_evals);
        }
    }
    let board = tangled();
    let mut plain_evals = 0;
    let plain = plain_negamax(&board, 3, &config, &mut plain_evals);
    let mut evals = 0;
    let pruned = negamax(&board, 3, -SCORE_INF, SCORE_INF, &config, &mut evals);
    assert_eq!(pruned, plain);
    assert!(evals < plain_evals);
}

#[test]
fn a_narrow_window_bounds_the_value() {
    let board = tangled();
    let config = fixed(1);
    let mut evals = 0;
    let value = negamax(&board, 2, -SCORE_INF, SCORE_INF, &config, &mut evals);
    let mut evals = 0;
    let high = negamax(&board, 2, value + 10, value + 20, &config, &mut evals);
    assert!(high <= value + 10 && value <= high);
    let mut evals = 0;
    let low = negamax(&board, 2, value - 20, value - 10, &config, &mut evals);
    assert!(low >= value - 10 && value >= low);
    let mut evals = 0;
    let inside = negamax(&board, 2, value - 1, value + 1, &config, &mut evals);
    assert_eq!(inside, value);
}

#[test]
fn root_search_scores_every_move_in_order() {
    let board = tangled();
    let config = fixed(1);
    let mut moves = board.generate_legal_moves(board.current_turn);
    order_moves(&board, &mut moves);
    let (scored, evals) = pick_move_at_depth(&board, &moves, 2, &config);
    assert_eq!(scored.len(), moves.len());
    let mut total = 0;
    for (entry, m) in scored.iter().zip(moves.iter()) {
        assert_eq!(entry.mv, *m);
        let mut next = board.clone();
        next.apply_move(m);
        let mut count = 0;
        assert_eq!(entry.score, -plain_negamax(&next, 1, &config, &mut count));
        let mut pruned = 0;
        negamax(&next, 1, -SCORE_INF, SCORE_INF, &config, &mut pruned);
        total += pruned;
    }
    assert_eq!(evals, total);

    let (flat, flat_evals) = pick_move_at_depth(&board, &moves, 0, &config);
    let (one, one_evals) = pick_move_at_depth(&board, &moves, 1, &config);
    assert_eq!(flat_evals, moves.len() as u64);
    assert_eq!(one_evals, moves.len() as u64);
    for (a, b) in flat.iter().zip(one.iter()) {
        assert_eq!(a.score, b.score);
    }
}

#[test]
fn the_choice_picks_among_the_best_moves() {
    let board = Board::new();
    let config = fixed(1);
    let mut moves = board.generate_legal_moves(Color::White);
    order_moves(&board, &mut moves);
    let (scored, evals) = pick_move_at_depth(&board, &moves, 2, &config);
    let best = scored.iter().map(|s| s.score).max().unwrap();
    let near: Vec<Move> = scored.iter().filter(|s| best - s.score < 1).map(|s| s.mv).collect();
    let top_priority = near.iter().map(|m| move_priority(&board, m)).max().unwrap();
    let top: Vec<Move> =
        near.into_iter().filter(|m| move_priority(&board, m) == top_priority).collect();
    assert!(!top.is_empty());
    for choice in 0..(2 * top.len() as u64 + 1) {
        let pick = pick_move_with(&board, &config, choice).expect("should find a move");
        assert_eq!(pick.mv, top[(choice % top.len() as u64) as usize]);
        assert_eq!(pick.evals, evals);
    }
    let far = pick_move_with(&board, &config, u64::MAX).expect("should find a move");
    assert_eq!(far.mv, top[(u64::MAX % top.len() as u64) as usize]);
}

#[test]
fn pick_move_returns_a_legal_best_move() {
    let board = tangled();
    let config = fixed(1);
    let legal = board.generate_legal_moves(board.current_turn);
    let pick = pick_move(&board, &config).expect("should find a move");
    assert!(legal.contains(&pick.mv));
    assert!(pick.evals >= 1);
    let mut evals = 0;
    let value = plain_negamax(&board, 2, &config, &mut evals);
    let mut next = board.clone();
    next.apply_move(&pick.mv);
    let mut evals = 0;
    assert_eq!(-plain_negamax(&next, 1, &config, &mut evals), value);
}

#[test]
fn no_legal_move_means_no_pick() {
    let mut stale = Board::empty();
    stale.squares[0][0] = piece(PieceType::King, Color::White);
    stale.squares[2][1] = piece(PieceType::Queen, Color::Black);
    stale.squares[1][2] = piece(PieceType::King, Color::Black);
    assert!(pick_move(&stale, &AiConfig::new()).is_none());
    assert!(pick_move_with(&stale, &fixed(1), 3).is_none());

    let mut mated = Board::empty();
    mated.squares[7][7] = piece(PieceType::King, Color::Black);
    mated.squares[5][6] = piece(PieceType::King, Color::White);
    mated.squares[7][0] = piece(PieceType::Rook, Color::White);
    mated.current_turn = Color::Black;
    assert!(pick_move(&mated, &fixed(2)).is_none());
}

#[test]
fn depth_zero_evaluates_each_candidate_once() {
    let board = Board::new();
    let config = fixed(0);
    let pick = pick_move_with(&board, &config, 0).expect("should find a move");
    assert_eq!(pick.evals, 20);
    assert!(board.generate_legal_moves(Color::White).contains(&pick.mv));
    let one = pick_move_with(&board, &fixed(1), 0).expect("should find a move");
    assert!(one.evals > 20);
}

#[test]
fn the_largest_depth_is_accepted() {
    let mut mated = Board::empty();
    mated.squares[7][7] = piece(PieceType::King, Color::Black);
    mated.squares[5][6] = piece(PieceType::King, Color::White);
    mated.squares[7][0] = piece(PieceType::Rook, Color::White);
    mated.current_turn = Color::Black;
    assert!(pick_move_with(&mated, &fixed(u32::MAX), 0).is_none());

    let mut last = Board::empty();
    last.squares[7][7] = piece(PieceType::King, Color::Black);
    last.squares[5][6] = piece(PieceType::King, Color::White);
    last.squares[5][0] = piece(PieceType::Pawn, Color::Black);
    last.squares[4][1] = piece(PieceType::Pawn, Color::White);
    last.current_turn = Color::White;
    last.game_over = true;
    let mut evals = 0;
    let score = negamax(&last, u32::MAX, -SCORE_INF, SCORE_INF, &fixed(u32::MAX), &mut evals);
    assert_eq!(score, evaluate(&last, Color::White, &fixed(u32::MAX)));
    assert_eq!(evals, 1);
}

#[test]
fn the_search_takes_a_mate_in_one() {
    let mut board = Board::empty();
    board.squares[7][7] = piece(PieceType::King, Color::Black);
    board.squares[5][6] = piece(PieceType::King, Color::White);
    board.squares[0][0] = piece(PieceType::Rook, Color::White);
    for choice in 0..4 {
        let pick = pick_move_with(&board, &fixed(1), choice).expect("should find a move");
        assert_eq!(pick.mv, mv((0, 0), (7, 0)));
    }
}

#[test]
fn deepening_goes_on_until_enough_positions_or_six_plies() {
    let mut board = kings();
    board.squares[1][0] = piece(PieceType::Pawn, Color::White);
    let mut config = AiConfig::new();
    config.depth = 1;
    let deep = pick_move_with(&board, &config, 0).expect("should find a move");
    let mut moves = board.generate_legal_moves(Color::White);
    order_moves(&board, &mut moves);
    let mut plies = 2;
    let mut evals = pick_move_at_depth(&board, &moves, plies, &config).1;
    while evals < MIN_EVALS && plies < MAX_AUTO_PLIES {
        plies += 1;
        evals = pick_move_at_depth(&board, &moves, plies, &config).1;
    }
    assert_eq!(deep.evals, evals);
    assert!(plies > 2);
    let shallow = pick_move_with(&board, &fixed(1), 0).expect("should find a move");
    assert!(shallow.evals < deep.evals);
    assert_eq!(shallow.evals, pick_move_at_depth(&board, &moves, 2, &config).1);
}

fn count_pieces(board: &Board) -> (usize, usize, usize) {
    let mut total = 0;
    let mut white_kings = 0;
    let mut black_kings = 0;
    for r in 0..8 {
        for c in 0..8 {
            if let Some(p) = board.squares[r][c] {
                total += 1;
                if p.piece_type == PieceType::King {
                    if p.color == Color::White {
                        white_kings += 1;
                    } else {
                        black_kings += 1;
                    }
                }
            }
        }
    }
    (total, white_kings, black_kings)
}

#[test]
fn self_play_keeps_the_board_in_order() {
    let config = fixed(1);
    let mut board = Board::new();
    let first = pick_move(&board, &config).expect("should find a move");
    assert!(board.generate_moves(Color::White).contains(&first.mv));
    assert!(board.king_safe_after(&first.mv, Color::White));

    let mut plies = 0;
    while !board.game_over && plies < 200 {
        let side = board.current_turn;
        let legal = board.generate_legal_moves(side);
        let pick = match pick_move(&board, &config) {
            Some(pick) => pick,
            None => break,
        };
        assert!(legal.contains(&pick.mv));
        assert!(pick.evals >= 1);
        let history = board.position_history.len();
        board.apply_move(&pick.mv);
        plies += 1;
        assert_eq!(board.current_turn, side.opposite());
        assert_eq!(board.position_history.len(), history + 1);
        assert_eq!(board.last_move, Some((pick.mv.from, pick.mv.to)));
        assert!(!board.is_in_check(side));
        let (total, white_kings, black_kings) = count_pieces(&board);
        assert_eq!(white_kings, 1);
        assert_eq!(black_kings, 1);
        assert_eq!(total + board.captured_white.len() + board.captured_black.len(), 32);
        assert_eq!(board.fullmove_number as usize, 1 + plies / 2);
    }
    assert!(board.game_over || plies == 200);
    if board.game_over {
        assert!(board.result.is_some());
    } else {
        assert_eq!(board.result, None);
    }
}

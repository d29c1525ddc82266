use chess::board::Board;
use chess::engine::AiConfig;
use chess::selfplay::{outcome_of, play_game, Outcome};

fn fixed(depth: u32) -> AiConfig {
    let mut config = AiConfig::new();
    config.depth = depth;
    config.auto_deepen = false;
    config
}

#[test]
fn a_game_of_no_moves_is_the_starting_position() {
    let board = play_game(&fixed(1), &fixed(1), 0);
    assert_eq!(board.squares, Board::new().squares);
    assert_eq!(board.position_history, Board::new().position_history);
    assert!(!board.game_over);
    assert_eq!(outcome_of(&board), Outcome::Draw);
}

#[test]
fn a_game_stops_at_the_limit_or_at_its_end() {
    for limit in [1, 2, 7, 40] {
        let board = play_game(&fixed(1), &fixed(0), limit);
        let played = board.position_history.len() - 1;
        assert!(played <= limit as usize);
        assert!(
            played == limit as usize
                || board.game_over
                || board.generate_legal_moves(board.current_turn).is_empty()
        );
        assert_eq!(board.fullmove_number as usize, 1 + played / 2);
        let mut on_board = 0;
        for r in 0..8 {
            for c in 0..8 {
                if board.squares[r][c].is_some() {
                    on_board += 1;
                }
            }
        }
        assert_eq!(on_board + board.captured_white.len() + board.captured_black.len(), 32);
        if !board.game_over {
            assert_eq!(board.result, None);
            assert_eq!(outcome_of(&board), Outcome::Draw);
        }
    }
}

#[test]
fn the_tally_reads_the_result() {
    let mut board = Board::new();
    assert_eq!(outcome_of(&board), Outcome::Draw);
    board.result = Some("White wins".to_string());
    assert_eq!(outcome_of(&board), Outcome::Draw);
    board.game_over = true;
    assert_eq!(outcome_of(&board), Outcome::WhiteWins);
    board.result = Some("Black wins".to_string());
    assert_eq!(outcome_of(&board), Outcome::BlackWins);
    for text in ["Draw", "Draw by repetition", "Draw \u{2014} 50 move rule", "white wins", ""] {
        board.result = Some(text.to_string());
        assert_eq!(outcome_of(&board), Outcome::Draw);
    }
    board.result = None;
    assert_eq!(outcome_of(&board), Outcome::Draw);
}

//! The engine against itself: a game played out move by move, and its outcome.

use vstd::prelude::*;
use crate::board::Board;
use crate::eval::AiConfig;
use crate::moves::Move;
use crate::piece::Color;
use crate::position::Position;
use crate::search::pick_move;

verus! {

/// How a game stands for the purpose of a tally.
#[derive(Clone, Copy, Debug, PartialEq, Eq, Structural)]
pub enum Outcome {
    WhiteWins,
    BlackWins,
    Draw,
}

/// Position `q` is reached from `p` by `n` legal moves, each made in a game
/// that is not over.
pub open spec fn reached(p: Position, q: Position, n: nat) -> bool
    decreases n,
{
    if n == 0 {
        q == p
    } else {
        exists|prev: Position, m: Move|
            reached(p, prev, (n - 1) as nat) && !prev.game_over && prev.legal_moves(
                prev.current_turn,
            ).contains(m) && q == #[trigger] prev.played(m)
    }
}

/// The outcome that a tally counts for a position: a win where the game is over
/// with the text of that win, and a draw in every other case, a game that was
/// broken off included.
pub open spec fn tallied(p: Position) -> Outcome {
    if p.game_over && p.result == Some("White wins"@) {
        Outcome::WhiteWins
    } else if p.game_over && p.result == Some("Black wins"@) {
        Outcome::BlackWins
    } else {
        Outcome::Draw
    }
}

/// Plays a game from the starting position, White moving by the first
/// configuration and Black by the second, until the game is over, the side to
/// move has no legal move, or `max_moves` moves have been made. Which of its
/// best moves a side makes is left to chance, so the contract says what holds
/// of every game: the final position is reached from the start by legal moves,
/// at most `max_moves` of them, and the game was broken off only at that limit.
pub fn play_game(white_config: &AiConfig, black_config: &AiConfig, max_moves: u32) -> (board: Board)
    ensures
        exists|n: nat|
            n <= max_moves && #[trigger] reached(Position::initial(), board@, n) && (n == max_moves
                || board@.game_over || board@.legal_moves(board@.current_turn).len() == 0),
{
    let mut board = Board::new();
    let mut played: u32 = 0;
    assert(reached(Position::initial(), board@, 0));
    while played < max_moves
        invariant
            played <= max_moves,
            reached(Position::initial(), board@, played as nat),
        decreases max_moves - played,
    {
        if board.game_over {
            return board;
        }
        let pick = match board.current_turn {
            Color::White => pick_move(&board, white_config),
            Color::Black => pick_move(&board, black_config),
        };
        match pick {
            Some(result) => {
                let ghost prev = board@;
                board.apply_move(&result.mv);
                played += 1;
                assert(reached(Position::initial(), prev, (played - 1) as nat) && !prev.game_over
                    && prev.legal_moves(prev.current_turn).contains(result.mv) && board@
                    == prev.played(result.mv));
            },
            None => {
                return board;
            },
        }
    }
    board
}

/// The outcome that a tally counts for a board.
pub fn outcome_of(board: &Board) -> (outcome: Outcome)
    ensures
        outcome == tallied(board@),
{
    if !board.game_over {
        return Outcome::Draw;
    }
    match &board.result {
        Some(text) => {
            if *text == "White wins".to_string() {
                Outcome::WhiteWins
            } else if *text == "Black wins".to_string() {
                Outcome::BlackWins
            } else {
                Outcome::Draw
            }
        },
        None => Outcome::Draw,
    }
}

} // verus!

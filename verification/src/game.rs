//! A game as a host sees it: a board, a configuration, and entry points that
//! either apply a move or leave the game untouched.

use vstd::prelude::*;
use crate::board::Board;
use crate::eval::{evaluate_breakdown, AiConfig, EvalBreakdown};
use crate::moves::Move;
use crate::piece::{Color, Piece, PieceType};
use crate::position::Position;
use crate::search::{pick_move, pick_move_with, raised};

verus! {

/// A game in progress.
pub struct Game {
    pub board: Board,
    pub ai_config: AiConfig,
    /// How many positions the last search of `make_ai_move` evaluated.
    pub last_evals: u64,
}

/// Why a requested move was not applied.
#[derive(Clone, Copy, Debug, PartialEq, Eq, Structural)]
pub enum MoveError {
    /// The game had ended before the request.
    GameOver,
    /// The request matches no legal move.
    IllegalMove,
}

/// What a host shows of a game: a copy of the board's data together with the
/// check flag and the legal moves of the side to move.
#[derive(Debug)]
pub struct BoardState {
    pub squares: [[Option<Piece>; 8]; 8],
    pub current_turn: Color,
    pub game_over: bool,
    pub result: Option<String>,
    pub is_in_check: bool,
    pub legal_moves: Vec<Move>,
    pub captured_white: Vec<PieceType>,
    pub captured_black: Vec<PieceType>,
    pub last_move: Option<((usize, usize), (usize, usize))>,
}

/// The search depth that a host may set: what it asks for, held between 1 and 3.
pub open spec fn clamped_depth(depth: u32) -> u32 {
    if depth < 1 {
        1
    } else if depth > 3 {
        3
    } else {
        depth
    }
}

/// The configuration after the module with the given name has been switched.
/// The names are `mate`, `material`, `centre`, `passed_pawns` and
/// `draw_penalty`; any other name changes nothing.
pub open spec fn with_module(config: AiConfig, name: Seq<char>, enabled: bool) -> AiConfig {
    if name == "mate"@ {
        AiConfig { mate_module: enabled, ..config }
    } else if name == "material"@ {
        AiConfig { material_module: enabled, ..config }
    } else if name == "centre"@ {
        AiConfig { centre_module: enabled, ..config }
    } else if name == "passed_pawns"@ {
        AiConfig { passed_pawn_module: enabled, ..config }
    } else if name == "draw_penalty"@ {
        AiConfig { draw_penalty_module: enabled, ..config }
    } else {
        config
    }
}

/// The name of a kind of piece as a host shows it.
pub open spec fn kind_name(kind: PieceType) -> Seq<char> {
    match kind {
        PieceType::King => "King"@,
        PieceType::Queen => "Queen"@,
        PieceType::Rook => "Rook"@,
        PieceType::Bishop => "Bishop"@,
        PieceType::Knight => "Knight"@,
        PieceType::Pawn => "Pawn"@,
    }
}

/// The name of a side as a host shows it.
pub open spec fn color_name(color: Color) -> Seq<char> {
    match color {
        Color::White => "White"@,
        Color::Black => "Black"@,
    }
}

/// The piece that a host names for a promotion: `Queen`, `Rook`, `Bishop` or
/// `Knight`; any other text names none.
pub open spec fn promotion_named(name: Seq<char>) -> Option<PieceType> {
    if name == "Queen"@ {
        Some(PieceType::Queen)
    } else if name == "Rook"@ {
        Some(PieceType::Rook)
    } else if name == "Bishop"@ {
        Some(PieceType::Bishop)
    } else if name == "Knight"@ {
        Some(PieceType::Knight)
    } else {
        None
    }
}

/// The move that a host asks for by its squares and the name of a promotion
/// piece, if it gives one.
pub open spec fn move_asked(
    from_row: usize,
    from_col: usize,
    to_row: usize,
    to_col: usize,
    promotion: Option<String>,
) -> Move {
    Move {
        from: (from_row, from_col),
        to: (to_row, to_col),
        promotion: match promotion {
            Some(name) => promotion_named(name@),
            None => None,
        },
    }
}

/// The test that a move starts on the given square.
pub open spec fn starts_on(row: usize, col: usize) -> spec_fn(Move) -> bool {
    |m: Move| m.from == (row, col)
}

impl BoardState {
    /// The snapshot shows the position: its data, whether the side to move is
    /// in check, and that side's legal moves.
    pub open spec fn shows(self, p: Position) -> bool {
        &&& forall|r: int, c: int| 0 <= r < 8 && 0 <= c < 8 ==> self.squares[r][c] == p.at(r, c)
        &&& self.current_turn == p.current_turn
        &&& self.game_over == p.game_over
        &&& match self.result {
            Some(text) => p.result == Some(text@),
            None => p.result is None,
        }
        &&& self.is_in_check == p.in_check(p.current_turn)
        &&& self.legal_moves@ == p.legal_moves(p.current_turn)
        &&& self.captured_white@ == p.captured_white
        &&& self.captured_black@ == p.captured_black
        &&& self.last_move == p.last_move
    }
}

impl MoveError {
    /// The message that a host shows for the error.
    pub fn message(&self) -> (s: String)
        ensures
            s@ == (match *self {
                MoveError::GameOver => "Game is already over"@,
                MoveError::IllegalMove => "Illegal move"@,
            }),
    {
        match self {
            MoveError::GameOver => "Game is already over".to_string(),
            MoveError::IllegalMove => "Illegal move".to_string(),
        }
    }
}

/// The name of a kind of piece as a host shows it.
pub fn piece_type_to_string(pt: PieceType) -> (s: String)
    ensures
        s@ == kind_name(pt),
{
    match pt {
        PieceType::King => "King".to_string(),
        PieceType::Queen => "Queen".to_string(),
        PieceType::Rook => "Rook".to_string(),
        PieceType::Bishop => "Bishop".to_string(),
        PieceType::Knight => "Knight".to_string(),
        PieceType::Pawn => "Pawn".to_string(),
    }
}

/// The name of a side as a host shows it.
pub fn color_to_string(c: Color) -> (s: String)
    ensures
        s@ == color_name(c),
{
    match c {
        Color::White => "White".to_string(),
        Color::Black => "Black".to_string(),
    }
}

/// The piece that a host names for a promotion, if the text names one.
pub fn string_to_piece_type(s: &str) -> (kind: Option<PieceType>)
    ensures
        kind == promotion_named(s@),
{
    let name = s.to_string();
    if name == "Queen".to_string() {
        Some(PieceType::Queen)
    } else if name == "Rook".to_string() {
        Some(PieceType::Rook)
    } else if name == "Bishop".to_string() {
        Some(PieceType::Bishop)
    } else if name == "Knight".to_string() {
        Some(PieceType::Knight)
    } else {
        None
    }
}

/// Whether the move is among the moves.
fn has_move(moves: &Vec<Move>, asked: Move) -> (found: bool)
    ensures
        found == moves@.contains(asked),
{
    let mut i: usize = 0;
    while i < moves.len()
        invariant
            i <= moves@.len(),
            forall|k: int| 0 <= k < i ==> moves@[k] != asked,
        decreases moves.len() - i,
    {
        if moves[i] == asked {
            return true;
        }
        i += 1;
    }
    false
}

/// The snapshot of a board for a host.
pub fn build_board_state(board: &Board) -> (state: BoardState)
    ensures
        state.shows(board@),
{
    let copy = board.clone();
    BoardState {
        squares: copy.squares,
        current_turn: copy.current_turn,
        game_over: copy.game_over,
        result: copy.result,
        is_in_check: board.is_in_check(board.current_turn),
        legal_moves: board.generate_legal_moves(board.current_turn),
        captured_white: copy.captured_white,
        captured_black: copy.captured_black,
        last_move: copy.last_move,
    }
}

impl Default for Game {
    fn default() -> (g: Game)
        ensures
            g.board@ == Position::initial(),
            g.ai_config == AiConfig::standard(),
            g.last_evals == 0,
    {
        Game::new()
    }
}

impl Game {
    /// A new game: the starting position, the standard configuration.
    pub fn new() -> (g: Game)
        ensures
            g.board@ == Position::initial(),
            g.ai_config == AiConfig::standard(),
            g.last_evals == 0,
    {
        Game { board: Board::new(), ai_config: AiConfig::new(), last_evals: 0 }
    }

    /// Switches a scoring module on or off by its name. An unknown name changes
    /// nothing.
    pub fn set_module(&mut self, name: &str, enabled: bool)
        ensures
            final(self).ai_config == with_module(old(self).ai_config, name@, enabled),
            final(self).board@ == old(self).board@,
            final(self).last_evals == old(self).last_evals,
    {
        let wanted = name.to_string();
        if wanted == "mate".to_string() {
            self.ai_config.mate_module = enabled;
        } else if wanted == "material".to_string() {
            self.ai_config.material_module = enabled;
        } else if wanted == "centre".to_string() {
            self.ai_config.centre_module = enabled;
        } else if wanted == "passed_pawns".to_string() {
            self.ai_config.passed_pawn_module = enabled;
        } else if wanted == "draw_penalty".to_string() {
            self.ai_config.draw_penalty_module = enabled;
        }
    }

    /// Sets the search depth in full moves, held between 1 and 3.
    pub fn set_depth(&mut self, depth: u32)
        ensures
            final(self).ai_config == (AiConfig { depth: clamped_depth(depth), ..old(self).ai_config }),
            final(self).board@ == old(self).board@,
            final(self).last_evals == old(self).last_evals,
    {
        self.ai_config.depth = if depth < 1 {
            1
        } else if depth > 3 {
            3
        } else {
            depth
        };
    }

    /// The snapshot of the game for a host.
    pub fn get_board_state(&self) -> (state: BoardState)
        ensures
            state.shows(self.board@),
    {
        build_board_state(&self.board)
    }

    /// Applies the move that a host asks for by its squares and, for a
    /// promotion, the name of the new piece, if the game is not over and the
    /// move is a legal move of the side to move; else the game stays as it is.
    pub fn make_move(
        &mut self,
        from_row: usize,
        from_col: usize,
        to_row: usize,
        to_col: usize,
        promotion: Option<String>,
    ) -> (r: Result<BoardState, MoveError>)
        ensures
            final(self).ai_config == old(self).ai_config,
            final(self).last_evals == old(self).last_evals,
            ({
                let asked = move_asked(from_row, from_col, to_row, to_col, promotion);
                let before = old(self).board@;
                let legal = before.legal_moves(before.current_turn).contains(asked);
                match r {
                    Err(MoveError::GameOver) => before.game_over && final(self).board@ == before,
                    Err(MoveError::IllegalMove) => !before.game_over && !legal && final(self).board@
                        == before,
                    Ok(state) => !before.game_over && legal && final(self).board@ == before.played(
                        asked,
                    ) && state.shows(final(self).board@),
                }
            }),
    {
        if self.board.game_over {
            return Err(MoveError::GameOver);
        }
        let promo_pt = match &promotion {
            Some(name) => string_to_piece_type(name.as_str()),
            None => None,
        };
        let asked = Move { from: (from_row, from_col), to: (to_row, to_col), promotion: promo_pt };
        let legal_moves = self.board.generate_legal_moves(self.board.current_turn);
        if has_move(&legal_moves, asked) {
            self.board.apply_move(&asked);
            Ok(build_board_state(&self.board))
        } else {
            Err(MoveError::IllegalMove)
        }
    }

    /// Lets the engine move for the side to move. A game that is over, or in
    /// which the side has no legal move, stays as it is. Else one of the moves
    /// that the search ranks first is applied, and the number of positions that
    /// the search evaluated is kept.
    pub fn make_ai_move(&mut self) -> (state: BoardState)
        ensures
            final(self).ai_config == old(self).ai_config,
            state.shows(final(self).board@),
            ({
                let before = old(self).board@;
                if before.game_over || before.legal_moves(before.current_turn).len() == 0 {
                    final(self).board@ == before && final(self).last_evals == old(self).last_evals
                } else {
                    &&& exists|m: Move|
                        #![trigger before.played(m)]
                        before.top_moves(old(self).ai_config).contains(m) && final(self).board@
                            == before.played(m)
                    &&& final(self).last_evals == raised(
                        0,
                        before.search_evals(old(self).ai_config),
                    )
                }
            }),
    {
        if self.board.game_over {
            return build_board_state(&self.board);
        }
        match pick_move(&self.board, &self.ai_config) {
            Some(result) => {
                self.last_evals = result.evals;
                self.board.apply_move(&result.mv);
                build_board_state(&self.board)
            },
            None => build_board_state(&self.board),
        }
    }

    /// Lets the engine move for the side to move, the source of chance being the
    /// number `choice`. A game that is over, or in which the side has no legal
    /// move, stays as it is. Else the move that `choice` picks among those that
    /// the search ranks first is applied, and the number of positions that the
    /// search evaluated is kept.
    pub fn make_ai_move_with(&mut self, choice: u64) -> (state: BoardState)
        ensures
            final(self).ai_config == old(self).ai_config,
            state.shows(final(self).board@),
            ({
                let before = old(self).board@;
                let top = before.top_moves(old(self).ai_config);
                if before.game_over || before.legal_moves(before.current_turn).len() == 0 {
                    final(self).board@ == before && final(self).last_evals == old(self).last_evals
                } else {
                    &&& top.len() > 0
                    &&& final(self).board@ == before.played(top[choice as int % top.len() as int])
                    &&& final(self).last_evals == raised(
                        0,
                        before.search_evals(old(self).ai_config),
                    )
                }
            }),
    {
        if self.board.game_over {
            return build_board_state(&self.board);
        }
        match pick_move_with(&self.board, &self.ai_config, choice) {
            Some(result) => {
                self.last_evals = result.evals;
                self.board.apply_move(&result.mv);
                build_board_state(&self.board)
            },
            None => build_board_state(&self.board),
        }
    }

    /// The move that the engine would make at the given depth, held between 1
    /// and 3, the source of chance being the number `choice`; `None` exactly if
    /// the side to move has no legal move.
    pub fn get_hint_with(&self, depth: u32, choice: u64) -> (hint: Option<Move>)
        ensures
            ({
                let p = self.board@;
                let config = AiConfig { depth: clamped_depth(depth), ..self.ai_config };
                let top = p.top_moves(config);
                match hint {
                    Some(m) => top.len() > 0 && m == top[choice as int % top.len() as int],
                    None => p.legal_moves(p.current_turn).len() == 0,
                }
            }),
    {
        let mut hint_config = self.ai_config;
        hint_config.depth = if depth < 1 {
            1
        } else if depth > 3 {
            3
        } else {
            depth
        };
        match pick_move_with(&self.board, &hint_config, choice) {
            Some(result) => Some(result.mv),
            None => None,
        }
    }

    /// The move that the engine would make at the given depth, held between 1
    /// and 3; `None` exactly if the side to move has no legal move.
    pub fn get_hint(&self, depth: u32) -> (hint: Option<Move>)
        ensures
            ({
                let p = self.board@;
                let config = AiConfig { depth: clamped_depth(depth), ..self.ai_config };
                match hint {
                    Some(m) => p.top_moves(config).contains(m) && p.legal_moves(
                        p.current_turn,
                    ).contains(m),
                    None => p.legal_moves(p.current_turn).len() == 0,
                }
            }),
    {
        let mut hint_config = self.ai_config;
        hint_config.depth = if depth < 1 {
            1
        } else if depth > 3 {
            3
        } else {
            depth
        };
        match pick_move(&self.board, &hint_config) {
            Some(result) => Some(result.mv),
            None => None,
        }
    }

    /// The legal moves of the side to move that start on the given square.
    pub fn get_legal_moves_for_square(&self, row: usize, col: usize) -> (moves: Vec<Move>)
        ensures
            moves@ == self.board@.legal_moves(self.board@.current_turn).filter(starts_on(row, col)),
    {
        let legal_moves = self.board.generate_legal_moves(self.board.current_turn);
        let mut moves: Vec<Move> = Vec::new();
        let mut i: usize = 0;
        proof {
            reveal(Seq::filter);
            assert(legal_moves@.take(0).filter(starts_on(row, col)) =~= Seq::<Move>::empty());
        }
        while i < legal_moves.len()
            invariant
                i <= legal_moves@.len(),
                moves@ == legal_moves@.take(i as int).filter(starts_on(row, col)),
            decreases legal_moves.len() - i,
        {
            let m = legal_moves[i];
            proof {
                assert(legal_moves@.take(i + 1) =~= legal_moves@.take(i as int).push(m));
                legal_moves@.take(i as int).lemma_filter_push(m, starts_on(row, col));
            }
            if m.from.0 == row && m.from.1 == col {
                moves.push(m);
            }
            i += 1;
        }
        assert(legal_moves@.take(i as int) =~= legal_moves@);
        moves
    }

    /// How many positions the last search of `make_ai_move` evaluated.
    pub fn get_last_evals(&self) -> (n: u64)
        ensures
            n == self.last_evals,
    {
        self.last_evals
    }

    /// What each scoring module adds to the score of the position for the side
    /// to move.
    pub fn get_eval_breakdown(&self) -> (b: EvalBreakdown)
        ensures
            b.total == self.board@.score(self.board@.current_turn, self.ai_config),
            b.total == b.mate + b.material + b.centre + b.passed_pawns + b.draw_penalty,
    {
        evaluate_breakdown(&self.board, self.board.current_turn, &self.ai_config)
    }
}

} // verus!

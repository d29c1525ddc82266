//! Static evaluation: five scoring modules, each of which can be switched off,
//! combined into one score. Scores and weights are whole numbers of thousandths
//! of a pawn.

use vstd::prelude::*;
use crate::board::Board;
use crate::piece::{Color, PieceType};
use crate::position::Position;

verus! {

/// The weights of the scoring modules, in thousandths of a pawn.
#[derive(Clone, Copy, Debug, PartialEq, Eq, Structural)]
pub struct Weights {
    /// For each of the four centre squares that a side attacks.
    pub centre_attack: i32,
    /// For each of the four centre squares that a side's piece stands on.
    pub centre_occupy: i32,
    /// For each of the twelve squares around the centre that a side attacks.
    pub extended_centre_attack: i32,
    /// For a passed pawn.
    pub passed_pawn_base: i32,
    /// For a passed pawn, times the square of the ranks it has advanced.
    pub passed_pawn_quadratic: i32,
    /// For a pawn that is not passed, times the ranks it has advanced.
    pub pawn_advance: i32,
    /// Against the side to move when it is in check but can move.
    pub check_penalty: i32,
    /// Against a position that has occurred before.
    pub repeat_penalty: i32,
}

/// Which scoring modules run, how deep the search looks, and the weights.
#[derive(Clone, Copy, Debug, PartialEq, Eq, Structural)]
pub struct AiConfig {
    pub mate_module: bool,
    pub material_module: bool,
    pub centre_module: bool,
    pub passed_pawn_module: bool,
    pub draw_penalty_module: bool,
    /// Search depth in full moves.
    pub depth: u32,
    /// Whether the search deepens by itself while it has evaluated few positions.
    pub auto_deepen: bool,
    pub weights: Weights,
}

/// What each module adds to a score, and their sum.
#[derive(Clone, Copy, Debug, PartialEq, Eq, Structural)]
pub struct EvalBreakdown {
    pub mate: i64,
    pub material: i64,
    pub centre: i64,
    pub passed_pawns: i64,
    pub draw_penalty: i64,
    pub total: i64,
}

/// The score of a mate, in thousandths of a pawn.
pub const MATE_SCORE: i64 = 10_000_000;

/// No score is larger than this, or smaller than its negative.
pub const SCORE_LIMIT: i64 = 0x1000_0000_0000;

/// The largest magnitude of a weight.
pub open spec fn weight_limit() -> int {
    0x8000_0000
}

impl Weights {
    /// The standard weights.
    pub open spec fn standard() -> Weights {
        Weights {
            centre_attack: 150,
            centre_occupy: 200,
            extended_centre_attack: 300,
            passed_pawn_base: 200,
            passed_pawn_quadratic: 300,
            pawn_advance: 0,
            check_penalty: 500,
            repeat_penalty: 10_000,
        }
    }
}

impl Default for Weights {
    fn default() -> (w: Weights)
        ensures
            w == Weights::standard(),
    {
        Weights {
            centre_attack: 150,
            centre_occupy: 200,
            extended_centre_attack: 300,
            passed_pawn_base: 200,
            passed_pawn_quadratic: 300,
            pawn_advance: 0,
            check_penalty: 500,
            repeat_penalty: 10_000,
        }
    }
}

impl AiConfig {
    /// The standard configuration: every module on, depth 2, deepening on, the
    /// standard weights.
    pub open spec fn standard() -> AiConfig {
        AiConfig {
            mate_module: true,
            material_module: true,
            centre_module: true,
            passed_pawn_module: true,
            draw_penalty_module: true,
            depth: 2,
            auto_deepen: true,
            weights: Weights::standard(),
        }
    }

    /// The standard configuration.
    pub fn new() -> (c: AiConfig)
        ensures
            c == AiConfig::standard(),
    {
        AiConfig {
            mate_module: true,
            material_module: true,
            centre_module: true,
            passed_pawn_module: true,
            draw_penalty_module: true,
            depth: 2,
            auto_deepen: true,
            weights: Weights::default(),
        }
    }
}

impl Default for AiConfig {
    fn default() -> (c: AiConfig)
        ensures
            c == AiConfig::standard(),
    {
        AiConfig::new()
    }
}

/// The material value of a piece in thousandths of a pawn. The king has none.
pub open spec fn piece_worth(kind: PieceType) -> int {
    match kind {
        PieceType::Pawn => 1000,
        PieceType::Knight => 3000,
        PieceType::Bishop => 3000,
        PieceType::Rook => 5000,
        PieceType::Queen => 9000,
        PieceType::King => 0,
    }
}

/// A value counted for White and against Black.
pub open spec fn signed(color: Color, v: int) -> int {
    match color {
        Color::White => v,
        Color::Black => -v,
    }
}

/// How many ranks a pawn on row `r` has advanced from its start row.
pub open spec fn advancement(color: Color, r: int) -> int {
    match color {
        Color::White => r - 1,
        Color::Black => 6 - r,
    }
}

/// Row `rr` lies ahead of a pawn of the given colour on row `r`.
pub open spec fn ahead_of(color: Color, r: int, rr: int) -> bool {
    match color {
        Color::White => r < rr <= 7,
        Color::Black => 0 <= rr < r,
    }
}

impl Position {
    /// White's material minus Black's on the first `n` squares, counted row by
    /// row from a1.
    pub open spec fn material_upto(self, n: int) -> int
        decreases n,
    {
        if n <= 0 {
            0
        } else {
            self.material_upto(n - 1) + match self.at((n - 1) / 8, (n - 1) % 8) {
                Some(p) => signed(p.color, piece_worth(p.piece_type)),
                None => 0,
            }
        }
    }

    /// White's material minus Black's.
    pub open spec fn material(self) -> int {
        self.material_upto(64)
    }

    /// The weight for White if White attacks the square, less the weight if
    /// Black does.
    pub open spec fn attack_balance(self, r: int, c: int, weight: int) -> int {
        (if self.attacked_by(r, c, Color::White) {
            weight
        } else {
            0
        }) - (if self.attacked_by(r, c, Color::Black) {
            weight
        } else {
            0
        })
    }

    /// The weight, for White or against Black, if a piece stands on the square.
    pub open spec fn occupancy(self, r: int, c: int, weight: int) -> int {
        match self.at(r, c) {
            Some(p) => signed(p.color, weight),
            None => 0,
        }
    }

    /// What one of the four centre squares adds: attack balance and occupancy.
    pub open spec fn centre_square(self, r: int, c: int, w: Weights) -> int {
        self.attack_balance(r, c, w.centre_attack as int) + self.occupancy(
            r,
            c,
            w.centre_occupy as int,
        )
    }

    /// What one of the twelve squares around the centre adds: its attack balance.
    pub open spec fn ring_square(self, r: int, c: int, w: Weights) -> int {
        self.attack_balance(r, c, w.extended_centre_attack as int)
    }

    /// Centre control, for White: the four centre squares d4, e4, d5, e5 and the
    /// ring of twelve squares around them.
    pub open spec fn centre_control(self, w: Weights) -> int {
        self.centre_square(3, 3, w) + self.centre_square(3, 4, w) + self.centre_square(4, 3, w)
            + self.centre_square(4, 4, w) + self.ring_square(2, 2, w) + self.ring_square(2, 3, w)
            + self.ring_square(2, 4, w) + self.ring_square(2, 5, w) + self.ring_square(3, 2, w)
            + self.ring_square(3, 5, w) + self.ring_square(4, 2, w) + self.ring_square(4, 5, w)
            + self.ring_square(5, 2, w) + self.ring_square(5, 3, w) + self.ring_square(5, 4, w)
            + self.ring_square(5, 5, w)
    }

    /// The side to move cannot move: the game is over or it has no legal move.
    pub open spec fn stuck(self) -> bool {
        self.game_over || self.legal_moves(self.current_turn).len() == 0
    }

    /// Mate and check, for White: a mate counts `MATE_SCORE` against the side to
    /// move, a stalemate nothing, a check that can be answered the check
    /// penalty against the side to move.
    pub open spec fn mate_term(self, w: Weights) -> int {
        let in_check = self.in_check(self.current_turn);
        if self.stuck() && in_check {
            -signed(self.current_turn, MATE_SCORE as int)
        } else if self.stuck() {
            0
        } else if in_check {
            -signed(self.current_turn, w.check_penalty as int)
        } else {
            0
        }
    }

    /// A pawn of the given colour on `(r, c)` is passed: no enemy pawn stands
    /// ahead of it on its own file or on a file next to it.
    pub open spec fn is_passed(self, r: int, c: int, color: Color) -> bool {
        forall|rr: int, cc: int|
            ahead_of(color, r, rr) && c - 1 <= cc <= c + 1 ==> !#[trigger] self.holds(
                rr,
                cc,
                color.other(),
                PieceType::Pawn,
            )
    }

    /// What the square adds to the pawn score, for White: for a passed pawn the
    /// base weight and the quadratic weight times the square of its advancement,
    /// for another pawn the linear weight times its advancement.
    pub open spec fn pawn_term(self, r: int, c: int, w: Weights) -> int {
        match self.at(r, c) {
            Some(p) => if p.piece_type == PieceType::Pawn {
                let adv = advancement(p.color, r);
                if self.is_passed(r, c, p.color) {
                    signed(p.color, w.passed_pawn_base + adv * adv * w.passed_pawn_quadratic)
                } else {
                    signed(p.color, adv * w.pawn_advance)
                }
            } else {
                0
            },
            None => 0,
        }
    }

    /// The pawn score of the first `n` squares, counted row by row from a1.
    pub open spec fn pawns_upto(self, w: Weights, n: int) -> int
        decreases n,
    {
        if n <= 0 {
            0
        } else {
            self.pawns_upto(w, n - 1) + self.pawn_term((n - 1) / 8, (n - 1) % 8, w)
        }
    }

    /// The pawn score, for White.
    pub open spec fn passed_pawns(self, w: Weights) -> int {
        self.pawns_upto(w, 64)
    }

    /// The draw-avoidance term: the repeat penalty, taken off, if the position's
    /// hash occurs at least twice in its history.
    pub open spec fn draw_penalty(self, w: Weights) -> int {
        if self.repetitions() >= 2 {
            -(w.repeat_penalty as int)
        } else {
            0
        }
    }

    /// The sum, for White, of the modules that are switched on among mate,
    /// material, centre control and pawns.
    pub open spec fn positional(self, config: AiConfig) -> int {
        (if config.mate_module {
            self.mate_term(config.weights)
        } else {
            0
        }) + (if config.material_module {
            self.material()
        } else {
            0
        }) + (if config.centre_module {
            self.centre_control(config.weights)
        } else {
            0
        }) + (if config.passed_pawn_module {
            self.passed_pawns(config.weights)
        } else {
            0
        })
    }

    /// The score of the position seen from one side: the positional sum, negated
    /// for Black, and then the draw-avoidance term, which is the same for both
    /// sides.
    #[verifier::opaque]
    pub open spec fn score(self, perspective: Color, config: AiConfig) -> int {
        signed(perspective, self.positional(config)) + if config.draw_penalty_module {
            self.draw_penalty(config.weights)
        } else {
            0
        }
    }
}

/// The material balance of the first `n` squares is at most nine pawns a square.
pub proof fn lemma_material_bounded(p: Position, n: int)
    requires
        0 <= n <= 64,
    ensures
        -9000 * n <= p.material_upto(n) <= 9000 * n,
    decreases n,
{
    if n > 0 {
        lemma_material_bounded(p, n - 1);
    }
}

/// What one square adds to the pawn score is at most 37 times the largest
/// weight.
pub proof fn lemma_pawn_term_bounded(p: Position, r: int, c: int, w: Weights)
    requires
        0 <= r < 8,
    ensures
        -79_456_894_976 <= p.pawn_term(r, c, w) <= 79_456_894_976,
{
    if p.at(r, c) is Some && p.at(r, c)->0.piece_type == PieceType::Pawn {
        let adv = advancement(p.at(r, c)->0.color, r);
        let quadratic = w.passed_pawn_quadratic as int;
        let linear = w.pawn_advance as int;
        assert(0 <= adv * adv <= 36) by (nonlinear_arith)
            requires
                -1 <= adv <= 6,
        ;
        let squared = adv * adv;
        assert(-36 * 0x8000_0000 <= squared * quadratic <= 36 * 0x8000_0000) by (nonlinear_arith)
            requires
                0 <= squared <= 36,
                -0x8000_0000 <= quadratic <= 0x8000_0000,
        ;
        assert(-6 * 0x8000_0000 <= adv * linear <= 6 * 0x8000_0000) by (nonlinear_arith)
            requires
                -1 <= adv <= 6,
                -0x8000_0000 <= linear <= 0x8000_0000,
        ;
    }
}

/// The pawn score of the first `n` squares is at most 37 times the largest
/// weight a square.
pub proof fn lemma_pawns_bounded(p: Position, w: Weights, n: int)
    requires
        0 <= n <= 64,
    ensures
        -79_456_894_976 * n <= p.pawns_upto(w, n) <= 79_456_894_976 * n,
    decreases n,
{
    if n > 0 {
        lemma_pawns_bounded(p, w, n - 1);
        lemma_pawn_term_bounded(p, (n - 1) / 8, (n - 1) % 8, w);
    }
}

/// An attack balance is at most the weight.
pub proof fn lemma_attack_balance_bounded(p: Position, r: int, c: int, weight: int)
    requires
        -0x8000_0000 <= weight <= 0x8000_0000,
    ensures
        -0x8000_0000 <= p.attack_balance(r, c, weight) <= 0x8000_0000,
{
}

/// What a centre square adds is at most twice the largest weight.
pub proof fn lemma_centre_square_bounded(p: Position, r: int, c: int, w: Weights)
    ensures
        -2 * 0x8000_0000 <= p.centre_square(r, c, w) <= 2 * 0x8000_0000,
{
    lemma_attack_balance_bounded(p, r, c, w.centre_attack as int);
}

/// Centre control is at most twenty times the largest weight.
pub proof fn lemma_centre_bounded(p: Position, w: Weights)
    ensures
        -20 * 0x8000_0000 <= p.centre_control(w) <= 20 * 0x8000_0000,
{
    lemma_centre_square_bounded(p, 3, 3, w);
    lemma_centre_square_bounded(p, 3, 4, w);
    lemma_centre_square_bounded(p, 4, 3, w);
    lemma_centre_square_bounded(p, 4, 4, w);
    let x = w.extended_centre_attack as int;
    lemma_attack_balance_bounded(p, 2, 2, x);
    lemma_attack_balance_bounded(p, 2, 3, x);
    lemma_attack_balance_bounded(p, 2, 4, x);
    lemma_attack_balance_bounded(p, 2, 5, x);
    lemma_attack_balance_bounded(p, 3, 2, x);
    lemma_attack_balance_bounded(p, 3, 5, x);
    lemma_attack_balance_bounded(p, 4, 2, x);
    lemma_attack_balance_bounded(p, 4, 5, x);
    lemma_attack_balance_bounded(p, 5, 2, x);
    lemma_attack_balance_bounded(p, 5, 3, x);
    lemma_attack_balance_bounded(p, 5, 4, x);
    lemma_attack_balance_bounded(p, 5, 5, x);
}

/// The positional sum is at most 2390 times the largest weight.
pub proof fn lemma_positional_bounded(p: Position, config: AiConfig)
    ensures
        -2390 * 0x8000_0000 <= p.positional(config) <= 2390 * 0x8000_0000,
{
    let w = config.weights;
    lemma_material_bounded(p, 64);
    lemma_pawns_bounded(p, w, 64);
    lemma_centre_bounded(p, w);
    assert(-0x8000_0000 <= p.mate_term(w) <= 0x8000_0000);
}

/// Every score lies within the score limit.
pub proof fn lemma_score_bounded(p: Position, perspective: Color, config: AiConfig)
    ensures
        -SCORE_LIMIT < p.score(perspective, config) < SCORE_LIMIT,
{
    reveal(Position::score);
    lemma_positional_bounded(p, config);
    assert(-0x8000_0000 <= p.draw_penalty(config.weights) <= 0x8000_0000);
}

/// The material value of a piece in thousandths of a pawn.
pub fn piece_value(kind: PieceType) -> (v: i64)
    ensures
        v == piece_worth(kind),
{
    match kind {
        PieceType::Pawn => 1000,
        PieceType::Knight => 3000,
        PieceType::Bishop => 3000,
        PieceType::Rook => 5000,
        PieceType::Queen => 9000,
        PieceType::King => 0,
    }
}

/// White's material minus Black's.
pub fn eval_material(board: &Board) -> (score: i64)
    ensures
        score == board@.material(),
        -576_000 <= score <= 576_000,
{
    let mut score: i64 = 0;
    let mut idx: usize = 0;
    while idx < 64
        invariant
            idx <= 64,
            score == board@.material_upto(idx as int),
            -9000 * idx <= score <= 9000 * idx,
        decreases 64 - idx,
    {
        if let Some(p) = board.squares[idx / 8][idx % 8] {
            let v = piece_value(p.piece_type);
            if p.color == Color::White {
                score += v;
            } else {
                score -= v;
            }
        }
        idx += 1;
    }
    score
}

/// The weight for White if White attacks the square, less the weight if Black
/// does.
fn attack_balance(board: &Board, row: usize, col: usize, weight: i32) -> (score: i64)
    requires
        row < 8,
        col < 8,
    ensures
        score == board@.attack_balance(row as int, col as int, weight as int),
        -weight_limit() <= score <= weight_limit(),
{
    let mut score: i64 = 0;
    if board.is_square_attacked_by(row, col, Color::White) {
        score += weight as i64;
    }
    if board.is_square_attacked_by(row, col, Color::Black) {
        score -= weight as i64;
    }
    score
}

/// What one of the four centre squares adds.
fn centre_square(board: &Board, row: usize, col: usize, w: &Weights) -> (score: i64)
    requires
        row < 8,
        col < 8,
    ensures
        score == board@.centre_square(row as int, col as int, *w),
        -2 * weight_limit() <= score <= 2 * weight_limit(),
{
    let mut score: i64 = attack_balance(board, row, col, w.centre_attack);
    if let Some(p) = board.squares[row][col] {
        if p.color == Color::White {
            score += w.centre_occupy as i64;
        } else {
            score -= w.centre_occupy as i64;
        }
    }
    score
}

/// Centre control, for White.
pub fn eval_centre_control(board: &Board, w: &Weights) -> (score: i64)
    ensures
        score == board@.centre_control(*w),
        -20 * weight_limit() <= score <= 20 * weight_limit(),
{
    let inner: i64 = centre_square(board, 3, 3, w) + centre_square(board, 3, 4, w) + centre_square(
        board,
        4,
        3,
        w,
    ) + centre_square(board, 4, 4, w);
    let x = w.extended_centre_attack;
    let ring: i64 = attack_balance(board, 2, 2, x) + attack_balance(board, 2, 3, x) + attack_balance(
        board,
        2,
        4,
        x,
    ) + attack_balance(board, 2, 5, x) + attack_balance(board, 3, 2, x) + attack_balance(
        board,
        3,
        5,
        x,
    ) + attack_balance(board, 4, 2, x) + attack_balance(board, 4, 5, x) + attack_balance(
        board,
        5,
        2,
        x,
    ) + attack_balance(board, 5, 3, x) + attack_balance(board, 5, 4, x) + attack_balance(
        board,
        5,
        5,
        x,
    );
    inner + ring
}

/// Mate and check, for White.
pub fn eval_mate(board: &Board, w: &Weights) -> (score: i64)
    ensures
        score == board@.mate_term(*w),
        -weight_limit() <= score <= weight_limit(),
{
    let in_check = board.is_in_check(board.current_turn);
    let no_moves = board.game_over || board.generate_legal_moves(board.current_turn).len() == 0;
    if no_moves && in_check {
        if board.current_turn == Color::White {
            -MATE_SCORE
        } else {
            MATE_SCORE
        }
    } else if no_moves {
        0
    } else if in_check {
        if board.current_turn == Color::White {
            -(w.check_penalty as i64)
        } else {
            w.check_penalty as i64
        }
    } else {
        0
    }
}

/// An enemy pawn stands on the row, on the pawn's file or on one next to it.
fn enemy_pawn_on_row(board: &Board, row: usize, col: usize, enemy: Color) -> (b: bool)
    requires
        row < 8,
        col < 8,
    ensures
        b == exists|cc: int|
            col - 1 <= cc <= col + 1 && #[trigger] board@.holds(
                row as int,
                cc,
                enemy,
                PieceType::Pawn,
            ),
{
    let r: i32 = row as i32;
    let c: i32 = col as i32;
    let left = board.has_piece(r, c - 1, enemy, PieceType::Pawn);
    let mid = board.has_piece(r, c, enemy, PieceType::Pawn);
    let right = board.has_piece(r, c + 1, enemy, PieceType::Pawn);
    left || mid || right
}

/// Whether a pawn of the given colour on the square is passed: no enemy pawn
/// stands ahead of it on its own file or on a file next to it.
pub fn is_passed_pawn(board: &Board, row: usize, col: usize, color: Color) -> (b: bool)
    requires
        row < 8,
        col < 8,
    ensures
        b == board@.is_passed(row as int, col as int, color),
{
    let enemy = color.opposite();
    match color {
        Color::White => {
            let mut r: usize = row + 1;
            while r <= 7
                invariant
                    row < r <= 8,
                    col < 8,
                    enemy == color.other(),
                    color == Color::White,
                    forall|rr: int, cc: int|
                        row < rr < r && col - 1 <= cc <= col + 1 ==> !#[trigger] board@.holds(
                            rr,
                            cc,
                            enemy,
                            PieceType::Pawn,
                        ),
                decreases 8 - r,
            {
                if enemy_pawn_on_row(board, r, col, enemy) {
                    return false;
                }
                r += 1;
            }
            true
        },
        Color::Black => {
            let mut r: usize = row;
            while r > 0
                invariant
                    r <= row < 8,
                    col < 8,
                    enemy == color.other(),
                    color == Color::Black,
                    forall|rr: int, cc: int|
                        r <= rr < row && col - 1 <= cc <= col + 1 ==> !#[trigger] board@.holds(
                            rr,
                            cc,
                            enemy,
                            PieceType::Pawn,
                        ),
                decreases r,
            {
                r -= 1;
                if enemy_pawn_on_row(board, r, col, enemy) {
                    return false;
                }
            }
            true
        },
    }
}

/// What the square adds to the pawn score, for White.
fn pawn_term(board: &Board, row: usize, col: usize, w: &Weights) -> (score: i64)
    requires
        row < 8,
        col < 8,
    ensures
        score == board@.pawn_term(row as int, col as int, *w),
        -37 * weight_limit() <= score <= 37 * weight_limit(),
{
    let p = match board.squares[row][col] {
        Some(p) => p,
        None => {
            return 0;
        },
    };
    if p.piece_type != PieceType::Pawn {
        return 0;
    }
    let advance: i64 = match p.color {
        Color::White => row as i64 - 1,
        Color::Black => 6 - row as i64,
    };
    let value: i64 = if is_passed_pawn(board, row, col, p.color) {
        assert(0 <= advance * advance <= 36) by (nonlinear_arith)
            requires
                -1 <= advance <= 6,
        ;
        let squared: i64 = advance * advance;
        let quadratic: i64 = w.passed_pawn_quadratic as i64;
        assert(-36 * weight_limit() <= squared * quadratic <= 36 * weight_limit())
            by (nonlinear_arith)
            requires
                0 <= squared <= 36,
                -weight_limit() <= quadratic <= weight_limit(),
        ;
        w.passed_pawn_base as i64 + squared * quadratic
    } else {
        let linear: i64 = w.pawn_advance as i64;
        assert(-6 * weight_limit() <= advance * linear <= 6 * weight_limit()) by (nonlinear_arith)
            requires
                -1 <= advance <= 6,
                -weight_limit() <= linear <= weight_limit(),
        ;
        advance * linear
    };
    if p.color == Color::White {
        value
    } else {
        -value
    }
}

/// The pawn score, for White.
pub fn eval_passed_pawns(board: &Board, w: &Weights) -> (score: i64)
    ensures
        score == board@.passed_pawns(*w),
        -2368 * weight_limit() <= score <= 2368 * weight_limit(),
{
    let mut score: i64 = 0;
    let mut idx: usize = 0;
    while idx < 64
        invariant
            idx <= 64,
            score == board@.pawns_upto(*w, idx as int),
            -79_456_894_976 * idx <= score <= 79_456_894_976 * idx,
        decreases 64 - idx,
    {
        score += pawn_term(board, idx / 8, idx % 8, w);
        idx += 1;
    }
    score
}

/// The draw-avoidance term.
pub fn eval_draw_penalty(board: &Board, w: &Weights) -> (score: i64)
    ensures
        score == board@.draw_penalty(*w),
        -weight_limit() <= score <= weight_limit(),
{
    if board.repetition_count() >= 2 {
        -(w.repeat_penalty as i64)
    } else {
        0
    }
}

/// The sum, for White, of the modules that are switched on among mate,
/// material, centre control and pawns.
fn eval_positional(board: &Board, config: &AiConfig) -> (score: i64)
    ensures
        score == board@.positional(*config),
        -2390 * weight_limit() <= score <= 2390 * weight_limit(),
{
    let mut score: i64 = 0;
    if config.mate_module {
        score += eval_mate(board, &config.weights);
    }
    if config.material_module {
        score += eval_material(board);
    }
    if config.centre_module {
        score += eval_centre_control(board, &config.weights);
    }
    if config.passed_pawn_module {
        score += eval_passed_pawns(board, &config.weights);
    }
    score
}

/// The score of the board seen from `ai_color`: the modules that are switched
/// on, summed for White and negated for Black, and then the draw-avoidance term.
pub fn evaluate(board: &Board, ai_color: Color, config: &AiConfig) -> (score: i64)
    ensures
        score == board@.score(ai_color, *config),
        -SCORE_LIMIT < score < SCORE_LIMIT,
{
    proof {
        reveal(Position::score);
    }
    let mut score: i64 = eval_positional(board, config);
    if ai_color == Color::Black {
        score = -score;
    }
    if config.draw_penalty_module {
        score += eval_draw_penalty(board, &config.weights);
    }
    score
}

/// What each module adds to the score seen from `ai_color`, and the sum, which
/// is the score.
pub fn evaluate_breakdown(board: &Board, ai_color: Color, config: &AiConfig) -> (b: EvalBreakdown)
    ensures
        b.mate == signed(
            ai_color,
            if config.mate_module {
                board@.mate_term(config.weights)
            } else {
                0
            },
        ),
        b.material == signed(
            ai_color,
            if config.material_module {
                board@.material()
            } else {
                0
            },
        ),
        b.centre == signed(
            ai_color,
            if config.centre_module {
                board@.centre_control(config.weights)
            } else {
                0
            },
        ),
        b.passed_pawns == signed(
            ai_color,
            if config.passed_pawn_module {
                board@.passed_pawns(config.weights)
            } else {
                0
            },
        ),
        b.draw_penalty == (if config.draw_penalty_module {
            board@.draw_penalty(config.weights)
        } else {
            0
        }),
        b.total == board@.score(ai_color, *config),
        b.total == b.mate + b.material + b.centre + b.passed_pawns + b.draw_penalty,
{
    proof {
        reveal(Position::score);
    }
    let white = ai_color == Color::White;
    let mate_white: i64 = if config.mate_module {
        eval_mate(board, &config.weights)
    } else {
        0
    };
    let material_white: i64 = if config.material_module {
        eval_material(board)
    } else {
        0
    };
    let centre_white: i64 = if config.centre_module {
        eval_centre_control(board, &config.weights)
    } else {
        0
    };
    let pawns_white: i64 = if config.passed_pawn_module {
        eval_passed_pawns(board, &config.weights)
    } else {
        0
    };
    let mate: i64 = if white {
        mate_white
    } else {
        -mate_white
    };
    let material: i64 = if white {
        material_white
    } else {
        -material_white
    };
    let centre: i64 = if white {
        centre_white
    } else {
        -centre_white
    };
    let passed_pawns: i64 = if white {
        pawns_white
    } else {
        -pawns_white
    };
    let draw_penalty: i64 = if config.draw_penalty_module {
        eval_draw_penalty(board, &config.weights)
    } else {
        0
    };
    let total: i64 = mate + material + centre + passed_pawns + draw_penalty;
    EvalBreakdown { mate, material, centre, passed_pawns, draw_penalty, total }
}

} // verus!

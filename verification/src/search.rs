//! The search: move ordering, negamax with alpha-beta pruning, and the choice of
//! a move.

use vstd::prelude::*;
use crate::board::Board;
use crate::eval::{evaluate, AiConfig, SCORE_LIMIT};
use crate::moves::Move;
use crate::piece::PieceType;
use crate::position::Position;

verus! {

/// A move with the score that the search gave it.
#[derive(Clone, Copy, Debug)]
pub struct ScoredMove {
    pub mv: Move,
    pub score: i64,
}

/// The move that the search chose and the number of positions it evaluated.
#[derive(Clone, Copy, Debug)]
pub struct PickResult {
    pub mv: Move,
    pub evals: u64,
}

/// Stands for a bound that no score reaches.
pub const SCORE_INF: i64 = 0x4000_0000_0000_0000;

/// While a search has evaluated fewer positions than this, it may deepen.
pub const MIN_EVALS: u64 = 100_000;

/// A search does not deepen by itself beyond this many plies.
pub const MAX_AUTO_PLIES: u32 = 6;

/// Scores closer than this to the best score count as equal to it.
pub const SCORE_TOLERANCE: i64 = 1;

/// The value of a piece in whole pawns, as move ordering counts it.
pub open spec fn points(kind: PieceType) -> int {
    match kind {
        PieceType::Pawn => 1,
        PieceType::Knight => 3,
        PieceType::Bishop => 3,
        PieceType::Rook => 5,
        PieceType::Queen => 9,
        PieceType::King => 0,
    }
}

/// A count raised by a number, or the largest count there is where the sum
/// would pass it.
pub open spec fn raised(count: u64, by: nat) -> u64 {
    if count + by > u64::MAX {
        u64::MAX
    } else {
        (count + by) as u64
    }
}

/// The larger of two numbers.
pub open spec fn larger(a: int, b: int) -> int {
    if a >= b {
        a
    } else {
        b
    }
}

impl Position {
    /// The priority of a move in the search order: 900 and the new piece's
    /// points for a promotion; for a capture 100 and ten times the victim's
    /// points less the attacker's; both for a capturing promotion; 0 for any
    /// other move.
    pub open spec fn priority(self, m: Move) -> int {
        (match m.promotion {
            Some(kind) => 900 + points(kind),
            None => 0,
        }) + (match self.at(m.to.0 as int, m.to.1 as int) {
            Some(victim) => 100 + points(victim.piece_type) * 10 - (match self.at(
                m.from.0 as int,
                m.from.1 as int,
            ) {
                Some(attacker) => points(attacker.piece_type),
                None => 0,
            }),
            None => 0,
        })
    }

    /// Where a move goes into a list that is ordered already: behind the last
    /// move whose priority is not lower than its own.
    pub open spec fn slot(self, sorted: Seq<Move>, m: Move) -> int
        decreases sorted.len(),
    {
        if sorted.len() == 0 {
            0
        } else if self.priority(sorted.last()) >= self.priority(m) {
            sorted.len() as int
        } else {
            self.slot(sorted.drop_last(), m)
        }
    }

    /// The moves in search order: by falling priority, moves of equal priority
    /// in the order in which they came.
    pub open spec fn ordered(self, moves: Seq<Move>) -> Seq<Move>
        decreases moves.len(),
    {
        if moves.len() == 0 {
            moves
        } else {
            let head = self.ordered(moves.drop_last());
            head.insert(self.slot(head, moves.last()), moves.last())
        }
    }

    /// The legal moves of the side to move, in search order.
    pub open spec fn candidates(self) -> Seq<Move> {
        self.ordered(self.legal_moves(self.current_turn))
    }

    /// What negamax with alpha-beta pruning returns for a position, and how many
    /// positions it evaluates: at depth 0, in a finished game or without a legal
    /// move the position's score for the side to move, one evaluation; else
    /// what the walk over the candidates gives.
    pub open spec fn alpha_beta(self, depth: nat, alpha: int, beta: int, config: AiConfig) -> (
        int,
        nat,
    )
        decreases depth, 1int, 0int,
    {
        if depth == 0 || self.game_over || self.candidates().len() == 0 {
            (self.score(self.current_turn, config), 1)
        } else {
            self.alpha_beta_from(0, depth, alpha, beta, -(SCORE_INF as int), config)
        }
    }

    /// The walk over the candidates from index `i` on, `best` being the best
    /// score so far: each candidate is played and searched one ply less deep
    /// with the window negated and swapped, and its score is the result
    /// negated. The walk ends early as soon as a score reaches `beta`.
    pub open spec fn alpha_beta_from(
        self,
        i: int,
        depth: nat,
        alpha: int,
        beta: int,
        best: int,
        config: AiConfig,
    ) -> (int, nat)
        decreases depth, 0int, self.candidates().len() - i,
    {
        let moves = self.candidates();
        if i < 0 || i >= moves.len() || depth == 0 {
            (best, 0)
        } else {
            let child = self.played(moves[i]).alpha_beta((depth - 1) as nat, -beta, -alpha, config);
            let score = -child.0;
            let best_now = larger(best, score);
            let alpha_now = larger(alpha, score);
            if alpha_now >= beta {
                (best_now, child.1)
            } else {
                let rest = self.alpha_beta_from(i + 1, depth, alpha_now, beta, best_now, config);
                (rest.0, child.1 + rest.1)
            }
        }
    }
}

/// The search depth in plies that a configuration asks for: twice its depth in
/// full moves, or the largest number of plies there is where that is less.
pub open spec fn base_plies(config: AiConfig) -> nat {
    if config.depth > u32::MAX / 2 {
        u32::MAX as nat
    } else {
        (config.depth * 2) as nat
    }
}

impl Position {
    /// The search of one candidate at the root: the candidate is played and the
    /// position searched one ply less deep, or at depth 0 if no ply is left,
    /// with the widest window. The candidate's score is the result negated.
    pub open spec fn root_search(self, m: Move, plies: nat, config: AiConfig) -> (int, nat) {
        let below: nat = if plies > 0 {
            (plies - 1) as nat
        } else {
            0
        };
        let child = self.played(m).alpha_beta(
            below,
            -(SCORE_INF as int),
            SCORE_INF as int,
            config,
        );
        (-child.0, child.1)
    }

    /// How many positions the root searches of the given moves evaluate
    /// together.
    pub open spec fn root_evals(self, moves: Seq<Move>, plies: nat, config: AiConfig) -> nat
        decreases moves.len(),
    {
        if moves.len() == 0 {
            0
        } else {
            self.root_evals(moves.drop_last(), plies, config) + self.root_search(
                moves.last(),
                plies,
                config,
            ).1
        }
    }

    /// The depth at which the search settles when it starts at `plies`: with
    /// deepening switched on it goes one ply deeper as long as it has evaluated
    /// fewer than `MIN_EVALS` positions and has not reached `MAX_AUTO_PLIES`.
    pub open spec fn settled_plies(self, plies: nat, config: AiConfig) -> nat
        decreases MAX_AUTO_PLIES - plies,
    {
        if config.auto_deepen && self.root_evals(self.candidates(), plies, config) < MIN_EVALS
            && plies < MAX_AUTO_PLIES {
            self.settled_plies(plies + 1, config)
        } else {
            plies
        }
    }

    /// The depth in plies of the search that decides.
    pub open spec fn search_plies(self, config: AiConfig) -> nat {
        self.settled_plies(base_plies(config), config)
    }

    /// The best score among the given moves, searched at the root.
    pub open spec fn best_root_score(self, moves: Seq<Move>, plies: nat, config: AiConfig) -> int
        decreases moves.len(),
    {
        if moves.len() == 0 {
            -(SCORE_INF as int)
        } else {
            larger(
                self.best_root_score(moves.drop_last(), plies, config),
                self.root_search(moves.last(), plies, config).0,
            )
        }
    }

    /// The candidate's score is less than the tolerance away from the best
    /// score of all candidates.
    pub open spec fn near_best(self, m: Move, plies: nat, config: AiConfig) -> bool {
        self.best_root_score(self.candidates(), plies, config) - self.root_search(
            m,
            plies,
            config,
        ).0 < SCORE_TOLERANCE
    }

    /// The highest priority among those of the given moves whose score is near
    /// the best.
    pub open spec fn top_priority(self, moves: Seq<Move>, plies: nat, config: AiConfig) -> int
        decreases moves.len(),
    {
        if moves.len() == 0 {
            0
        } else {
            let rest = self.top_priority(moves.drop_last(), plies, config);
            if self.near_best(moves.last(), plies, config) {
                larger(rest, self.priority(moves.last()))
            } else {
                rest
            }
        }
    }

    /// The move is one of those between which chance decides when the search is
    /// `plies` deep: its score is near the best, and no move with such a score
    /// has a higher priority.
    pub open spec fn is_top(self, m: Move, plies: nat, config: AiConfig) -> bool {
        self.near_best(m, plies, config) && self.priority(m) == self.top_priority(
            self.candidates(),
            plies,
            config,
        )
    }

    /// The test that a candidate has to pass for chance to decide on it.
    pub open spec fn top_test(self, plies: nat, config: AiConfig) -> spec_fn(Move) -> bool {
        |m: Move| self.is_top(m, plies, config)
    }

    /// The moves between which chance decides when the search is `plies` deep,
    /// in search order.
    pub open spec fn top_moves_at(self, plies: nat, config: AiConfig) -> Seq<Move> {
        self.candidates().filter(self.top_test(plies, config))
    }

    /// The moves between which chance decides, in search order.
    pub open spec fn top_moves(self, config: AiConfig) -> Seq<Move> {
        self.top_moves_at(self.search_plies(config), config)
    }

    /// How many positions the search that decides evaluates.
    pub open spec fn search_evals(self, config: AiConfig) -> nat {
        self.root_evals(self.candidates(), self.search_plies(config), config)
    }
}

/// One step of the walk over the candidates, written out.
pub proof fn lemma_walk_step(
    p: Position,
    i: int,
    depth: nat,
    alpha: int,
    beta: int,
    best: int,
    config: AiConfig,
)
    requires
        0 <= i < p.candidates().len(),
        depth > 0,
    ensures
        ({
            let child = p.played(p.candidates()[i]).alpha_beta(
                (depth - 1) as nat,
                -beta,
                -alpha,
                config,
            );
            let best_now = larger(best, -child.0);
            let alpha_now = larger(alpha, -child.0);
            let rest = p.alpha_beta_from(i + 1, depth, alpha_now, beta, best_now, config);
            p.alpha_beta_from(i, depth, alpha, beta, best, config) == if alpha_now >= beta {
                (best_now, child.1)
            } else {
                (rest.0, child.1 + rest.1)
            }
        }),
{
}

/// The walk over the candidates ends behind the last of them.
pub proof fn lemma_walk_end(
    p: Position,
    depth: nat,
    alpha: int,
    beta: int,
    best: int,
    config: AiConfig,
)
    ensures
        p.alpha_beta_from(p.candidates().len() as int, depth, alpha, beta, best, config) == (
            best,
            0nat,
        ),
{
}

/// Raising a count twice is raising it by the sum.
pub proof fn lemma_raised_twice(count: u64, a: nat, b: nat)
    ensures
        raised(raised(count, a), b) == raised(count, a + b),
{
}

/// A priority is never negative.
pub proof fn lemma_priority_range(p: Position, m: Move)
    ensures
        0 <= p.priority(m) <= 1100,
{
}

/// The best root score of some moves is the score of one of them, and none of
/// them scores higher.
pub proof fn lemma_best_root_score(p: Position, moves: Seq<Move>, plies: nat, config: AiConfig)
    ensures
        forall|i: int|
            0 <= i < moves.len() ==> p.root_search(#[trigger] moves[i], plies, config).0
                <= p.best_root_score(moves, plies, config),
        moves.len() > 0 ==> exists|i: int|
            0 <= i < moves.len() && p.root_search(#[trigger] moves[i], plies, config).0
                == p.best_root_score(moves, plies, config),
        moves.len() == 0 ==> p.best_root_score(moves, plies, config) == -SCORE_INF,
        p.best_root_score(moves, plies, config) >= -SCORE_INF,
    decreases moves.len(),
{
    if moves.len() > 0 {
        let head = moves.drop_last();
        lemma_best_root_score(p, head, plies, config);
        lemma_root_scores_bounded(p, plies, config);
        let last = moves.len() - 1;
        assert forall|i: int| 0 <= i < moves.len() implies p.root_search(
            #[trigger] moves[i],
            plies,
            config,
        ).0 <= p.best_root_score(moves, plies, config) by {
            if i < last {
                assert(moves[i] == head[i]);
            }
        }
        if p.root_search(moves[last], plies, config).0 >= p.best_root_score(head, plies, config) {
            assert(p.root_search(moves[last], plies, config).0 == p.best_root_score(
                moves,
                plies,
                config,
            ));
        } else {
            let k = choose|k: int|
                0 <= k < head.len() && p.root_search(#[trigger] head[k], plies, config).0
                    == p.best_root_score(head, plies, config);
            assert(moves[k] == head[k]);
        }
    }
}

/// The top priority of some moves is not negative, no move near the best has a
/// higher priority, and if a move is near the best, one such move has the top
/// priority.
pub proof fn lemma_top_priority(p: Position, moves: Seq<Move>, plies: nat, config: AiConfig)
    ensures
        0 <= p.top_priority(moves, plies, config),
        forall|i: int|
            0 <= i < moves.len() && p.near_best(#[trigger] moves[i], plies, config) ==> p.priority(
                moves[i],
            ) <= p.top_priority(moves, plies, config),
        (exists|i: int| 0 <= i < moves.len() && p.near_best(#[trigger] moves[i], plies, config))
            ==> exists|i: int|
            0 <= i < moves.len() && p.near_best(#[trigger] moves[i], plies, config) && p.priority(
                moves[i],
            ) == p.top_priority(moves, plies, config),
    decreases moves.len(),
{
    if moves.len() > 0 {
        let head = moves.drop_last();
        let last = moves.len() - 1;
        lemma_top_priority(p, head, plies, config);
        lemma_priority_range(p, moves[last]);
        assert forall|i: int|
            0 <= i < moves.len() && p.near_best(#[trigger] moves[i], plies, config) implies p.priority(
            moves[i],
        ) <= p.top_priority(moves, plies, config) by {
            if i < last {
                assert(moves[i] == head[i]);
            }
        }
        if exists|i: int| 0 <= i < moves.len() && p.near_best(#[trigger] moves[i], plies, config) {
            if p.near_best(moves[last], plies, config) && p.priority(moves[last]) >= p.top_priority(
                head,
                plies,
                config,
            ) {
                assert(p.near_best(moves[last], plies, config) && p.priority(moves[last])
                    == p.top_priority(moves, plies, config));
            } else {
                let w = choose|i: int|
                    0 <= i < moves.len() && p.near_best(#[trigger] moves[i], plies, config);
                if w < last {
                    assert(moves[w] == head[w]);
                } else {
                    lemma_priority_range(p, moves[last]);
                }
                if exists|i: int|
                    0 <= i < head.len() && p.near_best(#[trigger] head[i], plies, config) {
                    let k = choose|i: int|
                        0 <= i < head.len() && p.near_best(#[trigger] head[i], plies, config)
                            && p.priority(head[i]) == p.top_priority(head, plies, config);
                    assert(moves[k] == head[k]);
                    assert(p.near_best(moves[k], plies, config) && p.priority(moves[k])
                        == p.top_priority(moves, plies, config));
                } else {
                    assert(w == last);
                    assert(forall|i: int| 0 <= i < head.len() ==> !p.near_best(#[trigger] head[i], plies, config));
                    lemma_top_priority_none(p, head, plies, config);
                    assert(p.near_best(moves[last], plies, config) && p.priority(moves[last])
                        == p.top_priority(moves, plies, config));
                }
            }
        }
    }
}

/// Where no move is near the best, the top priority is 0.
pub proof fn lemma_top_priority_none(p: Position, moves: Seq<Move>, plies: nat, config: AiConfig)
    requires
        forall|i: int| 0 <= i < moves.len() ==> !p.near_best(#[trigger] moves[i], plies, config),
    ensures
        p.top_priority(moves, plies, config) == 0,
    decreases moves.len(),
{
    if moves.len() > 0 {
        let head = moves.drop_last();
        assert forall|i: int| 0 <= i < head.len() implies !p.near_best(
            #[trigger] head[i],
            plies,
            config,
        ) by {
            assert(head[i] == moves[i]);
        }
        lemma_top_priority_none(p, head, plies, config);
        assert(!p.near_best(moves[moves.len() - 1], plies, config));
    }
}

/// Where there is a candidate, chance has at least one move to decide between.
pub proof fn lemma_top_moves_exist(p: Position, plies: nat, config: AiConfig)
    requires
        p.candidates().len() > 0,
    ensures
        p.top_moves_at(plies, config).len() > 0,
{
    let moves = p.candidates();
    lemma_best_root_score(p, moves, plies, config);
    let b = choose|i: int|
        0 <= i < moves.len() && p.root_search(#[trigger] moves[i], plies, config).0
            == p.best_root_score(moves, plies, config);
    assert(p.near_best(moves[b], plies, config));
    lemma_top_priority(p, moves, plies, config);
    let k = choose|i: int|
        0 <= i < moves.len() && p.near_best(#[trigger] moves[i], plies, config) && p.priority(
            moves[i],
        ) == p.top_priority(moves, plies, config);
    let test = p.top_test(plies, config);
    assert(test(moves[k]));
    moves.lemma_filter_contains(test, k);
}

/// What alpha-beta returns lies within the score limit.
pub proof fn lemma_alpha_beta_bounded(p: Position, depth: nat, alpha: int, beta: int, config: AiConfig)
    ensures
        -SCORE_LIMIT < p.alpha_beta(depth, alpha, beta, config).0 < SCORE_LIMIT,
        p.alpha_beta(depth, alpha, beta, config).1 >= 1,
    decreases depth, 1int, 0int,
{
    if depth == 0 || p.game_over || p.candidates().len() == 0 {
        crate::eval::lemma_score_bounded(p, p.current_turn, config);
    } else {
        lemma_walk_bounded(p, 0, depth, alpha, beta, -(SCORE_INF as int), config);
    }
}

/// What the walk over the candidates returns lies within the score limit once
/// a candidate has been searched, and every candidate searched is counted.
pub proof fn lemma_walk_bounded(
    p: Position,
    i: int,
    depth: nat,
    alpha: int,
    beta: int,
    best: int,
    config: AiConfig,
)
    requires
        0 <= i <= p.candidates().len(),
        depth > 0,
        best == -SCORE_INF || -SCORE_LIMIT < best < SCORE_LIMIT,
    ensures
        ({
            let r = p.alpha_beta_from(i, depth, alpha, beta, best, config);
            &&& r.0 == -SCORE_INF || -SCORE_LIMIT < r.0 < SCORE_LIMIT
            &&& i < p.candidates().len() ==> -SCORE_LIMIT < r.0 < SCORE_LIMIT && r.1 >= 1
            &&& i == p.candidates().len() ==> r.0 == best
        }),
    decreases depth, 0int, p.candidates().len() - i,
{
    if i < p.candidates().len() {
        let child = p.played(p.candidates()[i]).alpha_beta((depth - 1) as nat, -beta, -alpha, config);
        lemma_alpha_beta_bounded(p.played(p.candidates()[i]), (depth - 1) as nat, -beta, -alpha, config);
        lemma_walk_step(p, i, depth, alpha, beta, best, config);
        let best_now = larger(best, -child.0);
        let alpha_now = larger(alpha, -child.0);
        if alpha_now < beta {
            lemma_walk_bounded(p, i + 1, depth, alpha_now, beta, best_now, config);
        }
    } else {
        lemma_walk_end(p, depth, alpha, beta, best, config);
    }
}

/// The scores of the root searches lie within the score limit.
pub proof fn lemma_root_scores_bounded(p: Position, plies: nat, config: AiConfig)
    ensures
        forall|m: Move|
            -SCORE_LIMIT < (#[trigger] p.root_search(m, plies, config)).0 < SCORE_LIMIT
                && p.root_search(m, plies, config).1 >= 1,
{
    assert forall|m: Move|
        -SCORE_LIMIT < (#[trigger] p.root_search(m, plies, config)).0 < SCORE_LIMIT && p.root_search(
            m,
            plies,
            config,
        ).1 >= 1 by {
        let below: nat = if plies > 0 {
            (plies - 1) as nat
        } else {
            0
        };
        lemma_alpha_beta_bounded(p.played(m), below, -(SCORE_INF as int), SCORE_INF as int, config);
    }
}

/// Ordering moves only rearranges them.
pub proof fn lemma_ordered_permutes(p: Position, moves: Seq<Move>)
    ensures
        p.ordered(moves).to_multiset() == moves.to_multiset(),
    decreases moves.len(),
{
    broadcast use vstd::seq_lib::group_to_multiset_ensures;

    if moves.len() > 0 {
        let head = p.ordered(moves.drop_last());
        lemma_ordered_permutes(p, moves.drop_last());
        lemma_slot_in_range(p, head, moves.last());
        assert(moves =~= moves.drop_last().push(moves.last()));
        vstd::seq_lib::to_multiset_insert(head, p.slot(head, moves.last()), moves.last());
        vstd::seq_lib::to_multiset_build(moves.drop_last(), moves.last());
    }
}

/// Every move between which chance decides is a legal move of the side to move.
pub proof fn lemma_top_moves_legal(p: Position, config: AiConfig)
    ensures
        forall|m: Move|
            p.top_moves(config).contains(m) ==> #[trigger] p.legal_moves(p.current_turn).contains(m),
{
    broadcast use vstd::seq_lib::group_to_multiset_ensures;

    let legal = p.legal_moves(p.current_turn);
    let test = p.top_test(p.search_plies(config), config);
    lemma_ordered_permutes(p, legal);
    let top = p.candidates().filter(test);
    assert(p.top_moves(config) == top);
    assert forall|m: Move| p.top_moves(config).contains(m) implies #[trigger] legal.contains(m) by {
        p.candidates().lemma_filter_contains_rev(test, m);
        assert(p.candidates().contains(m));
        assert(p.candidates().to_multiset().count(m) > 0);
        assert(legal.to_multiset().count(m) > 0);
    }
}

/// A search that has a candidate evaluates at least one position.
pub proof fn lemma_search_evals_positive(p: Position, config: AiConfig)
    requires
        p.candidates().len() > 0,
    ensures
        p.search_evals(config) >= 1,
{
    lemma_root_scores_bounded(p, p.search_plies(config), config);
}

/// The value of a piece in whole pawns, as move ordering counts it.
fn piece_points(kind: PieceType) -> (v: i32)
    ensures
        v == points(kind),
{
    match kind {
        PieceType::Pawn => 1,
        PieceType::Knight => 3,
        PieceType::Bishop => 3,
        PieceType::Rook => 5,
        PieceType::Queen => 9,
        PieceType::King => 0,
    }
}

/// The priority of a move in the search order. Higher is searched first.
pub fn move_priority(board: &Board, mv: &Move) -> (p: i32)
    requires
        mv.on_board(),
    ensures
        p == board@.priority(*mv),
        0 <= p <= 1100,
{
    let mut score: i32 = 0;
    if let Some(promo) = mv.promotion {
        score += 900 + piece_points(promo);
    }
    if let Some(victim) = board.squares[mv.to.0][mv.to.1] {
        let attacker: i32 = match board.squares[mv.from.0][mv.from.1] {
            Some(p) => piece_points(p.piece_type),
            None => 0,
        };
        score += 100 + piece_points(victim.piece_type) * 10 - attacker;
    }
    score
}

/// Every move of the sequence lies on the board.
pub open spec fn all_on_board(moves: Seq<Move>) -> bool {
    forall|i: int| 0 <= i < moves.len() ==> (#[trigger] moves[i]).on_board()
}

/// Ordering keeps the number of moves, and every move on the board.
pub proof fn lemma_ordered_on_board(p: Position, moves: Seq<Move>)
    requires
        all_on_board(moves),
    ensures
        all_on_board(p.ordered(moves)),
        p.ordered(moves).len() == moves.len(),
    decreases moves.len(),
{
    if moves.len() > 0 {
        lemma_ordered_on_board(p, moves.drop_last());
        let head = p.ordered(moves.drop_last());
        lemma_slot_in_range(p, head, moves.last());
    }
}

/// A move's slot lies within the list or at its end.
pub proof fn lemma_slot_in_range(p: Position, sorted: Seq<Move>, m: Move)
    ensures
        0 <= p.slot(sorted, m) <= sorted.len(),
    decreases sorted.len(),
{
    if sorted.len() > 0 && p.priority(sorted.last()) < p.priority(m) {
        lemma_slot_in_range(p, sorted.drop_last(), m);
    }
}

/// Puts the moves into search order: by falling priority, moves of equal
/// priority in the order in which they came.
pub fn order_moves(board: &Board, moves: &mut Vec<Move>)
    requires
        all_on_board(old(moves)@),
    ensures
        final(moves)@ == board@.ordered(old(moves)@),
        final(moves)@.len() == old(moves)@.len(),
        all_on_board(final(moves)@),
{
    let mut sorted: Vec<Move> = Vec::new();
    let mut keys: Vec<i32> = Vec::new();
    let mut i: usize = 0;
    assert(moves@.take(0) =~= Seq::<Move>::empty());
    while i < moves.len()
        invariant
            i <= moves@.len(),
            moves@ == old(moves)@,
            all_on_board(moves@),
            sorted@ == board@.ordered(moves@.take(i as int)),
            keys@.len() == sorted@.len(),
            sorted@.len() == i,
            all_on_board(sorted@),
            forall|k: int| 0 <= k < keys@.len() ==> #[trigger] keys@[k] == board@.priority(sorted@[k]),
        decreases moves.len() - i,
    {
        let m = moves[i];
        let key = move_priority(board, &m);
        let mut j: usize = sorted.len();
        assert(sorted@.take(j as int) =~= sorted@);
        while j > 0 && keys[j - 1] < key
            invariant
                j <= sorted@.len(),
                keys@.len() == sorted@.len(),
                key == board@.priority(m),
                forall|k: int|
                    0 <= k < keys@.len() ==> #[trigger] keys@[k] == board@.priority(sorted@[k]),
                board@.slot(sorted@, m) == board@.slot(sorted@.take(j as int), m),
            decreases j,
        {
            assert(sorted@.take(j as int).drop_last() =~= sorted@.take(j - 1));
            j -= 1;
        }
        proof {
            assert(moves@.take(i + 1).drop_last() =~= moves@.take(i as int));
            assert(board@.slot(sorted@, m) == j);
        }
        sorted.insert(j, m);
        keys.insert(j, key);
        i += 1;
    }
    assert(moves@.take(i as int) =~= moves@);
    *moves = sorted;
}

/// Negamax with alpha-beta pruning: the score of the position for the side to
/// move, searched `depth` plies deep within the window from `alpha` to `beta`.
/// A score strictly inside the window is the negamax value of the position; a
/// score at or above `beta` is a lower bound of it, any other score an upper
/// bound. Every position that is evaluated is counted in `evals`, which stops
/// at the largest value it can hold.
pub fn negamax(
    board: &Board,
    depth: u32,
    alpha: i64,
    beta: i64,
    config: &AiConfig,
    evals: &mut u64,
) -> (score: i64)
    requires
        -SCORE_INF <= alpha < beta <= SCORE_INF,
    ensures
        score == board@.alpha_beta(depth as nat, alpha as int, beta as int, *config).0,
        *final(evals) == raised(
            *old(evals),
            board@.alpha_beta(depth as nat, alpha as int, beta as int, *config).1,
        ),
        -SCORE_LIMIT < score < SCORE_LIMIT,
        score >= beta ==> board@.search_value(depth as nat, *config) >= score,
        score < beta ==> board@.search_value(depth as nat, *config) <= score,
        alpha < score < beta ==> board@.search_value(depth as nat, *config) == score,
    decreases depth,
{
    proof {
        crate::minimax::lemma_alpha_beta_sound(
            board@,
            depth as nat,
            alpha as int,
            beta as int,
            *config,
        );
    }
    if depth == 0 || board.game_over {
        *evals = evals.saturating_add(1);
        return evaluate(board, board.current_turn, config);
    }
    let mut legal_moves = board.generate_legal_moves(board.current_turn);
    if legal_moves.len() == 0 {
        proof {
            lemma_ordered_on_board(board@, legal_moves@);
        }
        *evals = evals.saturating_add(1);
        return evaluate(board, board.current_turn, config);
    }
    proof {
        lemma_ordered_on_board(board@, legal_moves@);
    }
    order_moves(board, &mut legal_moves);
    let ghost pos = board@;
    let ghost result = pos.alpha_beta(depth as nat, alpha as int, beta as int, *config);
    let mut window: i64 = alpha;
    let mut best: i64 = -SCORE_INF;
    let mut i: usize = 0;
    while i < legal_moves.len()
        invariant
            0 < depth,
            i <= legal_moves@.len(),
            legal_moves@ == pos.candidates(),
            legal_moves@.len() > 0,
            all_on_board(legal_moves@),
            pos == board@,
            result == pos.alpha_beta(depth as nat, alpha as int, beta as int, *config),
            result.0 >= beta ==> pos.search_value(depth as nat, *config) >= result.0,
            result.0 < beta ==> pos.search_value(depth as nat, *config) <= result.0,
            alpha < result.0 < beta ==> pos.search_value(depth as nat, *config) == result.0,
            -SCORE_INF <= window < beta <= SCORE_INF,
            i == 0 ==> best == -SCORE_INF,
            i > 0 ==> -SCORE_LIMIT < best < SCORE_LIMIT,
            result.0 == pos.alpha_beta_from(
                i as int,
                depth as nat,
                window as int,
                beta as int,
                best as int,
                *config,
            ).0,
            raised(*old(evals), result.1) == raised(
                *evals,
                pos.alpha_beta_from(
                    i as int,
                    depth as nat,
                    window as int,
                    beta as int,
                    best as int,
                    *config,
                ).1,
            ),
        decreases legal_moves.len() - i,
    {
        let mv = legal_moves[i];
        let mut clone = board.clone();
        clone.apply_move(&mv);
        let ghost before = *evals;
        let ghost child = clone@.alpha_beta((depth - 1) as nat, -beta as int, -window as int, *config);
        let ghost walk = pos.alpha_beta_from(
            i as int,
            depth as nat,
            window as int,
            beta as int,
            best as int,
            *config,
        );
        proof {
            lemma_walk_step(pos, i as int, depth as nat, window as int, beta as int, best as int, *config);
        }
        let score: i64 = -negamax(&clone, depth - 1, -beta, -window, config, evals);
        if score > best {
            best = score;
        }
        if score > window {
            window = score;
        }
        if window >= beta {
            assert(walk == (best as int, child.1));
            return best;
        }
        proof {
            let rest = pos.alpha_beta_from(
                i + 1,
                depth as nat,
                window as int,
                beta as int,
                best as int,
                *config,
            );
            assert(walk == (rest.0, child.1 + rest.1));
            lemma_raised_twice(before, child.1, rest.1);
        }
        i += 1;
    }
    best
}

/// Searches each of the moves at the root, `plies` deep: each is played and the
/// position after it searched one ply less deep with the widest window. Returns
/// the moves, in the order given, each with its score, which is its negamax
/// value, and how many positions were evaluated.
pub fn pick_move_at_depth(
    board: &Board,
    legal_moves: &Vec<Move>,
    plies: u32,
    config: &AiConfig,
) -> (r: (Vec<ScoredMove>, u64))
    requires
        all_on_board(legal_moves@),
    ensures
        r.0@.len() == legal_moves@.len(),
        forall|i: int|
            0 <= i < r.0@.len() ==> (#[trigger] r.0@[i]).mv == legal_moves@[i] && r.0@[i].score
                == board@.root_search(legal_moves@[i], plies as nat, *config).0,
        forall|i: int|
            0 <= i < r.0@.len() ==> (#[trigger] r.0@[i]).score == board@.move_value(
                legal_moves@[i],
                plies as nat,
                *config,
            ),
        r.1 == raised(0, board@.root_evals(legal_moves@, plies as nat, *config)),
{
    proof {
        assert forall|m: Move|
            (#[trigger] board@.root_search(m, plies as nat, *config)).0 == board@.move_value(
                m,
                plies as nat,
                *config,
            ) by {
            crate::minimax::lemma_root_search_exact(board@, m, plies as nat, *config);
        }
    }
    let mut evals: u64 = 0;
    let mut scored: Vec<ScoredMove> = Vec::new();
    let below: u32 = if plies > 0 {
        plies - 1
    } else {
        0
    };
    let mut i: usize = 0;
    assert(legal_moves@.take(0) =~= Seq::<Move>::empty());
    while i < legal_moves.len()
        invariant
            i <= legal_moves@.len(),
            all_on_board(legal_moves@),
            below == if plies > 0 {
                plies - 1
            } else {
                0
            },
            scored@.len() == i,
            forall|k: int|
                0 <= k < i ==> (#[trigger] scored@[k]).mv == legal_moves@[k] && scored@[k].score
                    == board@.root_search(legal_moves@[k], plies as nat, *config).0,
            evals == raised(0, board@.root_evals(legal_moves@.take(i as int), plies as nat, *config)),
        decreases legal_moves.len() - i,
    {
        let mv = legal_moves[i];
        let mut clone = board.clone();
        clone.apply_move(&mv);
        proof {
            assert(legal_moves@.take(i + 1).drop_last() =~= legal_moves@.take(i as int));
            lemma_raised_twice(
                0,
                board@.root_evals(legal_moves@.take(i as int), plies as nat, *config),
                board@.root_search(mv, plies as nat, *config).1,
            );
        }
        let score: i64 = -negamax(&clone, below, -SCORE_INF, SCORE_INF, config, &mut evals);
        scored.push(ScoredMove { mv, score });
        i += 1;
    }
    assert(legal_moves@.take(i as int) =~= legal_moves@);
    (scored, evals)
}

/// A source of chance: calls `Rng::gen::<u64>` of the `rand` crate on the
/// generator of the current thread. Nothing is claimed of the number.
#[verifier::external_body]
fn random_choice() -> u64 {
    rand::Rng::gen::<u64>(&mut rand::thread_rng())
}

/// The best score among the scored moves.
fn best_score(board: &Board, scored: &Vec<ScoredMove>, plies: u32, config: &AiConfig) -> (best: i64)
    requires
        scored@.len() == board@.candidates().len(),
        forall|i: int|
            0 <= i < scored@.len() ==> (#[trigger] scored@[i]).mv == board@.candidates()[i]
                && scored@[i].score == board@.root_search(
                board@.candidates()[i],
                plies as nat,
                *config,
            ).0,
    ensures
        best == board@.best_root_score(board@.candidates(), plies as nat, *config),
{
    let ghost moves = board@.candidates();
    let mut best: i64 = -SCORE_INF;
    let mut i: usize = 0;
    assert(moves.take(0) =~= Seq::<Move>::empty());
    while i < scored.len()
        invariant
            i <= scored@.len(),
            moves == board@.candidates(),
            scored@.len() == moves.len(),
            forall|k: int|
                0 <= k < scored@.len() ==> (#[trigger] scored@[k]).mv == moves[k] && scored@[k].score
                    == board@.root_search(moves[k], plies as nat, *config).0,
            best == board@.best_root_score(moves.take(i as int), plies as nat, *config),
        decreases scored.len() - i,
    {
        assert(moves.take(i + 1).drop_last() =~= moves.take(i as int));
        if scored[i].score > best {
            best = scored[i].score;
        }
        i += 1;
    }
    assert(moves.take(i as int) =~= moves);
    best
}

/// The scored moves are the candidates of the position with their scores at the
/// given depth.
pub open spec fn scores_of(scored: Seq<ScoredMove>, p: Position, plies: nat, config: AiConfig) -> bool {
    &&& scored.len() == p.candidates().len()
    &&& forall|i: int|
        0 <= i < scored.len() ==> (#[trigger] scored[i]).mv == p.candidates()[i] && scored[i].score
            == p.root_search(p.candidates()[i], plies, config).0 && -SCORE_LIMIT < scored[i].score
            < SCORE_LIMIT
}

/// The highest priority among the scored moves whose score is near `best`.
fn best_priority(
    board: &Board,
    scored: &Vec<ScoredMove>,
    best: i64,
    plies: u32,
    config: &AiConfig,
) -> (top: i32)
    requires
        scores_of(scored@, board@, plies as nat, *config),
        all_on_board(board@.candidates()),
        best == board@.best_root_score(board@.candidates(), plies as nat, *config),
        -SCORE_INF <= best < SCORE_LIMIT,
    ensures
        top == board@.top_priority(board@.candidates(), plies as nat, *config),
{
    let ghost moves = board@.candidates();
    let mut top: i32 = 0;
    let mut i: usize = 0;
    assert(moves.take(0) =~= Seq::<Move>::empty());
    while i < scored.len()
        invariant
            i <= scored@.len(),
            moves == board@.candidates(),
            all_on_board(moves),
            scores_of(scored@, board@, plies as nat, *config),
            best == board@.best_root_score(moves, plies as nat, *config),
            -SCORE_INF <= best < SCORE_LIMIT,
            top == board@.top_priority(moves.take(i as int), plies as nat, *config),
        decreases scored.len() - i,
    {
        assert(moves.take(i + 1).drop_last() =~= moves.take(i as int));
        let entry = scored[i];
        if best - entry.score < SCORE_TOLERANCE {
            let priority = move_priority(board, &entry.mv);
            if priority > top {
                top = priority;
            }
        }
        i += 1;
    }
    assert(moves.take(i as int) =~= moves);
    top
}

/// The moves between which chance decides: those whose score is near the best
/// and whose priority is the highest among these.
fn top_candidates(board: &Board, scored: &Vec<ScoredMove>, plies: u32, config: &AiConfig) -> (top: Vec<
    Move,
>)
    requires
        scores_of(scored@, board@, plies as nat, *config),
        all_on_board(board@.candidates()),
    ensures
        top@ == board@.top_moves_at(plies as nat, *config),
{
    let ghost moves = board@.candidates();
    let ghost test = board@.top_test(plies as nat, *config);
    let best = best_score(board, scored, plies, config);
    proof {
        lemma_best_root_score(board@, moves, plies as nat, *config);
        if moves.len() > 0 {
            let k = choose|i: int|
                0 <= i < moves.len() && board@.root_search(#[trigger] moves[i], plies as nat, *config).0
                    == board@.best_root_score(moves, plies as nat, *config);
            assert(scored@[k].score == best);
        }
    }
    let top_priority = best_priority(board, scored, best, plies, config);
    let mut top: Vec<Move> = Vec::new();
    let mut i: usize = 0;
    proof {
        reveal(Seq::filter);
        assert(moves.take(0).filter(test) =~= Seq::<Move>::empty());
    }
    while i < scored.len()
        invariant
            i <= scored@.len(),
            moves == board@.candidates(),
            test == board@.top_test(plies as nat, *config),
            all_on_board(moves),
            scores_of(scored@, board@, plies as nat, *config),
            best == board@.best_root_score(moves, plies as nat, *config),
            -SCORE_INF <= best < SCORE_LIMIT,
            top_priority == board@.top_priority(moves, plies as nat, *config),
            top@ == moves.take(i as int).filter(test),
        decreases scored.len() - i,
    {
        let entry = scored[i];
        proof {
            assert(moves.take(i + 1) =~= moves.take(i as int).push(entry.mv));
            moves.take(i as int).lemma_filter_push(entry.mv, test);
        }
        if best - entry.score < SCORE_TOLERANCE && move_priority(board, &entry.mv) == top_priority {
            top.push(entry.mv);
        }
        i += 1;
    }
    assert(moves.take(i as int) =~= moves);
    top
}

/// Chooses a move for the side to move, the source of chance being the number
/// `choice`. Returns `None` exactly if the side has no legal move. Else the
/// candidates are searched at twice the configured depth, and deeper while
/// deepening asks for it; among the moves whose score is near the best and
/// whose priority is the highest, `choice` decides. The move is legal, and no
/// legal move has a negamax value that is higher by the tolerance or more.
pub fn pick_move_with(board: &Board, config: &AiConfig, choice: u64) -> (r: Option<PickResult>)
    ensures
        match r {
            None => board@.legal_moves(board@.current_turn).len() == 0,
            Some(pick) => {
                let top = board@.top_moves(*config);
                &&& board@.legal_moves(board@.current_turn).len() > 0
                &&& top.len() > 0
                &&& pick.mv == top[choice as int % top.len() as int]
                &&& pick.evals == raised(0, board@.search_evals(*config))
                &&& pick.evals >= 1
                &&& board@.legal_moves(board@.current_turn).contains(pick.mv)
                &&& pick.mv.on_board()
                &&& forall|other: Move|
                    #[trigger] board@.legal_moves(board@.current_turn).contains(other)
                        ==> board@.move_value(other, board@.search_plies(*config), *config)
                        - board@.move_value(pick.mv, board@.search_plies(*config), *config)
                        < SCORE_TOLERANCE
            },
        },
{
    let mut legal_moves = board.generate_legal_moves(board.current_turn);
    if legal_moves.len() == 0 {
        return None;
    }
    proof {
        lemma_ordered_on_board(board@, legal_moves@);
    }
    order_moves(board, &mut legal_moves);
    let mut plies: u32 = if config.depth > u32::MAX / 2 {
        u32::MAX
    } else {
        config.depth * 2
    };
    let first = pick_move_at_depth(board, &legal_moves, plies, config);
    let mut scored = first.0;
    let mut evals = first.1;
    proof {
        lemma_root_scores_bounded(board@, plies as nat, *config);
    }
    while config.auto_deepen && evals < MIN_EVALS && plies < MAX_AUTO_PLIES
        invariant
            legal_moves@ == board@.candidates(),
            legal_moves@.len() > 0,
            all_on_board(legal_moves@),
            board@.search_plies(*config) == board@.settled_plies(plies as nat, *config),
            scores_of(scored@, board@, plies as nat, *config),
            evals == raised(0, board@.root_evals(legal_moves@, plies as nat, *config)),
        decreases MAX_AUTO_PLIES - plies,
    {
        plies += 1;
        let deeper = pick_move_at_depth(board, &legal_moves, plies, config);
        scored = deeper.0;
        evals = deeper.1;
        proof {
            lemma_root_scores_bounded(board@, plies as nat, *config);
        }
    }
    let top = top_candidates(board, &scored, plies, config);
    proof {
        lemma_top_moves_exist(board@, plies as nat, *config);
        lemma_top_moves_legal(board@, *config);
        crate::play::lemma_legal_moves_on_board(board@, board@.current_turn);
        lemma_search_evals_positive(board@, *config);
        let chosen = top@[choice as int % top@.len() as int];
        assert(top@.contains(chosen));
        assert(board@.search_plies(*config) == plies);
        assert(top@ == board@.top_moves(*config));
        assert(board@.legal_moves(board@.current_turn).contains(chosen));
        assert(chosen.on_board());
        assert(evals >= 1);
        assert forall|other: Move| #[trigger]
            board@.legal_moves(board@.current_turn).contains(other) implies board@.move_value(
            other,
            board@.search_plies(*config),
            *config,
        ) - board@.move_value(chosen, board@.search_plies(*config), *config) < SCORE_TOLERANCE by {
            crate::minimax::lemma_chosen_move_is_best(board@, *config, chosen, other);
        }
    }
    let index: usize = (choice % (top.len() as u64)) as usize;
    Some(PickResult { mv: top[index], evals })
}

/// Chooses a move for the side to move. Returns `None` exactly if the side has
/// no legal move. Else the move is legal and is one of those whose score is
/// near the best and whose priority is the highest among these; which of them
/// is left to chance. At least one position has been evaluated.
pub fn pick_move(board: &Board, config: &AiConfig) -> (r: Option<PickResult>)
    ensures
        match r {
            None => board@.legal_moves(board@.current_turn).len() == 0,
            Some(pick) => {
                &&& board@.legal_moves(board@.current_turn).contains(pick.mv)
                &&& pick.mv.on_board()
                &&& board@.top_moves(*config).contains(pick.mv)
                &&& pick.evals == raised(0, board@.search_evals(*config))
                &&& pick.evals >= 1
                &&& forall|other: Move|
                    #[trigger] board@.legal_moves(board@.current_turn).contains(other)
                        ==> board@.move_value(other, board@.search_plies(*config), *config)
                        - board@.move_value(pick.mv, board@.search_plies(*config), *config)
                        < SCORE_TOLERANCE
            },
        },
{
    let choice = random_choice();
    let r = pick_move_with(board, config, choice);
    proof {
        if r is Some {
            let top = board@.top_moves(*config);
            assert(top.contains(top[choice as int % top.len() as int]));
        }
    }
    r
}

} // verus!

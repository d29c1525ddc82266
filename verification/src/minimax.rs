//! The value of a position by plain negamax, and the proof that alpha-beta
//! pruning does not change what the search finds.

use vstd::prelude::*;
use crate::eval::{AiConfig, SCORE_LIMIT};
use crate::moves::Move;
use crate::position::Position;
use crate::search::{
    larger, lemma_alpha_beta_bounded, lemma_best_root_score, lemma_ordered_permutes,
    lemma_walk_end, lemma_walk_step, SCORE_INF, SCORE_TOLERANCE,
};

verus! {

/// The depth below the root of a search that is `plies` deep.
pub open spec fn below_root(plies: nat) -> nat {
    if plies > 0 {
        (plies - 1) as nat
    } else {
        0
    }
}

impl Position {
    /// The negamax value of the position for the side to move, every line
    /// searched `depth` plies deep and nothing pruned: the position's score at
    /// depth 0, in a finished game or without a legal move; else the best of
    /// the values of the moves.
    pub open spec fn search_value(self, depth: nat, config: AiConfig) -> int
        decreases depth, 1int, 0int,
    {
        if depth == 0 || self.game_over || self.candidates().len() == 0 {
            self.score(self.current_turn, config)
        } else {
            self.best_reply(self.candidates().len() as int, depth, config)
        }
    }

    /// The value of the candidate with index `k` for the side that plays it:
    /// the negamax value of the position after it, one ply less deep, negated.
    pub open spec fn reply_value(self, k: int, depth: nat, config: AiConfig) -> int
        decreases depth, 0int, 0int,
    {
        if depth == 0 {
            0
        } else {
            -self.played(self.candidates()[k]).search_value((depth - 1) as nat, config)
        }
    }

    /// The best of the values of the first `n` candidates.
    pub open spec fn best_reply(self, n: int, depth: nat, config: AiConfig) -> int
        decreases depth, 0int, n,
    {
        if n <= 0 || depth == 0 {
            -(SCORE_INF as int)
        } else {
            larger(self.best_reply(n - 1, depth, config), self.reply_value(n - 1, depth, config))
        }
    }

    /// The value of a move at the root of a search that is `plies` deep, for
    /// the side that plays it.
    pub open spec fn move_value(self, m: Move, plies: nat, config: AiConfig) -> int {
        -self.played(m).search_value(below_root(plies), config)
    }
}

/// A negamax value lies within the score limit.
pub proof fn lemma_search_value_bounded(p: Position, depth: nat, config: AiConfig)
    ensures
        -SCORE_LIMIT < p.search_value(depth, config) < SCORE_LIMIT,
    decreases depth, 1int, 0int,
{
    if depth == 0 || p.game_over || p.candidates().len() == 0 {
        crate::eval::lemma_score_bounded(p, p.current_turn, config);
    } else {
        lemma_best_reply(p, p.candidates().len() as int, depth, config);
    }
}

/// The best reply among the first `n` candidates is the value of one of them,
/// and none of them has a higher value.
pub proof fn lemma_best_reply(p: Position, n: int, depth: nat, config: AiConfig)
    requires
        0 <= n <= p.candidates().len(),
        depth > 0,
    ensures
        forall|k: int| 0 <= k < n ==> #[trigger] p.reply_value(k, depth, config) <= p.best_reply(n, depth, config),
        n > 0 ==> exists|k: int|
            0 <= k < n && #[trigger] p.reply_value(k, depth, config) == p.best_reply(n, depth, config),
        n > 0 ==> -SCORE_LIMIT < p.best_reply(n, depth, config) < SCORE_LIMIT,
    decreases depth, 0int, n,
{
    if n > 0 {
        lemma_best_reply(p, n - 1, depth, config);
        lemma_search_value_bounded(p.played(p.candidates()[n - 1]), (depth - 1) as nat, config);
        let last = p.reply_value(n - 1, depth, config);
        let head = p.best_reply(n - 1, depth, config);
        if n - 1 > 0 && head > last {
            let k = choose|k: int|
                0 <= k < n - 1 && #[trigger] p.reply_value(k, depth, config) == head;
            assert(p.reply_value(k, depth, config) == p.best_reply(n, depth, config));
        } else {
            assert(p.reply_value(n - 1, depth, config) == p.best_reply(n, depth, config));
        }
    }
}

/// The negamax value is the best that a legal move achieves: where the game is
/// not over and the side to move has a legal move, no legal move is worth more
/// than the position, and one legal move is worth exactly as much.
pub proof fn lemma_search_value_rule(p: Position, depth: nat, config: AiConfig)
    requires
        depth > 0,
        !p.game_over,
        p.legal_moves(p.current_turn).len() > 0,
    ensures
        forall|m: Move|
            #[trigger] p.legal_moves(p.current_turn).contains(m) ==> -p.played(m).search_value(
                (depth - 1) as nat,
                config,
            ) <= p.search_value(depth, config),
        exists|m: Move|
            #[trigger] p.legal_moves(p.current_turn).contains(m) && -p.played(m).search_value(
                (depth - 1) as nat,
                config,
            ) == p.search_value(depth, config),
{
    broadcast use vstd::seq_lib::group_to_multiset_ensures;

    let legal = p.legal_moves(p.current_turn);
    let moves = p.candidates();
    let n = moves.len() as int;
    lemma_ordered_permutes(p, legal);
    crate::play::lemma_legal_moves_on_board(p, p.current_turn);
    assert(moves.to_multiset().len() == legal.to_multiset().len());
    assert(n == legal.len());
    lemma_best_reply(p, n, depth, config);
    assert forall|m: Move| #[trigger] legal.contains(m) implies -p.played(m).search_value(
        (depth - 1) as nat,
        config,
    ) <= p.search_value(depth, config) by {
        assert(moves.to_multiset().count(m) > 0);
        assert(moves.contains(m));
        let k = choose|k: int| 0 <= k < n && moves[k] == m;
        assert(p.reply_value(k, depth, config) <= p.best_reply(n, depth, config));
    }
    let k = choose|k: int|
        0 <= k < n && #[trigger] p.reply_value(k, depth, config) == p.best_reply(n, depth, config);
    assert(moves.contains(moves[k]));
    assert(moves.to_multiset().count(moves[k]) > 0);
    assert(legal.contains(moves[k]));
}

/// What the pruned walk over the candidates from index `i` on returns, held
/// against the true values of those candidates: it is not below the best so
/// far; if it reaches `beta`, some candidate is worth at least as much; if it
/// stays below `beta`, no candidate is worth more; and if it lies strictly
/// inside the window, it is the value of a candidate.
pub proof fn lemma_walk_sound(
    p: Position,
    i: int,
    depth: nat,
    alpha: int,
    beta: int,
    best: int,
    config: AiConfig,
)
    requires
        0 <= i <= p.candidates().len(),
        depth > 0,
        -SCORE_INF <= alpha < beta <= SCORE_INF,
        best <= alpha,
    ensures
        ({
            let r = p.alpha_beta_from(i, depth, alpha, beta, best, config).0;
            &&& r >= best
            &&& r >= beta ==> exists|k: int|
                i <= k < p.candidates().len() && #[trigger] p.reply_value(k, depth, config) >= r
            &&& r < beta ==> forall|k: int|
                i <= k < p.candidates().len() ==> #[trigger] p.reply_value(k, depth, config) <= r
            &&& alpha < r < beta ==> exists|k: int|
                i <= k < p.candidates().len() && #[trigger] p.reply_value(k, depth, config) == r
        }),
    decreases depth, 0int, p.candidates().len() - i,
{
    let n = p.candidates().len() as int;
    let r = p.alpha_beta_from(i, depth, alpha, beta, best, config).0;
    if i == n {
        lemma_walk_end(p, depth, alpha, beta, best, config);
    } else {
        let next = p.played(p.candidates()[i]);
        let child = next.alpha_beta((depth - 1) as nat, -beta, -alpha, config);
        let score = -child.0;
        let truth = p.reply_value(i, depth, config);
        lemma_walk_step(p, i, depth, alpha, beta, best, config);
        lemma_alpha_beta_sound(next, (depth - 1) as nat, -beta, -alpha, config);
        assert(score <= alpha ==> truth <= score);
        assert(score > alpha ==> truth >= score);
        assert(alpha < score < beta ==> truth == score);
        let best_now = larger(best, score);
        let alpha_now = larger(alpha, score);
        if alpha_now >= beta {
            assert(r == score);
            assert(p.reply_value(i, depth, config) >= r);
        } else {
            lemma_walk_sound(p, i + 1, depth, alpha_now, beta, best_now, config);
            assert(r == p.alpha_beta_from(i + 1, depth, alpha_now, beta, best_now, config).0);
            if r >= beta {
                let k = choose|k: int|
                    i + 1 <= k < n && #[trigger] p.reply_value(k, depth, config) >= r;
                assert(i <= k < n && p.reply_value(k, depth, config) >= r);
            } else {
                assert forall|k: int| i <= k < n implies #[trigger] p.reply_value(
                    k,
                    depth,
                    config,
                ) <= r by {
                    if k == i {
                        assert(truth <= best_now);
                    }
                }
                if alpha < r {
                    if r > alpha_now {
                        let k = choose|k: int|
                            i + 1 <= k < n && #[trigger] p.reply_value(k, depth, config) == r;
                        assert(i <= k < n && p.reply_value(k, depth, config) == r);
                    } else {
                        assert(r == score);
                        assert(p.reply_value(i, depth, config) == r);
                    }
                }
            }
        }
    }
}

/// Alpha-beta pruning is sound. What the pruned search returns, held against
/// the negamax value of the position: if it reaches `beta`, the value is at
/// least as high; if it stays below `beta`, the value is no higher; and if it
/// lies strictly inside the window, it is the value.
pub proof fn lemma_alpha_beta_sound(p: Position, depth: nat, alpha: int, beta: int, config: AiConfig)
    requires
        -SCORE_INF <= alpha < beta <= SCORE_INF,
    ensures
        ({
            let r = p.alpha_beta(depth, alpha, beta, config).0;
            let v = p.search_value(depth, config);
            &&& r >= beta ==> v >= r
            &&& r < beta ==> v <= r
            &&& alpha < r < beta ==> v == r
        }),
    decreases depth, 1int, 0int,
{
    let n = p.candidates().len() as int;
    if !(depth == 0 || p.game_over || n == 0) {
        let r = p.alpha_beta(depth, alpha, beta, config).0;
        let v = p.search_value(depth, config);
        lemma_walk_sound(p, 0, depth, alpha, beta, -(SCORE_INF as int), config);
        lemma_best_reply(p, n, depth, config);
        if r >= beta {
            let k = choose|k: int| 0 <= k < n && #[trigger] p.reply_value(k, depth, config) >= r;
            assert(p.reply_value(k, depth, config) <= v);
        } else {
            let w = choose|k: int| 0 <= k < n && #[trigger] p.reply_value(k, depth, config) == v;
            assert(p.reply_value(w, depth, config) <= r);
            if alpha < r {
                let k = choose|k: int|
                    0 <= k < n && #[trigger] p.reply_value(k, depth, config) == r;
                assert(p.reply_value(k, depth, config) <= v);
            }
        }
    }
}

/// The score that the search gives a move at the root is the move's true
/// negamax value: pruning below the root loses nothing.
pub proof fn lemma_root_search_exact(p: Position, m: Move, plies: nat, config: AiConfig)
    ensures
        p.root_search(m, plies, config).0 == p.move_value(m, plies, config),
{
    let inf = SCORE_INF as int;
    lemma_alpha_beta_sound(p.played(m), below_root(plies), -inf, inf, config);
    lemma_alpha_beta_bounded(p.played(m), below_root(plies), -inf, inf, config);
}

/// The search chooses a best move. If chance decides between the moves of
/// `top_moves`, then whichever it takes, no legal move of the side to move has
/// a negamax value that is higher by the tolerance or more, at the depth at
/// which the search settled.
pub proof fn lemma_chosen_move_is_best(p: Position, config: AiConfig, chosen: Move, other: Move)
    requires
        p.top_moves(config).contains(chosen),
        p.legal_moves(p.current_turn).contains(other),
    ensures
        p.move_value(other, p.search_plies(config), config) - p.move_value(
            chosen,
            p.search_plies(config),
            config,
        ) < SCORE_TOLERANCE,
{
    broadcast use vstd::seq_lib::group_to_multiset_ensures;

    let plies = p.search_plies(config);
    let moves = p.candidates();
    let test = p.top_test(plies, config);
    lemma_ordered_permutes(p, p.legal_moves(p.current_turn));
    assert(moves.to_multiset().count(other) > 0);
    assert(moves.contains(other));
    let k = choose|k: int| 0 <= k < moves.len() && moves[k] == other;
    lemma_best_root_score(p, moves, plies, config);
    assert(p.root_search(moves[k], plies, config).0 <= p.best_root_score(moves, plies, config));
    let top = moves.filter(test);
    assert(top.contains(chosen));
    let j = choose|j: int| 0 <= j < top.len() && top[j] == chosen;
    moves.lemma_filter_pred(test, j);
    assert(p.is_top(chosen, plies, config));
    lemma_root_search_exact(p, other, plies, config);
    lemma_root_search_exact(p, chosen, plies, config);
}

} // verus!

//! A chess position engine with a move-selecting search, verified with Verus.
//!
//! The board applies moves and generates the legal ones; the evaluation scores
//! a position by modules that can be switched off; the search picks a move by
//! negamax with alpha-beta pruning. Every function states what it returns over
//! the mathematical model of a position in `position`, and the modules `rules`,
//! `minimax`, `frame` and `laws` prove what follows: that the moves generated
//! are exactly those of the rules of chess, that pruning does not change the
//! value that the search finds, and how mates, repetitions and promotions are
//! scored. Scores and weights are whole numbers of thousandths of a pawn.

pub mod piece;
pub mod moves;
pub mod position;
pub mod board;
pub mod movegen;
pub mod play;
pub mod eval;
pub mod search;
pub mod frame;
pub mod minimax;
pub mod laws;
pub mod rules;
pub mod engine;
pub mod game;
pub mod selfplay;

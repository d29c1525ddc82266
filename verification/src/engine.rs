//! The engine as callers see it: configuration, evaluation and move choice.

pub use crate::eval::{evaluate, evaluate_breakdown, is_passed_pawn, AiConfig, EvalBreakdown, Weights};
pub use crate::search::{move_priority, order_moves, pick_move, pick_move_with, PickResult};

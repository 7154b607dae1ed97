//! Tic-tac-toe with two verified decision engines: a tabular learning
//! agent that propagates terminal rewards backward through each game's
//! trace, and a perfect-play minimax searcher with alpha-beta pruning
//! proved to return a move achieving the game-theoretic value. The board
//! mechanics, the orchestration of whole games, and the value-table
//! persistence round trip are verified as well; console and file handling
//! live outside the library.

use vstd::prelude::*;

mod agent;
mod board;
mod minimax;
mod orchestrator;
mod stats;

pub use agent::Agent;
pub use agent::ModelError;
pub use agent::REWARD_UNIT;
pub use agent::hash64;
pub use agent::is_greedy_choice;
pub use agent::json_of;
pub use agent::lookahead_value;
pub use agent::propagate;
pub use agent::save_load_round_trip;
pub use agent::stored_value;
pub use agent::td_update;
pub use agent::values_in_range;
pub use board::Board;
pub use board::BoardError;
pub use board::Cell;
pub use board::count_upto;
pub use board::has_win;
pub use board::hash_of;
pub use board::lemma_hash_injective;
pub use board::lemma_turn_alternates;
pub use board::lemma_turn_flips;
pub use board::move_count;
pub use board::num_empty;
pub use board::opponent;
pub use board::turn_spec;
pub use minimax::at_most_one_winner;
pub use minimax::check_winner;
pub use minimax::equals_3;
pub use minimax::get_availables;
pub use minimax::max_value;
pub use minimax::min_value;
pub use minimax::minimax_search;
pub use minimax::mm_max;
pub use minimax::mm_min;
pub use minimax::terminal_score;
pub use orchestrator::human_field;
pub use orchestrator::play_agent_vs_minimax;
pub use orchestrator::play_multiple;
pub use orchestrator::terminal_reward;
pub use orchestrator::train;
pub use orchestrator::train_with_minimax;
pub use stats::Results;
pub use stats::Stat;

verus! {

} // verus!

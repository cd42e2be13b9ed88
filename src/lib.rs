//! A multi-agent light-cycle engine: agents move on a fixed board, leave
//! permanent trails, and turn in response to key presses.
//!
//! The engine owns the board and the agents. A driver hands it elapsed time
//! (`Simulation::advance`) and key presses (`Simulation::press_button`), and
//! reads the board back to draw it.

mod board;
mod direction;
mod player;
mod simulation;

pub use board::{
    all_inside, board_error, filled, first_outside, has_shape, is_occupied,
    lemma_mark_all_keeps_occupied, lemma_mark_all_shape, lemma_mark_shape, mark, mark_all,
    matrix_tiles, Board, BoardError, Tile, TileMatrix, MAX_CELLS,
};
pub use direction::{left_of, lemma_turns_invert, right_of, Direction};
pub use player::{
    at_edge, can_step, disjoint_keys, in_bounds, is_key_of, lemma_disjoint_agents_independent,
    lemma_step_moves_one_unit, lemma_turned_by_keeps_keys, lemma_wrapping_edges, next_pos,
    stepped, turned, turned_by, EdgePolicy, KeyCode, Player, Point,
};
pub use simulation::{
    due_ticks, lemma_run_wrapping_completes, pending_time, run, step_all, tick_blocked, turn_all,
    SimError, Simulation, TickError,
};

//! Verified core of a tiling window manager: the container tree and the
//! decisions that the window-management commands make on it.
pub mod common;
pub mod error;
pub mod seqs;
pub mod tree;
pub mod layout;
pub mod app_command;
pub mod sync;
pub mod monitors;
pub mod stack;
pub mod window_moves;
pub mod window_state;
pub mod grid;
pub mod focus;
pub mod navigation;
pub mod directional_moves;
pub mod floating_moves;
pub mod monitor_order;
pub mod window_removal;
pub mod general;
pub mod resize;
pub mod consolidation;

//! Liquid-democracy polls: voters, policies and weighted delegations, the
//! transition structure that resolves them, and the named report of a poll.
pub mod absorb;
pub mod digest;
pub mod laws;
pub mod matrix;
pub mod names;
pub mod plan;
pub mod result;
pub mod setting;
pub mod table;

pub use absorb::trapped_voters;
pub use digest::based_hash;
pub use matrix::{blank_row, create_matrix, resolve_target, Target, TransitionMatrix};
pub use plan::Plan;
pub use result::{poll_result, PollResult};
pub use setting::Setting;
pub use table::Table;

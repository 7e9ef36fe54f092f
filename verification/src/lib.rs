//! Finds the live SSH agent socket among the places where sshd leaves one and
//! relays bytes between a client and that agent.
//!
//! The crate holds the decisions only. Each component is a function, or a
//! machine that is stepped with the answers of the operating system and says
//! what to ask next; listing directories, calling `stat` and moving bytes over
//! sockets are left to the caller.

pub mod flow;
pub mod laws;
pub mod names;
pub mod order;
pub mod plan;
pub mod probe;
pub mod relay;
pub mod resolve;
pub mod wait;
pub mod world;

pub use wait::{wait_for_file, wait_for_file_in_millis};

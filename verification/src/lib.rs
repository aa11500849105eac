//! A personal task tracker: tasks with an id, a description, a status and
//! timestamps are kept as an ordered collection, edited through validated
//! commands, and persisted as a single structured text document.

pub mod codec;
pub mod command;
pub mod db;
pub mod error;
pub mod execute_command;
pub mod laws;
pub mod task;
pub mod text;

pub use error::Error;
pub use task::{Task, TaskDescription, TaskId, TaskStatus};

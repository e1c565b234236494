//! A small command-line shell, without its terminal.
//!
//! A line of input is split into a pipeline of programs whose standard
//! streams are chained, with `cd` and `exit` built in. Every submitted line is
//! kept in a history file that can be searched after each command.
//!
//! Nothing in this library reads, writes or starts anything: [`session`]
//! says what is to be done next, and its host does it.

pub mod executor;
pub mod history;
pub mod parser;
pub mod search;
pub mod session;
pub mod text;

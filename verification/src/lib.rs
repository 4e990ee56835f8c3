//! A status line for a terminal host: a powerline footer of rounded pills, with the
//! live directory, the git branch, the model, and the token usage of the session.
//!
//! The host sends one JSON message on each line. `wire` reads it, `status` keeps
//! what is remembered between lines and draws the rows of a tick, and `wire` writes
//! the reply. The parts of a row come from `config` (the directory and the context
//! window of the model), `git`, `usage` and `numbers`; `rows` turns segments into
//! styled spans and fits a row to a width. `json` states what is relied on of
//! `serde_json`, and `text` works on characters.
pub mod config;
pub mod git;
pub mod json;
pub mod numbers;
pub mod rows;
pub mod status;
pub mod text;
pub mod usage;
pub mod wire;

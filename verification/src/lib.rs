//! A feedback board: an operator creates prompts, shares a per-prompt
//! feedback link, and collects free-text responses tied to that prompt.
//!
//! * [`db`]: the repository, with prompts and feedback kept newest first,
//!   and the rules of their lifecycle.
//! * [`web`]: the request orchestrator, which serves each route in steps
//!   of commands to the repository.
//! * [`link`]: the shareable feedback link and the paths of the board.
//! * [`mint`]: fresh identifiers and creation stamps.
//! * [`order`]: tables of rows with distinct keys, listed newest first.
//! * [`text`]: substring search and lexicographic order on text.

pub mod db;
pub mod link;
pub mod mint;
pub mod order;
pub mod text;
pub mod web;

//! sluuz: the logic behind `slu`, a git superset with cross-repo search,
//! secret scanning and multi-repo management. The program around it runs git,
//! reads the terminal and draws; everything it decides on is here.

pub mod app;
pub mod cli;
pub mod commands;
pub mod git;
pub mod history;
pub mod num;
pub mod text;
pub mod tui;

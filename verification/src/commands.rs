//! What the subcommands decide, apart from running git and printing: how a
//! typed path is read against the repo root, which terms a search bar holds,
//! whether a release is newer, and the like.

pub mod branches;
pub mod completions;
pub mod each;
pub mod fetch;
pub mod ilog;
pub mod iscan;
pub mod istatus;
pub mod repos;
pub mod scan;
pub mod search;
pub mod selfcmd;
pub mod tidy;
pub mod trace;

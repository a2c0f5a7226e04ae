//! The decision-making core of gitrx, a GitX-style git client: statuses, diffs, single-hunk
//! patches, commit rules, watcher filtering and window bookkeeping, each with a proved contract.

pub mod cli_install;
pub mod commands;
pub mod context_menu;
pub mod error;
pub mod git;
pub mod image;
pub mod logging;
pub mod menu;
pub mod numbers;
pub mod pathname;
pub mod seqs;
pub mod state;
pub mod text;
pub mod watch;
pub mod windows;

//! The rules of the git layer: what is read out of a repository and what is done to it.

use vstd::prelude::*;

pub mod apply;
pub mod commit;
pub mod diff;
pub mod patch;
pub mod paths;
pub mod repo;
pub mod stage;

pub use apply::{apply_patch, ApplyTarget};
pub use commit::{commit, head_commit_message};
pub use diff::{file_diff, FileDiff};
pub use patch::{build_patch, HunkPatchPayload};
pub use paths::validate_repo_relative_path;
pub use repo::{build_status, open_repository, resolve_cli_repo_path, RepoStatus};
pub use stage::{apply_hunk_verified, discard_file, stage_file, unstage_file};

verus! {

/// Byte cap applied to every diff: a blob larger than this counts as binary, and its contents
/// are never loaded. 8 MiB.
pub const MAX_DIFF_BYTES: i64 = 8 * 1024 * 1024;

} // verus!

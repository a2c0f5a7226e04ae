//! The rules that the commands of the user interface apply before the git layer is reached.

use crate::error::{outcome, AppError, AppResult, ErrorKind, ErrorView};
use crate::git::apply::ApplyTarget;
use crate::git::diff::FileDiff;
use crate::git::patch::HunkPatchPayload;
use crate::git::paths::{path_refusal, validate_repo_relative_path};
use crate::git::stage::payload_path_refusal;
use crate::state::AppState;
use vstd::prelude::*;

verus! {

/// A diff with more lines than this is worth a warning.
pub const DIFF_LINES_WARN: usize = 20_000;

/// The most context lines that a diff is computed with.
pub const MAX_CONTEXT_LINES: u32 = 8;

/// The outcome of a commit.
#[derive(Debug, Clone)]
pub struct CommitResult {
    /// The id of the new commit.
    pub oid: String,
}

/// The commands on a single hunk.
#[derive(Debug, Clone, Copy, PartialEq, Eq, Structural)]
pub enum HunkCommand {
    Stage,
    Unstage,
    Discard,
}

/// The diff that a command takes its hunk from: the staged one, or the unstaged one.
pub open spec fn takes_staged(command: HunkCommand) -> bool {
    command == HunkCommand::Unstage
}

/// How a command applies a hunk.
pub open spec fn target_of(command: HunkCommand) -> ApplyTarget {
    match command {
        HunkCommand::Stage => ApplyTarget::Index,
        HunkCommand::Unstage => ApplyTarget::IndexReverse,
        HunkCommand::Discard => ApplyTarget::WorkdirReverse,
    }
}

/// Why a payload does not fit the command it was sent to; nothing when it does. Discarding
/// refuses an untracked file before it looks at the side.
pub open spec fn direction_refusal(staged: bool, untracked: bool, command: HunkCommand) -> Option<
    ErrorView,
> {
    match command {
        HunkCommand::Stage => if staged {
            Some((ErrorKind::Validation, "stage_hunk expects a hunk from the unstaged diff"@))
        } else if untracked {
            Some(
                (
                    ErrorKind::Validation,
                    "Cannot hunk-stage an untracked file; use stage_file to stage it whole instead"@,
                ),
            )
        } else {
            None
        },
        HunkCommand::Unstage => if !staged {
            Some((ErrorKind::Validation, "unstage_hunk expects a hunk from the staged diff"@))
        } else {
            None
        },
        HunkCommand::Discard => if untracked {
            Some(
                (
                    ErrorKind::Validation,
                    "Cannot discard a hunk of an untracked file; use discard_file to delete it instead"@,
                ),
            )
        } else if staged {
            Some((ErrorKind::Validation, "discard_hunk expects a hunk from the unstaged diff"@))
        } else {
            None
        },
    }
}

/// Whether a payload fits the command it was sent to, and how it is to be applied.
pub fn validate_hunk_direction(payload: &HunkPatchPayload, command: HunkCommand) -> (r: AppResult<
    ApplyTarget,
>)
    ensures
        match r {
            Ok(target) => direction_refusal(payload.staged, payload.is_untracked, command) is None
                && target == target_of(command),
            Err(e) => direction_refusal(payload.staged, payload.is_untracked, command) == Some(e@),
        },
{
    match command {
        HunkCommand::Stage => {
            if payload.staged {
                return Err(
                    AppError::validation("stage_hunk expects a hunk from the unstaged diff"),
                );
            }
            if payload.is_untracked {
                return Err(
                    AppError::validation(
                        "Cannot hunk-stage an untracked file; use stage_file to stage it whole instead",
                    ),
                );
            }
            Ok(ApplyTarget::Index)
        },
        HunkCommand::Unstage => {
            if !payload.staged {
                return Err(
                    AppError::validation("unstage_hunk expects a hunk from the staged diff"),
                );
            }
            Ok(ApplyTarget::IndexReverse)
        },
        HunkCommand::Discard => {
            if payload.is_untracked {
                return Err(
                    AppError::validation(
                        "Cannot discard a hunk of an untracked file; use discard_file to delete it instead",
                    ),
                );
            }
            if payload.staged {
                return Err(
                    AppError::validation("discard_hunk expects a hunk from the unstaged diff"),
                );
            }
            Ok(ApplyTarget::WorkdirReverse)
        },
    }
}

/// No command ever acts on a hunk of the other side: what is accepted was taken from the diff
/// that the command is about.
pub proof fn law_accepted_hunk_is_of_the_right_side(
    staged: bool,
    untracked: bool,
    command: HunkCommand,
)
    requires
        direction_refusal(staged, untracked, command) is None,
    ensures
        staged == takes_staged(command),
        command != HunkCommand::Unstage ==> !untracked,
{
}

/// What a command on a file comes to before the repository is opened: the repository of the
/// window, where it has one and the path is safe.
pub open spec fn file_command(
    bindings: Map<Seq<char>, Seq<char>>,
    label: Seq<char>,
    path: Seq<char>,
    windows: bool,
) -> Result<Seq<char>, ErrorView> {
    if !bindings.contains_key(label) {
        Err((ErrorKind::NoRepoOpen, "No repository open"@))
    } else {
        match path_refusal(path, windows) {
            Some(e) => Err(e),
            None => Ok(bindings[label]),
        }
    }
}

/// The repository that a command on a file acts on: that of the calling window. A window without
/// one is refused, and so is a path that is not safe.
pub fn begin_file_command(state: &AppState, label: &str, path: &str, windows: bool) -> (r:
    AppResult<String>)
    requires
        state.wf(),
    ensures
        outcome(r) == file_command(state.bindings(), label@, path@, windows),
{
    let repo = match state.window_repo_path(label) {
        Ok(p) => p,
        Err(e) => return Err(e),
    };
    match validate_repo_relative_path(repo.as_str(), path, windows) {
        Ok(_) => Ok(repo),
        Err(e) => Err(e),
    }
}

/// What a command on a hunk comes to before the repository is opened. The paths of the payload
/// are looked at once the window is known to have a repository.
pub open spec fn hunk_command(
    bindings: Map<Seq<char>, Seq<char>>,
    label: Seq<char>,
    payload: HunkPatchPayload,
    windows: bool,
) -> Result<Seq<char>, ErrorView> {
    if !bindings.contains_key(label) {
        Err((ErrorKind::NoRepoOpen, "No repository open"@))
    } else {
        match payload_path_refusal(payload, windows) {
            Some(e) => Err(e),
            None => Ok(bindings[label]),
        }
    }
}

/// The repository that a command on a hunk acts on: that of the calling window, where both paths
/// of the payload are safe.
pub fn begin_hunk_command(
    state: &AppState,
    label: &str,
    payload: &HunkPatchPayload,
    windows: bool,
) -> (r: AppResult<String>)
    requires
        state.wf(),
    ensures
        outcome(r) == hunk_command(state.bindings(), label@, *payload, windows),
{
    let repo = match begin_file_command(state, label, payload.path.as_str(), windows) {
        Ok(p) => p,
        Err(e) => return Err(e),
    };
    if let Some(old) = &payload.old_path {
        if let Err(e) = validate_repo_relative_path(repo.as_str(), old.as_str(), windows) {
            return Err(e);
        }
    }
    Ok(repo)
}

/// The number of context lines that a diff is computed with, for the number asked for.
pub fn clamp_context(context_lines: u32) -> (r: u32)
    ensures
        r == if context_lines <= MAX_CONTEXT_LINES {
            context_lines
        } else {
            MAX_CONTEXT_LINES
        },
{
    if context_lines <= MAX_CONTEXT_LINES {
        context_lines
    } else {
        MAX_CONTEXT_LINES
    }
}

/// How many lines the first `n` hunks of a diff have.
pub open spec fn lines_in(d: FileDiff, n: nat) -> nat
    decreases n,
{
    if n == 0 {
        0
    } else {
        lines_in(d, (n - 1) as nat) + d.hunks@[n - 1].lines@.len()
    }
}

/// How many lines a diff has.
pub fn total_lines(d: &FileDiff) -> (r: usize)
    requires
        lines_in(*d, d.hunks@.len()) <= usize::MAX,
    ensures
        r == lines_in(*d, d.hunks@.len()),
{
    let mut total: usize = 0;
    let mut i: usize = 0;
    while i < d.hunks.len()
        invariant
            0 <= i <= d.hunks@.len(),
            total == lines_in(*d, i as nat),
            lines_in(*d, d.hunks@.len()) <= usize::MAX,
        decreases d.hunks@.len() - i,
    {
        proof {
            lemma_lines_grow(*d, (i + 1) as nat, d.hunks@.len());
        }
        total = total + d.hunks[i].lines.len();
        i += 1;
    }
    total
}

/// More hunks never have fewer lines.
proof fn lemma_lines_grow(d: FileDiff, a: nat, b: nat)
    requires
        a <= b,
    ensures
        lines_in(d, a) <= lines_in(d, b),
    decreases b,
{
    if a < b {
        lemma_lines_grow(d, a, (b - 1) as nat);
    }
}

/// Whether a diff with this many lines is worth a warning.
pub fn is_large_diff(lines: usize) -> (r: bool)
    ensures
        r == (lines > DIFF_LINES_WARN),
{
    lines > DIFF_LINES_WARN
}

/// Which hunks a command takes, and what it does with them: staging and discarding take hunks of
/// the unstaged diff of a tracked file, unstaging takes those of the staged diff; staging goes
/// forward into the index, unstaging backward out of it, and discarding backward out of the
/// working tree.
pub proof fn law_commands_take_hunks_of_their_side(
    payload: &HunkPatchPayload,
    command: HunkCommand,
    r: AppResult<ApplyTarget>,
)
    requires
        call_ensures(validate_hunk_direction, (payload, command), r),
    ensures
        match command {
            HunkCommand::Stage => (r is Ok <==> !payload.staged && !payload.is_untracked) && (
            r matches Ok(t) ==> t is Index),
            HunkCommand::Unstage => (r is Ok <==> payload.staged) && (r matches Ok(t) ==> t
                is IndexReverse),
            HunkCommand::Discard => (r is Ok <==> !payload.staged && !payload.is_untracked) && (
            r matches Ok(t) ==> t is WorkdirReverse),
        },
        r matches Err(e) ==> e@.0 == ErrorKind::Validation,
{
}

/// A command on a file acts on the repository of the window that it comes from, and on no other:
/// a window without one is refused first, then a path that is not safe.
pub proof fn law_file_commands_act_on_the_windows_repository(
    state: &AppState,
    label: &str,
    path: &str,
    windows: bool,
    r: AppResult<String>,
)
    requires
        call_ensures(begin_file_command, (state, label, path, windows), r),
    ensures
        !state.bindings().contains_key(label@) ==> (r matches Err(e) && e@.0
            == ErrorKind::NoRepoOpen),
        state.bindings().contains_key(label@) ==> match path_refusal(path@, windows) {
            Some(e) => r matches Err(x) && x@ == e,
            None => r matches Ok(p) && p@ == state.bindings()[label@],
        },
{
}

/// A command on a hunk acts on the repository of its window, and only where both paths of the
/// payload are safe.
pub proof fn law_hunk_commands_act_on_the_windows_repository(
    state: &AppState,
    label: &str,
    payload: &HunkPatchPayload,
    windows: bool,
    r: AppResult<String>,
)
    requires
        call_ensures(begin_hunk_command, (state, label, payload, windows), r),
    ensures
        r is Ok <==> state.bindings().contains_key(label@) && path_refusal(payload.path@, windows)
            is None && (payload.old_path matches Some(old) ==> path_refusal(old@, windows) is None),
        r matches Ok(p) ==> p@ == state.bindings()[label@],
        !state.bindings().contains_key(label@) ==> (r matches Err(e) && e@.0
            == ErrorKind::NoRepoOpen),
{
}

/// The context of a diff is what was asked for, up to eight lines.
pub proof fn law_context_is_bounded(asked: u32, r: u32)
    requires
        call_ensures(clamp_context, (asked,), r),
    ensures
        r <= 8,
        r <= asked,
        r == asked || r == 8,
{
}

/// A diff has the lines of its hunks: one hunk more adds its lines. It is large beyond twenty
/// thousand.
pub proof fn law_lines_of_all_hunks_count(d: FileDiff, n: nat, lines: usize, large: bool)
    requires
        n < d.hunks@.len(),
        call_ensures(is_large_diff, (lines,), large),
    ensures
        lines_in(d, n + 1) == lines_in(d, n) + d.hunks@[n as int].lines@.len(),
        lines_in(d, 0) == 0,
        large <==> lines > 20_000,
{
}

/// A hunk that is not for its command is refused with the reason: an untracked file is taken whole,
/// and the panel the hunk came from has to be the command's own.
pub proof fn law_misdirected_hunks_are_told_why(
    payload: &HunkPatchPayload,
    command: HunkCommand,
    r: AppResult<ApplyTarget>,
)
    requires
        call_ensures(validate_hunk_direction, (payload, command), r),
    ensures
        command is Stage && payload.staged ==> r is Err && r->Err_0@.1
            == "stage_hunk expects a hunk from the unstaged diff"@,
        command is Stage && !payload.staged && payload.is_untracked ==> r is Err && r->Err_0@.1
            == "Cannot hunk-stage an untracked file; use stage_file to stage it whole instead"@,
        command is Unstage && !payload.staged ==> r is Err && r->Err_0@.1
            == "unstage_hunk expects a hunk from the staged diff"@,
        command is Discard && payload.is_untracked ==> r is Err && r->Err_0@.1
            == "Cannot discard a hunk of an untracked file; use discard_file to delete it instead"@,
        command is Discard && payload.staged && !payload.is_untracked ==> r is Err && r->Err_0@.1
            == "discard_hunk expects a hunk from the unstaged diff"@,
{
}

/// A window without a repository is told so by every command, in the same words.
pub proof fn law_windows_without_repository_are_told_so(
    state: &AppState,
    label: &str,
    path: &str,
    payload: &HunkPatchPayload,
    windows: bool,
    r: AppResult<String>,
    q: AppResult<String>,
)
    requires
        call_ensures(begin_file_command, (state, label, path, windows), r),
        call_ensures(begin_hunk_command, (state, label, payload, windows), q),
        !state.bindings().contains_key(label@),
    ensures
        r matches Err(e) && e@.1 == "No repository open"@,
        q matches Err(e) && e@.1 == "No repository open"@,
{
}

} // verus!

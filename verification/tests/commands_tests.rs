use gitrx::commands::{
    begin_file_command, begin_hunk_command, clamp_context, is_large_diff, total_lines,
    validate_hunk_direction, CommitResult, HunkCommand, DIFF_LINES_WARN,
};
use gitrx::git::apply::ApplyTarget;
use gitrx::git::diff::{DiffLine, DiffLineKind, FileDiff, Hunk};
use gitrx::error::ErrorKind;
use gitrx::git::HunkPatchPayload;
use gitrx::state::AppState;

/// Build a minimal payload with the two flags that drive direction validation.
fn payload(staged: bool, is_untracked: bool) -> HunkPatchPayload {
    HunkPatchPayload {
        path: "file.txt".to_string(),
        old_path: None,
        staged,
        is_untracked,
        context_lines: 3,
        header: "@@ -1,1 +1,1 @@".to_string(),
        lines: Vec::new(),
    }
}

#[test]
fn stage_accepts_unstaged_tracked_hunk() {
    let target = validate_hunk_direction(&payload(false, false), HunkCommand::Stage);
    assert!(matches!(target, Ok(ApplyTarget::Index)));
}

#[test]
fn stage_rejects_a_staged_hunk() {
    let err = validate_hunk_direction(&payload(true, false), HunkCommand::Stage).unwrap_err();
    assert!(err.to_string().contains("unstaged diff"), "{err:?}");
}

#[test]
fn stage_rejects_an_untracked_hunk() {
    let err = validate_hunk_direction(&payload(false, true), HunkCommand::Stage).unwrap_err();
    assert!(err.to_string().contains("stage_file"), "{err:?}");
}

#[test]
fn unstage_accepts_a_staged_hunk() {
    let target = validate_hunk_direction(&payload(true, false), HunkCommand::Unstage);
    assert!(matches!(target, Ok(ApplyTarget::IndexReverse)));
}

#[test]
fn unstage_rejects_an_unstaged_hunk() {
    let err = validate_hunk_direction(&payload(false, false), HunkCommand::Unstage).unwrap_err();
    assert!(err.to_string().contains("staged diff"), "{err:?}");
}

#[test]
fn discard_accepts_unstaged_tracked_hunk() {
    let target = validate_hunk_direction(&payload(false, false), HunkCommand::Discard);
    assert!(matches!(target, Ok(ApplyTarget::WorkdirReverse)));
}

#[test]
fn discard_rejects_an_untracked_hunk_before_checking_direction() {
    // Untracked takes precedence even when also staged.
    let err = validate_hunk_direction(&payload(true, true), HunkCommand::Discard).unwrap_err();
    assert!(err.to_string().contains("discard_file"), "{err:?}");
}

#[test]
fn discard_rejects_a_staged_hunk() {
    let err = validate_hunk_direction(&payload(true, false), HunkCommand::Discard).unwrap_err();
    assert!(err.to_string().contains("unstaged diff"), "{err:?}");
}

#[test]
fn unstage_does_not_look_at_the_untracked_flag() {
    let target = validate_hunk_direction(&payload(true, true), HunkCommand::Unstage);
    assert!(matches!(target, Ok(ApplyTarget::IndexReverse)));
}

#[test]
fn context_is_clamped_to_the_slider() {
    assert_eq!(clamp_context(0), 0);
    assert_eq!(clamp_context(8), 8);
    assert_eq!(clamp_context(9), 8);
    assert_eq!(clamp_context(u32::MAX), 8);
}

#[test]
fn large_diffs_are_those_over_the_limit() {
    assert!(!is_large_diff(DIFF_LINES_WARN));
    assert!(is_large_diff(20_001));
}

#[test]
fn total_lines_sums_over_all_hunks() {
    let line = DiffLine {
        kind: DiffLineKind::Add,
        old_line_no: None,
        new_line_no: Some(1),
        content: String::new(),
    };
    let hunk = |n: usize| Hunk {
        header: String::new(),
        old_start: 0,
        old_lines: 0,
        new_start: 1,
        new_lines: 1,
        lines: vec![line.clone(); n],
    };
    let diff = FileDiff {
        path: "a".to_string(),
        old_path: None,
        language: None,
        is_binary: false,
        is_untracked: false,
        is_lossy: false,
        hunks: vec![hunk(2), hunk(0), hunk(3)],
    };
    assert_eq!(total_lines(&diff), 5);
    assert_eq!(CommitResult { oid: "abc".to_string() }.oid, "abc");
}

#[test]
fn commands_act_on_the_repository_of_their_window() {
    let mut state = AppState::new();
    let err = begin_file_command(&state, "main", "../x", false).unwrap_err();
    assert_eq!(err.kind(), ErrorKind::NoRepoOpen);
    state.bind("main", "/a");
    state.bind("w", "/b");
    assert_eq!(begin_file_command(&state, "w", "x", false).unwrap(), "/b");
    let err = begin_file_command(&state, "w", "../x", false).unwrap_err();
    assert_eq!(err.to_string(), "Path must not contain a '..' component: ../x");

    let mut hunk = payload(false, false);
    assert_eq!(begin_hunk_command(&state, "main", &hunk, false).unwrap(), "/a");
    hunk.old_path = Some("/etc/passwd".to_string());
    let err = begin_hunk_command(&state, "main", &hunk, false).unwrap_err();
    assert_eq!(err.to_string(), "Path must be relative: /etc/passwd");
    hunk.path = String::new();
    let err = begin_hunk_command(&state, "main", &hunk, false).unwrap_err();
    assert_eq!(err.to_string(), "Path must not be empty");
}

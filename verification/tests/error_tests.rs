use gitrx::error::{is_unreadable_work_tree_file, quoted_path, AppError, ErrorKind};

#[test]
fn serde_tag_shape() {
    let cases = [
        (AppError::no_repo_open(), "noRepoOpen"),
        (AppError::stale_hunk(), "staleHunk"),
        (AppError::non_utf8_file(), "nonUtf8File"),
        (AppError::identity_missing(), "identityMissing"),
        (AppError::nothing_staged(), "nothingStaged"),
        (AppError::empty_message(), "emptyMessage"),
        (AppError::window_closed(), "windowClosed"),
        (
            AppError::unreadable_work_tree_file("invalid path for filesystem 'x'"),
            "unreadableWorkTreeFile",
        ),
        (AppError::validation("bad path"), "validation"),
        (AppError::git("boom"), "git"),
        (AppError::io("disk"), "io"),
    ];
    for (err, expected_name) in cases {
        assert_eq!(err.name(), expected_name, "tag mismatch for {err:?}");
        assert!(!err.to_string().is_empty());
    }
}

#[test]
fn git_and_io_from_preserve_historical_prefix() {
    let io = AppError::from(std::io::Error::other("nope"));
    assert_eq!(io.to_string(), "IO error: nope");
    assert!(matches!(io, AppError::Io { .. }));
}

#[test]
fn classifier_matches_only_the_filesystem_marker() {
    assert!(is_unreadable_work_tree_file(
        "invalid path for filesystem 'C:/x': The file cannot be accessed by the system."
    ));
    assert!(!is_unreadable_work_tree_file(
        "Git error: some other failure"
    ));
}

#[test]
fn unreadable_variant_carries_path_and_raw_message() {
    let raw = "invalid path for filesystem 'C:/Users/x/.ai/guidelines/guidelines.md': \
         The file cannot be accessed by the system.";
    let err = AppError::unreadable_work_tree_file(raw);
    assert!(matches!(err, AppError::UnreadableWorkTreeFile { .. }));
    let msg = err.to_string();
    assert!(msg.contains("guidelines.md"));
    assert!(msg.contains("WSL-created"));
    assert!(msg.contains("Developer Mode"));
    assert!(msg.contains(raw), "raw libgit2 message appended for fidelity");
}

#[test]
fn unreadable_variant_without_quoted_path_falls_back() {
    let err = AppError::unreadable_work_tree_file("invalid path for filesystem");
    let msg = err.to_string();
    assert!(msg.contains("a file in this repository"));
}

#[test]
fn from_git2_error_classifies_unreadable_worktree_file() {
    let raw = "invalid path for filesystem 'C:/repo/link': \
               The file cannot be accessed by the system.";
    let git_err = git2::Error::new(git2::ErrorCode::InvalidSpec, git2::ErrorClass::Os, raw);
    let app: AppError = git_err.into();
    assert!(matches!(app, AppError::UnreadableWorkTreeFile { .. }));
    assert!(app.to_string().contains("C:/repo/link"));
}

#[test]
fn from_git2_error_leaves_unrelated_errors_generic() {
    let git_err = git2::Error::from_str("reference not found");
    let app: AppError = git_err.into();
    assert!(matches!(app, AppError::Git { .. }));
    assert_eq!(app.to_string(), "Git error: reference not found");
}

#[test]
fn every_error_has_its_exact_text() {
    assert_eq!(AppError::no_repo_open().to_string(), "No repository open");
    assert_eq!(
        AppError::stale_hunk().to_string(),
        "The file changed since this diff was displayed — refresh and try again."
    );
    assert_eq!(
        AppError::non_utf8_file().to_string(),
        "File contains non-UTF-8 text — use whole-file staging"
    );
    assert_eq!(
        AppError::identity_missing().to_string(),
        "Git identity is not configured. Set it with:\n  git config --global user.name \"Your Name\"\n  git config --global user.email \"you@example.com\""
    );
    assert_eq!(AppError::nothing_staged().to_string(), "No staged changes to commit");
    assert_eq!(AppError::empty_message().to_string(), "Commit message cannot be empty");
    assert_eq!(AppError::window_closed().to_string(), "window closed");
    assert_eq!(AppError::validation("v").kind(), ErrorKind::Validation);
    assert_eq!(AppError::git("g").kind(), ErrorKind::Git);
    assert_eq!(AppError::io("i").kind(), ErrorKind::Io);
    assert_eq!(AppError::io("i").clone().to_string(), "i");
}

#[test]
fn unreadable_text_is_exact() {
    assert_eq!(
        AppError::unreadable_work_tree_file("bad 'p' end").to_string(),
        "gitrx can't read 'p' — on Windows this usually means a WSL-created symlink, which \
         Windows programs (git included) cannot follow. Replace it with a regular file, or \
         recreate it as a Windows symlink (requires Developer Mode), then retry. (bad 'p' end)"
    );
}

#[test]
fn quoted_path_takes_the_first_pair_of_quotes() {
    assert_eq!(quoted_path("a 'b' 'c'").as_deref(), Some("b"));
    assert_eq!(quoted_path("''").as_deref(), Some(""));
    assert_eq!(quoted_path("only 'one"), None);
    assert_eq!(quoted_path("none"), None);
}

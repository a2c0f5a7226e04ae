use gitrx::error::{AppError, AppResult, ErrorKind};
use gitrx::git::apply::{
    apply_patch, checkout_index_path, command_outcome, git_executable, locate_git, ApplyTarget,
    CommandOutput,
};
use gitrx::git::diff::{
    collect_hunks, convert_line, find_delta_by_new_path, find_delta_index, line_content, trim_line,
    DeltaStatus, DiffLineKind, LineOrigin, RawDelta, RawHunk, RawLine,
};
use std::cell::RefCell;

fn ended(success: bool, stderr: &[u8]) -> CommandOutput {
    CommandOutput {
        success,
        status: "exit status: 128".to_string(),
        stderr: stderr.to_vec(),
    }
}

#[test]
fn failures_of_commands_are_told() {
    assert!(command_outcome("git apply", &ended(true, b"noise")).is_ok());
    let text = |stderr: &[u8]| {
        let err = command_outcome("git apply", &ended(false, stderr)).unwrap_err();
        assert_eq!(err.kind(), ErrorKind::Git);
        err.to_string()
    };
    assert_eq!(text(b"  no\n"), "git apply failed: no");
    assert_eq!(text(b" \n"), "git apply exited with status exit status: 128");
    assert_eq!(text(b"caf\xe9"), "git apply failed: caf\u{fffd}");
}

#[test]
fn git_gets_its_arguments_and_the_patch() {
    let patch = b"@@ -1,0 +1,1 @@\n+a\n".to_vec();
    let run = |args: &Vec<&'static str>, input: &Vec<u8>| -> AppResult<CommandOutput> {
        assert_eq!(
            args,
            &["apply", "--reverse", "--whitespace=nowarn", "--unidiff-zero", "-"]
        );
        assert_eq!(input, &patch);
        Ok(ended(true, b""))
    };
    assert!(apply_patch(&patch, ApplyTarget::WorkdirReverse, &run).is_ok());
    let fails = |_: &Vec<&'static str>, _: &Vec<u8>| -> AppResult<CommandOutput> {
        Err(AppError::git("Failed to spawn git: gone"))
    };
    let err = apply_patch(&patch, ApplyTarget::Index, &fails).unwrap_err();
    assert_eq!(err.to_string(), "Failed to spawn git: gone");
}

#[test]
fn files_are_restored_by_their_literal_name() {
    let run = |args: &Vec<String>| -> AppResult<CommandOutput> {
        assert_eq!(args, &["checkout-index", "--force", "--", "-x[1].txt"]);
        Ok(ended(false, b"fatal"))
    };
    let err = checkout_index_path("-x[1].txt", &run).unwrap_err();
    assert_eq!(err.to_string(), "git checkout-index failed: fatal");
}

/// Every place that is tried, in order, where none has the program.
fn places(dirs: &[&str]) -> Vec<(String, bool)> {
    let tried = RefCell::new(Vec::new());
    let usable = |path: &str, on_path: bool| {
        tried.borrow_mut().push((path.to_string(), on_path));
        false
    };
    let dirs = dirs.iter().map(|d| d.to_string()).collect();
    assert_eq!(locate_git(&dirs, &usable), None);
    tried.into_inner()
}

#[test]
fn git_is_looked_for_by_absolute_path() {
    let tried = places(&["", ".", "/bin", "rel/bin", "/usr/local/bin/"]);
    let expected = [
        ("/bin/git", true),
        ("/usr/local/bin/git", true),
        ("/usr/bin/git", false),
        ("/opt/homebrew/bin/git", false),
    ];
    assert_eq!(tried.len(), expected.len());
    for (got, want) in tried.iter().zip(expected) {
        assert_eq!((got.0.as_str(), got.1), want);
        assert!(std::path::Path::new(&got.0).is_absolute());
    }
}

#[test]
fn the_first_usable_git_is_taken() {
    let dirs = vec!["/a".to_string(), "/b".to_string()];
    let usable = |path: &str, _: bool| path.starts_with("/b") || path.starts_with("/usr");
    assert_eq!(locate_git(&dirs, &usable).as_deref(), Some("/b/git"));
    assert_eq!(git_executable(Some("/b/git".to_string())).unwrap(), "/b/git");
    assert_eq!(
        git_executable(None).unwrap_err().to_string(),
        "git executable not found (checked PATH, /usr/bin/git, /opt/homebrew/bin/git)"
    );
}

/// Text lines keep their bytes, but for the newline at their end.
#[test]
fn lines_keep_their_bytes() {
    for bytes in [&b"a\r\n"[..], b"a\n", b"a", b"\n", b"", b"two\n\n", "\u{e9}\n".as_bytes()] {
        let (text, lossy) = line_content(&bytes.to_vec());
        assert!(!lossy);
        assert_eq!(text.as_bytes(), bytes.strip_suffix(b"\n").unwrap_or(bytes));
    }
    assert_eq!(line_content(&b"caf\xe9\n".to_vec()), ("caf\u{fffd}".to_string(), true));
    assert_eq!(trim_line("@@ -1 +1 @@\r\n"), "@@ -1 +1 @@");
    assert_eq!(trim_line("x\n"), "x");
    assert_eq!(trim_line("x"), "x");
}

fn raw_line(origin: LineOrigin, content: &[u8]) -> RawLine {
    RawLine {
        origin,
        old_lineno: Some(3),
        new_lineno: Some(4),
        content: content.to_vec(),
    }
}

#[test]
fn lines_get_the_numbers_of_their_side() {
    let shown = |origin: LineOrigin| {
        let (line, lossy) = convert_line(&raw_line(origin, b"x\n"));
        assert!(!lossy);
        (line.kind, line.old_line_no, line.new_line_no, line.content)
    };
    let x = || "x".to_string();
    assert_eq!(
        shown(LineOrigin::Context),
        (DiffLineKind::Context, Some(3), Some(4), x())
    );
    assert_eq!(
        shown(LineOrigin::Binary),
        (DiffLineKind::Context, Some(3), Some(4), x())
    );
    assert_eq!(shown(LineOrigin::Addition), (DiffLineKind::Add, None, Some(4), x()));
    assert_eq!(shown(LineOrigin::Deletion), (DiffLineKind::Del, Some(3), None, x()));
    for origin in [LineOrigin::ContextEofnl, LineOrigin::AddEofnl, LineOrigin::DeleteEofnl] {
        assert_eq!(
            shown(origin),
            (
                DiffLineKind::NoNewline,
                None,
                None,
                "\\ No newline at end of file".to_string()
            )
        );
    }
}

#[test]
fn one_bad_line_makes_a_diff_lossy() {
    let hunk = |lines: Vec<RawLine>| RawHunk {
        header: b"@@ -1 +1 @@ caf\xe9\n".to_vec(),
        old_start: 1,
        old_lines: 1,
        new_start: 1,
        new_lines: 1,
        lines,
    };
    let good = || raw_line(LineOrigin::Addition, b"a\n");
    let (hunks, lossy) = collect_hunks(&vec![hunk(vec![good()])]);
    assert!(!lossy, "a header is no line");
    assert_eq!(hunks[0].header, "@@ -1 +1 @@ caf\u{fffd}");
    let bad = raw_line(LineOrigin::Deletion, b"\xff");
    let (hunks, lossy) = collect_hunks(&vec![hunk(vec![good(), bad]), hunk(vec![good()])]);
    assert!(lossy);
    assert_eq!(hunks.len(), 2);
    assert_eq!(hunks[0].lines.len(), 2);
}

#[test]
fn deltas_are_found_by_their_paths() {
    let delta = |new_path: Option<&str>, old_path: Option<&str>| RawDelta {
        status: DeltaStatus::Renamed,
        new_path: new_path.map(str::to_string),
        old_path: old_path.map(str::to_string),
    };
    let deltas = vec![
        delta(Some("b"), Some("a")),
        delta(Some("a"), None),
        delta(None, Some("c")),
    ];
    assert_eq!(find_delta_index(&deltas, "a"), Some(0));
    assert_eq!(find_delta_by_new_path(&deltas, "a"), Some(1));
    assert_eq!(find_delta_index(&deltas, "c"), Some(2));
    assert_eq!(find_delta_by_new_path(&deltas, "c"), None);
    assert_eq!(find_delta_index(&deltas, "d"), None);
}

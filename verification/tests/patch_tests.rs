use gitrx::git::apply::{build_args, patch_has_context, ApplyTarget};
use gitrx::git::patch::{parse_starts, PatchLine, PatchLineKind};
use gitrx::git::{build_patch, HunkPatchPayload};

fn line(kind: PatchLineKind, content: &str) -> PatchLine {
    PatchLine {
        kind,
        content: content.to_string(),
    }
}

fn payload(header: &str, lines: Vec<PatchLine>) -> HunkPatchPayload {
    HunkPatchPayload {
        path: "f.txt".to_string(),
        old_path: None,
        staged: false,
        is_untracked: false,
        context_lines: 3,
        header: header.to_string(),
        lines,
    }
}

fn as_str(bytes: &[u8]) -> String {
    String::from_utf8(bytes.to_vec()).unwrap()
}

#[test]
fn modify_hunk_recomputes_counts() {
    let p = payload(
        "@@ -1,5 +1,5 @@ fn context()",
        vec![
            line(PatchLineKind::Context, "a"),
            line(PatchLineKind::Context, "b"),
            line(PatchLineKind::Del, "c"),
            line(PatchLineKind::Add, "CHANGED"),
            line(PatchLineKind::Context, "d"),
            line(PatchLineKind::Context, "e"),
        ],
    );
    let out = as_str(&build_patch(&p).unwrap());
    let expected = "diff --git a/f.txt b/f.txt\n\
         --- a/f.txt\n\
         +++ b/f.txt\n\
         @@ -1,5 +1,5 @@\n\
         \x20a\n b\n-c\n+CHANGED\n d\n e\n";
    assert_eq!(out, expected);
}

#[test]
fn untracked_payload_is_rejected() {
    let mut p = payload(
        "@@ -0,0 +1,2 @@",
        vec![line(PatchLineKind::Add, "x1"), line(PatchLineKind::Add, "x2")],
    );
    p.is_untracked = true;
    let err = build_patch(&p).unwrap_err();
    assert!(
        err.to_string().to_lowercase().contains("untracked"),
        "expected an untracked rejection, got: {err:?}"
    );
}

#[test]
fn empty_lines_is_rejected() {
    let p = payload("@@ -1,0 +1,0 @@", vec![]);
    assert!(build_patch(&p).is_err(), "empty hunk must be rejected");
}

#[test]
fn embedded_newline_in_content_is_rejected() {
    let p = payload("@@ -1,1 +1,1 @@", vec![line(PatchLineKind::Add, "a\nb")]);
    assert!(build_patch(&p).is_err(), "embedded newline must be rejected");
}

#[test]
fn embedded_nul_in_content_is_rejected() {
    let p = payload("@@ -1,1 +1,1 @@", vec![line(PatchLineKind::Add, "a\0b")]);
    assert!(build_patch(&p).is_err(), "embedded NUL must be rejected");
}

#[test]
fn trailing_cr_in_content_stays_legal() {
    let p = payload(
        "@@ -1,1 +1,1 @@",
        vec![line(PatchLineKind::Del, "a\r"), line(PatchLineKind::Add, "b\r")],
    );
    assert!(build_patch(&p).is_ok(), "trailing CR must remain legal");
}

#[test]
fn pure_addition_has_zero_old_count() {
    let p = payload(
        "@@ -5,0 +6,2 @@",
        vec![line(PatchLineKind::Add, "n1"), line(PatchLineKind::Add, "n2")],
    );
    let out = as_str(&build_patch(&p).unwrap());
    assert!(out.contains("@@ -5,0 +6,2 @@\n"), "got: {out}");
}

#[test]
fn pure_deletion_has_zero_new_count() {
    let p = payload(
        "@@ -6,2 +5,0 @@",
        vec![line(PatchLineKind::Del, "n1"), line(PatchLineKind::Del, "n2")],
    );
    let out = as_str(&build_patch(&p).unwrap());
    assert!(out.contains("@@ -6,2 +5,0 @@\n"), "got: {out}");
}

#[test]
fn no_newline_marker_is_emitted_verbatim_and_uncounted() {
    let p = payload(
        "@@ -1,2 +1,2 @@",
        vec![
            line(PatchLineKind::Context, "p"),
            line(PatchLineKind::Del, "q"),
            line(PatchLineKind::Add, "qEDIT"),
            line(PatchLineKind::NoNewline, "\\ No newline at end of file"),
        ],
    );
    let out = as_str(&build_patch(&p).unwrap());
    assert!(
        out.ends_with("+qEDIT\n\\ No newline at end of file\n"),
        "got: {out}"
    );
    assert!(out.contains("@@ -1,2 +1,2 @@\n"), "got: {out}");
}

#[test]
fn crlf_content_round_trips_byte_exact() {
    let p = payload(
        "@@ -1,3 +1,3 @@",
        vec![
            line(PatchLineKind::Context, "a\r"),
            line(PatchLineKind::Del, "c\r"),
            line(PatchLineKind::Add, "CHANGED\r"),
        ],
    );
    let bytes = build_patch(&p).unwrap();
    let needle = b"+CHANGED\r\n";
    assert!(
        bytes.windows(needle.len()).any(|w| w == needle),
        "expected CR-preserved add line in {:?}",
        String::from_utf8_lossy(&bytes)
    );
    assert!(bytes.windows(4).any(|w| w == b" a\r\n"));
}

#[test]
fn renamed_old_path_is_emitted() {
    let mut p = payload(
        "@@ -1,1 +1,1 @@",
        vec![line(PatchLineKind::Del, "x"), line(PatchLineKind::Add, "y")],
    );
    p.old_path = Some("old.txt".to_string());
    let out = as_str(&build_patch(&p).unwrap());
    assert!(
        out.starts_with("diff --git a/old.txt b/f.txt\n"),
        "got: {out}"
    );
    assert!(out.contains("--- a/old.txt\n"), "got: {out}");
    assert!(out.contains("+++ b/f.txt\n"), "got: {out}");
}

#[test]
fn header_shorthand_count_of_one_parses() {
    let p = payload(
        "@@ -3 +3 @@",
        vec![line(PatchLineKind::Del, "x"), line(PatchLineKind::Add, "y")],
    );
    let out = as_str(&build_patch(&p).unwrap());
    assert!(out.contains("@@ -3,1 +3,1 @@\n"), "got: {out}");
}

#[test]
fn malformed_header_errors() {
    let p = payload("not a hunk header", vec![line(PatchLineKind::Add, "x")]);
    assert!(build_patch(&p).is_err());
}

#[test]
fn patch_refusals_have_their_exact_texts() {
    let mut p = payload("bad", vec![]);
    p.is_untracked = true;
    p.path = "a\nb".to_string();
    let text = |p: &HunkPatchPayload| build_patch(p).unwrap_err().to_string();
    assert_eq!(
        text(&p),
        "Refusing to synthesize a patch for an untracked file; stage it whole-file instead"
    );
    p.is_untracked = false;
    assert_eq!(text(&p), "Hunk payload has no lines to apply");
    p.lines = vec![line(PatchLineKind::Add, "x\0")];
    assert_eq!(text(&p), "Path must not contain newline or NUL characters");
    p.path = "a".to_string();
    p.old_path = Some("o\0".to_string());
    assert_eq!(text(&p), "Path must not contain newline or NUL characters");
    p.old_path = None;
    assert_eq!(text(&p), "Line content must not contain newline or NUL characters");
    p.lines = vec![line(PatchLineKind::Add, "x")];
    assert_eq!(text(&p), "Malformed hunk header: bad");
}

/// The lines of a patch are those of the payload, one for one.
#[test]
fn patch_has_one_line_for_each_payload_line() {
    let p = payload(
        "@@ -7 +9 @@",
        vec![
            line(PatchLineKind::Context, "@@ -1 +1 @@"),
            line(PatchLineKind::Add, "diff --git a/x b/x"),
            line(PatchLineKind::Del, "é"),
        ],
    );
    let out = as_str(&build_patch(&p).unwrap());
    let rows: Vec<&str> = out.split('\n').collect();
    assert_eq!(
        rows,
        vec![
            "diff --git a/f.txt b/f.txt",
            "--- a/f.txt",
            "+++ b/f.txt",
            "@@ -7,2 +9,2 @@",
            " @@ -1 +1 @@",
            "+diff --git a/x b/x",
            "-é",
            "",
        ]
    );
}

/// A recomputed header gives back the start numbers it was made from.
#[test]
fn recomputed_header_reads_back() {
    for (o, n) in [(0u64, 1u64), (12, 345), (u64::MAX, 7)] {
        let header = format!("@@ -{o},3 +{n},4 @@ fn x() -9 +9");
        assert_eq!(parse_starts(&header).unwrap(), (o, n));
    }
    // The first word that gives a number counts.
    assert_eq!(parse_starts("@@ -x -2 + +5,1 @@").unwrap(), (2, 5));
    assert!(parse_starts("@@ -1 @@").is_err());
    assert!(parse_starts("@@ -18446744073709551616 +1 @@").is_err());
}

#[test]
fn arguments_of_git_apply() {
    let plain = b"--- a/f\n+++ b/f\n@@ -1,1 +1,1 @@\n-a\n+b\n".to_vec();
    let with_context = b"--- a/f\n+++ b/f\n@@ -1,2 +1,2 @@\n x\n-a\n+b\n".to_vec();
    assert!(!patch_has_context(&plain));
    assert!(patch_has_context(&with_context));
    // A space before the first hunk header is no context.
    assert!(!patch_has_context(&b" a\n@@ -1 +1 @@\n+b".to_vec()));
    assert_eq!(
        build_args(ApplyTarget::Index, &with_context),
        vec!["apply", "--cached", "--whitespace=nowarn", "-"]
    );
    assert_eq!(
        build_args(ApplyTarget::IndexReverse, &plain),
        vec![
            "apply",
            "--cached",
            "--reverse",
            "--whitespace=nowarn",
            "--unidiff-zero",
            "-"
        ]
    );
    assert_eq!(
        build_args(ApplyTarget::WorkdirReverse, &with_context),
        vec!["apply", "--reverse", "--whitespace=nowarn", "-"]
    );
}

/// A built patch counts as one with context exactly when the payload has a context line.
#[test]
fn context_of_a_patch_is_that_of_its_payload() {
    let without = payload("@@ -1 +1 @@", vec![line(PatchLineKind::Add, " x")]);
    assert!(!patch_has_context(&build_patch(&without).unwrap()));
    let with = payload(
        "@@ -1 +1 @@",
        vec![line(PatchLineKind::Add, "x"), line(PatchLineKind::Context, "")],
    );
    assert!(patch_has_context(&build_patch(&with).unwrap()));
}

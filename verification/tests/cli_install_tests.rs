use gitrx::cli_install::{
    applescript_escape, candidate_dirs, choose_install_dir, destination, elevated_outcome,
    elevated_script, install_report, is_user_cancellation, shell_single_quote, InstallOutcome,
};
use gitrx::git::apply::CommandOutput;

#[test]
fn chooses_first_writable_candidate() {
    let a = tempfile::tempdir().unwrap();
    let b = tempfile::tempdir().unwrap();
    let text = |p: &std::path::Path| p.to_str().unwrap().to_string();
    let candidates = vec![text(a.path()), text(b.path())];
    let is_writable = |dir: &str| tempfile::tempfile_in(dir).is_ok();
    assert_eq!(
        choose_install_dir(&candidates, &is_writable),
        Some(text(a.path()))
    );
}

#[test]
fn falls_through_to_second_writable_candidate() {
    let second = tempfile::tempdir().unwrap();
    let second = second.path().to_str().unwrap().to_string();
    let candidates = vec![format!("{second}/missing"), second.clone()];
    let is_writable = |dir: &str| tempfile::tempfile_in(dir).is_ok();
    assert_eq!(choose_install_dir(&candidates, &is_writable), Some(second));
}

#[test]
fn returns_none_when_no_candidate_is_writable() {
    let candidates = vec!["/x".to_string(), "/y".to_string()];
    assert_eq!(choose_install_dir(&candidates, &|_: &str| false), None);
}

#[test]
fn shell_single_quote_escapes_quotes() {
    assert_eq!(shell_single_quote("/tmp/a b"), "'/tmp/a b'");
    assert_eq!(shell_single_quote("it's"), r"'it'\''s'");
}

#[test]
fn applescript_escape_escapes_backslash_and_quote() {
    assert_eq!(applescript_escape(r#"a"b\c"#), r#"a\"b\\c"#);
}

#[test]
fn detects_user_cancellation() {
    assert!(is_user_cancellation(
        "execution error: User canceled. (-128)"
    ));
    assert!(!is_user_cancellation("execution error: something else (1)"));
}

#[test]
fn candidates_and_destination() {
    assert_eq!(candidate_dirs(), vec!["/opt/homebrew/bin", "/usr/local/bin"]);
    assert_eq!(destination("/opt/homebrew/bin"), "/opt/homebrew/bin/gitrx");
}

#[test]
fn elevated_script_quotes_the_copy() {
    assert_eq!(
        elevated_script("/tmp/it's \"here\""),
        "do shell script \"/bin/mkdir -p '/usr/local/bin' && /usr/bin/install -m 0755 \
         '/tmp/it'\\\\''s \\\"here\\\"' '/usr/local/bin/gitrx'\" with administrator privileges"
    );
}

fn ended(success: bool, stderr: &str) -> CommandOutput {
    CommandOutput {
        success,
        status: "exit status: 1".to_string(),
        stderr: stderr.as_bytes().to_vec(),
    }
}

#[test]
fn elevated_outcomes() {
    assert_eq!(
        elevated_outcome(&ended(true, "whatever")),
        Ok(InstallOutcome::Installed("/usr/local/bin/gitrx".to_string()))
    );
    assert_eq!(
        elevated_outcome(&ended(false, "User canceled. (-128)")),
        Ok(InstallOutcome::Cancelled)
    );
    assert_eq!(
        elevated_outcome(&ended(false, "  no disk \n")),
        Err("Elevated install failed: no disk".to_string())
    );
    assert_eq!(
        elevated_outcome(&ended(false, " \n")),
        Err("Elevated install failed: authorization failed".to_string())
    );
}

#[test]
fn install_reports() {
    let done = install_report(&Ok(InstallOutcome::Installed("/b/gitrx".to_string()))).unwrap();
    assert_eq!(done.title, "Command Line Tool");
    assert_eq!(done.message, "Installed gitrx to /b/gitrx.\n\nTry: gitrx .");
    assert!(!done.is_error);
    assert_eq!(install_report(&Ok(InstallOutcome::Cancelled)), None);
    let failed = install_report(&Err("why".to_string())).unwrap();
    assert_eq!(failed.title, "Install Failed");
    assert_eq!(failed.message, "Could not install gitrx.\n\nwhy");
    assert!(failed.is_error);
}

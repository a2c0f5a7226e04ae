use gitrx::error::{AppError, AppResult, ErrorKind};
use gitrx::git::repo::open_repository;
use gitrx::state::AppState;
use gitrx::windows::{
    collect_paths, decide_open, first_path_arg, fnv1a, focus_any_window, handle_second_instance,
    label_for_repo, load_open_repos, normalize, open_or_focus, open_repos_to_json,
    parse_open_repos, persist_open_repos, resolve_arg_path, resolve_cli_workdir, resolve_workdir,
    startup_restore, window_built, OpenDecision, RestoreStep, SecondLaunch, MAIN_LABEL,
};
use serde_json::Value;

fn texts(v: &[&str]) -> Vec<String> {
    v.iter().map(|s| s.to_string()).collect()
}

fn pairs(v: &[(&str, &str)]) -> Vec<(String, String)> {
    v.iter().map(|(a, b)| (a.to_string(), b.to_string())).collect()
}

#[test]
fn label_is_stable_for_the_same_path() {
    assert_eq!(label_for_repo("/home/me/repo"), label_for_repo("/home/me/repo"));
}

#[test]
fn label_distinguishes_different_paths() {
    assert_ne!(label_for_repo("/home/me/a"), label_for_repo("/home/me/b"));
}

#[test]
fn label_ignores_trailing_slash() {
    assert_eq!(label_for_repo("/home/me/repo"), label_for_repo("/home/me/repo/"));
}

#[test]
fn label_has_expected_shape() {
    let label = label_for_repo("/x");
    assert!(label.starts_with("repo-"));
    assert_eq!(label.len(), "repo-".len() + 16);
}

#[test]
fn decide_open_creates_when_empty() {
    let existing: Vec<(String, String)> = Vec::new();
    let decision = decide_open(&existing, "/repos/new");
    assert_eq!(
        decision,
        OpenDecision::CreateNew(label_for_repo("/repos/new"))
    );
}

#[test]
fn decide_open_focuses_existing_match() {
    let existing = pairs(&[("main", "/repos/a"), ("repo-x", "/repos/b")]);
    let decision = decide_open(&existing, "/repos/b");
    assert_eq!(decision, OpenDecision::Focus("repo-x".to_string()));
}

#[test]
fn decide_open_focus_is_trailing_slash_insensitive() {
    // Stored with git2's trailing slash; requested without (and vice versa).
    let existing = pairs(&[("main", "/repos/a/")]);
    let decision = decide_open(&existing, "/repos/a");
    assert_eq!(decision, OpenDecision::Focus("main".to_string()));
}

#[test]
fn resolve_workdir_rejects_non_repo() {
    let dir = tempfile::tempdir().unwrap();
    let path = dir.path().to_str().unwrap();
    let refused = open_repository(path, git2::Repository::discover(path)).err().unwrap();
    assert_eq!(refused.kind(), ErrorKind::Validation);
    let text = refused.to_string();
    assert!(text.starts_with(&format!("Not a git repository: {path} (")), "{text}");
    assert!(text.contains("could not find repository"), "{text}");
}

#[test]
fn open_repos_round_trip() {
    let paths = texts(&["/repos/a", "/repos/b"]);
    let json = open_repos_to_json(&paths);
    assert_eq!(parse_open_repos(&json), paths);
}

#[test]
fn parse_open_repos_drops_non_strings_and_empties() {
    let value = Value::Array(vec![
        Value::from("/repos/a"),
        Value::from(""),
        Value::from(42),
        Value::Null,
        Value::from("/repos/b"),
    ]);
    assert_eq!(parse_open_repos(&value), texts(&["/repos/a", "/repos/b"]));
}

#[test]
fn parse_open_repos_non_array_is_empty() {
    assert!(parse_open_repos(&Value::from("nope")).is_empty());
    assert!(parse_open_repos(&Value::Null).is_empty());
}

#[test]
fn first_path_arg_takes_first_positional() {
    let argv = texts(&["gitrx", "/repos/a"]);
    assert_eq!(first_path_arg(&argv), Some("/repos/a".to_string()));
}

#[test]
fn first_path_arg_skips_flags_and_empties() {
    let argv = texts(&["gitrx", "--flag", "", "/repos/b"]);
    assert_eq!(first_path_arg(&argv), Some("/repos/b".to_string()));
}

#[test]
fn first_path_arg_none_when_only_binary() {
    assert_eq!(first_path_arg(&texts(&["gitrx"])), None);
}

#[test]
fn resolve_arg_path_joins_relative_against_cwd() {
    assert_eq!(resolve_arg_path("sub/dir", "/work"), "/work/sub/dir");
    assert_eq!(resolve_arg_path(".", "/work"), "/work/.");
}

#[test]
fn resolve_arg_path_passes_absolute_through() {
    assert_eq!(resolve_arg_path("/abs/path", "/work"), "/abs/path");
}

#[test]
fn labels_have_exact_values() {
    // Values of the published FNV-1a test suite.
    assert_eq!(fnv1a(&vec![]), 0xcbf29ce484222325);
    assert_eq!(fnv1a(&b"a".to_vec()), 0xaf63dc4c8601ec8c);
    assert_eq!(fnv1a(&b"foobar".to_vec()), 0x85944171f73967e8);
    assert_eq!(label_for_repo("foobar/"), "repo-85944171f73967e8");
}

#[test]
fn normal_forms() {
    assert_eq!(normalize("/a/b//"), "/a/b");
    assert_eq!(normalize("/"), "/");
    assert_eq!(normalize("///"), "/");
    assert_eq!(normalize(""), "/");
    assert_eq!(normalize("a"), "a");
}

#[test]
fn an_opened_repo_is_focused_the_next_time() {
    let mut existing = pairs(&[("main", "/repos/a")]);
    let label = match decide_open(&existing, "/repos/b") {
        OpenDecision::CreateNew(label) => label,
        OpenDecision::Focus(_) => panic!("nothing shows it yet"),
    };
    existing.push((label.clone(), "/repos/b".to_string()));
    assert_eq!(decide_open(&existing, "/repos/b/"), OpenDecision::Focus(label));
}

#[test]
fn a_repository_is_keyed_by_its_canonical_working_tree() {
    let canonical = |p: &str| Some(format!("/real{p}"));
    let nothing = |_: &str| None;
    let w = || Some("/w/".to_string());
    assert_eq!(resolve_workdir(w(), "/w/.git/".to_string(), &canonical), "/real/w/");
    assert_eq!(resolve_workdir(None, "/b.git/".to_string(), &canonical), "/real/b.git/");
    assert_eq!(resolve_workdir(w(), "/w/.git/".to_string(), &nothing), "/w/");
}

#[test]
fn command_line_paths_are_resolved() {
    let there = |p: &str| p == "/work/sub";
    let resolve = |p: &str| -> AppResult<String> { Ok(format!("{p}!")) };
    assert_eq!(
        resolve_cli_workdir("sub", "/work", &there, &resolve).unwrap(),
        "/work/sub!"
    );
    let err = resolve_cli_workdir("gone", "/work", &there, &resolve).unwrap_err();
    assert_eq!(err.kind(), ErrorKind::Validation);
    assert_eq!(err.to_string(), "Cannot resolve path '/work/gone'");
    let fail = |_: &str| -> AppResult<String> { Err(AppError::git("no")) };
    assert_eq!(
        resolve_cli_workdir("sub", "/work", &there, &fail).unwrap_err().to_string(),
        "no"
    );
}

#[test]
fn the_focused_window_is_brought_to_the_front() {
    assert_eq!(focus_any_window(&vec![]), None);
    assert_eq!(focus_any_window(&vec![false, false]), Some(0));
    assert_eq!(focus_any_window(&vec![false, true, true]), Some(1));
}

#[test]
fn open_repositories_are_kept_sorted_and_once() {
    let mut state = AppState::new();
    assert!(persist_open_repos(&state).is_none());
    state.bind(MAIN_LABEL, "/z");
    state.bind("w1", "/a");
    state.bind("w2", "/z");
    state.bind("w3", "/é");
    assert_eq!(state.collect_open_repos(), texts(&["/a", "/z", "/é"]));
    let stored = persist_open_repos(&state).unwrap();
    assert_eq!(parse_open_repos(&stored.open_repos), texts(&["/a", "/z", "/é"]));
    // The repository opened last, not the last one in order.
    assert_eq!(stored.last_repo, Value::from("/é"));
    state.bind("w4", "/a");
    assert_eq!(persist_open_repos(&state).unwrap().last_repo, Value::from("/a"));
    assert_eq!(
        load_open_repos(&Some(stored.open_repos), &None),
        texts(&["/a", "/z", "/é"])
    );
}

#[test]
fn a_single_stored_repo_is_taken_over() {
    assert_eq!(load_open_repos(&None, &Some(Value::from("/a"))), texts(&["/a"]));
    assert!(load_open_repos(&None, &Some(Value::from(""))).is_empty());
    assert!(load_open_repos(&None, &Some(Value::from(1))).is_empty());
    assert!(load_open_repos(&None, &None).is_empty());
    // A stored list counts, also where it is empty.
    let empty = Some(Value::Array(vec![]));
    assert!(load_open_repos(&empty, &Some(Value::from("/a"))).is_empty());
}

#[test]
fn items_that_are_no_paths_are_left_out() {
    let items = vec![Some("a".to_string()), None, Some(String::new()), Some("b".to_string())];
    assert_eq!(collect_paths(&items), texts(&["a", "b"]));
}

#[test]
fn startup_opens_each_repository_once() {
    let open = |p: &str| RestoreStep::OpenWindow(label_for_repo(p), p.to_string());
    let stored = vec![
        Some("/a".to_string()),
        None,
        Some("/b/".to_string()),
        Some("/a/".to_string()),
        Some("/b".to_string()),
        Some("/c".to_string()),
    ];
    assert_eq!(
        startup_restore(Some("/b".to_string()), &stored),
        vec![RestoreStep::BindMain("/b".to_string()), open("/a"), open("/c")]
    );
    assert_eq!(
        startup_restore(None, &stored),
        vec![RestoreStep::BindMain("/a".to_string()), open("/b/"), open("/c")]
    );
    assert!(startup_restore(None, &vec![None]).is_empty());
}

#[test]
fn a_window_that_fails_to_build_loses_its_binding() {
    let mut state = AppState::new();
    state.bind("w", "/a");
    assert!(window_built(&mut state, "w", Ok(())).is_ok());
    assert!(state.window_repo_path("w").is_ok());
    assert_eq!(
        window_built(&mut state, "w", Err("no screen".to_string())),
        Err("Failed to open window: no screen".to_string())
    );
    assert!(state.window_repo_path("w").is_err());
}

#[test]
fn bindings_are_looked_up_by_window() {
    let mut state = AppState::new();
    let err = state.window_repo_path("main").unwrap_err();
    assert_eq!(err.kind(), ErrorKind::NoRepoOpen);
    state.set_window_repo("main", "/a", true).unwrap();
    state.set_window_repo("w", "/b", true).unwrap();
    state.set_window_repo("main", "/c", true).unwrap();
    assert_eq!(state.window_repo_path("main").unwrap(), "/c");
    assert_eq!(state.window_repo_path("w").unwrap(), "/b");
    assert_eq!(state.snapshot(), pairs(&[("main", "/c"), ("w", "/b")]));
    let err = state.set_window_repo("gone", "/d", false).unwrap_err();
    assert_eq!(err.kind(), ErrorKind::WindowClosed);
    assert_eq!(state.last_opened.as_deref(), Some("/c"));
    assert!(state.remove_window("main"));
    assert!(!state.remove_window("main"));
    assert_eq!(state.window_repo_path("w").unwrap(), "/b");
}

#[test]
fn windows_that_close_on_quitting_stay_in_the_stored_list() {
    let mut state = AppState::default();
    state.bind("a", "/a");
    state.bind("b", "/b");
    assert!(state.window_destroyed("a"));
    assert!(!state.window_destroyed("a"));
    state.exit_requested();
    assert!(!state.window_destroyed("b"));
    assert_eq!(state.window_repo_path("b").unwrap(), "/b");
}

/// A repository that a window shows is focused, whatever separators stand at its end.
#[test]
fn bound_repo_is_focused() {
    let mut state = AppState::new();
    state.bind(MAIN_LABEL, "/repos/a");
    let label = match open_or_focus(&state, "/repos/b") {
        OpenDecision::CreateNew(label) => label,
        OpenDecision::Focus(_) => panic!("no window shows it"),
    };
    assert_eq!(label, label_for_repo("/repos/b"));
    state.bind(&label, "/repos/b");
    assert_eq!(open_or_focus(&state, "/repos/b/"), OpenDecision::Focus(label));
    assert_eq!(
        open_or_focus(&state, "/repos/a"),
        OpenDecision::Focus(MAIN_LABEL.to_string())
    );
}

#[test]
fn a_second_launch_is_forwarded() {
    let there = |p: &str| p == "/work/sub";
    let resolve = |p: &str| -> AppResult<String> { Ok(format!("{p}!")) };
    match handle_second_instance(&texts(&["gitrx", "sub"]), "/work", &there, &resolve) {
        SecondLaunch::Open(workdir) => assert_eq!(workdir, "/work/sub!"),
        other => panic!("{other:?}"),
    }
    match handle_second_instance(&texts(&["gitrx", "gone"]), "/work", &there, &resolve) {
        SecondLaunch::FocusAny(Some(e)) => {
            assert_eq!(e.to_string(), "Cannot resolve path '/work/gone'")
        }
        other => panic!("{other:?}"),
    }
    match handle_second_instance(&texts(&["gitrx", "-x"]), "/work", &there, &resolve) {
        SecondLaunch::FocusAny(None) => {}
        other => panic!("{other:?}"),
    }
}

#[test]
fn labels_ignore_any_number_of_separators() {
    for n in 0..5 {
        let path = format!("/home/me/repo{}", "/".repeat(n));
        assert_eq!(label_for_repo(&path), label_for_repo("/home/me/repo"));
    }
}

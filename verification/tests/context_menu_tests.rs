use gitrx::context_menu::{
    append_gitignore_entries, basename, build_menu, derive_selection, escape_gitignore_pattern,
    full_paths, handle_menu_event, run_action, selection_label, start_action, status_map,
    trash_failed, valid_candidates, ActionStart, ActionStep, CtxAction, Derived, MenuEntry,
};
use gitrx::menu;
use gitrx::state::PendingCtxMenu;
use gitrx::watch::Reason;

const WT_NEW: u32 = 1 << 7;
const WT_MODIFIED: u32 = 1 << 8;

fn texts(v: &[&str]) -> Vec<String> {
    v.iter().map(|s| s.to_string()).collect()
}

/// The content of an ignore file with `existing` content once `paths` are ignored.
fn appended(existing: &str, paths: &[&str]) -> String {
    append_gitignore_entries(existing, &texts(paths)).unwrap_or_else(|| existing.to_string())
}

#[test]
fn selection_label_single_and_multi() {
    assert_eq!(selection_label(&texts(&["src/main.rs"])), "\"main.rs\"");
    assert_eq!(
        selection_label(&texts(&["a.txt", "b.txt", "c.txt"])),
        "3 files"
    );
}

#[test]
fn gitignore_created_with_leading_slash() {
    assert_eq!(appended("", &["build/out.o"]), "/build/out.o\n");
}

#[test]
fn gitignore_appends_and_dedupes() {
    assert_eq!(
        appended(
            "node_modules\n/keep.txt",
            &["keep.txt", "dist/app.js", "dist/app.js"]
        ),
        "node_modules\n/keep.txt\n/dist/app.js\n"
    );
}

#[test]
fn gitignore_escapes_glob_metacharacters() {
    assert_eq!(
        appended("", &["src/[weird]*?.txt"]),
        "/src/\\[weird\\]\\*\\?.txt\n"
    );
}

#[test]
fn gitignore_escapes_leading_bang_and_hash_and_backslash() {
    assert_eq!(appended("", &["!weird#\\name"]), "/\\!weird\\#\\\\name\n");
}

#[test]
fn gitignore_escapes_trailing_whitespace() {
    assert_eq!(appended("", &["weird name "]), "/weird name\\ \n");
}

#[test]
fn gitignore_noop_when_all_present() {
    let existing = "/a.txt\n/b.txt\n";
    assert_eq!(
        append_gitignore_entries(existing, &texts(&["a.txt", "b.txt"])),
        None,
        "no duplicate lines appended"
    );
}

#[test]
fn basename_takes_last_component_and_falls_back() {
    assert_eq!(basename("src/git/mod.rs"), "mod.rs");
    assert_eq!(basename("top.txt"), "top.txt");
}

#[test]
fn from_id_maps_every_known_id_and_rejects_the_rest() {
    assert_eq!(CtxAction::from_id("ctx:stage"), Some(CtxAction::Stage));
    assert_eq!(CtxAction::from_id("ctx:unstage"), Some(CtxAction::Unstage));
    assert_eq!(CtxAction::from_id("ctx:ignore"), Some(CtxAction::Ignore));
    assert_eq!(CtxAction::from_id("ctx:discard"), Some(CtxAction::Discard));
    assert_eq!(CtxAction::from_id("ctx:trash"), Some(CtxAction::Trash));
    assert_eq!(CtxAction::from_id("ctx:open"), Some(CtxAction::Open));
    assert_eq!(CtxAction::from_id("ctx:reveal"), Some(CtxAction::Reveal));
    // Unknown suffix and an un-prefixed id both resolve to None.
    assert_eq!(CtxAction::from_id("ctx:bogus"), None);
    assert_eq!(CtxAction::from_id("stage"), None);
}

#[test]
fn matches_panel_staged_allows_only_unstage_open_reveal() {
    assert!(CtxAction::Unstage.matches_panel(true));
    assert!(!CtxAction::Stage.matches_panel(true));
    assert!(!CtxAction::Discard.matches_panel(true));
    assert!(!CtxAction::Trash.matches_panel(true));
    assert!(!CtxAction::Ignore.matches_panel(true));
    assert!(CtxAction::Open.matches_panel(true));
    assert!(CtxAction::Reveal.matches_panel(true));
}

#[test]
fn matches_panel_unstaged_allows_everything_but_unstage() {
    assert!(!CtxAction::Unstage.matches_panel(false));
    assert!(CtxAction::Stage.matches_panel(false));
    assert!(CtxAction::Discard.matches_panel(false));
    assert!(CtxAction::Trash.matches_panel(false));
    assert!(CtxAction::Ignore.matches_panel(false));
    assert!(CtxAction::Open.matches_panel(false));
    assert!(CtxAction::Reveal.matches_panel(false));
}

#[test]
fn derive_selection_marks_tracked_modified_as_tracked() {
    let map = status_map(&vec![(Some("a.txt".to_string()), WT_MODIFIED)]);
    let derived = derive_selection(&map, &texts(&["a.txt"]), false);
    assert_eq!(derived.paths, texts(&["a.txt"]));
    assert!(derived.any_tracked);
    assert!(!derived.all_untracked);
}

#[test]
fn derive_selection_marks_untracked_only_set_as_all_untracked() {
    let map = status_map(&vec![(Some("u.txt".to_string()), WT_NEW)]);
    let derived = derive_selection(&map, &texts(&["u.txt"]), false);
    assert_eq!(derived.paths, texts(&["u.txt"]));
    assert!(!derived.any_tracked);
    assert!(derived.all_untracked);
}

#[test]
fn derive_selection_mixed_set_is_tracked_and_not_all_untracked() {
    let map = status_map(&vec![
        (Some("a.txt".to_string()), WT_MODIFIED),
        (Some("u.txt".to_string()), WT_NEW),
    ]);
    let derived = derive_selection(&map, &texts(&["a.txt", "u.txt"]), false);
    assert_eq!(derived.paths.len(), 2);
    assert!(derived.any_tracked);
    assert!(!derived.all_untracked);
}

#[test]
fn derive_selection_drops_paths_that_vanished_from_status() {
    let map = status_map(&vec![(Some("a.txt".to_string()), WT_MODIFIED)]);
    let derived = derive_selection(&map, &texts(&["a.txt", "ghost.txt"]), false);
    assert_eq!(derived.paths, texts(&["a.txt"]));
    assert!(derived.any_tracked);
    assert!(!derived.all_untracked);
}

#[test]
fn an_empty_selection_is_not_all_untracked() {
    let map = status_map(&vec![(None, WT_NEW)]);
    let derived = derive_selection(&map, &texts(&["ghost.txt"]), true);
    assert!(derived.paths.is_empty());
    assert!(derived.staged);
    assert!(!derived.any_tracked);
    assert!(!derived.all_untracked);
}

/// The text of every entry; separators are dashes.
fn menu_texts(derived: &Derived) -> Vec<String> {
    build_menu(derived)
        .into_iter()
        .map(|e| match e {
            MenuEntry::Separator => "-".to_string(),
            MenuEntry::Item(action, text) => {
                assert!(action.matches_panel(derived.staged));
                format!("{} {}", action.id(), text)
            }
        })
        .collect()
}

fn derived(paths: &[&str], staged: bool, any_tracked: bool, all_untracked: bool) -> Derived {
    Derived {
        paths: texts(paths),
        staged,
        any_tracked,
        all_untracked,
    }
}

#[test]
fn menu_of_staged_files() {
    assert_eq!(
        menu_texts(&derived(&["d/a.txt"], true, true, false)),
        vec![
            "ctx:unstage Unstage \"a.txt\"",
            "-",
            "ctx:open Open \"a.txt\"",
            "ctx:reveal Reveal \"a.txt\" in Finder",
        ]
    );
    assert_eq!(
        menu_texts(&derived(&["a", "b"], true, true, false)),
        vec!["ctx:unstage Unstage 2 files"]
    );
}

#[test]
fn menu_of_unstaged_files() {
    assert_eq!(
        menu_texts(&derived(&["a.txt"], false, true, false)),
        vec![
            "ctx:stage Stage \"a.txt\"",
            "ctx:ignore Ignore \"a.txt\"",
            "ctx:discard Discard changes to \"a.txt\"…",
            "-",
            "ctx:open Open \"a.txt\"",
            "ctx:reveal Reveal \"a.txt\" in Finder",
        ]
    );
    assert_eq!(
        menu_texts(&derived(&["u", "v"], false, false, true)),
        vec![
            "ctx:stage Stage 2 files",
            "ctx:ignore Ignore 2 files",
            "-",
            "ctx:trash Move 2 files to Trash",
        ]
    );
    assert_eq!(
        menu_texts(&derived(&["a", "u"], false, true, false)),
        vec![
            "ctx:stage Stage 2 files",
            "ctx:ignore Ignore 2 files",
            "ctx:discard Discard changes to 2 files…",
        ]
    );
}

#[test]
fn ids_lead_back_to_their_actions() {
    for action in [
        CtxAction::Stage,
        CtxAction::Unstage,
        CtxAction::Ignore,
        CtxAction::Discard,
        CtxAction::Trash,
        CtxAction::Open,
        CtxAction::Reveal,
    ] {
        assert_eq!(CtxAction::from_id(action.id()), Some(action));
        assert_eq!(handle_menu_event(action.id()), Some(action));
        assert_eq!(
            menu::handle_menu_event(action.id(), true),
            menu::MenuRoute::ContextMenu
        );
    }
    assert_eq!(handle_menu_event(menu::INSTALL_CLI_ID), None);
    assert_eq!(
        menu::handle_menu_event("install-cli", true),
        menu::MenuRoute::InstallCli
    );
    assert_eq!(
        menu::handle_menu_event("install-cli", false),
        menu::MenuRoute::ContextMenu
    );
}

/// A pattern reads back as its path, and ends in no white space that would be trimmed.
#[test]
fn pattern_reads_back_as_its_path() {
    for path in ["a b", "x \t ", "[!#?*]\\ ", "\\ ", "", "é*"] {
        let p = escape_gitignore_pattern(path);
        let mut read = String::new();
        let mut chars = p.chars();
        while let Some(c) = chars.next() {
            read.push(if c == '\\' { chars.next().unwrap() } else { c });
        }
        assert_eq!(read, path);
    }
    assert_eq!(escape_gitignore_pattern("x \t"), "x\\ \\\t");
}

#[test]
fn ignoring_twice_changes_nothing() {
    for existing in ["", "a", "a\n", "a\r\nb", "/x\n"] {
        let paths = texts(&["x", "y z ", "x"]);
        let once = append_gitignore_entries(existing, &paths).unwrap_or(existing.to_string());
        assert!(once.starts_with(existing));
        assert_eq!(append_gitignore_entries(&once, &paths), None);
    }
}

#[test]
fn windows_line_ends_count_as_line_ends() {
    assert_eq!(append_gitignore_entries("/a\r\n", &texts(&["a"])), None);
    assert_eq!(
        append_gitignore_entries("/a\r", &texts(&["a"])).as_deref(),
        Some("/a\r\n/a\n")
    );
}

#[test]
fn malformed_paths_are_left_out_of_the_menu() {
    assert_eq!(
        valid_candidates("/repo", &texts(&["a", "../b", "", "/c", "d\n", "e/f"]), false),
        texts(&["a", "e/f"])
    );
}

fn pending(paths: &[&str], staged: bool) -> Option<PendingCtxMenu> {
    Some(PendingCtxMenu {
        paths: texts(paths),
        staged,
        window: "main".to_string(),
    })
}

#[test]
fn a_clicked_item_starts_its_action() {
    let un = pending(&["a", "b"], false);
    assert!(matches!(start_action(&None, CtxAction::Stage), ActionStart::Nothing));
    assert!(matches!(
        start_action(&pending(&[], false), CtxAction::Stage),
        ActionStart::Nothing
    ));
    assert!(matches!(start_action(&un, CtxAction::Unstage), ActionStart::Nothing));
    assert!(matches!(start_action(&un, CtxAction::Stage), ActionStart::Proceed));
    match start_action(&un, CtxAction::Discard) {
        ActionStart::Confirm(m) => {
            assert_eq!(m, "Discard changes to 2 files? This cannot be undone.")
        }
        other => panic!("{other:?}"),
    }
    match start_action(&un, CtxAction::Reveal) {
        ActionStart::Show(paths) => assert_eq!(paths, texts(&["a", "b"])),
        other => panic!("{other:?}"),
    }
}

fn plan(action: CtxAction, workdir: Option<&str>) -> (Vec<String>, Reason) {
    let map = status_map(&vec![
        (Some("t".to_string()), WT_MODIFIED),
        (Some("u".to_string()), WT_NEW),
    ]);
    let (steps, reason) =
        run_action(action, &texts(&["t", "u", "gone"]), &map, workdir).unwrap();
    (steps.iter().map(|s| format!("{s:?}")).collect(), reason)
}

#[test]
fn actions_are_planned_step_by_step() {
    let (steps, reason) = plan(CtxAction::Stage, None);
    assert_eq!(steps, vec!["Stage(\"t\")", "Stage(\"u\")", "Stage(\"gone\")"]);
    assert_eq!(reason, Reason::Index);
    let (steps, reason) = plan(CtxAction::Unstage, Some("/r"));
    assert_eq!(
        steps,
        vec!["Unstage(\"t\")", "Unstage(\"u\")", "Unstage(\"gone\")"]
    );
    assert_eq!(reason, Reason::Index);
    let (steps, reason) = plan(CtxAction::Discard, Some("/r"));
    assert_eq!(steps, vec!["Discard(\"t\")"]);
    assert_eq!(reason, Reason::Fs);
    let (steps, reason) = plan(CtxAction::Trash, Some("/r"));
    assert_eq!(
        steps,
        vec![
            "Trash(\"t\", \"/r/t\")",
            "Trash(\"u\", \"/r/u\")",
            "Trash(\"gone\", \"/r/gone\")"
        ]
    );
    assert_eq!(reason, Reason::Fs);
    let (steps, _) = plan(CtxAction::Ignore, Some("/r"));
    assert_eq!(steps, vec!["Ignore(\"/r\", [\"t\", \"u\", \"gone\"])"]);
}

#[test]
fn actions_on_files_need_a_working_tree() {
    let map = status_map(&vec![]);
    for action in [CtxAction::Ignore, CtxAction::Trash] {
        let err = run_action(action, &texts(&["a"]), &map, None).unwrap_err();
        assert_eq!(err.to_string(), "Repository has no working tree");
    }
    let step = ActionStep::Stage("a".to_string());
    assert_eq!(format!("{:?}", step.clone()), "Stage(\"a\")");
}

#[test]
fn selected_files_are_opened_below_the_repository() {
    assert_eq!(
        full_paths("/r", &texts(&["a", "b/c"])),
        texts(&["/r/a", "/r/b/c"])
    );
    assert_eq!(
        trash_failed("a", "denied").to_string(),
        "Failed to trash 'a': denied"
    );
}

use gitrx::pathname::{extension_of, parent_end};
use gitrx::watch::{
    classify_one, debounce_step, flush_burst, fold_event_paths, ignore_query_path,
    path_is_ignored, BurstStats, DebounceAction, IgnoreCache, OpenBurst, Reason, Signal,
};
use std::cell::Cell;
use std::path::Path;

/// Drive the fold with a fresh per-burst cache for the given git/workdir roots, returning
/// `(reason, kept)`.
fn fold_with(
    git_dir: &str,
    workdir: &str,
    is_ignored: &impl Fn(&str) -> bool,
    paths: &[String],
) -> (Option<Reason>, usize) {
    let mut cache = IgnoreCache::default();
    let mut pending = None;
    let mut stats = BurstStats::default();
    fold_event_paths(
        git_dir,
        workdir,
        is_ignored,
        &mut cache,
        &paths.to_vec(),
        &mut pending,
        &mut stats,
    );
    assert_eq!(stats.raw_events, paths.len());
    assert_eq!(stats.samples, paths.iter().take(5).cloned().collect::<Vec<_>>());
    (pending, stats.kept)
}

/// [`fold_with`] against the canonical `/repo` roots.
fn fold(is_ignored: &impl Fn(&str) -> bool, paths: &[String]) -> (Option<Reason>, usize) {
    fold_with("/repo/.git", "/repo", is_ignored, paths)
}

/// Pure classification (nothing ignored) — the reason a batch yields.
fn classify(paths: &[String]) -> Option<Reason> {
    fold(&|_: &str| false, paths).0
}

fn classify_filtered(is_ignored: &impl Fn(&str) -> bool, paths: &[String]) -> Option<Reason> {
    fold(is_ignored, paths).0
}

fn kept_count(is_ignored: &impl Fn(&str) -> bool, paths: &[String]) -> usize {
    fold(is_ignored, paths).1
}

fn p(s: &str) -> String {
    s.to_string()
}

fn has_extension(path: &str, ext: &str) -> bool {
    extension_of(path).as_deref() == Some(ext)
}

#[test]
fn index_write_is_index() {
    let paths = vec![p("/repo/.git/index")];
    assert_eq!(classify(&paths), Some(Reason::Index));
}

#[test]
fn head_change_is_head() {
    let paths = vec![p("/repo/.git/HEAD")];
    assert_eq!(classify(&paths), Some(Reason::Head));
}

#[test]
fn merge_head_is_head() {
    let paths = vec![p("/repo/.git/MERGE_HEAD")];
    assert_eq!(classify(&paths), Some(Reason::Head));
}

#[test]
fn ref_change_is_head() {
    let paths = vec![p("/repo/.git/refs/heads/main")];
    assert_eq!(classify(&paths), Some(Reason::Head));
}

#[test]
fn workdir_file_is_fs() {
    let paths = vec![p("/repo/src/main.rs")];
    assert_eq!(classify(&paths), Some(Reason::Fs));
}

#[test]
fn objects_are_ignored() {
    let paths = vec![p("/repo/.git/objects/ab/cdef0123")];
    assert_eq!(classify(&paths), None);
}

#[test]
fn logs_and_fetch_head_are_ignored() {
    let paths = vec![p("/repo/.git/logs/HEAD"), p("/repo/.git/FETCH_HEAD")];
    assert_eq!(classify(&paths), None);
}

#[test]
fn index_lock_is_ignored() {
    let paths = vec![p("/repo/.git/index.lock")];
    assert_eq!(classify(&paths), None);
}

#[test]
fn ref_lock_is_ignored() {
    // A `refs/**/*.lock` must be dropped even though `refs/` is otherwise kept.
    let paths = vec![p("/repo/.git/refs/heads/main.lock")];
    assert_eq!(classify(&paths), None);
}

#[test]
fn mixed_index_and_workdir_prioritises_index() {
    let paths = vec![p("/repo/src/main.rs"), p("/repo/.git/index")];
    assert_eq!(classify(&paths), Some(Reason::Index));
}

#[test]
fn mixed_head_and_workdir_prioritises_head() {
    let paths = vec![p("/repo/README.md"), p("/repo/.git/refs/heads/main")];
    assert_eq!(classify(&paths), Some(Reason::Head));
}

#[test]
fn empty_batch_is_none() {
    assert_eq!(classify(&[]), None);
}

#[test]
fn git_internal_paths_bypass_the_ignore_filter() {
    // Even an "ignore everything" predicate must not drop a `.git/index` write.
    let always = |_: &str| true;
    let paths = vec![p("/repo/.git/index")];
    assert_eq!(classify_filtered(&always, &paths), Some(Reason::Index));
}

#[test]
fn ignored_workdir_paths_are_dropped_by_the_seam() {
    let always = |_: &str| true;
    let paths = vec![p("/repo/src/main.rs")];
    assert_eq!(classify_filtered(&always, &paths), None);
}

#[test]
fn seam_keeps_the_real_path_when_only_some_are_ignored() {
    // Ignore only `*.o`; the real source edit must still win as `Fs`.
    let is_ignored = |s: &str| has_extension(s, "o");
    let paths = vec![p("/repo/target/debug/foo.o"), p("/repo/src/main.rs")];
    assert_eq!(classify_filtered(&is_ignored, &paths), Some(Reason::Fs));
}

#[test]
fn pack_object_churn_counts_zero_kept() {
    let never = |_: &str| false;
    let paths = vec![
        p("/repo/.git/objects/pack/pack-abc.pack"),
        p("/repo/.git/objects/pack/pack-abc.idx"),
        p("/repo/.git/objects/ab/cdef0123"),
        p("/repo/.git/logs/HEAD"),
        p("/repo/.git/FETCH_HEAD"),
    ];
    assert_eq!(fold(&never, &paths), (None, 0));
}

#[test]
fn index_write_counts_one_kept() {
    let never = |_: &str| false;
    let paths = vec![p("/repo/.git/index")];
    assert_eq!(kept_count(&never, &paths), 1);
}

#[test]
fn lock_file_amid_pack_churn_counts_zero_kept() {
    let never = |_: &str| false;
    let paths = vec![p("/repo/.git/index.lock"), p("/repo/.git/objects/ab/cdef0123")];
    assert_eq!(kept_count(&never, &paths), 0);
}

#[test]
fn gitignored_workdir_paths_are_excluded_from_kept() {
    let always = |_: &str| true;
    let paths = vec![p("/repo/target/debug/foo.o"), p("/repo/build.log")];
    assert_eq!(kept_count(&always, &paths), 0);
}

#[test]
fn non_ignored_workdir_paths_stay_kept() {
    let never = |_: &str| false;
    let paths = vec![p("/repo/src/main.rs"), p("/repo/README.md")];
    assert_eq!(kept_count(&never, &paths), 2);
}

#[test]
fn kept_count_matches_classification_on_a_mixed_burst() {
    // Ignore only `*.o`. Kept = index + real source; classification = Index.
    let is_ignored = |s: &str| has_extension(s, "o");
    let paths = vec![
        p("/repo/target/debug/foo.o"), // ignored workdir  -> drop
        p("/repo/.git/objects/ab/cd"), // object churn      -> drop
        p("/repo/.git/index"),         // index write       -> keep
        p("/repo/src/main.rs"),        // real source edit  -> keep
    ];
    assert_eq!(fold(&is_ignored, &paths), (Some(Reason::Index), 2));
}

#[test]
fn cache_collapses_a_storm_under_one_ignored_dir_to_a_few_queries() {
    let calls = Cell::new(0usize);
    // A `vendor/`-style rule: anything under /repo/vendor is ignored. Count how many times the
    // (expensive) predicate is actually consulted.
    let is_ignored = |s: &str| {
        calls.set(calls.get() + 1);
        Path::new(s).starts_with("/repo/vendor")
    };
    // 10k churned files three directory levels deep under the one ignored tree.
    let paths: Vec<String> = (0..10_000)
        .map(|i| format!("/repo/vendor/pkg{}/src/file{i}.php", i % 20))
        .collect();
    assert_eq!(
        fold_with("/repo/.git", "/repo", &is_ignored, &paths),
        (None, 0)
    );
    assert!(
        calls.get() <= 3 + 2,
        "ignore predicate called {} times for 10k paths",
        calls.get()
    );
}

#[test]
fn mixed_storm_still_classifies_and_counts_with_cache_active() {
    // A vendor churn storm plus one real edit and one index write: the cache must not swallow
    // the real signals.
    let is_ignored = |s: &str| Path::new(s).starts_with("/repo/vendor");
    let mut paths: Vec<String> = (0..1_000)
        .map(|i| format!("/repo/vendor/a/b/f{i}.php"))
        .collect();
    paths.push(p("/repo/src/main.rs")); // real source -> kept, Fs
    paths.push(p("/repo/.git/index")); // index write -> kept, Index
    assert_eq!(
        fold_with("/repo/.git", "/repo", &is_ignored, &paths),
        (Some(Reason::Index), 2)
    );
}

#[test]
fn kept_stays_exact_after_the_index_ceiling() {
    let never = |_: &str| false;
    let paths = vec![
        p("/repo/.git/index"),  // sets the Index ceiling first
        p("/repo/src/main.rs"), // arrives after the ceiling, still kept
        p("/repo/README.md"),   // ditto
    ];
    assert_eq!(fold(&never, &paths), (Some(Reason::Index), 3));
}

#[test]
fn file_pattern_ignore_survives_the_parent_dir_cache() {
    // `*.log` semantics: the directory is NOT ignored, only the file is.
    let is_ignored = |s: &str| has_extension(s, "log");
    let paths = vec![
        p("/repo/src/app.log"), // file-ignored; /repo/src is not
        p("/repo/src/main.rs"), // real source -> kept
    ];
    assert_eq!(
        fold_with("/repo/.git", "/repo", &is_ignored, &paths),
        (Some(Reason::Fs), 1)
    );
}

/// What is folded batch by batch is what is folded at once.
#[test]
fn batches_fold_like_one() {
    let is_ignored = |s: &str| Path::new(s).starts_with("/repo/out");
    let all = vec![
        p("/repo/a"),
        p("/repo/out/x/y"),
        p("/repo/.git/HEAD"),
        p("/repo/out/z"),
        p("/repo/b"),
    ];
    let mut cache = IgnoreCache::default();
    let mut pending = None;
    let mut stats = BurstStats::default();
    for batch in all.chunks(2) {
        fold_event_paths(
            "/repo/.git",
            "/repo",
            &is_ignored,
            &mut cache,
            &batch.to_vec(),
            &mut pending,
            &mut stats,
        );
    }
    assert_eq!((pending, stats.kept), fold(&is_ignored, &all));
    assert_eq!((pending, stats.kept), (Some(Reason::Head), 3));
}

/// A path below a directory that is known to be ignored is answered without a question.
#[test]
fn covered_paths_are_answered_without_a_question() {
    let mut cache = IgnoreCache::default();
    let rules = |s: &str| Path::new(s).starts_with("/repo/vendor");
    assert!(cache.is_ignored("/repo", &rules, "/repo/vendor/a/f"));
    let ask_nobody = |_: &str| -> bool { panic!("asked") };
    assert!(cache.is_ignored("/repo", &ask_nobody, "/repo/vendor/b"));
    assert!(cache.is_ignored("/repo/", &ask_nobody, "/repo//vendor/a/g"));
    assert!(!cache.is_ignored("/repo", &rules, "/repo/src/main.rs"));
    // A path outside of the working tree is asked about itself.
    assert!(!cache.is_ignored("/repo", &rules, "/elsewhere/x"));
}

#[test]
fn reasons_have_words_and_ranks() {
    assert_eq!(Reason::Index.as_str(), "index");
    assert_eq!(Reason::Head.as_str(), "head");
    assert_eq!(Reason::Fs.as_str(), "fs");
    for a in [Reason::Index, Reason::Head, Reason::Fs] {
        assert_eq!(a.max(Reason::Index), Reason::Index);
        assert_eq!(a.max(a), a);
        for b in [Reason::Index, Reason::Head, Reason::Fs] {
            assert_eq!(a.max(b), b.max(a));
        }
    }
    assert_eq!(Reason::Fs.max(Reason::Head), Reason::Head);
}

#[test]
fn single_paths_are_classified() {
    assert_eq!(classify_one("/repo/.git/", "/repo/.git/refs"), Some(Reason::Head));
    assert_eq!(classify_one("/repo/.git/", "/repo/.git/refsx"), None);
    assert_eq!(classify_one("/repo/.git/", "/repo/.git/index/x"), None);
    assert_eq!(classify_one("/repo/.git/", "/repo/.git"), None);
    assert_eq!(classify_one("/repo/.git/", "/repo/.gitignore"), Some(Reason::Fs));
    assert_eq!(classify_one("/repo/.git/", "/repo/Cargo.lock"), None);
    assert_eq!(classify_one("/repo/.git/", "/repo/.lock"), Some(Reason::Fs));
}

#[test]
fn questions_are_asked_relative_to_the_working_tree() {
    assert_eq!(
        ignore_query_path(Some("/repo/"), "/repo/a//b").as_deref(),
        Some("a//b")
    );
    assert_eq!(
        ignore_query_path(Some("/repo"), "/other/a"),
        None,
        "outside of the working tree"
    );
    assert_eq!(ignore_query_path(Some("/repo"), "/repo").as_deref(), Some(""));
    assert_eq!(ignore_query_path(None, "/repo/a"), None);
}

#[test]
fn flushing_reports_storms_and_refreshes() {
    let stats = |raw_events: usize, kept: usize| BurstStats {
        raw_events,
        kept,
        samples: vec![],
    };
    let quiet = flush_burst(None, &stats(999, 0));
    assert!(!quiet.storm && quiet.refresh.is_none() && !quiet.notable);
    let storm = flush_burst(None, &stats(1000, 500));
    assert!(storm.storm && storm.refresh.is_none() && !storm.notable);
    let small = flush_burst(Some(Reason::Fs), &stats(100, 100));
    assert_eq!(small.refresh, Some(Reason::Fs));
    assert!(!small.notable);
    assert!(flush_burst(Some(Reason::Fs), &stats(101, 101)).notable);
}

#[test]
fn unanswered_questions_count_as_not_ignored() {
    let yes = |_: &str| -> Result<bool, git2::Error> { Ok(true) };
    let no = |_: &str| -> Result<bool, git2::Error> { Ok(false) };
    let fail = |_: &str| -> Result<bool, git2::Error> { Err(git2::Error::from_str("no")) };
    assert!(path_is_ignored(Some("/repo"), "/repo/a", &yes));
    assert!(!path_is_ignored(Some("/repo"), "/repo/a", &no));
    assert!(!path_is_ignored(Some("/repo"), "/repo/a", &fail));
    assert!(!path_is_ignored(Some("/repo"), "/other/a.log", &yes));
    assert!(!path_is_ignored(None, "/repo/a", &yes));
    let relative = |q: &str| -> Result<bool, git2::Error> { Ok(q == "a/b") };
    assert!(path_is_ignored(Some("/repo/"), "/repo/a/b", &relative));
}

fn step(open: Option<OpenBurst>, signal: Signal) -> (Option<OpenBurst>, Vec<DebounceAction>) {
    let logs = |s: &str| has_extension(s, "log");
    debounce_step("/repo/.git", "/repo", &logs, open, signal)
}

/// However the events of a burst are split, it is flushed once, for its strongest reason.
#[test]
fn a_burst_is_flushed_once() {
    for last in [Signal::Quiet, Signal::Closed] {
        let closed = matches!(last, Signal::Closed);
        let (open, actions) = step(None, Signal::Paths(vec![p("/repo/a"), p("/repo/b.log")]));
        assert!(actions.is_empty());
        let (open, actions) = step(open, Signal::Paths(vec![p("/repo/.git/HEAD")]));
        assert!(actions.is_empty());
        let (open, actions) = step(open, last);
        assert!(open.is_none());
        assert_eq!(actions.len(), if closed { 2 } else { 1 });
        match &actions[0] {
            DebounceAction::Flush(report, stats) => {
                assert_eq!(report.refresh, Some(Reason::Head));
                assert_eq!((stats.raw_events, stats.kept), (3, 2));
                assert!(!report.storm && !report.notable);
            }
            other => panic!("{other:?}"),
        }
        if closed {
            assert!(matches!(actions[1], DebounceAction::Stop));
        }
    }
}

#[test]
fn failures_to_watch_are_told_and_open_a_burst() {
    let (open, actions) = step(None, Signal::Failed("gone".to_string()));
    assert!(open.is_some());
    match &actions[..] {
        [DebounceAction::WatchError(text)] => assert_eq!(text, "File watch error: gone"),
        other => panic!("{other:?}"),
    }
    let (open, actions) = step(open, Signal::Quiet);
    assert!(open.is_none());
    match &actions[..] {
        [DebounceAction::Flush(report, _)] => assert_eq!(report.refresh, None),
        other => panic!("{other:?}"),
    }
    let (_, actions) = step(None, Signal::Quiet);
    assert!(actions.is_empty());
    let (_, actions) = step(None, Signal::Closed);
    assert!(matches!(&actions[..], [DebounceAction::Stop]));
}

/// Paths are handed on as they are spelled, as the standard library does it.
#[test]
fn spellings_agree_with_the_standard_library() {
    for p in [
        "", "/", "//", "a", "/a", "a/", "a//b", "./a", "a/./b", ".", "./", "..", "/..", "a/..",
        "/a/b/c", "/a//b/./c//", "/./a", "a/.", "//a", "/a/./", "./a/b", ".//./a/.", "/a/b/.",
        "/a/...", "/a/.x", "a/./.", "/repo//x/./y/", "/repo/./x//y/.",
    ] {
        let path = Path::new(p);
        let cs: Vec<char> = p.chars().collect();
        if let Some(parent) = path.parent() {
            let end = parent_end(&cs, cs.len());
            assert_eq!(
                cs[..end].iter().collect::<String>(),
                parent.to_str().unwrap(),
                "parent of {p:?}"
            );
        }
        for workdir in ["", "/", "/repo", "/repo/", "/a", "/a/", ".", "a", "./a", "/a/b"] {
            assert_eq!(
                ignore_query_path(Some(workdir), p).as_deref(),
                path.strip_prefix(workdir).ok().map(|r| r.to_str().unwrap()),
                "{p:?} in {workdir:?}"
            );
        }
    }
}

/// The ignore rules are asked about paths as the event spells them, and a directory that is known
/// to be ignored covers every spelling of what is below it.
#[test]
fn questions_keep_the_spelling_of_the_event() {
    let asked = std::cell::RefCell::new(Vec::new());
    let query = |s: &str| {
        asked.borrow_mut().push(s.to_string());
        s == "/repo//x/./y"
    };
    let mut cache = IgnoreCache::default();
    assert!(!cache.is_ignored("/repo", &query, "/repo/build/"));
    assert!(!cache.is_ignored("/repo", &query, "/repo//x/./z/"));
    assert!(cache.is_ignored("/repo", &query, "/repo//x/./y//f/"));
    assert!(cache.is_ignored("/repo", &query, "/repo/x/y/g"));
    assert_eq!(
        asked.into_inner(),
        [
            "/repo/build/",
            "/repo//x",
            "/repo//x/./z/",
            "/repo//x/./y",
            "/repo//x",
        ]
    );
}

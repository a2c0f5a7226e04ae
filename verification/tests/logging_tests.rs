use gitrx::logging::{
    build_watchdog_sample, format_watchdog_line, format_webkit_top, level_from_env,
    log_watchdog_sample, parse_level, parse_ps_proc_line, parse_ps_processes,
    parse_ps_rss_kib_to_mb, sum_descendant_rss_mb, watchdog_peak_mb, webkit_top_consumers,
    LevelFilter, ProcSample, Timer, WatchdogSample, RSS_ERROR_MB, RSS_WARN_MB, WEBKIT_TOP_LIMIT,
};

#[test]
fn parse_level_accepts_known_levels_case_insensitively() {
    assert_eq!(parse_level("info"), Some(LevelFilter::Info));
    assert_eq!(parse_level("DEBUG"), Some(LevelFilter::Debug));
    assert_eq!(parse_level("  Warn "), Some(LevelFilter::Warn));
    assert_eq!(parse_level("warning"), Some(LevelFilter::Warn));
    assert_eq!(parse_level("off"), Some(LevelFilter::Off));
    assert_eq!(parse_level("trace"), Some(LevelFilter::Trace));
    assert_eq!(parse_level("error"), Some(LevelFilter::Error));
}

#[test]
fn parse_level_rejects_garbage() {
    assert_eq!(parse_level(""), None);
    assert_eq!(parse_level("verbose"), None);
    assert_eq!(parse_level("5"), None);
}

#[test]
fn level_from_env_defaults_to_info() {
    assert_eq!(level_from_env(None), LevelFilter::Info);
    assert_eq!(level_from_env(Some("nonsense")), LevelFilter::Info);
}

#[test]
fn level_from_env_honors_a_valid_override() {
    assert_eq!(level_from_env(Some("debug")), LevelFilter::Debug);
    assert_eq!(level_from_env(Some("ERROR")), LevelFilter::Error);
}

#[test]
fn parse_ps_rss_converts_kib_to_mb() {
    // ps reports KiB; 2048 KiB == 2 MiB.
    assert_eq!(parse_ps_rss_kib_to_mb("2048"), Some(2));
    // Trailing newline (ps output) is trimmed.
    assert_eq!(parse_ps_rss_kib_to_mb("1048576\n"), Some(1024));
    // Sub-MiB rounds down to 0.
    assert_eq!(parse_ps_rss_kib_to_mb("512"), Some(0));
}

#[test]
fn parse_ps_rss_rejects_non_numeric() {
    assert_eq!(parse_ps_rss_kib_to_mb(""), None);
    assert_eq!(parse_ps_rss_kib_to_mb("   "), None);
    assert_eq!(parse_ps_rss_kib_to_mb("abc"), None);
}

fn proc(pid: u32, ppid: u32, rss_mb: u64, comm: &str) -> ProcSample {
    ProcSample {
        pid,
        ppid,
        rss_mb,
        comm: comm.to_string(),
    }
}

#[test]
fn parse_ps_proc_line_splits_fields_and_rejoins_command() {
    // Right-aligned rss, a command path containing spaces.
    let line = "  501    1   65536 /Applications/My App.app/Contents/MacOS/App";
    assert_eq!(
        parse_ps_proc_line(line),
        Some(proc(
            501,
            1,
            64,
            "/Applications/My App.app/Contents/MacOS/App"
        ))
    );
}

#[test]
fn parse_ps_proc_line_rejects_malformed_rows() {
    assert_eq!(parse_ps_proc_line(""), None);
    assert_eq!(parse_ps_proc_line("   "), None);
    // Missing the command column.
    assert_eq!(parse_ps_proc_line("501 1 65536"), None);
    // Non-numeric pid.
    assert_eq!(parse_ps_proc_line("x 1 65536 comm"), None);
}

#[test]
fn parse_ps_processes_skips_unparseable_lines() {
    let output = "\
501 1 2048 launchd
not a real row
777 501 4096 /path/to/child
";
    let procs = parse_ps_processes(output);
    assert_eq!(procs.len(), 2);
    assert_eq!(procs[0], proc(501, 1, 2, "launchd"));
    assert_eq!(procs[1], proc(777, 501, 4, "/path/to/child"));
}

#[test]
fn descendants_sum_walks_the_ppid_tree() {
    // 100 -> {200, 300}; 200 -> 400; 999 is unrelated.
    let procs = vec![
        proc(100, 1, 40, "gitrx"),
        proc(200, 100, 10, "helper"),
        proc(300, 100, 20, "helper"),
        proc(400, 200, 30, "grandchild"),
        proc(999, 1, 500, "unrelated"),
    ];
    // Own RSS is excluded; 10 + 20 + 30 = 60.
    assert_eq!(sum_descendant_rss_mb(&procs, 100), 60);
    // A leaf has no descendants.
    assert_eq!(sum_descendant_rss_mb(&procs, 400), 0);
}

#[test]
fn descendants_sum_survives_a_ppid_cycle() {
    // Pathological self/mutual parenting must not loop forever.
    let procs = vec![proc(10, 20, 5, "a"), proc(20, 10, 7, "b")];
    // From 10: 20 is a child (+7), and 20's child 10 is already seen.
    assert_eq!(sum_descendant_rss_mb(&procs, 10), 7);
}

#[test]
fn webkit_top_picks_largest_helpers_capped() {
    let procs = vec![
        proc(1, 1, 10, "com.apple.WebKit.WebContent"),
        proc(2, 1, 900, "com.apple.WebKit.GPU"),
        proc(3, 1, 500, "com.apple.WebKit.Networking"),
        proc(4, 1, 700, "com.apple.WebKit.WebContent (Prewarmed)"),
        proc(5, 1, 9999, "some.other.process"),
    ];
    // Descending by rss, capped at the limit; the non-WebKit giant is excluded.
    assert_eq!(
        webkit_top_consumers(&procs, WEBKIT_TOP_LIMIT),
        vec![(2, 900), (4, 700), (3, 500)]
    );
}

#[test]
fn webkit_top_ties_break_on_pid() {
    let procs = vec![
        proc(30, 1, 100, "WebKit.WebContent"),
        proc(10, 1, 100, "WebKit.WebContent"),
        proc(20, 1, 100, "WebKit.WebContent"),
    ];
    assert_eq!(
        webkit_top_consumers(&procs, 3),
        vec![(10, 100), (20, 100), (30, 100)]
    );
}

#[test]
fn build_sample_reads_own_rss_and_aggregates() {
    let procs = vec![
        proc(100, 1, 40, "gitrx"),
        proc(200, 100, 15, "helper"),
        proc(300, 1, 812, "com.apple.WebKit.WebContent"),
    ];
    let sample = build_watchdog_sample(&procs, 100);
    assert_eq!(sample.own_mb, 40);
    assert_eq!(sample.child_mb, 15);
    assert_eq!(sample.webkit_top, vec![(300, 812)]);
}

#[test]
fn build_sample_defaults_own_rss_to_zero_when_absent() {
    let procs = vec![proc(200, 1, 15, "helper")];
    let sample = build_watchdog_sample(&procs, 100);
    assert_eq!(sample.own_mb, 0);
    assert_eq!(sample.child_mb, 0);
    assert!(sample.webkit_top.is_empty());
}

#[test]
fn peak_is_the_max_of_all_three_signals() {
    // WebKit runaway dominates while own RSS stays tiny — the real scenario.
    let sample = WatchdogSample {
        own_mb: 40,
        child_mb: 0,
        webkit_top: vec![(300, 9000), (301, 20)],
    };
    assert_eq!(watchdog_peak_mb(&sample), 9000);

    // Descendant sum can dominate too.
    let sample = WatchdogSample {
        own_mb: 40,
        child_mb: 5000,
        webkit_top: vec![],
    };
    assert_eq!(watchdog_peak_mb(&sample), 5000);
}

#[test]
fn peak_crosses_thresholds_for_a_webkit_runaway() {
    let sample = WatchdogSample {
        own_mb: 40,
        child_mb: 0,
        webkit_top: vec![(300, RSS_ERROR_MB + 1)],
    };
    assert!(watchdog_peak_mb(&sample) >= RSS_ERROR_MB);
}

#[test]
fn format_webkit_top_renders_pid_colon_mb() {
    assert_eq!(format_webkit_top(&vec![]), "[]");
    assert_eq!(
        format_webkit_top(&vec![(1234, 812), (5678, 210)]),
        "[1234:812, 5678:210]"
    );
}

#[test]
fn format_line_keeps_rss_mb_as_leading_key() {
    let sample = WatchdogSample {
        own_mb: 41,
        child_mb: 0,
        webkit_top: vec![(1234, 812), (5678, 210)],
    };
    assert_eq!(
        format_watchdog_line(&sample),
        "rss_mb=41 child_rss_mb=0 webkit_top=[1234:812, 5678:210]"
    );
}

#[test]
fn timer_reports_nonpanicking_elapsed() {
    let t = Timer::start();
    // Just exercising the API: elapsed is always representable and monotone.
    let _ms: u128 = t.ms();
}

#[test]
fn timer_counts_milliseconds() {
    let t = Timer::start();
    let begin = std::time::Instant::now();
    while begin.elapsed() < std::time::Duration::from_millis(15) {}
    let ms = t.ms();
    assert!((15..10_000).contains(&ms), "{ms}");
}

#[test]
fn pids_that_do_not_fit_are_rejected() {
    assert_eq!(
        parse_ps_proc_line("4294967295 +1 1024 a  b").map(|p| (p.pid, p.ppid, p.rss_mb, p.comm)),
        Some((4294967295, 1, 1, "a b".to_string()))
    );
    assert_eq!(parse_ps_proc_line("4294967296 1 1024 a"), None);
    assert_eq!(parse_ps_proc_line("1 -1 1024 a"), None);
}

/// One process counts once, also where two paths of the table lead to it.
#[test]
fn a_process_listed_twice_counts_once() {
    let procs = vec![
        proc(2, 1, 10, "a"),
        proc(3, 2, 20, "b"),
        proc(3, 1, 20, "b"),
        proc(1, 3, 99, "root again"),
    ];
    assert_eq!(sum_descendant_rss_mb(&procs, 1), 30);
}

#[test]
fn severity_follows_the_peak() {
    let sample = |own_mb: u64| WatchdogSample {
        own_mb,
        child_mb: 0,
        webkit_top: vec![],
    };
    assert_eq!(
        log_watchdog_sample(&sample(RSS_WARN_MB - 1)),
        (
            LevelFilter::Info,
            "rss_mb=1535 child_rss_mb=0 webkit_top=[]".to_string()
        )
    );
    assert_eq!(
        log_watchdog_sample(&sample(RSS_WARN_MB)),
        (
            LevelFilter::Warn,
            "rss_mb=1536 child_rss_mb=0 webkit_top=[] — elevated (>= 1536 MB)".to_string()
        )
    );
    assert_eq!(
        log_watchdog_sample(&sample(RSS_ERROR_MB)),
        (
            LevelFilter::Error,
            "rss_mb=4096 child_rss_mb=0 webkit_top=[] — runaway (>= 4096 MB)".to_string()
        )
    );
}

/// A process that is listed under two parents is counted by the row that is met first.
#[test]
fn a_process_under_two_parents_counts_where_it_is_met_first() {
    let procs = vec![
        proc(2, 1, 0, "a"),
        proc(3, 1, 0, "b"),
        proc(4, 2, 10, "c"),
        proc(4, 3, 20, "c"),
    ];
    // The child met last, 3, is gone on from first.
    assert_eq!(sum_descendant_rss_mb(&procs, 1), 20);
}

/// Only the processes below the root are added up, however much memory the others have.
#[test]
fn processes_outside_the_tree_do_not_count() {
    let procs = vec![
        proc(1, 0, u64::MAX, "init"),
        proc(2, 1, u64::MAX, "other"),
        proc(10, 1, 3, "root"),
        proc(11, 10, 7, "child"),
        proc(12, 11, 5, "grandchild"),
    ];
    assert_eq!(sum_descendant_rss_mb(&procs, 10), 12);
    assert_eq!(build_watchdog_sample(&procs, 10).child_mb, 12);
}

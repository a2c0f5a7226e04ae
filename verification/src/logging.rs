//! Diagnostics: log levels, the memory watchdog's reading of the process table, and command
//! timing.

use crate::numbers::{
    decimal, is_digit, law_decimal_reads_back, lemma_decimal_value, parse_unsigned, parsed,
    to_decimal,
};
use crate::seqs::{first_where, lemma_first_is, lemma_first_none};
use crate::text::{
    contains_seq, contains_text, is_white, join2, join3, join_from, joined_by, just,
    law_texts_are_joined_one_by_one, law_words_hold_no_white_space, law_words_read_back,
    lemma_trimmed_as_is, lowercase, lowered, pieces, same_text, split_on, split_words, texts, trim,
    trimmed, words,
};
use std::collections::HashSet;
use vstd::prelude::*;

verus! {

/// Base name of the log file.
pub const LOG_FILE_NAME: &'static str = "gitrx";

/// A log file larger than this is rotated, in bytes.
pub const MAX_LOG_FILE_BYTES: u128 = 5 * 1024 * 1024;

/// How many rotated log files are kept.
pub const KEEP_LOG_FILES: usize = 5;

/// The environment variable that sets the log level.
pub const LOG_ENV: &'static str = "RUST_LOG";

/// The targets of log lines.
pub const T_CMD: &'static str = "gitrx::cmd";

pub const T_WATCH: &'static str = "gitrx::watch";

pub const T_WINDOW: &'static str = "gitrx::window";

pub const T_WATCHDOG: &'static str = "gitrx::watchdog";

/// How often the watchdog looks at the process table, in seconds.
pub const WATCHDOG_INTERVAL_SECS: u64 = 60;

/// From this many mebibytes on, memory use is worth a warning.
pub const RSS_WARN_MB: u64 = 1536;

/// From this many mebibytes on, memory use is out of hand.
pub const RSS_ERROR_MB: u64 = 4096;

/// How many WebKit processes the watchdog names.
pub const WEBKIT_TOP_LIMIT: usize = 3;

/// How much is logged.
#[derive(Debug, Clone, Copy, PartialEq, Eq, Structural)]
pub enum LevelFilter {
    Off,
    Error,
    Warn,
    Info,
    Debug,
    Trace,
}

/// The level that a word stands for, whatever its case and the white space around it.
pub open spec fn level_named(value: Seq<char>) -> Option<LevelFilter> {
    let w = lowered(trimmed(value));
    if w == "off"@ {
        Some(LevelFilter::Off)
    } else if w == "error"@ {
        Some(LevelFilter::Error)
    } else if w == "warn"@ || w == "warning"@ {
        Some(LevelFilter::Warn)
    } else if w == "info"@ {
        Some(LevelFilter::Info)
    } else if w == "debug"@ {
        Some(LevelFilter::Debug)
    } else if w == "trace"@ {
        Some(LevelFilter::Trace)
    } else {
        None
    }
}

/// The level that `value` stands for, if it stands for one.
pub fn parse_level(value: &str) -> (r: Option<LevelFilter>)
    ensures
        r == level_named(value@),
{
    let lower = lowercase(trim(value).as_str());
    let w = lower.as_str();
    if same_text(w, "off") {
        Some(LevelFilter::Off)
    } else if same_text(w, "error") {
        Some(LevelFilter::Error)
    } else if same_text(w, "warn") || same_text(w, "warning") {
        Some(LevelFilter::Warn)
    } else if same_text(w, "info") {
        Some(LevelFilter::Info)
    } else if same_text(w, "debug") {
        Some(LevelFilter::Debug)
    } else if same_text(w, "trace") {
        Some(LevelFilter::Trace)
    } else {
        None
    }
}

/// The level that an environment value asks for; informational where it asks for none.
pub fn level_from_env(value: Option<&str>) -> (r: LevelFilter)
    ensures
        r == (match value {
            Some(v) => match level_named(v@) {
                Some(level) => level,
                None => LevelFilter::Info,
            },
            None => LevelFilter::Info,
        }),
{
    match value {
        Some(v) => match parse_level(v) {
            Some(level) => level,
            None => LevelFilter::Info,
        },
        None => LevelFilter::Info,
    }
}

/// Kibibytes as text, in whole mebibytes.
pub open spec fn mebibytes(s: Seq<char>) -> Option<nat> {
    match parsed(trimmed(s), u64::MAX as nat) {
        Some(kib) => Some(kib / 1024),
        None => None,
    }
}

/// A resident set size in kibibytes, as `ps` prints it, in whole mebibytes.
pub fn parse_ps_rss_kib_to_mb(output: &str) -> (r: Option<u64>)
    ensures
        match r {
            Some(mb) => mebibytes(output@) == Some(mb as nat),
            None => mebibytes(output@) is None,
        },
{
    match parse_unsigned(trim(output).as_str(), u64::MAX) {
        Some(kib) => Some(kib / 1024),
        None => None,
    }
}

/// A row of the process table.
#[derive(Debug, Clone, PartialEq, Eq)]
pub struct ProcSample {
    pub pid: u32,
    pub ppid: u32,
    /// Resident set size in mebibytes.
    pub rss_mb: u64,
    pub comm: String,
}

/// A row of the process table as contracts speak of it.
#[verifier::ext_equal]
pub struct ProcView {
    pub pid: nat,
    pub ppid: nat,
    pub rss_mb: nat,
    pub comm: Seq<char>,
}

impl View for ProcSample {
    type V = ProcView;

    open spec fn view(&self) -> ProcView {
        ProcView {
            pid: self.pid as nat,
            ppid: self.ppid as nat,
            rss_mb: self.rss_mb as nat,
            comm: self.comm@,
        }
    }
}

/// The row that a line of `ps -axo pid=,ppid=,rss=,comm=` stands for: three numbers, then the
/// command, which may hold spaces.
pub open spec fn row_of(line: Seq<char>) -> Option<ProcView> {
    let ws = words(line);
    if ws.len() < 4 {
        None
    } else {
        match (parsed(ws[0], u32::MAX as nat), parsed(ws[1], u32::MAX as nat), mebibytes(ws[2])) {
            (Some(pid), Some(ppid), Some(rss_mb)) => Some(
                ProcView { pid, ppid, rss_mb, comm: joined_by(ws.skip(3), " "@) },
            ),
            _ => None,
        }
    }
}

/// The row that a line of the process table stands for, if it is one.
pub fn parse_ps_proc_line(line: &str) -> (r: Option<ProcSample>)
    ensures
        match r {
            Some(p) => row_of(line@) == Some(p@),
            None => row_of(line@) is None,
        },
{
    let ws = split_words(line);
    let ghost all = words(line@);
    assert(all.len() == ws@.len());
    if ws.len() < 4 {
        return None;
    }
    proof {
        assert(all[0] == ws@[0]@);
        assert(all[1] == ws@[1]@);
        assert(all[2] == ws@[2]@);
    }
    let pid: u64 = match parse_unsigned(ws[0].as_str(), u32::MAX as u64) {
        Some(n) => n,
        None => return None,
    };
    let ppid: u64 = match parse_unsigned(ws[1].as_str(), u32::MAX as u64) {
        Some(n) => n,
        None => return None,
    };
    let rss_mb: u64 = match parse_ps_rss_kib_to_mb(ws[2].as_str()) {
        Some(n) => n,
        None => return None,
    };
    let p = ProcSample {
        pid: pid as u32,
        ppid: ppid as u32,
        rss_mb,
        comm: join_from(&ws, 3, " "),
    };
    assert(p@ =~= row_of(line@)->0);
    Some(p)
}

/// The rows of a process table, lines that are none left out.
pub open spec fn rows_of(lines: Seq<Seq<char>>) -> Seq<ProcView>
    decreases lines.len(),
{
    if lines.len() == 0 {
        Seq::empty()
    } else {
        let before = rows_of(lines.drop_last());
        match row_of(lines.last()) {
            Some(p) => before.push(p),
            None => before,
        }
    }
}

/// Rows as contracts speak of them.
pub open spec fn proc_views(ps: Seq<ProcSample>) -> Seq<ProcView> {
    ps.map_values(|p: ProcSample| p@)
}

/// The rows of a process table, lines that are none left out.
pub fn parse_ps_processes(output: &str) -> (r: Vec<ProcSample>)
    ensures
        proc_views(r@) == rows_of(pieces(output@, just('\n'))),
{
    let lines = split_on(output, '\n');
    let ghost all = pieces(output@, just('\n'));
    assert(all.len() == lines@.len());
    let mut out: Vec<ProcSample> = Vec::new();
    let mut i: usize = 0;
    assert(all.take(0) =~= Seq::<Seq<char>>::empty());
    assert(proc_views(out@) =~= rows_of(all.take(0)));
    while i < lines.len()
        invariant
            0 <= i <= lines@.len(),
            all == texts(lines@),
            proc_views(out@) == rows_of(all.take(i as int)),
        decreases lines@.len() - i,
    {
        proof {
            assert(all[i as int] == lines@[i as int]@);
            assert(all.take(i + 1).drop_last() =~= all.take(i as int));
            assert(all.take(i + 1).last() == lines@[i as int]@);
        }
        if let Some(p) = parse_ps_proc_line(lines[i].as_str()) {
            let ghost before = out@;
            let ghost pv = p@;
            out.push(p);
            assert(proc_views(out@) =~= proc_views(before).push(pv));
        }
        i += 1;
    }
    assert(all.take(lines@.len() as int) =~= all);
    out
}

/// Whether a process is the root, or descends from it by at most `n` steps from child to parent.
pub open spec fn descends(ps: Seq<ProcSample>, root: u32, pid: u32, n: nat) -> bool
    decreases n,
{
    ||| pid == root
    ||| n > 0 && exists|i: int|
        0 <= i < ps.len() && (#[trigger] ps[i]).pid == pid && descends(
            ps,
            root,
            ps[i].ppid,
            (n - 1) as nat,
        )
}

/// Whether a process is the root, or descends from it.
pub open spec fn in_tree(ps: Seq<ProcSample>, root: u32, pid: u32) -> bool {
    exists|n: nat| #[trigger] descends(ps, root, pid, n)
}

/// The memory of the rows that are marked.
pub open spec fn marked_rss(ps: Seq<ProcSample>, marks: Seq<bool>) -> nat
    decreases ps.len(),
{
    if ps.len() == 0 {
        0
    } else {
        marked_rss(ps.drop_last(), marks) + (if marks[ps.len() - 1] {
            ps.last().rss_mb as nat
        } else {
            0
        })
    }
}

/// The marks pick one row for each process below the root, and none for any other: a row whose
/// parent is in the tree.
pub open spec fn marks_descendants(ps: Seq<ProcSample>, root: u32, marks: Seq<bool>) -> bool {
    &&& marks.len() == ps.len()
    &&& forall|i: int|
        0 <= i < ps.len() && #[trigger] marks[i] ==> ps[i].pid != root && in_tree(
            ps,
            root,
            ps[i].ppid,
        )
    &&& forall|i: int, j: int|
        0 <= i < j < ps.len() && #[trigger] marks[i] && #[trigger] marks[j] ==> ps[i].pid
            != ps[j].pid
    &&& forall|k: int|
        0 <= k < ps.len() && in_tree(ps, root, (#[trigger] ps[k]).ppid) && ps[k].pid != root
            ==> exists|i: int| 0 <= i < ps.len() && #[trigger] marks[i] && ps[i].pid == ps[k].pid
}

/// A walk down from a process: the processes met, those whose children are still to be looked
/// for, and the memory counted.
#[verifier::ext_equal]
pub struct Walk {
    pub seen: Set<u32>,
    pub frontier: Seq<u32>,
    pub total: nat,
}

/// The walk before its first step.
pub open spec fn walk_from(root: u32) -> Walk {
    Walk { seen: set![root], frontier: seq![root], total: 0 }
}

/// The walk after a row was looked at for a parent: a child that was not met before is counted
/// by this row.
pub open spec fn met(w: Walk, row: ProcSample, parent: u32) -> Walk {
    if row.ppid == parent && !w.seen.contains(row.pid) {
        Walk {
            seen: w.seen.insert(row.pid),
            frontier: w.frontier.push(row.pid),
            total: w.total + row.rss_mb as nat,
        }
    } else {
        w
    }
}

/// The walk after all rows were looked at for a parent.
pub open spec fn met_all(ps: Seq<ProcSample>, parent: u32, w: Walk) -> Walk
    decreases ps.len(),
{
    if ps.len() == 0 {
        w
    } else {
        met(met_all(ps.drop_last(), parent, w), ps.last(), parent)
    }
}

/// How many rows are of processes that were not met.
pub open spec fn unmet(ps: Seq<ProcSample>, seen: Set<u32>) -> nat
    decreases ps.len(),
{
    if ps.len() == 0 {
        0
    } else {
        unmet(ps.drop_last(), seen) + (if seen.contains(ps.last().pid) {
            0nat
        } else {
            1nat
        })
    }
}

/// The memory counted at the end of a walk. The process that was met last is gone on from first.
pub open spec fn walked(ps: Seq<ProcSample>, w: Walk) -> nat
    decreases unmet(ps, w.seen), w.frontier.len(),
{
    if w.frontier.len() == 0 {
        w.total
    } else {
        let rest = Walk { seen: w.seen, frontier: w.frontier.drop_last(), total: w.total };
        let next = met_all(ps, w.frontier.last(), rest);
        proof {
            lemma_walk_goes_on(ps, ps, w.frontier.last(), rest);
        }
        walked(ps, next)
    }
}

/// Meeting one more process leaves fewer rows of processes that were not met.
proof fn lemma_unmet(ps: Seq<ProcSample>, seen: Set<u32>, pid: u32)
    ensures
        unmet(ps, seen.insert(pid)) <= unmet(ps, seen),
        (exists|i: int| 0 <= i < ps.len() && (#[trigger] ps[i]).pid == pid) && !seen.contains(pid)
            ==> unmet(ps, seen.insert(pid)) < unmet(ps, seen),
    decreases ps.len(),
{
    if ps.len() > 0 {
        let t = ps.drop_last();
        lemma_unmet(t, seen, pid);
        if (exists|i: int| 0 <= i < ps.len() && (#[trigger] ps[i]).pid == pid) && !seen.contains(
            pid,
        ) {
            let i = choose|i: int| 0 <= i < ps.len() && (#[trigger] ps[i]).pid == pid;
            if i < t.len() {
                assert(t[i].pid == pid);
            }
        }
    }
}

/// Looking at rows for a parent either changes nothing or leaves fewer rows unmet.
pub proof fn lemma_walk_goes_on(ps: Seq<ProcSample>, rows: Seq<ProcSample>, parent: u32, w: Walk)
    requires
        rows.len() <= ps.len(),
        rows =~= ps.take(rows.len() as int),
    ensures
        ({
            let next = met_all(rows, parent, w);
            next == w || unmet(ps, next.seen) < unmet(ps, w.seen)
        }),
    decreases rows.len(),
{
    if rows.len() > 0 {
        let t = rows.drop_last();
        assert(t =~= ps.take(t.len() as int));
        lemma_walk_goes_on(ps, t, parent, w);
        let before = met_all(t, parent, w);
        let row = rows.last();
        assert(row == ps[rows.len() - 1]);
        lemma_unmet(ps, before.seen, row.pid);
    }
}

/// Looking at more rows for a parent never takes away from what was counted.
proof fn lemma_met_grows(rows: Seq<ProcSample>, parent: u32, w: Walk, n: int)
    requires
        0 <= n <= rows.len(),
    ensures
        w.total <= met_all(rows.take(n), parent, w).total <= met_all(rows, parent, w).total,
    decreases rows.len(),
{
    if n == rows.len() {
        assert(rows.take(n) =~= rows);
        if n > 0 {
            lemma_met_grows(rows.drop_last(), parent, w, n - 1);
            assert(rows.drop_last().take(n - 1) =~= rows.drop_last());
        }
    } else {
        lemma_met_grows(rows.drop_last(), parent, w, n);
        assert(rows.drop_last().take(n) =~= rows.take(n));
    }
}

/// A walk counts at its end at least what it counted before.
proof fn lemma_walk_grows(ps: Seq<ProcSample>, w: Walk)
    ensures
        w.total <= walked(ps, w),
    decreases unmet(ps, w.seen), w.frontier.len(),
{
    if w.frontier.len() > 0 {
        let rest = Walk { seen: w.seen, frontier: w.frontier.drop_last(), total: w.total };
        let next = met_all(ps, w.frontier.last(), rest);
        assert(ps =~= ps.take(ps.len() as int));
        lemma_walk_goes_on(ps, ps, w.frontier.last(), rest);
        lemma_met_grows(ps, w.frontier.last(), rest, 0);
        lemma_walk_grows(ps, next);
    }
}

/// Marking one more row adds its memory.
proof fn lemma_mark_one(ps: Seq<ProcSample>, marks: Seq<bool>, i: int)
    requires
        0 <= i < marks.len(),
        ps.len() <= marks.len(),
        !marks[i],
    ensures
        marked_rss(ps, marks.update(i, true)) == marked_rss(ps, marks) + (if i < ps.len() {
            ps[i].rss_mb as nat
        } else {
            0
        }),
    decreases ps.len(),
{
    if ps.len() > 0 {
        lemma_mark_one(ps.drop_last(), marks, i);
    }
}

/// Nothing marked has no memory.
proof fn lemma_nothing_marked(ps: Seq<ProcSample>, marks: Seq<bool>)
    requires
        ps.len() <= marks.len(),
        forall|i: int| 0 <= i < marks.len() ==> !#[trigger] marks[i],
    ensures
        marked_rss(ps, marks) == 0,
    decreases ps.len(),
{
    if ps.len() > 0 {
        lemma_nothing_marked(ps.drop_last(), marks);
    }
}

/// How many rows are not marked.
spec fn unmarked(marks: Seq<bool>) -> nat
    decreases marks.len(),
{
    if marks.len() == 0 {
        0
    } else {
        unmarked(marks.drop_last()) + (if marks.last() {
            0nat
        } else {
            1nat
        })
    }
}

/// Marking one more row leaves one row less unmarked.
proof fn lemma_unmarked_one(marks: Seq<bool>, i: int)
    requires
        0 <= i < marks.len(),
        !marks[i],
    ensures
        unmarked(marks.update(i, true)) + 1 == unmarked(marks),
    decreases marks.len(),
{
    if i < marks.len() - 1 {
        lemma_unmarked_one(marks.drop_last(), i);
        assert(marks.update(i, true).drop_last() =~= marks.drop_last().update(i, true));
    } else {
        assert(marks.update(i, true).drop_last() =~= marks.drop_last());
    }
}

/// A child of a process of the tree is in the tree.
proof fn lemma_child_in_tree(ps: Seq<ProcSample>, root: u32, i: int)
    requires
        0 <= i < ps.len(),
        in_tree(ps, root, ps[i].ppid),
    ensures
        in_tree(ps, root, ps[i].pid),
{
    let n = choose|n: nat| #[trigger] descends(ps, root, ps[i].ppid, n);
    assert(descends(ps, root, ps[i].pid, n + 1));
}

/// A set of processes that holds the root, and with each process its children, holds the tree.
proof fn lemma_closed_holds_tree(ps: Seq<ProcSample>, root: u32, seen: Set<u32>, pid: u32, n: nat)
    requires
        seen.contains(root),
        forall|i: int|
            0 <= i < ps.len() && seen.contains((#[trigger] ps[i]).ppid) ==> seen.contains(
                ps[i].pid,
            ),
        descends(ps, root, pid, n),
    ensures
        seen.contains(pid),
    decreases n,
{
    if pid != root {
        let i = choose|i: int|
            0 <= i < ps.len() && (#[trigger] ps[i]).pid == pid && descends(
                ps,
                root,
                ps[i].ppid,
                (n - 1) as nat,
            );
        lemma_closed_holds_tree(ps, root, seen, ps[i].ppid, (n - 1) as nat);
    }
}

/// The memory of every process that descends from `root_pid`, each counted once. The root itself
/// is not counted, not even where the table makes it its own descendant.
pub fn sum_descendant_rss_mb(procs: &Vec<ProcSample>, root_pid: u32) -> (r: u64)
    requires
        walked(procs@, walk_from(root_pid)) <= u64::MAX,
    ensures
        exists|marks: Seq<bool>| #[trigger]
            marks_descendants(procs@, root_pid, marks) && r == marked_rss(procs@, marks),
        r == walked(procs@, walk_from(root_pid)),
{
    broadcast use vstd::std_specs::hash::group_hash_axioms;

    let ghost ps = procs@;
    let mut frontier: Vec<u32> = Vec::new();
    frontier.push(root_pid);
    let mut seen: HashSet<u32> = HashSet::new();
    let _new = seen.insert(root_pid);
    let mut total: u64 = 0;
    let ghost mut marks = Seq::new(ps.len(), |i: int| false);
    proof {
        lemma_nothing_marked(ps, marks);
        assert(descends(ps, root_pid, root_pid, 0));
        assert(frontier@[0] == root_pid);
        assert(frontier@.contains(root_pid));
        assert(walk_from(root_pid) =~= Walk { seen: seen@, frontier: frontier@, total: 0 });
    }
    while frontier.len() > 0
        invariant
            ps == procs@,
            walked(ps, walk_from(root_pid)) == walked(
                ps,
                (Walk { seen: seen@, frontier: frontier@, total: total as nat }),
            ),
            walked(ps, walk_from(root_pid)) <= u64::MAX,
            marks.len() == ps.len(),
            total == marked_rss(ps, marks),
            seen@.contains(root_pid),
            forall|p: u32| #[trigger] seen@.contains(p) ==> in_tree(ps, root_pid, p),
            forall|p: u32|
                #[trigger] seen@.contains(p) && p != root_pid ==> exists|i: int|
                    0 <= i < ps.len() && #[trigger] marks[i] && ps[i].pid == p,
            forall|i: int|
                0 <= i < ps.len() && #[trigger] marks[i] ==> ps[i].pid != root_pid
                    && seen@.contains(ps[i].pid) && in_tree(ps, root_pid, ps[i].ppid),
            forall|i: int, j: int|
                0 <= i < j < ps.len() && #[trigger] marks[i] && #[trigger] marks[j] ==> ps[i].pid
                    != ps[j].pid,
            forall|k: int| 0 <= k < frontier@.len() ==> seen@.contains(#[trigger] frontier@[k]),
            forall|i: int|
                0 <= i < ps.len() && seen@.contains((#[trigger] ps[i]).ppid)
                    && !frontier@.contains(ps[i].ppid) ==> seen@.contains(ps[i].pid),
        decreases unmarked(marks), frontier@.len(),
    {
        let ghost frontier0 = frontier@;
        let ghost marks0 = marks;
        let parent: u32 = match frontier.pop() {
            Some(p) => p,
            None => {
                return total;
            },
        };
        let ghost base = frontier@;
        let ghost rest = Walk { seen: seen@, frontier: base, total: total as nat };
        proof {
            assert(frontier0.drop_last() =~= base);
            assert(ps.take(0) =~= Seq::<ProcSample>::empty());
            assert(frontier0 =~= base.push(parent));
            assert(frontier0[frontier0.len() - 1] == parent);
            assert(seen@.contains(parent));
            assert forall|k: int| 0 <= k < base.len() implies seen@.contains(
                #[trigger] base[k],
            ) by {
                assert(base[k] == frontier0[k]);
            }
            assert forall|i: int|
                0 <= i < ps.len() && seen@.contains((#[trigger] ps[i]).ppid) && ps[i].ppid
                    != parent && !base.contains(ps[i].ppid) implies seen@.contains(ps[i].pid) by {
                if frontier0.contains(ps[i].ppid) {
                    let k = choose|k: int|
                        0 <= k < frontier0.len() && frontier0[k] == ps[i].ppid;
                    assert(k < base.len());
                    assert(base[k] == ps[i].ppid);
                }
            }
        }
        let mut i: usize = 0;
        while i < procs.len()
            invariant
                0 <= i <= ps.len(),
                ps == procs@,
                met_all(ps.take(i as int), parent, rest) == (Walk {
                    seen: seen@,
                    frontier: frontier@,
                    total: total as nat,
                }),
                walked(ps, met_all(ps, parent, rest)) == walked(ps, walk_from(root_pid)),
                walked(ps, walk_from(root_pid)) <= u64::MAX,
                marks.len() == ps.len(),
                total == marked_rss(ps, marks),
                seen@.contains(root_pid),
                seen@.contains(parent),
                forall|p: u32| #[trigger] seen@.contains(p) ==> in_tree(ps, root_pid, p),
                forall|p: u32|
                    #[trigger] seen@.contains(p) && p != root_pid ==> exists|i: int|
                        0 <= i < ps.len() && #[trigger] marks[i] && ps[i].pid == p,
                forall|i: int|
                    0 <= i < ps.len() && #[trigger] marks[i] ==> ps[i].pid != root_pid
                        && seen@.contains(ps[i].pid) && in_tree(ps, root_pid, ps[i].ppid),
                forall|i: int, j: int|
                    0 <= i < j < ps.len() && #[trigger] marks[i] && #[trigger] marks[j]
                        ==> ps[i].pid != ps[j].pid,
                forall|k: int|
                    0 <= k < frontier@.len() ==> seen@.contains(#[trigger] frontier@[k]),
                forall|j: int|
                    0 <= j < ps.len() && seen@.contains((#[trigger] ps[j]).ppid) && ps[j].ppid
                        != parent && !frontier@.contains(ps[j].ppid) ==> seen@.contains(ps[j].pid),
                forall|j: int|
                    0 <= j < i && (#[trigger] ps[j]).ppid == parent ==> seen@.contains(ps[j].pid),
                unmarked(marks) < unmarked(marks0) || (unmarked(marks) == unmarked(marks0)
                    && frontier@.len() < frontier0.len()),
            decreases ps.len() - i,
        {
            let p = &procs[i];
            proof {
                assert(ps.take(i + 1).drop_last() =~= ps.take(i as int));
                assert(ps.take(i + 1).last() == ps[i as int]);
            }
            if p.ppid == parent && !seen.contains(&p.pid) {
                let ghost seen0 = seen@;
                let ghost m = marks;
                let ghost f = frontier@;
                let pid: u32 = p.pid;
                proof {
                    lemma_child_in_tree(ps, root_pid, i as int);
                    if marks[i as int] {
                        assert(seen@.contains(ps[i as int].pid));
                    }
                    lemma_mark_one(ps, m, i as int);
                    lemma_unmarked_one(m, i as int);
                    marks = m.update(i as int, true);
                    lemma_met_grows(ps, parent, rest, i + 1);
                    lemma_walk_grows(ps, met_all(ps, parent, rest));
                }
                let _new = seen.insert(pid);
                total = total + p.rss_mb;
                frontier.push(pid);
                proof {
                    assert(marks[i as int]);
                    assert forall|q: u32|
                        #[trigger] seen@.contains(q) && q != root_pid implies exists|x: int|
                        0 <= x < ps.len() && #[trigger] marks[x] && ps[x].pid == q by {
                        if q == pid {
                            assert(marks[i as int] && ps[i as int].pid == q);
                        } else {
                            assert(seen0.contains(q));
                            let x = choose|x: int|
                                0 <= x < ps.len() && #[trigger] m[x] && ps[x].pid == q;
                            assert(marks[x] && ps[x].pid == q);
                        }
                    }
                    assert forall|x: int| 0 <= x < ps.len() && #[trigger] marks[x] implies ps[x].pid
                        != root_pid && seen@.contains(ps[x].pid) && in_tree(
                        ps,
                        root_pid,
                        ps[x].ppid,
                    ) by {
                        if x != i {
                            assert(m[x]);
                        }
                    }
                    assert forall|x: int, y: int|
                        0 <= x < y < ps.len() && #[trigger] marks[x]
                            && #[trigger] marks[y] implies ps[x].pid != ps[y].pid by {
                        if x == i {
                            assert(m[y]);
                        } else if y == i {
                            assert(m[x]);
                        } else {
                            assert(m[x] && m[y]);
                        }
                    }
                    assert forall|j: int|
                        0 <= j < ps.len() && seen@.contains((#[trigger] ps[j]).ppid) && ps[j].ppid
                            != parent && !frontier@.contains(ps[j].ppid) implies seen@.contains(
                        ps[j].pid,
                    ) by {
                        assert(frontier@[f.len() as int] == pid);
                        assert(ps[j].ppid != pid);
                        if f.contains(ps[j].ppid) {
                            let k = choose|k: int| 0 <= k < f.len() && f[k] == ps[j].ppid;
                            assert(frontier@[k] == ps[j].ppid);
                        }
                    }
                }
            }
            i += 1;
        }
        proof {
            assert(ps.take(ps.len() as int) =~= ps);
            assert forall|j: int|
                0 <= j < ps.len() && seen@.contains((#[trigger] ps[j]).ppid)
                    && !frontier@.contains(ps[j].ppid) implies seen@.contains(ps[j].pid) by {}
        }
    }
    proof {
        assert forall|k: int|
            0 <= k < ps.len() && in_tree(ps, root_pid, (#[trigger] ps[k]).ppid) && ps[k].pid
                != root_pid implies exists|i: int|
            0 <= i < ps.len() && #[trigger] marks[i] && ps[i].pid == ps[k].pid by {
            let n = choose|n: nat| #[trigger] descends(ps, root_pid, ps[k].ppid, n);
            assert forall|i: int|
                0 <= i < ps.len() && seen@.contains((#[trigger] ps[i]).ppid) implies seen@.contains(
                ps[i].pid,
            ) by {}
            lemma_closed_holds_tree(ps, root_pid, seen@, ps[k].ppid, n);
            assert(seen@.contains(ps[k].pid));
        }
        assert(marks_descendants(ps, root_pid, marks));
    }
    total
}

/// Where no two rows are of one process, the marks are determined: the sum is that of all rows
/// that are below the root.
pub proof fn law_descendants_are_counted_once(
    ps: Seq<ProcSample>,
    root: u32,
    a: Seq<bool>,
    b: Seq<bool>,
)
    requires
        forall|i: int, j: int|
            0 <= i < j < ps.len() ==> (#[trigger] ps[i]).pid != (#[trigger] ps[j]).pid,
        marks_descendants(ps, root, a),
        marks_descendants(ps, root, b),
    ensures
        a == b,
        marked_rss(ps, a) == marked_rss(ps, b),
{
    assert forall|i: int| 0 <= i < ps.len() implies a[i] == b[i] by {
        if a[i] {
            assert(in_tree(ps, root, ps[i].ppid) && ps[i].pid != root);
            let k = choose|k: int| 0 <= k < ps.len() && #[trigger] b[k] && ps[k].pid == ps[i].pid;
            assert(k == i);
        }
        if b[i] {
            assert(in_tree(ps, root, ps[i].ppid) && ps[i].pid != root);
            let k = choose|k: int| 0 <= k < ps.len() && #[trigger] a[k] && ps[k].pid == ps[i].pid;
            assert(k == i);
        }
    }
    assert(a =~= b);
}

/// Whether a command is one of the helper processes that hold the memory of a web view.
pub open spec fn is_webkit(comm: Seq<char>) -> bool {
    ||| contains_seq(comm, "WebKit.WebContent"@)
    ||| contains_seq(comm, "WebKit.GPU"@)
    ||| contains_seq(comm, "WebKit.Networking"@)
}

/// Whether one reading is named before another: by memory, the most first, then by process id.
pub open spec fn named_before(a: (u32, u64), b: (u32, u64)) -> bool {
    a.1 > b.1 || (a.1 == b.1 && a.0 < b.0)
}

/// Readings in order with one more put in its place.
pub open spec fn ranked_with(s: Seq<(u32, u64)>, x: (u32, u64)) -> Seq<(u32, u64)>
    decreases s.len(),
{
    if s.len() == 0 || !named_before(x, s.last()) {
        s.push(x)
    } else {
        ranked_with(s.drop_last(), x).push(s.last())
    }
}

/// The helper processes among some rows, in order.
pub open spec fn webkit_ranked(ps: Seq<ProcSample>) -> Seq<(u32, u64)>
    decreases ps.len(),
{
    if ps.len() == 0 {
        Seq::empty()
    } else {
        let before = webkit_ranked(ps.drop_last());
        if is_webkit(ps.last().comm@) {
            ranked_with(before, (ps.last().pid, ps.last().rss_mb))
        } else {
            before
        }
    }
}

/// The first `limit` readings.
pub open spec fn top_of(s: Seq<(u32, u64)>, limit: nat) -> Seq<(u32, u64)> {
    if s.len() > limit {
        s.take(limit as int)
    } else {
        s
    }
}

/// Whether `comm` is one of the helper processes of a web view.
fn is_webkit_helper(comm: &str) -> (r: bool)
    ensures
        r == is_webkit(comm@),
{
    contains_text(comm, "WebKit.WebContent") || contains_text(comm, "WebKit.GPU")
        || contains_text(comm, "WebKit.Networking")
}

/// Putting a reading before the last one puts it into what precedes the last one.
proof fn lemma_ranked_at(s: Seq<(u32, u64)>, x: (u32, u64), k: int)
    requires
        0 <= k <= s.len(),
        forall|j: int| k <= j < s.len() ==> named_before(x, #[trigger] s[j]),
        k > 0 ==> !named_before(x, s[k - 1]),
    ensures
        ranked_with(s, x) == s.insert(k, x),
    decreases s.len(),
{
    if k == s.len() {
        assert(s.insert(k, x) =~= s.push(x));
    } else {
        let t = s.drop_last();
        assert forall|j: int| k <= j < t.len() implies named_before(x, #[trigger] t[j]) by {
            assert(t[j] == s[j]);
        }
        lemma_ranked_at(t, x, k);
        assert(named_before(x, s[s.len() - 1]));
        assert(s.insert(k, x) =~= t.insert(k, x).push(s.last()));
    }
}

/// The `limit` helper processes with the most memory, of all processes of the machine, most
/// first; of two with the same memory the one with the smaller id first.
pub fn webkit_top_consumers(procs: &Vec<ProcSample>, limit: usize) -> (r: Vec<(u32, u64)>)
    ensures
        r@ == top_of(webkit_ranked(procs@), limit as nat),
{
    let mut hits: Vec<(u32, u64)> = Vec::new();
    let mut i: usize = 0;
    assert(procs@.take(0) =~= Seq::<ProcSample>::empty());
    assert(hits@ =~= webkit_ranked(procs@.take(0)));
    while i < procs.len()
        invariant
            0 <= i <= procs@.len(),
            hits@ == webkit_ranked(procs@.take(i as int)),
        decreases procs@.len() - i,
    {
        proof {
            assert(procs@.take(i + 1).drop_last() =~= procs@.take(i as int));
            assert(procs@.take(i + 1).last() == procs@[i as int]);
        }
        if is_webkit_helper(procs[i].comm.as_str()) {
            let x = (procs[i].pid, procs[i].rss_mb);
            let mut k: usize = hits.len();
            while k > 0 && (x.1 > hits[k - 1].1 || (x.1 == hits[k - 1].1 && x.0 < hits[k - 1].0))
                invariant
                    0 <= k <= hits@.len(),
                    forall|j: int| k <= j < hits@.len() ==> named_before(x, #[trigger] hits@[j]),
                decreases k,
            {
                k -= 1;
            }
            proof {
                lemma_ranked_at(hits@, x, k as int);
            }
            hits.insert(k, x);
        }
        i += 1;
    }
    assert(procs@.take(procs@.len() as int) =~= procs@);
    if hits.len() > limit {
        hits.truncate(limit);
    }
    hits
}

/// Readings stand in order.
pub open spec fn is_ranked(s: Seq<(u32, u64)>) -> bool {
    forall|i: int, j: int| 0 <= i < j < s.len() ==> !named_before(#[trigger] s[j], #[trigger] s[i])
}

/// Putting a reading in its place keeps the order and the readings.
proof fn lemma_ranked_with(s: Seq<(u32, u64)>, x: (u32, u64))
    requires
        is_ranked(s),
    ensures
        is_ranked(ranked_with(s, x)),
        ranked_with(s, x).to_multiset() == s.to_multiset().insert(x),
        forall|y: (u32, u64)| #[trigger]
            ranked_with(s, x).contains(y) ==> y == x || s.contains(y),
    decreases s.len(),
{
    broadcast use vstd::seq_lib::group_to_multiset_ensures;

    let r = ranked_with(s, x);
    if s.len() == 0 || !named_before(x, s.last()) {
        assert forall|i: int, j: int| 0 <= i < j < r.len() implies !named_before(
            #[trigger] r[j],
            #[trigger] r[i],
        ) by {
            if j == s.len() {
                if i < s.len() - 1 {
                    assert(!named_before(s[s.len() - 1], s[i]));
                }
            } else {
                assert(!named_before(s[j], s[i]));
            }
        }
        assert forall|y: (u32, u64)| #[trigger] r.contains(y) implies y == x || s.contains(y) by {
            let k = choose|k: int| 0 <= k < r.len() && r[k] == y;
            if k < s.len() {
                assert(s[k] == y);
            }
        }
    } else {
        let t = s.drop_last();
        assert(is_ranked(t)) by {
            assert forall|i: int, j: int| 0 <= i < j < t.len() implies !named_before(
                #[trigger] t[j],
                #[trigger] t[i],
            ) by {
                assert(t[j] == s[j] && t[i] == s[i]);
            }
        }
        lemma_ranked_with(t, x);
        let p = ranked_with(t, x);
        assert(s =~= t.push(s.last()));
        assert forall|y: (u32, u64)| #[trigger] r.contains(y) implies y == x || s.contains(y) by {
            let k = choose|k: int| 0 <= k < r.len() && r[k] == y;
            if k < p.len() {
                assert(p[k] == y);
                assert(p.contains(y));
                if y != x {
                    let m = choose|m: int| 0 <= m < t.len() && t[m] == y;
                    assert(s[m] == y);
                }
            } else {
                assert(s[s.len() - 1] == y);
            }
        }
        assert forall|i: int, j: int| 0 <= i < j < r.len() implies !named_before(
            #[trigger] r[j],
            #[trigger] r[i],
        ) by {
            if j == p.len() {
                assert(p[i] == r[i]);
                assert(p.contains(p[i]));
                if p[i] != x {
                    let m = choose|m: int| 0 <= m < t.len() && t[m] == p[i];
                    assert(s[m] == p[i]);
                    assert(!named_before(s[s.len() - 1], s[m]));
                }
            } else {
                assert(!named_before(p[j], p[i]));
            }
        }
        assert(r.to_multiset() =~= s.to_multiset().insert(x));
    }
}

/// The helper processes among some rows, in the order of the table.
pub open spec fn webkit_hits(ps: Seq<ProcSample>) -> Seq<(u32, u64)>
    decreases ps.len(),
{
    if ps.len() == 0 {
        Seq::empty()
    } else {
        let before = webkit_hits(ps.drop_last());
        if is_webkit(ps.last().comm@) {
            before.push((ps.last().pid, ps.last().rss_mb))
        } else {
            before
        }
    }
}

/// The helper processes are ranked without one being lost or added: the one with the most memory
/// of all comes first.
pub proof fn law_helpers_are_ranked(ps: Seq<ProcSample>)
    ensures
        is_ranked(webkit_ranked(ps)),
        webkit_ranked(ps).to_multiset() == webkit_hits(ps).to_multiset(),
    decreases ps.len(),
{
    broadcast use vstd::seq_lib::group_to_multiset_ensures;

    if ps.len() > 0 {
        law_helpers_are_ranked(ps.drop_last());
        lemma_ranked_with(webkit_ranked(ps.drop_last()), (ps.last().pid, ps.last().rss_mb));
    }
}

/// One reading of the watchdog.
#[derive(Debug, Clone, PartialEq, Eq)]
pub struct WatchdogSample {
    /// Memory of the application's own process, in mebibytes.
    pub own_mb: u64,
    /// Memory of the processes below it.
    pub child_mb: u64,
    /// The helper processes with the most memory, with their ids.
    pub webkit_top: Vec<(u32, u64)>,
}

/// The predicate "is a row of this process".
pub open spec fn has_pid(pid: u32) -> spec_fn(ProcSample) -> bool {
    |p: ProcSample| p.pid == pid
}

/// The memory of a process: that of its first row, nothing where it has none.
pub open spec fn own_rss(ps: Seq<ProcSample>, pid: u32) -> u64 {
    match first_where(ps, has_pid(pid)) {
        Some(i) => ps[i].rss_mb,
        None => 0,
    }
}

/// The reading of the watchdog for a process table and the application's own process.
pub fn build_watchdog_sample(procs: &Vec<ProcSample>, own_pid: u32) -> (r: WatchdogSample)
    requires
        walked(procs@, walk_from(own_pid)) <= u64::MAX,
    ensures
        r.own_mb == own_rss(procs@, own_pid),
        exists|marks: Seq<bool>| #[trigger]
            marks_descendants(procs@, own_pid, marks) && r.child_mb == marked_rss(procs@, marks),
        r.child_mb == walked(procs@, walk_from(own_pid)),
        r.webkit_top@ == top_of(webkit_ranked(procs@), WEBKIT_TOP_LIMIT as nat),
{
    let ghost p = has_pid(own_pid);
    let mut own_mb: u64 = 0;
    let mut i: usize = 0;
    let mut found = false;
    while i < procs.len() && !found
        invariant
            0 <= i <= procs@.len(),
            p == has_pid(own_pid),
            !found ==> own_mb == 0 && forall|j: int| 0 <= j < i ==> !p(#[trigger] procs@[j]),
            found ==> own_mb == own_rss(procs@, own_pid),
        decreases procs@.len() - i,
    {
        if procs[i].pid == own_pid {
            own_mb = procs[i].rss_mb;
            found = true;
            proof {
                lemma_first_is(procs@, p, i as int);
            }
        }
        i += 1;
    }
    proof {
        if !found {
            lemma_first_none(procs@, p);
        }
    }
    WatchdogSample {
        own_mb,
        child_mb: sum_descendant_rss_mb(procs, own_pid),
        webkit_top: webkit_top_consumers(procs, WEBKIT_TOP_LIMIT),
    }
}

/// The larger of two numbers.
pub open spec fn larger(a: u64, b: u64) -> u64 {
    if a >= b {
        a
    } else {
        b
    }
}

/// The largest memory in a reading: of the process itself, of those below it together, or of the
/// first helper process.
pub open spec fn peak(s: WatchdogSample) -> u64 {
    larger(
        larger(s.own_mb, s.child_mb),
        if s.webkit_top@.len() > 0 {
            s.webkit_top@[0].1
        } else {
            0
        },
    )
}

/// The largest memory in a reading.
pub fn watchdog_peak_mb(sample: &WatchdogSample) -> (r: u64)
    ensures
        r == peak(*sample),
{
    let webkit_max: u64 = if sample.webkit_top.len() > 0 {
        sample.webkit_top[0].1
    } else {
        0
    };
    let own: u64 = if sample.own_mb >= sample.child_mb {
        sample.own_mb
    } else {
        sample.child_mb
    };
    if own >= webkit_max {
        own
    } else {
        webkit_max
    }
}

/// One process of the list of helpers, as text.
pub open spec fn top_item(x: (u32, u64)) -> Seq<char> {
    decimal(x.0 as nat) + ":"@ + decimal(x.1 as nat)
}

/// The list of helper processes, as text.
pub open spec fn top_text(top: Seq<(u32, u64)>) -> Seq<char> {
    "["@ + joined_by(top.map_values(|x: (u32, u64)| top_item(x)), ", "@) + "]"@
}

/// The list of helper processes, as text: `[pid:mb, pid:mb]`.
pub fn format_webkit_top(top: &Vec<(u32, u64)>) -> (r: String)
    ensures
        r@ == top_text(top@),
{
    let mut items: Vec<String> = Vec::new();
    let ghost all = top@.map_values(|x: (u32, u64)| top_item(x));
    let mut i: usize = 0;
    assert(texts(items@) =~= all.take(0));
    while i < top.len()
        invariant
            0 <= i <= top@.len(),
            all == top@.map_values(|x: (u32, u64)| top_item(x)),
            texts(items@) == all.take(i as int),
        decreases top@.len() - i,
    {
        let a = to_decimal(top[i].0 as u64);
        let b = to_decimal(top[i].1);
        let ghost before = items@;
        items.push(join3(a.as_str(), ":", b.as_str()));
        proof {
            assert(texts(items@) =~= texts(before).push(items@.last()@));
            assert(all[i as int] == top_item(top@[i as int]));
            assert(all.take(i + 1) =~= all.take(i as int).push(all[i as int]));
        }
        i += 1;
    }
    assert(all.take(top@.len() as int) =~= all);
    assert(texts(items@).skip(0) =~= texts(items@));
    let inner = join_from(&items, 0, ", ");
    join3("[", inner.as_str(), "]")
}

/// The line that the watchdog logs.
pub open spec fn line_text(s: WatchdogSample) -> Seq<char> {
    "rss_mb="@ + decimal(s.own_mb as nat) + " child_rss_mb="@ + decimal(s.child_mb as nat)
        + " webkit_top="@ + top_text(s.webkit_top@)
}

/// The line that the watchdog logs.
pub fn format_watchdog_line(sample: &WatchdogSample) -> (r: String)
    ensures
        r@ == line_text(*sample),
{
    let own = to_decimal(sample.own_mb);
    let child = to_decimal(sample.child_mb);
    let top = format_webkit_top(&sample.webkit_top);
    let head = join3("rss_mb=", own.as_str(), " child_rss_mb=");
    let mid = join3(head.as_str(), child.as_str(), " webkit_top=");
    join2(mid.as_str(), top.as_str())
}

/// What the watchdog logs, and how loud: the largest memory in the reading decides.
pub fn log_watchdog_sample(sample: &WatchdogSample) -> (r: (LevelFilter, String))
    ensures
        peak(*sample) >= RSS_ERROR_MB ==> r.0 == LevelFilter::Error && r.1@ == line_text(*sample)
            + " — runaway (>= 4096 MB)"@,
        RSS_WARN_MB <= peak(*sample) < RSS_ERROR_MB ==> r.0 == LevelFilter::Warn && r.1@
            == line_text(*sample) + " — elevated (>= 1536 MB)"@,
        peak(*sample) < RSS_WARN_MB ==> r.0 == LevelFilter::Info && r.1@ == line_text(*sample),
{
    let line = format_watchdog_line(sample);
    let top: u64 = watchdog_peak_mb(sample);
    if top >= RSS_ERROR_MB {
        (LevelFilter::Error, join2(line.as_str(), " — runaway (>= 4096 MB)"))
    } else if top >= RSS_WARN_MB {
        (LevelFilter::Warn, join2(line.as_str(), " — elevated (>= 1536 MB)"))
    } else {
        (LevelFilter::Info, line)
    }
}

/// An instant of the machine's monotonic clock.
#[verifier::external_type_specification]
#[verifier::external_body]
pub struct ExInstant(std::time::Instant);

/// `std::time::Instant::now`: the present instant. Which one it is rests on the machine's clock,
/// so nothing is promised of it.
pub assume_specification[ std::time::Instant::now ]() -> std::time::Instant;

/// `std::time::Instant::elapsed`: the time since an instant. How long it is rests on the
/// machine's clock, so nothing is promised of it.
pub assume_specification[ std::time::Instant::elapsed ](
    start: &std::time::Instant,
) -> std::time::Duration;

/// The whole milliseconds of a duration.
pub uninterp spec fn whole_millis(d: std::time::Duration) -> nat;

/// `std::time::Duration::as_millis`: the whole milliseconds of a duration, the same for every
/// reading of one duration. A duration has at most `u64::MAX` seconds and a fraction of one more.
pub assume_specification[ std::time::Duration::as_millis ](d: &std::time::Duration) -> (r: u128)
    ensures
        r == whole_millis(*d),
        r <= u64::MAX * 1000 + 999,
;

/// A stopwatch for commands.
#[derive(Debug, Clone, Copy)]
pub struct Timer {
    pub start: std::time::Instant,
}

impl Timer {
    /// Starts timing: the start is a reading of the clock. Which instant it is rests on the
    /// machine.
    #[must_use]
    pub fn start() -> (r: Self)
        ensures
            call_ensures(std::time::Instant::now, (), r.start),
    {
        Timer { start: std::time::Instant::now() }
    }

    /// The whole milliseconds of the time that the clock gives as elapsed since the start. How
    /// many they are rests on the machine; they always fit.
    #[must_use]
    pub fn ms(self) -> (r: u128)
        ensures
            r <= u64::MAX * 1000 + 999,
            exists|d: std::time::Duration| #[trigger]
                call_ensures(std::time::Instant::elapsed, (&self.start,), d) && r == whole_millis(d),
    {
        self.start.elapsed().as_millis()
    }
}

/// The words for the levels, whatever their case and the white space around them. No other word
/// stands for a level, and then the level is informational.
pub proof fn law_levels_have_their_words(value: &str, r: Option<LevelFilter>, env: LevelFilter)
    requires
        call_ensures(parse_level, (value,), r),
        call_ensures(level_from_env, (Some(value),), env),
    ensures
        ({
            let w = lowered(trimmed(value@));
            &&& w == "off"@ ==> r == Some(LevelFilter::Off)
            &&& w == "error"@ ==> r == Some(LevelFilter::Error)
            &&& w == "warn"@ ==> r == Some(LevelFilter::Warn)
            &&& w == "warning"@ ==> r == Some(LevelFilter::Warn)
            &&& w == "info"@ ==> r == Some(LevelFilter::Info)
            &&& w == "debug"@ ==> r == Some(LevelFilter::Debug)
            &&& w == "trace"@ ==> r == Some(LevelFilter::Trace)
            &&& r is Some ==> w == "off"@ || w == "error"@ || w == "warn"@ || w == "warning"@ || w
                == "info"@ || w == "debug"@ || w == "trace"@
        }),
        r matches Some(level) ==> env == level,
        r is None ==> env == LevelFilter::Info,
{
    reveal_strlit("off");
    reveal_strlit("error");
    reveal_strlit("warn");
    reveal_strlit("warning");
    reveal_strlit("info");
    reveal_strlit("debug");
    reveal_strlit("trace");
    assert("off"@.len() == 3 && "off"@[0] == 'o');
    assert("error"@.len() == 5 && "error"@[0] == 'e');
    assert("warn"@.len() == 4 && "warn"@[0] == 'w');
    assert("warning"@.len() == 7 && "warning"@[0] == 'w');
    assert("info"@.len() == 4 && "info"@[0] == 'i');
    assert("debug"@.len() == 5 && "debug"@[0] == 'd');
    assert("trace"@.len() == 5 && "trace"@[0] == 't');
}

/// Without an environment value the level is informational.
pub proof fn law_no_value_is_informational(env: LevelFilter)
    requires
        call_ensures(level_from_env, (None,), env),
    ensures
        env == LevelFilter::Info,
{
}

/// A number written out is read as kibibytes, whatever white space is around it, and told in whole
/// mebibytes, what is left over not counted.
pub proof fn law_kibibytes_are_told_in_mebibytes(output: &str, r: Option<u64>, kib: nat)
    requires
        call_ensures(parse_ps_rss_kib_to_mb, (output,), r),
    ensures
        trimmed(output@) == decimal(kib) && kib <= u64::MAX ==> (r matches Some(mb) && mb * 1024
            <= kib < mb * 1024 + 1024),
        parsed(trimmed(output@), u64::MAX as nat) is None ==> r is None,
{
    if kib <= u64::MAX {
        law_decimal_reads_back(kib, u64::MAX as nat);
    }
}

/// The text of a number holds no white space, so trimming leaves it alone.
proof fn lemma_decimal_is_trimmed(n: nat)
    ensures
        trimmed(decimal(n)) == decimal(n),
{
    lemma_decimal_value(n);
    assert(is_digit(decimal(n)[0]));
    assert(is_digit(decimal(n)[decimal(n).len() - 1]));
    lemma_trimmed_as_is(decimal(n));
}

/// A line of the process table is read in the order of its columns: the process, its parent, its
/// memory in kibibytes, and then the command, which is read word by word.
pub proof fn law_process_lines_are_read_column_by_column(
    line: &str,
    r: Option<ProcSample>,
    pid: nat,
    ppid: nat,
    kib: nat,
)
    requires
        call_ensures(parse_ps_proc_line, (line,), r),
        words(line@).len() >= 4,
        words(line@)[0] == decimal(pid),
        words(line@)[1] == decimal(ppid),
        words(line@)[2] == decimal(kib),
        pid <= u32::MAX,
        ppid <= u32::MAX,
        kib <= u64::MAX,
    ensures
        r matches Some(p) && p.pid == pid && p.ppid == ppid && p.rss_mb * 1024 <= kib < p.rss_mb
            * 1024 + 1024 && words(p.comm@) == words(line@).skip(3),
{
    law_decimal_reads_back(pid, u32::MAX as nat);
    law_decimal_reads_back(ppid, u32::MAX as nat);
    law_decimal_reads_back(kib, u64::MAX as nat);
    lemma_decimal_is_trimmed(kib);
    let ws = words(line@);
    let rest = ws.skip(3);
    assert forall|i: int| 0 <= i < rest.len() implies (#[trigger] rest[i]).len() > 0 by {
        law_words_hold_no_white_space(line@, i + 3, 0);
    }
    assert forall|i: int, j: int| 0 <= i < rest.len() && 0 <= j < rest[i].len() implies !is_white(
        #[trigger] rest[i][j],
    ) by {
        law_words_hold_no_white_space(line@, i + 3, j);
    }
    law_words_read_back(rest);
}

/// A line with fewer than four words, or without a number where one belongs, is no row.
pub proof fn law_other_lines_are_no_rows(line: &str, r: Option<ProcSample>)
    requires
        call_ensures(parse_ps_proc_line, (line,), r),
    ensures
        words(line@).len() < 4 ==> r is None,
        parsed(words(line@)[0], u32::MAX as nat) is None ==> r is None,
        parsed(words(line@)[1], u32::MAX as nat) is None ==> r is None,
        parsed(trimmed(words(line@)[2]), u64::MAX as nat) is None ==> r is None,
{
}

/// A line more in the table is one row more, at the end, exactly where the line is a row.
pub proof fn law_every_row_of_the_table_is_read(lines: Seq<Seq<char>>, line: Seq<char>)
    ensures
        rows_of(Seq::empty()).len() == 0,
        row_of(line) matches Some(p) ==> rows_of(lines.push(line)) == rows_of(lines).push(p),
        row_of(line) is None ==> rows_of(lines.push(line)) == rows_of(lines),
{
    assert(lines.push(line).drop_last() =~= lines);
}

/// What the tree of a process is: the process itself, with each process of the tree its children,
/// and nothing that could be left out.
pub proof fn law_tree_is_what_descends(ps: Seq<ProcSample>, root: u32, pid: u32, closed: Set<u32>)
    ensures
        in_tree(ps, root, root),
        forall|i: int|
            0 <= i < ps.len() && in_tree(ps, root, (#[trigger] ps[i]).ppid) ==> in_tree(
                ps,
                root,
                ps[i].pid,
            ),
        closed.contains(root) && (forall|i: int|
            0 <= i < ps.len() && closed.contains((#[trigger] ps[i]).ppid) ==> closed.contains(
                ps[i].pid,
            )) && in_tree(ps, root, pid) ==> closed.contains(pid),
{
    assert(descends(ps, root, root, 0));
    assert forall|i: int| 0 <= i < ps.len() && in_tree(ps, root, (#[trigger] ps[i]).ppid) implies in_tree(
        ps,
        root,
        ps[i].pid,
    ) by {
        lemma_child_in_tree(ps, root, i);
    }
    if closed.contains(root) && (forall|i: int|
        0 <= i < ps.len() && closed.contains((#[trigger] ps[i]).ppid) ==> closed.contains(
            ps[i].pid,
        )) && in_tree(ps, root, pid) {
        let n = choose|n: nat| #[trigger] descends(ps, root, pid, n);
        lemma_closed_holds_tree(ps, root, closed, pid, n);
    }
}

/// Where every process has one row, the memory counted is that of all rows below the root, the
/// root itself left out.
pub proof fn law_memory_below_the_root_is_summed(
    procs: &Vec<ProcSample>,
    root: u32,
    r: u64,
    marks: Seq<bool>,
)
    requires
        call_ensures(sum_descendant_rss_mb, (procs, root), r),
        forall|i: int, j: int|
            0 <= i < j < procs@.len() ==> (#[trigger] procs@[i]).pid != (#[trigger] procs@[j]).pid,
        marks.len() == procs@.len(),
        forall|i: int|
            0 <= i < procs@.len() ==> #[trigger] marks[i] == (procs@[i].pid != root && in_tree(
                procs@,
                root,
                procs@[i].ppid,
            )),
    ensures
        r == marked_rss(procs@, marks),
{
    let ps = procs@;
    let m = choose|m: Seq<bool>| #[trigger] marks_descendants(ps, root, m) && r == marked_rss(ps, m);
    assert(marks_descendants(ps, root, marks)) by {
        assert forall|k: int|
            0 <= k < ps.len() && in_tree(ps, root, (#[trigger] ps[k]).ppid) && ps[k].pid
                != root implies exists|i: int|
            0 <= i < ps.len() && #[trigger] marks[i] && ps[i].pid == ps[k].pid by {
            assert(marks[k]);
        }
    }
    law_descendants_are_counted_once(ps, root, m, marks);
}

/// The memory of marked rows: one row more adds its memory exactly where it is marked.
pub proof fn law_marked_rows_are_added_up(
    ps: Seq<ProcSample>,
    row: ProcSample,
    marks: Seq<bool>,
    mark: bool,
)
    requires
        marks.len() == ps.len(),
    ensures
        marked_rss(Seq::empty(), Seq::empty()) == 0,
        marked_rss(ps.push(row), marks.push(mark)) == marked_rss(ps, marks) + (if mark {
            row.rss_mb as nat
        } else {
            0
        }),
{
    assert(ps.push(row).drop_last() =~= ps);
    lemma_more_marks(ps, marks, mark);
}

/// A mark behind the rows does not count.
proof fn lemma_more_marks(ps: Seq<ProcSample>, marks: Seq<bool>, mark: bool)
    requires
        ps.len() <= marks.len(),
    ensures
        marked_rss(ps, marks.push(mark)) == marked_rss(ps, marks),
    decreases ps.len(),
{
    if ps.len() > 0 {
        lemma_more_marks(ps.drop_last(), marks, mark);
    }
}

/// Of several rows of one process only one is counted: where the first row met is that of a child
/// of the root, a second one for the same process and the same parent adds nothing.
pub proof fn law_a_process_met_is_not_counted_again(w: Walk, row: ProcSample, parent: u32)
    ensures
        w.seen.contains(row.pid) ==> met(w, row, parent) == w,
        row.ppid != parent ==> met(w, row, parent) == w,
        row.ppid == parent && !w.seen.contains(row.pid) ==> {
            let next = met(w, row, parent);
            &&& next.total == w.total + row.rss_mb
            &&& next.seen == w.seen.insert(row.pid)
            &&& next.frontier == w.frontier.push(row.pid)
            &&& met(next, row, parent) == next
        },
{
}

/// Which helper processes are named: no more than asked for, each of them a process of the table
/// with its memory, the ones with the most memory first and of two with the same the one with the
/// smaller id. A helper that is not named has no more memory than any that is, and is left out
/// only where as many as asked for are named.
pub proof fn law_largest_helpers_are_named(
    procs: &Vec<ProcSample>,
    limit: usize,
    r: Vec<(u32, u64)>,
    i: int,
    k: int,
)
    requires
        call_ensures(webkit_top_consumers, (procs, limit), r),
        0 <= i < procs@.len(),
    ensures
        r@.len() <= limit,
        0 <= k < r@.len() ==> exists|j: int|
            0 <= j < procs@.len() && is_webkit((#[trigger] procs@[j]).comm@) && r@[k] == (
                procs@[j].pid,
                procs@[j].rss_mb,
            ),
        0 < k < r@.len() ==> r@[k - 1].1 > r@[k].1 || (r@[k - 1].1 == r@[k].1 && r@[k - 1].0
            <= r@[k].0),
        is_webkit(procs@[i].comm@) && !r@.contains((procs@[i].pid, procs@[i].rss_mb)) ==> r@.len()
            == limit && (0 <= k < r@.len() ==> r@[k].1 >= procs@[i].rss_mb),
{
    let ps = procs@;
    let all = webkit_ranked(ps);
    law_helpers_are_ranked(ps);
    let hits = webkit_hits(ps);
    let x = (ps[i].pid, ps[i].rss_mb);
    assert(forall|j: int| 0 <= j < r@.len() ==> r@[j] == all[j]);
    if 0 <= k < r@.len() {
        lemma_same_items(all, hits, all[k]);
        assert(all.contains(all[k]));
        let m = choose|m: int| 0 <= m < hits.len() && hits[m] == all[k];
        lemma_hit_is_a_row(ps, m);
    }
    if 0 < k < r@.len() {
        assert(!named_before(all[k], all[k - 1]));
    }
    if is_webkit(ps[i].comm@) && !r@.contains(x) {
        lemma_row_is_a_hit(ps, i);
        lemma_same_items(all, hits, x);
        let m = choose|m: int| 0 <= m < all.len() && all[m] == x;
        if m < r@.len() {
            assert(r@[m] == x);
        }
        if 0 <= k < r@.len() {
            assert(!named_before(all[m], all[k]));
        }
    }
}

/// Putting a reading in its place makes one more.
proof fn lemma_ranked_len(s: Seq<(u32, u64)>, x: (u32, u64))
    ensures
        ranked_with(s, x).len() == s.len() + 1,
    decreases s.len(),
{
    if s.len() > 0 && named_before(x, s.last()) {
        lemma_ranked_len(s.drop_last(), x);
    }
}

/// Two sequences with the same items, however often, hold the same.
proof fn lemma_same_items(a: Seq<(u32, u64)>, b: Seq<(u32, u64)>, x: (u32, u64))
    requires
        a.to_multiset() == b.to_multiset(),
    ensures
        a.contains(x) <==> b.contains(x),
{
    a.to_multiset_ensures();
    b.to_multiset_ensures();
    assert(a.contains(x) <==> a.to_multiset().count(x) > 0);
    assert(b.contains(x) <==> b.to_multiset().count(x) > 0);
}

/// A helper that is found is a row of the table.
proof fn lemma_hit_is_a_row(ps: Seq<ProcSample>, m: int)
    requires
        0 <= m < webkit_hits(ps).len(),
    ensures
        exists|j: int|
            0 <= j < ps.len() && is_webkit((#[trigger] ps[j]).comm@) && webkit_hits(ps)[m] == (
                ps[j].pid,
                ps[j].rss_mb,
            ),
    decreases ps.len(),
{
    let t = ps.drop_last();
    if m < webkit_hits(t).len() {
        lemma_hit_is_a_row(t, m);
        let j = choose|j: int|
            0 <= j < t.len() && is_webkit((#[trigger] t[j]).comm@) && webkit_hits(t)[m] == (
                t[j].pid,
                t[j].rss_mb,
            );
        assert(ps[j] == t[j]);
    } else {
        assert(ps[ps.len() - 1] == ps.last());
    }
}

/// A row of a helper is found.
proof fn lemma_row_is_a_hit(ps: Seq<ProcSample>, i: int)
    requires
        0 <= i < ps.len(),
        is_webkit(ps[i].comm@),
    ensures
        webkit_hits(ps).contains((ps[i].pid, ps[i].rss_mb)),
    decreases ps.len(),
{
    let t = ps.drop_last();
    let (before, now) = (webkit_hits(t), webkit_hits(ps));
    let x = (ps[i].pid, ps[i].rss_mb);
    if i < t.len() {
        assert(t[i] == ps[i]);
        lemma_row_is_a_hit(t, i);
        let k = choose|k: int| 0 <= k < before.len() && before[k] == x;
        assert(now[k] == x);
    } else {
        assert(now[before.len() as int] == x);
    }
}

/// Which commands are helpers of a web view: those with one of three names in them. A row more is
/// a helper more exactly where its command is one.
pub proof fn law_helpers_are_known_by_their_names(ps: Seq<ProcSample>, row: ProcSample)
    ensures
        contains_seq(row.comm@, "WebKit.WebContent"@) || contains_seq(row.comm@, "WebKit.GPU"@)
            || contains_seq(row.comm@, "WebKit.Networking"@) ==> webkit_hits(ps.push(row))
            == webkit_hits(ps).push((row.pid, row.rss_mb)) && webkit_ranked(ps.push(row)).len()
            == webkit_ranked(ps).len() + 1,
        !contains_seq(row.comm@, "WebKit.WebContent"@) && !contains_seq(row.comm@, "WebKit.GPU"@)
            && !contains_seq(row.comm@, "WebKit.Networking"@) ==> webkit_hits(ps.push(row))
            == webkit_hits(ps) && webkit_ranked(ps.push(row)) == webkit_ranked(ps),
{
    assert(ps.push(row).drop_last() =~= ps);
    lemma_ranked_len(webkit_ranked(ps), (row.pid, row.rss_mb));
}

/// What a reading holds: the memory of the first row of the application's own process, nothing
/// where it has none, and at most three helpers.
pub proof fn law_reading_is_of_the_own_process(
    procs: &Vec<ProcSample>,
    own_pid: u32,
    r: WatchdogSample,
    k: int,
)
    requires
        call_ensures(build_watchdog_sample, (procs, own_pid), r),
    ensures
        0 <= k < procs@.len() && procs@[k].pid == own_pid && (forall|j: int|
            0 <= j < k ==> (#[trigger] procs@[j]).pid != own_pid) ==> r.own_mb == procs@[k].rss_mb,
        (forall|j: int| 0 <= j < procs@.len() ==> (#[trigger] procs@[j]).pid != own_pid)
            ==> r.own_mb == 0,
        r.webkit_top@.len() <= 3,
        r.webkit_top@ == top_of(webkit_ranked(procs@), 3),
{
    let p = has_pid(own_pid);
    if 0 <= k < procs@.len() && procs@[k].pid == own_pid && (forall|j: int|
        0 <= j < k ==> (#[trigger] procs@[j]).pid != own_pid) {
        assert forall|j: int| 0 <= j < k implies !p(#[trigger] procs@[j]) by {}
        lemma_first_is(procs@, p, k);
    }
    if forall|j: int| 0 <= j < procs@.len() ==> (#[trigger] procs@[j]).pid != own_pid {
        assert forall|j: int| 0 <= j < procs@.len() implies !p(#[trigger] procs@[j]) by {}
        lemma_first_none(procs@, p);
    }
}

/// The largest memory in a reading is at least each of its parts, and is one of them. A reading is
/// an error from four gibibytes on, a warning from one and a half, and else informational; the
/// line always starts with the reading itself.
pub proof fn law_largest_memory_decides(
    sample: &WatchdogSample,
    top: u64,
    line: String,
    r: (LevelFilter, String),
)
    requires
        call_ensures(watchdog_peak_mb, (sample,), top),
        call_ensures(format_watchdog_line, (sample,), line),
        call_ensures(log_watchdog_sample, (sample,), r),
    ensures
        top >= sample.own_mb,
        top >= sample.child_mb,
        sample.webkit_top@.len() > 0 ==> top >= sample.webkit_top@[0].1,
        top == sample.own_mb || top == sample.child_mb || (sample.webkit_top@.len() > 0 && top
            == sample.webkit_top@[0].1),
        r.0 is Error <==> top >= 4096,
        r.0 is Warn <==> 1536 <= top < 4096,
        r.0 is Info <==> top < 1536,
        line@.is_prefix_of(r.1@),
        top < 1536 ==> r.1@ == line@,
{
    assert(line@ =~= r.1@.take(line@.len() as int));
}

/// The line of a reading, part by part.
pub proof fn law_line_tells_every_part(sample: &WatchdogSample, top: String, line: String)
    requires
        call_ensures(format_webkit_top, (&sample.webkit_top,), top),
        call_ensures(format_watchdog_line, (sample,), line),
    ensures
        line@ == "rss_mb="@ + decimal(sample.own_mb as nat) + " child_rss_mb="@ + decimal(
            sample.child_mb as nat,
        ) + " webkit_top="@ + top@,
{
}

/// The list of helpers as text: empty brackets for none, and for each one more its id and memory,
/// behind a comma where it is not the first.
pub proof fn law_helpers_are_listed_one_by_one(top: Seq<(u32, u64)>, x: (u32, u64))
    ensures
        top_text(Seq::empty()) == "[]"@,
        ({
            let item = decimal(x.0 as nat) + ":"@ + decimal(x.1 as nat);
            let now = top_text(top.push(x));
            &&& top.len() == 0 ==> now == "["@ + item + "]"@
            &&& top.len() > 0 ==> now == top_text(top).drop_last() + ", "@ + item + "]"@
        }),
{
    reveal_strlit("[");
    reveal_strlit("]");
    reveal_strlit("[]");
    let f = |x: (u32, u64)| top_item(x);
    let none = Seq::<(u32, u64)>::empty();
    assert(none.map_values(f) =~= Seq::<Seq<char>>::empty());
    assert(top_text(none) =~= "[]"@);
    let items = top.map_values(f);
    let item = top_item(x);
    assert(top.push(x).map_values(f) =~= items.push(item));
    law_texts_are_joined_one_by_one(items, item, ", "@);
    if top.len() > 0 {
        let inner = joined_by(items, ", "@);
        assert(top_text(top).drop_last() =~= "["@ + inner);
        assert(top_text(top.push(x)) =~= ("["@ + inner) + ", "@ + item + "]"@);
    }
}

} // verus!

//! The status of a repository, out of what libgit2 reports.

use crate::error::{code_of, git2_code, git2_message, AppError, AppResult, ErrorKind, GitCode};
use crate::git::diff::{DiffRequest, RequestView};
use crate::git::MAX_DIFF_BYTES;
use crate::pathname::{file_name, file_name_of, parent_name, parent_name_of};
use crate::text::{
    chars_of, join2, join3, lemma_text_lt_irreflexive, lemma_text_lt_total,
    lemma_text_lt_transitive, opt_text, owned, starts_with, text_before, text_lt, text_range,
};
use vstd::hash_map::StringHashMap;
use vstd::prelude::*;

verus! {

/// The kind of change that affects a file.
#[derive(Debug, Clone, Copy, PartialEq, Eq, Structural)]
pub enum FileStatus {
    Modified,
    Added,
    Deleted,
    Renamed,
    Untracked,
    Conflicted,
    Typechange,
}

/// A changed file, on the staged or the unstaged side.
#[derive(Debug, Clone)]
pub struct FileEntry {
    pub path: String,
    pub old_path: Option<String>,
    pub status: FileStatus,
    pub staged: bool,
    pub is_binary: bool,
    pub additions: usize,
    pub deletions: usize,
}

/// A snapshot of the status of a repository.
#[derive(Debug, Clone)]
pub struct RepoStatus {
    pub repo_name: String,
    /// Path of the working tree; of the repository directory where there is no working tree.
    pub repo_path: String,
    pub branch: String,
    pub unstaged: Vec<FileEntry>,
    pub staged: Vec<FileEntry>,
    pub head_has_commits: bool,
}

/// Line statistics of one path.
#[derive(Debug, Clone, Copy, PartialEq, Eq, Structural)]
pub struct LineStats {
    pub additions: usize,
    pub deletions: usize,
    pub is_binary: bool,
}

/// The statuses that libgit2 gives a file.
#[derive(Debug, Clone, Copy, PartialEq, Eq, Structural)]
pub enum StatusFlag {
    IndexNew,
    IndexModified,
    IndexDeleted,
    IndexRenamed,
    IndexTypechange,
    WtNew,
    WtModified,
    WtDeleted,
    WtRenamed,
    WtTypechange,
    Conflicted,
}

/// The two sides of a rename.
#[derive(Debug, Clone)]
pub struct RawRename {
    pub new_path: Option<String>,
    pub old_path: Option<String>,
}

/// A status entry as libgit2 reports it.
#[derive(Debug, Clone)]
pub struct RawStatus {
    /// The bits of the entry's `git2::Status`.
    pub bits: u32,
    pub path: Option<String>,
    pub head_to_index: Option<RawRename>,
    pub index_to_workdir: Option<RawRename>,
}

/// What a diff says of one delta: its paths, which sides libgit2 took for binary, and the added
/// and deleted line counts where they could be had.
#[derive(Debug, Clone)]
pub struct RawStats {
    pub new_path: Option<String>,
    pub old_path: Option<String>,
    pub new_is_binary: bool,
    pub old_is_binary: bool,
    pub line_stats: Option<(usize, usize)>,
}

/// What HEAD refers to, where it can be resolved.
#[derive(Debug, Clone)]
pub struct HeadRef {
    pub detached: bool,
    /// The commit that HEAD refers to, in hexadecimal.
    pub target: Option<String>,
    pub shorthand: Option<String>,
}

/// What is read out of a repository to report its status.
pub struct RepoFacts {
    pub workdir: Option<String>,
    pub repo_dir: String,
    pub head: Result<HeadRef, git2::Error>,
    /// The name of the reference that `HEAD` symbolically refers to.
    pub head_symbolic_target: Option<String>,
    pub staged_stats: Vec<RawStats>,
    pub unstaged_stats: Vec<RawStats>,
    pub statuses: Vec<RawStatus>,
}

/// A changed file as contracts speak of it.
#[verifier::ext_equal]
pub struct EntryView {
    pub path: Seq<char>,
    pub old_path: Option<Seq<char>>,
    pub status: FileStatus,
    pub staged: bool,
    pub is_binary: bool,
    pub additions: usize,
    pub deletions: usize,
}

impl View for FileEntry {
    type V = EntryView;

    open spec fn view(&self) -> EntryView {
        EntryView {
            path: self.path@,
            old_path: opt_text(self.old_path),
            status: self.status,
            staged: self.staged,
            is_binary: self.is_binary,
            additions: self.additions,
            deletions: self.deletions,
        }
    }
}

/// Changed files as contracts speak of them.
pub open spec fn entry_views(entries: Seq<FileEntry>) -> Seq<EntryView> {
    entries.map_values(|e: FileEntry| e@)
}

/// The bit that stands for a status.
pub open spec fn flag_bit(flag: StatusFlag) -> u32 {
    match flag {
        StatusFlag::IndexNew => 0x1,
        StatusFlag::IndexModified => 0x2,
        StatusFlag::IndexDeleted => 0x4,
        StatusFlag::IndexRenamed => 0x8,
        StatusFlag::IndexTypechange => 0x10,
        StatusFlag::WtNew => 0x80,
        StatusFlag::WtModified => 0x100,
        StatusFlag::WtDeleted => 0x200,
        StatusFlag::WtTypechange => 0x400,
        StatusFlag::WtRenamed => 0x800,
        StatusFlag::Conflicted => 0x8000,
    }
}

/// Whether status bits hold a status.
pub open spec fn has_flag(bits: u32, flag: StatusFlag) -> bool {
    bits & flag_bit(flag) != 0
}

/// `git2::Status::contains`, on the status with these bits: whether the bit that libgit2 uses
/// for the status is set.
#[verifier::external_body]
pub(crate) fn status_contains(bits: u32, flag: StatusFlag) -> (r: bool)
    ensures
        r == has_flag(bits, flag),
{
    git2::Status::from_bits_truncate(bits).contains(match flag {
        StatusFlag::IndexNew => git2::Status::INDEX_NEW,
        StatusFlag::IndexModified => git2::Status::INDEX_MODIFIED,
        StatusFlag::IndexDeleted => git2::Status::INDEX_DELETED,
        StatusFlag::IndexRenamed => git2::Status::INDEX_RENAMED,
        StatusFlag::IndexTypechange => git2::Status::INDEX_TYPECHANGE,
        StatusFlag::WtNew => git2::Status::WT_NEW,
        StatusFlag::WtModified => git2::Status::WT_MODIFIED,
        StatusFlag::WtDeleted => git2::Status::WT_DELETED,
        StatusFlag::WtRenamed => git2::Status::WT_RENAMED,
        StatusFlag::WtTypechange => git2::Status::WT_TYPECHANGE,
        StatusFlag::Conflicted => git2::Status::CONFLICTED,
    })
}

/// The path of a status entry; empty where libgit2 gives none.
pub open spec fn raw_path(path: Option<String>) -> Seq<char> {
    match path {
        Some(p) => p@,
        None => ""@,
    }
}

/// The new and the old path of a rename, with the entry's own path in place of a new one that
/// is not given.
pub open spec fn rename_sides(rename: Option<RawRename>, fallback: Option<String>) -> (
    Seq<char>,
    Option<Seq<char>>,
) {
    match rename {
        Some(r) => (
            match r.new_path {
                Some(p) => p@,
                None => raw_path(fallback),
            },
            opt_text(r.old_path),
        ),
        None => (raw_path(fallback), None),
    }
}

/// What a status entry says of one side: path, old path and kind of change.
pub type Change = (Seq<char>, Option<Seq<char>>, FileStatus);

/// The staged change of a status entry.
pub open spec fn staged_change(e: RawStatus) -> Option<Change> {
    let plain = |status: FileStatus| Some((raw_path(e.path), None::<Seq<char>>, status));
    if has_flag(e.bits, StatusFlag::IndexRenamed) {
        let (path, old) = rename_sides(e.head_to_index, e.path);
        Some((path, old, FileStatus::Renamed))
    } else if has_flag(e.bits, StatusFlag::IndexNew) {
        plain(FileStatus::Added)
    } else if has_flag(e.bits, StatusFlag::IndexDeleted) {
        plain(FileStatus::Deleted)
    } else if has_flag(e.bits, StatusFlag::IndexTypechange) {
        plain(FileStatus::Typechange)
    } else if has_flag(e.bits, StatusFlag::IndexModified) {
        plain(FileStatus::Modified)
    } else {
        None
    }
}

/// The unstaged change of a status entry. Conflicts stand on this side: they are resolved in
/// the working tree.
pub open spec fn unstaged_change(e: RawStatus) -> Option<Change> {
    let plain = |status: FileStatus| Some((raw_path(e.path), None::<Seq<char>>, status));
    if has_flag(e.bits, StatusFlag::Conflicted) {
        plain(FileStatus::Conflicted)
    } else if has_flag(e.bits, StatusFlag::WtRenamed) {
        let (path, old) = rename_sides(e.index_to_workdir, e.path);
        Some((path, old, FileStatus::Renamed))
    } else if has_flag(e.bits, StatusFlag::WtNew) {
        plain(FileStatus::Untracked)
    } else if has_flag(e.bits, StatusFlag::WtDeleted) {
        plain(FileStatus::Deleted)
    } else if has_flag(e.bits, StatusFlag::WtTypechange) {
        plain(FileStatus::Typechange)
    } else if has_flag(e.bits, StatusFlag::WtModified) {
        plain(FileStatus::Modified)
    } else {
        None
    }
}

/// The change of a status entry on one side.
pub open spec fn change(e: RawStatus, staged: bool) -> Option<Change> {
    if staged {
        staged_change(e)
    } else {
        unstaged_change(e)
    }
}

/// The path under which the statistics of a delta are kept.
pub open spec fn stats_path(d: RawStats) -> Option<Seq<char>> {
    match d.new_path {
        Some(p) => Some(p@),
        None => opt_text(d.old_path),
    }
}

/// The statistics of a delta: a binary file has no line counts, and neither has one whose
/// counts could not be had.
pub open spec fn stats_of(d: RawStats) -> LineStats {
    if d.new_is_binary || d.old_is_binary {
        LineStats { additions: 0, deletions: 0, is_binary: true }
    } else {
        match d.line_stats {
            Some((a, b)) => LineStats { additions: a, deletions: b, is_binary: false },
            None => LineStats { additions: 0, deletions: 0, is_binary: false },
        }
    }
}

/// The statistics by path; of several deltas with one path the last counts.
pub open spec fn stats_by_path(ds: Seq<RawStats>) -> Map<Seq<char>, LineStats>
    decreases ds.len(),
{
    if ds.len() == 0 {
        Map::empty()
    } else {
        let before = stats_by_path(ds.drop_last());
        match stats_path(ds.last()) {
            Some(p) => before.insert(p, stats_of(ds.last())),
            None => before,
        }
    }
}

/// The entry for a change, with the statistics of its path.
pub open spec fn entry_for(
    c: Change,
    staged: bool,
    stats: Map<Seq<char>, LineStats>,
) -> EntryView {
    let s = if stats.contains_key(c.0) {
        stats[c.0]
    } else {
        LineStats { additions: 0, deletions: 0, is_binary: false }
    };
    EntryView {
        path: c.0,
        old_path: c.1,
        status: c.2,
        staged,
        is_binary: s.is_binary,
        additions: s.additions,
        deletions: s.deletions,
    }
}

/// The entries of one side, in the order of the status entries.
pub open spec fn side_entries(
    es: Seq<RawStatus>,
    staged: bool,
    stats: Map<Seq<char>, LineStats>,
) -> Seq<EntryView>
    decreases es.len(),
{
    if es.len() == 0 {
        Seq::empty()
    } else {
        let before = side_entries(es.drop_last(), staged, stats);
        match change(es.last(), staged) {
            Some(c) => before.push(entry_for(c, staged, stats)),
            None => before,
        }
    }
}

/// The order of entries: untracked files after all others, by path within each group.
pub open spec fn entry_lt(a: EntryView, b: EntryView) -> bool {
    let ua = a.status == FileStatus::Untracked;
    let ub = b.status == FileStatus::Untracked;
    if ua != ub {
        ub
    } else {
        text_lt(a.path, b.path)
    }
}

/// Entries in order with one more put in its place, behind its equals.
pub open spec fn placed(s: Seq<EntryView>, x: EntryView) -> Seq<EntryView>
    decreases s.len(),
{
    if s.len() == 0 || !entry_lt(x, s.last()) {
        s.push(x)
    } else {
        placed(s.drop_last(), x).push(s.last())
    }
}

/// Entries put in order; equals keep their order.
pub open spec fn in_order(s: Seq<EntryView>) -> Seq<EntryView>
    decreases s.len(),
{
    if s.len() == 0 {
        s
    } else {
        placed(in_order(s.drop_last()), s.last())
    }
}

/// The name shown for a repository: the last component of its working tree, or of the
/// repository directory where there is no working tree. A working tree without a name takes
/// that of the directory that holds the repository directory.
pub open spec fn name_shown(workdir: Option<String>, repo_dir: Seq<char>) -> Seq<char> {
    let found = match workdir {
        Some(w) => match file_name(w@) {
            Some(n) => Some(n),
            None => parent_name(repo_dir),
        },
        None => file_name(repo_dir),
    };
    match found {
        Some(n) => n,
        None => "repository"@,
    }
}

/// The branch label, and whether HEAD has commits: the short name of a branch, the first seven
/// digits of the commit of a detached HEAD, the name of a branch without commits.
pub open spec fn branch_shown(
    head: Result<HeadRef, git2::Error>,
    symbolic_target: Option<String>,
) -> (Seq<char>, bool) {
    match head {
        Ok(h) => if h.detached {
            (
                "(detached: "@ + (match h.target {
                    Some(t) => if t@.len() > 7 {
                        t@.take(7)
                    } else {
                        t@
                    },
                    None => "unknown"@,
                }) + ")"@,
                true,
            )
        } else {
            (
                match h.shorthand {
                    Some(n) => n@,
                    None => "HEAD"@,
                },
                true,
            )
        },
        Err(e) => if git2_code(e) == GitCode::UnbornBranch {
            (
                match symbolic_target {
                    Some(t) => if "refs/heads/"@.is_prefix_of(t@) {
                        t@.skip("refs/heads/"@.len() as int)
                    } else {
                        t@
                    },
                    None => "HEAD"@,
                },
                false,
            )
        } else {
            ("HEAD"@, false)
        },
    }
}

/// The path of a status entry; empty where libgit2 gives none.
fn entry_path(path: &Option<String>) -> (r: String)
    ensures
        r@ == raw_path(*path),
{
    match path {
        Some(p) => p.clone(),
        None => owned(""),
    }
}

/// The new and the old path of a rename.
fn rename_paths(rename: &Option<RawRename>, fallback: &Option<String>) -> (r: (
    String,
    Option<String>,
))
    ensures
        (r.0@, opt_text(r.1)) == rename_sides(*rename, *fallback),
{
    match rename {
        Some(d) => {
            let new_path = match &d.new_path {
                Some(p) => p.clone(),
                None => entry_path(fallback),
            };
            let old_path = match &d.old_path {
                Some(p) => Some(p.clone()),
                None => None,
            };
            (new_path, old_path)
        },
        None => (entry_path(fallback), None),
    }
}

/// A change as the contracts of this module speak of it.
pub open spec fn change_view(c: Option<(String, Option<String>, FileStatus)>) -> Option<Change> {
    match c {
        Some((path, old, status)) => Some((path@, opt_text(old), status)),
        None => None,
    }
}

/// The staged change of a status entry, if it has one.
pub fn staged_descriptor(e: &RawStatus) -> (r: Option<(String, Option<String>, FileStatus)>)
    ensures
        change_view(r) == staged_change(*e),
{
    if status_contains(e.bits, StatusFlag::IndexRenamed) {
        let (path, old) = rename_paths(&e.head_to_index, &e.path);
        return Some((path, old, FileStatus::Renamed));
    }
    let status = if status_contains(e.bits, StatusFlag::IndexNew) {
        FileStatus::Added
    } else if status_contains(e.bits, StatusFlag::IndexDeleted) {
        FileStatus::Deleted
    } else if status_contains(e.bits, StatusFlag::IndexTypechange) {
        FileStatus::Typechange
    } else if status_contains(e.bits, StatusFlag::IndexModified) {
        FileStatus::Modified
    } else {
        return None;
    };
    Some((entry_path(&e.path), None, status))
}

/// The unstaged change of a status entry, if it has one.
pub fn unstaged_descriptor(e: &RawStatus) -> (r: Option<(String, Option<String>, FileStatus)>)
    ensures
        change_view(r) == unstaged_change(*e),
{
    if status_contains(e.bits, StatusFlag::Conflicted) {
        return Some((entry_path(&e.path), None, FileStatus::Conflicted));
    }
    if status_contains(e.bits, StatusFlag::WtRenamed) {
        let (path, old) = rename_paths(&e.index_to_workdir, &e.path);
        return Some((path, old, FileStatus::Renamed));
    }
    let status = if status_contains(e.bits, StatusFlag::WtNew) {
        FileStatus::Untracked
    } else if status_contains(e.bits, StatusFlag::WtDeleted) {
        FileStatus::Deleted
    } else if status_contains(e.bits, StatusFlag::WtTypechange) {
        FileStatus::Typechange
    } else if status_contains(e.bits, StatusFlag::WtModified) {
        FileStatus::Modified
    } else {
        return None;
    };
    Some((entry_path(&e.path), None, status))
}

/// The statistics of the deltas of a diff, by path.
pub fn collect_stats(ds: &Vec<RawStats>) -> (r: StringHashMap<LineStats>)
    ensures
        r@ == stats_by_path(ds@),
{
    let mut map: StringHashMap<LineStats> = StringHashMap::new();
    let mut i: usize = 0;
    assert(ds@.take(0) =~= Seq::<RawStats>::empty());
    assert(map@ =~= stats_by_path(ds@.take(0)));
    while i < ds.len()
        invariant
            0 <= i <= ds@.len(),
            map@ == stats_by_path(ds@.take(i as int)),
        decreases ds@.len() - i,
    {
        let d = &ds[i];
        proof {
            assert(ds@.take(i + 1).drop_last() =~= ds@.take(i as int));
            assert(ds@.take(i + 1).last() == ds@[i as int]);
        }
        let path = match &d.new_path {
            Some(p) => Some(p.clone()),
            None => match &d.old_path {
                Some(p) => Some(p.clone()),
                None => None,
            },
        };
        let stats = if d.new_is_binary || d.old_is_binary {
            LineStats { additions: 0, deletions: 0, is_binary: true }
        } else {
            match d.line_stats {
                Some((a, b)) => LineStats { additions: a, deletions: b, is_binary: false },
                None => LineStats { additions: 0, deletions: 0, is_binary: false },
            }
        };
        if let Some(p) = path {
            map.insert(p, stats);
        }
        i += 1;
    }
    assert(ds@.take(ds@.len() as int) =~= ds@);
    map
}

/// The entry for a change, with the statistics of its path.
fn make_entry(
    c: (String, Option<String>, FileStatus),
    staged: bool,
    stats: &StringHashMap<LineStats>,
) -> (r: FileEntry)
    ensures
        r@ == entry_for((c.0@, opt_text(c.1), c.2), staged, stats@),
{
    let (path, old_path, status) = c;
    let s = match stats.get(path.as_str()) {
        Some(s) => *s,
        None => LineStats { additions: 0, deletions: 0, is_binary: false },
    };
    FileEntry {
        path,
        old_path,
        status,
        staged,
        is_binary: s.is_binary,
        additions: s.additions,
        deletions: s.deletions,
    }
}

/// Whether `a` stands before `b` in a list of changed files.
fn entry_before(a: &FileEntry, b: &FileEntry) -> (r: bool)
    ensures
        r == entry_lt(a@, b@),
{
    let ua = a.status == FileStatus::Untracked;
    let ub = b.status == FileStatus::Untracked;
    if ua != ub {
        ub
    } else {
        text_before(a.path.as_str(), b.path.as_str())
    }
}

/// Putting an entry before the last one puts it into what precedes the last one.
proof fn lemma_placed_at(s: Seq<EntryView>, x: EntryView, k: int)
    requires
        0 <= k <= s.len(),
        forall|j: int| k <= j < s.len() ==> entry_lt(x, #[trigger] s[j]),
        k > 0 ==> !entry_lt(x, s[k - 1]),
    ensures
        placed(s, x) == s.insert(k, x),
    decreases s.len(),
{
    if k == s.len() {
        assert(s.insert(k, x) =~= s.push(x));
    } else {
        let t = s.drop_last();
        assert forall|j: int| k <= j < t.len() implies entry_lt(x, #[trigger] t[j]) by {
            assert(t[j] == s[j]);
        }
        lemma_placed_at(t, x, k);
        assert(entry_lt(x, s[s.len() - 1]));
        assert(s.insert(k, x) =~= t.insert(k, x).push(s.last()));
    }
}

/// Puts `e` in its place among entries in order, behind its equals.
fn place_entry(entries: &mut Vec<FileEntry>, e: FileEntry)
    ensures
        entry_views(final(entries)@) == placed(entry_views(old(entries)@), e@),
{
    let mut k: usize = entries.len();
    let ghost views = entry_views(entries@);
    while k > 0 && entry_before(&e, &entries[k - 1])
        invariant
            0 <= k <= entries@.len(),
            views == entry_views(entries@),
            forall|j: int| k <= j < views.len() ==> entry_lt(e@, #[trigger] views[j]),
        decreases k,
    {
        assert(views[k - 1] == entries@[k - 1]@);
        k -= 1;
    }
    proof {
        if k > 0 {
            assert(views[k - 1] == entries@[k - 1]@);
        }
        lemma_placed_at(views, e@, k as int);
    }
    let ghost ev = e@;
    entries.insert(k, e);
    assert(entry_views(entries@) =~= views.insert(k as int, ev));
}

/// The entries of one side, in order.
fn collect_side(es: &Vec<RawStatus>, staged: bool, stats: &StringHashMap<LineStats>) -> (r: Vec<
    FileEntry,
>)
    ensures
        entry_views(r@) == in_order(side_entries(es@, staged, stats@)),
{
    let mut out: Vec<FileEntry> = Vec::new();
    let mut i: usize = 0;
    assert(es@.take(0) =~= Seq::<RawStatus>::empty());
    assert(entry_views(out@) =~= in_order(side_entries(es@.take(0), staged, stats@)));
    while i < es.len()
        invariant
            0 <= i <= es@.len(),
            entry_views(out@) == in_order(side_entries(es@.take(i as int), staged, stats@)),
        decreases es@.len() - i,
    {
        let ghost before = side_entries(es@.take(i as int), staged, stats@);
        proof {
            assert(es@.take(i + 1).drop_last() =~= es@.take(i as int));
            assert(es@.take(i + 1).last() == es@[i as int]);
        }
        let c = if staged {
            staged_descriptor(&es[i])
        } else {
            unstaged_descriptor(&es[i])
        };
        if let Some(c) = c {
            let e = make_entry(c, staged, stats);
            assert(before.push(e@).drop_last() =~= before);
            place_entry(&mut out, e);
        }
        i += 1;
    }
    assert(es@.take(es@.len() as int) =~= es@);
    out
}

/// The name shown for a repository.
pub fn repo_name(workdir: &Option<String>, repo_dir: &str) -> (r: String)
    ensures
        r@ == name_shown(*workdir, repo_dir@),
{
    let found = match workdir {
        Some(w) => match file_name_of(w.as_str()) {
            Some(n) => Some(n),
            None => parent_name_of(repo_dir),
        },
        None => file_name_of(repo_dir),
    };
    match found {
        Some(n) => n,
        None => owned("repository"),
    }
}

/// The path shown for a repository.
pub fn repo_path_string(workdir: &Option<String>, repo_dir: &str) -> (r: String)
    ensures
        r@ == (match *workdir {
            Some(w) => w@,
            None => repo_dir@,
        }),
{
    match workdir {
        Some(w) => w.clone(),
        None => owned(repo_dir),
    }
}

/// The branch label of a repository, and whether HEAD has commits.
pub fn branch_info(head: &Result<HeadRef, git2::Error>, symbolic_target: &Option<String>) -> (r: (
    String,
    bool,
))
    ensures
        (r.0@, r.1) == branch_shown(*head, *symbolic_target),
{
    match head {
        Ok(h) => {
            if h.detached {
                let short = match &h.target {
                    Some(t) => {
                        let cs = chars_of(t.as_str());
                        let n: usize = if cs.len() > 7 {
                            7
                        } else {
                            cs.len()
                        };
                        assert(t@.take(n as int) =~= cs@.subrange(0, n as int));
                        assert(t@.take(t@.len() as int) =~= t@);
                        text_range(&cs, 0, n)
                    },
                    None => owned("unknown"),
                };
                (join3("(detached: ", short.as_str(), ")"), true)
            } else {
                match &h.shorthand {
                    Some(n) => (n.clone(), true),
                    None => (owned("HEAD"), true),
                }
            }
        },
        Err(e) => {
            if code_of(e) == GitCode::UnbornBranch {
                match symbolic_target {
                    Some(t) => {
                        if starts_with(t.as_str(), "refs/heads/") {
                            let cs = chars_of(t.as_str());
                            proof {
                                reveal_strlit("refs/heads/");
                                assert(t@.skip(11) =~= cs@.subrange(11, cs@.len() as int));
                            }
                            (text_range(&cs, 11, cs.len()), false)
                        } else {
                            (t.clone(), false)
                        }
                    },
                    None => (owned("HEAD"), false),
                }
            } else {
                (owned("HEAD"), false)
            }
        },
    }
}

/// The number of context lines that libgit2 gives a diff where none is asked for.
pub const DEFAULT_CONTEXT_LINES: u32 = 3;

/// The diff that the line counts of one side come from: of all paths, with the untracked files on
/// the unstaged side, without a search for renames, and within the size limit.
pub open spec fn counted_diff(staged: bool) -> RequestView {
    RequestView {
        staged,
        context_lines: DEFAULT_CONTEXT_LINES,
        path: None,
        untracked: !staged,
        find_renames: false,
        find_copies: false,
        max_size: MAX_DIFF_BYTES,
    }
}

/// The diff that is run for the line counts of one side.
pub fn stats_request(staged: bool) -> (r: DiffRequest)
    ensures
        r@ == counted_diff(staged),
{
    DiffRequest {
        staged,
        context_lines: DEFAULT_CONTEXT_LINES,
        path: None,
        untracked: !staged,
        find_renames: false,
        find_copies: false,
        max_size: MAX_DIFF_BYTES,
    }
}

/// The status of a repository: the staged and the unstaged changes, each with its line counts
/// and in order, and what HEAD refers to.
pub fn build_status(facts: &RepoFacts) -> (r: RepoStatus)
    ensures
        r.repo_name@ == name_shown(facts.workdir, facts.repo_dir@),
        r.repo_path@ == (match facts.workdir {
            Some(w) => w@,
            None => facts.repo_dir@,
        }),
        (r.branch@, r.head_has_commits) == branch_shown(facts.head, facts.head_symbolic_target),
        entry_views(r.staged@) == in_order(
            side_entries(facts.statuses@, true, stats_by_path(facts.staged_stats@)),
        ),
        entry_views(r.unstaged@) == in_order(
            side_entries(facts.statuses@, false, stats_by_path(facts.unstaged_stats@)),
        ),
{
    let name = repo_name(&facts.workdir, facts.repo_dir.as_str());
    let path = repo_path_string(&facts.workdir, facts.repo_dir.as_str());
    let (branch, head_has_commits) = branch_info(&facts.head, &facts.head_symbolic_target);
    let staged_stats = collect_stats(&facts.staged_stats);
    let unstaged_stats = collect_stats(&facts.unstaged_stats);
    RepoStatus {
        repo_name: name,
        repo_path: path,
        branch,
        unstaged: collect_side(&facts.statuses, false, &unstaged_stats),
        staged: collect_side(&facts.statuses, true, &staged_stats),
        head_has_commits,
    }
}

/// Entries stand in order: none before another that belongs before it.
pub open spec fn ordered(s: Seq<EntryView>) -> bool {
    forall|i: int, j: int| 0 <= i < j < s.len() ==> !entry_lt(#[trigger] s[j], #[trigger] s[i])
}

/// The order of entries is a strict order that compares any two.
proof fn lemma_entry_order(a: EntryView, b: EntryView, c: EntryView)
    ensures
        !entry_lt(a, a),
        entry_lt(a, b) && entry_lt(b, c) ==> entry_lt(a, c),
        entry_lt(a, b) ==> !entry_lt(b, a),
        !entry_lt(b, a) && !entry_lt(c, b) ==> !entry_lt(c, a),
{
    lemma_text_lt_irreflexive(a.path);
    lemma_text_lt_total(a.path, b.path);
    lemma_text_lt_total(b.path, c.path);
    if text_lt(a.path, b.path) && text_lt(b.path, c.path) {
        lemma_text_lt_transitive(a.path, b.path, c.path);
    }
    if text_lt(a.path, b.path) && text_lt(b.path, a.path) {
        lemma_text_lt_transitive(a.path, b.path, a.path);
    }
    if text_lt(c.path, a.path) && text_lt(a.path, b.path) {
        lemma_text_lt_transitive(c.path, a.path, b.path);
    }
    if text_lt(b.path, c.path) && text_lt(c.path, a.path) {
        lemma_text_lt_transitive(b.path, c.path, a.path);
    }
}

/// Putting an entry in its place keeps the order and the entries.
proof fn lemma_placed(s: Seq<EntryView>, x: EntryView)
    requires
        ordered(s),
    ensures
        ordered(placed(s, x)),
        placed(s, x).to_multiset() == s.to_multiset().insert(x),
        placed(s, x).len() == s.len() + 1,
        forall|i: int| 0 <= i < placed(s, x).len() ==> (#[trigger] placed(s, x)[i] == x || s.contains(
            placed(s, x)[i],
        )),
    decreases s.len(),
{
    broadcast use vstd::seq_lib::group_to_multiset_ensures;

    let r = placed(s, x);
    if s.len() == 0 || !entry_lt(x, s.last()) {
        assert forall|i: int, j: int| 0 <= i < j < r.len() implies !entry_lt(
            #[trigger] r[j],
            #[trigger] r[i],
        ) by {
            if j == s.len() {
                lemma_entry_order(r[i], s.last(), x);
                if i < s.len() - 1 {
                    assert(!entry_lt(s[s.len() - 1], s[i]));
                }
            } else {
                assert(!entry_lt(s[j], s[i]));
            }
        }
        assert forall|i: int| 0 <= i < r.len() implies (#[trigger] r[i] == x || s.contains(r[i])) by {
            if i < s.len() {
                assert(s[i] == r[i]);
            }
        }
    } else {
        let t = s.drop_last();
        assert(ordered(t)) by {
            assert forall|i: int, j: int| 0 <= i < j < t.len() implies !entry_lt(
                #[trigger] t[j],
                #[trigger] t[i],
            ) by {
                assert(t[j] == s[j] && t[i] == s[i]);
            }
        }
        lemma_placed(t, x);
        let p = placed(t, x);
        assert(s =~= t.push(s.last()));
        assert(r =~= p.push(s.last()));
        assert forall|i: int| 0 <= i < r.len() implies (#[trigger] r[i] == x || s.contains(r[i])) by {
            if i < p.len() {
                assert(p[i] == r[i]);
                if p[i] != x {
                    let k = choose|k: int| 0 <= k < t.len() && t[k] == p[i];
                    assert(s[k] == r[i]);
                }
            } else {
                assert(s[s.len() - 1] == r[i]);
            }
        }
        assert forall|i: int, j: int| 0 <= i < j < r.len() implies !entry_lt(
            #[trigger] r[j],
            #[trigger] r[i],
        ) by {
            if j == p.len() {
                assert(p[i] == r[i]);
                if p[i] == x {
                    lemma_entry_order(x, s.last(), x);
                } else {
                    let k = choose|k: int| 0 <= k < t.len() && t[k] == p[i];
                    assert(s[k] == p[i]);
                    assert(!entry_lt(s[s.len() - 1], s[k]));
                }
            } else {
                assert(!entry_lt(p[j], p[i]));
            }
        }
        assert(r.to_multiset() =~= s.to_multiset().insert(x));
    }
}

/// The lists of changed files are in order, and hold exactly the entries that were collected:
/// files that are tracked come first, untracked ones after them, each group by path.
pub proof fn law_lists_are_in_order(s: Seq<EntryView>)
    ensures
        ordered(in_order(s)),
        in_order(s).to_multiset() == s.to_multiset(),
        in_order(s).len() == s.len(),
    decreases s.len(),
{
    broadcast use vstd::seq_lib::group_to_multiset_ensures;

    if s.len() > 0 {
        law_lists_are_in_order(s.drop_last());
        lemma_placed(in_order(s.drop_last()), s.last());
        assert(s =~= s.drop_last().push(s.last()));
    }
}

/// In an ordered list no tracked file stands behind an untracked one, and two files of one
/// group stand by path.
pub proof fn law_untracked_stand_last(s: Seq<EntryView>, i: int, j: int)
    requires
        0 <= i < j < s.len(),
        ordered(s),
    ensures
        s[i].status == FileStatus::Untracked ==> s[j].status == FileStatus::Untracked,
        (s[i].status == FileStatus::Untracked) == (s[j].status == FileStatus::Untracked)
            ==> s[i].path == s[j].path || text_lt(s[i].path, s[j].path),
{
    assert(!entry_lt(s[j], s[i]));
    lemma_text_lt_total(s[i].path, s[j].path);
}

/// No lines are counted for a path whose statistics say that it is binary.
proof fn lemma_binary_has_no_counts(ds: Seq<RawStats>, path: Seq<char>)
    requires
        stats_by_path(ds).contains_key(path),
        stats_by_path(ds)[path].is_binary,
    ensures
        stats_by_path(ds)[path].additions == 0,
        stats_by_path(ds)[path].deletions == 0,
    decreases ds.len(),
{
    if ds.len() > 0 && stats_path(ds.last()) != Some(path) {
        lemma_binary_has_no_counts(ds.drop_last(), path);
    }
}

/// Every entry of a side carries that side. Nothing staged is untracked or in conflict, nothing
/// unstaged is added, and a binary file has no line counts.
pub proof fn law_sides_are_kept_apart(es: Seq<RawStatus>, staged: bool, ds: Seq<RawStats>)
    ensures
        forall|i: int|
            0 <= i < side_entries(es, staged, stats_by_path(ds)).len() ==> {
                let e = #[trigger] side_entries(es, staged, stats_by_path(ds))[i];
                &&& e.staged == staged
                &&& staged ==> e.status != FileStatus::Untracked && e.status
                    != FileStatus::Conflicted
                &&& !staged ==> e.status != FileStatus::Added
                &&& e.is_binary ==> e.additions == 0 && e.deletions == 0
            },
    decreases es.len(),
{
    if es.len() > 0 {
        law_sides_are_kept_apart(es.drop_last(), staged, ds);
        let stats = stats_by_path(ds);
        if let Some(c) = change(es.last(), staged) {
            if stats.contains_key(c.0) && stats[c.0].is_binary {
                lemma_binary_has_no_counts(ds, c.0);
            }
        }
    }
}

/// The repository that was discovered at or above `path`, or the refusal of a path that is in
/// none.
pub fn open_repository<R>(path: &str, discovered: Result<R, git2::Error>) -> (r: AppResult<R>)
    ensures
        match discovered {
            Ok(repo) => r == Ok::<R, AppError>(repo),
            Err(e) => r matches Err(refused) && refused@ == (
                ErrorKind::Validation,
                "Not a git repository: "@ + path@ + " ("@ + git2_message(e) + ")"@,
            ),
        },
{
    match discovered {
        Ok(repo) => Ok(repo),
        Err(e) => {
            let head = join3("Not a git repository: ", path, " (");
            let m = join3(head.as_str(), e.message(), ")");
            Err(AppError::validation(m.as_str()))
        },
    }
}

/// The directory that a command line argument leads to, given what resolving it gave: the
/// canonical path and whether it is a directory, or the text of the failure.
pub fn resolve_cli_repo_path(arg: &str, resolved: Result<(String, bool), String>) -> (r: AppResult<
    String,
>)
    ensures
        match resolved {
            Ok((path, true)) => r matches Ok(p) && p@ == path@,
            Ok((path, false)) => r matches Err(e) && e@ == (
                ErrorKind::Validation,
                "Not a directory: "@ + path@,
            ),
            Err(text) => r matches Err(e) && e@ == (
                ErrorKind::Validation,
                "Cannot resolve path '"@ + arg@ + "': "@ + text@,
            ),
        },
{
    match resolved {
        Ok((path, is_dir)) => {
            if is_dir {
                Ok(path)
            } else {
                let m = join2("Not a directory: ", path.as_str());
                Err(AppError::validation(m.as_str()))
            }
        },
        Err(text) => {
            let head = join3("Cannot resolve path '", arg, "': ");
            let m = join2(head.as_str(), text.as_str());
            Err(AppError::validation(m.as_str()))
        },
    }
}

/// The path that libgit2 gives an entry, empty where it gives none.
pub open spec fn given_path(e: RawStatus) -> Seq<char> {
    match e.path {
        Some(p) => p@,
        None => ""@,
    }
}

/// One status more makes at most one unstaged entry more, behind the others, and its bits say
/// which: a conflict is shown as one whatever else is set, then a rename with both its paths, then
/// a file that is new, deleted, of another type or modified. Where no bit speaks of the working
/// tree there is none.
pub proof fn law_unstaged_entry_follows_from_the_bits(
    es: Seq<RawStatus>,
    e: RawStatus,
    stats: Map<Seq<char>, LineStats>,
)
    ensures
        ({
            let before = side_entries(es, false, stats);
            let after = side_entries(es.push(e), false, stats);
            let plain = |status: FileStatus|
                after.len() == before.len() + 1 && after.drop_last() == before && after.last().path
                    == given_path(e) && after.last().old_path is None && after.last().status
                    == status && !after.last().staged;
            let b = e.bits;
            if b & 0x8000 != 0 {
                plain(FileStatus::Conflicted)
            } else if b & 0x800 != 0 {
                &&& after.len() == before.len() + 1
                &&& after.drop_last() == before
                &&& after.last().status == FileStatus::Renamed
                &&& !after.last().staged
                &&& match e.index_to_workdir {
                    Some(m) => after.last().old_path == opt_text(m.old_path) && after.last().path
                        == match m.new_path {
                        Some(p) => p@,
                        None => given_path(e),
                    },
                    None => after.last().old_path is None && after.last().path == given_path(e),
                }
            } else if b & 0x80 != 0 {
                plain(FileStatus::Untracked)
            } else if b & 0x200 != 0 {
                plain(FileStatus::Deleted)
            } else if b & 0x400 != 0 {
                plain(FileStatus::Typechange)
            } else if b & 0x100 != 0 {
                plain(FileStatus::Modified)
            } else {
                after == before
            }
        }),
{
    assert(es.push(e).drop_last() =~= es);
    let before = side_entries(es, false, stats);
    if let Some(c) = change(e, false) {
        assert(before.push(entry_for(c, false, stats)).drop_last() =~= before);
    }
}

/// One status more makes at most one staged entry more, behind the others, and its bits say which:
/// a rename with both its paths, then a file that is added, deleted, of another type or modified.
/// Where no bit speaks of the index there is none.
pub proof fn law_staged_entry_follows_from_the_bits(
    es: Seq<RawStatus>,
    e: RawStatus,
    stats: Map<Seq<char>, LineStats>,
)
    ensures
        ({
            let before = side_entries(es, true, stats);
            let after = side_entries(es.push(e), true, stats);
            let plain = |status: FileStatus|
                after.len() == before.len() + 1 && after.drop_last() == before && after.last().path
                    == given_path(e) && after.last().old_path is None && after.last().status
                    == status && after.last().staged;
            let b = e.bits;
            if b & 0x8 != 0 {
                &&& after.len() == before.len() + 1
                &&& after.drop_last() == before
                &&& after.last().status == FileStatus::Renamed
                &&& after.last().staged
                &&& match e.head_to_index {
                    Some(m) => after.last().old_path == opt_text(m.old_path) && after.last().path
                        == match m.new_path {
                        Some(p) => p@,
                        None => given_path(e),
                    },
                    None => after.last().old_path is None && after.last().path == given_path(e),
                }
            } else if b & 0x1 != 0 {
                plain(FileStatus::Added)
            } else if b & 0x4 != 0 {
                plain(FileStatus::Deleted)
            } else if b & 0x10 != 0 {
                plain(FileStatus::Typechange)
            } else if b & 0x2 != 0 {
                plain(FileStatus::Modified)
            } else {
                after == before
            }
        }),
{
    assert(es.push(e).drop_last() =~= es);
    let before = side_entries(es, true, stats);
    if let Some(c) = change(e, true) {
        assert(before.push(entry_for(c, true, stats)).drop_last() =~= before);
    }
}

/// Without statuses nothing is listed.
pub proof fn law_clean_repository_lists_nothing(staged: bool, stats: Map<Seq<char>, LineStats>)
    ensures
        in_order(side_entries(Seq::<RawStatus>::empty(), staged, stats)).len() == 0,
{
}

/// Every status that the bits make an entry of is found in the ordered list of its side, with its
/// path and kind: nothing that changed is left out.
pub proof fn law_every_change_is_listed(
    es: Seq<RawStatus>,
    staged: bool,
    stats: Map<Seq<char>, LineStats>,
    i: int,
)
    requires
        0 <= i < es.len(),
        staged ==> es[i].bits & 0x1f != 0,
        !staged ==> es[i].bits & 0x8f80 != 0,
    ensures
        exists|k: int|
            0 <= k < in_order(side_entries(es, staged, stats)).len() && change(es[i], staged)
                == Some(
                (
                    (#[trigger] in_order(side_entries(es, staged, stats))[k]).path,
                    in_order(side_entries(es, staged, stats))[k].old_path,
                    in_order(side_entries(es, staged, stats))[k].status,
                ),
            ),
{
    let b = es[i].bits;
    assert(b & 0x1f != 0 ==> b & 0x1 != 0 || b & 0x2 != 0 || b & 0x4 != 0 || b & 0x8 != 0 || b
        & 0x10 != 0) by (bit_vector);
    assert(b & 0x8f80 != 0 ==> b & 0x80 != 0 || b & 0x100 != 0 || b & 0x200 != 0 || b & 0x400 != 0
        || b & 0x800 != 0 || b & 0x8000 != 0) by (bit_vector);
    let c = change(es[i], staged)->0;
    let x = entry_for(c, staged, stats);
    lemma_listed(es, staged, stats, i);
    let s = side_entries(es, staged, stats);
    law_lists_are_in_order(s);
    s.to_multiset_ensures();
    in_order(s).to_multiset_ensures();
    assert(s.to_multiset().count(x) > 0);
    assert(in_order(s).contains(x));
    let k = choose|k: int| 0 <= k < in_order(s).len() && in_order(s)[k] == x;
    assert(in_order(s)[k].path == c.0);
}

/// A change is among the entries of its side.
proof fn lemma_listed(
    es: Seq<RawStatus>,
    staged: bool,
    stats: Map<Seq<char>, LineStats>,
    i: int,
)
    requires
        0 <= i < es.len(),
        change(es[i], staged) is Some,
    ensures
        side_entries(es, staged, stats).contains(
            entry_for(change(es[i], staged)->0, staged, stats),
        ),
    decreases es.len(),
{
    let x = entry_for(change(es[i], staged)->0, staged, stats);
    let all = side_entries(es, staged, stats);
    if i == es.len() - 1 {
        assert(all[all.len() - 1] == x);
    } else {
        let t = es.drop_last();
        lemma_listed(t, staged, stats, i);
        let before = side_entries(t, staged, stats);
        let k = choose|k: int| 0 <= k < before.len() && before[k] == x;
        assert(all[k] == x);
    }
}

/// The line counts of an entry are those that the diff of its side reports for its path: of the
/// last delta with that path, none where it is binary, and none where no delta has the path.
pub proof fn law_counts_are_those_of_the_path(
    es: Seq<RawStatus>,
    e: RawStatus,
    staged: bool,
    ds: Seq<RawStats>,
    d: RawStats,
)
    requires
        change(e, staged) is Some,
    ensures
        ({
            let x = side_entries(es.push(e), staged, stats_by_path(ds.push(d))).last();
            let earlier = side_entries(es.push(e), staged, stats_by_path(ds)).last();
            let none = side_entries(es.push(e), staged, stats_by_path(Seq::empty())).last();
            let here = match d.new_path {
                Some(p) => p@ == x.path,
                None => d.old_path matches Some(p) && p@ == x.path,
            };
            &&& here && (d.new_is_binary || d.old_is_binary) ==> x.is_binary && x.additions == 0
                && x.deletions == 0
            &&& here && !d.new_is_binary && !d.old_is_binary ==> !x.is_binary && match d.line_stats {
                Some((added, deleted)) => x.additions == added && x.deletions == deleted,
                None => x.additions == 0 && x.deletions == 0,
            }
            &&& !here ==> x == earlier
            &&& none.additions == 0 && none.deletions == 0 && !none.is_binary
        }),
{
    assert(es.push(e).drop_last() =~= es);
    assert(ds.push(d).drop_last() =~= ds);
}

/// The branch that is shown: the name of the branch, or the first seven digits of the commit that
/// a detached HEAD refers to. A branch without commits is shown by its own name. There are commits
/// if and only if HEAD could be read.
pub proof fn law_branch_is_what_head_says(
    head: &Result<HeadRef, git2::Error>,
    symbolic_target: &Option<String>,
    r: (String, bool),
)
    requires
        call_ensures(branch_info, (head, symbolic_target), r),
    ensures
        r.1 <==> *head is Ok,
        match *head {
            Ok(h) => {
                &&& !h.detached ==> r.0@ == match h.shorthand {
                    Some(n) => n@,
                    None => "HEAD"@,
                }
                &&& h.detached ==> match h.target {
                    Some(t) => t@.len() >= 7 ==> r.0@ == "(detached: "@ + t@.take(7) + ")"@,
                    None => r.0@ == "(detached: "@ + "unknown"@ + ")"@,
                }
            },
            Err(e) => {
                &&& git2_code(e) != GitCode::UnbornBranch ==> r.0@ == "HEAD"@
                &&& git2_code(e) == GitCode::UnbornBranch ==> match *symbolic_target {
                    Some(t) => t@ == "refs/heads/"@ + r.0@ || (t@ == r.0@
                        && !"refs/heads/"@.is_prefix_of(t@)),
                    None => r.0@ == "HEAD"@,
                }
            },
        },
{
    if let Ok(h) = *head {
        if let Some(t) = h.target {
            if t@.len() == 7 {
                assert(t@.take(7) =~= t@);
            }
        }
    }
    if let Some(t) = *symbolic_target {
        let p = "refs/heads/"@;
        if p.is_prefix_of(t@) {
            assert(t@ =~= p + t@.skip(p.len() as int));
        }
    }
}

/// The name and the path of a repository: those of its working tree, and of its own directory
/// where it has none.
pub proof fn law_repository_is_named_by_its_directory(
    workdir: &Option<String>,
    repo_dir: &str,
    name: String,
    path: String,
)
    requires
        call_ensures(repo_name, (workdir, repo_dir), name),
        call_ensures(repo_path_string, (workdir, repo_dir), path),
    ensures
        match *workdir {
            Some(w) => path@ == w@ && (file_name(w@) matches Some(n) ==> name@ == n),
            None => path@ == repo_dir@ && match file_name(repo_dir@) {
                Some(n) => name@ == n,
                None => name@ == "repository"@,
            },
        },
{
}

/// What the lists of a status are made of: the staged one of the staged side with the counts of
/// the staged diff, the unstaged one of the other side with its own counts.
pub proof fn law_status_keeps_the_sides_apart(facts: &RepoFacts, r: RepoStatus, k: int)
    requires
        call_ensures(build_status, (facts,), r),
    ensures
        0 <= k < r.staged@.len() ==> r.staged@[k].staged,
        0 <= k < r.unstaged@.len() ==> !r.unstaged@[k].staged,
        r.staged@.len() == side_entries(
            facts.statuses@,
            true,
            stats_by_path(facts.staged_stats@),
        ).len(),
        r.unstaged@.len() == side_entries(
            facts.statuses@,
            false,
            stats_by_path(facts.unstaged_stats@),
        ).len(),
{
    let (a, b) = (
        side_entries(facts.statuses@, true, stats_by_path(facts.staged_stats@)),
        side_entries(facts.statuses@, false, stats_by_path(facts.unstaged_stats@)),
    );
    law_lists_are_in_order(a);
    law_lists_are_in_order(b);
    law_sides_are_kept_apart(facts.statuses@, true, facts.staged_stats@);
    law_sides_are_kept_apart(facts.statuses@, false, facts.unstaged_stats@);
    a.to_multiset_ensures();
    b.to_multiset_ensures();
    in_order(a).to_multiset_ensures();
    in_order(b).to_multiset_ensures();
    assert(entry_views(r.staged@).len() == r.staged@.len());
    assert(entry_views(r.unstaged@).len() == r.unstaged@.len());
    if 0 <= k < r.staged@.len() {
        let x = entry_views(r.staged@)[k];
        assert(in_order(a).contains(x));
        assert(a.to_multiset().count(x) > 0);
        assert(a.contains(x));
        assert(x.staged == r.staged@[k].staged);
    }
    if 0 <= k < r.unstaged@.len() {
        let x = entry_views(r.unstaged@)[k];
        assert(in_order(b).contains(x));
        assert(b.to_multiset().count(x) > 0);
        assert(b.contains(x));
        assert(x.staged == r.unstaged@[k].staged);
    }
}

/// The diffs that the line counts come from look at a whole side, with the untracked files of the
/// working tree, without pairing renames, and within the size limit.
pub proof fn law_counts_come_from_a_whole_side(staged: bool, r: DiffRequest)
    requires
        call_ensures(stats_request, (staged,), r),
    ensures
        r.staged == staged,
        r.path is None,
        r.untracked == !staged,
        !r.find_renames,
        !r.find_copies,
        r.max_size == 8 * 1024 * 1024,
{
    assert(r@ == counted_diff(staged));
}

/// Where an entry stands among those that came before it: behind every one that it does not come
/// before, so that entries of equal rank keep their order.
pub proof fn law_equal_entries_keep_their_order(s: Seq<EntryView>, x: EntryView) -> (k: int)
    ensures
        0 <= k <= s.len(),
        in_order(s.push(x)) == in_order(s).insert(k, x),
        forall|j: int| 0 <= j < k ==> !entry_lt(x, #[trigger] in_order(s)[j]),
        forall|j: int| k <= j < s.len() ==> entry_lt(x, #[trigger] in_order(s)[j]),
{
    law_lists_are_in_order(s);
    assert(s.push(x).drop_last() =~= s);
    lemma_place_of(in_order(s), x)
}

/// The place of an entry in an ordered list.
proof fn lemma_place_of(s: Seq<EntryView>, x: EntryView) -> (k: int)
    requires
        ordered(s),
    ensures
        0 <= k <= s.len(),
        placed(s, x) == s.insert(k, x),
        forall|j: int| 0 <= j < k ==> !entry_lt(x, #[trigger] s[j]),
        forall|j: int| k <= j < s.len() ==> entry_lt(x, #[trigger] s[j]),
    decreases s.len(),
{
    if s.len() == 0 || !entry_lt(x, s.last()) {
        assert(s.insert(s.len() as int, x) =~= s.push(x));
        assert forall|j: int| 0 <= j < s.len() implies !entry_lt(x, #[trigger] s[j]) by {
            if j < s.len() - 1 {
                assert(!entry_lt(s[s.len() - 1], s[j]));
                lemma_entry_order(s[j], s[s.len() - 1], x);
            }
        }
        s.len() as int
    } else {
        let t = s.drop_last();
        assert(ordered(t)) by {
            assert forall|i: int, j: int| 0 <= i < j < t.len() implies !entry_lt(
                #[trigger] t[j],
                #[trigger] t[i],
            ) by {
                assert(t[i] == s[i] && t[j] == s[j]);
            }
        }
        let k = lemma_place_of(t, x);
        assert(s.insert(k, x) =~= t.insert(k, x).push(s.last()));
        assert forall|j: int| 0 <= j < k implies !entry_lt(x, #[trigger] s[j]) by {
            assert(t[j] == s[j]);
        }
        assert forall|j: int| k <= j < s.len() implies entry_lt(x, #[trigger] s[j]) by {
            if j < t.len() {
                assert(t[j] == s[j]);
            }
        }
        k
    }
}

/// What comes before what: everything that is tracked before everything that is not, and within
/// each of the two by path.
pub proof fn law_entries_are_ranked_by_path(a: EntryView, b: EntryView)
    ensures
        !(a.status is Untracked) && b.status is Untracked ==> entry_lt(a, b) && !entry_lt(b, a),
        (a.status is Untracked) == (b.status is Untracked) ==> entry_lt(a, b) == text_lt(
            a.path,
            b.path,
        ),
{
    lemma_entry_order(a, b, a);
}

/// A status lists what is found, no more and no less: each side holds the entries of that side
/// with the counts of that side, in order.
pub proof fn law_status_lists_what_is_found(
    facts: &RepoFacts,
    r: RepoStatus,
    name: String,
    path: String,
    branch: (String, bool),
    repo_dir: &str,
)
    requires
        call_ensures(build_status, (facts,), r),
        repo_dir@ == facts.repo_dir@,
        call_ensures(repo_name, (&facts.workdir, repo_dir), name),
        call_ensures(repo_path_string, (&facts.workdir, repo_dir), path),
        call_ensures(branch_info, (&facts.head, &facts.head_symbolic_target), branch),
    ensures
        r.repo_name@ == name@,
        r.repo_path@ == path@,
        r.branch@ == branch.0@,
        r.head_has_commits == branch.1,
        ordered(entry_views(r.staged@)),
        ordered(entry_views(r.unstaged@)),
        entry_views(r.staged@).to_multiset() == side_entries(
            facts.statuses@,
            true,
            stats_by_path(facts.staged_stats@),
        ).to_multiset(),
        entry_views(r.unstaged@).to_multiset() == side_entries(
            facts.statuses@,
            false,
            stats_by_path(facts.unstaged_stats@),
        ).to_multiset(),
{
    law_lists_are_in_order(
        side_entries(facts.statuses@, true, stats_by_path(facts.staged_stats@)),
    );
    law_lists_are_in_order(
        side_entries(facts.statuses@, false, stats_by_path(facts.unstaged_stats@)),
    );
}

/// A detached head is told by the first seven digits of its commit, or by all of them where it has
/// fewer.
pub proof fn law_short_commits_are_told_whole(
    head: HeadRef,
    symbolic_target: &Option<String>,
    r: (String, bool),
)
    requires
        call_ensures(branch_info, (&Ok::<HeadRef, git2::Error>(head), symbolic_target), r),
        head.detached,
        head.target is Some,
        head.target->0@.len() < 7,
    ensures
        r.0@ == "(detached: "@ + head.target->0@ + ")"@,
        r.1,
{
}

/// A working tree without a name of its own, such as the root, leaves the repository named by the
/// directory that holds its own one, and by a common name where that has none either.
pub proof fn law_nameless_working_tree_is_named_by_the_repository(
    workdir: String,
    repo_dir: &str,
    name: String,
)
    requires
        call_ensures(repo_name, (&Some(workdir), repo_dir), name),
        file_name(workdir@) is None,
    ensures
        parent_name(repo_dir@) matches Some(n) ==> name@ == n,
        parent_name(repo_dir@) is None ==> name@ == "repository"@,
{
}

/// Lines are counted with three lines of context.
pub proof fn law_counting_shows_three_lines_of_context(staged: bool, r: DiffRequest)
    requires
        call_ensures(stats_request, (staged,), r),
    ensures
        r.context_lines == 3,
{
}

/// A path is opened exactly where a repository is found for it, and else refused, by its name and
/// with the reason.
pub proof fn law_only_repositories_are_opened<R>(
    path: &str,
    discovered: Result<R, git2::Error>,
    r: AppResult<R>,
)
    requires
        call_ensures(open_repository::<R>, (path, discovered), r),
    ensures
        discovered matches Ok(repo) ==> r == Ok::<R, AppError>(repo),
        discovered matches Err(e) ==> r is Err && r->Err_0@.0 is Validation && r->Err_0@.1
            == "Not a git repository: "@ + path@ + " ("@ + git2_message(e) + ")"@,
{
}

/// A path given on the command line has to be a directory that is there.
pub proof fn law_only_directories_are_taken(
    arg: &str,
    resolved: Result<(String, bool), String>,
    r: AppResult<String>,
)
    requires
        call_ensures(resolve_cli_repo_path, (arg, resolved), r),
    ensures
        r is Ok <==> (resolved matches Ok(found) && found.1),
        r matches Ok(p) ==> p@ == resolved->Ok_0.0@,
        r matches Err(e) ==> e@.0 is Validation,
{
}

} // verus!

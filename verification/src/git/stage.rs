//! Staging, unstaging and discarding: whole files, and single hunks.
//!
//! What is to be done to the index and the working tree comes out as a list of steps, to be
//! carried out in order until one fails.

use crate::error::{
    code_of, git2_code, git2_message, git_failure, outcome, AppError, AppResult, ErrorKind,
    ErrorView, GitCode,
};
use crate::git::apply::{lemma_first_byte, ApplyTarget};
use crate::git::diff::{
    converted, law_line_keeps_its_bytes, no_change, DiffLineKind, FileDiff, FileDiffView, Hunk,
    HunkView, RawLine,
};
use crate::git::patch::{
    build_patch, patch_refusal, patch_text, row, HunkPatchPayload, PatchLine, PatchLineKind,
};
use crate::git::paths::{path_refusal, validate_repo_relative_path};
use crate::git::repo::{
    entry_views, has_flag, status_contains, EntryView, FileEntry, FileStatus, StatusFlag,
};
use crate::pathname::{join_path, under};
use crate::seqs::{first_where, lemma_first_is, lemma_first_none};
use crate::text::{bytes_of, opt_text, owned, same_text};
use vstd::prelude::*;
use vstd::utf8::{decode_utf8, encode_utf8, valid_utf8};

verus! {

/// An index entry made from a HEAD tree entry. Only the mode, the id and the path carry
/// meaning; everything that describes a file on disk is zero.
#[derive(Debug, Clone)]
pub struct HeadEntry {
    pub ctime_seconds: i32,
    pub ctime_nanoseconds: u32,
    pub mtime_seconds: i32,
    pub mtime_nanoseconds: u32,
    pub dev: u32,
    pub ino: u32,
    pub mode: u32,
    pub uid: u32,
    pub gid: u32,
    pub file_size: u32,
    /// The bytes of the object id.
    pub id: Vec<u8>,
    pub flags: u16,
    pub flags_extended: u16,
    pub path: Vec<u8>,
}

/// What HEAD's tree says of a path.
#[derive(Debug, Clone)]
pub struct TreeFacts {
    pub filemode: i32,
    pub id: Vec<u8>,
}

/// A step on the index.
#[derive(Debug, Clone)]
pub enum IndexStep {
    /// Drop the entry of this path.
    Remove(String),
    /// Take this path from the working tree.
    Add(String),
    /// Put this entry in.
    Put(HeadEntry),
    /// Write the index to disk.
    Write,
}

/// A step on the working tree.
#[derive(Debug, Clone)]
pub enum DiscardStep {
    /// Restore this path from the index.
    Restore(String),
    /// Delete this file.
    Delete(String),
}

/// A step on the index as contracts speak of it.
pub enum IndexStepView {
    Remove(Seq<char>),
    Add(Seq<char>),
    /// The mode, the id and the path of an entry whose other fields are zero.
    Put(u32, Seq<u8>, Seq<u8>),
    /// An entry with other fields that are not zero.
    PutOther(HeadEntry),
    Write,
}

/// A step on the working tree as contracts speak of it.
pub enum DiscardStepView {
    Restore(Seq<char>),
    Delete(Seq<char>),
}

/// Whether everything that describes a file on disk is zero.
pub open spec fn stat_is_zero(e: HeadEntry) -> bool {
    &&& e.ctime_seconds == 0
    &&& e.ctime_nanoseconds == 0
    &&& e.mtime_seconds == 0
    &&& e.mtime_nanoseconds == 0
    &&& e.dev == 0
    &&& e.ino == 0
    &&& e.uid == 0
    &&& e.gid == 0
    &&& e.file_size == 0
    &&& e.flags == 0
    &&& e.flags_extended == 0
}

impl View for IndexStep {
    type V = IndexStepView;

    open spec fn view(&self) -> IndexStepView {
        match *self {
            IndexStep::Remove(p) => IndexStepView::Remove(p@),
            IndexStep::Add(p) => IndexStepView::Add(p@),
            IndexStep::Put(e) => if stat_is_zero(e) {
                IndexStepView::Put(e.mode, e.id@, e.path@)
            } else {
                IndexStepView::PutOther(e)
            },
            IndexStep::Write => IndexStepView::Write,
        }
    }
}

impl View for DiscardStep {
    type V = DiscardStepView;

    open spec fn view(&self) -> DiscardStepView {
        match *self {
            DiscardStep::Restore(p) => DiscardStepView::Restore(p@),
            DiscardStep::Delete(p) => DiscardStepView::Delete(p@),
        }
    }
}

/// Index steps as contracts speak of them.
pub open spec fn index_steps(v: Seq<IndexStep>) -> Seq<IndexStepView> {
    v.map_values(|s: IndexStep| s@)
}

/// Working tree steps as contracts speak of them.
pub open spec fn discard_steps(v: Seq<DiscardStep>) -> Seq<DiscardStepView> {
    v.map_values(|s: DiscardStep| s@)
}

/// The predicate "is the rename that arrives at this path".
pub open spec fn renamed_to(path: Seq<char>) -> spec_fn(EntryView) -> bool {
    |e: EntryView| e.path == path && e.status == FileStatus::Renamed
}

/// Where a path was renamed from in the working tree, going by the unstaged changes shown.
pub open spec fn rename_source(unstaged: Seq<EntryView>, path: Seq<char>) -> Option<Seq<char>> {
    match first_where(unstaged, renamed_to(path)) {
        Some(i) => unstaged[i].old_path,
        None => None,
    }
}

/// Where `path` was renamed from in the working tree, if it was.
pub fn workdir_rename_source(unstaged: &Vec<FileEntry>, path: &str) -> (r: Option<String>)
    ensures
        opt_text(r) == rename_source(entry_views(unstaged@), path@),
{
    let ghost views = entry_views(unstaged@);
    let ghost p = renamed_to(path@);
    let mut i: usize = 0;
    while i < unstaged.len()
        invariant
            0 <= i <= unstaged@.len(),
            views == entry_views(unstaged@),
            p == renamed_to(path@),
            forall|j: int| 0 <= j < i ==> !p(#[trigger] views[j]),
        decreases unstaged@.len() - i,
    {
        let e = &unstaged[i];
        assert(views[i as int] == e@);
        if same_text(e.path.as_str(), path) && e.status == FileStatus::Renamed {
            proof {
                lemma_first_is(views, p, i as int);
            }
            return match &e.old_path {
                Some(old) => Some(old.clone()),
                None => None,
            };
        }
        i += 1;
    }
    proof {
        lemma_first_none(views, p);
    }
    None
}

/// The steps that stage a whole file: a file renamed in the working tree is staged together
/// with the removal of its old path, a file that is there is taken over, and one that is gone
/// is removed.
pub open spec fn stage_steps(
    source: Option<Seq<char>>,
    path: Seq<char>,
    exists_in_workdir: bool,
) -> Seq<IndexStepView> {
    match source {
        Some(old) => seq![
            IndexStepView::Remove(old),
            IndexStepView::Add(path),
            IndexStepView::Write,
        ],
        None => if exists_in_workdir {
            seq![IndexStepView::Add(path), IndexStepView::Write]
        } else {
            seq![IndexStepView::Remove(path), IndexStepView::Write]
        },
    }
}

/// The steps that stage the whole-file change of `path`, given the unstaged changes shown and
/// whether the path, not followed where it is a link, is in the working tree.
pub fn stage_file(path: &str, unstaged: &Vec<FileEntry>, exists_in_workdir: bool) -> (r: Vec<
    IndexStep,
>)
    ensures
        index_steps(r@) == stage_steps(
            rename_source(entry_views(unstaged@), path@),
            path@,
            exists_in_workdir,
        ),
{
    let mut steps: Vec<IndexStep> = Vec::new();
    match workdir_rename_source(unstaged, path) {
        Some(old) => {
            steps.push(IndexStep::Remove(old));
            steps.push(IndexStep::Add(owned(path)));
        },
        None => {
            if exists_in_workdir {
                steps.push(IndexStep::Add(owned(path)));
            } else {
                steps.push(IndexStep::Remove(owned(path)));
            }
        },
    }
    steps.push(IndexStep::Write);
    assert(index_steps(steps@) =~= stage_steps(
        rename_source(entry_views(unstaged@), path@),
        path@,
        exists_in_workdir,
    ));
    steps
}

/// The index entry for `path` as HEAD has it.
pub fn head_tree_index_entry(path: &str, entry: &TreeFacts) -> (r: HeadEntry)
    ensures
        stat_is_zero(r),
        r.mode == entry.filemode as u32,
        r.id@ == entry.id@,
        r.path@ == encode_utf8(path@),
{
    let mut id: Vec<u8> = Vec::new();
    let mut i: usize = 0;
    while i < entry.id.len()
        invariant
            0 <= i <= entry.id@.len(),
            id@ == entry.id@.take(i as int),
        decreases entry.id@.len() - i,
    {
        id.push(entry.id[i]);
        assert(entry.id@.take(i + 1) =~= entry.id@.take(i as int).push(entry.id@[i as int]));
        i += 1;
    }
    assert(entry.id@.take(entry.id@.len() as int) =~= entry.id@);
    HeadEntry {
        ctime_seconds: 0,
        ctime_nanoseconds: 0,
        mtime_seconds: 0,
        mtime_nanoseconds: 0,
        dev: 0,
        ino: 0,
        mode: entry.filemode as u32,
        uid: 0,
        gid: 0,
        file_size: 0,
        id,
        flags: 0,
        flags_extended: 0,
        path: bytes_of(path),
    }
}

/// What HEAD says of a path: the failure to resolve HEAD, or what looking the path up in its
/// tree gave.
pub enum HeadTree {
    HeadFailed(git2::Error),
    Looked(Result<TreeFacts, git2::Error>),
}

/// What unstaging a file comes to: the entry goes back to what HEAD has; where HEAD has no
/// commits or does not have the path, it is dropped.
pub open spec fn unstage_outcome(path: Seq<char>, head: HeadTree) -> Result<
    Seq<IndexStepView>,
    ErrorView,
> {
    let drop = seq![IndexStepView::Remove(path), IndexStepView::Write];
    match head {
        HeadTree::HeadFailed(e) => if git2_code(e) == GitCode::UnbornBranch {
            Ok(drop)
        } else {
            Err(git_failure(git2_message(e)))
        },
        HeadTree::Looked(Ok(entry)) => Ok(
            seq![
                IndexStepView::Put(entry.filemode as u32, entry.id@, encode_utf8(path)),
                IndexStepView::Write,
            ],
        ),
        HeadTree::Looked(Err(e)) => if git2_code(e) == GitCode::NotFound {
            Ok(drop)
        } else {
            Err(git_failure(git2_message(e)))
        },
    }
}

/// The steps that unstage the change of `path`.
pub fn unstage_file(path: &str, head: HeadTree) -> (r: AppResult<Vec<IndexStep>>)
    ensures
        match r {
            Ok(steps) => unstage_outcome(path@, head) == Ok::<Seq<IndexStepView>, ErrorView>(
                index_steps(steps@),
            ),
            Err(e) => unstage_outcome(path@, head) == Err::<Seq<IndexStepView>, ErrorView>(e@),
        },
{
    let mut steps: Vec<IndexStep> = Vec::new();
    match head {
        HeadTree::HeadFailed(e) => {
            if code_of(&e) != GitCode::UnbornBranch {
                return Err(AppError::from(e));
            }
            steps.push(IndexStep::Remove(owned(path)));
        },
        HeadTree::Looked(found) => match found {
            Ok(entry) => {
                steps.push(IndexStep::Put(head_tree_index_entry(path, &entry)));
            },
            Err(e) => {
                if code_of(&e) != GitCode::NotFound {
                    return Err(AppError::from(e));
                }
                steps.push(IndexStep::Remove(owned(path)));
            },
        },
    }
    steps.push(IndexStep::Write);
    proof {
        let want = unstage_outcome(path@, head)->Ok_0;
        assert(index_steps(steps@) =~= want);
    }
    Ok(steps)
}

/// What discarding a file comes to. A file renamed in the working tree goes back to its old
/// path; an untracked file is deleted; any other is restored from the index, so that what is
/// staged stays.
pub open spec fn discard_outcome(
    path: Seq<char>,
    status_bits: u32,
    source: Option<Seq<char>>,
    workdir: Option<Seq<char>>,
) -> Result<Seq<DiscardStepView>, ErrorView> {
    match workdir {
        None => Err((ErrorKind::Validation, "Repository has no working tree"@)),
        Some(w) => match source {
            Some(old) => Ok(
                seq![DiscardStepView::Restore(old), DiscardStepView::Delete(under(w, path))],
            ),
            None => if has_flag(status_bits, StatusFlag::WtNew) {
                Ok(seq![DiscardStepView::Delete(under(w, path))])
            } else {
                Ok(seq![DiscardStepView::Restore(path)])
            },
        },
    }
}

/// The steps that discard the changes of `path` in the working tree, given its status bits, the
/// unstaged changes shown and the working directory.
pub fn discard_file(
    path: &str,
    status_bits: u32,
    unstaged: &Vec<FileEntry>,
    workdir: Option<&str>,
) -> (r: AppResult<Vec<DiscardStep>>)
    ensures
        ({
            let want = discard_outcome(
                path@,
                status_bits,
                rename_source(entry_views(unstaged@), path@),
                match workdir {
                    Some(w) => Some(w@),
                    None => None,
                },
            );
            match r {
                Ok(steps) => want == Ok::<Seq<DiscardStepView>, ErrorView>(discard_steps(steps@)),
                Err(e) => want == Err::<Seq<DiscardStepView>, ErrorView>(e@),
            }
        }),
{
    let source = workdir_rename_source(unstaged, path);
    let w = match workdir {
        Some(w) => w,
        None => return Err(AppError::validation("Repository has no working tree")),
    };
    let mut steps: Vec<DiscardStep> = Vec::new();
    match source {
        Some(old) => {
            steps.push(DiscardStep::Restore(old));
            steps.push(DiscardStep::Delete(join_path(w, path)));
        },
        None => {
            if status_contains(status_bits, StatusFlag::WtNew) {
                steps.push(DiscardStep::Delete(join_path(w, path)));
            } else {
                steps.push(DiscardStep::Restore(owned(path)));
            }
        },
    }
    proof {
        let want = discard_outcome(
            path@,
            status_bits,
            rename_source(entry_views(unstaged@), path@),
            Some(w@),
        )->Ok_0;
        assert(discard_steps(steps@) =~= want);
    }
    Ok(steps)
}

/// Discarding never deletes a file that git tracks under its present name: a file is deleted
/// only where it is untracked, or is the new side of a rename whose old side is restored first.
pub proof fn law_discard_deletes_no_tracked_file(
    path: Seq<char>,
    status_bits: u32,
    source: Option<Seq<char>>,
    workdir: Seq<char>,
    k: int,
)
    requires
        0 <= k < discard_outcome(path, status_bits, source, Some(workdir))->Ok_0.len(),
        discard_outcome(path, status_bits, source, Some(workdir))->Ok_0[k] is Delete,
    ensures
        discard_outcome(path, status_bits, source, Some(workdir))->Ok_0[k]
            == DiscardStepView::Delete(under(workdir, path)),
        match source {
            Some(old) => k == 1 && discard_outcome(
                path,
                status_bits,
                source,
                Some(workdir),
            )->Ok_0[0] == DiscardStepView::Restore(old),
            None => has_flag(status_bits, StatusFlag::WtNew),
        },
{
}

/// Staging a renamed file never leaves half a rename behind: the removal of the old path and
/// the addition of the new one are part of the same steps, and every list of steps ends with
/// the one write to disk.
pub proof fn law_renames_are_staged_whole(
    source: Option<Seq<char>>,
    path: Seq<char>,
    exists_in_workdir: bool,
)
    ensures
        stage_steps(source, path, exists_in_workdir).last() is Write,
        forall|k: int|
            0 <= k < stage_steps(source, path, exists_in_workdir).len() - 1 ==> !(
            #[trigger] stage_steps(source, path, exists_in_workdir)[k] is Write),
        source matches Some(old) ==> {
            &&& stage_steps(source, path, exists_in_workdir).contains(IndexStepView::Remove(old))
            &&& stage_steps(source, path, exists_in_workdir).contains(IndexStepView::Add(path))
        },
{
    let steps = stage_steps(source, path, exists_in_workdir);
    if let Some(old) = source {
        assert(steps[0] == IndexStepView::Remove(old));
        assert(steps[1] == IndexStepView::Add(path));
    }
}

/// Whether a line of a diff and a line of a payload have the same role.
pub open spec fn same_role(shown: DiffLineKind, sent: PatchLineKind) -> bool {
    match (shown, sent) {
        (DiffLineKind::Context, PatchLineKind::Context) => true,
        (DiffLineKind::Add, PatchLineKind::Add) => true,
        (DiffLineKind::Del, PatchLineKind::Del) => true,
        (DiffLineKind::NoNewline, PatchLineKind::NoNewline) => true,
        _ => false,
    }
}

/// Whether a payload is this hunk: the same header, and the same lines in role and content.
pub open spec fn is_hunk(h: HunkView, payload: HunkPatchPayload) -> bool {
    &&& h.header == payload.header@
    &&& h.lines.len() == payload.lines@.len()
    &&& forall|i: int|
        0 <= i < h.lines.len() ==> same_role((#[trigger] h.lines[i]).kind, payload.lines@[i].kind)
            && h.lines[i].content == payload.lines@[i].content@
}

/// Whether a diff shows the hunk of a payload.
pub open spec fn shows_hunk(fresh: FileDiffView, payload: HunkPatchPayload) -> bool {
    exists|i: int| 0 <= i < fresh.hunks.len() && is_hunk(#[trigger] fresh.hunks[i], payload)
}

/// Why a hunk is refused in the light of a fresh diff; nothing when it may be applied. The fresh
/// diff decides whether the file is untracked and where it was renamed from, whatever the
/// payload says.
pub open spec fn hunk_refusal(fresh: FileDiffView, payload: HunkPatchPayload) -> Option<ErrorView> {
    if fresh.is_untracked {
        Some(
            (
                ErrorKind::Validation,
                "Cannot hunk-stage an untracked file; stage the whole file instead"@,
            ),
        )
    } else if fresh.is_lossy {
        Some(
            (
                ErrorKind::NonUtf8File,
                "File contains non-UTF-8 text — use whole-file staging"@,
            ),
        )
    } else if opt_text(payload.old_path) != fresh.old_path || !shows_hunk(fresh, payload) {
        Some(
            (
                ErrorKind::StaleHunk,
                "The file changed since this diff was displayed — refresh and try again."@,
            ),
        )
    } else {
        patch_refusal(payload)
    }
}

/// Whether the two kinds are the same role.
fn same_kind(shown: DiffLineKind, sent: PatchLineKind) -> (r: bool)
    ensures
        r == same_role(shown, sent),
{
    match (shown, sent) {
        (DiffLineKind::Context, PatchLineKind::Context) => true,
        (DiffLineKind::Add, PatchLineKind::Add) => true,
        (DiffLineKind::Del, PatchLineKind::Del) => true,
        (DiffLineKind::NoNewline, PatchLineKind::NoNewline) => true,
        _ => false,
    }
}

/// Whether the payload is this hunk.
fn matches_hunk(h: &Hunk, payload: &HunkPatchPayload) -> (r: bool)
    ensures
        r == is_hunk(h@, *payload),
{
    if !same_text(h.header.as_str(), payload.header.as_str()) || h.lines.len()
        != payload.lines.len() {
        return false;
    }
    let ghost lines = h@.lines;
    let mut i: usize = 0;
    while i < h.lines.len()
        invariant
            0 <= i <= h.lines@.len(),
            h.lines@.len() == payload.lines@.len(),
            h.header@ == payload.header@,
            lines == h@.lines,
            forall|j: int|
                0 <= j < i ==> same_role((#[trigger] lines[j]).kind, payload.lines@[j].kind)
                    && lines[j].content == payload.lines@[j].content@,
        decreases h.lines@.len() - i,
    {
        let shown = &h.lines[i];
        let sent = &payload.lines[i];
        assert(lines[i as int] == shown@);
        if !same_kind(shown.kind, sent.kind) || !same_text(
            shown.content.as_str(),
            sent.content.as_str(),
        ) {
            return false;
        }
        i += 1;
    }
    true
}

/// Whether the diff still shows the hunk of the payload.
pub fn hunk_still_present(fresh: &FileDiff, payload: &HunkPatchPayload) -> (r: bool)
    ensures
        r == shows_hunk(fresh@, *payload),
{
    let ghost hunks = fresh@.hunks;
    let mut i: usize = 0;
    while i < fresh.hunks.len()
        invariant
            0 <= i <= fresh.hunks@.len(),
            hunks == fresh@.hunks,
            forall|j: int| 0 <= j < i ==> !is_hunk(#[trigger] hunks[j], *payload),
        decreases fresh.hunks@.len() - i,
    {
        assert(hunks[i as int] == fresh.hunks@[i as int]@);
        if matches_hunk(&fresh.hunks[i], payload) {
            return true;
        }
        i += 1;
    }
    false
}

/// Whether two optional texts are the same.
fn same_option(a: &Option<String>, b: &Option<String>) -> (r: bool)
    ensures
        r == (opt_text(*a) == opt_text(*b)),
{
    match (a, b) {
        (Some(x), Some(y)) => same_text(x.as_str(), y.as_str()),
        (None, None) => true,
        _ => false,
    }
}

/// The patch for a hunk that the fresh diff still shows.
pub fn verify_hunk(fresh: &FileDiff, payload: &HunkPatchPayload) -> (r: AppResult<Vec<u8>>)
    ensures
        match r {
            Ok(patch) => hunk_refusal(fresh@, *payload) is None && patch@ == encode_utf8(
                patch_text(*payload),
            ),
            Err(e) => hunk_refusal(fresh@, *payload) == Some(e@),
        },
{
    if fresh.is_untracked {
        return Err(
            AppError::validation(
                "Cannot hunk-stage an untracked file; stage the whole file instead",
            ),
        );
    }
    if fresh.is_lossy {
        return Err(AppError::non_utf8_file());
    }
    if !same_option(&payload.old_path, &fresh.old_path) || !hunk_still_present(fresh, payload) {
        return Err(AppError::stale_hunk());
    }
    build_patch(payload)
}

/// Why the paths of a payload are refused.
pub open spec fn payload_path_refusal(payload: HunkPatchPayload, windows: bool) -> Option<
    ErrorView,
> {
    match path_refusal(payload.path@, windows) {
        Some(e) => Some(e),
        None => match payload.old_path {
            Some(old) => path_refusal(old@, windows),
            None => None,
        },
    }
}

/// When this patch may be applied for a payload: it is the payload's patch, and a fresh diff was
/// found to show the hunk.
pub open spec fn may_apply<D>(payload: HunkPatchPayload, diff: D, patch: Seq<u8>) -> bool where
    D: FnOnce(&str, bool, u32) -> AppResult<FileDiff>,
 {
    &&& patch == encode_utf8(patch_text(payload))
    &&& exists|p: &str, d: FileDiff|
        p@ == payload.path@ && #[trigger] call_ensures(
            diff,
            (p, payload.staged, payload.context_lines),
            Ok::<FileDiff, AppError>(d),
        ) && hunk_refusal(d@, payload) is None
}

/// `r` is what applying the hunk of a payload gives: its paths have to be safe, then the fresh
/// diff has to show the hunk, then the patch is applied.
pub open spec fn hunk_applied<D, A>(
    payload: HunkPatchPayload,
    target: ApplyTarget,
    windows: bool,
    diff: D,
    apply: A,
    r: AppResult<()>,
) -> bool where
    D: FnOnce(&str, bool, u32) -> AppResult<FileDiff>,
    A: FnOnce(&Vec<u8>, ApplyTarget) -> AppResult<()>,
 {
    match payload_path_refusal(payload, windows) {
        Some(e) => outcome(r) == Err::<(), ErrorView>(e),
        None => exists|p: &str, fresh: AppResult<FileDiff>|
            {
                &&& p@ == payload.path@
                &&& #[trigger] call_ensures(
                    diff,
                    (p, payload.staged, payload.context_lines),
                    fresh,
                )
                &&& match fresh {
                    Err(e) => r == Err::<(), AppError>(e),
                    Ok(d) => match hunk_refusal(d@, payload) {
                        Some(e) => outcome(r) == Err::<(), ErrorView>(e),
                        None => exists|patch: &Vec<u8>|
                            patch@ == encode_utf8(patch_text(payload)) && #[trigger] call_ensures(
                                apply,
                                (patch, target),
                                r,
                            ),
                    },
                }
            },
    }
}

/// Applies exactly one hunk, after making sure from a fresh diff that it is still what was
/// displayed.
///
/// `diff` computes the diff of a path, for a side and a number of context lines; `apply` hands
/// a patch to git. The paths are checked first, by
/// the rules of the platform, then the diff is computed anew, once, for the
/// side and the context of the payload. `apply` may be called only with the patch of a hunk that
/// this diff shows, and only once, so a hunk that is refused changes nothing.
pub fn apply_hunk_verified<D, A>(
    workdir: &str,
    payload: &HunkPatchPayload,
    target: ApplyTarget,
    windows: bool,
    diff: D,
    apply: A,
) -> (r: AppResult<()>) where
    D: FnOnce(&str, bool, u32) -> AppResult<FileDiff>,
    A: FnOnce(&Vec<u8>, ApplyTarget) -> AppResult<()>,

    requires
        forall|p: &str|
            p@ == payload.path@ && payload_path_refusal(*payload, windows) is None
                ==> #[trigger] call_requires(diff, (p, payload.staged, payload.context_lines)),
        forall|patch: &Vec<u8>|
            may_apply(*payload, diff, patch@) ==> #[trigger] call_requires(apply, (patch, target)),
    ensures
        hunk_applied(*payload, target, windows, diff, apply, r),
{
    let path = payload.path.as_str();
    if let Err(e) = validate_repo_relative_path(workdir, path, windows) {
        return Err(e);
    }
    if let Some(old) = &payload.old_path {
        if let Err(e) = validate_repo_relative_path(workdir, old.as_str(), windows) {
            return Err(e);
        }
    }
    let fresh = diff(path, payload.staged, payload.context_lines);
    assert(call_ensures(diff, (path, payload.staged, payload.context_lines), fresh));
    let d = match fresh {
        Ok(d) => d,
        Err(e) => return Err(e),
    };
    let patch = match verify_hunk(&d, payload) {
        Ok(p) => p,
        Err(e) => return Err(e),
    };
    let r = apply(&patch, target);
    assert(call_ensures(apply, (&patch, target), r));
    r
}

/// A payload copied from a hunk of the diff that is still on disk is accepted, as far as a
/// patch can be made for it.
pub proof fn law_displayed_hunk_is_accepted(fresh: FileDiffView, k: int, payload: HunkPatchPayload)
    requires
        !fresh.is_untracked,
        !fresh.is_lossy,
        opt_text(payload.old_path) == fresh.old_path,
        0 <= k < fresh.hunks.len(),
        is_hunk(fresh.hunks[k], payload),
        patch_refusal(payload) is None,
    ensures
        hunk_refusal(fresh, payload) is None,
{
}

/// A payload that differs from every hunk of the fresh diff is never applied: the file changed
/// since it was displayed.
pub proof fn law_changed_hunk_is_stale(fresh: FileDiffView, payload: HunkPatchPayload)
    requires
        !fresh.is_untracked,
        !fresh.is_lossy,
        opt_text(payload.old_path) != fresh.old_path || forall|i: int|
            0 <= i < fresh.hunks.len() ==> !is_hunk(#[trigger] fresh.hunks[i], payload),
    ensures
        hunk_refusal(fresh, payload) matches Some(e) && e.0 == ErrorKind::StaleHunk,
{
}

/// A hunk is never applied twice. Once a call applied it, the diff no longer shows it; a second
/// call that is told so answers that the hunk is stale, and has no patch that it may apply. A file
/// without any change left, in particular, shows no hunk.
pub proof fn law_second_application_is_stale<D, A, E, B>(
    payload: HunkPatchPayload,
    target: ApplyTarget,
    windows: bool,
    diff: D,
    apply: A,
    first: AppResult<()>,
    diff_after: E,
    apply_after: B,
    second: AppResult<()>,
) where
    D: FnOnce(&str, bool, u32) -> AppResult<FileDiff>,
    A: FnOnce(&Vec<u8>, ApplyTarget) -> AppResult<()>,
    E: FnOnce(&str, bool, u32) -> AppResult<FileDiff>,
    B: FnOnce(&Vec<u8>, ApplyTarget) -> AppResult<()>,

    requires
        hunk_applied(payload, target, windows, diff, apply, first),
        first is Ok,
        hunk_applied(payload, target, windows, diff_after, apply_after, second),
        forall|p: &str, fresh: AppResult<FileDiff>|
            p@ == payload.path@ && #[trigger] call_ensures(
                diff_after,
                (p, payload.staged, payload.context_lines),
                fresh,
            ) ==> (fresh matches Ok(d) && !d@.is_untracked && !d@.is_lossy && !shows_hunk(
                d@,
                payload,
            )),
    ensures
        outcome(second) == Err::<(), ErrorView>(
            (
                ErrorKind::StaleHunk,
                "The file changed since this diff was displayed — refresh and try again."@,
            ),
        ),
        forall|patch: Seq<u8>| !#[trigger] may_apply(payload, diff_after, patch),
        !shows_hunk(no_change(payload.path@), payload),
{
    assert(payload_path_refusal(payload, windows) is None);
}

/// The byte that opens a row of a patch, by the role of its line.
pub open spec fn role_byte(kind: PatchLineKind) -> u8 {
    match kind {
        PatchLineKind::Context => ' ' as u8,
        PatchLineKind::Add => '+' as u8,
        PatchLineKind::Del => '-' as u8,
        PatchLineKind::NoNewline => '\\' as u8,
    }
}

/// A hunk reaches git byte for byte: where a payload line repeats a displayed line of valid
/// UTF-8, its row in the patch is the role's byte and then the bytes that the line has in the
/// file, a `\r` included. The row's own newline is the line's newline, where it has one.
pub proof fn law_patch_row_has_the_bytes_of_its_line(line: RawLine, sent: PatchLine)
    requires
        valid_utf8(line.content@),
        same_role(converted(line).kind, sent.kind),
        converted(line).content == sent.content@,
        !(sent.kind is NoNewline),
    ensures
        (decode_utf8(line.content@).len() > 0 && decode_utf8(line.content@).last() == '\n')
            ==> encode_utf8(row(sent).push('\n')) == seq![role_byte(sent.kind)] + line.content@,
        !(decode_utf8(line.content@).len() > 0 && decode_utf8(line.content@).last() == '\n')
            ==> encode_utf8(row(sent)) == seq![role_byte(sent.kind)] + line.content@,
{
    law_line_keeps_its_bytes(line.content@);
    vstd::utf8::decode_utf8_encode_utf8(line.content@);
    reveal_strlit(" ");
    reveal_strlit("+");
    reveal_strlit("-");
    let r = row(sent);
    assert(r.drop_first() =~= sent.content@);
    assert(r.push('\n').drop_first() =~= sent.content@.push('\n'));
    lemma_first_byte(r);
    lemma_first_byte(r.push('\n'));
}

/// A hunk is accepted only where the fresh diff shows it word for word: some hunk of that diff
/// has the header of the payload and the same number of lines, and line by line the same text in
/// the same role, added and deleted lines included. The file is tracked and all text, and comes
/// from where the payload says.
pub proof fn law_accepted_hunk_is_on_disk_word_for_word(
    fresh: FileDiffView,
    payload: HunkPatchPayload,
)
    requires
        hunk_refusal(fresh, payload) is None,
    ensures
        !fresh.is_untracked,
        !fresh.is_lossy,
        !payload.is_untracked,
        match payload.old_path {
            Some(p) => fresh.old_path == Some(p@),
            None => fresh.old_path is None,
        },
        exists|k: int|
            {
                &&& 0 <= k < fresh.hunks.len()
                &&& (#[trigger] fresh.hunks[k]).header == payload.header@
                &&& fresh.hunks[k].lines.len() == payload.lines@.len()
                &&& forall|i: int|
                    0 <= i < payload.lines@.len() ==> (#[trigger] fresh.hunks[k].lines[i]).content
                        == payload.lines@[i].content@
                &&& forall|i: int|
                    0 <= i < payload.lines@.len() ==> match (
                    #[trigger] payload.lines@[i]).kind {
                        PatchLineKind::Context => fresh.hunks[k].lines[i].kind
                            == DiffLineKind::Context,
                        PatchLineKind::Add => fresh.hunks[k].lines[i].kind == DiffLineKind::Add,
                        PatchLineKind::Del => fresh.hunks[k].lines[i].kind == DiffLineKind::Del,
                        PatchLineKind::NoNewline => fresh.hunks[k].lines[i].kind
                            == DiffLineKind::NoNewline,
                    }
            },
{
    let k = choose|k: int| 0 <= k < fresh.hunks.len() && is_hunk(#[trigger] fresh.hunks[k], payload);
    let h = fresh.hunks[k];
    assert forall|i: int| 0 <= i < payload.lines@.len() implies (#[trigger] h.lines[i]).content
        == payload.lines@[i].content@ by {}
    assert forall|i: int| 0 <= i < payload.lines@.len() implies match (
    #[trigger] payload.lines@[i]).kind {
        PatchLineKind::Context => h.lines[i].kind == DiffLineKind::Context,
        PatchLineKind::Add => h.lines[i].kind == DiffLineKind::Add,
        PatchLineKind::Del => h.lines[i].kind == DiffLineKind::Del,
        PatchLineKind::NoNewline => h.lines[i].kind == DiffLineKind::NoNewline,
    } by {
        assert(same_role(h.lines[i].kind, payload.lines@[i].kind));
    }
}

/// A single line that differs makes a hunk stale: where every hunk of the fresh diff has another
/// header, another number of lines, or some line with another text or in another role, nothing is
/// applied and the answer is that the file changed.
pub proof fn law_one_changed_line_makes_a_hunk_stale(
    fresh: FileDiffView,
    payload: HunkPatchPayload,
)
    requires
        !fresh.is_untracked,
        !fresh.is_lossy,
        forall|k: int|
            0 <= k < fresh.hunks.len() ==> {
                ||| (#[trigger] fresh.hunks[k]).header != payload.header@
                ||| fresh.hunks[k].lines.len() != payload.lines@.len()
                ||| exists|i: int|
                    0 <= i < payload.lines@.len() && (#[trigger] fresh.hunks[k].lines[i]).content
                        != payload.lines@[i].content@
                ||| exists|i: int|
                    0 <= i < payload.lines@.len() && ((#[trigger] fresh.hunks[k].lines[i]).kind
                        == DiffLineKind::Add) != (payload.lines@[i].kind == PatchLineKind::Add)
                ||| exists|i: int|
                    0 <= i < payload.lines@.len() && ((#[trigger] fresh.hunks[k].lines[i]).kind
                        == DiffLineKind::Del) != (payload.lines@[i].kind == PatchLineKind::Del)
                ||| exists|i: int|
                    0 <= i < payload.lines@.len() && ((#[trigger] fresh.hunks[k].lines[i]).kind
                        == DiffLineKind::Context) != (payload.lines@[i].kind
                        == PatchLineKind::Context)
            },
    ensures
        hunk_refusal(fresh, payload) == Some(
            (
                ErrorKind::StaleHunk,
                "The file changed since this diff was displayed — refresh and try again."@,
            ),
        ),
{
    assert forall|k: int| 0 <= k < fresh.hunks.len() implies !is_hunk(
        #[trigger] fresh.hunks[k],
        payload,
    ) by {
        let h = fresh.hunks[k];
        if is_hunk(h, payload) {
            assert forall|i: int| 0 <= i < payload.lines@.len() implies (
            #[trigger] h.lines[i]).content == payload.lines@[i].content@ && same_role(
                h.lines[i].kind,
                payload.lines@[i].kind,
            ) by {}
            assert(false);
        }
    }
}

/// A hunk that the fresh diff shows word for word is refused for nothing but a payload that no
/// patch can be made of.
pub proof fn law_hunk_on_disk_is_applied(fresh: FileDiffView, k: int, payload: HunkPatchPayload)
    requires
        !fresh.is_untracked,
        !fresh.is_lossy,
        match payload.old_path {
            Some(p) => fresh.old_path == Some(p@),
            None => fresh.old_path is None,
        },
        0 <= k < fresh.hunks.len(),
        fresh.hunks[k].header == payload.header@,
        fresh.hunks[k].lines.len() == payload.lines@.len(),
        forall|i: int|
            0 <= i < payload.lines@.len() ==> (#[trigger] fresh.hunks[k].lines[i]).content
                == payload.lines@[i].content@,
        forall|i: int|
            0 <= i < payload.lines@.len() ==> match (#[trigger] fresh.hunks[k].lines[i]).kind {
                DiffLineKind::Context => payload.lines@[i].kind == PatchLineKind::Context,
                DiffLineKind::Add => payload.lines@[i].kind == PatchLineKind::Add,
                DiffLineKind::Del => payload.lines@[i].kind == PatchLineKind::Del,
                DiffLineKind::NoNewline => payload.lines@[i].kind == PatchLineKind::NoNewline,
            },
    ensures
        hunk_refusal(fresh, payload) == patch_refusal(payload),
{
    assert(is_hunk(fresh.hunks[k], payload));
}

/// What the fresh diff says of the file comes first: an untracked file is refused whatever the
/// payload is, and then a file that is not all text.
pub proof fn law_fresh_diff_decides_on_the_file(fresh: FileDiffView, payload: HunkPatchPayload)
    ensures
        fresh.is_untracked ==> (hunk_refusal(fresh, payload) matches Some(e) && e.0
            == ErrorKind::Validation),
        !fresh.is_untracked && fresh.is_lossy ==> (hunk_refusal(fresh, payload) matches Some(e)
            && e.0 == ErrorKind::NonUtf8File),
        !fresh.is_untracked && !fresh.is_lossy && (match payload.old_path {
            Some(p) => fresh.old_path != Some(p@),
            None => fresh.old_path is Some,
        }) ==> (hunk_refusal(fresh, payload) matches Some(e) && e.0 == ErrorKind::StaleHunk),
{
}

/// A hunk is applied to the target that was asked for, with the bytes of its own patch, and what
/// git answers is the answer: where the paths are safe and the fresh diff, asked for the
/// payload's file, side and context, shows the hunk, nothing else can come back.
pub proof fn law_accepted_hunk_reaches_its_target<D, A>(
    workdir: &str,
    payload: &HunkPatchPayload,
    target: ApplyTarget,
    windows: bool,
    diff: D,
    apply: A,
    r: AppResult<()>,
) where
    D: FnOnce(&str, bool, u32) -> AppResult<FileDiff>,
    A: FnOnce(&Vec<u8>, ApplyTarget) -> AppResult<()>,

    requires
        call_ensures(
            apply_hunk_verified::<D, A>,
            (workdir, payload, target, windows, diff, apply),
            r,
        ),
        path_refusal(payload.path@, windows) is None,
        payload.old_path matches Some(old) ==> path_refusal(old@, windows) is None,
        forall|p: &str, fresh: AppResult<FileDiff>|
            p@ == payload.path@ && #[trigger] call_ensures(
                diff,
                (p, payload.staged, payload.context_lines),
                fresh,
            ) ==> (fresh matches Ok(d) && hunk_refusal(d@, *payload) is None),
    ensures
        exists|patch: &Vec<u8>|
            patch@ == encode_utf8(patch_text(*payload)) && #[trigger] call_ensures(
                apply,
                (patch, target),
                r,
            ),
{
}

/// A hunk with an unsafe path is refused before any diff is asked for, the new path first.
pub proof fn law_unsafe_hunk_paths_are_refused<D, A>(
    workdir: &str,
    payload: &HunkPatchPayload,
    target: ApplyTarget,
    windows: bool,
    diff: D,
    apply: A,
    r: AppResult<()>,
) where
    D: FnOnce(&str, bool, u32) -> AppResult<FileDiff>,
    A: FnOnce(&Vec<u8>, ApplyTarget) -> AppResult<()>,

    requires
        call_ensures(
            apply_hunk_verified::<D, A>,
            (workdir, payload, target, windows, diff, apply),
            r,
        ),
    ensures
        path_refusal(payload.path@, windows) matches Some(e) ==> (r matches Err(err) && err@ == e),
        path_refusal(payload.path@, windows) is None ==> (payload.old_path matches Some(old) ==> (
        path_refusal(old@, windows) matches Some(e) ==> (r matches Err(err) && err@ == e))),
{
}

/// A tracked file is always restored: with a working tree, discarding the changes of a path that
/// is not new to git and not the new side of a rename is one step, the restore of that path,
/// whatever else its status says. A file that is new to git is deleted instead, and nothing else
/// is touched.
pub proof fn law_discarding_a_tracked_file_restores_it(
    path: Seq<char>,
    status_bits: u32,
    workdir: Seq<char>,
)
    ensures
        status_bits & 0x80 == 0 ==> discard_outcome(path, status_bits, None, Some(workdir)) == Ok::<
            Seq<DiscardStepView>,
            ErrorView,
        >(seq![DiscardStepView::Restore(path)]),
        status_bits & 0x80 != 0 ==> discard_outcome(path, status_bits, None, Some(workdir)) == Ok::<
            Seq<DiscardStepView>,
            ErrorView,
        >(seq![DiscardStepView::Delete(under(workdir, path))]),
{
}

/// Discarding a rename undoes it whole, whatever the status says: the old path comes back, then
/// the new one goes. Without a working tree nothing can be discarded.
pub proof fn law_discarding_a_rename_undoes_it(
    path: Seq<char>,
    status_bits: u32,
    old: Seq<char>,
    source: Option<Seq<char>>,
    workdir: Seq<char>,
)
    ensures
        discard_outcome(path, status_bits, Some(old), Some(workdir)) == Ok::<
            Seq<DiscardStepView>,
            ErrorView,
        >(seq![DiscardStepView::Restore(old), DiscardStepView::Delete(under(workdir, path))]),
        discard_outcome(path, status_bits, source, None) == Err::<Seq<DiscardStepView>, ErrorView>(
            (ErrorKind::Validation, "Repository has no working tree"@),
        ),
{
}

/// What [`discard_file`] does to a file of the working tree, told by the list of unstaged
/// changes: each call ends with the path as the index has it, or without it where the index has
/// none.
pub proof fn law_discard_file_ends_with_the_index(
    path: &str,
    status_bits: u32,
    unstaged: &Vec<FileEntry>,
    workdir: &str,
    r: AppResult<Vec<DiscardStep>>,
)
    requires
        call_ensures(discard_file, (path, status_bits, unstaged, Some(workdir)), r),
        forall|i: int|
            0 <= i < unstaged@.len() ==> (#[trigger] unstaged@[i]).path@ != path@
                || unstaged@[i].status != FileStatus::Renamed,
    ensures
        r matches Ok(steps) && steps@.len() == 1 && if status_bits & 0x80 == 0 {
            steps@[0] matches DiscardStep::Restore(p) && p@ == path@
        } else {
            steps@[0] matches DiscardStep::Delete(p) && p@ == under(workdir@, path@)
        },
{
    let es = entry_views(unstaged@);
    let q = renamed_to(path@);
    assert forall|j: int| 0 <= j < es.len() implies !q(#[trigger] es[j]) by {
        assert(es[j] == unstaged@[j]@);
    }
    lemma_first_none(es, q);
    law_discarding_a_tracked_file_restores_it(path@, status_bits, workdir@);
    assert(r is Ok);
    let steps = r->Ok_0;
    let want = discard_outcome(path@, status_bits, None, Some(workdir@))->Ok_0;
    assert(discard_steps(steps@) == want);
    assert(discard_steps(steps@).len() == steps@.len());
    assert(discard_steps(steps@)[0] == steps@[0]@);
}

/// Which rename a path belongs to: the first unstaged entry that arrives at the path by a rename
/// says where it came from, and no other entry does.
pub proof fn law_rename_source_is_that_of_the_path(unstaged: Seq<EntryView>, path: Seq<char>, k: int)
    requires
        0 <= k < unstaged.len(),
        forall|j: int|
            0 <= j < k ==> (#[trigger] unstaged[j]).path != path || unstaged[j].status
                != FileStatus::Renamed,
        unstaged[k].path == path,
        unstaged[k].status == FileStatus::Renamed,
    ensures
        rename_source(unstaged, path) == unstaged[k].old_path,
{
    lemma_first_is(unstaged, renamed_to(path), k);
}

/// A path that no unstaged rename arrives at has no source.
pub proof fn law_no_rename_no_source(unstaged: Seq<EntryView>, path: Seq<char>)
    requires
        forall|j: int|
            0 <= j < unstaged.len() ==> (#[trigger] unstaged[j]).path != path || unstaged[j].status
                != FileStatus::Renamed,
    ensures
        rename_source(unstaged, path) is None,
{
    lemma_first_none(unstaged, renamed_to(path));
}

/// What the steps on the index leave of one path: where `Some`, the content it has then. `taken`
/// is what the working tree has at a path, `put` what an entry that is put in stands for.
pub open spec fn index_entry_after(
    steps: Seq<IndexStepView>,
    path: Seq<char>,
    before: Option<(u32, Seq<u8>)>,
    taken: spec_fn(Seq<char>) -> (u32, Seq<u8>),
) -> Option<(u32, Seq<u8>)>
    decreases steps.len(),
{
    if steps.len() == 0 {
        before
    } else {
        let entry = index_entry_after(steps.drop_last(), path, before, taken);
        match steps.last() {
            IndexStepView::Remove(p) => if p == path {
                None
            } else {
                entry
            },
            IndexStepView::Add(p) => if p == path {
                Some(taken(path))
            } else {
                entry
            },
            IndexStepView::Put(mode, id, p) => if p == encode_utf8(path) {
                Some((mode, id))
            } else {
                entry
            },
            IndexStepView::PutOther(e) => entry,
            IndexStepView::Write => entry,
        }
    }
}

/// After a file was staged, the index has it as the working tree does: with the content of the
/// working tree where it exists or was renamed to, and not at all where it was deleted. A rename
/// takes its old path out. Every other path keeps its entry.
pub proof fn law_staging_takes_over_the_working_tree(
    source: Option<Seq<char>>,
    path: Seq<char>,
    exists_in_workdir: bool,
    other: Seq<char>,
    before: Option<(u32, Seq<u8>)>,
    taken: spec_fn(Seq<char>) -> (u32, Seq<u8>),
)
    ensures
        ({
            let steps = stage_steps(source, path, exists_in_workdir);
            &&& source is Some || exists_in_workdir ==> index_entry_after(
                steps,
                path,
                before,
                taken,
            ) == Some(taken(path))
            &&& source is None && !exists_in_workdir ==> index_entry_after(
                steps,
                path,
                before,
                taken,
            ) is None
            &&& source is Some && source->0 != path ==> index_entry_after(
                steps,
                source->0,
                before,
                taken,
            ) is None
            &&& other != path && source != Some(other) ==> index_entry_after(
                steps,
                other,
                before,
                taken,
            ) == before
            &&& steps.last() is Write
        }),
{
    let steps = stage_steps(source, path, exists_in_workdir);
    reveal_with_fuel(index_entry_after, 4);
    assert(steps.drop_last().drop_last().drop_last() =~= Seq::<IndexStepView>::empty()
        || steps.drop_last().drop_last() =~= Seq::<IndexStepView>::empty());
}

/// After a file was unstaged, the index has it as HEAD does: with HEAD's mode and content where
/// HEAD has it, and not at all where HEAD does not, or where there is no commit yet. Every other
/// path keeps its entry. Any other failure is handed on.
pub proof fn law_unstaging_takes_over_head(
    path: Seq<char>,
    head: HeadTree,
    other: Seq<char>,
    before: Option<(u32, Seq<u8>)>,
    taken: spec_fn(Seq<char>) -> (u32, Seq<u8>),
)
    requires
        encode_utf8(other) != encode_utf8(path),
    ensures
        match head {
            HeadTree::Looked(Ok(entry)) => {
                &&& unstage_outcome(path, head) matches Ok(steps)
                &&& index_entry_after(steps, path, before, taken) == Some(
                    (entry.filemode as u32, entry.id@),
                )
                &&& index_entry_after(steps, other, before, taken) == before
                &&& steps.last() is Write
            },
            HeadTree::Looked(Err(e)) => if git2_code(e) == GitCode::NotFound {
                &&& unstage_outcome(path, head) matches Ok(steps)
                &&& index_entry_after(steps, path, before, taken) is None
                &&& index_entry_after(steps, other, before, taken) == before
                &&& steps.last() is Write
            } else {
                unstage_outcome(path, head) == Err::<Seq<IndexStepView>, ErrorView>(
                    git_failure(git2_message(e)),
                )
            },
            HeadTree::HeadFailed(e) => if git2_code(e) == GitCode::UnbornBranch {
                &&& unstage_outcome(path, head) matches Ok(steps)
                &&& index_entry_after(steps, path, before, taken) is None
                &&& index_entry_after(steps, other, before, taken) == before
                &&& steps.last() is Write
            } else {
                unstage_outcome(path, head) == Err::<Seq<IndexStepView>, ErrorView>(
                    git_failure(git2_message(e)),
                )
            },
        },
{
    if let Ok(steps) = unstage_outcome(path, head) {
        reveal_with_fuel(index_entry_after, 3);
        assert(steps.drop_last().drop_last() =~= Seq::<IndexStepView>::empty());
        assert(other != path);
    }
}

/// An entry that comes from the tree of HEAD has what the tree has, under the bytes of its path,
/// and nothing of a file: every other field is zero, so that git looks at the file again.
pub proof fn law_entry_of_head_has_no_file_data(path: &str, entry: &TreeFacts, r: HeadEntry)
    requires
        call_ensures(head_tree_index_entry, (path, entry), r),
    ensures
        r.mode == entry.filemode as u32,
        r.id@ == entry.id@,
        r.path@ == encode_utf8(path@),
        r.ctime_seconds == 0 && r.ctime_nanoseconds == 0,
        r.mtime_seconds == 0 && r.mtime_nanoseconds == 0,
        r.dev == 0 && r.ino == 0 && r.uid == 0 && r.gid == 0,
        r.file_size == 0,
        r.flags == 0 && r.flags_extended == 0,
{
}

/// What [`stage_file`] does, told by the list of unstaged changes: a file that a rename arrives at
/// takes the place of the file it was, and any other one is taken from the working tree or dropped.
pub proof fn law_stage_file_follows_the_rename(
    path: &str,
    unstaged: &Vec<FileEntry>,
    exists_in_workdir: bool,
    r: Vec<IndexStep>,
    source: Option<String>,
)
    requires
        call_ensures(stage_file, (path, unstaged, exists_in_workdir), r),
        call_ensures(workdir_rename_source, (unstaged, path), source),
    ensures
        source matches Some(old) ==> index_steps(r@) == seq![
            IndexStepView::Remove(old@),
            IndexStepView::Add(path@),
            IndexStepView::Write,
        ],
        source is None && exists_in_workdir ==> index_steps(r@) == seq![
            IndexStepView::Add(path@),
            IndexStepView::Write,
        ],
        source is None && !exists_in_workdir ==> index_steps(r@) == seq![
            IndexStepView::Remove(path@),
            IndexStepView::Write,
        ],
{
}

/// A hunk that is not applied is refused with the first reason there is: an untracked file, then
/// one that is no text, then a diff that is no longer what is shown. A rename that came or went
/// makes it stale like a changed line does.
pub proof fn law_refused_hunks_are_told_why(fresh: FileDiffView, payload: HunkPatchPayload)
    ensures
        fresh.is_untracked ==> (hunk_refusal(fresh, payload) matches Some(e) && e.0 is Validation
            && e.1 == "Cannot hunk-stage an untracked file; stage the whole file instead"@),
        !fresh.is_untracked && fresh.is_lossy ==> (hunk_refusal(fresh, payload) matches Some(e)
            && e.0 is NonUtf8File && e.1
            == "File contains non-UTF-8 text — use whole-file staging"@),
        !fresh.is_untracked && !fresh.is_lossy && (match payload.old_path {
            Some(p) => fresh.old_path != Some(p@),
            None => fresh.old_path is Some,
        }) ==> (hunk_refusal(fresh, payload) matches Some(e) && e.0 is StaleHunk && e.1
            == "The file changed since this diff was displayed — refresh and try again."@),
{
}

/// What a hunk comes to when it does not reach git: where the fresh diff fails, its failure is
/// handed on, and where it no longer shows the hunk, the refusal is.
pub proof fn law_failed_diffs_and_refusals_are_handed_on<D, A>(
    workdir: &str,
    payload: &HunkPatchPayload,
    target: ApplyTarget,
    windows: bool,
    diff: D,
    apply: A,
    r: AppResult<()>,
) where
    D: FnOnce(&str, bool, u32) -> AppResult<FileDiff>,
    A: FnOnce(&Vec<u8>, ApplyTarget) -> AppResult<()>,

    requires
        call_ensures(
            apply_hunk_verified::<D, A>,
            (workdir, payload, target, windows, diff, apply),
            r,
        ),
        path_refusal(payload.path@, windows) is None,
        payload.old_path matches Some(old) ==> path_refusal(old@, windows) is None,
    ensures
        exists|p: &str, fresh: AppResult<FileDiff>|
            {
                &&& p@ == payload.path@
                &&& #[trigger] call_ensures(
                    diff,
                    (p, payload.staged, payload.context_lines),
                    fresh,
                )
                &&& fresh is Err ==> r is Err && r->Err_0 == fresh->Err_0
                &&& fresh is Ok && hunk_refusal(fresh->Ok_0@, *payload) is Some ==> r is Err
                    && r->Err_0@ == hunk_refusal(fresh->Ok_0@, *payload)->0
            },
{
    let (p, fresh) = choose|p: &str, fresh: AppResult<FileDiff>|
        {
            &&& p@ == payload.path@
            &&& #[trigger] call_ensures(diff, (p, payload.staged, payload.context_lines), fresh)
            &&& match fresh {
                Err(e) => r == Err::<(), AppError>(e),
                Ok(d) => match hunk_refusal(d@, *payload) {
                    Some(e) => outcome(r) == Err::<(), ErrorView>(e),
                    None => exists|patch: &Vec<u8>|
                        patch@ == encode_utf8(patch_text(*payload)) && #[trigger] call_ensures(
                            apply,
                            (patch, target),
                            r,
                        ),
                },
            }
        };
    assert(call_ensures(diff, (p, payload.staged, payload.context_lines), fresh));
}

} // verus!

use git2::{Delta, Diff, DiffFindOptions, DiffLineType, DiffOptions, Patch, Repository};
use gitrx::error::{AppError, AppResult, ErrorKind};
use gitrx::git::apply::{apply_patch, checkout_index_path, ApplyTarget, CommandOutput};
use gitrx::git::commit::{
    commit as commit_with, has_staged_changes, head_commit_message as message_of, signature_error,
    HeadLookup, StagedDelta,
};
use gitrx::git::diff::{
    file_diff as diff_with, language_for_path, DeltaStatus, DiffLineKind, DiffRequest, FileDiff,
    LineOrigin, RawDelta, RawHunk, RawLine, RawPatch,
};
use gitrx::git::patch::{PatchLine, PatchLineKind};
use gitrx::git::repo::{
    build_status as status_of, open_repository, resolve_cli_repo_path as cli_path, stats_request,
    FileStatus, HeadRef, RawRename, RawStats, RawStatus, RepoFacts, RepoStatus,
};
use gitrx::git::stage::{
    apply_hunk_verified as apply_verified, discard_file as discard_steps, stage_file as stage_steps,
    unstage_file as unstage_steps, DiscardStep, HeadTree, IndexStep, TreeFacts,
};
use gitrx::git::{build_patch, HunkPatchPayload};
use gitrx::image::{read_image_data as image_with, FileFacts, ImageData, MAX_IMAGE_BYTES};
use gitrx::watch::{fold_event_paths, path_is_ignored, BurstStats, IgnoreCache, Reason};
use gitrx::windows::{label_for_repo, normalize, resolve_workdir as workdir_with};
use base64::Engine;
use std::cell::Cell;
use std::io::Write;
use std::path::Path;
use tempfile::{tempdir, NamedTempFile, TempDir, TempPath};

// ---- a repository in a temporary directory ----

fn init_repo(dir: &Path) -> Repository {
    let mut opts = git2::RepositoryInitOptions::new();
    opts.initial_head("main");
    let repo = Repository::init_opts(dir, &opts).unwrap();
    let mut cfg = repo.config().unwrap();
    cfg.set_str("user.name", "Test User").unwrap();
    cfg.set_str("user.email", "test@example.com").unwrap();
    repo
}

fn setup() -> (TempDir, Repository) {
    let dir = tempdir().unwrap();
    let repo = init_repo(dir.path());
    (dir, repo)
}

fn write(path: impl AsRef<Path>, content: impl AsRef<[u8]>) {
    let path = path.as_ref();
    let mut file = NamedTempFile::new_in(path.parent().unwrap()).unwrap();
    file.write_all(content.as_ref()).unwrap();
    file.persist(path).unwrap();
}

fn remove_file(path: impl AsRef<Path>) {
    TempPath::try_from_path(path.as_ref()).unwrap().close().unwrap();
}

/// The bytes of a file of the working tree.
fn on_disk(repo: &Repository, name: &str) -> Vec<u8> {
    let full = repo.workdir().unwrap().join(name);
    let id = repo.blob_path(&full).unwrap();
    let blob = repo.find_blob(id).unwrap();
    blob.content().to_vec()
}

fn index_blob(repo: &Repository, name: &str) -> Option<Vec<u8>> {
    let mut index = repo.index().unwrap();
    index.read(true).unwrap();
    let entry = index.get_path(Path::new(name), 0)?;
    let blob = repo.find_blob(entry.id).ok()?;
    Some(blob.content().to_vec())
}

fn commit_bytes(repo: &Repository, dir: &Path, name: &str, content: &[u8]) {
    write(dir.join(name), content);
    let mut index = repo.index().unwrap();
    index.add_path(Path::new(name)).unwrap();
    index.write().unwrap();
    let tree = repo.find_tree(index.write_tree().unwrap()).unwrap();
    let sig = git2::Signature::now("Test User", "test@example.com").unwrap();
    let parent = repo.head().ok().and_then(|h| h.peel_to_commit().ok());
    let parents: Vec<&git2::Commit> = parent.iter().collect();
    repo.commit(Some("HEAD"), &sig, &sig, "commit", &tree, &parents)
        .unwrap();
}

fn commit_file(repo: &Repository, dir: &Path, name: &str, content: &str) {
    commit_bytes(repo, dir, name, content.as_bytes());
}

fn add(repo: &Repository, name: &str) {
    let mut index = repo.index().unwrap();
    index.add_path(Path::new(name)).unwrap();
    index.write().unwrap();
}

/// A diff as git prints it.
fn printed(diff: &Diff) -> String {
    let mut out = Vec::new();
    diff.print(git2::DiffFormat::Patch, |_, _, line| {
        if matches!(line.origin(), '+' | '-' | ' ') {
            out.push(line.origin() as u8);
        }
        out.extend_from_slice(line.content());
        true
    })
    .unwrap();
    String::from_utf8_lossy(&out).into_owned()
}

/// What is staged, as git prints it.
fn staged_text(repo: &Repository) -> String {
    repo.index().unwrap().read(true).unwrap();
    let head_tree = repo.head().ok().and_then(|h| h.peel_to_tree().ok());
    printed(&repo.diff_tree_to_index(head_tree.as_ref(), None, None).unwrap())
}

/// What is not staged, as git prints it.
fn unstaged_text(repo: &Repository) -> String {
    repo.index().unwrap().read(true).unwrap();
    printed(&repo.diff_index_to_workdir(None, None).unwrap())
}

// ---- what libgit2 reports, for the library to decide on ----

fn lossy(path: Option<&Path>) -> Option<String> {
    path.map(|p| p.to_string_lossy().into_owned())
}

fn delta_status(status: Delta) -> DeltaStatus {
    match status {
        Delta::Unmodified => DeltaStatus::Unmodified,
        Delta::Added => DeltaStatus::Added,
        Delta::Deleted => DeltaStatus::Deleted,
        Delta::Modified => DeltaStatus::Modified,
        Delta::Renamed => DeltaStatus::Renamed,
        Delta::Copied => DeltaStatus::Copied,
        Delta::Ignored => DeltaStatus::Ignored,
        Delta::Untracked => DeltaStatus::Untracked,
        Delta::Typechange => DeltaStatus::Typechange,
        Delta::Unreadable => DeltaStatus::Unreadable,
        Delta::Conflicted => DeltaStatus::Conflicted,
    }
}

fn line_origin(origin: DiffLineType) -> LineOrigin {
    match origin {
        DiffLineType::Context => LineOrigin::Context,
        DiffLineType::Addition => LineOrigin::Addition,
        DiffLineType::Deletion => LineOrigin::Deletion,
        DiffLineType::ContextEOFNL => LineOrigin::ContextEofnl,
        DiffLineType::AddEOFNL => LineOrigin::AddEofnl,
        DiffLineType::DeleteEOFNL => LineOrigin::DeleteEofnl,
        DiffLineType::FileHeader => LineOrigin::FileHeader,
        DiffLineType::HunkHeader => LineOrigin::HunkHeader,
        DiffLineType::Binary => LineOrigin::Binary,
    }
}

fn run_diff<'r>(repo: &'r Repository, request: &DiffRequest) -> Result<Diff<'r>, git2::Error> {
    let mut opts = DiffOptions::new();
    opts.context_lines(request.context_lines)
        .include_typechange(true)
        .max_size(request.max_size);
    if let Some(path) = &request.path {
        opts.pathspec(path).disable_pathspec_match(true);
    }
    if request.untracked {
        opts.include_untracked(true)
            .recurse_untracked_dirs(true)
            .show_untracked_content(true);
    }
    let mut diff = if request.staged {
        let head_tree = repo.head().ok().and_then(|h| h.peel_to_tree().ok());
        repo.diff_tree_to_index(head_tree.as_ref(), None, Some(&mut opts))?
    } else {
        repo.diff_index_to_workdir(None, Some(&mut opts))?
    };
    if request.find_renames || request.find_copies {
        let mut find = DiffFindOptions::new();
        find.renames(request.find_renames);
        if request.find_copies {
            find.copies(true);
        }
        diff.find_similar(Some(&mut find))?;
    }
    Ok(diff)
}

fn raw_patch(diff: &Diff, index: usize) -> Result<RawPatch, git2::Error> {
    let patch = Patch::from_diff(diff, index)?;
    let delta = diff.get_delta(index).unwrap();
    let hunks = match &patch {
        None => None,
        Some(patch) => {
            let mut hunks = Vec::new();
            for h in 0..patch.num_hunks() {
                let (hunk, _) = patch.hunk(h)?;
                let mut lines = Vec::new();
                for l in 0..patch.num_lines_in_hunk(h)? {
                    let line = patch.line_in_hunk(h, l)?;
                    lines.push(RawLine {
                        origin: line_origin(line.origin_value()),
                        old_lineno: line.old_lineno(),
                        new_lineno: line.new_lineno(),
                        content: line.content().to_vec(),
                    });
                }
                hunks.push(RawHunk {
                    header: hunk.header().to_vec(),
                    old_start: hunk.old_start(),
                    old_lines: hunk.old_lines(),
                    new_start: hunk.new_start(),
                    new_lines: hunk.new_lines(),
                    lines,
                });
            }
            Some(hunks)
        }
    };
    Ok(RawPatch {
        new_is_binary: delta.new_file().is_binary(),
        old_is_binary: delta.old_file().is_binary(),
        hunks,
    })
}

fn file_diff(
    repo: &Repository,
    path: &str,
    staged: bool,
    context_lines: u32,
) -> AppResult<FileDiff> {
    let scan = |request: &DiffRequest| -> AppResult<Vec<RawDelta>> {
        let diff = run_diff(repo, request)?;
        Ok(diff
            .deltas()
            .map(|d| RawDelta {
                status: delta_status(d.status()),
                new_path: lossy(d.new_file().path()),
                old_path: lossy(d.old_file().path()),
            })
            .collect())
    };
    let patch = |request: &DiffRequest, index: usize| -> AppResult<RawPatch> {
        Ok(raw_patch(&run_diff(repo, request)?, index)?)
    };
    diff_with(path, staged, context_lines, &scan, &patch)
}

fn raw_stats(diff: &Diff) -> Vec<RawStats> {
    diff.deltas()
        .enumerate()
        .map(|(i, delta)| {
            let patch = Patch::from_diff(diff, i).ok().flatten();
            RawStats {
                new_path: lossy(delta.new_file().path()),
                old_path: lossy(delta.old_file().path()),
                new_is_binary: delta.new_file().is_binary(),
                old_is_binary: delta.old_file().is_binary(),
                line_stats: patch
                    .and_then(|p| p.line_stats().ok())
                    .map(|(_, added, deleted)| (added, deleted)),
            }
        })
        .collect()
}

fn facts(repo: &Repository) -> Result<RepoFacts, git2::Error> {
    let mut opts = git2::StatusOptions::new();
    opts.include_untracked(true)
        .recurse_untracked_dirs(true)
        .renames_head_to_index(true)
        .renames_index_to_workdir(true)
        .exclude_submodules(true);
    let rename = |delta: Option<git2::DiffDelta>| {
        delta.map(|d| RawRename {
            new_path: lossy(d.new_file().path()),
            old_path: lossy(d.old_file().path()),
        })
    };
    let statuses = repo
        .statuses(Some(&mut opts))?
        .iter()
        .map(|e| RawStatus {
            bits: e.status().bits(),
            path: e.path().map(str::to_string),
            head_to_index: rename(e.head_to_index()),
            index_to_workdir: rename(e.index_to_workdir()),
        })
        .collect();
    Ok(RepoFacts {
        workdir: lossy(repo.workdir()),
        repo_dir: repo.path().to_string_lossy().into_owned(),
        head: repo.head().map(|h| HeadRef {
            detached: repo.head_detached().unwrap_or(false),
            target: h.target().map(|oid| oid.to_string()),
            shorthand: h.shorthand().map(str::to_string),
        }),
        head_symbolic_target: repo
            .find_reference("HEAD")
            .ok()
            .and_then(|r| r.symbolic_target().map(str::to_string)),
        staged_stats: raw_stats(&run_diff(repo, &stats_request(true))?),
        unstaged_stats: raw_stats(&run_diff(repo, &stats_request(false))?),
        statuses,
    })
}

fn build_status(repo: &Repository) -> AppResult<RepoStatus> {
    Ok(status_of(&facts(repo)?))
}

fn run_index_steps(repo: &Repository, steps: Vec<IndexStep>) -> AppResult<()> {
    let mut index = repo.index()?;
    for step in steps {
        match step {
            IndexStep::Remove(path) => index.remove_path(Path::new(&path))?,
            IndexStep::Add(path) => index.add_path(Path::new(&path))?,
            IndexStep::Put(e) => index.add(&git2::IndexEntry {
                ctime: git2::IndexTime::new(e.ctime_seconds, e.ctime_nanoseconds),
                mtime: git2::IndexTime::new(e.mtime_seconds, e.mtime_nanoseconds),
                dev: e.dev,
                ino: e.ino,
                mode: e.mode,
                uid: e.uid,
                gid: e.gid,
                file_size: e.file_size,
                id: git2::Oid::from_bytes(&e.id)?,
                flags: e.flags,
                flags_extended: e.flags_extended,
                path: e.path,
            })?,
            IndexStep::Write => index.write()?,
        }
    }
    Ok(())
}

fn stage_file(repo: &Repository, path: &str) -> AppResult<()> {
    let status = build_status(repo)?;
    let exists = repo
        .workdir()
        .is_some_and(|w| w.join(path).symlink_metadata().is_ok());
    run_index_steps(repo, stage_steps(path, &status.unstaged, exists))
}

fn unstage_file(repo: &Repository, path: &str) -> AppResult<()> {
    let head = match repo.head() {
        Err(e) => HeadTree::HeadFailed(e),
        Ok(head) => HeadTree::Looked(head.peel_to_tree()?.get_path(Path::new(path)).map(|e| {
            TreeFacts {
                filemode: e.filemode(),
                id: e.id().as_bytes().to_vec(),
            }
        })),
    };
    run_index_steps(repo, unstage_steps(path, head)?)
}

/// Restores a file from the index, as `git checkout-index --force` does.
fn restore(repo: &Repository, args: &Vec<String>) -> AppResult<CommandOutput> {
    assert_eq!(args[..3], ["checkout-index", "--force", "--"]);
    let content = index_blob(repo, &args[3]).unwrap();
    write(repo.workdir().unwrap().join(&args[3]), content);
    Ok(CommandOutput {
        success: true,
        status: "exit status: 0".to_string(),
        stderr: Vec::new(),
    })
}

fn discard_file(repo: &Repository, path: &str) -> AppResult<()> {
    let bits = repo.status_file(Path::new(path))?.bits();
    let status = build_status(repo)?;
    let workdir = lossy(repo.workdir());
    for step in discard_steps(path, bits, &status.unstaged, workdir.as_deref())? {
        match step {
            DiscardStep::Restore(p) => {
                checkout_index_path(&p, &|args: &Vec<String>| restore(repo, args))?
            }
            DiscardStep::Delete(p) => remove_file(repo.workdir().unwrap().join(p)),
        }
    }
    Ok(())
}

/// A patch as `git apply --reverse` takes it: the two sides change places.
fn reversed(patch: &str) -> String {
    let mut out = String::new();
    for line in patch.split_inclusive('\n') {
        if let Some(rest) = line.strip_prefix("@@ -") {
            let (old, rest) = rest.split_once(" +").unwrap();
            let (new, rest) = rest.split_once(" @@").unwrap();
            out.push_str(&format!("@@ -{new} +{old} @@{rest}"));
        } else if line.starts_with("---") || line.starts_with("+++") {
            out.push_str(line);
        } else if let Some(rest) = line.strip_prefix('+') {
            out.push_str(&format!("-{rest}"));
        } else if let Some(rest) = line.strip_prefix('-') {
            out.push_str(&format!("+{rest}"));
        } else {
            out.push_str(line);
        }
    }
    out
}

/// A patch as libgit2 finds the place of a hunk with no lines on the new side: it counts from
/// the first deleted line, where the header names the line before it.
fn placed(patch: &str) -> String {
    let mut out = String::new();
    for line in patch.split_inclusive('\n') {
        match line.split_once(" +") {
            Some((old, new)) if line.starts_with("@@ -") && new.starts_with(|c| c != '0') => {
                match new.split_once(",0 @@") {
                    Some((start, rest)) => {
                        let start: u32 = start.parse().unwrap();
                        out.push_str(&format!("{old} +{},0 @@{rest}", start + 1));
                    }
                    None => out.push_str(line),
                }
            }
            _ => out.push_str(line),
        }
    }
    out
}

/// Applies a patch to the index or, where the target says so, to the working tree, as
/// `git apply` does.
fn apply_to_index(repo: &Repository, patch: &[u8], target: ApplyTarget) -> AppResult<()> {
    let run = |args: &Vec<&'static str>, input: &Vec<u8>| -> AppResult<CommandOutput> {
        assert_eq!(args[0], "apply");
        let place = if args.contains(&"--cached") {
            git2::ApplyLocation::Index
        } else {
            git2::ApplyLocation::WorkDir
        };
        let mut text = String::from_utf8(input.clone()).unwrap();
        if args.contains(&"--reverse") {
            text = reversed(&text);
        }
        if args.contains(&"--unidiff-zero") {
            text = placed(&text);
        }
        let applied =
            Diff::from_buffer(text.as_bytes()).and_then(|diff| repo.apply(&diff, place, None));
        Ok(CommandOutput {
            success: applied.is_ok(),
            status: "exit status: 1".to_string(),
            stderr: applied.map_or_else(|e| e.message().as_bytes().to_vec(), |()| Vec::new()),
        })
    };
    apply_patch(&patch.to_vec(), target, &run)
}

fn apply_hunk_verified(
    repo: &Repository,
    payload: &HunkPatchPayload,
    target: ApplyTarget,
) -> AppResult<()> {
    let workdir = lossy(repo.workdir()).unwrap();
    let diff = |path: &str, staged: bool, context_lines: u32| {
        file_diff(repo, path, staged, context_lines)
    };
    let apply = |patch: &Vec<u8>, target: ApplyTarget| apply_to_index(repo, patch, target);
    apply_verified(&workdir, payload, target, false, diff, apply)
}

fn payload_from_hunk(fd: &FileDiff, hunk: usize, staged: bool) -> HunkPatchPayload {
    payload_from_hunk_ctx(fd, hunk, staged, 3)
}

fn payload_from_hunk_ctx(
    fd: &FileDiff,
    hunk: usize,
    staged: bool,
    context_lines: u32,
) -> HunkPatchPayload {
    let h = &fd.hunks[hunk];
    HunkPatchPayload {
        path: fd.path.clone(),
        old_path: fd.old_path.clone(),
        staged,
        is_untracked: fd.is_untracked,
        context_lines,
        header: h.header.clone(),
        lines: h
            .lines
            .iter()
            .map(|l| PatchLine {
                kind: match l.kind {
                    DiffLineKind::Context => PatchLineKind::Context,
                    DiffLineKind::Add => PatchLineKind::Add,
                    DiffLineKind::Del => PatchLineKind::Del,
                    DiffLineKind::NoNewline => PatchLineKind::NoNewline,
                },
                content: l.content.clone(),
            })
            .collect(),
    }
}

fn staged_deltas(repo: &Repository) -> Result<Vec<StagedDelta>, git2::Error> {
    let head_tree = repo.head().ok().and_then(|h| h.peel_to_tree().ok());
    let mut opts = DiffOptions::new();
    opts.include_typechange(true);
    let diff = repo.diff_tree_to_index(head_tree.as_ref(), None, Some(&mut opts))?;
    Ok(diff
        .deltas()
        .map(|d| StagedDelta {
            new_is_submodule: d.new_file().mode() == git2::FileMode::Commit,
            old_is_submodule: d.old_file().mode() == git2::FileMode::Commit,
        })
        .collect())
}

fn head_lookup(repo: &Repository) -> HeadLookup<git2::Commit<'_>> {
    match repo.head() {
        Ok(head) => match head.peel_to_commit() {
            Ok(commit) => HeadLookup::Found(commit),
            Err(e) => HeadLookup::PeelFailed(e),
        },
        Err(e) => HeadLookup::HeadFailed(e),
    }
}

fn commit(repo: &Repository, message: &str, amend: bool) -> AppResult<String> {
    let write_tree = || -> Result<git2::Tree, git2::Error> {
        let id = repo.index()?.write_tree()?;
        repo.find_tree(id)
    };
    let head = || head_lookup(repo);
    let sign = || repo.signature();
    let staged = || staged_deltas(repo);
    let amend_head = |commit: &git2::Commit,
                      committer: &git2::Signature<'static>,
                      message: &str,
                      tree: &git2::Tree|
     -> Result<String, git2::Error> {
        let id = commit.amend(
            Some("HEAD"),
            None,
            Some(committer),
            None,
            Some(message),
            Some(tree),
        )?;
        Ok(id.to_string())
    };
    let create = |sig: &git2::Signature<'static>,
                  message: &str,
                  tree: &git2::Tree,
                  parent: &Option<git2::Commit>|
     -> Result<String, git2::Error> {
        let parents: Vec<&git2::Commit> = parent.iter().collect();
        let id = repo.commit(Some("HEAD"), sig, sig, message, tree, &parents)?;
        Ok(id.to_string())
    };
    commit_with(
        message,
        amend,
        &write_tree,
        &head,
        &sign,
        &staged,
        &amend_head,
        &create,
    )
}

fn head_commit_message(repo: &Repository) -> AppResult<String> {
    message_of(match head_lookup(repo) {
        HeadLookup::Found(commit) => HeadLookup::Found(commit.message().map(str::to_string)),
        HeadLookup::HeadFailed(e) => HeadLookup::HeadFailed(e),
        HeadLookup::PeelFailed(e) => HeadLookup::PeelFailed(e),
    })
}

fn stage(repo: &Repository, dir: &Path, name: &str, content: &str) {
    write(dir.join(name), content);
    add(repo, name);
}

fn head_commit(repo: &Repository) -> git2::Commit<'_> {
    repo.head().unwrap().peel_to_commit().unwrap()
}

fn index_is_clean(repo: &Repository) -> bool {
    !has_staged_changes(&staged_deltas(repo).unwrap())
}

fn numbered(n: usize) -> String {
    (1..=n).map(|i| format!("line{i}\n")).collect()
}

fn numbered_edited(n: usize, changed: &[usize]) -> String {
    (1..=n)
        .map(|i| {
            if changed.contains(&i) {
                format!("line{i}-changed\n")
            } else {
                format!("line{i}\n")
            }
        })
        .collect()
}

fn twenty_lines() -> String {
    numbered(20)
}

fn twenty_lines_edited() -> String {
    numbered_edited(20, &[5])
}

fn commit_baseline(repo: &Repository, dir: &Path) {
    write(dir.join("a.txt"), "line1\nline2\n");
    write(dir.join("b.txt"), "b1\n");
    let mut index = repo.index().unwrap();
    index.add_path(Path::new("a.txt")).unwrap();
    index.add_path(Path::new("b.txt")).unwrap();
    index.write().unwrap();
    let tree = repo.find_tree(index.write_tree().unwrap()).unwrap();
    let sig = git2::Signature::now("Test User", "test@example.com").unwrap();
    repo.commit(Some("HEAD"), &sig, &sig, "baseline", &tree, &[])
        .unwrap();
}

/// The header of a hunk up to its closing `@@`, without the section behind it.
fn normalize_at_header(h: &str) -> String {
    if let Some(first) = h.find("@@") {
        if let Some(rel) = h[first + 2..].find("@@") {
            return h[..first + 2 + rel + 2].to_string();
        }
    }
    h.to_string()
}

fn normalize_block(block: &str) -> String {
    let mut lines = block.lines();
    let mut out = normalize_at_header(lines.next().unwrap_or(""));
    for l in lines {
        out.push('\n');
        out.push_str(l);
    }
    out
}

/// The hunks of a printed diff.
fn hunk_blocks(diff_text: &str) -> Vec<String> {
    let lines: Vec<&str> = diff_text.lines().collect();
    let starts: Vec<usize> = (0..lines.len())
        .filter(|&i| lines[i].starts_with("@@ "))
        .collect();
    (0..starts.len())
        .map(|k| {
            let end = starts.get(k + 1).copied().unwrap_or(lines.len());
            lines[starts[k]..end].join("\n")
        })
        .collect()
}

const TINY_PNG: &[u8] = &[
    0x89, 0x50, 0x4E, 0x47, 0x0D, 0x0A, 0x1A, 0x0A, 0x00, 0x00, 0x00, 0x0D, 0x49, 0x48, 0x44, 0x52,
    0x00, 0x00, 0x00, 0x01, 0x00, 0x00, 0x00, 0x01, 0x08, 0x06, 0x00, 0x00, 0x00, 0x1F, 0x15, 0xC4,
    0x89, 0x00, 0x00, 0x00, 0x0A, 0x49, 0x44, 0x41, 0x54, 0x78, 0x9C, 0x63, 0x00, 0x01, 0x00, 0x00,
    0x05, 0x00, 0x01, 0x0D, 0x0A, 0x2D, 0xB4, 0x00, 0x00, 0x00, 0x00, 0x49, 0x45, 0x4E, 0x44, 0xAE,
    0x42, 0x60, 0x82,
];

fn read_image_data(
    repo: &Repository,
    path: &str,
    staged: bool,
    max_bytes: usize,
) -> AppResult<ImageData> {
    let workdir = lossy(repo.workdir());
    let stat = |full: &str| -> AppResult<FileFacts> {
        let meta = Path::new(full).symlink_metadata()?;
        Ok(FileFacts {
            is_symlink: meta.file_type().is_symlink(),
            len: meta.len(),
        })
    };
    let read = |full: &str| -> AppResult<Vec<u8>> {
        let blob = repo.find_blob(repo.blob_path(Path::new(full))?)?;
        Ok(blob.content().to_vec())
    };
    let blob = |path: &str| -> AppResult<Option<Vec<u8>>> {
        match repo.index()?.get_path(Path::new(path), 0) {
            Some(entry) => Ok(Some(repo.find_blob(entry.id)?.content().to_vec())),
            None => Ok(None),
        }
    };
    image_with(workdir.as_deref(), path, staged, max_bytes, &stat, &read, &blob)
}

#[test]
fn two_regions_split_by_context() {
    let (dir, repo) = setup();
    // 20-line baseline.
    let base: String = (1..=20).map(|n| format!("line{n}\n")).collect();
    commit_file(&repo, dir.path(), "f.txt", &base);

    // Edit line 3 and line 17 (far apart) -> two separated regions.
    let mut lines: Vec<String> = (1..=20).map(|n| format!("line{n}")).collect();
    lines[2] = "line3-changed".to_string();
    lines[16] = "line17-changed".to_string();
    let edited = lines.join("\n") + "\n";
    write(dir.path().join("f.txt"), &edited);

    let d3 = file_diff(&repo, "f.txt", false, 3).unwrap();
    assert_eq!(d3.hunks.len(), 2, "far-apart edits stay separate at ctx=3");
    assert!(!d3.is_binary);
    assert!(!d3.is_untracked);
    assert_eq!(d3.language.as_deref(), None); // .txt unknown

    // First hunk starts near line 3 (3 lines of leading context => start 1 or so).
    let first = &d3.hunks[0];
    assert!(first.old_start <= 3 && first.new_start <= 3);

    // A del line has new_line_no null + old set; add line the inverse; context both.
    let del = d3
        .hunks
        .iter()
        .flat_map(|h| &h.lines)
        .find(|l| l.kind == DiffLineKind::Del)
        .expect("a deletion");
    assert!(del.new_line_no.is_none() && del.old_line_no.is_some());

    let add = d3
        .hunks
        .iter()
        .flat_map(|h| &h.lines)
        .find(|l| l.kind == DiffLineKind::Add)
        .expect("an addition");
    assert!(add.old_line_no.is_none() && add.new_line_no.is_some());

    let ctx = d3
        .hunks
        .iter()
        .flat_map(|h| &h.lines)
        .find(|l| l.kind == DiffLineKind::Context)
        .expect("a context line");
    assert!(ctx.old_line_no.is_some() && ctx.new_line_no.is_some());

    // With 8 lines of context the two regions merge into one hunk.
    let d8 = file_diff(&repo, "f.txt", false, 8).unwrap();
    assert_eq!(d8.hunks.len(), 1, "wide context merges the regions");
    assert_ne!(d3.hunks.len(), d8.hunks.len());
}

#[test]
fn untracked_file_is_all_additions() {
    let (dir, repo) = setup();
    commit_file(&repo, dir.path(), "seed.txt", "seed\n");

    write(dir.path().join("new.rs"), "a\nb\nc\n");
    let d = file_diff(&repo, "new.rs", false, 3).unwrap();

    assert!(d.is_untracked);
    assert_eq!(d.hunks.len(), 1);
    assert_eq!(d.language.as_deref(), Some("rust"));

    let adds = d.hunks[0]
        .lines
        .iter()
        .filter(|l| l.kind == DiffLineKind::Add)
        .count();
    assert_eq!(adds, 3, "one add per file line");
    assert!(d.hunks[0].lines.iter().all(|l| l.kind == DiffLineKind::Add));
}

#[test]
fn staged_vs_unstaged_separation() {
    let (dir, repo) = setup();
    commit_file(&repo, dir.path(), "s.txt", "one\ntwo\n");

    // Modify + stage.
    write(dir.path().join("s.txt"), "one\ntwo\nthree\n");
    let mut index = repo.index().unwrap();
    index.add_path(Path::new("s.txt")).unwrap();
    index.write().unwrap();

    let staged = file_diff(&repo, "s.txt", true, 3).unwrap();
    assert!(!staged.hunks.is_empty(), "staged diff has the change");

    let unstaged = file_diff(&repo, "s.txt", false, 3).unwrap();
    assert!(
        unstaged.hunks.is_empty(),
        "workdir matches index -> no unstaged hunks"
    );
}

#[test]
fn missing_trailing_newline_emits_marker() {
    let (dir, repo) = setup();
    commit_file(&repo, dir.path(), "n.txt", "alpha\nbeta\n");

    // Rewrite last line without a trailing newline.
    write(dir.path().join("n.txt"), "alpha\nbeta-edited");

    let d = file_diff(&repo, "n.txt", false, 3).unwrap();
    let has_marker = d
        .hunks
        .iter()
        .flat_map(|h| &h.lines)
        .any(|l| l.kind == DiffLineKind::NoNewline);
    assert!(has_marker, "expected a noNewline marker line");

    let marker = d
        .hunks
        .iter()
        .flat_map(|h| &h.lines)
        .find(|l| l.kind == DiffLineKind::NoNewline)
        .unwrap();
    assert_eq!(marker.content, "\\ No newline at end of file");
    assert!(marker.old_line_no.is_none() && marker.new_line_no.is_none());
}

#[test]
fn zero_context_has_no_context_lines() {
    let (dir, repo) = setup();
    let base: String = (1..=10).map(|n| format!("l{n}\n")).collect();
    commit_file(&repo, dir.path(), "z.txt", &base);

    let mut lines: Vec<String> = (1..=10).map(|n| format!("l{n}")).collect();
    lines[4] = "l5-changed".to_string();
    write(dir.path().join("z.txt"), lines.join("\n") + "\n");

    let d = file_diff(&repo, "z.txt", false, 0).unwrap();
    let ctx_count = d
        .hunks
        .iter()
        .flat_map(|h| &h.lines)
        .filter(|l| l.kind == DiffLineKind::Context)
        .count();
    assert_eq!(ctx_count, 0, "context_lines=0 yields no context lines");
}

#[test]
fn bracket_filename_returns_only_its_own_delta() {
    // A literal filename containing glob metacharacters must not
    // pull in a sibling, and querying it must return ITS diff (not a fallback
    // to some unrelated delta at index 0).
    let (dir, repo) = setup();
    commit_file(&repo, dir.path(), "data[1].txt", "orig-bracket\n");
    commit_file(&repo, dir.path(), "data1.txt", "orig-plain\n");
    write(dir.path().join("data[1].txt"), "mod-bracket\n");
    write(dir.path().join("data1.txt"), "mod-plain\n");

    let bracket = file_diff(&repo, "data[1].txt", false, 3).unwrap();
    assert_eq!(bracket.path, "data[1].txt");
    let bracket_content: Vec<_> = bracket
        .hunks
        .iter()
        .flat_map(|h| &h.lines)
        .map(|l| l.content.as_str())
        .collect();
    assert!(
        bracket_content.contains(&"mod-bracket"),
        "{bracket_content:?}"
    );
    assert!(
        !bracket_content.contains(&"mod-plain"),
        "sibling leaked into bracket diff: {bracket_content:?}"
    );

    let plain = file_diff(&repo, "data1.txt", false, 3).unwrap();
    assert_eq!(plain.path, "data1.txt");
    let plain_content: Vec<_> = plain
        .hunks
        .iter()
        .flat_map(|h| &h.lines)
        .map(|l| l.content.as_str())
        .collect();
    assert!(plain_content.contains(&"mod-plain"), "{plain_content:?}");
    assert!(
        !plain_content.contains(&"mod-bracket"),
        "bracket leaked into plain diff: {plain_content:?}"
    );
}

#[test]
fn nonmatching_path_yields_empty_diff_not_a_fallback() {
    // find_delta_index must return None (empty hunks) rather than the first
    // delta when the queried path has no change.
    let (dir, repo) = setup();
    commit_file(&repo, dir.path(), "a.txt", "one\n");
    write(dir.path().join("a.txt"), "one\ntwo\n");

    let d = file_diff(&repo, "b.txt", false, 3).unwrap();
    assert!(d.hunks.is_empty(), "unrelated path must not borrow a diff");
}

#[test]
fn oversized_untracked_file_diffs_as_binary_with_no_hunks() {
    let (dir, repo) = setup();
    commit_file(&repo, dir.path(), "seed.txt", "seed\n");

    // 9 MiB of newlines — over the 8 MiB cap; allocated once.
    let big = "\n".repeat(9 * 1024 * 1024);
    write(dir.path().join("big.txt"), &big);

    let d = file_diff(&repo, "big.txt", false, 3).unwrap();
    assert!(d.is_binary, "oversized file must render as binary");
    assert!(d.hunks.is_empty(), "no text hunks for an oversized file");
}

#[test]
fn oversized_tracked_modification_diffs_as_binary_with_no_hunks() {
    let (dir, repo) = setup();
    commit_file(&repo, dir.path(), "grow.txt", "small\n");

    let big = "\n".repeat(9 * 1024 * 1024);
    write(dir.path().join("grow.txt"), &big);

    let d = file_diff(&repo, "grow.txt", false, 3).unwrap();
    assert!(d.is_binary, "oversized workdir side must render as binary");
    assert!(d.hunks.is_empty());
}

#[test]
fn non_utf8_content_marks_diff_lossy() {
    let (dir, repo) = setup();
    commit_file(&repo, dir.path(), "latin1.txt", "cafe\n");
    write(dir.path().join("latin1.txt"), b"caf\xe9\n");

    let d = file_diff(&repo, "latin1.txt", false, 3).unwrap();
    assert!(d.is_lossy, "non-UTF-8 bytes must flag isLossy");
    assert!(!d.is_binary, "a lone high byte is text, not binary");
    assert!(!d.hunks.is_empty());
}

#[test]
fn valid_utf8_content_is_not_lossy() {
    let (dir, repo) = setup();
    commit_file(&repo, dir.path(), "u.txt", "one\n");
    write(dir.path().join("u.txt"), "one\ntwö\n");

    let d = file_diff(&repo, "u.txt", false, 3).unwrap();
    assert!(
        !d.is_lossy,
        "valid UTF-8 (incl. multibyte) must not be lossy"
    );
}

#[test]
fn staged_rename_reports_old_path_and_edit_body() {
    let (dir, repo) = setup();
    let body: String = (1..=20).map(|n| format!("line{n}\n")).collect();
    commit_file(&repo, dir.path(), "a.txt", &body);

    // Rename on disk + one-line edit, then stage the rename in the index.
    let edited: String = (1..=20)
        .map(|n| {
            if n == 5 {
                "line5-changed\n".to_string()
            } else {
                format!("line{n}\n")
            }
        })
        .collect();
    remove_file(dir.path().join("a.txt"));
    write(dir.path().join("b.txt"), &edited);
    let mut index = repo.index().unwrap();
    index.remove_path(Path::new("a.txt")).unwrap();
    index.add_path(Path::new("b.txt")).unwrap();
    index.write().unwrap();

    let d = file_diff(&repo, "b.txt", true, 3).unwrap();
    assert_eq!(
        d.old_path.as_deref(),
        Some("a.txt"),
        "staged rename must surface old_path"
    );
    let has_del = d
        .hunks
        .iter()
        .flat_map(|h| &h.lines)
        .any(|l| l.kind == DiffLineKind::Del);
    let has_add = d
        .hunks
        .iter()
        .flat_map(|h| &h.lines)
        .any(|l| l.kind == DiffLineKind::Add);
    assert!(
        has_del && has_add,
        "expected a del/add edit body, not a pure-add file"
    );
}

#[test]
fn staged_new_file_has_no_old_path() {
    let (dir, repo) = setup();
    commit_file(&repo, dir.path(), "seed.txt", "seed\n");
    write(dir.path().join("brand-new.txt"), "hello\nworld\n");
    let mut index = repo.index().unwrap();
    index.add_path(Path::new("brand-new.txt")).unwrap();
    index.write().unwrap();

    let d = file_diff(&repo, "brand-new.txt", true, 3).unwrap();
    assert!(d.old_path.is_none(), "a new file must not report a rename");
    assert!(!d.hunks.is_empty());
}

#[test]
fn language_mapping() {
    assert_eq!(language_for_path("a/b.rs").as_deref(), Some("rust"));
    assert_eq!(language_for_path("x.tsx").as_deref(), Some("tsx"));
    assert_eq!(
        language_for_path("Dockerfile").as_deref(),
        Some("dockerfile")
    );
    assert_eq!(language_for_path("Makefile").as_deref(), Some("make"));
    assert_eq!(language_for_path("h.hpp").as_deref(), Some("cpp"));
    assert_eq!(language_for_path("s.unknownext"), None);
}

#[test]
fn splits_staged_unstaged_and_untracked() {
    let dir = tempdir().unwrap();
    let repo = init_repo(dir.path());
    commit_baseline(&repo, dir.path());

    // Unstaged modification to a.txt.
    write(dir.path().join("a.txt"), "line1\nline2\nline3\n");

    // Staged modification to b.txt (write + add so index differs from HEAD
    // and workdir matches index -> staged only).
    write(dir.path().join("b.txt"), "b1\nb2\n");
    let mut index = repo.index().unwrap();
    index.add_path(Path::new("b.txt")).unwrap();
    index.write().unwrap();

    // Untracked c.txt with three lines.
    write(dir.path().join("c.txt"), "c1\nc2\nc3\n");

    let status = build_status(&repo).unwrap();

    assert!(status.head_has_commits);
    assert_eq!(status.branch, "main");
    assert_eq!(
        status.repo_name,
        dir.path().file_name().unwrap().to_string_lossy()
    );
    // repo_path is the canonical working-tree path (git2 appends a trailing
    // separator to the workdir), so compare against the resolved workdir.
    assert_eq!(status.repo_path, repo.workdir().unwrap().to_string_lossy());

    let a = status
        .unstaged
        .iter()
        .find(|e| e.path == "a.txt")
        .expect("a.txt unstaged");
    assert_eq!(a.status, FileStatus::Modified);
    assert!(!a.staged);

    let c = status
        .unstaged
        .iter()
        .find(|e| e.path == "c.txt")
        .expect("c.txt unstaged");
    assert_eq!(c.status, FileStatus::Untracked);
    assert_eq!(c.additions, 3);
    assert_eq!(c.deletions, 0);
    assert!(!c.is_binary);

    let b = status
        .staged
        .iter()
        .find(|e| e.path == "b.txt")
        .expect("b.txt staged");
    assert_eq!(b.status, FileStatus::Modified);
    assert!(b.staged);

    // b.txt must NOT appear unstaged (workdir == index).
    assert!(status.unstaged.iter().all(|e| e.path != "b.txt"));
}

#[test]
fn unstaged_sorts_tracked_before_untracked_each_alphabetical() {
    let dir = tempdir().unwrap();
    let repo = init_repo(dir.path());
    // Baseline commits two tracked files (a.txt, b.txt).
    commit_baseline(&repo, dir.path());

    // Modify both tracked files so they appear unstaged, out of alpha order on
    // disk-write order to prove the sort — write b before a intentionally.
    write(dir.path().join("b.txt"), "b1\nb2\n");
    write(dir.path().join("a.txt"), "line1\nline2\nline3\n");

    // Two untracked files, again written out of order (z before m) to prove the
    // within-group alphabetical sort.
    write(dir.path().join("z.txt"), "z\n");
    write(dir.path().join("m.txt"), "m\n");

    let status = build_status(&repo).unwrap();

    // Tracked (alphabetical) first, then untracked (alphabetical).
    let paths: Vec<&str> = status.unstaged.iter().map(|e| e.path.as_str()).collect();
    assert_eq!(paths, vec!["a.txt", "b.txt", "m.txt", "z.txt"]);

    // The first two are tracked (Modified), the last two untracked.
    assert_eq!(status.unstaged[0].status, FileStatus::Modified);
    assert_eq!(status.unstaged[1].status, FileStatus::Modified);
    assert_eq!(status.unstaged[2].status, FileStatus::Untracked);
    assert_eq!(status.unstaged[3].status, FileStatus::Untracked);
}

#[test]
fn oversized_untracked_file_is_binary_with_zero_stats() {
    let dir = tempdir().unwrap();
    let repo = init_repo(dir.path());
    commit_baseline(&repo, dir.path());

    // 9 MiB of newlines — over the 8 MiB diff cap. Allocated once (not built
    // in a hot push loop) to keep the fixture memory-light.
    let big = "\n".repeat(9 * 1024 * 1024);
    write(dir.path().join("big.txt"), &big);

    let status = build_status(&repo).unwrap();
    let e = status
        .unstaged
        .iter()
        .find(|e| e.path == "big.txt")
        .expect("big.txt untracked");
    assert_eq!(e.status, FileStatus::Untracked);
    assert!(e.is_binary, "oversized untracked file must report binary");
    assert_eq!(e.additions, 0);
    assert_eq!(e.deletions, 0);
}

#[test]
fn oversized_tracked_modification_is_binary_with_zero_stats() {
    let dir = tempdir().unwrap();
    let repo = init_repo(dir.path());
    commit_baseline(&repo, dir.path());

    // Grow tracked a.txt (small, non-binary at HEAD) past the cap in the
    // working tree: the workdir side of the unstaged diff exceeds max_size.
    let big = "\n".repeat(9 * 1024 * 1024);
    write(dir.path().join("a.txt"), &big);

    let status = build_status(&repo).unwrap();
    let e = status
        .unstaged
        .iter()
        .find(|e| e.path == "a.txt")
        .expect("a.txt modified");
    assert_eq!(e.status, FileStatus::Modified);
    assert!(e.is_binary, "oversized modification must report binary");
    assert_eq!(e.additions, 0);
    assert_eq!(e.deletions, 0);
}

#[test]
fn empty_repo_reports_unborn_head() {
    let dir = tempdir().unwrap();
    let repo = init_repo(dir.path());

    write(dir.path().join("u.txt"), "u1\n");

    let status = build_status(&repo).unwrap();

    assert!(!status.head_has_commits);
    assert_eq!(status.branch, "main");
    assert!(status
        .unstaged
        .iter()
        .any(|e| e.path == "u.txt" && e.status == FileStatus::Untracked));
    assert!(status.staged.is_empty());
}

#[test]
fn stage_modified_file_moves_it_to_staged() {
    let (dir, repo) = setup();
    commit_file(&repo, dir.path(), "a.txt", "line1\n");

    write(dir.path().join("a.txt"), "line1\nline2\n");

    stage_file(&repo, "a.txt").unwrap();

    let status = build_status(&repo).unwrap();
    let staged = status
        .staged
        .iter()
        .find(|e| e.path == "a.txt")
        .expect("a.txt staged");
    assert_eq!(staged.status, FileStatus::Modified);
    assert!(status.unstaged.iter().all(|e| e.path != "a.txt"));
}

#[test]
fn stage_deleted_file_records_deletion() {
    let (dir, repo) = setup();
    commit_file(&repo, dir.path(), "a.txt", "line1\n");

    remove_file(dir.path().join("a.txt"));

    stage_file(&repo, "a.txt").unwrap();

    let status = build_status(&repo).unwrap();
    let staged = status
        .staged
        .iter()
        .find(|e| e.path == "a.txt")
        .expect("a.txt staged as deleted");
    assert_eq!(staged.status, FileStatus::Deleted);
    assert!(status.unstaged.iter().all(|e| e.path != "a.txt"));
}

#[test]
fn unstage_returns_change_to_unstaged() {
    let (dir, repo) = setup();
    commit_file(&repo, dir.path(), "a.txt", "line1\n");

    // Modify and stage.
    write(dir.path().join("a.txt"), "line1\nline2\n");
    stage_file(&repo, "a.txt").unwrap();

    unstage_file(&repo, "a.txt").unwrap();

    let status = build_status(&repo).unwrap();
    assert!(status.staged.iter().all(|e| e.path != "a.txt"));
    let unstaged = status
        .unstaged
        .iter()
        .find(|e| e.path == "a.txt")
        .expect("a.txt back in unstaged");
    assert_eq!(unstaged.status, FileStatus::Modified);
}

#[test]
fn unstage_on_unborn_head_untracks_file() {
    let (dir, repo) = setup();

    write(dir.path().join("new.txt"), "hello\n");
    stage_file(&repo, "new.txt").unwrap();

    // Confirm it staged as new before unstaging.
    let staged = build_status(&repo).unwrap();
    assert!(staged.staged.iter().any(|e| e.path == "new.txt"));

    unstage_file(&repo, "new.txt").unwrap();

    let status = build_status(&repo).unwrap();
    assert!(status.staged.iter().all(|e| e.path != "new.txt"));
    let unstaged = status
        .unstaged
        .iter()
        .find(|e| e.path == "new.txt")
        .expect("new.txt untracked");
    assert_eq!(unstaged.status, FileStatus::Untracked);
}

#[test]
fn discard_tracked_reverts_workdir_but_keeps_staged() {
    let (dir, repo) = setup();
    commit_file(&repo, dir.path(), "a.txt", "l1\nl2\nl3\n");

    // Stage a change to line 1.
    write(dir.path().join("a.txt"), "L1\nl2\nl3\n");
    stage_file(&repo, "a.txt").unwrap();

    // Then make a further, unstaged change to line 3.
    write(dir.path().join("a.txt"), "L1\nl2\nL3\n");

    discard_file(&repo, "a.txt").unwrap();

    // Working tree reverts to the *index* content (staged line 1 kept, the
    // unstaged line 3 edit discarded).
    let on_disk = String::from_utf8(on_disk(&repo, "a.txt")).unwrap();
    assert_eq!(on_disk, "L1\nl2\nl3\n");

    let status = build_status(&repo).unwrap();
    // Staged half survives.
    let staged = status
        .staged
        .iter()
        .find(|e| e.path == "a.txt")
        .expect("staged change survives discard");
    assert_eq!(staged.status, FileStatus::Modified);
    // No unstaged change remains.
    assert!(status.unstaged.iter().all(|e| e.path != "a.txt"));
}

#[test]
fn discard_untracked_deletes_from_disk() {
    let (dir, repo) = setup();
    commit_file(&repo, dir.path(), "seed.txt", "seed\n");

    let untracked = dir.path().join("u.txt");
    write(&untracked, "temp\n");
    assert!(untracked.exists());

    discard_file(&repo, "u.txt").unwrap();

    assert!(!untracked.exists());
    let status = build_status(&repo).unwrap();
    assert!(status.unstaged.iter().all(|e| e.path != "u.txt"));
}

#[test]
fn discard_bracket_filename_reverts_only_that_file() {
    // A filename with glob metacharacters must be discarded
    // literally. The sibling `data1.txt` (which the class `[1]` would match)
    // must be left untouched.
    let (dir, repo) = setup();
    commit_file(&repo, dir.path(), "data[1].txt", "orig-bracket\n");
    commit_file(&repo, dir.path(), "data1.txt", "orig-plain\n");

    write(dir.path().join("data[1].txt"), "mod-bracket\n");
    write(dir.path().join("data1.txt"), "mod-plain\n");

    discard_file(&repo, "data[1].txt").unwrap();

    // Only the bracket file was reverted (to its index/HEAD content).
    assert_eq!(
        String::from_utf8(on_disk(&repo, "data[1].txt")).unwrap(),
        "orig-bracket\n"
    );
    // The sibling that a glob would have swept up is untouched.
    assert_eq!(
        String::from_utf8(on_disk(&repo, "data1.txt")).unwrap(),
        "mod-plain\n"
    );
}

#[test]
fn unstage_bracket_filename_unstages_only_that_file() {
    let (dir, repo) = setup();
    commit_file(&repo, dir.path(), "data[1].txt", "orig-bracket\n");
    commit_file(&repo, dir.path(), "data1.txt", "orig-plain\n");

    // Modify + stage both.
    write(dir.path().join("data[1].txt"), "mod-bracket\n");
    write(dir.path().join("data1.txt"), "mod-plain\n");
    stage_file(&repo, "data[1].txt").unwrap();
    stage_file(&repo, "data1.txt").unwrap();
    let before = build_status(&repo).unwrap();
    assert!(before.staged.iter().any(|e| e.path == "data[1].txt"));
    assert!(before.staged.iter().any(|e| e.path == "data1.txt"));

    unstage_file(&repo, "data[1].txt").unwrap();

    let status = build_status(&repo).unwrap();
    // Only the bracket file returned to unstaged.
    assert!(status.staged.iter().all(|e| e.path != "data[1].txt"));
    let unstaged = status
        .unstaged
        .iter()
        .find(|e| e.path == "data[1].txt")
        .expect("bracket file back in unstaged");
    assert_eq!(unstaged.status, FileStatus::Modified);
    // The sibling a glob would have swept up stays staged.
    assert!(
        status.staged.iter().any(|e| e.path == "data1.txt"),
        "sibling must remain staged"
    );
    assert!(status.unstaged.iter().all(|e| e.path != "data1.txt"));
}

#[test]
fn unstage_added_since_head_returns_to_untracked() {
    let (dir, repo) = setup();
    commit_file(&repo, dir.path(), "seed.txt", "seed\n");
    write(dir.path().join("fresh.txt"), "new\n");
    stage_file(&repo, "fresh.txt").unwrap();

    unstage_file(&repo, "fresh.txt").unwrap();

    let status = build_status(&repo).unwrap();
    assert!(status.staged.iter().all(|e| e.path != "fresh.txt"));
    let unstaged = status
        .unstaged
        .iter()
        .find(|e| e.path == "fresh.txt")
        .expect("fresh.txt back to untracked");
    assert_eq!(unstaged.status, FileStatus::Untracked);
}

#[test]
fn discard_workdir_rename_restores_original_and_removes_new() {
    let (dir, repo) = setup();
    let body = twenty_lines();
    commit_file(&repo, dir.path(), "a.txt", &body);

    // Working-tree rename a.txt -> b.txt with an edit; index still has a.txt.
    remove_file(dir.path().join("a.txt"));
    write(dir.path().join("b.txt"), twenty_lines_edited());

    // Precondition: the UI sees this as a rename on the new side.
    let before = build_status(&repo).unwrap();
    let ren = before
        .unstaged
        .iter()
        .find(|e| e.path == "b.txt")
        .expect("b.txt present");
    assert_eq!(ren.status, FileStatus::Renamed);
    assert_eq!(ren.old_path.as_deref(), Some("a.txt"));

    discard_file(&repo, "b.txt").unwrap();

    assert_eq!(
        String::from_utf8(on_disk(&repo, "a.txt")).unwrap(),
        body,
        "the file is restored to its index content"
    );
    assert!(
        !dir.path().join("b.txt").exists(),
        "the renamed file must be removed"
    );
}

#[test]
fn stage_workdir_rename_stages_atomically() {
    let (dir, repo) = setup();
    commit_file(&repo, dir.path(), "a.txt", &twenty_lines());

    remove_file(dir.path().join("a.txt"));
    let new_body = twenty_lines_edited();
    write(dir.path().join("b.txt"), &new_body);

    stage_file(&repo, "b.txt").unwrap();

    // Index: a.txt gone, b.txt present with the new content.
    let mut index = repo.index().unwrap();
    index.read(true).unwrap();
    assert!(
        index.get_path(Path::new("a.txt"), 0).is_none(),
        "old path must be removed from the index"
    );
    let entry = index
        .get_path(Path::new("b.txt"), 0)
        .expect("new path staged");
    let blob = repo.find_blob(entry.id).unwrap();
    assert_eq!(blob.content(), new_body.as_bytes());

    // Working tree untouched by the staging.
    assert!(dir.path().join("b.txt").exists());
    assert!(
        !dir.path().join("a.txt").exists(),
        "staging a rename must not touch the working tree"
    );

    // build_status now reports a staged rename.
    let status = build_status(&repo).unwrap();
    let staged = status
        .staged
        .iter()
        .find(|e| e.path == "b.txt")
        .expect("b.txt staged");
    assert_eq!(staged.status, FileStatus::Renamed);
    assert_eq!(staged.old_path.as_deref(), Some("a.txt"));
}

#[test]
fn commits_staged_changes_and_leaves_index_clean() {
    let (dir, repo) = setup();
    // Root commit so HEAD exists, then stage a second file.
    stage(&repo, dir.path(), "a.txt", "a\n");
    commit(&repo, "root", false).unwrap();
    stage(&repo, dir.path(), "b.txt", "b\n");

    let oid = commit(&repo, "add b", false).unwrap();

    let head = head_commit(&repo);
    assert_eq!(head.id().to_string(), oid);
    assert_eq!(head.message(), Some("add b"));
    assert_eq!(head.parent_count(), 1);
    // Nothing left staged relative to the new HEAD.
    assert!(index_is_clean(&repo));
}

#[test]
fn first_commit_on_unborn_head_works() {
    let (dir, repo) = setup();
    stage(&repo, dir.path(), "a.txt", "a\n");

    let oid = commit(&repo, "initial", false).unwrap();

    let head = head_commit(&repo);
    assert_eq!(head.id().to_string(), oid);
    assert_eq!(head.parent_count(), 0);
    assert_eq!(head.message(), Some("initial"));
    assert!(index_is_clean(&repo));
}

#[test]
fn amend_rewrites_message_and_includes_newly_staged_file() {
    let (dir, repo) = setup();
    stage(&repo, dir.path(), "a.txt", "a\n");
    commit(&repo, "first", false).unwrap();
    let before = head_commit(&repo);
    let parents_before = before.parent_count();

    // Stage a new file, then amend with a new message.
    stage(&repo, dir.path(), "b.txt", "b\n");
    let oid = commit(&repo, "first (amended)", true).unwrap();

    let head = head_commit(&repo);
    assert_eq!(head.id().to_string(), oid);
    assert_eq!(head.message(), Some("first (amended)"));
    // Parent count unchanged (root commit still has zero parents).
    assert_eq!(head.parent_count(), parents_before);
    // The newly staged file is part of the amended tree.
    let tree = head.tree().unwrap();
    assert!(tree.get_name("b.txt").is_some());
    assert!(index_is_clean(&repo));
}

#[test]
fn amend_allows_message_only_edit_with_nothing_new_staged() {
    let (dir, repo) = setup();
    stage(&repo, dir.path(), "a.txt", "a\n");
    commit(&repo, "typo", false).unwrap();

    // No new staging — amend just the message.
    let oid = commit(&repo, "fixed message", true).unwrap();

    assert_eq!(head_commit(&repo).id().to_string(), oid);
    assert_eq!(head_commit(&repo).message(), Some("fixed message"));
}

#[test]
fn empty_message_is_rejected() {
    let (dir, repo) = setup();
    stage(&repo, dir.path(), "a.txt", "a\n");

    let err = commit(&repo, "   \n\t", false).unwrap_err();
    assert!(matches!(err, AppError::EmptyMessage { .. }), "{err:?}");
    assert!(err.to_string().to_lowercase().contains("empty"));
}

#[test]
fn nothing_staged_is_rejected_for_non_amend() {
    let (dir, repo) = setup();
    stage(&repo, dir.path(), "a.txt", "a\n");
    commit(&repo, "root", false).unwrap();

    // Index now matches HEAD — nothing staged.
    let err = commit(&repo, "empty", false).unwrap_err();
    assert!(matches!(err, AppError::NothingStaged { .. }), "{err:?}");
    assert!(err.to_string().contains("No staged changes"));
}

#[test]
fn amend_on_unborn_head_errors_clearly() {
    let (_dir, repo) = setup();

    let err = commit(&repo, "cannot", true).unwrap_err();
    assert!(err.to_string().to_lowercase().contains("amend"));
}

#[test]
fn head_commit_message_returns_full_message() {
    let (dir, repo) = setup();
    stage(&repo, dir.path(), "a.txt", "a\n");
    commit(&repo, "subject line\n\nbody paragraph\n", false).unwrap();

    assert_eq!(
        head_commit_message(&repo).unwrap(),
        "subject line\n\nbody paragraph\n"
    );
}

#[test]
fn head_commit_message_is_empty_on_unborn_head() {
    let (_dir, repo) = setup();
    assert_eq!(head_commit_message(&repo).unwrap(), "");
}

#[test]
fn stages_only_the_selected_middle_hunk() {
    let (dir, repo) = setup();
    commit_file(&repo, dir.path(), "f.txt", &numbered(30));
    // Three far-apart edits -> three separate hunks at context 3.
    write(dir.path().join("f.txt"), numbered_edited(30, &[3, 15, 27]));

    let fd = file_diff(&repo, "f.txt", false, 3).unwrap();
    assert_eq!(fd.hunks.len(), 3, "expected three separate hunks");

    let payload = payload_from_hunk(&fd, 1, false);
    let bytes = build_patch(&payload).unwrap();
    apply_to_index(&repo, &bytes, ApplyTarget::Index).unwrap();

    // Only hunk 2 (line15) is staged.
    let cached = staged_text(&repo);
    assert!(cached.contains("+line15-changed"), "staged: {cached}");
    assert!(cached.contains("-line15"), "staged: {cached}");
    assert!(!cached.contains("line3-changed"), "hunk1 leaked: {cached}");
    assert!(!cached.contains("line27-changed"), "hunk3 leaked: {cached}");

    // Hunks 1 and 3 remain unstaged in the working tree.
    let unstaged = unstaged_text(&repo);
    assert!(unstaged.contains("+line3-changed"), "unstaged: {unstaged}");
    assert!(unstaged.contains("+line27-changed"), "unstaged: {unstaged}");
    assert!(
        !unstaged.contains("line15-changed"),
        "hunk2 still unstaged: {unstaged}"
    );
}

#[test]
fn first_and_last_line_hunks_apply_at_ctx_0_and_3() {
    for ctx in [0u32, 3u32] {
        // First line edited.
        let (dir, repo) = setup();
        commit_file(&repo, dir.path(), "f.txt", &numbered(10));
        write(dir.path().join("f.txt"), numbered_edited(10, &[1]));
        let fd = file_diff(&repo, "f.txt", false, ctx).unwrap();
        let p = payload_from_hunk(&fd, 0, false);
        apply_to_index(&repo, &build_patch(&p).unwrap(), ApplyTarget::Index)
            .unwrap_or_else(|e| panic!("first-line ctx={ctx} failed: {e:?}"));
        let cached = staged_text(&repo);
        assert!(cached.contains("+line1-changed"), "ctx={ctx}: {cached}");

        // Last line edited (fresh repo).
        let (dir, repo) = setup();
        commit_file(&repo, dir.path(), "g.txt", &numbered(10));
        write(dir.path().join("g.txt"), numbered_edited(10, &[10]));
        let fd = file_diff(&repo, "g.txt", false, ctx).unwrap();
        let p = payload_from_hunk(&fd, 0, false);
        apply_to_index(&repo, &build_patch(&p).unwrap(), ApplyTarget::Index)
            .unwrap_or_else(|e| panic!("last-line ctx={ctx} failed: {e:?}"));
        let cached = staged_text(&repo);
        assert!(cached.contains("+line10-changed"), "ctx={ctx}: {cached}");
    }
}

#[test]
fn pure_addition_hunk_stages_cleanly() {
    let (dir, repo) = setup();
    commit_file(&repo, dir.path(), "f.txt", "a\nb\nc\n");
    // Insert two lines between b and c -> pure addition.
    write(dir.path().join("f.txt"), "a\nb\nNEW1\nNEW2\nc\n");

    let fd = file_diff(&repo, "f.txt", false, 0).unwrap();
    let p = payload_from_hunk(&fd, 0, false);
    // Sanity: the recomputed header carries a ,0 old side.
    let text = String::from_utf8(build_patch(&p).unwrap()).unwrap();
    assert!(
        text.contains(",0 +"),
        "expected zero old-count header: {text}"
    );

    apply_to_index(&repo, text.as_bytes(), ApplyTarget::Index).unwrap();
    let cached = staged_text(&repo);
    assert!(cached.contains("+NEW1"));
    assert!(cached.contains("+NEW2"));
}

#[test]
fn gaining_no_trailing_newline_round_trips() {
    let (dir, repo) = setup();
    commit_file(&repo, dir.path(), "n.txt", "x\ny\n");
    // Edit last line AND drop the final newline.
    write(dir.path().join("n.txt"), "x\nyEDIT");

    let fd = file_diff(&repo, "n.txt", false, 3).unwrap();
    assert!(
        fd.hunks[0]
            .lines
            .iter()
            .any(|l| l.kind == DiffLineKind::NoNewline),
        "diff should carry a no-newline marker"
    );
    let p = payload_from_hunk(&fd, 0, false);
    apply_to_index(&repo, &build_patch(&p).unwrap(), ApplyTarget::Index).unwrap();

    // Staged blob has no trailing newline, matching the working tree bytes.
    assert_eq!(index_blob(&repo, "n.txt").unwrap(), b"x\nyEDIT");
}

#[test]
fn editing_a_file_that_had_no_trailing_newline_round_trips() {
    let (dir, repo) = setup();
    // Baseline itself lacks a trailing newline.
    commit_bytes(&repo, dir.path(), "n.txt", b"x\ny");
    // Edit the last line, still no trailing newline.
    write(dir.path().join("n.txt"), "x\nyEDIT");

    let fd = file_diff(&repo, "n.txt", false, 3).unwrap();
    let p = payload_from_hunk(&fd, 0, false);
    apply_to_index(&repo, &build_patch(&p).unwrap(), ApplyTarget::Index).unwrap();

    assert_eq!(index_blob(&repo, "n.txt").unwrap(), b"x\nyEDIT");
}

#[test]
fn crlf_verbatim_payload_from_diff_layer_stages_cleanly() {
    // The payload is built directly from file_diff output, with no CR restored.
    let (dir, repo) = setup();
    commit_bytes(&repo, dir.path(), "c.txt", b"a\r\nb\r\nc\r\nd\r\ne\r\n");
    let workdir_bytes = b"a\r\nb\r\nCHANGED\r\nd\r\ne\r\n";
    write(dir.path().join("c.txt"), workdir_bytes);

    let fd = file_diff(&repo, "c.txt", false, 3).unwrap();
    assert!(
        fd.hunks[0].lines.iter().all(|l| l.content.ends_with('\r')),
        "diff layer must preserve trailing \\r in CRLF line content"
    );

    let payload = payload_from_hunk(&fd, 0, false);
    apply_to_index(
        &repo,
        &build_patch(&payload).unwrap(),
        ApplyTarget::Index,
    )
    .unwrap();
    assert_eq!(
        index_blob(&repo, "c.txt").unwrap(),
        workdir_bytes.to_vec(),
        "staged CRLF bytes must match the working tree exactly"
    );
}

#[test]
fn crlf_round_trips_byte_exact_when_cr_preserved() {
    let (dir, repo) = setup();
    commit_bytes(&repo, dir.path(), "c.txt", b"a\r\nb\r\nc\r\nd\r\ne\r\n");
    let workdir_bytes = b"a\r\nb\r\nCHANGED\r\nd\r\ne\r\n";
    write(dir.path().join("c.txt"), workdir_bytes);

    let fd = file_diff(&repo, "c.txt", false, 3).unwrap();
    let payload = payload_from_hunk(&fd, 0, false);

    // The rebuilt patch must contain CR-terminated body lines.
    let bytes = build_patch(&payload).unwrap();
    assert!(
        bytes.windows(10).any(|w| w == b"+CHANGED\r\n"),
        "patch lost CR: {:?}",
        String::from_utf8_lossy(&bytes)
    );

    apply_to_index(&repo, &bytes, ApplyTarget::Index).unwrap();
    assert_eq!(
        index_blob(&repo, "c.txt").unwrap(),
        workdir_bytes.to_vec(),
        "staged CRLF bytes must match the working tree exactly"
    );
}

#[test]
fn untracked_file_stages_full_content_via_stage_file() {
    let (dir, repo) = setup();
    commit_file(&repo, dir.path(), "seed.txt", "seed\n");
    write(dir.path().join("u.txt"), "u1\nu2\nu3\n");

    let fd = file_diff(&repo, "u.txt", false, 3).unwrap();
    assert!(fd.is_untracked, "file is untracked");

    // The synthesized-patch path must refuse an untracked payload outright.
    let p = payload_from_hunk(&fd, 0, false);
    assert!(
        build_patch(&p).is_err(),
        "untracked payload must be rejected"
    );
    assert!(
        apply_hunk_verified(&repo, &p, ApplyTarget::Index).is_err(),
        "verified pipeline must refuse untracked files"
    );

    // The correct path: whole-file staging preserves the exact bytes.
    stage_file(&repo, "u.txt").unwrap();
    assert_eq!(index_blob(&repo, "u.txt").unwrap(), b"u1\nu2\nu3\n");
}

#[test]
fn untracked_file_without_trailing_newline_stages_full_content_via_stage_file() {
    let (dir, repo) = setup();
    commit_file(&repo, dir.path(), "seed.txt", "seed\n");
    write(dir.path().join("u.txt"), "u1\nu2\nu3"); // no final newline

    let fd = file_diff(&repo, "u.txt", false, 3).unwrap();
    assert!(fd.is_untracked);
    assert!(
        fd.hunks[0]
            .lines
            .iter()
            .any(|l| l.kind == DiffLineKind::NoNewline),
        "untracked no-newline file should carry the marker"
    );

    stage_file(&repo, "u.txt").unwrap();
    assert_eq!(index_blob(&repo, "u.txt").unwrap(), b"u1\nu2\nu3");
}

#[test]
fn context_zero_hunk_applies_like_context_eight() {
    let (dir, repo) = setup();
    commit_file(&repo, dir.path(), "f.txt", &numbered(20));
    write(dir.path().join("f.txt"), numbered_edited(20, &[4, 16]));

    // ctx 0 -> two tight hunks; ctx 8 -> regions merge into one.
    let fd0 = file_diff(&repo, "f.txt", false, 0).unwrap();
    let fd8 = file_diff(&repo, "f.txt", false, 8).unwrap();
    assert_eq!(fd0.hunks.len(), 2, "ctx0 keeps regions separate");
    assert_eq!(fd8.hunks.len(), 1, "ctx8 merges regions");

    // Stage the first small ctx-0 hunk.
    let p = payload_from_hunk(&fd0, 0, false);
    apply_to_index(&repo, &build_patch(&p).unwrap(), ApplyTarget::Index).unwrap();
    let cached = staged_text(&repo);
    assert!(
        cached.contains("+line4-changed"),
        "ctx0 hunk staged: {cached}"
    );
    assert!(
        !cached.contains("line16-changed"),
        "second region leaked: {cached}"
    );
}

#[test]
fn build_patch_matches_git_hunk_slice_byte_for_byte() {
    let (dir, repo) = setup();
    commit_file(&repo, dir.path(), "f.txt", &numbered(30));
    write(dir.path().join("f.txt"), numbered_edited(30, &[3, 15, 27]));

    let fd = file_diff(&repo, "f.txt", false, 3).unwrap();
    let git_diff = unstaged_text(&repo);
    let git_hunks = hunk_blocks(&git_diff);
    assert_eq!(git_hunks.len(), fd.hunks.len(), "hunk counts agree");

    for (i, git_hunk) in git_hunks.iter().enumerate() {
        let p = payload_from_hunk(&fd, i, false);
        let mine = String::from_utf8(build_patch(&p).unwrap()).unwrap();
        // Isolate the single @@ block from my patch (everything from `@@ ` on).
        let mine_block = hunk_blocks(&mine).pop().expect("my patch has a hunk");
        assert_eq!(
            normalize_block(&mine_block),
            normalize_block(git_hunk),
            "hunk {i} must match git's own slice"
        );
    }
}

#[test]
fn corrupt_payload_returns_git_error() {
    let (dir, repo) = setup();
    commit_file(&repo, dir.path(), "f.txt", &numbered(10));
    write(dir.path().join("f.txt"), numbered_edited(10, &[5]));

    let fd = file_diff(&repo, "f.txt", false, 3).unwrap();
    let mut p = payload_from_hunk(&fd, 0, false);
    // Corrupt a context line so it no longer matches the blob.
    for line in &mut p.lines {
        if line.kind == PatchLineKind::Context {
            line.content = "totally-wrong-context".to_string();
            break;
        }
    }

    let err = apply_to_index(&repo, &build_patch(&p).unwrap(), ApplyTarget::Index)
        .expect_err("corrupt patch must fail");
    assert!(matches!(err, AppError::Git { .. }), "{err:?}");
    let msg = err.to_string();
    assert!(
        msg.contains("apply"),
        "message should carry git apply stderr: {msg}"
    );
}

#[test]
fn verified_apply_stages_the_selected_hunk() {
    let (dir, repo) = setup();
    commit_file(&repo, dir.path(), "f.txt", &numbered(30));
    write(dir.path().join("f.txt"), numbered_edited(30, &[15]));

    let fd = file_diff(&repo, "f.txt", false, 3).unwrap();
    let payload = payload_from_hunk_ctx(&fd, 0, false, 3);

    apply_hunk_verified(&repo, &payload, ApplyTarget::Index).unwrap();
    let cached = staged_text(&repo);
    assert!(cached.contains("+line15-changed"), "staged: {cached}");
}

#[test]
fn stale_zero_context_insertion_is_rejected_and_index_untouched() {
    let (dir, repo) = setup();
    commit_file(&repo, dir.path(), "f.txt", &numbered(20));

    // Pure insertion after line 10 (no context at ctx 0).
    let mut inserted: Vec<String> = (1..=20).map(|n| format!("line{n}")).collect();
    inserted.insert(10, "INSERTED".to_string());
    write(dir.path().join("f.txt"), inserted.join("\n") + "\n");

    let fd = file_diff(&repo, "f.txt", false, 0).unwrap();
    let payload = payload_from_hunk_ctx(&fd, 0, false, 0);

    // Now the file shifts under us: prepend a line so every line number moves.
    let mut shifted: Vec<String> = (1..=20).map(|n| format!("line{n}")).collect();
    shifted.insert(0, "PREPENDED".to_string());
    shifted.insert(11, "INSERTED".to_string());
    write(dir.path().join("f.txt"), shifted.join("\n") + "\n");

    let err = apply_hunk_verified(&repo, &payload, ApplyTarget::Index)
        .expect_err("stale hunk must be rejected");
    assert!(matches!(err, AppError::StaleHunk { .. }), "{err:?}");
    assert!(
        err.to_string().contains("changed since"),
        "expected a freshness error, got: {err:?}"
    );

    // Index untouched — nothing was staged.
    let cached = staged_text(&repo);
    assert!(
        cached.trim().is_empty(),
        "index must be untouched: {cached}"
    );
}

#[test]
fn double_apply_second_call_is_rejected_by_freshness() {
    let (dir, repo) = setup();
    commit_file(&repo, dir.path(), "f.txt", &numbered(30));
    write(dir.path().join("f.txt"), numbered_edited(30, &[15]));

    let fd = file_diff(&repo, "f.txt", false, 3).unwrap();
    let payload = payload_from_hunk_ctx(&fd, 0, false, 3);

    apply_hunk_verified(&repo, &payload, ApplyTarget::Index).unwrap();
    let cached_after_first = staged_text(&repo);
    assert!(cached_after_first.contains("+line15-changed"));

    let err = apply_hunk_verified(&repo, &payload, ApplyTarget::Index)
        .expect_err("second apply must be rejected by the freshness check");
    assert!(matches!(err, AppError::StaleHunk { .. }), "{err:?}");
    assert!(
        err.to_string().contains("changed since"),
        "expected a freshness error, got: {err:?}"
    );

    let cached_after_second = staged_text(&repo);
    assert_eq!(
        cached_after_first, cached_after_second,
        "a rejected second apply must not change the index"
    );
}

#[test]
fn forged_old_path_is_rejected_and_victim_untouched() {
    let (dir, repo) = setup();
    commit_file(&repo, dir.path(), "f.txt", &numbered(10));
    commit_file(&repo, dir.path(), "victim.txt", "keep me\n");
    write(dir.path().join("f.txt"), numbered_edited(10, &[5]));

    let fd = file_diff(&repo, "f.txt", false, 3).unwrap();
    let mut payload = payload_from_hunk_ctx(&fd, 0, false, 3);
    payload.old_path = Some("victim.txt".to_string());

    let err = apply_hunk_verified(&repo, &payload, ApplyTarget::Index)
        .expect_err("forged old_path must be rejected");
    assert!(matches!(err, AppError::StaleHunk { .. }), "{err:?}");
    assert!(
        err.to_string().contains("changed since"),
        "expected a freshness-style rejection, got: {err:?}"
    );

    // Victim still holds its committed blob (not stage-deleted).
    assert_eq!(index_blob(&repo, "victim.txt").unwrap(), b"keep me\n");
    let cached = staged_text(&repo);
    assert!(
        cached.trim().is_empty(),
        "index must be untouched: {cached}"
    );
}

#[test]
fn non_utf8_hunk_apply_is_rejected() {
    let (dir, repo) = setup();
    commit_bytes(&repo, dir.path(), "l.txt", b"cafe\n");
    write(dir.path().join("l.txt"), b"caf\xe9\n");

    let fd = file_diff(&repo, "l.txt", false, 3).unwrap();
    assert!(fd.is_lossy, "diff must flag non-UTF-8 as lossy");
    let payload = payload_from_hunk_ctx(&fd, 0, false, 3);

    let err = apply_hunk_verified(&repo, &payload, ApplyTarget::Index)
        .expect_err("lossy hunk must be rejected");
    assert!(matches!(err, AppError::NonUtf8File { .. }), "{err:?}");
    assert!(
        err.to_string().contains("non-UTF-8"),
        "expected a non-UTF-8 rejection, got: {err:?}"
    );

    let cached = staged_text(&repo);
    assert!(
        cached.trim().is_empty(),
        "index must be untouched: {cached}"
    );
}

#[test]
fn non_utf8_file_stages_whole_file_byte_exact() {
    let (dir, repo) = setup();
    commit_bytes(&repo, dir.path(), "l.txt", b"cafe\n");
    let raw: &[u8] = b"caf\xe9\nsecond\xff line\n";
    write(dir.path().join("l.txt"), raw);

    stage_file(&repo, "l.txt").unwrap();
    assert_eq!(
        index_blob(&repo, "l.txt").unwrap(),
        raw.to_vec(),
        "whole-file staging must preserve the exact bytes"
    );
}

#[test]
fn spaces_and_unicode_filename_round_trips_via_verified() {
    let (dir, repo) = setup();
    let name = "my file é.txt";
    commit_file(&repo, dir.path(), name, &numbered(10));
    write(dir.path().join(name), numbered_edited(10, &[5]));

    let fd = file_diff(&repo, name, false, 3).unwrap();
    assert_eq!(fd.path, name);
    let payload = payload_from_hunk_ctx(&fd, 0, false, 3);

    apply_hunk_verified(&repo, &payload, ApplyTarget::Index).unwrap();
    let cached = staged_text(&repo);
    assert!(cached.contains("+line5-changed"), "staged: {cached}");
}

#[test]
fn apply_to_index_stages_change() {
    let (dir, repo) = setup();
    commit_file(&repo, dir.path(), "f.txt", "a\nb\nc\n");
    write(dir.path().join("f.txt"), "a\nB\nc\n");

    let patch = b"diff --git a/f.txt b/f.txt\n--- a/f.txt\n+++ b/f.txt\n@@ -1,3 +1,3 @@\n a\n-b\n+B\n c\n";
    apply_to_index(&repo, patch, ApplyTarget::Index).unwrap();

    // The index blob now reflects the staged edit; the index is read from disk.
    let mut index = repo.index().unwrap();
    index.read(true).unwrap();
    let entry = index.get_path(Path::new("f.txt"), 0).unwrap();
    let idx_blob = repo.find_blob(entry.id).unwrap();
    assert_eq!(idx_blob.content(), b"a\nB\nc\n");
}

#[test]
fn failed_apply_surfaces_git_stderr() {
    let (dir, repo) = setup();
    commit_file(&repo, dir.path(), "f.txt", "a\nb\nc\n");

    // Context line "WRONG" does not match the file -> git refuses.
    let patch = b"diff --git a/f.txt b/f.txt\n--- a/f.txt\n+++ b/f.txt\n@@ -1,3 +1,3 @@\n WRONG\n-b\n+B\n c\n";
    let err = apply_to_index(&repo, patch, ApplyTarget::Index).unwrap_err();
    let msg = err.to_string();
    assert!(
        msg.contains("apply"),
        "message should mention git apply: {msg}"
    );
}

#[test]
fn reads_workdir_png_and_encodes_base64() {
    let (dir, repo) = setup();
    write(dir.path().join("pic.png"), TINY_PNG);

    let data = read_image_data(&repo, "pic.png", false, MAX_IMAGE_BYTES).unwrap();
    assert_eq!(data.mime_type, "image/png");

    let decoded = base64::engine::general_purpose::STANDARD
        .decode(data.base64.as_bytes())
        .unwrap();
    assert_eq!(decoded, TINY_PNG);
}

#[test]
fn reads_staged_blob_round_trip() {
    let (dir, repo) = setup();
    write(dir.path().join("pic.png"), TINY_PNG);

    // Stage it so the index carries the blob, then overwrite the working
    // copy to prove the staged read comes from the index, not the disk file.
    let mut index = repo.index().unwrap();
    index.add_path(Path::new("pic.png")).unwrap();
    index.write().unwrap();
    write(dir.path().join("pic.png"), b"clobbered-not-an-image");

    let staged = read_image_data(&repo, "pic.png", true, MAX_IMAGE_BYTES).unwrap();
    let decoded = base64::engine::general_purpose::STANDARD
        .decode(staged.base64.as_bytes())
        .unwrap();
    assert_eq!(
        decoded, TINY_PNG,
        "staged read must come from the index blob"
    );
}

#[test]
fn rejects_extension_not_in_allow_list() {
    let (dir, repo) = setup();
    write(dir.path().join("data.txt"), b"hello");
    assert!(read_image_data(&repo, "data.txt", false, MAX_IMAGE_BYTES).is_err());
}

#[test]
fn enforces_size_cap_via_lowered_threshold() {
    // Faking the 20 MB case with a tiny threshold keeps the test fast; the
    // cap logic is identical regardless of the numeric limit.
    let (dir, repo) = setup();
    write(dir.path().join("big.png"), TINY_PNG);

    let err = read_image_data(&repo, "big.png", false, 8)
        .unwrap_err()
        .to_string();
    assert!(err.contains("too large"), "{err:?}");

    // Staged path enforces the same cap.
    let mut index = repo.index().unwrap();
    index.add_path(Path::new("big.png")).unwrap();
    index.write().unwrap();
    let err = read_image_data(&repo, "big.png", true, 8)
        .unwrap_err()
        .to_string();
    assert!(err.contains("too large"), "{err:?}");
}

/// A repository whose `.gitignore` excludes `target/` and `*.log`.
fn ignore_repo() -> (TempDir, Repository) {
    let dir = tempdir().unwrap();
    let repo = Repository::init(dir.path()).unwrap();
    write(
        repo.workdir().unwrap().join(".gitignore"),
        "target/\n*.log\n",
    );
    (dir, repo)
}

/// What a burst on these paths of the repository comes to, by its real ignore rules.
fn fold_real(repo: &Repository, names: &[&str]) -> (Option<Reason>, usize) {
    let workdir = lossy(repo.workdir()).unwrap();
    let git_dir = lossy(Some(repo.path())).unwrap();
    let is_ignored = |path: &str| {
        path_is_ignored(Some(&workdir), path, &|q: &str| repo.is_path_ignored(q))
    };
    let paths: Vec<String> = names.iter().map(|n| format!("{workdir}{n}")).collect();
    let mut cache = IgnoreCache::default();
    let mut pending = None;
    let mut stats = BurstStats::default();
    fold_event_paths(
        &git_dir,
        &workdir,
        &is_ignored,
        &mut cache,
        &paths,
        &mut pending,
        &mut stats,
    );
    (pending, stats.kept)
}

#[test]
fn real_ignored_build_and_log_churn_produce_no_reason() {
    let (_dir, repo) = ignore_repo();
    assert_eq!(fold_real(&repo, &["target/debug/foo.o", "build.log"]).0, None);
}

#[test]
fn real_non_ignored_source_edit_is_fs() {
    let (_dir, repo) = ignore_repo();
    assert_eq!(fold_real(&repo, &["src/main.rs"]).0, Some(Reason::Fs));
}

#[test]
fn real_mixed_ignored_and_real_lets_the_real_win() {
    let (_dir, repo) = ignore_repo();
    assert_eq!(
        fold_real(&repo, &["target/debug/foo.o", "build.log", "src/main.rs"]).0,
        Some(Reason::Fs)
    );
}

#[test]
fn real_gitignore_change_itself_is_fs() {
    let (_dir, repo) = ignore_repo();
    assert_eq!(fold_real(&repo, &[".gitignore"]).0, Some(Reason::Fs));
}

#[test]
fn real_file_pattern_ignore_in_subdir_keeps_the_sibling() {
    let (_dir, repo) = ignore_repo();
    assert_eq!(
        fold_real(&repo, &["src/debug.log", "src/main.rs"]),
        (Some(Reason::Fs), 1)
    );
}

fn resolve_workdir(path: &Path) -> AppResult<String> {
    let repo = open_repository(path.to_str().unwrap(), Repository::discover(path))?;
    let canonicalize = |p: &str| {
        let full = Path::new(p).canonicalize().ok()?;
        Some(full.to_str()?.to_string())
    };
    Ok(workdir_with(
        lossy(repo.workdir()),
        lossy(Some(repo.path())).unwrap(),
        &canonicalize,
    ))
}

#[test]
fn resolve_workdir_maps_root_and_subdir_to_same_key() {
    let (dir, _repo) = setup();
    let root = dir.path().canonicalize().unwrap();
    let named = |name: &str, parent: &Path| {
        tempfile::Builder::new()
            .prefix(name)
            .rand_bytes(0)
            .tempdir_in(parent)
            .unwrap()
    };
    let src = named("src", &root);
    let deep = named("deep", src.path());
    let from_root = resolve_workdir(&root).unwrap();
    let from_sub = resolve_workdir(deep.path()).unwrap();
    assert_eq!(normalize(&from_root), normalize(&from_sub));
    assert_eq!(normalize(&from_root), normalize(root.to_str().unwrap()));
    assert_eq!(label_for_repo(&from_root), label_for_repo(&from_sub));
}

fn resolve_cli_repo_path(arg: &str) -> AppResult<String> {
    let resolved = match Path::new(arg).canonicalize() {
        Ok(full) => Ok((full.to_str().unwrap().to_string(), full.is_dir())),
        Err(e) => Err(e.to_string()),
    };
    cli_path(arg, resolved)
}

#[test]
fn resolve_cli_repo_path_rejects_missing_and_files() {
    let dir = tempdir().unwrap();
    let missing = dir.path().join("does-not-exist");
    let err = resolve_cli_repo_path(missing.to_str().unwrap()).unwrap_err();
    assert_eq!(err.kind(), ErrorKind::Validation);
    assert!(err.to_string().starts_with("Cannot resolve path '"));

    let file = dir.path().join("a.txt");
    write(&file, "x");
    let err = resolve_cli_repo_path(file.to_str().unwrap()).unwrap_err();
    assert!(err.to_string().starts_with("Not a directory: "));

    let found = resolve_cli_repo_path(&format!("{}/.", dir.path().display())).unwrap();
    assert_eq!(Path::new(&found), dir.path().canonicalize().unwrap());
}

/// A bare repository has the name of its directory; a branch without commits is named by what
/// HEAD points at, and a detached HEAD by its commit.
#[test]
fn names_and_branches() {
    let dir = tempdir().unwrap();
    let bare = Repository::init_bare(dir.path().join("store.git")).unwrap();
    let status = build_status_of_bare(&bare);
    assert_eq!(status.0, "store.git");

    let (dir, repo) = setup();
    commit_file(&repo, dir.path(), "a.txt", "a\n");
    let id = head_commit(&repo).id();
    repo.set_head_detached(id).unwrap();
    let status = build_status(&repo).unwrap();
    assert_eq!(status.branch, format!("(detached: {})", &id.to_string()[..7]));
    assert!(status.head_has_commits);
}

fn build_status_of_bare(repo: &Repository) -> (String, bool) {
    let facts = RepoFacts {
        workdir: lossy(repo.workdir()),
        repo_dir: lossy(Some(repo.path())).unwrap(),
        head: Err(repo.head().err().unwrap()),
        head_symbolic_target: None,
        staged_stats: Vec::new(),
        unstaged_stats: Vec::new(),
        statuses: Vec::new(),
    };
    let status = status_of(&facts);
    assert_eq!(status.repo_path, facts.repo_dir);
    assert_eq!(status.branch, "HEAD");
    (status.repo_name, status.head_has_commits)
}

/// A staged submodule alone does not make a commit possible, and a missing identity is told by
/// the code and the class of the failure.
#[test]
fn commits_look_at_codes_and_modes() {
    let delta = |new_is_submodule, old_is_submodule| StagedDelta {
        new_is_submodule,
        old_is_submodule,
    };
    assert!(!has_staged_changes(&vec![delta(true, false), delta(false, true)]));
    assert!(has_staged_changes(&vec![delta(true, true), delta(false, false)]));
    assert!(!has_staged_changes(&vec![]));
    let failure = |code, class| git2::Error::new(code, class, "config value was not found");
    assert_eq!(
        signature_error(failure(git2::ErrorCode::NotFound, git2::ErrorClass::Config)).kind(),
        ErrorKind::IdentityMissing
    );
    assert_eq!(
        signature_error(failure(git2::ErrorCode::NotFound, git2::ErrorClass::Os)).kind(),
        ErrorKind::Git
    );
    assert_eq!(
        signature_error(failure(git2::ErrorCode::Invalid, git2::ErrorClass::Config)).kind(),
        ErrorKind::Git
    );
}

/// The failure of a step ends a commit, and nothing is made after it.
#[test]
fn failed_steps_end_a_commit() {
    let tree = || -> Result<u8, git2::Error> { Ok(1) };
    let no_tree = || -> Result<u8, git2::Error> { Err(git2::Error::from_str("no tree")) };
    let head = || -> HeadLookup<u8> { HeadLookup::Found(2) };
    let lost = || -> HeadLookup<u8> { HeadLookup::PeelFailed(git2::Error::from_str("lost")) };
    let sign = || -> Result<u8, git2::Error> { Ok(3) };
    let staged = || -> Result<Vec<StagedDelta>, git2::Error> {
        Ok(vec![StagedDelta {
            new_is_submodule: false,
            old_is_submodule: false,
        }])
    };
    let amend = |c: &u8, s: &u8, m: &str, t: &u8| -> Result<String, git2::Error> {
        Ok(format!("amend {c} {s} {m} {t}"))
    };
    let create = |s: &u8, m: &str, t: &u8, p: &Option<u8>| -> Result<String, git2::Error> {
        Ok(format!("create {s} {m} {t} {p:?}"))
    };
    let run = |amends: bool| commit_with("m", amends, &tree, &head, &sign, &staged, &amend, &create);
    assert_eq!(run(true).unwrap(), "amend 2 3 m 1");
    assert_eq!(run(false).unwrap(), "create 3 m 1 Some(2)");
    let err = commit_with("m", false, &no_tree, &head, &sign, &staged, &amend, &create);
    assert_eq!(err.unwrap_err().to_string(), "Git error: no tree");
    for amends in [true, false] {
        let err = commit_with("m", amends, &tree, &lost, &sign, &staged, &amend, &create);
        assert_eq!(err.unwrap_err().to_string(), "Git error: lost");
    }
}

#[test]
fn pure_deletion_hunk_stages_cleanly() {
    let (dir, repo) = setup();
    commit_file(&repo, dir.path(), "f.txt", "a\nb\nc\nd\ne\n");
    // Delete c and d -> pure deletion.
    write(dir.path().join("f.txt"), "a\nb\ne\n");

    let fd = file_diff(&repo, "f.txt", false, 0).unwrap();
    let p = payload_from_hunk(&fd, 0, false);
    let text = String::from_utf8(build_patch(&p).unwrap()).unwrap();
    assert!(
        text.contains(",0 @@"),
        "expected zero new-count header: {text}"
    );

    apply_to_index(&repo, text.as_bytes(), ApplyTarget::Index).unwrap();
    let cached = staged_text(&repo);
    assert!(cached.contains("-c"));
    assert!(cached.contains("-d"));
}

#[test]
fn stage_then_unstage_leaves_index_clean() {
    let (dir, repo) = setup();
    commit_file(&repo, dir.path(), "f.txt", &numbered(30));
    write(dir.path().join("f.txt"), numbered_edited(30, &[3, 15, 27]));

    // Stage hunk 2 from the unstaged diff.
    let fd = file_diff(&repo, "f.txt", false, 3).unwrap();
    let stage_payload = payload_from_hunk(&fd, 1, false);
    apply_to_index(
        &repo,
        &build_patch(&stage_payload).unwrap(),
        ApplyTarget::Index,
    )
    .unwrap();
    assert!(
        staged_text(&repo).contains("line15-changed"),
        "precondition: hunk staged"
    );

    // Unstage it, regenerating the payload from the STAGED diff.
    let staged_fd = file_diff(&repo, "f.txt", true, 3).unwrap();
    assert_eq!(staged_fd.hunks.len(), 1, "one staged hunk");
    let unstage_payload = payload_from_hunk(&staged_fd, 0, true);
    apply_to_index(
        &repo,
        &build_patch(&unstage_payload).unwrap(),
        ApplyTarget::IndexReverse,
    )
    .unwrap();

    let cached_after = staged_text(&repo);
    assert!(
        cached_after.trim().is_empty(),
        "index should be clean: {cached_after}"
    );
}

#[test]
fn discard_reverts_only_the_selected_region() {
    let (dir, repo) = setup();
    commit_file(&repo, dir.path(), "f.txt", &numbered(30));
    write(dir.path().join("f.txt"), numbered_edited(30, &[3, 15, 27]));

    let fd = file_diff(&repo, "f.txt", false, 3).unwrap();
    let payload = payload_from_hunk(&fd, 0, false); // hunk 1 (line3)
    apply_to_index(
        &repo,
        &build_patch(&payload).unwrap(),
        ApplyTarget::WorkdirReverse,
    )
    .unwrap();

    let content = String::from_utf8(on_disk(&repo, "f.txt")).unwrap();
    assert!(content.contains("line3\n"), "line3 reverted: {content}");
    assert!(
        !content.contains("line3-changed"),
        "line3 still changed: {content}"
    );
    // Other regions untouched.
    assert!(content.contains("line15-changed"), "line15 preserved");
    assert!(content.contains("line27-changed"), "line27 preserved");
}

/// A hunk that is refused is never handed to git, and one that is accepted is handed over once.
#[test]
fn only_an_accepted_hunk_is_handed_to_git() {
    let (dir, repo) = setup();
    commit_file(&repo, dir.path(), "f.txt", "a\nb\nc\n");
    write(dir.path().join("f.txt"), "a\nB\nc\n");
    let fd = file_diff(&repo, "f.txt", false, 3).unwrap();
    let good = payload_from_hunk(&fd, 0, false);
    let mut stale = good.clone();
    stale.lines[0].content = "forged".to_string();
    let calls = Cell::new(0);
    let run = |payload: &HunkPatchPayload| {
        apply_verified(
            "/repo",
            payload,
            ApplyTarget::Index,
            false,
            |path: &str, staged: bool, context: u32| file_diff(&repo, path, staged, context),
            |patch: &Vec<u8>, _: ApplyTarget| -> AppResult<()> {
                assert_eq!(*patch, build_patch(payload).unwrap());
                calls.set(calls.get() + 1);
                Ok(())
            },
        )
    };
    assert_eq!(run(&stale).unwrap_err().kind(), ErrorKind::StaleHunk);
    assert_eq!(calls.get(), 0);
    run(&good).unwrap();
    assert_eq!(calls.get(), 1);
}

/// A commit that is refused makes nothing and rewrites nothing.
#[test]
fn refused_commits_leave_head_alone() {
    let unborn = || {
        git2::Error::new(
            git2::ErrorCode::UnbornBranch,
            git2::ErrorClass::Reference,
            "unborn",
        )
    };
    let made = Cell::new(0);
    let run = |message: &str, amends: bool, nothing: bool, signs: bool| {
        commit_with(
            message,
            amends,
            || -> Result<u8, git2::Error> { Ok(1) },
            || -> HeadLookup<u8> { HeadLookup::HeadFailed(unborn()) },
            || -> Result<u8, git2::Error> {
                if signs {
                    Ok(3)
                } else {
                    Err(git2::Error::new(
                        git2::ErrorCode::NotFound,
                        git2::ErrorClass::Config,
                        "no name",
                    ))
                }
            },
            || -> Result<Vec<StagedDelta>, git2::Error> {
                Ok(vec![StagedDelta {
                    new_is_submodule: nothing,
                    old_is_submodule: false,
                }])
            },
            |_: &u8, _: &u8, _: &str, _: &u8| -> Result<String, git2::Error> {
                made.set(made.get() + 1);
                Ok("amended".to_string())
            },
            |_: &u8, _: &str, _: &u8, parent: &Option<u8>| -> Result<String, git2::Error> {
                assert_eq!(*parent, None);
                made.set(made.get() + 1);
                Ok("created".to_string())
            },
        )
    };
    assert_eq!(run(" ", false, false, true).unwrap_err().kind(), ErrorKind::EmptyMessage);
    assert_eq!(run("m", true, false, true).unwrap_err().kind(), ErrorKind::Validation);
    assert_eq!(run("m", false, true, true).unwrap_err().kind(), ErrorKind::NothingStaged);
    assert_eq!(run("m", false, false, false).unwrap_err().kind(), ErrorKind::IdentityMissing);
    assert_eq!(made.get(), 0);
    assert_eq!(run("m", false, false, true).unwrap(), "created");
    assert_eq!(made.get(), 1);
}

#[test]
fn line_counts_come_from_the_whole_side() {
    for staged in [true, false] {
        let request = stats_request(staged);
        assert_eq!(request.staged, staged);
        assert_eq!(request.untracked, !staged);
        assert_eq!(request.path, None);
        assert!(!request.find_renames && !request.find_copies);
        assert_eq!((request.context_lines, request.max_size), (3, 8 * 1024 * 1024));
    }
}

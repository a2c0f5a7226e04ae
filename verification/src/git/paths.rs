//! Validation of repository-relative paths.
//!
//! Every path that a caller hands in passes [`validate_repo_relative_path`] before it reaches
//! git, the file system or a patch.

use crate::error::{outcome, AppError, AppResult, ErrorKind, ErrorView};
use crate::pathname::{
    absolute, components, head, is_absolute, is_name, lemma_names_member, lemma_names_push,
    lemma_under_components, names, split_path, under,
};
use crate::text::{
    chars_of, contains_char, join2, just, owned, pieces, same_text, text_range, texts,
};
use vstd::prelude::*;

verus! {

/// Whether a text holds a character that would end a line or a string.
pub open spec fn has_line_break_or_nul(s: Seq<char>) -> bool {
    s.contains('\n') || s.contains('\0')
}

/// Whether `s` holds a character that would end a line or a string.
pub fn breaks_line(s: &str) -> (r: bool)
    ensures
        r == has_line_break_or_nul(s@),
{
    contains_char(s, '\n') || contains_char(s, '\0')
}

/// A path as its separators are read: on Windows a `\\` separates as a `/` does, elsewhere it is
/// a character like any other.
pub open spec fn spelled(path: Seq<char>, windows: bool) -> Seq<char> {
    if windows {
        path.map_values(
            |c: char|
                if c == '\\' {
                    '/'
                } else {
                    c
                },
        )
    } else {
        path
    }
}

/// Whether a path names a drive, as in `C:`, on a platform that has drives.
pub open spec fn has_drive(path: Seq<char>, windows: bool) -> bool {
    &&& windows
    &&& path.len() >= 2
    &&& path[1] == ':'
    &&& ('a' <= path[0] <= 'z' || 'A' <= path[0] <= 'Z')
}

/// Whether a path does not depend on the directory it is taken from: it starts at a root, which
/// on Windows may be that of a server, or names a drive.
pub open spec fn rooted(path: Seq<char>, windows: bool) -> bool {
    absolute(spelled(path, windows)) || has_drive(path, windows)
}

/// `path` with its separators spelled `/`.
fn spell(path: &str, windows: bool) -> (r: String)
    ensures
        r@ == spelled(path@, windows),
{
    if !windows {
        return owned(path);
    }
    let cs = chars_of(path);
    let mut out: Vec<char> = Vec::new();
    let mut i: usize = 0;
    while i < cs.len()
        invariant
            0 <= i <= cs@.len(),
            windows,
            cs@ == path@,
            out@ == spelled(path@, windows).take(i as int),
        decreases cs@.len() - i,
    {
        if cs[i] == '\\' {
            out.push('/');
        } else {
            out.push(cs[i]);
        }
        i += 1;
        assert(out@ =~= spelled(path@, windows).take(i as int));
    }
    assert(out@ =~= spelled(path@, windows));
    assert(out@.subrange(0, out@.len() as int) =~= out@);
    text_range(&out, 0, out.len())
}

/// Whether `path` does not depend on the directory it is taken from.
fn is_rooted(path: &str, windows: bool) -> (r: bool)
    ensures
        r == rooted(path@, windows),
{
    let s = spell(path, windows);
    if is_absolute(s.as_str()) {
        return true;
    }
    let cs = chars_of(path);
    windows && cs.len() >= 2 && cs[1] == ':' && (('a' <= cs[0] && cs[0] <= 'z') || ('A' <= cs[0]
        && cs[0] <= 'Z'))
}

/// Why a repository-relative path is refused; nothing when it is safe.
///
/// Where a path is both absolute and climbs, the component that comes first decides: a root or a
/// drive always does.
pub open spec fn path_refusal(path: Seq<char>, windows: bool) -> Option<ErrorView> {
    if path.len() == 0 {
        Some((ErrorKind::Validation, "Path must not be empty"@))
    } else if has_line_break_or_nul(path) {
        Some((ErrorKind::Validation, "Path must not contain newline or NUL characters"@))
    } else if rooted(path, windows) {
        Some((ErrorKind::Validation, "Path must be relative: "@ + path))
    } else if components(spelled(path, windows)).contains(".."@) {
        Some((ErrorKind::Validation, "Path must not contain a '..' component: "@ + path))
    } else {
        None
    }
}

/// Rejects any path that is not a safe repository-relative path: the empty path, an absolute
/// one, one that climbs through `..` anywhere, and one with a newline or NUL. Where `windows`,
/// separators and drives are those of that platform.
///
/// The rules look at the path alone; the working directory is not read.
pub fn validate_repo_relative_path(_workdir: &str, path: &str, windows: bool) -> (r: AppResult<()>)
    ensures
        outcome(r) == (match path_refusal(path@, windows) {
            Some(e) => Err(e),
            None => Ok(()),
        }),
{
    if path.is_empty() {
        assert(path@.len() == 0);
        return Err(AppError::validation("Path must not be empty"));
    }
    assert(path@.len() > 0);
    if breaks_line(path) {
        return Err(AppError::validation("Path must not contain newline or NUL characters"));
    }
    let s = spell(path, windows);
    let c = split_path(s.as_str());
    if is_rooted(path, windows) {
        let m = join2("Path must be relative: ", path);
        return Err(AppError::validation(m.as_str()));
    }
    let mut i: usize = 0;
    while i < c.len()
        invariant
            0 <= i <= c@.len(),
            texts(c@) == components(spelled(path@, windows)),
            forall|j: int| 0 <= j < i ==> texts(c@)[j] != ".."@,
            path@.len() > 0,
            !has_line_break_or_nul(path@),
            !rooted(path@, windows),
        decreases c@.len() - i,
    {
        assert(texts(c@)[i as int] == c@[i as int]@);
        if same_text(c[i].as_str(), "..") {
            assert(components(spelled(path@, windows))[i as int] == ".."@);
            let m = join2("Path must not contain a '..' component: ", path);
            return Err(AppError::validation(m.as_str()));
        }
        i += 1;
    }
    Ok(())
}

/// An accepted path stays inside the working tree: put under the working directory, it has the
/// directory's components, then its own names, none of which climbs. On Windows it names no
/// drive either.
pub proof fn law_accepted_path_stays_inside(workdir: Seq<char>, path: Seq<char>, windows: bool)
    requires
        workdir.len() > 0,
        path_refusal(path, windows) is None,
    ensures
        ({
            let all = components(under(workdir, spelled(path, windows)));
            &&& components(workdir).is_prefix_of(all)
            &&& forall|i: int|
                components(workdir).len() <= i < all.len() ==> is_name(#[trigger] all[i]) && all[i]
                    != ".."@
        }),
        !has_drive(path, windows),
{
    let rel = spelled(path, windows);
    lemma_under_components(workdir, rel);
    let w = components(workdir);
    let own = names(pieces(rel, just('/')));
    let h = head(rel).len() as int;
    let all = components(under(workdir, rel));
    assert(all.take(w.len() as int) =~= w);
    assert forall|i: int| w.len() <= i < all.len() implies is_name(#[trigger] all[i]) && all[i]
        != ".."@ by {
        assert(all[i] == own[i - w.len()]);
        assert(components(rel)[h + i - w.len()] == own[i - w.len()]);
        lemma_names_member(pieces(rel, just('/')), i - w.len());
    }
}

/// Where paths are separated by `/` alone, a path is accepted exactly where it is not empty, holds
/// no newline or NUL, does not start with a separator, and no piece between separators, at
/// whatever depth, is `..`.
pub proof fn law_safe_paths(workdir: &str, path: &str, r: AppResult<()>)
    requires
        call_ensures(validate_repo_relative_path, (workdir, path, false), r),
    ensures
        r is Ok <==> {
            &&& path@.len() > 0
            &&& !path@.contains('\n')
            &&& !path@.contains('\0')
            &&& path@[0] != '/'
            &&& !pieces(path@, just('/')).contains(".."@)
        },
        r matches Err(e) ==> e@.0 == ErrorKind::Validation,
{
    lemma_climbing(path@);
}

/// On Windows a path is accepted exactly where it is not empty, holds no newline or NUL, starts
/// with neither separator nor with the letter of a drive, and no piece between separators of
/// either kind is `..`.
pub proof fn law_safe_paths_on_windows(workdir: &str, path: &str, r: AppResult<()>)
    requires
        call_ensures(validate_repo_relative_path, (workdir, path, true), r),
    ensures
        r is Ok <==> {
            &&& path@.len() > 0
            &&& !path@.contains('\n')
            &&& !path@.contains('\0')
            &&& path@[0] != '/' && path@[0] != '\\'
            &&& !(path@.len() >= 2 && path@[1] == ':' && ('a' <= path@[0] <= 'z' || 'A' <= path@[0]
                <= 'Z'))
            &&& !pieces(path@, |c: char| c == '/' || c == '\\').contains(".."@)
        },
        r matches Err(e) ==> e@.0 == ErrorKind::Validation,
{
    lemma_climbing(spelled(path@, true));
    lemma_spelled_pieces(path@);
}

/// A path climbs where one of its pieces does.
proof fn lemma_climbing(p: Seq<char>)
    ensures
        components(p).contains(".."@) <==> pieces(p, just('/')).contains(".."@),
{
    reveal_strlit("..");
    reveal_strlit(".");
    let up = ".."@;
    let ps = pieces(p, just('/'));
    let h = head(p);
    if components(p).contains(up) {
        let k = choose|k: int| 0 <= k < components(p).len() && components(p)[k] == up;
        if k < h.len() {
            assert(h[k] == up);
            assert(up.len() == 2);
            assert(false);
        }
        lemma_names_member(ps, k - h.len());
        assert(ps.contains(up));
    }
    if ps.contains(up) {
        let i = choose|i: int| 0 <= i < ps.len() && ps[i] == up;
        assert(is_name(up)) by {
            assert(up.len() == 2);
        }
        lemma_name_is_kept(ps, i);
        let k = choose|k: int| 0 <= k < names(ps).len() && names(ps)[k] == up;
        assert(components(p)[h.len() + k] == up);
    }
}

/// A piece that is a name is among the names.
proof fn lemma_name_is_kept(ps: Seq<Seq<char>>, i: int)
    requires
        0 <= i < ps.len(),
        is_name(ps[i]),
    ensures
        names(ps).contains(ps[i]),
    decreases ps.len(),
{
    let t = ps.drop_last();
    assert(ps =~= t.push(ps.last()));
    lemma_names_push(t, ps.last());
    if i < t.len() {
        lemma_name_is_kept(t, i);
        let k = choose|k: int| 0 <= k < names(t).len() && names(t)[k] == ps[i];
        assert(names(ps)[k] == ps[i]);
    } else {
        assert(names(ps)[names(ps).len() - 1] == ps[i]);
    }
}

/// Spelling the separators alike does not change what stands between them.
proof fn lemma_spelled_pieces(p: Seq<char>)
    ensures
        pieces(spelled(p, true), just('/')) == pieces(p, |c: char| c == '/' || c == '\\'),
    decreases p.len(),
{
    let s = spelled(p, true);
    if p.len() > 0 {
        lemma_spelled_pieces(p.drop_last());
        assert(s.drop_last() =~= spelled(p.drop_last(), true));
    } else {
        assert(s =~= p);
    }
}

/// An unsafe path is refused with the first reason there is: it is empty, it breaks a line, it is
/// not relative, or it climbs.
pub proof fn law_unsafe_paths_are_told_why(
    workdir: &str,
    path: &str,
    windows: bool,
    r: AppResult<()>,
)
    requires
        call_ensures(validate_repo_relative_path, (workdir, path, windows), r),
    ensures
        path@.len() == 0 ==> r is Err && r->Err_0@.1 == "Path must not be empty"@,
        path@.len() > 0 && (path@.contains('\n') || path@.contains('\0')) ==> r is Err
            && r->Err_0@.1 == "Path must not contain newline or NUL characters"@,
        path@.len() > 0 && !path@.contains('\n') && !path@.contains('\0') && path@[0] == '/' ==> r
            is Err && r->Err_0@.1 == "Path must be relative: "@ + path@,
        r is Err && path@.len() > 0 && !path@.contains('\n') && !path@.contains('\0') && path@[0]
            != '/' && !windows ==> r->Err_0@.1 == "Path must not contain a '..' component: "@
            + path@,
{
    if path@.len() > 0 {
        assert(spelled(path@, windows)[0] == '/' || path@[0] != '/');
    }
}

} // verus!

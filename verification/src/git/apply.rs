//! The `git` command lines that apply a patch or restore a file, and what their outcome means.
//!
//! Starting a process is left to the caller, who hands in a function for it.

use crate::error::{outcome, AppError, AppResult, ErrorKind, ErrorView};
use crate::git::patch::{
    ended, header_starts, old_side, patch_refusal, patch_rows, patch_text, row, HunkPatchPayload,
    PatchLineKind,
};
use crate::pathname::{absolute, is_absolute, join_path, under};
use crate::text::{
    decode_lossy, join3, lemma_encode_add, lossy_text, owned, pieces, texts, trim, trimmed,
};
use vstd::prelude::*;
use vstd::utf8::{encode_scalar, encode_utf8};

verus! {

/// Where and how a patch is applied.
#[derive(Debug, Clone, Copy, PartialEq, Eq, Structural)]
pub enum ApplyTarget {
    /// Stage the hunk: `git apply --cached`.
    Index,
    /// Unstage the hunk: `git apply --cached --reverse`.
    IndexReverse,
    /// Discard the hunk from the working tree: `git apply --reverse`.
    WorkdirReverse,
}

/// How a finished command ended.
#[derive(Debug, Clone)]
pub struct CommandOutput {
    pub success: bool,
    /// The exit status as text.
    pub status: String,
    pub stderr: Vec<u8>,
}

/// The texts of a sequence of string slices.
pub open spec fn slices(v: Seq<&'static str>) -> Seq<Seq<char>> {
    v.map_values(|s: &'static str| s@)
}

/// The flags of `git apply` that a target stands for.
pub open spec fn target_flags(target: ApplyTarget) -> Seq<Seq<char>> {
    match target {
        ApplyTarget::Index => seq!["--cached"@],
        ApplyTarget::IndexReverse => seq!["--cached"@, "--reverse"@],
        ApplyTarget::WorkdirReverse => seq!["--reverse"@],
    }
}

impl ApplyTarget {
    /// The flags of `git apply` that the target stands for.
    pub fn mode_flags(self) -> (r: Vec<&'static str>)
        ensures
            slices(r@) == target_flags(self),
    {
        let mut flags: Vec<&'static str> = Vec::new();
        match self {
            ApplyTarget::Index => {
                flags.push("--cached");
            },
            ApplyTarget::IndexReverse => {
                flags.push("--cached");
                flags.push("--reverse");
            },
            ApplyTarget::WorkdirReverse => {
                flags.push("--reverse");
            },
        }
        assert(slices(flags@) =~= target_flags(self));
        flags
    }
}

/// The predicate "is a newline byte".
pub open spec fn newline_byte() -> spec_fn(u8) -> bool {
    |b: u8| b == 10
}

/// Whether a row of a patch is a hunk header.
pub open spec fn opens_hunk(row: Seq<u8>) -> bool {
    row.len() >= 2 && row[0] == 64 && row[1] == 64
}

/// Whether a row of a patch starts with a space.
pub open spec fn starts_with_space(row: Seq<u8>) -> bool {
    row.len() >= 1 && row[0] == 32
}

/// Whether some row behind a hunk header is a context line. What stands before the first hunk
/// header does not count.
pub open spec fn has_context(patch: Seq<u8>) -> bool {
    let rows = pieces(patch, newline_byte());
    exists|h: int, i: int|
        0 <= h < i < rows.len() && opens_hunk(#[trigger] rows[h]) && starts_with_space(
            #[trigger] rows[i],
        )
}

/// The arguments of `git` for a target and a patch. The stricter matching is left out only for
/// a patch without any context, which git would refuse otherwise.
pub open spec fn apply_args(target: ApplyTarget, patch: Seq<u8>) -> Seq<Seq<char>> {
    seq!["apply"@] + target_flags(target) + seq!["--whitespace=nowarn"@] + (if has_context(patch) {
        Seq::empty()
    } else {
        seq!["--unidiff-zero"@]
    }) + seq!["-"@]
}

/// The rows of `patch` between its newlines.
fn split_rows(patch: &Vec<u8>) -> (r: Vec<Vec<u8>>)
    ensures
        r@.map_values(|v: Vec<u8>| v@) == pieces(patch@, newline_byte()),
{
    let sep = Ghost(newline_byte());
    let mut out: Vec<Vec<u8>> = Vec::new();
    let mut cur: Vec<u8> = Vec::new();
    let mut i: usize = 0;
    let ghost mut done: Seq<Seq<u8>> = Seq::empty();
    assert(out@.map_values(|v: Vec<u8>| v@) =~= done);
    assert(done.push(cur@) =~= pieces(patch@.take(0), sep@));
    while i < patch.len()
        invariant
            0 <= i <= patch@.len(),
            sep@ == newline_byte(),
            out@.map_values(|v: Vec<u8>| v@) == done,
            done.push(cur@) == pieces(patch@.take(i as int), sep@),
        decreases patch@.len() - i,
    {
        let b: u8 = patch[i];
        let ghost before = done.push(cur@);
        assert(patch@.take(i + 1).drop_last() =~= patch@.take(i as int));
        if b == 10 {
            proof {
                done = done.push(cur@);
            }
            let ghost old_out = out@;
            let ghost old_cur = cur;
            out.push(cur);
            assert(out@.map_values(|v: Vec<u8>| v@) =~= old_out.map_values(|v: Vec<u8>| v@).push(
                old_cur@,
            ));
            cur = Vec::new();
            assert(cur@ =~= Seq::empty());
        } else {
            cur.push(b);
            assert(done.push(cur@) =~= before.update(before.len() - 1, before.last().push(b)));
        }
        i += 1;
    }
    assert(patch@.take(patch@.len() as int) =~= patch@);
    let ghost old_out = out@;
    let ghost old_cur = cur;
    out.push(cur);
    assert(out@.map_values(|v: Vec<u8>| v@) =~= old_out.map_values(|v: Vec<u8>| v@).push(
        old_cur@,
    ));
    out
}

/// Whether some row behind a hunk header of `patch` is a context line.
pub fn patch_has_context(patch: &Vec<u8>) -> (r: bool)
    ensures
        r == has_context(patch@),
{
    let rows = split_rows(patch);
    let ghost views = pieces(patch@, newline_byte());
    let mut in_hunk = false;
    let mut i: usize = 0;
    assert(views.len() == rows@.len());
    while i < rows.len()
        invariant
            0 <= i <= rows@.len(),
            views == rows@.map_values(|v: Vec<u8>| v@),
            views == pieces(patch@, newline_byte()),
            in_hunk == exists|h: int| 0 <= h < i && opens_hunk(#[trigger] views[h]),
            forall|h: int, k: int|
                0 <= h < k < i && opens_hunk(#[trigger] views[h]) ==> !starts_with_space(
                    #[trigger] views[k],
                ),
        decreases rows@.len() - i,
    {
        let row = &rows[i];
        let ghost was = in_hunk;
        assert(views[i as int] == row@);
        if row.len() >= 2 && row[0] == 64 && row[1] == 64 {
            in_hunk = true;
            assert(opens_hunk(views[i as int]));
        } else if in_hunk && row.len() >= 1 && row[0] == 32 {
            proof {
                let h = choose|h: int| 0 <= h < i && opens_hunk(#[trigger] views[h]);
                assert(starts_with_space(views[i as int]));
                assert(opens_hunk(views[h]));
            }
            return true;
        }
        i += 1;
        proof {
            if was {
                let h = choose|h: int| 0 <= h < i - 1 && opens_hunk(#[trigger] views[h]);
                assert(opens_hunk(views[h]));
            }
        }
    }
    false
}

/// The arguments of `git` for a target and a patch.
pub fn build_args(target: ApplyTarget, patch: &Vec<u8>) -> (r: Vec<&'static str>)
    ensures
        slices(r@) == apply_args(target, patch@),
{
    let mut args: Vec<&'static str> = Vec::new();
    args.push("apply");
    let mut flags = target.mode_flags();
    let ghost flag_views = slices(flags@);
    args.append(&mut flags);
    args.push("--whitespace=nowarn");
    if !patch_has_context(patch) {
        args.push("--unidiff-zero");
    }
    args.push("-");
    assert(slices(args@) =~= apply_args(target, patch@));
    args
}

/// The encoding of a character holds an ASCII byte only where the character is that byte.
proof fn lemma_scalar_bytes(c: char, b: u8)
    requires
        b < 0x80,
        c as u32 != b,
    ensures
        !encode_scalar(c as u32).contains(b),
{
    let s = c as u32;
    let l1 = vstd::utf8::leading_byte_width_1(s);
    let l2 = vstd::utf8::leading_byte_width_2(s);
    let l3 = vstd::utf8::leading_byte_width_3(s);
    let l4 = vstd::utf8::leading_byte_width_4(s);
    let c1 = vstd::utf8::last_continuation_byte(s);
    let c2 = vstd::utf8::second_last_continuation_byte(s);
    let c3 = vstd::utf8::third_last_continuation_byte(s);
    assert(s <= 0x7f ==> (s & 0x7f) as u8 == s) by (bit_vector);
    assert(forall|x: u32| #![trigger (x & 0x3f)] 0x80u8 | ((x & 0x3f) as u8) >= 0x80) by (bit_vector);
    assert(0xc0u8 | ((s >> 6) & 0x1f) as u8 >= 0x80) by (bit_vector);
    assert(0xe0u8 | ((s >> 12) & 0x0f) as u8 >= 0x80) by (bit_vector);
    assert(0xf0u8 | ((s >> 18) & 0x07) as u8 >= 0x80) by (bit_vector);
}

/// The encoding of a text holds an ASCII byte only where the text holds that character.
proof fn lemma_text_bytes(s: Seq<char>, c: char)
    requires
        (c as u32) < 0x80,
        !s.contains(c),
    ensures
        !encode_utf8(s).contains(c as u8),
    decreases s.len(),
{
    if s.len() > 0 {
        let t = s.drop_first();
        assert(s[0] != c);
        if t.contains(c) {
            let k = choose|k: int| 0 <= k < t.len() && t[k] == c;
            assert(s[k + 1] == c);
        }
        lemma_text_bytes(t, c);
        let first: char = s[0];
        vstd::utf8::char_is_scalar(first);
        vstd::utf8::char_u32_cast(first, first as u32);
        vstd::utf8::char_u32_cast(c, c as u32);
        assert(first as u32 != c as u32);
        assert(c as u8 == c as u32);
        lemma_scalar_bytes(first, c as u8);
        let (a, b) = (encode_scalar(s[0] as u32), encode_utf8(t));
        if (a + b).contains(c as u8) {
            let k = choose|k: int| 0 <= k < (a + b).len() && (a + b)[k] == c as u8;
            if k < a.len() {
                assert(a[k] == c as u8);
            } else {
                assert(b[k - a.len()] == c as u8);
            }
        }
    }
}

/// An ASCII character at the head of a text is the first byte of its encoding.
pub proof fn lemma_first_byte(s: Seq<char>)
    requires
        s.len() > 0,
        (s[0] as u32) < 0x80,
    ensures
        encode_utf8(s) == seq![s[0] as u8] + encode_utf8(s.drop_first()),
{
    let first: char = s[0];
    let x = first as u32;
    vstd::utf8::char_is_scalar(first);
    vstd::utf8::char_u32_cast(first, x);
    assert(first as u8 == x);
    assert(x <= 0x7f ==> (x & 0x7f) as u8 == x) by (bit_vector);
    assert(encode_scalar(x) =~= seq![s[0] as u8]);
}

/// The encoding of rows that hold no newline, each ended by one, has the encodings of the rows
/// between its newlines.
proof fn lemma_encoded_rows(rows: Seq<Seq<char>>)
    requires
        forall|i: int| 0 <= i < rows.len() ==> !(#[trigger] rows[i]).contains('\n'),
    ensures
        pieces(encode_utf8(ended(rows)), newline_byte()) == rows.map_values(
            |r: Seq<char>| encode_utf8(r),
        ).push(Seq::<u8>::empty()),
    decreases rows.len(),
{
    let sep = newline_byte();
    let none = Seq::<u8>::empty();
    let encoded = rows.map_values(|r: Seq<char>| encode_utf8(r));
    crate::text::lemma_pieces_single(none, sep);
    if rows.len() == 0 {
        assert(encode_utf8(ended(rows)) =~= none);
        assert(seq![none] =~= encoded.push(none));
    } else {
        let t = rows.drop_last();
        let last = rows.last();
        assert forall|i: int| 0 <= i < t.len() implies !(#[trigger] t[i]).contains('\n') by {
            assert(t[i] == rows[i]);
        }
        lemma_encoded_rows(t);
        let te = t.map_values(|r: Seq<char>| encode_utf8(r));
        assert(!rows[rows.len() - 1].contains('\n'));
        lemma_text_bytes(last, '\n');
        let le = encode_utf8(last);
        assert forall|i: int| 0 <= i < le.len() implies !sep(#[trigger] le[i]) by {
            assert(le[i] != '\n' as u8);
        }
        let before = encode_utf8(ended(t));
        crate::text::lemma_pieces_extend(before, le, sep);
        assert(none + le =~= le);
        assert(te.push(none).update(t.len() as int, le) =~= encoded);
        lemma_encode_add(ended(t), last);
        lemma_encode_add(ended(t) + last, "\n"@);
        reveal_strlit("\n");
        assert("\n"@ =~= seq!['\n']);
        lemma_first_byte("\n"@);
        assert("\n"@.drop_first() =~= Seq::<char>::empty());
        assert(encode_utf8("\n"@) =~= seq![10u8]);
        assert(encode_utf8(ended(rows)) =~= (before + le).push(10u8) + none);
        crate::text::lemma_pieces_join(before + le, 10u8, none, sep);
        assert(encoded + seq![none] =~= encoded.push(none));
    }
}

/// The stricter matching of git is given up only where it has to be: the patch of an accepted
/// payload counts as one without context exactly when the payload has no context line.
pub proof fn law_context_is_what_the_payload_shows(payload: HunkPatchPayload)
    requires
        patch_refusal(payload) is None,
    ensures
        has_context(encode_utf8(patch_text(payload))) == exists|i: int|
            0 <= i < payload.lines@.len() && (#[trigger] payload.lines@[i]).kind
                == PatchLineKind::Context,
{
    let starts = header_starts(payload.header@)->0;
    let lines = payload.lines@;
    let (o, n) = (old_side(payload), payload.path@);
    let rows = patch_rows(o, n, starts, lines);
    crate::git::patch::lemma_patch_rows_clean(payload);
    lemma_encoded_rows(rows);
    let encoded = rows.map_values(|r: Seq<char>| encode_utf8(r));
    let bytes = encode_utf8(patch_text(payload));
    let all = pieces(bytes, newline_byte());
    assert(all =~= encoded.push(Seq::<u8>::empty()));
    reveal_strlit("diff --git a/");
    reveal_strlit("--- a/");
    reveal_strlit("+++ b/");
    reveal_strlit("@@ -");
    reveal_strlit(" ");
    reveal_strlit("+");
    reveal_strlit("-");
    reveal_strlit("\\ No newline at end of file");
    assert forall|i: int| 0 <= i < rows.len() implies {
        &&& all[i] == encode_utf8(rows[i])
        &&& rows[i].len() > 0
        &&& (rows[i][0] as u32) < 0x80
        &&& #[trigger] all[i][0] == rows[i][0] as u8
        &&& all[i].len() > 0
    } by {
        assert(all[i] == encoded[i]);
        if i > 3 {
            assert(rows[i] == row(lines[i - 4]));
        }
        lemma_first_byte(rows[i]);
    }
    assert(rows[3][0] == '@' && rows[3][1] == '@');
    assert(opens_hunk(all[3])) by {
        lemma_first_byte(rows[3]);
        lemma_first_byte(rows[3].drop_first());
    }
    if has_context(bytes) {
        let (h, i) = choose|h: int, i: int|
            0 <= h < i < all.len() && opens_hunk(#[trigger] all[h]) && starts_with_space(
                #[trigger] all[i],
            );
        assert(i < rows.len());
        assert(i > 3) by {
            assert(all[0][0] == rows[0][0] as u8);
            assert(all[1][0] == rows[1][0] as u8);
            assert(all[2][0] == rows[2][0] as u8);
        }
        assert(all[i][0] == rows[i][0] as u8);
        assert(rows[i] == row(lines[i - 4]));
        assert(lines[i - 4].kind == PatchLineKind::Context);
    }
    if exists|i: int| 0 <= i < lines.len() && (#[trigger] lines[i]).kind == PatchLineKind::Context {
        let i = choose|i: int|
            0 <= i < lines.len() && (#[trigger] lines[i]).kind == PatchLineKind::Context;
        assert(rows[i + 4] == row(lines[i]));
        assert(all[i + 4][0] == rows[i + 4][0] as u8);
        assert(starts_with_space(all[i + 4]));
        assert(opens_hunk(all[3]));
    }
}

/// The error text of a command that did not succeed: what it wrote to standard error, or its
/// exit status where it wrote nothing.
pub open spec fn failure_text(command: Seq<char>, out: CommandOutput) -> Seq<char> {
    let said = trimmed(lossy_text(out.stderr@));
    if said.len() == 0 {
        command + " exited with status "@ + out.status@
    } else {
        command + " failed: "@ + said
    }
}

/// What the end of a command means.
pub fn command_outcome(command: &str, out: &CommandOutput) -> (r: AppResult<()>)
    ensures
        outcome(r) == if out.success {
            Ok::<(), ErrorView>(())
        } else {
            Err((ErrorKind::Git, failure_text(command@, *out)))
        },
{
    if out.success {
        return Ok(());
    }
    let stderr = decode_lossy(&out.stderr);
    let said = trim(stderr.as_str());
    let detail = if said.as_str().is_empty() {
        join3(command, " exited with status ", out.status.as_str())
    } else {
        join3(command, " failed: ", said.as_str())
    };
    Err(AppError::git(detail.as_str()))
}

/// Applies `patch` for the given target. `run` starts `git`, once, with the given arguments and
/// input; its failure is handed on, and what git wrote to standard error is part of the error where
/// git refuses the patch.
pub fn apply_patch<R>(patch: &Vec<u8>, target: ApplyTarget, run: R) -> (r: AppResult<()>) where
    R: FnOnce(&Vec<&'static str>, &Vec<u8>) -> AppResult<CommandOutput>,

    requires
        forall|args: &Vec<&'static str>|
            slices(args@) == apply_args(target, patch@) ==> #[trigger] call_requires(
                run,
                (args, patch),
            ),
    ensures
        exists|args: &Vec<&'static str>, out: AppResult<CommandOutput>|
            {
                &&& slices(args@) == apply_args(target, patch@)
                &&& #[trigger] call_ensures(run, (args, patch), out)
                &&& match out {
                    Ok(o) => outcome(r) == if o.success {
                        Ok::<(), ErrorView>(())
                    } else {
                        Err((ErrorKind::Git, failure_text("git apply"@, o)))
                    },
                    Err(e) => r == Err::<(), AppError>(e),
                }
            },
{
    let args = build_args(target, patch);
    let out = run(&args, patch);
    assert(call_ensures(run, (&args, patch), out));
    match out {
        Ok(o) => command_outcome("git apply", &o),
        Err(e) => Err(e),
    }
}

/// The arguments of `git` that restore one file from the index. The name is taken literally,
/// and never as an option.
pub open spec fn checkout_args(path: Seq<char>) -> Seq<Seq<char>> {
    seq!["checkout-index"@, "--force"@, "--"@, path]
}

/// Restores a single file of the working tree from the index. `run` starts `git`, once, with the
/// given arguments; its failure is handed on.
pub fn checkout_index_path<R>(path: &str, run: R) -> (r: AppResult<()>) where
    R: FnOnce(&Vec<String>) -> AppResult<CommandOutput>,

    requires
        forall|args: &Vec<String>|
            texts(args@) == checkout_args(path@) ==> #[trigger] call_requires(run, (args,)),
    ensures
        exists|args: &Vec<String>, out: AppResult<CommandOutput>|
            {
                &&& texts(args@) == checkout_args(path@)
                &&& #[trigger] call_ensures(run, (args,), out)
                &&& match out {
                    Ok(o) => outcome(r) == if o.success {
                        Ok::<(), ErrorView>(())
                    } else {
                        Err((ErrorKind::Git, failure_text("git checkout-index"@, o)))
                    },
                    Err(e) => r == Err::<(), AppError>(e),
                }
            },
{
    let mut args: Vec<String> = Vec::new();
    args.push(owned("checkout-index"));
    args.push(owned("--force"));
    args.push(owned("--"));
    args.push(owned(path));
    assert(texts(args@) =~= checkout_args(path@));
    let out = run(&args);
    assert(call_ensures(run, (&args,), out));
    match out {
        Ok(o) => command_outcome("git checkout-index", &o),
        Err(e) => Err(e),
    }
}

/// Where to look for `git`: in the absolute directories of the search path first, then in the
/// usual places. Each comes with whether it came from the search path.
///
/// Relative and empty directories are passed over: git runs inside the working tree, where they
/// would find a program that the repository brought along.
pub open spec fn git_candidates(dirs: Seq<Seq<char>>) -> Seq<(Seq<char>, bool)> {
    path_candidates(dirs) + seq![("/usr/bin/git"@, false), ("/opt/homebrew/bin/git"@, false)]
}

/// The candidates in the search path.
pub open spec fn path_candidates(dirs: Seq<Seq<char>>) -> Seq<(Seq<char>, bool)>
    decreases dirs.len(),
{
    if dirs.len() == 0 {
        Seq::empty()
    } else {
        let before = path_candidates(dirs.drop_last());
        if absolute(dirs.last()) {
            before.push((under(dirs.last(), "git"@), true))
        } else {
            before
        }
    }
}

/// Whether an answer was given for a candidate.
pub open spec fn candidate_is<U: Fn(&str, bool) -> bool>(
    usable: U,
    candidate: (Seq<char>, bool),
    answer: bool,
) -> bool {
    exists|s: &str| s@ == candidate.0 && #[trigger] call_ensures(usable, (s, candidate.1), answer)
}

/// `usable` said no to every one of some candidates.
pub open spec fn none_usable<U: Fn(&str, bool) -> bool>(
    usable: U,
    candidates: Seq<(Seq<char>, bool)>,
) -> bool {
    forall|j: int|
        0 <= j < candidates.len() ==> #[trigger] candidate_is(usable, candidates[j], false)
}

/// The first candidate for `git` that is usable.
pub fn locate_git<U>(dirs: &Vec<String>, usable: &U) -> (r: Option<String>) where
    U: Fn(&str, bool) -> bool,

    requires
        forall|s: &str, on_path: bool| absolute(s@) ==> call_requires(*usable, (s, on_path)),
    ensures
        ({
            let all = git_candidates(texts(dirs@));
            match r {
                Some(git) => exists|k: int|
                    {
                        &&& 0 <= k < all.len()
                        &&& git@ == all[k].0
                        &&& #[trigger] candidate_is(*usable, all[k], true)
                        &&& forall|j: int|
                            0 <= j < k ==> #[trigger] candidate_is(*usable, all[j], false)
                    },
                None => none_usable(*usable, all),
            }
        }),
{
    let ghost all = git_candidates(texts(dirs@));
    let ghost on_path = path_candidates(texts(dirs@));
    let ghost mut tried: int = 0;
    let mut i: usize = 0;
    assert(texts(dirs@).take(0) =~= Seq::<Seq<char>>::empty());
    while i < dirs.len()
        invariant
            0 <= i <= dirs@.len(),
            all == git_candidates(texts(dirs@)),
            on_path == path_candidates(texts(dirs@)),
            tried == path_candidates(texts(dirs@).take(i as int)).len(),
            forall|j: int| 0 <= j < tried ==> #[trigger] candidate_is(*usable, all[j], false),
            forall|s: &str, on_path: bool| absolute(s@) ==> call_requires(*usable, (s, on_path)),
        decreases dirs@.len() - i,
    {
        proof {
            let t = texts(dirs@);
            assert(t[i as int] == dirs@[i as int]@);
            assert(t.take(i + 1).drop_last() =~= t.take(i as int));
            assert(t.take(i + 1).last() == dirs@[i as int]@);
            lemma_candidates_prefix(t, i + 1);
        }
        if is_absolute(dirs[i].as_str()) {
            let candidate = join_path(dirs[i].as_str(), "git");
            proof {
                lemma_git_is_relative();
                assert(path_candidates(texts(dirs@).take(i + 1))[tried] == (candidate@, true));
                assert(on_path[tried] == (candidate@, true));
                assert(all[tried] == (candidate@, true));
                reveal_strlit("git");
                assert(absolute(candidate@));
            }
            let name = candidate.as_str();
            let answer = usable(name, true);
            assert(call_ensures(*usable, (name, all[tried].1), answer));
            if answer {
                assert(candidate_is(*usable, all[tried], true));
                return Some(candidate);
            }
            proof {
                assert(candidate_is(*usable, all[tried], false));
                tried = tried + 1;
            }
        }
        i += 1;
    }
    proof {
        assert(texts(dirs@).take(dirs@.len() as int) =~= texts(dirs@));
        reveal_strlit("/usr/bin/git");
        reveal_strlit("/opt/homebrew/bin/git");
        assert(all[tried] == ("/usr/bin/git"@, false));
        assert(all[tried + 1] == ("/opt/homebrew/bin/git"@, false));
    }
    let answer = usable("/usr/bin/git", false);
    assert(call_ensures(*usable, ("/usr/bin/git", all[tried].1), answer));
    if answer {
        assert(candidate_is(*usable, all[tried], true));
        return Some(owned("/usr/bin/git"));
    }
    assert(candidate_is(*usable, all[tried], false));
    let answer = usable("/opt/homebrew/bin/git", false);
    assert(call_ensures(*usable, ("/opt/homebrew/bin/git", all[tried + 1].1), answer));
    if answer {
        assert(candidate_is(*usable, all[tried + 1], true));
        return Some(owned("/opt/homebrew/bin/git"));
    }
    assert(candidate_is(*usable, all[tried + 1], false));
    None
}

/// The name of the program is a relative path.
proof fn lemma_git_is_relative()
    ensures
        !absolute("git"@),
{
    reveal_strlit("git");
}

/// The candidates of the first directories come first.
proof fn lemma_candidates_prefix(dirs: Seq<Seq<char>>, n: int)
    requires
        0 <= n <= dirs.len(),
    ensures
        path_candidates(dirs.take(n)).len() <= path_candidates(dirs).len(),
        forall|j: int|
            0 <= j < path_candidates(dirs.take(n)).len() ==> #[trigger] path_candidates(dirs)[j]
                == path_candidates(dirs.take(n))[j],
    decreases dirs.len() - n,
{
    if n == dirs.len() {
        assert(dirs.take(n) =~= dirs);
    } else {
        lemma_candidates_prefix(dirs, n + 1);
        assert(dirs.take(n + 1).drop_last() =~= dirs.take(n));
        let a = path_candidates(dirs.take(n));
        let b = path_candidates(dirs.take(n + 1));
        assert forall|j: int| 0 <= j < a.len() implies #[trigger] path_candidates(dirs)[j]
            == a[j] by {
            assert(b[j] == a[j]);
        }
    }
}

/// Every place where `git` is looked for is an absolute path, so no program of the repository
/// that the process runs in is ever started in its place.
pub proof fn law_git_is_looked_for_by_absolute_path(dirs: Seq<Seq<char>>)
    ensures
        forall|k: int|
            0 <= k < git_candidates(dirs).len() ==> absolute(#[trigger] git_candidates(dirs)[k].0),
    decreases dirs.len(),
{
    reveal_strlit("/usr/bin/git");
    reveal_strlit("/opt/homebrew/bin/git");
    lemma_git_is_relative();
    if dirs.len() > 0 {
        law_git_is_looked_for_by_absolute_path(dirs.drop_last());
        let before = path_candidates(dirs.drop_last());
        assert forall|k: int| 0 <= k < git_candidates(dirs).len() implies absolute(
            #[trigger] git_candidates(dirs)[k].0,
        ) by {
            if k < before.len() {
                assert(git_candidates(dirs)[k] == git_candidates(dirs.drop_last())[k]);
            }
        }
    }
}

/// The program found, or the error that says where it was looked for.
pub fn git_executable(found: Option<String>) -> (r: AppResult<String>)
    ensures
        match found {
            Some(git) => r matches Ok(p) && p@ == git@,
            None => r matches Err(e) && e@ == (
                ErrorKind::Git,
                "git executable not found (checked PATH, /usr/bin/git, /opt/homebrew/bin/git)"@,
            ),
        },
{
    match found {
        Some(git) => Ok(git),
        None => Err(
            AppError::git(
                "git executable not found (checked PATH, /usr/bin/git, /opt/homebrew/bin/git)",
            ),
        ),
    }
}

/// How git is told what to apply a hunk to: the index alone is touched unless a hunk is discarded
/// from the working tree, the patch is turned round unless a hunk is staged, and it comes from
/// standard input. Hunks without context are allowed exactly where the patch has none.
pub proof fn law_git_is_told_the_target(target: ApplyTarget, patch: &Vec<u8>, args: Vec<&'static str>)
    requires
        call_ensures(build_args, (target, patch), args),
    ensures
        ({
            let a = slices(args@);
            &&& a.len() > 0 && a[0] == "apply"@ && a.last() == "-"@
            &&& a.contains("--cached"@) <==> !(target is WorkdirReverse)
            &&& a.contains("--reverse"@) <==> !(target is Index)
            &&& a.contains("--unidiff-zero"@) <==> !has_context(patch@)
            &&& a.contains("--whitespace=nowarn"@)
        }),
{
    reveal_strlit("apply");
    reveal_strlit("-");
    reveal_strlit("--cached");
    reveal_strlit("--reverse");
    reveal_strlit("--unidiff-zero");
    reveal_strlit("--whitespace=nowarn");
    let a = apply_args(target, patch@);
    assert("--cached"@.len() == 8 && "--reverse"@.len() == 9 && "--unidiff-zero"@.len() == 14
        && "--whitespace=nowarn"@.len() == 19 && "apply"@.len() == 5 && "-"@.len() == 1);
    let flags = target_flags(target);
    let n = flags.len() as int;
    assert(a[1 + n] == "--whitespace=nowarn"@);
    assert(!(target is WorkdirReverse) ==> a[1] == "--cached"@);
    assert(target is IndexReverse ==> a[2] == "--reverse"@);
    assert(target is WorkdirReverse ==> a[1] == "--reverse"@);
    assert(!has_context(patch@) ==> a[2 + n] == "--unidiff-zero"@);
    assert forall|i: int| 0 <= i < a.len() implies (#[trigger] a[i]).len() == 5 || a[i].len() == 1
        || a[i].len() == 19 || (a[i].len() == 14 && !has_context(patch@)) || (a[i].len() == 8 && !(
    target is WorkdirReverse)) || (a[i].len() == 9 && !(target is Index)) by {
        if 1 <= i < 1 + n {
            assert(a[i] == flags[i - 1]);
        }
    }
}

/// What running git comes to: it is run with these arguments and this input, a run that succeeds
/// is a success, and one that fails is a git error with what git said, or with its exit status
/// where it said nothing.
pub proof fn law_failure_of_git_is_told(command: &str, out: &CommandOutput, r: AppResult<()>)
    requires
        call_ensures(command_outcome, (command, out), r),
    ensures
        r is Ok <==> out.success,
        r matches Err(e) ==> e@.0 == ErrorKind::Git && ({
            let said = trimmed(lossy_text(out.stderr@));
            if said.len() == 0 {
                e@.1 == command@ + " exited with status "@ + out.status@
            } else {
                e@.1 == command@ + " failed: "@ + said
            }
        }),
{
}

/// A patch that git takes is applied, and one that git refuses is not: the answer is that of git,
/// run once for the target with the patch as its input.
pub proof fn law_applying_is_what_git_answers<R>(
    patch: &Vec<u8>,
    target: ApplyTarget,
    run: R,
    r: AppResult<()>,
) where R: FnOnce(&Vec<&'static str>, &Vec<u8>) -> AppResult<CommandOutput>
    requires
        call_ensures(apply_patch::<R>, (patch, target, run), r),
    ensures
        exists|args: &Vec<&'static str>, out: AppResult<CommandOutput>|
            {
                &&& #[trigger] call_ensures(run, (args, patch), out)
                &&& slices(args@) == apply_args(target, patch@)
                &&& r is Ok <==> (out matches Ok(o) && o.success)
            },
{
}

/// A file is restored by its literal name: it is the last argument, behind the mark that ends the
/// options, and what is there is overwritten.
pub proof fn law_restored_file_is_named_literally<R>(path: &str, run: R, r: AppResult<()>) where
    R: FnOnce(&Vec<String>) -> AppResult<CommandOutput>,

    requires
        call_ensures(checkout_index_path::<R>, (path, run), r),
    ensures
        exists|args: &Vec<String>, out: AppResult<CommandOutput>|
            {
                &&& #[trigger] call_ensures(run, (args,), out)
                &&& texts(args@) == seq!["checkout-index"@, "--force"@, "--"@, path@]
                &&& r is Ok <==> (out matches Ok(o) && o.success)
            },
{
}

/// Where git is looked for: in every absolute directory of the search path, in order, and only
/// then in the two usual places.
pub proof fn law_search_path_comes_first(dirs: Seq<Seq<char>>, dir: Seq<char>)
    ensures
        ({
            let before = git_candidates(dirs);
            let after = git_candidates(dirs.push(dir));
            let n = before.len() - 2;
            &&& n >= 0
            &&& before[n] == ("/usr/bin/git"@, false)
            &&& before[n + 1] == ("/opt/homebrew/bin/git"@, false)
            &&& dir.len() > 0 && dir[0] == '/' ==> after == before.take(n).push(
                (under(dir, "git"@), true),
            ) + before.skip(n)
            &&& !(dir.len() > 0 && dir[0] == '/') ==> after == before
            &&& dirs.len() == 0 ==> n == 0
        }),
{
    assert(dirs.push(dir).drop_last() =~= dirs);
    let before = git_candidates(dirs);
    let after = git_candidates(dirs.push(dir));
    let n = before.len() - 2;
    assert(before.take(n) =~= path_candidates(dirs));
    if absolute(dir) {
        assert(after =~= before.take(n).push((under(dir, "git"@), true)) + before.skip(n));
    }
}

/// The git that is used is the first candidate that can be, and there is none exactly where no
/// candidate can.
pub proof fn law_first_usable_git_is_taken<U>(
    dirs: &Vec<String>,
    usable: &U,
    can: spec_fn(Seq<char>, bool) -> bool,
    r: Option<String>,
) where U: Fn(&str, bool) -> bool
    requires
        call_ensures(locate_git::<U>, (dirs, usable), r),
        forall|s: &str, on_path: bool, b: bool| #[trigger]
            call_ensures(*usable, (s, on_path), b) ==> b == can(s@, on_path),
    ensures
        ({
            let all = git_candidates(texts(dirs@));
            &&& r is None <==> forall|j: int|
                0 <= j < all.len() ==> !can((#[trigger] all[j]).0, all[j].1)
            &&& r matches Some(git) ==> exists|k: int|
                {
                    &&& 0 <= k < all.len()
                    &&& (#[trigger] all[k]).0 == git@
                    &&& can(all[k].0, all[k].1)
                    &&& forall|j: int| 0 <= j < k ==> !can((#[trigger] all[j]).0, all[j].1)
                }
        }),
{
    let all = git_candidates(texts(dirs@));
    match r {
        Some(git) => {
            let k = choose|k: int|
                {
                    &&& 0 <= k < all.len()
                    &&& git@ == all[k].0
                    &&& #[trigger] candidate_is(*usable, all[k], true)
                    &&& forall|j: int|
                        0 <= j < k ==> #[trigger] candidate_is(*usable, all[j], false)
                };
            lemma_candidate(*usable, can, all[k], true);
            assert forall|j: int| 0 <= j < k implies !can((#[trigger] all[j]).0, all[j].1) by {
                assert(candidate_is(*usable, all[j], false));
                lemma_candidate(*usable, can, all[j], false);
            }
            assert(can(all[k].0, all[k].1));
        },
        None => {
            assert forall|j: int| 0 <= j < all.len() implies !can(
                (#[trigger] all[j]).0,
                all[j].1,
            ) by {
                assert(candidate_is(*usable, all[j], false));
                lemma_candidate(*usable, can, all[j], false);
            }
        },
    }
}

/// What was answered of a candidate, where the answers do not change.
proof fn lemma_candidate<U: Fn(&str, bool) -> bool>(
    usable: U,
    can: spec_fn(Seq<char>, bool) -> bool,
    candidate: (Seq<char>, bool),
    answer: bool,
)
    requires
        candidate_is(usable, candidate, answer),
        forall|s: &str, on_path: bool, b: bool| #[trigger]
            call_ensures(usable, (s, on_path), b) ==> b == can(s@, on_path),
    ensures
        can(candidate.0, candidate.1) == answer,
{
    let s = choose|s: &str|
        s@ == candidate.0 && #[trigger] call_ensures(usable, (s, candidate.1), answer);
}

/// Without a git there is an error that says where it was looked for.
pub proof fn law_missing_git_is_told(found: Option<String>, r: AppResult<String>)
    requires
        call_ensures(git_executable, (found,), r),
    ensures
        found matches Some(git) ==> outcome(r) == Ok::<Seq<char>, ErrorView>(git@),
        found is None ==> (r matches Err(e) && e@.0 is Git),
{
}

/// Which patches show context: those with a row that starts with a space somewhere behind a row
/// that starts with `@@`.
pub proof fn law_context_is_behind_a_hunk_header(patch: &Vec<u8>, r: bool, h: int, i: int)
    requires
        call_ensures(patch_has_context, (patch,), r),
    ensures
        ({
            let rows = pieces(patch@, |b: u8| b == 10);
            &&& 0 <= h < i < rows.len() && rows[h].len() >= 2 && rows[h][0] == 64 && rows[h][1] == 64
                && rows[i].len() >= 1 && rows[i][0] == 32 ==> r
            &&& (forall|x: int|
                0 <= x < rows.len() ==> (#[trigger] rows[x]).len() == 0 || rows[x][0] != 32) ==> !r
            &&& (forall|x: int|
                0 <= x < rows.len() ==> (#[trigger] rows[x]).len() == 0 || rows[x][0] != 64) ==> !r
        }),
{
    let f = |b: u8| b == 10;
    assert(newline_byte() =~= f);
    let rows = pieces(patch@, newline_byte());
    if 0 <= h < i < rows.len() && rows[h].len() >= 2 && rows[h][0] == 64 && rows[h][1] == 64
        && rows[i].len() >= 1 && rows[i][0] == 32 {
        assert(opens_hunk(rows[h]) && starts_with_space(rows[i]));
    }
}

} // verus!

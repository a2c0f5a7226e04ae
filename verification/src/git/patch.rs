//! A single-hunk unified diff out of a hunk payload.
//!
//! The payload is one hunk as it was displayed; the patch is what `git apply` takes. Line
//! content is emitted as it stands between the line's prefix and its newline: a trailing `\r`
//! stays, so that files with CRLF line ends keep their bytes.
//!
//! Untracked files are refused: a patch for a new file cannot carry the file's mode, so they
//! are staged whole.

use crate::error::{AppError, AppResult, ErrorKind, ErrorView};
use crate::git::paths::{breaks_line, has_line_break_or_nul};
use crate::numbers::{
    decimal, is_digit, law_decimal_reads_back, lemma_decimal_value, parse_unsigned,
    parsed, to_decimal,
};
use crate::text::{
    any_white, bytes_of, chars_of, is_white, join2, just, lemma_filter_push,
    lemma_pieces_join, lemma_pieces_single, non_empty, owned, pieces, split_on, split_words,
    text_range, texts, words,
};
use vstd::prelude::*;
use vstd::string::StringExecFns;
use vstd::utf8::encode_utf8;

verus! {

/// A single hunk, as it was selected for staging, unstaging or discarding.
#[derive(Debug, Clone)]
pub struct HunkPatchPayload {
    /// New-side path of the file.
    pub path: String,
    /// Old-side path where it differs (renames).
    pub old_path: Option<String>,
    /// Which diff the hunk was taken from. The patch text does not depend on it.
    pub staged: bool,
    /// Whether the file is untracked; such a payload is refused.
    pub is_untracked: bool,
    /// Number of context lines the displayed diff was computed with.
    pub context_lines: u32,
    /// The raw `@@ -a,b +c,d @@ ...` line, without a newline. Only the start numbers are read.
    pub header: String,
    /// The lines of the hunk, in order, with any missing-newline markers.
    pub lines: Vec<PatchLine>,
}

/// One line of a hunk; `content` has no newline at its end.
#[derive(Debug, Clone)]
pub struct PatchLine {
    pub kind: PatchLineKind,
    pub content: String,
}

/// The role of a hunk line.
#[derive(Debug, Clone, Copy, PartialEq, Eq, Structural)]
pub enum PatchLineKind {
    Context,
    Add,
    Del,
    /// The `\ No newline at end of file` marker; its content is not used.
    NoNewline,
}

/// The old-side path of a payload.
pub open spec fn old_side(payload: HunkPatchPayload) -> Seq<char> {
    match payload.old_path {
        Some(p) => p@,
        None => payload.path@,
    }
}

/// The start number that one word of a hunk header gives for a side.
pub open spec fn word_start(word: Seq<char>, sign: char) -> Option<nat> {
    if word.len() > 0 && word[0] == sign {
        parsed(pieces(word.drop_first(), just(','))[0], u64::MAX as nat)
    } else {
        None
    }
}

/// The start number of a side: that of the first word that gives one.
pub open spec fn first_start(ws: Seq<Seq<char>>, sign: char) -> Option<nat>
    decreases ws.len(),
{
    if ws.len() == 0 {
        None
    } else {
        match first_start(ws.drop_last(), sign) {
            Some(n) => Some(n),
            None => word_start(ws.last(), sign),
        }
    }
}

/// The old and the new start number of a hunk header.
pub open spec fn header_starts(header: Seq<char>) -> Option<(nat, nat)> {
    match (first_start(words(header), '-'), first_start(words(header), '+')) {
        (Some(o), Some(n)) => Some((o, n)),
        _ => None,
    }
}

/// How many lines of the hunk stand in the old file.
pub open spec fn old_count(lines: Seq<PatchLine>) -> nat
    decreases lines.len(),
{
    if lines.len() == 0 {
        0
    } else {
        old_count(lines.drop_last()) + (if lines.last().kind == PatchLineKind::Context
            || lines.last().kind == PatchLineKind::Del {
            1nat
        } else {
            0nat
        })
    }
}

/// How many lines of the hunk stand in the new file.
pub open spec fn new_count(lines: Seq<PatchLine>) -> nat
    decreases lines.len(),
{
    if lines.len() == 0 {
        0
    } else {
        new_count(lines.drop_last()) + (if lines.last().kind == PatchLineKind::Context
            || lines.last().kind == PatchLineKind::Add {
            1nat
        } else {
            0nat
        })
    }
}

/// A hunk line as it stands in the patch, without its newline.
pub open spec fn row(line: PatchLine) -> Seq<char> {
    match line.kind {
        PatchLineKind::Context => " "@ + line.content@,
        PatchLineKind::Add => "+"@ + line.content@,
        PatchLineKind::Del => "-"@ + line.content@,
        PatchLineKind::NoNewline => "\\ No newline at end of file"@,
    }
}

/// The hunk header with the counts taken from the lines.
pub open spec fn hunk_header(starts: (nat, nat), lines: Seq<PatchLine>) -> Seq<char> {
    "@@ -"@ + decimal(starts.0) + ","@ + decimal(old_count(lines)) + " +"@ + decimal(starts.1)
        + ","@ + decimal(new_count(lines)) + " @@"@
}

/// The rows of a patch, in order: three lines that name the file, the hunk header, and one row
/// for each line of the hunk.
pub open spec fn patch_rows(
    old_path: Seq<char>,
    new_path: Seq<char>,
    starts: (nat, nat),
    lines: Seq<PatchLine>,
) -> Seq<Seq<char>> {
    seq![
        "diff --git a/"@ + old_path + " b/"@ + new_path,
        "--- a/"@ + old_path,
        "+++ b/"@ + new_path,
        hunk_header(starts, lines),
    ] + lines.map_values(|l: PatchLine| row(l))
}

/// Rows put together, each ended by a newline.
pub open spec fn ended(rows: Seq<Seq<char>>) -> Seq<char>
    decreases rows.len(),
{
    if rows.len() == 0 {
        Seq::empty()
    } else {
        ended(rows.drop_last()) + rows.last() + "\n"@
    }
}

/// Why no patch is made for a payload; nothing when one is.
pub open spec fn patch_refusal(payload: HunkPatchPayload) -> Option<ErrorView> {
    if payload.is_untracked {
        Some(
            (
                ErrorKind::Validation,
                "Refusing to synthesize a patch for an untracked file; stage it whole-file instead"@,
            ),
        )
    } else if payload.lines@.len() == 0 {
        Some((ErrorKind::Validation, "Hunk payload has no lines to apply"@))
    } else if has_line_break_or_nul(payload.path@) || has_line_break_or_nul(old_side(payload)) {
        Some((ErrorKind::Validation, "Path must not contain newline or NUL characters"@))
    } else if exists|i: int|
        0 <= i < payload.lines@.len() && has_line_break_or_nul(
            #[trigger] payload.lines@[i].content@,
        ) {
        Some((ErrorKind::Validation, "Line content must not contain newline or NUL characters"@))
    } else if header_starts(payload.header@) is None {
        Some((ErrorKind::Validation, "Malformed hunk header: "@ + payload.header@))
    } else {
        None
    }
}

/// The text of the patch for a payload.
pub open spec fn patch_text(payload: HunkPatchPayload) -> Seq<char> {
    ended(
        patch_rows(
            old_side(payload),
            payload.path@,
            header_starts(payload.header@)->0,
            payload.lines@,
        ),
    )
}

/// The start number that `word` gives for the side with this sign.
fn start_in_word(word: &str, sign: char) -> (r: Option<u64>)
    ensures
        r matches Some(n) ==> word_start(word@, sign) == Some(n as nat),
        r is None ==> word_start(word@, sign) is None,
{
    let cs = chars_of(word);
    if cs.len() == 0 || cs[0] != sign {
        return None;
    }
    let rest = text_range(&cs, 1, cs.len());
    assert(rest@ =~= word@.drop_first());
    let parts = split_on(rest.as_str(), ',');
    proof {
        crate::text::lemma_pieces_non_empty(rest@, just(','));
        assert(texts(parts@).len() == parts@.len());
        assert(texts(parts@)[0] == parts@[0]@);
    }
    parse_unsigned(parts[0].as_str(), u64::MAX)
}

/// The old and the new start number of a hunk header. A count of one may be left out of the
/// header, and any text may follow its closing `@@`.
pub fn parse_starts(header: &str) -> (r: AppResult<(u64, u64)>)
    ensures
        match r {
            Ok(s) => header_starts(header@) == Some((s.0 as nat, s.1 as nat)),
            Err(e) => header_starts(header@) is None && e@ == (
                ErrorKind::Validation,
                "Malformed hunk header: "@ + header@,
            ),
        },
{
    let ws = split_words(header);
    let mut old_start: Option<u64> = None;
    let mut new_start: Option<u64> = None;
    let mut i: usize = 0;
    let ghost all = texts(ws@);
    assert(all.len() == ws@.len());
    assert(all.take(0) =~= Seq::<Seq<char>>::empty());
    while i < ws.len()
        invariant
            0 <= i <= ws@.len(),
            all == texts(ws@),
            old_start matches Some(n) ==> first_start(all.take(i as int), '-') == Some(n as nat),
            old_start is None ==> first_start(all.take(i as int), '-') is None,
            new_start matches Some(n) ==> first_start(all.take(i as int), '+') == Some(n as nat),
            new_start is None ==> first_start(all.take(i as int), '+') is None,
        decreases ws@.len() - i,
    {
        proof {
            assert(all[i as int] == ws@[i as int]@);
            assert(all.take(i + 1).drop_last() =~= all.take(i as int));
            assert(all.take(i + 1).last() == ws@[i as int]@);
        }
        if old_start.is_none() {
            old_start = start_in_word(ws[i].as_str(), '-');
        }
        if new_start.is_none() {
            new_start = start_in_word(ws[i].as_str(), '+');
        }
        i += 1;
    }
    assert(all.take(ws@.len() as int) =~= all);
    match (old_start, new_start) {
        (Some(o), Some(n)) => Ok((o, n)),
        _ => {
            let m = join2("Malformed hunk header: ", header);
            Err(AppError::validation(m.as_str()))
        },
    }
}

/// Appends `prefix`, `content` and a newline.
fn push_row(out: &mut String, prefix: &str, content: &str)
    ensures
        final(out)@ == old(out)@ + (prefix@ + content@) + "\n"@,
{
    out.append(prefix);
    out.append(content);
    out.append("\n");
    assert(out@ =~= old(out)@ + (prefix@ + content@) + "\n"@);
}

/// The counts of a hunk never exceed its number of lines.
proof fn lemma_counts_bounded(lines: Seq<PatchLine>)
    ensures
        old_count(lines) <= lines.len(),
        new_count(lines) <= lines.len(),
    decreases lines.len(),
{
    if lines.len() > 0 {
        lemma_counts_bounded(lines.drop_last());
    }
}

/// One more row.
proof fn lemma_ended_push(rows: Seq<Seq<char>>, r: Seq<char>)
    ensures
        ended(rows.push(r)) == ended(rows) + r + "\n"@,
{
    assert(rows.push(r).drop_last() =~= rows);
}

/// The hunk header with the counts taken from the lines.
fn header_line(starts: (u64, u64), lines: &Vec<PatchLine>) -> (r: String)
    ensures
        r@ == hunk_header((starts.0 as nat, starts.1 as nat), lines@),
{
    let mut old_n: u64 = 0;
    let mut new_n: u64 = 0;
    let mut i: usize = 0;
    assert(lines@.take(0) =~= Seq::<PatchLine>::empty());
    while i < lines.len()
        invariant
            0 <= i <= lines@.len(),
            old_n == old_count(lines@.take(i as int)),
            new_n == new_count(lines@.take(i as int)),
        decreases lines@.len() - i,
    {
        proof {
            lemma_counts_bounded(lines@.take(i as int));
            assert(lines@.take(i + 1).drop_last() =~= lines@.take(i as int));
            assert(lines@.take(i + 1).last() == lines@[i as int]);
        }
        match lines[i].kind {
            PatchLineKind::Context => {
                old_n += 1;
                new_n += 1;
            },
            PatchLineKind::Add => {
                new_n += 1;
            },
            PatchLineKind::Del => {
                old_n += 1;
            },
            PatchLineKind::NoNewline => {},
        }
        i += 1;
    }
    assert(lines@.take(lines@.len() as int) =~= lines@);
    let mut h = owned("@@ -");
    h.append(to_decimal(starts.0).as_str());
    h.append(",");
    h.append(to_decimal(old_n).as_str());
    h.append(" +");
    h.append(to_decimal(starts.1).as_str());
    h.append(",");
    h.append(to_decimal(new_n).as_str());
    h.append(" @@");
    h
}

/// Builds the single-hunk unified diff for `payload`: the lines that name the file, one hunk
/// header with recomputed counts, and the lines of the hunk.
///
/// Refused are untracked payloads, payloads without lines, paths or content with a newline or
/// NUL (they would forge lines of the patch), and headers without start numbers.
pub fn build_patch(payload: &HunkPatchPayload) -> (r: AppResult<Vec<u8>>)
    ensures
        match r {
            Ok(bytes) => patch_refusal(*payload) is None && bytes@ == encode_utf8(
                patch_text(*payload),
            ),
            Err(e) => patch_refusal(*payload) == Some(e@),
        },
{
    if payload.is_untracked {
        return Err(
            AppError::validation(
                "Refusing to synthesize a patch for an untracked file; stage it whole-file instead",
            ),
        );
    }
    if payload.lines.len() == 0 {
        return Err(AppError::validation("Hunk payload has no lines to apply"));
    }
    let new_path = payload.path.as_str();
    let old_path = match &payload.old_path {
        Some(p) => p.as_str(),
        None => new_path,
    };
    if breaks_line(new_path) || breaks_line(old_path) {
        return Err(AppError::validation("Path must not contain newline or NUL characters"));
    }
    let lines = &payload.lines;
    let mut i: usize = 0;
    while i < lines.len()
        invariant
            0 <= i <= lines@.len(),
            lines@ == payload.lines@,
            !payload.is_untracked,
            lines@.len() > 0,
            !has_line_break_or_nul(payload.path@),
            !has_line_break_or_nul(old_side(*payload)),
            forall|j: int| 0 <= j < i ==> !has_line_break_or_nul(#[trigger] lines@[j].content@),
        decreases lines@.len() - i,
    {
        if breaks_line(lines[i].content.as_str()) {
            assert(has_line_break_or_nul(payload.lines@[i as int].content@));
            return Err(
                AppError::validation("Line content must not contain newline or NUL characters"),
            );
        }
        i += 1;
    }
    let starts = match parse_starts(payload.header.as_str()) {
        Ok(s) => s,
        Err(e) => return Err(e),
    };
    let ghost nat_starts = (starts.0 as nat, starts.1 as nat);
    let header = header_line(starts, lines);
    let mut out = String::new();
    let ghost r0 = Seq::<Seq<char>>::empty();
    let ghost r1 = r0.push("diff --git a/"@ + old_path@ + " b/"@ + new_path@);
    let ghost r2 = r1.push("--- a/"@ + old_path@);
    let ghost r3 = r2.push("+++ b/"@ + new_path@);
    let ghost r4 = r3.push(header@);
    let first = crate::text::join3(old_path, " b/", new_path);
    push_row(&mut out, "diff --git a/", first.as_str());
    push_row(&mut out, "--- a/", old_path);
    push_row(&mut out, "+++ b/", new_path);
    push_row(&mut out, "", header.as_str());
    proof {
        reveal_strlit("");
        lemma_ended_push(r0, r1.last());
        lemma_ended_push(r1, r2.last());
        lemma_ended_push(r2, r3.last());
        lemma_ended_push(r3, r4.last());
        assert(""@ + header@ =~= header@);
        assert("diff --git a/"@ + first@ =~= r1.last());
        assert(out@ =~= ended(r4));
    }
    let ghost rows = lines@.map_values(|l: PatchLine| row(l));
    let mut i: usize = 0;
    assert(r4 + rows.take(0) =~= r4);
    while i < lines.len()
        invariant
            0 <= i <= lines@.len(),
            rows == lines@.map_values(|l: PatchLine| row(l)),
            out@ == ended(r4 + rows.take(i as int)),
        decreases lines@.len() - i,
    {
        let line = &lines[i];
        proof {
            assert(rows[i as int] == row(lines@[i as int]));
            assert(r4 + rows.take(i + 1) =~= (r4 + rows.take(i as int)).push(rows[i as int]));
            lemma_ended_push(r4 + rows.take(i as int), rows[i as int]);
        }
        match line.kind {
            PatchLineKind::Context => push_row(&mut out, " ", line.content.as_str()),
            PatchLineKind::Add => push_row(&mut out, "+", line.content.as_str()),
            PatchLineKind::Del => push_row(&mut out, "-", line.content.as_str()),
            PatchLineKind::NoNewline => {
                push_row(&mut out, "", "\\ No newline at end of file");
                proof {
                    reveal_strlit("");
                    assert(""@ + "\\ No newline at end of file"@
                        =~= "\\ No newline at end of file"@);
                }
            },
        }
        i += 1;
    }
    proof {
        assert(rows.take(lines@.len() as int) =~= rows);
        assert(r4 + rows =~= patch_rows(old_path@, new_path@, nat_starts, lines@));
    }
    Ok(bytes_of(out.as_str()))
}

/// Rows without newlines, each ended by one, are what lies between the newlines.
pub proof fn lemma_ended_rows(rows: Seq<Seq<char>>)
    requires
        forall|i: int| 0 <= i < rows.len() ==> !(#[trigger] rows[i]).contains('\n'),
    ensures
        pieces(ended(rows), just('\n')) == rows.push(Seq::<char>::empty()),
    decreases rows.len(),
{
    let sep = just('\n');
    let none = Seq::<char>::empty();
    lemma_pieces_single(none, sep);
    if rows.len() == 0 {
        assert(seq![none] =~= rows.push(none));
    } else {
        let t = rows.drop_last();
        let last = rows.last();
        assert forall|i: int| 0 <= i < t.len() implies !(#[trigger] t[i]).contains('\n') by {
            assert(t[i] == rows[i]);
        }
        lemma_ended_rows(t);
        assert(!rows[rows.len() - 1].contains('\n'));
        assert forall|i: int| 0 <= i < last.len() implies !sep(#[trigger] last[i]) by {
            assert(last[i] != '\n');
        }
        crate::text::lemma_pieces_extend(ended(t), last, sep);
        assert(none + last =~= last);
        assert(t.push(none).update(t.len() as int, last) =~= rows);
        reveal_strlit("\n");
        assert(ended(t) + last + "\n"@ =~= (ended(t) + last).push('\n') + none);
        lemma_pieces_join(ended(t) + last, '\n', none, sep);
        assert(rows + seq![none] =~= rows.push(none));
    }
}

/// Neither of two texts holds `c`, so their concatenation does not.
proof fn lemma_clean_add(a: Seq<char>, b: Seq<char>, c: char)
    requires
        !a.contains(c),
        !b.contains(c),
    ensures
        !(a + b).contains(c),
{
    if (a + b).contains(c) {
        let i = choose|i: int| 0 <= i < (a + b).len() && (a + b)[i] == c;
        if i < a.len() {
            assert(a[i] == c);
        } else {
            assert(b[i - a.len()] == c);
        }
    }
}

/// A decimal text holds digits alone.
proof fn lemma_decimal_clean(n: nat, c: char)
    requires
        !is_digit(c),
    ensures
        !decimal(n).contains(c),
{
    lemma_decimal_value(n);
    if decimal(n).contains(c) {
        let i = choose|i: int| 0 <= i < decimal(n).len() && decimal(n)[i] == c;
        assert(is_digit(decimal(n)[i]));
    }
}

/// The hunk header holds no newline.
proof fn lemma_header_clean(starts: (nat, nat), lines: Seq<PatchLine>)
    ensures
        !hunk_header(starts, lines).contains('\n'),
{
    reveal_strlit("@@ -");
    reveal_strlit(",");
    reveal_strlit(" +");
    reveal_strlit(" @@");
    let c = '\n';
    lemma_decimal_clean(starts.0, c);
    lemma_decimal_clean(starts.1, c);
    lemma_decimal_clean(old_count(lines), c);
    lemma_decimal_clean(new_count(lines), c);
    let a = "@@ -"@ + decimal(starts.0);
    lemma_clean_add("@@ -"@, decimal(starts.0), c);
    lemma_clean_add(a, ","@, c);
    let b = a + ","@ + decimal(old_count(lines));
    lemma_clean_add(a + ","@, decimal(old_count(lines)), c);
    lemma_clean_add(b, " +"@, c);
    let d = b + " +"@ + decimal(starts.1);
    lemma_clean_add(b + " +"@, decimal(starts.1), c);
    lemma_clean_add(d, ","@, c);
    let e = d + ","@ + decimal(new_count(lines));
    lemma_clean_add(d + ","@, decimal(new_count(lines)), c);
    lemma_clean_add(e, " @@"@, c);
}

/// No row of an accepted payload's patch holds a newline.
pub proof fn lemma_patch_rows_clean(payload: HunkPatchPayload)
    requires
        patch_refusal(payload) is None,
    ensures
        forall|i: int|
            0 <= i < patch_rows(
                old_side(payload),
                payload.path@,
                header_starts(payload.header@)->0,
                payload.lines@,
            ).len() ==> !(#[trigger] patch_rows(
                old_side(payload),
                payload.path@,
                header_starts(payload.header@)->0,
                payload.lines@,
            )[i]).contains('\n'),
{
    let starts = header_starts(payload.header@)->0;
    let lines = payload.lines@;
    let (o, n) = (old_side(payload), payload.path@);
    let rows = patch_rows(o, n, starts, lines);
    let c = '\n';
    reveal_strlit("diff --git a/");
    reveal_strlit(" b/");
    reveal_strlit("--- a/");
    reveal_strlit("+++ b/");
    reveal_strlit(" ");
    reveal_strlit("+");
    reveal_strlit("-");
    reveal_strlit("\\ No newline at end of file");
    assert forall|i: int| 0 <= i < rows.len() implies !(#[trigger] rows[i]).contains(c) by {
        if i == 0 {
            lemma_clean_add("diff --git a/"@, o, c);
            lemma_clean_add("diff --git a/"@ + o, " b/"@, c);
            lemma_clean_add("diff --git a/"@ + o + " b/"@, n, c);
        } else if i == 1 {
            lemma_clean_add("--- a/"@, o, c);
        } else if i == 2 {
            lemma_clean_add("+++ b/"@, n, c);
        } else if i == 3 {
            lemma_header_clean(starts, lines);
        } else {
            let l = lines[i - 4];
            assert(rows[i] == row(l));
            assert(!has_line_break_or_nul(l.content@));
            lemma_clean_add(" "@, l.content@, c);
            lemma_clean_add("+"@, l.content@, c);
            lemma_clean_add("-"@, l.content@, c);
        }
    }
}

/// Nothing in a payload can forge a line of the patch: the lines of an accepted payload's patch
/// are the three that name the file, the hunk header, and exactly one for each line of the
/// hunk, with the content as it stands.
pub proof fn law_patch_has_no_forged_lines(payload: HunkPatchPayload)
    requires
        patch_refusal(payload) is None,
    ensures
        pieces(patch_text(payload), just('\n')) == patch_rows(
            old_side(payload),
            payload.path@,
            header_starts(payload.header@)->0,
            payload.lines@,
        ).push(Seq::<char>::empty()),
{
    lemma_patch_rows_clean(payload);
    lemma_ended_rows(
        patch_rows(
            old_side(payload),
            payload.path@,
            header_starts(payload.header@)->0,
            payload.lines@,
        ),
    );
}

/// A word at the end of a text, behind white space.
proof fn lemma_words_push(s: Seq<char>, w: Seq<char>)
    requires
        w.len() > 0,
        forall|i: int| 0 <= i < w.len() ==> !is_white(#[trigger] w[i]),
    ensures
        words(s.push(' ') + w) == words(s).push(w),
{
    let sep = any_white();
    assert forall|i: int| 0 <= i < w.len() implies !sep(#[trigger] w[i]) by {}
    assert(sep(' '));
    lemma_pieces_single(w, sep);
    lemma_pieces_join(s, ' ', w, sep);
    assert(pieces(s, sep) + seq![w] =~= pieces(s, sep).push(w));
    lemma_filter_push(pieces(s, sep), w);
}

/// A text that is a single word.
proof fn lemma_words_single(w: Seq<char>)
    requires
        w.len() > 0,
        forall|i: int| 0 <= i < w.len() ==> !is_white(#[trigger] w[i]),
    ensures
        words(w) == Seq::<Seq<char>>::empty().push(w),
{
    let sep = any_white();
    let none = Seq::<Seq<char>>::empty();
    assert forall|i: int| 0 <= i < w.len() implies !sep(#[trigger] w[i]) by {}
    lemma_pieces_single(w, sep);
    assert(seq![w] =~= none.push(w));
    lemma_filter_push(none, w);
    assert(non_empty(none) =~= none) by {
        reveal(Seq::filter);
    }
}

/// One side of a hunk header: a sign, the start and the count.
spec fn side_word(sign: char, start: nat, count: nat) -> Seq<char> {
    seq![sign] + decimal(start) + ","@ + decimal(count)
}

/// One side of a hunk header holds no white space, and gives its start number.
proof fn lemma_side_word(sign: char, start: nat, count: nat)
    requires
        sign == '+' || sign == '-',
        start <= u64::MAX,
    ensures
        side_word(sign, start, count).len() > 0,
        forall|i: int|
            0 <= i < side_word(sign, start, count).len() ==> !is_white(
                #[trigger] side_word(sign, start, count)[i],
            ),
        word_start(side_word(sign, start, count), sign) == Some(start),
        word_start(side_word(sign, start, count), if sign == '+' {
            '-'
        } else {
            '+'
        }) is None,
{
    reveal_strlit(",");
    let w = side_word(sign, start, count);
    let (ds, dc) = (decimal(start), decimal(count));
    lemma_decimal_value(start);
    lemma_decimal_value(count);
    assert forall|i: int| 0 <= i < w.len() implies !is_white(#[trigger] w[i]) by {
        if i == 0 {
        } else if i < 1 + ds.len() {
            assert(w[i] == ds[i - 1]);
            assert(is_digit(ds[i - 1]));
        } else if i == 1 + ds.len() {
        } else {
            assert(w[i] == dc[i - 2 - ds.len()]);
            assert(is_digit(dc[i - 2 - ds.len()]));
        }
    }
    let sep = just(',');
    assert(w.drop_first() =~= ds.push(',') + dc);
    lemma_pieces_join(ds, ',', dc, sep);
    assert forall|i: int| 0 <= i < ds.len() implies !sep(#[trigger] ds[i]) by {
        assert(is_digit(ds[i]));
    }
    lemma_pieces_single(ds, sep);
    law_decimal_reads_back(start, u64::MAX as nat);
}

/// The words of a hunk header.
proof fn lemma_header_words(starts: (nat, nat), lines: Seq<PatchLine>)
    requires
        starts.0 <= u64::MAX,
        starts.1 <= u64::MAX,
    ensures
        words(hunk_header(starts, lines)) == Seq::<Seq<char>>::empty().push(seq!['@', '@']).push(
            side_word('-', starts.0, old_count(lines)),
        ).push(side_word('+', starts.1, new_count(lines))).push(seq!['@', '@']),
{
    let at = seq!['@', '@'];
    let (d0, c0) = (decimal(starts.0), decimal(old_count(lines)));
    let (d1, c1) = (decimal(starts.1), decimal(new_count(lines)));
    let a = side_word('-', starts.0, old_count(lines));
    let b = side_word('+', starts.1, new_count(lines));
    lemma_side_word('-', starts.0, old_count(lines));
    lemma_side_word('+', starts.1, new_count(lines));
    let p1 = "@@ -"@ + d0 + ","@ + c0;
    assert(p1 =~= at.push(' ') + a) by {
        reveal_strlit("@@ -");
    }
    let p2 = p1 + " +"@ + d1 + ","@ + c1;
    assert(p2 =~= p1.push(' ') + b) by {
        reveal_strlit(" +");
    }
    assert(hunk_header(starts, lines) =~= p2.push(' ') + at) by {
        reveal_strlit(" @@");
    }
    assert forall|i: int| 0 <= i < at.len() implies !is_white(#[trigger] at[i]) by {}
    lemma_words_single(at);
    lemma_words_push(at, a);
    lemma_words_push(p1, b);
    lemma_words_push(p2, at);
}

/// One more word decides only where none before it did.
proof fn lemma_first_start_push(ws: Seq<Seq<char>>, w: Seq<char>, sign: char)
    ensures
        first_start(ws.push(w), sign) == match first_start(ws, sign) {
            Some(n) => Some(n),
            None => word_start(w, sign),
        },
{
    assert(ws.push(w).drop_last() =~= ws);
}

/// The recomputed header keeps the start numbers: reading it back gives the ones it was made
/// from.
pub proof fn law_header_reads_back(starts: (nat, nat), lines: Seq<PatchLine>)
    requires
        starts.0 <= u64::MAX,
        starts.1 <= u64::MAX,
    ensures
        header_starts(hunk_header(starts, lines)) == Some(starts),
{
    let at = seq!['@', '@'];
    let a = side_word('-', starts.0, old_count(lines));
    let b = side_word('+', starts.1, new_count(lines));
    lemma_header_words(starts, lines);
    lemma_side_word('-', starts.0, old_count(lines));
    lemma_side_word('+', starts.1, new_count(lines));
    let none = Seq::<Seq<char>>::empty();
    assert(word_start(at, '-') is None);
    assert(word_start(at, '+') is None);
    lemma_first_start_push(none, at, '-');
    lemma_first_start_push(none.push(at), a, '-');
    lemma_first_start_push(none.push(at).push(a), b, '-');
    lemma_first_start_push(none.push(at).push(a).push(b), at, '-');
    lemma_first_start_push(none, at, '+');
    lemma_first_start_push(none.push(at), a, '+');
    lemma_first_start_push(none.push(at).push(a), b, '+');
    lemma_first_start_push(none.push(at).push(a).push(b), at, '+');
}

/// The lines of one side of a hunk are its context lines and those of its own kind.
proof fn lemma_counts_are_of_kinds(lines: Seq<PatchLine>)
    ensures
        old_count(lines) == lines.filter(
            |l: PatchLine| l.kind is Context || l.kind is Del,
        ).len(),
        new_count(lines) == lines.filter(
            |l: PatchLine| l.kind is Context || l.kind is Add,
        ).len(),
    decreases lines.len(),
{
    reveal(Seq::filter);
    if lines.len() > 0 {
        lemma_counts_are_of_kinds(lines.drop_last());
    }
}

/// The patch of a hunk, line by line: the paths of both sides, each on its own side; a header with
/// the start numbers of the displayed one and with as many lines on each side as the hunk has; and
/// then every line of the hunk in order, behind a blank, a plus or a minus by its role. Nothing
/// follows the last newline.
pub proof fn law_patch_is_the_hunk_line_by_line(payload: HunkPatchPayload, starts: (nat, nat))
    requires
        patch_refusal(payload) is None,
        header_starts(payload.header@) == Some(starts),
    ensures
        ({
            let rows = pieces(patch_text(payload), just('\n'));
            let old_path = match payload.old_path {
                Some(p) => p@,
                None => payload.path@,
            };
            let lines = payload.lines@;
            let n_old = lines.filter(|l: PatchLine| l.kind is Context || l.kind is Del).len();
            let n_new = lines.filter(|l: PatchLine| l.kind is Context || l.kind is Add).len();
            &&& rows.len() == lines.len() + 5
            &&& rows[0] == "diff --git a/"@ + old_path + " b/"@ + payload.path@
            &&& rows[1] == "--- a/"@ + old_path
            &&& rows[2] == "+++ b/"@ + payload.path@
            &&& rows[3] == "@@ -"@ + decimal(starts.0) + ","@ + decimal(n_old) + " +"@ + decimal(
                starts.1,
            ) + ","@ + decimal(n_new) + " @@"@
            &&& forall|i: int|
                0 <= i < lines.len() ==> match (#[trigger] lines[i]).kind {
                    PatchLineKind::Context => rows[4 + i] == seq![' '] + lines[i].content@,
                    PatchLineKind::Add => rows[4 + i] == seq!['+'] + lines[i].content@,
                    PatchLineKind::Del => rows[4 + i] == seq!['-'] + lines[i].content@,
                    PatchLineKind::NoNewline => rows[4 + i] == "\\ No newline at end of file"@,
                }
            &&& rows.last().len() == 0
        }),
{
    law_patch_has_no_forged_lines(payload);
    lemma_counts_are_of_kinds(payload.lines@);
    reveal_strlit(" ");
    reveal_strlit("+");
    reveal_strlit("-");
    assert(" "@ =~= seq![' ']);
    assert("+"@ =~= seq!['+']);
    assert("-"@ =~= seq!['-']);
    let lines = payload.lines@;
    let rows = pieces(patch_text(payload), just('\n'));
    let head = patch_rows(old_side(payload), payload.path@, starts, lines);
    assert forall|i: int| 0 <= i < lines.len() implies match (#[trigger] lines[i]).kind {
        PatchLineKind::Context => rows[4 + i] == seq![' '] + lines[i].content@,
        PatchLineKind::Add => rows[4 + i] == seq!['+'] + lines[i].content@,
        PatchLineKind::Del => rows[4 + i] == seq!['-'] + lines[i].content@,
        PatchLineKind::NoNewline => rows[4 + i] == "\\ No newline at end of file"@,
    } by {
        assert(head[4 + i] == row(lines[i]));
        assert(rows[4 + i] == head[4 + i]);
    }
}

/// A patch is made of a payload exactly where the file is tracked, there is a line to apply,
/// neither path nor any line could break out of its row, and the header has its two start
/// numbers.
pub proof fn law_patch_is_made_of_what_fits_in_one(payload: &HunkPatchPayload, r: AppResult<Vec<u8>>)
    requires
        call_ensures(build_patch, (payload,), r),
    ensures
        r is Ok <==> {
            &&& !payload.is_untracked
            &&& payload.lines@.len() > 0
            &&& !payload.path@.contains('\n') && !payload.path@.contains('\0')
            &&& payload.old_path matches Some(p) ==> !p@.contains('\n') && !p@.contains('\0')
            &&& forall|i: int|
                0 <= i < payload.lines@.len() ==> !(#[trigger] payload.lines@[i]).content@.contains(
                    '\n',
                ) && !payload.lines@[i].content@.contains('\0')
            &&& header_starts(payload.header@) is Some
        },
        r matches Err(e) ==> e@.0 == ErrorKind::Validation,
        r matches Ok(patch) ==> patch@ == encode_utf8(patch_text(*payload)),
{
    if forall|i: int|
        0 <= i < payload.lines@.len() ==> !(#[trigger] payload.lines@[i]).content@.contains('\n')
            && !payload.lines@[i].content@.contains('\0') {
        assert forall|i: int| 0 <= i < payload.lines@.len() implies !has_line_break_or_nul(
            #[trigger] payload.lines@[i].content@,
        ) by {
            assert(!payload.lines@[i].content@.contains('\n'));
        }
    } else {
        let i = choose|i: int|
            0 <= i < payload.lines@.len() && !(!(#[trigger] payload.lines@[i]).content@.contains(
                '\n',
            ) && !payload.lines@[i].content@.contains('\0'));
        assert(has_line_break_or_nul(payload.lines@[i].content@));
    }
}

/// A word of a header that starts with a sign and a number gives that number, with or without a
/// count behind a comma.
proof fn lemma_signed_word(sign: char, n: nat, tail: Seq<char>)
    requires
        n <= u64::MAX,
        tail.len() > 0 ==> tail[0] == ',',
    ensures
        word_start(seq![sign] + decimal(n) + tail, sign) == Some(n),
{
    let d = decimal(n);
    let w = seq![sign] + d + tail;
    let sep = just(',');
    lemma_decimal_value(n);
    assert forall|i: int| 0 <= i < d.len() implies !sep(#[trigger] d[i]) by {
        assert(is_digit(d[i]));
    }
    lemma_pieces_single(d, sep);
    law_decimal_reads_back(n, u64::MAX as nat);
    if tail.len() == 0 {
        assert(w.drop_first() =~= d);
    } else {
        assert(w.drop_first() =~= d.push(',') + tail.skip(1));
        lemma_pieces_join(d, ',', tail.skip(1), sep);
    }
    assert(pieces(w.drop_first(), sep)[0] == d);
}

/// Words behind the first that decides change nothing.
proof fn lemma_later_words(ws: Seq<Seq<char>>, rest: Seq<Seq<char>>, sign: char, n: nat)
    requires
        first_start(ws, sign) == Some(n),
    ensures
        first_start(ws + rest, sign) == Some(n),
    decreases rest.len(),
{
    if rest.len() == 0 {
        assert(ws + rest =~= ws);
    } else {
        lemma_later_words(ws, rest.drop_last(), sign, n);
        assert((ws + rest).drop_last() =~= ws + rest.drop_last());
    }
}

/// Any hunk header gives its two start numbers, whatever counts follow them and whatever text
/// stands behind the second `@@`.
pub proof fn law_header_gives_its_start_numbers(
    header: &str,
    old_start: u64,
    new_start: u64,
    old_tail: Seq<char>,
    new_tail: Seq<char>,
    rest: Seq<Seq<char>>,
    r: AppResult<(u64, u64)>,
)
    requires
        call_ensures(parse_starts, (header,), r),
        old_tail.len() > 0 ==> old_tail[0] == ',',
        new_tail.len() > 0 ==> new_tail[0] == ',',
        words(header@) == seq![
            seq!['@', '@'],
            seq!['-'] + decimal(old_start as nat) + old_tail,
            seq!['+'] + decimal(new_start as nat) + new_tail,
        ] + rest,
    ensures
        r == Ok::<(u64, u64), AppError>((old_start, new_start)),
{
    let at = seq!['@', '@'];
    let a = seq!['-'] + decimal(old_start as nat) + old_tail;
    let b = seq!['+'] + decimal(new_start as nat) + new_tail;
    let none = Seq::<Seq<char>>::empty();
    lemma_signed_word('-', old_start as nat, old_tail);
    lemma_signed_word('+', new_start as nat, new_tail);
    lemma_first_start_push(none, at, '-');
    lemma_first_start_push(none.push(at), a, '-');
    lemma_first_start_push(none.push(at).push(a), b, '-');
    lemma_first_start_push(none, at, '+');
    lemma_first_start_push(none.push(at), a, '+');
    lemma_first_start_push(none.push(at).push(a), b, '+');
    assert(word_start(a, '+') is None);
    let ws = none.push(at).push(a).push(b);
    assert(seq![at, a, b] =~= ws);
    lemma_later_words(ws, rest, '-', old_start as nat);
    lemma_later_words(ws, rest, '+', new_start as nat);
}

/// A payload that no patch can be made of is refused with the first reason there is.
pub proof fn law_refused_payloads_are_told_why(payload: &HunkPatchPayload, r: AppResult<Vec<u8>>)
    requires
        call_ensures(build_patch, (payload,), r),
    ensures
        payload.is_untracked ==> r is Err && r->Err_0@.1
            == "Refusing to synthesize a patch for an untracked file; stage it whole-file instead"@,
        !payload.is_untracked && payload.lines@.len() == 0 ==> r is Err && r->Err_0@.1
            == "Hunk payload has no lines to apply"@,
        !payload.is_untracked && payload.lines@.len() > 0 && (payload.path@.contains('\n')
            || payload.path@.contains('\0')) ==> r is Err && r->Err_0@.1
            == "Path must not contain newline or NUL characters"@,
        r is Err && !payload.is_untracked && payload.lines@.len() > 0 && header_starts(
            payload.header@,
        ) is Some ==> r->Err_0@.1 == "Path must not contain newline or NUL characters"@
            || r->Err_0@.1 == "Line content must not contain newline or NUL characters"@,
        r is Err && !payload.is_untracked && payload.lines@.len() > 0 && !payload.path@.contains(
            '\n',
        ) && !payload.path@.contains('\0') && payload.old_path is None && (forall|i: int|
            0 <= i < payload.lines@.len() ==> !(#[trigger] payload.lines@[i]).content@.contains(
                '\n',
            ) && !payload.lines@[i].content@.contains('\0')) ==> r->Err_0@.1
            == "Malformed hunk header: "@ + payload.header@,
{
    if forall|i: int|
        0 <= i < payload.lines@.len() ==> !(#[trigger] payload.lines@[i]).content@.contains('\n')
            && !payload.lines@[i].content@.contains('\0') {
        assert forall|i: int| 0 <= i < payload.lines@.len() implies !has_line_break_or_nul(
            #[trigger] payload.lines@[i].content@,
        ) by {
            let l = payload.lines@[i];
            assert(!l.content@.contains('\n'));
        }
    }
}

} // verus!

//! The diff of a single file, out of what libgit2 reports.
//!
//! Which diffs to run, which of their deltas is the file's, and how lines become text is
//! decided here; running a diff is left to the caller, who hands in two functions for it.

use crate::error::{outcome, AppError, AppResult, ErrorView};
use crate::git::MAX_DIFF_BYTES;
use crate::pathname::{components, extension, extension_of, file_name, file_name_of, split_path};
use crate::seqs::{first_where, lemma_first_is, lemma_first_none, lemma_first_where};
use crate::text::{
    decode_lossy, decode_strict, lossy_text, lowercase, lowered, opt_text, owned, same_text,
    strip_last, texts, without_last,
};
use vstd::prelude::*;
use vstd::utf8::{decode_utf8, encode_utf8, valid_utf8};

verus! {

/// The kind of a diff line.
#[derive(Debug, Clone, Copy, PartialEq, Eq, Structural)]
pub enum DiffLineKind {
    Context,
    Add,
    Del,
    NoNewline,
}

/// A line of a hunk.
#[derive(Debug, Clone)]
pub struct DiffLine {
    pub kind: DiffLineKind,
    pub old_line_no: Option<u32>,
    pub new_line_no: Option<u32>,
    pub content: String,
}

/// A block of changes with its `@@ ... @@` header.
#[derive(Debug, Clone)]
pub struct Hunk {
    pub header: String,
    pub old_start: u32,
    pub old_lines: u32,
    pub new_start: u32,
    pub new_lines: u32,
    pub lines: Vec<DiffLine>,
}

/// The diff of a single file.
#[derive(Debug, Clone)]
pub struct FileDiff {
    pub path: String,
    pub old_path: Option<String>,
    pub language: Option<String>,
    pub is_binary: bool,
    pub is_untracked: bool,
    /// Whether any line held bytes that are not UTF-8. Such a file must not be staged hunk by
    /// hunk: the text shown for it does not hold its bytes.
    pub is_lossy: bool,
    pub hunks: Vec<Hunk>,
}

/// What a delta does to its file.
#[derive(Debug, Clone, Copy, PartialEq, Eq, Structural)]
pub enum DeltaStatus {
    Unmodified,
    Added,
    Deleted,
    Modified,
    Renamed,
    Copied,
    Ignored,
    Untracked,
    Typechange,
    Unreadable,
    Conflicted,
}

/// A delta of a diff as libgit2 reports it.
#[derive(Debug, Clone)]
pub struct RawDelta {
    pub status: DeltaStatus,
    pub new_path: Option<String>,
    pub old_path: Option<String>,
}

/// Where a line of a patch comes from, as libgit2 reports it.
#[derive(Debug, Clone, Copy, PartialEq, Eq, Structural)]
pub enum LineOrigin {
    Context,
    Addition,
    Deletion,
    ContextEofnl,
    AddEofnl,
    DeleteEofnl,
    FileHeader,
    HunkHeader,
    Binary,
}

/// A line of a patch as libgit2 reports it.
#[derive(Debug, Clone)]
pub struct RawLine {
    pub origin: LineOrigin,
    pub old_lineno: Option<u32>,
    pub new_lineno: Option<u32>,
    pub content: Vec<u8>,
}

/// A hunk of a patch as libgit2 reports it.
#[derive(Debug, Clone)]
pub struct RawHunk {
    pub header: Vec<u8>,
    pub old_start: u32,
    pub old_lines: u32,
    pub new_start: u32,
    pub new_lines: u32,
    pub lines: Vec<RawLine>,
}

/// The patch of one delta: which sides libgit2 took for binary, and the hunks where there is
/// text.
#[derive(Debug, Clone)]
pub struct RawPatch {
    pub new_is_binary: bool,
    pub old_is_binary: bool,
    pub hunks: Option<Vec<RawHunk>>,
}

/// A diff to run, with its options.
#[derive(Debug, Clone)]
pub struct DiffRequest {
    /// HEAD against the index where set, the index against the working tree otherwise.
    pub staged: bool,
    pub context_lines: u32,
    /// The one path to look at, taken literally; every path where there is none.
    pub path: Option<String>,
    /// Whether untracked files are reported, in all directories and with their content.
    pub untracked: bool,
    /// Whether a delete and an add are paired into a rename.
    pub find_renames: bool,
    /// Whether copies are looked for as well.
    pub find_copies: bool,
    pub max_size: i64,
}

/// A diff line as contracts speak of it.
#[verifier::ext_equal]
pub struct LineView {
    pub kind: DiffLineKind,
    pub old_line_no: Option<u32>,
    pub new_line_no: Option<u32>,
    pub content: Seq<char>,
}

/// A hunk as contracts speak of it.
#[verifier::ext_equal]
pub struct HunkView {
    pub header: Seq<char>,
    pub old_start: u32,
    pub old_lines: u32,
    pub new_start: u32,
    pub new_lines: u32,
    pub lines: Seq<LineView>,
}

/// A file diff as contracts speak of it.
#[verifier::ext_equal]
pub struct FileDiffView {
    pub path: Seq<char>,
    pub old_path: Option<Seq<char>>,
    pub language: Option<Seq<char>>,
    pub is_binary: bool,
    pub is_untracked: bool,
    pub is_lossy: bool,
    pub hunks: Seq<HunkView>,
}

/// A diff request as contracts speak of it.
#[verifier::ext_equal]
pub struct RequestView {
    pub staged: bool,
    pub context_lines: u32,
    pub path: Option<Seq<char>>,
    pub untracked: bool,
    pub find_renames: bool,
    pub find_copies: bool,
    pub max_size: i64,
}

impl View for DiffLine {
    type V = LineView;

    open spec fn view(&self) -> LineView {
        LineView {
            kind: self.kind,
            old_line_no: self.old_line_no,
            new_line_no: self.new_line_no,
            content: self.content@,
        }
    }
}

impl View for Hunk {
    type V = HunkView;

    open spec fn view(&self) -> HunkView {
        HunkView {
            header: self.header@,
            old_start: self.old_start,
            old_lines: self.old_lines,
            new_start: self.new_start,
            new_lines: self.new_lines,
            lines: self.lines@.map_values(|l: DiffLine| l@),
        }
    }
}

impl View for FileDiff {
    type V = FileDiffView;

    open spec fn view(&self) -> FileDiffView {
        FileDiffView {
            path: self.path@,
            old_path: opt_text(self.old_path),
            language: opt_text(self.language),
            is_binary: self.is_binary,
            is_untracked: self.is_untracked,
            is_lossy: self.is_lossy,
            hunks: self.hunks@.map_values(|h: Hunk| h@),
        }
    }
}

impl View for DiffRequest {
    type V = RequestView;

    open spec fn view(&self) -> RequestView {
        RequestView {
            staged: self.staged,
            context_lines: self.context_lines,
            path: opt_text(self.path),
            untracked: self.untracked,
            find_renames: self.find_renames,
            find_copies: self.find_copies,
            max_size: self.max_size,
        }
    }
}

/// Whether one side of a delta is this path.
pub open spec fn side_is(side: Option<String>, path: Seq<char>) -> bool {
    side matches Some(p) && components(p@) == components(path)
}

/// The predicate "either side is this path".
pub open spec fn touches(path: Seq<char>) -> spec_fn(RawDelta) -> bool {
    |d: RawDelta| side_is(d.new_path, path) || side_is(d.old_path, path)
}

/// The predicate "the new side is this path".
pub open spec fn arrives_at(path: Seq<char>) -> spec_fn(RawDelta) -> bool {
    |d: RawDelta| side_is(d.new_path, path)
}

/// Whether `p` and `q` are the same path.
fn same_path(p: &str, q: &str) -> (r: bool)
    ensures
        r == (components(p@) == components(q@)),
{
    let a = split_path(p);
    let b = split_path(q);
    proof {
        assert(texts(a@).len() == a@.len());
        assert(texts(b@).len() == b@.len());
    }
    if a.len() != b.len() {
        return false;
    }
    let mut i: usize = 0;
    while i < a.len()
        invariant
            0 <= i <= a@.len(),
            a@.len() == b@.len(),
            texts(a@) == components(p@),
            texts(b@) == components(q@),
            forall|j: int| 0 <= j < i ==> texts(a@)[j] == texts(b@)[j],
        decreases a@.len() - i,
    {
        assert(texts(a@)[i as int] == a@[i as int]@);
        assert(texts(b@)[i as int] == b@[i as int]@);
        if !same_text(a[i].as_str(), b[i].as_str()) {
            return false;
        }
        i += 1;
    }
    assert(texts(a@) =~= texts(b@));
    true
}

/// Whether `side` is this path.
fn side_matches(side: &Option<String>, path: &str) -> (r: bool)
    ensures
        r == side_is(*side, path@),
{
    match side {
        Some(p) => same_path(p.as_str(), path),
        None => false,
    }
}

/// The first delta with this path on either side. Where no delta has it there is no answer,
/// never that of another file.
pub fn find_delta_index(deltas: &Vec<RawDelta>, path: &str) -> (r: Option<usize>)
    ensures
        match r {
            Some(i) => first_where(deltas@, touches(path@)) == Some(i as int) && i < deltas@.len(),
            None => first_where(deltas@, touches(path@)) is None,
        },
{
    let mut i: usize = 0;
    let ghost p = touches(path@);
    while i < deltas.len()
        invariant
            0 <= i <= deltas@.len(),
            p == touches(path@),
            forall|j: int| 0 <= j < i ==> !p(#[trigger] deltas@[j]),
        decreases deltas@.len() - i,
    {
        if side_matches(&deltas[i].new_path, path) || side_matches(&deltas[i].old_path, path) {
            proof {
                lemma_first_is(deltas@, p, i as int);
            }
            return Some(i);
        }
        i += 1;
    }
    proof {
        lemma_first_none(deltas@, p);
    }
    None
}

/// The first delta with this path on its new side.
pub fn find_delta_by_new_path(deltas: &Vec<RawDelta>, path: &str) -> (r: Option<usize>)
    ensures
        match r {
            Some(i) => first_where(deltas@, arrives_at(path@)) == Some(i as int) && i
                < deltas@.len(),
            None => first_where(deltas@, arrives_at(path@)) is None,
        },
{
    let mut i: usize = 0;
    let ghost p = arrives_at(path@);
    while i < deltas.len()
        invariant
            0 <= i <= deltas@.len(),
            p == arrives_at(path@),
            forall|j: int| 0 <= j < i ==> !p(#[trigger] deltas@[j]),
        decreases deltas@.len() - i,
    {
        if side_matches(&deltas[i].new_path, path) {
            proof {
                lemma_first_is(deltas@, p, i as int);
            }
            return Some(i);
        }
        i += 1;
    }
    proof {
        lemma_first_none(deltas@, p);
    }
    None
}

/// The text of a line: its bytes decoded, without the newline at its end. A `\r` before the
/// newline stays.
pub open spec fn line_text(bytes: Seq<u8>) -> Seq<char> {
    without_last(
        if valid_utf8(bytes) {
            decode_utf8(bytes)
        } else {
            lossy_text(bytes)
        },
        '\n',
    )
}

/// The text of a line, and whether its bytes were not UTF-8.
pub fn line_content(bytes: &Vec<u8>) -> (r: (String, bool))
    ensures
        r.0@ == line_text(bytes@),
        r.1 == !valid_utf8(bytes@),
{
    match decode_strict(bytes) {
        Some(s) => (strip_last(s.as_str(), '\n'), false),
        None => {
            let s = decode_lossy(bytes);
            (strip_last(s.as_str(), '\n'), true)
        },
    }
}

/// The text of a hunk header: its bytes decoded, without the newline at its end and the `\r`
/// before it.
pub open spec fn header_text(bytes: Seq<u8>) -> Seq<char> {
    without_last(without_last(lossy_text(bytes), '\n'), '\r')
}

/// `s` without the newline at its end and the `\r` before it.
pub fn trim_line(s: &str) -> (r: String)
    ensures
        r@ == without_last(without_last(s@, '\n'), '\r'),
{
    let t = strip_last(s, '\n');
    strip_last(t.as_str(), '\r')
}

/// The text shown for a missing newline at the end of a file.
pub const NO_NEWLINE_TEXT: &'static str = "\\ No newline at end of file";

/// What kind of line an origin makes.
pub open spec fn kind_of(origin: LineOrigin) -> DiffLineKind {
    match origin {
        LineOrigin::ContextEofnl | LineOrigin::AddEofnl | LineOrigin::DeleteEofnl => {
            DiffLineKind::NoNewline
        },
        LineOrigin::Addition => DiffLineKind::Add,
        LineOrigin::Deletion => DiffLineKind::Del,
        _ => DiffLineKind::Context,
    }
}

/// The diff line that a line of a patch becomes. An added line has no old number, a deleted one
/// no new number, and the marker of a missing newline has neither, nor the line's own content.
pub open spec fn converted(line: RawLine) -> LineView {
    let kind = kind_of(line.origin);
    LineView {
        kind,
        old_line_no: if kind == DiffLineKind::Context || kind == DiffLineKind::Del {
            line.old_lineno
        } else {
            None
        },
        new_line_no: if kind == DiffLineKind::Context || kind == DiffLineKind::Add {
            line.new_lineno
        } else {
            None
        },
        content: if kind == DiffLineKind::NoNewline {
            NO_NEWLINE_TEXT@
        } else {
            line_text(line.content@)
        },
    }
}

/// Whether the text shown for a line does not hold its bytes.
pub open spec fn is_lossy_line(line: RawLine) -> bool {
    kind_of(line.origin) != DiffLineKind::NoNewline && !valid_utf8(line.content@)
}

/// The diff line that `line` becomes, and whether its text does not hold its bytes.
pub fn convert_line(line: &RawLine) -> (r: (DiffLine, bool))
    ensures
        r.0@ == converted(*line),
        r.1 == is_lossy_line(*line),
{
    match line.origin {
        LineOrigin::ContextEofnl | LineOrigin::AddEofnl | LineOrigin::DeleteEofnl => (
            DiffLine {
                kind: DiffLineKind::NoNewline,
                old_line_no: None,
                new_line_no: None,
                content: owned(NO_NEWLINE_TEXT),
            },
            false,
        ),
        LineOrigin::Addition => {
            let (content, lossy) = line_content(&line.content);
            (
                DiffLine {
                    kind: DiffLineKind::Add,
                    old_line_no: None,
                    new_line_no: line.new_lineno,
                    content,
                },
                lossy,
            )
        },
        LineOrigin::Deletion => {
            let (content, lossy) = line_content(&line.content);
            (
                DiffLine {
                    kind: DiffLineKind::Del,
                    old_line_no: line.old_lineno,
                    new_line_no: None,
                    content,
                },
                lossy,
            )
        },
        _ => {
            let (content, lossy) = line_content(&line.content);
            (
                DiffLine {
                    kind: DiffLineKind::Context,
                    old_line_no: line.old_lineno,
                    new_line_no: line.new_lineno,
                    content,
                },
                lossy,
            )
        },
    }
}

/// The hunk that a hunk of a patch becomes.
pub open spec fn converted_hunk(h: RawHunk) -> HunkView {
    HunkView {
        header: header_text(h.header@),
        old_start: h.old_start,
        old_lines: h.old_lines,
        new_start: h.new_start,
        new_lines: h.new_lines,
        lines: h.lines@.map_values(|l: RawLine| converted(l)),
    }
}

/// Whether any line of a hunk is lossy.
pub open spec fn is_lossy_hunk(h: RawHunk) -> bool {
    exists|i: int| 0 <= i < h.lines@.len() && is_lossy_line(#[trigger] h.lines@[i])
}

/// Whether any line of any hunk is lossy.
pub open spec fn any_lossy(hunks: Seq<RawHunk>) -> bool {
    exists|i: int| 0 <= i < hunks.len() && is_lossy_hunk(#[trigger] hunks[i])
}

/// The hunk that `raw` becomes, and whether any of its lines is lossy.
fn convert_hunk(raw: &RawHunk) -> (r: (Hunk, bool))
    ensures
        r.0@ == converted_hunk(*raw),
        r.1 == is_lossy_hunk(*raw),
{
    let header = trim_line(decode_lossy(&raw.header).as_str());
    let mut lines: Vec<DiffLine> = Vec::new();
    let mut lossy = false;
    let mut i: usize = 0;
    while i < raw.lines.len()
        invariant
            0 <= i <= raw.lines@.len(),
            lines@.len() == i,
            forall|j: int| 0 <= j < i ==> (#[trigger] lines@[j])@ == converted(raw.lines@[j]),
            lossy == exists|j: int| 0 <= j < i && is_lossy_line(#[trigger] raw.lines@[j]),
        decreases raw.lines@.len() - i,
    {
        let (line, l) = convert_line(&raw.lines[i]);
        let ghost was = lossy;
        lossy = lossy || l;
        lines.push(line);
        i += 1;
        proof {
            if lossy {
                if was {
                    let j = choose|j: int|
                        0 <= j < i - 1 && is_lossy_line(#[trigger] raw.lines@[j]);
                    assert(is_lossy_line(raw.lines@[j]));
                } else {
                    assert(is_lossy_line(raw.lines@[i - 1]));
                }
            }
        }
    }
    let hunk = Hunk {
        header,
        old_start: raw.old_start,
        old_lines: raw.old_lines,
        new_start: raw.new_start,
        new_lines: raw.new_lines,
        lines,
    };
    assert(hunk@.lines =~= converted_hunk(*raw).lines);
    (hunk, lossy)
}

/// The hunks of a patch as text, and whether any of their lines is lossy.
pub fn collect_hunks(raw: &Vec<RawHunk>) -> (r: (Vec<Hunk>, bool))
    ensures
        r.0@.map_values(|h: Hunk| h@) == raw@.map_values(|h: RawHunk| converted_hunk(h)),
        r.1 == any_lossy(raw@),
{
    let mut hunks: Vec<Hunk> = Vec::new();
    let mut lossy = false;
    let mut i: usize = 0;
    while i < raw.len()
        invariant
            0 <= i <= raw@.len(),
            hunks@.len() == i,
            forall|j: int| 0 <= j < i ==> (#[trigger] hunks@[j])@ == converted_hunk(raw@[j]),
            lossy == exists|j: int| 0 <= j < i && is_lossy_hunk(#[trigger] raw@[j]),
        decreases raw@.len() - i,
    {
        let (hunk, l) = convert_hunk(&raw[i]);
        let ghost was = lossy;
        lossy = lossy || l;
        hunks.push(hunk);
        i += 1;
        proof {
            if lossy {
                if was {
                    let j = choose|j: int| 0 <= j < i - 1 && is_lossy_hunk(#[trigger] raw@[j]);
                    assert(is_lossy_hunk(raw@[j]));
                } else {
                    assert(is_lossy_hunk(raw@[i - 1]));
                }
            }
        }
    }
    assert(hunks@.map_values(|h: Hunk| h@) =~= raw@.map_values(|h: RawHunk| converted_hunk(h)));
    (hunks, lossy)
}

/// The highlighting language of a file by its whole name.
pub open spec fn language_of_name(name: Seq<char>) -> Option<Seq<char>> {
    if name == "Dockerfile"@ {
        Some("dockerfile"@)
    } else if name == "Makefile"@ || name == "makefile"@ || name == "GNUmakefile"@ {
        Some("make"@)
    } else {
        None
    }
}

/// The highlighting language of a file by its extension, in lower case.
pub open spec fn language_of_extension(ext: Seq<char>) -> Option<Seq<char>> {
    if ext == "rs"@ {
        Some("rust"@)
    } else if ext == "ts"@ {
        Some("typescript"@)
    } else if ext == "tsx"@ {
        Some("tsx"@)
    } else if ext == "js"@ || ext == "mjs"@ || ext == "cjs"@ {
        Some("javascript"@)
    } else if ext == "jsx"@ {
        Some("jsx"@)
    } else if ext == "json"@ {
        Some("json"@)
    } else if ext == "md"@ || ext == "markdown"@ {
        Some("markdown"@)
    } else if ext == "py"@ {
        Some("python"@)
    } else if ext == "go"@ {
        Some("go"@)
    } else if ext == "rb"@ {
        Some("ruby"@)
    } else if ext == "java"@ {
        Some("java"@)
    } else if ext == "c"@ || ext == "h"@ {
        Some("c"@)
    } else if ext == "cpp"@ || ext == "cc"@ || ext == "cxx"@ || ext == "hpp"@ || ext == "hxx"@ {
        Some("cpp"@)
    } else if ext == "cs"@ {
        Some("csharp"@)
    } else if ext == "sh"@ || ext == "bash"@ || ext == "zsh"@ {
        Some("shellscript"@)
    } else if ext == "yml"@ || ext == "yaml"@ {
        Some("yaml"@)
    } else if ext == "toml"@ {
        Some("toml"@)
    } else if ext == "html"@ || ext == "htm"@ {
        Some("html"@)
    } else if ext == "css"@ {
        Some("css"@)
    } else if ext == "scss"@ {
        Some("scss"@)
    } else if ext == "sql"@ {
        Some("sql"@)
    } else if ext == "php"@ {
        Some("php"@)
    } else if ext == "swift"@ {
        Some("swift"@)
    } else if ext == "kt"@ || ext == "kts"@ {
        Some("kotlin"@)
    } else if ext == "xml"@ {
        Some("xml"@)
    } else if ext == "vue"@ {
        Some("vue"@)
    } else if ext == "svelte"@ {
        Some("svelte"@)
    } else {
        None
    }
}

/// The highlighting language of a path: by the file's whole name first, then by its extension.
pub open spec fn language(path: Seq<char>) -> Option<Seq<char>> {
    let by_name = match file_name(path) {
        Some(name) => language_of_name(name),
        None => None,
    };
    match by_name {
        Some(l) => Some(l),
        None => match extension(path) {
            Some(ext) => language_of_extension(lowered(ext)),
            None => None,
        },
    }
}

/// Whether `s` is one of two texts.
fn either(s: &str, a: &str, b: &str) -> (r: bool)
    ensures
        r == (s@ == a@ || s@ == b@),
{
    same_text(s, a) || same_text(s, b)
}

/// The highlighting language for an extension in lower case.
fn language_for_extension(e: &str) -> (r: Option<&'static str>)
    ensures
        match r {
            Some(l) => language_of_extension(e@) == Some(l@),
            None => language_of_extension(e@) is None,
        },
{
    if same_text(e, "rs") {
        Some("rust")
    } else if same_text(e, "ts") {
        Some("typescript")
    } else if same_text(e, "tsx") {
        Some("tsx")
    } else if same_text(e, "js") || either(e, "mjs", "cjs") {
        Some("javascript")
    } else if same_text(e, "jsx") {
        Some("jsx")
    } else if same_text(e, "json") {
        Some("json")
    } else if either(e, "md", "markdown") {
        Some("markdown")
    } else if same_text(e, "py") {
        Some("python")
    } else if same_text(e, "go") {
        Some("go")
    } else if same_text(e, "rb") {
        Some("ruby")
    } else if same_text(e, "java") {
        Some("java")
    } else if either(e, "c", "h") {
        Some("c")
    } else if same_text(e, "cpp") || either(e, "cc", "cxx") || either(e, "hpp", "hxx") {
        Some("cpp")
    } else if same_text(e, "cs") {
        Some("csharp")
    } else if same_text(e, "sh") || either(e, "bash", "zsh") {
        Some("shellscript")
    } else if either(e, "yml", "yaml") {
        Some("yaml")
    } else if same_text(e, "toml") {
        Some("toml")
    } else if either(e, "html", "htm") {
        Some("html")
    } else if same_text(e, "css") {
        Some("css")
    } else if same_text(e, "scss") {
        Some("scss")
    } else if same_text(e, "sql") {
        Some("sql")
    } else if same_text(e, "php") {
        Some("php")
    } else if same_text(e, "swift") {
        Some("swift")
    } else if either(e, "kt", "kts") {
        Some("kotlin")
    } else if same_text(e, "xml") {
        Some("xml")
    } else if same_text(e, "vue") {
        Some("vue")
    } else if same_text(e, "svelte") {
        Some("svelte")
    } else {
        None
    }
}

/// The highlighting language for a path, where one is known: special file names first, then the
/// extension, whatever its case.
#[must_use]
pub fn language_for_path(path: &str) -> (r: Option<String>)
    ensures
        opt_text(r) == language(path@),
{
    if let Some(name) = file_name_of(path) {
        let n = name.as_str();
        if same_text(n, "Dockerfile") {
            return Some(owned("dockerfile"));
        }
        if same_text(n, "Makefile") || either(n, "makefile", "GNUmakefile") {
            return Some(owned("make"));
        }
    }
    let ext = match extension_of(path) {
        Some(e) => lowercase(e.as_str()),
        None => return None,
    };
    match language_for_extension(ext.as_str()) {
        Some(l) => Some(owned(l)),
        None => None,
    }
}

/// The diff that is run first for a file: that path alone.
pub open spec fn scan_request(path: Seq<char>, staged: bool, context_lines: u32) -> RequestView {
    RequestView {
        staged,
        context_lines,
        path: Some(path),
        untracked: !staged,
        find_renames: staged,
        find_copies: false,
        max_size: MAX_DIFF_BYTES,
    }
}

/// The diff that is run to find out whether an added file is the new side of a rename: all
/// staged paths.
pub open spec fn rescan_request(context_lines: u32) -> RequestView {
    RequestView {
        staged: true,
        context_lines,
        path: None,
        untracked: false,
        find_renames: true,
        find_copies: true,
        max_size: MAX_DIFF_BYTES,
    }
}

/// Whether a delta moves a file's content to another path.
pub open spec fn is_move(status: DeltaStatus) -> bool {
    status == DeltaStatus::Renamed || status == DeltaStatus::Copied
}

/// Whether the delta found for a file may be the new side of a rename whose old side the
/// single-path diff has left out.
pub open spec fn rescan_due(staged: bool, delta: RawDelta) -> bool {
    staged && delta.status == DeltaStatus::Added
}

/// The delta of the rescan that stands for the file: the one that arrives at its path, where
/// that is a rename or a copy.
pub open spec fn moved_delta(full: Seq<RawDelta>, path: Seq<char>) -> Option<int> {
    match first_where(full, arrives_at(path)) {
        Some(i) => if is_move(full[i].status) {
            Some(i)
        } else {
            None
        },
        None => None,
    }
}

/// The diff of a file that no delta touches.
pub open spec fn no_change(path: Seq<char>) -> FileDiffView {
    FileDiffView {
        path,
        old_path: None,
        language: language(path),
        is_binary: false,
        is_untracked: false,
        is_lossy: false,
        hunks: Seq::empty(),
    }
}

/// The path a delta arrives at.
pub open spec fn new_side(path: Seq<char>, delta: RawDelta) -> Seq<char> {
    match delta.new_path {
        Some(p) => p@,
        None => path,
    }
}

/// The path a delta moved the file from, where it did.
pub open spec fn moved_from(path: Seq<char>, delta: RawDelta) -> Option<Seq<char>> {
    match delta.old_path {
        Some(p) => if is_move(delta.status) && p@ != new_side(path, delta) {
            Some(p@)
        } else {
            None
        },
        None => None,
    }
}

/// Whether a patch is shown as binary.
pub open spec fn is_binary_patch(patch: RawPatch) -> bool {
    patch.new_is_binary || patch.old_is_binary || patch.hunks is None
}

/// The diff of a file with this delta and patch.
pub open spec fn shown_diff(path: Seq<char>, delta: RawDelta, patch: RawPatch) -> FileDiffView {
    FileDiffView {
        path: new_side(path, delta),
        old_path: moved_from(path, delta),
        language: language(path),
        is_binary: is_binary_patch(patch),
        is_untracked: delta.status == DeltaStatus::Untracked,
        is_lossy: !is_binary_patch(patch) && any_lossy(patch.hunks->0@),
        hunks: if is_binary_patch(patch) {
            Seq::empty()
        } else {
            patch.hunks->0@.map_values(|h: RawHunk| converted_hunk(h))
        },
    }
}

/// The diff that is run first for a file.
pub fn first_request(path: &str, staged: bool, context_lines: u32) -> (r: DiffRequest)
    ensures
        r@ == scan_request(path@, staged, context_lines),
{
    DiffRequest {
        staged,
        context_lines,
        path: Some(owned(path)),
        untracked: !staged,
        find_renames: staged,
        find_copies: false,
        max_size: MAX_DIFF_BYTES,
    }
}

/// The diff that is run over all staged paths to find renames and copies.
pub fn rename_request(context_lines: u32) -> (r: DiffRequest)
    ensures
        r@ == rescan_request(context_lines),
{
    DiffRequest {
        staged: true,
        context_lines,
        path: None,
        untracked: false,
        find_renames: true,
        find_copies: true,
        max_size: MAX_DIFF_BYTES,
    }
}

/// The delta of the rescan that stands for the file.
pub fn find_moved_delta(full: &Vec<RawDelta>, path: &str) -> (r: Option<usize>)
    ensures
        match r {
            Some(i) => moved_delta(full@, path@) == Some(i as int) && i < full@.len(),
            None => moved_delta(full@, path@) is None,
        },
{
    match find_delta_by_new_path(full, path) {
        Some(i) => match full[i].status {
            DeltaStatus::Renamed | DeltaStatus::Copied => Some(i),
            _ => None,
        },
        None => None,
    }
}

/// The diff of the file `path` with this delta and patch.
pub fn show_delta(path: &str, delta: &RawDelta, patch: &RawPatch) -> (r: FileDiff)
    ensures
        r@ == shown_diff(path@, *delta, *patch),
{
    let new_path = match &delta.new_path {
        Some(p) => p.clone(),
        None => owned(path),
    };
    let moved = match delta.status {
        DeltaStatus::Renamed | DeltaStatus::Copied => true,
        _ => false,
    };
    let old_path = match &delta.old_path {
        Some(p) => if moved && !same_text(p.as_str(), new_path.as_str()) {
            Some(p.clone())
        } else {
            None
        },
        None => None,
    };
    let is_untracked = match delta.status {
        DeltaStatus::Untracked => true,
        _ => false,
    };
    let language = language_for_path(path);
    let text = if patch.new_is_binary || patch.old_is_binary {
        None
    } else {
        match &patch.hunks {
            Some(raw) => Some(collect_hunks(raw)),
            None => None,
        }
    };
    let d = match text {
        Some((hunks, is_lossy)) => FileDiff {
            path: new_path,
            old_path,
            language,
            is_binary: false,
            is_untracked,
            is_lossy,
            hunks,
        },
        None => FileDiff {
            path: new_path,
            old_path,
            language,
            is_binary: true,
            is_untracked,
            is_lossy: false,
            hunks: Vec::new(),
        },
    };
    assert(d@ =~= shown_diff(path@, *delta, *patch));
    d
}

/// `out` is an answer of `scan` to this request.
pub open spec fn scan_gave<S: Fn(&DiffRequest) -> AppResult<Vec<RawDelta>>>(
    scan: S,
    request: RequestView,
    out: AppResult<Vec<RawDelta>>,
) -> bool {
    exists|q: DiffRequest| q@ == request && #[trigger] call_ensures(scan, (&q,), out)
}

/// `r` is what the answer of `patch` for one delta makes the diff of the file.
pub open spec fn patch_gave<P: Fn(&DiffRequest, usize) -> AppResult<RawPatch>>(
    patch: P,
    request: RequestView,
    index: int,
    path: Seq<char>,
    delta: RawDelta,
    r: AppResult<FileDiff>,
) -> bool {
    exists|q: DiffRequest, out: AppResult<RawPatch>|
        {
            &&& q@ == request
            &&& #[trigger] call_ensures(patch, (&q, index as usize), out)
            &&& match out {
                Ok(p) => outcome(r) == Ok::<FileDiffView, ErrorView>(shown_diff(path, delta, p)),
                Err(e) => r == Err::<FileDiff, AppError>(e),
            }
        }
}

/// The diff of the single file `path`: of the index against the working tree, or, where
/// `staged`, of HEAD against the index.
///
/// `scan` runs a diff and lists its deltas; `patch` reads the patch of one delta of the diff
/// that a request stands for. The diff of the path alone is run first. Where no delta of it
/// touches the path, the file has no change. Where the path was added to the index, all staged
/// paths are diffed as well, since the old side of a rename is not in the first diff; the
/// rename or copy that arrives at the path is then what is shown. Failures of either function
/// are handed on.
pub fn file_diff<S, P>(path: &str, staged: bool, context_lines: u32, scan: &S, patch: &P) -> (r:
    AppResult<FileDiff>) where
    S: Fn(&DiffRequest) -> AppResult<Vec<RawDelta>>,
    P: Fn(&DiffRequest, usize) -> AppResult<RawPatch>,

    requires
        forall|q: &DiffRequest| call_requires(*scan, (q,)),
        forall|q: &DiffRequest, i: usize| call_requires(*patch, (q, i)),
    ensures
        exists|out: AppResult<Vec<RawDelta>>|
            {
                &&& #[trigger] scan_gave(*scan, scan_request(path@, staged, context_lines), out)
                &&& match out {
                    Err(e) => r == Err::<FileDiff, AppError>(e),
                    Ok(deltas) => match first_where(deltas@, touches(path@)) {
                        None => outcome(r) == Ok::<FileDiffView, ErrorView>(no_change(path@)),
                        Some(i) => if !rescan_due(staged, deltas@[i]) {
                            patch_gave(
                                *patch,
                                scan_request(path@, staged, context_lines),
                                i,
                                path@,
                                deltas@[i],
                                r,
                            )
                        } else {
                            exists|again: AppResult<Vec<RawDelta>>|
                                {
                                    &&& #[trigger] scan_gave(
                                        *scan,
                                        rescan_request(context_lines),
                                        again,
                                    )
                                    &&& match again {
                                        Err(e) => r == Err::<FileDiff, AppError>(e),
                                        Ok(full) => match moved_delta(full@, path@) {
                                            Some(k) => patch_gave(
                                                *patch,
                                                rescan_request(context_lines),
                                                k,
                                                path@,
                                                full@[k],
                                                r,
                                            ),
                                            None => patch_gave(
                                                *patch,
                                                scan_request(path@, staged, context_lines),
                                                i,
                                                path@,
                                                deltas@[i],
                                                r,
                                            ),
                                        },
                                    }
                                }
                        },
                    },
                }
            },
{
    let request = first_request(path, staged, context_lines);
    let out = scan(&request);
    assert(scan_gave(*scan, scan_request(path@, staged, context_lines), out));
    let deltas = match out {
        Ok(d) => d,
        Err(e) => return Err(e),
    };
    let i: usize = match find_delta_index(&deltas, path) {
        Some(i) => i,
        None => {
            let d = FileDiff {
                path: owned(path),
                old_path: None,
                language: language_for_path(path),
                is_binary: false,
                is_untracked: false,
                is_lossy: false,
                hunks: Vec::new(),
            };
            assert(d@ =~= no_change(path@));
            return Ok(d);
        },
    };
    let added = match deltas[i].status {
        DeltaStatus::Added => true,
        _ => false,
    };
    if staged && added {
        let full_request = rename_request(context_lines);
        let again = scan(&full_request);
        assert(scan_gave(*scan, rescan_request(context_lines), again));
        let full = match again {
            Ok(d) => d,
            Err(e) => return Err(e),
        };
        if let Some(k) = find_moved_delta(&full, path) {
            let answer = patch(&full_request, k);
            assert(call_ensures(*patch, (&full_request, (k as int) as usize), answer));
            return match answer {
                Ok(p) => Ok(show_delta(path, &full[k], &p)),
                Err(e) => Err(e),
            };
        }
    }
    let answer = patch(&request, i);
    assert(call_ensures(*patch, (&request, (i as int) as usize), answer));
    match answer {
        Ok(p) => Ok(show_delta(path, &deltas[i], &p)),
        Err(e) => Err(e),
    }
}

/// Text that came from bytes goes back to them: the content of a line that is valid UTF-8,
/// with its newline put back, encodes to the bytes that the line had, a `\r` included.
pub proof fn law_line_keeps_its_bytes(bytes: Seq<u8>)
    requires
        valid_utf8(bytes),
    ensures
        bytes == encode_utf8(line_text(bytes)) || bytes == encode_utf8(line_text(bytes).push('\n')),
        (decode_utf8(bytes).len() > 0 && decode_utf8(bytes).last() == '\n') ==> bytes
            == encode_utf8(line_text(bytes).push('\n')),
{
    vstd::utf8::decode_utf8_encode_utf8(bytes);
    let s = decode_utf8(bytes);
    if s.len() > 0 && s.last() == '\n' {
        assert(line_text(bytes).push('\n') =~= s);
    }
}

/// The diff of a file is lossy only where bytes of a shown line are not UTF-8, so a file whose
/// lines are all valid UTF-8 can be staged hunk by hunk.
pub proof fn law_valid_lines_are_not_lossy(path: Seq<char>, delta: RawDelta, patch: RawPatch)
    requires
        patch.hunks matches Some(hunks) ==> forall|i: int, j: int|
            0 <= i < hunks@.len() && 0 <= j < hunks@[i].lines@.len() ==> valid_utf8(
                (#[trigger] hunks@[i].lines@[j]).content@,
            ),
    ensures
        !shown_diff(path, delta, patch).is_lossy,
{
    if shown_diff(path, delta, patch).is_lossy {
        let hunks = patch.hunks->0@;
        let i = choose|i: int| 0 <= i < hunks.len() && is_lossy_hunk(#[trigger] hunks[i]);
        let j = choose|j: int|
            0 <= j < hunks[i].lines@.len() && is_lossy_line(#[trigger] hunks[i].lines@[j]);
        assert(valid_utf8(hunks[i].lines@[j].content@));
    }
}

/// How the known extensions are spelled, which tells them apart.
proof fn lemma_extensions_differ()
    ensures
        "rs"@.len() == 2 && "rs"@[0] == 'r' && "rs"@[1] == 's',
        "ts"@.len() == 2 && "ts"@[0] == 't' && "ts"@[1] == 's',
        "tsx"@.len() == 3 && "tsx"@[0] == 't' && "tsx"@[1] == 's' && "tsx"@[2] == 'x',
        "js"@.len() == 2 && "js"@[0] == 'j' && "js"@[1] == 's',
        "mjs"@.len() == 3 && "mjs"@[0] == 'm' && "mjs"@[1] == 'j' && "mjs"@[2] == 's',
        "cjs"@.len() == 3 && "cjs"@[0] == 'c' && "cjs"@[1] == 'j' && "cjs"@[2] == 's',
        "jsx"@.len() == 3 && "jsx"@[0] == 'j' && "jsx"@[1] == 's' && "jsx"@[2] == 'x',
        "json"@.len() == 4 && "json"@[0] == 'j' && "json"@[1] == 's' && "json"@[2] == 'o' && "json"@[3] == 'n',
        "md"@.len() == 2 && "md"@[0] == 'm' && "md"@[1] == 'd',
        "markdown"@.len() == 8 && "markdown"@[0] == 'm' && "markdown"@[1] == 'a' && "markdown"@[2] == 'r' && "markdown"@[3] == 'k',
        "py"@.len() == 2 && "py"@[0] == 'p' && "py"@[1] == 'y',
        "go"@.len() == 2 && "go"@[0] == 'g' && "go"@[1] == 'o',
        "rb"@.len() == 2 && "rb"@[0] == 'r' && "rb"@[1] == 'b',
        "java"@.len() == 4 && "java"@[0] == 'j' && "java"@[1] == 'a' && "java"@[2] == 'v' && "java"@[3] == 'a',
        "c"@.len() == 1 && "c"@[0] == 'c',
        "h"@.len() == 1 && "h"@[0] == 'h',
        "cpp"@.len() == 3 && "cpp"@[0] == 'c' && "cpp"@[1] == 'p' && "cpp"@[2] == 'p',
        "cc"@.len() == 2 && "cc"@[0] == 'c' && "cc"@[1] == 'c',
        "cxx"@.len() == 3 && "cxx"@[0] == 'c' && "cxx"@[1] == 'x' && "cxx"@[2] == 'x',
        "hpp"@.len() == 3 && "hpp"@[0] == 'h' && "hpp"@[1] == 'p' && "hpp"@[2] == 'p',
        "hxx"@.len() == 3 && "hxx"@[0] == 'h' && "hxx"@[1] == 'x' && "hxx"@[2] == 'x',
        "cs"@.len() == 2 && "cs"@[0] == 'c' && "cs"@[1] == 's',
        "sh"@.len() == 2 && "sh"@[0] == 's' && "sh"@[1] == 'h',
        "bash"@.len() == 4 && "bash"@[0] == 'b' && "bash"@[1] == 'a' && "bash"@[2] == 's' && "bash"@[3] == 'h',
        "zsh"@.len() == 3 && "zsh"@[0] == 'z' && "zsh"@[1] == 's' && "zsh"@[2] == 'h',
        "yml"@.len() == 3 && "yml"@[0] == 'y' && "yml"@[1] == 'm' && "yml"@[2] == 'l',
        "yaml"@.len() == 4 && "yaml"@[0] == 'y' && "yaml"@[1] == 'a' && "yaml"@[2] == 'm' && "yaml"@[3] == 'l',
        "toml"@.len() == 4 && "toml"@[0] == 't' && "toml"@[1] == 'o' && "toml"@[2] == 'm' && "toml"@[3] == 'l',
        "html"@.len() == 4 && "html"@[0] == 'h' && "html"@[1] == 't' && "html"@[2] == 'm' && "html"@[3] == 'l',
        "htm"@.len() == 3 && "htm"@[0] == 'h' && "htm"@[1] == 't' && "htm"@[2] == 'm',
        "css"@.len() == 3 && "css"@[0] == 'c' && "css"@[1] == 's' && "css"@[2] == 's',
        "scss"@.len() == 4 && "scss"@[0] == 's' && "scss"@[1] == 'c' && "scss"@[2] == 's' && "scss"@[3] == 's',
        "sql"@.len() == 3 && "sql"@[0] == 's' && "sql"@[1] == 'q' && "sql"@[2] == 'l',
        "php"@.len() == 3 && "php"@[0] == 'p' && "php"@[1] == 'h' && "php"@[2] == 'p',
        "swift"@.len() == 5 && "swift"@[0] == 's' && "swift"@[1] == 'w' && "swift"@[2] == 'i' && "swift"@[3] == 'f',
        "kt"@.len() == 2 && "kt"@[0] == 'k' && "kt"@[1] == 't',
        "kts"@.len() == 3 && "kts"@[0] == 'k' && "kts"@[1] == 't' && "kts"@[2] == 's',
        "xml"@.len() == 3 && "xml"@[0] == 'x' && "xml"@[1] == 'm' && "xml"@[2] == 'l',
        "vue"@.len() == 3 && "vue"@[0] == 'v' && "vue"@[1] == 'u' && "vue"@[2] == 'e',
        "svelte"@.len() == 6 && "svelte"@[0] == 's' && "svelte"@[1] == 'v' && "svelte"@[2] == 'e' && "svelte"@[3] == 'l',
{
    reveal_strlit("rs");
    reveal_strlit("ts");
    reveal_strlit("tsx");
    reveal_strlit("js");
    reveal_strlit("mjs");
    reveal_strlit("cjs");
    reveal_strlit("jsx");
    reveal_strlit("json");
    reveal_strlit("md");
    reveal_strlit("markdown");
    reveal_strlit("py");
    reveal_strlit("go");
    reveal_strlit("rb");
    reveal_strlit("java");
    reveal_strlit("c");
    reveal_strlit("h");
    reveal_strlit("cpp");
    reveal_strlit("cc");
    reveal_strlit("cxx");
    reveal_strlit("hpp");
    reveal_strlit("hxx");
    reveal_strlit("cs");
    reveal_strlit("sh");
    reveal_strlit("bash");
    reveal_strlit("zsh");
    reveal_strlit("yml");
    reveal_strlit("yaml");
    reveal_strlit("toml");
    reveal_strlit("html");
    reveal_strlit("htm");
    reveal_strlit("css");
    reveal_strlit("scss");
    reveal_strlit("sql");
    reveal_strlit("php");
    reveal_strlit("swift");
    reveal_strlit("kt");
    reveal_strlit("kts");
    reveal_strlit("xml");
    reveal_strlit("vue");
    reveal_strlit("svelte");
}

/// The hunks that are shown are those that libgit2 reports, one for one and in order: each side
/// of a hunk has the range reported for that side, and the hunk has as many lines.
pub proof fn law_shown_hunks_have_the_reported_ranges(
    path: Seq<char>,
    delta: RawDelta,
    patch: RawPatch,
    hunks: Vec<RawHunk>,
)
    requires
        patch.hunks == Some(hunks),
        !patch.new_is_binary,
        !patch.old_is_binary,
    ensures
        shown_diff(path, delta, patch).hunks.len() == hunks@.len(),
        forall|i: int|
            0 <= i < hunks@.len() ==> {
                let shown = #[trigger] shown_diff(path, delta, patch).hunks[i];
                &&& shown.old_start == hunks@[i].old_start
                &&& shown.old_lines == hunks@[i].old_lines
                &&& shown.new_start == hunks@[i].new_start
                &&& shown.new_lines == hunks@[i].new_lines
                &&& shown.lines.len() == hunks@[i].lines@.len()
            },
{
}

/// Each line that is shown has the role that libgit2 reports for it: an added line is shown as
/// added with its new number alone, a deleted one as deleted with its old number alone, a context
/// line with both, and what says that the file ends without a newline is a marker without number
/// and with a fixed text.
pub proof fn law_shown_lines_have_the_reported_roles(
    path: Seq<char>,
    delta: RawDelta,
    patch: RawPatch,
    hunks: Vec<RawHunk>,
    i: int,
    j: int,
)
    requires
        patch.hunks == Some(hunks),
        !patch.new_is_binary,
        !patch.old_is_binary,
        0 <= i < hunks@.len(),
        0 <= j < hunks@[i].lines@.len(),
    ensures
        ({
            let raw = hunks@[i].lines@[j];
            let shown = shown_diff(path, delta, patch).hunks[i].lines[j];
            match raw.origin {
                LineOrigin::Addition => shown.kind == DiffLineKind::Add && shown.old_line_no is None
                    && shown.new_line_no == raw.new_lineno,
                LineOrigin::Deletion => shown.kind == DiffLineKind::Del && shown.old_line_no
                    == raw.old_lineno && shown.new_line_no is None,
                LineOrigin::ContextEofnl | LineOrigin::AddEofnl | LineOrigin::DeleteEofnl => {
                    &&& shown.kind == DiffLineKind::NoNewline
                    &&& shown.old_line_no is None
                    &&& shown.new_line_no is None
                    &&& shown.content == "\\ No newline at end of file"@
                },
                LineOrigin::Context
                | LineOrigin::FileHeader
                | LineOrigin::HunkHeader
                | LineOrigin::Binary => shown.kind == DiffLineKind::Context && shown.old_line_no
                    == raw.old_lineno && shown.new_line_no == raw.new_lineno,
            }
        }),
{
    assert(shown_diff(path, delta, patch).hunks[i] == converted_hunk(hunks@[i]));
    assert(converted_hunk(hunks@[i]).lines[j] == converted(hunks@[i].lines@[j]));
}

/// The text of a shown line is the text of its bytes but for the newline that ends it: where the
/// bytes are UTF-8 and the line has any text of its own, encoding the shown text, with the newline
/// put back where there was one, gives the bytes again. Nothing else is cut off, in no role.
pub proof fn law_shown_lines_have_the_reported_bytes(
    path: Seq<char>,
    delta: RawDelta,
    patch: RawPatch,
    hunks: Vec<RawHunk>,
    i: int,
    j: int,
)
    requires
        patch.hunks == Some(hunks),
        !patch.new_is_binary,
        !patch.old_is_binary,
        0 <= i < hunks@.len(),
        0 <= j < hunks@[i].lines@.len(),
        valid_utf8(hunks@[i].lines@[j].content@),
        !(hunks@[i].lines@[j].origin is ContextEofnl),
        !(hunks@[i].lines@[j].origin is AddEofnl),
        !(hunks@[i].lines@[j].origin is DeleteEofnl),
    ensures
        ({
            let bytes = hunks@[i].lines@[j].content@;
            let shown = shown_diff(path, delta, patch).hunks[i].lines[j].content;
            if decode_utf8(bytes).len() > 0 && decode_utf8(bytes).last() == '\n' {
                bytes == encode_utf8(shown.push('\n'))
            } else {
                bytes == encode_utf8(shown)
            }
        }),
{
    assert(shown_diff(path, delta, patch).hunks[i] == converted_hunk(hunks@[i]));
    assert(converted_hunk(hunks@[i]).lines[j] == converted(hunks@[i].lines@[j]));
    let bytes = hunks@[i].lines@[j].content@;
    law_line_keeps_its_bytes(bytes);
    vstd::utf8::decode_utf8_encode_utf8(bytes);
}

/// The header that is shown is the reported one without what ends its line: one newline, and one
/// carriage return before it.
pub proof fn law_shown_headers_are_the_reported_ones(
    path: Seq<char>,
    delta: RawDelta,
    patch: RawPatch,
    hunks: Vec<RawHunk>,
    i: int,
)
    requires
        patch.hunks == Some(hunks),
        !patch.new_is_binary,
        !patch.old_is_binary,
        0 <= i < hunks@.len(),
    ensures
        ({
            let raw = lossy_text(hunks@[i].header@);
            let shown = shown_diff(path, delta, patch).hunks[i].header;
            let n = raw.len() as int;
            if n >= 2 && raw[n - 1] == '\n' && raw[n - 2] == '\r' {
                shown == raw.take(n - 2)
            } else if n >= 1 && (raw[n - 1] == '\n' || raw[n - 1] == '\r') {
                shown == raw.take(n - 1)
            } else {
                shown == raw
            }
        }),
{
    assert(shown_diff(path, delta, patch).hunks[i] == converted_hunk(hunks@[i]));
    let raw = lossy_text(hunks@[i].header@);
    let n = raw.len() as int;
    if n >= 1 {
        assert(raw.drop_last() =~= raw.take(n - 1));
        if n >= 2 {
            assert(raw.drop_last().drop_last() =~= raw.take(n - 2));
            assert(raw.drop_last().last() == raw[n - 2]);
        }
    }
}

/// What is shown of a file besides its hunks: its new path, where it came from if and only if it
/// was renamed or copied from another path, whether it is untracked, and whether it is binary,
/// which shows no hunks.
pub proof fn law_shown_file_is_the_reported_one(
    path: Seq<char>,
    delta: RawDelta,
    patch: RawPatch,
)
    ensures
        ({
            let shown = shown_diff(path, delta, patch);
            let new_path = match delta.new_path {
                Some(p) => p@,
                None => path,
            };
            &&& shown.path == new_path
            &&& shown.is_untracked <==> delta.status is Untracked
            &&& shown.is_binary <==> patch.new_is_binary || patch.old_is_binary
                || patch.hunks is None
            &&& shown.is_binary ==> shown.hunks.len() == 0 && !shown.is_lossy
            &&& shown.language == language(path)
            &&& match delta.old_path {
                Some(p) => shown.old_path == if (delta.status is Renamed || delta.status is Copied)
                    && p@ != new_path {
                    Some(p@)
                } else {
                    None
                },
                None => shown.old_path is None,
            }
        }),
{
}

/// A file is lossy as soon as one shown line holds bytes that are not UTF-8, in whatever hunk and
/// role, and only then. Such a line is what keeps a file from being staged hunk by hunk.
pub proof fn law_lossy_is_any_line_that_is_not_utf8(
    path: Seq<char>,
    delta: RawDelta,
    patch: RawPatch,
    hunks: Vec<RawHunk>,
)
    requires
        patch.hunks == Some(hunks),
        !patch.new_is_binary,
        !patch.old_is_binary,
    ensures
        shown_diff(path, delta, patch).is_lossy <==> exists|i: int, j: int|
            0 <= i < hunks@.len() && 0 <= j < hunks@[i].lines@.len() && !valid_utf8(
                (#[trigger] hunks@[i].lines@[j]).content@,
            ) && !(hunks@[i].lines@[j].origin is ContextEofnl) && !(hunks@[i].lines@[j].origin
                is AddEofnl) && !(hunks@[i].lines@[j].origin is DeleteEofnl),
{
    let lossy = shown_diff(path, delta, patch).is_lossy;
    if lossy {
        let i = choose|i: int| 0 <= i < hunks@.len() && is_lossy_hunk(#[trigger] hunks@[i]);
        let j = choose|j: int|
            0 <= j < hunks@[i].lines@.len() && is_lossy_line(#[trigger] hunks@[i].lines@[j]);
        assert(!valid_utf8(hunks@[i].lines@[j].content@));
    }
    if exists|i: int, j: int|
        0 <= i < hunks@.len() && 0 <= j < hunks@[i].lines@.len() && !valid_utf8(
            (#[trigger] hunks@[i].lines@[j]).content@,
        ) && !(hunks@[i].lines@[j].origin is ContextEofnl) && !(hunks@[i].lines@[j].origin
            is AddEofnl) && !(hunks@[i].lines@[j].origin is DeleteEofnl) {
        let (i, j) = choose|i: int, j: int|
            0 <= i < hunks@.len() && 0 <= j < hunks@[i].lines@.len() && !valid_utf8(
                (#[trigger] hunks@[i].lines@[j]).content@,
            ) && !(hunks@[i].lines@[j].origin is ContextEofnl) && !(hunks@[i].lines@[j].origin
                is AddEofnl) && !(hunks@[i].lines@[j].origin is DeleteEofnl);
        assert(is_lossy_line(hunks@[i].lines@[j]));
        assert(is_lossy_hunk(hunks@[i]));
    }
}

/// What a diff of a file looks at first: the file alone, on the side and with the context that was
/// asked for, within the size limit. Untracked files count on the unstaged side, renames are
/// looked for on the staged one.
pub proof fn law_scans_look_at_the_file_asked_for(
    path: &str,
    staged: bool,
    context_lines: u32,
    first: DiffRequest,
    again: DiffRequest,
)
    requires
        call_ensures(first_request, (path, staged, context_lines), first),
        call_ensures(rename_request, (context_lines,), again),
    ensures
        first.staged == staged,
        first.context_lines == context_lines,
        first.path matches Some(p) && p@ == path@,
        first.untracked == !staged,
        first.find_renames == staged,
        !first.find_copies,
        first.max_size == 8 * 1024 * 1024,
        again.staged,
        again.context_lines == context_lines,
        again.path is None,
        !again.untracked,
        again.find_renames,
        again.find_copies,
        again.max_size == 8 * 1024 * 1024,
{
    assert(first@ == scan_request(path@, staged, context_lines));
    assert(again@ == rescan_request(context_lines));
}

/// Which delta a file is found by: the first with the file on either side, compared component by
/// component.
pub proof fn law_file_is_found_on_either_side(
    deltas: &Vec<RawDelta>,
    path: &str,
    r: Option<usize>,
)
    requires
        call_ensures(find_delta_index, (deltas, path), r),
    ensures
        match r {
            Some(k) => {
                &&& k < deltas@.len()
                &&& (deltas@[k as int].new_path matches Some(p) && components(p@) == components(
                    path@,
                )) || (deltas@[k as int].old_path matches Some(p) && components(p@) == components(
                    path@,
                ))
                &&& forall|j: int|
                    0 <= j < k ==> ((#[trigger] deltas@[j]).new_path matches Some(p) ==> components(
                        p@,
                    ) != components(path@)) && (deltas@[j].old_path matches Some(p) ==> components(
                        p@,
                    ) != components(path@))
            },
            None => forall|j: int|
                0 <= j < deltas@.len() ==> ((#[trigger] deltas@[j]).new_path matches Some(p)
                    ==> components(p@) != components(path@)) && (deltas@[j].old_path matches Some(
                    p,
                ) ==> components(p@) != components(path@)),
        },
{
    let t = touches(path@);
    lemma_first_where(deltas@, t);
    match r {
        Some(k) => {
            assert(t(deltas@[k as int]));
            assert forall|j: int| 0 <= j < k implies ((#[trigger] deltas@[j]).new_path matches Some(
                p,
            ) ==> components(p@) != components(path@)) && (deltas@[j].old_path matches Some(p)
                ==> components(p@) != components(path@)) by {
                assert(!t(deltas@[j]));
            }
        },
        None => {
            assert forall|j: int| 0 <= j < deltas@.len() implies ((
            #[trigger] deltas@[j]).new_path matches Some(p) ==> components(p@) != components(path@))
                && (deltas@[j].old_path matches Some(p) ==> components(p@) != components(
                path@,
            )) by {
                assert(!t(deltas@[j]));
            }
        },
    }
}

/// A staged addition counts as moved where the first delta that arrives at its path is a rename
/// or a copy, and only there.
pub proof fn law_moves_are_renames_and_copies(
    full: &Vec<RawDelta>,
    path: &str,
    k: int,
    r: Option<usize>,
)
    requires
        call_ensures(find_moved_delta, (full, path), r),
        0 <= k < full@.len(),
        side_is(full@[k].new_path, path@),
        forall|j: int| 0 <= j < k ==> !side_is((#[trigger] full@[j]).new_path, path@),
    ensures
        full@[k].status is Renamed || full@[k].status is Copied ==> (r matches Some(i) && i == k),
        !(full@[k].status is Renamed || full@[k].status is Copied) ==> r is None,
{
    lemma_first_is(full@, arrives_at(path@), k);
}

/// Where no delta has the file on either side, its diff is empty, of the side and context asked
/// for; a failed scan is handed on.
pub proof fn law_untouched_file_has_an_empty_diff<S, P>(
    path: &str,
    staged: bool,
    context_lines: u32,
    scan: &S,
    patch: &P,
    r: AppResult<FileDiff>,
) where
    S: Fn(&DiffRequest) -> AppResult<Vec<RawDelta>>,
    P: Fn(&DiffRequest, usize) -> AppResult<RawPatch>,

    requires
        call_ensures(file_diff::<S, P>, (path, staged, context_lines, scan, patch), r),
    ensures
        exists|q: DiffRequest, out: AppResult<Vec<RawDelta>>|
            {
                &&& #[trigger] call_ensures(*scan, (&q,), out)
                &&& q.staged == staged && q.context_lines == context_lines && (
                q.path matches Some(p) && p@ == path@) && q.untracked == !staged
                &&& match out {
                    Err(e) => r == Err::<FileDiff, AppError>(e),
                    Ok(deltas) => (forall|j: int|
                        0 <= j < deltas@.len() ==> !side_is((#[trigger] deltas@[j]).new_path, path@)
                            && !side_is(deltas@[j].old_path, path@)) ==> {
                        &&& r matches Ok(d)
                        &&& d@.path == path@
                        &&& d@.hunks.len() == 0
                        &&& d@.old_path is None
                        &&& !d@.is_untracked && !d@.is_binary && !d@.is_lossy
                    },
                }
            },
{
    let out = choose|out: AppResult<Vec<RawDelta>>| #[trigger]
        scan_gave(*scan, scan_request(path@, staged, context_lines), out) && (match out {
            Err(e) => r == Err::<FileDiff, AppError>(e),
            Ok(deltas) => first_where(deltas@, touches(path@)) is None ==> outcome(r) == Ok::<
                FileDiffView,
                ErrorView,
            >(no_change(path@)),
        });
    let q = choose|q: DiffRequest|
        q@ == scan_request(path@, staged, context_lines) && #[trigger] call_ensures(
            *scan,
            (&q,),
            out,
        );
    assert(call_ensures(*scan, (&q,), out));
    assert(q@.path == Some(path@));
    if let Ok(deltas) = out {
        if forall|j: int|
            0 <= j < deltas@.len() ==> !side_is((#[trigger] deltas@[j]).new_path, path@)
                && !side_is(deltas@[j].old_path, path@) {
            lemma_first_none(deltas@, touches(path@));
        }
    }
}

/// The diff of a file is made of the patch of its own delta: where the scans answer with these
/// deltas, the first of which with the file on a side is at `k`, and that is no staged addition,
/// what is shown is the `k`-th patch, of the side and context asked for.
pub proof fn law_file_diff_shows_its_own_delta<S, P>(
    path: &str,
    staged: bool,
    context_lines: u32,
    scan: &S,
    patch: &P,
    deltas: Vec<RawDelta>,
    k: usize,
    r: AppResult<FileDiff>,
) where
    S: Fn(&DiffRequest) -> AppResult<Vec<RawDelta>>,
    P: Fn(&DiffRequest, usize) -> AppResult<RawPatch>,

    requires
        call_ensures(file_diff::<S, P>, (path, staged, context_lines, scan, patch), r),
        forall|q: DiffRequest, out: AppResult<Vec<RawDelta>>| #[trigger]
            call_ensures(*scan, (&q,), out) ==> out == Ok::<Vec<RawDelta>, AppError>(deltas),
        k < deltas@.len(),
        side_is(deltas@[k as int].new_path, path@) || side_is(deltas@[k as int].old_path, path@),
        forall|j: int|
            0 <= j < k ==> !side_is((#[trigger] deltas@[j]).new_path, path@) && !side_is(
                deltas@[j].old_path,
                path@,
            ),
        !staged || !(deltas@[k as int].status is Added),
    ensures
        exists|q: DiffRequest, out: AppResult<RawPatch>|
            {
                &&& #[trigger] call_ensures(*patch, (&q, k), out)
                &&& q.staged == staged && q.context_lines == context_lines && (
                q.path matches Some(p) && p@ == path@)
                &&& match out {
                    Ok(p) => r matches Ok(d) && d@ == shown_diff(path@, deltas@[k as int], p),
                    Err(e) => r == Err::<FileDiff, AppError>(e),
                }
            },
{
    lemma_first_is(deltas@, touches(path@), k as int);
    let request = scan_request(path@, staged, context_lines);
    assert(patch_gave(*patch, request, k as int, path@, deltas@[k as int], r));
    let (q, out) = choose|q: DiffRequest, out: AppResult<RawPatch>|
        {
            &&& q@ == request
            &&& #[trigger] call_ensures(*patch, (&q, (k as int) as usize), out)
            &&& match out {
                Ok(p) => outcome(r) == Ok::<FileDiffView, ErrorView>(
                    shown_diff(path@, deltas@[k as int], p),
                ),
                Err(e) => r == Err::<FileDiff, AppError>(e),
            }
        };
    assert(call_ensures(*patch, (&q, k), out));
    assert(q@.path == Some(path@));
}

/// The language that a file is highlighted in follows from its name: first from the whole name,
/// then from its extension in lower case, and from nothing else.
pub proof fn law_language_follows_from_the_name(path: Seq<char>, name: Seq<char>, ext: Seq<char>)
    requires
        file_name(path) == Some(name),
        extension(path) == Some(ext),
    ensures
        name == "Dockerfile"@ ==> language(path) == Some("dockerfile"@),
        name == "Makefile"@ || name == "makefile"@ || name == "GNUmakefile"@ ==> language(path)
            == Some("make"@),
        name != "Dockerfile"@ && name != "Makefile"@ && name != "makefile"@ && name
            != "GNUmakefile"@ ==> ({
            let l = language(path);
            let e = lowered(ext);
            &&& e == "rs"@ ==> l == Some("rust"@)
            &&& e == "ts"@ ==> l == Some("typescript"@)
            &&& e == "tsx"@ ==> l == Some("tsx"@)
            &&& e == "js"@ || e == "mjs"@ || e == "cjs"@ ==> l == Some("javascript"@)
            &&& e == "jsx"@ ==> l == Some("jsx"@)
            &&& e == "json"@ ==> l == Some("json"@)
            &&& e == "md"@ || e == "markdown"@ ==> l == Some("markdown"@)
            &&& e == "py"@ ==> l == Some("python"@)
            &&& e == "go"@ ==> l == Some("go"@)
            &&& e == "rb"@ ==> l == Some("ruby"@)
            &&& e == "java"@ ==> l == Some("java"@)
            &&& e == "c"@ || e == "h"@ ==> l == Some("c"@)
            &&& e == "cpp"@ || e == "cc"@ || e == "cxx"@ || e == "hpp"@ || e == "hxx"@ ==> l
                == Some("cpp"@)
            &&& e == "cs"@ ==> l == Some("csharp"@)
            &&& e == "sh"@ || e == "bash"@ || e == "zsh"@ ==> l == Some("shellscript"@)
            &&& e == "yml"@ || e == "yaml"@ ==> l == Some("yaml"@)
            &&& e == "toml"@ ==> l == Some("toml"@)
            &&& e == "html"@ || e == "htm"@ ==> l == Some("html"@)
            &&& e == "css"@ ==> l == Some("css"@)
            &&& e == "scss"@ ==> l == Some("scss"@)
            &&& e == "sql"@ ==> l == Some("sql"@)
            &&& e == "php"@ ==> l == Some("php"@)
            &&& e == "swift"@ ==> l == Some("swift"@)
            &&& e == "kt"@ || e == "kts"@ ==> l == Some("kotlin"@)
            &&& e == "xml"@ ==> l == Some("xml"@)
            &&& e == "vue"@ ==> l == Some("vue"@)
            &&& e == "svelte"@ ==> l == Some("svelte"@)
            &&& e != "rs"@ && e != "ts"@ && e != "tsx"@ && e != "js"@ && e != "mjs"@ && e !=
                "cjs"@ && e != "jsx"@ && e != "json"@ && e != "md"@ && e !=
                "markdown"@ && e != "py"@ && e != "go"@ && e != "rb"@ && e !=
                "java"@ && e != "c"@ && e != "h"@ && e != "cpp"@ && e != "cc"@
                && e != "cxx"@ && e != "hpp"@ && e != "hxx"@ && e != "cs"@ && e
                != "sh"@ && e != "bash"@ && e != "zsh"@ && e != "yml"@ && e !=
                "yaml"@ && e != "toml"@ && e != "html"@ && e != "htm"@ && e !=
                "css"@ && e != "scss"@ && e != "sql"@ && e != "php"@ && e !=
                "swift"@ && e != "kt"@ && e != "kts"@ && e != "xml"@ && e !=
                "vue"@ && e != "svelte"@ ==> l is None
        }),
{
    lemma_extensions_differ();
    reveal_strlit("Dockerfile");
    reveal_strlit("Makefile");
    reveal_strlit("makefile");
    reveal_strlit("GNUmakefile");
}

/// A name without an extension gives a language only by the whole name.
pub proof fn law_no_extension_no_language(path: Seq<char>)
    requires
        extension(path) is None,
        match file_name(path) {
            Some(name) => name != "Dockerfile"@ && name != "Makefile"@ && name != "makefile"@
                && name != "GNUmakefile"@,
            None => true,
        },
    ensures
        language(path) is None,
{
}

/// A staged addition that a scan of all staged paths finds to be a rename or a copy is shown as
/// that move, with the patch of the move; one that it does not find is shown as it is.
pub proof fn law_staged_addition_is_shown_as_its_move<S, P>(
    path: &str,
    context_lines: u32,
    scan: &S,
    patch: &P,
    deltas: Vec<RawDelta>,
    k: usize,
    full: Vec<RawDelta>,
    m: usize,
    r: AppResult<FileDiff>,
) where
    S: Fn(&DiffRequest) -> AppResult<Vec<RawDelta>>,
    P: Fn(&DiffRequest, usize) -> AppResult<RawPatch>,

    requires
        call_ensures(file_diff::<S, P>, (path, true, context_lines, scan, patch), r),
        forall|q: DiffRequest, out: AppResult<Vec<RawDelta>>| #[trigger]
            call_ensures(*scan, (&q,), out) ==> out == if q.path is Some {
                Ok::<Vec<RawDelta>, AppError>(deltas)
            } else {
                Ok::<Vec<RawDelta>, AppError>(full)
            },
        k < deltas@.len(),
        side_is(deltas@[k as int].new_path, path@) || side_is(deltas@[k as int].old_path, path@),
        forall|j: int|
            0 <= j < k ==> !side_is((#[trigger] deltas@[j]).new_path, path@) && !side_is(
                deltas@[j].old_path,
                path@,
            ),
        deltas@[k as int].status is Added,
        m < full@.len(),
        side_is(full@[m as int].new_path, path@),
        forall|j: int| 0 <= j < m ==> !side_is((#[trigger] full@[j]).new_path, path@),
    ensures
        full@[m as int].status is Renamed || full@[m as int].status is Copied ==> exists|
            q: DiffRequest,
            out: AppResult<RawPatch>,
        |
            {
                &&& #[trigger] call_ensures(*patch, (&q, m), out)
                &&& q.staged && q.context_lines == context_lines && q.path is None
                &&& match out {
                    Ok(p) => r matches Ok(d) && d@ == shown_diff(path@, full@[m as int], p),
                    Err(e) => r == Err::<FileDiff, AppError>(e),
                }
            },
        !(full@[m as int].status is Renamed || full@[m as int].status is Copied) ==> exists|
            q: DiffRequest,
            out: AppResult<RawPatch>,
        |
            {
                &&& #[trigger] call_ensures(*patch, (&q, k), out)
                &&& q.staged && q.context_lines == context_lines && (q.path matches Some(p) && p@
                    == path@)
                &&& match out {
                    Ok(p) => r matches Ok(d) && d@ == shown_diff(path@, deltas@[k as int], p),
                    Err(e) => r == Err::<FileDiff, AppError>(e),
                }
            },
{
    lemma_first_is(deltas@, touches(path@), k as int);
    lemma_first_is(full@, arrives_at(path@), m as int);
    let first = scan_request(path@, true, context_lines);
    let again = rescan_request(context_lines);
    assert forall|out: AppResult<Vec<RawDelta>>| #[trigger] scan_gave(*scan, first, out) implies out
        == Ok::<Vec<RawDelta>, AppError>(deltas) by {
        let q = choose|q: DiffRequest|
            q@ == first && #[trigger] call_ensures(*scan, (&q,), out);
        assert(q@.path is Some);
    }
    assert forall|out: AppResult<Vec<RawDelta>>| #[trigger] scan_gave(*scan, again, out) implies out
        == Ok::<Vec<RawDelta>, AppError>(full) by {
        let q = choose|q: DiffRequest|
            q@ == again && #[trigger] call_ensures(*scan, (&q,), out);
        assert(q@.path is None);
    }
    let moved = full@[m as int].status is Renamed || full@[m as int].status is Copied;
    let (delta, at, request) = if moved {
        (full@[m as int], m, again)
    } else {
        (deltas@[k as int], k, first)
    };
    assert(patch_gave(*patch, request, at as int, path@, delta, r));
    let (q, out) = choose|q: DiffRequest, out: AppResult<RawPatch>|
        {
            &&& q@ == request
            &&& #[trigger] call_ensures(*patch, (&q, (at as int) as usize), out)
            &&& match out {
                Ok(p) => outcome(r) == Ok::<FileDiffView, ErrorView>(
                    shown_diff(path@, delta, p),
                ),
                Err(e) => r == Err::<FileDiff, AppError>(e),
            }
        };
    assert(call_ensures(*patch, (&q, at), out));
    assert(q@.path == request.path);
}

/// Some files are known by their names alone, whatever stands behind a dot in them or nowhere.
pub proof fn law_build_files_are_known_by_name(path: &str, r: Option<String>, name: Seq<char>)
    requires
        call_ensures(language_for_path, (path,), r),
        file_name(path@) == Some(name),
    ensures
        name == "Dockerfile"@ ==> opt_text(r) == Some("dockerfile"@),
        name == "Makefile"@ ==> opt_text(r) == Some("make"@),
        name == "makefile"@ ==> opt_text(r) == Some("make"@),
        name == "GNUmakefile"@ ==> opt_text(r) == Some("make"@),
{
    reveal_strlit("Dockerfile");
    reveal_strlit("Makefile");
    reveal_strlit("makefile");
    reveal_strlit("GNUmakefile");
    assert("Dockerfile"@[0] == 'D');
    assert("Makefile"@[0] == 'M');
    assert("makefile"@[0] == 'm');
    assert("GNUmakefile"@[0] == 'G');
}

/// The same file seen twice is told the same language: by its name, then by its extension in
/// lower case.
pub proof fn law_shown_language_is_that_of_the_path(
    path: &str,
    delta: &RawDelta,
    patch: &RawPatch,
    r: FileDiff,
    language: Option<String>,
)
    requires
        call_ensures(show_delta, (path, delta, patch), r),
        call_ensures(language_for_path, (path,), language),
    ensures
        r@.language == opt_text(language),
{
}

} // verus!

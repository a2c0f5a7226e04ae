//! The error every fallible operation of the crate reports.

use crate::text::{contains_seq, contains_text, join2, just, owned, pieces, split_on, texts};
use vstd::prelude::*;
use vstd::string::to_string_from_display_ensures;

verus! {

/// An application error: what kind of failure it is, and the text shown for it.
///
/// Every variant carries a `message`, the fixed-text ones too, so that a reader of any error
/// finds the same shape.
#[derive(Debug, Clone)]
pub enum AppError {
    /// No repository is bound to the calling window.
    NoRepoOpen { message: String },
    /// The file changed since the diff that a hunk request was built from was displayed.
    StaleHunk { message: String },
    /// Per-hunk staging refused because the file holds bytes that are not UTF-8.
    NonUtf8File { message: String },
    /// No git author identity is configured.
    IdentityMissing { message: String },
    /// A commit was attempted with nothing staged.
    NothingStaged { message: String },
    /// A commit was attempted with an empty message.
    EmptyMessage { message: String },
    /// A window was closed before its repository could be bound.
    WindowClosed { message: String },
    /// A path or payload sent by a caller was rejected.
    Validation { message: String },
    /// The walk of the working tree stopped at a file that the system cannot read.
    UnreadableWorkTreeFile { message: String },
    /// Any other git failure.
    Git { message: String },
    /// Any other file system failure.
    Io { message: String },
}

/// The variants of [`AppError`], without their texts.
#[derive(Debug, Clone, Copy, PartialEq, Eq, Structural)]
pub enum ErrorKind {
    NoRepoOpen,
    StaleHunk,
    NonUtf8File,
    IdentityMissing,
    NothingStaged,
    EmptyMessage,
    WindowClosed,
    Validation,
    UnreadableWorkTreeFile,
    Git,
    Io,
}

/// An error as contracts speak of it: its kind and its text.
pub type ErrorView = (ErrorKind, Seq<char>);

impl View for AppError {
    type V = ErrorView;

    open spec fn view(&self) -> ErrorView {
        match *self {
            AppError::NoRepoOpen { message } => (ErrorKind::NoRepoOpen, message@),
            AppError::StaleHunk { message } => (ErrorKind::StaleHunk, message@),
            AppError::NonUtf8File { message } => (ErrorKind::NonUtf8File, message@),
            AppError::IdentityMissing { message } => (ErrorKind::IdentityMissing, message@),
            AppError::NothingStaged { message } => (ErrorKind::NothingStaged, message@),
            AppError::EmptyMessage { message } => (ErrorKind::EmptyMessage, message@),
            AppError::WindowClosed { message } => (ErrorKind::WindowClosed, message@),
            AppError::Validation { message } => (ErrorKind::Validation, message@),
            AppError::UnreadableWorkTreeFile { message } => (
                ErrorKind::UnreadableWorkTreeFile,
                message@,
            ),
            AppError::Git { message } => (ErrorKind::Git, message@),
            AppError::Io { message } => (ErrorKind::Io, message@),
        }
    }
}

/// Result of an operation that reports an [`AppError`].
pub type AppResult<T> = Result<T, AppError>;

/// A result as contracts speak of it: the success value and the error, each by its view.
pub open spec fn outcome<T: View>(r: Result<T, AppError>) -> Result<T::V, ErrorView> {
    match r {
        Ok(v) => Ok(v@),
        Err(e) => Err(e@),
    }
}

/// The tag that names an error kind on the wire.
pub open spec fn kind_name(kind: ErrorKind) -> Seq<char> {
    match kind {
        ErrorKind::NoRepoOpen => "noRepoOpen"@,
        ErrorKind::StaleHunk => "staleHunk"@,
        ErrorKind::NonUtf8File => "nonUtf8File"@,
        ErrorKind::IdentityMissing => "identityMissing"@,
        ErrorKind::NothingStaged => "nothingStaged"@,
        ErrorKind::EmptyMessage => "emptyMessage"@,
        ErrorKind::WindowClosed => "windowClosed"@,
        ErrorKind::Validation => "validation"@,
        ErrorKind::UnreadableWorkTreeFile => "unreadableWorkTreeFile"@,
        ErrorKind::Git => "git"@,
        ErrorKind::Io => "io"@,
    }
}

/// What libgit2 says when the system rejects a path of the working tree during a walk.
pub const UNREADABLE_WORK_TREE_MARKER: &'static str = "invalid path for filesystem";

/// The text between the first two single quotes of a message.
pub open spec fn quoted(message: Seq<char>) -> Option<Seq<char>> {
    let ps = pieces(message, just('\''));
    if ps.len() >= 3 {
        Some(ps[1])
    } else {
        None
    }
}

/// The text between the first two single quotes of `message`, if it has two.
pub fn quoted_path(message: &str) -> (r: Option<String>)
    ensures
        crate::text::opt_text(r) == quoted(message@),
{
    let ps = split_on(message, '\'');
    if ps.len() >= 3 {
        assert(texts(ps@)[1] == ps@[1]@);
        Some(ps[1].clone())
    } else {
        None
    }
}

/// Whether a libgit2 message reports a path of the working tree that the system cannot read.
#[must_use]
pub fn is_unreadable_work_tree_file(message: &str) -> (r: bool)
    ensures
        r == contains_seq(message@, UNREADABLE_WORK_TREE_MARKER@),
{
    contains_text(message, UNREADABLE_WORK_TREE_MARKER)
}

/// The diagnosis shown for an unreadable file: the offending path, what to do about it, and the
/// raw message.
pub open spec fn unreadable_text(raw: Seq<char>) -> Seq<char> {
    let subject = match quoted(raw) {
        Some(p) => "'"@ + p + "'"@,
        None => "a file in this repository"@,
    };
    "gitrx can't read "@ + subject
        + " — on Windows this usually means a WSL-created symlink, which Windows programs (git included) cannot follow. Replace it with a regular file, or recreate it as a Windows symlink (requires Developer Mode), then retry. ("@
        + raw + ")"@
}

/// The error that a libgit2 failure with this message becomes.
pub open spec fn git_failure(message: Seq<char>) -> ErrorView {
    if contains_seq(message, UNREADABLE_WORK_TREE_MARKER@) {
        (ErrorKind::UnreadableWorkTreeFile, unreadable_text(message))
    } else {
        (ErrorKind::Git, "Git error: "@ + message)
    }
}

/// The error that a file system failure with this message becomes.
pub open spec fn io_failure(message: Seq<char>) -> ErrorView {
    (ErrorKind::Io, "IO error: "@ + message)
}

/// libgit2's error, as the `git2` crate hands it out.
#[verifier::external_type_specification]
#[verifier::external_body]
pub struct ExGit2Error(git2::Error);

/// The message stored in a libgit2 error.
pub uninterp spec fn git2_message(err: git2::Error) -> Seq<char>;

/// `git2::Error::message`: hands out the message stored in the error.
pub assume_specification[ git2::Error::message ](err: &git2::Error) -> (r: &str)
    ensures
        r@ == git2_message(*err),
;

/// The codes of libgit2 errors that decide something here.
#[derive(Debug, Clone, Copy, PartialEq, Eq, Structural)]
pub enum GitCode {
    NotFound,
    UnbornBranch,
    Other,
}

/// The classes of libgit2 errors that decide something here.
#[derive(Debug, Clone, Copy, PartialEq, Eq, Structural)]
pub enum GitClass {
    Config,
    Other,
}

/// The code stored in a libgit2 error.
pub uninterp spec fn git2_code(err: git2::Error) -> GitCode;

/// The class stored in a libgit2 error.
pub uninterp spec fn git2_class(err: git2::Error) -> GitClass;

/// `git2::Error::code`: which of the codes told apart here is stored in the error.
#[verifier::external_body]
pub(crate) fn code_of(err: &git2::Error) -> (r: GitCode)
    ensures
        r == git2_code(*err),
{
    match err.code() {
        git2::ErrorCode::NotFound => GitCode::NotFound,
        git2::ErrorCode::UnbornBranch => GitCode::UnbornBranch,
        _ => GitCode::Other,
    }
}

/// `git2::Error::class`: which of the classes told apart here is stored in the error.
#[verifier::external_body]
pub(crate) fn class_of(err: &git2::Error) -> (r: GitClass)
    ensures
        r == git2_class(*err),
{
    match err.class() {
        git2::ErrorClass::Config => GitClass::Config,
        _ => GitClass::Other,
    }
}

/// The standard library's file system error.
#[verifier::external_type_specification]
#[verifier::external_body]
pub struct ExIoError(std::io::Error);

impl vstd::std_specs::convert::FromSpecImpl<git2::Error> for AppError {
    open spec fn obeys_from_spec() -> bool {
        false
    }

    open spec fn from_spec(v: git2::Error) -> AppError {
        arbitrary()
    }
}

impl From<git2::Error> for AppError {
    fn from(err: git2::Error) -> (r: Self)
        ensures
            r@ == git_failure(git2_message(err)),
    {
        AppError::from_git_message(err.message())
    }
}

impl vstd::std_specs::convert::FromSpecImpl<std::io::Error> for AppError {
    open spec fn obeys_from_spec() -> bool {
        false
    }

    open spec fn from_spec(v: std::io::Error) -> AppError {
        arbitrary()
    }
}

impl From<std::io::Error> for AppError {
    fn from(err: std::io::Error) -> (r: Self)
        ensures
            exists|text: String|
                #[trigger] to_string_from_display_ensures(&err, text) && r@ == io_failure(text@),
    {
        let text = err.to_string();
        AppError::from_io_message(text.as_str())
    }
}

impl AppError {
    /// The kind of the error.
    pub fn kind(&self) -> (r: ErrorKind)
        ensures
            r == self@.0,
    {
        match self {
            AppError::NoRepoOpen { .. } => ErrorKind::NoRepoOpen,
            AppError::StaleHunk { .. } => ErrorKind::StaleHunk,
            AppError::NonUtf8File { .. } => ErrorKind::NonUtf8File,
            AppError::IdentityMissing { .. } => ErrorKind::IdentityMissing,
            AppError::NothingStaged { .. } => ErrorKind::NothingStaged,
            AppError::EmptyMessage { .. } => ErrorKind::EmptyMessage,
            AppError::WindowClosed { .. } => ErrorKind::WindowClosed,
            AppError::Validation { .. } => ErrorKind::Validation,
            AppError::UnreadableWorkTreeFile { .. } => ErrorKind::UnreadableWorkTreeFile,
            AppError::Git { .. } => ErrorKind::Git,
            AppError::Io { .. } => ErrorKind::Io,
        }
    }

    /// The tag that names the error on the wire.
    pub fn name(&self) -> (r: &'static str)
        ensures
            r@ == kind_name(self@.0),
    {
        match self {
            AppError::NoRepoOpen { .. } => "noRepoOpen",
            AppError::StaleHunk { .. } => "staleHunk",
            AppError::NonUtf8File { .. } => "nonUtf8File",
            AppError::IdentityMissing { .. } => "identityMissing",
            AppError::NothingStaged { .. } => "nothingStaged",
            AppError::EmptyMessage { .. } => "emptyMessage",
            AppError::WindowClosed { .. } => "windowClosed",
            AppError::Validation { .. } => "validation",
            AppError::UnreadableWorkTreeFile { .. } => "unreadableWorkTreeFile",
            AppError::Git { .. } => "git",
            AppError::Io { .. } => "io",
        }
    }

    /// The text of the error.
    pub fn to_string(&self) -> (r: String)
        ensures
            r@ == self@.1,
    {
        match self {
            AppError::NoRepoOpen { message } => message.clone(),
            AppError::StaleHunk { message } => message.clone(),
            AppError::NonUtf8File { message } => message.clone(),
            AppError::IdentityMissing { message } => message.clone(),
            AppError::NothingStaged { message } => message.clone(),
            AppError::EmptyMessage { message } => message.clone(),
            AppError::WindowClosed { message } => message.clone(),
            AppError::Validation { message } => message.clone(),
            AppError::UnreadableWorkTreeFile { message } => message.clone(),
            AppError::Git { message } => message.clone(),
            AppError::Io { message } => message.clone(),
        }
    }

    /// The error for a libgit2 failure with this message: the diagnosis of an unreadable file
    /// where the message reports one, the generic git error otherwise.
    pub fn from_git_message(message: &str) -> (r: Self)
        ensures
            r@ == git_failure(message@),
    {
        if is_unreadable_work_tree_file(message) {
            return Self::unreadable_work_tree_file(message);
        }
        AppError::Git { message: join2("Git error: ", message) }
    }

    /// The error for a file system failure with this message.
    pub fn from_io_message(message: &str) -> (r: Self)
        ensures
            r@ == io_failure(message@),
    {
        AppError::Io { message: join2("IO error: ", message) }
    }

    /// No repository is open for the calling window.
    #[must_use]
    pub fn no_repo_open() -> (r: Self)
        ensures
            r@ == (ErrorKind::NoRepoOpen, "No repository open"@),
    {
        AppError::NoRepoOpen { message: owned("No repository open") }
    }

    /// The displayed diff went stale before the hunk could be applied.
    #[must_use]
    pub fn stale_hunk() -> (r: Self)
        ensures
            r@ == (
                ErrorKind::StaleHunk,
                "The file changed since this diff was displayed — refresh and try again."@,
            ),
    {
        AppError::StaleHunk {
            message: owned(
                "The file changed since this diff was displayed — refresh and try again.",
            ),
        }
    }

    /// The file is not UTF-8, so staging it hunk by hunk would corrupt it.
    #[must_use]
    pub fn non_utf8_file() -> (r: Self)
        ensures
            r@ == (
                ErrorKind::NonUtf8File,
                "File contains non-UTF-8 text — use whole-file staging"@,
            ),
    {
        AppError::NonUtf8File {
            message: owned("File contains non-UTF-8 text — use whole-file staging"),
        }
    }

    /// No git identity is configured; the text says how to set one.
    #[must_use]
    pub fn identity_missing() -> (r: Self)
        ensures
            r@ == (
                ErrorKind::IdentityMissing,
                "Git identity is not configured. Set it with:\n  git config --global user.name \"Your Name\"\n  git config --global user.email \"you@example.com\""@,
            ),
    {
        AppError::IdentityMissing {
            message: owned(
                "Git identity is not configured. Set it with:\n  git config --global user.name \"Your Name\"\n  git config --global user.email \"you@example.com\"",
            ),
        }
    }

    /// Nothing is staged for a commit that is no amendment.
    #[must_use]
    pub fn nothing_staged() -> (r: Self)
        ensures
            r@ == (ErrorKind::NothingStaged, "No staged changes to commit"@),
    {
        AppError::NothingStaged { message: owned("No staged changes to commit") }
    }

    /// The commit message is empty or white space.
    #[must_use]
    pub fn empty_message() -> (r: Self)
        ensures
            r@ == (ErrorKind::EmptyMessage, "Commit message cannot be empty"@),
    {
        AppError::EmptyMessage { message: owned("Commit message cannot be empty") }
    }

    /// A window closed before its repository could be bound.
    #[must_use]
    pub fn window_closed() -> (r: Self)
        ensures
            r@ == (ErrorKind::WindowClosed, "window closed"@),
    {
        AppError::WindowClosed { message: owned("window closed") }
    }

    /// A file of the working tree could not be read during a walk; the text names it and says
    /// what to do.
    #[must_use]
    pub fn unreadable_work_tree_file(raw: &str) -> (r: Self)
        ensures
            r@ == (ErrorKind::UnreadableWorkTreeFile, unreadable_text(raw@)),
    {
        let subject = match quoted_path(raw) {
            Some(p) => crate::text::join3("'", p.as_str(), "'"),
            None => owned("a file in this repository"),
        };
        let head = crate::text::join3(
            "gitrx can't read ",
            subject.as_str(),
            " — on Windows this usually means a WSL-created symlink, which Windows programs (git included) cannot follow. Replace it with a regular file, or recreate it as a Windows symlink (requires Developer Mode), then retry. (",
        );
        AppError::UnreadableWorkTreeFile { message: crate::text::join3(head.as_str(), raw, ")") }
    }

    /// A path or payload sent by a caller was rejected.
    pub fn validation(message: &str) -> (r: Self)
        ensures
            r@ == (ErrorKind::Validation, message@),
    {
        AppError::Validation { message: owned(message) }
    }

    /// A git operation failed.
    pub fn git(message: &str) -> (r: Self)
        ensures
            r@ == (ErrorKind::Git, message@),
    {
        AppError::Git { message: owned(message) }
    }

    /// A file system operation failed.
    pub fn io(message: &str) -> (r: Self)
        ensures
            r@ == (ErrorKind::Io, message@),
    {
        AppError::Io { message: owned(message) }
    }
}

/// The names by which a caller tells errors apart.
pub proof fn law_errors_have_their_names(e: AppError, name: &'static str, kind: ErrorKind)
    requires
        call_ensures(AppError::name, (&e,), name),
        call_ensures(AppError::kind, (&e,), kind),
    ensures
        match e {
            AppError::NoRepoOpen { .. } => name@ == "noRepoOpen"@ && kind is NoRepoOpen,
            AppError::StaleHunk { .. } => name@ == "staleHunk"@ && kind is StaleHunk,
            AppError::NonUtf8File { .. } => name@ == "nonUtf8File"@ && kind is NonUtf8File,
            AppError::IdentityMissing { .. } => name@ == "identityMissing"@ && kind
                is IdentityMissing,
            AppError::NothingStaged { .. } => name@ == "nothingStaged"@ && kind is NothingStaged,
            AppError::EmptyMessage { .. } => name@ == "emptyMessage"@ && kind is EmptyMessage,
            AppError::WindowClosed { .. } => name@ == "windowClosed"@ && kind is WindowClosed,
            AppError::Validation { .. } => name@ == "validation"@ && kind is Validation,
            AppError::UnreadableWorkTreeFile { .. } => name@ == "unreadableWorkTreeFile"@ && kind
                is UnreadableWorkTreeFile,
            AppError::Git { .. } => name@ == "git"@ && kind is Git,
            AppError::Io { .. } => name@ == "io"@ && kind is Io,
        },
{
}

/// A git failure keeps what git said. It is about a file that the system cannot read exactly where
/// the message says so, at whatever place.
pub proof fn law_git_failures_keep_the_message(message: &str, r: AppError)
    requires
        call_ensures(AppError::from_git_message, (message,), r),
    ensures
        r@.0 == ErrorKind::UnreadableWorkTreeFile <==> contains_seq(
            message@,
            "invalid path for filesystem"@,
        ),
        r@.0 == ErrorKind::UnreadableWorkTreeFile || r@.0 == ErrorKind::Git,
        r@.0 == ErrorKind::Git ==> r@.1 == "Git error: "@ + message@,
        r@.0 == ErrorKind::UnreadableWorkTreeFile ==> (message@ + ")"@).is_suffix_of(r@.1),
{
    let whole = unreadable_text(message@);
    if r@.0 == ErrorKind::UnreadableWorkTreeFile {
        let tail = message@ + ")"@;
        assert(whole.skip(whole.len() - tail.len()) =~= tail);
    }
}

/// The path that an error message quotes is what stands between its first two quotes, and there is
/// one exactly where there are two quotes.
pub proof fn law_quoted_path_stands_between_quotes(
    before: Seq<char>,
    path: Seq<char>,
    after: Seq<char>,
)
    requires
        !before.contains('\''),
        !path.contains('\''),
    ensures
        quoted(before.push('\'') + (path.push('\'') + after)) == Some(path),
        quoted(before) is None,
        quoted(before.push('\'') + path) is None,
{
    let sep = just('\'');
    assert forall|i: int| 0 <= i < before.len() implies !sep(#[trigger] before[i]) by {
        assert(before.contains(before[i]));
    }
    assert forall|i: int| 0 <= i < path.len() implies !sep(#[trigger] path[i]) by {
        assert(path.contains(path[i]));
    }
    crate::text::lemma_pieces_single(before, sep);
    crate::text::lemma_pieces_single(path, sep);
    crate::text::lemma_pieces_join(path, '\'', after, sep);
    crate::text::lemma_pieces_join(before, '\'', path.push('\'') + after, sep);
    crate::text::lemma_pieces_join(before, '\'', path, sep);
    crate::text::lemma_pieces_non_empty(after, sep);
}

/// What is said of a failed file operation: what the system said, under the name of its kind.
pub proof fn law_file_failures_keep_the_message(message: &str, r: AppError, text: String)
    requires
        call_ensures(AppError::from_io_message, (message,), r),
        call_ensures(AppError::to_string, (&r,), text),
    ensures
        r is Io,
        text@ == "IO error: "@ + message@,
{
}

/// What is said of a file that cannot be read: its path in quotes where the message has one, and
/// the message itself at the end, in brackets.
pub proof fn law_unreadable_file_is_named(raw: &str, r: AppError, path: Option<String>)
    requires
        call_ensures(AppError::unreadable_work_tree_file, (raw,), r),
        call_ensures(quoted_path, (raw,), path),
    ensures
        r is UnreadableWorkTreeFile,
        path matches Some(p) ==> ("gitrx can't read '"@ + p@ + "'"@).is_prefix_of(r@.1),
        path is None ==> "gitrx can't read a file in this repository"@.is_prefix_of(r@.1),
        ("("@ + raw@ + ")"@).is_suffix_of(r@.1),
{
    reveal_strlit("gitrx can't read ");
    reveal_strlit("gitrx can't read '");
    reveal_strlit("'");
    reveal_strlit("a file in this repository");
    reveal_strlit("gitrx can't read a file in this repository");
    reveal_strlit("(");
    reveal_strlit(")");
    reveal_strlit(
        " — on Windows this usually means a WSL-created symlink, which Windows programs (git included) cannot follow. Replace it with a regular file, or recreate it as a Windows symlink (requires Developer Mode), then retry. (",
    );
    let m = r@.1;
    let mid = " — on Windows this usually means a WSL-created symlink, which Windows programs (git included) cannot follow. Replace it with a regular file, or recreate it as a Windows symlink (requires Developer Mode), then retry. ("@;
    assert(mid.last() == '(');
    let tail = "("@ + raw@ + ")"@;
    assert(m.skip(m.len() - tail.len()) =~= tail);
    match path {
        Some(p) => {
            let h = "gitrx can't read '"@ + p@ + "'"@;
            assert("gitrx can't read "@ + ("'"@ + p@ + "'"@) =~= h);
            assert(m.take(h.len() as int) =~= h);
        },
        None => {
            let h = "gitrx can't read a file in this repository"@;
            assert("gitrx can't read "@ + "a file in this repository"@ =~= h);
            assert(m.take(h.len() as int) =~= h);
        },
    }
}

/// The kind, the name and the text of an error belong together, whatever the error.
pub proof fn law_errors_tell_their_kind_and_text(e: AppError, kind: ErrorKind, text: String)
    requires
        call_ensures(AppError::kind, (&e,), kind),
        call_ensures(AppError::to_string, (&e,), text),
    ensures
        e matches AppError::NoRepoOpen { message } ==> kind is NoRepoOpen && text@ == message@,
        e matches AppError::StaleHunk { message } ==> kind is StaleHunk && text@ == message@,
        e matches AppError::NonUtf8File { message } ==> kind is NonUtf8File && text@ == message@,
        e matches AppError::IdentityMissing { message } ==> kind is IdentityMissing && text@
            == message@,
        e matches AppError::NothingStaged { message } ==> kind is NothingStaged && text@ == message@,
        e matches AppError::EmptyMessage { message } ==> kind is EmptyMessage && text@ == message@,
        e matches AppError::WindowClosed { message } ==> kind is WindowClosed && text@ == message@,
        e matches AppError::Validation { message } ==> kind is Validation && text@ == message@,
        e matches AppError::UnreadableWorkTreeFile { message } ==> kind is UnreadableWorkTreeFile
            && text@ == message@,
        e matches AppError::Git { message } ==> kind is Git && text@ == message@,
        e matches AppError::Io { message } ==> kind is Io && text@ == message@,
{
}

} // verus!

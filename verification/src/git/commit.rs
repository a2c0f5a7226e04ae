//! Creating and amending commits.
//!
//! The steps that read and write the repository are functions that the caller hands in; which
//! of them run, in which order, and what their failures mean is decided here.

use crate::error::{
    class_of, code_of, git2_class, git2_code, git2_message, git_failure, outcome, AppError,
    AppResult, ErrorKind, ErrorView, GitClass, GitCode,
};
use crate::text::{is_white, lemma_trimmed_empty, owned, trim, trimmed};
use vstd::prelude::*;

verus! {

/// What looking up HEAD gave: what HEAD leads to, or the failure to resolve it, or the failure
/// to reach a commit from it.
pub enum HeadLookup<C> {
    Found(C),
    HeadFailed(git2::Error),
    PeelFailed(git2::Error),
}

/// A staged delta: whether either side is a submodule entry.
#[derive(Debug, Clone, Copy, PartialEq, Eq, Structural)]
pub struct StagedDelta {
    pub new_is_submodule: bool,
    pub old_is_submodule: bool,
}

/// The error for a signature that could not be made: a missing identity where a configuration
/// value was not found, the git failure otherwise.
pub open spec fn signature_failure(e: git2::Error) -> ErrorView {
    if git2_code(e) == GitCode::NotFound && git2_class(e) == GitClass::Config {
        (
            ErrorKind::IdentityMissing,
            "Git identity is not configured. Set it with:\n  git config --global user.name \"Your Name\"\n  git config --global user.email \"you@example.com\""@,
        )
    } else {
        git_failure(git2_message(e))
    }
}

/// The error for a signature that could not be made. The code and the class of the failure
/// decide, not its text.
pub fn signature_error(e: git2::Error) -> (r: AppError)
    ensures
        r@ == signature_failure(e),
{
    if code_of(&e) == GitCode::NotFound && class_of(&e) == GitClass::Config {
        AppError::identity_missing()
    } else {
        AppError::from(e)
    }
}

/// A message counts as empty exactly where it is white space throughout.
pub proof fn law_blank_message_is_empty(message: Seq<char>)
    ensures
        trimmed(message).len() == 0 <==> (forall|i: int|
            0 <= i < message.len() ==> is_white(#[trigger] message[i])),
{
    lemma_trimmed_empty(message);
}

/// Whether either side of a delta is a submodule entry.
pub open spec fn is_submodule(d: StagedDelta) -> bool {
    d.new_is_submodule || d.old_is_submodule
}

/// Whether something other than submodule entries is staged.
pub open spec fn anything_staged(ds: Seq<StagedDelta>) -> bool {
    exists|i: int| 0 <= i < ds.len() && !is_submodule(#[trigger] ds[i])
}

/// Whether something other than submodule entries is staged: submodules are not shown, so a
/// staged one alone must not make a commit possible.
pub fn has_staged_changes(ds: &Vec<StagedDelta>) -> (r: bool)
    ensures
        r == anything_staged(ds@),
{
    let mut i: usize = 0;
    while i < ds.len()
        invariant
            0 <= i <= ds@.len(),
            forall|j: int| 0 <= j < i ==> is_submodule(#[trigger] ds@[j]),
        decreases ds@.len() - i,
    {
        if !(ds[i].new_is_submodule || ds[i].old_is_submodule) {
            assert(!is_submodule(ds@[i as int]));
            return true;
        }
        i += 1;
    }
    false
}

/// `r` is the failure that a libgit2 error becomes.
pub open spec fn failed(r: AppResult<String>, e: git2::Error) -> bool {
    outcome(r) == Err::<Seq<char>, ErrorView>(git_failure(git2_message(e)))
}

/// `r` is what writing the commit gave.
pub open spec fn written(r: AppResult<String>, out: Result<String, git2::Error>) -> bool {
    match out {
        Ok(oid) => r == Ok::<String, AppError>(oid),
        Err(e) => failed(r, e),
    }
}

/// `r` is what amending HEAD with this tree gives: HEAD has to lead to a commit, then an
/// identity has to be configured, then that commit is rewritten.
pub open spec fn amended<T, C, S, H, G, A>(
    message: &str,
    tree: T,
    head: H,
    sign: G,
    amend_head: A,
    r: AppResult<String>,
) -> bool where
    H: FnOnce() -> HeadLookup<C>,
    G: FnOnce() -> Result<S, git2::Error>,
    A: FnOnce(&C, &S, &str, &T) -> Result<String, git2::Error>,
 {
    exists|found: HeadLookup<C>|
        {
            &&& #[trigger] call_ensures(head, (), found)
            &&& match found {
                HeadLookup::HeadFailed(e) => if git2_code(e) == GitCode::UnbornBranch {
                    outcome(r) == Err::<Seq<char>, ErrorView>(
                        (
                            ErrorKind::Validation,
                            "Nothing to amend: this branch has no commits yet"@,
                        ),
                    )
                } else {
                    failed(r, e)
                },
                HeadLookup::PeelFailed(e) => failed(r, e),
                HeadLookup::Found(c) => exists|signed: Result<S, git2::Error>|
                    {
                        &&& #[trigger] call_ensures(sign, (), signed)
                        &&& match signed {
                            Err(e) => outcome(r) == Err::<Seq<char>, ErrorView>(
                                signature_failure(e),
                            ),
                            Ok(s) => exists|out: Result<String, git2::Error>|
                                #[trigger] call_ensures(amend_head, (&c, &s, message, &tree), out)
                                    && written(r, out),
                        }
                    },
            }
        }
}

/// `r` is what committing this tree gives: something has to be staged, then an identity has to
/// be configured, then the commit is made on top of HEAD, or as the first one where HEAD has no
/// commits yet.
pub open spec fn created<T, C, S, H, G, D, N>(
    message: &str,
    tree: T,
    head: H,
    sign: G,
    staged: D,
    create: N,
    r: AppResult<String>,
) -> bool where
    H: FnOnce() -> HeadLookup<C>,
    G: FnOnce() -> Result<S, git2::Error>,
    D: FnOnce() -> Result<Vec<StagedDelta>, git2::Error>,
    N: FnOnce(&S, &str, &T, &Option<C>) -> Result<String, git2::Error>,
 {
    exists|listed: Result<Vec<StagedDelta>, git2::Error>|
        {
            &&& #[trigger] call_ensures(staged, (), listed)
            &&& match listed {
                Err(e) => failed(r, e),
                Ok(ds) => if !anything_staged(ds@) {
                    outcome(r) == Err::<Seq<char>, ErrorView>(
                        (ErrorKind::NothingStaged, "No staged changes to commit"@),
                    )
                } else {
                    exists|signed: Result<S, git2::Error>|
                        {
                            &&& #[trigger] call_ensures(sign, (), signed)
                            &&& match signed {
                                Err(e) => outcome(r) == Err::<Seq<char>, ErrorView>(
                                    signature_failure(e),
                                ),
                                Ok(s) => exists|found: HeadLookup<C>|
                                    {
                                        &&& #[trigger] call_ensures(head, (), found)
                                        &&& match found {
                                            HeadLookup::HeadFailed(e) => if git2_code(e)
                                                == GitCode::UnbornBranch {
                                                exists|out: Result<String, git2::Error>|
                                                    #[trigger] call_ensures(
                                                        create,
                                                        (&s, message, &tree, &None::<C>),
                                                        out,
                                                    ) && written(r, out)
                                            } else {
                                                failed(r, e)
                                            },
                                            HeadLookup::PeelFailed(e) => failed(r, e),
                                            HeadLookup::Found(c) => exists|
                                                out: Result<String, git2::Error>,
                                            |
                                                #[trigger] call_ensures(
                                                    create,
                                                    (&s, message, &tree, &Some(c)),
                                                    out,
                                                ) && written(r, out),
                                        }
                                    },
                            }
                        }
                },
            }
        }
}

/// When a commit may be rewritten with this tree: only the one that HEAD was found to lead to,
/// and only with a signature of the configured identity.
pub open spec fn may_amend<T, C, S, H, G, A>(
    message: &str,
    tree: T,
    head: H,
    sign: G,
    amend_head: A,
) -> bool where
    H: FnOnce() -> HeadLookup<C>,
    G: FnOnce() -> Result<S, git2::Error>,
    A: FnOnce(&C, &S, &str, &T) -> Result<String, git2::Error>,
 {
    forall|c: C, s: S|
        #[trigger] call_ensures(head, (), HeadLookup::Found(c)) && #[trigger] call_ensures(
            sign,
            (),
            Ok::<S, git2::Error>(s),
        ) ==> call_requires(amend_head, (&c, &s, message, &tree))
}

/// Whether a commit on top of `parent` is what this lookup of HEAD asks for: its commit is the
/// parent, and there is none where HEAD has no commits yet.
pub open spec fn is_parent<C>(found: HeadLookup<C>, parent: Option<C>) -> bool {
    match found {
        HeadLookup::Found(c) => parent == Some(c),
        HeadLookup::HeadFailed(e) => git2_code(e) == GitCode::UnbornBranch && parent is None,
        HeadLookup::PeelFailed(_) => false,
    }
}

/// When a commit may be made of this tree: only where something was found staged, with a
/// signature of the configured identity and on top of what HEAD was found to lead to.
pub open spec fn may_create<T, C, S, H, G, D, N>(
    message: &str,
    tree: T,
    head: H,
    sign: G,
    staged: D,
    create: N,
) -> bool where
    H: FnOnce() -> HeadLookup<C>,
    G: FnOnce() -> Result<S, git2::Error>,
    D: FnOnce() -> Result<Vec<StagedDelta>, git2::Error>,
    N: FnOnce(&S, &str, &T, &Option<C>) -> Result<String, git2::Error>,
 {
    forall|ds: Vec<StagedDelta>, s: S, found: HeadLookup<C>, parent: Option<C>|
        #[trigger] call_ensures(staged, (), Ok::<Vec<StagedDelta>, git2::Error>(ds))
            && anything_staged(ds@) && #[trigger] call_ensures(sign, (), Ok::<S, git2::Error>(s))
            && #[trigger] call_ensures(head, (), found) && is_parent(found, parent)
            ==> #[trigger] call_requires(create, (&s, message, &tree, &parent))
}

/// `r` is what a commit gives: the message has to say something, then the index is written as a
/// tree, then HEAD is amended or a commit is made.
pub open spec fn committed<T, C, S, W, H, G, D, A, N>(
    message: &str,
    amend: bool,
    write_tree: W,
    head: H,
    sign: G,
    staged: D,
    amend_head: A,
    create: N,
    r: AppResult<String>,
) -> bool where
    W: FnOnce() -> Result<T, git2::Error>,
    H: FnOnce() -> HeadLookup<C>,
    G: FnOnce() -> Result<S, git2::Error>,
    D: FnOnce() -> Result<Vec<StagedDelta>, git2::Error>,
    A: FnOnce(&C, &S, &str, &T) -> Result<String, git2::Error>,
    N: FnOnce(&S, &str, &T, &Option<C>) -> Result<String, git2::Error>,
 {
    if trimmed(message@).len() == 0 {
        outcome(r) == Err::<Seq<char>, ErrorView>(
            (ErrorKind::EmptyMessage, "Commit message cannot be empty"@),
        )
    } else {
        exists|out: Result<T, git2::Error>|
            {
                &&& #[trigger] call_ensures(write_tree, (), out)
                &&& match out {
                    Err(e) => failed(r, e),
                    Ok(tree) => if amend {
                        amended(message, tree, head, sign, amend_head, r)
                    } else {
                        created(message, tree, head, sign, staged, create, r)
                    },
                }
            }
    }
}

/// Makes a commit of the index, or rewrites the one that HEAD leads to, and hands back its id.
///
/// `write_tree` writes the index as a tree, `head` looks up the commit of HEAD, `sign` makes a
/// signature of the configured identity, `staged` lists what differs between HEAD and the
/// index, `amend_head` rewrites a commit and `create` makes a new one.
///
/// An empty message is refused before anything else happens. A commit with nothing staged is
/// refused, unless it is an amendment: that may change the message alone. Nothing can be
/// amended on a branch without commits. An amendment never makes a new commit, and a new commit
/// never rewrites one. Each may happen only once everything that could refuse it has been asked,
/// and at most once, so a commit that is refused leaves HEAD as it was.
pub fn commit<T, C, S, W, H, G, D, A, N>(
    message: &str,
    amend: bool,
    write_tree: W,
    head: H,
    sign: G,
    staged: D,
    amend_head: A,
    create: N,
) -> (r: AppResult<String>) where
    W: FnOnce() -> Result<T, git2::Error>,
    H: FnOnce() -> HeadLookup<C>,
    G: FnOnce() -> Result<S, git2::Error>,
    D: FnOnce() -> Result<Vec<StagedDelta>, git2::Error>,
    A: FnOnce(&C, &S, &str, &T) -> Result<String, git2::Error>,
    N: FnOnce(&S, &str, &T, &Option<C>) -> Result<String, git2::Error>,

    requires
        trimmed(message@).len() > 0 ==> {
            &&& call_requires(write_tree, ())
            &&& call_requires(head, ())
            &&& call_requires(sign, ())
        },
        trimmed(message@).len() > 0 && !amend ==> call_requires(staged, ()),
        trimmed(message@).len() > 0 && amend ==> forall|t: T|
            #[trigger] call_ensures(write_tree, (), Ok::<T, git2::Error>(t)) ==> may_amend(
                message,
                t,
                head,
                sign,
                amend_head,
            ),
        trimmed(message@).len() > 0 && !amend ==> forall|t: T|
            #[trigger] call_ensures(write_tree, (), Ok::<T, git2::Error>(t)) ==> may_create(
                message,
                t,
                head,
                sign,
                staged,
                create,
            ),
    ensures
        committed(message, amend, write_tree, head, sign, staged, amend_head, create, r),
{
    if trim(message).as_str().is_empty() {
        return Err(AppError::empty_message());
    }
    let out = write_tree();
    assert(call_ensures(write_tree, (), out));
    let tree = match out {
        Ok(t) => t,
        Err(e) => return Err(AppError::from(e)),
    };
    if amend {
        let r = commit_amended(message, &tree, head, sign, amend_head);
        assert(amended(message, tree, head, sign, amend_head, r));
        r
    } else {
        let r = commit_created(message, &tree, head, sign, staged, create);
        assert(created(message, tree, head, sign, staged, create, r));
        r
    }
}

/// The second half of [`commit`] for an amendment.
fn commit_amended<T, C, S, H, G, A>(
    message: &str,
    tree: &T,
    head: H,
    sign: G,
    amend_head: A,
) -> (r: AppResult<String>) where
    H: FnOnce() -> HeadLookup<C>,
    G: FnOnce() -> Result<S, git2::Error>,
    A: FnOnce(&C, &S, &str, &T) -> Result<String, git2::Error>,

    requires
        call_requires(head, ()),
        call_requires(sign, ()),
        may_amend(message, *tree, head, sign, amend_head),
    ensures
        amended(message, *tree, head, sign, amend_head, r),
{
    let found = head();
    assert(call_ensures(head, (), found));
    let c = match found {
        HeadLookup::Found(c) => c,
        HeadLookup::HeadFailed(e) => {
            if code_of(&e) == GitCode::UnbornBranch {
                return Err(
                    AppError::validation("Nothing to amend: this branch has no commits yet"),
                );
            }
            return Err(AppError::from(e));
        },
        HeadLookup::PeelFailed(e) => return Err(AppError::from(e)),
    };
    let signed = sign();
    assert(call_ensures(sign, (), signed));
    let s = match signed {
        Ok(s) => s,
        Err(e) => return Err(signature_error(e)),
    };
    let out = amend_head(&c, &s, message, tree);
    assert(call_ensures(amend_head, (&c, &s, message, tree), out));
    match out {
        Ok(oid) => Ok(oid),
        Err(e) => Err(AppError::from(e)),
    }
}

/// The second half of [`commit`] for a new commit.
fn commit_created<T, C, S, H, G, D, N>(
    message: &str,
    tree: &T,
    head: H,
    sign: G,
    staged: D,
    create: N,
) -> (r: AppResult<String>) where
    H: FnOnce() -> HeadLookup<C>,
    G: FnOnce() -> Result<S, git2::Error>,
    D: FnOnce() -> Result<Vec<StagedDelta>, git2::Error>,
    N: FnOnce(&S, &str, &T, &Option<C>) -> Result<String, git2::Error>,

    requires
        call_requires(head, ()),
        call_requires(sign, ()),
        call_requires(staged, ()),
        may_create(message, *tree, head, sign, staged, create),
    ensures
        created(message, *tree, head, sign, staged, create, r),
{
    let listed = staged();
    assert(call_ensures(staged, (), listed));
    let ds = match listed {
        Ok(ds) => ds,
        Err(e) => return Err(AppError::from(e)),
    };
    if !has_staged_changes(&ds) {
        return Err(AppError::nothing_staged());
    }
    let signed = sign();
    assert(call_ensures(sign, (), signed));
    let s = match signed {
        Ok(s) => s,
        Err(e) => return Err(signature_error(e)),
    };
    let found = head();
    assert(call_ensures(head, (), found));
    let parent: Option<C> = match found {
        HeadLookup::Found(c) => Some(c),
        HeadLookup::HeadFailed(e) => {
            if code_of(&e) == GitCode::UnbornBranch {
                None
            } else {
                return Err(AppError::from(e));
            }
        },
        HeadLookup::PeelFailed(e) => return Err(AppError::from(e)),
    };
    let out = create(&s, message, tree, &parent);
    assert(call_ensures(create, (&s, message, tree, &parent), out));
    match out {
        Ok(oid) => Ok(oid),
        Err(e) => Err(AppError::from(e)),
    }
}

/// `r` is the message to show for this lookup of the message of HEAD.
pub open spec fn message_read(found: HeadLookup<Option<String>>, r: AppResult<String>) -> bool {
    match found {
        HeadLookup::Found(Some(m)) => outcome(r) == Ok::<Seq<char>, ErrorView>(m@),
        HeadLookup::Found(None) => outcome(r) == Ok::<Seq<char>, ErrorView>(""@),
        HeadLookup::HeadFailed(e) => if git2_code(e) == GitCode::UnbornBranch {
            outcome(r) == Ok::<Seq<char>, ErrorView>(""@)
        } else {
            failed(r, e)
        },
        HeadLookup::PeelFailed(e) => failed(r, e),
    }
}

/// The message of the commit that HEAD leads to: empty on a branch without commits, and where
/// the message is not text.
pub fn head_commit_message(found: HeadLookup<Option<String>>) -> (r: AppResult<String>)
    ensures
        message_read(found, r),
{
    match found {
        HeadLookup::Found(m) => match m {
            Some(m) => Ok(m),
            None => Ok(owned("")),
        },
        HeadLookup::HeadFailed(e) => {
            if code_of(&e) == GitCode::UnbornBranch {
                Ok(owned(""))
            } else {
                Err(AppError::from(e))
            }
        },
        HeadLookup::PeelFailed(e) => Err(AppError::from(e)),
    }
}

/// The message of HEAD reads back as it was committed, to the last character: where the
/// repository keeps the message that it is handed with a commit, looking it up gives the message
/// of the commit.
pub proof fn law_committed_message_reads_back<T, C, S, W, H, G, D, A, N>(
    message: &str,
    amend: bool,
    write_tree: W,
    head: H,
    sign: G,
    staged: D,
    amend_head: A,
    create: N,
    r: AppResult<String>,
    found: HeadLookup<Option<String>>,
    read: AppResult<String>,
) where
    W: FnOnce() -> Result<T, git2::Error>,
    H: FnOnce() -> HeadLookup<C>,
    G: FnOnce() -> Result<S, git2::Error>,
    D: FnOnce() -> Result<Vec<StagedDelta>, git2::Error>,
    A: FnOnce(&C, &S, &str, &T) -> Result<String, git2::Error>,
    N: FnOnce(&S, &str, &T, &Option<C>) -> Result<String, git2::Error>,

    requires
        committed(message, amend, write_tree, head, sign, staged, amend_head, create, r),
        r is Ok,
        forall|c: C, s: S, m: &str, t: T, out: Result<String, git2::Error>| #[trigger]
            call_ensures(amend_head, (&c, &s, m, &t), out) && out is Ok ==> is_message(found, m@),
        forall|s: S, m: &str, t: T, p: Option<C>, out: Result<String, git2::Error>| #[trigger]
            call_ensures(create, (&s, m, &t, &p), out) && out is Ok ==> is_message(found, m@),
        message_read(found, read),
    ensures
        outcome(read) == Ok::<Seq<char>, ErrorView>(message@),
{
}

/// Whether a lookup of the message of HEAD found this text.
pub open spec fn is_message(found: HeadLookup<Option<String>>, m: Seq<char>) -> bool {
    found matches HeadLookup::Found(Some(text)) && text@ == m
}

/// A branch without commits shows an empty message.
pub proof fn law_unborn_head_has_an_empty_message(e: git2::Error, read: AppResult<String>)
    requires
        git2_code(e) == GitCode::UnbornBranch,
        message_read(HeadLookup::HeadFailed(e), read),
    ensures
        outcome(read) == Ok::<Seq<char>, ErrorView>(""@),
{
}

/// Something is staged where one delta is of no submodule, on whatever side; submodules alone do
/// not count.
pub proof fn law_submodules_alone_are_nothing_staged(ds: &Vec<StagedDelta>, r: bool)
    requires
        call_ensures(has_staged_changes, (ds,), r),
    ensures
        r <==> exists|i: int|
            0 <= i < ds@.len() && !(#[trigger] ds@[i]).new_is_submodule && !ds@[i].old_is_submodule,
{
    if r {
        let i = choose|i: int| 0 <= i < ds@.len() && !is_submodule(#[trigger] ds@[i]);
        assert(!ds@[i].new_is_submodule);
    }
    if exists|i: int|
        0 <= i < ds@.len() && !(#[trigger] ds@[i]).new_is_submodule && !ds@[i].old_is_submodule {
        let i = choose|i: int|
            0 <= i < ds@.len() && !(#[trigger] ds@[i]).new_is_submodule && !ds@[i].old_is_submodule;
        assert(!is_submodule(ds@[i]));
    }
}

/// A signature that cannot be made for want of a configuration entry is a missing identity; any
/// other failure is git's.
pub proof fn law_missing_identity_is_told(e: git2::Error, r: AppError)
    requires
        call_ensures(signature_error, (e,), r),
    ensures
        r@.0 == ErrorKind::IdentityMissing <==> git2_code(e) == GitCode::NotFound && git2_class(e)
            == GitClass::Config,
        r@.0 != ErrorKind::IdentityMissing ==> r@ == git_failure(git2_message(e)),
{
}

/// A message of white space alone is refused, amendment or not, whatever else holds.
pub proof fn law_blank_messages_are_refused<T, C, S, W, H, G, D, A, N>(
    message: &str,
    amend: bool,
    write_tree: W,
    head: H,
    sign: G,
    staged: D,
    amend_head: A,
    create: N,
    r: AppResult<String>,
) where
    W: FnOnce() -> Result<T, git2::Error>,
    H: FnOnce() -> HeadLookup<C>,
    G: FnOnce() -> Result<S, git2::Error>,
    D: FnOnce() -> Result<Vec<StagedDelta>, git2::Error>,
    A: FnOnce(&C, &S, &str, &T) -> Result<String, git2::Error>,
    N: FnOnce(&S, &str, &T, &Option<C>) -> Result<String, git2::Error>,

    requires
        call_ensures(
            commit::<T, C, S, W, H, G, D, A, N>,
            (message, amend, write_tree, head, sign, staged, amend_head, create),
            r,
        ),
        forall|i: int| 0 <= i < message@.len() ==> is_white(#[trigger] message@[i]),
    ensures
        r matches Err(e) && e@ == (ErrorKind::EmptyMessage, "Commit message cannot be empty"@),
{
    law_blank_message_is_empty(message@);
}

/// A commit that is made is made of the tree of the index, with the message as it was given and a
/// signature of the configured identity, on top of the commit of HEAD, or of nothing where HEAD
/// has no commits yet; and something was staged for it. Its id is the answer.
pub proof fn law_new_commit_is_on_top_of_head<T, C, S, W, H, G, D, A, N>(
    message: &str,
    write_tree: W,
    head: H,
    sign: G,
    staged: D,
    amend_head: A,
    create: N,
    r: AppResult<String>,
) where
    W: FnOnce() -> Result<T, git2::Error>,
    H: FnOnce() -> HeadLookup<C>,
    G: FnOnce() -> Result<S, git2::Error>,
    D: FnOnce() -> Result<Vec<StagedDelta>, git2::Error>,
    A: FnOnce(&C, &S, &str, &T) -> Result<String, git2::Error>,
    N: FnOnce(&S, &str, &T, &Option<C>) -> Result<String, git2::Error>,

    requires
        call_ensures(
            commit::<T, C, S, W, H, G, D, A, N>,
            (message, false, write_tree, head, sign, staged, amend_head, create),
            r,
        ),
        r is Ok,
    ensures
        exists|i: int| 0 <= i < message@.len() && !is_white(#[trigger] message@[i]),
        exists|tree: T, s: S, found: HeadLookup<C>, parent: Option<C>, out: Result<String, git2::Error>|
            {
                &&& #[trigger] call_ensures(create, (&s, message, &tree, &parent), out)
                &&& call_ensures(write_tree, (), Ok::<T, git2::Error>(tree))
                &&& call_ensures(sign, (), Ok::<S, git2::Error>(s))
                &&& #[trigger] call_ensures(head, (), found)
                &&& match found {
                    HeadLookup::Found(c) => parent == Some(c),
                    HeadLookup::HeadFailed(e) => git2_code(e) == GitCode::UnbornBranch
                        && parent is None,
                    HeadLookup::PeelFailed(_) => false,
                }
                &&& out == Ok::<String, git2::Error>(r->Ok_0)
            },
        exists|ds: Vec<StagedDelta>, i: int|
            {
                &&& #[trigger] call_ensures(staged, (), Ok::<Vec<StagedDelta>, git2::Error>(ds))
                &&& 0 <= i < ds@.len() && !(#[trigger] ds@[i]).new_is_submodule
                    && !ds@[i].old_is_submodule
            },
{
    law_blank_message_is_empty(message@);
    let wrote = choose|out: Result<T, git2::Error>|
        {
            &&& #[trigger] call_ensures(write_tree, (), out)
            &&& match out {
                Err(e) => failed(r, e),
                Ok(tree) => created(message, tree, head, sign, staged, create, r),
            }
        };
    let tree = wrote->Ok_0;
    assert(call_ensures(write_tree, (), Ok::<T, git2::Error>(tree)));
    let listed = choose|listed: Result<Vec<StagedDelta>, git2::Error>|
        {
            &&& #[trigger] call_ensures(staged, (), listed)
            &&& (listed matches Ok(ds) && anything_staged(ds@))
            &&& exists|signed: Result<S, git2::Error>|
                {
                    &&& #[trigger] call_ensures(sign, (), signed)
                    &&& match signed {
                        Err(e) => false,
                        Ok(s) => exists|found: HeadLookup<C>|
                            {
                                &&& #[trigger] call_ensures(head, (), found)
                                &&& match found {
                                    HeadLookup::HeadFailed(e) => git2_code(e)
                                        == GitCode::UnbornBranch && exists|
                                        out: Result<String, git2::Error>,
                                    |
                                        #[trigger] call_ensures(
                                            create,
                                            (&s, message, &tree, &None::<C>),
                                            out,
                                        ) && written(r, out),
                                    HeadLookup::PeelFailed(e) => false,
                                    HeadLookup::Found(c) => exists|
                                        out: Result<String, git2::Error>,
                                    |
                                        #[trigger] call_ensures(
                                            create,
                                            (&s, message, &tree, &Some(c)),
                                            out,
                                        ) && written(r, out),
                                }
                            },
                    }
                }
        };
    let ds = listed->Ok_0;
    assert(call_ensures(staged, (), Ok::<Vec<StagedDelta>, git2::Error>(ds)));
    let i = choose|i: int| 0 <= i < ds@.len() && !is_submodule(#[trigger] ds@[i]);
    assert(!ds@[i].new_is_submodule);
}

/// A commit that is amended is the one that HEAD leads to: it is rewritten with the tree of the
/// index, the message as it was given and a signature of the configured identity, and no new one
/// is made. Its id is the answer.
pub proof fn law_amendment_rewrites_the_commit_of_head<T, C, S, W, H, G, D, A, N>(
    message: &str,
    write_tree: W,
    head: H,
    sign: G,
    staged: D,
    amend_head: A,
    create: N,
    r: AppResult<String>,
) where
    W: FnOnce() -> Result<T, git2::Error>,
    H: FnOnce() -> HeadLookup<C>,
    G: FnOnce() -> Result<S, git2::Error>,
    D: FnOnce() -> Result<Vec<StagedDelta>, git2::Error>,
    A: FnOnce(&C, &S, &str, &T) -> Result<String, git2::Error>,
    N: FnOnce(&S, &str, &T, &Option<C>) -> Result<String, git2::Error>,

    requires
        call_ensures(
            commit::<T, C, S, W, H, G, D, A, N>,
            (message, true, write_tree, head, sign, staged, amend_head, create),
            r,
        ),
        r is Ok,
    ensures
        exists|tree: T, s: S, c: C, out: Result<String, git2::Error>|
            {
                &&& #[trigger] call_ensures(amend_head, (&c, &s, message, &tree), out)
                &&& call_ensures(write_tree, (), Ok::<T, git2::Error>(tree))
                &&& call_ensures(sign, (), Ok::<S, git2::Error>(s))
                &&& call_ensures(head, (), HeadLookup::Found(c))
                &&& out == Ok::<String, git2::Error>(r->Ok_0)
            },
{
    let wrote = choose|out: Result<T, git2::Error>|
        {
            &&& #[trigger] call_ensures(write_tree, (), out)
            &&& match out {
                Err(e) => failed(r, e),
                Ok(tree) => amended(message, tree, head, sign, amend_head, r),
            }
        };
    let tree = wrote->Ok_0;
    assert(call_ensures(write_tree, (), Ok::<T, git2::Error>(tree)));
    assert(amended(message, tree, head, sign, amend_head, r));
}

/// What keeps a commit from being made, in this order: an index that cannot be written, then
/// nothing staged, then no identity, then a HEAD that cannot be read.
pub proof fn law_commits_are_refused_in_order<T, C, S, W, H, G, D, A, N>(
    message: &str,
    write_tree: W,
    head: H,
    sign: G,
    staged: D,
    amend_head: A,
    create: N,
    wrote: Result<T, git2::Error>,
    listed: Result<Vec<StagedDelta>, git2::Error>,
    signed: Result<S, git2::Error>,
    found: HeadLookup<C>,
    r: AppResult<String>,
) where
    W: FnOnce() -> Result<T, git2::Error>,
    H: FnOnce() -> HeadLookup<C>,
    G: FnOnce() -> Result<S, git2::Error>,
    D: FnOnce() -> Result<Vec<StagedDelta>, git2::Error>,
    A: FnOnce(&C, &S, &str, &T) -> Result<String, git2::Error>,
    N: FnOnce(&S, &str, &T, &Option<C>) -> Result<String, git2::Error>,

    requires
        call_ensures(
            commit::<T, C, S, W, H, G, D, A, N>,
            (message, false, write_tree, head, sign, staged, amend_head, create),
            r,
        ),
        exists|i: int| 0 <= i < message@.len() && !is_white(#[trigger] message@[i]),
        forall|o: Result<T, git2::Error>| #[trigger] call_ensures(write_tree, (), o) ==> o == wrote,
        forall|o: Result<Vec<StagedDelta>, git2::Error>| #[trigger]
            call_ensures(staged, (), o) ==> o == listed,
        forall|o: Result<S, git2::Error>| #[trigger] call_ensures(sign, (), o) ==> o == signed,
        forall|o: HeadLookup<C>| #[trigger] call_ensures(head, (), o) ==> o == found,
    ensures
        wrote matches Err(e) ==> (r matches Err(x) && x@ == git_failure(git2_message(e))),
        wrote is Ok ==> (listed matches Err(e) ==> (r matches Err(x) && x@ == git_failure(
            git2_message(e),
        ))),
        wrote is Ok ==> (listed matches Ok(ds) ==> ((forall|i: int|
            0 <= i < ds@.len() ==> (#[trigger] ds@[i]).new_is_submodule || ds@[i].old_is_submodule)
            ==> (r matches Err(x) && x@ == (
            ErrorKind::NothingStaged,
            "No staged changes to commit"@,
        )))),
        wrote is Ok ==> (listed matches Ok(ds) ==> ((exists|i: int|
            0 <= i < ds@.len() && !(#[trigger] ds@[i]).new_is_submodule && !ds@[i].old_is_submodule)
            ==> {
                &&& signed matches Err(e) ==> (r matches Err(x) && x@ == signature_failure(e))
                &&& signed is Ok ==> (found matches HeadLookup::PeelFailed(e) ==> (r matches Err(x)
                    && x@ == git_failure(git2_message(e))))
                &&& signed is Ok ==> (found matches HeadLookup::HeadFailed(e) ==> (git2_code(e)
                    != GitCode::UnbornBranch ==> (r matches Err(x) && x@ == git_failure(
                    git2_message(e),
                ))))
            })),
{
    law_blank_message_is_empty(message@);
    if wrote is Ok && listed is Ok {
        let ds = listed->Ok_0;
        if exists|i: int|
            0 <= i < ds@.len() && !(#[trigger] ds@[i]).new_is_submodule
                && !ds@[i].old_is_submodule {
            let i = choose|i: int|
                0 <= i < ds@.len() && !(#[trigger] ds@[i]).new_is_submodule
                    && !ds@[i].old_is_submodule;
            assert(!is_submodule(ds@[i]));
        }
        if forall|i: int|
            0 <= i < ds@.len() ==> (#[trigger] ds@[i]).new_is_submodule || ds@[i].old_is_submodule {
            assert forall|i: int| 0 <= i < ds@.len() implies is_submodule(#[trigger] ds@[i]) by {}
            assert(!anything_staged(ds@));
        }
    }
}

/// What keeps a commit from being amended, in this order: an index that cannot be written, then a
/// branch without commits or a HEAD that cannot be read, then no identity. Whether anything is
/// staged does not matter.
pub proof fn law_amendments_are_refused_in_order<T, C, S, W, H, G, D, A, N>(
    message: &str,
    write_tree: W,
    head: H,
    sign: G,
    staged: D,
    amend_head: A,
    create: N,
    wrote: Result<T, git2::Error>,
    signed: Result<S, git2::Error>,
    found: HeadLookup<C>,
    r: AppResult<String>,
) where
    W: FnOnce() -> Result<T, git2::Error>,
    H: FnOnce() -> HeadLookup<C>,
    G: FnOnce() -> Result<S, git2::Error>,
    D: FnOnce() -> Result<Vec<StagedDelta>, git2::Error>,
    A: FnOnce(&C, &S, &str, &T) -> Result<String, git2::Error>,
    N: FnOnce(&S, &str, &T, &Option<C>) -> Result<String, git2::Error>,

    requires
        call_ensures(
            commit::<T, C, S, W, H, G, D, A, N>,
            (message, true, write_tree, head, sign, staged, amend_head, create),
            r,
        ),
        exists|i: int| 0 <= i < message@.len() && !is_white(#[trigger] message@[i]),
        forall|o: Result<T, git2::Error>| #[trigger] call_ensures(write_tree, (), o) ==> o == wrote,
        forall|o: Result<S, git2::Error>| #[trigger] call_ensures(sign, (), o) ==> o == signed,
        forall|o: HeadLookup<C>| #[trigger] call_ensures(head, (), o) ==> o == found,
    ensures
        wrote matches Err(e) ==> (r matches Err(x) && x@ == git_failure(git2_message(e))),
        wrote is Ok ==> match found {
            HeadLookup::HeadFailed(e) => r matches Err(x) && if git2_code(e)
                == GitCode::UnbornBranch {
                x@ == (
                    ErrorKind::Validation,
                    "Nothing to amend: this branch has no commits yet"@,
                )
            } else {
                x@ == git_failure(git2_message(e))
            },
            HeadLookup::PeelFailed(e) => r matches Err(x) && x@ == git_failure(git2_message(e)),
            HeadLookup::Found(c) => signed matches Err(e) ==> (r matches Err(x) && x@
                == signature_failure(e)),
        },
{
    law_blank_message_is_empty(message@);
}

/// The message of HEAD is shown as it is found; a message that is not text is shown as empty, and
/// a HEAD that cannot be read is told.
pub proof fn law_found_message_is_shown(found: HeadLookup<Option<String>>, r: AppResult<String>)
    requires
        call_ensures(head_commit_message, (found,), r),
    ensures
        match found {
            HeadLookup::Found(Some(m)) => r matches Ok(s) && s@ == m@,
            HeadLookup::Found(None) => r matches Ok(s) && s@.len() == 0,
            HeadLookup::HeadFailed(e) => if git2_code(e) == GitCode::UnbornBranch {
                r matches Ok(s) && s@.len() == 0
            } else {
                r matches Err(x) && x@ == git_failure(git2_message(e))
            },
            HeadLookup::PeelFailed(e) => r matches Err(x) && x@ == git_failure(git2_message(e)),
        },
{
    reveal_strlit("");
}

} // verus!

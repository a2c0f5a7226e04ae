//! One window per repository: labels, opening or focusing, and what is kept for the next launch.

use crate::error::{outcome, AppError, AppResult, ErrorKind, ErrorView};
use crate::numbers::{hex, is_digit, lemma_hex_shape, to_hex};
use crate::pathname::{absolute, join_path, under};
use crate::seqs::{first_where, lemma_first_is, lemma_first_none, lemma_first_where};
use crate::state::{is_for, lemma_binding_at, lemma_bindings, AppState};
use crate::text::{
    bytes_of, chars_of, join2, join3, lemma_filter_push, non_empty, opt_text, owned, same_text,
    starts_with, text_range, texts,
};
use vstd::hash_set::StringHashSet;
use vstd::prelude::*;
use vstd::utf8::encode_utf8;

verus! {

/// The label of the initial window.
pub const MAIN_LABEL: &'static str = "main";

/// The keys under which the open repositories and the one opened last are kept.
pub const OPEN_REPOS_KEY: &'static str = "openRepos";

pub const LAST_REPO_KEY: &'static str = "lastRepoPath";

/// What opening a repository comes to.
#[derive(Debug, Clone, PartialEq, Eq)]
pub enum OpenDecision {
    /// The window with this label shows the repository already.
    Focus(String),
    /// No window shows it; one with this label is to be made.
    CreateNew(String),
}

/// What opening a repository comes to, as contracts speak of it.
pub enum DecisionView {
    Focus(Seq<char>),
    CreateNew(Seq<char>),
}

impl View for OpenDecision {
    type V = DecisionView;

    open spec fn view(&self) -> DecisionView {
        match *self {
            OpenDecision::Focus(l) => DecisionView::Focus(l@),
            OpenDecision::CreateNew(l) => DecisionView::CreateNew(l@),
        }
    }
}

/// A text without the `/` at its end.
pub open spec fn without_slashes(p: Seq<char>) -> Seq<char>
    decreases p.len(),
{
    if p.len() > 0 && p.last() == '/' {
        without_slashes(p.drop_last())
    } else {
        p
    }
}

/// The form of a path in which two paths are compared: without separators at its end, except
/// for the root.
pub open spec fn normalized(p: Seq<char>) -> Seq<char> {
    if without_slashes(p).len() == 0 {
        "/"@
    } else {
        without_slashes(p)
    }
}

/// The 64-bit FNV-1a hash of some bytes.
pub open spec fn fnv1a_of(bytes: Seq<u8>) -> u64
    decreases bytes.len(),
{
    if bytes.len() == 0 {
        0xcbf2_9ce4_8422_2325
    } else {
        (fnv1a_of(bytes.drop_last()) ^ (bytes.last() as u64)).wrapping_mul(0x0000_0100_0000_01b3)
    }
}

/// The label of the window for a repository.
pub open spec fn label_of(path: Seq<char>) -> Seq<char> {
    "repo-"@ + hex(fnv1a_of(encode_utf8(normalized(path))) as nat, 16)
}

/// The form of `path` in which two paths are compared.
pub fn normalize(path: &str) -> (r: String)
    ensures
        r@ == normalized(path@),
{
    let cs = chars_of(path);
    let mut n: usize = cs.len();
    assert(cs@.subrange(0, cs@.len() as int) =~= cs@);
    while n > 0 && cs[n - 1] == '/'
        invariant
            0 <= n <= cs@.len(),
            without_slashes(cs@) == without_slashes(cs@.subrange(0, n as int)),
        decreases n,
    {
        assert(cs@.subrange(0, n as int).drop_last() =~= cs@.subrange(0, n - 1));
        n -= 1;
    }
    if n == 0 {
        owned("/")
    } else {
        text_range(&cs, 0, n)
    }
}

/// The 64-bit FNV-1a hash of `bytes`.
pub fn fnv1a(bytes: &Vec<u8>) -> (r: u64)
    ensures
        r == fnv1a_of(bytes@),
{
    let mut hash: u64 = 0xcbf2_9ce4_8422_2325;
    let mut i: usize = 0;
    assert(bytes@.take(0) =~= Seq::<u8>::empty());
    while i < bytes.len()
        invariant
            0 <= i <= bytes@.len(),
            hash == fnv1a_of(bytes@.take(i as int)),
        decreases bytes@.len() - i,
    {
        assert(bytes@.take(i + 1).drop_last() =~= bytes@.take(i as int));
        hash = (hash ^ (bytes[i] as u64)).wrapping_mul(0x0000_0100_0000_01b3);
        i += 1;
    }
    assert(bytes@.take(bytes@.len() as int) =~= bytes@);
    hash
}

/// The label of the window for the repository at this path: the same path gives the same label,
/// whatever separators stand at its end.
pub fn label_for_repo(canonical_path: &str) -> (r: String)
    ensures
        r@ == label_of(canonical_path@),
{
    let n = normalize(canonical_path);
    let h: u64 = fnv1a(&bytes_of(n.as_str()));
    join2("repo-", to_hex(h, 16).as_str())
}

/// Separators at the end of a path, however many, change neither its normal form nor its label.
pub proof fn law_label_ignores_trailing_separators(p: Seq<char>, n: nat)
    ensures
        normalized(p + Seq::new(n, |i: int| '/')) == normalized(p),
        label_of(p + Seq::new(n, |i: int| '/')) == label_of(p),
    decreases n,
{
    let q = p + Seq::new(n, |i: int| '/');
    if n == 0 {
        assert(q =~= p);
    } else {
        let m = (n - 1) as nat;
        law_label_ignores_trailing_separators(p, m);
        assert(q.drop_last() =~= p + Seq::new(m, |i: int| '/'));
        assert(q.last() == '/');
    }
}

/// A label is `repo-` and sixteen lower-case hexadecimal digits.
pub proof fn law_label_shape(p: Seq<char>)
    ensures
        label_of(p).len() == 21,
        "repo-"@.is_prefix_of(label_of(p)),
        forall|i: int|
            5 <= i < 21 ==> is_digit(#[trigger] label_of(p)[i]) || ('a' <= label_of(p)[i]
                && label_of(p)[i] <= 'f'),
{
    reveal_strlit("repo-");
    let n = fnv1a_of(encode_utf8(normalized(p))) as nat;
    lemma_hex_shape(n, 16);
    assert(label_of(p).subrange(0, 5) =~= "repo-"@);
    assert forall|i: int| 5 <= i < 21 implies is_digit(#[trigger] label_of(p)[i]) || ('a'
        <= label_of(p)[i] && label_of(p)[i] <= 'f') by {
        assert(label_of(p)[i] == hex(n, 16)[i - 5]);
    }
}

/// Labels and paths as contracts speak of them.
pub open spec fn pairs(v: Seq<(String, String)>) -> Seq<(Seq<char>, Seq<char>)> {
    v.map_values(|e: (String, String)| (e.0@, e.1@))
}

/// The predicate "shows this repository".
pub open spec fn shows(path: Seq<char>) -> spec_fn((Seq<char>, Seq<char>)) -> bool {
    |e: (Seq<char>, Seq<char>)| normalized(e.1) == normalized(path)
}

/// What opening a repository comes to: focusing the window that shows it, or a new one.
pub open spec fn decision(
    existing: Seq<(Seq<char>, Seq<char>)>,
    path: Seq<char>,
) -> DecisionView {
    match first_where(existing, shows(path)) {
        Some(i) => DecisionView::Focus(existing[i].0),
        None => DecisionView::CreateNew(label_of(path)),
    }
}

/// Whether to focus a window or to make one for the repository at `canonical`, given the label
/// and the repository of every window.
pub fn decide_open(existing: &Vec<(String, String)>, canonical: &str) -> (r: OpenDecision)
    ensures
        r@ == decision(pairs(existing@), canonical@),
{
    let target = normalize(canonical);
    let ghost views = pairs(existing@);
    let ghost p = shows(canonical@);
    let mut i: usize = 0;
    while i < existing.len()
        invariant
            0 <= i <= existing@.len(),
            views == pairs(existing@),
            p == shows(canonical@),
            target@ == normalized(canonical@),
            forall|j: int| 0 <= j < i ==> !p(#[trigger] views[j]),
        decreases existing@.len() - i,
    {
        assert(views[i as int] == (existing@[i as int].0@, existing@[i as int].1@));
        let n = normalize(existing[i].1.as_str());
        if same_text(n.as_str(), target.as_str()) {
            proof {
                lemma_first_is(views, p, i as int);
            }
            return OpenDecision::Focus(existing[i].0.clone());
        }
        i += 1;
    }
    proof {
        lemma_first_none(views, p);
    }
    OpenDecision::CreateNew(label_for_repo(canonical))
}

/// Whether a decision is right for some bindings: it focuses a window that shows the repository,
/// and makes one only where no window does.
pub open spec fn right_decision(
    bindings: Map<Seq<char>, Seq<char>>,
    path: Seq<char>,
    d: DecisionView,
) -> bool {
    match d {
        DecisionView::Focus(l) => bindings.contains_key(l) && normalized(bindings[l])
            == normalized(path),
        DecisionView::CreateNew(l) => {
            &&& l == label_of(path)
            &&& forall|k: Seq<char>| #[trigger]
                bindings.contains_key(k) ==> normalized(bindings[k]) != normalized(path)
        },
    }
}

/// Whether to focus a window or to make one for the repository at `workdir`.
pub fn open_or_focus(state: &AppState, workdir: &str) -> (r: OpenDecision)
    requires
        state.wf(),
    ensures
        right_decision(state.bindings(), workdir@, r@),
{
    let existing = state.snapshot();
    let r = decide_open(&existing, workdir);
    proof {
        let views = pairs(existing@);
        let p = shows(workdir@);
        lemma_first_where(views, p);
        match first_where(views, p) {
            Some(i) => {
                assert(p(views[i]));
                lemma_binding_at(state.windows@, i);
            },
            None => {
                assert forall|k: Seq<char>| #[trigger]
                    state.bindings().contains_key(k) implies normalized(state.bindings()[k])
                    != normalized(workdir@) by {
                    lemma_bindings(state.windows@, k);
                    lemma_first_where(state.windows@, is_for(k));
                    let i = first_where(state.windows@, is_for(k))->0;
                    assert(!p(views[i]));
                }
            },
        }
    }
    r
}

/// A repository that is bound to a window is never opened in another one: every right decision
/// for it is to focus.
pub proof fn law_bound_repo_is_focused(
    bindings: Map<Seq<char>, Seq<char>>,
    label: Seq<char>,
    path: Seq<char>,
    d: DecisionView,
)
    requires
        right_decision(bindings.insert(label, path), path, d),
    ensures
        d is Focus,
{
    assert(bindings.insert(label, path).contains_key(label));
}

/// A repository is never opened twice: once a window was made for it, opening it again, with any
/// number of separators at its end, focuses that window.
pub proof fn law_opened_repo_is_focused(
    existing: Seq<(Seq<char>, Seq<char>)>,
    path: Seq<char>,
    n: nat,
)
    requires
        decision(existing, path) is CreateNew,
    ensures
        decision(existing.push((label_of(path), path)), path + Seq::new(n, |i: int| '/'))
            == DecisionView::Focus(label_of(path)),
{
    let now = existing.push((label_of(path), path));
    lemma_first_where(existing, shows(path));
    law_label_ignores_trailing_separators(path, n);
    let (p, q) = (shows(path), shows(path + Seq::new(n, |i: int| '/')));
    assert forall|j: int| 0 <= j < existing.len() implies !p(#[trigger] now[j]) && !q(now[j]) by {
        assert(!p(existing[j]));
    }
    lemma_first_is(now, q, existing.len() as int);
}

/// The window shown by a decision to focus shows the repository.
pub proof fn law_focus_shows_the_repo(existing: Seq<(Seq<char>, Seq<char>)>, path: Seq<char>)
    requires
        decision(existing, path) is Focus,
    ensures
        exists|i: int|
            0 <= i < existing.len() && normalized((#[trigger] existing[i]).1) == normalized(path)
                && decision(existing, path) == DecisionView::Focus(existing[i].0),
{
    lemma_first_where(existing, shows(path));
    let i = first_where(existing, shows(path))->0;
    assert(shows(path)(existing[i]));
}

/// The key of a repository: its working tree, or its directory where it has none, in canonical
/// form where that can be had.
pub fn resolve_workdir<F>(workdir: Option<String>, repo_dir: String, canonicalize: &F) -> (r:
    String) where F: Fn(&str) -> Option<String>
    requires
        forall|s: &str| call_requires(*canonicalize, (s,)),
    ensures
        ({
            let dir = match workdir {
                Some(w) => w@,
                None => repo_dir@,
            };
            exists|s: &str, out: Option<String>|
                {
                    &&& s@ == dir
                    &&& #[trigger] call_ensures(*canonicalize, (s,), out)
                    &&& r@ == (match out {
                        Some(c) => c@,
                        None => dir,
                    })
                }
        }),
{
    let dir = match workdir {
        Some(w) => w,
        None => repo_dir,
    };
    let name = dir.as_str();
    let out = canonicalize(name);
    assert(call_ensures(*canonicalize, (name,), out));
    match out {
        Some(c) => c,
        None => dir,
    }
}

/// What building a window came to. The repository is bound before the window is built; where
/// that fails the binding is taken back.
pub fn window_built(state: &mut AppState, label: &str, built: Result<(), String>) -> (r: Result<
    (),
    String,
>)
    requires
        old(state).wf(),
    ensures
        final(state).wf(),
        final(state).last_opened == old(state).last_opened,
        final(state).pending_ctx_menu == old(state).pending_ctx_menu,
        final(state).exiting == old(state).exiting,
        match built {
            Ok(_) => r is Ok && final(state).bindings() == old(state).bindings(),
            Err(e) => {
                &&& r matches Err(m)
                &&& m@ == "Failed to open window: "@ + e@
                &&& final(state).bindings() == old(state).bindings().remove(label@)
            },
        },
{
    match built {
        Ok(_) => Ok(()),
        Err(e) => {
            let _removed = state.remove_window(label);
            Err(join2("Failed to open window: ", e.as_str()))
        },
    }
}

/// The window to bring to the front where no repository was named: one that has the focus, or
/// else any.
pub fn focus_any_window(focused: &Vec<bool>) -> (r: Option<usize>)
    ensures
        match first_where(focused@, |f: bool| f) {
            Some(i) => r == Some(i as usize),
            None => if focused@.len() > 0 {
                r == Some(0usize)
            } else {
                r is None
            },
        },
{
    let ghost p = |f: bool| f;
    let mut i: usize = 0;
    while i < focused.len()
        invariant
            0 <= i <= focused@.len(),
            p == (|f: bool| f),
            forall|j: int| 0 <= j < i ==> !p(#[trigger] focused@[j]),
        decreases focused@.len() - i,
    {
        if focused[i] {
            proof {
                lemma_first_is(focused@, p, i as int);
            }
            return Some(i);
        }
        i += 1;
    }
    proof {
        lemma_first_none(focused@, p);
    }
    if focused.len() > 0 {
        Some(0)
    } else {
        None
    }
}

/// A JSON value, as the `serde_json` crate has it.
#[verifier::external_type_specification]
#[verifier::external_body]
pub struct ExJsonValue(serde_json::Value);

/// The items of a JSON array, each by its text where it is a string; nothing for a value that is
/// no array.
pub uninterp spec fn json_items(value: serde_json::Value) -> Option<Seq<Option<Seq<char>>>>;

/// The text of a JSON string; nothing for a value that is no string.
pub uninterp spec fn json_text(value: serde_json::Value) -> Option<Seq<char>>;

/// Optional strings by their texts.
pub open spec fn opt_texts(v: Seq<Option<String>>) -> Seq<Option<Seq<char>>> {
    v.map_values(|s: Option<String>| opt_text(s))
}

/// `serde_json::Value::as_array` and, on each item, `serde_json::Value::as_str`: the items of an
/// array in order, each by its text where it is a string, and nothing for a value that is no
/// array.
#[verifier::external_body]
fn array_items(value: &serde_json::Value) -> (r: Option<Vec<Option<String>>>)
    ensures
        match r {
            Some(items) => json_items(*value) == Some(opt_texts(items@)),
            None => json_items(*value) is None,
        },
{
    value.as_array().map(|items| items.iter().map(|v| v.as_str().map(str::to_owned)).collect())
}

/// `serde_json::Value::as_str`: the text of a string, and nothing for a value that is no string.
#[verifier::external_body]
fn string_value(value: &serde_json::Value) -> (r: Option<String>)
    ensures
        opt_text(r) == json_text(*value),
{
    value.as_str().map(str::to_owned)
}

/// `serde_json::Value::Array` of one `serde_json::Value::String` per text: the value is an array,
/// and its items are strings with those texts, in order.
#[verifier::external_body]
fn array_of(items: &Vec<String>) -> (r: serde_json::Value)
    ensures
        json_items(r) == Some(texts(items@).map_values(|t: Seq<char>| Some(t))),
{
    serde_json::Value::Array(items.iter().cloned().map(serde_json::Value::String).collect())
}

/// `serde_json::Value::String`: its text is the one it was made from.
#[verifier::external_body]
fn string_of(text: &str) -> (r: serde_json::Value)
    ensures
        json_text(r) == Some(text@),
{
    serde_json::Value::String(text.to_owned())
}

/// The list of paths as a JSON array.
pub fn open_repos_to_json(paths: &Vec<String>) -> (r: serde_json::Value)
    ensures
        json_items(r) == Some(texts(paths@).map_values(|t: Seq<char>| Some(t))),
{
    array_of(paths)
}

/// The texts among some items that are not empty, in order.
pub open spec fn paths_among(items: Seq<Option<Seq<char>>>) -> Seq<Seq<char>>
    decreases items.len(),
{
    if items.len() == 0 {
        Seq::empty()
    } else {
        let before = paths_among(items.drop_last());
        match items.last() {
            Some(t) => if t.len() > 0 {
                before.push(t)
            } else {
                before
            },
            None => before,
        }
    }
}

/// The paths that a stored list holds.
pub open spec fn stored_paths(items: Option<Seq<Option<Seq<char>>>>) -> Seq<Seq<char>> {
    match items {
        Some(items) => paths_among(items),
        None => Seq::empty(),
    }
}

/// The strings among some items that are not empty, in order.
pub fn collect_paths(items: &Vec<Option<String>>) -> (r: Vec<String>)
    ensures
        texts(r@) == paths_among(opt_texts(items@)),
{
    let mut out: Vec<String> = Vec::new();
    let ghost all = opt_texts(items@);
    let mut i: usize = 0;
    assert(all.take(0) =~= Seq::<Option<Seq<char>>>::empty());
    assert(texts(out@) =~= paths_among(all.take(0)));
    while i < items.len()
        invariant
            0 <= i <= items@.len(),
            all == opt_texts(items@),
            texts(out@) == paths_among(all.take(i as int)),
        decreases items@.len() - i,
    {
        proof {
            assert(all[i as int] == opt_text(items@[i as int]));
            assert(all.take(i + 1).drop_last() =~= all.take(i as int));
            assert(all.take(i + 1).last() == all[i as int]);
        }
        if let Some(s) = &items[i] {
            if !s.as_str().is_empty() {
                let ghost before = out@;
                out.push(s.clone());
                assert(texts(out@) =~= texts(before).push(s@));
            }
        }
        i += 1;
    }
    assert(all.take(items@.len() as int) =~= all);
    out
}

/// The list of paths in a JSON array; items that are no strings or empty are left out.
pub fn parse_open_repos(value: &serde_json::Value) -> (r: Vec<String>)
    ensures
        texts(r@) == stored_paths(json_items(*value)),
{
    match array_items(value) {
        Some(items) => collect_paths(&items),
        None => {
            let out: Vec<String> = Vec::new();
            assert(texts(out@) =~= Seq::<Seq<char>>::empty());
            out
        },
    }
}

/// Reading back a stored list gives the paths that were stored, without the empty ones.
pub proof fn law_stored_list_reads_back(paths: Seq<Seq<char>>)
    ensures
        stored_paths(Some(paths.map_values(|t: Seq<char>| Some(t)))) == non_empty(paths),
    decreases paths.len(),
{
    let items = paths.map_values(|t: Seq<char>| Some(t));
    if paths.len() == 0 {
        reveal(Seq::filter);
        assert(paths_among(items) =~= non_empty(paths));
    } else {
        let t = paths.drop_last();
        law_stored_list_reads_back(t);
        assert(items.drop_last() =~= t.map_values(|t: Seq<char>| Some(t)));
        assert(paths =~= t.push(paths.last()));
        lemma_filter_push(t, paths.last());
    }
}

/// What is kept for the next launch.
pub struct StoredRepos {
    /// For [`OPEN_REPOS_KEY`].
    pub open_repos: serde_json::Value,
    /// For [`LAST_REPO_KEY`].
    pub last_repo: serde_json::Value,
}

/// What is to be kept of the open repositories for the next launch: nothing where none is open,
/// so that the last list stays when every window closes on quitting. The repository that was
/// opened last is kept beside the list.
pub fn persist_open_repos(state: &AppState) -> (r: Option<StoredRepos>)
    requires
        state.wf(),
    ensures
        r is None <==> state.bindings().values() =~= Set::<Seq<char>>::empty(),
        r matches Some(stored) ==> {
            &&& json_items(stored.open_repos) matches Some(items)
            &&& crate::state::strictly_sorted(stored_all(items))
            &&& stored_all(items).to_set() == state.bindings().values()
            &&& items == stored_all(items).map_values(|t: Seq<char>| Some(t))
            &&& match state.last_opened {
                Some(last) => json_text(stored.last_repo) == Some(last@),
                None => json_text(stored.last_repo) == Some(stored_all(items).last()),
            }
        },
{
    let repos = state.collect_open_repos();
    proof {
        assert(texts(repos@).len() == repos@.len());
    }
    if repos.len() == 0 {
        assert(texts(repos@).to_set() =~= Set::<Seq<char>>::empty());
        return None;
    }
    let open_repos = open_repos_to_json(&repos);
    let last_repo = match &state.last_opened {
        Some(last) => string_of(last.as_str()),
        None => string_of(repos[repos.len() - 1].as_str()),
    };
    proof {
        assert(texts(repos@)[0] == repos@[0]@);
        assert(texts(repos@).to_set().contains(texts(repos@)[0]));
        let items = json_items(open_repos)->0;
        assert(stored_all(items) =~= texts(repos@));
        assert(texts(repos@).last() == repos@[repos@.len() - 1]@);
    }
    Some(StoredRepos { open_repos, last_repo })
}

/// The texts of items that are all strings.
pub open spec fn stored_all(items: Seq<Option<Seq<char>>>) -> Seq<Seq<char>> {
    items.map_values(|t: Option<Seq<char>>| t->0)
}

/// The repositories to restore, out of what was kept: the list, or, where there is none, the
/// single repository that was opened last.
pub fn load_open_repos(
    open_repos: &Option<serde_json::Value>,
    last_repo: &Option<serde_json::Value>,
) -> (r: Vec<String>)
    ensures
        texts(r@) == (match *open_repos {
            Some(v) => stored_paths(json_items(v)),
            None => match *last_repo {
                Some(v) => paths_among(seq![json_text(v)]),
                None => Seq::empty(),
            },
        }),
{
    if let Some(v) = open_repos {
        return parse_open_repos(v);
    }
    let mut items: Vec<Option<String>> = Vec::new();
    if let Some(v) = last_repo {
        items.push(string_value(v));
        assert(opt_texts(items@) =~= seq![json_text(*v)]);
    } else {
        assert(opt_texts(items@) =~= Seq::<Option<Seq<char>>>::empty());
    }
    collect_paths(&items)
}

/// The predicate "is a positional argument".
pub open spec fn is_positional() -> spec_fn(Seq<char>) -> bool {
    |a: Seq<char>| a.len() > 0 && a[0] != '-'
}

/// The arguments behind the program's name.
pub open spec fn arguments(argv: Seq<Seq<char>>) -> Seq<Seq<char>> {
    if argv.len() == 0 {
        argv
    } else {
        argv.drop_first()
    }
}

/// The first positional argument.
pub open spec fn first_positional(argv: Seq<Seq<char>>) -> Option<Seq<char>> {
    match first_where(arguments(argv), is_positional()) {
        Some(i) => Some(arguments(argv)[i]),
        None => None,
    }
}

/// The first argument behind the program's name that is no flag and not empty.
pub fn first_path_arg(argv: &Vec<String>) -> (r: Option<String>)
    ensures
        opt_text(r) == first_positional(texts(argv@)),
{
    let ghost rest = arguments(texts(argv@));
    let ghost p = is_positional();
    assert(texts(argv@).len() == argv@.len());
    if argv.len() == 0 {
        return None;
    }
    let mut i: usize = 1;
    while i < argv.len()
        invariant
            1 <= i <= argv@.len(),
            rest == texts(argv@).drop_first(),
            rest == arguments(texts(argv@)),
            p == is_positional(),
            forall|j: int| 0 <= j < i - 1 ==> !p(#[trigger] rest[j]),
        decreases argv@.len() - i,
    {
        let a = argv[i].as_str();
        assert(rest[i - 1] == a@);
        let flag = starts_with(a, "-");
        proof {
            reveal_strlit("-");
            if a@.len() > 0 {
                assert("-"@.is_prefix_of(a@) == (a@[0] == '-')) by {
                    if a@[0] == '-' {
                        assert(a@.subrange(0, 1) =~= "-"@);
                    } else {
                        assert("-"@[0] == '-');
                        assert(a@.subrange(0, 1)[0] == a@[0]);
                    }
                }
            }
        }
        if !a.is_empty() && !flag {
            proof {
                lemma_first_is(rest, p, i - 1);
            }
            return Some(owned(a));
        }
        i += 1;
    }
    proof {
        lemma_first_none(rest, p);
    }
    None
}

/// A path given on the command line, against the directory it was given in. An absolute path is
/// taken as it is.
pub fn resolve_arg_path(arg: &str, cwd: &str) -> (r: String)
    ensures
        r@ == under(cwd@, arg@),
        absolute(arg@) ==> r@ == arg@,
{
    join_path(cwd, arg)
}

/// What a path given on the command line may lead to: the refusal of a path where nothing is, or
/// else what resolving it gives.
pub open spec fn cli_resolved<X: Fn(&str) -> bool, F: Fn(&str) -> AppResult<String>>(
    arg: Seq<char>,
    cwd: Seq<char>,
    is_there: X,
    resolve: F,
    r: AppResult<String>,
) -> bool {
    exists|s: &str, there: bool|
        {
            &&& s@ == under(cwd, arg)
            &&& #[trigger] call_ensures(is_there, (s,), there)
            &&& if there {
                call_ensures(resolve, (s,), r)
            } else {
                outcome(r) == Err::<Seq<char>, ErrorView>(
                    (ErrorKind::Validation, "Cannot resolve path '"@ + s@ + "'"@),
                )
            }
        }
}

/// The working tree that a path given on the command line leads to. `is_there` tells whether there
/// is anything at a path, `resolve` finds the working tree of the repository around it.
pub fn resolve_cli_workdir<X, F>(arg: &str, cwd: &str, is_there: &X, resolve: &F) -> (r: AppResult<
    String,
>) where X: Fn(&str) -> bool, F: Fn(&str) -> AppResult<String>
    requires
        forall|s: &str| s@ == under(cwd@, arg@) ==> #[trigger] call_requires(*is_there, (s,)),
        forall|s: &str| s@ == under(cwd@, arg@) ==> #[trigger] call_requires(*resolve, (s,)),
    ensures
        cli_resolved(arg@, cwd@, *is_there, *resolve, r),
{
    let candidate = resolve_arg_path(arg, cwd);
    let name = candidate.as_str();
    let there = is_there(name);
    assert(call_ensures(*is_there, (name,), there));
    if !there {
        let m = join3("Cannot resolve path '", name, "'");
        return Err(AppError::validation(m.as_str()));
    }
    resolve(name)
}

/// What a second launch of the application asks of the running one.
#[derive(Debug)]
pub enum SecondLaunch {
    /// Open or focus the window of this repository.
    Open(String),
    /// Bring any window to the front; a path that was given and refused comes with the reason.
    FocusAny(Option<AppError>),
}

/// What a second launch with these arguments, in this directory, asks of the running application.
pub fn handle_second_instance<X, F>(
    argv: &Vec<String>,
    cwd: &str,
    is_there: &X,
    resolve: &F,
) -> (r: SecondLaunch) where X: Fn(&str) -> bool, F: Fn(&str) -> AppResult<String>
    requires
        forall|s: &str| #[trigger] call_requires(*is_there, (s,)),
        forall|s: &str| #[trigger] call_requires(*resolve, (s,)),
    ensures
        match first_positional(texts(argv@)) {
            None => r matches SecondLaunch::FocusAny(None),
            Some(t) => exists|arg: Seq<char>, out: AppResult<String>|
                {
                    &&& arg == t
                    &&& #[trigger] cli_resolved(arg, cwd@, *is_there, *resolve, out)
                    &&& match out {
                        Ok(workdir) => r == SecondLaunch::Open(workdir),
                        Err(e) => r == SecondLaunch::FocusAny(Some(e)),
                    }
                },
        },
{
    match first_path_arg(argv) {
        None => SecondLaunch::FocusAny(None),
        Some(arg) => {
            let out = resolve_cli_workdir(arg.as_str(), cwd, is_there, resolve);
            assert(cli_resolved(arg@, cwd@, *is_there, *resolve, out));
            match out {
                Ok(workdir) => SecondLaunch::Open(workdir),
                Err(e) => SecondLaunch::FocusAny(Some(e)),
            }
        },
    }
}

/// A window to bring up at startup.
#[derive(Debug, Clone, PartialEq, Eq)]
pub enum RestoreStep {
    /// Bind this repository to the initial window.
    BindMain(String),
    /// Make a window with this label for this repository.
    OpenWindow(String, String),
}

/// A window to bring up at startup, as contracts speak of it.
pub enum RestoreView {
    BindMain(Seq<char>),
    OpenWindow(Seq<char>, Seq<char>),
}

impl View for RestoreStep {
    type V = RestoreView;

    open spec fn view(&self) -> RestoreView {
        match *self {
            RestoreStep::BindMain(p) => RestoreView::BindMain(p@),
            RestoreStep::OpenWindow(l, p) => RestoreView::OpenWindow(l@, p@),
        }
    }
}

/// Startup steps as contracts speak of them.
pub open spec fn restore_views(v: Seq<RestoreStep>) -> Seq<RestoreView> {
    v.map_values(|s: RestoreStep| s@)
}

/// The distinct repositories to bring up, in order: the one named on the command line first, then
/// the stored ones that are still there. Repositories with one label are one repository.
pub open spec fn repos_to_open(
    cli: Option<Seq<char>>,
    stored: Seq<Option<Seq<char>>>,
) -> Seq<Seq<char>>
    decreases stored.len(),
{
    if stored.len() == 0 {
        match cli {
            Some(p) => seq![p],
            None => Seq::empty(),
        }
    } else {
        let before = repos_to_open(cli, stored.drop_last());
        match stored.last() {
            Some(p) => if labels_of(before).contains(label_of(p)) {
                before
            } else {
                before.push(p)
            },
            None => before,
        }
    }
}

/// The labels of some repositories.
pub open spec fn labels_of(paths: Seq<Seq<char>>) -> Seq<Seq<char>> {
    paths.map_values(|p: Seq<char>| label_of(p))
}

/// The steps that bring repositories up: the first takes the initial window, each other one a
/// window of its own.
pub open spec fn steps_for(paths: Seq<Seq<char>>) -> Seq<RestoreView> {
    Seq::new(
        paths.len(),
        |i: int|
            if i == 0 {
                RestoreView::BindMain(paths[i])
            } else {
                RestoreView::OpenWindow(label_of(paths[i]), paths[i])
            },
    )
}

/// The windows to bring up at startup: for the repository named on the command line, if any, and
/// for the stored ones, each given by its working tree where it is still there.
pub fn startup_restore(cli: Option<String>, stored: &Vec<Option<String>>) -> (r: Vec<RestoreStep>)
    ensures
        restore_views(r@) == steps_for(repos_to_open(opt_text(cli), opt_texts(stored@))),
{
    let mut opened = StringHashSet::new();
    let mut steps: Vec<RestoreStep> = Vec::new();
    let ghost cli_text = opt_text(cli);
    let ghost all = opt_texts(stored@);
    if let Some(p) = cli {
        let _new = opened.insert(label_for_repo(p.as_str()));
        steps.push(RestoreStep::BindMain(p));
    }
    let ghost mut repos = repos_to_open(cli_text, all.take(0));
    proof {
        assert(all.take(0) =~= Seq::<Option<Seq<char>>>::empty());
        assert(restore_views(steps@) =~= steps_for(repos));
        assert forall|l: Seq<char>| #[trigger] opened@.contains(l) <==> labels_of(repos).contains(
            l,
        ) by {
            if let Some(p) = cli_text {
                assert(labels_of(repos)[0] == label_of(p));
            }
        }
    }
    let mut i: usize = 0;
    while i < stored.len()
        invariant
            0 <= i <= stored@.len(),
            all == opt_texts(stored@),
            repos == repos_to_open(cli_text, all.take(i as int)),
            restore_views(steps@) == steps_for(repos),
            forall|l: Seq<char>| #[trigger]
                opened@.contains(l) <==> labels_of(repos).contains(l),
        decreases stored@.len() - i,
    {
        proof {
            assert(all[i as int] == opt_text(stored@[i as int]));
            assert(all.take(i + 1).drop_last() =~= all.take(i as int));
            assert(all.take(i + 1).last() == all[i as int]);
            assert(steps_for(repos).len() == repos.len());
            assert(restore_views(steps@).len() == steps@.len());
        }
        if let Some(p) = &stored[i] {
            let label = label_for_repo(p.as_str());
            if !opened.contains(label.as_str()) {
                let ghost before = steps@;
                let ghost old_repos = repos;
                let ghost lv = label@;
                let _new = opened.insert(label.clone());
                if steps.len() == 0 {
                    steps.push(RestoreStep::BindMain(p.clone()));
                } else {
                    steps.push(RestoreStep::OpenWindow(label, p.clone()));
                }
                proof {
                    repos = repos.push(p@);
                    assert(restore_views(steps@) =~= restore_views(before).push(
                        steps@.last()@,
                    ));
                    assert(steps_for(repos) =~= steps_for(old_repos).push(steps@.last()@));
                    assert(labels_of(repos) =~= labels_of(old_repos).push(lv));
                    assert forall|l: Seq<char>| #[trigger] opened@.contains(l) <==> labels_of(
                        repos,
                    ).contains(l) by {
                        if labels_of(repos).contains(l) {
                            let k = choose|k: int|
                                0 <= k < labels_of(repos).len() && labels_of(repos)[k] == l;
                            if k < old_repos.len() {
                                assert(labels_of(old_repos)[k] == l);
                            }
                        }
                        if labels_of(old_repos).contains(l) {
                            let k = choose|k: int|
                                0 <= k < labels_of(old_repos).len() && labels_of(old_repos)[k]
                                    == l;
                            assert(labels_of(repos)[k] == l);
                        }
                        if l == lv {
                            assert(labels_of(repos)[old_repos.len() as int] == l);
                        }
                    }
                }
            }
        }
        i += 1;
    }
    assert(all.take(stored@.len() as int) =~= all);
    steps
}

/// At startup no repository gets two windows, and the initial window gets at most one.
pub proof fn law_startup_opens_each_repo_once(
    cli: Option<Seq<char>>,
    stored: Seq<Option<Seq<char>>>,
)
    ensures
        forall|i: int, j: int|
            0 <= i < j < repos_to_open(cli, stored).len() ==> label_of(
                #[trigger] repos_to_open(cli, stored)[i],
            ) != label_of(#[trigger] repos_to_open(cli, stored)[j]),
        cli matches Some(p) ==> repos_to_open(cli, stored).len() > 0 && repos_to_open(
            cli,
            stored,
        )[0] == p,
    decreases stored.len(),
{
    if stored.len() > 0 {
        law_startup_opens_each_repo_once(cli, stored.drop_last());
        let before = repos_to_open(cli, stored.drop_last());
        let now = repos_to_open(cli, stored);
        assert forall|i: int, j: int| 0 <= i < j < now.len() implies label_of(#[trigger] now[i])
            != label_of(#[trigger] now[j]) by {
            if j == before.len() {
                assert(labels_of(before)[i] == label_of(before[i]));
            } else {
                assert(label_of(before[i]) != label_of(before[j]));
            }
        }
    }
}

/// The normal form of a path is the path without the separators at its end, and the root for a
/// path of separators alone. Nothing else is changed.
pub proof fn law_normal_form_drops_trailing_separators(path: &str, r: String)
    requires
        call_ensures(normalize, (path,), r),
    ensures
        path@.len() > 0 && path@.last() != '/' ==> r@ == path@,
        (forall|i: int| 0 <= i < path@.len() ==> #[trigger] path@[i] == '/') ==> r@ == "/"@,
        r@ == "/"@ || (r@.is_prefix_of(path@) && r@.len() > 0 && r@.last() != '/' && forall|i: int|
            r@.len() <= i < path@.len() ==> #[trigger] path@[i] == '/'),
{
    lemma_without_slashes(path@);
    if forall|i: int| 0 <= i < path@.len() ==> #[trigger] path@[i] == '/' {
        let w = without_slashes(path@);
        if w.len() > 0 {
            assert(w.last() == path@[w.len() - 1]);
        }
    }
}

/// What is left of a path without the separators at its end.
proof fn lemma_without_slashes(p: Seq<char>)
    ensures
        without_slashes(p).is_prefix_of(p),
        without_slashes(p).len() > 0 ==> without_slashes(p).last() != '/',
        forall|i: int| without_slashes(p).len() <= i < p.len() ==> #[trigger] p[i] == '/',
    decreases p.len(),
{
    if p.len() > 0 && p.last() == '/' {
        let t = p.drop_last();
        lemma_without_slashes(t);
        let w = without_slashes(p);
        assert(w =~= p.take(w.len() as int));
        assert forall|i: int| w.len() <= i < p.len() implies #[trigger] p[i] == '/' by {
            if i < t.len() {
                assert(t[i] == p[i]);
            }
        }
    } else {
        assert(p.take(p.len() as int) =~= p);
    }
}

/// A repository is opened in the first window that shows it, and where none does, in a new one
/// with the label of its path.
pub proof fn law_first_window_of_the_repository_is_focused(
    existing: &Vec<(String, String)>,
    canonical: &str,
    r: OpenDecision,
)
    requires
        call_ensures(decide_open, (existing, canonical), r),
    ensures
        match r {
            OpenDecision::Focus(l) => exists|k: int|
                {
                    &&& 0 <= k < existing@.len()
                    &&& (#[trigger] existing@[k]).0@ == l@
                    &&& normalized(existing@[k].1@) == normalized(canonical@)
                    &&& forall|j: int|
                        0 <= j < k ==> normalized((#[trigger] existing@[j]).1@) != normalized(
                            canonical@,
                        )
                },
            OpenDecision::CreateNew(l) => l@ == label_of(canonical@) && forall|j: int|
                0 <= j < existing@.len() ==> normalized((#[trigger] existing@[j]).1@) != normalized(
                    canonical@,
                ),
        },
{
    let all = pairs(existing@);
    let p = shows(canonical@);
    lemma_first_where(all, p);
    match first_where(all, p) {
        Some(k) => {
            assert(all[k] == (existing@[k].0@, existing@[k].1@));
            assert forall|j: int| 0 <= j < k implies normalized((#[trigger] existing@[j]).1@)
                != normalized(canonical@) by {
                assert(!p(all[j]));
            }
            assert(r@ == DecisionView::Focus(existing@[k].0@));
        },
        None => {
            assert forall|j: int| 0 <= j < existing@.len() implies normalized(
                (#[trigger] existing@[j]).1@,
            ) != normalized(canonical@) by {
                assert(!p(all[j]));
            }
        },
    }
}

/// Opening a repository focuses a window that shows it where there is one, and makes one labelled
/// for it only where no window shows it.
pub proof fn law_open_windows_are_not_opened_again(state: &AppState, workdir: &str, r: OpenDecision)
    requires
        call_ensures(open_or_focus, (state, workdir), r),
    ensures
        r is CreateNew <==> forall|k: Seq<char>| #[trigger]
            state.bindings().contains_key(k) ==> normalized(state.bindings()[k]) != normalized(
                workdir@,
            ),
        r matches OpenDecision::Focus(l) ==> state.bindings().contains_key(l@) && normalized(
            state.bindings()[l@],
        ) == normalized(workdir@),
        r matches OpenDecision::CreateNew(l) ==> l@ == label_of(workdir@),
{
    if let OpenDecision::Focus(l) = r {
        assert(state.bindings().contains_key(l@));
    }
}

/// Which window comes to the front: the first that has the focus, or else the first of all.
pub proof fn law_some_window_comes_to_the_front(focused: &Vec<bool>, r: Option<usize>)
    requires
        call_ensures(focus_any_window, (focused,), r),
        focused@.len() <= usize::MAX,
    ensures
        r is None <==> focused@.len() == 0,
        r matches Some(i) ==> i < focused@.len() && (focused@[i as int] || (i == 0 && forall|j: int|
            0 <= j < focused@.len() ==> !#[trigger] focused@[j])) && forall|j: int|
            0 <= j < i ==> !#[trigger] focused@[j],
{
    let p = |f: bool| f;
    lemma_first_where(focused@, p);
    match first_where(focused@, p) {
        Some(i) => {
            assert(p(focused@[i]));
            assert forall|j: int| 0 <= j < i implies !#[trigger] focused@[j] by {
                assert(!p(focused@[j]));
            }
        },
        None => {
            assert forall|j: int| 0 <= j < focused@.len() implies !#[trigger] focused@[j] by {
                assert(!p(focused@[j]));
            }
        },
    }
}

/// What is read of a stored list: every item that is a string and not empty, in order.
pub proof fn law_stored_strings_are_kept_in_order(
    items: Seq<Option<Seq<char>>>,
    item: Option<Seq<char>>,
)
    ensures
        ({
            let before = stored_paths(Some(items));
            let after = stored_paths(Some(items.push(item)));
            match item {
                Some(t) => if t.len() > 0 {
                    after == before.push(t)
                } else {
                    after == before
                },
                None => after == before,
            }
        }),
        stored_paths(Some(Seq::empty())).len() == 0,
        stored_paths(None).len() == 0,
{
    assert(items.push(item).drop_last() =~= items);
}

/// What is opened at the next launch: the stored list where there is one, even an empty one, and
/// the single path that was stored before there were lists where there is none.
pub proof fn law_list_goes_before_the_single_path(
    open_repos: &Option<serde_json::Value>,
    last_repo: &Option<serde_json::Value>,
    r: Vec<String>,
)
    requires
        call_ensures(load_open_repos, (open_repos, last_repo), r),
    ensures
        *open_repos matches Some(v) ==> texts(r@) == stored_paths(json_items(v)),
        *open_repos is None && *last_repo is None ==> r@.len() == 0,
        *open_repos is None ==> (*last_repo matches Some(v) ==> match json_text(v) {
            Some(t) => if t.len() > 0 {
                texts(r@) == seq![t]
            } else {
                r@.len() == 0
            },
            None => r@.len() == 0,
        }),
{
    assert(texts(r@).len() == r@.len());
    if *open_repos is None {
        if let Some(v) = *last_repo {
            let items = seq![json_text(v)];
            assert(items =~= Seq::<Option<Seq<char>>>::empty().push(json_text(v)));
            law_stored_strings_are_kept_in_order(
                Seq::<Option<Seq<char>>>::empty(),
                json_text(v),
            );
            assert(texts(r@) == stored_paths(Some(items)));
        }
    }
}

/// What is stored for the next launch is what is open: each repository of a window once, and the
/// one opened last beside the list. Nothing is stored where no window has a repository, so that
/// the last list stays.
pub proof fn law_open_repositories_are_stored(
    state: &AppState,
    r: Option<StoredRepos>,
    path: Seq<char>,
)
    requires
        call_ensures(persist_open_repos, (state,), r),
    ensures
        r is None <==> forall|l: Seq<char>| !#[trigger] state.bindings().contains_key(l),
        r matches Some(stored) ==> {
            &&& json_items(stored.open_repos) is Some
            &&& json_items(stored.open_repos)->0.contains(Some(path)) <==> exists|l: Seq<char>|
                #[trigger] state.bindings().contains_key(l) && state.bindings()[l] == path
            &&& state.last_opened matches Some(last) ==> json_text(stored.last_repo) == Some(last@)
        },
{
    let b = state.bindings();
    if b.values() =~= Set::<Seq<char>>::empty() {
        assert forall|l: Seq<char>| !#[trigger] b.contains_key(l) by {
            if b.contains_key(l) {
                assert(b.values().contains(b[l]));
            }
        }
    } else {
        let v = choose|v: Seq<char>| b.values().contains(v);
        assert(b.values().contains(v)) by {
            if forall|v: Seq<char>| !b.values().contains(v) {
                assert(b.values() =~= Set::<Seq<char>>::empty());
            }
        }
        let l = choose|l: Seq<char>| #[trigger] b.contains_key(l) && b[l] == v;
        assert(b.contains_key(l));
    }
    if let Some(stored) = r {
        let items = json_items(stored.open_repos)->0;
        let all = stored_all(items);
        if items.contains(Some(path)) {
            let k = choose|k: int| 0 <= k < items.len() && items[k] == Some(path);
            assert(all[k] == path);
            assert(all.to_set().contains(path));
            assert(b.values().contains(path));
        }
        if exists|l: Seq<char>| #[trigger] b.contains_key(l) && b[l] == path {
            assert(b.values().contains(path));
            assert(all.to_set().contains(path));
            let k = choose|k: int| 0 <= k < all.len() && all[k] == path;
            assert(items[k] == Some(all[k]));
            assert(items.contains(Some(path)));
        }
    }
}

/// Which argument is a path: the first behind the name of the program that is not empty and does
/// not start with a dash.
pub proof fn law_first_argument_without_a_dash_is_the_path(argv: &Vec<String>, r: Option<String>)
    requires
        call_ensures(first_path_arg, (argv,), r),
    ensures
        match r {
            Some(p) => exists|k: int|
                {
                    &&& 1 <= k < argv@.len()
                    &&& (#[trigger] argv@[k])@ == p@
                    &&& p@.len() > 0 && p@[0] != '-'
                    &&& forall|j: int|
                        1 <= j < k ==> (#[trigger] argv@[j])@.len() == 0 || argv@[j]@[0] == '-'
                },
            None => forall|j: int|
                1 <= j < argv@.len() ==> (#[trigger] argv@[j])@.len() == 0 || argv@[j]@[0] == '-',
        },
{
    let all = texts(argv@);
    assert(all.len() == argv@.len());
    let args = arguments(all);
    let p = is_positional();
    lemma_first_where(args, p);
    match first_where(args, p) {
        Some(i) => {
            assert(args[i] == argv@[i + 1]@);
            assert forall|j: int| 1 <= j < i + 1 implies (#[trigger] argv@[j])@.len() == 0
                || argv@[j]@[0] == '-' by {
                assert(args[j - 1] == argv@[j]@);
                assert(!p(args[j - 1]));
            }
            assert(argv@[i + 1]@ == r->0@);
        },
        None => {
            assert forall|j: int| 1 <= j < argv@.len() implies (#[trigger] argv@[j])@.len() == 0
                || argv@[j]@[0] == '-' by {
                assert(args[j - 1] == argv@[j]@);
                assert(!p(args[j - 1]));
            }
        },
    }
}

/// An argument that is an absolute path stays as it is; any other is taken from the directory of
/// the launch.
pub proof fn law_arguments_are_taken_from_the_launch_directory(arg: &str, cwd: &str, r: String)
    requires
        call_ensures(resolve_arg_path, (arg, cwd), r),
    ensures
        arg@.len() > 0 && arg@[0] == '/' ==> r@ == arg@,
        !(arg@.len() > 0 && arg@[0] == '/') && cwd@.len() > 0 ==> cwd@.is_prefix_of(r@)
            && arg@.is_suffix_of(r@) && r@.len() <= cwd@.len() + 1 + arg@.len(),
{
    reveal_strlit("/");
    if !(arg@.len() > 0 && arg@[0] == '/') && cwd@.len() > 0 {
        assert(cwd@ =~= r@.take(cwd@.len() as int));
        assert(arg@ =~= r@.skip(r@.len() - arg@.len()));
    }
}

/// A second launch opens what its path argument resolves to; without one, or where it does not
/// resolve, a window that is open comes to the front, and the reason is told.
pub proof fn law_second_launch_opens_its_path<X, F>(
    argv: &Vec<String>,
    cwd: &str,
    is_there: &X,
    resolve: &F,
    r: SecondLaunch,
) where X: Fn(&str) -> bool, F: Fn(&str) -> AppResult<String>
    requires
        call_ensures(handle_second_instance::<X, F>, (argv, cwd, is_there, resolve), r),
    ensures
        r matches SecondLaunch::Open(w) ==> exists|s: &str| #[trigger]
            call_ensures(*resolve, (s,), Ok::<String, AppError>(w)) && call_ensures(
                *is_there,
                (s,),
                true,
            ) && (first_positional(texts(argv@)) matches Some(arg) && s@ == under(cwd@, arg)),
        first_positional(texts(argv@)) is None ==> r == SecondLaunch::FocusAny(None),
        first_positional(texts(argv@)) is Some ==> r != SecondLaunch::FocusAny(None),
{
    if let Some(t) = first_positional(texts(argv@)) {
        let (arg, out) = choose|arg: Seq<char>, out: AppResult<String>|
            {
                &&& arg == t
                &&& #[trigger] cli_resolved(arg, cwd@, *is_there, *resolve, out)
                &&& match out {
                    Ok(workdir) => r == SecondLaunch::Open(workdir),
                    Err(e) => r == SecondLaunch::FocusAny(Some(e)),
                }
            };
        assert(cli_resolved(t, cwd@, *is_there, *resolve, out));
        if let SecondLaunch::Open(w) = r {
            assert(out == Ok::<String, AppError>(w));
            let (s, there) = choose|s: &str, there: bool|
                {
                    &&& s@ == under(cwd@, t)
                    &&& #[trigger] call_ensures(*is_there, (s,), there)
                    &&& if there {
                        call_ensures(*resolve, (s,), out)
                    } else {
                        outcome(out) == Err::<Seq<char>, ErrorView>(
                            (ErrorKind::Validation, "Cannot resolve path '"@ + s@ + "'"@),
                        )
                    }
                };
            assert(there);
            assert(call_ensures(*resolve, (s,), Ok::<String, AppError>(w)));
        }
    }
}

/// Every repository of the last run is opened again: each stored path is among those that are
/// opened, unless one with its label already is, and nothing is opened that was neither stored nor
/// asked for. What was asked for comes first, then the stored ones in their order.
pub proof fn law_startup_opens_every_stored_repo(
    cli: Option<Seq<char>>,
    stored: Seq<Option<Seq<char>>>,
    next: Option<Seq<char>>,
)
    ensures
        ({
            let before = repos_to_open(cli, stored);
            let after = repos_to_open(cli, stored.push(next));
            &&& next is None ==> after == before
            &&& next matches Some(p) ==> {
                &&& (exists|i: int|
                    0 <= i < before.len() && label_of(#[trigger] before[i]) == label_of(p)) ==> after
                    == before
                &&& (forall|i: int|
                    0 <= i < before.len() ==> label_of(#[trigger] before[i]) != label_of(p))
                    ==> after == before.push(p)
            }
        }),
        repos_to_open(cli, Seq::empty()) == match cli {
            Some(p) => seq![p],
            None => Seq::<Seq<char>>::empty(),
        },
{
    assert(stored.push(next).drop_last() =~= stored);
    let before = repos_to_open(cli, stored);
    if let Some(p) = next {
        let ls = labels_of(before);
        if ls.contains(label_of(p)) {
            let i = choose|i: int| 0 <= i < ls.len() && ls[i] == label_of(p);
            assert(label_of(before[i]) == label_of(p));
        }
        if exists|i: int| 0 <= i < before.len() && label_of(#[trigger] before[i]) == label_of(p) {
            let i = choose|i: int|
                0 <= i < before.len() && label_of(#[trigger] before[i]) == label_of(p);
            assert(ls[i] == label_of(p));
        }
    }
}

/// The first repository of a launch takes the window that is there; each other one gets a window
/// of its own, labelled for it.
pub proof fn law_first_repository_takes_the_main_window(
    cli: Option<String>,
    stored: &Vec<Option<String>>,
    r: Vec<RestoreStep>,
    k: int,
)
    requires
        call_ensures(startup_restore, (cli, stored), r),
        0 <= k < r@.len(),
    ensures
        ({
            let repos = repos_to_open(opt_text(cli), opt_texts(stored@));
            &&& r@.len() == repos.len()
            &&& k == 0 ==> (r@[k] matches RestoreStep::BindMain(p) && p@ == repos[0])
            &&& k > 0 ==> (r@[k] matches RestoreStep::OpenWindow(l, p) && p@ == repos[k] && l@
                == label_of(repos[k]))
        }),
{
    let v = restore_views(r@);
    assert(v.len() == r@.len());
    assert(v[k] == r@[k]@);
}

/// A window that could not be built leaves no repository behind, and the reason is told. One that
/// was built keeps its repository. No other window sees a change.
pub proof fn law_failed_window_leaves_nothing_behind(
    state: &mut AppState,
    label: &str,
    built: Result<(), String>,
    r: Result<(), String>,
    other: Seq<char>,
)
    requires
        call_ensures(window_built, (state, label, built), r),
    ensures
        r is Ok <==> built is Ok,
        built is Ok ==> final(state).bindings() == old(state).bindings(),
        built is Err ==> !final(state).bindings().contains_key(label@),
        built matches Err(e) ==> r->Err_0@ == "Failed to open window: "@ + e@,
        other != label@ ==> final(state).bindings().contains_key(other) == old(
            state,
        ).bindings().contains_key(other) && (old(state).bindings().contains_key(other)
            ==> final(state).bindings()[other] == old(state).bindings()[other]),
{
}

/// The path of a repository is that of its working tree, or of its own directory where it has
/// none, made canonical where that is possible and else as it is.
pub proof fn law_workdir_is_the_canonical_one<F>(
    workdir: Option<String>,
    repo_dir: String,
    canonicalize: &F,
    canonical: spec_fn(Seq<char>) -> Option<Seq<char>>,
    r: String,
) where F: Fn(&str) -> Option<String>
    requires
        call_ensures(resolve_workdir::<F>, (workdir, repo_dir, canonicalize), r),
        forall|s: &str, out: Option<String>| #[trigger]
            call_ensures(*canonicalize, (s,), out) ==> opt_text(out) == canonical(s@),
    ensures
        workdir matches Some(w) ==> (canonical(w@) matches Some(c) ==> r@ == c),
        workdir matches Some(w) ==> (canonical(w@) is None ==> r@ == w@),
        workdir is None ==> (canonical(repo_dir@) matches Some(c) ==> r@ == c),
        workdir is None && canonical(repo_dir@) is None ==> r@ == repo_dir@,
{
}

/// The hash behind the labels, byte by byte: 64-bit FNV-1a.
pub proof fn law_labels_hash_byte_by_byte(bytes: &Vec<u8>, more: &Vec<u8>, b: u8, r: u64, next: u64)
    requires
        call_ensures(fnv1a, (bytes,), r),
        call_ensures(fnv1a, (more,), next),
    ensures
        bytes@.len() == 0 ==> r == 14695981039346656037,
        more@ == bytes@.push(b) ==> next == (r ^ (b as u64)) * 1099511628211 % 0x1_0000_0000_0000_0000,
{
    if more@ == bytes@.push(b) {
        assert(more@.drop_last() =~= bytes@);
    }
}

/// A window is labelled by the hash of the bytes of its path in normal form, in sixteen
/// hexadecimal digits.
pub proof fn law_labels_are_made_of_the_hash(path: &str, label: String, bytes: &Vec<u8>, hash: u64)
    requires
        call_ensures(label_for_repo, (path,), label),
        bytes@ == encode_utf8(normalized(path@)),
        call_ensures(fnv1a, (bytes,), hash),
    ensures
        label@ == "repo-"@ + hex(hash as nat, 16),
{
}

} // verus!

//! The context menu of files: what it offers for a selection, and what its items do.
//!
//! The ids of the items carry no paths; the selection that they act on is remembered when the
//! menu is raised.

use crate::error::{AppError, AppResult, ErrorKind, ErrorView};
use crate::git::patch::ended;
use crate::git::paths::{path_refusal, validate_repo_relative_path};
use crate::git::repo::{has_flag, status_contains, StatusFlag};
use crate::numbers::{decimal, to_decimal};
use crate::pathname::{file_name, file_name_of, join_path, under};
use crate::state::PendingCtxMenu;
use crate::text::{
    chars_of, holds_text, join2, join3, just, lemma_line_member, lemma_pieces_join,
    lemma_pieces_non_empty, lines, opt_text, owned, pieces, same_text, split_lines, starts_with,
    texts, without_last,
};
use crate::watch::Reason;
use vstd::hash_map::StringHashMap;
use vstd::prelude::*;
use vstd::string::StringExecFns;

verus! {

/// What every id of an item of the menu starts with.
pub const CTX_PREFIX: &'static str = "ctx:";

/// What an item does.
#[derive(Debug, Clone, Copy, PartialEq, Eq, Structural)]
pub enum CtxAction {
    Stage,
    Unstage,
    Ignore,
    Discard,
    Trash,
    Open,
    Reveal,
}

/// The id of the item for an action.
pub open spec fn id_of(action: CtxAction) -> Seq<char> {
    match action {
        CtxAction::Stage => "ctx:stage"@,
        CtxAction::Unstage => "ctx:unstage"@,
        CtxAction::Ignore => "ctx:ignore"@,
        CtxAction::Discard => "ctx:discard"@,
        CtxAction::Trash => "ctx:trash"@,
        CtxAction::Open => "ctx:open"@,
        CtxAction::Reveal => "ctx:reveal"@,
    }
}

/// The action with this id.
pub open spec fn action_with(id: Seq<char>) -> Option<CtxAction> {
    if id == "ctx:stage"@ {
        Some(CtxAction::Stage)
    } else if id == "ctx:unstage"@ {
        Some(CtxAction::Unstage)
    } else if id == "ctx:ignore"@ {
        Some(CtxAction::Ignore)
    } else if id == "ctx:discard"@ {
        Some(CtxAction::Discard)
    } else if id == "ctx:trash"@ {
        Some(CtxAction::Trash)
    } else if id == "ctx:open"@ {
        Some(CtxAction::Open)
    } else if id == "ctx:reveal"@ {
        Some(CtxAction::Reveal)
    } else {
        None
    }
}

/// Whether an action fits a selection of staged files, or of unstaged ones.
pub open spec fn fits_panel(action: CtxAction, staged: bool) -> bool {
    match action {
        CtxAction::Unstage => staged,
        CtxAction::Stage | CtxAction::Ignore | CtxAction::Discard | CtxAction::Trash => !staged,
        CtxAction::Open | CtxAction::Reveal => true,
    }
}

impl CtxAction {
    /// The action with this id.
    pub fn from_id(id: &str) -> (r: Option<Self>)
        ensures
            r == action_with(id@),
    {
        if same_text(id, "ctx:stage") {
            Some(CtxAction::Stage)
        } else if same_text(id, "ctx:unstage") {
            Some(CtxAction::Unstage)
        } else if same_text(id, "ctx:ignore") {
            Some(CtxAction::Ignore)
        } else if same_text(id, "ctx:discard") {
            Some(CtxAction::Discard)
        } else if same_text(id, "ctx:trash") {
            Some(CtxAction::Trash)
        } else if same_text(id, "ctx:open") {
            Some(CtxAction::Open)
        } else if same_text(id, "ctx:reveal") {
            Some(CtxAction::Reveal)
        } else {
            None
        }
    }

    /// The id of the item for the action.
    pub fn id(self) -> (r: &'static str)
        ensures
            r@ == id_of(self),
    {
        match self {
            CtxAction::Stage => "ctx:stage",
            CtxAction::Unstage => "ctx:unstage",
            CtxAction::Ignore => "ctx:ignore",
            CtxAction::Discard => "ctx:discard",
            CtxAction::Trash => "ctx:trash",
            CtxAction::Open => "ctx:open",
            CtxAction::Reveal => "ctx:reveal",
        }
    }

    /// Whether the action fits a selection of staged files, or of unstaged ones.
    pub fn matches_panel(self, staged: bool) -> (r: bool)
        ensures
            r == fits_panel(self, staged),
    {
        match self {
            CtxAction::Unstage => staged,
            CtxAction::Stage | CtxAction::Ignore | CtxAction::Discard | CtxAction::Trash => !staged,
            CtxAction::Open | CtxAction::Reveal => true,
        }
    }
}

/// The id of an item leads back to its action, and every id has the common prefix.
pub proof fn law_ids_lead_back(action: CtxAction)
    ensures
        action_with(id_of(action)) == Some(action),
        CTX_PREFIX@.is_prefix_of(id_of(action)),
{
    reveal_strlit("ctx:");
    reveal_strlit("ctx:stage");
    reveal_strlit("ctx:unstage");
    reveal_strlit("ctx:ignore");
    reveal_strlit("ctx:discard");
    reveal_strlit("ctx:trash");
    reveal_strlit("ctx:open");
    reveal_strlit("ctx:reveal");
    let id = id_of(action);
    assert(id.subrange(0, 4) =~= "ctx:"@);
    assert("ctx:stage"@.len() == 9 && "ctx:stage"@[4] == 's');
    assert("ctx:unstage"@.len() == 11 && "ctx:unstage"@[4] == 'u');
    assert("ctx:ignore"@.len() == 10 && "ctx:ignore"@[4] == 'i');
    assert("ctx:discard"@.len() == 11 && "ctx:discard"@[4] == 'd');
    assert("ctx:trash"@.len() == 9 && "ctx:trash"@[4] == 't');
    assert("ctx:open"@.len() == 8 && "ctx:open"@[4] == 'o');
    assert("ctx:reveal"@.len() == 10 && "ctx:reveal"@[4] == 'r');
}

/// The action that a menu event asks for; none for an event of another menu.
pub fn handle_menu_event(id: &str) -> (r: Option<CtxAction>)
    ensures
        r == action_with(id@),
{
    if !starts_with(id, CTX_PREFIX) {
        proof {
            match action_with(id@) {
                Some(a) => {
                    law_ids_lead_back(a);
                },
                None => {},
            }
        }
        return None;
    }
    CtxAction::from_id(id)
}

/// The status bits of the files that have a status, by path; of several entries with one path
/// the last counts, and entries without a path do not.
pub open spec fn statuses_by_path(es: Seq<(Option<String>, u32)>) -> Map<Seq<char>, u32>
    decreases es.len(),
{
    if es.len() == 0 {
        Map::empty()
    } else {
        let before = statuses_by_path(es.drop_last());
        match es.last().0 {
            Some(p) => before.insert(p@, es.last().1),
            None => before,
        }
    }
}

/// The status bits by path.
pub fn status_map(es: &Vec<(Option<String>, u32)>) -> (r: StringHashMap<u32>)
    ensures
        r@ == statuses_by_path(es@),
{
    let mut map: StringHashMap<u32> = StringHashMap::new();
    let mut i: usize = 0;
    assert(es@.take(0) =~= Seq::<(Option<String>, u32)>::empty());
    assert(map@ =~= statuses_by_path(es@.take(0)));
    while i < es.len()
        invariant
            0 <= i <= es@.len(),
            map@ == statuses_by_path(es@.take(i as int)),
        decreases es@.len() - i,
    {
        proof {
            assert(es@.take(i + 1).drop_last() =~= es@.take(i as int));
            assert(es@.take(i + 1).last() == es@[i as int]);
        }
        if let Some(p) = &es[i].0 {
            map.insert(p.clone(), es[i].1);
        }
        i += 1;
    }
    assert(es@.take(es@.len() as int) =~= es@);
    map
}

/// What the menu is built from.
#[derive(Debug, Clone)]
pub struct Derived {
    /// The selected paths that still have a status, in the order of the selection.
    pub paths: Vec<String>,
    pub staged: bool,
    /// At least one of them is tracked.
    pub any_tracked: bool,
    /// There are some, and all of them are untracked.
    pub all_untracked: bool,
}

/// The paths that have a status, in order.
pub open spec fn with_status(paths: Seq<Seq<char>>, statuses: Map<Seq<char>, u32>) -> Seq<Seq<char>>
    decreases paths.len(),
{
    if paths.len() == 0 {
        paths
    } else {
        let before = with_status(paths.drop_last(), statuses);
        if statuses.contains_key(paths.last()) {
            before.push(paths.last())
        } else {
            before
        }
    }
}

/// Whether a path is tracked.
pub open spec fn is_tracked(path: Seq<char>, statuses: Map<Seq<char>, u32>) -> bool {
    statuses.contains_key(path) && !has_flag(statuses[path], StatusFlag::WtNew)
}

/// The selected paths that still have a status, and what the menu needs to know of them.
pub fn derive_selection(
    statuses: &StringHashMap<u32>,
    candidates: &Vec<String>,
    staged: bool,
) -> (r: Derived)
    ensures
        texts(r.paths@) == with_status(texts(candidates@), statuses@),
        r.staged == staged,
        r.any_tracked == exists|i: int|
            0 <= i < candidates@.len() && is_tracked(#[trigger] texts(candidates@)[i], statuses@),
        r.all_untracked == (r.paths@.len() > 0 && !r.any_tracked),
{
    let mut paths: Vec<String> = Vec::new();
    let mut any_tracked = false;
    let ghost all = texts(candidates@);
    let mut i: usize = 0;
    assert(all.take(0) =~= Seq::<Seq<char>>::empty());
    assert(texts(paths@) =~= with_status(all.take(0), statuses@));
    while i < candidates.len()
        invariant
            0 <= i <= candidates@.len(),
            all == texts(candidates@),
            texts(paths@) == with_status(all.take(i as int), statuses@),
            any_tracked == exists|j: int| 0 <= j < i && is_tracked(#[trigger] all[j], statuses@),
        decreases candidates@.len() - i,
    {
        proof {
            assert(all[i as int] == candidates@[i as int]@);
            assert(all.take(i + 1).drop_last() =~= all.take(i as int));
            assert(all.take(i + 1).last() == candidates@[i as int]@);
        }
        let ghost was = any_tracked;
        if let Some(bits) = statuses.get(candidates[i].as_str()) {
            if !status_contains(*bits, StatusFlag::WtNew) {
                any_tracked = true;
                assert(is_tracked(all[i as int], statuses@));
            }
            let ghost before = paths@;
            paths.push(candidates[i].clone());
            assert(texts(paths@) =~= texts(before).push(candidates@[i as int]@));
        }
        i += 1;
        proof {
            if was {
                let j = choose|j: int| 0 <= j < i - 1 && is_tracked(#[trigger] all[j], statuses@);
                assert(is_tracked(all[j], statuses@));
            }
        }
    }
    assert(all.take(candidates@.len() as int) =~= all);
    let all_untracked = paths.len() > 0 && !any_tracked;
    Derived { paths, staged, any_tracked, all_untracked }
}

/// The paths that are safe, in order.
pub open spec fn safe_paths(paths: Seq<Seq<char>>, windows: bool) -> Seq<Seq<char>>
    decreases paths.len(),
{
    if paths.len() == 0 {
        paths
    } else {
        let before = safe_paths(paths.drop_last(), windows);
        if path_refusal(paths.last(), windows) is None {
            before.push(paths.last())
        } else {
            before
        }
    }
}

/// The selected paths that are safe; the others are left out of the menu.
pub fn valid_candidates(workdir: &str, paths: &Vec<String>, windows: bool) -> (r: Vec<String>)
    ensures
        texts(r@) == safe_paths(texts(paths@), windows),
{
    let mut out: Vec<String> = Vec::new();
    let ghost all = texts(paths@);
    let mut i: usize = 0;
    assert(all.take(0) =~= Seq::<Seq<char>>::empty());
    assert(texts(out@) =~= safe_paths(all.take(0), windows));
    while i < paths.len()
        invariant
            0 <= i <= paths@.len(),
            all == texts(paths@),
            texts(out@) == safe_paths(all.take(i as int), windows),
        decreases paths@.len() - i,
    {
        proof {
            assert(all[i as int] == paths@[i as int]@);
            assert(all.take(i + 1).drop_last() =~= all.take(i as int));
            assert(all.take(i + 1).last() == paths@[i as int]@);
        }
        if validate_repo_relative_path(workdir, paths[i].as_str(), windows).is_ok() {
            let ghost before = out@;
            out.push(paths[i].clone());
            assert(texts(out@) =~= texts(before).push(paths@[i as int]@));
        }
        i += 1;
    }
    assert(all.take(paths@.len() as int) =~= all);
    out
}

/// The last component of a path, or the whole path where it has none.
pub open spec fn base_of(path: Seq<char>) -> Seq<char> {
    match file_name(path) {
        Some(n) => n,
        None => path,
    }
}

/// The last component of `path`, or the whole of it where it has none.
pub fn basename(path: &str) -> (r: String)
    ensures
        r@ == base_of(path@),
{
    match file_name_of(path) {
        Some(n) => n,
        None => owned(path),
    }
}

/// What a selection is called in the menu: the file's name in quotes, or the number of files.
pub open spec fn label_text(paths: Seq<Seq<char>>) -> Seq<char> {
    if paths.len() == 1 {
        "\""@ + base_of(paths[0]) + "\""@
    } else {
        decimal(paths.len()) + " files"@
    }
}

/// What a selection is called in the menu.
pub fn selection_label(paths: &Vec<String>) -> (r: String)
    ensures
        r@ == label_text(texts(paths@)),
{
    assert(texts(paths@).len() == paths@.len());
    if paths.len() == 1 {
        assert(texts(paths@)[0] == paths@[0]@);
        let b = basename(paths[0].as_str());
        join3("\"", b.as_str(), "\"")
    } else {
        let n = to_decimal(paths.len() as u64);
        join2(n.as_str(), " files")
    }
}

/// An entry of the menu.
#[derive(Debug, Clone)]
pub enum MenuEntry {
    Separator,
    Item(CtxAction, String),
}

/// An entry of the menu as contracts speak of it.
pub enum EntryText {
    Separator,
    Item(CtxAction, Seq<char>),
}

impl View for MenuEntry {
    type V = EntryText;

    open spec fn view(&self) -> EntryText {
        match *self {
            MenuEntry::Separator => EntryText::Separator,
            MenuEntry::Item(a, t) => EntryText::Item(a, t@),
        }
    }
}

/// Entries as contracts speak of them.
pub open spec fn entry_texts(v: Seq<MenuEntry>) -> Seq<EntryText> {
    v.map_values(|e: MenuEntry| e@)
}

/// The two entries that open and show a single file.
pub open spec fn single_entries(label: Seq<char>) -> Seq<EntryText> {
    seq![
        EntryText::Item(CtxAction::Open, "Open "@ + label),
        EntryText::Item(CtxAction::Reveal, "Reveal "@ + label + " in Finder"@),
    ]
}

/// The entries of the menu for a selection.
pub open spec fn menu_for(
    label: Seq<char>,
    single: bool,
    staged: bool,
    any_tracked: bool,
    all_untracked: bool,
) -> Seq<EntryText> {
    let none = Seq::<EntryText>::empty();
    if staged {
        seq![EntryText::Item(CtxAction::Unstage, "Unstage "@ + label)] + (if single {
            seq![EntryText::Separator] + single_entries(label)
        } else {
            none
        })
    } else {
        seq![
            EntryText::Item(CtxAction::Stage, "Stage "@ + label),
            EntryText::Item(CtxAction::Ignore, "Ignore "@ + label),
        ] + (if any_tracked {
            seq![EntryText::Item(CtxAction::Discard, "Discard changes to "@ + label + "…"@)]
        } else {
            none
        }) + (if single || all_untracked {
            seq![EntryText::Separator]
        } else {
            none
        }) + (if single {
            single_entries(label)
        } else {
            none
        }) + (if all_untracked {
            seq![EntryText::Item(CtxAction::Trash, "Move "@ + label + " to Trash"@)]
        } else {
            none
        })
    }
}

/// Adds an item.
fn push_item(items: &mut Vec<MenuEntry>, action: CtxAction, text: String)
    ensures
        entry_texts(final(items)@) == entry_texts(old(items)@) + seq![
            EntryText::Item(action, text@),
        ],
{
    items.push(MenuEntry::Item(action, text));
    assert(entry_texts(items@) =~= entry_texts(old(items)@) + seq![
        EntryText::Item(action, text@),
    ]);
}

/// Adds a separator.
fn push_separator(items: &mut Vec<MenuEntry>)
    ensures
        entry_texts(final(items)@) == entry_texts(old(items)@) + seq![EntryText::Separator],
{
    items.push(MenuEntry::Separator);
    assert(entry_texts(items@) =~= entry_texts(old(items)@) + seq![EntryText::Separator]);
}

/// Adds the two entries that open and show a single file.
fn push_single(items: &mut Vec<MenuEntry>, label: &str)
    ensures
        entry_texts(final(items)@) == entry_texts(old(items)@) + single_entries(label@),
{
    push_item(items, CtxAction::Open, join2("Open ", label));
    push_item(items, CtxAction::Reveal, join3("Reveal ", label, " in Finder"));
    assert(entry_texts(items@) =~= entry_texts(old(items)@) + single_entries(label@));
}

/// The entries of the menu for a selection.
pub fn build_menu(derived: &Derived) -> (r: Vec<MenuEntry>)
    ensures
        entry_texts(r@) == menu_for(
            label_text(texts(derived.paths@)),
            derived.paths@.len() == 1,
            derived.staged,
            derived.any_tracked,
            derived.all_untracked,
        ),
{
    let text = selection_label(&derived.paths);
    let label = text.as_str();
    let single = derived.paths.len() == 1;
    let ghost none = Seq::<EntryText>::empty();
    let mut items: Vec<MenuEntry> = Vec::new();
    assert(entry_texts(items@) =~= none);
    if derived.staged {
        push_item(&mut items, CtxAction::Unstage, join2("Unstage ", label));
        let ghost first = seq![EntryText::Item(CtxAction::Unstage, "Unstage "@ + label@)];
        assert(entry_texts(items@) =~= first);
        if single {
            push_separator(&mut items);
            push_single(&mut items, label);
            assert(entry_texts(items@) =~= first + (seq![EntryText::Separator] + single_entries(
                label@,
            )));
        } else {
            assert(first + none =~= first);
        }
    } else {
        push_item(&mut items, CtxAction::Stage, join2("Stage ", label));
        push_item(&mut items, CtxAction::Ignore, join2("Ignore ", label));
        let ghost s0 = seq![
            EntryText::Item(CtxAction::Stage, "Stage "@ + label@),
            EntryText::Item(CtxAction::Ignore, "Ignore "@ + label@),
        ];
        assert(entry_texts(items@) =~= s0);
        if derived.any_tracked {
            push_item(&mut items, CtxAction::Discard, join3("Discard changes to ", label, "…"));
        } else {
            assert(s0 + none =~= s0);
        }
        let ghost s1 = entry_texts(items@);
        if single || derived.all_untracked {
            push_separator(&mut items);
        } else {
            assert(s1 + none =~= s1);
        }
        let ghost s2 = entry_texts(items@);
        if single {
            push_single(&mut items, label);
        } else {
            assert(s2 + none =~= s2);
        }
        let ghost s3 = entry_texts(items@);
        if derived.all_untracked {
            push_item(&mut items, CtxAction::Trash, join3("Move ", label, " to Trash"));
        } else {
            assert(s3 + none =~= s3);
        }
    }
    items
}

/// The menu offers only what fits the panel that the selection came from. It starts and ends
/// with an item, and no two separators follow each other.
pub proof fn law_menu_fits_its_panel(
    label: Seq<char>,
    single: bool,
    staged: bool,
    any_tracked: bool,
    all_untracked: bool,
)
    ensures
        ({
            let m = menu_for(label, single, staged, any_tracked, all_untracked);
            &&& m.len() > 0
            &&& m[0] is Item
            &&& m.last() is Item
            &&& forall|i: int|
                0 <= i < m.len() ==> (#[trigger] m[i] matches EntryText::Item(a, _) ==> fits_panel(
                    a,
                    staged,
                ))
            &&& forall|i: int, j: int|
                0 <= i < j < m.len() && #[trigger] m[i] is Separator ==> #[trigger] m[j] is Item
        }),
{
}

/// Whether a character has a meaning of its own in an ignore pattern.
pub open spec fn is_special(c: char) -> bool {
    c == '*' || c == '?' || c == '[' || c == ']' || c == '!' || c == '#' || c == '\\'
}

/// Whether a character is trimmed at the end of an ignore pattern.
pub open spec fn is_blank(c: char) -> bool {
    c == ' ' || c == '\t'
}

/// Whether a text is made of characters that are trimmed.
pub open spec fn all_blank(s: Seq<char>) -> bool {
    forall|i: int| 0 <= i < s.len() ==> is_blank(#[trigger] s[i])
}

/// The ignore pattern that matches a path literally: what has a meaning of its own is escaped,
/// and so is white space at the end.
pub open spec fn pattern(s: Seq<char>) -> Seq<char>
    decreases s.len(),
{
    if s.len() == 0 {
        s
    } else {
        (if is_special(s[0]) || all_blank(s) {
            seq!['\\', s[0]]
        } else {
            seq![s[0]]
        }) + pattern(s.drop_first())
    }
}

/// The ignore pattern that matches `path` literally.
pub fn escape_gitignore_pattern(path: &str) -> (r: String)
    ensures
        r@ == pattern(path@),
{
    let cs = chars_of(path);
    let mut tail: usize = cs.len();
    while tail > 0 && (cs[tail - 1] == ' ' || cs[tail - 1] == '\t')
        invariant
            0 <= tail <= cs@.len(),
            forall|j: int| tail <= j < cs@.len() ==> is_blank(#[trigger] cs@[j]),
        decreases tail,
    {
        tail -= 1;
    }
    let mut out = String::new();
    let mut i: usize = 0;
    assert(cs@.skip(0) =~= cs@);
    assert(out@ + pattern(cs@.skip(0)) =~= pattern(cs@));
    while i < cs.len()
        invariant
            0 <= i <= cs@.len(),
            0 <= tail <= cs@.len(),
            forall|j: int| tail <= j < cs@.len() ==> is_blank(#[trigger] cs@[j]),
            tail > 0 ==> !is_blank(cs@[tail - 1]),
            out@ + pattern(cs@.skip(i as int)) == pattern(cs@),
        decreases cs@.len() - i,
    {
        let c = cs[i];
        let ghost rest = cs@.skip(i as int);
        let ghost before = out@;
        proof {
            assert(rest[0] == c);
            assert(rest.drop_first() =~= cs@.skip(i + 1));
            if i >= tail {
                assert forall|j: int| 0 <= j < rest.len() implies is_blank(#[trigger] rest[j]) by {
                    assert(rest[j] == cs@[i + j]);
                }
            } else {
                assert(rest[tail - 1 - i] == cs@[tail - 1]);
            }
        }
        if c == '*' || c == '?' || c == '[' || c == ']' || c == '!' || c == '#' || c == '\\' || i
            >= tail {
            out.push('\\');
        }
        out.push(c);
        assert(out@ + pattern(cs@.skip(i + 1)) =~= before + pattern(rest));
        i += 1;
    }
    assert(cs@.skip(cs@.len() as int) =~= Seq::<char>::empty());
    assert(out@ + pattern(cs@.skip(cs@.len() as int)) =~= out@);
    out
}

/// The one text that a pattern matches, where it has no wildcard: each backslash makes the
/// character behind it literal.
pub open spec fn literal_of(p: Seq<char>) -> Option<Seq<char>>
    decreases p.len(),
{
    if p.len() == 0 {
        Some(p)
    } else if p[0] == '\\' {
        if p.len() < 2 {
            None
        } else {
            match literal_of(p.skip(2)) {
                Some(t) => Some(seq![p[1]] + t),
                None => None,
            }
        }
    } else if is_special(p[0]) {
        None
    } else {
        match literal_of(p.drop_first()) {
            Some(t) => Some(seq![p[0]] + t),
            None => None,
        }
    }
}

/// The pattern for a path matches that path and nothing else: read as git reads patterns it has
/// no wildcard left, and stands for the path. Nothing of it is trimmed: white space at its end
/// stands behind a backslash.
pub proof fn law_pattern_is_literal(s: Seq<char>)
    ensures
        literal_of(pattern(s)) == Some(s),
        pattern(s).len() > 0 && is_blank(pattern(s).last()) ==> pattern(s).len() >= 2 && pattern(
            s,
        )[pattern(s).len() - 2] == '\\',
    decreases s.len(),
{
    if s.len() > 0 {
        let t = s.drop_first();
        law_pattern_is_literal(t);
        let p = pattern(s);
        assert(s =~= seq![s[0]] + t);
        if is_special(s[0]) || all_blank(s) {
            assert(p.skip(2) =~= pattern(t));
        } else {
            assert(p.drop_first() =~= pattern(t));
            if t.len() == 0 {
                assert(pattern(t) =~= Seq::empty());
                assert(!is_blank(s[0])) by {
                    if is_blank(s[0]) {
                        assert(all_blank(s));
                    }
                }
            } else {
                lemma_pattern_not_empty(t);
            }
        }
        if t.len() == 0 {
            assert(pattern(t) =~= Seq::empty());
        } else {
            lemma_pattern_not_empty(t);
            assert(p.last() == pattern(t).last());
            if is_blank(p.last()) {
                assert(p[p.len() - 2] == pattern(t)[pattern(t).len() - 2]);
            }
        }
    }
}

/// The pattern for a path that is not empty is not empty.
proof fn lemma_pattern_not_empty(s: Seq<char>)
    requires
        s.len() > 0,
    ensures
        pattern(s).len() > 0,
{
}

/// The line that ignores a path: its pattern, anchored at the top of the working tree.
pub open spec fn ignore_line(path: Seq<char>) -> Seq<char> {
    "/"@ + pattern(path)
}

/// The lines to add for some paths: those that are not there yet, each once.
pub open spec fn lines_to_add(present: Seq<Seq<char>>, paths: Seq<Seq<char>>) -> Seq<Seq<char>>
    decreases paths.len(),
{
    if paths.len() == 0 {
        Seq::empty()
    } else {
        let before = lines_to_add(present, paths.drop_last());
        let line = ignore_line(paths.last());
        if present.contains(line) || before.contains(line) {
            before
        } else {
            before.push(line)
        }
    }
}

/// A file's content with a newline at its end, unless it is empty.
pub open spec fn closed(content: Seq<char>) -> Seq<char> {
    if content.len() > 0 && content.last() != '\n' {
        content.push('\n')
    } else {
        content
    }
}

/// The content of the ignore file once some paths are ignored; nothing where it stays as it is.
pub open spec fn ignored_content(existing: Seq<char>, paths: Seq<Seq<char>>) -> Option<Seq<char>> {
    let add = lines_to_add(lines(existing), paths);
    if add.len() == 0 {
        None
    } else {
        Some(closed(existing) + ended(add))
    }
}

/// The content of the ignore file once `rel_paths` are ignored: each gets a line of its own,
/// unless that line is there. Nothing where the file stays as it is.
pub fn append_gitignore_entries(existing: &str, rel_paths: &Vec<String>) -> (r: Option<String>)
    ensures
        opt_text(r) == ignored_content(existing@, texts(rel_paths@)),
{
    let present = split_lines(existing);
    let mut add: Vec<String> = Vec::new();
    let ghost all = texts(rel_paths@);
    let mut i: usize = 0;
    assert(all.take(0) =~= Seq::<Seq<char>>::empty());
    assert(texts(add@) =~= lines_to_add(texts(present@), all.take(0)));
    while i < rel_paths.len()
        invariant
            0 <= i <= rel_paths@.len(),
            all == texts(rel_paths@),
            texts(add@) == lines_to_add(texts(present@), all.take(i as int)),
        decreases rel_paths@.len() - i,
    {
        proof {
            assert(all[i as int] == rel_paths@[i as int]@);
            assert(all.take(i + 1).drop_last() =~= all.take(i as int));
            assert(all.take(i + 1).last() == rel_paths@[i as int]@);
        }
        let p = escape_gitignore_pattern(rel_paths[i].as_str());
        let line = join2("/", p.as_str());
        if !holds_text(&present, line.as_str()) && !holds_text(&add, line.as_str()) {
            let ghost before = add@;
            let ghost lv = line@;
            add.push(line);
            assert(texts(add@) =~= texts(before).push(lv));
        }
        i += 1;
    }
    assert(all.take(rel_paths@.len() as int) =~= all);
    assert(texts(add@).len() == add@.len());
    if add.len() == 0 {
        return None;
    }
    let mut content = owned(existing);
    let cs = chars_of(existing);
    if cs.len() > 0 && cs[cs.len() - 1] != '\n' {
        content.push('\n');
    }
    let ghost base = closed(existing@);
    let ghost rows = texts(add@);
    let mut k: usize = 0;
    assert(rows.take(0) =~= Seq::<Seq<char>>::empty());
    assert(content@ =~= base + ended(rows.take(0)));
    while k < add.len()
        invariant
            0 <= k <= add@.len(),
            rows == texts(add@),
            content@ == base + ended(rows.take(k as int)),
        decreases add@.len() - k,
    {
        proof {
            assert(rows[k as int] == add@[k as int]@);
            assert(rows.take(k + 1).drop_last() =~= rows.take(k as int));
            assert(rows.take(k + 1).last() == add@[k as int]@);
        }
        let ghost before = content@;
        content.append(add[k].as_str());
        content.append("\n");
        assert(content@ =~= base + ended(rows.take(k + 1)));
        k += 1;
    }
    assert(rows.take(add@.len() as int) =~= rows);
    Some(content)
}

/// A pattern ends like its path, and holds a newline only where its path does.
proof fn lemma_pattern_ends(s: Seq<char>)
    ensures
        !s.contains('\n') ==> !pattern(s).contains('\n'),
        s.len() > 0 ==> pattern(s).len() > 0 && pattern(s).last() == s.last(),
    decreases s.len(),
{
    if s.len() > 0 {
        let t = s.drop_first();
        lemma_pattern_ends(t);
        let p = pattern(s);
        if t.len() == 0 {
            assert(pattern(t) =~= Seq::empty());
        } else {
            assert(p.last() == pattern(t).last());
            assert(s.last() == t.last());
        }
        if !s.contains('\n') && p.contains('\n') {
            assert(s[0] != '\n');
            assert(!t.contains('\n')) by {
                if t.contains('\n') {
                    let k = choose|k: int| 0 <= k < t.len() && t[k] == '\n';
                    assert(s[k + 1] == '\n');
                }
            }
            let k = choose|k: int| 0 <= k < p.len() && p[k] == '\n';
            let h = p.len() - pattern(t).len();
            if k >= h {
                assert(pattern(t)[k - h] == '\n');
            }
        }
    }
}

/// A line that stays one line when it is written and read back.
spec fn is_plain_line(l: Seq<char>) -> bool {
    !l.contains('\n') && (l.len() > 0 ==> l.last() != '\r')
}

/// The line of a path without newlines that does not end in `\r` stays one line.
proof fn lemma_ignore_line_plain(path: Seq<char>)
    requires
        !path.contains('\n'),
        path.len() > 0 ==> path.last() != '\r',
    ensures
        is_plain_line(ignore_line(path)),
{
    reveal_strlit("/");
    lemma_pattern_ends(path);
    let l = ignore_line(path);
    if l.contains('\n') {
        let k = choose|k: int| 0 <= k < l.len() && l[k] == '\n';
        assert(pattern(path)[k - 1] == '\n');
    }
    if path.len() == 0 {
        assert(pattern(path) =~= Seq::empty());
    }
}

/// Every line to add is the line of one of the paths.
proof fn lemma_added_lines(present: Seq<Seq<char>>, paths: Seq<Seq<char>>, k: int)
    requires
        0 <= k < lines_to_add(present, paths).len(),
    ensures
        exists|j: int|
            0 <= j < paths.len() && lines_to_add(present, paths)[k] == ignore_line(
                #[trigger] paths[j],
            ),
    decreases paths.len(),
{
    let t = paths.drop_last();
    if k < lines_to_add(present, t).len() {
        lemma_added_lines(present, t, k);
        let j = choose|j: int|
            0 <= j < t.len() && lines_to_add(present, t)[k] == ignore_line(#[trigger] t[j]);
        assert(paths[j] == t[j]);
    } else {
        assert(paths[paths.len() - 1] == paths.last());
    }
}

/// The line of every path is there, or is added.
proof fn lemma_line_is_covered(present: Seq<Seq<char>>, paths: Seq<Seq<char>>, j: int)
    requires
        0 <= j < paths.len(),
    ensures
        present.contains(ignore_line(paths[j])) || lines_to_add(present, paths).contains(
            ignore_line(paths[j]),
        ),
    decreases paths.len(),
{
    let t = paths.drop_last();
    let (before, now) = (lines_to_add(present, t), lines_to_add(present, paths));
    let line = ignore_line(paths[j]);
    if j < t.len() {
        lemma_line_is_covered(present, t, j);
        assert(t[j] == paths[j]);
        if before.contains(line) {
            let k = choose|k: int| 0 <= k < before.len() && before[k] == line;
            assert(now[k] == line);
        }
    } else if !present.contains(line) && !before.contains(line) {
        assert(now[before.len() as int] == line);
    }
}

/// Where the lines of all paths are there, none is added.
proof fn lemma_nothing_to_add(present: Seq<Seq<char>>, paths: Seq<Seq<char>>)
    requires
        forall|j: int| 0 <= j < paths.len() ==> present.contains(ignore_line(#[trigger] paths[j])),
    ensures
        lines_to_add(present, paths).len() == 0,
    decreases paths.len(),
{
    if paths.len() > 0 {
        let t = paths.drop_last();
        assert forall|j: int| 0 <= j < t.len() implies present.contains(
            ignore_line(#[trigger] t[j]),
        ) by {
            assert(t[j] == paths[j]);
        }
        lemma_nothing_to_add(present, t);
        assert(present.contains(ignore_line(paths[paths.len() - 1])));
    }
}

/// What a file holds between its newlines once rows are added: what it held, then the rows.
proof fn lemma_added_pieces(existing: Seq<char>, rows: Seq<Seq<char>>) -> (kept: Seq<Seq<char>>)
    requires
        forall|i: int| 0 <= i < rows.len() ==> !(#[trigger] rows[i]).contains('\n'),
    ensures
        pieces(closed(existing) + ended(rows), just('\n')) == kept + rows.push(
            Seq::<char>::empty(),
        ),
        forall|l: Seq<char>| #[trigger]
            lines(existing).contains(l) && is_plain_line(l) ==> exists|i: int|
                0 <= i < kept.len() && without_last(#[trigger] kept[i], '\r') == l,
{
    let sep = just('\n');
    let none = Seq::<char>::empty();
    let c = closed(existing);
    crate::git::patch::lemma_ended_rows(rows);
    lemma_pieces_non_empty(existing, sep);
    let ps = pieces(existing, sep);
    crate::text::lemma_pieces_single(none, sep);
    if existing.len() == 0 {
        assert(existing =~= none);
        assert(c + ended(rows) =~= ended(rows));
        let kept = Seq::<Seq<char>>::empty();
        assert(kept + rows.push(none) =~= rows.push(none));
        assert(lines(existing) =~= Seq::<Seq<char>>::empty());
        kept
    } else {
        let x = if existing.last() == '\n' {
            existing.drop_last()
        } else {
            existing
        };
        assert(c =~= x.push('\n'));
        lemma_pieces_join(x, '\n', ended(rows), sep);
        lemma_pieces_non_empty(x, sep);
        let kept = pieces(x, sep);
        assert forall|l: Seq<char>| #[trigger]
            lines(existing).contains(l) && is_plain_line(l) implies exists|i: int|
            0 <= i < kept.len() && without_last(#[trigger] kept[i], '\r') == l by {
            let n = choose|n: int| 0 <= n < lines(existing).len() && lines(existing)[n] == l;
            if existing.last() == '\n' {
                assert(existing =~= x.push('\n') + none);
                lemma_pieces_join(x, '\n', none, sep);
                assert(ps =~= kept.push(none));
            }
            assert(ps[n] == kept[n]);
            assert(without_last(kept[n], '\r') == l);
        }
        kept
    }
}

/// Ignoring the same paths again changes nothing, whatever the file held: after the first time
/// every line is there. A path with a newline, or with `\r` at its end, has no line of its own
/// to be found again.
pub proof fn law_ignoring_twice_changes_nothing(existing: Seq<char>, paths: Seq<Seq<char>>)
    requires
        forall|j: int|
            0 <= j < paths.len() ==> !(#[trigger] paths[j]).contains('\n') && (paths[j].len() > 0
                ==> paths[j].last() != '\r'),
    ensures
        ignored_content(
            match ignored_content(existing, paths) {
                Some(content) => content,
                None => existing,
            },
            paths,
        ) is None,
{
    let present = lines(existing);
    let add = lines_to_add(present, paths);
    if add.len() == 0 {
        assert forall|j: int| 0 <= j < paths.len() implies present.contains(
            ignore_line(#[trigger] paths[j]),
        ) by {
            lemma_line_is_covered(present, paths, j);
        }
        lemma_nothing_to_add(present, paths);
    } else {
        assert forall|k: int| 0 <= k < add.len() implies is_plain_line(#[trigger] add[k]) by {
            lemma_added_lines(present, paths, k);
            let j = choose|j: int| 0 <= j < paths.len() && add[k] == ignore_line(#[trigger] paths[j]);
            lemma_ignore_line_plain(paths[j]);
        }
        let kept = lemma_added_pieces(existing, add);
        let content = closed(existing) + ended(add);
        let ps = pieces(content, just('\n'));
        assert forall|j: int| 0 <= j < paths.len() implies lines(content).contains(
            ignore_line(#[trigger] paths[j]),
        ) by {
            let l = ignore_line(paths[j]);
            lemma_ignore_line_plain(paths[j]);
            lemma_line_is_covered(present, paths, j);
            if present.contains(l) {
                let i = choose|i: int|
                    0 <= i < kept.len() && without_last(#[trigger] kept[i], '\r') == l;
                assert(ps[i] == kept[i]);
                lemma_line_member(content, i);
            } else {
                let k = choose|k: int| 0 <= k < add.len() && add[k] == l;
                let i = kept.len() + k;
                assert(ps[i] == add[k]);
                lemma_line_member(content, i);
            }
        }
        lemma_nothing_to_add(lines(content), paths);
    }
}

/// Ignoring paths only ever adds to the file: what it held stays in front.
pub proof fn law_ignoring_keeps_the_file(existing: Seq<char>, paths: Seq<Seq<char>>)
    ensures
        ignored_content(existing, paths) matches Some(content) ==> existing.is_prefix_of(content),
{
    if let Some(content) = ignored_content(existing, paths) {
        assert(content.subrange(0, existing.len() as int) =~= existing);
    }
}

/// What comes of a clicked item before anything is changed.
#[derive(Debug, Clone)]
pub enum ActionStart {
    /// Nothing: there is no selection, or the item does not belong to it.
    Nothing,
    /// The files at these paths are opened, or shown in their directory.
    Show(Vec<String>),
    /// This question is asked first, and nothing happens unless it is confirmed.
    Confirm(String),
    /// The action is carried out.
    Proceed,
}

/// What comes of a clicked item, as contracts speak of it.
pub enum StartView {
    Nothing,
    Show(Seq<Seq<char>>),
    Confirm(Seq<char>),
    Proceed,
}

impl View for ActionStart {
    type V = StartView;

    open spec fn view(&self) -> StartView {
        match *self {
            ActionStart::Nothing => StartView::Nothing,
            ActionStart::Show(ps) => StartView::Show(texts(ps@)),
            ActionStart::Confirm(m) => StartView::Confirm(m@),
            ActionStart::Proceed => StartView::Proceed,
        }
    }
}

/// What comes of a clicked item: an item that does not fit the panel of the remembered selection
/// is left alone, since it may be of a menu that is no longer up; discarding asks first.
pub open spec fn start_of(pending: Option<PendingCtxMenu>, action: CtxAction) -> StartView {
    match pending {
        None => StartView::Nothing,
        Some(p) => if p.paths@.len() == 0 || !fits_panel(action, p.staged) {
            StartView::Nothing
        } else {
            match action {
                CtxAction::Open | CtxAction::Reveal => StartView::Show(texts(p.paths@)),
                CtxAction::Discard => StartView::Confirm(
                    "Discard changes to "@ + label_text(texts(p.paths@))
                        + "? This cannot be undone."@,
                ),
                _ => StartView::Proceed,
            }
        },
    }
}

/// A copy of some texts.
fn copy_texts(v: &Vec<String>) -> (r: Vec<String>)
    ensures
        texts(r@) == texts(v@),
{
    let mut out: Vec<String> = Vec::new();
    let mut i: usize = 0;
    assert(texts(out@) =~= texts(v@).take(0));
    while i < v.len()
        invariant
            0 <= i <= v@.len(),
            texts(out@) == texts(v@).take(i as int),
        decreases v@.len() - i,
    {
        let ghost before = out@;
        out.push(v[i].clone());
        proof {
            assert(texts(out@) =~= texts(before).push(v@[i as int]@));
            assert(texts(v@)[i as int] == v@[i as int]@);
            assert(texts(v@).take(i + 1) =~= texts(v@).take(i as int).push(v@[i as int]@));
        }
        i += 1;
    }
    assert(texts(v@).take(v@.len() as int) =~= texts(v@));
    out
}

/// What comes of a clicked item, for the selection remembered.
pub fn start_action(pending: &Option<PendingCtxMenu>, action: CtxAction) -> (r: ActionStart)
    ensures
        r@ == start_of(*pending, action),
{
    let p = match pending {
        Some(p) => p,
        None => return ActionStart::Nothing,
    };
    if p.paths.len() == 0 || !action.matches_panel(p.staged) {
        return ActionStart::Nothing;
    }
    match action {
        CtxAction::Open | CtxAction::Reveal => ActionStart::Show(copy_texts(&p.paths)),
        CtxAction::Discard => {
            let label = selection_label(&p.paths);
            ActionStart::Confirm(
                join3("Discard changes to ", label.as_str(), "? This cannot be undone."),
            )
        },
        _ => ActionStart::Proceed,
    }
}

/// A step of an action.
#[derive(Debug, Clone)]
pub enum ActionStep {
    Stage(String),
    Unstage(String),
    Discard(String),
    /// Move the file at the second path, known by the first, to the trash.
    Trash(String, String),
    /// Add these paths to the ignore file in this directory.
    Ignore(String, Vec<String>),
}

/// A step of an action, as contracts speak of it.
pub enum ActionStepView {
    Stage(Seq<char>),
    Unstage(Seq<char>),
    Discard(Seq<char>),
    Trash(Seq<char>, Seq<char>),
    Ignore(Seq<char>, Seq<Seq<char>>),
}

impl View for ActionStep {
    type V = ActionStepView;

    open spec fn view(&self) -> ActionStepView {
        match *self {
            ActionStep::Stage(p) => ActionStepView::Stage(p@),
            ActionStep::Unstage(p) => ActionStepView::Unstage(p@),
            ActionStep::Discard(p) => ActionStepView::Discard(p@),
            ActionStep::Trash(p, full) => ActionStepView::Trash(p@, full@),
            ActionStep::Ignore(w, ps) => ActionStepView::Ignore(w@, texts(ps@)),
        }
    }
}

/// Steps as contracts speak of them.
pub open spec fn action_steps(v: Seq<ActionStep>) -> Seq<ActionStepView> {
    v.map_values(|s: ActionStep| s@)
}

/// The paths that are tracked, in order.
pub open spec fn tracked_paths(
    paths: Seq<Seq<char>>,
    statuses: Map<Seq<char>, u32>,
) -> Seq<Seq<char>>
    decreases paths.len(),
{
    if paths.len() == 0 {
        paths
    } else {
        let before = tracked_paths(paths.drop_last(), statuses);
        if is_tracked(paths.last(), statuses) {
            before.push(paths.last())
        } else {
            before
        }
    }
}

/// What an action comes to: its steps, in order, and the reason to refresh once all are done.
///
/// Staging and unstaging take every path, discarding only those that are tracked: an untracked
/// file has no changes to discard and is moved to the trash instead.
pub open spec fn planned(
    action: CtxAction,
    paths: Seq<Seq<char>>,
    statuses: Map<Seq<char>, u32>,
    workdir: Option<Seq<char>>,
) -> Result<(Seq<ActionStepView>, Reason), ErrorView> {
    let no_tree = (ErrorKind::Validation, "Repository has no working tree"@);
    match action {
        CtxAction::Stage => Ok(
            (paths.map_values(|p: Seq<char>| ActionStepView::Stage(p)), Reason::Index),
        ),
        CtxAction::Unstage => Ok(
            (paths.map_values(|p: Seq<char>| ActionStepView::Unstage(p)), Reason::Index),
        ),
        CtxAction::Ignore => match workdir {
            Some(w) => Ok((seq![ActionStepView::Ignore(w, paths)], Reason::Fs)),
            None => Err(no_tree),
        },
        CtxAction::Discard => Ok(
            (
                tracked_paths(paths, statuses).map_values(
                    |p: Seq<char>| ActionStepView::Discard(p),
                ),
                Reason::Fs,
            ),
        ),
        CtxAction::Trash => match workdir {
            Some(w) => Ok(
                (
                    paths.map_values(|p: Seq<char>| ActionStepView::Trash(p, under(w, p))),
                    Reason::Fs,
                ),
            ),
            None => Err(no_tree),
        },
        CtxAction::Open | CtxAction::Reveal => Ok((Seq::empty(), Reason::Fs)),
    }
}

/// The steps of an action that changes something, and the reason to refresh once all are done.
/// The steps are carried out in order until one fails.
pub fn run_action(
    action: CtxAction,
    paths: &Vec<String>,
    statuses: &StringHashMap<u32>,
    workdir: Option<&str>,
) -> (r: AppResult<(Vec<ActionStep>, Reason)>)
    requires
        action != CtxAction::Open,
        action != CtxAction::Reveal,
    ensures
        ({
            let want = planned(
                action,
                texts(paths@),
                statuses@,
                match workdir {
                    Some(w) => Some(w@),
                    None => None,
                },
            );
            match r {
                Ok((steps, reason)) => want == Ok::<(Seq<ActionStepView>, Reason), ErrorView>(
                    (action_steps(steps@), reason),
                ),
                Err(e) => want == Err::<(Seq<ActionStepView>, Reason), ErrorView>(e@),
            }
        }),
{
    let mut steps: Vec<ActionStep> = Vec::new();
    let ghost all = texts(paths@);
    if action == CtxAction::Ignore {
        return match workdir {
            Some(w) => {
                steps.push(ActionStep::Ignore(owned(w), copy_texts(paths)));
                assert(action_steps(steps@) =~= seq![ActionStepView::Ignore(w@, all)]);
                Ok((steps, Reason::Fs))
            },
            None => Err(AppError::validation("Repository has no working tree")),
        };
    }
    let w: &str = match workdir {
        Some(w) => w,
        None => {
            if action == CtxAction::Trash {
                return Err(AppError::validation("Repository has no working tree"));
            }
            ""
        },
    };
    let mut i: usize = 0;
    proof {
        assert(all.take(0) =~= Seq::<Seq<char>>::empty());
        assert(action_steps(steps@) =~= step_prefix(action, all.take(0), statuses@, w@));
    }
    while i < paths.len()
        invariant
            0 <= i <= paths@.len(),
            all == texts(paths@),
            action != CtxAction::Open,
            action != CtxAction::Reveal,
            action != CtxAction::Ignore,
            action_steps(steps@) == step_prefix(action, all.take(i as int), statuses@, w@),
        decreases paths@.len() - i,
    {
        let path = paths[i].as_str();
        let ghost before = action_steps(steps@);
        let ghost old_steps = steps@;
        proof {
            assert(all[i as int] == path@);
            assert(all.take(i + 1) =~= all.take(i as int).push(path@));
            assert(all.take(i + 1).drop_last() =~= all.take(i as int));
        }
        match action {
            CtxAction::Stage => {
                steps.push(ActionStep::Stage(owned(path)));
            },
            CtxAction::Unstage => {
                steps.push(ActionStep::Unstage(owned(path)));
            },
            CtxAction::Discard => {
                if let Some(bits) = statuses.get(path) {
                    if !status_contains(*bits, StatusFlag::WtNew) {
                        steps.push(ActionStep::Discard(owned(path)));
                    }
                }
            },
            CtxAction::Trash => {
                steps.push(ActionStep::Trash(owned(path), join_path(w, path)));
            },
            _ => {},
        }
        proof {
            if steps@.len() > old_steps.len() {
                assert(steps@ =~= old_steps.push(steps@.last()));
                assert(action_steps(steps@) =~= before.push(steps@.last()@));
            }
            assert(action_steps(steps@) =~= step_prefix(action, all.take(i + 1), statuses@, w@));
        }
        i += 1;
    }
    assert(all.take(paths@.len() as int) =~= all);
    let reason = match action {
        CtxAction::Stage | CtxAction::Unstage => Reason::Index,
        _ => Reason::Fs,
    };
    Ok((steps, reason))
}

/// The steps of an action over some paths, one by one.
spec fn step_prefix(
    action: CtxAction,
    paths: Seq<Seq<char>>,
    statuses: Map<Seq<char>, u32>,
    workdir: Seq<char>,
) -> Seq<ActionStepView> {
    match action {
        CtxAction::Stage => paths.map_values(|p: Seq<char>| ActionStepView::Stage(p)),
        CtxAction::Unstage => paths.map_values(|p: Seq<char>| ActionStepView::Unstage(p)),
        CtxAction::Discard => tracked_paths(paths, statuses).map_values(
            |p: Seq<char>| ActionStepView::Discard(p),
        ),
        CtxAction::Trash => paths.map_values(
            |p: Seq<char>| ActionStepView::Trash(p, under(workdir, p)),
        ),
        _ => Seq::empty(),
    }
}

/// Discarding from the menu never reaches an untracked file: each of its steps is for a path of
/// the selection that is tracked.
pub proof fn law_menu_discards_tracked_files_only(
    paths: Seq<Seq<char>>,
    statuses: Map<Seq<char>, u32>,
    k: int,
)
    requires
        0 <= k < tracked_paths(paths, statuses).len(),
    ensures
        is_tracked(tracked_paths(paths, statuses)[k], statuses),
        paths.contains(tracked_paths(paths, statuses)[k]),
    decreases paths.len(),
{
    let t = paths.drop_last();
    let before = tracked_paths(t, statuses);
    if k < before.len() {
        law_menu_discards_tracked_files_only(t, statuses, k);
        let j = choose|j: int| 0 <= j < t.len() && t[j] == before[k];
        assert(paths[j] == before[k]);
    } else {
        assert(paths[paths.len() - 1] == paths.last());
    }
}

/// The paths of a selection below the repository, to be opened or shown.
pub fn full_paths(repo_path: &str, paths: &Vec<String>) -> (r: Vec<String>)
    ensures
        texts(r@) == texts(paths@).map_values(|p: Seq<char>| under(repo_path@, p)),
{
    let mut out: Vec<String> = Vec::new();
    let ghost all = texts(paths@).map_values(|p: Seq<char>| under(repo_path@, p));
    let mut i: usize = 0;
    assert(texts(out@) =~= all.take(0));
    while i < paths.len()
        invariant
            0 <= i <= paths@.len(),
            all == texts(paths@).map_values(|p: Seq<char>| under(repo_path@, p)),
            texts(out@) == all.take(i as int),
        decreases paths@.len() - i,
    {
        let ghost before = out@;
        out.push(join_path(repo_path, paths[i].as_str()));
        proof {
            assert(texts(paths@)[i as int] == paths@[i as int]@);
            assert(all[i as int] == under(repo_path@, paths@[i as int]@));
            assert(texts(out@) =~= texts(before).push(out@.last()@));
            assert(all.take(i + 1) =~= all.take(i as int).push(all[i as int]));
        }
        i += 1;
    }
    assert(all.take(paths@.len() as int) =~= all);
    out
}

/// The failure to move a file to the trash.
pub fn trash_failed(path: &str, reason: &str) -> (r: AppError)
    ensures
        r@ == (ErrorKind::Io, "Failed to trash '"@ + path@ + "': "@ + reason@),
{
    let head = join3("Failed to trash '", path, "': ");
    let m = join2(head.as_str(), reason);
    AppError::io(m.as_str())
}

/// The ids of the items, and which panel each action is for: unstaging is for staged files,
/// staging, ignoring, discarding and the trash for unstaged ones, and opening and showing for
/// both.
pub proof fn law_items_have_their_ids(action: CtxAction, id: &'static str, staged: bool, fits: bool)
    requires
        call_ensures(CtxAction::id, (action,), id),
        call_ensures(CtxAction::matches_panel, (action, staged), fits),
    ensures
        action is Stage ==> id@ == "ctx:stage"@ && fits == !staged,
        action is Unstage ==> id@ == "ctx:unstage"@ && fits == staged,
        action is Ignore ==> id@ == "ctx:ignore"@ && fits == !staged,
        action is Discard ==> id@ == "ctx:discard"@ && fits == !staged,
        action is Trash ==> id@ == "ctx:trash"@ && fits == !staged,
        action is Open ==> id@ == "ctx:open"@ && fits,
        action is Reveal ==> id@ == "ctx:reveal"@ && fits,
{
}

/// A menu event asks for the action whose id it carries, and for nothing where no action has it.
pub proof fn law_events_ask_for_the_action_of_their_id(
    id: &str,
    r: Option<CtxAction>,
    action: CtxAction,
    own: &'static str,
)
    requires
        call_ensures(handle_menu_event, (id,), r),
        call_ensures(CtxAction::id, (action,), own),
    ensures
        r == Some(action) <==> id@ == own@,
{
    law_ids_lead_back(action);
    match r {
        Some(a) => {
            law_ids_lead_back(a);
        },
        None => {},
    }
}

/// The status of a path is that of the last entry for it, and a path that no entry is for has
/// none.
pub proof fn law_last_entry_of_a_path_counts(
    es: &Vec<(Option<String>, u32)>,
    r: StringHashMap<u32>,
    path: Seq<char>,
    k: int,
)
    requires
        call_ensures(status_map, (es,), r),
    ensures
        (forall|j: int| 0 <= j < es@.len() ==> opt_text((#[trigger] es@[j]).0) != Some(path))
            ==> !r@.contains_key(path),
        0 <= k < es@.len() && opt_text(es@[k].0) == Some(path) && (forall|j: int|
            k < j < es@.len() ==> opt_text((#[trigger] es@[j]).0) != Some(path))
            ==> r@.contains_key(path) && r@[path] == es@[k].1,
{
    lemma_status_of_path(es@, path, k);
}

/// The status of a path, by the entries.
proof fn lemma_status_of_path(es: Seq<(Option<String>, u32)>, path: Seq<char>, k: int)
    ensures
        (forall|j: int| 0 <= j < es.len() ==> opt_text((#[trigger] es[j]).0) != Some(path))
            ==> !statuses_by_path(es).contains_key(path),
        0 <= k < es.len() && opt_text(es[k].0) == Some(path) && (forall|j: int|
            k < j < es.len() ==> opt_text((#[trigger] es[j]).0) != Some(path)) ==> statuses_by_path(
            es,
        ).contains_key(path) && statuses_by_path(es)[path] == es[k].1,
    decreases es.len(),
{
    if es.len() > 0 {
        let t = es.drop_last();
        lemma_status_of_path(t, path, k);
        assert(es[es.len() - 1] == es.last());
        assert forall|j: int| 0 <= j < t.len() implies #[trigger] t[j] == es[j] by {}
        if forall|j: int| 0 <= j < es.len() ==> opt_text((#[trigger] es[j]).0) != Some(path) {
            assert forall|j: int| 0 <= j < t.len() implies opt_text((#[trigger] t[j]).0) != Some(
                path,
            ) by {
                assert(t[j] == es[j]);
            }
            assert(opt_text(es[es.len() - 1].0) != Some(path));
        }
        if 0 <= k < t.len() && opt_text(es[k].0) == Some(path) && (forall|j: int|
            k < j < es.len() ==> opt_text((#[trigger] es[j]).0) != Some(path)) {
            assert(t[k] == es[k]);
            assert forall|j: int| k < j < t.len() implies opt_text((#[trigger] t[j]).0) != Some(
                path,
            ) by {
                assert(t[j] == es[j]);
            }
            assert(opt_text(es[es.len() - 1].0) != Some(path));
        }
    }
}

/// A selected path stays in the selection exactly where it has a status, and in its place.
pub proof fn law_selection_keeps_what_has_a_status(
    paths: Seq<Seq<char>>,
    path: Seq<char>,
    statuses: Map<Seq<char>, u32>,
)
    ensures
        with_status(Seq::empty(), statuses).len() == 0,
        statuses.contains_key(path) ==> with_status(paths.push(path), statuses) == with_status(
            paths,
            statuses,
        ).push(path),
        !statuses.contains_key(path) ==> with_status(paths.push(path), statuses) == with_status(
            paths,
            statuses,
        ),
{
    assert(paths.push(path).drop_last() =~= paths);
}

/// Which paths are left of a selection.
proof fn lemma_with_status(paths: Seq<Seq<char>>, statuses: Map<Seq<char>, u32>, path: Seq<char>)
    ensures
        with_status(paths, statuses).contains(path) <==> paths.contains(path)
            && statuses.contains_key(path),
    decreases paths.len(),
{
    if paths.len() > 0 {
        let t = paths.drop_last();
        let (before, now) = (with_status(t, statuses), with_status(paths, statuses));
        lemma_with_status(t, statuses, path);
        assert(paths =~= t.push(paths.last()));
        if paths.contains(path) && path != paths.last() {
            let k = choose|k: int| 0 <= k < paths.len() && paths[k] == path;
            assert(t[k] == path);
        }
        if t.contains(path) {
            let k = choose|k: int| 0 <= k < t.len() && t[k] == path;
            assert(paths[k] == path);
        }
        if path == paths.last() {
            assert(paths[paths.len() - 1] == path);
        }
        if before.contains(path) {
            let k = choose|k: int| 0 <= k < before.len() && before[k] == path;
            assert(now[k] == path);
        }
        if now.contains(path) {
            let k = choose|k: int| 0 <= k < now.len() && now[k] == path;
            if k < before.len() {
                assert(before[k] == path);
            }
        }
        if path == paths.last() && statuses.contains_key(path) {
            assert(now[before.len() as int] == path);
        }
    }
}

/// What is known of a selection: there is something tracked in it exactly where some path left in
/// it does not have the bit of a new file of the working tree, and it is untracked as a whole
/// exactly where it is not empty and every path left in it has that bit.
pub proof fn law_selection_is_told_by_the_status_bits(
    statuses: &StringHashMap<u32>,
    candidates: &Vec<String>,
    staged: bool,
    r: Derived,
    path: Seq<char>,
)
    requires
        call_ensures(derive_selection, (statuses, candidates, staged), r),
    ensures
        texts(r.paths@).contains(path) <==> texts(candidates@).contains(path)
            && statuses@.contains_key(path),
        r.staged == staged,
        r.any_tracked <==> exists|i: int|
            0 <= i < r.paths@.len() && statuses@[#[trigger] texts(r.paths@)[i]] & 0x80 == 0,
        r.all_untracked <==> r.paths@.len() > 0 && forall|i: int|
            0 <= i < r.paths@.len() ==> statuses@[#[trigger] texts(r.paths@)[i]] & 0x80 != 0,
{
    let (all, left) = (texts(candidates@), texts(r.paths@));
    lemma_with_status(all, statuses@, path);
    assert(left.len() == r.paths@.len());
    assert(all.len() == candidates@.len());
    if r.any_tracked {
        let i = choose|i: int| 0 <= i < all.len() && is_tracked(#[trigger] all[i], statuses@);
        lemma_with_status(all, statuses@, all[i]);
        assert(left.contains(all[i]));
        let k = choose|k: int| 0 <= k < left.len() && left[k] == all[i];
        assert(statuses@[left[k]] & 0x80 == 0);
    }
    if exists|i: int| 0 <= i < left.len() && statuses@[#[trigger] left[i]] & 0x80 == 0 {
        let i = choose|i: int| 0 <= i < left.len() && statuses@[#[trigger] left[i]] & 0x80 == 0;
        lemma_with_status(all, statuses@, left[i]);
        assert(left.contains(left[i]));
        let k = choose|k: int| 0 <= k < all.len() && all[k] == left[i];
        assert(is_tracked(all[k], statuses@));
    }
}

/// A path is offered exactly where it is safe, and in its place.
pub proof fn law_unsafe_paths_are_left_out(paths: Seq<Seq<char>>, path: Seq<char>, windows: bool)
    ensures
        safe_paths(Seq::empty(), windows).len() == 0,
        path_refusal(path, windows) is None ==> safe_paths(paths.push(path), windows) == safe_paths(
            paths,
            windows,
        ).push(path),
        path_refusal(path, windows) is Some ==> safe_paths(paths.push(path), windows) == safe_paths(
            paths,
            windows,
        ),
{
    assert(paths.push(path).drop_last() =~= paths);
}

/// A single file is called by its name in quotes, several by their number.
pub proof fn law_selections_are_named(paths: &Vec<String>, r: String)
    requires
        call_ensures(selection_label, (paths,), r),
    ensures
        paths@.len() == 1 ==> (file_name(paths@[0]@) matches Some(n) ==> r@ == "\""@ + n + "\""@),
        paths@.len() == 1 && file_name(paths@[0]@) is None ==> r@ == "\""@ + paths@[0]@ + "\""@,
        paths@.len() != 1 ==> r@ == decimal(paths@.len()) + " files"@,
{
    assert(texts(paths@).len() == paths@.len());
    if paths@.len() == 1 {
        assert(texts(paths@)[0] == paths@[0]@);
    }
}

/// What the menu offers: a single file can always be opened and shown. Staged files can be
/// unstaged and nothing else. Unstaged files can be staged and ignored; some of them discarded
/// where one is tracked, and all of them trashed where none is.
pub proof fn law_menu_offers_what_can_be_done(derived: &Derived, r: Vec<MenuEntry>)
    requires
        call_ensures(build_menu, (derived,), r),
    ensures
        ({
            let m = entry_texts(r@);
            let label = label_text(texts(derived.paths@));
            let single = derived.paths@.len() == 1;
            let s = derived.staged;
            &&& m.contains(EntryText::Item(CtxAction::Unstage, "Unstage "@ + label)) <==> s
            &&& m.contains(EntryText::Item(CtxAction::Stage, "Stage "@ + label)) <==> !s
            &&& m.contains(EntryText::Item(CtxAction::Ignore, "Ignore "@ + label)) <==> !s
            &&& m.contains(
                EntryText::Item(CtxAction::Discard, "Discard changes to "@ + label + "…"@),
            ) <==> !s && derived.any_tracked
            &&& m.contains(EntryText::Item(CtxAction::Open, "Open "@ + label)) <==> single
            &&& m.contains(
                EntryText::Item(CtxAction::Reveal, "Reveal "@ + label + " in Finder"@),
            ) <==> single
            &&& m.contains(
                EntryText::Item(CtxAction::Trash, "Move "@ + label + " to Trash"@),
            ) <==> !s && derived.all_untracked
            &&& m.contains(EntryText::Separator) <==> single || (!s && derived.all_untracked)
        }),
{
    let m = entry_texts(r@);
    let label = label_text(texts(derived.paths@));
    let single = derived.paths@.len() == 1;
    if derived.staged {
        assert(m[0] == EntryText::Item(CtxAction::Unstage, "Unstage "@ + label));
        if single {
            assert(m[1] == EntryText::Separator);
            assert(m[2] == EntryText::Item(CtxAction::Open, "Open "@ + label));
            assert(m[3] == EntryText::Item(CtxAction::Reveal, "Reveal "@ + label + " in Finder"@));
        }
    } else {
        assert(m[0] == EntryText::Item(CtxAction::Stage, "Stage "@ + label));
        assert(m[1] == EntryText::Item(CtxAction::Ignore, "Ignore "@ + label));
        let k: int = if derived.any_tracked {
            3
        } else {
            2
        };
        if derived.any_tracked {
            assert(m[2] == EntryText::Item(
                CtxAction::Discard,
                "Discard changes to "@ + label + "…"@,
            ));
        }
        if single || derived.all_untracked {
            assert(m[k] == EntryText::Separator);
        }
        if single {
            assert(m[k + 1] == EntryText::Item(CtxAction::Open, "Open "@ + label));
            assert(m[k + 2] == EntryText::Item(
                CtxAction::Reveal,
                "Reveal "@ + label + " in Finder"@,
            ));
        }
        if derived.all_untracked {
            assert(m[m.len() - 1] == EntryText::Item(
                CtxAction::Trash,
                "Move "@ + label + " to Trash"@,
            ));
        }
    }
}

/// Where an action stands in the menu.
pub open spec fn menu_rank(e: EntryText) -> int {
    match e {
        EntryText::Item(a, _) => match a {
            CtxAction::Stage | CtxAction::Unstage => 0,
            CtxAction::Ignore => 1,
            CtxAction::Discard => 2,
            CtxAction::Open => 4,
            CtxAction::Reveal => 5,
            CtxAction::Trash => 6,
        },
        EntryText::Separator => 3,
    }
}

/// The order of the menu: the changes to the index first, then ignoring and discarding, then a
/// separator, then opening and showing, and the trash last. Nothing is offered twice.
pub proof fn law_menu_is_in_order(derived: &Derived, r: Vec<MenuEntry>, i: int, j: int)
    requires
        call_ensures(build_menu, (derived,), r),
        0 <= i < j < r@.len(),
    ensures
        menu_rank(r@[i]@) < menu_rank(r@[j]@),
{
    let m = entry_texts(r@);
    assert(m.len() == r@.len());
    assert(m[i] == r@[i]@ && m[j] == r@[j]@);
}

/// The pattern for a path is the path itself where no character of it has a meaning of its own
/// and no white space stands at its end.
pub proof fn law_plain_paths_are_not_escaped(s: Seq<char>)
    requires
        forall|i: int|
            0 <= i < s.len() ==> #[trigger] s[i] != '*' && s[i] != '?' && s[i] != '[' && s[i] != ']'
                && s[i] != '!' && s[i] != '#' && s[i] != '\\',
        s.len() > 0 ==> s.last() != ' ' && s.last() != '\t',
    ensures
        pattern(s) == s,
    decreases s.len(),
{
    if s.len() > 0 {
        let t = s.drop_first();
        assert forall|i: int| 0 <= i < t.len() implies #[trigger] t[i] != '*' && t[i] != '?' && t[i]
            != '[' && t[i] != ']' && t[i] != '!' && t[i] != '#' && t[i] != '\\' by {
            assert(t[i] == s[i + 1]);
        }
        if t.len() > 0 {
            assert(t.last() == s.last());
        }
        law_plain_paths_are_not_escaped(t);
        assert(!is_blank(s[s.len() - 1]));
        assert(!all_blank(s));
        assert(s =~= seq![s[0]] + t);
    }
}

/// Ignoring one more path adds one more line, anchored and escaped, unless that line is in the
/// file or was added for an earlier path. The first line that is added starts on a line of its
/// own.
pub proof fn law_each_ignored_path_gets_its_line(
    existing: Seq<char>,
    paths: Seq<Seq<char>>,
    path: Seq<char>,
)
    ensures
        ({
            let line = "/"@ + pattern(path);
            let before = ignored_content(existing, paths);
            let after = ignored_content(existing, paths.push(path));
            let there = lines(existing).contains(line) || exists|j: int|
                0 <= j < paths.len() && "/"@ + pattern(#[trigger] paths[j]) == line;
            &&& there ==> after == before
            &&& !there && before is Some ==> after == Some(before->0 + line + "\n"@)
            &&& !there && before is None && (existing.len() == 0 || existing.last() == '\n')
                ==> after == Some(existing + line + "\n"@)
            &&& !there && before is None && existing.len() > 0 && existing.last() != '\n'
                ==> after == Some(existing + "\n"@ + line + "\n"@)
        }),
        ignored_content(existing, Seq::empty()) is None,
{
    reveal_strlit("\n");
    let present = lines(existing);
    let all = paths.push(path);
    assert(all.drop_last() =~= paths);
    let line = "/"@ + pattern(path);
    let add = lines_to_add(present, paths);
    let more = lines_to_add(present, all);
    if add.contains(line) {
        let k = choose|k: int| 0 <= k < add.len() && add[k] == line;
        lemma_added_lines(present, paths, k);
    }
    if exists|j: int| 0 <= j < paths.len() && "/"@ + pattern(#[trigger] paths[j]) == line {
        let j = choose|j: int| 0 <= j < paths.len() && "/"@ + pattern(#[trigger] paths[j]) == line;
        lemma_line_is_covered(present, paths, j);
    }
    if more.len() > add.len() {
        assert(more.drop_last() =~= add);
        assert(ended(more) =~= ended(add) + line + "\n"@);
        if add.len() == 0 {
            assert(ended(add) =~= Seq::empty());
            if existing.len() > 0 && existing.last() != '\n' {
                assert(closed(existing) + ended(more) =~= existing + "\n"@ + line + "\n"@);
            } else {
                assert(closed(existing) + ended(more) =~= existing + line + "\n"@);
            }
        } else {
            assert(closed(existing) + ended(more) =~= (closed(existing) + ended(add)) + line
                + "\n"@);
        }
    }
}

/// What a click comes to: nothing without a selection or on an item that is not for its panel. A
/// discard is asked about, opening and showing are for the paths of the selection, and the rest is
/// done at once.
pub proof fn law_clicks_start_their_action(
    pending: &Option<PendingCtxMenu>,
    action: CtxAction,
    r: ActionStart,
)
    requires
        call_ensures(start_action, (pending, action), r),
    ensures
        *pending is None ==> r is Nothing,
        *pending matches Some(p) ==> {
            let fits = if p.staged {
                action is Unstage || action is Open || action is Reveal
            } else {
                !(action is Unstage)
            };
            &&& r is Nothing <==> p.paths@.len() == 0 || !fits
            &&& p.paths@.len() > 0 && fits ==> {
                &&& r is Confirm <==> action is Discard
                &&& r is Show <==> action is Open || action is Reveal
                &&& r matches ActionStart::Show(ps) ==> texts(ps@) == texts(p.paths@)
                &&& r matches ActionStart::Confirm(m) ==> m@ == "Discard changes to "@ + label_text(
                    texts(p.paths@),
                ) + "? This cannot be undone."@
            }
        },
{
    let v = r@;
}

/// What an action does: staging, unstaging and the trash take every path of the selection in its
/// order, ignoring takes all of them at once. The index is what is refreshed after staging and
/// unstaging, and the files after the rest. Without a working tree nothing is ignored or trashed.
pub proof fn law_actions_take_the_whole_selection(
    action: CtxAction,
    paths: &Vec<String>,
    statuses: &StringHashMap<u32>,
    workdir: Option<&str>,
    r: AppResult<(Vec<ActionStep>, Reason)>,
    k: int,
)
    requires
        call_ensures(run_action, (action, paths, statuses, workdir), r),
        !(action is Open),
        !(action is Reveal),
        0 <= k < paths@.len(),
    ensures
        r is Err <==> workdir is None && (action is Ignore || action is Trash),
        r matches Ok(done) ==> {
            let steps = done.0@;
            &&& done.1 == (if action is Stage || action is Unstage {
                Reason::Index
            } else {
                Reason::Fs
            })
            &&& action is Stage || action is Unstage || action is Trash ==> steps.len()
                == paths@.len()
            &&& action is Stage ==> steps[k]@ == ActionStepView::Stage(paths@[k]@)
            &&& action is Unstage ==> steps[k]@ == ActionStepView::Unstage(paths@[k]@)
            &&& action is Trash ==> steps[k]@ == ActionStepView::Trash(
                paths@[k]@,
                under(workdir->0@, paths@[k]@),
            )
            &&& action is Ignore ==> steps.len() == 1 && steps[0]@ == ActionStepView::Ignore(
                workdir->0@,
                texts(paths@),
            )
        },
{
    let all = texts(paths@);
    assert(all.len() == paths@.len());
    assert(all[k] == paths@[k]@);
    if let Ok(done) = r {
        let steps = done.0@;
        let views = action_steps(steps);
        assert(views.len() == steps.len());
        if steps.len() > k {
            assert(views[k] == steps[k]@);
        }
        if steps.len() > 0 {
            assert(views[0] == steps[0]@);
        }
    }
}

/// Discarding from the menu reaches every tracked file of the selection, in its order: one more
/// path is one more step exactly where the path has a status without the bit of a new file of the
/// working tree.
pub proof fn law_menu_discards_every_tracked_file(
    paths: Seq<Seq<char>>,
    path: Seq<char>,
    statuses: Map<Seq<char>, u32>,
    workdir: Option<Seq<char>>,
)
    ensures
        ({
            let before = planned(CtxAction::Discard, paths, statuses, workdir);
            let after = planned(CtxAction::Discard, paths.push(path), statuses, workdir);
            &&& before is Ok && after is Ok
            &&& if statuses.contains_key(path) && statuses[path] & 0x80 == 0 {
                after->Ok_0.0 == before->Ok_0.0.push(ActionStepView::Discard(path))
            } else {
                after->Ok_0.0 == before->Ok_0.0
            }
        }),
        planned(CtxAction::Discard, Seq::empty(), statuses, workdir) matches Ok(p) && p.0.len()
            == 0,
{
    let f = |p: Seq<char>| ActionStepView::Discard(p);
    assert(paths.push(path).drop_last() =~= paths);
    let before = tracked_paths(paths, statuses);
    let after = tracked_paths(paths.push(path), statuses);
    if is_tracked(path, statuses) {
        assert(after.map_values(f) =~= before.map_values(f).push(ActionStepView::Discard(path)));
    }
}

/// Each path of a selection is looked for below the repository.
pub proof fn law_selected_files_are_below_the_repository(
    repo_path: &str,
    paths: &Vec<String>,
    r: Vec<String>,
    k: int,
)
    requires
        call_ensures(full_paths, (repo_path, paths), r),
    ensures
        r@.len() == paths@.len(),
        0 <= k < paths@.len() ==> r@[k]@ == under(repo_path@, paths@[k]@),
{
    let out = texts(r@);
    assert(out.len() == r@.len());
    assert(texts(paths@).len() == paths@.len());
    if 0 <= k < paths@.len() {
        assert(out[k] == r@[k]@);
        assert(texts(paths@)[k] == paths@[k]@);
    }
}

/// A file that cannot be trashed is named, with the reason.
pub proof fn law_failed_trash_names_the_file(path: &str, reason: &str, r: AppError)
    requires
        call_ensures(trash_failed, (path, reason), r),
    ensures
        r@.0 is Io,
        r@.1 == "Failed to trash '"@ + path@ + "': "@ + reason@,
{
}

/// White space at the end of a path is escaped, blank by blank: taken from the end, each space or
/// tab stands behind a backslash in the pattern, as long as nothing else follows it.
pub proof fn law_trailing_blanks_are_escaped(s: Seq<char>, c: char)
    requires
        c == ' ' || c == '\t',
    ensures
        pattern(s.push(c)).len() >= 2,
        pattern(s.push(c)).last() == c,
        pattern(s.push(c))[pattern(s.push(c)).len() - 2] == '\\',
    decreases s.len(),
{
    let t = s.push(c);
    let p = pattern(t);
    if s.len() == 0 {
        assert(t.drop_first() =~= Seq::<char>::empty());
        assert(pattern(t.drop_first()) =~= Seq::<char>::empty());
        assert(is_blank(t[0]));
        assert(all_blank(t));
        assert(p =~= seq!['\\', c]);
    } else {
        let rest = s.drop_first();
        assert(t.drop_first() =~= rest.push(c));
        law_trailing_blanks_are_escaped(rest, c);
        let q = pattern(rest.push(c));
        assert(p.last() == q.last());
        assert(p[p.len() - 2] == q[q.len() - 2]);
    }
}

/// Each character with a meaning of its own stands behind a backslash in the pattern, and each
/// other one that is not part of the white space at the end stands as it is.
pub proof fn law_pattern_is_made_character_by_character(c: char, rest: Seq<char>)
    ensures
        c == '*' || c == '?' || c == '[' || c == ']' || c == '!' || c == '#' || c == '\\' ==> pattern(
            seq![c] + rest,
        ) == seq!['\\', c] + pattern(rest),
        c != '*' && c != '?' && c != '[' && c != ']' && c != '!' && c != '#' && c != '\\' && c != ' '
            && c != '\t' ==> pattern(seq![c] + rest) == seq![c] + pattern(rest),
        (exists|k: int| 0 <= k < rest.len() && #[trigger] rest[k] != ' ' && rest[k] != '\t') && (c
            == ' ' || c == '\t') ==> pattern(seq![c] + rest) == seq![c] + pattern(rest),
        pattern(Seq::empty()).len() == 0,
{
    let s = seq![c] + rest;
    assert(s.drop_first() =~= rest);
    assert(s[0] == c);
    if all_blank(s) {
        assert(is_blank(s[0]));
        assert forall|k: int| 0 <= k < rest.len() implies #[trigger] rest[k] == ' ' || rest[k]
            == '\t' by {
            assert(is_blank(s[k + 1]));
        }
    }
}

/// Without a working tree nothing can be ignored or trashed, and that is said.
pub proof fn law_no_working_tree_is_told(
    action: CtxAction,
    paths: &Vec<String>,
    statuses: &StringHashMap<u32>,
    r: AppResult<(Vec<ActionStep>, Reason)>,
)
    requires
        call_ensures(run_action, (action, paths, statuses, None), r),
        action is Ignore || action is Trash,
    ensures
        r matches Err(e) && e@.0 is Validation && e@.1 == "Repository has no working tree"@,
{
}

} // verus!

//! What the application remembers: which window shows which repository.

use crate::error::{outcome, AppError, AppResult, ErrorKind, ErrorView};
use crate::seqs::{first_where, lemma_first_is, lemma_first_none, lemma_first_where};
use crate::text::{
    lemma_text_lt_irreflexive, lemma_text_lt_total, lemma_text_lt_transitive, opt_text, owned,
    same_text, text_before, text_lt, texts,
};
use vstd::prelude::*;

verus! {

/// The selection behind the file context menu that was raised last: the menu's item ids are
/// fixed, and the paths they act on are looked up here when one is clicked.
#[derive(Debug, Clone)]
pub struct PendingCtxMenu {
    /// The paths that the menu acts on.
    pub paths: Vec<String>,
    /// Whether the selection came from the staged files.
    pub staged: bool,
    /// The label of the window that the menu was raised from.
    pub window: String,
}

/// The repository bound to a window.
#[derive(Debug, Clone)]
pub struct WindowRepo {
    pub repo_path: String,
}

/// The state of the application. Each window shows a repository of its own; only the path is
/// remembered, and the repository is opened anew for each command.
pub struct AppState {
    /// The repositories bound to windows, by window label.
    pub windows: Vec<(String, WindowRepo)>,
    /// The selection behind the file context menu.
    pub pending_ctx_menu: Option<PendingCtxMenu>,
    /// The repository that was bound last.
    pub last_opened: Option<String>,
    /// Whether the application is quitting.
    pub exiting: bool,
}

/// The predicate "is the binding of this window".
pub open spec fn is_for(label: Seq<char>) -> spec_fn((String, WindowRepo)) -> bool {
    |w: (String, WindowRepo)| w.0@ == label
}

/// The repositories of some bindings, by window label.
pub open spec fn bindings_of(ws: Seq<(String, WindowRepo)>) -> Map<Seq<char>, Seq<char>>
    decreases ws.len(),
{
    if ws.len() == 0 {
        Map::empty()
    } else {
        bindings_of(ws.drop_last()).insert(ws.last().0@, ws.last().1.repo_path@)
    }
}

/// No two bindings are for one window.
pub open spec fn labels_differ(ws: Seq<(String, WindowRepo)>) -> bool {
    forall|i: int, j: int| 0 <= i < j < ws.len() ==> (#[trigger] ws[i]).0@ != (#[trigger] ws[j]).0@
}

impl AppState {
    /// The repository of each window that has one.
    pub open spec fn bindings(&self) -> Map<Seq<char>, Seq<char>> {
        bindings_of(self.windows@)
    }

    /// The state is well formed: each window has at most one repository.
    pub open spec fn wf(&self) -> bool {
        labels_differ(self.windows@)
    }
}

/// What the bindings say of one window.
pub proof fn lemma_bindings(ws: Seq<(String, WindowRepo)>, label: Seq<char>)
    requires
        labels_differ(ws),
    ensures
        match first_where(ws, is_for(label)) {
            Some(i) => bindings_of(ws).contains_key(label) && bindings_of(ws)[label]
                == ws[i].1.repo_path@,
            None => !bindings_of(ws).contains_key(label),
        },
    decreases ws.len(),
{
    lemma_first_where(ws, is_for(label));
    if ws.len() > 0 {
        let t = ws.drop_last();
        assert forall|i: int, j: int| 0 <= i < j < t.len() implies (#[trigger] t[i]).0@ != (
        #[trigger] t[j]).0@ by {
            assert(t[i] == ws[i] && t[j] == ws[j]);
        }
        lemma_bindings(t, label);
        lemma_first_where(t, is_for(label));
        if ws.last().0@ == label {
            if let Some(i) = first_where(t, is_for(label)) {
                assert(t[i] == ws[i]);
                assert(ws[i].0@ != ws[ws.len() - 1].0@);
            }
        }
    }
}

/// The binding at a position is what the bindings say of its window.
pub proof fn lemma_binding_at(ws: Seq<(String, WindowRepo)>, i: int)
    requires
        labels_differ(ws),
        0 <= i < ws.len(),
    ensures
        bindings_of(ws).contains_key(ws[i].0@),
        bindings_of(ws)[ws[i].0@] == ws[i].1.repo_path@,
{
    let p = is_for(ws[i].0@);
    assert forall|j: int| 0 <= j < i implies !p(#[trigger] ws[j]) by {
        assert(ws[j].0@ != ws[i].0@);
    }
    lemma_first_is(ws, p, i);
    lemma_bindings(ws, ws[i].0@);
}

/// Replacing the repository of a bound window.
proof fn lemma_rebind(ws: Seq<(String, WindowRepo)>, i: int, w: (String, WindowRepo))
    requires
        labels_differ(ws),
        0 <= i < ws.len(),
        w.0@ == ws[i].0@,
    ensures
        labels_differ(ws.update(i, w)),
        bindings_of(ws.update(i, w)) == bindings_of(ws).insert(w.0@, w.1.repo_path@),
{
    let n = ws.update(i, w);
    assert forall|a: int, b: int| 0 <= a < b < n.len() implies (#[trigger] n[a]).0@ != (
    #[trigger] n[b]).0@ by {
        assert(ws[a].0@ != ws[b].0@);
    }
    let (m1, m2) = (bindings_of(n), bindings_of(ws).insert(w.0@, w.1.repo_path@));
    assert forall|k: Seq<char>| #[trigger] m1.contains_key(k) == m2.contains_key(k) && (
    m1.contains_key(k) ==> m1[k] == m2[k]) by {
        lemma_bindings(n, k);
        lemma_bindings(ws, k);
        lemma_first_where(n, is_for(k));
        lemma_first_where(ws, is_for(k));
        let p = is_for(k);
        match first_where(ws, p) {
            Some(j) => {
                assert forall|x: int| 0 <= x < j implies !p(#[trigger] n[x]) by {
                    assert(!p(ws[x]));
                }
                lemma_first_is(n, p, j);
            },
            None => {
                assert(!p(ws[i]));
                assert forall|x: int| 0 <= x < n.len() implies !p(#[trigger] n[x]) by {
                    assert(!p(ws[x]));
                }
                lemma_first_none(n, p);
            },
        }
    }
    assert(m1 =~= m2);
}

/// Dropping the binding of a window.
proof fn lemma_remove_window(ws: Seq<(String, WindowRepo)>, i: int)
    requires
        labels_differ(ws),
        0 <= i < ws.len(),
    ensures
        labels_differ(ws.remove(i)),
        bindings_of(ws.remove(i)) == bindings_of(ws).remove(ws[i].0@),
{
    let n = ws.remove(i);
    let label = ws[i].0@;
    assert forall|a: int, b: int| 0 <= a < b < n.len() implies (#[trigger] n[a]).0@ != (
    #[trigger] n[b]).0@ by {
        let x = if a < i {
            a
        } else {
            a + 1
        };
        let y = if b < i {
            b
        } else {
            b + 1
        };
        assert(ws[x].0@ != ws[y].0@);
    }
    let (m1, m2) = (bindings_of(n), bindings_of(ws).remove(label));
    assert forall|k: Seq<char>| #[trigger] m1.contains_key(k) == m2.contains_key(k) && (
    m1.contains_key(k) ==> m1[k] == m2[k]) by {
        lemma_bindings(n, k);
        lemma_bindings(ws, k);
        lemma_first_where(n, is_for(k));
        lemma_first_where(ws, is_for(k));
        let p = is_for(k);
        match first_where(n, p) {
            Some(j) => {
                let x = if j < i {
                    j
                } else {
                    j + 1
                };
                assert(ws[x] == n[j]);
                lemma_binding_at(ws, x);
                if x < i {
                    assert(ws[x].0@ != ws[i].0@);
                } else {
                    assert(ws[i].0@ != ws[x].0@);
                }
            },
            None => {
                if let Some(x) = first_where(ws, p) {
                    if x < i {
                        assert(n[x] == ws[x]);
                    } else if x > i {
                        assert(n[x - 1] == ws[x]);
                    }
                    assert(x == i);
                }
            },
        }
    }
    assert(m1 =~= m2);
}

impl Default for AppState {
    /// No window has a repository.
    fn default() -> (r: Self)
        ensures
            r.wf(),
            r.bindings() == Map::<Seq<char>, Seq<char>>::empty(),
            r.pending_ctx_menu is None,
            r.last_opened is None,
            !r.exiting,
    {
        AppState {
            windows: Vec::new(),
            pending_ctx_menu: None,
            last_opened: None,
            exiting: false,
        }
    }
}

impl AppState {
    /// No window has a repository.
    pub fn new() -> (r: Self)
        ensures
            r.wf(),
            r.bindings() == Map::<Seq<char>, Seq<char>>::empty(),
            r.pending_ctx_menu is None,
            r.last_opened is None,
            !r.exiting,
    {
        Self::default()
    }

    /// The position of the binding of a window.
    fn find(&self, label: &str) -> (r: Option<usize>)
        ensures
            match r {
                Some(i) => i < self.windows@.len() && first_where(self.windows@, is_for(label@))
                    == Some(i as int),
                None => first_where(self.windows@, is_for(label@)) is None,
            },
    {
        let ghost p = is_for(label@);
        let mut i: usize = 0;
        while i < self.windows.len()
            invariant
                0 <= i <= self.windows@.len(),
                p == is_for(label@),
                forall|j: int| 0 <= j < i ==> !p(#[trigger] self.windows@[j]),
            decreases self.windows@.len() - i,
        {
            if same_text(self.windows[i].0.as_str(), label) {
                proof {
                    lemma_first_is(self.windows@, p, i as int);
                }
                return Some(i);
            }
            i += 1;
        }
        proof {
            lemma_first_none(self.windows@, p);
        }
        None
    }

    /// Binds a repository to a window, in place of the one that was bound to it. It becomes the
    /// one that was opened last.
    pub fn bind(&mut self, label: &str, repo_path: &str)
        requires
            old(self).wf(),
        ensures
            final(self).wf(),
            final(self).bindings() == old(self).bindings().insert(label@, repo_path@),
            opt_text(final(self).last_opened) == Some(repo_path@),
            final(self).pending_ctx_menu == old(self).pending_ctx_menu,
            final(self).exiting == old(self).exiting,
    {
        let w = (owned(label), WindowRepo { repo_path: owned(repo_path) });
        let ghost before = self.windows@;
        match self.find(label) {
            Some(i) => {
                proof {
                    lemma_first_where(before, is_for(label@));
                    lemma_rebind(before, i as int, w);
                }
                self.windows.set(i, w);
            },
            None => {
                proof {
                    lemma_first_where(before, is_for(label@));
                    let p = is_for(label@);
                    let n = before.push(w);
                    assert forall|a: int, b: int| 0 <= a < b < n.len() implies (
                    #[trigger] n[a]).0@ != (#[trigger] n[b]).0@ by {
                        assert(!p(before[a]));
                    }
                    assert(n.drop_last() =~= before);
                }
                self.windows.push(w);
            },
        }
        self.last_opened = Some(owned(repo_path));
    }

    /// Drops the binding of a window, and tells whether there was one.
    pub fn remove_window(&mut self, label: &str) -> (r: bool)
        requires
            old(self).wf(),
        ensures
            final(self).wf(),
            r == old(self).bindings().contains_key(label@),
            final(self).bindings() == old(self).bindings().remove(label@),
            final(self).last_opened == old(self).last_opened,
            final(self).pending_ctx_menu == old(self).pending_ctx_menu,
            final(self).exiting == old(self).exiting,
    {
        let ghost before = self.windows@;
        proof {
            lemma_bindings(before, label@);
            lemma_first_where(before, is_for(label@));
        }
        match self.find(label) {
            Some(i) => {
                proof {
                    lemma_remove_window(before, i as int);
                }
                let _dropped = self.windows.remove(i);
                true
            },
            None => {
                assert(bindings_of(before).remove(label@) =~= bindings_of(before));
                false
            },
        }
    }

    /// The repository bound to a window.
    pub fn window_repo_path(&self, label: &str) -> (r: AppResult<String>)
        requires
            self.wf(),
        ensures
            outcome(r) == if self.bindings().contains_key(label@) {
                Ok::<Seq<char>, ErrorView>(self.bindings()[label@])
            } else {
                Err((ErrorKind::NoRepoOpen, "No repository open"@))
            },
    {
        proof {
            lemma_bindings(self.windows@, label@);
        }
        match self.find(label) {
            Some(i) => Ok(self.windows[i].1.repo_path.clone()),
            None => Err(AppError::no_repo_open()),
        }
    }

    /// Binds a repository to a window that is still there. A window that was closed in the
    /// meantime gets no binding.
    pub fn set_window_repo(&mut self, label: &str, repo_path: &str, window_is_open: bool) -> (r:
        AppResult<()>)
        requires
            old(self).wf(),
        ensures
            final(self).wf(),
            final(self).pending_ctx_menu == old(self).pending_ctx_menu,
            final(self).exiting == old(self).exiting,
            window_is_open ==> outcome(r) == Ok::<(), ErrorView>(()) && final(self).bindings()
                == old(self).bindings().insert(label@, repo_path@) && opt_text(
                final(self).last_opened,
            ) == Some(repo_path@),
            !window_is_open ==> outcome(r) == Err::<(), ErrorView>(
                (ErrorKind::WindowClosed, "window closed"@),
            ) && final(self).bindings() == old(self).bindings() && final(self).last_opened == old(
                self,
            ).last_opened,
    {
        if !window_is_open {
            return Err(AppError::window_closed());
        }
        self.bind(label, repo_path);
        Ok(())
    }

    /// The application starts to quit.
    pub fn exit_requested(&mut self)
        ensures
            final(self).exiting,
            final(self).windows == old(self).windows,
            final(self).last_opened == old(self).last_opened,
            final(self).pending_ctx_menu == old(self).pending_ctx_menu,
    {
        self.exiting = true;
    }

    /// A window is gone. Tells whether the set of open repositories is to be written anew: not
    /// while the application quits, since every window closes then and the set is what the next
    /// launch restores.
    pub fn window_destroyed(&mut self, label: &str) -> (r: bool)
        requires
            old(self).wf(),
        ensures
            final(self).wf(),
            final(self).exiting == old(self).exiting,
            final(self).last_opened == old(self).last_opened,
            final(self).pending_ctx_menu == old(self).pending_ctx_menu,
            r == (!old(self).exiting && old(self).bindings().contains_key(label@)),
            final(self).bindings() == if old(self).exiting {
                old(self).bindings()
            } else {
                old(self).bindings().remove(label@)
            },
    {
        !self.exiting && self.remove_window(label)
    }

    /// The windows and their repositories.
    pub fn snapshot(&self) -> (r: Vec<(String, String)>)
        ensures
            r@.len() == self.windows@.len(),
            forall|i: int|
                0 <= i < r@.len() ==> (#[trigger] r@[i]).0@ == self.windows@[i].0@ && r@[i].1@
                    == self.windows@[i].1.repo_path@,
    {
        let mut out: Vec<(String, String)> = Vec::new();
        let mut i: usize = 0;
        while i < self.windows.len()
            invariant
                0 <= i <= self.windows@.len(),
                out@.len() == i,
                forall|j: int|
                    0 <= j < i ==> (#[trigger] out@[j]).0@ == self.windows@[j].0@ && out@[j].1@
                        == self.windows@[j].1.repo_path@,
            decreases self.windows@.len() - i,
        {
            out.push((self.windows[i].0.clone(), self.windows[i].1.repo_path.clone()));
            i += 1;
        }
        out
    }

    /// The distinct repositories bound to windows, sorted.
    pub fn collect_open_repos(&self) -> (r: Vec<String>)
        requires
            self.wf(),
        ensures
            strictly_sorted(texts(r@)),
            texts(r@).to_set() == self.bindings().values(),
    {
        let mut out: Vec<String> = Vec::new();
        let mut i: usize = 0;
        let ghost ws = self.windows@;
        assert(texts(out@) =~= Seq::<Seq<char>>::empty());
        while i < self.windows.len()
            invariant
                0 <= i <= ws.len(),
                ws == self.windows@,
                strictly_sorted(texts(out@)),
                forall|p: Seq<char>| #[trigger]
                    texts(out@).contains(p) <==> exists|j: int|
                        0 <= j < i && (#[trigger] ws[j]).1.repo_path@ == p,
            decreases ws.len() - i,
        {
            let ghost before = texts(out@);
            insert_text(&mut out, self.windows[i].1.repo_path.as_str());
            let ghost added = ws[i as int].1.repo_path@;
            assert forall|p: Seq<char>| #[trigger] texts(out@).contains(p) <==> exists|j: int|
                0 <= j < i + 1 && (#[trigger] ws[j]).1.repo_path@ == p by {
                if texts(out@).contains(p) {
                    if before.contains(p) {
                        let j = choose|j: int| 0 <= j < i && (#[trigger] ws[j]).1.repo_path@ == p;
                        assert(ws[j].1.repo_path@ == p);
                    } else {
                        assert(ws[i as int].1.repo_path@ == p);
                    }
                }
                if exists|j: int| 0 <= j < i + 1 && (#[trigger] ws[j]).1.repo_path@ == p {
                    let j = choose|j: int| 0 <= j < i + 1 && (#[trigger] ws[j]).1.repo_path@ == p;
                    if j < i {
                        assert(before.contains(p));
                    }
                }
            }
            i += 1;
        }
        proof {
            let (s, v) = (texts(out@).to_set(), self.bindings().values());
            assert forall|p: Seq<char>| #[trigger] s.contains(p) == v.contains(p) by {
                if s.contains(p) {
                    assert(texts(out@).contains(p));
                    let j = choose|j: int|
                        0 <= j < ws.len() && (#[trigger] ws[j]).1.repo_path@ == p;
                    lemma_binding_at(ws, j);
                    assert(self.bindings().contains_key(ws[j].0@));
                }
                if v.contains(p) {
                    let k = choose|k: Seq<char>|
                        #[trigger] self.bindings().contains_key(k) && self.bindings()[k] == p;
                    lemma_bindings(ws, k);
                    lemma_first_where(ws, is_for(k));
                    let j = first_where(ws, is_for(k))->0;
                    assert(ws[j].1.repo_path@ == p);
                    assert(texts(out@).contains(p));
                }
            }
            assert(s =~= v);
        }
        out
    }
}

/// Texts in order, none twice.
pub open spec fn strictly_sorted(s: Seq<Seq<char>>) -> bool {
    forall|i: int, j: int| 0 <= i < j < s.len() ==> text_lt(#[trigger] s[i], #[trigger] s[j])
}

/// What is kept of the open repositories depends on their set alone: two sorted lists of the same
/// texts, none twice, are the same list.
pub proof fn law_sorted_list_is_determined(a: Seq<Seq<char>>, b: Seq<Seq<char>>)
    requires
        strictly_sorted(a),
        strictly_sorted(b),
        a.to_set() == b.to_set(),
    ensures
        a == b,
    decreases a.len(),
{
    if a.len() == 0 {
        if b.len() > 0 {
            assert(b.to_set().contains(b[0]));
            assert(a.to_set().contains(b[0]));
        }
        assert(a =~= b);
    } else {
        assert(a.to_set().contains(a[a.len() - 1]));
        assert(b.to_set().contains(a.last()));
        let k = choose|k: int| 0 <= k < b.len() && b[k] == a.last();
        assert(b.to_set().contains(b[b.len() - 1]));
        assert(a.to_set().contains(b.last()));
        let m = choose|m: int| 0 <= m < a.len() && a[m] == b.last();
        if k < b.len() - 1 {
            assert(text_lt(b[k], b[b.len() - 1]));
            if m < a.len() - 1 {
                assert(text_lt(a[m], a[a.len() - 1]));
                lemma_text_lt_transitive(a.last(), b.last(), a.last());
            }
            lemma_text_lt_irreflexive(a.last());
        }
        assert(a.last() == b.last());
        let (s, t) = (a.drop_last(), b.drop_last());
        assert forall|i: int, j: int| 0 <= i < j < s.len() implies text_lt(
            #[trigger] s[i],
            #[trigger] s[j],
        ) by {
            assert(s[i] == a[i] && s[j] == a[j]);
        }
        assert forall|i: int, j: int| 0 <= i < j < t.len() implies text_lt(
            #[trigger] t[i],
            #[trigger] t[j],
        ) by {
            assert(t[i] == b[i] && t[j] == b[j]);
        }
        assert forall|p: Seq<char>| #[trigger] s.to_set().contains(p) == t.to_set().contains(p) by {
            if s.to_set().contains(p) {
                let i = choose|i: int| 0 <= i < s.len() && s[i] == p;
                assert(a[i] == p);
                assert(text_lt(a[i], a[a.len() - 1]));
                lemma_text_lt_irreflexive(p);
                assert(a.to_set().contains(p));
                assert(b.to_set().contains(p));
                let j = choose|j: int| 0 <= j < b.len() && b[j] == p;
                assert(j < b.len() - 1);
                assert(t[j] == p);
            }
            if t.to_set().contains(p) {
                let i = choose|i: int| 0 <= i < t.len() && t[i] == p;
                assert(b[i] == p);
                assert(text_lt(b[i], b[b.len() - 1]));
                lemma_text_lt_irreflexive(p);
                assert(b.to_set().contains(p));
                assert(a.to_set().contains(p));
                let j = choose|j: int| 0 <= j < a.len() && a[j] == p;
                assert(j < a.len() - 1);
                assert(s[j] == p);
            }
        }
        assert(s.to_set() =~= t.to_set());
        law_sorted_list_is_determined(s, t);
        assert(a =~= s.push(a.last()));
        assert(b =~= t.push(b.last()));
    }
}

/// Puts a text in its place in a sorted list, unless it is there.
fn insert_text(v: &mut Vec<String>, p: &str)
    requires
        strictly_sorted(texts(old(v)@)),
    ensures
        strictly_sorted(texts(final(v)@)),
        forall|q: Seq<char>| #[trigger]
            texts(final(v)@).contains(q) <==> texts(old(v)@).contains(q) || q == p@,
{
    let ghost before = texts(v@);
    let mut k: usize = 0;
    while k < v.len() && text_before(v[k].as_str(), p)
        invariant
            0 <= k <= v@.len(),
            before == texts(v@),
            forall|j: int| 0 <= j < k ==> text_lt(#[trigger] before[j], p@),
        decreases v@.len() - k,
    {
        assert(before[k as int] == v@[k as int]@);
        k += 1;
    }
    if k < v.len() {
        assert(before[k as int] == v@[k as int]@);
        if same_text(v[k].as_str(), p) {
            assert(before.contains(p@));
            return;
        }
    }
    v.insert(k, owned(p));
    proof {
        let after = texts(v@);
        assert(after =~= before.insert(k as int, p@));
        if k < before.len() {
            lemma_text_lt_total(before[k as int], p@);
        }
        assert forall|i: int, j: int| 0 <= i < j < after.len() implies text_lt(
            #[trigger] after[i],
            #[trigger] after[j],
        ) by {
            if i < k && j == k {
                assert(text_lt(before[i], p@));
            } else if i == k {
                assert(after[j] == before[j - 1]);
                if j - 1 > k {
                    assert(text_lt(before[k as int], before[j - 1]));
                    lemma_text_lt_transitive(p@, before[k as int], before[j - 1]);
                }
            } else {
                let x = if i < k {
                    i
                } else {
                    i - 1
                };
                let y = if j < k {
                    j
                } else {
                    j - 1
                };
                assert(text_lt(before[x], before[y]));
            }
        }
        assert forall|q: Seq<char>| #[trigger] after.contains(q) <==> before.contains(q) || q
            == p@ by {
            if after.contains(q) {
                let i = choose|i: int| 0 <= i < after.len() && after[i] == q;
                if i < k {
                    assert(before[i] == q);
                } else if i > k {
                    assert(before[i - 1] == q);
                }
            }
            if before.contains(q) {
                let i = choose|i: int| 0 <= i < before.len() && before[i] == q;
                if i < k {
                    assert(after[i] == q);
                } else {
                    assert(after[i + 1] == q);
                }
            }
            if q == p@ {
                assert(after[k as int] == q);
            }
        }
    }
}

/// What is bound to a window is read back from it, in place of what was bound before, and no
/// other window sees a change. It is also what was opened last.
pub proof fn law_bound_repository_is_read_back(
    s: &mut AppState,
    label: &str,
    path: &str,
    other: &str,
    own_after: AppResult<String>,
    before: AppResult<String>,
    after: AppResult<String>,
)
    requires
        call_ensures(AppState::bind, (s, label, path), ()),
        call_ensures(AppState::window_repo_path, (final(s), label), own_after),
        call_ensures(AppState::window_repo_path, (&*old(s), other), before),
        call_ensures(AppState::window_repo_path, (final(s), other), after),
    ensures
        outcome(own_after) == Ok::<Seq<char>, ErrorView>(path@),
        other@ != label@ ==> outcome(after) == outcome(before),
        final(s).last_opened matches Some(l) && l@ == path@,
        final(s).exiting == old(s).exiting,
        final(s).pending_ctx_menu == old(s).pending_ctx_menu,
{
}

/// A window whose repository is dropped has none, and no other window sees a change. It is told
/// whether the window had one.
pub proof fn law_dropped_repository_is_gone(
    s: &mut AppState,
    label: &str,
    r: bool,
    other: &str,
    own_before: AppResult<String>,
    own_after: AppResult<String>,
    before: AppResult<String>,
    after: AppResult<String>,
)
    requires
        call_ensures(AppState::remove_window, (s, label), r),
        call_ensures(AppState::window_repo_path, (&*old(s), label), own_before),
        call_ensures(AppState::window_repo_path, (final(s), label), own_after),
        call_ensures(AppState::window_repo_path, (&*old(s), other), before),
        call_ensures(AppState::window_repo_path, (final(s), other), after),
    ensures
        r <==> own_before is Ok,
        outcome(own_after) == Err::<Seq<char>, ErrorView>(
            (ErrorKind::NoRepoOpen, "No repository open"@),
        ),
        other@ != label@ ==> outcome(after) == outcome(before),
        final(s).last_opened == old(s).last_opened,
        final(s).exiting == old(s).exiting,
{
}

/// A window that is gone by the time its repository is set gets none: it is told so, and nothing
/// changes.
pub proof fn law_closed_window_gets_no_repository(
    s: &mut AppState,
    label: &str,
    path: &str,
    open: bool,
    r: AppResult<()>,
    own_after: AppResult<String>,
)
    requires
        call_ensures(AppState::set_window_repo, (s, label, path, open), r),
        call_ensures(AppState::window_repo_path, (final(s), label), own_after),
    ensures
        r is Ok <==> open,
        r matches Err(e) ==> e@.0 is WindowClosed && final(s).bindings() == old(s).bindings()
            && final(s).last_opened == old(s).last_opened,
        open ==> outcome(own_after) == Ok::<Seq<char>, ErrorView>(path@),
        open ==> (final(s).last_opened matches Some(l) && l@ == path@),
{
}

/// A window that is closed while the application quits keeps its repository for the next launch,
/// and nothing is written. Closed at any other time it loses it, no other window does, and the set
/// is written exactly where it lost one.
pub proof fn law_quitting_keeps_the_repositories(
    s: &mut AppState,
    label: &str,
    r: bool,
    other: Seq<char>,
)
    requires
        call_ensures(AppState::window_destroyed, (s, label), r),
    ensures
        old(s).exiting ==> !r && final(s).bindings() == old(s).bindings(),
        !old(s).exiting ==> !final(s).bindings().contains_key(label@),
        !old(s).exiting && other != label@ ==> final(s).bindings().contains_key(other) == old(
            s,
        ).bindings().contains_key(other) && (old(s).bindings().contains_key(other)
            ==> final(s).bindings()[other] == old(s).bindings()[other]),
        !old(s).exiting ==> (r <==> old(s).bindings().contains_key(label@)),
        final(s).last_opened == old(s).last_opened,
{
}

/// Once the application quits it goes on quitting, and no window loses its repository by that.
pub proof fn law_quitting_changes_nothing_else(s: &mut AppState)
    requires
        call_ensures(AppState::exit_requested, (s,), ()),
    ensures
        final(s).exiting,
        final(s).bindings() == old(s).bindings(),
        final(s).last_opened == old(s).last_opened,
        final(s).pending_ctx_menu == old(s).pending_ctx_menu,
{
}

/// What the windows show is what they are bound to: each window of the snapshot is listed with its
/// repository, and each window with a repository is in the snapshot.
pub proof fn law_snapshot_shows_every_binding(
    s: &AppState,
    r: Vec<(String, String)>,
    i: int,
    label: Seq<char>,
)
    requires
        s.wf(),
        call_ensures(AppState::snapshot, (s,), r),
    ensures
        0 <= i < r@.len() ==> s.bindings().contains_key(r@[i].0@) && s.bindings()[r@[i].0@]
            == r@[i].1@,
        s.bindings().contains_key(label) ==> exists|k: int|
            0 <= k < r@.len() && (#[trigger] r@[k]).0@ == label && r@[k].1@ == s.bindings()[label],
{
    if 0 <= i < r@.len() {
        lemma_binding_at(s.windows@, i);
    }
    if s.bindings().contains_key(label) {
        lemma_bindings(s.windows@, label);
        lemma_first_where(s.windows@, is_for(label));
        let k = first_where(s.windows@, is_for(label))->0;
        assert(r@[k].0@ == label);
    }
}

/// The open repositories are those of the windows, each once, in the order of their texts.
pub proof fn law_open_repositories_are_listed_once(
    s: &AppState,
    r: Vec<String>,
    path: Seq<char>,
    i: int,
    j: int,
)
    requires
        call_ensures(AppState::collect_open_repos, (s,), r),
    ensures
        texts(r@).contains(path) <==> exists|l: Seq<char>| #[trigger]
            s.bindings().contains_key(l) && s.bindings()[l] == path,
        0 <= i < j < r@.len() ==> r@[i]@ != r@[j]@ && text_lt(r@[i]@, r@[j]@),
{
    let t = texts(r@);
    assert(t.len() == r@.len());
    let b = s.bindings();
    if t.contains(path) {
        assert(t.to_set().contains(path));
        assert(b.values().contains(path));
    }
    if exists|l: Seq<char>| #[trigger] b.contains_key(l) && b[l] == path {
        assert(b.values().contains(path));
        assert(t.to_set().contains(path));
    }
    if 0 <= i < j < r@.len() {
        assert(t[i] == r@[i]@ && t[j] == r@[j]@);
        lemma_text_lt_irreflexive(t[i]);
    }
}

/// A state starts without anything: no window has a repository, nothing was opened, and it does
/// not quit.
pub proof fn law_nothing_is_open_at_first(s: AppState, label: &str, r: AppResult<String>)
    requires
        call_ensures(AppState::new, (), s),
        call_ensures(AppState::window_repo_path, (&s, label), r),
    ensures
        r matches Err(e) && e@.0 is NoRepoOpen,
        s.last_opened is None,
        !s.exiting,
{
}

} // verus!

//! What file system events mean for a repository window.
//!
//! Events are noisy. Each event path is filtered through git's ignore rules and classified, a
//! burst of them is folded into one reason to refresh, and directories found to be ignored are
//! remembered for the rest of the burst, so that a storm below one of them costs a handful of
//! questions to libgit2.

use crate::pathname::{
    components, extension, extension_of, law_path_text_reads_back,
    law_rest_names_the_other_components, lemma_components_well_formed,
    lemma_parent_components, parent_end, parent_text, path_text, rest_of, split_path, text_after,
    text_of, trimmed_path, well_formed,
};
use crate::text::{chars_of, join2, opt_text, owned, same_text, text_range, texts};
use vstd::hash_set::StringHashSet;
use vstd::prelude::*;

verus! {

/// How long no event may arrive before a burst counts as over, in milliseconds.
pub const DEBOUNCE_MILLIS: u64 = 200;

/// A burst with at least this many events is a storm.
pub const STORM_THRESHOLD: usize = 1000;

/// A burst that keeps more paths than this is worth an informational log line.
pub const KEPT_INFO_THRESHOLD: usize = 100;

/// How many event paths are kept as examples of a burst.
pub const SAMPLE_LIMIT: usize = 5;

/// Why a repository window is refreshed, from the strongest reason to the weakest.
#[derive(Debug, Clone, Copy, PartialEq, Eq, Structural)]
pub enum Reason {
    /// The index changed.
    Index,
    /// HEAD, MERGE_HEAD or a reference changed.
    Head,
    /// A file of the working tree changed.
    Fs,
}

/// The priority of a reason.
pub open spec fn priority(r: Reason) -> nat {
    match r {
        Reason::Index => 2,
        Reason::Head => 1,
        Reason::Fs => 0,
    }
}

/// The reason with the higher priority.
pub open spec fn stronger(a: Reason, b: Reason) -> Reason {
    if priority(a) >= priority(b) {
        a
    } else {
        b
    }
}

/// The word that stands for a reason on the wire.
pub open spec fn reason_word(r: Reason) -> Seq<char> {
    match r {
        Reason::Index => "index"@,
        Reason::Head => "head"@,
        Reason::Fs => "fs"@,
    }
}

impl Reason {
    /// The word that stands for the reason on the wire.
    pub fn as_str(self) -> (r: &'static str)
        ensures
            r@ == reason_word(self),
    {
        match self {
            Reason::Index => "index",
            Reason::Head => "head",
            Reason::Fs => "fs",
        }
    }

    /// The priority of the reason.
    pub fn rank(self) -> (r: u8)
        ensures
            r == priority(self),
    {
        match self {
            Reason::Index => 2,
            Reason::Head => 1,
            Reason::Fs => 0,
        }
    }

    /// The reason with the higher priority.
    pub fn max(self, other: Self) -> (r: Self)
        ensures
            r == stronger(self, other),
    {
        if self.rank() >= other.rank() {
            self
        } else {
            other
        }
    }
}

/// The stronger of two reasons does not depend on their order or grouping, and nothing is
/// stronger than a change of the index.
pub proof fn law_reasons_are_ranked(a: Reason, b: Reason, c: Reason)
    ensures
        stronger(a, a) == a,
        stronger(a, b) == stronger(b, a),
        stronger(stronger(a, b), c) == stronger(a, stronger(b, c)),
        stronger(Reason::Index, a) == Reason::Index,
        stronger(Reason::Head, Reason::Fs) == Reason::Head,
{
}

/// The reason that an event path gives by itself, for a git directory with these components.
///
/// Lock files never count. Inside the git directory only the index, HEAD, MERGE_HEAD and the
/// references count; outside of it everything does.
pub open spec fn classified(git_dir: Seq<Seq<char>>, path: Seq<char>) -> Option<Reason> {
    let c = components(path);
    if extension(path) == Some("lock"@) {
        None
    } else if git_dir.is_prefix_of(c) {
        let rel = c.skip(git_dir.len() as int);
        if rel == seq!["index"@] {
            Some(Reason::Index)
        } else if rel == seq!["HEAD"@] || rel == seq!["MERGE_HEAD"@] || (rel.len() > 0 && rel[0]
            == "refs"@) {
            Some(Reason::Head)
        } else {
            None
        }
    } else {
        Some(Reason::Fs)
    }
}

/// Ignore rules: whether the path spelled this way is ignored.
pub type Rules = spec_fn(Seq<char>) -> bool;

/// Whether every answer of `query` is the one that `rules` give.
pub open spec fn decides<Q: Fn(&str) -> bool>(query: Q, rules: Rules) -> bool {
    forall|s: &str, b: bool| #[trigger] call_ensures(query, (s,), b) ==> b == rules(s@)
}

/// Whether a directory at or above a path, below the working directory, is known to be ignored.
pub open spec fn covered(
    dirs: Set<Seq<char>>,
    workdir: Seq<Seq<char>>,
    c: Seq<Seq<char>>,
) -> bool {
    &&& workdir.is_prefix_of(c)
    &&& exists|n: int|
        workdir.len() < n <= c.len() && dirs.contains(#[trigger] path_text(c.take(n)))
}

/// Whether the parent of a path is a directory below the working directory.
pub open spec fn is_deep(workdir: Seq<Seq<char>>, c: Seq<Seq<char>>) -> bool {
    workdir.is_prefix_of(c) && workdir.len() + 1 < c.len()
}

/// Whether a path is ignored, as the cache answers it: where a directory known to be ignored
/// covers it, where its parent is ignored, or where it is ignored itself. The rules are asked
/// about paths as the event spells them.
pub open spec fn cached_answer(
    rules: Rules,
    dirs: Set<Seq<char>>,
    workdir: Seq<Seq<char>>,
    path: Seq<char>,
) -> bool {
    ||| covered(dirs, workdir, components(path))
    ||| is_deep(workdir, components(path)) && rules(parent_text(path))
    ||| rules(path)
}

/// An ignored directory, and the directories above it that are ignored too without a gap, down
/// to a depth of `depth`, each by its shortest text.
pub open spec fn ignored_chain(rules: Rules, depth: nat, dir: Seq<char>) -> Set<Seq<char>>
    decreases components(dir).len(),
{
    let c = components(dir);
    let above = if depth + 1 < c.len() && rules(parent_text(dir)) {
        proof {
            lemma_parent_components(dir);
        }
        ignored_chain(rules, depth, parent_text(dir))
    } else {
        Set::empty()
    };
    above.insert(path_text(c))
}

/// The directories known to be ignored after a path was asked about.
pub open spec fn dirs_after(
    rules: Rules,
    dirs: Set<Seq<char>>,
    workdir: Seq<Seq<char>>,
    path: Seq<char>,
) -> Set<Seq<char>> {
    let c = components(path);
    if !covered(dirs, workdir, c) && is_deep(workdir, c) && rules(parent_text(path)) {
        dirs.union(ignored_chain(rules, workdir.len(), parent_text(path)))
    } else {
        dirs
    }
}

/// The directories found to be ignored during one burst.
///
/// Only directories are remembered, and only ignored ones: everything below an ignored
/// directory is ignored, while a file may be ignored by itself in a directory that is not.
pub struct IgnoreCache {
    /// The directories, by their shortest text.
    pub ignored_dirs: StringHashSet,
}

impl View for IgnoreCache {
    type V = Set<Seq<char>>;

    open spec fn view(&self) -> Set<Seq<char>> {
        self.ignored_dirs@
    }
}

impl Default for IgnoreCache {
    /// A cache that knows nothing.
    fn default() -> (r: Self)
        ensures
            r@ == Set::<Seq<char>>::empty(),
    {
        IgnoreCache { ignored_dirs: StringHashSet::new() }
    }
}

/// Whether the components of `a` are the first ones of `b`.
fn is_prefix(a: &Vec<String>, b: &Vec<String>) -> (r: bool)
    ensures
        r == texts(a@).is_prefix_of(texts(b@)),
{
    if a.len() > b.len() {
        return false;
    }
    let mut i: usize = 0;
    while i < a.len()
        invariant
            0 <= i <= a@.len() <= b@.len(),
            forall|j: int| 0 <= j < i ==> texts(a@)[j] == texts(b@)[j],
        decreases a@.len() - i,
    {
        assert(texts(a@)[i as int] == a@[i as int]@);
        assert(texts(b@)[i as int] == b@[i as int]@);
        if !same_text(a[i].as_str(), b[i].as_str()) {
            assert(texts(b@).subrange(0, a@.len() as int)[i as int] == texts(b@)[i as int]);
            return false;
        }
        i += 1;
    }
    assert(texts(b@).subrange(0, a@.len() as int) =~= texts(a@));
    true
}

impl IgnoreCache {
    /// Whether `path`, which has these components, is ignored, asking `query` where the cache
    /// does not know; directories found to be ignored are remembered.
    fn answer<Q: Fn(&str) -> bool>(
        &mut self,
        workdir: &Vec<String>,
        query: &Q,
        c: &Vec<String>,
        path: &str,
    ) -> (r: bool)
        requires
            texts(c@) == components(path@),
            !covered(old(self)@, texts(workdir@), texts(c@)) ==> forall|s: &str|
                call_requires(*query, (s,)),
        ensures
            covered(old(self)@, texts(workdir@), texts(c@)) ==> r && final(self)@ == old(self)@,
            forall|rules: Rules| #[trigger]
                decides(*query, rules) ==> r == cached_answer(
                    rules,
                    old(self)@,
                    texts(workdir@),
                    path@,
                ) && final(self)@ == dirs_after(rules, old(self)@, texts(workdir@), path@),
    {
        if self.has_ignored_ancestor(workdir, c) {
            return true;
        }
        let ghost cv = texts(c@);
        if is_prefix(workdir, c) && c.len() - workdir.len() > 1 {
            let cs = chars_of(path);
            let end = parent_end(&cs, cs.len());
            let parent = text_range(&cs, 0, end);
            proof {
                assert(cs@.take(cs@.len() as int) =~= path@);
                assert(cs@.subrange(0, end as int) =~= cs@.take(end as int));
                lemma_parent_components(path@);
                assert(cv.take(c@.len() - 1) =~= cv.drop_last());
            }
            let ignored = query(parent.as_str());
            if ignored {
                self.insert_ignored_chain(workdir.len(), c, c.len() - 1, &cs, end, query);
                return true;
            }
        }
        query(path)
    }

    /// Whether `path` is ignored, asking `query` where the cache does not know. A path that is
    /// covered by a directory known to be ignored is answered without a question.
    pub fn is_ignored<Q: Fn(&str) -> bool>(
        &mut self,
        workdir: &str,
        query: &Q,
        path: &str,
    ) -> (r: bool)
        requires
            !covered(old(self)@, components(workdir@), components(path@)) ==> forall|s: &str|
                call_requires(*query, (s,)),
        ensures
            covered(old(self)@, components(workdir@), components(path@)) ==> r && final(self)@
                == old(self)@,
            forall|rules: Rules| #[trigger]
                decides(*query, rules) ==> r == cached_answer(
                    rules,
                    old(self)@,
                    components(workdir@),
                    path@,
                ) && final(self)@ == dirs_after(rules, old(self)@, components(workdir@), path@),
    {
        let w = split_path(workdir);
        let c = split_path(path);
        self.answer(&w, query, &c, path)
    }

    /// Whether a directory at or above the path, below the working directory, is known to be
    /// ignored.
    fn has_ignored_ancestor(&self, workdir: &Vec<String>, c: &Vec<String>) -> (r: bool)
        ensures
            r == covered(self@, texts(workdir@), texts(c@)),
    {
        if !is_prefix(workdir, c) {
            return false;
        }
        let w: usize = workdir.len();
        let mut n: usize = c.len();
        while n > w
            invariant
                w <= n <= c@.len(),
                w == workdir@.len(),
                texts(workdir@).is_prefix_of(texts(c@)),
                forall|k: int|
                    n < k <= c@.len() ==> !self@.contains(#[trigger] path_text(texts(c@).take(k))),
            decreases n,
        {
            let dir = text_of(c, n);
            if self.ignored_dirs.contains(dir.as_str()) {
                assert(self@.contains(path_text(texts(c@).take(n as int))));
                return true;
            }
            n -= 1;
        }
        false
    }

    /// Remembers the first `n` components, a directory known to be ignored that the first `end`
    /// characters spell, and the directories above it that are ignored too, up to the first that
    /// is not.
    fn insert_ignored_chain<Q: Fn(&str) -> bool>(
        &mut self,
        depth: usize,
        c: &Vec<String>,
        n: usize,
        cs: &Vec<char>,
        end: usize,
        query: &Q,
    )
        requires
            depth < n <= c@.len(),
            end <= cs@.len(),
            components(cs@.take(end as int)) == texts(c@).take(n as int),
            forall|s: &str| call_requires(*query, (s,)),
        ensures
            forall|rules: Rules| #[trigger]
                decides(*query, rules) ==> final(self)@ == old(self)@.union(
                    ignored_chain(rules, depth as nat, cs@.take(end as int)),
                ),
        decreases n,
    {
        let ghost before = self@;
        let ghost here = cs@.take(end as int);
        let dir = text_of(c, n);
        self.ignored_dirs.insert(dir);
        let ghost inserted = self@;
        assert(inserted == before.insert(path_text(components(here))));
        if n - depth > 1 {
            let up = parent_end(cs, end);
            let above = text_range(cs, 0, up);
            proof {
                assert(cs@.subrange(0, up as int) =~= cs@.take(up as int));
                lemma_parent_components(here);
                assert(texts(c@).take(n as int).drop_last() =~= texts(c@).take(n - 1));
            }
            let ignored = query(above.as_str());
            if ignored {
                self.insert_ignored_chain(depth, c, n - 1, cs, up, query);
                assert forall|rules: Rules| #[trigger] decides(*query, rules) implies self@
                    == before.union(ignored_chain(rules, depth as nat, here)) by {
                    assert(self@ =~= before.union(ignored_chain(rules, depth as nat, here)));
                }
                return;
            }
        }
        assert forall|rules: Rules| #[trigger] decides(*query, rules) implies self@ == before.union(
            ignored_chain(rules, depth as nat, here),
        ) by {
            assert(self@ =~= before.union(ignored_chain(rules, depth as nat, here)));
        }
    }
}

/// Whether the components of a path inside the git directory, from `from` on, are just `name`.
fn rest_is(c: &Vec<String>, from: usize, name: &str) -> (r: bool)
    requires
        from <= c@.len(),
    ensures
        r == (texts(c@).skip(from as int) == seq![name@]),
{
    let ghost rest = texts(c@).skip(from as int);
    if c.len() - from != 1 {
        assert(rest.len() != seq![name@].len());
        return false;
    }
    assert(rest[0] == c@[from as int]@);
    let same = same_text(c[from].as_str(), name);
    if same {
        assert(rest =~= seq![name@]);
    } else {
        assert(seq![name@][0] == name@);
    }
    same
}

/// The reason that an event path gives by itself, for a git directory given by its components.
fn classify_in(git_dir: &Vec<String>, c: &Vec<String>, path: &str) -> (r: Option<Reason>)
    requires
        texts(c@) == components(path@),
    ensures
        r == classified(texts(git_dir@), path@),
{
    let locked = match extension_of(path) {
        Some(e) => same_text(e.as_str(), "lock"),
        None => false,
    };
    if locked {
        return None;
    }
    if !is_prefix(git_dir, c) {
        return Some(Reason::Fs);
    }
    let g: usize = git_dir.len();
    let ghost rel = texts(c@).skip(g as int);
    if rest_is(c, g, "index") {
        return Some(Reason::Index);
    }
    if rest_is(c, g, "HEAD") || rest_is(c, g, "MERGE_HEAD") {
        return Some(Reason::Head);
    }
    if c.len() > g {
        assert(rel[0] == c@[g as int]@);
        if same_text(c[g].as_str(), "refs") {
            return Some(Reason::Head);
        }
    }
    None
}

/// The reason that an event path gives by itself.
pub fn classify_one(git_dir: &str, path: &str) -> (r: Option<Reason>)
    ensures
        r == classified(components(git_dir@), path@),
{
    let g = split_path(git_dir);
    let c = split_path(path);
    classify_in(&g, &c, path)
}

/// The reason that an event path gives once ignored paths are dropped. Paths inside the git
/// directory are never asked about: ignore rules are about the working tree.
pub open spec fn kept_reason(
    rules: Rules,
    dirs: Set<Seq<char>>,
    git_dir: Seq<Seq<char>>,
    workdir: Seq<Seq<char>>,
    path: Seq<char>,
) -> Option<Reason> {
    if !git_dir.is_prefix_of(components(path)) && cached_answer(rules, dirs, workdir, path) {
        None
    } else {
        classified(git_dir, path)
    }
}

/// The directories known to be ignored after an event path was looked at.
pub open spec fn dirs_after_event(
    rules: Rules,
    dirs: Set<Seq<char>>,
    git_dir: Seq<Seq<char>>,
    workdir: Seq<Seq<char>>,
    path: Seq<char>,
) -> Set<Seq<char>> {
    if git_dir.is_prefix_of(components(path)) {
        dirs
    } else {
        dirs_after(rules, dirs, workdir, path)
    }
}

/// The reason that an event path gives once ignored paths are dropped.
fn classify_filtered_one<Q: Fn(&str) -> bool>(
    git_dir: &Vec<String>,
    workdir: &Vec<String>,
    is_ignored: &Q,
    cache: &mut IgnoreCache,
    path: &str,
) -> (r: Option<Reason>)
    requires
        forall|s: &str| call_requires(*is_ignored, (s,)),
    ensures
        r is Some ==> r == classified(texts(git_dir@), path@),
        forall|rules: Rules| #[trigger]
            decides(*is_ignored, rules) ==> r == kept_reason(
                rules,
                old(cache)@,
                texts(git_dir@),
                texts(workdir@),
                path@,
            ) && final(cache)@ == dirs_after_event(
                rules,
                old(cache)@,
                texts(git_dir@),
                texts(workdir@),
                path@,
            ),
{
    let c = split_path(path);
    if !is_prefix(git_dir, &c) {
        let ignored = cache.answer(workdir, is_ignored, &c, path);
        if ignored {
            return None;
        }
    }
    classify_in(git_dir, &c, path)
}

/// What is counted during a burst: every event path seen, those that survived the filter, and
/// the first few as examples.
#[derive(Debug)]
pub struct BurstStats {
    pub raw_events: usize,
    pub kept: usize,
    pub samples: Vec<String>,
}

impl Default for BurstStats {
    /// Nothing counted yet.
    fn default() -> (r: Self)
        ensures
            r.raw_events == 0,
            r.kept == 0,
            r.samples@.len() == 0,
    {
        BurstStats { raw_events: 0, kept: 0, samples: Vec::new() }
    }
}

/// Examples with one more path, as long as there is room.
pub open spec fn sampled(samples: Seq<Seq<char>>, path: Seq<char>) -> Seq<Seq<char>> {
    if samples.len() < SAMPLE_LIMIT {
        samples.push(path)
    } else {
        samples
    }
}

impl BurstStats {
    /// Counts one event path, and keeps it as an example as long as there is room.
    pub fn record_raw(&mut self, path: &str)
        requires
            old(self).raw_events < usize::MAX,
        ensures
            final(self).raw_events == old(self).raw_events + 1,
            final(self).kept == old(self).kept,
            texts(final(self).samples@) == sampled(texts(old(self).samples@), path@),
    {
        self.raw_events = self.raw_events + 1;
        assert(texts(self.samples@).len() == self.samples@.len());
        if self.samples.len() < SAMPLE_LIMIT {
            let ghost before = self.samples@;
            self.samples.push(owned(path));
            assert(texts(self.samples@) =~= texts(before).push(path@));
        }
    }
}

/// The state of a burst.
#[verifier::ext_equal]
pub struct Burst {
    pub dirs: Set<Seq<char>>,
    pub pending: Option<Reason>,
    pub raw: nat,
    pub kept: nat,
    pub samples: Seq<Seq<char>>,
}

/// The state of a burst, put together from its parts.
pub open spec fn burst(cache: IgnoreCache, pending: Option<Reason>, stats: BurstStats) -> Burst {
    Burst {
        dirs: cache@,
        pending,
        raw: stats.raw_events as nat,
        kept: stats.kept as nat,
        samples: texts(stats.samples@),
    }
}

/// The pending reason with one more reason.
pub open spec fn joined_reason(pending: Option<Reason>, r: Reason) -> Option<Reason> {
    match pending {
        Some(p) => Some(stronger(p, r)),
        None => Some(r),
    }
}

/// The state of a burst after one more event path.
pub open spec fn after_event(
    rules: Rules,
    git_dir: Seq<Seq<char>>,
    workdir: Seq<Seq<char>>,
    b: Burst,
    path: Seq<char>,
) -> Burst {
    let reason = kept_reason(rules, b.dirs, git_dir, workdir, path);
    Burst {
        dirs: dirs_after_event(rules, b.dirs, git_dir, workdir, path),
        pending: match reason {
            Some(r) => joined_reason(b.pending, r),
            None => b.pending,
        },
        raw: b.raw + 1,
        kept: b.kept + (if reason is Some {
            1nat
        } else {
            0nat
        }),
        samples: sampled(b.samples, path),
    }
}

/// The state of a burst after some event paths.
pub open spec fn after_events(
    rules: Rules,
    git_dir: Seq<Seq<char>>,
    workdir: Seq<Seq<char>>,
    b: Burst,
    paths: Seq<Seq<char>>,
) -> Burst
    decreases paths.len(),
{
    if paths.len() == 0 {
        b
    } else {
        after_event(
            rules,
            git_dir,
            workdir,
            after_events(rules, git_dir, workdir, b, paths.drop_last()),
            paths.last(),
        )
    }
}

/// Folds event paths into the pending reason and the counts of a burst.
///
/// Every path is counted, and every path that survives the filter is counted as kept, also
/// once nothing can strengthen the pending reason any more.
pub fn fold_event_paths<Q: Fn(&str) -> bool>(
    git_dir: &str,
    workdir: &str,
    is_ignored: &Q,
    cache: &mut IgnoreCache,
    paths: &Vec<String>,
    pending: &mut Option<Reason>,
    stats: &mut BurstStats,
)
    requires
        forall|s: &str| call_requires(*is_ignored, (s,)),
        old(stats).raw_events + paths@.len() <= usize::MAX,
        old(stats).kept + paths@.len() <= usize::MAX,
    ensures
        final(stats).raw_events == old(stats).raw_events + paths@.len(),
        old(stats).kept <= final(stats).kept <= old(stats).kept + paths@.len(),
        forall|rules: Rules| #[trigger]
            decides(*is_ignored, rules) ==> burst(*final(cache), *final(pending), *final(stats))
                == after_events(
                rules,
                components(git_dir@),
                components(workdir@),
                burst(*old(cache), *old(pending), *old(stats)),
                texts(paths@),
            ),
{
    let g = split_path(git_dir);
    let w = split_path(workdir);
    let ghost start = burst(*cache, *pending, *stats);
    let ghost (gv, wv) = (components(git_dir@), components(workdir@));
    let ghost all = texts(paths@);
    let mut i: usize = 0;
    assert(all.take(0) =~= Seq::<Seq<char>>::empty());
    while i < paths.len()
        invariant
            0 <= i <= paths@.len(),
            all == texts(paths@),
            gv == texts(g@),
            wv == texts(w@),
            gv == components(git_dir@),
            wv == components(workdir@),
            start == burst(*old(cache), *old(pending), *old(stats)),
            forall|s: &str| call_requires(*is_ignored, (s,)),
            old(stats).raw_events + paths@.len() <= usize::MAX,
            old(stats).kept + paths@.len() <= usize::MAX,
            stats.raw_events == old(stats).raw_events + i,
            old(stats).kept <= stats.kept <= old(stats).kept + i,
            forall|rules: Rules| #[trigger]
                decides(*is_ignored, rules) ==> burst(*cache, *pending, *stats) == after_events(
                    rules,
                    gv,
                    wv,
                    start,
                    all.take(i as int),
                ),
        decreases paths@.len() - i,
    {
        let ghost before = burst(*cache, *pending, *stats);
        let path = paths[i].as_str();
        proof {
            assert(all[i as int] == path@);
            assert(all.take(i + 1).drop_last() =~= all.take(i as int));
            assert(all.take(i + 1).last() == path@);
        }
        stats.record_raw(path);
        let kept = classify_filtered_one(&g, &w, is_ignored, cache, path);
        if let Some(reason) = kept {
            stats.kept = stats.kept + 1;
            let joined = match *pending {
                Some(Reason::Index) => Reason::Index,
                Some(p) => p.max(reason),
                None => reason,
            };
            *pending = Some(joined);
        }
        i += 1;
        assert forall|rules: Rules| #[trigger] decides(*is_ignored, rules) implies burst(
            *cache,
            *pending,
            *stats,
        ) == after_events(rules, gv, wv, start, all.take(i as int)) by {
            assert(before == after_events(rules, gv, wv, start, all.take(i - 1)));
            assert(burst(*cache, *pending, *stats) =~= after_event(rules, gv, wv, before, path@));
        }
    }
    assert(all.take(paths@.len() as int) =~= all);
}

/// A burst may arrive in any number of batches: folding them one after the other gives what
/// folding all of them at once gives.
pub proof fn law_batches_fold_alike(
    rules: Rules,
    git_dir: Seq<Seq<char>>,
    workdir: Seq<Seq<char>>,
    b: Burst,
    first: Seq<Seq<char>>,
    second: Seq<Seq<char>>,
)
    ensures
        after_events(rules, git_dir, workdir, b, first + second) == after_events(
            rules,
            git_dir,
            workdir,
            after_events(rules, git_dir, workdir, b, first),
            second,
        ),
    decreases second.len(),
{
    if second.len() == 0 {
        assert(first + second =~= first);
    } else {
        law_batches_fold_alike(rules, git_dir, workdir, b, first, second.drop_last());
        assert((first + second).drop_last() =~= first + second.drop_last());
        assert((first + second).last() == second.last());
    }
}

/// Whether rules ignore everything at and below an ignored directory of the working tree, as
/// git's do. The directory is named without a separator at its end.
pub open spec fn closed_downward(rules: Rules, workdir: Seq<Seq<char>>) -> bool {
    forall|dir: Seq<char>, path: Seq<char>|
        workdir.is_prefix_of(components(dir)) && workdir.len() < components(dir).len()
            && trimmed_path(dir) == dir && components(dir).is_prefix_of(components(path))
            && #[trigger] rules(dir) ==> #[trigger] rules(path)
}

/// Whether every remembered directory was found to be ignored, under some spelling of it.
pub open spec fn truthful(rules: Rules, dirs: Set<Seq<char>>) -> bool {
    forall|d: Seq<char>| #[trigger] dirs.contains(d) ==> known_ignored(rules, d)
}

/// Whether rules ignore a directory under some spelling without a separator at its end.
pub open spec fn known_ignored(rules: Rules, d: Seq<char>) -> bool {
    exists|dir: Seq<char>| #[trigger]
        rules(dir) && trimmed_path(dir) == dir && components(dir) == components(d)
}

/// A directory is found to be ignored by its shortest text once any spelling of it is ignored.
proof fn lemma_known_ignored(rules: Rules, dir: Seq<char>)
    requires
        rules(dir),
        trimmed_path(dir) == dir,
    ensures
        known_ignored(rules, path_text(components(dir))),
{
    lemma_components_well_formed(dir);
    law_path_text_reads_back(components(dir));
}

/// A chain of ignored directories holds ignored directories only.
proof fn lemma_chain_truthful(rules: Rules, depth: nat, dir: Seq<char>)
    requires
        rules(dir),
        trimmed_path(dir) == dir,
    ensures
        truthful(rules, ignored_chain(rules, depth, dir)),
    decreases components(dir).len(),
{
    lemma_known_ignored(rules, dir);
    if depth + 1 < components(dir).len() && rules(parent_text(dir)) {
        lemma_parent_components(dir);
        lemma_chain_truthful(rules, depth, parent_text(dir));
    }
}

/// The cache never changes an answer: as long as what it remembers is true, it answers what the
/// rules say, and what it remembers stays true.
pub proof fn law_cache_answers_truly(
    rules: Rules,
    dirs: Set<Seq<char>>,
    workdir: Seq<Seq<char>>,
    path: Seq<char>,
)
    requires
        closed_downward(rules, workdir),
        truthful(rules, dirs),
    ensures
        cached_answer(rules, dirs, workdir, path) == rules(path),
        truthful(rules, dirs_after(rules, dirs, workdir, path)),
{
    let c = components(path);
    if covered(dirs, workdir, c) {
        let n = choose|n: int|
            workdir.len() < n <= c.len() && dirs.contains(#[trigger] path_text(c.take(n)));
        let d = path_text(c.take(n));
        assert(known_ignored(rules, d));
        lemma_components_well_formed(path);
        assert(well_formed(c.take(n))) by {
            assert forall|i: int| 0 <= i < n implies !(#[trigger] c.take(n)[i]).contains('/') by {
                assert(c.take(n)[i] == c[i]);
            }
        }
        law_path_text_reads_back(c.take(n));
        let dir = choose|dir: Seq<char>| #[trigger]
            rules(dir) && trimmed_path(dir) == dir && components(dir) == components(d);
        assert(workdir =~= c.take(n).take(workdir.len() as int));
        assert(c.take(n) =~= c.subrange(0, n));
        assert(rules(path));
    }
    if is_deep(workdir, c) && rules(parent_text(path)) {
        lemma_parent_components(path);
        let dir = parent_text(path);
        assert(workdir =~= c.drop_last().take(workdir.len() as int));
        assert(c.drop_last() =~= c.subrange(0, c.len() - 1));
        assert(rules(path));
        lemma_chain_truthful(rules, workdir.len(), dir);
    }
}

/// The reason that an event path gives without any cache.
pub open spec fn plain_reason(
    rules: Rules,
    git_dir: Seq<Seq<char>>,
    path: Seq<char>,
) -> Option<Reason> {
    if !git_dir.is_prefix_of(components(path)) && rules(path) {
        None
    } else {
        classified(git_dir, path)
    }
}

/// The strongest reason among some event paths, without any cache.
pub open spec fn plain_pending(
    rules: Rules,
    git_dir: Seq<Seq<char>>,
    pending: Option<Reason>,
    paths: Seq<Seq<char>>,
) -> Option<Reason>
    decreases paths.len(),
{
    if paths.len() == 0 {
        pending
    } else {
        let before = plain_pending(rules, git_dir, pending, paths.drop_last());
        match plain_reason(rules, git_dir, paths.last()) {
            Some(r) => joined_reason(before, r),
            None => before,
        }
    }
}

/// How many event paths give a reason, without any cache.
pub open spec fn plain_kept(rules: Rules, git_dir: Seq<Seq<char>>, paths: Seq<Seq<char>>) -> nat
    decreases paths.len(),
{
    if paths.len() == 0 {
        0
    } else {
        plain_kept(rules, git_dir, paths.drop_last()) + (if plain_reason(
            rules,
            git_dir,
            paths.last(),
        ) is Some {
            1nat
        } else {
            0nat
        })
    }
}

/// The outcome of a burst does not depend on the cache: the pending reason is the strongest
/// among all event paths that are not ignored, and the count of kept paths is exact.
pub proof fn law_burst_ignores_the_cache(
    rules: Rules,
    git_dir: Seq<Seq<char>>,
    workdir: Seq<Seq<char>>,
    b: Burst,
    paths: Seq<Seq<char>>,
)
    requires
        closed_downward(rules, workdir),
        truthful(rules, b.dirs),
    ensures
        ({
            let e = after_events(rules, git_dir, workdir, b, paths);
            &&& truthful(rules, e.dirs)
            &&& e.pending == plain_pending(rules, git_dir, b.pending, paths)
            &&& e.kept == b.kept + plain_kept(rules, git_dir, paths)
            &&& e.raw == b.raw + paths.len()
        }),
    decreases paths.len(),
{
    if paths.len() > 0 {
        let t = paths.drop_last();
        law_burst_ignores_the_cache(rules, git_dir, workdir, b, t);
        let e = after_events(rules, git_dir, workdir, b, t);
        law_cache_answers_truly(rules, e.dirs, workdir, paths.last());
    }
}

/// Nothing inside the git directory is ever dropped by the ignore filter.
pub proof fn law_git_directory_is_not_filtered(
    rules: Rules,
    dirs: Set<Seq<char>>,
    git_dir: Seq<Seq<char>>,
    workdir: Seq<Seq<char>>,
    path: Seq<char>,
)
    requires
        git_dir.is_prefix_of(components(path)),
    ensures
        kept_reason(rules, dirs, git_dir, workdir, path) == classified(git_dir, path),
        dirs_after_event(rules, dirs, git_dir, workdir, path) == dirs,
{
}

/// The path that the ignore rules are asked about: the event path relative to the working
/// directory, spelled as the event spells it. There is none for a path outside of it, nor without
/// a working tree.
pub open spec fn query_text(workdir: Option<&str>, path: Seq<char>) -> Option<Seq<char>> {
    match workdir {
        Some(dir) => {
            let (w, c) = (components(dir@), components(path));
            if w.is_prefix_of(c) {
                Some(text_after(path, w.len()))
            } else {
                None
            }
        },
        None => None,
    }
}

/// The path that the ignore rules are asked about for an event path.
pub fn ignore_query_path(workdir: Option<&str>, path: &str) -> (r: Option<String>)
    ensures
        opt_text(r) == query_text(workdir, path@),
{
    let workdir = match workdir {
        Some(w) => w,
        None => return None,
    };
    let w = split_path(workdir);
    let c = split_path(path);
    if !is_prefix(&w, &c) {
        return None;
    }
    Some(rest_of(path, w.len(), c.len()))
}

/// Whether git's ignore rules drop an event path. `ask` asks libgit2 about a path relative to
/// the working directory.
///
/// A path outside of the working directory, a repository without a working tree and a failed
/// question all count as not ignored: a refresh too many is better than a change that goes
/// unnoticed.
pub fn path_is_ignored<A>(workdir: Option<&str>, path: &str, ask: &A) -> (r: bool) where
    A: Fn(&str) -> Result<bool, git2::Error>,

    requires
        forall|q: &str|
            query_text(workdir, path@) == Some(q@) ==> #[trigger] call_requires(*ask, (q,)),
    ensures
        match query_text(workdir, path@) {
            None => !r,
            Some(t) => exists|q: &str, answer: Result<bool, git2::Error>|
                {
                    &&& q@ == t
                    &&& #[trigger] call_ensures(*ask, (q,), answer)
                    &&& r == (answer matches Ok(ignored) && ignored)
                },
        },
{
    match ignore_query_path(workdir, path) {
        Some(q) => {
            let q = q.as_str();
            let answer = ask(q);
            assert(call_ensures(*ask, (q,), answer));
            match answer {
                Ok(ignored) => ignored,
                Err(_) => false,
            }
        },
        None => false,
    }
}

/// What is due at the end of a burst.
#[derive(Debug, Clone, Copy, PartialEq, Eq, Structural)]
pub struct FlushReport {
    /// A storm is to be warned about, even where nothing was kept.
    pub storm: bool,
    /// The window is to be refreshed for this reason.
    pub refresh: Option<Reason>,
    /// The refresh is worth an informational log line rather than a debugging one.
    pub notable: bool,
}

/// What is due at the end of a burst.
pub fn flush_burst(pending: Option<Reason>, stats: &BurstStats) -> (r: FlushReport)
    ensures
        r.storm == (stats.raw_events >= STORM_THRESHOLD),
        r.refresh == pending,
        r.notable == (pending is Some && stats.kept > KEPT_INFO_THRESHOLD),
{
    FlushReport {
        storm: stats.raw_events >= STORM_THRESHOLD,
        refresh: pending,
        notable: pending.is_some() && stats.kept > KEPT_INFO_THRESHOLD,
    }
}

/// A burst that is under way.
pub struct OpenBurst {
    pub cache: IgnoreCache,
    pub pending: Option<Reason>,
    pub stats: BurstStats,
}

impl View for OpenBurst {
    type V = Burst;

    open spec fn view(&self) -> Burst {
        burst(self.cache, self.pending, self.stats)
    }
}

/// A burst in which nothing happened yet.
pub open spec fn fresh_burst() -> Burst {
    Burst { dirs: Set::empty(), pending: None, raw: 0, kept: 0, samples: Seq::empty() }
}

/// The burst that an event falls into: the one under way, or a fresh one.
pub open spec fn current(open: Option<OpenBurst>) -> Burst {
    match open {
        Some(b) => b@,
        None => fresh_burst(),
    }
}

/// What reaches the debouncer.
#[derive(Debug)]
pub enum Signal {
    /// Something happened to these paths.
    Paths(Vec<String>),
    /// Watching failed, with this text.
    Failed(String),
    /// Nothing happened for [`DEBOUNCE_MILLIS`].
    Quiet,
    /// The watcher is gone.
    Closed,
}

/// What the debouncer asks for.
#[derive(Debug)]
pub enum DebounceAction {
    /// Tell the window that watching failed.
    WatchError(String),
    /// The burst is over; this is due, and this was counted.
    Flush(FlushReport, BurstStats),
    /// Stop listening.
    Stop,
}

/// Whether an action is the flush of this burst.
pub open spec fn flushes(a: DebounceAction, b: OpenBurst) -> bool {
    a matches DebounceAction::Flush(report, stats) && {
        &&& stats == b.stats
        &&& report.storm == (stats.raw_events >= STORM_THRESHOLD)
        &&& report.refresh == b.pending
        &&& report.notable == (b.pending is Some && stats.kept > KEPT_INFO_THRESHOLD)
    }
}

/// One step of the debouncer: which burst is under way afterwards, and what is to be done.
///
/// The first event opens a burst, later ones fall into it, and once nothing happened for a while
/// it is flushed, exactly once. A watcher that goes away takes no change with it: what is under
/// way is flushed before listening stops. Without a burst under way there is nothing to wait for
/// but the next event.
pub fn debounce_step<Q: Fn(&str) -> bool>(
    git_dir: &str,
    workdir: &str,
    is_ignored: &Q,
    open: Option<OpenBurst>,
    signal: Signal,
) -> (r: (Option<OpenBurst>, Vec<DebounceAction>))
    requires
        forall|s: &str| call_requires(*is_ignored, (s,)),
        signal matches Signal::Paths(paths) ==> {
            &&& current(open).raw + paths@.len() <= usize::MAX
            &&& current(open).kept + paths@.len() <= usize::MAX
        },
    ensures
        match signal {
            Signal::Paths(paths) => {
                &&& r.1@.len() == 0
                &&& r.0 matches Some(b)
                &&& b@.raw == current(open).raw + paths@.len()
                &&& current(open).kept <= b@.kept <= current(open).kept + paths@.len()
                &&& forall|rules: Rules| #[trigger]
                    decides(*is_ignored, rules) ==> b@ == after_events(
                        rules,
                        components(git_dir@),
                        components(workdir@),
                        current(open),
                        texts(paths@),
                    )
            },
            Signal::Failed(text) => {
                &&& r.0 matches Some(b)
                &&& b@ == current(open)
                &&& r.1@.len() == 1
                &&& r.1@[0] matches DebounceAction::WatchError(m)
                &&& m@ == "File watch error: "@ + text@
            },
            Signal::Quiet => {
                &&& r.0 is None
                &&& match open {
                    Some(b) => r.1@.len() == 1 && flushes(r.1@[0], b),
                    None => r.1@.len() == 0,
                }
            },
            Signal::Closed => {
                &&& r.0 is None
                &&& match open {
                    Some(b) => r.1@.len() == 2 && flushes(r.1@[0], b) && r.1@[1]
                        == DebounceAction::Stop,
                    None => r.1@ == seq![DebounceAction::Stop],
                }
            },
        },
{
    let mut actions: Vec<DebounceAction> = Vec::new();
    match signal {
        Signal::Paths(paths) => {
            let mut b = opened(open);
            fold_event_paths(
                git_dir,
                workdir,
                is_ignored,
                &mut b.cache,
                &paths,
                &mut b.pending,
                &mut b.stats,
            );
            (Some(b), actions)
        },
        Signal::Failed(text) => {
            actions.push(DebounceAction::WatchError(join2("File watch error: ", text.as_str())));
            (Some(opened(open)), actions)
        },
        Signal::Quiet => {
            if let Some(b) = open {
                actions.push(DebounceAction::Flush(flush_burst(b.pending, &b.stats), b.stats));
            }
            (None, actions)
        },
        Signal::Closed => {
            if let Some(b) = open {
                actions.push(DebounceAction::Flush(flush_burst(b.pending, &b.stats), b.stats));
            }
            actions.push(DebounceAction::Stop);
            (None, actions)
        },
    }
}

/// The burst that an event falls into.
fn opened(open: Option<OpenBurst>) -> (r: OpenBurst)
    ensures
        r@ == current(open),
{
    match open {
        Some(b) => b,
        None => {
            let b = OpenBurst {
                cache: IgnoreCache::default(),
                pending: None,
                stats: BurstStats::default(),
            };
            assert(b@ =~= fresh_burst());
            b
        },
    }
}

/// The state of a burst after some events, each with its paths.
pub open spec fn after_batches(
    rules: Rules,
    git_dir: Seq<Seq<char>>,
    workdir: Seq<Seq<char>>,
    b: Burst,
    batches: Seq<Seq<Seq<char>>>,
) -> Burst
    decreases batches.len(),
{
    if batches.len() == 0 {
        b
    } else {
        after_events(
            rules,
            git_dir,
            workdir,
            after_batches(rules, git_dir, workdir, b, batches.drop_last()),
            batches.last(),
        )
    }
}

/// A burst is flushed for what all of its events mean together: however they were split, the
/// reason at the end is the strongest one among all paths that are not ignored, and every path is
/// counted.
pub proof fn law_burst_is_one_refresh(
    rules: Rules,
    git_dir: Seq<Seq<char>>,
    workdir: Seq<Seq<char>>,
    batches: Seq<Seq<Seq<char>>>,
)
    requires
        closed_downward(rules, workdir),
    ensures
        ({
            let e = after_batches(rules, git_dir, workdir, fresh_burst(), batches);
            &&& e == after_events(rules, git_dir, workdir, fresh_burst(), batches.flatten())
            &&& e.pending == plain_pending(rules, git_dir, None, batches.flatten())
            &&& e.kept == plain_kept(rules, git_dir, batches.flatten())
            &&& e.raw == batches.flatten().len()
        }),
    decreases batches.len(),
{
    law_burst_ignores_the_cache(rules, git_dir, workdir, fresh_burst(), batches.flatten());
    if batches.len() > 0 {
        let t = batches.drop_last();
        law_burst_is_one_refresh(rules, git_dir, workdir, t);
        law_batches_fold_alike(
            rules,
            git_dir,
            workdir,
            fresh_burst(),
            t.flatten(),
            batches.last(),
        );
        batches.lemma_flatten_and_flatten_alt_are_equivalent();
        t.lemma_flatten_and_flatten_alt_are_equivalent();
    }
}

/// A reference that changes is noticed however deep it stands: any path below `refs` of the git
/// directory that is no lock file is a change of HEAD.
pub proof fn law_references_count_at_any_depth(
    git_dir: &str,
    path: &str,
    tail: Seq<Seq<char>>,
    r: Option<Reason>,
)
    requires
        call_ensures(classify_one, (git_dir, path), r),
        components(path@) == components(git_dir@).push("refs"@) + tail,
        extension(path@) != Some("lock"@),
    ensures
        r == Some(Reason::Head),
{
    reveal_strlit("refs");
    reveal_strlit("index");
    reveal_strlit("HEAD");
    reveal_strlit("MERGE_HEAD");
    let (g, c) = (components(git_dir@), components(path@));
    assert(c.take(g.len() as int) =~= g);
    assert(g.is_prefix_of(c));
    let rel = c.skip(g.len() as int);
    assert(rel =~= seq!["refs"@] + tail);
    assert(rel[0] == "refs"@);
    assert("refs"@[0] == 'r' && "index"@[0] == 'i');
    assert(rel != seq!["index"@]) by {
        assert(seq!["index"@][0] == "index"@);
    }
}

/// What counts inside the git directory besides references: the index as such, HEAD and MERGE_HEAD
/// as changes of HEAD, and nothing else, neither the directory itself nor anything with another
/// first name, nor anything below one of these names.
pub proof fn law_git_directory_is_an_allow_list(
    git_dir: &str,
    path: &str,
    rel: Seq<Seq<char>>,
    r: Option<Reason>,
)
    requires
        call_ensures(classify_one, (git_dir, path), r),
        components(path@) == components(git_dir@) + rel,
        extension(path@) != Some("lock"@),
    ensures
        rel == seq!["index"@] ==> r == Some(Reason::Index),
        rel == seq!["HEAD"@] ==> r == Some(Reason::Head),
        rel == seq!["MERGE_HEAD"@] ==> r == Some(Reason::Head),
        rel.len() == 0 ==> r is None,
        rel.len() > 0 && rel[0] != "refs"@ && rel[0] != "index"@ && rel[0] != "HEAD"@ && rel[0]
            != "MERGE_HEAD"@ ==> r is None,
        rel.len() > 1 && rel[0] != "refs"@ ==> r is None,
{
    reveal_strlit("index");
    reveal_strlit("HEAD");
    reveal_strlit("MERGE_HEAD");
    reveal_strlit("refs");
    let (g, c) = (components(git_dir@), components(path@));
    assert(c.take(g.len() as int) =~= g);
    assert(g.is_prefix_of(c));
    assert(c.skip(g.len() as int) =~= rel);
    assert("index"@.len() == 5 && "HEAD"@.len() == 4 && "MERGE_HEAD"@.len() == 10);
    assert(seq!["index"@][0] == "index"@);
    assert(seq!["HEAD"@][0] == "HEAD"@);
    assert(seq!["MERGE_HEAD"@][0] == "MERGE_HEAD"@);
    assert("refs"@[0] == 'r' && "HEAD"@[0] == 'H');
}

/// Outside of the git directory everything is a change of the working tree but lock files, which
/// count nowhere.
pub proof fn law_working_tree_changes_count(git_dir: &str, path: &str, r: Option<Reason>)
    requires
        call_ensures(classify_one, (git_dir, path), r),
    ensures
        extension(path@) == Some("lock"@) ==> r is None,
        extension(path@) != Some("lock"@) && !components(git_dir@).is_prefix_of(components(path@))
            ==> r == Some(Reason::Fs),
{
}

/// The words by which a window is told the reason of a refresh.
pub proof fn law_reasons_have_their_words(r: Reason, word: &'static str, rank: u8)
    requires
        call_ensures(Reason::as_str, (r,), word),
        call_ensures(Reason::rank, (r,), rank),
    ensures
        r is Index ==> word@ == "index"@ && rank == 2,
        r is Head ==> word@ == "head"@ && rank == 1,
        r is Fs ==> word@ == "fs"@ && rank == 0,
{
}

/// One event more: it is counted; where it is kept, it is counted as kept and strengthens the
/// pending reason, which never weakens and is not lost; and where it is dropped, neither changes.
pub proof fn law_event_strengthens_a_burst(
    rules: Rules,
    git_dir: Seq<Seq<char>>,
    workdir: Seq<Seq<char>>,
    b: Burst,
    paths: Seq<Seq<char>>,
    path: Seq<char>,
)
    requires
        closed_downward(rules, workdir),
        truthful(rules, b.dirs),
    ensures
        ({
            let before = after_events(rules, git_dir, workdir, b, paths);
            let after = after_events(rules, git_dir, workdir, b, paths.push(path));
            let inside = git_dir.is_prefix_of(components(path));
            let reason = classified(git_dir, path);
            let dropped = (!inside && rules(path)) || reason is None;
            &&& after.raw == before.raw + 1
            &&& dropped ==> after.kept == before.kept && after.pending == before.pending
            &&& !dropped ==> after.kept == before.kept + 1 && match before.pending {
                None => after.pending == reason,
                Some(p) => {
                    &&& after.pending == Some(p) || after.pending == reason
                    &&& p is Index || reason == Some(Reason::Index) ==> after.pending == Some(
                        Reason::Index,
                    )
                    &&& p is Fs ==> after.pending == reason
                    &&& reason == Some(Reason::Fs) ==> after.pending == Some(p)
                    &&& p is Head && reason == Some(Reason::Head) ==> after.pending == Some(
                        Reason::Head,
                    )
                },
            }
            &&& after.samples == if before.samples.len() < 5 {
                before.samples.push(path)
            } else {
                before.samples
            }
        }),
{
    assert(paths.push(path).drop_last() =~= paths);
    law_burst_ignores_the_cache(rules, git_dir, workdir, b, paths);
    let before = after_events(rules, git_dir, workdir, b, paths);
    law_cache_answers_truly(rules, before.dirs, workdir, path);
}

/// What is due at the end of a burst: a refresh for the pending reason if and only if something
/// was kept for one, and a warning of a storm from a thousand events on, kept or not.
pub proof fn law_flush_refreshes_for_the_pending_reason(
    pending: Option<Reason>,
    stats: &BurstStats,
    r: FlushReport,
)
    requires
        call_ensures(flush_burst, (pending, stats), r),
    ensures
        r.refresh == pending,
        r.storm <==> stats.raw_events >= 1000,
        r.notable <==> pending is Some && stats.kept > 100,
{
}

/// Events never go unanswered: they only open or continue a burst; silence and the end of watching
/// flush the burst under way, once and for its pending reason, and leave none; the end of watching
/// then stops.
pub proof fn law_debouncer_flushes_each_burst_once<Q: Fn(&str) -> bool>(
    git_dir: &str,
    workdir: &str,
    is_ignored: &Q,
    open: Option<OpenBurst>,
    signal: Signal,
    r: (Option<OpenBurst>, Vec<DebounceAction>),
)
    requires
        call_ensures(debounce_step::<Q>, (git_dir, workdir, is_ignored, open, signal), r),
    ensures
        signal is Paths ==> r.0 is Some && r.1@.len() == 0,
        signal matches Signal::Paths(paths) ==> (r.0 matches Some(b) && b.stats.raw_events
            == paths@.len() + match open {
            Some(o) => o.stats.raw_events,
            None => 0,
        }),
        signal matches Signal::Failed(text) ==> r.0 is Some && r.1@.len() == 1 && (
        r.1@[0] matches DebounceAction::WatchError(m) && m@ == "File watch error: "@ + text@),
        signal is Failed ==> (r.0 matches Some(b) && (open matches Some(o) ==> b.pending
            == o.pending && b.stats.raw_events == o.stats.raw_events && b.stats.kept
            == o.stats.kept)),
        signal is Quiet || signal is Closed ==> r.0 is None,
        (signal is Quiet || signal is Closed) && open is Some ==> r.1@.len() > 0 && (
        r.1@[0] matches DebounceAction::Flush(report, stats) && report.refresh == open->0.pending
            && stats == open->0.stats && (report.storm <==> stats.raw_events >= 1000)),
        signal is Quiet ==> r.1@.len() == if open is Some {
            1nat
        } else {
            0nat
        },
        signal is Closed ==> r.1@.len() > 0 && r.1@.last() is Stop && r.1@.len() == if open
            is Some {
            2nat
        } else {
            1nat
        },
{
    if let Some(o) = open {
        assert(current(open) == o@);
    }
    if signal is Failed {
        let b = r.0->0;
        assert(b@ == current(open));
    }
}

/// Which question is put to the ignore rules: about the rest of a path below the working
/// directory, under the same names; none about a path elsewhere.
pub proof fn law_questions_name_the_rest_of_the_path(workdir: &str, path: &str, r: Option<String>)
    requires
        call_ensures(ignore_query_path, (Some(workdir), path), r),
    ensures
        r is Some <==> components(workdir@).is_prefix_of(components(path@)),
        r matches Some(q) ==> components(q@) == components(path@).skip(
            components(workdir@).len() as int,
        ),
{
    if components(workdir@).is_prefix_of(components(path@)) {
        law_rest_names_the_other_components(path@, components(workdir@).len());
    }
}

/// A path is taken to be ignored only on a clear yes: not outside of the working directory, not
/// without one, and not where the question fails.
pub proof fn law_only_a_clear_yes_ignores<A>(
    workdir: Option<&str>,
    path: &str,
    ask: &A,
    r: bool,
) where A: Fn(&str) -> Result<bool, git2::Error>
    requires
        call_ensures(path_is_ignored::<A>, (workdir, path, ask), r),
        r,
    ensures
        workdir matches Some(w) && components(w@).is_prefix_of(components(path@)),
        exists|q: &str| #[trigger]
            call_ensures(*ask, (q,), Ok::<bool, git2::Error>(true)) && components(q@) == components(
                path@,
            ).skip(components(workdir->0@).len() as int),
{
    let w = workdir->0;
    law_rest_names_the_other_components(path@, components(w@).len());
}

/// An ignored directory is found once: after a path whose parent is ignored was asked about,
/// everything below that parent is answered without a question, and so is everything below the
/// directory above it where that one is ignored too. What was known stays known.
pub proof fn law_ignored_directory_is_remembered(
    rules: Rules,
    dirs: Set<Seq<char>>,
    workdir: Seq<Seq<char>>,
    path: Seq<char>,
    other: Seq<char>,
)
    requires
        workdir.is_prefix_of(components(path)),
        workdir.len() + 1 < components(path).len(),
        rules(parent_text(path)),
    ensures
        dirs.subset_of(dirs_after(rules, dirs, workdir, path)),
        !covered(dirs, workdir, components(path)) && components(path).drop_last().is_prefix_of(
            components(other),
        ) ==> covered(dirs_after(rules, dirs, workdir, path), workdir, components(other)),
        !covered(dirs, workdir, components(path)) && workdir.len() + 2 < components(path).len()
            && rules(parent_text(parent_text(path)))
            && components(path).drop_last().drop_last().is_prefix_of(components(other)) ==> covered(
            dirs_after(rules, dirs, workdir, path),
            workdir,
            components(other),
        ),
{
    let c = components(path);
    let o = components(other);
    let after = dirs_after(rules, dirs, workdir, path);
    let parent = parent_text(path);
    lemma_parent_components(path);
    if !covered(dirs, workdir, c) {
        assert(after.contains(path_text(components(parent))));
        if c.drop_last().is_prefix_of(o) {
            let n = c.len() - 1;
            assert(o.take(n) =~= c.drop_last());
            assert(workdir =~= o.take(workdir.len() as int)) by {
                assert(workdir =~= c.take(workdir.len() as int));
                assert(o.take(n).take(workdir.len() as int) =~= c.take(workdir.len() as int));
            }
            assert(after.contains(path_text(o.take(n))));
        }
        if workdir.len() + 2 < c.len() && rules(parent_text(parent)) {
            lemma_parent_components(parent);
            let above = parent_text(parent);
            assert(ignored_chain(rules, workdir.len(), above).contains(
                path_text(components(above)),
            ));
            assert(after.contains(path_text(components(above))));
            if c.drop_last().drop_last().is_prefix_of(o) {
                let n = c.len() - 2;
                assert(o.take(n) =~= c.drop_last().drop_last());
                assert(workdir =~= o.take(workdir.len() as int)) by {
                    assert(workdir =~= c.take(workdir.len() as int));
                    assert(o.take(n).take(workdir.len() as int) =~= c.take(workdir.len() as int));
                }
                assert(after.contains(path_text(o.take(n))));
            }
        }
    }
}

/// Each event path is counted once, and the first five are kept as examples, in their order.
pub proof fn law_first_events_are_the_examples(s: &mut BurstStats, path: &str)
    requires
        call_ensures(BurstStats::record_raw, (s, path), ()),
    ensures
        final(s).raw_events == old(s).raw_events + 1,
        final(s).kept == old(s).kept,
        old(s).samples@.len() < 5 ==> texts(final(s).samples@) == texts(old(s).samples@).push(path@),
        old(s).samples@.len() >= 5 ==> texts(final(s).samples@) == texts(old(s).samples@),
{
    assert(texts(old(s).samples@).len() == old(s).samples@.len());
}

/// The cache never forgets a directory.
pub proof fn law_cache_never_forgets(
    rules: Rules,
    dirs: Set<Seq<char>>,
    workdir: Seq<Seq<char>>,
    path: Seq<char>,
)
    ensures
        dirs.subset_of(dirs_after(rules, dirs, workdir, path)),
{
}

/// A burst that is flushed is told as notable where something is refreshed and more than a hundred
/// events were kept.
pub proof fn law_flushed_burst_is_notable_from_a_hundred_on<Q: Fn(&str) -> bool>(
    git_dir: &str,
    workdir: &str,
    is_ignored: &Q,
    burst: OpenBurst,
    signal: Signal,
    r: (Option<OpenBurst>, Vec<DebounceAction>),
)
    requires
        call_ensures(debounce_step::<Q>, (git_dir, workdir, is_ignored, Some(burst), signal), r),
        signal is Quiet || signal is Closed,
    ensures
        r.1@.len() > 0,
        r.1@[0] matches DebounceAction::Flush(report, _) && (report.notable <==> burst.pending
            is Some && burst.stats.kept > 100),
{
}

} // verus!

//! Paths as sequences of components.
//!
//! A path is text with `/` between its components. What a path means is its component
//! sequence: repeated and trailing separators do not count, nor does a `.` anywhere but at the
//! head of a relative path. The root of an absolute path is the empty component at the head.

use crate::text::{
    chars_of, just, lemma_pieces_clean, lemma_pieces_join, lemma_pieces_non_empty,
    lemma_pieces_single, owned, pieces, same_text, split_on, text_range, texts,
};
use vstd::prelude::*;
use vstd::string::StringExecFns;

verus! {

/// Whether a path starts at the root.
pub open spec fn absolute(p: Seq<char>) -> bool {
    p.len() > 0 && p[0] == '/'
}

/// Whether a piece between separators is a component that counts anywhere in a path.
pub open spec fn is_name(n: Seq<char>) -> bool {
    n.len() > 0 && n != "."@
}

/// The pieces that are components, in order.
pub open spec fn names(ps: Seq<Seq<char>>) -> Seq<Seq<char>> {
    ps.filter(|n: Seq<char>| is_name(n))
}

/// What stands before the names of a path: the root, a leading `.`, or nothing.
pub open spec fn head(p: Seq<char>) -> Seq<Seq<char>> {
    if absolute(p) {
        seq![Seq::empty()]
    } else if pieces(p, just('/'))[0] == "."@ {
        seq!["."@]
    } else {
        Seq::empty()
    }
}

/// The components of a path.
pub open spec fn components(p: Seq<char>) -> Seq<Seq<char>> {
    head(p) + names(pieces(p, just('/')))
}

/// Texts put together with `/` between them.
pub open spec fn joined(c: Seq<Seq<char>>) -> Seq<char>
    decreases c.len(),
{
    if c.len() == 0 {
        Seq::empty()
    } else if c.len() == 1 {
        c[0]
    } else {
        joined(c.drop_last()) + "/"@ + c.last()
    }
}

/// The shortest text of a component sequence.
pub open spec fn path_text(c: Seq<Seq<char>>) -> Seq<char> {
    if c == seq![Seq::<char>::empty()] {
        "/"@
    } else {
        joined(c)
    }
}

/// The sequences that are the components of some path.
pub open spec fn well_formed(c: Seq<Seq<char>>) -> bool {
    &&& forall|i: int| 0 <= i < c.len() ==> !(#[trigger] c[i]).contains('/')
    &&& forall|i: int| 1 <= i < c.len() ==> is_name(#[trigger] c[i])
}

/// Selecting the names works piece by piece.
pub proof fn lemma_names_push(ps: Seq<Seq<char>>, p: Seq<char>)
    ensures
        names(ps.push(p)) == if is_name(p) {
            names(ps).push(p)
        } else {
            names(ps)
        },
{
    reveal(Seq::filter);
    assert(ps.push(p).drop_last() =~= ps);
}

/// The names of two piece sequences put together are their names put together.
pub proof fn lemma_names_add(a: Seq<Seq<char>>, b: Seq<Seq<char>>)
    ensures
        names(a + b) == names(a) + names(b),
    decreases b.len(),
{
    if b.len() == 0 {
        reveal(Seq::filter);
        assert(a + b =~= a);
        assert(names(b) =~= Seq::empty());
        assert(names(a) + names(b) =~= names(a));
    } else {
        lemma_names_add(a, b.drop_last());
        assert(a + b =~= (a + b.drop_last()).push(b.last()));
        assert(b =~= b.drop_last().push(b.last()));
        lemma_names_push(a + b.drop_last(), b.last());
        lemma_names_push(b.drop_last(), b.last());
        assert(names(a) + names(b) =~= if is_name(b.last()) {
            (names(a) + names(b.drop_last())).push(b.last())
        } else {
            names(a) + names(b.drop_last())
        });
    }
}

/// A sequence of names alone is kept whole.
pub proof fn lemma_names_all(ps: Seq<Seq<char>>)
    requires
        forall|i: int| 0 <= i < ps.len() ==> is_name(#[trigger] ps[i]),
    ensures
        names(ps) == ps,
    decreases ps.len(),
{
    if ps.len() == 0 {
        reveal(Seq::filter);
        assert(names(ps) =~= ps);
    } else {
        let t = ps.drop_last();
        assert forall|i: int| 0 <= i < t.len() implies is_name(#[trigger] t[i]) by {
            assert(t[i] == ps[i]);
        }
        lemma_names_all(t);
        lemma_names_push(t, ps.last());
        assert(t.push(ps.last()) =~= ps);
        assert(is_name(ps[ps.len() - 1]));
    }
}

/// Every name comes from the pieces.
pub proof fn lemma_names_member(ps: Seq<Seq<char>>, i: int)
    requires
        0 <= i < names(ps).len(),
    ensures
        is_name(names(ps)[i]),
        ps.contains(names(ps)[i]),
    decreases ps.len(),
{
    reveal(Seq::filter);
    if ps.len() > 0 {
        let t = ps.drop_last();
        assert(t.push(ps.last()) =~= ps);
        lemma_names_push(t, ps.last());
        if i < names(t).len() {
            lemma_names_member(t, i);
            let k = choose|k: int| 0 <= k < t.len() && t[k] == names(t)[i];
            assert(ps[k] == names(ps)[i]);
        } else {
            assert(ps[ps.len() - 1] == names(ps)[i]);
        }
    }
}

/// The components of a path are a well-formed sequence.
pub proof fn lemma_components_well_formed(p: Seq<char>)
    ensures
        well_formed(components(p)),
        forall|i: int| 0 <= i < components(p).len() ==> (#[trigger] components(p)[i]).len() > 0
            || (i == 0 && absolute(p)),
        components(p).len() > 0 && components(p)[0] == Seq::<char>::empty() ==> absolute(p),
{
    reveal_strlit(".");
    let ps = pieces(p, just('/'));
    let c = components(p);
    let h = head(p).len() as int;
    assert forall|i: int| 0 <= i < c.len() implies !(#[trigger] c[i]).contains('/') && (i >= h ==>
        is_name(c[i])) by {
        if i >= h {
            assert(c[i] == names(ps)[i - h]);
            lemma_names_member(ps, i - h);
            let k = choose|k: int| 0 <= k < ps.len() && ps[k] == names(ps)[i - h];
            if c[i].contains('/') {
                let j = choose|j: int| 0 <= j < c[i].len() && c[i][j] == '/';
                lemma_pieces_clean(p, just('/'), k, j);
                assert(false);
            }
        }
    }
    if c.len() > 0 && !absolute(p) {
        assert(h > 0 ==> c[0] == "."@);
        assert(c[0].len() > 0);
    }
}

/// The pieces of joined texts are those texts.
pub proof fn lemma_pieces_joined(c: Seq<Seq<char>>)
    requires
        c.len() > 0,
        forall|i: int| 0 <= i < c.len() ==> !(#[trigger] c[i]).contains('/'),
    ensures
        pieces(joined(c), just('/')) == c,
    decreases c.len(),
{
    let sep = just('/');
    assert forall|k: int| 0 <= k < c.last().len() implies !sep(#[trigger] c.last()[k]) by {
        assert(!c[c.len() - 1].contains('/'));
        assert(c.last()[k] != '/');
    }
    lemma_pieces_single(c.last(), sep);
    if c.len() == 1 {
        assert(seq![c[0]] =~= c);
    } else {
        let t = c.drop_last();
        assert forall|i: int| 0 <= i < t.len() implies !(#[trigger] t[i]).contains('/') by {
            assert(t[i] == c[i]);
        }
        lemma_pieces_joined(t);
        lemma_pieces_join(joined(t), '/', c.last(), sep);
        reveal_strlit("/");
        assert(joined(t) + "/"@ + c.last() =~= joined(t).push('/') + c.last());
        assert(t + seq![c.last()] =~= c);
    }
}

/// The text of a well-formed sequence has that sequence as its components, so that two
/// component sequences with one text are the same.
pub proof fn law_path_text_reads_back(c: Seq<Seq<char>>)
    requires
        well_formed(c),
    ensures
        components(path_text(c)) == c,
{
    reveal_strlit(".");
    reveal_strlit("/");
    let sep = just('/');
    let none = Seq::<char>::empty();
    if c.len() == 0 {
        assert(path_text(c) =~= none);
        lemma_pieces_single(none, sep);
        let ps = pieces(none, sep);
        assert(ps =~= Seq::<Seq<char>>::empty().push(none));
        lemma_names_push(Seq::<Seq<char>>::empty(), none);
        lemma_names_all(Seq::<Seq<char>>::empty());
        assert(none.len() != "."@.len());
        assert(components(none) =~= c);
    } else if c == seq![none] {
        let p = "/"@;
        assert(p =~= none.push('/') + none);
        lemma_pieces_join(none, '/', none, sep);
        lemma_pieces_single(none, sep);
        let ps = pieces(p, sep);
        assert(ps =~= Seq::<Seq<char>>::empty().push(none).push(none));
        lemma_names_push(Seq::<Seq<char>>::empty().push(none), none);
        lemma_names_push(Seq::<Seq<char>>::empty(), none);
        lemma_names_all(Seq::<Seq<char>>::empty());
        assert(components(p) =~= c);
    } else {
        let p = joined(c);
        if c[0].len() == 0 {
            assert(c[0] =~= none);
            assert(c.len() == 1 ==> c =~= seq![none]);
        }
        lemma_pieces_joined(c);
        lemma_joined_starts(c);
        let rest = c.drop_first();
        assert(c =~= seq![c[0]] + rest);
        assert forall|i: int| 0 <= i < rest.len() implies is_name(#[trigger] rest[i]) by {
            assert(rest[i] == c[i + 1]);
        }
        lemma_names_all(rest);
        lemma_names_add(seq![c[0]], rest);
        assert(seq![c[0]] =~= Seq::<Seq<char>>::empty().push(c[0]));
        lemma_names_push(Seq::<Seq<char>>::empty(), c[0]);
        lemma_names_all(Seq::<Seq<char>>::empty());
        if c[0] == none {
            assert(absolute(p));
            assert(components(p) =~= c);
        } else {
            assert(!c[0].contains('/'));
            assert(!absolute(p)) by {
                assert(p[0] == c[0][0]);
            }
            if c[0] == "."@ {
                assert(components(p) =~= c);
            } else {
                assert(components(p) =~= c);
            }
        }
    }
}

/// A path and the shortest text of its components have the same components.
pub proof fn law_shortest_text_keeps_components(p: Seq<char>)
    ensures
        components(path_text(components(p))) == components(p),
{
    lemma_components_well_formed(p);
    law_path_text_reads_back(components(p));
}

/// Where joined text starts.
proof fn lemma_joined_starts(c: Seq<Seq<char>>)
    requires
        c.len() > 0,
        c.len() > 1 || c[0].len() > 0,
    ensures
        joined(c).len() > 0,
        c[0].len() > 0 ==> joined(c)[0] == c[0][0],
        c[0].len() == 0 ==> joined(c)[0] == '/',
    decreases c.len(),
{
    reveal_strlit("/");
    if c.len() > 1 {
        let t = c.drop_last();
        if t.len() > 1 || t[0].len() > 0 {
            lemma_joined_starts(t);
        } else {
            assert(joined(t) =~= Seq::empty());
        }
    }
}

/// A path put under another: the second alone where it is absolute, otherwise both with one
/// separator between them.
pub open spec fn under(base: Seq<char>, rel: Seq<char>) -> Seq<char> {
    if absolute(rel) || base.len() == 0 {
        rel
    } else if base.last() == '/' {
        base + rel
    } else {
        base + "/"@ + rel
    }
}

/// A relative path put under a base has the components of the base, then its own names.
pub proof fn lemma_under_components(base: Seq<char>, rel: Seq<char>)
    requires
        base.len() > 0,
        !absolute(rel),
    ensures
        components(under(base, rel)) == components(base) + names(pieces(rel, just('/'))),
{
    reveal_strlit("/");
    let sep = just('/');
    let none = Seq::<char>::empty();
    let p = under(base, rel);
    lemma_pieces_non_empty(base, sep);
    if base.last() == '/' {
        let b = base.drop_last();
        assert(p =~= b.push('/') + rel);
        assert(base =~= b.push('/') + none);
        lemma_pieces_join(b, '/', rel, sep);
        lemma_pieces_join(b, '/', none, sep);
        lemma_pieces_single(none, sep);
        lemma_pieces_non_empty(b, sep);
        lemma_names_add(pieces(b, sep), pieces(rel, sep));
        assert(pieces(base, sep) =~= pieces(b, sep).push(none));
        lemma_names_push(pieces(b, sep), none);
        assert(pieces(p, sep)[0] == pieces(base, sep)[0]);
    } else {
        assert(p =~= base.push('/') + rel);
        lemma_pieces_join(base, '/', rel, sep);
        lemma_names_add(pieces(base, sep), pieces(rel, sep));
        assert(pieces(p, sep)[0] == pieces(base, sep)[0]);
    }
    assert(p[0] == base[0]);
    assert(components(p) =~= components(base) + names(pieces(rel, sep)));
}

/// Whether `p` starts at the root.
pub fn is_absolute(p: &str) -> (r: bool)
    ensures
        r == absolute(p@),
{
    let cs = chars_of(p);
    cs.len() > 0 && cs[0] == '/'
}

/// Whether a piece is `.`.
fn is_dot(s: &str) -> (r: bool)
    ensures
        r == (s@ == "."@),
{
    same_text(s, ".")
}

/// The components of `p`.
pub fn split_path(p: &str) -> (r: Vec<String>)
    ensures
        texts(r@) == components(p@),
{
    let ps = split_on(p, '/');
    let ghost pieces_p = pieces(p@, just('/'));
    proof {
        lemma_pieces_non_empty(p@, just('/'));
        assert(texts(ps@).len() == ps@.len());
        assert(texts(ps@)[0] == ps@[0]@);
    }
    let mut out: Vec<String> = Vec::new();
    if is_absolute(p) {
        out.push(String::new());
        assert(texts(out@) =~= head(p@)) by {
            assert(texts(out@)[0] =~= Seq::<char>::empty());
        }
    } else if is_dot(ps[0].as_str()) {
        out.push(owned("."));
        assert(texts(out@) =~= head(p@));
    } else {
        assert(texts(out@) =~= head(p@));
    }
    let mut i: usize = 0;
    proof {
        assert(pieces_p.take(0) =~= Seq::<Seq<char>>::empty());
        lemma_names_all(Seq::<Seq<char>>::empty());
        assert(texts(out@) =~= head(p@) + names(pieces_p.take(0)));
    }
    while i < ps.len()
        invariant
            0 <= i <= ps@.len(),
            texts(ps@) == pieces_p,
            texts(ps@).len() == ps@.len(),
            texts(out@) == head(p@) + names(pieces_p.take(i as int)),
        decreases ps@.len() - i,
    {
        proof {
            assert(texts(ps@)[i as int] == ps@[i as int]@);
            assert(pieces_p.take(i + 1) =~= pieces_p.take(i as int).push(ps@[i as int]@));
            lemma_names_push(pieces_p.take(i as int), ps@[i as int]@);
        }
        if !ps[i].as_str().is_empty() && !is_dot(ps[i].as_str()) {
            let ghost before = out@;
            out.push(ps[i].clone());
            assert(texts(out@) =~= texts(before).push(ps@[i as int]@));
        }
        assert(texts(out@) =~= head(p@) + names(pieces_p.take(i + 1)));
        i += 1;
    }
    assert(pieces_p.take(ps@.len() as int) =~= pieces_p);
    out
}

/// The text of the first `n` components.
pub fn text_of(c: &Vec<String>, n: usize) -> (r: String)
    requires
        n <= c@.len(),
    ensures
        r@ == path_text(texts(c@).take(n as int)),
{
    let ghost all = texts(c@);
    if n == 0 {
        assert(all.take(0) =~= Seq::<Seq<char>>::empty());
        let s = String::new();
        assert(s@ =~= joined(all.take(0)));
        return s;
    }
    assert(all[0] == c@[0]@);
    if n == 1 && c[0].as_str().is_empty() {
        assert(all.take(1) =~= seq![Seq::<char>::empty()]) by {
            assert(all[0] =~= Seq::<char>::empty());
        }
        return owned("/");
    }
    let mut out = c[0].clone();
    let mut i: usize = 1;
    assert(all.take(1) =~= seq![all[0]]);
    while i < n
        invariant
            1 <= i <= n <= c@.len(),
            all == texts(c@),
            out@ == joined(all.take(i as int)),
        decreases n - i,
    {
        proof {
            assert(all[i as int] == c@[i as int]@);
            assert(all.take(i + 1).drop_last() =~= all.take(i as int));
            assert(all.take(i + 1).last() == c@[i as int]@);
        }
        out.append("/");
        out.append(c[i].as_str());
        i += 1;
    }
    assert(all.take(n as int) != seq![Seq::<char>::empty()]) by {
        if n == 1 {
            assert(all.take(1)[0] == all[0]);
            assert(seq![Seq::<char>::empty()][0] == Seq::<char>::empty());
        } else {
            assert(seq![Seq::<char>::empty()].len() == 1);
        }
    }
    out
}

/// `rel` put under `base`.
pub fn join_path(base: &str, rel: &str) -> (r: String)
    ensures
        r@ == under(base@, rel@),
{
    let bs = chars_of(base);
    if is_absolute(rel) || bs.len() == 0 {
        return owned(rel);
    }
    if bs[bs.len() - 1] == '/' {
        crate::text::join2(base, rel)
    } else {
        crate::text::join3(base, "/", rel)
    }
}

/// A path without what does not count at its end: separators, but for the root, and each `.`
/// behind a separator.
pub open spec fn trimmed_path(p: Seq<char>) -> Seq<char>
    decreases p.len(),
{
    if p.len() > 1 && (p.last() == '/' || (p.last() == '.' && p[p.len() - 2] == '/')) {
        trimmed_path(p.drop_last())
    } else {
        p
    }
}

/// A path without the characters behind its last separator.
pub open spec fn without_name(p: Seq<char>) -> Seq<char>
    decreases p.len(),
{
    if p.len() > 0 && p.last() != '/' {
        without_name(p.drop_last())
    } else {
        p
    }
}

/// The parent of a path, spelled as the path spells it.
pub open spec fn parent_text(p: Seq<char>) -> Seq<char> {
    trimmed_path(without_name(trimmed_path(p)))
}

/// A separator at the end of a path does not count, but for the root.
proof fn lemma_trailing_separator(p: Seq<char>)
    requires
        p.len() > 0,
    ensures
        components(p.push('/')) == components(p),
{
    let sep = just('/');
    let none = Seq::<char>::empty();
    lemma_pieces_non_empty(p, sep);
    assert(p.push('/') + none =~= p.push('/'));
    lemma_pieces_join(p, '/', none, sep);
    lemma_pieces_single(none, sep);
    assert(pieces(p.push('/'), sep) =~= pieces(p, sep).push(none));
    lemma_names_push(pieces(p, sep), none);
    assert(components(p.push('/')) =~= components(p));
}

/// The components of `a`, a separator and `b`, where `b` holds no separator.
proof fn lemma_last_piece(a: Seq<char>, b: Seq<char>)
    requires
        !b.contains('/'),
    ensures
        components(a.push('/') + b) == if is_name(b) {
            components(a.push('/')).push(b)
        } else {
            components(a.push('/'))
        },
{
    let sep = just('/');
    let none = Seq::<char>::empty();
    let (p, q) = (a.push('/') + b, a.push('/'));
    lemma_pieces_non_empty(a, sep);
    assert forall|k: int| 0 <= k < b.len() implies !sep(#[trigger] b[k]) by {
        assert(b.contains(b[k]));
    }
    lemma_pieces_single(b, sep);
    lemma_pieces_single(none, sep);
    lemma_pieces_join(a, '/', b, sep);
    lemma_pieces_join(a, '/', none, sep);
    assert(q + none =~= q);
    assert(pieces(p, sep) =~= pieces(a, sep).push(b));
    assert(pieces(q, sep) =~= pieces(a, sep).push(none));
    lemma_names_push(pieces(a, sep), b);
    lemma_names_push(pieces(a, sep), none);
    assert(p[0] == q[0]);
    assert(head(p) =~= head(q));
    assert(components(p) =~= if is_name(b) {
        components(q).push(b)
    } else {
        components(q)
    });
}

/// A path without the end that does not count has the same components.
pub proof fn lemma_trimmed_components(p: Seq<char>)
    ensures
        components(trimmed_path(p)) == components(p),
        trimmed_path(p).len() <= p.len(),
        trimmed_path(p) == p.take(trimmed_path(p).len() as int),
        trimmed_path(trimmed_path(p)) == trimmed_path(p),
        p.len() > 0 ==> trimmed_path(p).len() > 0,
    decreases p.len(),
{
    if p.len() > 1 && (p.last() == '/' || (p.last() == '.' && p[p.len() - 2] == '/')) {
        let q = p.drop_last();
        lemma_trimmed_components(q);
        assert(trimmed_path(p) =~= p.take(trimmed_path(p).len() as int));
        if p.last() == '/' {
            assert(p =~= q.push('/'));
            lemma_trailing_separator(q);
        } else {
            reveal_strlit(".");
            let a = q.drop_last();
            assert(q =~= a.push('/'));
            assert(p =~= a.push('/') + "."@);
            assert(!"."@.contains('/'));
            lemma_last_piece(a, "."@);
        }
    } else {
        assert(p.take(p.len() as int) =~= p);
    }
}

/// What stands behind the last separator of a path.
proof fn lemma_without_name(p: Seq<char>)
    ensures
        without_name(p).len() <= p.len(),
        without_name(p) == p.take(without_name(p).len() as int),
        without_name(p).len() == 0 || without_name(p).last() == '/',
        !p.skip(without_name(p).len() as int).contains('/'),
    decreases p.len(),
{
    if p.len() > 0 && p.last() != '/' {
        let q = p.drop_last();
        lemma_without_name(q);
        let n = without_name(p).len() as int;
        assert(without_name(p) =~= p.take(n));
        assert(p.skip(n) =~= q.skip(n).push(p.last()));
        assert forall|k: int| 0 <= k < p.skip(n).len() implies p.skip(n)[k] != '/' by {
            if k < q.skip(n).len() {
                assert(q.skip(n).contains(q.skip(n)[k]));
            }
        }
    } else {
        assert(p.take(p.len() as int) =~= p);
        assert(p.skip(p.len() as int) =~= Seq::<char>::empty());
    }
}

/// The empty path has no components, and the root is the only one of its path.
proof fn lemma_shortest_paths(p: Seq<char>)
    ensures
        p.len() == 0 ==> components(p).len() == 0,
        p.len() == 1 && p[0] == '/' ==> components(p) == seq![Seq::<char>::empty()],
{
    reveal_strlit(".");
    let sep = just('/');
    let none = Seq::<char>::empty();
    let empty = Seq::<Seq<char>>::empty();
    lemma_pieces_single(none, sep);
    lemma_names_all(empty);
    lemma_names_push(empty, none);
    if p.len() == 0 {
        assert(p =~= none);
        assert(pieces(p, sep) =~= empty.push(none));
    } else if p.len() == 1 && p[0] == '/' {
        assert(p =~= none.push('/') + none);
        lemma_pieces_join(none, '/', none, sep);
        assert(pieces(p, sep) =~= empty.push(none).push(none));
        lemma_names_push(empty.push(none), none);
        assert(components(p) =~= seq![none]);
    }
}

/// A path of one piece has one component.
proof fn lemma_lone_piece(b: Seq<char>)
    requires
        b.len() > 0,
        !b.contains('/'),
    ensures
        components(b).len() == 1,
{
    reveal_strlit(".");
    let empty = Seq::<Seq<char>>::empty();
    lemma_first_piece(b);
    assert(seq![b] =~= empty.push(b));
    lemma_names_push(empty, b);
    lemma_names_all(empty);
    assert(!absolute(b)) by {
        assert(b.contains(b[0]));
    }
}

/// A path that ends in a name has one component more than what stands before the name.
proof fn lemma_name_at_end(t: Seq<char>)
    requires
        t.len() > 0,
        t.last() != '/',
        t.len() > 1 ==> !(t.last() == '.' && t[t.len() - 2] == '/'),
    ensures
        components(without_name(t)) == components(t).drop_last(),
        without_name(t).len() < t.len(),
{
    let a = without_name(t);
    lemma_without_name(t);
    let b = t.skip(a.len() as int);
    assert(t =~= a + b);
    assert(b.len() > 0);
    if a.len() == 0 {
        assert(t =~= b);
        lemma_shortest_paths(a);
        lemma_lone_piece(b);
        assert(components(t).drop_last() =~= Seq::<Seq<char>>::empty());
    } else {
        let a0 = a.drop_last();
        assert(a =~= a0.push('/'));
        assert(is_name(b)) by {
            reveal_strlit(".");
            if b == "."@ {
                assert(t.last() == b[0]);
                assert(t[t.len() - 2] == a.last());
            }
        }
        lemma_last_piece(a0, b);
        assert(components(t).drop_last() =~= components(a));
    }
}

/// The parent of a path has its components but for the last one. In the path it is followed by a
/// separator, unless it is the root or empty.
pub proof fn lemma_parent_components(p: Seq<char>)
    requires
        components(p).len() > 0,
        components(p) != seq![Seq::<char>::empty()],
    ensures
        components(parent_text(p)) == components(p).drop_last(),
        trimmed_path(parent_text(p)) == parent_text(p),
        parent_text(p).len() < trimmed_path(p).len(),
        parent_text(p) == trimmed_path(p).take(parent_text(p).len() as int),
        parent_text(p).len() == 0 || parent_text(p) == "/"@ || trimmed_path(p)[parent_text(
            p,
        ).len() as int] == '/',
{
    let t = trimmed_path(p);
    lemma_trimmed_components(p);
    lemma_trim_stops(p);
    assert(t.len() > 0 && t.last() != '/') by {
        lemma_shortest_paths(t);
    }
    lemma_name_at_end(t);
    lemma_without_name(t);
    let a = without_name(t);
    lemma_trimmed_components(a);
    let u = trimmed_path(a);
    assert(u =~= t.take(u.len() as int));
    if a.len() > 0 {
        lemma_trim_leaves(a);
        if u != "/"@ {
            assert(t[u.len() as int] == a[u.len() as int]);
        }
    }
}

/// Where trimming stops.
proof fn lemma_trim_stops(p: Seq<char>)
    ensures
        ({
            let t = trimmed_path(p);
            t.len() > 1 ==> t.last() != '/' && !(t.last() == '.' && t[t.len() - 2] == '/')
        }),
    decreases p.len(),
{
    if p.len() > 1 && (p.last() == '/' || (p.last() == '.' && p[p.len() - 2] == '/')) {
        lemma_trim_stops(p.drop_last());
    }
}

/// What trimming leaves is the root, or is followed by a separator where something was cut off.
proof fn lemma_trim_leaves(p: Seq<char>)
    requires
        p.len() > 0,
        p.last() == '/',
    ensures
        trimmed_path(p) == "/"@ || (trimmed_path(p).len() < p.len() && p[trimmed_path(
            p,
        ).len() as int] == '/'),
    decreases p.len(),
{
    reveal_strlit("/");
    if p.len() == 1 {
        assert(p =~= "/"@);
    } else {
        let q = p.drop_last();
        let t = trimmed_path(p);
        if q.last() == '/' {
            lemma_trim_leaves(q);
        } else if q.len() > 1 && q.last() == '.' && q[q.len() - 2] == '/' {
            lemma_trim_leaves(q.drop_last());
        }
    }
}

/// The first `n` components of a path, spelled as the path spells them.
pub open spec fn text_up_to(p: Seq<char>, n: nat) -> Seq<char>
    decreases components(p).len(),
{
    if 1 <= n < components(p).len() {
        proof {
            lemma_parent_components(p);
        }
        text_up_to(parent_text(p), n)
    } else {
        trimmed_path(p)
    }
}

/// A text without what does not count at its start: separators, and each `.` before one.
pub open spec fn from_name(r: Seq<char>) -> Seq<char>
    decreases r.len(),
{
    if r.len() > 0 && r[0] == '/' {
        from_name(r.skip(1))
    } else if r.len() > 1 && r[0] == '.' && r[1] == '/' {
        from_name(r.skip(2))
    } else {
        r
    }
}

/// What follows the first `n` components of a path, spelled as the path spells it.
pub open spec fn text_after(p: Seq<char>, n: nat) -> Seq<char> {
    if n == 0 {
        trimmed_path(p)
    } else {
        from_name(trimmed_path(p).skip(text_up_to(p, n).len() as int))
    }
}

/// The first components of a path, as it spells them, are a part of its text.
proof fn lemma_text_up_to(p: Seq<char>, n: nat)
    requires
        1 <= n <= components(p).len(),
    ensures
        components(text_up_to(p, n)) == components(p).take(n as int),
        ({
            let (t, u) = (trimmed_path(p), text_up_to(p, n));
            &&& 0 < u.len() <= t.len()
            &&& u == t.take(u.len() as int)
            &&& u == "/"@ || u.len() == t.len() || t[u.len() as int] == '/'
        }),
    decreases components(p).len(),
{
    lemma_trimmed_components(p);
    let (t, u) = (trimmed_path(p), text_up_to(p, n));
    if n < components(p).len() {
        lemma_parent_components(p);
        let v = parent_text(p);
        lemma_text_up_to(v, n);
        assert(components(p).drop_last().take(n as int) =~= components(p).take(n as int));
        assert(u =~= t.take(u.len() as int));
        if u != "/"@ {
            if u.len() == v.len() {
                assert(u =~= v);
            } else {
                assert(v[u.len() as int] == t[u.len() as int]);
            }
        }
    } else {
        assert(components(p).take(n as int) =~= components(p));
        assert(t.take(t.len() as int) =~= t);
        lemma_shortest_paths(p);
    }
}

/// What a text names does not depend on what is cut off at its start.
proof fn lemma_from_name(r: Seq<char>)
    requires
        r != "."@,
        r.len() > 1 ==> !(r.last() == '.' && r[r.len() - 2] == '/'),
    ensures
        components(from_name(r)) == names(pieces(r, just('/'))),
    decreases r.len(),
{
    reveal_strlit(".");
    let sep = just('/');
    let none = Seq::<char>::empty();
    if r.len() > 0 && r[0] == '/' {
        let s = r.skip(1);
        assert(r =~= none.push('/') + s);
        lemma_pieces_join(none, '/', s, sep);
        lemma_pieces_single(none, sep);
        lemma_names_add(pieces(none, sep), pieces(s, sep));
        assert(pieces(none, sep) =~= Seq::<Seq<char>>::empty().push(none));
        lemma_names_push(Seq::<Seq<char>>::empty(), none);
        lemma_names_all(Seq::<Seq<char>>::empty());
        assert(names(pieces(r, sep)) =~= names(pieces(s, sep)));
        if s =~= "."@ {
            assert(r.last() == '.');
            assert(r[r.len() - 2] == '/');
        }
        lemma_from_name(s);
    } else if r.len() > 1 && r[0] == '.' && r[1] == '/' {
        let s = r.skip(2);
        assert(r =~= "."@.push('/') + s);
        lemma_pieces_join("."@, '/', s, sep);
        lemma_pieces_single("."@, sep);
        lemma_names_add(pieces("."@, sep), pieces(s, sep));
        assert(pieces("."@, sep) =~= Seq::<Seq<char>>::empty().push("."@));
        lemma_names_push(Seq::<Seq<char>>::empty(), "."@);
        lemma_names_all(Seq::<Seq<char>>::empty());
        assert(names(pieces(r, sep)) =~= names(pieces(s, sep)));
        if s =~= "."@ {
            assert(r.last() == '.');
            assert(r[r.len() - 2] == '/');
        }
        lemma_from_name(s);
    } else {
        lemma_first_piece(r);
        assert(components(r) =~= names(pieces(r, sep)));
    }
}

/// A path whose first piece is `.` starts with a `.` that is the whole path or stands before a
/// separator.
proof fn lemma_first_piece(r: Seq<char>)
    ensures
        pieces(r, just('/'))[0] == "."@ ==> r == "."@ || (r.len() > 1 && r[0] == '.' && r[1]
            == '/'),
        !r.contains('/') ==> pieces(r, just('/')) == seq![r],
    decreases r.len(),
{
    reveal_strlit(".");
    let sep = just('/');
    if r.contains('/') {
        let i = choose|i: int| 0 <= i < r.len() && r[i] == '/';
        lemma_first_separator(r, i);
    } else {
        assert forall|k: int| 0 <= k < r.len() implies !sep(#[trigger] r[k]) by {
            assert(r.contains(r[k]));
        }
        lemma_pieces_single(r, sep);
    }
}

/// The first piece of a path with a separator ends before one.
proof fn lemma_first_separator(r: Seq<char>, i: int)
    requires
        0 <= i < r.len(),
        r[i] == '/',
    ensures
        pieces(r, just('/'))[0] == "."@ ==> r.len() > 1 && r[0] == '.' && r[1] == '/',
    decreases i,
{
    reveal_strlit(".");
    let sep = just('/');
    let (a, b) = (r.take(i), r.skip(i + 1));
    if a.contains('/') {
        let j = choose|j: int| 0 <= j < a.len() && a[j] == '/';
        assert(r[j] == '/');
        lemma_first_separator(r, j);
    } else {
        assert(r =~= a.push('/') + b);
        lemma_pieces_join(a, '/', b, sep);
        assert forall|k: int| 0 <= k < a.len() implies !sep(#[trigger] a[k]) by {
            assert(a.contains(a[k]));
        }
        lemma_pieces_single(a, sep);
        assert(pieces(r, sep)[0] == a);
        if a == "."@ {
            assert(a[0] == r[0]);
            assert(i == 1);
        }
    }
}

/// What follows the first components of a path names the other ones.
pub proof fn law_rest_names_the_other_components(p: Seq<char>, n: nat)
    requires
        n <= components(p).len(),
    ensures
        components(text_after(p, n)) == components(p).skip(n as int),
{
    reveal_strlit(".");
    reveal_strlit("/");
    let sep = just('/');
    let none = Seq::<char>::empty();
    lemma_trimmed_components(p);
    let c = components(p);
    if n == 0 {
        assert(c.skip(0) =~= c);
    } else {
        lemma_text_up_to(p, n);
        lemma_trim_stops(p);
        let (t, u) = (trimmed_path(p), text_up_to(p, n));
        let k = u.len() as int;
        let r = t.skip(k);
        assert(t =~= u + r);
        if r.len() > 0 {
            assert(r.last() == t.last());
            if r.len() > 1 {
                assert(r[r.len() - 2] == t[t.len() - 2]);
            }
        }
        if r =~= "."@ {
            assert(t.last() == '.');
            assert(t[t.len() - 2] == u.last());
            assert(r[0] == t[k]);
            assert(u == "/"@);
            assert(false);
        }
        lemma_from_name(r);
        if r.len() == 0 {
            assert(u =~= t);
            lemma_pieces_single(r, sep);
            assert(r =~= none);
            assert(pieces(r, sep) =~= Seq::<Seq<char>>::empty().push(none));
            lemma_names_push(Seq::<Seq<char>>::empty(), none);
            lemma_names_all(Seq::<Seq<char>>::empty());
            assert(c.take(n as int) =~= c);
            assert(c.skip(n as int) =~= Seq::<Seq<char>>::empty()) by {
                assert(c.take(n as int).len() == n);
            }
        } else {
            lemma_split_components(u, r);
            assert(c =~= c.take(n as int) + names(pieces(r, sep)));
            assert(c.skip(n as int) =~= names(pieces(r, sep)));
        }
    }
}

/// The components of a path that is cut where a component ends.
proof fn lemma_split_components(u: Seq<char>, r: Seq<char>)
    requires
        u.len() > 0,
        r.len() > 0,
        u == "/"@ || r[0] == '/',
    ensures
        components(u + r) == components(u) + names(pieces(r, just('/'))),
{
    reveal_strlit("/");
    let sep = just('/');
    let none = Seq::<char>::empty();
    lemma_pieces_single(none, sep);
    lemma_pieces_non_empty(u, sep);
    let empty = Seq::<Seq<char>>::empty();
    lemma_names_all(empty);
    lemma_names_push(empty, none);
    assert(pieces(none, sep) =~= empty.push(none));
    if u == "/"@ {
        assert(u + r =~= none.push('/') + r);
        lemma_pieces_join(none, '/', r, sep);
        lemma_names_add(pieces(none, sep), pieces(r, sep));
        lemma_shortest_paths(u);
        assert(absolute(u + r));
        assert(components(u + r) =~= components(u) + names(pieces(r, sep)));
    } else {
        let s = r.skip(1);
        assert(u + r =~= u.push('/') + s);
        assert(r =~= none.push('/') + s);
        lemma_pieces_join(u, '/', s, sep);
        lemma_pieces_join(none, '/', s, sep);
        lemma_names_add(pieces(u, sep), pieces(s, sep));
        lemma_names_add(pieces(none, sep), pieces(s, sep));
        assert((u + r)[0] == u[0]);
        assert(head(u + r) =~= head(u));
        assert(names(pieces(r, sep)) =~= names(pieces(s, sep)));
        assert(components(u + r) =~= components(u) + names(pieces(r, sep)));
    }
}

/// Where the first `n` characters end once what does not count at their end is cut off.
pub fn trimmed_end(cs: &Vec<char>, n: usize) -> (r: usize)
    requires
        n <= cs@.len(),
    ensures
        r <= n,
        cs@.take(r as int) == trimmed_path(cs@.take(n as int)),
{
    let mut i: usize = n;
    while i > 1 && (cs[i - 1] == '/' || (cs[i - 1] == '.' && cs[i - 2] == '/'))
        invariant
            i <= n <= cs@.len(),
            trimmed_path(cs@.take(i as int)) == trimmed_path(cs@.take(n as int)),
        decreases i,
    {
        assert(cs@.take(i as int).drop_last() =~= cs@.take(i - 1));
        i -= 1;
    }
    i
}

/// Where the parent of the path that the first `n` characters spell ends.
pub fn parent_end(cs: &Vec<char>, n: usize) -> (r: usize)
    requires
        n <= cs@.len(),
    ensures
        r <= n,
        cs@.take(r as int) == parent_text(cs@.take(n as int)),
{
    let t = trimmed_end(cs, n);
    let mut i: usize = t;
    while i > 0 && cs[i - 1] != '/'
        invariant
            i <= t <= cs@.len(),
            without_name(cs@.take(i as int)) == without_name(cs@.take(t as int)),
        decreases i,
    {
        assert(cs@.take(i as int).drop_last() =~= cs@.take(i - 1));
        i -= 1;
    }
    trimmed_end(cs, i)
}

/// What follows the first `n` components of `p`, which has `total` of them.
pub fn rest_of(p: &str, n: usize, total: usize) -> (r: String)
    requires
        n <= total == components(p@).len(),
    ensures
        r@ == text_after(p@, n as nat),
{
    let cs = chars_of(p);
    assert(cs@.take(cs@.len() as int) =~= cs@);
    let end = trimmed_end(&cs, cs.len());
    if n == 0 {
        assert(cs@.subrange(0, end as int) =~= cs@.take(end as int));
        return text_range(&cs, 0, end);
    }
    let mut at: usize = cs.len();
    let mut left: usize = total;
    while left > n
        invariant
            1 <= n <= left,
            at <= cs@.len(),
            cs@ == p@,
            components(cs@.take(at as int)).len() == left,
            text_up_to(cs@.take(at as int), n as nat) == text_up_to(p@, n as nat),
        decreases left,
    {
        proof {
            lemma_parent_components(cs@.take(at as int));
        }
        at = parent_end(&cs, at);
        left -= 1;
    }
    let base = trimmed_end(&cs, at);
    let mut from: usize = base;
    proof {
        lemma_text_up_to(p@, n as nat);
        let t = cs@.take(end as int);
        assert(t.take(base as int) =~= cs@.take(base as int));
        assert(base <= end);
        assert(t.skip(base as int) =~= cs@.subrange(base as int, end as int));
    }
    while from < end && (cs[from] == '/' || (end - from > 1 && cs[from] == '.' && cs[from + 1]
        == '/'))
        invariant
            from <= end <= cs@.len(),
            from_name(cs@.subrange(from as int, end as int)) == text_after(p@, n as nat),
        decreases end - from,
    {
        let ghost rest = cs@.subrange(from as int, end as int);
        assert(rest[0] == cs@[from as int]);
        if cs[from] == '/' {
            from += 1;
            assert(rest.skip(1) =~= cs@.subrange(from as int, end as int));
        } else {
            assert(rest[1] == cs@[from + 1]);
            from += 2;
            assert(rest.skip(2) =~= cs@.subrange(from as int, end as int));
        }
    }
    proof {
        let rest = cs@.subrange(from as int, end as int);
        if from < end {
            assert(rest[0] == cs@[from as int]);
            if end - from > 1 {
                assert(rest[1] == cs@[from + 1]);
            }
        }
    }
    text_range(&cs, from, end)
}

/// The name of the file a path leads to: its last component, unless that is the root, `.` or
/// `..`.
pub open spec fn file_name(p: Seq<char>) -> Option<Seq<char>> {
    last_name(components(p))
}

/// The last of some components, unless it is the root, `.` or `..`.
pub open spec fn last_name(c: Seq<Seq<char>>) -> Option<Seq<char>> {
    if c.len() > 0 && is_name(c.last()) && c.last() != ".."@ {
        Some(c.last())
    } else {
        None
    }
}

/// The name of the file that `p` leads to.
pub fn file_name_of(p: &str) -> (r: Option<String>)
    ensures
        crate::text::opt_text(r) == file_name(p@),
{
    let c = split_path(p);
    proof {
        assert(texts(c@).len() == c@.len());
        assert(texts(c@).take(c@.len() as int) =~= texts(c@));
    }
    name_at(&c, c.len())
}

/// The name of the directory that a path's parent is.
pub open spec fn parent_name(p: Seq<char>) -> Option<Seq<char>> {
    let c = components(p);
    if c.len() > 0 {
        last_name(c.drop_last())
    } else {
        None
    }
}

/// The name of the directory that the parent of `p` is.
pub fn parent_name_of(p: &str) -> (r: Option<String>)
    ensures
        crate::text::opt_text(r) == parent_name(p@),
{
    let c = split_path(p);
    proof {
        assert(texts(c@).len() == c@.len());
    }
    if c.len() == 0 {
        return None;
    }
    assert(texts(c@).take(c@.len() - 1) =~= texts(c@).drop_last());
    name_at(&c, c.len() - 1)
}

/// The last of the first `n` components, unless it is the root, `.` or `..`.
fn name_at(c: &Vec<String>, n: usize) -> (r: Option<String>)
    requires
        n <= c@.len(),
    ensures
        crate::text::opt_text(r) == last_name(texts(c@).take(n as int)),
{
    if n == 0 {
        return None;
    }
    let last: usize = n - 1;
    assert(texts(c@)[last as int] == c@[last as int]@);
    assert(texts(c@).take(n as int).last() == c@[last as int]@);
    let s = c[last].as_str();
    if s.is_empty() || is_dot(s) || same_text(s, "..") {
        None
    } else {
        Some(owned(s))
    }
}

/// The position of the last occurrence of `c`.
pub open spec fn is_last_index(s: Seq<char>, c: char, i: int) -> bool {
    &&& 0 <= i < s.len()
    &&& s[i] == c
    &&& forall|j: int| i < j < s.len() ==> s[j] != c
}

/// What follows the last dot of a file name, unless the name has no dot or only one at its
/// head.
pub open spec fn name_extension(name: Seq<char>) -> Option<Seq<char>> {
    if exists|i: int| is_last_index(name, '.', i) && i > 0 {
        let i = choose|i: int| is_last_index(name, '.', i) && i > 0;
        Some(name.skip(i + 1))
    } else {
        None
    }
}

/// The extension of the file a path leads to.
pub open spec fn extension(p: Seq<char>) -> Option<Seq<char>> {
    match file_name(p) {
        Some(name) => name_extension(name),
        None => None,
    }
}

/// The extension of the file that `p` leads to.
pub fn extension_of(p: &str) -> (r: Option<String>)
    ensures
        crate::text::opt_text(r) == extension(p@),
{
    let name = match file_name_of(p) {
        Some(name) => name,
        None => return None,
    };
    let cs = chars_of(name.as_str());
    let mut i: usize = cs.len();
    while i > 0
        invariant
            i <= cs@.len(),
            cs@ == name@,
            file_name(p@) == Some(name@),
            forall|j: int| i <= j < cs@.len() ==> cs@[j] != '.',
        decreases i,
    {
        i -= 1;
        if cs[i] == '.' {
            assert(is_last_index(name@, '.', i as int));
            if i == 0 {
                return None;
            }
            let ghost k = choose|k: int| is_last_index(name@, '.', k) && k > 0;
            assert(k == i);
            assert(name@.skip(i + 1) =~= cs@.subrange(i + 1, cs@.len() as int));
            return Some(text_range(&cs, i + 1, cs.len()));
        }
    }
    None
}

/// How components come about, from the shortest path up: nothing has none, the root and a single
/// name have one, and a separator with a name behind it adds that name. Repeated separators, a
/// separator at the end and a `.` behind one add nothing.
pub proof fn law_components_are_the_names_between_separators(base: Seq<char>, name: Seq<char>)
    requires
        !name.contains('/'),
    ensures
        components(Seq::empty()).len() == 0,
        components("/"@) == seq![Seq::<char>::empty()],
        name.len() > 0 ==> components(name) == seq![name],
        base.len() > 0 ==> components(base + "/"@) == components(base),
        base.len() > 0 ==> components(base + "/."@) == components(base),
        base.len() > 0 && name.len() > 0 && name != "."@ ==> components(base + "/"@ + name)
            == components(base).push(name),
        name.len() > 0 && name != "."@ ==> components("/"@ + name) == seq![
            Seq::<char>::empty(),
            name,
        ],
{
    reveal_strlit(".");
    reveal_strlit("/");
    reveal_strlit("/.");
    let none = Seq::<char>::empty();
    lemma_shortest_paths(none);
    lemma_shortest_paths("/"@);
    if name.len() > 0 {
        let empty = Seq::<Seq<char>>::empty();
        lemma_first_piece(name);
        assert(seq![name] =~= empty.push(name));
        lemma_names_push(empty, name);
        lemma_names_all(empty);
        assert(!absolute(name)) by {
            assert(name.contains(name[0]));
        }
        assert forall|k: int| 0 <= k < name.len() implies !just('/')(#[trigger] name[k]) by {
            assert(name.contains(name[k]));
        }
        lemma_pieces_single(name, just('/'));
        assert(components(name) =~= seq![name]);
    }
    if base.len() > 0 {
        assert(base + "/"@ =~= base.push('/'));
        lemma_trailing_separator(base);
        assert(base + "/."@ =~= base.push('/') + "."@);
        assert(!"."@.contains('/'));
        lemma_last_piece(base, "."@);
        if name.len() > 0 && name != "."@ {
            assert(base + "/"@ + name =~= base.push('/') + name);
            lemma_last_piece(base, name);
        }
    }
    if name.len() > 0 && name != "."@ {
        assert("/"@ + name =~= none.push('/') + name);
        assert(none.push('/') =~= "/"@);
        lemma_last_piece(none, name);
        assert(components("/"@ + name) =~= seq![none, name]);
    }
}

/// The name of a file is what stands behind the last separator, the separators at the end not
/// counted. `..`, the root and nothing are no names.
pub proof fn law_file_name_is_behind_the_last_separator(base: Seq<char>, name: Seq<char>)
    requires
        !name.contains('/'),
        name.len() > 0,
        name != "."@,
        base.len() > 0,
    ensures
        name != ".."@ ==> file_name(base + "/"@ + name) == Some(name),
        name != ".."@ ==> file_name(name) == Some(name),
        name != ".."@ ==> file_name(base + "/"@ + name + "/"@) == Some(name),
        file_name(base + "/.."@) is None,
        file_name("/"@) is None,
        file_name("."@) is None,
        file_name(".."@) is None,
        file_name(Seq::empty()) is None,
        parent_name(base + "/"@ + name) == file_name(base),
        parent_name(name) is None,
{
    reveal_strlit(".");
    reveal_strlit("..");
    reveal_strlit("/");
    reveal_strlit("/..");
    law_components_are_the_names_between_separators(base, name);
    let p = base + "/"@ + name;
    law_components_are_the_names_between_separators(p, name);
    assert(components(p).drop_last() =~= components(base));
    assert(components(name).drop_last() =~= Seq::<Seq<char>>::empty());
    assert(!".."@.contains('/'));
    assert(!"."@.contains('/'));
    assert(".."@.len() == 2 && "."@.len() == 1);
    law_components_are_the_names_between_separators(base, ".."@);
    assert(base + "/"@ + ".."@ =~= base + "/.."@);
    law_components_are_the_names_between_separators(base, "."@);
}

/// The extension of a file is what stands behind the last dot of its name, unless that dot is the
/// first character of the name.
pub proof fn law_extension_is_behind_the_last_dot(
    p: Seq<char>,
    name: Seq<char>,
    stem: Seq<char>,
    ext: Seq<char>,
)
    requires
        file_name(p) == Some(name),
    ensures
        name == stem + "."@ + ext && stem.len() > 0 && !ext.contains('.') ==> extension(p) == Some(
            ext,
        ),
        name == "."@ + ext && !ext.contains('.') ==> extension(p) is None,
        !name.contains('.') ==> extension(p) is None,
{
    reveal_strlit(".");
    if name == stem + "."@ + ext && !ext.contains('.') {
        let i = stem.len() as int;
        assert forall|j: int| i < j < name.len() implies name[j] != '.' by {
            assert(name[j] == ext[j - i - 1]);
            if name[j] == '.' {
                assert(ext.contains('.'));
            }
        }
        assert(is_last_index(name, '.', i));
        if stem.len() > 0 {
            let k = choose|k: int| is_last_index(name, '.', k) && k > 0;
            assert(k == i);
            assert(name.skip(i + 1) =~= ext);
        }
    }
    if name == "."@ + ext && !ext.contains('.') {
        assert forall|j: int| 0 < j < name.len() implies name[j] != '.' by {
            assert(name[j] == ext[j - 1]);
            if name[j] == '.' {
                assert(ext.contains('.'));
            }
        }
    }
    if !name.contains('.') {
        assert forall|i: int| !is_last_index(name, '.', i) by {
            if is_last_index(name, '.', i) {
                assert(name.contains('.'));
            }
        }
    }
}

/// Putting a path under another: an absolute one stands alone, and any other follows behind
/// exactly one separator.
pub proof fn law_relative_paths_follow_their_base(base: &str, rel: &str, r: String)
    requires
        call_ensures(join_path, (base, rel), r),
    ensures
        rel@.len() > 0 && rel@[0] == '/' ==> r@ == rel@,
        base@.len() == 0 ==> r@ == rel@,
        !(rel@.len() > 0 && rel@[0] == '/') && base@.len() > 0 && base@.last() == '/' ==> r@
            == base@ + rel@,
        !(rel@.len() > 0 && rel@[0] == '/') && base@.len() > 0 && base@.last() != '/' ==> r@
            == base@ + "/"@ + rel@,
{
}

} // verus!

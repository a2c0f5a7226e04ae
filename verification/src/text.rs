//! Strings as sequences of characters.
//!
//! Contracts in this crate speak about text as `Seq<char>`; the functions here are the
//! executable side of the handful of text operations the rest of the crate is built from.

use vstd::prelude::*;
use vstd::string::StringExecFns;
use vstd::utf8::{decode_utf8, encode_scalar, encode_utf8, valid_utf8};

verus! {

/// `String::push`: appends one character to the end of the string.
pub assume_specification[ String::push ](s: &mut String, c: char)
    ensures
        final(s)@ == old(s)@.push(c),
;

/// The texts of a sequence of strings.
pub open spec fn texts(v: Seq<String>) -> Seq<Seq<char>> {
    v.map_values(|s: String| s@)
}

/// The text of an optional string.
pub open spec fn opt_text(s: Option<String>) -> Option<Seq<char>> {
    match s {
        Some(s) => Some(s@),
        None => None,
    }
}

/// An owned copy of `s`.
pub fn owned(s: &str) -> (r: String)
    ensures
        r@ == s@,
{
    s.to_owned()
}

/// The characters of `s`, in order.
pub fn chars_of(s: &str) -> (r: Vec<char>)
    ensures
        r@ == s@,
{
    let mut out: Vec<char> = Vec::new();
    for c in it: s.chars()
        invariant
            out@ == s@.take(it.index() as int),
            it.seq() == s@,
    {
        assert(s@.take(it.index() as int + 1) =~= s@.take(it.index() as int).push(c));
        out.push(c);
    }
    assert(s@.take(s@.len() as int) =~= s@);
    out
}

/// The text made of `cs[from..to]`.
pub fn text_range(cs: &Vec<char>, from: usize, to: usize) -> (r: String)
    requires
        from <= to <= cs@.len(),
    ensures
        r@ == cs@.subrange(from as int, to as int),
{
    let mut out = String::new();
    let mut i: usize = from;
    while i < to
        invariant
            from <= i <= to <= cs@.len(),
            out@ == cs@.subrange(from as int, i as int),
        decreases to - i,
    {
        assert(cs@.subrange(from as int, i + 1) =~= cs@.subrange(from as int, i as int).push(
            cs@[i as int],
        ));
        out.push(cs[i]);
        i += 1;
    }
    out
}

/// The UTF-8 bytes of `s`.
pub fn bytes_of(s: &str) -> (r: Vec<u8>)
    ensures
        r@ == encode_utf8(s@),
{
    vstd::slice::slice_to_vec(s.as_bytes())
}

/// Whether two strings are the same text.
pub fn same_text(a: &str, b: &str) -> (r: bool)
    ensures
        r == (a@ == b@),
{
    let x = a.as_bytes();
    let y = b.as_bytes();
    proof {
        vstd::utf8::encode_utf8_decode_utf8(a@);
        vstd::utf8::encode_utf8_decode_utf8(b@);
    }
    if x.len() != y.len() {
        return false;
    }
    let mut i: usize = 0;
    while i < x.len()
        invariant
            0 <= i <= x@.len(),
            x@.len() == y@.len(),
            x@ == encode_utf8(a@),
            y@ == encode_utf8(b@),
            forall|j: int| 0 <= j < i ==> x@[j] == y@[j],
        decreases x@.len() - i,
    {
        if x[i] != y[i] {
            return false;
        }
        i += 1;
    }
    assert(x@ =~= y@);
    true
}

/// `a` followed by `b`.
pub fn join2(a: &str, b: &str) -> (r: String)
    ensures
        r@ == a@ + b@,
{
    let mut out = owned(a);
    out.append(b);
    out
}

/// `a`, `b` and `c` in a row.
pub fn join3(a: &str, b: &str, c: &str) -> (r: String)
    ensures
        r@ == a@ + b@ + c@,
{
    let mut out = owned(a);
    out.append(b);
    out.append(c);
    out
}

/// Whether `c` occurs in `s`.
pub fn contains_char(s: &str, c: char) -> (r: bool)
    ensures
        r == s@.contains(c),
{
    let cs = chars_of(s);
    let mut i: usize = 0;
    while i < cs.len()
        invariant
            0 <= i <= cs@.len(),
            cs@ == s@,
            forall|j: int| 0 <= j < i ==> cs@[j] != c,
        decreases cs@.len() - i,
    {
        if cs[i] == c {
            assert(s@[i as int] == c);
            return true;
        }
        i += 1;
    }
    false
}

/// `needle` stands in `hay` at position `i`.
pub open spec fn occurs_at(hay: Seq<char>, needle: Seq<char>, i: int) -> bool {
    &&& 0 <= i
    &&& i + needle.len() <= hay.len()
    &&& hay.subrange(i, i + needle.len()) == needle
}

/// `needle` stands somewhere in `hay`.
pub open spec fn contains_seq(hay: Seq<char>, needle: Seq<char>) -> bool {
    exists|i: int| occurs_at(hay, needle, i)
}

/// Whether `needle` stands in `hay` at position `i`.
fn matches_at(hay: &Vec<char>, needle: &Vec<char>, i: usize) -> (r: bool)
    requires
        i <= hay@.len(),
    ensures
        r == occurs_at(hay@, needle@, i as int),
{
    if hay.len() - i < needle.len() {
        return false;
    }
    let n: usize = hay.len();
    let mut j: usize = 0;
    while j < needle.len()
        invariant
            n == hay@.len(),
            0 <= j <= needle@.len(),
            i + needle@.len() <= hay@.len(),
            forall|k: int| 0 <= k < j ==> hay@[i + k] == needle@[k],
        decreases needle@.len() - j,
    {
        if hay[i + j] != needle[j] {
            proof {
                let sub = hay@.subrange(i as int, i + needle@.len());
                assert(sub[j as int] == hay@[i + j]);
                assert(sub != needle@);
            }
            return false;
        }
        j += 1;
    }
    assert(hay@.subrange(i as int, i + needle@.len()) =~= needle@);
    true
}

/// Whether `needle` stands somewhere in `hay`.
pub fn contains_text(hay: &str, needle: &str) -> (r: bool)
    ensures
        r == contains_seq(hay@, needle@),
{
    let h = chars_of(hay);
    let n = chars_of(needle);
    let mut i: usize = 0;
    while i < h.len()
        invariant
            0 <= i <= h@.len(),
            h@ == hay@,
            n@ == needle@,
            forall|j: int| 0 <= j < i ==> !occurs_at(h@, n@, j),
        decreases h@.len() - i,
    {
        if matches_at(&h, &n, i) {
            assert(occurs_at(hay@, needle@, i as int));
            return true;
        }
        i += 1;
    }
    let last = matches_at(&h, &n, i);
    proof {
        if contains_seq(hay@, needle@) {
            let k = choose|k: int| occurs_at(hay@, needle@, k);
            assert(k == i);
        }
        if last {
            assert(occurs_at(hay@, needle@, i as int));
        }
    }
    last
}

/// Whether `s` begins with `prefix`.
pub fn starts_with(s: &str, prefix: &str) -> (r: bool)
    ensures
        r == prefix@.is_prefix_of(s@),
{
    let h = chars_of(s);
    let n = chars_of(prefix);
    let r = matches_at(&h, &n, 0);
    assert(h@.subrange(0, n@.len() as int) =~= h@.take(n@.len() as int) || n@.len() > h@.len());
    r
}

/// The characters with the Unicode `White_Space` property.
pub open spec fn is_white(c: char) -> bool {
    let u = c as u32;
    ||| 0x9 <= u <= 0xd
    ||| u == 0x20
    ||| u == 0x85
    ||| u == 0xa0
    ||| u == 0x1680
    ||| 0x2000 <= u <= 0x200a
    ||| u == 0x2028
    ||| u == 0x2029
    ||| u == 0x202f
    ||| u == 0x205f
    ||| u == 0x3000
}

/// Whether `c` has the Unicode `White_Space` property.
pub fn white(c: char) -> (r: bool)
    ensures
        r == is_white(c),
{
    let u: u32 = c as u32;
    (0x9 <= u && u <= 0xd) || u == 0x20 || u == 0x85 || u == 0xa0 || u == 0x1680 || (0x2000 <= u
        && u <= 0x200a) || u == 0x2028 || u == 0x2029 || u == 0x202f || u == 0x205f || u == 0x3000
}

/// `s` without its leading white space.
pub open spec fn trim_start(s: Seq<char>) -> Seq<char>
    decreases s.len(),
{
    if s.len() > 0 && is_white(s[0]) {
        trim_start(s.drop_first())
    } else {
        s
    }
}

/// `s` without its trailing white space.
pub open spec fn trim_end(s: Seq<char>) -> Seq<char>
    decreases s.len(),
{
    if s.len() > 0 && is_white(s.last()) {
        trim_end(s.drop_last())
    } else {
        s
    }
}

/// `s` without the white space at either end.
pub open spec fn trimmed(s: Seq<char>) -> Seq<char> {
    trim_end(trim_start(s))
}

/// `s` without the white space at either end.
pub fn trim(s: &str) -> (r: String)
    ensures
        r@ == trimmed(s@),
{
    let cs = chars_of(s);
    let mut from: usize = 0;
    assert(cs@.subrange(0, cs@.len() as int) =~= cs@);
    while from < cs.len() && white(cs[from])
        invariant
            0 <= from <= cs@.len(),
            trim_start(cs@) == trim_start(cs@.subrange(from as int, cs@.len() as int)),
        decreases cs@.len() - from,
    {
        assert(cs@.subrange(from as int, cs@.len() as int).drop_first() =~= cs@.subrange(
            from + 1,
            cs@.len() as int,
        ));
        from += 1;
    }
    let mut to: usize = cs.len();
    while from < to && white(cs[to - 1])
        invariant
            from <= to <= cs@.len(),
            trim_end(cs@.subrange(from as int, cs@.len() as int)) == trim_end(
                cs@.subrange(from as int, to as int),
            ),
        decreases to,
    {
        assert(cs@.subrange(from as int, to as int).drop_last() =~= cs@.subrange(
            from as int,
            to - 1,
        ));
        to -= 1;
    }
    text_range(&cs, from, to)
}

/// A text that is white space throughout trims to nothing, and only such a text does.
pub proof fn lemma_trimmed_empty(s: Seq<char>)
    ensures
        trimmed(s).len() == 0 <==> (forall|i: int| 0 <= i < s.len() ==> is_white(#[trigger] s[i])),
    decreases s.len(),
{
    if s.len() > 0 {
        if is_white(s[0]) {
            lemma_trimmed_empty(s.drop_first());
            assert forall|i: int| 0 <= i < s.len() && trimmed(s).len() == 0 implies is_white(
                #[trigger] s[i],
            ) by {
                if i > 0 {
                    assert(s.drop_first()[i - 1] == s[i]);
                }
            }
            assert forall|i: int|
                0 <= i < s.drop_first().len() && (forall|k: int|
                    0 <= k < s.len() ==> is_white(#[trigger] s[k])) implies is_white(
                #[trigger] s.drop_first()[i],
            ) by {
                assert(s.drop_first()[i] == s[i + 1]);
            }
        } else {
            lemma_trim_end_keeps(s);
        }
    }
}

/// Trimming at the end never removes a first character that is not white space.
proof fn lemma_trim_end_keeps(s: Seq<char>)
    requires
        s.len() > 0,
        !is_white(s[0]),
    ensures
        trim_end(s).len() > 0,
    decreases s.len(),
{
    if is_white(s.last()) {
        lemma_trim_end_keeps(s.drop_last());
    }
}

/// ASCII lower case of a character.
pub open spec fn lower_char(c: char) -> char {
    if 'A' <= c && c <= 'Z' {
        ((c as u8 + 32) as u8) as char
    } else {
        c
    }
}

/// ASCII lower case of a text.
pub open spec fn lowered(s: Seq<char>) -> Seq<char> {
    s.map_values(|c: char| lower_char(c))
}

/// ASCII lower case of `s`.
pub fn lowercase(s: &str) -> (r: String)
    ensures
        r@ == lowered(s@),
{
    let cs = chars_of(s);
    let mut out = String::new();
    let mut i: usize = 0;
    while i < cs.len()
        invariant
            0 <= i <= cs@.len(),
            out@ == lowered(cs@.take(i as int)),
        decreases cs@.len() - i,
    {
        let c = cs[i];
        let l = if 'A' <= c && c <= 'Z' {
            ((c as u8) + 32) as char
        } else {
            c
        };
        assert(lowered(cs@.take(i + 1)) =~= lowered(cs@.take(i as int)).push(lower_char(c)));
        out.push(l);
        i += 1;
    }
    assert(cs@.take(cs@.len() as int) =~= cs@);
    out
}

/// The pieces of `s` between the elements for which `sep` holds: one more piece than there are
/// separators, empty pieces included.
pub open spec fn pieces<A>(s: Seq<A>, sep: spec_fn(A) -> bool) -> Seq<Seq<A>>
    decreases s.len(),
{
    if s.len() == 0 {
        seq![Seq::empty()]
    } else {
        let before = pieces(s.drop_last(), sep);
        if sep(s.last()) {
            before.push(Seq::empty())
        } else {
            before.update(before.len() - 1, before.last().push(s.last()))
        }
    }
}

/// The predicate "is the character `c`".
pub open spec fn just(c: char) -> spec_fn(char) -> bool {
    |x: char| x == c
}

/// The predicate "is white space".
pub open spec fn any_white() -> spec_fn(char) -> bool {
    |x: char| is_white(x)
}

/// The non-empty texts of `ps`, in order.
pub open spec fn non_empty(ps: Seq<Seq<char>>) -> Seq<Seq<char>> {
    ps.filter(|p: Seq<char>| p.len() > 0)
}

/// There is always a last piece.
pub proof fn lemma_pieces_non_empty<A>(s: Seq<A>, sep: spec_fn(A) -> bool)
    ensures
        pieces(s, sep).len() >= 1,
    decreases s.len(),
{
    if s.len() > 0 {
        lemma_pieces_non_empty(s.drop_last(), sep);
    }
}

/// No piece holds a separator.
pub proof fn lemma_pieces_clean<A>(s: Seq<A>, sep: spec_fn(A) -> bool, i: int, j: int)
    requires
        0 <= i < pieces(s, sep).len(),
        0 <= j < pieces(s, sep)[i].len(),
    ensures
        !sep(pieces(s, sep)[i][j]),
    decreases s.len(),
{
    if s.len() > 0 {
        lemma_pieces_non_empty(s.drop_last(), sep);
        let before = pieces(s.drop_last(), sep);
        if sep(s.last()) {
            if i < before.len() {
                lemma_pieces_clean(s.drop_last(), sep, i, j);
            }
        } else if i < before.len() - 1 || j < before[i].len() {
            lemma_pieces_clean(s.drop_last(), sep, i, j);
        }
    }
}

/// A text without separators is its own only piece.
pub proof fn lemma_pieces_single<A>(s: Seq<A>, sep: spec_fn(A) -> bool)
    requires
        forall|i: int| 0 <= i < s.len() ==> !sep(#[trigger] s[i]),
    ensures
        pieces(s, sep) =~= seq![s],
    decreases s.len(),
{
    if s.len() > 0 {
        let t = s.drop_last();
        assert forall|i: int| 0 <= i < t.len() implies !sep(#[trigger] t[i]) by {
            assert(t[i] == s[i]);
        }
        lemma_pieces_single(t, sep);
        assert(t.push(s.last()) =~= s);
        assert(s[s.len() - 1] == s.last());
        assert(seq![t].update(0, t.push(s.last())) =~= seq![s]);
    } else {
        assert(s =~= Seq::<A>::empty());
    }
}

/// Cutting at one separator: the pieces of `a`, then the pieces of `b`.
pub proof fn lemma_pieces_join<A>(a: Seq<A>, c: A, b: Seq<A>, sep: spec_fn(A) -> bool)
    requires
        sep(c),
    ensures
        pieces(a.push(c) + b, sep) =~= pieces(a, sep) + pieces(b, sep),
    decreases b.len(),
{
    lemma_pieces_non_empty(a, sep);
    lemma_pieces_non_empty(b, sep);
    let s = a.push(c) + b;
    if b.len() == 0 {
        assert(s =~= a.push(c));
        assert(s.drop_last() =~= a);
    } else {
        lemma_pieces_join(a, c, b.drop_last(), sep);
        lemma_pieces_non_empty(b.drop_last(), sep);
        assert(s.drop_last() =~= a.push(c) + b.drop_last());
        let pa = pieces(a, sep);
        let pb = pieces(b.drop_last(), sep);
        assert((pa + pb).last() == pb.last());
        if !sep(b.last()) {
            assert((pa + pb).update(pa.len() + pb.len() - 1, pb.last().push(b.last())) =~= pa
                + pb.update(pb.len() - 1, pb.last().push(b.last())));
        } else {
            assert((pa + pb).push(Seq::empty()) =~= pa + pb.push(Seq::empty()));
        }
    }
}

/// Text without separators that is appended goes to the last piece.
pub proof fn lemma_pieces_extend<A>(a: Seq<A>, b: Seq<A>, sep: spec_fn(A) -> bool)
    requires
        forall|i: int| 0 <= i < b.len() ==> !sep(#[trigger] b[i]),
    ensures
        pieces(a + b, sep) == pieces(a, sep).update(
            pieces(a, sep).len() - 1,
            pieces(a, sep).last() + b,
        ),
    decreases b.len(),
{
    lemma_pieces_non_empty(a, sep);
    let pa = pieces(a, sep);
    if b.len() == 0 {
        assert(a + b =~= a);
        assert(pa.last() + b =~= pa.last());
        assert(pa.update(pa.len() - 1, pa.last()) =~= pa);
    } else {
        let t = b.drop_last();
        assert forall|i: int| 0 <= i < t.len() implies !sep(#[trigger] t[i]) by {
            assert(t[i] == b[i]);
        }
        lemma_pieces_extend(a, t, sep);
        assert((a + b).drop_last() =~= a + t);
        assert(!sep(b[b.len() - 1]));
        assert(pa.last() + b =~= (pa.last() + t).push(b.last()));
        assert(pa.update(pa.len() - 1, pa.last() + t).update(pa.len() - 1, pa.last() + b)
            =~= pa.update(pa.len() - 1, pa.last() + b));
    }
}

/// The pieces of `s` between occurrences of `sep`.
pub fn split_on(s: &str, sep: char) -> (r: Vec<String>)
    ensures
        texts(r@) == pieces(s@, just(sep)),
{
    let cs = chars_of(s);
    let mut out: Vec<String> = Vec::new();
    let mut cur = String::new();
    let mut i: usize = 0;
    assert(texts(out@).push(cur@) =~= pieces(cs@.take(0), just(sep)));
    while i < cs.len()
        invariant
            0 <= i <= cs@.len(),
            texts(out@).push(cur@) == pieces(cs@.take(i as int), just(sep)),
        decreases cs@.len() - i,
    {
        let c = cs[i];
        let ghost t = cs@.take(i + 1);
        assert(t.drop_last() =~= cs@.take(i as int));
        let ghost before = texts(out@).push(cur@);
        if c == sep {
            let ghost old_out = out@;
            let ghost old_cur = cur;
            out.push(cur);
            cur = String::new();
            assert(texts(out@) =~= texts(old_out).push(old_cur@));
        } else {
            cur.push(c);
            assert(texts(out@).push(cur@) =~= before.update(before.len() - 1, before.last().push(c)));
        }
        i += 1;
    }
    let ghost old_out = out@;
    let ghost old_cur = cur;
    out.push(cur);
    assert(texts(out@) =~= texts(old_out).push(old_cur@));
    assert(cs@.take(cs@.len() as int) =~= cs@);
    out
}

/// The words of a text: its non-empty pieces between white space.
pub open spec fn words(s: Seq<char>) -> Seq<Seq<char>> {
    non_empty(pieces(s, any_white()))
}

/// The words of `s`.
pub fn split_words(s: &str) -> (r: Vec<String>)
    ensures
        texts(r@) == words(s@),
{
    let cs = chars_of(s);
    let mut out: Vec<String> = Vec::new();
    let mut cur = String::new();
    let mut i: usize = 0;
    let ghost nonempty = |p: Seq<char>| p.len() > 0;
    let ghost mut done: Seq<Seq<char>> = Seq::empty();
    proof {
        reveal(Seq::filter);
        assert(done.push(cur@) =~= pieces(cs@.take(0), any_white()));
        assert(texts(out@) =~= non_empty(done));
    }
    while i < cs.len()
        invariant
            0 <= i <= cs@.len(),
            done.push(cur@) == pieces(cs@.take(i as int), any_white()),
            texts(out@) == non_empty(done),
        decreases cs@.len() - i,
    {
        let c = cs[i];
        let ghost t = cs@.take(i + 1);
        assert(t.drop_last() =~= cs@.take(i as int));
        let ghost before = done.push(cur@);
        if white(c) {
            let ghost old_out = out@;
            let ghost old_cur = cur;
            proof {
                lemma_filter_push(done, cur@);
                done = done.push(cur@);
            }
            if !cur.as_str().is_empty() {
                out.push(cur);
                assert(texts(out@) =~= texts(old_out).push(old_cur@));
            }
            cur = String::new();
        } else {
            cur.push(c);
            assert(done.push(cur@) =~= before.update(before.len() - 1, before.last().push(c)));
        }
        i += 1;
    }
    assert(cs@.take(cs@.len() as int) =~= cs@);
    proof {
        lemma_filter_push(done, cur@);
    }
    let ghost old_out = out@;
    let ghost old_cur = cur;
    if !cur.as_str().is_empty() {
        out.push(cur);
        assert(texts(out@) =~= texts(old_out).push(old_cur@));
    }
    out
}

/// Keeping the non-empty texts works element by element.
pub proof fn lemma_filter_push(ps: Seq<Seq<char>>, p: Seq<char>)
    ensures
        non_empty(ps.push(p)) == if p.len() > 0 {
            non_empty(ps).push(p)
        } else {
            non_empty(ps)
        },
{
    reveal(Seq::filter);
    assert(ps.push(p).drop_last() =~= ps);
}

/// `std::str::from_utf8`: the text that bytes encode in UTF-8, and nothing when they are not
/// valid UTF-8.
#[verifier::external_body]
pub(crate) fn decode_strict(bytes: &Vec<u8>) -> (r: Option<String>)
    ensures
        opt_text(r) == if valid_utf8(bytes@) {
            Some(decode_utf8(bytes@))
        } else {
            None
        },
{
    std::str::from_utf8(bytes).ok().map(str::to_owned)
}

/// What `String::from_utf8_lossy` makes of bytes.
pub uninterp spec fn lossy_text(bytes: Seq<u8>) -> Seq<char>;

/// `String::from_utf8_lossy`: text for any bytes, with U+FFFD in place of what is not valid
/// UTF-8. Where the bytes are valid it is the text they encode; what it is elsewhere has a name
/// only.
#[verifier::external_body]
pub(crate) fn decode_lossy(bytes: &Vec<u8>) -> (r: String)
    ensures
        r@ == lossy_text(bytes@),
        valid_utf8(bytes@) ==> r@ == decode_utf8(bytes@),
{
    String::from_utf8_lossy(bytes).into_owned()
}

/// `s` without `c` at its end, where it ends in `c`.
pub open spec fn without_last(s: Seq<char>, c: char) -> Seq<char> {
    if s.len() > 0 && s.last() == c {
        s.drop_last()
    } else {
        s
    }
}

/// `s` without `c` at its end, where it ends in `c`.
pub fn strip_last(s: &str, c: char) -> (r: String)
    ensures
        r@ == without_last(s@, c),
{
    let cs = chars_of(s);
    let n: usize = cs.len();
    if n > 0 && cs[n - 1] == c {
        let r = text_range(&cs, 0, n - 1);
        assert(r@ =~= s@.drop_last());
        r
    } else {
        owned(s)
    }
}

/// The encoding of two texts put together is their encodings put together.
pub proof fn lemma_encode_add(a: Seq<char>, b: Seq<char>)
    ensures
        encode_utf8(a + b) == encode_utf8(a) + encode_utf8(b),
    decreases a.len(),
{
    if a.len() == 0 {
        assert(a + b =~= b);
        assert(encode_utf8(a) + encode_utf8(b) =~= encode_utf8(b));
    } else {
        lemma_encode_add(a.drop_first(), b);
        assert((a + b).drop_first() =~= a.drop_first() + b);
        assert(encode_utf8(a) + encode_utf8(b) =~= encode_scalar(a[0] as u32) + (encode_utf8(
            a.drop_first(),
        ) + encode_utf8(b)));
    }
}

/// The order of texts: by the first character in which they differ; a text stands before its
/// own extensions.
pub open spec fn text_lt(a: Seq<char>, b: Seq<char>) -> bool
    decreases a.len(),
{
    if b.len() == 0 {
        false
    } else if a.len() == 0 {
        true
    } else if a[0] != b[0] {
        a[0] < b[0]
    } else {
        text_lt(a.drop_first(), b.drop_first())
    }
}

/// Whether `a` stands before `b`.
pub fn text_before(a: &str, b: &str) -> (r: bool)
    ensures
        r == text_lt(a@, b@),
{
    let x = chars_of(a);
    let y = chars_of(b);
    let mut i: usize = 0;
    assert(x@.skip(0) =~= x@);
    assert(y@.skip(0) =~= y@);
    while i < x.len() && i < y.len()
        invariant
            0 <= i <= x@.len(),
            i <= y@.len(),
            x@ == a@,
            y@ == b@,
            text_lt(a@, b@) == text_lt(x@.skip(i as int), y@.skip(i as int)),
        decreases x@.len() - i,
    {
        assert(x@.skip(i as int)[0] == x@[i as int]);
        assert(y@.skip(i as int)[0] == y@[i as int]);
        if x[i] != y[i] {
            return x[i] < y[i];
        }
        assert(x@.skip(i as int).drop_first() =~= x@.skip(i + 1));
        assert(y@.skip(i as int).drop_first() =~= y@.skip(i + 1));
        i += 1;
    }
    i < y.len()
}

/// No text stands before itself.
pub proof fn lemma_text_lt_irreflexive(a: Seq<char>)
    ensures
        !text_lt(a, a),
    decreases a.len(),
{
    if a.len() > 0 {
        lemma_text_lt_irreflexive(a.drop_first());
    }
}

/// The order of texts is transitive.
pub proof fn lemma_text_lt_transitive(a: Seq<char>, b: Seq<char>, c: Seq<char>)
    requires
        text_lt(a, b),
        text_lt(b, c),
    ensures
        text_lt(a, c),
    decreases a.len(),
{
    if a.len() > 0 && b.len() > 0 && c.len() > 0 && a[0] == b[0] && b[0] == c[0] {
        lemma_text_lt_transitive(a.drop_first(), b.drop_first(), c.drop_first());
    }
}

/// Of two different texts, one stands before the other.
pub proof fn lemma_text_lt_total(a: Seq<char>, b: Seq<char>)
    ensures
        text_lt(a, b) || text_lt(b, a) || a == b,
    decreases a.len(),
{
    if a.len() > 0 && b.len() > 0 {
        if a[0] == b[0] {
            lemma_text_lt_total(a.drop_first(), b.drop_first());
            if a.drop_first() == b.drop_first() {
                assert(a =~= seq![a[0]] + a.drop_first());
                assert(b =~= seq![b[0]] + b.drop_first());
            }
        }
    } else if a.len() == 0 && b.len() == 0 {
        assert(a =~= b);
    }
}

/// Texts put together with `sep` between them.
pub open spec fn joined_by(ts: Seq<Seq<char>>, sep: Seq<char>) -> Seq<char>
    decreases ts.len(),
{
    if ts.len() == 0 {
        Seq::empty()
    } else if ts.len() == 1 {
        ts[0]
    } else {
        joined_by(ts.drop_last(), sep) + sep + ts.last()
    }
}

/// The texts from `from` on, put together with `sep` between them.
pub fn join_from(ts: &Vec<String>, from: usize, sep: &str) -> (r: String)
    requires
        from <= ts@.len(),
    ensures
        r@ == joined_by(texts(ts@).skip(from as int), sep@),
{
    let ghost all = texts(ts@).skip(from as int);
    if from == ts.len() {
        let s = String::new();
        assert(s@ =~= joined_by(all, sep@));
        return s;
    }
    let mut out = ts[from].clone();
    let mut i: usize = from + 1;
    assert(all[0] == ts@[from as int]@);
    assert(all.take(1) =~= seq![all[0]]);
    while i < ts.len()
        invariant
            from < i <= ts@.len(),
            all == texts(ts@).skip(from as int),
            out@ == joined_by(all.take(i - from), sep@),
        decreases ts@.len() - i,
    {
        proof {
            assert(all[i - from] == ts@[i as int]@);
            assert(all.take(i - from + 1).drop_last() =~= all.take(i - from));
            assert(all.take(i - from + 1).last() == ts@[i as int]@);
        }
        out.append(sep);
        out.append(ts[i].as_str());
        i += 1;
    }
    assert(all.take(ts@.len() - from) =~= all);
    out
}

/// The lines of a text: what lies between its newlines, a `\r` before a newline not counted, and
/// nothing behind the last newline.
pub open spec fn lines(s: Seq<char>) -> Seq<Seq<char>> {
    let ps = pieces(s, just('\n'));
    let ended = ps.drop_last().map_values(|l: Seq<char>| without_last(l, '\r'));
    if ps.last().len() > 0 {
        ended.push(ps.last())
    } else {
        ended
    }
}

/// The lines of `s`.
pub fn split_lines(s: &str) -> (r: Vec<String>)
    ensures
        texts(r@) == lines(s@),
{
    let ps = split_on(s, '\n');
    let ghost all = pieces(s@, just('\n'));
    proof {
        lemma_pieces_non_empty(s@, just('\n'));
        assert(all.len() == ps@.len());
    }
    let last: usize = ps.len() - 1;
    let ghost ended = all.drop_last().map_values(|l: Seq<char>| without_last(l, '\r'));
    let mut out: Vec<String> = Vec::new();
    let mut i: usize = 0;
    assert(texts(out@) =~= ended.take(0));
    while i < last
        invariant
            0 <= i <= last,
            last == ps@.len() - 1,
            all == texts(ps@),
            ended == all.drop_last().map_values(|l: Seq<char>| without_last(l, '\r')),
            texts(out@) == ended.take(i as int),
        decreases last - i,
    {
        let ghost before = out@;
        out.push(strip_last(ps[i].as_str(), '\r'));
        proof {
            assert(all[i as int] == ps@[i as int]@);
            assert(ended[i as int] == without_last(ps@[i as int]@, '\r'));
            assert(texts(out@) =~= texts(before).push(out@.last()@));
            assert(ended.take(i + 1) =~= ended.take(i as int).push(ended[i as int]));
        }
        i += 1;
    }
    assert(ended.take(last as int) =~= ended);
    assert(all[last as int] == ps@[last as int]@);
    if !ps[last].as_str().is_empty() {
        let ghost before = out@;
        out.push(ps[last].clone());
        assert(texts(out@) =~= texts(before).push(out@.last()@));
    }
    out
}

/// A text is among the lines that end in newlines.
pub proof fn lemma_line_member(s: Seq<char>, i: int)
    requires
        0 <= i < pieces(s, just('\n')).len() - 1,
    ensures
        lines(s).contains(without_last(pieces(s, just('\n'))[i], '\r')),
{
    let ps = pieces(s, just('\n'));
    let ended = ps.drop_last().map_values(|l: Seq<char>| without_last(l, '\r'));
    assert(ended[i] == without_last(ps[i], '\r'));
    assert(lines(s)[i] == ended[i]);
}

/// Whether `v` holds the text `s`.
pub fn holds_text(v: &Vec<String>, s: &str) -> (r: bool)
    ensures
        r == texts(v@).contains(s@),
{
    let mut i: usize = 0;
    while i < v.len()
        invariant
            0 <= i <= v@.len(),
            forall|j: int| 0 <= j < i ==> texts(v@)[j] != s@,
        decreases v@.len() - i,
    {
        assert(texts(v@)[i as int] == v@[i as int]@);
        if same_text(v[i].as_str(), s) {
            return true;
        }
        i += 1;
    }
    false
}

/// What is white space: the characters from tab to carriage return, the space, and the other
/// spaces and separators of Unicode.
pub proof fn law_white_space_is_that_of_unicode(c: char, r: bool)
    requires
        call_ensures(white, (c,), r),
    ensures
        r <==> ('\t' <= c && c <= '\r') || c == ' ' || c == '\u{85}' || c == '\u{a0}' || c
            == '\u{1680}' || ('\u{2000}' <= c && c <= '\u{200a}') || c == '\u{2028}' || c
            == '\u{2029}' || c == '\u{202f}' || c == '\u{205f}' || c == '\u{3000}',
{
}

/// Trimming takes away white space at the ends and nothing else, and leaves none there.
pub proof fn law_trimming_takes_white_ends_away(s: &str, r: String)
    requires
        call_ensures(trim, (s,), r),
    ensures
        exists|a: Seq<char>, b: Seq<char>|
            {
                &&& s@ == #[trigger] (a + r@ + b)
                &&& forall|i: int| 0 <= i < a.len() ==> is_white(#[trigger] a[i])
                &&& forall|i: int| 0 <= i < b.len() ==> is_white(#[trigger] b[i])
            },
        r@.len() > 0 ==> !is_white(r@[0]) && !is_white(r@.last()),
{
    let a = lemma_trim_start(s@);
    let b = lemma_trim_end(trim_start(s@));
    assert(s@ =~= a + r@ + b);
    if r@.len() > 0 {
        assert(r@[0] == trim_start(s@)[0]);
    }
}

/// What trimming at the start takes away.
proof fn lemma_trim_start(s: Seq<char>) -> (a: Seq<char>)
    ensures
        s == a + trim_start(s),
        forall|i: int| 0 <= i < a.len() ==> is_white(#[trigger] a[i]),
        trim_start(s).len() > 0 ==> !is_white(trim_start(s)[0]),
    decreases s.len(),
{
    if s.len() > 0 && is_white(s[0]) {
        let rest = s.drop_first();
        let t = lemma_trim_start(rest);
        let a = seq![s[0]] + t;
        assert(s =~= seq![s[0]] + rest);
        assert(trim_start(s) == trim_start(rest));
        assert(s =~= a + trim_start(s));
        a
    } else {
        let a = Seq::<char>::empty();
        assert(s =~= a + s);
        a
    }
}

/// What trimming at the end takes away.
proof fn lemma_trim_end(s: Seq<char>) -> (b: Seq<char>)
    ensures
        s == trim_end(s) + b,
        forall|i: int| 0 <= i < b.len() ==> is_white(#[trigger] b[i]),
        trim_end(s).len() > 0 ==> !is_white(trim_end(s).last()),
    decreases s.len(),
{
    if s.len() > 0 && is_white(s.last()) {
        let rest = s.drop_last();
        let t = lemma_trim_end(rest);
        let b = t.push(s.last());
        assert(s =~= rest.push(s.last()));
        assert(trim_end(s) == trim_end(rest));
        assert(s =~= trim_end(s) + b);
        b
    } else {
        let b = Seq::<char>::empty();
        assert(s =~= s + b);
        b
    }
}

/// A text without white space at its ends stays as it is when it is trimmed.
pub proof fn lemma_trimmed_as_is(s: Seq<char>)
    requires
        s.len() > 0 ==> !is_white(s[0]) && !is_white(s.last()),
    ensures
        trimmed(s) == s,
{
}

/// Lower case changes the letters from `A` to `Z` and nothing else.
pub proof fn law_lower_case_is_letter_by_letter(s: &str, r: String, k: int)
    requires
        call_ensures(lowercase, (s,), r),
    ensures
        r@.len() == s@.len(),
        0 <= k < s@.len() && 'A' <= s@[k] && s@[k] <= 'Z' ==> r@[k] as int == s@[k] as int + 32,
        0 <= k < s@.len() && !('A' <= s@[k] && s@[k] <= 'Z') ==> r@[k] == s@[k],
{
}

/// One text stands in another exactly where the other is made of something, the text, and
/// something more.
pub proof fn law_contained_text_can_be_cut_out(hay: &str, needle: &str, r: bool)
    requires
        call_ensures(contains_text, (hay, needle), r),
    ensures
        r <==> exists|a: Seq<char>, b: Seq<char>| hay@ == #[trigger] (a + needle@ + b),
{
    let (h, n) = (hay@, needle@);
    if r {
        let i = choose|i: int| occurs_at(h, n, i);
        let (a, b) = (h.subrange(0, i), h.subrange(i + n.len(), h.len() as int));
        assert(h =~= a + n + b) by {
            assert forall|k: int| 0 <= k < h.len() implies h[k] == (a + n + b)[k] by {
                if i <= k < i + n.len() {
                    assert(h.subrange(i, i + n.len())[k - i] == h[k]);
                }
            }
        }
    }
    if exists|a: Seq<char>, b: Seq<char>| h == #[trigger] (a + n + b) {
        let (a, b) = choose|a: Seq<char>, b: Seq<char>| h == #[trigger] (a + n + b);
        assert(h.subrange(a.len() as int, (a.len() + n.len()) as int) =~= n);
        assert(occurs_at(h, n, a.len() as int));
    }
}

/// Texts put together one by one: the first as it is, each other one behind the separator.
pub proof fn law_texts_are_joined_one_by_one(ts: Seq<Seq<char>>, t: Seq<char>, sep: Seq<char>)
    ensures
        joined_by(Seq::empty(), sep).len() == 0,
        ts.len() == 0 ==> joined_by(ts.push(t), sep) == t,
        ts.len() > 0 ==> joined_by(ts.push(t), sep) == joined_by(ts, sep) + sep + t,
{
    assert(ts.push(t).drop_last() =~= ts);
}

/// Cutting a text and putting the pieces together again gives the text back, and no piece holds
/// the separator.
pub proof fn law_pieces_put_together_are_the_text(s: &str, sep: char, r: Vec<String>)
    requires
        call_ensures(split_on, (s, sep), r),
    ensures
        joined_by(texts(r@), seq![sep]) == s@,
        forall|i: int| 0 <= i < r@.len() ==> !(#[trigger] r@[i])@.contains(sep),
{
    lemma_joined_pieces(s@, sep);
    let ps = pieces(s@, just(sep));
    assert(texts(r@).len() == r@.len());
    assert forall|i: int| 0 <= i < r@.len() implies !(#[trigger] r@[i])@.contains(sep) by {
        assert(texts(r@)[i] == r@[i]@);
        if r@[i]@.contains(sep) {
            let j = choose|j: int| 0 <= j < ps[i].len() && ps[i][j] == sep;
            lemma_pieces_clean(s@, just(sep), i, j);
        }
    }
}

/// The pieces of a text put together are the text.
proof fn lemma_joined_pieces(s: Seq<char>, c: char)
    ensures
        joined_by(pieces(s, just(c)), seq![c]) == s,
    decreases s.len(),
{
    let sep = just(c);
    if s.len() == 0 {
        assert(s =~= Seq::empty());
    } else {
        let t = s.drop_last();
        lemma_joined_pieces(t, c);
        lemma_pieces_non_empty(t, sep);
        let before = pieces(t, sep);
        assert(s =~= t.push(s.last()));
        if sep(s.last()) {
            let none = Seq::<char>::empty();
            law_texts_are_joined_one_by_one(before, none, seq![c]);
            assert(s =~= t + seq![c] + none);
        } else {
            let last = before.last().push(s.last());
            let now = before.update(before.len() - 1, last);
            let front = before.drop_last();
            assert(before =~= front.push(before.last()));
            assert(now =~= front.push(last));
            law_texts_are_joined_one_by_one(front, before.last(), seq![c]);
            law_texts_are_joined_one_by_one(front, last, seq![c]);
            if front.len() == 0 {
                assert(joined_by(now, seq![c]) =~= s);
            } else {
                assert(joined_by(now, seq![c]) =~= joined_by(before, seq![c]).push(s.last()));
            }
        }
    }
}

/// Keeping the non-empty texts of two sequences, one behind the other.
proof fn lemma_non_empty_add(a: Seq<Seq<char>>, b: Seq<Seq<char>>)
    ensures
        non_empty(a + b) == non_empty(a) + non_empty(b),
    decreases b.len(),
{
    reveal(Seq::filter);
    if b.len() == 0 {
        assert(a + b =~= a);
        assert(non_empty(a) + non_empty(b) =~= non_empty(a));
    } else {
        let t = b.drop_last();
        lemma_non_empty_add(a, t);
        assert(a + b =~= (a + t).push(b.last()));
        assert(b =~= t.push(b.last()));
        lemma_filter_push(a + t, b.last());
        lemma_filter_push(t, b.last());
        assert(non_empty(a + b) =~= non_empty(a) + non_empty(b));
    }
}

/// The words of a text: white space parts them, and a text without any is one word.
pub proof fn law_white_space_parts_words(a: Seq<char>, c: char, b: Seq<char>)
    ensures
        is_white(c) ==> words(a.push(c) + b) == words(a) + words(b),
        a.len() > 0 && (forall|i: int| 0 <= i < a.len() ==> !is_white(#[trigger] a[i])) ==> words(a)
            == seq![a],
        words(Seq::empty()).len() == 0,
{
    reveal(Seq::filter);
    let sep = any_white();
    let none = Seq::<Seq<char>>::empty();
    if is_white(c) {
        lemma_pieces_join(a, c, b, sep);
        lemma_non_empty_add(pieces(a, sep), pieces(b, sep));
    }
    if a.len() > 0 && (forall|i: int| 0 <= i < a.len() ==> !is_white(#[trigger] a[i])) {
        assert forall|i: int| 0 <= i < a.len() implies !sep(#[trigger] a[i]) by {}
        lemma_pieces_single(a, sep);
        assert(seq![a] =~= none.push(a));
        lemma_filter_push(none, a);
        assert(non_empty(none) =~= none);
    }
    let e = Seq::<char>::empty();
    assert(pieces(e, sep) =~= none.push(e));
    lemma_filter_push(none, e);
    assert(non_empty(none) =~= none);
}

/// Words with one space between them are read back as those words.
pub proof fn law_words_read_back(ts: Seq<Seq<char>>)
    requires
        forall|i: int| 0 <= i < ts.len() ==> (#[trigger] ts[i]).len() > 0,
        forall|i: int, j: int|
            0 <= i < ts.len() && 0 <= j < ts[i].len() ==> !is_white(#[trigger] ts[i][j]),
    ensures
        words(joined_by(ts, " "@)) == ts,
    decreases ts.len(),
{
    reveal_strlit(" ");
    let e = Seq::<char>::empty();
    if ts.len() == 0 {
        law_white_space_parts_words(e, ' ', e);
        assert(ts =~= Seq::empty());
        assert(words(e) =~= ts);
    } else {
        let t = ts.drop_last();
        let w = ts.last();
        assert(ts[ts.len() - 1] == w);
        assert forall|j: int| 0 <= j < w.len() implies !is_white(#[trigger] w[j]) by {
            assert(ts[ts.len() - 1][j] == w[j]);
        }
        law_white_space_parts_words(w, ' ', e);
        if ts.len() == 1 {
            assert(ts =~= seq![w]);
        } else {
            assert forall|i: int| 0 <= i < t.len() implies (#[trigger] t[i]).len() > 0 by {
                assert(t[i] == ts[i]);
            }
            assert forall|i: int, j: int| 0 <= i < t.len() && 0 <= j < t[i].len() implies !is_white(
                #[trigger] t[i][j],
            ) by {
                assert(t[i] == ts[i]);
                assert(!is_white(ts[i][j]));
            }
            law_words_read_back(t);
            let front = joined_by(t, " "@);
            law_white_space_parts_words(front, ' ', w);
            assert(front + " "@ + w =~= front.push(' ') + w);
            assert(ts =~= t + seq![w]);
        }
    }
}

/// What is kept of some texts is one of them, and not empty.
proof fn lemma_non_empty_member(ps: Seq<Seq<char>>, i: int)
    requires
        0 <= i < non_empty(ps).len(),
    ensures
        non_empty(ps)[i].len() > 0,
        ps.contains(non_empty(ps)[i]),
    decreases ps.len(),
{
    reveal(Seq::filter);
    if ps.len() > 0 {
        let t = ps.drop_last();
        assert(ps =~= t.push(ps.last()));
        lemma_filter_push(t, ps.last());
        if i < non_empty(t).len() {
            lemma_non_empty_member(t, i);
            let k = choose|k: int| 0 <= k < t.len() && t[k] == non_empty(t)[i];
            assert(ps[k] == non_empty(ps)[i]);
        } else {
            assert(ps[ps.len() - 1] == non_empty(ps)[i]);
        }
    }
}

/// Every word has characters, and none of them is white space.
pub proof fn law_words_hold_no_white_space(s: Seq<char>, i: int, j: int)
    requires
        0 <= i < words(s).len(),
    ensures
        words(s)[i].len() > 0,
        0 <= j < words(s)[i].len() ==> !is_white(words(s)[i][j]),
{
    let ps = pieces(s, any_white());
    lemma_non_empty_member(ps, i);
    let k = choose|k: int| 0 <= k < ps.len() && ps[k] == words(s)[i];
    if 0 <= j < words(s)[i].len() {
        lemma_pieces_clean(s, any_white(), k, j);
    }
}

/// The lines of a text, from the first on: what stands before a newline is a line, without the
/// carriage return before that newline, and what stands behind the last newline is one where it is
/// not empty.
pub proof fn law_newlines_end_lines(line: Seq<char>, rest: Seq<char>)
    requires
        !line.contains('\n'),
    ensures
        line.len() == 0 || line.last() != '\r' ==> lines(line.push('\n') + rest) == seq![line]
            + lines(rest),
        lines(line.push('\r').push('\n') + rest) == seq![line] + lines(rest),
        line.len() > 0 ==> lines(line) == seq![line],
        line.len() == 0 ==> lines(line).len() == 0,
{
    let sep = just('\n');
    assert forall|i: int| 0 <= i < line.len() implies !sep(#[trigger] line[i]) by {
        if sep(line[i]) {
            assert(line.contains('\n'));
        }
    }
    lemma_pieces_single(line, sep);
    if line.len() > 0 {
        assert(lines(line) =~= seq![line]);
    }
    lemma_pieces_non_empty(rest, sep);
    let r = pieces(rest, sep);
    lemma_pieces_join(line, '\n', rest, sep);
    if line.len() == 0 || line.last() != '\r' {
        lemma_lines_of(line.push('\n') + rest, line, r, rest);
        assert(without_last(line, '\r') == line);
    }
    let l = line.push('\r');
    assert forall|i: int| 0 <= i < l.len() implies !sep(#[trigger] l[i]) by {
        if i < line.len() {
            assert(l[i] == line[i]);
        }
    }
    lemma_pieces_single(l, sep);
    lemma_pieces_join(l, '\n', rest, sep);
    lemma_lines_of(l.push('\n') + rest, l, r, rest);
    assert(l.drop_last() =~= line);
}

/// The lines of a text whose first piece is known.
proof fn lemma_lines_of(s: Seq<char>, first: Seq<char>, r: Seq<Seq<char>>, rest: Seq<char>)
    requires
        r == pieces(rest, just('\n')),
        r.len() > 0,
        pieces(s, just('\n')) == seq![first] + r,
    ensures
        lines(s) == seq![without_last(first, '\r')] + lines(rest),
{
    let f = |l: Seq<char>| without_last(l, '\r');
    let ps = seq![first] + r;
    assert(ps.drop_last() =~= seq![first] + r.drop_last());
    assert(ps.last() == r.last());
    assert(ps.drop_last().map_values(f) =~= seq![without_last(first, '\r')]
        + r.drop_last().map_values(f));
    assert(lines(s) =~= seq![without_last(first, '\r')] + lines(rest));
}

/// One text stands before another exactly where they agree up to some place at which the first
/// has ended and the other goes on, or the first has the smaller character.
pub proof fn law_texts_are_ordered_by_their_first_difference(a: &str, b: &str, r: bool)
    requires
        call_ensures(text_before, (a, b), r),
    ensures
        r <==> exists|k: int|
            {
                &&& 0 <= k < b@.len()
                &&& k <= a@.len()
                &&& #[trigger] a@.take(k) == b@.take(k)
                &&& k == a@.len() || a@[k] < b@[k]
            },
{
    if r {
        let k = lemma_first_difference(a@, b@);
        assert(a@.take(k) == b@.take(k));
    }
    if exists|k: int|
        {
            &&& 0 <= k < b@.len()
            &&& k <= a@.len()
            &&& #[trigger] a@.take(k) == b@.take(k)
            &&& k == a@.len() || a@[k] < b@[k]
        } {
        let k = choose|k: int|
            {
                &&& 0 <= k < b@.len()
                &&& k <= a@.len()
                &&& #[trigger] a@.take(k) == b@.take(k)
                &&& k == a@.len() || a@[k] < b@[k]
            };
        lemma_smaller_at(a@, b@, k);
    }
}

/// Where two texts differ first.
proof fn lemma_first_difference(a: Seq<char>, b: Seq<char>) -> (k: int)
    requires
        text_lt(a, b),
    ensures
        0 <= k < b.len(),
        k <= a.len(),
        a.take(k) == b.take(k),
        k == a.len() || a[k] < b[k],
    decreases a.len(),
{
    if a.len() == 0 || a[0] != b[0] {
        assert(a.take(0) =~= b.take(0));
        0
    } else {
        let (x, y) = (a.drop_first(), b.drop_first());
        let k = lemma_first_difference(x, y);
        assert forall|j: int| 0 <= j < k + 1 implies a[j] == b[j] by {
            if j > 0 {
                assert(x.take(k)[j - 1] == y.take(k)[j - 1]);
            }
        }
        assert(a.take(k + 1) =~= b.take(k + 1));
        k + 1
    }
}

/// The text with the smaller character at the first difference stands before the other.
proof fn lemma_smaller_at(a: Seq<char>, b: Seq<char>, k: int)
    requires
        0 <= k < b.len(),
        k <= a.len(),
        a.take(k) == b.take(k),
        k == a.len() || a[k] < b[k],
    ensures
        text_lt(a, b),
    decreases k,
{
    if k > 0 {
        let (x, y) = (a.drop_first(), b.drop_first());
        assert(a.take(k)[0] == b.take(k)[0]);
        assert(x.take(k - 1) =~= a.take(k).drop_first());
        assert(y.take(k - 1) =~= b.take(k).drop_first());
        assert(a.take(k)[0] == a[0] && b.take(k)[0] == b[0]);
        lemma_smaller_at(x, y, k - 1);
    }
}

/// One character is taken from the end of a text, where the text ends in it.
pub proof fn law_one_character_is_taken_from_the_end(s: &str, c: char, r: String)
    requires
        call_ensures(strip_last, (s, c), r),
    ensures
        s@.len() > 0 && s@.last() == c ==> s@ == r@.push(c),
        s@.len() == 0 || s@.last() != c ==> r@ == s@,
{
    if s@.len() > 0 && s@.last() == c {
        assert(s@ =~= r@.push(c));
    }
}

} // verus!

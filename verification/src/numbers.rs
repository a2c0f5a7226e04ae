//! Numbers as text: decimal and hexadecimal.

use crate::text::chars_of;
use vstd::prelude::*;

verus! {

/// The decimal digit for a value below ten.
pub open spec fn digit(d: nat) -> char {
    (('0' as u8 + d) as u8) as char
}

/// The decimal text of a number, without leading zeros.
pub open spec fn decimal(n: nat) -> Seq<char>
    decreases n,
{
    if n < 10 {
        seq![digit(n)]
    } else {
        decimal(n / 10).push(digit(n % 10))
    }
}

/// Whether `c` is an ASCII decimal digit.
pub open spec fn is_digit(c: char) -> bool {
    '0' <= c && c <= '9'
}

/// Whether `s` is made of decimal digits alone.
pub open spec fn all_digits(s: Seq<char>) -> bool {
    forall|i: int| 0 <= i < s.len() ==> is_digit(#[trigger] s[i])
}

/// The number that a sequence of decimal digits spells.
pub open spec fn value(s: Seq<char>) -> nat
    decreases s.len(),
{
    if s.len() == 0 {
        0
    } else {
        (value(s.drop_last()) * 10 + (s.last() as int - '0' as int)) as nat
    }
}

/// `s` without one leading plus sign.
pub open spec fn unsigned_body(s: Seq<char>) -> Seq<char> {
    if s.len() > 0 && s[0] == '+' {
        s.drop_first()
    } else {
        s
    }
}

/// The unsigned number that a text denotes: digits, at least one, after an optional plus sign,
/// and no more than `max`.
pub open spec fn parsed(s: Seq<char>, max: nat) -> Option<nat> {
    let body = unsigned_body(s);
    if body.len() > 0 && all_digits(body) && value(body) <= max {
        Some(value(body))
    } else {
        None
    }
}

/// More digits never make a number smaller.
proof fn lemma_value_grows(s: Seq<char>, k: int)
    requires
        all_digits(s),
        0 <= k <= s.len(),
    ensures
        value(s.take(k)) <= value(s),
    decreases s.len() - k,
{
    if k == s.len() {
        assert(s.take(k) =~= s);
    } else {
        assert(s.take(k + 1).drop_last() =~= s.take(k));
        assert(is_digit(s[k]));
        lemma_value_grows(s, k + 1);
    }
}

/// The number that `s` denotes, if it denotes one that is at most `max`.
pub fn parse_unsigned(s: &str, max: u64) -> (r: Option<u64>)
    ensures
        r matches Some(n) ==> parsed(s@, max as nat) == Some(n as nat),
        r is None ==> parsed(s@, max as nat) is None,
{
    let cs = chars_of(s);
    let start: usize = if cs.len() > 0 && cs[0] == '+' {
        1
    } else {
        0
    };
    let ghost body = unsigned_body(s@);
    assert(body =~= cs@.skip(start as int));
    if start == cs.len() {
        return None;
    }
    let mut n: u64 = 0;
    let mut i: usize = start;
    assert(body.take(0) =~= Seq::empty());
    while i < cs.len()
        invariant
            start <= i <= cs@.len(),
            start < cs@.len(),
            body == cs@.skip(start as int),
            cs@ == s@,
            body == unsigned_body(s@),
            all_digits(body.take(i - start)),
            n == value(body.take(i - start)),
            n <= max,
        decreases cs@.len() - i,
    {
        let c = cs[i];
        assert(body[i - start] == c);
        if c < '0' || '9' < c {
            assert(!is_digit(body[i - start]));
            return None;
        }
        let d: u64 = (c as u64) - ('0' as u64);
        let ghost t = body.take(i - start + 1);
        assert(t.drop_last() =~= body.take(i - start));
        assert(t.last() == c);
        if n > max / 10 || d > max - n * 10 {
            proof {
                if all_digits(body) {
                    lemma_value_grows(body, i - start + 1);
                    assert(value(t) == n * 10 + d);
                }
            }
            return None;
        }
        n = n * 10 + d;
        assert forall|k: int| 0 <= k < t.len() implies is_digit(#[trigger] t[k]) by {
            if k < i - start {
                assert(body.take(i - start)[k] == t[k]);
            }
        }
        i += 1;
    }
    assert(body.take(cs@.len() - start) =~= body);
    Some(n)
}

/// The decimal text of `n`.
pub fn to_decimal(n: u64) -> (r: String)
    ensures
        r@ == decimal(n as nat),
    decreases n,
{
    if n < 10 {
        let mut s = String::new();
        s.push((48 + n as u8) as char);
        assert(s@ =~= decimal(n as nat));
        s
    } else {
        let mut s = to_decimal(n / 10);
        s.push((48 + (n % 10) as u8) as char);
        s
    }
}

/// A decimal text is never empty, is made of digits and spells its number.
pub proof fn lemma_decimal_value(n: nat)
    ensures
        decimal(n).len() > 0,
        all_digits(decimal(n)),
        value(decimal(n)) == n,
    decreases n,
{
    if n < 10 {
        let s = decimal(n);
        assert(s.drop_last() =~= Seq::empty());
        assert(value(s.drop_last()) == 0);
    } else {
        lemma_decimal_value(n / 10);
        let s = decimal(n);
        assert(s.drop_last() =~= decimal(n / 10));
        assert forall|i: int| 0 <= i < s.len() implies is_digit(#[trigger] s[i]) by {
            if i < s.len() - 1 {
                assert(s[i] == decimal(n / 10)[i]);
            }
        }
    }
}

/// Reading back a decimal text gives the number it was written from.
pub proof fn law_decimal_reads_back(n: nat, max: nat)
    requires
        n <= max,
    ensures
        parsed(decimal(n), max) == Some(n),
{
    lemma_decimal_value(n);
    assert(is_digit(decimal(n)[0]));
    assert(unsigned_body(decimal(n)) == decimal(n));
}

/// The lower-case hexadecimal digit for a value below sixteen.
pub open spec fn hex_digit(d: nat) -> char {
    if d < 10 {
        digit(d)
    } else {
        (('a' as u8 + (d - 10)) as u8) as char
    }
}

/// The lower-case hexadecimal text of a number, padded with zeros to `width` digits.
pub open spec fn hex(n: nat, width: nat) -> Seq<char>
    decreases width,
{
    if width == 0 {
        Seq::empty()
    } else {
        hex(n / 16, (width - 1) as nat).push(hex_digit(n % 16))
    }
}

/// The lower-case hexadecimal text of `n`, padded with zeros to `width` digits.
pub fn to_hex(n: u64, width: u32) -> (r: String)
    ensures
        r@ == hex(n as nat, width as nat),
    decreases width,
{
    if width == 0 {
        let s = String::new();
        assert(s@ =~= Seq::empty());
        s
    } else {
        let mut s = to_hex(n / 16, width - 1);
        let d: u8 = (n % 16) as u8;
        if d < 10 {
            s.push((48 + d) as char);
        } else {
            s.push((87 + d) as char);
        }
        s
    }
}

/// A hexadecimal text has exactly its width, and only lower-case hexadecimal digits.
pub proof fn lemma_hex_shape(n: nat, width: nat)
    ensures
        hex(n, width).len() == width,
        forall|i: int|
            0 <= i < width ==> is_digit(#[trigger] hex(n, width)[i]) || ('a' <= hex(n, width)[i]
                && hex(n, width)[i] <= 'f'),
    decreases width,
{
    if width > 0 {
        lemma_hex_shape(n / 16, (width - 1) as nat);
        let s = hex(n, width);
        assert forall|i: int| 0 <= i < width implies is_digit(#[trigger] s[i]) || ('a' <= s[i]
            && s[i] <= 'f') by {
            if i < width - 1 {
                assert(s[i] == hex(n / 16, (width - 1) as nat)[i]);
            }
        }
    }
}

/// How numbers are written: a number below ten is its digit, and any other one is the number
/// without its last digit, then that digit.
pub proof fn law_decimal_is_written_digit_by_digit(n: nat, d: nat)
    requires
        d < 10,
    ensures
        decimal(d) == seq!["0123456789"@[d as int]],
        n > 0 ==> decimal(n * 10 + d) == decimal(n).push("0123456789"@[d as int]),
{
    reveal_strlit("0123456789");
    assert(digit(d) == "0123456789"@[d as int]) by {
        assert(d == 0 || d == 1 || d == 2 || d == 3 || d == 4 || d == 5 || d == 6 || d == 7 || d
            == 8 || d == 9);
    }
    if n > 0 {
        assert((n * 10 + d) / 10 == n);
        assert((n * 10 + d) % 10 == d);
    }
}

/// How hexadecimal numbers are written: as many digits as asked for, from the last one up.
pub proof fn law_hex_is_written_digit_by_digit(n: nat, d: nat, width: nat)
    requires
        d < 16,
    ensures
        hex(n * 16 + d, width + 1) == hex(n, width).push("0123456789abcdef"@[d as int]),
        hex(n, 0).len() == 0,
{
    reveal_strlit("0123456789abcdef");
    assert(hex_digit(d) == "0123456789abcdef"@[d as int]) by {
        assert(d == 0 || d == 1 || d == 2 || d == 3 || d == 4 || d == 5 || d == 6 || d == 7 || d
            == 8 || d == 9 || d == 10 || d == 11 || d == 12 || d == 13 || d == 14 || d == 15);
    }
    assert((n * 16 + d) / 16 == n);
    assert((n * 16 + d) % 16 == d);
}

/// What a text of digits is worth: one more digit is ten times as much and the digit.
pub proof fn law_each_digit_counts_tenfold(s: Seq<char>, d: nat)
    requires
        d < 10,
    ensures
        value(s.push("0123456789"@[d as int])) == value(s) * 10 + d,
        value(Seq::empty()) == 0,
{
    reveal_strlit("0123456789");
    let c = "0123456789"@[d as int];
    assert(c as int == '0' as int + d) by {
        assert(d == 0 || d == 1 || d == 2 || d == 3 || d == 4 || d == 5 || d == 6 || d == 7 || d
            == 8 || d == 9);
    }
    assert(s.push(c).drop_last() =~= s);
}

/// Which texts are numbers: digits, at least one, with or without a plus sign before them, that
/// are worth no more than the limit. Leading zeros do no harm, and any other character does.
pub proof fn law_numbers_are_digits_within_the_limit(s: &str, max: u64, r: Option<u64>)
    requires
        call_ensures(parse_unsigned, (s, max), r),
    ensures
        s@.len() == 0 ==> r is None,
        s@ == "+"@ ==> r is None,
        s@.len() > 0 && (forall|i: int| 0 <= i < s@.len() ==> '0' <= #[trigger] s@[i] && s@[i] <= '9')
            ==> (if value(s@) <= max {
            r == Some(value(s@) as u64)
        } else {
            r is None
        }),
        s@.len() > 1 && s@[0] == '+' && (forall|i: int|
            1 <= i < s@.len() ==> '0' <= #[trigger] s@[i] && s@[i] <= '9') ==> (if value(s@.skip(1))
            <= max {
            r == Some(value(s@.skip(1)) as u64)
        } else {
            r is None
        }),
        (exists|i: int| 0 <= i < s@.len() && (i > 0 || s@[i] != '+') && !('0' <= #[trigger] s@[i]
            && s@[i] <= '9')) ==> r is None,
{
    reveal_strlit("+");
    let t = s@;
    if t.len() > 0 && t[0] == '+' {
        assert(t.drop_first() =~= t.skip(1));
        assert forall|i: int| 1 <= i < t.len() implies t.drop_first()[i - 1] == #[trigger] t[i] by {}
        if exists|i: int| 0 <= i < t.len() && (i > 0 || t[i] != '+') && !('0' <= #[trigger] t[i]
            && t[i] <= '9') {
            let i = choose|i: int|
                0 <= i < t.len() && (i > 0 || t[i] != '+') && !('0' <= #[trigger] t[i] && t[i]
                    <= '9');
            assert(!is_digit(t.drop_first()[i - 1]));
        }
        if t.len() > 1 && (forall|i: int|
            1 <= i < t.len() ==> '0' <= #[trigger] t[i] && t[i] <= '9') {
            assert forall|i: int| 0 <= i < t.drop_first().len() implies is_digit(
                #[trigger] t.drop_first()[i],
            ) by {
                assert(t.drop_first()[i] == t[i + 1]);
            }
        }
        assert(!is_digit(t[0]));
    } else {
        if exists|i: int| 0 <= i < t.len() && (i > 0 || t[i] != '+') && !('0' <= #[trigger] t[i]
            && t[i] <= '9') {
            let i = choose|i: int|
                0 <= i < t.len() && (i > 0 || t[i] != '+') && !('0' <= #[trigger] t[i] && t[i]
                    <= '9');
            assert(!is_digit(t[i]));
        }
        if t.len() > 0 && (forall|i: int|
            0 <= i < t.len() ==> '0' <= #[trigger] t[i] && t[i] <= '9') {
            assert(all_digits(t));
        }
    }
}

} // verus!

use vstd::prelude::*;

use crate::dtype::{digits_value, is_digit};

verus! {

/// Whether two strings are equal.
pub fn str_eq(a: &str, b: &str) -> (r: bool)
    ensures
        r == (a@ == b@),
{
    let la = a.unicode_len();
    let lb = b.unicode_len();
    if la != lb {
        return false;
    }
    let mut i: usize = 0;
    while i < la
        invariant
            la == a@.len(),
            lb == b@.len(),
            la == lb,
            i <= la,
            a@.take(i as int) =~= b@.take(i as int),
        decreases la - i,
    {
        if a.get_char(i) != b.get_char(i) {
            assert(a@[i as int] != b@[i as int]);
            return false;
        }
        assert(a@.take(i + 1) =~= a@.take(i as int).push(a@[i as int]));
        assert(b@.take(i + 1) =~= b@.take(i as int).push(b@[i as int]));
        i = i + 1;
    }
    assert(a@.take(la as int) =~= a@);
    assert(b@.take(lb as int) =~= b@);
    true
}

/// Whether a string ends with the given character.
pub fn ends_with_char(s: &str, c: char) -> (r: bool)
    ensures
        r == (s@.len() > 0 && s@.last() == c),
{
    let n = s.unicode_len();
    if n == 0 {
        false
    } else {
        s.get_char(n - 1) == c
    }
}

/// Whether a string starts with the given character.
pub fn starts_with_char(s: &str, c: char) -> (r: bool)
    ensures
        r == (s@.len() > 0 && s@[0] == c),
{
    let n = s.unicode_len();
    if n == 0 {
        false
    } else {
        s.get_char(0) == c
    }
}

/// Whether a string contains the given character.
pub fn contains_char(s: &str, c: char) -> (r: bool)
    ensures
        r == s@.contains(c),
{
    let n = s.unicode_len();
    let mut i: usize = 0;
    while i < n
        invariant
            n == s@.len(),
            i <= n,
            forall|j: int| 0 <= j < i ==> s@[j] != c,
        decreases n - i,
    {
        if s.get_char(i) == c {
            assert(s@[i as int] == c);
            return true;
        }
        i = i + 1;
    }
    false
}

/// A copy of a string slice.
pub fn to_owned_string(s: &str) -> (r: String)
    ensures
        r@ == s@,
{
    s.to_owned()
}

/// The concatenation of two strings.
pub fn concat_str(a: &str, b: &str) -> (r: String)
    ensures
        r@ == a@ + b@,
{
    let mut r = a.to_owned();
    r.append(b);
    r
}

/// Appends the `i`-th character of `src` to `dst`.
pub fn push_char_of(dst: &mut String, src: &str, i: usize)
    requires
        i < src@.len(),
    ensures
        final(dst)@ == old(dst)@.push(src@[i as int]),
{
    let _n = src.unicode_len();
    let piece = src.substring_char(i, i + 1);
    dst.append(piece);
    assert(piece@ =~= seq![src@[i as int]]);
}


/// The decimal digits of `n`, most significant first.
pub open spec fn decimal_chars(n: nat) -> Seq<char>
    decreases n,
{
    if n < 10 {
        seq![digit_char(n)]
    } else {
        decimal_chars(n / 10).push(digit_char(n % 10))
    }
}

pub open spec fn digit_char(d: nat) -> char {
    if d == 0 {
        '0'
    } else if d == 1 {
        '1'
    } else if d == 2 {
        '2'
    } else if d == 3 {
        '3'
    } else if d == 4 {
        '4'
    } else if d == 5 {
        '5'
    } else if d == 6 {
        '6'
    } else if d == 7 {
        '7'
    } else if d == 8 {
        '8'
    } else {
        '9'
    }
}

fn digit_str(d: u64) -> (r: &'static str)
    requires
        d < 10,
    ensures
        r@ == seq![digit_char(d as nat)],
{
    proof {
        reveal_strlit("0");
        reveal_strlit("1");
        reveal_strlit("2");
        reveal_strlit("3");
        reveal_strlit("4");
        reveal_strlit("5");
        reveal_strlit("6");
        reveal_strlit("7");
        reveal_strlit("8");
        reveal_strlit("9");
    }
    if d == 0 {
        "0"
    } else if d == 1 {
        "1"
    } else if d == 2 {
        "2"
    } else if d == 3 {
        "3"
    } else if d == 4 {
        "4"
    } else if d == 5 {
        "5"
    } else if d == 6 {
        "6"
    } else if d == 7 {
        "7"
    } else if d == 8 {
        "8"
    } else {
        "9"
    }
}

/// The decimal representation of `n`.
pub fn decimal_text(n: u64) -> (r: String)
    ensures
        r@ == decimal_chars(n as nat),
    decreases n,
{
    if n < 10 {
        to_owned_string(digit_str(n))
    } else {
        let head = decimal_text(n / 10);
        let r = concat_str(head.as_str(), digit_str(n % 10));
        assert(r@ =~= decimal_chars(n as nat));
        r
    }
}


/// Whether `needle` occurs in `hay` at position `i`.
pub open spec fn occurs_at(hay: Seq<char>, needle: Seq<char>, i: int) -> bool {
    0 <= i && i + needle.len() <= hay.len() && hay.subrange(i, i + needle.len()) == needle
}

/// Whether `needle` occurs in `hay`.
pub open spec fn contains_seq(hay: Seq<char>, needle: Seq<char>) -> bool {
    exists|i: int| #[trigger] occurs_at(hay, needle, i)
}

/// Whether `needle` occurs at position `i` of `hay`.
fn occurs_at_exec(hay: &str, needle: &str, i: usize) -> (r: bool)
    requires
        i + needle@.len() <= hay@.len(),
    ensures
        r == occurs_at(hay@, needle@, i as int),
{
    let n = needle.unicode_len();
    let h = hay.unicode_len();
    let mut k: usize = 0;
    while k < n
        invariant
            n == needle@.len(),
            h == hay@.len(),
            i + n <= hay@.len(),
            k <= n,
            forall|j: int| 0 <= j < k ==> hay@[i + j] == needle@[j],
        decreases n - k,
    {
        if hay.get_char(i + k) != needle.get_char(k) {
            assert(hay@.subrange(i as int, i + n)[k as int] != needle@[k as int]);
            return false;
        }
        k = k + 1;
    }
    assert(hay@.subrange(i as int, i + n) =~= needle@);
    true
}

/// Whether `s` starts with `prefix` (`str::starts_with`).
pub fn starts_with_str(s: &str, prefix: &str) -> (r: bool)
    ensures
        r == occurs_at(s@, prefix@, 0),
{
    let n = prefix.unicode_len();
    let h = s.unicode_len();
    if n > h {
        return false;
    }
    occurs_at_exec(s, prefix, 0)
}

/// Whether `needle` occurs in `hay` (`str::contains`).
pub fn contains_str(hay: &str, needle: &str) -> (r: bool)
    ensures
        r == contains_seq(hay@, needle@),
{
    let h = hay.unicode_len();
    let n = needle.unicode_len();
    if n > h {
        return false;
    }
    let limit = h - n;
    let mut i: usize = 0;
    loop
        invariant
            h == hay@.len(),
            n == needle@.len(),
            limit == h - n,
            i <= limit,
            forall|j: int| 0 <= j < i ==> !occurs_at(hay@, needle@, j),
        ensures
            forall|j: int| 0 <= j <= limit ==> !occurs_at(hay@, needle@, j),
        decreases limit - i,
    {
        if occurs_at_exec(hay, needle, i) {
            return true;
        }
        if i == limit {
            break;
        }
        i = i + 1;
    }
    assert forall|j: int| #[trigger] occurs_at(hay@, needle@, j) implies false by {
        assert(j <= limit);
    }
    false
}
/// The value of the decimal digits of `s` from `i` on (all of them digits).
pub open spec fn digits_from(s: Seq<char>, i: int) -> nat {
    digits_value(s, i, (s.len() - i) as nat)
}

/// Whether `s` from `i` on is a non-empty run of ASCII digits.
pub open spec fn all_digits_from(s: Seq<char>, i: int) -> bool {
    i < s.len() && forall|j: int| i <= j < s.len() ==> is_digit(#[trigger] s[j])
}

/// The integer that text denotes as the signed integer types' `from_str` reads it: an optional
/// `+` or `-`, then one or more ASCII digits; `None` for any other text (whitespace included).
pub open spec fn signed_text_value(s: Seq<char>) -> Option<int> {
    let start: int = if s.len() > 0 && (s[0] == '+' || s[0] == '-') { 1 } else { 0 };
    if all_digits_from(s, start) {
        Some(if s[0] == '-' { -(digits_from(s, start) as int) } else { digits_from(s, start) as int })
    } else {
        None
    }
}

/// The integer that text denotes as the unsigned integer types' `from_str` reads it: an
/// optional `+`, then one or more ASCII digits; `None` for any other text.
pub open spec fn unsigned_text_value(s: Seq<char>) -> Option<int> {
    let start: int = if s.len() > 0 && s[0] == '+' { 1 } else { 0 };
    if all_digits_from(s, start) {
        Some(digits_from(s, start) as int)
    } else {
        None
    }
}

/// An integer, when there is one and it lies in `lo..=hi`.
pub open spec fn within(v: Option<int>, lo: int, hi: int) -> Option<int> {
    match v {
        Some(x) => if lo <= x <= hi { Some(x) } else { None },
        None => None,
    }
}

/// What `u64::from_str` gives: an optional `+` and ASCII digits, of a value that fits.
pub open spec fn u64_text_spec(s: Seq<char>) -> Option<u64> {
    match within(unsigned_text_value(s), 0, u64::MAX as int) {
        Some(x) => Some(x as u64),
        None => None,
    }
}

/// What `i64::from_str` gives: an optional sign and ASCII digits, of a value that fits.
pub open spec fn i64_text_spec(s: Seq<char>) -> Option<i64> {
    match within(signed_text_value(s), i64::MIN as int, i64::MAX as int) {
        Some(x) => Some(x as i64),
        None => None,
    }
}

/// What `u128::from_str` gives: an optional `+` and ASCII digits, of a value that fits.
pub open spec fn u128_text_spec(s: Seq<char>) -> Option<u128> {
    match within(unsigned_text_value(s), 0, u128::MAX as int) {
        Some(x) => Some(x as u128),
        None => None,
    }
}

/// What `i128::from_str` gives: an optional sign and ASCII digits, of a value that fits.
pub open spec fn i128_text_spec(s: Seq<char>) -> Option<i128> {
    match within(signed_text_value(s), i128::MIN as int, i128::MAX as int) {
        Some(x) => Some(x as i128),
        None => None,
    }
}

/// A run of digits is worth at least each of its prefixes.
proof fn lemma_digits_prefix(s: Seq<char>, i: int, k: nat, m: nat)
    requires
        k <= m,
    ensures
        digits_value(s, i, k) <= digits_value(s, i, m),
    decreases m,
{
    if k < m {
        lemma_digits_prefix(s, i, k, (m - 1) as nat);
    }
}

/// The value of the ASCII digits of `s` from `start` on, when they are a non-empty run of
/// digits worth at most `limit`.
fn digits_upto(s: &str, start: usize, limit: u128) -> (r: Option<u128>)
    ensures
        r == if all_digits_from(s@, start as int) && digits_from(s@, start as int) <= limit {
            Some(digits_from(s@, start as int) as u128)
        } else {
            None
        },
{
    let n = s.unicode_len();
    if start >= n {
        return None;
    }
    let mut acc: u128 = 0;
    let mut i: usize = start;
    while i < n
        invariant
            start < n,
            n == s@.len(),
            start <= i <= n,
            forall|j: int| start <= j < i ==> is_digit(#[trigger] s@[j]),
            acc == digits_value(s@, start as int, (i - start) as nat),
            acc <= limit,
        decreases n - i,
    {
        let c = s.get_char(i);
        if !('0' <= c && c <= '9') {
            assert(!is_digit(s@[i as int]));
            return None;
        }
        let d: u128 = ((c as u32) - ('0' as u32)) as u128;
        assert(digits_value(s@, start as int, (i + 1 - start) as nat) == acc * 10 + d);
        if d > limit || acc > (limit - d) / 10 {
            assert(acc * 10 + d > limit) by (nonlinear_arith)
                requires
                    d > limit || acc > (limit - d) / 10,
            ;
            proof {
                lemma_digits_prefix(s@, start as int, (i + 1 - start) as nat, (n - start) as nat);
            }
            return None;
        }
        assert(acc * 10 + d <= limit) by (nonlinear_arith)
            requires
                d <= limit,
                acc <= (limit - d) / 10,
        ;
        acc = acc * 10 + d;
        i = i + 1;
    }
    Some(acc)
}

/// Parses an unsigned integer as `u64::from_str` does: an optional `+` followed by ASCII
/// digits whose value fits; anything else (whitespace included) is an error.
pub fn parse_u64(s: &str) -> (r: Option<u64>)
    ensures
        r == u64_text_spec(s@),
{
    let start: usize = if starts_with_char(s, '+') { 1 } else { 0 };
    match digits_upto(s, start, 18_446_744_073_709_551_615u128) {
        Some(m) => Some(m as u64),
        None => None,
    }
}

/// Parses an unsigned 128-bit integer as `u128::from_str` does (read as `parse_u64` reads).
pub fn parse_u128(s: &str) -> (r: Option<u128>)
    ensures
        r == u128_text_spec(s@),
{
    let start: usize = if starts_with_char(s, '+') { 1 } else { 0 };
    digits_upto(s, start, 340_282_366_920_938_463_463_374_607_431_768_211_455u128)
}

/// Parses a signed integer as `i64::from_str` does: an optional sign followed by ASCII digits
/// whose value fits; anything else is an error.
pub fn parse_i64(s: &str) -> (r: Option<i64>)
    ensures
        r == i64_text_spec(s@),
{
    let neg = starts_with_char(s, '-');
    let start: usize = if neg || starts_with_char(s, '+') { 1 } else { 0 };
    let limit: u128 = if neg { 9_223_372_036_854_775_808u128 } else { 9_223_372_036_854_775_807u128 };
    match digits_upto(s, start, limit) {
        Some(m) => {
            if neg {
                Some((0i128 - (m as i128)) as i64)
            } else {
                Some(m as i64)
            }
        },
        None => None,
    }
}

/// Parses a signed 128-bit integer as `i128::from_str` does (read as `parse_i64` reads).
pub fn parse_i128(s: &str) -> (r: Option<i128>)
    ensures
        r == i128_text_spec(s@),
{
    let neg = starts_with_char(s, '-');
    let start: usize = if neg || starts_with_char(s, '+') { 1 } else { 0 };
    let limit: u128 = if neg {
        170_141_183_460_469_231_731_687_303_715_884_105_728u128
    } else {
        170_141_183_460_469_231_731_687_303_715_884_105_727u128
    };
    match digits_upto(s, start, limit) {
        Some(m) => {
            if !neg {
                Some(m as i128)
            } else if m == 170_141_183_460_469_231_731_687_303_715_884_105_728u128 {
                Some(-170_141_183_460_469_231_731_687_303_715_884_105_727i128 - 1)
            } else {
                Some(0i128 - (m as i128))
            }
        },
        None => None,
    }
}
} // verus!

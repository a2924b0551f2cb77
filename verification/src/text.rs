//! Character-level string helpers: whitespace trimming, comparison, prefixes, splitting and
//! decimal numbers.
use vstd::prelude::*;
use vstd::string::{StrSliceExecFns, StringSliceAdditionalSpecFns};

verus! {

/// Whether `c` has the Unicode `White_Space` property.
pub open spec fn is_ws(c: char) -> bool {
    let u = c as u32;
    ||| 9 <= u <= 13
    ||| u == 32
    ||| u == 0x85
    ||| u == 0xA0
    ||| u == 0x1680
    ||| 0x2000 <= u <= 0x200A
    ||| u == 0x2028
    ||| u == 0x2029
    ||| u == 0x202F
    ||| u == 0x205F
    ||| u == 0x3000
}

/// Whether `c` is whitespace.
pub fn char_is_ws(c: char) -> (b: bool)
    ensures
        b == is_ws(c),
{
    let u = c as u32;
    (9 <= u && u <= 13) || u == 32 || u == 0x85 || u == 0xA0 || u == 0x1680 || (0x2000 <= u && u
        <= 0x200A) || u == 0x2028 || u == 0x2029 || u == 0x202F || u == 0x205F || u == 0x3000
}

/// Index of the first character of `s` at or after `i` that is not whitespace, or `s.len()`.
pub open spec fn first_non_ws_from(s: Seq<char>, i: int) -> int
    decreases s.len() - i,
{
    if i >= s.len() {
        s.len() as int
    } else if !is_ws(s[i]) {
        i
    } else {
        first_non_ws_from(s, i + 1)
    }
}

/// One past the last character of `s` before `j` that is not whitespace, or `lo`.
pub open spec fn last_non_ws_before(s: Seq<char>, lo: int, j: int) -> int
    decreases j - lo,
{
    if j <= lo {
        lo
    } else if !is_ws(s[j - 1]) {
        j
    } else {
        last_non_ws_before(s, lo, j - 1)
    }
}

/// `s` without leading and trailing whitespace.
pub open spec fn trimmed(s: Seq<char>) -> Seq<char> {
    let a = first_non_ws_from(s, 0);
    s.subrange(a, last_non_ws_before(s, a, s.len() as int))
}

/// The first non-whitespace index lies between `i` and the end.
pub proof fn lemma_first_non_ws(s: Seq<char>, i: int)
    requires
        0 <= i <= s.len(),
    ensures
        i <= first_non_ws_from(s, i) <= s.len(),
    decreases s.len() - i,
{
    if i < s.len() && is_ws(s[i]) {
        lemma_first_non_ws(s, i + 1);
    }
}

/// The last non-whitespace bound lies between `lo` and `j`.
pub proof fn lemma_last_non_ws(s: Seq<char>, lo: int, j: int)
    requires
        lo <= j,
    ensures
        lo <= last_non_ws_before(s, lo, j) <= j,
    decreases j - lo,
{
    if j > lo && is_ws(s[j - 1]) {
        lemma_last_non_ws(s, lo, j - 1);
    }
}

/// `s` without leading and trailing whitespace.
pub fn trim_str(s: &str) -> (t: &str)
    ensures
        t@ == trimmed(s@),
{
    let n = s.unicode_len();
    let mut a: usize = 0;
    while a < n && char_is_ws(s.get_char(a))
        invariant
            n == s@.len(),
            a <= n,
            first_non_ws_from(s@, 0) == first_non_ws_from(s@, a as int),
        decreases n - a,
    {
        a = a + 1;
    }
    let mut b: usize = n;
    while b > a && char_is_ws(s.get_char(b - 1))
        invariant
            n == s@.len(),
            a <= b <= n,
            a == first_non_ws_from(s@, 0),
            last_non_ws_before(s@, a as int, n as int) == last_non_ws_before(s@, a as int, b as int),
        decreases b - a,
    {
        b = b - 1;
    }
    s.substring_char(a, b)
}

/// Whether `a` and `b` hold the same characters.
pub fn str_eq(a: &str, b: &str) -> (r: bool)
    ensures
        r == (a@ == b@),
{
    let n = a.unicode_len();
    if n != b.unicode_len() {
        return false;
    }
    let mut i: usize = 0;
    while i < n
        invariant
            n == a@.len() && n == b@.len(),
            i <= n,
            forall|k: int| 0 <= k < i ==> a@[k] == b@[k],
        decreases n - i,
    {
        if a.get_char(i) != b.get_char(i) {
            return false;
        }
        i = i + 1;
    }
    assert(a@ =~= b@);
    true
}

/// `s` after `prefix`, when it starts with `prefix`.
pub fn strip_prefix_str<'a>(s: &'a str, prefix: &str) -> (r: Option<&'a str>)
    ensures
        match r {
            Some(rest) => prefix@.len() <= s@.len() && s@.subrange(0, prefix@.len() as int)
                == prefix@ && rest@ == s@.subrange(prefix@.len() as int, s@.len() as int),
            None => !(prefix@.len() <= s@.len() && s@.subrange(0, prefix@.len() as int)
                == prefix@),
        },
{
    let n = s.unicode_len();
    let m = prefix.unicode_len();
    if m > n {
        return None;
    }
    let mut i: usize = 0;
    while i < m
        invariant
            n == s@.len() && m == prefix@.len(),
            m <= n,
            i <= m,
            forall|k: int| 0 <= k < i ==> s@[k] == prefix@[k],
        decreases m - i,
    {
        if s.get_char(i) != prefix.get_char(i) {
            assert(s@.subrange(0, m as int)[i as int] != prefix@[i as int]);
            return None;
        }
        i = i + 1;
    }
    assert(s@.subrange(0, m as int) =~= prefix@);
    Some(s.substring_char(m, n))
}

/// Index of the first occurrence of `c` in `s` at or after `i`, or `s.len()`.
pub open spec fn find_char_from(s: Seq<char>, c: char, i: int) -> int
    decreases s.len() - i,
{
    if i >= s.len() {
        s.len() as int
    } else if s[i] == c {
        i
    } else {
        find_char_from(s, c, i + 1)
    }
}

/// The first occurrence at or after `i` lies between `i` and the end.
pub proof fn lemma_find_char_bounds(s: Seq<char>, c: char, i: int)
    requires
        0 <= i <= s.len(),
    ensures
        i <= find_char_from(s, c, i) <= s.len(),
    decreases s.len() - i,
{
    if i < s.len() && s[i] != c {
        lemma_find_char_bounds(s, c, i + 1);
    }
}

/// Index of the first occurrence of `c` in `s`.
pub fn find_char(s: &str, c: char) -> (r: Option<usize>)
    ensures
        match r {
            Some(i) => i < s@.len() && i == find_char_from(s@, c, 0),
            None => find_char_from(s@, c, 0) == s@.len(),
        },
{
    let n = s.unicode_len();
    let mut i: usize = 0;
    while i < n
        invariant
            n == s@.len(),
            i <= n,
            find_char_from(s@, c, 0) == find_char_from(s@, c, i as int),
        decreases n - i,
    {
        if s.get_char(i) == c {
            return Some(i);
        }
        i = i + 1;
    }
    None
}

/// The decimal digits of `n`, most significant first, without leading zeros ("0" for zero).
pub open spec fn decimal(n: nat) -> Seq<u8>
    decreases n,
{
    if n < 10 {
        seq![(48 + n) as u8]
    } else {
        decimal(n / 10).push((48 + n % 10) as u8)
    }
}


/// The number a string of ASCII decimal digits spells, most significant first.
pub open spec fn digits_value(s: Seq<u8>) -> int
    decreases s.len(),
{
    if s.len() == 0 {
        0
    } else {
        digits_value(s.drop_last()) * 10 + (s.last() - 48)
    }
}

/// The digits printed for `n` spell `n`: at least one digit, only ASCII digits, no leading
/// zero unless the number is zero itself, and their value is `n`.
pub proof fn law_decimal_spells(n: nat)
    ensures
        decimal(n).len() > 0,
        forall|j: int| 0 <= j < decimal(n).len() ==> 48 <= #[trigger] decimal(n)[j] <= 57,
        decimal(n).len() > 1 ==> decimal(n)[0] != 48,
        n == 0 ==> decimal(n) == seq![48u8],
        digits_value(decimal(n)) == n,
    decreases n,
{
    if n >= 10 {
        law_decimal_spells(n / 10);
        let p = decimal(n / 10);
        assert(decimal(n) == p.push((48 + n % 10) as u8));
        assert(decimal(n).drop_last() == p);
        assert forall|j: int| 0 <= j < decimal(n).len() implies 48 <= #[trigger] decimal(n)[j] <= 57 by {
            if j < p.len() {
                assert(decimal(n)[j] == p[j]);
            }
        }
        assert(decimal(n)[0] == p[0]);
        assert(decimal(n).last() == (48 + n % 10) as u8);
        assert(digits_value(decimal(n)) == digits_value(p) * 10 + (n % 10));
        assert((n / 10) * 10 + n % 10 == n);
        if p.len() == 1 {
            assert(n / 10 >= 1);
            assert(n / 10 < 10) by {
                if n / 10 >= 10 {
                    assert(p == decimal(n / 10 / 10).push((48 + (n / 10) % 10) as u8));
                    law_decimal_spells(n / 10 / 10);
                }
            }
            assert(p == seq![(48 + n / 10) as u8]);
        }
    } else {
        assert(decimal(n).drop_last() =~= Seq::<u8>::empty());
        assert(decimal(n).last() == (48 + n) as u8);
        assert(digits_value(decimal(n)) == digits_value(Seq::<u8>::empty()) * 10 + n);
    }
}

/// The decimal digits of `n`.
pub fn decimal_bytes(n: u64) -> (v: Vec<u8>)
    ensures
        v@ == decimal(n as nat),
    decreases n,
{
    if n < 10 {
        let mut v = Vec::new();
        v.push((48 + n) as u8);
        assert(v@ =~= decimal(n as nat));
        v
    } else {
        let mut v = decimal_bytes(n / 10);
        v.push((48 + n % 10) as u8);
        v
    }
}

/// The bytes of `s` as UTF-8, when they are valid UTF-8. Calls `core::str::from_utf8`,
/// which std documents to succeed exactly on valid UTF-8 and to keep the bytes; the claim is
/// that its notion of validity is `valid_utf8`.
#[verifier::external_body]
pub(crate) fn str_from_utf8(bytes: &[u8]) -> (r: Option<&str>)
    ensures
        r is Some <==> vstd::utf8::valid_utf8(bytes@),
        r matches Some(s) ==> s.spec_bytes() == bytes@,
{
    core::str::from_utf8(bytes).ok()
}

/// The encoding of joined characters is the joined encodings.
pub proof fn lemma_encode_concat(a: Seq<char>, b: Seq<char>)
    ensures
        vstd::utf8::encode_utf8(a + b) == vstd::utf8::encode_utf8(a) + vstd::utf8::encode_utf8(b),
    decreases a.len(),
{
    if a.len() > 0 {
        lemma_encode_concat(a.drop_first(), b);
        assert((a + b).drop_first() =~= a.drop_first() + b);
        assert((a + b)[0] == a[0]);
    } else {
        assert(a + b =~= b);
    }
}

/// A part of a string takes no more bytes than the whole.
pub proof fn lemma_encode_subrange_len(s: Seq<char>, i: int, j: int)
    requires
        0 <= i <= j <= s.len(),
    ensures
        vstd::utf8::encode_utf8(s.subrange(i, j)).len() <= vstd::utf8::encode_utf8(s).len(),
{
    let a = s.subrange(0, i);
    let m = s.subrange(i, j);
    let c = s.subrange(j, s.len() as int);
    assert(s =~= a + m + c);
    lemma_encode_concat(a, m);
    lemma_encode_concat(a + m, c);
}

} // verus!

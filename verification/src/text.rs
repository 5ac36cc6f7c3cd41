//! Character-level text operations on `&str`, stated over `s@` (the
//! sequence of characters of the string).
use vstd::prelude::*;
use vstd::string::StringExecFns;

verus! {

/// `suffix` is the tail of `s`.
pub open spec fn seq_ends_with(s: Seq<char>, suffix: Seq<char>) -> bool {
    suffix.len() <= s.len() && s.subrange(s.len() - suffix.len(), s.len() as int) == suffix
}

/// `prefix` is the head of `s`.
pub open spec fn seq_starts_with(s: Seq<char>, prefix: Seq<char>) -> bool {
    prefix.len() <= s.len() && s.subrange(0, prefix.len() as int) == prefix
}

/// Code point of `c` after ASCII lower-casing (`A`..`Z` become `a`..`z`).
pub open spec fn ascii_lower_code(c: char) -> u32 {
    if 'A' <= c && c <= 'Z' {
        (c as u32 + 32) as u32
    } else {
        c as u32
    }
}

/// `s` lower-cased in ASCII equals `lower`.
pub open spec fn ascii_lower_eq(s: Seq<char>, lower: Seq<char>) -> bool {
    s.len() == lower.len() && forall|i: int| 0 <= i < s.len() ==> ascii_lower_code(#[trigger] s[i]) == lower[i] as u32
}

/// Whether `s` ends with `suffix`.
pub fn ends_with(s: &str, suffix: &str) -> (r: bool)
    ensures
        r == seq_ends_with(s@, suffix@),
{
    let n = s.unicode_len();
    let m = suffix.unicode_len();
    if m > n {
        return false;
    }
    let off = n - m;
    let mut i: usize = 0;
    while i < m
        invariant
            n == s@.len(),
            m == suffix@.len(),
            off == n - m,
            i <= m,
            forall|j: int| 0 <= j < i ==> s@[off + j] == suffix@[j],
        decreases m - i,
    {
        if s.get_char(off + i) != suffix.get_char(i) {
            assert(s@.subrange(off as int, n as int)[i as int] != suffix@[i as int]);
            return false;
        }
        i = i + 1;
    }
    assert(s@.subrange(off as int, n as int) =~= suffix@);
    true
}

/// Whether `s` starts with `prefix`.
pub fn starts_with(s: &str, prefix: &str) -> (r: bool)
    ensures
        r == seq_starts_with(s@, prefix@),
{
    let n = s.unicode_len();
    let m = prefix.unicode_len();
    if m > n {
        return false;
    }
    let mut i: usize = 0;
    while i < m
        invariant
            n == s@.len(),
            m == prefix@.len(),
            m <= n,
            i <= m,
            forall|j: int| 0 <= j < i ==> s@[j] == prefix@[j],
        decreases m - i,
    {
        if s.get_char(i) != prefix.get_char(i) {
            assert(s@.subrange(0, m as int)[i as int] != prefix@[i as int]);
            return false;
        }
        i = i + 1;
    }
    assert(s@.subrange(0, m as int) =~= prefix@);
    true
}

/// Whether the two strings hold the same characters.
pub fn str_eq(a: &str, b: &str) -> (r: bool)
    ensures
        r == (a@ == b@),
{
    let n = a.unicode_len();
    let m = b.unicode_len();
    if n != m {
        return false;
    }
    let mut i: usize = 0;
    while i < n
        invariant
            n == a@.len(),
            m == b@.len(),
            n == m,
            i <= n,
            forall|j: int| 0 <= j < i ==> a@[j] == b@[j],
        decreases n - i,
    {
        if a.get_char(i) != b.get_char(i) {
            return false;
        }
        i = i + 1;
    }
    assert(a@ =~= b@);
    true
}

/// Case laws of `ascii_lower_eq` against a lower-case ASCII text `lower`
/// (ASCII characters, none of them a capital `A`..`Z`): a text each of whose
/// characters is the matching character of `lower`, or a capital `A`..`Z`
/// that is that character's capital (32 below it), lower-cases to `lower`;
/// and a text that lower-cases to `lower` is made of exactly such
/// characters.
pub proof fn lemma_ascii_case(s: Seq<char>, lower: Seq<char>)
    requires
        forall|i: int|
            0 <= i < lower.len() ==> (#[trigger] lower[i] as u32) < 128 && !(65 <= lower[i] as u32 <= 90),
    ensures
        ascii_lower_eq(s, lower) <==> (s.len() == lower.len() && forall|i: int|
            0 <= i < s.len() ==> #[trigger] s[i] as u32 == lower[i] as u32 || ('A' <= s[i] && s[i] <= 'Z'
                && s[i] as u32 + 32 == lower[i] as u32)),
{
    if ascii_lower_eq(s, lower) {
        assert forall|i: int| 0 <= i < s.len() implies #[trigger] s[i] as u32 == lower[i] as u32 || ('A'
            <= s[i] && s[i] <= 'Z' && s[i] as u32 + 32 == lower[i] as u32) by {
            assert(ascii_lower_code(s[i]) == lower[i] as u32);
        }
    }
    if s.len() == lower.len() && forall|i: int|
        0 <= i < s.len() ==> #[trigger] s[i] as u32 == lower[i] as u32 || ('A' <= s[i] && s[i] <= 'Z'
            && s[i] as u32 + 32 == lower[i] as u32) {
        assert forall|i: int| 0 <= i < s.len() implies ascii_lower_code(#[trigger] s[i]) == lower[i] as u32 by {
            if 'A' <= s[i] && s[i] <= 'Z' {
                assert(65 <= s[i] as u32 <= 90);
            }
        }
    }
}

/// Whether `s`, lower-cased in ASCII, equals `lower`.
pub fn eq_ascii_lowercase(s: &str, lower: &str) -> (r: bool)
    ensures
        r == ascii_lower_eq(s@, lower@),
{
    let n = s.unicode_len();
    let m = lower.unicode_len();
    if n != m {
        return false;
    }
    let mut i: usize = 0;
    while i < n
        invariant
            n == s@.len(),
            m == lower@.len(),
            n == m,
            i <= n,
            forall|j: int| 0 <= j < i ==> ascii_lower_code(#[trigger] s@[j]) == lower@[j] as u32,
        decreases n - i,
    {
        let c = s.get_char(i);
        let d = lower.get_char(i);
        let code: u32 = if 'A' <= c && c <= 'Z' {
            c as u32 + 32
        } else {
            c as u32
        };
        if code != d as u32 {
            assert(ascii_lower_code(s@[i as int]) != lower@[i as int] as u32);
            return false;
        }
        i = i + 1;
    }
    true
}


/// The character of the decimal digit `d`.
pub open spec fn decimal_digit(d: int) -> char {
    "0123456789"@[d]
}

/// The decimal representation of `n`, without leading zeros.
pub open spec fn decimal_digits(n: nat) -> Seq<char>
    decreases n,
{
    if n < 10 {
        seq![decimal_digit(n as int)]
    } else {
        decimal_digits(n / 10) + seq![decimal_digit((n % 10) as int)]
    }
}

/// Appends the decimal representation of `n` to `out`.
pub fn append_decimal(out: &mut String, n: u32)
    ensures
        final(out)@ == old(out)@ + decimal_digits(n as nat),
    decreases n,
{
    if n >= 10 {
        append_decimal(out, n / 10);
    }
    let d = (n % 10) as usize;
    proof {
        reveal_strlit("0123456789");
    }
    let piece = "0123456789".substring_char(d, d + 1);
    out.append(piece);
    proof {
        assert(piece@ =~= seq![decimal_digit(d as int)]);
        assert(out@ =~= old(out)@ + decimal_digits(n as nat));
    }
}

} // verus!

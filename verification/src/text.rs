//! Verified text helpers: decimal formatting, ASCII case folding and
//! whitespace trimming over character sequences.

use vstd::prelude::*;
use vstd::string::StrSliceExecFns;
use vstd::string::StringExecFns;

verus! {

/// The decimal digit character for a value below ten.
pub open spec fn dec_digit(d: nat) -> char {
    if d == 0 {
        '0'
    } else if d == 1 {
        '1'
    } else if d == 2 {
        '2'
    } else if d == 3 {
        '3'
    } else if d == 4 {
        '4'
    } else if d == 5 {
        '5'
    } else if d == 6 {
        '6'
    } else if d == 7 {
        '7'
    } else if d == 8 {
        '8'
    } else {
        '9'
    }
}

/// The usual decimal rendering of a natural number, without leading zeroes.
pub open spec fn dec_str(n: nat) -> Seq<char>
    decreases n,
{
    if n < 10 {
        seq![dec_digit(n)]
    } else {
        dec_str(n / 10) + seq![dec_digit(n % 10)]
    }
}

/// The decimal rendering of a signed integer.
pub open spec fn i64_dec_str(i: int) -> Seq<char> {
    if i < 0 {
        seq!['-'] + dec_str((-i) as nat)
    } else {
        dec_str(i as nat)
    }
}

/// A two-digit zero-padded field.
pub open spec fn pad2(n: nat) -> Seq<char> {
    seq![dec_digit(n / 10 % 10), dec_digit(n % 10)]
}

/// A three-digit zero-padded field.
pub open spec fn pad3(n: nat) -> Seq<char> {
    seq![dec_digit(n / 100 % 10), dec_digit(n / 10 % 10), dec_digit(n % 10)]
}

/// A four-digit zero-padded field.
pub open spec fn pad4(n: nat) -> Seq<char> {
    seq![dec_digit(n / 1000 % 10), dec_digit(n / 100 % 10), dec_digit(n / 10 % 10), dec_digit(n % 10)]
}

/// Appends the character for one decimal digit.
pub fn push_digit(s: &mut String, d: u64)
    requires
        d < 10,
    ensures
        final(s)@ == old(s)@ + seq![dec_digit(d as nat)],
{
    proof {
        reveal_strlit("0");
        reveal_strlit("1");
        reveal_strlit("2");
        reveal_strlit("3");
        reveal_strlit("4");
        reveal_strlit("5");
        reveal_strlit("6");
        reveal_strlit("7");
        reveal_strlit("8");
        reveal_strlit("9");
    }
    match d {
        0 => s.append("0"),
        1 => s.append("1"),
        2 => s.append("2"),
        3 => s.append("3"),
        4 => s.append("4"),
        5 => s.append("5"),
        6 => s.append("6"),
        7 => s.append("7"),
        8 => s.append("8"),
        _ => s.append("9"),
    }
    proof {
        assert(final(s)@ =~= old(s)@ + seq![dec_digit(d as nat)]);
    }
}

/// Appends the decimal rendering of `n`.
pub fn push_u64_dec(s: &mut String, n: u64)
    ensures
        final(s)@ == old(s)@ + dec_str(n as nat),
    decreases n,
{
    if n >= 10 {
        push_u64_dec(s, n / 10);
    }
    push_digit(s, n % 10);
    proof {
        assert(final(s)@ =~= old(s)@ + dec_str(n as nat));
    }
}

/// Appends the decimal rendering of a signed integer, as `i64` display
/// writes it.
pub fn push_i64_dec(s: &mut String, i: i64)
    ensures
        final(s)@ == old(s)@ + i64_dec_str(i as int),
{
    if i >= 0 {
        push_u64_dec(s, i as u64);
    } else {
        proof {
            reveal_strlit("-");
        }
        s.append("-");
        let mag: u64 = if i == i64::MIN {
            0x8000000000000000
        } else {
            (-i) as u64
        };
        push_u64_dec(s, mag);
        proof {
            assert(final(s)@ =~= old(s)@ + i64_dec_str(i as int));
        }
    }
}

/// Appends a two-digit zero-padded field.
pub fn push_pad2(s: &mut String, n: u64)
    ensures
        final(s)@ == old(s)@ + pad2(n as nat),
{
    push_digit(s, n / 10 % 10);
    push_digit(s, n % 10);
    proof {
        assert(final(s)@ =~= old(s)@ + pad2(n as nat));
    }
}

/// Appends a three-digit zero-padded field.
pub fn push_pad3(s: &mut String, n: u64)
    ensures
        final(s)@ == old(s)@ + pad3(n as nat),
{
    push_digit(s, n / 100 % 10);
    push_digit(s, n / 10 % 10);
    push_digit(s, n % 10);
    proof {
        assert(final(s)@ =~= old(s)@ + pad3(n as nat));
    }
}

/// Appends a four-digit zero-padded field.
pub fn push_pad4(s: &mut String, n: u64)
    ensures
        final(s)@ == old(s)@ + pad4(n as nat),
{
    push_digit(s, n / 1000 % 10);
    push_digit(s, n / 100 % 10);
    push_digit(s, n / 10 % 10);
    push_digit(s, n % 10);
    proof {
        assert(final(s)@ =~= old(s)@ + pad4(n as nat));
    }
}

/// Whether a character has the Unicode white-space property.
pub uninterp spec fn is_unicode_ws(c: char) -> bool;

/// Relies on char::is_whitespace: whether the character has the Unicode
/// white-space property; the result depends on the character alone.
#[verifier::external_body]
pub fn char_is_ws(c: char) -> (r: bool)
    ensures
        r == is_unicode_ws(c),
{
    c.is_whitespace()
}

/// The sequence with leading white space removed.
pub open spec fn trim_start(s: Seq<char>) -> Seq<char>
    decreases s.len(),
{
    if s.len() == 0 {
        s
    } else if is_unicode_ws(s[0]) {
        trim_start(s.drop_first())
    } else {
        s
    }
}

/// The sequence with trailing white space removed.
pub open spec fn trim_end(s: Seq<char>) -> Seq<char>
    decreases s.len(),
{
    if s.len() == 0 {
        s
    } else if is_unicode_ws(s.last()) {
        trim_end(s.drop_last())
    } else {
        s
    }
}

/// The sequence with surrounding white space removed.
pub open spec fn trimmed(s: Seq<char>) -> Seq<char> {
    trim_end(trim_start(s))
}

proof fn lemma_trim_start_skip(s: Seq<char>, i: int)
    requires
        0 <= i <= s.len(),
        forall|k: int| 0 <= k < i ==> is_unicode_ws(s[k]),
        i == s.len() || !is_unicode_ws(s[i]),
    ensures
        trim_start(s) == s.skip(i),
    decreases i,
{
    if i == 0 {
        assert(s.skip(0) =~= s);
    } else {
        lemma_trim_start_skip(s.drop_first(), i - 1);
        assert(s.drop_first().skip(i - 1) =~= s.skip(i));
    }
}

proof fn lemma_trim_end_take(s: Seq<char>, j: int)
    requires
        0 <= j <= s.len(),
        forall|k: int| j <= k < s.len() ==> is_unicode_ws(s[k]),
        j == 0 || !is_unicode_ws(s[j - 1]),
    ensures
        trim_end(s) == s.take(j),
    decreases s.len() - j,
{
    if j == s.len() {
        assert(s.take(j) =~= s);
    } else {
        lemma_trim_end_take(s.drop_last(), j);
        assert(s.drop_last().take(j) =~= s.take(j));
    }
}

/// The character range that remains of `s` after trimming: trimming `s@`
/// yields exactly the characters from `r.0` (inclusive) to `r.1` (exclusive).
pub fn trimmed_bounds(s: &str) -> (r: (usize, usize))
    ensures
        r.0 <= r.1 <= s@.len(),
        trimmed(s@) == s@.subrange(r.0 as int, r.1 as int),
{
    let n = s.unicode_len();
    let mut lo: usize = 0;
    while lo < n && char_is_ws(s.get_char(lo))
        invariant
            0 <= lo <= n == s@.len(),
            forall|k: int| 0 <= k < lo ==> is_unicode_ws(s@[k]),
        decreases n - lo,
    {
        lo = lo + 1;
    }
    proof {
        lemma_trim_start_skip(s@, lo as int);
    }
    let mut hi: usize = n;
    while hi > lo && char_is_ws(s.get_char(hi - 1))
        invariant
            lo <= hi <= n == s@.len(),
            forall|k: int| hi <= k < n ==> is_unicode_ws(s@[k]),
            trim_start(s@) == s@.skip(lo as int),
        decreases hi,
    {
        hi = hi - 1;
    }
    proof {
        let t = s@.skip(lo as int);
        lemma_trim_end_take(t, hi - lo);
        assert(t.take(hi - lo) =~= s@.subrange(lo as int, hi as int));
    }
    (lo, hi)
}

/// Whether the two sequences are equal once surrounding white space is
/// removed from both.
pub open spec fn ws_insensitive_eq(a: Seq<char>, b: Seq<char>) -> bool {
    trimmed(a) == trimmed(b)
}

/// Compares two strings ignoring leading and trailing white space.
pub fn str_eq_ignore_ws(a: &str, b: &str) -> (r: bool)
    ensures
        r == ws_insensitive_eq(a@, b@),
{
    let (alo, ahi) = trimmed_bounds(a);
    let (blo, bhi) = trimmed_bounds(b);
    if ahi - alo != bhi - blo {
        proof {
            assert(trimmed(a@).len() != trimmed(b@).len());
        }
        return false;
    }
    let len = ahi - alo;
    let mut i: usize = 0;
    while i < len
        invariant
            0 <= i <= len,
            alo + len == ahi <= a@.len(),
            blo + len == bhi <= b@.len(),
            trimmed(a@) == a@.subrange(alo as int, ahi as int),
            trimmed(b@) == b@.subrange(blo as int, bhi as int),
            forall|k: int| 0 <= k < i ==> #[trigger] a@[alo + k] == b@[blo + k],
        decreases len - i,
    {
        if a.get_char(alo + i) != b.get_char(blo + i) {
            proof {
                assert(trimmed(a@)[i as int] != trimmed(b@)[i as int]);
            }
            return false;
        }
        i = i + 1;
    }
    proof {
        assert(trimmed(a@).len() == len as int);
        assert(trimmed(b@).len() == len as int);
        assert forall|k: int| 0 <= k < len implies trimmed(a@)[k] == trimmed(b@)[k] by {
            assert(a@[alo + k] == b@[blo + k]);
        }
        assert(trimmed(a@) =~= trimmed(b@));
    }
    true
}

/// Compares two strings character by character.
pub fn str_eq(a: &str, b: &str) -> (r: bool)
    ensures
        r == (a@ == b@),
{
    let alen = a.unicode_len();
    let blen = b.unicode_len();
    if alen != blen {
        return false;
    }
    let mut i: usize = 0;
    while i < alen
        invariant
            0 <= i <= alen == a@.len(),
            alen == blen == b@.len(),
            forall|k: int| 0 <= k < i ==> a@[k] == b@[k],
        decreases alen - i,
    {
        if a.get_char(i) != b.get_char(i) {
            return false;
        }
        i = i + 1;
    }
    proof {
        assert(a@ =~= b@);
    }
    true
}

/// ASCII case folding of a character's code point: the upper-case letters
/// map onto the lower-case ones, every other character stays itself.
pub open spec fn fold32(c: char) -> u32 {
    if 65 <= c as u32 <= 90 {
        (c as u32 + 32) as u32
    } else {
        c as u32
    }
}

/// Whether two sequences agree character by character under ASCII case
/// folding.
pub open spec fn ascii_case_insensitive_eq(a: Seq<char>, b: Seq<char>) -> bool {
    a.len() == b.len() && forall|k: int| 0 <= k < a.len() ==> #[trigger] fold32(a[k]) == fold32(b[k])
}

/// Compares two strings ignoring ASCII case.
pub fn str_eq_ignore_ascii_case(a: &str, b: &str) -> (r: bool)
    ensures
        r == ascii_case_insensitive_eq(a@, b@),
{
    let alen = a.unicode_len();
    let blen = b.unicode_len();
    if alen != blen {
        return false;
    }
    let mut i: usize = 0;
    while i < alen
        invariant
            0 <= i <= alen == a@.len(),
            alen == blen == b@.len(),
            forall|k: int| 0 <= k < i ==> fold32(a@[k]) == fold32(b@[k]),
        decreases alen - i,
    {
        let ca = a.get_char(i) as u32;
        let cb = b.get_char(i) as u32;
        let fa = if 65 <= ca && ca <= 90 {
            ca + 32
        } else {
            ca
        };
        let fb = if 65 <= cb && cb <= 90 {
            cb + 32
        } else {
            cb
        };
        if fa != fb {
            proof {
                assert(fold32(a@[i as int]) != fold32(b@[i as int]));
            }
            return false;
        }
        i = i + 1;
    }
    true
}

} // verus!

//! Character-level text utilities: conversions between `&str`, `Vec<char>`
//! and `String`, substring search, and UTF-8 byte accounting for the rolling
//! history buffer.

use vstd::prelude::*;

verus! {

// --- conversions -------------------------------------------------------

/// Relies on `String::push`: appends one character at the end of the string.
#[verifier::external_body]
fn push_char(s: &mut String, c: char)
    ensures
        final(s)@ == old(s)@.push(c),
{
    s.push(c);
}

/// The characters of a string slice, in order.
pub fn to_chars(s: &str) -> (v: Vec<char>)
    ensures
        v@ == s@,
{
    let n = s.unicode_len();
    let mut v: Vec<char> = Vec::new();
    let mut i: usize = 0;
    while i < n
        invariant
            i <= n,
            n == s@.len(),
            v@ == s@.subrange(0, i as int),
        decreases n - i,
    {
        let c = s.get_char(i);
        v.push(c);
        i = i + 1;
        proof {
            assert(v@ =~= s@.subrange(0, i as int));
        }
    }
    proof {
        assert(v@ =~= s@);
    }
    v
}

/// A `String` holding exactly the given characters.
pub fn from_chars(v: &Vec<char>) -> (s: String)
    ensures
        s@ == v@,
{
    let mut s = String::new();
    let mut i: usize = 0;
    while i < v.len()
        invariant
            i <= v@.len(),
            s@ == v@.subrange(0, i as int),
        decreases v@.len() - i,
    {
        push_char(&mut s, v[i]);
        i = i + 1;
        proof {
            assert(s@ =~= v@.subrange(0, i as int));
        }
    }
    proof {
        assert(s@ =~= v@);
    }
    s
}

/// Character-for-character equality of two string slices.
pub fn str_eq(a: &str, b: &str) -> (r: bool)
    ensures
        r == (a@ == b@),
{
    let na = a.unicode_len();
    let nb = b.unicode_len();
    if na != nb {
        return false;
    }
    let mut i: usize = 0;
    while i < na
        invariant
            i <= na,
            na == a@.len(),
            na == b@.len(),
            forall|k: int| 0 <= k < i ==> a@[k] == b@[k],
        decreases na - i,
    {
        if a.get_char(i) != b.get_char(i) {
            return false;
        }
        i = i + 1;
    }
    proof {
        assert(a@ =~= b@);
    }
    true
}

// --- substring search --------------------------------------------------

/// The pattern `p` occurs in `t` starting at position `i`.
pub open spec fn spec_match_at(t: Seq<char>, p: Seq<char>, i: int) -> bool {
    0 <= i && i + p.len() <= t.len() && t.subrange(i, i + p.len() as int) == p
}

/// The pattern `p` occurs somewhere in `t`.
pub open spec fn spec_contains(t: Seq<char>, p: Seq<char>) -> bool {
    exists|i: int| spec_match_at(t, p, i)
}

/// The text `t` begins with the pattern `p`.
pub open spec fn spec_starts_with(t: Seq<char>, p: Seq<char>) -> bool {
    spec_match_at(t, p, 0)
}

/// Whether `p` occurs in `t` starting exactly at `i`.
fn match_at(t: &Vec<char>, p: &Vec<char>, i: usize) -> (r: bool)
    requires
        i + p@.len() <= t@.len(),
    ensures
        r == spec_match_at(t@, p@, i as int),
{
    let tn = t.len();
    let pn = p.len();
    let mut j: usize = 0;
    while j < pn
        invariant
            j <= pn,
            tn == t@.len(),
            pn == p@.len(),
            i + pn <= tn,
            forall|k: int| 0 <= k < j ==> t@[i + k] == p@[k],
        decreases pn - j,
    {
        if t[i + j] != p[j] {
            proof {
                assert(t@.subrange(i as int, i + p@.len() as int)[j as int] != p@[j as int]);
            }
            return false;
        }
        j = j + 1;
    }
    proof {
        assert(t@.subrange(i as int, i + p@.len() as int) =~= p@);
    }
    true
}

/// Substring search over character vectors.
pub fn contains_chars(t: &Vec<char>, p: &Vec<char>) -> (r: bool)
    ensures
        r == spec_contains(t@, p@),
{
    if p.len() > t.len() {
        proof {
            assert(forall|i: int| !spec_match_at(t@, p@, i));
        }
        return false;
    }
    if p.len() == 0 {
        proof {
            assert(t@.subrange(0, 0) =~= p@);
            assert(spec_match_at(t@, p@, 0));
        }
        return true;
    }
    let tn = t.len();
    let pn = p.len();
    let last = tn - pn;
    let mut i: usize = 0;
    while i <= last
        invariant
            tn == t@.len(),
            pn == p@.len(),
            1 <= pn <= tn,
            last == tn - pn,
            i <= last + 1,
            forall|k: int| 0 <= k < i ==> !spec_match_at(t@, p@, k),
        decreases last + 1 - i,
    {
        if match_at(t, p, i) {
            return true;
        }
        i = i + 1;
    }
    proof {
        assert(forall|k: int| spec_match_at(t@, p@, k) ==> 0 <= k <= last);
    }
    false
}

/// Substring search over string slices.
pub fn str_contains(t: &str, p: &str) -> (r: bool)
    ensures
        r == spec_contains(t@, p@),
{
    let tc = to_chars(t);
    let pc = to_chars(p);
    contains_chars(&tc, &pc)
}

/// Prefix test over string slices.
pub fn str_starts_with(t: &str, p: &str) -> (r: bool)
    ensures
        r == spec_starts_with(t@, p@),
{
    let tc = to_chars(t);
    let pc = to_chars(p);
    if pc.len() > tc.len() {
        return false;
    }
    match_at(&tc, &pc, 0)
}

/// The characters of `h` between `a` and `b`.
pub fn sub_chars(h: &Vec<char>, a: usize, b: usize) -> (r: Vec<char>)
    requires
        a <= b <= h@.len(),
    ensures
        r@ == h@.subrange(a as int, b as int),
{
    let mut r: Vec<char> = Vec::new();
    let mut i: usize = a;
    proof {
        assert(r@ =~= h@.subrange(a as int, a as int));
    }
    while i < b
        invariant
            a <= i <= b <= h@.len(),
            r@ == h@.subrange(a as int, i as int),
        decreases b - i,
    {
        r.push(h[i]);
        i = i + 1;
        proof {
            assert(r@ =~= h@.subrange(a as int, i as int));
        }
    }
    r
}

/// Character-for-character equality of two character vectors.
pub fn chars_eq(a: &Vec<char>, b: &Vec<char>) -> (r: bool)
    ensures
        r == (a@ == b@),
{
    if a.len() != b.len() {
        return false;
    }
    let mut i: usize = 0;
    while i < a.len()
        invariant
            i <= a@.len(),
            a@.len() == b@.len(),
            forall|k: int| 0 <= k < i ==> a@[k] == b@[k],
        decreases a@.len() - i,
    {
        if a[i] != b[i] {
            return false;
        }
        i = i + 1;
    }
    proof {
        assert(a@ =~= b@);
    }
    true
}

// --- character classes and case ----------------------------------------

/// Decimal digit.
pub open spec fn spec_is_digit(c: char) -> bool {
    48 <= c as u32 && c as u32 <= 57
}

/// Whether `c` is a decimal digit.
pub fn is_digit(c: char) -> (r: bool)
    ensures
        r == spec_is_digit(c),
{
    let v = c as u32;
    48 <= v && v <= 57
}

/// The code point of `c` with an ASCII capital folded to its small letter.
pub open spec fn spec_lower_u32(c: char) -> u32 {
    if 65 <= c as u32 && c as u32 <= 90 {
        (c as u32 + 32) as u32
    } else {
        c as u32
    }
}

/// Equality up to ASCII case.
pub open spec fn spec_eq_ignore_ascii_case(a: Seq<char>, b: Seq<char>) -> bool {
    a.len() == b.len() && forall|i: int| 0 <= i < a.len() ==> spec_lower_u32(a[i]) == spec_lower_u32(b[i])
}

/// Equality up to ASCII case over character vectors.
pub fn eq_ignore_ascii_case(a: &Vec<char>, b: &Vec<char>) -> (r: bool)
    ensures
        r == spec_eq_ignore_ascii_case(a@, b@),
{
    if a.len() != b.len() {
        return false;
    }
    let mut i: usize = 0;
    while i < a.len()
        invariant
            i <= a@.len(),
            a@.len() == b@.len(),
            forall|k: int| 0 <= k < i ==> spec_lower_u32(a@[k]) == spec_lower_u32(b@[k]),
        decreases a@.len() - i,
    {
        let mut ca = a[i] as u32;
        let mut cb = b[i] as u32;
        if 65 <= ca && ca <= 90 {
            ca = ca + 32;
        }
        if 65 <= cb && cb <= 90 {
            cb = cb + 32;
        }
        if ca != cb {
            return false;
        }
        i = i + 1;
    }
    true
}

// --- UTF-8 byte accounting ---------------------------------------------

/// The number of bytes the UTF-8 encoding of `c` takes.
pub open spec fn char_utf8_len(c: char) -> int {
    if (c as u32) < 0x80 {
        1
    } else if (c as u32) < 0x800 {
        2
    } else if (c as u32) < 0x10000 {
        3
    } else {
        4
    }
}

/// The number of bytes the UTF-8 encoding of `s` takes.
pub open spec fn utf8_len(s: Seq<char>) -> int
    decreases s.len(),
{
    if s.len() == 0 {
        0
    } else {
        char_utf8_len(s[0]) + utf8_len(s.drop_first())
    }
}

/// Every character takes one to four bytes.
pub proof fn lemma_utf8_len_bounds(s: Seq<char>)
    ensures
        s.len() <= utf8_len(s) <= 4 * s.len(),
    decreases s.len(),
{
    if s.len() > 0 {
        lemma_utf8_len_bounds(s.drop_first());
    }
}

/// Byte length distributes over concatenation.
pub proof fn lemma_utf8_len_concat(a: Seq<char>, b: Seq<char>)
    ensures
        utf8_len(a + b) == utf8_len(a) + utf8_len(b),
    decreases a.len(),
{
    if a.len() == 0 {
        assert(a + b =~= b);
    } else {
        assert((a + b).drop_first() =~= a.drop_first() + b);
        lemma_utf8_len_concat(a.drop_first(), b);
    }
}

/// Dropping a leading character removes exactly its bytes.
pub proof fn lemma_utf8_len_drop_first(s: Seq<char>)
    requires
        s.len() > 0,
    ensures
        utf8_len(s.drop_first()) == utf8_len(s) - char_utf8_len(s[0]),
{
}

/// The byte width of one character, computed executably.
pub fn char_width(c: char) -> (w: usize)
    ensures
        w as int == char_utf8_len(c),
        1 <= w <= 4,
{
    let v = c as u32;
    if v < 0x80 {
        1
    } else if v < 0x800 {
        2
    } else if v < 0x10000 {
        3
    } else {
        4
    }
}

} // verus!

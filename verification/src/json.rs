//! A small JSON codec for the wire frames this protocol actually carries:
//! string literals with their escapes, unsigned integers, and flat objects
//! and arrays of simple values. The spec functions are the grammar; each
//! executable function returns exactly what its spec function says.

use vstd::prelude::*;

use crate::text::{chars_eq, is_digit, spec_is_digit};

verus! {

// --- characters -----------------------------------------------------------

/// JSON whitespace.
pub open spec fn spec_is_ws(c: char) -> bool {
    c == ' ' || c == '\t' || c == '\n' || c == '\r'
}

/// Whether `c` is JSON whitespace.
pub fn is_ws(c: char) -> (r: bool)
    ensures
        r == spec_is_ws(c),
{
    c == ' ' || c == '\t' || c == '\n' || c == '\r'
}

/// Value of a hexadecimal digit, or -1.
pub open spec fn spec_hex_val(c: char) -> int {
    let v = c as u32;
    if 48 <= v && v <= 57 {
        v - 48
    } else if 97 <= v && v <= 102 {
        v - 87
    } else if 65 <= v && v <= 70 {
        v - 55
    } else {
        -1
    }
}

/// Value of a hexadecimal digit, or `None`.
pub fn hex_val(c: char) -> (r: Option<u32>)
    ensures
        r matches Some(v) ==> v as int == spec_hex_val(c) && v < 16,
        r is None ==> spec_hex_val(c) == -1,
{
    let v = c as u32;
    if 48 <= v && v <= 57 {
        Some(v - 48)
    } else if 97 <= v && v <= 102 {
        Some(v - 87)
    } else if 65 <= v && v <= 70 {
        Some(v - 55)
    } else {
        None
    }
}

/// Value of four hexadecimal digits at `i`, or -1.
pub open spec fn spec_hex4(s: Seq<char>, i: int) -> int {
    if 0 <= i && i + 4 <= s.len() && spec_hex_val(s[i]) >= 0 && spec_hex_val(s[i + 1]) >= 0
        && spec_hex_val(s[i + 2]) >= 0 && spec_hex_val(s[i + 3]) >= 0 {
        spec_hex_val(s[i]) * 4096 + spec_hex_val(s[i + 1]) * 256 + spec_hex_val(s[i + 2]) * 16
            + spec_hex_val(s[i + 3])
    } else {
        -1
    }
}

/// Value of four hexadecimal digits at `i`, or `None`.
pub fn hex4(s: &Vec<char>, i: usize) -> (r: Option<u32>)
    requires
        i <= s@.len(),
    ensures
        r matches Some(v) ==> v as int == spec_hex4(s@, i as int) && v < 0x10000,
        r is None ==> spec_hex4(s@, i as int) == -1,
{
    if s.len() - i < 4 {
        return None;
    }
    let a = match hex_val(s[i]) {
        Some(v) => v,
        None => {
            return None;
        },
    };
    let b = match hex_val(s[i + 1]) {
        Some(v) => v,
        None => {
            return None;
        },
    };
    let c = match hex_val(s[i + 2]) {
        Some(v) => v,
        None => {
            return None;
        },
    };
    let d = match hex_val(s[i + 3]) {
        Some(v) => v,
        None => {
            return None;
        },
    };
    Some(a * 4096 + b * 256 + c * 16 + d)
}

// --- whitespace -------------------------------------------------------------

/// First non-whitespace position at or after `i`.
pub open spec fn ws_end(s: Seq<char>, i: int) -> int
    decreases s.len() - i,
    when 0 <= i <= s.len()
{
    if i >= s.len() {
        i
    } else if spec_is_ws(s[i]) {
        ws_end(s, i + 1)
    } else {
        i
    }
}

/// The whitespace run's end lies between `i` and the end of the text.
pub proof fn lemma_ws_end_bounds(s: Seq<char>, i: int)
    requires
        0 <= i <= s.len(),
    ensures
        i <= ws_end(s, i) <= s.len(),
    decreases s.len() - i,
{
    if i < s.len() && spec_is_ws(s[i]) {
        lemma_ws_end_bounds(s, i + 1);
    }
}

/// Exec mirror of `ws_end`.
pub fn skip_ws(s: &Vec<char>, i: usize) -> (r: usize)
    requires
        i <= s@.len(),
    ensures
        r as int == ws_end(s@, i as int),
        i <= r <= s@.len(),
    decreases s@.len() - i,
{
    if i < s.len() && is_ws(s[i]) {
        skip_ws(s, i + 1)
    } else {
        i
    }
}

// --- string literals ---------------------------------------------------------

/// Decoded body of a JSON string literal whose opening quote stands just
/// before `i`: the decoded characters and the position after the closing
/// quote. Escapes follow JSON: the two-character ones, and `\u` with four
/// hex digits, paired into one character for surrogate pairs.
pub open spec fn spec_str_body(s: Seq<char>, i: int) -> Option<(Seq<char>, int)>
    decreases s.len() - i,
    when 0 <= i
{
    if i >= s.len() {
        None
    } else if s[i] == '"' {
        Some((Seq::<char>::empty(), i + 1))
    } else if s[i] == '\\' {
        if i + 1 >= s.len() {
            None
        } else {
            let e = s[i + 1];
            if e == 'u' {
                let v = spec_hex4(s, i + 2);
                if v < 0 {
                    None
                } else if 0xD800 <= v && v < 0xDC00 {
                    if i + 8 <= s.len() && s[i + 6] == '\\' && s[i + 7] == 'u' && 0xDC00
                        <= spec_hex4(s, i + 8) && spec_hex4(s, i + 8) < 0xE000 {
                        let w = spec_hex4(s, i + 8);
                        let cp = 0x10000 + (v - 0xD800) * 0x400 + (w - 0xDC00);
                        match spec_str_body(s, i + 12) {
                            Some(t) => Some((seq![cp as char] + t.0, t.1)),
                            None => None,
                        }
                    } else {
                        None
                    }
                } else if 0xDC00 <= v && v < 0xE000 {
                    None
                } else {
                    match spec_str_body(s, i + 6) {
                        Some(t) => Some((seq![v as char] + t.0, t.1)),
                        None => None,
                    }
                }
            } else if e == '"' || e == '\\' || e == '/' || e == 'b' || e == 'f' || e == 'n' || e
                == 'r' || e == 't' {
                let c = if e == '"' {
                    '"'
                } else if e == '\\' {
                    '\\'
                } else if e == '/' {
                    '/'
                } else if e == 'b' {
                    '\u{8}'
                } else if e == 'f' {
                    '\u{c}'
                } else if e == 'n' {
                    '\n'
                } else if e == 'r' {
                    '\r'
                } else {
                    '\t'
                };
                match spec_str_body(s, i + 2) {
                    Some(t) => Some((seq![c] + t.0, t.1)),
                    None => None,
                }
            } else {
                None
            }
        }
    } else if (s[i] as u32) < 0x20 {
        None
    } else {
        match spec_str_body(s, i + 1) {
            Some(t) => Some((seq![s[i]] + t.0, t.1)),
            None => None,
        }
    }
}

/// The end of a decoded string literal lies past its start, within the text.
pub proof fn lemma_str_body_bounds(s: Seq<char>, i: int)
    requires
        0 <= i,
    ensures
        spec_str_body(s, i) matches Some(t) ==> i < t.1 <= s.len(),
    decreases s.len() - i,
{
    if i < s.len() && spec_str_body(s, i) is Some {
        if s[i] == '"' {
        } else if s[i] == '\\' {
            let e = s[i + 1];
            if e == 'u' {
                let v = spec_hex4(s, i + 2);
                if 0xD800 <= v && v < 0xDC00 {
                    lemma_str_body_bounds(s, i + 12);
                } else {
                    lemma_str_body_bounds(s, i + 6);
                }
            } else {
                lemma_str_body_bounds(s, i + 2);
            }
        } else {
            lemma_str_body_bounds(s, i + 1);
        }
    }
}

/// Relies on `char::from_u32`: `Some` exactly on Unicode scalar values, and
/// the returned character has the given code point.
#[verifier::external_body]
pub(crate) fn char_from_u32(v: u32) -> (r: Option<char>)
    ensures
        r is Some <==> (v < 0xD800 || (0xE000 <= v && v <= 0x10FFFF)),
        r matches Some(c) ==> c == v as char,
{
    char::from_u32(v)
}

/// Exec mirror of `spec_str_body`: decode a string literal's body.
pub fn str_body(s: &Vec<char>, i: usize) -> (r: Option<(Vec<char>, usize)>)
    requires
        i <= s@.len(),
    ensures
        r matches Some(t) ==> spec_str_body(s@, i as int) == Some((t.0@, t.1 as int)) && i < t.1
            <= s@.len(),
        r is None ==> spec_str_body(s@, i as int) is None,
    decreases s@.len() - i,
{
    if i >= s.len() {
        return None;
    }
    let c0 = s[i];
    if c0 == '"' {
        return Some((Vec::new(), i + 1));
    }
    if c0 == '\\' {
        if s.len() - i < 2 {
            return None;
        }
        let e = s[i + 1];
        if e == 'u' {
            let v = match hex4(s, i + 2) {
                Some(v) => v,
                None => {
                    return None;
                },
            };
            if 0xD800 <= v && v < 0xDC00 {
                if s.len() - i >= 8 && s[i + 6] == '\\' && s[i + 7] == 'u' {
                    let w = match hex4(s, i + 8) {
                        Some(w) => w,
                        None => {
                            return None;
                        },
                    };
                    if 0xDC00 <= w && w < 0xE000 {
                        let cp: u32 = 0x10000 + (v - 0xD800) * 0x400 + (w - 0xDC00);
                        let c = match char_from_u32(cp) {
                            Some(c) => c,
                            None => {
                                proof {
                                    assert(cp <= 0x10FFFF);
                                }
                                return None;
                            },
                        };
                        match str_body(s, i + 12) {
                            Some(t) => {
                                let mut out = t.0;
                                out.insert(0, c);
                                proof {
                                    assert(out@ =~= seq![cp as char] + out@.drop_first());
                                }
                                return Some((out, t.1));
                            },
                            None => {
                                return None;
                            },
                        }
                    } else {
                        return None;
                    }
                } else {
                    return None;
                }
            } else if 0xDC00 <= v && v < 0xE000 {
                return None;
            } else {
                let c = match char_from_u32(v) {
                    Some(c) => c,
                    None => {
                        proof {
                            assert(v < 0xD800 || (0xE000 <= v && v < 0x10000));
                        }
                        return None;
                    },
                };
                match str_body(s, i + 6) {
                    Some(t) => {
                        let mut out = t.0;
                        out.insert(0, c);
                        proof {
                            assert(out@ =~= seq![v as char] + out@.drop_first());
                        }
                        return Some((out, t.1));
                    },
                    None => {
                        return None;
                    },
                }
            }
        }
        let c: char = if e == '"' {
            '"'
        } else if e == '\\' {
            '\\'
        } else if e == '/' {
            '/'
        } else if e == 'b' {
            '\u{8}'
        } else if e == 'f' {
            '\u{c}'
        } else if e == 'n' {
            '\n'
        } else if e == 'r' {
            '\r'
        } else if e == 't' {
            '\t'
        } else {
            return None;
        };
        match str_body(s, i + 2) {
            Some(t) => {
                let mut out = t.0;
                out.insert(0, c);
                proof {
                    assert(out@ =~= seq![c] + out@.drop_first());
                }
                return Some((out, t.1));
            },
            None => {
                return None;
            },
        }
    }
    if (c0 as u32) < 0x20 {
        return None;
    }
    match str_body(s, i + 1) {
        Some(t) => {
            let mut out = t.0;
            out.insert(0, c0);
            proof {
                assert(out@ =~= seq![c0] + out@.drop_first());
            }
            Some((out, t.1))
        },
        None => None,
    }
}

// --- escaping -----------------------------------------------------------------

/// The escape of one character inside a JSON string literal.
pub open spec fn spec_escape_char(c: char) -> Seq<char> {
    if c == '"' {
        seq!['\\', '"']
    } else if c == '\\' {
        seq!['\\', '\\']
    } else if c == '\u{8}' {
        seq!['\\', 'b']
    } else if c == '\t' {
        seq!['\\', 't']
    } else if c == '\n' {
        seq!['\\', 'n']
    } else if c == '\u{c}' {
        seq!['\\', 'f']
    } else if c == '\r' {
        seq!['\\', 'r']
    } else if (c as u32) < 0x20 {
        let v = c as u32;
        seq![
            '\\',
            'u',
            '0',
            '0',
            spec_hex_digit(v as int / 16),
            spec_hex_digit(v as int % 16),
        ]
    } else {
        seq![c]
    }
}

/// The lower-case hexadecimal digit of a value below sixteen.
pub open spec fn spec_hex_digit(v: int) -> char {
    if v < 10 {
        (48 + v) as char
    } else {
        (87 + v) as char
    }
}

/// The body of the JSON string literal encoding `s`.
pub open spec fn spec_escape(s: Seq<char>) -> Seq<char>
    decreases s.len(),
{
    if s.len() == 0 {
        Seq::<char>::empty()
    } else {
        spec_escape_char(s[0]) + spec_escape(s.drop_first())
    }
}

/// Escaping distributes over concatenation.
pub proof fn lemma_escape_concat(a: Seq<char>, b: Seq<char>)
    ensures
        spec_escape(a + b) == spec_escape(a) + spec_escape(b),
    decreases a.len(),
{
    if a.len() == 0 {
        assert(a + b =~= b);
        assert(spec_escape(a) + spec_escape(b) =~= spec_escape(b));
    } else {
        assert((a + b).drop_first() =~= a.drop_first() + b);
        lemma_escape_concat(a.drop_first(), b);
        assert(spec_escape_char(a[0]) + (spec_escape(a.drop_first()) + spec_escape(b)) =~= (
        spec_escape_char(a[0]) + spec_escape(a.drop_first())) + spec_escape(b));
    }
}

/// The lower-case hexadecimal digit of a value below sixteen.
fn hex_digit(v: u32) -> (r: char)
    requires
        v < 16,
    ensures
        r == spec_hex_digit(v as int),
{
    if v < 10 {
        ((48 + v) as u8) as char
    } else {
        ((87 + v) as u8) as char
    }
}

/// Escape `s` for the inside of a JSON string literal.
pub fn escape_chars(s: &Vec<char>) -> (r: Vec<char>)
    ensures
        r@ == spec_escape(s@),
{
    let mut out: Vec<char> = Vec::new();
    let n = s.len();
    let mut i: usize = 0;
    proof {
        assert(s@.subrange(0, 0) =~= Seq::<char>::empty());
    }
    while i < n
        invariant
            i <= n,
            n == s@.len(),
            out@ == spec_escape(s@.subrange(0, i as int)),
        decreases n - i,
    {
        let c = s[i];
        if c == '"' {
            out.push('\\');
            out.push('"');
        } else if c == '\\' {
            out.push('\\');
            out.push('\\');
        } else if c == '\u{8}' {
            out.push('\\');
            out.push('b');
        } else if c == '\t' {
            out.push('\\');
            out.push('t');
        } else if c == '\n' {
            out.push('\\');
            out.push('n');
        } else if c == '\u{c}' {
            out.push('\\');
            out.push('f');
        } else if c == '\r' {
            out.push('\\');
            out.push('r');
        } else if (c as u32) < 0x20 {
            let v = c as u32;
            out.push('\\');
            out.push('u');
            out.push('0');
            out.push('0');
            out.push(hex_digit(v / 16));
            out.push(hex_digit(v % 16));
        } else {
            out.push(c);
        }
        proof {
            let pre = s@.subrange(0, i as int);
            assert(s@.subrange(0, i + 1) =~= pre + seq![s@[i as int]]);
            lemma_escape_concat(pre, seq![s@[i as int]]);
            assert(spec_escape(seq![s@[i as int]]) =~= spec_escape_char(s@[i as int])) by {
                reveal_with_fuel(spec_escape, 2);
                assert(seq![s@[i as int]].drop_first() =~= Seq::<char>::empty());
            }
            assert(out@ =~= spec_escape(pre) + spec_escape_char(s@[i as int]));
        }
        i = i + 1;
    }
    proof {
        assert(s@.subrange(0, n as int) =~= s@);
    }
    out
}

// --- unsigned numbers -----------------------------------------------------------

/// End of the digit run starting at `i`.
pub open spec fn digits_end(s: Seq<char>, i: int) -> int
    decreases s.len() - i,
    when 0 <= i <= s.len()
{
    if i >= s.len() {
        i
    } else if spec_is_digit(s[i]) {
        digits_end(s, i + 1)
    } else {
        i
    }
}

/// The digit run's end lies between `i` and the end of the text.
pub proof fn lemma_digits_end_bounds(s: Seq<char>, i: int)
    requires
        0 <= i <= s.len(),
    ensures
        i <= digits_end(s, i) <= s.len(),
        forall|k: int| i <= k < digits_end(s, i) ==> spec_is_digit(s[k]),
    decreases s.len() - i,
{
    if i < s.len() && spec_is_digit(s[i]) {
        lemma_digits_end_bounds(s, i + 1);
    }
}

/// Decimal value of a digit string.
pub open spec fn dec_val(digits: Seq<char>) -> int
    decreases digits.len(),
{
    if digits.len() == 0 {
        0
    } else {
        dec_val(digits.drop_last()) * 10 + (digits.last() as u32 - 48)
    }
}

/// A digit string's value only grows as the string extends.
pub proof fn lemma_dec_val_grows(digits: Seq<char>, k: int)
    requires
        0 <= k <= digits.len(),
        forall|j: int| 0 <= j < digits.len() ==> spec_is_digit(digits[j]),
    ensures
        dec_val(digits.subrange(0, k)) <= dec_val(digits),
        dec_val(digits) >= 0,
    decreases digits.len(),
{
    if digits.len() == 0 {
        assert(digits.subrange(0, 0) =~= digits);
    } else {
        let head = digits.drop_last();
        assert(forall|j: int| 0 <= j < head.len() ==> head[j] == digits[j]);
        lemma_dec_val_grows(head, if k <= head.len() {
            k
        } else {
            head.len() as int
        });
        if k <= head.len() {
            assert(digits.subrange(0, k) =~= head.subrange(0, k));
        } else {
            assert(digits.subrange(0, k) =~= digits);
        }
    }
}

// --- skipping values ---------------------------------------------------------

/// A character a number token may hold.
pub open spec fn spec_is_num_char(c: char) -> bool {
    spec_is_digit(c) || c == '-' || c == '+' || c == '.' || c == 'e' || c == 'E'
}

/// Whether `c` may stand in a number token.
pub fn is_num_char(c: char) -> (r: bool)
    ensures
        r == spec_is_num_char(c),
{
    is_digit(c) || c == '-' || c == '+' || c == '.' || c == 'e' || c == 'E'
}

/// End of the number-character run starting at `i`.
pub open spec fn num_end(s: Seq<char>, i: int) -> int
    decreases s.len() - i,
    when 0 <= i <= s.len()
{
    if i >= s.len() {
        i
    } else if spec_is_num_char(s[i]) {
        num_end(s, i + 1)
    } else {
        i
    }
}

/// The number run's end lies between `i` and the end of the text.
pub proof fn lemma_num_end_bounds(s: Seq<char>, i: int)
    requires
        0 <= i <= s.len(),
    ensures
        i <= num_end(s, i) <= s.len(),
    decreases s.len() - i,
{
    if i < s.len() && spec_is_num_char(s[i]) {
        lemma_num_end_bounds(s, i + 1);
    }
}

/// Exec mirror of `num_end`.
pub(crate) fn skip_num_chars(s: &Vec<char>, i: usize) -> (r: usize)
    requires
        i <= s@.len(),
    ensures
        r as int == num_end(s@, i as int),
        i <= r <= s@.len(),
    decreases s@.len() - i,
{
    if i < s.len() && is_num_char(s[i]) {
        skip_num_chars(s, i + 1)
    } else {
        i
    }
}

/// Position after the simple value starting at `i` (a string, a number
/// token, `true`, `false` or `null`), or -1 when none starts here.
pub open spec fn skip_simple(s: Seq<char>, i: int) -> int {
    if !(0 <= i < s.len()) {
        -1
    } else if s[i] == '"' {
        match spec_str_body(s, i + 1) {
            Some(t) => t.1,
            None => -1,
        }
    } else if s[i] == 't' {
        if i + 4 <= s.len() && s[i + 1] == 'r' && s[i + 2] == 'u' && s[i + 3] == 'e' {
            i + 4
        } else {
            -1
        }
    } else if s[i] == 'f' {
        if i + 5 <= s.len() && s[i + 1] == 'a' && s[i + 2] == 'l' && s[i + 3] == 's' && s[i + 4]
            == 'e' {
            i + 5
        } else {
            -1
        }
    } else if s[i] == 'n' {
        if i + 4 <= s.len() && s[i + 1] == 'u' && s[i + 2] == 'l' && s[i + 3] == 'l' {
            i + 4
        } else {
            -1
        }
    } else if spec_is_num_char(s[i]) {
        num_end(s, i)
    } else {
        -1
    }
}

/// A skipped simple value ends past its start, within the text.
pub proof fn lemma_skip_simple_bounds(s: Seq<char>, i: int)
    ensures
        skip_simple(s, i) == -1 || i < skip_simple(s, i) <= s.len(),
{
    if 0 <= i < s.len() {
        if s[i] == '"' {
            lemma_str_body_bounds(s, i + 1);
        } else if spec_is_num_char(s[i]) && !(s[i] == 't' || s[i] == 'f' || s[i] == 'n') {
            lemma_num_end_bounds(s, i + 1);
        }
    }
}

/// Exec mirror of `skip_simple`.
pub(crate) fn skip_simple_value(s: &Vec<char>, i: usize) -> (r: Option<usize>)
    requires
        i <= s@.len(),
    ensures
        r matches Some(j) ==> j as int == skip_simple(s@, i as int) && i < j <= s@.len(),
        r is None ==> skip_simple(s@, i as int) == -1,
{
    proof {
        lemma_skip_simple_bounds(s@, i as int);
    }
    if i >= s.len() {
        return None;
    }
    let c = s[i];
    let rem = s.len() - i;
    if c == '"' {
        match str_body(s, i + 1) {
            Some(t) => Some(t.1),
            None => None,
        }
    } else if c == 't' {
        if rem >= 4 && s[i + 1] == 'r' && s[i + 2] == 'u' && s[i + 3] == 'e' {
            Some(i + 4)
        } else {
            None
        }
    } else if c == 'f' {
        if rem >= 5 && s[i + 1] == 'a' && s[i + 2] == 'l' && s[i + 3] == 's' && s[i + 4] == 'e' {
            Some(i + 5)
        } else {
            None
        }
    } else if c == 'n' {
        if rem >= 4 && s[i + 1] == 'u' && s[i + 2] == 'l' && s[i + 3] == 'l' {
            Some(i + 4)
        } else {
            None
        }
    } else if is_num_char(c) {
        Some(skip_num_chars(s, i))
    } else {
        None
    }
}

/// Position after the array items starting at `i` (just inside `[`, past
/// leading whitespace), the items simple values, or -1.
pub open spec fn skip_array_items(s: Seq<char>, i: int) -> int
    decreases s.len() - i,
    when 0 <= i
{
    if i >= s.len() {
        -1
    } else if s[i] == ']' {
        i + 1
    } else {
        let j = skip_simple(s, i);
        if j < 0 {
            -1
        } else {
            proof {
                lemma_skip_simple_bounds(s, i);
            }
            let k = ws_end(s, j);
            proof {
                lemma_ws_end_bounds(s, j);
            }
            if k < s.len() && s[k] == ',' {
                let m = ws_end(s, k + 1);
                proof {
                    lemma_ws_end_bounds(s, k + 1);
                }
                skip_array_items(s, m)
            } else if k < s.len() && s[k] == ']' {
                k + 1
            } else {
                -1
            }
        }
    }
}

/// A skipped array ends past its start, within the text.
pub proof fn lemma_skip_array_items_bounds(s: Seq<char>, i: int)
    requires
        0 <= i,
    ensures
        skip_array_items(s, i) == -1 || i < skip_array_items(s, i) <= s.len(),
    decreases s.len() - i,
{
    if i < s.len() && s[i] != ']' {
        let j = skip_simple(s, i);
        if j >= 0 {
            lemma_skip_simple_bounds(s, i);
            let k = ws_end(s, j);
            lemma_ws_end_bounds(s, j);
            if k < s.len() && s[k] == ',' {
                lemma_ws_end_bounds(s, k + 1);
                lemma_skip_array_items_bounds(s, ws_end(s, k + 1));
            }
        }
    }
}

/// Exec mirror of `skip_array_items`.
pub(crate) fn skip_array_rest(s: &Vec<char>, i: usize) -> (r: Option<usize>)
    requires
        i <= s@.len(),
    ensures
        r matches Some(j) ==> j as int == skip_array_items(s@, i as int) && i < j <= s@.len(),
        r is None ==> skip_array_items(s@, i as int) == -1,
    decreases s@.len() - i,
{
    if i >= s.len() {
        return None;
    }
    if s[i] == ']' {
        return Some(i + 1);
    }
    let j = match skip_simple_value(s, i) {
        Some(j) => j,
        None => {
            return None;
        },
    };
    let k = skip_ws(s, j);
    if k < s.len() && s[k] == ',' {
        let m = skip_ws(s, k + 1);
        skip_array_rest(s, m)
    } else if k < s.len() && s[k] == ']' {
        Some(k + 1)
    } else {
        None
    }
}

/// Position after the value starting at `i`: a simple value, or an array of
/// simple values; or -1.
pub open spec fn skip_value(s: Seq<char>, i: int) -> int {
    if !(0 <= i < s.len()) {
        -1
    } else if s[i] == '[' {
        skip_array_items(s, ws_end(s, i + 1))
    } else {
        skip_simple(s, i)
    }
}

/// A skipped value ends past its start, within the text.
pub proof fn lemma_skip_value_bounds(s: Seq<char>, i: int)
    ensures
        skip_value(s, i) == -1 || i < skip_value(s, i) <= s.len(),
{
    if 0 <= i < s.len() {
        if s[i] == '[' {
            lemma_ws_end_bounds(s, i + 1);
            lemma_skip_array_items_bounds(s, ws_end(s, i + 1));
        } else {
            lemma_skip_simple_bounds(s, i);
        }
    }
}

/// Exec mirror of `skip_value`.
pub(crate) fn skip_any_value(s: &Vec<char>, i: usize) -> (r: Option<usize>)
    requires
        i <= s@.len(),
    ensures
        r matches Some(j) ==> j as int == skip_value(s@, i as int) && i < j <= s@.len(),
        r is None ==> skip_value(s@, i as int) == -1,
{
    if i >= s.len() {
        return None;
    }
    if s[i] == '[' {
        let m = skip_ws(s, i + 1);
        skip_array_rest(s, m)
    } else {
        skip_simple_value(s, i)
    }
}

// --- flat objects ------------------------------------------------------------

/// Position after the object members starting at `i` (just inside `{`, past
/// leading whitespace), or -1 when they are not well formed.
pub open spec fn obj_end(s: Seq<char>, i: int) -> int
    decreases s.len() - i,
    when 0 <= i
{
    if i >= s.len() {
        -1
    } else if s[i] == '}' {
        i + 1
    } else if s[i] != '"' {
        -1
    } else {
        match spec_str_body(s, i + 1) {
            None => -1,
            Some(t) => {
                proof {
                    lemma_str_body_bounds(s, i + 1);
                }
                let c = ws_end(s, t.1);
                proof {
                    lemma_ws_end_bounds(s, t.1);
                }
                if c < s.len() && s[c] == ':' {
                    let v = ws_end(s, c + 1);
                    proof {
                        lemma_ws_end_bounds(s, c + 1);
                    }
                    let e = skip_value(s, v);
                    if e < 0 {
                        -1
                    } else {
                        proof {
                            lemma_skip_value_bounds(s, v);
                        }
                        let c2 = ws_end(s, e);
                        proof {
                            lemma_ws_end_bounds(s, e);
                        }
                        if c2 < s.len() && s[c2] == ',' {
                            let m = ws_end(s, c2 + 1);
                            proof {
                                lemma_ws_end_bounds(s, c2 + 1);
                            }
                            obj_end(s, m)
                        } else if c2 < s.len() && s[c2] == '}' {
                            c2 + 1
                        } else {
                            -1
                        }
                    }
                } else {
                    -1
                }
            },
        }
    }
}

/// Exec mirror of `obj_end`.
pub(crate) fn obj_rest(s: &Vec<char>, i: usize) -> (r: Option<usize>)
    requires
        i <= s@.len(),
    ensures
        r matches Some(j) ==> j as int == obj_end(s@, i as int) && j <= s@.len(),
        r is None ==> obj_end(s@, i as int) == -1,
    decreases s@.len() - i,
{
    if i >= s.len() {
        return None;
    }
    if s[i] == '}' {
        return Some(i + 1);
    }
    if s[i] != '"' {
        return None;
    }
    let t = match str_body(s, i + 1) {
        Some(t) => t,
        None => {
            return None;
        },
    };
    let c = skip_ws(s, t.1);
    if !(c < s.len() && s[c] == ':') {
        return None;
    }
    let v = skip_ws(s, c + 1);
    let e = match skip_any_value(s, v) {
        Some(e) => e,
        None => {
            return None;
        },
    };
    let c2 = skip_ws(s, e);
    if c2 < s.len() && s[c2] == ',' {
        let m = skip_ws(s, c2 + 1);
        obj_rest(s, m)
    } else if c2 < s.len() && s[c2] == '}' {
        Some(c2 + 1)
    } else {
        None
    }
}

/// The string value of the first member under `key` among the members
/// starting at `i`, scanning member by member; `None` when the scan runs
/// out, fails, or the key's value is not a string.
pub open spec fn obj_find_string(s: Seq<char>, i: int, key: Seq<char>) -> Option<Seq<char>>
    decreases s.len() - i,
    when 0 <= i
{
    if i >= s.len() || s[i] != '"' {
        None
    } else {
        match spec_str_body(s, i + 1) {
            None => None,
            Some(t) => {
                proof {
                    lemma_str_body_bounds(s, i + 1);
                }
                let c = ws_end(s, t.1);
                proof {
                    lemma_ws_end_bounds(s, t.1);
                }
                if c < s.len() && s[c] == ':' {
                    let v = ws_end(s, c + 1);
                    proof {
                        lemma_ws_end_bounds(s, c + 1);
                    }
                    if t.0 == key {
                        if v < s.len() && s[v] == '"' {
                            match spec_str_body(s, v + 1) {
                                Some(val) => Some(val.0),
                                None => None,
                            }
                        } else {
                            None
                        }
                    } else {
                        let e = skip_value(s, v);
                        if e < 0 {
                            None
                        } else {
                            proof {
                                lemma_skip_value_bounds(s, v);
                            }
                            let c2 = ws_end(s, e);
                            proof {
                                lemma_ws_end_bounds(s, e);
                            }
                            if c2 < s.len() && s[c2] == ',' {
                                let m = ws_end(s, c2 + 1);
                                proof {
                                    lemma_ws_end_bounds(s, c2 + 1);
                                }
                                obj_find_string(s, m, key)
                            } else {
                                None
                            }
                        }
                    }
                } else {
                    None
                }
            },
        }
    }
}

/// Exec mirror of `obj_find_string`.
pub(crate) fn obj_string_value(s: &Vec<char>, i: usize, key: &Vec<char>) -> (r: Option<Vec<char>>)
    requires
        i <= s@.len(),
    ensures
        r matches Some(val) ==> obj_find_string(s@, i as int, key@) == Some(val@),
        r is None ==> obj_find_string(s@, i as int, key@) is None,
    decreases s@.len() - i,
{
    if i >= s.len() || s[i] != '"' {
        return None;
    }
    let t = match str_body(s, i + 1) {
        Some(t) => t,
        None => {
            return None;
        },
    };
    let c = skip_ws(s, t.1);
    if !(c < s.len() && s[c] == ':') {
        return None;
    }
    let v = skip_ws(s, c + 1);
    let keys_equal = chars_eq(&t.0, key);
    if keys_equal {
        if v < s.len() && s[v] == '"' {
            match str_body(s, v + 1) {
                Some(val) => Some(val.0),
                None => None,
            }
        } else {
            None
        }
    } else {
        let e = match skip_any_value(s, v) {
            Some(e) => e,
            None => {
                return None;
            },
        };
        let c2 = skip_ws(s, e);
        if c2 < s.len() && s[c2] == ',' {
            let m = skip_ws(s, c2 + 1);
            obj_string_value(s, m, key)
        } else {
            None
        }
    }
}

/// The unsigned integer value of the first member under `key` among the
/// members starting at `i`: defined when that member's value is a plain
/// digit run that fits an unsigned 64-bit integer.
pub open spec fn obj_find_u64(s: Seq<char>, i: int, key: Seq<char>) -> Option<int>
    decreases s.len() - i,
    when 0 <= i
{
    if i >= s.len() || s[i] != '"' {
        None
    } else {
        match spec_str_body(s, i + 1) {
            None => None,
            Some(t) => {
                proof {
                    lemma_str_body_bounds(s, i + 1);
                }
                let c = ws_end(s, t.1);
                proof {
                    lemma_ws_end_bounds(s, t.1);
                }
                if c < s.len() && s[c] == ':' {
                    let v = ws_end(s, c + 1);
                    proof {
                        lemma_ws_end_bounds(s, c + 1);
                    }
                    if t.0 == key {
                        let j = digits_end(s, v);
                        proof {
                            lemma_digits_end_bounds(s, v);
                        }
                        if j > v && (j >= s.len() || !spec_is_num_char(s[j])) && dec_val(
                            s.subrange(v, j),
                        ) <= u64::MAX {
                            Some(dec_val(s.subrange(v, j)))
                        } else {
                            None
                        }
                    } else {
                        let e = skip_value(s, v);
                        if e < 0 {
                            None
                        } else {
                            proof {
                                lemma_skip_value_bounds(s, v);
                            }
                            let c2 = ws_end(s, e);
                            proof {
                                lemma_ws_end_bounds(s, e);
                            }
                            if c2 < s.len() && s[c2] == ',' {
                                let m = ws_end(s, c2 + 1);
                                proof {
                                    lemma_ws_end_bounds(s, c2 + 1);
                                }
                                obj_find_u64(s, m, key)
                            } else {
                                None
                            }
                        }
                    }
                } else {
                    None
                }
            },
        }
    }
}

/// The value of the digit run `s[a..b)`, when it fits an unsigned 64-bit
/// integer.
pub(crate) fn parse_u64_digits(s: &Vec<char>, a: usize, b: usize) -> (r: Option<u64>)
    requires
        a <= b <= s@.len(),
        forall|k: int| a <= k < b ==> spec_is_digit(s@[k]),
    ensures
        r matches Some(v) ==> v as int == dec_val(s@.subrange(a as int, b as int)) && dec_val(
            s@.subrange(a as int, b as int),
        ) <= u64::MAX,
        r is None ==> dec_val(s@.subrange(a as int, b as int)) > u64::MAX,
{
    let ghost whole = s@.subrange(a as int, b as int);
    let mut v: u64 = 0;
    let mut i: usize = a;
    proof {
        assert(s@.subrange(a as int, a as int) =~= whole.subrange(0, 0));
        assert(dec_val(whole.subrange(0, 0)) == 0);
    }
    while i < b
        invariant
            a <= i <= b <= s@.len(),
            whole == s@.subrange(a as int, b as int),
            forall|k: int| a <= k < b ==> spec_is_digit(s@[k]),
            v as int == dec_val(whole.subrange(0, i - a)),
        decreases b - i,
    {
        let d = (s[i] as u32) - 48;
        proof {
            assert(spec_is_digit(s@[i as int]));
            assert(whole.subrange(0, i + 1 - a).drop_last() =~= whole.subrange(0, i - a));
            assert(whole.subrange(0, i + 1 - a).last() == s@[i as int]);
        }
        let step = match v.checked_mul(10) {
            Some(x) => x.checked_add(d as u64),
            None => None,
        };
        match step {
            Some(x) => {
                v = x;
            },
            None => {
                proof {
                    assert(dec_val(whole.subrange(0, i + 1 - a)) > u64::MAX);
                    assert forall|k: int| 0 <= k < whole.len() implies spec_is_digit(
                        whole[k],
                    ) by {}
                    lemma_dec_val_grows(whole, i + 1 - a);
                    assert(whole.subrange(0, whole.len() as int) =~= whole);
                }
                return None;
            },
        }
        i = i + 1;
    }
    proof {
        assert(whole.subrange(0, b - a) =~= whole);
    }
    Some(v)
}

/// Exec mirror of `obj_find_u64`.
pub(crate) fn obj_u64_value(s: &Vec<char>, i: usize, key: &Vec<char>) -> (r: Option<u64>)
    requires
        i <= s@.len(),
    ensures
        r matches Some(val) ==> obj_find_u64(s@, i as int, key@) == Some(val as int),
        r is None ==> obj_find_u64(s@, i as int, key@) is None,
    decreases s@.len() - i,
{
    if i >= s.len() || s[i] != '"' {
        return None;
    }
    let t = match str_body(s, i + 1) {
        Some(t) => t,
        None => {
            return None;
        },
    };
    let c = skip_ws(s, t.1);
    if !(c < s.len() && s[c] == ':') {
        return None;
    }
    let v = skip_ws(s, c + 1);
    let keys_equal = chars_eq(&t.0, key);
    if keys_equal {
        let j = digits_end_exec(s, v);
        proof {
            lemma_digits_end_bounds(s@, v as int);
        }
        if j > v && (j >= s.len() || !is_num_char(s[j])) {
            parse_u64_digits(s, v, j)
        } else {
            None
        }
    } else {
        let e = match skip_any_value(s, v) {
            Some(e) => e,
            None => {
                return None;
            },
        };
        let c2 = skip_ws(s, e);
        if c2 < s.len() && s[c2] == ',' {
            let m = skip_ws(s, c2 + 1);
            obj_u64_value(s, m, key)
        } else {
            None
        }
    }
}

/// Exec mirror of `digits_end`.
pub(crate) fn digits_end_exec(s: &Vec<char>, i: usize) -> (r: usize)
    requires
        i <= s@.len(),
    ensures
        r as int == digits_end(s@, i as int),
        i <= r <= s@.len(),
    decreases s@.len() - i,
{
    if i < s.len() && is_digit(s[i]) {
        digits_end_exec(s, i + 1)
    } else {
        i
    }
}


} // verus!

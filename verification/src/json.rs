//! JSON record parsing: one flat object per input line.
//!
//! A line parses when it holds a JSON object whose values are numbers or
//! strings, coerced by the integer-then-float rule; numeric-looking strings
//! count as numbers. Nested values, booleans, nulls, duplicate keys and
//! malformed input are parse errors. Anything after the object's closing
//! brace is not examined.

use vstd::prelude::*;

use crate::record::{ParseError, RawRecord, RawValue, SpecRawValue};
use crate::token::{is_digit, parse_number_token, spec_classify};
use crate::util::{push_char, str_eq};
use vstd::utf8::is_scalar;

verus! {

/// True if `c` is JSON whitespace.
pub open spec fn is_ws(c: char) -> bool {
    c == ' ' || c == '\t' || c == '\n' || c == '\r'
}

/// The first index at or after `i` holding no whitespace.
pub open spec fn ws_end(s: Seq<char>, i: int) -> int
    decreases s.len() - i,
{
    if 0 <= i < s.len() && is_ws(s[i]) {
        ws_end(s, i + 1)
    } else {
        i
    }
}

/// Whitespace skipping stays within bounds.
pub proof fn lemma_ws_end(s: Seq<char>, i: int)
    requires
        0 <= i <= s.len(),
    ensures
        i <= ws_end(s, i) <= s.len(),
    decreases s.len() - i,
{
    if i < s.len() && is_ws(s[i]) {
        lemma_ws_end(s, i + 1);
    }
}

/// The first index at or after `i` holding no decimal digit.
pub open spec fn digits_end(s: Seq<char>, i: int) -> int
    decreases s.len() - i,
{
    if 0 <= i < s.len() && is_digit(s[i]) {
        digits_end(s, i + 1)
    } else {
        i
    }
}

/// Digit scanning stays within bounds.
pub proof fn lemma_digits_end(s: Seq<char>, i: int)
    requires
        0 <= i <= s.len(),
    ensures
        i <= digits_end(s, i) <= s.len(),
    decreases s.len() - i,
{
    if i < s.len() && is_digit(s[i]) {
        lemma_digits_end(s, i + 1);
    }
}

/// True if `c` is a hexadecimal digit.
pub open spec fn is_hex_digit(c: char) -> bool {
    ||| 48 <= c as u32 <= 57
    ||| 97 <= c as u32 <= 102
    ||| 65 <= c as u32 <= 70
}

/// The value of the hexadecimal digit `c`.
pub open spec fn hex_val(c: char) -> int {
    if 48 <= c as u32 <= 57 {
        c as u32 - 48
    } else if 97 <= c as u32 <= 102 {
        c as u32 - 87
    } else {
        c as u32 - 55
    }
}

/// True if four hexadecimal digits stand at `i`.
pub open spec fn hex4_ok(s: Seq<char>, i: int) -> bool {
    &&& 0 <= i && i + 4 <= s.len()
    &&& is_hex_digit(s[i])
    &&& is_hex_digit(s[i + 1])
    &&& is_hex_digit(s[i + 2])
    &&& is_hex_digit(s[i + 3])
}

/// The value of the four hexadecimal digits at `i`.
pub open spec fn hex4_val(s: Seq<char>, i: int) -> int {
    hex_val(s[i]) * 4096 + hex_val(s[i + 1]) * 256 + hex_val(s[i + 2]) * 16 + hex_val(s[i + 3])
}

/// Scan the remainder of a JSON string starting inside the quotes at `i`,
/// with `acc` the characters decoded so far: the decoded text and the index
/// after the closing quote, or `None` on malformed input. Escapes are
/// decoded; surrogate pairs combine; lone surrogates, bare control
/// characters and truncated input are rejected.
pub open spec fn spec_string_chars(s: Seq<char>, i: int, acc: Seq<char>) -> Option<
    (Seq<char>, int),
>
    decreases s.len() - i,
{
    if i < 0 || i >= s.len() {
        None
    } else {
        let c = s[i];
        if c == '"' {
            Some((acc, i + 1))
        } else if c == '\\' {
            if i + 1 >= s.len() {
                None
            } else {
                let e = s[i + 1];
                if e == '"' || e == '\\' || e == '/' {
                    spec_string_chars(s, i + 2, acc.push(e))
                } else if e == 'b' {
                    spec_string_chars(s, i + 2, acc.push('\u{0008}'))
                } else if e == 'f' {
                    spec_string_chars(s, i + 2, acc.push('\u{000C}'))
                } else if e == 'n' {
                    spec_string_chars(s, i + 2, acc.push('\n'))
                } else if e == 'r' {
                    spec_string_chars(s, i + 2, acc.push('\r'))
                } else if e == 't' {
                    spec_string_chars(s, i + 2, acc.push('\t'))
                } else if e == 'u' {
                    if !hex4_ok(s, i + 2) {
                        None
                    } else {
                        let cp = hex4_val(s, i + 2);
                        if 0xD800 <= cp <= 0xDBFF {
                            if i + 12 <= s.len() && s[i + 6] == '\\' && s[i + 7] == 'u' && hex4_ok(
                                s,
                                i + 8,
                            ) {
                                let lo = hex4_val(s, i + 8);
                                if 0xDC00 <= lo <= 0xDFFF {
                                    let combined = 0x10000 + (cp - 0xD800) * 0x400 + (lo - 0xDC00);
                                    spec_string_chars(s, i + 12, acc.push((combined as u32) as char))
                                } else {
                                    None
                                }
                            } else {
                                None
                            }
                        } else if 0xDC00 <= cp <= 0xDFFF {
                            None
                        } else {
                            spec_string_chars(s, i + 6, acc.push((cp as u32) as char))
                        }
                    }
                } else {
                    None
                }
            }
        } else if (c as u32) < 0x20 {
            None
        } else {
            spec_string_chars(s, i + 1, acc.push(c))
        }
    }
}

/// Parse the JSON string whose opening quote stands at `i`: the decoded
/// text and the index after the closing quote.
pub open spec fn spec_string_at(s: Seq<char>, i: int) -> Option<(Seq<char>, int)> {
    if 0 <= i < s.len() && s[i] == '"' {
        spec_string_chars(s, i + 1, Seq::empty())
    } else {
        None
    }
}

/// String scanning advances and stays within bounds.
pub proof fn lemma_string_chars(s: Seq<char>, i: int, acc: Seq<char>)
    requires
        0 <= i <= s.len(),
    ensures
        spec_string_chars(s, i, acc) matches Some(r) ==> i < r.1 <= s.len(),
    decreases s.len() - i,
{
    if i < s.len() {
        let c = s[i];
        if c == '\\' && i + 1 < s.len() {
            let e = s[i + 1];
            if e == 'u' && hex4_ok(s, i + 2) {
                let cp = hex4_val(s, i + 2);
                if 0xD800 <= cp <= 0xDBFF {
                    if i + 12 <= s.len() && s[i + 6] == '\\' && s[i + 7] == 'u' && hex4_ok(
                        s,
                        i + 8,
                    ) {
                        lemma_string_chars(
                            s,
                            i + 12,
                            acc.push(((0x10000 + (cp - 0xD800) * 0x400 + (hex4_val(s, i + 8)
                                - 0xDC00)) as u32) as char),
                        );
                    }
                } else {
                    lemma_string_chars(s, i + 6, acc.push((cp as u32) as char));
                }
            } else {
                lemma_string_chars(s, i + 2, acc.push(e));
                lemma_string_chars(s, i + 2, acc.push('\u{0008}'));
                lemma_string_chars(s, i + 2, acc.push('\u{000C}'));
                lemma_string_chars(s, i + 2, acc.push('\n'));
                lemma_string_chars(s, i + 2, acc.push('\r'));
                lemma_string_chars(s, i + 2, acc.push('\t'));
            }
        } else if c != '\\' {
            lemma_string_chars(s, i + 1, acc.push(c));
        }
    }
}

/// A parsed string starts at its opening quote and ends past its closing
/// quote, within bounds.
pub proof fn lemma_string_at(s: Seq<char>, i: int)
    requires
        0 <= i <= s.len(),
    ensures
        spec_string_at(s, i) matches Some(r) ==> i + 2 <= r.1 <= s.len(),
{
    if 0 <= i < s.len() && s[i] == '"' {
        lemma_string_chars(s, i + 1, Seq::empty());
    }
}

/// The end of the optional fraction part standing at `i`, and whether one
/// stood there; `None` on a bare decimal point.
pub open spec fn spec_frac_end(s: Seq<char>, i: int) -> Option<(int, bool)> {
    if 0 <= i < s.len() && s[i] == '.' {
        let k = digits_end(s, i + 1);
        if k == i + 1 {
            None
        } else {
            Some((k, true))
        }
    } else {
        Some((i, false))
    }
}

/// The end of the optional exponent part standing at `i`; `None` on an
/// exponent marker without digits.
pub open spec fn spec_exp_end(s: Seq<char>, i: int) -> Option<int> {
    if 0 <= i < s.len() && (s[i] == 'e' || s[i] == 'E') {
        let j = if i + 1 < s.len() && (s[i + 1] == '+' || s[i + 1] == '-') {
            i + 2
        } else {
            i + 1
        };
        let k = digits_end(s, j);
        if k == j {
            None
        } else {
            Some(k)
        }
    } else {
        Some(i)
    }
}

/// Parse the JSON number starting at `i`: an integer literal in range
/// becomes `Int`; any other number token stays pending for the caller's
/// float interpretation.
pub open spec fn spec_number_at(s: Seq<char>, i: int) -> Option<(SpecRawValue, int)> {
    let istart = if 0 <= i < s.len() && s[i] == '-' {
        i + 1
    } else {
        i
    };
    if 0 <= istart < s.len() && is_digit(s[istart]) {
        let int_end = if s[istart] == '0' {
            istart + 1
        } else {
            digits_end(s, istart)
        };
        match spec_frac_end(s, int_end) {
            None => None,
            Some((fe, _had_frac)) => match spec_exp_end(s, fe) {
                None => None,
                Some(e) => {
                    let tok = s.subrange(i, e);
                    if e == int_end {
                        Some((spec_classify(tok), e))
                    } else {
                        Some((SpecRawValue::Pending(tok), e))
                    }
                },
            },
        }
    } else {
        None
    }
}

/// A parsed number advances and stays within bounds.
pub proof fn lemma_number_at(s: Seq<char>, i: int)
    requires
        0 <= i <= s.len(),
    ensures
        spec_number_at(s, i) matches Some(r) ==> i < r.1 <= s.len(),
{
    let istart = if i < s.len() && s[i] == '-' {
        i + 1
    } else {
        i
    };
    if istart < s.len() && is_digit(s[istart]) {
        let int_end = if s[istart] == '0' {
            istart + 1
        } else {
            digits_end(s, istart)
        };
        lemma_digits_end(s, istart);
        assert(istart < int_end <= s.len()) by {
            if s[istart] != '0' {
                assert(digits_end(s, istart) == digits_end(s, istart + 1));
                lemma_digits_end(s, istart + 1);
            }
        }
        if int_end < s.len() && s[int_end] == '.' {
            lemma_digits_end(s, int_end + 1);
        }
        match spec_frac_end(s, int_end) {
            None => {},
            Some((fe, _)) => {
                if fe < s.len() && (s[fe] == 'e' || s[fe] == 'E') {
                    let j = if fe + 1 < s.len() && (s[fe + 1] == '+' || s[fe + 1] == '-') {
                        fe + 2
                    } else {
                        fe + 1
                    };
                    lemma_digits_end(s, if j <= s.len() {
                        j
                    } else {
                        s.len() as int
                    });
                }
            },
        }
    }
}

/// Parse the JSON value standing at `i`: a number, or a string coerced by
/// the integer-then-float rule. Anything else — an object, array, boolean
/// or null — is rejected.
pub open spec fn spec_value_at(s: Seq<char>, i: int) -> Option<(SpecRawValue, int)> {
    if 0 <= i < s.len() && s[i] == '"' {
        match spec_string_at(s, i) {
            None => None,
            Some((text, j)) => Some((spec_classify(text), j)),
        }
    } else if 0 <= i < s.len() && (s[i] == '-' || is_digit(s[i])) {
        spec_number_at(s, i)
    } else {
        None
    }
}

/// A parsed value advances and stays within bounds.
pub proof fn lemma_value_at(s: Seq<char>, i: int)
    requires
        0 <= i <= s.len(),
    ensures
        spec_value_at(s, i) matches Some(r) ==> i < r.1 <= s.len(),
{
    lemma_string_at(s, i);
    lemma_number_at(s, i);
}

/// True if `fields` holds a field named `key`.
pub open spec fn spec_fields_contain(
    fields: Seq<(Seq<char>, SpecRawValue)>,
    key: Seq<char>,
) -> bool {
    exists|k: int| 0 <= k < fields.len() && fields[k].0 == key
}

/// Parse the members of a JSON object from `i` (just after the opening
/// brace or a comma), accumulating onto `acc`: the fields and the index
/// after the closing brace. A duplicate field name is rejected.
pub open spec fn spec_members(
    s: Seq<char>,
    i: int,
    acc: Seq<(Seq<char>, SpecRawValue)>,
) -> Option<(Seq<(Seq<char>, SpecRawValue)>, int)>
    decreases s.len() - i when 0 <= i <= s.len() via spec_members_decreases
{
    let k0 = ws_end(s, i);
    match spec_string_at(s, k0) {
        None => None,
        Some((key, k1)) => {
            if spec_fields_contain(acc, key) {
                None
            } else {
                let k2 = ws_end(s, k1);
                if k2 < s.len() && s[k2] == ':' {
                    match spec_value_at(s, ws_end(s, k2 + 1)) {
                        None => None,
                        Some((value, k3)) => {
                            let k4 = ws_end(s, k3);
                            if k4 < s.len() && s[k4] == ',' {
                                spec_members(s, k4 + 1, acc.push((key, value)))
                            } else if k4 < s.len() && s[k4] == '}' {
                                Some((acc.push((key, value)), k4 + 1))
                            } else {
                                None
                            }
                        },
                    }
                } else {
                    None
                }
            }
        },
    }
}

#[via_fn]
proof fn spec_members_decreases(s: Seq<char>, i: int, acc: Seq<(Seq<char>, SpecRawValue)>) {
    lemma_ws_end(s, i);
    let k0 = ws_end(s, i);
    lemma_string_at(s, k0);
    match spec_string_at(s, k0) {
        None => {},
        Some((key, k1)) => {
            lemma_ws_end(s, k1);
            let k2 = ws_end(s, k1);
            if k2 < s.len() && s[k2] == ':' {
                lemma_ws_end(s, k2 + 1);
                lemma_value_at(s, ws_end(s, k2 + 1));
                match spec_value_at(s, ws_end(s, k2 + 1)) {
                    None => {},
                    Some((value, k3)) => {
                        lemma_ws_end(s, k3);
                    },
                }
            }
        },
    }
}

/// Parse one line as a flat JSON object of coerced numeric values: the
/// fields in input order, or `None` on any malformed, non-flat or
/// non-numeric input. Input after the object's closing brace is not
/// examined.
pub open spec fn spec_json_record(s: Seq<char>) -> Option<Seq<(Seq<char>, SpecRawValue)>> {
    let i0 = ws_end(s, 0);
    if i0 < s.len() && s[i0] == '{' {
        let i1 = ws_end(s, i0 + 1);
        if i1 < s.len() && s[i1] == '}' {
            Some(Seq::empty())
        } else {
            match spec_members(s, i0 + 1, Seq::empty()) {
                None => None,
                Some((fields, _)) => Some(fields),
            }
        }
    } else {
        None
    }
}

/// The specification-level shape of a list of scanned fields.
spec fn fields_view(fields: Seq<(String, RawValue)>) -> Seq<(Seq<char>, SpecRawValue)> {
    fields.map(|k: int, kv: (String, RawValue)| (kv.0@, kv.1.view_raw()))
}

/// Relies on `char::from_u32` of std: returns `Some` exactly for Unicode
/// scalar values — at most `char::MAX` and not a surrogate — and the
/// returned character carries exactly the given code point.
#[verifier::external_body]
fn char_from_u32(x: u32) -> (r: Option<char>)
    ensures
        r == if is_scalar(x) {
            Some(x as char)
        } else {
            None::<char>
        },
{
    char::from_u32(x)
}

/// Skip whitespace from `i`.
fn skip_ws(s: &str, i: usize) -> (j: usize)
    requires
        i <= s@.len(),
    ensures
        i <= j <= s@.len(),
        j == ws_end(s@, i as int),
{
    let n = s.unicode_len();
    let mut j: usize = i;
    loop
        invariant
            n == s@.len(),
            i <= j <= n,
            ws_end(s@, i as int) == ws_end(s@, j as int),
        ensures
            i <= j <= n,
            j == ws_end(s@, i as int),
        decreases n - j,
    {
        if j >= n {
            break ;
        }
        let c = s.get_char(j);
        if !(c == ' ' || c == '\t' || c == '\n' || c == '\r') {
            break ;
        }
        j += 1;
    }
    j
}

/// Scan decimal digits from `i`.
fn scan_digits(s: &str, i: usize) -> (j: usize)
    requires
        i <= s@.len(),
    ensures
        i <= j <= s@.len(),
        j == digits_end(s@, i as int),
{
    let n = s.unicode_len();
    let mut j: usize = i;
    loop
        invariant
            n == s@.len(),
            i <= j <= n,
            digits_end(s@, i as int) == digits_end(s@, j as int),
        ensures
            i <= j <= n,
            j == digits_end(s@, i as int),
        decreases n - j,
    {
        if j >= n {
            break ;
        }
        let c = s.get_char(j);
        let code = c as u32;
        if !(48 <= code && code <= 57) {
            break ;
        }
        j += 1;
    }
    j
}

/// The value of one hexadecimal digit.
fn hex_digit(c: char) -> (r: Option<u32>)
    ensures
        r == if is_hex_digit(c) {
            Some(hex_val(c) as u32)
        } else {
            None::<u32>
        },
{
    let code = c as u32;
    if 48 <= code && code <= 57 {
        Some(code - 48)
    } else if 97 <= code && code <= 102 {
        Some(code - 87)
    } else if 65 <= code && code <= 70 {
        Some(code - 55)
    } else {
        None
    }
}

/// Read four hexadecimal digits at `i`.
fn parse_hex4(s: &str, i: usize) -> (r: Option<u32>)
    requires
        i <= s@.len(),
    ensures
        r == if hex4_ok(s@, i as int) {
            Some(hex4_val(s@, i as int) as u32)
        } else {
            None::<u32>
        },
{
    let n = s.unicode_len();
    if n - i < 4 {
        return None;
    }
    let d0 = match hex_digit(s.get_char(i)) {
        Some(v) => v,
        None => {
            return None;
        },
    };
    let d1 = match hex_digit(s.get_char(i + 1)) {
        Some(v) => v,
        None => {
            return None;
        },
    };
    let d2 = match hex_digit(s.get_char(i + 2)) {
        Some(v) => v,
        None => {
            return None;
        },
    };
    let d3 = match hex_digit(s.get_char(i + 3)) {
        Some(v) => v,
        None => {
            return None;
        },
    };
    Some(d0 * 4096 + d1 * 256 + d2 * 16 + d3)
}

/// Parse the JSON string whose opening quote stands at `i`, decoding
/// escapes.
fn parse_string(s: &str, i: usize) -> (r: Option<(String, usize)>)
    requires
        i <= s@.len(),
    ensures
        match r {
            Some(t) => {
                &&& spec_string_at(s@, i as int) == Some((t.0@, t.1 as int))
                &&& i < t.1 <= s@.len()
            },
            None => spec_string_at(s@, i as int) is None,
        },
{
    let n = s.unicode_len();
    if i >= n || s.get_char(i) != '"' {
        return None;
    }
    let mut acc = String::new();
    let mut cur: usize = i + 1;
    loop
        invariant
            n == s@.len(),
            i < n,
            s@[i as int] == '"',
            i + 1 <= cur <= n,
            spec_string_chars(s@, i as int + 1, Seq::empty()) == spec_string_chars(
                s@,
                cur as int,
                acc@,
            ),
        decreases n - cur,
    {
        if cur >= n {
            return None;
        }
        let c = s.get_char(cur);
        if c == '"' {
            return Some((acc, cur + 1));
        } else if c == '\\' {
            if n - cur < 2 {
                return None;
            }
            let e = s.get_char(cur + 1);
            if e == '"' || e == '\\' || e == '/' {
                push_char(&mut acc, e);
                cur += 2;
            } else if e == 'b' {
                push_char(&mut acc, '\u{0008}');
                cur += 2;
            } else if e == 'f' {
                push_char(&mut acc, '\u{000C}');
                cur += 2;
            } else if e == 'n' {
                push_char(&mut acc, '\n');
                cur += 2;
            } else if e == 'r' {
                push_char(&mut acc, '\r');
                cur += 2;
            } else if e == 't' {
                push_char(&mut acc, '\t');
                cur += 2;
            } else if e == 'u' {
                let cp = match parse_hex4(s, cur + 2) {
                    Some(v) => v,
                    None => {
                        return None;
                    },
                };
                if 0xD800 <= cp && cp <= 0xDBFF {
                    if n - cur < 12 || s.get_char(cur + 6) != '\\' || s.get_char(cur + 7) != 'u' {
                        return None;
                    }
                    let lo = match parse_hex4(s, cur + 8) {
                        Some(v) => v,
                        None => {
                            return None;
                        },
                    };
                    if !(0xDC00 <= lo && lo <= 0xDFFF) {
                        return None;
                    }
                    let combined: u32 = 0x10000 + (cp - 0xD800) * 0x400 + (lo - 0xDC00);
                    proof {
                        assert(is_scalar(combined));
                    }
                    let ch = match char_from_u32(combined) {
                        Some(v) => v,
                        None => {
                            proof {
                                assert(false);
                            }
                            unreached()
                        },
                    };
                    push_char(&mut acc, ch);
                    cur += 12;
                } else if 0xDC00 <= cp && cp <= 0xDFFF {
                    return None;
                } else {
                    proof {
                        assert(is_scalar(cp));
                    }
                    let ch = match char_from_u32(cp) {
                        Some(v) => v,
                        None => {
                            proof {
                                assert(false);
                            }
                            unreached()
                        },
                    };
                    push_char(&mut acc, ch);
                    cur += 6;
                }
            } else {
                return None;
            }
        } else if (c as u32) < 0x20 {
            return None;
        } else {
            push_char(&mut acc, c);
            cur += 1;
        }
    }
}

/// Parse the JSON number starting at `i`.
fn parse_number(s: &str, i: usize) -> (r: Option<(RawValue, usize)>)
    requires
        i <= s@.len(),
    ensures
        match r {
            Some(t) => {
                &&& spec_number_at(s@, i as int) == Some((t.0.view_raw(), t.1 as int))
                &&& i < t.1 <= s@.len()
            },
            None => spec_number_at(s@, i as int) is None,
        },
{
    let n = s.unicode_len();
    let istart: usize = if i < n && s.get_char(i) == '-' {
        i + 1
    } else {
        i
    };
    if istart >= n {
        return None;
    }
    let c0 = s.get_char(istart);
    let code0 = c0 as u32;
    if !(48 <= code0 && code0 <= 57) {
        return None;
    }
    let int_end: usize = if c0 == '0' {
        istart + 1
    } else {
        scan_digits(s, istart)
    };
    proof {
        assert(is_digit(s@[istart as int]));
        assert(digits_end(s@, istart as int) == digits_end(s@, istart as int + 1));
        lemma_digits_end(s@, istart as int + 1);
        assert(istart < int_end <= s@.len());
    }
    let fe: usize = if int_end < n && s.get_char(int_end) == '.' {
        let k = scan_digits(s, int_end + 1);
        if k == int_end + 1 {
            return None;
        }
        k
    } else {
        int_end
    };
    let e_end: usize = if fe < n && (s.get_char(fe) == 'e' || s.get_char(fe) == 'E') {
        let j: usize = if fe + 1 < n && (s.get_char(fe + 1) == '+' || s.get_char(fe + 1) == '-') {
            fe + 2
        } else {
            fe + 1
        };
        let k = scan_digits(s, j);
        if k == j {
            return None;
        }
        k
    } else {
        fe
    };
    let tok = s.substring_char(i, e_end);
    if e_end == int_end {
        Some((parse_number_token(tok), e_end))
    } else {
        Some((RawValue::Pending(tok.to_owned()), e_end))
    }
}

/// Parse the JSON value standing at `i`: a number, or a string coerced by
/// the integer-then-float rule.
fn parse_value(s: &str, i: usize) -> (r: Option<(RawValue, usize)>)
    requires
        i <= s@.len(),
    ensures
        match r {
            Some(t) => {
                &&& spec_value_at(s@, i as int) == Some((t.0.view_raw(), t.1 as int))
                &&& i < t.1 <= s@.len()
            },
            None => spec_value_at(s@, i as int) is None,
        },
{
    let n = s.unicode_len();
    if i >= n {
        return None;
    }
    let c = s.get_char(i);
    let code = c as u32;
    if c == '"' {
        match parse_string(s, i) {
            None => None,
            Some((text, j)) => Some((parse_number_token(text.as_str()), j)),
        }
    } else if c == '-' || (48 <= code && code <= 57) {
        parse_number(s, i)
    } else {
        None
    }
}

/// True if `fields` already holds a field named `key`.
fn raw_contains(fields: &Vec<(String, RawValue)>, key: &str) -> (r: bool)
    ensures
        r == spec_fields_contain(fields_view(fields@), key@),
{
    let n = fields.len();
    let mut i: usize = 0;
    while i < n
        invariant
            n == fields@.len(),
            i <= n,
            forall|k: int| 0 <= k < i ==> fields_view(fields@)[k].0 != key@,
        decreases n - i,
    {
        if str_eq(fields[i].0.as_str(), key) {
            proof {
                assert(fields_view(fields@)[i as int].0 == key@);
            }
            return true;
        }
        i += 1;
    }
    false
}

/// JSON parser: parses one line as a flat object of coerced numeric
/// values.
pub struct JsonParser;

impl JsonParser {
    /// Create a JSON parser.
    pub fn new() -> Self {
        Self {  }
    }

    /// Parse one input line.
    ///
    /// Succeeds exactly when the line holds a flat JSON object with
    /// distinct field names whose values are numbers or numeric-looking
    /// strings; each value is classified by the integer-then-float rule,
    /// floats staying pending for the caller.
    pub fn parse(&self, input: &str) -> (r: Result<RawRecord, ParseError>)
        ensures
            r is Ok <==> spec_json_record(input@) is Some,
            match r {
                Ok(raw) => {
                    &&& raw.wf()
                    &&& Some(raw.spec_fields()) == spec_json_record(input@)
                },
                Err(e) => e == ParseError,
            },
    {
        let n = input.unicode_len();
        let i0 = skip_ws(input, 0);
        if i0 >= n || input.get_char(i0) != '{' {
            return Err(ParseError);
        }
        let i1 = skip_ws(input, i0 + 1);
        if i1 < n && input.get_char(i1) == '}' {
            let raw = RawRecord { fields: Vec::new() };
            proof {
                assert(raw.spec_fields() =~= Seq::<(Seq<char>, SpecRawValue)>::empty());
            }
            return Ok(raw);
        }
        let mut fields: Vec<(String, RawValue)> = Vec::new();
        let mut cur: usize = i0 + 1;
        proof {
            assert(fields_view(fields@) =~= Seq::<(Seq<char>, SpecRawValue)>::empty());
        }
        loop
            invariant
                n == input@.len(),
                i0 < n,
                input@[i0 as int] == '{',
                i0 as int == ws_end(input@, 0),
                ws_end(input@, i0 as int + 1) < n ==> input@[ws_end(input@, i0 as int + 1)]
                    != '}',
                cur <= n,
                forall|a: int, b: int|
                    0 <= a < b < fields_view(fields@).len() ==> fields_view(fields@)[a].0
                        != fields_view(fields@)[b].0,
                spec_members(input@, i0 as int + 1, Seq::empty()) == spec_members(
                    input@,
                    cur as int,
                    fields_view(fields@),
                ),
            decreases n - cur,
        {
            let k0 = skip_ws(input, cur);
            let (key, k1) = match parse_string(input, k0) {
                Some(kv) => kv,
                None => {
                    return Err(ParseError);
                },
            };
            if raw_contains(&fields, key.as_str()) {
                return Err(ParseError);
            }
            let k2 = skip_ws(input, k1);
            if k2 >= n || input.get_char(k2) != ':' {
                return Err(ParseError);
            }
            let vstart = skip_ws(input, k2 + 1);
            let (value, k3) = match parse_value(input, vstart) {
                Some(vv) => vv,
                None => {
                    return Err(ParseError);
                },
            };
            let k4 = skip_ws(input, k3);
            let ghost prev_fields = fields_view(fields@);
            if k4 < n && input.get_char(k4) == ',' {
                fields.push((key, value));
                proof {
                    assert(fields_view(fields@) =~= prev_fields.push((key@, value.view_raw())));
                    lemma_fields_push_distinct(prev_fields, key@, value.view_raw());
                }
                cur = k4 + 1;
            } else if k4 < n && input.get_char(k4) == '}' {
                fields.push((key, value));
                proof {
                    assert(fields_view(fields@) =~= prev_fields.push((key@, value.view_raw())));
                    lemma_fields_push_distinct(prev_fields, key@, value.view_raw());
                }
                let raw = RawRecord { fields };
                proof {
                    assert(raw.spec_fields() =~= fields_view(raw.fields@));
                }
                return Ok(raw);
            } else {
                return Err(ParseError);
            }
        }
    }
}

/// Appending a fresh key keeps a field list's keys distinct.
proof fn lemma_fields_push_distinct(
    fields: Seq<(Seq<char>, SpecRawValue)>,
    key: Seq<char>,
    value: SpecRawValue,
)
    requires
        forall|a: int, b: int| 0 <= a < b < fields.len() ==> fields[a].0 != fields[b].0,
        !spec_fields_contain(fields, key),
    ensures
        forall|a: int, b: int|
            0 <= a < b < fields.push((key, value)).len() ==> fields.push((key, value))[a].0
                != fields.push((key, value))[b].0,
{
    let pushed = fields.push((key, value));
    assert forall|a: int, b: int| 0 <= a < b < pushed.len() implies pushed[a].0 != pushed[b].0 by {
        if b == pushed.len() - 1 {
            assert(pushed[a] == fields[a]);
            assert(pushed[b].0 == key);
            if fields[a].0 == key {
                assert(spec_fields_contain(fields, key));
            }
        } else {
            assert(pushed[a] == fields[a]);
            assert(pushed[b] == fields[b]);
        }
    }
}

} // verus!

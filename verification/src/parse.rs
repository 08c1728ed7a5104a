//! A JSON parser, specified and verified.
//!
//! The grammar is standard JSON: one value with whitespace around it;
//! objects, arrays, strings with escapes (including surrogate pairs),
//! numbers, and the three literals. The `sp_` functions define what text
//! parses to which value; the executable parser is proved to return
//! exactly that.
//!
//! Inside the recursive `sp_` definitions, a handful of range guards
//! (`if k <= j { None }`) keep the recursion visibly well-founded; the
//! guarded situations never arise, since every parsed piece ends past its
//! start and within the text.

use crate::value::{
    lemma_member_views_of_push, lemma_views_of_push, member_views_of, views_of, Json, JsonV,
};
use vstd::prelude::*;

verus! {

/// JSON insignificant whitespace.
pub open spec fn is_ws(c: char) -> bool {
    c == ' ' || c == '\n' || c == '\r' || c == '\t'
}

/// An ASCII decimal digit.
pub open spec fn is_digit(c: char) -> bool {
    '0' as u32 <= c as u32 && c as u32 <= '9' as u32
}

/// The first position at or after `i` holding no whitespace.
pub open spec fn skip_ws(s: Seq<char>, i: int) -> int
    decreases s.len() - i,
{
    if 0 <= i < s.len() && is_ws(s[i]) {
        skip_ws(s, i + 1)
    } else {
        i
    }
}

/// The first position at or after `i` holding no digit.
pub open spec fn digits_end(s: Seq<char>, i: int) -> int
    decreases s.len() - i,
{
    if 0 <= i < s.len() && is_digit(s[i]) {
        digits_end(s, i + 1)
    } else {
        i
    }
}

/// `digits_end` moves forward and stays in the text.
pub proof fn lemma_digits_end(s: Seq<char>, i: int)
    requires
        0 <= i <= s.len(),
    ensures
        i <= digits_end(s, i) <= s.len(),
    decreases s.len() - i,
{
    if i < s.len() && is_digit(s[i]) {
        lemma_digits_end(s, i + 1);
    }
}

/// The value of a hexadecimal digit, or -1 for any other character.
pub open spec fn hex_val(c: char) -> int {
    let u = c as u32;
    if '0' as u32 <= u && u <= '9' as u32 {
        u - '0' as u32
    } else if 'a' as u32 <= u && u <= 'f' as u32 {
        u - 'a' as u32 + 10
    } else if 'A' as u32 <= u && u <= 'F' as u32 {
        u - 'A' as u32 + 10
    } else {
        -1
    }
}

/// The value of the four hexadecimal digits at `i`, or -1 when they are
/// not there.
pub open spec fn sp_hex4(s: Seq<char>, i: int) -> int {
    if 0 <= i && i + 4 <= s.len() && hex_val(s[i]) >= 0 && hex_val(s[i + 1]) >= 0 && hex_val(
        s[i + 2],
    ) >= 0 && hex_val(s[i + 3]) >= 0 {
        hex_val(s[i]) * 0x1000 + hex_val(s[i + 1]) * 0x100 + hex_val(s[i + 2]) * 0x10 + hex_val(
            s[i + 3],
        )
    } else {
        -1
    }
}

/// The character denoted by the escape whose introducing backslash stands
/// just before `i`, and the position after it. A `\u` escape must denote a
/// Unicode scalar: a high surrogate must be followed by a low one, and a
/// lone low surrogate is refused.
pub open spec fn sp_escape(s: Seq<char>, i: int) -> Option<(char, int)> {
    if !(0 <= i < s.len()) {
        None
    } else {
        let c = s[i];
        if c == '"' {
            Some(('"', i + 1))
        } else if c == '\\' {
            Some(('\\', i + 1))
        } else if c == '/' {
            Some(('/', i + 1))
        } else if c == 'b' {
            Some(('\u{8}', i + 1))
        } else if c == 'f' {
            Some(('\u{c}', i + 1))
        } else if c == 'n' {
            Some(('\n', i + 1))
        } else if c == 'r' {
            Some(('\r', i + 1))
        } else if c == 't' {
            Some(('\t', i + 1))
        } else if c == 'u' {
            let h = sp_hex4(s, i + 1);
            if h < 0 {
                None
            } else if 0xDC00 <= h && h <= 0xDFFF {
                None
            } else if 0xD800 <= h && h <= 0xDBFF {
                if i + 11 <= s.len() && s[i + 5] == '\\' && s[i + 6] == 'u' {
                    let l = sp_hex4(s, i + 7);
                    if 0xDC00 <= l && l <= 0xDFFF {
                        Some(
                            (
                                ((0x10000 + (h - 0xD800) * 0x400 + (l - 0xDC00)) as u32) as char,
                                i + 11,
                            ),
                        )
                    } else {
                        None
                    }
                } else {
                    None
                }
            } else {
                Some(((h as u32) as char, i + 5))
            }
        } else {
            None
        }
    }
}

/// The decoded content of the string whose opening quote stands just
/// before `i`, and the position after the closing quote. Unescaped control
/// characters are refused.
pub open spec fn sp_string(s: Seq<char>, i: int) -> Option<(Seq<char>, int)>
    decreases s.len() - i,
{
    if !(0 <= i < s.len()) {
        None
    } else {
        let c = s[i];
        if c == '"' {
            Some((Seq::empty(), i + 1))
        } else if c == '\\' {
            match sp_escape(s, i + 1) {
                None => None,
                Some((d, j)) => if j <= i || j > s.len() {
                    None
                } else {
                    match sp_string(s, j) {
                        None => None,
                        Some((t, k)) => Some((seq![d] + t, k)),
                    }
                },
            }
        } else if (c as u32) < 0x20 {
            None
        } else {
            match sp_string(s, i + 1) {
                None => None,
                Some((t, k)) => Some((seq![c] + t, k)),
            }
        }
    }
}

/// The position after the number starting at `i`, or `None` when no JSON
/// number starts there.
pub open spec fn sp_number(s: Seq<char>, i: int) -> Option<int> {
    let j = if 0 <= i < s.len() && s[i] == '-' {
        i + 1
    } else {
        i
    };
    if 0 <= j < s.len() && is_digit(s[j]) {
        let k = if s[j] == '0' {
            j + 1
        } else {
            digits_end(s, j)
        };
        let k2 = if k < s.len() && s[k] == '.' {
            if k + 1 < s.len() && is_digit(s[k + 1]) {
                digits_end(s, k + 1)
            } else {
                -1
            }
        } else {
            k
        };
        if k2 < 0 {
            None
        } else {
            let k3 = if k2 < s.len() && (s[k2] == 'e' || s[k2] == 'E') {
                let e = if k2 + 1 < s.len() && (s[k2 + 1] == '+' || s[k2 + 1] == '-') {
                    k2 + 2
                } else {
                    k2 + 1
                };
                if e < s.len() && is_digit(s[e]) {
                    digits_end(s, e)
                } else {
                    -1
                }
            } else {
                k2
            };
            if k3 < 0 {
                None
            } else {
                Some(k3)
            }
        }
    } else {
        None
    }
}

/// The value starting exactly at `i` (no leading whitespace), and the
/// position after it.
pub open spec fn sp_value(s: Seq<char>, i: int) -> Option<(JsonV, int)>
    decreases s.len() - i, 2int,
{
    if !(0 <= i < s.len()) {
        None
    } else {
        let c = s[i];
        if c == 'n' {
            if i + 4 <= s.len() && s[i + 1] == 'u' && s[i + 2] == 'l' && s[i + 3] == 'l' {
                Some((JsonV::Null, i + 4))
            } else {
                None
            }
        } else if c == 't' {
            if i + 4 <= s.len() && s[i + 1] == 'r' && s[i + 2] == 'u' && s[i + 3] == 'e' {
                Some((JsonV::Bool(true), i + 4))
            } else {
                None
            }
        } else if c == 'f' {
            if i + 5 <= s.len() && s[i + 1] == 'a' && s[i + 2] == 'l' && s[i + 3] == 's' && s[i + 4]
                == 'e' {
                Some((JsonV::Bool(false), i + 5))
            } else {
                None
            }
        } else if c == '"' {
            match sp_string(s, i + 1) {
                None => None,
                Some((t, j)) => Some((JsonV::Str(t), j)),
            }
        } else if c == '-' || is_digit(c) {
            match sp_number(s, i) {
                None => None,
                Some(j) => Some((JsonV::Num, j)),
            }
        } else if c == '[' {
            let j = skip_ws(s, i + 1);
            if i + 1 <= j <= s.len() && j < s.len() && s[j] == ']' {
                Some((JsonV::Arr(Seq::empty()), j + 1))
            } else {
                match sp_items(s, i + 1) {
                    None => None,
                    Some((vs, k)) => Some((JsonV::Arr(vs), k)),
                }
            }
        } else if c == '{' {
            let j = skip_ws(s, i + 1);
            if i + 1 <= j <= s.len() && j < s.len() && s[j] == '}' {
                Some((JsonV::Obj(Seq::empty()), j + 1))
            } else {
                match sp_members(s, i + 1) {
                    None => None,
                    Some((ms, k)) => Some((JsonV::Obj(ms), k)),
                }
            }
        } else {
            None
        }
    }
}

/// The non-empty list of array elements starting at `i` (whitespace
/// allowed), and the position after the closing bracket.
pub open spec fn sp_items(s: Seq<char>, i: int) -> Option<(Seq<JsonV>, int)>
    decreases s.len() - i, 3int,
{
    if !(0 <= i <= s.len()) {
        None
    } else {
        let j = skip_ws(s, i);
        if j < i || j > s.len() {
            None
        } else {
            match sp_value(s, j) {
                None => None,
                Some((v, k)) => {
                    if k <= j || k > s.len() {
                        None
                    } else {
                        let m = skip_ws(s, k);
                        if m < k || m > s.len() {
                            None
                        } else if m < s.len() && s[m] == ']' {
                            Some((seq![v], m + 1))
                        } else if m < s.len() && s[m] == ',' {
                            match sp_items(s, m + 1) {
                                None => None,
                                Some((vs, e)) => Some((seq![v] + vs, e)),
                            }
                        } else {
                            None
                        }
                    }
                },
            }
        }
    }
}

/// The non-empty list of object members starting at `i` (whitespace
/// allowed), and the position after the closing brace.
pub open spec fn sp_members(s: Seq<char>, i: int) -> Option<(Seq<(Seq<char>, JsonV)>, int)>
    decreases s.len() - i, 3int,
{
    if !(0 <= i <= s.len()) {
        None
    } else {
        let j = skip_ws(s, i);
        if j < i || j > s.len() {
            None
        } else if !(j < s.len() && s[j] == '"') {
            None
        } else {
            match sp_string(s, j + 1) {
                None => None,
                Some((key, k)) => {
                    if k <= j + 1 || k > s.len() {
                        None
                    } else {
                        let m = skip_ws(s, k);
                        if m < k || m > s.len() {
                            None
                        } else if !(m < s.len() && s[m] == ':') {
                            None
                        } else {
                            let p = skip_ws(s, m + 1);
                            if p < m + 1 || p > s.len() {
                                None
                            } else {
                                match sp_value(s, p) {
                                    None => None,
                                    Some((v, q)) => {
                                        if q <= p || q > s.len() {
                                            None
                                        } else {
                                            let w = skip_ws(s, q);
                                            if w < q || w > s.len() {
                                                None
                                            } else if w < s.len() && s[w] == '}' {
                                                Some((seq![(key, v)], w + 1))
                                            } else if w < s.len() && s[w] == ',' {
                                                match sp_members(s, w + 1) {
                                                    None => None,
                                                    Some((ms, e)) => Some(
                                                        (seq![(key, v)] + ms, e),
                                                    ),
                                                }
                                            } else {
                                                None
                                            }
                                        }
                                    },
                                }
                            }
                        }
                    }
                },
            }
        }
    }
}

/// The JSON document denoted by `s`: the single value it holds, with
/// whitespace allowed around it; `None` when `s` is not valid JSON.
pub open spec fn sp_document(s: Seq<char>) -> Option<JsonV> {
    match sp_value(s, skip_ws(s, 0)) {
        None => None,
        Some((v, j)) => if skip_ws(s, j) == s.len() {
            Some(v)
        } else {
            None
        },
    }
}

fn is_ws_x(c: char) -> (r: bool)
    ensures
        r == is_ws(c),
{
    c == ' ' || c == '\n' || c == '\r' || c == '\t'
}

fn is_digit_x(c: char) -> (r: bool)
    ensures
        r == is_digit(c),
{
    let u = c as u32;
    48 <= u && u <= 57
}

fn skip_ws_x(s: &Vec<char>, i: usize) -> (r: usize)
    requires
        i <= s@.len(),
    ensures
        r == skip_ws(s@, i as int),
        i <= r <= s@.len(),
{
    let mut j = i;
    while j < s.len() && is_ws_x(s[j])
        invariant
            i <= j <= s@.len(),
            skip_ws(s@, i as int) == skip_ws(s@, j as int),
        decreases s@.len() - j,
    {
        j = j + 1;
    }
    j
}

fn digits_end_x(s: &Vec<char>, i: usize) -> (r: usize)
    requires
        i <= s@.len(),
    ensures
        r == digits_end(s@, i as int),
        i <= r <= s@.len(),
{
    let mut j = i;
    while j < s.len() && is_digit_x(s[j])
        invariant
            i <= j <= s@.len(),
            digits_end(s@, i as int) == digits_end(s@, j as int),
        decreases s@.len() - j,
    {
        j = j + 1;
    }
    j
}

fn hex_val_x(c: char) -> (r: Option<u32>)
    ensures
        match r {
            Some(v) => hex_val(c) == v && v < 16,
            None => hex_val(c) < 0,
        },
{
    let u = c as u32;
    if 48 <= u && u <= 57 {
        Some(u - 48)
    } else if 97 <= u && u <= 102 {
        Some(u - 97 + 10)
    } else if 65 <= u && u <= 70 {
        Some(u - 65 + 10)
    } else {
        None
    }
}

fn parse_hex4(s: &Vec<char>, i: usize) -> (r: Option<u32>)
    requires
        i <= s@.len(),
    ensures
        match r {
            Some(v) => sp_hex4(s@, i as int) == v && v <= 0xFFFF,
            None => sp_hex4(s@, i as int) < 0,
        },
{
    if s.len() - i < 4 {
        return None;
    }
    let h0 = hex_val_x(s[i]);
    let h1 = hex_val_x(s[i + 1]);
    let h2 = hex_val_x(s[i + 2]);
    let h3 = hex_val_x(s[i + 3]);
    match (h0, h1, h2, h3) {
        (Some(a), Some(b), Some(c), Some(d)) => Some(a * 0x1000 + b * 0x100 + c * 0x10 + d),
        _ => None,
    }
}

/// Decodes the escape whose backslash stands just before `i`.
fn parse_escape(s: &Vec<char>, i: usize) -> (r: Option<(char, usize)>)
    requires
        i <= s@.len(),
    ensures
        match r {
            Some(p) => sp_escape(s@, i as int) == Some((p.0, p.1 as int)) && i < p.1 <= s@.len(),
            None => sp_escape(s@, i as int) is None,
        },
{
    if i >= s.len() {
        return None;
    }
    let c = s[i];
    if c == '"' {
        Some(('"', i + 1))
    } else if c == '\\' {
        Some(('\\', i + 1))
    } else if c == '/' {
        Some(('/', i + 1))
    } else if c == 'b' {
        Some(('\u{8}', i + 1))
    } else if c == 'f' {
        Some(('\u{c}', i + 1))
    } else if c == 'n' {
        Some(('\n', i + 1))
    } else if c == 'r' {
        Some(('\r', i + 1))
    } else if c == 't' {
        Some(('\t', i + 1))
    } else if c == 'u' {
        match parse_hex4(s, i + 1) {
            None => None,
            Some(h) => {
                if 0xDC00 <= h && h <= 0xDFFF {
                    None
                } else if 0xD800 <= h && h <= 0xDBFF {
                    if s.len() - i >= 11 && s[i + 5] == '\\' && s[i + 6] == 'u' {
                        match parse_hex4(s, i + 7) {
                            None => None,
                            Some(l) => {
                                if 0xDC00 <= l && l <= 0xDFFF {
                                    let code = 0x10000 + (h - 0xD800) * 0x400 + (l - 0xDC00);
                                    proof {
                                        assert(vstd::utf8::is_scalar(code));
                                    }
                                    match crate::text::char_from_u32(code) {
                                        Some(d) => {
                                            proof {
                                                vstd::utf8::char_u32_cast(d, code);
                                            }
                                            Some((d, i + 11))
                                        },
                                        // a surrogate pair always combines
                                        // into a Unicode scalar
                                        None => {
                                            proof {
                                                assert(false);
                                            }
                                            None
                                        },
                                    }
                                } else {
                                    None
                                }
                            },
                        }
                    } else {
                        None
                    }
                } else {
                    proof {
                        assert(vstd::utf8::is_scalar(h));
                    }
                    match crate::text::char_from_u32(h) {
                        Some(d) => {
                            proof {
                                vstd::utf8::char_u32_cast(d, h);
                            }
                            Some((d, i + 5))
                        },
                        // a non-surrogate value below 0x10000 is a scalar
                        None => {
                            proof {
                                assert(false);
                            }
                            None
                        },
                    }
                }
            },
        }
    } else {
        None
    }
}

/// `r` with the text `pre` prepended to its decoded content.
pub open spec fn with_text_prefix(pre: Seq<char>, r: Option<(Seq<char>, int)>) -> Option<
    (Seq<char>, int),
> {
    match r {
        None => None,
        Some((t, k)) => Some((pre + t, k)),
    }
}

proof fn lemma_with_text_prefix(a: Seq<char>, b: Seq<char>, r: Option<(Seq<char>, int)>)
    ensures
        with_text_prefix(a, with_text_prefix(b, r)) == with_text_prefix(a + b, r),
{
    match r {
        None => {},
        Some((t, k)) => {
            assert(a + (b + t) =~= (a + b) + t);
        },
    }
}

/// Decodes the string content whose opening quote stands just before `i`.
fn parse_string_x(s: &Vec<char>, i: usize) -> (r: Option<(Vec<char>, usize)>)
    requires
        i <= s@.len(),
    ensures
        match r {
            Some(p) => sp_string(s@, i as int) == Some((p.0@, p.1 as int)) && i < p.1 <= s@.len(),
            None => sp_string(s@, i as int) is None,
        },
{
    let mut acc: Vec<char> = Vec::new();
    let mut j = i;
    loop
        invariant
            i <= j <= s@.len(),
            sp_string(s@, i as int) == with_text_prefix(acc@, sp_string(s@, j as int)),
        decreases s@.len() - j,
    {
        if j >= s.len() {
            return None;
        }
        let c = s[j];
        if c == '"' {
            proof {
                assert(acc@ + Seq::<char>::empty() =~= acc@);
            }
            return Some((acc, j + 1));
        } else if c == '\\' {
            match parse_escape(s, j + 1) {
                None => {
                    return None;
                },
                Some((d, e)) => {
                    proof {
                        assert(sp_string(s@, j as int) == with_text_prefix(
                            seq![d],
                            sp_string(s@, e as int),
                        ));
                        lemma_with_text_prefix(acc@, seq![d], sp_string(s@, e as int));
                        assert(acc@ + seq![d] =~= acc@.push(d));
                    }
                    acc.push(d);
                    j = e;
                },
            }
        } else if (c as u32) < 0x20 {
            return None;
        } else {
            proof {
                assert(sp_string(s@, j as int) == with_text_prefix(
                    seq![c],
                    sp_string(s@, j + 1 as int),
                ));
                lemma_with_text_prefix(acc@, seq![c], sp_string(s@, j + 1 as int));
                assert(acc@ + seq![c] =~= acc@.push(c));
            }
            acc.push(c);
            j = j + 1;
        }
    }
}

/// Scans the number starting at `i`.
#[verifier::rlimit(50)]
fn parse_number_end(s: &Vec<char>, i: usize) -> (r: Option<usize>)
    requires
        i <= s@.len(),
    ensures
        match r {
            Some(e) => sp_number(s@, i as int) == Some(e as int) && i < e <= s@.len(),
            None => sp_number(s@, i as int) is None,
        },
{
    let mut j = i;
    if j < s.len() && s[j] == '-' {
        j = j + 1;
    }
    if !(j < s.len() && is_digit_x(s[j])) {
        return None;
    }
    let k = if s[j] == '0' {
        j + 1
    } else {
        digits_end_x(s, j)
    };
    let k2 = if k < s.len() && s[k] == '.' {
        if k + 1 < s.len() && is_digit_x(s[k + 1]) {
            digits_end_x(s, k + 1)
        } else {
            return None;
        }
    } else {
        k
    };
    let k3 = if k2 < s.len() && (s[k2] == 'e' || s[k2] == 'E') {
        let e0 = if k2 + 1 < s.len() && (s[k2 + 1] == '+' || s[k2 + 1] == '-') {
            k2 + 2
        } else {
            k2 + 1
        };
        if e0 < s.len() && is_digit_x(s[e0]) {
            digits_end_x(s, e0)
        } else {
            return None;
        }
    } else {
        k2
    };
    proof {
        if s@[j as int] != '0' {
            lemma_digits_end(s@, j + 1 as int);
            assert(digits_end(s@, j as int) == digits_end(s@, j + 1 as int));
        }
        assert(k >= j + 1);
    }
    Some(k3)
}

/// `r` with the values `pre` prepended to its elements.
pub open spec fn with_items_prefix(pre: Seq<JsonV>, r: Option<(Seq<JsonV>, int)>) -> Option<
    (Seq<JsonV>, int),
> {
    match r {
        None => None,
        Some((vs, e)) => Some((pre + vs, e)),
    }
}

proof fn lemma_with_items_prefix(a: Seq<JsonV>, b: Seq<JsonV>, r: Option<(Seq<JsonV>, int)>)
    ensures
        with_items_prefix(a, with_items_prefix(b, r)) == with_items_prefix(a + b, r),
{
    match r {
        None => {},
        Some((vs, e)) => {
            assert(a + (b + vs) =~= (a + b) + vs);
        },
    }
}

/// `r` with the members `pre` prepended to its members.
pub open spec fn with_members_prefix(
    pre: Seq<(Seq<char>, JsonV)>,
    r: Option<(Seq<(Seq<char>, JsonV)>, int)>,
) -> Option<(Seq<(Seq<char>, JsonV)>, int)> {
    match r {
        None => None,
        Some((ms, e)) => Some((pre + ms, e)),
    }
}

proof fn lemma_with_members_prefix(
    a: Seq<(Seq<char>, JsonV)>,
    b: Seq<(Seq<char>, JsonV)>,
    r: Option<(Seq<(Seq<char>, JsonV)>, int)>,
)
    ensures
        with_members_prefix(a, with_members_prefix(b, r)) == with_members_prefix(a + b, r),
{
    match r {
        None => {},
        Some((ms, e)) => {
            assert(a + (b + ms) =~= (a + b) + ms);
        },
    }
}

/// Parses the value starting exactly at `i`.
#[verifier::rlimit(50)]
pub fn parse_value(s: &Vec<char>, i: usize) -> (r: Option<(Json, usize)>)
    requires
        i <= s@.len(),
    ensures
        match r {
            Some(p) => sp_value(s@, i as int) == Some((p.0@, p.1 as int)) && i < p.1 <= s@.len(),
            None => sp_value(s@, i as int) is None,
        },
    decreases s@.len() - i, 2int,
{
    if i >= s.len() {
        return None;
    }
    let c = s[i];
    if c == 'n' {
        if s.len() - i >= 4 && s[i + 1] == 'u' && s[i + 2] == 'l' && s[i + 3] == 'l' {
            Some((Json::Null, i + 4))
        } else {
            None
        }
    } else if c == 't' {
        if s.len() - i >= 4 && s[i + 1] == 'r' && s[i + 2] == 'u' && s[i + 3] == 'e' {
            Some((Json::Bool(true), i + 4))
        } else {
            None
        }
    } else if c == 'f' {
        if s.len() - i >= 5 && s[i + 1] == 'a' && s[i + 2] == 'l' && s[i + 3] == 's' && s[i + 4]
            == 'e' {
            Some((Json::Bool(false), i + 5))
        } else {
            None
        }
    } else if c == '"' {
        match parse_string_x(s, i + 1) {
            None => None,
            Some((t, j)) => Some((Json::Str(t), j)),
        }
    } else if c == '-' || is_digit_x(c) {
        match parse_number_end(s, i) {
            None => None,
            Some(j) => Some((Json::Num, j)),
        }
    } else if c == '[' {
        let j = skip_ws_x(s, i + 1);
        if j < s.len() && s[j] == ']' {
            proof {
                assert(views_of(Seq::<Json>::empty()) =~= Seq::<JsonV>::empty());
            }
            Some((Json::Arr(Vec::new()), j + 1))
        } else {
            match parse_items(s, i + 1) {
                None => None,
                Some((vs, k)) => Some((Json::Arr(vs), k)),
            }
        }
    } else if c == '{' {
        let j = skip_ws_x(s, i + 1);
        if j < s.len() && s[j] == '}' {
            proof {
                assert(member_views_of(Seq::<(Vec<char>, Json)>::empty()) =~= Seq::<
                    (Seq<char>, JsonV),
                >::empty());
            }
            Some((Json::Obj(Vec::new()), j + 1))
        } else {
            match parse_members(s, i + 1) {
                None => None,
                Some((ms, k)) => Some((Json::Obj(ms), k)),
            }
        }
    } else {
        None
    }
}

/// Parses the non-empty element list of an array, from just after the
/// opening bracket to just past the closing one.
#[verifier::rlimit(50)]
pub fn parse_items(s: &Vec<char>, i: usize) -> (r: Option<(Vec<Json>, usize)>)
    requires
        i <= s@.len(),
    ensures
        match r {
            Some(p) => sp_items(s@, i as int) == Some((views_of(p.0@), p.1 as int)) && i < p.1
                <= s@.len(),
            None => sp_items(s@, i as int) is None,
        },
    decreases s@.len() - i, 3int,
{
    let mut acc: Vec<Json> = Vec::new();
    let mut j = i;
    loop
        invariant
            i <= j <= s@.len(),
            sp_items(s@, i as int) == with_items_prefix(views_of(acc@), sp_items(s@, j as int)),
        decreases s@.len() - j,
    {
        let p = skip_ws_x(s, j);
        match parse_value(s, p) {
            None => {
                return None;
            },
            Some((v, k)) => {
                let m = skip_ws_x(s, k);
                if m < s.len() && s[m] == ']' {
                    proof {
                        assert(sp_items(s@, j as int) == Some((seq![v@], m + 1 as int)));
                        lemma_views_of_push(acc@, v);
                        assert(views_of(acc@) + seq![v@] =~= views_of(acc@).push(v@));
                    }
                    acc.push(v);
                    return Some((acc, m + 1));
                } else if m < s.len() && s[m] == ',' {
                    proof {
                        assert(sp_items(s@, j as int) == with_items_prefix(
                            seq![v@],
                            sp_items(s@, m + 1 as int),
                        ));
                        lemma_with_items_prefix(views_of(acc@), seq![v@], sp_items(s@, m + 1 as int));
                        lemma_views_of_push(acc@, v);
                        assert(views_of(acc@) + seq![v@] =~= views_of(acc@).push(v@));
                    }
                    acc.push(v);
                    j = m + 1;
                } else {
                    return None;
                }
            },
        }
    }
}

/// Parses the non-empty member list of an object, from just after the
/// opening brace to just past the closing one.
#[verifier::rlimit(50)]
pub fn parse_members(s: &Vec<char>, i: usize) -> (r: Option<(Vec<(Vec<char>, Json)>, usize)>)
    requires
        i <= s@.len(),
    ensures
        match r {
            Some(p) => sp_members(s@, i as int) == Some((member_views_of(p.0@), p.1 as int)) && i
                < p.1 <= s@.len(),
            None => sp_members(s@, i as int) is None,
        },
    decreases s@.len() - i, 3int,
{
    let mut acc: Vec<(Vec<char>, Json)> = Vec::new();
    let mut j = i;
    loop
        invariant
            i <= j <= s@.len(),
            sp_members(s@, i as int) == with_members_prefix(
                member_views_of(acc@),
                sp_members(s@, j as int),
            ),
        decreases s@.len() - j,
    {
        let jq = skip_ws_x(s, j);
        if !(jq < s.len() && s[jq] == '"') {
            return None;
        }
        match parse_string_x(s, jq + 1) {
            None => {
                return None;
            },
            Some((key, k)) => {
                let m = skip_ws_x(s, k);
                if !(m < s.len() && s[m] == ':') {
                    return None;
                }
                let pv = skip_ws_x(s, m + 1);
                match parse_value(s, pv) {
                    None => {
                        return None;
                    },
                    Some((v, q)) => {
                        let w = skip_ws_x(s, q);
                        if w < s.len() && s[w] == '}' {
                            proof {
                                assert(sp_members(s@, j as int) == Some(
                                    (seq![(key@, v@)], w + 1 as int),
                                ));
                                lemma_member_views_of_push(acc@, (key, v));
                                assert(member_views_of(acc@) + seq![(key@, v@)]
                                    =~= member_views_of(acc@).push((key@, v@)));
                            }
                            acc.push((key, v));
                            return Some((acc, w + 1));
                        } else if w < s.len() && s[w] == ',' {
                            proof {
                                assert(sp_members(s@, j as int) == with_members_prefix(
                                    seq![(key@, v@)],
                                    sp_members(s@, w + 1 as int),
                                ));
                                lemma_with_members_prefix(
                                    member_views_of(acc@),
                                    seq![(key@, v@)],
                                    sp_members(s@, w + 1 as int),
                                );
                                lemma_member_views_of_push(acc@, (key, v));
                                assert(member_views_of(acc@) + seq![(key@, v@)]
                                    =~= member_views_of(acc@).push((key@, v@)));
                            }
                            acc.push((key, v));
                            j = w + 1;
                        } else {
                            return None;
                        }
                    },
                }
            },
        }
    }
}

/// Parses a complete JSON document: one value, whitespace allowed around
/// it, reaching to the end of the text.
pub fn parse_document(s: &Vec<char>) -> (r: Option<Json>)
    ensures
        match r {
            Some(v) => sp_document(s@) == Some(v@),
            None => sp_document(s@) is None,
        },
{
    let i = skip_ws_x(s, 0);
    match parse_value(s, i) {
        None => None,
        Some((v, j)) => {
            let e = skip_ws_x(s, j);
            if e == s.len() {
                Some(v)
            } else {
                None
            }
        },
    }
}

} // verus!

//! Byte-level parsing primitives for the pack configuration format:
//! whitespace, strings with the common escapes, unsigned integers, and a
//! balanced-token skipper for values of fields the schema does not know.

use vstd::prelude::*;
use crate::text::{is_digit, dec_value, all_digits};

verus! {

pub const QUOTE: u8 = 34;
pub const BACKSLASH: u8 = 92;
pub const SLASH: u8 = 47;
pub const LBRACE: u8 = 123;
pub const RBRACE: u8 = 125;
pub const LBRACKET: u8 = 91;
pub const RBRACKET: u8 = 93;
pub const COLON: u8 = 58;
pub const COMMA: u8 = 44;

pub open spec fn is_ws(c: u8) -> bool {
    c == 32 || c == 9 || c == 10 || c == 13
}

/// Index of the first non-whitespace byte at or after `i`.
pub open spec fn ws_end(s: Seq<u8>, i: int) -> int
    decreases s.len() - i,
{
    if i < 0 || i >= s.len() {
        i
    } else if is_ws(s[i]) {
        ws_end(s, i + 1)
    } else {
        i
    }
}

pub proof fn lemma_ws_end_bounds(s: Seq<u8>, i: int)
    requires
        0 <= i <= s.len(),
    ensures
        i <= ws_end(s, i) <= s.len(),
    decreases s.len() - i,
{
    if i < s.len() && is_ws(s[i]) {
        lemma_ws_end_bounds(s, i + 1);
    }
}

pub fn skip_ws(s: &Vec<u8>, i: usize) -> (j: usize)
    requires
        i <= s@.len(),
    ensures
        j == ws_end(s@, i as int),
        i <= j <= s@.len(),
    decreases s@.len() - i,
{
    if i < s.len() && (s[i] == 32 || s[i] == 9 || s[i] == 10 || s[i] == 13) {
        skip_ws(s, i + 1)
    } else {
        i
    }
}

/// Index of the first non-digit byte at or after `i`.
pub open spec fn digits_end(s: Seq<u8>, i: int) -> int
    decreases s.len() - i,
{
    if i < 0 || i >= s.len() {
        i
    } else if is_digit(s[i]) {
        digits_end(s, i + 1)
    } else {
        i
    }
}

pub proof fn lemma_digits_end_bounds(s: Seq<u8>, i: int)
    requires
        0 <= i <= s.len(),
    ensures
        i <= digits_end(s, i) <= s.len(),
        all_digits(s.subrange(i, digits_end(s, i))),
    decreases s.len() - i,
{
    if i < s.len() && is_digit(s[i]) {
        lemma_digits_end_bounds(s, i + 1);
        assert forall|k: int| 0 <= k < s.subrange(i, digits_end(s, i)).len()
            implies is_digit(#[trigger] s.subrange(i, digits_end(s, i))[k]) by {
            if k > 0 {
                assert(s.subrange(i, digits_end(s, i))[k] == s.subrange(i + 1, digits_end(s, i + 1))[k - 1]);
            }
        }
    }
}

pub fn find_digits_end(s: &Vec<u8>, i: usize) -> (j: usize)
    requires
        i <= s@.len(),
    ensures
        j == digits_end(s@, i as int),
        i <= j <= s@.len(),
    decreases s@.len() - i,
{
    if i < s.len() && 48 <= s[i] && s[i] <= 57 {
        find_digits_end(s, i + 1)
    } else {
        i
    }
}

/// Replacement byte for the character after a backslash, for the escapes
/// this parser understands; `\uXXXX` is not among them.
pub open spec fn esc_byte(c: u8) -> Option<u8> {
    if c == QUOTE {
        Some(QUOTE)
    } else if c == BACKSLASH {
        Some(BACKSLASH)
    } else if c == SLASH {
        Some(SLASH)
    } else if c == 98 {
        Some(8u8)
    } else if c == 102 {
        Some(12u8)
    } else if c == 110 {
        Some(10u8)
    } else if c == 114 {
        Some(13u8)
    } else if c == 116 {
        Some(9u8)
    } else {
        None
    }
}

/// Content and end position of a string body starting at `i`, which is the
/// position right after the opening quote; the returned position is right
/// after the closing quote.
pub open spec fn parse_str_body(s: Seq<u8>, i: int) -> Option<(Seq<u8>, int)>
    decreases s.len() - i,
{
    if i < 0 || i >= s.len() {
        None
    } else if s[i] == QUOTE {
        Some((seq![], i + 1))
    } else if s[i] == BACKSLASH {
        if i + 1 < s.len() {
            match esc_byte(s[i + 1]) {
                Some(e) => match parse_str_body(s, i + 2) {
                    Some(p) => Some((seq![e] + p.0, p.1)),
                    None => None,
                },
                None => None,
            }
        } else {
            None
        }
    } else {
        match parse_str_body(s, i + 1) {
            Some(p) => Some((seq![s[i]] + p.0, p.1)),
            None => None,
        }
    }
}

pub proof fn lemma_str_body_bounds(s: Seq<u8>, i: int)
    requires
        0 <= i <= s.len(),
    ensures
        parse_str_body(s, i) matches Some(p) ==> i < p.1 <= s.len(),
    decreases s.len() - i,
{
    if i < s.len() {
        if s[i] == QUOTE {
        } else if s[i] == BACKSLASH {
            if i + 1 < s.len() {
                lemma_str_body_bounds(s, i + 2);
            }
        } else {
            lemma_str_body_bounds(s, i + 1);
        }
    }
}

pub fn read_str_body(s: &Vec<u8>, i: usize) -> (r: Option<(Vec<u8>, usize)>)
    requires
        i <= s@.len(),
    ensures
        match r {
            Some(p) => parse_str_body(s@, i as int) == Some((p.0@, p.1 as int))
                && i < p.1 <= s@.len(),
            None => parse_str_body(s@, i as int) is None,
        },
    decreases s@.len() - i,
{
    if i >= s.len() {
        None
    } else if s[i] == QUOTE {
        Some((Vec::new(), i + 1))
    } else if s[i] == BACKSLASH {
        if i + 1 < s.len() {
            let c = s[i + 1];
            let eo: Option<u8> = if c == QUOTE {
                Some(QUOTE)
            } else if c == BACKSLASH {
                Some(BACKSLASH)
            } else if c == SLASH {
                Some(SLASH)
            } else if c == 98 {
                Some(8)
            } else if c == 102 {
                Some(12)
            } else if c == 110 {
                Some(10)
            } else if c == 114 {
                Some(13)
            } else if c == 116 {
                Some(9)
            } else {
                None
            };
            match eo {
                None => None,
                Some(e) => match read_str_body(s, i + 2) {
                    Some(p) => {
                        let (mut t, j) = p;
                        t.insert(0, e);
                        Some((t, j))
                    },
                    None => None,
                },
            }
        } else {
            None
        }
    } else {
        let c = s[i];
        match read_str_body(s, i + 1) {
            Some(p) => {
                let (mut t, j) = p;
                t.insert(0, c);
                Some((t, j))
            },
            None => None,
        }
    }
}

/// An unsigned integer as a JSON number: a run of digits with no leading
/// zero, not followed by a fraction or exponent, whose value fits in `u64`.
pub open spec fn parse_json_u64(s: Seq<u8>, i: int) -> Option<(u64, int)> {
    let j = digits_end(s, i);
    if i < 0 || i >= s.len() {
        None
    } else if j == i {
        None
    } else if s[i] == 48 && j > i + 1 {
        None
    } else if j < s.len() && (s[j] == 46 || s[j] == 101 || s[j] == 69) {
        None
    } else if dec_value(s.subrange(i, j)) > u64::MAX {
        None
    } else {
        Some((dec_value(s.subrange(i, j)) as u64, j))
    }
}

/// Value of the digit run `s[i..j]`, or `None` when it exceeds `u64`.
pub fn dec_value_of(s: &Vec<u8>, i: usize, j: usize) -> (r: Option<u64>)
    requires
        i <= j <= s@.len(),
        all_digits(s@.subrange(i as int, j as int)),
    ensures
        match r {
            Some(v) => v == dec_value(s@.subrange(i as int, j as int))
                && dec_value(s@.subrange(i as int, j as int)) <= u64::MAX,
            None => dec_value(s@.subrange(i as int, j as int)) > u64::MAX,
        },
{
    let mut v: u64 = 0;
    let mut over: bool = false;
    let mut k: usize = i;
    while k < j
        invariant
            i <= k <= j <= s@.len(),
            all_digits(s@.subrange(i as int, j as int)),
            !over ==> v == dec_value(s@.subrange(i as int, k as int)),
            over ==> dec_value(s@.subrange(i as int, k as int)) > u64::MAX,
        decreases j - k,
    {
        assert(s@.subrange(i as int, j as int)[k - i] == s@[k as int]);
        let d: u8 = s[k] - 48;
        assert(s@.subrange(i as int, k as int + 1).drop_last() =~= s@.subrange(
            i as int,
            k as int,
        ));
        assert(dec_value(s@.subrange(i as int, k as int + 1)) == dec_value(
            s@.subrange(i as int, k as int),
        ) * 10 + d);
        if !over {
            if v > (u64::MAX - (d as u64)) / 10 {
                assert(v * 10 + d > u64::MAX) by (nonlinear_arith)
                    requires
                        v > (u64::MAX - (d as u64)) / 10,
                        d <= 9,
                        (u64::MAX - (d as u64)) / 10 == ((u64::MAX - (d as u64)) as int) / 10,
                {
                }
                over = true;
            } else {
                assert(v * 10 + d <= u64::MAX) by (nonlinear_arith)
                    requires
                        v <= (u64::MAX - (d as u64)) / 10,
                        d <= 9,
                        (u64::MAX - (d as u64)) / 10 == ((u64::MAX - (d as u64)) as int) / 10,
                {
                }
                v = v * 10 + (d as u64);
            }
        } else {
            assert(dec_value(s@.subrange(i as int, k as int)) * 10 + d > u64::MAX)
                by (nonlinear_arith)
                requires
                    dec_value(s@.subrange(i as int, k as int)) > u64::MAX,
                    d >= 0,
            {
            }
        }
        k = k + 1;
    }
    if over {
        None
    } else {
        Some(v)
    }
}

pub fn read_json_u64(s: &Vec<u8>, i: usize) -> (r: Option<(u64, usize)>)
    requires
        i <= s@.len(),
    ensures
        match r {
            Some(p) => parse_json_u64(s@, i as int) == Some((p.0, p.1 as int))
                && i < p.1 <= s@.len(),
            None => parse_json_u64(s@, i as int) is None,
        },
{
    if i >= s.len() {
        return None;
    }
    let j = find_digits_end(s, i);
    proof {
        lemma_digits_end_bounds(s@, i as int);
    }
    if j == i {
        return None;
    }
    if s[i] == 48 && j > i + 1 {
        return None;
    }
    if j < s.len() && (s[j] == 46 || s[j] == 101 || s[j] == 69) {
        return None;
    }
    match dec_value_of(s, i, j) {
        Some(v) => Some((v, j)),
        None => None,
    }
}

/// `true` or `false` starting at `i`.
pub open spec fn parse_bool(s: Seq<u8>, i: int) -> Option<(bool, int)> {
    if 0 <= i && i + 4 <= s.len() && s[i] == 116 && s[i + 1] == 114 && s[i + 2] == 117 && s[i + 3]
        == 101 {
        Some((true, i + 4))
    } else if 0 <= i && i + 5 <= s.len() && s[i] == 102 && s[i + 1] == 97 && s[i + 2] == 108 && s[i
        + 3] == 115 && s[i + 4] == 101 {
        Some((false, i + 5))
    } else {
        None
    }
}

pub fn read_bool(s: &Vec<u8>, i: usize) -> (r: Option<(bool, usize)>)
    requires
        i <= s@.len(),
    ensures
        match r {
            Some(p) => parse_bool(s@, i as int) == Some((p.0, p.1 as int))
                && i < p.1 <= s@.len(),
            None => parse_bool(s@, i as int) is None,
        },
{
    if s.len() - i >= 4 && s[i] == 116 && s[i + 1] == 114 && s[i + 2] == 117 && s[i + 3] == 101 {
        Some((true, i + 4))
    } else if s.len() - i >= 5 && s[i] == 102 && s[i + 1] == 97 && s[i + 2] == 108 && s[i + 3]
        == 115 && s[i + 4] == 101 {
        Some((false, i + 5))
    } else {
        None
    }
}

/// End of a primitive token (number or literal): the first byte at or after
/// `i` that is whitespace, a comma, or a closing brace or bracket.
pub open spec fn prim_end(s: Seq<u8>, i: int) -> int
    decreases s.len() - i,
{
    if i < 0 || i >= s.len() {
        i
    } else if is_ws(s[i]) || s[i] == COMMA || s[i] == RBRACE || s[i] == RBRACKET {
        i
    } else {
        prim_end(s, i + 1)
    }
}

pub proof fn lemma_prim_end_bounds(s: Seq<u8>, i: int)
    requires
        0 <= i <= s.len(),
    ensures
        i <= prim_end(s, i) <= s.len(),
    decreases s.len() - i,
{
    if i < s.len() && !(is_ws(s[i]) || s[i] == COMMA || s[i] == RBRACE || s[i] == RBRACKET) {
        lemma_prim_end_bounds(s, i + 1);
    }
}

pub fn find_prim_end(s: &Vec<u8>, i: usize) -> (j: usize)
    requires
        i <= s@.len(),
    ensures
        j == prim_end(s@, i as int),
        i <= j <= s@.len(),
    decreases s@.len() - i,
{
    if i < s.len() && !(s[i] == 32 || s[i] == 9 || s[i] == 10 || s[i] == 13 || s[i] == COMMA
        || s[i] == RBRACE || s[i] == RBRACKET) {
        find_prim_end(s, i + 1)
    } else {
        i
    }
}

/// Position right after the end of a balanced structure.  `stack` holds the
/// closing brackets still owed, innermost last; `in_str`/`esc` tell whether
/// scanning is inside a string, right after a backslash.  Brackets must
/// match; nothing else of the inner content is checked.
pub open spec fn skip_structured(s: Seq<u8>, i: int, stack: Seq<u8>, in_str: bool, esc: bool) -> Option<int>
    decreases s.len() - i,
{
    if i < 0 || i >= s.len() {
        None
    } else {
        let c = s[i];
        if in_str {
            if esc {
                skip_structured(s, i + 1, stack, true, false)
            } else if c == BACKSLASH {
                skip_structured(s, i + 1, stack, true, true)
            } else if c == QUOTE {
                if stack.len() == 0 {
                    Some(i + 1)
                } else {
                    skip_structured(s, i + 1, stack, false, false)
                }
            } else {
                skip_structured(s, i + 1, stack, true, false)
            }
        } else {
            if c == QUOTE {
                skip_structured(s, i + 1, stack, true, false)
            } else if c == LBRACE {
                skip_structured(s, i + 1, stack.push(RBRACE), false, false)
            } else if c == LBRACKET {
                skip_structured(s, i + 1, stack.push(RBRACKET), false, false)
            } else if c == RBRACE || c == RBRACKET {
                if stack.len() > 0 && stack.last() == c {
                    if stack.len() == 1 {
                        Some(i + 1)
                    } else {
                        skip_structured(s, i + 1, stack.drop_last(), false, false)
                    }
                } else {
                    None
                }
            } else {
                skip_structured(s, i + 1, stack, false, false)
            }
        }
    }
}

pub proof fn lemma_skip_structured_bounds(s: Seq<u8>, i: int, stack: Seq<u8>, in_str: bool, esc: bool)
    requires
        0 <= i <= s.len(),
    ensures
        skip_structured(s, i, stack, in_str, esc) matches Some(j) ==> i < j <= s.len(),
    decreases s.len() - i,
{
    if i < s.len() {
        let c = s[i];
        if in_str {
            if esc {
                lemma_skip_structured_bounds(s, i + 1, stack, true, false);
            } else if c == BACKSLASH {
                lemma_skip_structured_bounds(s, i + 1, stack, true, true);
            } else if c == QUOTE {
                lemma_skip_structured_bounds(s, i + 1, stack, false, false);
            } else {
                lemma_skip_structured_bounds(s, i + 1, stack, true, false);
            }
        } else {
            if c == QUOTE {
                lemma_skip_structured_bounds(s, i + 1, stack, true, false);
            } else if c == LBRACE {
                lemma_skip_structured_bounds(s, i + 1, stack.push(RBRACE), false, false);
            } else if c == LBRACKET {
                lemma_skip_structured_bounds(s, i + 1, stack.push(RBRACKET), false, false);
            } else if c == RBRACE || c == RBRACKET {
                if stack.len() > 1 && stack.last() == c {
                    lemma_skip_structured_bounds(s, i + 1, stack.drop_last(), false, false);
                }
            } else {
                lemma_skip_structured_bounds(s, i + 1, stack, false, false);
            }
        }
    }
}

/// Position right after a whole value whose content the schema does not
/// inspect: a string, a balanced object or array, or a primitive token.
pub open spec fn skip_value(s: Seq<u8>, i: int) -> Option<int> {
    if i < 0 || i >= s.len() {
        None
    } else if s[i] == QUOTE {
        skip_structured(s, i + 1, seq![], true, false)
    } else if s[i] == LBRACE {
        skip_structured(s, i + 1, seq![RBRACE], false, false)
    } else if s[i] == LBRACKET {
        skip_structured(s, i + 1, seq![RBRACKET], false, false)
    } else if prim_end(s, i) == i {
        None
    } else {
        Some(prim_end(s, i))
    }
}

#[verifier::loop_isolation(false)]
pub fn do_skip_structured(s: &Vec<u8>, i: usize, stack0: Vec<u8>, in_str0: bool, esc0: bool) -> (r:
    Option<usize>)
    requires
        i <= s@.len(),
    ensures
        match r {
            Some(j) => skip_structured(s@, i as int, stack0@, in_str0, esc0) == Some(j as int)
                && i < j <= s@.len(),
            None => skip_structured(s@, i as int, stack0@, in_str0, esc0) is None,
        },
{
    let ghost s0 = stack0@;
    let mut stack = stack0;
    let mut in_str = in_str0;
    let mut esc = esc0;
    let mut k: usize = i;
    loop
        invariant
            i <= k <= s@.len(),
            skip_structured(s@, i as int, s0, in_str0, esc0) == skip_structured(
                s@,
                k as int,
                stack@,
                in_str,
                esc,
            ),
        decreases s@.len() - k,
    {
        if k >= s.len() {
            assert(skip_structured(s@, k as int, stack@, in_str, esc) is None);
            return None;
        }
        let ghost pre_stack = stack@;
        let ghost pre_in = in_str;
        let ghost pre_esc = esc;
        let c = s[k];
        if in_str {
            if esc {
                esc = false;
            } else if c == BACKSLASH {
                esc = true;
            } else if c == QUOTE {
                if stack.len() == 0 {
                    assert(skip_structured(s@, k as int, stack@, in_str, esc) == Some(
                        k as int + 1,
                    ));
                    return Some(k + 1);
                } else {
                    in_str = false;
                }
            }
        } else {
            esc = false;
            if c == QUOTE {
                in_str = true;
            } else if c == LBRACE {
                stack.push(RBRACE);
            } else if c == LBRACKET {
                stack.push(RBRACKET);
            } else if c == RBRACE || c == RBRACKET {
                if stack.len() > 0 && stack[stack.len() - 1] == c {
                    if stack.len() == 1 {
                        assert(skip_structured(s@, k as int, stack@, in_str, esc) == Some(
                            k as int + 1,
                        ));
                        return Some(k + 1);
                    } else {
                        let _ = stack.pop();
                    }
                } else {
                    assert(skip_structured(s@, k as int, stack@, in_str, esc) is None);
                    return None;
                }
            }
        }
        assert(skip_structured(s@, k as int, pre_stack, pre_in, pre_esc) == skip_structured(
            s@,
            k as int + 1,
            stack@,
            in_str,
            esc,
        ));
        k = k + 1;
    }
}

pub fn do_skip_value(s: &Vec<u8>, i: usize) -> (r: Option<usize>)
    requires
        i <= s@.len(),
    ensures
        match r {
            Some(j) => skip_value(s@, i as int) == Some(j as int) && i < j <= s@.len(),
            None => skip_value(s@, i as int) is None,
        },
{
    if i >= s.len() {
        None
    } else if s[i] == QUOTE {
        do_skip_structured(s, i + 1, Vec::new(), true, false)
    } else if s[i] == LBRACE {
        let mut st: Vec<u8> = Vec::new();
        st.push(RBRACE);
        assert(st@ =~= seq![RBRACE]);
        do_skip_structured(s, i + 1, st, false, false)
    } else if s[i] == LBRACKET {
        let mut st: Vec<u8> = Vec::new();
        st.push(RBRACKET);
        assert(st@ =~= seq![RBRACKET]);
        do_skip_structured(s, i + 1, st, false, false)
    } else {
        let j = find_prim_end(s, i);
        if j == i {
            None
        } else {
            Some(j)
        }
    }
}

/// A two-element array of unsigned integers, `[start, duration]`, beginning
/// at `i` (after surrounding whitespace is skipped by the caller of the
/// object grammar: this parser itself allows whitespace around its tokens).
pub open spec fn parse_pair(s: Seq<u8>, i: int) -> Option<((u64, u64), int)> {
    let j = ws_end(s, i);
    if 0 <= j < s.len() && s[j] == LBRACKET {
        match parse_json_u64(s, ws_end(s, j + 1)) {
            None => None,
            Some((a, p1)) => {
                let p2 = ws_end(s, p1);
                if p2 < s.len() && s[p2] == COMMA {
                    match parse_json_u64(s, ws_end(s, p2 + 1)) {
                        None => None,
                        Some((b, p3)) => {
                            let p4 = ws_end(s, p3);
                            if p4 < s.len() && s[p4] == RBRACKET {
                                Some(((a, b), p4 + 1))
                            } else {
                                None
                            }
                        },
                    }
                } else {
                    None
                }
            },
        }
    } else {
        None
    }
}

pub fn read_pair(s: &Vec<u8>, i: usize) -> (r: Option<((u64, u64), usize)>)
    requires
        i <= s@.len(),
    ensures
        match r {
            Some(p) => parse_pair(s@, i as int) == Some((p.0, p.1 as int)) && i < p.1 <= s@.len(),
            None => parse_pair(s@, i as int) is None,
        },
{
    let j = skip_ws(s, i);
    if j < s.len() && s[j] == LBRACKET {
        let k0 = skip_ws(s, j + 1);
        match read_json_u64(s, k0) {
            None => None,
            Some((a, p1)) => {
                let p2 = skip_ws(s, p1);
                if p2 < s.len() && s[p2] == COMMA {
                    let k1 = skip_ws(s, p2 + 1);
                    match read_json_u64(s, k1) {
                        None => None,
                        Some((b, p3)) => {
                            let p4 = skip_ws(s, p3);
                            if p4 < s.len() && s[p4] == RBRACKET {
                                Some(((a, b), p4 + 1))
                            } else {
                                None
                            }
                        },
                    }
                } else {
                    None
                }
            },
        }
    } else {
        None
    }
}

pub proof fn lemma_parse_pair_bounds(s: Seq<u8>, i: int)
    requires
        0 <= i <= s.len(),
    ensures
        parse_pair(s, i) matches Some(p) ==> i < p.1 <= s.len(),
{
    lemma_ws_end_bounds(s, i);
    let j = ws_end(s, i);
    if 0 <= j < s.len() && s[j] == LBRACE {
    }
    if parse_pair(s, i) is Some {
        lemma_ws_end_bounds(s, j + 1);
        let k0 = ws_end(s, j + 1);
        lemma_digits_end_bounds(s, k0);
        let p1 = digits_end(s, k0);
        lemma_ws_end_bounds(s, p1);
        let p2 = ws_end(s, p1);
        lemma_ws_end_bounds(s, p2 + 1);
        let k1 = ws_end(s, p2 + 1);
        lemma_digits_end_bounds(s, k1);
        let p3 = digits_end(s, k1);
        lemma_ws_end_bounds(s, p3);
    }
}

} // verus!

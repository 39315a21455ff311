//! Parsing a text frame into a wire value.
//!
//! The grammar is the envelope's interchange format: `null`, `true`, `false`,
//! integers of at most eighteen digits, strings without escape sequences,
//! arrays and objects, with blanks between tokens. The spec functions below
//! state the grammar; the executable parser is proved to return exactly what
//! they denote. A frame the grammar refuses is a malformed frame: the
//! dispatcher answers it with an error envelope rather than failing.

use vstd::prelude::*;
use vstd::string::*;

use crate::value::JsonValue;
use crate::value::SpecValue;
use crate::value::view_val;
use crate::value::view_list;
use crate::value::view_pairs;

verus! {

/// A blank: space, tab, or line break.
pub open spec fn is_ws(c: char) -> bool {
    c == ' ' || c == '\t' || c == '\n' || c == '\r'
}

/// A decimal digit.
pub open spec fn is_digit(c: char) -> bool {
    48 <= c as u32 && c as u32 <= 57
}

/// Numeric value of a digit character.
pub open spec fn digit_val(c: char) -> int {
    c as u32 - 48
}

/// First position at or after `i` that does not hold a blank.
pub open spec fn skip_ws(s: Seq<char>, i: int) -> int
    decreases s.len() - i,
{
    if 0 <= i && i < s.len() && is_ws(s[i]) {
        skip_ws(s, i + 1)
    } else {
        i
    }
}

/// First position at or after `i` that does not hold a digit.
pub open spec fn digits_end(s: Seq<char>, i: int) -> int
    decreases s.len() - i,
{
    if 0 <= i && i < s.len() && is_digit(s[i]) {
        digits_end(s, i + 1)
    } else {
        i
    }
}

pub proof fn lemma_digits_end(s: Seq<char>, i: int)
    requires
        0 <= i <= s.len(),
    ensures
        i <= digits_end(s, i) <= s.len(),
        forall|k: int| i <= k < digits_end(s, i) ==> is_digit(s[k]),
    decreases s.len() - i,
{
    if i < s.len() && is_digit(s[i]) {
        lemma_digits_end(s, i + 1);
    }
}

/// Value of the digit run `s[i .. j)`, most significant digit first.
pub open spec fn num_val(s: Seq<char>, i: int, j: int) -> int
    decreases j - i,
{
    if i < j {
        num_val(s, i, j - 1) * 10 + digit_val(s[j - 1])
    } else {
        0
    }
}

/// Ten to the `n`.
pub open spec fn pow10(n: nat) -> int
    decreases n,
{
    if n == 0 {
        1
    } else {
        10 * pow10((n - 1) as nat)
    }
}

/// A number: an optional minus sign, then one to eighteen digits. Eighteen
/// digits always fit the machine integer the parser returns; a longer run is
/// refused.
pub open spec fn parse_num(s: Seq<char>, i: int) -> Option<(SpecValue, int)> {
    if 0 <= i && i < s.len() {
        let neg = s[i] == '-';
        let d0 = if neg {
            i + 1
        } else {
            i
        };
        let j = digits_end(s, d0);
        if d0 < j && j - d0 <= 18 {
            let m = num_val(s, d0, j);
            Some(
                (
                    SpecValue::Int(
                        if neg {
                            -m
                        } else {
                            m
                        },
                    ),
                    j,
                ),
            )
        } else {
            None
        }
    } else {
        None
    }
}

/// Position of the closing quote of a string body that starts at `i`, if the
/// body is well formed: it ends before the text does and holds no backslash.
pub open spec fn str_body_end(s: Seq<char>, i: int) -> Option<int>
    decreases s.len() - i,
{
    if 0 <= i && i < s.len() {
        if s[i] == '"' {
            Some(i)
        } else if s[i] == '\\' {
            None
        } else {
            str_body_end(s, i + 1)
        }
    } else {
        None
    }
}

pub proof fn lemma_str_body_end(s: Seq<char>, i: int)
    requires
        0 <= i <= s.len(),
    ensures
        str_body_end(s, i) matches Some(j) ==> i <= j < s.len() && s[j] == '"',
    decreases s.len() - i,
{
    if i < s.len() && s[i] != '"' && s[i] != '\\' {
        lemma_str_body_end(s, i + 1);
    }
}

/// A string: a quote, a body without quotes or backslashes, a quote. The
/// result is the body.
pub open spec fn parse_string(s: Seq<char>, i: int) -> Option<(Seq<char>, int)> {
    if 0 <= i && i < s.len() && s[i] == '"' {
        match str_body_end(s, i + 1) {
            Some(j) => Some((s.subrange(i + 1, j), j + 1)),
            None => None,
        }
    } else {
        None
    }
}

/// A value at position `i`: one of the literal words, a number, a string, an
/// array or an object. The result carries the position just past the value.
///
/// The bound checks on intermediate positions can never fail — later lemmas
/// rely on the parse consuming at least one character — but stating them in
/// the definition lets each recursive call stand on a strictly later
/// position.
pub open spec fn parse_value(s: Seq<char>, i: int) -> Option<(SpecValue, int)>
    decreases s.len() - i, 0int,
{
    if 0 <= i && i < s.len() {
        let c = s[i];
        if c == 'n' {
            if i + 4 <= s.len() && s[i + 1] == 'u' && s[i + 2] == 'l' && s[i + 3] == 'l' {
                Some((SpecValue::Null, i + 4))
            } else {
                None
            }
        } else if c == 't' {
            if i + 4 <= s.len() && s[i + 1] == 'r' && s[i + 2] == 'u' && s[i + 3] == 'e' {
                Some((SpecValue::Bool(true), i + 4))
            } else {
                None
            }
        } else if c == 'f' {
            if i + 5 <= s.len() && s[i + 1] == 'a' && s[i + 2] == 'l' && s[i + 3] == 's' && s[i + 4]
                == 'e' {
                Some((SpecValue::Bool(false), i + 5))
            } else {
                None
            }
        } else if c == '"' {
            match parse_string(s, i) {
                Some((body, e)) => Some((SpecValue::Str(body), e)),
                None => None,
            }
        } else if c == '-' || is_digit(c) {
            parse_num(s, i)
        } else if c == '[' {
            let j = skip_ws(s, i + 1);
            if j < s.len() && s[j] == ']' {
                Some((SpecValue::Arr(Seq::empty()), j + 1))
            } else {
                match parse_elems(s, i + 1) {
                    Some((els, e)) => Some((SpecValue::Arr(els), e)),
                    None => None,
                }
            }
        } else if c == '{' {
            let j = skip_ws(s, i + 1);
            if j < s.len() && s[j] == '}' {
                Some((SpecValue::Obj(Seq::empty()), j + 1))
            } else {
                match parse_members(s, i + 1) {
                    Some((ps, e)) => Some((SpecValue::Obj(ps), e)),
                    None => None,
                }
            }
        } else {
            None
        }
    } else {
        None
    }
}

/// The elements of an array from position `i` (blanks allowed first) up to
/// and including the closing bracket.
pub open spec fn parse_elems(s: Seq<char>, i: int) -> Option<(Seq<SpecValue>, int)>
    decreases s.len() - i, 1int,
{
    if 0 <= i && i <= s.len() {
        let i0 = skip_ws(s, i);
        if i <= i0 && i0 < s.len() {
            match parse_value(s, i0) {
                Some((v, e)) => {
                    let k = skip_ws(s, e);
                    if i0 < e && e <= k && k < s.len() {
                        if s[k] == ']' {
                            Some((seq![v], k + 1))
                        } else if s[k] == ',' {
                            match parse_elems(s, k + 1) {
                                Some((rest, e2)) => Some((seq![v] + rest, e2)),
                                None => None,
                            }
                        } else {
                            None
                        }
                    } else {
                        None
                    }
                },
                None => None,
            }
        } else {
            None
        }
    } else {
        None
    }
}

/// The fields of an object from position `i` (blanks allowed first) up to
/// and including the closing brace. Each field is a string key, a colon and
/// a value.
pub open spec fn parse_members(s: Seq<char>, i: int) -> Option<
    (Seq<(Seq<char>, SpecValue)>, int),
>
    decreases s.len() - i, 1int,
{
    if 0 <= i && i <= s.len() {
        let i0 = skip_ws(s, i);
        if i <= i0 && i0 < s.len() {
            match parse_string(s, i0) {
                Some((key, ek)) => {
                    let c = skip_ws(s, ek);
                    if i0 < ek && ek <= c && c < s.len() && s[c] == ':' {
                        let v0 = skip_ws(s, c + 1);
                        if c < v0 && v0 < s.len() {
                            match parse_value(s, v0) {
                                Some((v, e)) => {
                                    let k = skip_ws(s, e);
                                    if v0 < e && e <= k && k < s.len() {
                                        if s[k] == '}' {
                                            Some((seq![(key, v)], k + 1))
                                        } else if s[k] == ',' {
                                            match parse_members(s, k + 1) {
                                                Some((rest, e2)) => Some(
                                                    (seq![(key, v)] + rest, e2),
                                                ),
                                                None => None,
                                            }
                                        } else {
                                            None
                                        }
                                    } else {
                                        None
                                    }
                                },
                                None => None,
                            }
                        } else {
                            None
                        }
                    } else {
                        None
                    }
                },
                None => None,
            }
        } else {
            None
        }
    } else {
        None
    }
}

pub proof fn lemma_pow10_pos(n: nat)
    ensures
        pow10(n) >= 1,
    decreases n,
{
    if n > 0 {
        lemma_pow10_pos((n - 1) as nat);
    }
}

pub proof fn lemma_pow10_mono(a: nat, b: nat)
    requires
        a <= b,
    ensures
        1 <= pow10(a) <= pow10(b),
    decreases b,
{
    lemma_pow10_pos(a);
    if a < b {
        lemma_pow10_mono(a, (b - 1) as nat);
    }
}

pub proof fn lemma_pow10_18()
    ensures
        pow10(18) == 1000000000000000000,
{
    reveal_with_fuel(pow10, 19);
}

/// First position at or after `i` that does not hold a blank.
fn skip_ws_x(s: &str, i: usize) -> (j: usize)
    requires
        i as int <= s@.len(),
    ensures
        j as int == skip_ws(s@, i as int),
        i <= j,
        j as int <= s@.len(),
    decreases s@.len() - i,
{
    let n = s.unicode_len();
    if i < n {
        let c = s.get_char(i);
        if c == ' ' || c == '\t' || c == '\n' || c == '\r' {
            return skip_ws_x(s, i + 1);
        }
    }
    i
}

/// First position at or after `i` that does not hold a digit.
fn digits_end_x(s: &str, i: usize) -> (j: usize)
    requires
        i as int <= s@.len(),
    ensures
        j as int == digits_end(s@, i as int),
        i <= j,
        j as int <= s@.len(),
    decreases s@.len() - i,
{
    let n = s.unicode_len();
    if i < n {
        let c = s.get_char(i);
        if 48 <= c as u32 && c as u32 <= 57 {
            return digits_end_x(s, i + 1);
        }
    }
    i
}

/// Value of the digit run `s[d0 .. j)`.
fn digits_val_x(s: &str, d0: usize, j: usize) -> (m: u64)
    requires
        d0 as int <= j as int <= s@.len(),
        j - d0 <= 18,
        forall|t: int| d0 as int <= t < j as int ==> is_digit(s@[t]),
    ensures
        m as int == num_val(s@, d0 as int, j as int),
        (m as int) < pow10((j - d0) as nat),
{
    let mut k = d0;
    let mut acc: u64 = 0;
    while k < j
        invariant
            d0 <= k <= j,
            j as int <= s@.len(),
            j - d0 <= 18,
            forall|t: int| d0 as int <= t < j as int ==> is_digit(s@[t]),
            acc as int == num_val(s@, d0 as int, k as int),
            (acc as int) < pow10((k - d0) as nat),
        decreases j - k,
    {
        let c = s.get_char(k);
        let d = (c as u32) - 48;
        proof {
            lemma_pow10_mono(((k - d0) as nat) + 1, 18);
            lemma_pow10_18();
        }
        acc = acc * 10 + (d as u64);
        k += 1;
    }
    acc
}

/// A number at position `i`, as the grammar's [`parse_num`] defines it.
fn parse_num_x(s: &str, i: usize) -> (r: Option<(JsonValue, usize)>)
    requires
        i as int <= s@.len(),
    ensures
        match r {
            Some(p) => parse_num(s@, i as int) == Some((view_val(p.0), p.1 as int)) && i < p.1
                && p.1 as int <= s@.len(),
            None => parse_num(s@, i as int) is None,
        },
{
    let n = s.unicode_len();
    if i >= n {
        return None;
    }
    let c = s.get_char(i);
    let neg = c == '-';
    let d0 = if neg {
        i + 1
    } else {
        i
    };
    let j = digits_end_x(s, d0);
    proof {
        lemma_digits_end(s@, d0 as int);
    }
    if j == d0 || j - d0 > 18 {
        return None;
    }
    let m = digits_val_x(s, d0, j);
    proof {
        lemma_pow10_mono((j - d0) as nat, 18);
        lemma_pow10_18();
    }
    let v: i64 = if neg {
        -(m as i64)
    } else {
        m as i64
    };
    Some((JsonValue::Int(v), j))
}

/// Position of the closing quote of a string body, as [`str_body_end`]
/// defines it.
fn str_end_x(s: &str, i: usize) -> (r: Option<usize>)
    requires
        i as int <= s@.len(),
    ensures
        match r {
            Some(j) => str_body_end(s@, i as int) == Some(j as int) && i <= j && (j as int)
                < s@.len(),
            None => str_body_end(s@, i as int) is None,
        },
    decreases s@.len() - i,
{
    let n = s.unicode_len();
    if i >= n {
        return None;
    }
    let c = s.get_char(i);
    if c == '"' {
        Some(i)
    } else if c == '\\' {
        None
    } else {
        str_end_x(s, i + 1)
    }
}

/// A string at position `i`, as the grammar's [`parse_string`] defines it.
fn parse_string_x(s: &str, i: usize) -> (r: Option<(String, usize)>)
    requires
        i as int <= s@.len(),
    ensures
        match r {
            Some(p) => parse_string(s@, i as int) == Some((p.0@, p.1 as int)) && i < p.1
                && p.1 as int <= s@.len(),
            None => parse_string(s@, i as int) is None,
        },
{
    let n = s.unicode_len();
    if i >= n {
        return None;
    }
    if s.get_char(i) != '"' {
        return None;
    }
    match str_end_x(s, i + 1) {
        Some(j) => {
            let body = s.substring_char(i + 1, j);
            let out = String::from_str(body);
            Some((out, j + 1))
        },
        None => None,
    }
}

/// A value at position `i`, as the grammar's [`parse_value`] defines it.
pub fn parse_value_x(s: &str, i: usize) -> (r: Option<(JsonValue, usize)>)
    requires
        i as int <= s@.len(),
    ensures
        match r {
            Some(p) => parse_value(s@, i as int) == Some((view_val(p.0), p.1 as int)) && i < p.1
                && p.1 as int <= s@.len(),
            None => parse_value(s@, i as int) is None,
        },
    decreases s@.len() - i, 0int,
{
    let n = s.unicode_len();
    if i >= n {
        return None;
    }
    let c = s.get_char(i);
    if c == 'n' {
        if n - i >= 4 && s.get_char(i + 1) == 'u' && s.get_char(i + 2) == 'l' && s.get_char(i + 3)
            == 'l' {
            Some((JsonValue::Null, i + 4))
        } else {
            None
        }
    } else if c == 't' {
        if n - i >= 4 && s.get_char(i + 1) == 'r' && s.get_char(i + 2) == 'u' && s.get_char(i + 3)
            == 'e' {
            Some((JsonValue::Bool(true), i + 4))
        } else {
            None
        }
    } else if c == 'f' {
        if n - i >= 5 && s.get_char(i + 1) == 'a' && s.get_char(i + 2) == 'l' && s.get_char(i + 3)
            == 's' && s.get_char(i + 4) == 'e' {
            Some((JsonValue::Bool(false), i + 5))
        } else {
            None
        }
    } else if c == '"' {
        match parse_string_x(s, i) {
            Some((body, e)) => Some((JsonValue::Str(body), e)),
            None => None,
        }
    } else if c == '-' || (48 <= c as u32 && c as u32 <= 57) {
        parse_num_x(s, i)
    } else if c == '[' {
        let j = skip_ws_x(s, i + 1);
        if j < n && s.get_char(j) == ']' {
            Some((JsonValue::Arr(Vec::new()), j + 1))
        } else {
            match parse_elems_x(s, i + 1) {
                Some((els, e)) => Some((JsonValue::Arr(els), e)),
                None => None,
            }
        }
    } else if c == '{' {
        let j = skip_ws_x(s, i + 1);
        if j < n && s.get_char(j) == '}' {
            Some((JsonValue::Obj(Vec::new()), j + 1))
        } else {
            match parse_members_x(s, i + 1) {
                Some((ps, e)) => Some((JsonValue::Obj(ps), e)),
                None => None,
            }
        }
    } else {
        None
    }
}

/// The elements of an array, as the grammar's [`parse_elems`] defines them.
fn parse_elems_x(s: &str, i: usize) -> (r: Option<(Vec<JsonValue>, usize)>)
    requires
        i as int <= s@.len(),
    ensures
        match r {
            Some(p) => parse_elems(s@, i as int) == Some((view_list(p.0@), p.1 as int)) && i < p.1
                && p.1 as int <= s@.len(),
            None => parse_elems(s@, i as int) is None,
        },
    decreases s@.len() - i, 1int,
{
    let n = s.unicode_len();
    let i0 = skip_ws_x(s, i);
    if i0 >= n {
        return None;
    }
    match parse_value_x(s, i0) {
        Some((v, e)) => {
            let k = skip_ws_x(s, e);
            if k >= n {
                return None;
            }
            let kc = s.get_char(k);
            if kc == ']' {
                let ghost gv = v;
                let mut out: Vec<JsonValue> = Vec::new();
                out.push(v);
                proof {
                    assert(out@ =~= seq![gv]);
                    crate::value::lemma_view_list_one(gv);
                }
                Some((out, k + 1))
            } else if kc == ',' {
                match parse_elems_x(s, k + 1) {
                    Some((rest, e2)) => {
                        let ghost gv = v;
                        let ghost rest0 = rest@;
                        let mut rest = rest;
                        rest.insert(0, v);
                        proof {
                            assert(rest@ =~= seq![gv] + rest0);
                            crate::value::lemma_view_list_cons(gv, rest0);
                        }
                        Some((rest, e2))
                    },
                    None => None,
                }
            } else {
                None
            }
        },
        None => None,
    }
}

/// The fields of an object, as the grammar's [`parse_members`] defines them.
fn parse_members_x(s: &str, i: usize) -> (r: Option<(Vec<(String, JsonValue)>, usize)>)
    requires
        i as int <= s@.len(),
    ensures
        match r {
            Some(p) => parse_members(s@, i as int) == Some((view_pairs(p.0@), p.1 as int)) && i
                < p.1 && p.1 as int <= s@.len(),
            None => parse_members(s@, i as int) is None,
        },
    decreases s@.len() - i, 1int,
{
    let n = s.unicode_len();
    let i0 = skip_ws_x(s, i);
    if i0 >= n {
        return None;
    }
    match parse_string_x(s, i0) {
        Some((key, ek)) => {
            let c = skip_ws_x(s, ek);
            if c >= n {
                return None;
            }
            if s.get_char(c) != ':' {
                return None;
            }
            let v0 = skip_ws_x(s, c + 1);
            if v0 >= n {
                return None;
            }
            match parse_value_x(s, v0) {
                Some((v, e)) => {
                    let k = skip_ws_x(s, e);
                    if k >= n {
                        return None;
                    }
                    let kc = s.get_char(k);
                    if kc == '}' {
                        let ghost gk = key;
                        let ghost gv = v;
                        let mut out: Vec<(String, JsonValue)> = Vec::new();
                        out.push((key, v));
                        proof {
                            assert(out@ =~= seq![(gk, gv)]);
                            crate::value::lemma_view_pairs_one(gk, gv);
                        }
                        Some((out, k + 1))
                    } else if kc == ',' {
                        match parse_members_x(s, k + 1) {
                            Some((rest, e2)) => {
                                let ghost gk = key;
                                let ghost gv = v;
                                let ghost rest0 = rest@;
                                let mut rest = rest;
                                rest.insert(0, (key, v));
                                proof {
                                    assert(rest@ =~= seq![(gk, gv)] + rest0);
                                    crate::value::lemma_view_pairs_cons(gk, gv, rest0);
                                }
                                Some((rest, e2))
                            },
                            None => None,
                        }
                    } else {
                        None
                    }
                },
                None => None,
            }
        },
        None => None,
    }
}

/// Parse a whole text frame, as the grammar's [`parse_text`] defines it.
pub fn parse_text_x(s: &str) -> (r: Option<JsonValue>)
    ensures
        match r {
            Some(v) => parse_text(s@) == Some(view_val(v)),
            None => parse_text(s@) is None,
        },
{
    let n = s.unicode_len();
    let i = skip_ws_x(s, 0);
    if i >= n {
        return None;
    }
    match parse_value_x(s, i) {
        Some((v, e)) => {
            let t = skip_ws_x(s, e);
            if t == n {
                Some(v)
            } else {
                None
            }
        },
        None => None,
    }
}

/// A whole text frame: one value, possibly surrounded by blanks, and
/// nothing after it.
pub open spec fn parse_text(s: Seq<char>) -> Option<SpecValue> {
    let i = skip_ws(s, 0);
    if 0 <= i && i < s.len() {
        match parse_value(s, i) {
            Some((v, e)) => {
                if 0 <= e <= s.len() && skip_ws(s, e) == s.len() {
                    Some(v)
                } else {
                    None
                }
            },
            None => None,
        }
    } else {
        None
    }
}

} // verus!

//! A verified parser for the payload object embedded in the rebuilt packer
//! text.
//!
//! The payload grammar is a restriction of JSON that covers exactly what the
//! packer emits: one object whose member values are scalars (string, integer,
//! boolean, null), arrays of scalars, or objects of scalar members. Strings
//! know the escapes `\" \\ \/ \b \f \n \r \t`; numbers are integers that fit
//! a 64-bit signed value. Anything outside this grammar is rejected.

use vstd::prelude::*;

use crate::decrypt::{
    digit_run_end, is_digit, lemma_digit_run_digits, lemma_digits_val_prefix_le, spec_all_digits,
    spec_digit_run_end, spec_digits_val, spec_is_digit,
};

verus! {

/// A scalar payload value, as mathematics.
#[verifier::ext_equal]
pub enum JsonScalarV {
    Null,
    Bool(bool),
    Int(int),
    Str(Seq<char>),
}

/// A payload member value, as mathematics.
#[verifier::ext_equal]
pub enum JsonValueV {
    Scalar(JsonScalarV),
    Arr(Seq<JsonScalarV>),
    Obj(Seq<(Seq<char>, JsonScalarV)>),
}

/// A scalar payload value.
pub enum JsonScalar {
    Null,
    Bool(bool),
    Int(i64),
    Str(Vec<char>),
}

/// A payload member value.
pub enum JsonValue {
    Scalar(JsonScalar),
    Arr(Vec<JsonScalar>),
    Obj(Vec<(Vec<char>, JsonScalar)>),
}

impl JsonScalar {
    /// The mathematical value of a scalar.
    pub open spec fn view(&self) -> JsonScalarV {
        match self {
            JsonScalar::Null => JsonScalarV::Null,
            JsonScalar::Bool(b) => JsonScalarV::Bool(*b),
            JsonScalar::Int(n) => JsonScalarV::Int(*n as int),
            JsonScalar::Str(t) => JsonScalarV::Str(t@),
        }
    }
}

impl JsonValue {
    /// The mathematical value of a member value.
    pub open spec fn view(&self) -> JsonValueV {
        match self {
            JsonValue::Scalar(sc) => JsonValueV::Scalar(sc.view()),
            JsonValue::Arr(items) => JsonValueV::Arr(
                Seq::new(items@.len(), |i: int| items@[i].view()),
            ),
            JsonValue::Obj(members) => JsonValueV::Obj(
                Seq::new(members@.len(), |i: int| (members@[i].0@, members@[i].1.view())),
            ),
        }
    }
}

/// JSON whitespace.
pub open spec fn spec_is_json_ws(c: char) -> bool {
    c as int == 32 || c as int == 9 || c as int == 13 || c as int == 10
}

pub fn is_json_ws(c: char) -> (r: bool)
    ensures
        r == spec_is_json_ws(c),
{
    let u = c as u32;
    u == 32 || u == 9 || u == 13 || u == 10
}

/// First position at or after `i` that does not hold whitespace.
pub open spec fn spec_skip_ws(s: Seq<char>, i: int) -> int
    recommends
        0 <= i <= s.len(),
    decreases s.len() - i,
{
    if i >= s.len() || !spec_is_json_ws(s[i]) {
        i
    } else {
        spec_skip_ws(s, i + 1)
    }
}

proof fn lemma_skip_ws_bounds(s: Seq<char>, i: int)
    requires
        0 <= i <= s.len(),
    ensures
        i <= spec_skip_ws(s, i) <= s.len(),
    decreases s.len() - i,
{
    if !(i >= s.len() || !spec_is_json_ws(s[i])) {
        lemma_skip_ws_bounds(s, i + 1);
    }
}

pub fn skip_ws(s: &Vec<char>, i: usize) -> (r: usize)
    requires
        i <= s@.len(),
    ensures
        r == spec_skip_ws(s@, i as int),
        i <= r <= s@.len(),
{
    proof {
        lemma_skip_ws_bounds(s@, i as int);
    }
    let mut j = i;
    while j < s.len() && is_json_ws(s[j])
        invariant
            i <= j <= s@.len(),
            spec_skip_ws(s@, i as int) == spec_skip_ws(s@, j as int),
        decreases s@.len() - j,
    {
        j = j + 1;
    }
    j
}

/// The character an escape letter stands for, if the escape is known.
pub open spec fn spec_escape_char(c: char) -> Option<char> {
    if c == '"' {
        Some('"')
    } else if c == '\\' {
        Some('\\')
    } else if c == '/' {
        Some('/')
    } else if c == 'b' {
        Some('\u{8}')
    } else if c == 'f' {
        Some('\u{c}')
    } else if c == 'n' {
        Some('\n')
    } else if c == 'r' {
        Some('\r')
    } else if c == 't' {
        Some('\t')
    } else {
        None
    }
}

pub fn escape_char(c: char) -> (r: Option<char>)
    ensures
        r == spec_escape_char(c),
{
    if c == '"' {
        Some('"')
    } else if c == '\\' {
        Some('\\')
    } else if c == '/' {
        Some('/')
    } else if c == 'b' {
        Some('\u{8}')
    } else if c == 'f' {
        Some('\u{c}')
    } else if c == 'n' {
        Some('\n')
    } else if c == 'r' {
        Some('\r')
    } else if c == 't' {
        Some('\t')
    } else {
        None
    }
}

/// A raw control character, which JSON forbids inside strings.
pub fn is_control(c: char) -> (r: bool)
    ensures
        r == ((c as int) < 32),
{
    let u = c as u32;
    u < 32
}

/// The text and end position of a string body starting at `i`, which is the
/// position right after the opening quote. The returned position is right
/// after the closing quote. Raw control characters and unknown escapes are
/// rejected.
pub open spec fn spec_parse_string_body(s: Seq<char>, i: int) -> Option<(Seq<char>, int)>
    recommends
        0 <= i <= s.len(),
    decreases s.len() - i,
{
    if i < 0 || i >= s.len() {
        None
    } else if s[i] == '"' {
        Some((Seq::empty(), i + 1))
    } else if s[i] == '\\' {
        if i + 1 >= s.len() {
            None
        } else {
            match spec_escape_char(s[i + 1]) {
                None => None,
                Some(c) => match spec_parse_string_body(s, i + 2) {
                    None => None,
                    Some((rest, e)) => Some((seq![c] + rest, e)),
                },
            }
        }
    } else if (s[i] as int) < 32 {
        None
    } else {
        match spec_parse_string_body(s, i + 1) {
            None => None,
            Some((rest, e)) => Some((seq![s[i]] + rest, e)),
        }
    }
}

/// Parses a string body; `i` is right after the opening quote.
pub fn parse_string_body(s: &Vec<char>, i: usize) -> (r: Option<(Vec<char>, usize)>)
    requires
        i <= s@.len(),
    ensures
        match r {
            Some((t, e)) => spec_parse_string_body(s@, i as int) == Some((t@, e as int)) && i < e
                <= s@.len(),
            None => spec_parse_string_body(s@, i as int) is None,
        },
    decreases s@.len() - i,
{
    if i >= s.len() {
        return None;
    }
    let c = s[i];
    if c == '"' {
        let t: Vec<char> = Vec::new();
        proof {
            assert(t@ =~= Seq::<char>::empty());
        }
        return Some((t, i + 1));
    }
    if c == '\\' {
        if i + 1 >= s.len() {
            return None;
        }
        let esc = match escape_char(s[i + 1]) {
            Some(esc) => esc,
            None => {
                return None;
            },
        };
        match parse_string_body(s, i + 2) {
            Some((rest, e)) => {
                let mut t: Vec<char> = Vec::new();
                t.push(esc);
                let mut rest_m = rest;
                t.append(&mut rest_m);
                proof {
                    let sp = spec_parse_string_body(s@, i as int);
                    assert(t@ =~= sp->Some_0.0);
                }
                return Some((t, e));
            },
            None => {
                return None;
            },
        }
    }
    if is_control(c) {
        return None;
    }
    match parse_string_body(s, i + 1) {
        Some((rest, e)) => {
            let mut t: Vec<char> = Vec::new();
            t.push(c);
            let mut rest_m = rest;
            t.append(&mut rest_m);
            proof {
                let sp = spec_parse_string_body(s@, i as int);
                assert(t@ =~= sp->Some_0.0);
            }
            Some((t, e))
        },
        None => None,
    }
}


/// The integer starting at `i`: an optional minus sign and a non-empty digit
/// run, rejected when the value does not fit a 64-bit signed integer.
pub open spec fn spec_parse_int(s: Seq<char>, i: int) -> Option<(int, int)>
    recommends
        0 <= i <= s.len(),
{
    if i < 0 || i >= s.len() {
        None
    } else {
        let neg = s[i] == '-';
        let d0 = if neg {
            i + 1
        } else {
            i
        };
        let e = spec_digit_run_end(s, d0);
        if e == d0 {
            None
        } else {
            let m = spec_digits_val(s.subrange(d0, e));
            let v = if neg {
                -m
            } else {
                m
            };
            if v < -0x8000_0000_0000_0000 || v > 0x7fff_ffff_ffff_ffff {
                None
            } else {
                Some((v, e))
            }
        }
    }
}

/// Parses an integer at `i`.
pub fn parse_int(s: &Vec<char>, i: usize) -> (r: Option<(i64, usize)>)
    requires
        i <= s@.len(),
    ensures
        match r {
            Some((v, e)) => spec_parse_int(s@, i as int) == Some((v as int, e as int)) && i < e
                <= s@.len(),
            None => spec_parse_int(s@, i as int) is None,
        },
{
    if i >= s.len() {
        return None;
    }
    let neg = s[i] == '-';
    let d0 = if neg {
        i + 1
    } else {
        i
    };
    let e = digit_run_end(s, d0);
    if e == d0 {
        return None;
    }
    proof {
        lemma_digit_run_digits(s@, d0 as int);
        assert(spec_all_digits(s@.subrange(d0 as int, e as int)));
    }
    let ghost digits = s@.subrange(d0 as int, e as int);
    let mut acc: u128 = 0;
    let mut t = d0;
    while t < e
        invariant
            i < s@.len(),
            neg == (s@[i as int] == '-'),
            d0 as int == if neg {
                i as int + 1
            } else {
                i as int
            },
            d0 < e,
            e as int == spec_digit_run_end(s@, d0 as int),
            d0 <= t <= e <= s@.len(),
            digits == s@.subrange(d0 as int, e as int),
            spec_all_digits(digits),
            acc == spec_digits_val(digits.subrange(0, t - d0)),
            acc <= 0x8000_0000_0000_0000,
            forall|m: int| d0 <= m < e ==> s@[m] == digits[m - d0],
        decreases e - t,
    {
        let c = s[t];
        assert(spec_is_digit(c));
        let d = digit_val(c) as u128;
        let next = acc * 10 + d;
        proof {
            let p = digits.subrange(0, t + 1 - d0);
            assert(p.drop_last() =~= digits.subrange(0, t - d0));
        }
        if next > 0x8000_0000_0000_0000 {
            proof {
                let p = digits.subrange(0, t + 1 - d0);
                assert(p.drop_last() =~= digits.subrange(0, t - d0));
                assert(p.last() == s@[t as int]);
                assert(spec_digits_val(p) == next);
                lemma_digits_val_prefix_le(digits, t + 1 - d0);
                assert(spec_digits_val(digits) > 0x8000_0000_0000_0000);
                assert(spec_parse_int(s@, i as int) is None);
            }
            return None;
        }
        acc = next;
        t = t + 1;
    }
    proof {
        assert(digits.subrange(0, e - d0) =~= digits);
    }
    if neg {
        if acc == 0x8000_0000_0000_0000 {
            Some((i64::MIN, e))
        } else {
            let m = acc as i64;
            Some((-m, e))
        }
    } else {
        if acc > 0x7fff_ffff_ffff_ffff {
            return None;
        }
        Some((acc as i64, e))
    }
}

/// The numeric value of a digit character.
pub fn digit_val(c: char) -> (d: u8)
    requires
        spec_is_digit(c),
    ensures
        d as int == c as int - 48,
{
    (c as u32) as u8 - 48
}

/// The scalar starting at `i`: a string, an integer, `true`, `false` or
/// `null`.
pub open spec fn spec_parse_scalar(s: Seq<char>, i: int) -> Option<(JsonScalarV, int)>
    recommends
        0 <= i <= s.len(),
{
    if i < 0 || i >= s.len() {
        None
    } else if s[i] == '"' {
        match spec_parse_string_body(s, i + 1) {
            None => None,
            Some((t, e)) => Some((JsonScalarV::Str(t), e)),
        }
    } else if s[i] == '-' || spec_is_digit(s[i]) {
        match spec_parse_int(s, i) {
            None => None,
            Some((v, e)) => Some((JsonScalarV::Int(v), e)),
        }
    } else if s[i] == 't' {
        if i + 3 < s.len() && s[i + 1] == 'r' && s[i + 2] == 'u' && s[i + 3] == 'e' {
            Some((JsonScalarV::Bool(true), i + 4))
        } else {
            None
        }
    } else if s[i] == 'f' {
        if i + 4 < s.len() && s[i + 1] == 'a' && s[i + 2] == 'l' && s[i + 3] == 's' && s[i + 4]
            == 'e' {
            Some((JsonScalarV::Bool(false), i + 5))
        } else {
            None
        }
    } else if s[i] == 'n' {
        if i + 3 < s.len() && s[i + 1] == 'u' && s[i + 2] == 'l' && s[i + 3] == 'l' {
            Some((JsonScalarV::Null, i + 4))
        } else {
            None
        }
    } else {
        None
    }
}

/// Parses a scalar at `i`.
pub fn parse_scalar(s: &Vec<char>, i: usize) -> (r: Option<(JsonScalar, usize)>)
    requires
        i <= s@.len(),
    ensures
        match r {
            Some((v, e)) => spec_parse_scalar(s@, i as int) == Some((v.view(), e as int)) && i < e
                <= s@.len(),
            None => spec_parse_scalar(s@, i as int) is None,
        },
{
    if i >= s.len() {
        return None;
    }
    let c = s[i];
    if c == '"' {
        match parse_string_body(s, i + 1) {
            Some((t, e)) => Some((JsonScalar::Str(t), e)),
            None => None,
        }
    } else if c == '-' || is_digit(c) {
        match parse_int(s, i) {
            Some((v, e)) => Some((JsonScalar::Int(v), e)),
            None => None,
        }
    } else if c == 't' {
        if s.len() - i > 3 && s[i + 1] == 'r' && s[i + 2] == 'u' && s[i + 3] == 'e' {
            Some((JsonScalar::Bool(true), i + 4))
        } else {
            None
        }
    } else if c == 'f' {
        if s.len() - i > 4 && s[i + 1] == 'a' && s[i + 2] == 'l' && s[i + 3] == 's' && s[i + 4]
            == 'e' {
            Some((JsonScalar::Bool(false), i + 5))
        } else {
            None
        }
    } else if c == 'n' {
        if s.len() - i > 3 && s[i + 1] == 'u' && s[i + 2] == 'l' && s[i + 3] == 'l' {
            Some((JsonScalar::Null, i + 4))
        } else {
            None
        }
    } else {
        None
    }
}

/// The views of a list of scalars.
pub open spec fn scalars_view(v: Seq<JsonScalar>) -> Seq<JsonScalarV> {
    Seq::new(v.len(), |i: int| v[i].view())
}

/// The views of a list of scalar members.
pub open spec fn scalar_members_view(v: Seq<(Vec<char>, JsonScalar)>) -> Seq<
    (Seq<char>, JsonScalarV),
> {
    Seq::new(v.len(), |i: int| (v[i].0@, v[i].1.view()))
}

/// The views of a list of top-level members.
pub open spec fn members_view(v: Seq<(Vec<char>, JsonValue)>) -> Seq<(Seq<char>, JsonValueV)> {
    Seq::new(v.len(), |i: int| (v[i].0@, v[i].1.view()))
}

/// The items of a non-empty array whose first item starts at `i`, and the
/// position right after the closing bracket.
pub open spec fn spec_parse_arr_items(s: Seq<char>, i: int) -> Option<(Seq<JsonScalarV>, int)>
    recommends
        0 <= i <= s.len(),
    decreases s.len() - i,
{
    match spec_parse_scalar(s, i) {
        None => None,
        Some((v, j)) => {
            let k = spec_skip_ws(s, j);
            if k >= s.len() {
                None
            } else if s[k] == ']' {
                Some((seq![v], k + 1))
            } else if s[k] == ',' {
                let k2 = spec_skip_ws(s, k + 1);
                if i < k2 <= s.len() {
                    match spec_parse_arr_items(s, k2) {
                        None => None,
                        Some((rest, e)) => Some((seq![v] + rest, e)),
                    }
                } else {
                    None
                }
            } else {
                None
            }
        },
    }
}

/// Parses the items of a non-empty array.
pub fn parse_arr_items(s: &Vec<char>, i: usize) -> (r: Option<(Vec<JsonScalar>, usize)>)
    requires
        i <= s@.len(),
    ensures
        match r {
            Some((vals, e)) => spec_parse_arr_items(s@, i as int) == Some(
                (scalars_view(vals@), e as int),
            ) && i < e <= s@.len(),
            None => spec_parse_arr_items(s@, i as int) is None,
        },
    decreases s@.len() - i,
{
    let (v, j) = match parse_scalar(s, i) {
        Some(p) => p,
        None => {
            return None;
        },
    };
    let k = skip_ws(s, j);
    if k >= s.len() {
        return None;
    }
    if s[k] == ']' {
        let mut vals: Vec<JsonScalar> = Vec::new();
        vals.push(v);
        proof {
            assert(scalars_view(vals@) =~= seq![vals@[0].view()]);
        }
        return Some((vals, k + 1));
    }
    if s[k] == ',' {
        let k2 = skip_ws(s, k + 1);
        match parse_arr_items(s, k2) {
            Some((rest, e)) => {
                let mut vals = rest;
                vals.insert(0, v);
                proof {
                    assert(scalars_view(vals@) =~= seq![v.view()] + scalars_view(
                        vals@.subrange(1, vals@.len() as int),
                    ));
                    assert(vals@.subrange(1, vals@.len() as int) =~= rest@);
                }
                return Some((vals, e));
            },
            None => {
                return None;
            },
        }
    }
    None
}

/// The members of a non-empty object of scalars whose first key starts at
/// `i`, and the position right after the closing brace.
pub open spec fn spec_parse_scalar_members(s: Seq<char>, i: int) -> Option<
    (Seq<(Seq<char>, JsonScalarV)>, int),
>
    recommends
        0 <= i <= s.len(),
    decreases s.len() - i,
{
    if i < 0 || i >= s.len() || s[i] != '"' {
        None
    } else {
        match spec_parse_string_body(s, i + 1) {
            None => None,
            Some((key, j)) => {
                let k = spec_skip_ws(s, j);
                if k >= s.len() || s[k] != ':' {
                    None
                } else {
                    let k2 = spec_skip_ws(s, k + 1);
                    match spec_parse_scalar(s, k2) {
                        None => None,
                        Some((v, m)) => {
                            let p = spec_skip_ws(s, m);
                            if p >= s.len() {
                                None
                            } else if s[p] == '}' {
                                Some((seq![(key, v)], p + 1))
                            } else if s[p] == ',' {
                                let p2 = spec_skip_ws(s, p + 1);
                                if i < p2 <= s.len() {
                                    match spec_parse_scalar_members(s, p2) {
                                        None => None,
                                        Some((rest, e)) => Some((seq![(key, v)] + rest, e)),
                                    }
                                } else {
                                    None
                                }
                            } else {
                                None
                            }
                        },
                    }
                }
            },
        }
    }
}

/// Parses the members of a non-empty object of scalars.
pub fn parse_scalar_members(s: &Vec<char>, i: usize) -> (r: Option<
    (Vec<(Vec<char>, JsonScalar)>, usize),
>)
    requires
        i <= s@.len(),
    ensures
        match r {
            Some((ms, e)) => spec_parse_scalar_members(s@, i as int) == Some(
                (scalar_members_view(ms@), e as int),
            ) && i < e <= s@.len(),
            None => spec_parse_scalar_members(s@, i as int) is None,
        },
    decreases s@.len() - i,
{
    if i >= s.len() || s[i] != '"' {
        return None;
    }
    let (key, j) = match parse_string_body(s, i + 1) {
        Some(p) => p,
        None => {
            return None;
        },
    };
    let k = skip_ws(s, j);
    if k >= s.len() || s[k] != ':' {
        return None;
    }
    let k2 = skip_ws(s, k + 1);
    let (v, m) = match parse_scalar(s, k2) {
        Some(p) => p,
        None => {
            return None;
        },
    };
    let p = skip_ws(s, m);
    if p >= s.len() {
        return None;
    }
    if s[p] == '}' {
        let mut ms: Vec<(Vec<char>, JsonScalar)> = Vec::new();
        ms.push((key, v));
        proof {
            assert(scalar_members_view(ms@) =~= seq![(ms@[0].0@, ms@[0].1.view())]);
        }
        return Some((ms, p + 1));
    }
    if s[p] == ',' {
        let p2 = skip_ws(s, p + 1);
        match parse_scalar_members(s, p2) {
            Some((rest, e)) => {
                let mut ms = rest;
                ms.insert(0, (key, v));
                proof {
                    assert(ms@.subrange(1, ms@.len() as int) =~= rest@);
                    assert(scalar_members_view(ms@) =~= seq![(ms@[0].0@, ms@[0].1.view())]
                        + scalar_members_view(rest@));
                }
                return Some((ms, e));
            },
            None => {
                return None;
            },
        }
    }
    None
}

/// The member value starting at `i`: an array of scalars, an object of
/// scalars, or a scalar.
pub open spec fn spec_parse_inner_value(s: Seq<char>, i: int) -> Option<(JsonValueV, int)>
    recommends
        0 <= i <= s.len(),
{
    if i < 0 || i >= s.len() {
        None
    } else if s[i] == '[' {
        let j = spec_skip_ws(s, i + 1);
        if j >= s.len() {
            None
        } else if s[j] == ']' {
            Some((JsonValueV::Arr(Seq::empty()), j + 1))
        } else {
            match spec_parse_arr_items(s, j) {
                None => None,
                Some((items, e)) => Some((JsonValueV::Arr(items), e)),
            }
        }
    } else if s[i] == '{' {
        let j = spec_skip_ws(s, i + 1);
        if j >= s.len() {
            None
        } else if s[j] == '}' {
            Some((JsonValueV::Obj(Seq::empty()), j + 1))
        } else {
            match spec_parse_scalar_members(s, j) {
                None => None,
                Some((ms, e)) => Some((JsonValueV::Obj(ms), e)),
            }
        }
    } else {
        match spec_parse_scalar(s, i) {
            None => None,
            Some((v, e)) => Some((JsonValueV::Scalar(v), e)),
        }
    }
}

/// Parses a member value at `i`.
pub fn parse_inner_value(s: &Vec<char>, i: usize) -> (r: Option<(JsonValue, usize)>)
    requires
        i <= s@.len(),
    ensures
        match r {
            Some((v, e)) => spec_parse_inner_value(s@, i as int) == Some((v.view(), e as int)) && i
                < e <= s@.len(),
            None => spec_parse_inner_value(s@, i as int) is None,
        },
{
    if i >= s.len() {
        return None;
    }
    let c = s[i];
    if c == '[' {
        let j = skip_ws(s, i + 1);
        if j >= s.len() {
            return None;
        }
        if s[j] == ']' {
            let items: Vec<JsonScalar> = Vec::new();
            let v = JsonValue::Arr(items);
            proof {
                assert(v.view() =~~= JsonValueV::Arr(Seq::empty()));
            }
            return Some((v, j + 1));
        }
        match parse_arr_items(s, j) {
            Some((items, e)) => {
                let v = JsonValue::Arr(items);
                proof {
                    assert(v.view() =~~= JsonValueV::Arr(
                        spec_parse_arr_items(s@, j as int)->Some_0.0,
                    ));
                }
                Some((v, e))
            },
            None => None,
        }
    } else if c == '{' {
        let j = skip_ws(s, i + 1);
        if j >= s.len() {
            return None;
        }
        if s[j] == '}' {
            let ms: Vec<(Vec<char>, JsonScalar)> = Vec::new();
            let v = JsonValue::Obj(ms);
            proof {
                assert(v.view() =~~= JsonValueV::Obj(Seq::empty()));
            }
            return Some((v, j + 1));
        }
        match parse_scalar_members(s, j) {
            Some((ms, e)) => {
                let v = JsonValue::Obj(ms);
                proof {
                    assert(v.view() =~~= JsonValueV::Obj(
                        spec_parse_scalar_members(s@, j as int)->Some_0.0,
                    ));
                }
                Some((v, e))
            },
            None => None,
        }
    } else {
        match parse_scalar(s, i) {
            Some((v, e)) => Some((JsonValue::Scalar(v), e)),
            None => None,
        }
    }
}

/// The members of the non-empty top-level object whose first key starts at
/// `i`, and the position right after the closing brace.
pub open spec fn spec_parse_members(s: Seq<char>, i: int) -> Option<
    (Seq<(Seq<char>, JsonValueV)>, int),
>
    recommends
        0 <= i <= s.len(),
    decreases s.len() - i,
{
    if i < 0 || i >= s.len() || s[i] != '"' {
        None
    } else {
        match spec_parse_string_body(s, i + 1) {
            None => None,
            Some((key, j)) => {
                let k = spec_skip_ws(s, j);
                if k >= s.len() || s[k] != ':' {
                    None
                } else {
                    let k2 = spec_skip_ws(s, k + 1);
                    match spec_parse_inner_value(s, k2) {
                        None => None,
                        Some((v, m)) => {
                            let p = spec_skip_ws(s, m);
                            if p >= s.len() {
                                None
                            } else if s[p] == '}' {
                                Some((seq![(key, v)], p + 1))
                            } else if s[p] == ',' {
                                let p2 = spec_skip_ws(s, p + 1);
                                if i < p2 <= s.len() {
                                    match spec_parse_members(s, p2) {
                                        None => None,
                                        Some((rest, e)) => Some((seq![(key, v)] + rest, e)),
                                    }
                                } else {
                                    None
                                }
                            } else {
                                None
                            }
                        },
                    }
                }
            },
        }
    }
}

/// Parses the members of the non-empty top-level object.
pub fn parse_members(s: &Vec<char>, i: usize) -> (r: Option<(Vec<(Vec<char>, JsonValue)>, usize)>)
    requires
        i <= s@.len(),
    ensures
        match r {
            Some((ms, e)) => spec_parse_members(s@, i as int) == Some(
                (members_view(ms@), e as int),
            ) && i < e <= s@.len(),
            None => spec_parse_members(s@, i as int) is None,
        },
    decreases s@.len() - i,
{
    if i >= s.len() || s[i] != '"' {
        return None;
    }
    let (key, j) = match parse_string_body(s, i + 1) {
        Some(p) => p,
        None => {
            return None;
        },
    };
    let k = skip_ws(s, j);
    if k >= s.len() || s[k] != ':' {
        return None;
    }
    let k2 = skip_ws(s, k + 1);
    let (v, m) = match parse_inner_value(s, k2) {
        Some(p) => p,
        None => {
            return None;
        },
    };
    let p = skip_ws(s, m);
    if p >= s.len() {
        return None;
    }
    if s[p] == '}' {
        let mut ms: Vec<(Vec<char>, JsonValue)> = Vec::new();
        ms.push((key, v));
        proof {
            assert(members_view(ms@) =~~= seq![(ms@[0].0@, ms@[0].1.view())]);
        }
        return Some((ms, p + 1));
    }
    if s[p] == ',' {
        let p2 = skip_ws(s, p + 1);
        match parse_members(s, p2) {
            Some((rest, e)) => {
                let mut ms = rest;
                ms.insert(0, (key, v));
                proof {
                    assert(ms@.subrange(1, ms@.len() as int) =~= rest@);
                    assert(members_view(ms@) =~~= seq![(ms@[0].0@, ms@[0].1.view())] + members_view(
                        rest@,
                    ));
                }
                return Some((ms, e));
            },
            None => {
                return None;
            },
        }
    }
    None
}

/// The members of the payload object, when the whole text is exactly one
/// object with optional surrounding whitespace.
pub open spec fn spec_parse_payload(s: Seq<char>) -> Option<Seq<(Seq<char>, JsonValueV)>> {
    let i = spec_skip_ws(s, 0);
    if i >= s.len() || s[i] != '{' {
        None
    } else {
        let j = spec_skip_ws(s, i + 1);
        if j >= s.len() {
            None
        } else if s[j] == '}' {
            if spec_skip_ws(s, j + 1) == s.len() {
                Some(Seq::empty())
            } else {
                None
            }
        } else {
            match spec_parse_members(s, j) {
                None => None,
                Some((ms, e)) => if spec_skip_ws(s, e) == s.len() {
                    Some(ms)
                } else {
                    None
                },
            }
        }
    }
}

/// Parses the payload object out of a complete text.
pub fn parse_payload(s: &Vec<char>) -> (r: Option<Vec<(Vec<char>, JsonValue)>>)
    ensures
        match r {
            Some(ms) => spec_parse_payload(s@) == Some(members_view(ms@)),
            None => spec_parse_payload(s@) is None,
        },
{
    let i = skip_ws(s, 0);
    if i >= s.len() || s[i] != '{' {
        return None;
    }
    let j = skip_ws(s, i + 1);
    if j >= s.len() {
        return None;
    }
    if s[j] == '}' {
        if skip_ws(s, j + 1) == s.len() {
            let ms: Vec<(Vec<char>, JsonValue)> = Vec::new();
            proof {
                assert(members_view(ms@) =~~= Seq::<(Seq<char>, JsonValueV)>::empty());
            }
            return Some(ms);
        }
        return None;
    }
    match parse_members(s, j) {
        Some((ms, e)) => {
            if skip_ws(s, e) == s.len() {
                Some(ms)
            } else {
                None
            }
        },
        None => None,
    }
}

} // verus!


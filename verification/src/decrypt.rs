//! Recovery of the image-URL payload from an obfuscated chapter page.
//!
//! A chapter page embeds a minified packer of the shape
//! `…}('<function>',<a>,<c>,'<compressed>'…)` on a single line. This module
//! locates that packer, decompresses `<compressed>` (an LZ-String base64
//! blob) into a `|`-separated word list, rebuilds the packed source text by
//! substituting identifiers through a generated dictionary, and finally
//! parses the JSON object argument out of the rebuilt text.
//!
//! The packer is located exactly as a greedy, non-newline-crossing pattern
//! would match it: the *last* `}('` opening whose tail parses as
//! `'<text>',<digits>,<digits>,'<base64-ish>'` wins, and within it the
//! quoted `<function>` part extends to the last `',` whose tail parses.

use vstd::prelude::*;

use crate::json::{
    spec_parse_payload, parse_payload, JsonScalar, JsonScalarV, JsonValue, JsonValueV,
    members_view,
};
use crate::strutil::{chars_to_string, str_chars};

verus! {

/// Why decryption failed.
#[derive(Clone, Copy, PartialEq, Eq, Structural, Debug)]
pub enum DecryptError {
    /// The page does not contain a packer of the expected shape, or its two
    /// numeric fields are empty or out of range.
    Shape,
    /// LZ-String decompression failed or produced nothing.
    Lz,
    /// The decompressed code units are not a valid UTF-16 string.
    Utf16,
    /// The word list is shorter than the dictionary the packer asks for, or
    /// the base the packer asks for is unusable.
    Dict,
    /// The rebuilt text does not carry a parseable JSON payload.
    Json,
}

/// A decimal digit.
pub open spec fn spec_is_digit(c: char) -> bool {
    48 <= c as int <= 57
}

/// A word character: ASCII letter, digit or underscore.
pub open spec fn spec_is_word_char(c: char) -> bool {
    spec_is_digit(c) || (97 <= c as int <= 122) || (65 <= c as int <= 90) || c as int == 95
}

/// A character allowed inside the packer's compressed field: word characters
/// plus `|`, `+`, `/` and `=`.
pub open spec fn spec_is_packed_char(c: char) -> bool {
    spec_is_word_char(c) || c == '|' || c == '+' || c == '/' || c == '='
}

pub fn is_digit(c: char) -> (r: bool)
    ensures
        r == spec_is_digit(c),
{
    let u = c as u32;
    48 <= u && u <= 57
}

pub fn is_word_char(c: char) -> (r: bool)
    ensures
        r == spec_is_word_char(c),
{
    let u = c as u32;
    (48 <= u && u <= 57) || (97 <= u && u <= 122) || (65 <= u && u <= 90) || u == 95
}

pub fn is_packed_char(c: char) -> (r: bool)
    ensures
        r == spec_is_packed_char(c),
{
    is_word_char(c) || c == '|' || c == '+' || c == '/' || c == '='
}

/// End of the run of decimal digits starting at `i`: the first position at
/// or after `i` that is past the end or holds a non-digit.
pub open spec fn spec_digit_run_end(s: Seq<char>, i: int) -> int
    recommends
        0 <= i <= s.len(),
    decreases s.len() - i,
{
    if i >= s.len() || !spec_is_digit(s[i]) {
        i
    } else {
        spec_digit_run_end(s, i + 1)
    }
}

/// End of the run of compressed-field characters starting at `i`.
pub open spec fn spec_packed_run_end(s: Seq<char>, i: int) -> int
    recommends
        0 <= i <= s.len(),
    decreases s.len() - i,
{
    if i >= s.len() || !spec_is_packed_char(s[i]) {
        i
    } else {
        spec_packed_run_end(s, i + 1)
    }
}

proof fn lemma_digit_run_end_bounds(s: Seq<char>, i: int)
    requires
        0 <= i <= s.len(),
    ensures
        i <= spec_digit_run_end(s, i) <= s.len(),
    decreases s.len() - i,
{
    if !(i >= s.len() || !spec_is_digit(s[i])) {
        lemma_digit_run_end_bounds(s, i + 1);
    }
}

proof fn lemma_packed_run_end_bounds(s: Seq<char>, i: int)
    requires
        0 <= i <= s.len(),
    ensures
        i <= spec_packed_run_end(s, i) <= s.len(),
    decreases s.len() - i,
{
    if !(i >= s.len() || !spec_is_packed_char(s[i])) {
        lemma_packed_run_end_bounds(s, i + 1);
    }
}

pub fn digit_run_end(s: &Vec<char>, i: usize) -> (r: usize)
    requires
        i <= s@.len(),
    ensures
        r == spec_digit_run_end(s@, i as int),
        i <= r <= s@.len(),
{
    proof {
        lemma_digit_run_end_bounds(s@, i as int);
    }
    let mut j = i;
    while j < s.len() && is_digit(s[j])
        invariant
            i <= j <= s@.len(),
            spec_digit_run_end(s@, i as int) == spec_digit_run_end(s@, j as int),
        decreases s@.len() - j,
    {
        j = j + 1;
    }
    j
}

pub fn packed_run_end(s: &Vec<char>, i: usize) -> (r: usize)
    requires
        i <= s@.len(),
    ensures
        r == spec_packed_run_end(s@, i as int),
        i <= r <= s@.len(),
{
    proof {
        lemma_packed_run_end_bounds(s@, i as int);
    }
    let mut j = i;
    while j < s.len() && is_packed_char(s[j])
        invariant
            i <= j <= s@.len(),
            spec_packed_run_end(s@, i as int) == spec_packed_run_end(s@, j as int),
        decreases s@.len() - j,
    {
        j = j + 1;
    }
    j
}

/// Whether the text starting at `k` parses as the tail of the packer:
/// `<digits>,<digits>,'<packed chars>'`.
pub open spec fn spec_tail_match(s: Seq<char>, k: int) -> bool
    recommends
        0 <= k <= s.len(),
{
    let e1 = spec_digit_run_end(s, k);
    &&& e1 < s.len() && s[e1] == ','
    &&& {
        let e2 = spec_digit_run_end(s, e1 + 1);
        &&& e2 + 1 < s.len() && s[e2] == ',' && s[e2 + 1] == '\''
        &&& {
            let e3 = spec_packed_run_end(s, e2 + 2);
            e3 < s.len() && s[e3] == '\''
        }
    }
}

pub fn tail_match(s: &Vec<char>, k: usize) -> (r: bool)
    requires
        k <= s@.len(),
    ensures
        r == spec_tail_match(s@, k as int),
{
    let e1 = digit_run_end(s, k);
    if !(e1 < s.len() && s[e1] == ',') {
        return false;
    }
    let e2 = digit_run_end(s, e1 + 1);
    if !(e2 < s.len() && s[e2] == ',') {
        return false;
    }
    if !(e2 + 1 < s.len() && s[e2 + 1] == '\'') {
        return false;
    }
    let e3 = packed_run_end(s, e2 + 2);
    e3 < s.len() && s[e3] == '\''
}

/// What a found quote-comma position satisfies.
proof fn lemma_find_quote_comma_sound(s: Seq<char>, start: int, j: int)
    requires
        start < s.len(),
        spec_find_quote_comma(s, start) == Some(j),
    ensures
        0 <= j <= start,
        j + 1 < s.len(),
        s[j] == '\'',
        s[j + 1] == ',',
        spec_tail_match(s, j + 2),
    decreases start + 1,
{
    if start < 0 || start >= s.len() {
    } else if start + 1 < s.len() && s[start] == '\'' && s[start + 1] == ',' && spec_tail_match(
        s,
        start + 2,
    ) {
    } else {
        lemma_find_quote_comma_sound(s, start - 1, j);
    }
}

/// What a found opening position satisfies.
proof fn lemma_find_open_sound(s: Seq<char>, start: int, i: int)
    requires
        spec_find_open(s, start) == Some(i),
    ensures
        0 <= i <= start,
        i + 2 < s.len(),
        s[i] == '}',
        s[i + 1] == '(',
        s[i + 2] == '\'',
    decreases start + 1,
{
    if start < 0 || start + 2 >= s.len() {
    } else if s[start] == '}' && s[start + 1] == '(' && s[start + 2] == '\'' {
    } else {
        lemma_find_open_sound(s, start - 1, i);
    }
}

/// The greatest `j <= start` such that `'` and `,` stand at `j` and `j + 1`
/// and the packer tail parses at `j + 2`.
pub open spec fn spec_find_quote_comma(s: Seq<char>, start: int) -> Option<int>
    decreases start + 1,
{
    if start < 0 || start >= s.len() {
        None
    } else if start + 1 < s.len() && s[start] == '\'' && s[start + 1] == ',' && spec_tail_match(
        s,
        start + 2,
    ) {
        Some(start)
    } else {
        spec_find_quote_comma(s, start - 1)
    }
}

fn find_quote_comma(s: &Vec<char>, start: usize) -> (r: Option<usize>)
    requires
        start < s@.len() || s@.len() == 0,
    ensures
        match r {
            Some(j) => j + 2 <= s@.len() && Some(j as int) == spec_find_quote_comma(
                s@,
                start as int,
            ),
            None => spec_find_quote_comma(s@, start as int) is None,
        },
{
    if s.len() == 0 {
        return None;
    }
    let n = s.len();
    let mut j = start;
    loop
        invariant
            n == s@.len(),
            j < n,
            spec_find_quote_comma(s@, start as int) == spec_find_quote_comma(s@, j as int),
        decreases j,
    {
        let hit = if j + 1 < n && s[j] == '\'' && s[j + 1] == ',' {
            tail_match(s, j + 2)
        } else {
            false
        };
        if hit {
            return Some(j);
        }
        proof {
            assert(spec_find_quote_comma(s@, j as int) == spec_find_quote_comma(s@, j - 1));
        }
        if j == 0 {
            proof {
                assert(spec_find_quote_comma(s@, -1) is None);
            }
            return None;
        }
        j = j - 1;
    }
}

/// The greatest `i <= start` where the opening `}('` of the packer stands.
pub open spec fn spec_find_open(s: Seq<char>, start: int) -> Option<int>
    decreases start + 1,
{
    if start < 0 || start + 2 >= s.len() {
        None
    } else if s[start] == '}' && s[start + 1] == '(' && s[start + 2] == '\'' {
        Some(start)
    } else {
        spec_find_open(s, start - 1)
    }
}

fn find_open(s: &Vec<char>, start: usize) -> (r: Option<usize>)
    requires
        start + 2 < s@.len(),
    ensures
        match r {
            Some(i) => i + 2 < s@.len() && Some(i as int) == spec_find_open(s@, start as int),
            None => spec_find_open(s@, start as int) is None,
        },
{
    let n = s.len();
    let mut i = start;
    loop
        invariant
            n == s@.len(),
            i + 2 < n,
            spec_find_open(s@, start as int) == spec_find_open(s@, i as int),
        decreases i,
    {
        if s[i] == '}' && s[i + 1] == '(' && s[i + 2] == '\'' {
            return Some(i);
        }
        proof {
            assert(spec_find_open(s@, i as int) == spec_find_open(s@, i - 1));
        }
        if i == 0 {
            proof {
                assert(spec_find_open(s@, -1) is None);
            }
            return None;
        }
        i = i - 1;
    }
}

/// Whether the sequence contains a line break. The packer pattern cannot
/// cross one, so a page holding any line break never matches.
pub open spec fn spec_contains_newline(s: Seq<char>) -> bool {
    exists|i: int| 0 <= i < s.len() && s[i] == '\n'
}

fn contains_newline(s: &Vec<char>) -> (r: bool)
    ensures
        r == spec_contains_newline(s@),
{
    let mut i: usize = 0;
    while i < s.len()
        invariant
            i <= s@.len(),
            forall|m: int| 0 <= m < i ==> s@[m] != '\n',
        decreases s@.len() - i,
    {
        if s[i] == '\n' {
            return true;
        }
        i = i + 1;
    }
    false
}

/// The four raw fields of the packer, as character ranges of the page:
/// the function text, the two digit runs and the compressed blob.
pub open spec fn spec_extract_raw(s: Seq<char>) -> Option<(Seq<char>, Seq<char>, Seq<char>, Seq<
    char,
>)> {
    if spec_contains_newline(s) || s.len() < 2 {
        None
    } else {
        match spec_find_quote_comma(s, s.len() - 2) {
            None => None,
            Some(j) => if j < 3 {
                None
            } else {
                match spec_find_open(s, j - 3) {
                    None => None,
                    Some(i) => {
                        let e1 = spec_digit_run_end(s, j + 2);
                        let e2 = spec_digit_run_end(s, e1 + 1);
                        let e3 = spec_packed_run_end(s, e2 + 2);
                        Some(
                            (
                                s.subrange(i + 3, j),
                                s.subrange(j + 2, e1),
                                s.subrange(e1 + 1, e2),
                                s.subrange(e2 + 2, e3),
                            ),
                        )
                    },
                }
            },
        }
    }
}

/// Finds the packer inside the page text and returns its four raw fields.
pub fn extract_raw(s: &Vec<char>) -> (r: Option<(Vec<char>, Vec<char>, Vec<char>, Vec<char>)>)
    ensures
        match r {
            Some(t) => spec_extract_raw(s@) == Some(
                (t.0@, t.1@, t.2@, t.3@),
            ),
            None => spec_extract_raw(s@) is None,
        },
{
    if contains_newline(s) {
        return None;
    }
    if s.len() < 2 {
        return None;
    }
    let j = match find_quote_comma(s, s.len() - 2) {
        Some(j) => j,
        None => {
            return None;
        },
    };
    if j < 3 {
        return None;
    }
    let i = match find_open(s, j - 3) {
        Some(i) => i,
        None => {
            return None;
        },
    };
    proof {
        lemma_find_quote_comma_sound(s@, s@.len() - 2, j as int);
        lemma_find_open_sound(s@, j - 3, i as int);
    }
    assert(spec_tail_match(s@, j as int + 2));
    let e1 = digit_run_end(s, j + 2);
    let e2 = digit_run_end(s, e1 + 1);
    let e3 = packed_run_end(s, e2 + 2);
    let function = copy_range(s, i + 3, j);
    let a_digits = copy_range(s, j + 2, e1);
    let c_digits = copy_range(s, e1 + 1, e2);
    let compressed = copy_range(s, e2 + 2, e3);
    Some((function, a_digits, c_digits, compressed))
}

/// All characters are decimal digits.
pub open spec fn spec_all_digits(ds: Seq<char>) -> bool {
    forall|i: int| 0 <= i < ds.len() ==> spec_is_digit(ds[i])
}

/// The value of a run of decimal digits, most significant first.
pub open spec fn spec_digits_val(ds: Seq<char>) -> int
    decreases ds.len(),
{
    if ds.len() == 0 {
        0
    } else {
        spec_digits_val(ds.drop_last()) * 10 + (ds.last() as int - 48)
    }
}

/// The packer's numeric fields: a non-empty digit run whose value fits a
/// 32-bit signed integer; anything else is rejected.
pub open spec fn spec_parse_packer_int(ds: Seq<char>) -> Option<int> {
    if ds.len() == 0 || !spec_all_digits(ds) || spec_digits_val(ds) > 0x7fff_ffff {
        None
    } else {
        Some(spec_digits_val(ds))
    }
}

pub proof fn lemma_digits_val_nonneg(ds: Seq<char>)
    requires
        spec_all_digits(ds),
    ensures
        spec_digits_val(ds) >= 0,
    decreases ds.len(),
{
    if ds.len() > 0 {
        assert(spec_all_digits(ds.drop_last()));
        lemma_digits_val_nonneg(ds.drop_last());
        assert(spec_is_digit(ds.last()));
    }
}

pub proof fn lemma_digits_val_prefix_le(ds: Seq<char>, m: int)
    requires
        spec_all_digits(ds),
        0 <= m <= ds.len(),
    ensures
        spec_digits_val(ds.subrange(0, m)) <= spec_digits_val(ds),
    decreases ds.len() - m,
{
    if m == ds.len() {
        assert(ds.subrange(0, m) =~= ds);
    } else {
        lemma_digits_val_prefix_le(ds, m + 1);
        let p = ds.subrange(0, m + 1);
        assert(p.drop_last() =~= ds.subrange(0, m));
        assert(spec_all_digits(ds.subrange(0, m)));
        lemma_digits_val_nonneg(ds.subrange(0, m));
        assert(spec_is_digit(p.last()));
        assert(spec_digits_val(ds.subrange(0, m)) <= spec_digits_val(p));
    }
}

/// Every character of a digit run is a digit.
pub proof fn lemma_digit_run_digits(s: Seq<char>, i: int)
    requires
        0 <= i <= s.len(),
    ensures
        forall|m: int| i <= m < spec_digit_run_end(s, i) ==> spec_is_digit(s[m]),
    decreases s.len() - i,
{
    if !(i >= s.len() || !spec_is_digit(s[i])) {
        lemma_digit_run_end_bounds(s, i + 1);
        lemma_digit_run_digits(s, i + 1);
    } else {
        lemma_digit_run_end_bounds(s, i);
    }
}

/// Parses one of the packer's numeric fields.
pub fn parse_packer_int(v: &Vec<char>) -> (r: Option<i32>)
    ensures
        match r {
            Some(n) => spec_parse_packer_int(v@) == Some(n as int) && n >= 0,
            None => spec_parse_packer_int(v@) is None,
        },
{
    if v.len() == 0 {
        return None;
    }
    let mut acc: u64 = 0;
    let mut i: usize = 0;
    while i < v.len()
        invariant
            0 < v@.len(),
            0 <= i <= v@.len(),
            spec_all_digits(v@.subrange(0, i as int)),
            acc == spec_digits_val(v@.subrange(0, i as int)),
            acc <= 0x7fff_ffff,
        decreases v@.len() - i,
    {
        let c = v[i];
        if !is_digit(c) {
            assert(!spec_all_digits(v@));
            return None;
        }
        let d = (c as u32) as u64 - 48;
        let next = acc * 10 + d;
        proof {
            let p = v@.subrange(0, i + 1);
            assert(p.drop_last() =~= v@.subrange(0, i as int));
        }
        if next > 0x7fff_ffff {
            proof {
                if spec_all_digits(v@) {
                    lemma_digits_val_prefix_le(v@, i + 1);
                }
            }
            return None;
        }
        acc = next;
        i = i + 1;
    }
    proof {
        assert(v@.subrange(0, v@.len() as int) =~= v@);
    }
    Some(acc as i32)
}

/// What LZ-String base64 decompression returns: a function of the input
/// text alone.
pub uninterp spec fn spec_lz_decompress(s: Seq<char>) -> Option<Seq<u16>>;

/// Relies on `lz_str::decompress_from_base64`: decompresses base64-encoded
/// LZ-String data into UTF-16 code units, returning `None` on malformed
/// input. The result depends only on the input text.
#[verifier::external_body]
fn lz_decompress_base64(s: &str) -> (r: Option<Vec<u16>>)
    ensures
        match r {
            Some(v) => spec_lz_decompress(s@) == Some(v@),
            None => spec_lz_decompress(s@) is None,
        },
{
    lz_str::decompress_from_base64(s)
}

/// What decoding UTF-16 code units to text returns: a function of the code
/// units alone.
pub uninterp spec fn spec_utf16_decode(units: Seq<u16>) -> Option<Seq<char>>;

/// Relies on `String::from_utf16`: decodes a UTF-16 code-unit slice into a
/// string, failing if the units contain unpaired surrogates. The result
/// depends only on the code units.
#[verifier::external_body]
fn utf16_to_string(units: &Vec<u16>) -> (r: Option<String>)
    ensures
        match r {
            Some(s) => spec_utf16_decode(units@) == Some(s@),
            None => spec_utf16_decode(units@) is None,
        },
{
    String::from_utf16(units.as_slice()).ok()
}

/// The first position at or after `from` holding `c`, or the length.
pub open spec fn spec_find_char(s: Seq<char>, from: int, c: char) -> int
    recommends
        0 <= from <= s.len(),
    decreases s.len() - from,
{
    if from >= s.len() {
        s.len() as int
    } else if s[from] == c {
        from
    } else {
        spec_find_char(s, from + 1, c)
    }
}

proof fn lemma_find_char_bounds(s: Seq<char>, from: int, c: char)
    requires
        0 <= from <= s.len(),
    ensures
        from <= spec_find_char(s, from, c) <= s.len(),
    decreases s.len() - from,
{
    if from < s.len() && s[from] != c {
        lemma_find_char_bounds(s, from + 1, c);
    }
}

pub fn find_char(s: &Vec<char>, from: usize, c: char) -> (r: usize)
    requires
        from <= s@.len(),
    ensures
        r == spec_find_char(s@, from as int, c),
        from <= r <= s@.len(),
{
    proof {
        lemma_find_char_bounds(s@, from as int, c);
    }
    let mut j = from;
    while j < s.len() && s[j] != c
        invariant
            from <= j <= s@.len(),
            spec_find_char(s@, from as int, c) == spec_find_char(s@, j as int, c),
        decreases s@.len() - j,
    {
        j = j + 1;
    }
    j
}

/// The segments of `s` from position `from` on, split on `c`.
pub open spec fn spec_split_from(s: Seq<char>, from: int, c: char) -> Seq<Seq<char>>
    recommends
        0 <= from <= s.len(),
    decreases s.len() - from,
{
    let idx = spec_find_char(s, from, c);
    if from <= idx < s.len() {
        seq![s.subrange(from, idx)] + spec_split_from(s, idx + 1, c)
    } else {
        seq![s.subrange(from, s.len() as int)]
    }
}

/// The segments of `s`, split on `c`. Splitting never yields an empty list:
/// a separator-free text gives one segment, itself.
pub open spec fn spec_split(s: Seq<char>, c: char) -> Seq<Seq<char>> {
    spec_split_from(s, 0, c)
}

/// The views of a list of character vectors.
pub open spec fn views_of(parts: Seq<Vec<char>>) -> Seq<Seq<char>> {
    Seq::new(parts.len(), |i: int| parts[i]@)
}

/// Splits a character vector on a separator.
pub fn split_chars(s: &Vec<char>, c: char) -> (parts: Vec<Vec<char>>)
    ensures
        views_of(parts@) == spec_split(s@, c),
{
    let mut parts: Vec<Vec<char>> = Vec::new();
    let mut start: usize = 0;
    loop
        invariant
            start <= s@.len(),
            spec_split(s@, c) == views_of(parts@) + spec_split_from(s@, start as int, c),
        decreases s@.len() - start,
    {
        let idx = find_char(s, start, c);
        if idx < s.len() {
            let seg = copy_range(s, start, idx);
            proof {
                let old_parts = parts@;
                assert(views_of(old_parts.push(seg)) =~= views_of(old_parts) + seq![seg@]);
            }
            parts.push(seg);
            start = idx + 1;
        } else {
            let seg = copy_range(s, start, s.len());
            proof {
                let old_parts = parts@;
                assert(views_of(old_parts.push(seg)) =~= views_of(old_parts) + seq![seg@]);
            }
            parts.push(seg);
            return parts;
        }
    }
}

/// Character-wise equality of two vectors.
pub fn chars_eq(a: &Vec<char>, b: &Vec<char>) -> (r: bool)
    ensures
        r == (a@ == b@),
{
    if a.len() != b.len() {
        return false;
    }
    let mut i: usize = 0;
    while i < a.len()
        invariant
            i <= a@.len(),
            a@.len() == b@.len(),
            forall|m: int| 0 <= m < i ==> a@[m] == b@[m],
        decreases a@.len() - i,
    {
        if a[i] != b[i] {
            return false;
        }
        i = i + 1;
    }
    proof {
        assert(a@ =~= b@);
    }
    true
}

/// The packer's digit alphabet: `0`-`9`, then `a`-`z`, then `A`-`Z`.
pub open spec fn spec_base_char(d: int) -> char
    recommends
        0 <= d < 62,
{
    if d < 10 {
        ((48 + d) as u8) as char
    } else if d < 36 {
        ((97 + d - 10) as u8) as char
    } else {
        ((65 + d - 36) as u8) as char
    }
}

pub fn base_char(d: u32) -> (c: char)
    requires
        d < 62,
    ensures
        c == spec_base_char(d as int),
{
    if d < 10 {
        ((48 + d) as u8) as char
    } else if d < 36 {
        ((97 + d - 10) as u8) as char
    } else {
        ((65 + d - 36) as u8) as char
    }
}

/// The packer's inner digit expansion: digits of `value` in base `num`,
/// except that each digit is reduced modulo `a` before being drawn from the
/// alphabet. Empty for zero.
pub open spec fn spec_itr(value: int, num: int, a: int) -> Seq<char>
    recommends
        2 <= num,
        1 <= a <= 62,
    decreases value when 2 <= num via spec_itr_decreases
{
    if value <= 0 {
        Seq::empty()
    } else {
        spec_itr(value / num, num, a) + seq![spec_base_char(value % a)]
    }
}

#[via_fn]
proof fn spec_itr_decreases(value: int, num: int, a: int) {
    if value > 0 {
        vstd::arithmetic::div_mod::lemma_div_decreases(value, num);
        vstd::arithmetic::div_mod::lemma_div_pos_is_pos(value, num);
    }
}

/// The inner expansion, or `0` when it is empty.
pub open spec fn spec_tr(value: int, a: int) -> Seq<char>
    recommends
        0 <= value,
        1 <= a <= 62,
{
    let t = spec_itr(value, 36, a);
    if t.len() == 0 {
        seq!['0']
    } else {
        t
    }
}

/// The packer's key for dictionary slot `k` with base `a`: base-`a` digits,
/// where digit values over 35 become capital letters directly and lower
/// digit values go through the base-36 expansion.
pub open spec fn spec_enc(k: int, a: int) -> Seq<char>
    recommends
        0 <= k,
        2 <= a <= 62,
    decreases k when 2 <= a via spec_enc_decreases
{
    let prefix: Seq<char> = if k < a {
        Seq::empty()
    } else {
        spec_enc(k / a, a)
    };
    let suffix: Seq<char> = if k % a > 35 {
        seq![((k % a + 29) as u8) as char]
    } else {
        spec_tr(k % a, a)
    };
    prefix + suffix
}

#[via_fn]
proof fn spec_enc_decreases(k: int, a: int) {
    if k >= a {
        vstd::arithmetic::div_mod::lemma_div_decreases(k, a);
        vstd::arithmetic::div_mod::lemma_div_pos_is_pos(k, a);
    }
}

fn itr(value: u32, num: u32, a: u32) -> (r: Vec<char>)
    requires
        2 <= num,
        1 <= a <= 62,
    ensures
        r@ == spec_itr(value as int, num as int, a as int),
    decreases value,
{
    if value == 0 {
        Vec::new()
    } else {
        proof {
            vstd::arithmetic::div_mod::lemma_div_decreases(value as int, num as int);
        }
        let mut r = itr(value / num, num, a);
        r.push(base_char(value % a));
        proof {
            assert(r@ =~= spec_itr(value as int, num as int, a as int));
        }
        r
    }
}

fn tr(value: u32, a: u32) -> (r: Vec<char>)
    requires
        1 <= a <= 62,
    ensures
        r@ == spec_tr(value as int, a as int),
{
    let t = itr(value, 36, a);
    if t.len() == 0 {
        let mut r: Vec<char> = Vec::new();
        r.push('0');
        proof {
            assert(r@ =~= seq!['0']);
        }
        r
    } else {
        t
    }
}

/// The packer's key for dictionary slot `k`.
pub fn enc(k: u32, a: u32) -> (r: Vec<char>)
    requires
        2 <= a <= 62,
    ensures
        r@ == spec_enc(k as int, a as int),
    decreases k,
{
    let mut prefix: Vec<char> = if k < a {
        Vec::new()
    } else {
        proof {
            vstd::arithmetic::div_mod::lemma_div_decreases(k as int, a as int);
        }
        enc(k / a, a)
    };
    if k % a > 35 {
        let c = ((k % a + 29) as u8) as char;
        prefix.push(c);
        proof {
            assert(prefix@ =~= spec_enc(k as int, a as int));
        }
        prefix
    } else {
        let mut suffix = tr(k % a, a);
        let mut r = prefix;
        r.append(&mut suffix);
        proof {
            assert(r@ =~= spec_enc(k as int, a as int));
        }
        r
    }
}

/// What the dictionary holds in slot `k`: the word list's entry if it is
/// non-empty, the key itself otherwise.
pub open spec fn spec_dict_value(k: int, a: int, data: Seq<Seq<char>>) -> Seq<char>
    recommends
        0 <= k < data.len(),
        2 <= a <= 62,
{
    if data[k].len() > 0 {
        data[k]
    } else {
        spec_enc(k, a)
    }
}

/// Builds the substitution dictionary: one pair per slot `k` in `0..c`,
/// keyed by `enc(k, a)`.
pub fn create_dict(a: u32, c: u32, data: &Vec<Vec<char>>) -> (dict: Vec<(Vec<char>, Vec<char>)>)
    requires
        2 <= a <= 62,
        c as int <= data@.len(),
    ensures
        dict@.len() == c as int,
        forall|k: int|
            0 <= k < c as int ==> #[trigger] dict@[k].0@ == spec_enc(k, a as int) && dict@[k].1@
                == spec_dict_value(k, a as int, views_of(data@)),
{
    let mut dict: Vec<(Vec<char>, Vec<char>)> = Vec::new();
    let mut k: u32 = 0;
    while k < c
        invariant
            2 <= a <= 62,
            c as int <= data@.len(),
            k <= c,
            dict@.len() == k as int,
            forall|m: int|
                0 <= m < k as int ==> #[trigger] dict@[m].0@ == spec_enc(m, a as int)
                    && dict@[m].1@ == spec_dict_value(m, a as int, views_of(data@)),
        decreases c - k,
    {
        let key = enc(k, a);
        let slot = &data[k as usize];
        let value: Vec<char> = if slot.len() > 0 {
            copy_range(slot, 0, slot.len())
        } else {
            copy_range(&key, 0, key.len())
        };
        proof {
            assert(value@ =~= spec_dict_value(k as int, a as int, views_of(data@)));
        }
        dict.push((key, value));
        k = k + 1;
    }
    dict
}

/// The views of a dictionary's pairs.
pub open spec fn pair_views(d: Seq<(Vec<char>, Vec<char>)>) -> Seq<(Seq<char>, Seq<char>)> {
    Seq::new(d.len(), |i: int| (d[i].0@, d[i].1@))
}

/// The value of the first dictionary pair from position `i` on whose key is
/// `token`, if any.
pub open spec fn spec_dict_lookup_from(
    d: Seq<(Seq<char>, Seq<char>)>,
    token: Seq<char>,
    i: int,
) -> Option<Seq<char>>
    recommends
        0 <= i <= d.len(),
    decreases d.len() - i,
{
    if i < 0 || i >= d.len() {
        None
    } else if d[i].0 == token {
        Some(d[i].1)
    } else {
        spec_dict_lookup_from(d, token, i + 1)
    }
}

/// The value the dictionary substitutes for `token`, if any.
pub open spec fn spec_dict_lookup(d: Seq<(Seq<char>, Seq<char>)>, token: Seq<char>) -> Option<
    Seq<char>,
> {
    spec_dict_lookup_from(d, token, 0)
}

/// Looks a token up in the dictionary; the first matching pair wins.
pub fn dict_lookup(dict: &Vec<(Vec<char>, Vec<char>)>, token: &Vec<char>) -> (r: Option<Vec<char>>)
    ensures
        match r {
            Some(v) => spec_dict_lookup(pair_views(dict@), token@) == Some(v@),
            None => spec_dict_lookup(pair_views(dict@), token@) is None,
        },
{
    let mut i: usize = 0;
    while i < dict.len()
        invariant
            i <= dict@.len(),
            spec_dict_lookup(pair_views(dict@), token@) == spec_dict_lookup_from(
                pair_views(dict@),
                token@,
                i as int,
            ),
        decreases dict@.len() - i,
    {
        if chars_eq(&dict[i].0, token) {
            let v = copy_range(&dict[i].1, 0, dict[i].1.len());
            proof {
                assert(v@ =~= pair_views(dict@)[i as int].1);
            }
            return Some(v);
        }
        i = i + 1;
    }
    None
}

/// End of the run of word characters starting at `i`.
pub open spec fn spec_word_run_end(s: Seq<char>, i: int) -> int
    recommends
        0 <= i <= s.len(),
    decreases s.len() - i,
{
    if i >= s.len() || !spec_is_word_char(s[i]) {
        i
    } else {
        spec_word_run_end(s, i + 1)
    }
}

proof fn lemma_word_run_end_bounds(s: Seq<char>, i: int)
    requires
        0 <= i <= s.len(),
    ensures
        i <= spec_word_run_end(s, i) <= s.len(),
    decreases s.len() - i,
{
    if !(i >= s.len() || !spec_is_word_char(s[i])) {
        lemma_word_run_end_bounds(s, i + 1);
    }
}

pub fn word_run_end(s: &Vec<char>, i: usize) -> (r: usize)
    requires
        i <= s@.len(),
    ensures
        r == spec_word_run_end(s@, i as int),
        i <= r <= s@.len(),
{
    proof {
        lemma_word_run_end_bounds(s@, i as int);
    }
    let mut j = i;
    while j < s.len() && is_word_char(s[j])
        invariant
            i <= j <= s@.len(),
            spec_word_run_end(s@, i as int) == spec_word_run_end(s@, j as int),
        decreases s@.len() - j,
    {
        j = j + 1;
    }
    j
}

/// The packed text with every maximal word-character token replaced by its
/// dictionary value (tokens without a dictionary entry stay), all other
/// characters kept as they are.
pub open spec fn spec_rewrite_from(
    s: Seq<char>,
    d: Seq<(Seq<char>, Seq<char>)>,
    i: int,
) -> Seq<char>
    recommends
        0 <= i <= s.len(),
    decreases s.len() - i,
{
    if i < 0 || i >= s.len() {
        Seq::empty()
    } else if !spec_is_word_char(s[i]) {
        seq![s[i]] + spec_rewrite_from(s, d, i + 1)
    } else {
        let e = spec_word_run_end(s, i);
        let token = s.subrange(i, e);
        let rep: Seq<char> = match spec_dict_lookup(d, token) {
            Some(v) => v,
            None => token,
        };
        if i < e <= s.len() {
            rep + spec_rewrite_from(s, d, e)
        } else {
            rep
        }
    }
}

/// The fully rewritten packed text.
pub open spec fn spec_rewrite(s: Seq<char>, d: Seq<(Seq<char>, Seq<char>)>) -> Seq<char> {
    spec_rewrite_from(s, d, 0)
}

/// Rebuilds the packed source text by substituting identifiers through the
/// dictionary.
pub fn create_js(function: &Vec<char>, dict: &Vec<(Vec<char>, Vec<char>)>) -> (js: Vec<char>)
    ensures
        js@ == spec_rewrite(function@, pair_views(dict@)),
{
    let mut js: Vec<char> = Vec::new();
    let mut i: usize = 0;
    while i < function.len()
        invariant
            i <= function@.len(),
            spec_rewrite(function@, pair_views(dict@)) == js@ + spec_rewrite_from(
                function@,
                pair_views(dict@),
                i as int,
            ),
        decreases function@.len() - i,
    {
        let c = function[i];
        if !is_word_char(c) {
            js.push(c);
            i = i + 1;
        } else {
            proof {
                assert(spec_word_run_end(function@, i as int) == spec_word_run_end(
                    function@,
                    i + 1 as int,
                ));
                lemma_word_run_end_bounds(function@, i + 1 as int);
            }
            let e = word_run_end(function, i);
            let token = copy_range(function, i, e);
            let rep = match dict_lookup(dict, &token) {
                Some(v) => v,
                None => token,
            };
            let mut rep_m = rep;
            js.append(&mut rep_m);
            i = e;
        }
    }
    proof {
        assert(js@ =~= spec_rewrite(function@, pair_views(dict@)));
    }
    js
}

/// Copies the characters in `[from, to)` out of a vector.
pub fn copy_range(s: &Vec<char>, from: usize, to: usize) -> (r: Vec<char>)
    requires
        from <= to <= s@.len(),
    ensures
        r@ == s@.subrange(from as int, to as int),
{
    let mut r: Vec<char> = Vec::new();
    let mut i = from;
    while i < to
        invariant
            from <= i <= to <= s@.len(),
            r@ == s@.subrange(from as int, i as int),
        decreases to - i,
    {
        r.push(s[i]);
        proof {
            assert(r@ =~= s@.subrange(from as int, i + 1 as int));
        }
        i = i + 1;
    }
    r
}


/// The credential-like trailer of the payload.
#[derive(Debug, Clone, PartialEq)]
pub struct Sl {
    /// Looks like a timestamp.
    pub e: i64,
    /// An opaque token.
    pub m: String,
}

/// The decrypted payload of a chapter page.
#[derive(Debug, Clone, PartialEq)]
pub struct DecryptResult {
    /// Comic id.
    pub bid: i64,
    /// Comic name.
    pub bname: String,
    /// Cover image name.
    pub bpic: String,
    /// Chapter id.
    pub cid: i64,
    /// Chapter name.
    pub cname: String,
    /// Per-image file names.
    pub files: Vec<String>,
    /// Whether the comic is finished.
    pub finished: bool,
    /// Number of images in the chapter.
    pub len: i64,
    /// URL path fragment; the image URL is the host, then this, then a file.
    pub path: String,
    /// Unknown meaning; observed as 1.
    pub status: i64,
    /// Unknown meaning; observed empty.
    pub block_cc: String,
    /// Next chapter id, 0 when there is none.
    pub next_id: i64,
    /// Previous chapter id, 0 when there is none.
    pub prev_id: i64,
    /// Credential-like trailer.
    pub sl: Sl,
}

/// The trailer, as mathematics.
#[verifier::ext_equal]
pub struct SlV {
    pub e: int,
    pub m: Seq<char>,
}

/// The payload, as mathematics.
#[verifier::ext_equal]
pub struct DecryptResultV {
    pub bid: int,
    pub bname: Seq<char>,
    pub bpic: Seq<char>,
    pub cid: int,
    pub cname: Seq<char>,
    pub files: Seq<Seq<char>>,
    pub finished: bool,
    pub len: int,
    pub path: Seq<char>,
    pub status: int,
    pub block_cc: Seq<char>,
    pub next_id: int,
    pub prev_id: int,
    pub sl: SlV,
}

impl View for Sl {
    type V = SlV;

    open spec fn view(&self) -> SlV {
        SlV { e: self.e as int, m: self.m@ }
    }
}

/// The views of a list of strings.
pub open spec fn strings_view(v: Seq<String>) -> Seq<Seq<char>> {
    Seq::new(v.len(), |i: int| v[i]@)
}

impl View for DecryptResult {
    type V = DecryptResultV;

    open spec fn view(&self) -> DecryptResultV {
        DecryptResultV {
            bid: self.bid as int,
            bname: self.bname@,
            bpic: self.bpic@,
            cid: self.cid as int,
            cname: self.cname@,
            files: strings_view(self.files@),
            finished: self.finished,
            len: self.len as int,
            path: self.path@,
            status: self.status as int,
            block_cc: self.block_cc@,
            next_id: self.next_id as int,
            prev_id: self.prev_id as int,
            sl: self.sl@,
        }
    }
}


/// How many members from position `i` on carry the given key.
pub open spec fn spec_count_key(ms: Seq<(Seq<char>, JsonValueV)>, key: Seq<char>, i: int) -> int
    recommends
        0 <= i <= ms.len(),
    decreases ms.len() - i,
{
    if i < 0 || i >= ms.len() {
        0
    } else if ms[i].0 == key {
        1 + spec_count_key(ms, key, i + 1)
    } else {
        spec_count_key(ms, key, i + 1)
    }
}

/// The value of the first member from position `i` on with the given key.
pub open spec fn spec_lookup_key(
    ms: Seq<(Seq<char>, JsonValueV)>,
    key: Seq<char>,
    i: int,
) -> Option<JsonValueV>
    recommends
        0 <= i <= ms.len(),
    decreases ms.len() - i,
{
    if i < 0 || i >= ms.len() {
        None
    } else if ms[i].0 == key {
        Some(ms[i].1)
    } else {
        spec_lookup_key(ms, key, i + 1)
    }
}

/// The integer behind a member value, when it is exactly an integer.
pub open spec fn spec_as_int(v: Option<JsonValueV>) -> Option<int> {
    match v {
        Some(JsonValueV::Scalar(JsonScalarV::Int(n))) => Some(n),
        _ => None,
    }
}

/// The text behind a member value, when it is exactly a string.
pub open spec fn spec_as_str(v: Option<JsonValueV>) -> Option<Seq<char>> {
    match v {
        Some(JsonValueV::Scalar(JsonScalarV::Str(t))) => Some(t),
        _ => None,
    }
}

/// The truth value behind a member value, when it is exactly a boolean.
pub open spec fn spec_as_bool(v: Option<JsonValueV>) -> Option<bool> {
    match v {
        Some(JsonValueV::Scalar(JsonScalarV::Bool(b))) => Some(b),
        _ => None,
    }
}

/// The texts of a list of scalars, when every scalar is a string.
pub open spec fn spec_strs_of(items: Seq<JsonScalarV>) -> Option<Seq<Seq<char>>>
    decreases items.len(),
{
    if items.len() == 0 {
        Some(Seq::empty())
    } else {
        match items[0] {
            JsonScalarV::Str(t) => match spec_strs_of(items.drop_first()) {
                Some(rest) => Some(seq![t] + rest),
                None => None,
            },
            _ => None,
        }
    }
}

/// The file list behind a member value, when it is an array of strings.
pub open spec fn spec_as_files(v: Option<JsonValueV>) -> Option<Seq<Seq<char>>> {
    match v {
        Some(JsonValueV::Arr(items)) => spec_strs_of(items),
        _ => None,
    }
}

/// How many scalar members from `i` on carry the given key.
pub open spec fn spec_count_key_sc(
    ms: Seq<(Seq<char>, JsonScalarV)>,
    key: Seq<char>,
    i: int,
) -> int
    recommends
        0 <= i <= ms.len(),
    decreases ms.len() - i,
{
    if i < 0 || i >= ms.len() {
        0
    } else if ms[i].0 == key {
        1 + spec_count_key_sc(ms, key, i + 1)
    } else {
        spec_count_key_sc(ms, key, i + 1)
    }
}

/// The value of the first scalar member from `i` on with the given key.
pub open spec fn spec_lookup_key_sc(
    ms: Seq<(Seq<char>, JsonScalarV)>,
    key: Seq<char>,
    i: int,
) -> Option<JsonScalarV>
    recommends
        0 <= i <= ms.len(),
    decreases ms.len() - i,
{
    if i < 0 || i >= ms.len() {
        None
    } else if ms[i].0 == key {
        Some(ms[i].1)
    } else {
        spec_lookup_key_sc(ms, key, i + 1)
    }
}

/// The trailer behind a member value: an object whose `e` member is an
/// integer and whose `m` member is a string, each present exactly once.
pub open spec fn spec_as_sl(v: Option<JsonValueV>) -> Option<SlV> {
    match v {
        Some(JsonValueV::Obj(ms)) => {
            if spec_count_key_sc(ms, "e"@, 0) != 1 || spec_count_key_sc(ms, "m"@, 0) != 1 {
                None
            } else {
                match (spec_lookup_key_sc(ms, "e"@, 0), spec_lookup_key_sc(ms, "m"@, 0)) {
                    (Some(JsonScalarV::Int(e)), Some(JsonScalarV::Str(m))) => Some(SlV { e, m }),
                    _ => None,
                }
            }
        },
        _ => None,
    }
}

/// An integer field: present exactly once and an integer.
pub open spec fn spec_int_field(ms: Seq<(Seq<char>, JsonValueV)>, key: Seq<char>) -> Option<int> {
    if spec_count_key(ms, key, 0) != 1 {
        None
    } else {
        spec_as_int(spec_lookup_key(ms, key, 0))
    }
}

/// A string field: present exactly once and a string.
pub open spec fn spec_str_field(ms: Seq<(Seq<char>, JsonValueV)>, key: Seq<char>) -> Option<
    Seq<char>,
> {
    if spec_count_key(ms, key, 0) != 1 {
        None
    } else {
        spec_as_str(spec_lookup_key(ms, key, 0))
    }
}

/// A boolean field: present exactly once and a boolean.
pub open spec fn spec_bool_field(ms: Seq<(Seq<char>, JsonValueV)>, key: Seq<char>) -> Option<
    bool,
> {
    if spec_count_key(ms, key, 0) != 1 {
        None
    } else {
        spec_as_bool(spec_lookup_key(ms, key, 0))
    }
}

/// The payload a member list denotes: every field present exactly once with
/// the right shape, unknown keys ignored.
pub open spec fn spec_payload_of_members(ms: Seq<(Seq<char>, JsonValueV)>) -> Option<
    DecryptResultV,
> {
    let bid = spec_int_field(ms, "bid"@);
    let bname = spec_str_field(ms, "bname"@);
    let bpic = spec_str_field(ms, "bpic"@);
    let cid = spec_int_field(ms, "cid"@);
    let cname = spec_str_field(ms, "cname"@);
    let files = if spec_count_key(ms, "files"@, 0) != 1 {
        None
    } else {
        spec_as_files(spec_lookup_key(ms, "files"@, 0))
    };
    let finished = spec_bool_field(ms, "finished"@);
    let len = spec_int_field(ms, "len"@);
    let path = spec_str_field(ms, "path"@);
    let status = spec_int_field(ms, "status"@);
    let block_cc = spec_str_field(ms, "block_cc"@);
    let next_id = spec_int_field(ms, "nextId"@);
    let prev_id = spec_int_field(ms, "prevId"@);
    let sl = if spec_count_key(ms, "sl"@, 0) != 1 {
        None
    } else {
        spec_as_sl(spec_lookup_key(ms, "sl"@, 0))
    };
    if bid is None || bname is None || bpic is None || cid is None || cname is None || files
        is None || finished is None || len is None || path is None || status is None || block_cc
        is None || next_id is None || prev_id is None || sl is None {
        None
    } else {
        Some(
            DecryptResultV {
                bid: bid->0,
                bname: bname->0,
                bpic: bpic->0,
                cid: cid->0,
                cname: cname->0,
                files: files->0,
                finished: finished->0,
                len: len->0,
                path: path->0,
                status: status->0,
                block_cc: block_cc->0,
                next_id: next_id->0,
                prev_id: prev_id->0,
                sl: sl->0,
            },
        )
    }
}

/// Counts the members carrying a key and hands out the first one's value.
fn lookup_unique<'a>(ms: &'a Vec<(Vec<char>, JsonValue)>, key: &Vec<char>) -> (r: Option<
    &'a JsonValue,
>)
    ensures
        match r {
            Some(v) => spec_count_key(members_view(ms@), key@, 0) == 1 && spec_lookup_key(
                members_view(ms@),
                key@,
                0,
            ) == Some(v.view()),
            None => spec_count_key(members_view(ms@), key@, 0) != 1,
        },
{
    let mut count: usize = 0;
    let mut found: Option<&'a JsonValue> = None;
    let mut i: usize = 0;
    while i < ms.len()
        invariant
            i <= ms@.len(),
            count <= i,
            spec_count_key(members_view(ms@), key@, 0) == count + spec_count_key(
                members_view(ms@),
                key@,
                i as int,
            ),
            count == 0 <==> found is None,
            match found {
                Some(v) => spec_lookup_key(members_view(ms@), key@, 0) == Some(v.view()),
                None => spec_lookup_key(members_view(ms@), key@, 0) == spec_lookup_key(
                    members_view(ms@),
                    key@,
                    i as int,
                ),
            },
        decreases ms@.len() - i,
    {
        if chars_eq(&ms[i].0, key) {
            count = count + 1;
            if found.is_none() {
                found = Some(&ms[i].1);
            }
        }
        i = i + 1;
    }
    if count == 1 {
        found
    } else {
        None
    }
}

/// Counts the scalar members carrying a key and hands out the first one's
/// value.
fn lookup_unique_sc<'a>(ms: &'a Vec<(Vec<char>, JsonScalar)>, key: &Vec<char>) -> (r: Option<
    &'a JsonScalar,
>)
    ensures
        match r {
            Some(v) => spec_count_key_sc(crate::json::scalar_members_view(ms@), key@, 0) == 1
                && spec_lookup_key_sc(crate::json::scalar_members_view(ms@), key@, 0) == Some(
                v.view(),
            ),
            None => spec_count_key_sc(crate::json::scalar_members_view(ms@), key@, 0) != 1,
        },
{
    let ghost msv = crate::json::scalar_members_view(ms@);
    let mut count: usize = 0;
    let mut found: Option<&'a JsonScalar> = None;
    let mut i: usize = 0;
    while i < ms.len()
        invariant
            msv == crate::json::scalar_members_view(ms@),
            i <= ms@.len(),
            count <= i,
            spec_count_key_sc(msv, key@, 0) == count + spec_count_key_sc(msv, key@, i as int),
            count == 0 <==> found is None,
            match found {
                Some(v) => spec_lookup_key_sc(msv, key@, 0) == Some(v.view()),
                None => spec_lookup_key_sc(msv, key@, 0) == spec_lookup_key_sc(
                    msv,
                    key@,
                    i as int,
                ),
            },
        decreases ms@.len() - i,
    {
        if chars_eq(&ms[i].0, key) {
            count = count + 1;
            if found.is_none() {
                found = Some(&ms[i].1);
            }
        }
        i = i + 1;
    }
    if count == 1 {
        found
    } else {
        None
    }
}

/// Builds the payload value out of the parsed member list.
pub fn payload_of_members(ms: &Vec<(Vec<char>, JsonValue)>) -> (r: Option<DecryptResult>)
    ensures
        match r {
            Some(p) => spec_payload_of_members(members_view(ms@)) == Some(p@),
            None => spec_payload_of_members(members_view(ms@)) is None,
        },
{
    let bid = match int_field(ms, "bid") {
        Some(v) => v,
        None => {
            return None;
        },
    };
    let bname = match str_field(ms, "bname") {
        Some(v) => v,
        None => {
            return None;
        },
    };
    let bpic = match str_field(ms, "bpic") {
        Some(v) => v,
        None => {
            return None;
        },
    };
    let cid = match int_field(ms, "cid") {
        Some(v) => v,
        None => {
            return None;
        },
    };
    let cname = match str_field(ms, "cname") {
        Some(v) => v,
        None => {
            return None;
        },
    };
    let files = match files_field(ms) {
        Some(v) => v,
        None => {
            return None;
        },
    };
    let finished = match bool_field(ms, "finished") {
        Some(v) => v,
        None => {
            return None;
        },
    };
    let len = match int_field(ms, "len") {
        Some(v) => v,
        None => {
            return None;
        },
    };
    let path = match str_field(ms, "path") {
        Some(v) => v,
        None => {
            return None;
        },
    };
    let status = match int_field(ms, "status") {
        Some(v) => v,
        None => {
            return None;
        },
    };
    let block_cc = match str_field(ms, "block_cc") {
        Some(v) => v,
        None => {
            return None;
        },
    };
    let next_id = match int_field(ms, "nextId") {
        Some(v) => v,
        None => {
            return None;
        },
    };
    let prev_id = match int_field(ms, "prevId") {
        Some(v) => v,
        None => {
            return None;
        },
    };
    let sl = match sl_field(ms) {
        Some(v) => v,
        None => {
            return None;
        },
    };
    Some(
        DecryptResult {
            bid,
            bname,
            bpic,
            cid,
            cname,
            files,
            finished,
            len,
            path,
            status,
            block_cc,
            next_id,
            prev_id,
            sl,
        },
    )
}

fn int_field(ms: &Vec<(Vec<char>, JsonValue)>, key: &str) -> (r: Option<i64>)
    ensures
        match r {
            Some(v) => spec_int_field(members_view(ms@), key@) == Some(v as int),
            None => spec_int_field(members_view(ms@), key@) is None,
        },
{
    let k = str_chars(key);
    match lookup_unique(ms, &k) {
        Some(JsonValue::Scalar(JsonScalar::Int(n))) => Some(*n),
        Some(_) => None,
        None => None,
    }
}

fn str_field(ms: &Vec<(Vec<char>, JsonValue)>, key: &str) -> (r: Option<String>)
    ensures
        match r {
            Some(v) => spec_str_field(members_view(ms@), key@) == Some(v@),
            None => spec_str_field(members_view(ms@), key@) is None,
        },
{
    let k = str_chars(key);
    match lookup_unique(ms, &k) {
        Some(JsonValue::Scalar(JsonScalar::Str(t))) => Some(chars_to_string(t)),
        Some(_) => None,
        None => None,
    }
}

fn bool_field(ms: &Vec<(Vec<char>, JsonValue)>, key: &str) -> (r: Option<bool>)
    ensures
        match r {
            Some(v) => spec_bool_field(members_view(ms@), key@) == Some(v),
            None => spec_bool_field(members_view(ms@), key@) is None,
        },
{
    let k = str_chars(key);
    match lookup_unique(ms, &k) {
        Some(JsonValue::Scalar(JsonScalar::Bool(b))) => Some(*b),
        Some(_) => None,
        None => None,
    }
}

fn files_field(ms: &Vec<(Vec<char>, JsonValue)>) -> (r: Option<Vec<String>>)
    ensures
        match r {
            Some(v) => spec_count_key(members_view(ms@), "files"@, 0) == 1 && spec_as_files(
                spec_lookup_key(members_view(ms@), "files"@, 0),
            ) == Some(strings_view(v@)),
            None => spec_count_key(members_view(ms@), "files"@, 0) != 1 || spec_as_files(
                spec_lookup_key(members_view(ms@), "files"@, 0),
            ) is None,
        },
{
    let k = str_chars("files");
    let items = match lookup_unique(ms, &k) {
        Some(JsonValue::Arr(items)) => items,
        Some(_) => {
            return None;
        },
        None => {
            return None;
        },
    };
    let ghost itemsv = crate::json::scalars_view(items@);
    proof {
        let lv = spec_lookup_key(members_view(ms@), "files"@, 0)->0;
        assert(lv->Arr_0 =~= itemsv);
    }
    let mut out: Vec<String> = Vec::new();
    let mut i: usize = 0;
    while i < items.len()
        invariant
            itemsv == crate::json::scalars_view(items@),
            spec_count_key(members_view(ms@), "files"@, 0) == 1,
            spec_as_files(spec_lookup_key(members_view(ms@), "files"@, 0)) == spec_strs_of(
                itemsv,
            ),
            i <= items@.len(),
            spec_strs_of(itemsv) matches Some(all) ==> strings_view(out@) == all.subrange(
                0,
                i as int,
            ),
            forall|m: int| 0 <= m < i ==> itemsv[m] is Str,
        decreases items@.len() - i,
    {
        match &items[i] {
            JsonScalar::Str(t) => {
                out.push(chars_to_string(t));
                proof {
                    if spec_strs_of(itemsv) is Some {
                        let all = spec_strs_of(itemsv)->0;
                        lemma_strs_of_index(itemsv, i as int);
                        assert(strings_view(out@) =~= all.subrange(0, i + 1 as int));
                    }
                }
            },
            _ => {
                proof {
                    lemma_strs_of_non_str(itemsv, i as int);
                }
                return None;
            },
        }
        i = i + 1;
    }
    proof {
        lemma_strs_of_all_str(itemsv);
        let all = spec_strs_of(itemsv)->0;
        assert(strings_view(out@) =~= all);
    }
    Some(out)
}

/// When every earlier item is a string and item `i` is too, the string list
/// exists up to `i` and its `i`-th entry is that string's text.
proof fn lemma_strs_of_index(items: Seq<JsonScalarV>, i: int)
    requires
        0 <= i < items.len(),
        items[i] is Str,
    ensures
        spec_strs_of(items) matches Some(all) ==> i < all.len() && all[i] == items[i]->Str_0,
    decreases items.len(),
{
    if items.len() > 0 {
        if i > 0 {
            lemma_strs_of_index(items.drop_first(), i - 1);
        } else {
            if spec_strs_of(items) matches Some(all) {
                lemma_strs_of_len(items);
            }
        }
    }
}

/// A non-string item anywhere makes the string list impossible.
proof fn lemma_strs_of_non_str(items: Seq<JsonScalarV>, i: int)
    requires
        0 <= i < items.len(),
        !(items[i] is Str),
    ensures
        spec_strs_of(items) is None,
    decreases items.len(),
{
    if i > 0 {
        lemma_strs_of_non_str(items.drop_first(), i - 1);
    }
}

/// The string list, when it exists, has one entry per item.
proof fn lemma_strs_of_len(items: Seq<JsonScalarV>)
    ensures
        spec_strs_of(items) matches Some(all) ==> all.len() == items.len(),
    decreases items.len(),
{
    if items.len() > 0 {
        lemma_strs_of_len(items.drop_first());
    }
}

/// A list of all-string items always denotes a string list.
proof fn lemma_strs_of_all_str(items: Seq<JsonScalarV>)
    requires
        forall|m: int| 0 <= m < items.len() ==> items[m] is Str,
    ensures
        spec_strs_of(items) is Some,
        spec_strs_of(items) matches Some(all) ==> all.len() == items.len(),
    decreases items.len(),
{
    if items.len() > 0 {
        assert(forall|m: int|
            0 <= m < items.drop_first().len() ==> items.drop_first()[m] == items[m + 1]);
        lemma_strs_of_all_str(items.drop_first());
    }
}

fn sl_field(ms: &Vec<(Vec<char>, JsonValue)>) -> (r: Option<Sl>)
    ensures
        match r {
            Some(v) => spec_count_key(members_view(ms@), "sl"@, 0) == 1 && spec_as_sl(
                spec_lookup_key(members_view(ms@), "sl"@, 0),
            ) == Some(v@),
            None => spec_count_key(members_view(ms@), "sl"@, 0) != 1 || spec_as_sl(
                spec_lookup_key(members_view(ms@), "sl"@, 0),
            ) is None,
        },
{
    let k = str_chars("sl");
    let inner = match lookup_unique(ms, &k) {
        Some(JsonValue::Obj(inner)) => inner,
        Some(_) => {
            return None;
        },
        None => {
            return None;
        },
    };
    let ke = str_chars("e");
    let e = match lookup_unique_sc(inner, &ke) {
        Some(JsonScalar::Int(e)) => *e,
        Some(_) => {
            return None;
        },
        None => {
            return None;
        },
    };
    let km = str_chars("m");
    let m = match lookup_unique_sc(inner, &km) {
        Some(JsonScalar::Str(t)) => chars_to_string(t),
        Some(_) => {
            return None;
        },
        None => {
            return None;
        },
    };
    Some(Sl { e, m })
}


/// The greatest `j <= start` where `}` and `)` stand at `j` and `j + 1`.
pub open spec fn spec_find_close_paren(s: Seq<char>, start: int) -> Option<int>
    decreases start + 1,
{
    if start < 0 || start + 1 >= s.len() {
        None
    } else if s[start] == '}' && s[start + 1] == ')' {
        Some(start)
    } else {
        spec_find_close_paren(s, start - 1)
    }
}

/// The greatest `i <= start` where `(` and `{` stand at `i` and `i + 1`.
pub open spec fn spec_find_open_paren(s: Seq<char>, start: int) -> Option<int>
    decreases start + 1,
{
    if start < 0 || start + 1 >= s.len() {
        None
    } else if s[start] == '(' && s[start + 1] == '{' {
        Some(start)
    } else {
        spec_find_open_paren(s, start - 1)
    }
}

proof fn lemma_find_close_paren_sound(s: Seq<char>, start: int, j: int)
    requires
        spec_find_close_paren(s, start) == Some(j),
    ensures
        0 <= j <= start,
        j + 1 < s.len(),
        s[j] == '}',
        s[j + 1] == ')',
    decreases start + 1,
{
    if start < 0 || start + 1 >= s.len() {
    } else if s[start] == '}' && s[start + 1] == ')' {
    } else {
        lemma_find_close_paren_sound(s, start - 1, j);
    }
}

proof fn lemma_find_open_paren_sound(s: Seq<char>, start: int, i: int)
    requires
        spec_find_open_paren(s, start) == Some(i),
    ensures
        0 <= i <= start,
        i + 1 < s.len(),
        s[i] == '(',
        s[i + 1] == '{',
    decreases start + 1,
{
    if start < 0 || start + 1 >= s.len() {
    } else if s[start] == '(' && s[start + 1] == '{' {
    } else {
        lemma_find_open_paren_sound(s, start - 1, i);
    }
}

fn find_close_paren(s: &Vec<char>, start: usize) -> (r: Option<usize>)
    requires
        start + 1 < s@.len(),
    ensures
        match r {
            Some(j) => Some(j as int) == spec_find_close_paren(s@, start as int) && j + 1
                < s@.len(),
            None => spec_find_close_paren(s@, start as int) is None,
        },
{
    let n = s.len();
    let mut j = start;
    loop
        invariant
            n == s@.len(),
            j + 1 < n,
            spec_find_close_paren(s@, start as int) == spec_find_close_paren(s@, j as int),
        decreases j,
    {
        if s[j] == '}' && s[j + 1] == ')' {
            return Some(j);
        }
        proof {
            assert(spec_find_close_paren(s@, j as int) == spec_find_close_paren(s@, j - 1));
        }
        if j == 0 {
            proof {
                assert(spec_find_close_paren(s@, -1) is None);
            }
            return None;
        }
        j = j - 1;
    }
}

fn find_open_paren(s: &Vec<char>, start: usize) -> (r: Option<usize>)
    requires
        start + 1 < s@.len(),
    ensures
        match r {
            Some(i) => Some(i as int) == spec_find_open_paren(s@, start as int) && i + 1
                < s@.len(),
            None => spec_find_open_paren(s@, start as int) is None,
        },
{
    let n = s.len();
    let mut i = start;
    loop
        invariant
            n == s@.len(),
            i + 1 < n,
            spec_find_open_paren(s@, start as int) == spec_find_open_paren(s@, i as int),
        decreases i,
    {
        if s[i] == '(' && s[i + 1] == '{' {
            return Some(i);
        }
        proof {
            assert(spec_find_open_paren(s@, i as int) == spec_find_open_paren(s@, i - 1));
        }
        if i == 0 {
            proof {
                assert(spec_find_open_paren(s@, -1) is None);
            }
            return None;
        }
        i = i - 1;
    }
}

/// The JSON argument of the rebuilt text: the braces and what stands between
/// them, taken from the last `})` closing and the last `({` opening before
/// it, provided the text has no line break.
pub open spec fn spec_json_capture(js: Seq<char>) -> Option<Seq<char>> {
    if spec_contains_newline(js) || js.len() < 2 {
        None
    } else {
        match spec_find_close_paren(js, js.len() - 2) {
            None => None,
            Some(j) => if j < 2 {
                None
            } else {
                match spec_find_open_paren(js, j - 2) {
                    None => None,
                    Some(i) => Some(js.subrange(i + 1, j + 1)),
                }
            },
        }
    }
}

/// Cuts the JSON argument out of the rebuilt text.
pub fn json_capture(js: &Vec<char>) -> (r: Option<Vec<char>>)
    ensures
        match r {
            Some(cap) => spec_json_capture(js@) == Some(cap@),
            None => spec_json_capture(js@) is None,
        },
{
    if contains_newline(js) {
        return None;
    }
    if js.len() < 2 {
        return None;
    }
    let j = match find_close_paren(js, js.len() - 2) {
        Some(j) => j,
        None => {
            return None;
        },
    };
    if j < 2 {
        return None;
    }
    let i = match find_open_paren(js, j - 2) {
        Some(i) => i,
        None => {
            return None;
        },
    };
    proof {
        lemma_find_close_paren_sound(js@, js@.len() - 2, j as int);
        lemma_find_open_paren_sound(js@, j - 2, i as int);
    }
    Some(copy_range(js, i + 1, j + 1))
}

/// The dictionary the packer describes, as mathematics: one pair per slot.
pub open spec fn spec_dict(a: int, c: int, data: Seq<Seq<char>>) -> Seq<(Seq<char>, Seq<char>)> {
    Seq::new(c as nat, |k: int| (spec_enc(k, a), spec_dict_value(k, a, data)))
}

/// What decryption of a chapter page yields: the payload, or the error of
/// the first stage that fails.
pub open spec fn spec_decrypt(html: Seq<char>) -> Result<DecryptResultV, DecryptError> {
    match spec_extract_raw(html) {
        None => Err(DecryptError::Shape),
        Some((function, a_digits, c_digits, compressed)) => match (
            spec_parse_packer_int(a_digits),
            spec_parse_packer_int(c_digits),
        ) {
            (Some(a), Some(c)) => if a < 2 || a > 62 {
                Err(DecryptError::Shape)
            } else {
                match spec_lz_decompress(compressed) {
                    None => Err(DecryptError::Lz),
                    Some(units) => if units.len() == 0 {
                        Err(DecryptError::Lz)
                    } else {
                        match spec_utf16_decode(units) {
                            None => Err(DecryptError::Utf16),
                            Some(text) => {
                                let data = spec_split(text, '|');
                                if c > data.len() {
                                    Err(DecryptError::Dict)
                                } else {
                                    let js = spec_rewrite(function, spec_dict(a, c, data));
                                    match spec_json_capture(js) {
                                        None => Err(DecryptError::Json),
                                        Some(cap) => match spec_parse_payload(cap) {
                                            None => Err(DecryptError::Json),
                                            Some(ms) => match spec_payload_of_members(ms) {
                                                None => Err(DecryptError::Json),
                                                Some(p) => Ok(p),
                                            },
                                        },
                                    }
                                }
                            },
                        }
                    },
                }
            },
            _ => Err(DecryptError::Shape),
        },
    }
}

/// Decrypts a chapter page into its image-URL payload.
///
/// The page is searched for the packer; its compressed word list is
/// decompressed; the packed text is rebuilt through the substitution
/// dictionary; and the JSON argument of the rebuilt text is parsed into the
/// payload. Each stage that fails names itself in the error.
pub fn decrypt(html: &str) -> (r: Result<DecryptResult, DecryptError>)
    ensures
        match r {
            Ok(p) => spec_decrypt(html@) == Ok::<DecryptResultV, DecryptError>(p@),
            Err(e) => spec_decrypt(html@) == Err::<DecryptResultV, DecryptError>(e),
        },
{
    let chars = str_chars(html);
    let (function, a_digits, c_digits, compressed) = match extract_raw(&chars) {
        Some(t) => t,
        None => {
            return Err(DecryptError::Shape);
        },
    };
    let a = match parse_packer_int(&a_digits) {
        Some(a) => a,
        None => {
            return Err(DecryptError::Shape);
        },
    };
    let c = match parse_packer_int(&c_digits) {
        Some(c) => c,
        None => {
            return Err(DecryptError::Shape);
        },
    };
    if a < 2 || a > 62 {
        return Err(DecryptError::Shape);
    }
    let compressed_str = chars_to_string(&compressed);
    let units = match lz_decompress_base64(compressed_str.as_str()) {
        Some(units) => units,
        None => {
            return Err(DecryptError::Lz);
        },
    };
    if units.len() == 0 {
        return Err(DecryptError::Lz);
    }
    let text = match utf16_to_string(&units) {
        Some(text) => text,
        None => {
            return Err(DecryptError::Utf16);
        },
    };
    let text_chars = str_chars(text.as_str());
    let data = split_chars(&text_chars, '|');
    if c as usize > data.len() {
        return Err(DecryptError::Dict);
    }
    let dict = create_dict(a as u32, c as u32, &data);
    proof {
        assert(pair_views(dict@) =~= spec_dict(a as int, c as int, views_of(data@)));
    }
    let js = create_js(&function, &dict);
    let cap = match json_capture(&js) {
        Some(cap) => cap,
        None => {
            return Err(DecryptError::Json);
        },
    };
    let ms = match parse_payload(&cap) {
        Some(ms) => ms,
        None => {
            return Err(DecryptError::Json);
        },
    };
    match payload_of_members(&ms) {
        Some(p) => Ok(p),
        None => Err(DecryptError::Json),
    }
}

} // verus!

//! Small verified helpers for working with strings as sequences of `char`s,
//! plus decimal formatting of integers.

use vstd::prelude::*;

verus! {

use vstd::std_specs::iter::IteratorSpec;

broadcast use vstd::string::group_string_axioms;

/// Appends one character to a string.
///
/// Relies on `String::push`, whose documentation says it appends the given
/// `char` to the end of this `String`.
#[verifier::external_body]
pub fn push_char(s: &mut String, c: char)
    ensures
        final(s)@ == old(s)@ + seq![c],
{
    s.push(c);
}

/// Collects the characters of a string slice into a vector.
pub fn str_chars(s: &str) -> (v: Vec<char>)
    ensures
        v@ == s@,
{
    let mut it = s.chars();
    let mut v: Vec<char> = Vec::new();
    loop
        invariant
            s@ == v@ + it.remaining(),
            it.obeys_prophetic_iter_laws(),
            it.decrease() is Some,
        decreases it.decrease()->0,
    {
        match it.next() {
            Some(c) => { v.push(c); }
            None => {
                proof {
                    assert(v@ =~= s@);
                }
                return v;
            }
        }
    }
}

/// Builds a string from a vector of characters.
pub fn chars_to_string(v: &Vec<char>) -> (s: String)
    ensures
        s@ == v@,
{
    let mut s = String::new();
    let mut i: usize = 0;
    while i < v.len()
        invariant
            i <= v@.len(),
            s@ == v@.subrange(0, i as int),
        decreases v@.len() - i,
    {
        push_char(&mut s, v[i]);
        i = i + 1;
    }
    proof {
        assert(s@ =~= v@);
    }
    s
}

/// Decimal digits of a non-negative integer, most significant first.
pub open spec fn spec_dec_digits(n: int) -> Seq<char>
    decreases n,
{
    if n < 10 {
        seq![spec_digit_char(n)]
    } else {
        spec_dec_digits(n / 10) + seq![spec_digit_char(n % 10)]
    }
}

/// The character for one decimal digit.
pub open spec fn spec_digit_char(d: int) -> char {
    ((('0' as int) + d) as u8) as char
}

/// Formats a `u64` in decimal.
pub fn u64_to_dec_string(n: u64) -> (s: String)
    ensures
        s@ == spec_dec_digits(n as int),
{
    let v = u64_dec_chars(n);
    chars_to_string(&v)
}

/// Decimal digits of `n` as a character vector.
pub fn u64_dec_chars(n: u64) -> (v: Vec<char>)
    ensures
        v@ == spec_dec_digits(n as int),
    decreases n,
{
    if n < 10 {
        let c = digit_char((n % 10) as u8);
        let mut v: Vec<char> = Vec::new();
        v.push(c);
        proof {
            assert(v@ =~= spec_dec_digits(n as int));
        }
        v
    } else {
        let mut v = u64_dec_chars(n / 10);
        let c = digit_char((n % 10) as u8);
        v.push(c);
        proof {
            assert(v@ =~= spec_dec_digits(n as int));
        }
        v
    }
}

/// The character for one decimal digit.
pub fn digit_char(d: u8) -> (c: char)
    requires
        d < 10,
    ensures
        c == spec_digit_char(d as int),
{
    let zero: u8 = 48;
    (zero + d) as char
}


/// Decimal text of a signed integer: a minus sign for negative values, then
/// the digits of the magnitude.
pub open spec fn spec_i64_dec_digits(n: int) -> Seq<char> {
    if n >= 0 {
        spec_dec_digits(n)
    } else {
        seq!['-'] + spec_dec_digits(-n)
    }
}

/// Formats an `i64` in decimal.
pub fn i64_to_dec_string(n: i64) -> (s: String)
    ensures
        s@ == spec_i64_dec_digits(n as int),
{
    if n >= 0 {
        u64_to_dec_string(n as u64)
    } else {
        let m: u64 = if n == i64::MIN {
            9223372036854775808u64
        } else {
            (-n) as u64
        };
        let mut s = String::new();
        push_char(&mut s, '-');
        let digits = u64_dec_chars(m);
        let mut i: usize = 0;
        while i < digits.len()
            invariant
                i <= digits@.len(),
                s@ == seq!['-'] + digits@.subrange(0, i as int),
            decreases digits@.len() - i,
        {
            push_char(&mut s, digits[i]);
            proof {
                assert(s@ =~= seq!['-'] + digits@.subrange(0, i + 1 as int));
            }
            i = i + 1;
        }
        proof {
            assert(digits@.subrange(0, digits@.len() as int) =~= digits@);
        }
        s
    }
}

/// The value of a run of decimal digit characters, most significant first.
pub open spec fn spec_digits_val_of(ds: Seq<char>) -> int
    decreases ds.len(),
{
    if ds.len() == 0 {
        0
    } else {
        spec_digits_val_of(ds.drop_last()) * 10 + (ds.last() as int - 48)
    }
}

/// The decimal digits of a value read back as that value.
pub proof fn lemma_dec_digits_val(n: int)
    requires
        n >= 0,
    ensures
        spec_digits_val_of(spec_dec_digits(n)) == n,
    decreases n,
{
    if n < 10 {
        assert(spec_dec_digits(n) =~= seq![spec_digit_char(n)]);
        assert(spec_dec_digits(n).drop_last() =~= Seq::<char>::empty());
        assert(spec_digits_val_of(Seq::<char>::empty()) == 0);
        assert(spec_digit_char(n) as int == 48 + n);
    } else {
        lemma_dec_digits_val(n / 10);
        assert(spec_dec_digits(n).drop_last() =~= spec_dec_digits(n / 10));
        assert(spec_dec_digits(n).last() == spec_digit_char(n % 10));
        assert(spec_digit_char(n % 10) as int == 48 + n % 10);
    }
}

/// How many decimal digits a value has.
pub proof fn lemma_dec_digits_len(n: int)
    requires
        n >= 0,
    ensures
        n < 10 ==> spec_dec_digits(n).len() == 1,
        10 <= n < 100 ==> spec_dec_digits(n).len() == 2,
        100 <= n < 1000 ==> spec_dec_digits(n).len() == 3,
        n >= 1000 ==> spec_dec_digits(n).len() >= 4,
    decreases n,
{
    if n >= 10 {
        lemma_dec_digits_len(n / 10);
    }
}
} // verus!

//! The highest and the lowest of the integers in a space-separated text.
use crate::text::digit_char;
use vstd::prelude::*;

verus! {

/// The pieces of `s` between single spaces, as `str::split(' ')` gives
/// them: `n` spaces make `n + 1` pieces, some of them possibly empty.
pub open spec fn split_spaces(s: Seq<char>) -> Seq<Seq<char>>
    decreases s.len(),
{
    if s.len() == 0 {
        seq![Seq::<char>::empty()]
    } else {
        let rest = split_spaces(s.drop_last());
        if s.last() == ' ' {
            rest.push(Seq::<char>::empty())
        } else {
            rest.update(rest.len() - 1, rest.last().push(s.last()))
        }
    }
}

pub open spec fn is_digit(c: char) -> bool {
    '0' <= c && c <= '9'
}

/// The value of a string of decimal digits.
pub open spec fn digits_value(d: Seq<char>) -> int
    decreases d.len(),
{
    if d.len() == 0 {
        0
    } else {
        digits_value(d.drop_last()) * 10 + (d.last() as int - '0' as int)
    }
}

/// What `i32`'s `from_str` makes of `t`: an optional `+` or `-` and at least
/// one decimal digit, and nothing else, with a value that fits.
pub open spec fn parse_i32(t: Seq<char>) -> Option<i32> {
    let signed = t.len() > 0 && (t[0] == '-' || t[0] == '+');
    let d = if signed {
        t.drop_first()
    } else {
        t
    };
    let v = if signed && t[0] == '-' {
        -digits_value(d)
    } else {
        digits_value(d)
    };
    if d.len() > 0 && (forall|i: int| 0 <= i < d.len() ==> is_digit(#[trigger] d[i])) && i32::MIN <= v
        <= i32::MAX {
        Some(v as i32)
    } else {
        None
    }
}

/// The numbers among `tokens`, in order; the other pieces are skipped.
pub open spec fn numbers_in(tokens: Seq<Seq<char>>) -> Seq<i32>
    decreases tokens.len(),
{
    if tokens.len() == 0 {
        Seq::empty()
    } else {
        let rest = numbers_in(tokens.drop_last());
        match parse_i32(tokens.last()) {
            Some(v) => rest.push(v),
            None => rest,
        }
    }
}

pub open spec fn seq_max(s: Seq<i32>) -> i32
    decreases s.len(),
{
    if s.len() <= 1 {
        s[0]
    } else if seq_max(s.drop_last()) >= s.last() {
        seq_max(s.drop_last())
    } else {
        s.last()
    }
}

pub open spec fn seq_min(s: Seq<i32>) -> i32
    decreases s.len(),
{
    if s.len() <= 1 {
        s[0]
    } else if seq_min(s.drop_last()) <= s.last() {
        seq_min(s.drop_last())
    } else {
        s.last()
    }
}

/// The decimal digits of `n`, without leading zeros.
pub open spec fn digits_of(n: nat) -> Seq<char>
    decreases n,
{
    if n < 10 {
        seq![digit_char(n)]
    } else {
        digits_of(n / 10).push(digit_char(n % 10))
    }
}

/// `n` as `Display` writes it: a `-` before negative numbers.
pub open spec fn decimal(n: int) -> Seq<char> {
    if n < 0 {
        seq!['-'] + digits_of((-n) as nat)
    } else {
        digits_of(n as nat)
    }
}

/// Relies on `str::split` with a `char` pattern: the pieces between the
/// occurrences of `' '`, in order.
#[verifier::external_body]
fn split_on_space(s: &str) -> (r: Vec<&str>)
    ensures
        r@.len() == split_spaces(s@).len(),
        forall|i: int| 0 <= i < r@.len() ==> (#[trigger] r@[i])@ == split_spaces(s@)[i],
{
    s.split(' ').collect()
}

/// Relies on `i32`'s `FromStr`: an optional sign and decimal digits, and an
/// error for anything else or a value out of range.
#[verifier::external_body]
fn parse_number(t: &str) -> (r: Option<i32>)
    ensures
        r == parse_i32(t@),
{
    t.parse().ok()
}

/// Relies on `format!` with `i32`'s `Display`: both numbers in decimal with
/// a space between.
#[verifier::external_body]
fn show_pair(a: i32, b: i32) -> (r: String)
    ensures
        r@ == decimal(a as int) + seq![' '] + decimal(b as int),
{
    format!("{} {}", a, b)
}

/// `"max min"` of the numbers in the space-separated `numbers`; pieces that
/// are not numbers are skipped.
pub fn high_and_low(numbers: &str) -> (r: String)
    requires
        numbers_in(split_spaces(numbers@)).len() > 0,
    ensures
        r@ == decimal(seq_max(numbers_in(split_spaces(numbers@))) as int) + seq![' '] + decimal(
            seq_min(numbers_in(split_spaces(numbers@))) as int,
        ),
{
    let tokens = split_on_space(numbers);
    let ghost pieces = split_spaces(numbers@);
    let mut found = false;
    let mut hi: i32 = 0;
    let mut lo: i32 = 0;
    let mut k: usize = 0;
    while k < tokens.len()
        invariant
            k <= tokens@.len(),
            tokens@.len() == pieces.len(),
            forall|i: int| 0 <= i < tokens@.len() ==> (#[trigger] tokens@[i])@ == pieces[i],
            found <==> numbers_in(pieces.subrange(0, k as int)).len() > 0,
            found ==> hi == seq_max(numbers_in(pieces.subrange(0, k as int))),
            found ==> lo == seq_min(numbers_in(pieces.subrange(0, k as int))),
        decreases tokens.len() - k,
    {
        assert(pieces.subrange(0, k + 1).drop_last() == pieces.subrange(0, k as int));
        assert(tokens@[k as int]@ == pieces[k as int]);
        let ghost before = numbers_in(pieces.subrange(0, k as int));
        match parse_number(tokens[k]) {
            Some(v) => {
                assert(numbers_in(pieces.subrange(0, k + 1)) == before.push(v));
                assert(before.push(v).drop_last() == before);
                if !found || v > hi {
                    hi = v;
                }
                if !found || v < lo {
                    lo = v;
                }
                found = true;
            },
            None => {},
        }
        k = k + 1;
    }
    assert(pieces.subrange(0, pieces.len() as int) == pieces);
    show_pair(hi, lo)
}

} // verus!

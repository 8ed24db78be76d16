//! Decimal integers: printing (`{}` of an unsigned integer) and parsing
//! (`str::parse` into an unsigned integer type), with the exact errors.

use vstd::prelude::*;
use crate::text::{chars_of, push_str};

verus! {

/// The kinds of error of parsing an unsigned integer (`IntErrorKind`).
#[derive(Debug, Clone, Copy, PartialEq, Eq, Structural)]
pub enum IntErrorKind {
    Empty,
    InvalidDigit,
    PosOverflow,
}

/// The character of the decimal digit `d`.
pub open spec fn digit_char(d: nat) -> char {
    (48 + d) as char
}

/// `c` is one of `0` to `9`.
pub open spec fn is_digit(c: char) -> bool {
    48 <= (c as u32) <= 57
}

/// The value of the decimal digit `c`.
pub open spec fn digit_value(c: char) -> nat {
    ((c as u32) - 48) as nat
}

/// The decimal representation of `n`, without leading zeros.
pub open spec fn decimal(n: nat) -> Seq<char>
    decreases n,
{
    if n < 10 {
        seq![digit_char(n)]
    } else {
        decimal(n / 10).push(digit_char(n % 10))
    }
}

/// Reading the digits `d` from left to right onto `acc`, as the standard
/// library does: the first character that is no digit is an invalid digit,
/// and a value above `max` on the way is an overflow.
pub open spec fn scan_digits(d: Seq<char>, acc: nat, max: nat) -> Result<nat, IntErrorKind>
    decreases d.len(),
{
    if d.len() == 0 {
        Ok(acc)
    } else if !is_digit(d[0]) {
        Err(IntErrorKind::InvalidDigit)
    } else if acc * 10 + digit_value(d[0]) > max {
        Err(IntErrorKind::PosOverflow)
    } else {
        scan_digits(d.drop_first(), acc * 10 + digit_value(d[0]), max)
    }
}

/// What parsing `s` into an unsigned integer type whose largest value is
/// `max` gives: an optional `+`, then at least one digit.
pub open spec fn parse_unsigned(s: Seq<char>, max: nat) -> Result<nat, IntErrorKind> {
    if s.len() == 0 {
        Err(IntErrorKind::Empty)
    } else if s.len() == 1 && (s[0] == '+' || s[0] == '-') {
        Err(IntErrorKind::InvalidDigit)
    } else if s[0] == '+' {
        scan_digits(s.drop_first(), 0, max)
    } else {
        scan_digits(s, 0, max)
    }
}

/// The message of a parse error (`ParseIntError`'s `Display`).
pub open spec fn int_error_message(e: IntErrorKind) -> Seq<char> {
    match e {
        IntErrorKind::Empty => "cannot parse integer from empty string"@,
        IntErrorKind::InvalidDigit => "invalid digit found in string"@,
        IntErrorKind::PosOverflow => "number too large to fit in target type"@,
    }
}

/// The message of a parse error.
pub fn int_error_text(e: IntErrorKind) -> (r: String)
    ensures
        r@ == int_error_message(e),
{
    let mut r = String::new();
    match e {
        IntErrorKind::Empty => push_str(&mut r, "cannot parse integer from empty string"),
        IntErrorKind::InvalidDigit => push_str(&mut r, "invalid digit found in string"),
        IntErrorKind::PosOverflow => push_str(&mut r, "number too large to fit in target type"),
    }
    r
}

/// Appends the decimal representation of `n` to `s`.
pub fn push_decimal(s: &mut String, n: u64)
    ensures
        final(s)@ == old(s)@ + decimal(n as nat),
    decreases n,
{
    if n >= 10 {
        push_decimal(s, n / 10);
    }
    let d = (n % 10) as u32 + 48;
    let c = char_of_digit(d);
    let ghost before = s@;
    let one = single(c);
    push_str(s, one.as_str());
    assert(decimal(n as nat) == (if n < 10 { Seq::<char>::empty() } else { decimal((n / 10) as nat) }).push(digit_char((n % 10) as nat)));
}

/// The one-character string `c`.
fn single(c: char) -> (r: String)
    ensures
        r@ == seq![c],
{
    let v: Vec<char> = vec![c];
    let r = crate::text::string_from(v.as_slice(), 0, 1);
    assert(v@.subrange(0, 1) =~= seq![c]);
    r
}

/// The digit character with code `d`.
fn char_of_digit(d: u32) -> (c: char)
    requires
        48 <= d <= 57,
    ensures
        c as u32 == d,
{
    if d == 48 { '0' } else if d == 49 { '1' } else if d == 50 { '2' } else if d == 51 { '3' }
    else if d == 52 { '4' } else if d == 53 { '5' } else if d == 54 { '6' } else if d == 55 { '7' }
    else if d == 56 { '8' } else { '9' }
}

/// The decimal representation of `n` (`n.to_string()`).
pub fn decimal_string(n: u64) -> (r: String)
    ensures
        r@ == decimal(n as nat),
{
    let mut r = String::new();
    push_decimal(&mut r, n);
    r
}

/// Reads the digits `v[from..]` onto zero.
fn scan_chars(v: &[char], from: usize, max: u64) -> (r: Result<u64, IntErrorKind>)
    requires
        from <= v@.len(),
    ensures
        match r {
            Ok(n) => n <= max && scan_digits(v@.subrange(from as int, v@.len() as int), 0, max as nat) == Ok::<nat, IntErrorKind>(n as nat),
            Err(e) => scan_digits(v@.subrange(from as int, v@.len() as int), 0, max as nat) == Err::<nat, IntErrorKind>(e),
        },
{
    let n = v.len();
    let mut acc: u64 = 0;
    let mut i = from;
    while i < n
        invariant
            from <= i <= n == v@.len(),
            acc <= max,
            scan_digits(v@.subrange(from as int, n as int), 0, max as nat) == scan_digits(
                v@.subrange(i as int, n as int),
                acc as nat,
                max as nat,
            ),
        decreases n - i,
    {
        let c = v[i];
        let code = c as u32;
        assert(v@.subrange(i as int, n as int)[0] == c);
        assert(v@.subrange(i as int, n as int).drop_first() == v@.subrange(i + 1, n as int));
        if code < 48 || code > 57 {
            return Err(IntErrorKind::InvalidDigit);
        }
        let next: u128 = acc as u128 * 10 + (code - 48) as u128;
        if next > max as u128 {
            return Err(IntErrorKind::PosOverflow);
        }
        acc = next as u64;
        i += 1;
    }
    Ok(acc)
}

/// Parses `s` as an unsigned integer no larger than `max`.
pub fn parse_bounded(s: &str, max: u64) -> (r: Result<u64, IntErrorKind>)
    ensures
        match r {
            Ok(n) => n <= max && parse_unsigned(s@, max as nat) == Ok::<nat, IntErrorKind>(n as nat),
            Err(e) => parse_unsigned(s@, max as nat) == Err::<nat, IntErrorKind>(e),
        },
{
    let v = chars_of(s);
    let n = v.len();
    if n == 0 {
        return Err(IntErrorKind::Empty);
    }
    if n == 1 && (v[0] == '+' || v[0] == '-') {
        return Err(IntErrorKind::InvalidDigit);
    }
    if v[0] == '+' {
        assert(v@.subrange(1, n as int) == v@.drop_first());
        scan_chars(v.as_slice(), 1, max)
    } else {
        assert(v@.subrange(0, n as int) == v@);
        scan_chars(v.as_slice(), 0, max)
    }
}

/// `s.parse::<u64>()`.
pub fn parse_u64(s: &str) -> (r: Result<u64, IntErrorKind>)
    ensures
        match r {
            Ok(n) => parse_unsigned(s@, u64::MAX as nat) == Ok::<nat, IntErrorKind>(n as nat),
            Err(e) => parse_unsigned(s@, u64::MAX as nat) == Err::<nat, IntErrorKind>(e),
        },
{
    parse_bounded(s, u64::MAX)
}

/// `s.parse::<usize>()`.
pub fn parse_usize(s: &str) -> (r: Result<usize, IntErrorKind>)
    ensures
        match r {
            Ok(n) => parse_unsigned(s@, usize::MAX as nat) == Ok::<nat, IntErrorKind>(n as nat),
            Err(e) => parse_unsigned(s@, usize::MAX as nat) == Err::<nat, IntErrorKind>(e),
        },
{
    let max = usize::MAX as u64;
    match parse_bounded(s, max) {
        Ok(n) => Ok(n as usize),
        Err(e) => Err(e),
    }
}

// ------------------------------------------------------------------
// Laws
// ------------------------------------------------------------------

/// The digit characters read back as their digits.
pub proof fn lemma_digit_char(d: nat)
    requires
        d < 10,
    ensures
        is_digit(digit_char(d)),
        digit_value(digit_char(d)) == d,
{
    vstd::utf8::char_u32_cast(digit_char(d), (48 + d) as u32);
}

/// Scanning digits in two parts: the second part continues from the value
/// of the first.
pub proof fn lemma_scan_append(d1: Seq<char>, d2: Seq<char>, acc: nat, max: nat)
    ensures
        scan_digits(d1, acc, max) matches Ok(a) ==> scan_digits(d1 + d2, acc, max) == scan_digits(
            d2,
            a,
            max,
        ),
    decreases d1.len(),
{
    if d1.len() > 0 {
        assert((d1 + d2)[0] == d1[0]);
        assert((d1 + d2).drop_first() =~= d1.drop_first() + d2);
        if is_digit(d1[0]) && acc * 10 + digit_value(d1[0]) <= max {
            lemma_scan_append(d1.drop_first(), d2, acc * 10 + digit_value(d1[0]), max);
        }
    } else {
        assert(d1 + d2 =~= d2);
    }
}

/// The decimal representation of `n` is made of digits and starts with one.
pub proof fn lemma_decimal_digits(n: nat)
    ensures
        decimal(n).len() >= 1,
        forall|i: int| 0 <= i < decimal(n).len() ==> is_digit(#[trigger] decimal(n)[i]),
    decreases n,
{
    lemma_digit_char(n % 10);
    if n >= 10 {
        lemma_decimal_digits(n / 10);
    } else {
        lemma_digit_char(n);
    }
}

/// Scanning the decimal representation of `n` gives `n`.
pub proof fn lemma_scan_decimal(n: nat, max: nat)
    requires
        n <= max,
    ensures
        scan_digits(decimal(n), 0, max) == Ok::<nat, IntErrorKind>(n),
    decreases n,
{
    if n < 10 {
        lemma_digit_char(n);
        assert(decimal(n).drop_first() =~= Seq::<char>::empty());
        assert(scan_digits(Seq::<char>::empty(), n, max) == Ok::<nat, IntErrorKind>(n));
    } else {
        lemma_scan_decimal(n / 10, max);
        lemma_digit_char(n % 10);
        lemma_scan_append(decimal(n / 10), seq![digit_char(n % 10)], 0, max);
        assert(decimal(n) == decimal(n / 10) + seq![digit_char(n % 10)]);
        assert((n / 10) * 10 + n % 10 == n);
        assert(seq![digit_char(n % 10)].drop_first() =~= Seq::<char>::empty());
        assert(scan_digits(Seq::<char>::empty(), n, max) == Ok::<nat, IntErrorKind>(n));
        assert(scan_digits(seq![digit_char(n % 10)], n / 10, max) == Ok::<nat, IntErrorKind>(n));
    }
}

/// Parsing what printing `n` gives yields `n` again: a number printed in
/// decimal reads back unchanged, as long as it fits the type.
pub proof fn law_parse_decimal(n: nat, max: nat)
    requires
        n <= max,
    ensures
        parse_unsigned(decimal(n), max) == Ok::<nat, IntErrorKind>(n),
{
    lemma_scan_decimal(n, max);
    lemma_decimal_digits(n);
    assert(is_digit(decimal(n)[0]));
}

/// `10` to the power `k`.
pub open spec fn pow10(k: nat) -> nat
    decreases k,
{
    if k == 0 {
        1
    } else {
        10 * pow10((k - 1) as nat)
    }
}

/// A number below `10^k` has at most `k` decimal digits.
pub proof fn lemma_decimal_len(n: nat, k: nat)
    requires
        k >= 1,
        n < pow10(k),
    ensures
        decimal(n).len() <= k,
    decreases n,
{
    if n >= 10 {
        assert(k >= 2) by {
            if k == 1 {
                assert(pow10(1) == 10 * pow10(0));
            }
        }
        assert(pow10(k) == 10 * pow10((k - 1) as nat));
        lemma_decimal_len(n / 10, (k - 1) as nat);
    }
}

/// A `u64` has at most twenty decimal digits.
pub proof fn lemma_decimal_len_u64(n: nat)
    requires
        n <= u64::MAX,
    ensures
        decimal(n).len() <= 20,
{
    reveal_with_fuel(pow10, 21);
    assert(pow10(20) == 100000000000000000000nat);
    lemma_decimal_len(n, 20);
}

/// Leading zeros do not change the value that digits read as.
pub proof fn lemma_scan_zeros(z: nat, max: nat)
    ensures
        scan_digits(Seq::new(z, |i: int| '0'), 0, max) == Ok::<nat, IntErrorKind>(0),
    decreases z,
{
    let zs = Seq::new(z, |i: int| '0');
    if z > 0 {
        assert(zs.drop_first() =~= Seq::new((z - 1) as nat, |i: int| '0'));
        assert(is_digit('0') && digit_value('0') == 0) by {
            lemma_digit_char(0);
            assert(digit_char(0) == '0');
        }
        lemma_scan_zeros((z - 1) as nat, max);
    }
}

/// Digits with leading zeros read as the number that the digits without
/// them give.
pub proof fn law_parse_padded_decimal(z: nat, n: nat, max: nat)
    requires
        n <= max,
    ensures
        parse_unsigned(Seq::new(z, |i: int| '0') + decimal(n), max) == Ok::<nat, IntErrorKind>(n),
{
    let zs = Seq::new(z, |i: int| '0');
    let t = zs + decimal(n);
    lemma_scan_zeros(z, max);
    lemma_scan_decimal(n, max);
    lemma_scan_append(zs, decimal(n), 0, max);
    lemma_decimal_digits(n);
    if z > 0 {
        assert(t[0] == '0');
    } else {
        assert(t =~= decimal(n));
        assert(is_digit(decimal(n)[0]));
    }
}

} // verus!

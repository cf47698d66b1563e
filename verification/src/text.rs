//! Character classes and text building shared by the scanner, the token
//! stream and the parser.

use vstd::prelude::*;
use vstd::string::*;

verus! {

/// Whether `c` has the Unicode `Alphabetic` property.
pub uninterp spec fn alphabetic(c: char) -> bool;

/// Whether `c` is alphabetic or numeric in the Unicode sense.
pub uninterp spec fn alphanumeric(c: char) -> bool;

/// `char::is_alphabetic` decides membership in the Unicode `Alphabetic`
/// class; the class itself is not spelled out here, only named.
pub assume_specification[ char::is_alphabetic ](c: char) -> (r: bool)
    ensures
        r == alphabetic(c),
;

/// `char::is_alphanumeric` decides membership in the Unicode alphabetic and
/// numeric classes taken together; the classes are only named here.
pub assume_specification[ char::is_alphanumeric ](c: char) -> (r: bool)
    ensures
        r == alphanumeric(c),
;

/// `String::push` appends exactly one character at the end of the string.
pub assume_specification[ String::push ](s: &mut String, ch: char)
    ensures
        final(s)@ == old(s)@.push(ch),
;

/// Space, line feed, tab and carriage return separate tokens.
pub open spec fn is_blank(c: char) -> bool {
    c == ' ' || c == '\n' || c == '\t' || c == '\r'
}

/// Whether `c` is one of the ten decimal digits.
pub open spec fn is_decimal_digit(c: char) -> bool {
    '0' <= c && c <= '9'
}

/// The number a decimal digit stands for.
pub open spec fn digit_value(c: char) -> nat
    recommends
        is_decimal_digit(c),
{
    (c as int - '0' as int) as nat
}

/// The decimal digit that stands for `d`.
pub open spec fn digit_char(d: nat) -> char
    recommends
        d < 10,
{
    if d == 0 {
        '0'
    } else if d == 1 {
        '1'
    } else if d == 2 {
        '2'
    } else if d == 3 {
        '3'
    } else if d == 4 {
        '4'
    } else if d == 5 {
        '5'
    } else if d == 6 {
        '6'
    } else if d == 7 {
        '7'
    } else if d == 8 {
        '8'
    } else {
        '9'
    }
}

/// The number written by a sequence of decimal digits, most significant
/// digit first. The empty sequence writes zero.
pub open spec fn digits_value(digits: Seq<char>) -> nat
    decreases digits.len(),
{
    if digits.len() == 0 {
        0
    } else {
        digits_value(digits.drop_last()) * 10 + digit_value(digits.last())
    }
}

/// `n` written in decimal without leading zeros.
pub open spec fn nat_text(n: nat) -> Seq<char>
    decreases n,
{
    if n < 10 {
        seq![digit_char(n)]
    } else {
        nat_text(n / 10).push(digit_char(n % 10))
    }
}

/// The last `width` decimal digits of `n`, padded with zeros on the left.
pub open spec fn padded_text(n: nat, width: nat) -> Seq<char>
    decreases width,
{
    if width == 0 {
        Seq::<char>::empty()
    } else {
        padded_text(n / 10, (width - 1) as nat).push(digit_char(n % 10))
    }
}

/// `i` written in decimal, with a leading minus sign when negative.
pub open spec fn int_text(i: int) -> Seq<char> {
    if i < 0 {
        seq!['-'] + nat_text((-i) as nat)
    } else {
        nat_text(i as nat)
    }
}

/// Ten to the power `e`.
pub open spec fn pow10(e: nat) -> nat
    decreases e,
{
    if e == 0 {
        1
    } else {
        10 * pow10((e - 1) as nat)
    }
}

/// The text of a diagnostic: where the fault lies, then what it is.
pub open spec fn diagnostic_text(line: int, column: int, message: Seq<char>) -> Seq<char> {
    "Error at "@ + int_text(line) + ":"@ + int_text(column) + ": "@ + message
}

/// Whether `c` separates tokens.
pub fn is_blank_char(c: char) -> (r: bool)
    ensures
        r == is_blank(c),
{
    c == ' ' || c == '\n' || c == '\t' || c == '\r'
}

/// Whether `c` is a decimal digit.
pub fn is_digit_char(c: char) -> (r: bool)
    ensures
        r == is_decimal_digit(c),
{
    '0' <= c && c <= '9'
}

/// The number that the decimal digit `c` stands for.
pub fn value_of_digit(c: char) -> (d: u64)
    requires
        is_decimal_digit(c),
    ensures
        d == digit_value(c),
        d < 10,
{
    (c as u32 - '0' as u32) as u64
}

/// The decimal digit that stands for `d`.
pub fn char_of_digit(d: u64) -> (c: char)
    requires
        d < 10,
    ensures
        c == digit_char(d as nat),
{
    if d == 0 {
        '0'
    } else if d == 1 {
        '1'
    } else if d == 2 {
        '2'
    } else if d == 3 {
        '3'
    } else if d == 4 {
        '4'
    } else if d == 5 {
        '5'
    } else if d == 6 {
        '6'
    } else if d == 7 {
        '7'
    } else if d == 8 {
        '8'
    } else {
        '9'
    }
}

/// The characters of `s`, in order.
pub fn chars_of(s: &str) -> (v: Vec<char>)
    ensures
        v@ == s@,
{
    let mut v: Vec<char> = Vec::new();
    for c in it: s.chars()
        invariant
            v@ == it.seq().take(it.index() as int),
            it.seq() == s@,
    {
        v.push(c);
    }
    v
}

/// The string spelled by `v[from..to]`.
pub fn string_of(v: &Vec<char>, from: usize, to: usize) -> (s: String)
    requires
        from <= to <= v.len(),
    ensures
        s@ == v@.subrange(from as int, to as int),
{
    let mut s = String::new();
    let mut i: usize = from;
    while i < to
        invariant
            from <= i <= to <= v.len(),
            s@ == v@.subrange(from as int, i as int),
        decreases to - i,
    {
        s.push(v[i]);
        i += 1;
    }
    s
}

/// Appends `n` in decimal.
pub fn push_nat(s: &mut String, n: u64)
    ensures
        final(s)@ == old(s)@ + nat_text(n as nat),
    decreases n,
{
    if n >= 10 {
        push_nat(s, n / 10);
    }
    s.push(char_of_digit(n % 10));
}

/// Appends the last `width` decimal digits of `n`, zero-padded.
pub fn push_padded(s: &mut String, n: u64, width: u8)
    ensures
        final(s)@ == old(s)@ + padded_text(n as nat, width as nat),
    decreases width,
{
    if width > 0 {
        push_padded(s, n / 10, width - 1);
        s.push(char_of_digit(n % 10));
    }
}

/// Appends `i` in decimal.
pub fn push_int(s: &mut String, i: i32)
    ensures
        final(s)@ == old(s)@ + int_text(i as int),
{
    if i < 0 {
        s.push('-');
        let magnitude: i64 = -(i as i64);
        push_nat(s, magnitude as u64);
    } else {
        push_nat(s, i as u64);
    }
}

/// Powers of ten are positive and grow with the exponent.
pub proof fn lemma_pow10_grows(a: nat, b: nat)
    requires
        a <= b,
    ensures
        1 <= pow10(a) <= pow10(b),
    decreases b,
{
    if a < b {
        lemma_pow10_grows(a, (b - 1) as nat);
    } else if a > 0 {
        lemma_pow10_grows((a - 1) as nat, (b - 1) as nat);
    }
}

/// Exponents add when powers of ten are multiplied.
pub proof fn lemma_pow10_sum(a: nat, b: nat)
    ensures
        pow10(a + b) == pow10(a) * pow10(b),
    decreases a,
{
    if a == 0 {
        assert(pow10(0) == 1);
        assert((0 + b) as nat == b);
    } else {
        let less = (a - 1) as nat;
        lemma_pow10_sum(less, b);
        assert((a + b - 1) as nat == less + b);
        assert(pow10(a + b) == 10 * pow10(less + b));
        assert(pow10(a) == 10 * pow10(less));
        assert(10 * (pow10(less) * pow10(b)) == (10 * pow10(less)) * pow10(b))
            by (nonlinear_arith);
    }
}

/// The powers of ten that the comparison of decimals rests on.
pub proof fn lemma_pow10_values()
    ensures
        pow10(4) == 10_000,
        pow10(14) == 100_000_000_000_000,
        pow10(18) == 1_000_000_000_000_000_000,
{
    reveal_with_fuel(pow10, 20);
}

/// Ten to the power `e`, for exponents whose power fits in 64 bits.
pub fn power_of_ten(e: u8) -> (p: u64)
    requires
        e <= 18,
    ensures
        p == pow10(e as nat),
        1 <= p <= 1_000_000_000_000_000_000,
    decreases e,
{
    proof {
        lemma_pow10_grows(e as nat, 18);
        lemma_pow10_values();
    }
    if e == 0 {
        1
    } else {
        10 * power_of_ten(e - 1)
    }
}

/// Builds the diagnostic for a fault at `line`:`column`.
pub fn format_diagnostic(line: i32, column: i32, message: &str) -> (text: String)
    ensures
        text@ == diagnostic_text(line as int, column as int, message@),
{
    let mut text = String::from_str("Error at ");
    push_int(&mut text, line);
    text.append(":");
    push_int(&mut text, column);
    text.append(": ");
    text.append(message);
    text
}

} // verus!

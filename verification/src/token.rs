//! Token kinds, payloads and the cursor-addressed token stream.

use vstd::prelude::*;
use vstd::string::*;
use crate::text::{
    diagnostic_text, digit_value, digits_value, format_diagnostic, int_text, is_decimal_digit,
    lemma_pow10_grows, lemma_pow10_sum, lemma_pow10_values, nat_text, padded_text, pow10,
    power_of_ten, push_int, push_nat, push_padded, value_of_digit,
};

verus! {

/// The closed set of token kinds.
#[derive(Clone, Copy, Debug, PartialEq, Eq, Structural)]
pub enum TokenType {
    Assign,
    ArithOp,
    CompOp,
    Number,
    Text,
    Identifier,
    LParen,
    RParen,
    LBrace,
    RBrace,
    LBracket,
    RBracket,
    Comma,
    SemiColon,
    Colon,
    If,
    Else,
    ElseIf,
    While,
    For,
    Let,
    Fn,
    Return,
    Boolean,
    New,
    Class,
    Public,
    Protected,
    Private,
    VarType,
}

/// The name a token kind goes by in diagnostics.
pub open spec fn kind_name(kind: TokenType) -> Seq<char> {
    match kind {
        TokenType::Assign => "Assign"@,
        TokenType::ArithOp => "Arithmetic operator"@,
        TokenType::CompOp => "Comparison operator"@,
        TokenType::Number => "Number"@,
        TokenType::Text => "Text"@,
        TokenType::Identifier => "Identifier"@,
        TokenType::LParen => "Left parenthesis"@,
        TokenType::RParen => "Right parenthesis"@,
        TokenType::LBrace => "Left brace"@,
        TokenType::RBrace => "Right brace"@,
        TokenType::LBracket => "Left bracket"@,
        TokenType::RBracket => "Right bracket"@,
        TokenType::Comma => "Comma"@,
        TokenType::SemiColon => "Semicolon"@,
        TokenType::Colon => "Colon"@,
        TokenType::If => "If"@,
        TokenType::Else => "Else"@,
        TokenType::ElseIf => "Else if"@,
        TokenType::While => "While"@,
        TokenType::For => "For"@,
        TokenType::Let => "Let"@,
        TokenType::Fn => "Fn"@,
        TokenType::Return => "Return"@,
        TokenType::Boolean => "Boolean"@,
        TokenType::New => "New"@,
        TokenType::Class => "Class"@,
        TokenType::Public => "Public"@,
        TokenType::Protected => "Protected"@,
        TokenType::Private => "Private"@,
        TokenType::VarType => "Type"@,
    }
}

impl TokenType {
    /// The name of this kind, as diagnostics print it.
    pub fn name(&self) -> (text: &'static str)
        ensures
            text@ == kind_name(*self),
    {
        match self {
            TokenType::Assign => "Assign",
            TokenType::ArithOp => "Arithmetic operator",
            TokenType::CompOp => "Comparison operator",
            TokenType::Number => "Number",
            TokenType::Text => "Text",
            TokenType::Identifier => "Identifier",
            TokenType::LParen => "Left parenthesis",
            TokenType::RParen => "Right parenthesis",
            TokenType::LBrace => "Left brace",
            TokenType::RBrace => "Right brace",
            TokenType::LBracket => "Left bracket",
            TokenType::RBracket => "Right bracket",
            TokenType::Comma => "Comma",
            TokenType::SemiColon => "Semicolon",
            TokenType::Colon => "Colon",
            TokenType::If => "If",
            TokenType::Else => "Else",
            TokenType::ElseIf => "Else if",
            TokenType::While => "While",
            TokenType::For => "For",
            TokenType::Let => "Let",
            TokenType::Fn => "Fn",
            TokenType::Return => "Return",
            TokenType::Boolean => "Boolean",
            TokenType::New => "New",
            TokenType::Class => "Class",
            TokenType::Public => "Public",
            TokenType::Protected => "Protected",
            TokenType::Private => "Private",
            TokenType::VarType => "Type",
        }
    }

    /// The name of this kind as an owned string.
    pub fn to_string(&self) -> (text: String)
        ensures
            text@ == kind_name(*self),
    {
        String::from_str(self.name())
    }
}

/// The most decimal places that a decimal keeps.
pub const MAX_SCALE: u8 = 18;

/// The least number of nineteen digits: a decimal whose digits have
/// reached it takes no further digit.
pub const FULL: u64 = 1_000_000_000_000_000_000;

/// What is kept of the numeral `digits`, of which the last `places` stand
/// behind the decimal point: the digits kept, read as one number; how
/// many of them stand behind the point; and how many digits before the
/// point were left out behind them. Digits are kept from the left, up to
/// nineteen of them and up to `MAX_SCALE` behind the point.
pub open spec fn read_parts(digits: Seq<char>, places: nat) -> (nat, nat, nat)
    decreases digits.len(),
{
    if digits.len() == 0 {
        (0, 0, 0)
    } else if places == 0 {
        let before = read_parts(digits.drop_last(), 0);
        if before.0 < FULL {
            (before.0 * 10 + digit_value(digits.last()), 0, 0)
        } else {
            (before.0, 0, before.2 + 1)
        }
    } else {
        let before = read_parts(digits.drop_last(), (places - 1) as nat);
        if before.2 == 0 && before.0 < FULL && before.1 < MAX_SCALE {
            (before.0 * 10 + digit_value(digits.last()), before.1 + 1, 0)
        } else {
            before
        }
    }
}

/// Whether the parts make a decimal: at most `MAX_SCALE` places, and
/// digits left out only behind nineteen digits that all stand before the
/// point.
pub open spec fn parts_fit(digits: nat, places: nat, raised: nat) -> bool {
    &&& digits <= u64::MAX
    &&& places <= MAX_SCALE
    &&& raised <= u32::MAX
    &&& raised > 0 ==> places == 0 && digits >= FULL
}

/// What is kept of a numeral makes a decimal.
pub proof fn lemma_read_parts_fit(digits: Seq<char>, places: nat)
    requires
        forall|i: int| 0 <= i < digits.len() ==> is_decimal_digit(#[trigger] digits[i]),
        digits.len() <= u32::MAX,
    ensures
        ({
            let parts = read_parts(digits, places);
            &&& parts_fit(parts.0, parts.1, parts.2)
            &&& parts.0 < 10 * FULL
            &&& parts.1 <= places
            &&& parts.2 <= digits.len()
        }),
    decreases digits.len(),
{
    if digits.len() > 0 {
        let rest = digits.drop_last();
        assert(is_decimal_digit(digits[digits.len() - 1]));
        if places == 0 {
            lemma_read_parts_fit(rest, 0);
        } else {
            lemma_read_parts_fit(rest, (places - 1) as nat);
        }
    }
}

/// What is kept of a numeral is the numeral cut off: with as many zeros
/// behind it as digits were left out, it is at most the numeral's digits
/// read as one number, and one more in its last digit is beyond them. No
/// digit is left out before nineteen digits, or `MAX_SCALE` digits behind
/// the point, are kept.
pub proof fn lemma_read_parts_cut(digits: Seq<char>, places: nat)
    requires
        forall|i: int| 0 <= i < digits.len() ==> is_decimal_digit(#[trigger] digits[i]),
        places <= digits.len(),
    ensures
        ({
            let parts = read_parts(digits, places);
            let left_out = (parts.2 + places - parts.1) as nat;
            &&& parts.1 <= places
            &&& parts.1 <= MAX_SCALE
            &&& parts.2 > 0 ==> parts.1 == 0 && parts.0 >= FULL
            &&& parts.0 * pow10(left_out) <= digits_value(digits)
            &&& digits_value(digits) < (parts.0 + 1) * pow10(left_out)
            &&& left_out > 0 ==> parts.0 >= FULL || parts.1 == MAX_SCALE
        }),
    decreases digits.len(),
{
    if digits.len() == 0 {
        assert(pow10(0) == 1);
    } else {
        let rest = digits.drop_last();
        let less = if places == 0 {
            0nat
        } else {
            (places - 1) as nat
        };
        lemma_read_parts_cut(rest, less);
        assert(is_decimal_digit(digits[digits.len() - 1]));
        let before = read_parts(rest, less);
        let parts = read_parts(digits, places);
        let d = digit_value(digits.last()) as int;
        let out_before = (before.2 + less - before.1) as nat;
        let left_out = (parts.2 + places - parts.1) as nat;
        let m = before.0 as int;
        let low = digits_value(rest) as int;
        let unit = pow10(out_before) as int;
        assert(pow10(0) == 1);
        let kept = if places == 0 {
            before.0 < FULL
        } else {
            before.2 == 0 && before.0 < FULL && before.1 < MAX_SCALE
        };
        if !kept {
            // the last digit is left out
            assert(left_out == out_before + 1);
            assert(pow10(left_out) == 10 * unit);
            assert(m * (10 * unit) <= 10 * low + d && 10 * low + d < (m + 1) * (10 * unit))
                by (nonlinear_arith)
                requires
                    m * unit <= low,
                    low < (m + 1) * unit,
                    0 <= d <= 9,
            ;
        } else {
            // the last digit is kept, and so were all before it
            assert(out_before == 0);
            assert(left_out == 0);
            assert(m * 1 == m);
            assert((m + 1) * 1 == m + 1);
        }
    }
}

/// A numeral below `10^14` is read to within `10^-4`: no zeros stand
/// behind what is kept, and where digits are left out, four digits or
/// more behind the point are kept, so that what is cut off is less than
/// one in the fourth place.
pub proof fn lemma_read_parts_near(digits: Seq<char>, places: nat)
    requires
        forall|i: int| 0 <= i < digits.len() ==> is_decimal_digit(#[trigger] digits[i]),
        places <= digits.len(),
        digits_value(digits) < pow10(14 + places),
    ensures
        ({
            let parts = read_parts(digits, places);
            let left_out = (places - parts.1) as nat;
            &&& parts.2 == 0
            &&& parts.1 <= places
            &&& parts.0 * pow10(left_out) <= digits_value(digits)
            &&& digits_value(digits) < parts.0 * pow10(left_out) + pow10(left_out)
            &&& left_out > 0 ==> parts.1 >= 4
        }),
{
    lemma_read_parts_cut(digits, places);
    let parts = read_parts(digits, places);
    let left_out = (parts.2 + places - parts.1) as nat;
    let m = parts.0 as int;
    let unit = pow10(left_out) as int;
    assert((m + 1) * unit == m * unit + unit) by (nonlinear_arith);
    if parts.0 >= FULL {
        lemma_pow10_values();
        lemma_pow10_sum(18, left_out);
        assert(pow10(18) * unit <= m * unit) by (nonlinear_arith)
            requires
                pow10(18) <= m,
                unit >= 0,
        ;
        if 18 + left_out >= 14 + places {
            lemma_pow10_grows(14 + places, 18 + left_out);
        }
    }
}

/// A numeral whose digits, read as one number, are fewer than twenty, and
/// of which at most `MAX_SCALE` stand behind the point, is kept whole.
pub proof fn lemma_read_parts_exact(digits: Seq<char>, places: nat)
    requires
        places <= digits.len(),
        places <= MAX_SCALE,
        digits_value(digits) < 10 * FULL,
    ensures
        read_parts(digits, places) == (digits_value(digits), places, 0nat),
    decreases digits.len(),
{
    if digits.len() > 0 {
        let rest = digits.drop_last();
        if places == 0 {
            lemma_read_parts_exact(rest, 0);
        } else {
            lemma_read_parts_exact(rest, (places - 1) as nat);
        }
    }
}

/// A decimal number: `mantissa * 10^exponent / 10^scale`. It is the
/// payload of float and double literals and holds every such literal: up
/// to nineteen digits exactly, with up to `MAX_SCALE` of them behind the
/// point, and of a longer numeral its leading digits. Two values are the
/// same when their parts are the same; `approx_eq` compares what they
/// measure.
#[derive(Clone, Copy, Debug, PartialEq, Eq, Structural)]
pub struct Decimal {
    mantissa: u64,
    scale: u8,
    exponent: u32,
}

impl Decimal {
    #[verifier::type_invariant]
    spec fn bounded(self) -> bool {
        parts_fit(self.mantissa as nat, self.scale as nat, self.exponent as nat)
    }

    /// The digits of the number, read as one natural number.
    pub closed spec fn digits(self) -> nat {
        self.mantissa as nat
    }

    /// How many of the digits stand behind the decimal point.
    pub closed spec fn places(self) -> nat {
        self.scale as nat
    }

    /// How many zeros stand behind the digits.
    pub closed spec fn raised(self) -> nat {
        self.exponent as nat
    }

    /// The number with the digits `digits`, of which the last `places`
    /// stand behind the decimal point, and with `raised` zeros behind the
    /// digits.
    pub closed spec fn of(digits: nat, places: nat, raised: nat) -> Decimal {
        Decimal { mantissa: digits as u64, scale: places as u8, exponent: raised as u32 }
    }

    /// The decimal that the numeral `digits` is read as, of which the last
    /// `places` stand behind the decimal point.
    pub open spec fn reading(digits: Seq<char>, places: nat) -> Decimal {
        let parts = read_parts(digits, places);
        Decimal::of(parts.0, parts.1, parts.2)
    }

    /// The number in units of `10^-18`, which every value of the type
    /// measures without remainder.
    pub open spec fn scaled(self) -> int {
        (self.digits() * pow10(self.raised()) * pow10((MAX_SCALE - self.places()) as nat)) as int
    }

    /// Whether two numbers differ by less than `10^-4`.
    pub open spec fn close_to(self, other: Decimal) -> bool {
        let gap = self.scaled() - other.scaled();
        -pow10(14) < gap && gap < pow10(14)
    }

    /// The number as diagnostics print it: the integral digits, then a
    /// point and the fractional digits where there are any.
    pub open spec fn text(self) -> Seq<char> {
        let unit = pow10(self.places());
        let whole = nat_text(self.digits() / unit);
        if self.raised() > 0 {
            whole + Seq::new(self.raised(), |i: int| '0')
        } else if self.places() == 0 {
            whole
        } else {
            whole + "."@ + padded_text(self.digits() % unit, self.places())
        }
    }

    /// `mantissa / 10^scale`, if `scale` is within `MAX_SCALE`.
    pub fn new(mantissa: u64, scale: u8) -> (made: Option<Decimal>)
        ensures
            made == if scale <= MAX_SCALE {
                Some(Decimal::of(mantissa as nat, scale as nat, 0))
            } else {
                None
            },
    {
        if scale <= MAX_SCALE {
            Some(Decimal { mantissa, scale, exponent: 0 })
        } else {
            None
        }
    }

    /// `mantissa * 10^exponent`, if the mantissa has nineteen digits or
    /// more, or if the exponent is zero.
    pub fn raised_by(mantissa: u64, exponent: u32) -> (made: Option<Decimal>)
        ensures
            made == if exponent == 0 || mantissa >= FULL {
                Some(Decimal::of(mantissa as nat, 0, exponent as nat))
            } else {
                None
            },
    {
        if exponent == 0 || mantissa >= FULL {
            Some(Decimal { mantissa, scale: 0, exponent })
        } else {
            None
        }
    }

    /// Reads the numeral whose digits before the point are
    /// `v[start..point]` and whose digits behind it are `v[after..stop]`.
    pub fn read(v: &Vec<char>, start: usize, point: usize, after: usize, stop: usize) -> (made:
        Decimal)
        requires
            start <= point <= after <= stop <= v.len(),
            v.len() <= u32::MAX,
            forall|i: int| start <= i < point ==> is_decimal_digit(#[trigger] v[i]),
            forall|i: int| after <= i < stop ==> is_decimal_digit(#[trigger] v[i]),
        ensures
            made == Decimal::reading(
                v@.subrange(start as int, point as int) + v@.subrange(after as int, stop as int),
                (stop - after) as nat,
            ),
    {
        let mut mantissa: u64 = 0;
        let mut scale: u8 = 0;
        let mut exponent: u32 = 0;
        let ghost whole = v@.subrange(start as int, point as int);
        let mut i: usize = start;
        assert(v@.subrange(start as int, start as int) =~= Seq::<char>::empty());
        while i < point
            invariant
                start <= i <= point <= v.len(),
                v.len() <= u32::MAX,
                forall|i: int| start <= i < point ==> is_decimal_digit(#[trigger] v[i]),
                (mantissa as nat, scale as nat, exponent as nat) == read_parts(
                    v@.subrange(start as int, i as int),
                    0,
                ),
                parts_fit(mantissa as nat, scale as nat, exponent as nat),
                mantissa < 10 * FULL,
                exponent <= i - start,
            decreases point - i,
        {
            proof {
                let read = v@.subrange(start as int, i as int);
                assert(read.push(v[i as int]) =~= v@.subrange(start as int, i + 1));
                assert(read.push(v[i as int]).drop_last() =~= read);
            }
            if mantissa < FULL {
                mantissa = mantissa * 10 + value_of_digit(v[i]);
            } else {
                exponent = exponent + 1;
            }
            i += 1;
        }
        let mut j: usize = after;
        assert(whole + v@.subrange(after as int, after as int) =~= whole);
        while j < stop
            invariant
                start <= point <= after <= j <= stop <= v.len(),
                whole == v@.subrange(start as int, point as int),
                forall|i: int| after <= i < stop ==> is_decimal_digit(#[trigger] v[i]),
                (mantissa as nat, scale as nat, exponent as nat) == read_parts(
                    whole + v@.subrange(after as int, j as int),
                    (j - after) as nat,
                ),
                parts_fit(mantissa as nat, scale as nat, exponent as nat),
                mantissa < 10 * FULL,
            decreases stop - j,
        {
            proof {
                let read = whole + v@.subrange(after as int, j as int);
                assert(read.push(v[j as int]) =~= whole + v@.subrange(after as int, j + 1));
                assert(read.push(v[j as int]).drop_last() =~= read);
            }
            if exponent == 0 && mantissa < FULL && scale < MAX_SCALE {
                mantissa = mantissa * 10 + value_of_digit(v[j]);
                scale = scale + 1;
            }
            j += 1;
        }
        Decimal { mantissa, scale, exponent }
    }

    /// A numeral of fewer than twenty digits, of which at most
    /// `MAX_SCALE` stand behind the point, is read exactly: the decimal
    /// has the numeral's digits and places, and no zeros behind them.
    pub proof fn lemma_reading_exact(digits: Seq<char>, places: nat)
        requires
            places <= digits.len(),
            places <= MAX_SCALE,
            digits_value(digits) < 10 * FULL,
        ensures
            Decimal::reading(digits, places).digits() == digits_value(digits),
            Decimal::reading(digits, places).places() == places,
            Decimal::reading(digits, places).raised() == 0,
            Decimal::reading(digits, places) == Decimal::of(digits_value(digits), places, 0),
    {
        lemma_read_parts_exact(digits, places);
    }

    /// A number made of parts that fit has those parts.
    pub proof fn lemma_of(digits: nat, places: nat, raised: nat)
        requires
            parts_fit(digits, places, raised),
        ensures
            Decimal::of(digits, places, raised).digits() == digits,
            Decimal::of(digits, places, raised).places() == places,
            Decimal::of(digits, places, raised).raised() == raised,
    {
    }

    /// The digits of the number, read as one natural number.
    pub fn mantissa(&self) -> (m: u64)
        ensures
            m == self.digits(),
    {
        self.mantissa
    }

    /// How many of the digits stand behind the decimal point.
    pub fn scale(&self) -> (s: u8)
        ensures
            s == self.places(),
            s <= MAX_SCALE,
    {
        proof {
            use_type_invariant(self);
        }
        self.scale
    }

    /// How many zeros stand behind the digits.
    pub fn exponent(&self) -> (e: u32)
        ensures
            e == self.raised(),
    {
        self.exponent
    }

    /// Whether the two numbers differ by less than `10^-4`.
    pub fn approx_eq(&self, other: &Decimal) -> (close: bool)
        ensures
            close == self.close_to(*other),
    {
        if self.exponent >= other.exponent {
            Decimal::close(self, other)
        } else {
            Decimal::close(other, self)
        }
    }

    /// Whether the two numbers differ by less than `10^-4`, where `high`
    /// has no fewer zeros behind its digits than `low`.
    fn close(high: &Decimal, low: &Decimal) -> (close: bool)
        requires
            high.exponent >= low.exponent,
        ensures
            close == high.close_to(*low),
            close == low.close_to(*high),
    {
        proof {
            use_type_invariant(high);
            use_type_invariant(low);
            lemma_pow10_values();
            lemma_close(
                high.mantissa as nat,
                high.scale as nat,
                high.exponent as nat,
                low.mantissa as nat,
                low.scale as nat,
                low.exponent as nat,
            );
        }
        let apart: u32 = high.exponent - low.exponent;
        if apart >= 2 {
            return false;
        }
        let lift: u64 = if apart == 1 {
            10
        } else {
            1
        };
        let up_high: u64 = power_of_ten(MAX_SCALE - high.scale);
        let up_low: u64 = power_of_ten(MAX_SCALE - low.scale);
        proof {
            assert(pow10(1) == 10 && pow10(0) == 1) by {
                reveal_with_fuel(pow10, 3);
            }
            assert(apart == 1 ==> up_high == 1_000_000_000_000_000_000);
            assert(high.mantissa * lift * up_high <= 0xffff_ffff_ffff_ffff * 10
                * 1_000_000_000_000_000_000) by (nonlinear_arith)
                requires
                    high.mantissa <= 0xffff_ffff_ffff_ffff,
                    lift <= 10,
                    up_high <= 1_000_000_000_000_000_000,
            ;
            assert(low.mantissa * up_low <= 0xffff_ffff_ffff_ffff * 1_000_000_000_000_000_000)
                by (nonlinear_arith)
                requires
                    low.mantissa <= 0xffff_ffff_ffff_ffff,
                    up_low <= 1_000_000_000_000_000_000,
            ;
            assert((high.mantissa as u128) * (lift as u128) <= 0xffff_ffff_ffff_ffff * 10)
                by (nonlinear_arith)
                requires
                    high.mantissa <= 0xffff_ffff_ffff_ffff,
                    lift <= 10,
            ;
        }
        let a: u128 = (high.mantissa as u128) * (lift as u128) * (up_high as u128);
        let b: u128 = (low.mantissa as u128) * (up_low as u128);
        if a >= b {
            a - b < 100_000_000_000_000
        } else {
            b - a < 100_000_000_000_000
        }
    }

    /// The number as diagnostics print it.
    pub fn to_string(&self) -> (text: String)
        ensures
            text@ == self.text(),
    {
        proof {
            use_type_invariant(self);
        }
        let unit: u64 = power_of_ten(self.scale);
        let mut text = String::new();
        push_nat(&mut text, self.mantissa / unit);
        if self.exponent > 0 {
            let ghost whole = text@;
            let mut written: u32 = 0;
            while written < self.exponent
                invariant
                    written <= self.exponent,
                    text@ == whole + Seq::new(written as nat, |i: int| '0'),
                decreases self.exponent - written,
            {
                text.push('0');
                written = written + 1;
                assert(text@ =~= whole + Seq::new(written as nat, |i: int| '0'));
            }
        } else if self.scale > 0 {
            text.append(".");
            push_padded(&mut text, self.mantissa % unit, self.scale);
        }
        text
    }
}

/// Two decimals, the first with no fewer zeros behind its digits than the
/// second: where the first has two zeros more, it is the greater by far;
/// where it has at most one more, the two differ by less than `10^-4`
/// exactly if they do so with the zeros that both have taken away.
pub proof fn lemma_close(m1: nat, s1: nat, e1: nat, m2: nat, s2: nat, e2: nat)
    requires
        e1 >= e2,
        parts_fit(m1, s1, e1),
        parts_fit(m2, s2, e2),
    ensures
        ({
            let apart = (e1 - e2) as nat;
            let gap = m1 * pow10(e1) * pow10((MAX_SCALE - s1) as nat) - m2 * pow10(e2) * pow10(
                (MAX_SCALE - s2) as nat,
            );
            let near = m1 * pow10(apart) * pow10((MAX_SCALE - s1) as nat) - m2 * pow10(
                (MAX_SCALE - s2) as nat,
            );
            &&& apart >= 2 ==> gap >= pow10(14)
            &&& apart <= 1 ==> ((-pow10(14) < gap && gap < pow10(14)) <==> (-pow10(14) < near
                && near < pow10(14)))
        }),
{
    let apart = (e1 - e2) as nat;
    let base = pow10(e2) as int;
    let lift = pow10(apart) as int;
    let a = pow10((MAX_SCALE - s1) as nat) as int;
    let b = pow10((MAX_SCALE - s2) as nat) as int;
    let x = m1 as int;
    let y = m2 as int;
    lemma_pow10_values();
    lemma_pow10_sum(e2, apart);
    lemma_pow10_grows(0, e2);
    lemma_pow10_grows((MAX_SCALE - s1) as nat, 18);
    lemma_pow10_grows((MAX_SCALE - s2) as nat, 18);
    lemma_pow10_grows(0, (MAX_SCALE - s2) as nat);
    assert(pow10(e1) == base * lift);
    let gap = x * (base * lift) * a - y * base * b;
    let near = x * lift * a - y * b;
    assert(gap == base * near) by (nonlinear_arith)
        requires
            gap == x * (base * lift) * a - y * base * b,
            near == x * lift * a - y * b,
    ;
    if apart >= 2 {
        lemma_pow10_grows(2, apart);
        assert(pow10(2) == 100) by {
            reveal_with_fuel(pow10, 3);
        }
        assert(near >= 80_000_000_000_000_000_000_000_000_000_000_000_000) by (nonlinear_arith)
            requires
                near == x * lift * a - y * b,
                x >= 1_000_000_000_000_000_000,
                lift >= 100,
                a == 1_000_000_000_000_000_000,
                0 <= y <= 0xffff_ffff_ffff_ffff,
                1 <= b <= 1_000_000_000_000_000_000,
        ;
        assert(base * near >= near) by (nonlinear_arith)
            requires
                base >= 1,
                near >= 0,
        ;
    } else if e2 == 0 {
        assert(base == 1);
        assert(base * near == near);
    } else {
        let k = x * lift - y;
        assert(near == k * 1_000_000_000_000_000_000) by (nonlinear_arith)
            requires
                near == x * lift * a - y * b,
                a == 1_000_000_000_000_000_000,
                b == 1_000_000_000_000_000_000,
                k == x * lift - y,
        ;
        if k > 0 {
            assert(base * near >= near) by (nonlinear_arith)
                requires
                    base >= 1,
                    near >= 0,
            ;
        } else if k < 0 {
            assert(base * near <= near) by (nonlinear_arith)
                requires
                    base >= 1,
                    near <= 0,
            ;
        } else {
            assert(base * near == 0) by (nonlinear_arith)
                requires
                    near == 0,
            ;
        }
    }
}

/// What a token carries beside its kind: a literal's value, an operator's
/// flavour, a type's tag, or an index into the stream's text table.
#[derive(Clone, Copy, Debug, PartialEq, Eq, Structural)]
pub enum TokenSubType {
    Text(usize),
    FloatNumber(Decimal),
    DoubleNumber(Decimal),
    IntegerNumber(i32),
    Identifier(usize),
    BooleanValue(bool),
    FloatType,
    DoubleType,
    IntegerType,
    BooleanType,
    VoidType,
    StringType,
    Equals,
    Lesser,
    Greater,
    GreaterOrEq,
    LesserOrEq,
    NotEq,
    Assign,
    Plus,
    Minus,
    Multiply,
    Divide,
    NoSubType,
}

/// The spelling of a payload that needs no text table. Interned payloads
/// spell as the empty text here; the token stream resolves them.
pub open spec fn payload_text(payload: TokenSubType) -> Seq<char> {
    match payload {
        TokenSubType::Text(_) => Seq::<char>::empty(),
        TokenSubType::FloatNumber(value) => value.text() + "f"@,
        TokenSubType::DoubleNumber(value) => value.text() + "d"@,
        TokenSubType::IntegerNumber(value) => int_text(value as int),
        TokenSubType::Identifier(_) => Seq::<char>::empty(),
        TokenSubType::BooleanValue(value) => if value {
            "true"@
        } else {
            "false"@
        },
        TokenSubType::FloatType => "float"@,
        TokenSubType::DoubleType => "double"@,
        TokenSubType::IntegerType => "int"@,
        TokenSubType::BooleanType => "bool"@,
        TokenSubType::VoidType => "void"@,
        TokenSubType::StringType => "string"@,
        TokenSubType::Equals => "=="@,
        TokenSubType::Lesser => "<"@,
        TokenSubType::Greater => ">"@,
        TokenSubType::GreaterOrEq => ">="@,
        TokenSubType::LesserOrEq => "<="@,
        TokenSubType::NotEq => "!="@,
        TokenSubType::Assign => "="@,
        TokenSubType::Plus => "+"@,
        TokenSubType::Minus => "-"@,
        TokenSubType::Multiply => "*"@,
        TokenSubType::Divide => "/"@,
        TokenSubType::NoSubType => Seq::<char>::empty(),
    }
}

impl TokenSubType {
    /// The spelling of this payload without recourse to a text table.
    pub fn to_string(&self) -> (text: String)
        ensures
            text@ == payload_text(*self),
    {
        match self {
            TokenSubType::Text(_) => String::new(),
            TokenSubType::FloatNumber(value) => {
                let mut text = value.to_string();
                text.append("f");
                text
            },
            TokenSubType::DoubleNumber(value) => {
                let mut text = value.to_string();
                text.append("d");
                text
            },
            TokenSubType::IntegerNumber(value) => {
                let mut text = String::new();
                push_int(&mut text, *value);
                text
            },
            TokenSubType::Identifier(_) => String::new(),
            TokenSubType::BooleanValue(value) => if *value {
                String::from_str("true")
            } else {
                String::from_str("false")
            },
            TokenSubType::FloatType => String::from_str("float"),
            TokenSubType::DoubleType => String::from_str("double"),
            TokenSubType::IntegerType => String::from_str("int"),
            TokenSubType::BooleanType => String::from_str("bool"),
            TokenSubType::VoidType => String::from_str("void"),
            TokenSubType::StringType => String::from_str("string"),
            TokenSubType::Equals => String::from_str("=="),
            TokenSubType::Lesser => String::from_str("<"),
            TokenSubType::Greater => String::from_str(">"),
            TokenSubType::GreaterOrEq => String::from_str(">="),
            TokenSubType::LesserOrEq => String::from_str("<="),
            TokenSubType::NotEq => String::from_str("!="),
            TokenSubType::Assign => String::from_str("="),
            TokenSubType::Plus => String::from_str("+"),
            TokenSubType::Minus => String::from_str("-"),
            TokenSubType::Multiply => String::from_str("*"),
            TokenSubType::Divide => String::from_str("/"),
            TokenSubType::NoSubType => String::new(),
        }
    }
}

/// A classified lexical unit with its payload and the place where it starts.
#[derive(Clone, Copy, Debug)]
pub struct SyntaxToken {
    pub t_type: TokenType,
    pub t_subtype: TokenSubType,
    pub line: i32,
    pub pos_at_line: i32,
}

/// Whether two payloads agree: fractional numbers of one width when they
/// differ by less than `10^-4`, everything else when it is the same.
pub open spec fn payloads_agree(a: TokenSubType, b: TokenSubType) -> bool {
    match a {
        TokenSubType::FloatNumber(x) => match b {
            TokenSubType::FloatNumber(y) => x.close_to(y),
            _ => false,
        },
        TokenSubType::DoubleNumber(x) => match b {
            TokenSubType::DoubleNumber(y) => x.close_to(y),
            _ => false,
        },
        _ => a == b,
    }
}

/// Tokens are equal when kind and payload agree, wherever they stand.
pub open spec fn tokens_agree(a: SyntaxToken, b: SyntaxToken) -> bool {
    a.t_type == b.t_type && payloads_agree(a.t_subtype, b.t_subtype)
}

impl PartialEq for SyntaxToken {
    fn eq(&self, other: &SyntaxToken) -> (same: bool) {
        if self.t_type == other.t_type {
            match self.t_subtype {
                TokenSubType::FloatNumber(x) => match other.t_subtype {
                    TokenSubType::FloatNumber(y) => x.approx_eq(&y),
                    _ => false,
                },
                TokenSubType::DoubleNumber(x) => match other.t_subtype {
                    TokenSubType::DoubleNumber(y) => x.approx_eq(&y),
                    _ => false,
                },
                _ => self.t_subtype == other.t_subtype,
            }
        } else {
            false
        }
    }
}

impl vstd::std_specs::cmp::PartialEqSpecImpl for SyntaxToken {
    open spec fn obeys_eq_spec() -> bool {
        true
    }

    open spec fn eq_spec(&self, other: &SyntaxToken) -> bool {
        tokens_agree(*self, *other)
    }
}

impl SyntaxToken {
    /// A token of the given kind and payload that starts at the given place.
    pub fn new(token_type: TokenType, subtype: TokenSubType, line: i32, pos_at_line: i32) -> (token:
        SyntaxToken)
        ensures
            token.t_type == token_type,
            token.t_subtype == subtype,
            token.line == line,
            token.pos_at_line == pos_at_line,
    {
        SyntaxToken { t_type: token_type, t_subtype: subtype, line: line, pos_at_line: pos_at_line }
    }
}

/// The texts that a table of strings spells, entry by entry.
pub open spec fn spelled(table: Seq<String>) -> Seq<Seq<char>> {
    Seq::new(table.len(), |i: int| table[i]@)
}

/// Whether a payload that points into a text table points at one of its
/// `count` entries. Payloads that carry no index always resolve.
pub open spec fn resolves(payload: TokenSubType, count: nat) -> bool {
    match payload {
        TokenSubType::Text(index) => index < count,
        TokenSubType::Identifier(index) => index < count,
        _ => true,
    }
}

/// The spelling of a payload, interned texts looked up in `texts`.
pub open spec fn resolved_text(payload: TokenSubType, texts: Seq<Seq<char>>) -> Seq<char> {
    match payload {
        TokenSubType::Text(index) => texts[index as int],
        TokenSubType::Identifier(index) => texts[index as int],
        other => payload_text(other),
    }
}

/// A token as diagnostics show it: its spelling, then the name of its kind
/// in parentheses.
pub open spec fn rendered(token: SyntaxToken, texts: Seq<Seq<char>>) -> Seq<char> {
    resolved_text(token.t_subtype, texts) + " ("@ + kind_name(token.t_type) + ")"@
}

/// The place that diagnostics about the end of input point at: the last
/// token where there is one, the start of the text otherwise.
pub open spec fn end_place(items: Seq<SyntaxToken>) -> (int, int) {
    if items.len() == 0 {
        (1, 1)
    } else {
        (items.last().line as int, items.last().pos_at_line as int)
    }
}

/// What is reported when the token at `at` is not of the kind `wanted`, or
/// when there is no token at `at`.
pub open spec fn mismatch_text(
    items: Seq<SyntaxToken>,
    texts: Seq<Seq<char>>,
    at: int,
    wanted: TokenType,
) -> Seq<char> {
    if 0 <= at < items.len() {
        diagnostic_text(
            items[at].line as int,
            items[at].pos_at_line as int,
            "Token was not of expected type "@ + kind_name(wanted) + ". Was actually "@ + rendered(
                items[at],
                texts,
            ),
        )
    } else {
        diagnostic_text(
            end_place(items).0,
            end_place(items).1,
            "Expected token of type "@ + kind_name(wanted) + ". Instead found end-of-file"@,
        )
    }
}

/// An owned sequence of tokens with a cursor, and the table of the texts
/// that identifier and text tokens point into.
pub struct Tokens {
    text_table: Vec<String>,
    tokens: Vec<SyntaxToken>,
    pos: usize,
}

impl Tokens {
    /// The tokens, consumed or not, in order.
    pub closed spec fn items(&self) -> Seq<SyntaxToken> {
        self.tokens@
    }

    /// How many tokens have been consumed.
    pub closed spec fn cursor(&self) -> nat {
        self.pos as nat
    }

    /// The interned texts, by index.
    pub closed spec fn texts(&self) -> Seq<Seq<char>> {
        spelled(self.text_table@)
    }

    /// No token is left to read.
    pub open spec fn exhausted(&self) -> bool {
        self.cursor() >= self.items().len()
    }

    /// The token under the cursor, if any.
    pub open spec fn current(&self) -> Option<SyntaxToken> {
        if self.exhausted() {
            None
        } else {
            Some(self.items()[self.cursor() as int])
        }
    }

    /// The token after the one under the cursor, if any.
    pub open spec fn following(&self) -> Option<SyntaxToken> {
        if self.cursor() + 1 < self.items().len() {
            Some(self.items()[self.cursor() as int + 1])
        } else {
            None
        }
    }

    /// Every index that a token carries points into the text table.
    pub open spec fn well_formed(&self) -> bool {
        forall|i: int|
            0 <= i < self.items().len() ==> resolves(
                #[trigger] self.items()[i].t_subtype,
                self.texts().len(),
            )
    }

    /// A stream without tokens and without texts.
    pub fn new() -> (stream: Tokens)
        ensures
            stream.items() == Seq::<SyntaxToken>::empty(),
            stream.texts() == Seq::<Seq<char>>::empty(),
            stream.cursor() == 0,
    {
        let stream = Tokens { text_table: Vec::new(), tokens: Vec::new(), pos: 0 };
        assert(stream.texts() =~= Seq::<Seq<char>>::empty());
        stream
    }

    /// Replaces the table that the tokens' indices point into.
    pub fn set_text_table(&mut self, text_table: Vec<String>)
        ensures
            final(self).texts() == spelled(text_table@),
            final(self).items() == old(self).items(),
            final(self).cursor() == old(self).cursor(),
    {
        self.text_table = text_table;
    }

    /// The interned text with the index `index`.
    pub fn get_text(&self, index: usize) -> (text: &str)
        requires
            index < self.texts().len(),
        ensures
            text@ == self.texts()[index as int],
    {
        self.text_table[index].as_str()
    }

    /// Appends a token behind those that the stream holds.
    pub fn push(&mut self, token: SyntaxToken)
        ensures
            final(self).items() == old(self).items().push(token),
            final(self).texts() == old(self).texts(),
            final(self).cursor() == old(self).cursor(),
    {
        self.tokens.push(token);
    }

    /// The token under the cursor, which stays where it is.
    pub fn peek(&self) -> (token: Option<SyntaxToken>)
        ensures
            token == self.current(),
    {
        if !self.invalid_pos() {
            Some(self.tokens[self.pos])
        } else {
            None
        }
    }

    /// The token after the one that `peek` shows.
    pub fn peek_second(&self) -> (token: Option<SyntaxToken>)
        ensures
            token == self.following(),
    {
        if self.pos < self.tokens.len() && self.pos + 1 < self.tokens.len() {
            Some(self.tokens[self.pos + 1])
        } else {
            None
        }
    }

    /// The token under the cursor, which moves on behind it.
    pub fn next(&mut self) -> (token: Option<SyntaxToken>)
        ensures
            final(self).items() == old(self).items(),
            final(self).texts() == old(self).texts(),
            token == old(self).current(),
            final(self).cursor() == if old(self).exhausted() {
                old(self).cursor()
            } else {
                old(self).cursor() + 1
            },
    {
        if self.pos < self.tokens.len() {
            self.pos += 1;
            Some(self.tokens[self.pos - 1])
        } else {
            None
        }
    }

    /// Consumes the next token if it is of the kind `token_type`; if not,
    /// leaves the cursor where it is and says what was found instead.
    pub fn expect(&mut self, token_type: TokenType) -> (found: Result<SyntaxToken, String>)
        requires
            old(self).current() matches Some(token) ==> token.t_type == token_type || resolves(
                token.t_subtype,
                old(self).texts().len(),
            ),
        ensures
            final(self).items() == old(self).items(),
            final(self).texts() == old(self).texts(),
            match found {
                Ok(token) => {
                    &&& !old(self).exhausted()
                    &&& token == old(self).items()[old(self).cursor() as int]
                    &&& token.t_type == token_type
                    &&& final(self).cursor() == old(self).cursor() + 1
                },
                Err(message) => {
                    &&& old(self).exhausted() || old(self).items()[old(
                        self,
                    ).cursor() as int].t_type != token_type
                    &&& final(self).cursor() == old(self).cursor()
                    &&& message@ == mismatch_text(
                        old(self).items(),
                        old(self).texts(),
                        old(self).cursor() as int,
                        token_type,
                    )
                },
            },
    {
        if self.pos >= self.tokens.len() {
            let (line, column) = self.end_position();
            let mut message = String::from_str("Expected token of type ");
            message.append(token_type.name());
            message.append(". Instead found end-of-file");
            Err(format_diagnostic(line, column, message.as_str()))
        } else if self.tokens[self.pos].t_type == token_type {
            self.pos += 1;
            Ok(self.tokens[self.pos - 1])
        } else {
            let token = self.tokens[self.pos];
            let shown = self.to_string(&token);
            let mut message = String::from_str("Token was not of expected type ");
            message.append(token_type.name());
            message.append(". Was actually ");
            message.append(shown.as_str());
            Err(format_diagnostic(token.line, token.pos_at_line, message.as_str()))
        }
    }

    /// How many tokens the stream holds, consumed or not.
    pub fn token_count(&self) -> (count: usize)
        ensures
            count == self.items().len(),
    {
        self.tokens.len()
    }

    /// Whether the cursor stands behind the last token.
    pub fn invalid_pos(&self) -> (done: bool)
        ensures
            done == self.exhausted(),
    {
        self.pos >= self.tokens.len()
    }

    /// Whether every index that a token carries points into the text
    /// table, so that every token can be shown in a diagnostic.
    pub fn is_well_formed(&self) -> (sound: bool)
        ensures
            sound == self.well_formed(),
    {
        let count = self.text_table.len();
        let mut i: usize = 0;
        while i < self.tokens.len()
            invariant
                i <= self.tokens.len(),
                count == self.text_table.len(),
                forall|k: int|
                    0 <= k < i ==> resolves(
                        #[trigger] self.items()[k].t_subtype,
                        self.texts().len(),
                    ),
            decreases self.tokens.len() - i,
        {
            let fits = match self.tokens[i].t_subtype {
                TokenSubType::Text(index) => index < count,
                TokenSubType::Identifier(index) => index < count,
                _ => true,
            };
            if !fits {
                return false;
            }
            i += 1;
        }
        true
    }

    /// Line and column that diagnostics about the end of input carry.
    pub fn end_position(&self) -> (place: (i32, i32))
        ensures
            place.0 as int == end_place(self.items()).0,
            place.1 as int == end_place(self.items()).1,
    {
        let count = self.tokens.len();
        if count == 0 {
            (1, 1)
        } else {
            (self.tokens[count - 1].line, self.tokens[count - 1].pos_at_line)
        }
    }

    /// The token as diagnostics show it, with interned text looked up in
    /// the text table.
    pub fn to_string(&self, token: &SyntaxToken) -> (text: String)
        requires
            resolves(token.t_subtype, self.texts().len()),
        ensures
            text@ == rendered(*token, self.texts()),
    {
        let mut text = match token.t_subtype {
            TokenSubType::Text(index) => self.text_table[index].clone(),
            TokenSubType::Identifier(index) => self.text_table[index].clone(),
            other => other.to_string(),
        };
        text.append(" (");
        text.append(token.t_type.name());
        text.append(")");
        text
    }
}

} // verus!

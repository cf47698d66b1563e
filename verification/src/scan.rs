//! What scanning means: the mathematical description of how source text
//! breaks into tokens, against which the scanner is proved.
//!
//! The description reads a `Source`: the text and, for each character,
//! whether it is a letter and whether it is a letter or digit. Nothing
//! else in it hangs on the Unicode classes, so every statement here holds
//! of whatever marks a text is given.

use vstd::prelude::*;
use crate::text::{
    alphabetic, alphanumeric, diagnostic_text, digits_value, is_blank, is_decimal_digit,
};
use crate::token::{Decimal, SyntaxToken, TokenSubType, TokenType};

verus! {

/// The longest source text, in characters, whose columns fit the 32-bit
/// positions that tokens carry.
pub const MAX_SOURCE_LEN: usize = 0x1fff_ffff;

/// A text together with what is known of each of its characters: whether
/// it is a letter, and whether it is a letter or a digit of any script.
/// The scanner reads these marks and never asks again.
pub struct Source {
    pub chars: Seq<char>,
    pub letter: Seq<bool>,
    pub word: Seq<bool>,
}

/// Whether every character of the text has its marks.
pub open spec fn well_marked(src: Source) -> bool {
    src.letter.len() == src.chars.len() && src.word.len() == src.chars.len()
}

/// The text `chars` with the marks that Unicode gives its characters.
pub open spec fn marked(chars: Seq<char>) -> Source {
    Source {
        chars,
        letter: Seq::new(chars.len(), |i: int| alphabetic(chars[i])),
        word: Seq::new(chars.len(), |i: int| alphanumeric(chars[i])),
    }
}

/// The classes of characters that the scanner reads in runs.
pub enum CharClass {
    /// Token separators.
    Blank,
    /// Anything but a token separator.
    Solid,
    /// Decimal digits.
    Digit,
    /// What may continue an identifier.
    Word,
    /// Anything but a line feed.
    InLine,
}

/// Whether the character `c` belongs to `class`, where `word` says
/// whether `c` is a letter or digit.
pub open spec fn class_holds(class: CharClass, c: char, word: bool) -> bool {
    match class {
        CharClass::Blank => is_blank(c),
        CharClass::Solid => !is_blank(c),
        CharClass::Digit => is_decimal_digit(c),
        CharClass::Word => word || c == '_',
        CharClass::InLine => c != '\n',
    }
}

/// Whether the character at index `at` belongs to `class`.
pub open spec fn in_class(src: Source, at: int, class: CharClass) -> bool {
    class_holds(class, src.chars[at], src.word[at])
}

/// How many characters of `class` stand in a row from index `from` on.
pub open spec fn run_len(src: Source, from: int, class: CharClass) -> nat
    decreases src.chars.len() - from,
{
    if 0 <= from < src.chars.len() && in_class(src, from, class) {
        1 + run_len(src, from + 1, class)
    } else {
        0
    }
}

/// The line on which the character at index `at` stands. Lines count from 1.
pub open spec fn line_at(src: Source, at: int) -> int
    decreases at,
{
    if at <= 0 {
        1
    } else if src.chars[at - 1] == '\n' {
        line_at(src, at - 1) + 1
    } else {
        line_at(src, at - 1)
    }
}

/// The column in which the character at index `at` stands. Columns count
/// from 1, and a tab is four columns wide.
pub open spec fn column_at(src: Source, at: int) -> int
    decreases at,
{
    if at <= 0 {
        1
    } else if src.chars[at - 1] == '\n' {
        1
    } else if src.chars[at - 1] == '\t' {
        column_at(src, at - 1) + 4
    } else {
        column_at(src, at - 1) + 1
    }
}

/// Why a stretch of source text is no token.
#[derive(Clone, Copy, Debug, PartialEq, Eq, Structural)]
pub enum Fault {
    UnexpectedSymbol(char),
    NotAnOperator(char),
    LoneBang,
    NumberOutOfRange,
    MultipleSeparators,
    InvalidTypeChar(char),
    InvalidAfterTypeChar(char),
    InvalidAfterString(char),
    UnterminatedString,
    InvalidEscape(char),
    EscapeAtEnd,
}

/// The message that reports a fault.
pub open spec fn fault_text(fault: Fault) -> Seq<char> {
    match fault {
        Fault::UnexpectedSymbol(c) => "Unexpected symbol "@.push(c),
        Fault::NotAnOperator(c) => "Not an operator: "@.push(c),
        Fault::LoneBang => "Invalid character following '!','=' expected"@,
        Fault::NumberOutOfRange => "Internal error - non-numeric characters in number token"@,
        Fault::MultipleSeparators => "Multiple decimal separators in number"@,
        Fault::InvalidTypeChar(c) => "Invalid type character: "@.push(c),
        Fault::InvalidAfterTypeChar(c) => {
            "Invalid character following number type character: "@.push(c)
        },
        Fault::InvalidAfterString(c) => {
            "Invalid character following closing\" in string: "@.push(c)
        },
        Fault::UnterminatedString => "Unterminated string"@,
        Fault::InvalidEscape(c) => "Invalid escape sequence \\"@.push(c),
        Fault::EscapeAtEnd => "Invalid escape sequence - no character following \\"@,
    }
}

/// Kind and payload of a token, before it is given a place.
pub type Shape = (TokenType, TokenSubType);

/// Whether `c` is one of the characters that spell operators and
/// punctuation.
pub open spec fn is_symbol(c: char) -> bool {
    c == '+' || c == '-' || c == '*' || c == '/' || c == '[' || c == ']' || c == '{' || c == '}'
        || c == '(' || c == ')' || c == '<' || c == '>' || c == '=' || c == ';' || c == ','
        || c == ':' || c == '!'
}

/// Whether the character at index `at` exists and is `c`.
pub open spec fn char_is(src: Source, at: int, c: char) -> bool {
    0 <= at < src.chars.len() && src.chars[at] == c
}

/// The operator or punctuation mark that starts at index `q`, and how many
/// characters it takes up.
pub open spec fn symbol_scan(src: Source, q: int) -> (Result<Shape, Fault>, nat) {
    let c = src.chars[q];
    let plain = TokenSubType::NoSubType;
    if c == '+' {
        (Ok((TokenType::ArithOp, TokenSubType::Plus)), 1)
    } else if c == '-' {
        (Ok((TokenType::ArithOp, TokenSubType::Minus)), 1)
    } else if c == '*' {
        (Ok((TokenType::ArithOp, TokenSubType::Multiply)), 1)
    } else if c == '/' {
        (Ok((TokenType::ArithOp, TokenSubType::Divide)), 1)
    } else if c == '[' {
        (Ok((TokenType::LBracket, plain)), 1)
    } else if c == ']' {
        (Ok((TokenType::RBracket, plain)), 1)
    } else if c == '{' {
        (Ok((TokenType::LBrace, plain)), 1)
    } else if c == '}' {
        (Ok((TokenType::RBrace, plain)), 1)
    } else if c == '(' {
        (Ok((TokenType::LParen, plain)), 1)
    } else if c == ')' {
        (Ok((TokenType::RParen, plain)), 1)
    } else if c == ';' {
        (Ok((TokenType::SemiColon, plain)), 1)
    } else if c == ',' {
        (Ok((TokenType::Comma, plain)), 1)
    } else if c == ':' {
        (Ok((TokenType::Colon, plain)), 1)
    } else if c == '=' {
        if char_is(src, q + 1, '=') {
            (Ok((TokenType::CompOp, TokenSubType::Equals)), 2)
        } else {
            (Ok((TokenType::Assign, plain)), 1)
        }
    } else if c == '>' {
        if char_is(src, q + 1, '=') {
            (Ok((TokenType::CompOp, TokenSubType::GreaterOrEq)), 2)
        } else {
            (Ok((TokenType::CompOp, TokenSubType::Greater)), 1)
        }
    } else if c == '<' {
        if char_is(src, q + 1, '=') {
            (Ok((TokenType::CompOp, TokenSubType::LesserOrEq)), 2)
        } else {
            (Ok((TokenType::CompOp, TokenSubType::Lesser)), 1)
        }
    } else if c == '!' {
        if char_is(src, q + 1, '=') {
            (Ok((TokenType::CompOp, TokenSubType::NotEq)), 2)
        } else if q + 1 < src.chars.len() {
            (Err(Fault::LoneBang), 2)
        } else {
            (Err(Fault::LoneBang), 1)
        }
    } else {
        (Err(Fault::NotAnOperator(c)), 1)
    }
}

/// The token that a reserved word stands for; `None` for any other word.
pub open spec fn keyword(word: Seq<char>) -> Option<Shape> {
    let plain = TokenSubType::NoSubType;
    if word == "if"@ {
        Some((TokenType::If, plain))
    } else if word == "elif"@ {
        Some((TokenType::ElseIf, plain))
    } else if word == "else"@ {
        Some((TokenType::Else, plain))
    } else if word == "while"@ {
        Some((TokenType::While, plain))
    } else if word == "for"@ {
        Some((TokenType::For, plain))
    } else if word == "let"@ {
        Some((TokenType::Let, plain))
    } else if word == "fn"@ {
        Some((TokenType::Fn, plain))
    } else if word == "return"@ {
        Some((TokenType::Return, plain))
    } else if word == "new"@ {
        Some((TokenType::New, plain))
    } else if word == "class"@ {
        Some((TokenType::Class, plain))
    } else if word == "public"@ {
        Some((TokenType::Public, plain))
    } else if word == "protected"@ {
        Some((TokenType::Protected, plain))
    } else if word == "private"@ {
        Some((TokenType::Private, plain))
    } else if word == "true"@ {
        Some((TokenType::Boolean, TokenSubType::BooleanValue(true)))
    } else if word == "false"@ {
        Some((TokenType::Boolean, TokenSubType::BooleanValue(false)))
    } else if word == "int"@ {
        Some((TokenType::VarType, TokenSubType::IntegerType))
    } else if word == "float"@ {
        Some((TokenType::VarType, TokenSubType::FloatType))
    } else if word == "double"@ {
        Some((TokenType::VarType, TokenSubType::DoubleType))
    } else if word == "bool"@ {
        Some((TokenType::VarType, TokenSubType::BooleanType))
    } else if word == "void"@ {
        Some((TokenType::VarType, TokenSubType::VoidType))
    } else if word == "string"@ {
        Some((TokenType::VarType, TokenSubType::StringType))
    } else {
        None
    }
}

/// The index of the first entry from `from` on that equals `text`; the
/// table's length if there is none.
pub open spec fn first_index(table: Seq<Seq<char>>, text: Seq<char>, from: int) -> int
    decreases table.len() - from,
{
    if from < 0 || from >= table.len() {
        table.len() as int
    } else if table[from] == text {
        from
    } else {
        first_index(table, text, from + 1)
    }
}

/// The index under which `text` is found once it is interned in `table`:
/// that of its first occurrence, or the next free index.
pub open spec fn intern_index(table: Seq<Seq<char>>, text: Seq<char>) -> int {
    first_index(table, text, 0)
}

/// The table after `text` is interned: unchanged if it holds `text`,
/// extended by it otherwise.
pub open spec fn interned(table: Seq<Seq<char>>, text: Seq<char>) -> Seq<Seq<char>> {
    if intern_index(table, text) < table.len() {
        table
    } else {
        table.push(text)
    }
}

/// No text stands in the table twice.
pub open spec fn distinct(table: Seq<Seq<char>>) -> bool {
    forall|i: int, j: int|
        0 <= i < table.len() && 0 <= j < table.len() && #[trigger] table[i] == #[trigger] table[j]
            ==> i == j
}

/// How wide a number literal is declared to be.
pub enum Width {
    Integer,
    Float,
    Double,
}

/// The number token for a literal with the digits `digits`, of which the
/// last `places` stand behind the decimal point. A float or double
/// literal is always a token: its payload is the decimal that the digits
/// are read as. An integer literal is a token if its value fits in 32
/// bits, and a fault if not.
pub open spec fn number_shape(digits: Seq<char>, places: nat, width: Width) -> Result<
    Shape,
    Fault,
> {
    match width {
        Width::Integer => if digits_value(digits) <= i32::MAX {
            Ok((TokenType::Number, TokenSubType::IntegerNumber(digits_value(digits) as i32)))
        } else {
            Err(Fault::NumberOutOfRange)
        },
        Width::Float => Ok(
            (TokenType::Number, TokenSubType::FloatNumber(Decimal::reading(digits, places))),
        ),
        Width::Double => Ok(
            (TokenType::Number, TokenSubType::DoubleNumber(Decimal::reading(digits, places))),
        ),
    }
}

/// What follows the digits of a number literal decides what it is: the
/// type character `d` makes it a double and `f` a float, unless a letter
/// or digit follows; any other letter is a fault, and so is a second
/// point. The digits end at index `stop`; the result is the token or
/// fault, and the index where scanning ends.
pub open spec fn number_tail(
    src: Source,
    stop: int,
    digits: Seq<char>,
    places: nat,
    fractional: bool,
) -> (Result<Shape, Fault>, int) {
    if char_is(src, stop, 'd') || char_is(src, stop, 'f') {
        if stop + 1 < src.chars.len() && src.word[stop + 1] {
            (Err(Fault::InvalidAfterTypeChar(src.chars[stop + 1])), stop + 1)
        } else if src.chars[stop] == 'd' {
            (number_shape(digits, places, Width::Double), stop + 1)
        } else {
            (number_shape(digits, places, Width::Float), stop + 1)
        }
    } else if 0 <= stop < src.chars.len() && src.letter[stop] {
        (Err(Fault::InvalidTypeChar(src.chars[stop])), stop + 1)
    } else if fractional && char_is(src, stop, '.') {
        (Err(Fault::MultipleSeparators), stop)
    } else if fractional {
        (number_shape(digits, places, Width::Double), stop)
    } else {
        (number_shape(digits, places, Width::Integer), stop)
    }
}

/// Whether a number literal starts at index `q`: with a digit, or with a
/// point that a digit follows.
pub open spec fn starts_number_at(src: Source, q: int) -> bool {
    0 <= q < src.chars.len() && (is_decimal_digit(src.chars[q]) || (src.chars[q] == '.' && q + 1
        < src.chars.len()
        && is_decimal_digit(src.chars[q + 1])))
}

/// The number literal that starts at index `q`, and the index where
/// scanning ends.
pub open spec fn number_scan(src: Source, q: int) -> (Result<Shape, Fault>, int) {
    let point = q + run_len(src, q, CharClass::Digit);
    if char_is(src, point, '.') {
        let places = run_len(src, point + 1, CharClass::Digit);
        let stop = point + 1 + places;
        number_tail(
            src,
            stop,
            src.chars.subrange(q, point) + src.chars.subrange(point + 1, stop),
            places,
            true,
        )
    } else {
        number_tail(src, point, src.chars.subrange(q, point), 0, false)
    }
}

/// The character that an escape sequence stands for, by the character
/// behind the backslash.
pub open spec fn unescape(c: char) -> Option<char> {
    if c == 'n' {
        Some('\n')
    } else if c == 't' {
        Some('\t')
    } else if c == '\\' {
        Some('\\')
    } else if c == '"' {
        Some('"')
    } else {
        None
    }
}

/// The rest of a text literal from index `at` on, which lies behind the
/// opening quote: the characters it spells, or the fault in it, and the
/// index where scanning ends.
pub open spec fn text_scan(src: Source, at: int) -> (Result<Seq<char>, Fault>, int)
    decreases src.chars.len() - at,
{
    if at < 0 || at >= src.chars.len() {
        (Err(Fault::UnterminatedString), src.chars.len() as int)
    } else if src.chars[at] == '\\' {
        if at + 1 >= src.chars.len() {
            (Err(Fault::EscapeAtEnd), src.chars.len() as int)
        } else {
            match unescape(src.chars[at + 1]) {
                Some(c) => {
                    let rest = text_scan(src, at + 2);
                    (
                        match rest.0 {
                            Ok(spelled) => Ok(seq![c] + spelled),
                            Err(fault) => Err(fault),
                        },
                        rest.1,
                    )
                },
                None => (Err(Fault::InvalidEscape(src.chars[at + 1])), at + 2),
            }
        }
    } else if src.chars[at] == '"' {
        if at + 1 < src.chars.len() && src.word[at + 1] {
            (Err(Fault::InvalidAfterString(src.chars[at + 1])), at + 1)
        } else {
            (Ok(Seq::<char>::empty()), at + 1)
        }
    } else {
        let rest = text_scan(src, at + 1);
        (
            match rest.0 {
                Ok(spelled) => Ok(seq![src.chars[at]] + spelled),
                Err(fault) => Err(fault),
            },
            rest.1,
        )
    }
}

/// The outcome of scanning one token.
pub struct Scan {
    /// The token's kind and payload, or why there is none.
    pub outcome: Result<Shape, Fault>,
    /// The index where scanning ends.
    pub end: int,
    /// The text table afterwards.
    pub table: Seq<Seq<char>>,
}

/// Scans the token that starts at index `q`, where a character stands that
/// is neither blank nor the start of a comment. Operators, numbers and
/// text literals are told by their first character before identifiers
/// are, so that what a digit, a point or a quote starts does not hang on
/// what counts as a letter.
pub open spec fn scan_at(src: Source, q: int, table: Seq<Seq<char>>) -> Scan {
    let c = src.chars[q];
    if is_symbol(c) {
        Scan { outcome: symbol_scan(src, q).0, end: q + symbol_scan(src, q).1, table }
    } else if starts_number_at(src, q) {
        Scan { outcome: number_scan(src, q).0, end: number_scan(src, q).1, table }
    } else if c == '"' {
        match text_scan(src, q + 1).0 {
            Ok(spelled) => Scan {
                outcome: Ok(
                    (TokenType::Text, TokenSubType::Text(intern_index(table, spelled) as usize)),
                ),
                end: text_scan(src, q + 1).1,
                table: interned(table, spelled),
            },
            Err(fault) => Scan { outcome: Err(fault), end: text_scan(src, q + 1).1, table },
        }
    } else if src.letter[q] || c == '_' {
        let end = q + 1 + run_len(src, q + 1, CharClass::Word);
        let word = src.chars.subrange(q, end);
        match keyword(word) {
            Some(shape) => Scan { outcome: Ok(shape), end, table },
            None => Scan {
                outcome: Ok(
                    (
                        TokenType::Identifier,
                        TokenSubType::Identifier(intern_index(table, word) as usize),
                    ),
                ),
                end,
                table: interned(table, word),
            },
        }
    } else {
        Scan { outcome: Err(Fault::UnexpectedSymbol(c)), end: q + 1, table }
    }
}

/// Whether a comment starts at index `q`: two slashes in a row.
pub open spec fn starts_comment_at(src: Source, q: int) -> bool {
    char_is(src, q, '/') && char_is(src, q + 1, '/')
}

/// The index behind the comment that starts at index `q`: behind the line
/// feed that ends it, or the end of the text.
pub open spec fn comment_end(src: Source, q: int) -> int {
    let feed = q + 1 + run_len(src, q + 1, CharClass::InLine);
    if feed < src.chars.len() {
        feed + 1
    } else {
        src.chars.len() as int
    }
}

/// The index of the first character from `p` on that is neither blank nor
/// inside a comment; the length of the text if there is none.
pub open spec fn token_start(src: Source, p: int) -> int
    decreases src.chars.len() - p,
{
    let q = p + run_len(src, p, CharClass::Blank);
    if starts_comment_at(src, q) {
        proof {
            lemma_run_bounded(src, q + 1, CharClass::InLine);
        }
        token_start(src, comment_end(src, q))
    } else {
        q
    }
}

/// The index where scanning resumes after a fault at `at`: the next blank
/// character, or the end of the text.
pub open spec fn resume_at(src: Source, at: int) -> int {
    at + run_len(src, at, CharClass::Solid)
}

/// What scanning a text yields: its tokens, the table of their texts, and
/// one diagnostic for each fault.
pub struct Lexed {
    pub tokens: Seq<SyntaxToken>,
    /// For each token, the index in the text where it starts.
    pub starts: Seq<int>,
    pub table: Seq<Seq<char>>,
    pub faults: Seq<Seq<char>>,
}

/// The token of the given shape that starts at index `q`.
pub open spec fn token_at(src: Source, q: int, shape: Shape) -> SyntaxToken {
    SyntaxToken {
        t_type: shape.0,
        t_subtype: shape.1,
        line: line_at(src, q) as i32,
        pos_at_line: column_at(src, q) as i32,
    }
}

/// Scans `src` from index `p` on, with the texts in `table` already
/// interned. After a fault scanning resumes at the next blank character,
/// so one pass reports every fault.
pub open spec fn lex_from(src: Source, p: int, table: Seq<Seq<char>>) -> Lexed
    decreases src.chars.len() - p,
{
    let q = token_start(src, p);
    if p < 0 || q >= src.chars.len() {
        Lexed { tokens: Seq::empty(), starts: Seq::empty(), table, faults: Seq::empty() }
    } else {
        let scan = scan_at(src, q, table);
        proof {
            lemma_token_start_bounds(src, p);
            lemma_scan_advances(src, q, table);
            lemma_run_bounded(src, scan.end, CharClass::Solid);
        }
        match scan.outcome {
            Ok(shape) => {
                let rest = lex_from(src, scan.end, scan.table);
                Lexed {
                    tokens: seq![token_at(src, q, shape)] + rest.tokens,
                    starts: seq![q] + rest.starts,
                    table: rest.table,
                    faults: rest.faults,
                }
            },
            Err(fault) => {
                let rest = lex_from(src, resume_at(src, scan.end), scan.table);
                Lexed {
                    tokens: rest.tokens,
                    starts: rest.starts,
                    table: rest.table,
                    faults: seq![
                        diagnostic_text(line_at(src, q), column_at(src, q), fault_text(fault)),
                    ] + rest.faults,
                }
            },
        }
    }
}

/// What scanning the whole of `src` yields.
pub open spec fn lex(src: Source) -> Lexed {
    lex_from(src, 0, Seq::empty())
}

/// A run never leaves the text.
pub proof fn lemma_run_bounded(src: Source, from: int, class: CharClass)
    requires
        0 <= from <= src.chars.len(),
    ensures
        from + run_len(src, from, class) <= src.chars.len(),
    decreases src.chars.len() - from,
{
    if from < src.chars.len() && in_class(src, from, class) {
        lemma_run_bounded(src, from + 1, class);
    }
}

/// A run consists of characters of its class, and the character behind
/// it, if any, is of another.
pub proof fn lemma_run_contents(src: Source, from: int, class: CharClass)
    requires
        0 <= from <= src.chars.len(),
    ensures
        forall|i: int|
            from <= i < from + run_len(src, from, class) ==> #[trigger] in_class(src, i, class),
        from + run_len(src, from, class) < src.chars.len() ==> !in_class(
            src,
            from + run_len(src, from, class),
            class,
        ),
    decreases src.chars.len() - from,
{
    if from < src.chars.len() && in_class(src, from, class) {
        lemma_run_contents(src, from + 1, class);
    }
}

/// The start of the next token lies at or behind the index where the
/// search for it begins, and within the text.
pub proof fn lemma_token_start_bounds(src: Source, p: int)
    requires
        0 <= p,
    ensures
        p <= src.chars.len() ==> p <= token_start(src, p) <= src.chars.len(),
        p <= token_start(src, p),
    decreases src.chars.len() - p,
{
    let q = p + run_len(src, p, CharClass::Blank);
    if p <= src.chars.len() {
        lemma_run_bounded(src, p, CharClass::Blank);
    }
    if starts_comment_at(src, q) {
        lemma_run_bounded(src, q + 1, CharClass::InLine);
        lemma_token_start_bounds(src, comment_end(src, q));
    }
}

/// The scan of a text literal ends behind its start and within the text.
pub proof fn lemma_text_scan_bounds(src: Source, at: int)
    requires
        0 <= at <= src.chars.len(),
    ensures
        at <= text_scan(src, at).1 <= src.chars.len(),
    decreases src.chars.len() - at,
{
    if at < src.chars.len() {
        if src.chars[at] == '\\' {
            if at + 1 < src.chars.len() && unescape(src.chars[at + 1]) is Some {
                lemma_text_scan_bounds(src, at + 2);
            }
        } else if src.chars[at] != '"' {
            lemma_text_scan_bounds(src, at + 1);
        }
    }
}

/// The scan of a number literal takes up at least one character and ends
/// within the text.
pub proof fn lemma_number_scan_bounds(src: Source, q: int)
    requires
        starts_number_at(src, q),
    ensures
        q < number_scan(src, q).1 <= src.chars.len(),
{
    lemma_run_bounded(src, q, CharClass::Digit);
    let point = q + run_len(src, q, CharClass::Digit);
    if char_is(src, point, '.') {
        lemma_run_bounded(src, point + 1, CharClass::Digit);
        if src.chars[q] == '.' {
            assert(run_len(src, q, CharClass::Digit) == 0);
            assert(run_len(src, q + 1, CharClass::Digit) >= 1);
        }
    }
}

/// Every scan takes up at least one character and ends within the text.
pub proof fn lemma_scan_advances(src: Source, q: int, table: Seq<Seq<char>>)
    requires
        0 <= q < src.chars.len(),
    ensures
        q < scan_at(src, q, table).end <= src.chars.len(),
{
    let c = src.chars[q];
    if is_symbol(c) {
    } else if starts_number_at(src, q) {
        lemma_number_scan_bounds(src, q);
    } else if c == '"' {
        lemma_text_scan_bounds(src, q + 1);
    } else if src.letter[q] || c == '_' {
        lemma_run_bounded(src, q + 1, CharClass::Word);
    }
}


/// A stretch of characters of one class, ended by the end of the text or
/// by a character of another class, is a run.
pub proof fn lemma_run_exact(src: Source, from: int, count: nat, class: CharClass)
    requires
        0 <= from,
        from + count <= src.chars.len(),
        forall|i: int| from <= i < from + count ==> #[trigger] in_class(src, i, class),
        from + count < src.chars.len() ==> !in_class(src, from + count, class),
    ensures
        run_len(src, from, class) == count,
    decreases count,
{
    if count > 0 {
        lemma_run_exact(src, from + 1, (count - 1) as nat, class);
    }
}

/// A text that consists of blank characters alone holds no token and no
/// fault.
pub proof fn lemma_blank_text_is_empty(src: Source)
    requires
        forall|i: int| 0 <= i < src.chars.len() ==> is_blank(#[trigger] src.chars[i]),
    ensures
        lex(src).tokens == Seq::<SyntaxToken>::empty(),
        lex(src).faults == Seq::<Seq<char>>::empty(),
        lex(src).table == Seq::<Seq<char>>::empty(),
{
    lemma_run_exact(src, 0, src.chars.len(), CharClass::Blank);
    assert(token_start(src, 0) == src.chars.len());
}

/// Whether `digits` is a numeral: one decimal digit or more.
pub open spec fn is_numeral(digits: Seq<char>) -> bool {
    digits.len() > 0 && forall|i: int|
        0 <= i < digits.len() ==> is_decimal_digit(#[trigger] digits[i])
}

/// The text of a number literal: the digits `whole`, behind them a point
/// and the digits of `fraction` where one is given, and the type
/// character `suffix` where one is given.
pub open spec fn number_literal(
    whole: Seq<char>,
    fraction: Option<Seq<char>>,
    suffix: Option<char>,
) -> Seq<char> {
    let digits = match fraction {
        Some(behind) => whole + seq!['.'] + behind,
        None => whole,
    };
    match suffix {
        Some(c) => digits.push(c),
        None => digits,
    }
}

/// The digits of a number literal, the point left out.
pub open spec fn literal_digits(whole: Seq<char>, fraction: Option<Seq<char>>) -> Seq<char> {
    match fraction {
        Some(behind) => whole + behind,
        None => whole,
    }
}

/// How many digits of a number literal stand behind its point.
pub open spec fn literal_places(fraction: Option<Seq<char>>) -> nat {
    match fraction {
        Some(behind) => behind.len(),
        None => 0,
    }
}

/// The width of a number literal: what its type character says, and
/// without one, double with a point and integer without.
pub open spec fn literal_width(fraction: Option<Seq<char>>, suffix: Option<char>) -> Width {
    if suffix == Some('d') {
        Width::Double
    } else if suffix == Some('f') {
        Width::Float
    } else if fraction is Some {
        Width::Double
    } else {
        Width::Integer
    }
}

/// A text that is one float or double literal scans as one number token
/// of the literal's width, whatever the number of its digits, and the
/// token carries the decimal that the digits are read as.
pub proof fn lemma_fractional_literal(
    src: Source,
    whole: Seq<char>,
    fraction: Option<Seq<char>>,
    suffix: Option<char>,
)
    requires
        well_marked(src),
        src.chars == number_literal(whole, fraction, suffix),
        is_numeral(whole),
        fraction matches Some(behind) ==> is_numeral(behind),
        suffix is None || suffix == Some('d') || suffix == Some('f'),
        fraction is Some || suffix is Some,
    ensures
        lex(src).faults == Seq::<Seq<char>>::empty(),
        lex(src).tokens == seq![
            SyntaxToken {
                t_type: TokenType::Number,
                t_subtype: if suffix == Some('f') {
                    TokenSubType::FloatNumber(
                        Decimal::reading(literal_digits(whole, fraction), literal_places(fraction)),
                    )
                } else {
                    TokenSubType::DoubleNumber(
                        Decimal::reading(literal_digits(whole, fraction), literal_places(fraction)),
                    )
                },
                line: 1,
                pos_at_line: 1,
            },
        ],
{
    lemma_number_literal(src, whole, fraction, suffix);
}

/// A text that is one number literal scans as one number token of the
/// literal's width that carries what the literal's digits are read as.
/// The one exception is an integer literal whose value does not fit in
/// 32 bits: it is reported, and there is no token.
pub proof fn lemma_number_literal(
    src: Source,
    whole: Seq<char>,
    fraction: Option<Seq<char>>,
    suffix: Option<char>,
)
    requires
        well_marked(src),
        src.chars == number_literal(whole, fraction, suffix),
        is_numeral(whole),
        fraction matches Some(behind) ==> is_numeral(behind),
        suffix is None || suffix == Some('d') || suffix == Some('f'),
    ensures
        ({
            let lexed = lex(src);
            match number_shape(
                literal_digits(whole, fraction),
                literal_places(fraction),
                literal_width(fraction, suffix),
            ) {
                Ok(shape) => {
                    &&& lexed.tokens == seq![
                        SyntaxToken {
                            t_type: shape.0,
                            t_subtype: shape.1,
                            line: 1,
                            pos_at_line: 1,
                        },
                    ]
                    &&& lexed.faults == Seq::<Seq<char>>::empty()
                },
                Err(fault) => {
                    &&& lexed.tokens == Seq::<SyntaxToken>::empty()
                    &&& lexed.faults == seq![diagnostic_text(1, 1, fault_text(fault))]
                },
            }
        }),
{
    let table = Seq::<Seq<char>>::empty();
    let point = whole.len() as int;
    assert(src.chars[0] == whole[0]);
    assert(is_decimal_digit(src.chars[0]));
    assert(run_len(src, 0, CharClass::Blank) == 0);
    assert(token_start(src, 0) == 0);
    assert forall|i: int| 0 <= i < point implies #[trigger] in_class(
        src,
        i,
        CharClass::Digit,
    ) by {
        assert(src.chars[i] == whole[i]);
    }
    lemma_run_exact(src, 0, whole.len(), CharClass::Digit);
    let stop = match fraction {
        Some(behind) => point + 1 + behind.len(),
        None => point,
    };
    match fraction {
        Some(behind) => {
            assert(src.chars[point] == '.');
            assert forall|i: int| point + 1 <= i < stop implies #[trigger] in_class(
                src,
                i,
                CharClass::Digit,
            ) by {
                assert(src.chars[i] == behind[i - point - 1]);
            }
            lemma_run_exact(src, point + 1, behind.len(), CharClass::Digit);
            assert(src.chars.subrange(0, point) + src.chars.subrange(point + 1, stop) =~= whole
                + behind);
        },
        None => {
            assert(src.chars.subrange(0, point) =~= whole);
        },
    }
    let end = src.chars.len() as int;
    assert(scan_at(src, 0, table).end == end);
    assert(token_start(src, end) == end);
    assert(resume_at(src, end) == end);
    let rest = lex_from(src, end, table);
    assert(rest.tokens == Seq::<SyntaxToken>::empty());
    assert(rest.faults == Seq::<Seq<char>>::empty());
    match scan_at(src, 0, table).outcome {
        Ok(shape) => {
            assert(seq![token_at(src, 0, shape)] + rest.tokens =~= seq![token_at(src, 0, shape)]);
        },
        Err(fault) => {
            let told = diagnostic_text(line_at(src, 0), column_at(src, 0), fault_text(fault));
            assert(seq![told] + rest.faults =~= seq![told]);
        },
    }
}

/// The way a character is written inside a text literal: the four
/// characters that need it as escape sequences, all others as they are.
pub open spec fn escaped_char(c: char) -> Seq<char> {
    if c == '\n' {
        seq!['\\', 'n']
    } else if c == '\t' {
        seq!['\\', 't']
    } else if c == '\\' {
        seq!['\\', '\\']
    } else if c == '"' {
        seq!['\\', '"']
    } else {
        seq![c]
    }
}

/// The way a text is written inside a text literal.
pub open spec fn escaped(text: Seq<char>) -> Seq<char>
    decreases text.len(),
{
    if text.len() == 0 {
        Seq::<char>::empty()
    } else {
        escaped_char(text[0]) + escaped(text.drop_first())
    }
}

/// The literal that spells `text`: its escaped form between quotes.
pub open spec fn text_literal(text: Seq<char>) -> Seq<char> {
    seq!['"'] + escaped(text) + seq!['"']
}

/// Where the escaped form of `text` and a closing quote end the text `src`
/// from index `at` on, the scan of the literal's rest yields `text`.
pub proof fn lemma_text_scan_unescapes(src: Source, at: int, text: Seq<char>)
    requires
        0 <= at <= src.chars.len(),
        src.chars.subrange(at, src.chars.len() as int) == escaped(text) + seq!['"'],
    ensures
        text_scan(src, at) == (Ok::<Seq<char>, Fault>(text), src.chars.len() as int),
    decreases text.len(),
{
    let tail = src.chars.subrange(at, src.chars.len() as int);
    if text.len() == 0 {
        assert(tail.len() == 1);
        assert(src.chars[at] == tail[0]);
        assert(text =~= Seq::<char>::empty());
    } else {
        let c = text[0];
        let rest = text.drop_first();
        let written = escaped_char(c);
        let width = written.len() as int;
        assert(tail == (written + escaped(rest)) + seq!['"']);
        assert(tail.len() == width + escaped(rest).len() + 1);
        assert(src.chars[at] == tail[0]);
        assert(tail[0] == written[0]);
        if width == 2 {
            assert(src.chars[at + 1] == tail[1]);
            assert(tail[1] == written[1]);
        }
        assert(src.chars.subrange(at + width, src.chars.len() as int) =~= escaped(rest)
            + seq!['"']) by {
            assert forall|i: int| 0 <= i < escaped(rest).len() + 1 implies src.chars.subrange(
                at + width,
                src.chars.len() as int,
            )[i] == (escaped(rest) + seq!['"'])[i] by {
                assert(src.chars[at + width + i] == tail[width + i]);
            }
        }
        lemma_text_scan_unescapes(src, at + width, rest);
        assert(seq![c] + rest =~= text);
        if width == 2 {
            assert(src.chars[at] == '\\');
            assert(unescape(src.chars[at + 1]) == Some(c));
        } else {
            assert(src.chars[at] == c);
        }
    }
}

/// A text whose first character is a quote, and in which the scan of a
/// text literal behind that quote yields `text` and ends at the end, is
/// one text token that points at `text`.
pub proof fn lemma_one_text_token(src: Source, text: Seq<char>)
    requires
        src.chars.len() >= 1,
        src.chars[0] == '"',
        text_scan(src, 1) == (Ok::<Seq<char>, Fault>(text), src.chars.len() as int),
    ensures
        lex(src).tokens == seq![
            SyntaxToken {
                t_type: TokenType::Text,
                t_subtype: TokenSubType::Text(0),
                line: 1,
                pos_at_line: 1,
            },
        ],
        lex(src).table == seq![text],
        lex(src).faults == Seq::<Seq<char>>::empty(),
{
    let table = Seq::<Seq<char>>::empty();
    let end = src.chars.len() as int;
    assert(run_len(src, 0, CharClass::Blank) == 0);
    assert(token_start(src, 0) == 0);
    assert(intern_index(table, text) == 0);
    assert(interned(table, text) =~= seq![text]);
    let scan = scan_at(src, 0, table);
    assert(scan.end == end);
    assert(token_start(src, end) == end);
    let rest = lex_from(src, end, scan.table);
    assert(rest.tokens == Seq::<SyntaxToken>::empty());
    let token = token_at(src, 0, (TokenType::Text, TokenSubType::Text(0)));
    assert(seq![token] + rest.tokens =~= seq![token]);
}

/// A text literal scans as one text token, and the text that the token
/// points at is the text that the literal spells: the characters that its
/// escape sequences stand for, not the sequences.
pub proof fn lemma_text_literal(src: Source, text: Seq<char>)
    requires
        well_marked(src),
        src.chars == text_literal(text),
    ensures
        lex(src).tokens == seq![
            SyntaxToken {
                t_type: TokenType::Text,
                t_subtype: TokenSubType::Text(0),
                line: 1,
                pos_at_line: 1,
            },
        ],
        lex(src).table == seq![text],
        lex(src).faults == Seq::<Seq<char>>::empty(),
{
    let end = src.chars.len() as int;
    assert(src.chars[0] == '"');
    assert(src.chars.subrange(1, end) =~= escaped(text) + seq!['"']);
    lemma_text_scan_unescapes(src, 1, text);
    lemma_one_text_token(src, text);
}

/// Whether `body` may stand between the quotes of a text literal: every
/// backslash in it starts one of the four escape sequences, and no quote
/// stands in it but behind a backslash. Any other character, a line feed
/// or a tab too, may stand in it as it is.
pub open spec fn well_escaped(body: Seq<char>) -> bool
    decreases body.len(),
{
    if body.len() == 0 {
        true
    } else if body[0] == '\\' {
        body.len() >= 2 && unescape(body[1]) is Some && well_escaped(
            body.subrange(2, body.len() as int),
        )
    } else {
        body[0] != '"' && well_escaped(body.drop_first())
    }
}

/// The text that a well-escaped body spells: each escape sequence gives
/// the one character it stands for, every other character itself.
pub open spec fn unescaped(body: Seq<char>) -> Seq<char>
    decreases body.len(),
{
    if body.len() == 0 {
        Seq::<char>::empty()
    } else if body[0] == '\\' {
        if body.len() >= 2 && unescape(body[1]) is Some {
            seq![unescape(body[1]).unwrap()] + unescaped(body.subrange(2, body.len() as int))
        } else {
            Seq::<char>::empty()
        }
    } else {
        seq![body[0]] + unescaped(body.drop_first())
    }
}

/// Where a well-escaped body and a closing quote end the text `src` from
/// index `at` on, the scan of the literal's rest yields what the body
/// spells.
pub proof fn lemma_text_scan_body(src: Source, at: int, body: Seq<char>)
    requires
        0 <= at <= src.chars.len(),
        src.chars.subrange(at, src.chars.len() as int) == body + seq!['"'],
        well_escaped(body),
    ensures
        text_scan(src, at) == (Ok::<Seq<char>, Fault>(unescaped(body)), src.chars.len() as int),
    decreases body.len(),
{
    let end = src.chars.len() as int;
    let tail = src.chars.subrange(at, end);
    assert(tail.len() == body.len() + 1);
    assert(src.chars[at] == tail[0]);
    if body.len() == 0 {
    } else {
        assert(tail[0] == body[0]);
        let width: int = if body[0] == '\\' {
            2
        } else {
            1
        };
        if width == 2 {
            assert(src.chars[at + 1] == tail[1]);
            assert(tail[1] == body[1]);
        }
        let rest = body.subrange(width, body.len() as int);
        assert(rest =~= if width == 2 {
            body.subrange(2, body.len() as int)
        } else {
            body.drop_first()
        });
        assert(src.chars.subrange(at + width, end) =~= rest + seq!['"']) by {
            assert forall|i: int| 0 <= i < rest.len() + 1 implies src.chars.subrange(
                at + width,
                end,
            )[i] == (rest + seq!['"'])[i] by {
                assert(src.chars[at + width + i] == tail[width + i]);
            }
        }
        lemma_text_scan_body(src, at + width, rest);
    }
}

/// A text that is a quote, a well-escaped body and a quote scans as one
/// text token, and the text that the token points at is what the body
/// spells: each escape sequence replaced by the character it stands for,
/// every other character kept, in order.
pub proof fn lemma_text_body(src: Source, body: Seq<char>)
    requires
        well_marked(src),
        src.chars == seq!['"'] + body + seq!['"'],
        well_escaped(body),
    ensures
        lex(src).tokens == seq![
            SyntaxToken {
                t_type: TokenType::Text,
                t_subtype: TokenSubType::Text(0),
                line: 1,
                pos_at_line: 1,
            },
        ],
        lex(src).table == seq![unescaped(body)],
        lex(src).faults == Seq::<Seq<char>>::empty(),
{
    let end = src.chars.len() as int;
    assert(src.chars[0] == '"');
    assert(src.chars.subrange(1, end) =~= body + seq!['"']);
    lemma_text_scan_body(src, 1, body);
    lemma_one_text_token(src, unescaped(body));
}

/// The escaped form of a text is well escaped and spells the text.
pub proof fn lemma_escaped_spells(text: Seq<char>)
    ensures
        well_escaped(escaped(text)),
        unescaped(escaped(text)) == text,
    decreases text.len(),
{
    if text.len() == 0 {
        assert(unescaped(escaped(text)) =~= text);
    } else {
        let c = text[0];
        let rest = text.drop_first();
        let written = escaped_char(c);
        let whole = escaped(text);
        lemma_escaped_spells(rest);
        assert(whole == written + escaped(rest));
        assert(whole[0] == written[0]);
        if written.len() == 2 {
            assert(whole[1] == written[1]);
            assert(whole.subrange(2, whole.len() as int) =~= escaped(rest));
            assert(unescape(whole[1]) == Some(c));
        } else {
            assert(whole.drop_first() =~= escaped(rest));
        }
        assert(seq![c] + rest =~= text);
    }
}

/// Texts are numbered by their first occurrence: a text that the table
/// holds is interned under the index of its first occurrence, before
/// which it does not stand; a text that the table does not hold is
/// interned under the next free index, where it then stands.
pub proof fn lemma_interning_numbers_by_first_occurrence(table: Seq<Seq<char>>, text: Seq<char>)
    ensures
        ({
            let index = intern_index(table, text);
            &&& 0 <= index <= table.len()
            &&& forall|i: int| 0 <= i < index ==> table[i] != text
            &&& index < table.len() ==> table[index] == text && interned(table, text) == table
            &&& index == table.len() ==> interned(table, text) == table.push(text)
            &&& interned(table, text)[index] == text
        }),
{
    lemma_first_index(table, text, 0);
}

/// Interning is idempotent: a text that has been interned is found under
/// the same index when it is interned again, and the table stays as it
/// is.
pub proof fn lemma_interning_is_idempotent(table: Seq<Seq<char>>, text: Seq<char>)
    ensures
        intern_index(interned(table, text), text) == intern_index(table, text),
        interned(interned(table, text), text) == interned(table, text),
{
    lemma_first_index(table, text, 0);
    lemma_first_unmoved(table, text, text, 0);
}

/// Interning one text leaves every other text where it is found.
pub proof fn lemma_interning_is_stable(table: Seq<Seq<char>>, text: Seq<char>, other: Seq<char>)
    requires
        intern_index(table, other) < table.len(),
    ensures
        intern_index(interned(table, text), other) == intern_index(table, other),
{
    lemma_first_unmoved(table, other, text, 0);
}

/// Interning keeps what the table holds where it is, keeps the table free
/// of duplicates, and files the text under the index it reports.
pub proof fn lemma_interned(table: Seq<Seq<char>>, text: Seq<char>)
    requires
        distinct(table),
    ensures
        distinct(interned(table, text)),
        0 <= intern_index(table, text) < interned(table, text).len(),
        interned(table, text)[intern_index(table, text)] == text,
        table.len() <= interned(table, text).len(),
        forall|i: int| 0 <= i < table.len() ==> interned(table, text)[i] == table[i],
{
    lemma_first_index(table, text, 0);
}

/// `first_index` finds the first occurrence from `from` on, if there is one.
pub proof fn lemma_first_index(table: Seq<Seq<char>>, text: Seq<char>, from: int)
    requires
        0 <= from <= table.len(),
    ensures
        from <= first_index(table, text, from) <= table.len(),
        first_index(table, text, from) < table.len() ==> table[first_index(table, text, from)]
            == text,
        forall|i: int| from <= i < first_index(table, text, from) ==> table[i] != text,
    decreases table.len() - from,
{
    if from < table.len() && table[from] != text {
        lemma_first_index(table, text, from + 1);
    }
}

/// The first occurrence of `text` from `from` on is where it was before
/// `added` was appended; and if there was none, and `added` is `text`, it
/// is the appended entry.
pub proof fn lemma_first_unmoved(
    table: Seq<Seq<char>>,
    text: Seq<char>,
    added: Seq<char>,
    from: int,
)
    requires
        0 <= from <= table.len(),
    ensures
        first_index(table, text, from) < table.len() ==> first_index(
            table.push(added),
            text,
            from,
        ) == first_index(table, text, from),
        first_index(table, text, from) >= table.len() && added == text ==> first_index(
            table.push(added),
            text,
            from,
        ) == table.len(),
    decreases table.len() - from,
{
    let longer = table.push(added);
    if from < table.len() {
        assert(longer[from] == table[from]);
        if table[from] != text {
            lemma_first_unmoved(table, text, added, from + 1);
        }
    } else {
        assert(longer[from] == added);
        if added == text {
        } else {
            assert(first_index(longer, text, from + 1) == longer.len());
        }
    }
}

/// The word that starts at index `q`: a first character, and the run of
/// letters, digits and underscores behind it.
pub open spec fn word_at(src: Source, q: int) -> Seq<char> {
    src.chars.subrange(q, q + 1 + run_len(src, q + 1, CharClass::Word))
}

/// Whether the token `token`, which starts at index `q` of `src`, points at
/// its own text in `table`: an identifier at the word it is, a text token
/// at what its literal spells.
pub open spec fn points_at_text(
    src: Source,
    q: int,
    token: SyntaxToken,
    table: Seq<Seq<char>>,
) -> bool {
    match token.t_subtype {
        TokenSubType::Identifier(index) => index < table.len() && table[index as int] == word_at(
            src,
            q,
        ),
        TokenSubType::Text(index) => index < table.len() && text_scan(src, q + 1).0 == Ok::<
            Seq<char>,
            Fault,
        >(table[index as int]),
        _ => true,
    }
}

/// Whether `longer` holds the entries of `table`, each under its index.
pub open spec fn extends(longer: Seq<Seq<char>>, table: Seq<Seq<char>>) -> bool {
    table.len() <= longer.len() && forall|i: int|
        0 <= i < table.len() ==> #[trigger] longer[i] == table[i]
}

/// Scanning from `p` on keeps the table free of duplicates and its
/// entries in place, and every token that it yields points at its own
/// text in the table that results.
pub proof fn lemma_scanned_tokens_point_at_texts(src: Source, p: int, table: Seq<Seq<char>>)
    requires
        0 <= p <= src.chars.len(),
        distinct(table),
        table.len() + (src.chars.len() - p) <= usize::MAX,
    ensures
        ({
            let lexed = lex_from(src, p, table);
            &&& distinct(lexed.table)
            &&& extends(lexed.table, table)
            &&& lexed.table.len() <= table.len() + lexed.tokens.len()
            &&& lexed.tokens.len() + p <= src.chars.len() || lexed.tokens.len() == 0
            &&& lexed.starts.len() == lexed.tokens.len()
            &&& forall|i: int|
                0 <= i < lexed.tokens.len() ==> points_at_text(
                    src,
                    #[trigger] lexed.starts[i],
                    lexed.tokens[i],
                    lexed.table,
                )
        }),
    decreases src.chars.len() - p,
{
    let q = token_start(src, p);
    lemma_token_start_bounds(src, p);
    if q < src.chars.len() {
        let scan = scan_at(src, q, table);
        lemma_scan_advances(src, q, table);
        lemma_run_bounded(src, scan.end, CharClass::Solid);
        lemma_interned(table, word_at(src, q));
        if text_scan(src, q + 1).0 is Ok {
            lemma_interned(table, text_scan(src, q + 1).0->Ok_0);
        }
        assert(distinct(scan.table) && extends(scan.table, table) && scan.table.len()
            <= table.len() + 1);
        match scan.outcome {
            Ok(shape) => {
                let rest = lex_from(src, scan.end, scan.table);
                lemma_scanned_tokens_point_at_texts(src, scan.end, scan.table);
                let lexed = lex_from(src, p, table);
                let token = token_at(src, q, shape);
                assert(points_at_text(src, q, token, scan.table));
                assert forall|i: int| 0 <= i < lexed.tokens.len() implies points_at_text(
                    src,
                    #[trigger] lexed.starts[i],
                    lexed.tokens[i],
                    lexed.table,
                ) by {
                    if i > 0 {
                        assert(lexed.starts[i] == rest.starts[i - 1]);
                        assert(lexed.tokens[i] == rest.tokens[i - 1]);
                    }
                }
            },
            Err(_) => {
                lemma_scanned_tokens_point_at_texts(src, resume_at(src, scan.end), scan.table);
            },
        }
    }
}

/// In the tokens of one text, identifiers that are the same word carry
/// the same index into the text table, and so do text literals that spell
/// the same text.
pub proof fn lemma_same_text_same_index(src: Source, i: int, j: int)
    requires
        src.chars.len() <= MAX_SOURCE_LEN,
        0 <= i < lex(src).tokens.len(),
        0 <= j < lex(src).tokens.len(),
    ensures
        ({
            let lexed = lex(src);
            let first = lexed.tokens[i].t_subtype;
            let second = lexed.tokens[j].t_subtype;
            &&& lexed.starts.len() == lexed.tokens.len()
            &&& distinct(lexed.table)
            &&& points_at_text(src, lexed.starts[i], lexed.tokens[i], lexed.table)
            &&& first is Identifier && second is Identifier && word_at(src, lexed.starts[i])
                == word_at(src, lexed.starts[j]) ==> first == second
            &&& first is Text && second is Text && text_scan(src, lexed.starts[i] + 1).0
                == text_scan(src, lexed.starts[j] + 1).0 ==> first == second
        }),
{
    lemma_scanned_tokens_point_at_texts(src, 0, Seq::empty());
    let lexed = lex(src);
    assert(points_at_text(src, lexed.starts[i], lexed.tokens[i], lexed.table));
    assert(points_at_text(src, lexed.starts[j], lexed.tokens[j], lexed.table));
}

} // verus!

//! The scanner: turns source text into tokens, interning the texts of
//! identifiers and text literals, and reports every lexical fault it meets.
//!
//! A text is first marked: each character is asked once whether it is a
//! letter, and whether it is a letter or digit. The scanner then reads
//! characters and marks alone. `tokenize` and `Lexer::new` do both steps;
//! `tokenize_marked` and `Lexer::from_marked` take the marks as given.

use vstd::prelude::*;
use vstd::string::*;
use crate::scan::{
    char_is, class_holds, column_at, comment_end, distinct, fault_text, first_index, in_class,
    intern_index, interned, is_symbol, keyword, lemma_first_index, lemma_interned,
    lemma_run_bounded, lemma_run_contents, lemma_scan_advances, lemma_token_start_bounds, lex,
    lex_from, line_at, marked, number_scan, number_shape, number_tail, resume_at, run_len,
    scan_at, starts_comment_at, starts_number_at, symbol_scan, text_scan, token_at, token_start,
    unescape, well_marked, CharClass, Fault, Lexed, MAX_SOURCE_LEN, Shape, Source, Width,
};
use crate::text::{
    alphabetic, alphanumeric, chars_of, diagnostic_text, digit_value, digits_value,
    format_diagnostic, is_blank_char, is_decimal_digit, is_digit_char, string_of, value_of_digit,
};
use crate::token::{resolves, spelled, Decimal, SyntaxToken, Tokens, TokenSubType, TokenType};

verus! {

/// Lines and columns stay within the bounds that the length of the text
/// sets.
pub proof fn lemma_place_bounds(s: Source, at: int)
    requires
        0 <= at <= s.chars.len(),
    ensures
        1 <= line_at(s, at) <= at + 1,
        1 <= column_at(s, at) <= 4 * at + 1,
    decreases at,
{
    if at > 0 {
        lemma_place_bounds(s, at - 1);
    }
}

/// Appending a digit to a numeral multiplies its value by ten and adds
/// the digit.
pub proof fn lemma_digits_push(digits: Seq<char>, c: char)
    ensures
        digits_value(digits.push(c)) == digits_value(digits) * 10 + digit_value(c),
{
    assert(digits.push(c).drop_last() =~= digits);
}

impl Fault {
    /// The message that reports this fault.
    pub fn message(&self) -> (text: String)
        ensures
            text@ == fault_text(*self),
    {
        match self {
            Fault::UnexpectedSymbol(c) => {
                let mut text = String::from_str("Unexpected symbol ");
                text.push(*c);
                text
            },
            Fault::NotAnOperator(c) => {
                let mut text = String::from_str("Not an operator: ");
                text.push(*c);
                text
            },
            Fault::LoneBang => String::from_str("Invalid character following '!','=' expected"),
            Fault::NumberOutOfRange => String::from_str(
                "Internal error - non-numeric characters in number token",
            ),
            Fault::MultipleSeparators => String::from_str("Multiple decimal separators in number"),
            Fault::InvalidTypeChar(c) => {
                let mut text = String::from_str("Invalid type character: ");
                text.push(*c);
                text
            },
            Fault::InvalidAfterTypeChar(c) => {
                let mut text = String::from_str(
                    "Invalid character following number type character: ",
                );
                text.push(*c);
                text
            },
            Fault::InvalidAfterString(c) => {
                let mut text = String::from_str(
                    "Invalid character following closing\" in string: ",
                );
                text.push(*c);
                text
            },
            Fault::UnterminatedString => String::from_str("Unterminated string"),
            Fault::InvalidEscape(c) => {
                let mut text = String::from_str("Invalid escape sequence \\");
                text.push(*c);
                text
            },
            Fault::EscapeAtEnd => String::from_str(
                "Invalid escape sequence - no character following \\",
            ),
        }
    }
}

/// Whether `c` belongs to `class`, where `word` says whether `c` is a
/// letter or digit.
pub fn char_in_class(class: &CharClass, c: char, word: bool) -> (r: bool)
    ensures
        r == class_holds(*class, c, word),
{
    match class {
        CharClass::Blank => is_blank_char(c),
        CharClass::Solid => !is_blank_char(c),
        CharClass::Digit => is_digit_char(c),
        CharClass::Word => word || c == '_',
        CharClass::InLine => c != '\n',
    }
}

/// Marks each character of `chars`: whether it is a letter, and whether
/// it is a letter or digit.
pub fn classify(chars: &Vec<char>) -> (marks: (Vec<bool>, Vec<bool>))
    ensures
        marks.0@ == marked(chars@).letter,
        marks.1@ == marked(chars@).word,
{
    let mut letter: Vec<bool> = Vec::new();
    let mut word: Vec<bool> = Vec::new();
    let mut i: usize = 0;
    while i < chars.len()
        invariant
            i <= chars.len(),
            letter@.len() == i,
            word@.len() == i,
            forall|k: int| 0 <= k < i ==> letter@[k] == alphabetic(chars@[k]),
            forall|k: int| 0 <= k < i ==> word@[k] == alphanumeric(chars@[k]),
        decreases chars.len() - i,
    {
        letter.push(chars[i].is_alphabetic());
        word.push(chars[i].is_alphanumeric());
        i += 1;
    }
    assert(letter@ =~= marked(chars@).letter);
    assert(word@ =~= marked(chars@).word);
    (letter, word)
}

/// The token or fault that a scan's outcome stands for at index `q`.
pub open spec fn placed(s: Source, q: int, outcome: Result<Shape, Fault>) -> Result<
    SyntaxToken,
    Fault,
> {
    match outcome {
        Ok(shape) => Ok(token_at(s, q, shape)),
        Err(fault) => Err(fault),
    }
}

/// Whether what `read_token` hands out reports the outcome of the scan
/// that started at index `q`.
pub open spec fn reports(
    read: Result<SyntaxToken, String>,
    s: Source,
    q: int,
    outcome: Result<Shape, Fault>,
) -> bool {
    match outcome {
        Ok(shape) => read == Ok::<SyntaxToken, String>(token_at(s, q, shape)),
        Err(fault) => read is Err && read->Err_0@ == fault_text(fault),
    }
}

/// The value of a numeral, if it fits in 64 bits.
pub open spec fn fitting_value(digits: Seq<char>) -> Option<u64> {
    if digits_value(digits) <= u64::MAX {
        Some(digits_value(digits) as u64)
    } else {
        None
    }
}

/// Extends the value of a numeral by the digits `v[from..to]`.
fn accumulate_digits(
    so_far: Option<u64>,
    v: &Vec<char>,
    from: usize,
    to: usize,
    Ghost(read): Ghost<Seq<char>>,
) -> (value: Option<u64>)
    requires
        from <= to <= v.len(),
        forall|i: int| from <= i < to ==> is_decimal_digit(#[trigger] v[i]),
        so_far == fitting_value(read),
    ensures
        value == fitting_value(read + v@.subrange(from as int, to as int)),
{
    let mut value = so_far;
    let mut i: usize = from;
    assert(read + v@.subrange(from as int, from as int) =~= read);
    while i < to
        invariant
            from <= i <= to <= v.len(),
            forall|i: int| from <= i < to ==> is_decimal_digit(#[trigger] v[i]),
            value == fitting_value(read + v@.subrange(from as int, i as int)),
        decreases to - i,
    {
        let digit: u64 = value_of_digit(v[i]);
        proof {
            let before = read + v@.subrange(from as int, i as int);
            lemma_digits_push(before, v[i as int]);
            assert(before.push(v[i as int]) =~= read + v@.subrange(from as int, i + 1));
        }
        value =
        match value {
            Some(n) => {
                if n > (u64::MAX - digit) / 10 {
                    None
                } else {
                    Some(n * 10 + digit)
                }
            },
            None => None,
        };
        i += 1;
    }
    value
}

/// The state of a scan: the text, how far it has been read, where the
/// reading stands by line and column, and the texts interned so far.
pub struct Lexer {
    chars: Vec<char>,
    letter: Vec<bool>,
    word: Vec<bool>,
    pos: usize,
    cur_line_number: i32,
    cur_line_pos: i32,
    token_start_line_number: i32,
    token_start_line_pos: i32,
    text_table: Vec<String>,
}

impl Lexer {
    /// The text being scanned, with the marks of its characters.
    pub closed spec fn source(&self) -> Source {
        self.text()
    }

    /// The text being scanned, with the marks of its characters.
    spec fn text(&self) -> Source {
        Source { chars: self.chars@, letter: self.letter@, word: self.word@ }
    }

    /// How many characters have been read.
    pub closed spec fn offset(&self) -> int {
        self.pos as int
    }

    /// The texts interned so far.
    pub closed spec fn table(&self) -> Seq<Seq<char>> {
        spelled(self.text_table@)
    }

    /// Line and column where the token last read starts.
    pub closed spec fn token_place(&self) -> (int, int) {
        (self.token_start_line_number as int, self.token_start_line_pos as int)
    }

    /// The scanner stands inside its text, knows the line and column of
    /// the place where it stands, and has interned no text twice.
    pub closed spec fn wf(&self) -> bool {
        &&& self.chars.len() <= MAX_SOURCE_LEN
        &&& well_marked(self.text())
        &&& self.text_table.len() <= usize::MAX
        &&& self.pos <= self.chars.len()
        &&& self.cur_line_number == line_at(self.text(), self.pos as int)
        &&& self.cur_line_pos == column_at(self.text(), self.pos as int)
        &&& distinct(self.table())
    }

    /// A well-formed scanner stands within its text, and its table holds
    /// no text twice.
    pub proof fn lemma_wf(&self)
        requires
            self.wf(),
        ensures
            0 <= self.offset() <= self.source().chars.len() <= MAX_SOURCE_LEN,
            well_marked(self.source()),
            distinct(self.table()),
    {
    }

    /// This scanner has read on to `to` in the text of `before`, interning
    /// nothing and starting no token.
    spec fn moved(&self, before: &Lexer, to: int) -> bool {
        &&& self.wf()
        &&& self.text() == before.text()
        &&& self.text_table@ == before.text_table@
        &&& self.token_start_line_number == before.token_start_line_number
        &&& self.token_start_line_pos == before.token_start_line_pos
        &&& self.pos == to
    }

    /// The token being read starts at index `q`.
    spec fn started_at(&self, q: int) -> bool {
        &&& self.token_start_line_number == line_at(self.text(), q)
        &&& self.token_start_line_pos == column_at(self.text(), q)
    }

    /// A scanner at the start of `content`.
    pub fn new(content: &str) -> (lexer: Lexer)
        requires
            content@.len() <= MAX_SOURCE_LEN,
        ensures
            lexer.wf(),
            lexer.source() == marked(content@),
            lexer.offset() == 0,
            lexer.table() == Seq::<Seq<char>>::empty(),
            lexer.token_place() == (1int, 1int),
    {
        let chars = chars_of(content);
        let (letter, word) = classify(&chars);
        Lexer::from_marked(chars, letter, word)
    }

    /// A scanner at the start of the text `chars`, of whose characters
    /// `letter` says which are letters and `word` which are letters or
    /// digits.
    pub fn from_marked(chars: Vec<char>, letter: Vec<bool>, word: Vec<bool>) -> (lexer: Lexer)
        requires
            chars.len() <= MAX_SOURCE_LEN,
            letter.len() == chars.len(),
            word.len() == chars.len(),
        ensures
            lexer.wf(),
            lexer.source() == (Source { chars: chars@, letter: letter@, word: word@ }),
            lexer.offset() == 0,
            lexer.table() == Seq::<Seq<char>>::empty(),
            lexer.token_place() == (1int, 1int),
    {
        let lexer = Lexer {
            cur_line_number: 1,
            cur_line_pos: 1,
            token_start_line_number: 1,
            token_start_line_pos: 1,
            chars,
            letter,
            word,
            pos: 0,
            text_table: Vec::new(),
        };
        assert(lexer.table() =~= Seq::<Seq<char>>::empty());
        lexer
    }

    /// Reads the next token: `None` at the end of the text, else the
    /// token, or the message that says why there is none.
    pub fn read_token(&mut self) -> (read: Option<Result<SyntaxToken, String>>)
        requires
            old(self).wf(),
        ensures
            final(self).wf(),
            final(self).source() == old(self).source(),
            ({
                let s = old(self).source();
                let q = token_start(s, old(self).offset());
                let scan = scan_at(s, q, old(self).table());
                if q >= s.chars.len() {
                    &&& read is None
                    &&& final(self).offset() == s.chars.len()
                    &&& final(self).table() == old(self).table()
                } else {
                    &&& read is Some
                    &&& reports(read->Some_0, s, q, scan.outcome)
                    &&& final(self).offset() == scan.end
                    &&& final(self).table() == scan.table
                    &&& final(self).token_place() == (line_at(s, q), column_at(s, q))
                }
            }),
    {
        let ghost s = self.text();
        let ghost p = self.pos as int;
        let mut first: Option<char> = None;

        // blanks and comments stand between tokens
        loop
            invariant_except_break
                token_start(s, p) == token_start(s, self.pos as int),
            invariant
                self.wf(),
                self.text() == s,
                self.text_table@ == old(self).text_table@,
                0 <= p <= self.pos,
            ensures
                self.started_at(token_start(s, p)),
                p <= token_start(s, p) <= s.chars.len(),
                if token_start(s, p) >= s.chars.len() {
                    first is None && self.pos == s.chars.len()
                } else {
                    first == Some(s.chars[token_start(s, p)]) && self.pos == token_start(s, p) + 1
                },
                !starts_comment_at(s, token_start(s, p)),
            decreases self.chars.len() - self.pos,
        {
            proof {
                lemma_run_bounded(s, self.pos as int, CharClass::Blank);
            }
            self.skip_whitespace();
            proof {
                lemma_place_bounds(s, self.pos as int);
            }

            self.token_start_line_number = self.cur_line_number;
            self.token_start_line_pos = self.cur_line_pos;

            match self.next_char() {
                Some(ch) => {
                    if self.starts_comment(ch) {
                        self.skip_comment();
                    } else {
                        first = Some(ch);
                        break ;
                    }
                },
                None => {
                    first = None;
                    break ;
                },
            }
        }

        let ghost q = token_start(s, p);
        match first {
            Some(ch) => {
                proof {
                    lemma_scan_advances(s, q, self.table());
                }
                if Lexer::starts_symbol(ch) {
                    Some(Lexer::report(self.handle_symbols(ch)))
                } else if self.starts_number(ch) {
                    Some(Lexer::report(self.handle_number(ch)))
                } else if Lexer::starts_string(ch) {
                    Some(Lexer::report(self.handle_string()))
                } else if self.starts_identifier(ch) {
                    Some(Lexer::report(self.handle_identifier(ch)))
                } else {
                    Some(Err(Fault::UnexpectedSymbol(ch).message()))
                }
            },
            None => None,
        }
    }

    /// Turns a fault into its message.
    fn report(scanned: Result<SyntaxToken, Fault>) -> (read: Result<SyntaxToken, String>)
        ensures
            match scanned {
                Ok(token) => read == Ok::<SyntaxToken, String>(token),
                Err(fault) => read is Err && read->Err_0@ == fault_text(fault),
            },
    {
        match scanned {
            Ok(token) => Ok(token),
            Err(fault) => Err(fault.message()),
        }
    }

    /// Whether the slash just read starts a comment.
    fn starts_comment(&self, ch: char) -> (comment: bool)
        requires
            self.wf(),
            self.pos >= 1,
            self.chars@[self.pos - 1] == ch,
        ensures
            comment == starts_comment_at(self.text(), self.pos - 1),
    {
        if ch == '/' {
            return match self.peek_char() {
                Some(ch) => ch == '/',
                None => false,
            }
        }
        false
    }

    /// Reads on behind the line feed that ends the comment.
    fn skip_comment(&mut self)
        requires
            old(self).wf(),
            old(self).pos >= 1,
        ensures
            final(self).moved(old(self), comment_end(old(self).text(), old(self).pos - 1)),
    {
        proof {
            lemma_run_bounded(self.text(), self.pos as int, CharClass::InLine);
            lemma_run_contents(self.text(), self.pos as int, CharClass::InLine);
        }
        self.skip_run(CharClass::InLine);
        self.next_char();
    }

    fn starts_symbol(ch: char) -> (symbol: bool)
        ensures
            symbol == is_symbol(ch),
    {
        match ch {
            '+' | '-' | '*' | '/' | '[' | ']' | '{' | '}' | '(' | ')' | '<' | '>' | '=' | ';' | ','
            | ':' | '!' => true,
            _ => false,
        }
    }

    /// Scans the operator or punctuation mark whose first character, `ch`,
    /// has just been read.
    fn handle_symbols(&mut self, ch: char) -> (scanned: Result<SyntaxToken, Fault>)
        requires
            old(self).wf(),
            old(self).pos >= 1,
            old(self).chars@[old(self).pos - 1] == ch,
            old(self).started_at(old(self).pos - 1),
        ensures
            final(self).moved(
                old(self),
                old(self).pos - 1 + symbol_scan(old(self).text(), old(self).pos - 1).1,
            ),
            scanned == placed(
                old(self).text(),
                old(self).pos - 1,
                symbol_scan(old(self).text(), old(self).pos - 1).0,
            ),
    {
        match ch {
            '+' => Ok(self.create_token(TokenType::ArithOp, TokenSubType::Plus)),
            '-' => Ok(self.create_token(TokenType::ArithOp, TokenSubType::Minus)),
            '*' => Ok(self.create_token(TokenType::ArithOp, TokenSubType::Multiply)),
            '/' => Ok(self.create_token(TokenType::ArithOp, TokenSubType::Divide)),
            '[' => Ok(self.create_token(TokenType::LBracket, TokenSubType::NoSubType)),
            ']' => Ok(self.create_token(TokenType::RBracket, TokenSubType::NoSubType)),
            '{' => Ok(self.create_token(TokenType::LBrace, TokenSubType::NoSubType)),
            '}' => Ok(self.create_token(TokenType::RBrace, TokenSubType::NoSubType)),
            '(' => Ok(self.create_token(TokenType::LParen, TokenSubType::NoSubType)),
            ')' => Ok(self.create_token(TokenType::RParen, TokenSubType::NoSubType)),
            ';' => Ok(self.create_token(TokenType::SemiColon, TokenSubType::NoSubType)),
            ',' => Ok(self.create_token(TokenType::Comma, TokenSubType::NoSubType)),
            ':' => Ok(self.create_token(TokenType::Colon, TokenSubType::NoSubType)),
            '=' => self.multi_char_operator_helper(
                '=',
                TokenType::CompOp,
                TokenSubType::Equals,
                TokenType::Assign,
                TokenSubType::NoSubType,
            ),
            '>' => self.multi_char_operator_helper(
                '=',
                TokenType::CompOp,
                TokenSubType::GreaterOrEq,
                TokenType::CompOp,
                TokenSubType::Greater,
            ),
            '<' => self.multi_char_operator_helper(
                '=',
                TokenType::CompOp,
                TokenSubType::LesserOrEq,
                TokenType::CompOp,
                TokenSubType::Lesser,
            ),
            // '!' alone is no operator: only "!=" is
            '!' => {
                let token = self.create_token(TokenType::CompOp, TokenSubType::NotEq);
                let mut next_char = ' ';
                match self.next_char() {
                    Some(ch) => next_char = ch,
                    None => {},
                }
                if next_char == '=' {
                    Ok(token)
                } else {
                    Err(Fault::LoneBang)
                }
            },
            _ => Err(Fault::NotAnOperator(ch)),
        }
    }

    /// Makes the longer operator if `optional_second_char` follows, which
    /// is then read, and the shorter one if not.
    fn multi_char_operator_helper(
        &mut self,
        optional_second_char: char,
        type_if_matches: TokenType,
        subtype_if_matches: TokenSubType,
        type_if_no_match: TokenType,
        subtype_if_no_match: TokenSubType,
    ) -> (scanned: Result<SyntaxToken, Fault>)
        requires
            old(self).wf(),
            old(self).pos >= 1,
            old(self).started_at(old(self).pos - 1),
        ensures
            ({
                let s = old(self).text();
                let q = old(self).pos - 1;
                if char_is(s, q + 1, optional_second_char) {
                    &&& final(self).moved(old(self), q + 2)
                    &&& scanned == Ok::<SyntaxToken, Fault>(
                        token_at(s, q, (type_if_matches, subtype_if_matches)),
                    )
                } else {
                    &&& final(self).moved(old(self), q + 1)
                    &&& scanned == Ok::<SyntaxToken, Fault>(
                        token_at(s, q, (type_if_no_match, subtype_if_no_match)),
                    )
                }
            }),
    {
        let matched = match self.peek_char() {
            Some(ch) => ch == optional_second_char,
            None => false,
        };

        if matched {
            let token = self.create_token(type_if_matches, subtype_if_matches);
            self.next_char();
            Ok(token)
        } else {
            Ok(self.create_token(type_if_no_match, subtype_if_no_match))
        }
    }

    /// Whether the character just read, `ch`, starts a word.
    fn starts_identifier(&self, ch: char) -> (starts: bool)
        requires
            self.wf(),
            self.pos >= 1,
            self.chars@[self.pos - 1] == ch,
        ensures
            starts == (self.letter@[self.pos - 1] || ch == '_'),
    {
        self.letter[self.pos - 1] || ch == '_'
    }

    /// Whether the character under the cursor may continue a word.
    fn is_valid_identifier_character(&self) -> (valid: bool)
        requires
            self.wf(),
            self.pos < self.chars.len(),
        ensures
            valid == in_class(self.text(), self.pos as int, CharClass::Word),
    {
        self.word[self.pos] || self.chars[self.pos] == '_'
    }

    /// Scans the word whose first character, `ch`, has just been read: a
    /// reserved word, or an identifier, which is interned.
    fn handle_identifier(&mut self, ch: char) -> (scanned: Result<SyntaxToken, Fault>)
        requires
            old(self).wf(),
            old(self).pos >= 1,
            old(self).chars@[old(self).pos - 1] == ch,
            old(self).started_at(old(self).pos - 1),
        ensures
            final(self).wf(),
            final(self).text() == old(self).text(),
            final(self).token_start_line_number == old(self).token_start_line_number,
            final(self).token_start_line_pos == old(self).token_start_line_pos,
            ({
                let s = old(self).text();
                let q = old(self).pos - 1;
                let end = q + 1 + run_len(s, q + 1, CharClass::Word);
                let word = s.chars.subrange(q, end);
                &&& final(self).pos == end
                &&& match keyword(word) {
                    Some(shape) => {
                        &&& scanned == Ok::<SyntaxToken, Fault>(token_at(s, q, shape))
                        &&& final(self).table() == old(self).table()
                    },
                    None => {
                        &&& scanned == Ok::<SyntaxToken, Fault>(
                            token_at(
                                s,
                                q,
                                (
                                    TokenType::Identifier,
                                    TokenSubType::Identifier(
                                        intern_index(old(self).table(), word) as usize,
                                    ),
                                ),
                            ),
                        )
                        &&& final(self).table() == interned(old(self).table(), word)
                    },
                }
            }),
    {
        let start: usize = self.pos - 1;
        proof {
            lemma_run_bounded(self.text(), self.pos as int, CharClass::Word);
        }
        loop
            invariant
                self.moved(old(self), self.pos as int),
                old(self).pos <= self.pos,
                old(self).pos + run_len(self.text(), old(self).pos as int, CharClass::Word)
                    == self.pos + run_len(self.text(), self.pos as int, CharClass::Word),
            ensures
                self.moved(
                    old(self),
                    old(self).pos + run_len(self.text(), old(self).pos as int, CharClass::Word),
                ),
            decreases self.chars.len() - self.pos,
        {
            match self.peek_char() {
                Some(_) => {
                    if self.is_valid_identifier_character() {
                        self.next_char();
                    } else {
                        break ;
                    }
                },
                None => break ,
            }
        }

        match self.handle_keywords(start, self.pos) {
            Some(token) => Ok(token),
            None => {
                let identifier = string_of(&self.chars, start, self.pos);
                let index = self.add_text_to_table(identifier);
                Ok(self.create_token(TokenType::Identifier, TokenSubType::Identifier(index)))
            },
        }
    }

    /// Whether `self.chars[from..to]` spells `word`.
    fn spells(&self, from: usize, to: usize, word: &str) -> (same: bool)
        requires
            from <= to <= self.chars.len(),
        ensures
            same == (self.chars@.subrange(from as int, to as int) == word@),
    {
        let count = word.unicode_len();
        if to - from != count {
            return false;
        }
        let mut i: usize = 0;
        while i < count
            invariant
                from <= to <= self.chars.len(),
                count == to - from,
                count == word@.len(),
                i <= count,
                forall|k: int| 0 <= k < i ==> self.chars@[from + k] == word@[k],
            decreases count - i,
        {
            if self.chars[from + i] != word.get_char(i) {
                assert(self.chars@.subrange(from as int, to as int)[i as int] != word@[i as int]);
                return false;
            }
            i += 1;
        }
        assert(self.chars@.subrange(from as int, to as int) =~= word@);
        true
    }

    /// The token of the reserved word that `self.chars[from..to]` spells,
    /// if it spells one.
    fn handle_keywords(&self, from: usize, to: usize) -> (token: Option<SyntaxToken>)
        requires
            from <= to <= self.chars.len(),
        ensures
            token == match keyword(self.chars@.subrange(from as int, to as int)) {
                Some(shape) => Some(
                    SyntaxToken {
                        t_type: shape.0,
                        t_subtype: shape.1,
                        line: self.token_start_line_number,
                        pos_at_line: self.token_start_line_pos,
                    },
                ),
                None => None,
            },
    {
        if self.spells(from, to, "if") {
            Some(self.create_token(TokenType::If, TokenSubType::NoSubType))
        } else if self.spells(from, to, "elif") {
            Some(self.create_token(TokenType::ElseIf, TokenSubType::NoSubType))
        } else if self.spells(from, to, "else") {
            Some(self.create_token(TokenType::Else, TokenSubType::NoSubType))
        } else if self.spells(from, to, "while") {
            Some(self.create_token(TokenType::While, TokenSubType::NoSubType))
        } else if self.spells(from, to, "for") {
            Some(self.create_token(TokenType::For, TokenSubType::NoSubType))
        } else if self.spells(from, to, "let") {
            Some(self.create_token(TokenType::Let, TokenSubType::NoSubType))
        } else if self.spells(from, to, "fn") {
            Some(self.create_token(TokenType::Fn, TokenSubType::NoSubType))
        } else if self.spells(from, to, "return") {
            Some(self.create_token(TokenType::Return, TokenSubType::NoSubType))
        } else if self.spells(from, to, "new") {
            Some(self.create_token(TokenType::New, TokenSubType::NoSubType))
        } else if self.spells(from, to, "class") {
            Some(self.create_token(TokenType::Class, TokenSubType::NoSubType))
        } else if self.spells(from, to, "public") {
            Some(self.create_token(TokenType::Public, TokenSubType::NoSubType))
        } else if self.spells(from, to, "protected") {
            Some(self.create_token(TokenType::Protected, TokenSubType::NoSubType))
        } else if self.spells(from, to, "private") {
            Some(self.create_token(TokenType::Private, TokenSubType::NoSubType))
        } else if self.spells(from, to, "true") {
            Some(self.create_token(TokenType::Boolean, TokenSubType::BooleanValue(true)))
        } else if self.spells(from, to, "false") {
            Some(self.create_token(TokenType::Boolean, TokenSubType::BooleanValue(false)))
        } else if self.spells(from, to, "int") {
            Some(self.create_token(TokenType::VarType, TokenSubType::IntegerType))
        } else if self.spells(from, to, "float") {
            Some(self.create_token(TokenType::VarType, TokenSubType::FloatType))
        } else if self.spells(from, to, "double") {
            Some(self.create_token(TokenType::VarType, TokenSubType::DoubleType))
        } else if self.spells(from, to, "bool") {
            Some(self.create_token(TokenType::VarType, TokenSubType::BooleanType))
        } else if self.spells(from, to, "void") {
            Some(self.create_token(TokenType::VarType, TokenSubType::VoidType))
        } else if self.spells(from, to, "string") {
            Some(self.create_token(TokenType::VarType, TokenSubType::StringType))
        } else {
            None
        }
    }

    /// Whether the character just read starts a number: a digit, or a
    /// point that a digit follows.
    fn starts_number(&self, ch: char) -> (starts: bool)
        requires
            self.wf(),
            self.pos >= 1,
            self.chars@[self.pos - 1] == ch,
        ensures
            starts == starts_number_at(self.text(), self.pos - 1),
    {
        if is_digit_char(ch) {
            true
        } else if ch == '.' {
            match self.peek_char() {
                Some(new_ch) => is_digit_char(new_ch),
                None => false,
            }
        } else {
            false
        }
    }

    /// Scans the number literal whose first character, `ch`, has just been
    /// read.
    fn handle_number(&mut self, ch: char) -> (scanned: Result<SyntaxToken, Fault>)
        requires
            old(self).wf(),
            old(self).pos >= 1,
            old(self).chars@[old(self).pos - 1] == ch,
            starts_number_at(old(self).text(), old(self).pos - 1),
            old(self).started_at(old(self).pos - 1),
        ensures
            final(self).moved(old(self), number_scan(old(self).text(), old(self).pos - 1).1),
            scanned == placed(
                old(self).text(),
                old(self).pos - 1,
                number_scan(old(self).text(), old(self).pos - 1).0,
            ),
    {
        let start: usize = self.pos - 1;
        let ghost s = self.text();

        if ch == '.' {
            assert(run_len(s, start as int, CharClass::Digit) == 0);
            return self.handle_decimal_number(start, start);
        }
        proof {
            assert(run_len(s, start as int, CharClass::Digit) == 1 + run_len(
                s,
                start + 1,
                CharClass::Digit,
            ));
            lemma_run_bounded(s, start as int, CharClass::Digit);
            lemma_run_contents(s, start as int, CharClass::Digit);
        }
        self.skip_run(CharClass::Digit);
        let point: usize = self.pos;

        match self.peek_char() {
            Some(ch) => {
                if ch == '.' {
                    self.next_char();
                    return self.handle_decimal_number(start, point);
                } else if ch == 'd' || ch == 'f' || self.letter[self.pos] {
                    self.next_char();
                    return self.handle_number_type_char(ch, start, point, point, point);
                }
            },
            None => {},
        }

        self.number_token(Width::Integer, start, point, point, point)
    }

    /// Scans the fractional part of a number literal, whose point at index
    /// `point` has just been read.
    fn handle_decimal_number(&mut self, start: usize, point: usize) -> (scanned: Result<
        SyntaxToken,
        Fault,
    >)
        requires
            old(self).wf(),
            start <= point,
            old(self).pos == point + 1,
            old(self).chars@[point as int] == '.',
            point == start + run_len(old(self).text(), start as int, CharClass::Digit),
            old(self).started_at(start as int),
        ensures
            final(self).moved(old(self), number_scan(old(self).text(), start as int).1),
            scanned == placed(
                old(self).text(),
                start as int,
                number_scan(old(self).text(), start as int).0,
            ),
    {
        let ghost s = self.text();
        proof {
            lemma_run_bounded(s, point + 1, CharClass::Digit);
            lemma_run_contents(s, point + 1, CharClass::Digit);
            lemma_run_contents(s, start as int, CharClass::Digit);
        }
        self.skip_run(CharClass::Digit);
        let stop: usize = self.pos;

        match self.peek_char() {
            Some(ch) => {
                if ch == 'd' || ch == 'f' || self.letter[self.pos] {
                    self.next_char();
                    return self.handle_number_type_char(ch, start, point, point + 1, stop);
                } else if ch == '.' {
                    return Err(Fault::MultipleSeparators);
                }
            },
            None => {},
        }

        self.number_token(Width::Double, start, point, point + 1, stop)
    }

    /// Decides what the letter behind the digits of a number literal, which
    /// has just been read, makes of the literal.
    fn handle_number_type_char(
        &mut self,
        type_char: char,
        start: usize,
        point: usize,
        after: usize,
        stop: usize,
    ) -> (scanned: Result<SyntaxToken, Fault>)
        requires
            old(self).wf(),
            old(self).digits_between(start, point, after, stop),
            old(self).pos == stop + 1,
            old(self).chars@[stop as int] == type_char,
            type_char == 'd' || type_char == 'f' || old(self).letter@[stop as int],
            old(self).started_at(start as int),
        ensures
            final(self).moved(old(self), stop + 1),
            forall|fractional: bool|
                scanned == placed(
                    old(self).text(),
                    start as int,
                    #[trigger] number_tail(
                        old(self).text(),
                        stop as int,
                        old(self).digits_of(start, point, after, stop),
                        (stop - after) as nat,
                        fractional,
                    ).0,
                ),
    {
        match type_char {
            'd' | 'f' => self.create_number_token(type_char, start, point, after, stop),
            _ => Err(Fault::InvalidTypeChar(type_char)),
        }
    }

    /// Makes the number token of the width that `type_char` declares,
    /// unless a letter or digit follows the type character.
    fn create_number_token(
        &mut self,
        type_char: char,
        start: usize,
        point: usize,
        after: usize,
        stop: usize,
    ) -> (scanned: Result<SyntaxToken, Fault>)
        requires
            old(self).wf(),
            old(self).digits_between(start, point, after, stop),
            old(self).pos == stop + 1,
            old(self).chars@[stop as int] == type_char,
            type_char == 'd' || type_char == 'f',
            old(self).started_at(start as int),
        ensures
            final(self).moved(old(self), stop + 1),
            forall|fractional: bool|
                scanned == placed(
                    old(self).text(),
                    start as int,
                    #[trigger] number_tail(
                        old(self).text(),
                        stop as int,
                        old(self).digits_of(start, point, after, stop),
                        (stop - after) as nat,
                        fractional,
                    ).0,
                ),
    {
        // the character behind the type character must not be a letter or digit
        match self.peek_char() {
            Some(ch) => {
                if self.word[self.pos] {
                    return Err(Fault::InvalidAfterTypeChar(ch));
                }
            },
            None => {},
        }

        if type_char == 'd' {
            self.number_token(Width::Double, start, point, after, stop)
        } else {
            self.number_token(Width::Float, start, point, after, stop)
        }
    }

    /// `chars[start..point]` and `chars[after..stop]` are the digits of a
    /// number literal, before and behind its point.
    spec fn digits_between(&self, start: usize, point: usize, after: usize, stop: usize) -> bool {
        &&& start <= point <= after <= stop <= self.chars.len()
        &&& forall|i: int|
            start <= i < point ==> #[trigger] in_class(self.text(), i, CharClass::Digit)
        &&& forall|i: int|
            after <= i < stop ==> #[trigger] in_class(self.text(), i, CharClass::Digit)
    }

    /// The digits of the number literal, the point left out.
    spec fn digits_of(&self, start: usize, point: usize, after: usize, stop: usize) -> Seq<char> {
        self.chars@.subrange(start as int, point as int) + self.chars@.subrange(
            after as int,
            stop as int,
        )
    }

    /// Makes the number token of the given width from the digits read.
    fn number_token(
        &self,
        width: Width,
        start: usize,
        point: usize,
        after: usize,
        stop: usize,
    ) -> (scanned: Result<SyntaxToken, Fault>)
        requires
            self.wf(),
            self.digits_between(start, point, after, stop),
            self.started_at(start as int),
        ensures
            scanned == placed(
                self.text(),
                start as int,
                number_shape(
                    self.digits_of(start, point, after, stop),
                    (stop - after) as nat,
                    width,
                ),
            ),
    {
        let ghost whole = self.chars@.subrange(start as int, point as int);
        assert(Seq::<char>::empty() + whole =~= whole);
        assert forall|i: int| start <= i < point implies is_decimal_digit(
            #[trigger] self.chars@[i],
        ) by {
            assert(in_class(self.text(), i, CharClass::Digit));
        }
        assert forall|i: int| after <= i < stop implies is_decimal_digit(
            #[trigger] self.chars@[i],
        ) by {
            assert(in_class(self.text(), i, CharClass::Digit));
        }
        match width {
            Width::Integer => {
                let leading = accumulate_digits(
                    Some(0),
                    &self.chars,
                    start,
                    point,
                    Ghost(Seq::empty()),
                );
                let value = accumulate_digits(leading, &self.chars, after, stop, Ghost(whole));
                match value {
                    Some(number) => {
                        if number <= i32::MAX as u64 {
                            Ok(
                                self.create_token(
                                    TokenType::Number,
                                    TokenSubType::IntegerNumber(number as i32),
                                ),
                            )
                        } else {
                            Err(Fault::NumberOutOfRange)
                        }
                    },
                    None => Err(Fault::NumberOutOfRange),
                }
            },
            Width::Float => {
                let value = Decimal::read(&self.chars, start, point, after, stop);
                Ok(self.create_token(TokenType::Number, TokenSubType::FloatNumber(value)))
            },
            Width::Double => {
                let value = Decimal::read(&self.chars, start, point, after, stop);
                Ok(self.create_token(TokenType::Number, TokenSubType::DoubleNumber(value)))
            },
        }
    }

    fn starts_string(ch: char) -> (starts: bool)
        ensures
            starts == (ch == '"'),
    {
        ch == '"'
    }

    /// Scans the text literal whose opening quote has just been read, and
    /// interns what it spells.
    fn handle_string(&mut self) -> (scanned: Result<SyntaxToken, Fault>)
        requires
            old(self).wf(),
            old(self).pos >= 1,
            old(self).started_at(old(self).pos - 1),
        ensures
            final(self).wf(),
            final(self).text() == old(self).text(),
            final(self).token_start_line_number == old(self).token_start_line_number,
            final(self).token_start_line_pos == old(self).token_start_line_pos,
            ({
                let s = old(self).text();
                let q = old(self).pos - 1;
                &&& final(self).pos == text_scan(s, q + 1).1
                &&& match text_scan(s, q + 1).0 {
                    Ok(spelled) => {
                        &&& scanned == Ok::<SyntaxToken, Fault>(
                            token_at(
                                s,
                                q,
                                (
                                    TokenType::Text,
                                    TokenSubType::Text(
                                        intern_index(old(self).table(), spelled) as usize,
                                    ),
                                ),
                            ),
                        )
                        &&& final(self).table() == interned(old(self).table(), spelled)
                    },
                    Err(fault) => {
                        &&& scanned == Err::<SyntaxToken, Fault>(fault)
                        &&& final(self).table() == old(self).table()
                    },
                }
            }),
    {
        let mut value: String = String::new();
        let ghost s = self.text();
        let ghost from = self.pos as int;

        loop
            invariant_except_break
                text_scan(s, from).1 == text_scan(s, self.pos as int).1,
                text_scan(s, from).0 == match text_scan(s, self.pos as int).0 {
                    Ok(rest) => Ok::<Seq<char>, Fault>(value@ + rest),
                    Err(fault) => Err(fault),
                },
            invariant
                self.moved(old(self), self.pos as int),
                s == self.text(),
                from == old(self).pos,
                from <= self.pos,
            ensures
                self.moved(old(self), text_scan(s, from).1),
                text_scan(s, from).0 == Ok::<Seq<char>, Fault>(value@),
            decreases self.chars.len() - self.pos,
        {
            let ghost at = self.pos as int;
            match self.next_char() {
                Some(ch) => {
                    if ch == '\\' {
                        match self.handle_escape_sequence() {
                            Ok(escaped) => {
                                proof {
                                    let rest = text_scan(s, at + 2).0;
                                    if rest is Ok {
                                        assert(value@ + (seq![escaped] + rest->Ok_0)
                                            =~= value@.push(escaped) + rest->Ok_0);
                                    }
                                }
                                value.push(escaped);
                            },
                            Err(fault) => {
                                return Err(fault);
                            },
                        }
                    } else if ch == '"' {
                        // no letter or digit may follow the closing quote
                        match self.peek_char() {
                            Some(ch) => {
                                if self.word[self.pos] {
                                    return Err(Fault::InvalidAfterString(ch));
                                }
                            },
                            None => {},
                        }
                        assert(value@ + Seq::<char>::empty() =~= value@);
                        break ;
                    } else {
                        proof {
                            let rest = text_scan(s, at + 1).0;
                            if rest is Ok {
                                assert(value@ + (seq![ch] + rest->Ok_0) =~= value@.push(ch)
                                    + rest->Ok_0);
                            }
                        }
                        value.push(ch);
                    }
                },
                None => return Err(Fault::UnterminatedString),
            }
        }

        let index = self.add_text_to_table(value);
        Ok(self.create_token(TokenType::Text, TokenSubType::Text(index)))
    }

    /// Reads the character behind a backslash and says which character the
    /// two stand for.
    fn handle_escape_sequence(&mut self) -> (escaped: Result<char, Fault>)
        requires
            old(self).wf(),
        ensures
            ({
                let s = old(self).text();
                let at = old(self).pos as int;
                if at < s.chars.len() {
                    &&& final(self).moved(old(self), at + 1)
                    &&& escaped == match unescape(s.chars[at]) {
                        Some(c) => Ok::<char, Fault>(c),
                        None => Err(Fault::InvalidEscape(s.chars[at])),
                    }
                } else {
                    &&& final(self).moved(old(self), at)
                    &&& escaped == Err::<char, Fault>(Fault::EscapeAtEnd)
                }
            }),
    {
        match self.next_char() {
            Some(ch) => match ch {
                'n' => Ok('\n'),
                't' => Ok('\t'),
                '\\' => Ok('\\'),
                '"' => Ok('"'),
                _ => Err(Fault::InvalidEscape(ch)),
            },
            None => Err(Fault::EscapeAtEnd),
        }
    }

    /// A token of the given kind and payload at the place where the token
    /// being read starts.
    fn create_token(&self, token_type: TokenType, token_subtype: TokenSubType) -> (token:
        SyntaxToken)
        ensures
            token == (SyntaxToken {
                t_type: token_type,
                t_subtype: token_subtype,
                line: self.token_start_line_number,
                pos_at_line: self.token_start_line_pos,
            }),
    {
        SyntaxToken::new(
            token_type,
            token_subtype,
            self.token_start_line_number,
            self.token_start_line_pos,
        )
    }

    /// The character under the cursor, if the text has not ended.
    fn peek_char(&self) -> (c: Option<char>)
        requires
            self.wf(),
        ensures
            c == if self.pos < self.chars@.len() {
                Some(self.chars@[self.pos as int])
            } else {
                None
            },
    {
        if self.pos < self.chars.len() {
            Some(self.chars[self.pos])
        } else {
            None
        }
    }

    /// Reads one character and keeps line and column up to date.
    fn next_char(&mut self) -> (c: Option<char>)
        requires
            old(self).wf(),
        ensures
            c == old(self).peek_char_spec(),
            final(self).moved(
                old(self),
                if old(self).pos < old(self).chars@.len() {
                    old(self).pos + 1
                } else {
                    old(self).pos as int
                },
            ),
    {
        if self.pos < self.chars.len() {
            let ch = self.chars[self.pos];
            proof {
                lemma_place_bounds(self.text(), self.pos as int);
            }
            self.pos += 1;
            if ch == '\n' {
                self.cur_line_number += 1;
                self.cur_line_pos = 1;
            } else if ch == '\t' {
                self.cur_line_pos += 4;
            } else {
                self.cur_line_pos += 1;
            }
            Some(ch)
        } else {
            None
        }
    }

    spec fn peek_char_spec(&self) -> Option<char> {
        if self.pos < self.chars@.len() {
            Some(self.chars@[self.pos as int])
        } else {
            None
        }
    }

    /// Reads on to the end of the run of `class` that starts under the
    /// cursor.
    fn skip_run(&mut self, class: CharClass)
        requires
            old(self).wf(),
        ensures
            final(self).moved(
                old(self),
                old(self).pos + run_len(old(self).text(), old(self).pos as int, class),
            ),
    {
        loop
            invariant
                self.moved(old(self), self.pos as int),
                old(self).pos <= self.pos,
                old(self).pos + run_len(self.text(), old(self).pos as int, class) == self.pos
                    + run_len(self.text(), self.pos as int, class),
            ensures
                self.moved(
                    old(self),
                    old(self).pos + run_len(self.text(), old(self).pos as int, class),
                ),
            decreases self.chars.len() - self.pos,
        {
            match self.peek_char() {
                Some(ch) => {
                    if char_in_class(&class, ch, self.word[self.pos]) {
                        self.next_char();
                    } else {
                        break ;
                    }
                },
                None => break ,
            }
        }
    }

    /// Reads on to the next character that is not blank.
    fn skip_whitespace(&mut self)
        requires
            old(self).wf(),
        ensures
            final(self).moved(
                old(self),
                old(self).pos + run_len(old(self).text(), old(self).pos as int, CharClass::Blank),
            ),
    {
        self.skip_run(CharClass::Blank)
    }

    /// Reads on to the next blank character: where scanning resumes after
    /// a fault.
    pub fn find_next_whitespace(&mut self)
        requires
            old(self).wf(),
        ensures
            final(self).wf(),
            final(self).source() == old(self).source(),
            final(self).table() == old(self).table(),
            final(self).token_place() == old(self).token_place(),
            final(self).offset() == resume_at(old(self).source(), old(self).offset()),
    {
        self.skip_run(CharClass::Solid)
    }

    /// Interns `new_text` and returns the index under which it stands.
    fn add_text_to_table(&mut self, new_text: String) -> (index: usize)
        requires
            old(self).wf(),
        ensures
            final(self).wf(),
            final(self).text() == old(self).text(),
            final(self).pos == old(self).pos,
            final(self).token_start_line_number == old(self).token_start_line_number,
            final(self).token_start_line_pos == old(self).token_start_line_pos,
            index == intern_index(old(self).table(), new_text@),
            final(self).table() == interned(old(self).table(), new_text@),
    {
        proof {
            lemma_interned(self.table(), new_text@);
            lemma_first_index(self.table(), new_text@, 0);
        }
        let mut pos: usize = 0;
        while pos < self.text_table.len()
            invariant
                self.moved(old(self), old(self).pos as int),
                pos <= self.text_table.len(),
                first_index(self.table(), new_text@, 0) == first_index(
                    self.table(),
                    new_text@,
                    pos as int,
                ),
            decreases self.text_table.len() - pos,
        {
            if self.text_table[pos] == new_text {
                return pos;
            }
            pos += 1;
        }

        self.text_table.push(new_text);
        assert(self.table() =~= old(self).table().push(new_text@));
        return self.text_table.len() - 1
    }
}

/// Scans `content`. If it holds no lexical fault, the result is its tokens
/// with their text table; if it holds any, the result is one diagnostic
/// for each of them.
pub fn tokenize(content: &str) -> (scanned: Result<Tokens, Vec<String>>)
    requires
        content@.len() <= MAX_SOURCE_LEN,
    ensures
        scanned_as(scanned, lex(marked(content@))),
{
    let chars = chars_of(content);
    let (letter, word) = classify(&chars);
    tokenize_marked(chars, letter, word)
}

/// Whether `scanned` hands out what `lexed` holds: the tokens with their
/// text table in a fresh stream where there is no fault, one diagnostic
/// for each fault where there is any.
pub open spec fn scanned_as(scanned: Result<Tokens, Vec<String>>, lexed: Lexed) -> bool {
    match scanned {
        Ok(stream) => {
            &&& lexed.faults.len() == 0
            &&& stream.items() == lexed.tokens
            &&& stream.texts() == lexed.table
            &&& stream.cursor() == 0
            &&& stream.well_formed()
            &&& distinct(stream.texts())
        },
        Err(errors) => {
            &&& lexed.faults.len() > 0
            &&& spelled(errors@) == lexed.faults
        },
    }
}

/// Scans the text `chars`, of whose characters `letter` says which are
/// letters and `word` which are letters or digits.
pub fn tokenize_marked(chars: Vec<char>, letter: Vec<bool>, word: Vec<bool>) -> (scanned: Result<
    Tokens,
    Vec<String>,
>)
    requires
        chars.len() <= MAX_SOURCE_LEN,
        letter.len() == chars.len(),
        word.len() == chars.len(),
    ensures
        scanned_as(scanned, lex(Source { chars: chars@, letter: letter@, word: word@ })),
{
    let ghost s = Source { chars: chars@, letter: letter@, word: word@ };
    let mut tokens = Tokens::new();
    let mut lexer = Lexer::from_marked(chars, letter, word);
    let mut errors: Vec<String> = Vec::new();
    assert(spelled(errors@) =~= Seq::<Seq<char>>::empty());
    assert(Seq::<SyntaxToken>::empty() + lex(s).tokens =~= lex(s).tokens);
    assert(Seq::<Seq<char>>::empty() + lex(s).faults =~= lex(s).faults);

    loop
        invariant
            lexer.wf(),
            lexer.text() == s,
            tokens.cursor() == 0,
            lex(s).tokens == tokens.items() + lex_from(s, lexer.pos as int, lexer.table()).tokens,
            lex(s).faults == spelled(errors@) + lex_from(
                s,
                lexer.pos as int,
                lexer.table(),
            ).faults,
            lex(s).table == lex_from(s, lexer.pos as int, lexer.table()).table,
            forall|i: int|
                0 <= i < tokens.items().len() ==> resolves(
                    #[trigger] tokens.items()[i].t_subtype,
                    lexer.table().len(),
                ),
        ensures
            lexer.wf(),
            lex(s).tokens == tokens.items(),
            lex(s).faults == spelled(errors@),
            lex(s).table == lexer.table(),
            tokens.cursor() == 0,
            forall|i: int|
                0 <= i < tokens.items().len() ==> resolves(
                    #[trigger] tokens.items()[i].t_subtype,
                    lexer.table().len(),
                ),
        decreases s.chars.len() - lexer.pos,
    {
        let ghost p = lexer.pos as int;
        let ghost table = lexer.table();
        let ghost q = token_start(s, p);
        let ghost scan = scan_at(s, q, table);
        let ghost done = tokens.items();
        let ghost told = spelled(errors@);
        proof {
            lemma_token_start_bounds(s, p);
            if q < s.chars.len() {
                lemma_scan_advances(s, q, table);
                lemma_run_bounded(s, scan.end, CharClass::Solid);
                lemma_place_bounds(s, q);
                lemma_scan_table(s, q, table);
            }
        }
        match lexer.read_token() {
            Some(res) => match res {
                Ok(token) => {
                    tokens.push(token);
                    proof {
                        let rest = lex_from(s, scan.end, scan.table);
                        assert(done + (seq![token] + rest.tokens) =~= done.push(token)
                            + rest.tokens);
                    }
                },
                Err(err_str) => {
                    errors.push(
                        format_diagnostic(
                            lexer.token_start_line_number,
                            lexer.token_start_line_pos,
                            err_str.as_str(),
                        ),
                    );
                    lexer.find_next_whitespace();
                    proof {
                        let rest = lex_from(s, resume_at(s, scan.end), scan.table);
                        let told_now = spelled(errors@);
                        let text = diagnostic_text(
                            line_at(s, q),
                            column_at(s, q),
                            fault_text(scan.outcome->Err_0),
                        );
                        assert(told_now =~= told.push(text));
                        assert(told + (seq![text] + rest.faults) =~= told.push(text)
                            + rest.faults);
                    }
                },
            },
            None => {
                assert(tokens.items() + Seq::<SyntaxToken>::empty() =~= tokens.items());
                assert(spelled(errors@) + Seq::<Seq<char>>::empty() =~= spelled(errors@));
                break ;
            },
        }
    }

    if errors.len() == 0 {
        tokens.set_text_table(lexer.text_table);
        Ok(tokens)
    } else {
        Err(errors)
    }
}

/// A scan keeps the table free of duplicates and never shortens it, and
/// the index that a token carries points into the table.
pub proof fn lemma_scan_table(s: Source, q: int, table: Seq<Seq<char>>)
    requires
        0 <= q < s.chars.len(),
        distinct(table),
        table.len() <= usize::MAX,
    ensures
        distinct(scan_at(s, q, table).table),
        table.len() <= scan_at(s, q, table).table.len(),
        scan_at(s, q, table).outcome matches Ok(shape) ==> resolves(
            shape.1,
            scan_at(s, q, table).table.len(),
        ),
{
    let c = s.chars[q];
    if is_symbol(c) {
    } else if starts_number_at(s, q) {
    } else if c == '"' {
        match text_scan(s, q + 1).0 {
            Ok(spelled) => {
                lemma_interned(table, spelled);
            },
            Err(_) => {},
        }
    } else if s.letter[q] || c == '_' {
        let end = q + 1 + run_len(s, q + 1, CharClass::Word);
        let word = s.chars.subrange(q, end);
        lemma_interned(table, word);
    }
}

} // verus!

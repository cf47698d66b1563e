use compiler::lexer::tokenize;
use compiler::token::Decimal;
use compiler::token::SyntaxToken;
use compiler::token::TokenSubType;
use compiler::token::TokenType;
use compiler::token::Tokens;

fn token(kind: TokenType, payload: TokenSubType) -> SyntaxToken {
  SyntaxToken::new(kind, payload, 3, 7)
}

fn number(payload: TokenSubType) -> SyntaxToken {
  SyntaxToken::new(TokenType::Number, payload, 0, 0)
}

fn decimal(mantissa: u64, scale: u8) -> Decimal {
  Decimal::new(mantissa, scale).unwrap()
}

#[test]
fn decimal_keeps_its_parts() {
  let value = decimal(124314, 3);
  assert_eq!(124314, value.mantissa());
  assert_eq!(3, value.scale());
  assert!(Decimal::new(1, 18).is_some());
  assert!(Decimal::new(1, 19).is_none());
  assert!(Decimal::new(u64::MAX, 0).is_some());
  assert_eq!(0, value.exponent());
  assert_eq!(Decimal::new(7, 0), Decimal::raised_by(7, 0));
  assert!(Decimal::raised_by(7, 1).is_none());
  assert!(Decimal::raised_by(999_999_999_999_999_999, 1).is_none());
  let raised = Decimal::raised_by(1_000_000_000_000_000_000, 3).unwrap();
  assert_eq!(1_000_000_000_000_000_000, raised.mantissa());
  assert_eq!(0, raised.scale());
  assert_eq!(3, raised.exponent());
}

#[test]
fn decimal_prints_its_digits() {
  assert_eq!("124.314", decimal(124314, 3).to_string());
  assert_eq!("0.314", decimal(314, 3).to_string());
  assert_eq!("0.005", decimal(5, 3).to_string());
  assert_eq!("12431", decimal(12431, 0).to_string());
  assert_eq!("0", decimal(0, 0).to_string());
  assert_eq!("0.00", decimal(0, 2).to_string());
  assert_eq!("1.50", decimal(150, 2).to_string());
  assert_eq!("18.446744073709551615", decimal(u64::MAX, 18).to_string());
  assert_eq!(
    "1000000000000000000000",
    Decimal::raised_by(1_000_000_000_000_000_000, 3).unwrap().to_string());
  assert_eq!("18446744073709551615", Decimal::raised_by(u64::MAX, 0).unwrap().to_string());
}

#[test]
fn decimals_closer_than_a_ten_thousandth_are_close() {
  assert!(decimal(1, 0).approx_eq(&decimal(1, 0)));
  assert!(decimal(15, 1).approx_eq(&decimal(150, 2)));
  assert!(decimal(10000, 4).approx_eq(&decimal(100009, 5)));
  assert!(decimal(100009, 5).approx_eq(&decimal(10000, 4)));
  assert!(!decimal(10000, 4).approx_eq(&decimal(10001, 4)));
  assert!(!decimal(10001, 4).approx_eq(&decimal(10000, 4)));
  assert!(!decimal(1, 0).approx_eq(&decimal(2, 0)));
  assert!(decimal(0, 0).approx_eq(&decimal(99999999999999, 18)));
  assert!(!decimal(0, 0).approx_eq(&decimal(100000000000000, 18)));
  assert!(!decimal(u64::MAX, 0).approx_eq(&decimal(0, 18)));
  assert!(decimal(u64::MAX, 0).approx_eq(&decimal(u64::MAX, 0)));
}

#[test]
fn decimals_with_zeros_behind_their_digits_compare_by_what_they_measure() {
  let full: u64 = 1_000_000_000_000_000_000;
  let ten_full = Decimal::raised_by(full, 1).unwrap();
  assert!(ten_full.approx_eq(&decimal(10 * full, 0)));
  assert!(decimal(10 * full, 0).approx_eq(&ten_full));
  assert!(!ten_full.approx_eq(&decimal(10 * full + 1, 0)));
  assert!(!ten_full.approx_eq(&decimal(10 * full - 1, 0)));
  assert!(!ten_full.approx_eq(&decimal(u64::MAX, 18)));
  assert!(!ten_full.approx_eq(&decimal(full, 0)));
  assert!(ten_full.approx_eq(&ten_full));
  let hundred_full = Decimal::raised_by(full, 2).unwrap();
  assert!(!hundred_full.approx_eq(&ten_full));
  assert!(!ten_full.approx_eq(&hundred_full));
  assert!(!hundred_full.approx_eq(&decimal(u64::MAX, 0)));
  assert!(!decimal(0, 18).approx_eq(&hundred_full));
  assert!(hundred_full.approx_eq(&Decimal::raised_by(10 * full, 1).unwrap()));
  assert!(Decimal::raised_by(10 * full, 1).unwrap().approx_eq(&hundred_full));
  assert!(!hundred_full.approx_eq(&Decimal::raised_by(10 * full + 1, 1).unwrap()));
  assert!(!Decimal::raised_by(full, 9).unwrap().approx_eq(&Decimal::raised_by(full + 1, 9).unwrap()));
  assert!(!Decimal::raised_by(full, 4000000000).unwrap().approx_eq(&hundred_full));
}

#[test]
fn token_equality_ignores_the_place() {
  let here = SyntaxToken::new(TokenType::Identifier, TokenSubType::Identifier(4), 1, 2);
  let there = SyntaxToken::new(TokenType::Identifier, TokenSubType::Identifier(4), 30, 40);
  assert_eq!(here, there);
}

#[test]
fn token_equality_tells_kinds_and_payloads_apart() {
  let plus = SyntaxToken::new(TokenType::ArithOp, TokenSubType::Plus, 0, 0);
  let minus = SyntaxToken::new(TokenType::ArithOp, TokenSubType::Minus, 0, 0);
  let odd = SyntaxToken::new(TokenType::CompOp, TokenSubType::Plus, 0, 0);
  assert!(plus != minus);
  assert!(plus != odd);
  assert!(number(TokenSubType::IntegerNumber(1)) != number(TokenSubType::IntegerNumber(2)));
}

#[test]
fn token_equality_tells_widths_apart() {
  let double = number(TokenSubType::DoubleNumber(decimal(5, 1)));
  let float = number(TokenSubType::FloatNumber(decimal(5, 1)));
  let integer = number(TokenSubType::IntegerNumber(5));
  assert!(double != float);
  assert!(float != double);
  assert!(double != integer);
  assert!(integer != float);
  assert_eq!(float, number(TokenSubType::FloatNumber(decimal(50001, 5))));
  assert_eq!(double, number(TokenSubType::DoubleNumber(decimal(49999, 5))));
  assert!(double != number(TokenSubType::DoubleNumber(decimal(5001, 4))));
}

#[test]
fn kinds_have_their_names() {
  assert_eq!("Assign", TokenType::Assign.to_string());
  assert_eq!("Arithmetic operator", TokenType::ArithOp.to_string());
  assert_eq!("Comparison operator", TokenType::CompOp.to_string());
  assert_eq!("Left parenthesis", TokenType::LParen.to_string());
  assert_eq!("Right brace", TokenType::RBrace.to_string());
  assert_eq!("Semicolon", TokenType::SemiColon.to_string());
  assert_eq!("Type", TokenType::VarType.to_string());
  assert_eq!("Fn", TokenType::Fn.name());
  assert_eq!("Else if", TokenType::ElseIf.name());
}

#[test]
fn payloads_have_their_spellings() {
  assert_eq!("", TokenSubType::Text(0).to_string());
  assert_eq!("", TokenSubType::Identifier(0).to_string());
  assert_eq!("", TokenSubType::NoSubType.to_string());
  assert_eq!("1.5f", TokenSubType::FloatNumber(decimal(15, 1)).to_string());
  assert_eq!("0.25d", TokenSubType::DoubleNumber(decimal(25, 2)).to_string());
  assert_eq!("42", TokenSubType::IntegerNumber(42).to_string());
  assert_eq!("-42", TokenSubType::IntegerNumber(-42).to_string());
  assert_eq!("-2147483648", TokenSubType::IntegerNumber(i32::MIN).to_string());
  assert_eq!("true", TokenSubType::BooleanValue(true).to_string());
  assert_eq!("false", TokenSubType::BooleanValue(false).to_string());
  assert_eq!("string", TokenSubType::StringType.to_string());
  assert_eq!("void", TokenSubType::VoidType.to_string());
  assert_eq!(">=", TokenSubType::GreaterOrEq.to_string());
  assert_eq!("!=", TokenSubType::NotEq.to_string());
  assert_eq!("=", TokenSubType::Assign.to_string());
  assert_eq!("/", TokenSubType::Divide.to_string());
}

#[test]
fn stream_renders_tokens_with_their_texts() {
  let mut tokens = Tokens::new();
  tokens.set_text_table(vec!["foo".to_string(), "some text".to_string()]);
  let name = token(TokenType::Identifier, TokenSubType::Identifier(0));
  let text = token(TokenType::Text, TokenSubType::Text(1));
  let plus = token(TokenType::ArithOp, TokenSubType::Plus);
  let brace = token(TokenType::LBrace, TokenSubType::NoSubType);
  let kind = token(TokenType::VarType, TokenSubType::IntegerType);
  assert_eq!("foo (Identifier)", tokens.to_string(&name));
  assert_eq!("some text (Text)", tokens.to_string(&text));
  assert_eq!("+ (Arithmetic operator)", tokens.to_string(&plus));
  assert_eq!(" (Left brace)", tokens.to_string(&brace));
  assert_eq!("int (Type)", tokens.to_string(&kind));
  assert_eq!("foo", tokens.get_text(0));
  assert_eq!("some text", tokens.get_text(1));
}

#[test]
fn peek_second_looks_behind_the_next_token() {
  let mut tokens = Tokens::new();
  assert!(tokens.peek_second().is_none());
  tokens.push(token(TokenType::If, TokenSubType::NoSubType));
  assert!(tokens.peek_second().is_none());
  tokens.push(token(TokenType::LParen, TokenSubType::NoSubType));
  tokens.push(token(TokenType::RParen, TokenSubType::NoSubType));
  assert_eq!(TokenType::LParen, tokens.peek_second().unwrap().t_type);
  assert_eq!(TokenType::LParen, tokens.peek_second().unwrap().t_type);
  assert_eq!(TokenType::If, tokens.peek().unwrap().t_type);
  tokens.next();
  assert_eq!(TokenType::RParen, tokens.peek_second().unwrap().t_type);
  tokens.next();
  assert!(tokens.peek_second().is_none());
  assert_eq!(TokenType::RParen, tokens.peek().unwrap().t_type);
}

#[test]
fn next_stops_at_the_end() {
  let mut tokens = Tokens::new();
  tokens.push(token(TokenType::If, TokenSubType::NoSubType));
  assert_eq!(1, tokens.token_count());
  assert!(tokens.next().is_some());
  assert!(tokens.next().is_none());
  assert!(tokens.next().is_none());
  assert!(tokens.invalid_pos());
  assert_eq!(1, tokens.token_count());
  tokens.push(token(TokenType::Else, TokenSubType::NoSubType));
  assert!(!tokens.invalid_pos());
  assert_eq!(TokenType::Else, tokens.next().unwrap().t_type);
}

#[test]
fn expect_takes_the_token_of_the_wanted_kind() {
  let mut tokens = tokenize("fn foo").unwrap();
  match tokens.expect(TokenType::Fn) {
    Ok(token) => {
      assert_eq!(TokenType::Fn, token.t_type);
      assert_eq!((1, 1), (token.line, token.pos_at_line));
    }
    Err(..) => assert!(false),
  }
  assert_eq!(TokenType::Identifier, tokens.peek().unwrap().t_type);
}

#[test]
fn expect_leaves_a_token_of_another_kind() {
  let mut tokens = tokenize("fn\n  foo").unwrap();
  tokens.next();
  match tokens.expect(TokenType::LParen) {
    Ok(..) => assert!(false),
    Err(message) => assert_eq!(
      "Error at 2:3: Token was not of expected type Left parenthesis. Was actually foo (Identifier)",
      message),
  }
  assert_eq!(TokenType::Identifier, tokens.peek().unwrap().t_type);
  assert!(tokens.expect(TokenType::Identifier).is_ok());
}

#[test]
fn expect_reports_the_end_of_the_input() {
  let mut tokens = tokenize("fn\n  foo").unwrap();
  tokens.next();
  tokens.next();
  match tokens.expect(TokenType::LParen) {
    Ok(..) => assert!(false),
    Err(message) => assert_eq!(
      "Error at 2:3: Expected token of type Left parenthesis. Instead found end-of-file",
      message),
  }
  let mut empty = Tokens::new();
  match empty.expect(TokenType::Fn) {
    Ok(..) => assert!(false),
    Err(message) => {
      assert_eq!("Error at 1:1: Expected token of type Fn. Instead found end-of-file", message)
    }
  }
  assert_eq!((1, 1), empty.end_position());
  assert_eq!((2, 3), tokens.end_position());
}

#[test]
fn stream_knows_whether_its_tokens_resolve() {
  let mut tokens = Tokens::new();
  assert!(tokens.is_well_formed());
  tokens.push(token(TokenType::If, TokenSubType::NoSubType));
  tokens.push(token(TokenType::Identifier, TokenSubType::Identifier(1)));
  assert!(!tokens.is_well_formed());
  tokens.set_text_table(vec!["a".to_string()]);
  assert!(!tokens.is_well_formed());
  tokens.set_text_table(vec!["a".to_string(), "b".to_string()]);
  assert!(tokens.is_well_formed());
  tokens.push(token(TokenType::Text, TokenSubType::Text(2)));
  assert!(!tokens.is_well_formed());
  assert!(tokenize("a \"b\" c fn 1 a").unwrap().is_well_formed());
}

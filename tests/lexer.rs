use mathline::error::MathlineError;
use mathline::lexer::Lexer;
use mathline::token::{Number, Op, Token};

fn tokens(input: &str) -> Result<Vec<Token>, MathlineError> {
    let mut lexer = Lexer::new(input);
    let mut out = Vec::new();
    while let Some(t) = lexer.next()? {
        out.push(t);
    }
    Ok(out)
}

fn op(o: Op) -> Token {
    Token::Op(o)
}

fn integer(n: u64) -> Token {
    Token::Number(Number::whole(n))
}

#[test]
fn lex_single_character_operators() {
    let t = tokens("+ - * / % ^ . ( ) ,").unwrap();
    assert_eq!(
        t,
        vec![
            op(Op::Plus),
            op(Op::Minus),
            op(Op::Multiply),
            op(Op::Divide),
            op(Op::Modulo),
            op(Op::Exponent),
            op(Op::Dot),
            Token::LeftParen,
            Token::RightParen,
            Token::Comma,
        ]
    );
}

#[test]
fn lex_two_character_operators() {
    let t = tokens("** // == = != ! <= < >= > && ||").unwrap();
    assert_eq!(
        t,
        vec![
            op(Op::Exponent),
            op(Op::Divide),
            op(Op::Equal),
            op(Op::Equal),
            op(Op::NotEqual),
            op(Op::Not),
            op(Op::LessThanOrEqual),
            op(Op::LessThan),
            op(Op::GreaterThanOrEqual),
            op(Op::GreaterThan),
            op(Op::And),
            op(Op::Or),
        ]
    );
}

#[test]
fn lex_unicode_comparison_glyphs() {
    let t = tokens("1 ≠ 2 ≥ 3 ≤ 4").unwrap();
    assert_eq!(
        t,
        vec![
            integer(1),
            op(Op::NotEqual),
            integer(2),
            op(Op::GreaterThanOrEqual),
            integer(3),
            op(Op::LessThanOrEqual),
            integer(4),
        ]
    );
}

#[test]
fn lex_superscript_splits_into_exponent_and_digit() {
    let t = tokens("x²+y⁰").unwrap();
    assert_eq!(
        t,
        vec![
            Token::Symbol("x".to_string()),
            op(Op::Exponent),
            integer(2),
            op(Op::Plus),
            Token::Symbol("y".to_string()),
            op(Op::Exponent),
            integer(0),
        ]
    );
}

#[test]
fn lex_numbers() {
    let t = tokens("42 3.14 3.0 3. 0.05").unwrap();
    assert_eq!(
        t,
        vec![
            integer(42),
            Token::Number(Number { whole: 3, fraction: Some("14".to_string()) }),
            Token::Number(Number { whole: 3, fraction: Some("0".to_string()) }),
            Token::Number(Number { whole: 3, fraction: Some(String::new()) }),
            Token::Number(Number { whole: 0, fraction: Some("05".to_string()) }),
        ]
    );
}

#[test]
fn lex_words() {
    let t = tokens("true True false False not and or foo1").unwrap();
    assert_eq!(
        t,
        vec![
            Token::Bool(true),
            Token::Bool(true),
            Token::Bool(false),
            Token::Bool(false),
            op(Op::Not),
            op(Op::And),
            op(Op::Or),
            Token::Symbol("foo1".to_string()),
        ]
    );
}

#[test]
fn lex_whitespace_is_skipped() {
    assert_eq!(tokens(" \t1\n+\t2 ").unwrap(), vec![integer(1), op(Op::Plus), integer(2)]);
    assert_eq!(tokens("   ").unwrap(), vec![]);
}

#[test]
fn lex_invalid_character() {
    let mut lexer = Lexer::new("1 $ 2");
    assert_eq!(lexer.next(), Ok(Some(integer(1))));
    assert_eq!(lexer.next(), Err(MathlineError::InvalidChar('$')));
}

#[test]
fn lex_single_ampersand_or_bar() {
    assert_eq!(tokens("1 & 2"), Err(MathlineError::InvalidSyntax));
    assert_eq!(tokens("1 | 2"), Err(MathlineError::InvalidSyntax));
}

#[test]
fn lex_literal_longer_than_64_bits() {
    assert_eq!(tokens("18446744073709551615").unwrap(), vec![integer(18446744073709551615)]);
    assert_eq!(tokens("18446744073709551616"), Err(MathlineError::InvalidSyntax));
}

#[test]
fn number_whole_has_no_fraction() {
    assert_eq!(Number::whole(7), Number { whole: 7, fraction: None });
    assert_eq!(Number::whole(7).to_string(), "7");
    assert_eq!(Number { whole: 1, fraction: Some("25".to_string()) }.to_string(), "1.25");
}

#[test]
fn lex_greek_names() {
    assert_eq!(
        tokens("π τ2 αβ").unwrap(),
        vec![
            Token::Symbol("π".to_string()),
            Token::Symbol("τ2".to_string()),
            Token::Symbol("αβ".to_string()),
        ]
    );
    assert_eq!(tokens("é"), Err(MathlineError::InvalidChar('é')));
}

#[test]
fn tokens_show_as_written() {
    let shown: Vec<String> = tokens("x <= 2.5 ≠ true, (y)").unwrap().iter().map(|t| t.to_string()).collect();
    assert_eq!(shown, vec!["x", "≤", "2.5", "≠", "true", ",", "(", "y", ")"]);
    assert_eq!(Op::Exponent.symbol(), "^");
    assert_eq!(Op::Equal.symbol(), "=");
}

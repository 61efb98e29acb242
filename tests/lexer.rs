use monkey::lexer::{Lexer, ScanError};
use monkey::token::Token;

fn scan_all(input: &str) -> Vec<Result<Token, ScanError>> {
    let mut lexer = Lexer::new(input.to_string());
    let mut out = Vec::new();
    loop {
        let t = lexer.next_token();
        let end = t == Ok(Token::Eof);
        out.push(t);
        if end {
            return out;
        }
        assert!(out.len() <= input.len() + 1, "scanning did not end");
    }
}

fn ok(tokens: Vec<Token>) -> Vec<Result<Token, ScanError>> {
    tokens.into_iter().map(Ok).collect()
}

fn ident(s: &str) -> Token {
    Token::Ident(String::from(s))
}

#[test]
fn test_next_token() {
    let input = r#"let five = 5;
let ten = 10;

let add = fn(x, y) {
  x + y;
};

let result = add(five, ten);
!-/*5;
5 < 10 > 5;

if (5 < 10) {
    return true;
} else {
    return false;
}

10 == 10;
10 != 9;
"#;

    let tests = vec![
        Token::Let,
        Token::Ident(String::from("five")),
        Token::Assign,
        Token::Number(5),
        Token::Semicolon,
        Token::Let,
        Token::Ident(String::from("ten")),
        Token::Assign,
        Token::Number(10),
        Token::Semicolon,
        Token::Let,
        Token::Ident(String::from("add")),
        Token::Assign,
        Token::Function,
        Token::Lparen,
        Token::Ident(String::from("x")),
        Token::Comma,
        Token::Ident(String::from("y")),
        Token::Rparen,
        Token::Lbrace,
        Token::Ident(String::from("x")),
        Token::Plus,
        Token::Ident(String::from("y")),
        Token::Semicolon,
        Token::Rbrace,
        Token::Semicolon,
        Token::Let,
        Token::Ident(String::from("result")),
        Token::Assign,
        Token::Ident(String::from("add")),
        Token::Lparen,
        Token::Ident(String::from("five")),
        Token::Comma,
        Token::Ident(String::from("ten")),
        Token::Rparen,
        Token::Semicolon,
        Token::Bang,
        Token::Minus,
        Token::Slash,
        Token::Asterisk,
        Token::Number(5),
        Token::Semicolon,
        Token::Number(5),
        Token::Lt,
        Token::Number(10),
        Token::Gt,
        Token::Number(5),
        Token::Semicolon,
        Token::If,
        Token::Lparen,
        Token::Number(5),
        Token::Lt,
        Token::Number(10),
        Token::Rparen,
        Token::Lbrace,
        Token::Return,
        Token::True,
        Token::Semicolon,
        Token::Rbrace,
        Token::Else,
        Token::Lbrace,
        Token::Return,
        Token::False,
        Token::Semicolon,
        Token::Rbrace,
        Token::Number(10),
        Token::Equal,
        Token::Number(10),
        Token::Semicolon,
        Token::Number(10),
        Token::NotEqual,
        Token::Number(9),
        Token::Semicolon,
        Token::Eof,
    ];

    let mut lexer = Lexer::new(input.to_string());

    for expect in tests {
        let token = lexer.next_token();
        assert_eq!(Ok(expect), token);
    }
}

#[test]
fn let_statement() {
    assert_eq!(
        scan_all("let five = 5;"),
        ok(vec![Token::Let, ident("five"), Token::Assign, Token::Number(5), Token::Semicolon, Token::Eof])
    );
}

#[test]
fn equal_operator() {
    assert_eq!(
        scan_all("10 == 10;"),
        ok(vec![Token::Number(10), Token::Equal, Token::Number(10), Token::Semicolon, Token::Eof])
    );
}

#[test]
fn not_equal_operator() {
    assert_eq!(
        scan_all("10 != 9;"),
        ok(vec![Token::Number(10), Token::NotEqual, Token::Number(9), Token::Semicolon, Token::Eof])
    );
}

#[test]
fn empty_input() {
    assert_eq!(scan_all(""), ok(vec![Token::Eof]));
}

#[test]
fn single_control_byte() {
    assert_eq!(scan_all("\u{1}"), ok(vec![Token::Illegal, Token::Eof]));
}

#[test]
fn if_else_statement() {
    assert_eq!(
        scan_all("if (5 < 10) { return true; } else { return false; }"),
        ok(vec![
            Token::If,
            Token::Lparen,
            Token::Number(5),
            Token::Lt,
            Token::Number(10),
            Token::Rparen,
            Token::Lbrace,
            Token::Return,
            Token::True,
            Token::Semicolon,
            Token::Rbrace,
            Token::Else,
            Token::Lbrace,
            Token::Return,
            Token::False,
            Token::Semicolon,
            Token::Rbrace,
            Token::Eof,
        ])
    );
}

#[test]
fn end_repeats() {
    for input in ["", "   \t\r\n ", "\u{1}", "x", "é\u{7f}#$"] {
        let mut lexer = Lexer::new(input.to_string());
        let mut calls = 0;
        while lexer.next_token() != Ok(Token::Eof) {
            calls += 1;
            assert!(calls <= input.len());
        }
        for _ in 0..3 {
            assert_eq!(lexer.next_token(), Ok(Token::Eof));
        }
    }
}

#[test]
fn whitespace_only() {
    assert_eq!(scan_all(" \t\n\r  "), ok(vec![Token::Eof]));
}

#[test]
fn non_ascii_bytes_are_illegal_one_at_a_time() {
    // 'é' is two bytes in UTF-8
    assert_eq!(
        scan_all("a é ?"),
        ok(vec![ident("a"), Token::Illegal, Token::Illegal, Token::Illegal, Token::Eof])
    );
}

#[test]
fn zero_byte_is_illegal() {
    assert_eq!(
        scan_all("a\u{0}b"),
        ok(vec![ident("a"), Token::Illegal, ident("b"), Token::Eof])
    );
    assert_eq!(scan_all("\u{0}"), ok(vec![Token::Illegal, Token::Eof]));
}

#[test]
fn read_identifier_from_a_letter() {
    let mut lexer = Lexer::new(String::from("return_x1"));
    assert_eq!(lexer.read_identifier(), ident("return_x"));
    assert_eq!(lexer.next_token(), Ok(Token::Number(1)));
    let mut lexer = Lexer::new(String::from("else{"));
    assert_eq!(lexer.read_identifier(), Token::Else);
    assert_eq!(lexer.next_token(), Ok(Token::Lbrace));
}

#[test]
fn read_number_from_a_digit() {
    let mut lexer = Lexer::new(String::from("0042x"));
    assert_eq!(lexer.read_number(), Ok(Token::Number(42)));
    assert_eq!(lexer.next_token(), Ok(ident("x")));
    let mut lexer = Lexer::new(String::from("92233720368547758070;"));
    assert_eq!(lexer.read_number(), Err(ScanError::IntegerOverflow));
    assert_eq!(lexer.next_token(), Ok(Token::Semicolon));
}

#[test]
fn peek_is_stable() {
    let mut lexer = Lexer::new(String::from("!= x"));
    assert_eq!(lexer.peek_char(), b'=');
    assert_eq!(lexer.peek_char(), b'=');
    assert_eq!(lexer.next_token(), Ok(Token::NotEqual));
    assert_eq!(lexer.peek_char(), b'x');
    assert_eq!(lexer.peek_char(), b'x');
    let end = Lexer::new(String::from("a"));
    assert_eq!(end.peek_char(), 0);
    assert_eq!(end.peek_char(), 0);
}

#[test]
fn keywords() {
    assert_eq!(
        scan_all("fn let true false if else return"),
        ok(vec![
            Token::Function,
            Token::Let,
            Token::True,
            Token::False,
            Token::If,
            Token::Else,
            Token::Return,
            Token::Eof,
        ])
    );
}

#[test]
fn near_keywords_are_identifiers() {
    assert_eq!(
        scan_all("If IF lets f fnx _return else_ RETURN"),
        ok(vec![
            ident("If"),
            ident("IF"),
            ident("lets"),
            ident("f"),
            ident("fnx"),
            ident("_return"),
            ident("else_"),
            ident("RETURN"),
            Token::Eof,
        ])
    );
}

#[test]
fn identifiers_hold_no_digits() {
    assert_eq!(
        scan_all("abc12 x_y"),
        ok(vec![ident("abc"), Token::Number(12), ident("x_y"), Token::Eof])
    );
}

#[test]
fn lone_assign_and_bang() {
    assert_eq!(
        scan_all("=a!b= =!"),
        ok(vec![
            Token::Assign,
            ident("a"),
            Token::Bang,
            ident("b"),
            Token::Assign,
            Token::Assign,
            Token::Bang,
            Token::Eof,
        ])
    );
}

#[test]
fn double_operators_do_not_split() {
    assert_eq!(
        scan_all("===!==!"),
        ok(vec![Token::Equal, Token::Assign, Token::NotEqual, Token::Assign, Token::Bang, Token::Eof])
    );
}

#[test]
fn single_byte_operators() {
    assert_eq!(
        scan_all("+-*/<>,;(){}"),
        ok(vec![
            Token::Plus,
            Token::Minus,
            Token::Asterisk,
            Token::Slash,
            Token::Lt,
            Token::Gt,
            Token::Comma,
            Token::Semicolon,
            Token::Lparen,
            Token::Rparen,
            Token::Lbrace,
            Token::Rbrace,
            Token::Eof,
        ])
    );
}

#[test]
fn numbers_keep_their_value() {
    assert_eq!(
        scan_all("0 007 123456789 -5"),
        ok(vec![
            Token::Number(0),
            Token::Number(7),
            Token::Number(123456789),
            Token::Minus,
            Token::Number(5),
            Token::Eof,
        ])
    );
}

#[test]
fn largest_number() {
    assert_eq!(
        scan_all("9223372036854775807"),
        ok(vec![Token::Number(i64::MAX), Token::Eof])
    );
}

#[test]
fn overflowing_number_is_an_error() {
    assert_eq!(
        scan_all("9223372036854775808;1 99999999999999999999999"),
        vec![
            Err(ScanError::IntegerOverflow),
            Ok(Token::Semicolon),
            Ok(Token::Number(1)),
            Err(ScanError::IntegerOverflow),
            Ok(Token::Eof),
        ]
    );
}

use minilex::lexer::Lexer;
use minilex::token::Token;
use minilex::token::TokenKind;

fn lex_all(input: &str) -> Vec<Token> {
    let mut lexer = Lexer::new(input);
    let mut tokens: Vec<Token> = Vec::new();
    loop {
        let token = lexer.next_token();
        let done = token.kind == TokenKind::Eof;
        tokens.push(token);
        if done {
            break;
        }
    }
    tokens
}

#[test]
fn test_next_token() {
    let input = "let five = 5;
            let ten = 10;
            let add = fn(x, y) {
                x + y;
            };
            let result = add(five, ten);
            ! =/*5;
            5 < 10 > 5;

            if (5 < 10) {
                return true;
            } else {
                return false;
            }
            10 == 10;
            10 != 9;
            ";

    let expected: Vec<Token> = vec![
        Token::new(TokenKind::Let, "let".to_string()),
        Token::new(TokenKind::Ident, "five".to_string()),
        Token::new(TokenKind::Assign, "=".to_string()),
        Token::new(TokenKind::Int, "5".to_string()),
        Token::new(TokenKind::Semi, ";".to_string()),
        Token::new(TokenKind::Let, "let".to_string()),
        Token::new(TokenKind::Ident, "ten".to_string()),
        Token::new(TokenKind::Assign, "=".to_string()),
        Token::new(TokenKind::Int, "10".to_string()),
        Token::new(TokenKind::Semi, ";".to_string()),
        Token::new(TokenKind::Let, "let".to_string()),
        Token::new(TokenKind::Ident, "add".to_string()),
        Token::new(TokenKind::Assign, "=".to_string()),
        Token::new(TokenKind::Function, "fn".to_string()),
        Token::new(TokenKind::LParen, "(".to_string()),
        Token::new(TokenKind::Ident, "x".to_string()),
        Token::new(TokenKind::Comma, ",".to_string()),
        Token::new(TokenKind::Ident, "y".to_string()),
        Token::new(TokenKind::RParen, ")".to_string()),
        Token::new(TokenKind::LBrace, "{".to_string()),
        Token::new(TokenKind::Ident, "x".to_string()),
        Token::new(TokenKind::Plus, "+".to_string()),
        Token::new(TokenKind::Ident, "y".to_string()),
        Token::new(TokenKind::Semi, ";".to_string()),
        Token::new(TokenKind::RBrace, "}".to_string()),
        Token::new(TokenKind::Semi, ";".to_string()),
        Token::new(TokenKind::Let, "let".to_string()),
        Token::new(TokenKind::Ident, "result".to_string()),
        Token::new(TokenKind::Assign, "=".to_string()),
        Token::new(TokenKind::Ident, "add".to_string()),
        Token::new(TokenKind::LParen, "(".to_string()),
        Token::new(TokenKind::Ident, "five".to_string()),
        Token::new(TokenKind::Comma, ",".to_string()),
        Token::new(TokenKind::Ident, "ten".to_string()),
        Token::new(TokenKind::RParen, ")".to_string()),
        Token::new(TokenKind::Semi, ";".to_string()),
        Token::new(TokenKind::Bang, "!".to_string()),
        Token::new(TokenKind::Assign, "=".to_string()),
        Token::new(TokenKind::Slash, "/".to_string()),
        Token::new(TokenKind::Asterisk, "*".to_string()),
        Token::new(TokenKind::Int, "5".to_string()),
        Token::new(TokenKind::Semi, ";".to_string()),
        Token::new(TokenKind::Int, "5".to_string()),
        Token::new(TokenKind::Lt, "<".to_string()),
        Token::new(TokenKind::Int, "10".to_string()),
        Token::new(TokenKind::Gt, ">".to_string()),
        Token::new(TokenKind::Int, "5".to_string()),
        Token::new(TokenKind::Semi, ";".to_string()),
        Token::new(TokenKind::If, "if".to_string()),
        Token::new(TokenKind::LParen, "(".to_string()),
        Token::new(TokenKind::Int, "5".to_string()),
        Token::new(TokenKind::Lt, "<".to_string()),
        Token::new(TokenKind::Int, "10".to_string()),
        Token::new(TokenKind::RParen, ")".to_string()),
        Token::new(TokenKind::LBrace, "{".to_string()),
        Token::new(TokenKind::Return, "return".to_string()),
        Token::new(TokenKind::True, "true".to_string()),
        Token::new(TokenKind::Semi, ";".to_string()),
        Token::new(TokenKind::RBrace, "}".to_string()),
        Token::new(TokenKind::Else, "else".to_string()),
        Token::new(TokenKind::LBrace, "{".to_string()),
        Token::new(TokenKind::Return, "return".to_string()),
        Token::new(TokenKind::False, "false".to_string()),
        Token::new(TokenKind::Semi, ";".to_string()),
        Token::new(TokenKind::RBrace, "}".to_string()),
        Token::new(TokenKind::Int, "10".to_string()),
        Token::new(TokenKind::Equals, "==".to_string()),
        Token::new(TokenKind::Int, "10".to_string()),
        Token::new(TokenKind::Semi, ";".to_string()),
        Token::new(TokenKind::Int, "10".to_string()),
        Token::new(TokenKind::NotEquals, "!=".to_string()),
        Token::new(TokenKind::Int, "9".to_string()),
        Token::new(TokenKind::Semi, ";".to_string()),
        Token::new(TokenKind::Eof, "".to_string()),
    ];

    let tokens = lex_all(input);
    assert_eq!(tokens, expected);
}

#[test]
fn empty_input_yields_eof_first() {
    let mut lexer = Lexer::new("");
    let token = lexer.next_token();
    assert_eq!(token.kind, TokenKind::Eof);
    assert_eq!(token.literal, "");
}

#[test]
fn whitespace_only_input_yields_eof_first() {
    let mut lexer = Lexer::new(" \t\r\n   \n");
    let token = lexer.next_token();
    assert_eq!(token.kind, TokenKind::Eof);
    assert_eq!(token.literal, "");
}

#[test]
fn eof_is_stable_across_repeated_calls() {
    let mut lexer = Lexer::new("+");
    let first = lexer.next_token();
    assert_eq!(first.kind, TokenKind::Plus);
    for _ in 0..5 {
        let token = lexer.next_token();
        assert_eq!(token.kind, TokenKind::Eof);
        assert_eq!(token.literal, "");
    }
}

#[test]
fn maximal_munch_keeps_letter_whole() {
    let tokens = lex_all("letter");
    let expected = vec![
        Token::new(TokenKind::Ident, "letter".to_string()),
        Token::new(TokenKind::Eof, "".to_string()),
    ];
    assert_eq!(tokens, expected);
}

#[test]
fn double_equals_is_one_token() {
    let tokens = lex_all("==");
    let expected = vec![
        Token::new(TokenKind::Equals, "==".to_string()),
        Token::new(TokenKind::Eof, "".to_string()),
    ];
    assert_eq!(tokens, expected);
}

#[test]
fn assign_then_identifier() {
    let tokens = lex_all("=a");
    let expected = vec![
        Token::new(TokenKind::Assign, "=".to_string()),
        Token::new(TokenKind::Ident, "a".to_string()),
        Token::new(TokenKind::Eof, "".to_string()),
    ];
    assert_eq!(tokens, expected);
}

#[test]
fn bang_equals_is_one_token() {
    let tokens = lex_all("!=");
    let expected = vec![
        Token::new(TokenKind::NotEquals, "!=".to_string()),
        Token::new(TokenKind::Eof, "".to_string()),
    ];
    assert_eq!(tokens, expected);
}

#[test]
fn bang_then_identifier() {
    let tokens = lex_all("!a");
    let expected = vec![
        Token::new(TokenKind::Bang, "!".to_string()),
        Token::new(TokenKind::Ident, "a".to_string()),
        Token::new(TokenKind::Eof, "".to_string()),
    ];
    assert_eq!(tokens, expected);
}

#[test]
fn keyword_table_is_exact() {
    let cases = [
        ("let", TokenKind::Let),
        ("fn", TokenKind::Function),
        ("true", TokenKind::True),
        ("false", TokenKind::False),
        ("if", TokenKind::If),
        ("else", TokenKind::Else),
        ("return", TokenKind::Return),
        ("lett", TokenKind::Ident),
    ];
    for (text, kind) in cases {
        let tokens = lex_all(text);
        let expected = vec![
            Token::new(kind, text.to_string()),
            Token::new(TokenKind::Eof, "".to_string()),
        ];
        assert_eq!(tokens, expected);
    }
}

#[test]
fn scenario_let_binding() {
    let tokens = lex_all("let five = 5;");
    let expected = vec![
        Token::new(TokenKind::Let, "let".to_string()),
        Token::new(TokenKind::Ident, "five".to_string()),
        Token::new(TokenKind::Assign, "=".to_string()),
        Token::new(TokenKind::Int, "5".to_string()),
        Token::new(TokenKind::Semi, ";".to_string()),
        Token::new(TokenKind::Eof, "".to_string()),
    ];
    assert_eq!(tokens, expected);
}

#[test]
fn scenario_equality() {
    let tokens = lex_all("10 == 10;");
    let expected = vec![
        Token::new(TokenKind::Int, "10".to_string()),
        Token::new(TokenKind::Equals, "==".to_string()),
        Token::new(TokenKind::Int, "10".to_string()),
        Token::new(TokenKind::Semi, ";".to_string()),
        Token::new(TokenKind::Eof, "".to_string()),
    ];
    assert_eq!(tokens, expected);
}

#[test]
fn scenario_comparisons() {
    let tokens = lex_all("5 < 10 > 5;");
    let expected = vec![
        Token::new(TokenKind::Int, "5".to_string()),
        Token::new(TokenKind::Lt, "<".to_string()),
        Token::new(TokenKind::Int, "10".to_string()),
        Token::new(TokenKind::Gt, ">".to_string()),
        Token::new(TokenKind::Int, "5".to_string()),
        Token::new(TokenKind::Semi, ";".to_string()),
        Token::new(TokenKind::Eof, "".to_string()),
    ];
    assert_eq!(tokens, expected);
}

#[test]
fn illegal_character_marks_one_position_and_scanning_resumes() {
    let tokens = lex_all("a @ b");
    let expected = vec![
        Token::new(TokenKind::Ident, "a".to_string()),
        Token::new(TokenKind::Illegal, "".to_string()),
        Token::new(TokenKind::Ident, "b".to_string()),
        Token::new(TokenKind::Eof, "".to_string()),
    ];
    assert_eq!(tokens, expected);
}

#[test]
fn lone_illegal_character() {
    let tokens = lex_all("@");
    let expected = vec![
        Token::new(TokenKind::Illegal, "".to_string()),
        Token::new(TokenKind::Eof, "".to_string()),
    ];
    assert_eq!(tokens, expected);
}

#[test]
fn round_trip_without_whitespace() {
    let input = "x=10;";
    let mut rebuilt = String::new();
    for token in lex_all(input) {
        rebuilt.push_str(&token.literal);
    }
    assert_eq!(rebuilt, input);
}

#[test]
fn round_trip_literals_interleaved_with_whitespace() {
    let input = "  let x = 42 ;";
    let mut rebuilt = String::new();
    for token in lex_all(input) {
        rebuilt.push_str(&token.literal);
    }
    let without_whitespace: String = input.chars().filter(|c| !c.is_whitespace()).collect();
    assert_eq!(rebuilt, without_whitespace);
}

#[test]
fn input_is_addressed_by_character_not_byte() {
    let tokens = lex_all("héllo 42");
    let expected = vec![
        Token::new(TokenKind::Ident, "héllo".to_string()),
        Token::new(TokenKind::Int, "42".to_string()),
        Token::new(TokenKind::Eof, "".to_string()),
    ];
    assert_eq!(tokens, expected);
}

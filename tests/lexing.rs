use wmlang::lexer::Lexer;
use wmlang::token::Token;
use wmlang::token::TokenType;

fn lex_all(source: &str) -> Vec<(TokenType, String)> {
    let mut lexer = Lexer::new(String::from(source));
    let mut out = Vec::new();
    loop {
        let tok = lexer.next_token();
        let done = tok.ttype == TokenType::Eof;
        out.push((tok.ttype, tok.literal));
        if done {
            break;
        }
        assert!(out.len() < 10_000);
    }
    out
}

fn kinds(source: &str) -> Vec<TokenType> {
    lex_all(source).into_iter().map(|(k, _)| k).collect()
}

#[test]
fn double_equal_is_one_token() {
    assert_eq!(
        lex_all("=="),
        vec![(TokenType::Equal, "==".to_string()), (TokenType::Eof, String::new())]
    );
}

#[test]
fn assign_followed_by_other_char() {
    assert_eq!(
        lex_all("=5"),
        vec![
            (TokenType::Assign, "=".to_string()),
            (TokenType::Int, "5".to_string()),
            (TokenType::Eof, String::new())
        ]
    );
    assert_eq!(kinds("= ="), vec![TokenType::Assign, TokenType::Assign, TokenType::Eof]);
    assert_eq!(kinds("="), vec![TokenType::Assign, TokenType::Eof]);
}

#[test]
fn not_equal_is_one_token() {
    assert_eq!(
        lex_all("!="),
        vec![(TokenType::NotEqual, "!=".to_string()), (TokenType::Eof, String::new())]
    );
}

#[test]
fn bang_alone() {
    assert_eq!(lex_all("!"), vec![(TokenType::Bang, "!".to_string()), (TokenType::Eof, String::new())]);
    assert_eq!(kinds("! ="), vec![TokenType::Bang, TokenType::Assign, TokenType::Eof]);
    assert_eq!(kinds("=!"), vec![TokenType::Assign, TokenType::Bang, TokenType::Eof]);
}

#[test]
fn keywords_lex_as_keywords() {
    assert_eq!(
        kinds("let fn true false if else return"),
        vec![
            TokenType::Let,
            TokenType::Function,
            TokenType::True,
            TokenType::False,
            TokenType::If,
            TokenType::Else,
            TokenType::Return,
            TokenType::Eof
        ]
    );
}

#[test]
fn other_letter_runs_are_identifiers() {
    assert_eq!(
        lex_all("letx x _foo Let"),
        vec![
            (TokenType::Ident, "letx".to_string()),
            (TokenType::Ident, "x".to_string()),
            (TokenType::Ident, "_foo".to_string()),
            (TokenType::Ident, "Let".to_string()),
            (TokenType::Eof, String::new())
        ]
    );
}

#[test]
fn lookup_ident_table() {
    assert_eq!(Token::lookup_ident(&"let".to_string()), TokenType::Let);
    assert_eq!(Token::lookup_ident(&"fn".to_string()), TokenType::Function);
    assert_eq!(Token::lookup_ident(&"return".to_string()), TokenType::Return);
    assert_eq!(Token::lookup_ident(&"returns".to_string()), TokenType::Ident);
    assert_eq!(Token::lookup_ident(&"".to_string()), TokenType::Ident);
}

#[test]
fn number_run_is_one_token() {
    assert_eq!(lex_all("12345"), vec![(TokenType::Int, "12345".to_string()), (TokenType::Eof, String::new())]);
}

#[test]
fn letter_breaks_number_run() {
    assert_eq!(
        lex_all("12a"),
        vec![
            (TokenType::Int, "12".to_string()),
            (TokenType::Ident, "a".to_string()),
            (TokenType::Eof, String::new())
        ]
    );
}

#[test]
fn eof_repeats_forever() {
    let mut lexer = Lexer::new(String::from("let"));
    assert_eq!(lexer.next_token().ttype, TokenType::Let);
    for _ in 0..5 {
        let tok = lexer.next_token();
        assert_eq!(tok.ttype, TokenType::Eof);
        assert_eq!(tok.literal, "");
        assert_eq!(lexer.position, 3);
    }
}

#[test]
fn empty_and_blank_input() {
    assert_eq!(kinds(""), vec![TokenType::Eof]);
    assert_eq!(kinds(" \t\r\n "), vec![TokenType::Eof]);
}

#[test]
fn one_token_per_lexeme_then_eof() {
    let toks = lex_all("let five = 5;\nlet add = fn(x, y) { x + y; };");
    assert_eq!(toks.len(), 21 + 1);
    assert_eq!(toks[0], (TokenType::Let, "let".to_string()));
    assert_eq!(toks[1], (TokenType::Ident, "five".to_string()));
    assert_eq!(toks[4], (TokenType::Semicolon, ";".to_string()));
    assert_eq!(toks[8], (TokenType::Function, "fn".to_string()));
    assert_eq!(toks[21], (TokenType::Eof, String::new()));
}

#[test]
fn every_single_char_token() {
    assert_eq!(
        kinds("+-*/<>,;(){}"),
        vec![
            TokenType::Plus,
            TokenType::Minus,
            TokenType::Asterisk,
            TokenType::Slash,
            TokenType::LThan,
            TokenType::GThan,
            TokenType::Comma,
            TokenType::Semicolon,
            TokenType::LParen,
            TokenType::RParen,
            TokenType::LBrace,
            TokenType::RBrace,
            TokenType::Eof
        ]
    );
}

#[test]
fn illegal_characters_do_not_stop_lexing() {
    assert_eq!(
        lex_all("a @ b"),
        vec![
            (TokenType::Ident, "a".to_string()),
            (TokenType::Illegal, "@".to_string()),
            (TokenType::Ident, "b".to_string()),
            (TokenType::Eof, String::new())
        ]
    );
}

#[test]
fn nul_byte_inside_input_is_illegal() {
    assert_eq!(kinds("a\0b"), vec![TokenType::Ident, TokenType::Illegal, TokenType::Ident, TokenType::Eof]);
}

#[test]
fn lexer_cursor_fields() {
    let mut lexer = Lexer::new(String::from("ab cd"));
    assert_eq!(lexer.position, 0);
    assert_eq!(lexer.read_pos, 1);
    assert_eq!(lexer.ch, 'a');
    assert_eq!(lexer.peek_char(), 'b');
    let tok = lexer.next_token();
    assert_eq!(tok.literal, "ab");
    assert_eq!(lexer.position, 2);
    lexer.skip_whitespace();
    assert_eq!(lexer.position, 3);
    assert_eq!(lexer.read_identifier(), "cd");
    assert_eq!(lexer.ch, '\0');
    lexer.read_char();
    assert_eq!(lexer.position, 6);
    assert_eq!(lexer.read_pos, 7);
    assert_eq!(lexer.ch, '\0');
}

#[test]
fn read_number_stops_at_non_digit() {
    let mut lexer = Lexer::new(String::from("907x"));
    assert_eq!(lexer.read_number(), "907");
    assert_eq!(lexer.ch, 'x');
}

#[test]
fn token_names() {
    assert_eq!(TokenType::NotEqual.name(), "NotEqual");
    assert_eq!(TokenType::Eof.name(), "Eof");
    let tok = Token::new(TokenType::Ident, "x".to_string());
    assert_eq!(tok.literal, "x");
}

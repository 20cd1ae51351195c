use vstd::prelude::*;

verus! {

/// The closed set of lexical categories.
#[derive(Debug, Clone, Copy, PartialEq, Eq, Structural)]
pub enum TokenType {
    Eof,
    Illegal,
    // identifiers and literals
    Ident,
    Int,
    // operators
    Assign,
    Plus,
    Minus,
    Bang,
    Asterisk,
    Slash,
    LThan,
    GThan,
    Equal,
    NotEqual,
    // delimiters
    Comma,
    Semicolon,
    LParen,
    RParen,
    LBrace,
    RBrace,
    // keywords
    Let,
    Function,
    True,
    False,
    If,
    Else,
    Return,
}

/// The keyword table: an identifier run that equals one of these words exactly
/// is that keyword; every other run is an identifier.
pub open spec fn keyword_kind(word: Seq<char>) -> TokenType {
    if word == "let"@ {
        TokenType::Let
    } else if word == "fn"@ {
        TokenType::Function
    } else if word == "true"@ {
        TokenType::True
    } else if word == "false"@ {
        TokenType::False
    } else if word == "if"@ {
        TokenType::If
    } else if word == "else"@ {
        TokenType::Else
    } else if word == "return"@ {
        TokenType::Return
    } else {
        TokenType::Ident
    }
}

impl TokenType {
    /// The name under which a kind appears in diagnostics.
    pub open spec fn spec_name(self) -> Seq<char> {
        match self {
            TokenType::Eof => "Eof"@,
            TokenType::Illegal => "Illegal"@,
            TokenType::Ident => "Ident"@,
            TokenType::Int => "Int"@,
            TokenType::Assign => "Assign"@,
            TokenType::Plus => "Plus"@,
            TokenType::Minus => "Minus"@,
            TokenType::Bang => "Bang"@,
            TokenType::Asterisk => "Asterisk"@,
            TokenType::Slash => "Slash"@,
            TokenType::LThan => "LThan"@,
            TokenType::GThan => "GThan"@,
            TokenType::Equal => "Equal"@,
            TokenType::NotEqual => "NotEqual"@,
            TokenType::Comma => "Comma"@,
            TokenType::Semicolon => "Semicolon"@,
            TokenType::LParen => "LParen"@,
            TokenType::RParen => "RParen"@,
            TokenType::LBrace => "LBrace"@,
            TokenType::RBrace => "RBrace"@,
            TokenType::Let => "Let"@,
            TokenType::Function => "Function"@,
            TokenType::True => "True"@,
            TokenType::False => "False"@,
            TokenType::If => "If"@,
            TokenType::Else => "Else"@,
            TokenType::Return => "Return"@,
        }
    }

    pub fn name(&self) -> (r: String)
        ensures
            r@ == self.spec_name(),
    {
        let s: &str = match self {
            TokenType::Eof => "Eof",
            TokenType::Illegal => "Illegal",
            TokenType::Ident => "Ident",
            TokenType::Int => "Int",
            TokenType::Assign => "Assign",
            TokenType::Plus => "Plus",
            TokenType::Minus => "Minus",
            TokenType::Bang => "Bang",
            TokenType::Asterisk => "Asterisk",
            TokenType::Slash => "Slash",
            TokenType::LThan => "LThan",
            TokenType::GThan => "GThan",
            TokenType::Equal => "Equal",
            TokenType::NotEqual => "NotEqual",
            TokenType::Comma => "Comma",
            TokenType::Semicolon => "Semicolon",
            TokenType::LParen => "LParen",
            TokenType::RParen => "RParen",
            TokenType::LBrace => "LBrace",
            TokenType::RBrace => "RBrace",
            TokenType::Let => "Let",
            TokenType::Function => "Function",
            TokenType::True => "True",
            TokenType::False => "False",
            TokenType::If => "If",
            TokenType::Else => "Else",
            TokenType::Return => "Return",
        };
        s.to_string()
    }
}

/// A lexical unit: its kind and the exact source text behind it.
pub struct Token {
    pub ttype: TokenType,
    pub literal: String,
}

impl Token {
    pub fn new(ttype: TokenType, literal: String) -> (r: Self)
        ensures
            r.ttype == ttype,
            r.literal@ == literal@,
    {
        Self { ttype, literal }
    }

    /// Resolves an identifier run against the keyword table.
    pub fn lookup_ident(ident: &String) -> (r: TokenType)
        ensures
            r == keyword_kind(ident@),
    {
        if *ident == "let".to_string() {
            TokenType::Let
        } else if *ident == "fn".to_string() {
            TokenType::Function
        } else if *ident == "true".to_string() {
            TokenType::True
        } else if *ident == "false".to_string() {
            TokenType::False
        } else if *ident == "if".to_string() {
            TokenType::If
        } else if *ident == "else".to_string() {
            TokenType::Else
        } else if *ident == "return".to_string() {
            TokenType::Return
        } else {
            TokenType::Ident
        }
    }
}

impl Clone for Token {
    fn clone(&self) -> (r: Self)
        ensures
            r.ttype == self.ttype,
            r.literal@ == self.literal@,
    {
        Token { ttype: self.ttype, literal: self.literal.clone() }
    }
}

} // verus!

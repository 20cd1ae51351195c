use vstd::prelude::*;
use vstd::utf8::encode_utf8;

use crate::token::keyword_kind;
use crate::token::Token;
use crate::token::TokenType;

verus! {

pub open spec fn letter(c: char) -> bool {
    ('a' <= c && c <= 'z') || ('A' <= c && c <= 'Z') || c == '_'
}

pub open spec fn digit(c: char) -> bool {
    '0' <= c && c <= '9'
}

pub open spec fn blank(c: char) -> bool {
    c == ' ' || c == '\t' || c == '\n' || c == '\r'
}

/// The character at index `i`, or the end-of-input sentinel past the end.
pub open spec fn char_at(s: Seq<u8>, i: int) -> char {
    if 0 <= i < s.len() {
        s[i] as char
    } else {
        '\0'
    }
}

/// The source text between two indices, one character per byte.
pub open spec fn text(s: Seq<u8>, a: int, b: int) -> Seq<char> {
    if 0 <= a <= b <= s.len() {
        s.subrange(a, b).map_values(|x: u8| x as char)
    } else {
        Seq::empty()
    }
}

pub proof fn lemma_text_push(s: Seq<u8>, a: int, b: int)
    requires
        0 <= a <= b < s.len(),
    ensures
        text(s, a, b + 1) == text(s, a, b).push(s[b] as char),
{
    assert(text(s, a, b + 1) =~= text(s, a, b).push(s[b] as char));
}

/// First index at or after `p` that does not hold whitespace.
pub open spec fn skip_blank(s: Seq<u8>, p: int) -> int
    decreases s.len() - p,
{
    if 0 <= p < s.len() && blank(s[p] as char) {
        skip_blank(s, p + 1)
    } else {
        p
    }
}

/// End of the maximal run of letters starting at `p`.
pub open spec fn letters_end(s: Seq<u8>, p: int) -> int
    decreases s.len() - p,
{
    if 0 <= p < s.len() && letter(s[p] as char) {
        letters_end(s, p + 1)
    } else {
        p
    }
}

/// End of the maximal run of decimal digits starting at `p`.
pub open spec fn digits_end(s: Seq<u8>, p: int) -> int
    decreases s.len() - p,
{
    if 0 <= p < s.len() && digit(s[p] as char) {
        digits_end(s, p + 1)
    } else {
        p
    }
}

/// Whether the token at `q` is a two-character operator (`==` or `!=`).
pub open spec fn two_char_op(s: Seq<u8>, q: int) -> bool {
    (char_at(s, q) == '=' || char_at(s, q) == '!') && q + 1 < s.len() && char_at(s, q + 1) == '='
}

/// Where the next token begins when lexing resumes at `p`.
pub open spec fn token_start(s: Seq<u8>, p: int) -> int {
    skip_blank(s, p)
}

/// Where the next token ends when lexing resumes at `p`.
pub open spec fn token_end(s: Seq<u8>, p: int) -> int {
    let q = token_start(s, p);
    if q >= s.len() {
        q
    } else if two_char_op(s, q) {
        q + 2
    } else if letter(char_at(s, q)) {
        letters_end(s, q)
    } else if digit(char_at(s, q)) {
        digits_end(s, q)
    } else {
        q + 1
    }
}

/// The literal of the next token when lexing resumes at `p`.
pub open spec fn lexeme(s: Seq<u8>, p: int) -> Seq<char> {
    text(s, token_start(s, p), token_end(s, p))
}

/// The kind of a token that is a single character.
pub open spec fn single_kind(c: char) -> TokenType {
    if c == '=' {
        TokenType::Assign
    } else if c == '+' {
        TokenType::Plus
    } else if c == '-' {
        TokenType::Minus
    } else if c == '!' {
        TokenType::Bang
    } else if c == '*' {
        TokenType::Asterisk
    } else if c == '/' {
        TokenType::Slash
    } else if c == '<' {
        TokenType::LThan
    } else if c == '>' {
        TokenType::GThan
    } else if c == ',' {
        TokenType::Comma
    } else if c == ';' {
        TokenType::Semicolon
    } else if c == '(' {
        TokenType::LParen
    } else if c == ')' {
        TokenType::RParen
    } else if c == '{' {
        TokenType::LBrace
    } else if c == '}' {
        TokenType::RBrace
    } else {
        TokenType::Illegal
    }
}

/// The kind of the next token when lexing resumes at `p`.
pub open spec fn token_kind(s: Seq<u8>, p: int) -> TokenType {
    let q = token_start(s, p);
    let c = char_at(s, q);
    if q >= s.len() {
        TokenType::Eof
    } else if two_char_op(s, q) {
        if c == '=' {
            TokenType::Equal
        } else {
            TokenType::NotEqual
        }
    } else if letter(c) {
        keyword_kind(lexeme(s, p))
    } else if digit(c) {
        TokenType::Int
    } else {
        single_kind(c)
    }
}

/// Number of tokens before `Eof` when lexing resumes at `p`.
pub open spec fn tokens_left(s: Seq<u8>, p: int) -> nat
    decreases s.len() - p,
{
    if 0 <= p && token_start(s, p) < s.len() {
        if p < token_end(s, p) <= s.len() {
            1 + tokens_left(s, token_end(s, p))
        } else {
            0
        }
    } else {
        0
    }
}

pub proof fn lemma_skip_blank(s: Seq<u8>, p: int)
    requires
        0 <= p <= s.len(),
    ensures
        p <= skip_blank(s, p) <= s.len(),
        skip_blank(s, p) < s.len() ==> !blank(s[skip_blank(s, p)] as char),
    decreases s.len() - p,
{
    if p < s.len() && blank(s[p] as char) {
        lemma_skip_blank(s, p + 1);
    }
}

pub proof fn lemma_letters_end(s: Seq<u8>, p: int)
    requires
        0 <= p <= s.len(),
    ensures
        p <= letters_end(s, p) <= s.len(),
        0 <= p < s.len() && letter(s[p] as char) ==> letters_end(s, p) > p,
    decreases s.len() - p,
{
    if p < s.len() && letter(s[p] as char) {
        lemma_letters_end(s, p + 1);
    }
}

pub proof fn lemma_digits_end(s: Seq<u8>, p: int)
    requires
        0 <= p <= s.len(),
    ensures
        p <= digits_end(s, p) <= s.len(),
        0 <= p < s.len() && digit(s[p] as char) ==> digits_end(s, p) > p,
        forall|i: int| p <= i < digits_end(s, p) ==> digit(#[trigger] s[i] as char),
        digits_end(s, p) < s.len() ==> !digit(s[digits_end(s, p)] as char),
    decreases s.len() - p,
{
    if p < s.len() && digit(s[p] as char) {
        lemma_digits_end(s, p + 1);
    }
}

/// Lexing from inside the input always moves forward, and never past its end;
/// at or past the end it stays put and yields `Eof`.
pub proof fn lemma_token_end(s: Seq<u8>, p: int)
    requires
        0 <= p,
    ensures
        p <= token_start(s, p) <= token_end(s, p),
        p <= s.len() ==> token_end(s, p) <= s.len(),
        p < s.len() ==> token_end(s, p) > p,
        p >= s.len() ==> token_start(s, p) == p && token_end(s, p) == p && token_kind(s, p)
            == TokenType::Eof,
        (token_kind(s, p) == TokenType::Eof) <==> token_start(s, p) >= s.len(),
{
    if p <= s.len() {
        lemma_skip_blank(s, p);
    }
    let q = token_start(s, p);
    if q < s.len() {
        lemma_letters_end(s, q);
        lemma_digits_end(s, q);
        if !two_char_op(s, q) && !letter(char_at(s, q)) && !digit(char_at(s, q)) {
            assert(single_kind(char_at(s, q)) != TokenType::Eof);
        }
    }
}

/// Lexing ends: each call of `Lexer::next_token` before `Eof` yields one
/// lexeme and leaves exactly one fewer to come, the call that yields `Eof`
/// comes when none is left, and from then on the lexer no longer moves.
pub proof fn lemma_lexing_terminates(s: Seq<u8>, p: int)
    requires
        0 <= p <= s.len(),
    ensures
        (token_kind(s, p) == TokenType::Eof) <==> tokens_left(s, p) == 0,
        token_kind(s, p) != TokenType::Eof ==> tokens_left(s, token_end(s, p)) + 1
            == tokens_left(s, p),
        token_kind(s, p) == TokenType::Eof ==> token_kind(s, token_end(s, p)) == TokenType::Eof
            && token_end(s, token_end(s, p)) == token_end(s, p),
{
    lemma_token_end(s, p);
    let e = token_end(s, p);
    lemma_token_end(s, e);
    if token_kind(s, p) == TokenType::Eof {
        lemma_skip_blank(s, e);
    }
}

/// `==` and `!=` are one token exactly when both characters stand next to
/// each other; a `=` or `!` without a `=` right after it is `Assign` or `Bang`.
pub proof fn lemma_two_char_operators(s: Seq<u8>, p: int)
    requires
        0 <= p <= s.len(),
    ensures
        ({
            let q = token_start(s, p);
            let pair = q + 1 < s.len() && char_at(s, q + 1) == '=';
            &&& token_kind(s, p) == TokenType::Equal <==> q < s.len() && char_at(s, q) == '='
                && pair
            &&& token_kind(s, p) == TokenType::NotEqual <==> q < s.len() && char_at(s, q) == '!'
                && pair
            &&& token_kind(s, p) == TokenType::Assign <==> q < s.len() && char_at(s, q) == '='
                && !pair
            &&& token_kind(s, p) == TokenType::Bang <==> q < s.len() && char_at(s, q) == '!'
                && !pair
            &&& q < s.len() && (char_at(s, q) == '=' || char_at(s, q) == '!') ==> token_end(s, p)
                == if pair {
                q + 2
            } else {
                q + 1
            }
        }),
{
    lemma_skip_blank(s, p);
}

/// A token that starts with a digit is the whole run of digits there: an
/// integer literal of digits only, ended by the first character that is not
/// a digit.
pub proof fn lemma_number_runs(s: Seq<u8>, p: int)
    requires
        0 <= p <= s.len(),
        token_start(s, p) < s.len(),
        digit(char_at(s, token_start(s, p))),
    ensures
        token_kind(s, p) == TokenType::Int,
        lexeme(s, p).len() > 0,
        forall|i: int| 0 <= i < lexeme(s, p).len() ==> digit(#[trigger] lexeme(s, p)[i]),
        token_end(s, p) == s.len() || !digit(char_at(s, token_end(s, p))),
{
    let q = token_start(s, p);
    lemma_skip_blank(s, p);
    lemma_digits_end(s, q);
    assert forall|i: int| 0 <= i < lexeme(s, p).len() implies digit(#[trigger] lexeme(s, p)[i]) by {
        assert(lexeme(s, p)[i] == s[q + i] as char);
    }
}

/// A lexer over a byte string, holding a cursor that only moves forward.
pub struct Lexer {
    pub input: Vec<u8>,
    /// index of the current character
    pub position: usize,
    /// index of the next character
    pub read_pos: usize,
    /// the character at `position`, or `'\0'` at the end
    pub ch: char,
}

impl Lexer {
    pub open spec fn wf(&self) -> bool {
        &&& self.input.len() < usize::MAX
        &&& self.position < usize::MAX
        &&& self.read_pos == self.position + 1
        &&& self.ch == char_at(self.input@, self.position as int)
    }

    pub fn new(input: String) -> (r: Self)
        requires
            encode_utf8(input@).len() < usize::MAX,
        ensures
            r.wf(),
            r.input@ == encode_utf8(input@),
            r.position == 0,
    {
        let bytes: Vec<u8> = vstd::slice::slice_to_vec(input.as_str().as_bytes());
        let mut lexer: Self = Self { input: bytes, position: 0, read_pos: 0, ch: '\0' };
        lexer.read_char();
        lexer
    }

    /// Moves to the next character; past the last one the cursor keeps
    /// moving and the character is the end-of-input sentinel.
    pub fn read_char(&mut self)
        requires
            old(self).read_pos < usize::MAX,
        ensures
            final(self).input == old(self).input,
            final(self).position == old(self).read_pos,
            final(self).read_pos == final(self).position + 1,
            final(self).ch == char_at(final(self).input@, final(self).position as int),
            old(self).input.len() < usize::MAX ==> final(self).wf(),
    {
        if self.read_pos >= self.input.len() {
            self.ch = '\0';
        } else {
            self.ch = self.input[self.read_pos] as char;
        }
        self.position = self.read_pos;
        self.read_pos = self.read_pos + 1;
    }

    /// The character after the current one, without consuming it.
    pub fn peek_char(&self) -> (c: char)
        requires
            self.wf(),
        ensures
            c == char_at(self.input@, self.read_pos as int),
    {
        if self.read_pos >= self.input.len() {
            '\0'
        } else {
            self.input[self.read_pos] as char
        }
    }

    /// Returns the next token and moves past it. At or past the end of the
    /// input it returns `Eof` and leaves the lexer as it was.
    pub fn next_token(&mut self) -> (tok: Token)
        requires
            old(self).wf(),
        ensures
            final(self).wf(),
            final(self).input == old(self).input,
            tok.ttype == token_kind(old(self).input@, old(self).position as int),
            tok.literal@ == lexeme(old(self).input@, old(self).position as int),
            final(self).position == token_end(old(self).input@, old(self).position as int),
            old(self).position < old(self).input.len() ==> final(self).position
                > old(self).position,
            old(self).position >= old(self).input.len() ==> *final(self) == *old(self),
    {
        let ghost s = self.input@;
        let ghost p = self.position as int;
        proof {
            lemma_token_end(s, p);
        }
        self.skip_whitespace();
        let q = self.position;
        proof {
            if p <= s.len() {
                lemma_skip_blank(s, p);
            }
            if q <= s.len() {
                lemma_letters_end(s, q as int);
                lemma_digits_end(s, q as int);
            }
        }
        if self.position >= self.input.len() {
            proof {
                assert(text(s, q as int, q as int) =~= Seq::<char>::empty());
            }
            return Token::new(TokenType::Eof, String::new());
        }
        let c = self.ch;
        let mut literal = String::new();
        literal.push(c);
        if (c == '=' || c == '!') && self.peek_char() == '=' {
            self.read_char();
            literal.push(self.ch);
            self.read_char();
            proof {
                assert(literal@ =~= text(s, q as int, q + 2));
            }
            let ttype = if c == '=' {
                TokenType::Equal
            } else {
                TokenType::NotEqual
            };
            return Token::new(ttype, literal);
        }
        if is_letter(c) {
            let ident = self.read_identifier();
            let ttype = Token::lookup_ident(&ident);
            return Token::new(ttype, ident);
        }
        if is_digit(c) {
            let number = self.read_number();
            return Token::new(TokenType::Int, number);
        }
        let ttype = single_token_type(c);
        self.read_char();
        proof {
            assert(literal@ =~= text(s, q as int, q + 1));
        }
        Token::new(ttype, literal)
    }

    /// Reads the maximal run of letters at the cursor.
    pub fn read_identifier(&mut self) -> (ident: String)
        requires
            old(self).wf(),
        ensures
            final(self).wf(),
            final(self).input == old(self).input,
            final(self).position == letters_end(old(self).input@, old(self).position as int),
            ident@ == text(old(self).input@, old(self).position as int, final(self).position as int),
    {
        let ghost s = self.input@;
        let ghost start = self.position as int;
        let mut ident: String = String::new();
        proof {
            assert(ident@ =~= text(s, start, start));
        }
        while is_letter(self.ch)
            invariant
                self.wf(),
                self.input == old(self).input,
                self.input@ == s,
                0 <= start <= self.position,
                letters_end(s, self.position as int) == letters_end(s, start),
                ident@ == text(s, start, self.position as int),
            decreases s.len() - self.position,
        {
            let ghost pos = self.position as int;
            let ghost before = ident@;
            ident.push(self.ch);
            proof {
                assert(ident@ == before.push(s[pos] as char));
            }
            self.read_char();
            proof {
                lemma_text_push(s, start, pos);
            }
        }
        ident
    }

    /// Reads the maximal run of decimal digits at the cursor.
    pub fn read_number(&mut self) -> (number: String)
        requires
            old(self).wf(),
        ensures
            final(self).wf(),
            final(self).input == old(self).input,
            final(self).position == digits_end(old(self).input@, old(self).position as int),
            number@ == text(old(self).input@, old(self).position as int, final(self).position as int),
    {
        let ghost s = self.input@;
        let ghost start = self.position as int;
        let mut number: String = String::new();
        proof {
            assert(number@ =~= text(s, start, start));
        }
        while is_digit(self.ch)
            invariant
                self.wf(),
                self.input == old(self).input,
                self.input@ == s,
                0 <= start <= self.position,
                digits_end(s, self.position as int) == digits_end(s, start),
                number@ == text(s, start, self.position as int),
            decreases s.len() - self.position,
        {
            let ghost pos = self.position as int;
            let ghost before = number@;
            number.push(self.ch);
            proof {
                assert(number@ == before.push(s[pos] as char));
            }
            self.read_char();
            proof {
                lemma_text_push(s, start, pos);
            }
        }
        number
    }

    /// Moves the cursor past spaces, tabs and line breaks.
    pub fn skip_whitespace(&mut self)
        requires
            old(self).wf(),
        ensures
            final(self).wf(),
            final(self).input == old(self).input,
            final(self).position == skip_blank(old(self).input@, old(self).position as int),
    {
        let ghost s = self.input@;
        let ghost start = self.position as int;
        while is_whitespace(self.ch)
            invariant
                self.wf(),
                self.input == old(self).input,
                self.input@ == s,
                skip_blank(s, self.position as int) == skip_blank(s, start),
            decreases s.len() - self.position,
        {
            self.read_char();
        }
    }
}

/// Relies on `String::push`: appends one character.
pub assume_specification[ String::push ](s: &mut String, ch: char)
    ensures
        final(s)@ == old(s)@.push(ch),
;

fn single_token_type(c: char) -> (r: TokenType)
    ensures
        r == single_kind(c),
{
    match c {
        '=' => TokenType::Assign,
        '+' => TokenType::Plus,
        '-' => TokenType::Minus,
        '!' => TokenType::Bang,
        '*' => TokenType::Asterisk,
        '/' => TokenType::Slash,
        '<' => TokenType::LThan,
        '>' => TokenType::GThan,
        ',' => TokenType::Comma,
        ';' => TokenType::Semicolon,
        '(' => TokenType::LParen,
        ')' => TokenType::RParen,
        '{' => TokenType::LBrace,
        '}' => TokenType::RBrace,
        _ => TokenType::Illegal,
    }
}

fn is_digit(ch: char) -> (r: bool)
    ensures
        r == digit(ch),
{
    '0' <= ch && ch <= '9'
}

fn is_letter(ch: char) -> (r: bool)
    ensures
        r == letter(ch),
{
    ('a' <= ch && ch <= 'z') || ('A' <= ch && ch <= 'Z') || ch == '_'
}

fn is_whitespace(ch: char) -> (r: bool)
    ensures
        r == blank(ch),
{
    ch == ' ' || ch == '\t' || ch == '\n' || ch == '\r'
}

} // verus!

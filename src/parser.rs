use vstd::prelude::*;
use vstd::string::StrSliceExecFns;
use vstd::string::StringExecFns;

use crate::ast::BlockStatement;
use crate::ast::BooleanLiteral;
use crate::ast::CallExpression;
use crate::ast::Expression;
use crate::ast::FunctionLiteral;
use crate::ast::GroupedExpression;
use crate::ast::Identifier;
use crate::ast::IfExpression;
use crate::ast::InfixExpression;
use crate::ast::IntegerLiteral;
use crate::ast::LetStatement;
use crate::ast::PrefixExpression;
use crate::ast::Program;
use crate::ast::ReturnStatement;
use crate::ast::Statement;
use crate::lexer::digit;
use crate::lexer::lemma_token_end;
use crate::lexer::lexeme;
use crate::lexer::token_end;
use crate::lexer::token_kind;
use crate::lexer::token_start;
use crate::lexer::Lexer;
use crate::token::Token;
use crate::token::TokenType;

verus! {

/// The diagnostic recorded when the lookahead token is not the one the
/// grammar requires.
pub open spec fn expected_message(expected: TokenType, actual: TokenType) -> Seq<char> {
    "expected next token to be "@ + expected.spec_name() + ", got "@ + actual.spec_name()
        + " instead"@
}

/// The diagnostic recorded when no expression can start with a token.
pub open spec fn no_prefix_message(t: TokenType) -> Seq<char> {
    "no prefix parse function for "@ + t.spec_name() + " found"@
}

/// The diagnostic recorded when an integer literal does not fit in 64 bits.
pub open spec fn bad_integer_message(literal: Seq<char>) -> Seq<char> {
    "could not parse "@ + literal + " as integer"@
}

pub const LOWEST: u8 = 0;

pub const EQUALS: u8 = 1;

pub const LESSGREATER: u8 = 2;

pub const SUM: u8 = 3;

pub const PRODUCT: u8 = 4;

pub const PREFIX: u8 = 5;

pub const CALL: u8 = 6;

/// Binding strength of a token that continues an expression; `LOWEST` for
/// a token that does not.
pub open spec fn precedence_of(t: TokenType) -> u8 {
    match t {
        TokenType::Equal | TokenType::NotEqual => EQUALS,
        TokenType::LThan | TokenType::GThan => LESSGREATER,
        TokenType::Plus | TokenType::Minus => SUM,
        TokenType::Asterisk | TokenType::Slash => PRODUCT,
        TokenType::LParen => CALL,
        _ => LOWEST,
    }
}

pub open spec fn is_infix_operator(t: TokenType) -> bool {
    precedence_of(t) != LOWEST && t != TokenType::LParen
}

/// Whether an expression can start with a token of this kind.
pub open spec fn has_prefix_rule(t: TokenType) -> bool {
    match t {
        TokenType::Ident | TokenType::Int | TokenType::True | TokenType::False | TokenType::Bang
        | TokenType::Minus | TokenType::LParen | TokenType::If | TokenType::Function => true,
        _ => false,
    }
}

/// How loosely the root of an expression binds: the operator's precedence
/// for a binary expression, above every precedence for anything else.
pub open spec fn binding(e: Expression) -> int {
    match e {
        Expression::Infix(x) => precedence_of(x.token.ttype) as int,
        _ => 256,
    }
}

/// The tree respects precedence and left associativity: the left operand of
/// a binary operator binds at least as tightly as it, the right operand
/// strictly more tightly, and an operand of a prefix operator or the callee
/// of a call is never a bare binary expression.
pub open spec fn ranked(e: Expression) -> bool
    decreases e,
{
    match e {
        Expression::Infix(x) => {
            &&& is_infix_operator(x.token.ttype)
            &&& binding(*x.left) >= precedence_of(x.token.ttype)
            &&& binding(*x.right) > precedence_of(x.token.ttype)
            &&& ranked(*x.left)
            &&& ranked(*x.right)
        },
        Expression::Prefix(x) => binding(*x.right) > PREFIX && ranked(*x.right),
        Expression::Grouped(x) => ranked(*x.inner),
        Expression::Call(x) => binding(*x.function) > CALL && ranked(*x.function),
        Expression::If(x) => ranked(*x.condition),
        _ => true,
    }
}

pub fn precedence(t: TokenType) -> (r: u8)
    ensures
        r == precedence_of(t),
{
    match t {
        TokenType::Equal | TokenType::NotEqual => EQUALS,
        TokenType::LThan | TokenType::GThan => LESSGREATER,
        TokenType::Plus | TokenType::Minus => SUM,
        TokenType::Asterisk | TokenType::Slash => PRODUCT,
        TokenType::LParen => CALL,
        _ => LOWEST,
    }
}

pub open spec fn all_digits(s: Seq<char>) -> bool {
    forall|i: int| 0 <= i < s.len() ==> digit(#[trigger] s[i])
}

/// The number that a string of decimal digits denotes.
pub open spec fn decimal_value(s: Seq<char>) -> nat
    decreases s.len(),
{
    if s.len() == 0 {
        0
    } else {
        decimal_value(s.drop_last()) * 10 + ((s.last() as int - '0' as int) as nat)
    }
}

proof fn lemma_prefix_value(s: Seq<char>, k: int)
    requires
        0 <= k <= s.len(),
        all_digits(s),
    ensures
        decimal_value(s.take(k)) <= decimal_value(s),
    decreases s.len() - k,
{
    if k < s.len() {
        lemma_prefix_value(s, k + 1);
        assert(s.take(k + 1).drop_last() =~= s.take(k));
    } else {
        assert(s.take(k) =~= s);
    }
}

/// Reads a non-empty string of decimal digits as a 64-bit number; `None`
/// when it is empty, holds another character, or does not fit.
pub fn parse_integer(literal: &String) -> (r: Option<u64>)
    ensures
        r == (if literal@.len() > 0 && all_digits(literal@) && decimal_value(literal@)
            <= u64::MAX {
            Some(decimal_value(literal@) as u64)
        } else {
            None
        }),
{
    let ghost s = literal@;
    let text: &str = literal.as_str();
    let n = text.unicode_len();
    if n == 0 {
        return None;
    }
    let mut value: u64 = 0;
    let mut i: usize = 0;
    while i < n
        invariant
            text@ == s,
            literal@ == s,
            n == s.len(),
            i <= n,
            all_digits(s.take(i as int)),
            value == decimal_value(s.take(i as int)),
        decreases n - i,
    {
        let c = text.get_char(i);
        if !('0' <= c && c <= '9') {
            proof {
                assert(s[i as int] == c && !digit(c));
            }
            return None;
        }
        let d: u64 = (c as u32 - '0' as u32) as u64;
        proof {
            assert(s.take(i + 1).drop_last() =~= s.take(i as int));
            assert(all_digits(s.take(i + 1)));
            assert(s.take(i + 1).last() == c);
            assert(decimal_value(s.take(i + 1)) == value * 10 + d);
        }
        match value.checked_mul(10) {
            Some(m) => match m.checked_add(d) {
                Some(v) => {
                    value = v;
                },
                None => {
                    proof {
                        if all_digits(s) {
                            lemma_prefix_value(s, i + 1);
                        }
                    }
                    return None;
                },
            },
            None => {
                proof {
                    if all_digits(s) {
                        lemma_prefix_value(s, i + 1);
                    }
                }
                return None;
            },
        }
        i = i + 1;
    }
    proof {
        assert(s.take(n as int) =~= s);
    }
    Some(value)
}

pub open spec fn statement_ranked(st: Statement) -> bool {
    match st {
        Statement::Let(s) => ranked(s.value),
        Statement::Return(s) => ranked(s.value),
    }
}

/// A token that is an expression by itself: a name, a boolean, or an
/// integer that fits in 64 bits.
pub open spec fn leaf_token(t: TokenType, literal: Seq<char>) -> bool {
    ||| t == TokenType::Ident
    ||| t == TokenType::True
    ||| t == TokenType::False
    ||| (t == TokenType::Int && literal.len() > 0 && all_digits(literal) && decimal_value(literal)
        <= u64::MAX)
}

/// `e` is the expression made of the single token `(t, literal)`.
pub open spec fn is_leaf_of(e: Expression, t: TokenType, literal: Seq<char>) -> bool {
    match e {
        Expression::Identifier(x) => t == TokenType::Ident && x.token.ttype == t
            && x.token.literal@ == literal,
        Expression::Boolean(x) => (t == TokenType::True || t == TokenType::False) && x.token.ttype
            == t && x.token.literal@ == literal && x.value == (t == TokenType::True),
        Expression::Integer(x) => t == TokenType::Int && x.token.ttype == t && x.token.literal@
            == literal && x.value == decimal_value(literal),
        _ => false,
    }
}

/// A token as the grammar sees it: its kind and its literal.
pub type Tok = (TokenType, Seq<char>);

/// The tokens that lexing from `p` yields before `Eof`.
pub open spec fn lex_stream(s: Seq<u8>, p: int) -> Seq<Tok>
    decreases s.len() - p,
{
    if 0 <= p && token_start(s, p) < s.len() && p < token_end(s, p) <= s.len() {
        seq![(token_kind(s, p), lexeme(s, p))] + lex_stream(s, token_end(s, p))
    } else {
        Seq::empty()
    }
}

pub open spec fn kind_at(ts: Seq<Tok>, i: int) -> TokenType {
    if 0 <= i < ts.len() {
        ts[i].0
    } else {
        TokenType::Eof
    }
}

pub open spec fn literal_at(ts: Seq<Tok>, i: int) -> Seq<char> {
    if 0 <= i < ts.len() {
        ts[i].1
    } else {
        Seq::empty()
    }
}

/// The tokens after the first one; nothing is left of nothing.
pub open spec fn after_first(ts: Seq<Tok>) -> Seq<Tok> {
    if ts.len() > 0 {
        ts.drop_first()
    } else {
        ts
    }
}

/// What an expression denotes, token by token.
pub enum Tree {
    Leaf(TokenType, Seq<char>),
    Boolean(Seq<char>, bool),
    Integer(Seq<char>, nat),
    Prefix(TokenType, Seq<char>, Box<Tree>),
    Infix(Box<Tree>, TokenType, Seq<char>, Box<Tree>),
    Grouped(Seq<char>, Box<Tree>),
    Other,
}

pub open spec fn model(e: Expression) -> Tree
    decreases e,
{
    match e {
        Expression::Identifier(x) => Tree::Leaf(x.token.ttype, x.token.literal@),
        Expression::Boolean(x) => Tree::Boolean(x.token.literal@, x.value),
        Expression::Integer(x) => Tree::Integer(x.token.literal@, x.value as nat),
        Expression::Prefix(x) => Tree::Prefix(
            x.token.ttype,
            x.token.literal@,
            Box::new(model(*x.right)),
        ),
        Expression::Infix(x) => Tree::Infix(
            Box::new(model(*x.left)),
            x.token.ttype,
            x.token.literal@,
            Box::new(model(*x.right)),
        ),
        Expression::Grouped(x) => Tree::Grouped(x.token.literal@, Box::new(model(*x.inner))),
        _ => Tree::Other,
    }
}

/// Outcome of parsing a prefix of a token sequence: a result and the tokens
/// from the last one consumed on, a diagnostic and the tokens from where
/// parsing stopped, or a form (`if`, `fn`, calls) this model leaves open.
pub enum Parsed<T> {
    Done(T, Seq<Tok>),
    Failed(Seq<char>, Seq<Tok>),
    Open,
}

/// The expression at the start of `ts` whose operators bind more tightly
/// than `floor`: a prefix rule, then infix rules while the next token's
/// precedence exceeds the floor.
pub open spec fn spec_expression(ts: Seq<Tok>, floor: u8) -> Parsed<Tree>
    decreases ts.len(), 2nat,
{
    match spec_prefix(ts) {
        Parsed::Done(left, rest) => if rest.len() <= ts.len() {
            spec_infix(left, rest, floor)
        } else {
            Parsed::Open
        },
        Parsed::Failed(m, rest) => Parsed::Failed(m, rest),
        Parsed::Open => Parsed::Open,
    }
}

/// Continues an expression whose left part `left` ends at `ts[0]`.
pub open spec fn spec_infix(left: Tree, ts: Seq<Tok>, floor: u8) -> Parsed<Tree>
    decreases ts.len(), 1nat,
{
    let op = kind_at(ts, 1);
    if op != TokenType::Semicolon && floor < precedence_of(op) {
        if op == TokenType::LParen || ts.len() < 2 {
            Parsed::Open
        } else {
            match spec_expression(ts.subrange(2, ts.len() as int), precedence_of(op)) {
                Parsed::Done(right, rest) => if rest.len() < ts.len() {
                    spec_infix(
                        Tree::Infix(Box::new(left), op, literal_at(ts, 1), Box::new(right)),
                        rest,
                        floor,
                    )
                } else {
                    Parsed::Open
                },
                Parsed::Failed(m, rest) => Parsed::Failed(m, rest),
                Parsed::Open => Parsed::Open,
            }
        }
    } else {
        Parsed::Done(left, ts)
    }
}

/// The prefix rule of `ts[0]`.
pub open spec fn spec_prefix(ts: Seq<Tok>) -> Parsed<Tree>
    decreases ts.len(), 0nat,
{
    let t = kind_at(ts, 0);
    let l = literal_at(ts, 0);
    if t == TokenType::Ident {
        Parsed::Done(Tree::Leaf(t, l), ts)
    } else if t == TokenType::True || t == TokenType::False {
        Parsed::Done(Tree::Boolean(l, t == TokenType::True), ts)
    } else if t == TokenType::Int {
        if l.len() > 0 && all_digits(l) && decimal_value(l) <= u64::MAX {
            Parsed::Done(Tree::Integer(l, decimal_value(l)), ts)
        } else {
            Parsed::Failed(bad_integer_message(l), ts)
        }
    } else if t == TokenType::Bang || t == TokenType::Minus {
        match spec_expression(ts.drop_first(), PREFIX) {
            Parsed::Done(right, rest) => Parsed::Done(Tree::Prefix(t, l, Box::new(right)), rest),
            Parsed::Failed(m, rest) => Parsed::Failed(m, rest),
            Parsed::Open => Parsed::Open,
        }
    } else if t == TokenType::LParen {
        match spec_expression(ts.drop_first(), LOWEST) {
            Parsed::Done(inner, rest) => if kind_at(rest, 1) == TokenType::RParen {
                Parsed::Done(Tree::Grouped(l, Box::new(inner)), after_first(rest))
            } else {
                Parsed::Failed(expected_message(TokenType::RParen, kind_at(rest, 1)), rest)
            },
            Parsed::Failed(m, rest) => Parsed::Failed(m, rest),
            Parsed::Open => Parsed::Open,
        }
    } else if t == TokenType::If || t == TokenType::Function {
        Parsed::Open
    } else {
        Parsed::Failed(no_prefix_message(t), ts)
    }
}

/// What a statement denotes: its keyword's literal, the bound name for
/// `let`, and its value.
pub enum StatementTree {
    Let(Seq<char>, Seq<char>, Tree),
    Return(Seq<char>, Tree),
}

/// The literal of a statement's leading keyword.
pub open spec fn keyword_literal(t: StatementTree) -> Seq<char> {
    match t {
        StatementTree::Let(l, _, _) => l,
        StatementTree::Return(l, _) => l,
    }
}

pub open spec fn statement_model(st: Statement) -> StatementTree {
    match st {
        Statement::Let(s) => StatementTree::Let(s.token.literal@, s.name.token.literal@, model(s.value)),
        Statement::Return(s) => StatementTree::Return(s.token.literal@, model(s.value)),
    }
}

/// `let` IDENT `=` EXPR `;` at the start of `ts`; on success the rest
/// starts at the `;`.
pub open spec fn spec_let(ts: Seq<Tok>) -> Parsed<StatementTree> {
    if kind_at(ts, 1) != TokenType::Ident {
        Parsed::Failed(expected_message(TokenType::Ident, kind_at(ts, 1)), ts)
    } else if kind_at(ts, 2) != TokenType::Assign {
        Parsed::Failed(expected_message(TokenType::Assign, kind_at(ts, 2)), ts.drop_first())
    } else {
        match spec_expression(ts.subrange(3, ts.len() as int), LOWEST) {
            Parsed::Done(v, rest) => if kind_at(rest, 1) == TokenType::Semicolon {
                Parsed::Done(
                    StatementTree::Let(literal_at(ts, 0), literal_at(ts, 1), v),
                    after_first(rest),
                )
            } else {
                Parsed::Failed(expected_message(TokenType::Semicolon, kind_at(rest, 1)), rest)
            },
            Parsed::Failed(m, rest) => Parsed::Failed(m, rest),
            Parsed::Open => Parsed::Open,
        }
    }
}

/// `return` EXPR `;` at the start of `ts`.
pub open spec fn spec_return(ts: Seq<Tok>) -> Parsed<StatementTree> {
    match spec_expression(after_first(ts), LOWEST) {
        Parsed::Done(v, rest) => if kind_at(rest, 1) == TokenType::Semicolon {
            Parsed::Done(StatementTree::Return(literal_at(ts, 0), v), after_first(rest))
        } else {
            Parsed::Failed(expected_message(TokenType::Semicolon, kind_at(rest, 1)), rest)
        },
        Parsed::Failed(m, rest) => Parsed::Failed(m, rest),
        Parsed::Open => Parsed::Open,
    }
}

/// The statements and diagnostics of a whole token sequence: a statement
/// starts only at `let` or `return`; a failed one leaves its diagnostic and
/// parsing resumes one token after where it stopped.
pub open spec fn spec_program(ts: Seq<Tok>) -> Parsed<(Seq<StatementTree>, Seq<Seq<char>>)>
    decreases ts.len(),
{
    if ts.len() == 0 {
        Parsed::Done((Seq::empty(), Seq::empty()), ts)
    } else {
        let t = kind_at(ts, 0);
        let step = if t == TokenType::Let {
            spec_let(ts)
        } else if t == TokenType::Return {
            spec_return(ts)
        } else {
            Parsed::Failed(Seq::empty(), ts)
        };
        match step {
            Parsed::Done(st, rest) => if after_first(rest).len() < ts.len() {
                match spec_program(after_first(rest)) {
                    Parsed::Done(p, end) => Parsed::Done((seq![st] + p.0, p.1), end),
                    _ => Parsed::Open,
                }
            } else {
                Parsed::Open
            },
            Parsed::Failed(m, rest) => if after_first(rest).len() < ts.len() {
                match spec_program(after_first(rest)) {
                    Parsed::Done(p, end) => Parsed::Done(
                        (p.0, if t == TokenType::Let || t == TokenType::Return {
                            seq![m] + p.1
                        } else {
                            p.1
                        }),
                        end,
                    ),
                    _ => Parsed::Open,
                }
            } else {
                Parsed::Open
            },
            Parsed::Open => Parsed::Open,
        }
    }
}

pub open spec fn tree_of(r: Option<Expression>) -> Option<Tree> {
    match r {
        Some(e) => Some(model(e)),
        None => None,
    }
}

pub open spec fn let_of(r: Option<LetStatement>) -> Option<StatementTree> {
    match r {
        Some(st) => Some(statement_model(Statement::Let(st))),
        None => None,
    }
}

pub open spec fn return_of(r: Option<ReturnStatement>) -> Option<StatementTree> {
    match r {
        Some(st) => Some(statement_model(Statement::Return(st))),
        None => None,
    }
}

pub open spec fn statement_of(r: Option<Statement>) -> Option<StatementTree> {
    match r {
        Some(st) => Some(statement_model(st)),
        None => None,
    }
}

/// A recursive-descent parser over the tokens of one lexer, with a
/// two-token lookahead.
pub struct Parser {
    pub lexer: Lexer,
    pub current_token: Token,
    pub peek_token: Token,
    pub errors: Vec<String>,
}

impl Parser {
    /// Once a lookahead slot holds `Eof`, the lexer is exhausted and every
    /// later slot holds `Eof` too.
    pub open spec fn wf(&self) -> bool {
        &&& self.lexer.wf()
        &&& self.peek_token.ttype == TokenType::Eof ==> self.lexer.position
            >= self.lexer.input.len()
        &&& self.current_token.ttype == TokenType::Eof ==> self.peek_token.ttype
            == TokenType::Eof
    }

    /// An upper bound on the work left: three per unread byte, one per
    /// lookahead slot that does not hold `Eof`.
    pub open spec fn budget(&self) -> nat {
        (3 * (if self.lexer.position < self.lexer.input.len() {
            self.lexer.input.len() - self.lexer.position
        } else {
            0int
        }) + (if self.current_token.ttype
            != TokenType::Eof {
            1int
        } else {
            0int
        }) + (if self.peek_token.ttype != TokenType::Eof {
            1int
        } else {
            0int
        })) as nat
    }

    /// `self` is `prev` moved forward by one token.
    pub open spec fn advanced_from(&self, prev: Parser) -> bool {
        let s = prev.lexer.input@;
        let p = prev.lexer.position as int;
        &&& self.wf()
        &&& self.lexer.input == prev.lexer.input
        &&& self.current_token == prev.peek_token
        &&& self.peek_token.ttype == token_kind(s, p)
        &&& self.peek_token.literal@ == lexeme(s, p)
        &&& self.lexer.position == token_end(s, p)
        &&& self.errors == prev.errors
    }

    /// `self` is a later state of `prev`: same input, no more work left, and
    /// the diagnostics of `prev` kept in front.
    pub open spec fn continues(&self, prev: Parser) -> bool {
        &&& self.wf()
        &&& self.lexer.input == prev.lexer.input
        &&& self.budget() <= prev.budget()
        &&& self.stream().len() <= prev.stream().len()
        &&& prev.errors@.len() <= self.errors@.len()
        &&& forall|i: int| 0 <= i < prev.errors@.len() ==> self.errors@[i] == prev.errors@[i]
    }

    /// The tokens from the current one up to `Eof`.
    pub open spec fn stream(&self) -> Seq<Tok> {
        let c = (self.current_token.ttype, self.current_token.literal@);
        let n = (self.peek_token.ttype, self.peek_token.literal@);
        if self.current_token.ttype == TokenType::Eof {
            Seq::empty()
        } else if self.peek_token.ttype == TokenType::Eof {
            seq![c]
        } else {
            seq![c, n] + lex_stream(self.lexer.input@, self.lexer.position as int)
        }
    }

    /// `self`, reached from `prev` by a parse with result `got`, is where
    /// `outcome` says: the same result, the cursor at the rest, and either
    /// no new diagnostic or exactly the one of the failure.
    pub open spec fn follows<T>(&self, prev: Parser, outcome: Parsed<T>, got: Option<T>) -> bool {
        match outcome {
            Parsed::Done(t, rest) => got == Some(t) && self.stream() == rest && self.errors@
                == prev.errors@,
            Parsed::Failed(m, rest) => got is None && self.stream() == rest && self.errors@
                == prev.errors@.push(self.errors@.last()) && self.errors@.last()@ == m,
            Parsed::Open => true,
        }
    }

    pub proof fn lemma_stream_heads(&self)
        requires
            self.wf(),
        ensures
            kind_at(self.stream(), 0) == self.current_token.ttype,
            kind_at(self.stream(), 1) == self.peek_token.ttype,
            self.current_token.ttype != TokenType::Eof ==> literal_at(self.stream(), 0)
                == self.current_token.literal@,
            self.peek_token.ttype != TokenType::Eof ==> literal_at(self.stream(), 1)
                == self.peek_token.literal@,
    {
    }

    /// Takes the lexer and fills both lookahead slots.
    pub fn new(lexer: Lexer) -> (r: Self)
        requires
            lexer.wf(),
        ensures
            r.wf(),
            r.errors@.len() == 0,
            r.lexer.input == lexer.input,
            r.current_token.ttype == token_kind(lexer.input@, lexer.position as int),
            r.current_token.literal@ == lexeme(lexer.input@, lexer.position as int),
            r.peek_token.ttype == token_kind(
                lexer.input@,
                token_end(lexer.input@, lexer.position as int),
            ),
            r.peek_token.literal@ == lexeme(
                lexer.input@,
                token_end(lexer.input@, lexer.position as int),
            ),
    {
        let mut lexer = lexer;
        let ghost s = lexer.input@;
        let ghost p = lexer.position as int;
        proof {
            lemma_token_end(s, p);
        }
        let first = lexer.next_token();
        let ghost q = lexer.position as int;
        proof {
            lemma_token_end(s, q);
        }
        let second = lexer.next_token();
        Self { lexer, current_token: first, peek_token: second, errors: Vec::new() }
    }

    /// The diagnostics recorded so far.
    pub fn errors(&self) -> (r: &Vec<String>)
        ensures
            r == &self.errors,
    {
        &self.errors
    }

    /// Records that the lookahead token is not of the kind `token`.
    pub fn peek_error(&mut self, token: TokenType)
        ensures
            final(self).errors@.len() == old(self).errors@.len() + 1,
            final(self).errors@.subrange(0, old(self).errors@.len() as int) == old(self).errors@,
            final(self).errors@.last()@ == expected_message(token, old(self).peek_token.ttype),
            final(self).lexer == old(self).lexer,
            final(self).current_token == old(self).current_token,
            final(self).peek_token == old(self).peek_token,
    {
        let mut message = "expected next token to be ".to_string();
        message.append(token.name().as_str());
        message.append(", got ");
        message.append(self.peek_token.ttype.name().as_str());
        message.append(" instead");
        let ghost before = self.errors@;
        self.errors.push(message);
        proof {
            assert(self.errors@.subrange(0, before.len() as int) =~= before);
        }
    }

    /// Shifts the lookahead by one token.
    pub fn next_token(&mut self)
        requires
            old(self).wf(),
        ensures
            final(self).advanced_from(*old(self)),
            final(self).stream() == after_first(old(self).stream()),
            final(self).budget() <= old(self).budget(),
            old(self).current_token.ttype != TokenType::Eof ==> final(self).budget() < old(
                self,
            ).budget(),
    {
        let ghost s = self.lexer.input@;
        let ghost p = self.lexer.position as int;
        proof {
            lemma_token_end(s, p);
        }
        let mut tok = self.lexer.next_token();
        std::mem::swap(&mut self.peek_token, &mut tok);
        self.current_token = tok;
        proof {
            let e = self.lexer.position as int;
            lemma_token_end(s, e);
            if old(self).peek_token.ttype != TokenType::Eof {
                if self.peek_token.ttype != TokenType::Eof {
                    assert(self.stream() =~= old(self).stream().drop_first());
                } else {
                    assert(lex_stream(s, p) =~= Seq::<Tok>::empty());
                    assert(self.stream() =~= old(self).stream().drop_first());
                }
            }
        }
    }

    pub fn match_current_token(&self, token: TokenType) -> (r: bool)
        ensures
            r == (self.current_token.ttype == token),
    {
        self.current_token.ttype == token
    }

    pub fn match_peek_token(&self, token: TokenType) -> (r: bool)
        ensures
            r == (self.peek_token.ttype == token),
    {
        self.peek_token.ttype == token
    }

    /// Moves forward if the lookahead token is of the kind `token`; otherwise
    /// records a diagnostic and stays put.
    pub fn expect_peek(&mut self, token: TokenType) -> (r: bool)
        requires
            old(self).wf(),
        ensures
            r == (old(self).peek_token.ttype == token),
            r ==> final(self).advanced_from(*old(self)),
            r ==> final(self).stream() == after_first(old(self).stream()),
            r && token != TokenType::Eof ==> final(self).budget() < old(self).budget(),
            !r ==> final(self).wf() && final(self).lexer == old(self).lexer
                && final(self).current_token == old(self).current_token && final(self).peek_token
                == old(self).peek_token && final(self).errors@ == old(self).errors@.push(
                final(self).errors@.last(),
            ) && final(self).errors@.last()@ == expected_message(
                token,
                old(self).peek_token.ttype,
            ),
            final(self).continues(*old(self)),
    {
        let expect = self.match_peek_token(token);
        if expect {
            self.next_token();
        } else {
            self.peek_error(token);
            proof {
                assert(self.errors@ =~= old(self).errors@.push(self.errors@.last()));
            }
        }
        proof {
            assert(self.errors@.subrange(0, old(self).errors@.len() as int) =~= old(self).errors@);
        }
        expect
    }

    /// Appends one diagnostic and changes nothing else.
    fn record_error(&mut self, message: String)
        ensures
            final(self).errors@ == old(self).errors@.push(message),
            final(self).lexer == old(self).lexer,
            final(self).current_token == old(self).current_token,
            final(self).peek_token == old(self).peek_token,
    {
        self.errors.push(message);
    }

    /// Parses every statement up to the end of the input; a statement that
    /// fails leaves a diagnostic and is skipped.
    pub fn parse_program(&mut self) -> (program: Program)
        requires
            old(self).wf(),
        ensures
            final(self).continues(*old(self)),
            final(self).current_token.ttype == TokenType::Eof,
            old(self).current_token.ttype == TokenType::Eof ==> program.statements@.len() == 0
                && final(self).errors@ == old(self).errors@,
            forall|i: int|
                0 <= i < program.statements@.len() ==> statement_ranked(
                    #[trigger] program.statements@[i],
                ),
            spec_program(old(self).stream()) matches Parsed::Done(q, _) ==> q.0
                == program.statements@.map_values(|st: Statement| statement_model(st)) && q.1
                == final(self).errors@.subrange(
                old(self).errors@.len() as int,
                final(self).errors@.len() as int,
            ).map_values(|e: String| e@),
    {
        let mut program: Program = Program::new();
        let ghost s0 = old(self).stream();
        proof {
            assert(program.statements@.map_values(|st: Statement| statement_model(st)) =~= Seq::<StatementTree>::empty());
            assert(self.errors@.subrange(old(self).errors@.len() as int, self.errors@.len() as int).map_values(|e: String| e@) =~= Seq::<Seq<char>>::empty());
        }
        while self.current_token.ttype != TokenType::Eof
            invariant
                self.continues(*old(self)),
                old(self).current_token.ttype == TokenType::Eof ==> program.statements@.len() == 0
                    && self.errors@ == old(self).errors@ && self.current_token.ttype
                    == TokenType::Eof,
                forall|i: int|
                    0 <= i < program.statements@.len() ==> statement_ranked(
                        #[trigger] program.statements@[i],
                    ),
                s0 == old(self).stream(),
                !(spec_program(s0) is Open) ==> (spec_program(s0) matches Parsed::Done(q, _) && (
                spec_program(self.stream()) matches Parsed::Done(x, _) && q.0
                    == program.statements@.map_values(|st: Statement| statement_model(st)) + x.0
                    && q.1 == self.errors@.subrange(
                    old(self).errors@.len() as int,
                    self.errors@.len() as int,
                ).map_values(|e: String| e@) + x.1)),
            decreases self.budget(),
        {
            match self.parse_statement() {
                Some(stmt) => {
                    program.statements.push(stmt);
                },
                None => {},
            }
            self.next_token();
        }
        program
    }

    /// Parses the statement at the current token. Only `let` and `return`
    /// start a statement; at any other token nothing happens.
    pub fn parse_statement(&mut self) -> (r: Option<Statement>)
        requires
            old(self).wf(),
        ensures
            old(self).current_token.ttype == TokenType::Let ==> final(self).follows(
                *old(self),
                spec_let(old(self).stream()),
                statement_of(r),
            ),
            old(self).current_token.ttype == TokenType::Return ==> final(self).follows(
                *old(self),
                spec_return(old(self).stream()),
                statement_of(r),
            ),
            r matches Some(st) ==> keyword_literal(statement_model(st)) == old(
                self,
            ).current_token.literal@,
            final(self).continues(*old(self)),
            old(self).current_token.ttype != TokenType::Let && old(self).current_token.ttype
                != TokenType::Return ==> r is None && *final(self) == *old(self),
            r is None && (old(self).current_token.ttype == TokenType::Let || old(
                self,
            ).current_token.ttype == TokenType::Return) ==> final(self).errors@.len() > old(
                self,
            ).errors@.len(),
            r matches Some(st) ==> statement_ranked(st) && (st is Let <==> old(
                self,
            ).current_token.ttype == TokenType::Let) && (st is Return <==> old(
                self,
            ).current_token.ttype == TokenType::Return),
        decreases old(self).budget(), 3nat,
    {
        match self.current_token.ttype {
            TokenType::Let => match self.parse_let_stmt() {
                Some(st) => Some(Statement::Let(st)),
                None => None,
            },
            TokenType::Return => match self.parse_return_stmt() {
                Some(st) => Some(Statement::Return(st)),
                None => None,
            },
            _ => None,
        }
    }

    /// `let` IDENT `=` EXPR `;`, with the current token on `let`.
    pub fn parse_let_stmt(&mut self) -> (r: Option<LetStatement>)
        requires
            old(self).wf(),
            old(self).current_token.ttype == TokenType::Let,
        ensures
            final(self).follows(*old(self), spec_let(old(self).stream()), let_of(r)),
            r matches Some(st) ==> st.token.ttype == old(self).current_token.ttype
                && st.token.literal@ == old(self).current_token.literal@
                && final(self).current_token.ttype == TokenType::Semicolon,
            final(self).continues(*old(self)),
            r is None ==> final(self).errors@.len() > old(self).errors@.len(),
            r matches Some(st) ==> st.token.ttype == TokenType::Let && st.name.token.ttype
                == TokenType::Ident && ranked(st.value),
            old(self).peek_token.ttype != TokenType::Ident ==> r is None && final(self).current_token
                == old(self).current_token && final(self).errors@
                == old(self).errors@.push(final(self).errors@.last())
                && final(self).errors@.last()@ == expected_message(
                TokenType::Ident,
                old(self).peek_token.ttype,
            ),
            ({
                let after = token_kind(old(self).lexer.input@, old(self).lexer.position as int);
                old(self).peek_token.ttype == TokenType::Ident && after != TokenType::Assign ==> r
                    is None && final(self).errors@ == old(self).errors@.push(
                    final(self).errors@.last(),
                ) && final(self).errors@.last()@ == expected_message(TokenType::Assign, after)
            }),
        decreases old(self).budget(), 0nat,
    {
        let ghost ts = self.stream();
        proof {
            self.lemma_stream_heads();
        }
        let let_token: Token = self.current_token.clone();
        if !self.expect_peek(TokenType::Ident) {
            return None;
        }
        proof {
            self.lemma_stream_heads();
        }
        let name: Identifier = Identifier { token: self.current_token.clone() };
        if !self.expect_peek(TokenType::Assign) {
            return None;
        }
        self.next_token();
        proof {
            assert(self.stream() =~= ts.subrange(3, ts.len() as int));
        }
        let value = match self.parse_expression(LOWEST) {
            Some(e) => e,
            None => return None,
        };
        proof {
            self.lemma_stream_heads();
        }
        if !self.expect_peek(TokenType::Semicolon) {
            return None;
        }
        Some(LetStatement { token: let_token, name, value })
    }

    /// `return` EXPR `;`, with the current token on `return`.
    pub fn parse_return_stmt(&mut self) -> (r: Option<ReturnStatement>)
        requires
            old(self).wf(),
            old(self).current_token.ttype == TokenType::Return,
        ensures
            final(self).follows(*old(self), spec_return(old(self).stream()), return_of(r)),
            r matches Some(st) ==> st.token.ttype == old(self).current_token.ttype
                && st.token.literal@ == old(self).current_token.literal@
                && final(self).current_token.ttype == TokenType::Semicolon,
            final(self).continues(*old(self)),
            r is None ==> final(self).errors@.len() > old(self).errors@.len(),
            r matches Some(st) ==> st.token.ttype == TokenType::Return && ranked(st.value),
            !has_prefix_rule(old(self).peek_token.ttype) ==> r is None && final(self).errors@
                == old(self).errors@.push(final(self).errors@.last())
                && final(self).errors@.last()@ == no_prefix_message(old(self).peek_token.ttype),
        decreases old(self).budget(), 0nat,
    {
        proof {
            self.lemma_stream_heads();
        }
        let return_token: Token = self.current_token.clone();
        self.next_token();
        let value = match self.parse_expression(LOWEST) {
            Some(e) => e,
            None => return None,
        };
        proof {
            self.lemma_stream_heads();
        }
        if !self.expect_peek(TokenType::Semicolon) {
            return None;
        }
        Some(ReturnStatement { token: return_token, value })
    }

    /// Parses an expression whose operators all bind more tightly than
    /// `min_precedence`: a prefix rule for the current token, then, while the
    /// lookahead is an operator above the floor, one infix rule each.
    pub fn parse_expression(&mut self, min_precedence: u8) -> (r: Option<Expression>)
        requires
            old(self).wf(),
        ensures
            final(self).follows(*old(self), spec_expression(old(self).stream(), min_precedence), tree_of(r)),
            final(self).continues(*old(self)),
            r is None ==> final(self).errors@.len() > old(self).errors@.len(),
            r matches Some(e) ==> ranked(e) && binding(e) > min_precedence && precedence_of(
                final(self).peek_token.ttype,
            ) <= min_precedence,
            leaf_token(old(self).current_token.ttype, old(self).current_token.literal@)
                && precedence_of(old(self).peek_token.ttype) <= min_precedence ==> (r matches Some(e)
                && is_leaf_of(e, old(self).current_token.ttype, old(self).current_token.literal@))
                && *final(self) == *old(self),
            !has_prefix_rule(old(self).current_token.ttype) ==> r is None && final(self).errors@
                == old(self).errors@.push(final(self).errors@.last())
                && final(self).errors@.last()@ == no_prefix_message(
                old(self).current_token.ttype,
            ),
        decreases old(self).budget(), 2nat,
    {
        let mut left = match self.parse_prefix() {
            Some(e) => e,
            None => return None,
        };
        let ghost s0 = old(self).stream();
        while self.peek_token.ttype != TokenType::Semicolon && min_precedence < precedence(
            self.peek_token.ttype,
        )
            invariant
                self.continues(*old(self)),
                has_prefix_rule(old(self).current_token.ttype),
                leaf_token(old(self).current_token.ttype, old(self).current_token.literal@)
                    && precedence_of(old(self).peek_token.ttype) <= min_precedence ==> is_leaf_of(
                    left,
                    old(self).current_token.ttype,
                    old(self).current_token.literal@,
                ) && *self == *old(self),
                !(spec_expression(s0, min_precedence) is Open) ==> spec_expression(s0, min_precedence)
                    == spec_infix(model(left), self.stream(), min_precedence) && self.errors@
                    == old(self).errors@,
                s0 == old(self).stream(),
                ranked(left),
                binding(left) > min_precedence,
                binding(left) >= precedence_of(self.peek_token.ttype),
            decreases self.budget(),
        {
            let ghost ts = self.stream();
            proof {
                self.lemma_stream_heads();
            }
            self.next_token();
            let operator: Token = self.current_token.clone();
            if operator.ttype == TokenType::LParen {
                match self.parse_call_arguments() {
                    Some(arguments) => {
                        left = Expression::Call(
                            CallExpression { token: operator, function: Box::new(left), arguments },
                        );
                    },
                    None => return None,
                }
            } else {
                let p = precedence(operator.ttype);
                self.next_token();
                proof {
                    assert(self.stream() =~= ts.subrange(2, ts.len() as int));
                }
                match self.parse_expression(p) {
                    Some(right) => {
                        left = Expression::Infix(
                            InfixExpression {
                                token: operator,
                                left: Box::new(left),
                                right: Box::new(right),
                            },
                        );
                    },
                    None => return None,
                }
            }
        }
        Some(left)
    }

    /// The prefix rule of the current token.
    fn parse_prefix(&mut self) -> (r: Option<Expression>)
        requires
            old(self).wf(),
        ensures
            final(self).follows(*old(self), spec_prefix(old(self).stream()), tree_of(r)),
            final(self).continues(*old(self)),
            r is None ==> final(self).errors@.len() > old(self).errors@.len(),
            r matches Some(e) ==> ranked(e) && binding(e) == 256,
            leaf_token(old(self).current_token.ttype, old(self).current_token.literal@) ==> (r matches Some(
                e,
            ) && is_leaf_of(e, old(self).current_token.ttype, old(self).current_token.literal@))
                && *final(self) == *old(self),
            !has_prefix_rule(old(self).current_token.ttype) ==> r is None && final(self).errors@
                == old(self).errors@.push(final(self).errors@.last())
                && final(self).errors@.last()@ == no_prefix_message(
                old(self).current_token.ttype,
            ),
        decreases old(self).budget(), 1nat,
    {
        proof {
            self.lemma_stream_heads();
        }
        match self.current_token.ttype {
            TokenType::Ident => Some(Expression::Identifier(Identifier { token: self.current_token.clone() })),
            TokenType::Int => self.parse_integer_literal(),
            TokenType::True | TokenType::False => {
                let value = self.current_token.ttype == TokenType::True;
                Some(Expression::Boolean(BooleanLiteral { token: self.current_token.clone(), value }))
            },
            TokenType::Bang | TokenType::Minus => self.parse_prefix_expression(),
            TokenType::LParen => self.parse_grouped_expression(),
            TokenType::If => self.parse_if_expression(),
            TokenType::Function => self.parse_function_literal(),
            _ => {
                let mut message = "no prefix parse function for ".to_string();
                message.append(self.current_token.ttype.name().as_str());
                message.append(" found");
                self.record_error(message);
                None
            },
        }
    }

    fn parse_integer_literal(&mut self) -> (r: Option<Expression>)
        requires
            old(self).wf(),
            old(self).current_token.ttype == TokenType::Int,
        ensures
            final(self).follows(*old(self), spec_prefix(old(self).stream()), tree_of(r)),
            final(self).continues(*old(self)),
            final(self).lexer == old(self).lexer,
            r is None ==> final(self).errors@.len() > old(self).errors@.len(),
            r matches Some(e) ==> e is Integer && binding(e) == 256,
            old(self).current_token.ttype == TokenType::Int && leaf_token(
                TokenType::Int,
                old(self).current_token.literal@,
            ) ==> (r matches Some(e) && is_leaf_of(
                e,
                TokenType::Int,
                old(self).current_token.literal@,
            )) && *final(self) == *old(self),
    {
        proof {
            self.lemma_stream_heads();
        }
        let token: Token = self.current_token.clone();
        match parse_integer(&token.literal) {
            Some(value) => Some(Expression::Integer(IntegerLiteral { token, value })),
            None => {
                let mut message = "could not parse ".to_string();
                message.append(token.literal.as_str());
                message.append(" as integer");
                self.record_error(message);
                None
            },
        }
    }

    /// `-x` or `!x`, with the current token on the operator.
    fn parse_prefix_expression(&mut self) -> (r: Option<Expression>)
        requires
            old(self).wf(),
            old(self).current_token.ttype == TokenType::Bang || old(self).current_token.ttype
                == TokenType::Minus,
        ensures
            final(self).follows(*old(self), spec_prefix(old(self).stream()), tree_of(r)),
            final(self).continues(*old(self)),
            r is None ==> final(self).errors@.len() > old(self).errors@.len(),
            r matches Some(e) ==> e is Prefix && ranked(e),
        decreases old(self).budget(), 0nat,
    {
        proof {
            self.lemma_stream_heads();
        }
        let token: Token = self.current_token.clone();
        self.next_token();
        match self.parse_expression(PREFIX) {
            Some(right) => Some(Expression::Prefix(PrefixExpression { token, right: Box::new(right) })),
            None => None,
        }
    }

    /// `(` EXPR `)`, with the current token on `(`.
    fn parse_grouped_expression(&mut self) -> (r: Option<Expression>)
        requires
            old(self).wf(),
            old(self).current_token.ttype == TokenType::LParen,
        ensures
            final(self).follows(*old(self), spec_prefix(old(self).stream()), tree_of(r)),
            final(self).continues(*old(self)),
            r is None ==> final(self).errors@.len() > old(self).errors@.len(),
            r matches Some(e) ==> e is Grouped && ranked(e),
        decreases old(self).budget(), 0nat,
    {
        proof {
            self.lemma_stream_heads();
        }
        let token: Token = self.current_token.clone();
        self.next_token();
        let inner = match self.parse_expression(LOWEST) {
            Some(e) => e,
            None => return None,
        };
        proof {
            self.lemma_stream_heads();
        }
        if !self.expect_peek(TokenType::RParen) {
            return None;
        }
        Some(Expression::Grouped(GroupedExpression { token, inner: Box::new(inner) }))
    }

    /// `if (` EXPR `) {` .. `}`, optionally `else {` .. `}`.
    fn parse_if_expression(&mut self) -> (r: Option<Expression>)
        requires
            old(self).wf(),
        ensures
            final(self).continues(*old(self)),
            r is None ==> final(self).errors@.len() > old(self).errors@.len(),
            r matches Some(e) ==> e is If && ranked(e),
        decreases old(self).budget(), 0nat,
    {
        let token: Token = self.current_token.clone();
        if !self.expect_peek(TokenType::LParen) {
            return None;
        }
        self.next_token();
        let condition = match self.parse_expression(LOWEST) {
            Some(e) => e,
            None => return None,
        };
        if !self.expect_peek(TokenType::RParen) {
            return None;
        }
        if !self.expect_peek(TokenType::LBrace) {
            return None;
        }
        let consequence = self.parse_block_statement();
        let mut alternative: Option<BlockStatement> = None;
        if self.match_peek_token(TokenType::Else) {
            self.next_token();
            if !self.expect_peek(TokenType::LBrace) {
                return None;
            }
            alternative = Some(self.parse_block_statement());
        }
        Some(
            Expression::If(
                IfExpression { token, condition: Box::new(condition), consequence, alternative },
            ),
        )
    }

    /// `fn (` IDENT, .. `) {` .. `}`.
    fn parse_function_literal(&mut self) -> (r: Option<Expression>)
        requires
            old(self).wf(),
        ensures
            final(self).continues(*old(self)),
            r is None ==> final(self).errors@.len() > old(self).errors@.len(),
            r matches Some(e) ==> e is Function,
        decreases old(self).budget(), 0nat,
    {
        let token: Token = self.current_token.clone();
        if !self.expect_peek(TokenType::LParen) {
            return None;
        }
        let parameters = match self.parse_function_parameters() {
            Some(ps) => ps,
            None => return None,
        };
        if !self.expect_peek(TokenType::LBrace) {
            return None;
        }
        let body = self.parse_block_statement();
        Some(Expression::Function(FunctionLiteral { token, parameters, body }))
    }

    /// The parameter list after `(`, up to and including `)`.
    fn parse_function_parameters(&mut self) -> (r: Option<Vec<Identifier>>)
        requires
            old(self).wf(),
        ensures
            final(self).continues(*old(self)),
            r is None ==> final(self).errors@.len() > old(self).errors@.len(),
            r matches Some(ps) ==> forall|i: int|
                0 <= i < ps@.len() ==> (#[trigger] ps@[i]).token.ttype == TokenType::Ident,
    {
        let mut parameters: Vec<Identifier> = Vec::new();
        if self.match_peek_token(TokenType::RParen) {
            self.next_token();
            return Some(parameters);
        }
        if !self.expect_peek(TokenType::Ident) {
            return None;
        }
        parameters.push(Identifier { token: self.current_token.clone() });
        while self.match_peek_token(TokenType::Comma)
            invariant
                self.continues(*old(self)),
                forall|i: int|
                    0 <= i < parameters@.len() ==> (#[trigger] parameters@[i]).token.ttype
                        == TokenType::Ident,
            decreases self.budget(),
        {
            self.next_token();
            if !self.expect_peek(TokenType::Ident) {
                return None;
            }
            parameters.push(Identifier { token: self.current_token.clone() });
        }
        if !self.expect_peek(TokenType::RParen) {
            return None;
        }
        Some(parameters)
    }

    /// The argument list after `(`, up to and including `)`.
    fn parse_call_arguments(&mut self) -> (r: Option<Vec<Expression>>)
        requires
            old(self).wf(),
            old(self).current_token.ttype == TokenType::LParen,
        ensures
            final(self).continues(*old(self)),
            r is None ==> final(self).errors@.len() > old(self).errors@.len(),
        decreases old(self).budget(), 0nat,
    {
        let mut arguments: Vec<Expression> = Vec::new();
        if self.match_peek_token(TokenType::RParen) {
            self.next_token();
            return Some(arguments);
        }
        self.next_token();
        match self.parse_expression(LOWEST) {
            Some(e) => arguments.push(e),
            None => return None,
        }
        while self.match_peek_token(TokenType::Comma)
            invariant
                self.continues(*old(self)),
                self.budget() < old(self).budget(),
            decreases self.budget(),
        {
            self.next_token();
            self.next_token();
            match self.parse_expression(LOWEST) {
                Some(e) => arguments.push(e),
                None => return None,
            }
        }
        if !self.expect_peek(TokenType::RParen) {
            return None;
        }
        Some(arguments)
    }

    /// The statements after `{`, up to the matching `}` or the end of input.
    fn parse_block_statement(&mut self) -> (r: BlockStatement)
        requires
            old(self).wf(),
            old(self).current_token.ttype == TokenType::LBrace,
        ensures
            final(self).continues(*old(self)),
        decreases old(self).budget(), 0nat,
    {
        let token: Token = self.current_token.clone();
        let mut statements: Vec<Statement> = Vec::new();
        self.next_token();
        while self.current_token.ttype != TokenType::RBrace && self.current_token.ttype
            != TokenType::Eof
            invariant
                self.continues(*old(self)),
                self.budget() < old(self).budget(),
            decreases self.budget(),
        {
            match self.parse_statement() {
                Some(st) => statements.push(st),
                None => {},
            }
            self.next_token();
        }
        BlockStatement { token, statements }
    }
}

} // verus!

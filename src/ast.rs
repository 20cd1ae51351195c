use vstd::prelude::*;

use crate::token::Token;

verus! {

/// What every syntax node offers: the literal of its leading token.
pub trait Node {
    spec fn spec_token_literal(&self) -> Seq<char>;

    fn token_literal(&self) -> (r: String)
        ensures
            r@ == self.spec_token_literal(),
    ;
}

/// The root: top-level statements in source order.
pub struct Program {
    pub statements: Vec<Statement>,
}

impl Program {
    pub fn new() -> (r: Self)
        ensures
            r.statements@.len() == 0,
    {
        Self { statements: Vec::new() }
    }
}

impl Node for Program {
    open spec fn spec_token_literal(&self) -> Seq<char> {
        if self.statements@.len() > 0 {
            self.statements@[0].spec_token_literal()
        } else {
            Seq::empty()
        }
    }

    fn token_literal(&self) -> (r: String) {
        if self.statements.len() > 0 {
            self.statements[0].token_literal()
        } else {
            String::new()
        }
    }
}

pub enum Statement {
    Let(LetStatement),
    Return(ReturnStatement),
}

impl Node for Statement {
    open spec fn spec_token_literal(&self) -> Seq<char> {
        match self {
            Statement::Let(s) => s.token.literal@,
            Statement::Return(s) => s.token.literal@,
        }
    }

    fn token_literal(&self) -> (r: String) {
        match self {
            Statement::Let(s) => s.token.literal.clone(),
            Statement::Return(s) => s.token.literal.clone(),
        }
    }
}

/// `let <name> = <value>;`
pub struct LetStatement {
    pub token: Token,
    pub name: Identifier,
    pub value: Expression,
}

impl Node for LetStatement {
    open spec fn spec_token_literal(&self) -> Seq<char> {
        self.token.literal@
    }

    fn token_literal(&self) -> (r: String) {
        self.token.literal.clone()
    }
}

/// `return <value>;`
pub struct ReturnStatement {
    pub token: Token,
    pub value: Expression,
}

impl Node for ReturnStatement {
    open spec fn spec_token_literal(&self) -> Seq<char> {
        self.token.literal@
    }

    fn token_literal(&self) -> (r: String) {
        self.token.literal.clone()
    }
}

/// `{ <statements> }`
pub struct BlockStatement {
    pub token: Token,
    pub statements: Vec<Statement>,
}

pub enum Expression {
    Identifier(Identifier),
    Integer(IntegerLiteral),
    Boolean(BooleanLiteral),
    Prefix(PrefixExpression),
    Infix(InfixExpression),
    Grouped(GroupedExpression),
    If(IfExpression),
    Function(FunctionLiteral),
    Call(CallExpression),
}

impl Node for Expression {
    open spec fn spec_token_literal(&self) -> Seq<char> {
        match self {
            Expression::Identifier(e) => e.token.literal@,
            Expression::Integer(e) => e.token.literal@,
            Expression::Boolean(e) => e.token.literal@,
            Expression::Prefix(e) => e.token.literal@,
            Expression::Infix(e) => e.token.literal@,
            Expression::Grouped(e) => e.token.literal@,
            Expression::If(e) => e.token.literal@,
            Expression::Function(e) => e.token.literal@,
            Expression::Call(e) => e.token.literal@,
        }
    }

    fn token_literal(&self) -> (r: String) {
        match self {
            Expression::Identifier(e) => e.token.literal.clone(),
            Expression::Integer(e) => e.token.literal.clone(),
            Expression::Boolean(e) => e.token.literal.clone(),
            Expression::Prefix(e) => e.token.literal.clone(),
            Expression::Infix(e) => e.token.literal.clone(),
            Expression::Grouped(e) => e.token.literal.clone(),
            Expression::If(e) => e.token.literal.clone(),
            Expression::Function(e) => e.token.literal.clone(),
            Expression::Call(e) => e.token.literal.clone(),
        }
    }
}

/// A name reference.
pub struct Identifier {
    pub token: Token,
}

impl Node for Identifier {
    open spec fn spec_token_literal(&self) -> Seq<char> {
        self.token.literal@
    }

    fn token_literal(&self) -> (r: String) {
        self.token.literal.clone()
    }
}

pub struct IntegerLiteral {
    pub token: Token,
    pub value: u64,
}

pub struct BooleanLiteral {
    pub token: Token,
    pub value: bool,
}

/// `-right` or `!right`; `token` is the operator.
pub struct PrefixExpression {
    pub token: Token,
    pub right: Box<Expression>,
}

/// `left <op> right`; `token` is the operator.
pub struct InfixExpression {
    pub token: Token,
    pub left: Box<Expression>,
    pub right: Box<Expression>,
}

/// `(inner)`; `token` is the `(`.
pub struct GroupedExpression {
    pub token: Token,
    pub inner: Box<Expression>,
}

/// `if (<condition>) { .. } else { .. }`
pub struct IfExpression {
    pub token: Token,
    pub condition: Box<Expression>,
    pub consequence: BlockStatement,
    pub alternative: Option<BlockStatement>,
}

/// `fn(<parameters>) { .. }`
pub struct FunctionLiteral {
    pub token: Token,
    pub parameters: Vec<Identifier>,
    pub body: BlockStatement,
}

/// `<function>(<arguments>)`; `token` is the `(`.
pub struct CallExpression {
    pub token: Token,
    pub function: Box<Expression>,
    pub arguments: Vec<Expression>,
}

} // verus!

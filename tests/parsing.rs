use wmlang::ast::BlockStatement;
use wmlang::ast::Expression;
use wmlang::ast::Node;
use wmlang::ast::Program;
use wmlang::ast::Statement;
use wmlang::lexer::Lexer;
use wmlang::parser::parse_integer;
use wmlang::parser::precedence;
use wmlang::parser::Parser;
use wmlang::parser::CALL;
use wmlang::parser::LOWEST;
use wmlang::parser::PRODUCT;
use wmlang::parser::SUM;
use wmlang::token::TokenType;

fn parse(source: &str) -> (Program, Vec<String>) {
    let mut parser = Parser::new(Lexer::new(String::from(source)));
    let program = parser.parse_program();
    assert_eq!(parser.current_token.ttype, TokenType::Eof);
    let errors = parser.errors().clone();
    (program, errors)
}

fn render_block(b: &BlockStatement) -> String {
    let parts: Vec<String> = b.statements.iter().map(render_statement).collect();
    format!("{{ {} }}", parts.join(" "))
}

fn render_statement(s: &Statement) -> String {
    match s {
        Statement::Let(l) => format!("let {} = {};", l.name.token.literal, render(&l.value)),
        Statement::Return(r) => format!("return {};", render(&r.value)),
    }
}

fn render(e: &Expression) -> String {
    match e {
        Expression::Identifier(x) => x.token.literal.clone(),
        Expression::Integer(x) => x.value.to_string(),
        Expression::Boolean(x) => x.value.to_string(),
        Expression::Prefix(x) => format!("({}{})", x.token.literal, render(&x.right)),
        Expression::Infix(x) => format!("({} {} {})", render(&x.left), x.token.literal, render(&x.right)),
        Expression::Grouped(x) => format!("[{}]", render(&x.inner)),
        Expression::If(x) => {
            let mut s = format!("if {} {}", render(&x.condition), render_block(&x.consequence));
            if let Some(alt) = &x.alternative {
                s.push_str(&format!(" else {}", render_block(alt)));
            }
            s
        }
        Expression::Function(x) => {
            let ps: Vec<String> = x.parameters.iter().map(|p| p.token.literal.clone()).collect();
            format!("fn({}) {}", ps.join(", "), render_block(&x.body))
        }
        Expression::Call(x) => {
            let args: Vec<String> = x.arguments.iter().map(render).collect();
            format!("{}({})", render(&x.function), args.join(", "))
        }
    }
}

fn let_value(source: &str) -> String {
    let (program, errors) = parse(source);
    assert_eq!(errors, Vec::<String>::new());
    assert_eq!(program.statements.len(), 1);
    render_statement(&program.statements[0])
}

#[test]
fn let_statement_round_trip() {
    let (program, errors) = parse("let x = 5;");
    assert!(errors.is_empty());
    assert_eq!(program.statements.len(), 1);
    match &program.statements[0] {
        Statement::Let(l) => {
            assert_eq!(l.name.token.literal, "x");
            assert_eq!(l.name.token_literal(), "x");
            assert_eq!(l.token_literal(), "let");
            match &l.value {
                Expression::Integer(i) => assert_eq!(i.value, 5),
                _ => panic!("value is not an integer"),
            }
        }
        _ => panic!("not a let statement"),
    }
    assert_eq!(program.token_literal(), "let");
}

#[test]
fn let_missing_assign() {
    let (program, errors) = parse("let x 5;");
    assert_eq!(program.statements.len(), 0);
    assert_eq!(errors, vec!["expected next token to be Assign, got Int instead".to_string()]);
}

#[test]
fn let_missing_name() {
    let (program, errors) = parse("let = 5;");
    assert_eq!(program.statements.len(), 0);
    assert_eq!(errors[0], "expected next token to be Ident, got Assign instead");
}

#[test]
fn return_without_expression() {
    let (program, errors) = parse("return ;");
    assert_eq!(program.statements.len(), 0);
    assert_eq!(errors, vec!["no prefix parse function for Semicolon found".to_string()]);
}

#[test]
fn return_at_end_of_input() {
    let (program, errors) = parse("return");
    assert_eq!(program.statements.len(), 0);
    assert_eq!(errors, vec!["no prefix parse function for Eof found".to_string()]);
}

#[test]
fn return_statement() {
    let (program, errors) = parse("return foo;");
    assert!(errors.is_empty());
    assert_eq!(render_statement(&program.statements[0]), "return foo;");
    assert_eq!(program.statements[0].token_literal(), "return");
}

#[test]
fn product_binds_tighter_than_sum() {
    assert_eq!(let_value("let r = a + b * c;"), "let r = (a + (b * c));");
    assert_eq!(let_value("let r = a * b + c;"), "let r = ((a * b) + c);");
}

#[test]
fn prefix_binds_tighter_than_product() {
    assert_eq!(let_value("let r = -a * b;"), "let r = ((-a) * b);");
    assert_eq!(let_value("let r = !-a;"), "let r = (!(-a));");
}

#[test]
fn operators_are_left_associative() {
    assert_eq!(let_value("let r = a - b - c;"), "let r = ((a - b) - c);");
    assert_eq!(let_value("let r = a / b * c;"), "let r = ((a / b) * c);");
}

#[test]
fn full_precedence_ladder() {
    assert_eq!(
        let_value("let r = 1 + 2 * 3 < 4 == !true != false;"),
        "let r = ((((1 + (2 * 3)) < 4) == (!true)) != false);"
    );
}

#[test]
fn grouping_overrides_precedence() {
    assert_eq!(let_value("let r = (a + b) * c;"), "let r = ([(a + b)] * c);");
}

#[test]
fn call_expressions() {
    assert_eq!(let_value("let r = add(1, 2 * 3, f(x));"), "let r = add(1, (2 * 3), f(x));");
    assert_eq!(let_value("let r = a + g() * b;"), "let r = (a + (g() * b));");
}

#[test]
fn if_expression() {
    assert_eq!(
        let_value("let m = if (x < y) { return x; } else { return y; };"),
        "let m = if (x < y) { return x; } else { return y; };"
    );
}

#[test]
fn function_literal() {
    assert_eq!(
        let_value("let add = fn(x, y) { return x + y; };"),
        "let add = fn(x, y) { return (x + y); };"
    );
    assert_eq!(let_value("let k = fn() { };"), "let k = fn() {  };");
}

#[test]
fn function_parameters_must_be_names() {
    let (_, errors) = parse("let f = fn(1) { };");
    assert_eq!(errors[0], "expected next token to be Ident, got Int instead");
}

#[test]
fn unrecognized_statements_are_skipped() {
    let (program, errors) = parse("x + 1; let y = true;");
    assert!(errors.is_empty());
    assert_eq!(program.statements.len(), 1);
    assert_eq!(render_statement(&program.statements[0]), "let y = true;");
}

#[test]
fn parsing_resumes_after_error() {
    let (program, errors) = parse("let 5; let a = b; return c;");
    assert_eq!(errors.len(), 1);
    assert_eq!(program.statements.len(), 2);
}

#[test]
fn empty_program() {
    let (program, errors) = parse("");
    assert!(errors.is_empty());
    assert_eq!(program.statements.len(), 0);
    assert_eq!(program.token_literal(), "");
    assert_eq!(Program::new().statements.len(), 0);
}

#[test]
fn integer_overflow_is_reported() {
    let (program, errors) = parse("let x = 18446744073709551616;");
    assert_eq!(program.statements.len(), 0);
    assert_eq!(errors, vec!["could not parse 18446744073709551616 as integer".to_string()]);
    assert_eq!(let_value("let x = 18446744073709551615;"), "let x = 18446744073709551615;");
}

#[test]
fn parse_integer_values() {
    assert_eq!(parse_integer(&"007".to_string()), Some(7));
    assert_eq!(parse_integer(&"12345".to_string()), Some(12345));
    assert_eq!(parse_integer(&"".to_string()), None);
    assert_eq!(parse_integer(&"12a".to_string()), None);
    assert_eq!(parse_integer(&"18446744073709551616".to_string()), None);
}

#[test]
fn precedence_table() {
    assert_eq!(precedence(TokenType::Plus), SUM);
    assert_eq!(precedence(TokenType::Slash), PRODUCT);
    assert_eq!(precedence(TokenType::LParen), CALL);
    assert_eq!(precedence(TokenType::Semicolon), LOWEST);
    assert!(precedence(TokenType::Equal) < precedence(TokenType::LThan));
}

#[test]
fn expect_peek_and_lookahead() {
    let mut parser = Parser::new(Lexer::new(String::from("let x")));
    assert!(parser.match_current_token(TokenType::Let));
    assert!(parser.match_peek_token(TokenType::Ident));
    assert!(!parser.expect_peek(TokenType::Assign));
    assert_eq!(parser.errors().len(), 1);
    assert!(parser.expect_peek(TokenType::Ident));
    assert_eq!(parser.current_token.literal, "x");
    parser.next_token();
    assert_eq!(parser.current_token.ttype, TokenType::Eof);
    parser.peek_error(TokenType::Semicolon);
    assert_eq!(parser.errors()[1], "expected next token to be Semicolon, got Eof instead");
}

#[test]
fn statement_and_expression_entry_points() {
    let mut parser = Parser::new(Lexer::new(String::from("a * b + c")));
    match parser.parse_expression(SUM) {
        Some(e) => assert_eq!(render(&e), "(a * b)"),
        None => panic!("no expression"),
    }
    assert_eq!(parser.peek_token.ttype, TokenType::Plus);

    let mut parser = Parser::new(Lexer::new(String::from("let q = 1;")));
    let st = parser.parse_let_stmt().expect("let statement");
    assert_eq!(st.name.token.literal, "q");

    let mut parser = Parser::new(Lexer::new(String::from("return 2;")));
    let st = parser.parse_return_stmt().expect("return statement");
    assert_eq!(render(&st.value), "2");

    let mut parser = Parser::new(Lexer::new(String::from("if")));
    assert!(parser.parse_statement().is_none());
    assert!(parser.errors().is_empty());
}

#[test]
fn recovery_after_failed_let() {
    let (program, errors) = parse("let x 5; let y = z;");
    assert_eq!(program.statements.len(), 1);
    assert_eq!(render_statement(&program.statements[0]), "let y = z;");
    assert_eq!(errors, vec!["expected next token to be Assign, got Int instead".to_string()]);
}

#[test]
fn return_missing_semicolon() {
    let mut parser = Parser::new(Lexer::new(String::from("return x y")));
    assert!(parser.parse_return_stmt().is_none());
    assert_eq!(parser.errors().clone(), vec!["expected next token to be Semicolon, got Ident instead".to_string()]);
}

#[test]
fn let_statement_ends_on_semicolon() {
    let mut parser = Parser::new(Lexer::new(String::from("let x = y;")));
    let st = parser.parse_let_stmt().expect("let statement");
    assert_eq!(st.token.literal, "let");
    assert_eq!(parser.current_token.ttype, TokenType::Semicolon);
    assert!(parser.errors().is_empty());
}

#[test]
fn expression_leaves_semicolon_to_caller() {
    let mut parser = Parser::new(Lexer::new(String::from("a + b;")));
    let e = parser.parse_expression(LOWEST).expect("expression");
    assert_eq!(render(&e), "(a + b)");
    assert_eq!(parser.current_token.literal, "b");
    assert_eq!(parser.peek_token.ttype, TokenType::Semicolon);
    assert!(parser.errors().is_empty());
}

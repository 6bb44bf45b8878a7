use lua::{Expr, Lexer, Parser, ParserErrors, Statement, TableField, TokenStream};

fn parse(src: &str) -> Result<Vec<Statement>, ParserErrors> {
    let mut p = Parser::new(Lexer::new(src));
    p.parse_program().map(|prog| prog.stmts)
}

fn num(s: &str) -> Expr {
    Expr::Number(s.to_string())
}

fn ident(s: &str) -> Expr {
    Expr::Identifier(s.to_string())
}

fn bin(l: Expr, op: TokenStream, r: Expr) -> Expr {
    Expr::BinaryOp { left: Box::new(l), operator: op, right: Box::new(r) }
}

#[test]
fn parses_a_local_declaration() {
    assert_eq!(parse("local x = 1"), Ok(vec![Statement::LocalVar("x".to_string(), num("1"))]));
}

#[test]
fn multiplication_binds_tighter_than_addition() {
    assert_eq!(
        parse("x = 1 + 2 * 3"),
        Ok(vec![Statement::Assign(
            ident("x"),
            bin(num("1"), TokenStream::Plus, bin(num("2"), TokenStream::Asterisk, num("3")))
        )])
    );
}

#[test]
fn subtraction_is_left_associative() {
    assert_eq!(
        parse("x = 1 - 2 - 3"),
        Ok(vec![Statement::Assign(
            ident("x"),
            bin(bin(num("1"), TokenStream::Minus, num("2")), TokenStream::Minus, num("3"))
        )])
    );
}

#[test]
fn power_and_concatenation_are_right_associative() {
    assert_eq!(
        parse("x = 2 ^ 3 ^ 4"),
        Ok(vec![Statement::Assign(
            ident("x"),
            bin(num("2"), TokenStream::Caret, bin(num("3"), TokenStream::Caret, num("4")))
        )])
    );
    assert_eq!(
        parse("x = a .. b .. c"),
        Ok(vec![Statement::Assign(
            ident("x"),
            bin(ident("a"), TokenStream::DotDot, bin(ident("b"), TokenStream::DotDot, ident("c")))
        )])
    );
}

#[test]
fn parses_a_call_statement() {
    assert_eq!(
        parse("print(1, \"a\")"),
        Ok(vec![Statement::Expression(Expr::Call {
            target: Box::new(ident("print")),
            args: vec![num("1"), Expr::String("a".to_string())],
        })])
    );
}

#[test]
fn parses_a_function_definition() {
    assert_eq!(
        parse("function add(a, b) return a + b end"),
        Ok(vec![Statement::FunctionDef {
            name: "add".to_string(),
            params: vec!["a".to_string(), "b".to_string()],
            body: vec![Statement::Return(Some(bin(ident("a"), TokenStream::Plus, ident("b"))))],
        }])
    );
}

#[test]
fn a_method_definition_assigns_a_function_with_self() {
    assert_eq!(
        parse("function obj:get() return 1 end"),
        Ok(vec![Statement::Assign(
            Expr::Index {
                target: Box::new(ident("obj")),
                key: Box::new(Expr::String("get".to_string())),
            },
            Expr::Function {
                params: vec!["self".to_string()],
                body: vec![Statement::Return(Some(num("1")))],
            }
        )])
    );
}

#[test]
fn elseif_branches_nest_in_the_else_block() {
    assert_eq!(
        parse("if a then x = 1 elseif b then x = 2 else x = 3 end"),
        Ok(vec![Statement::If {
            condition: ident("a"),
            then_block: vec![Statement::Assign(ident("x"), num("1"))],
            else_block: vec![Statement::If {
                condition: ident("b"),
                then_block: vec![Statement::Assign(ident("x"), num("2"))],
                else_block: vec![Statement::Assign(ident("x"), num("3"))],
            }],
        }])
    );
}

#[test]
fn parses_a_while_loop_with_break() {
    assert_eq!(
        parse("while true do break end"),
        Ok(vec![Statement::While(Expr::Bool(true), vec![Statement::Break])])
    );
}

#[test]
fn a_bare_return_has_no_value() {
    assert_eq!(parse("return"), Ok(vec![Statement::Return(None)]));
}

#[test]
fn parses_a_table_constructor() {
    assert_eq!(
        parse("t = { 1, x = 2, [3] = 4 }"),
        Ok(vec![Statement::Assign(
            ident("t"),
            Expr::TableConstructor(vec![
                TableField::List(num("1")),
                TableField::Named { key: "x".to_string(), value: num("2") },
                TableField::Dynamic { key: num("3"), value: num("4") },
            ])
        )])
    );
}

#[test]
fn a_missing_end_is_an_error() {
    assert!(parse("while true do x = 1").is_err());
}

#[test]
fn a_missing_then_is_an_error() {
    assert_eq!(parse("if a x = 1 end"), Err(ParserErrors::UnexpectedToken(TokenStream::Identifier("x".to_string()))));
}

#[test]
fn parse_expression_stops_at_a_lower_precedence() {
    let mut p = Parser::new(Lexer::new("1 * 2 + 3"));
    assert_eq!(p.parse_expression(5), Ok(bin(num("1"), TokenStream::Asterisk, num("2"))));
}

#[test]
fn no_token_sequence_gives_todo() {
    let samples: Vec<Vec<TokenStream>> = vec![
        vec![],
        vec![TokenStream::End],
        vec![TokenStream::If, TokenStream::Then, TokenStream::End],
        vec![TokenStream::While, TokenStream::Do],
        vec![TokenStream::Function, TokenStream::LParen],
        vec![TokenStream::Local, TokenStream::Local],
        vec![TokenStream::LBrace, TokenStream::Comma, TokenStream::RBrace, TokenStream::EOF],
        vec![TokenStream::Identifier("a".to_string()), TokenStream::Colon],
        vec![TokenStream::Return, TokenStream::Return],
        vec![TokenStream::Minus, TokenStream::Minus, TokenStream::EOF],
    ];
    for tokens in samples {
        let mut p = Parser::from_tokens(tokens);
        assert_ne!(p.parse_program().err(), Some(ParserErrors::Todo));
    }
}

#[test]
fn running_out_of_tokens_is_current_null() {
    let mut p = Parser::from_tokens(vec![TokenStream::Local]);
    assert_eq!(p.parse_program(), Err(ParserErrors::CurrentNull));
}

#[test]
fn a_local_without_a_name_is_expected_identifier() {
    assert_eq!(parse("local 1 = 2"), Err(ParserErrors::ExpectedIdentifier));
    assert_eq!(parse("function (a) end"), Err(ParserErrors::ExpectedIdentifier));
}

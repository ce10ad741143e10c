use amyst::ast::{format_ast, AmystType, ExprKind, Literal, Stmt, AST};
use amyst::lexer::{Scanner, TokenType};
use amyst::parser::Parser;
use amyst::{compile, compile_expression, AmystError};

fn format_source(source: &str) -> String {
    let mut ast = AST::new();
    let tokens = Scanner::new(source).scan_tokens().expect("scans");
    let mut parser = Parser::new(tokens);
    let id = parser.expression(&mut ast).expect("parses");
    format_ast(&ast, id)
}

fn messages_of(result: Result<(AST<'_>, Vec<usize>), AmystError>) -> Vec<String> {
    match result {
        Err(AmystError::Multiple(errors)) => errors
            .iter()
            .map(|e| match e {
                AmystError::Runtime { message } => message.clone(),
                other => panic!("not a runtime error: {:?}", other),
            })
            .collect(),
        Err(other) => panic!("not a list of errors: {:?}", other),
        Ok(_) => panic!("parsed"),
    }
}

#[test]
fn parser_parsing_test() -> Result<(), AmystError> {
    let mut ast = AST::new();
    let scanner = Scanner::new("1 + 2 * 3");
    let tokens = scanner.scan_tokens()?;
    let mut parser = Parser::new(tokens);
    let id = parser.expression(&mut ast)?;
    assert_eq!(format_ast(&ast, id), "(+ 1 (* 2 3))");
    Ok(())
}

#[test]
fn unary_and_grouping_are_printed() {
    assert_eq!(format_source("-(1 + 2) * 3"), "(* (-(group ((+ 1 2)))) 3)");
    assert_eq!(format_source("!true"), "(!true)");
}

#[test]
fn comparison_binds_tighter_than_equality() {
    assert_eq!(format_source("1 < 2 == true"), "(== (< 1 2) true)");
    assert_eq!(format_source("8 - 4 - 2"), "(- (- 8 4) 2)");
}

#[test]
fn numbers_print_in_shortest_form() {
    assert_eq!(format_source("007.50 + 3.0"), "(+ 7.5 3)");
    assert_eq!(format_source("0.0"), "0");
    assert_eq!(format_source("00"), "0");
    assert_eq!(format_source("10.25"), "10.25");
    assert_eq!(format_source("100"), "100");
}

#[test]
fn literals_and_names_are_printed() {
    assert_eq!(format_source("x + \"hi\""), "(+ x hi)");
    assert_eq!(format_source("false"), "false");
}

#[test]
fn ranges_print_their_end_indices_and_assignments_nothing() {
    assert_eq!(format_source("1..=5"), "0..=1");
    assert_eq!(format_source("1..5"), "0..1");
    assert_eq!(format_source("x = 1"), "");
}

#[test]
fn program_statements_come_in_order() {
    let (ast, ids) = compile("let x = 1;\nprint x;").expect("compiles");
    assert_eq!(ids, vec![0, 1]);
    match ast.get_stmt(ids[0]) {
        Stmt::Var { name, initializer } => {
            assert_eq!(name.lexeme, "x");
            let init = initializer.expect("has a value");
            assert_eq!(*ast.get_node(init), ExprKind::Literal(Literal::Number("1")));
        }
        other => panic!("not a declaration: {:?}", other),
    }
    match ast.get_stmt(ids[1]) {
        Stmt::Print(e) => match ast.get_node(*e) {
            ExprKind::Variable(tok) => {
                assert_eq!(tok.lexeme, "x");
                assert_eq!(tok.line, 2);
            }
            other => panic!("not a variable: {:?}", other),
        },
        other => panic!("not a print: {:?}", other),
    }
}

#[test]
fn a_failed_declaration_is_skipped_and_reported() {
    let messages = messages_of(compile("print ;\nlet = 2;\nprint 3;"));
    assert_eq!(messages, vec!["[line 1] Error  at ';': Expect expression.".to_string()]);
}

#[test]
fn every_failed_declaration_is_reported() {
    let messages = messages_of(compile("let = 1;\nprint 2;\nlet y 3;\nprint 1"));
    assert_eq!(
        messages,
        vec![
            "[line 1] Error  at '=': Expect variable name.".to_string(),
            "[line 3] Error  at '3': Expect ';' after variable declaration.".to_string(),
            "[line 4] Error  at '': Expect ';' after value.".to_string(),
        ]
    );
}

#[test]
fn assignment_needs_a_variable() {
    let messages = messages_of(compile("1 = 2;"));
    assert_eq!(messages, vec!["Invalid assignment target.".to_string()]);
}

#[test]
fn functions_keep_their_parameters_and_types() {
    let (ast, ids) = compile("fn add(a: int, mut b) -> string { a + b }").expect("compiles");
    assert_eq!(ids.len(), 1);
    match ast.get_stmt(ids[0]) {
        Stmt::Function { name, params, body, return_type } => {
            assert_eq!(name.lexeme, "add");
            assert_eq!(params.len(), 2);
            assert_eq!(params[0].name.lexeme, "a");
            assert!(!params[0].is_mut);
            assert_eq!(params[0].type_annotation, Some(AmystType::Int));
            assert_eq!(params[1].name.lexeme, "b");
            assert!(params[1].is_mut);
            assert_eq!(params[1].type_annotation, None);
            assert_eq!(*return_type, Some(AmystType::String));
            match ast.get_node(*body) {
                ExprKind::Block { stmts, expr } => {
                    assert!(stmts.is_empty());
                    assert!(expr.is_some());
                }
                other => panic!("not a block: {:?}", other),
            }
        }
        other => panic!("not a function: {:?}", other),
    }
}

#[test]
fn loops_hold_their_bodies_as_statements() {
    let (ast, ids) = compile("for i in 0..3 print i;\nwhile x < 3 x = x + 1;").expect("compiles");
    assert_eq!(ids.len(), 2);
    match ast.get_stmt(ids[0]) {
        Stmt::For { variable, iterable, body } => {
            assert_eq!(variable.lexeme, "i");
            assert!(matches!(ast.get_node(*iterable), ExprKind::Range { inclusive: false, .. }));
            assert!(matches!(ast.get_stmt(*body), Stmt::Print(_)));
            assert!(*body < ids[0]);
        }
        other => panic!("not a for loop: {:?}", other),
    }
    match ast.get_stmt(ids[1]) {
        Stmt::While { body, .. } => assert!(matches!(ast.get_stmt(*body), Stmt::Expression(_))),
        other => panic!("not a while loop: {:?}", other),
    }
}

#[test]
fn return_without_value_returns_unit() {
    let (ast, ids) = compile("return;").expect("compiles");
    match ast.get_stmt(ids[0]) {
        Stmt::Return { keyword, value } => {
            assert_eq!(keyword.token_type, TokenType::Return);
            assert_eq!(*ast.get_node(*value), ExprKind::Literal(Literal::Unit));
        }
        other => panic!("not a return: {:?}", other),
    }
}

#[test]
fn if_expressions_take_a_block_or_else_if() {
    let (ast, id) = compile_expression("if a { 1 } else { 3 }").expect("compiles");
    match ast.get_node(id) {
        ExprKind::If { else_branch: Some(e), .. } => {
            assert!(matches!(ast.get_node(*e), ExprKind::Block { .. }));
        }
        other => panic!("not an if: {:?}", other),
    }
    // After `else if` the keyword is skipped and the next primary read,
    // which here is the name `b`.
    let (ast, id) = compile_expression("if a { 1 } else if b { 2 } else { 3 }").expect("compiles");
    match ast.get_node(id) {
        ExprKind::If { else_branch: Some(e), .. } => match ast.get_node(*e) {
            ExprKind::Variable(tok) => assert_eq!(tok.lexeme, "b"),
            other => panic!("not a name: {:?}", other),
        },
        other => panic!("not an if: {:?}", other),
    }
    let (ast, id) = compile_expression("if a { 1 }").expect("compiles");
    assert!(matches!(ast.get_node(id), ExprKind::If { else_branch: None, .. }));
}

#[test]
fn blocks_end_with_their_value() {
    let (ast, id) = compile_expression("{ let y = 2; y }").expect("compiles");
    match ast.get_node(id) {
        ExprKind::Block { stmts, expr: Some(e) } => {
            assert_eq!(stmts.len(), 1);
            assert!(matches!(ast.get_node(*e), ExprKind::Variable(_)));
        }
        other => panic!("not a block: {:?}", other),
    }
    let messages = match compile_expression("{ 1 2 }") {
        Err(AmystError::Runtime { message }) => message,
        other => panic!("parsed: {:?}", other.map(|r| r.1)),
    };
    assert_eq!(messages, "[line 1] Error  at '2': Expect ';' after expression.");
}

#[test]
fn calls_collect_their_arguments() {
    let (ast, id) = compile_expression("f(1, g())(2)").expect("compiles");
    match ast.get_node(id) {
        ExprKind::Call { callee, paren, arguments } => {
            assert_eq!(paren.token_type, TokenType::RightParen);
            assert_eq!(arguments.len(), 1);
            match ast.get_node(*callee) {
                ExprKind::Call { arguments, .. } => assert_eq!(arguments.len(), 2),
                other => panic!("not a call: {:?}", other),
            }
        }
        other => panic!("not a call: {:?}", other),
    }
}

#[test]
fn scanning_errors_come_before_parsing() {
    assert!(matches!(compile("print 1 # 2;"), Err(AmystError::UnexpectedCharacter(1))));
    assert!(matches!(compile_expression("\"open"), Err(AmystError::UnterminatedString)));
}

fn children(e: &ExprKind) -> Vec<usize> {
    match e {
        ExprKind::Binary { left, right, .. } | ExprKind::Logical { left, right, .. } => vec![*left, *right],
        ExprKind::Call { callee, arguments, .. } => {
            let mut v = vec![*callee];
            v.extend(arguments.iter().copied());
            v
        }
        ExprKind::Range { start, end, .. } => vec![*start, *end],
        ExprKind::Assign { value, .. } => vec![*value],
        ExprKind::Unary { right, .. } => vec![*right],
        ExprKind::Grouping(c) => vec![*c],
        ExprKind::Literal(_) | ExprKind::Variable(_) => vec![],
        ExprKind::Block { expr, .. } => expr.iter().copied().collect(),
        ExprKind::If { condition, then_branch, else_branch } => {
            let mut v = vec![*condition, *then_branch];
            v.extend(else_branch.iter().copied());
            v
        }
    }
}

#[test]
fn operands_come_before_their_expression() {
    let source = "fn f(n) { if n < 2 { n } else { f(n - 1) + f(n - 2) } }\nlet x = -(1 + 2) * 3;\nfor i in 0..=x print f(i) or false;";
    let (ast, ids) = compile(source).expect("compiles");
    assert_eq!(ids.len(), 3);
    for i in 0..ast.node_count() {
        for c in children(ast.get_node(i)) {
            assert!(c < i, "node {} refers to {}", i, c);
        }
    }
}

#[test]
fn assignment_groups_to_the_right() {
    let (ast, id) = compile_expression("x = y = 3").expect("compiles");
    assert_eq!(id, 4);
    match ast.get_node(id) {
        ExprKind::Assign { name, value } => {
            assert_eq!(name.lexeme, "x");
            assert_eq!(*value, 3);
            match ast.get_node(*value) {
                ExprKind::Assign { name, value } => {
                    assert_eq!(name.lexeme, "y");
                    assert_eq!(*ast.get_node(*value), ExprKind::Literal(Literal::Number("3")));
                }
                other => panic!("not an assignment: {:?}", other),
            }
        }
        other => panic!("not an assignment: {:?}", other),
    }
}

#[test]
fn operators_of_one_level_group_to_the_left() {
    assert_eq!(format_source("8 / 4 * 2"), "(* (/ 8 4) 2)");
    assert_eq!(format_source("1 < 2 < 3"), "(< (< 1 2) 3)");
    assert_eq!(format_source("a == b != c"), "(!= (== a b) c)");
    assert_eq!(format_source("1 * 2 + 3"), "(+ (* 1 2) 3)");
}

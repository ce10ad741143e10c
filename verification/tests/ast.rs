use amyst::ast::{format_ast, ExprKind, Literal, Stmt, AST};
use amyst::lexer::{Token, TokenType};

#[test]
fn added_nodes_read_back_at_their_index() {
    let mut ast = AST::new();
    let a = ast.add_node(ExprKind::Literal(Literal::Number("32")));
    let b = ast.add_node(ExprKind::Grouping(a));
    assert_eq!((a, b), (0, 1));
    assert_eq!(*ast.get_node(a), ExprKind::Literal(Literal::Number("32")));
    assert_eq!(*ast.get_node(b), ExprKind::Grouping(0));
    assert_eq!(ast.node_count(), 2);
    let s = ast.add_stmt(Stmt::Print(b));
    assert_eq!(s, 0);
    assert!(matches!(ast.get_stmt(s), Stmt::Print(1)));
    assert_eq!(*ast.get_node(a), ExprKind::Literal(Literal::Number("32")));
}

#[test]
fn hand_built_trees_are_printed() {
    let mut ast = AST::new();
    let n = ast.add_node(ExprKind::Literal(Literal::Number("32.000")));
    let g = ast.add_node(ExprKind::Grouping(n));
    let minus = Token { token_type: TokenType::Minus, lexeme: "-", line: 1 };
    let u = ast.add_node(ExprKind::Unary { operator: minus, right: g });
    assert_eq!(format_ast(&ast, u), "(-(group (32)))");
    let t = ast.add_node(ExprKind::Literal(Literal::Boolean(true)));
    let unit = ast.add_node(ExprKind::Literal(Literal::Unit));
    let star = Token { token_type: TokenType::Star, lexeme: "*", line: 1 };
    let b = ast.add_node(ExprKind::Binary { left: t, operator: star, right: unit });
    assert_eq!(format_ast(&ast, b), "(* true ())");
    let r = ast.add_node(ExprKind::Range { start: 12, end: 345, inclusive: true });
    assert_eq!(format_ast(&ast, r), "12..=345");
    let s = ast.add_node(ExprKind::Literal(Literal::String("Hola Mundo!")));
    assert_eq!(format_ast(&ast, s), "Hola Mundo!");
}

#[test]
fn a_child_added_after_its_parent_is_printed() {
    let mut ast = AST::new();
    let g = ast.add_node(ExprKind::Grouping(1));
    let n = ast.add_node(ExprKind::Literal(Literal::Number("1")));
    assert_eq!((g, n), (0, 1));
    assert_eq!(format_ast(&ast, g), "(group (1))");
    let plus = Token { token_type: TokenType::Plus, lexeme: "+", line: 1 };
    let b = ast.add_node(ExprKind::Binary { left: 3, operator: plus, right: 0 });
    let x = ast.add_node(ExprKind::Variable(Token { token_type: TokenType::Identifier("x"), lexeme: "x", line: 1 }));
    assert_eq!(x, 3);
    assert_eq!(format_ast(&ast, b), "(+ x (group (1)))");
}

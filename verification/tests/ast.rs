use frontend_core::ast::{Ast, BinaryOp, Expr, ExprKind, Literal, Pattern, Stmt, StmtKind, VarInit};
use frontend_core::common::{Span, Symbol};

#[test]
fn test_nodes_connect_through_handles() {
    let mut ast = Ast::new(8);

    let lhs = ast.exprs.allocate(Expr {
        kind: ExprKind::Literal(Literal::Int(1)),
        span: Span::new(0, 1),
        ty: None,
    });
    let rhs = ast.exprs.allocate(Expr {
        kind: ExprKind::Identifier(Symbol(0)),
        span: Span::new(4, 5),
        ty: None,
    });
    let sum = ast.exprs.allocate(Expr {
        kind: ExprKind::Binary { lhs, op: BinaryOp::Add, rhs },
        span: Span::new(0, 5),
        ty: None,
    });

    assert_eq!(ast.exprs.len(), 3);
    match &ast.exprs.get(sum).kind {
        ExprKind::Binary { lhs: l, op: BinaryOp::Add, rhs: r } => {
            assert!(matches!(
                ast.exprs.get(*l).kind,
                ExprKind::Literal(Literal::Int(1))
            ));
            assert!(matches!(ast.exprs.get(*r).kind, ExprKind::Identifier(Symbol(0))));
        }
        other => panic!("expected a binary node, got {:?}", other),
    }
}

#[test]
fn test_each_node_family_has_its_own_arena() {
    let mut ast = Ast::new(2);
    let value = ast.exprs.allocate(Expr {
        kind: ExprKind::Literal(Literal::Float(String::from("6000.9"))),
        span: Span::new(8, 15),
        ty: None,
    });
    ast.stmts.allocate(Stmt {
        kind: StmtKind::VarDecl {
            is_mutable: false,
            name: Symbol(3),
            ty: None,
            init: VarInit::Expr(value),
        },
        span: Span::new(0, 16),
    });
    ast.patterns.allocate(Pattern::Wildcard);

    assert_eq!(ast.exprs.len(), 1);
    assert_eq!(ast.stmts.len(), 1);
    assert_eq!(ast.patterns.len(), 1);
    assert_eq!(ast.items.len(), 0);
    assert_eq!(ast.type_specs.len(), 0);
}

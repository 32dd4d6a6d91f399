use mcpp_compiler::lexer::Lexer;
use mcpp_compiler::parser::{BinOpKind, Expr, Parser, Program, Stmt, Type, UnaryOpKind};

fn parse(src: &str) -> Result<Program, String> {
    let mut lexer = Lexer::new(src.to_string());
    lexer.tokenize().unwrap();
    let tokens = lexer.get_tokens().clone();
    let mut parser = Parser::new(tokens);
    parser.parse_program()
}

#[test]
fn variable_declaration_with_initializer() {
    let prog = parse("int x = 5;").unwrap();
    assert!(prog.includes.is_empty());
    assert!(prog.defines.is_empty());
    assert_eq!(prog.stmts.len(), 1);
    match &prog.stmts[0] {
        Stmt::VarDecl { ty, name, init } => {
            assert_eq!(*ty, Type::Int);
            assert_eq!(name, "x");
            assert!(matches!(init, Some(Expr::IntLit(5))));
        }
        other => panic!("unexpected statement {:?}", other),
    }
}

#[test]
fn precedence_of_multiplication_over_addition() {
    let prog = parse("int y = 1 + 2 * 3;").unwrap();
    match &prog.stmts[0] {
        Stmt::VarDecl { init: Some(Expr::BinOp { op, left, right }), .. } => {
            assert_eq!(*op, BinOpKind::Add);
            assert!(matches!(**left, Expr::IntLit(1)));
            assert!(matches!(**right, Expr::BinOp { op: BinOpKind::Mul, .. }));
        }
        other => panic!("unexpected statement {:?}", other),
    }
}

#[test]
fn function_with_if_and_return() {
    let prog = parse("int f(int a) { if (a > 0) { return a; } else { return 0; } }").unwrap();
    match &prog.stmts[0] {
        Stmt::FuncDecl { ty, name, params, body } => {
            assert_eq!(*ty, Type::Int);
            assert_eq!(name, "f");
            assert_eq!(params.len(), 1);
            assert_eq!(params[0].name, "a");
            assert_eq!(body.len(), 1);
            assert!(matches!(body[0], Stmt::If { else_block: Some(_), .. }));
        }
        other => panic!("unexpected statement {:?}", other),
    }
}

#[test]
fn for_loop_with_increment() {
    let prog = parse("for (int i = 0; i < 3; i++) { x = x + i; }").unwrap();
    match &prog.stmts[0] {
        Stmt::For { init, condition, update, body } => {
            assert!(init.is_some());
            assert!(condition.is_some());
            assert!(matches!(update.as_deref(), Some(Stmt::IncDec { op: UnaryOpKind::PostInc, .. })));
            assert_eq!(body.len(), 1);
        }
        other => panic!("unexpected statement {:?}", other),
    }
}

#[test]
fn preprocessor_directives() {
    let prog = parse("#include <iostream>\n#define PI 3.14\nint x;").unwrap();
    assert_eq!(prog.includes, vec!["iostream".to_string()]);
    assert_eq!(prog.defines, vec![("PI".to_string(), "3.14".to_string())]);
    assert_eq!(prog.stmts.len(), 1);
}

#[test]
fn missing_identifier_is_a_syntax_error() {
    let r = parse("int = 5;");
    assert_eq!(r.unwrap_err(), "Syntax error at line 1: expected identifier, found Assign");
}

#[test]
fn missing_semicolon_is_a_syntax_error() {
    let r = parse("int x = 5");
    assert!(r.is_err());
    assert!(r.unwrap_err().starts_with("Syntax error at line 1: expected Semicolon"));
}

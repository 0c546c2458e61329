use minilang::ast::{BinOp, Expr, FuncDef, Stmt};
use minilang::parser::Parser;
use minilang::scanner::{Scanner, TokenKind};

fn parse(text: &str) -> Result<Vec<FuncDef>, minilang::parser::SyntaxError> {
    let scanner = Scanner::new(text).unwrap();
    let mut parser = Parser::new(scanner);
    parser.parse()
}

#[test]
fn parse_hello_world() {
    let text = r#"
        fn main() {
            print("Hello World");
        }
    "#;

    let scanner = Scanner::new(text).unwrap();
    let mut parser = Parser::new(scanner);
    let actual = parser.parse().unwrap();

    assert_eq!(
        actual,
        vec![FuncDef {
            name: "main".to_string(),
            params: vec![],
            body: vec![Stmt::Expr(Expr::Call(
                "print".to_string(),
                vec![Expr::Str("Hello World".to_string())],
            ))],
        }]
    );
}

#[test]
fn parse_params_and_arithmetic() {
    let prog = parse("fn f(a, b) { return a + b * 2; }").unwrap();
    assert_eq!(prog.len(), 1);
    assert_eq!(prog[0].name, "f");
    assert_eq!(prog[0].params, vec!["a".to_string(), "b".to_string()]);
    assert_eq!(
        prog[0].body,
        vec![Stmt::Return(Some(Expr::Binary(
            BinOp::Add,
            Box::new(Expr::Var("a".to_string())),
            Box::new(Expr::Binary(
                BinOp::Mul,
                Box::new(Expr::Var("b".to_string())),
                Box::new(Expr::Int(2)),
            )),
        )))]
    );
}

#[test]
fn parse_parenthesised_grouping() {
    let prog = parse("fn main() { x = (1 + 2) * 3; }").unwrap();
    assert_eq!(
        prog[0].body,
        vec![Stmt::Assign(
            "x".to_string(),
            Expr::Binary(
                BinOp::Mul,
                Box::new(Expr::Binary(
                    BinOp::Add,
                    Box::new(Expr::Int(1)),
                    Box::new(Expr::Int(2)),
                )),
                Box::new(Expr::Int(3)),
            ),
        )]
    );
}

#[test]
fn parse_while_break_and_if_else() {
    let prog = parse(
        "fn main() { while(true){ if(x == 0){ break; }else{ x = x - 1; } } }",
    )
    .unwrap();
    assert_eq!(
        prog[0].body,
        vec![Stmt::While(
            Expr::Bool(true),
            vec![Stmt::If(
                Expr::Binary(
                    BinOp::Eq,
                    Box::new(Expr::Var("x".to_string())),
                    Box::new(Expr::Int(0)),
                ),
                vec![Stmt::Break],
                vec![Stmt::Assign(
                    "x".to_string(),
                    Expr::Binary(
                        BinOp::Sub,
                        Box::new(Expr::Var("x".to_string())),
                        Box::new(Expr::Int(1)),
                    ),
                )],
            )],
        )]
    );
}

#[test]
fn parse_else_if_chain() {
    let prog = parse("fn main() { if(a){ p(); }else if(b){ q(); }else { r(); } }").unwrap();
    match &prog[0].body[0] {
        Stmt::If(_, _, els) => match &els[0] {
            Stmt::If(_, _, inner_else) => assert_eq!(inner_else.len(), 1),
            other => panic!("expected a nested conditional, got {:?}", other),
        },
        other => panic!("expected a conditional, got {:?}", other),
    }
}

#[test]
fn parse_rejects_missing_semicolon() {
    let err = parse("fn main() { x = 1 }").unwrap_err();
    assert_eq!(err.expected, vec![TokenKind::Semicolon]);
    assert_eq!(err.found, TokenKind::End);
    assert_eq!(err.lexeme, "}".to_string());
}

#[test]
fn parse_rejects_chained_comparison() {
    // Relational operators are non-associative by design: `a < b < c` is a
    // syntax error rather than an ambiguous expression.
    let err = parse("fn main() { x = a < b < c; }").unwrap_err();
    assert_eq!(err.expected, vec![TokenKind::Semicolon]);
    assert_eq!(err.found, TokenKind::OpRel);
}

#[test]
fn parse_rejects_trailing_garbage() {
    let err = parse("fn main() { } 42").unwrap_err();
    assert_eq!(err.expected, vec![TokenKind::FuncDef, TokenKind::Eof]);
    assert_eq!(err.found, TokenKind::Int);
    assert_eq!(err.lexeme, "42".to_string());
}

#[test]
fn parse_is_deterministic() {
    let text = "fn main() { print(1 + 2 * 3); }";
    assert_eq!(parse(text).unwrap(), parse(text).unwrap());
}

#[test]
fn parse_empty_program() {
    assert_eq!(parse("").unwrap(), vec![]);
}

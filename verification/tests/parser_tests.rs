use ccompiler::ast::{BinaryOp, Expr, Function, Program, Stmt, Type, UnaryOp};
use ccompiler::lexer::{tokenize, Token};
use ccompiler::parser::{parse, Parser};

fn id(s: &str) -> Expr {
    Expr::Identifier(s.to_string())
}

fn num(n: i64) -> Expr {
    Expr::IntConst(n)
}

fn bin(op: BinaryOp, l: Expr, r: Expr) -> Expr {
    Expr::BinaryOp { op, left: Box::new(l), right: Box::new(r) }
}

fn un(op: UnaryOp, e: Expr) -> Expr {
    Expr::UnaryOp { op, operand: Box::new(e) }
}

fn assign(l: Expr, r: Expr) -> Expr {
    Expr::Assignment { left: Box::new(l), right: Box::new(r) }
}

/// Parses `int main() { <stmt> }` and gives the single statement of the body.
fn stmt_of(src: &str) -> Stmt {
    let program = parse(tokenize(&format!("int main() {{ {} }}", src)).unwrap()).unwrap();
    match &program.functions[0].body {
        Stmt::Block(stmts) => {
            assert_eq!(stmts.len(), 1);
            stmts[0].clone()
        }
        other => panic!("unexpected body {:?}", other),
    }
}

fn expr_of(src: &str) -> Expr {
    match stmt_of(&format!("{};", src)) {
        Stmt::Expr(e) => e,
        other => panic!("unexpected statement {:?}", other),
    }
}

fn parse_src(src: &str) -> Result<Program, String> {
    parse(tokenize(src).unwrap())
}

#[test]
fn parses_the_readme_example() {
    let program = parse_src(
        "int main() { int a; int b; int c; a = 10; b = 20; c = a + b; return c; }",
    )
    .unwrap();
    let decl = |n: &str| Stmt::Declaration { var_type: Type::Int, name: n.to_string(), init: None };
    assert_eq!(
        program,
        Program {
            functions: vec![Function {
                return_type: Type::Int,
                name: "main".to_string(),
                params: vec![],
                body: Stmt::Block(vec![
                    decl("a"),
                    decl("b"),
                    decl("c"),
                    Stmt::Expr(assign(id("a"), num(10))),
                    Stmt::Expr(assign(id("b"), num(20))),
                    Stmt::Expr(assign(id("c"), bin(BinaryOp::Add, id("a"), id("b")))),
                    Stmt::Return(Some(id("c"))),
                ]),
            }],
            global_declarations: vec![],
        }
    );
}

#[test]
fn binary_operators_associate_to_the_left() {
    assert_eq!(
        expr_of("a - b - c"),
        bin(BinaryOp::Sub, bin(BinaryOp::Sub, id("a"), id("b")), id("c"))
    );
    assert_eq!(
        expr_of("a / b % c"),
        bin(BinaryOp::Mod, bin(BinaryOp::Div, id("a"), id("b")), id("c"))
    );
}

#[test]
fn precedence_levels() {
    assert_eq!(
        expr_of("a + b * c"),
        bin(BinaryOp::Add, id("a"), bin(BinaryOp::Mul, id("b"), id("c")))
    );
    assert_eq!(
        expr_of("a || b && c | d ^ e & f == g < h << i + j * k"),
        bin(
            BinaryOp::Or,
            id("a"),
            bin(
                BinaryOp::And,
                id("b"),
                bin(
                    BinaryOp::BitOr,
                    id("c"),
                    bin(
                        BinaryOp::BitXor,
                        id("d"),
                        bin(
                            BinaryOp::BitAnd,
                            id("e"),
                            bin(
                                BinaryOp::Equal,
                                id("f"),
                                bin(
                                    BinaryOp::Less,
                                    id("g"),
                                    bin(
                                        BinaryOp::ShiftLeft,
                                        id("h"),
                                        bin(
                                            BinaryOp::Add,
                                            id("i"),
                                            bin(BinaryOp::Mul, id("j"), id("k"))
                                        )
                                    )
                                )
                            )
                        )
                    )
                )
            )
        )
    );
    assert_eq!(
        expr_of("(a + b) * c"),
        bin(BinaryOp::Mul, bin(BinaryOp::Add, id("a"), id("b")), id("c"))
    );
}

#[test]
fn comparison_operators() {
    assert_eq!(
        expr_of("a != b >= c"),
        bin(BinaryOp::NotEqual, id("a"), bin(BinaryOp::GreaterEqual, id("b"), id("c")))
    );
    assert_eq!(
        expr_of("a <= b > c >> d"),
        bin(
            BinaryOp::Greater,
            bin(BinaryOp::LessEqual, id("a"), id("b")),
            bin(BinaryOp::ShiftRight, id("c"), id("d"))
        )
    );
}

#[test]
fn assignment_is_right_associative() {
    assert_eq!(expr_of("a = b = 1"), assign(id("a"), assign(id("b"), num(1))));
}

#[test]
fn compound_assignment_spells_out_the_operation() {
    assert_eq!(expr_of("a += 2"), assign(id("a"), bin(BinaryOp::Add, id("a"), num(2))));
    assert_eq!(expr_of("a <<= b"), assign(id("a"), bin(BinaryOp::ShiftLeft, id("a"), id("b"))));
    assert_eq!(expr_of("a %= b"), assign(id("a"), bin(BinaryOp::Mod, id("a"), id("b"))));
    assert_eq!(expr_of("a ^= b"), assign(id("a"), bin(BinaryOp::BitXor, id("a"), id("b"))));
}

#[test]
fn conditional_expression_is_encoded_with_equalities() {
    assert_eq!(
        expr_of("c ? a : b"),
        bin(
            BinaryOp::Equal,
            bin(BinaryOp::Equal, id("c"), num(1)),
            bin(BinaryOp::Equal, num(0), bin(BinaryOp::Equal, id("a"), id("b")))
        )
    );
}

#[test]
fn unary_and_postfix_operators() {
    assert_eq!(expr_of("-x"), un(UnaryOp::Negate, id("x")));
    assert_eq!(expr_of("+x"), id("x"));
    assert_eq!(expr_of("+ +x"), id("x"));
    assert_eq!(expr_of("-+x"), un(UnaryOp::Negate, id("x")));
    assert_eq!(expr_of("+-x"), un(UnaryOp::Negate, id("x")));
    assert_eq!(expr_of("a + +b"), bin(BinaryOp::Add, id("a"), id("b")));
    assert_eq!(expr_of("!~x"), un(UnaryOp::Not, un(UnaryOp::BitNot, id("x"))));
    assert_eq!(expr_of("*&x"), un(UnaryOp::Deref, un(UnaryOp::Address, id("x"))));
    assert_eq!(expr_of("++x"), un(UnaryOp::PreInc, id("x")));
    assert_eq!(expr_of("--x"), un(UnaryOp::PreDec, id("x")));
    assert_eq!(expr_of("x++"), un(UnaryOp::PostInc, id("x")));
    assert_eq!(expr_of("-x--"), un(UnaryOp::Negate, un(UnaryOp::PostDec, id("x"))));
}

#[test]
fn calls_subscripts_and_members() {
    assert_eq!(expr_of("f()"), Expr::Call { func: Box::new(id("f")), args: vec![] });
    assert_eq!(
        expr_of("f(1, x + 2)"),
        Expr::Call {
            func: Box::new(id("f")),
            args: vec![num(1), bin(BinaryOp::Add, id("x"), num(2))],
        }
    );
    assert_eq!(expr_of("a[i]"), un(UnaryOp::Deref, bin(BinaryOp::Add, id("a"), id("i"))));
    assert_eq!(expr_of("s.f"), id("f"));
    assert_eq!(expr_of("p->f"), un(UnaryOp::Deref, id("f")));
}

#[test]
fn literals() {
    assert_eq!(expr_of("'c'"), Expr::CharConst('c'));
    assert_eq!(expr_of("\"str\""), Expr::StringConst("str".to_string()));
}

#[test]
fn control_flow_statements() {
    assert_eq!(
        stmt_of("if (x) y = 1; else { y = 2; }"),
        Stmt::If {
            condition: id("x"),
            then_stmt: Box::new(Stmt::Expr(assign(id("y"), num(1)))),
            else_stmt: Some(Box::new(Stmt::Block(vec![Stmt::Expr(assign(id("y"), num(2)))]))),
        }
    );
    assert_eq!(
        stmt_of("while (x) x--;"),
        Stmt::While {
            condition: id("x"),
            body: Box::new(Stmt::Expr(un(UnaryOp::PostDec, id("x")))),
        }
    );
    assert_eq!(
        stmt_of("do { break; } while (1);"),
        Stmt::DoWhile { body: Box::new(Stmt::Block(vec![Stmt::Break])), condition: num(1) }
    );
    assert_eq!(stmt_of("continue;"), Stmt::Continue);
    assert_eq!(stmt_of(";"), Stmt::Expr(num(0)));
    assert_eq!(stmt_of("return;"), Stmt::Return(None));
}

#[test]
fn for_loops() {
    assert_eq!(
        stmt_of("for (int i = 0; i < 10; i++) x += i;"),
        Stmt::For {
            init: Some(Box::new(Stmt::Declaration {
                var_type: Type::Int,
                name: "i".to_string(),
                init: Some(num(0)),
            })),
            condition: Some(bin(BinaryOp::Less, id("i"), num(10))),
            update: Some(Box::new(un(UnaryOp::PostInc, id("i")))),
            body: Box::new(Stmt::Expr(assign(id("x"), bin(BinaryOp::Add, id("x"), id("i"))))),
        }
    );
    assert_eq!(
        stmt_of("for (;;) ;"),
        Stmt::For { init: None, condition: None, update: None, body: Box::new(Stmt::Expr(num(0))) }
    );
    assert_eq!(
        stmt_of("for (i = 0; ; ) {}"),
        Stmt::For {
            init: Some(Box::new(Stmt::Expr(assign(id("i"), num(0))))),
            condition: None,
            update: None,
            body: Box::new(Stmt::Block(vec![])),
        }
    );
}

#[test]
fn pointer_types_and_globals() {
    let program = parse_src("char **p; int n = 3; void f(int *a, char c) { }").unwrap();
    assert_eq!(
        program.global_declarations,
        vec![
            (
                Type::Pointer(Box::new(Type::Pointer(Box::new(Type::Char)))),
                "p".to_string(),
                None
            ),
            (Type::Int, "n".to_string(), Some(num(3))),
        ]
    );
    assert_eq!(program.functions.len(), 1);
    assert_eq!(program.functions[0].return_type, Type::Void);
    assert_eq!(
        program.functions[0].params,
        vec![
            (Type::Pointer(Box::new(Type::Int)), "a".to_string()),
            (Type::Char, "c".to_string())
        ]
    );
}

#[test]
fn empty_program_and_eof_token() {
    assert_eq!(
        parse(vec![]),
        Ok(Program { functions: vec![], global_declarations: vec![] })
    );
    let program =
        parse(vec![Token::Int, Token::Identifier("x".to_string()), Token::Semicolon, Token::EOF, Token::Plus])
            .unwrap();
    assert_eq!(program.global_declarations.len(), 1);
}

#[test]
fn parser_object_parses_from_its_position() {
    let mut parser = Parser::new(tokenize("int x;").unwrap());
    let program = parser.parse().unwrap();
    assert_eq!(program.global_declarations, vec![(Type::Int, "x".to_string(), None)]);
    // Everything was consumed: a second call finds nothing more.
    assert_eq!(parser.parse(), Ok(Program { functions: vec![], global_declarations: vec![] }));
}

#[test]
fn syntax_errors_name_what_was_found() {
    assert_eq!(
        parse_src("x"),
        Err("Expected type or function, found Identifier(\"x\")".to_string())
    );
    assert_eq!(
        parse_src("'a'"),
        Err("Expected type or function, found CharConst('a')".to_string())
    );
    assert_eq!(
        parse_src("\"s\\n\""),
        Err("Expected type or function, found StringConst(\"s\\n\")".to_string())
    );
    assert_eq!(parse_src("-"), Err("Expected type or function, found Minus".to_string()));
    assert_eq!(parse_src("int x"), Err("Expected Semicolon, found EOF".to_string()));
    assert_eq!(parse_src("int x = ;"), Err("Expected expression, found Semicolon".to_string()));
    assert_eq!(parse_src("int 3;"), Err("Expected identifier, found IntConst(3)".to_string()));
    assert_eq!(parse_src("int"), Err("Expected identifier, found EOF".to_string()));
    assert_eq!(parse_src("int f(x) {}"), Err("Expected type, found Identifier(\"x\")".to_string()));
    assert_eq!(parse_src("int f(int"), Err("Expected identifier, found EOF".to_string()));
    assert_eq!(parse_src("int f(int a;"), Err("Expected ',' or ')', found Semicolon".to_string()));
    assert_eq!(parse_src("int f(int a"), Err("Expected ',' or ')', found EOF".to_string()));
    assert_eq!(
        parse_src("int f() { g(1;"),
        Err("Expected ',' or ')', found Semicolon".to_string())
    );
    assert_eq!(parse_src("int f() { return 1 }"), Err("Expected Semicolon, found CloseBrace".to_string()));
    assert_eq!(parse_src("int f() {"), Err("Expected CloseBrace, found EOF".to_string()));
    assert_eq!(parse_src("int f() { x = (1; }"), Err("Expected CloseParen, found Semicolon".to_string()));
    assert_eq!(parse_src("int f() { a[1; }"), Err("Expected CloseBracket, found Semicolon".to_string()));
    assert_eq!(parse_src("int f() { c ? 1 ; }"), Err("Expected Colon, found Semicolon".to_string()));
    assert_eq!(parse_src("int f() { s.1; }"), Err("Expected identifier, found IntConst(1)".to_string()));
    assert_eq!(parse_src("int f() { x = ; }"), Err("Expected expression, found Semicolon".to_string()));
    assert_eq!(parse_src("int f() { 1 + }"), Err("Expected expression, found CloseBrace".to_string()));
    assert_eq!(parse_src("int f() { -"), Err("Expected expression, found EOF".to_string()));
}

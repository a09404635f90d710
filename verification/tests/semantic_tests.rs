use ccompiler::ast::{Expr, Function, Program, Stmt, Type};
use ccompiler::lexer::tokenize;
use ccompiler::parser::parse;
use ccompiler::semantic::{analyze, SemanticAnalyzer};

fn program(src: &str) -> Program {
    parse(tokenize(src).unwrap()).unwrap()
}

fn check(src: &str) -> Result<(), Vec<String>> {
    analyze(&program(src))
}

fn errs(v: &[&str]) -> Result<(), Vec<String>> {
    Err(v.iter().map(|s| s.to_string()).collect())
}

#[test]
fn readme_example_is_accepted() {
    assert_eq!(
        check("int main() { int a; int b; int c; a = 10; b = 20; c = a + b; return c; }"),
        Ok(())
    );
}

#[test]
fn empty_program_is_accepted() {
    assert_eq!(analyze(&Program { functions: vec![], global_declarations: vec![] }), Ok(()));
}

#[test]
fn undeclared_identifiers_are_reported_in_order() {
    assert_eq!(
        check("int main() { x = y; return z; }"),
        errs(&["Undeclared identifier: x", "Undeclared identifier: y", "Undeclared identifier: z"])
    );
}

#[test]
fn block_declarations_stay_in_the_block() {
    assert_eq!(
        check("int main() { { int a; a = 1; } a = 2; }"),
        errs(&["Undeclared identifier: a"])
    );
}

#[test]
fn declaration_is_visible_after_it_only() {
    assert_eq!(
        check("int main() { a = 1; int a; a = 2; }"),
        errs(&["Undeclared identifier: a"])
    );
    assert_eq!(
        check("int main() { int a = a; }"),
        errs(&["Undeclared identifier: a"])
    );
}

#[test]
fn parameters_and_globals_are_visible() {
    assert_eq!(check("int g; int f(int p) { return p + g; }"), Ok(()));
}

#[test]
fn functions_may_be_called_before_their_definition() {
    assert_eq!(check("int main() { return f(1); } int f(int x) { return x; }"), Ok(()));
}

#[test]
fn calling_a_variable_is_reported() {
    assert_eq!(check("int x; int main() { x(); }"), errs(&["'x' is not a function"]));
    // A local variable hides the function of the same name.
    assert_eq!(
        check("int f() { return 0; } int main() { int f; f(); }"),
        errs(&["'f' is not a function"])
    );
}

#[test]
fn calling_an_undeclared_name_is_reported_once() {
    assert_eq!(check("int main() { g(); }"), errs(&["Undeclared identifier: g"]));
}

#[test]
fn invalid_lvalues_are_reported() {
    assert_eq!(check("int main() { 1 = 2; }"), errs(&["Invalid lvalue in assignment"]));
    assert_eq!(check("int main() { int *p; *p = 2; }"), Ok(()));
    assert_eq!(
        check("int main() { int a; a + 1 = y; }"),
        errs(&["Undeclared identifier: y", "Invalid lvalue in assignment"])
    );
}

#[test]
fn loops_and_conditions_are_checked() {
    assert_eq!(
        check("int main() { for (int i = 0; i < n; i++) { } while (w) ; do { } while (d); if (c) ; else e; }"),
        errs(&[
            "Undeclared identifier: n",
            "Undeclared identifier: w",
            "Undeclared identifier: d",
            "Undeclared identifier: c",
            "Undeclared identifier: e"
        ])
    );
}

#[test]
fn for_declaration_stays_visible_after_the_loop() {
    assert_eq!(check("int main() { for (int i = 0; i < 3; i++) ; return i; }"), Ok(()));
}

#[test]
fn casts_are_checked_inside() {
    let body = Stmt::Block(vec![Stmt::Expr(Expr::Cast {
        target_type: Type::Char,
        expr: Box::new(Expr::Identifier("q".to_string())),
    })]);
    let p = Program {
        functions: vec![Function {
            return_type: Type::Int,
            name: "main".to_string(),
            params: vec![],
            body,
        }],
        global_declarations: vec![],
    };
    assert_eq!(analyze(&p), errs(&["Undeclared identifier: q"]));
}

#[test]
fn an_analyzer_keeps_its_errors_across_programs() {
    let mut analyzer = SemanticAnalyzer::new();
    assert_eq!(analyzer.analyze(&program("int main() { x; }")), errs(&["Undeclared identifier: x"]));
    assert_eq!(
        analyzer.analyze(&program("int f() { y; }")),
        errs(&["Undeclared identifier: x", "Undeclared identifier: y"])
    );
}

#[test]
fn an_analyzer_keeps_earlier_declarations() {
    let mut analyzer = SemanticAnalyzer::new();
    assert_eq!(analyzer.analyze(&program("int g;")), Ok(()));
    assert_eq!(analyzer.analyze(&program("int main() { return g; }")), Ok(()));
}

#[test]
fn only_unnested_declarations_reach_the_enclosing_scope() {
    assert_eq!(
        check(
            "int main() { if (1) int a; else int b; a = 1; b = 2; \
             while (0) int c; c = 3; { int d; } d = 4; return 0; }"
        ),
        errs(&["Undeclared identifier: d"])
    );
}

#[test]
fn expression_statements_report_in_walk_order() {
    assert_eq!(
        check("int x; int main() { y = z(x) + 1; x(); 3 = x; }"),
        errs(&[
            "Undeclared identifier: y",
            "Undeclared identifier: z",
            "'x' is not a function",
            "Invalid lvalue in assignment",
        ])
    );
}

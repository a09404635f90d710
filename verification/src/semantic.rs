//! Semantic analysis: scoped symbol tables and the checks made on names.
use vstd::prelude::*;
use crate::ast::{
    params_model, Expr, Program, SpecExpr, SpecFunction, SpecProgram, SpecStmt, Stmt, Type, UnaryOp,
};
use crate::text::push_str;

verus! {

/// A declared name: a variable (with its type) or a function (with its
/// return type and parameters).
#[derive(Debug, Clone)]
pub struct Symbol {
    pub name: String,
    pub var_type: Type,
    pub is_function: bool,
    pub params: Vec<(Type, String)>,
}

/// The mathematical value of a [`Symbol`].
pub struct SpecSymbol {
    pub name: Seq<char>,
    pub var_type: Type,
    pub is_function: bool,
    pub params: Seq<(Type, Seq<char>)>,
}

impl View for Symbol {
    type V = SpecSymbol;

    open spec fn view(&self) -> SpecSymbol {
        SpecSymbol {
            name: self.name@,
            var_type: self.var_type,
            is_function: self.is_function,
            params: params_model(self.params@),
        }
    }
}

/// A scope maps each name declared in it to its latest declaration.
pub type Scope = Map<Seq<char>, SpecSymbol>;

/// The state of an analysis: the scopes from the outermost (global) one to the
/// innermost, the function being analyzed, and the errors found so far.
pub struct AnalyzerModel {
    pub scopes: Seq<Scope>,
    pub current_function: Option<Seq<char>>,
    pub errors: Seq<Seq<char>>,
}

/// The scope that a sequence of declarations builds, later ones replacing
/// earlier ones of the same name.
pub open spec fn scope_of(v: Seq<Symbol>) -> Scope
    decreases v.len(),
{
    if v.len() == 0 {
        Map::empty()
    } else {
        scope_of(v.drop_last()).insert(v.last().name@, v.last()@)
    }
}

/// A variable declaration's symbol.
pub open spec fn variable(name: Seq<char>, var_type: Type) -> SpecSymbol {
    SpecSymbol { name, var_type, is_function: false, params: seq![] }
}

/// A function's symbol.
pub open spec fn function_symbol(f: SpecFunction) -> SpecSymbol {
    SpecSymbol {
        name: f.name,
        var_type: f.return_type,
        is_function: true,
        params: f.params,
    }
}

/// Declares `sym` in the innermost scope.
pub open spec fn declare(m: AnalyzerModel, sym: SpecSymbol) -> AnalyzerModel {
    AnalyzerModel {
        scopes: m.scopes.update(m.scopes.len() - 1, m.scopes.last().insert(sym.name, sym)),
        ..m
    }
}

/// Opens a new, empty innermost scope.
pub open spec fn open_scope(m: AnalyzerModel) -> AnalyzerModel {
    AnalyzerModel { scopes: m.scopes.push(Map::empty()), ..m }
}

/// Closes the innermost scope.
pub open spec fn close_scope(m: AnalyzerModel) -> AnalyzerModel {
    AnalyzerModel { scopes: m.scopes.drop_last(), ..m }
}

/// Adds errors to the report.
pub open spec fn report(m: AnalyzerModel, errs: Seq<Seq<char>>) -> AnalyzerModel {
    AnalyzerModel { errors: m.errors + errs, ..m }
}

/// The declaration that `name` refers to: the one in the innermost scope that
/// declares it.
pub open spec fn lookup(scopes: Seq<Scope>, name: Seq<char>) -> Option<SpecSymbol>
    decreases scopes.len(),
{
    if scopes.len() == 0 {
        None
    } else if scopes.last().contains_key(name) {
        Some(scopes.last()[name])
    } else {
        lookup(scopes.drop_last(), name)
    }
}

/// The message for a name that no scope declares.
pub open spec fn undeclared_msg(name: Seq<char>) -> Seq<char> {
    "Undeclared identifier: "@ + name
}

/// The message for a call of a name that is declared as a variable.
pub open spec fn not_function_msg(name: Seq<char>) -> Seq<char> {
    "'"@ + name + "' is not a function"@
}

/// The message for an assignment to something other than a name or a dereference.
pub open spec fn invalid_lvalue_msg() -> Seq<char> {
    "Invalid lvalue in assignment"@
}

/// What can be assigned to: a name, or a dereference.
pub open spec fn is_lvalue(e: SpecExpr) -> bool {
    match e {
        SpecExpr::Identifier(_) => true,
        SpecExpr::UnaryOp { op, .. } => op == UnaryOp::Deref,
        _ => false,
    }
}

/// The errors found in an expression, in the order of a left-to-right,
/// depth-first walk: undeclared names, assignments to what is not an lvalue,
/// and calls of names declared as variables.
pub open spec fn expr_errors(scopes: Seq<Scope>, e: SpecExpr) -> Seq<Seq<char>>
    decreases e,
{
    match e {
        SpecExpr::IntConst(_) => seq![],
        SpecExpr::CharConst(_) => seq![],
        SpecExpr::StringConst(_) => seq![],
        SpecExpr::Identifier(name) => if lookup(scopes, name) is None {
            seq![undeclared_msg(name)]
        } else {
            seq![]
        },
        SpecExpr::BinaryOp { op: _, left, right } => expr_errors(scopes, *left) + expr_errors(
            scopes,
            *right,
        ),
        SpecExpr::UnaryOp { op: _, operand } => expr_errors(scopes, *operand),
        SpecExpr::Assignment { left, right } => expr_errors(scopes, *left) + expr_errors(
            scopes,
            *right,
        ) + if is_lvalue(*left) {
            seq![]
        } else {
            seq![invalid_lvalue_msg()]
        },
        SpecExpr::Call { func, args } => expr_errors(scopes, *func) + args_errors(scopes, args)
            + match *func {
            SpecExpr::Identifier(name) => match lookup(scopes, name) {
                Some(sym) => if sym.is_function {
                    seq![]
                } else {
                    seq![not_function_msg(name)]
                },
                None => seq![],
            },
            _ => seq![],
        },
        SpecExpr::Cast { target_type: _, expr } => expr_errors(scopes, *expr),
    }
}

/// The errors found in a sequence of expressions, one after the other.
pub open spec fn args_errors(scopes: Seq<Scope>, args: Seq<SpecExpr>) -> Seq<Seq<char>>
    decreases args,
{
    if args.len() == 0 {
        seq![]
    } else {
        args_errors(scopes, args.drop_last()) + expr_errors(scopes, args.last())
    }
}

/// Checks an optional expression.
pub open spec fn check_opt_expr(m: AnalyzerModel, e: Option<SpecExpr>) -> AnalyzerModel {
    match e {
        Some(x) => report(m, expr_errors(m.scopes, x)),
        None => m,
    }
}

/// The analysis of a statement: a block has a scope of its own; a declaration
/// checks its initializer, then declares its name in the innermost scope.
pub open spec fn stmt_analysis(m: AnalyzerModel, s: SpecStmt) -> AnalyzerModel
    decreases s,
{
    match s {
        SpecStmt::Expr(e) => report(m, expr_errors(m.scopes, e)),
        SpecStmt::Return(e) => check_opt_expr(m, e),
        SpecStmt::Block(stmts) => close_scope(stmts_analysis(open_scope(m), stmts)),
        SpecStmt::If { condition, then_stmt, else_stmt } => {
            let m1 = stmt_analysis(report(m, expr_errors(m.scopes, condition)), *then_stmt);
            match else_stmt {
                Some(e) => stmt_analysis(m1, *e),
                None => m1,
            }
        },
        SpecStmt::While { condition, body } => stmt_analysis(
            report(m, expr_errors(m.scopes, condition)),
            *body,
        ),
        SpecStmt::DoWhile { body, condition } => {
            let m1 = stmt_analysis(m, *body);
            report(m1, expr_errors(m1.scopes, condition))
        },
        SpecStmt::For { init, condition, update, body } => {
            let m1 = match init {
                Some(i) => stmt_analysis(m, *i),
                None => m,
            };
            let m2 = check_opt_expr(m1, condition);
            let m3 = match update {
                Some(u) => report(m2, expr_errors(m2.scopes, *u)),
                None => m2,
            };
            stmt_analysis(m3, *body)
        },
        SpecStmt::Break => m,
        SpecStmt::Continue => m,
        SpecStmt::Declaration { var_type, name, init } => declare(
            check_opt_expr(m, init),
            variable(name, var_type),
        ),
    }
}

/// The analysis of statements, one after the other.
pub open spec fn stmts_analysis(m: AnalyzerModel, stmts: Seq<SpecStmt>) -> AnalyzerModel
    decreases stmts,
{
    if stmts.len() == 0 {
        m
    } else {
        stmt_analysis(stmts_analysis(m, stmts.drop_last()), stmts.last())
    }
}

/// Declares the functions, one after the other.
pub open spec fn declare_functions(m: AnalyzerModel, fs: Seq<SpecFunction>) -> AnalyzerModel
    decreases fs.len(),
{
    if fs.len() == 0 {
        m
    } else {
        declare(declare_functions(m, fs.drop_last()), function_symbol(fs.last()))
    }
}

/// Declares the global variables, one after the other.
pub open spec fn declare_globals(
    m: AnalyzerModel,
    gs: Seq<(Type, Seq<char>, Option<SpecExpr>)>,
) -> AnalyzerModel
    decreases gs.len(),
{
    if gs.len() == 0 {
        m
    } else {
        let g = gs.last();
        declare(declare_globals(m, gs.drop_last()), variable(g.1, g.0))
    }
}

/// Declares parameters, one after the other.
pub open spec fn declare_params(m: AnalyzerModel, ps: Seq<(Type, Seq<char>)>) -> AnalyzerModel
    decreases ps.len(),
{
    if ps.len() == 0 {
        m
    } else {
        let p = ps.last();
        declare(declare_params(m, ps.drop_last()), variable(p.1, p.0))
    }
}

/// The analysis of a function body: in a scope of its own that holds the
/// parameters.
pub open spec fn function_analysis(m: AnalyzerModel, f: SpecFunction) -> AnalyzerModel {
    let m1 = AnalyzerModel { current_function: Some(f.name), ..m };
    close_scope(stmt_analysis(declare_params(open_scope(m1), f.params), f.body))
}

/// The analysis of function bodies, one after the other.
pub open spec fn functions_analysis(m: AnalyzerModel, fs: Seq<SpecFunction>) -> AnalyzerModel
    decreases fs.len(),
{
    if fs.len() == 0 {
        m
    } else {
        function_analysis(functions_analysis(m, fs.drop_last()), fs.last())
    }
}

/// The analysis of a program: all functions and global variables are
/// declared first, then each function body is analyzed.
pub open spec fn program_analysis(m: AnalyzerModel, p: SpecProgram) -> AnalyzerModel {
    functions_analysis(
        declare_globals(declare_functions(m, p.functions), p.global_declarations),
        p.functions,
    )
}

/// The result of an analysis: success when no error was found, else all the
/// errors found.
pub open spec fn verdict(m: AnalyzerModel) -> Result<(), Seq<Seq<char>>> {
    if m.errors.len() == 0 {
        Ok(())
    } else {
        Err(m.errors)
    }
}

/// The analyzer's state before anything is declared: one empty (global) scope.
pub open spec fn initial_model() -> AnalyzerModel {
    AnalyzerModel { scopes: seq![Map::empty()], current_function: None, errors: seq![] }
}

/// The result of analyzing a program with a fresh analyzer.
pub open spec fn spec_analyze(p: SpecProgram) -> Result<(), Seq<Seq<char>>> {
    verdict(program_analysis(initial_model(), p))
}

/// Read after write: right after `sym` is declared, its name refers to it; any
/// other name refers to what it referred to before.
pub proof fn lemma_lookup_after_declare(m: AnalyzerModel, sym: SpecSymbol, name: Seq<char>)
    requires
        m.scopes.len() >= 1,
    ensures
        lookup(declare(m, sym).scopes, sym.name) == Some(sym),
        name != sym.name ==> lookup(declare(m, sym).scopes, name) == lookup(m.scopes, name),
{
    let s2 = declare(m, sym).scopes;
    assert(s2.drop_last() =~= m.scopes.drop_last());
}

/// Closing a scope undoes opening one.
pub proof fn lemma_close_undoes_open(m: AnalyzerModel)
    ensures
        close_scope(open_scope(m)) == m,
{
    assert(close_scope(open_scope(m)).scopes =~= m.scopes);
}

/// Only the innermost scope of `m2` may differ from those of `m1`, and there are
/// as many scopes.
pub open spec fn same_outer_scopes(m1: AnalyzerModel, m2: AnalyzerModel) -> bool {
    &&& m2.scopes.len() == m1.scopes.len()
    &&& m2.scopes.drop_last() == m1.scopes.drop_last()
}

/// The errors of `m1` come first among those of `m2`.
pub open spec fn keeps_errors(m1: AnalyzerModel, m2: AnalyzerModel) -> bool {
    &&& m1.errors.len() <= m2.errors.len()
    &&& m2.errors.take(m1.errors.len() as int) == m1.errors
}

proof fn lemma_keeps_errors_trans(a: AnalyzerModel, b: AnalyzerModel, c: AnalyzerModel)
    requires
        keeps_errors(a, b),
        keeps_errors(b, c),
    ensures
        keeps_errors(a, c),
{
    assert(c.errors.take(a.errors.len() as int) =~= b.errors.take(a.errors.len() as int));
}

proof fn lemma_report_keeps(m: AnalyzerModel, errs: Seq<Seq<char>>)
    ensures
        keeps_errors(m, report(m, errs)),
        report(m, errs).scopes == m.scopes,
{
    assert((m.errors + errs).take(m.errors.len() as int) =~= m.errors);
}

proof fn lemma_check_opt_expr(m: AnalyzerModel, e: Option<SpecExpr>)
    ensures
        keeps_errors(m, check_opt_expr(m, e)),
        check_opt_expr(m, e).scopes == m.scopes,
{
    if let Some(x) = e {
        lemma_report_keeps(m, expr_errors(m.scopes, x));
    } else {
        assert(m.errors.take(m.errors.len() as int) =~= m.errors);
    }
}

proof fn lemma_stmt_analysis_shape(m: AnalyzerModel, s: SpecStmt)
    requires
        m.scopes.len() >= 1,
    ensures
        same_outer_scopes(m, stmt_analysis(m, s)),
        keeps_errors(m, stmt_analysis(m, s)),
    decreases s,
{
    assert(m.errors.take(m.errors.len() as int) =~= m.errors);
    match s {
        SpecStmt::Expr(e) => {
            lemma_report_keeps(m, expr_errors(m.scopes, e));
        },
        SpecStmt::Return(e) => {
            lemma_check_opt_expr(m, e);
        },
        SpecStmt::Block(stmts) => {
            let o = open_scope(m);
            lemma_stmts_analysis_shape(o, stmts);
            let inner = stmts_analysis(o, stmts);
            assert(inner.scopes.drop_last() =~= m.scopes);
            assert(close_scope(inner).scopes =~= m.scopes);
        },
        SpecStmt::If { condition, then_stmt, else_stmt } => {
            let m0 = report(m, expr_errors(m.scopes, condition));
            lemma_report_keeps(m, expr_errors(m.scopes, condition));
            lemma_stmt_analysis_shape(m0, *then_stmt);
            let m1 = stmt_analysis(m0, *then_stmt);
            lemma_keeps_errors_trans(m, m0, m1);
            if let Some(e) = else_stmt {
                lemma_stmt_analysis_shape(m1, *e);
                lemma_keeps_errors_trans(m, m1, stmt_analysis(m1, *e));
            }
        },
        SpecStmt::While { condition, body } => {
            let m0 = report(m, expr_errors(m.scopes, condition));
            lemma_report_keeps(m, expr_errors(m.scopes, condition));
            lemma_stmt_analysis_shape(m0, *body);
            lemma_keeps_errors_trans(m, m0, stmt_analysis(m0, *body));
        },
        SpecStmt::DoWhile { body, condition } => {
            lemma_stmt_analysis_shape(m, *body);
            let m1 = stmt_analysis(m, *body);
            lemma_report_keeps(m1, expr_errors(m1.scopes, condition));
            lemma_keeps_errors_trans(m, m1, report(m1, expr_errors(m1.scopes, condition)));
        },
        SpecStmt::For { init, condition, update, body } => {
            let m1 = match init {
                Some(i) => stmt_analysis(m, *i),
                None => m,
            };
            if let Some(i) = init {
                lemma_stmt_analysis_shape(m, *i);
            }
            let m2 = check_opt_expr(m1, condition);
            lemma_check_opt_expr(m1, condition);
            lemma_keeps_errors_trans(m, m1, m2);
            let m3 = match update {
                Some(u) => report(m2, expr_errors(m2.scopes, *u)),
                None => m2,
            };
            if let Some(u) = update {
                lemma_report_keeps(m2, expr_errors(m2.scopes, *u));
            } else {
                assert(m2.errors.take(m2.errors.len() as int) =~= m2.errors);
            }
            lemma_keeps_errors_trans(m, m2, m3);
            lemma_stmt_analysis_shape(m3, *body);
            lemma_keeps_errors_trans(m, m3, stmt_analysis(m3, *body));
        },
        SpecStmt::Break => {},
        SpecStmt::Continue => {},
        SpecStmt::Declaration { var_type, name, init } => {
            let m1 = check_opt_expr(m, init);
            lemma_check_opt_expr(m, init);
            let m2 = declare(m1, variable(name, var_type));
            assert(m2.scopes.drop_last() =~= m1.scopes.drop_last());
        },
    }
}

proof fn lemma_stmts_analysis_shape(m: AnalyzerModel, stmts: Seq<SpecStmt>)
    requires
        m.scopes.len() >= 1,
    ensures
        same_outer_scopes(m, stmts_analysis(m, stmts)),
        keeps_errors(m, stmts_analysis(m, stmts)),
    decreases stmts,
{
    if stmts.len() == 0 {
        assert(m.errors.take(m.errors.len() as int) =~= m.errors);
    } else {
        lemma_stmts_analysis_shape(m, stmts.drop_last());
        let m1 = stmts_analysis(m, stmts.drop_last());
        lemma_stmt_analysis_shape(m1, stmts.last());
        lemma_keeps_errors_trans(m, m1, stmt_analysis(m1, stmts.last()));
    }
}

/// Scope discipline: a statement changes at most the innermost scope (a
/// declaration adds to it), and it never removes an error already found.
pub proof fn lemma_statement_scope_discipline(m: AnalyzerModel, s: SpecStmt)
    requires
        m.scopes.len() >= 1,
    ensures
        same_outer_scopes(m, stmt_analysis(m, s)),
        keeps_errors(m, stmt_analysis(m, s)),
{
    lemma_stmt_analysis_shape(m, s);
}

/// What is declared inside a block stays there: after a block, the scopes are
/// those before it.
pub proof fn lemma_block_keeps_scopes(m: AnalyzerModel, stmts: Seq<SpecStmt>)
    requires
        m.scopes.len() >= 1,
    ensures
        stmt_analysis(m, SpecStmt::Block(stmts)).scopes == m.scopes,
{
    let o = open_scope(m);
    lemma_stmts_analysis_shape(o, stmts);
    let inner = stmts_analysis(o, stmts);
    assert(inner.scopes.drop_last() =~= m.scopes);
}

/// The declarations that a statement makes in the scope it stands in, in order:
/// its own and those of the statements nested in it, but none made inside a
/// block, which has a scope of its own.
pub open spec fn stmt_declarations(s: SpecStmt) -> Seq<SpecSymbol>
    decreases s,
{
    match s {
        SpecStmt::Declaration { var_type, name, init: _ } => seq![variable(name, var_type)],
        SpecStmt::If { condition: _, then_stmt, else_stmt } => stmt_declarations(*then_stmt)
            + (match else_stmt {
            Some(e) => stmt_declarations(*e),
            None => seq![],
        }),
        SpecStmt::While { condition: _, body } => stmt_declarations(*body),
        SpecStmt::DoWhile { body, condition: _ } => stmt_declarations(*body),
        SpecStmt::For { init, condition: _, update: _, body } => (match init {
            Some(i) => stmt_declarations(*i),
            None => seq![],
        }) + stmt_declarations(*body),
        _ => seq![],
    }
}

/// A scope with the symbols declared in it one after the other, later ones
/// replacing earlier ones of the same name.
pub open spec fn declare_all(scope: Scope, syms: Seq<SpecSymbol>) -> Scope
    decreases syms.len(),
{
    if syms.len() == 0 {
        scope
    } else {
        declare_all(scope, syms.drop_last()).insert(syms.last().name, syms.last())
    }
}

proof fn lemma_declare_all_append(scope: Scope, a: Seq<SpecSymbol>, b: Seq<SpecSymbol>)
    ensures
        declare_all(scope, a + b) == declare_all(declare_all(scope, a), b),
    decreases b.len(),
{
    if b.len() == 0 {
        assert(a + b =~= a);
    } else {
        assert((a + b).drop_last() =~= a + b.drop_last());
        assert((a + b).last() == b.last());
        lemma_declare_all_append(scope, a, b.drop_last());
    }
}

/// What a statement does to the innermost scope: it declares there exactly the
/// names that the statement itself and the statements nested in it declare
/// outside any block, one after the other.
pub proof fn lemma_statement_declares_in_innermost_scope(m: AnalyzerModel, s: SpecStmt)
    requires
        m.scopes.len() >= 1,
    ensures
        stmt_analysis(m, s).scopes.last() == declare_all(m.scopes.last(), stmt_declarations(s)),
    decreases s,
{
    let none = Seq::<SpecSymbol>::empty();
    assert(declare_all(m.scopes.last(), none) == m.scopes.last());
    lemma_stmt_analysis_shape(m, s);
    match s {
        SpecStmt::Expr(e) => {},
        SpecStmt::Return(e) => {
            lemma_check_opt_expr(m, e);
        },
        SpecStmt::Block(stmts) => {
            lemma_block_keeps_scopes(m, stmts);
        },
        SpecStmt::If { condition, then_stmt, else_stmt } => {
            let m0 = report(m, expr_errors(m.scopes, condition));
            lemma_stmt_analysis_shape(m0, *then_stmt);
            lemma_statement_declares_in_innermost_scope(m0, *then_stmt);
            let m1 = stmt_analysis(m0, *then_stmt);
            match else_stmt {
                Some(e) => {
                    lemma_statement_declares_in_innermost_scope(m1, *e);
                    lemma_declare_all_append(
                        m.scopes.last(),
                        stmt_declarations(*then_stmt),
                        stmt_declarations(*e),
                    );
                },
                None => {
                    assert(stmt_declarations(*then_stmt) + none =~= stmt_declarations(
                        *then_stmt,
                    ));
                },
            }
        },
        SpecStmt::While { condition, body } => {
            let m0 = report(m, expr_errors(m.scopes, condition));
            lemma_statement_declares_in_innermost_scope(m0, *body);
        },
        SpecStmt::DoWhile { body, condition } => {
            lemma_statement_declares_in_innermost_scope(m, *body);
        },
        SpecStmt::For { init, condition, update, body } => {
            let m1 = match init {
                Some(i) => stmt_analysis(m, *i),
                None => m,
            };
            let d1 = match init {
                Some(i) => stmt_declarations(*i),
                None => none,
            };
            if let Some(i) = init {
                lemma_stmt_analysis_shape(m, *i);
                lemma_statement_declares_in_innermost_scope(m, *i);
            }
            assert(m1.scopes.last() == declare_all(m.scopes.last(), d1));
            let m2 = check_opt_expr(m1, condition);
            lemma_check_opt_expr(m1, condition);
            let m3 = match update {
                Some(u) => report(m2, expr_errors(m2.scopes, *u)),
                None => m2,
            };
            assert(m3.scopes == m1.scopes);
            lemma_statement_declares_in_innermost_scope(m3, *body);
            lemma_declare_all_append(m.scopes.last(), d1, stmt_declarations(*body));
        },
        SpecStmt::Break => {},
        SpecStmt::Continue => {},
        SpecStmt::Declaration { var_type, name, init } => {
            lemma_check_opt_expr(m, init);
            let sym = variable(name, var_type);
            assert(seq![sym].drop_last() =~= none);
        },
    }
}

/// An expression statement changes no scope and reports the errors found in its
/// expression (undeclared names, invalid assignments, calls of variables) after
/// those found before.
pub proof fn lemma_expression_statement(m: AnalyzerModel, e: SpecExpr)
    ensures
        stmt_analysis(m, SpecStmt::Expr(e)).scopes == m.scopes,
        stmt_analysis(m, SpecStmt::Expr(e)).current_function == m.current_function,
        stmt_analysis(m, SpecStmt::Expr(e)).errors == m.errors + expr_errors(m.scopes, e),
{
}

/// Whether the name `n` occurs anywhere in `e`.
pub open spec fn occurs_in(n: Seq<char>, e: SpecExpr) -> bool
    decreases e,
{
    match e {
        SpecExpr::Identifier(x) => x == n,
        SpecExpr::BinaryOp { op: _, left, right } => occurs_in(n, *left) || occurs_in(n, *right),
        SpecExpr::UnaryOp { op: _, operand } => occurs_in(n, *operand),
        SpecExpr::Assignment { left, right } => occurs_in(n, *left) || occurs_in(n, *right),
        SpecExpr::Call { func, args } => occurs_in(n, *func) || occurs_in_args(n, args),
        SpecExpr::Cast { target_type: _, expr } => occurs_in(n, *expr),
        _ => false,
    }
}

/// Whether the name `n` occurs anywhere in one of `args`.
pub open spec fn occurs_in_args(n: Seq<char>, args: Seq<SpecExpr>) -> bool
    decreases args,
{
    if args.len() == 0 {
        false
    } else {
        occurs_in_args(n, args.drop_last()) || occurs_in(n, args.last())
    }
}

/// Whether `e` holds, anywhere, an assignment whose target is neither a name
/// nor a dereference.
pub open spec fn assigns_to_non_lvalue(e: SpecExpr) -> bool
    decreases e,
{
    match e {
        SpecExpr::BinaryOp { op: _, left, right } => assigns_to_non_lvalue(*left)
            || assigns_to_non_lvalue(*right),
        SpecExpr::UnaryOp { op: _, operand } => assigns_to_non_lvalue(*operand),
        SpecExpr::Assignment { left, right } => {
            let target_ok = match *left {
                SpecExpr::Identifier(_) => true,
                SpecExpr::UnaryOp { op, operand: _ } => op == UnaryOp::Deref,
                _ => false,
            };
            !target_ok || assigns_to_non_lvalue(*left) || assigns_to_non_lvalue(*right)
        },
        SpecExpr::Call { func, args } => assigns_to_non_lvalue(*func)
            || args_assign_to_non_lvalue(args),
        SpecExpr::Cast { target_type: _, expr } => assigns_to_non_lvalue(*expr),
        _ => false,
    }
}

/// Whether one of `args` holds such an assignment.
pub open spec fn args_assign_to_non_lvalue(args: Seq<SpecExpr>) -> bool
    decreases args,
{
    if args.len() == 0 {
        false
    } else {
        args_assign_to_non_lvalue(args.drop_last()) || assigns_to_non_lvalue(args.last())
    }
}

/// Whether `e` holds, anywhere, a call of the name `n`.
pub open spec fn calls_name(n: Seq<char>, e: SpecExpr) -> bool
    decreases e,
{
    match e {
        SpecExpr::BinaryOp { op: _, left, right } => calls_name(n, *left) || calls_name(n, *right),
        SpecExpr::UnaryOp { op: _, operand } => calls_name(n, *operand),
        SpecExpr::Assignment { left, right } => calls_name(n, *left) || calls_name(n, *right),
        SpecExpr::Call { func, args } => *func == SpecExpr::Identifier(n) || calls_name(n, *func)
            || args_call_name(n, args),
        SpecExpr::Cast { target_type: _, expr } => calls_name(n, *expr),
        _ => false,
    }
}

/// Whether one of `args` holds a call of the name `n`.
pub open spec fn args_call_name(n: Seq<char>, args: Seq<SpecExpr>) -> bool
    decreases args,
{
    if args.len() == 0 {
        false
    } else {
        args_call_name(n, args.drop_last()) || calls_name(n, args.last())
    }
}

/// Whether `e` is free of faults: every name in it is declared, every call in it
/// calls a name declared as a function (or something other than a name), and every
/// assignment in it has a name or a dereference as target.
pub open spec fn expr_is_sound(scopes: Seq<Scope>, e: SpecExpr) -> bool {
    &&& forall|n: Seq<char>| #[trigger] occurs_in(n, e) ==> lookup(scopes, n) is Some
    &&& forall|n: Seq<char>| #[trigger] calls_name(n, e) ==> (lookup(scopes, n) matches Some(
        sym,
    ) && sym.is_function)
    &&& !assigns_to_non_lvalue(e)
}

proof fn lemma_contains_concat(a: Seq<Seq<char>>, b: Seq<Seq<char>>, x: Seq<char>)
    ensures
        a.contains(x) || b.contains(x) ==> (a + b).contains(x),
{
    if a.contains(x) {
        let i = choose|i: int| 0 <= i < a.len() && a[i] == x;
        assert((a + b)[i] == x);
    } else if b.contains(x) {
        let i = choose|i: int| 0 <= i < b.len() && b[i] == x;
        assert((a + b)[a.len() + i] == x);
    }
}

proof fn lemma_expr_reports(scopes: Seq<Scope>, e: SpecExpr, n: Seq<char>)
    ensures
        occurs_in(n, e) && lookup(scopes, n) is None ==> expr_errors(scopes, e).contains(
            undeclared_msg(n),
        ),
        assigns_to_non_lvalue(e) ==> expr_errors(scopes, e).contains(invalid_lvalue_msg()),
        calls_name(n, e) && (lookup(scopes, n) matches Some(sym) && !sym.is_function)
            ==> expr_errors(scopes, e).contains(not_function_msg(n)),
    decreases e,
{
    let errs = expr_errors(scopes, e);
    match e {
        SpecExpr::Identifier(x) => {
            if x == n {
                assert(errs.len() > 0 ==> errs[0] == undeclared_msg(n));
            }
        },
        SpecExpr::BinaryOp { op: _, left, right } => {
            lemma_expr_reports(scopes, *left, n);
            lemma_expr_reports(scopes, *right, n);
            let a = expr_errors(scopes, *left);
            let b = expr_errors(scopes, *right);
            lemma_contains_concat(a, b, undeclared_msg(n));
            lemma_contains_concat(a, b, invalid_lvalue_msg());
            lemma_contains_concat(a, b, not_function_msg(n));
        },
        SpecExpr::UnaryOp { op: _, operand } => {
            lemma_expr_reports(scopes, *operand, n);
        },
        SpecExpr::Assignment { left, right } => {
            lemma_expr_reports(scopes, *left, n);
            lemma_expr_reports(scopes, *right, n);
            let a = expr_errors(scopes, *left);
            let b = expr_errors(scopes, *right);
            let c: Seq<Seq<char>> = if is_lvalue(*left) {
                seq![]
            } else {
                seq![invalid_lvalue_msg()]
            };
            lemma_contains_concat(a, b, undeclared_msg(n));
            lemma_contains_concat(a, b, invalid_lvalue_msg());
            lemma_contains_concat(a, b, not_function_msg(n));
            lemma_contains_concat(a + b, c, undeclared_msg(n));
            lemma_contains_concat(a + b, c, invalid_lvalue_msg());
            lemma_contains_concat(a + b, c, not_function_msg(n));
            if !is_lvalue(*left) {
                assert(c[0] == invalid_lvalue_msg());
            }
        },
        SpecExpr::Call { func, args } => {
            lemma_expr_reports(scopes, *func, n);
            lemma_args_reports(scopes, args, n);
            let a = expr_errors(scopes, *func);
            let b = args_errors(scopes, args);
            let c: Seq<Seq<char>> = match *func {
                SpecExpr::Identifier(name) => match lookup(scopes, name) {
                    Some(sym) => if sym.is_function {
                        seq![]
                    } else {
                        seq![not_function_msg(name)]
                    },
                    None => seq![],
                },
                _ => seq![],
            };
            assert(errs == a + b + c);
            lemma_contains_concat(a, b, undeclared_msg(n));
            lemma_contains_concat(a, b, invalid_lvalue_msg());
            lemma_contains_concat(a, b, not_function_msg(n));
            lemma_contains_concat(a + b, c, undeclared_msg(n));
            lemma_contains_concat(a + b, c, invalid_lvalue_msg());
            lemma_contains_concat(a + b, c, not_function_msg(n));
            if *func == SpecExpr::Identifier(n) && (lookup(scopes, n) matches Some(sym)
                && !sym.is_function) {
                assert(c[0] == not_function_msg(n));
            }
        },
        SpecExpr::Cast { target_type: _, expr } => {
            lemma_expr_reports(scopes, *expr, n);
        },
        _ => {},
    }
}

proof fn lemma_args_reports(scopes: Seq<Scope>, args: Seq<SpecExpr>, n: Seq<char>)
    ensures
        occurs_in_args(n, args) && lookup(scopes, n) is None ==> args_errors(
            scopes,
            args,
        ).contains(undeclared_msg(n)),
        args_assign_to_non_lvalue(args) ==> args_errors(scopes, args).contains(
            invalid_lvalue_msg(),
        ),
        args_call_name(n, args) && (lookup(scopes, n) matches Some(sym) && !sym.is_function)
            ==> args_errors(scopes, args).contains(not_function_msg(n)),
    decreases args,
{
    if args.len() > 0 {
        lemma_args_reports(scopes, args.drop_last(), n);
        lemma_expr_reports(scopes, args.last(), n);
        let a = args_errors(scopes, args.drop_last());
        let b = expr_errors(scopes, args.last());
        lemma_contains_concat(a, b, undeclared_msg(n));
        lemma_contains_concat(a, b, invalid_lvalue_msg());
        lemma_contains_concat(a, b, not_function_msg(n));
    }
}

proof fn lemma_sound_expr_no_errors(scopes: Seq<Scope>, e: SpecExpr)
    requires
        expr_is_sound(scopes, e),
    ensures
        expr_errors(scopes, e) == Seq::<Seq<char>>::empty(),
    decreases e,
{
    match e {
        SpecExpr::Identifier(x) => {
            assert(occurs_in(x, e));
        },
        SpecExpr::BinaryOp { op: _, left, right } => {
            assert forall|n: Seq<char>| #[trigger] occurs_in(n, *left) implies lookup(scopes, n) is Some by {
                assert(occurs_in(n, e));
            }
            assert forall|n: Seq<char>| #[trigger] calls_name(n, *left) implies (lookup(scopes, n) matches Some(sym) && sym.is_function) by {
                assert(calls_name(n, e));
            }
            assert forall|n: Seq<char>| #[trigger] occurs_in(n, *right) implies lookup(scopes, n) is Some by {
                assert(occurs_in(n, e));
            }
            assert forall|n: Seq<char>| #[trigger] calls_name(n, *right) implies (lookup(scopes, n) matches Some(sym) && sym.is_function) by {
                assert(calls_name(n, e));
            }
            lemma_sound_expr_no_errors(scopes, *left);
            lemma_sound_expr_no_errors(scopes, *right);
            assert(expr_errors(scopes, e) =~= Seq::<Seq<char>>::empty());
        },
        SpecExpr::UnaryOp { op: _, operand } => {
            assert forall|n: Seq<char>| #[trigger] occurs_in(n, *operand) implies lookup(scopes, n) is Some by {
                assert(occurs_in(n, e));
            }
            assert forall|n: Seq<char>| #[trigger] calls_name(n, *operand) implies (lookup(scopes, n) matches Some(sym) && sym.is_function) by {
                assert(calls_name(n, e));
            }
            lemma_sound_expr_no_errors(scopes, *operand);
        },
        SpecExpr::Assignment { left, right } => {
            assert forall|n: Seq<char>| #[trigger] occurs_in(n, *left) implies lookup(scopes, n) is Some by {
                assert(occurs_in(n, e));
            }
            assert forall|n: Seq<char>| #[trigger] calls_name(n, *left) implies (lookup(scopes, n) matches Some(sym) && sym.is_function) by {
                assert(calls_name(n, e));
            }
            assert forall|n: Seq<char>| #[trigger] occurs_in(n, *right) implies lookup(scopes, n) is Some by {
                assert(occurs_in(n, e));
            }
            assert forall|n: Seq<char>| #[trigger] calls_name(n, *right) implies (lookup(scopes, n) matches Some(sym) && sym.is_function) by {
                assert(calls_name(n, e));
            }
            lemma_sound_expr_no_errors(scopes, *left);
            lemma_sound_expr_no_errors(scopes, *right);
            assert(is_lvalue(*left));
            assert(expr_errors(scopes, e) =~= Seq::<Seq<char>>::empty());
        },
        SpecExpr::Call { func, args } => {
            assert forall|n: Seq<char>| #[trigger] occurs_in(n, *func) implies lookup(scopes, n) is Some by {
                assert(occurs_in(n, e));
            }
            assert forall|n: Seq<char>| #[trigger] calls_name(n, *func) implies (lookup(scopes, n) matches Some(sym) && sym.is_function) by {
                assert(calls_name(n, e));
            }
            assert forall|n: Seq<char>| #[trigger] occurs_in_args(n, args) implies lookup(scopes, n) is Some by {
                assert(occurs_in(n, e));
            }
            assert forall|n: Seq<char>| #[trigger] args_call_name(n, args) implies (lookup(scopes, n) matches Some(sym) && sym.is_function) by {
                assert(calls_name(n, e));
            }
            lemma_sound_expr_no_errors(scopes, *func);
            lemma_sound_args_no_errors(scopes, args);
            if let SpecExpr::Identifier(name) = *func {
                assert(calls_name(name, e));
                assert(occurs_in(name, *func));
            }
            assert(expr_errors(scopes, e) =~= Seq::<Seq<char>>::empty());
        },
        SpecExpr::Cast { target_type: _, expr } => {
            assert forall|n: Seq<char>| #[trigger] occurs_in(n, *expr) implies lookup(scopes, n) is Some by {
                assert(occurs_in(n, e));
            }
            assert forall|n: Seq<char>| #[trigger] calls_name(n, *expr) implies (lookup(scopes, n) matches Some(sym) && sym.is_function) by {
                assert(calls_name(n, e));
            }
            lemma_sound_expr_no_errors(scopes, *expr);
        },
        _ => {},
    }
}

proof fn lemma_sound_args_no_errors(scopes: Seq<Scope>, args: Seq<SpecExpr>)
    requires
        forall|n: Seq<char>| #[trigger] occurs_in_args(n, args) ==> lookup(scopes, n) is Some,
        forall|n: Seq<char>| #[trigger] args_call_name(n, args) ==> (lookup(scopes, n) matches Some(
            sym,
        ) && sym.is_function),
        !args_assign_to_non_lvalue(args),
    ensures
        args_errors(scopes, args) == Seq::<Seq<char>>::empty(),
    decreases args,
{
    if args.len() > 0 {
        let init = args.drop_last();
        let last = args.last();
        assert forall|n: Seq<char>| #[trigger] occurs_in_args(n, init) implies lookup(scopes, n) is Some by {
            assert(occurs_in_args(n, args));
        }
        assert forall|n: Seq<char>| #[trigger] args_call_name(n, init) implies (lookup(scopes, n) matches Some(sym) && sym.is_function) by {
            assert(args_call_name(n, args));
        }
        assert forall|n: Seq<char>| #[trigger] occurs_in(n, last) implies lookup(scopes, n) is Some by {
            assert(occurs_in_args(n, args));
        }
        assert forall|n: Seq<char>| #[trigger] calls_name(n, last) implies (lookup(scopes, n) matches Some(sym) && sym.is_function) by {
            assert(args_call_name(n, args));
        }
        lemma_sound_args_no_errors(scopes, init);
        lemma_sound_expr_no_errors(scopes, last);
        assert(args_errors(scopes, args) =~= Seq::<Seq<char>>::empty());
    }
}

/// What checking an expression reports: every name occurring anywhere in it (under
/// any operator, in any argument) that no scope declares is reported as
/// undeclared; an assignment anywhere in it whose target is neither a name nor a
/// dereference is reported; a call anywhere in it of a name declared as a variable
/// is reported; and nothing at all is reported exactly when it has none of these
/// faults.
pub proof fn lemma_expression_errors_find_every_fault(scopes: Seq<Scope>, e: SpecExpr, n: Seq<char>)
    ensures
        occurs_in(n, e) && lookup(scopes, n) is None ==> expr_errors(scopes, e).contains(
            undeclared_msg(n),
        ),
        assigns_to_non_lvalue(e) ==> expr_errors(scopes, e).contains(invalid_lvalue_msg()),
        calls_name(n, e) && (lookup(scopes, n) matches Some(sym) && !sym.is_function)
            ==> expr_errors(scopes, e).contains(not_function_msg(n)),
        expr_errors(scopes, e).len() == 0 <==> expr_is_sound(scopes, e),
{
    lemma_expr_reports(scopes, e, n);
    if expr_is_sound(scopes, e) {
        lemma_sound_expr_no_errors(scopes, e);
    } else {
        if !(forall|x: Seq<char>| #[trigger] occurs_in(x, e) ==> lookup(scopes, x) is Some) {
            let x = choose|x: Seq<char>| occurs_in(x, e) && !(lookup(scopes, x) is Some);
            lemma_expr_reports(scopes, e, x);
        } else if !(forall|x: Seq<char>| #[trigger] calls_name(x, e) ==> (lookup(scopes, x) matches Some(sym) && sym.is_function)) {
            let x = choose|x: Seq<char>| calls_name(x, e) && !(lookup(scopes, x) matches Some(sym) && sym.is_function);
            lemma_expr_reports(scopes, e, x);
            assert(occurs_in(x, e)) by {
                lemma_calls_are_occurrences(x, e);
            }
        }
    }
}

proof fn lemma_calls_are_occurrences(n: Seq<char>, e: SpecExpr)
    ensures
        calls_name(n, e) ==> occurs_in(n, e),
    decreases e,
{
    match e {
        SpecExpr::BinaryOp { op: _, left, right } => {
            lemma_calls_are_occurrences(n, *left);
            lemma_calls_are_occurrences(n, *right);
        },
        SpecExpr::UnaryOp { op: _, operand } => {
            lemma_calls_are_occurrences(n, *operand);
        },
        SpecExpr::Assignment { left, right } => {
            lemma_calls_are_occurrences(n, *left);
            lemma_calls_are_occurrences(n, *right);
        },
        SpecExpr::Call { func, args } => {
            lemma_calls_are_occurrences(n, *func);
            lemma_args_calls_are_occurrences(n, args);
            if *func == SpecExpr::Identifier(n) {
                assert(occurs_in(n, *func));
            }
        },
        SpecExpr::Cast { target_type: _, expr } => {
            lemma_calls_are_occurrences(n, *expr);
        },
        _ => {},
    }
}

proof fn lemma_args_calls_are_occurrences(n: Seq<char>, args: Seq<SpecExpr>)
    ensures
        args_call_name(n, args) ==> occurs_in_args(n, args),
    decreases args,
{
    if args.len() > 0 {
        lemma_args_calls_are_occurrences(n, args.drop_last());
        lemma_calls_are_occurrences(n, args.last());
    }
}

proof fn lemma_declare_shape(m: AnalyzerModel, sym: SpecSymbol)
    requires
        m.scopes.len() >= 1,
    ensures
        same_outer_scopes(m, declare(m, sym)),
        declare(m, sym).errors == m.errors,
{
    assert(declare(m, sym).scopes.drop_last() =~= m.scopes.drop_last());
}

proof fn lemma_declare_functions_shape(m: AnalyzerModel, fs: Seq<SpecFunction>)
    requires
        m.scopes.len() >= 1,
    ensures
        declare_functions(m, fs).scopes.len() == m.scopes.len(),
        declare_functions(m, fs).errors == m.errors,
    decreases fs.len(),
{
    if fs.len() > 0 {
        lemma_declare_functions_shape(m, fs.drop_last());
        lemma_declare_shape(declare_functions(m, fs.drop_last()), function_symbol(fs.last()));
    }
}

proof fn lemma_declare_globals_shape(
    m: AnalyzerModel,
    gs: Seq<(Type, Seq<char>, Option<SpecExpr>)>,
)
    requires
        m.scopes.len() >= 1,
    ensures
        declare_globals(m, gs).scopes.len() == m.scopes.len(),
        declare_globals(m, gs).errors == m.errors,
    decreases gs.len(),
{
    if gs.len() > 0 {
        lemma_declare_globals_shape(m, gs.drop_last());
        let g = gs.last();
        lemma_declare_shape(declare_globals(m, gs.drop_last()), variable(g.1, g.0));
    }
}

proof fn lemma_declare_params_shape(m: AnalyzerModel, ps: Seq<(Type, Seq<char>)>)
    requires
        m.scopes.len() >= 1,
    ensures
        declare_params(m, ps).scopes.len() == m.scopes.len(),
        declare_params(m, ps).errors == m.errors,
    decreases ps.len(),
{
    if ps.len() > 0 {
        lemma_declare_params_shape(m, ps.drop_last());
        let q = ps.last();
        lemma_declare_shape(declare_params(m, ps.drop_last()), variable(q.1, q.0));
    }
}

proof fn lemma_functions_analysis_shape(m: AnalyzerModel, fs: Seq<SpecFunction>)
    requires
        m.scopes.len() >= 1,
    ensures
        functions_analysis(m, fs).scopes.len() == m.scopes.len(),
        keeps_errors(m, functions_analysis(m, fs)),
    decreases fs.len(),
{
    if fs.len() == 0 {
        assert(m.errors.take(m.errors.len() as int) =~= m.errors);
    } else {
        lemma_functions_analysis_shape(m, fs.drop_last());
        let m1 = functions_analysis(m, fs.drop_last());
        let f = fs.last();
        let m2 = open_scope(AnalyzerModel { current_function: Some(f.name), ..m1 });
        lemma_declare_params_shape(m2, f.params);
        let m3 = declare_params(m2, f.params);
        lemma_stmt_analysis_shape(m3, f.body);
        lemma_keeps_errors_trans(m, m1, stmt_analysis(m3, f.body));
    }
}

/// A statement checks its own expressions: a `return` reports the errors of its
/// value; a declaration reports those of its initializer, checked before the name
/// is declared (so `int a = a;` refers to an outer `a`); and the errors of an `if`
/// or `while` condition come right after those found before, ahead of any found
/// in its branches or body.
pub proof fn lemma_statement_checks_its_expressions(m: AnalyzerModel, s: SpecStmt)
    requires
        m.scopes.len() >= 1,
    ensures
        s matches SpecStmt::Return(Some(e)) ==> stmt_analysis(m, s).errors == m.errors
            + expr_errors(m.scopes, e),
        s matches SpecStmt::Declaration { var_type: _, name: _, init: Some(e) } ==> stmt_analysis(
            m,
            s,
        ).errors == m.errors + expr_errors(m.scopes, e),
        s matches SpecStmt::If { condition, then_stmt: _, else_stmt: _ } ==> stmt_analysis(
            m,
            s,
        ).errors.take((m.errors + expr_errors(m.scopes, condition)).len() as int) == m.errors
            + expr_errors(m.scopes, condition),
        s matches SpecStmt::While { condition, body: _ } ==> stmt_analysis(m, s).errors.take(
            (m.errors + expr_errors(m.scopes, condition)).len() as int,
        ) == m.errors + expr_errors(m.scopes, condition),
{
    match s {
        SpecStmt::If { condition, then_stmt, else_stmt } => {
            let m0 = report(m, expr_errors(m.scopes, condition));
            lemma_stmt_analysis_shape(m0, *then_stmt);
            let m1 = stmt_analysis(m0, *then_stmt);
            if let Some(e) = else_stmt {
                lemma_stmt_analysis_shape(m1, *e);
                lemma_keeps_errors_trans(m0, m1, stmt_analysis(m1, *e));
            }
        },
        SpecStmt::While { condition, body } => {
            let m0 = report(m, expr_errors(m.scopes, condition));
            lemma_stmt_analysis_shape(m0, *body);
        },
        _ => {},
    }
}

/// After a function's parameters are declared, each of them is visible as a
/// variable of its type, unless a later parameter has the same name.
pub proof fn lemma_parameters_visible(m: AnalyzerModel, ps: Seq<(Type, Seq<char>)>, i: int)
    requires
        m.scopes.len() >= 1,
        0 <= i < ps.len(),
        forall|j: int| i < j < ps.len() ==> (#[trigger] ps[j]).1 != ps[i].1,
    ensures
        lookup(declare_params(m, ps).scopes, ps[i].1) == Some(variable(ps[i].1, ps[i].0)),
    decreases ps.len(),
{
    let init = ps.drop_last();
    lemma_declare_params_shape(m, init);
    let m1 = declare_params(m, init);
    let q = ps.last();
    lemma_lookup_after_declare(m1, variable(q.1, q.0), ps[i].1);
    if i < ps.len() - 1 {
        assert(init[i] == ps[i]);
        assert forall|j: int| i < j < init.len() implies (#[trigger] init[j]).1 != init[i].1 by {
            assert(init[j] == ps[j]);
        }
        lemma_parameters_visible(m, init, i);
        assert(ps[ps.len() - 1].1 != ps[i].1);
    }
}

/// After the functions are declared, each of them is visible as a function with
/// its return type and parameters, unless a later function has the same name.
pub proof fn lemma_functions_visible(m: AnalyzerModel, fs: Seq<SpecFunction>, i: int)
    requires
        m.scopes.len() >= 1,
        0 <= i < fs.len(),
        forall|j: int| i < j < fs.len() ==> (#[trigger] fs[j]).name != fs[i].name,
    ensures
        lookup(declare_functions(m, fs).scopes, fs[i].name) == Some(
            SpecSymbol {
                name: fs[i].name,
                var_type: fs[i].return_type,
                is_function: true,
                params: fs[i].params,
            },
        ),
    decreases fs.len(),
{
    let init = fs.drop_last();
    lemma_declare_functions_shape(m, init);
    let m1 = declare_functions(m, init);
    lemma_lookup_after_declare(m1, function_symbol(fs.last()), fs[i].name);
    if i < fs.len() - 1 {
        assert(init[i] == fs[i]);
        assert forall|j: int| i < j < init.len() implies (#[trigger] init[j]).name != init[i].name by {
            assert(init[j] == fs[j]);
        }
        lemma_functions_visible(m, init, i);
        assert(fs[fs.len() - 1].name != fs[i].name);
    }
}

/// After the global variables are declared, each of them is visible as a
/// variable of its type, unless a later global has the same name.
pub proof fn lemma_globals_visible(
    m: AnalyzerModel,
    gs: Seq<(Type, Seq<char>, Option<SpecExpr>)>,
    i: int,
)
    requires
        m.scopes.len() >= 1,
        0 <= i < gs.len(),
        forall|j: int| i < j < gs.len() ==> (#[trigger] gs[j]).1 != gs[i].1,
    ensures
        lookup(declare_globals(m, gs).scopes, gs[i].1) == Some(variable(gs[i].1, gs[i].0)),
    decreases gs.len(),
{
    let init = gs.drop_last();
    lemma_declare_globals_shape(m, init);
    let m1 = declare_globals(m, init);
    let g = gs.last();
    lemma_lookup_after_declare(m1, variable(g.1, g.0), gs[i].1);
    if i < gs.len() - 1 {
        assert(init[i] == gs[i]);
        assert forall|j: int| i < j < init.len() implies (#[trigger] init[j]).1 != init[i].1 by {
            assert(init[j] == gs[j]);
        }
        lemma_globals_visible(m, init, i);
        assert(gs[gs.len() - 1].1 != gs[i].1);
    }
}

/// A program's analysis leaves as many scopes as it found, and it only adds
/// errors: those found before (by an earlier analysis on the same analyzer)
/// come first in its report.
pub proof fn lemma_program_analysis_accumulates(m: AnalyzerModel, p: SpecProgram)
    requires
        m.scopes.len() >= 1,
    ensures
        program_analysis(m, p).scopes.len() == m.scopes.len(),
        keeps_errors(m, program_analysis(m, p)),
{
    lemma_declare_functions_shape(m, p.functions);
    let m1 = declare_functions(m, p.functions);
    lemma_declare_globals_shape(m1, p.global_declarations);
    let m2 = declare_globals(m1, p.global_declarations);
    lemma_functions_analysis_shape(m2, p.functions);
    assert(m.errors.take(m.errors.len() as int) =~= m.errors);
    lemma_keeps_errors_trans(m, m2, functions_analysis(m2, p.functions));
}

/// The messages of a vector, as values.
pub open spec fn errors_view(v: Seq<String>) -> Seq<Seq<char>> {
    Seq::new(v.len(), |i: int| v[i]@)
}

/// The scopes of a symbol table, as values.
pub open spec fn scopes_view(t: Seq<Vec<Symbol>>) -> Seq<Scope> {
    Seq::new(t.len(), |i: int| scope_of(t[i]@))
}

/// The result of an analysis, as a value.
pub open spec fn verdict_view(r: Result<(), Vec<String>>) -> Result<(), Seq<Seq<char>>> {
    match r {
        Ok(()) => Ok(()),
        Err(v) => Err(errors_view(v@)),
    }
}

/// The analyzer: a stack of scopes (the global one first), the function being
/// analyzed, and the errors found so far.
pub struct SemanticAnalyzer {
    symbol_table: Vec<Vec<Symbol>>,
    current_function: Option<String>,
    errors: Vec<String>,
}

impl View for SemanticAnalyzer {
    type V = AnalyzerModel;

    closed spec fn view(&self) -> AnalyzerModel {
        AnalyzerModel {
            scopes: scopes_view(self.symbol_table@),
            current_function: match self.current_function {
                Some(s) => Some(s@),
                None => None,
            },
            errors: errors_view(self.errors@),
        }
    }
}

/// The symbol of a variable declaration.
fn variable_symbol(name: &String, var_type: &Type) -> (r: Symbol)
    ensures
        r@ == variable(name@, *var_type),
{
    let r = Symbol {
        name: name.clone(),
        var_type: var_type.clone(),
        is_function: false,
        params: Vec::new(),
    };
    assert(r@.params =~= seq![]);
    r
}

/// A copy of a parameter list.
fn copy_params(p: &Vec<(Type, String)>) -> (r: Vec<(Type, String)>)
    ensures
        params_model(r@) == params_model(p@),
{
    let mut r: Vec<(Type, String)> = Vec::new();
    let mut i: usize = 0;
    while i < p.len()
        invariant
            i <= p@.len(),
            r@.len() == i,
            forall|j: int| 0 <= j < i ==> #[trigger] r@[j].0 == p@[j].0 && r@[j].1@ == p@[j].1@,
        decreases p@.len() - i,
    {
        r.push((p[i].0.clone(), p[i].1.clone()));
        i = i + 1;
    }
    assert(params_model(r@) =~= params_model(p@));
    r
}

/// A copy of a list of messages.
fn copy_messages(v: &Vec<String>) -> (r: Vec<String>)
    ensures
        errors_view(r@) == errors_view(v@),
{
    let mut r: Vec<String> = Vec::new();
    let mut i: usize = 0;
    while i < v.len()
        invariant
            i <= v@.len(),
            r@.len() == i,
            forall|j: int| 0 <= j < i ==> #[trigger] r@[j]@ == v@[j]@,
        decreases v@.len() - i,
    {
        r.push(v[i].clone());
        i = i + 1;
    }
    assert(errors_view(r@) =~= errors_view(v@));
    r
}

impl SemanticAnalyzer {
    /// There is always at least the global scope.
    pub open spec fn wf(&self) -> bool {
        self@.scopes.len() >= 1
    }

    /// An analyzer with one empty (global) scope and no errors.
    pub fn new() -> (r: Self)
        ensures
            r.wf(),
            r@ == initial_model(),
    {
        let mut table: Vec<Vec<Symbol>> = Vec::new();
        table.push(Vec::new());
        let r = SemanticAnalyzer { symbol_table: table, current_function: None, errors: Vec::new() };
        assert(r@.scopes =~= seq![Map::<Seq<char>, SpecSymbol>::empty()]);
        assert(r@.errors =~= Seq::<Seq<char>>::empty());
        r
    }

    /// Analyzes a program: declares its functions and global variables, then
    /// checks every function body. Gives success when no error has been found
    /// (by this call or an earlier one on the same analyzer), else all of them.
    pub fn analyze(&mut self, program: &Program) -> (r: Result<(), Vec<String>>)
        requires
            old(self).wf(),
        ensures
            final(self).wf(),
            final(self)@ == program_analysis(old(self)@, program@),
            verdict_view(r) == verdict(final(self)@),
    {
        let ghost m0 = self@;
        let ghost p = program@;
        // First pass: declare all functions and global variables.
        let mut i: usize = 0;
        while i < program.functions.len()
            invariant
                self.wf(),
                p == program@,
                i <= program.functions@.len(),
                p.functions.len() == program.functions@.len(),
                self@ == declare_functions(m0, p.functions.take(i as int)),
            decreases program.functions@.len() - i,
        {
            let func = &program.functions[i];
            self.add_symbol(
                Symbol {
                    name: func.name.clone(),
                    var_type: func.return_type.clone(),
                    is_function: true,
                    params: copy_params(&func.params),
                },
            );
            assert(p.functions.take(i + 1).drop_last() =~= p.functions.take(i as int));
            i = i + 1;
        }
        assert(p.functions.take(p.functions.len() as int) =~= p.functions);
        let ghost m1 = self@;
        let mut i: usize = 0;
        while i < program.global_declarations.len()
            invariant
                self.wf(),
                p == program@,
                m1 == declare_functions(m0, p.functions),
                i <= program.global_declarations@.len(),
                p.global_declarations.len() == program.global_declarations@.len(),
                self@ == declare_globals(m1, p.global_declarations.take(i as int)),
            decreases program.global_declarations@.len() - i,
        {
            let (var_type, name, _) = &program.global_declarations[i];
            self.add_symbol(variable_symbol(name, var_type));
            assert(p.global_declarations.take(i + 1).drop_last() =~= p.global_declarations.take(
                i as int,
            ));
            i = i + 1;
        }
        assert(p.global_declarations.take(p.global_declarations.len() as int)
            =~= p.global_declarations);
        let ghost m2 = self@;
        // Second pass: analyze the function bodies.
        let mut i: usize = 0;
        while i < program.functions.len()
            invariant
                self.wf(),
                p == program@,
                m2 == declare_globals(declare_functions(m0, p.functions), p.global_declarations),
                i <= program.functions@.len(),
                p.functions.len() == program.functions@.len(),
                self@ == functions_analysis(m2, p.functions.take(i as int)),
            decreases program.functions@.len() - i,
        {
            let func = &program.functions[i];
            let ghost f = p.functions[i as int];
            assert(f == func@);
            self.current_function = Some(func.name.clone());
            self.enter_scope();
            let ghost opened = self@;
            let mut j: usize = 0;
            while j < func.params.len()
                invariant
                    self.wf(),
                    f == func@,
                    j <= func.params@.len(),
                    f.params.len() == func.params@.len(),
                    self@ == declare_params(opened, f.params.take(j as int)),
                    self@.scopes.len() == opened.scopes.len(),
                decreases func.params@.len() - j,
            {
                let (param_type, param_name) = &func.params[j];
                self.add_symbol(variable_symbol(param_name, param_type));
                assert(f.params.take(j + 1).drop_last() =~= f.params.take(j as int));
                j = j + 1;
            }
            assert(f.params.take(f.params.len() as int) =~= f.params);
            self.analyze_statement(&func.body)?;
            self.exit_scope();
            assert(p.functions.take(i + 1).drop_last() =~= p.functions.take(i as int));
            i = i + 1;
        }
        assert(p.functions.take(p.functions.len() as int) =~= p.functions);
        if self.errors.len() == 0 {
            Ok(())
        } else {
            Err(copy_messages(&self.errors))
        }
    }

    fn add_symbol(&mut self, symbol: Symbol)
        requires
            old(self).wf(),
        ensures
            final(self).wf(),
            final(self)@ == declare(old(self)@, symbol@),
    {
        let ghost sv = symbol@;
        let mut scope = self.symbol_table.pop().unwrap();
        let ghost before = scope@;
        scope.push(symbol);
        assert(scope@.drop_last() =~= before);
        self.symbol_table.push(scope);
        assert(self@.scopes =~= old(self)@.scopes.update(
            old(self)@.scopes.len() - 1,
            old(self)@.scopes.last().insert(sv.name, sv),
        ));
    }

    fn lookup_symbol(&self, name: &String) -> (r: Option<&Symbol>)
        ensures
            match r {
                Some(s) => lookup(self@.scopes, name@) == Some(s@),
                None => lookup(self@.scopes, name@) is None,
            },
    {
        let ghost scopes = self@.scopes;
        let mut i: usize = self.symbol_table.len();
        assert(scopes.take(i as int) =~= scopes);
        while i > 0
            invariant
                i <= self.symbol_table@.len(),
                scopes == self@.scopes,
                lookup(scopes, name@) == lookup(scopes.take(i as int), name@),
            decreases i,
        {
            i = i - 1;
            assert(scopes.take(i + 1).drop_last() =~= scopes.take(i as int));
            let scope = &self.symbol_table[i];
            let ghost sc = scope@;
            assert(scopes[i as int] == scope_of(sc));
            let mut j: usize = scope.len();
            assert(sc.take(j as int) =~= sc);
            while j > 0
                invariant
                    j <= sc.len(),
                    sc == scope@,
                    scopes == self@.scopes,
                    i < scopes.len(),
                    scopes[i as int] == scope_of(sc),
                    lookup(scopes, name@) == lookup(scopes.take(i + 1), name@),
                    scope_of(sc).contains_key(name@) == scope_of(sc.take(j as int)).contains_key(
                        name@,
                    ),
                    scope_of(sc.take(j as int)).contains_key(name@) ==> scope_of(sc)[name@]
                        == scope_of(sc.take(j as int))[name@],
                decreases j,
            {
                j = j - 1;
                assert(sc.take(j + 1).drop_last() =~= sc.take(j as int));
                assert(sc.take(j + 1).last() == sc[j as int]);
                if scope[j].name == *name {
                    assert(scopes.take(i + 1).last() == scope_of(sc));
                    return Some(&scope[j]);
                }
            }
            assert(sc.take(0) =~= Seq::<Symbol>::empty());
            assert(scopes.take(i + 1).last() == scope_of(sc));
        }
        assert(scopes.take(0) =~= Seq::<Scope>::empty());
        None
    }

    fn enter_scope(&mut self)
        requires
            old(self).wf(),
        ensures
            final(self).wf(),
            final(self)@ == open_scope(old(self)@),
    {
        self.symbol_table.push(Vec::new());
        assert(self@.scopes =~= old(self)@.scopes.push(Map::empty()));
    }

    fn exit_scope(&mut self)
        requires
            old(self)@.scopes.len() >= 2,
        ensures
            final(self).wf(),
            final(self)@ == close_scope(old(self)@),
    {
        self.symbol_table.pop();
        assert(self@.scopes =~= old(self)@.scopes.drop_last());
    }

    #[verifier::loop_isolation(false)]
    fn analyze_statement(&mut self, stmt: &Stmt) -> (r: Result<(), Vec<String>>)
        requires
            old(self).wf(),
        ensures
            final(self).wf(),
            r is Ok,
            final(self)@ == stmt_analysis(old(self)@, stmt@),
            final(self)@.scopes.len() == old(self)@.scopes.len(),
        decreases stmt,
    {
        match stmt {
            Stmt::Expr(expr) => {
                self.analyze_expression(expr)?;
            },
            Stmt::Return(opt_expr) => {
                if let Some(expr) = opt_expr {
                    self.analyze_expression(expr)?;
                }
            },
            Stmt::Block(statements) => {
                self.enter_scope();
                let ghost opened = self@;
                let ghost ss = stmt@->Block_0;
                let mut i: usize = 0;
                while i < statements.len()
                    invariant
                        self.wf(),
                        i <= statements@.len(),
                        ss.len() == statements@.len(),
                        self@ == stmts_analysis(opened, ss.take(i as int)),
                        self@.scopes.len() == opened.scopes.len(),
                    decreases statements@.len() - i,
                {
                    assert(ss[i as int] == statements@[i as int]@);
                    self.analyze_statement(&statements[i])?;
                    assert(ss.take(i + 1).drop_last() =~= ss.take(i as int));
                    i = i + 1;
                }
                assert(ss.take(ss.len() as int) =~= ss);
                self.exit_scope();
            },
            Stmt::If { condition, then_stmt, else_stmt } => {
                self.analyze_expression(condition)?;
                self.analyze_statement(then_stmt)?;
                if let Some(else_s) = else_stmt {
                    self.analyze_statement(else_s)?;
                }
            },
            Stmt::While { condition, body } => {
                self.analyze_expression(condition)?;
                self.analyze_statement(body)?;
            },
            Stmt::DoWhile { body, condition } => {
                self.analyze_statement(body)?;
                self.analyze_expression(condition)?;
            },
            Stmt::For { init, condition, update, body } => {
                if let Some(init_stmt) = init {
                    self.analyze_statement(init_stmt)?;
                }
                if let Some(cond_expr) = condition {
                    self.analyze_expression(cond_expr)?;
                }
                if let Some(update_expr) = update {
                    self.analyze_expression(update_expr)?;
                }
                self.analyze_statement(body)?;
            },
            Stmt::Break => {},
            Stmt::Continue => {},
            Stmt::Declaration { var_type, name, init } => {
                if let Some(init_expr) = init {
                    self.analyze_expression(init_expr)?;
                }
                self.add_symbol(variable_symbol(name, var_type));
            },
        }
        Ok(())
    }

    /// Records one error.
    fn push_error(&mut self, message: String)
        ensures
            final(self).symbol_table == old(self).symbol_table,
            final(self).current_function == old(self).current_function,
            final(self)@ == report(old(self)@, seq![message@]),
    {
        let ghost mv = message@;
        self.errors.push(message);
        assert(self@.errors =~= old(self)@.errors + seq![mv]);
    }

    #[verifier::loop_isolation(false)]
    fn analyze_expression(&mut self, expr: &Expr) -> (r: Result<(), Vec<String>>)
        requires
            old(self).wf(),
        ensures
            final(self).wf(),
            r is Ok,
            final(self)@ == report(old(self)@, expr_errors(old(self)@.scopes, expr@)),
        decreases expr,
    {
        let ghost m0 = self@;
        match expr {
            Expr::IntConst(_) => {},
            Expr::CharConst(_) => {},
            Expr::StringConst(_) => {},
            Expr::Identifier(name) => {
                if self.lookup_symbol(name).is_none() {
                    let mut m = String::from_str("Undeclared identifier: ");
                    push_str(&mut m, name.as_str());
                    self.push_error(m);
                }
            },
            Expr::BinaryOp { op: _, left, right } => {
                self.analyze_expression(left)?;
                self.analyze_expression(right)?;
            },
            Expr::UnaryOp { op: _, operand } => {
                self.analyze_expression(operand)?;
            },
            Expr::Assignment { left, right } => {
                self.analyze_expression(left)?;
                self.analyze_expression(right)?;
                // Only a name or a dereference can be assigned to.
                match &**left {
                    Expr::Identifier(_) => {},
                    Expr::UnaryOp { op: UnaryOp::Deref, .. } => {},
                    _ => {
                        self.push_error(String::from_str("Invalid lvalue in assignment"));
                    },
                }
            },
            Expr::Call { func, args } => {
                self.analyze_expression(func)?;
                let ghost after_func = self@;
                let ghost avs = expr@->args;
                let mut i: usize = 0;
                while i < args.len()
                    invariant
                        self.wf(),
                        i <= args@.len(),
                        avs.len() == args@.len(),
                        self@ == report(after_func, args_errors(m0.scopes, avs.take(i as int))),
                        self@.scopes == m0.scopes,
                    decreases args@.len() - i,
                {
                    assert(avs[i as int] == args@[i as int]@);
                    let ghost before = self@;
                    self.analyze_expression(&args[i])?;
                    assert(avs.take(i + 1).drop_last() =~= avs.take(i as int));
                    assert(avs.take(i + 1).last() == avs[i as int]);
                    assert(self@.errors =~= after_func.errors + args_errors(
                        m0.scopes,
                        avs.take(i + 1),
                    ));
                    i = i + 1;
                }
                assert(avs.take(avs.len() as int) =~= avs);
                // A call of a name declared as a variable is an error.
                if let Expr::Identifier(func_name) = &**func {
                    if let Some(symbol) = self.lookup_symbol(func_name) {
                        if !symbol.is_function {
                            let mut m = String::from_str("'");
                            push_str(&mut m, func_name.as_str());
                            push_str(&mut m, "' is not a function");
                            self.push_error(m);
                        }
                    }
                }
            },
            Expr::Cast { target_type: _, expr: inner } => {
                self.analyze_expression(inner)?;
            },
        }
        assert(self@.errors =~= m0.errors + expr_errors(m0.scopes, expr@));
        Ok(())
    }
}

/// Analyzes a program with a fresh analyzer: success when no error is found,
/// else all the errors in the order they were found.
pub fn analyze(program: &Program) -> (r: Result<(), Vec<String>>)
    ensures
        verdict_view(r) == spec_analyze(program@),
{
    let mut analyzer = SemanticAnalyzer::new();
    analyzer.analyze(program)
}

} // verus!

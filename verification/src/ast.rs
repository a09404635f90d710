//! Abstract syntax tree of the accepted C subset, with its mathematical model.
use vstd::prelude::*;

verus! {

#[derive(Debug, PartialEq)]
pub enum Type {
    Int,
    Char,
    Void,
    Pointer(Box<Type>),
}

#[derive(Debug, Clone, Copy, PartialEq)]
pub enum BinaryOp {
    Add,
    Sub,
    Mul,
    Div,
    Mod,
    Equal,
    NotEqual,
    Less,
    LessEqual,
    Greater,
    GreaterEqual,
    And,
    Or,
    BitAnd,
    BitOr,
    BitXor,
    ShiftLeft,
    ShiftRight,
}

#[derive(Debug, Clone, Copy, PartialEq)]
pub enum UnaryOp {
    Negate,
    Not,
    BitNot,
    Deref,
    Address,
    PostInc,
    PostDec,
    PreInc,
    PreDec,
}

#[derive(Debug, PartialEq)]
pub enum Expr {
    IntConst(i64),
    CharConst(char),
    StringConst(String),
    Identifier(String),
    BinaryOp { op: BinaryOp, left: Box<Expr>, right: Box<Expr> },
    UnaryOp { op: UnaryOp, operand: Box<Expr> },
    Assignment { left: Box<Expr>, right: Box<Expr> },
    Call { func: Box<Expr>, args: Vec<Expr> },
    Cast { target_type: Type, expr: Box<Expr> },
}

#[derive(Debug, PartialEq)]
pub enum Stmt {
    Expr(Expr),
    Return(Option<Expr>),
    Block(Vec<Stmt>),
    If { condition: Expr, then_stmt: Box<Stmt>, else_stmt: Option<Box<Stmt>> },
    While { condition: Expr, body: Box<Stmt> },
    DoWhile { body: Box<Stmt>, condition: Expr },
    For {
        init: Option<Box<Stmt>>,
        condition: Option<Expr>,
        update: Option<Box<Expr>>,
        body: Box<Stmt>,
    },
    Break,
    Continue,
    Declaration { var_type: Type, name: String, init: Option<Expr> },
}

#[derive(Debug, Clone, PartialEq)]
pub struct Function {
    pub return_type: Type,
    pub name: String,
    pub params: Vec<(Type, String)>,
    pub body: Stmt,
}

#[derive(Debug, Clone, PartialEq)]
pub struct Program {
    pub functions: Vec<Function>,
    pub global_declarations: Vec<(Type, String, Option<Expr>)>,
}

/// The mathematical value of an [`Expr`]: names and literals are character sequences.
pub enum SpecExpr {
    IntConst(i64),
    CharConst(char),
    StringConst(Seq<char>),
    Identifier(Seq<char>),
    BinaryOp { op: BinaryOp, left: Box<SpecExpr>, right: Box<SpecExpr> },
    UnaryOp { op: UnaryOp, operand: Box<SpecExpr> },
    Assignment { left: Box<SpecExpr>, right: Box<SpecExpr> },
    Call { func: Box<SpecExpr>, args: Seq<SpecExpr> },
    Cast { target_type: Type, expr: Box<SpecExpr> },
}

/// The mathematical value of a [`Stmt`].
pub enum SpecStmt {
    Expr(SpecExpr),
    Return(Option<SpecExpr>),
    Block(Seq<SpecStmt>),
    If { condition: SpecExpr, then_stmt: Box<SpecStmt>, else_stmt: Option<Box<SpecStmt>> },
    While { condition: SpecExpr, body: Box<SpecStmt> },
    DoWhile { body: Box<SpecStmt>, condition: SpecExpr },
    For {
        init: Option<Box<SpecStmt>>,
        condition: Option<SpecExpr>,
        update: Option<Box<SpecExpr>>,
        body: Box<SpecStmt>,
    },
    Break,
    Continue,
    Declaration { var_type: Type, name: Seq<char>, init: Option<SpecExpr> },
}

/// The model of an expression, by structural recursion.
pub open spec fn expr_model(e: Expr) -> SpecExpr
    decreases e,
{
    match e {
        Expr::IntConst(v) => SpecExpr::IntConst(v),
        Expr::CharConst(c) => SpecExpr::CharConst(c),
        Expr::StringConst(s) => SpecExpr::StringConst(s@),
        Expr::Identifier(s) => SpecExpr::Identifier(s@),
        Expr::BinaryOp { op, left, right } => SpecExpr::BinaryOp {
            op: op,
            left: Box::new(expr_model(*left)),
            right: Box::new(expr_model(*right)),
        },
        Expr::UnaryOp { op, operand } => SpecExpr::UnaryOp {
            op: op,
            operand: Box::new(expr_model(*operand)),
        },
        Expr::Assignment { left, right } => SpecExpr::Assignment {
            left: Box::new(expr_model(*left)),
            right: Box::new(expr_model(*right)),
        },
        Expr::Call { func, args } => SpecExpr::Call {
            func: Box::new(expr_model(*func)),
            args: Seq::new(
                args@.len(),
                |i: int|
                    if 0 <= i < args@.len() {
                        expr_model(args@[i])
                    } else {
                        SpecExpr::IntConst(0)
                    },
            ),
        },
        Expr::Cast { target_type, expr } => SpecExpr::Cast {
            target_type: target_type,
            expr: Box::new(expr_model(*expr)),
        },
    }
}

impl View for Expr {
    type V = SpecExpr;

    open spec fn view(&self) -> SpecExpr {
        expr_model(*self)
    }
}

/// The model of an optional expression.
pub open spec fn opt_expr_model(e: Option<Expr>) -> Option<SpecExpr> {
    match e {
        Some(x) => Some(expr_model(x)),
        None => None,
    }
}

/// The model of a statement, by structural recursion.
pub open spec fn stmt_model(st: Stmt) -> SpecStmt
    decreases st,
{
    match st {
        Stmt::Expr(e) => SpecStmt::Expr(expr_model(e)),
        Stmt::Return(e) => SpecStmt::Return(opt_expr_model(e)),
        Stmt::Block(v) => SpecStmt::Block(
            Seq::new(
                v@.len(),
                |i: int|
                    if 0 <= i < v@.len() {
                        stmt_model(v@[i])
                    } else {
                        SpecStmt::Break
                    },
            ),
        ),
        Stmt::If { condition, then_stmt, else_stmt } => SpecStmt::If {
            condition: expr_model(condition),
            then_stmt: Box::new(stmt_model(*then_stmt)),
            else_stmt: match else_stmt {
                Some(b) => Some(Box::new(stmt_model(*b))),
                None => None,
            },
        },
        Stmt::While { condition, body } => SpecStmt::While {
            condition: expr_model(condition),
            body: Box::new(stmt_model(*body)),
        },
        Stmt::DoWhile { body, condition } => SpecStmt::DoWhile {
            body: Box::new(stmt_model(*body)),
            condition: expr_model(condition),
        },
        Stmt::For { init, condition, update, body } => SpecStmt::For {
            init: match init {
                Some(b) => Some(Box::new(stmt_model(*b))),
                None => None,
            },
            condition: opt_expr_model(condition),
            update: match update {
                Some(b) => Some(Box::new(expr_model(*b))),
                None => None,
            },
            body: Box::new(stmt_model(*body)),
        },
        Stmt::Break => SpecStmt::Break,
        Stmt::Continue => SpecStmt::Continue,
        Stmt::Declaration { var_type, name, init } => SpecStmt::Declaration {
            var_type: var_type,
            name: name@,
            init: opt_expr_model(init),
        },
    }
}

impl View for Stmt {
    type V = SpecStmt;

    open spec fn view(&self) -> SpecStmt {
        stmt_model(*self)
    }
}

/// The mathematical value of a [`Function`].
pub struct SpecFunction {
    pub return_type: Type,
    pub name: Seq<char>,
    pub params: Seq<(Type, Seq<char>)>,
    pub body: SpecStmt,
}

/// The mathematical value of a [`Program`].
pub struct SpecProgram {
    pub functions: Seq<SpecFunction>,
    pub global_declarations: Seq<(Type, Seq<char>, Option<SpecExpr>)>,
}

/// The model of a parameter list.
pub open spec fn params_model(p: Seq<(Type, String)>) -> Seq<(Type, Seq<char>)> {
    Seq::new(p.len(), |i: int| (p[i].0, p[i].1@))
}

impl View for Function {
    type V = SpecFunction;

    open spec fn view(&self) -> SpecFunction {
        SpecFunction {
            return_type: self.return_type,
            name: self.name@,
            params: params_model(self.params@),
            body: self.body@,
        }
    }
}

impl View for Program {
    type V = SpecProgram;

    open spec fn view(&self) -> SpecProgram {
        SpecProgram {
            functions: Seq::new(self.functions@.len(), |i: int| self.functions@[i]@),
            global_declarations: Seq::new(
                self.global_declarations@.len(),
                |i: int|
                    (
                        self.global_declarations@[i].0,
                        self.global_declarations@[i].1@,
                        opt_expr_model(self.global_declarations@[i].2),
                    ),
            ),
        }
    }
}

impl Clone for Type {
    fn clone(&self) -> (r: Self)
        ensures
            r == *self,
        decreases self,
    {
        match self {
            Type::Int => Type::Int,
            Type::Char => Type::Char,
            Type::Void => Type::Void,
            Type::Pointer(inner) => Type::Pointer(Box::new((**inner).clone())),
        }
    }
}

impl Clone for Expr {
    #[verifier::loop_isolation(false)]
    fn clone(&self) -> (r: Self)
        ensures
            r@ == self@,
        decreases self,
    {
        match self {
            Expr::IntConst(v) => Expr::IntConst(*v),
            Expr::CharConst(c) => Expr::CharConst(*c),
            Expr::StringConst(s) => Expr::StringConst(s.clone()),
            Expr::Identifier(s) => Expr::Identifier(s.clone()),
            Expr::BinaryOp { op, left, right } => Expr::BinaryOp {
                op: *op,
                left: Box::new((**left).clone()),
                right: Box::new((**right).clone()),
            },
            Expr::UnaryOp { op, operand } => Expr::UnaryOp {
                op: *op,
                operand: Box::new((**operand).clone()),
            },
            Expr::Assignment { left, right } => Expr::Assignment {
                left: Box::new((**left).clone()),
                right: Box::new((**right).clone()),
            },
            Expr::Call { func, args } => {
                let f = Box::new((**func).clone());
                let mut out: Vec<Expr> = Vec::new();
                let mut i: usize = 0;
                while i < args.len()
                    invariant
                        i <= args@.len(),
                        out@.len() == i,
                        forall|j: int| 0 <= j < i ==> expr_model(#[trigger] out@[j]) == expr_model(args@[j]),
                    decreases args@.len() - i,
                {
                    out.push(args[i].clone());
                    i = i + 1;
                }
                let r = Expr::Call { func: f, args: out };
                assert(r@->args =~= self@->args);
                r
            },
            Expr::Cast { target_type, expr } => Expr::Cast {
                target_type: target_type.clone(),
                expr: Box::new((**expr).clone()),
            },
        }
    }
}

impl Clone for Stmt {
    #[verifier::loop_isolation(false)]
    fn clone(&self) -> (r: Self)
        ensures
            r@ == self@,
        decreases self,
    {
        match self {
            Stmt::Expr(e) => Stmt::Expr(e.clone()),
            Stmt::Return(e) => Stmt::Return(
                match e {
                    Some(x) => Some(x.clone()),
                    None => None,
                },
            ),
            Stmt::Block(v) => {
                let mut out: Vec<Stmt> = Vec::new();
                let mut i: usize = 0;
                while i < v.len()
                    invariant
                        i <= v@.len(),
                        out@.len() == i,
                        forall|j: int| 0 <= j < i ==> stmt_model(#[trigger] out@[j]) == stmt_model(v@[j]),
                    decreases v@.len() - i,
                {
                    out.push(v[i].clone());
                    i = i + 1;
                }
                let r = Stmt::Block(out);
                assert(r@->Block_0 =~= self@->Block_0);
                r
            },
            Stmt::If { condition, then_stmt, else_stmt } => Stmt::If {
                condition: condition.clone(),
                then_stmt: Box::new((**then_stmt).clone()),
                else_stmt: match else_stmt {
                    Some(b) => Some(Box::new((**b).clone())),
                    None => None,
                },
            },
            Stmt::While { condition, body } => Stmt::While {
                condition: condition.clone(),
                body: Box::new((**body).clone()),
            },
            Stmt::DoWhile { body, condition } => Stmt::DoWhile {
                body: Box::new((**body).clone()),
                condition: condition.clone(),
            },
            Stmt::For { init, condition, update, body } => Stmt::For {
                init: match init {
                    Some(b) => Some(Box::new((**b).clone())),
                    None => None,
                },
                condition: match condition {
                    Some(x) => Some(x.clone()),
                    None => None,
                },
                update: match update {
                    Some(b) => Some(Box::new((**b).clone())),
                    None => None,
                },
                body: Box::new((**body).clone()),
            },
            Stmt::Break => Stmt::Break,
            Stmt::Continue => Stmt::Continue,
            Stmt::Declaration { var_type, name, init } => Stmt::Declaration {
                var_type: var_type.clone(),
                name: name.clone(),
                init: match init {
                    Some(x) => Some(x.clone()),
                    None => None,
                },
            },
        }
    }
}

} // verus!

//! Syntax analysis: a recursive-descent parser from tokens to the syntax tree.
use vstd::prelude::*;
use crate::ast::{
    opt_expr_model, params_model, BinaryOp, Expr, Function, Program, SpecExpr, SpecFunction,
    SpecProgram, SpecStmt, Stmt, Type, UnaryOp,
};
use crate::lexer::{debug_token, same_token, token_debug, tokens_view, SpecToken, Token};
use crate::text::push_str;

verus! {

/// An expression and the position after it, or an error message.
pub type ExprOutcome = Result<(SpecExpr, int), Seq<char>>;

/// A statement and the position after it, or an error message.
pub type StmtOutcome = Result<(SpecStmt, int), Seq<char>>;

/// The token at `pos`, if there is one.
pub open spec fn tok_at(ts: Seq<SpecToken>, pos: int) -> Option<SpecToken> {
    if 0 <= pos < ts.len() {
        Some(ts[pos])
    } else {
        None
    }
}

/// Whether `p` lies after `pos`, within the tokens. The grammar functions below
/// ask this of a position that a sub-phrase ended at before they recurse from
/// it, which makes their termination evident; the parser's own contracts show
/// that every phrase parsed successfully moves on, so the answer is always yes
/// on the positions the parser reaches.
pub open spec fn moved_on(ts: Seq<SpecToken>, pos: int, p: int) -> bool {
    pos < p <= ts.len()
}

/// A message that names what was found: a token, or `EOF` past the last token.
pub open spec fn found_msg(prefix: Seq<char>, t: Option<SpecToken>) -> Seq<char> {
    prefix + match t {
        Some(t) => token_debug(t),
        None => "EOF"@,
    }
}

/// Consumes the token `expected`, giving the position after it.
pub open spec fn sp_expect(ts: Seq<SpecToken>, pos: int, expected: SpecToken) -> Result<
    int,
    Seq<char>,
> {
    match tok_at(ts, pos) {
        Some(t) => if t == expected {
            Ok(pos + 1)
        } else {
            Err("Expected "@ + token_debug(expected) + ", found "@ + token_debug(t))
        },
        None => Err("Expected "@ + token_debug(expected) + ", found EOF"@),
    }
}

/// Consumes an identifier, giving its name and the position after it.
pub open spec fn sp_expect_identifier(ts: Seq<SpecToken>, pos: int) -> Result<
    (Seq<char>, int),
    Seq<char>,
> {
    match tok_at(ts, pos) {
        Some(SpecToken::Identifier(name)) => Ok((name, pos + 1)),
        t => Err(found_msg("Expected identifier, found "@, t)),
    }
}

/// The stars after a base type, each making a pointer to what precedes it.
pub open spec fn sp_pointers(ts: Seq<SpecToken>, pos: int, ty: Type) -> (Type, int)
    decreases ts.len() - pos,
{
    if tok_at(ts, pos) == Some(SpecToken::Star) {
        sp_pointers(ts, pos + 1, Type::Pointer(Box::new(ty)))
    } else {
        (ty, pos)
    }
}

/// A type: `int`, `char` or `void`, followed by any number of `*`.
pub open spec fn sp_type(ts: Seq<SpecToken>, pos: int) -> Result<(Type, int), Seq<char>> {
    match tok_at(ts, pos) {
        Some(SpecToken::Int) => Ok(sp_pointers(ts, pos + 1, Type::Int)),
        Some(SpecToken::Char) => Ok(sp_pointers(ts, pos + 1, Type::Char)),
        Some(SpecToken::Void) => Ok(sp_pointers(ts, pos + 1, Type::Void)),
        t => Err(found_msg("Expected type, found "@, t)),
    }
}

/// The operator that a token stands for at binary precedence level `k`, from
/// 1 (`*` `/` `%`) up to 10 (`||`).
pub open spec fn binary_op_at(k: nat, t: SpecToken) -> Option<BinaryOp> {
    if k == 1 {
        match t {
            SpecToken::Star => Some(BinaryOp::Mul),
            SpecToken::Slash => Some(BinaryOp::Div),
            SpecToken::Percent => Some(BinaryOp::Mod),
            _ => None,
        }
    } else if k == 2 {
        match t {
            SpecToken::Plus => Some(BinaryOp::Add),
            SpecToken::Minus => Some(BinaryOp::Sub),
            _ => None,
        }
    } else if k == 3 {
        match t {
            SpecToken::ShiftLeft => Some(BinaryOp::ShiftLeft),
            SpecToken::ShiftRight => Some(BinaryOp::ShiftRight),
            _ => None,
        }
    } else if k == 4 {
        match t {
            SpecToken::Less => Some(BinaryOp::Less),
            SpecToken::LessEqual => Some(BinaryOp::LessEqual),
            SpecToken::Greater => Some(BinaryOp::Greater),
            SpecToken::GreaterEqual => Some(BinaryOp::GreaterEqual),
            _ => None,
        }
    } else if k == 5 {
        match t {
            SpecToken::EqualEqual => Some(BinaryOp::Equal),
            SpecToken::NotEqual => Some(BinaryOp::NotEqual),
            _ => None,
        }
    } else if k == 6 {
        match t {
            SpecToken::BitAnd => Some(BinaryOp::BitAnd),
            _ => None,
        }
    } else if k == 7 {
        match t {
            SpecToken::BitXor => Some(BinaryOp::BitXor),
            _ => None,
        }
    } else if k == 8 {
        match t {
            SpecToken::BitOr => Some(BinaryOp::BitOr),
            _ => None,
        }
    } else if k == 9 {
        match t {
            SpecToken::And => Some(BinaryOp::And),
            _ => None,
        }
    } else if k == 10 {
        match t {
            SpecToken::Or => Some(BinaryOp::Or),
            _ => None,
        }
    } else {
        None
    }
}

/// The prefix operator that a token stands for. A unary `+` stands for none: it
/// leaves its operand as it is.
pub open spec fn unary_op_of(t: SpecToken) -> Option<UnaryOp> {
    match t {
        SpecToken::Minus => Some(UnaryOp::Negate),
        SpecToken::Not => Some(UnaryOp::Not),
        SpecToken::BitNot => Some(UnaryOp::BitNot),
        SpecToken::PlusPlus => Some(UnaryOp::PreInc),
        SpecToken::MinusMinus => Some(UnaryOp::PreDec),
        SpecToken::Star => Some(UnaryOp::Deref),
        SpecToken::BitAnd => Some(UnaryOp::Address),
        _ => None,
    }
}

/// The assignment that a token stands for: `Some(None)` for `=`, `Some(Some(op))`
/// for a compound assignment with operator `op`.
pub open spec fn assign_op_of(t: SpecToken) -> Option<Option<BinaryOp>> {
    match t {
        SpecToken::Assign => Some(None),
        SpecToken::PlusAssign => Some(Some(BinaryOp::Add)),
        SpecToken::MinusAssign => Some(Some(BinaryOp::Sub)),
        SpecToken::StarAssign => Some(Some(BinaryOp::Mul)),
        SpecToken::SlashAssign => Some(Some(BinaryOp::Div)),
        SpecToken::PercentAssign => Some(Some(BinaryOp::Mod)),
        SpecToken::AndAssign => Some(Some(BinaryOp::BitAnd)),
        SpecToken::OrAssign => Some(Some(BinaryOp::BitOr)),
        SpecToken::XorAssign => Some(Some(BinaryOp::BitXor)),
        SpecToken::ShiftLeftAssign => Some(Some(BinaryOp::ShiftLeft)),
        SpecToken::ShiftRightAssign => Some(Some(BinaryOp::ShiftRight)),
        _ => None,
    }
}

/// A binary operation node.
pub open spec fn bin(op: BinaryOp, left: SpecExpr, right: SpecExpr) -> SpecExpr {
    SpecExpr::BinaryOp { op, left: Box::new(left), right: Box::new(right) }
}

/// A unary operation node.
pub open spec fn un(op: UnaryOp, operand: SpecExpr) -> SpecExpr {
    SpecExpr::UnaryOp { op, operand: Box::new(operand) }
}

/// The tree that `left = right` or `left op= right` stands for: a compound
/// assignment assigns `left op right` to `left`.
pub open spec fn assignment_tree(op: Option<BinaryOp>, left: SpecExpr, right: SpecExpr) -> SpecExpr {
    match op {
        Some(o) => SpecExpr::Assignment {
            left: Box::new(left),
            right: Box::new(bin(o, left, right)),
        },
        None => SpecExpr::Assignment { left: Box::new(left), right: Box::new(right) },
    }
}

/// The tree that `c ? a : b` stands for:
/// `(c == 1) == (0 == (a == b))`.
pub open spec fn conditional_tree(c: SpecExpr, a: SpecExpr, b: SpecExpr) -> SpecExpr {
    bin(
        BinaryOp::Equal,
        bin(BinaryOp::Equal, c, SpecExpr::IntConst(1)),
        bin(BinaryOp::Equal, SpecExpr::IntConst(0), bin(BinaryOp::Equal, a, b)),
    )
}

/// An assignment expression (right-associative), or a conditional expression.
pub open spec fn sp_assignment(ts: Seq<SpecToken>, pos: int) -> ExprOutcome
    decreases ts.len() - pos, 38nat,
{
    match sp_conditional(ts, pos) {
        Err(e) => Err(e),
        Ok((left, p1)) => match tok_at(ts, p1) {
            Some(t) => match assign_op_of(t) {
                Some(op) => if pos <= p1 {
                    match sp_assignment(ts, p1 + 1) {
                        Err(e) => Err(e),
                        Ok((right, p2)) => Ok((assignment_tree(op, left, right), p2)),
                    }
                } else {
                    Err(seq![])
                },
                None => Ok((left, p1)),
            },
            None => Ok((left, p1)),
        },
    }
}

/// A conditional expression `c ? a : b` (the else part right-associative), or
/// a `||` expression.
pub open spec fn sp_conditional(ts: Seq<SpecToken>, pos: int) -> ExprOutcome
    decreases ts.len() - pos, 37nat,
{
    match sp_binary(ts, pos, 10) {
        Err(e) => Err(e),
        Ok((c, p1)) => if !(pos <= p1 <= ts.len()) {
            Err(seq![])
        } else if tok_at(ts, p1) == Some(SpecToken::Question) {
            match sp_assignment(ts, p1 + 1) {
                Err(e) => Err(e),
                Ok((a, p2)) => match sp_expect(ts, p2, SpecToken::Colon) {
                    Err(e) => Err(e),
                    Ok(p3) => if moved_on(ts, pos, p3) {
                        match sp_conditional(ts, p3) {
                            Err(e) => Err(e),
                            Ok((b, p4)) => Ok((conditional_tree(c, a, b), p4)),
                        }
                    } else {
                        Err(seq![])
                    },
                },
            }
        } else {
            Ok((c, p1))
        },
    }
}

/// The operand of a binary operator at level `k`: a level `k - 1` expression,
/// or a unary expression at level 1.
pub open spec fn sp_operand(ts: Seq<SpecToken>, pos: int, k: nat) -> ExprOutcome
    decreases ts.len() - pos, 3 * k + 5,
{
    if k <= 1 {
        sp_unary(ts, pos)
    } else {
        sp_binary(ts, pos, (k - 1) as nat)
    }
}

/// A left-associative chain of operands joined by operators of level `k`.
pub open spec fn sp_binary(ts: Seq<SpecToken>, pos: int, k: nat) -> ExprOutcome
    decreases ts.len() - pos, 3 * k + 6,
{
    match sp_operand(ts, pos, k) {
        Err(e) => Err(e),
        Ok((left, p)) => if pos <= p <= ts.len() {
            sp_binary_rest(ts, p, k, left)
        } else {
            Err(seq![])
        },
    }
}

/// The rest of a level-`k` chain after the operands folded into `left`.
pub open spec fn sp_binary_rest(ts: Seq<SpecToken>, pos: int, k: nat, left: SpecExpr) -> ExprOutcome
    decreases ts.len() - pos, 3 * k + 4,
{
    match tok_at(ts, pos) {
        Some(t) => match binary_op_at(k, t) {
            Some(op) => match sp_operand(ts, pos + 1, k) {
                Err(e) => Err(e),
                Ok((right, p)) => if moved_on(ts, pos, p) {
                    sp_binary_rest(ts, p, k, bin(op, left, right))
                } else {
                    Err(seq![])
                },
            },
            None => Ok((left, pos)),
        },
        None => Ok((left, pos)),
    }
}

/// A prefix-operator expression (right-associative), or a postfix expression.
/// A unary `+` is read and yields its operand unchanged.
pub open spec fn sp_unary(ts: Seq<SpecToken>, pos: int) -> ExprOutcome
    decreases ts.len() - pos, 3nat,
{
    match tok_at(ts, pos) {
        Some(SpecToken::Plus) => sp_unary(ts, pos + 1),
        Some(t) => match unary_op_of(t) {
            Some(op) => match sp_unary(ts, pos + 1) {
                Err(e) => Err(e),
                Ok((operand, p)) => Ok((un(op, operand), p)),
            },
            None => sp_postfix(ts, pos),
        },
        None => sp_postfix(ts, pos),
    }
}

/// A primary expression followed by calls, subscripts, member accesses and
/// postfix `++` / `--`.
pub open spec fn sp_postfix(ts: Seq<SpecToken>, pos: int) -> ExprOutcome
    decreases ts.len() - pos, 2nat,
{
    match sp_primary(ts, pos) {
        Err(e) => Err(e),
        Ok((e, p)) => if pos <= p <= ts.len() {
            sp_postfix_rest(ts, p, e)
        } else {
            Err(seq![])
        },
    }
}

/// A token that starts a postfix operation.
pub open spec fn is_postfix_start(t: Option<SpecToken>) -> bool {
    match t {
        Some(SpecToken::OpenParen) => true,
        Some(SpecToken::OpenBracket) => true,
        Some(SpecToken::Dot) => true,
        Some(SpecToken::Arrow) => true,
        Some(SpecToken::PlusPlus) => true,
        Some(SpecToken::MinusMinus) => true,
        _ => false,
    }
}

/// The postfix operations applied, one after the other, to `e`.
pub open spec fn sp_postfix_rest(ts: Seq<SpecToken>, pos: int, e: SpecExpr) -> ExprOutcome
    decreases ts.len() - pos, 1nat,
{
    if is_postfix_start(tok_at(ts, pos)) {
        match sp_postfix_operation(ts, pos, e) {
            Err(m) => Err(m),
            Ok((e2, p)) => if moved_on(ts, pos, p) {
                sp_postfix_rest(ts, p, e2)
            } else {
                Err(seq![])
            },
        }
    } else {
        Ok((e, pos))
    }
}

/// One postfix operation applied to `e`: a call, a subscript `e[i]` (standing
/// for `*(e + i)`), a member access `e.f` (standing for `f`) or `e->f`
/// (standing for `*f`), or a postfix `++` / `--`.
pub open spec fn sp_postfix_operation(ts: Seq<SpecToken>, pos: int, e: SpecExpr) -> ExprOutcome
    decreases ts.len() - pos, 0nat,
{
    match tok_at(ts, pos) {
        Some(SpecToken::OpenParen) => if tok_at(ts, pos + 1) == Some(SpecToken::CloseParen) {
            Ok((SpecExpr::Call { func: Box::new(e), args: seq![] }, pos + 2))
        } else {
            match sp_arguments(ts, pos + 1, seq![]) {
                Err(m) => Err(m),
                Ok((args, p)) => Ok((SpecExpr::Call { func: Box::new(e), args }, p)),
            }
        },
        Some(SpecToken::OpenBracket) => match sp_assignment(ts, pos + 1) {
            Err(m) => Err(m),
            Ok((index, p1)) => match sp_expect(ts, p1, SpecToken::CloseBracket) {
                Err(m) => Err(m),
                Ok(p2) => Ok((un(UnaryOp::Deref, bin(BinaryOp::Add, e, index)), p2)),
            },
        },
        Some(SpecToken::Dot) => match sp_expect_identifier(ts, pos + 1) {
            Err(m) => Err(m),
            Ok((field, p)) => Ok((SpecExpr::Identifier(field), p)),
        },
        Some(SpecToken::Arrow) => match sp_expect_identifier(ts, pos + 1) {
            Err(m) => Err(m),
            Ok((field, p)) => Ok((un(UnaryOp::Deref, SpecExpr::Identifier(field)), p)),
        },
        Some(SpecToken::PlusPlus) => Ok((un(UnaryOp::PostInc, e), pos + 1)),
        Some(SpecToken::MinusMinus) => Ok((un(UnaryOp::PostDec, e), pos + 1)),
        _ => Ok((e, pos)),
    }
}

/// The arguments of a call after those in `acc`, up to and including the
/// closing parenthesis.
pub open spec fn sp_arguments(ts: Seq<SpecToken>, pos: int, acc: Seq<SpecExpr>) -> Result<
    (Seq<SpecExpr>, int),
    Seq<char>,
>
    decreases ts.len() - pos, 50nat,
{
    match sp_assignment(ts, pos) {
        Err(m) => Err(m),
        Ok((a, p)) => if moved_on(ts, pos, p) {
            match tok_at(ts, p) {
                Some(SpecToken::Comma) => sp_arguments(ts, p + 1, acc.push(a)),
                Some(SpecToken::CloseParen) => Ok((acc.push(a), p + 1)),
                t => Err(found_msg("Expected ',' or ')', found "@, t)),
            }
        } else {
            Err(seq![])
        },
    }
}

/// A literal, a name, or a parenthesized expression.
pub open spec fn sp_primary(ts: Seq<SpecToken>, pos: int) -> ExprOutcome
    decreases ts.len() - pos, 0nat,
{
    match tok_at(ts, pos) {
        Some(SpecToken::IntConst(v)) => Ok((SpecExpr::IntConst(v), pos + 1)),
        Some(SpecToken::CharConst(c)) => Ok((SpecExpr::CharConst(c), pos + 1)),
        Some(SpecToken::StringConst(s)) => Ok((SpecExpr::StringConst(s), pos + 1)),
        Some(SpecToken::Identifier(n)) => Ok((SpecExpr::Identifier(n), pos + 1)),
        Some(SpecToken::OpenParen) => match sp_assignment(ts, pos + 1) {
            Err(m) => Err(m),
            Ok((e, p)) => match sp_expect(ts, p, SpecToken::CloseParen) {
                Err(m) => Err(m),
                Ok(p2) => Ok((e, p2)),
            },
        },
        t => Err(found_msg("Expected expression, found "@, t)),
    }
}

/// A declaration `type name;` or `type name = expression;`.
pub open spec fn sp_declaration(ts: Seq<SpecToken>, pos: int) -> StmtOutcome {
    match sp_type(ts, pos) {
        Err(m) => Err(m),
        Ok((var_type, p1)) => match sp_expect_identifier(ts, p1) {
            Err(m) => Err(m),
            Ok((name, p2)) => {
                let init = if tok_at(ts, p2) == Some(SpecToken::Assign) {
                    match sp_assignment(ts, p2 + 1) {
                        Err(m) => Err(m),
                        Ok((e, p3)) => Ok((Some(e), p3)),
                    }
                } else {
                    Ok((None, p2))
                };
                match init {
                    Err(m) => Err(m),
                    Ok((init, p3)) => match sp_expect(ts, p3, SpecToken::Semicolon) {
                        Err(m) => Err(m),
                        Ok(p4) => Ok((SpecStmt::Declaration { var_type, name, init }, p4)),
                    },
                }
            },
        },
    }
}

/// `return;` or `return expression;`.
pub open spec fn sp_return(ts: Seq<SpecToken>, pos: int) -> StmtOutcome {
    match sp_expect(ts, pos, SpecToken::Return) {
        Err(m) => Err(m),
        Ok(p1) => {
            let value = if tok_at(ts, p1) == Some(SpecToken::Semicolon) {
                Ok((None, p1))
            } else {
                match sp_assignment(ts, p1) {
                    Err(m) => Err(m),
                    Ok((e, p2)) => Ok((Some(e), p2)),
                }
            };
            match value {
                Err(m) => Err(m),
                Ok((v, p2)) => match sp_expect(ts, p2, SpecToken::Semicolon) {
                    Err(m) => Err(m),
                    Ok(p3) => Ok((SpecStmt::Return(v), p3)),
                },
            }
        },
    }
}

/// A parenthesized condition: `(` expression `)`.
pub open spec fn sp_condition(ts: Seq<SpecToken>, pos: int) -> ExprOutcome {
    match sp_expect(ts, pos, SpecToken::OpenParen) {
        Err(m) => Err(m),
        Ok(p1) => match sp_assignment(ts, p1) {
            Err(m) => Err(m),
            Ok((c, p2)) => match sp_expect(ts, p2, SpecToken::CloseParen) {
                Err(m) => Err(m),
                Ok(p3) => Ok((c, p3)),
            },
        },
    }
}

/// An expression followed by `;`.
pub open spec fn sp_expression_statement(ts: Seq<SpecToken>, pos: int) -> ExprOutcome {
    match sp_assignment(ts, pos) {
        Err(m) => Err(m),
        Ok((e, p1)) => match sp_expect(ts, p1, SpecToken::Semicolon) {
            Err(m) => Err(m),
            Ok(p2) => Ok((e, p2)),
        },
    }
}

/// A statement.
pub open spec fn sp_statement(ts: Seq<SpecToken>, pos: int) -> StmtOutcome
    decreases ts.len() - pos, 3nat,
{
    match tok_at(ts, pos) {
        Some(SpecToken::OpenBrace) => sp_block(ts, pos),
        Some(SpecToken::If) => sp_if(ts, pos),
        Some(SpecToken::While) => sp_while(ts, pos),
        Some(SpecToken::Do) => sp_do_while(ts, pos),
        Some(SpecToken::For) => sp_for(ts, pos),
        Some(SpecToken::Return) => sp_return(ts, pos),
        Some(SpecToken::Break) => match sp_expect(ts, pos + 1, SpecToken::Semicolon) {
            Err(m) => Err(m),
            Ok(p) => Ok((SpecStmt::Break, p)),
        },
        Some(SpecToken::Continue) => match sp_expect(ts, pos + 1, SpecToken::Semicolon) {
            Err(m) => Err(m),
            Ok(p) => Ok((SpecStmt::Continue, p)),
        },
        Some(SpecToken::Int) => sp_declaration(ts, pos),
        Some(SpecToken::Char) => sp_declaration(ts, pos),
        Some(SpecToken::Semicolon) => Ok((SpecStmt::Expr(SpecExpr::IntConst(0)), pos + 1)),
        _ => match sp_expression_statement(ts, pos) {
            Err(m) => Err(m),
            Ok((e, p)) => Ok((SpecStmt::Expr(e), p)),
        },
    }
}

/// A block `{ statements }`.
pub open spec fn sp_block(ts: Seq<SpecToken>, pos: int) -> StmtOutcome
    decreases ts.len() - pos, 2nat,
{
    match sp_expect(ts, pos, SpecToken::OpenBrace) {
        Err(m) => Err(m),
        Ok(p) => sp_block_rest(ts, p, seq![]),
    }
}

/// The statements of a block after those in `acc`, up to and including `}`.
pub open spec fn sp_block_rest(ts: Seq<SpecToken>, pos: int, acc: Seq<SpecStmt>) -> StmtOutcome
    decreases ts.len() - pos, 4nat,
{
    if tok_at(ts, pos) is Some && tok_at(ts, pos) != Some(SpecToken::CloseBrace) {
        match sp_statement(ts, pos) {
            Err(m) => Err(m),
            Ok((s, p)) => if moved_on(ts, pos, p) {
                sp_block_rest(ts, p, acc.push(s))
            } else {
                Err(seq![])
            },
        }
    } else {
        match sp_expect(ts, pos, SpecToken::CloseBrace) {
            Err(m) => Err(m),
            Ok(p) => Ok((SpecStmt::Block(acc), p)),
        }
    }
}

/// `if (condition) statement`, with an optional `else statement`.
pub open spec fn sp_if(ts: Seq<SpecToken>, pos: int) -> StmtOutcome
    decreases ts.len() - pos, 2nat,
{
    match sp_expect(ts, pos, SpecToken::If) {
        Err(m) => Err(m),
        Ok(p1) => match sp_condition(ts, p1) {
            Err(m) => Err(m),
            Ok((c, p2)) => if moved_on(ts, pos, p2) {
                match sp_statement(ts, p2) {
                    Err(m) => Err(m),
                    Ok((then_stmt, p3)) => if !moved_on(ts, pos, p3) {
                        Err(seq![])
                    } else if tok_at(ts, p3) == Some(SpecToken::Else) {
                        match sp_statement(ts, p3 + 1) {
                            Err(m) => Err(m),
                            Ok((else_stmt, p4)) => Ok(
                                (
                                    SpecStmt::If {
                                        condition: c,
                                        then_stmt: Box::new(then_stmt),
                                        else_stmt: Some(Box::new(else_stmt)),
                                    },
                                    p4,
                                ),
                            ),
                        }
                    } else {
                        Ok(
                            (
                                SpecStmt::If {
                                    condition: c,
                                    then_stmt: Box::new(then_stmt),
                                    else_stmt: None,
                                },
                                p3,
                            ),
                        )
                    },
                }
            } else {
                Err(seq![])
            },
        },
    }
}

/// `while (condition) statement`.
pub open spec fn sp_while(ts: Seq<SpecToken>, pos: int) -> StmtOutcome
    decreases ts.len() - pos, 2nat,
{
    match sp_expect(ts, pos, SpecToken::While) {
        Err(m) => Err(m),
        Ok(p1) => match sp_condition(ts, p1) {
            Err(m) => Err(m),
            Ok((c, p2)) => if moved_on(ts, pos, p2) {
                match sp_statement(ts, p2) {
                    Err(m) => Err(m),
                    Ok((body, p3)) => Ok(
                        (SpecStmt::While { condition: c, body: Box::new(body) }, p3),
                    ),
                }
            } else {
                Err(seq![])
            },
        },
    }
}

/// `do statement while (condition);`.
pub open spec fn sp_do_while(ts: Seq<SpecToken>, pos: int) -> StmtOutcome
    decreases ts.len() - pos, 2nat,
{
    match sp_expect(ts, pos, SpecToken::Do) {
        Err(m) => Err(m),
        Ok(p1) => match sp_statement(ts, p1) {
            Err(m) => Err(m),
            Ok((body, p2)) => match sp_expect(ts, p2, SpecToken::While) {
                Err(m) => Err(m),
                Ok(p3) => match sp_condition(ts, p3) {
                    Err(m) => Err(m),
                    Ok((c, p4)) => match sp_expect(ts, p4, SpecToken::Semicolon) {
                        Err(m) => Err(m),
                        Ok(p5) => Ok(
                            (SpecStmt::DoWhile { body: Box::new(body), condition: c }, p5),
                        ),
                    },
                },
            },
        },
    }
}

/// The initialization part of a `for`: nothing (just `;`), a declaration, or an
/// expression statement.
pub open spec fn sp_for_init(ts: Seq<SpecToken>, pos: int) -> Result<
    (Option<SpecStmt>, int),
    Seq<char>,
> {
    match tok_at(ts, pos) {
        Some(SpecToken::Semicolon) => Ok((None, pos + 1)),
        Some(SpecToken::Int) => match sp_declaration(ts, pos) {
            Err(m) => Err(m),
            Ok((d, p)) => Ok((Some(d), p)),
        },
        Some(SpecToken::Char) => match sp_declaration(ts, pos) {
            Err(m) => Err(m),
            Ok((d, p)) => Ok((Some(d), p)),
        },
        _ => match sp_expression_statement(ts, pos) {
            Err(m) => Err(m),
            Ok((e, p)) => Ok((Some(SpecStmt::Expr(e)), p)),
        },
    }
}

/// The condition part of a `for`: nothing or an expression, then `;`.
pub open spec fn sp_for_condition(ts: Seq<SpecToken>, pos: int) -> Result<
    (Option<SpecExpr>, int),
    Seq<char>,
> {
    if tok_at(ts, pos) == Some(SpecToken::Semicolon) {
        Ok((None, pos + 1))
    } else {
        match sp_expression_statement(ts, pos) {
            Err(m) => Err(m),
            Ok((c, p)) => Ok((Some(c), p)),
        }
    }
}

/// The update part of a `for`: nothing or an expression, then `)`.
pub open spec fn sp_for_update(ts: Seq<SpecToken>, pos: int) -> Result<
    (Option<SpecExpr>, int),
    Seq<char>,
> {
    let update = if tok_at(ts, pos) == Some(SpecToken::CloseParen) {
        Ok((None, pos))
    } else {
        match sp_assignment(ts, pos) {
            Err(m) => Err(m),
            Ok((u, p)) => Ok((Some(u), p)),
        }
    };
    match update {
        Err(m) => Err(m),
        Ok((u, p)) => match sp_expect(ts, p, SpecToken::CloseParen) {
            Err(m) => Err(m),
            Ok(p2) => Ok((u, p2)),
        },
    }
}

/// `for (init; condition; update) statement`.
pub open spec fn sp_for(ts: Seq<SpecToken>, pos: int) -> StmtOutcome
    decreases ts.len() - pos, 2nat,
{
    match sp_expect(ts, pos, SpecToken::For) {
        Err(m) => Err(m),
        Ok(p1) => match sp_expect(ts, p1, SpecToken::OpenParen) {
            Err(m) => Err(m),
            Ok(p2) => match sp_for_init(ts, p2) {
                Err(m) => Err(m),
                Ok((init, p3)) => match sp_for_condition(ts, p3) {
                    Err(m) => Err(m),
                    Ok((condition, p4)) => match sp_for_update(ts, p4) {
                        Err(m) => Err(m),
                        Ok((update, p5)) => if moved_on(ts, pos, p5) {
                            match sp_statement(ts, p5) {
                                Err(m) => Err(m),
                                Ok((body, p6)) => Ok(
                                    (
                                        SpecStmt::For {
                                            init: match init {
                                                Some(i) => Some(Box::new(i)),
                                                None => None,
                                            },
                                            condition,
                                            update: match update {
                                                Some(u) => Some(Box::new(u)),
                                                None => None,
                                            },
                                            body: Box::new(body),
                                        },
                                        p6,
                                    ),
                                ),
                            }
                        } else {
                            Err(seq![])
                        },
                    },
                },
            },
        },
    }
}

/// The parameters of a function after `(`, up to but not including `)`.
pub open spec fn sp_params(ts: Seq<SpecToken>, pos: int) -> Result<
    (Seq<(Type, Seq<char>)>, int),
    Seq<char>,
> {
    if tok_at(ts, pos) == Some(SpecToken::CloseParen) {
        Ok((seq![], pos))
    } else {
        sp_params_rest(ts, pos, seq![])
    }
}

/// The parameters after those in `acc`.
pub open spec fn sp_params_rest(
    ts: Seq<SpecToken>,
    pos: int,
    acc: Seq<(Type, Seq<char>)>,
) -> Result<(Seq<(Type, Seq<char>)>, int), Seq<char>>
    decreases ts.len() - pos,
{
    match sp_type(ts, pos) {
        Err(m) => Err(m),
        Ok((ty, p1)) => match sp_expect_identifier(ts, p1) {
            Err(m) => Err(m),
            Ok((name, p2)) => if moved_on(ts, pos, p2) {
                match tok_at(ts, p2) {
                    Some(SpecToken::Comma) => sp_params_rest(ts, p2 + 1, acc.push((ty, name))),
                    Some(SpecToken::CloseParen) => Ok((acc.push((ty, name)), p2)),
                    t => Err(found_msg("Expected ',' or ')', found "@, t)),
                }
            } else {
                Err(seq![])
            },
        },
    }
}

/// The top-level items from `pos` on, added to the functions and global
/// declarations read so far; reading stops at the end or at an `EOF` token.
pub open spec fn sp_items(
    ts: Seq<SpecToken>,
    pos: int,
    functions: Seq<SpecFunction>,
    globals: Seq<(Type, Seq<char>, Option<SpecExpr>)>,
) -> Result<SpecProgram, Seq<char>>
    decreases ts.len() - pos,
{
    let done = SpecProgram { functions, global_declarations: globals };
    match tok_at(ts, pos) {
        None => Ok(done),
        Some(SpecToken::EOF) => Ok(done),
        Some(t) => if t is Int || t is Char || t is Void {
            match sp_type(ts, pos) {
                Err(m) => Err(m),
                Ok((ty, p1)) => match sp_expect_identifier(ts, p1) {
                    Err(m) => Err(m),
                    Ok((name, p2)) => if tok_at(ts, p2) == Some(SpecToken::OpenParen) {
                        match sp_params(ts, p2 + 1) {
                            Err(m) => Err(m),
                            Ok((params, p3)) => match sp_expect(ts, p3, SpecToken::CloseParen) {
                                Err(m) => Err(m),
                                Ok(p4) => match sp_statement(ts, p4) {
                                    Err(m) => Err(m),
                                    Ok((body, p5)) => if moved_on(ts, pos, p5) {
                                        sp_items(
                                            ts,
                                            p5,
                                            functions.push(
                                                SpecFunction {
                                                    return_type: ty,
                                                    name,
                                                    params,
                                                    body,
                                                },
                                            ),
                                            globals,
                                        )
                                    } else {
                                        Err(seq![])
                                    },
                                },
                            },
                        }
                    } else {
                        let init = if tok_at(ts, p2) == Some(SpecToken::Assign) {
                            match sp_assignment(ts, p2 + 1) {
                                Err(m) => Err(m),
                                Ok((e, p3)) => Ok((Some(e), p3)),
                            }
                        } else {
                            Ok((None, p2))
                        };
                        match init {
                            Err(m) => Err(m),
                            Ok((init, p3)) => match sp_expect(ts, p3, SpecToken::Semicolon) {
                                Err(m) => Err(m),
                                Ok(p4) => if moved_on(ts, pos, p4) {
                                    sp_items(ts, p4, functions, globals.push((ty, name, init)))
                                } else {
                                    Err(seq![])
                                },
                            },
                        }
                    },
                },
            }
        } else {
            Err("Expected type or function, found "@ + token_debug(t))
        },
    }
}

/// The program that a token sequence spells, or the first syntax error.
pub open spec fn spec_parse(ts: Seq<SpecToken>) -> Result<SpecProgram, Seq<char>> {
    sp_items(ts, 0, seq![], seq![])
}

/// The outcome of parsing an expression, as values: the expression and the
/// position after it, or the message.
pub open spec fn expr_outcome(r: Result<Expr, String>, pos: int) -> ExprOutcome {
    match r {
        Ok(e) => Ok((e@, pos)),
        Err(m) => Err(m@),
    }
}

/// The outcome of parsing a statement, as values.
pub open spec fn stmt_outcome(r: Result<Stmt, String>, pos: int) -> StmtOutcome {
    match r {
        Ok(s) => Ok((s@, pos)),
        Err(m) => Err(m@),
    }
}

/// The expressions of a vector, as values.
pub open spec fn exprs_view(v: Seq<Expr>) -> Seq<SpecExpr> {
    Seq::new(v.len(), |i: int| v[i]@)
}

/// The statements of a vector, as values.
pub open spec fn stmts_view(v: Seq<Stmt>) -> Seq<SpecStmt> {
    Seq::new(v.len(), |i: int| v[i]@)
}

/// The functions of a vector, as values.
pub open spec fn functions_view(v: Seq<Function>) -> Seq<SpecFunction> {
    Seq::new(v.len(), |i: int| v[i]@)
}

/// The global declarations of a vector, as values.
pub open spec fn globals_view(v: Seq<(Type, String, Option<Expr>)>) -> Seq<
    (Type, Seq<char>, Option<SpecExpr>),
> {
    Seq::new(v.len(), |i: int| (v[i].0, v[i].1@, opt_expr_model(v[i].2)))
}

/// An optional boxed statement, as a value.
pub open spec fn boxed_stmt_view(s: Option<Box<Stmt>>) -> Option<SpecStmt> {
    match s {
        Some(b) => Some((*b)@),
        None => None,
    }
}

/// An optional boxed expression, as a value.
pub open spec fn boxed_expr_view(e: Option<Box<Expr>>) -> Option<SpecExpr> {
    match e {
        Some(b) => Some((*b)@),
        None => None,
    }
}

/// An optional token, as a value.
pub open spec fn opt_token_view(t: Option<&Token>) -> Option<SpecToken> {
    match t {
        Some(t) => Some(t@),
        None => None,
    }
}

/// An optional owned token, as a value.
pub open spec fn opt_owned_token_view(t: Option<Token>) -> Option<SpecToken> {
    match t {
        Some(t) => Some(t@),
        None => None,
    }
}

/// Builds `prefix` followed by the `Debug` rendering of `t`, or by `EOF`.
fn found_message(prefix: &str, t: Option<&Token>) -> (r: String)
    ensures
        r@ == found_msg(prefix@, opt_token_view(t)),
{
    let mut m = String::from_str(prefix);
    match t {
        Some(t) => {
            let d = debug_token(t);
            push_str(&mut m, d.as_str());
        },
        None => push_str(&mut m, "EOF"),
    }
    m
}

/// A recursive-descent parser over a token vector, with the position of the
/// next token.
pub struct Parser {
    tokens: Vec<Token>,
    pos: usize,
}

impl Parser {
    /// The tokens, as values.
    pub closed spec fn token_values(&self) -> Seq<SpecToken> {
        tokens_view(self.tokens@)
    }

    /// The position of the next token.
    pub closed spec fn position(&self) -> int {
        self.pos as int
    }

    /// The position lies within the tokens.
    pub open spec fn wf(&self) -> bool {
        self.position() <= self.token_values().len()
    }

    /// A parser at the first of `tokens`.
    pub fn new(tokens: Vec<Token>) -> (r: Self)
        ensures
            r.wf(),
            r.token_values() == tokens_view(tokens@),
            r.position() == 0,
    {
        Parser { tokens, pos: 0 }
    }

    fn peek(&self) -> (r: Option<&Token>)
        ensures
            opt_token_view(r) == tok_at(self.token_values(), self.position()),
    {
        if self.pos < self.tokens.len() {
            Some(&self.tokens[self.pos])
        } else {
            None
        }
    }

    fn advance(&mut self) -> (r: Option<Token>)
        requires
            old(self).wf(),
        ensures
            final(self).wf(),
            final(self).token_values() == old(self).token_values(),
            opt_owned_token_view(r) == tok_at(old(self).token_values(), old(self).position()),
            final(self).position() == if old(self).position() < old(self).token_values().len() {
                old(self).position() + 1
            } else {
                old(self).position()
            },
    {
        if self.pos < self.tokens.len() {
            let t = self.tokens[self.pos].clone();
            self.pos = self.pos + 1;
            Some(t)
        } else {
            None
        }
    }

    fn expect(&mut self, expected: Token) -> (r: Result<(), String>)
        requires
            old(self).wf(),
        ensures
            final(self).wf(),
            final(self).token_values() == old(self).token_values(),
            match sp_expect(old(self).token_values(), old(self).position(), expected@) {
                Ok(p) => r is Ok && final(self).position() == p,
                Err(m) => r matches Err(x) && x@ == m,
            },
    {
        match self.advance() {
            Some(token) => {
                if same_token(&token, &expected) {
                    Ok(())
                } else {
                    let mut m = String::from_str("Expected ");
                    let d1 = debug_token(&expected);
                    push_str(&mut m, d1.as_str());
                    push_str(&mut m, ", found ");
                    let d2 = debug_token(&token);
                    push_str(&mut m, d2.as_str());
                    Err(m)
                }
            },
            None => {
                let mut m = String::from_str("Expected ");
                let d1 = debug_token(&expected);
                push_str(&mut m, d1.as_str());
                push_str(&mut m, ", found EOF");
                Err(m)
            },
        }
    }

    fn expect_identifier(&mut self) -> (r: Result<String, String>)
        requires
            old(self).wf(),
        ensures
            final(self).wf(),
            final(self).token_values() == old(self).token_values(),
            match sp_expect_identifier(old(self).token_values(), old(self).position()) {
                Ok((n, p)) => r matches Ok(x) && x@ == n && final(self).position() == p,
                Err(m) => r matches Err(x) && x@ == m,
            },
    {
        match self.advance() {
            Some(Token::Identifier(name)) => Ok(name),
            Some(token) => Err(found_message("Expected identifier, found ", Some(&token))),
            None => Err(found_message("Expected identifier, found ", None)),
        }
    }

    fn parse_type(&mut self) -> (r: Result<Type, String>)
        requires
            old(self).wf(),
        ensures
            final(self).wf(),
            final(self).token_values() == old(self).token_values(),
            match sp_type(old(self).token_values(), old(self).position()) {
                Ok((t, p)) => r == Ok::<Type, String>(t) && final(self).position() == p,
                Err(m) => r matches Err(x) && x@ == m,
            },
            r is Ok ==> old(self).position() < final(self).position(),
    {
        let ghost ts = self.token_values();
        let mut var_type = match self.advance() {
            Some(Token::Int) => Type::Int,
            Some(Token::Char) => Type::Char,
            Some(Token::Void) => Type::Void,
            Some(token) => return Err(found_message("Expected type, found ", Some(&token))),
            None => return Err(found_message("Expected type, found ", None)),
        };
        let ghost target = sp_type(ts, old(self).position());
        loop
            invariant
                self.wf(),
                self.token_values() == ts,
                ts == old(self).token_values(),
                old(self).position() < self.position(),
                target == sp_type(ts, old(self).position()),
                target == Ok::<(Type, int), Seq<char>>(sp_pointers(ts, self.position(), var_type)),
            decreases ts.len() - self.position(),
        {
            match self.peek() {
                Some(Token::Star) => {
                    self.advance();
                    var_type = Type::Pointer(Box::new(var_type));
                },
                _ => return Ok(var_type),
            }
        }
    }

    fn parse_expression(&mut self) -> (r: Result<Expr, String>)
        requires
            old(self).wf(),
        ensures
            final(self).wf(),
            final(self).token_values() == old(self).token_values(),
            expr_outcome(r, final(self).position()) == sp_assignment(
                old(self).token_values(),
                old(self).position(),
            ),
            r is Ok ==> old(self).position() < final(self).position(),
        decreases old(self).token_values().len() - old(self).position(), 39nat,
    {
        self.parse_assignment()
    }

    fn parse_assignment(&mut self) -> (r: Result<Expr, String>)
        requires
            old(self).wf(),
        ensures
            final(self).wf(),
            final(self).token_values() == old(self).token_values(),
            expr_outcome(r, final(self).position()) == sp_assignment(
                old(self).token_values(),
                old(self).position(),
            ),
            r is Ok ==> old(self).position() < final(self).position(),
        decreases old(self).token_values().len() - old(self).position(), 38nat,
    {
        let left = self.parse_ternary()?;
        let op: Option<Option<BinaryOp>> = match self.peek() {
            Some(token) => match token {
                Token::Assign => Some(None),
                Token::PlusAssign => Some(Some(BinaryOp::Add)),
                Token::MinusAssign => Some(Some(BinaryOp::Sub)),
                Token::StarAssign => Some(Some(BinaryOp::Mul)),
                Token::SlashAssign => Some(Some(BinaryOp::Div)),
                Token::PercentAssign => Some(Some(BinaryOp::Mod)),
                Token::AndAssign => Some(Some(BinaryOp::BitAnd)),
                Token::OrAssign => Some(Some(BinaryOp::BitOr)),
                Token::XorAssign => Some(Some(BinaryOp::BitXor)),
                Token::ShiftLeftAssign => Some(Some(BinaryOp::ShiftLeft)),
                Token::ShiftRightAssign => Some(Some(BinaryOp::ShiftRight)),
                _ => None,
            },
            None => None,
        };
        match op {
            None => Ok(left),
            Some(op) => {
                self.advance();
                let right = self.parse_assignment()?;
                match op {
                    Some(bin_op) => {
                        let copy = left.clone();
                        let ghost (lv, rv) = (left@, right@);
                        let combined = Expr::BinaryOp {
                            op: bin_op,
                            left: Box::new(left),
                            right: Box::new(right),
                        };
                        assert(combined@ == bin(bin_op, lv, rv));
                        let e = Expr::Assignment { left: Box::new(copy), right: Box::new(combined) };
                        assert(e@ == assignment_tree(op, lv, rv));
                        Ok(e)
                    },
                    None => {
                        let ghost (lv, rv) = (left@, right@);
                        let e = Expr::Assignment { left: Box::new(left), right: Box::new(right) };
                        assert(e@ == assignment_tree(op, lv, rv));
                        Ok(e)
                    },
                }
            },
        }
    }

    fn parse_ternary(&mut self) -> (r: Result<Expr, String>)
        requires
            old(self).wf(),
        ensures
            final(self).wf(),
            final(self).token_values() == old(self).token_values(),
            expr_outcome(r, final(self).position()) == sp_conditional(
                old(self).token_values(),
                old(self).position(),
            ),
            r is Ok ==> old(self).position() < final(self).position(),
        decreases old(self).token_values().len() - old(self).position(), 37nat,
    {
        let condition = self.parse_or()?;
        let is_question = match self.peek() {
            Some(Token::Question) => true,
            _ => false,
        };
        if is_question {
            self.advance();
            let then_expr = self.parse_expression()?;
            self.expect(Token::Colon)?;
            let else_expr = self.parse_ternary()?;
            let ghost (c, a, b) = (condition@, then_expr@, else_expr@);
            let same = Expr::BinaryOp {
                op: BinaryOp::Equal,
                left: Box::new(then_expr),
                right: Box::new(else_expr),
            };
            assert(same@ == bin(BinaryOp::Equal, a, b));
            let zero = Expr::IntConst(0);
            assert(zero@ == SpecExpr::IntConst(0));
            let zero_test = Expr::BinaryOp {
                op: BinaryOp::Equal,
                left: Box::new(zero),
                right: Box::new(same),
            };
            assert(zero_test@ == bin(BinaryOp::Equal, SpecExpr::IntConst(0), bin(BinaryOp::Equal, a, b)));
            let one = Expr::IntConst(1);
            assert(one@ == SpecExpr::IntConst(1));
            let one_test = Expr::BinaryOp {
                op: BinaryOp::Equal,
                left: Box::new(condition),
                right: Box::new(one),
            };
            assert(one_test@ == bin(BinaryOp::Equal, c, SpecExpr::IntConst(1)));
            let e = Expr::BinaryOp {
                op: BinaryOp::Equal,
                left: Box::new(one_test),
                right: Box::new(zero_test),
            };
            assert(e@ == conditional_tree(c, a, b));
            Ok(e)
        } else {
            Ok(condition)
        }
    }

    fn parse_multiplicative(&mut self) -> (r: Result<Expr, String>)
        requires
            old(self).wf(),
        ensures
            final(self).wf(),
            final(self).token_values() == old(self).token_values(),
            expr_outcome(r, final(self).position()) == sp_binary(old(self).token_values(), old(self).position(), 1),
            r is Ok ==> old(self).position() < final(self).position(),
        decreases old(self).token_values().len() - old(self).position(), 9nat,
    {
        let ghost ts = self.token_values();
        let ghost pos0 = self.position();
        assert(sp_operand(ts, pos0, 1) == sp_unary(ts, pos0));
        let mut left = self.parse_unary()?;
        loop
            invariant
                self.wf(),
                ts == old(self).token_values(),
                pos0 == old(self).position(),
                self.token_values() == ts,
                pos0 < self.position(),
                sp_binary_rest(ts, self.position(), 1, left@) == sp_binary(ts, pos0, 1),
            decreases ts.len() - self.position(),
        {
            let ghost p = self.position();
            let op = match self.peek() {
                Some(Token::Star) => Some(BinaryOp::Mul),
                Some(Token::Slash) => Some(BinaryOp::Div),
                Some(Token::Percent) => Some(BinaryOp::Mod),
                _ => None,
            };
            match op {
                Some(op) => {
                    assert(sp_operand(ts, p + 1, 1) == sp_unary(ts, p + 1));
                    self.advance();
                    let right = self.parse_unary()?;
                    left = Expr::BinaryOp { op, left: Box::new(left), right: Box::new(right) };
                },
                None => return Ok(left),
            }
        }
    }

    fn parse_additive(&mut self) -> (r: Result<Expr, String>)
        requires
            old(self).wf(),
        ensures
            final(self).wf(),
            final(self).token_values() == old(self).token_values(),
            expr_outcome(r, final(self).position()) == sp_binary(old(self).token_values(), old(self).position(), 2),
            r is Ok ==> old(self).position() < final(self).position(),
        decreases old(self).token_values().len() - old(self).position(), 12nat,
    {
        let ghost ts = self.token_values();
        let ghost pos0 = self.position();
        assert(sp_operand(ts, pos0, 2) == sp_binary(ts, pos0, 1));
        let mut left = self.parse_multiplicative()?;
        loop
            invariant
                self.wf(),
                ts == old(self).token_values(),
                pos0 == old(self).position(),
                self.token_values() == ts,
                pos0 < self.position(),
                sp_binary_rest(ts, self.position(), 2, left@) == sp_binary(ts, pos0, 2),
            decreases ts.len() - self.position(),
        {
            let ghost p = self.position();
            let op = match self.peek() {
                Some(Token::Plus) => Some(BinaryOp::Add),
                Some(Token::Minus) => Some(BinaryOp::Sub),
                _ => None,
            };
            match op {
                Some(op) => {
                    assert(sp_operand(ts, p + 1, 2) == sp_binary(ts, p + 1, 1));
                    self.advance();
                    let right = self.parse_multiplicative()?;
                    left = Expr::BinaryOp { op, left: Box::new(left), right: Box::new(right) };
                },
                None => return Ok(left),
            }
        }
    }

    fn parse_shift(&mut self) -> (r: Result<Expr, String>)
        requires
            old(self).wf(),
        ensures
            final(self).wf(),
            final(self).token_values() == old(self).token_values(),
            expr_outcome(r, final(self).position()) == sp_binary(old(self).token_values(), old(self).position(), 3),
            r is Ok ==> old(self).position() < final(self).position(),
        decreases old(self).token_values().len() - old(self).position(), 15nat,
    {
        let ghost ts = self.token_values();
        let ghost pos0 = self.position();
        assert(sp_operand(ts, pos0, 3) == sp_binary(ts, pos0, 2));
        let mut left = self.parse_additive()?;
        loop
            invariant
                self.wf(),
                ts == old(self).token_values(),
                pos0 == old(self).position(),
                self.token_values() == ts,
                pos0 < self.position(),
                sp_binary_rest(ts, self.position(), 3, left@) == sp_binary(ts, pos0, 3),
            decreases ts.len() - self.position(),
        {
            let ghost p = self.position();
            let op = match self.peek() {
                Some(Token::ShiftLeft) => Some(BinaryOp::ShiftLeft),
                Some(Token::ShiftRight) => Some(BinaryOp::ShiftRight),
                _ => None,
            };
            match op {
                Some(op) => {
                    assert(sp_operand(ts, p + 1, 3) == sp_binary(ts, p + 1, 2));
                    self.advance();
                    let right = self.parse_additive()?;
                    left = Expr::BinaryOp { op, left: Box::new(left), right: Box::new(right) };
                },
                None => return Ok(left),
            }
        }
    }

    fn parse_relational(&mut self) -> (r: Result<Expr, String>)
        requires
            old(self).wf(),
        ensures
            final(self).wf(),
            final(self).token_values() == old(self).token_values(),
            expr_outcome(r, final(self).position()) == sp_binary(old(self).token_values(), old(self).position(), 4),
            r is Ok ==> old(self).position() < final(self).position(),
        decreases old(self).token_values().len() - old(self).position(), 18nat,
    {
        let ghost ts = self.token_values();
        let ghost pos0 = self.position();
        assert(sp_operand(ts, pos0, 4) == sp_binary(ts, pos0, 3));
        let mut left = self.parse_shift()?;
        loop
            invariant
                self.wf(),
                ts == old(self).token_values(),
                pos0 == old(self).position(),
                self.token_values() == ts,
                pos0 < self.position(),
                sp_binary_rest(ts, self.position(), 4, left@) == sp_binary(ts, pos0, 4),
            decreases ts.len() - self.position(),
        {
            let ghost p = self.position();
            let op = match self.peek() {
                Some(Token::Less) => Some(BinaryOp::Less),
                Some(Token::LessEqual) => Some(BinaryOp::LessEqual),
                Some(Token::Greater) => Some(BinaryOp::Greater),
                Some(Token::GreaterEqual) => Some(BinaryOp::GreaterEqual),
                _ => None,
            };
            match op {
                Some(op) => {
                    assert(sp_operand(ts, p + 1, 4) == sp_binary(ts, p + 1, 3));
                    self.advance();
                    let right = self.parse_shift()?;
                    left = Expr::BinaryOp { op, left: Box::new(left), right: Box::new(right) };
                },
                None => return Ok(left),
            }
        }
    }

    fn parse_equality(&mut self) -> (r: Result<Expr, String>)
        requires
            old(self).wf(),
        ensures
            final(self).wf(),
            final(self).token_values() == old(self).token_values(),
            expr_outcome(r, final(self).position()) == sp_binary(old(self).token_values(), old(self).position(), 5),
            r is Ok ==> old(self).position() < final(self).position(),
        decreases old(self).token_values().len() - old(self).position(), 21nat,
    {
        let ghost ts = self.token_values();
        let ghost pos0 = self.position();
        assert(sp_operand(ts, pos0, 5) == sp_binary(ts, pos0, 4));
        let mut left = self.parse_relational()?;
        loop
            invariant
                self.wf(),
                ts == old(self).token_values(),
                pos0 == old(self).position(),
                self.token_values() == ts,
                pos0 < self.position(),
                sp_binary_rest(ts, self.position(), 5, left@) == sp_binary(ts, pos0, 5),
            decreases ts.len() - self.position(),
        {
            let ghost p = self.position();
            let op = match self.peek() {
                Some(Token::EqualEqual) => Some(BinaryOp::Equal),
                Some(Token::NotEqual) => Some(BinaryOp::NotEqual),
                _ => None,
            };
            match op {
                Some(op) => {
                    assert(sp_operand(ts, p + 1, 5) == sp_binary(ts, p + 1, 4));
                    self.advance();
                    let right = self.parse_relational()?;
                    left = Expr::BinaryOp { op, left: Box::new(left), right: Box::new(right) };
                },
                None => return Ok(left),
            }
        }
    }

    fn parse_bitwise_and(&mut self) -> (r: Result<Expr, String>)
        requires
            old(self).wf(),
        ensures
            final(self).wf(),
            final(self).token_values() == old(self).token_values(),
            expr_outcome(r, final(self).position()) == sp_binary(old(self).token_values(), old(self).position(), 6),
            r is Ok ==> old(self).position() < final(self).position(),
        decreases old(self).token_values().len() - old(self).position(), 24nat,
    {
        let ghost ts = self.token_values();
        let ghost pos0 = self.position();
        assert(sp_operand(ts, pos0, 6) == sp_binary(ts, pos0, 5));
        let mut left = self.parse_equality()?;
        loop
            invariant
                self.wf(),
                ts == old(self).token_values(),
                pos0 == old(self).position(),
                self.token_values() == ts,
                pos0 < self.position(),
                sp_binary_rest(ts, self.position(), 6, left@) == sp_binary(ts, pos0, 6),
            decreases ts.len() - self.position(),
        {
            let ghost p = self.position();
            let op = match self.peek() {
                Some(Token::BitAnd) => Some(BinaryOp::BitAnd),
                _ => None,
            };
            match op {
                Some(op) => {
                    assert(sp_operand(ts, p + 1, 6) == sp_binary(ts, p + 1, 5));
                    self.advance();
                    let right = self.parse_equality()?;
                    left = Expr::BinaryOp { op, left: Box::new(left), right: Box::new(right) };
                },
                None => return Ok(left),
            }
        }
    }

    fn parse_bitwise_xor(&mut self) -> (r: Result<Expr, String>)
        requires
            old(self).wf(),
        ensures
            final(self).wf(),
            final(self).token_values() == old(self).token_values(),
            expr_outcome(r, final(self).position()) == sp_binary(old(self).token_values(), old(self).position(), 7),
            r is Ok ==> old(self).position() < final(self).position(),
        decreases old(self).token_values().len() - old(self).position(), 27nat,
    {
        let ghost ts = self.token_values();
        let ghost pos0 = self.position();
        assert(sp_operand(ts, pos0, 7) == sp_binary(ts, pos0, 6));
        let mut left = self.parse_bitwise_and()?;
        loop
            invariant
                self.wf(),
                ts == old(self).token_values(),
                pos0 == old(self).position(),
                self.token_values() == ts,
                pos0 < self.position(),
                sp_binary_rest(ts, self.position(), 7, left@) == sp_binary(ts, pos0, 7),
            decreases ts.len() - self.position(),
        {
            let ghost p = self.position();
            let op = match self.peek() {
                Some(Token::BitXor) => Some(BinaryOp::BitXor),
                _ => None,
            };
            match op {
                Some(op) => {
                    assert(sp_operand(ts, p + 1, 7) == sp_binary(ts, p + 1, 6));
                    self.advance();
                    let right = self.parse_bitwise_and()?;
                    left = Expr::BinaryOp { op, left: Box::new(left), right: Box::new(right) };
                },
                None => return Ok(left),
            }
        }
    }

    fn parse_bitwise_or(&mut self) -> (r: Result<Expr, String>)
        requires
            old(self).wf(),
        ensures
            final(self).wf(),
            final(self).token_values() == old(self).token_values(),
            expr_outcome(r, final(self).position()) == sp_binary(old(self).token_values(), old(self).position(), 8),
            r is Ok ==> old(self).position() < final(self).position(),
        decreases old(self).token_values().len() - old(self).position(), 30nat,
    {
        let ghost ts = self.token_values();
        let ghost pos0 = self.position();
        assert(sp_operand(ts, pos0, 8) == sp_binary(ts, pos0, 7));
        let mut left = self.parse_bitwise_xor()?;
        loop
            invariant
                self.wf(),
                ts == old(self).token_values(),
                pos0 == old(self).position(),
                self.token_values() == ts,
                pos0 < self.position(),
                sp_binary_rest(ts, self.position(), 8, left@) == sp_binary(ts, pos0, 8),
            decreases ts.len() - self.position(),
        {
            let ghost p = self.position();
            let op = match self.peek() {
                Some(Token::BitOr) => Some(BinaryOp::BitOr),
                _ => None,
            };
            match op {
                Some(op) => {
                    assert(sp_operand(ts, p + 1, 8) == sp_binary(ts, p + 1, 7));
                    self.advance();
                    let right = self.parse_bitwise_xor()?;
                    left = Expr::BinaryOp { op, left: Box::new(left), right: Box::new(right) };
                },
                None => return Ok(left),
            }
        }
    }

    fn parse_and(&mut self) -> (r: Result<Expr, String>)
        requires
            old(self).wf(),
        ensures
            final(self).wf(),
            final(self).token_values() == old(self).token_values(),
            expr_outcome(r, final(self).position()) == sp_binary(old(self).token_values(), old(self).position(), 9),
            r is Ok ==> old(self).position() < final(self).position(),
        decreases old(self).token_values().len() - old(self).position(), 33nat,
    {
        let ghost ts = self.token_values();
        let ghost pos0 = self.position();
        assert(sp_operand(ts, pos0, 9) == sp_binary(ts, pos0, 8));
        let mut left = self.parse_bitwise_or()?;
        loop
            invariant
                self.wf(),
                ts == old(self).token_values(),
                pos0 == old(self).position(),
                self.token_values() == ts,
                pos0 < self.position(),
                sp_binary_rest(ts, self.position(), 9, left@) == sp_binary(ts, pos0, 9),
            decreases ts.len() - self.position(),
        {
            let ghost p = self.position();
            let op = match self.peek() {
                Some(Token::And) => Some(BinaryOp::And),
                _ => None,
            };
            match op {
                Some(op) => {
                    assert(sp_operand(ts, p + 1, 9) == sp_binary(ts, p + 1, 8));
                    self.advance();
                    let right = self.parse_bitwise_or()?;
                    left = Expr::BinaryOp { op, left: Box::new(left), right: Box::new(right) };
                },
                None => return Ok(left),
            }
        }
    }

    fn parse_or(&mut self) -> (r: Result<Expr, String>)
        requires
            old(self).wf(),
        ensures
            final(self).wf(),
            final(self).token_values() == old(self).token_values(),
            expr_outcome(r, final(self).position()) == sp_binary(old(self).token_values(), old(self).position(), 10),
            r is Ok ==> old(self).position() < final(self).position(),
        decreases old(self).token_values().len() - old(self).position(), 36nat,
    {
        let ghost ts = self.token_values();
        let ghost pos0 = self.position();
        assert(sp_operand(ts, pos0, 10) == sp_binary(ts, pos0, 9));
        let mut left = self.parse_and()?;
        loop
            invariant
                self.wf(),
                ts == old(self).token_values(),
                pos0 == old(self).position(),
                self.token_values() == ts,
                pos0 < self.position(),
                sp_binary_rest(ts, self.position(), 10, left@) == sp_binary(ts, pos0, 10),
            decreases ts.len() - self.position(),
        {
            let ghost p = self.position();
            let op = match self.peek() {
                Some(Token::Or) => Some(BinaryOp::Or),
                _ => None,
            };
            match op {
                Some(op) => {
                    assert(sp_operand(ts, p + 1, 10) == sp_binary(ts, p + 1, 9));
                    self.advance();
                    let right = self.parse_and()?;
                    left = Expr::BinaryOp { op, left: Box::new(left), right: Box::new(right) };
                },
                None => return Ok(left),
            }
        }
    }

    fn parse_unary(&mut self) -> (r: Result<Expr, String>)
        requires
            old(self).wf(),
        ensures
            final(self).wf(),
            final(self).token_values() == old(self).token_values(),
            expr_outcome(r, final(self).position()) == sp_unary(
                old(self).token_values(),
                old(self).position(),
            ),
            r is Ok ==> old(self).position() < final(self).position(),
        decreases old(self).token_values().len() - old(self).position(), 3nat,
    {
        if let Some(Token::Plus) = self.peek() {
            self.advance();
            return self.parse_unary();
        }
        let op = match self.peek() {
            Some(Token::Minus) => Some(UnaryOp::Negate),
            Some(Token::Not) => Some(UnaryOp::Not),
            Some(Token::BitNot) => Some(UnaryOp::BitNot),
            Some(Token::PlusPlus) => Some(UnaryOp::PreInc),
            Some(Token::MinusMinus) => Some(UnaryOp::PreDec),
            Some(Token::Star) => Some(UnaryOp::Deref),
            Some(Token::BitAnd) => Some(UnaryOp::Address),
            _ => None,
        };
        if let Some(op) = op {
            self.advance();
            let operand = self.parse_unary()?;
            return Ok(Expr::UnaryOp { op, operand: Box::new(operand) });
        }
        self.parse_postfix()
    }

    /// The arguments of a call, after its `(`, up to and including the `)`.
    fn parse_call_arguments(&mut self) -> (r: Result<Vec<Expr>, String>)
        requires
            old(self).wf(),
        ensures
            final(self).wf(),
            final(self).token_values() == old(self).token_values(),
            match sp_arguments(old(self).token_values(), old(self).position(), seq![]) {
                Ok((args, p)) => r matches Ok(v) && exprs_view(v@) == args && final(self).position()
                    == p,
                Err(m) => r matches Err(x) && x@ == m,
            },
            r is Ok ==> old(self).position() < final(self).position(),
        decreases old(self).token_values().len() - old(self).position(), 50nat,
    {
        let ghost ts = self.token_values();
        let ghost target = sp_arguments(ts, self.position(), seq![]);
        let mut args: Vec<Expr> = Vec::new();
        assert(exprs_view(args@) =~= seq![]);
        loop
            invariant
                self.wf(),
                self.token_values() == ts,
                ts == old(self).token_values(),
                target == sp_arguments(ts, old(self).position(), seq![]),
                old(self).position() <= self.position(),
                sp_arguments(ts, self.position(), exprs_view(args@)) == target,
            decreases ts.len() - self.position(),
        {
            let ghost before = exprs_view(args@);
            let a = self.parse_assignment()?;
            let ghost av = a@;
            args.push(a);
            assert(exprs_view(args@) =~= before.push(av));
            match self.peek() {
                Some(Token::Comma) => {
                    self.advance();
                },
                Some(Token::CloseParen) => {
                    self.advance();
                    return Ok(args);
                },
                Some(token) => {
                    return Err(found_message("Expected ',' or ')', found ", Some(token)));
                },
                None => return Err(found_message("Expected ',' or ')', found ", None)),
            }
        }
    }

    fn parse_postfix(&mut self) -> (r: Result<Expr, String>)
        requires
            old(self).wf(),
        ensures
            final(self).wf(),
            final(self).token_values() == old(self).token_values(),
            expr_outcome(r, final(self).position()) == sp_postfix(
                old(self).token_values(),
                old(self).position(),
            ),
            r is Ok ==> old(self).position() < final(self).position(),
        decreases old(self).token_values().len() - old(self).position(), 2nat,
    {
        let ghost ts = self.token_values();
        let ghost pos0 = self.position();
        let mut expr = self.parse_primary()?;
        loop
            invariant
                self.wf(),
                ts == old(self).token_values(),
                pos0 == old(self).position(),
                self.token_values() == ts,
                pos0 < self.position(),
                sp_postfix_rest(ts, self.position(), expr@) == sp_postfix(ts, pos0),
            decreases ts.len() - self.position(),
        {
            let more = match self.peek() {
                Some(Token::OpenParen) => true,
                Some(Token::OpenBracket) => true,
                Some(Token::Dot) => true,
                Some(Token::Arrow) => true,
                Some(Token::PlusPlus) => true,
                Some(Token::MinusMinus) => true,
                _ => false,
            };
            if !more {
                return Ok(expr);
            }
            expr = self.parse_postfix_operation(expr)?;
        }
    }

    /// Applies the postfix operation that starts at the next token to `expr`.
    #[verifier::rlimit(100)]
    #[verifier::spinoff_prover]
    fn parse_postfix_operation(&mut self, expr: Expr) -> (r: Result<Expr, String>)
        requires
            old(self).wf(),
            is_postfix_start(tok_at(old(self).token_values(), old(self).position())),
        ensures
            final(self).wf(),
            final(self).token_values() == old(self).token_values(),
            expr_outcome(r, final(self).position()) == sp_postfix_operation(
                old(self).token_values(),
                old(self).position(),
                expr@,
            ),
            r is Ok ==> old(self).position() < final(self).position(),
        decreases old(self).token_values().len() - old(self).position(), 0nat,
    {
        let ghost e = expr@;
        match self.advance() {
            Some(Token::OpenParen) => {
                let no_args = match self.peek() {
                    Some(Token::CloseParen) => true,
                    _ => false,
                };
                if no_args {
                    self.advance();
                    let call = Expr::Call { func: Box::new(expr), args: Vec::new() };
                    assert(call@ == SpecExpr::Call { func: Box::new(e), args: seq![] }) by {
                        assert(call@->args =~= seq![]);
                    }
                    Ok(call)
                } else {
                    let args = self.parse_call_arguments()?;
                    let ghost av = exprs_view(args@);
                    let call = Expr::Call { func: Box::new(expr), args };
                    assert(call@ == SpecExpr::Call { func: Box::new(e), args: av }) by {
                        assert(call@->args =~= av);
                    }
                    Ok(call)
                }
            },
            Some(Token::OpenBracket) => {
                let index = self.parse_expression()?;
                self.expect(Token::CloseBracket)?;
                let ghost iv = index@;
                let sum = Expr::BinaryOp {
                    op: BinaryOp::Add,
                    left: Box::new(expr),
                    right: Box::new(index),
                };
                assert(sum@ == bin(BinaryOp::Add, e, iv));
                let r = Expr::UnaryOp { op: UnaryOp::Deref, operand: Box::new(sum) };
                assert(r@ == un(UnaryOp::Deref, bin(BinaryOp::Add, e, iv)));
                Ok(r)
            },
            Some(Token::Dot) => {
                let field = self.expect_identifier()?;
                Ok(Expr::Identifier(field))
            },
            Some(Token::Arrow) => {
                let field = self.expect_identifier()?;
                let name = Expr::Identifier(field);
                let ghost nv = name@;
                let r = Expr::UnaryOp { op: UnaryOp::Deref, operand: Box::new(name) };
                assert(r@ == un(UnaryOp::Deref, nv));
                Ok(r)
            },
            Some(Token::PlusPlus) => {
                let r = Expr::UnaryOp { op: UnaryOp::PostInc, operand: Box::new(expr) };
                assert(r@ == un(UnaryOp::PostInc, e));
                Ok(r)
            },
            Some(Token::MinusMinus) => {
                let r = Expr::UnaryOp { op: UnaryOp::PostDec, operand: Box::new(expr) };
                assert(r@ == un(UnaryOp::PostDec, e));
                Ok(r)
            },
            _ => Ok(expr),
        }
    }

    fn parse_primary(&mut self) -> (r: Result<Expr, String>)
        requires
            old(self).wf(),
        ensures
            final(self).wf(),
            final(self).token_values() == old(self).token_values(),
            expr_outcome(r, final(self).position()) == sp_primary(
                old(self).token_values(),
                old(self).position(),
            ),
            r is Ok ==> old(self).position() < final(self).position(),
        decreases old(self).token_values().len() - old(self).position(), 0nat,
    {
        match self.advance() {
            Some(Token::IntConst(value)) => Ok(Expr::IntConst(value)),
            Some(Token::CharConst(value)) => Ok(Expr::CharConst(value)),
            Some(Token::StringConst(value)) => Ok(Expr::StringConst(value)),
            Some(Token::Identifier(name)) => Ok(Expr::Identifier(name)),
            Some(Token::OpenParen) => {
                let expr = self.parse_expression()?;
                self.expect(Token::CloseParen)?;
                Ok(expr)
            },
            Some(token) => Err(found_message("Expected expression, found ", Some(&token))),
            None => Err(found_message("Expected expression, found ", None)),
        }
    }

    fn parse_statement(&mut self) -> (r: Result<Stmt, String>)
        requires
            old(self).wf(),
        ensures
            final(self).wf(),
            final(self).token_values() == old(self).token_values(),
            stmt_outcome(r, final(self).position()) == sp_statement(
                old(self).token_values(),
                old(self).position(),
            ),
            r is Ok ==> old(self).position() < final(self).position(),
        decreases old(self).token_values().len() - old(self).position(), 3nat,
    {
        match self.peek() {
            Some(Token::OpenBrace) => self.parse_block(),
            Some(Token::If) => self.parse_if(),
            Some(Token::While) => self.parse_while(),
            Some(Token::Do) => self.parse_do_while(),
            Some(Token::For) => self.parse_for(),
            Some(Token::Return) => self.parse_return(),
            Some(Token::Break) => {
                self.advance();
                self.expect(Token::Semicolon)?;
                Ok(Stmt::Break)
            },
            Some(Token::Continue) => {
                self.advance();
                self.expect(Token::Semicolon)?;
                Ok(Stmt::Continue)
            },
            Some(Token::Int) => self.parse_declaration(),
            Some(Token::Char) => self.parse_declaration(),
            Some(Token::Semicolon) => {
                self.advance();
                let zero = Expr::IntConst(0);
                assert(zero@ == SpecExpr::IntConst(0));
                Ok(Stmt::Expr(zero))
            },
            _ => {
                let expr = self.parse_expression()?;
                self.expect(Token::Semicolon)?;
                Ok(Stmt::Expr(expr))
            },
        }
    }

    fn parse_block(&mut self) -> (r: Result<Stmt, String>)
        requires
            old(self).wf(),
        ensures
            final(self).wf(),
            final(self).token_values() == old(self).token_values(),
            stmt_outcome(r, final(self).position()) == sp_block(
                old(self).token_values(),
                old(self).position(),
            ),
            r is Ok ==> old(self).position() < final(self).position(),
        decreases old(self).token_values().len() - old(self).position(), 2nat,
    {
        let ghost ts = self.token_values();
        let ghost pos0 = self.position();
        self.expect(Token::OpenBrace)?;
        let mut statements: Vec<Stmt> = Vec::new();
        assert(stmts_view(statements@) =~= seq![]);
        loop
            invariant
                self.wf(),
                ts == old(self).token_values(),
                pos0 == old(self).position(),
                self.token_values() == ts,
                pos0 < self.position(),
                sp_block_rest(ts, self.position(), stmts_view(statements@)) == sp_block(ts, pos0),
            decreases ts.len() - self.position(),
        {
            let stop = match self.peek() {
                Some(token) => match token {
                    Token::CloseBrace => true,
                    _ => false,
                },
                None => true,
            };
            if stop {
                self.expect(Token::CloseBrace)?;
                let ghost sv = stmts_view(statements@);
                let block = Stmt::Block(statements);
                assert(block@ == SpecStmt::Block(sv)) by {
                    assert(block@->Block_0 =~= sv);
                }
                return Ok(block);
            }
            let ghost before = stmts_view(statements@);
            let s = self.parse_statement()?;
            let ghost sv = s@;
            statements.push(s);
            assert(stmts_view(statements@) =~= before.push(sv));
        }
    }

    fn parse_if(&mut self) -> (r: Result<Stmt, String>)
        requires
            old(self).wf(),
        ensures
            final(self).wf(),
            final(self).token_values() == old(self).token_values(),
            stmt_outcome(r, final(self).position()) == sp_if(
                old(self).token_values(),
                old(self).position(),
            ),
            r is Ok ==> old(self).position() < final(self).position(),
        decreases old(self).token_values().len() - old(self).position(), 2nat,
    {
        self.expect(Token::If)?;
        self.expect(Token::OpenParen)?;
        let condition = self.parse_expression()?;
        self.expect(Token::CloseParen)?;
        let then_stmt = Box::new(self.parse_statement()?);
        let has_else = match self.peek() {
            Some(Token::Else) => true,
            _ => false,
        };
        let else_stmt = if has_else {
            self.advance();
            Some(Box::new(self.parse_statement()?))
        } else {
            None
        };
        Ok(Stmt::If { condition, then_stmt, else_stmt })
    }

    fn parse_while(&mut self) -> (r: Result<Stmt, String>)
        requires
            old(self).wf(),
        ensures
            final(self).wf(),
            final(self).token_values() == old(self).token_values(),
            stmt_outcome(r, final(self).position()) == sp_while(
                old(self).token_values(),
                old(self).position(),
            ),
            r is Ok ==> old(self).position() < final(self).position(),
        decreases old(self).token_values().len() - old(self).position(), 2nat,
    {
        self.expect(Token::While)?;
        self.expect(Token::OpenParen)?;
        let condition = self.parse_expression()?;
        self.expect(Token::CloseParen)?;
        let body = Box::new(self.parse_statement()?);
        Ok(Stmt::While { condition, body })
    }

    fn parse_do_while(&mut self) -> (r: Result<Stmt, String>)
        requires
            old(self).wf(),
        ensures
            final(self).wf(),
            final(self).token_values() == old(self).token_values(),
            stmt_outcome(r, final(self).position()) == sp_do_while(
                old(self).token_values(),
                old(self).position(),
            ),
            r is Ok ==> old(self).position() < final(self).position(),
        decreases old(self).token_values().len() - old(self).position(), 2nat,
    {
        self.expect(Token::Do)?;
        let body = Box::new(self.parse_statement()?);
        self.expect(Token::While)?;
        self.expect(Token::OpenParen)?;
        let condition = self.parse_expression()?;
        self.expect(Token::CloseParen)?;
        self.expect(Token::Semicolon)?;
        Ok(Stmt::DoWhile { body, condition })
    }

    fn parse_for(&mut self) -> (r: Result<Stmt, String>)
        requires
            old(self).wf(),
        ensures
            final(self).wf(),
            final(self).token_values() == old(self).token_values(),
            stmt_outcome(r, final(self).position()) == sp_for(
                old(self).token_values(),
                old(self).position(),
            ),
            r is Ok ==> old(self).position() < final(self).position(),
        decreases old(self).token_values().len() - old(self).position(), 2nat,
    {
        let ghost ts = self.token_values();
        self.expect(Token::For)?;
        self.expect(Token::OpenParen)?;
        let ghost p2 = self.position();
        let init = match self.peek() {
            Some(Token::Semicolon) => {
                self.advance();
                None
            },
            Some(Token::Int) => Some(Box::new(self.parse_declaration()?)),
            Some(Token::Char) => Some(Box::new(self.parse_declaration()?)),
            _ => {
                let expr = self.parse_expression()?;
                self.expect(Token::Semicolon)?;
                Some(Box::new(Stmt::Expr(expr)))
            },
        };
        let ghost init_view = boxed_stmt_view(init);
        assert(sp_for_init(ts, p2) == Ok::<(Option<SpecStmt>, int), Seq<char>>(
            (init_view, self.position()),
        ));
        let ghost p3 = self.position();
        let condition = match self.peek() {
            Some(Token::Semicolon) => {
                self.advance();
                None
            },
            _ => {
                let cond = self.parse_expression()?;
                self.expect(Token::Semicolon)?;
                Some(cond)
            },
        };
        assert(sp_for_condition(ts, p3) == Ok::<(Option<SpecExpr>, int), Seq<char>>(
            (opt_expr_model(condition), self.position()),
        ));
        let ghost p4 = self.position();
        let update = match self.peek() {
            Some(Token::CloseParen) => None,
            _ => Some(Box::new(self.parse_expression()?)),
        };
        self.expect(Token::CloseParen)?;
        let ghost update_view = boxed_expr_view(update);
        assert(sp_for_update(ts, p4) == Ok::<(Option<SpecExpr>, int), Seq<char>>(
            (update_view, self.position()),
        ));
        let body = Box::new(self.parse_statement()?);
        Ok(Stmt::For { init, condition, update, body })
    }

    fn parse_return(&mut self) -> (r: Result<Stmt, String>)
        requires
            old(self).wf(),
        ensures
            final(self).wf(),
            final(self).token_values() == old(self).token_values(),
            stmt_outcome(r, final(self).position()) == sp_return(
                old(self).token_values(),
                old(self).position(),
            ),
            r is Ok ==> old(self).position() < final(self).position(),
    {
        self.expect(Token::Return)?;
        let is_semicolon = match self.peek() {
            Some(Token::Semicolon) => true,
            _ => false,
        };
        let value = if is_semicolon {
            None
        } else {
            Some(self.parse_expression()?)
        };
        self.expect(Token::Semicolon)?;
        Ok(Stmt::Return(value))
    }

    fn parse_declaration(&mut self) -> (r: Result<Stmt, String>)
        requires
            old(self).wf(),
        ensures
            final(self).wf(),
            final(self).token_values() == old(self).token_values(),
            stmt_outcome(r, final(self).position()) == sp_declaration(
                old(self).token_values(),
                old(self).position(),
            ),
            r is Ok ==> old(self).position() < final(self).position(),
    {
        let var_type = self.parse_type()?;
        let name = self.expect_identifier()?;
        let is_assign = match self.peek() {
            Some(Token::Assign) => true,
            _ => false,
        };
        let init = if is_assign {
            self.advance();
            Some(self.parse_expression()?)
        } else {
            None
        };
        self.expect(Token::Semicolon)?;
        Ok(Stmt::Declaration { var_type, name, init })
    }

    fn parse_params(&mut self) -> (r: Result<Vec<(Type, String)>, String>)
        requires
            old(self).wf(),
        ensures
            final(self).wf(),
            final(self).token_values() == old(self).token_values(),
            match sp_params(old(self).token_values(), old(self).position()) {
                Ok((ps, p)) => r matches Ok(v) && params_model(v@) == ps && final(self).position()
                    == p,
                Err(m) => r matches Err(x) && x@ == m,
            },
            r is Ok ==> old(self).position() <= final(self).position(),
    {
        let ghost ts = self.token_values();
        let mut params: Vec<(Type, String)> = Vec::new();
        let empty = match self.peek() {
            Some(Token::CloseParen) => true,
            _ => false,
        };
        if empty {
            assert(params_model(params@) =~= seq![]);
            return Ok(params);
        }
        assert(params_model(params@) =~= seq![]);
        loop
            invariant
                self.wf(),
                self.token_values() == ts,
                ts == old(self).token_values(),
                old(self).position() <= self.position(),
                tok_at(ts, old(self).position()) != Some(SpecToken::CloseParen),
                sp_params_rest(ts, self.position(), params_model(params@)) == sp_params(
                    ts,
                    old(self).position(),
                ),
            decreases ts.len() - self.position(),
        {
            let ghost before = params_model(params@);
            let param_type = self.parse_type()?;
            let param_name = self.expect_identifier()?;
            let ghost entry = (param_type, param_name@);
            params.push((param_type, param_name));
            assert(params_model(params@) =~= before.push(entry));
            match self.peek() {
                Some(Token::Comma) => {
                    self.advance();
                },
                Some(Token::CloseParen) => return Ok(params),
                Some(token) => {
                    return Err(found_message("Expected ',' or ')', found ", Some(token)));
                },
                None => return Err(found_message("Expected ',' or ')', found ", None)),
            }
        }
    }

    /// Parses the top-level functions and global declarations from the current
    /// position to the end of the tokens (or an `EOF` token). A program is only
    /// returned once every token up to the end (or the `EOF` token) is read.
    pub fn parse(&mut self) -> (r: Result<Program, String>)
        requires
            old(self).wf(),
        ensures
            final(self).wf(),
            final(self).token_values() == old(self).token_values(),
            match sp_items(old(self).token_values(), old(self).position(), seq![], seq![]) {
                Ok(prog) => r matches Ok(p) && p@ == prog,
                Err(m) => r matches Err(x) && x@ == m,
            },
            r is Ok ==> tok_at(final(self).token_values(), final(self).position()) is None
                || tok_at(final(self).token_values(), final(self).position()) == Some(
                SpecToken::EOF,
            ),
    {
        let ghost ts = self.token_values();
        let mut functions: Vec<Function> = Vec::new();
        let mut global_declarations: Vec<(Type, String, Option<Expr>)> = Vec::new();
        assert(functions_view(functions@) =~= seq![]);
        assert(globals_view(global_declarations@) =~= seq![]);
        loop
            invariant
                self.wf(),
                self.token_values() == ts,
                ts == old(self).token_values(),
                sp_items(
                    ts,
                    self.position(),
                    functions_view(functions@),
                    globals_view(global_declarations@),
                ) == sp_items(ts, old(self).position(), seq![], seq![]),
            decreases ts.len() - self.position(),
        {
            let ghost pos = self.position();
            let ghost fv = functions_view(functions@);
            let ghost gv = globals_view(global_declarations@);
            let kind: u8 = match self.peek() {
                None => 0,
                Some(Token::EOF) => 0,
                Some(Token::Int) => 1,
                Some(Token::Char) => 1,
                Some(Token::Void) => 1,
                Some(_) => 2,
            };
            if kind == 0 {
                let program = Program { functions, global_declarations };
                assert(program@ == SpecProgram { functions: fv, global_declarations: gv }) by {
                    assert(program@.functions =~= fv);
                    assert(program@.global_declarations =~= gv);
                }
                return Ok(program);
            }
            if kind == 2 {
                let mut m = String::from_str("Expected type or function, found ");
                match self.peek() {
                    Some(token) => {
                        let d = debug_token(token);
                        push_str(&mut m, d.as_str());
                    },
                    None => {},
                }
                return Err(m);
            }
            let var_type = self.parse_type()?;
            let name = self.expect_identifier()?;
            let is_function = match self.peek() {
                Some(Token::OpenParen) => true,
                _ => false,
            };
            if is_function {
                self.advance();
                let params = self.parse_params()?;
                self.expect(Token::CloseParen)?;
                let body = self.parse_statement()?;
                let f = Function { return_type: var_type, name, params, body };
                let ghost f_view = f@;
                functions.push(f);
                assert(functions_view(functions@) =~= fv.push(f_view));
            } else {
                let is_assign = match self.peek() {
                    Some(Token::Assign) => true,
                    _ => false,
                };
                let init = if is_assign {
                    self.advance();
                    Some(self.parse_expression()?)
                } else {
                    None
                };
                self.expect(Token::Semicolon)?;
                let ghost g_view = (var_type, name@, opt_expr_model(init));
                global_declarations.push((var_type, name, init));
                assert(globals_view(global_declarations@) =~= gv.push(g_view));
            }
        }
    }
}

/// Parses a whole token sequence into a program, or gives the first syntax error.
pub fn parse(tokens: Vec<Token>) -> (r: Result<Program, String>)
    ensures
        match spec_parse(tokens_view(tokens@)) {
            Ok(prog) => r matches Ok(p) && p@ == prog,
            Err(m) => r matches Err(x) && x@ == m,
        },
{
    let mut parser = Parser::new(tokens);
    parser.parse()
}

/// The operator token that a compound-assignment token is spelled from: the
/// compound token is that operator's spelling followed by `=` (`-=` from `-`,
/// `<<=` from `<<`, ...).
pub open spec fn compound_base(t: SpecToken) -> Option<SpecToken> {
    match t {
        SpecToken::PlusAssign => Some(SpecToken::Plus),
        SpecToken::MinusAssign => Some(SpecToken::Minus),
        SpecToken::StarAssign => Some(SpecToken::Star),
        SpecToken::SlashAssign => Some(SpecToken::Slash),
        SpecToken::PercentAssign => Some(SpecToken::Percent),
        SpecToken::AndAssign => Some(SpecToken::BitAnd),
        SpecToken::OrAssign => Some(SpecToken::BitOr),
        SpecToken::XorAssign => Some(SpecToken::BitXor),
        SpecToken::ShiftLeftAssign => Some(SpecToken::ShiftLeft),
        SpecToken::ShiftRightAssign => Some(SpecToken::ShiftRight),
        _ => None,
    }
}

/// A compound assignment `l op= r` assigns to `l` the binary operation `l op r`,
/// `op` being exactly the operator that the same token without `=` stands for in
/// a binary expression; and that token is a binary operator.
pub proof fn lemma_compound_assignment_applies_its_operator(
    ts: Seq<SpecToken>,
    pos: int,
    l: SpecExpr,
    p1: int,
    t: SpecToken,
    r: SpecExpr,
    p2: int,
)
    requires
        sp_conditional(ts, pos) == ExprOutcome::Ok((l, p1)),
        pos <= p1,
        tok_at(ts, p1) == Some(t),
        compound_base(t) is Some,
        sp_assignment(ts, p1 + 1) == ExprOutcome::Ok((r, p2)),
    ensures
        exists|k: nat| #[trigger] binary_op_at(k, compound_base(t)->0) is Some,
        forall|k: nat, o: BinaryOp|
            binary_op_at(k, compound_base(t)->0) == Some(o) ==> sp_assignment(ts, pos)
                == ExprOutcome::Ok(
                (
                    SpecExpr::Assignment {
                        left: Box::new(l),
                        right: Box::new(
                            SpecExpr::BinaryOp { op: o, left: Box::new(l), right: Box::new(r) },
                        ),
                    },
                    p2,
                ),
            ),
{
    let b = compound_base(t)->0;
    match t {
        SpecToken::StarAssign | SpecToken::SlashAssign | SpecToken::PercentAssign => {
            assert(binary_op_at(1, b) is Some);
        },
        SpecToken::PlusAssign | SpecToken::MinusAssign => {
            assert(binary_op_at(2, b) is Some);
        },
        SpecToken::ShiftLeftAssign | SpecToken::ShiftRightAssign => {
            assert(binary_op_at(3, b) is Some);
        },
        SpecToken::AndAssign => {
            assert(binary_op_at(6, b) is Some);
        },
        SpecToken::XorAssign => {
            assert(binary_op_at(7, b) is Some);
        },
        SpecToken::OrAssign => {
            assert(binary_op_at(8, b) is Some);
        },
        _ => {},
    }
}

/// A statement that starts with the type keyword `int` or `char` is a
/// declaration: it is read exactly as a declaration is.
pub proof fn lemma_type_keyword_starts_declaration(ts: Seq<SpecToken>, pos: int)
    requires
        tok_at(ts, pos) == Some(SpecToken::Int) || tok_at(ts, pos) == Some(SpecToken::Char),
    ensures
        sp_statement(ts, pos) == sp_declaration(ts, pos),
{
}

/// `int name;` and `char name;` declare `name` with that type and no initializer,
/// whatever the name.
pub proof fn lemma_plain_declaration(ts: Seq<SpecToken>, pos: int, name: Seq<char>)
    requires
        tok_at(ts, pos) == Some(SpecToken::Int) || tok_at(ts, pos) == Some(SpecToken::Char),
        tok_at(ts, pos + 1) == Some(SpecToken::Identifier(name)),
        tok_at(ts, pos + 2) == Some(SpecToken::Semicolon),
    ensures
        sp_statement(ts, pos) == StmtOutcome::Ok(
            (
                SpecStmt::Declaration {
                    var_type: if tok_at(ts, pos) == Some(SpecToken::Int) {
                        Type::Int
                    } else {
                        Type::Char
                    },
                    name,
                    init: None,
                },
                pos + 3,
            ),
        ),
{
}

/// C's binary operators, each with its precedence rank (1 binds tightest: `*`,
/// `/`, `%`; then `+` `-`; shifts; relations; equalities; `&`; `^`; `|`; `&&`;
/// and 10, `||`, binds loosest) and the operation it denotes.
pub open spec fn c_binary_operator(t: SpecToken) -> Option<(nat, BinaryOp)> {
    match t {
        SpecToken::Star => Some((1nat, BinaryOp::Mul)),
        SpecToken::Slash => Some((1nat, BinaryOp::Div)),
        SpecToken::Percent => Some((1nat, BinaryOp::Mod)),
        SpecToken::Plus => Some((2nat, BinaryOp::Add)),
        SpecToken::Minus => Some((2nat, BinaryOp::Sub)),
        SpecToken::ShiftLeft => Some((3nat, BinaryOp::ShiftLeft)),
        SpecToken::ShiftRight => Some((3nat, BinaryOp::ShiftRight)),
        SpecToken::Less => Some((4nat, BinaryOp::Less)),
        SpecToken::LessEqual => Some((4nat, BinaryOp::LessEqual)),
        SpecToken::Greater => Some((4nat, BinaryOp::Greater)),
        SpecToken::GreaterEqual => Some((4nat, BinaryOp::GreaterEqual)),
        SpecToken::EqualEqual => Some((5nat, BinaryOp::Equal)),
        SpecToken::NotEqual => Some((5nat, BinaryOp::NotEqual)),
        SpecToken::BitAnd => Some((6nat, BinaryOp::BitAnd)),
        SpecToken::BitXor => Some((7nat, BinaryOp::BitXor)),
        SpecToken::BitOr => Some((8nat, BinaryOp::BitOr)),
        SpecToken::And => Some((9nat, BinaryOp::And)),
        SpecToken::Or => Some((10nat, BinaryOp::Or)),
        _ => None,
    }
}

/// Binary operators have C's meanings and precedence, and associate to the left:
/// after `left`, an operator of the level being read joins `left` with the next
/// operand (read at the tighter levels) into the operation C gives that operator,
/// and the chain goes on from there with the joined expression as its left side;
/// a token that is no operator of that level ends the chain.
pub proof fn lemma_binary_operators_associate_left(
    ts: Seq<SpecToken>,
    pos: int,
    k: nat,
    left: SpecExpr,
)
    requires
        0 <= pos < ts.len(),
    ensures
        binary_op_at(k, ts[pos]) == match c_binary_operator(ts[pos]) {
            Some((level, o)) => if level == k {
                Some(o)
            } else {
                None
            },
            None => None,
        },
        match c_binary_operator(ts[pos]) {
            Some((level, o)) => if level == k {
                match sp_operand(ts, pos + 1, k) {
                    Ok((right, p)) => pos < p <= ts.len() ==> sp_binary_rest(ts, pos, k, left)
                        == sp_binary_rest(
                        ts,
                        p,
                        k,
                        SpecExpr::BinaryOp { op: o, left: Box::new(left), right: Box::new(right) },
                    ),
                    Err(e) => sp_binary_rest(ts, pos, k, left) == ExprOutcome::Err(e),
                }
            } else {
                sp_binary_rest(ts, pos, k, left) == ExprOutcome::Ok((left, pos))
            },
            None => sp_binary_rest(ts, pos, k, left) == ExprOutcome::Ok((left, pos)),
        },
{
}

/// The prefix operators have C's meanings: `-` negates, `!` is logical not, `~`
/// bitwise not, `++` / `--` increment / decrement before use, `*` dereferences
/// and `&` takes the address; each applies to the prefix expression after it.
pub proof fn lemma_prefix_operator_meanings(ts: Seq<SpecToken>, pos: int, e: SpecExpr, p: int)
    requires
        0 <= pos < ts.len(),
        sp_unary(ts, pos + 1) == ExprOutcome::Ok((e, p)),
    ensures
        ts[pos] == SpecToken::Minus ==> sp_unary(ts, pos) == ExprOutcome::Ok((un(UnaryOp::Negate, e), p)),
        ts[pos] == SpecToken::Not ==> sp_unary(ts, pos) == ExprOutcome::Ok((un(UnaryOp::Not, e), p)),
        ts[pos] == SpecToken::BitNot ==> sp_unary(ts, pos) == ExprOutcome::Ok((un(UnaryOp::BitNot, e), p)),
        ts[pos] == SpecToken::PlusPlus ==> sp_unary(ts, pos) == ExprOutcome::Ok((un(UnaryOp::PreInc, e), p)),
        ts[pos] == SpecToken::MinusMinus ==> sp_unary(ts, pos) == ExprOutcome::Ok((un(UnaryOp::PreDec, e), p)),
        ts[pos] == SpecToken::Star ==> sp_unary(ts, pos) == ExprOutcome::Ok((un(UnaryOp::Deref, e), p)),
        ts[pos] == SpecToken::BitAnd ==> sp_unary(ts, pos) == ExprOutcome::Ok((un(UnaryOp::Address, e), p)),
        ts[pos] == SpecToken::Plus ==> sp_unary(ts, pos) == ExprOutcome::Ok((e, p)),
{
}

/// `if (c) s1` is an `If` with condition `c`, then-branch `s1` and no else-branch
/// unless `else s2` follows, which becomes its else-branch.
pub proof fn lemma_if_statement_shape(
    ts: Seq<SpecToken>,
    pos: int,
    c: SpecExpr,
    p1: int,
    s1: SpecStmt,
    p2: int,
)
    requires
        0 <= pos,
        tok_at(ts, pos) == Some(SpecToken::If),
        tok_at(ts, pos + 1) == Some(SpecToken::OpenParen),
        sp_assignment(ts, pos + 2) == ExprOutcome::Ok((c, p1)),
        tok_at(ts, p1) == Some(SpecToken::CloseParen),
        pos + 2 < p1,
        sp_statement(ts, p1 + 1) == StmtOutcome::Ok((s1, p2)),
        p1 + 1 < p2 <= ts.len(),
    ensures
        tok_at(ts, p2) != Some(SpecToken::Else) ==> sp_statement(ts, pos) == StmtOutcome::Ok(
            (SpecStmt::If { condition: c, then_stmt: Box::new(s1), else_stmt: None }, p2),
        ),
        tok_at(ts, p2) == Some(SpecToken::Else) ==> match sp_statement(ts, p2 + 1) {
            Ok((s2, p3)) => sp_statement(ts, pos) == StmtOutcome::Ok(
                (
                    SpecStmt::If {
                        condition: c,
                        then_stmt: Box::new(s1),
                        else_stmt: Some(Box::new(s2)),
                    },
                    p3,
                ),
            ),
            Err(e) => sp_statement(ts, pos) == StmtOutcome::Err(e),
        },
{
}

/// `while (c) s` is a `While` with condition `c` and body `s`.
pub proof fn lemma_while_statement_shape(
    ts: Seq<SpecToken>,
    pos: int,
    c: SpecExpr,
    p1: int,
    body: SpecStmt,
    p2: int,
)
    requires
        0 <= pos,
        tok_at(ts, pos) == Some(SpecToken::While),
        tok_at(ts, pos + 1) == Some(SpecToken::OpenParen),
        sp_assignment(ts, pos + 2) == ExprOutcome::Ok((c, p1)),
        tok_at(ts, p1) == Some(SpecToken::CloseParen),
        pos + 2 < p1,
        sp_statement(ts, p1 + 1) == StmtOutcome::Ok((body, p2)),
    ensures
        sp_statement(ts, pos) == StmtOutcome::Ok(
            (SpecStmt::While { condition: c, body: Box::new(body) }, p2),
        ),
{
}

/// `do s while (c);` is a `DoWhile` with body `s` and condition `c`.
pub proof fn lemma_do_while_statement_shape(
    ts: Seq<SpecToken>,
    pos: int,
    body: SpecStmt,
    p1: int,
    c: SpecExpr,
    p2: int,
)
    requires
        0 <= pos,
        tok_at(ts, pos) == Some(SpecToken::Do),
        sp_statement(ts, pos + 1) == StmtOutcome::Ok((body, p1)),
        tok_at(ts, p1) == Some(SpecToken::While),
        tok_at(ts, p1 + 1) == Some(SpecToken::OpenParen),
        sp_assignment(ts, p1 + 2) == ExprOutcome::Ok((c, p2)),
        tok_at(ts, p2) == Some(SpecToken::CloseParen),
        tok_at(ts, p2 + 1) == Some(SpecToken::Semicolon),
    ensures
        sp_statement(ts, pos) == StmtOutcome::Ok(
            (SpecStmt::DoWhile { body: Box::new(body), condition: c }, p2 + 2),
        ),
{
}

/// `for (i c; u) s` with an expression statement `i`, a condition expression `c`
/// and an update `u` is a `For` holding them, in that order, and the body `s`.
pub proof fn lemma_for_statement_shape(
    ts: Seq<SpecToken>,
    pos: int,
    i: SpecExpr,
    p1: int,
    c: SpecExpr,
    p2: int,
    u: SpecExpr,
    p3: int,
    body: SpecStmt,
    p4: int,
)
    requires
        0 <= pos,
        tok_at(ts, pos) == Some(SpecToken::For),
        tok_at(ts, pos + 1) == Some(SpecToken::OpenParen),
        tok_at(ts, pos + 2) != Some(SpecToken::Semicolon),
        tok_at(ts, pos + 2) != Some(SpecToken::Int),
        tok_at(ts, pos + 2) != Some(SpecToken::Char),
        sp_assignment(ts, pos + 2) == ExprOutcome::Ok((i, p1)),
        tok_at(ts, p1) == Some(SpecToken::Semicolon),
        tok_at(ts, p1 + 1) != Some(SpecToken::Semicolon),
        sp_assignment(ts, p1 + 1) == ExprOutcome::Ok((c, p2)),
        tok_at(ts, p2) == Some(SpecToken::Semicolon),
        tok_at(ts, p2 + 1) != Some(SpecToken::CloseParen),
        sp_assignment(ts, p2 + 1) == ExprOutcome::Ok((u, p3)),
        tok_at(ts, p3) == Some(SpecToken::CloseParen),
        pos < p3,
        sp_statement(ts, p3 + 1) == StmtOutcome::Ok((body, p4)),
    ensures
        sp_statement(ts, pos) == StmtOutcome::Ok(
            (
                SpecStmt::For {
                    init: Some(Box::new(SpecStmt::Expr(i))),
                    condition: Some(c),
                    update: Some(Box::new(u)),
                    body: Box::new(body),
                },
                p4,
            ),
        ),
{
}

/// `for (;;) s` is a `For` with no initialization, no condition, no update and
/// the body `s`.
pub proof fn lemma_empty_for_statement_shape(
    ts: Seq<SpecToken>,
    pos: int,
    body: SpecStmt,
    p: int,
)
    requires
        0 <= pos,
        tok_at(ts, pos) == Some(SpecToken::For),
        tok_at(ts, pos + 1) == Some(SpecToken::OpenParen),
        tok_at(ts, pos + 2) == Some(SpecToken::Semicolon),
        tok_at(ts, pos + 3) == Some(SpecToken::Semicolon),
        tok_at(ts, pos + 4) == Some(SpecToken::CloseParen),
        sp_statement(ts, pos + 5) == StmtOutcome::Ok((body, p)),
    ensures
        sp_statement(ts, pos) == StmtOutcome::Ok(
            (
                SpecStmt::For { init: None, condition: None, update: None, body: Box::new(body) },
                p,
            ),
        ),
{
}

/// `return;` returns nothing, `return e;` returns `e`; `break;` and `continue;`
/// are the statements of those names; and a lone `;` is an expression statement
/// that does nothing (the constant 0).
pub proof fn lemma_simple_statement_shapes(ts: Seq<SpecToken>, pos: int, e: SpecExpr, p: int)
    requires
        0 <= pos,
    ensures
        tok_at(ts, pos) == Some(SpecToken::Return) && tok_at(ts, pos + 1) == Some(
            SpecToken::Semicolon,
        ) ==> sp_statement(ts, pos) == StmtOutcome::Ok((SpecStmt::Return(None), pos + 2)),
        tok_at(ts, pos) == Some(SpecToken::Return) && tok_at(ts, pos + 1) != Some(
            SpecToken::Semicolon,
        ) && sp_assignment(ts, pos + 1) == ExprOutcome::Ok((e, p)) && tok_at(ts, p) == Some(
            SpecToken::Semicolon,
        ) ==> sp_statement(ts, pos) == StmtOutcome::Ok((SpecStmt::Return(Some(e)), p + 1)),
        tok_at(ts, pos) == Some(SpecToken::Break) && tok_at(ts, pos + 1) == Some(
            SpecToken::Semicolon,
        ) ==> sp_statement(ts, pos) == StmtOutcome::Ok((SpecStmt::Break, pos + 2)),
        tok_at(ts, pos) == Some(SpecToken::Continue) && tok_at(ts, pos + 1) == Some(
            SpecToken::Semicolon,
        ) ==> sp_statement(ts, pos) == StmtOutcome::Ok((SpecStmt::Continue, pos + 2)),
        tok_at(ts, pos) == Some(SpecToken::Semicolon) ==> sp_statement(ts, pos)
            == StmtOutcome::Ok((SpecStmt::Expr(SpecExpr::IntConst(0)), pos + 1)),
{
}

/// The postfix operations: `e++` and `e--` increment and decrement after use,
/// `e[i]` stands for `*(e + i)`, `e()` calls `e` with no arguments and `e(a)`
/// calls it with the one argument `a`.
pub proof fn lemma_postfix_operation_meanings(
    ts: Seq<SpecToken>,
    pos: int,
    e: SpecExpr,
    a: SpecExpr,
    p: int,
)
    requires
        0 <= pos < ts.len(),
    ensures
        ts[pos] == SpecToken::PlusPlus ==> sp_postfix_operation(ts, pos, e) == ExprOutcome::Ok(
            (un(UnaryOp::PostInc, e), pos + 1),
        ),
        ts[pos] == SpecToken::MinusMinus ==> sp_postfix_operation(ts, pos, e) == ExprOutcome::Ok(
            (un(UnaryOp::PostDec, e), pos + 1),
        ),
        ts[pos] == SpecToken::OpenBracket && sp_assignment(ts, pos + 1) == ExprOutcome::Ok((a, p))
            && tok_at(ts, p) == Some(SpecToken::CloseBracket) ==> sp_postfix_operation(ts, pos, e)
            == ExprOutcome::Ok(
            (
                SpecExpr::UnaryOp {
                    op: UnaryOp::Deref,
                    operand: Box::new(
                        SpecExpr::BinaryOp {
                            op: BinaryOp::Add,
                            left: Box::new(e),
                            right: Box::new(a),
                        },
                    ),
                },
                p + 1,
            ),
        ),
        ts[pos] == SpecToken::OpenParen && tok_at(ts, pos + 1) == Some(SpecToken::CloseParen)
            ==> sp_postfix_operation(ts, pos, e) == ExprOutcome::Ok(
            (SpecExpr::Call { func: Box::new(e), args: seq![] }, pos + 2),
        ),
        ts[pos] == SpecToken::OpenParen && tok_at(ts, pos + 1) != Some(SpecToken::CloseParen)
            && sp_assignment(ts, pos + 1) == ExprOutcome::Ok((a, p)) && pos + 1 < p <= ts.len()
            && tok_at(ts, p) == Some(SpecToken::CloseParen) ==> sp_postfix_operation(ts, pos, e)
            == ExprOutcome::Ok((SpecExpr::Call { func: Box::new(e), args: seq![a] }, p + 1)),
{
    if ts[pos] == SpecToken::OpenParen && tok_at(ts, pos + 1) != Some(SpecToken::CloseParen)
        && sp_assignment(ts, pos + 1) == ExprOutcome::Ok((a, p)) && pos + 1 < p <= ts.len()
        && tok_at(ts, p) == Some(SpecToken::CloseParen) {
        assert(Seq::<SpecExpr>::empty().push(a) =~= seq![a]);
    }
}

/// The primary expressions: a literal stands for its value, a name for itself,
/// and `(e)` for `e`.
pub proof fn lemma_primary_expression_meanings(ts: Seq<SpecToken>, pos: int, e: SpecExpr, p: int)
    requires
        0 <= pos < ts.len(),
    ensures
        ts[pos] matches SpecToken::IntConst(v) ==> sp_primary(ts, pos) == ExprOutcome::Ok(
            (SpecExpr::IntConst(v), pos + 1),
        ),
        ts[pos] matches SpecToken::CharConst(c) ==> sp_primary(ts, pos) == ExprOutcome::Ok(
            (SpecExpr::CharConst(c), pos + 1),
        ),
        ts[pos] matches SpecToken::StringConst(x) ==> sp_primary(ts, pos) == ExprOutcome::Ok(
            (SpecExpr::StringConst(x), pos + 1),
        ),
        ts[pos] matches SpecToken::Identifier(n) ==> sp_primary(ts, pos) == ExprOutcome::Ok(
            (SpecExpr::Identifier(n), pos + 1),
        ),
        ts[pos] == SpecToken::OpenParen && sp_assignment(ts, pos + 1) == ExprOutcome::Ok((e, p))
            && tok_at(ts, p) == Some(SpecToken::CloseParen) ==> sp_primary(ts, pos)
            == ExprOutcome::Ok((e, p + 1)),
{
}

} // verus!

//! Syntax analysis: a recursive descent parser from tokens to statements.
use vstd::prelude::*;
use crate::ast::{BinOp, Expr, ExprV, Stmt, StmtV, Type, stmts_view, exprs_view};
use crate::error::{CompileError, CompileResult, ErrorV, Phase, err_v};
use crate::token::{Token, TokenV, tokens_view};
use crate::text::{int_text, str_debug, push_str, i64_to_text, debug_text};
use vstd::string::StringExecFns;

verus! {

/// What a parsing step gives: the value read and the position after it, or an error.
pub type Parsed<T> = Result<(T, nat), ErrorV>;

/// The token at `pos`; past the end, `Eof`.
pub open spec fn peek_at(toks: Seq<TokenV>, pos: nat) -> TokenV {
    if pos < toks.len() { toks[pos as int] } else { TokenV::Eof }
}

/// The number of a token's variant, in the order of declaration.
pub open spec fn token_kind(t: TokenV) -> int {
    match t {
        TokenV::Int(_) => 0,
        TokenV::Float(_) => 1,
        TokenV::StringLit(_) => 2,
        TokenV::BoolLit(_) => 3,
        TokenV::KwLet => 4,
        TokenV::KwFn => 5,
        TokenV::KwIf => 6,
        TokenV::KwElse => 7,
        TokenV::KwReturn => 8,
        TokenV::KwWhile => 9,
        TokenV::KwTrue => 10,
        TokenV::KwFalse => 11,
        TokenV::Ident(_) => 12,
        TokenV::Plus => 13,
        TokenV::Minus => 14,
        TokenV::Star => 15,
        TokenV::Slash => 16,
        TokenV::Percent => 17,
        TokenV::Eq => 18,
        TokenV::NotEq => 19,
        TokenV::Lt => 20,
        TokenV::Gt => 21,
        TokenV::Le => 22,
        TokenV::Ge => 23,
        TokenV::Assign => 24,
        TokenV::And => 25,
        TokenV::Or => 26,
        TokenV::Not => 27,
        TokenV::LParen => 28,
        TokenV::RParen => 29,
        TokenV::LBrace => 30,
        TokenV::RBrace => 31,
        TokenV::LBracket => 32,
        TokenV::RBracket => 33,
        TokenV::Semicolon => 34,
        TokenV::Colon => 35,
        TokenV::Comma => 36,
        TokenV::Dot => 37,
        TokenV::Arrow => 38,
        TokenV::Eof => 39,
        TokenV::Error(_) => 40,
    }
}

/// How `Debug` writes a token. A floating-point literal is written with
/// the text it was read from.
pub open spec fn token_text(t: TokenV) -> Seq<char> {
    match t {
        TokenV::Int(n) => "Int("@ + int_text(n as int) + ")"@,
        TokenV::Float(s) => "Float("@ + s + ")"@,
        TokenV::StringLit(s) => "StringLit("@ + str_debug(s) + ")"@,
        TokenV::BoolLit(b) => if b { "BoolLit(true)"@ } else { "BoolLit(false)"@ },
        TokenV::KwLet => "KwLet"@,
        TokenV::KwFn => "KwFn"@,
        TokenV::KwIf => "KwIf"@,
        TokenV::KwElse => "KwElse"@,
        TokenV::KwReturn => "KwReturn"@,
        TokenV::KwWhile => "KwWhile"@,
        TokenV::KwTrue => "KwTrue"@,
        TokenV::KwFalse => "KwFalse"@,
        TokenV::Ident(s) => "Ident("@ + str_debug(s) + ")"@,
        TokenV::Plus => "Plus"@,
        TokenV::Minus => "Minus"@,
        TokenV::Star => "Star"@,
        TokenV::Slash => "Slash"@,
        TokenV::Percent => "Percent"@,
        TokenV::Eq => "Eq"@,
        TokenV::NotEq => "NotEq"@,
        TokenV::Lt => "Lt"@,
        TokenV::Gt => "Gt"@,
        TokenV::Le => "Le"@,
        TokenV::Ge => "Ge"@,
        TokenV::Assign => "Assign"@,
        TokenV::And => "And"@,
        TokenV::Or => "Or"@,
        TokenV::Not => "Not"@,
        TokenV::LParen => "LParen"@,
        TokenV::RParen => "RParen"@,
        TokenV::LBrace => "LBrace"@,
        TokenV::RBrace => "RBrace"@,
        TokenV::LBracket => "LBracket"@,
        TokenV::RBracket => "RBracket"@,
        TokenV::Semicolon => "Semicolon"@,
        TokenV::Colon => "Colon"@,
        TokenV::Comma => "Comma"@,
        TokenV::Dot => "Dot"@,
        TokenV::Arrow => "Arrow"@,
        TokenV::Eof => "Eof"@,
        TokenV::Error(s) => "Error("@ + str_debug(s) + ")"@,
    }
}

/// A syntax error with a message.
pub open spec fn syntax_error(msg: Seq<char>) -> ErrorV {
    err_v(Phase::Syntax, msg)
}

/// The error for a position that a well-behaved step never gives; it marks
/// the branches that can not be taken.
pub open spec fn stuck_error() -> ErrorV {
    syntax_error(Seq::empty())
}

/// Consumes a token of the same variant as `expected`, or fails with
/// `Expected <expected>, found <token>`.
pub open spec fn expect_at(toks: Seq<TokenV>, pos: nat, expected: TokenV) -> Result<nat, ErrorV> {
    if token_kind(peek_at(toks, pos)) == token_kind(expected) {
        Ok(if pos < toks.len() { pos + 1 } else { pos })
    } else {
        Err(syntax_error("Expected "@ + token_text(expected) + ", found "@ + token_text(peek_at(toks, pos))))
    }
}

/// Whether `p` is a position after `pos` and not past the end.
pub open spec fn advanced(toks: Seq<TokenV>, pos: nat, p: nat) -> bool {
    pos < p <= toks.len()
}

/// A left-associated binary expression.
pub open spec fn bin(op: BinOp, l: ExprV, r: ExprV) -> ExprV {
    ExprV::BinOp { op, left: Box::new(l), right: Box::new(r) }
}

/// The operator of `||` expressions.
pub open spec fn or_op(t: TokenV) -> Option<BinOp> {
    if t is Or { Some(BinOp::Or) } else { None }
}

/// The operator of `&&` expressions.
pub open spec fn and_op(t: TokenV) -> Option<BinOp> {
    if t is And { Some(BinOp::And) } else { None }
}

/// The comparison operator a token stands for.
pub open spec fn cmp_op(t: TokenV) -> Option<BinOp> {
    match t {
        TokenV::Eq => Some(BinOp::Eq),
        TokenV::NotEq => Some(BinOp::Ne),
        TokenV::Lt => Some(BinOp::Lt),
        TokenV::Gt => Some(BinOp::Gt),
        TokenV::Le => Some(BinOp::Le),
        TokenV::Ge => Some(BinOp::Ge),
        _ => None,
    }
}

/// The additive operator a token stands for.
pub open spec fn add_op(t: TokenV) -> Option<BinOp> {
    match t {
        TokenV::Plus => Some(BinOp::Add),
        TokenV::Minus => Some(BinOp::Sub),
        _ => None,
    }
}

/// The multiplicative operator a token stands for.
pub open spec fn mul_op(t: TokenV) -> Option<BinOp> {
    match t {
        TokenV::Star => Some(BinOp::Mul),
        TokenV::Slash => Some(BinOp::Div),
        TokenV::Percent => Some(BinOp::Mod),
        _ => None,
    }
}

/// The precedence levels of binary operators, loosest first.
pub open spec fn level_op(level: nat, t: TokenV) -> Option<BinOp> {
    if level == 0 {
        or_op(t)
    } else if level == 1 {
        and_op(t)
    } else if level == 2 {
        cmp_op(t)
    } else if level == 3 {
        add_op(t)
    } else {
        mul_op(t)
    }
}

/// The type an annotation names: `i32` and `Int`, `f64` and `Float`, `bool`,
/// `str`; any other name is an unknown type.
pub open spec fn type_of_name(s: Seq<char>) -> Type {
    if s == "i32"@ || s == "Int"@ {
        Type::Int
    } else if s == "f64"@ || s == "Float"@ {
        Type::Float
    } else if s == "bool"@ {
        Type::Bool
    } else if s == "str"@ {
        Type::Str
    } else {
        Type::Unknown
    }
}

/// A type annotation: an identifier.
pub open spec fn type_at(toks: Seq<TokenV>, pos: nat) -> Parsed<Type> {
    match peek_at(toks, pos) {
        TokenV::Ident(s) => Ok((type_of_name(s), if pos < toks.len() { pos + 1 } else { pos })),
        _ => Err(syntax_error("Expected type"@)),
    }
}

/// Statements until the end of input.
pub open spec fn program_at(toks: Seq<TokenV>, pos: nat) -> Parsed<Seq<StmtV>>
    decreases toks.len() - pos, 60nat,
{
    if peek_at(toks, pos) is Eof || pos > toks.len() {
        Ok((Seq::empty(), pos))
    } else {
        match stmt_at(toks, pos) {
            Err(e) => Err(e),
            Ok((s, p)) => if !advanced(toks, pos, p) {
                Err(stuck_error())
            } else {
                prefixed(seq![s], program_at(toks, p))
            },
        }
    }
}

/// Statements until a closing brace (not consumed) or the end of input.
pub open spec fn block_body_at(toks: Seq<TokenV>, pos: nat) -> Parsed<Seq<StmtV>>
    decreases toks.len() - pos, 56nat,
{
    if peek_at(toks, pos) is RBrace || peek_at(toks, pos) is Eof || pos > toks.len() {
        Ok((Seq::empty(), pos))
    } else {
        match stmt_at(toks, pos) {
            Err(e) => Err(e),
            Ok((s, p)) => if !advanced(toks, pos, p) {
                Err(stuck_error())
            } else {
                prefixed(seq![s], block_body_at(toks, p))
            },
        }
    }
}

/// `{`, statements and `}` from `pos`.
pub open spec fn braced_at(toks: Seq<TokenV>, pos: nat) -> Parsed<Seq<StmtV>>
    decreases toks.len() - pos, 49nat,
{
    match expect_at(toks, pos, TokenV::LBrace) {
        Err(e) => Err(e),
        Ok(p) => if pos > toks.len() {
            Err(stuck_error())
        } else {
            match block_body_at(toks, p) {
                Err(e) => Err(e),
                Ok((body, q)) => match expect_at(toks, q, TokenV::RBrace) {
                    Err(e) => Err(e),
                    Ok(r) => Ok((body, r)),
                },
            }
        },
    }
}

/// An expression followed by `;`.
pub open spec fn expr_stmt_at(toks: Seq<TokenV>, pos: nat) -> Parsed<ExprV>
    decreases toks.len() - pos, 42nat,
{
    match expr_at(toks, pos) {
        Err(e) => Err(e),
        Ok((e, p)) => match expect_at(toks, p, TokenV::Semicolon) {
            Err(err) => Err(err),
            Ok(q) => Ok((e, q)),
        },
    }
}

/// A statement.
pub open spec fn stmt_at(toks: Seq<TokenV>, pos: nat) -> Parsed<StmtV>
    decreases toks.len() - pos, 55nat,
{
    if pos > toks.len() {
        Err(stuck_error())
    } else {
        match peek_at(toks, pos) {
            TokenV::KwLet => let_at(toks, pos),
            TokenV::KwReturn => return_at(toks, pos),
            TokenV::KwWhile => while_at(toks, pos),
            TokenV::KwIf => if_stmt_at(toks, pos),
            TokenV::LBrace => block_stmt_at(toks, pos),
            TokenV::Ident(name) => if peek_at(toks, pos + 1) is Assign {
                match expr_stmt_at(toks, pos + 2) {
                    Err(e) => Err(e),
                    Ok((value, q)) => Ok((StmtV::Assign { name, value }, q)),
                }
            } else {
                match expr_stmt_at(toks, pos) {
                    Err(e) => Err(e),
                    Ok((e, q)) => Ok((StmtV::ExprStmt(e), q)),
                }
            },
            _ => match expr_stmt_at(toks, pos) {
                Err(e) => Err(e),
                Ok((e, q)) => Ok((StmtV::ExprStmt(e), q)),
            },
        }
    }
}

/// `return expr;`
pub open spec fn return_at(toks: Seq<TokenV>, pos: nat) -> Parsed<StmtV>
    decreases toks.len() - pos, 45nat,
{
    match expect_at(toks, pos, TokenV::KwReturn) {
        Err(e) => Err(e),
        Ok(p) => if pos >= toks.len() {
            Err(stuck_error())
        } else {
            match expr_stmt_at(toks, p) {
                Err(e) => Err(e),
                Ok((e, q)) => Ok((StmtV::Return(e), q)),
            }
        },
    }
}

/// `while cond { ... }`
pub open spec fn while_at(toks: Seq<TokenV>, pos: nat) -> Parsed<StmtV>
    decreases toks.len() - pos, 45nat,
{
    match expect_at(toks, pos, TokenV::KwWhile) {
        Err(e) => Err(e),
        Ok(p) => if pos >= toks.len() {
            Err(stuck_error())
        } else {
            match expr_at(toks, p) {
                Err(e) => Err(e),
                Ok((cond, q)) => if !advanced(toks, pos, q) {
                    Err(stuck_error())
                } else {
                    match braced_at(toks, q) {
                        Err(e) => Err(e),
                        Ok((body, r)) => Ok((StmtV::While { cond, body }, r)),
                    }
                },
            }
        },
    }
}

/// `{ ... }` as a statement.
pub open spec fn block_stmt_at(toks: Seq<TokenV>, pos: nat) -> Parsed<StmtV>
    decreases toks.len() - pos, 52nat,
{
    match braced_at(toks, pos) {
        Err(e) => Err(e),
        Ok((body, r)) => Ok((StmtV::Block(body), r)),
    }
}

/// `let name [: type] = init;`
pub open spec fn let_at(toks: Seq<TokenV>, pos: nat) -> Parsed<StmtV>
    decreases toks.len() - pos, 45nat,
{
    match expect_at(toks, pos, TokenV::KwLet) {
        Err(e) => Err(e),
        Ok(p) => match peek_at(toks, p) {
            TokenV::Ident(name) => {
                let p1 = p + 1;
                let ty: Parsed<Option<Type>> = if peek_at(toks, p1) is Colon {
                    match type_at(toks, p1 + 1) {
                        Err(e) => Err(e),
                        Ok((t, q)) => Ok((Some(t), q)),
                    }
                } else {
                    Ok((None, p1))
                };
                match ty {
                    Err(e) => Err(e),
                    Ok((ty, p2)) => match expect_at(toks, p2, TokenV::Assign) {
                        Err(e) => Err(e),
                        Ok(p3) => if !advanced(toks, pos, p3) {
                            Err(stuck_error())
                        } else {
                            match expr_stmt_at(toks, p3) {
                                Err(e) => Err(e),
                                Ok((init, q)) => Ok((StmtV::Let { name, ty, init }, q)),
                            }
                        },
                    },
                }
            },
            _ => Err(syntax_error("Expected identifier after 'let'"@)),
        },
    }
}

/// `if cond { ... } [else { ... }]` as a statement.
pub open spec fn if_stmt_at(toks: Seq<TokenV>, pos: nat) -> Parsed<StmtV>
    decreases toks.len() - pos, 45nat,
{
    match expect_at(toks, pos, TokenV::KwIf) {
        Err(e) => Err(e),
        Ok(p) => match expr_at(toks, p) {
            Err(e) => Err(e),
            Ok((cond, q)) => if !advanced(toks, pos, q) {
                Err(stuck_error())
            } else {
                match braced_at(toks, q) {
                    Err(e) => Err(e),
                    Ok((then_body, r)) => if !advanced(toks, pos, r) {
                        Err(stuck_error())
                    } else if peek_at(toks, r) is KwElse {
                        match braced_at(toks, r + 1) {
                            Err(e) => Err(e),
                            Ok((b, s)) => Ok((StmtV::If { cond, then_body, else_body: Some(b) }, s)),
                        }
                    } else {
                        Ok((StmtV::If { cond, then_body, else_body: None }, r))
                    },
                }
            },
        },
    }
}

/// An expression.
pub open spec fn expr_at(toks: Seq<TokenV>, pos: nat) -> Parsed<ExprV>
    decreases toks.len() - pos, 41nat,
{
    binary_at(toks, pos, 0)
}

/// Operands of a precedence level joined by its operators, left to right.
pub open spec fn binary_at(toks: Seq<TokenV>, pos: nat, level: nat) -> Parsed<ExprV>
    decreases toks.len() - pos, 40nat - 2 * level,
{
    if level > 4 {
        Err(stuck_error())
    } else {
        match operand_at(toks, pos, level) {
            Err(e) => Err(e),
            Ok((l, p)) => if !advanced(toks, pos, p) {
                Err(stuck_error())
            } else {
                binary_rest_at(toks, p, level, l)
            },
        }
    }
}

/// An operand of a precedence level: an expression of the next level, or
/// a unary expression below the last.
pub open spec fn operand_at(toks: Seq<TokenV>, pos: nat, level: nat) -> Parsed<ExprV>
    decreases toks.len() - pos, 39nat - 2 * level,
{
    if level > 4 {
        Err(stuck_error())
    } else if level == 4 {
        unary_at(toks, pos)
    } else {
        binary_at(toks, pos, level + 1)
    }
}

/// More operators of a level and their operands after `left`.
pub open spec fn binary_rest_at(toks: Seq<TokenV>, pos: nat, level: nat, left: ExprV) -> Parsed<ExprV>
    decreases toks.len() - pos, 0nat,
{
    if level > 4 || pos > toks.len() {
        Err(stuck_error())
    } else {
        match level_op(level, peek_at(toks, pos)) {
            None => Ok((left, pos)),
            Some(op) => match operand_at(toks, pos + 1, level) {
                Err(e) => Err(e),
                Ok((r, p)) => if !advanced(toks, pos, p) {
                    Err(stuck_error())
                } else {
                    binary_rest_at(toks, p, level, bin(op, left, r))
                },
            },
        }
    }
}

/// `!` and unary `-`: `!e` is read as `e == false`, `-e` as `0 - e`.
pub open spec fn unary_at(toks: Seq<TokenV>, pos: nat) -> Parsed<ExprV>
    decreases toks.len() - pos, 11nat,
{
    if pos > toks.len() {
        Err(stuck_error())
    } else {
        match peek_at(toks, pos) {
            TokenV::Not => match unary_at(toks, pos + 1) {
                Err(e) => Err(e),
                Ok((e, p)) => Ok((bin(BinOp::Eq, e, ExprV::BoolLit(false)), p)),
            },
            TokenV::Minus => match unary_at(toks, pos + 1) {
                Err(e) => Err(e),
                Ok((e, p)) => Ok((bin(BinOp::Sub, ExprV::IntLit(0), e), p)),
            },
            _ => postfix_at(toks, pos),
        }
    }
}

/// A primary expression followed by calls.
pub open spec fn postfix_at(toks: Seq<TokenV>, pos: nat) -> Parsed<ExprV>
    decreases toks.len() - pos, 10nat,
{
    match primary_at(toks, pos) {
        Err(e) => Err(e),
        Ok((e, p)) => if !advanced(toks, pos, p) {
            Err(stuck_error())
        } else {
            postfix_rest_at(toks, p, e)
        },
    }
}

/// Calls after `expr`; only a name can be called.
pub open spec fn postfix_rest_at(toks: Seq<TokenV>, pos: nat, expr: ExprV) -> Parsed<ExprV>
    decreases toks.len() - pos, 3nat,
{
    if pos > toks.len() {
        Err(stuck_error())
    } else if peek_at(toks, pos) is LParen {
        match expr {
            ExprV::Var(func) => {
                let args: Parsed<Seq<ExprV>> = if peek_at(toks, pos + 1) is RParen {
                    Ok((Seq::empty(), pos + 1))
                } else {
                    args_at(toks, pos + 1)
                };
                match args {
                    Err(e) => Err(e),
                    Ok((args, q)) => match expect_at(toks, q, TokenV::RParen) {
                        Err(e) => Err(e),
                        Ok(r) => if !advanced(toks, pos, r) {
                            Err(stuck_error())
                        } else {
                            postfix_rest_at(toks, r, ExprV::Call { func, args })
                        },
                    },
                }
            },
            _ => Err(syntax_error("Cannot call non-identifier"@)),
        }
    } else {
        Ok((expr, pos))
    }
}

/// Arguments separated by commas: at least one.
pub open spec fn args_at(toks: Seq<TokenV>, pos: nat) -> Parsed<Seq<ExprV>>
    decreases toks.len() - pos, 43nat,
{
    match expr_at(toks, pos) {
        Err(e) => Err(e),
        Ok((a, p)) => if !advanced(toks, pos, p) {
            Err(stuck_error())
        } else {
            prefixed(seq![a], more_args_at(toks, p))
        },
    }
}

/// The arguments after `,` at `pos`, if there is one.
pub open spec fn more_args_at(toks: Seq<TokenV>, pos: nat) -> Parsed<Seq<ExprV>>
    decreases toks.len() - pos, 44nat,
{
    if peek_at(toks, pos) is Comma {
        args_at(toks, pos + 1)
    } else {
        Ok((Seq::empty(), pos))
    }
}

/// A parsed sequence with `pre` put before it.
pub open spec fn prefixed<T>(pre: Seq<T>, r: Parsed<Seq<T>>) -> Parsed<Seq<T>> {
    match r {
        Err(e) => Err(e),
        Ok((s, q)) => Ok((pre + s, q)),
    }
}

/// A literal, a name, a parenthesized expression or an `if` expression.
pub open spec fn primary_at(toks: Seq<TokenV>, pos: nat) -> Parsed<ExprV>
    decreases toks.len() - pos, 9nat,
{
    if pos > toks.len() {
        Err(stuck_error())
    } else {
        match peek_at(toks, pos) {
            TokenV::Int(n) => Ok((ExprV::IntLit(n), pos + 1)),
            TokenV::Float(f) => Ok((ExprV::FloatLit(f), pos + 1)),
            TokenV::KwTrue => Ok((ExprV::BoolLit(true), pos + 1)),
            TokenV::KwFalse => Ok((ExprV::BoolLit(false), pos + 1)),
            TokenV::StringLit(s) => Ok((ExprV::StrLit(s), pos + 1)),
            TokenV::Ident(name) => Ok((ExprV::Var(name), pos + 1)),
            TokenV::LParen => match expr_at(toks, pos + 1) {
                Err(e) => Err(e),
                Ok((e, p)) => match expect_at(toks, p, TokenV::RParen) {
                    Err(err) => Err(err),
                    Ok(q) => Ok((e, q)),
                },
            },
            TokenV::KwIf => if_expr_at(toks, pos),
            t => Err(syntax_error("Unexpected token: "@ + token_text(t))),
        }
    }
}

/// `if cond { ... } [else { ... }]` as an expression: the statements of the
/// branches are read and set aside, each branch standing for `0`.
pub open spec fn if_expr_at(toks: Seq<TokenV>, pos: nat) -> Parsed<ExprV>
    decreases toks.len() - pos, 8nat,
{
    match expect_at(toks, pos, TokenV::KwIf) {
        Err(e) => Err(e),
        Ok(p) => match expr_at(toks, p) {
            Err(e) => Err(e),
            Ok((c, q)) => if !advanced(toks, pos, q) {
                Err(stuck_error())
            } else {
                match braced_at(toks, q) {
                    Err(e) => Err(e),
                    Ok((_, r)) => if !advanced(toks, pos, r) {
                        Err(stuck_error())
                    } else if peek_at(toks, r) is KwElse {
                        match braced_at(toks, r + 1) {
                            Err(e) => Err(e),
                            Ok((_, s)) => Ok((
                                ExprV::If {
                                    cond: Box::new(c),
                                    then_: Box::new(ExprV::IntLit(0)),
                                    else_: Some(Box::new(ExprV::IntLit(0))),
                                },
                                s,
                            )),
                        }
                    } else {
                        Ok((
                            ExprV::If { cond: Box::new(c), then_: Box::new(ExprV::IntLit(0)), else_: None },
                            r,
                        ))
                    },
                }
            },
        },
    }
}

/// How `Debug` writes a token. A floating-point literal is written with
/// the text it was read from.
pub fn token_debug(t: &Token) -> (r: String)
    ensures
        r@ == token_text(t@),
{
    match t {
        Token::Int(n) => {
            let mut s = String::from_str("Int(");
            push_str(&mut s, i64_to_text(*n).as_str());
            push_str(&mut s, ")");
            s
        },
        Token::Float(f) => {
            let mut s = String::from_str("Float(");
            push_str(&mut s, f.as_str());
            push_str(&mut s, ")");
            s
        },
        Token::StringLit(x) => {
            let mut s = String::from_str("StringLit(");
            push_str(&mut s, debug_text(x.as_str()).as_str());
            push_str(&mut s, ")");
            s
        },
        Token::BoolLit(b) => if *b {
            String::from_str("BoolLit(true)")
        } else {
            String::from_str("BoolLit(false)")
        },
        Token::KwLet => String::from_str("KwLet"),
        Token::KwFn => String::from_str("KwFn"),
        Token::KwIf => String::from_str("KwIf"),
        Token::KwElse => String::from_str("KwElse"),
        Token::KwReturn => String::from_str("KwReturn"),
        Token::KwWhile => String::from_str("KwWhile"),
        Token::KwTrue => String::from_str("KwTrue"),
        Token::KwFalse => String::from_str("KwFalse"),
        Token::Ident(x) => {
            let mut s = String::from_str("Ident(");
            push_str(&mut s, debug_text(x.as_str()).as_str());
            push_str(&mut s, ")");
            s
        },
        Token::Plus => String::from_str("Plus"),
        Token::Minus => String::from_str("Minus"),
        Token::Star => String::from_str("Star"),
        Token::Slash => String::from_str("Slash"),
        Token::Percent => String::from_str("Percent"),
        Token::Eq => String::from_str("Eq"),
        Token::NotEq => String::from_str("NotEq"),
        Token::Lt => String::from_str("Lt"),
        Token::Gt => String::from_str("Gt"),
        Token::Le => String::from_str("Le"),
        Token::Ge => String::from_str("Ge"),
        Token::Assign => String::from_str("Assign"),
        Token::And => String::from_str("And"),
        Token::Or => String::from_str("Or"),
        Token::Not => String::from_str("Not"),
        Token::LParen => String::from_str("LParen"),
        Token::RParen => String::from_str("RParen"),
        Token::LBrace => String::from_str("LBrace"),
        Token::RBrace => String::from_str("RBrace"),
        Token::LBracket => String::from_str("LBracket"),
        Token::RBracket => String::from_str("RBracket"),
        Token::Semicolon => String::from_str("Semicolon"),
        Token::Colon => String::from_str("Colon"),
        Token::Comma => String::from_str("Comma"),
        Token::Dot => String::from_str("Dot"),
        Token::Arrow => String::from_str("Arrow"),
        Token::Eof => String::from_str("Eof"),
        Token::Error(x) => {
            let mut s = String::from_str("Error(");
            push_str(&mut s, debug_text(x.as_str()).as_str());
            push_str(&mut s, ")");
            s
        },
    }
}

/// The number of a token's variant.
pub fn token_kind_of(t: &Token) -> (r: u8)
    ensures
        r == token_kind(t@),
{
    match t {
        Token::Int(_) => 0,
        Token::Float(_) => 1,
        Token::StringLit(_) => 2,
        Token::BoolLit(_) => 3,
        Token::KwLet => 4,
        Token::KwFn => 5,
        Token::KwIf => 6,
        Token::KwElse => 7,
        Token::KwReturn => 8,
        Token::KwWhile => 9,
        Token::KwTrue => 10,
        Token::KwFalse => 11,
        Token::Ident(_) => 12,
        Token::Plus => 13,
        Token::Minus => 14,
        Token::Star => 15,
        Token::Slash => 16,
        Token::Percent => 17,
        Token::Eq => 18,
        Token::NotEq => 19,
        Token::Lt => 20,
        Token::Gt => 21,
        Token::Le => 22,
        Token::Ge => 23,
        Token::Assign => 24,
        Token::And => 25,
        Token::Or => 26,
        Token::Not => 27,
        Token::LParen => 28,
        Token::RParen => 29,
        Token::LBrace => 30,
        Token::RBrace => 31,
        Token::LBracket => 32,
        Token::RBracket => 33,
        Token::Semicolon => 34,
        Token::Colon => 35,
        Token::Comma => 36,
        Token::Dot => 37,
        Token::Arrow => 38,
        Token::Eof => 39,
        Token::Error(_) => 40,
    }
}

/// Recursive descent parser
pub struct Parser {
    tokens: Vec<Token>,
    pos: usize,
}

/// The tokens a parser reads and its position in them.
pub struct ParserV {
    pub tokens: Seq<TokenV>,
    pub pos: nat,
}

impl View for Parser {
    type V = ParserV;

    closed spec fn view(&self) -> ParserV {
        ParserV { tokens: tokens_view(self.tokens@), pos: self.pos as nat }
    }
}

/// A result of the parser agrees with a parsing step: the same value and
/// position, or the same error.
pub open spec fn agrees<T: View>(r: CompileResult<T>, p: nat, s: Parsed<T::V>) -> bool {
    match s {
        Ok((v, q)) => r is Ok && r->Ok_0@ == v && p == q,
        Err(e) => r is Err && r->Err_0@ == e,
    }
}

/// `agrees` for a sequence of statements.
pub open spec fn agrees_stmts(r: CompileResult<Vec<Stmt>>, p: nat, s: Parsed<Seq<StmtV>>) -> bool {
    match s {
        Ok((v, q)) => r is Ok && stmts_view(r->Ok_0@) == v && p == q,
        Err(e) => r is Err && r->Err_0@ == e,
    }
}

/// `agrees` for a sequence of expressions.
pub open spec fn agrees_exprs(r: CompileResult<Vec<Expr>>, p: nat, s: Parsed<Seq<ExprV>>) -> bool {
    match s {
        Ok((v, q)) => r is Ok && exprs_view(r->Ok_0@) == v && p == q,
        Err(e) => r is Err && r->Err_0@ == e,
    }
}

proof fn lemma_prefixed_assoc<T>(a: Seq<T>, b: Seq<T>, r: Parsed<Seq<T>>)
    ensures
        prefixed(a, prefixed(b, r)) == prefixed(a + b, r),
{
    match r {
        Ok((s, q)) => {
            assert(a + (b + s) =~= (a + b) + s);
        },
        Err(_) => {},
    }
}

fn syntax_err(msg: String) -> (e: CompileError)
    ensures
        e@ == syntax_error(msg@),
{
    CompileError::without_position(Phase::Syntax, msg)
}

impl Parser {
    /// The position is within the tokens.
    pub open spec fn wf(&self) -> bool {
        self@.pos <= self@.tokens.len()
    }

    pub fn new(tokens: Vec<Token>) -> (r: Self)
        ensures
            r.wf(),
            r@ == (ParserV { tokens: tokens_view(tokens@), pos: 0 }),
    {
        Parser { tokens, pos: 0 }
    }

    /// Peek at current token
    fn peek(&self) -> (r: Token)
        ensures
            r@ == peek_at(self@.tokens, self@.pos),
    {
        if self.pos < self.tokens.len() {
            self.tokens[self.pos].duplicate()
        } else {
            Token::Eof
        }
    }

    /// Whether the current token is of the same variant as `t`.
    fn peek_is(&self, t: &Token) -> (r: bool)
        ensures
            r == (token_kind(peek_at(self@.tokens, self@.pos)) == token_kind(t@)),
    {
        if self.pos < self.tokens.len() {
            token_kind_of(&self.tokens[self.pos]) == token_kind_of(t)
        } else {
            39 == token_kind_of(t)
        }
    }

    /// Consume and return current token
    fn advance(&mut self) -> (r: Token)
        requires
            old(self).wf(),
        ensures
            final(self).wf(),
            final(self)@.tokens == old(self)@.tokens,
            r@ == peek_at(old(self)@.tokens, old(self)@.pos),
            final(self)@.pos == if old(self)@.pos < old(self)@.tokens.len() { old(self)@.pos + 1 } else { old(self)@.pos },
    {
        let tok = self.peek();
        if self.pos < self.tokens.len() {
            self.pos = self.pos + 1;
        }
        tok
    }

    /// Expect a specific token
    fn expect(&mut self, expected: &Token) -> (r: CompileResult<Token>)
        requires
            old(self).wf(),
        ensures
            final(self).wf(),
            final(self)@.tokens == old(self)@.tokens,
            match expect_at(old(self)@.tokens, old(self)@.pos, expected@) {
                Ok(p) => r is Ok && final(self)@.pos == p && p <= old(self)@.tokens.len(),
                Err(e) => r is Err && r->Err_0@ == e,
            },
    {
        if self.peek_is(expected) {
            Ok(self.advance())
        } else {
            let mut m = String::from_str("Expected ");
            push_str(&mut m, token_debug(expected).as_str());
            push_str(&mut m, ", found ");
            push_str(&mut m, token_debug(&self.peek()).as_str());
            Err(syntax_err(m))
        }
    }

    /// The operator of a precedence level that the current token stands for.
    fn peek_level_op(&self, level: u8) -> (r: Option<BinOp>)
        requires
            level <= 4,
        ensures
            r == level_op(level as nat, peek_at(self@.tokens, self@.pos)),
    {
        let t = self.peek();
        match t {
            Token::Or => if level == 0 { Some(BinOp::Or) } else { None },
            Token::And => if level == 1 { Some(BinOp::And) } else { None },
            Token::Eq => if level == 2 { Some(BinOp::Eq) } else { None },
            Token::NotEq => if level == 2 { Some(BinOp::Ne) } else { None },
            Token::Lt => if level == 2 { Some(BinOp::Lt) } else { None },
            Token::Gt => if level == 2 { Some(BinOp::Gt) } else { None },
            Token::Le => if level == 2 { Some(BinOp::Le) } else { None },
            Token::Ge => if level == 2 { Some(BinOp::Ge) } else { None },
            Token::Plus => if level == 3 { Some(BinOp::Add) } else { None },
            Token::Minus => if level == 3 { Some(BinOp::Sub) } else { None },
            Token::Star => if level == 4 { Some(BinOp::Mul) } else { None },
            Token::Slash => if level == 4 { Some(BinOp::Div) } else { None },
            Token::Percent => if level == 4 { Some(BinOp::Mod) } else { None },
            _ => None,
        }
    }

    /// Parse expression (top-level)
    fn parse_expr(&mut self) -> (r: CompileResult<Expr>)
        requires
            old(self).wf(),
        ensures
            final(self).wf(),
            final(self)@.tokens == old(self)@.tokens,
            agrees(r, final(self)@.pos, expr_at(old(self)@.tokens, old(self)@.pos)),
            r is Ok ==> advanced(old(self)@.tokens, old(self)@.pos, final(self)@.pos),
        decreases old(self)@.tokens.len() - old(self)@.pos, 82nat,
    {
        self.parse_expr_or()
    }

    /// The operands of a level joined by its operators, left to right; the
    /// operands are read by `operand`.
    fn parse_binary_level(&mut self, level: u8) -> (r: CompileResult<Expr>)
        requires
            old(self).wf(),
            level <= 4,
        ensures
            final(self).wf(),
            final(self)@.tokens == old(self)@.tokens,
            agrees(r, final(self)@.pos, binary_at(old(self)@.tokens, old(self)@.pos, level as nat)),
            r is Ok ==> advanced(old(self)@.tokens, old(self)@.pos, final(self)@.pos),
        decreases old(self)@.tokens.len() - old(self)@.pos, 80nat - 4 * level,
    {
        let ghost toks = self@.tokens;
        let ghost pos0 = self@.pos;
        let mut left = self.parse_operand(level)?;
        loop
            invariant_except_break
                self.wf(),
                self@.tokens == toks,
                toks == old(self)@.tokens,
                pos0 == old(self)@.pos,
                level <= 4,
                advanced(toks, pos0, self@.pos),
                binary_at(toks, pos0, level as nat) == binary_rest_at(toks, self@.pos, level as nat, left@),
            ensures
                self.wf(),
                self@.tokens == toks,
                advanced(toks, pos0, self@.pos),
                binary_at(toks, pos0, level as nat) == Ok::<(ExprV, nat), ErrorV>((left@, self@.pos)),
            decreases toks.len() - self@.pos,
        {
            match self.peek_level_op(level) {
                None => {
                    break;
                },
                Some(op) => {
                    self.advance();
                    let right = self.parse_operand(level)?;
                    left = Expr::BinOp { op, left: Box::new(left), right: Box::new(right) };
                },
            }
        }
        Ok(left)
    }

    /// An operand of a level: an expression of the next level, or a unary
    /// expression below the last.
    fn parse_operand(&mut self, level: u8) -> (r: CompileResult<Expr>)
        requires
            old(self).wf(),
            level <= 4,
        ensures
            final(self).wf(),
            final(self)@.tokens == old(self)@.tokens,
            agrees(r, final(self)@.pos, operand_at(old(self)@.tokens, old(self)@.pos, level as nat)),
            r is Ok ==> advanced(old(self)@.tokens, old(self)@.pos, final(self)@.pos),
        decreases old(self)@.tokens.len() - old(self)@.pos, 79nat - 4 * level,
    {
        if level == 0 {
            self.parse_expr_and()
        } else if level == 1 {
            self.parse_expr_comparison()
        } else if level == 2 {
            self.parse_expr_add()
        } else if level == 3 {
            self.parse_expr_mul()
        } else {
            self.parse_expr_unary()
        }
    }

    /// Parse logical OR
    fn parse_expr_or(&mut self) -> (r: CompileResult<Expr>)
        requires
            old(self).wf(),
        ensures
            final(self).wf(),
            final(self)@.tokens == old(self)@.tokens,
            agrees(r, final(self)@.pos, binary_at(old(self)@.tokens, old(self)@.pos, 0)),
            r is Ok ==> advanced(old(self)@.tokens, old(self)@.pos, final(self)@.pos),
        decreases old(self)@.tokens.len() - old(self)@.pos, 81nat,
    {
        self.parse_binary_level(0)
    }

    /// Parse logical AND
    fn parse_expr_and(&mut self) -> (r: CompileResult<Expr>)
        requires
            old(self).wf(),
        ensures
            final(self).wf(),
            final(self)@.tokens == old(self)@.tokens,
            agrees(r, final(self)@.pos, binary_at(old(self)@.tokens, old(self)@.pos, 1)),
            r is Ok ==> advanced(old(self)@.tokens, old(self)@.pos, final(self)@.pos),
        decreases old(self)@.tokens.len() - old(self)@.pos, 77nat,
    {
        self.parse_binary_level(1)
    }

    /// Parse comparison operators
    fn parse_expr_comparison(&mut self) -> (r: CompileResult<Expr>)
        requires
            old(self).wf(),
        ensures
            final(self).wf(),
            final(self)@.tokens == old(self)@.tokens,
            agrees(r, final(self)@.pos, binary_at(old(self)@.tokens, old(self)@.pos, 2)),
            r is Ok ==> advanced(old(self)@.tokens, old(self)@.pos, final(self)@.pos),
        decreases old(self)@.tokens.len() - old(self)@.pos, 73nat,
    {
        self.parse_binary_level(2)
    }

    /// Parse addition and subtraction
    fn parse_expr_add(&mut self) -> (r: CompileResult<Expr>)
        requires
            old(self).wf(),
        ensures
            final(self).wf(),
            final(self)@.tokens == old(self)@.tokens,
            agrees(r, final(self)@.pos, binary_at(old(self)@.tokens, old(self)@.pos, 3)),
            r is Ok ==> advanced(old(self)@.tokens, old(self)@.pos, final(self)@.pos),
        decreases old(self)@.tokens.len() - old(self)@.pos, 69nat,
    {
        self.parse_binary_level(3)
    }

    /// Parse multiplication and division
    fn parse_expr_mul(&mut self) -> (r: CompileResult<Expr>)
        requires
            old(self).wf(),
        ensures
            final(self).wf(),
            final(self)@.tokens == old(self)@.tokens,
            agrees(r, final(self)@.pos, binary_at(old(self)@.tokens, old(self)@.pos, 4)),
            r is Ok ==> advanced(old(self)@.tokens, old(self)@.pos, final(self)@.pos),
        decreases old(self)@.tokens.len() - old(self)@.pos, 65nat,
    {
        self.parse_binary_level(4)
    }

    /// Parse unary operators
    fn parse_expr_unary(&mut self) -> (r: CompileResult<Expr>)
        requires
            old(self).wf(),
        ensures
            final(self).wf(),
            final(self)@.tokens == old(self)@.tokens,
            agrees(r, final(self)@.pos, unary_at(old(self)@.tokens, old(self)@.pos)),
            r is Ok ==> advanced(old(self)@.tokens, old(self)@.pos, final(self)@.pos),
        decreases old(self)@.tokens.len() - old(self)@.pos, 11nat,
    {
        if self.peek_is(&Token::Not) {
            self.advance();
            let expr = self.parse_expr_unary()?;
            let f = Expr::BoolLit(false);
            assert(f@ == ExprV::BoolLit(false));
            let r = Expr::BinOp { op: BinOp::Eq, left: Box::new(expr), right: Box::new(f) };
            assert(r@ == bin(BinOp::Eq, expr@, ExprV::BoolLit(false)));
            Ok(r)
        } else if self.peek_is(&Token::Minus) {
            self.advance();
            let expr = self.parse_expr_unary()?;
            let z = Expr::IntLit(0);
            assert(z@ == ExprV::IntLit(0));
            let r = Expr::BinOp { op: BinOp::Sub, left: Box::new(z), right: Box::new(expr) };
            assert(r@ == bin(BinOp::Sub, ExprV::IntLit(0), expr@));
            Ok(r)
        } else {
            self.parse_expr_postfix()
        }
    }

    /// Arguments of a call, separated by commas: at least one.
    fn parse_args(&mut self) -> (r: CompileResult<Vec<Expr>>)
        requires
            old(self).wf(),
        ensures
            final(self).wf(),
            final(self)@.tokens == old(self)@.tokens,
            agrees_exprs(r, final(self)@.pos, args_at(old(self)@.tokens, old(self)@.pos)),
            r is Ok ==> advanced(old(self)@.tokens, old(self)@.pos, final(self)@.pos),
        decreases old(self)@.tokens.len() - old(self)@.pos, 84nat,
    {
        let ghost toks = self@.tokens;
        let ghost pos0 = self@.pos;
        let mut args: Vec<Expr> = Vec::new();
        let first = self.parse_expr()?;
        args.push(first);
        proof {
            assert(exprs_view(args@) =~= seq![first@]);
        }
        loop
            invariant_except_break
                self.wf(),
                self@.tokens == toks,
                toks == old(self)@.tokens,
                pos0 == old(self)@.pos,
                advanced(toks, pos0, self@.pos),
                args_at(toks, pos0) == prefixed(exprs_view(args@), more_args_at(toks, self@.pos)),
            ensures
                self.wf(),
                self@.tokens == toks,
                advanced(toks, pos0, self@.pos),
                args_at(toks, pos0) == Ok::<(Seq<ExprV>, nat), ErrorV>((exprs_view(args@), self@.pos)),
            decreases toks.len() - self@.pos,
        {
            if self.peek_is(&Token::Comma) {
                self.advance();
                let ghost before = exprs_view(args@);
                let a = self.parse_expr()?;
                let ghost av = a@;
                args.push(a);
                proof {
                    assert(exprs_view(args@) =~= before + seq![av]);
                    lemma_prefixed_assoc(before, seq![av], more_args_at(toks, self@.pos));
                }
            } else {
                proof {
                    assert(exprs_view(args@) + Seq::<ExprV>::empty() =~= exprs_view(args@));
                }
                break;
            }
        }
        Ok(args)
    }

    /// Parse postfix (function calls)
    fn parse_expr_postfix(&mut self) -> (r: CompileResult<Expr>)
        requires
            old(self).wf(),
        ensures
            final(self).wf(),
            final(self)@.tokens == old(self)@.tokens,
            agrees(r, final(self)@.pos, postfix_at(old(self)@.tokens, old(self)@.pos)),
            r is Ok ==> advanced(old(self)@.tokens, old(self)@.pos, final(self)@.pos),
        decreases old(self)@.tokens.len() - old(self)@.pos, 10nat,
    {
        let ghost toks = self@.tokens;
        let ghost pos0 = self@.pos;
        let mut expr = self.parse_expr_primary()?;
        loop
            invariant_except_break
                self.wf(),
                self@.tokens == toks,
                toks == old(self)@.tokens,
                pos0 == old(self)@.pos,
                advanced(toks, pos0, self@.pos),
                postfix_at(toks, pos0) == postfix_rest_at(toks, self@.pos, expr@),
            ensures
                self.wf(),
                self@.tokens == toks,
                advanced(toks, pos0, self@.pos),
                postfix_at(toks, pos0) == Ok::<(ExprV, nat), ErrorV>((expr@, self@.pos)),
            decreases toks.len() - self@.pos,
        {
            if self.peek_is(&Token::LParen) {
                match expr {
                    Expr::Var(func) => {
                        let ghost p = self@.pos;
                        self.advance();
                        let args = if self.peek_is(&Token::RParen) {
                            let v: Vec<Expr> = Vec::new();
                            proof {
                                assert(exprs_view(v@) =~= Seq::<ExprV>::empty());
                            }
                            v
                        } else {
                            self.parse_args()?
                        };
                        self.expect(&Token::RParen)?;
                        expr = Expr::Call { func, args };
                    },
                    _ => {
                        return Err(syntax_err(String::from_str("Cannot call non-identifier")));
                    },
                }
            } else {
                break;
            }
        }
        Ok(expr)
    }

    /// Parse primary expression
    fn parse_expr_primary(&mut self) -> (r: CompileResult<Expr>)
        requires
            old(self).wf(),
        ensures
            final(self).wf(),
            final(self)@.tokens == old(self)@.tokens,
            agrees(r, final(self)@.pos, primary_at(old(self)@.tokens, old(self)@.pos)),
            r is Ok ==> advanced(old(self)@.tokens, old(self)@.pos, final(self)@.pos),
        decreases old(self)@.tokens.len() - old(self)@.pos, 9nat,
    {
        let t = self.peek();
        match t {
            Token::Int(n) => {
                self.advance();
                Ok(Expr::IntLit(n))
            },
            Token::Float(f) => {
                self.advance();
                Ok(Expr::FloatLit(f))
            },
            Token::KwTrue => {
                self.advance();
                Ok(Expr::BoolLit(true))
            },
            Token::KwFalse => {
                self.advance();
                Ok(Expr::BoolLit(false))
            },
            Token::StringLit(s) => {
                self.advance();
                Ok(Expr::StrLit(s))
            },
            Token::Ident(name) => {
                self.advance();
                Ok(Expr::Var(name))
            },
            Token::LParen => {
                self.advance();
                let expr = self.parse_expr()?;
                self.expect(&Token::RParen)?;
                Ok(expr)
            },
            Token::KwIf => self.parse_if_expr(),
            _ => {
                let mut m = String::from_str("Unexpected token: ");
                push_str(&mut m, token_debug(&t).as_str());
                Err(syntax_err(m))
            },
        }
    }

    /// `{`, statements and `}`.
    fn parse_braced(&mut self) -> (r: CompileResult<Vec<Stmt>>)
        requires
            old(self).wf(),
        ensures
            final(self).wf(),
            final(self)@.tokens == old(self)@.tokens,
            agrees_stmts(r, final(self)@.pos, braced_at(old(self)@.tokens, old(self)@.pos)),
            r is Ok ==> advanced(old(self)@.tokens, old(self)@.pos, final(self)@.pos),
        decreases old(self)@.tokens.len() - old(self)@.pos, 94nat,
    {
        self.expect(&Token::LBrace)?;
        let body = self.parse_stmts_until_rbrace()?;
        self.expect(&Token::RBrace)?;
        Ok(body)
    }

    /// Parse if expression
    #[verifier::rlimit(40)]
    fn parse_if_expr(&mut self) -> (r: CompileResult<Expr>)
        requires
            old(self).wf(),
        ensures
            final(self).wf(),
            final(self)@.tokens == old(self)@.tokens,
            agrees(r, final(self)@.pos, if_expr_at(old(self)@.tokens, old(self)@.pos)),
            r is Ok ==> advanced(old(self)@.tokens, old(self)@.pos, final(self)@.pos),
        decreases old(self)@.tokens.len() - old(self)@.pos, 8nat,
    {
        self.expect(&Token::KwIf)?;
        let cond = Box::new(self.parse_expr()?);
        let _then_stmts = self.parse_braced()?;
        let z = Expr::IntLit(0);
        assert(z@ == ExprV::IntLit(0));
        let then_ = Box::new(z);
        let else_ = if self.peek_is(&Token::KwElse) {
            self.advance();
            let _else_stmts = self.parse_braced()?;
            let z2 = Expr::IntLit(0);
            assert(z2@ == ExprV::IntLit(0));
            Some(Box::new(z2))
        } else {
            None
        };
        Ok(Expr::If { cond, then_, else_ })
    }

    /// Parse program (list of statements)
    pub fn parse(&mut self) -> (r: CompileResult<Vec<Stmt>>)
        requires
            old(self).wf(),
        ensures
            final(self).wf(),
            final(self)@.tokens == old(self)@.tokens,
            agrees_stmts(r, final(self)@.pos, program_at(old(self)@.tokens, old(self)@.pos)),
            final(self)@.pos <= final(self)@.tokens.len(),
    {
        let ghost toks = self@.tokens;
        let ghost pos0 = self@.pos;
        let mut stmts: Vec<Stmt> = Vec::new();
        proof {
            assert(stmts_view(stmts@) =~= Seq::<StmtV>::empty());
            assert(Seq::<StmtV>::empty() + Seq::<StmtV>::empty() =~= Seq::<StmtV>::empty());
        }
        while !self.peek_is(&Token::Eof)
            invariant
                self.wf(),
                self@.tokens == toks,
                toks == old(self)@.tokens,
                pos0 == old(self)@.pos,
                pos0 <= self@.pos,
                program_at(toks, pos0) == prefixed(stmts_view(stmts@), program_at(toks, self@.pos)),
            decreases toks.len() - self@.pos,
        {
            let ghost before = stmts_view(stmts@);
            let st = self.parse_stmt()?;
            let ghost sv = st@;
            stmts.push(st);
            proof {
                assert(stmts_view(stmts@) =~= before + seq![sv]);
                lemma_prefixed_assoc(before, seq![sv], program_at(toks, self@.pos));
            }
        }
        proof {
            assert(stmts_view(stmts@) + Seq::<StmtV>::empty() =~= stmts_view(stmts@));
        }
        Ok(stmts)
    }

    /// Parse a statement
    #[verifier::rlimit(40)]
    fn parse_stmt(&mut self) -> (r: CompileResult<Stmt>)
        requires
            old(self).wf(),
        ensures
            final(self).wf(),
            final(self)@.tokens == old(self)@.tokens,
            agrees(r, final(self)@.pos, stmt_at(old(self)@.tokens, old(self)@.pos)),
            r is Ok ==> advanced(old(self)@.tokens, old(self)@.pos, final(self)@.pos),
        decreases old(self)@.tokens.len() - old(self)@.pos, 100nat,
    {
        if self.peek_is(&Token::KwLet) {
            self.parse_let()
        } else if self.peek_is(&Token::KwReturn) {
            self.parse_return()
        } else if self.peek_is(&Token::KwWhile) {
            self.parse_while()
        } else if self.peek_is(&Token::KwIf) {
            self.parse_if_stmt()
        } else if self.peek_is(&Token::LBrace) {
            self.parse_block_stmt()
        } else if self.peek_is(&Token::Ident(String::new())) {
            // Check if it's assignment
            let start_pos = self.pos;
            let name = match self.advance() {
                Token::Ident(n) => n,
                _ => String::new(),
            };
            if self.peek_is(&Token::Assign) {
                self.advance();
                let value = self.parse_expr()?;
                self.expect(&Token::Semicolon)?;
                Ok(Stmt::Assign { name, value })
            } else {
                // It's an expression statement
                self.pos = start_pos;
                let expr = self.parse_expr()?;
                self.expect(&Token::Semicolon)?;
                Ok(Stmt::ExprStmt(expr))
            }
        } else {
            // Expression statement
            let expr = self.parse_expr()?;
            self.expect(&Token::Semicolon)?;
            Ok(Stmt::ExprStmt(expr))
        }
    }

    /// Parse let statement
    fn parse_let(&mut self) -> (r: CompileResult<Stmt>)
        requires
            old(self).wf(),
        ensures
            final(self).wf(),
            final(self)@.tokens == old(self)@.tokens,
            agrees(r, final(self)@.pos, let_at(old(self)@.tokens, old(self)@.pos)),
            r is Ok ==> advanced(old(self)@.tokens, old(self)@.pos, final(self)@.pos),
        decreases old(self)@.tokens.len() - old(self)@.pos, 90nat,
    {
        self.expect(&Token::KwLet)?;
        let name = match self.advance() {
            Token::Ident(n) => n,
            _ => {
                return Err(syntax_err(String::from_str("Expected identifier after 'let'")));
            },
        };
        // Optional type annotation
        let ty = if self.peek_is(&Token::Colon) {
            self.advance();
            Some(self.parse_type()?)
        } else {
            None
        };
        self.expect(&Token::Assign)?;
        let init = self.parse_expr()?;
        self.expect(&Token::Semicolon)?;
        Ok(Stmt::Let { name, ty, init })
    }

    /// Parse return statement
    fn parse_return(&mut self) -> (r: CompileResult<Stmt>)
        requires
            old(self).wf(),
        ensures
            final(self).wf(),
            final(self)@.tokens == old(self)@.tokens,
            agrees(r, final(self)@.pos, return_at(old(self)@.tokens, old(self)@.pos)),
            r is Ok ==> advanced(old(self)@.tokens, old(self)@.pos, final(self)@.pos),
        decreases old(self)@.tokens.len() - old(self)@.pos, 90nat,
    {
        self.expect(&Token::KwReturn)?;
        let expr = self.parse_expr()?;
        self.expect(&Token::Semicolon)?;
        Ok(Stmt::Return(expr))
    }

    /// Parse while statement
    fn parse_while(&mut self) -> (r: CompileResult<Stmt>)
        requires
            old(self).wf(),
        ensures
            final(self).wf(),
            final(self)@.tokens == old(self)@.tokens,
            agrees(r, final(self)@.pos, while_at(old(self)@.tokens, old(self)@.pos)),
            r is Ok ==> advanced(old(self)@.tokens, old(self)@.pos, final(self)@.pos),
        decreases old(self)@.tokens.len() - old(self)@.pos, 90nat,
    {
        self.expect(&Token::KwWhile)?;
        let cond = self.parse_expr()?;
        let body = self.parse_braced()?;
        Ok(Stmt::While { cond, body })
    }

    /// Parse if statement
    fn parse_if_stmt(&mut self) -> (r: CompileResult<Stmt>)
        requires
            old(self).wf(),
        ensures
            final(self).wf(),
            final(self)@.tokens == old(self)@.tokens,
            agrees(r, final(self)@.pos, if_stmt_at(old(self)@.tokens, old(self)@.pos)),
            r is Ok ==> advanced(old(self)@.tokens, old(self)@.pos, final(self)@.pos),
        decreases old(self)@.tokens.len() - old(self)@.pos, 90nat,
    {
        self.expect(&Token::KwIf)?;
        let cond = self.parse_expr()?;
        let then_body = self.parse_braced()?;
        let else_body = if self.peek_is(&Token::KwElse) {
            self.advance();
            let body = self.parse_braced()?;
            Some(body)
        } else {
            None
        };
        Ok(Stmt::If { cond, then_body, else_body })
    }

    /// Parse block statement
    fn parse_block_stmt(&mut self) -> (r: CompileResult<Stmt>)
        requires
            old(self).wf(),
        ensures
            final(self).wf(),
            final(self)@.tokens == old(self)@.tokens,
            agrees(r, final(self)@.pos, block_stmt_at(old(self)@.tokens, old(self)@.pos)),
            r is Ok ==> advanced(old(self)@.tokens, old(self)@.pos, final(self)@.pos),
        decreases old(self)@.tokens.len() - old(self)@.pos, 97nat,
    {
        let stmts = self.parse_braced()?;
        Ok(Stmt::Block(stmts))
    }

    /// Parse statements until closing brace
    fn parse_stmts_until_rbrace(&mut self) -> (r: CompileResult<Vec<Stmt>>)
        requires
            old(self).wf(),
        ensures
            final(self).wf(),
            final(self)@.tokens == old(self)@.tokens,
            agrees_stmts(r, final(self)@.pos, block_body_at(old(self)@.tokens, old(self)@.pos)),
            r is Ok ==> old(self)@.pos <= final(self)@.pos,
        decreases old(self)@.tokens.len() - old(self)@.pos, 101nat,
    {
        let ghost toks = self@.tokens;
        let ghost pos0 = self@.pos;
        let mut stmts: Vec<Stmt> = Vec::new();
        proof {
            assert(stmts_view(stmts@) =~= Seq::<StmtV>::empty());
            assert(Seq::<StmtV>::empty() + block_body_at(toks, pos0)->Ok_0.0 =~= block_body_at(toks, pos0)->Ok_0.0);
        }
        while !self.peek_is(&Token::RBrace) && !self.peek_is(&Token::Eof)
            invariant
                self.wf(),
                self@.tokens == toks,
                toks == old(self)@.tokens,
                pos0 == old(self)@.pos,
                pos0 <= self@.pos,
                block_body_at(toks, pos0) == prefixed(stmts_view(stmts@), block_body_at(toks, self@.pos)),
            decreases toks.len() - self@.pos,
        {
            let ghost before = stmts_view(stmts@);
            let st = self.parse_stmt()?;
            let ghost sv = st@;
            stmts.push(st);
            proof {
                assert(stmts_view(stmts@) =~= before + seq![sv]);
                lemma_prefixed_assoc(before, seq![sv], block_body_at(toks, self@.pos));
            }
        }
        proof {
            assert(stmts_view(stmts@) + Seq::<StmtV>::empty() =~= stmts_view(stmts@));
        }
        Ok(stmts)
    }

    /// Parse type annotation
    fn parse_type(&mut self) -> (r: CompileResult<Type>)
        requires
            old(self).wf(),
        ensures
            final(self).wf(),
            final(self)@.tokens == old(self)@.tokens,
            match type_at(old(self)@.tokens, old(self)@.pos) {
                Ok((t, p)) => r == Ok::<Type, CompileError>(t) && final(self)@.pos == p,
                Err(e) => r is Err && r->Err_0@ == e,
            },
    {
        match self.advance() {
            Token::Ident(s) => {
                if s == String::from_str("i32") || s == String::from_str("Int") {
                    Ok(Type::Int)
                } else if s == String::from_str("f64") || s == String::from_str("Float") {
                    Ok(Type::Float)
                } else if s == String::from_str("bool") {
                    Ok(Type::Bool)
                } else if s == String::from_str("str") {
                    Ok(Type::Str)
                } else {
                    Ok(Type::Unknown)
                }
            },
            _ => Err(syntax_err(String::from_str("Expected type"))),
        }
    }

}

/// A token that no precedence level reads as an operator and that does
/// not start a call.
pub open spec fn ends_operand(t: TokenV) -> bool {
    !(t is LParen) && forall|k: nat| k <= 4 ==> (#[trigger] level_op(k, t)) is None
}

proof fn lemma_int_unary(toks: Seq<TokenV>, pos: nat, n: i64)
    requires
        pos + 1 < toks.len(),
        toks[pos as int] == TokenV::Int(n),
        !(toks[pos + 1int] is LParen),
    ensures
        operand_at(toks, pos, 4) == Ok::<(ExprV, nat), ErrorV>((ExprV::IntLit(n), pos + 1)),
{
    let r = Ok::<(ExprV, nat), ErrorV>((ExprV::IntLit(n), pos + 1));
    assert(primary_at(toks, pos) == r);
    assert(postfix_rest_at(toks, pos + 1, ExprV::IntLit(n)) == r);
    assert(postfix_at(toks, pos) == r);
    assert(unary_at(toks, pos) == r);
}

proof fn lemma_int_operand(toks: Seq<TokenV>, pos: nat, level: nat, n: i64)
    requires
        level <= 4,
        pos + 1 < toks.len(),
        toks[pos as int] == TokenV::Int(n),
        !(toks[pos + 1int] is LParen),
        forall|k: nat| level <= k <= 4 ==> (#[trigger] level_op(k, toks[pos + 1int])) is None,
    ensures
        operand_at(toks, pos, level) == Ok::<(ExprV, nat), ErrorV>((ExprV::IntLit(n), pos + 1)),
        binary_at(toks, pos, level) == Ok::<(ExprV, nat), ErrorV>((ExprV::IntLit(n), pos + 1)),
    decreases 4 - level,
{
    let r = Ok::<(ExprV, nat), ErrorV>((ExprV::IntLit(n), pos + 1));
    assert(level_op(level, toks[pos + 1int]) is None);
    if level < 4 {
        lemma_int_operand(toks, pos, level + 1, n);
        assert(operand_at(toks, pos, level) == binary_at(toks, pos, level + 1));
    } else {
        lemma_int_unary(toks, pos, n);
    }
    assert(binary_rest_at(toks, pos + 1, level, ExprV::IntLit(n)) == r);
}

proof fn lemma_lift(toks: Seq<TokenV>, pos: nat, from: nat, to: nat, e: ExprV, end: nat)
    requires
        from <= to <= 4,
        pos < end < toks.len(),
        forall|k: nat| from <= k < to ==> (#[trigger] level_op(k, toks[end as int])) is None,
        binary_at(toks, pos, to) == Ok::<(ExprV, nat), ErrorV>((e, end)),
    ensures
        binary_at(toks, pos, from) == Ok::<(ExprV, nat), ErrorV>((e, end)),
    decreases to - from,
{
    if from < to {
        lemma_lift(toks, pos, from + 1, to, e, end);
        assert(operand_at(toks, pos, from) == binary_at(toks, pos, from + 1));
        assert(level_op(from, toks[end as int]) is None);
    }
}

proof fn lemma_lower_levels(toks: Seq<TokenV>, pos: nat, level: nat, e: ExprV, end: nat)
    requires
        level <= 4,
        pos < end < toks.len(),
        ends_operand(toks[end as int]),
        binary_at(toks, pos, level) == Ok::<(ExprV, nat), ErrorV>((e, end)),
    ensures
        expr_at(toks, pos) == Ok::<(ExprV, nat), ErrorV>((e, end)),
{
    lemma_lift(toks, pos, 0, level, e, end);
}

/// An integer at `pos` read as an operand of `level`, the token after it
/// being no operator of that level or a tighter one.
proof fn lemma_int_at(toks: Seq<TokenV>, pos: nat, level: nat, n: i64)
    requires
        level <= 4,
        pos + 1 < toks.len(),
        toks[pos as int] == TokenV::Int(n),
        !(toks[pos + 1int] is LParen),
        forall|k: nat| level < k <= 4 ==> (#[trigger] level_op(k, toks[pos + 1int])) is None,
    ensures
        operand_at(toks, pos, level) == Ok::<(ExprV, nat), ErrorV>((ExprV::IntLit(n), pos + 1)),
{
    if level < 4 {
        lemma_int_operand(toks, pos, level + 1, n);
    } else {
        lemma_int_unary(toks, pos, n);
    }
}

/// `a OP b` at one level, where what follows is no operator of that level.
proof fn lemma_one_op(toks: Seq<TokenV>, pos: nat, level: nat, op: BinOp, a: i64, b: i64)
    requires
        level <= 4,
        pos + 3 < toks.len(),
        toks[pos as int] == TokenV::Int(a),
        toks[pos + 2int] == TokenV::Int(b),
        level_op(level, toks[pos + 1int]) == Some(op),
        forall|k: nat| k <= 4 && k != level ==> (#[trigger] level_op(k, toks[pos + 1int])) is None,
        !(toks[pos + 1int] is LParen),
        !(toks[pos + 3int] is LParen),
        forall|k: nat| level <= k <= 4 ==> (#[trigger] level_op(k, toks[pos + 3int])) is None,
    ensures
        binary_at(toks, pos, level) == Ok::<(ExprV, nat), ErrorV>(
            (bin(op, ExprV::IntLit(a), ExprV::IntLit(b)), pos + 3),
        ),
{
    let e = bin(op, ExprV::IntLit(a), ExprV::IntLit(b));
    lemma_int_at(toks, pos, level, a);
    lemma_int_at(toks, pos + 2, level, b);
    assert(level_op(level, toks[pos + 3int]) is None);
    assert(binary_rest_at(toks, pos + 3, level, e) == Ok::<(ExprV, nat), ErrorV>((e, pos + 3)));
    assert(binary_rest_at(toks, pos + 1, level, ExprV::IntLit(a)) == Ok::<(ExprV, nat), ErrorV>((e, pos + 3)));
}

/// `a OP1 b OP2 c` where OP2 binds tighter: `a OP1 (b OP2 c)`.
proof fn lemma_tighter_right(
    toks: Seq<TokenV>,
    pos: nat,
    l1: nat,
    op1: BinOp,
    l2: nat,
    op2: BinOp,
    a: i64,
    b: i64,
    c: i64,
)
    requires
        l1 < l2 <= 4,
        pos + 5 < toks.len(),
        toks[pos as int] == TokenV::Int(a),
        toks[pos + 2int] == TokenV::Int(b),
        toks[pos + 4int] == TokenV::Int(c),
        level_op(l1, toks[pos + 1int]) == Some(op1),
        forall|k: nat| k <= 4 && k != l1 ==> (#[trigger] level_op(k, toks[pos + 1int])) is None,
        level_op(l2, toks[pos + 3int]) == Some(op2),
        forall|k: nat| k <= 4 && k != l2 ==> (#[trigger] level_op(k, toks[pos + 3int])) is None,
        !(toks[pos + 1int] is LParen),
        !(toks[pos + 3int] is LParen),
        ends_operand(toks[pos + 5int]),
    ensures
        expr_at(toks, pos) == Ok::<(ExprV, nat), ErrorV>(
            (bin(op1, ExprV::IntLit(a), bin(op2, ExprV::IntLit(b), ExprV::IntLit(c))), pos + 5),
        ),
{
    let inner = bin(op2, ExprV::IntLit(b), ExprV::IntLit(c));
    let e = bin(op1, ExprV::IntLit(a), inner);
    lemma_one_op(toks, pos + 2, l2, op2, b, c);
    lemma_lift(toks, pos + 2, l1 + 1, l2, inner, pos + 5);
    assert(operand_at(toks, pos + 2, l1) == Ok::<(ExprV, nat), ErrorV>((inner, pos + 5)));
    lemma_int_at(toks, pos, l1, a);
    assert(level_op(l1, toks[pos + 5int]) is None);
    assert(binary_rest_at(toks, pos + 5, l1, e) == Ok::<(ExprV, nat), ErrorV>((e, pos + 5)));
    assert(binary_rest_at(toks, pos + 1, l1, ExprV::IntLit(a)) == Ok::<(ExprV, nat), ErrorV>((e, pos + 5)));
    assert(binary_at(toks, pos, l1) == Ok::<(ExprV, nat), ErrorV>((e, pos + 5)));
    lemma_lower_levels(toks, pos, l1, e, pos + 5);
}

/// `a OP1 b OP2 c` where OP1 binds at least as tightly (operators of one
/// level group to the left): `(a OP1 b) OP2 c`.
proof fn lemma_tighter_left(
    toks: Seq<TokenV>,
    pos: nat,
    l1: nat,
    op1: BinOp,
    l2: nat,
    op2: BinOp,
    a: i64,
    b: i64,
    c: i64,
)
    requires
        l2 <= l1 <= 4,
        pos + 5 < toks.len(),
        toks[pos as int] == TokenV::Int(a),
        toks[pos + 2int] == TokenV::Int(b),
        toks[pos + 4int] == TokenV::Int(c),
        level_op(l1, toks[pos + 1int]) == Some(op1),
        forall|k: nat| k <= 4 && k != l1 ==> (#[trigger] level_op(k, toks[pos + 1int])) is None,
        level_op(l2, toks[pos + 3int]) == Some(op2),
        forall|k: nat| k <= 4 && k != l2 ==> (#[trigger] level_op(k, toks[pos + 3int])) is None,
        !(toks[pos + 1int] is LParen),
        !(toks[pos + 3int] is LParen),
        ends_operand(toks[pos + 5int]),
    ensures
        expr_at(toks, pos) == Ok::<(ExprV, nat), ErrorV>(
            (bin(op2, bin(op1, ExprV::IntLit(a), ExprV::IntLit(b)), ExprV::IntLit(c)), pos + 5),
        ),
{
    let first = bin(op1, ExprV::IntLit(a), ExprV::IntLit(b));
    let e = bin(op2, first, ExprV::IntLit(c));
    lemma_int_at(toks, pos + 4, l2, c);
    assert(level_op(l2, toks[pos + 5int]) is None);
    assert(binary_rest_at(toks, pos + 5, l2, e) == Ok::<(ExprV, nat), ErrorV>((e, pos + 5)));
    assert(binary_rest_at(toks, pos + 3, l2, first) == Ok::<(ExprV, nat), ErrorV>((e, pos + 5)));
    if l1 == l2 {
        lemma_int_at(toks, pos, l1, a);
        lemma_int_at(toks, pos + 2, l1, b);
        assert(binary_rest_at(toks, pos + 1, l1, ExprV::IntLit(a)) == Ok::<(ExprV, nat), ErrorV>((e, pos + 5)));
    } else {
        lemma_one_op(toks, pos, l1, op1, a, b);
        lemma_lift(toks, pos, l2 + 1, l1, first, pos + 3);
        assert(operand_at(toks, pos, l2) == Ok::<(ExprV, nat), ErrorV>((first, pos + 3)));
    }
    assert(binary_at(toks, pos, l2) == Ok::<(ExprV, nat), ErrorV>((e, pos + 5)));
    lemma_lower_levels(toks, pos, l2, e, pos + 5);
}

/// Precedence and grouping: `*` binds tighter than `+`, `+` and `-` tighter
/// than comparisons, comparisons tighter than `&&`, and `&&` tighter than
/// `||`; operators of one level group to the left.
pub proof fn lemma_precedence(toks: Seq<TokenV>, pos: nat, a: i64, b: i64, c: i64)
    requires
        pos + 5 < toks.len(),
        toks[pos as int] == TokenV::Int(a),
        toks[pos + 2int] == TokenV::Int(b),
        toks[pos + 4int] == TokenV::Int(c),
        ends_operand(toks[pos + 5int]),
    ensures
        ({
            let (x, y, z) = (ExprV::IntLit(a), ExprV::IntLit(b), ExprV::IntLit(c));
            let t1 = toks[pos + 1int];
            let t2 = toks[pos + 3int];
            let is = |e: ExprV| expr_at(toks, pos) == Ok::<(ExprV, nat), ErrorV>((e, pos + 5));
            &&& t1 == TokenV::Plus && t2 == TokenV::Star ==> is(bin(BinOp::Add, x, bin(BinOp::Mul, y, z)))
            &&& t1 == TokenV::Star && t2 == TokenV::Plus ==> is(bin(BinOp::Add, bin(BinOp::Mul, x, y), z))
            &&& t1 == TokenV::Minus && t2 == TokenV::Minus ==> is(bin(BinOp::Sub, bin(BinOp::Sub, x, y), z))
            &&& t1 == TokenV::Slash && t2 == TokenV::Slash ==> is(bin(BinOp::Div, bin(BinOp::Div, x, y), z))
            &&& t1 == TokenV::Lt && t2 == TokenV::Plus ==> is(bin(BinOp::Lt, x, bin(BinOp::Add, y, z)))
            &&& t1 == TokenV::Minus && t2 == TokenV::Ge ==> is(bin(BinOp::Ge, bin(BinOp::Sub, x, y), z))
            &&& t1 == TokenV::And && t2 == TokenV::Eq ==> is(bin(BinOp::And, x, bin(BinOp::Eq, y, z)))
            &&& t1 == TokenV::Le && t2 == TokenV::And ==> is(bin(BinOp::And, bin(BinOp::Le, x, y), z))
            &&& t1 == TokenV::Or && t2 == TokenV::And ==> is(bin(BinOp::Or, x, bin(BinOp::And, y, z)))
            &&& t1 == TokenV::And && t2 == TokenV::Or ==> is(bin(BinOp::Or, bin(BinOp::And, x, y), z))
        }),
{
    let t1 = toks[pos + 1int];
    let t2 = toks[pos + 3int];
    if t1 == TokenV::Plus && t2 == TokenV::Star {
        lemma_tighter_right(toks, pos, 3, BinOp::Add, 4, BinOp::Mul, a, b, c);
    } else if t1 == TokenV::Star && t2 == TokenV::Plus {
        lemma_tighter_left(toks, pos, 4, BinOp::Mul, 3, BinOp::Add, a, b, c);
    } else if t1 == TokenV::Minus && t2 == TokenV::Minus {
        lemma_tighter_left(toks, pos, 3, BinOp::Sub, 3, BinOp::Sub, a, b, c);
    } else if t1 == TokenV::Slash && t2 == TokenV::Slash {
        lemma_tighter_left(toks, pos, 4, BinOp::Div, 4, BinOp::Div, a, b, c);
    } else if t1 == TokenV::Lt && t2 == TokenV::Plus {
        lemma_tighter_right(toks, pos, 2, BinOp::Lt, 3, BinOp::Add, a, b, c);
    } else if t1 == TokenV::Minus && t2 == TokenV::Ge {
        lemma_tighter_left(toks, pos, 3, BinOp::Sub, 2, BinOp::Ge, a, b, c);
    } else if t1 == TokenV::And && t2 == TokenV::Eq {
        lemma_tighter_right(toks, pos, 1, BinOp::And, 2, BinOp::Eq, a, b, c);
    } else if t1 == TokenV::Le && t2 == TokenV::And {
        lemma_tighter_left(toks, pos, 2, BinOp::Le, 1, BinOp::And, a, b, c);
    } else if t1 == TokenV::Or && t2 == TokenV::And {
        lemma_tighter_right(toks, pos, 0, BinOp::Or, 1, BinOp::And, a, b, c);
    } else if t1 == TokenV::And && t2 == TokenV::Or {
        lemma_tighter_left(toks, pos, 1, BinOp::And, 0, BinOp::Or, a, b, c);
    }
}

/// Unary operators: `-a` is read as `0 - a` and `!a` as `a == false`.
pub proof fn lemma_unary_operators(toks: Seq<TokenV>, pos: nat, a: i64)
    requires
        pos + 2 < toks.len(),
        toks[pos + 1int] == TokenV::Int(a),
        ends_operand(toks[pos + 2int]),
    ensures
        toks[pos as int] == TokenV::Minus ==> expr_at(toks, pos) == Ok::<(ExprV, nat), ErrorV>(
            (bin(BinOp::Sub, ExprV::IntLit(0), ExprV::IntLit(a)), pos + 2),
        ),
        toks[pos as int] == TokenV::Not ==> expr_at(toks, pos) == Ok::<(ExprV, nat), ErrorV>(
            (bin(BinOp::Eq, ExprV::IntLit(a), ExprV::BoolLit(false)), pos + 2),
        ),
{
    let t = toks[pos as int];
    if t == TokenV::Minus || t == TokenV::Not {
        let e = if t == TokenV::Minus {
            bin(BinOp::Sub, ExprV::IntLit(0), ExprV::IntLit(a))
        } else {
            bin(BinOp::Eq, ExprV::IntLit(a), ExprV::BoolLit(false))
        };
        lemma_int_unary(toks, pos + 1, a);
        assert(unary_at(toks, pos + 1) == Ok::<(ExprV, nat), ErrorV>((ExprV::IntLit(a), pos + 2)));
        assert(unary_at(toks, pos) == Ok::<(ExprV, nat), ErrorV>((e, pos + 2)));
        assert(level_op(4, toks[pos + 2int]) is None);
        assert(binary_rest_at(toks, pos + 2, 4, e) == Ok::<(ExprV, nat), ErrorV>((e, pos + 2)));
        assert(binary_at(toks, pos, 4) == Ok::<(ExprV, nat), ErrorV>((e, pos + 2)));
        lemma_lower_levels(toks, pos, 4, e, pos + 2);
    }
}

/// `;`, `)`, `{`, `}`, `,` and the end of input end an operand.
pub proof fn lemma_delimiters_end_operands()
    ensures
        ends_operand(TokenV::Semicolon),
        ends_operand(TokenV::RParen),
        ends_operand(TokenV::LBrace),
        ends_operand(TokenV::RBrace),
        ends_operand(TokenV::Comma),
        ends_operand(TokenV::Eof),
{
}

proof fn lemma_binary_of_ints(toks: Seq<TokenV>, pos: nat, level: nat, op: BinOp, a: i64, b: i64)
    requires
        level <= 4,
        pos + 3 < toks.len(),
        toks[pos as int] == TokenV::Int(a),
        toks[pos + 2int] == TokenV::Int(b),
        ends_operand(toks[pos + 3int]),
        level_op(level, toks[pos + 1int]) == Some(op),
        forall|k: nat| k <= 4 && k != level ==> (#[trigger] level_op(k, toks[pos + 1int])) is None,
        !(toks[pos + 1int] is LParen),
    ensures
        expr_at(toks, pos) == Ok::<(ExprV, nat), ErrorV>((bin(op, ExprV::IntLit(a), ExprV::IntLit(b)), pos + 3)),
{
    let e = bin(op, ExprV::IntLit(a), ExprV::IntLit(b));
    if level < 4 {
        lemma_int_operand(toks, pos, level + 1, a);
        lemma_int_operand(toks, pos + 2, level + 1, b);
    } else {
        lemma_int_unary(toks, pos, a);
        lemma_int_unary(toks, pos + 2, b);
    }
    assert(operand_at(toks, pos, level) == Ok::<(ExprV, nat), ErrorV>((ExprV::IntLit(a), pos + 1)));
    assert(operand_at(toks, pos + 2, level) == Ok::<(ExprV, nat), ErrorV>((ExprV::IntLit(b), pos + 3)));
    assert(level_op(level, toks[pos + 3int]) is None);
    assert(binary_rest_at(toks, pos + 3, level, e) == Ok::<(ExprV, nat), ErrorV>((e, pos + 3)));
    assert(binary_rest_at(toks, pos + 1, level, ExprV::IntLit(a)) == Ok::<(ExprV, nat), ErrorV>((e, pos + 3)));
    assert(binary_at(toks, pos, level) == Ok::<(ExprV, nat), ErrorV>((e, pos + 3)));
    lemma_lower_levels(toks, pos, level, e, pos + 3);
}

/// Each binary operator token is read as its own operator: an expression
/// `a OP b` of two integers, followed by a token that is no operator (such
/// as `;`), is the operation OP on them, with `+ - * / %` read as Add, Sub,
/// Mul, Div, Mod, `== != < > <= >=` as Eq, Ne, Lt, Gt, Le, Ge, and `&& ||`
/// as And, Or.
pub proof fn lemma_binary_operators(toks: Seq<TokenV>, pos: nat, a: i64, b: i64)
    requires
        pos + 3 < toks.len(),
        toks[pos as int] == TokenV::Int(a),
        toks[pos + 2int] == TokenV::Int(b),
        ends_operand(toks[pos + 3int]),
    ensures
        ({
            let t = toks[pos + 1int];
            let r = expr_at(toks, pos);
            let is = |op: BinOp| r == Ok::<(ExprV, nat), ErrorV>((bin(op, ExprV::IntLit(a), ExprV::IntLit(b)), pos + 3));
            &&& t == TokenV::Plus ==> is(BinOp::Add)
            &&& t == TokenV::Minus ==> is(BinOp::Sub)
            &&& t == TokenV::Star ==> is(BinOp::Mul)
            &&& t == TokenV::Slash ==> is(BinOp::Div)
            &&& t == TokenV::Percent ==> is(BinOp::Mod)
            &&& t == TokenV::Eq ==> is(BinOp::Eq)
            &&& t == TokenV::NotEq ==> is(BinOp::Ne)
            &&& t == TokenV::Lt ==> is(BinOp::Lt)
            &&& t == TokenV::Gt ==> is(BinOp::Gt)
            &&& t == TokenV::Le ==> is(BinOp::Le)
            &&& t == TokenV::Ge ==> is(BinOp::Ge)
            &&& t == TokenV::And ==> is(BinOp::And)
            &&& t == TokenV::Or ==> is(BinOp::Or)
        }),
{
    let t = toks[pos + 1int];
    if t == TokenV::Plus {
        lemma_binary_of_ints(toks, pos, 3, BinOp::Add, a, b);
    } else if t == TokenV::Minus {
        lemma_binary_of_ints(toks, pos, 3, BinOp::Sub, a, b);
    } else if t == TokenV::Star {
        lemma_binary_of_ints(toks, pos, 4, BinOp::Mul, a, b);
    } else if t == TokenV::Slash {
        lemma_binary_of_ints(toks, pos, 4, BinOp::Div, a, b);
    } else if t == TokenV::Percent {
        lemma_binary_of_ints(toks, pos, 4, BinOp::Mod, a, b);
    } else if t == TokenV::Eq {
        lemma_binary_of_ints(toks, pos, 2, BinOp::Eq, a, b);
    } else if t == TokenV::NotEq {
        lemma_binary_of_ints(toks, pos, 2, BinOp::Ne, a, b);
    } else if t == TokenV::Lt {
        lemma_binary_of_ints(toks, pos, 2, BinOp::Lt, a, b);
    } else if t == TokenV::Gt {
        lemma_binary_of_ints(toks, pos, 2, BinOp::Gt, a, b);
    } else if t == TokenV::Le {
        lemma_binary_of_ints(toks, pos, 2, BinOp::Le, a, b);
    } else if t == TokenV::Ge {
        lemma_binary_of_ints(toks, pos, 2, BinOp::Ge, a, b);
    } else if t == TokenV::And {
        lemma_binary_of_ints(toks, pos, 1, BinOp::And, a, b);
    } else if t == TokenV::Or {
        lemma_binary_of_ints(toks, pos, 0, BinOp::Or, a, b);
    }
}

} // verus!

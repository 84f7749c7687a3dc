//! Parsed code is small: what code generation hands out for a parsed
//! program is bounded by the number of tokens it was read from.
use vstd::prelude::*;
use crate::ast::{ExprV, StmtV};
use crate::token::TokenV;
use crate::phases::codegen::{expr_cost, stmt_cost, stmts_cost};
use crate::phases::parser::{
    Parsed, advanced, args_at, bin, binary_at, binary_rest_at, block_body_at, block_stmt_at, braced_at,
    expect_at, expr_at, expr_stmt_at, if_expr_at, if_stmt_at, let_at, level_op, operand_at, peek_at,
    postfix_at, postfix_rest_at, primary_at, program_at, return_at, stmt_at, type_at, unary_at, while_at,
};

verus! {

/// The cost of statements put before others adds up.
pub proof fn lemma_stmts_cost_prepend(s: StmtV, ss: Seq<StmtV>)
    ensures
        stmts_cost(seq![s] + ss) == stmt_cost(s) + stmts_cost(ss),
    decreases ss.len(),
{
    if ss.len() == 0 {
        assert(seq![s] + ss =~= seq![s]);
        assert(seq![s].drop_last() =~= Seq::<StmtV>::empty());
        assert(stmts_cost(Seq::<StmtV>::empty()) == 0);
        assert(stmts_cost(seq![s]) == stmts_cost(seq![s].drop_last()) + stmt_cost(seq![s].last()));
    } else {
        lemma_stmts_cost_prepend(s, ss.drop_last());
        let t = seq![s] + ss;
        assert(t.drop_last() =~= seq![s] + ss.drop_last());
        assert(t.last() == ss.last());
        assert(stmts_cost(t) == stmts_cost(t.drop_last()) + stmt_cost(t.last()));
    }
}

/// Cost of an expression read from `pos` to `p`, at most four per token.
pub open spec fn expr_within(r: Parsed<ExprV>, pos: nat) -> bool {
    match r {
        Ok((e, p)) => pos <= p && expr_cost(e) <= 4 * (p - pos),
        Err(_) => true,
    }
}

/// Cost of statements read from `pos` to `p`, at most four per token, less
/// `slack`.
pub open spec fn stmts_within(r: Parsed<Seq<StmtV>>, pos: nat, slack: nat) -> bool {
    match r {
        Ok((ss, p)) => pos + slack <= p && stmts_cost(ss) + 4 * slack <= 4 * (p - pos),
        Err(_) => true,
    }
}

/// Cost of a statement read from `pos` to `p`, at most four per token.
pub open spec fn stmt_within(r: Parsed<StmtV>, pos: nat) -> bool {
    match r {
        Ok((s, p)) => pos <= p && stmt_cost(s) <= 4 * (p - pos),
        Err(_) => true,
    }
}

pub proof fn lemma_expr_cost(toks: Seq<TokenV>, pos: nat)
    ensures
        expr_within(expr_at(toks, pos), pos),
    decreases toks.len() - pos, 41nat,
{
    lemma_binary_cost(toks, pos, 0);
}

pub proof fn lemma_binary_cost(toks: Seq<TokenV>, pos: nat, level: nat)
    ensures
        expr_within(binary_at(toks, pos, level), pos),
    decreases toks.len() - pos, 40nat - 2 * level,
{
    if level <= 4 {
        lemma_operand_cost(toks, pos, level);
        match operand_at(toks, pos, level) {
            Err(_) => {},
            Ok((l, p)) => if advanced(toks, pos, p) {
                lemma_binary_rest_cost(toks, p, level, l);
            },
        }
    }
}

pub proof fn lemma_operand_cost(toks: Seq<TokenV>, pos: nat, level: nat)
    ensures
        expr_within(operand_at(toks, pos, level), pos),
    decreases toks.len() - pos, 39nat - 2 * level,
{
    if level == 4 {
        lemma_unary_cost(toks, pos);
    } else if level < 4 {
        lemma_binary_cost(toks, pos, level + 1);
    }
}

pub proof fn lemma_binary_rest_cost(toks: Seq<TokenV>, pos: nat, level: nat, left: ExprV)
    ensures
        match binary_rest_at(toks, pos, level, left) {
            Ok((e, p)) => pos <= p && expr_cost(e) <= expr_cost(left) + 4 * (p - pos),
            Err(_) => true,
        },
    decreases toks.len() - pos, 0nat,
{
    if level <= 4 && pos <= toks.len() {
        match level_op(level, peek_at(toks, pos)) {
            None => {},
            Some(op) => {
                lemma_operand_cost(toks, pos + 1, level);
                match operand_at(toks, pos + 1, level) {
                    Err(_) => {},
                    Ok((r, p)) => if advanced(toks, pos, p) {
                        lemma_binary_rest_cost(toks, p, level, bin(op, left, r));
                    },
                }
            },
        }
    }
}

pub proof fn lemma_unary_cost(toks: Seq<TokenV>, pos: nat)
    ensures
        expr_within(unary_at(toks, pos), pos),
    decreases toks.len() - pos, 11nat,
{
    if pos <= toks.len() {
        match peek_at(toks, pos) {
            TokenV::Not => {
                lemma_unary_cost(toks, pos + 1);
                assert(expr_cost(ExprV::BoolLit(false)) == 0);
            },
            TokenV::Minus => {
                lemma_unary_cost(toks, pos + 1);
                assert(expr_cost(ExprV::IntLit(0)) == 0);
            },
            _ => lemma_postfix_cost(toks, pos),
        }
    }
}

pub proof fn lemma_postfix_cost(toks: Seq<TokenV>, pos: nat)
    ensures
        expr_within(postfix_at(toks, pos), pos),
    decreases toks.len() - pos, 10nat,
{
    lemma_primary_cost(toks, pos);
    match primary_at(toks, pos) {
        Err(_) => {},
        Ok((e, p)) => if advanced(toks, pos, p) {
            lemma_postfix_rest_cost(toks, p, e);
        },
    }
}

pub proof fn lemma_postfix_rest_cost(toks: Seq<TokenV>, pos: nat, expr: ExprV)
    ensures
        match postfix_rest_at(toks, pos, expr) {
            Ok((e, p)) => pos <= p && expr_cost(e) <= expr_cost(expr) + 4 * (p - pos),
            Err(_) => true,
        },
    decreases toks.len() - pos, 3nat,
{
    if pos <= toks.len() && peek_at(toks, pos) is LParen {
        match expr {
            ExprV::Var(func) => {
                let args: Parsed<Seq<ExprV>> = if peek_at(toks, pos + 1) is RParen {
                    Ok((Seq::empty(), pos + 1))
                } else {
                    args_at(toks, pos + 1)
                };
                match args {
                    Err(_) => {},
                    Ok((args, q)) => match expect_at(toks, q, TokenV::RParen) {
                        Err(_) => {},
                        Ok(r) => if advanced(toks, pos, r) {
                            lemma_postfix_rest_cost(toks, r, ExprV::Call { func, args });
                        },
                    },
                }
            },
            _ => {},
        }
    }
}

pub proof fn lemma_primary_cost(toks: Seq<TokenV>, pos: nat)
    ensures
        expr_within(primary_at(toks, pos), pos),
    decreases toks.len() - pos, 9nat,
{
    if pos <= toks.len() {
        match peek_at(toks, pos) {
            TokenV::LParen => lemma_expr_cost(toks, pos + 1),
            TokenV::KwIf => lemma_if_expr_cost(toks, pos),
            _ => {},
        }
    }
}

pub proof fn lemma_if_expr_cost(toks: Seq<TokenV>, pos: nat)
    ensures
        expr_within(if_expr_at(toks, pos), pos),
    decreases toks.len() - pos, 8nat,
{
    assert(expr_cost(ExprV::IntLit(0)) == 0);
    match expect_at(toks, pos, TokenV::KwIf) {
        Err(_) => {},
        Ok(p) => {
            lemma_expr_cost(toks, p);
            match expr_at(toks, p) {
                Err(_) => {},
                Ok((c, q)) => if advanced(toks, pos, q) {
                    lemma_braced_cost(toks, q);
                    match braced_at(toks, q) {
                        Err(_) => {},
                        Ok((_, r)) => if advanced(toks, pos, r) && peek_at(toks, r) is KwElse {
                            lemma_braced_cost(toks, r + 1);
                        },
                    }
                },
            }
        },
    }
}

pub proof fn lemma_braced_cost(toks: Seq<TokenV>, pos: nat)
    ensures
        stmts_within(braced_at(toks, pos), pos, 2),
    decreases toks.len() - pos, 49nat,
{
    match expect_at(toks, pos, TokenV::LBrace) {
        Err(_) => {},
        Ok(p) => if pos <= toks.len() {
            lemma_block_body_cost(toks, p);
        },
    }
}

pub proof fn lemma_block_body_cost(toks: Seq<TokenV>, pos: nat)
    ensures
        stmts_within(block_body_at(toks, pos), pos, 0),
    decreases toks.len() - pos, 56nat,
{
    if !(peek_at(toks, pos) is RBrace || peek_at(toks, pos) is Eof || pos > toks.len()) {
        lemma_stmt_cost(toks, pos);
        match stmt_at(toks, pos) {
            Err(_) => {},
            Ok((s, p)) => if advanced(toks, pos, p) {
                lemma_block_body_cost(toks, p);
                match block_body_at(toks, p) {
                    Err(_) => {},
                    Ok((ss, q)) => {
                        lemma_stmts_cost_prepend(s, ss);
                    },
                }
            },
        }
    } else {
        assert(stmts_cost(Seq::<StmtV>::empty()) == 0);
    }
}

pub proof fn lemma_program_cost(toks: Seq<TokenV>, pos: nat)
    ensures
        stmts_within(program_at(toks, pos), pos, 0),
    decreases toks.len() - pos, 60nat,
{
    if !(peek_at(toks, pos) is Eof || pos > toks.len()) {
        lemma_stmt_cost(toks, pos);
        match stmt_at(toks, pos) {
            Err(_) => {},
            Ok((s, p)) => if advanced(toks, pos, p) {
                lemma_program_cost(toks, p);
                match program_at(toks, p) {
                    Err(_) => {},
                    Ok((ss, q)) => {
                        lemma_stmts_cost_prepend(s, ss);
                    },
                }
            },
        }
    } else {
        assert(stmts_cost(Seq::<StmtV>::empty()) == 0);
    }
}

pub proof fn lemma_expr_stmt_cost(toks: Seq<TokenV>, pos: nat)
    ensures
        expr_within(expr_stmt_at(toks, pos), pos),
    decreases toks.len() - pos, 42nat,
{
    lemma_expr_cost(toks, pos);
}

pub proof fn lemma_stmt_cost(toks: Seq<TokenV>, pos: nat)
    ensures
        stmt_within(stmt_at(toks, pos), pos),
    decreases toks.len() - pos, 55nat,
{
    if pos <= toks.len() {
        match peek_at(toks, pos) {
            TokenV::KwLet => lemma_let_cost(toks, pos),
            TokenV::KwReturn => lemma_return_cost(toks, pos),
            TokenV::KwWhile => lemma_while_cost(toks, pos),
            TokenV::KwIf => lemma_if_stmt_cost(toks, pos),
            TokenV::LBrace => lemma_block_stmt_cost(toks, pos),
            TokenV::Ident(name) => if peek_at(toks, pos + 1) is Assign {
                lemma_expr_stmt_cost(toks, pos + 2);
            } else {
                lemma_expr_stmt_cost(toks, pos);
            },
            _ => lemma_expr_stmt_cost(toks, pos),
        }
    }
}

pub proof fn lemma_let_cost(toks: Seq<TokenV>, pos: nat)
    ensures
        stmt_within(let_at(toks, pos), pos),
    decreases toks.len() - pos, 45nat,
{
    match expect_at(toks, pos, TokenV::KwLet) {
        Err(_) => {},
        Ok(p) => match peek_at(toks, p) {
            TokenV::Ident(name) => {
                let p1 = p + 1;
                let ty: Parsed<Option<crate::ast::Type>> = if peek_at(toks, p1) is Colon {
                    match type_at(toks, p1 + 1) {
                        Err(e) => Err(e),
                        Ok((t, q)) => Ok((Some(t), q)),
                    }
                } else {
                    Ok((None, p1))
                };
                match ty {
                    Err(_) => {},
                    Ok((ty, p2)) => match expect_at(toks, p2, TokenV::Assign) {
                        Err(_) => {},
                        Ok(p3) => if advanced(toks, pos, p3) {
                            lemma_expr_stmt_cost(toks, p3);
                        },
                    },
                }
            },
            _ => {},
        },
    }
}

pub proof fn lemma_return_cost(toks: Seq<TokenV>, pos: nat)
    ensures
        stmt_within(return_at(toks, pos), pos),
    decreases toks.len() - pos, 45nat,
{
    match expect_at(toks, pos, TokenV::KwReturn) {
        Err(_) => {},
        Ok(p) => if pos < toks.len() {
            lemma_expr_stmt_cost(toks, p);
        },
    }
}

pub proof fn lemma_while_cost(toks: Seq<TokenV>, pos: nat)
    ensures
        stmt_within(while_at(toks, pos), pos),
    decreases toks.len() - pos, 45nat,
{
    match expect_at(toks, pos, TokenV::KwWhile) {
        Err(_) => {},
        Ok(p) => if pos < toks.len() {
            lemma_expr_cost(toks, p);
            match expr_at(toks, p) {
                Err(_) => {},
                Ok((cond, q)) => if advanced(toks, pos, q) {
                    lemma_braced_cost(toks, q);
                },
            }
        },
    }
}

pub proof fn lemma_if_stmt_cost(toks: Seq<TokenV>, pos: nat)
    ensures
        stmt_within(if_stmt_at(toks, pos), pos),
    decreases toks.len() - pos, 45nat,
{
    match expect_at(toks, pos, TokenV::KwIf) {
        Err(_) => {},
        Ok(p) => {
            lemma_expr_cost(toks, p);
            match expr_at(toks, p) {
                Err(_) => {},
                Ok((c, q)) => if advanced(toks, pos, q) {
                    lemma_braced_cost(toks, q);
                    match braced_at(toks, q) {
                        Err(_) => {},
                        Ok((_, r)) => if advanced(toks, pos, r) && peek_at(toks, r) is KwElse {
                            lemma_braced_cost(toks, r + 1);
                        },
                    }
                },
            }
        },
    }
}

pub proof fn lemma_block_stmt_cost(toks: Seq<TokenV>, pos: nat)
    ensures
        stmt_within(block_stmt_at(toks, pos), pos),
    decreases toks.len() - pos, 52nat,
{
    lemma_braced_cost(toks, pos);
}

} // verus!

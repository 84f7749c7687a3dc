//! Semantic analysis: infers the type of every expression, checks the
//! program's uses of types and names, and collects the errors it finds.
use vstd::prelude::*;
use crate::ast::{BinOp, Expr, ExprV, Stmt, StmtV, Type, stmts_view, exprs_view, type_text, type_str};
use crate::error::{CompileError, CompileResult, ErrorV, Phase, err_v};
use crate::symbol_table::{
    Symbol, SymbolTable, SymbolV, TableV, lookup_spec, push_scope_spec, pop_scope_spec,
    declare_spec, error_spec, lemma_lookup_after_declare,
};
use crate::text::{join, push_str};
use vstd::string::StringExecFns;

verus! {

/// Type checker for semantic analysis
pub struct TypeChecker {
    pub table: SymbolTable,
}

/// `Type mismatch for '<name>': expected <declared>, found <inferred>`
pub open spec fn msg_let_mismatch(name: Seq<char>, declared: Type, inferred: Type) -> Seq<char> {
    "Type mismatch for '"@ + name + "': expected "@ + type_text(declared) + ", found "@ + type_text(inferred)
}

/// `Undefined variable: '<name>'`
pub open spec fn msg_undefined(name: Seq<char>) -> Seq<char> {
    "Undefined variable: '"@ + name + "'"@
}

/// `Type mismatch in assignment to '<name>': <declared> = <value>`
pub open spec fn msg_assign_mismatch(name: Seq<char>, declared: Type, value: Type) -> Seq<char> {
    "Type mismatch in assignment to '"@ + name + "': "@ + type_text(declared) + " = "@ + type_text(value)
}

/// `While condition must be bool, found <type>`
pub open spec fn msg_while_cond(t: Type) -> Seq<char> {
    "While condition must be bool, found "@ + type_text(t)
}

/// `If condition must be bool, found <type>`
pub open spec fn msg_if_cond(t: Type) -> Seq<char> {
    "If condition must be bool, found "@ + type_text(t)
}

/// `Arithmetic operator requires numbers, got <left> and <right>`
pub open spec fn msg_arith(l: Type, r: Type) -> Seq<char> {
    "Arithmetic operator requires numbers, got "@ + type_text(l) + " and "@ + type_text(r)
}

/// `Comparison types don't match: <left> vs <right>`
pub open spec fn msg_compare(l: Type, r: Type) -> Seq<char> {
    "Comparison types don't match: "@ + type_text(l) + " vs "@ + type_text(r)
}

/// `Logical operators require bool, got <left> and <right>`
pub open spec fn msg_logic(l: Type, r: Type) -> Seq<char> {
    "Logical operators require bool, got "@ + type_text(l) + " and "@ + type_text(r)
}

/// `If/else branches have different types: <then> vs <else>`
pub open spec fn msg_branches(a: Type, b: Type) -> Seq<char> {
    "If/else branches have different types: "@ + type_text(a) + " vs "@ + type_text(b)
}

/// `Semantic errors: ` and the messages, separated by `; `.
pub open spec fn msg_semantic(errors: Seq<Seq<char>>) -> Seq<char> {
    "Semantic errors: "@ + join(errors, "; "@)
}

pub open spec fn is_arith(op: BinOp) -> bool {
    op == BinOp::Add || op == BinOp::Sub || op == BinOp::Mul || op == BinOp::Div || op == BinOp::Mod
}

pub open spec fn is_compare(op: BinOp) -> bool {
    op == BinOp::Eq || op == BinOp::Ne || op == BinOp::Lt || op == BinOp::Gt || op == BinOp::Le
        || op == BinOp::Ge
}

pub open spec fn is_number(t: Type) -> bool {
    t == Type::Int || t == Type::Float
}

/// A condition may be a boolean or an integer.
pub open spec fn is_condition(t: Type) -> bool {
    t == Type::Bool || t == Type::Int
}

/// Records `msg` when `bad` holds.
pub open spec fn error_if(t: TableV, bad: bool, msg: Seq<char>) -> TableV {
    if bad { error_spec(t, msg) } else { t }
}

/// The type of an expression, and the table after checking it: names that
/// are not declared, operands of the wrong types, conditions that are not
/// booleans or integers and `if`/`else` branches of different types are
/// recorded as errors. A call is taken to give an integer.
pub open spec fn check_expr(t: TableV, e: ExprV) -> (TableV, Type)
    decreases e,
{
    match e {
        ExprV::IntLit(_) => (t, Type::Int),
        ExprV::FloatLit(_) => (t, Type::Float),
        ExprV::BoolLit(_) => (t, Type::Bool),
        ExprV::StrLit(_) => (t, Type::Str),
        ExprV::Var(name) => match lookup_spec(t, name) {
            Some(sym) => (t, sym.ty),
            None => (error_spec(t, msg_undefined(name)), Type::Unknown),
        },
        ExprV::BinOp { op, left, right } => {
            let (t1, lt) = check_expr(t, *left);
            let (t2, rt) = check_expr(t1, *right);
            if is_arith(op) {
                (
                    error_if(t2, !is_number(lt) || !is_number(rt), msg_arith(lt, rt)),
                    if lt == Type::Float || rt == Type::Float { Type::Float } else { Type::Int },
                )
            } else if is_compare(op) {
                (error_if(t2, lt != rt, msg_compare(lt, rt)), Type::Bool)
            } else {
                (error_if(t2, lt != Type::Bool || rt != Type::Bool, msg_logic(lt, rt)), Type::Bool)
            }
        },
        ExprV::Call { func, args } => (check_exprs(t, args), Type::Int),
        ExprV::If { cond, then_, else_ } => {
            let (t1, ct) = check_expr(t, *cond);
            let t2 = error_if(t1, !is_condition(ct), msg_if_cond(ct));
            let (t3, tt) = check_expr(t2, *then_);
            match else_ {
                Some(x) => {
                    let (t4, et) = check_expr(t3, *x);
                    (error_if(t4, tt != et, msg_branches(tt, et)), tt)
                },
                None => (t3, tt),
            }
        },
    }
}

/// The table after checking expressions one after the other.
pub open spec fn check_exprs(t: TableV, es: Seq<ExprV>) -> TableV
    decreases es,
{
    if es.len() == 0 {
        t
    } else {
        check_expr(check_exprs(t, es.drop_last()), es.last()).0
    }
}

/// The table after checking a statement. A `let` declares its name with the
/// type of its initializer (recording a mismatch with a declared type);
/// blocks and the bodies of `while` and `if` are checked in scopes of their
/// own.
pub open spec fn check_stmt(t: TableV, s: StmtV) -> TableV
    decreases s,
{
    match s {
        StmtV::Let { name, ty, init } => {
            let (t1, inferred) = check_expr(t, init);
            let t2 = match ty {
                Some(d) => error_if(t1, inferred != d, msg_let_mismatch(name, d, inferred)),
                None => t1,
            };
            declare_spec(t2, SymbolV { name, ty: inferred, mutable: true, defined: true })
        },
        StmtV::Assign { name, value } => match lookup_spec(t, name) {
            None => error_spec(t, msg_undefined(name)),
            Some(sym) => {
                let (t1, vt) = check_expr(t, value);
                error_if(t1, vt != sym.ty, msg_assign_mismatch(name, sym.ty, vt))
            },
        },
        StmtV::Return(e) => check_expr(t, e).0,
        StmtV::ExprStmt(e) => check_expr(t, e).0,
        StmtV::Block(b) => pop_scope_spec(check_stmts(push_scope_spec(t), b)),
        StmtV::While { cond, body } => {
            let (t1, ct) = check_expr(t, cond);
            let t2 = error_if(t1, !is_condition(ct), msg_while_cond(ct));
            pop_scope_spec(check_stmts(push_scope_spec(t2), body))
        },
        StmtV::If { cond, then_body, else_body } => {
            let (t1, ct) = check_expr(t, cond);
            let t2 = error_if(t1, !is_condition(ct), msg_if_cond(ct));
            let t3 = pop_scope_spec(check_stmts(push_scope_spec(t2), then_body));
            match else_body {
                Some(b) => pop_scope_spec(check_stmts(push_scope_spec(t3), b)),
                None => t3,
            }
        },
    }
}

/// The table after checking statements one after the other.
pub open spec fn check_stmts(t: TableV, ss: Seq<StmtV>) -> TableV
    decreases ss,
{
    if ss.len() == 0 {
        t
    } else {
        check_stmt(check_stmts(t, ss.drop_last()), ss.last())
    }
}

/// What checking a program gives: the error that lists every recorded
/// message when there is one, else success.
pub open spec fn program_result(t: TableV) -> Result<(), ErrorV> {
    if t.errors.len() > 0 {
        Err(err_v(Phase::Semantic, msg_semantic(t.errors)))
    } else {
        Ok(())
    }
}

/// Checking an expression declares nothing and keeps every recorded error.
pub proof fn lemma_check_expr_keeps(t: TableV, e: ExprV)
    ensures
        check_expr(t, e).0.scopes == t.scopes,
        check_expr(t, e).0.errors.len() >= t.errors.len(),
        check_expr(t, e).0.errors.take(t.errors.len() as int) == t.errors,
    decreases e,
{
    match e {
        ExprV::BinOp { op, left, right } => {
            let (t1, _) = check_expr(t, *left);
            lemma_check_expr_keeps(t, *left);
            lemma_check_expr_keeps(t1, *right);
            let t2 = check_expr(t1, *right).0;
            assert(t2.errors.take(t.errors.len() as int) =~= t1.errors.take(t.errors.len() as int));
            assert(t2.errors.push(Seq::empty()).take(t.errors.len() as int) =~= t2.errors.take(t.errors.len() as int));
            assert forall|m: Seq<char>| #![trigger t2.errors.push(m)] t2.errors.push(m).take(t.errors.len() as int) == t.errors by {
                assert(t2.errors.push(m).take(t.errors.len() as int) =~= t2.errors.take(t.errors.len() as int));
            }
        },
        ExprV::Call { func, args } => {
            lemma_check_exprs_keeps(t, args);
        },
        ExprV::If { cond, then_, else_ } => {
            let (t1, ct) = check_expr(t, *cond);
            lemma_check_expr_keeps(t, *cond);
            let t2 = error_if(t1, !is_condition(ct), msg_if_cond(ct));
            assert(t2.errors.take(t.errors.len() as int) =~= t.errors) by {
                assert(t1.errors.push(msg_if_cond(ct)).take(t.errors.len() as int) =~= t1.errors.take(t.errors.len() as int));
            }
            lemma_check_expr_keeps(t2, *then_);
            let (t3, tt) = check_expr(t2, *then_);
            assert(t3.errors.take(t.errors.len() as int) =~= t2.errors.take(t.errors.len() as int));
            match else_ {
                Some(x) => {
                    lemma_check_expr_keeps(t3, *x);
                    let (t4, et) = check_expr(t3, *x);
                    assert(t4.errors.take(t.errors.len() as int) =~= t3.errors.take(t.errors.len() as int));
                    assert(t4.errors.push(msg_branches(tt, et)).take(t.errors.len() as int) =~= t4.errors.take(t.errors.len() as int));
                },
                None => {},
            }
        },
        ExprV::Var(name) => {
            assert(t.errors.push(msg_undefined(name)).take(t.errors.len() as int) =~= t.errors);
        },
        _ => {
            assert(t.errors.take(t.errors.len() as int) =~= t.errors);
        },
    }
}

/// An expression leaves every name resolving as before; a variable that is
/// not declared has type `Unknown` and records `Undefined variable: '<name>'`.
pub proof fn lemma_check_expr_names(t: TableV, e: ExprV, name: Seq<char>)
    ensures
        lookup_spec(check_expr(t, e).0, name) == lookup_spec(t, name),
        check_expr(t, e).0.scopes.last() == t.scopes.last(),
        lookup_spec(t, name) is None ==> check_expr(t, ExprV::Var(name)) == (
        error_spec(t, msg_undefined(name)),
        Type::Unknown,
        ),
{
    lemma_check_expr_keeps(t, e);
}

/// The type of a binary operation and the errors it records, after those
/// of its operands: a comparison (`== != < > <= >=`) is a `Bool`, with an
/// error exactly when its operands' types differ; `&&` and `||` are `Bool`,
/// with an error unless both operands are `Bool`; arithmetic (`+ - * / %`)
/// is a `Float` when either operand is, else an `Int`, with an error unless
/// both operands are numbers. An error adds one message and nothing else
/// changes.
pub proof fn lemma_binop_types(t: TableV, op: BinOp, l: ExprV, r: ExprV)
    ensures
        ({
            let (t1, lt) = check_expr(t, l);
            let (t2, rt) = check_expr(t1, r);
            let (t3, ty) = check_expr(t, ExprV::BinOp { op, left: Box::new(l), right: Box::new(r) });
            let ok = t3 == t2;
            let one_error = t3.scopes == t2.scopes && t3.errors.len() == t2.errors.len() + 1
                && t3.errors.take(t2.errors.len() as int) == t2.errors;
            let relation = op == BinOp::Eq || op == BinOp::Ne || op == BinOp::Lt || op == BinOp::Gt || op == BinOp::Le
                || op == BinOp::Ge;
            let logic = op == BinOp::And || op == BinOp::Or;
            let arith = op == BinOp::Add || op == BinOp::Sub || op == BinOp::Mul || op == BinOp::Div || op
                == BinOp::Mod;
            let num = |x: Type| x == Type::Int || x == Type::Float;
            &&& relation ==> ty == Type::Bool
            &&& relation && lt == rt ==> ok
            &&& relation && lt != rt ==> one_error
            &&& logic ==> ty == Type::Bool
            &&& logic && lt == Type::Bool && rt == Type::Bool ==> ok
            &&& logic && !(lt == Type::Bool && rt == Type::Bool) ==> one_error
            &&& arith && lt == Type::Int && rt == Type::Int ==> ty == Type::Int && ok
            &&& arith && (lt == Type::Float || rt == Type::Float) ==> ty == Type::Float
            &&& arith && num(lt) && num(rt) ==> ok
            &&& arith && !(num(lt) && num(rt)) ==> one_error
        }),
{
    let (t1, lt) = check_expr(t, l);
    let (t2, rt) = check_expr(t1, r);
    assert forall|m: Seq<char>| #![trigger t2.errors.push(m)] t2.errors.push(m).take(t2.errors.len() as int) == t2.errors by {
        assert(t2.errors.push(m).take(t2.errors.len() as int) =~= t2.errors);
    }
}

/// The types of literals, names and calls: an integer literal is an `Int`,
/// a float literal a `Float`, `true`/`false` a `Bool`, a string a `Str`; a
/// declared name has the type it was declared with, and checking it
/// records nothing; a call is taken to give an `Int`.
pub proof fn lemma_atom_types(t: TableV, n: i64, text: Seq<char>, b: bool, name: Seq<char>, args: Seq<ExprV>)
    ensures
        check_expr(t, ExprV::IntLit(n)) == (t, Type::Int),
        check_expr(t, ExprV::FloatLit(text)) == (t, Type::Float),
        check_expr(t, ExprV::BoolLit(b)) == (t, Type::Bool),
        check_expr(t, ExprV::StrLit(text)) == (t, Type::Str),
        lookup_spec(t, name) matches Some(sym) ==> check_expr(t, ExprV::Var(name)) == (t, sym.ty),
        check_expr(t, ExprV::Call { func: name, args }).1 == Type::Int,
{
}

/// What checking a statement records: a `while` or `if` condition may be a
/// `Bool` or an `Int` and anything else adds one error; a `let` declares
/// its name, in the innermost scope, with the type of its initializer, and
/// adds one error exactly when a declared type differs from it; an
/// assignment to an undeclared name adds one error, and one to a declared
/// name adds one more error exactly when the value's type differs from the
/// name's.
pub proof fn lemma_statement_rules(t: TableV, cond: ExprV, name: Seq<char>, ty: Option<Type>, init: ExprV)
    requires
        t.scopes.len() >= 1,
    ensures
        ({
            let (t1, ct) = check_expr(t, cond);
            let fine = ct == Type::Bool || ct == Type::Int;
            let w = check_stmt(t, StmtV::While { cond, body: Seq::empty() });
            let i = check_stmt(t, StmtV::If { cond, then_body: Seq::empty(), else_body: None });
            &&& fine ==> w == t1 && i == t1
            &&& !fine ==> w.scopes == t1.scopes && w.errors.len() == t1.errors.len() + 1
            &&& !fine ==> i.scopes == t1.scopes && i.errors.len() == t1.errors.len() + 1
        }),
        ({
            let (t1, it) = check_expr(t, init);
            let d = check_stmt(t, StmtV::Let { name, ty, init });
            &&& lookup_spec(d, name) == Some(SymbolV { name, ty: it, mutable: true, defined: true })
            &&& d.scopes.last().contains_key(name)
            &&& d.errors.len() == t1.errors.len() + (if ty is Some && ty->0 != it { 1int } else { 0int })
        }),
        ({
            let a = check_stmt(t, StmtV::Assign { name, value: init });
            let (t1, vt) = check_expr(t, init);
            &&& lookup_spec(t, name) is None ==> a.errors.len() == t.errors.len() + 1 && a.scopes == t.scopes
            &&& lookup_spec(t, name) matches Some(sym) ==> a.scopes == t.scopes && a.errors.len()
                == t1.errors.len() + (if vt != sym.ty { 1int } else { 0int })
        }),
{
    let (t1, ct) = check_expr(t, cond);
    lemma_check_expr_keeps(t, cond);
    lemma_check_expr_keeps(t, init);
    let t2 = error_if(t1, !is_condition(ct), msg_while_cond(ct));
    let t2i = error_if(t1, !is_condition(ct), msg_if_cond(ct));
    assert(pop_scope_spec(push_scope_spec(t2)).scopes =~= t2.scopes);
    assert(pop_scope_spec(push_scope_spec(t2i)).scopes =~= t2i.scopes);
    assert(check_stmts(push_scope_spec(t2), Seq::empty()) == push_scope_spec(t2));
    assert(check_stmts(push_scope_spec(t2i), Seq::empty()) == push_scope_spec(t2i));
    let (ti, it) = check_expr(t, init);
    let tl = match ty {
        Some(d) => error_if(ti, it != d, msg_let_mismatch(name, d, it)),
        None => ti,
    };
    lemma_lookup_after_declare(tl, SymbolV { name, ty: it, mutable: true, defined: true });
}

/// Checking a statement keeps every recorded error, adding new ones after
/// them, and keeps the number of scopes and every scope but the innermost;
/// a statement other than `let` changes no scope at all, so that after a
/// block, a loop or an `if` every name resolves as before and is in the
/// current scope or not as before.
pub proof fn lemma_check_stmt_keeps(t: TableV, s: StmtV)
    requires
        t.scopes.len() >= 1,
    ensures
        check_stmt(t, s).errors.len() >= t.errors.len(),
        check_stmt(t, s).errors.take(t.errors.len() as int) == t.errors,
        check_stmt(t, s).scopes.len() == t.scopes.len(),
        check_stmt(t, s).scopes.drop_last() == t.scopes.drop_last(),
        !(s is Let) ==> check_stmt(t, s).scopes == t.scopes,
    decreases s, 0nat,
{
    let n = t.errors.len() as int;
    match s {
        StmtV::Let { name, ty, init } => {
            lemma_check_expr_keeps(t, init);
            let (t1, inferred) = check_expr(t, init);
            let t2 = match ty {
                Some(d) => error_if(t1, inferred != d, msg_let_mismatch(name, d, inferred)),
                None => t1,
            };
            assert(t2.errors.take(n) =~= t.errors) by {
                assert(t1.errors.push(msg_let_mismatch(name, ty->0, inferred)).take(n) =~= t1.errors.take(n));
            }
            let t3 = declare_spec(t2, SymbolV { name, ty: inferred, mutable: true, defined: true });
            assert(t3.scopes.drop_last() =~= t2.scopes.drop_last());
        },
        StmtV::Assign { name, value } => {
            match lookup_spec(t, name) {
                None => {
                    assert(t.errors.push(msg_undefined(name)).take(n) =~= t.errors);
                },
                Some(sym) => {
                    lemma_check_expr_keeps(t, value);
                    let (t1, vt) = check_expr(t, value);
                    assert(t1.errors.push(msg_assign_mismatch(name, sym.ty, vt)).take(n) =~= t1.errors.take(n));
                },
            }
        },
        StmtV::Return(e) => lemma_check_expr_keeps(t, e),
        StmtV::ExprStmt(e) => lemma_check_expr_keeps(t, e),
        StmtV::Block(b) => {
            lemma_scoped_keeps(t, b);
        },
        StmtV::While { cond, body } => {
            lemma_check_expr_keeps(t, cond);
            let (t1, ct) = check_expr(t, cond);
            let t2 = error_if(t1, !is_condition(ct), msg_while_cond(ct));
            assert(t2.errors.take(n) =~= t.errors) by {
                assert(t1.errors.push(msg_while_cond(ct)).take(n) =~= t1.errors.take(n));
            }
            lemma_scoped_keeps(t2, body);
            let t3 = pop_scope_spec(check_stmts(push_scope_spec(t2), body));
            assert(t3.errors.take(n) =~= t2.errors.take(n));
        },
        StmtV::If { cond, then_body, else_body } => {
            lemma_check_expr_keeps(t, cond);
            let (t1, ct) = check_expr(t, cond);
            let t2 = error_if(t1, !is_condition(ct), msg_if_cond(ct));
            assert(t2.errors.take(n) =~= t.errors) by {
                assert(t1.errors.push(msg_if_cond(ct)).take(n) =~= t1.errors.take(n));
            }
            lemma_scoped_keeps(t2, then_body);
            let t3 = pop_scope_spec(check_stmts(push_scope_spec(t2), then_body));
            assert(t3.errors.take(n) =~= t2.errors.take(n));
            match else_body {
                Some(b) => {
                    lemma_scoped_keeps(t3, b);
                    let t4 = pop_scope_spec(check_stmts(push_scope_spec(t3), b));
                    assert(t4.errors.take(n) =~= t3.errors.take(n));
                },
                None => {},
            }
        },
    }
}

/// Checking statements keeps the recorded errors, the number of scopes and
/// every scope but the innermost.
pub proof fn lemma_check_stmts_keeps(t: TableV, ss: Seq<StmtV>)
    requires
        t.scopes.len() >= 1,
    ensures
        check_stmts(t, ss).errors.len() >= t.errors.len(),
        check_stmts(t, ss).errors.take(t.errors.len() as int) == t.errors,
        check_stmts(t, ss).scopes.len() == t.scopes.len(),
        check_stmts(t, ss).scopes.drop_last() == t.scopes.drop_last(),
    decreases ss, 0nat,
{
    if ss.len() == 0 {
        assert(t.errors.take(t.errors.len() as int) =~= t.errors);
    } else {
        lemma_check_stmts_keeps(t, ss.drop_last());
        let t1 = check_stmts(t, ss.drop_last());
        lemma_check_stmt_keeps(t1, ss.last());
        let t2 = check_stmt(t1, ss.last());
        assert(t2.errors.take(t.errors.len() as int) =~= t1.errors.take(t.errors.len() as int));
    }
}

/// Statements checked in a scope of their own leave the scopes as they were.
proof fn lemma_scoped_keeps(t: TableV, ss: Seq<StmtV>)
    requires
        t.scopes.len() >= 1,
    ensures
        pop_scope_spec(check_stmts(push_scope_spec(t), ss)).scopes == t.scopes,
        pop_scope_spec(check_stmts(push_scope_spec(t), ss)).errors.len() >= t.errors.len(),
        pop_scope_spec(check_stmts(push_scope_spec(t), ss)).errors.take(t.errors.len() as int) == t.errors,
    decreases ss, 1nat,
{
    let t1 = push_scope_spec(t);
    lemma_check_stmts_keeps(t1, ss);
    assert(t1.scopes.drop_last() =~= t.scopes);
}

/// Checking expressions declares nothing and keeps every recorded error.
pub proof fn lemma_check_exprs_keeps(t: TableV, es: Seq<ExprV>)
    ensures
        check_exprs(t, es).scopes == t.scopes,
        check_exprs(t, es).errors.len() >= t.errors.len(),
        check_exprs(t, es).errors.take(t.errors.len() as int) == t.errors,
    decreases es,
{
    if es.len() == 0 {
        assert(t.errors.take(t.errors.len() as int) =~= t.errors);
    } else {
        lemma_check_exprs_keeps(t, es.drop_last());
        let t1 = check_exprs(t, es.drop_last());
        lemma_check_expr_keeps(t1, es.last());
        let t2 = check_expr(t1, es.last()).0;
        assert(t2.errors.take(t.errors.len() as int) =~= t1.errors.take(t.errors.len() as int));
    }
}

fn quoted_msg(prefix: &str, name: &String, suffix: &str) -> (r: String)
    ensures
        r@ == prefix@ + name@ + suffix@,
{
    let mut s = String::from_str(prefix);
    push_str(&mut s, name.as_str());
    push_str(&mut s, suffix);
    s
}

fn two_types_msg(prefix: &str, a: Type, mid: &str, b: Type) -> (r: String)
    ensures
        r@ == prefix@ + type_text(a) + mid@ + type_text(b),
{
    let mut s = String::from_str(prefix);
    push_str(&mut s, type_str(a));
    push_str(&mut s, mid);
    push_str(&mut s, type_str(b));
    s
}

fn type_msg(prefix: &str, a: Type) -> (r: String)
    ensures
        r@ == prefix@ + type_text(a),
{
    let mut s = String::from_str(prefix);
    push_str(&mut s, type_str(a));
    s
}

fn name_two_types_msg(prefix: &str, name: &String, mid: &str, a: Type, mid2: &str, b: Type) -> (r: String)
    ensures
        r@ == prefix@ + name@ + mid@ + type_text(a) + mid2@ + type_text(b),
{
    let mut s = String::from_str(prefix);
    push_str(&mut s, name.as_str());
    push_str(&mut s, mid);
    push_str(&mut s, type_str(a));
    push_str(&mut s, mid2);
    push_str(&mut s, type_str(b));
    s
}

impl TypeChecker {
    /// The checker's table has its global scope.
    pub open spec fn wf(&self) -> bool {
        self.table.wf()
    }

    /// Create new type checker
    pub fn new() -> (r: Self)
        ensures
            r.wf(),
            r.table@.scopes == seq![Map::<Seq<char>, SymbolV>::empty()],
            r.table@.errors == Seq::<Seq<char>>::empty(),
    {
        TypeChecker { table: SymbolTable::new() }
    }

    /// Check entire program
    pub fn check_program(&mut self, program: &Vec<Stmt>) -> (r: CompileResult<()>)
        requires
            old(self).wf(),
        ensures
            final(self).wf(),
            final(self).table@ == check_stmts(old(self).table@, stmts_view(program@)),
            match r {
                Ok(_) => program_result(final(self).table@) == Ok::<(), ErrorV>(()),
                Err(e) => program_result(final(self).table@) == Err::<(), ErrorV>(e@),
            },
    {
        let ghost t0 = self.table@;
        let ghost sv = stmts_view(program@);
        let mut i: usize = 0;
        while i < program.len()
            invariant
                i <= program@.len(),
                sv == stmts_view(program@),
                self.wf(),
                self.table@ == check_stmts(t0, sv.take(i as int)),
            decreases program@.len() - i,
        {
            assert(sv.take(i + 1).drop_last() =~= sv.take(i as int));
            assert(sv.take(i + 1).last() == program@[i as int]@);
            self.check_stmt(&program[i], &Type::Unit)?;
            i = i + 1;
        }
        assert(sv.take(i as int) =~= sv);

        if self.table.has_errors() {
            let mut msg = String::from_str("Semantic errors: ");
            let joined = self.table.joined_errors();
            push_str(&mut msg, joined.as_str());
            return Err(CompileError::without_position(Phase::Semantic, msg));
        }
        Ok(())
    }

    /// Check a block of statements in a new scope
    fn check_scoped(&mut self, stmts: &Vec<Stmt>, ret_ty: &Type)
        requires
            old(self).wf(),
        ensures
            final(self).wf(),
            final(self).table@ == pop_scope_spec(check_stmts(push_scope_spec(old(self).table@), stmts_view(stmts@))),
        decreases stmts,
    {
        self.table.push_scope();
        let ghost t0 = self.table@;
        let ghost sv = stmts_view(stmts@);
        let mut i: usize = 0;
        while i < stmts.len()
            invariant
                i <= stmts@.len(),
                sv == stmts_view(stmts@),
                self.wf(),
                self.table@ == check_stmts(t0, sv.take(i as int)),
            decreases stmts@.len() - i,
        {
            assert(sv.take(i + 1).drop_last() =~= sv.take(i as int));
            assert(sv.take(i + 1).last() == stmts@[i as int]@);
            let _ = self.check_stmt(&stmts[i], ret_ty);
            i = i + 1;
        }
        assert(sv.take(i as int) =~= sv);
        self.table.pop_scope();
    }

    /// Check a statement
    fn check_stmt(&mut self, stmt: &Stmt, _ret_ty: &Type) -> (r: CompileResult<()>)
        requires
            old(self).wf(),
        ensures
            final(self).wf(),
            r is Ok,
            final(self).table@ == check_stmt(old(self).table@, stmt@),
        decreases stmt,
    {
        match stmt {
            Stmt::Let { name, ty, init } => {
                let inferred = self.check_expr(init)?;
                match ty {
                    Some(declared_ty) => {
                        if inferred != *declared_ty {
                            self.table.error(name_two_types_msg(
                                "Type mismatch for '", name, "': expected ", *declared_ty, ", found ", inferred,
                            ));
                        }
                    },
                    None => {},
                }
                self.table.declare(Symbol { name: name.clone(), ty: inferred, mutable: true, defined: true });
                Ok(())
            },
            Stmt::Assign { name, value } => {
                match self.table.lookup(name.as_str()) {
                    None => {
                        self.table.error(quoted_msg("Undefined variable: '", name, "'"));
                        Ok(())
                    },
                    Some(sym) => {
                        let val_ty = self.check_expr(value)?;
                        if val_ty != sym.ty {
                            self.table.error(name_two_types_msg(
                                "Type mismatch in assignment to '", name, "': ", sym.ty, " = ", val_ty,
                            ));
                        }
                        Ok(())
                    },
                }
            },
            Stmt::Return(expr) => {
                let _ty = self.check_expr(expr)?;
                Ok(())
            },
            Stmt::ExprStmt(expr) => {
                let _ty = self.check_expr(expr)?;
                Ok(())
            },
            Stmt::Block(stmts) => {
                self.check_scoped(stmts, _ret_ty);
                Ok(())
            },
            Stmt::While { cond, body } => {
                let cond_ty = self.check_expr(cond)?;
                if cond_ty != Type::Bool && cond_ty != Type::Int {
                    self.table.error(type_msg("While condition must be bool, found ", cond_ty));
                }
                self.check_scoped(body, _ret_ty);
                Ok(())
            },
            Stmt::If { cond, then_body, else_body } => {
                let cond_ty = self.check_expr(cond)?;
                if cond_ty != Type::Bool && cond_ty != Type::Int {
                    self.table.error(type_msg("If condition must be bool, found ", cond_ty));
                }
                self.check_scoped(then_body, _ret_ty);
                match else_body {
                    Some(else_stmts) => {
                        self.check_scoped(else_stmts, _ret_ty);
                    },
                    None => {},
                }
                Ok(())
            },
        }
    }

    /// Check the arguments of a call one after the other
    fn check_args(&mut self, args: &Vec<Expr>)
        requires
            old(self).wf(),
        ensures
            final(self).wf(),
            final(self).table@ == check_exprs(old(self).table@, exprs_view(args@)),
        decreases args,
    {
        let ghost t0 = self.table@;
        let ghost av = exprs_view(args@);
        let mut i: usize = 0;
        while i < args.len()
            invariant
                i <= args@.len(),
                av == exprs_view(args@),
                self.wf(),
                self.table@ == check_exprs(t0, av.take(i as int)),
            decreases args@.len() - i,
        {
            assert(av.take(i + 1).drop_last() =~= av.take(i as int));
            assert(av.take(i + 1).last() == args@[i as int]@);
            let _ty = self.check_expr(&args[i]);
            i = i + 1;
        }
        assert(av.take(i as int) =~= av);
    }

    /// Check an expression and return its type
    fn check_expr(&mut self, expr: &Expr) -> (r: CompileResult<Type>)
        requires
            old(self).wf(),
        ensures
            final(self).wf(),
            r == Ok::<Type, CompileError>(check_expr(old(self).table@, expr@).1),
            final(self).table@ == check_expr(old(self).table@, expr@).0,
        decreases expr,
    {
        match expr {
            Expr::IntLit(_) => Ok(Type::Int),
            Expr::FloatLit(_) => Ok(Type::Float),
            Expr::BoolLit(_) => Ok(Type::Bool),
            Expr::StrLit(_) => Ok(Type::Str),
            Expr::Var(name) => {
                match self.table.lookup(name.as_str()) {
                    Some(sym) => Ok(sym.ty),
                    None => {
                        self.table.error(quoted_msg("Undefined variable: '", name, "'"));
                        Ok(Type::Unknown)
                    },
                }
            },
            Expr::BinOp { op, left, right } => {
                let lt = self.check_expr(left)?;
                let rt = self.check_expr(right)?;
                match op {
                    BinOp::Add | BinOp::Sub | BinOp::Mul | BinOp::Div | BinOp::Mod => {
                        if (lt != Type::Int && lt != Type::Float) || (rt != Type::Int && rt != Type::Float) {
                            self.table.error(two_types_msg(
                                "Arithmetic operator requires numbers, got ", lt, " and ", rt,
                            ));
                        }
                        if lt == Type::Float || rt == Type::Float {
                            Ok(Type::Float)
                        } else {
                            Ok(Type::Int)
                        }
                    },
                    BinOp::Eq | BinOp::Ne | BinOp::Lt | BinOp::Gt | BinOp::Le | BinOp::Ge => {
                        if lt != rt {
                            self.table.error(two_types_msg("Comparison types don't match: ", lt, " vs ", rt));
                        }
                        Ok(Type::Bool)
                    },
                    BinOp::And | BinOp::Or => {
                        if lt != Type::Bool || rt != Type::Bool {
                            self.table.error(two_types_msg(
                                "Logical operators require bool, got ", lt, " and ", rt,
                            ));
                        }
                        Ok(Type::Bool)
                    },
                }
            },
            Expr::Call { func: _, args } => {
                self.check_args(args);
                Ok(Type::Int)
            },
            Expr::If { cond, then_, else_ } => {
                let cond_ty = self.check_expr(cond)?;
                if cond_ty != Type::Bool && cond_ty != Type::Int {
                    self.table.error(type_msg("If condition must be bool, found ", cond_ty));
                }
                let then_ty = self.check_expr(then_)?;
                match else_ {
                    Some(else_expr) => {
                        let else_ty = self.check_expr(else_expr)?;
                        if then_ty != else_ty {
                            self.table.error(two_types_msg(
                                "If/else branches have different types: ", then_ty, " vs ", else_ty,
                            ));
                        }
                    },
                    None => {},
                }
                Ok(then_ty)
            },
        }
    }
}

} // verus!

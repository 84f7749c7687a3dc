//! What a program means when evaluated directly, statement by statement,
//! and the proof that running the code generated for it gives the same
//! result.
//!
//! The evaluation works on one flat memory of variables, as the generated
//! code does: a block does not hide the variables it declares. Arithmetic
//! is that of the machine (`eval_op`). It covers the expressions that have a
//! value of their own: literals, variables, operators and `if` expressions
//! with an `else`. Calls, and `if` expressions without `else`, whose
//! generated code may leave a temporary as it finds it, are outside it, as
//! are variables whose names are those of temporaries.
use vstd::prelude::*;
use crate::ast::{BinOp as AstBinOp, ExprV, StmtV};
use crate::tac::BinOp as TacBinOp;
use crate::tac::{AddrV, InstrV, temp_name, lemma_temp_name_injective};
use crate::text::leading_number;
use crate::interpreter::{MachineV, StepV, read, eval_op, step, run_from, label_targets};
use crate::phases::codegen::{GenV, emit, gen_expr, gen_stmt, gen_stmts, tac_op, label_name};
use crate::phases::code_shape::{
    extends, label_def, lemma_gen_expr_shape, lemma_gen_stmt_shape, lemma_gen_stmts_shape,
    lemma_label_targets_unique, labels_resolve, lemma_program_labels,
};

verus! {

/// The value a memory holds under a name: 0 where nothing was stored.
pub open spec fn get(mem: Map<Seq<char>, i64>, k: Seq<char>) -> i64 {
    if mem.contains_key(k) { mem[k] } else { 0 }
}

/// Whether a name is that of a temporary: `t` and a number.
pub open spec fn is_temp_name(k: Seq<char>) -> bool {
    exists|n: nat| k == temp_name(n)
}

/// The value of an expression with the variables as `env` holds them.
pub open spec fn expr_value(env: Map<Seq<char>, i64>, e: ExprV) -> i64
    decreases e,
{
    match e {
        ExprV::IntLit(n) => n,
        ExprV::FloatLit(t) => leading_number(t),
        ExprV::BoolLit(b) => if b { 1 } else { 0 },
        ExprV::StrLit(_) => 0,
        ExprV::Var(x) => get(env, x),
        ExprV::BinOp { op, left, right } => eval_op(tac_op(op), expr_value(env, *left), expr_value(env, *right)),
        ExprV::If { cond, then_, else_: Some(x) } => if expr_value(env, *cond) != 0 {
            expr_value(env, *then_)
        } else {
            expr_value(env, *x)
        },
        _ => 0,
    }
}

/// An expression made of literals, variables not named like temporaries,
/// operators, and `if` expressions with an `else`.
pub open spec fn simple_expr(e: ExprV) -> bool
    decreases e,
{
    match e {
        ExprV::Var(x) => !is_temp_name(x),
        ExprV::BinOp { left, right, .. } => simple_expr(*left) && simple_expr(*right),
        ExprV::Call { .. } => false,
        ExprV::If { cond, then_, else_: Some(x) } => simple_expr(*cond) && simple_expr(*then_) && simple_expr(*x),
        ExprV::If { .. } => false,
        _ => true,
    }
}

/// The machine's memory holds the variables as `env` does; temporaries
/// may hold anything.
pub open spec fn agrees(mem: Map<Seq<char>, i64>, env: Map<Seq<char>, i64>) -> bool {
    forall|k: Seq<char>| !is_temp_name(k) ==> #[trigger] get(mem, k) == get(env, k)
}

/// `m2` differs from `m1` at most in temporaries numbered `lo` or more.
pub open spec fn same_from(m1: Map<Seq<char>, i64>, m2: Map<Seq<char>, i64>, lo: nat) -> bool {
    forall|k: Seq<char>| #[trigger] get(m2, k) != get(m1, k) ==> exists|n: nat| lo <= n && k == temp_name(n)
}

/// An address whose value code writing temporaries numbered `lo` or more
/// leaves alone.
pub open spec fn addr_stable(a: AddrV, lo: nat) -> bool {
    match a {
        AddrV::Var(x) => !is_temp_name(x),
        AddrV::Temp(n) => n < lo,
        _ => true,
    }
}

/// The machine after `k` steps of `p` from `m`, if it is still running then
/// (it neither returned, halted nor ran past the end before).
pub open spec fn exec_steps(p: Seq<InstrV>, m: MachineV, k: nat) -> Option<MachineV>
    decreases k,
{
    if k == 0 {
        Some(m)
    } else if m.pc >= p.len() {
        None
    } else {
        match step(label_targets(p), p[m.pc as int], m.memory, m.pc) {
            StepV::Next(mem, pc) => exec_steps(p, MachineV { memory: mem, pc }, (k - 1) as nat),
            _ => None,
        }
    }
}

/// `code` is the beginning of `p`.
pub open spec fn prefix_of(code: Seq<InstrV>, p: Seq<InstrV>) -> bool {
    code.len() <= p.len() && p.take(code.len() as int) == code
}

proof fn lemma_steps_compose(p: Seq<InstrV>, m1: MachineV, k1: nat, m2: MachineV, k2: nat)
    requires
        exec_steps(p, m1, k1) == Some(m2),
    ensures
        exec_steps(p, m1, k1 + k2) == exec_steps(p, m2, k2),
    decreases k1,
{
    if k1 > 0 {
        match step(label_targets(p), p[m1.pc as int], m1.memory, m1.pc) {
            StepV::Next(mem, pc) => {
                lemma_steps_compose(p, MachineV { memory: mem, pc }, (k1 - 1) as nat, m2, k2);
                assert((k1 + k2 - 1) as nat == (k1 - 1) as nat + k2);
            },
            _ => {},
        }
    }
}

proof fn lemma_steps_run(p: Seq<InstrV>, m1: MachineV, k: nat, m2: MachineV, j: nat)
    requires
        exec_steps(p, m1, k) == Some(m2),
    ensures
        run_from(p, m1, k + j) == run_from(p, m2, j),
    decreases k,
{
    if k > 0 {
        match step(label_targets(p), p[m1.pc as int], m1.memory, m1.pc) {
            StepV::Next(mem, pc) => {
                lemma_steps_run(p, MachineV { memory: mem, pc }, (k - 1) as nat, m2, j);
                assert((k + j - 1) as nat == (k - 1) as nat + j);
            },
            _ => {},
        }
    }
}

proof fn lemma_step_next(p: Seq<InstrV>, m: MachineV, mem: Map<Seq<char>, i64>, pc: nat)
    requires
        m.pc < p.len(),
        step(label_targets(p), p[m.pc as int], m.memory, m.pc) == StepV::Next(mem, pc),
    ensures
        exec_steps(p, m, 1) == Some(MachineV { memory: mem, pc }),
{
    assert(exec_steps(p, MachineV { memory: mem, pc }, 0) == Some(MachineV { memory: mem, pc }));
}

proof fn lemma_prefix_at(code: Seq<InstrV>, p: Seq<InstrV>, i: int)
    requires
        prefix_of(code, p),
        0 <= i < code.len(),
    ensures
        p[i] == code[i],
{
    assert(p.take(code.len() as int)[i] == p[i]);
}

proof fn lemma_prefix_extends(g0: GenV, g1: GenV, p: Seq<InstrV>)
    requires
        extends(g0, g1),
        prefix_of(g1.instrs, p),
    ensures
        prefix_of(g0.instrs, p),
{
    assert(p.take(g0.instrs.len() as int) =~= g1.instrs.take(g0.instrs.len() as int));
}

proof fn lemma_prefix_emit(g: GenV, i: InstrV, p: Seq<InstrV>)
    requires
        prefix_of(emit(g, i).instrs, p),
    ensures
        prefix_of(g.instrs, p),
        p[g.instrs.len() as int] == i,
{
    lemma_prefix_at(emit(g, i).instrs, p, g.instrs.len() as int);
    assert(p.take(g.instrs.len() as int) =~= emit(g, i).instrs.take(g.instrs.len() as int));
    assert(emit(g, i).instrs.take(g.instrs.len() as int) =~= g.instrs);
}

proof fn lemma_same_from_refl(m: Map<Seq<char>, i64>, lo: nat)
    ensures
        same_from(m, m, lo),
{
}

proof fn lemma_same_from_trans(
    m1: Map<Seq<char>, i64>,
    m2: Map<Seq<char>, i64>,
    m3: Map<Seq<char>, i64>,
    a: nat,
    b: nat,
    lo: nat,
)
    requires
        same_from(m1, m2, a),
        same_from(m2, m3, b),
        lo <= a,
        lo <= b,
    ensures
        same_from(m1, m3, lo),
{
    assert forall|k: Seq<char>| #[trigger] get(m3, k) != get(m1, k) implies exists|n: nat| lo <= n && k
        == temp_name(n) by {
        if get(m2, k) != get(m1, k) {
            let n = choose|n: nat| a <= n && k == temp_name(n);
            assert(lo <= n && k == temp_name(n));
        } else {
            assert(get(m3, k) != get(m2, k));
            let n = choose|n: nat| b <= n && k == temp_name(n);
            assert(lo <= n && k == temp_name(n));
        }
    }
}

proof fn lemma_agrees_same_from(m1: Map<Seq<char>, i64>, m2: Map<Seq<char>, i64>, lo: nat, env: Map<Seq<char>, i64>)
    requires
        agrees(m1, env),
        same_from(m1, m2, lo),
    ensures
        agrees(m2, env),
{
    assert forall|k: Seq<char>| !is_temp_name(k) implies #[trigger] get(m2, k) == get(env, k) by {
        if get(m2, k) != get(m1, k) {
            let n = choose|n: nat| lo <= n && k == temp_name(n);
            assert(is_temp_name(k));
        }
        assert(get(m1, k) == get(env, k));
    }
}

proof fn lemma_read_stable(m1: Map<Seq<char>, i64>, m2: Map<Seq<char>, i64>, a: AddrV, lo: nat)
    requires
        same_from(m1, m2, lo),
        addr_stable(a, lo),
    ensures
        read(m2, a) == read(m1, a),
{
    match a {
        AddrV::Var(x) => {
            if get(m2, x) != get(m1, x) {
                let n = choose|n: nat| lo <= n && x == temp_name(n);
                assert(is_temp_name(x));
            }
        },
        AddrV::Temp(n) => {
            let k = temp_name(n);
            if get(m2, k) != get(m1, k) {
                let n2 = choose|n2: nat| lo <= n2 && k == temp_name(n2);
                lemma_temp_name_injective(n, n2);
            }
        },
        _ => {},
    }
}

/// Running the code generated for a simple expression, from its first
/// instruction, comes to the end of that code with the expression's value
/// at the address that generation returned; on the way it writes only
/// temporaries it was handed.
proof fn lemma_expr_runs(
    p: Seq<InstrV>,
    g: GenV,
    e: ExprV,
    mem: Map<Seq<char>, i64>,
    env: Map<Seq<char>, i64>,
) -> (r: (nat, Map<Seq<char>, i64>))
    requires
        simple_expr(e),
        prefix_of(gen_expr(g, e).0.instrs, p),
        labels_unique(p),
        agrees(mem, env),
    ensures
        exec_steps(p, MachineV { memory: mem, pc: g.instrs.len() }, r.0) == Some(
            MachineV { memory: r.1, pc: gen_expr(g, e).0.instrs.len() },
        ),
        same_from(mem, r.1, g.temps),
        agrees(r.1, env),
        read(r.1, gen_expr(g, e).1) == expr_value(env, e),
        addr_stable(gen_expr(g, e).1, gen_expr(g, e).0.temps),
    decreases e, 1nat,
{
    match e {
        ExprV::If { .. } => lemma_if_expr_runs(p, g, e, mem, env),
        ExprV::BinOp { op, left, right } => {
            let (g1, l) = gen_expr(g, *left);
            let (g2, rr) = gen_expr(g1, *right);
            let g3 = GenV { temps: g2.temps + 1, ..g2 };
            let dst = AddrV::Temp(g2.temps);
            let ins = InstrV::BinOp { dst, op: tac_op(op), left: l, right: rr };
            lemma_gen_expr_shape(g, *left);
            lemma_gen_expr_shape(g1, *right);
            lemma_prefix_emit(g3, ins, p);
            lemma_prefix_extends(g1, g2, p);
            let (k1, m1) = lemma_expr_runs(p, g, *left, mem, env);
            let (k2, m2) = lemma_expr_runs(p, g1, *right, m1, env);
            lemma_read_stable(m1, m2, l, g1.temps);
            let v = eval_op(tac_op(op), read(m2, l), read(m2, rr));
            let m3 = m2.insert(temp_name(g2.temps), v);
            let s0 = MachineV { memory: mem, pc: g.instrs.len() };
            let s1 = MachineV { memory: m1, pc: g1.instrs.len() };
            let s2 = MachineV { memory: m2, pc: g2.instrs.len() };
            let s3 = MachineV { memory: m3, pc: g2.instrs.len() + 1 };
            lemma_step_next(p, s2, m3, g2.instrs.len() + 1);
            lemma_steps_compose(p, s0, k1, s1, k2);
            lemma_steps_compose(p, s0, k1 + k2, s2, 1);
            assert forall|k: Seq<char>| #[trigger] get(m3, k) != get(m2, k) implies exists|n: nat| g2.temps <= n
                && k == temp_name(n) by {
                assert(k == temp_name(g2.temps));
            }
            lemma_same_from_trans(mem, m1, m2, g.temps, g1.temps, g.temps);
            lemma_same_from_trans(mem, m2, m3, g.temps, g2.temps, g.temps);
            lemma_agrees_same_from(mem, m3, g.temps, env);
            assert(read(m2, l) == expr_value(env, *left));
            assert(read(m2, rr) == expr_value(env, *right));
            assert(read(m3, dst) == v);
            assert(gen_expr(g, e).1 == dst);
            assert(expr_value(env, e) == eval_op(tac_op(op), expr_value(env, *left), expr_value(env, *right)));
            assert(v == expr_value(env, e));

            (k1 + k2 + 1, m3)
        },
        _ => {
            if let ExprV::Var(x) = e {
                assert(get(mem, x) == get(env, x));
            }
            lemma_same_from_refl(mem, g.temps);
            (0, mem)
        },
    }
}

/// How executing statements ends: normally, with the variables as they
/// are then, or by returning a value.
pub enum Outcome {
    Normal(Map<Seq<char>, i64>),
    Returned(i64),
}

/// The value a program gives back for an outcome: what it returned, or
/// nothing when it ran to its end.
pub open spec fn outcome_value(o: Outcome) -> Option<i64> {
    match o {
        Outcome::Normal(_) => None,
        Outcome::Returned(v) => Some(v),
    }
}

/// Executes a statement directly, with at most `fuel` rounds of any loop;
/// `None` when that is not enough.
pub open spec fn exec_stmt(env: Map<Seq<char>, i64>, s: StmtV, fuel: nat) -> Option<Outcome>
    decreases fuel, s,
{
    match s {
        StmtV::Let { name, init, .. } => Some(Outcome::Normal(env.insert(name, expr_value(env, init)))),
        StmtV::Assign { name, value } => Some(Outcome::Normal(env.insert(name, expr_value(env, value)))),
        StmtV::Return(e) => Some(Outcome::Returned(expr_value(env, e))),
        StmtV::ExprStmt(_) => Some(Outcome::Normal(env)),
        StmtV::Block(b) => exec_stmts(env, b, fuel),
        StmtV::While { cond, body } => if expr_value(env, cond) == 0 {
            Some(Outcome::Normal(env))
        } else if fuel == 0 {
            None
        } else {
            match exec_stmts(env, body, (fuel - 1) as nat) {
                Some(Outcome::Normal(env2)) => exec_stmt(env2, s, (fuel - 1) as nat),
                other => other,
            }
        },
        StmtV::If { cond, then_body, else_body } => if expr_value(env, cond) != 0 {
            exec_stmts(env, then_body, fuel)
        } else {
            match else_body {
                Some(b) => exec_stmts(env, b, fuel),
                None => Some(Outcome::Normal(env)),
            }
        },
    }
}

/// Executes statements one after the other, stopping at a `return`.
pub open spec fn exec_stmts(env: Map<Seq<char>, i64>, ss: Seq<StmtV>, fuel: nat) -> Option<Outcome>
    decreases fuel, ss,
{
    if ss.len() == 0 {
        Some(Outcome::Normal(env))
    } else {
        match exec_stmts(env, ss.drop_last(), fuel) {
            Some(Outcome::Normal(env2)) => exec_stmt(env2, ss.last(), fuel),
            other => other,
        }
    }
}

/// A statement whose expressions are simple and whose assignments go to
/// variables not named like temporaries.
pub open spec fn simple_stmt(s: StmtV) -> bool
    decreases s,
{
    match s {
        StmtV::Let { name, init, .. } => !is_temp_name(name) && simple_expr(init),
        StmtV::Assign { name, value } => !is_temp_name(name) && simple_expr(value),
        StmtV::Return(e) => simple_expr(e),
        StmtV::ExprStmt(e) => simple_expr(e),
        StmtV::Block(b) => simple_stmts(b),
        StmtV::While { cond, body } => simple_expr(cond) && simple_stmts(body),
        StmtV::If { cond, then_body, else_body } => simple_expr(cond) && simple_stmts(then_body) && match else_body {
            Some(b) => simple_stmts(b),
            None => true,
        },
    }
}

/// Statements that are all simple.
pub open spec fn simple_stmts(ss: Seq<StmtV>) -> bool
    decreases ss,
{
    ss.len() == 0 || (simple_stmts(ss.drop_last()) && simple_stmt(ss.last()))
}

/// No label is defined twice in `p`.
pub open spec fn labels_unique(p: Seq<InstrV>) -> bool {
    forall|i: int, j: int|
        0 <= i < j < p.len() && (#[trigger] label_def(p[i])) is Some ==> #[trigger] label_def(p[j])
            != label_def(p[i])
}

/// Running `p` from `m` for `k` steps does what the outcome says: it comes
/// to position `end` with a memory that agrees with the variables of a
/// normal outcome, or it returns the value of a returning one.
pub open spec fn simulates(
    p: Seq<InstrV>,
    m: MachineV,
    end: nat,
    out: Outcome,
    k: nat,
    mem: Map<Seq<char>, i64>,
) -> bool {
    match out {
        Outcome::Normal(env) => exec_steps(p, m, k) == Some(MachineV { memory: mem, pc: end }) && agrees(mem, env),
        Outcome::Returned(v) => run_from(p, m, k).finished && run_from(p, m, k).value == Some(v),
    }
}

proof fn lemma_simulates_after(
    p: Seq<InstrV>,
    m0: MachineV,
    k0: nat,
    m1: MachineV,
    end: nat,
    out: Outcome,
    k: nat,
    mem: Map<Seq<char>, i64>,
)
    requires
        exec_steps(p, m0, k0) == Some(m1),
        simulates(p, m1, end, out, k, mem),
    ensures
        simulates(p, m0, end, out, k0 + k, mem),
{
    match out {
        Outcome::Normal(_) => lemma_steps_compose(p, m0, k0, m1, k),
        Outcome::Returned(_) => lemma_steps_run(p, m0, k0, m1, k),
    }
}

proof fn lemma_label_target(p: Seq<InstrV>, i: int, l: Seq<char>)
    requires
        labels_unique(p),
        0 <= i < p.len(),
        p[i] == InstrV::Label(l),
    ensures
        label_targets(p).contains_key(l),
        label_targets(p)[l] == i,
{
    assert forall|j: int| 0 <= j < p.len() && j != i implies label_def(#[trigger] p[j]) != Some(l) by {
        if j < i {
            if label_def(p[j]) is Some {
                assert(label_def(p[i]) != label_def(p[j]));
            }
        } else {
            assert(label_def(p[i]) is Some);
            assert(label_def(p[j]) != label_def(p[i]));
        }
    }
    lemma_label_targets_unique(p, l, i);
}

/// A `let`, an assignment, a `return` or an expression statement runs as
/// it executes.
proof fn lemma_plain_runs(
    p: Seq<InstrV>,
    g: GenV,
    s: StmtV,
    mem: Map<Seq<char>, i64>,
    env: Map<Seq<char>, i64>,
    fuel: nat,
) -> (r: (nat, Map<Seq<char>, i64>))
    requires
        s is Let || s is Assign || s is Return || s is ExprStmt,
        simple_stmt(s),
        prefix_of(gen_stmt(g, s).instrs, p),
        labels_unique(p),
        agrees(mem, env),
    ensures
        exec_stmt(env, s, fuel) is Some,
        simulates(
            p,
            MachineV { memory: mem, pc: g.instrs.len() },
            gen_stmt(g, s).instrs.len(),
            exec_stmt(env, s, fuel)->Some_0,
            r.0,
            r.1,
        ),
{
    let sa = MachineV { memory: mem, pc: g.instrs.len() };
    match s {
        StmtV::ExprStmt(e) => {
            let (k, m1) = lemma_expr_runs(p, g, e, mem, env);
            (k, m1)
        },
        StmtV::Return(e) => {
            let (g1, src) = gen_expr(g, e);
            lemma_prefix_emit(g1, InstrV::Return(src), p);
            let (k, m1) = lemma_expr_runs(p, g, e, mem, env);
            let s1 = MachineV { memory: m1, pc: g1.instrs.len() };
            lemma_steps_run(p, sa, k, s1, 1);
            (k + 1, m1)
        },
        StmtV::Let { name, init, .. } => {
            let (g1, src) = gen_expr(g, init);
            lemma_prefix_emit(g1, InstrV::Copy { dst: AddrV::Var(name), src }, p);
            let (k, m1) = lemma_expr_runs(p, g, init, mem, env);
            let v = expr_value(env, init);
            let m2 = m1.insert(name, v);
            let s1 = MachineV { memory: m1, pc: g1.instrs.len() };
            lemma_step_next(p, s1, m2, g1.instrs.len() + 1);
            lemma_steps_compose(p, sa, k, s1, 1);
            let env2 = env.insert(name, v);
            assert forall|x: Seq<char>| !is_temp_name(x) implies #[trigger] get(m2, x) == get(env2, x) by {
                if x != name {
                    assert(get(m1, x) == get(env, x));
                }
            }
            (k + 1, m2)
        },
        StmtV::Assign { name, value } => {
            let (g1, src) = gen_expr(g, value);
            lemma_prefix_emit(g1, InstrV::Copy { dst: AddrV::Var(name), src }, p);
            let (k, m1) = lemma_expr_runs(p, g, value, mem, env);
            let v = expr_value(env, value);
            let m2 = m1.insert(name, v);
            let s1 = MachineV { memory: m1, pc: g1.instrs.len() };
            lemma_step_next(p, s1, m2, g1.instrs.len() + 1);
            lemma_steps_compose(p, sa, k, s1, 1);
            let env2 = env.insert(name, v);
            assert forall|x: Seq<char>| !is_temp_name(x) implies #[trigger] get(m2, x) == get(env2, x) by {
                if x != name {
                    assert(get(m1, x) == get(env, x));
                }
            }
            (k + 1, m2)
        },
        _ => (0, mem),
    }
}

/// Statements run one after the other as they execute.
proof fn lemma_stmts_runs(
    p: Seq<InstrV>,
    g: GenV,
    ss: Seq<StmtV>,
    mem: Map<Seq<char>, i64>,
    env: Map<Seq<char>, i64>,
    fuel: nat,
) -> (r: (nat, Map<Seq<char>, i64>))
    requires
        simple_stmts(ss),
        prefix_of(gen_stmts(g, ss).instrs, p),
        labels_unique(p),
        agrees(mem, env),
        exec_stmts(env, ss, fuel) is Some,
    ensures
        simulates(
            p,
            MachineV { memory: mem, pc: g.instrs.len() },
            gen_stmts(g, ss).instrs.len(),
            exec_stmts(env, ss, fuel)->Some_0,
            r.0,
            r.1,
        ),
    decreases fuel, ss, 0nat,
{
    let sa = MachineV { memory: mem, pc: g.instrs.len() };
    if ss.len() == 0 {
        assert(exec_steps(p, sa, 0) == Some(sa));
        (0, mem)
    } else {
        let init = ss.drop_last();
        let g1 = gen_stmts(g, init);
        lemma_gen_stmt_shape(g1, ss.last());
        lemma_prefix_extends(g1, gen_stmt(g1, ss.last()), p);
        let (k1, m1) = lemma_stmts_runs(p, g, init, mem, env, fuel);
        match exec_stmts(env, init, fuel)->Some_0 {
            Outcome::Normal(env1) => {
                let s1 = MachineV { memory: m1, pc: g1.instrs.len() };
                let (k2, m2) = lemma_stmt_runs(p, g1, ss.last(), m1, env1, fuel);
                lemma_simulates_after(
                    p,
                    sa,
                    k1,
                    s1,
                    gen_stmts(g, ss).instrs.len(),
                    exec_stmts(env, ss, fuel)->Some_0,
                    k2,
                    m2,
                );
                (k1 + k2, m2)
            },
            Outcome::Returned(_) => (k1, m1),
        }
    }
}

/// A statement runs as it executes.
proof fn lemma_stmt_runs(
    p: Seq<InstrV>,
    g: GenV,
    s: StmtV,
    mem: Map<Seq<char>, i64>,
    env: Map<Seq<char>, i64>,
    fuel: nat,
) -> (r: (nat, Map<Seq<char>, i64>))
    requires
        simple_stmt(s),
        prefix_of(gen_stmt(g, s).instrs, p),
        labels_unique(p),
        agrees(mem, env),
        exec_stmt(env, s, fuel) is Some,
    ensures
        simulates(
            p,
            MachineV { memory: mem, pc: g.instrs.len() },
            gen_stmt(g, s).instrs.len(),
            exec_stmt(env, s, fuel)->Some_0,
            r.0,
            r.1,
        ),
    decreases fuel, s, 1nat,
{
    match s {
        StmtV::Block(b) => lemma_stmts_runs(p, g, b, mem, env, fuel),
        StmtV::While { .. } => lemma_while_runs(p, g, s, mem, env, fuel),
        StmtV::If { .. } => lemma_if_runs(p, g, s, mem, env, fuel),
        _ => lemma_plain_runs(p, g, s, mem, env, fuel),
    }
}

/// A `while` loop runs as it executes: each round evaluates the condition,
/// runs the body and jumps back to the start.
#[verifier::rlimit(40)]
proof fn lemma_while_runs(
    p: Seq<InstrV>,
    g: GenV,
    s: StmtV,
    mem: Map<Seq<char>, i64>,
    env: Map<Seq<char>, i64>,
    fuel: nat,
) -> (r: (nat, Map<Seq<char>, i64>))
    requires
        s is While,
        simple_stmt(s),
        prefix_of(gen_stmt(g, s).instrs, p),
        labels_unique(p),
        agrees(mem, env),
        exec_stmt(env, s, fuel) is Some,
    ensures
        simulates(
            p,
            MachineV { memory: mem, pc: g.instrs.len() },
            gen_stmt(g, s).instrs.len(),
            exec_stmt(env, s, fuel)->Some_0,
            r.0,
            r.1,
        ),
    decreases fuel, s, 0nat,
{
    match s {
        StmtV::While { cond, body } => {
            let l_start = label_name(g.labels);
            let l_body = label_name(g.labels + 1);
            let l_end = label_name(g.labels + 2);
            let ga = GenV { labels: g.labels + 3, ..g };
            let g0 = emit(ga, InstrV::Label(l_start));
            let (g1, c) = gen_expr(g0, cond);
            let gi1 = emit(g1, InstrV::IfGoto { cond: c, label: l_body });
            let gi2 = emit(gi1, InstrV::Goto(l_end));
            let g2 = emit(gi2, InstrV::Label(l_body));
            let g3 = gen_stmts(g2, body);
            let gj = emit(g3, InstrV::Goto(l_start));
            let g4 = emit(gj, InstrV::Label(l_end));
            assert(gen_stmt(g, s) == g4);
            lemma_prefix_emit(gj, InstrV::Label(l_end), p);
            lemma_prefix_emit(g3, InstrV::Goto(l_start), p);
            lemma_gen_stmts_shape(g2, body);
            lemma_prefix_extends(g2, g3, p);
            lemma_prefix_emit(gi2, InstrV::Label(l_body), p);
            lemma_prefix_emit(gi1, InstrV::Goto(l_end), p);
            lemma_prefix_emit(g1, InstrV::IfGoto { cond: c, label: l_body }, p);
            lemma_gen_expr_shape(g0, cond);
            lemma_prefix_extends(g0, g1, p);
            lemma_prefix_emit(ga, InstrV::Label(l_start), p);
            let a = g.instrs.len();
            let c1 = g1.instrs.len();
            let d = g3.instrs.len();
            lemma_label_target(p, a as int, l_start);
            lemma_label_target(p, (c1 + 2) as int, l_body);
            lemma_label_target(p, (d + 1) as int, l_end);
            let sa = MachineV { memory: mem, pc: a };
            let sb = MachineV { memory: mem, pc: a + 1 };
            lemma_step_next(p, sa, mem, a + 1);
            let (k1, m1) = lemma_expr_runs(p, g0, cond, mem, env);
            let sc = MachineV { memory: m1, pc: c1 };
            lemma_steps_compose(p, sa, 1, sb, k1);
            if expr_value(env, cond) == 0 {
                let s1 = MachineV { memory: m1, pc: c1 + 1 };
                let s2 = MachineV { memory: m1, pc: d + 1 };
                let s3 = MachineV { memory: m1, pc: d + 2 };
                lemma_step_next(p, sc, m1, c1 + 1);
                lemma_step_next(p, s1, m1, d + 1);
                lemma_step_next(p, s2, m1, d + 2);
                lemma_steps_compose(p, sa, 1 + k1, sc, 1);
                lemma_steps_compose(p, sa, 1 + k1 + 1, s1, 1);
                lemma_steps_compose(p, sa, 1 + k1 + 2, s2, 1);
                (1 + k1 + 3, m1)
            } else {
                let s1 = MachineV { memory: m1, pc: c1 + 2 };
                let s2 = MachineV { memory: m1, pc: c1 + 3 };
                lemma_step_next(p, sc, m1, c1 + 2);
                lemma_step_next(p, s1, m1, c1 + 3);
                lemma_steps_compose(p, sa, 1 + k1, sc, 1);
                lemma_steps_compose(p, sa, 1 + k1 + 1, s1, 1);
                let k0 = 1 + k1 + 2;
                let f1 = (fuel - 1) as nat;
                let (kb, mb) = lemma_stmts_runs(p, g2, body, m1, env, f1);
                match exec_stmts(env, body, f1)->Some_0 {
                    Outcome::Returned(_) => {
                        lemma_simulates_after(p, sa, k0, s2, g4.instrs.len(), exec_stmt(env, s, fuel)->Some_0, kb, mb);
                        (k0 + kb, mb)
                    },
                    Outcome::Normal(env2) => {
                        let sd = MachineV { memory: mb, pc: d };
                        let sa2 = MachineV { memory: mb, pc: a };
                        lemma_step_next(p, sd, mb, a);
                        lemma_steps_compose(p, sa, k0, s2, kb);
                        lemma_steps_compose(p, sa, k0 + kb, sd, 1);
                        let (kr, mr) = lemma_while_runs(p, g, s, mb, env2, f1);
                        lemma_simulates_after(
                            p,
                            sa,
                            k0 + kb + 1,
                            sa2,
                            g4.instrs.len(),
                            exec_stmt(env, s, fuel)->Some_0,
                            kr,
                            mr,
                        );
                        (k0 + kb + 1 + kr, mr)
                    },
                }
            }
        },
        _ => (0, mem),
    }
}

/// An `if` statement runs as it executes: the condition, then one branch.
#[verifier::rlimit(40)]
proof fn lemma_if_runs(
    p: Seq<InstrV>,
    g: GenV,
    s: StmtV,
    mem: Map<Seq<char>, i64>,
    env: Map<Seq<char>, i64>,
    fuel: nat,
) -> (r: (nat, Map<Seq<char>, i64>))
    requires
        s is If,
        simple_stmt(s),
        prefix_of(gen_stmt(g, s).instrs, p),
        labels_unique(p),
        agrees(mem, env),
        exec_stmt(env, s, fuel) is Some,
    ensures
        simulates(
            p,
            MachineV { memory: mem, pc: g.instrs.len() },
            gen_stmt(g, s).instrs.len(),
            exec_stmt(env, s, fuel)->Some_0,
            r.0,
            r.1,
        ),
    decreases fuel, s, 0nat,
{
    match s {
        StmtV::If { cond, then_body, else_body } => {
            let l_then = label_name(g.labels);
            let l_else = label_name(g.labels + 1);
            let l_end = label_name(g.labels + 2);
            let ga = GenV { labels: g.labels + 3, ..g };
            let (g1, c) = gen_expr(ga, cond);
            let gi1 = emit(g1, InstrV::IfGoto { cond: c, label: l_then });
            let gi2 = emit(gi1, InstrV::Goto(l_else));
            let g2 = emit(gi2, InstrV::Label(l_then));
            let g3 = gen_stmts(g2, then_body);
            let gk = emit(g3, InstrV::Goto(l_end));
            let g4 = emit(gk, InstrV::Label(l_else));
            let g5 = match else_body {
                Some(b) => gen_stmts(g4, b),
                None => g4,
            };
            let gm = emit(g5, InstrV::Goto(l_end));
            let g6 = emit(gm, InstrV::Label(l_end));
            assert(gen_stmt(g, s) == g6);
            lemma_prefix_emit(gm, InstrV::Label(l_end), p);
            lemma_prefix_emit(g5, InstrV::Goto(l_end), p);
            match else_body {
                Some(b) => {
                    lemma_gen_stmts_shape(g4, b);
                    lemma_prefix_extends(g4, g5, p);
                },
                None => {},
            }
            lemma_prefix_emit(gk, InstrV::Label(l_else), p);
            lemma_prefix_emit(g3, InstrV::Goto(l_end), p);
            lemma_gen_stmts_shape(g2, then_body);
            lemma_prefix_extends(g2, g3, p);
            lemma_prefix_emit(gi2, InstrV::Label(l_then), p);
            lemma_prefix_emit(gi1, InstrV::Goto(l_else), p);
            lemma_prefix_emit(g1, InstrV::IfGoto { cond: c, label: l_then }, p);
            lemma_gen_expr_shape(ga, cond);
            let c1 = g1.instrs.len();
            let t = g3.instrs.len();
            let e5 = g5.instrs.len();
            let end = g6.instrs.len();
            lemma_label_target(p, (c1 + 2) as int, l_then);
            lemma_label_target(p, (t + 1) as int, l_else);
            lemma_label_target(p, (e5 + 1) as int, l_end);
            let sa = MachineV { memory: mem, pc: g.instrs.len() };
            let (k1, m1) = lemma_expr_runs(p, ga, cond, mem, env);
            let sc = MachineV { memory: m1, pc: c1 };
            if expr_value(env, cond) != 0 {
                let s1 = MachineV { memory: m1, pc: c1 + 2 };
                let s2 = MachineV { memory: m1, pc: c1 + 3 };
                lemma_step_next(p, sc, m1, c1 + 2);
                lemma_step_next(p, s1, m1, c1 + 3);
                lemma_steps_compose(p, sa, k1, sc, 1);
                lemma_steps_compose(p, sa, k1 + 1, s1, 1);
                let k0 = k1 + 2;
                let (kb, mb) = lemma_stmts_runs(p, g2, then_body, m1, env, fuel);
                match exec_stmts(env, then_body, fuel)->Some_0 {
                    Outcome::Returned(_) => {
                        lemma_simulates_after(p, sa, k0, s2, end, exec_stmt(env, s, fuel)->Some_0, kb, mb);
                        (k0 + kb, mb)
                    },
                    Outcome::Normal(_) => {
                        let st = MachineV { memory: mb, pc: t };
                        let se = MachineV { memory: mb, pc: e5 + 1 };
                        let sf = MachineV { memory: mb, pc: e5 + 2 };
                        lemma_step_next(p, st, mb, e5 + 1);
                        lemma_step_next(p, se, mb, e5 + 2);
                        lemma_steps_compose(p, sa, k0, s2, kb);
                        lemma_steps_compose(p, sa, k0 + kb, st, 1);
                        lemma_steps_compose(p, sa, k0 + kb + 1, se, 1);
                        (k0 + kb + 2, mb)
                    },
                }
            } else {
                let s1 = MachineV { memory: m1, pc: c1 + 1 };
                let s2 = MachineV { memory: m1, pc: t + 1 };
                let s3 = MachineV { memory: m1, pc: t + 2 };
                lemma_step_next(p, sc, m1, c1 + 1);
                lemma_step_next(p, s1, m1, t + 1);
                lemma_step_next(p, s2, m1, t + 2);
                lemma_steps_compose(p, sa, k1, sc, 1);
                lemma_steps_compose(p, sa, k1 + 1, s1, 1);
                lemma_steps_compose(p, sa, k1 + 2, s2, 1);
                let k0 = k1 + 3;
                match else_body {
                    Some(b) => {
                        let (kb, mb) = lemma_stmts_runs(p, g4, b, m1, env, fuel);
                        match exec_stmts(env, b, fuel)->Some_0 {
                            Outcome::Returned(_) => {
                                lemma_simulates_after(p, sa, k0, s3, end, exec_stmt(env, s, fuel)->Some_0, kb, mb);
                                (k0 + kb, mb)
                            },
                            Outcome::Normal(_) => {
                                let st = MachineV { memory: mb, pc: e5 };
                                let se = MachineV { memory: mb, pc: e5 + 1 };
                                lemma_step_next(p, st, mb, e5 + 1);
                                lemma_step_next(p, se, mb, e5 + 2);
                                lemma_steps_compose(p, sa, k0, s3, kb);
                                lemma_steps_compose(p, sa, k0 + kb, st, 1);
                                lemma_steps_compose(p, sa, k0 + kb + 1, se, 1);
                                (k0 + kb + 2, mb)
                            },
                        }
                    },
                    None => {
                        let se = MachineV { memory: m1, pc: e5 + 1 };
                        lemma_step_next(p, s3, m1, e5 + 1);
                        lemma_step_next(p, se, m1, e5 + 2);
                        lemma_steps_compose(p, sa, k0, s3, 1);
                        lemma_steps_compose(p, sa, k0 + 1, se, 1);
                        (k0 + 2, m1)
                    },
                }
            }
        },
        _ => (0, mem),
    }
}

/// Running `code` from its first instruction with an empty memory has
/// finished within `k` steps, giving back `v`.
pub open spec fn runs_to(code: Seq<InstrV>, k: nat, v: Option<i64>) -> bool {
    let r = run_from(code, MachineV { memory: Map::empty(), pc: 0 }, k);
    r.finished && r.value == v
}

/// Running the code generated for a simple program, from the start with an
/// empty memory, gives what executing the program directly gives: the
/// value of the first `return` it reaches, or no value when it runs to its
/// end.
pub proof fn lemma_generated_code_evaluates(ss: Seq<StmtV>, fuel: nat)
    requires
        simple_stmts(ss),
        exec_stmts(Map::empty(), ss, fuel) is Some,
    ensures
        exists|k: nat|
            #[trigger] runs_to(
                gen_stmts(GenV { instrs: Seq::empty(), temps: 0, labels: 0 }, ss).instrs,
                k,
                outcome_value(exec_stmts(Map::empty(), ss, fuel)->Some_0),
            ),
{
    let g0 = GenV { instrs: Seq::empty(), temps: 0, labels: 0 };
    let p = gen_stmts(g0, ss).instrs;
    let empty = Map::<Seq<char>, i64>::empty();
    lemma_program_labels(ss);
    assert(labels_resolve(p));
    assert(p.take(p.len() as int) =~= p);
    let init = MachineV { memory: empty, pc: 0 };
    let (k, m) = lemma_stmts_runs(p, g0, ss, empty, empty, fuel);
    let out = exec_stmts(empty, ss, fuel)->Some_0;
    match out {
        Outcome::Normal(_) => {
            lemma_steps_run(p, init, k, MachineV { memory: m, pc: p.len() }, 0);
        },
        Outcome::Returned(_) => {},
    }
    assert(runs_to(p, k, outcome_value(out)));
}

/// An `if` expression with an `else` runs as it evaluates: the condition,
/// then one branch, whose value is copied to the expression's temporary.
#[verifier::rlimit(40)]
proof fn lemma_if_expr_runs(
    p: Seq<InstrV>,
    g: GenV,
    e: ExprV,
    mem: Map<Seq<char>, i64>,
    env: Map<Seq<char>, i64>,
) -> (r: (nat, Map<Seq<char>, i64>))
    requires
        e is If,
        simple_expr(e),
        prefix_of(gen_expr(g, e).0.instrs, p),
        labels_unique(p),
        agrees(mem, env),
    ensures
        exec_steps(p, MachineV { memory: mem, pc: g.instrs.len() }, r.0) == Some(
            MachineV { memory: r.1, pc: gen_expr(g, e).0.instrs.len() },
        ),
        same_from(mem, r.1, g.temps),
        agrees(r.1, env),
        read(r.1, gen_expr(g, e).1) == expr_value(env, e),
        addr_stable(gen_expr(g, e).1, gen_expr(g, e).0.temps),
    decreases e, 0nat,
{
    match e {
        ExprV::If { cond, then_, else_: Some(x) } => {
            let l_then = label_name(g.labels);
            let l_else = label_name(g.labels + 1);
            let l_end = label_name(g.labels + 2);
            let result = AddrV::Temp(g.temps);
            let g0 = GenV { instrs: g.instrs, temps: g.temps + 1, labels: g.labels + 3 };
            let (g1, c) = gen_expr(g0, *cond);
            let gi1 = emit(g1, InstrV::IfGoto { cond: c, label: l_then });
            let gi2 = emit(gi1, InstrV::Goto(l_else));
            let g2 = emit(gi2, InstrV::Label(l_then));
            let (g3, tv) = gen_expr(g2, *then_);
            let gc1 = emit(g3, InstrV::Copy { dst: result, src: tv });
            let gc2 = emit(gc1, InstrV::Goto(l_end));
            let g4 = emit(gc2, InstrV::Label(l_else));
            let (g5a, ev) = gen_expr(g4, *x);
            let g5 = emit(g5a, InstrV::Copy { dst: result, src: ev });
            let gm = emit(g5, InstrV::Goto(l_end));
            let g6 = emit(gm, InstrV::Label(l_end));
            assert(gen_expr(g, e) == (g6, result));
            lemma_prefix_emit(gm, InstrV::Label(l_end), p);
            lemma_prefix_emit(g5, InstrV::Goto(l_end), p);
            lemma_prefix_emit(g5a, InstrV::Copy { dst: result, src: ev }, p);
            lemma_gen_expr_shape(g4, *x);
            lemma_prefix_extends(g4, g5a, p);
            lemma_prefix_emit(gc2, InstrV::Label(l_else), p);
            lemma_prefix_emit(gc1, InstrV::Goto(l_end), p);
            lemma_prefix_emit(g3, InstrV::Copy { dst: result, src: tv }, p);
            lemma_gen_expr_shape(g2, *then_);
            lemma_prefix_extends(g2, g3, p);
            lemma_prefix_emit(gi2, InstrV::Label(l_then), p);
            lemma_prefix_emit(gi1, InstrV::Goto(l_else), p);
            lemma_prefix_emit(g1, InstrV::IfGoto { cond: c, label: l_then }, p);
            lemma_gen_expr_shape(g0, *cond);
            let c1 = g1.instrs.len();
            let t = g3.instrs.len();
            let e5 = g5.instrs.len();
            lemma_label_target(p, (c1 + 2) as int, l_then);
            lemma_label_target(p, (t + 2) as int, l_else);
            lemma_label_target(p, (e5 + 1) as int, l_end);
            let sa = MachineV { memory: mem, pc: g.instrs.len() };
            let (k1, m1) = lemma_expr_runs(p, g0, *cond, mem, env);
            let sc = MachineV { memory: m1, pc: c1 };
            lemma_same_from_trans(mem, m1, m1, g.temps + 1, g.temps + 1, g.temps);
            if expr_value(env, *cond) != 0 {
                let s1 = MachineV { memory: m1, pc: c1 + 2 };
                let s2 = MachineV { memory: m1, pc: c1 + 3 };
                lemma_step_next(p, sc, m1, c1 + 2);
                lemma_step_next(p, s1, m1, c1 + 3);
                lemma_steps_compose(p, sa, k1, sc, 1);
                lemma_steps_compose(p, sa, k1 + 1, s1, 1);
                let (kb, m2) = lemma_expr_runs(p, g2, *then_, m1, env);
                let v = read(m2, tv);
                let m3 = m2.insert(temp_name(g.temps), v);
                let st = MachineV { memory: m2, pc: t };
                let s4 = MachineV { memory: m3, pc: t + 1 };
                let s5 = MachineV { memory: m3, pc: e5 + 1 };
                lemma_step_next(p, st, m3, t + 1);
                lemma_step_next(p, s4, m3, e5 + 1);
                lemma_step_next(p, s5, m3, e5 + 2);
                lemma_steps_compose(p, sa, k1 + 2, s2, kb);
                lemma_steps_compose(p, sa, k1 + 2 + kb, st, 1);
                lemma_steps_compose(p, sa, k1 + 2 + kb + 1, s4, 1);
                lemma_steps_compose(p, sa, k1 + 2 + kb + 2, s5, 1);
                assert forall|k: Seq<char>| #[trigger] get(m3, k) != get(m2, k) implies exists|n: nat| g.temps <= n
                    && k == temp_name(n) by {
                    assert(k == temp_name(g.temps));
                }
                lemma_same_from_trans(mem, m1, m2, g.temps + 1, g2.temps, g.temps);
                lemma_same_from_trans(mem, m2, m3, g.temps, g.temps, g.temps);
                lemma_agrees_same_from(mem, m3, g.temps, env);
                assert(read(m3, result) == v);
                (k1 + 2 + kb + 3, m3)
            } else {
                let s1 = MachineV { memory: m1, pc: c1 + 1 };
                let s2 = MachineV { memory: m1, pc: t + 2 };
                let s3 = MachineV { memory: m1, pc: t + 3 };
                lemma_step_next(p, sc, m1, c1 + 1);
                lemma_step_next(p, s1, m1, t + 2);
                lemma_step_next(p, s2, m1, t + 3);
                lemma_steps_compose(p, sa, k1, sc, 1);
                lemma_steps_compose(p, sa, k1 + 1, s1, 1);
                lemma_steps_compose(p, sa, k1 + 2, s2, 1);
                let (kb, m2) = lemma_expr_runs(p, g4, *x, m1, env);
                let v = read(m2, ev);
                let m3 = m2.insert(temp_name(g.temps), v);
                let sx = MachineV { memory: m2, pc: g5a.instrs.len() };
                let s4 = MachineV { memory: m3, pc: e5 };
                let s5 = MachineV { memory: m3, pc: e5 + 1 };
                lemma_step_next(p, sx, m3, e5);
                lemma_step_next(p, s4, m3, e5 + 1);
                lemma_step_next(p, s5, m3, e5 + 2);
                lemma_steps_compose(p, sa, k1 + 3, s3, kb);
                lemma_steps_compose(p, sa, k1 + 3 + kb, sx, 1);
                lemma_steps_compose(p, sa, k1 + 3 + kb + 1, s4, 1);
                lemma_steps_compose(p, sa, k1 + 3 + kb + 2, s5, 1);
                assert forall|k: Seq<char>| #[trigger] get(m3, k) != get(m2, k) implies exists|n: nat| g.temps <= n
                    && k == temp_name(n) by {
                    assert(k == temp_name(g.temps));
                }
                lemma_same_from_trans(mem, m1, m2, g.temps + 1, g4.temps, g.temps);
                lemma_same_from_trans(mem, m2, m3, g.temps, g.temps, g.temps);
                lemma_agrees_same_from(mem, m3, g.temps, env);
                assert(read(m3, result) == v);
                (k1 + 3 + kb + 3, m3)
            }
        },
        _ => (0, mem),
    }
}

/// An expression made of literals, variables not named like temporaries,
/// and operators: one whose code has no jumps.
pub open spec fn straight_expr(e: ExprV) -> bool
    decreases e,
{
    match e {
        ExprV::Var(x) => !is_temp_name(x),
        ExprV::BinOp { left, right, .. } => straight_expr(*left) && straight_expr(*right),
        ExprV::Call { .. } => false,
        ExprV::If { .. } => false,
        _ => true,
    }
}

/// The memory after executing operations and copies one after the other
/// (any other instruction is passed over).
pub open spec fn run_straight(mem: Map<Seq<char>, i64>, code: Seq<InstrV>) -> Map<Seq<char>, i64>
    decreases code.len(),
{
    if code.len() == 0 {
        mem
    } else {
        let m = run_straight(mem, code.drop_last());
        match code.last() {
            InstrV::BinOp { dst, op, left, right } => crate::interpreter::write(m, dst, eval_op(op, read(m, left), read(m, right))),
            InstrV::Copy { dst, src } => crate::interpreter::write(m, dst, read(m, src)),
            _ => m,
        }
    }
}

proof fn lemma_run_straight_append(mem: Map<Seq<char>, i64>, a: Seq<InstrV>, b: Seq<InstrV>)
    ensures
        run_straight(mem, a + b) == run_straight(run_straight(mem, a), b),
    decreases b.len(),
{
    if b.len() == 0 {
        assert(a + b =~= a);
    } else {
        lemma_run_straight_append(mem, a, b.drop_last());
        assert((a + b).drop_last() =~= a + b.drop_last());
        assert((a + b).last() == b.last());
    }
}

proof fn lemma_expr_straight(g: GenV, e: ExprV, mem: Map<Seq<char>, i64>, env: Map<Seq<char>, i64>)
    requires
        straight_expr(e),
        agrees(mem, env),
    ensures
        ({
            let (g1, a) = gen_expr(g, e);
            let code = g1.instrs.skip(g.instrs.len() as int);
            let m = run_straight(mem, code);
            &&& g.instrs.len() <= g1.instrs.len()
            &&& g1.instrs.take(g.instrs.len() as int) == g.instrs
            &&& g.temps <= g1.temps
            &&& forall|i: int| 0 <= i < code.len() ==> (#[trigger] code[i]) is BinOp
            &&& same_from(mem, m, g.temps)
            &&& agrees(m, env)
            &&& read(m, a) == expr_value(env, e)
            &&& addr_stable(a, g1.temps)
        }),
    decreases e,
{
    lemma_gen_expr_shape(g, e);
    match e {
        ExprV::BinOp { op, left, right } => {
            let (g1, l) = gen_expr(g, *left);
            let (g2, rr) = gen_expr(g1, *right);
            let dst = AddrV::Temp(g2.temps);
            let ins = InstrV::BinOp { dst, op: tac_op(op), left: l, right: rr };
            let g3 = emit(GenV { temps: g2.temps + 1, ..g2 }, ins);
            lemma_expr_straight(g, *left, mem, env);
            let c1 = g1.instrs.skip(g.instrs.len() as int);
            let m1 = run_straight(mem, c1);
            lemma_expr_straight(g1, *right, m1, env);
            let c2 = g2.instrs.skip(g1.instrs.len() as int);
            let m2 = run_straight(m1, c2);
            let code = g3.instrs.skip(g.instrs.len() as int);
            assert(code =~= c1 + c2 + seq![ins]) by {
                assert(g2.instrs =~= g1.instrs + c2);
                assert(g1.instrs =~= g.instrs + c1);
            }
            lemma_run_straight_append(mem, c1, c2);
            lemma_run_straight_append(mem, c1 + c2, seq![ins]);
            assert(run_straight(m2, seq![ins]) == run_straight(run_straight(m2, Seq::empty()), seq![ins]));
            assert(seq![ins].drop_last() =~= Seq::<InstrV>::empty());
            lemma_read_stable(m1, m2, l, g1.temps);
            let v = eval_op(tac_op(op), read(m2, l), read(m2, rr));
            let m3 = m2.insert(temp_name(g2.temps), v);
            assert(run_straight(mem, code) == m3);
            assert forall|k: Seq<char>| #[trigger] get(m3, k) != get(m2, k) implies exists|n: nat| g2.temps <= n
                && k == temp_name(n) by {
                assert(k == temp_name(g2.temps));
            }
            lemma_same_from_trans(mem, m1, m2, g.temps, g1.temps, g.temps);
            lemma_same_from_trans(mem, m2, m3, g.temps, g2.temps, g.temps);
            lemma_agrees_same_from(mem, m3, g.temps, env);
            assert(read(m2, l) == expr_value(env, *left));
            assert(read(m3, dst) == v);
            assert(expr_value(env, e) == eval_op(tac_op(op), expr_value(env, *left), expr_value(env, *right)));
            assert forall|i: int| 0 <= i < code.len() implies (#[trigger] code[i]) is BinOp by {
                if i < c1.len() {
                    assert(code[i] == c1[i]);
                } else if i < c1.len() + c2.len() {
                    assert(code[i] == c2[i - c1.len()]);
                }
            }
        },
        _ => {
            let code = gen_expr(g, e).0.instrs.skip(g.instrs.len() as int);
            assert(code =~= Seq::<InstrV>::empty());
            if let ExprV::Var(x) = e {
                assert(get(mem, x) == get(env, x));
            }
            lemma_same_from_refl(mem, g.temps);
        },
    }
}

/// The code generated for an expression of literals, variables (none named
/// like a temporary) and operators is made of operations only; executing
/// it in order, from any memory, leaves at the address generation returned
/// the value of the expression, its variables read from that memory.
pub proof fn lemma_gen_expr_computes(g: GenV, e: ExprV, mem: Map<Seq<char>, i64>)
    requires
        straight_expr(e),
    ensures
        ({
            let (g1, a) = gen_expr(g, e);
            let code = g1.instrs.skip(g.instrs.len() as int);
            &&& forall|i: int| 0 <= i < code.len() ==> (#[trigger] code[i]) is BinOp
            &&& read(run_straight(mem, code), a) == expr_value(mem, e)
        }),
{
    lemma_expr_straight(g, e, mem, mem);
}

/// What the code generated for each source operator computes, from the
/// values `x` and `y` of its operands: `+ - * / %` the machine's addition,
/// subtraction, multiplication, division and remainder; `== != < > <= >=`
/// 1 when the integer comparison holds and 0 otherwise; `&&` 1 when both
/// operands are non-zero, `||` when either is.
pub proof fn lemma_operator_code_meaning(g: GenV, op: AstBinOp, l: ExprV, r: ExprV, mem: Map<Seq<char>, i64>)
    requires
        straight_expr(l),
        straight_expr(r),
    ensures
        ({
            let e = ExprV::BinOp { op, left: Box::new(l), right: Box::new(r) };
            let (g1, a) = gen_expr(g, e);
            let v = read(run_straight(mem, g1.instrs.skip(g.instrs.len() as int)), a);
            let x = expr_value(mem, l);
            let y = expr_value(mem, r);
            &&& op == AstBinOp::Add ==> v == eval_op(TacBinOp::Add, x, y)
            &&& op == AstBinOp::Sub ==> v == eval_op(TacBinOp::Sub, x, y)
            &&& op == AstBinOp::Mul ==> v == eval_op(TacBinOp::Mul, x, y)
            &&& op == AstBinOp::Div ==> v == eval_op(TacBinOp::Div, x, y)
            &&& op == AstBinOp::Mod ==> v == eval_op(TacBinOp::Mod, x, y)
            &&& op == AstBinOp::Eq ==> v == (if x == y { 1i64 } else { 0i64 })
            &&& op == AstBinOp::Ne ==> v == (if x != y { 1i64 } else { 0i64 })
            &&& op == AstBinOp::Lt ==> v == (if x < y { 1i64 } else { 0i64 })
            &&& op == AstBinOp::Gt ==> v == (if x > y { 1i64 } else { 0i64 })
            &&& op == AstBinOp::Le ==> v == (if x <= y { 1i64 } else { 0i64 })
            &&& op == AstBinOp::Ge ==> v == (if x >= y { 1i64 } else { 0i64 })
            &&& op == AstBinOp::And ==> v == (if x != 0 && y != 0 { 1i64 } else { 0i64 })
            &&& op == AstBinOp::Or ==> v == (if x != 0 || y != 0 { 1i64 } else { 0i64 })
        }),
{
    let e = ExprV::BinOp { op, left: Box::new(l), right: Box::new(r) };
    lemma_gen_expr_computes(g, e, mem);
}

} // verus!

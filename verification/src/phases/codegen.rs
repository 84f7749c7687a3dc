//! Code generation: translates the syntax tree into three-address code.
use vstd::prelude::*;
use crate::ast::{BinOp as AstBinOp, Expr, ExprV, Stmt, StmtV, stmts_view};
use crate::tac::{Addr, AddrV, BinOp as TacBinOp, Instr, InstrV, instrs_view};
use crate::text::{leading_number, leading_number_of, nat_text, push_str, usize_to_text};

verus! {

/// Code generator - converts AST to TAC
pub struct CodeGen {
    pub instrs: Vec<Instr>,
    temp_count: usize,
    label_count: usize,
}

/// The state of code generation: the code emitted so far and the numbers of
/// temporaries and labels handed out.
pub struct GenV {
    pub instrs: Seq<InstrV>,
    pub temps: nat,
    pub labels: nat,
}

impl View for CodeGen {
    type V = GenV;

    closed spec fn view(&self) -> GenV {
        GenV { instrs: instrs_view(self.instrs@), temps: self.temp_count as nat, labels: self.label_count as nat }
    }
}

/// The name of the label with number `n`: `L` and the number.
pub open spec fn label_name(n: nat) -> Seq<char> {
    seq!['L'] + nat_text(n)
}

/// The operator of the generated code for an operator of the source.
pub open spec fn tac_op(op: AstBinOp) -> TacBinOp {
    match op {
        AstBinOp::Add => TacBinOp::Add,
        AstBinOp::Sub => TacBinOp::Sub,
        AstBinOp::Mul => TacBinOp::Mul,
        AstBinOp::Div => TacBinOp::Div,
        AstBinOp::Mod => TacBinOp::Mod,
        AstBinOp::Eq => TacBinOp::Eq,
        AstBinOp::Ne => TacBinOp::Ne,
        AstBinOp::Lt => TacBinOp::Lt,
        AstBinOp::Gt => TacBinOp::Gt,
        AstBinOp::Le => TacBinOp::Le,
        AstBinOp::Ge => TacBinOp::Ge,
        AstBinOp::And => TacBinOp::And,
        AstBinOp::Or => TacBinOp::Or,
    }
}

/// The number of temporaries and labels that generating code for an
/// expression hands out, at most.
pub open spec fn expr_cost(e: ExprV) -> nat
    decreases e,
{
    match e {
        ExprV::BinOp { op, left, right } => 1 + expr_cost(*left) + expr_cost(*right),
        ExprV::Call { .. } => 1,
        ExprV::If { cond, then_, else_ } => 4 + expr_cost(*cond) + expr_cost(*then_) + match else_ {
            Some(x) => expr_cost(*x),
            None => 0,
        },
        _ => 0,
    }
}

/// The number of temporaries and labels that generating code for a
/// statement hands out, at most.
pub open spec fn stmt_cost(s: StmtV) -> nat
    decreases s,
{
    match s {
        StmtV::Let { init, .. } => expr_cost(init),
        StmtV::Assign { value, .. } => expr_cost(value),
        StmtV::Return(e) => expr_cost(e),
        StmtV::ExprStmt(e) => expr_cost(e),
        StmtV::Block(b) => stmts_cost(b),
        StmtV::While { cond, body } => 3 + expr_cost(cond) + stmts_cost(body),
        StmtV::If { cond, then_body, else_body } => 3 + expr_cost(cond) + stmts_cost(then_body)
            + match else_body {
            Some(b) => stmts_cost(b),
            None => 0,
        },
    }
}

/// The cost of a sequence of statements.
pub open spec fn stmts_cost(ss: Seq<StmtV>) -> nat
    decreases ss,
{
    if ss.len() == 0 {
        0
    } else {
        stmts_cost(ss.drop_last()) + stmt_cost(ss.last())
    }
}

/// Appends an instruction to the emitted code.
pub open spec fn emit(g: GenV, i: InstrV) -> GenV {
    GenV { instrs: g.instrs.push(i), ..g }
}

/// The code for an expression, and the address that holds its value.
pub open spec fn gen_expr(g: GenV, e: ExprV) -> (GenV, AddrV)
    decreases e,
{
    match e {
        ExprV::IntLit(n) => (g, AddrV::IntLit(n)),
        ExprV::FloatLit(t) => (g, AddrV::IntLit(leading_number(t))),
        ExprV::BoolLit(b) => (g, AddrV::BoolLit(b)),
        ExprV::StrLit(_) => (g, AddrV::IntLit(0)),
        ExprV::Var(s) => (g, AddrV::Var(s)),
        ExprV::BinOp { op, left, right } => {
            let (g1, l) = gen_expr(g, *left);
            let (g2, r) = gen_expr(g1, *right);
            let dst = AddrV::Temp(g2.temps);
            let g3 = GenV { temps: g2.temps + 1, ..g2 };
            (emit(g3, InstrV::BinOp { dst, op: tac_op(op), left: l, right: r }), dst)
        },
        ExprV::Call { .. } => (GenV { temps: g.temps + 1, ..g }, AddrV::Temp(g.temps)),
        ExprV::If { cond, then_, else_ } => {
            let l_then = label_name(g.labels);
            let l_else = label_name(g.labels + 1);
            let l_end = label_name(g.labels + 2);
            let result = AddrV::Temp(g.temps);
            let g0 = GenV { instrs: g.instrs, temps: g.temps + 1, labels: g.labels + 3 };
            let (g1, c) = gen_expr(g0, *cond);
            let g2 = emit(emit(emit(g1, InstrV::IfGoto { cond: c, label: l_then }), InstrV::Goto(l_else)),
                InstrV::Label(l_then));
            let (g3, tv) = gen_expr(g2, *then_);
            let g4 = emit(emit(emit(g3, InstrV::Copy { dst: result, src: tv }), InstrV::Goto(l_end)),
                InstrV::Label(l_else));
            let g5 = match else_ {
                Some(x) => {
                    let (g5a, ev) = gen_expr(g4, *x);
                    emit(g5a, InstrV::Copy { dst: result, src: ev })
                },
                None => g4,
            };
            (emit(emit(g5, InstrV::Goto(l_end)), InstrV::Label(l_end)), result)
        },
    }
}

/// The code for a statement.
pub open spec fn gen_stmt(g: GenV, s: StmtV) -> GenV
    decreases s,
{
    match s {
        StmtV::Let { name, init, .. } => {
            let (g1, src) = gen_expr(g, init);
            emit(g1, InstrV::Copy { dst: AddrV::Var(name), src })
        },
        StmtV::Assign { name, value } => {
            let (g1, src) = gen_expr(g, value);
            emit(g1, InstrV::Copy { dst: AddrV::Var(name), src })
        },
        StmtV::Return(e) => {
            let (g1, src) = gen_expr(g, e);
            emit(g1, InstrV::Return(src))
        },
        StmtV::ExprStmt(e) => gen_expr(g, e).0,
        StmtV::Block(b) => gen_stmts(g, b),
        StmtV::While { cond, body } => {
            let l_start = label_name(g.labels);
            let l_body = label_name(g.labels + 1);
            let l_end = label_name(g.labels + 2);
            let g0 = emit(GenV { labels: g.labels + 3, ..g }, InstrV::Label(l_start));
            let (g1, c) = gen_expr(g0, cond);
            let g2 = emit(emit(emit(g1, InstrV::IfGoto { cond: c, label: l_body }), InstrV::Goto(l_end)),
                InstrV::Label(l_body));
            let g3 = gen_stmts(g2, body);
            emit(emit(g3, InstrV::Goto(l_start)), InstrV::Label(l_end))
        },
        StmtV::If { cond, then_body, else_body } => {
            let l_then = label_name(g.labels);
            let l_else = label_name(g.labels + 1);
            let l_end = label_name(g.labels + 2);
            let g0 = GenV { labels: g.labels + 3, ..g };
            let (g1, c) = gen_expr(g0, cond);
            let g2 = emit(emit(emit(g1, InstrV::IfGoto { cond: c, label: l_then }), InstrV::Goto(l_else)),
                InstrV::Label(l_then));
            let g3 = gen_stmts(g2, then_body);
            let g4 = emit(emit(g3, InstrV::Goto(l_end)), InstrV::Label(l_else));
            let g5 = match else_body {
                Some(b) => gen_stmts(g4, b),
                None => g4,
            };
            emit(emit(g5, InstrV::Goto(l_end)), InstrV::Label(l_end))
        },
    }
}

/// The code for a sequence of statements, one after the other.
pub open spec fn gen_stmts(g: GenV, ss: Seq<StmtV>) -> GenV
    decreases ss,
{
    if ss.len() == 0 {
        g
    } else {
        gen_stmt(gen_stmts(g, ss.drop_last()), ss.last())
    }
}

impl CodeGen {
    /// Create new code generator
    pub fn new() -> (r: Self)
        ensures
            r@ == (GenV { instrs: Seq::empty(), temps: 0, labels: 0 }),
    {
        let r = CodeGen { instrs: Vec::new(), temp_count: 0, label_count: 0 };
        assert(instrs_view(r.instrs@) =~= Seq::<InstrV>::empty());
        r
    }

    /// The code emitted, taken out of the generator.
    pub fn into_instrs(self) -> (r: Vec<Instr>)
        ensures
            instrs_view(r@) == self@.instrs,
    {
        self.instrs
    }

    /// The number of temporaries handed out so far.
    pub fn temps_used(&self) -> (r: usize)
        ensures
            r == self@.temps,
    {
        self.temp_count
    }

    /// The number of labels handed out so far.
    pub fn labels_used(&self) -> (r: usize)
        ensures
            r == self@.labels,
    {
        self.label_count
    }

    /// Allocate a new temporary
    fn new_temp(&mut self) -> (r: Addr)
        requires
            old(self)@.temps < usize::MAX,
        ensures
            r@ == AddrV::Temp(old(self)@.temps),
            final(self)@ == (GenV { temps: old(self)@.temps + 1, ..old(self)@ }),
    {
        let n = self.temp_count;
        self.temp_count = self.temp_count + 1;
        Addr::Temp(n)
    }

    /// Allocate a new label
    fn new_label(&mut self) -> (r: String)
        requires
            old(self)@.labels < usize::MAX,
        ensures
            r@ == label_name(old(self)@.labels),
            final(self)@ == (GenV { labels: old(self)@.labels + 1, ..old(self)@ }),
    {
        let n = self.label_count;
        self.label_count = self.label_count + 1;
        let mut s = String::new();
        s.push('L');
        let d = usize_to_text(n);
        push_str(&mut s, d.as_str());
        assert(s@ =~= label_name(n as nat));
        s
    }

    /// Emit an instruction
    fn emit(&mut self, instr: Instr)
        ensures
            final(self)@ == emit(old(self)@, instr@),
    {
        self.instrs.push(instr);
        assert(instrs_view(self.instrs@) =~= instrs_view(old(self).instrs@).push(instr@));
    }

    /// Translate AST binary operator to TAC binary operator
    fn translate_binop(op: &AstBinOp) -> (r: TacBinOp)
        ensures
            r == tac_op(*op),
    {
        match op {
            AstBinOp::Add => TacBinOp::Add,
            AstBinOp::Sub => TacBinOp::Sub,
            AstBinOp::Mul => TacBinOp::Mul,
            AstBinOp::Div => TacBinOp::Div,
            AstBinOp::Mod => TacBinOp::Mod,
            AstBinOp::Eq => TacBinOp::Eq,
            AstBinOp::Ne => TacBinOp::Ne,
            AstBinOp::Lt => TacBinOp::Lt,
            AstBinOp::Gt => TacBinOp::Gt,
            AstBinOp::Le => TacBinOp::Le,
            AstBinOp::Ge => TacBinOp::Ge,
            AstBinOp::And => TacBinOp::And,
            AstBinOp::Or => TacBinOp::Or,
        }
    }

    /// Generate code for a statement
    pub fn gen_stmt(&mut self, stmt: &Stmt)
        requires
            old(self)@.temps + stmt_cost(stmt@) <= usize::MAX,
            old(self)@.labels + stmt_cost(stmt@) <= usize::MAX,
        ensures
            final(self)@ == gen_stmt(old(self)@, stmt@),
            final(self)@.temps <= old(self)@.temps + stmt_cost(stmt@),
            final(self)@.labels <= old(self)@.labels + stmt_cost(stmt@),
        decreases stmt,
    {
        match stmt {
            Stmt::Let { name, ty: _, init } => {
                let src = self.gen_expr(init);
                self.emit(Instr::Copy { dst: Addr::Var(name.clone()), src });
            },
            Stmt::Assign { name, value } => {
                let src = self.gen_expr(value);
                self.emit(Instr::Copy { dst: Addr::Var(name.clone()), src });
            },
            Stmt::Return(expr) => {
                let src = self.gen_expr(expr);
                self.emit(Instr::Return(src));
            },
            Stmt::ExprStmt(expr) => {
                let _addr = self.gen_expr(expr);
            },
            Stmt::Block(stmts) => {
                self.gen_block(stmts);
            },
            Stmt::While { cond, body } => {
                let l_start = self.new_label();
                let l_body = self.new_label();
                let l_end = self.new_label();

                self.emit(Instr::Label(l_start.clone()));
                let t_cond = self.gen_expr(cond);
                self.emit(Instr::IfGoto { cond: t_cond, label: l_body.clone() });
                self.emit(Instr::Goto(l_end.clone()));

                self.emit(Instr::Label(l_body));
                self.gen_block(body);
                self.emit(Instr::Goto(l_start));

                self.emit(Instr::Label(l_end));
            },
            Stmt::If { cond, then_body, else_body } => {
                let l_then = self.new_label();
                let l_else = self.new_label();
                let l_end = self.new_label();

                let t_cond = self.gen_expr(cond);
                self.emit(Instr::IfGoto { cond: t_cond, label: l_then.clone() });
                self.emit(Instr::Goto(l_else.clone()));

                self.emit(Instr::Label(l_then));
                self.gen_block(then_body);
                self.emit(Instr::Goto(l_end.clone()));

                self.emit(Instr::Label(l_else));
                match else_body {
                    Some(else_stmts) => {
                        self.gen_block(else_stmts);
                    },
                    None => {},
                }
                self.emit(Instr::Goto(l_end.clone()));

                self.emit(Instr::Label(l_end));
            },
        }
    }

    /// Generate code for a sequence of statements
    fn gen_block(&mut self, stmts: &Vec<Stmt>)
        requires
            old(self)@.temps + stmts_cost(stmts_view(stmts@)) <= usize::MAX,
            old(self)@.labels + stmts_cost(stmts_view(stmts@)) <= usize::MAX,
        ensures
            final(self)@ == gen_stmts(old(self)@, stmts_view(stmts@)),
            final(self)@.temps <= old(self)@.temps + stmts_cost(stmts_view(stmts@)),
            final(self)@.labels <= old(self)@.labels + stmts_cost(stmts_view(stmts@)),
        decreases stmts,
    {
        let ghost g0 = self@;
        let ghost sv = stmts_view(stmts@);
        let mut i: usize = 0;
        while i < stmts.len()
            invariant
                i <= stmts@.len(),
                sv == stmts_view(stmts@),
                g0.temps + stmts_cost(sv) <= usize::MAX,
                g0.labels + stmts_cost(sv) <= usize::MAX,
                self@ == gen_stmts(g0, sv.take(i as int)),
                self@.temps <= g0.temps + stmts_cost(sv.take(i as int)),
                self@.labels <= g0.labels + stmts_cost(sv.take(i as int)),
            decreases stmts@.len() - i,
        {
            proof {
                assert(sv.take(i + 1).drop_last() =~= sv.take(i as int));
                assert(sv.take(i + 1).last() == stmts@[i as int]@);
                lemma_stmts_cost_prefix(sv, i + 1);
            }
            self.gen_stmt(&stmts[i]);
            i = i + 1;
        }
        assert(sv.take(i as int) =~= sv);
    }

    /// Generate code for an expression and return address of result
    fn gen_expr(&mut self, expr: &Expr) -> (r: Addr)
        requires
            old(self)@.temps + expr_cost(expr@) <= usize::MAX,
            old(self)@.labels + expr_cost(expr@) <= usize::MAX,
        ensures
            (final(self)@, r@) == gen_expr(old(self)@, expr@),
            final(self)@.temps <= old(self)@.temps + expr_cost(expr@),
            final(self)@.labels <= old(self)@.labels + expr_cost(expr@),
        decreases expr,
    {
        match expr {
            Expr::IntLit(n) => Addr::IntLit(*n),
            Expr::FloatLit(t) => Addr::IntLit(leading_number_of(t.as_str())),
            Expr::BoolLit(b) => Addr::BoolLit(*b),
            Expr::StrLit(_s) => Addr::IntLit(0),
            Expr::Var(name) => Addr::Var(name.clone()),
            Expr::BinOp { op, left, right } => {
                let l = self.gen_expr(left);
                let r = self.gen_expr(right);
                let dst = self.new_temp();
                self.emit(Instr::BinOp { dst: dst.duplicate(), op: Self::translate_binop(op), left: l, right: r });
                dst
            },
            Expr::Call { func: _, args: _ } => {
                self.new_temp()
            },
            Expr::If { cond, then_, else_ } => {
                let l_then = self.new_label();
                let l_else = self.new_label();
                let l_end = self.new_label();
                let result = self.new_temp();

                let t_cond = self.gen_expr(cond);
                self.emit(Instr::IfGoto { cond: t_cond, label: l_then.clone() });
                self.emit(Instr::Goto(l_else.clone()));

                self.emit(Instr::Label(l_then));
                let then_val = self.gen_expr(then_);
                self.emit(Instr::Copy { dst: result.duplicate(), src: then_val });
                self.emit(Instr::Goto(l_end.clone()));

                self.emit(Instr::Label(l_else));
                match else_ {
                    Some(else_expr) => {
                        let else_val = self.gen_expr(else_expr);
                        self.emit(Instr::Copy { dst: result.duplicate(), src: else_val });
                    },
                    None => {},
                }
                self.emit(Instr::Goto(l_end.clone()));

                self.emit(Instr::Label(l_end));
                result
            },
        }
    }
}

/// The cost of a prefix is at most the cost of the whole.
pub proof fn lemma_stmts_cost_prefix(ss: Seq<StmtV>, i: int)
    requires
        0 <= i <= ss.len(),
    ensures
        stmts_cost(ss.take(i)) <= stmts_cost(ss),
    decreases ss.len(),
{
    if i < ss.len() {
        lemma_stmts_cost_prefix(ss.drop_last(), i);
        assert(ss.drop_last().take(i) =~= ss.take(i));
    } else {
        assert(ss.take(i) =~= ss);
    }
}

} // verus!

//! Three-address code: addresses, operators and instructions.
use vstd::prelude::*;
use crate::text::{nat_text, int_text, usize_to_text, i64_to_text, push_str};
use vstd::string::StringExecFns;

verus! {

/// An address in TAC (variable, temporary, or literal)
#[derive(Debug, Clone, PartialEq)]
pub enum Addr {
    Var(String),
    Temp(usize),
    IntLit(i64),
    BoolLit(bool),
}

/// An address with a variable's name as a character sequence.
pub enum AddrV {
    Var(Seq<char>),
    Temp(nat),
    IntLit(i64),
    BoolLit(bool),
}

impl View for Addr {
    type V = AddrV;

    open spec fn view(&self) -> AddrV {
        match self {
            Addr::Var(s) => AddrV::Var(s@),
            Addr::Temp(n) => AddrV::Temp(*n as nat),
            Addr::IntLit(n) => AddrV::IntLit(*n),
            Addr::BoolLit(b) => AddrV::BoolLit(*b),
        }
    }
}

/// The name under which a temporary is stored and shown: `t` and its number.
pub open spec fn temp_name(n: nat) -> Seq<char> {
    seq!['t'] + nat_text(n)
}

/// Different temporaries have different names.
pub proof fn lemma_temp_name_injective(a: nat, b: nat)
    requires
        temp_name(a) == temp_name(b),
    ensures
        a == b,
{
    assert(nat_text(a) =~= temp_name(a).drop_first());
    assert(nat_text(b) =~= temp_name(b).drop_first());
    crate::text::lemma_nat_text_injective(a, b);
}

/// How an address is written: a variable by its name, a temporary as `t<n>`,
/// an integer in decimal, a boolean as `true` or `false`.
pub open spec fn addr_text(a: AddrV) -> Seq<char> {
    match a {
        AddrV::Var(s) => s,
        AddrV::Temp(n) => temp_name(n),
        AddrV::IntLit(n) => int_text(n as int),
        AddrV::BoolLit(b) => if b { "true"@ } else { "false"@ },
    }
}

impl Addr {
    pub fn display(&self) -> (r: String)
        ensures
            r@ == addr_text(self@),
    {
        match self {
            Addr::Var(s) => s.clone(),
            Addr::Temp(n) => {
                let mut r = String::new();
                r.push('t');
                let d = usize_to_text(*n);
                push_str(&mut r, d.as_str());
                assert(r@ =~= seq!['t'] + nat_text(*n as nat));
                r
            },
            Addr::IntLit(n) => i64_to_text(*n),
            Addr::BoolLit(b) => if *b {
                String::from_str("true")
            } else {
                String::from_str("false")
            },
        }
    }

    /// A copy of the address.
    pub fn duplicate(&self) -> (r: Addr)
        ensures
            r@ == self@,
    {
        match self {
            Addr::Var(s) => Addr::Var(s.clone()),
            Addr::Temp(n) => Addr::Temp(*n),
            Addr::IntLit(n) => Addr::IntLit(*n),
            Addr::BoolLit(b) => Addr::BoolLit(*b),
        }
    }
}

/// Binary operators for TAC
#[derive(Debug, Clone, Copy, PartialEq, Eq, Structural)]
pub enum BinOp {
    Add,
    Sub,
    Mul,
    Div,
    Mod,
    Eq,
    Ne,
    Lt,
    Gt,
    Le,
    Ge,
    And,
    Or,
}

/// TAC Instructions
#[derive(Debug, Clone)]
pub enum Instr {
    /// t = y op z
    BinOp { dst: Addr, op: BinOp, left: Addr, right: Addr },
    /// t = y (copy)
    Copy { dst: Addr, src: Addr },
    /// goto L
    Goto(String),
    /// if t goto L
    IfGoto { cond: Addr, label: String },
    /// L: (label definition)
    Label(String),
    /// return t
    Return(Addr),
    /// halt
    Halt,
}

/// An instruction with its addresses and labels as views.
pub enum InstrV {
    BinOp { dst: AddrV, op: BinOp, left: AddrV, right: AddrV },
    Copy { dst: AddrV, src: AddrV },
    Goto(Seq<char>),
    IfGoto { cond: AddrV, label: Seq<char> },
    Label(Seq<char>),
    Return(AddrV),
    Halt,
}

impl View for Instr {
    type V = InstrV;

    open spec fn view(&self) -> InstrV {
        match self {
            Instr::BinOp { dst, op, left, right } => InstrV::BinOp {
                dst: dst@,
                op: *op,
                left: left@,
                right: right@,
            },
            Instr::Copy { dst, src } => InstrV::Copy { dst: dst@, src: src@ },
            Instr::Goto(l) => InstrV::Goto(l@),
            Instr::IfGoto { cond, label } => InstrV::IfGoto { cond: cond@, label: label@ },
            Instr::Label(l) => InstrV::Label(l@),
            Instr::Return(a) => InstrV::Return(a@),
            Instr::Halt => InstrV::Halt,
        }
    }
}

/// The views of a sequence of instructions.
pub open spec fn instrs_view(v: Seq<Instr>) -> Seq<InstrV> {
    v.map_values(|i: Instr| i@)
}

/// The symbol of an operator.
pub open spec fn op_text(op: BinOp) -> Seq<char> {
    match op {
        BinOp::Add => "+"@,
        BinOp::Sub => "-"@,
        BinOp::Mul => "*"@,
        BinOp::Div => "/"@,
        BinOp::Mod => "%"@,
        BinOp::Eq => "=="@,
        BinOp::Ne => "!="@,
        BinOp::Lt => "<"@,
        BinOp::Gt => ">"@,
        BinOp::Le => "<="@,
        BinOp::Ge => ">="@,
        BinOp::And => "&&"@,
        BinOp::Or => "||"@,
    }
}

/// How an instruction is listed: two spaces of indent, except for labels.
pub open spec fn instr_text(i: InstrV) -> Seq<char> {
    match i {
        InstrV::BinOp { dst, op, left, right } => "  "@ + addr_text(dst) + " = "@ + addr_text(left)
            + " "@ + op_text(op) + " "@ + addr_text(right),
        InstrV::Copy { dst, src } => "  "@ + addr_text(dst) + " = "@ + addr_text(src),
        InstrV::Goto(l) => "  goto "@ + l,
        InstrV::IfGoto { cond, label } => "  if "@ + addr_text(cond) + " goto "@ + label,
        InstrV::Label(l) => l + ":"@,
        InstrV::Return(a) => "  return "@ + addr_text(a),
        InstrV::Halt => "  halt"@,
    }
}

fn op_str(op: BinOp) -> (r: &'static str)
    ensures
        r@ == op_text(op),
{
    match op {
        BinOp::Add => "+",
        BinOp::Sub => "-",
        BinOp::Mul => "*",
        BinOp::Div => "/",
        BinOp::Mod => "%",
        BinOp::Eq => "==",
        BinOp::Ne => "!=",
        BinOp::Lt => "<",
        BinOp::Gt => ">",
        BinOp::Le => "<=",
        BinOp::Ge => ">=",
        BinOp::And => "&&",
        BinOp::Or => "||",
    }
}

impl Instr {
    pub fn display(&self) -> (r: String)
        ensures
            r@ == instr_text(self@),
    {
        match self {
            Instr::BinOp { dst, op, left, right } => {
                let mut s = String::from_str("  ");
                push_str(&mut s, dst.display().as_str());
                push_str(&mut s, " = ");
                push_str(&mut s, left.display().as_str());
                push_str(&mut s, " ");
                push_str(&mut s, op_str(*op));
                push_str(&mut s, " ");
                push_str(&mut s, right.display().as_str());
                s
            },
            Instr::Copy { dst, src } => {
                let mut s = String::from_str("  ");
                push_str(&mut s, dst.display().as_str());
                push_str(&mut s, " = ");
                push_str(&mut s, src.display().as_str());
                s
            },
            Instr::Goto(l) => {
                let mut s = String::from_str("  goto ");
                push_str(&mut s, l.as_str());
                s
            },
            Instr::IfGoto { cond, label } => {
                let mut s = String::from_str("  if ");
                push_str(&mut s, cond.display().as_str());
                push_str(&mut s, " goto ");
                push_str(&mut s, label.as_str());
                s
            },
            Instr::Label(l) => {
                let mut s = l.clone();
                push_str(&mut s, ":");
                s
            },
            Instr::Return(a) => {
                let mut s = String::from_str("  return ");
                push_str(&mut s, a.display().as_str());
                s
            },
            Instr::Halt => String::from_str("  halt"),
        }
    }
}

} // verus!

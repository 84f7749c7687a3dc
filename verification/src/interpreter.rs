//! Execution of three-address code on an abstract machine whose memory maps
//! names to 64-bit integers.
use vstd::prelude::*;
use crate::assoc::NameMap;
use crate::tac::{Addr, AddrV, BinOp, Instr, InstrV, instrs_view, temp_name, lemma_temp_name_injective};
use crate::text::{usize_to_text, nat_text, push_str};

verus! {

/// The largest number of instructions one call of `run` executes.
pub const MAX_STEPS: u64 = 0xffff_ffff_ffff_ffffu64;

/// The state of the machine: its memory and its program counter.
pub struct MachineV {
    pub memory: Map<Seq<char>, i64>,
    pub pc: nat,
}

/// How a run ended: the value returned, if any; the machine afterwards; and
/// whether it stopped by itself (return, halt, or running past the last
/// instruction) rather than by running out of steps.
pub struct RunV {
    pub value: Option<i64>,
    pub machine: MachineV,
    pub finished: bool,
}

/// TAC Interpreter - executes TAC instructions on abstract machine
pub struct Interpreter {
    memory: NameMap<i64>,
    pc: usize,
}

impl View for Interpreter {
    type V = MachineV;

    closed spec fn view(&self) -> MachineV {
        MachineV { memory: self.memory@, pc: self.pc as nat }
    }
}

/// The memory cell an address names, if it names one.
pub open spec fn cell_name(a: AddrV) -> Option<Seq<char>> {
    match a {
        AddrV::Var(s) => Some(s),
        AddrV::Temp(n) => Some(temp_name(n)),
        _ => None,
    }
}

/// The value of an address: a cell that was never written reads as 0, a
/// boolean literal as 1 or 0.
pub open spec fn read(mem: Map<Seq<char>, i64>, a: AddrV) -> i64 {
    match a {
        AddrV::IntLit(n) => n,
        AddrV::BoolLit(b) => if b { 1 } else { 0 },
        _ => {
            let k = cell_name(a).unwrap();
            if mem.contains_key(k) { mem[k] } else { 0 }
        },
    }
}

/// The memory after storing `v` at address `a`; storing to a literal does nothing.
pub open spec fn write(mem: Map<Seq<char>, i64>, a: AddrV, v: i64) -> Map<Seq<char>, i64> {
    match cell_name(a) {
        Some(k) => mem.insert(k, v),
        None => mem,
    }
}

/// Whether two addresses name the same cell although they differ: a
/// variable whose name is that of the temporary.
pub open spec fn aliases(a: AddrV, b: AddrV) -> bool {
    match (a, b) {
        (AddrV::Var(s), AddrV::Temp(n)) => s == temp_name(n),
        (AddrV::Temp(n), AddrV::Var(s)) => s == temp_name(n),
        _ => false,
    }
}

/// Storing a value at a variable or temporary and reading it back gives the
/// value; every other address that does not alias it reads as before;
/// storing to a literal changes nothing.
pub proof fn lemma_write_read(mem: Map<Seq<char>, i64>, a: AddrV, b: AddrV, v: i64)
    ensures
        cell_name(a) is Some ==> read(write(mem, a, v), a) == v,
        cell_name(a) is None ==> write(mem, a, v) == mem,
        cell_name(a) is Some && b != a && !aliases(a, b) ==> read(write(mem, a, v), b) == read(mem, b),
{
    if cell_name(a) is Some && b != a && !aliases(a, b) && cell_name(b) is Some {
        if let (AddrV::Temp(n), AddrV::Temp(m)) = (a, b) {
            if temp_name(n) == temp_name(m) {
                lemma_temp_name_injective(n, m);
            }
        }
        assert(cell_name(a) != cell_name(b));
    }
}

/// Division rounding toward zero.
pub open spec fn trunc_div(x: int, d: int) -> int {
    if x == 0 {
        0
    } else if x > 0 && d > 0 {
        x / d
    } else if x < 0 && d < 0 {
        (-x) / (-d)
    } else if x < 0 {
        -((-x) / d)
    } else {
        -(x / (-d))
    }
}

/// The remainder that goes with `trunc_div`: it has the sign of `x`.
pub open spec fn trunc_rem(x: int, d: int) -> int {
    if x == 0 {
        0
    } else if x > 0 && d > 0 {
        x % d
    } else if x < 0 && d < 0 {
        -((-x) % (-d))
    } else if x < 0 {
        -((-x) % d)
    } else {
        x % (-d)
    }
}

/// The value of a binary operation. Addition, subtraction and multiplication
/// wrap around on overflow; division and remainder by zero give 0, and
/// `i64::MIN / -1` wraps to `i64::MIN` (remainder 0); comparisons and logical
/// operators give 1 or 0, any non-zero operand counting as true.
pub open spec fn eval_op(op: BinOp, l: i64, r: i64) -> i64 {
    match op {
        BinOp::Add => vstd::wrapping::i64_specs::wrapping_add(l, r),
        BinOp::Sub => vstd::wrapping::i64_specs::wrapping_sub(l, r),
        BinOp::Mul => vstd::wrapping::i64_specs::wrapping_mul(l, r),
        BinOp::Div => if r == 0 {
            0
        } else if l == i64::MIN && r == -1 {
            i64::MIN
        } else {
            trunc_div(l as int, r as int) as i64
        },
        BinOp::Mod => if r == 0 || (l == i64::MIN && r == -1) {
            0
        } else {
            trunc_rem(l as int, r as int) as i64
        },
        BinOp::Eq => if l == r { 1 } else { 0 },
        BinOp::Ne => if l != r { 1 } else { 0 },
        BinOp::Lt => if l < r { 1 } else { 0 },
        BinOp::Gt => if l > r { 1 } else { 0 },
        BinOp::Le => if l <= r { 1 } else { 0 },
        BinOp::Ge => if l >= r { 1 } else { 0 },
        BinOp::And => if l != 0 && r != 0 { 1 } else { 0 },
        BinOp::Or => if l != 0 || r != 0 { 1 } else { 0 },
    }
}

proof fn lemma_div_le(a: int, b: int)
    requires
        a >= 0,
        b >= 1,
    ensures
        0 <= a / b <= a,
        b >= 2 ==> a / b <= a / 2,
{
    assert(0 <= a / b <= a) by (nonlinear_arith)
        requires
            a >= 0,
            b >= 1,
    ;
    assert(b >= 2 ==> a / b <= a / 2) by (nonlinear_arith)
        requires
            a >= 0,
            b >= 1,
    ;
}

/// Truncating division of two `i64` stays in range except for `MIN / -1`.
proof fn lemma_trunc_div_range(x: int, d: int)
    requires
        i64::MIN <= x <= i64::MAX,
        i64::MIN <= d <= i64::MAX,
        d != 0,
        !(x == i64::MIN && d == -1),
    ensures
        i64::MIN <= trunc_div(x, d) <= i64::MAX,
{
    if x > 0 && d > 0 {
        lemma_div_le(x, d);
    } else if x < 0 && d < 0 {
        lemma_div_le(-x, -d);
    } else if x < 0 {
        lemma_div_le(-x, d);
    } else if x > 0 {
        lemma_div_le(x, -d);
    }
}

/// What the machine's comparison and logical operators compute: 1 when the
/// integer relation holds of the operands (for `&&` and `||`, when both or
/// either is non-zero), else 0; `>=` and `<=`, `>` and `<` are mirror
/// images, and each comparison is 1 exactly when its negation is 0.
pub proof fn lemma_comparisons_meaning(l: i64, r: i64)
    ensures
        eval_op(BinOp::Eq, l, r) == 1 <==> l == r,
        eval_op(BinOp::Ne, l, r) == 1 <==> l != r,
        eval_op(BinOp::Lt, l, r) == 1 <==> l < r,
        eval_op(BinOp::Gt, l, r) == 1 <==> l > r,
        eval_op(BinOp::Le, l, r) == 1 <==> l <= r,
        eval_op(BinOp::Ge, l, r) == 1 <==> l >= r,
        eval_op(BinOp::And, l, r) == 1 <==> (l != 0 && r != 0),
        eval_op(BinOp::Or, l, r) == 1 <==> (l != 0 || r != 0),
        eval_op(BinOp::Eq, l, r) == 0 || eval_op(BinOp::Eq, l, r) == 1,
        eval_op(BinOp::Ne, l, r) == 0 || eval_op(BinOp::Ne, l, r) == 1,
        eval_op(BinOp::Lt, l, r) == 0 || eval_op(BinOp::Lt, l, r) == 1,
        eval_op(BinOp::Gt, l, r) == 0 || eval_op(BinOp::Gt, l, r) == 1,
        eval_op(BinOp::Le, l, r) == 0 || eval_op(BinOp::Le, l, r) == 1,
        eval_op(BinOp::Ge, l, r) == 0 || eval_op(BinOp::Ge, l, r) == 1,
        eval_op(BinOp::And, l, r) == 0 || eval_op(BinOp::And, l, r) == 1,
        eval_op(BinOp::Or, l, r) == 0 || eval_op(BinOp::Or, l, r) == 1,
        eval_op(BinOp::Ge, l, r) == eval_op(BinOp::Le, r, l),
        eval_op(BinOp::Gt, l, r) == eval_op(BinOp::Lt, r, l),
        eval_op(BinOp::Ge, l, r) == 1 - eval_op(BinOp::Lt, l, r),
        eval_op(BinOp::Le, l, r) == 1 - eval_op(BinOp::Gt, l, r),
        eval_op(BinOp::Ne, l, r) == 1 - eval_op(BinOp::Eq, l, r),
        eval_op(BinOp::Ge, l, l) == 1,
        eval_op(BinOp::Le, l, l) == 1,
        eval_op(BinOp::Eq, l, l) == 1,
{
}

/// What the machine's arithmetic computes: the sum, difference and
/// product of the operands when they fit in 64 bits, and otherwise that
/// number shifted by 2^64 into range.
pub proof fn lemma_arithmetic_meaning(l: i64, r: i64)
    ensures
        i64::MIN <= l + r <= i64::MAX ==> eval_op(BinOp::Add, l, r) == l + r,
        l + r > i64::MAX ==> eval_op(BinOp::Add, l, r) == l + r - 0x1_0000_0000_0000_0000,
        l + r < i64::MIN ==> eval_op(BinOp::Add, l, r) == l + r + 0x1_0000_0000_0000_0000,
        i64::MIN <= l - r <= i64::MAX ==> eval_op(BinOp::Sub, l, r) == l - r,
        l - r > i64::MAX ==> eval_op(BinOp::Sub, l, r) == l - r - 0x1_0000_0000_0000_0000,
        l - r < i64::MIN ==> eval_op(BinOp::Sub, l, r) == l - r + 0x1_0000_0000_0000_0000,
        i64::MIN <= l * r <= i64::MAX ==> eval_op(BinOp::Mul, l, r) == l * r,
{
    if i64::MIN <= l * r <= i64::MAX {
        let x = l * r;
        let m = 0x1_0000_0000_0000_0000int;
        if x >= 0 {
            vstd::arithmetic::div_mod::lemma_small_mod(x as nat, m as nat);
        } else {
            vstd::arithmetic::div_mod::lemma_mod_add_multiples_vanish(x, m);
            vstd::arithmetic::div_mod::lemma_small_mod((x + m) as nat, m as nat);
        }
    }
}

proof fn lemma_pos_div(x: int, d: int)
    requires
        x >= 0,
        d > 0,
    ensures
        (x / d) * d + x % d == x,
        0 <= x % d < d,
        x / d >= 0,
{
    vstd::arithmetic::div_mod::lemma_fundamental_div_mod(x, d);
    vstd::arithmetic::div_mod::lemma_mod_pos_bound(x, d);
    vstd::arithmetic::mul::lemma_mul_is_commutative(d, x / d);
    vstd::arithmetic::div_mod::lemma_div_pos_is_pos(x, d);
}

/// What the machine's division and remainder compute: division rounds
/// toward zero, so quotient times divisor plus remainder gives back the
/// dividend, the remainder is smaller than the divisor and has the sign of
/// the dividend; by zero both give 0, and `i64::MIN / -1` gives `i64::MIN`
/// with remainder 0.
pub proof fn lemma_division_meaning(l: i64, r: i64)
    ensures
        r != 0 && !(l == i64::MIN && r == -1) ==> {
            let q = eval_op(BinOp::Div, l, r) as int;
            let m = eval_op(BinOp::Mod, l, r) as int;
            &&& q * r + m == l
            &&& r > 0 ==> -r < m < r
            &&& r < 0 ==> r < m < -r
            &&& l >= 0 ==> m >= 0
            &&& l <= 0 ==> m <= 0
        },
        eval_op(BinOp::Div, l, 0) == 0,
        eval_op(BinOp::Mod, l, 0) == 0,
        eval_op(BinOp::Div, i64::MIN, -1i64) == i64::MIN,
        eval_op(BinOp::Mod, i64::MIN, -1i64) == 0,
{
    if r != 0 && !(l == i64::MIN && r == -1) {
        let x = l as int;
        let d = r as int;
        lemma_trunc_div_range(x, d);
        let tq = trunc_div(x, d);
        let tm = trunc_rem(x, d);
        if x > 0 && d > 0 {
            lemma_pos_div(x, d);
            assert(tq == x / d && tm == x % d);
            assert(tq * d + tm == x) by (nonlinear_arith)
                requires tq == x / d, tm == x % d, (x / d) * d + x % d == x;
        } else if x < 0 && d < 0 {
            lemma_pos_div(-x, -d);
            let a = (-x) / (-d);
            let b = (-x) % (-d);
            assert(tq == a && tm == -b);
            assert(a * (-d) + b == -x);
            assert(a * d == -(a * (-d))) by (nonlinear_arith);
            assert(tq * d + tm == x) by (nonlinear_arith)
                requires tq == a, tm == -b, a * (-d) + b == -x, a * d == -(a * (-d));
        } else if x < 0 {
            lemma_pos_div(-x, d);
            let a = (-x) / d;
            let b = (-x) % d;
            assert(tq == -a && tm == -b);
            assert(a * d + b == -x);
            assert((-a) * d == -(a * d)) by (nonlinear_arith);
            assert(tq * d + tm == x) by (nonlinear_arith)
                requires tq == -a, tm == -b, a * d + b == -x, (-a) * d == -(a * d);
        } else if x > 0 {
            lemma_pos_div(x, -d);
            let a = x / (-d);
            let b = x % (-d);
            assert(tq == -a && tm == b);
            assert(a * (-d) + b == x);
            assert((-a) * d == a * (-d)) by (nonlinear_arith);
            assert(tq * d + tm == x) by (nonlinear_arith)
                requires tq == -a, tm == b, a * (-d) + b == x, (-a) * d == a * (-d);
        } else {
            assert(tq == 0 && tm == 0);
            assert(tq * d + tm == x) by (nonlinear_arith)
                requires tq == 0, tm == 0, x == 0;
        }
        assert(tq * d + tm == x);
        assert(i64::MIN <= tm <= i64::MAX);
    }
}

/// Where each label stands: the position of the last `Label` instruction
/// with that name.
pub open spec fn label_targets(instrs: Seq<InstrV>) -> Map<Seq<char>, nat>
    decreases instrs.len(),
{
    if instrs.len() == 0 {
        Map::empty()
    } else {
        let m = label_targets(instrs.drop_last());
        match instrs.last() {
            InstrV::Label(l) => m.insert(l, (instrs.len() - 1) as nat),
            _ => m,
        }
    }
}

/// Where a jump to `l` from `pc` goes: to the label, or on to the next
/// instruction when no such label exists.
pub open spec fn jump(targets: Map<Seq<char>, nat>, l: Seq<char>, pc: nat) -> nat {
    if targets.contains_key(l) { targets[l] } else { pc + 1 }
}

/// What one instruction does.
pub enum StepV {
    /// Execution goes on with this memory and program counter.
    Next(Map<Seq<char>, i64>, nat),
    /// The program returned this value.
    Return(i64),
    /// The program halted.
    Halt,
}

/// The effect of executing `instr` at position `pc` in memory `mem`.
pub open spec fn step(targets: Map<Seq<char>, nat>, instr: InstrV, mem: Map<Seq<char>, i64>, pc: nat) -> StepV {
    match instr {
        InstrV::BinOp { dst, op, left, right } => StepV::Next(
            write(mem, dst, eval_op(op, read(mem, left), read(mem, right))),
            pc + 1,
        ),
        InstrV::Copy { dst, src } => StepV::Next(write(mem, dst, read(mem, src)), pc + 1),
        InstrV::Goto(l) => StepV::Next(mem, jump(targets, l, pc)),
        InstrV::IfGoto { cond, label } => StepV::Next(
            mem,
            if read(mem, cond) != 0 { jump(targets, label, pc) } else { pc + 1 },
        ),
        InstrV::Label(_) => StepV::Next(mem, pc + 1),
        InstrV::Return(a) => StepV::Return(read(mem, a)),
        InstrV::Halt => StepV::Halt,
    }
}

/// Runs `instrs` from machine `m` for at most `fuel` instructions.
pub open spec fn run_from(instrs: Seq<InstrV>, m: MachineV, fuel: nat) -> RunV
    decreases fuel,
{
    if m.pc >= instrs.len() {
        RunV { value: None, machine: m, finished: true }
    } else if fuel == 0 {
        RunV { value: None, machine: m, finished: false }
    } else {
        match step(label_targets(instrs), instrs[m.pc as int], m.memory, m.pc) {
            StepV::Next(mem, pc) => run_from(instrs, MachineV { memory: mem, pc }, (fuel - 1) as nat),
            StepV::Return(v) => RunV { value: Some(v), machine: m, finished: true },
            StepV::Halt => RunV { value: None, machine: m, finished: true },
        }
    }
}

/// A run that stopped by itself within `n` steps ends the same way with any
/// larger number of steps: the cap on steps changes nothing for programs
/// that stop.
pub proof fn lemma_run_more_fuel(instrs: Seq<InstrV>, m: MachineV, n: nat, k: nat)
    requires
        run_from(instrs, m, n).finished,
        n <= k,
    ensures
        run_from(instrs, m, k) == run_from(instrs, m, n),
    decreases n,
{
    if m.pc < instrs.len() && n > 0 {
        match step(label_targets(instrs), instrs[m.pc as int], m.memory, m.pc) {
            StepV::Next(mem, pc) => {
                lemma_run_more_fuel(instrs, MachineV { memory: mem, pc }, (n - 1) as nat, (k - 1) as nat);
            },
            _ => {},
        }
    }
}

/// A table of label positions, built from a program.
fn build_labels(instrs: &[Instr]) -> (t: NameMap<usize>)
    ensures
        forall|l: Seq<char>| #![trigger t@.contains_key(l)]
            t@.contains_key(l) == label_targets(instrs_view(instrs@)).contains_key(l),
        forall|l: Seq<char>| #![trigger t@[l]] t@.contains_key(l) ==> t@[l] as nat
            == label_targets(instrs_view(instrs@))[l],
        forall|l: Seq<char>| #![trigger t@[l]] t@.contains_key(l) ==> t@[l] < instrs@.len(),
{
    let mut t: NameMap<usize> = NameMap::new();
    let mut i: usize = 0;
    while i < instrs.len()
        invariant
            i <= instrs@.len(),
            forall|l: Seq<char>| #![trigger t@.contains_key(l)]
                t@.contains_key(l) == label_targets(instrs_view(instrs@).take(i as int)).contains_key(l),
            forall|l: Seq<char>| #![trigger t@[l]] t@.contains_key(l) ==> t@[l] as nat
                == label_targets(instrs_view(instrs@).take(i as int))[l],
            forall|l: Seq<char>| #![trigger t@[l]] t@.contains_key(l) ==> t@[l] < i,
        decreases instrs@.len() - i,
    {
        let ghost iv = instrs_view(instrs@);
        assert(iv.take(i + 1).drop_last() =~= iv.take(i as int));
        assert(iv.take(i + 1).last() == instrs@[i as int]@);
        match &instrs[i] {
            Instr::Label(l) => {
                t.set(l.clone(), i);
            },
            _ => {},
        }
        i = i + 1;
    }
    assert(instrs_view(instrs@).take(i as int) =~= instrs_view(instrs@));
    t
}

impl Interpreter {
    /// Create new interpreter
    pub fn new() -> (r: Self)
        ensures
            r@ == (MachineV { memory: Map::empty(), pc: 0 }),
    {
        Interpreter { memory: NameMap::new(), pc: 0 }
    }

    /// The memory cell name of a temporary: `t` and its number.
    fn temp_key(n: usize) -> (r: String)
        ensures
            r@ == temp_name(n as nat),
    {
        let mut r = String::new();
        r.push('t');
        let d = usize_to_text(n);
        push_str(&mut r, d.as_str());
        assert(r@ =~= seq!['t'] + nat_text(n as nat));
        r
    }

    /// Get value of an address
    fn get_addr(&self, addr: &Addr) -> (r: i64)
        ensures
            r == read(self@.memory, addr@),
    {
        match addr {
            Addr::Var(name) => match self.memory.get(name) {
                Some(v) => *v,
                None => 0,
            },
            Addr::Temp(n) => match self.memory.get(&Self::temp_key(*n)) {
                Some(v) => *v,
                None => 0,
            },
            Addr::IntLit(n) => *n,
            Addr::BoolLit(b) => if *b { 1 } else { 0 },
        }
    }

    /// Set value of an address
    fn set_addr(&mut self, addr: &Addr, value: i64)
        ensures
            final(self)@ == (MachineV { memory: write(old(self)@.memory, addr@, value), pc: old(self)@.pc }),
    {
        match addr {
            Addr::Var(name) => {
                self.memory.set(name.clone(), value);
            },
            Addr::Temp(n) => {
                self.memory.set(Self::temp_key(*n), value);
            },
            _ => {},
        }
    }

    /// Evaluate a binary operation
    fn eval_binop(&self, op: &BinOp, left: i64, right: i64) -> (r: i64)
        ensures
            r == eval_op(*op, left, right),
    {
        match op {
            BinOp::Add => left.wrapping_add(right),
            BinOp::Sub => left.wrapping_sub(right),
            BinOp::Mul => left.wrapping_mul(right),
            BinOp::Div => {
                if right == 0 {
                    0
                } else if left == i64::MIN && right == -1 {
                    i64::MIN
                } else {
                    proof {
                        lemma_trunc_div_range(left as int, right as int);
                    }
                    let q = left.checked_div(right);
                    match q {
                        Some(q) => q,
                        None => 0,
                    }
                }
            },
            BinOp::Mod => {
                if right == 0 || (left == i64::MIN && right == -1) {
                    0
                } else {
                    let q = left.checked_rem(right);
                    match q {
                        Some(q) => q,
                        None => 0,
                    }
                }
            },
            BinOp::Eq => if left == right { 1 } else { 0 },
            BinOp::Ne => if left != right { 1 } else { 0 },
            BinOp::Lt => if left < right { 1 } else { 0 },
            BinOp::Gt => if left > right { 1 } else { 0 },
            BinOp::Le => if left <= right { 1 } else { 0 },
            BinOp::Ge => if left >= right { 1 } else { 0 },
            BinOp::And => if left != 0 && right != 0 { 1 } else { 0 },
            BinOp::Or => if left != 0 || right != 0 { 1 } else { 0 },
        }
    }

    /// Run the TAC program and return result. Execution starts from the
    /// machine's current memory and program counter, and stops at a `return`
    /// (giving its value), at `halt`, when the program counter passes the
    /// last instruction, or after `MAX_STEPS` instructions.
    pub fn run(&mut self, instrs: &[Instr]) -> (r: Option<i64>)
        ensures
            r == run_from(instrs_view(instrs@), old(self)@, MAX_STEPS as nat).value,
            final(self)@ == run_from(instrs_view(instrs@), old(self)@, MAX_STEPS as nat).machine,
    {
        let ghost prog = instrs_view(instrs@);
        let ghost start = self@;
        let labels = build_labels(instrs);
        let mut steps: u64 = 0;
        let mut return_value: Option<i64> = None;
        while self.pc < instrs.len() && steps < MAX_STEPS
            invariant_except_break
                prog == instrs_view(instrs@),
                steps <= MAX_STEPS,
                run_from(prog, start, MAX_STEPS as nat) == run_from(prog, self@, (MAX_STEPS - steps) as nat),
                return_value is None,
                forall|l: Seq<char>| #![trigger labels@.contains_key(l)]
                    labels@.contains_key(l) == label_targets(prog).contains_key(l),
                forall|l: Seq<char>| #![trigger labels@[l]] labels@.contains_key(l) ==> labels@[l] as nat
                    == label_targets(prog)[l],
                forall|l: Seq<char>| #![trigger labels@[l]] labels@.contains_key(l) ==> labels@[l] < instrs@.len(),
            ensures
                return_value == run_from(prog, start, MAX_STEPS as nat).value,
                self@ == run_from(prog, start, MAX_STEPS as nat).machine,
            decreases MAX_STEPS - steps,
        {
            let ghost before = self@;
            assert(prog[self.pc as int] == instrs@[self.pc as int]@);
            let instr = &instrs[self.pc];
            match instr {
                Instr::BinOp { dst, op, left, right } => {
                    let l_val = self.get_addr(left);
                    let r_val = self.get_addr(right);
                    let result = self.eval_binop(op, l_val, r_val);
                    self.set_addr(dst, result);
                    self.pc = self.pc + 1;
                },
                Instr::Copy { dst, src } => {
                    let val = self.get_addr(src);
                    self.set_addr(dst, val);
                    self.pc = self.pc + 1;
                },
                Instr::Goto(label) => {
                    match labels.get(label) {
                        Some(target) => {
                            self.pc = *target;
                        },
                        None => {
                            self.pc = self.pc + 1;
                        },
                    }
                },
                Instr::IfGoto { cond, label } => {
                    let cond_val = self.get_addr(cond);
                    if cond_val != 0 {
                        match labels.get(label) {
                            Some(target) => {
                                self.pc = *target;
                            },
                            None => {
                                self.pc = self.pc + 1;
                            },
                        }
                    } else {
                        self.pc = self.pc + 1;
                    }
                },
                Instr::Label(_) => {
                    self.pc = self.pc + 1;
                },
                Instr::Return(addr) => {
                    return_value = Some(self.get_addr(addr));
                    break;
                },
                Instr::Halt => {
                    break;
                },
            }
            steps = steps + 1;
        }
        return_value
    }
}

} // verus!

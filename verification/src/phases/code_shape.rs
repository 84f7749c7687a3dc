//! The shape of generated code: every label that code generation hands out
//! is defined exactly once, every jump goes to one of them, and the
//! temporaries that the code writes are the ones handed out for it.
use vstd::prelude::*;
use crate::ast::{ExprV, StmtV};
use crate::tac::{AddrV, InstrV};
use crate::text::{nat_text, lemma_nat_text_injective};
use crate::phases::codegen::{GenV, emit, gen_expr, gen_stmt, gen_stmts, label_name, tac_op};
use crate::interpreter::label_targets;

verus! {

/// The numbers from `lo` up to `hi`, `hi` excluded.
pub open spec fn rng(lo: nat, hi: nat) -> Set<nat> {
    Set::new(|k: nat| lo <= k < hi)
}

/// The label an instruction defines.
pub open spec fn label_def(i: InstrV) -> Option<Seq<char>> {
    match i {
        InstrV::Label(l) => Some(l),
        _ => None,
    }
}

/// The label an instruction jumps to.
pub open spec fn jump_target(i: InstrV) -> Option<Seq<char>> {
    match i {
        InstrV::Goto(l) => Some(l),
        InstrV::IfGoto { label, .. } => Some(label),
        _ => None,
    }
}

/// The temporary an instruction writes.
pub open spec fn written_temp(i: InstrV) -> Option<nat> {
    match i {
        InstrV::BinOp { dst: AddrV::Temp(n), .. } => Some(n),
        InstrV::Copy { dst: AddrV::Temp(n), .. } => Some(n),
        _ => None,
    }
}

/// Whether `l` is the name of a label numbered in `ks`.
pub open spec fn named_in(l: Seq<char>, ks: Set<nat>) -> bool {
    exists|k: nat| ks.contains(k) && l == label_name(k)
}

/// The code defines exactly the labels numbered in `ks`, each once.
pub open spec fn defines_exactly(code: Seq<InstrV>, ks: Set<nat>) -> bool {
    &&& forall|i: int| 0 <= i < code.len() && (#[trigger] label_def(code[i])) is Some ==> named_in(
        label_def(code[i])->0,
        ks,
    )
    &&& forall|k: nat| ks.contains(k) ==> exists|i: int| 0 <= i < code.len() && #[trigger] label_def(code[i])
        == Some(label_name(k))
    &&& forall|i: int, j: int|
        0 <= i < j < code.len() && (#[trigger] label_def(code[i])) is Some ==> #[trigger] label_def(code[j])
            != label_def(code[i])
}

/// Every jump of the code goes to a label numbered in `ks`.
pub open spec fn jumps_within(code: Seq<InstrV>, ks: Set<nat>) -> bool {
    forall|i: int| 0 <= i < code.len() && (#[trigger] jump_target(code[i])) is Some ==> named_in(
        jump_target(code[i])->0,
        ks,
    )
}

/// Every temporary the code writes is numbered in `ts`.
pub open spec fn writes_within(code: Seq<InstrV>, ts: Set<nat>) -> bool {
    forall|i: int| 0 <= i < code.len() && (#[trigger] written_temp(code[i])) is Some ==> ts.contains(
        written_temp(code[i])->0,
    )
}

/// `g1` is `g0` with more code after it and no fewer temporaries or labels.
pub open spec fn extends(g0: GenV, g1: GenV) -> bool {
    &&& g0.instrs.len() <= g1.instrs.len()
    &&& g1.instrs.take(g0.instrs.len() as int) == g0.instrs
    &&& g0.temps <= g1.temps
    &&& g0.labels <= g1.labels
}

/// The code emitted between two states of generation.
pub open spec fn emitted(g0: GenV, g1: GenV) -> Seq<InstrV> {
    g1.instrs.skip(g0.instrs.len() as int)
}

/// Between `g0` and `g1` generation emitted code that defines the labels
/// numbered in `d`, jumps to labels numbered in `j` and writes temporaries
/// numbered in `t`.
pub open spec fn shaped(g0: GenV, g1: GenV, d: Set<nat>, j: Set<nat>, t: Set<nat>) -> bool {
    &&& extends(g0, g1)
    &&& defines_exactly(emitted(g0, g1), d)
    &&& jumps_within(emitted(g0, g1), j)
    &&& writes_within(emitted(g0, g1), t)
}

/// What generation between two states did, in full: the labels it handed
/// out are defined once each, its jumps go to them, and it writes only the
/// temporaries it handed out.
pub open spec fn well_shaped(g0: GenV, g1: GenV) -> bool {
    shaped(g0, g1, rng(g0.labels, g1.labels), rng(g0.labels, g1.labels), rng(g0.temps, g1.temps))
}

proof fn lemma_label_name_injective(a: nat, b: nat)
    requires
        label_name(a) == label_name(b),
    ensures
        a == b,
{
    assert(nat_text(a) =~= label_name(a).drop_first());
    assert(nat_text(b) =~= label_name(b).drop_first());
    lemma_nat_text_injective(a, b);
}

/// Labels named in disjoint sets of numbers differ.
proof fn lemma_named_disjoint(l1: Seq<char>, l2: Seq<char>, s1: Set<nat>, s2: Set<nat>)
    requires
        named_in(l1, s1),
        named_in(l2, s2),
        s1.disjoint(s2),
    ensures
        l1 != l2,
{
    let k1 = choose|k: nat| s1.contains(k) && l1 == label_name(k);
    let k2 = choose|k: nat| s2.contains(k) && l2 == label_name(k);
    if l1 == l2 {
        lemma_label_name_injective(k1, k2);
        assert(s1.contains(k1) && s2.contains(k1));
    }
}

proof fn lemma_named_subset(l: Seq<char>, s1: Set<nat>, s2: Set<nat>)
    requires
        named_in(l, s1),
        s1.subset_of(s2),
    ensures
        named_in(l, s2),
{
    let k = choose|k: nat| s1.contains(k) && l == label_name(k);
    assert(s2.contains(k));
}

/// Generation that did nothing, or only handed out numbers.
proof fn lemma_shaped_nothing(g0: GenV, g1: GenV)
    requires
        g1.instrs == g0.instrs,
        g0.temps <= g1.temps,
        g0.labels <= g1.labels,
    ensures
        shaped(g0, g1, Set::empty(), Set::empty(), Set::empty()),
{
    assert(g1.instrs.take(g0.instrs.len() as int) =~= g0.instrs);
    assert(emitted(g0, g1) =~= Seq::<InstrV>::empty());
}

/// One emitted instruction.
proof fn lemma_shaped_emit(g: GenV, i: InstrV, d: Set<nat>, j: Set<nat>, t: Set<nat>)
    requires
        label_def(i) is Some ==> d.len() == 1 && exists|k: nat| d.contains(k) && label_def(i) == Some(
            label_name(k),
        ),
        label_def(i) is None ==> d == Set::<nat>::empty(),
        jump_target(i) is Some ==> named_in(jump_target(i)->0, j),
        written_temp(i) is Some ==> t.contains(written_temp(i)->0),
        d.finite(),
    ensures
        shaped(g, emit(g, i), d, j, t),
{
    let g1 = emit(g, i);
    let s = emitted(g, g1);
    assert(s =~= seq![i]);
    assert(g1.instrs.take(g.instrs.len() as int) =~= g.instrs);
    if label_def(i) is Some {
        let k = choose|k: nat| d.contains(k) && label_def(i) == Some(label_name(k));
        assert(named_in(label_def(i)->0, d));
        assert forall|k2: nat| d.contains(k2) implies exists|x: int| 0 <= x < s.len() && #[trigger] label_def(s[x])
            == Some(label_name(k2)) by {
            vstd::set_lib::lemma_set_empty_equivalency_len(d.remove(k));
            assert(d.remove(k).len() == 0);
            if k2 != k {
                assert(d.remove(k).contains(k2));
            }
            assert(label_def(s[0]) == Some(label_name(k2)));
        }
    }
}

/// Generation in two steps, whose labels are numbered apart.
proof fn lemma_shaped_trans(
    g0: GenV,
    g1: GenV,
    g2: GenV,
    d1: Set<nat>,
    j1: Set<nat>,
    t1: Set<nat>,
    d2: Set<nat>,
    j2: Set<nat>,
    t2: Set<nat>,
)
    requires
        shaped(g0, g1, d1, j1, t1),
        shaped(g1, g2, d2, j2, t2),
        d1.disjoint(d2),
    ensures
        shaped(g0, g2, d1.union(d2), j1.union(j2), t1.union(t2)),
{
    let a = emitted(g0, g1);
    let b = emitted(g1, g2);
    let c = emitted(g0, g2);
    assert(g2.instrs.take(g0.instrs.len() as int) =~= g1.instrs.take(g0.instrs.len() as int));
    assert(c =~= a + b) by {
        assert(g1.instrs =~= g2.instrs.take(g1.instrs.len() as int));
    }
    let d = d1.union(d2);
    assert forall|i: int| 0 <= i < c.len() && (#[trigger] label_def(c[i])) is Some implies named_in(
        label_def(c[i])->0,
        d,
    ) by {
        if i < a.len() {
            assert(c[i] == a[i]);
            assert(label_def(a[i]) is Some);
            lemma_named_subset(label_def(c[i])->0, d1, d);
        } else {
            assert(c[i] == b[i - a.len()]);
            assert(label_def(b[i - a.len()]) is Some);
            lemma_named_subset(label_def(c[i])->0, d2, d);
        }
    }
    assert forall|k: nat| d.contains(k) implies exists|x: int| 0 <= x < c.len() && #[trigger] label_def(c[x])
        == Some(label_name(k)) by {
        if d1.contains(k) {
            let x = choose|x: int| 0 <= x < a.len() && #[trigger] label_def(a[x]) == Some(label_name(k));
            assert(c[x] == a[x]);
        } else {
            let x = choose|x: int| 0 <= x < b.len() && #[trigger] label_def(b[x]) == Some(label_name(k));
            assert(c[a.len() + x] == b[x]);
        }
    }
    assert forall|x: int, y: int|
        0 <= x < y < c.len() && (#[trigger] label_def(c[x])) is Some implies #[trigger] label_def(c[y])
        != label_def(c[x]) by {
        if y < a.len() {
            assert(c[x] == a[x] && c[y] == a[y]);
        } else if x >= a.len() {
            assert(c[x] == b[x - a.len()] && c[y] == b[y - a.len()]);
            assert(label_def(b[x - a.len()]) is Some);
        } else {
            assert(c[x] == a[x] && c[y] == b[y - a.len()]);
            assert(label_def(a[x]) is Some);
            if label_def(c[y]) is Some {
                assert(label_def(b[y - a.len()]) is Some);
                lemma_named_disjoint(label_def(c[x])->0, label_def(c[y])->0, d1, d2);
            }
        }
    }
    assert forall|i: int| 0 <= i < c.len() && (#[trigger] jump_target(c[i])) is Some implies named_in(
        jump_target(c[i])->0,
        j1.union(j2),
    ) by {
        if i < a.len() {
            assert(c[i] == a[i]);
            assert(jump_target(a[i]) is Some);
            lemma_named_subset(jump_target(c[i])->0, j1, j1.union(j2));
        } else {
            assert(c[i] == b[i - a.len()]);
            assert(jump_target(b[i - a.len()]) is Some);
            lemma_named_subset(jump_target(c[i])->0, j2, j1.union(j2));
        }
    }
    assert forall|i: int| 0 <= i < c.len() && (#[trigger] written_temp(c[i])) is Some implies t1.union(
        t2,
    ).contains(written_temp(c[i])->0) by {
        if i < a.len() {
            assert(c[i] == a[i]);
            assert(written_temp(a[i]) is Some);
        } else {
            assert(c[i] == b[i - a.len()]);
            assert(written_temp(b[i - a.len()]) is Some);
        }
    }
}

/// Widening what the jumps and writes are allowed to name.
proof fn lemma_shaped_widen(
    g0: GenV,
    g1: GenV,
    d: Set<nat>,
    j: Set<nat>,
    t: Set<nat>,
    d2: Set<nat>,
    j2: Set<nat>,
    t2: Set<nat>,
)
    requires
        shaped(g0, g1, d, j, t),
        d == d2,
        j.subset_of(j2),
        t.subset_of(t2),
    ensures
        shaped(g0, g1, d2, j2, t2),
{
    let s = emitted(g0, g1);
    assert forall|i: int| 0 <= i < s.len() && (#[trigger] jump_target(s[i])) is Some implies named_in(
        jump_target(s[i])->0,
        j2,
    ) by {
        lemma_named_subset(jump_target(s[i])->0, j, j2);
    }
}

/// Then a label is defined.
proof fn lemma_then_label(g0: GenV, g1: GenV, d: Set<nat>, j: Set<nat>, t: Set<nat>, k: nat)
    requires
        shaped(g0, g1, d, j, t),
        !d.contains(k),
    ensures
        shaped(g0, emit(g1, InstrV::Label(label_name(k))), d.insert(k), j, t),
{
    let i = InstrV::Label(label_name(k));
    assert(set![k].len() == 1);
    assert(set![k].contains(k));
    lemma_shaped_emit(g1, i, set![k], Set::empty(), Set::empty());
    lemma_shaped_trans(g0, g1, emit(g1, i), d, j, t, set![k], Set::empty(), Set::empty());
    assert(d.union(set![k]) =~= d.insert(k));
    assert(j.union(Set::empty()) =~= j);
    assert(t.union(Set::empty()) =~= t);
}

/// Then an instruction that jumps to a label is emitted.
proof fn lemma_then_jump(g0: GenV, g1: GenV, d: Set<nat>, j: Set<nat>, t: Set<nat>, i: InstrV, k: nat)
    requires
        shaped(g0, g1, d, j, t),
        jump_target(i) == Some(label_name(k)),
        label_def(i) is None,
        written_temp(i) is None,
    ensures
        shaped(g0, emit(g1, i), d, j.insert(k), t),
{
    assert(set![k].contains(k));
    lemma_shaped_emit(g1, i, Set::empty(), set![k], Set::empty());
    lemma_shaped_trans(g0, g1, emit(g1, i), d, j, t, Set::empty(), set![k], Set::empty());
    assert(d.union(Set::empty()) =~= d);
    assert(j.union(set![k]) =~= j.insert(k));
    assert(t.union(Set::empty()) =~= t);
}

/// Then an instruction that neither defines nor jumps, writing at most the
/// temporary `n`.
proof fn lemma_then_plain(g0: GenV, g1: GenV, d: Set<nat>, j: Set<nat>, t: Set<nat>, i: InstrV, n: nat)
    requires
        shaped(g0, g1, d, j, t),
        jump_target(i) is None,
        label_def(i) is None,
        written_temp(i) is Some ==> written_temp(i) == Some(n),
    ensures
        shaped(g0, emit(g1, i), d, j, t.insert(n)),
{
    lemma_shaped_emit(g1, i, Set::empty(), Set::empty(), set![n]);
    lemma_shaped_trans(g0, g1, emit(g1, i), d, j, t, Set::empty(), Set::empty(), set![n]);
    assert(d.union(Set::empty()) =~= d);
    assert(j.union(Set::empty()) =~= j);
    assert(t.union(set![n]) =~= t.insert(n));
}

/// Then an instruction that neither defines, jumps nor writes a temporary.
proof fn lemma_then_silent(g0: GenV, g1: GenV, d: Set<nat>, j: Set<nat>, t: Set<nat>, i: InstrV)
    requires
        shaped(g0, g1, d, j, t),
        jump_target(i) is None,
        label_def(i) is None,
        written_temp(i) is None,
    ensures
        shaped(g0, emit(g1, i), d, j, t),
{
    lemma_shaped_emit(g1, i, Set::empty(), Set::empty(), Set::empty());
    lemma_shaped_trans(g0, g1, emit(g1, i), d, j, t, Set::empty(), Set::empty(), Set::empty());
    assert(d.union(Set::empty()) =~= d);
    assert(j.union(Set::empty()) =~= j);
    assert(t.union(Set::empty()) =~= t);
}

/// Then more generation that did what it should.
proof fn lemma_then_gen(g0: GenV, g1: GenV, g2: GenV, d: Set<nat>, j: Set<nat>, t: Set<nat>)
    requires
        shaped(g0, g1, d, j, t),
        well_shaped(g1, g2),
        d.disjoint(rng(g1.labels, g2.labels)),
    ensures
        shaped(
            g0,
            g2,
            d.union(rng(g1.labels, g2.labels)),
            j.union(rng(g1.labels, g2.labels)),
            t.union(rng(g1.temps, g2.temps)),
        ),
{
    lemma_shaped_trans(
        g0,
        g1,
        g2,
        d,
        j,
        t,
        rng(g1.labels, g2.labels),
        rng(g1.labels, g2.labels),
        rng(g1.temps, g2.temps),
    );
}

/// Then only numbers are handed out.
proof fn lemma_then_numbers(g0: GenV, g1: GenV, g2: GenV, d: Set<nat>, j: Set<nat>, t: Set<nat>)
    requires
        shaped(g0, g1, d, j, t),
        g2.instrs == g1.instrs,
        g1.temps <= g2.temps,
        g1.labels <= g2.labels,
    ensures
        shaped(g0, g2, d, j, t),
{
    lemma_shaped_nothing(g1, g2);
    lemma_shaped_trans(g0, g1, g2, d, j, t, Set::empty(), Set::empty(), Set::empty());
    assert(d.union(Set::empty()) =~= d);
    assert(j.union(Set::empty()) =~= j);
    assert(t.union(Set::empty()) =~= t);
}

/// The code for an expression is well shaped.
pub proof fn lemma_gen_expr_shape(g: GenV, e: ExprV)
    ensures
        well_shaped(g, gen_expr(g, e).0),
    decreases e,
{
    let e0: Set<nat> = Set::empty();
    match e {
        ExprV::BinOp { op, left, right } => {
            let (g1, l) = gen_expr(g, *left);
            let (g2, r) = gen_expr(g1, *right);
            let dst = AddrV::Temp(g2.temps);
            let g3 = GenV { temps: g2.temps + 1, ..g2 };
            let i = InstrV::BinOp { dst, op: crate::phases::codegen::tac_op(op), left: l, right: r };
            lemma_gen_expr_shape(g, *left);
            lemma_gen_expr_shape(g1, *right);
            lemma_shaped_nothing(g, g);
            lemma_then_gen(g, g, g1, e0, e0, e0);
            lemma_then_gen(g, g1, g2, e0.union(rng(g.labels, g1.labels)), e0.union(rng(g.labels, g1.labels)),
                e0.union(rng(g.temps, g1.temps)));
            let d = e0.union(rng(g.labels, g1.labels)).union(rng(g1.labels, g2.labels));
            let t = e0.union(rng(g.temps, g1.temps)).union(rng(g1.temps, g2.temps));
            lemma_then_numbers(g, g2, g3, d, d, t);
            lemma_then_plain(g, g3, d, d, t, i, g2.temps);
            let g4 = emit(g3, i);
            assert(d =~= rng(g.labels, g4.labels));
            lemma_shaped_widen(g, g4, d, d, t.insert(g2.temps), rng(g.labels, g4.labels), rng(g.labels, g4.labels),
                rng(g.temps, g4.temps));
        },
        ExprV::Call { .. } => {
            lemma_shaped_nothing(g, GenV { temps: g.temps + 1, ..g });
            let g1 = GenV { temps: g.temps + 1, ..g };
            assert(e0 =~= rng(g.labels, g1.labels));
            lemma_shaped_widen(g, g1, e0, e0, e0, rng(g.labels, g1.labels), rng(g.labels, g1.labels), rng(g.temps, g1.temps));
        },
        ExprV::If { cond, then_, else_ } => {
            let lb = g.labels;
            let l_then = label_name(lb);
            let l_else = label_name(lb + 1);
            let l_end = label_name(lb + 2);
            let result = AddrV::Temp(g.temps);
            let g0 = GenV { instrs: g.instrs, temps: g.temps + 1, labels: g.labels + 3 };
            let (g1, c) = gen_expr(g0, *cond);
            let i1 = InstrV::IfGoto { cond: c, label: l_then };
            let i2 = InstrV::Goto(l_else);
            let i3 = InstrV::Label(l_then);
            let ga = emit(g1, i1);
            let gb = emit(ga, i2);
            let g2 = emit(gb, i3);
            let (g3, tv) = gen_expr(g2, *then_);
            let i4 = InstrV::Copy { dst: result, src: tv };
            let i5 = InstrV::Goto(l_end);
            let i6 = InstrV::Label(l_else);
            let gc = emit(g3, i4);
            let gd = emit(gc, i5);
            let g4 = emit(gd, i6);
            lemma_gen_expr_shape(g0, *cond);
            lemma_gen_expr_shape(g2, *then_);
            lemma_shaped_nothing(g, g0);
            lemma_then_gen(g, g0, g1, e0, e0, e0);
            let d1 = e0.union(rng(g0.labels, g1.labels));
            let t1 = e0.union(rng(g0.temps, g1.temps));
            lemma_then_jump(g, g1, d1, d1, t1, i1, lb);
            lemma_then_jump(g, ga, d1, d1.insert(lb), t1, i2, lb + 1);
            lemma_then_label(g, gb, d1, d1.insert(lb).insert(lb + 1), t1, lb);
            let j2 = d1.insert(lb).insert(lb + 1);
            let d2 = d1.insert(lb);
            lemma_then_gen(g, g2, g3, d2, j2, t1);
            let d3 = d2.union(rng(g2.labels, g3.labels));
            let j3 = j2.union(rng(g2.labels, g3.labels));
            let t3 = t1.union(rng(g2.temps, g3.temps));
            lemma_then_plain(g, g3, d3, j3, t3, i4, g.temps);
            lemma_then_jump(g, gc, d3, j3, t3.insert(g.temps), i5, lb + 2);
            lemma_then_label(g, gd, d3, j3.insert(lb + 2), t3.insert(g.temps), lb + 1);
            let d4 = d3.insert(lb + 1);
            let j4 = j3.insert(lb + 2);
            let t4 = t3.insert(g.temps);
            let i7 = InstrV::Goto(l_end);
            let i8 = InstrV::Label(l_end);
            match else_ {
                Some(x) => {
                    let (g5a, ev) = gen_expr(g4, *x);
                    let i9 = InstrV::Copy { dst: result, src: ev };
                    let g5 = emit(g5a, i9);
                    lemma_gen_expr_shape(g4, *x);
                    lemma_then_gen(g, g4, g5a, d4, j4, t4);
                    let d5 = d4.union(rng(g4.labels, g5a.labels));
                    let j5 = j4.union(rng(g4.labels, g5a.labels));
                    let t5 = t4.union(rng(g4.temps, g5a.temps));
                    lemma_then_plain(g, g5a, d5, j5, t5, i9, g.temps);
                    lemma_then_jump(g, g5, d5, j5, t5.insert(g.temps), i7, lb + 2);
                    lemma_then_label(g, emit(g5, i7), d5, j5.insert(lb + 2), t5.insert(g.temps), lb + 2);
                    let gf = emit(emit(g5, i7), i8);
                    assert(d5.insert(lb + 2) =~= rng(g.labels, gf.labels));
                    lemma_shaped_widen(g, gf, d5.insert(lb + 2), j5.insert(lb + 2), t5.insert(g.temps),
                        rng(g.labels, gf.labels), rng(g.labels, gf.labels), rng(g.temps, gf.temps));
                },
                None => {
                    lemma_then_jump(g, g4, d4, j4, t4, i7, lb + 2);
                    lemma_then_label(g, emit(g4, i7), d4, j4.insert(lb + 2), t4, lb + 2);
                    let gf = emit(emit(g4, i7), i8);
                    assert(d4.insert(lb + 2) =~= rng(g.labels, gf.labels));
                    lemma_shaped_widen(g, gf, d4.insert(lb + 2), j4.insert(lb + 2), t4,
                        rng(g.labels, gf.labels), rng(g.labels, gf.labels), rng(g.temps, gf.temps));
                },
            }
        },
        _ => {
            lemma_shaped_nothing(g, g);
            assert(e0 =~= rng(g.labels, g.labels));
            lemma_shaped_widen(g, g, e0, e0, e0, rng(g.labels, g.labels), rng(g.labels, g.labels), rng(g.temps, g.temps));
        },
    }
}

/// The code for a statement is well shaped.
pub proof fn lemma_gen_stmt_shape(g: GenV, st: StmtV)
    ensures
        well_shaped(g, gen_stmt(g, st)),
    decreases st,
{
    let e0: Set<nat> = Set::empty();
    match st {
        StmtV::Let { name, init, .. } => {
            let (g1, src) = gen_expr(g, init);
            lemma_gen_expr_shape(g, init);
            lemma_then_silent(g, g1, rng(g.labels, g1.labels), rng(g.labels, g1.labels), rng(g.temps, g1.temps),
                InstrV::Copy { dst: AddrV::Var(name), src });
            let g2 = emit(g1, InstrV::Copy { dst: AddrV::Var(name), src });
            lemma_shaped_widen(g, g2, rng(g.labels, g1.labels), rng(g.labels, g1.labels), rng(g.temps, g1.temps),
                rng(g.labels, g2.labels), rng(g.labels, g2.labels), rng(g.temps, g2.temps));
        },
        StmtV::Assign { name, value } => {
            let (g1, src) = gen_expr(g, value);
            lemma_gen_expr_shape(g, value);
            lemma_then_silent(g, g1, rng(g.labels, g1.labels), rng(g.labels, g1.labels), rng(g.temps, g1.temps),
                InstrV::Copy { dst: AddrV::Var(name), src });
            let g2 = emit(g1, InstrV::Copy { dst: AddrV::Var(name), src });
            lemma_shaped_widen(g, g2, rng(g.labels, g1.labels), rng(g.labels, g1.labels), rng(g.temps, g1.temps),
                rng(g.labels, g2.labels), rng(g.labels, g2.labels), rng(g.temps, g2.temps));
        },
        StmtV::Return(e) => {
            let (g1, src) = gen_expr(g, e);
            lemma_gen_expr_shape(g, e);
            lemma_then_silent(g, g1, rng(g.labels, g1.labels), rng(g.labels, g1.labels), rng(g.temps, g1.temps),
                InstrV::Return(src));
            let g2 = emit(g1, InstrV::Return(src));
            lemma_shaped_widen(g, g2, rng(g.labels, g1.labels), rng(g.labels, g1.labels), rng(g.temps, g1.temps),
                rng(g.labels, g2.labels), rng(g.labels, g2.labels), rng(g.temps, g2.temps));
        },
        StmtV::ExprStmt(e) => {
            lemma_gen_expr_shape(g, e);
        },
        StmtV::Block(b) => {
            lemma_gen_stmts_shape(g, b);
        },
        StmtV::While { cond, body } => {
            let lb = g.labels;
            let l_start = label_name(lb);
            let l_body = label_name(lb + 1);
            let l_end = label_name(lb + 2);
            let ga = GenV { labels: g.labels + 3, ..g };
            let i0 = InstrV::Label(l_start);
            let g0 = emit(ga, i0);
            let (g1, c) = gen_expr(g0, cond);
            let i1 = InstrV::IfGoto { cond: c, label: l_body };
            let i2 = InstrV::Goto(l_end);
            let i3 = InstrV::Label(l_body);
            let gb = emit(g1, i1);
            let gc = emit(gb, i2);
            let g2 = emit(gc, i3);
            let g3 = gen_stmts(g2, body);
            let i4 = InstrV::Goto(l_start);
            let i5 = InstrV::Label(l_end);
            let gd = emit(g3, i4);
            let g4 = emit(gd, i5);
            lemma_gen_expr_shape(g0, cond);
            lemma_gen_stmts_shape(g2, body);
            lemma_shaped_nothing(g, ga);
            lemma_then_label(g, ga, e0, e0, e0, lb);
            let d0 = e0.insert(lb);
            lemma_then_gen(g, g0, g1, d0, e0, e0);
            let d1 = d0.union(rng(g0.labels, g1.labels));
            let j1 = e0.union(rng(g0.labels, g1.labels));
            let t1 = e0.union(rng(g0.temps, g1.temps));
            lemma_then_jump(g, g1, d1, j1, t1, i1, lb + 1);
            lemma_then_jump(g, gb, d1, j1.insert(lb + 1), t1, i2, lb + 2);
            lemma_then_label(g, gc, d1, j1.insert(lb + 1).insert(lb + 2), t1, lb + 1);
            let d2 = d1.insert(lb + 1);
            let j2 = j1.insert(lb + 1).insert(lb + 2);
            lemma_then_gen(g, g2, g3, d2, j2, t1);
            let d3 = d2.union(rng(g2.labels, g3.labels));
            let j3 = j2.union(rng(g2.labels, g3.labels));
            let t3 = t1.union(rng(g2.temps, g3.temps));
            lemma_then_jump(g, g3, d3, j3, t3, i4, lb);
            lemma_then_label(g, gd, d3, j3.insert(lb), t3, lb + 2);
            assert(d3.insert(lb + 2) =~= rng(g.labels, g4.labels));
            lemma_shaped_widen(g, g4, d3.insert(lb + 2), j3.insert(lb), t3, rng(g.labels, g4.labels),
                rng(g.labels, g4.labels), rng(g.temps, g4.temps));
        },
        StmtV::If { cond, then_body, else_body } => {
            let lb = g.labels;
            let l_then = label_name(lb);
            let l_else = label_name(lb + 1);
            let l_end = label_name(lb + 2);
            let g0 = GenV { labels: g.labels + 3, ..g };
            let (g1, c) = gen_expr(g0, cond);
            let i1 = InstrV::IfGoto { cond: c, label: l_then };
            let i2 = InstrV::Goto(l_else);
            let i3 = InstrV::Label(l_then);
            let ga = emit(g1, i1);
            let gb = emit(ga, i2);
            let g2 = emit(gb, i3);
            let g3 = gen_stmts(g2, then_body);
            let i4 = InstrV::Goto(l_end);
            let i5 = InstrV::Label(l_else);
            let gc = emit(g3, i4);
            let g4 = emit(gc, i5);
            lemma_gen_expr_shape(g0, cond);
            lemma_gen_stmts_shape(g2, then_body);
            lemma_shaped_nothing(g, g0);
            lemma_then_gen(g, g0, g1, e0, e0, e0);
            let d1 = e0.union(rng(g0.labels, g1.labels));
            let t1 = e0.union(rng(g0.temps, g1.temps));
            lemma_then_jump(g, g1, d1, d1, t1, i1, lb);
            lemma_then_jump(g, ga, d1, d1.insert(lb), t1, i2, lb + 1);
            lemma_then_label(g, gb, d1, d1.insert(lb).insert(lb + 1), t1, lb);
            let d2 = d1.insert(lb);
            let j2 = d1.insert(lb).insert(lb + 1);
            lemma_then_gen(g, g2, g3, d2, j2, t1);
            let d3 = d2.union(rng(g2.labels, g3.labels));
            let j3 = j2.union(rng(g2.labels, g3.labels));
            let t3 = t1.union(rng(g2.temps, g3.temps));
            lemma_then_jump(g, g3, d3, j3, t3, i4, lb + 2);
            lemma_then_label(g, gc, d3, j3.insert(lb + 2), t3, lb + 1);
            let d4 = d3.insert(lb + 1);
            let j4 = j3.insert(lb + 2);
            let i6 = InstrV::Goto(l_end);
            let i7 = InstrV::Label(l_end);
            match else_body {
                Some(b) => {
                    let g5 = gen_stmts(g4, b);
                    lemma_gen_stmts_shape(g4, b);
                    lemma_then_gen(g, g4, g5, d4, j4, t3);
                    let d5 = d4.union(rng(g4.labels, g5.labels));
                    let j5 = j4.union(rng(g4.labels, g5.labels));
                    let t5 = t3.union(rng(g4.temps, g5.temps));
                    lemma_then_jump(g, g5, d5, j5, t5, i6, lb + 2);
                    lemma_then_label(g, emit(g5, i6), d5, j5.insert(lb + 2), t5, lb + 2);
                    let gf = emit(emit(g5, i6), i7);
                    assert(d5.insert(lb + 2) =~= rng(g.labels, gf.labels));
                    lemma_shaped_widen(g, gf, d5.insert(lb + 2), j5.insert(lb + 2), t5,
                        rng(g.labels, gf.labels), rng(g.labels, gf.labels), rng(g.temps, gf.temps));
                },
                None => {
                    lemma_then_jump(g, g4, d4, j4, t3, i6, lb + 2);
                    lemma_then_label(g, emit(g4, i6), d4, j4.insert(lb + 2), t3, lb + 2);
                    let gf = emit(emit(g4, i6), i7);
                    assert(d4.insert(lb + 2) =~= rng(g.labels, gf.labels));
                    lemma_shaped_widen(g, gf, d4.insert(lb + 2), j4.insert(lb + 2), t3,
                        rng(g.labels, gf.labels), rng(g.labels, gf.labels), rng(g.temps, gf.temps));
                },
            }
        },
    }
}

/// The code for a sequence of statements is well shaped.
pub proof fn lemma_gen_stmts_shape(g: GenV, ss: Seq<StmtV>)
    ensures
        well_shaped(g, gen_stmts(g, ss)),
    decreases ss,
{
    let e0: Set<nat> = Set::empty();
    if ss.len() == 0 {
        lemma_shaped_nothing(g, g);
        assert(e0 =~= rng(g.labels, g.labels));
        lemma_shaped_widen(g, g, e0, e0, e0, rng(g.labels, g.labels), rng(g.labels, g.labels), rng(g.temps, g.temps));
    } else {
        let g1 = gen_stmts(g, ss.drop_last());
        let g2 = gen_stmt(g1, ss.last());
        lemma_gen_stmts_shape(g, ss.drop_last());
        lemma_gen_stmt_shape(g1, ss.last());
        lemma_then_gen(g, g1, g2, rng(g.labels, g1.labels), rng(g.labels, g1.labels), rng(g.temps, g1.temps));
        assert(rng(g.labels, g1.labels).union(rng(g1.labels, g2.labels)) =~= rng(g.labels, g2.labels));
        lemma_shaped_widen(g, g2, rng(g.labels, g1.labels).union(rng(g1.labels, g2.labels)),
            rng(g.labels, g1.labels).union(rng(g1.labels, g2.labels)),
            rng(g.temps, g1.temps).union(rng(g1.temps, g2.temps)),
            rng(g.labels, g2.labels), rng(g.labels, g2.labels), rng(g.temps, g2.temps));
    }
}

/// A label defined at exactly one place is where jumps to it go.
pub proof fn lemma_label_targets_unique(code: Seq<InstrV>, l: Seq<char>, i: int)
    requires
        0 <= i < code.len(),
        code[i] == InstrV::Label(l),
        forall|j: int| 0 <= j < code.len() && j != i ==> label_def(#[trigger] code[j]) != Some(l),
    ensures
        label_targets(code).contains_key(l),
        label_targets(code)[l] == i,
    decreases code.len(),
{
    if i < code.len() - 1 {
        let c = code.drop_last();
        assert forall|j: int| 0 <= j < c.len() && j != i implies label_def(#[trigger] c[j]) != Some(l) by {
            assert(c[j] == code[j]);
        }
        lemma_label_targets_unique(c, l, i);
        assert(label_def(code[code.len() - 1]) != Some(l));
    }
}

/// No label is defined twice in `code`, and every jump names a label that
/// is defined, so that the machine jumps to the one place where it stands.
pub open spec fn labels_resolve(code: Seq<InstrV>) -> bool {
    &&& forall|i: int, j: int|
        0 <= i < j < code.len() && (#[trigger] label_def(code[i])) is Some ==> #[trigger] label_def(code[j])
            != label_def(code[i])
    &&& forall|i: int| 0 <= i < code.len() && (#[trigger] jump_target(code[i])) is Some ==> {
        let l = jump_target(code[i])->0;
        &&& label_targets(code).contains_key(l)
        &&& code[label_targets(code)[l] as int] == InstrV::Label(l)
    }
}

/// In the code generated for a program, no label is defined twice, and
/// every jump goes to a label that is defined: where the machine jumps is
/// the one place that label stands.
pub proof fn lemma_program_labels(ss: Seq<StmtV>)
    ensures
        labels_resolve(gen_stmts(GenV { instrs: Seq::empty(), temps: 0, labels: 0 }, ss).instrs),
{
    let g0 = GenV { instrs: Seq::empty(), temps: 0, labels: 0 };
    let g1 = gen_stmts(g0, ss);
    lemma_gen_stmts_shape(g0, ss);
    let code = g1.instrs;
    let ks = rng(0, g1.labels);
    assert(emitted(g0, g1) =~= code);
    assert forall|i: int| 0 <= i < code.len() && (#[trigger] jump_target(code[i])) is Some implies ({
        let l = jump_target(code[i])->0;
        &&& label_targets(code).contains_key(l)
        &&& code[label_targets(code)[l] as int] == InstrV::Label(l)
    }) by {
        let l = jump_target(code[i])->0;
        assert(named_in(l, ks));
        let k = choose|k: nat| ks.contains(k) && l == label_name(k);
        let x = choose|x: int| 0 <= x < code.len() && #[trigger] label_def(code[x]) == Some(label_name(k));
        assert forall|j: int| 0 <= j < code.len() && j != x implies label_def(#[trigger] code[j]) != Some(l) by {
            if j < x {
                if label_def(code[j]) is Some {
                    assert(label_def(code[x]) != label_def(code[j]));
                }
            } else {
                assert(label_def(code[j]) != label_def(code[x]));
            }
        }
        assert(code[x] == InstrV::Label(l));
        lemma_label_targets_unique(code, l, x);
    }
}

/// Every label that `code` defines is numbered below `n`.
pub open spec fn labels_below(code: Seq<InstrV>, n: nat) -> bool {
    forall|i: int|
        0 <= i < code.len() && (#[trigger] label_def(code[i])) is Some ==> named_in(label_def(code[i])->0, rng(0, n))
}

/// Generating code for a statement, from any state whose labels were handed
/// out by the generator (as from `CodeGen::new` and every later call),
/// keeps the old code as a prefix; the labels it adds are pairwise
/// distinct and none of them is defined in the old code; every jump it adds
/// goes to a label it adds; and the new state's labels are again handed
/// out by the generator.
pub proof fn lemma_gen_stmt_labels(g: GenV, s: StmtV)
    requires
        labels_below(g.instrs, g.labels),
    ensures
        ({
            let g1 = gen_stmt(g, s);
            let added = g1.instrs.skip(g.instrs.len() as int);
            &&& g.instrs.len() <= g1.instrs.len()
            &&& g1.instrs.take(g.instrs.len() as int) == g.instrs
            &&& forall|i: int, j: int|
                0 <= i < j < added.len() && (#[trigger] label_def(added[i])) is Some ==> #[trigger] label_def(
                    added[j],
                ) != label_def(added[i])
            &&& forall|i: int, j: int|
                0 <= i < added.len() && 0 <= j < g.instrs.len() && (#[trigger] label_def(added[i])) is Some
                    ==> #[trigger] label_def(g.instrs[j]) != label_def(added[i])
            &&& forall|i: int|
                0 <= i < added.len() && (#[trigger] jump_target(added[i])) is Some ==> exists|j: int|
                    0 <= j < added.len() && #[trigger] label_def(added[j]) == jump_target(added[i])
            &&& labels_below(g1.instrs, g1.labels)
        }),
{
    let g1 = gen_stmt(g, s);
    lemma_gen_stmt_shape(g, s);
    let added = emitted(g, g1);
    let newk = rng(g.labels, g1.labels);
    let oldk = rng(0, g.labels);
    assert(oldk.disjoint(newk));
    assert forall|i: int, j: int|
        0 <= i < added.len() && 0 <= j < g.instrs.len() && (#[trigger] label_def(added[i])) is Some implies
        #[trigger] label_def(g.instrs[j]) != label_def(added[i]) by {
        if label_def(g.instrs[j]) is Some {
            lemma_named_disjoint(label_def(g.instrs[j])->0, label_def(added[i])->0, oldk, newk);
        }
    }
    assert forall|i: int| 0 <= i < added.len() && (#[trigger] jump_target(added[i])) is Some implies exists|j: int|
        0 <= j < added.len() && #[trigger] label_def(added[j]) == jump_target(added[i]) by {
        let l = jump_target(added[i])->0;
        let k = choose|k: nat| newk.contains(k) && l == label_name(k);
        let j = choose|j: int| 0 <= j < added.len() && #[trigger] label_def(added[j]) == Some(label_name(k));
        assert(label_def(added[j]) == jump_target(added[i]));
    }
    assert forall|i: int|
        0 <= i < g1.instrs.len() && (#[trigger] label_def(g1.instrs[i])) is Some implies named_in(
        label_def(g1.instrs[i])->0,
        rng(0, g1.labels),
    ) by {
        if i < g.instrs.len() {
            assert(g1.instrs[i] == g1.instrs.take(g.instrs.len() as int)[i]);
            assert(g1.instrs[i] == g.instrs[i]);
            lemma_named_subset(label_def(g1.instrs[i])->0, oldk, rng(0, g1.labels));
        } else {
            assert(g1.instrs[i] == added[i - g.instrs.len()]);
            assert(label_def(added[i - g.instrs.len()]) is Some);
            lemma_named_subset(label_def(g1.instrs[i])->0, newk, rng(0, g1.labels));
        }
    }
}

/// `code` holds no `halt` instruction.
pub open spec fn halt_free(code: Seq<InstrV>) -> bool {
    forall|i: int| 0 <= i < code.len() ==> !(#[trigger] code[i] is Halt)
}

proof fn lemma_emit_halt_free(g: GenV, i: InstrV)
    requires
        halt_free(g.instrs),
        !(i is Halt),
    ensures
        halt_free(emit(g, i).instrs),
{
    assert forall|k: int| 0 <= k < emit(g, i).instrs.len() implies !(#[trigger] emit(g, i).instrs[k] is Halt) by {
        if k < g.instrs.len() {
            assert(emit(g, i).instrs[k] == g.instrs[k]);
        }
    }
}

/// Generating code for an expression adds no `halt`.
pub proof fn lemma_gen_expr_halt_free(g: GenV, e: ExprV)
    requires
        halt_free(g.instrs),
    ensures
        halt_free(gen_expr(g, e).0.instrs),
    decreases e,
{
    match e {
        ExprV::BinOp { op, left, right } => {
            let (g1, l) = gen_expr(g, *left);
            lemma_gen_expr_halt_free(g, *left);
            let (g2, r) = gen_expr(g1, *right);
            lemma_gen_expr_halt_free(g1, *right);
            let g3 = GenV { temps: g2.temps + 1, ..g2 };
            lemma_emit_halt_free(g3, InstrV::BinOp { dst: AddrV::Temp(g2.temps), op: tac_op(op), left: l, right: r });
        },
        ExprV::If { cond, then_, else_ } => {
            let l_then = label_name(g.labels);
            let l_else = label_name(g.labels + 1);
            let l_end = label_name(g.labels + 2);
            let result = AddrV::Temp(g.temps);
            let g0 = GenV { instrs: g.instrs, temps: g.temps + 1, labels: g.labels + 3 };
            let (g1, c) = gen_expr(g0, *cond);
            lemma_gen_expr_halt_free(g0, *cond);
            let gi1 = emit(g1, InstrV::IfGoto { cond: c, label: l_then });
            lemma_emit_halt_free(g1, InstrV::IfGoto { cond: c, label: l_then });
            let gi2 = emit(gi1, InstrV::Goto(l_else));
            lemma_emit_halt_free(gi1, InstrV::Goto(l_else));
            let g2 = emit(gi2, InstrV::Label(l_then));
            lemma_emit_halt_free(gi2, InstrV::Label(l_then));
            let (g3, tv) = gen_expr(g2, *then_);
            lemma_gen_expr_halt_free(g2, *then_);
            let gc1 = emit(g3, InstrV::Copy { dst: result, src: tv });
            lemma_emit_halt_free(g3, InstrV::Copy { dst: result, src: tv });
            let gc2 = emit(gc1, InstrV::Goto(l_end));
            lemma_emit_halt_free(gc1, InstrV::Goto(l_end));
            let g4 = emit(gc2, InstrV::Label(l_else));
            lemma_emit_halt_free(gc2, InstrV::Label(l_else));
            let g5 = match else_ {
                Some(x) => {
                    let (g5a, ev) = gen_expr(g4, *x);
                    lemma_gen_expr_halt_free(g4, *x);
                    lemma_emit_halt_free(g5a, InstrV::Copy { dst: result, src: ev });
                    emit(g5a, InstrV::Copy { dst: result, src: ev })
                },
                None => g4,
            };
            lemma_emit_halt_free(g5, InstrV::Goto(l_end));
            lemma_emit_halt_free(emit(g5, InstrV::Goto(l_end)), InstrV::Label(l_end));
        },
        _ => {},
    }
}

/// Generating code for a statement adds no `halt`.
pub proof fn lemma_gen_stmt_halt_free(g: GenV, s: StmtV)
    requires
        halt_free(g.instrs),
    ensures
        halt_free(gen_stmt(g, s).instrs),
    decreases s,
{
    match s {
        StmtV::Let { name, init, .. } => {
            let (g1, src) = gen_expr(g, init);
            lemma_gen_expr_halt_free(g, init);
            lemma_emit_halt_free(g1, InstrV::Copy { dst: AddrV::Var(name), src });
        },
        StmtV::Assign { name, value } => {
            let (g1, src) = gen_expr(g, value);
            lemma_gen_expr_halt_free(g, value);
            lemma_emit_halt_free(g1, InstrV::Copy { dst: AddrV::Var(name), src });
        },
        StmtV::Return(e) => {
            let (g1, src) = gen_expr(g, e);
            lemma_gen_expr_halt_free(g, e);
            lemma_emit_halt_free(g1, InstrV::Return(src));
        },
        StmtV::ExprStmt(e) => lemma_gen_expr_halt_free(g, e),
        StmtV::Block(b) => lemma_gen_stmts_halt_free(g, b),
        StmtV::While { cond, body } => {
            let l_start = label_name(g.labels);
            let l_body = label_name(g.labels + 1);
            let l_end = label_name(g.labels + 2);
            let ga = GenV { labels: g.labels + 3, ..g };
            lemma_emit_halt_free(ga, InstrV::Label(l_start));
            let g0 = emit(ga, InstrV::Label(l_start));
            let (g1, c) = gen_expr(g0, cond);
            lemma_gen_expr_halt_free(g0, cond);
            let gi1 = emit(g1, InstrV::IfGoto { cond: c, label: l_body });
            lemma_emit_halt_free(g1, InstrV::IfGoto { cond: c, label: l_body });
            let gi2 = emit(gi1, InstrV::Goto(l_end));
            lemma_emit_halt_free(gi1, InstrV::Goto(l_end));
            let g2 = emit(gi2, InstrV::Label(l_body));
            lemma_emit_halt_free(gi2, InstrV::Label(l_body));
            let g3 = gen_stmts(g2, body);
            lemma_gen_stmts_halt_free(g2, body);
            lemma_emit_halt_free(g3, InstrV::Goto(l_start));
            lemma_emit_halt_free(emit(g3, InstrV::Goto(l_start)), InstrV::Label(l_end));
        },
        StmtV::If { cond, then_body, else_body } => {
            let l_then = label_name(g.labels);
            let l_else = label_name(g.labels + 1);
            let l_end = label_name(g.labels + 2);
            let ga = GenV { labels: g.labels + 3, ..g };
            let (g1, c) = gen_expr(ga, cond);
            lemma_gen_expr_halt_free(ga, cond);
            let gi1 = emit(g1, InstrV::IfGoto { cond: c, label: l_then });
            lemma_emit_halt_free(g1, InstrV::IfGoto { cond: c, label: l_then });
            let gi2 = emit(gi1, InstrV::Goto(l_else));
            lemma_emit_halt_free(gi1, InstrV::Goto(l_else));
            let g2 = emit(gi2, InstrV::Label(l_then));
            lemma_emit_halt_free(gi2, InstrV::Label(l_then));
            let g3 = gen_stmts(g2, then_body);
            lemma_gen_stmts_halt_free(g2, then_body);
            let gk = emit(g3, InstrV::Goto(l_end));
            lemma_emit_halt_free(g3, InstrV::Goto(l_end));
            let g4 = emit(gk, InstrV::Label(l_else));
            lemma_emit_halt_free(gk, InstrV::Label(l_else));
            let g5 = match else_body {
                Some(b) => {
                    lemma_gen_stmts_halt_free(g4, b);
                    gen_stmts(g4, b)
                },
                None => g4,
            };
            lemma_emit_halt_free(g5, InstrV::Goto(l_end));
            lemma_emit_halt_free(emit(g5, InstrV::Goto(l_end)), InstrV::Label(l_end));
        },
    }
}

/// Generating code for statements adds no `halt`: compiled code never
/// halts except by running past its end or returning.
pub proof fn lemma_gen_stmts_halt_free(g: GenV, ss: Seq<StmtV>)
    requires
        halt_free(g.instrs),
    ensures
        halt_free(gen_stmts(g, ss).instrs),
    decreases ss,
{
    if ss.len() > 0 {
        lemma_gen_stmts_halt_free(g, ss.drop_last());
        lemma_gen_stmt_halt_free(gen_stmts(g, ss.drop_last()), ss.last());
    }
}

} // verus!

//! What it means for a witness to satisfy a PLONK system, and why rewriting an R1CS keeps its
//! solutions.
use vstd::prelude::*;

use crate::field::{eqp, lemma_eqp_add, lemma_eqp_mul, lemma_eqp_sub, lemma_residue_eqp, residue};
use crate::plonk2pil::r1cs::{
    coef, lc_eval, lc_eval_below, n_signal_ids, r1cs_holds, R1csConstraint, R1csFile,
};
use crate::plonk2pil::to_plonk::{
    fold_gate, fold_pair, fold_terms, joined, lc_type, lemma_fold_grows, lemma_prefix_grows,
    mul_gate, padded_term, plonk_prefix, plonk_system, terms, terms_below, with_constraint,
    with_mul, with_sum, LcType, PlonkAddition, PlonkConstraint, PlonkSystem,
};

verus! {

/// The left-hand side of a gate under the witness `w`.
pub open spec fn gate_value(c: PlonkConstraint, w: spec_fn(u64) -> int) -> int {
    c[3] * (w(c[0]) * w(c[1])) + c[4] * w(c[0]) + c[5] * w(c[1]) + c[6] * w(c[2]) + c[7]
}

/// The witness `w` satisfies a gate.
pub open spec fn gate_holds(c: PlonkConstraint, w: spec_fn(u64) -> int) -> bool {
    residue(gate_value(c, w)) == 0
}

/// The witness `w` satisfies every gate.
pub open spec fn gates_hold(cs: Seq<PlonkConstraint>, w: spec_fn(u64) -> int) -> bool {
    forall|i: int| 0 <= i < cs.len() ==> gate_holds(#[trigger] cs[i], w)
}

/// The variable `so` has the value that the addition prescribes.
pub open spec fn addition_holds(a: PlonkAddition, so: u64, w: spec_fn(u64) -> int) -> bool {
    eqp(w(so), a[2] * w(a[0]) + a[3] * w(a[1]))
}

/// Every addition defines its variable; the additions number their variables from `first` on.
pub open spec fn additions_hold(
    adds: Seq<PlonkAddition>,
    first: int,
    w: spec_fn(u64) -> int,
) -> bool {
    forall|i: int|
        0 <= i < adds.len() ==> addition_holds(#[trigger] adds[i], (first + i) as u64, w)
}

/// The witness `w` satisfies every constraint of the R1CS.
pub open spec fn r1cs_satisfied(r1cs: R1csFile, w: spec_fn(u64) -> int) -> bool {
    forall|i: int|
        0 <= i < r1cs.constraints@.len() ==> r1cs_holds(#[trigger] r1cs.constraints@[i], w)
}

/// The value of a list of terms.
spec fn terms_sum(t: Seq<(u32, u64)>, w: spec_fn(u64) -> int) -> int
    decreases t.len(),
{
    if t.len() == 0 {
        0
    } else {
        terms_sum(t.drop_last(), w) + t.last().1 * w(t.last().0 as u64)
    }
}

proof fn lemma_terms_sum_push(t: Seq<(u32, u64)>, x: (u32, u64), w: spec_fn(u64) -> int)
    ensures
        terms_sum(t.push(x), w) == terms_sum(t, w) + x.1 * w(x.0 as u64),
{
    assert(t.push(x).drop_last() =~= t);
}

proof fn lemma_terms_sum_front(t: Seq<(u32, u64)>, w: spec_fn(u64) -> int)
    requires
        t.len() >= 1,
    ensures
        terms_sum(t, w) == t[0].1 * w(t[0].0 as u64) + terms_sum(t.skip(1), w),
    decreases t.len(),
{
    if t.len() == 1 {
        assert(t.skip(1) =~= Seq::empty());
        assert(t.drop_last() =~= Seq::empty());
        assert(terms_sum(t.drop_last(), w) == 0);
    } else {
        lemma_terms_sum_front(t.drop_last(), w);
        assert(t.skip(1).drop_last() =~= t.drop_last().skip(1));
        assert(t.skip(1).last() == t.last());
    }
}

proof fn lemma_eval_terms(m: Map<u32, u64>, w: spec_fn(u64) -> int, n: nat)
    requires
        1 <= n <= n_signal_ids(),
    ensures
        lc_eval_below(m, w, n) == coef(m, 0) * w(0) + terms_sum(terms_below(m, n), w),
    decreases n,
{
    if n == 1 {
        assert(lc_eval_below(m, w, 0) == 0);
        assert(lc_eval_below(m, w, 1) == lc_eval_below(m, w, 0) + coef(m, 0) * w(0));
        assert(terms_below(m, 0) =~= Seq::empty());
        assert(terms_below(m, 1) =~= Seq::empty());
        assert(terms_sum(Seq::<(u32, u64)>::empty(), w) == 0);
    } else {
        lemma_eval_terms(m, w, (n - 1) as nat);
        let s = (n - 1) as u32;
        let v = w(s as u64);
        if m.dom().contains(s) && m[s] != 0 {
            lemma_terms_sum_push(terms_below(m, (n - 1) as nat), (s, m[s]), w);
        } else {
            assert(coef(m, s) == 0);
            assert(0 * v == 0) by (nonlinear_arith);
        }
    }
}

/// A folding gate holds exactly where the fresh variable is the sum it stands for.
proof fn lemma_fold_gate(l: (u32, u64), r: (u32, u64), so: u64, w: spec_fn(u64) -> int)
    ensures
        gate_holds(fold_gate(l, r, so), w) <==> addition_holds(
            [l.0 as u64, r.0 as u64, l.1, r.1],
            so,
            w,
        ),
{
    let x = w(l.0 as u64);
    let y = w(r.0 as u64);
    let z = w(so);
    let nl = residue(-(l.1 as int));
    let nr = residue(-(r.1 as int));
    lemma_residue_eqp(-(l.1 as int));
    lemma_residue_eqp(-(r.1 as int));
    lemma_eqp_mul(nl, -(l.1 as int), x, x);
    lemma_eqp_mul(nr, -(r.1 as int), y, y);
    assert((-(l.1 as int)) * x == -(l.1 * x)) by (nonlinear_arith);
    assert((-(r.1 as int)) * y == -(r.1 * y)) by (nonlinear_arith);
    let g = fold_gate(l, r, so);
    let v = gate_value(g, w);
    assert(g[0] == l.0 && g[1] == r.0 && g[2] == so);
    assert(g[3] == 0 && g[4] == nl && g[5] == nr && g[6] == 1 && g[7] == 0);
    assert(g[3] * (x * y) == 0) by (nonlinear_arith)
        requires
            g[3] == 0,
    ;
    assert(g[6] * z == z) by (nonlinear_arith)
        requires
            g[6] == 1,
    ;
    assert(v == nl * x + nr * y + z);
    lemma_eqp_add(nl * x, -(l.1 * x), nr * y, -(r.1 * y));
    let sum = l.1 * x + r.1 * y;
    lemma_eqp_add(nl * x + nr * y, -sum, z, z);
    assert(eqp(v, z - sum));
    if residue(v) == 0 {
        assert(residue(z - sum) == 0);
        lemma_eqp_add(z - sum, 0, sum, sum);
    }
    if eqp(z, sum) {
        lemma_eqp_sub(z, sum, sum, sum);
    }
    let a: PlonkAddition = [l.0 as u64, r.0 as u64, l.1, r.1];
    assert(a[0] == l.0 && a[1] == r.0 && a[2] == l.1 && a[3] == r.1);
}

/// `big` extends `small` at the end, and the extra additions number exactly the extra variables.
pub open spec fn extends(big: PlonkSystem, small: PlonkSystem) -> bool {
    &&& small.constraints.len() <= big.constraints.len()
    &&& small.additions.len() <= big.additions.len()
    &&& big.constraints.take(small.constraints.len() as int) == small.constraints
    &&& big.additions.take(small.additions.len() as int) == small.additions
    &&& big.n_vars - small.n_vars == big.additions.len() - small.additions.len()
}

proof fn lemma_extends_trans(a: PlonkSystem, b: PlonkSystem, c: PlonkSystem)
    requires
        extends(a, b),
        extends(b, c),
    ensures
        extends(a, c),
{
    let nc = c.constraints.len() as int;
    let na = c.additions.len() as int;
    assert(a.constraints.take(nc) =~= a.constraints.take(b.constraints.len() as int).take(nc));
    assert(a.additions.take(na) =~= a.additions.take(b.additions.len() as int).take(na));
}

proof fn lemma_fold_extends(t: Seq<(u32, u64)>, max_c: nat, sys: PlonkSystem)
    ensures
        extends(fold_terms(t, max_c, sys).1, sys),
    decreases t.len(),
{
    if t.len() <= max_c || t.len() < 2 {
        assert(sys.constraints.take(sys.constraints.len() as int) =~= sys.constraints);
        assert(sys.additions.take(sys.additions.len() as int) =~= sys.additions);
    } else {
        let next = fold_pair(sys, t[0], t[1]);
        lemma_fold_extends(t.skip(2).push((sys.n_vars as u32, 1u64)), max_c, next);
        assert(next.constraints.take(sys.constraints.len() as int) =~= sys.constraints);
        assert(next.additions.take(sys.additions.len() as int) =~= sys.additions);
        lemma_extends_trans(
            fold_terms(t.skip(2).push((sys.n_vars as u32, 1u64)), max_c, next).1,
            next,
            sys,
        );
    }
}

/// Gates of `big` that `small` does not have all hold.
spec fn new_gates_hold(big: PlonkSystem, small: PlonkSystem, w: spec_fn(u64) -> int) -> bool {
    forall|i: int|
        small.constraints.len() <= i < big.constraints.len() ==> gate_holds(
            #[trigger] big.constraints[i],
            w,
        )
}

/// The additions of `big` that `small` does not have all hold.
spec fn new_additions_hold(big: PlonkSystem, small: PlonkSystem, w: spec_fn(u64) -> int) -> bool {
    forall|i: int|
        small.additions.len() <= i < big.additions.len() ==> addition_holds(
            #[trigger] big.additions[i],
            (small.n_vars + (i - small.additions.len())) as u64,
            w,
        )
}

/// Folding keeps the value of the terms wherever the folding gates hold, and those hold exactly
/// where the additions do.
proof fn lemma_fold_sum(
    t: Seq<(u32, u64)>,
    max_c: nat,
    sys: PlonkSystem,
    w: spec_fn(u64) -> int,
)
    requires
        0 <= sys.n_vars,
        fold_terms(t, max_c, sys).1.n_vars <= u32::MAX,
    ensures
        new_gates_hold(fold_terms(t, max_c, sys).1, sys, w) <==> new_additions_hold(
            fold_terms(t, max_c, sys).1,
            sys,
            w,
        ),
        new_gates_hold(fold_terms(t, max_c, sys).1, sys, w) ==> eqp(
            terms_sum(fold_terms(t, max_c, sys).0, w),
            terms_sum(t, w),
        ),
    decreases t.len(),
{
    if !(t.len() <= max_c || t.len() < 2) {
        let so = sys.n_vars as u32;
        let u = t.skip(2).push((so, 1u64));
        let next = fold_pair(sys, t[0], t[1]);
        let (tt, end) = fold_terms(u, max_c, next);
        lemma_fold_grows(u, max_c, next);
        lemma_fold_sum(u, max_c, next, w);
        lemma_fold_extends(u, max_c, next);
        let g = fold_gate(t[0], t[1], so as u64);
        let a: PlonkAddition = [t[0].0 as u64, t[1].0 as u64, t[0].1, t[1].1];
        lemma_fold_gate(t[0], t[1], so as u64, w);
        let nc = sys.constraints.len() as int;
        let na = sys.additions.len() as int;
        assert(end.constraints[nc] == end.constraints.take(nc + 1)[nc]);
        assert(end.constraints[nc] == g);
        assert(end.additions[na] == end.additions.take(na + 1)[na]);
        assert(end.additions[na] == a);
        assert(new_gates_hold(end, sys, w) <==> gate_holds(g, w) && new_gates_hold(end, next, w))
            by {
            if gate_holds(g, w) && new_gates_hold(end, next, w) {
                assert forall|i: int| nc <= i < end.constraints.len() implies gate_holds(
                    #[trigger] end.constraints[i],
                    w,
                ) by {
                    if i == nc {
                        assert(end.constraints[i] == g);
                    }
                }
            }
            if new_gates_hold(end, sys, w) {
                assert(gate_holds(end.constraints[nc], w));
            }
        }
        assert(new_additions_hold(end, sys, w) <==> addition_holds(a, so as u64, w)
            && new_additions_hold(end, next, w)) by {
            if addition_holds(a, so as u64, w) && new_additions_hold(end, next, w) {
                assert forall|i: int| na <= i < end.additions.len() implies addition_holds(
                    #[trigger] end.additions[i],
                    (sys.n_vars + (i - na)) as u64,
                    w,
                ) by {
                    if i == na {
                        assert(end.additions[i] == a);
                    } else {
                        assert(next.n_vars + (i - next.additions.len()) == sys.n_vars + (i - na));
                    }
                }
            }
            if new_additions_hold(end, sys, w) {
                assert(addition_holds(end.additions[na], (sys.n_vars + (na - na)) as u64, w));
                assert forall|i: int|
                    next.additions.len() <= i < end.additions.len() implies addition_holds(
                    #[trigger] end.additions[i],
                    (next.n_vars + (i - next.additions.len())) as u64,
                    w,
                ) by {
                    assert(next.n_vars + (i - next.additions.len()) == sys.n_vars + (i - na));
                }
            }
        }
        if new_gates_hold(end, sys, w) {
            lemma_terms_sum_front(t, w);
            lemma_terms_sum_front(t.skip(1), w);
            assert(t.skip(1).skip(1) =~= t.skip(2));
            lemma_terms_sum_push(t.skip(2), (so, 1u64), w);
            let rest = terms_sum(t.skip(2), w);
            lemma_eqp_add(
                w(so as u64),
                t[0].1 * w(t[0].0 as u64) + t[1].1 * w(t[1].0 as u64),
                rest,
                rest,
            );
            assert(1 * w(so as u64) == w(so as u64));
            assert(eqp(terms_sum(u, w), terms_sum(t, w)));
        }
    }
}

/// The value of at most three padded terms is their sum.
proof fn lemma_padded_sum(t: Seq<(u32, u64)>, w: spec_fn(u64) -> int)
    requires
        t.len() <= 3,
    ensures
        terms_sum(t, w) == padded_term(t, 0).1 * w(padded_term(t, 0).0 as u64) + padded_term(
            t,
            1,
        ).1 * w(padded_term(t, 1).0 as u64) + padded_term(t, 2).1 * w(
            padded_term(t, 2).0 as u64,
        ),
{
    let z = w(0);
    assert(0 * z == 0) by (nonlinear_arith);
    reveal_with_fuel(terms_sum, 4);
    if t.len() >= 1 {
        assert(t.drop_last().len() == t.len() - 1);
    }
}

proof fn lemma_fold_len(t: Seq<(u32, u64)>, max_c: nat, sys: PlonkSystem)
    requires
        max_c >= 1,
    ensures
        fold_terms(t, max_c, sys).0.len() <= max_c,
    decreases t.len(),
{
    if !(t.len() <= max_c || t.len() < 2) {
        lemma_fold_len(
            t.skip(2).push((sys.n_vars as u32, 1u64)),
            max_c,
            fold_pair(sys, t[0], t[1]),
        );
    }
}

/// What `with_sum` emits: its gates hold exactly where its additions hold and the linear
/// combination is zero.
proof fn lemma_with_sum(m: Map<u32, u64>, sys: PlonkSystem, w: spec_fn(u64) -> int)
    requires
        w(0) == 1,
        0 <= sys.n_vars,
        with_sum(m, sys).n_vars <= u32::MAX,
    ensures
        extends(with_sum(m, sys), sys),
        new_gates_hold(with_sum(m, sys), sys, w) <==> new_additions_hold(
            with_sum(m, sys),
            sys,
            w,
        ) && residue(lc_eval(m, w)) == 0,
{
    let (t, s1) = fold_terms(terms(m), 3, sys);
    let end = with_sum(m, sys);
    lemma_fold_extends(terms(m), 3, sys);
    assert(end.constraints.take(s1.constraints.len() as int) =~= s1.constraints);
    assert(end.additions.take(s1.additions.len() as int) =~= s1.additions);
    lemma_extends_trans(end, s1, sys);
    lemma_fold_sum(terms(m), 3, sys, w);
    lemma_fold_len(terms(m), 3, sys);
    lemma_padded_sum(t, w);
    lemma_eval_terms(m, w, n_signal_ids());
    let g = end.constraints[s1.constraints.len() as int];
    let k = coef(m, 0);
    lemma_residue_eqp(k);
    let x = w(padded_term(t, 0).0 as u64);
    let y = w(padded_term(t, 1).0 as u64);
    assert(0 * (x * y) == 0) by (nonlinear_arith);
    assert(gate_value(g, w) == terms_sum(t, w) + residue(k));
    lemma_eqp_add(terms_sum(t, w), terms_sum(t, w), residue(k), k);
    assert(new_gates_hold(end, sys, w) <==> new_gates_hold(s1, sys, w) && gate_holds(g, w)) by {
        if new_gates_hold(end, sys, w) {
            assert(gate_holds(end.constraints[s1.constraints.len() as int], w));
            assert forall|i: int|
                sys.constraints.len() <= i < s1.constraints.len() implies gate_holds(
                #[trigger] s1.constraints[i],
                w,
            ) by {
                assert(end.constraints[i] == s1.constraints[i]);
            }
        }
        if new_gates_hold(s1, sys, w) && gate_holds(g, w) {
            assert forall|i: int|
                sys.constraints.len() <= i < end.constraints.len() implies gate_holds(
                #[trigger] end.constraints[i],
                w,
            ) by {
                if i < s1.constraints.len() {
                    assert(end.constraints[i] == s1.constraints[i]);
                }
            }
        }
    }
    assert(new_additions_hold(end, sys, w) <==> new_additions_hold(s1, sys, w));
    if new_gates_hold(s1, sys, w) {
        lemma_eqp_add(terms_sum(t, w), terms_sum(terms(m), w), residue(k), k);
        assert(eqp(gate_value(g, w), lc_eval(m, w)));
    }
}

/// A joined linear combination evaluates to `k * m1 - m2`.
proof fn lemma_joined_eval(
    m1: Map<u32, u64>,
    k: u64,
    m2: Map<u32, u64>,
    w: spec_fn(u64) -> int,
    n: nat,
)
    requires
        n <= n_signal_ids(),
    ensures
        eqp(
            lc_eval_below(joined(m1, k, m2), w, n),
            k * lc_eval_below(m1, w, n) - lc_eval_below(m2, w, n),
        ),
    decreases n,
{
    if n == 0 {
        assert(k * 0 == 0) by (nonlinear_arith);
    } else {
        lemma_joined_eval(m1, k, m2, w, (n - 1) as nat);
        let s = (n - 1) as u32;
        let v = w(s as u64);
        let c1 = coef(m1, s);
        let c2 = coef(m2, s);
        let cj = coef(joined(m1, k, m2), s);
        lemma_residue_eqp(k * c1 - c2);
        assert(eqp(cj, k * c1 - c2)) by {
            if !m1.dom().contains(s) && !m2.dom().contains(s) {
                assert(k * 0 == 0) by (nonlinear_arith);
            }
        }
        lemma_eqp_mul(cj, k * c1 - c2, v, v);
        let e1 = lc_eval_below(m1, w, (n - 1) as nat);
        let e2 = lc_eval_below(m2, w, (n - 1) as nat);
        let ej = lc_eval_below(joined(m1, k, m2), w, (n - 1) as nat);
        lemma_eqp_add(ej, k * e1 - e2, cj * v, (k * c1 - c2) * v);
        assert(k * e1 - e2 + (k * c1 - c2) * v == k * (e1 + c1 * v) - (e2 + c2 * v))
            by (nonlinear_arith);
    }
}

/// `x * y = z` over field elements given up to congruence.
proof fn lemma_mul_gate_value(
    x: (u32, u64),
    ka: int,
    y: (u32, u64),
    kb: int,
    z: (u32, u64),
    kc: int,
    w: spec_fn(u64) -> int,
)
    ensures
        eqp(
            gate_value(mul_gate(x, ka, y, kb, z, kc), w),
            (x.1 * w(x.0 as u64) + ka) * (y.1 * w(y.0 as u64) + kb) - (z.1 * w(z.0 as u64) + kc),
        ),
{
    let g = mul_gate(x, ka, y, kb, z, kc);
    let wx = w(x.0 as u64);
    let wy = w(y.0 as u64);
    let wz = w(z.0 as u64);
    let xy = x.1 * y.1;
    let xb = x.1 * kb;
    let ay = ka * y.1;
    let nz = -(z.1 as int);
    lemma_residue_eqp(xy);
    lemma_residue_eqp(xb);
    lemma_residue_eqp(ay);
    lemma_residue_eqp(nz);
    lemma_residue_eqp(ka * kb);
    lemma_residue_eqp(-kc);
    lemma_residue_eqp(residue(ka * kb) + residue(-kc));
    lemma_eqp_add(residue(ka * kb), ka * kb, residue(-kc), -kc);
    assert(g[0] == x.0 && g[1] == y.0 && g[2] == z.0);
    assert(g[3] == residue(xy) && g[4] == residue(xb) && g[5] == residue(ay));
    assert(g[6] == residue(nz) && g[7] == residue(residue(ka * kb) + residue(-kc)));
    lemma_eqp_mul(residue(xy), xy, wx * wy, wx * wy);
    lemma_eqp_mul(residue(xb), xb, wx, wx);
    lemma_eqp_mul(residue(ay), ay, wy, wy);
    lemma_eqp_mul(residue(nz), nz, wz, wz);
    lemma_eqp_add(residue(xy) * (wx * wy), xy * (wx * wy), residue(xb) * wx, xb * wx);
    lemma_eqp_add(
        residue(xy) * (wx * wy) + residue(xb) * wx,
        xy * (wx * wy) + xb * wx,
        residue(ay) * wy,
        ay * wy,
    );
    lemma_eqp_add(
        residue(xy) * (wx * wy) + residue(xb) * wx + residue(ay) * wy,
        xy * (wx * wy) + xb * wx + ay * wy,
        residue(nz) * wz,
        nz * wz,
    );
    lemma_eqp_add(
        residue(xy) * (wx * wy) + residue(xb) * wx + residue(ay) * wy + residue(nz) * wz,
        xy * (wx * wy) + xb * wx + ay * wy + nz * wz,
        residue(residue(ka * kb) + residue(-kc)),
        ka * kb - kc,
    );
    lemma_mul_expand(x.1 as int, y.1 as int, z.1 as int, ka, kb, kc, wx, wy, wz);
}

proof fn lemma_mul_expand(
    x: int,
    y: int,
    z: int,
    ka: int,
    kb: int,
    kc: int,
    wx: int,
    wy: int,
    wz: int,
)
    ensures
        (x * y) * (wx * wy) + (x * kb) * wx + (ka * y) * wy + (-z) * wz + (ka * kb - kc) == (x * wx
            + ka) * (y * wy + kb) - (z * wz + kc),
{
    assert((x * y) * (wx * wy) == (x * wx) * (y * wy)) by (nonlinear_arith);
    assert((x * kb) * wx == (x * wx) * kb) by (nonlinear_arith);
    assert((ka * y) * wy == ka * (y * wy)) by (nonlinear_arith);
    assert((-z) * wz == -(z * wz)) by (nonlinear_arith);
    let p = x * wx;
    let q = y * wy;
    assert((p + ka) * (q + kb) == p * q + p * kb + ka * q + ka * kb) by (nonlinear_arith);
}

/// The value of one linear combination after folding to a single term.
proof fn lemma_single(
    m: Map<u32, u64>,
    sys: PlonkSystem,
    w: spec_fn(u64) -> int,
)
    requires
        w(0) == 1,
        0 <= sys.n_vars,
        fold_terms(terms(m), 1, sys).1.n_vars <= u32::MAX,
    ensures
        extends(fold_terms(terms(m), 1, sys).1, sys),
        new_gates_hold(fold_terms(terms(m), 1, sys).1, sys, w) <==> new_additions_hold(
            fold_terms(terms(m), 1, sys).1,
            sys,
            w,
        ),
        new_gates_hold(fold_terms(terms(m), 1, sys).1, sys, w) ==> eqp(
            padded_term(fold_terms(terms(m), 1, sys).0, 0).1 * w(
                padded_term(fold_terms(terms(m), 1, sys).0, 0).0 as u64,
            ) + residue(coef(m, 0)),
            lc_eval(m, w),
        ),
{
    let (t, s1) = fold_terms(terms(m), 1, sys);
    lemma_fold_extends(terms(m), 1, sys);
    lemma_fold_sum(terms(m), 1, sys, w);
    lemma_fold_len(terms(m), 1, sys);
    lemma_padded_sum(t, w);
    let z = w(0);
    assert(0 * z == 0) by (nonlinear_arith);
    lemma_eval_terms(m, w, n_signal_ids());
    lemma_residue_eqp(coef(m, 0));
    if new_gates_hold(s1, sys, w) {
        lemma_eqp_add(
            terms_sum(t, w),
            terms_sum(terms(m), w),
            residue(coef(m, 0)),
            coef(m, 0),
        );
    }
}

/// New gates and additions over two steps are those of each step.
proof fn lemma_new_split(c: PlonkSystem, b: PlonkSystem, a: PlonkSystem, w: spec_fn(u64) -> int)
    requires
        extends(c, b),
        extends(b, a),
    ensures
        new_gates_hold(c, a, w) <==> new_gates_hold(c, b, w) && new_gates_hold(b, a, w),
        new_additions_hold(c, a, w) <==> new_additions_hold(c, b, w) && new_additions_hold(
            b,
            a,
            w,
        ),
{
    assert forall|i: int| 0 <= i < b.constraints.len() implies #[trigger] b.constraints[i]
        == c.constraints[i] by {
        assert(c.constraints.take(b.constraints.len() as int)[i] == c.constraints[i]);
    }
    assert forall|i: int| 0 <= i < b.additions.len() implies #[trigger] b.additions[i]
        == c.additions[i] by {
        assert(c.additions.take(b.additions.len() as int)[i] == c.additions[i]);
    }
    if new_gates_hold(c, a, w) {
        assert forall|i: int| a.constraints.len() <= i < b.constraints.len() implies gate_holds(
            #[trigger] b.constraints[i],
            w,
        ) by {
            assert(gate_holds(c.constraints[i], w));
        }
    }
    if new_gates_hold(c, b, w) && new_gates_hold(b, a, w) {
        assert forall|i: int| a.constraints.len() <= i < c.constraints.len() implies gate_holds(
            #[trigger] c.constraints[i],
            w,
        ) by {
            if i < b.constraints.len() {
                assert(gate_holds(b.constraints[i], w));
            }
        }
    }
    if new_additions_hold(c, a, w) {
        assert forall|i: int| b.additions.len() <= i < c.additions.len() implies addition_holds(
            #[trigger] c.additions[i],
            (b.n_vars + (i - b.additions.len())) as u64,
            w,
        ) by {
            assert(b.n_vars + (i - b.additions.len()) == a.n_vars + (i - a.additions.len()));
        }
        assert forall|i: int| a.additions.len() <= i < b.additions.len() implies addition_holds(
            #[trigger] b.additions[i],
            (a.n_vars + (i - a.additions.len())) as u64,
            w,
        ) by {
            assert(addition_holds(
                c.additions[i],
                (a.n_vars + (i - a.additions.len())) as u64,
                w,
            ));
        }
    }
    if new_additions_hold(c, b, w) && new_additions_hold(b, a, w) {
        assert forall|i: int| a.additions.len() <= i < c.additions.len() implies addition_holds(
            #[trigger] c.additions[i],
            (a.n_vars + (i - a.additions.len())) as u64,
            w,
        ) by {
            if i < b.additions.len() {
                assert(addition_holds(
                    b.additions[i],
                    (a.n_vars + (i - a.additions.len())) as u64,
                    w,
                ));
            } else {
                assert(b.n_vars + (i - b.additions.len()) == a.n_vars + (i - a.additions.len()));
            }
        }
    }
}

proof fn lemma_with_mul(
    a: Map<u32, u64>,
    b: Map<u32, u64>,
    c: Map<u32, u64>,
    sys: PlonkSystem,
    w: spec_fn(u64) -> int,
)
    requires
        w(0) == 1,
        0 <= sys.n_vars,
        with_mul(a, b, c, sys).n_vars <= u32::MAX,
    ensures
        extends(with_mul(a, b, c, sys), sys),
        new_gates_hold(with_mul(a, b, c, sys), sys, w) <==> new_additions_hold(
            with_mul(a, b, c, sys),
            sys,
            w,
        ) && residue(lc_eval(a, w) * lc_eval(b, w) - lc_eval(c, w)) == 0,
{
    let (ta, s1) = fold_terms(terms(a), 1, sys);
    let (tb, s2) = fold_terms(terms(b), 1, s1);
    let (tc, s3) = fold_terms(terms(c), 1, s2);
    let end = with_mul(a, b, c, sys);
    lemma_fold_grows(terms(a), 1, sys);
    lemma_fold_grows(terms(b), 1, s1);
    lemma_fold_grows(terms(c), 1, s2);
    lemma_single(a, sys, w);
    lemma_single(b, s1, w);
    lemma_single(c, s2, w);
    let g = end.constraints[s3.constraints.len() as int];
    assert(end.constraints.take(s3.constraints.len() as int) =~= s3.constraints);
    assert(end.additions.take(s3.additions.len() as int) =~= s3.additions);
    assert(extends(end, s3));
    lemma_extends_trans(s2, s1, sys);
    lemma_extends_trans(s3, s2, sys);
    lemma_extends_trans(end, s3, sys);
    lemma_new_split(s2, s1, sys, w);
    lemma_new_split(s3, s2, sys, w);
    lemma_new_split(end, s3, sys, w);
    assert(new_gates_hold(end, s3, w) <==> gate_holds(g, w)) by {
        if gate_holds(g, w) {
            assert forall|i: int|
                s3.constraints.len() <= i < end.constraints.len() implies gate_holds(
                #[trigger] end.constraints[i],
                w,
            ) by {
                assert(i == s3.constraints.len());
            }
        }
    }
    assert(new_additions_hold(end, s3, w));
    let x = padded_term(ta, 0);
    let y = padded_term(tb, 0);
    let z = padded_term(tc, 0);
    let ka = residue(coef(a, 0));
    let kb = residue(coef(b, 0));
    let kc = residue(coef(c, 0));
    lemma_mul_gate_value(x, ka, y, kb, z, kc, w);
    if new_gates_hold(s3, sys, w) {
        let va = x.1 * w(x.0 as u64) + ka;
        let vb = y.1 * w(y.0 as u64) + kb;
        let vc = z.1 * w(z.0 as u64) + kc;
        lemma_eqp_mul(va, lc_eval(a, w), vb, lc_eval(b, w));
        lemma_eqp_sub(va * vb, lc_eval(a, w) * lc_eval(b, w), vc, lc_eval(c, w));
        assert(eqp(gate_value(g, w), lc_eval(a, w) * lc_eval(b, w) - lc_eval(c, w)));
    }
}

/// A linear combination without non-constant terms evaluates to its constant.
proof fn lemma_no_terms(m: Map<u32, u64>, w: spec_fn(u64) -> int)
    requires
        w(0) == 1,
        terms(m).len() == 0,
    ensures
        lc_eval(m, w) == coef(m, 0),
{
    lemma_eval_terms(m, w, n_signal_ids());
    assert(terms_sum(terms(m), w) == 0);
}

/// Gates of one R1CS constraint hold exactly where its additions and the constraint hold.
proof fn lemma_constraint_equivalent(
    c: R1csConstraint,
    sys: PlonkSystem,
    w: spec_fn(u64) -> int,
)
    requires
        w(0) == 1,
        0 <= sys.n_vars,
        with_constraint(c, sys).n_vars <= u32::MAX,
    ensures
        extends(with_constraint(c, sys), sys),
        new_gates_hold(with_constraint(c, sys), sys, w) <==> new_additions_hold(
            with_constraint(c, sys),
            sys,
            w,
        ) && r1cs_holds(c, w),
{
    let ea = lc_eval(c.a@, w);
    let eb = lc_eval(c.b@, w);
    let ec = lc_eval(c.c@, w);
    if lc_type(c.a@) == LcType::Zero || lc_type(c.b@) == LcType::Zero {
        lemma_with_sum(c.c@, sys, w);
        let zero = if lc_type(c.a@) == LcType::Zero {
            c.a@
        } else {
            c.b@
        };
        lemma_no_terms(zero, w);
        let other = if lc_type(c.a@) == LcType::Zero {
            eb
        } else {
            ea
        };
        let z = lc_eval(zero, w);
        lemma_eqp_mul(z, 0, other, other);
        assert(z * other == ea * eb) by (nonlinear_arith)
            requires
                (z == ea && other == eb) || (z == eb && other == ea),
        ;
        assert(0 * other == 0) by (nonlinear_arith);
        lemma_eqp_sub(ea * eb, 0, ec, ec);
        assert(eqp(ea * eb - ec, -ec));
        lemma_neg_zero(ec);
    } else if lc_type(c.a@) == LcType::Constant {
        let k = coef(c.a@, 0) as u64;
        lemma_no_terms(c.a@, w);
        lemma_with_sum(joined(c.b@, k, c.c@), sys, w);
        lemma_joined_eval(c.b@, k, c.c@, w, n_signal_ids());
    } else if lc_type(c.b@) == LcType::Constant {
        let k = coef(c.b@, 0) as u64;
        lemma_no_terms(c.b@, w);
        lemma_with_sum(joined(c.a@, k, c.c@), sys, w);
        lemma_joined_eval(c.a@, k, c.c@, w, n_signal_ids());
        assert(ea * eb == k * ea) by (nonlinear_arith)
            requires
                eb == k,
        ;
    } else {
        lemma_with_mul(c.a@, c.b@, c.c@, sys, w);
    }
}

proof fn lemma_neg_zero(x: int)
    ensures
        residue(-x) == 0 <==> residue(x) == 0,
{
    if residue(x) == 0 {
        lemma_eqp_sub(0, 0, x, 0);
    }
    if residue(-x) == 0 {
        lemma_eqp_sub(0, 0, -x, 0);
    }
}

proof fn lemma_prefix_equivalent(r1cs: R1csFile, n: nat, w: spec_fn(u64) -> int)
    requires
        w(0) == 1,
        n <= r1cs.constraints@.len(),
        plonk_prefix(r1cs, n).n_vars <= u32::MAX,
    ensures
        plonk_prefix(r1cs, n).n_vars == r1cs.header.n_vars + plonk_prefix(r1cs, n).additions.len(),
        gates_hold(plonk_prefix(r1cs, n).constraints, w) <==> additions_hold(
            plonk_prefix(r1cs, n).additions,
            r1cs.header.n_vars as int,
            w,
        ) && forall|i: int|
            0 <= i < n ==> r1cs_holds(#[trigger] r1cs.constraints@[i], w),
    decreases n,
{
    if n > 0 {
        let prev = plonk_prefix(r1cs, (n - 1) as nat);
        let end = plonk_prefix(r1cs, n);
        let c = r1cs.constraints@[n - 1];
        lemma_prefix_grows(r1cs, (n - 1) as nat, n);
        lemma_prefix_grows(r1cs, 0, (n - 1) as nat);
        lemma_prefix_equivalent(r1cs, (n - 1) as nat, w);
        lemma_constraint_equivalent(c, prev, w);
        let zero = plonk_prefix(r1cs, 0);
        assert(prev.constraints.take(0) =~= Seq::empty());
        assert(prev.additions.take(0) =~= Seq::empty());
        assert(extends(prev, zero));
        lemma_extends_trans(end, prev, zero);
        lemma_new_split(end, prev, zero, w);
        assert(new_gates_hold(end, zero, w) <==> gates_hold(end.constraints, w));
        assert(new_gates_hold(prev, zero, w) <==> gates_hold(prev.constraints, w));
        lemma_all_additions(end, zero, w);
        lemma_all_additions(prev, zero, w);
        if forall|i: int| 0 <= i < n ==> r1cs_holds(#[trigger] r1cs.constraints@[i], w) {
            assert(r1cs_holds(r1cs.constraints@[n - 1], w));
        }
        if r1cs_holds(c, w) && forall|i: int|
            0 <= i < n - 1 ==> r1cs_holds(#[trigger] r1cs.constraints@[i], w) {
            assert forall|i: int| 0 <= i < n implies r1cs_holds(
                #[trigger] r1cs.constraints@[i],
                w,
            ) by {
                if i == n - 1 {
                    assert(r1cs.constraints@[i] == c);
                }
            }
        }
    }
}

proof fn lemma_all_additions(big: PlonkSystem, zero: PlonkSystem, w: spec_fn(u64) -> int)
    requires
        zero.additions.len() == 0,
    ensures
        new_additions_hold(big, zero, w) <==> additions_hold(big.additions, zero.n_vars, w),
{
    if new_additions_hold(big, zero, w) {
        assert forall|i: int| 0 <= i < big.additions.len() implies addition_holds(
            #[trigger] big.additions[i],
            (zero.n_vars + i) as u64,
            w,
        ) by {
            assert(zero.n_vars + (i - zero.additions.len()) == zero.n_vars + i);
        }
    }
    if additions_hold(big.additions, zero.n_vars, w) {
        assert forall|i: int|
            zero.additions.len() <= i < big.additions.len() implies addition_holds(
            #[trigger] big.additions[i],
            (zero.n_vars + (i - zero.additions.len())) as u64,
            w,
        ) by {
            assert(zero.n_vars + (i - zero.additions.len()) == zero.n_vars + i);
        }
    }
}

/// Rewriting keeps the solutions: a witness (with signal 0 equal to one) satisfies every gate
/// exactly where it satisfies the R1CS and gives each introduced variable the value that its
/// addition prescribes.
pub proof fn law_plonk_equivalent(r1cs: R1csFile, w: spec_fn(u64) -> int)
    requires
        w(0) == 1,
        plonk_system(r1cs).n_vars <= u32::MAX,
    ensures
        gates_hold(plonk_system(r1cs).constraints, w) <==> r1cs_satisfied(r1cs, w)
            && additions_hold(plonk_system(r1cs).additions, r1cs.header.n_vars as int, w),
{
    lemma_prefix_equivalent(r1cs, r1cs.constraints@.len(), w);
}

/// Every addition introduces exactly one variable, numbered after the R1CS's own.
pub proof fn law_one_variable_per_addition(r1cs: R1csFile)
    requires
        plonk_system(r1cs).n_vars <= u32::MAX,
    ensures
        plonk_system(r1cs).n_vars == r1cs.header.n_vars + plonk_system(r1cs).additions.len(),
{
    lemma_prefix_equivalent(r1cs, r1cs.constraints@.len(), |i: u64| 1);
}

} // verus!

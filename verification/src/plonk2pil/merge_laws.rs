//! Why merging copies keeps the solutions of a PLONK system.
use vstd::prelude::*;

use crate::field::{
    eqp, lemma_eqp_add, lemma_eqp_mul, lemma_eqp_sub, lemma_residue_eqp, residue, GOLDILOCKS_P,
};
use crate::field_prime::law_no_zero_divisors;
use crate::plonk2pil::merge_copies::{
    exact_copy, is_merged_rep, law_copies_unified, law_only_copies_merge, law_pinned_stay,
    mergeable, renamed_addition, renamed_gate, rep, rep_after, surviving,
};
use crate::plonk2pil::satisfaction::{addition_holds, gate_holds, gate_value, gates_hold};
use crate::plonk2pil::to_plonk::{PlonkAddition, PlonkConstraint};

verus! {

/// Every operand is a signal id.
pub open spec fn operands_are_ids(cs: Seq<PlonkConstraint>) -> bool {
    forall|i: int, k: int| 0 <= i < cs.len() && 0 <= k < 3 ==> (#[trigger] cs[i][k]) <= u32::MAX
}

/// The witness gives every signal the value of its representative, as the connection argument
/// enforces once both are placed under one id.
pub open spec fn respects(
    cs: Seq<PlonkConstraint>,
    n_publics: u32,
    w: spec_fn(u64) -> int,
) -> bool {
    forall|x: u32| eqp(#[trigger] w(rep(cs, n_publics, x) as u64), w(x as u64))
}

/// An exact copy holds exactly where its two ends are equal.
pub proof fn law_copy_is_equality(c: PlonkConstraint, w: spec_fn(u64) -> int)
    requires
        exact_copy(c),
    ensures
        gate_holds(c, w) <==> eqp(w(c[0]), w(c[1])),
{
    let x = w(c[0]);
    let y = w(c[1]);
    let z = w(c[2]);
    let l = c[4] as int;
    let r = c[5] as int;
    assert(c[3] * (x * y) == 0) by (nonlinear_arith)
        requires
            c[3] == 0,
    ;
    assert(c[6] * z == 0) by (nonlinear_arith)
        requires
            c[6] == 0,
    ;
    assert(gate_value(c, w) == l * x + r * y);
    lemma_residue_eqp(-r);
    assert(eqp(l, -r));
    lemma_eqp_mul(l, -r, y, y);
    assert((-r) * y == -(r * y)) by (nonlinear_arith);
    lemma_eqp_sub(l * x, l * x, l * y, -(r * y));
    assert(l * x - l * y == l * (x - y)) by (nonlinear_arith);
    assert(eqp(l * (x - y), gate_value(c, w)));
    if gate_holds(c, w) {
        law_no_zero_divisors(l, x - y);
        vstd::arithmetic::div_mod::lemma_small_mod(l as nat, GOLDILOCKS_P as nat);
        lemma_eqp_add(x - y, 0, y, y);
    }
    if eqp(x, y) {
        lemma_eqp_sub(x, y, y, y);
        lemma_eqp_mul(l, l, x - y, 0);
        assert(l * 0 == 0) by (nonlinear_arith);
    }
}

/// Renaming operands to signals of the same value keeps a gate's value.
proof fn lemma_renamed_value(
    cs: Seq<PlonkConstraint>,
    n_publics: u32,
    c: PlonkConstraint,
    w: spec_fn(u64) -> int,
)
    requires
        respects(cs, n_publics, w),
        c[0] <= u32::MAX,
        c[1] <= u32::MAX,
        c[2] <= u32::MAX,
    ensures
        eqp(gate_value(renamed_gate(cs, n_publics, c), w), gate_value(c, w)),
{
    let d = renamed_gate(cs, n_publics, c);
    assert(d[0] == rep(cs, n_publics, c[0] as u32));
    assert(d[1] == rep(cs, n_publics, c[1] as u32));
    assert(d[2] == rep(cs, n_publics, c[2] as u32));
    assert(d[3] == c[3] && d[4] == c[4] && d[5] == c[5] && d[6] == c[6] && d[7] == c[7]);
    let x = w(c[0]);
    let y = w(c[1]);
    let z = w(c[2]);
    let x1 = w(d[0]);
    let y1 = w(d[1]);
    let z1 = w(d[2]);
    assert(eqp(w(rep(cs, n_publics, c[0] as u32) as u64), w((c[0] as u32) as u64)));
    assert(eqp(w(rep(cs, n_publics, c[1] as u32) as u64), w((c[1] as u32) as u64)));
    assert(eqp(w(rep(cs, n_publics, c[2] as u32) as u64), w((c[2] as u32) as u64)));
    assert(eqp(x1, x) && eqp(y1, y) && eqp(z1, z));
    lemma_eqp_mul(x1, x, y1, y);
    let m = c[3] as int;
    let l = c[4] as int;
    let r = c[5] as int;
    let o = c[6] as int;
    lemma_eqp_mul(m, m, x1 * y1, x * y);
    lemma_eqp_mul(l, l, x1, x);
    lemma_eqp_mul(r, r, y1, y);
    lemma_eqp_mul(o, o, z1, z);
    lemma_eqp_add(m * (x1 * y1), m * (x * y), l * x1, l * x);
    lemma_eqp_add(m * (x1 * y1) + l * x1, m * (x * y) + l * x, r * y1, r * y);
    lemma_eqp_add(
        m * (x1 * y1) + l * x1 + r * y1,
        m * (x * y) + l * x + r * y,
        o * z1,
        o * z,
    );
    lemma_eqp_add(
        m * (x1 * y1) + l * x1 + r * y1 + o * z1,
        m * (x * y) + l * x + r * y + o * z,
        c[7] as int,
        c[7] as int,
    );
}

/// Every element of a filtered sequence comes from the sequence, and every element that passes
/// is there.
proof fn lemma_filter_members<A>(s: Seq<A>, pred: spec_fn(A) -> bool)
    ensures
        forall|j: int|
            0 <= j < s.filter(pred).len() ==> pred(#[trigger] s.filter(pred)[j]) && s.contains(
                s.filter(pred)[j],
            ),
        forall|i: int|
            0 <= i < s.len() && pred(#[trigger] s[i]) ==> s.filter(pred).contains(s[i]),
    decreases s.len(),
{
    reveal(Seq::filter);
    if s.len() > 0 {
        let t = s.drop_last();
        lemma_filter_members(t, pred);
        let f = s.filter(pred);
        let g = t.filter(pred);
        assert forall|j: int| 0 <= j < f.len() implies pred(#[trigger] f[j]) && s.contains(
            f[j],
        ) by {
            if j < g.len() {
                assert(f[j] == g[j]);
                assert(t.contains(g[j]));
                let i = choose|i: int| 0 <= i < t.len() && t[i] == g[j];
                assert(s[i] == g[j]);
            } else {
                assert(f[j] == s.last());
                assert(s[s.len() - 1] == f[j]);
            }
        }
        assert forall|i: int| 0 <= i < s.len() && pred(#[trigger] s[i]) implies f.contains(
            s[i],
        ) by {
            if i < t.len() {
                assert(t[i] == s[i]);
                assert(g.contains(t[i]));
                let j = choose|j: int| 0 <= j < g.len() && g[j] == t[i];
                assert(f[j] == s[i]);
            } else {
                assert(f[f.len() - 1] == s[i]);
            }
        }
    }
}

/// Merging keeps the solutions: a witness satisfies every gate exactly where it satisfies every
/// surviving gate and gives each signal the value of its representative.
pub proof fn law_merge_equivalent(
    cs: Seq<PlonkConstraint>,
    n_publics: u32,
    w: spec_fn(u64) -> int,
)
    requires
        operands_are_ids(cs),
    ensures
        gates_hold(cs, w) <==> gates_hold(surviving(cs, n_publics), w) && respects(
            cs,
            n_publics,
            w,
        ),
{
    let pred = |c: PlonkConstraint| !mergeable(c, n_publics);
    let ren = |c: PlonkConstraint| renamed_gate(cs, n_publics, c);
    let kept = cs.filter(pred);
    let out = surviving(cs, n_publics);
    lemma_filter_members(cs, pred);
    assert(out == kept.map_values(ren));
    if gates_hold(cs, w) {
        let label = |x: u32| residue(w(x as u64));
        assert forall|i: int|
            0 <= i < cs.len() && mergeable(#[trigger] cs[i], n_publics) implies label(
            cs[i][0] as u32,
        ) == label(cs[i][1] as u32) by {
            law_copy_is_equality(cs[i], w);
            assert(cs[i][0] <= u32::MAX && cs[i][1] <= u32::MAX);
        }
        assert forall|x: u32| eqp(
            #[trigger] w(rep(cs, n_publics, x) as u64),
            w(x as u64),
        ) by {
            law_only_copies_merge(cs, n_publics, label, x);
            assert(label(rep(cs, n_publics, x)) == label(x));
        }
        assert forall|j: int| 0 <= j < out.len() implies gate_holds(#[trigger] out[j], w) by {
            assert(cs.contains(kept[j]));
            let i = choose|i: int| 0 <= i < cs.len() && cs[i] == kept[j];
            assert(cs[i][0] <= u32::MAX && cs[i][1] <= u32::MAX && cs[i][2] <= u32::MAX);
            lemma_renamed_value(cs, n_publics, cs[i], w);
            assert(gate_holds(cs[i], w));
        }
    }
    if gates_hold(out, w) && respects(cs, n_publics, w) {
        assert forall|i: int| 0 <= i < cs.len() implies gate_holds(#[trigger] cs[i], w) by {
            let c = cs[i];
            assert(cs[i][0] <= u32::MAX && cs[i][1] <= u32::MAX && cs[i][2] <= u32::MAX);
            if mergeable(c, n_publics) {
                law_copies_unified(cs, n_publics, i);
                assert(eqp(w(rep(cs, n_publics, c[0] as u32) as u64), w((c[0] as u32) as u64)));
                assert(eqp(w(rep(cs, n_publics, c[1] as u32) as u64), w((c[1] as u32) as u64)));
                law_copy_is_equality(c, w);
            } else {
                assert(pred(c));
                assert(kept.contains(c));
                let j = choose|j: int| 0 <= j < kept.len() && kept[j] == c;
                assert(out[j] == renamed_gate(cs, n_publics, c));
                assert(gate_holds(out[j], w));
                lemma_renamed_value(cs, n_publics, c, w);
            }
        }
    }
}

/// Merging keeps what an addition prescribes.
pub proof fn law_merge_keeps_additions(
    cs: Seq<PlonkConstraint>,
    n_publics: u32,
    a: PlonkAddition,
    so: u64,
    w: spec_fn(u64) -> int,
)
    requires
        respects(cs, n_publics, w),
        a[0] <= u32::MAX,
        a[1] <= u32::MAX,
    ensures
        addition_holds(renamed_addition(cs, n_publics, a), so, w) <==> addition_holds(a, so, w),
{
    let b = renamed_addition(cs, n_publics, a);
    assert(b[0] == rep(cs, n_publics, a[0] as u32));
    assert(b[1] == rep(cs, n_publics, a[1] as u32));
    assert(b[2] == a[2] && b[3] == a[3]);
    assert(eqp(w(rep(cs, n_publics, a[0] as u32) as u64), w((a[0] as u32) as u64)));
    assert(eqp(w(rep(cs, n_publics, a[1] as u32) as u64), w((a[1] as u32) as u64)));
    lemma_eqp_mul(a[2] as int, a[2] as int, w(b[0]), w(a[0]));
    lemma_eqp_mul(a[3] as int, a[3] as int, w(b[1]), w(a[1]));
    lemma_eqp_add(a[2] * w(b[0]), a[2] * w(a[0]), a[3] * w(b[1]), a[3] * w(a[1]));
}

proof fn lemma_not_mergeable_again(cs: Seq<PlonkConstraint>, n_publics: u32, c: PlonkConstraint)
    requires
        !mergeable(c, n_publics),
    ensures
        !mergeable(renamed_gate(cs, n_publics, c), n_publics),
{
    law_pinned_stay(cs, n_publics, cs.len(), c[0] as u32);
    law_pinned_stay(cs, n_publics, cs.len(), c[1] as u32);
}

proof fn lemma_nothing_renamed(cs: Seq<PlonkConstraint>, n_publics: u32, n: nat, x: u32)
    requires
        n <= cs.len(),
        forall|i: int| 0 <= i < cs.len() ==> !mergeable(#[trigger] cs[i], n_publics),
    ensures
        rep_after(cs, n_publics, n, x) == x,
    decreases n,
{
    if n > 0 {
        lemma_nothing_renamed(cs, n_publics, (n - 1) as nat, x);
        assert(!mergeable(cs[n - 1], n_publics));
    }
}

/// Merging twice is merging once: of what survives nothing is merged, and no signal is renamed.
pub proof fn law_merging_twice_is_once(cs: Seq<PlonkConstraint>, n_publics: u32, x: u32)
    ensures
        surviving(surviving(cs, n_publics), n_publics) == surviving(cs, n_publics),
        rep(surviving(cs, n_publics), n_publics, x) == x,
        !is_merged_rep(surviving(cs, n_publics), n_publics, x),
{
    let pred = |c: PlonkConstraint| !mergeable(c, n_publics);
    let out = surviving(cs, n_publics);
    let kept = cs.filter(pred);
    lemma_filter_members(cs, pred);
    assert forall|i: int| 0 <= i < out.len() implies !mergeable(#[trigger] out[i], n_publics) by {
        assert(kept.contains(kept[i]));
        lemma_not_mergeable_again(cs, n_publics, kept[i]);
    }
    assert forall|y: u32| #[trigger] rep(out, n_publics, y) == y by {
        lemma_nothing_renamed(out, n_publics, out.len(), y);
    }
    lemma_filter_all(out, pred);
    let again = surviving(out, n_publics);
    assert forall|i: int| 0 <= i < out.len() implies again[i] == out[i] by {
        let c = out[i];
        assert(c[0] <= u32::MAX && c[1] <= u32::MAX && c[2] <= u32::MAX);
        assert(renamed_gate(out, n_publics, c)@ =~= c@);
    }
    assert(again =~= out);
}

proof fn lemma_filter_all(v: Seq<PlonkConstraint>, pred: spec_fn(PlonkConstraint) -> bool)
    requires
        forall|i: int| 0 <= i < v.len() ==> pred(#[trigger] v[i]),
    ensures
        v.filter(pred) == v,
    decreases v.len(),
{
    reveal(Seq::filter);
    if v.len() > 0 {
        lemma_filter_all(v.drop_last(), pred);
        assert(v =~= v.drop_last().push(v.last()));
    } else {
        assert(v.filter(pred) =~= v);
    }
}

/// Merging never adds constraints.
pub proof fn law_merge_shrinks(cs: Seq<PlonkConstraint>, n_publics: u32)
    ensures
        surviving(cs, n_publics).len() <= cs.len(),
{
    cs.lemma_filter_len(|c: PlonkConstraint| !mergeable(c, n_publics));
}

} // verus!

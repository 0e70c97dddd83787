//! Rewriting R1CS constraints (`A * B = C`) as PLONK gates.
//!
//! A PLONK constraint `[sl, sr, so, qM, qL, qR, qO, qC]` stands for
//! `qM*sl*sr + qL*sl + qR*sr + qO*so + qC = 0`. A PLONK addition
//! `[sl, sr, coef_l, coef_r]` records a fresh variable equal to `coef_l*sl + coef_r*sr`.
use std::collections::HashMap;
use vstd::prelude::*;
use vstd::std_specs::iter::IteratorSpec;

use crate::field::{addp, mulp, neg, residue};
use crate::plonk2pil::r1cs::{
    coef, n_signal_ids, LinearCombination, R1csConstraint, R1csFile,
};
use crate::text::{hex, lemma_comma_splits, lemma_digits_injective, push_hex};

verus! {

broadcast use vstd::std_specs::hash::group_hash_axioms;

/// A PLONK constraint: `[sl, sr, so, qM, qL, qR, qO, qC]`.
pub type PlonkConstraint = [u64; 8];

/// A PLONK addition: `[sl, sr, coef_l, coef_r]`.
pub type PlonkAddition = [u64; 4];

/// The terms of a linear combination that are neither constant nor zero, by ascending signal,
/// restricted to signals below `n`.
pub open spec fn terms_below(m: Map<u32, u64>, n: nat) -> Seq<(u32, u64)>
    decreases n,
{
    if n == 0 {
        Seq::empty()
    } else {
        let rest = terms_below(m, (n - 1) as nat);
        let s = (n - 1) as u32;
        if s != 0 && m.dom().contains(s) && m[s] != 0 {
            rest.push((s, m[s]))
        } else {
            rest
        }
    }
}

/// The terms of a linear combination that are neither constant nor zero, by ascending signal.
pub open spec fn terms(m: Map<u32, u64>) -> Seq<(u32, u64)> {
    terms_below(m, n_signal_ids())
}

/// The PLONK system under construction: how many variables exist, and what was emitted so far.
pub struct PlonkSystem {
    pub n_vars: int,
    pub constraints: Seq<PlonkConstraint>,
    pub additions: Seq<PlonkAddition>,
}

/// A gate stating that the fresh variable `so` is `l.1 * l.0 + r.1 * r.0`.
pub open spec fn fold_gate(l: (u32, u64), r: (u32, u64), so: u64) -> PlonkConstraint {
    [
        l.0 as u64,
        r.0 as u64,
        so,
        0,
        residue(-(l.1 as int)) as u64,
        residue(-(r.1 as int)) as u64,
        1,
        0,
    ]
}

/// Replace two terms by one fresh variable.
pub open spec fn fold_pair(sys: PlonkSystem, l: (u32, u64), r: (u32, u64)) -> PlonkSystem {
    PlonkSystem {
        n_vars: sys.n_vars + 1,
        constraints: sys.constraints.push(fold_gate(l, r, sys.n_vars as u64)),
        additions: sys.additions.push([l.0 as u64, r.0 as u64, l.1, r.1]),
    }
}

/// Fold the two front terms into a fresh variable, queued at the back, until at most `max_c`
/// terms are left.
pub open spec fn fold_terms(t: Seq<(u32, u64)>, max_c: nat, sys: PlonkSystem) -> (
    Seq<(u32, u64)>,
    PlonkSystem,
)
    decreases t.len(),
{
    if t.len() <= max_c || t.len() < 2 {
        (t, sys)
    } else {
        fold_terms(t.skip(2).push((sys.n_vars as u32, 1u64)), max_c, fold_pair(sys, t[0], t[1]))
    }
}

/// The terms padded with zero terms up to `max_c` entries.
pub open spec fn padded_term(t: Seq<(u32, u64)>, i: int) -> (u32, u64) {
    if 0 <= i < t.len() {
        t[i]
    } else {
        (0u32, 0u64)
    }
}

/// `k * m1 - m2`, without zero entries.
pub open spec fn join_value(m1: Map<u32, u64>, k: u64, m2: Map<u32, u64>, s: u32) -> int {
    residue(k * coef(m1, s) - coef(m2, s))
}

/// A linear combination that stands for `k * m1 - m2`, entries reduced and non-zero.
pub open spec fn joined(m1: Map<u32, u64>, k: u64, m2: Map<u32, u64>) -> Map<u32, u64> {
    Map::new(
        |s: u32| (m1.dom().contains(s) || m2.dom().contains(s)) && join_value(m1, k, m2, s) != 0,
        |s: u32| join_value(m1, k, m2, s) as u64,
    )
}

/// What a linear combination amounts to.
#[derive(Clone, Copy, PartialEq, Eq, Structural, Debug)]
pub enum LcType {
    /// Zero for every witness.
    Zero,
    /// A non-zero constant.
    Constant,
    /// This many non-constant terms.
    Linear(usize),
}

/// What the linear combination `m` amounts to.
pub open spec fn lc_type(m: Map<u32, u64>) -> LcType {
    if terms(m).len() > 0 {
        LcType::Linear(terms(m).len() as usize)
    } else if residue(coef(m, 0)) != 0 {
        LcType::Constant
    } else {
        LcType::Zero
    }
}

/// Emit a gate stating that the linear combination `m` is zero.
pub open spec fn with_sum(m: Map<u32, u64>, sys: PlonkSystem) -> PlonkSystem {
    let (t, s1) = fold_terms(terms(m), 3, sys);
    let x = padded_term(t, 0);
    let y = padded_term(t, 1);
    let z = padded_term(t, 2);
    PlonkSystem {
        n_vars: s1.n_vars,
        constraints: s1.constraints.push(
            [
                x.0 as u64,
                y.0 as u64,
                z.0 as u64,
                0,
                x.1,
                y.1,
                z.1,
                residue(coef(m, 0)) as u64,
            ],
        ),
        additions: s1.additions,
    }
}

/// A gate stating `(x + ka) * (y + kb) = z + kc` for single terms `x`, `y` and `z`.
pub open spec fn mul_gate(
    x: (u32, u64),
    ka: int,
    y: (u32, u64),
    kb: int,
    z: (u32, u64),
    kc: int,
) -> PlonkConstraint {
    [
        x.0 as u64,
        y.0 as u64,
        z.0 as u64,
        residue(x.1 * y.1) as u64,
        residue(x.1 * kb) as u64,
        residue(ka * y.1) as u64,
        residue(-(z.1 as int)) as u64,
        residue(residue(ka * kb) + residue(-kc)) as u64,
    ]
}

/// Emit gates stating `a * b = c`.
pub open spec fn with_mul(
    a: Map<u32, u64>,
    b: Map<u32, u64>,
    c: Map<u32, u64>,
    sys: PlonkSystem,
) -> PlonkSystem {
    let (ta, s1) = fold_terms(terms(a), 1, sys);
    let (tb, s2) = fold_terms(terms(b), 1, s1);
    let (tc, s3) = fold_terms(terms(c), 1, s2);
    PlonkSystem {
        n_vars: s3.n_vars,
        constraints: s3.constraints.push(
            mul_gate(
                padded_term(ta, 0),
                residue(coef(a, 0)),
                padded_term(tb, 0),
                residue(coef(b, 0)),
                padded_term(tc, 0),
                residue(coef(c, 0)),
            ),
        ),
        additions: s3.additions,
    }
}

/// Emit gates of one R1CS constraint.
pub open spec fn with_constraint(c: R1csConstraint, sys: PlonkSystem) -> PlonkSystem {
    if lc_type(c.a@) == LcType::Zero || lc_type(c.b@) == LcType::Zero {
        with_sum(c.c@, sys)
    } else if lc_type(c.a@) == LcType::Constant {
        with_sum(joined(c.b@, coef(c.a@, 0) as u64, c.c@), sys)
    } else if lc_type(c.b@) == LcType::Constant {
        with_sum(joined(c.a@, coef(c.b@, 0) as u64, c.c@), sys)
    } else {
        with_mul(c.a@, c.b@, c.c@, sys)
    }
}

/// The PLONK system of the first `n` R1CS constraints.
pub open spec fn plonk_prefix(r1cs: R1csFile, n: nat) -> PlonkSystem
    decreases n,
{
    if n == 0 {
        PlonkSystem {
            n_vars: r1cs.header.n_vars as int,
            constraints: Seq::empty(),
            additions: Seq::empty(),
        }
    } else {
        with_constraint(r1cs.constraints[n - 1], plonk_prefix(r1cs, (n - 1) as nat))
    }
}

/// The PLONK system of an R1CS.
pub open spec fn plonk_system(r1cs: R1csFile) -> PlonkSystem {
    plonk_prefix(r1cs, r1cs.constraints@.len())
}

/// The keys of a linear combination, ascending.
fn sorted_keys(lc: &LinearCombination) -> (r: Vec<u32>)
    ensures
        forall|i: int, j: int| 0 <= i < j < r@.len() ==> r@[i] < r@[j],
        forall|s: u32| r@.contains(s) <==> lc@.dom().contains(s),
{
    let mut out: Vec<u32> = Vec::new();
    let keys = lc.keys();
    let ghost all = keys.remaining().unref();
    let ghost mut seen: int = 0;
    for k in it: keys
        invariant
            it.seq().unref() == all,
            it.seq().no_duplicates(),
            seen == it.index(),
            forall|i: int, j: int| 0 <= i < j < out@.len() ==> out@[i] < out@[j],
            forall|s: u32| out@.contains(s) <==> all.take(seen).contains(s),
            all.to_set() == lc@.dom(),
    {
        let key: u32 = *k;
        let ghost before = out@;
        let mut pos: usize = 0;
        while pos < out.len() && out[pos] < key
            invariant
                pos <= out@.len(),
                out@ == before,
                forall|i: int| 0 <= i < pos ==> out@[i] < key,
            decreases out@.len() - pos,
        {
            pos = pos + 1;
        }
        proof {
            let n = seen;
            assert(all[n] == key);
            assert(all.take(n + 1) =~= all.take(n).push(key));
            assert(!all.take(n).contains(key)) by {
                if all.take(n).contains(key) {
                    let j = choose|j: int| 0 <= j < n && all.take(n)[j] == key;
                    assert(it.seq()[j] == it.seq()[n]);
                }
            }
            assert(!before.contains(key));
        }
        out.insert(pos, key);
        proof {
            let n = seen;
            assert(out@ == before.insert(pos as int, key));
            if (pos as int) < before.len() {
                assert(before[pos as int] != key) by {
                    if before[pos as int] == key {
                        assert(before.contains(key));
                    }
                }
                assert(before[pos as int] > key);
            }
            assert forall|s: u32| out@.contains(s) <==> all.take(n + 1).contains(s) by {
                if out@.contains(s) {
                    let j = choose|j: int| 0 <= j < out@.len() && out@[j] == s;
                    if j < pos {
                        assert(before[j] == s);
                        assert(before.contains(s));
                    } else if j > pos {
                        assert(before[j - 1] == s);
                        assert(before.contains(s));
                    }
                    if s != key {
                        let q = choose|q: int| 0 <= q < n && all.take(n)[q] == s;
                        assert(all.take(n + 1)[q] == s);
                    } else {
                        assert(all.take(n + 1)[n] == s);
                    }
                }
                if all.take(n + 1).contains(s) {
                    if s == key {
                        assert(out@[pos as int] == s);
                    } else {
                        let upto = all.take(n + 1);
                        let q = choose|q: int| 0 <= q < upto.len() && upto[q] == s;
                        assert(all.take(n)[q] == s);
                        assert(before.contains(s));
                        let j = choose|j: int| 0 <= j < before.len() && before[j] == s;
                        if j < pos {
                            assert(out@[j] == s);
                        } else {
                            assert(out@[j + 1] == s);
                        }
                    }
                }
            }
            seen = seen + 1;
        }
    }
    proof {
        assert(all.take(seen) =~= all);
        assert forall|s: u32| out@.contains(s) <==> lc@.dom().contains(s) by {
            assert(all.contains(s) <==> all.to_set().contains(s));
        }
    }
    out
}

/// A strictly ascending list with exactly the terms below `n` is the list of terms below `n`.
proof fn lemma_terms_unique(m: Map<u32, u64>, t: Seq<(u32, u64)>, n: nat)
    requires
        n <= n_signal_ids(),
        forall|i: int, j: int| 0 <= i < j < t.len() ==> t[i].0 < t[j].0,
        forall|i: int| 0 <= i < t.len() ==> #[trigger] t[i].0 < n && t[i].0 != 0
            && m.dom().contains(t[i].0) && m[t[i].0] == t[i].1 && t[i].1 != 0,
        forall|s: u32|
            0 < s < n && m.dom().contains(s) && #[trigger] m[s] != 0 ==> t.contains((s, m[s])),
    ensures
        t == terms_below(m, n),
    decreases n,
{
    if n == 0 {
        if t.len() > 0 {
            assert(t[0].0 < n);
        }
        assert(t =~= Seq::empty());
    } else {
        let s = (n - 1) as u32;
        if s != 0 && m.dom().contains(s) && m[s] != 0 {
            assert(t.contains((s, m[s])));
            let k = choose|k: int| 0 <= k < t.len() && t[k] == (s, m[s]);
            assert(k == t.len() - 1) by {
                if k < t.len() - 1 {
                    assert(t[k].0 < t[t.len() - 1].0);
                    assert(t[t.len() - 1].0 < n);
                }
            }
            let u = t.drop_last();
            assert forall|i: int| 0 <= i < u.len() implies #[trigger] u[i].0 < n - 1 by {
                assert(t[i].0 < t[t.len() - 1].0);
            }
            assert forall|i: int| 0 <= i < u.len() implies #[trigger] u[i].0 < n - 1 && u[i].0 != 0
                && m.dom().contains(u[i].0) && m[u[i].0] == u[i].1 && u[i].1 != 0 by {
                assert(t[i] == u[i]);
            }
            assert forall|x: u32|
                0 < x < n - 1 && m.dom().contains(x) && #[trigger] m[x] != 0 implies u.contains(
                (x, m[x]),
            ) by {
                assert(t.contains((x, m[x])));
                let q = choose|q: int| 0 <= q < t.len() && t[q] == (x, m[x]);
                assert(u[q] == (x, m[x]));
            }
            lemma_terms_unique(m, u, (n - 1) as nat);
            assert(t =~= u.push((s, m[s])));
        } else {
            assert forall|i: int| 0 <= i < t.len() implies #[trigger] t[i].0 < n - 1 by {
                if t[i].0 == n - 1 {
                    assert(t[i].0 == s);
                }
            }
            lemma_terms_unique(m, t, (n - 1) as nat);
        }
    }
}

/// The terms of a linear combination that are neither constant nor zero, by ascending signal.
fn collect_terms(lc: &LinearCombination) -> (r: Vec<(u32, u64)>)
    ensures
        r@ == terms(lc@),
{
    let keys: Vec<u32> = sorted_keys(lc);
    let mut out: Vec<(u32, u64)> = Vec::new();
    let mut i: usize = 0;
    while i < keys.len()
        invariant
            i <= keys@.len(),
            forall|x: int, y: int| 0 <= x < y < keys@.len() ==> keys@[x] < keys@[y],
            forall|s: u32| keys@.contains(s) <==> lc@.dom().contains(s),
            forall|x: int, y: int| 0 <= x < y < out@.len() ==> out@[x].0 < out@[y].0,
            forall|x: int, y: int|
                0 <= x < out@.len() && i <= y < keys@.len() ==> #[trigger] out@[x].0
                    < #[trigger] keys@[y],
            forall|x: int|
                0 <= x < out@.len() ==> #[trigger] out@[x].0 != 0 && lc@.dom().contains(out@[x].0)
                    && lc@[out@[x].0] == out@[x].1 && out@[x].1 != 0,
            forall|x: int|
                0 <= x < i && #[trigger] keys@[x] != 0 && lc@[keys@[x]] != 0 ==> out@.contains(
                    (keys@[x], lc@[keys@[x]]),
                ),
        decreases keys@.len() - i,
    {
        let s: u32 = keys[i];
        proof {
            assert(keys@.contains(s));
        }
        let c: u64 = *lc.get(&s).unwrap();
        let ghost before = out@;
        if s != 0 && c != 0 {
            out.push((s, c));
            proof {
                assert(out@[before.len() as int] == (s, c));
                assert forall|x: int|
                    0 <= x < i + 1 && #[trigger] keys@[x] != 0 && lc@[keys@[x]]
                        != 0 implies out@.contains((keys@[x], lc@[keys@[x]])) by {
                    if x < i {
                        assert(before.contains((keys@[x], lc@[keys@[x]])));
                        let q = choose|q: int|
                            0 <= q < before.len() && before[q] == (keys@[x], lc@[keys@[x]]);
                        assert(out@[q] == before[q]);
                    }
                }
            }
        }
        i = i + 1;
    }
    proof {
        assert forall|s: u32|
            0 < s < n_signal_ids() && lc@.dom().contains(s) && #[trigger] lc@[s]
                != 0 implies out@.contains((s, lc@[s])) by {
            assert(keys@.contains(s));
            let q = choose|q: int| 0 <= q < keys@.len() && keys@[q] == s;
            assert(keys@[q] != 0);
        }
        lemma_terms_unique(lc@, out@, n_signal_ids());
    }
    out
}

/// The coefficient of the constant term.
fn constant_term(lc: &LinearCombination) -> (r: u64)
    ensures
        r == coef(lc@, 0),
{
    match lc.get(&0) {
        Some(v) => *v,
        None => 0,
    }
}

/// What a linear combination amounts to.
fn get_lc_type(lc: &LinearCombination) -> (r: LcType)
    ensures
        r == lc_type(lc@),
{
    let n: usize = collect_terms(lc).len();
    if n > 0 {
        return LcType::Linear(n);
    }
    let k: u64 = addp(0, constant_term(lc));
    if k != 0 {
        LcType::Constant
    } else {
        LcType::Zero
    }
}

/// A linear combination without its zero entries.
pub open spec fn normalized(m: Map<u32, u64>) -> Map<u32, u64> {
    Map::new(|s: u32| m.dom().contains(s) && m[s] != 0, |s: u32| m[s])
}

/// Drop the zero entries.
fn normalize(lc: &LinearCombination) -> (r: LinearCombination)
    ensures
        r@ == normalized(lc@),
{
    let keys: Vec<u32> = sorted_keys(lc);
    let mut out: LinearCombination = HashMap::new();
    let mut i: usize = 0;
    while i < keys.len()
        invariant
            i <= keys@.len(),
            forall|s: u32| keys@.contains(s) <==> lc@.dom().contains(s),
            forall|s: u32| #[trigger]
                out@.dom().contains(s) <==> keys@.take(i as int).contains(s) && lc@[s] != 0,
            forall|s: u32| #[trigger] out@.dom().contains(s) ==> out@[s] == lc@[s],
        decreases keys@.len() - i,
    {
        let s: u32 = keys[i];
        proof {
            assert(keys@.contains(s));
            assert(keys@.take(i + 1) =~= keys@.take(i as int).push(s));
        }
        let c: u64 = *lc.get(&s).unwrap();
        let ghost before = out@;
        if c != 0 {
            out.insert(s, c);
        }
        i = i + 1;
        proof {
            assert forall|x: u32| #[trigger]
                out@.dom().contains(x) <==> keys@.take(i as int).contains(x) && lc@[x] != 0 by {
                lemma_contains_push(keys@.take(i - 1), s, x);
            }
        }
    }
    proof {
        assert(keys@.take(i as int) =~= keys@);
        assert(out@ =~= normalized(lc@));
    }
    out
}

proof fn lemma_contains_push<A>(q: Seq<A>, a: A, x: A)
    ensures
        q.push(a).contains(x) <==> q.contains(x) || x == a,
{
    if q.contains(x) {
        let i = choose|i: int| 0 <= i < q.len() && q[i] == x;
        assert(q.push(a)[i] == x);
    }
    if x == a {
        assert(q.push(a)[q.len() as int] == x);
    }
    if q.push(a).contains(x) && x != a {
        let p = q.push(a);
        let i = choose|i: int| 0 <= i < p.len() && p[i] == x;
        assert(q[i] == x);
    }
}

/// The linear combination `k * lc1 - lc2`, entries reduced and non-zero.
fn join(lc1: &LinearCombination, k: u64, lc2: &LinearCombination) -> (r: LinearCombination)
    ensures
        r@ == joined(lc1@, k, lc2@),
{
    let mut res: LinearCombination = HashMap::new();
    let keys1: Vec<u32> = sorted_keys(lc1);
    let mut i: usize = 0;
    while i < keys1.len()
        invariant
            i <= keys1@.len(),
            forall|s: u32| keys1@.contains(s) <==> lc1@.dom().contains(s),
            forall|s: u32| #[trigger]
                res@.dom().contains(s) <==> keys1@.take(i as int).contains(s),
            forall|s: u32| #[trigger]
                res@.dom().contains(s) ==> res@[s] == residue(k * coef(lc1@, s)),
        decreases keys1@.len() - i,
    {
        let s: u32 = keys1[i];
        proof {
            assert(keys1@.contains(s));
            assert(keys1@.take(i + 1) =~= keys1@.take(i as int).push(s));
            assert forall|x: u32| #[trigger]
                keys1@.take(i + 1).contains(x) <==> keys1@.take(i as int).contains(x) || x == s by {
                lemma_contains_push(keys1@.take(i as int), s, x);
            }
        }
        let c: u64 = *lc1.get(&s).unwrap();
        res.insert(s, mulp(k, c));
        i = i + 1;
    }
    let ghost first = res@;
    proof {
        assert(keys1@.take(i as int) =~= keys1@);
        assert forall|s: u32| #[trigger] first.dom().contains(s) <==> lc1@.dom().contains(s) by {}
    }
    let keys2: Vec<u32> = sorted_keys(lc2);
    let mut j: usize = 0;
    while j < keys2.len()
        invariant
            j <= keys2@.len(),
            forall|x: int, y: int| 0 <= x < y < keys2@.len() ==> keys2@[x] < keys2@[y],
            forall|s: u32| keys2@.contains(s) <==> lc2@.dom().contains(s),
            forall|s: u32| #[trigger] first.dom().contains(s) <==> lc1@.dom().contains(s),
            forall|s: u32| #[trigger]
                first.dom().contains(s) ==> first[s] == residue(k * coef(lc1@, s)),
            forall|s: u32| #[trigger]
                res@.dom().contains(s) <==> first.dom().contains(s) || keys2@.take(
                    j as int,
                ).contains(s),
            forall|s: u32| #[trigger]
                res@.dom().contains(s) ==> res@[s] == if keys2@.take(j as int).contains(s) {
                    join_value(lc1@, k, lc2@, s)
                } else {
                    first[s] as int
                },
        decreases keys2@.len() - j,
    {
        let s: u32 = keys2[j];
        proof {
            assert(keys2@.contains(s));
            assert(keys2@.take(j + 1) =~= keys2@.take(j as int).push(s));
            assert forall|x: u32| #[trigger]
                keys2@.take(j + 1).contains(x) <==> keys2@.take(j as int).contains(x) || x == s by {
                lemma_contains_push(keys2@.take(j as int), s, x);
            }
            assert(!keys2@.take(j as int).contains(s));
        }
        let c: u64 = *lc2.get(&s).unwrap();
        let cur: u64 = match res.get(&s) {
            Some(v) => *v,
            None => 0,
        };
        proof {
            assert(cur == residue(k * coef(lc1@, s))) by {
                if !first.dom().contains(s) {
                    assert(k * 0 == 0) by (nonlinear_arith);
                }
            }
            lemma_join_value(k * coef(lc1@, s), c as int);
        }
        let n: u64 = addp(cur, neg(c));
        res.insert(s, n);
        j = j + 1;
    }
    proof {
        assert(keys2@.take(j as int) =~= keys2@);
        assert forall|s: u32| #[trigger] res@.dom().contains(s) implies res@[s] == join_value(
            lc1@,
            k,
            lc2@,
            s,
        ) by {}
        assert(normalized(res@) =~= joined(lc1@, k, lc2@));
    }
    normalize(&res)
}

proof fn lemma_join_value(x: int, c: int)
    ensures
        residue(residue(x) + residue(-c)) == residue(x - c),
{
    crate::field::lemma_residue_eqp(x);
    crate::field::lemma_residue_eqp(-c);
    crate::field::lemma_eqp_add(residue(x), x, residue(-c), -c);
}

/// A linear combination reduced to a constant and a bounded number of terms.
struct ReducedCoefs {
    k: u64,
    s: Vec<u32>,
    coefs: Vec<u64>,
}

/// The system as held by the two output lists and the variable counter.
spec fn system_of(n_vars: u32, cs: Seq<PlonkConstraint>, adds: Seq<PlonkAddition>) -> PlonkSystem {
    PlonkSystem { n_vars: n_vars as int, constraints: cs, additions: adds }
}

pub proof fn lemma_fold_grows(t: Seq<(u32, u64)>, max_c: nat, sys: PlonkSystem)
    ensures
        fold_terms(t, max_c, sys).1.n_vars >= sys.n_vars,
    decreases t.len(),
{
    if !(t.len() <= max_c || t.len() < 2) {
        lemma_fold_grows(
            t.skip(2).push((sys.n_vars as u32, 1u64)),
            max_c,
            fold_pair(sys, t[0], t[1]),
        );
    }
}

/// Reduce a linear combination to its constant and at most `max_c` terms, padded with zeros.
fn reduce_coefs(
    lc: &LinearCombination,
    max_c: usize,
    plonk_n_vars: &mut u32,
    plonk_constraints: &mut Vec<PlonkConstraint>,
    plonk_additions: &mut Vec<PlonkAddition>,
) -> (r: ReducedCoefs)
    requires
        max_c >= 1,
        fold_terms(
            terms(lc@),
            max_c as nat,
            system_of(*old(plonk_n_vars), old(plonk_constraints)@, old(plonk_additions)@),
        ).1.n_vars <= u32::MAX,
    ensures
        ({
            let (t, sys) = fold_terms(
                terms(lc@),
                max_c as nat,
                system_of(*old(plonk_n_vars), old(plonk_constraints)@, old(plonk_additions)@),
            );
            &&& sys == system_of(
                *final(plonk_n_vars),
                final(plonk_constraints)@,
                final(plonk_additions)@,
            )
            &&& r.k == residue(coef(lc@, 0))
            &&& r.s@.len() == max_c
            &&& r.coefs@.len() == max_c
            &&& forall|i: int|
                0 <= i < max_c ==> (#[trigger] r.s@[i], r.coefs@[i]) == padded_term(t, i)
        }),
{
    let k: u64 = addp(0, constant_term(lc));
    let mut cs: Vec<(u32, u64)> = collect_terms(lc);
    let ghost target = fold_terms(
        terms(lc@),
        max_c as nat,
        system_of(*plonk_n_vars, plonk_constraints@, plonk_additions@),
    );
    while cs.len() > max_c
        invariant
            max_c >= 1,
            target.1.n_vars <= u32::MAX,
            fold_terms(
                cs@,
                max_c as nat,
                system_of(*plonk_n_vars, plonk_constraints@, plonk_additions@),
            ) == target,
        decreases cs@.len(),
    {
        let ghost sys = system_of(*plonk_n_vars, plonk_constraints@, plonk_additions@);
        let ghost t = cs@;
        proof {
            lemma_fold_grows(
                t.skip(2).push((sys.n_vars as u32, 1u64)),
                max_c as nat,
                fold_pair(sys, t[0], t[1]),
            );
        }
        let c1: (u32, u64) = cs.remove(0);
        let c2: (u32, u64) = cs.remove(0);
        let so: u32 = *plonk_n_vars;
        *plonk_n_vars = *plonk_n_vars + 1;
        plonk_constraints.push(
            [c1.0 as u64, c2.0 as u64, so as u64, 0, neg(c1.1), neg(c2.1), 1, 0],
        );
        plonk_additions.push([c1.0 as u64, c2.0 as u64, c1.1, c2.1]);
        cs.push((so, 1));
        proof {
            assert(cs@ =~= t.skip(2).push((so, 1u64)));
            assert(system_of(*plonk_n_vars, plonk_constraints@, plonk_additions@) == fold_pair(
                sys,
                t[0],
                t[1],
            ));
        }
    }
    let mut s_vec: Vec<u32> = Vec::with_capacity(max_c);
    let mut coefs_vec: Vec<u64> = Vec::with_capacity(max_c);
    let mut i: usize = 0;
    while i < max_c
        invariant
            i <= max_c,
            s_vec@.len() == i,
            coefs_vec@.len() == i,
            forall|x: int|
                0 <= x < i ==> (#[trigger] s_vec@[x], coefs_vec@[x]) == padded_term(cs@, x),
        decreases max_c - i,
    {
        if i < cs.len() {
            s_vec.push(cs[i].0);
            coefs_vec.push(cs[i].1);
        } else {
            s_vec.push(0);
            coefs_vec.push(0);
        }
        i = i + 1;
    }
    ReducedCoefs { k, s: s_vec, coefs: coefs_vec }
}

/// Emit a gate stating that a linear combination is zero.
fn add_constraint_sum(
    lc: &LinearCombination,
    plonk_n_vars: &mut u32,
    plonk_constraints: &mut Vec<PlonkConstraint>,
    plonk_additions: &mut Vec<PlonkAddition>,
)
    requires
        with_sum(
            lc@,
            system_of(*old(plonk_n_vars), old(plonk_constraints)@, old(plonk_additions)@),
        ).n_vars <= u32::MAX,
    ensures
        system_of(*final(plonk_n_vars), final(plonk_constraints)@, final(plonk_additions)@)
            == with_sum(
            lc@,
            system_of(*old(plonk_n_vars), old(plonk_constraints)@, old(plonk_additions)@),
        ),
{
    let c: ReducedCoefs = reduce_coefs(lc, 3, plonk_n_vars, plonk_constraints, plonk_additions);
    plonk_constraints.push(
        [
            c.s[0] as u64,
            c.s[1] as u64,
            c.s[2] as u64,
            0,
            c.coefs[0],
            c.coefs[1],
            c.coefs[2],
            c.k,
        ],
    );
}

/// Emit gates stating `a * b = c`.
fn add_constraint_mul(
    lc_a: &LinearCombination,
    lc_b: &LinearCombination,
    lc_c: &LinearCombination,
    plonk_n_vars: &mut u32,
    plonk_constraints: &mut Vec<PlonkConstraint>,
    plonk_additions: &mut Vec<PlonkAddition>,
)
    requires
        with_mul(
            lc_a@,
            lc_b@,
            lc_c@,
            system_of(*old(plonk_n_vars), old(plonk_constraints)@, old(plonk_additions)@),
        ).n_vars <= u32::MAX,
    ensures
        system_of(*final(plonk_n_vars), final(plonk_constraints)@, final(plonk_additions)@)
            == with_mul(
            lc_a@,
            lc_b@,
            lc_c@,
            system_of(*old(plonk_n_vars), old(plonk_constraints)@, old(plonk_additions)@),
        ),
{
    proof {
        let sys = system_of(*plonk_n_vars, plonk_constraints@, plonk_additions@);
        let s1 = fold_terms(terms(lc_a@), 1, sys).1;
        let s2 = fold_terms(terms(lc_b@), 1, s1).1;
        lemma_fold_grows(terms(lc_b@), 1, s1);
        lemma_fold_grows(terms(lc_c@), 1, s2);
    }
    let a: ReducedCoefs = reduce_coefs(lc_a, 1, plonk_n_vars, plonk_constraints, plonk_additions);
    let b: ReducedCoefs = reduce_coefs(lc_b, 1, plonk_n_vars, plonk_constraints, plonk_additions);
    let c: ReducedCoefs = reduce_coefs(lc_c, 1, plonk_n_vars, plonk_constraints, plonk_additions);
    plonk_constraints.push(
        [
            a.s[0] as u64,
            b.s[0] as u64,
            c.s[0] as u64,
            mulp(a.coefs[0], b.coefs[0]),
            mulp(a.coefs[0], b.k),
            mulp(a.k, b.coefs[0]),
            neg(c.coefs[0]),
            addp(mulp(a.k, b.k), neg(c.k)),
        ],
    );
}

proof fn lemma_constraint_grows(c: R1csConstraint, sys: PlonkSystem)
    ensures
        with_constraint(c, sys).n_vars >= sys.n_vars,
{
    lemma_fold_grows(terms(c.c@), 3, sys);
    lemma_fold_grows(terms(joined(c.b@, coef(c.a@, 0) as u64, c.c@)), 3, sys);
    lemma_fold_grows(terms(joined(c.a@, coef(c.b@, 0) as u64, c.c@)), 3, sys);
    let s1 = fold_terms(terms(c.a@), 1, sys).1;
    let s2 = fold_terms(terms(c.b@), 1, s1).1;
    lemma_fold_grows(terms(c.a@), 1, sys);
    lemma_fold_grows(terms(c.b@), 1, s1);
    lemma_fold_grows(terms(c.c@), 1, s2);
}

pub proof fn lemma_prefix_grows(r1cs: R1csFile, i: nat, j: nat)
    requires
        i <= j,
    ensures
        plonk_prefix(r1cs, i).n_vars <= plonk_prefix(r1cs, j).n_vars,
    decreases j - i,
{
    if i < j {
        lemma_prefix_grows(r1cs, i, (j - 1) as nat);
        lemma_constraint_grows(r1cs.constraints[j - 1], plonk_prefix(r1cs, (j - 1) as nat));
    }
}

/// Rewrite every R1CS constraint as PLONK gates. Variables introduced on the way are numbered
/// from `n_vars` on, in the order of the additions; their count must fit the id type.
pub fn r1cs2plonk(r1cs: &R1csFile) -> (r: (Vec<PlonkConstraint>, Vec<PlonkAddition>))
    requires
        plonk_system(*r1cs).n_vars <= u32::MAX,
    ensures
        r.0@ == plonk_system(*r1cs).constraints,
        r.1@ == plonk_system(*r1cs).additions,
{
    let mut plonk_constraints: Vec<PlonkConstraint> = Vec::new();
    let mut plonk_additions: Vec<PlonkAddition> = Vec::new();
    let mut plonk_n_vars: u32 = r1cs.header.n_vars;
    let mut i: usize = 0;
    while i < r1cs.constraints.len()
        invariant
            i <= r1cs.constraints@.len(),
            plonk_system(*r1cs).n_vars <= u32::MAX,
            system_of(plonk_n_vars, plonk_constraints@, plonk_additions@) == plonk_prefix(
                *r1cs,
                i as nat,
            ),
        decreases r1cs.constraints@.len() - i,
    {
        let c: &R1csConstraint = &r1cs.constraints[i];
        proof {
            lemma_prefix_grows(*r1cs, (i + 1) as nat, r1cs.constraints@.len());
            assert(plonk_prefix(*r1cs, (i + 1) as nat) == with_constraint(
                r1cs.constraints[i as int],
                plonk_prefix(*r1cs, i as nat),
            ));
        }
        let type_a: LcType = get_lc_type(&c.a);
        let type_b: LcType = get_lc_type(&c.b);
        if type_a == LcType::Zero || type_b == LcType::Zero {
            add_constraint_sum(
                &c.c,
                &mut plonk_n_vars,
                &mut plonk_constraints,
                &mut plonk_additions,
            );
        } else if type_a == LcType::Constant {
            let cc: LinearCombination = join(&c.b, constant_term(&c.a), &c.c);
            add_constraint_sum(
                &cc,
                &mut plonk_n_vars,
                &mut plonk_constraints,
                &mut plonk_additions,
            );
        } else if type_b == LcType::Constant {
            let cc: LinearCombination = join(&c.a, constant_term(&c.b), &c.c);
            add_constraint_sum(
                &cc,
                &mut plonk_n_vars,
                &mut plonk_constraints,
                &mut plonk_additions,
            );
        } else {
            add_constraint_mul(
                &c.a,
                &c.b,
                &c.c,
                &mut plonk_n_vars,
                &mut plonk_constraints,
                &mut plonk_additions,
            );
        }
        i = i + 1;
    }
    (plonk_constraints, plonk_additions)
}

/// The hexadecimal texts of the five coefficients, separated by commas.
pub open spec fn key_text(c: PlonkConstraint) -> Seq<char> {
    hex(c[3] as nat) + seq![','] + (hex(c[4] as nat) + seq![','] + (hex(c[5] as nat) + seq![',']
        + (hex(c[6] as nat) + seq![','] + hex(c[7] as nat))))
}

/// The fingerprint of a constraint's coefficients.
pub fn ckey(c: &PlonkConstraint) -> (r: String)
    ensures
        r@ == key_text(*c),
{
    let mut out: String = String::new();
    push_hex(&mut out, c[3]);
    out.push(',');
    push_hex(&mut out, c[4]);
    out.push(',');
    push_hex(&mut out, c[5]);
    out.push(',');
    push_hex(&mut out, c[6]);
    out.push(',');
    push_hex(&mut out, c[7]);
    assert(out@ =~= key_text(*c));
    out
}

/// Two constraints have the same fingerprint exactly where their coefficients are the same.
pub proof fn law_ckey_injective(c: PlonkConstraint, d: PlonkConstraint)
    ensures
        key_text(c) == key_text(d) <==> c[3] == d[3] && c[4] == d[4] && c[5] == d[5] && c[6] == d[6]
            && c[7] == d[7],
{
    if key_text(c) == key_text(d) {
        let c6 = hex(c[6] as nat) + seq![','] + hex(c[7] as nat);
        let d6 = hex(d[6] as nat) + seq![','] + hex(d[7] as nat);
        let c5 = hex(c[5] as nat) + seq![','] + c6;
        let d5 = hex(d[5] as nat) + seq![','] + d6;
        let c4 = hex(c[4] as nat) + seq![','] + c5;
        let d4 = hex(d[4] as nat) + seq![','] + d5;
        lemma_comma_splits(c[3] as nat, c4, d[3] as nat, d4);
        lemma_comma_splits(c[4] as nat, c5, d[4] as nat, d5);
        lemma_comma_splits(c[5] as nat, c6, d[5] as nat, d6);
        lemma_comma_splits(c[6] as nat, hex(c[7] as nat), d[6] as nat, hex(d[7] as nat));
        lemma_digits_injective(c[7] as nat, d[7] as nat, 16);
    }
}

} // verus!

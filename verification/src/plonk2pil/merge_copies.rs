//! Copy-constraint elimination by merging signals.
//!
//! A gate `qL*sl + qR*sr = 0` with `qL = -qR` only states `sl = sr`. The connection argument
//! enforces equality between all cells that hold the same signal id, so once `sl` and `sr` share
//! one id that gate can be dropped. Scaled copies stay, and so do copies that touch the constant
//! one (id 0) or a public signal (ids `1..=n_publics`): those are bound to a witness value that
//! the connection argument cannot stand in for.
use std::collections::HashMap;
use vstd::prelude::*;
use vstd::string::StringExecFns;

use crate::field::{neg, residue};
use crate::plonk2pil::grid::grid;
use crate::plonk2pil::r1cs::R1csFile;
use crate::plonk2pil::to_plonk::{
    plonk_system, r1cs2plonk, PlonkAddition, PlonkConstraint,
};
use crate::text::{dec, push_dec};

verus! {

broadcast use vstd::std_specs::hash::group_hash_axioms;

/// The constraint is a pure exact copy `sl = sr`.
pub open spec fn exact_copy(c: PlonkConstraint) -> bool {
    &&& c[3] == 0
    &&& c[6] == 0
    &&& c[7] == 0
    &&& c[4] != 0
    &&& c[5] != 0
    &&& c[4] == residue(-(c[5] as int))
    &&& c[0] != c[1]
}

/// Is this constraint a pure exact copy `sl = sr`?
pub fn is_exact_copy(c: &PlonkConstraint) -> (r: bool)
    ensures
        r == exact_copy(*c),
{
    c[3] == 0 && c[6] == 0 && c[7] == 0 && c[4] != 0 && c[5] != 0 && c[4] == neg(c[5]) && c[0]
        != c[1]
}

/// The signal is the constant one or a public.
pub open spec fn is_pinned(id: u32, n_publics: u32) -> bool {
    id <= n_publics
}

/// The constraint is a copy that merging drops.
pub open spec fn mergeable(c: PlonkConstraint, n_publics: u32) -> bool {
    exact_copy(c) && (c[0] as u32 == c[1] as u32 || !is_pinned(c[0] as u32, n_publics)
        && !is_pinned(c[1] as u32, n_publics))
}

/// The representative of `x` once the mergeable copies among the first `n` constraints are
/// merged, the lower representative winning.
pub open spec fn rep_after(cs: Seq<PlonkConstraint>, n_publics: u32, n: nat, x: u32) -> u32
    decreases n,
{
    if n == 0 {
        x
    } else {
        let before = rep_after(cs, n_publics, (n - 1) as nat, x);
        let c = cs[n - 1];
        if mergeable(c, n_publics) {
            let a = rep_after(cs, n_publics, (n - 1) as nat, c[0] as u32);
            let b = rep_after(cs, n_publics, (n - 1) as nat, c[1] as u32);
            let lo = if a <= b {
                a
            } else {
                b
            };
            if before == a || before == b {
                lo
            } else {
                before
            }
        } else {
            before
        }
    }
}

/// The representative of `x` once all mergeable copies are merged.
pub open spec fn rep(cs: Seq<PlonkConstraint>, n_publics: u32, x: u32) -> u32 {
    rep_after(cs, n_publics, cs.len(), x)
}

/// A gate with its operands renamed to representatives.
pub open spec fn renamed_gate(
    cs: Seq<PlonkConstraint>,
    n_publics: u32,
    c: PlonkConstraint,
) -> PlonkConstraint {
    [
        rep(cs, n_publics, c[0] as u32) as u64,
        rep(cs, n_publics, c[1] as u32) as u64,
        rep(cs, n_publics, c[2] as u32) as u64,
        c[3],
        c[4],
        c[5],
        c[6],
        c[7],
    ]
}

/// The addition with its operands renamed to representatives.
pub open spec fn renamed_addition(
    cs: Seq<PlonkConstraint>,
    n_publics: u32,
    a: PlonkAddition,
) -> PlonkAddition {
    [rep(cs, n_publics, a[0] as u32) as u64, rep(cs, n_publics, a[1] as u32) as u64, a[2], a[3]]
}

/// The constraints that are not merged away, renamed, in order.
pub open spec fn surviving(cs: Seq<PlonkConstraint>, n_publics: u32) -> Seq<PlonkConstraint> {
    cs.filter(|c: PlonkConstraint| !mergeable(c, n_publics)).map_values(
        |c: PlonkConstraint| renamed_gate(cs, n_publics, c),
    )
}

/// `x` is the representative of some merged pair.
pub open spec fn is_merged_rep(cs: Seq<PlonkConstraint>, n_publics: u32, x: u32) -> bool {
    exists|i: int|
        0 <= i < cs.len() && mergeable(#[trigger] cs[i], n_publics) && rep(
            cs,
            n_publics,
            cs[i][0] as u32,
        ) == x
}

/// The largest id that occurs.
pub open spec fn max_id(
    cs: Seq<PlonkConstraint>,
    adds: Seq<PlonkAddition>,
    n_vars: u32,
    m: u32,
) -> bool {
    &&& n_vars <= m + 1
    &&& forall|i: int, k: int| 0 <= i < cs.len() && 0 <= k < 3 ==> (#[trigger] cs[i][k]) as u32 <= m
    &&& forall|i: int, k: int|
        0 <= i < adds.len() && 0 <= k < 2 ==> (#[trigger] adds[i][k]) as u32 <= m
    &&& m == 0 || n_vars == m + 1 || (exists|i: int, k: int|
        0 <= i < cs.len() && 0 <= k < 3 && (#[trigger] cs[i][k]) as u32 == m) || (exists|
        i: int,
        k: int,
    |
        0 <= i < adds.len() && 0 <= k < 2 && (#[trigger] adds[i][k]) as u32 == m)
}

/// Every signal id leaves room for a table with one entry per id.
pub open spec fn ids_fit(cs: Seq<PlonkConstraint>, adds: Seq<PlonkAddition>) -> bool {
    &&& forall|i: int, k: int|
        0 <= i < cs.len() && 0 <= k < 3 ==> (#[trigger] cs[i][k]) as u32 != u32::MAX
    &&& forall|i: int, k: int|
        0 <= i < adds.len() && 0 <= k < 2 ==> (#[trigger] adds[i][k]) as u32 != u32::MAX
}

/// Union-find over signal ids that refuses to merge pinned signals.
struct UnionFind {
    parent: Vec<u32>,
    pinned: Vec<bool>,
}

/// The root of `x` in a forest whose parents never have a larger id than their children.
spec fn root(parent: Seq<u32>, x: u32) -> u32
    decreases x,
{
    if x < parent.len() && parent[x as int] < x {
        root(parent, parent[x as int])
    } else {
        x
    }
}

proof fn lemma_root(parent: Seq<u32>, x: u32)
    requires
        x < parent.len(),
        forall|i: int| 0 <= i < parent.len() ==> #[trigger] parent[i] <= i,
    ensures
        root(parent, x) <= x,
        parent[root(parent, x) as int] == root(parent, x),
        root(parent, root(parent, x)) == root(parent, x),
    decreases x,
{
    if parent[x as int] < x {
        lemma_root(parent, parent[x as int]);
    } else {
        assert(parent[x as int] <= x);
    }
}

/// Pointing one id straight at its root keeps every root.
proof fn lemma_compress(parent: Seq<u32>, at: u32, x: u32)
    requires
        x < parent.len(),
        at < parent.len(),
        forall|i: int| 0 <= i < parent.len() ==> #[trigger] parent[i] <= i,
    ensures
        root(parent.update(at as int, root(parent, at)), x) == root(parent, x),
    decreases x,
{
    let next = parent.update(at as int, root(parent, at));
    lemma_root(parent, at);
    lemma_root(parent, x);
    if x == at {
        let r = root(parent, at);
        if r < x {
            lemma_compress(parent, at, r);
            assert(next[x as int] == r);
        }
    } else if parent[x as int] < x {
        lemma_compress(parent, at, parent[x as int]);
    }
}

/// Hanging the root `hi` below the root `lo` merges their two sets.
proof fn lemma_link(parent: Seq<u32>, lo: u32, hi: u32, x: u32)
    requires
        x < parent.len(),
        lo < hi < parent.len(),
        parent[lo as int] == lo,
        parent[hi as int] == hi,
        forall|i: int| 0 <= i < parent.len() ==> #[trigger] parent[i] <= i,
    ensures
        root(parent.update(hi as int, lo), x) == if root(parent, x) == hi {
            lo
        } else {
            root(parent, x)
        },
    decreases x,
{
    let next = parent.update(hi as int, lo);
    if x == hi {
        lemma_link(parent, lo, hi, lo);
        assert(next[x as int] == lo);
    } else if parent[x as int] < x {
        lemma_link(parent, lo, hi, parent[x as int]);
    }
}

impl UnionFind {
    spec fn wf(&self, n_publics: u32) -> bool {
        &&& self.parent@.len() == self.pinned@.len()
        &&& 0 < self.parent@.len() <= u32::MAX
        &&& forall|i: int| 0 <= i < self.parent@.len() ==> #[trigger] self.parent@[i] <= i
        &&& forall|i: int|
            0 <= i < self.pinned@.len() ==> #[trigger] self.pinned@[i] == is_pinned(
                i as u32,
                n_publics,
            )
    }

    spec fn rep_of(&self, x: u32) -> u32 {
        root(self.parent@, x)
    }

    fn new(max_id: u32, n_publics: u32) -> (uf: Self)
        requires
            max_id < u32::MAX,
        ensures
            uf.wf(n_publics),
            uf.parent@.len() == max_id + 1,
            forall|x: u32| x <= max_id ==> #[trigger] uf.rep_of(x) == x,
    {
        let size: usize = max_id as usize + 1;
        let mut parent: Vec<u32> = Vec::new();
        let mut pinned: Vec<bool> = Vec::new();
        let mut i: usize = 0;
        while i < size
            invariant
                i <= size,
                size == max_id + 1,
                size <= u32::MAX,
                parent@.len() == i,
                pinned@.len() == i,
                forall|j: int| 0 <= j < i ==> #[trigger] parent@[j] == j,
                forall|j: int|
                    0 <= j < i ==> #[trigger] pinned@[j] == is_pinned(j as u32, n_publics),
            decreases size - i,
        {
            parent.push(i as u32);
            pinned.push(i as u32 <= n_publics);
            i = i + 1;
        }
        UnionFind { parent, pinned }
    }

    fn find(&mut self, x: u32, Ghost(n_publics): Ghost<u32>) -> (r: u32)
        requires
            old(self).wf(n_publics),
            x < old(self).parent@.len(),
        ensures
            r == old(self).rep_of(x),
            r <= x,
            final(self).wf(n_publics),
            final(self).parent@.len() == old(self).parent@.len(),
            forall|y: u32|
                y < old(self).parent@.len() ==> #[trigger] final(self).rep_of(y) == old(self).rep_of(y),
            forall|i: int|
                0 <= i < old(self).parent@.len() && #[trigger] old(self).parent@[i] == i
                    ==> final(self).parent@[i] == i,
    {
        let mut top: u32 = x;
        proof {
            lemma_root(self.parent@, x);
        }
        while self.parent[top as usize] != top
            invariant
                self.wf(n_publics),
                *self == *old(self),
                top < self.parent@.len(),
                root(self.parent@, top) == root(self.parent@, x),
                top <= x,
            decreases top,
        {
            top = self.parent[top as usize];
        }
        proof {
            lemma_root(self.parent@, top);
        }
        let mut cur: u32 = x;
        while self.parent[cur as usize] != top
            invariant
                self.wf(n_publics),
                self.parent@.len() == old(self).parent@.len(),
                old(self).wf(n_publics),
                cur < self.parent@.len(),
                top < self.parent@.len(),
                self.parent@[top as int] == top,
                root(self.parent@, cur) == top,
                forall|y: u32|
                    y < self.parent@.len() ==> #[trigger] root(self.parent@, y) == root(
                        old(self).parent@,
                        y,
                    ),
                forall|i: int|
                    0 <= i < old(self).parent@.len() && #[trigger] old(self).parent@[i] == i
                        ==> self.parent@[i] == i,
            decreases cur,
        {
            let next: u32 = self.parent[cur as usize];
            let ghost before = self.parent@;
            proof {
                lemma_root(before, cur);
                assert(next <= cur);
                assert(next != cur) by {
                    if next == cur {
                        assert(root(before, cur) == cur);
                    }
                }
            }
            self.parent[cur as usize] = top;
            proof {
                assert(self.parent@ == before.update(cur as int, root(before, cur)));
                assert forall|y: u32| y < self.parent@.len() implies #[trigger] root(
                    self.parent@,
                    y,
                ) == root(old(self).parent@, y) by {
                    lemma_compress(before, cur, y);
                    assert(root(before, y) == root(old(self).parent@, y));
                }
                assert(root(before, next) == top);
                lemma_compress(before, cur, next);
            }
            cur = next;
        }
        top
    }

    /// Merge the sets of `x` and `y`; refuse, and return false, where they differ and one of
    /// their representatives is pinned.
    fn union(&mut self, x: u32, y: u32, Ghost(n_publics): Ghost<u32>) -> (r: bool)
        requires
            old(self).wf(n_publics),
            x < old(self).parent@.len(),
            y < old(self).parent@.len(),
        ensures
            final(self).wf(n_publics),
            final(self).parent@.len() == old(self).parent@.len(),
            ({
                let a = old(self).rep_of(x);
                let b = old(self).rep_of(y);
                let lo = if a <= b {
                    a
                } else {
                    b
                };
                &&& r == (a == b || !is_pinned(a, n_publics) && !is_pinned(b, n_publics))
                &&& forall|z: u32|
                    z < old(self).parent@.len() ==> #[trigger] final(self).rep_of(z) == if r && (
                    old(self).rep_of(z) == a || old(self).rep_of(z) == b) {
                        lo
                    } else {
                        old(self).rep_of(z)
                    }
            }),
    {
        proof {
            lemma_root(self.parent@, x);
            lemma_root(self.parent@, y);
        }
        let rx: u32 = self.find(x, Ghost(n_publics));
        let ghost mid = *self;
        let ry: u32 = self.find(y, Ghost(n_publics));
        if rx == ry {
            return true;
        }
        if self.pinned[rx as usize] || self.pinned[ry as usize] {
            return false;
        }
        let (keep, gone): (u32, u32) = if rx <= ry {
            (rx, ry)
        } else {
            (ry, rx)
        };
        let ghost second = *self;
        let ghost before = self.parent@;
        self.parent[gone as usize] = keep;
        proof {
            assert forall|z: u32| z < before.len() implies #[trigger] root(self.parent@, z) == if root(
                old(self).parent@,
                z,
            ) == rx || root(old(self).parent@, z) == ry {
                keep
            } else {
                root(old(self).parent@, z)
            } by {
                lemma_link(before, keep, gone, z);
                assert(mid.rep_of(z) == old(self).rep_of(z));
                assert(second.rep_of(z) == mid.rep_of(z));
            }
        }
        true
    }
}

/// A pinned signal is never renamed, and never represents another.
pub proof fn law_pinned_stay(cs: Seq<PlonkConstraint>, n_publics: u32, n: nat, x: u32)
    ensures
        is_pinned(x, n_publics) ==> rep_after(cs, n_publics, n, x) == x,
        is_pinned(rep_after(cs, n_publics, n, x), n_publics) ==> rep_after(cs, n_publics, n, x)
            == x,
    decreases n,
{
    if n > 0 {
        let c = cs[n - 1];
        let m = (n - 1) as nat;
        law_pinned_stay(cs, n_publics, m, x);
        law_pinned_stay(cs, n_publics, m, c[0] as u32);
        law_pinned_stay(cs, n_publics, m, c[1] as u32);
    }
}

/// A representative never exceeds the signal it stands for.
pub proof fn law_rep_lowers(cs: Seq<PlonkConstraint>, n_publics: u32, n: nat, x: u32)
    ensures
        rep_after(cs, n_publics, n, x) <= x,
    decreases n,
{
    if n > 0 {
        law_rep_lowers(cs, n_publics, (n - 1) as nat, x);
    }
}

/// Renaming twice is renaming once.
pub proof fn law_rep_idempotent(cs: Seq<PlonkConstraint>, n_publics: u32, n: nat, x: u32)
    ensures
        rep_after(cs, n_publics, n, rep_after(cs, n_publics, n, x)) == rep_after(
            cs,
            n_publics,
            n,
            x,
        ),
    decreases n,
{
    if n > 0 {
        let m = (n - 1) as nat;
        let c = cs[n - 1];
        law_rep_idempotent(cs, n_publics, m, x);
        law_rep_idempotent(cs, n_publics, m, c[0] as u32);
        law_rep_idempotent(cs, n_publics, m, c[1] as u32);
    }
}

proof fn lemma_unified(cs: Seq<PlonkConstraint>, n_publics: u32, i: int, n: nat)
    requires
        0 <= i < n <= cs.len(),
        mergeable(cs[i], n_publics),
    ensures
        rep_after(cs, n_publics, n, cs[i][0] as u32) == rep_after(
            cs,
            n_publics,
            n,
            cs[i][1] as u32,
        ),
    decreases n,
{
    if i < n - 1 {
        lemma_unified(cs, n_publics, i, (n - 1) as nat);
    }
}

/// The two ends of a merged copy share their representative.
pub proof fn law_copies_unified(cs: Seq<PlonkConstraint>, n_publics: u32, i: int)
    requires
        0 <= i < cs.len(),
        mergeable(cs[i], n_publics),
    ensures
        rep(cs, n_publics, cs[i][0] as u32) == rep(cs, n_publics, cs[i][1] as u32),
{
    lemma_unified(cs, n_publics, i, cs.len());
}

proof fn lemma_only_copies(
    cs: Seq<PlonkConstraint>,
    n_publics: u32,
    n: nat,
    label: spec_fn(u32) -> int,
    x: u32,
)
    requires
        n <= cs.len(),
        forall|i: int|
            0 <= i < cs.len() && mergeable(#[trigger] cs[i], n_publics) ==> label(cs[i][0] as u32)
                == label(cs[i][1] as u32),
    ensures
        label(rep_after(cs, n_publics, n, x)) == label(x),
    decreases n,
{
    if n > 0 {
        let m = (n - 1) as nat;
        let c = cs[n - 1];
        lemma_only_copies(cs, n_publics, m, label, x);
        lemma_only_copies(cs, n_publics, m, label, c[0] as u32);
        lemma_only_copies(cs, n_publics, m, label, c[1] as u32);
    }
}

/// Nothing is merged but what copies equate: a labelling that gives the two ends of every merged
/// copy the same label gives every signal the label of its representative.
pub proof fn law_only_copies_merge(
    cs: Seq<PlonkConstraint>,
    n_publics: u32,
    label: spec_fn(u32) -> int,
    x: u32,
)
    requires
        forall|i: int|
            0 <= i < cs.len() && mergeable(#[trigger] cs[i], n_publics) ==> label(cs[i][0] as u32)
                == label(cs[i][1] as u32),
    ensures
        label(rep(cs, n_publics, x)) == label(x),
{
    lemma_only_copies(cs, n_publics, cs.len(), label, x);
}

/// What merging gives: the surviving constraints and additions, renamed, and the renaming that
/// every placed cell has to go through.
pub struct MergeResult {
    pub constraints: Vec<PlonkConstraint>,
    pub additions: Vec<PlonkAddition>,
    /// `remap[id]` is the representative of signal `id`.
    pub remap: Vec<u32>,
    /// Number of copy gates dropped.
    pub dropped: usize,
    /// The representatives of all merged pairs, ascending.
    pub merged_reps: Vec<u32>,
}

/// The largest id in use.
fn largest_id(constraints: &[PlonkConstraint], additions: &[PlonkAddition], n_vars: u32) -> (m: u32)
    requires
        ids_fit(constraints@, additions@),
    ensures
        max_id(constraints@, additions@, n_vars, m),
        m < u32::MAX,
{
    let mut m: u32 = if n_vars == 0 {
        0
    } else {
        n_vars - 1
    };
    let mut i: usize = 0;
    while i < constraints.len()
        invariant
            i <= constraints@.len(),
            ids_fit(constraints@, additions@),
            m < u32::MAX,
            n_vars <= m + 1,
            max_id(constraints@.take(i as int), Seq::empty(), n_vars, m),
        decreases constraints@.len() - i,
    {
        let ghost before = m;
        let ghost upto = constraints@.take(i as int);
        let mut k: usize = 0;
        while k < 3
            invariant
                k <= 3,
                i < constraints@.len(),
                ids_fit(constraints@, additions@),
                m < u32::MAX,
                before <= m,
                n_vars <= before + 1,
                upto == constraints@.take(i as int),
                max_id(upto, Seq::empty(), n_vars, before),
                forall|q: int| 0 <= q < k ==> (#[trigger] constraints@[i as int][q]) as u32 <= m,
                m == before || exists|q: int|
                    0 <= q < k && (#[trigger] constraints@[i as int][q]) as u32 == m,
            decreases 3 - k,
        {
            let v: u32 = constraints[i][k] as u32;
            assert(constraints@[i as int][k as int] as u32 == v);
            if v > m {
                m = v;
            }
            k = k + 1;
        }
        proof {
            let now = constraints@.take(i + 1);
            assert(now =~= upto.push(constraints@[i as int]));
            assert forall|x: int, q: int| 0 <= x < now.len() && 0 <= q < 3 implies (
            #[trigger] now[x][q]) as u32 <= m by {
                if x < i {
                    assert(upto[x][q] as u32 <= before);
                }
            }
            if m == before {
                if m != 0 && n_vars != m + 1 {
                    let (x, q) = choose|x: int, q: int|
                        0 <= x < upto.len() && 0 <= q < 3 && (#[trigger] upto[x][q]) as u32 == m;
                    assert(now[x][q] as u32 == m);
                }
            } else {
                let q = choose|q: int|
                    0 <= q < 3 && (#[trigger] constraints@[i as int][q]) as u32 == m;
                assert(now[i as int][q] as u32 == m);
            }
        }
        i = i + 1;
    }
    assert(constraints@.take(i as int) =~= constraints@);
    let mut j: usize = 0;
    assert(additions@.take(0) =~= Seq::empty());
    while j < additions.len()
        invariant
            j <= additions@.len(),
            ids_fit(constraints@, additions@),
            m < u32::MAX,
            n_vars <= m + 1,
            max_id(constraints@, additions@.take(j as int), n_vars, m),
        decreases additions@.len() - j,
    {
        let ghost before = m;
        let ghost upto = additions@.take(j as int);
        let mut k: usize = 0;
        while k < 2
            invariant
                k <= 2,
                j < additions@.len(),
                ids_fit(constraints@, additions@),
                m < u32::MAX,
                before <= m,
                n_vars <= before + 1,
                upto == additions@.take(j as int),
                max_id(constraints@, upto, n_vars, before),
                forall|q: int| 0 <= q < k ==> (#[trigger] additions@[j as int][q]) as u32 <= m,
                m == before || exists|q: int|
                    0 <= q < k && (#[trigger] additions@[j as int][q]) as u32 == m,
            decreases 2 - k,
        {
            let v: u32 = additions[j][k] as u32;
            assert(additions@[j as int][k as int] as u32 == v);
            if v > m {
                m = v;
            }
            k = k + 1;
        }
        proof {
            let now = additions@.take(j + 1);
            assert(now =~= upto.push(additions@[j as int]));
            assert forall|x: int, q: int| 0 <= x < now.len() && 0 <= q < 2 implies (
            #[trigger] now[x][q]) as u32 <= m by {
                if x < j {
                    assert(upto[x][q] as u32 <= before);
                }
            }
            if m == before {
                if m != 0 && n_vars != m + 1 && !(exists|x: int, q: int|
                    0 <= x < constraints@.len() && 0 <= q < 3 && (#[trigger] constraints@[x][q])
                        as u32 == m) {
                    let (x, q) = choose|x: int, q: int|
                        0 <= x < upto.len() && 0 <= q < 2 && (#[trigger] upto[x][q]) as u32 == m;
                    assert(now[x][q] as u32 == m);
                }
            } else {
                let q = choose|q: int|
                    0 <= q < 2 && (#[trigger] additions@[j as int][q]) as u32 == m;
                assert(now[j as int][q] as u32 == m);
            }
        }
        j = j + 1;
    }
    assert(additions@.take(j as int) =~= additions@);
    m
}

/// The list is strictly ascending.
pub open spec fn ascending(v: Seq<u32>) -> bool {
    forall|i: int, j: int| 0 <= i < j < v.len() ==> v[i] < v[j]
}

/// Insert `x` into a strictly ascending list, unless it is there.
fn insert_sorted(v: &mut Vec<u32>, x: u32)
    requires
        ascending(old(v)@),
    ensures
        ascending(final(v)@),
        forall|y: u32| #[trigger] final(v)@.contains(y) <==> old(v)@.contains(y) || y == x,
{
    let ghost before = v@;
    let mut pos: usize = 0;
    while pos < v.len() && v[pos] < x
        invariant
            pos <= v@.len(),
            v@ == before,
            forall|i: int| 0 <= i < pos ==> v@[i] < x,
        decreases v@.len() - pos,
    {
        pos = pos + 1;
    }
    if pos < v.len() && v[pos] == x {
        proof {
            assert(before[pos as int] == x);
        }
        return ;
    }
    v.insert(pos, x);
    proof {
        assert(v@ == before.insert(pos as int, x));
        assert forall|y: u32| #[trigger] v@.contains(y) <==> before.contains(y) || y == x by {
            if v@.contains(y) && y != x {
                let now = v@;
                let i = choose|i: int| 0 <= i < now.len() && now[i] == y;
                if i < pos {
                    assert(before[i] == y);
                } else {
                    assert(before[i - 1] == y);
                }
            }
            if before.contains(y) {
                let i = choose|i: int| 0 <= i < before.len() && before[i] == y;
                if i < pos {
                    assert(v@[i] == y);
                } else {
                    assert(v@[i + 1] == y);
                }
            }
            if y == x {
                assert(v@[pos as int] == y);
            }
        }
    }
}

/// Merge exact-copy signals, drop the redundant copy gates, and return the renaming for the
/// placed cells. `n_vars` is the R1CS variable count; `n_publics` counts outputs and public
/// inputs.
pub fn merge_copy_signals(
    constraints: &[PlonkConstraint],
    additions: &[PlonkAddition],
    n_vars: u32,
    n_publics: u32,
) -> (r: MergeResult)
    requires
        ids_fit(constraints@, additions@),
    ensures
        r.constraints@ == surviving(constraints@, n_publics),
        r.additions@ == additions@.map_values(
            |a: PlonkAddition| renamed_addition(constraints@, n_publics, a),
        ),
        r.dropped + r.constraints@.len() == constraints@.len(),
        r.remap@.len() > 0,
        max_id(constraints@, additions@, n_vars, (r.remap@.len() - 1) as u32),
        forall|id: int|
            0 <= id < r.remap@.len() ==> #[trigger] r.remap@[id] == rep(
                constraints@,
                n_publics,
                id as u32,
            ),
        r.remap@.len() <= u32::MAX,
        ascending(r.merged_reps@),
        forall|x: u32| #[trigger]
            r.merged_reps@.contains(x) <==> is_merged_rep(constraints@, n_publics, x),
{
    let ghost cs = constraints@;
    let top: u32 = largest_id(constraints, additions, n_vars);
    let mut uf: UnionFind = UnionFind::new(top, n_publics);
    let mut merged_away: Vec<bool> = Vec::new();
    let mut i: usize = 0;
    while i < constraints.len()
        invariant
            i <= constraints@.len(),
            cs == constraints@,
            uf.wf(n_publics),
            uf.parent@.len() == top + 1,
            max_id(constraints@, additions@, n_vars, top),
            merged_away@.len() == i,
            forall|j: int| 0 <= j < i ==> #[trigger] merged_away@[j] == mergeable(cs[j], n_publics),
            forall|x: u32|
                x <= top ==> #[trigger] uf.rep_of(x) == rep_after(cs, n_publics, i as nat, x),
        decreases constraints@.len() - i,
    {
        let ghost before = uf;
        let ghost c = cs[i as int];
        let mut gone: bool = false;
        proof {
            assert(cs[i as int][0] as u32 <= top);
            assert(cs[i as int][1] as u32 <= top);
            law_pinned_stay(cs, n_publics, i as nat, c[0] as u32);
            law_pinned_stay(cs, n_publics, i as nat, c[1] as u32);
            assert(before.rep_of(c[0] as u32) == rep_after(cs, n_publics, i as nat, c[0] as u32));
            assert(before.rep_of(c[1] as u32) == rep_after(cs, n_publics, i as nat, c[1] as u32));
        }
        if is_exact_copy(&constraints[i]) {
            gone = uf.union(
                constraints[i][0] as u32,
                constraints[i][1] as u32,
                Ghost(n_publics),
            );
        }
        proof {
            assert(gone == mergeable(c, n_publics));
            assert forall|x: u32| x <= top implies #[trigger] uf.rep_of(x) == rep_after(
                cs,
                n_publics,
                (i + 1) as nat,
                x,
            ) by {
                assert(before.rep_of(x) == rep_after(cs, n_publics, i as nat, x));
            }
        }
        merged_away.push(gone);
        i = i + 1;
    }
    let ghost pred = |c: PlonkConstraint| !mergeable(c, n_publics);
    let ghost ren = |c: PlonkConstraint| renamed_gate(cs, n_publics, c);
    let mut merged_reps: Vec<u32> = Vec::new();
    let mut out: Vec<PlonkConstraint> = Vec::new();
    let mut dropped: usize = 0;
    let mut k: usize = 0;
    assert(cs.take(0).filter(pred).map_values(ren) =~= Seq::empty()) by {
        reveal(Seq::filter);
    }
    while k < constraints.len()
        invariant
            k <= constraints@.len(),
            cs == constraints@,
            pred == (|c: PlonkConstraint| !mergeable(c, n_publics)),
            ren == (|c: PlonkConstraint| renamed_gate(cs, n_publics, c)),
            uf.wf(n_publics),
            uf.parent@.len() == top + 1,
            max_id(constraints@, additions@, n_vars, top),
            merged_away@.len() == cs.len(),
            forall|j: int|
                0 <= j < cs.len() ==> #[trigger] merged_away@[j] == mergeable(cs[j], n_publics),
            forall|x: u32| x <= top ==> #[trigger] uf.rep_of(x) == rep(cs, n_publics, x),
            dropped + out@.len() == k,
            out@ == cs.take(k as int).filter(pred).map_values(ren),
            ascending(merged_reps@),
            forall|x: u32| #[trigger]
                merged_reps@.contains(x) <==> exists|j: int|
                    0 <= j < k && mergeable(#[trigger] cs[j], n_publics) && rep(
                        cs,
                        n_publics,
                        cs[j][0] as u32,
                    ) == x,
        decreases constraints@.len() - k,
    {
        let ghost c = cs[k as int];
        let ghost before = merged_reps@;
        proof {
            assert(cs[k as int][0] as u32 <= top);
            assert(cs[k as int][1] as u32 <= top);
            assert(cs[k as int][2] as u32 <= top);
            reveal(Seq::filter);
            assert(cs.take(k + 1).drop_last() =~= cs.take(k as int));
            assert(cs.take(k + 1).last() == c);
        }
        let ghost uf0 = uf;
        if merged_away[k] {
            dropped = dropped + 1;
            let rp: u32 = uf.find(constraints[k][0] as u32, Ghost(n_publics));
            insert_sorted(&mut merged_reps, rp);
            proof {
                assert(uf0.rep_of(c[0] as u32) == rep(cs, n_publics, c[0] as u32));
                assert forall|x: u32| x <= top implies #[trigger] uf.rep_of(x) == rep(
                    cs,
                    n_publics,
                    x,
                ) by {
                    assert(uf0.rep_of(x) == rep(cs, n_publics, x));
                }
                assert forall|x: u32| #[trigger]
                    merged_reps@.contains(x) <==> exists|j: int|
                        0 <= j < k + 1 && mergeable(#[trigger] cs[j], n_publics) && rep(
                            cs,
                            n_publics,
                            cs[j][0] as u32,
                        ) == x by {
                    if x == rp {
                        assert(mergeable(cs[k as int], n_publics));
                    }
                    if before.contains(x) {
                        let j = choose|j: int|
                            0 <= j < k && mergeable(#[trigger] cs[j], n_publics) && rep(
                                cs,
                                n_publics,
                                cs[j][0] as u32,
                            ) == x;
                        assert(mergeable(cs[j], n_publics));
                    }
                    if exists|j: int|
                        0 <= j < k + 1 && mergeable(#[trigger] cs[j], n_publics) && rep(
                            cs,
                            n_publics,
                            cs[j][0] as u32,
                        ) == x {
                        let j = choose|j: int|
                            0 <= j < k + 1 && mergeable(#[trigger] cs[j], n_publics) && rep(
                                cs,
                                n_publics,
                                cs[j][0] as u32,
                            ) == x;
                        if j < k {
                            assert(mergeable(cs[j], n_publics));
                            assert(before.contains(x));
                        }
                    }
                }
            }
        } else {
            let r0: u32 = uf.find(constraints[k][0] as u32, Ghost(n_publics));
            let ghost uf1 = uf;
            let r1: u32 = uf.find(constraints[k][1] as u32, Ghost(n_publics));
            let ghost uf2 = uf;
            let r2: u32 = uf.find(constraints[k][2] as u32, Ghost(n_publics));
            let mut nc: PlonkConstraint = constraints[k];
            nc[0] = r0 as u64;
            nc[1] = r1 as u64;
            nc[2] = r2 as u64;
            proof {
                assert forall|x: u32| x <= top implies #[trigger] uf.rep_of(x) == rep(
                    cs,
                    n_publics,
                    x,
                ) && uf1.rep_of(x) == rep(cs, n_publics, x) && uf2.rep_of(x) == rep(
                    cs,
                    n_publics,
                    x,
                ) by {
                    assert(uf0.rep_of(x) == rep(cs, n_publics, x));
                    assert(uf1.rep_of(x) == uf0.rep_of(x));
                    assert(uf2.rep_of(x) == uf1.rep_of(x));
                }
                assert(uf0.rep_of(c[0] as u32) == rep(cs, n_publics, c[0] as u32));
                assert(uf1.rep_of(c[1] as u32) == uf0.rep_of(c[1] as u32));
                assert(uf0.rep_of(c[1] as u32) == rep(cs, n_publics, c[1] as u32));
                assert(uf2.rep_of(c[2] as u32) == uf1.rep_of(c[2] as u32));
                assert(uf1.rep_of(c[2] as u32) == uf0.rep_of(c[2] as u32));
                assert(uf0.rep_of(c[2] as u32) == rep(cs, n_publics, c[2] as u32));
                assert(nc@ =~= renamed_gate(cs, n_publics, c)@);
                assert(nc == ren(c));
            }
            let ghost out0 = out@;
            out.push(nc);
            proof {
                assert(cs.take(k + 1).filter(pred) == cs.take(k as int).filter(pred).push(c));
                assert(cs.take(k as int).filter(pred).push(c).map_values(ren) =~= out0.push(
                    ren(c),
                ));
                assert forall|x: u32| #[trigger]
                    merged_reps@.contains(x) <==> exists|j: int|
                        0 <= j < k + 1 && mergeable(#[trigger] cs[j], n_publics) && rep(
                            cs,
                            n_publics,
                            cs[j][0] as u32,
                        ) == x by {
                    if exists|j: int|
                        0 <= j < k + 1 && mergeable(#[trigger] cs[j], n_publics) && rep(
                            cs,
                            n_publics,
                            cs[j][0] as u32,
                        ) == x {
                        let j = choose|j: int|
                            0 <= j < k + 1 && mergeable(#[trigger] cs[j], n_publics) && rep(
                                cs,
                                n_publics,
                                cs[j][0] as u32,
                            ) == x;
                        assert(j < k);
                        assert(mergeable(cs[j], n_publics));
                    }
                }
            }
        }
        k = k + 1;
    }
    assert(cs.take(k as int) =~= cs);
    let ghost ren_add = |a: PlonkAddition| renamed_addition(cs, n_publics, a);
    let mut out_adds: Vec<PlonkAddition> = Vec::new();
    let mut a: usize = 0;
    while a < additions.len()
        invariant
            a <= additions@.len(),
            cs == constraints@,
            ren_add == (|x: PlonkAddition| renamed_addition(cs, n_publics, x)),
            uf.wf(n_publics),
            uf.parent@.len() == top + 1,
            max_id(constraints@, additions@, n_vars, top),
            forall|x: u32| x <= top ==> #[trigger] uf.rep_of(x) == rep(cs, n_publics, x),
            out_adds@ == additions@.take(a as int).map_values(ren_add),
        decreases additions@.len() - a,
    {
        let ghost ad = additions@[a as int];
        proof {
            assert(additions@[a as int][0] as u32 <= top);
            assert(additions@[a as int][1] as u32 <= top);
        }
        let ghost uf0 = uf;
        let r0: u32 = uf.find(additions[a][0] as u32, Ghost(n_publics));
        let ghost uf1 = uf;
        let r1: u32 = uf.find(additions[a][1] as u32, Ghost(n_publics));
        let mut na: PlonkAddition = additions[a];
        na[0] = r0 as u64;
        na[1] = r1 as u64;
        proof {
            assert forall|x: u32| x <= top implies #[trigger] uf.rep_of(x) == rep(
                cs,
                n_publics,
                x,
            ) by {
                assert(uf0.rep_of(x) == rep(cs, n_publics, x));
                assert(uf1.rep_of(x) == uf0.rep_of(x));
            }
            assert(uf0.rep_of(ad[0] as u32) == rep(cs, n_publics, ad[0] as u32));
            assert(uf1.rep_of(ad[1] as u32) == uf0.rep_of(ad[1] as u32));
            assert(uf0.rep_of(ad[1] as u32) == rep(cs, n_publics, ad[1] as u32));
            assert(na@ =~= renamed_addition(cs, n_publics, ad)@);
            assert(na == ren_add(ad));
            assert(additions@.take(a + 1) =~= additions@.take(a as int).push(ad));
        }
        let ghost before = out_adds@;
        out_adds.push(na);
        assert(additions@.take(a as int).push(ad).map_values(ren_add) =~= before.push(na));
        a = a + 1;
    }
    assert(additions@.take(a as int) =~= additions@);
    let mut remap: Vec<u32> = Vec::new();
    let mut id: u32 = 0;
    while id <= top
        invariant
            id <= top + 1,
            top < u32::MAX,
            uf.wf(n_publics),
            uf.parent@.len() == top + 1,
            forall|x: u32| x <= top ==> #[trigger] uf.rep_of(x) == rep(cs, n_publics, x),
            remap@.len() == id,
            forall|j: int|
                0 <= j < id ==> #[trigger] remap@[j] == rep(cs, n_publics, j as u32),
        decreases top + 1 - id,
    {
        let ghost uf0 = uf;
        assert(uf0.rep_of(id) == rep(cs, n_publics, id));
        let rp: u32 = uf.find(id, Ghost(n_publics));
        proof {
            assert forall|x: u32| x <= top implies #[trigger] uf.rep_of(x) == rep(
                cs,
                n_publics,
                x,
            ) by {
                assert(uf0.rep_of(x) == rep(cs, n_publics, x));
            }
        }
        remap.push(rp);
        id = id + 1;
    }
    proof {
        assert(additions@.map_values(ren_add) =~= additions@.map_values(
            |a: PlonkAddition| renamed_addition(constraints@, n_publics, a),
        ));
    }
    MergeResult { constraints: out, additions: out_adds, remap, dropped, merged_reps }
}

/// How often `x` occurs among the first `n` cells of a column.
pub open spec fn count_in_column(col: Seq<u32>, x: u32, n: nat) -> nat
    decreases n,
{
    if n == 0 {
        0
    } else {
        count_in_column(col, x, (n - 1) as nat) + if col[n - 1] == x {
            1nat
        } else {
            0nat
        }
    }
}

/// How often `x` occurs in the first `n` columns.
pub open spec fn count_in_columns(g: Seq<Seq<u32>>, x: u32, n: nat) -> nat
    decreases n,
{
    if n == 0 {
        0
    } else {
        count_in_columns(g, x, (n - 1) as nat) + count_in_column(g[n - 1], x, g[n - 1].len())
    }
}

/// How many connection-covered cells hold the signal `x`; the constant one does not count.
pub open spec fn in_band(g: Seq<Seq<u32>>, x: u32, n_cols: nat) -> nat {
    if x == 0 {
        0
    } else {
        count_in_columns(
            g,
            x,
            if n_cols <= g.len() {
                n_cols
            } else {
                g.len()
            },
        )
    }
}

/// How many of the first `n` representatives occupy fewer than two covered cells.
pub open spec fn unenforced(g: Seq<Seq<u32>>, reps: Seq<u32>, n_cols: nat, n: nat) -> nat
    decreases n,
{
    if n == 0 {
        0
    } else {
        unenforced(g, reps, n_cols, (n - 1) as nat) + if in_band(g, reps[n - 1], n_cols) < 2 {
            1nat
        } else {
            0nat
        }
    }
}

/// Some merged representatives occupy fewer than two connection-covered cells, so the equality
/// of the copies that were dropped for them is not enforced.
#[derive(Clone, Copy, PartialEq, Eq, Structural, Debug)]
pub struct UnsoundMerge {
    /// How many representatives.
    pub bad: usize,
    /// How many columns the connection argument covers.
    pub n_cols: usize,
}

/// What to tell the user of an unsound merge.
pub open spec fn unsound_text(bad: nat, n_cols: nat) -> Seq<char> {
    "merge_copies UNSOUND: "@ + dec(bad) + " merged representatives have in-band (col<"@ + dec(
        n_cols,
    ) + UNSOUND_HINT@
}

/// What is wrong with such a merge, and what can be done about it.
pub const UNSOUND_HINT: &'static str =
    ") multiplicity < 2; their dropped copy equality is unenforced. Disable merge_copies or fix the verifier circuit/layout.";

impl UnsoundMerge {
    /// What to tell the user.
    pub fn message(&self) -> (r: String)
        ensures
            r@ == unsound_text(self.bad as nat, self.n_cols as nat),
    {
        let mut out: String = "merge_copies UNSOUND: ".to_owned();
        push_dec(&mut out, self.bad as u64);
        out.append(" merged representatives have in-band (col<");
        push_dec(&mut out, self.n_cols as u64);
        out.append(UNSOUND_HINT);
        out
    }
}

proof fn lemma_count_column(col: Seq<u32>, x: u32, n: nat)
    ensures
        count_in_column(col, x, n) <= n,
    decreases n,
{
    if n > 0 {
        lemma_count_column(col, x, (n - 1) as nat);
    }
}

/// The total number of cells of the first `n` columns.
pub open spec fn total_cells(g: Seq<Seq<u32>>, n: nat) -> nat
    decreases n,
{
    if n == 0 {
        0
    } else {
        total_cells(g, (n - 1) as nat) + g[n - 1].len()
    }
}

proof fn lemma_total_cells(g: Seq<Seq<u32>>, i: nat, n: nat)
    requires
        i <= n,
    ensures
        total_cells(g, i) <= total_cells(g, n),
    decreases n,
{
    if i < n {
        lemma_total_cells(g, i, (n - 1) as nat);
    }
}

proof fn lemma_count_columns(g: Seq<Seq<u32>>, x: u32, n: nat)
    ensures
        count_in_columns(g, x, n) <= total_cells(g, n),
    decreases n,
{
    if n > 0 {
        lemma_count_columns(g, x, (n - 1) as nat);
        lemma_count_column(g[n - 1], x, g[n - 1].len());
    }
}

/// Check on the renamed cells that the connection argument enforces every dropped copy: each
/// representative must occupy at least two cells in the first `n_cols` columns. The error counts
/// the representatives that do not.
pub fn verify_merge_soundness(s_map: &Vec<Vec<u32>>, merged_reps: &[u32], n_cols: usize) -> (r:
    Result<(), UnsoundMerge>)
    requires
        total_cells(grid(s_map@), s_map@.len()) <= usize::MAX,
    ensures
        match r {
            Ok(_) => unenforced(grid(s_map@), merged_reps@, n_cols as nat, merged_reps@.len()) == 0,
            Err(e) => e.n_cols == n_cols && e.bad > 0 && e.bad == unenforced(
                grid(s_map@),
                merged_reps@,
                n_cols as nat,
                merged_reps@.len(),
            ),
        },
{
    let ghost g = grid(s_map@);
    let band: usize = if n_cols <= s_map.len() {
        n_cols
    } else {
        s_map.len()
    };
    let mut mult: HashMap<u32, usize> = HashMap::new();
    let mut c: usize = 0;
    while c < band
        invariant
            c <= band <= s_map@.len(),
            g == grid(s_map@),
            total_cells(g, s_map@.len()) <= usize::MAX,
            !mult@.dom().contains(0),
            forall|x: u32| #[trigger]
                mult@.dom().contains(x) ==> mult@[x] == count_in_columns(g, x, c as nat),
            forall|x: u32|
                x != 0 && !(#[trigger] mult@.dom().contains(x)) ==> count_in_columns(
                    g,
                    x,
                    c as nat,
                ) == 0,
        decreases band - c,
    {
        let col: &Vec<u32> = &s_map[c];
        let mut r: usize = 0;
        proof {
            lemma_total_cells(g, (c + 1) as nat, s_map@.len());
        }
        while r < col.len()
            invariant
                c < band <= s_map@.len(),
                g == grid(s_map@),
                r <= col@.len(),
                col@ == g[c as int],
                total_cells(g, (c + 1) as nat) <= usize::MAX,
                !mult@.dom().contains(0),
                forall|x: u32| #[trigger]
                    mult@.dom().contains(x) ==> mult@[x] == count_in_columns(g, x, c as nat)
                        + count_in_column(g[c as int], x, r as nat),
                forall|x: u32|
                    x != 0 && !(#[trigger] mult@.dom().contains(x)) ==> count_in_columns(
                        g,
                        x,
                        c as nat,
                    ) + count_in_column(g[c as int], x, r as nat) == 0,
            decreases col@.len() - r,
        {
            let v: u32 = col[r];
            let ghost before = mult@;
            if v != 0 {
                let seen: usize = match mult.get(&v) {
                    Some(k) => *k,
                    None => 0,
                };
                proof {
                    lemma_count_columns(g, v, c as nat);
                    lemma_count_column(g[c as int], v, r as nat);
                    assert(before.dom().contains(v) || !before.dom().contains(v));
                }
                mult.insert(v, seen + 1);
            }
            proof {
                assert forall|x: u32| #[trigger]
                    mult@.dom().contains(x) implies mult@[x] == count_in_columns(g, x, c as nat)
                    + count_in_column(g[c as int], x, (r + 1) as nat) by {
                    if x != v {
                        assert(before.dom().contains(x));
                    } else {
                        assert(before.dom().contains(v) || !before.dom().contains(v));
                    }
                }
                assert forall|x: u32|
                    x != 0 && !(#[trigger] mult@.dom().contains(x)) implies count_in_columns(
                    g,
                    x,
                    c as nat,
                ) + count_in_column(g[c as int], x, (r + 1) as nat) == 0 by {
                    assert(!before.dom().contains(x));
                }
            }
            r = r + 1;
        }
        c = c + 1;
    }
    let mut bad: usize = 0;
    let mut i: usize = 0;
    while i < merged_reps.len()
        invariant
            i <= merged_reps@.len(),
            g == grid(s_map@),
            band == if n_cols <= g.len() {
                n_cols as nat
            } else {
                g.len()
            },
            !mult@.dom().contains(0),
            forall|x: u32| #[trigger]
                mult@.dom().contains(x) ==> mult@[x] == count_in_columns(g, x, band as nat),
            forall|x: u32|
                x != 0 && !(#[trigger] mult@.dom().contains(x)) ==> count_in_columns(
                    g,
                    x,
                    band as nat,
                ) == 0,
            bad <= i,
            bad == unenforced(g, merged_reps@, n_cols as nat, i as nat),
        decreases merged_reps@.len() - i,
    {
        let x: u32 = merged_reps[i];
        let m: usize = match mult.get(&x) {
            Some(k) => *k,
            None => 0,
        };
        proof {
            assert(mult@.dom().contains(x) || !mult@.dom().contains(x));
            assert(m == in_band(g, x, n_cols as nat));
        }
        if m < 2 {
            bad = bad + 1;
        }
        i = i + 1;
    }
    if bad == 0 {
        Ok(())
    } else {
        Err(UnsoundMerge { bad, n_cols })
    }
}

/// Where `verify_merge_soundness` finds nothing, every representative occupies two covered cells.
pub proof fn law_sound_merge_is_enforced(
    g: Seq<Seq<u32>>,
    reps: Seq<u32>,
    n_cols: nat,
    n: nat,
    i: int,
)
    requires
        unenforced(g, reps, n_cols, n) == 0,
        0 <= i < n <= reps.len(),
    ensures
        in_band(g, reps[i], n_cols) >= 2,
    decreases n,
{
    if i < n - 1 {
        law_sound_merge_is_enforced(g, reps, n_cols, (n - 1) as nat, i);
    }
}

/// A cell after renaming: ids outside the table stay.
pub open spec fn remapped_id(remap: Seq<u32>, id: u32) -> u32 {
    if id < remap.len() {
        remap[id as int]
    } else {
        id
    }
}

/// A table with every cell renamed.
pub open spec fn remapped(g: Seq<Seq<u32>>, remap: Seq<u32>) -> Seq<Seq<u32>> {
    Seq::new(
        g.len(),
        |c: int| Seq::new(g[c].len(), |r: int| remapped_id(remap, g[c][r])),
    )
}

/// Rewrite every cell to its representative; ids outside `remap` are left as they are.
pub fn apply_remap_to_s_map(s_map: &mut Vec<Vec<u32>>, remap: &[u32])
    ensures
        grid(final(s_map)@) == remapped(grid(old(s_map)@), remap@),
{
    let ghost g = grid(s_map@);
    let mut c: usize = 0;
    while c < s_map.len()
        invariant
            c <= s_map@.len(),
            s_map@.len() == g.len(),
            forall|k: int| 0 <= k < c ==> #[trigger] s_map@[k]@ == remapped(g, remap@)[k],
            forall|k: int| c <= k < g.len() ==> #[trigger] s_map@[k]@ == g[k],
        decreases s_map@.len() - c,
    {
        let mut r: usize = 0;
        while r < s_map[c].len()
            invariant
                c < s_map@.len(),
                s_map@.len() == g.len(),
                r <= s_map@[c as int]@.len(),
                s_map@[c as int]@.len() == g[c as int].len(),
                forall|k: int| 0 <= k < c ==> #[trigger] s_map@[k]@ == remapped(g, remap@)[k],
                forall|k: int| c < k < g.len() ==> #[trigger] s_map@[k]@ == g[k],
                forall|k: int|
                    0 <= k < r ==> #[trigger] s_map@[c as int]@[k] == remapped_id(
                        remap@,
                        g[c as int][k],
                    ),
                forall|k: int|
                    r <= k < g[c as int].len() ==> #[trigger] s_map@[c as int]@[k]
                        == g[c as int][k],
            decreases s_map@[c as int]@.len() - r,
        {
            let id: u32 = s_map[c][r];
            assert(id == g[c as int][r as int]);
            if (id as usize) < remap.len() {
                s_map[c][r] = remap[id as usize];
            }
            r = r + 1;
        }
        assert(s_map@[c as int]@ =~= remapped(g, remap@)[c as int]);
        c = c + 1;
    }
    assert(grid(s_map@) =~= remapped(g, remap@));
}

/// What the packer applies to the placed cells: the renaming, and the representatives to check.
pub struct CopyMerge {
    /// `remap[id]` is the representative of signal `id`.
    pub remap: Vec<u32>,
    /// The representatives of merged pairs.
    pub merged_reps: Vec<u32>,
}

/// Rewrite an R1CS as PLONK gates and, where `merge` is set, merge exact copies. Without merging
/// the renaming is the identity and there are no representatives to check.
pub fn r1cs2plonk_merged(r1cs: &R1csFile, merge: bool) -> (r: (
    Vec<PlonkConstraint>,
    Vec<PlonkAddition>,
    CopyMerge,
))
    requires
        plonk_system(*r1cs).n_vars <= u32::MAX,
        merge ==> r1cs.header.n_outputs + r1cs.header.n_pub_inputs <= u32::MAX,
        merge ==> ids_fit(plonk_system(*r1cs).constraints, plonk_system(*r1cs).additions),
    ensures
        !merge ==> {
            &&& r.0@ == plonk_system(*r1cs).constraints
            &&& r.1@ == plonk_system(*r1cs).additions
            &&& r.2.remap@ == Seq::new(r1cs.header.n_vars as nat, |i: int| i as u32)
            &&& r.2.merged_reps@.len() == 0
        },
        merge ==> {
            let cs = plonk_system(*r1cs).constraints;
            let np = (r1cs.header.n_outputs + r1cs.header.n_pub_inputs) as u32;
            &&& r.0@ == surviving(cs, np)
            &&& r.1@ == plonk_system(*r1cs).additions.map_values(
                |a: PlonkAddition| renamed_addition(cs, np, a),
            )
            &&& 0 < r.2.remap@.len() <= u32::MAX
            &&& max_id(
                cs,
                plonk_system(*r1cs).additions,
                r1cs.header.n_vars,
                (r.2.remap@.len() - 1) as u32,
            )
            &&& forall|id: int|
                0 <= id < r.2.remap@.len() ==> #[trigger] r.2.remap@[id] == rep(cs, np, id as u32)
            &&& ascending(r.2.merged_reps@)
            &&& forall|x: u32| #[trigger]
                r.2.merged_reps@.contains(x) <==> is_merged_rep(cs, np, x)
        },
{
    let (constraints, additions) = r1cs2plonk(r1cs);
    if !merge {
        let mut identity: Vec<u32> = Vec::new();
        let mut i: u32 = 0;
        while i < r1cs.header.n_vars
            invariant
                i <= r1cs.header.n_vars,
                identity@ == Seq::new(i as nat, |k: int| k as u32),
            decreases r1cs.header.n_vars - i,
        {
            identity.push(i);
            i = i + 1;
            assert(identity@ =~= Seq::new(i as nat, |k: int| k as u32));
        }
        return (constraints, additions, CopyMerge { remap: identity, merged_reps: Vec::new() });
    }
    let n_publics: u32 = r1cs.header.n_outputs + r1cs.header.n_pub_inputs;
    let r: MergeResult = merge_copy_signals(
        constraints.as_slice(),
        additions.as_slice(),
        r1cs.header.n_vars,
        n_publics,
    );
    (r.constraints, r.additions, CopyMerge { remap: r.remap, merged_reps: r.merged_reps })
}

} // verus!

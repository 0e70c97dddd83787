//! The rows of custom gates: how many each kind takes, and which of them wait for PLONK gates.
use vstd::prelude::*;

use crate::plonk2pil::grid::grid;
use crate::plonk2pil::layout::Layout;
use crate::plonk2pil::placement_laws::queues_distinct;

verus! {

/// How many uses each custom gate has.
#[derive(Clone, Copy, Debug)]
pub struct Counts {
    pub poseidon: usize,
    pub cmul: usize,
    pub ev_pol4: usize,
    pub fft4: usize,
    pub tree: usize,
    pub sel: usize,
}

/// `n` rounded up to whole rows of `per`.
pub open spec fn rows_of(n: nat, per: int) -> int {
    (n + per - 1) / per
}

/// The first rows of each kind of gate, in the order in which they are placed.
pub open spec fn cmul_base(l: Layout, c: Counts) -> int {
    l.spec_poseidon_rows() * c.poseidon
}

pub open spec fn ev_base(l: Layout, c: Counts) -> int {
    cmul_base(l, c) + rows_of(c.cmul as nat, l.spec_cmul_per_row())
}

pub open spec fn fft_base(l: Layout, c: Counts) -> int {
    ev_base(l, c) + c.ev_pol4
}

pub open spec fn tree_base(l: Layout, c: Counts) -> int {
    fft_base(l, c) + c.fft4
}

pub open spec fn sel_base(l: Layout, c: Counts) -> int {
    tree_base(l, c) + l.spec_tree_rows() * c.tree
}

/// Rows that custom gates take.
pub open spec fn custom_rows(l: Layout, c: Counts) -> int {
    sel_base(l, c) + c.sel
}

/// The queues after the first `m` rows that one gate at `base` offers.
pub open spec fn with_offers(
    queues: Seq<Seq<usize>>,
    base: int,
    offers: Seq<(usize, usize)>,
    m: nat,
) -> Seq<Seq<usize>>
    decreases m,
{
    if m == 0 {
        queues
    } else {
        let q = with_offers(queues, base, offers, (m - 1) as nat);
        let (off, t) = offers[m - 1];
        q.update(t as int, q[t as int].push((base + off) as usize))
    }
}

/// The queues after the first `n` gates, one every `height` rows from `base` on.
pub open spec fn with_all_offers(
    queues: Seq<Seq<usize>>,
    base: int,
    height: int,
    offers: Seq<(usize, usize)>,
    n: nat,
) -> Seq<Seq<usize>>
    decreases n,
{
    if n == 0 {
        queues
    } else {
        with_offers(
            with_all_offers(queues, base, height, offers, (n - 1) as nat),
            base + height * (n - 1),
            offers,
            offers.len(),
        )
    }
}

/// No row waits yet.
pub open spec fn no_queues(n: nat) -> Seq<Seq<usize>> {
    Seq::new(n, |i: int| Seq::<usize>::empty())
}

/// The rows that wait for PLONK gates once all custom gates are placed, per tier.
pub open spec fn planned_queues(l: Layout, c: Counts) -> Seq<Seq<usize>> {
    let q1 = with_all_offers(
        no_queues(l.spec_tiers().len()),
        0,
        l.spec_poseidon_rows(),
        l.spec_poseidon_offers(),
        c.poseidon as nat,
    );
    let q2 = with_all_offers(
        q1,
        cmul_base(l, c),
        1,
        l.spec_cmul_offers(),
        rows_of(c.cmul as nat, l.spec_cmul_per_row()) as nat,
    );
    let q3 = with_all_offers(q2, ev_base(l, c), 1, l.spec_ev_offers(), c.ev_pol4 as nat);
    let q4 = with_all_offers(
        q3,
        tree_base(l, c),
        l.spec_tree_rows(),
        l.spec_tree_offers(),
        c.tree as nat,
    );
    with_all_offers(q4, sel_base(l, c), 1, l.spec_sel_offers(), c.sel as nat)
}

/// The offers name rows of this gate and tiers that exist, and no row twice.
pub open spec fn offers_ok(offers: Seq<(usize, usize)>, height: int, tiers: int) -> bool {
    &&& forall|i: int|
        0 <= i < offers.len() ==> (#[trigger] offers[i]).0 < height && offers[i].1 < tiers
    &&& forall|i: int, j: int|
        0 <= i < offers.len() && 0 <= j < offers.len() && i != j ==> (#[trigger] offers[i]).0
            != (#[trigger] offers[j]).0
}

/// Every waiting row is below `top`, and none waits twice.
pub open spec fn queues_below(queues: Seq<Seq<usize>>, top: int) -> bool {
    &&& queues_distinct(queues)
    &&& forall|i: int, j: int|
        0 <= i < queues.len() && 0 <= j < queues[i].len() ==> #[trigger] queues[i][j] < top
}

/// No waiting row is one of the first `m` rows offered at `base`, unless it is below `base`.
spec fn before_offer(
    queues: Seq<Seq<usize>>,
    base: int,
    offers: Seq<(usize, usize)>,
    m: int,
) -> bool {
    forall|i: int, j: int|
        0 <= i < queues.len() && 0 <= j < queues[i].len() ==> #[trigger] queues[i][j] < base
            || exists|x: int| 0 <= x < m && queues[i][j] == base + (#[trigger] offers[x]).0
}

proof fn lemma_offers(
    queues: Seq<Seq<usize>>,
    base: int,
    height: int,
    offers: Seq<(usize, usize)>,
    m: nat,
)
    requires
        queues_below(queues, base),
        offers_ok(offers, height, queues.len() as int),
        m <= offers.len(),
        0 <= base,
        0 <= height,
        base + height <= usize::MAX,
    ensures
        with_offers(queues, base, offers, m).len() == queues.len(),
        queues_distinct(with_offers(queues, base, offers, m)),
        before_offer(with_offers(queues, base, offers, m), base, offers, m as int),
        queues_below(with_offers(queues, base, offers, m), base + height),
    decreases m,
{
    if m > 0 {
        lemma_offers(queues, base, height, offers, (m - 1) as nat);
        let q = with_offers(queues, base, offers, (m - 1) as nat);
        let (off, t) = offers[m - 1];
        let next = with_offers(queues, base, offers, m);
        assert(offers[m - 1].0 < height && offers[m - 1].1 < queues.len());
        let row = (base + off) as usize;
        assert forall|i: int, j: int|
            0 <= i < next.len() && 0 <= j < next[i].len() implies #[trigger] next[i][j] == (if i
            == t && j == q[t as int].len() {
            row
        } else {
            q[i][j]
        }) by {}
        assert forall|i: int, j: int|
            0 <= i < q.len() && 0 <= j < q[i].len() implies #[trigger] q[i][j] != row by {
            if q[i][j] >= base {
                let x = choose|x: int|
                    0 <= x < m - 1 && q[i][j] == base + (#[trigger] offers[x]).0;
                assert(offers[x].0 != offers[m - 1].0);
            }
        }
        assert(queues_distinct(next)) by {
            assert forall|i: int, j: int, x: int, y: int|
                0 <= i < next.len() && 0 <= j < next[i].len() && 0 <= x < next.len() && 0 <= y
                    < next[x].len() && #[trigger] next[i][j] == #[trigger] next[x][y] implies i == x
                && j == y by {
                if i == t && j == q[t as int].len() {
                    if !(x == t && y == q[t as int].len()) {
                        assert(q[x][y] != row);
                    }
                } else if x == t && y == q[t as int].len() {
                    assert(q[i][j] != row);
                } else {
                    assert(q[i][j] == q[x][y]);
                }
            }
        }
        assert(before_offer(next, base, offers, m as int)) by {
            assert forall|i: int, j: int|
                0 <= i < next.len() && 0 <= j < next[i].len() implies #[trigger] next[i][j] < base
                || exists|x: int|
                0 <= x < m && next[i][j] == base + (#[trigger] offers[x]).0 by {
                if i == t && j == q[t as int].len() {
                    assert(next[i][j] == base + offers[m - 1].0);
                } else {
                    assert(next[i][j] == q[i][j]);
                    if q[i][j] >= base {
                        let x = choose|x: int|
                            0 <= x < m - 1 && q[i][j] == base + (#[trigger] offers[x]).0;
                        assert(next[i][j] == base + offers[x].0);
                    }
                }
            }
        }
        assert forall|i: int, j: int|
            0 <= i < next.len() && 0 <= j < next[i].len() implies #[trigger] next[i][j] < base
            + height by {
            if i == t && j == q[t as int].len() {
            } else {
                assert(next[i][j] == q[i][j]);
            }
        }
    } else {
        assert forall|i: int, j: int|
            0 <= i < queues.len() && 0 <= j < queues[i].len() implies #[trigger] queues[i][j]
            < base + height by {
            assert(queues[i][j] < base);
        }
    }
}

proof fn lemma_all_offers(
    queues: Seq<Seq<usize>>,
    base: int,
    height: int,
    offers: Seq<(usize, usize)>,
    n: nat,
)
    requires
        queues_below(queues, base),
        offers_ok(offers, height, queues.len() as int),
        0 <= base,
        0 <= height,
        base + height * n <= usize::MAX,
    ensures
        with_all_offers(queues, base, height, offers, n).len() == queues.len(),
        queues_below(with_all_offers(queues, base, height, offers, n), base + height * n),
    decreases n,
{
    assert(height * 0 == 0) by (nonlinear_arith);
    if n > 0 {
        assert(height * n == height * (n - 1) + height) by (nonlinear_arith);
        assert(0 <= height * (n - 1)) by (nonlinear_arith)
            requires
                height >= 0,
                n >= 1,
        ;
        lemma_all_offers(queues, base, height, offers, (n - 1) as nat);
        lemma_offers(
            with_all_offers(queues, base, height, offers, (n - 1) as nat),
            base + height * (n - 1),
            height,
            offers,
            offers.len(),
        );
    }
}

proof fn lemma_raise(queues: Seq<Seq<usize>>, a: int, b: int)
    requires
        queues_below(queues, a),
        a <= b,
    ensures
        queues_below(queues, b),
{
    assert forall|i: int, j: int|
        0 <= i < queues.len() && 0 <= j < queues[i].len() implies #[trigger] queues[i][j] < b by {
        assert(queues[i][j] < a);
    }
}

proof fn lemma_layout_offers(l: Layout)
    ensures
        offers_ok(
            l.spec_poseidon_offers(),
            l.spec_poseidon_rows(),
            l.spec_tiers().len() as int,
        ),
        offers_ok(l.spec_cmul_offers(), 1, l.spec_tiers().len() as int),
        offers_ok(l.spec_ev_offers(), 1, l.spec_tiers().len() as int),
        offers_ok(l.spec_tree_offers(), l.spec_tree_rows(), l.spec_tiers().len() as int),
        offers_ok(l.spec_sel_offers(), 1, l.spec_tiers().len() as int),
{
}

pub proof fn lemma_bases(l: Layout, c: Counts)
    ensures
        0 <= cmul_base(l, c) <= ev_base(l, c) <= fft_base(l, c) <= tree_base(l, c) <= sel_base(
            l,
            c,
        ) <= custom_rows(l, c),
        rows_of(c.cmul as nat, l.spec_cmul_per_row()) >= 0,
{
    let h = l.spec_poseidon_rows();
    let t = l.spec_tree_rows();
    let n = c.poseidon;
    let m = c.tree;
    assert(0 <= h * n) by (nonlinear_arith)
        requires
            h >= 0,
            n >= 0,
    ;
    assert(0 <= t * m) by (nonlinear_arith)
        requires
            t >= 0,
            m >= 0,
    ;
}

/// Every row that waits for PLONK gates is a row of a custom gate, and none waits twice.
pub proof fn law_waiting_rows(l: Layout, c: Counts)
    requires
        custom_rows(l, c) <= usize::MAX,
    ensures
        planned_queues(l, c).len() == l.spec_tiers().len(),
        queues_below(planned_queues(l, c), custom_rows(l, c)),
{
    lemma_layout_offers(l);
    lemma_bases(l, c);
    let cr = rows_of(c.cmul as nat, l.spec_cmul_per_row());
    let q0 = no_queues(l.spec_tiers().len());
    assert(queues_below(q0, 0)) by {
        assert forall|i: int| 0 <= i < q0.len() implies (#[trigger] q0[i]).len() == 0 by {}
    }
    lemma_all_offers(q0, 0, l.spec_poseidon_rows(), l.spec_poseidon_offers(), c.poseidon as nat);
    let q1 = with_all_offers(
        q0,
        0,
        l.spec_poseidon_rows(),
        l.spec_poseidon_offers(),
        c.poseidon as nat,
    );
    assert(1 * cr == cr);
    lemma_all_offers(q1, cmul_base(l, c), 1, l.spec_cmul_offers(), cr as nat);
    let q2 = with_all_offers(q1, cmul_base(l, c), 1, l.spec_cmul_offers(), cr as nat);
    lemma_all_offers(q2, ev_base(l, c), 1, l.spec_ev_offers(), c.ev_pol4 as nat);
    let q3 = with_all_offers(q2, ev_base(l, c), 1, l.spec_ev_offers(), c.ev_pol4 as nat);
    lemma_raise(q3, fft_base(l, c), tree_base(l, c));
    lemma_all_offers(
        q3,
        tree_base(l, c),
        l.spec_tree_rows(),
        l.spec_tree_offers(),
        c.tree as nat,
    );
    let q4 = with_all_offers(
        q3,
        tree_base(l, c),
        l.spec_tree_rows(),
        l.spec_tree_offers(),
        c.tree as nat,
    );
    lemma_all_offers(q4, sel_base(l, c), 1, l.spec_sel_offers(), c.sel as nat);
}

/// Queue the rows that `n` gates offer, one every `height` rows from `base` on.
fn offer_rows(
    queues: &mut Vec<Vec<usize>>,
    base: usize,
    height: usize,
    offers: &Vec<(usize, usize)>,
    n: usize,
)
    requires
        offers_ok(offers@, height as int, old(queues)@.len() as int),
        base + height * n <= usize::MAX,
    ensures
        grid(final(queues)@) == with_all_offers(
            grid(old(queues)@),
            base as int,
            height as int,
            offers@,
            n as nat,
        ),
        final(queues)@.len() == old(queues)@.len(),
{
    let ghost q0 = grid(queues@);
    let mut row: usize = base;
    let mut i: usize = 0;
    assert(height * 0 == 0) by (nonlinear_arith);
    while i < n
        invariant
            i <= n,
            queues@.len() == old(queues)@.len(),
            offers_ok(offers@, height as int, queues@.len() as int),
            base + height * n <= usize::MAX,
            row == base + height * i,
            grid(queues@) == with_all_offers(
                q0,
                base as int,
                height as int,
                offers@,
                i as nat,
            ),
        decreases n - i,
    {
        proof {
            assert(height * i + height <= height * n) by (nonlinear_arith)
                requires
                    i + 1 <= n,
                    height >= 0,
            ;
            assert(height * (i + 1) == height * i + height) by (nonlinear_arith);
        }
        let ghost q1 = grid(queues@);
        let mut m: usize = 0;
        while m < offers.len()
            invariant
                m <= offers@.len(),
                queues@.len() == old(queues)@.len(),
                offers_ok(offers@, height as int, queues@.len() as int),
                row + height <= usize::MAX,
                grid(queues@) == with_offers(q1, row as int, offers@, m as nat),
            decreases offers@.len() - m,
        {
            let off: usize = offers[m].0;
            let t: usize = offers[m].1;
            assert(offers@[m as int].0 < height && offers@[m as int].1 < queues@.len());
            let ghost before = grid(queues@);
            queues[t].push(row + off);
            m = m + 1;
            proof {
                assert(grid(queues@) =~= before.update(
                    t as int,
                    before[t as int].push((row + off) as usize),
                ));
            }
        }
        row = row + height;
        i = i + 1;
    }
}

/// The rows that wait for PLONK gates once all custom gates are placed.
pub fn plan_queues(l: Layout, c: Counts) -> (r: Vec<Vec<usize>>)
    requires
        custom_rows(l, c) <= usize::MAX,
    ensures
        grid(r@) == planned_queues(l, c),
        r@.len() == l.spec_tiers().len(),
{
    proof {
        lemma_layout_offers(l);
        lemma_bases(l, c);
    }
    let n_tiers: usize = l.tiers().len();
    let mut queues: Vec<Vec<usize>> = Vec::new();
    let mut i: usize = 0;
    while i < n_tiers
        invariant
            i <= n_tiers,
            queues@.len() == i,
            forall|k: int| 0 <= k < i ==> #[trigger] queues@[k]@ == Seq::<usize>::empty(),
        decreases n_tiers - i,
    {
        queues.push(Vec::new());
        i = i + 1;
    }
    assert(grid(queues@) =~= no_queues(l.spec_tiers().len()));
    let per: usize = l.cmul_per_row();
    let cmul_rows: usize = cmul_row_count(c.cmul, per);
    let b1: usize = cmul_start(l, c);
    let ghost cr = cmul_rows as int;
    assert(1 * cr == cr);
    offer_rows(&mut queues, 0, l.poseidon_rows(), &l.poseidon_offers(), c.poseidon);
    offer_rows(&mut queues, b1, 1, &l.cmul_offers(), cmul_rows);
    let b2: usize = b1 + cmul_rows;
    offer_rows(&mut queues, b2, 1, &l.ev_offers(), c.ev_pol4);
    let b4: usize = b2 + c.ev_pol4 + c.fft4;
    offer_rows(&mut queues, b4, l.tree_rows(), &l.tree_offers(), c.tree);
    let b5: usize = sel_start(l, c);
    offer_rows(&mut queues, b5, 1, &l.sel_offers(), c.sel);
    queues
}

/// `n` rounded up to whole rows of `per`.
pub fn cmul_row_count(n: usize, per: usize) -> (r: usize)
    requires
        per == 2 || per == 3,
    ensures
        r == rows_of(n as nat, per as int),
{
    let q: usize = n / per;
    if n % per == 0 {
        q
    } else {
        q + 1
    }
}

/// The first row of complex multiplications.
pub fn cmul_start(l: Layout, c: Counts) -> (r: usize)
    requires
        custom_rows(l, c) <= usize::MAX,
    ensures
        r == cmul_base(l, c),
{
    proof {
        lemma_bases(l, c);
    }
    l.poseidon_rows() * c.poseidon
}

/// The first row of polynomial evaluations.
pub fn ev_start(l: Layout, c: Counts) -> (r: usize)
    requires
        custom_rows(l, c) <= usize::MAX,
    ensures
        r == ev_base(l, c),
{
    proof {
        lemma_bases(l, c);
    }
    cmul_start(l, c) + cmul_row_count(c.cmul, l.cmul_per_row())
}

/// The first row of FFTs.
pub fn fft_start(l: Layout, c: Counts) -> (r: usize)
    requires
        custom_rows(l, c) <= usize::MAX,
    ensures
        r == fft_base(l, c),
{
    proof {
        lemma_bases(l, c);
    }
    ev_start(l, c) + c.ev_pol4
}

/// The first row of tree selectors.
pub fn tree_start(l: Layout, c: Counts) -> (r: usize)
    requires
        custom_rows(l, c) <= usize::MAX,
    ensures
        r == tree_base(l, c),
{
    proof {
        lemma_bases(l, c);
    }
    fft_start(l, c) + c.fft4
}

/// The first row of value selectors.
pub fn sel_start(l: Layout, c: Counts) -> (r: usize)
    requires
        custom_rows(l, c) <= usize::MAX,
    ensures
        r == sel_base(l, c),
{
    proof {
        lemma_bases(l, c);
    }
    tree_start(l, c) + l.tree_rows() * c.tree
}

/// Rows that custom gates take.
pub fn count_custom_rows(l: Layout, c: Counts) -> (r: usize)
    requires
        custom_rows(l, c) <= usize::MAX,
    ensures
        r == custom_rows(l, c),
{
    sel_start(l, c) + c.sel
}

} // verus!

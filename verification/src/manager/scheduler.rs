//! Which witness or instance to launch next, and on which stream to try first.
//!
//! A stream that ran a key last still holds that key's constant tree, so launches of a key prefer
//! such a stream; then a key that no stream holds; and only then a reload. All attempts of a pick
//! are listed in order; the first one that reserves a stream is accepted.
use vstd::prelude::*;

use crate::manager::completion::{Ledger, UnitKey};

verus! {

/// The kinds of proofs.
#[derive(Clone, Copy, PartialEq, Eq, Structural, Debug)]
pub enum ProofType {
    Basic,
    Compressor,
    Recursive1,
    Recursive2,
    VadcopFinal,
    VadcopFinalCompressed,
    RecursiveF,
    RecurserAggregator,
}

/// The number of a kind, as ledgers key it.
pub open spec fn kind_number(t: ProofType) -> usize {
    match t {
        ProofType::Basic => 0,
        ProofType::Compressor => 1,
        ProofType::Recursive1 => 2,
        ProofType::Recursive2 => 3,
        ProofType::VadcopFinal => 4,
        ProofType::VadcopFinalCompressed => 5,
        ProofType::RecursiveF => 6,
        ProofType::RecurserAggregator => 7,
    }
}

impl ProofType {
    /// The number of the kind.
    pub fn as_usize(self) -> (r: usize)
        ensures
            r == kind_number(self),
    {
        match self {
            ProofType::Basic => 0,
            ProofType::Compressor => 1,
            ProofType::Recursive1 => 2,
            ProofType::Recursive2 => 3,
            ProofType::VadcopFinal => 4,
            ProofType::VadcopFinalCompressed => 5,
            ProofType::RecursiveF => 6,
            ProofType::RecurserAggregator => 7,
        }
    }
}

/// Different kinds have different numbers, so their units do not meet in a ledger.
pub proof fn law_kind_numbers_differ(a: ProofType, b: ProofType)
    ensures
        kind_number(a) == kind_number(b) <==> a == b,
{
}

/// What launches must share to reuse a constant tree: airgroup, AIR and kind of proof.
pub type Key = (usize, usize, ProofType);

/// Aggregation proofs run on recursive streams.
pub open spec fn aggregates(t: ProofType) -> bool {
    t == ProofType::Recursive1 || t == ProofType::Recursive2
}

/// Whether proofs of the kind are aggregation proofs.
pub fn is_aggregation(t: ProofType) -> (r: bool)
    ensures
        r == aggregates(t),
{
    t == ProofType::Recursive1 || t == ProofType::Recursive2
}

/// Recursive streams aggregate deeper first.
pub const RECURSIVE_ORDER: [ProofType; 2] = [ProofType::Recursive2, ProofType::Recursive1];

/// A reserved stream that nothing was launched on yet. Releasing it hands the stream back, unless
/// the launch took it over.
#[derive(Debug)]
pub struct StreamReservation {
    stream_id: u32,
    armed: bool,
}

impl StreamReservation {
    /// The stream.
    pub closed spec fn stream(&self) -> u32 {
        self.stream_id
    }

    /// The stream is to be handed back.
    pub closed spec fn is_armed(&self) -> bool {
        self.armed
    }

    /// The reservation of a stream.
    pub fn new(stream_id: u32) -> (r: Self)
        ensures
            r.stream() == stream_id,
            r.is_armed(),
    {
        StreamReservation { stream_id, armed: true }
    }

    /// The stream.
    pub fn stream_id(&self) -> (r: u32)
        ensures
            r == self.stream(),
    {
        self.stream_id
    }

    /// The launch owns the stream now.
    pub fn commit(&mut self)
        ensures
            final(self).stream() == old(self).stream(),
            !final(self).is_armed(),
    {
        self.armed = false;
    }

    /// Give the reservation up; returns the stream that is to be handed back.
    pub fn release(self) -> (r: Option<u32>)
        ensures
            r == if self.is_armed() {
                Some(self.stream())
            } else {
                None
            },
    {
        if self.armed {
            Some(self.stream_id)
        } else {
            None
        }
    }
}

/// A witness that is ready to be proved.
#[derive(Debug)]
pub struct Witness {
    pub proof_type: ProofType,
    pub airgroup_id: usize,
    pub air_id: usize,
    pub global_idx: Option<usize>,
    /// The pooled buffer that holds it.
    pub circom_witness: Vec<u64>,
}

/// The key of a witness.
pub open spec fn witness_key(w: Witness) -> Key {
    (w.airgroup_id, w.air_id, w.proof_type)
}

/// A stored basic instance that is ready to be proved.
#[derive(Clone, Copy, PartialEq, Eq, Structural, Debug)]
pub struct BasicInstance {
    pub instance_id: usize,
    pub airgroup_id: usize,
    pub air_id: usize,
}

/// `a` comes before `b`: the larger backlog, then the lower airgroup and AIR.
pub open spec fn precedes(a: (Key, usize), b: (Key, usize)) -> bool {
    a.1 > b.1 || (a.1 == b.1 && (a.0.0 < b.0.0 || (a.0.0 == b.0.0 && a.0.1 < b.0.1)))
}

fn comes_before(a: &(Key, usize), b: &(Key, usize)) -> (r: bool)
    ensures
        r == precedes(*a, *b),
{
    a.1 > b.1 || (a.1 == b.1 && (a.0.0 < b.0.0 || (a.0.0 == b.0.0 && a.0.1 < b.0.1)))
}

/// Where to insert `x` into a sorted list: before the first entry that it precedes.
pub open spec fn insert_position(s: Seq<(Key, usize)>, x: (Key, usize), i: int) -> int
    decreases s.len() - i,
{
    if i < 0 || i >= s.len() || precedes(x, s[i]) {
        i
    } else {
        insert_position(s, x, i + 1)
    }
}

/// The list with `x` inserted.
pub open spec fn inserted(s: Seq<(Key, usize)>, x: (Key, usize)) -> Seq<(Key, usize)> {
    s.insert(insert_position(s, x, 0), x)
}

/// The first `n` entries of the kind, by order of preference; equal ones in the order given.
pub open spec fn sorted_of(ready: Seq<(Key, usize)>, t: ProofType, n: nat) -> Seq<(Key, usize)>
    decreases n,
{
    if n == 0 {
        Seq::empty()
    } else {
        let rest = sorted_of(ready, t, (n - 1) as nat);
        if ready[n - 1].0.2 == t {
            inserted(rest, ready[n - 1])
        } else {
            rest
        }
    }
}

/// The keys of a list.
pub open spec fn keys_of(s: Seq<(Key, usize)>) -> Seq<Key> {
    Seq::new(s.len(), |i: int| s[i].0)
}

/// The candidates of the first `n` kinds of an order, most preferred first.
pub open spec fn candidates(ready: Seq<(Key, usize)>, order: Seq<ProofType>, n: nat) -> Seq<Key>
    decreases n,
{
    if n == 0 {
        Seq::empty()
    } else {
        candidates(ready, order, (n - 1) as nat) + keys_of(
            sorted_of(ready, order[n - 1], ready.len()),
        )
    }
}

proof fn lemma_insert_position(s: Seq<(Key, usize)>, x: (Key, usize), i: int)
    requires
        0 <= i <= s.len(),
    ensures
        i <= insert_position(s, x, i) <= s.len(),
        forall|j: int| i <= j < insert_position(s, x, i) ==> !precedes(x, #[trigger] s[j]),
        insert_position(s, x, i) < s.len() ==> precedes(x, s[insert_position(s, x, i)]),
    decreases s.len() - i,
{
    if i < s.len() && !precedes(x, s[i]) {
        lemma_insert_position(s, x, i + 1);
    }
}

/// Insert an entry where it belongs.
fn insert_ready(s: &mut Vec<(Key, usize)>, x: (Key, usize))
    ensures
        final(s)@ == inserted(old(s)@, x),
{
    let ghost before = s@;
    let mut i: usize = 0;
    while i < s.len() && !comes_before(&x, &s[i])
        invariant
            i <= s@.len(),
            s@ == before,
            insert_position(before, x, 0) == insert_position(before, x, i as int),
        decreases s@.len() - i,
    {
        i = i + 1;
    }
    assert(insert_position(before, x, 0) == i);
    s.insert(i, x);
}

/// The candidate keys, most preferred first: by kind in the given order, then larger backlog, then
/// lower airgroup and AIR.
pub fn candidate_keys(ready: &[(Key, usize)], order: &[ProofType]) -> (r: Vec<Key>)
    ensures
        r@ == candidates(ready@, order@, order@.len()),
{
    let mut out: Vec<Key> = Vec::new();
    let mut t: usize = 0;
    while t < order.len()
        invariant
            t <= order@.len(),
            out@ == candidates(ready@, order@, t as nat),
        decreases order@.len() - t,
    {
        let mut of_type: Vec<(Key, usize)> = Vec::new();
        let mut i: usize = 0;
        while i < ready.len()
            invariant
                i <= ready@.len(),
                t < order@.len(),
                of_type@ == sorted_of(ready@, order@[t as int], i as nat),
            decreases ready@.len() - i,
        {
            if ready[i].0.2 == order[t] {
                insert_ready(&mut of_type, ready[i]);
            }
            i = i + 1;
        }
        let ghost before = out@;
        let mut k: usize = 0;
        assert(out@ =~= before + keys_of(of_type@).take(0));
        while k < of_type.len()
            invariant
                k <= of_type@.len(),
                out@ == before + keys_of(of_type@).take(k as int),
            decreases of_type@.len() - k,
        {
            out.push(of_type[k].0);
            k = k + 1;
            assert(keys_of(of_type@).take(k as int) =~= keys_of(of_type@).take(k - 1).push(
                of_type@[k - 1].0,
            ));
            assert(out@ =~= before + keys_of(of_type@).take(k as int));
        }
        assert(keys_of(of_type@).take(k as int) =~= keys_of(of_type@));
        t = t + 1;
    }
    out
}

/// The list is in order of preference.
pub open spec fn is_sorted(s: Seq<(Key, usize)>) -> bool {
    forall|i: int, j: int| 0 <= i < j < s.len() ==> !precedes(#[trigger] s[j], #[trigger] s[i])
}

/// Candidates of one kind are in order of preference.
pub proof fn law_candidates_sorted(ready: Seq<(Key, usize)>, t: ProofType, n: nat)
    requires
        n <= ready.len(),
    ensures
        is_sorted(sorted_of(ready, t, n)),
    decreases n,
{
    if n > 0 {
        law_candidates_sorted(ready, t, (n - 1) as nat);
        let s = sorted_of(ready, t, (n - 1) as nat);
        let x = ready[n - 1];
        if x.0.2 == t {
            lemma_insert_position(s, x, 0);
            let p = insert_position(s, x, 0);
            let u = inserted(s, x);
            assert forall|i: int, j: int| 0 <= i < j < u.len() implies !precedes(
                #[trigger] u[j],
                #[trigger] u[i],
            ) by {
                let a = if i < p {
                    i
                } else {
                    i - 1
                };
                let b = if j < p {
                    j
                } else {
                    j - 1
                };
                if i != p && j != p {
                    assert(u[i] == s[a] && u[j] == s[b]);
                } else if j == p {
                    assert(u[i] == s[i]);
                } else {
                    assert(u[j] == s[j - 1]);
                    if precedes(s[j - 1], x) {
                        assert(precedes(x, s[p]));
                        if j - 1 > p {
                            assert(!precedes(s[j - 1], s[p]));
                        }
                    }
                }
            }
        }
    }
}

/// Every ready entry of a kind is a candidate, and no other is.
pub proof fn law_candidates_complete(ready: Seq<(Key, usize)>, t: ProofType, n: nat)
    requires
        n <= ready.len(),
    ensures
        forall|x: (Key, usize)| #[trigger]
            sorted_of(ready, t, n).contains(x) <==> (ready.take(n as int).contains(x) && x.0.2
                == t),
    decreases n,
{
    if n > 0 {
        law_candidates_complete(ready, t, (n - 1) as nat);
        let s = sorted_of(ready, t, (n - 1) as nat);
        let y = ready[n - 1];
        let u = sorted_of(ready, t, n);
        let now = ready.take(n as int);
        let was = ready.take(n - 1);
        assert(now =~= was.push(y));
        lemma_insert_position(s, y, 0);
        let p = insert_position(s, y, 0);
        assert forall|x: (Key, usize)| #[trigger] u.contains(x) <==> (now.contains(x) && x.0.2
            == t) by {
            if y.0.2 == t {
                if u.contains(x) {
                    let j = u.index_of(x);
                    assert(u[j] == x);
                    if j < p {
                        assert(s[j] == x);
                        assert(s.contains(x));
                    } else if j > p {
                        assert(s[j - 1] == x);
                        assert(s.contains(x));
                    }
                }
                if s.contains(x) {
                    let j = s.index_of(x);
                    if j < p {
                        assert(u[j] == x);
                    } else {
                        assert(u[j + 1] == x);
                    }
                }
                assert(u[p] == y);
            }
            if was.contains(x) {
                let j = was.index_of(x);
                assert(now[j] == x);
            }
            if now.contains(x) && x != y {
                let j = now.index_of(x);
                assert(was[j] == x);
            }
            assert(now[n - 1] == y);
        }
    } else {
        assert(ready.take(0) =~= Seq::empty());
    }
}

/// What to try to reserve for a key.
#[derive(Clone, Copy, PartialEq, Eq, Debug)]
pub enum Attempt {
    /// This stream, which holds the key's constant tree, if it is free.
    Reuse { key: Key, stream: usize },
    /// The best free stream.
    Best { key: Key },
}

/// The key of an attempt.
pub open spec fn attempt_key(a: Attempt) -> Key {
    match a {
        Attempt::Reuse { key, stream } => key,
        Attempt::Best { key } => key,
    }
}

/// The streams that hold a key, in ascending order, among the first `n`.
pub open spec fn reuses_upto(warm: Seq<(usize, Key)>, key: Key, n: nat) -> Seq<Attempt>
    decreases n,
{
    if n == 0 {
        Seq::empty()
    } else {
        let rest = reuses_upto(warm, key, (n - 1) as nat);
        if warm[n - 1].1 == key {
            rest.push(Attempt::Reuse { key, stream: warm[n - 1].0 })
        } else {
            rest
        }
    }
}

/// First pass: streams that hold one of the first `n` keys.
pub open spec fn reuse_pass(warm: Seq<(usize, Key)>, keys: Seq<Key>, n: nat) -> Seq<Attempt>
    decreases n,
{
    if n == 0 {
        Seq::empty()
    } else {
        reuse_pass(warm, keys, (n - 1) as nat) + reuses_upto(warm, keys[n - 1], warm.len())
    }
}

/// Some stream holds the key.
pub open spec fn is_warm(warm: Seq<(usize, Key)>, key: Key) -> bool {
    exists|i: int| 0 <= i < warm.len() && (#[trigger] warm[i]).1 == key
}

/// Second pass: keys among the first `n` that no stream holds.
pub open spec fn fresh_pass(warm: Seq<(usize, Key)>, keys: Seq<Key>, n: nat) -> Seq<Attempt>
    decreases n,
{
    if n == 0 {
        Seq::empty()
    } else {
        let rest = fresh_pass(warm, keys, (n - 1) as nat);
        if is_warm(warm, keys[n - 1]) {
            rest
        } else {
            rest.push(Attempt::Best { key: keys[n - 1] })
        }
    }
}

/// Last pass: any of the keys, reloading its tree.
pub open spec fn redundant_pass(keys: Seq<Key>) -> Seq<Attempt> {
    Seq::new(keys.len(), |i: int| Attempt::Best { key: keys[i] })
}

/// All attempts for candidate keys, in order: reuse, fresh load, reload.
pub open spec fn attempts(warm: Seq<(usize, Key)>, keys: Seq<Key>) -> Seq<Attempt> {
    reuse_pass(warm, keys, keys.len()) + fresh_pass(warm, keys, keys.len()) + redundant_pass(keys)
}

/// The backlog of a key among the first `n` entries of a list of keys.
pub open spec fn backlog(keys: Seq<Key>, key: Key, n: nat) -> nat
    decreases n,
{
    if n == 0 {
        0
    } else {
        backlog(keys, key, (n - 1) as nat) + if keys[n - 1] == key {
            1nat
        } else {
            0nat
        }
    }
}

/// The different keys among the first `n`, by first occurrence, each with its backlog in the
/// whole list.
pub open spec fn ready_upto(keys: Seq<Key>, n: nat) -> Seq<(Key, usize)>
    decreases n,
{
    if n == 0 {
        Seq::empty()
    } else {
        let rest = ready_upto(keys, (n - 1) as nat);
        if keys.take(n - 1).contains(keys[n - 1]) {
            rest
        } else {
            rest.push((keys[n - 1], backlog(keys, keys[n - 1], keys.len()) as usize))
        }
    }
}

/// The keys that have something queued, with their backlog.
pub open spec fn ready_of(keys: Seq<Key>) -> Seq<(Key, usize)> {
    ready_upto(keys, keys.len())
}

fn same_key(a: &Key, b: &Key) -> (r: bool)
    ensures
        r == (*a == *b),
{
    a.0 == b.0 && a.1 == b.1 && a.2 == b.2
}

proof fn lemma_backlog_bound(keys: Seq<Key>, key: Key, n: nat)
    ensures
        backlog(keys, key, n) <= n,
    decreases n,
{
    if n > 0 {
        lemma_backlog_bound(keys, key, (n - 1) as nat);
    }
}

/// The keys that have something queued, with their backlog.
fn collect_ready(keys: &Vec<Key>) -> (r: Vec<(Key, usize)>)
    ensures
        r@ == ready_of(keys@),
{
    let mut out: Vec<(Key, usize)> = Vec::new();
    let mut i: usize = 0;
    while i < keys.len()
        invariant
            i <= keys@.len(),
            out@ == ready_upto(keys@, i as nat),
        decreases keys@.len() - i,
    {
        let mut seen: bool = false;
        let mut j: usize = 0;
        while j < i
            invariant
                j <= i < keys@.len(),
                seen == keys@.take(j as int).contains(keys@[i as int]),
            decreases i - j,
        {
            let ghost k = keys@[i as int];
            if same_key(&keys[j], &keys[i]) {
                seen = true;
            }
            j = j + 1;
            proof {
                let now = keys@.take(j as int);
                let was = keys@.take(j - 1);
                assert(now =~= was.push(keys@[j - 1]));
                if was.contains(k) {
                    let x = was.index_of(k);
                    assert(now[x] == k);
                }
                if keys@[j - 1] == k {
                    assert(now[j - 1] == k);
                }
                if now.contains(k) && keys@[j - 1] != k {
                    let x = now.index_of(k);
                    assert(was[x] == k);
                }
            }
        }
        if !seen {
            let mut n: usize = 0;
            let mut m: usize = 0;
            while m < keys.len()
                invariant
                    m <= keys@.len(),
                    i < keys@.len(),
                    n <= m,
                    n == backlog(keys@, keys@[i as int], m as nat),
                decreases keys@.len() - m,
            {
                if same_key(&keys[m], &keys[i]) {
                    n = n + 1;
                }
                m = m + 1;
            }
            out.push((keys[i], n));
        }
        i = i + 1;
    }
    out
}

/// All attempts for candidate keys.
fn list_attempts(warm: &Vec<(usize, Key)>, keys: &Vec<Key>) -> (r: Vec<Attempt>)
    ensures
        r@ == attempts(warm@, keys@),
{
    let mut out: Vec<Attempt> = Vec::new();
    let mut i: usize = 0;
    while i < keys.len()
        invariant
            i <= keys@.len(),
            out@ == reuse_pass(warm@, keys@, i as nat),
        decreases keys@.len() - i,
    {
        let ghost before = out@;
        let mut s: usize = 0;
        assert(out@ =~= before + reuses_upto(warm@, keys@[i as int], 0));
        while s < warm.len()
            invariant
                s <= warm@.len(),
                i < keys@.len(),
                out@ == before + reuses_upto(warm@, keys@[i as int], s as nat),
            decreases warm@.len() - s,
        {
            let ghost mid = out@;
            if same_key(&warm[s].1, &keys[i]) {
                out.push(Attempt::Reuse { key: keys[i], stream: warm[s].0 });
            }
            s = s + 1;
            assert(out@ =~= before + reuses_upto(warm@, keys@[i as int], s as nat));
        }
        i = i + 1;
    }
    let ghost first = out@;
    let mut f: usize = 0;
    assert(out@ =~= first + fresh_pass(warm@, keys@, 0));
    while f < keys.len()
        invariant
            f <= keys@.len(),
            out@ == first + fresh_pass(warm@, keys@, f as nat),
        decreases keys@.len() - f,
    {
        let mut held: bool = false;
        let mut s: usize = 0;
        while s < warm.len()
            invariant
                s <= warm@.len(),
                f < keys@.len(),
                held == exists|k: int| 0 <= k < s && (#[trigger] warm@[k]).1 == keys@[f as int],
            decreases warm@.len() - s,
        {
            if same_key(&warm[s].1, &keys[f]) {
                held = true;
                assert(warm@[s as int].1 == keys@[f as int]);
            }
            s = s + 1;
        }
        if !held {
            out.push(Attempt::Best { key: keys[f] });
        }
        f = f + 1;
        assert(out@ =~= first + fresh_pass(warm@, keys@, f as nat));
    }
    let ghost second = out@;
    let mut r: usize = 0;
    assert(out@ =~= second + redundant_pass(keys@).take(0));
    while r < keys.len()
        invariant
            r <= keys@.len(),
            out@ == second + redundant_pass(keys@).take(r as int),
        decreases keys@.len() - r,
    {
        out.push(Attempt::Best { key: keys[r] });
        r = r + 1;
        assert(redundant_pass(keys@).take(r as int) =~= redundant_pass(keys@).take(r - 1).push(
            Attempt::Best { key: keys@[r - 1] },
        ));
        assert(out@ =~= second + redundant_pass(keys@).take(r as int));
    }
    assert(redundant_pass(keys@).take(r as int) =~= redundant_pass(keys@));
    out
}

/// The keys of queued witnesses.
pub open spec fn witness_keys(ws: Seq<Witness>) -> Seq<Key> {
    Seq::new(ws.len(), |i: int| witness_key(ws[i]))
}

/// The key of a stored instance.
pub open spec fn instance_key(b: BasicInstance) -> Key {
    (b.airgroup_id, b.air_id, ProofType::Basic)
}

/// The keys of the first `n` stored instances; those of resident AIRs only where `all` is set.
pub open spec fn instance_keys(
    bs: Seq<BasicInstance>,
    resident: Set<(usize, usize)>,
    all: bool,
    n: nat,
) -> Seq<Key>
    decreases n,
{
    if n == 0 {
        Seq::empty()
    } else {
        let rest = instance_keys(bs, resident, all, (n - 1) as nat);
        let b = bs[n - 1];
        if all || !resident.contains((b.airgroup_id, b.air_id)) {
            rest.push(instance_key(b))
        } else {
            rest
        }
    }
}

/// The attempts for queued witnesses of the given kinds.
pub open spec fn witness_attempts(
    ws: Seq<Witness>,
    warm: Seq<(usize, Key)>,
    order: Seq<ProofType>,
) -> Seq<Attempt> {
    attempts(warm, candidates(ready_of(witness_keys(ws)), order, order.len()))
}

/// The attempts for stored instances.
pub open spec fn basic_attempts(
    bs: Seq<BasicInstance>,
    resident: Set<(usize, usize)>,
    warm: Seq<(usize, Key)>,
    all: bool,
) -> Seq<Attempt> {
    attempts(
        warm,
        candidates(
            ready_of(instance_keys(bs, resident, all, bs.len())),
            seq![ProofType::Basic],
            1,
        ),
    )
}

/// The first position of a key.
pub open spec fn first_of(keys: Seq<Key>, key: Key, i: int) -> int
    decreases keys.len() - i,
{
    if i < 0 || i >= keys.len() || keys[i] == key {
        i
    } else {
        first_of(keys, key, i + 1)
    }
}

/// The streams are listed once each, in ascending order.
pub open spec fn streams_ascend(warm: Seq<(usize, Key)>) -> bool {
    forall|i: int, j: int| 0 <= i < j < warm.len() ==> (#[trigger] warm[i]).0 < (#[trigger] warm[j]).0
}

/// The key that each stream holds.
pub open spec fn held(warm: Seq<(usize, Key)>) -> Map<usize, Key> {
    Map::new(
        |s: usize| exists|i: int| 0 <= i < warm.len() && (#[trigger] warm[i]).0 == s,
        |s: usize| warm[choose|i: int| 0 <= i < warm.len() && (#[trigger] warm[i]).0 == s].1,
    )
}

/// What a stream worker is to launch.
pub enum WorkerPick {
    /// A queued witness, on the reserved stream.
    Recursive(Witness, StreamReservation),
    /// A stored basic instance, on the reserved stream.
    Basic(usize, StreamReservation),
}

/// Queued witnesses and stored instances, and what the streams hold.
pub struct RecursiveScheduler {
    queue: Vec<Witness>,
    basics: Vec<BasicInstance>,
    resident: Vec<(usize, usize)>,
    warm: Vec<(usize, Key)>,
}

impl RecursiveScheduler {
    /// The queued witnesses, in the order of their arrival.
    pub closed spec fn witnesses(&self) -> Seq<Witness> {
        self.queue@
    }

    /// The stored instances, in the order of their arrival.
    pub closed spec fn instances(&self) -> Seq<BasicInstance> {
        self.basics@
    }

    /// The AIRs whose constant tree is resident.
    pub closed spec fn resident_airs(&self) -> Set<(usize, usize)> {
        self.resident@.to_set()
    }

    /// The key that each stream holds, by ascending stream.
    pub closed spec fn streams(&self) -> Seq<(usize, Key)> {
        self.warm@
    }

    /// Streams are listed once each, in ascending order.
    pub open spec fn wf(&self) -> bool {
        streams_ascend(self.streams())
    }

    /// Nothing queued, nothing held.
    pub fn new() -> (r: Self)
        ensures
            r.wf(),
            r.witnesses().len() == 0,
            r.instances().len() == 0,
            r.resident_airs() == Set::<(usize, usize)>::empty(),
            r.streams().len() == 0,
    {
        let r = RecursiveScheduler {
            queue: Vec::new(),
            basics: Vec::new(),
            resident: Vec::new(),
            warm: Vec::new(),
        };
        assert(r.resident_airs() =~= Set::<(usize, usize)>::empty());
        r
    }

    /// Queue a witness.
    pub fn push(&mut self, w: Witness)
        ensures
            final(self).witnesses() == old(self).witnesses().push(w),
            final(self).instances() == old(self).instances(),
            final(self).resident_airs() == old(self).resident_airs(),
            final(self).streams() == old(self).streams(),
    {
        self.queue.push(w);
    }

    /// Whether no witness is queued.
    pub fn is_empty(&self) -> (r: bool)
        ensures
            r == (self.witnesses().len() == 0),
    {
        self.queue.len() == 0
    }

    /// Store a basic instance; `resident` says that its AIR's constant tree is on the device.
    pub fn push_basic(
        &mut self,
        instance_id: usize,
        airgroup_id: usize,
        air_id: usize,
        resident: bool,
    )
        ensures
            final(self).witnesses() == old(self).witnesses(),
            final(self).instances() == old(self).instances().push(
                BasicInstance { instance_id, airgroup_id, air_id },
            ),
            final(self).resident_airs() == if resident {
                old(self).resident_airs().insert((airgroup_id, air_id))
            } else {
                old(self).resident_airs()
            },
            final(self).streams() == old(self).streams(),
    {
        if resident {
            let ghost before = self.resident@;
            self.resident.push((airgroup_id, air_id));
            proof {
                let k = (airgroup_id, air_id);
                assert forall|x: (usize, usize)| #[trigger] self.resident@.contains(x)
                    <==> before.contains(x) || x == k by {
                    if before.contains(x) {
                        let j = before.index_of(x);
                        assert(self.resident@[j] == x);
                    }
                    if x == k {
                        assert(self.resident@[before.len() as int] == x);
                    }
                    if self.resident@.contains(x) && x != k {
                        let j = self.resident@.index_of(x);
                        assert(before[j] == x);
                    }
                }
                assert(self.resident@.to_set() =~= before.to_set().insert(k));
            }
        }
        self.basics.push(BasicInstance { instance_id, airgroup_id, air_id });
    }

    /// Whether no basic instance is stored.
    pub fn basic_is_empty(&self) -> (r: bool)
        ensures
            r == (self.instances().len() == 0),
    {
        self.basics.len() == 0
    }

    /// The attempts for queued witnesses of the given kinds.
    pub fn next_of_types(&self, order: &[ProofType]) -> (r: Vec<Attempt>)
        ensures
            r@ == witness_attempts(self.witnesses(), self.streams(), order@),
    {
        let mut keys: Vec<Key> = Vec::new();
        let mut i: usize = 0;
        while i < self.queue.len()
            invariant
                i <= self.queue@.len(),
                keys@.len() == i,
                forall|k: int| 0 <= k < i ==> #[trigger] keys@[k] == witness_key(self.queue@[k]),
            decreases self.queue@.len() - i,
        {
            let w: &Witness = &self.queue[i];
            keys.push((w.airgroup_id, w.air_id, w.proof_type));
            i = i + 1;
        }
        assert(keys@ =~= witness_keys(self.queue@));
        let ready: Vec<(Key, usize)> = collect_ready(&keys);
        let cands: Vec<Key> = candidate_keys(ready.as_slice(), order);
        list_attempts(&self.warm, &cands)
    }

    /// The attempts of a recursive stream: deeper aggregations first, never a compressor.
    pub fn next_recursive(&self) -> (r: Vec<Attempt>)
        ensures
            r@ == witness_attempts(
                self.witnesses(),
                self.streams(),
                seq![ProofType::Recursive2, ProofType::Recursive1],
            ),
    {
        let order: [ProofType; 2] = RECURSIVE_ORDER;
        assert(order@ =~= seq![ProofType::Recursive2, ProofType::Recursive1]);
        self.next_of_types(order.as_slice())
    }

    /// The attempts for stored instances; those of resident AIRs only where `include_resident`.
    pub fn next_basic(&self, include_resident: bool) -> (r: Vec<Attempt>)
        ensures
            r@ == basic_attempts(
                self.instances(),
                self.resident_airs(),
                self.streams(),
                include_resident,
            ),
    {
        let ghost res = self.resident_airs();
        let mut keys: Vec<Key> = Vec::new();
        let mut i: usize = 0;
        while i < self.basics.len()
            invariant
                i <= self.basics@.len(),
                res == self.resident_airs(),
                keys@ == instance_keys(self.basics@, res, include_resident, i as nat),
            decreases self.basics@.len() - i,
        {
            let b: BasicInstance = self.basics[i];
            let mut found: bool = false;
            let mut j: usize = 0;
            while j < self.resident.len()
                invariant
                    j <= self.resident@.len(),
                    found == exists|k: int|
                        0 <= k < j && #[trigger] self.resident@[k] == (b.airgroup_id, b.air_id),
                decreases self.resident@.len() - j,
            {
                if self.resident[j].0 == b.airgroup_id && self.resident[j].1 == b.air_id {
                    found = true;
                    assert(self.resident@[j as int] == (b.airgroup_id, b.air_id));
                }
                j = j + 1;
            }
            proof {
                if found {
                    let k = choose|k: int|
                        0 <= k < j && #[trigger] self.resident@[k] == (b.airgroup_id, b.air_id);
                    assert(self.resident@.contains((b.airgroup_id, b.air_id)));
                }
                if self.resident@.contains((b.airgroup_id, b.air_id)) {
                    let k = self.resident@.index_of((b.airgroup_id, b.air_id));
                    assert(self.resident@[k] == (b.airgroup_id, b.air_id));
                }
                assert(found == res.contains((b.airgroup_id, b.air_id)));
            }
            if include_resident || !found {
                keys.push((b.airgroup_id, b.air_id, ProofType::Basic));
            }
            i = i + 1;
        }
        let ready: Vec<(Key, usize)> = collect_ready(&keys);
        let order: [ProofType; 1] = [ProofType::Basic];
        assert(order@ =~= seq![ProofType::Basic]);
        let cands: Vec<Key> = candidate_keys(ready.as_slice(), order.as_slice());
        list_attempts(&self.warm, &cands)
    }

    /// The attempts of a non-recursive stream: compressors, then stored instances, then
    /// aggregations. Instances of resident AIRs fill in only where no witness is queued.
    pub fn next_nonrecursive(&self) -> (r: Vec<Attempt>)
        ensures
            r@ == witness_attempts(self.witnesses(), self.streams(), seq![ProofType::Compressor])
                + basic_attempts(
                self.instances(),
                self.resident_airs(),
                self.streams(),
                self.witnesses().len() == 0,
            ) + witness_attempts(
                self.witnesses(),
                self.streams(),
                seq![ProofType::Recursive2, ProofType::Recursive1],
            ),
    {
        let order: [ProofType; 1] = [ProofType::Compressor];
        assert(order@ =~= seq![ProofType::Compressor]);
        let mut out: Vec<Attempt> = self.next_of_types(order.as_slice());
        let allow_resident: bool = self.is_empty();
        let mut basics: Vec<Attempt> = self.next_basic(allow_resident);
        let mut rest: Vec<Attempt> = self.next_recursive();
        out.append(&mut basics);
        out.append(&mut rest);
        out
    }

    /// Record that a stream holds a key.
    fn set_warm(&mut self, stream: usize, key: Key)
        requires
            old(self).wf(),
        ensures
            final(self).wf(),
            final(self).witnesses() == old(self).witnesses(),
            final(self).instances() == old(self).instances(),
            final(self).resident_airs() == old(self).resident_airs(),
            held(final(self).streams()) == held(old(self).streams()).insert(stream, key),
    {
        let ghost before = self.warm@;
        let mut pos: usize = 0;
        while pos < self.warm.len() && self.warm[pos].0 < stream
            invariant
                pos <= self.warm@.len(),
                self.warm@ == before,
                forall|i: int| 0 <= i < pos ==> (#[trigger] before[i]).0 < stream,
            decreases self.warm@.len() - pos,
        {
            pos = pos + 1;
        }
        if pos < self.warm.len() && self.warm[pos].0 == stream {
            self.warm[pos] = (stream, key);
            proof {
                let now = self.warm@;
                assert forall|i: int, j: int| 0 <= i < j < now.len() implies (#[trigger] now[i]).0
                    < (#[trigger] now[j]).0 by {
                    assert(before[i].0 < before[j].0);
                }
                assert forall|i: int| 0 <= i < now.len() implies (#[trigger] now[i]).0
                    == before[i].0 by {}
                lemma_held(before);
                lemma_held(now);
                assert(held(now) =~= held(before).insert(stream, key)) by {
                    assert forall|s: usize| #[trigger]
                        held(now).dom().contains(s) <==> held(before).insert(
                            stream,
                            key,
                        ).dom().contains(s) by {
                        if held(now).dom().contains(s) {
                            let i = choose|i: int| 0 <= i < now.len() && (#[trigger] now[i]).0 == s;
                            assert(before[i].0 == s);
                        }
                        if held(before).dom().contains(s) {
                            let i = choose|i: int|
                                0 <= i < before.len() && (#[trigger] before[i]).0 == s;
                            assert(now[i].0 == s);
                        }
                        assert(now[pos as int].0 == stream);
                    }
                    assert forall|s: usize| held(now).dom().contains(s) implies #[trigger] held(
                        now,
                    )[s] == held(before).insert(stream, key)[s] by {
                        let i = choose|i: int| 0 <= i < now.len() && (#[trigger] now[i]).0 == s;
                        assert(held(now)[s] == now[i].1);
                        if s != stream {
                            assert(before[i].0 == s);
                            assert(held(before)[s] == before[i].1);
                        } else {
                            assert(now[pos as int].0 == stream);
                            assert(held(now)[s] == now[pos as int].1);
                        }
                    }
                }
            }
        } else {
            self.warm.insert(pos, (stream, key));
            proof {
                let now = self.warm@;
                assert(now == before.insert(pos as int, (stream, key)));
                if (pos as int) < before.len() {
                    assert(before[pos as int].0 > stream);
                }
                assert forall|i: int, j: int| 0 <= i < j < now.len() implies (#[trigger] now[i]).0
                    < (#[trigger] now[j]).0 by {
                    if i < pos && j > pos {
                        assert(before[i].0 < before[j - 1].0);
                    } else if i < pos && j < pos {
                        assert(before[i].0 < before[j].0);
                    } else if i > pos {
                        assert(before[i - 1].0 < before[j - 1].0);
                    } else if i == pos {
                        assert(now[j] == before[j - 1]);
                        if j - 1 > pos {
                            assert(before[pos as int].0 < before[j - 1].0);
                        }
                    }
                }
                lemma_held(before);
                lemma_held(now);
                assert(held(now) =~= held(before).insert(stream, key)) by {
                    assert forall|s: usize| #[trigger]
                        held(now).dom().contains(s) <==> held(before).insert(
                            stream,
                            key,
                        ).dom().contains(s) by {
                        if held(now).dom().contains(s) && s != stream {
                            let i = choose|i: int| 0 <= i < now.len() && (#[trigger] now[i]).0 == s;
                            if i < pos {
                                assert(before[i].0 == s);
                            } else {
                                assert(before[i - 1].0 == s);
                            }
                        }
                        if held(before).dom().contains(s) {
                            let i = choose|i: int|
                                0 <= i < before.len() && (#[trigger] before[i]).0 == s;
                            if i < pos {
                                assert(now[i].0 == s);
                            } else {
                                assert(now[i + 1].0 == s);
                            }
                        }
                        assert(now[pos as int].0 == stream);
                    }
                    assert forall|s: usize| held(now).dom().contains(s) implies #[trigger] held(
                        now,
                    )[s] == held(before).insert(stream, key)[s] by {
                        let i = choose|i: int| 0 <= i < now.len() && (#[trigger] now[i]).0 == s;
                        assert(held(now)[s] == now[i].1);
                        if s != stream {
                            let b = if i < pos {
                                i
                            } else {
                                i - 1
                            };
                            assert(before[b] == now[i]);
                            assert(held(before)[s] == before[b].1);
                        } else {
                            assert(now[pos as int].0 == stream);
                            assert(held(now)[s] == now[pos as int].1);
                        }
                    }
                }
            }
        }
    }

    /// Accept an attempt that reserved `stream`: take the first queued witness, or the first stored
    /// instance, of its key, and remember what the stream holds.
    pub fn accept(&mut self, a: Attempt, stream: u32) -> (r: WorkerPick)
        requires
            old(self).wf(),
            attempt_key(a).2 != ProofType::Basic ==> witness_keys(
                old(self).witnesses(),
            ).contains(attempt_key(a)),
            attempt_key(a).2 == ProofType::Basic ==> instance_keys(
                old(self).instances(),
                Set::empty(),
                true,
                old(self).instances().len(),
            ).contains(attempt_key(a)),
        ensures
            final(self).wf(),
            final(self).resident_airs() == old(self).resident_airs(),
            held(final(self).streams()) == match a {
                Attempt::Reuse { key, stream: s } => held(old(self).streams()),
                Attempt::Best { key } => held(old(self).streams()).insert(stream as usize, key),
            },
            ({
                let key = attempt_key(a);
                if key.2 == ProofType::Basic {
                    let i = first_of(
                        instance_keys(
                            old(self).instances(),
                            Set::empty(),
                            true,
                            old(self).instances().len(),
                        ),
                        key,
                        0,
                    );
                    &&& 0 <= i < old(self).instances().len()
                    &&& instance_key(old(self).instances()[i]) == key
                    &&& final(self).witnesses() == old(self).witnesses()
                    &&& final(self).instances() == old(self).instances().remove(i)
                    &&& r matches WorkerPick::Basic(id, res) && id == old(self).instances()[i].instance_id && res.stream() == stream && res.is_armed()
                } else {
                    let i = first_of(witness_keys(old(self).witnesses()), key, 0);
                    &&& 0 <= i < old(self).witnesses().len()
                    &&& witness_key(old(self).witnesses()[i]) == key
                    &&& final(self).instances() == old(self).instances()
                    &&& final(self).witnesses() == old(self).witnesses().remove(i)
                    &&& r matches WorkerPick::Recursive(w, res) && w == old(self).witnesses()[i]
                        && res.stream() == stream && res.is_armed()
                }
            }),
    {
        let key: Key = match a {
            Attempt::Reuse { key, stream: _s } => key,
            Attempt::Best { key } => key,
        };
        match a {
            Attempt::Reuse { key: _k, stream: _s } => {},
            Attempt::Best { key: _k } => {
                self.set_warm(stream as usize, key);
            },
        }
        let reservation: StreamReservation = StreamReservation::new(stream);
        if key.2 == ProofType::Basic {
            let ghost keys = instance_keys(
                self.instances(),
                Set::empty(),
                true,
                self.instances().len(),
            );
            proof {
                lemma_all_instance_keys(self.instances(), self.instances().len());
                lemma_first_of(keys, key, 0);
            }
            let mut i: usize = 0;
            while i < self.basics.len() && !(self.basics[i].airgroup_id == key.0
                && self.basics[i].air_id == key.1)
                invariant
                    i <= self.basics@.len(),
                    key.2 == ProofType::Basic,
                    keys.len() == self.basics@.len(),
                    forall|j: int|
                        0 <= j < keys.len() ==> #[trigger] keys[j] == instance_key(self.basics@[j]),
                    first_of(keys, key, 0) == first_of(keys, key, i as int),
                decreases self.basics@.len() - i,
            {
                assert(keys[i as int] != key);
                i = i + 1;
            }
            assert(i < keys.len());
            assert(keys[i as int] == key);
            let b: BasicInstance = self.basics.remove(i);
            WorkerPick::Basic(b.instance_id, reservation)
        } else {
            let ghost keys = witness_keys(self.witnesses());
            proof {
                lemma_first_of(keys, key, 0);
            }
            let mut i: usize = 0;
            while i < self.queue.len() && !(self.queue[i].airgroup_id == key.0
                && self.queue[i].air_id == key.1 && self.queue[i].proof_type == key.2)
                invariant
                    i <= self.queue@.len(),
                    keys == witness_keys(self.queue@),
                    first_of(keys, key, 0) == first_of(keys, key, i as int),
                decreases self.queue@.len() - i,
            {
                assert(keys[i as int] != key);
                i = i + 1;
            }
            assert(i < keys.len());
            assert(keys[i as int] == key);
            let w: Witness = self.queue.remove(i);
            WorkerPick::Recursive(w, reservation)
        }
    }

    /// Take everything that is queued or stored, and forget which AIRs are resident.
    pub fn drain_all(&mut self) -> (r: (Vec<Witness>, Vec<usize>))
        ensures
            r.0@ == old(self).witnesses(),
            r.1@ == Seq::new(
                old(self).instances().len(),
                |i: int| old(self).instances()[i].instance_id,
            ),
            final(self).witnesses().len() == 0,
            final(self).instances().len() == 0,
            final(self).resident_airs() == Set::<(usize, usize)>::empty(),
            final(self).streams() == old(self).streams(),
    {
        let mut witnesses: Vec<Witness> = Vec::new();
        witnesses.append(&mut self.queue);
        let mut ids: Vec<usize> = Vec::new();
        let mut i: usize = 0;
        while i < self.basics.len()
            invariant
                i <= self.basics@.len(),
                self.basics@ == old(self).basics@,
                ids@ == Seq::new(i as nat, |k: int| self.basics@[k].instance_id),
            decreases self.basics@.len() - i,
        {
            ids.push(self.basics[i].instance_id);
            i = i + 1;
            assert(ids@ =~= Seq::new(i as nat, |k: int| self.basics@[k].instance_id));
        }
        self.basics.clear();
        self.resident.clear();
        assert(self.resident@.to_set() =~= Set::<(usize, usize)>::empty());
        assert(witnesses@ =~= old(self).queue@);
        (witnesses, ids)
    }
}

proof fn lemma_held(warm: Seq<(usize, Key)>)
    requires
        streams_ascend(warm),
    ensures
        forall|s: usize, i: int|
            #![trigger held(warm)[s], warm[i]]
            0 <= i < warm.len() && warm[i].0 == s ==> held(warm).dom().contains(s) && held(warm)[s]
                == warm[i].1,
{
    assert forall|s: usize, i: int|
        #![trigger held(warm)[s], warm[i]]
        0 <= i < warm.len() && warm[i].0 == s implies held(warm).dom().contains(s) && held(warm)[s]
        == warm[i].1 by {
        let j = choose|j: int| 0 <= j < warm.len() && (#[trigger] warm[j]).0 == s;
        if i < j {
            assert(warm[i].0 < warm[j].0);
        } else if j < i {
            assert(warm[j].0 < warm[i].0);
        }
    }
}

proof fn lemma_first_of(keys: Seq<Key>, key: Key, i: int)
    requires
        0 <= i,
        exists|j: int| i <= j < keys.len() && keys[j] == key,
    ensures
        i <= first_of(keys, key, i) < keys.len(),
        keys[first_of(keys, key, i)] == key,
    decreases keys.len() - i,
{
    if i < keys.len() && keys[i] != key {
        let j = choose|j: int| i <= j < keys.len() && keys[j] == key;
        assert(i + 1 <= j);
        lemma_first_of(keys, key, i + 1);
    }
}

proof fn lemma_all_instance_keys(bs: Seq<BasicInstance>, n: nat)
    requires
        n <= bs.len(),
    ensures
        instance_keys(bs, Set::empty(), true, n).len() == n,
        forall|i: int|
            0 <= i < n ==> #[trigger] instance_keys(bs, Set::empty(), true, n)[i] == instance_key(
                bs[i],
            ),
    decreases n,
{
    if n > 0 {
        lemma_all_instance_keys(bs, (n - 1) as nat);
    }
}

/// A buffer on its way back to the pool it was taken from.
#[derive(Debug)]
pub struct ReturnedBuffer {
    pub buffer: Vec<u64>,
    /// It came from the compressor pool.
    pub compressor: bool,
}

/// The units once those of the first `n` witnesses are settled.
pub open spec fn settled_units(units: Set<UnitKey>, ws: Seq<Witness>, n: nat) -> Set<UnitKey>
    decreases n,
{
    if n == 0 {
        units
    } else {
        let rest = settled_units(units, ws, (n - 1) as nat);
        match ws[n - 1].global_idx {
            Some(i) => rest.remove((i as u64, kind_number(ws[n - 1].proof_type))),
            None => rest,
        }
    }
}

/// Recover drained witnesses: each buffer goes back to the pool of its kind, and the unit armed
/// for each witness is settled.
pub fn recover_drained_witnesses(witnesses: Vec<Witness>, ledger: &mut Ledger) -> (r: Vec<
    ReturnedBuffer,
>)
    requires
        old(ledger).wf(),
    ensures
        final(ledger).wf(),
        final(ledger).number() == old(ledger).number(),
        final(ledger).units() == settled_units(
            old(ledger).units(),
            witnesses@,
            witnesses@.len(),
        ),
        r@.len() == witnesses@.len(),
        forall|i: int|
            0 <= i < r@.len() ==> (#[trigger] r@[i]).buffer == witnesses@[i].circom_witness
                && r@[i].compressor == (witnesses@[i].proof_type == ProofType::Compressor),
{
    let ghost ws = witnesses@;
    let mut rest: Vec<Witness> = witnesses;
    let mut out: Vec<ReturnedBuffer> = Vec::new();
    let ghost mut n: int = 0;
    while rest.len() > 0
        invariant
            ledger.wf(),
            ledger.number() == old(ledger).number(),
            0 <= n <= ws.len(),
            rest@ == ws.skip(n),
            out@.len() == n,
            ledger.units() == settled_units(old(ledger).units(), ws, n as nat),
            forall|i: int|
                0 <= i < n ==> (#[trigger] out@[i]).buffer == ws[i].circom_witness
                    && out@[i].compressor == (ws[i].proof_type == ProofType::Compressor),
        decreases rest@.len(),
    {
        let w: Witness = rest.remove(0);
        proof {
            assert(w == ws[n]);
            assert(rest@ =~= ws.skip(n + 1));
        }
        let compressor: bool = w.proof_type == ProofType::Compressor;
        if let Some(idx) = w.global_idx {
            let _woke: bool = ledger.settle(idx as u64, w.proof_type.as_usize());
        }
        out.push(ReturnedBuffer { buffer: w.circom_witness, compressor });
        proof {
            n = n + 1;
        }
    }
    out
}

/// `std::cmp::Reverse`, with its value.
#[verifier::external_type_specification]
#[verifier::reject_recursive_types(T)]
pub struct ExReverse<T>(std::cmp::Reverse<T>);

/// The tier of a basic proof: stored AIRs with a compressor first, then stored ones, then those
/// with a compressor.
pub open spec fn priority_tier(is_stored: bool, has_compressor: bool) -> u8 {
    if is_stored && has_compressor {
        0
    } else if is_stored {
        1
    } else if has_compressor {
        2
    } else {
        3
    }
}

/// The sort key of a basic proof: its tier, then heavier proofs first, then by airgroup and AIR
/// so that an AIR's instances stay together.
pub fn schedule_key(
    airgroup_id: usize,
    air_id: usize,
    is_stored: bool,
    has_compressor: bool,
    proof_cost: u64,
) -> (r: (u8, std::cmp::Reverse<u64>, usize, usize))
    ensures
        r.0 == priority_tier(is_stored, has_compressor),
        r.1.0 == proof_cost,
        r.2 == airgroup_id,
        r.3 == air_id,
{
    let tier: u8 = if is_stored && has_compressor {
        0
    } else if is_stored {
        1
    } else if has_compressor {
        2
    } else {
        3
    };
    (tier, std::cmp::Reverse(proof_cost), airgroup_id, air_id)
}

/// Nothing is left untried: every key with something queued is among the last attempts.
pub proof fn law_every_candidate_is_tried(warm: Seq<(usize, Key)>, keys: Seq<Key>, i: int)
    requires
        0 <= i < keys.len(),
    ensures
        attempts(warm, keys).contains(Attempt::Best { key: keys[i] }),
{
    let front = reuse_pass(warm, keys, keys.len()) + fresh_pass(warm, keys, keys.len());
    let all = attempts(warm, keys);
    assert(all[front.len() + i] == Attempt::Best { key: keys[i] });
}

proof fn lemma_reuses(warm: Seq<(usize, Key)>, key: Key, n: nat)
    requires
        n <= warm.len(),
    ensures
        forall|j: int|
            0 <= j < reuses_upto(warm, key, n).len() ==> (#[trigger] reuses_upto(
                warm,
                key,
                n,
            )[j] matches Attempt::Reuse { key: k, stream } && k == key && exists|i: int|
                0 <= i < warm.len() && #[trigger] warm[i] == (stream, key)),
        (exists|i: int| 0 <= i < n && (#[trigger] warm[i]).1 == key) ==> reuses_upto(
            warm,
            key,
            n,
        ).len() > 0,
    decreases n,
{
    if n > 0 {
        lemma_reuses(warm, key, (n - 1) as nat);
        if warm[n - 1].1 == key {
            assert(warm[n - 1] == (warm[n - 1].0, key));
        } else if exists|i: int| 0 <= i < n && (#[trigger] warm[i]).1 == key {
            let i = choose|i: int| 0 <= i < n && (#[trigger] warm[i]).1 == key;
            assert(0 <= i < n - 1);
        }
    }
}

/// A stream is tried for reuse only where it holds the key.
pub proof fn law_reuse_is_warm(warm: Seq<(usize, Key)>, keys: Seq<Key>, n: nat)
    requires
        n <= keys.len(),
    ensures
        forall|j: int|
            0 <= j < reuse_pass(warm, keys, n).len() ==> (#[trigger] reuse_pass(
                warm,
                keys,
                n,
            )[j] matches Attempt::Reuse { key, stream } && exists|i: int|
                0 <= i < warm.len() && #[trigger] warm[i] == (stream, key)),
    decreases n,
{
    if n > 0 {
        law_reuse_is_warm(warm, keys, (n - 1) as nat);
        lemma_reuses(warm, keys[n - 1], warm.len());
        let a = reuse_pass(warm, keys, (n - 1) as nat);
        let b = reuses_upto(warm, keys[n - 1], warm.len());
        let c = reuse_pass(warm, keys, n);
        assert forall|j: int| 0 <= j < c.len() implies (
        #[trigger] c[j] matches Attempt::Reuse { key, stream } && exists|i: int|
            0 <= i < warm.len() && #[trigger] warm[i] == (stream, key)) by {
            if j < a.len() {
                assert(c[j] == a[j]);
            } else {
                assert(c[j] == b[j - a.len()]);
            }
        }
    }
}

proof fn lemma_fresh_keys(warm: Seq<(usize, Key)>, keys: Seq<Key>, n: nat)
    requires
        n <= keys.len(),
    ensures
        forall|j: int|
            0 <= j < fresh_pass(warm, keys, n).len() ==> keys.contains(
                attempt_key(#[trigger] fresh_pass(warm, keys, n)[j]),
            ),
    decreases n,
{
    if n > 0 {
        lemma_fresh_keys(warm, keys, (n - 1) as nat);
        assert(keys.contains(keys[n - 1]));
        let rest = fresh_pass(warm, keys, (n - 1) as nat);
        let c = fresh_pass(warm, keys, n);
        assert forall|j: int| 0 <= j < c.len() implies keys.contains(
            attempt_key(#[trigger] c[j]),
        ) by {
            if j < rest.len() {
                assert(c[j] == rest[j]);
            }
        }
    }
}

proof fn lemma_reuse_keys(warm: Seq<(usize, Key)>, keys: Seq<Key>, n: nat)
    requires
        n <= keys.len(),
    ensures
        forall|j: int|
            0 <= j < reuse_pass(warm, keys, n).len() ==> keys.contains(
                attempt_key(#[trigger] reuse_pass(warm, keys, n)[j]),
            ),
    decreases n,
{
    if n > 0 {
        lemma_reuse_keys(warm, keys, (n - 1) as nat);
        lemma_reuses(warm, keys[n - 1], warm.len());
        let a = reuse_pass(warm, keys, (n - 1) as nat);
        let b = reuses_upto(warm, keys[n - 1], warm.len());
        let c = reuse_pass(warm, keys, n);
        assert(keys.contains(keys[n - 1]));
        assert forall|j: int| 0 <= j < c.len() implies keys.contains(
            attempt_key(#[trigger] c[j]),
        ) by {
            if j < a.len() {
                assert(c[j] == a[j]);
            } else {
                assert(c[j] == b[j - a.len()]);
            }
        }
    }
}

/// Every attempt is for one of the candidate keys.
pub proof fn law_attempts_are_for_candidates(warm: Seq<(usize, Key)>, keys: Seq<Key>, j: int)
    requires
        0 <= j < attempts(warm, keys).len(),
    ensures
        keys.contains(attempt_key(attempts(warm, keys)[j])),
{
    lemma_reuse_keys(warm, keys, keys.len());
    lemma_fresh_keys(warm, keys, keys.len());
    let a = reuse_pass(warm, keys, keys.len());
    let b = fresh_pass(warm, keys, keys.len());
    let all = attempts(warm, keys);
    if j < a.len() {
        assert(all[j] == a[j]);
    } else if j < a.len() + b.len() {
        assert(all[j] == b[j - a.len()]);
    } else {
        let i = j - a.len() - b.len();
        assert(all[j] == Attempt::Best { key: keys[i] });
        assert(keys.contains(keys[i]));
    }
}

proof fn lemma_candidates_ready(ready: Seq<(Key, usize)>, order: Seq<ProofType>, n: nat, k: Key)
    requires
        n <= order.len(),
        candidates(ready, order, n).contains(k),
    ensures
        exists|i: int| 0 <= i < ready.len() && (#[trigger] ready[i]).0 == k,
        order.take(n as int).contains(k.2),
    decreases n,
{
    let c = candidates(ready, order, n);
    let j = c.index_of(k);
    assert(c[j] == k);
    let a = candidates(ready, order, (n - 1) as nat);
    let t = order[n - 1];
    let s = sorted_of(ready, t, ready.len());
    let upto = order.take(n as int);
    if j < a.len() {
        assert(a[j] == k);
        lemma_candidates_ready(ready, order, (n - 1) as nat, k);
        let before = order.take(n - 1);
        let x = before.index_of(k.2);
        assert(upto[x] == k.2);
    } else {
        assert(keys_of(s)[j - a.len()] == k);
        let e = s[j - a.len()];
        assert(s.contains(e));
        law_candidates_complete(ready, t, ready.len());
        assert(ready.take(ready.len() as int) =~= ready);
        assert(ready.contains(e));
        let x = ready.index_of(e);
        assert(ready[x].0 == k);
        assert(upto[n - 1] == k.2);
    }
}

proof fn lemma_ready_keys(keys: Seq<Key>, n: nat, i: int)
    requires
        n <= keys.len(),
        0 <= i < ready_upto(keys, n).len(),
    ensures
        keys.contains(ready_upto(keys, n)[i].0),
    decreases n,
{
    let rest = ready_upto(keys, (n - 1) as nat);
    if i < rest.len() {
        lemma_ready_keys(keys, (n - 1) as nat, i);
        assert(ready_upto(keys, n)[i] == rest[i]);
    } else {
        assert(ready_upto(keys, n)[i].0 == keys[n - 1]);
    }
}

/// Every attempt for witnesses is for a key of the given kinds that has a witness queued.
pub proof fn law_witness_attempts_are_queued(
    ws: Seq<Witness>,
    warm: Seq<(usize, Key)>,
    order: Seq<ProofType>,
    j: int,
)
    requires
        0 <= j < witness_attempts(ws, warm, order).len(),
    ensures
        witness_keys(ws).contains(attempt_key(witness_attempts(ws, warm, order)[j])),
        order.contains(attempt_key(witness_attempts(ws, warm, order)[j]).2),
{
    let keys = witness_keys(ws);
    let ready = ready_of(keys);
    let cands = candidates(ready, order, order.len());
    law_attempts_are_for_candidates(warm, cands, j);
    let k = attempt_key(witness_attempts(ws, warm, order)[j]);
    lemma_candidates_ready(ready, order, order.len(), k);
    assert(order.take(order.len() as int) =~= order);
    let i = choose|i: int| 0 <= i < ready.len() && (#[trigger] ready[i]).0 == k;
    lemma_ready_keys(keys, keys.len(), i);
}

proof fn lemma_instance_keys_subset(
    bs: Seq<BasicInstance>,
    resident: Set<(usize, usize)>,
    all: bool,
    n: nat,
    k: Key,
)
    requires
        n <= bs.len(),
        instance_keys(bs, resident, all, n).contains(k),
    ensures
        exists|i: int| 0 <= i < n && instance_key(#[trigger] bs[i]) == k,
        !all ==> !resident.contains((k.0, k.1)),
    decreases n,
{
    let s = instance_keys(bs, resident, all, n);
    let rest = instance_keys(bs, resident, all, (n - 1) as nat);
    let j = s.index_of(k);
    assert(s[j] == k);
    if j < rest.len() {
        assert(rest[j] == k);
        lemma_instance_keys_subset(bs, resident, all, (n - 1) as nat, k);
    } else {
        assert(instance_key(bs[n - 1]) == k);
    }
}

/// Every attempt for instances is for an AIR that has one stored; a resident AIR is attempted only
/// where all are.
pub proof fn law_basic_attempts_are_stored(
    bs: Seq<BasicInstance>,
    resident: Set<(usize, usize)>,
    warm: Seq<(usize, Key)>,
    all: bool,
    j: int,
)
    requires
        0 <= j < basic_attempts(bs, resident, warm, all).len(),
    ensures
        ({
            let k = attempt_key(basic_attempts(bs, resident, warm, all)[j]);
            &&& k.2 == ProofType::Basic
            &&& instance_keys(bs, Set::empty(), true, bs.len()).contains(k)
            &&& !all ==> !resident.contains((k.0, k.1))
        }),
{
    let keys = instance_keys(bs, resident, all, bs.len());
    let ready = ready_of(keys);
    let order = seq![ProofType::Basic];
    let cands = candidates(ready, order, 1);
    law_attempts_are_for_candidates(warm, cands, j);
    let k = attempt_key(basic_attempts(bs, resident, warm, all)[j]);
    lemma_candidates_ready(ready, order, 1, k);
    assert(order.take(1) =~= order);
    let i = choose|i: int| 0 <= i < ready.len() && (#[trigger] ready[i]).0 == k;
    lemma_ready_keys(keys, keys.len(), i);
    lemma_instance_keys_subset(bs, resident, all, bs.len(), k);
    lemma_all_instance_keys(bs, bs.len());
    let x = choose|x: int| 0 <= x < bs.len() && instance_key(#[trigger] bs[x]) == k;
    assert(instance_keys(bs, Set::empty(), true, bs.len())[x] == k);
}

} // verus!

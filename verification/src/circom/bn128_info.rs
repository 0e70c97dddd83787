//! What the BN128 verifier circuit of a STARK is made from, and the sizes that follow.
use vstd::arithmetic::power::pow;
use vstd::arithmetic::power2::pow2;
use vstd::prelude::*;

use crate::text::str_eq;

verus! {

/// A committed polynomial.
#[derive(Clone, Copy, PartialEq, Eq, Structural, Debug)]
pub struct Pol {
    pub stage: Option<u64>,
    pub stage_id: Option<u64>,
    pub dim: Option<u64>,
    pub stage_pos: Option<u64>,
}

/// A custom commitment.
pub struct CustomCommit {
    pub name: Option<String>,
    /// How many stages it has.
    pub stage_widths: u64,
    /// The publics that hold its root.
    pub public_values: Vec<Option<u64>>,
    /// Its polynomials.
    pub pols: Vec<Pol>,
}

/// An evaluation.
pub struct Evaluation {
    pub kind: Option<String>,
    pub id: Option<u64>,
}

/// Where constraints hold.
pub struct RowBoundary {
    pub name: Option<String>,
    pub offset_min: Option<u64>,
    pub offset_max: Option<u64>,
}

/// The width of a section of the trace.
pub struct Section {
    pub name: String,
    pub width: u64,
}

/// The description of a STARK, as far as its verifier circuit needs it. What the description
/// leaves open has a default.
pub struct StarkInfo {
    pub hash_type: Option<String>,
    pub n_stages: Option<u64>,
    pub merkle_tree_arity: Option<u64>,
    pub merkle_tree_custom: Option<bool>,
    pub n_queries: Option<u64>,
    pub last_level_verification: Option<u64>,
    pub n_bits: Option<u64>,
    pub n_bits_ext: Option<u64>,
    pub pow_bits: Option<u64>,
    pub hash_commits: Option<bool>,
    pub q_deg: Option<u64>,
    /// The bits of each FRI step.
    pub steps: Vec<Option<u64>>,
    pub n_publics: Option<u64>,
    pub n_constants: Option<u64>,
    pub n_air_group_values: u64,
    pub ev_map: Vec<Evaluation>,
    /// The stage of each challenge.
    pub challenge_stages: Vec<Option<u64>>,
    pub cm_pols: Vec<Pol>,
    pub custom_commits: Vec<CustomCommit>,
    pub opening_points: Vec<Option<i64>>,
    pub boundaries: Vec<RowBoundary>,
    pub sections: Vec<Section>,
}

/// The value, or the default where it is open.
pub open spec fn or(v: Option<u64>, d: u64) -> u64 {
    match v {
        Some(n) => n,
        None => d,
    }
}

/// The value, or the default where it is open.
pub fn or_default(v: Option<u64>, d: u64) -> (r: u64)
    ensures
        r == or(v, d),
{
    match v {
        Some(n) => n,
        None => d,
    }
}

/// The value, or false where it is open.
pub open spec fn is_on(v: Option<bool>) -> bool {
    v == Some(true)
}

fn on(v: Option<bool>) -> (r: bool)
    ensures
        r == is_on(v),
{
    match v {
        Some(b) => b,
        None => false,
    }
}

/// The name is the given one.
pub open spec fn is_named(name: Option<String>, s: Seq<char>) -> bool {
    match name {
        Some(n) => n@ == s,
        None => false,
    }
}

/// Whether the name is the given one.
pub fn name_is(name: &Option<String>, s: &str) -> (r: bool)
    ensures
        r == is_named(*name, s@),
{
    match name {
        Some(n) => str_eq(n.as_str(), s),
        None => false,
    }
}

/// The least number of bits that count to `n`.
pub open spec fn ceil_log2(n: nat) -> nat
    decreases n,
{
    if n <= 1 {
        0
    } else {
        1 + ceil_log2((n + 1) / 2)
    }
}

fn bits_for(n: u64) -> (r: u64)
    ensures
        r == ceil_log2(n as nat),
        r <= 64,
{
    let mut left: u64 = n;
    let mut bits: u64 = 0;
    proof {
        vstd::arithmetic::power2::lemma2_to64();
        vstd::arithmetic::power2::lemma2_to64_rest();
        assert(n <= pow2(64));
    }
    while left > 1
        invariant
            bits + ceil_log2(left as nat) == ceil_log2(n as nat),
            bits <= 64,
            left <= pow2((64 - bits) as nat),
        decreases left,
    {
        proof {
            if bits == 64 {
                vstd::arithmetic::power2::lemma2_to64();
            }
            assert(bits < 64);
            vstd::arithmetic::power2::lemma_pow2_unfold((64 - bits) as nat);
        }
        left = left / 2 + left % 2;
        bits = bits + 1;
    }
    bits
}

/// The number of bits that count to `n` is the least whose power reaches it.
pub proof fn law_ceil_log2(n: nat)
    requires
        n >= 1,
    ensures
        n <= pow2(ceil_log2(n)),
        ceil_log2(n) > 0 ==> pow2((ceil_log2(n) - 1) as nat) < n,
    decreases n,
{
    if n <= 1 {
        vstd::arithmetic::power2::lemma2_to64();
    } else {
        let h = (n + 1) / 2;
        law_ceil_log2(h);
        vstd::arithmetic::power2::lemma_pow2_unfold(ceil_log2(n));
        if ceil_log2(h) == 0 {
            vstd::arithmetic::power2::lemma2_to64();
        } else {
            vstd::arithmetic::power2::lemma_pow2_unfold(ceil_log2(h));
        }
    }
}

/// The width of a section: zero where there is none of that name.
pub open spec fn section_width(sections: Seq<Section>, name: Seq<char>) -> u64
    decreases sections.len(),
{
    if sections.len() == 0 {
        0
    } else if sections[0].name@ == name {
        sections[0].width
    } else {
        section_width(sections.skip(1), name)
    }
}

impl StarkInfo {
    /// The width of a section.
    pub fn section(&self, name: &str) -> (r: u64)
        ensures
            r == section_width(self.sections@, name@),
    {
        let mut i: usize = 0;
        assert(self.sections@.skip(0) =~= self.sections@);
        while i < self.sections.len()
            invariant
                i <= self.sections@.len(),
                section_width(self.sections@.skip(i as int), name@) == section_width(
                    self.sections@,
                    name@,
                ),
            decreases self.sections@.len() - i,
        {
            assert(self.sections@.skip(i as int)[0] == self.sections@[i as int]);
            if str_eq(self.sections[i].name.as_str(), name) {
                return self.sections[i].width;
            }
            assert(self.sections@.skip(i as int).skip(1) =~= self.sections@.skip(i + 1));
            i = i + 1;
        }
        0
    }
}

/// The bits of step `s`: zero where there is no such step.
pub open spec fn step_bits(info: StarkInfo, s: int) -> u64 {
    if 0 <= s < info.steps@.len() {
        or(info.steps@[s], 0)
    } else {
        0
    }
}

impl StarkInfo {
    /// The bits of step `s`.
    pub fn bits_of_step(&self, s: usize) -> (r: u64)
        ensures
            r == step_bits(*self, s as int),
    {
        if s < self.steps.len() {
            or_default(self.steps[s], 0)
        } else {
            0
        }
    }
}

/// The levels of a Merkle tree over `2^bits` leaves, less those that the last level replaces.
pub open spec fn tree_depth(bits: int, arity_bits: int, last_level: int) -> int {
    let full = full_depth(bits, arity_bits);
    if full > last_level {
        full - last_level
    } else {
        0
    }
}

/// The levels of a Merkle tree over `2^bits` leaves.
pub open spec fn full_depth(bits: int, arity_bits: int) -> int {
    if bits == 0 {
        0
    } else {
        (bits - 1) / arity_bits + 1
    }
}

/// The nodes of the last level that is checked.
pub open spec fn last_level_size(arity: int, last_level: nat) -> int {
    if last_level > 0 {
        pow(arity, last_level)
    } else {
        0
    }
}

/// The sizes that a verifier circuit is made with.
#[derive(Clone, Copy, PartialEq, Eq, Structural, Debug)]
pub struct Sizes {
    pub n_stages: u64,
    pub q_stage: u64,
    pub arity: u64,
    pub custom: bool,
    pub transcript_arity: u64,
    pub n_bits_arity: u64,
    pub n_queries: u64,
    pub last_level_verification: u64,
    pub s0_last_mt_size: u64,
    pub n_bits: u64,
    pub n_bits_ext: u64,
    pub pow_bits: u64,
    pub hash_commits: bool,
    pub q_deg: u64,
    pub n_steps: u64,
    pub step0_bits: u64,
    pub n_last_bits: u64,
    pub final_pol_size: u64,
    pub max_deg_bits: u64,
    pub max_deg_size: u64,
    pub n_publics: u64,
    pub n_constants: u64,
    pub n_fields: u64,
    pub merkle_levels_s0: u64,
    pub sha256_bits: u64,
    pub step0_bits_size: u64,
    pub next_step0_bits: u64,
}

/// The sizes can be computed.
pub open spec fn sizes_fit(info: StarkInfo) -> bool {
    let n_steps = info.steps@.len() as int;
    &&& or(info.n_stages, 0) <= u64::MAX - 3
    &&& or(info.n_bits, 0) <= or(info.n_bits_ext, 0)
    &&& forall|s: int| 0 <= s < n_steps ==> #[trigger] step_bits(info, s) < 64
    &&& or(info.n_queries, 0) * step_bits(info, 0) <= u64::MAX
    &&& or(info.last_level_verification, 0) <= u32::MAX
    &&& or(info.last_level_verification, 0) > 0 ==> pow(
        or(info.merkle_tree_arity, 16) as int,
        or(info.last_level_verification, 0) as nat,
    ) <= u64::MAX
    &&& or(info.merkle_tree_arity, 16) >= 2 || forall|s: int|
        0 <= s < n_steps ==> #[trigger] step_bits(info, s) == 0
    &&& 160 + 64 * or(info.n_publics, 0) <= u64::MAX
}

/// The bits of the degree that the final polynomial may have.
pub open spec fn degree_bits(last: int, extra: int) -> int {
    if last > extra {
        last - extra
    } else {
        0
    }
}

/// The sizes of a verifier circuit.
pub open spec fn are_sizes(r: Sizes, info: StarkInfo) -> bool {
    let n_steps = info.steps@.len() as int;
    &&& r.n_stages == or(info.n_stages, 0)
    &&& r.q_stage == r.n_stages + 1
    &&& r.arity == or(info.merkle_tree_arity, 16)
    &&& r.custom == is_on(info.merkle_tree_custom)
    &&& r.transcript_arity == if r.custom {
        r.arity
    } else {
        16
    }
    &&& r.n_bits_arity == ceil_log2(r.arity as nat)
    &&& r.n_queries == or(info.n_queries, 0)
    &&& r.last_level_verification == or(info.last_level_verification, 0)
    &&& r.s0_last_mt_size == last_level_size(r.arity as int, r.last_level_verification as nat)
    &&& r.n_bits == or(info.n_bits, 0)
    &&& r.n_bits_ext == or(info.n_bits_ext, 0)
    &&& r.pow_bits == or(info.pow_bits, 0)
    &&& r.hash_commits == is_on(info.hash_commits)
    &&& r.q_deg == or(info.q_deg, 1)
    &&& r.n_steps == n_steps
    &&& r.step0_bits == step_bits(info, 0)
    &&& r.n_last_bits == step_bits(info, n_steps - 1)
    &&& r.final_pol_size == pow2(r.n_last_bits as nat)
    &&& r.max_deg_bits == degree_bits(r.n_last_bits as int, r.n_bits_ext - r.n_bits)
    &&& r.max_deg_size == pow2(r.max_deg_bits as nat)
    &&& r.n_publics == or(info.n_publics, 0)
    &&& r.n_constants == or(info.n_constants, 0)
    &&& r.n_fields == if r.n_queries * r.step0_bits == 0 {
        0int
    } else {
        (r.n_queries * r.step0_bits - 1) / 253 + 1
    }
    &&& r.merkle_levels_s0 == tree_depth(
        r.step0_bits as int,
        r.n_bits_arity as int,
        r.last_level_verification as int,
    )
    &&& r.sha256_bits == 160 + 64 * r.n_publics
    &&& r.step0_bits_size == pow2(r.step0_bits as nat)
    &&& r.next_step0_bits == step_bits(info, 1)
}

/// Two to the power `n`.
pub fn power_of_two(n: u64) -> (r: u64)
    requires
        n < 64,
    ensures
        r == pow2(n as nat),
        r > 0,
{
    proof {
        crate::stark_verifier::size::lemma_shift(n);
        vstd::arithmetic::power2::lemma_pow2_pos(n as nat);
    }
    1u64 << n
}

/// `b` to the power `e`, where it fits.
pub fn integer_power(b: u64, e: u64) -> (r: u64)
    requires
        pow(b as int, e as nat) <= u64::MAX,
    ensures
        r == pow(b as int, e as nat),
{
    if b == 0 && e > 0 {
        proof {
            vstd::arithmetic::power::lemma0_pow(e as nat);
        }
        return 0;
    }
    let mut acc: u64 = 1;
    let mut i: u64 = 0;
    proof {
        vstd::arithmetic::power::lemma_pow0(b as int);
    }
    while i < e
        invariant
            i <= e,
            b >= 1 || e == 0,
            acc == pow(b as int, i as nat),
            pow(b as int, e as nat) <= u64::MAX,
        decreases e - i,
    {
        proof {
            vstd::arithmetic::power::lemma_pow_adds(b as int, i as nat, 1);
            vstd::arithmetic::power::lemma_pow1(b as int);
            vstd::arithmetic::power::lemma_pow_increases(b as nat, (i + 1) as nat, e as nat);
        }
        acc = acc * b;
        i = i + 1;
    }
    acc
}

/// The levels of a Merkle tree over `2^bits` leaves.
pub fn levels_of(bits: u64, arity_bits: u64) -> (r: u64)
    requires
        bits < 64,
        bits > 0 ==> arity_bits >= 1,
    ensures
        r == full_depth(bits as int, arity_bits as int),
{
    if bits == 0 {
        0
    } else {
        proof {
            vstd::arithmetic::div_mod::lemma_div_is_ordered_by_denominator(
                bits - 1,
                1,
                arity_bits as int,
            );
        }
        (bits - 1) / arity_bits + 1
    }
}

proof fn lemma_arity_bits(a: nat)
    requires
        a >= 2,
    ensures
        ceil_log2(a) >= 1,
{
}

/// The sizes of a verifier circuit.
pub fn sizes(info: &StarkInfo) -> (r: Sizes)
    requires
        sizes_fit(*info),
    ensures
        are_sizes(r, *info),
        r.arity >= 2 ==> r.n_bits_arity >= 1,
{
    let n_steps: usize = info.steps.len();
    let n_stages: u64 = or_default(info.n_stages, 0);
    let arity: u64 = or_default(info.merkle_tree_arity, 16);
    let custom: bool = on(info.merkle_tree_custom);
    let n_bits_arity: u64 = bits_for(arity);
    let n_queries: u64 = or_default(info.n_queries, 0);
    let last_level_verification: u64 = or_default(info.last_level_verification, 0);
    let n_bits: u64 = or_default(info.n_bits, 0);
    let n_bits_ext: u64 = or_default(info.n_bits_ext, 0);
    let step0_bits: u64 = info.bits_of_step(0);
    let n_last_bits: u64 = if n_steps > 0 {
        info.bits_of_step(n_steps - 1)
    } else {
        0
    };
    proof {
        if arity >= 2 {
            lemma_arity_bits(arity as nat);
        }
        if n_steps > 0 {
            assert(step_bits(*info, 0) < 64);
            assert(step_bits(*info, n_steps - 1) < 64);
        }
    }
    let extra: u64 = n_bits_ext - n_bits;
    let max_deg_bits: u64 = if n_last_bits > extra {
        n_last_bits - extra
    } else {
        0
    };
    let total_bits: u64 = n_queries * step0_bits;
    let full: u64 = levels_of(step0_bits, n_bits_arity);
    let n_publics: u64 = or_default(info.n_publics, 0);
    Sizes {
        n_stages,
        q_stage: n_stages + 1,
        arity,
        custom,
        transcript_arity: if custom {
            arity
        } else {
            16
        },
        n_bits_arity,
        n_queries,
        last_level_verification,
        s0_last_mt_size: if last_level_verification > 0 {
            integer_power(arity, last_level_verification)
        } else {
            0
        },
        n_bits,
        n_bits_ext,
        pow_bits: or_default(info.pow_bits, 0),
        hash_commits: on(info.hash_commits),
        q_deg: or_default(info.q_deg, 1),
        n_steps: n_steps as u64,
        step0_bits,
        n_last_bits,
        final_pol_size: power_of_two(n_last_bits),
        max_deg_bits,
        max_deg_size: power_of_two(max_deg_bits),
        n_publics,
        n_constants: or_default(info.n_constants, 0),
        n_fields: if total_bits == 0 {
            0
        } else {
            (total_bits - 1) / 253 + 1
        },
        merkle_levels_s0: if full > last_level_verification {
            full - last_level_verification
        } else {
            0
        },
        sha256_bits: 160 + 64 * n_publics,
        step0_bits_size: power_of_two(step0_bits),
        next_step0_bits: info.bits_of_step(1),
    }
}

/// How many challenges a stage has.
pub open spec fn challenges_of(stages: Seq<Option<u64>>, stage: u64) -> nat
    decreases stages.len(),
{
    if stages.len() == 0 {
        0
    } else {
        challenges_of(stages.drop_last(), stage) + (if stages.last() == Some(stage) {
            1nat
        } else {
            0nat
        })
    }
}

impl StarkInfo {
    /// How many challenges a stage has.
    pub fn count_challenges(&self, stage: u64) -> (r: u64)
        ensures
            r == challenges_of(self.challenge_stages@, stage),
    {
        let ghost all = self.challenge_stages@;
        let n: usize = self.challenge_stages.len();
        let mut count: u64 = 0;
        let mut i: usize = 0;
        assert(all.take(0) =~= Seq::empty());
        while i < n
            invariant
                all == self.challenge_stages@,
                n == all.len(),
                i <= n,
                count <= i,
                count == challenges_of(all.take(i as int), stage),
            decreases n - i,
        {
            proof {
                assert(all.take(i + 1).drop_last() =~= all.take(i as int));
                assert(all.take(i + 1).last() == all[i as int]);
            }
            match self.challenge_stages[i] {
                Some(s) => {
                    if s == stage {
                        count = count + 1;
                    }
                },
                None => {},
            }
            i = i + 1;
        }
        assert(all.take(i as int) =~= all);
        count
    }
}

/// A boundary of that name is there.
pub open spec fn has_boundary(b: Seq<RowBoundary>, name: Seq<char>) -> bool {
    exists|i: int| 0 <= i < b.len() && is_named((#[trigger] b[i]).name, name)
}

impl StarkInfo {
    /// Whether a boundary of that name is there.
    pub fn bounded_by(&self, name: &str) -> (r: bool)
        ensures
            r == has_boundary(self.boundaries@, name@),
    {
        let mut i: usize = 0;
        while i < self.boundaries.len()
            invariant
                i <= self.boundaries@.len(),
                forall|j: int|
                    0 <= j < i ==> !is_named((#[trigger] self.boundaries@[j]).name, name@),
            decreases self.boundaries@.len() - i,
        {
            if name_is(&self.boundaries[i].name, name) {
                assert(is_named(self.boundaries@[i as int].name, name@));
                return true;
            }
            i = i + 1;
        }
        false
    }
}

/// The position of the quotient among the committed polynomials: the first of its stage.
pub open spec fn quotient_pol(pols: Seq<Pol>, q_stage: u64) -> int {
    if exists|i: int| is_first_quotient(pols, q_stage, i) {
        choose|i: int| is_first_quotient(pols, q_stage, i)
    } else {
        0
    }
}

/// The polynomial is the quotient's first piece.
pub open spec fn is_quotient(p: Pol, q_stage: u64) -> bool {
    p.stage == Some(q_stage) && p.stage_id == Some(0u64)
}

/// The first piece of the quotient stands at `i`, and none before.
pub open spec fn is_first_quotient(pols: Seq<Pol>, q_stage: u64, i: int) -> bool {
    0 <= i < pols.len() && is_quotient(pols[i], q_stage) && forall|j: int|
        0 <= j < i ==> !is_quotient(#[trigger] pols[j], q_stage)
}

/// The evaluation is that of the committed polynomial `id`.
pub open spec fn is_evaluation(e: Evaluation, id: int) -> bool {
    is_named(e.kind, "cm"@) && match e.id {
        Some(n) => n == id,
        None => false,
    }
}

/// The first evaluation of the committed polynomial `id` stands at `i`.
pub open spec fn is_first_evaluation(ev: Seq<Evaluation>, id: int, i: int) -> bool {
    0 <= i < ev.len() && is_evaluation(ev[i], id) && forall|j: int|
        0 <= j < i ==> !is_evaluation(#[trigger] ev[j], id)
}

/// The position of the quotient among the evaluations: zero where it is not there.
pub open spec fn quotient_evaluation(info: StarkInfo, q_stage: u64) -> int {
    let id = quotient_pol(info.cm_pols@, q_stage);
    if exists|i: int| is_first_evaluation(info.ev_map@, id, i) {
        choose|i: int| is_first_evaluation(info.ev_map@, id, i)
    } else {
        0
    }
}

fn find_quotient(pols: &Vec<Pol>, q_stage: u64) -> (r: usize)
    ensures
        r == quotient_pol(pols@, q_stage),
{
    let mut i: usize = 0;
    while i < pols.len()
        invariant
            i <= pols@.len(),
            forall|j: int| 0 <= j < i ==> !is_quotient(#[trigger] pols@[j], q_stage),
        decreases pols@.len() - i,
    {
        let p: Pol = pols[i];
        let a: bool = match p.stage {
            Some(s) => s == q_stage,
            None => false,
        };
        let b: bool = match p.stage_id {
            Some(s) => s == 0,
            None => false,
        };
        if a && b {
            proof {
                assert(is_first_quotient(pols@, q_stage, i as int));
                let k = quotient_pol(pols@, q_stage);
                assert(is_first_quotient(pols@, q_stage, k));
                if k < i {
                    assert(!is_quotient(pols@[k], q_stage));
                } else if k > i {
                    assert(!is_quotient(pols@[i as int], q_stage));
                }
            }
            return i;
        }
        i = i + 1;
    }
    assert forall|k: int| !is_first_quotient(pols@, q_stage, k) by {}
    0
}

impl StarkInfo {
    /// The position of the quotient among the evaluations.
    pub fn quotient_position(&self, q_stage: u64) -> (r: usize)
        ensures
            r == quotient_evaluation(*self, q_stage),
    {
        let id: usize = find_quotient(&self.cm_pols, q_stage);
        let mut i: usize = 0;
        while i < self.ev_map.len()
            invariant
                i <= self.ev_map@.len(),
                id == quotient_pol(self.cm_pols@, q_stage),
                forall|j: int|
                    0 <= j < i ==> !is_evaluation(#[trigger] self.ev_map@[j], id as int),
            decreases self.ev_map@.len() - i,
        {
            let same: bool = match self.ev_map[i].id {
                Some(n) => n == id as u64,
                None => false,
            };
            if same && name_is(&self.ev_map[i].kind, "cm") {
                proof {
                    let ev = self.ev_map@;
                    assert(is_first_evaluation(ev, id as int, i as int));
                    let k = quotient_evaluation(*self, q_stage);
                    assert(is_first_evaluation(ev, id as int, k));
                    if k < i {
                        assert(!is_evaluation(ev[k], id as int));
                    } else if k > i {
                        assert(!is_evaluation(ev[i as int], id as int));
                    }
                }
                return i;
            }
            i = i + 1;
        }
        assert forall|k: int| !is_first_evaluation(self.ev_map@, id as int, k) by {}
        0
    }
}

} // verus!

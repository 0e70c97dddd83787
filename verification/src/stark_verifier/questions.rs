//! What a verifier asks of hashing and folding: the arguments of every check that its verdict
//! rests on.
use vstd::arithmetic::power::pow;
use vstd::arithmetic::power2::pow2;
use vstd::prelude::*;

use crate::plonk2pil::grid::grid;
use crate::stark_verifier::cubic::Ext;
use crate::stark_verifier::proof_parts::{groups, is_parts, quad_at, ProofParts, TreeOpening};
use crate::stark_verifier::size::{
    count_last_level, info_ok, lemma_opening_nonneg, lemma_sections, size_fits,
};
use crate::stark_verifier::verdict::{last_level_nodes, position, query_position, reduced};
use crate::stark_verifier::VerifierInfo;

verus! {

/// An opening, to be checked against the root of its tree.
pub struct OpeningQuestion<'a> {
    pub root: [u64; 4],
    pub last_level: &'a Vec<u64>,
    pub siblings: &'a Vec<Vec<u64>>,
    pub index: u64,
    pub values: &'a Vec<u64>,
}

/// Values of an FRI step, to be folded.
pub struct FoldQuestion<'a> {
    pub n_bits_ext: u64,
    pub bits: u64,
    pub prev_bits: u64,
    pub challenge: Ext,
    pub index: u64,
    pub values: &'a Vec<u64>,
}

/// Everything that is asked about one query.
pub struct QueryQuestions<'a> {
    pub constants: OpeningQuestion<'a>,
    pub stages: Vec<OpeningQuestion<'a>>,
    pub fri: Vec<OpeningQuestion<'a>>,
    pub folds: Vec<FoldQuestion<'a>>,
}

/// A published last level, to be hashed to its root.
pub struct RootQuestion<'a> {
    pub last_level: &'a Vec<u64>,
    pub nodes: u64,
}

/// Everything that is asked about published last levels.
pub struct RootQuestions<'a> {
    pub constants: RootQuestion<'a>,
    pub stages: Vec<RootQuestion<'a>>,
    pub fri: Vec<RootQuestion<'a>>,
}

/// The question is about the opening of a tree at a query.
pub open spec fn is_asked(
    o: OpeningQuestion<'_>,
    root: [u64; 4],
    tree: TreeOpening,
    q: int,
    index: int,
) -> bool {
    &&& o.root@ == root@
    &&& *o.last_level == tree.last_level
    &&& *o.siblings == tree.siblings@[q]
    &&& o.index == index
    &&& *o.values == tree.vals@[q]
}

/// The question is about folding the values of an FRI step: they are folded with the challenge
/// that was drawn for the step.
pub open spec fn is_folded(
    f: FoldQuestion<'_>,
    p: ProofParts,
    info: VerifierInfo,
    challenges: Seq<Ext>,
    query: u64,
    q: int,
    s: int,
) -> bool {
    &&& f.n_bits_ext == info.n_bits_ext
    &&& f.bits == info.fri_steps@[s + 1]
    &&& f.prev_bits == info.fri_steps@[s]
    &&& f.challenge == challenges[info.n_challenges + s + 1]
    &&& f.index == position(query, info.fri_steps@[s + 1])
    &&& *f.values == p.fri@[s].vals@[q]
}

/// The questions are those about the `q`-th query: every tree is opened at the queried position,
/// FRI trees at its position in their smaller domain, and every FRI step but the last is folded.
pub open spec fn are_questions(
    r: QueryQuestions<'_>,
    vk: Seq<u64>,
    p: ProofParts,
    info: VerifierInfo,
    challenges: Seq<Ext>,
    query: u64,
    q: int,
) -> bool {
    &&& is_asked(r.constants, quad_at(vk, 0), p.constants, q, query as int)
    &&& r.stages@.len() == info.n_stages + 1
    &&& forall|s: int|
        0 <= s < info.n_stages + 1 ==> is_asked(
            #[trigger] r.stages@[s],
            p.roots@[s],
            p.stages@[s],
            q,
            query as int,
        )
    &&& r.fri@.len() == info.n_fri_steps - 1
    &&& forall|s: int|
        0 <= s < info.n_fri_steps - 1 ==> is_asked(
            #[trigger] r.fri@[s],
            p.roots_fri@[s],
            p.fri@[s],
            q,
            position(query, info.fri_steps@[s + 1]),
        )
    &&& r.folds@.len() == info.n_fri_steps - 1
    &&& forall|s: int|
        0 <= s < info.n_fri_steps - 1 ==> is_folded(
            #[trigger] r.folds@[s],
            p,
            info,
            challenges,
            query,
            q,
            s,
        )
}

/// The tree is opened for every query.
pub open spec fn opened(tree: TreeOpening, queries: int) -> bool {
    tree.vals@.len() == queries && tree.siblings@.len() == queries
}

/// Every tree of the proof is there, and opened for every query.
pub open spec fn all_opened(p: ProofParts, info: VerifierInfo) -> bool {
    &&& opened(p.constants, info.n_fri_queries as int)
    &&& p.roots@.len() == info.n_stages + 1
    &&& p.stages@.len() == info.n_stages + 1
    &&& forall|s: int|
        0 <= s < p.stages@.len() ==> opened(#[trigger] p.stages@[s], info.n_fri_queries as int)
    &&& p.roots_fri@.len() == info.n_fri_steps - 1
    &&& p.fri@.len() == info.n_fri_steps - 1
    &&& forall|s: int|
        0 <= s < p.fri@.len() ==> opened(#[trigger] p.fri@[s], info.n_fri_queries as int)
}

/// A proof taken apart has every tree opened for every query.
pub proof fn law_parts_are_opened(p: ProofParts, words: Seq<u64>, info: VerifierInfo)
    requires
        info_ok(info),
        is_parts(p, words, info),
    ensures
        all_opened(p, info),
{
    let q = info.n_fri_queries as int;
    assert(grid(p.constants.vals@).len() == q);
    assert(groups(p.constants.siblings@).len() == q);
    assert forall|s: int| 0 <= s < p.stages@.len() implies opened(#[trigger] p.stages@[s], q) by {
        assert(grid(p.stages@[s].vals@).len() == q);
        assert(groups(p.stages@[s].siblings@).len() == q);
    }
    assert forall|s: int| 0 <= s < p.fri@.len() implies opened(#[trigger] p.fri@[s], q) by {
        assert(grid(p.fri@[s].vals@).len() == q);
        assert(groups(p.fri@[s].siblings@).len() == q);
    }
}

fn ask<'a>(root: &[u64; 4], tree: &'a TreeOpening, q: usize, index: u64) -> (r: OpeningQuestion<'a>)
    requires
        q < tree.vals@.len(),
        q < tree.siblings@.len(),
    ensures
        is_asked(r, *root, *tree, q as int, index as int),
{
    OpeningQuestion {
        root: *root,
        last_level: &tree.last_level,
        siblings: &tree.siblings[q],
        index,
        values: &tree.vals[q],
    }
}

/// What is asked about the `q`-th query.
pub fn query_questions<'a>(
    vk: &[u64],
    p: &'a ProofParts,
    info: &VerifierInfo,
    challenges: &Vec<Ext>,
    query: u64,
    q: usize,
) -> (r: QueryQuestions<'a>)
    requires
        vk@.len() >= 4,
        info_ok(*info),
        all_opened(*p, *info),
        q < info.n_fri_queries,
        info.n_challenges + info.n_fri_steps <= challenges@.len(),
    ensures
        are_questions(r, vk@, *p, *info, challenges@, query, q as int),
{
    let key: [u64; 4] = [vk[0], vk[1], vk[2], vk[3]];
    let constants: OpeningQuestion<'a> = ask(&key, &p.constants, q, query);
    let mut stages: Vec<OpeningQuestion<'a>> = Vec::new();
    let mut s: usize = 0;
    while s < p.stages.len()
        invariant
            s <= p.stages@.len(),
            all_opened(*p, *info),
            q < info.n_fri_queries,
            stages@.len() == s,
            forall|k: int|
                0 <= k < s ==> is_asked(
                    #[trigger] stages@[k],
                    p.roots@[k],
                    p.stages@[k],
                    q as int,
                    query as int,
                ),
        decreases p.stages@.len() - s,
    {
        assert(opened(p.stages@[s as int], info.n_fri_queries as int));
        stages.push(ask(&p.roots[s], &p.stages[s], q, query));
        s = s + 1;
    }
    let mut fri: Vec<OpeningQuestion<'a>> = Vec::new();
    let mut folds: Vec<FoldQuestion<'a>> = Vec::new();
    let n_challenges: usize = challenges.len();
    let n_steps: usize = info.fri_steps.len();
    let mut t: usize = 0;
    while t < p.fri.len()
        invariant
            t <= p.fri@.len(),
            info_ok(*info),
            all_opened(*p, *info),
            q < info.n_fri_queries,
            n_challenges == challenges@.len(),
            n_steps == info.fri_steps@.len(),
            info.n_challenges + info.n_fri_steps <= challenges@.len(),
            fri@.len() == t,
            folds@.len() == t,
            forall|k: int|
                0 <= k < t ==> is_asked(
                    #[trigger] fri@[k],
                    p.roots_fri@[k],
                    p.fri@[k],
                    q as int,
                    position(query, info.fri_steps@[k + 1]),
                ),
            forall|k: int|
                0 <= k < t ==> is_folded(
                    #[trigger] folds@[k],
                    *p,
                    *info,
                    challenges@,
                    query,
                    q as int,
                    k,
                ),
        decreases p.fri@.len() - t,
    {
        assert(opened(p.fri@[t as int], info.n_fri_queries as int));
        assert(info.fri_steps@[t + 1] < 64);
        let index: u64 = query_position(query, info.fri_steps[t + 1]);
        fri.push(ask(&p.roots_fri[t], &p.fri[t], q, index));
        folds.push(
            FoldQuestion {
                n_bits_ext: info.n_bits_ext,
                bits: info.fri_steps[t + 1],
                prev_bits: info.fri_steps[t],
                challenge: challenges[info.n_challenges as usize + t + 1],
                index,
                values: &p.fri[t].vals[q],
            },
        );
        t = t + 1;
    }
    QueryQuestions { constants, stages, fri, folds }
}

/// The values that a query opens: the constants, then each stage.
pub fn opened_values<'a>(p: &'a ProofParts, info: &VerifierInfo, q: usize) -> (r: Vec<&'a Vec<u64>>)
    requires
        all_opened(*p, *info),
        q < info.n_fri_queries,
    ensures
        r@.len() == info.n_stages + 2,
        *r@[0] == p.constants.vals@[q as int],
        forall|s: int|
            0 <= s < info.n_stages + 1 ==> *(#[trigger] r@[s + 1]) == p.stages@[s].vals@[q as int],
{
    let mut out: Vec<&'a Vec<u64>> = Vec::new();
    out.push(&p.constants.vals[q]);
    let mut s: usize = 0;
    while s < p.stages.len()
        invariant
            s <= p.stages@.len(),
            all_opened(*p, *info),
            q < info.n_fri_queries,
            out@.len() == s + 1,
            *out@[0] == p.constants.vals@[q as int],
            forall|k: int| 0 <= k < s ==> *(#[trigger] out@[k + 1]) == p.stages@[k].vals@[q as int],
        decreases p.stages@.len() - s,
    {
        assert(opened(p.stages@[s as int], info.n_fri_queries as int));
        out.push(&p.stages[s].vals[q]);
        s = s + 1;
    }
    out
}

/// The words that the work is done on, and that the queries are drawn from: the last challenge and
/// the nonce.
pub fn work_input(challenges: &Vec<Ext>, p: &ProofParts) -> (r: [u64; 4])
    requires
        challenges@.len() > 0,
    ensures
        r@ == challenges@.last()@.push(p.nonce),
{
    let last: Ext = challenges[challenges.len() - 1];
    let r: [u64; 4] = [last[0], last[1], last[2], p.nonce];
    assert(r@ =~= last@.push(p.nonce));
    r
}

/// The point that the evaluations are at.
pub fn evaluation_point(challenges: &Vec<Ext>, info: &VerifierInfo) -> (r: Ext)
    requires
        3 <= info.n_challenges,
        info.n_challenges <= challenges@.len() + 2,
    ensures
        r == challenges@[info.n_challenges - 3],
{
    let n: usize = challenges.len();
    challenges[(info.n_challenges - 3) as usize]
}

/// The last level of a tree over `2^bits` leaves.
pub open spec fn is_level(r: RootQuestion<'_>, tree: TreeOpening, info: VerifierInfo, bits: u64) -> bool {
    &&& *r.last_level == tree.last_level
    &&& r.nodes == reduced(
        pow2(bits as nat),
        info.arity as nat,
        pow(info.arity as int, info.last_level_verification as nat) as nat,
    )
}

/// What is asked about published last levels.
pub fn root_questions<'a>(p: &'a ProofParts, info: &VerifierInfo) -> (r: RootQuestions<'a>)
    requires
        size_fits(*info),
        all_opened(*p, *info),
        info.last_level_verification > 0,
    ensures
        is_level(r.constants, p.constants, *info, info.n_bits_ext),
        r.stages@.len() == info.n_stages + 1,
        forall|s: int|
            0 <= s < info.n_stages + 1 ==> is_level(
                #[trigger] r.stages@[s],
                p.stages@[s],
                *info,
                info.n_bits_ext,
            ),
        r.fri@.len() == info.n_fri_steps - 1,
        forall|s: int|
            0 <= s < info.n_fri_steps - 1 ==> is_level(
                #[trigger] r.fri@[s],
                p.fri@[s],
                *info,
                info.fri_steps@[s + 1],
            ),
{
    proof {
        lemma_sections(*info);
        lemma_opening_nonneg(*info, info.n_constants as int, info.n_bits_ext);
    }
    let limit: u64 = count_last_level(info) / 4;
    let ghost power = pow(info.arity as int, info.last_level_verification as nat);
    proof {
        assert(limit == power);
        vstd::arithmetic::power::lemma_pow_positive(
            info.arity as int,
            info.last_level_verification as nat,
        );
    }
    let nodes: u64 = last_level_nodes(info.n_bits_ext, info.arity, limit);
    let constants: RootQuestion<'a> = RootQuestion { last_level: &p.constants.last_level, nodes };
    let mut stages: Vec<RootQuestion<'a>> = Vec::new();
    let mut s: usize = 0;
    while s < p.stages.len()
        invariant
            s <= p.stages@.len(),
            limit == power,
            power == pow(info.arity as int, info.last_level_verification as nat),
            nodes == reduced(pow2(info.n_bits_ext as nat), info.arity as nat, limit as nat),
            stages@.len() == s,
            forall|k: int|
                0 <= k < s ==> is_level(
                    #[trigger] stages@[k],
                    p.stages@[k],
                    *info,
                    info.n_bits_ext,
                ),
        decreases p.stages@.len() - s,
    {
        stages.push(RootQuestion { last_level: &p.stages[s].last_level, nodes });
        s = s + 1;
    }
    let mut fri: Vec<RootQuestion<'a>> = Vec::new();
    let n_steps: usize = info.fri_steps.len();
    let mut t: usize = 0;
    while t < p.fri.len()
        invariant
            t <= p.fri@.len(),
            info_ok(*info),
            all_opened(*p, *info),
            n_steps == info.fri_steps@.len(),
            limit == power,
            limit >= 1,
            power == pow(info.arity as int, info.last_level_verification as nat),
            fri@.len() == t,
            forall|k: int|
                0 <= k < t ==> is_level(
                    #[trigger] fri@[k],
                    p.fri@[k],
                    *info,
                    info.fri_steps@[k + 1],
                ),
        decreases p.fri@.len() - t,
    {
        assert(info.fri_steps@[t + 1] < 64);
        let n: u64 = last_level_nodes(info.fri_steps[t + 1], info.arity, limit);
        fri.push(RootQuestion { last_level: &p.fri[t].last_level, nodes: n });
        t = t + 1;
    }
    RootQuestions { constants, stages, fri }
}

} // verus!

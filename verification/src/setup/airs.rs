//! The airs of an airgroup: which are set up, where their files are, and how their results are
//! put together.
use vstd::prelude::*;
use vstd::string::StringExecFns;

use crate::exps::emit::texts;
use crate::paths::{join, joined};
use crate::setup::stage::{file_in, file_path};
use crate::text::{dec, literal, literal_of, push_dec};

verus! {

/// A name, or a prefix with the position where there is none.
pub open spec fn name_or(name: Option<String>, prefix: Seq<char>, i: nat) -> Seq<char> {
    match name {
        Some(n) => n@,
        None => prefix + dec(i),
    }
}

fn named(name: &Option<String>, prefix: &str, i: usize) -> (r: String)
    ensures
        r@ == name_or(*name, prefix@, i as nat),
{
    match name {
        Some(n) => n.as_str().to_owned(),
        None => {
            let mut out: String = prefix.to_owned();
            push_dec(&mut out, i as u64);
            out
        },
    }
}

/// The name of an airgroup.
pub fn airgroup_label(name: &Option<String>, i: usize) -> (r: String)
    ensures
        r@ == name_or(*name, "airgroup_"@, i as nat),
{
    named(name, "airgroup_", i)
}

/// The name of an air.
pub fn air_label(name: &Option<String>, i: usize) -> (r: String)
    ensures
        r@ == name_or(*name, "air_"@, i as nat),
{
    named(name, "air_", i)
}

/// The airs that are set up: those with rows, in order.
pub open spec fn with_rows(rows: Seq<Option<u32>>) -> Seq<int>
    decreases rows.len(),
{
    if rows.len() == 0 {
        Seq::empty()
    } else {
        let before = with_rows(rows.drop_last());
        match rows.last() {
            Some(n) => if n > 0 {
                before.push(rows.len() - 1)
            } else {
                before
            },
            None => before,
        }
    }
}

/// The positions as integers.
pub open spec fn as_ints(v: Seq<usize>) -> Seq<int> {
    v.map_values(|i: usize| i as int)
}

/// The airs that are set up.
pub fn airs_to_run(rows: &Vec<Option<u32>>) -> (r: Vec<usize>)
    ensures
        as_ints(r@) == with_rows(rows@),
{
    let mut out: Vec<usize> = Vec::new();
    let mut i: usize = 0;
    assert(rows@.take(0) =~= Seq::empty());
    assert(as_ints(out@) =~= Seq::empty());
    while i < rows.len()
        invariant
            i <= rows@.len(),
            as_ints(out@) == with_rows(rows@.take(i as int)),
        decreases rows@.len() - i,
    {
        let ghost before = out@;
        proof {
            assert(rows@.take(i + 1).drop_last() =~= rows@.take(i as int));
            assert(rows@.take(i + 1).last() == rows@[i as int]);
        }
        match rows[i] {
            Some(n) => {
                if n > 0 {
                    out.push(i);
                    assert(as_ints(out@) =~= as_ints(before).push(i as int));
                }
            },
            None => {},
        }
        i = i + 1;
    }
    assert(rows@.take(i as int) =~= rows@);
    out
}

/// Where the files of an air are.
pub struct AirFiles {
    pub dir: String,
    pub starkinfo: String,
    pub verifierinfo: String,
    pub verkey: String,
}

/// The directory of an air.
pub open spec fn air_path(
    build_dir: Seq<char>,
    pilout_name: Seq<char>,
    airgroup: Seq<char>,
    air: Seq<char>,
) -> Seq<char> {
    joined(
        joined(
            joined(
                joined(joined(joined(build_dir, "provingKey"@), pilout_name), airgroup),
                "airs"@,
            ),
            air,
        ),
        "air"@,
    )
}

/// Where the files of an air are.
pub fn air_files(build_dir: &str, pilout_name: &str, airgroup: &str, air: &str) -> (r: AirFiles)
    ensures
        r.dir@ == air_path(build_dir@, pilout_name@, airgroup@, air@),
        r.starkinfo@ == file_path(r.dir@, air@, ".starkinfo.json"@),
        r.verifierinfo@ == file_path(r.dir@, air@, ".verifierinfo.json"@),
        r.verkey@ == file_path(r.dir@, air@, ".verkey.json"@),
{
    let a: String = join(build_dir, "provingKey");
    let b: String = join(a.as_str(), pilout_name);
    let c: String = join(b.as_str(), airgroup);
    let d: String = join(c.as_str(), "airs");
    let e: String = join(d.as_str(), air);
    let dir: String = join(e.as_str(), "air");
    AirFiles {
        starkinfo: file_in(dir.as_str(), air, ".starkinfo.json"),
        verifierinfo: file_in(dir.as_str(), air, ".verifierinfo.json"),
        verkey: file_in(dir.as_str(), air, ".verkey.json"),
        dir,
    }
}

/// Why an airgroup cannot be set up.
pub enum AirError {
    /// An air's descriptions are missing.
    NoDescription { air_name: String, dir: String },
    /// Recursive1 of the first air left no description to aggregate.
    NothingToAggregate { airgroup_name: String, air_name: String },
    /// Recursive2 came out in another size than recursive1.
    SizesDiffer { recursive2: usize, recursive1: usize, airgroup_name: String, air_name: String },
}

impl AirError {
    /// What to tell the user.
    pub fn message(&self) -> (r: String)
        ensures
            r@ == match *self {
                AirError::NoDescription { air_name, dir } => "Recursive setup failed for air '"@
                    + air_name@ + "': starkinfo/verifierinfo not found at "@ + literal(dir@),
                AirError::NothingToAggregate { airgroup_name, air_name } =>
                    "Recursive2 requires recursive1 starkinfo/verifierinfo for airgroup '"@
                    + airgroup_name@ + "' air '"@ + air_name@
                    + "' but it was not produced (missing in-memory pil_info)"@,
                AirError::SizesDiffer { recursive2, recursive1, airgroup_name, air_name } =>
                    "Recursive2 n_bits ("@ + dec(recursive2 as nat)
                    + ") does not match recursive1 n_bits ("@ + dec(recursive1 as nat)
                    + ") for airgroup '"@ + airgroup_name@ + "' (first air '"@ + air_name@ + "')."@
                    + SIZES_HINT@,
            },
    {
        match self {
            AirError::NoDescription { air_name, dir } => {
                let mut out: String = "Recursive setup failed for air '".to_owned();
                out.append(air_name.as_str());
                out.append("': starkinfo/verifierinfo not found at ");
                out.append(literal_of(dir.as_str()).as_str());
                out
            },
            AirError::NothingToAggregate { airgroup_name, air_name } => {
                let mut out: String =
                    "Recursive2 requires recursive1 starkinfo/verifierinfo for airgroup '".to_owned();
                out.append(airgroup_name.as_str());
                out.append("' air '");
                out.append(air_name.as_str());
                out.append("' but it was not produced (missing in-memory pil_info)");
                out
            },
            AirError::SizesDiffer { recursive2, recursive1, airgroup_name, air_name } => {
                let mut out: String = "Recursive2 n_bits (".to_owned();
                push_dec(&mut out, *recursive2 as u64);
                out.append(") does not match recursive1 n_bits (");
                push_dec(&mut out, *recursive1 as u64);
                out.append(") for airgroup '");
                out.append(airgroup_name.as_str());
                out.append("' (first air '");
                out.append(air_name.as_str());
                out.append("').");
                out.append(SIZES_HINT);
                out
            },
        }
    }
}

/// What may be behind sizes that differ.
pub const SIZES_HINT: &'static str =
    " The recursive2 circuit must be sized identically to recursive1; a mismatch usually means the recursive2 starkStruct is inconsistent with recursive1's, or recursive2's circom expands to a different row count than expected.";

/// Check that an air is described.
pub fn check_described(air_name: &str, dir: &str, starkinfo: bool, verifierinfo: bool) -> (r:
    Result<(), AirError>)
    ensures
        match r {
            Ok(_) => starkinfo && verifierinfo,
            Err(AirError::NoDescription { air_name: a, dir: d }) => !(starkinfo && verifierinfo)
                && a@ == air_name@ && d@ == dir@,
            Err(_) => false,
        },
{
    if starkinfo && verifierinfo {
        Ok(())
    } else {
        Err(AirError::NoDescription { air_name: air_name.to_owned(), dir: dir.to_owned() })
    }
}

/// Check that recursive2 came out in the size of recursive1, which it has to share.
pub fn check_sizes(recursive2: usize, recursive1: usize, airgroup_name: &str, air_name: &str) -> (r:
    Result<(), AirError>)
    ensures
        match r {
            Ok(_) => recursive2 == recursive1,
            Err(AirError::SizesDiffer { recursive2: a, recursive1: b, airgroup_name: g, air_name: n },
            ) => recursive2 != recursive1 && a == recursive2 && b == recursive1 && g@
                == airgroup_name@ && n@ == air_name@,
            Err(_) => false,
        },
{
    if recursive2 == recursive1 {
        Ok(())
    } else {
        Err(
            AirError::SizesDiffer {
                recursive2,
                recursive1,
                airgroup_name: airgroup_name.to_owned(),
                air_name: air_name.to_owned(),
            },
        )
    }
}

/// Check that recursive1 left a description to aggregate.
pub fn check_aggregable(described: bool, airgroup_name: &str, air_name: &str) -> (r: Result<
    (),
    AirError,
>)
    ensures
        match r {
            Ok(_) => described,
            Err(AirError::NothingToAggregate { airgroup_name: g, air_name: n }) => !described && g@
                == airgroup_name@ && n@ == air_name@,
            Err(_) => false,
        },
{
    if described {
        Ok(())
    } else {
        Err(
            AirError::NothingToAggregate {
                airgroup_name: airgroup_name.to_owned(),
                air_name: air_name.to_owned(),
            },
        )
    }
}

/// Whether an air's description is the one that the rest of its airgroup shares: the first one,
/// where it is complete.
pub fn shares_description(
    already_shared: bool,
    starkinfo: bool,
    verifierinfo: bool,
    expressionsinfo: bool,
) -> (r: bool)
    ensures
        r == (!already_shared && starkinfo && verifierinfo && expressionsinfo),
{
    !already_shared && starkinfo && verifierinfo && expressionsinfo
}

/// What setting up an air gave.
pub struct AirResult {
    pub air_idx: usize,
    pub air_name: String,
    /// The limbs of its verification key.
    pub verkey: [String; 4],
    pub has_compressor: bool,
}

/// `p` lists the positions of `idx` in ascending order of what they hold.
pub open spec fn is_order(p: Seq<usize>, idx: Seq<usize>) -> bool {
    &&& p.len() == idx.len()
    &&& forall|i: int| 0 <= i < p.len() ==> (#[trigger] p[i]) < idx.len()
    &&& forall|i: int, j: int|
        0 <= i < j < p.len() ==> idx[#[trigger] p[i] as int] <= idx[#[trigger] p[j] as int]
    &&& forall|i: int, j: int| 0 <= i < j < p.len() ==> #[trigger] p[i] != #[trigger] p[j]
    &&& forall|k: int| 0 <= k < idx.len() ==> #[trigger] p.contains(k as usize)
}

/// The positions of the first `n` entries, in order.
spec fn is_partial_order(p: Seq<usize>, idx: Seq<usize>, n: int) -> bool {
    &&& p.len() == n <= idx.len()
    &&& forall|i: int| 0 <= i < p.len() ==> (#[trigger] p[i]) < n
    &&& forall|i: int, j: int|
        0 <= i < j < p.len() ==> idx[#[trigger] p[i] as int] <= idx[#[trigger] p[j] as int]
    &&& forall|i: int, j: int| 0 <= i < j < p.len() ==> #[trigger] p[i] != #[trigger] p[j]
    &&& forall|k: int| 0 <= k < n ==> #[trigger] p.contains(k as usize)
}

/// The order of entries by what they hold.
pub fn order_by_index(idx: &Vec<usize>) -> (p: Vec<usize>)
    ensures
        is_order(p@, idx@),
{
    let mut p: Vec<usize> = Vec::new();
    let mut n: usize = 0;
    while n < idx.len()
        invariant
            n <= idx@.len(),
            is_partial_order(p@, idx@, n as int),
        decreases idx@.len() - n,
    {
        let mut at: usize = n;
        while at > 0 && idx[p[at - 1]] > idx[n]
            invariant
                at <= n,
                n < idx@.len(),
                is_partial_order(p@, idx@, n as int),
                forall|j: int| at <= j < n ==> idx@[#[trigger] p@[j] as int] > idx@[n as int],
            decreases at,
        {
            at = at - 1;
        }
        let ghost before = p@;
        p.insert(at, n);
        proof {
            assert(p@ == before.insert(at as int, n));
            assert forall|i: int, j: int| 0 <= i < j < p@.len() implies idx@[#[trigger] p@[i] as int]
                <= idx@[#[trigger] p@[j] as int] && p@[i] != p@[j] by {
                let bi = if i < at {
                    i
                } else {
                    i - 1
                };
                let bj = if j < at {
                    j
                } else {
                    j - 1
                };
                if i != at && j != at {
                    assert(p@[i] == before[bi] && p@[j] == before[bj]);
                } else if i == at {
                    assert(p@[j] == before[bj]);
                } else {
                    assert(p@[i] == before[bi]);
                    if at > 0 {
                        assert(idx@[before[at - 1] as int] <= idx@[n as int]);
                        if bi < at - 1 {
                            assert(idx@[before[bi] as int] <= idx@[before[at - 1] as int]);
                        }
                    }
                }
            }
            assert forall|k: int| 0 <= k < n + 1 implies #[trigger] p@.contains(k as usize) by {
                if k == n {
                    assert(p@[at as int] == n);
                } else {
                    let b = before.index_of(k as usize);
                    assert(before.contains(k as usize));
                    assert(before[b] == k as usize);
                    if b < at {
                        assert(p@[b] == k as usize);
                    } else {
                        assert(p@[b + 1] == k as usize);
                    }
                }
            }
            assert forall|i: int| 0 <= i < p@.len() implies (#[trigger] p@[i]) < n + 1 by {
                if i < at {
                    assert(p@[i] == before[i]);
                } else if i > at {
                    assert(p@[i] == before[i - 1]);
                }
            }
        }
        n = n + 1;
    }
    p
}

/// Where no two entries hold the same, there is one order: what comes out does not depend on
/// which air was done first.
pub proof fn law_order_is_determined(p: Seq<usize>, q: Seq<usize>, idx: Seq<usize>)
    requires
        is_order(p, idx),
        is_order(q, idx),
        forall|i: int, j: int| 0 <= i < j < idx.len() ==> #[trigger] idx[i] != #[trigger] idx[j],
        idx.len() <= usize::MAX,
    ensures
        p == q,
{
    lemma_orders_agree(p, q, idx, idx.len() as int);
    assert(p =~= q);
}

proof fn lemma_orders_agree(p: Seq<usize>, q: Seq<usize>, idx: Seq<usize>, n: int)
    requires
        is_order(p, idx),
        is_order(q, idx),
        forall|i: int, j: int| 0 <= i < j < idx.len() ==> #[trigger] idx[i] != #[trigger] idx[j],
        idx.len() <= usize::MAX,
        0 <= n <= idx.len(),
    ensures
        forall|i: int| 0 <= i < n ==> p[i] == q[i],
    decreases n,
{
    if n > 0 {
        let m = n - 1;
        lemma_orders_agree(p, q, idx, m);
        let a = p[m];
        let b = q[m];
        if a != b {
            assert(q.contains((a as int) as usize));
            assert(p.contains((b as int) as usize));
            let j = q.index_of(a);
            let k = p.index_of(b);
            assert(q[j] == a);
            assert(p[k] == b);
            assert(j >= m) by {
                if j < m {
                    assert(p[j] == a);
                }
            }
            assert(k >= m) by {
                if k < m {
                    assert(q[k] == b);
                }
            }
            assert(idx[q[m] as int] <= idx[q[j] as int]);
            assert(idx[p[m] as int] <= idx[p[k] as int]);
            assert(idx[a as int] == idx[b as int]);
            if a < b {
                assert(idx[a as int] != idx[b as int]);
            } else {
                assert(idx[b as int] != idx[a as int]);
            }
        }
    }
}

/// What an airgroup's airs give together.
pub struct AirgroupResult {
    /// The key of each air, in the order of the airs.
    pub verkeys: Vec<Vec<String>>,
    /// The airs behind a compressor.
    pub with_compressor: Vec<String>,
}

/// The limbs of keys.
pub open spec fn key_views(v: Seq<Vec<String>>) -> Seq<Seq<Seq<char>>> {
    Seq::new(v.len(), |i: int| texts(v[i]@))
}

/// The limbs of an air's key.
pub open spec fn limbs(r: AirResult) -> Seq<Seq<char>> {
    Seq::new(4, |k: int| r.verkey[k]@)
}

/// The names of those behind a compressor.
pub open spec fn compressed(results: Seq<AirResult>) -> Seq<Seq<char>>
    decreases results.len(),
{
    if results.len() == 0 {
        Seq::empty()
    } else {
        let before = compressed(results.drop_last());
        if results.last().has_compressor {
            before.push(results.last().air_name@)
        } else {
            before
        }
    }
}

/// The results in a given order.
pub open spec fn reordered(results: Seq<AirResult>, p: Seq<usize>) -> Seq<AirResult> {
    Seq::new(p.len(), |i: int| results[p[i] as int])
}

/// The indices of results.
pub open spec fn indices(results: Seq<AirResult>) -> Seq<usize> {
    Seq::new(results.len(), |i: int| results[i].air_idx)
}

/// The results of an airgroup, in the order of the airs.
pub open spec fn is_collected(r: AirgroupResult, results: Seq<AirResult>) -> bool {
    exists|p: Seq<usize>| #[trigger]
        is_order(p, indices(results)) && key_views(r.verkeys@) == reordered(results, p).map_values(
            |a: AirResult| limbs(a),
        ) && texts(r.with_compressor@) == compressed(reordered(results, p))
}

fn key_vector(key: &[String; 4]) -> (r: Vec<String>)
    ensures
        texts(r@) == Seq::new(4, |k: int| key[k]@),
{
    let mut v: Vec<String> = Vec::new();
    v.push(key[0].as_str().to_owned());
    v.push(key[1].as_str().to_owned());
    v.push(key[2].as_str().to_owned());
    v.push(key[3].as_str().to_owned());
    assert(texts(v@) =~= Seq::new(4, |k: int| key[k]@));
    v
}

/// Put the results of an airgroup together, whatever order they came in.
pub fn collect_airs(results: &Vec<AirResult>) -> (r: AirgroupResult)
    ensures
        is_collected(r, results@),
{
    let mut idx: Vec<usize> = Vec::new();
    let mut i: usize = 0;
    while i < results.len()
        invariant
            i <= results@.len(),
            idx@ == indices(results@).take(i as int),
        decreases results@.len() - i,
    {
        idx.push(results[i].air_idx);
        assert(indices(results@).take(i + 1) =~= indices(results@).take(i as int).push(
            results@[i as int].air_idx,
        ));
        i = i + 1;
    }
    assert(indices(results@).take(i as int) =~= indices(results@));
    let p: Vec<usize> = order_by_index(&idx);
    let ghost ordered = reordered(results@, p@);
    let ghost keys = ordered.map_values(|a: AirResult| limbs(a));
    let mut verkeys: Vec<Vec<String>> = Vec::new();
    let mut with_compressor: Vec<String> = Vec::new();
    let mut n: usize = 0;
    proof {
        assert(key_views(verkeys@) =~= keys.take(0));
        assert(ordered.take(0) =~= Seq::empty());
        assert(texts(with_compressor@) =~= Seq::empty());
    }
    while n < p.len()
        invariant
            n <= p@.len(),
            is_order(p@, indices(results@)),
            ordered == reordered(results@, p@),
            keys == ordered.map_values(|a: AirResult| limbs(a)),
            key_views(verkeys@) == keys.take(n as int),
            texts(with_compressor@) == compressed(ordered.take(n as int)),
        decreases p@.len() - n,
    {
        let a: &AirResult = &results[p[n]];
        let key: Vec<String> = key_vector(&a.verkey);
        let ghost before = verkeys@;
        verkeys.push(key);
        proof {
            assert(ordered[n as int] == *a);
            assert(keys[n as int] == limbs(*a));
            assert(texts(key@) == limbs(*a));
            assert(keys.take(n + 1) =~= keys.take(n as int).push(limbs(*a)));
            assert(key_views(verkeys@) =~= key_views(before).push(texts(key@)));
            assert(ordered.take(n + 1).drop_last() =~= ordered.take(n as int));
            assert(ordered.take(n + 1).last() == *a);
        }
        if a.has_compressor {
            let ghost names = with_compressor@;
            let name: String = a.air_name.as_str().to_owned();
            with_compressor.push(name);
            assert(texts(with_compressor@) =~= texts(names).push(name@));
        }
        n = n + 1;
    }
    proof {
        assert(keys.take(n as int) =~= keys);
        assert(ordered.take(n as int) =~= ordered);
    }
    AirgroupResult { verkeys, with_compressor }
}

/// The number of airs that are set up at the same time: at least one.
pub fn job_count(requested: usize) -> (r: usize)
    ensures
        r == if requested > 1 {
            requested
        } else {
            1
        },
{
    if requested > 1 {
        requested
    } else {
        1
    }
}

} // verus!

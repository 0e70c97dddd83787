//! The circuits that aggregate proofs.
use vstd::prelude::*;
use vstd::string::StringExecFns;

use crate::circom::json::{
    join_texts, json_flag, json_numbers, json_object, json_texts, push_text, quoted, separated,
    JsonObject,
};
use crate::circom::render::{render, rendered};
use crate::circom::template_syntax::fillable;
use crate::circom::templates::{public_name_text, public_names};
use crate::exps::emit::{join_lines, joined_lines, texts};
use crate::setup::search::text_of;
use crate::text::{dec, push_dec};

verus! {

/// Append a number between two texts.
fn push_numbered(out: &mut String, head: &str, n: u64, tail: &str)
    ensures
        final(out)@ == old(out)@ + (head@ + dec(n as nat) + tail@),
{
    let ghost before = out@;
    let mut s: String = head.to_owned();
    push_dec(&mut s, n);
    s.append(tail);
    out.append(s.as_str());
}

/// The keys of an airgroup's airs, one line each.
pub open spec fn key_lines(prefix: Seq<char>, keys: Seq<Seq<Seq<char>>>) -> Seq<Seq<char>> {
    Seq::new(
        keys.len(),
        |i: int| prefix + "["@ + dec(i as nat) + "] = ["@ + separated(keys[i], ","@) + "];"@,
    )
}

/// The limbs of keys.
pub open spec fn key_limbs(v: Seq<Vec<String>>) -> Seq<Seq<Seq<char>>> {
    Seq::new(v.len(), |i: int| texts(v[i]@))
}

fn key_line_texts(prefix: &str, keys: &Vec<Vec<String>>) -> (r: Vec<String>)
    ensures
        texts(r@) == key_lines(prefix@, key_limbs(keys@)),
{
    let ghost all = key_lines(prefix@, key_limbs(keys@));
    let mut out: Vec<String> = Vec::new();
    let mut i: usize = 0;
    assert(texts(out@) =~= all.take(0));
    while i < keys.len()
        invariant
            i <= keys@.len(),
            all == key_lines(prefix@, key_limbs(keys@)),
            texts(out@) == all.take(i as int),
        decreases keys@.len() - i,
    {
        let mut s: String = prefix.to_owned();
        s.append("[");
        push_dec(&mut s, i as u64);
        s.append("] = [");
        let limbs: String = join_texts(&keys[i], ",");
        s.append(limbs.as_str());
        s.append("];");
        proof {
            assert(key_limbs(keys@)[i as int] == texts(keys@[i as int]@));
            assert(all.take(i + 1) =~= all.take(i as int).push(all[i as int]));
        }
        push_text(&mut out, s);
        i = i + 1;
    }
    assert(all.take(i as int) =~= all);
    out
}

/// More than one air is aggregated.
pub open spec fn several_airs(n_airgroups: u64, n_airs_first: u64) -> bool {
    n_airgroups > 1 || n_airs_first > 1
}

/// How a key is selected: where several airs are aggregated, a proof may be absent.
pub open spec fn selector(several: bool) -> Seq<char> {
    if several {
        "SelectVerificationKeyNull"@
    } else {
        "SelectVerificationKey"@
    }
}

fn selector_name(several: bool) -> (r: &'static str)
    ensures
        r@ == selector(several),
{
    if several {
        "SelectVerificationKeyNull"
    } else {
        "SelectVerificationKey"
    }
}

/// The three proofs agree on how values are aggregated.
pub open spec fn agreement(n: nat) -> Seq<char> {
    if n == 0 {
        Seq::empty()
    } else {
        AGREE_OPEN@ + dec(n) + AGREE_LOOP@ + dec(n) + AGREE_BODY@
    }
}

/// Declares the aggregation types.
pub const AGREE_OPEN: &'static str = "    signal aggregationTypes[";

/// Walks through them.
pub const AGREE_LOOP: &'static str = "];\n    for(var i = 0; i < ";

/// Compares the three proofs.
pub const AGREE_BODY: &'static str =
    "; i++) {\n        aggregationTypes[i] <== a_sv_aggregationTypes[i];\n        a_sv_aggregationTypes[i] === b_sv_aggregationTypes[i];\n        a_sv_aggregationTypes[i] === c_sv_aggregationTypes[i];\n    }";

fn agreement_text(n: u64) -> (r: String)
    ensures
        r@ == agreement(n as nat),
{
    if n == 0 {
        return String::new();
    }
    let mut s: String = AGREE_OPEN.to_owned();
    push_dec(&mut s, n);
    s.append(AGREE_LOOP);
    push_dec(&mut s, n);
    s.append(AGREE_BODY);
    s
}

/// What is aggregated: the sizes of the whole circuit and of one airgroup.
#[derive(Clone, Copy, PartialEq, Eq, Structural, Debug)]
pub struct AggregationSizes {
    /// The publics of the verified STARK: at least its key.
    pub n_publics_raw: u64,
    pub n_publics: u64,
    pub n_values: u64,
    /// The values that the airgroup aggregates.
    pub n_agg_types: u64,
    pub n_airgroups: u64,
    pub n_airs_first: u64,
    pub n_airs: u64,
}

/// One of the three proofs that recursive2 takes: how its values and signals are declared, and
/// how they are handed to its verifier.
pub struct BranchSignals {
    pub proof_define: String,
    pub stark_define: String,
    pub stark_assign: String,
    pub proof_assign: String,
}

/// The signals of recursive2: the three proofs, the values it gives, and how these are combined.
pub struct AggregationSignals {
    pub define: String,
    pub a: BranchSignals,
    pub b: BranchSignals,
    pub c: BranchSignals,
    pub combine: String,
}

/// What recursive2's circuit is made from: declarations.
pub open spec fn recursive2_declarations(
    files: Seq<Seq<char>>,
    keys: Seq<Seq<Seq<char>>>,
    z: AggregationSizes,
    s: AggregationSignals,
) -> Seq<(Seq<char>, Seq<char>)> {
    seq![
        ("verifier_filenames"@, json_texts(files)),
        ("airs_in_group"@, dec(z.n_airs as nat)),
        ("rootc_basics"@, quoted(joined_lines(key_lines("    rootCBasics"@, keys)))),
        ("vadcop_define_sv"@, quoted(s.define@)),
        ("has_publics"@, json_flag(z.n_publics > 0)),
        ("n_publics"@, dec(z.n_publics as nat)),
        ("has_proof_values"@, json_flag(z.n_values > 0)),
        ("num_proof_values"@, dec(z.n_values as nat)),
        ("vadcop_define_a"@, quoted(s.a.proof_define@)),
        ("stark_signals_a"@, quoted(s.a.stark_define@)),
        ("vadcop_define_b"@, quoted(s.b.proof_define@)),
        ("stark_signals_b"@, quoted(s.b.stark_define@)),
        ("vadcop_define_c"@, quoted(s.c.proof_define@)),
        ("stark_signals_c"@, quoted(s.c.stark_define@)),
        ("agg_types_consistency"@, quoted(agreement(z.n_agg_types as nat))),
    ]
}

/// What recursive2's circuit is made from: assignments.
pub open spec fn recursive2_assignments(z: AggregationSizes, s: AggregationSignals) -> Seq<
    (Seq<char>, Seq<char>),
> {
    seq![
        ("stark_assign_a"@, quoted(s.a.stark_assign@)),
        ("stark_assign_b"@, quoted(s.b.stark_assign@)),
        ("stark_assign_c"@, quoted(s.c.stark_assign@)),
        ("vadcop_assign_a"@, quoted(s.a.proof_assign@)),
        ("vadcop_assign_b"@, quoted(s.b.proof_assign@)),
        ("vadcop_assign_c"@, quoted(s.c.proof_assign@)),
        ("sel_fn"@, quoted(selector(several_airs(z.n_airgroups, z.n_airs_first)))),
        ("agg_vadcop"@, quoted(s.combine@)),
        ("n_publics_minus_4"@, dec((z.n_publics_raw - 4) as nat)),
        (
            "pub_names"@,
            quoted(
                separated(
                    public_names(Seq::empty(), z.n_publics as nat, z.n_values as nat, true),
                    ", "@,
                ),
            ),
        ),
    ]
}

/// What recursive2's circuit is made from.
pub open spec fn recursive2_fields(
    files: Seq<Seq<char>>,
    keys: Seq<Seq<Seq<char>>>,
    z: AggregationSizes,
    s: AggregationSignals,
) -> Seq<(Seq<char>, Seq<char>)> {
    recursive2_declarations(files, keys, z, s) + recursive2_assignments(z, s)
}

fn add_declarations(
    o: &mut JsonObject,
    verifier_filenames: &Vec<String>,
    basic_vk: &Vec<Vec<String>>,
    z: &AggregationSizes,
    s: &AggregationSignals,
)
    requires
        old(o).wf(),
    ensures
        final(o).wf(),
        final(o)@ == old(o)@ + recursive2_declarations(
            texts(verifier_filenames@),
            key_limbs(basic_vk@),
            *z,
            *s,
        ),
{
    let ghost before = o@;
    let keys: String = join_lines(&key_line_texts("    rootCBasics", basic_vk));
    let agree: String = agreement_text(z.n_agg_types);
    o.add_texts("verifier_filenames", verifier_filenames);
    o.add_number("airs_in_group", z.n_airs);
    o.add_text("rootc_basics", keys.as_str());
    o.add_text("vadcop_define_sv", s.define.as_str());
    o.add_flag("has_publics", z.n_publics > 0);
    o.add_number("n_publics", z.n_publics);
    o.add_flag("has_proof_values", z.n_values > 0);
    o.add_number("num_proof_values", z.n_values);
    o.add_text("vadcop_define_a", s.a.proof_define.as_str());
    o.add_text("stark_signals_a", s.a.stark_define.as_str());
    o.add_text("vadcop_define_b", s.b.proof_define.as_str());
    o.add_text("stark_signals_b", s.b.stark_define.as_str());
    o.add_text("vadcop_define_c", s.c.proof_define.as_str());
    o.add_text("stark_signals_c", s.c.stark_define.as_str());
    o.add_text("agg_types_consistency", agree.as_str());
    assert(o@ =~= before + recursive2_declarations(
        texts(verifier_filenames@),
        key_limbs(basic_vk@),
        *z,
        *s,
    ));
}

fn add_assignments(o: &mut JsonObject, z: &AggregationSizes, s: &AggregationSignals)
    requires
        old(o).wf(),
        z.n_publics_raw >= 4,
    ensures
        final(o).wf(),
        final(o)@ == old(o)@ + recursive2_assignments(*z, *s),
{
    let ghost before = o@;
    let none: Vec<String> = Vec::new();
    assert(texts(none@) =~= Seq::empty());
    let names: String = public_name_text(&none, z.n_publics, z.n_values, true);
    o.add_text("stark_assign_a", s.a.stark_assign.as_str());
    o.add_text("stark_assign_b", s.b.stark_assign.as_str());
    o.add_text("stark_assign_c", s.c.stark_assign.as_str());
    o.add_text("vadcop_assign_a", s.a.proof_assign.as_str());
    o.add_text("vadcop_assign_b", s.b.proof_assign.as_str());
    o.add_text("vadcop_assign_c", s.c.proof_assign.as_str());
    o.add_text("sel_fn", selector_name(z.n_airgroups > 1 || z.n_airs_first > 1));
    o.add_text("agg_vadcop", s.combine.as_str());
    o.add_number("n_publics_minus_4", z.n_publics_raw - 4);
    o.add_text("pub_names", names.as_str());
    assert(o@ =~= before + recursive2_assignments(*z, *s));
}

/// What recursive2's circuit is filled with.
pub fn recursive2_values(
    verifier_filenames: &Vec<String>,
    basic_vk: &Vec<Vec<String>>,
    z: &AggregationSizes,
    s: &AggregationSignals,
) -> (o: JsonObject)
    requires
        z.n_publics_raw >= 4,
    ensures
        o.wf(),
        o@ == recursive2_fields(
            texts(verifier_filenames@),
            key_limbs(basic_vk@),
            *z,
            *s,
        ),
{
    let mut o: JsonObject = JsonObject::new();
    add_declarations(&mut o, verifier_filenames, basic_vk, z, s);
    add_assignments(&mut o, z, s);
    assert(o@ =~= recursive2_declarations(
        texts(verifier_filenames@),
        key_limbs(basic_vk@),
        *z,
        *s,
    ) + recursive2_assignments(*z, *s));
    o
}

/// Recursive2's circuit.
pub fn gen_recursive2(
    template: &str,
    verifier_filenames: &Vec<String>,
    basic_vk: &Vec<Vec<String>>,
    z: &AggregationSizes,
    s: &AggregationSignals,
) -> (r: Option<String>)
    requires
        z.n_publics_raw >= 4,
        fillable(template@, json_object(recursive2_fields(
            texts(verifier_filenames@),
            key_limbs(basic_vk@),
            *z,
            *s,
        ))),
    ensures
        text_of(r) == rendered(template@, json_object(recursive2_fields(
            texts(verifier_filenames@),
            key_limbs(basic_vk@),
            *z,
            *s,
        ))),
{
    let o: JsonObject = recursive2_values(verifier_filenames, basic_vk, z, s);
    render(template, &o)
}

/// Which of `n` descriptions an airgroup's proof has: its own where there are several
/// airgroups and it has one, the first otherwise.
pub fn description_of(i: usize, n_airgroups: usize, n: usize) -> (r: Option<usize>)
    ensures
        r == if n == 0 {
            None::<usize>
        } else if n_airgroups > 1 && i < n {
            Some(i)
        } else {
            Some(0usize)
        },
{
    if n == 0 {
        None
    } else if n_airgroups > 1 && i < n {
        Some(i)
    } else {
        Some(0)
    }
}

/// One airgroup's proof in the final aggregation: its signals, the keys it may have, and the
/// publics of its STARK, its key among them.
pub struct FinalBranch {
    pub signals: BranchSignals,
    pub agg_key: Vec<String>,
    pub basic_keys: Vec<Vec<String>>,
    pub n_airs: u64,
    pub n_publics_raw: u64,
    /// The values that it aggregates.
    pub n_agg_types: u64,
}

/// The declarations of an airgroup's proof.
pub open spec fn define_section(b: FinalBranch) -> Seq<char> {
    b.signals.proof_define@ + b.signals.stark_define@
}

/// The key of an airgroup's proof is selected, and handed on as the last of its publics.
pub open spec fn key_section(i: nat, b: FinalBranch, several: bool) -> Seq<char> {
    ("    var s"@ + dec(i) + "_sv_rootCAgg[4] = ["@) + (separated(texts(b.agg_key@), ","@)
        + "];\n"@) + ("    var s"@ + dec(i) + "_sv_rootCBasics["@) + (dec(b.n_airs as nat)
        + "][4];\n\n"@) + (joined_lines(
        key_lines("    s"@ + dec(i) + "_sv_rootCBasics"@, key_limbs(b.basic_keys@)),
    ) + "\n"@) + ("    sV"@ + dec(i) + ".rootC <== "@) + (selector(several) + "("@ + dec(
        b.n_airs as nat,
    ) + ")(s"@) + (dec(i) + "_sv_circuitType, s"@) + (dec(i) + "_sv_rootCBasics, s"@) + (dec(i)
        + "_sv_rootCAgg);\n"@) + ("    for (var i=0; i<4; i++) {\n        sV"@ + dec(i)
        + ".publics["@) + (dec((b.n_publics_raw - 4) as nat) + " + i] <== s"@) + (dec(i)
        + "_sv_rootCAgg[i];\n    }\n"@)
}

/// The assignments of an airgroup's proof.
pub open spec fn assign_section(i: nat, b: FinalBranch, several: bool) -> Seq<char> {
    b.signals.stark_assign@ + b.signals.proof_assign@ + key_section(i, b, several)
}

/// The final aggregation can be generated: every STARK has its key among its publics.
pub open spec fn branches_ok(v: Seq<FinalBranch>) -> bool {
    forall|i: int| 0 <= i < v.len() ==> (#[trigger] v[i]).n_publics_raw >= 4
}

fn push_pair(out: &mut String, a: &str, n: u64, b: &str)
    ensures
        final(out)@ == old(out)@ + (a@ + dec(n as nat) + b@),
{
    push_numbered(out, a, n, b);
}

fn push_after(out: &mut String, n: u64, b: &str)
    ensures
        final(out)@ == old(out)@ + (dec(n as nat) + b@),
{
    let ghost before = out@;
    let mut s: String = String::new();
    push_dec(&mut s, n);
    s.append(b);
    assert(s@ =~= dec(n as nat) + b@);
    out.append(s.as_str());
}

fn key_section_text(i: u64, b: &FinalBranch, several: bool) -> (r: String)
    requires
        b.n_publics_raw >= 4,
    ensures
        r@ == key_section(i as nat, *b, several),
{
    let limbs: String = join_texts(&b.agg_key, ",");
    let mut prefix: String = String::new();
    push_numbered(&mut prefix, "    s", i, "_sv_rootCBasics");
    assert(prefix@ =~= "    s"@ + dec(i as nat) + "_sv_rootCBasics"@);
    let keys: String = join_lines(&key_line_texts(prefix.as_str(), &b.basic_keys));
    let mut out: String = String::new();
    push_pair(&mut out, "    var s", i, "_sv_rootCAgg[4] = [");
    let ghost p0 = "    var s"@ + dec(i as nat) + "_sv_rootCAgg[4] = ["@;
    assert(out@ =~= p0);
    let mut key_end: String = limbs.as_str().to_owned();
    key_end.append("];\n");
    out.append(key_end.as_str());
    push_pair(&mut out, "    var s", i, "_sv_rootCBasics[");
    push_after(&mut out, b.n_airs, "][4];\n\n");
    let mut lines: String = keys.as_str().to_owned();
    lines.append("\n");
    out.append(lines.as_str());
    push_pair(&mut out, "    sV", i, ".rootC <== ");
    let mut select: String = selector_name(several).to_owned();
    select.append("(");
    push_dec(&mut select, b.n_airs);
    select.append(")(s");
    out.append(select.as_str());
    push_after(&mut out, i, "_sv_circuitType, s");
    push_after(&mut out, i, "_sv_rootCBasics, s");
    push_after(&mut out, i, "_sv_rootCAgg);\n");
    push_pair(&mut out, "    for (var i=0; i<4; i++) {\n        sV", i, ".publics[");
    push_after(&mut out, b.n_publics_raw - 4, " + i] <== s");
    push_after(&mut out, i, "_sv_rootCAgg[i];\n    }\n");
    out
}

/// The declarations of every airgroup's proof.
pub open spec fn define_sections(v: Seq<FinalBranch>) -> Seq<Seq<char>> {
    v.map_values(|b: FinalBranch| define_section(b))
}

/// The assignments of every airgroup's proof.
pub open spec fn assign_sections(v: Seq<FinalBranch>, several: bool) -> Seq<Seq<char>> {
    Seq::new(v.len(), |i: int| assign_section(i as nat, v[i], several))
}

/// The aggregated values of the airgroups that have any.
pub open spec fn value_names(v: Seq<FinalBranch>) -> Seq<Seq<char>>
    decreases v.len(),
{
    if v.len() == 0 {
        Seq::empty()
    } else {
        let before = value_names(v.drop_last());
        if v.last().n_agg_types > 0 {
            before.push("s"@ + dec((v.len() - 1) as nat) + "_sv_airgroupvalues"@)
        } else {
            before
        }
    }
}

/// The numbers below `n`.
pub open spec fn positions(n: nat) -> Seq<u64> {
    Seq::new(n, |i: int| i as u64)
}

/// The circuits that check the challenge and the constraints of the whole, and its sizes.
pub struct WholeSignals {
    pub challenge: String,
    pub constraints: String,
    pub n_publics: u64,
    pub n_values: u64,
    /// Whether values are described by name.
    pub named_values: bool,
    pub n_airgroups: u64,
    pub n_airs_first: u64,
}

/// What the final aggregation is made from.
pub open spec fn vadcop_final_fields(
    files: Seq<Seq<char>>,
    w: WholeSignals,
    v: Seq<FinalBranch>,
) -> Seq<(Seq<char>, Seq<char>)> {
    seq![
        ("verifier_filenames"@, json_texts(files)),
        ("verify_global_challenge"@, quoted(w.challenge@)),
        ("verify_global_constraints"@, quoted(w.constraints@)),
        ("has_publics"@, json_flag(w.n_publics > 0)),
        ("n_publics"@, dec(w.n_publics as nat)),
        ("has_proof_values"@, json_flag(w.n_values > 0 || w.named_values)),
        ("num_proof_values"@, dec(w.n_values as nat)),
        ("define_sections"@, json_texts(define_sections(v))),
        (
            "assign_sections"@,
            json_texts(assign_sections(v, several_airs(w.n_airgroups, w.n_airs_first))),
        ),
        ("stage1hash_indices"@, json_numbers(positions(v.len()))),
        ("airgroupvalues_names"@, json_texts(value_names(v))),
        ("n_airgroups"@, dec(v.len())),
    ]
}

/// What the circuit of the final aggregation is filled with.
pub fn vadcop_final_values(
    verifier_filenames: &Vec<String>,
    w: &WholeSignals,
    branches: &Vec<FinalBranch>,
) -> (o: JsonObject)
    requires
        branches_ok(branches@),
    ensures
        o.wf(),
        o@ == vadcop_final_fields(texts(verifier_filenames@), *w, branches@),
{
    let several: bool = w.n_airgroups > 1 || w.n_airs_first > 1;
    let ghost v = branches@;
    let ghost defs = define_sections(v);
    let ghost asgs = assign_sections(v, several);
    let mut defines: Vec<String> = Vec::new();
    let mut assigns: Vec<String> = Vec::new();
    let mut names: Vec<String> = Vec::new();
    let mut indices: Vec<u64> = Vec::new();
    let mut i: usize = 0;
    proof {
        assert(texts(defines@) =~= defs.take(0));
        assert(texts(assigns@) =~= asgs.take(0));
        assert(v.take(0) =~= Seq::empty());
        assert(texts(names@) =~= Seq::empty());
        assert(indices@ =~= positions(0));
    }
    while i < branches.len()
        invariant
            i <= branches@.len(),
            branches_ok(branches@),
            v == branches@,
            defs == define_sections(v),
            asgs == assign_sections(v, several),
            texts(defines@) == defs.take(i as int),
            texts(assigns@) == asgs.take(i as int),
            texts(names@) == value_names(v.take(i as int)),
            indices@ == positions(i as nat),
        decreases branches@.len() - i,
    {
        let b: &FinalBranch = &branches[i];
        let mut define: String = b.signals.proof_define.as_str().to_owned();
        define.append(b.signals.stark_define.as_str());
        let mut assign: String = b.signals.stark_assign.as_str().to_owned();
        assign.append(b.signals.proof_assign.as_str());
        let key: String = key_section_text(i as u64, b, several);
        assign.append(key.as_str());
        proof {
            assert(v.take(i + 1).drop_last() =~= v.take(i as int));
            assert(v.take(i + 1).last() == *b);
            assert(defs.take(i + 1) =~= defs.take(i as int).push(defs[i as int]));
            assert(asgs.take(i + 1) =~= asgs.take(i as int).push(asgs[i as int]));
        }
        push_text(&mut defines, define);
        push_text(&mut assigns, assign);
        if b.n_agg_types > 0 {
            let mut name: String = "s".to_owned();
            push_dec(&mut name, i as u64);
            name.append("_sv_airgroupvalues");
            push_text(&mut names, name);
        }
        indices.push(i as u64);
        assert(indices@ =~= positions((i + 1) as nat));
        i = i + 1;
    }
    proof {
        assert(defs.take(i as int) =~= defs);
        assert(asgs.take(i as int) =~= asgs);
        assert(v.take(i as int) =~= v);
    }
    let mut o: JsonObject = JsonObject::new();
    o.add_texts("verifier_filenames", verifier_filenames);
    o.add_text("verify_global_challenge", w.challenge.as_str());
    o.add_text("verify_global_constraints", w.constraints.as_str());
    o.add_flag("has_publics", w.n_publics > 0);
    o.add_number("n_publics", w.n_publics);
    o.add_flag("has_proof_values", w.n_values > 0 || w.named_values);
    o.add_number("num_proof_values", w.n_values);
    o.add_texts("define_sections", &defines);
    o.add_texts("assign_sections", &assigns);
    o.add_numbers("stage1hash_indices", &indices);
    o.add_texts("airgroupvalues_names", &names);
    o.add_number("n_airgroups", branches.len() as u64);
    assert(o@ =~= vadcop_final_fields(texts(verifier_filenames@), *w, branches@));
    o
}

/// The circuit of the final aggregation.
pub fn gen_vadcop_final(
    template: &str,
    verifier_filenames: &Vec<String>,
    w: &WholeSignals,
    branches: &Vec<FinalBranch>,
) -> (r: Option<String>)
    requires
        branches_ok(branches@),
        fillable(
            template@,
            json_object(vadcop_final_fields(texts(verifier_filenames@), *w, branches@)),
        ),
    ensures
        text_of(r) == rendered(
            template@,
            json_object(vadcop_final_fields(texts(verifier_filenames@), *w, branches@)),
        ),
{
    let o: JsonObject = vadcop_final_values(verifier_filenames, w, branches);
    render(template, &o)
}

} // verus!

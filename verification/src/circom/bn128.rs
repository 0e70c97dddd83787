//! The BN128 verifier circuit of a STARK: what its template is filled with.
use vstd::arithmetic::power2::pow2;
use vstd::prelude::*;
use vstd::string::StringExecFns;

use crate::circom::bn128_info::{
    are_sizes, challenges_of, has_boundary, is_named, name_is, or, or_default, power_of_two,
    quotient_evaluation, sizes, sizes_fit, RowBoundary, Sizes, StarkInfo,
};
use crate::circom::bn128_lists::{
    challenge_items, challenge_list, cm_width, commit_items, commit_list, commit_name, frame_items,
    frame_list, frames_fit, name_of_commit, opening_items, opening_list, pols_by_stage,
    pols_by_stage_items, root_power, stage_items, stage_list, stage_width, step_items, step_list,
    steps_fold,
};
use crate::circom::json::{
    join_texts, json_flag, json_list, json_object, json_texts, push_text, quoted, separated,
    JsonObject,
};
use crate::circom::render::{render, rendered};
use crate::circom::template_syntax::fillable;
use crate::exps::emit::texts;
use crate::stark_verifier::domain::powp;
use crate::text::{dec, dec_text, push_dec};

verus! {

/// How a verifier circuit is generated.
#[derive(Clone, Copy, PartialEq, Eq, Structural, Debug)]
pub struct Pil2CircomOptions {
    pub skip_main: bool,
    pub verkey_input: bool,
    pub enable_input: bool,
}

/// Code that other generators made for the circuit: of its transcripts, and of the expressions
/// that it evaluates, each with the name of its last value.
pub struct Fragments {
    pub queries: String,
    pub transcript: String,
    pub publics: String,
    pub evals: String,
    pub last_pol: String,
    pub eval_p_code: String,
    pub eval_p_last: String,
    pub eval_q_code: String,
    pub eval_q_last: String,
}

/// The field's constants: the generator of its cosets, and a root of unity for each order.
pub struct FieldTable {
    pub shift: u64,
    pub roots: Vec<u64>,
}

/// Why a verifier circuit cannot be generated.
pub enum Bn128Error {
    /// The STARK does not use the BN128 hash.
    WrongHash { hash_type: String },
    /// Last levels are not checked by custom trees.
    CustomLastLevel,
    /// The template cannot be filled.
    Template,
}

impl Bn128Error {
    /// What to tell the user.
    pub fn message(&self) -> (r: String)
        ensures
            r@ == match *self {
                Bn128Error::WrongHash { hash_type } =>
                    "gen_stark_verifier_bn128: expected BN128 hash type, got '"@ + hash_type@
                    + "'"@,
                Bn128Error::CustomLastLevel => CUSTOM_LAST_LEVEL@,
                Bn128Error::Template => "Tera render error (BN128)"@,
            },
    {
        match self {
            Bn128Error::WrongHash { hash_type } => {
                let mut out: String =
                    "gen_stark_verifier_bn128: expected BN128 hash type, got '".to_owned();
                out.append(hash_type.as_str());
                out.append("'");
                out
            },
            Bn128Error::CustomLastLevel => CUSTOM_LAST_LEVEL.to_owned(),
            Bn128Error::Template => "Tera render error (BN128)".to_owned(),
        }
    }
}

/// Last levels are not checked by custom trees.
pub const CUSTOM_LAST_LEVEL: &'static str =
    "gen_stark_verifier_bn128: lastLevelVerification > 0 is not supported with merkleTreeCustom (circuits.bn128/custom/merklehash.circom lacks the templates)";

/// A text with a number in it.
pub open spec fn numbered(head: Seq<char>, n: nat, tail: Seq<char>) -> Seq<char> {
    head + dec(n) + tail
}

fn numbered_text(head: &str, n: u64, tail: &str) -> (r: String)
    ensures
        r@ == numbered(head@, n as nat, tail@),
{
    let mut s: String = head.to_owned();
    push_dec(&mut s, n);
    s.append(tail);
    s
}

/// The opened values of the stages that have any.
pub open spec fn opened_stages(info: StarkInfo, n: nat) -> Seq<Seq<char>>
    decreases n,
{
    if n == 0 {
        Seq::empty()
    } else {
        let before = opened_stages(info, (n - 1) as nat);
        if cm_width(info, n) > 0 {
            before.push(numbered("s0_vals"@, n, "GL"@))
        } else {
            before
        }
    }
}

/// The opened values that a query takes.
pub open spec fn query_values(info: StarkInfo, z: Sizes) -> Seq<Seq<char>> {
    opened_stages(info, z.n_stages as nat) + seq![
        numbered("s0_vals"@, z.q_stage as nat, "GL"@),
        "s0_valsCGL"@,
    ] + Seq::new(
        info.custom_commits@.len(),
        |i: int| "s0_vals_"@ + commit_name(info.custom_commits@[i]) + "_0GL"@,
    )
}

fn query_value_names(info: &StarkInfo, z: &Sizes) -> (r: Vec<String>)
    requires
        z.n_stages < u64::MAX,
    ensures
        texts(r@) == query_values(*info, *z),
{
    let mut out: Vec<String> = Vec::new();
    let mut i: u64 = 0;
    assert(texts(out@) =~= Seq::empty());
    while i < z.n_stages
        invariant
            i <= z.n_stages,
            z.n_stages < u64::MAX,
            texts(out@) == opened_stages(*info, i as nat),
        decreases z.n_stages - i,
    {
        if stage_width(info, i + 1) > 0 {
            push_text(&mut out, numbered_text("s0_vals", i + 1, "GL"));
        }
        i = i + 1;
    }
    push_text(&mut out, numbered_text("s0_vals", z.q_stage, "GL"));
    push_text(&mut out, "s0_valsCGL".to_owned());
    let ghost head = texts(out@);
    let ghost tail = Seq::new(
        info.custom_commits@.len(),
        |i: int| "s0_vals_"@ + commit_name(info.custom_commits@[i]) + "_0GL"@,
    );
    let mut k: usize = 0;
    assert(head + tail.take(0) =~= head);
    while k < info.custom_commits.len()
        invariant
            k <= info.custom_commits@.len(),
            tail == Seq::new(
                info.custom_commits@.len(),
                |i: int| "s0_vals_"@ + commit_name(info.custom_commits@[i]) + "_0GL"@,
            ),
            texts(out@) == head + tail.take(k as int),
        decreases info.custom_commits@.len() - k,
    {
        let mut s: String = "s0_vals_".to_owned();
        let name: String = name_of_commit(&info.custom_commits[k]);
        s.append(name.as_str());
        s.append("_0GL");
        assert(head + tail.take(k + 1) =~= (head + tail.take(k as int)).push(tail[k as int]));
        push_text(&mut out, s);
        k = k + 1;
    }
    assert(tail.take(k as int) =~= tail);
    assert(texts(out@) =~= query_values(*info, *z));
    out
}

/// The challenges of the stages that have any.
pub open spec fn challenged_stages(info: StarkInfo, n: nat) -> Seq<Seq<char>>
    decreases n,
{
    if n == 0 {
        Seq::empty()
    } else {
        let before = challenged_stages(info, (n - 1) as nat);
        if challenges_of(info.challenge_stages@, n as u64) > 0 {
            before.push(numbered("challengesStage"@, n, "GL"@))
        } else {
            before
        }
    }
}

fn challenged_stage_names(info: &StarkInfo, n: u64) -> (r: Vec<String>)
    requires
        n < u64::MAX,
    ensures
        texts(r@) == challenged_stages(*info, n as nat),
{
    let mut out: Vec<String> = Vec::new();
    let mut i: u64 = 0;
    assert(texts(out@) =~= Seq::empty());
    while i < n
        invariant
            i <= n,
            n < u64::MAX,
            texts(out@) == challenged_stages(*info, i as nat),
        decreases n - i,
    {
        if info.count_challenges(i + 1) > 0 {
            push_text(&mut out, numbered_text("challengesStage", i + 1, "GL"));
        }
        i = i + 1;
    }
    out
}

/// The challenges that the transcript gives.
pub open spec fn challenge_names(info: StarkInfo, z: Sizes) -> Seq<Seq<char>> {
    challenged_stages(info, z.n_stages as nat) + seq![
        "challengeQGL"@,
        "challengeXiGL"@,
        "challengesFRIGL"@,
    ]
}

/// What the check of the evaluations takes.
pub open spec fn evaluation_inputs(info: StarkInfo, z: Sizes) -> Seq<Seq<char>> {
    challenged_stages(info, z.n_stages as nat) + seq![
        "challengeQGL"@,
        "challengeXiGL"@,
        "evalsGL"@,
    ] + (if z.n_publics > 0 {
        seq!["publicsGL"@]
    } else {
        Seq::empty()
    }) + (if info.n_air_group_values > 0 {
        seq!["airgroupValuesGL"@]
    } else {
        Seq::empty()
    }) + seq!["enabled"@]
}

fn evaluation_input_names(info: &StarkInfo, z: &Sizes) -> (r: Vec<String>)
    requires
        z.n_stages < u64::MAX,
    ensures
        texts(r@) == evaluation_inputs(*info, *z),
{
    let mut out: Vec<String> = challenged_stage_names(info, z.n_stages);
    push_text(&mut out, "challengeQGL".to_owned());
    push_text(&mut out, "challengeXiGL".to_owned());
    push_text(&mut out, "evalsGL".to_owned());
    if z.n_publics > 0 {
        push_text(&mut out, "publicsGL".to_owned());
    }
    if info.n_air_group_values > 0 {
        push_text(&mut out, "airgroupValuesGL".to_owned());
    }
    push_text(&mut out, "enabled".to_owned());
    assert(texts(out@) =~= evaluation_inputs(*info, *z));
    out
}

fn challenge_name_list(info: &StarkInfo, z: &Sizes) -> (r: Vec<String>)
    requires
        z.n_stages < u64::MAX,
    ensures
        texts(r@) == challenge_names(*info, *z),
{
    let mut out: Vec<String> = challenged_stage_names(info, z.n_stages);
    push_text(&mut out, "challengeQGL".to_owned());
    push_text(&mut out, "challengeXiGL".to_owned());
    push_text(&mut out, "challengesFRIGL".to_owned());
    assert(texts(out@) =~= challenge_names(*info, *z));
    out
}

/// What the transcript takes in front of the quotient's root and the evaluations.
pub open spec fn transcript_inputs(z: Sizes) -> Seq<Seq<char>> {
    (if z.n_publics > 0 {
        seq!["publicsGL"@]
    } else {
        Seq::empty()
    }) + seq!["rootC"@] + Seq::new(
        z.n_stages as nat,
        |i: int| numbered("root"@, (i + 1) as nat, ""@),
    )
}

fn transcript_input_names(z: &Sizes) -> (r: Vec<String>)
    requires
        z.n_stages < u64::MAX,
    ensures
        texts(r@) == transcript_inputs(*z),
{
    let mut out: Vec<String> = Vec::new();
    assert(texts(out@) =~= Seq::empty());
    if z.n_publics > 0 {
        push_text(&mut out, "publicsGL".to_owned());
    }
    push_text(&mut out, "rootC".to_owned());
    let ghost head = texts(out@);
    let ghost tail = Seq::new(
        z.n_stages as nat,
        |i: int| numbered("root"@, (i + 1) as nat, ""@),
    );
    let mut i: u64 = 0;
    assert(head + tail.take(0) =~= head);
    while i < z.n_stages
        invariant
            i <= z.n_stages,
            z.n_stages < u64::MAX,
            tail == Seq::new(
                z.n_stages as nat,
                |i: int| numbered("root"@, (i + 1) as nat, ""@),
            ),
            texts(out@) == head + tail.take(i as int),
        decreases z.n_stages - i,
    {
        let s: String = numbered_text("root", i + 1, "");
        assert(head + tail.take(i + 1) =~= (head + tail.take(i as int)).push(tail[i as int]));
        push_text(&mut out, s);
        i = i + 1;
    }
    assert(tail.take(i as int) =~= tail);
    assert(texts(out@) =~= transcript_inputs(*z));
    out
}

/// The roots of the FRI steps after the first.
pub open spec fn step_roots(n_steps: nat) -> Seq<Seq<char>> {
    Seq::new(
        (if n_steps > 0 {
            n_steps - 1
        } else {
            0
        }) as nat,
        |i: int| numbered("s"@, (i + 1) as nat, "_root"@),
    )
}

fn step_root_names(n_steps: u64) -> (r: Vec<String>)
    ensures
        texts(r@) == step_roots(n_steps as nat),
{
    let ghost all = step_roots(n_steps as nat);
    let mut out: Vec<String> = Vec::new();
    let mut i: u64 = 1;
    assert(texts(out@) =~= all.take(0));
    while i < n_steps
        invariant
            1 <= i,
            n_steps > 0 ==> i <= n_steps,
            n_steps == 0 ==> i == 1,
            all == step_roots(n_steps as nat),
            texts(out@) == all.take(i - 1),
        decreases n_steps - i,
    {
        let s: String = numbered_text("s", i, "_root");
        assert(all.take(i as int) =~= all.take(i - 1).push(all[i - 1]));
        push_text(&mut out, s);
        i = i + 1;
    }
    assert(all.take(i - 1) =~= all);
    out
}

/// The root of the last row, in decimal; zero where no constraint is bound to it.
pub open spec fn last_row_root(info: StarkInfo, roots: Seq<u64>) -> Seq<char> {
    if has_boundary(info.boundaries@, "lastRow"@) {
        root_power(
            roots[or(info.n_bits, 0) as int],
            (pow2(or(info.n_bits, 0) as nat) - 1) as nat,
        )
    } else {
        "0"@
    }
}

/// The verifier circuit can be generated: its sizes fit, its steps fold, and the field has the
/// roots of unity that it needs.
pub open spec fn can_generate(info: StarkInfo, f: FieldTable) -> bool {
    &&& sizes_fit(info)
    &&& steps_fold(info, f.shift, f.roots@)
    &&& frames_fit(info.boundaries@)
    &&& has_boundary(info.boundaries@, "lastRow"@) || has_boundary(
        info.boundaries@,
        "everyFrame"@,
    ) ==> or(info.n_bits, 0) < 64 && or(info.n_bits, 0) < f.roots@.len()
}

/// The root of unity of order `2^n`: zero where the field has none.
pub open spec fn root_of_order(roots: Seq<u64>, n: int) -> u64 {
    if 0 <= n < roots.len() {
        roots[n]
    } else {
        0
    }
}

proof fn lemma_no_frames(b: Seq<RowBoundary>, n_bits: nat, w: u64)
    requires
        !has_boundary(b, "everyFrame"@),
    ensures
        frame_list(b, n_bits, w) == Seq::<Seq<char>>::empty(),
    decreases b.len(),
{
    if b.len() > 0 {
        let rest = b.drop_last();
        assert(!is_named(b[b.len() - 1].name, "everyFrame"@));
        assert forall|i: int| 0 <= i < rest.len() implies !is_named(
            (#[trigger] rest[i]).name,
            "everyFrame"@,
        ) by {
            assert(rest[i] == b[i]);
        }
        lemma_no_frames(rest, n_bits, w);
    }
}

fn frames_of(info: &StarkInfo, n_bits: u64, f: &FieldTable) -> (r: Vec<String>)
    requires
        can_generate(*info, *f),
        n_bits == or(info.n_bits, 0),
    ensures
        texts(r@) == frame_list(
            info.boundaries@,
            n_bits as nat,
            root_of_order(f.roots@, n_bits as int),
        ),
{
    if info.bounded_by("everyFrame") {
        let n_roots: usize = f.roots.len();
        assert(n_bits < n_roots);
        frame_items(&info.boundaries, n_bits, f.roots[n_bits as usize])
    } else {
        proof {
            lemma_no_frames(
                info.boundaries@,
                n_bits as nat,
                root_of_order(f.roots@, n_bits as int),
            );
        }
        let none: Vec<String> = Vec::new();
        assert(texts(none@) =~= Seq::empty());
        none
    }
}

/// The constant root as the circuit takes it: one scalar.
pub open spec fn scalar_root(root: Option<[String; 4]>) -> Seq<char> {
    match root {
        Some(r) => r[0]@,
        None => "0"@,
    }
}

/// The options and sizes.
pub open spec fn size_fields(info: StarkInfo, z: Sizes, opts: Pil2CircomOptions) -> Seq<
    (Seq<char>, Seq<char>),
> {
    seq![
        ("custom"@, json_flag(z.custom)),
        ("skip_main"@, json_flag(opts.skip_main)),
        ("verkey_input"@, json_flag(opts.verkey_input)),
        ("enable_input"@, json_flag(opts.enable_input)),
        ("n_stages"@, dec(z.n_stages as nat)),
        ("q_stage"@, dec(z.q_stage as nat)),
        ("n_queries"@, dec(z.n_queries as nat)),
        ("step0_bits"@, dec(z.step0_bits as nat)),
        ("n_bits"@, dec(z.n_bits as nat)),
        ("n_bits_ext"@, dec(z.n_bits_ext as nat)),
        ("pow_bits"@, dec(z.pow_bits as nat)),
        ("q_deg"@, dec(z.q_deg as nat)),
        ("hash_commits"@, json_flag(z.hash_commits)),
        ("n_publics"@, dec(z.n_publics as nat)),
        ("n_constants"@, dec(z.n_constants as nat)),
        ("ev_map_len"@, dec(info.ev_map@.len())),
        ("n_air_group_values"@, dec(info.n_air_group_values as nat)),
        ("n_steps"@, dec(z.n_steps as nat)),
    ]
}

/// The sizes of trees and of the final polynomial.
pub open spec fn tree_fields(z: Sizes) -> Seq<(Seq<char>, Seq<char>)> {
    seq![
        ("arity"@, dec(z.arity as nat)),
        ("n_bits_arity"@, dec(z.n_bits_arity as nat)),
        ("merkle_levels_s0"@, dec(z.merkle_levels_s0 as nat)),
        ("last_level_verification"@, dec(z.last_level_verification as nat)),
        ("last_level_verification_gt0"@, json_flag(z.last_level_verification > 0)),
        ("s0_last_mt_size"@, dec(z.s0_last_mt_size as nat)),
        ("transcript_arity"@, dec(z.transcript_arity as nat)),
        ("final_pol_size"@, dec(z.final_pol_size as nat)),
        ("n_last_bits"@, dec(z.n_last_bits as nat)),
        ("max_deg_bits"@, dec(z.max_deg_bits as nat)),
        ("max_deg_size"@, dec(z.max_deg_size as nat)),
        ("n_fields"@, dec(z.n_fields as nat)),
    ]
}

/// Boundaries, roots and positions.
pub open spec fn root_fields(
    info: StarkInfo,
    z: Sizes,
    f: FieldTable,
    root: Option<[String; 4]>,
) -> Seq<(Seq<char>, Seq<char>)> {
    seq![
        ("has_first_row"@, json_flag(has_boundary(info.boundaries@, "firstRow"@))),
        ("has_last_row"@, json_flag(has_boundary(info.boundaries@, "lastRow"@))),
        ("zlast_root"@, quoted(last_row_root(info, f.roots@))),
        ("q_pol_ev_id"@, dec(quotient_evaluation(info, z.q_stage) as nat)),
        ("const_root_str"@, quoted(scalar_root(root))),
        ("gl_shift"@, quoted(dec(f.shift as nat))),
        ("sha256_bits"@, dec(z.sha256_bits as nat)),
        ("q_stage_cm_section_len"@, dec(cm_width(info, z.q_stage as nat) as nat)),
        ("next_step0_bits"@, dec(z.next_step0_bits as nat)),
        (
            "next_vals_pol_0"@,
            quoted(
                if z.n_steps > 1 {
                    "s1_vals_p"@
                } else {
                    "finalPol"@
                },
            ),
        ),
        ("step0_bits_size"@, dec(z.step0_bits_size as nat)),
    ]
}

/// Names that are passed on.
pub open spec fn name_fields(info: StarkInfo, z: Sizes) -> Seq<(Seq<char>, Seq<char>)> {
    seq![
        ("query_vals_gl_joined"@, quoted(separated(query_values(info, z), ", "@))),
        ("challenge_names_joined"@, quoted(separated(challenge_names(info, z), ","@))),
        ("transcript_call_inputs"@, json_texts(transcript_inputs(z))),
        ("si_roots_joined"@, quoted(separated(step_roots(z.n_steps as nat), ","@))),
        (
            "verify_evals_inputs_joined"@,
            quoted(separated(evaluation_inputs(info, z), ", "@)),
        ),
    ]
}

/// Code that other generators made.
pub open spec fn code_fields(c: Fragments) -> Seq<(Seq<char>, Seq<char>)> {
    seq![
        ("calculate_fri_queries_code"@, quoted(c.queries@)),
        ("transcript_code"@, quoted(c.transcript@)),
        ("transcript_publics_code"@, quoted(c.publics@)),
        ("transcript_evals_code"@, quoted(c.evals@)),
        ("transcript_last_pol_fri_code"@, quoted(c.last_pol@)),
        ("eval_p_code"@, quoted(c.eval_p_code@)),
        ("eval_p_last"@, quoted(c.eval_p_last@)),
        ("eval_q_code"@, quoted(c.eval_q_code@)),
        ("eval_q_last"@, quoted(c.eval_q_last@)),
    ]
}

/// The lists.
pub open spec fn list_fields(info: StarkInfo, z: Sizes, f: FieldTable) -> Seq<
    (Seq<char>, Seq<char>),
> {
    seq![
        ("challenges_per_stage"@, json_list(challenge_list(info, z.n_stages as nat))),
        ("stages_info"@, json_list(stage_list(info, z.q_stage as nat))),
        ("cm_pols_by_stage"@, json_list(pols_by_stage(info.cm_pols@, z.q_stage as nat))),
        ("custom_commits"@, json_list(commit_list(info))),
        ("fri_steps_info"@, json_list(step_list(info, z, f.shift, f.roots@))),
        ("opening_points"@, json_list(opening_list(info.opening_points@))),
        (
            "every_frames"@,
            json_list(
                frame_list(
                    info.boundaries@,
                    z.n_bits as nat,
                    root_of_order(f.roots@, z.n_bits as int),
                ),
            ),
        ),
    ]
}

/// Everything that the template is filled with.
pub open spec fn verifier_fields(
    info: StarkInfo,
    z: Sizes,
    opts: Pil2CircomOptions,
    root: Option<[String; 4]>,
    c: Fragments,
    f: FieldTable,
) -> Seq<(Seq<char>, Seq<char>)> {
    size_fields(info, z, opts) + tree_fields(z) + root_fields(info, z, f, root) + name_fields(
        info,
        z,
    ) + code_fields(c) + list_fields(info, z, f)
}

#[verifier::rlimit(40)]
fn add_sizes(o: &mut JsonObject, info: &StarkInfo, z: &Sizes, opts: &Pil2CircomOptions)
    requires
        old(o).wf(),
    ensures
        final(o).wf(),
        final(o)@ == old(o)@ + size_fields(*info, *z, *opts),
{
    let ghost before = o@;
    o.add_flag("custom", z.custom);
    o.add_flag("skip_main", opts.skip_main);
    o.add_flag("verkey_input", opts.verkey_input);
    o.add_flag("enable_input", opts.enable_input);
    o.add_number("n_stages", z.n_stages);
    o.add_number("q_stage", z.q_stage);
    o.add_number("n_queries", z.n_queries);
    o.add_number("step0_bits", z.step0_bits);
    let ghost all = size_fields(*info, *z, *opts);
    assert(o@ =~= before + all.take(8));
    o.add_number("n_bits", z.n_bits);
    o.add_number("n_bits_ext", z.n_bits_ext);
    o.add_number("pow_bits", z.pow_bits);
    o.add_number("q_deg", z.q_deg);
    o.add_flag("hash_commits", z.hash_commits);
    o.add_number("n_publics", z.n_publics);
    o.add_number("n_constants", z.n_constants);
    o.add_number("ev_map_len", info.ev_map.len() as u64);
    o.add_number("n_air_group_values", info.n_air_group_values);
    o.add_number("n_steps", z.n_steps);
    assert(o@ =~= before + all);
}

fn add_trees(o: &mut JsonObject, z: &Sizes)
    requires
        old(o).wf(),
    ensures
        final(o).wf(),
        final(o)@ == old(o)@ + tree_fields(*z),
{
    let ghost before = o@;
    o.add_number("arity", z.arity);
    o.add_number("n_bits_arity", z.n_bits_arity);
    o.add_number("merkle_levels_s0", z.merkle_levels_s0);
    o.add_number("last_level_verification", z.last_level_verification);
    o.add_flag("last_level_verification_gt0", z.last_level_verification > 0);
    o.add_number("s0_last_mt_size", z.s0_last_mt_size);
    o.add_number("transcript_arity", z.transcript_arity);
    o.add_number("final_pol_size", z.final_pol_size);
    o.add_number("n_last_bits", z.n_last_bits);
    o.add_number("max_deg_bits", z.max_deg_bits);
    o.add_number("max_deg_size", z.max_deg_size);
    o.add_number("n_fields", z.n_fields);
    assert(o@ =~= before + tree_fields(*z));
}

fn last_row_text(info: &StarkInfo, z: &Sizes, f: &FieldTable) -> (r: String)
    requires
        can_generate(*info, *f),
        z.n_bits == or(info.n_bits, 0),
    ensures
        r@ == last_row_root(*info, f.roots@),
{
    if info.bounded_by("lastRow") {
        let n_roots: usize = f.roots.len();
        assert(z.n_bits < n_roots);
        let rows: u64 = power_of_two(z.n_bits);
        dec_text(powp(f.roots[z.n_bits as usize], rows - 1))
    } else {
        "0".to_owned()
    }
}

fn add_roots(
    o: &mut JsonObject,
    info: &StarkInfo,
    z: &Sizes,
    f: &FieldTable,
    root: &Option<[String; 4]>,
)
    requires
        old(o).wf(),
        can_generate(*info, *f),
        z.n_bits == or(info.n_bits, 0),
    ensures
        final(o).wf(),
        final(o)@ == old(o)@ + root_fields(*info, *z, *f, *root),
{
    let ghost before = o@;
    let last: String = last_row_text(info, z, f);
    let shift: String = dec_text(f.shift);
    let scalar: String = match root {
        Some(r) => r[0].as_str().to_owned(),
        None => "0".to_owned(),
    };
    o.add_flag("has_first_row", info.bounded_by("firstRow"));
    o.add_flag("has_last_row", info.bounded_by("lastRow"));
    o.add_text("zlast_root", last.as_str());
    o.add_number("q_pol_ev_id", info.quotient_position(z.q_stage) as u64);
    o.add_text("const_root_str", scalar.as_str());
    o.add_text("gl_shift", shift.as_str());
    o.add_number("sha256_bits", z.sha256_bits);
    o.add_number("q_stage_cm_section_len", stage_width(info, z.q_stage));
    o.add_number("next_step0_bits", z.next_step0_bits);
    o.add_text(
        "next_vals_pol_0",
        if z.n_steps > 1 {
            "s1_vals_p"
        } else {
            "finalPol"
        },
    );
    o.add_number("step0_bits_size", z.step0_bits_size);
    assert(o@ =~= before + root_fields(*info, *z, *f, *root));
}

fn add_names(o: &mut JsonObject, info: &StarkInfo, z: &Sizes)
    requires
        old(o).wf(),
        z.n_stages < u64::MAX,
    ensures
        final(o).wf(),
        final(o)@ == old(o)@ + name_fields(*info, *z),
{
    let ghost before = o@;
    let values: String = join_texts(&query_value_names(info, z), ", ");
    let challenges: String = join_texts(&challenge_name_list(info, z), ",");
    let inputs: Vec<String> = transcript_input_names(z);
    let roots: String = join_texts(&step_root_names(z.n_steps), ",");
    let evals: String = join_texts(&evaluation_input_names(info, z), ", ");
    o.add_text("query_vals_gl_joined", values.as_str());
    o.add_text("challenge_names_joined", challenges.as_str());
    o.add_texts("transcript_call_inputs", &inputs);
    o.add_text("si_roots_joined", roots.as_str());
    o.add_text("verify_evals_inputs_joined", evals.as_str());
    assert(o@ =~= before + name_fields(*info, *z));
}

fn add_codes(o: &mut JsonObject, c: &Fragments)
    requires
        old(o).wf(),
    ensures
        final(o).wf(),
        final(o)@ == old(o)@ + code_fields(*c),
{
    let ghost before = o@;
    o.add_text("calculate_fri_queries_code", c.queries.as_str());
    o.add_text("transcript_code", c.transcript.as_str());
    o.add_text("transcript_publics_code", c.publics.as_str());
    o.add_text("transcript_evals_code", c.evals.as_str());
    o.add_text("transcript_last_pol_fri_code", c.last_pol.as_str());
    o.add_text("eval_p_code", c.eval_p_code.as_str());
    o.add_text("eval_p_last", c.eval_p_last.as_str());
    o.add_text("eval_q_code", c.eval_q_code.as_str());
    o.add_text("eval_q_last", c.eval_q_last.as_str());
    assert(o@ =~= before + code_fields(*c));
}

fn add_lists(o: &mut JsonObject, info: &StarkInfo, z: &Sizes, f: &FieldTable)
    requires
        old(o).wf(),
        can_generate(*info, *f),
        are_sizes(*z, *info),
        z.arity >= 2 ==> z.n_bits_arity >= 1,
    ensures
        final(o).wf(),
        final(o)@ == old(o)@ + list_fields(*info, *z, *f),
{
    let ghost before = o@;
    o.add_list("challenges_per_stage", &challenge_items(info, z.n_stages));
    o.add_list("stages_info", &stage_items(info, z.q_stage));
    o.add_list("cm_pols_by_stage", &pols_by_stage_items(&info.cm_pols, z.q_stage));
    o.add_list("custom_commits", &commit_items(info));
    o.add_list("fri_steps_info", &step_items(info, z, f.shift, &f.roots));
    o.add_list("opening_points", &opening_items(&info.opening_points));
    o.add_list("every_frames", &frames_of(info, z.n_bits, f));
    assert(o@ =~= before + list_fields(*info, *z, *f));
}

/// The circuit would have to check last levels with custom trees, which cannot.
pub open spec fn is_refused(info: StarkInfo) -> bool {
    or(info.last_level_verification, 0) > 0 && info.merkle_tree_custom == Some(true)
}

/// What the template of a verifier circuit is filled with. Custom trees cannot check last levels.
pub fn build_tera_context_bn128(
    info: &StarkInfo,
    opts: &Pil2CircomOptions,
    root: &Option<[String; 4]>,
    c: &Fragments,
    f: &FieldTable,
) -> (r: Result<JsonObject, Bn128Error>)
    requires
        is_refused(*info) || can_generate(*info, *f),
    ensures
        match r {
            Ok(o) => !is_refused(*info) && o.wf() && exists|z: Sizes| #[trigger]
                are_sizes(z, *info) && o@ == verifier_fields(*info, z, *opts, *root, *c, *f),
            Err(e) => is_refused(*info) && e is CustomLastLevel,
        },
{
    let custom: bool = match info.merkle_tree_custom {
        Some(b) => b,
        None => false,
    };
    if or_default(info.last_level_verification, 0) > 0 && custom {
        return Err(Bn128Error::CustomLastLevel);
    }
    let z: Sizes = sizes(info);
    let mut o: JsonObject = JsonObject::new();
    add_sizes(&mut o, info, &z, opts);
    add_trees(&mut o, &z);
    add_roots(&mut o, info, &z, f, root);
    add_names(&mut o, info, &z);
    add_codes(&mut o, c);
    add_lists(&mut o, info, &z, f);
    assert(o@ =~= verifier_fields(*info, z, *opts, *root, *c, *f));
    assert(are_sizes(z, *info));
    Ok(o)
}

/// The sizes of a verifier circuit are determined.
pub proof fn law_sizes_are_determined(info: StarkInfo, y: Sizes, z: Sizes)
    requires
        are_sizes(y, info),
        are_sizes(z, info),
    ensures
        y == z,
{
}

/// The hash of a STARK: Goldilocks where it is open.
pub open spec fn hash_name(info: StarkInfo) -> Seq<char> {
    match info.hash_type {
        Some(h) => h@,
        None => "GL"@,
    }
}

/// The BN128 verifier circuit of a STARK.
pub fn gen_stark_verifier_bn128(
    template: &str,
    root: &Option<[String; 4]>,
    info: &StarkInfo,
    opts: &Pil2CircomOptions,
    c: &Fragments,
    f: &FieldTable,
) -> (r: Result<String, Bn128Error>)
    requires
        hash_name(*info) == "BN128"@ ==> is_refused(*info) || can_generate(*info, *f),
        hash_name(*info) == "BN128"@ && !is_refused(*info) ==> forall|z: Sizes| #[trigger]
            are_sizes(z, *info) ==> fillable(
                template@,
                json_object(verifier_fields(*info, z, *opts, *root, *c, *f)),
            ),
    ensures
        hash_name(*info) != "BN128"@ ==> match r {
            Err(Bn128Error::WrongHash { hash_type }) => hash_type@ == hash_name(*info),
            _ => false,
        },
        hash_name(*info) == "BN128"@ && is_refused(*info) ==> r is Err && r->Err_0
            is CustomLastLevel,
        hash_name(*info) == "BN128"@ && !is_refused(*info) ==> exists|z: Sizes| #[trigger]
            are_sizes(z, *info) && match rendered(
                template@,
                json_object(verifier_fields(*info, z, *opts, *root, *c, *f)),
            ) {
                Some(t) => r is Ok && r->Ok_0@ == t,
                None => r is Err && r->Err_0 is Template,
            },
{
    if !name_is(&info.hash_type, "BN128") {
        let hash_type: String = match &info.hash_type {
            Some(h) => h.as_str().to_owned(),
            None => "GL".to_owned(),
        };
        proof {
            reveal_strlit("GL");
            reveal_strlit("BN128");
            assert("GL"@.len() == 2 && "BN128"@.len() == 5);
        }
        return Err(Bn128Error::WrongHash { hash_type });
    }
    match build_tera_context_bn128(info, opts, root, c, f) {
        Err(e) => Err(e),
        Ok(o) => match render(template, &o) {
            Some(t) => Ok(t),
            None => Err(Bn128Error::Template),
        },
    }
}

} // verus!

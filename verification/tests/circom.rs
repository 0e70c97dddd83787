use proofman::circom::aggregation::{
    description_of, gen_recursive2, gen_vadcop_final, AggregationSignals, AggregationSizes,
    BranchSignals, FinalBranch, WholeSignals,
};
use proofman::circom::bn128::{
    build_tera_context_bn128, gen_stark_verifier_bn128, Bn128Error, FieldTable, Fragments,
    Pil2CircomOptions,
};
use proofman::circom::bn128_info::{
    sizes, CustomCommit, Evaluation, Pol, RowBoundary, Section, StarkInfo,
};
use proofman::circom::bn128_transcript::{transcripts, TranscriptStep};
use proofman::circom::json::JsonObject;
use proofman::circom::render::render;
use proofman::circom::template_syntax::{can_fill, is_plain};
use proofman::circom::templates::{
    capitalise, gen_compressor, gen_final_compressed, gen_iverifier, gen_recursion_final,
    gen_recursive1, gen_recursivef, gen_solidity, parse_num_proof_values, program_key,
    ProofSignals, ProofValues, StarkSignals,
};
use proofman::field::{mulp, GOLDILOCKS_P};

fn minimal_stark_info(n_stages: u64, n_queries: u64, step0_bits: u64) -> StarkInfo {
    StarkInfo {
        hash_type: Some("BN128".to_string()),
        n_stages: Some(n_stages),
        merkle_tree_arity: Some(16),
        merkle_tree_custom: Some(false),
        n_queries: Some(n_queries),
        last_level_verification: Some(0),
        n_bits: Some(16),
        n_bits_ext: Some(17),
        pow_bits: Some(0),
        hash_commits: Some(false),
        q_deg: Some(1),
        steps: vec![Some(step0_bits)],
        n_publics: Some(0),
        n_constants: Some(0),
        n_air_group_values: 0,
        ev_map: vec![],
        challenge_stages: vec![],
        cm_pols: vec![],
        custom_commits: vec![],
        opening_points: vec![],
        boundaries: vec![RowBoundary {
            name: Some("everyRow".to_string()),
            offset_min: None,
            offset_max: None,
        }],
        sections: vec![],
    }
}

fn no_fragments() -> Fragments {
    Fragments {
        queries: String::new(),
        transcript: String::new(),
        publics: String::new(),
        evals: String::new(),
        last_pol: String::new(),
        eval_p_code: String::new(),
        eval_p_last: String::new(),
        eval_q_code: String::new(),
        eval_q_last: String::new(),
    }
}

/// The shift of the cosets, and roots of unity of order `2^n`.
fn field_table() -> FieldTable {
    let mut roots = vec![0u64; 33];
    roots[32] = 1753635133440165772;
    for n in (0..32).rev() {
        roots[n] = mulp(roots[n + 1], roots[n + 1]);
    }
    assert_eq!(roots[0], 1);
    assert_eq!(roots[1], GOLDILOCKS_P - 1);
    FieldTable { shift: 7, roots }
}

const NO_OPTIONS: Pil2CircomOptions =
    Pil2CircomOptions { skip_main: false, verkey_input: false, enable_input: false };

fn llv_stark_info() -> StarkInfo {
    let mut si = minimal_stark_info(2, 4, 10);
    si.merkle_tree_arity = Some(4);
    si.last_level_verification = Some(2);
    si.steps = vec![Some(10), Some(6)];
    si.sections = ["cm1", "cm2", "cm3"]
        .iter()
        .map(|n| Section { name: n.to_string(), width: 2 })
        .collect();
    si
}

/// A verifier in outline.
const OUTLINE: &str = r#"{% if custom %}
include "custom/poseidon.circom";
include "custom/merklehash.circom";
{% else %}
include "poseidon.circom";
include "merklehash.circom";
{% endif %}{% if not skip_main %}
include "sha256/sha256.circom";
include "bitify.circom";
{% endif %}
signal input s0_siblingsC[{{ merkle_levels_s0 }}][{{ arity }}];
{% if last_level_verification_gt0 %}
signal input s0_last_levelsC[{{ s0_last_mt_size }}];
{% for s in stages_info %}
signal input s0_last_levels{{ loop.index }}[{{ s0_last_mt_size }}];
{% endfor %}
VerifyMerkleHashUntilLevel({{ last_level_verification }});
{% for s in fri_steps_info %}
signal input s{{ loop.index0 }}_last_levels[{{ s.last_mt_size }}];
VerifyMerkleRoot({{ last_level_verification }}, {{ arity }}, {{ s.mt_size }});
{% endfor %}{% endif %}{% if not skip_main %}
component main = Main();
{% endif %}"#;

fn outlined(si: &StarkInfo, opts: &Pil2CircomOptions) -> String {
    gen_stark_verifier_bn128(OUTLINE, &None, si, opts, &no_fragments(), &field_table()).ok().unwrap()
}

fn context(si: &StarkInfo) -> serde_json::Value {
    let o = build_tera_context_bn128(si, &NO_OPTIONS, &None, &no_fragments(), &field_table());
    serde_json::from_str(&o.ok().unwrap().to_json()).unwrap()
}

#[test]
fn llv_emits_until_level_and_root_checks() {
    let ctx = context(&llv_stark_info());
    // truncated sibling depth: full = (10-1)/2+1 = 5, minus llv 2 -> 3
    assert_eq!(ctx["merkle_levels_s0"].as_u64(), Some(3));
    // last-level inputs: arity^llv = 16, flat single elements
    assert_eq!(ctx["s0_last_mt_size"].as_u64(), Some(16));
    assert_eq!(ctx["last_level_verification_gt0"].as_bool(), Some(true));
    assert_eq!(ctx["fri_steps_info"][1]["last_mt_size"].as_u64(), Some(16));
    // root checks: s0 trees height 1<<10, fri step 1 height 1<<6
    assert_eq!(ctx["step0_bits_size"].as_u64(), Some(1024));
    assert_eq!(ctx["fri_steps_info"][1]["mt_size"].as_u64(), Some(64));
    let out = outlined(&llv_stark_info(), &NO_OPTIONS);
    assert!(out.contains("s0_siblingsC[3][4]"), "out:\n{out}");
    assert!(out.contains("s0_last_levelsC[16]"), "out:\n{out}");
    assert!(out.contains("s0_last_levels1[16]"), "out:\n{out}");
    assert!(out.contains("s1_last_levels[16]"), "out:\n{out}");
    assert!(out.contains("VerifyMerkleHashUntilLevel("), "out:\n{out}");
    assert!(out.contains("VerifyMerkleRoot(2, 4, 1024)"), "out:\n{out}");
    assert!(out.contains("VerifyMerkleRoot(2, 4, 64)"), "out:\n{out}");
}

#[test]
fn header_non_custom() {
    let out = outlined(&minimal_stark_info(2, 10, 8), &NO_OPTIONS);
    assert!(out.contains("include \"poseidon.circom\";"), "out:\n{out}");
    assert!(!out.contains("custom/"), "no custom includes:\n{out}");
    assert!(out.contains("include \"merklehash.circom\";"), "out:\n{out}");
}

#[test]
fn header_custom() {
    let mut si = minimal_stark_info(2, 10, 8);
    si.merkle_tree_custom = Some(true);
    let out = outlined(&si, &NO_OPTIONS);
    assert!(out.contains("include \"custom/poseidon.circom\";"), "out:\n{out}");
    assert!(out.contains("include \"custom/merklehash.circom\";"), "out:\n{out}");
}

#[test]
fn header_skip_main_omits_sha256() {
    let opts = Pil2CircomOptions { skip_main: true, ..NO_OPTIONS };
    let out = outlined(&minimal_stark_info(2, 10, 8), &opts);
    assert!(!out.contains("sha256"), "sha256 should be absent:\n{out}");
    assert!(!out.contains("bitify.circom"), "bitify should be absent:\n{out}");
}

#[test]
fn header_not_skip_main_includes_sha256() {
    let out = outlined(&minimal_stark_info(2, 10, 8), &NO_OPTIONS);
    assert!(out.contains("sha256/sha256.circom"), "out:\n{out}");
}

#[test]
fn component_main_emits_main_wrapper() {
    let out = outlined(&minimal_stark_info(2, 10, 8), &NO_OPTIONS);
    assert!(out.contains("component main = Main();"), "out:\n{out}");
}

#[test]
fn llv_zero_output_has_no_last_levels() {
    let mut si = llv_stark_info();
    si.last_level_verification = Some(0);
    let ctx = context(&si);
    assert_eq!(ctx["last_level_verification_gt0"].as_bool(), Some(false));
    assert_eq!(ctx["s0_last_mt_size"].as_u64(), Some(0));
    let out = outlined(&si, &NO_OPTIONS);
    assert!(!out.contains("last_levels"), "out:\n{out}");
    assert!(!out.contains("UntilLevel"), "out:\n{out}");
    // full sibling depth restored
    assert_eq!(ctx["merkle_levels_s0"].as_u64(), Some(5));
    assert!(out.contains("s0_siblingsC[5][4]"), "out:\n{out}");
}

#[test]
fn llv_with_custom_bails() {
    let mut si = llv_stark_info();
    si.merkle_tree_custom = Some(true);
    let result = gen_stark_verifier_bn128(
        "",
        &None,
        &si,
        &NO_OPTIONS,
        &no_fragments(),
        &field_table(),
    );
    assert!(result.is_err());
    assert!(result.err().unwrap().message().contains("lastLevelVerification"));
}

#[test]
fn wrong_hash_type_returns_error() {
    let mut si = minimal_stark_info(2, 10, 8);
    si.hash_type = Some("GL".to_string());
    let result = gen_stark_verifier_bn128(
        "",
        &None,
        &si,
        &NO_OPTIONS,
        &no_fragments(),
        &field_table(),
    );
    assert!(result.is_err());
    assert!(result.err().unwrap().message().contains("GL"));
    si.hash_type = None;
    let result =
        gen_stark_verifier_bn128("", &None, &si, &NO_OPTIONS, &no_fragments(), &field_table());
    assert!(matches!(result, Err(Bn128Error::WrongHash { hash_type }) if hash_type == "GL"));
}

#[test]
fn a_broken_template_is_reported() {
    let si = minimal_stark_info(2, 10, 8);
    let result = gen_stark_verifier_bn128(
        "{{ n_stages",
        &None,
        &si,
        &NO_OPTIONS,
        &no_fragments(),
        &field_table(),
    );
    assert!(matches!(result, Err(Bn128Error::Template)));
}

#[test]
fn the_context_follows_the_description() {
    let mut si = minimal_stark_info(2, 10, 8);
    si.steps = vec![Some(17), Some(12), Some(8)];
    si.n_publics = Some(3);
    si.n_air_group_values = 1;
    si.challenge_stages = vec![Some(2), Some(2), Some(3)];
    si.sections = vec![
        Section { name: "cm1".to_string(), width: 5 },
        Section { name: "cm3".to_string(), width: 2 },
        Section { name: "rom0".to_string(), width: 9 },
    ];
    si.cm_pols = vec![
        Pol { stage: Some(1), stage_id: Some(0), dim: Some(1), stage_pos: Some(4) },
        Pol { stage: Some(3), stage_id: Some(0), dim: None, stage_pos: None },
    ];
    si.ev_map = vec![
        Evaluation { kind: Some("const".to_string()), id: Some(1) },
        Evaluation { kind: Some("cm".to_string()), id: Some(1) },
    ];
    si.custom_commits = vec![CustomCommit {
        name: Some("rom".to_string()),
        stage_widths: 1,
        public_values: vec![Some(2), None],
        pols: vec![Pol { stage: Some(0), stage_id: Some(6), dim: Some(3), stage_pos: Some(1) }],
    }];
    si.opening_points = vec![Some(-1), Some(0), Some(1)];
    si.boundaries = vec![
        RowBoundary { name: Some("lastRow".to_string()), offset_min: None, offset_max: None },
        RowBoundary {
            name: Some("everyFrame".to_string()),
            offset_min: Some(2),
            offset_max: Some(1),
        },
    ];
    let ctx = context(&si);
    assert_eq!(ctx["n_bits_arity"].as_u64(), Some(4));
    assert_eq!(ctx["n_fields"].as_u64(), Some(1)); // ceil(10 * 17 / 253)
    assert_eq!(ctx["sha256_bits"].as_u64(), Some(160 + 64 * 3));
    assert_eq!(ctx["max_deg_bits"].as_u64(), Some(7));
    assert_eq!(ctx["q_pol_ev_id"].as_u64(), Some(1));
    assert_eq!(ctx["has_last_row"].as_bool(), Some(true));
    assert_eq!(ctx["has_first_row"].as_bool(), Some(false));
    let w = field_table().roots[16];
    let last: u64 = ctx["zlast_root"].as_str().unwrap().parse().unwrap();
    assert_eq!(mulp(last, w), 1, "the last row is one step before the first");
    assert_eq!(
        ctx["query_vals_gl_joined"].as_str(),
        Some("s0_vals1GL, s0_vals3GL, s0_valsCGL, s0_vals_rom_0GL")
    );
    assert_eq!(
        ctx["challenge_names_joined"].as_str(),
        Some("challengesStage2GL,challengeQGL,challengeXiGL,challengesFRIGL")
    );
    assert_eq!(
        ctx["verify_evals_inputs_joined"].as_str(),
        Some(
            "challengesStage2GL, challengeQGL, challengeXiGL, evalsGL, publicsGL, airgroupValuesGL, enabled"
        )
    );
    assert_eq!(ctx["si_roots_joined"].as_str(), Some("s1_root,s2_root"));
    let inputs: Vec<&str> =
        ctx["transcript_call_inputs"].as_array().unwrap().iter().map(|v| v.as_str().unwrap()).collect();
    assert_eq!(inputs, vec!["publicsGL", "rootC", "root1", "root2"]);
    assert_eq!(ctx["challenges_per_stage"][0]["count"].as_u64(), Some(2));
    assert_eq!(ctx["challenges_per_stage"].as_array().unwrap().len(), 1);
    assert_eq!(ctx["stages_info"][1]["has_cm"].as_bool(), Some(false));
    assert_eq!(ctx["cm_pols_by_stage"][2]["pols"][0]["dim"].as_u64(), Some(1));
    assert_eq!(ctx["custom_commits"][0]["section_len_0"].as_u64(), Some(9));
    assert_eq!(ctx["custom_commits"][0]["public_values"][1].as_u64(), Some(0));
    assert_eq!(ctx["custom_commits"][0]["pols_per_stage"][0]["pols"][0]["stage_id"].as_u64(), Some(6));
    assert_eq!(ctx["opening_points"][0]["opening"].as_i64(), Some(-1));
    assert_eq!(ctx["opening_points"][0]["is_positive"].as_bool(), Some(false));
    let step = &ctx["fri_steps_info"][1];
    assert_eq!(step["exponent"].as_u64(), Some(32));
    assert_eq!(step["next_bits"].as_u64(), Some(8));
    assert_eq!(step["next_pol"].as_str(), Some("s2_vals_p"));
    let e0: u64 = step["e0"].as_str().unwrap().parse().unwrap();
    assert_eq!(mulp(e0, 7), 1, "the domain before is the whole coset");
    let e1: u64 = step["e1"].as_str().unwrap().parse().unwrap();
    assert_eq!(mulp(e1, mulp(7, field_table().roots[17])), 1);
    assert_eq!(ctx["fri_steps_info"][0]["e0"].as_str(), Some("0"));
    let frame = &ctx["every_frames"][0];
    assert_eq!(frame["size"].as_u64(), Some(3));
    assert_eq!(frame["ops"][0]["root"].as_str(), Some("1"));
    assert_eq!(frame["ops"][1]["root"].as_str().unwrap(), w.to_string());
    assert_eq!(frame["ops"][2]["root"].as_str(), ctx["zlast_root"].as_str());
}

#[test]
fn transcripts_take_roots_before_challenges() {
    let mut si = minimal_stark_info(1, 10, 8);
    si.challenge_stages = vec![Some(1)];
    si.hash_commits = Some(true);
    si.n_publics = Some(2);
    si.pow_bits = Some(4);
    si.steps = vec![Some(8), Some(1)];
    let z = sizes(&si);
    let t = transcripts(&si, &z);
    let names: Vec<String> = t
        .main
        .iter()
        .map(|s| match s {
            TranscriptStep::Put { name, n } => format!("+{name}*{n}"),
            TranscriptStep::PutSingle { name } => format!("+{name}"),
            TranscriptStep::GetField { name } => format!("-{name}"),
            TranscriptStep::GetFieldHash { name } => format!("={name}"),
            TranscriptStep::GetPermutations { name, n, bits, fields } => {
                format!("-{name}*{n}/{bits}/{fields}")
            }
        })
        .collect();
    assert_eq!(names, vec![
        "+rootC",
        "+publicsHash",
        "-challengesStage1[0]",
        "+root1",
        "-challengeQ",
        "+root2",
        "-challengeXi",
        "+evalsHash",
        "-challengesFRI[0]",
        "-challengesFRI[1]",
        "-challengesFRISteps[0]",
        "+s1_root",
        "-challengesFRISteps[1]",
        "+lastPolFRIHash",
        "-challengeFRIQueries",
    ]);
    assert_eq!(t.queries.len(), 3);
    assert_eq!(t.publics.len(), 2);
    assert_eq!(t.last_pol.len(), 3);
}

fn files() -> Vec<String> {
    vec!["v.circom".to_string()]
}

fn stark() -> StarkSignals {
    StarkSignals { define: "DEF".to_string(), assign: "ASG \"q\"".to_string() }
}

#[test]
fn templates_are_filled() {
    let t = "{% for f in verifier_filenames %}{{ f }}{% endfor %}|{{ stark_signals }}|{{ stark_assign }}|";
    let with = |rest: &str| format!("{t}{rest}");
    assert_eq!(
        gen_recursivef(&with("{{ has_publics }}"), &files(), &stark(), 2).unwrap(),
        "v.circom|DEF|ASG \"q\"|true"
    );
    assert_eq!(
        gen_recursion_final(
            &with("{{ sha256_template }}{{ n_publics_proof }}"),
            &files(),
            &stark(),
            &Some("SHA".to_string()),
            9
        )
        .unwrap(),
        "v.circom|DEF|ASG \"q\"|SHA4"
    );
    assert_eq!(
        gen_final_compressed(
            &with("{{ has_publics }} {{ n_publics }} {{ n_publics_real }}"),
            &files(),
            &stark(),
            4,
            true
        )
        .unwrap(),
        "v.circom|DEF|ASG \"q\"|false 4 3"
    );
    assert_eq!(gen_recursivef("{{ missing }}", &files(), &stark(), 2), None);
    assert!(is_plain("{{ a }}") && !is_plain("{{ now() }}") && !is_plain("{{ get_env(name=a) }}"));
    assert!(is_plain("// known by now: {{ a }}") && !is_plain("{{ now (utc=true) }}"));
    assert!(!is_plain("{% macro m() %}{% endmacro %}") && !is_plain("{{ __tera_context }}"));
    assert!(!is_plain("{% for i in range(end=2, step_by=0) %}x{% endfor %}"));
    assert!(is_plain("{% for i in range(end=n) %}x{% endfor %}") && is_plain("{{ a | length }}"));
    let mut o = JsonObject::new();
    o.add_text("a", "\u{1}\\\"é\n");
    o.add_numbers("n", &vec![1, 2]);
    assert_eq!(render("{{ a }}{{ n }}", &o).unwrap(), "\u{1}\\\"é\n[1, 2]");
}

#[test]
fn contracts_know_their_key() {
    assert_eq!(capitalise("zisk"), "Zisk");
    assert_eq!(capitalise("ßx"), "SSx");
    assert_eq!(capitalise(""), "");
    let defs = Some(vec![None, Some(true)]);
    assert_eq!(program_key(&defs), (true, false));
    assert_eq!(program_key(&Some(vec![Some(true), None])), (true, true));
    assert_eq!(program_key(&Some(vec![None, Some(true), None])), (false, false));
    assert_eq!(program_key(&None), (false, false));
    let sol = gen_solidity(
        "{{ name }} {{ snark }} {{ root_c_3 }} {{ has_program_vk }} {{ first_is_vk }} {{ proof_decode }}",
        "zisk",
        &[1, 2, 3, 4],
        &defs,
        true,
    )
    .unwrap();
    assert_eq!(
        sol,
        "Zisk Fflonk 4 true false bytes32[24] memory proofDecoded = abi.decode(proofBytes, (bytes32[24]));"
    );
    assert_eq!(gen_iverifier("I{{ name }} {{ has_program_vk }}", "zisk", &None).unwrap(), "IZisk false");
    assert_eq!(parse_num_proof_values(&ProofValues::Stages(vec![Some(2), None, Some(3)])), 5);
    assert_eq!(parse_num_proof_values(&ProofValues::Total(Some(4))), 4);
    assert_eq!(parse_num_proof_values(&ProofValues::Total(None)), 0);
}

fn proof_signals() -> ProofSignals {
    ProofSignals {
        define: "PDEF".to_string(),
        set: "PSET".to_string(),
        hashes: "HASH".to_string(),
        names: vec!["sv_a".to_string()],
        n_publics: 1,
        n_values: 0,
    }
}

#[test]
fn recursive_circuits_name_their_publics() {
    let t = "{{ pub_names }}|{{ calculate_hashes }}|{{ has_proof_values }}";
    assert_eq!(
        gen_compressor(t, &files(), &stark(), &proof_signals()).unwrap(),
        "publics, globalChallenge|HASH|false"
    );
    assert_eq!(
        gen_recursive1(t, &files(), &stark(), &proof_signals(), false).unwrap(),
        "publics, globalChallenge, rootCAgg|HASH|false"
    );
    assert_eq!(
        gen_recursive1(t, &files(), &stark(), &proof_signals(), true).unwrap(),
        "sv_a, publics, globalChallenge, rootCAgg||false"
    );
}

fn branch(x: &str) -> BranchSignals {
    BranchSignals {
        proof_define: format!("pd{x};"),
        stark_define: format!("sd{x};"),
        stark_assign: format!("sa{x};"),
        proof_assign: format!("pa{x};"),
    }
}

#[test]
fn aggregations_select_their_keys() {
    let key = |x: &str| -> Vec<String> { (0..4).map(|i| format!("{x}{i}")).collect() };
    let z = AggregationSizes {
        n_publics_raw: 10,
        n_publics: 0,
        n_values: 2,
        n_agg_types: 2,
        n_airgroups: 1,
        n_airs_first: 2,
        n_airs: 2,
    };
    let s = AggregationSignals {
        define: "D".to_string(),
        a: branch("A"),
        b: branch("B"),
        c: branch("C"),
        combine: "X".to_string(),
    };
    let t = "{{ rootc_basics }}\n{{ agg_types_consistency }}\n{{ sel_fn }} {{ n_publics_minus_4 }} {{ pub_names }} {{ vadcop_assign_b }} {{ airs_in_group }}";
    let out = gen_recursive2(t, &files(), &vec![key("k"), key("l")], &z, &s).unwrap();
    assert!(out.starts_with("    rootCBasics[0] = [k0,k1,k2,k3];\n    rootCBasics[1] = [l0,l1,l2,l3];\n"));
    assert!(out.contains("    signal aggregationTypes[2];\n    for(var i = 0; i < 2; i++) {\n"));
    assert!(out.ends_with("SelectVerificationKeyNull 6 proofValues, globalChallenge, rootCAgg paB; 2"));

    let w = WholeSignals {
        challenge: "CH".to_string(),
        constraints: "CO".to_string(),
        n_publics: 1,
        n_values: 0,
        named_values: true,
        n_airgroups: 1,
        n_airs_first: 1,
    };
    let b = vec![FinalBranch {
        signals: branch("0"),
        agg_key: key("g"),
        basic_keys: vec![key("h")],
        n_airs: 1,
        n_publics_raw: 7,
        n_agg_types: 1,
    }];
    let t = "{{ has_proof_values }} {{ n_airgroups }} {{ stage1hash_indices }} {{ airgroupvalues_names }}\n{% for s in define_sections %}{{ s }}{% endfor %}\n{% for s in assign_sections %}{{ s }}{% endfor %}";
    let out = gen_vadcop_final(t, &files(), &w, &b).unwrap();
    assert_eq!(
        out,
        "true 1 [0] [s0_sv_airgroupvalues]\npd0;sd0;\nsa0;pa0;    var s0_sv_rootCAgg[4] = [g0,g1,g2,g3];\n    var s0_sv_rootCBasics[1][4];\n\n    s0_sv_rootCBasics[0] = [h0,h1,h2,h3];\n    sV0.rootC <== SelectVerificationKey(1)(s0_sv_circuitType, s0_sv_rootCBasics, s0_sv_rootCAgg);\n    for (var i=0; i<4; i++) {\n        sV0.publics[3 + i] <== s0_sv_rootCAgg[i];\n    }\n"
    );
    assert_eq!(description_of(1, 2, 2), Some(1));
    assert_eq!(description_of(1, 1, 2), Some(0));
    assert_eq!(description_of(5, 2, 2), Some(0));
    assert_eq!(description_of(0, 2, 0), None);
}

#[test]
fn templates_hold_values_conditions_and_loops() {
    assert!(is_plain("{%- if a.b and not c or n >= 2 -%}x{% elif d %}y{% else %}z{% endif %}"));
    assert!(is_plain("{# any {{ thing }} #}{% for x in a.b %}{{ x }}{{ loop.last }}{% endfor %}"));
    assert!(is_plain("{{ a.n + 1 - b * 2 }}{% if n - 1 > m * 2 and c %}x{% endif %}"));
    assert!(is_plain("{% for i in range(start=1, end=a.n) %}{{ i - 1 }}{% endfor %}"));
    assert!(is_plain("{{ a.b | first | upper }}{% if a | length > 2 and h == \"BN128\" %}x{% endif %}"));
    // Other filters, divisions, calls, literals and unfinished tags are not filled.
    for t in [
        "{{ 9000000000000000000 | date }}",
        "{{ n | abs }}",
        "{{ n / 2 }}",
        "{{ n % 2 }}",
        "{{ n + }}",
        "{{ n + 1 2 }}",
        "{{ a | length | abs }}",
        "{{ a | first + 1 }}",
        "{% if a | first + 1 %}{% endif %}",
        "{% if h == \"B N\" %}{% endif %}",
        "{% if h == \"\\u0041\" %}{% endif %}",
        "{% if n + %}{% endif %}",
        "{% for i in range(end=1000000) %}{% endfor %}",
        "{% for i in range(end=n, start=0) %}{% endfor %}",
        "{% for i in range(end=2) %}{% for c in i %}{% endfor %}{% endfor %}",
        "{% for x in a %}{{ x + 1 }}{% endfor %}",
        "{{ 1.5 }}",
        "{{ a",
        "{{ a b }}",
        "{% set x = a %}",
        "{% if a is string %}{% endif %}",
        "{% if %}{% endif %}",
        "{% if a == %}{% endif %}",
        "{% for k, v in a %}{% endfor %}",
        "{% for c in \"text\" %}{% endfor %}",
        "{% for x in a %}{% for c in x %}{% endfor %}{% endfor %}",
    ] {
        assert!(!is_plain(t), "{t}");
    }
    let deep = |n: usize| "{% if a %}".repeat(n) + &"{% endif %}".repeat(n);
    assert!(is_plain(&deep(64)) && !is_plain(&deep(65)));
}

#[test]
fn values_have_what_templates_ask_for() {
    let template = "{% for x in a %}<{{ x }}>{% endfor %}{% for y in o.b %}{{ y.c }}{% endfor %}";
    assert!(is_plain(template));
    assert!(can_fill(template, r#"{"a":["s"],"o":{"b":[{"c":"t"}]}}"#));
    // Loops run over strings of single characters.
    assert!(can_fill(template, r#"{"a":[],"o":{"b" : "s\"\\t"}}"#));
    assert!(!can_fill(template, r#"{"a":"\r\n","o":{"b":[]}}"#));
    assert!(!can_fill(template, r#"{"a":[],"o":{"b" : "e\u000d"}}"#));
    assert!(!can_fill(template, "{\"a\":[],\"o\":{\"b\" : \"é\"}}"));
    // A name that is not written out could be any.
    assert!(!can_fill(template, r#"{"\u0061":"s"}"#));
    assert!(can_fill(template, r#"{"x":"\u000d\u000a \\u0061"}"#));
    assert!(!can_fill("{{ n / 2 }}", "{}"));
    let one = "{% for x in a %}<{{ x }}>{% endfor %}";
    let mut o = JsonObject::new();
    o.add_text("a", "s\\\n");
    assert!(can_fill(one, &o.to_json()));
    assert_eq!(render(one, &o).unwrap(), "<s><\\><\n>");
    let mut o = JsonObject::new();
    o.add_numbers("a", &vec![1, 2]);
    assert!(can_fill(one, &o.to_json()));
    assert_eq!(render(one, &o).unwrap(), "<1><2>");
}

#[test]
fn templates_compute_with_small_numbers() {
    let sums = "{{ n * 2 - 1 }}{% if m.k + 1 > n %}x{% endif %}";
    assert!(can_fill(sums, r#"{"n":999999999999999999,"m":{"k": -7}}"#));
    assert!(!can_fill(sums, r#"{"n":1000000000000000000,"m":{"k":7}}"#));
    assert!(!can_fill(sums, r#"{"n":1,"m":{"k":7e300}}"#));
    assert!(!can_fill(sums, r#"{"n":1.5,"m":{"k":7}}"#));
    let counts = "{% for i in range(end=n) %}{{ i + 1 }},{% endfor %}{{ a | length }}";
    assert!(!can_fill(counts, r#"{"n":1000000}"#));
    let mut o = JsonObject::new();
    o.add_number("n", 3);
    o.add_numbers("a", &vec![5, 6]);
    assert!(can_fill(counts, &o.to_json()));
    assert_eq!(render(counts, &o).unwrap(), "1,2,3,2");
    let from = "{% for i in range(start=1, end=n) %}{{ i * n - 4 }} {% endfor %}";
    assert!(can_fill(from, &o.to_json()));
    assert_eq!(render(from, &o).unwrap(), "-1 2 ");
    let mut o = JsonObject::new();
    o.add_text("h", "BN128");
    o.add_numbers("a", &vec![5, 6]);
    let chosen = "{% if h == \"BN128\" and a | length >= 2 %}{{ a | last }} {{ h | lower | reverse }}{% endif %}";
    assert!(can_fill(chosen, &o.to_json()));
    assert_eq!(render(chosen, &o).unwrap(), "6 821nb");
    let mut o = JsonObject::new();
    o.add_number("n", 3);
    // A sum that leaves the machine's numbers is no text.
    assert_eq!(render("{{ n * 999999999999999999 * 999999999999999999 }}", &o), None);
}

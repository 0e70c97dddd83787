use proofman::setup::airs::{
    air_files, air_label, airgroup_label, airs_to_run, check_aggregable, check_described,
    check_sizes, collect_airs, job_count, order_by_index, shares_description, AirError, AirResult,
};
use proofman::setup::config_file::{enable_compressor, with_compressor};
use proofman::setup::documents::{
    airgroup_names, global_hash, global_name, key_of, parse_group_keys, text_in,
};
use proofman::setup::keys::{
    aggregated_root, json_val_to_str, key_strings, parse_const_root, parse_final_root,
    parse_verkey_json, root_texts, written_limb, KeyError, KeyFile, Limb, WrittenLimb,
};
use proofman::setup::plan::{after_conversion, first_steps, AfterConversion, Job, Step};
use proofman::setup::recursive::{
    airgroup_pil_name, circuit_root, get_global_name, honored_queries,
    recursive_plonk_options, recursive_settings, recursive_setup_type, resolve_names_and_paths,
    size_decision, NeedsCompressorError, RecursiveSetupConfig, RecursiveTemplate,
    RecursiveTooSmallError, SizeDecision,
};
use proofman::setup::resize::{
    after_attempt, first_attempt, raise_queries, Attempts, CompressorQueries, Next, Outcome,
    ResizeError, MAX_R1_ATTEMPTS,
};
use proofman::setup::search::{
    candidates, circom_binary, ensure_node_module_subpath, ensure_step, find_node_module_subpath,
    local_candidates, node_module, resolve_circom_exec, resolve_path_env, resolve_pil2com_exec,
    resolve_snarkjs_root, Bootstrap, Probe,
};
use proofman::setup::snark::{
    absolutize, check_powers_of_tau, check_zkey, circuit_power, contract_files,
    export_solidity_script, export_vk_script, is_fflonk, SnarkError,
};
use proofman::setup::stage::{
    air_bits, circom_bn128_args, circom_goldilocks_args, compile_pil, stage_files,
};
use proofman::setup::stages::{
    aggregate_files, aggregate_name, aggregate_verifier, check_aggregate, check_compressed_inputs,
    compressed_inputs, test_setup, InputsFound, SetupCompressedFinalOptions, Stage, StageError,
};
use proofman::setup::stark_struct::{
    check_settings, generate_stark_struct, AirSettings, ConfigEntry, StarkSettings,
    StarkStructsConfig,
};

const MERKLE_TREE_ARITY: usize = 4;

#[test]
fn test_generate_stark_struct_defaults() {
    let settings = StarkSettings::default();
    let ss = generate_stark_struct(&settings, 20, MERKLE_TREE_ARITY);

    assert_eq!(ss.n_bits, 20);
    assert_eq!(ss.n_bits_ext, 21); // 20 + 1 (default blowup)
    assert_eq!(ss.verification_hash_type, "GL");
    assert_eq!(ss.merkle_tree_arity, MERKLE_TREE_ARITY);
    assert_eq!(ss.transcript_arity, MERKLE_TREE_ARITY);
    assert!(ss.merkle_tree_custom);
    assert!(ss.hash_commits);
    assert_eq!(ss.pow_bits, 20);
    assert_eq!(ss.last_level_verification, 2);

    // First step should be nBitsExt
    assert_eq!(ss.steps[0].n_bits, 21);
    // Last step should reach finalDegree (6): nBitsExt=21 -> 18 -> 15 -> 12 -> 9 -> 6
    assert_eq!(ss.steps.last().unwrap().n_bits, 6);
}

#[test]
fn test_generate_stark_struct_bn128() {
    let settings = StarkSettings {
        verification_hash_type: Some("BN128".to_string()),
        blowup_factor: Some(2),
        folding_factor: Some(4),
        final_degree: Some(3),
        ..Default::default()
    };
    let ss = generate_stark_struct(&settings, 16, MERKLE_TREE_ARITY);

    assert_eq!(ss.n_bits, 16);
    assert_eq!(ss.n_bits_ext, 18);
    assert_eq!(ss.verification_hash_type, "BN128");
    assert_eq!(ss.merkle_tree_arity, 16);
    assert_eq!(ss.transcript_arity, 16);
    assert!(!ss.merkle_tree_custom);
    assert!(!ss.hash_commits);
    assert_eq!(ss.pow_bits, 0);
    assert_eq!(ss.last_level_verification, 0);
    assert_eq!(ss.steps[0].n_bits, 18);
}

#[test]
fn test_steps_converge_to_final_degree() {
    let settings = StarkSettings {
        blowup_factor: Some(2),
        folding_factor: Some(3),
        final_degree: Some(5),
        ..Default::default()
    };
    let ss = generate_stark_struct(&settings, 20, MERKLE_TREE_ARITY);

    // nBitsExt = 22, folding by 3 each step: 22, 19, 16, 13, 10, 7, 5
    assert_eq!(ss.steps[0].n_bits, 22);
    let last_step = ss.steps.last().unwrap().n_bits;
    assert!(
        last_step <= settings.final_degree.unwrap() + 1,
        "Last step {} should be <= finalDegree + 1 = {}",
        last_step,
        settings.final_degree.unwrap() + 1
    );
}

#[test]
fn unknown_hash_types_are_refused() {
    let settings = StarkSettings {
        verification_hash_type: Some("INVALID".to_string()),
        ..Default::default()
    };
    assert!(!check_settings(&settings, 10));
    assert!(check_settings(&StarkSettings::default(), 10));
}

/// Settings from a JSON object.
fn settings_of(v: &serde_json::Value) -> StarkSettings {
    let num = |k: &str| v.get(k).and_then(|x| x.as_u64()).map(|x| x as usize);
    let flag = |k: &str| v.get(k).and_then(|x| x.as_bool());
    StarkSettings {
        verification_hash_type: v
            .get("verificationHashType")
            .and_then(|x| x.as_str())
            .map(|s| s.to_string()),
        hash_commits: flag("hashCommits"),
        blowup_factor: num("blowupFactor"),
        folding_factor: num("foldingFactor"),
        final_degree: num("finalDegree"),
        merkle_tree_arity: num("merkleTreeArity"),
        merkle_tree_custom: flag("merkleTreeCustom"),
        last_level_verification: num("lastLevelVerification"),
        pow_bits: num("powBits"),
        has_compressor: flag("hasCompressor"),
    }
}

/// A configuration from JSON: objects of objects are nested, others flat.
fn from_json_str(text: &str) -> StarkStructsConfig {
    let doc: serde_json::Value = serde_json::from_str(text).unwrap();
    let mut cfg = StarkStructsConfig::new();
    for (name, value) in doc.as_object().unwrap() {
        let fields = value.as_object().unwrap();
        if fields.values().all(|v| v.is_object()) {
            let mut airs = AirSettings::new();
            for (air, v) in fields {
                airs.insert(air.clone(), settings_of(v));
            }
            cfg.insert(name.clone(), ConfigEntry::Nested(airs));
        } else {
            cfg.insert(name.clone(), ConfigEntry::Flat(settings_of(value)));
        }
    }
    cfg
}

#[test]
fn test_flat_config_resolution() {
    // Flat schema: top-level keys are air names.
    let json_str = r#"{
            "Keccakf": { "powBits": 23, "lastLevelVerification": 1, "hasCompressor": true },
            "Sha256f": { "hasCompressor": true },
            "SomeAir": { "blowupFactor": 2 }
        }"#;
    let cfg = from_json_str(json_str);

    // Flat lookup honors all settings regardless of the airgroup name.
    let keccak = cfg.resolve("AnyGroup", "Keccakf");
    assert_eq!(keccak.pow_bits, Some(23));
    assert_eq!(keccak.last_level_verification, Some(1));
    assert_eq!(keccak.has_compressor, Some(true));

    let some = cfg.resolve("AnyGroup", "SomeAir");
    assert_eq!(some.blowup_factor, Some(2));

    assert!(cfg.has_compressor("AnyGroup", "Keccakf"));
    assert!(cfg.has_compressor("AnyGroup", "Sha256f"));
    assert!(!cfg.has_compressor("AnyGroup", "SomeAir"));
}

#[test]
fn test_nested_config_resolution() {
    // Nested schema: top-level keys are airgroup names, second level are air names.
    let json_str = r#"{
            "Zisk": {
                "Poseidon2": { "blowupFactor": 2 },
                "Keccakf": { "powBits": 23, "hasCompressor": true }
            }
        }"#;
    let cfg = from_json_str(json_str);

    // Resolves only under the matching airgroup.
    let pos = cfg.resolve("Zisk", "Poseidon2");
    assert_eq!(pos.blowup_factor, Some(2));
    assert_eq!(generate_stark_struct(&pos, 20, MERKLE_TREE_ARITY).n_bits_ext, 22); // 20 + 2

    let kec = cfg.resolve("Zisk", "Keccakf");
    assert_eq!(kec.pow_bits, Some(23));
    assert!(cfg.has_compressor("Zisk", "Keccakf"));

    // Wrong airgroup -> no match -> defaults (powBits filled to 16, blowup 1).
    let miss = cfg.resolve("OtherGroup", "Poseidon2");
    assert_eq!(miss.blowup_factor, None);
    assert_eq!(miss.pow_bits, Some(16));
    assert_eq!(generate_stark_struct(&miss, 20, MERKLE_TREE_ARITY).n_bits_ext, 21); // 20 + 1
}

#[test]
fn test_default_key_fallback() {
    let cfg = from_json_str(r#"{ "default": { "blowupFactor": 3 } }"#);
    // Any unlisted air falls back to "default".
    assert_eq!(cfg.resolve("G", "Anything").blowup_factor, Some(3));
}

#[test]
fn test_empty_object_is_harmless() {
    // An air whose settings object is empty must not panic and must resolve to defaults.
    let cfg = from_json_str(r#"{ "EmptyAir": {} }"#);
    let s = cfg.resolve("G", "EmptyAir");
    assert_eq!(s.blowup_factor, None);
    assert_eq!(s.pow_bits, Some(16)); // historical default fill
    assert!(!cfg.has_compressor("G", "EmptyAir"));
}

#[test]
fn test_set_has_compressor_runtime() {
    let mut cfg = from_json_str(r#"{ "Foo": { "blowupFactor": 2 } }"#);
    cfg.set_has_compressor("Foo");
    assert!(cfg.has_compressor("G", "Foo"));
    // Existing settings on the flat entry are preserved.
    assert_eq!(cfg.resolve("G", "Foo").blowup_factor, Some(2));

    cfg.set_has_compressor("Bar"); // new air not previously in config
    assert!(cfg.has_compressor("G", "Bar"));
}

#[test]
fn test_parse_verkey_json_valid() {
    assert_eq!(parse_verkey_json("[1,2,3,4]").ok().unwrap(), ["1", "2", "3", "4"]);
}

#[test]
fn test_parse_verkey_json_rejects_5_entries() {
    assert!(parse_verkey_json("[1,2,3,4,5]").is_err());
    assert!(matches!(parse_verkey_json("[1,2,3,4,5]"), Err(KeyError::WrongLength { n: 5 })));
}

#[test]
fn test_parse_verkey_json_rejects_short_array() {
    assert!(parse_verkey_json("[1,2]").is_err());
}

#[test]
fn test_parse_verkey_json_rejects_non_numeric() {
    assert!(parse_verkey_json(r#"[1, "bad", 3, 4]"#).is_err());
    assert!(matches!(
        parse_verkey_json(r#"[1, "bad", 3, 4]"#),
        Err(KeyError::NotWord { i: 1 })
    ));
}

#[test]
fn test_parse_verkey_json_rejects_non_array() {
    assert!(parse_verkey_json(r#"{"a":1}"#).is_err());
    assert!(matches!(parse_verkey_json("nonsense"), Err(KeyError::NotJson)));
    assert_eq!(
        parse_verkey_json(r#"{"a":1}"#).err().unwrap().message(),
        "verkey.json is not an array"
    );
}

#[test]
fn const_roots_are_numbers_or_decimal_strings() {
    assert_eq!(parse_const_root(r#"[1,"2",3,"18446744073709551615",9]"#).ok().unwrap(), [
        1,
        2,
        3,
        u64::MAX
    ]);
    assert!(matches!(parse_const_root("[1,2,3]"), Err(KeyError::WrongLength { n: 3 })));
    assert!(matches!(
        parse_const_root(r#"[1,2,"18446744073709551616",4]"#),
        Err(KeyError::NotWord { i: 2 })
    ));
    assert!(matches!(parse_const_root("\"1\""), Err(KeyError::NotList)));
}

#[test]
fn final_roots_are_four_limbs_or_one_scalar() {
    assert_eq!(parse_final_root(r#"[1,"x",-3,4.5]"#).ok().unwrap(), ["1", "x", "-3", "4.5"]);
    assert_eq!(parse_final_root(r#""12345""#).ok().unwrap(), ["12345", "0", "0", "0"]);
    assert!(matches!(parse_final_root("[1]"), Err(KeyError::WrongLength { n: 1 })));
    assert!(matches!(parse_final_root("true"), Err(KeyError::NotList)));
}

#[test]
fn keys_are_written_as_numbers_where_they_are() {
    assert!(matches!(written_limb("42"), WrittenLimb::Number(42)));
    assert!(matches!(written_limb("x42"), WrittenLimb::Text(t) if t == "x42"));
    assert_eq!(root_texts(&[1, 20, 300, u64::MAX]), [
        "1",
        "20",
        "300",
        "18446744073709551615"
    ]);
    let limb = |text: Option<&str>, number| Limb {
        text: text.map(|t| t.to_string()),
        number,
        json: String::new(),
    };
    assert_eq!(json_val_to_str(&limb(Some("7"), None)), "7");
    assert_eq!(json_val_to_str(&limb(None, Some(8))), "8");
    assert_eq!(json_val_to_str(&limb(None, None)), "0");
    let keys = key_strings(&vec![limb(None, Some(8)), limb(Some("9"), None)]);
    assert_eq!(keys, vec!["8", "9"]);
    assert_eq!(aggregated_root(&keys), ["0", "0", "0", "0"]);
    let four: Vec<String> = ["1", "2", "3", "4"].iter().map(|s| s.to_string()).collect();
    assert_eq!(aggregated_root(&four), ["1", "2", "3", "4"]);
}

#[test]
fn settings_files_remember_compressors() {
    let text = with_compressor(r#"{"A":{"powBits":3},"B":7}"#, "A").unwrap();
    let doc: serde_json::Value = serde_json::from_str(&text).unwrap();
    assert_eq!(doc["A"]["powBits"].as_u64(), Some(3));
    assert_eq!(doc["A"]["hasCompressor"].as_bool(), Some(true));
    assert_eq!(doc["B"].as_u64(), Some(7));
    let again = with_compressor(&text, "A").unwrap();
    assert_eq!(again, text);
    let text = with_compressor(r#"{"A":{"hasCompressor":false}}"#, "New").unwrap();
    let doc: serde_json::Value = serde_json::from_str(&text).unwrap();
    assert_eq!(doc["New"]["hasCompressor"].as_bool(), Some(true));
    assert_eq!(doc["A"]["hasCompressor"].as_bool(), Some(false));
    assert!(text.contains('\n'), "{text}");
    // Something that is no object stays as it is.
    let text = with_compressor(r#"{"B":7}"#, "B").unwrap();
    let doc: serde_json::Value = serde_json::from_str(&text).unwrap();
    assert_eq!(doc["B"].as_u64(), Some(7));
    assert_eq!(with_compressor("[1]", "A"), None);
    // Numbers are read once.
    let text = with_compressor(r#"{"B":{"x":95.828836075983867}}"#, "A").unwrap();
    assert!(text.contains("95.82883607598387"), "{text}");
    let mut map = serde_json::Map::new();
    map.insert("A".to_string(), serde_json::Value::Object(serde_json::Map::new()));
    enable_compressor(&mut map, "A");
    enable_compressor(&mut map, "B");
    let flag = serde_json::Value::Bool(true);
    assert_eq!(map["A"]["hasCompressor"], flag);
    assert_eq!(map["B"]["hasCompressor"], flag);
}

fn config(template: RecursiveTemplate, has_compressor: bool) -> RecursiveSetupConfig {
    RecursiveSetupConfig {
        build_dir: "build".to_string(),
        template,
        global_name: Some("zisk".to_string()),
        airgroup_name: "Zisk".to_string(),
        air_name: "Main".to_string(),
        has_compressor,
        hash: "Poseidon2".to_string(),
        n_airgroups: Some(1),
        n_airs_first: Some(2),
    }
}

#[test]
fn recursive_stages_have_their_names() {
    let c = config(RecursiveTemplate::Compressor, false);
    let n = resolve_names_and_paths(&c);
    assert_eq!(n.verifier_name, "Main.verifier.circom");
    assert_eq!(n.name_filename, "Main_compressor");
    assert_eq!(n.files_dir, "build/provingKey/zisk/Zisk/airs/Main/compressor");
    assert!(n.input_challenges && !n.verkey_input && !n.enable_input);
    assert_eq!(airgroup_pil_name(&c), "Zisk_Main_compressor");
    assert_eq!(recursive_plonk_options(&c).max_constraint_degree, Some(5));
    assert_eq!(recursive_setup_type(c.template), "compressor");

    let c = config(RecursiveTemplate::Recursive1, false);
    assert_eq!(resolve_names_and_paths(&c).verifier_name, "Main.verifier.circom");
    let c = config(RecursiveTemplate::Recursive1, true);
    let n = resolve_names_and_paths(&c);
    assert_eq!(n.verifier_name, "Main_compressor.verifier.circom");
    assert_eq!(n.files_dir, "build/provingKey/zisk/Zisk/airs/Main/recursive1");
    assert!(!n.input_challenges);

    let c = config(RecursiveTemplate::Recursive2, false);
    let n = resolve_names_and_paths(&c);
    assert_eq!(n.verifier_name, "Zisk_recursive2.verifier.circom");
    assert_eq!(n.name_filename, "Zisk_recursive2");
    assert_eq!(n.files_dir, "build/provingKey/zisk/Zisk/recursive2");
    assert!(n.verkey_input && n.enable_input);
    assert_eq!(airgroup_pil_name(&c), "Zisk_Main_recursive1");
    assert_eq!(recursive_plonk_options(&c).airgroup_name.as_deref(), Some("Recursive2"));
    assert_eq!(recursive_setup_type(c.template), "aggregation");
    assert_eq!(get_global_name(&None), "pilout");

    assert_eq!(RecursiveTemplate::Recursive1.as_str(), "recursive1");
    assert_eq!(RecursiveTemplate::Recursive1.tera_template(), "vadcop/recursive1.circom.tera");
    assert_eq!(
        RecursiveTemplate::Compressor.ejs_template(),
        "src/vadcop/templates/compressor.circom.ejs"
    );
    assert_eq!(recursive_settings(RecursiveTemplate::Compressor).blowup_factor, Some(2));
    assert_eq!(recursive_settings(RecursiveTemplate::Recursive2).blowup_factor, Some(3));
}

#[test]
fn circuits_are_sized_by_their_rows() {
    let r1 = RecursiveTemplate::Recursive1;
    assert_eq!(
        size_decision(r1, false, 18, 200_000, 50),
        SizeDecision::NeedsCompressor(NeedsCompressorError { n_bits: 18 })
    );
    assert_eq!(size_decision(r1, false, 17, 100_000, 50), SizeDecision::Keep);
    // 69632 * 50 / 40000 = 87.04
    assert_eq!(
        size_decision(r1, false, 16, 40_000, 50),
        SizeDecision::Adjust { n_queries: 88 }
    );
    assert_eq!(size_decision(r1, false, 16, 40_000, 0), SizeDecision::Keep);
    assert_eq!(
        size_decision(r1, true, 16, 40_000, 50),
        SizeDecision::TooSmall(RecursiveTooSmallError { n_bits: 16, n_used: 40_000 })
    );
    assert_eq!(size_decision(r1, true, 18, 40_000, 50), SizeDecision::Keep);
    assert_eq!(
        size_decision(RecursiveTemplate::Recursive2, false, 20, 0, 0),
        SizeDecision::Keep
    );
    assert_eq!(
        NeedsCompressorError { n_bits: 18 }.message(),
        "Recursive1 circuit exceeds 17-bit threshold (n_bits=18); a compressor is needed"
    );
    assert_eq!(
        RecursiveTooSmallError { n_bits: 16, n_used: 9 }.message(),
        "Recursive1 packs to 2^16 (n_used=9) below the shared recursive domain; compressor nQueries must grow"
    );
    assert_eq!(honored_queries(Some(80), 60), 80);
    assert_eq!(honored_queries(Some(40), 60), 60);
    assert_eq!(honored_queries(None, 60), 60);
    let empty = [String::new(), String::new(), String::new(), String::new()];
    assert_eq!(circuit_root(&empty), ["0", "0", "0", "0"]);
    let some = ["".to_string(), "5".to_string(), "".to_string(), "".to_string()];
    assert_eq!(circuit_root(&some), some);
}

fn too_small(n_used: usize, q: u64) -> Outcome {
    Outcome::TooSmall(
        RecursiveTooSmallError { n_bits: 16, n_used },
        CompressorQueries::Known(q),
    )
}

#[test]
fn a_compressor_is_resized_until_recursive1_fits() {
    // rows = 30000 + 300 * queries
    let start = first_attempt(false);
    let next = after_attempt(start, Outcome::NeedsCompressor(NeedsCompressorError { n_bits: 18 }));
    let Next::Retry(a) = next else { panic!("a compressor is enabled") };
    assert!(a.has_compressor && a.made == 1 && a.queries.is_none());
    // First guess, in proportion: ceil(69632 * 50 / 45000) = 78
    let Next::Retry(b) = after_attempt(a, too_small(45_000, 50)) else { panic!("resized") };
    assert_eq!(b.queries, Some(78));
    assert_eq!((b.last_queries, b.last_used), (Some(50), 45_000));
    // Second guess, through both points: 300 rows for each query, 30000 below them.
    let Next::Retry(c) = after_attempt(b, too_small(53_400, 78)) else { panic!("resized") };
    assert_eq!(c.queries, Some(133));
    assert!(30_000 + 300 * 133 >= 69_632 && 30_000 + 300 * 132 < 69_632);
    assert_eq!(after_attempt(c, Outcome::Done), Next::Accept);
    // A flat model still makes progress.
    assert_eq!(raise_queries(10, 69_632, None, 0), 11);
}

#[test]
fn resizing_gives_up_with_its_reason() {
    let a = first_attempt(true);
    let e = RecursiveTooSmallError { n_bits: 16, n_used: 9 };
    assert_eq!(
        after_attempt(a, Outcome::TooSmall(e, CompressorQueries::NoStructure)),
        Next::GiveUp(ResizeError::NoStructure { n_bits: 16 })
    );
    assert_eq!(
        after_attempt(a, Outcome::TooSmall(e, CompressorQueries::Unknown)),
        Next::GiveUp(ResizeError::NoQueries { n_bits: 16 })
    );
    assert_eq!(
        after_attempt(a, too_small(9, 0)),
        Next::GiveUp(ResizeError::NoQueries { n_bits: 16 })
    );
    assert_eq!(after_attempt(a, Outcome::Failed), Next::GiveUp(ResizeError::Failed));
    let last = Attempts { made: MAX_R1_ATTEMPTS - 1, ..a };
    assert_eq!(
        after_attempt(last, too_small(45_000, 50)),
        Next::GiveUp(ResizeError::NotConverged)
    );
    assert_eq!(
        ResizeError::NotConverged.message("Main"),
        "Air 'Main' recursive1 did not converge to the shared domain after 6 attempts"
    );
    assert_eq!(
        ResizeError::NoQueries { n_bits: 16 }.message("Main"),
        "Air 'Main' recursive1 too small (n_bits=16) but compressor nQueries is 0; cannot resize"
    );
    assert_eq!(ResizeError::Failed.message("Main"), "Recursive1 setup failed for air 'Main'");
}

fn air(idx: usize, has_compressor: bool) -> AirResult {
    AirResult {
        air_idx: idx,
        air_name: format!("Air{idx}"),
        verkey: [
            format!("{idx}0"),
            format!("{idx}1"),
            format!("{idx}2"),
            format!("{idx}3"),
        ],
        has_compressor,
    }
}

#[test]
fn results_are_ordered_by_air() {
    assert_eq!(order_by_index(&vec![5, 1, 3]), vec![1, 2, 0]);
    for order in [vec![2, 0, 1], vec![0, 1, 2], vec![1, 2, 0]] {
        let results: Vec<AirResult> = order.into_iter().map(|i| air(i, i != 1)).collect();
        let r = collect_airs(&results);
        assert_eq!(r.verkeys.len(), 3);
        assert_eq!(r.verkeys[2], vec!["20", "21", "22", "23"]);
        assert_eq!(r.with_compressor, vec!["Air0", "Air2"]);
    }
    assert_eq!(airs_to_run(&vec![Some(4), None, Some(0), Some(8)]), vec![0, 3]);
    assert_eq!(airgroup_label(&None, 2), "airgroup_2");
    assert_eq!(air_label(&Some("Main".to_string()), 2), "Main");
    let f = air_files("build", "zisk", "Zisk", "Dma");
    assert_eq!(f.dir, "build/provingKey/zisk/Zisk/airs/Dma/air");
    assert_eq!(f.verkey, "build/provingKey/zisk/Zisk/airs/Dma/air/Dma.verkey.json");
    assert!(check_described("A", "d", true, true).is_ok());
    let e = check_described("A", "d", true, false).err().unwrap();
    assert!(e.message().contains("starkinfo/verifierinfo not found"));
    assert!(check_sizes(17, 17, "G", "A").is_ok());
    assert!(matches!(
        check_sizes(18, 17, "G", "A"),
        Err(AirError::SizesDiffer { recursive2: 18, recursive1: 17, .. })
    ));
    assert!(check_aggregable(true, "G", "A").is_ok());
    assert!(check_aggregable(false, "G", "A").err().unwrap().message().contains("'G' air 'A'"));
    assert!(shares_description(false, true, true, true));
    assert!(!shares_description(true, true, true, true));
    assert_eq!(job_count(0), 1);
    assert_eq!(job_count(8), 8);
}

fn probe(found: bool, canonical: Option<&str>) -> Probe {
    Probe { found, canonical: canonical.map(|s| s.to_string()) }
}

#[test]
fn paths_are_searched_in_order() {
    let above = vec!["/opt/bin".to_string(), "/opt".to_string(), "/".to_string()];
    assert_eq!(candidates("/root", "setup/circom", &above), vec![
        "/root/setup/circom",
        "setup/circom",
        "/opt/bin/setup/circom",
        "/opt/setup/circom",
        "/setup/circom"
    ]);
    assert_eq!(local_candidates("node_modules/snarkjs", &above)[0], "node_modules/snarkjs");
    assert_eq!(local_candidates("node_modules/snarkjs", &above).len(), 4);
    assert_eq!(node_module("circomlib", "circuits"), "node_modules/circomlib/circuits");

    let env = Some("/given".to_string());
    let none: Option<String> = None;
    let probes = vec![probe(true, None), probe(false, Some("/b")), probe(true, Some("/c"))];
    assert_eq!(resolve_path_env(&env, &probes, "f"), "/given");
    assert_eq!(resolve_path_env(&Some(String::new()), &probes, "f"), "/c");
    assert_eq!(resolve_path_env(&none, &vec![], "f"), "f");
    assert_eq!(find_node_module_subpath(&none, &probes).as_deref(), Some("/c"));
    assert_eq!(resolve_pil2com_exec(&env, false, &probes, &none).as_deref(), Some("/c"));
    assert_eq!(resolve_pil2com_exec(&env, true, &probes, &none), env);
    let on_path = Some("/usr/bin/pil2com".to_string());
    assert_eq!(resolve_pil2com_exec(&none, false, &vec![], &on_path), on_path);
    // The first that is there decides, though it has no canonical path.
    assert_eq!(resolve_snarkjs_root(&env, false, &probes), None);
    assert_eq!(resolve_snarkjs_root(&env, true, &probes), env);
    assert_eq!(
        ensure_node_module_subpath(&none, &none, "pkg", "sub"),
        "node_modules/pkg/sub"
    );
    assert_eq!(ensure_node_module_subpath(&none, &env, "pkg", "sub"), "/given");
    assert_eq!(ensure_step(true, false), Bootstrap::Use);
    assert_eq!(ensure_step(false, true), Bootstrap::Install);
    assert_eq!(ensure_step(false, false), Bootstrap::GiveUp);
    assert_eq!(circom_binary(true), "circom_mac");
    assert_eq!(resolve_circom_exec(&none, "h", false, true, &env), "/given");
    assert_eq!(resolve_circom_exec(&none, "h", false, true, &none), "h/circom");
    assert_eq!(resolve_circom_exec(&none, "h", true, false, &env), "circom_mac");
    // The environment comes first.
    let other = Some("/opt/circom".to_string());
    assert_eq!(resolve_circom_exec(&env, "h", false, true, &other), "/given");
    assert_eq!(resolve_circom_exec(&env, "h", false, false, &none), "/given");
}

#[test]
fn stages_have_their_files() {
    let f = stage_files("b", "b/provingKey/x", "Main_recursive1", "Main_recursive1", "recursive1");
    assert_eq!(f.circom, "b/circom/Main_recursive1.circom");
    assert_eq!(f.r1cs, "b/build/Main_recursive1.r1cs");
    assert_eq!(f.dat_src, "b/build/Main_recursive1_cpp/Main_recursive1.dat");
    assert_eq!(f.dat_dst, "b/provingKey/x/recursive1.dat");
    assert_eq!(f.pil, "b/pil/Main_recursive1.pil");
    assert_eq!(f.verkey_bin, "b/provingKey/x/recursive1.verkey.bin");
    let f = Stage::Final.files("b", "zisk");
    assert_eq!(f.starkinfo, "b/provingKey/zisk/vadcop_final/vadcop_final.starkinfo.json");
    let f = Stage::RecursiveF.files("b", "zisk");
    assert_eq!(f.constants, "b/provingKeySnark/recursivef/recursivef.const");
    assert_eq!(Stage::CompressedFinal.info_name(), "compressed_final");
    assert_eq!(Stage::CompressedFinal.settings().merkle_tree_arity, Some(2));
    assert_eq!(Stage::Final.settings().folding_factor, Some(4));
    assert_eq!(
        Stage::RecursiveF.settings().verification_hash_type.as_deref(),
        Some("BN128")
    );
    assert_eq!(
        Stage::Final.plonk_options("Poseidon1").airgroup_name.as_deref(),
        Some("FinalVadcop")
    );
    assert!(Stage::Final.inputs().enable_input && !Stage::CompressedFinal.inputs().verkey_input);
    assert_eq!(Stage::RecursiveF.template(), "src/recursion/templates/recursivef.circom.ejs");
    let a = aggregate_files("b", "zisk", "Zisk");
    assert_eq!(a.vks, "b/provingKey/zisk/Zisk/recursive2/recursive2.vks.json");
    assert_eq!(aggregate_verifier("Zisk"), "Zisk_recursive2.verifier.circom");
    assert_eq!(aggregate_name(&None), "unnamed");
    assert!(check_aggregate("Zisk", true, true, true).is_ok());
    assert_eq!(
        check_aggregate("Zisk", true, true, false).err().unwrap().message(),
        "Recursive2 artifacts not found for airgroup 'Zisk'. Run recursive setup first."
    );
    assert_eq!(circom_goldilocks_args("r", "c", "x.circom", "out"), vec![
        "--O2", "--r1cs", "--prime", "goldilocks", "--c", "--verbose", "-l", "r", "-l", "c",
        "x.circom", "-o", "out"
    ]);
    assert_eq!(circom_bn128_args("r", "c", "lib", "x.circom", "out")[10..12], ["-l", "lib"]);
    let p = compile_pil("a.pil", "a.pilout", "std", "rec");
    assert_eq!(p.search_paths, vec!["std", "rec"]);
    assert_eq!(air_bits(1 << 17, 3), 17);
    assert_eq!(air_bits((1 << 17) + 5, 3), 17);
    assert_eq!(air_bits(0, 3), 3);
}

#[test]
fn standalone_compression_checks_its_inputs() {
    let opts = SetupCompressedFinalOptions { build_dir: "b".to_string() };
    let inputs = compressed_inputs(&opts, "zisk");
    assert_eq!(inputs.global_info, "b/provingKey/pilout.globalInfo.json");
    assert_eq!(inputs.verkey, "b/provingKey/zisk/vadcop_final/vadcop_final.verkey.json");
    let all = InputsFound { global_info: true, verkey: true, starkinfo: true, verifierinfo: true };
    let hash = Some("Poseidon2".to_string());
    let known = vec!["Poseidon1".to_string(), "Poseidon2".to_string()];
    assert_eq!(check_compressed_inputs(&inputs, all, &hash, &known).ok().unwrap(), "Poseidon2");
    assert!(matches!(
        check_compressed_inputs(&inputs, all, &None, &known),
        Err(StageError::NoHash { .. })
    ));
    let other = Some("Sha".to_string());
    assert_eq!(
        check_compressed_inputs(&inputs, all, &other, &known).err().unwrap().message(),
        "unknown hash family \"Sha\" in \"b/provingKey/pilout.globalInfo.json\"; known: [\"Poseidon1\", \"Poseidon2\"]"
    );
    let some = InputsFound { starkinfo: false, ..all };
    assert_eq!(
        check_compressed_inputs(&inputs, some, &hash, &known).err().unwrap().message(),
        "Required file not found: \"b/provingKey/zisk/vadcop_final/vadcop_final.starkinfo.json\". Run `setup --recursive` first."
    );
    let none = InputsFound { global_info: false, ..all };
    assert!(matches!(
        check_compressed_inputs(&inputs, none, &None, &known),
        Err(StageError::NoGlobalInfo { .. })
    ));
}

#[test]
fn one_circuit_is_set_up_alone() {
    let t = test_setup("b", "test", "compressor", "Poseidon1").ok().unwrap();
    assert_eq!(t.options.max_constraint_degree, Some(5));
    assert_eq!(t.files.r1cs, "b/build/test.r1cs");
    assert_eq!(t.files.pil, "b/pil/Compressor.pil");
    assert_eq!(
        t.files.starkinfo,
        "b/provingKey/build/Compressor/airs/Compressor/air/Compressor.starkinfo.json"
    );
    assert_eq!(t.settings.last_level_verification, Some(1));
    let t = test_setup("b", "test", "aggregation", "Poseidon1").ok().unwrap();
    assert_eq!(t.options.max_constraint_degree, None);
    assert_eq!(
        test_setup("b", "test", "other", "Poseidon1").err().unwrap().message(),
        "Invalid setup type 'other'. Must be one of: compressor, aggregation"
    );
}

#[test]
fn the_final_stage_checks_and_exports() {
    assert_eq!(circuit_power(0), 3);
    assert_eq!(circuit_power(6), 3);
    assert_eq!(circuit_power(7), 4);
    assert_eq!(circuit_power(1 << 20), 21);
    assert!(matches!(check_powers_of_tau(&None, true), Err(SnarkError::NoPowersOfTau)));
    let path = Some("p.ptau".to_string());
    assert_eq!(
        check_powers_of_tau(&path, false).err().unwrap().message(),
        "powers-of-tau file not found: p.ptau"
    );
    assert_eq!(check_powers_of_tau(&path, true).ok().unwrap(), "p.ptau");
    assert!(check_zkey("plonk", 0).is_ok());
    assert_eq!(
        check_zkey("plonk", 3).err().unwrap().message(),
        "plonk setup FFI call failed with return code 3"
    );
    assert!(is_fflonk("fflonk") && !is_fflonk("plonk"));
    let f = contract_files("d", "zisk", true);
    assert_eq!(f.snark_verifier, "d/FflonkVerifier.sol");
    assert_eq!(f.verifier, "d/ZiskVerifier.sol");
    assert_eq!(f.interface, "d/IZiskVerifier.sol");
    assert_eq!(absolutize("/w", "a/b"), "/w/a/b");
    assert_eq!(absolutize("/w", "/a/b"), "/a/b");
    let vk = export_vk_script("/w", "a\"b.zkey", "/vk.json");
    assert!(vk.contains("exportVerificationKey(\"/w/a\\\"b.zkey\");"), "{vk}");
    assert!(vk.contains("fs.writeFileSync(\"/vk.json\", JSON.stringify(vk));"), "{vk}");
    let sol = export_solidity_script("/w", "z.zkey", "v.sol", "plonk");
    assert!(sol.contains("'verifier_plonk.sol.ejs'"), "{sol}");
    assert!(sol.contains("{ plonk: fs.readFileSync"), "{sol}");
    assert!(sol.contains("exportSolidityVerifier(\"/w/z.zkey\", tmpl)"), "{sol}");
}

#[test]
fn messages_escape_what_they_quote() {
    let e = StageError::NoFile { path: "a\"b".to_string() };
    assert!(e.message().contains(r#""a\"b""#), "{}", e.message());
}

#[test]
fn a_structure_without_folds_has_one_step() {
    let settings = StarkSettings {
        final_degree: Some(usize::MAX),
        folding_factor: Some(usize::MAX),
        ..Default::default()
    };
    assert!(check_settings(&settings, 20));
    assert_eq!(generate_stark_struct(&settings, 20, MERKLE_TREE_ARITY).steps.len(), 1);
    let folds = StarkSettings { final_degree: Some(5), ..settings };
    assert!(!check_settings(&folds, 20));
}

fn recursive_job(template: RecursiveTemplate, described: bool) -> Job {
    Job::Recursive {
        template,
        has_compressor: false,
        deferred: false,
        described,
        writes_back: true,
    }
}

fn results(job: Job) -> Vec<Step> {
    match after_conversion(job, false, 17, 70_000, 50) {
        AfterConversion::GoOn(steps) => steps,
        _ => panic!("the circuit keeps its size"),
    }
}

#[test]
fn recursive1_shares_its_description() {
    let job = recursive_job(RecursiveTemplate::Recursive1, true);
    assert_eq!(
        first_steps(job),
        vec![Step::Generate, Step::Compile, Step::CopyWitnessData, Step::Convert]
    );
    assert_eq!(
        results(job),
        vec![
            Step::BuildWitness,
            Step::WriteFixed,
            Step::WritePil,
            Step::WriteExec,
            Step::CompilePil,
            Step::WriteConstants,
            Step::WriteStarkinfo,
            Step::HashConstants,
            Step::WriteKey,
            Step::RemoveStarkinfo,
        ]
    );
    // The first air describes the circuit before it writes the constants.
    let first = results(recursive_job(RecursiveTemplate::Recursive1, false));
    assert_eq!(first[5..8], [Step::Describe, Step::WriteStarkinfo, Step::WriteConstants]);
}

#[test]
fn recursive2_leaves_keys_and_a_verifier() {
    let steps = results(recursive_job(RecursiveTemplate::Recursive2, false));
    assert_eq!(steps[7..9], [Step::WriteDescriptions, Step::WriteBinaries]);
    assert_eq!(steps[steps.len() - 2..], [Step::WriteKeys, Step::WriteVerifier]);
    assert!(!steps.contains(&Step::RemoveStarkinfo));
}

#[test]
fn a_small_circuit_is_made_again_once() {
    let job = recursive_job(RecursiveTemplate::Recursive1, false);
    match after_conversion(job, false, 16, 40_000, 50) {
        AfterConversion::Again { n_queries, steps } => {
            assert_eq!(n_queries, 88);
            assert_eq!(steps[0], Step::WriteBack);
            assert_eq!(steps[1..], first_steps(job)[..]);
        }
        _ => panic!("the circuit is below the shared domain"),
    }
    assert!(matches!(after_conversion(job, true, 16, 40_000, 88), AfterConversion::GoOn(_)));
    assert!(matches!(
        after_conversion(job, false, 18, 200_000, 50),
        AfterConversion::NeedsCompressor(NeedsCompressorError { n_bits: 18 })
    ));
}

#[test]
fn stages_behind_recursion_build_their_witness_early() {
    for stage in [Stage::Final, Stage::CompressedFinal, Stage::RecursiveF] {
        let steps = first_steps(Job::Behind(stage));
        assert_eq!(steps[3..], [Step::BuildWitness, Step::Convert]);
    }
    let steps = results(Job::Behind(Stage::RecursiveF));
    assert_eq!(steps.last(), Some(&Step::WriteBinaries));
    assert_eq!(first_steps(Job::Standalone)[0], Step::Compile);
    assert_eq!(results(Job::Standalone).last(), Some(&Step::WriteGlobalInfo));
    // The final aggregation writes its verifier before its constants, the compression after.
    let at = |s: &[Step], x: Step| s.iter().position(|&y| y == x).unwrap();
    let last = results(Job::Behind(Stage::Final));
    assert!(at(&last, Step::WriteVerifier) < at(&last, Step::WriteConstants));
    let last = results(Job::Behind(Stage::CompressedFinal));
    assert!(at(&last, Step::WriteVerifier) > at(&last, Step::WriteKey));
}

#[test]
fn documents_name_keys_and_groups() {
    let text = r#"{"rootCRecursive2":[1,"2",null],"rootCRecursives1":[[3],"x",["4",18446744073709551615]]}"#;
    let keys = parse_group_keys(text).ok().unwrap();
    assert_eq!(keys.aggregated, vec!["1", "2", "0"]);
    assert_eq!(
        keys.airs,
        vec![vec!["3".to_string()], vec![], vec!["4".to_string(), u64::MAX.to_string()]]
    );
    let keys = parse_group_keys(r#"{"rootCRecursives1":7}"#).ok().unwrap();
    assert!(keys.aggregated.is_empty() && keys.airs.is_empty());
    assert!(matches!(parse_group_keys("{"), Err(KeyError::NotJson)));
    let whole = r#"{"name":"zisk \"é\"","hash":5,"air_groups":["Main",2]}"#;
    assert_eq!(global_name(whole).unwrap(), "zisk \"é\"");
    assert_eq!(global_hash(whole), None);
    assert_eq!(global_hash(r#"{"hash":"Poseidon2"}"#).unwrap(), "Poseidon2");
    assert_eq!(global_name("null"), None);
    assert_eq!(airgroup_names(whole), vec!["Main", "unnamed"]);
    assert!(airgroup_names("{}").is_empty() && airgroup_names("").is_empty());
    assert_eq!(key_of(&None), Vec::<String>::new());
    assert_eq!(text_in(&Some(KeyFile::Text("t".to_string()))).unwrap(), "t");
}

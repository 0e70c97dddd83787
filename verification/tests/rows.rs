use proofman::cli::prove::{Commit, ProofOptions, ProveCmd, ProveMode};
use proofman::cli::prove_recursive::{
    buffer_sizes, circuit_files, exec_data_size, exec_header, parse_proof_name, proof_words,
    AfterWitness, CircuitSizes, ProofFileError, ProveRecursiveCmd,
};
use proofman::paths::join;
use proofman::plonk2pil::exec_file::write_exec_file;
use proofman::rows::indexed::{
    col_source, indexed_ops_impl, is_instr_tag, row_names, split_columns, tagged_array,
    IndexedField,
};
use proofman::rows::packed_info::{PackedInfo, PackedInfoConst};
use proofman::rows::trait_row::{
    forwarding_methods, generic_tokens, nested_type_text, rust_type_for_bits, trait_impl,
    trait_method_signatures, TraceField,
};
use proofman::words::{bytes_to_words, words_to_bytes};

#[test]
fn packed_rows_are_described() {
    let p = PackedInfo::new(true, 3, vec![1, 2]);
    assert!(!p.is_indexed());
    assert!(p.as_ffi().col_source.is_none());
    let p = p.with_indexed(vec![0, 1], 32, 5);
    assert!(p.is_indexed());
    let f = p.as_ffi();
    assert_eq!(f.col_source, Some(&[0u8, 1][..]));
    assert_eq!((f.is_packed, f.num_packed_words, f.index_bits, f.words_per_entry), (true, 3, 32, 5));
    assert_eq!(f.unpack_info, &[1, 2]);
    assert!(!PackedInfo::default().is_packed);
    assert_eq!(PackedInfoConst::new(true, 2, &[7]).unpack_info, &[7]);
}

fn scalar(name: &str, bits: usize) -> TraceField {
    TraceField { name: name.to_string(), generic: false, dims: None, bits }
}

fn array(name: &str, bits: usize, dims: Vec<usize>) -> TraceField {
    TraceField { name: name.to_string(), generic: false, dims: Some(dims), bits }
}

#[test]
fn rows_get_their_accessors() {
    assert_eq!(
        [1, 2, 8, 9, 16, 17, 32, 33, 64, 65].map(rust_type_for_bits),
        ["bool", "u8", "u8", "u16", "u16", "u32", "u32", "u64", "u64", "u128"]
    );
    assert_eq!(nested_type_text("u8", &vec![4, 2]), "[[u8; 2]; 4]");
    let fields = vec![
        scalar("a", 12),
        array("m", 8, vec![4, 2]),
        TraceField { name: "g".to_string(), generic: true, dims: None, bits: 0 },
        TraceField { name: "h".to_string(), generic: true, dims: Some(vec![2]), bits: 0 },
    ];
    let sigs = trait_method_signatures(&fields);
    assert_eq!(sigs, vec![
        "fn set_a(&mut self, value: u16);",
        "fn get_a(&self) -> u16;",
        "fn set_m(&mut self, i0: usize, i1: usize, value: u8);",
        "fn get_m(&self, i0: usize, i1: usize) -> u8;",
        "fn set_all_m(&mut self, values: &[[u8; 2]; 4]);",
        "fn get_all_m(&self) -> [[u8; 2]; 4];",
        "fn set_g(&mut self, value: F);",
        "fn get_g(&self) -> F;",
    ]);
    let fwd = forwarding_methods("Row", &fields);
    assert_eq!(fwd.len(), sigs.len());
    assert_eq!(fwd[0], "#[inline(always)] fn set_a(&mut self, value: u16) { Row::set_a(self, value); }");
    assert_eq!(
        fwd[3],
        "#[inline(always)] fn get_m(&self, i0: usize, i1: usize) -> u8 { Row::get_m(self, i0, i1) }"
    );
    assert_eq!(generic_tokens(&None), (String::new(), String::new()));
    let text = trait_impl("RowOps", "Row", "RowPacked", &Some("F".to_string()), &vec![scalar("a", 1)]);
    assert!(text.starts_with("pub trait RowOps <F: PrimeField64 + Copy + Default + Send + 'static>"));
    assert!(text.contains("RowOps <F> for RowPacked <F> { #[inline(always)] fn set_a"), "{text}");
}

#[test]
fn indexed_rows_split_their_columns() {
    let fields = vec![
        IndexedField { field: scalar("pc", 32), instr: false },
        IndexedField { field: scalar("op", 8), instr: true },
        IndexedField { field: array("m", 8, vec![2, 2]), instr: false },
    ];
    assert_eq!(split_columns(&fields), (vec![0, 2], vec![1]));
    assert_eq!(col_source(&fields), vec![0, 1, 0, 0, 0, 0]);
    assert_eq!(tagged_array(&fields), None);
    let text = indexed_ops_impl("RowOps", "RowIndexed", &None, &fields);
    assert!(text.contains("fn set_op(&mut self, _value: u8) {}"), "{text}");
    assert!(text.contains("fn get_op(&self) -> u8 { <u8>::default() }"), "{text}");
    assert!(text.contains("RowIndexed::set_pc(self, value);"), "{text}");
    let bad = vec![IndexedField { field: array("m", 8, vec![2]), instr: true }];
    assert_eq!(tagged_array(&bad), Some(0));
    assert!(is_instr_tag("instr") && !is_instr_tag("other"));
    let n = row_names("Main");
    assert_eq!((n.ops_trait.as_str(), n.packed.as_str()), ("MainOps", "MainPacked"));
    assert_eq!((n.indexed.as_str(), n.table.as_str()), ("MainIndexed", "MainInstrTable"));
}

fn prove_cmd(commits: &[&str]) -> ProveCmd {
    ProveCmd {
        aggregation: true,
        compressed: false,
        verify_proofs: true,
        custom_commits: commits.iter().map(|s| s.to_string()).collect(),
        no_rma: true,
        minimal_memory: false,
        max_streams: Some(3),
        max_recursive_streams: None,
        number_threads_witness: None,
        max_witness_stored: Some(2),
        gpu: true,
        verbose: 2,
    }
}

#[test]
fn proving_is_set_up_by_its_arguments() {
    let cmd = prove_cmd(&["rom=a=b.bin", "none", "=x"]);
    let commits = cmd.commits();
    assert!(matches!(&commits[0], Commit::Named { key, value } if key == "rom" && value == "a=b.bin"));
    assert!(matches!(&commits[1], Commit::Invalid { text } if text == "none"));
    assert!(matches!(&commits[2], Commit::Named { key, value } if key.is_empty() && value == "x"));
    assert_eq!(cmd.prover_options(true).mode, ProveMode::VerifyConstraints);
    assert_eq!(cmd.prover_options(false).mode, ProveMode::Aggregation);
    assert_eq!(cmd.prover_options(false).max_streams, Some(3));
    let single = ProveCmd { aggregation: false, ..prove_cmd(&[]) };
    assert_eq!(single.prover_options(false).mode, ProveMode::NoAggregation);
    assert_eq!(cmd.proof_options(), ProofOptions {
        test_mode: false,
        aggregation: true,
        rma: false,
        compressed: false,
        verify_proofs: true,
        minimal_memory: false,
    });
}

#[test]
fn proof_files_name_their_circuit() {
    let n = parse_proof_name("/tmp/x/proof_ag0_air12_tRecursive1.bin").ok().unwrap();
    assert_eq!((n.airgroup_id, n.air_id, n.proof_type.as_str()), (0, 12, "Recursive1"));
    assert!(matches!(parse_proof_name("proof.bin"), Err(ProofFileError::BadName)));
    assert!(matches!(
        parse_proof_name("ag99999999999999999999_air1_tx"),
        Err(ProofFileError::BadName)
    ));
    assert_eq!(
        proof_words(&[1; 9]).err().unwrap().message(),
        "Proof file size (9 bytes) is not a multiple of 8"
    );
    assert_eq!(proof_words(&[2, 1, 0, 0, 0, 0, 0, 0]).ok().unwrap(), vec![258]);
    let f = circuit_files("/k/air", false);
    assert_eq!((f.library.as_str(), f.exec_path.as_str()), ("/k/air.so", "/k/air.exec"));
    assert_eq!(circuit_files("/k/air", true).library, "/k/air.dylib");
    let exec = write_exec_file(&[[1, 2, 3, 4]], &vec![vec![1, 2], vec![3, 4], vec![5, 6]]);
    let h = exec_header(&exec).unwrap();
    assert_eq!((h.n_adds, h.n_smap), (1, 2));
    assert_eq!(exec_data_size(h, 3) as usize, exec.len());
    assert_eq!(exec_header(&vec![1]), None);
    let sizes = CircuitSizes {
        circuit_witness: 100,
        n_adds: 5,
        n_bits: 4,
        n_cols: 3,
        n_constants: 2,
        constant_tree: 70,
        proof_size: 40,
        publics_aggregation: 8,
    };
    let b = buffer_sizes(sizes, false);
    assert_eq!((b.witness, b.rows, b.trace, b.proof, b.constants, b.constant_tree), (105, 16, 48, 48, 32, 70));
    let b = buffer_sizes(sizes, true);
    assert_eq!((b.constants, b.constant_tree), (0, 0));
    let cmd = ProveRecursiveCmd {
        proof: String::new(),
        proving_key: String::new(),
        emit_witness_only: true,
        gpu: false,
        verbose: 0,
    };
    assert_eq!(cmd.after_witness(1), AfterWitness::Fail);
    assert_eq!(cmd.after_witness(0), AfterWitness::Stop);
    let cmd = ProveRecursiveCmd { emit_witness_only: false, ..cmd };
    assert_eq!(cmd.after_witness(0), AfterWitness::Prove);
}

#[test]
fn words_survive_their_bytes() {
    let words = [0, 1, 0x0123_4567_89ab_cdef, u64::MAX];
    let bytes = words_to_bytes(&words);
    assert_eq!(bytes[16..24], 0x0123_4567_89ab_cdefu64.to_le_bytes());
    assert_eq!(bytes_to_words(&bytes).unwrap(), words);
    assert_eq!(bytes_to_words(&bytes[1..]), None);
    assert_eq!(join("a/", "b"), "a/b");
    assert_eq!(join("", "b"), "b");
}

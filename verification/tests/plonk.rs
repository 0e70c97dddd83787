use proofman::field::{addp, mulp, neg, GOLDILOCKS_P};
use proofman::field_inverse::invp;
use proofman::plonk2pil::custom_gates::{check_custom_gates, get_custom_gates_info};
use proofman::plonk2pil::estimate::{
    cells_per_gate, compare_cells, estimate_cells, estimate_cells_merged, CellComparison,
    CellEstimate, ComponentCells, PLONK_CELLS,
};
use proofman::plonk2pil::exec_file::write_exec_file;
use proofman::plonk2pil::merge_copies::{
    apply_remap_to_s_map, is_exact_copy, merge_copy_signals, r1cs2plonk_merged,
    verify_merge_soundness,
};
use proofman::plonk2pil::packer::PlonkOptions;
use proofman::plonk2pil::r1cs::{
    CustomGate, CustomGateUse, GateRole, KnownGate, LinearCombination, R1csConstraint, R1csFile,
    R1csHeader,
};
use proofman::plonk2pil::to_plonk::{ckey, r1cs2plonk, PlonkAddition, PlonkConstraint};
use proofman::plonk2pil::{pack_bytes, plonk2pil, PlonkError};
use std::collections::HashMap;

fn make_lc(terms: &[(u32, u64)]) -> LinearCombination {
    terms.iter().copied().collect()
}

fn make_r1cs(constraints: Vec<R1csConstraint>, n_vars: u32) -> R1csFile {
    R1csFile {
        header: R1csHeader {
            n8: 8,
            prime_bytes: vec![],
            n_vars,
            n_outputs: 0,
            n_pub_inputs: 0,
            n_prv_inputs: 0,
            n_labels: 0,
            n_constraints: constraints.len() as u32,
            use_custom_gates: false,
        },
        constraints,
        wire_to_label: vec![],
        custom_gates: vec![],
        custom_gates_uses: vec![],
    }
}

#[test]
fn test_simple_mul() {
    let r1cs = make_r1cs(
        vec![R1csConstraint {
            a: make_lc(&[(1, 1)]),
            b: make_lc(&[(2, 1)]),
            c: make_lc(&[(3, 1)]),
        }],
        4,
    );
    let (cs, adds) = r1cs2plonk(&r1cs);
    assert_eq!(cs.len(), 1);
    assert_eq!(adds.len(), 0);
    assert_eq!(cs[0][3], 1);
    assert_eq!(cs[0][6], GOLDILOCKS_P - 1);
}

#[test]
fn test_zero_a_sum() {
    let r1cs = make_r1cs(
        vec![R1csConstraint {
            a: HashMap::new(),
            b: make_lc(&[(1, 1)]),
            c: make_lc(&[(2, 1), (3, 1)]),
        }],
        4,
    );
    let (cs, _) = r1cs2plonk(&r1cs);
    assert_eq!(cs[0][3], 0);
}

#[test]
fn test_additions() {
    let r1cs = make_r1cs(
        vec![R1csConstraint {
            a: make_lc(&[(1, 1), (2, 1), (3, 1), (4, 1)]),
            b: make_lc(&[(5, 1)]),
            c: make_lc(&[(6, 1)]),
        }],
        7,
    );
    let (cs, adds) = r1cs2plonk(&r1cs);
    assert!(cs.len() > 1);
    assert!(!adds.is_empty());
}

/// One multiplication `wire_1 * wire_2 = wire_3` and no custom gates.
fn build_simple_r1cs() -> R1csFile {
    R1csFile {
        header: R1csHeader {
            n8: 8,
            prime_bytes: 0xFFFF_FFFF_0000_0001u64.to_le_bytes().to_vec(),
            n_vars: 4,
            n_outputs: 1,
            n_pub_inputs: 1,
            n_prv_inputs: 1,
            n_labels: 4,
            n_constraints: 1,
            use_custom_gates: false,
        },
        constraints: vec![R1csConstraint {
            a: make_lc(&[(1, 1)]),
            b: make_lc(&[(2, 1)]),
            c: make_lc(&[(3, 1)]),
        }],
        wire_to_label: vec![],
        custom_gates: vec![],
        custom_gates_uses: vec![],
    }
}

#[test]
fn test_r1cs2plonk_basic() {
    let r1cs = build_simple_r1cs();
    let (constraints, additions) = r1cs2plonk(&r1cs);

    assert_eq!(constraints.len(), 1);
    assert!(additions.is_empty());
    // Should be a multiplication gate: qM != 0
    assert_ne!(constraints[0][3], 0);
}

#[test]
fn test_write_exec_file_roundtrip() {
    let adds: Vec<PlonkAddition> = vec![[10, 20, 30, 40], [50, 60, 70, 80]];
    let s_map: Vec<Vec<u32>> = vec![vec![1, 2, 3, 4], vec![5, 6, 7, 8]];

    let exec = write_exec_file(&adds, &s_map);

    assert_eq!(exec[0], 2); // 2 additions
    assert_eq!(exec[1], 4); // 4 rows

    // First addition
    assert_eq!(exec[2], 10);
    assert_eq!(exec[3], 20);
    assert_eq!(exec[4], 30);
    assert_eq!(exec[5], 40);

    // Second addition
    assert_eq!(exec[6], 50);
    assert_eq!(exec[7], 60);
    assert_eq!(exec[8], 70);
    assert_eq!(exec[9], 80);

    // sMap data: row 0 => col0=1, col1=5
    let base = 2 + 2 * 4;
    assert_eq!(exec[base], 1);
    assert_eq!(exec[base + 1], 5);
    // row 1 => col0=2, col1=6
    assert_eq!(exec[base + 2], 2);
    assert_eq!(exec[base + 3], 6);
}

#[test]
fn test_invalid_setup_type() {
    let r1cs = build_simple_r1cs();
    let options = PlonkOptions::default();
    let result = plonk2pil(&r1cs, "invalid_type", &options, 0);
    assert!(result.is_err());
    let e = result.err().unwrap();
    assert!(matches!(&e, PlonkError::InvalidSetupType { setup_type } if setup_type == "invalid_type"));
    assert_eq!(
        e.message(),
        "Invalid setup type: 'invalid_type'. Must be one of: compressor, aggregation"
    );
}

#[test]
fn an_unknown_hash_family_has_no_packer() {
    let r1cs = build_simple_r1cs();
    let options = PlonkOptions { hash_id: "Keccak".to_string(), ..Default::default() };
    assert!(matches!(
        plonk2pil(&r1cs, "aggregation", &options, 0),
        Err(PlonkError::UnknownHash { hash_id }) if hash_id == "Keccak"
    ));
}

#[test]
fn one_multiplication_is_packed() {
    for hash in ["Poseidon1", "Poseidon2"] {
        for kind in ["compressor", "aggregation"] {
            let options = PlonkOptions {
                airgroup_name: Some("Group".to_string()),
                max_constraint_degree: None,
                hash_id: hash.to_string(),
                merge_copies: true,
            };
            let r = match plonk2pil(&build_simple_r1cs(), kind, &options, 7) {
                Ok(r) => r,
                Err(_) => panic!("{hash} {kind} packs"),
            };
            assert_eq!(r.airgroup_name, "Group");
            // Every signal of this gate is placed somewhere.
            for signal in [1u32, 2, 3] {
                assert!(r.s_map.iter().any(|col| col.contains(&signal)), "{hash} {kind} {signal}");
            }
            // The exec buffer repeats the signal map, row by row.
            let rows = r.exec_buffer[1] as usize;
            let cols = r.s_map.len();
            assert_eq!(r.exec_buffer[0], 0);
            assert_eq!(r.exec_buffer.len(), 2 + rows * cols);
            assert_eq!(r.exec_buffer[2], r.s_map[0][0] as u64);
            assert!(r.n_used <= 1 << r.n_bits);
        }
    }
}

fn copy(sl: u64, sr: u64) -> PlonkConstraint {
    [sl, sr, 0, 0, 1, neg(1), 0, 0] // sl = sr
}
fn mul(sl: u64, sr: u64, so: u64) -> PlonkConstraint {
    [sl, sr, so, 1, 0, 0, neg(1), 0]
}

#[test]
fn detects_exact_copy_not_mul_or_scaled() {
    assert!(is_exact_copy(&copy(5, 9)));
    assert!(!is_exact_copy(&mul(5, 9, 12)));
    let scaled: PlonkConstraint = [5, 9, 0, 0, 1, neg(2), 0, 0]; // sl = 2*sr
    assert!(!is_exact_copy(&scaled));
    assert!(!is_exact_copy(&copy(7, 7))); // self-copy
}

#[test]
fn merges_copy_and_drops_gate() {
    let cs = vec![copy(5, 6), mul(5, 6, 7)];
    let r = merge_copy_signals(&cs, &[], 10, 2);
    assert_eq!(r.dropped, 1);
    assert_eq!(r.constraints.len(), 1);
    assert_eq!(r.constraints[0][0], r.constraints[0][1]);
}

#[test]
fn remap_table_unifies_merged_ids() {
    // copy 5=6 -> remap[6] == remap[5].
    let r = merge_copy_signals(&[copy(5, 6)], &[], 10, 2);
    assert_eq!(r.remap[6], r.remap[5]);
    // unrelated id maps to itself
    assert_eq!(r.remap[9], 9);
}

#[test]
fn apply_remap_rewrites_custom_gate_cells() {
    let r = merge_copy_signals(&[copy(5, 6)], &[], 10, 2);
    // s_map with id 6 (e.g. a Poseidon input cell) in some column/row:
    let mut s_map = vec![vec![0u32; 1]; 20];
    s_map[3][0] = 6; // pretend this is a custom-gate I/O cell
    apply_remap_to_s_map(&mut s_map, &r.remap);
    assert_eq!(s_map[3][0], r.remap[5], "custom-gate cell id 6 must map to rep of 5");
}

#[test]
fn copy_touching_public_is_not_merged() {
    let r = merge_copy_signals(&[copy(2, 8)], &[], 10, 2);
    assert_eq!(r.dropped, 0, "copy touching a public must not be dropped");
    assert_eq!(r.constraints.len(), 1);
    assert_eq!(r.remap[2], 2);
    assert_eq!(r.remap[8], 8, "non-public endpoint stays itself; no merge");
}

#[test]
fn two_distinct_publics_not_merged() {
    let r = merge_copy_signals(&[copy(1, 2)], &[], 10, 2);
    assert_eq!(r.dropped, 0);
    assert_eq!(r.constraints.len(), 1);
    assert_eq!(r.remap[1], 1);
    assert_eq!(r.remap[2], 2);
}

#[test]
fn additions_are_remapped() {
    let r = merge_copy_signals(&[copy(5, 6)], &[[6, 9, 1, 1]], 10, 2);
    assert_eq!(r.additions[0][0], r.remap[5] as u64);
}

#[test]
fn transitive_chain_collapses() {
    let cs = vec![copy(5, 6), copy(6, 7), copy(7, 8), mul(5, 8, 2)];
    let r = merge_copy_signals(&cs, &[], 10, 2);
    assert_eq!(r.dropped, 3);
    assert_eq!(r.constraints.len(), 1);
    assert_eq!(r.remap[5], r.remap[8]);
}

#[test]
fn guard_passes_when_rep_has_two_in_band_cells() {
    // rep 5 appears twice in-band (cols < n_cols=4) -> sound.
    let s_map = vec![vec![5u32], vec![5u32], vec![0u32], vec![0u32]];
    assert!(verify_merge_soundness(&s_map, &[5], 4).is_ok());
}

#[test]
fn guard_refuses_a_rep_that_is_not_enforced() {
    // rep 5 appears only outside the connected columns
    let s_map = vec![vec![0u32], vec![0u32], vec![0u32], vec![0u32], vec![5u32]];
    assert_eq!(verify_merge_soundness(&s_map, &[5], 4).err().unwrap().bad, 1);
    // rep 5 appears once: a cycle of one enforces nothing
    let s_map = vec![vec![5u32], vec![0u32], vec![0u32], vec![0u32]];
    assert_eq!(verify_merge_soundness(&s_map, &[5], 4).err().unwrap().bad, 1);
    let e = verify_merge_soundness(&s_map, &[5], 4).err().unwrap();
    assert!(e.message().starts_with(
        "merge_copies UNSOUND: 1 merged representatives have in-band (col<4) multiplicity < 2;"
    ));
}

#[test]
fn identity_remap_when_not_merging() {
    // (constructed remap covers [0, n_vars); applying to s_map changes nothing)
    let remap: Vec<u32> = (0..10).collect();
    let mut s_map = vec![vec![3u32, 7u32]];
    apply_remap_to_s_map(&mut s_map, &remap);
    assert_eq!(s_map[0], vec![3, 7]);
    let (_, _, merge) = r1cs2plonk_merged(&build_simple_r1cs(), false);
    assert_eq!(merge.remap, vec![0, 1, 2, 3]);
    assert!(merge.merged_reps.is_empty());
}

/// `n_mul` multiplications over fresh signals, with optional uses of a multiplication gate.
fn synthetic_r1cs(n_mul: u32, gates: Vec<CustomGateUse>) -> R1csFile {
    let mut constraints = Vec::new();
    let mut sid = 1u32;
    for _ in 0..n_mul {
        constraints.push(R1csConstraint {
            a: make_lc(&[(sid, 1)]),
            b: make_lc(&[(sid + 1, 1)]),
            c: make_lc(&[(sid + 2, 1)]),
        });
        sid += 3;
    }
    let custom_gates = if gates.is_empty() {
        vec![]
    } else {
        vec![CustomGate {
            template_name: "CMul".into(),
            parameters: vec![],
            known: Some(KnownGate { role: GateRole::CMul, family: None }),
        }]
    };
    let mut r1cs = make_r1cs(constraints, sid + 100);
    r1cs.header.use_custom_gates = !gates.is_empty();
    r1cs.custom_gates = custom_gates;
    r1cs.custom_gates_uses = gates;
    r1cs
}

#[test]
fn cells_per_gate_matches_placement_widths() {
    assert_eq!(cells_per_gate(GateRole::PoseidonSponge), Some(198));
    assert_eq!(cells_per_gate(GateRole::PoseidonCompression), Some(200));
    assert_eq!(cells_per_gate(GateRole::CMul), Some(9));
    assert_eq!(cells_per_gate(GateRole::Fft4), Some(24));
    // TreeSelector is width-variable: resolved from the r1cs, not a fixed constant.
    assert_eq!(cells_per_gate(GateRole::TreeSelector), None);
    assert_eq!(PLONK_CELLS, 3);
}

#[test]
fn estimate_totals_and_breakdown_are_consistent() {
    // 4 mul constraints + 2 CMul gate uses (gate id 0 -> "CMul").
    let gates = vec![
        CustomGateUse { id: 0, signals: vec![0; 9] },
        CustomGateUse { id: 0, signals: vec![0; 9] },
    ];
    let r1cs = synthetic_r1cs(4, gates);
    let est = estimate_cells(&r1cs);

    // total == sum of components
    let sum: usize = est.components.iter().map(|c| c.cells).sum();
    assert_eq!(sum, est.total_cells);

    // each mul constraint becomes 1 PLONK constraint = 3 cells; CMul = 2*9 = 18.
    let plonk = est.components.iter().find(|c| c.name == "PLONK").unwrap();
    assert_eq!(plonk.cells, 4 * PLONK_CELLS);
    let cmul = est.components.iter().find(|c| c.name == "CMul").unwrap();
    assert_eq!(cmul.count, 2);
    assert_eq!(cmul.cells, 2 * 9);
}

#[test]
fn merged_estimate_never_exceeds_raw() {
    // With no copy constraints to merge, merged == raw; in general merged <= raw.
    let r1cs = synthetic_r1cs(4, vec![]);
    let cmp = compare_cells(&r1cs);
    assert!(cmp.merged.total_cells <= cmp.raw.total_cells);
    assert_eq!(cmp.cells_saved(), cmp.raw.total_cells - cmp.merged.total_cells);
    assert_eq!(estimate_cells_merged(&r1cs).total_cells, cmp.merged.total_cells);
}

#[test]
fn custom_gates_are_counted_and_checked() {
    let r1cs = synthetic_r1cs(1, vec![CustomGateUse { id: 0, signals: vec![1; 9] }]);
    assert!(check_custom_gates(&r1cs).is_ok());
    let info = get_custom_gates_info(&r1cs);
    assert_eq!(info.n(GateRole::CMul), 1);
    assert_eq!(info.role_id(GateRole::CMul), Some(0));
    assert_eq!(info.role_id(GateRole::Fft4), None);
    let mut unknown = synthetic_r1cs(1, vec![CustomGateUse { id: 0, signals: vec![1; 9] }]);
    unknown.custom_gates[0].known = None;
    assert!(check_custom_gates(&unknown).is_err());
}

#[test]
fn gates_have_one_key_each() {
    assert_eq!(ckey(&copy(5, 9)), ckey(&copy(6, 7)));
    assert_ne!(ckey(&copy(5, 9)), ckey(&mul(5, 9, 1)));
    assert_eq!(ckey(&mul(1, 2, 3)), "1,0,0,ffffffff00000000,0");
}

#[test]
fn inverses_multiply_to_one() {
    for x in [1u64, 2, 7, 0x1234_5678_9abc_def0, GOLDILOCKS_P - 1] {
        assert_eq!(mulp(x, invp(x)), 1);
    }
    assert_eq!(invp(2), 0x7FFF_FFFF_8000_0001);
    assert_eq!(addp(GOLDILOCKS_P - 1, 1), 0);
}

#[test]
fn reports_come_in_columns() {
    let estimate = |count: usize| CellEstimate {
        total_cells: 3 * count,
        components: vec![ComponentCells { name: "PLONK", count, cells_per: 3, cells: 3 * count }],
    };
    let share = vec!["100.0".to_string()];
    assert_eq!(
        estimate(5).report(&share),
        format!(
            "cells_used = 15\n  {:21} count={:>9}  cells/unit={:>4}  cells={:>11}  ({:.1}%)\n",
            "PLONK", 5, 3, 15, 100.0
        )
    );
    let both = CellComparison { raw: estimate(5), merged: estimate(4) };
    let text = both.report(&share, &share, "20.0");
    assert!(text.starts_with("--- raw (no merge) ---\ncells_used = 15\n"));
    assert!(text.contains("--- merged (copy-constraints eliminated) ---\ncells_used = 12\n"));
    assert!(text.ends_with("saved = 3 cells (20.0%)\n"));
}

#[test]
fn unreadable_bytes_are_refused_behind_the_setup_type() {
    let options = PlonkOptions { hash_id: "Poseidon1".to_string(), ..Default::default() };
    let e = pack_bytes(&None, "invalid_type", &options, 0).err().unwrap();
    assert!(matches!(e, PlonkError::InvalidSetupType { .. }));
    let e = pack_bytes(&None, "compressor", &options, 0).err().unwrap();
    assert!(matches!(e, PlonkError::Unreadable));
    let read = Some(build_simple_r1cs());
    let packed = pack_bytes(&read, "compressor", &options, 0).ok().unwrap();
    let direct = plonk2pil(read.as_ref().unwrap(), "compressor", &options, 0).ok().unwrap();
    assert_eq!((packed.exec_buffer, packed.n_bits), (direct.exec_buffer, direct.n_bits));
}

#[test]
fn merging_twice_is_merging_once() {
    let copy = |a: u64, b: u64| [a, b, 0, 0, 1, GOLDILOCKS_P - 1, 0, 0];
    let cs = vec![copy(5, 6), copy(6, 7), copy(1, 8), [5, 7, 9, 1, 0, 0, GOLDILOCKS_P - 1, 0]];
    let once = merge_copy_signals(&cs, &[], 10, 2);
    assert_eq!(once.dropped, 2);
    let twice = merge_copy_signals(&once.constraints, &[], 10, 2);
    assert_eq!(twice.constraints, once.constraints);
    assert_eq!((twice.dropped, twice.merged_reps.len()), (0, 0));
}

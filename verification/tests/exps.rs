use proofman::exps::emit::{cm_layout, emit_air, rowexpr, store_qq};
use proofman::exps::ir::{ChunkPlan, CutTemp, Instr, Ir, Op, Operand};
use proofman::exps::templates::COMMON_CUH;
use proofman::exps::toolchain::{
    archs_of_request, detects_host, gencode, read_queried_arch, resolve_archs, Toolchain, ToolchainError,
};
use std::collections::HashMap;

fn add(idx: u64, a: Operand, b: Operand, dst: Option<u64>, ddim: u64) -> Instr {
    Instr { idx, op: Op::Add, a, b, ddim, dst_is_tmp: dst.is_some(), dst_id: dst }
}

fn program() -> Ir {
    Ir {
        instrs: vec![
            add(0, Operand::Pub { id: 3 }, Operand::Num(5), Some(0), 1),
            Instr {
                op: Op::Mul,
                ..add(
                    1,
                    Operand::Cm { stage: 1, pos: 2, dim: 1, stride: 0 },
                    Operand::Const { id: 4, stride: -1 },
                    Some(1),
                    1,
                )
            },
            add(2, Operand::Tmp { id: 0, dim: 1 }, Operand::Ch { base: 6 }, Some(0), 3),
            Instr {
                op: Op::Sub,
                ..add(
                    3,
                    Operand::Tmp { id: 0, dim: 3 },
                    Operand::Tmp { id: 1, dim: 1 },
                    None,
                    3,
                )
            },
        ],
        n_constants: 7,
        n_bits: 17,
        ncols: HashMap::from([(1, 10)]),
    }
}

fn plan(n_chunks: usize, chunk: usize, cut_temps: Vec<CutTemp>) -> ChunkPlan {
    ChunkPlan { n_chunks, chunk, cut_temps, total_slots: 4, out_dim: 3 }
}

#[test]
fn a_small_program_is_one_unit() {
    let files = emit_air(&program(), &plan(1, 4, vec![]), "air_0", false);
    assert_eq!(files.len(), 1);
    assert_eq!(files[0].0, "gen_air_0.cu");
    let text = &files[0].1;
    for line in [
        "  gl64_t a0 = pub[3];",
        "  gl64_t b0(uint64_t(5ull));",
        "  gl64_t t0 = a0 + b0;",
        "  gl64_t a1 = aux[off_cm1 + OFF(row,2,NExt,10,Layout::ColMajor)];",
        "  gl64_t b1 = cst[OFF(((row+(-1ll))&MASK),4,NExt,7,Layout::ColMajorTiled)];",
        "  gl64_t t1 = a1 * b1;",
        "  g3 b2; b2.a=ch[6]; b2.b=ch[7]; b2.c=ch[8];",
        "  t0 = cg_add13(t0,b2);",
        "  g3 qq = cg_sub31(t0,t1);",
        "    q[OFF(row,0,NExt,3,Layout::ColMajor)]=qq.a; q[OFF(row,1,NExt,3,Layout::ColMajor)]=qq.b; q[OFF(row,2,NExt,3,Layout::ColMajor)]=qq.c;",
        "extern \"C\" unsigned long long exps_min_scratch() { return 0 * 256ull; }",
    ] {
        assert!(text.lines().any(|l| l == line), "missing {line} in\n{text}");
    }
    assert!(text.starts_with("// AUTO-GENERATED Q kernel for air_0 (single kernel, no scratch)\n"));
    assert!(COMMON_CUH.starts_with("#pragma once\n"));
}

#[test]
fn a_big_program_is_cut_into_chunks() {
    let cut = vec![
        CutTemp { id: 0, def_chunk: 0, dim: 1, slot: 0 },
        CutTemp { id: 1, def_chunk: 0, dim: 3, slot: 1 },
    ];
    let files = emit_air(&program(), &plan(2, 2, cut), "air_0", true);
    let names: Vec<&str> = files.iter().map(|f| f.0.as_str()).collect();
    assert_eq!(names, vec!["gen_air_0.cu", "gen_air_0_c0.cu"]);
    let launcher = &files[0].1;
    assert!(launcher.contains("(cross-boundary temps=4, 2 chunks)"), "{launcher}");
    assert!(launcher.contains("    run_air_0_c1(grid, BLK, stream"), "{launcher}");
    assert!(launcher.contains("uint64_t grid = 4ull ? (scratchElems / (4ull*BLK)) : 512ull;"));
    let chunks = &files[1].1;
    assert!(chunks.starts_with("// AUTO-GENERATED Q chunk kernels 0..1 for air_0\n"), "{chunks}");
    for line in [
        "  scratch[0ull*WAVE + lo_] = t0;",
        "  scratch[1ull*WAVE+lo_]=t1.a; scratch[2ull*WAVE+lo_]=t1.b; scratch[3ull*WAVE+lo_]=t1.c;",
        "  gl64_t t0 = scratch[0ull*WAVE + lo_];",
        "  g3 t1; t1.a=scratch[1ull*WAVE+lo_]; t1.b=scratch[2ull*WAVE+lo_]; t1.c=scratch[3ull*WAVE+lo_];",
        "  gl64_t a1 = aux[off_cm1 + OFF(row,2,NExt,10,Layout::ColMajorTiled)];",
    ] {
        assert!(chunks.lines().any(|l| l == line), "missing {line} in\n{chunks}");
    }
    // The result is stored once, by the last chunk.
    assert_eq!(chunks.matches(store_qq(3, true)).count(), 1);
}

#[test]
fn nine_chunks_take_two_units() {
    let ir = Ir {
        instrs: (0..9).map(|i| add(i, Operand::Num(i), Operand::Zi, None, 1)).collect(),
        n_constants: 0,
        n_bits: 3,
        ncols: HashMap::new(),
    };
    let files = emit_air(&ir, &plan(9, 1, vec![]), "s", false);
    assert_eq!(files.len(), 3);
    assert!(files[1].1.contains("kernels 0..7 for s"));
    assert!(files[2].1.contains("kernels 8..8 for s"));
    assert_eq!(cm_layout(17, 501, false), "Layout::ColMajorTiled");
    assert_eq!(cm_layout(18, 501, false), "Layout::ColMajor");
    assert_eq!(cm_layout(18, 1, true), "Layout::ColMajorTiled");
    assert_eq!(rowexpr(0), "row");
    assert_eq!(rowexpr(2), "((row+(2ll))&MASK)");
    assert_eq!(rowexpr(i64::MIN), "((row+(-9223372036854775808ll))&MASK)");
}

#[test]
fn architectures_are_resolved() {
    assert!(detects_host("") && detects_host(" AUTO\n") && !detects_host("major"));
    let none: Option<String> = None;
    assert_eq!(resolve_archs(" MAJOR ", &none), vec![80, 86, 89, 90, 100, 120]);
    assert_eq!(resolve_archs("auto", &none), vec![80, 86, 89, 90, 100, 120]);
    assert_eq!(resolve_archs("", &Some("sm 120 \nx9".to_string())), vec![120]);
    assert_eq!(resolve_archs("auto", &Some("none\n12".to_string())), vec![
        80, 86, 89, 90, 100, 120
    ]);
    assert_eq!(resolve_archs("SM_120, 89,x,89", &none), vec![89, 120]);
    assert_eq!(archs_of_request("sm_90", &none), vec![90]);
    assert_eq!(read_queried_arch("99999999999"), None);
    assert_eq!(gencode(&vec![89, 100]), vec![
        "-gencode",
        "arch=compute_89,code=sm_89",
        "-gencode",
        "arch=compute_100,code=sm_100",
        "-gencode",
        "arch=compute_100,code=compute_100",
        "-gencode",
        "arch=compute_89,code=compute_89",
    ]);
}

#[test]
fn the_toolchain_has_its_flags() {
    let none: Option<String> = None;
    let t = Toolchain::new("/s", true, "120,90", &none, "/w", true).ok().unwrap();
    assert_eq!(t.arch_summary(), "90 120");
    assert_eq!(t.compile_flags[..6], [
        "-Xcompiler", "-fPIC", "-Xcompiler", "-mavx2", "-std=c++17", "-O3"
    ]);
    assert!(t.compile_flags.contains(&"-DFORCE_TILED_LAYOUT".to_string()));
    assert!(t.compile_flags.contains(&"-I/s/src/starkpil/fri".to_string()));
    assert!(t.compile_flags.contains(&"-I/s/external/blst/src".to_string()));
    assert_eq!(t.compile_flags.last().unwrap(), "-I/usr/lib/x86_64-linux-gnu/openmpi/include");
    let plain = Toolchain::new("/s", true, "120", &none, "/w", false).ok().unwrap();
    assert!(!plain.compile_flags.contains(&"-DFORCE_TILED_LAYOUT".to_string()));
    let args = plain.compile_args("x.cu", "x.o", &Some("/e".to_string()));
    assert_eq!(args[0], "-c");
    assert_eq!(args[args.len() - 4..], ["x.cu", "-o", "x.o", "-I/e"]);
    let args = plain.link_args(&vec!["x.o".to_string()], "x.so");
    assert_eq!(args[args.len() - 7..], [
        "x.o", "-cudart", "static", "-Xlinker", "--strip-all", "-o", "x.so"
    ]);
    assert_eq!(args[0], "-shared");
    assert!(plain.compile_link_args(&vec!["x.cu".to_string()], "x.so").len() > args.len());
    let e = Toolchain::new("/s", false, "120", &none, "/w", false).err().unwrap();
    assert_eq!(e.message(), "pil2-stark source not found at /s (pass --stark-src)");
    let e = Toolchain::new("/s", true, "x", &none, "/w", false).err().unwrap();
    assert!(matches!(e, ToolchainError::NoArchs { .. }));
    assert_eq!(e.message(), "no valid CUDA archs in spec 'x'");
}

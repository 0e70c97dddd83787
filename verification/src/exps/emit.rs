//! Emitting the CUDA text of a program.
use vstd::prelude::*;
use vstd::string::StringExecFns;

use crate::exps::ir::{
    instr_ok, ir_ok, operand_dim, operand_ok, plan_ok, temp_fits, ChunkPlan, CutTemp, Instr, Ir, Op,
    Operand,
};
use crate::exps::templates::{
    ABI_LAUNCH, ABI_SCRATCH, CALL_PARAMS, CHUNK_HEAD, CHUNK_TAIL, CHUNK_TITLE, DECL_PARAMS,
    KERNEL_CHUNK, KERNEL_NAME, KERNEL_SINGLE, KERNEL_TAIL, LAUNCHER_FITS, LAUNCHER_GRID,
    LAUNCHER_HEAD, LAUNCHER_LOOP, LAUNCHER_NAME, LAUNCHER_PARAMS, LAUNCHER_TAIL, LAUNCHER_TEMPS,
    LAUNCHER_TITLE, LAUNCH_NAME, LAUNCH_PARAMS, RUN_NAME, RUN_PARAMS, RUN_TAIL, SINGLE_HEAD,
    SINGLE_LAUNCH, SINGLE_LAUNCH_TAIL, SINGLE_TAIL, SINGLE_TITLE, STORE_FLAT_BASE, STORE_FLAT_EXT,
    STORE_TILED_BASE, STORE_TILED_EXT,
};
use crate::text::{dec, push_dec};

verus! {

broadcast use vstd::std_specs::hash::group_hash_axioms;

/// Threads per block of the generated kernels.
pub const GEN_BLK: u64 = 256;

/// Chunk kernels per unit.
pub const CHUNKS_PER_TU: usize = 8;

/// The texts of strings.
pub open spec fn texts(v: Seq<String>) -> Seq<Seq<char>> {
    Seq::new(v.len(), |i: int| v[i]@)
}

/// Lines joined by line breaks.
pub open spec fn joined_lines(v: Seq<Seq<char>>) -> Seq<char>
    decreases v.len(),
{
    if v.len() == 0 {
        Seq::empty()
    } else if v.len() == 1 {
        v[0]
    } else {
        joined_lines(v.drop_last()) + "\n"@ + v.last()
    }
}

/// Join lines by line breaks.
pub fn join_lines(v: &Vec<String>) -> (r: String)
    ensures
        r@ == joined_lines(texts(v@)),
{
    let mut out: String = String::new();
    let mut i: usize = 0;
    assert(texts(v@).take(0) =~= Seq::empty());
    while i < v.len()
        invariant
            i <= v@.len(),
            out@ == joined_lines(texts(v@).take(i as int)),
        decreases v@.len() - i,
    {
        let ghost t = texts(v@);
        let ghost before = out@;
        if i > 0 {
            out.append("\n");
        }
        out.append(v[i].as_str());
        proof {
            assert(t.take(i + 1).drop_last() =~= t.take(i as int));
            assert(t.take(i + 1).last() == v@[i as int]@);
            if i == 0 {
                assert(t.take(1).len() == 1);
                assert(out@ =~= t[0]);
            }
        }
        i = i + 1;
    }
    assert(texts(v@).take(i as int) =~= texts(v@));
    out
}

/// The decimal text of a signed number.
pub open spec fn idec(n: int) -> Seq<char> {
    if n < 0 {
        "-"@ + dec((-n) as nat)
    } else {
        dec(n as nat)
    }
}

/// The layout of a committed section, as the writer of the section chooses it.
pub open spec fn layout_name(n_bits: u64, n_cols: u64, tiled: bool) -> Seq<char> {
    if tiled || (n_bits <= 17 && n_cols > 500) {
        "Layout::ColMajorTiled"@
    } else {
        "Layout::ColMajor"@
    }
}

/// The layout of a committed section.
pub fn cm_layout(n_bits: u64, n_cols: u64, tiled: bool) -> (r: &'static str)
    ensures
        r@ == layout_name(n_bits, n_cols, tiled),
{
    if tiled || (n_bits <= 17 && n_cols > 500) {
        "Layout::ColMajorTiled"
    } else {
        "Layout::ColMajor"
    }
}

/// Append a number with its sign.
pub fn push_signed(out: &mut String, n: i64)
    ensures
        final(out)@ == old(out)@ + idec(n as int),
{
    let ghost before = out@;
    if n < 0 {
        let size: u64 = if n == i64::MIN {
            0x8000_0000_0000_0000u64
        } else {
            (-n) as u64
        };
        out.append("-");
        push_dec(out, size);
    } else {
        push_dec(out, n as u64);
    }
    assert(out@ =~= before + idec(n as int));
}

/// The row `stride` rows on.
pub open spec fn row_text(stride: int) -> Seq<char> {
    if stride == 0 {
        "row"@
    } else {
        "((row+("@ + idec(stride) + "ll))&MASK)"@
    }
}

/// The row `stride` rows on.
pub fn rowexpr(stride: i64) -> (r: String)
    ensures
        r@ == row_text(stride as int),
{
    if stride == 0 {
        return "row".to_owned();
    }
    let mut out: String = "((row+(".to_owned();
    push_signed(&mut out, stride);
    out.append("ll))&MASK)");
    out
}

/// Three coordinates read from an array of values.
pub open spec fn triple_text(name: Seq<char>, arr: Seq<char>, i: nat) -> Seq<char> {
    "  g3 "@ + name + "; "@ + name + ".a="@ + arr + "["@ + dec(i) + "]; "@ + name + ".b="@ + arr
        + "["@ + dec(i + 1) + "]; "@ + name + ".c="@ + arr + "["@ + dec(i + 2) + "];"@
}

fn triple_line(name: &str, arr: &str, i: u64) -> (out: String)
    requires
        i <= u64::MAX - 2,
    ensures
        out@ == triple_text(name@, arr@, i as nat),
{
    let mut out: String = "  g3 ".to_owned();
    out.append(name);
    out.append("; ");
    out.append(name);
    out.append(".a=");
    out.append(arr);
    out.append("[");
    push_dec(&mut out, i);
    out.append("]; ");
    out.append(name);
    out.append(".b=");
    out.append(arr);
    out.append("[");
    push_dec(&mut out, i + 1);
    out.append("]; ");
    out.append(name);
    out.append(".c=");
    out.append(arr);
    out.append("[");
    push_dec(&mut out, i + 2);
    out.append("];");
    out
}

/// One coordinate read from an array of values.
pub open spec fn single_text(name: Seq<char>, arr: Seq<char>, i: nat) -> Seq<char> {
    "  gl64_t "@ + name + " = "@ + arr + "["@ + dec(i) + "];"@
}

fn single_line(name: &str, arr: &str, i: u64) -> (out: String)
    ensures
        out@ == single_text(name@, arr@, i as nat),
{
    let mut out: String = "  gl64_t ".to_owned();
    out.append(name);
    out.append(" = ");
    out.append(arr);
    out.append("[");
    push_dec(&mut out, i);
    out.append("];");
    out
}

/// The cell of a committed section.
pub open spec fn cell_text(
    row: Seq<char>,
    pos: nat,
    n_cols: nat,
    layout: Seq<char>,
) -> Seq<char> {
    "OFF("@ + row + ","@ + dec(pos) + ",NExt,"@ + dec(n_cols) + ","@ + layout + ")]"@
}

fn push_cell(out: &mut String, row: &str, pos: u64, n_cols: u64, layout: &str)
    ensures
        final(out)@ == old(out)@ + cell_text(row@, pos as nat, n_cols as nat, layout@),
{
    let ghost before = out@;
    let mut cell: String = "OFF(".to_owned();
    cell.append(row);
    cell.append(",");
    push_dec(&mut cell, pos);
    cell.append(",NExt,");
    push_dec(&mut cell, n_cols);
    cell.append(",");
    cell.append(layout);
    cell.append(")]");
    out.append(cell.as_str());
}

/// The line that loads an operand, other than a temporary, into a local.
pub open spec fn load_text(
    o: Operand,
    name: Seq<char>,
    n_constants: u64,
    n_bits: u64,
    ncols: Map<u64, u64>,
    tiled: bool,
) -> Seq<char> {
    match o {
        Operand::Num(v) => "  gl64_t "@ + name + "(uint64_t("@ + dec(v as nat) + "ull));"@,
        Operand::Zi => "  gl64_t "@ + name + " = aux[off_zi + row];"@,
        Operand::Pub { id } => single_text(name, "pub"@, id as nat),
        Operand::Ch { base } => triple_text(name, "ch"@, base as nat),
        Operand::Av { pos, dim } => if dim == 1 {
            single_text(name, "av"@, pos as nat)
        } else {
            triple_text(name, "av"@, pos as nat)
        },
        Operand::Agv { pos, dim } => if dim == 1 {
            single_text(name, "agv"@, pos as nat)
        } else {
            triple_text(name, "agv"@, pos as nat)
        },
        Operand::Const { id, stride } => "  gl64_t "@ + name + " = cst["@ + cell_text(
            row_text(stride as int),
            id as nat,
            n_constants as nat,
            "Layout::ColMajorTiled"@,
        ) + ";"@,
        Operand::Cm { stage, pos, dim, stride } => {
            let row = row_text(stride as int);
            let n = ncols[stage] as nat;
            let layout = layout_name(n_bits, ncols[stage], tiled);
            if dim == 1 {
                "  gl64_t "@ + name + " = aux[off_cm"@ + dec(stage as nat) + " + "@ + cell_text(
                    row,
                    pos as nat,
                    n,
                    layout,
                ) + ";"@
            } else {
                "  g3 "@ + name + "; "@ + name + ".a=aux[off_cm"@ + dec(stage as nat) + "+"@
                    + cell_text(row, pos as nat, n, layout) + "; "@ + name + ".b=aux[off_cm"@ + dec(
                    stage as nat,
                ) + "+"@ + cell_text(row, (pos + 1) as nat, n, layout) + "; "@ + name
                    + ".c=aux[off_cm"@ + dec(stage as nat) + "+"@ + cell_text(
                    row,
                    (pos + 2) as nat,
                    n,
                    layout,
                ) + ";"@
            }
        },
        Operand::Tmp { id, dim } => Seq::empty(),
    }
}

/// The line that loads an operand, other than a temporary, into a local.
pub fn load_line(o: &Operand, name: &str, ir: &Ir, tiled: bool) -> (out: String)
    requires
        operand_ok(*o, ir.ncols@),
        !(o is Tmp),
    ensures
        out@ == load_text(*o, name@, ir.n_constants, ir.n_bits, ir.ncols@, tiled),
{
    match o {
        Operand::Num(v) => {
            let mut out: String = "  gl64_t ".to_owned();
            out.append(name);
            out.append("(uint64_t(");
            push_dec(&mut out, *v);
            out.append("ull));");
            out
        },
        Operand::Zi => {
            let mut out: String = "  gl64_t ".to_owned();
            out.append(name);
            out.append(" = aux[off_zi + row];");
            out
        },
        Operand::Pub { id } => single_line(name, "pub", *id),
        Operand::Ch { base } => triple_line(name, "ch", *base),
        Operand::Av { pos, dim } => if *dim == 1 {
            single_line(name, "av", *pos)
        } else {
            triple_line(name, "av", *pos)
        },
        Operand::Agv { pos, dim } => if *dim == 1 {
            single_line(name, "agv", *pos)
        } else {
            triple_line(name, "agv", *pos)
        },
        Operand::Const { id, stride } => {
            let row: String = rowexpr(*stride);
            let mut out: String = "  gl64_t ".to_owned();
            out.append(name);
            out.append(" = cst[");
            push_cell(&mut out, row.as_str(), *id, ir.n_constants, "Layout::ColMajorTiled");
            out.append(";");
            out
        },
        Operand::Cm { stage, pos, dim, stride } => {
            let row: String = rowexpr(*stride);
            let n_cols: u64 = *ir.ncols.get(stage).unwrap();
            let layout: &'static str = cm_layout(ir.n_bits, n_cols, tiled);
            if *dim == 1 {
                let mut out: String = "  gl64_t ".to_owned();
                out.append(name);
                out.append(" = aux[off_cm");
                push_dec(&mut out, *stage);
                out.append(" + ");
                push_cell(&mut out, row.as_str(), *pos, n_cols, layout);
                out.append(";");
                out
            } else {
                let mut out: String = "  g3 ".to_owned();
                out.append(name);
                out.append("; ");
                out.append(name);
                out.append(".a=aux[off_cm");
                push_dec(&mut out, *stage);
                out.append("+");
                push_cell(&mut out, row.as_str(), *pos, n_cols, layout);
                out.append("; ");
                out.append(name);
                out.append(".b=aux[off_cm");
                push_dec(&mut out, *stage);
                out.append("+");
                push_cell(&mut out, row.as_str(), *pos + 1, n_cols, layout);
                out.append("; ");
                out.append(name);
                out.append(".c=aux[off_cm");
                push_dec(&mut out, *stage);
                out.append("+");
                push_cell(&mut out, row.as_str(), *pos + 2, n_cols, layout);
                out.append(";");
                out
            }
        },
        Operand::Tmp { id: _, dim: _ } => String::new(),
    }
}

/// What an operand is called: the temporary, or the local it was loaded into.
pub open spec fn value_text(o: Operand, prefix: Seq<char>, idx: nat) -> Seq<char> {
    match o {
        Operand::Tmp { id, dim } => "t"@ + dec(id as nat),
        _ => prefix + dec(idx),
    }
}

fn value_name(o: &Operand, prefix: &str, idx: u64) -> (out: String)
    ensures
        out@ == value_text(*o, prefix@, idx as nat),
{
    match o {
        Operand::Tmp { id, dim: _ } => {
            let mut out: String = "t".to_owned();
            push_dec(&mut out, *id);
            out
        },
        _ => {
            let mut out: String = prefix.to_owned();
            push_dec(&mut out, idx);
            out
        },
    }
}

/// The sign of an operation.
pub open spec fn op_sign(op: Op) -> Seq<char> {
    match op {
        Op::Add => "+"@,
        Op::Sub => "-"@,
        Op::Mul => "*"@,
    }
}

fn op_symbol(op: Op) -> (r: &'static str)
    ensures
        r@ == op_sign(op),
{
    match op {
        Op::Add => "+",
        Op::Sub => "-",
        Op::Mul => "*",
    }
}

/// The name of an operation.
pub open spec fn op_word(op: Op) -> Seq<char> {
    match op {
        Op::Add => "add"@,
        Op::Sub => "sub"@,
        Op::Mul => "mul"@,
    }
}

fn op_name(op: Op) -> (r: &'static str)
    ensures
        r@ == op_word(op),
{
    match op {
        Op::Add => "add",
        Op::Sub => "sub",
        Op::Mul => "mul",
    }
}

/// The destination of an instruction.
pub open spec fn dst_text(i: Instr) -> Seq<char> {
    if i.dst_is_tmp {
        "t"@ + dec(i.dst_id->0 as nat)
    } else {
        "qq"@
    }
}

/// The declaration that a destination needs: none where its temporary is declared.
pub open spec fn decl_text(i: Instr, declared: Set<u64>) -> Seq<char> {
    if i.dst_is_tmp && declared.contains(i.dst_id->0) {
        ""@
    } else if i.ddim == 1 {
        "gl64_t "@
    } else {
        "g3 "@
    }
}

/// The line that performs an instruction.
pub open spec fn compute_text(i: Instr, declared: Set<u64>) -> Seq<char> {
    let a = value_text(i.a, "a"@, i.idx as nat);
    let b = value_text(i.b, "b"@, i.idx as nat);
    if i.ddim == 1 {
        "  "@ + decl_text(i, declared) + dst_text(i) + " = "@ + a + " "@ + op_sign(i.op) + " "@ + b
            + ";"@
    } else {
        "  "@ + decl_text(i, declared) + dst_text(i) + " = cg_"@ + op_word(i.op) + dec(
            operand_dim(i.a) as nat,
        ) + dec(operand_dim(i.b) as nat) + "("@ + a + ","@ + b + ");"@
    }
}

/// The lines of an instruction: the loads of operands that are no temporaries, then the
/// computation.
pub open spec fn op_lines(ir: Ir, i: Instr, declared: Set<u64>, tiled: bool) -> Seq<Seq<char>> {
    (if i.a is Tmp {
        Seq::empty()
    } else {
        seq![
            load_text(
                i.a,
                "a"@ + dec(i.idx as nat),
                ir.n_constants,
                ir.n_bits,
                ir.ncols@,
                tiled,
            ),
        ]
    }) + (if i.b is Tmp {
        Seq::empty()
    } else {
        seq![
            load_text(
                i.b,
                "b"@ + dec(i.idx as nat),
                ir.n_constants,
                ir.n_bits,
                ir.ncols@,
                tiled,
            ),
        ]
    }) + seq![compute_text(i, declared)]
}

fn contains_id(v: &Vec<u64>, x: u64) -> (r: bool)
    ensures
        r == v@.contains(x),
{
    let mut i: usize = 0;
    while i < v.len()
        invariant
            i <= v@.len(),
            forall|j: int| 0 <= j < i ==> v@[j] != x,
        decreases v@.len() - i,
    {
        if v[i] == x {
            return true;
        }
        i = i + 1;
    }
    false
}

proof fn lemma_push_text(v: Seq<String>, s: String)
    ensures
        texts(v.push(s)) == texts(v).push(s@),
{
    assert(texts(v.push(s)) =~= texts(v).push(s@));
}

/// Append the lines of an instruction.
fn emit_op(lines: &mut Vec<String>, i: &Instr, ir: &Ir, declared: &Vec<u64>, tiled: bool)
    requires
        instr_ok(*i, ir.ncols@),
    ensures
        texts(final(lines)@) == texts(old(lines)@) + op_lines(*ir, *i, declared@.to_set(), tiled),
{
    let ghost start = texts(lines@);
    let a_val: String = value_name(&i.a, "a", i.idx);
    let b_val: String = value_name(&i.b, "b", i.idx);
    if i.a.as_tmp().is_none() {
        let line: String = load_line(&i.a, a_val.as_str(), ir, tiled);
        proof {
            lemma_push_text(lines@, line);
        }
        lines.push(line);
    }
    let ghost mid = texts(lines@);
    if i.b.as_tmp().is_none() {
        let line: String = load_line(&i.b, b_val.as_str(), ir, tiled);
        proof {
            lemma_push_text(lines@, line);
        }
        lines.push(line);
    }
    let known: bool = match i.dst_id {
        Some(id) => contains_id(declared, id),
        None => false,
    };
    let decl: &'static str = if i.dst_is_tmp && known {
        ""
    } else if i.ddim == 1 {
        "gl64_t "
    } else {
        "g3 "
    };
    let dst: String = match i.dst_id {
        Some(id) => if i.dst_is_tmp {
            let mut d: String = "t".to_owned();
            push_dec(&mut d, id);
            d
        } else {
            "qq".to_owned()
        },
        None => "qq".to_owned(),
    };
    assert(dst@ == dst_text(*i));
    assert(decl@ == decl_text(*i, declared@.to_set()));
    let mut out: String = "  ".to_owned();
    out.append(decl);
    out.append(dst.as_str());
    if i.ddim == 1 {
        out.append(" = ");
        out.append(a_val.as_str());
        out.append(" ");
        out.append(op_symbol(i.op));
        out.append(" ");
        out.append(b_val.as_str());
        out.append(";");
    } else {
        out.append(" = cg_");
        out.append(op_name(i.op));
        push_dec(&mut out, i.a.dim());
        push_dec(&mut out, i.b.dim());
        out.append("(");
        out.append(a_val.as_str());
        out.append(",");
        out.append(b_val.as_str());
        out.append(");");
    }
    proof {
        lemma_push_text(lines@, out);
    }
    lines.push(out);
    assert(texts(lines@) =~= start + op_lines(*ir, *i, declared@.to_set(), tiled));
}

/// The temporaries declared after a run of instructions.
pub open spec fn declared_after(ops: Seq<Instr>, declared: Set<u64>) -> Set<u64>
    decreases ops.len(),
{
    if ops.len() == 0 {
        declared
    } else {
        let before = declared_after(ops.drop_last(), declared);
        if ops.last().dst_is_tmp {
            before.insert(ops.last().dst_id->0)
        } else {
            before
        }
    }
}

/// The lines of a run of instructions.
pub open spec fn body_lines(ir: Ir, ops: Seq<Instr>, declared: Set<u64>, tiled: bool) -> Seq<
    Seq<char>,
>
    decreases ops.len(),
{
    if ops.len() == 0 {
        Seq::empty()
    } else {
        body_lines(ir, ops.drop_last(), declared, tiled) + op_lines(
            ir,
            ops.last(),
            declared_after(ops.drop_last(), declared),
            tiled,
        )
    }
}

/// Append the lines of the instructions `lo..hi`.
fn emit_body(
    lines: &mut Vec<String>,
    ir: &Ir,
    lo: usize,
    hi: usize,
    declared: &mut Vec<u64>,
    tiled: bool,
)
    requires
        ir_ok(*ir),
        lo <= hi <= ir.instrs@.len(),
    ensures
        texts(final(lines)@) == texts(old(lines)@) + body_lines(
            *ir,
            ir.instrs@.subrange(lo as int, hi as int),
            old(declared)@.to_set(),
            tiled,
        ),
{
    let ghost d0 = declared@.to_set();
    let ghost t0 = texts(lines@);
    let mut k: usize = lo;
    proof {
        assert(ir.instrs@.subrange(lo as int, lo as int) =~= Seq::empty());
        assert(texts(lines@) =~= t0 + Seq::empty());
    }
    while k < hi
        invariant
            ir_ok(*ir),
            lo <= k <= hi <= ir.instrs@.len(),
            declared@.to_set() == declared_after(ir.instrs@.subrange(lo as int, k as int), d0),
            texts(lines@) == t0 + body_lines(
                *ir,
                ir.instrs@.subrange(lo as int, k as int),
                d0,
                tiled,
            ),
        decreases hi - k,
    {
        let ghost ops = ir.instrs@.subrange(lo as int, k + 1);
        proof {
            assert(ops.drop_last() =~= ir.instrs@.subrange(lo as int, k as int));
            assert(ops.last() == ir.instrs@[k as int]);
        }
        let i: &Instr = &ir.instrs[k];
        let ghost before = texts(lines@);
        emit_op(lines, i, ir, declared, tiled);
        assert(texts(lines@) =~= t0 + body_lines(*ir, ops, d0, tiled));
        if i.dst_is_tmp {
            let ghost d = declared@;
            match i.dst_id {
                Some(id) => {
                    declared.push(id);
                    proof {
                        assert(declared@.to_set() =~= d.to_set().insert(id)) by {
                            assert forall|x: u64|
                                declared@.to_set().contains(x) == d.to_set().insert(id).contains(
                                    x,
                                ) by {
                                if d.contains(x) {
                                    let j = choose|j: int| 0 <= j < d.len() && d[j] == x;
                                    assert(declared@[j] == x);
                                }
                                assert(declared@.last() == id);
                            }
                        }
                    }
                },
                None => {},
            }
        }
        k = k + 1;
    }
}

/// The line that writes the result into the quotient.
pub open spec fn store_text(out_dim: u64, tiled: bool) -> Seq<char> {
    if tiled {
        if out_dim == 3 {
            STORE_TILED_EXT@
        } else {
            STORE_TILED_BASE@
        }
    } else {
        if out_dim == 3 {
            STORE_FLAT_EXT@
        } else {
            STORE_FLAT_BASE@
        }
    }
}

/// The line that writes the result into the quotient.
pub fn store_qq(out_dim: u64, tiled: bool) -> (r: &'static str)
    ensures
        r@ == store_text(out_dim, tiled),
{
    match (tiled, out_dim == 3) {
        (false, true) => STORE_FLAT_EXT,
        (false, false) => STORE_FLAT_BASE,
        (true, true) => STORE_TILED_EXT,
        (true, false) => STORE_TILED_BASE,
    }
}

/// The fixed C interface of a generated library.
pub open spec fn abi_text(sym: Seq<char>, n_slots: nat) -> Seq<char> {
    ABI_LAUNCH@ + sym + ABI_SCRATCH@ + dec(n_slots) + " * "@ + dec(GEN_BLK as nat) + "ull; }"@
}

/// The fixed C interface of a generated library.
pub fn c_abi_exports(sym: &str, n_slots: u64) -> (out: String)
    ensures
        out@ == abi_text(sym@, n_slots as nat),
{
    let mut out: String = ABI_LAUNCH.to_owned();
    out.append(sym);
    out.append(ABI_SCRATCH);
    push_dec(&mut out, n_slots);
    out.append(" * ");
    push_dec(&mut out, GEN_BLK);
    out.append("ull; }");
    out
}

/// The unit of a program that fits one kernel: kernel, launcher and interface.
pub open spec fn single_unit_text(
    sym: Seq<char>,
    kernel: Seq<char>,
    launch: Seq<char>,
    n_slots: nat,
) -> Seq<char> {
    SINGLE_TITLE@ + sym + SINGLE_HEAD@ + kernel + LAUNCH_NAME@ + sym + LAUNCH_PARAMS@ + launch
        + SINGLE_TAIL@ + abi_text(sym, n_slots) + "\n"@
}

/// The unit of a program that fits one kernel.
pub fn single_kernel_tu(sym: &str, kernel: &str, launcher_body: &str, n_slots: u64) -> (out: String)
    ensures
        out@ == single_unit_text(sym@, kernel@, launcher_body@, n_slots as nat),
{
    let mut out: String = SINGLE_TITLE.to_owned();
    out.append(sym);
    out.append(SINGLE_HEAD);
    out.append(kernel);
    out.append(LAUNCH_NAME);
    out.append(sym);
    out.append(LAUNCH_PARAMS);
    out.append(launcher_body);
    out.append(SINGLE_TAIL);
    let abi: String = c_abi_exports(sym, n_slots);
    out.append(abi.as_str());
    out.append("\n");
    out
}

/// The host wrapper that launches chunk `i`.
pub open spec fn run_text(sym: Seq<char>, i: nat) -> Seq<char> {
    RUN_NAME@ + sym + "_c"@ + dec(i) + RUN_PARAMS@ + sym + "_c"@ + dec(i) + RUN_TAIL@
}

fn run_wrapper(sym: &str, i: u64) -> (out: String)
    ensures
        out@ == run_text(sym@, i as nat),
{
    let mut out: String = RUN_NAME.to_owned();
    out.append(sym);
    out.append("_c");
    push_dec(&mut out, i);
    out.append(RUN_PARAMS);
    out.append(sym);
    out.append("_c");
    push_dec(&mut out, i);
    out.append(RUN_TAIL);
    out
}

/// Each kernel of `lo..hi` with its host wrapper behind it.
pub open spec fn chunk_parts(sym: Seq<char>, kernels: Seq<Seq<char>>, lo: int, hi: int) -> Seq<
    Seq<char>,
> {
    Seq::new(
        (2 * (hi - lo)) as nat,
        |k: int|
            if k % 2 == 0 {
                kernels[lo + k / 2]
            } else {
                run_text(sym, (lo + k / 2) as nat)
            },
    )
}

/// A unit of chunk kernels.
pub open spec fn chunk_unit_text(
    sym: Seq<char>,
    kernels: Seq<Seq<char>>,
    lo: int,
    hi: int,
) -> Seq<char> {
    CHUNK_TITLE@ + dec(lo as nat) + ".."@ + dec((hi - 1) as nat) + " for "@ + sym + CHUNK_HEAD@
        + joined_lines(chunk_parts(sym, kernels, lo, hi)) + CHUNK_TAIL@
}

/// The unit of the chunk kernels `lo..hi`.
pub fn chunk_tu(sym: &str, lo: usize, hi: usize, kernels: &Vec<String>) -> (out: String)
    requires
        lo < hi <= kernels@.len(),
    ensures
        out@ == chunk_unit_text(sym@, texts(kernels@), lo as int, hi as int),
{
    let mut parts: Vec<String> = Vec::new();
    let mut i: usize = lo;
    assert(texts(parts@) =~= chunk_parts(sym@, texts(kernels@), lo as int, lo as int));
    while i < hi
        invariant
            lo <= i <= hi <= kernels@.len(),
            texts(parts@) == chunk_parts(sym@, texts(kernels@), lo as int, i as int),
        decreases hi - i,
    {
        let kernel: String = kernels[i].as_str().to_owned();
        let wrapper: String = run_wrapper(sym, i as u64);
        let ghost before = parts@;
        proof {
            lemma_push_text(before, kernel);
            lemma_push_text(before.push(kernel), wrapper);
        }
        parts.push(kernel);
        parts.push(wrapper);
        assert(texts(parts@) =~= chunk_parts(sym@, texts(kernels@), lo as int, i + 1));
        i = i + 1;
    }
    let mut out: String = CHUNK_TITLE.to_owned();
    push_dec(&mut out, lo as u64);
    out.append("..");
    push_dec(&mut out, (hi - 1) as u64);
    out.append(" for ");
    out.append(sym);
    out.append(CHUNK_HEAD);
    let body: String = join_lines(&parts);
    out.append(body.as_str());
    out.append(CHUNK_TAIL);
    out
}

/// The declaration of the host wrapper of chunk `i`.
pub open spec fn decl_run_text(sym: Seq<char>, i: nat) -> Seq<char> {
    RUN_NAME@ + sym + "_c"@ + dec(i) + DECL_PARAMS@
}

/// The call of the host wrapper of chunk `i`.
pub open spec fn call_run_text(sym: Seq<char>, i: nat) -> Seq<char> {
    "    run_"@ + sym + "_c"@ + dec(i) + CALL_PARAMS@
}

/// The launcher unit: it declares every host wrapper, and calls them in order for each wave.
pub open spec fn launcher_text(sym: Seq<char>, n_chunks: nat, slots: nat) -> Seq<char> {
    LAUNCHER_TITLE@ + sym + LAUNCHER_TEMPS@ + dec(slots) + ", "@ + dec(n_chunks) + LAUNCHER_HEAD@
        + joined_lines(Seq::new(n_chunks, |i: int| decl_run_text(sym, i as nat))) + LAUNCHER_NAME@
        + sym + LAUNCHER_PARAMS@ + dec(GEN_BLK as nat) + LAUNCHER_GRID@ + dec(slots)
        + LAUNCHER_FITS@ + dec(slots) + LAUNCHER_LOOP@ + joined_lines(
        Seq::new(n_chunks, |i: int| call_run_text(sym, i as nat)),
    ) + LAUNCHER_TAIL@ + abi_text(sym, slots) + "\n"@
}

/// The launcher unit.
pub fn launcher_tu(sym: &str, n_chunks: usize, total_slots: u64) -> (out: String)
    ensures
        out@ == launcher_text(sym@, n_chunks as nat, total_slots as nat),
{
    let mut decls: Vec<String> = Vec::new();
    let mut calls: Vec<String> = Vec::new();
    let mut i: usize = 0;
    proof {
        assert(texts(decls@) =~= Seq::new(0, |i: int| decl_run_text(sym@, i as nat)));
        assert(texts(calls@) =~= Seq::new(0, |i: int| call_run_text(sym@, i as nat)));
    }
    while i < n_chunks
        invariant
            i <= n_chunks,
            texts(decls@) == Seq::new(i as nat, |i: int| decl_run_text(sym@, i as nat)),
            texts(calls@) == Seq::new(i as nat, |i: int| call_run_text(sym@, i as nat)),
        decreases n_chunks - i,
    {
        let mut decl: String = RUN_NAME.to_owned();
        decl.append(sym);
        decl.append("_c");
        push_dec(&mut decl, i as u64);
        decl.append(DECL_PARAMS);
        let mut call: String = "    run_".to_owned();
        call.append(sym);
        call.append("_c");
        push_dec(&mut call, i as u64);
        call.append(CALL_PARAMS);
        proof {
            lemma_push_text(decls@, decl);
            lemma_push_text(calls@, call);
        }
        decls.push(decl);
        calls.push(call);
        proof {
            assert(texts(decls@) =~= Seq::new(
                (i + 1) as nat,
                |i: int| decl_run_text(sym@, i as nat),
            ));
            assert(texts(calls@) =~= Seq::new(
                (i + 1) as nat,
                |i: int| call_run_text(sym@, i as nat),
            ));
        }
        i = i + 1;
    }
    let mut out: String = LAUNCHER_TITLE.to_owned();
    out.append(sym);
    out.append(LAUNCHER_TEMPS);
    push_dec(&mut out, total_slots);
    out.append(", ");
    push_dec(&mut out, n_chunks as u64);
    out.append(LAUNCHER_HEAD);
    let decls_text: String = join_lines(&decls);
    out.append(decls_text.as_str());
    out.append(LAUNCHER_NAME);
    out.append(sym);
    out.append(LAUNCHER_PARAMS);
    push_dec(&mut out, GEN_BLK);
    out.append(LAUNCHER_GRID);
    push_dec(&mut out, total_slots);
    out.append(LAUNCHER_FITS);
    push_dec(&mut out, total_slots);
    out.append(LAUNCHER_LOOP);
    let calls_text: String = join_lines(&calls);
    out.append(calls_text.as_str());
    out.append(LAUNCHER_TAIL);
    let abi: String = c_abi_exports(sym, total_slots);
    out.append(abi.as_str());
    out.append("\n");
    out
}

/// Some instruction reads the temporary.
pub open spec fn is_used(ops: Seq<Instr>, id: u64) -> bool {
    exists|k: int| 0 <= k < ops.len() && reads(#[trigger] ops[k], id)
}

/// The instruction reads the temporary.
pub open spec fn reads(i: Instr, id: u64) -> bool {
    (match i.a {
        Operand::Tmp { id: a, dim } => a == id,
        _ => false,
    }) || (match i.b {
        Operand::Tmp { id: b, dim } => b == id,
        _ => false,
    })
}

fn op_reads(i: &Instr, id: u64) -> (r: bool)
    ensures
        r == reads(*i, id),
{
    let a: bool = match i.a.as_tmp() {
        Some((t, _)) => t == id,
        None => false,
    };
    let b: bool = match i.b.as_tmp() {
        Some((t, _)) => t == id,
        None => false,
    };
    a || b
}

fn temp_is_used(ir: &Ir, lo: usize, hi: usize, id: u64) -> (r: bool)
    requires
        lo <= hi <= ir.instrs@.len(),
    ensures
        r == is_used(ir.instrs@.subrange(lo as int, hi as int), id),
{
    let ghost ops = ir.instrs@.subrange(lo as int, hi as int);
    let mut k: usize = lo;
    while k < hi
        invariant
            lo <= k <= hi <= ir.instrs@.len(),
            ops == ir.instrs@.subrange(lo as int, hi as int),
            forall|j: int| 0 <= j < k - lo ==> !reads(#[trigger] ops[j], id),
        decreases hi - k,
    {
        assert(ops[k - lo] == ir.instrs@[k as int]);
        if op_reads(&ir.instrs[k], id) {
            return true;
        }
        k = k + 1;
    }
    false
}

/// The first instruction of chunk `c`.
pub open spec fn chunk_start(plan: ChunkPlan, c: int) -> int {
    c * plan.chunk
}

/// The end of chunk `c` in a program of `n` instructions.
pub open spec fn chunk_end(plan: ChunkPlan, c: int, n: int) -> int {
    if (c + 1) * plan.chunk <= n {
        (c + 1) * plan.chunk
    } else {
        n
    }
}

/// The instructions of chunk `c`.
pub open spec fn chunk_ops(plan: ChunkPlan, ir: Ir, c: int) -> Seq<Instr> {
    ir.instrs@.subrange(chunk_start(plan, c), chunk_end(plan, c, ir.instrs@.len() as int))
}

/// The temporaries that chunk `c` reads and an earlier chunk computes.
pub open spec fn live_in(plan: ChunkPlan, ir: Ir, c: int) -> Seq<CutTemp> {
    plan.cut_temps@.filter(
        |t: CutTemp| is_used(chunk_ops(plan, ir, c), t.id) && t.def_chunk < c,
    )
}

/// The temporaries that chunk `c` computes for later ones.
pub open spec fn live_out(plan: ChunkPlan, c: int) -> Seq<CutTemp> {
    plan.cut_temps@.filter(|t: CutTemp| t.def_chunk == c)
}

proof fn lemma_filter_step(s: Seq<CutTemp>, k: int, p: spec_fn(CutTemp) -> bool)
    requires
        0 <= k < s.len(),
    ensures
        s.take(k + 1).filter(p) == if p(s[k]) {
            s.take(k).filter(p).push(s[k])
        } else {
            s.take(k).filter(p)
        },
{
    reveal(Seq::filter);
    assert(s.take(k + 1).drop_last() =~= s.take(k));
    assert(s.take(k + 1).last() == s[k]);
}

fn temps_in(plan: &ChunkPlan, ir: &Ir, c: usize, lo: usize, hi: usize) -> (r: Vec<CutTemp>)
    requires
        lo <= hi <= ir.instrs@.len(),
        lo == chunk_start(*plan, c as int),
        hi == chunk_end(*plan, c as int, ir.instrs@.len() as int),
    ensures
        r@ == live_in(*plan, *ir, c as int),
{
    let ghost p = |t: CutTemp| is_used(chunk_ops(*plan, *ir, c as int), t.id) && t.def_chunk < c;
    let mut out: Vec<CutTemp> = Vec::new();
    let mut k: usize = 0;
    proof {
        reveal(Seq::filter);
        assert(plan.cut_temps@.take(0).filter(p) =~= Seq::empty());
    }
    while k < plan.cut_temps.len()
        invariant
            k <= plan.cut_temps@.len(),
            lo <= hi <= ir.instrs@.len(),
            lo == chunk_start(*plan, c as int),
            hi == chunk_end(*plan, c as int, ir.instrs@.len() as int),
            p == (|t: CutTemp|
                is_used(chunk_ops(*plan, *ir, c as int), t.id) && t.def_chunk < c),
            out@ == plan.cut_temps@.take(k as int).filter(p),
        decreases plan.cut_temps@.len() - k,
    {
        let t: CutTemp = plan.cut_temps[k];
        proof {
            lemma_filter_step(plan.cut_temps@, k as int, p);
        }
        if t.def_chunk < c && temp_is_used(ir, lo, hi, t.id) {
            out.push(t);
        }
        k = k + 1;
    }
    assert(plan.cut_temps@.take(k as int) =~= plan.cut_temps@);
    out
}

fn temps_out(plan: &ChunkPlan, c: usize) -> (r: Vec<CutTemp>)
    ensures
        r@ == live_out(*plan, c as int),
{
    let ghost p = |t: CutTemp| t.def_chunk == c;
    let mut out: Vec<CutTemp> = Vec::new();
    let mut k: usize = 0;
    proof {
        reveal(Seq::filter);
        assert(plan.cut_temps@.take(0).filter(p) =~= Seq::empty());
    }
    while k < plan.cut_temps.len()
        invariant
            k <= plan.cut_temps@.len(),
            p == (|t: CutTemp| t.def_chunk == c),
            out@ == plan.cut_temps@.take(k as int).filter(p),
        decreases plan.cut_temps@.len() - k,
    {
        let t: CutTemp = plan.cut_temps[k];
        proof {
            lemma_filter_step(plan.cut_temps@, k as int, p);
        }
        if t.def_chunk == c {
            out.push(t);
        }
        k = k + 1;
    }
    assert(plan.cut_temps@.take(k as int) =~= plan.cut_temps@);
    out
}

/// The line that reads a temporary from its scratch slot.
pub open spec fn fetch_text(t: CutTemp) -> Seq<char> {
    let n = "t"@ + dec(t.id as nat);
    let s = t.slot as nat;
    if t.dim == 1 {
        "  gl64_t "@ + n + " = scratch["@ + dec(s) + "ull*WAVE + lo_];"@
    } else {
        "  g3 "@ + n + "; "@ + n + ".a=scratch["@ + dec(s) + "ull*WAVE+lo_]; "@ + n
            + ".b=scratch["@ + dec(s + 1) + "ull*WAVE+lo_]; "@ + n + ".c=scratch["@ + dec(s + 2)
            + "ull*WAVE+lo_];"@
    }
}

fn fetch_line(t: &CutTemp) -> (out: String)
    requires
        temp_fits(*t),
    ensures
        out@ == fetch_text(*t),
{
    let mut n: String = "t".to_owned();
    push_dec(&mut n, t.id);
    if t.dim == 1 {
        let mut out: String = "  gl64_t ".to_owned();
        out.append(n.as_str());
        out.append(" = scratch[");
        push_dec(&mut out, t.slot);
        out.append("ull*WAVE + lo_];");
        out
    } else {
        let mut out: String = "  g3 ".to_owned();
        out.append(n.as_str());
        out.append("; ");
        out.append(n.as_str());
        out.append(".a=scratch[");
        push_dec(&mut out, t.slot);
        out.append("ull*WAVE+lo_]; ");
        out.append(n.as_str());
        out.append(".b=scratch[");
        push_dec(&mut out, t.slot + 1);
        out.append("ull*WAVE+lo_]; ");
        out.append(n.as_str());
        out.append(".c=scratch[");
        push_dec(&mut out, t.slot + 2);
        out.append("ull*WAVE+lo_];");
        out
    }
}

/// The line that writes a temporary to its scratch slot.
pub open spec fn spill_text(t: CutTemp) -> Seq<char> {
    let n = "t"@ + dec(t.id as nat);
    let s = t.slot as nat;
    if t.dim == 1 {
        "  scratch["@ + dec(s) + "ull*WAVE + lo_] = "@ + n + ";"@
    } else {
        "  scratch["@ + dec(s) + "ull*WAVE+lo_]="@ + n + ".a; scratch["@ + dec(s + 1)
            + "ull*WAVE+lo_]="@ + n + ".b; scratch["@ + dec(s + 2) + "ull*WAVE+lo_]="@ + n + ".c;"@
    }
}

fn spill_line(t: &CutTemp) -> (out: String)
    requires
        temp_fits(*t),
    ensures
        out@ == spill_text(*t),
{
    let mut n: String = "t".to_owned();
    push_dec(&mut n, t.id);
    let mut out: String = "  scratch[".to_owned();
    push_dec(&mut out, t.slot);
    if t.dim == 1 {
        out.append("ull*WAVE + lo_] = ");
        out.append(n.as_str());
        out.append(";");
    } else {
        out.append("ull*WAVE+lo_]=");
        out.append(n.as_str());
        out.append(".a; scratch[");
        push_dec(&mut out, t.slot + 1);
        out.append("ull*WAVE+lo_]=");
        out.append(n.as_str());
        out.append(".b; scratch[");
        push_dec(&mut out, t.slot + 2);
        out.append("ull*WAVE+lo_]=");
        out.append(n.as_str());
        out.append(".c;");
    }
    out
}

/// The temporaries by id.
pub open spec fn temp_ids(v: Seq<CutTemp>) -> Seq<u64> {
    v.map_values(|t: CutTemp| t.id)
}

/// The lines of chunk `c`: it fetches what it needs, runs its instructions, spills what later
/// chunks need; the last chunk stores the result.
pub open spec fn chunk_lines(plan: ChunkPlan, ir: Ir, c: int, tiled: bool) -> Seq<Seq<char>> {
    live_in(plan, ir, c).map_values(|t: CutTemp| fetch_text(t)) + body_lines(
        ir,
        chunk_ops(plan, ir, c),
        temp_ids(live_in(plan, ir, c)).to_set(),
        tiled,
    ) + live_out(plan, c).map_values(|t: CutTemp| spill_text(t)) + (if c == plan.n_chunks - 1 {
        seq![store_text(plan.out_dim, tiled)]
    } else {
        Seq::empty()
    })
}

/// The kernel of chunk `c`.
pub open spec fn chunk_kernel_text(
    plan: ChunkPlan,
    ir: Ir,
    sym: Seq<char>,
    c: int,
    tiled: bool,
) -> Seq<char> {
    KERNEL_NAME@ + sym + "_c"@ + dec(c as nat) + KERNEL_CHUNK@ + joined_lines(
        chunk_lines(plan, ir, c, tiled),
    ) + "\n}"@
}

proof fn lemma_filter_slots(plan: ChunkPlan, n: nat, p: spec_fn(CutTemp) -> bool)
    requires
        plan_ok(plan, n),
    ensures
        forall|i: int|
            0 <= i < plan.cut_temps@.filter(p).len() ==> temp_fits(
                #[trigger] plan.cut_temps@.filter(p)[i],
            ),
{
    let f = plan.cut_temps@.filter(p);
    assert forall|i: int| 0 <= i < f.len() implies temp_fits(#[trigger] f[i]) by {
        plan.cut_temps@.lemma_filter_contains_rev(p, f[i]);
    }
}

fn chunk_kernel(plan: &ChunkPlan, ir: &Ir, sym: &str, c: usize, tiled: bool) -> (out: String)
    requires
        ir_ok(*ir),
        plan_ok(*plan, ir.instrs@.len()),
        c < plan.n_chunks,
        plan.n_chunks > 1,
    ensures
        out@ == chunk_kernel_text(*plan, *ir, sym@, c as int, tiled),
{
    assert(0 <= c * plan.chunk <= (plan.n_chunks - 1) * plan.chunk) by (nonlinear_arith)
        requires
            0 <= c <= plan.n_chunks - 1,
            0 <= plan.chunk,
    ;
    assert(0 <= (c + 1) * plan.chunk <= plan.n_chunks * plan.chunk) by (nonlinear_arith)
        requires
            0 <= c,
            c + 1 <= plan.n_chunks,
            0 <= plan.chunk,
    ;
    assert((c + 1) * plan.chunk == c * plan.chunk + plan.chunk) by (nonlinear_arith);
    let n: usize = ir.instrs.len();
    let lo: usize = c * plan.chunk;
    let end: usize = (c + 1) * plan.chunk;
    let hi: usize = if end <= n {
        end
    } else {
        n
    };
    let fetched: Vec<CutTemp> = temps_in(plan, ir, c, lo, hi);
    let spilled: Vec<CutTemp> = temps_out(plan, c);
    let mut declared: Vec<u64> = Vec::new();
    let mut lines: Vec<String> = Vec::new();
    let ghost fetches = fetched@.map_values(|t: CutTemp| fetch_text(t));
    let ghost spills = spilled@.map_values(|t: CutTemp| spill_text(t));
    let ghost ids = temp_ids(fetched@);
    proof {
        lemma_filter_slots(
            *plan,
            ir.instrs@.len(),
            |t: CutTemp| is_used(chunk_ops(*plan, *ir, c as int), t.id) && t.def_chunk < c,
        );
        lemma_filter_slots(*plan, ir.instrs@.len(), |t: CutTemp| t.def_chunk == c);
        assert(texts(lines@) =~= fetches.take(0));
        assert(declared@ =~= ids.take(0));
    }
    let mut k: usize = 0;
    while k < fetched.len()
        invariant
            k <= fetched@.len(),
            forall|i: int|
                0 <= i < fetched@.len() ==> temp_fits(#[trigger] fetched@[i]),
            fetches == fetched@.map_values(|t: CutTemp| fetch_text(t)),
            ids == temp_ids(fetched@),
            texts(lines@) == fetches.take(k as int),
            declared@ == ids.take(k as int),
        decreases fetched@.len() - k,
    {
        let line: String = fetch_line(&fetched[k]);
        proof {
            lemma_push_text(lines@, line);
            assert(fetches.take(k + 1) =~= fetches.take(k as int).push(fetches[k as int]));
            assert(ids.take(k + 1) =~= ids.take(k as int).push(ids[k as int]));
        }
        lines.push(line);
        declared.push(fetched[k].id);
        k = k + 1;
    }
    proof {
        assert(fetches.take(k as int) =~= fetches);
        assert(ids.take(k as int) =~= ids);
    }
    emit_body(&mut lines, ir, lo, hi, &mut declared, tiled);
    let ghost mid = texts(lines@);
    let mut m: usize = 0;
    assert(mid =~= mid + spills.take(0));
    while m < spilled.len()
        invariant
            m <= spilled@.len(),
            forall|i: int|
                0 <= i < spilled@.len() ==> temp_fits(#[trigger] spilled@[i]),
            spills == spilled@.map_values(|t: CutTemp| spill_text(t)),
            texts(lines@) == mid + spills.take(m as int),
        decreases spilled@.len() - m,
    {
        let line: String = spill_line(&spilled[m]);
        proof {
            lemma_push_text(lines@, line);
            assert(mid + spills.take(m + 1) =~= (mid + spills.take(m as int)).push(
                spills[m as int],
            ));
        }
        lines.push(line);
        m = m + 1;
    }
    assert(spills.take(m as int) =~= spills);
    if c == plan.n_chunks - 1 {
        let line: String = store_qq(plan.out_dim, tiled).to_owned();
        proof {
            lemma_push_text(lines@, line);
        }
        lines.push(line);
    }
    assert(texts(lines@) =~= chunk_lines(*plan, *ir, c as int, tiled));
    let mut out: String = KERNEL_NAME.to_owned();
    out.append(sym);
    out.append("_c");
    push_dec(&mut out, c as u64);
    out.append(KERNEL_CHUNK);
    let body: String = join_lines(&lines);
    out.append(body.as_str());
    out.append("\n}");
    out
}

/// The kernel of a program that is not cut.
pub open spec fn single_kernel_text(plan: ChunkPlan, ir: Ir, sym: Seq<char>, tiled: bool) -> Seq<
    char,
> {
    KERNEL_NAME@ + sym + KERNEL_SINGLE@ + joined_lines(
        body_lines(ir, ir.instrs@, Set::empty(), tiled),
    ) + "\n"@ + store_text(plan.out_dim, tiled) + KERNEL_TAIL@
}

fn single_kernel(plan: &ChunkPlan, ir: &Ir, sym: &str, tiled: bool) -> (out: String)
    requires
        ir_ok(*ir),
    ensures
        out@ == single_kernel_text(*plan, *ir, sym@, tiled),
{
    let mut lines: Vec<String> = Vec::new();
    let mut declared: Vec<u64> = Vec::new();
    let n: usize = ir.instrs.len();
    proof {
        assert(declared@.to_set() =~= Set::empty());
        assert(ir.instrs@.subrange(0, n as int) =~= ir.instrs@);
    }
    emit_body(&mut lines, ir, 0, n, &mut declared, tiled);
    assert(texts(lines@) =~= body_lines(*ir, ir.instrs@, Set::empty(), tiled));
    let mut out: String = KERNEL_NAME.to_owned();
    out.append(sym);
    out.append(KERNEL_SINGLE);
    let body: String = join_lines(&lines);
    out.append(body.as_str());
    out.append("\n");
    out.append(store_qq(plan.out_dim, tiled));
    out.append(KERNEL_TAIL);
    out
}

/// The texts of named files.
pub open spec fn file_texts(v: Seq<(String, String)>) -> Seq<(Seq<char>, Seq<char>)> {
    Seq::new(v.len(), |i: int| (v[i].0@, v[i].1@))
}

/// The kernels of a program that is cut.
pub open spec fn kernel_texts(plan: ChunkPlan, ir: Ir, sym: Seq<char>, tiled: bool) -> Seq<
    Seq<char>,
> {
    Seq::new(plan.n_chunks as nat, |c: int| chunk_kernel_text(plan, ir, sym, c, tiled))
}

/// The number of units that hold `n` kernels.
pub open spec fn units_for(n: int) -> nat {
    ((n + CHUNKS_PER_TU - 1) / CHUNKS_PER_TU as int) as nat
}

/// The end of unit `u`.
pub open spec fn unit_end(u: int, n: int) -> int {
    if (u + 1) * CHUNKS_PER_TU <= n {
        (u + 1) * CHUNKS_PER_TU
    } else {
        n
    }
}

/// The file of unit `u`.
pub open spec fn unit_file(sym: Seq<char>, kernels: Seq<Seq<char>>, u: int) -> (
    Seq<char>,
    Seq<char>,
) {
    (
        "gen_"@ + sym + "_c"@ + dec(u as nat) + ".cu"@,
        chunk_unit_text(sym, kernels, u * CHUNKS_PER_TU, unit_end(u, kernels.len() as int)),
    )
}

/// The files of the first `n` units.
pub open spec fn unit_files(sym: Seq<char>, kernels: Seq<Seq<char>>, n: nat) -> Seq<
    (Seq<char>, Seq<char>),
> {
    Seq::new(n, |u: int| unit_file(sym, kernels, u))
}

/// The files of a program: one unit, or a launcher unit and then the units of chunk kernels.
pub open spec fn air_files(ir: Ir, plan: ChunkPlan, sym: Seq<char>, tiled: bool) -> Seq<
    (Seq<char>, Seq<char>),
> {
    if plan.n_chunks <= 1 {
        seq![
            (
                "gen_"@ + sym + ".cu"@,
                single_unit_text(
                    sym,
                    single_kernel_text(plan, ir, sym, tiled),
                    SINGLE_LAUNCH@ + sym + SINGLE_LAUNCH_TAIL@,
                    0,
                ),
            ),
        ]
    } else {
        seq![
            (
                "gen_"@ + sym + ".cu"@,
                launcher_text(sym, plan.n_chunks as nat, plan.total_slots as nat),
            ),
        ] + unit_files(
            sym,
            kernel_texts(plan, ir, sym, tiled),
            units_for(plan.n_chunks as int),
        )
    }
}

fn emit_unit(sym: &str, kernels: &Vec<String>, unit: usize) -> (r: (String, String))
    requires
        unit * CHUNKS_PER_TU < kernels@.len() <= usize::MAX - 8,
    ensures
        (r.0@, r.1@) == unit_file(sym@, texts(kernels@), unit as int),
{
    let lo: usize = unit * CHUNKS_PER_TU;
    let hi: usize = if lo + CHUNKS_PER_TU <= kernels.len() {
        lo + CHUNKS_PER_TU
    } else {
        kernels.len()
    };
    let mut name: String = "gen_".to_owned();
    name.append(sym);
    name.append("_c");
    push_dec(&mut name, unit as u64);
    name.append(".cu");
    (name, chunk_tu(sym, lo, hi, kernels))
}

fn emit_units(files: &mut Vec<(String, String)>, sym: &str, kernels: &Vec<String>)
    requires
        kernels@.len() <= usize::MAX - 8,
    ensures
        file_texts(final(files)@) == file_texts(old(files)@) + unit_files(
            sym@,
            texts(kernels@),
            units_for(kernels@.len() as int),
        ),
{
    let ghost head = file_texts(files@);
    let ghost ks = texts(kernels@);
    let mut lo: usize = 0;
    let mut unit: usize = 0;
    assert(head =~= head + unit_files(sym@, ks, 0));
    while lo < kernels.len()
        invariant
            kernels@.len() <= usize::MAX - 8,
            lo == unit * CHUNKS_PER_TU,
            unit <= units_for(kernels@.len() as int),
            ks == texts(kernels@),
            file_texts(files@) == head + unit_files(sym@, ks, unit as nat),
        decreases kernels@.len() + CHUNKS_PER_TU - lo,
    {
        let file: (String, String) = emit_unit(sym, kernels, unit);
        let ghost before = files@;
        files.push(file);
        proof {
            assert(file_texts(files@) =~= file_texts(before).push((file.0@, file.1@)));
            assert(head + unit_files(sym@, ks, (unit + 1) as nat) =~= (head + unit_files(
                sym@,
                ks,
                unit as nat,
            )).push(unit_file(sym@, ks, unit as int)));
        }
        unit = unit + 1;
        lo = lo + CHUNKS_PER_TU;
    }
}

/// The files of a program, by name and text. `tiled` says that every committed section has the
/// tiled layout.
pub fn emit_air(ir: &Ir, plan: &ChunkPlan, sym: &str, tiled: bool) -> (files: Vec<(String, String)>)
    requires
        ir_ok(*ir),
        plan_ok(*plan, ir.instrs@.len()),
    ensures
        file_texts(files@) == air_files(*ir, *plan, sym@, tiled),
{
    let mut name: String = "gen_".to_owned();
    name.append(sym);
    name.append(".cu");
    let mut files: Vec<(String, String)> = Vec::new();
    if plan.n_chunks <= 1 {
        let kernel: String = single_kernel(plan, ir, sym, tiled);
        let mut launch: String = SINGLE_LAUNCH.to_owned();
        launch.append(sym);
        launch.append(SINGLE_LAUNCH_TAIL);
        let unit: String = single_kernel_tu(sym, kernel.as_str(), launch.as_str(), 0);
        files.push((name, unit));
        assert(file_texts(files@) =~= air_files(*ir, *plan, sym@, tiled));
        return files;
    }
    let mut kernels: Vec<String> = Vec::new();
    let mut c: usize = 0;
    while c < plan.n_chunks
        invariant
            c <= plan.n_chunks,
            plan.n_chunks > 1,
            ir_ok(*ir),
            plan_ok(*plan, ir.instrs@.len()),
            texts(kernels@) == kernel_texts(*plan, *ir, sym@, tiled).take(c as int),
        decreases plan.n_chunks - c,
    {
        let kernel: String = chunk_kernel(plan, ir, sym, c, tiled);
        proof {
            lemma_push_text(kernels@, kernel);
        }
        kernels.push(kernel);
        assert(texts(kernels@) =~= kernel_texts(*plan, *ir, sym@, tiled).take(c + 1));
        c = c + 1;
    }
    assert(texts(kernels@) =~= kernel_texts(*plan, *ir, sym@, tiled));
    assert(texts(kernels@).len() == kernels@.len());
    files.push((name, launcher_tu(sym, plan.n_chunks, plan.total_slots)));
    let ghost head = file_texts(files@);
    emit_units(&mut files, sym, &kernels);
    assert(file_texts(files@) =~= air_files(*ir, *plan, sym@, tiled)) by {
        assert(head =~= seq![
            (
                "gen_"@ + sym@ + ".cu"@,
                launcher_text(sym@, plan.n_chunks as nat, plan.total_slots as nat),
            ),
        ]);
    }
    files
}

/// A temporary that crosses chunks is spilled by the chunk that computes it and fetched, from the
/// same slot, by every later chunk that reads it.
pub proof fn law_cut_temps_cross(plan: ChunkPlan, ir: Ir, t: CutTemp, c: int, tiled: bool)
    requires
        plan.cut_temps@.contains(t),
        t.def_chunk < c,
        is_used(chunk_ops(plan, ir, c), t.id),
    ensures
        chunk_lines(plan, ir, t.def_chunk as int, tiled).contains(spill_text(t)),
        chunk_lines(plan, ir, c, tiled).contains(fetch_text(t)),
{
    let p_in = |t: CutTemp| is_used(chunk_ops(plan, ir, c), t.id) && t.def_chunk < c;
    let p_out = |x: CutTemp| x.def_chunk == t.def_chunk;
    let d = t.def_chunk as int;
    let k = plan.cut_temps@.index_of(t);
    plan.cut_temps@.lemma_filter_contains(p_in, k);
    plan.cut_temps@.lemma_filter_contains(p_out, k);
    assert(plan.cut_temps@[k] == t);
    assert(live_in(plan, ir, c).contains(t));
    assert(live_out(plan, d) =~= plan.cut_temps@.filter(p_out)) by {
        assert((|x: CutTemp| x.def_chunk == d) =~= p_out);
    }
    let i = live_in(plan, ir, c).index_of(t);
    let lines = chunk_lines(plan, ir, c, tiled);
    assert(lines[i] == fetch_text(t));
    let j = live_out(plan, d).index_of(t);
    let head = live_in(plan, ir, d).map_values(|t: CutTemp| fetch_text(t)) + body_lines(
        ir,
        chunk_ops(plan, ir, d),
        temp_ids(live_in(plan, ir, d)).to_set(),
        tiled,
    );
    assert(chunk_lines(plan, ir, d, tiled)[head.len() + j] == spill_text(t));
}

} // verus!

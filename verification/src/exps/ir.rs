//! The straight-line program of a quotient expression, and how it is cut into chunks.
use std::collections::HashMap;
use vstd::prelude::*;

verus! {

/// What an instruction reads.
#[derive(Clone, Copy, PartialEq, Eq, Structural, Debug)]
pub enum Operand {
    /// A number.
    Num(u64),
    /// The inverse of the vanishing polynomial.
    Zi,
    /// A public input.
    Pub { id: u64 },
    /// A challenge.
    Ch { base: u64 },
    /// An air value.
    Av { pos: u64, dim: u64 },
    /// An airgroup value.
    Agv { pos: u64, dim: u64 },
    /// A fixed column, `stride` rows on.
    Const { id: u64, stride: i64 },
    /// A committed column, `stride` rows on.
    Cm { stage: u64, pos: u64, dim: u64, stride: i64 },
    /// A temporary.
    Tmp { id: u64, dim: u64 },
}

/// The number of base-field coordinates of an operand.
pub open spec fn operand_dim(o: Operand) -> u64 {
    match o {
        Operand::Ch { base } => 3,
        Operand::Av { pos, dim } => dim,
        Operand::Agv { pos, dim } => dim,
        Operand::Cm { stage, pos, dim, stride } => dim,
        Operand::Tmp { id, dim } => dim,
        _ => 1,
    }
}

impl Operand {
    /// The number of base-field coordinates.
    pub fn dim(&self) -> (r: u64)
        ensures
            r == operand_dim(*self),
    {
        match self {
            Operand::Ch { base: _ } => 3,
            Operand::Av { pos: _, dim } => *dim,
            Operand::Agv { pos: _, dim } => *dim,
            Operand::Cm { stage: _, pos: _, dim, stride: _ } => *dim,
            Operand::Tmp { id: _, dim } => *dim,
            _ => 1,
        }
    }

    /// The temporary, where it is one.
    pub fn as_tmp(&self) -> (r: Option<(u64, u64)>)
        ensures
            r == match *self {
                Operand::Tmp { id, dim } => Some((id, dim)),
                _ => None::<(u64, u64)>,
            },
    {
        match self {
            Operand::Tmp { id, dim } => Some((*id, *dim)),
            _ => None,
        }
    }
}

/// The operations.
#[derive(Clone, Copy, PartialEq, Eq, Structural, Debug)]
pub enum Op {
    Add,
    Sub,
    Mul,
}

/// One instruction: `dst = a op b`. Without a temporary as destination it gives the result.
#[derive(Clone, Copy, PartialEq, Eq, Structural, Debug)]
pub struct Instr {
    pub idx: u64,
    pub op: Op,
    pub a: Operand,
    pub b: Operand,
    pub ddim: u64,
    pub dst_is_tmp: bool,
    pub dst_id: Option<u64>,
}

/// A program, with the sizes of the sections it reads.
pub struct Ir {
    pub instrs: Vec<Instr>,
    pub n_constants: u64,
    pub n_bits: u64,
    /// Columns of each committed stage.
    pub ncols: HashMap<u64, u64>,
}

/// A temporary that lives across chunks: where it is computed, its size and its scratch slot.
#[derive(Clone, Copy, PartialEq, Eq, Structural, Debug)]
pub struct CutTemp {
    pub id: u64,
    pub def_chunk: usize,
    pub dim: u64,
    pub slot: u64,
}

/// How a program is cut into chunks of `chunk` instructions.
pub struct ChunkPlan {
    pub n_chunks: usize,
    pub chunk: usize,
    /// The temporaries that live across chunks, by ascending id.
    pub cut_temps: Vec<CutTemp>,
    pub total_slots: u64,
    pub out_dim: u64,
}

/// The positions of a value's coordinates fit: one, or three behind each other.
pub open spec fn triple_fits(pos: u64, dim: u64) -> bool {
    dim == 1 || pos <= u64::MAX - 2
}

/// The operand can be addressed: its coordinates fit, and its stage has a width.
pub open spec fn operand_ok(o: Operand, ncols: Map<u64, u64>) -> bool {
    match o {
        Operand::Ch { base } => base <= u64::MAX - 2,
        Operand::Av { pos, dim } => triple_fits(pos, dim),
        Operand::Agv { pos, dim } => triple_fits(pos, dim),
        Operand::Cm { stage, pos, dim, stride } => triple_fits(pos, dim) && ncols.dom().contains(
            stage,
        ),
        _ => true,
    }
}

/// The instruction can be emitted.
pub open spec fn instr_ok(i: Instr, ncols: Map<u64, u64>) -> bool {
    operand_ok(i.a, ncols) && operand_ok(i.b, ncols) && (i.dst_is_tmp ==> i.dst_id is Some)
}

/// Every instruction can be emitted.
pub open spec fn ir_ok(ir: Ir) -> bool {
    forall|i: int| 0 <= i < ir.instrs@.len() ==> instr_ok(#[trigger] ir.instrs@[i], ir.ncols@)
}

/// The scratch slots of a temporary fit.
pub open spec fn temp_fits(t: CutTemp) -> bool {
    triple_fits(t.slot, t.dim)
}

/// The plan covers the program: every chunk starts inside it, and temporaries are listed once.
pub open spec fn plan_ok(plan: ChunkPlan, n_instrs: nat) -> bool {
    &&& plan.n_chunks > 1 ==> (plan.n_chunks - 1) * plan.chunk <= n_instrs
    &&& plan.n_chunks * plan.chunk <= usize::MAX
    &&& plan.n_chunks <= usize::MAX - 8
    &&& forall|i: int, j: int|
        0 <= i < j < plan.cut_temps@.len() ==> (#[trigger] plan.cut_temps@[i]).id < (
        #[trigger] plan.cut_temps@[j]).id
    &&& forall|i: int|
        0 <= i < plan.cut_temps@.len() ==> temp_fits(#[trigger] plan.cut_temps@[i])
}

} // verus!

//! Packing an R1CS into a trace: custom gates first, then PLONK constraints into gates that
//! those leave free, then the renaming of merged signals.
use vstd::prelude::*;

use crate::field::{mulp, residue};
use crate::plonk2pil::custom_gates::{
    filter_fft4_gate_uses, filter_gate_uses, gates_error, get_custom_gates_info, is_fft4, role_gate,
    uses_of, CustomGatesInfo,
};
use crate::plonk2pil::grid::{
    filled, grid, is_table, set_cell, with_cell, zero_ids, zero_values,
};
use crate::plonk2pil::layout::{HashFamily, Layout, SetupType};
use crate::plonk2pil::merge_copies::{
    apply_remap_to_s_map, ascending, ids_fit, in_band, is_merged_rep, r1cs2plonk_merged, remapped,
    remapped_id, renamed_addition, rep, rep_after, surviving, total_cells, unenforced,
    verify_merge_soundness, UnsoundMerge,
};
use crate::plonk2pil::open_gates::OpenGates;
use crate::plonk2pil::placement::{own_rows, place_all, waiting_of, Placing, Slots};
use crate::plonk2pil::placer::{
    count_own_rows, fits, lemma_grid_table, lemma_table_cell, Placer,
};
use crate::plonk2pil::r1cs::{CustomGate, CustomGateUse, GateRole, R1csFile};
use crate::plonk2pil::rows::{
    cmul_base, cmul_row_count, cmul_start, count_custom_rows, custom_rows, ev_base, ev_start,
    fft_base, fft_start, law_waiting_rows, lemma_bases, plan_queues, planned_queues, rows_of,
    sel_base, sel_start, tree_base, tree_start, Counts,
};
use crate::plonk2pil::stencil::{
    place_blocks, place_uses, uses_wide, with_block, with_blocks, with_uses, Block,
};
use crate::plonk2pil::to_plonk::{plonk_system, PlonkAddition, PlonkConstraint};

verus! {

broadcast use vstd::std_specs::hash::group_hash_axioms;

/// The uses of a role, in order.
pub open spec fn role_uses(r1cs: R1csFile, role: GateRole) -> Seq<CustomGateUse> {
    uses_of(r1cs.custom_gates_uses@, role_gate(r1cs, role))
}

/// The uses of FFT4 gates, in order.
pub open spec fn fft4_uses(r1cs: R1csFile) -> Seq<CustomGateUse> {
    r1cs.custom_gates_uses@.filter(|u: CustomGateUse| is_fft4(r1cs.custom_gates@, u.id))
}

/// How many uses each custom gate of the R1CS has.
pub open spec fn counts_of(r1cs: R1csFile) -> Counts {
    Counts {
        poseidon: (role_uses(r1cs, GateRole::PoseidonSponge).len() + role_uses(
            r1cs,
            GateRole::PoseidonCompression,
        ).len()) as usize,
        cmul: role_uses(r1cs, GateRole::CMul).len() as usize,
        ev_pol4: role_uses(r1cs, GateRole::EvPol4).len() as usize,
        fft4: fft4_uses(r1cs).len() as usize,
        tree: role_uses(r1cs, GateRole::TreeSelector).len() as usize,
        sel: role_uses(r1cs, GateRole::SelectVal1).len() as usize,
    }
}

/// The first Poseidon gates to be placed: compressions for Poseidon1, sponges for Poseidon2.
pub open spec fn first_poseidon(l: Layout) -> GateRole {
    match l.family {
        HashFamily::Poseidon1 => GateRole::PoseidonCompression,
        HashFamily::Poseidon2 => GateRole::PoseidonSponge,
    }
}

pub open spec fn second_poseidon(l: Layout) -> GateRole {
    match l.family {
        HashFamily::Poseidon1 => GateRole::PoseidonSponge,
        HashFamily::Poseidon2 => GateRole::PoseidonCompression,
    }
}

/// The number of key signals of a Poseidon gate.
pub open spec fn key_signals(role: GateRole) -> usize {
    if role == GateRole::PoseidonCompression {
        2
    } else {
        0
    }
}

/// The first `n` complex multiplications placed, `per` to a row from `base` on.
pub open spec fn with_cmuls(
    g: Seq<Seq<u32>>,
    base: int,
    per: int,
    uses: Seq<CustomGateUse>,
    n: nat,
) -> Seq<Seq<u32>>
    decreases n,
{
    if n == 0 {
        g
    } else {
        with_block(
            with_cmuls(g, base, per, uses, (n - 1) as nat),
            base + (n - 1) / per,
            uses[n - 1].signals@,
            Block { n: 9, col: (9 * ((n - 1) % per)) as usize, off: 0, sig: 0 },
            9,
        )
    }
}

/// One run of signals from the first column on.
pub open spec fn flat_blocks(n: usize) -> Seq<Block> {
    seq![Block { n, col: 0, off: 0, sig: 0 }]
}

/// The cells once all custom gates are placed.
pub open spec fn custom_cells(l: Layout, r1cs: R1csFile, rows: int) -> Seq<Seq<u32>> {
    let c = counts_of(r1cs);
    let h = l.spec_poseidon_rows();
    let first = role_uses(r1cs, first_poseidon(l));
    let second = role_uses(r1cs, second_poseidon(l));
    let cmul = role_uses(r1cs, GateRole::CMul);
    let ev = role_uses(r1cs, GateRole::EvPol4);
    let fft = fft4_uses(r1cs);
    let tree = role_uses(r1cs, GateRole::TreeSelector);
    let sel = role_uses(r1cs, GateRole::SelectVal1);
    let g0 = filled(l.spec_committed_pols(), rows, 0u32);
    let g1 = with_uses(
        g0,
        0,
        h,
        l.spec_poseidon_blocks(key_signals(first_poseidon(l))),
        first,
        first.len(),
    );
    let g2 = with_uses(
        g1,
        h * first.len(),
        h,
        l.spec_poseidon_blocks(key_signals(second_poseidon(l))),
        second,
        second.len(),
    );
    let g3 = with_cmuls(g2, cmul_base(l, c), l.spec_cmul_per_row(), cmul, cmul.len());
    let g4 = with_uses(g3, ev_base(l, c), 1, flat_blocks(21), ev, ev.len());
    let g5 = with_uses(g4, fft_base(l, c), 1, flat_blocks(24), fft, fft.len());
    let g6 = with_uses(
        g5,
        tree_base(l, c),
        l.spec_tree_rows(),
        l.spec_tree_blocks(),
        tree,
        tree.len(),
    );
    with_uses(g6, sel_base(l, c), 1, flat_blocks(22), sel, sel.len())
}

/// The coefficients of an FFT4 with the parameters first weight, increment, scale and type.
pub open spec fn fft4_coefs(p: Seq<u64>) -> Seq<u64> {
    let w = p[0] as int;
    let inc = p[1] as int;
    let s = p[2] as int;
    let w2 = residue(w * w);
    let sw = residue(s * w);
    if p[3] == 4 {
        seq![
            p[2],
            residue(s * w2) as u64,
            sw as u64,
            residue(sw * w2) as u64,
            residue(sw * inc) as u64,
            residue(residue(sw * w2) * inc) as u64,
            0,
            0,
            0,
            0,
        ]
    } else {
        seq![0, 0, 0, 0, 0, 0, p[2], sw as u64, residue(sw * inc) as u64, 0]
    }
}

/// The first `n` coefficients of a row set.
pub open spec fn with_row(coefs: Seq<Seq<u64>>, row: int, vals: Seq<u64>, n: nat) -> Seq<Seq<u64>>
    decreases n,
{
    if n == 0 {
        coefs
    } else {
        with_cell(with_row(coefs, row, vals, (n - 1) as nat), n - 1, row, vals[n - 1])
    }
}

/// The coefficients of the first `n` FFT4 gates set.
pub open spec fn with_ffts(
    coefs: Seq<Seq<u64>>,
    base: int,
    gates: Seq<CustomGate>,
    uses: Seq<CustomGateUse>,
    n: nat,
) -> Seq<Seq<u64>>
    decreases n,
{
    if n == 0 {
        coefs
    } else {
        with_row(
            with_ffts(coefs, base, gates, uses, (n - 1) as nat),
            base + n - 1,
            fft4_coefs(gates[uses[n - 1].id as int].parameters@),
            10,
        )
    }
}

/// The coefficients once all custom gates are placed.
pub open spec fn custom_coefs(l: Layout, r1cs: R1csFile, rows: int) -> Seq<Seq<u64>> {
    with_ffts(
        filled(10, rows, 0u64),
        fft_base(l, counts_of(r1cs)),
        r1cs.custom_gates@,
        fft4_uses(r1cs),
        fft4_uses(r1cs).len(),
    )
}

/// The placement once all custom gates are placed.
pub open spec fn custom_placing(l: Layout, r1cs: R1csFile, rows: int) -> Placing {
    Placing {
        cells: custom_cells(l, r1cs, rows),
        coefs: custom_coefs(l, r1cs, rows),
        partial: Map::empty(),
        half: Seq::empty(),
        queues: planned_queues(l, counts_of(r1cs)),
        row: custom_rows(l, counts_of(r1cs)) as nat,
    }
}

/// Outputs and public inputs.
pub open spec fn publics(r1cs: R1csFile) -> u32 {
    (r1cs.header.n_outputs + r1cs.header.n_pub_inputs) as u32
}

/// The PLONK constraints to place.
pub open spec fn packed_constraints(r1cs: R1csFile, merge: bool) -> Seq<PlonkConstraint> {
    let cs = plonk_system(r1cs).constraints;
    if merge {
        surviving(cs, publics(r1cs))
    } else {
        cs
    }
}

/// The PLONK additions that go with them.
pub open spec fn packed_additions(r1cs: R1csFile, merge: bool) -> Seq<PlonkAddition> {
    let sys = plonk_system(r1cs);
    if merge {
        sys.additions.map_values(
            |a: PlonkAddition| renamed_addition(sys.constraints, publics(r1cs), a),
        )
    } else {
        sys.additions
    }
}

/// What a placed signal is renamed to.
pub open spec fn packed_id(r1cs: R1csFile, merge: bool, id: u32) -> u32 {
    if merge {
        rep(plonk_system(r1cs).constraints, publics(r1cs), id)
    } else {
        id
    }
}

/// The rows that PLONK constraints need beyond those of custom gates.
pub open spec fn plonk_rows(l: Layout, r1cs: R1csFile, merge: bool) -> nat {
    own_rows(
        l.spec_tiers(),
        l.spec_pure_tier(),
        waiting_of(planned_queues(l, counts_of(r1cs))),
        packed_constraints(r1cs, merge),
    )
}

/// The rows used.
pub open spec fn used_rows(l: Layout, r1cs: R1csFile, merge: bool) -> int {
    custom_rows(l, counts_of(r1cs)) + plonk_rows(l, r1cs, merge)
}

/// `b` is the least number of bits, at least one, for that many rows.
pub open spec fn is_n_bits(n_used: int, b: nat) -> bool {
    &&& b >= 1
    &&& n_used <= vstd::arithmetic::power2::pow2(b)
    &&& b == 1 || vstd::arithmetic::power2::pow2((b - 1) as nat) < n_used
}

/// The finished placement, before renaming.
pub open spec fn packed_placing(l: Layout, r1cs: R1csFile, merge: bool, rows: int) -> Placing {
    let cs = packed_constraints(r1cs, merge);
    place_all(
        l.spec_tiers(),
        l.spec_pure_tier(),
        custom_placing(l, r1cs, rows),
        cs,
        cs.len(),
    )
}

/// The finished cells, renamed.
pub open spec fn packed_cells(l: Layout, r1cs: R1csFile, merge: bool, rows: int) -> Seq<Seq<u32>> {
    let g = packed_placing(l, r1cs, merge, rows).cells;
    Seq::new(
        g.len(),
        |c: int| Seq::new(g[c].len(), |r: int| packed_id(r1cs, merge, g[c][r])),
    )
}

/// Every use has exactly `n` signals.
pub open spec fn uses_exact(uses: Seq<CustomGateUse>, n: int) -> bool {
    forall|i: int| 0 <= i < uses.len() ==> (#[trigger] uses[i]).signals@.len() == n
}

/// The FFT4 has its four parameters, and is of a known type.
pub open spec fn fft4_known(p: Seq<u64>) -> bool {
    p.len() >= 4 && (p[3] == 4 || p[3] == 2)
}

/// Every use has the signals that the layout places, and every FFT4 its parameters.
pub open spec fn uses_fit(l: Layout, r1cs: R1csFile) -> bool {
    &&& uses_exact(role_uses(r1cs, GateRole::PoseidonSponge), 224)
    &&& uses_exact(role_uses(r1cs, GateRole::PoseidonCompression), 226)
    &&& uses_exact(role_uses(r1cs, GateRole::CMul), 9)
    &&& uses_wide(role_uses(r1cs, GateRole::EvPol4), 21)
    &&& uses_wide(fft4_uses(r1cs), 24)
    &&& uses_exact(role_uses(r1cs, GateRole::TreeSelector), l.spec_tree_signals())
    &&& uses_exact(role_uses(r1cs, GateRole::SelectVal1), 22)
    &&& forall|i: int|
        0 <= i < fft4_uses(r1cs).len() ==> fft4_known(
            r1cs.custom_gates@[(#[trigger] fft4_uses(r1cs)[i]).id as int].parameters@,
        )
}

/// The uses of each custom gate.
struct Uses<'a> {
    sponge: Vec<&'a CustomGateUse>,
    compression: Vec<&'a CustomGateUse>,
    cmul: Vec<&'a CustomGateUse>,
    ev_pol4: Vec<&'a CustomGateUse>,
    fft4: Vec<&'a CustomGateUse>,
    tree: Vec<&'a CustomGateUse>,
    sel: Vec<&'a CustomGateUse>,
}

impl<'a> Uses<'a> {
    spec fn of(&self, r1cs: R1csFile) -> bool {
        &&& self.sponge@.unref() == role_uses(r1cs, GateRole::PoseidonSponge)
        &&& self.compression@.unref() == role_uses(r1cs, GateRole::PoseidonCompression)
        &&& self.cmul@.unref() == role_uses(r1cs, GateRole::CMul)
        &&& self.ev_pol4@.unref() == role_uses(r1cs, GateRole::EvPol4)
        &&& self.fft4@.unref() == fft4_uses(r1cs)
        &&& self.tree@.unref() == role_uses(r1cs, GateRole::TreeSelector)
        &&& self.sel@.unref() == role_uses(r1cs, GateRole::SelectVal1)
    }
}

fn uses_with_role<'a>(r1cs: &'a R1csFile, info: &CustomGatesInfo, role: GateRole) -> (r: Vec<
    &'a CustomGateUse,
>)
    requires
        info.describes(*r1cs),
    ensures
        r@.unref() == role_uses(*r1cs, role),
{
    let id: Option<u32> = info.role_id(role);
    assert(id == role_gate(*r1cs, role)) by {
        assert(info.gate_ids[crate::plonk2pil::custom_gates::role_slot(role)] == role_gate(
            *r1cs,
            role,
        ));
    }
    filter_gate_uses(r1cs.custom_gates_uses.as_slice(), id)
}

fn gather_uses<'a>(r1cs: &'a R1csFile, info: &CustomGatesInfo) -> (r: Uses<'a>)
    requires
        info.describes(*r1cs),
    ensures
        r.of(*r1cs),
{
    let fft4: Vec<&'a CustomGateUse> = filter_fft4_gate_uses(
        r1cs.custom_gates_uses.as_slice(),
        &info.fft4_parameters,
    );
    proof {
        let a = |u: CustomGateUse| info.fft4_parameters@.dom().contains(u.id);
        let b = |u: CustomGateUse| is_fft4(r1cs.custom_gates@, u.id);
        assert forall|u: CustomGateUse| #[trigger] a(u) == b(u) by {}
        assert(a =~= b);
    }
    Uses {
        sponge: uses_with_role(r1cs, info, GateRole::PoseidonSponge),
        compression: uses_with_role(r1cs, info, GateRole::PoseidonCompression),
        cmul: uses_with_role(r1cs, info, GateRole::CMul),
        ev_pol4: uses_with_role(r1cs, info, GateRole::EvPol4),
        fft4,
        tree: uses_with_role(r1cs, info, GateRole::TreeSelector),
        sel: uses_with_role(r1cs, info, GateRole::SelectVal1),
    }
}

fn all_exact(uses: &Vec<&CustomGateUse>, n: usize) -> (r: bool)
    ensures
        r == uses_exact(uses@.unref(), n as int),
{
    let mut i: usize = 0;
    while i < uses.len()
        invariant
            i <= uses@.len(),
            forall|j: int| 0 <= j < i ==> (#[trigger] uses@.unref()[j]).signals@.len() == n,
        decreases uses@.len() - i,
    {
        assert(uses@.unref()[i as int] == *uses@[i as int]);
        if uses[i].signals.len() != n {
            return false;
        }
        i = i + 1;
    }
    true
}

fn all_wide(uses: &Vec<&CustomGateUse>, n: usize) -> (r: bool)
    ensures
        r == uses_wide(uses@.unref(), n as int),
{
    let mut i: usize = 0;
    while i < uses.len()
        invariant
            i <= uses@.len(),
            forall|j: int| 0 <= j < i ==> (#[trigger] uses@.unref()[j]).signals@.len() >= n,
        decreases uses@.len() - i,
    {
        assert(uses@.unref()[i as int] == *uses@[i as int]);
        if uses[i].signals.len() < n {
            return false;
        }
        i = i + 1;
    }
    true
}

/// An FFT4 use names a declared gate.
proof fn lemma_fft4_use(r1cs: R1csFile, i: int)
    requires
        0 <= i < fft4_uses(r1cs).len(),
    ensures
        is_fft4(r1cs.custom_gates@, fft4_uses(r1cs)[i].id),
{
    let pred = |u: CustomGateUse| is_fft4(r1cs.custom_gates@, u.id);
    r1cs.custom_gates_uses@.lemma_filter_pred(pred, i);
}

/// Check that every use has the signals that the layout places, and every FFT4 its parameters.
pub fn check_uses(l: Layout, r1cs: &R1csFile) -> (r: bool)
    requires
        gates_error(*r1cs) is None,
        r1cs.custom_gates@.len() <= u32::MAX,
    ensures
        r == uses_fit(l, *r1cs),
{
    let info: CustomGatesInfo = get_custom_gates_info(r1cs);
    let uses: Uses = gather_uses(r1cs, &info);
    let mut ok: bool = all_exact(&uses.sponge, 224) && all_exact(&uses.compression, 226)
        && all_exact(&uses.cmul, 9) && all_wide(&uses.ev_pol4, 21) && all_wide(&uses.fft4, 24)
        && all_exact(&uses.tree, l.tree_signals()) && all_exact(&uses.sel, 22);
    let ghost widths = ok;
    let mut i: usize = 0;
    while i < uses.fft4.len()
        invariant
            i <= uses.fft4@.len(),
            uses.of(*r1cs),
            ok == (widths && forall|j: int|
                0 <= j < i ==> fft4_known(
                    r1cs.custom_gates@[(#[trigger] fft4_uses(*r1cs)[j]).id as int].parameters@,
                )),
        decreases uses.fft4@.len() - i,
    {
        proof {
            assert(uses.fft4@.unref()[i as int] == *uses.fft4@[i as int]);
            lemma_fft4_use(*r1cs, i as int);
        }
        let p: &Vec<u64> = &r1cs.custom_gates[uses.fft4[i].id as usize].parameters;
        let known: bool = p.len() >= 4 && (p[3] == 4 || p[3] == 2);
        assert(known == fft4_known(
            r1cs.custom_gates@[fft4_uses(*r1cs)[i as int].id as int].parameters@,
        ));
        if !known {
            ok = false;
        }
        i = i + 1;
    }
    ok
}

pub proof fn lemma_cmul_step(u: int, n: int, per: int)
    requires
        per == 2 || per == 3,
        0 <= u < n,
    ensures
        u / per < rows_of(n as nat, per),
        0 <= u % per < per,
        (u + 1) / per == if u % per + 1 == per {
            u / per + 1
        } else {
            u / per
        },
        (u + 1) % per == if u % per + 1 == per {
            0
        } else {
            u % per + 1
        },
{
    if per == 2 {
        assert(u / 2 < (n + 1) / 2);
    } else {
        assert(u / 3 < (n + 2) / 3);
    }
}

/// Place complex multiplications, `per` to a row.
fn place_cmuls(
    s_map: &mut Vec<Vec<u32>>,
    base: usize,
    per: usize,
    uses: &Vec<&CustomGateUse>,
    Ghost(cols): Ghost<int>,
    Ghost(rows): Ghost<int>,
)
    requires
        is_table(grid(old(s_map)@), cols, rows),
        per == 2 || per == 3,
        9 * per <= cols,
        uses_exact(uses@.unref(), 9),
        base + rows_of(uses@.len(), per as int) <= rows <= usize::MAX,
    ensures
        grid(final(s_map)@) == with_cmuls(
            grid(old(s_map)@),
            base as int,
            per as int,
            uses@.unref(),
            uses@.len(),
        ),
        is_table(grid(final(s_map)@), cols, rows),
{
    let ghost g = grid(s_map@);
    let mut row: usize = base;
    let mut slot: usize = 0;
    let mut u: usize = 0;
    assert(0int / (per as int) == 0 && 0int % (per as int) == 0) by {
        assert(per == 2 || per == 3);
    }
    while u < uses.len()
        invariant
            u <= uses@.len(),
            per == 2 || per == 3,
            9 * per <= cols,
            uses_exact(uses@.unref(), 9),
            base + rows_of(uses@.len(), per as int) <= rows <= usize::MAX,
            row == base + (u as int) / (per as int),
            slot == (u as int) % (per as int),
            slot < per,
            is_table(grid(s_map@), cols, rows),
            grid(s_map@) == with_cmuls(g, base as int, per as int, uses@.unref(), u as nat),
        decreases uses@.len() - u,
    {
        let b: Block = Block { n: 9, col: 9 * slot, off: 0, sig: 0 };
        let mut bs: Vec<Block> = Vec::new();
        bs.push(b);
        let ghost before = grid(s_map@);
        proof {
            lemma_cmul_step(u as int, uses@.len() as int, per as int);
            assert(uses@.unref()[u as int] == *uses@[u as int]);
            assert(uses@.unref()[u as int].signals@.len() == 9);
        }
        place_blocks(
            s_map,
            row,
            &uses[u].signals,
            &bs,
            Ghost(cols),
            Ghost(rows),
            Ghost(1int),
        );
        proof {
            let sig = uses@[u as int].signals@;
            assert(with_blocks(before, row as int, sig, bs@, 0) == before);
            assert(with_blocks(before, row as int, sig, bs@, 1) == with_block(
                before,
                row as int,
                sig,
                b,
                9,
            ));
        }
        slot = slot + 1;
        if slot == per {
            slot = 0;
            row = row + 1;
        }
        u = u + 1;
    }
}

/// The coefficients of an FFT4.
fn fft4_row(p: &Vec<u64>) -> (r: Vec<u64>)
    requires
        fft4_known(p@),
    ensures
        r@ == fft4_coefs(p@),
{
    let first_w: u64 = p[0];
    let inc_w: u64 = p[1];
    let scale: u64 = p[2];
    let fw2: u64 = mulp(first_w, first_w);
    let sw: u64 = mulp(scale, first_w);
    let mut v: Vec<u64> = Vec::new();
    if p[3] == 4 {
        v.push(scale);
        v.push(mulp(scale, fw2));
        v.push(sw);
        v.push(mulp(sw, fw2));
        v.push(mulp(sw, inc_w));
        v.push(mulp(mulp(sw, fw2), inc_w));
        v.push(0);
        v.push(0);
        v.push(0);
        v.push(0);
    } else {
        v.push(0);
        v.push(0);
        v.push(0);
        v.push(0);
        v.push(0);
        v.push(0);
        v.push(scale);
        v.push(sw);
        v.push(mulp(sw, inc_w));
        v.push(0);
    }
    assert(v@ =~= fft4_coefs(p@));
    v
}

/// Set the coefficients of all FFT4 gates.
fn place_ffts(
    cv: &mut Vec<Vec<u64>>,
    base: usize,
    r1cs: &R1csFile,
    uses: &Vec<&CustomGateUse>,
    Ghost(rows): Ghost<int>,
)
    requires
        is_table(grid(old(cv)@), 10, rows),
        uses@.unref() == fft4_uses(*r1cs),
        base + uses@.len() <= rows <= usize::MAX,
        forall|i: int|
            0 <= i < fft4_uses(*r1cs).len() ==> fft4_known(
                r1cs.custom_gates@[(#[trigger] fft4_uses(*r1cs)[i]).id as int].parameters@,
            ),
    ensures
        grid(final(cv)@) == with_ffts(
            grid(old(cv)@),
            base as int,
            r1cs.custom_gates@,
            uses@.unref(),
            uses@.len(),
        ),
        is_table(grid(final(cv)@), 10, rows),
{
    let ghost g = grid(cv@);
    let mut i: usize = 0;
    while i < uses.len()
        invariant
            i <= uses@.len(),
            uses@.unref() == fft4_uses(*r1cs),
            base + uses@.len() <= rows <= usize::MAX,
            forall|j: int|
                0 <= j < fft4_uses(*r1cs).len() ==> fft4_known(
                    r1cs.custom_gates@[(#[trigger] fft4_uses(*r1cs)[j]).id as int].parameters@,
                ),
            is_table(grid(cv@), 10, rows),
            grid(cv@) == with_ffts(
                g,
                base as int,
                r1cs.custom_gates@,
                uses@.unref(),
                i as nat,
            ),
        decreases uses@.len() - i,
    {
        proof {
            assert(uses@.unref()[i as int] == *uses@[i as int]);
            lemma_fft4_use(*r1cs, i as int);
            assert(fft4_known(
                r1cs.custom_gates@[fft4_uses(*r1cs)[i as int].id as int].parameters@,
            ));
        }
        let vals: Vec<u64> = fft4_row(&r1cs.custom_gates[uses[i].id as usize].parameters);
        let ghost before = grid(cv@);
        let row: usize = base + i;
        let mut k: usize = 0;
        while k < 10
            invariant
                k <= 10,
                vals@.len() == 10,
                row < rows,
                is_table(grid(cv@), 10, rows),
                grid(cv@) == with_row(before, row as int, vals@, k as nat),
            decreases 10 - k,
        {
            proof {
                lemma_grid_table(cv@, 10, rows);
                lemma_table_cell(grid(cv@), 10, rows, k as int, row as int, vals@[k as int]);
            }
            set_cell(cv, k, row, vals[k]);
            k = k + 1;
        }
        i = i + 1;
    }
}

/// The number of bits of the trace height.
fn height_bits(n_used: usize) -> (r: (usize, usize))
    requires
        2 * n_used <= usize::MAX,
    ensures
        is_n_bits(n_used as int, r.0 as nat),
        r.1 == vstd::arithmetic::power2::pow2(r.0 as nat),
        r.1 == 2 || r.1 < 2 * n_used,
        r.0 <= usize::BITS,
{
    let mut b: usize = 1;
    let mut n: usize = 2;
    proof {
        vstd::arithmetic::power2::lemma2_to64();
    }
    while n < n_used
        invariant
            2 * n_used <= usize::MAX,
            b >= 1,
            n >= 2,
            n == vstd::arithmetic::power2::pow2(b as nat),
            b == 1 || vstd::arithmetic::power2::pow2((b - 1) as nat) < n_used,
            n == 2 || n < 2 * n_used,
            b < usize::BITS,
        decreases 2 * n_used - n,
    {
        proof {
            vstd::arithmetic::power2::lemma_pow2_unfold((b + 1) as nat);
            lemma_bits_bound(b as nat, n as int);
        }
        n = 2 * n;
        b = b + 1;
    }
    (b, n)
}

/// A power of two below half the word size has fewer bits than the word.
proof fn lemma_bits_bound(b: nat, n: int)
    requires
        n == vstd::arithmetic::power2::pow2(b),
        2 * n <= usize::MAX,
    ensures
        b + 1 < usize::BITS,
{
    if b + 1 >= usize::BITS {
        vstd::arithmetic::power2::lemma2_to64();
        vstd::arithmetic::power2::lemma2_to64_rest();
        if usize::BITS == 64 {
            if 63 < b {
                vstd::arithmetic::power2::lemma_pow2_strictly_increases(63, b);
            }
        } else {
            if 31 < b {
                vstd::arithmetic::power2::lemma_pow2_strictly_increases(31, b);
            }
        }
    }
}

/// The R1CS can be packed into the layout: its gates are in order, its uses fit, and counts stay
/// within the machine's limits.
pub open spec fn packable(l: Layout, r1cs: R1csFile, merge: bool) -> bool {
    &&& gates_error(r1cs) is None
    &&& r1cs.custom_gates@.len() <= u32::MAX
    &&& plonk_system(r1cs).n_vars <= u32::MAX
    &&& r1cs.header.n_outputs + r1cs.header.n_pub_inputs <= u32::MAX
    &&& merge ==> ids_fit(plonk_system(r1cs).constraints, plonk_system(r1cs).additions)
    &&& uses_fit(l, r1cs)
    &&& role_uses(r1cs, GateRole::PoseidonSponge).len() + role_uses(
        r1cs,
        GateRole::PoseidonCompression,
    ).len() <= usize::MAX
    &&& used_rows(l, r1cs, merge) <= 0x1_0000_0000
    &&& 96 * used_rows(l, r1cs, merge) <= usize::MAX
}

/// Options of a packing.
pub struct PlonkOptions {
    pub airgroup_name: Option<String>,
    pub max_constraint_degree: Option<usize>,
    pub hash_id: String,
    pub merge_copies: bool,
}

/// What the PIL source of a trace is made from.
pub struct PilTemplateParams {
    pub template_file: &'static str,
    pub template_name: &'static str,
    pub namespace_name: String,
    pub n_bits: usize,
    pub n_publics: u32,
    pub max_constraint_degree: usize,
    pub n_plonk_rows: usize,
    pub n_poseidon_compression: usize,
    pub n_poseidon_sponge: usize,
    pub n_cmul_rows: usize,
    pub n_ev_pol4: usize,
    pub n_fft4: usize,
    pub n_tree_selector: usize,
    pub n_select_val1: usize,
}

/// A packed trace: the placed signals, the fixed coefficients, and what goes with them.
pub struct SetupResult {
    pub pil: PilTemplateParams,
    pub cv: Vec<Vec<u64>>,
    pub n_bits: usize,
    /// Rows used before padding to a power of two.
    pub n_used: usize,
    pub s_map: Vec<Vec<u32>>,
    pub plonk_additions: Vec<PlonkAddition>,
    pub airgroup_name: String,
    pub air_name: String,
}

/// The PIL template of a layout.
pub open spec fn template_file(l: Layout) -> Seq<char> {
    match (l.family, l.kind) {
        (HashFamily::Poseidon1, SetupType::Aggregation) => "poseidon1/aggregator"@,
        (HashFamily::Poseidon1, SetupType::Compressor) => "poseidon1/compressor"@,
        (HashFamily::Poseidon2, SetupType::Aggregation) => "poseidon2/aggregator"@,
        (HashFamily::Poseidon2, SetupType::Compressor) => "poseidon2/compressor"@,
    }
}

pub open spec fn template_name(l: Layout) -> Seq<char> {
    match l.kind {
        SetupType::Aggregation => "Aggregator"@,
        SetupType::Compressor => "Compressor"@,
    }
}

/// The degree bound: free for an aggregation, eight unless given; five for a compressor.
pub open spec fn degree_bound(l: Layout, options: PlonkOptions) -> usize {
    match l.kind {
        SetupType::Aggregation => match options.max_constraint_degree {
            Some(d) => d,
            None => 8,
        },
        SetupType::Compressor => 5,
    }
}

/// The airgroup's name: as given, else made from the time stamp.
pub open spec fn airgroup_name_of(options: PlonkOptions, stamp: u64) -> Seq<char> {
    match options.airgroup_name {
        Some(name) => name@,
        None => "Compressor"@ + crate::text::hex(stamp as nat),
    }
}

/// The parameters are those of the packed trace.
pub open spec fn is_pil(
    l: Layout,
    r1cs: R1csFile,
    options: PlonkOptions,
    stamp: u64,
    p: PilTemplateParams,
) -> bool {
    &&& p.template_file@ == template_file(l)
    &&& p.template_name@ == template_name(l)
    &&& p.namespace_name@ == airgroup_name_of(options, stamp)
    &&& is_n_bits(used_rows(l, r1cs, options.merge_copies), p.n_bits as nat)
    &&& p.n_publics == publics(r1cs)
    &&& p.max_constraint_degree == degree_bound(l, options)
    &&& p.n_plonk_rows == plonk_rows(l, r1cs, options.merge_copies)
    &&& p.n_poseidon_compression == role_uses(r1cs, GateRole::PoseidonCompression).len()
    &&& p.n_poseidon_sponge == role_uses(r1cs, GateRole::PoseidonSponge).len()
    &&& p.n_cmul_rows == rows_of(
        role_uses(r1cs, GateRole::CMul).len(),
        l.spec_cmul_per_row(),
    )
    &&& p.n_ev_pol4 == role_uses(r1cs, GateRole::EvPol4).len()
    &&& p.n_fft4 == fft4_uses(r1cs).len()
    &&& p.n_tree_selector == role_uses(r1cs, GateRole::TreeSelector).len()
    &&& p.n_select_val1 == role_uses(r1cs, GateRole::SelectVal1).len()
}

/// The result is the packed trace.
pub open spec fn is_packed(
    l: Layout,
    r1cs: R1csFile,
    options: PlonkOptions,
    stamp: u64,
    s: SetupResult,
) -> bool {
    let merge = options.merge_copies;
    let rows = vstd::arithmetic::power2::pow2(s.n_bits as nat) as int;
    &&& s.n_used == used_rows(l, r1cs, merge)
    &&& s.n_bits == s.pil.n_bits
    &&& is_pil(l, r1cs, options, stamp, s.pil)
    &&& grid(s.s_map@) == packed_cells(l, r1cs, merge, rows)
    &&& is_table(grid(s.s_map@), l.spec_committed_pols(), rows)
    &&& grid(s.cv@) == packed_placing(l, r1cs, merge, rows).coefs
    &&& s.plonk_additions@ == packed_additions(r1cs, merge)
    &&& s.airgroup_name@ == airgroup_name_of(options, stamp)
    &&& s.air_name@ == airgroup_name_of(options, stamp)
}

/// Every dropped copy is enforced by the connection argument on the packed cells.
pub open spec fn merge_enforced(l: Layout, r1cs: R1csFile, merge: bool) -> bool {
    merge ==> forall|x: u32, b: nat|
        #![trigger is_merged_rep(plonk_system(r1cs).constraints, publics(r1cs), x), is_n_bits(
            used_rows(l, r1cs, merge),
            b,
        )]
        is_merged_rep(plonk_system(r1cs).constraints, publics(r1cs), x) && is_n_bits(
            used_rows(l, r1cs, merge),
            b,
        ) ==> in_band(
            packed_cells(l, r1cs, merge, vstd::arithmetic::power2::pow2(b) as int),
            x,
            l.spec_n_cols() as nat,
        ) >= 2
}

/// So many of the merged representatives, listed in ascending order, are not enforced on the cells
/// of a trace of `2^b` rows.
pub open spec fn counts_unenforced(
    l: Layout,
    r1cs: R1csFile,
    b: nat,
    reps: Seq<u32>,
    bad: nat,
) -> bool {
    &&& is_n_bits(used_rows(l, r1cs, true), b)
    &&& ascending(reps)
    &&& forall|x: u32| #[trigger]
        reps.contains(x) <==> is_merged_rep(plonk_system(r1cs).constraints, publics(r1cs), x)
    &&& bad == unenforced(
        packed_cells(l, r1cs, true, vstd::arithmetic::power2::pow2(b) as int),
        reps,
        l.spec_n_cols() as nat,
        reps.len(),
    )
}

/// The refusal of an R1CS whose merged copies are not all enforced: it says how many are not, and
/// how many columns the connection argument covers.
pub open spec fn is_refusal(l: Layout, r1cs: R1csFile, merge: bool, e: UnsoundMerge) -> bool {
    &&& merge
    &&& !merge_enforced(l, r1cs, merge)
    &&& e.n_cols == l.spec_n_cols()
    &&& e.bad > 0
    &&& exists|b: nat, reps: Seq<u32>| #[trigger]
        counts_unenforced(l, r1cs, b, reps, e.bad as nat)
}

/// There is one number of bits for a number of rows.
proof fn lemma_n_bits_unique(n: int, a: nat, b: nat)
    requires
        is_n_bits(n, a),
        is_n_bits(n, b),
    ensures
        a == b,
{
    if a < b {
        if a < b - 1 {
            vstd::arithmetic::power2::lemma_pow2_strictly_increases(a, (b - 1) as nat);
        }
    } else if b < a {
        if b < a - 1 {
            vstd::arithmetic::power2::lemma_pow2_strictly_increases(b, (a - 1) as nat);
        }
    }
}

/// A signal above every operand represents itself.
proof fn lemma_rep_outside(cs: Seq<PlonkConstraint>, n_publics: u32, n: nat, m: u32, x: u32)
    requires
        n <= cs.len(),
        forall|i: int, k: int|
            0 <= i < cs.len() && 0 <= k < 3 ==> (#[trigger] cs[i][k]) as u32 <= m,
        x > m,
    ensures
        rep_after(cs, n_publics, n, x) == x,
    decreases n,
{
    if n > 0 {
        lemma_rep_outside(cs, n_publics, (n - 1) as nat, m, x);
        let c = cs[n - 1];
        assert(cs[n - 1][0] as u32 <= m);
        assert(cs[n - 1][1] as u32 <= m);
        crate::plonk2pil::merge_copies::law_rep_lowers(
            cs,
            n_publics,
            (n - 1) as nat,
            c[0] as u32,
        );
        crate::plonk2pil::merge_copies::law_rep_lowers(
            cs,
            n_publics,
            (n - 1) as nat,
            c[1] as u32,
        );
    }
}

proof fn lemma_total_cells_table(g: Seq<Seq<u32>>, cols: int, rows: int, n: nat)
    requires
        is_table(g, cols, rows),
        n <= cols,
        rows >= 0,
    ensures
        total_cells(g, n) == n * rows,
    decreases n,
{
    if n > 0 {
        lemma_total_cells_table(g, cols, rows, (n - 1) as nat);
        assert(g[n - 1].len() == rows);
        assert((n - 1) * rows + rows == n * rows) by (nonlinear_arith);
    } else {
        assert(0 * rows == 0) by (nonlinear_arith);
    }
}

pub proof fn lemma_filled_table<T>(cols: int, rows: int, v: T)
    requires
        cols >= 0,
        rows >= 0,
    ensures
        is_table(filled(cols, rows, v), cols, rows),
{
    let g = filled(cols, rows, v);
    assert forall|c: int| 0 <= c < cols implies (#[trigger] g[c]).len() == rows by {}
}

fn flat_block(n: usize) -> (r: Vec<Block>)
    ensures
        r@ == flat_blocks(n),
{
    let mut v: Vec<Block> = Vec::new();
    v.push(Block { n, col: 0, off: 0, sig: 0 });
    assert(v@ =~= flat_blocks(n));
    v
}

/// Place all custom gates into a fresh table.
fn place_custom(l: Layout, r1cs: &R1csFile, uses: &Uses, c: Counts, rows: usize) -> (r: (
    Vec<Vec<u32>>,
    Vec<Vec<u64>>,
))
    requires
        uses.of(*r1cs),
        uses_fit(l, *r1cs),
        role_uses(*r1cs, GateRole::PoseidonSponge).len() + role_uses(
            *r1cs,
            GateRole::PoseidonCompression,
        ).len() <= usize::MAX,
        c == counts_of(*r1cs),
        custom_rows(l, c) <= rows,
    ensures
        grid(r.0@) == custom_cells(l, *r1cs, rows as int),
        grid(r.1@) == custom_coefs(l, *r1cs, rows as int),
        is_table(grid(r.0@), l.spec_committed_pols(), rows as int),
        is_table(grid(r.1@), 10, rows as int),
{
    let ghost cols = l.spec_committed_pols();
    let h: usize = l.poseidon_rows();
    let n_cmul: usize = uses.cmul.len();
    let n_ev: usize = uses.ev_pol4.len();
    let n_fft: usize = uses.fft4.len();
    let n_tree: usize = uses.tree.len();
    let n_sel: usize = uses.sel.len();
    let mut s_map: Vec<Vec<u32>> = zero_ids(l.committed_pols(), rows);
    let mut cv: Vec<Vec<u64>> = zero_values(10, rows);
    proof {
        lemma_filled_table(cols, rows as int, 0u32);
        lemma_filled_table(10, rows as int, 0u64);
        lemma_bases(l, c);
        l.lemma_poseidon_blocks(0);
        l.lemma_poseidon_blocks(2);
        l.lemma_tree_blocks();
        l.lemma_tiers();
        assert(uses.sponge@.unref().len() == uses.sponge@.len());
        assert(uses.compression@.unref().len() == uses.compression@.len());
        assert(uses.cmul@.unref().len() == uses.cmul@.len());
        assert(uses.ev_pol4@.unref().len() == uses.ev_pol4@.len());
        assert(uses.fft4@.unref().len() == uses.fft4@.len());
        assert(uses.tree@.unref().len() == uses.tree@.len());
        assert(uses.sel@.unref().len() == uses.sel@.len());
        assert(c.cmul == n_cmul && c.ev_pol4 == n_ev && c.fft4 == n_fft && c.tree == n_tree && c.sel
            == n_sel);
        let n1 = uses.sponge@.len() as int;
        let n2 = uses.compression@.len() as int;
        assert(h * n1 + h * n2 == h * (n1 + n2)) by (nonlinear_arith);
        assert(h * n2 + h * n1 == h * (n1 + n2)) by (nonlinear_arith);
        assert(h * n1 >= 0 && h * n2 >= 0) by (nonlinear_arith)
            requires
                h >= 0,
                n1 >= 0,
                n2 >= 0,
        ;
        assert(uses_wide(uses.sponge@.unref(), 224));
        assert(uses_wide(uses.compression@.unref(), 226));
        assert(uses_wide(uses.tree@.unref(), l.spec_tree_signals()));
        assert(uses_wide(uses.sel@.unref(), 22));
    }
    let sponge_blocks: Vec<Block> = l.poseidon_blocks(0);
    let compression_blocks: Vec<Block> = l.poseidon_blocks(2);
    match l.family {
        HashFamily::Poseidon1 => {
            let mid: usize = place_uses(
                &mut s_map,
                0,
                h,
                &compression_blocks,
                &uses.compression,
                Ghost(cols),
                Ghost(rows as int),
                Ghost(226int),
            );
            let _end: usize = place_uses(
                &mut s_map,
                mid,
                h,
                &sponge_blocks,
                &uses.sponge,
                Ghost(cols),
                Ghost(rows as int),
                Ghost(224int),
            );
        },
        HashFamily::Poseidon2 => {
            let mid: usize = place_uses(
                &mut s_map,
                0,
                h,
                &sponge_blocks,
                &uses.sponge,
                Ghost(cols),
                Ghost(rows as int),
                Ghost(224int),
            );
            let _end: usize = place_uses(
                &mut s_map,
                mid,
                h,
                &compression_blocks,
                &uses.compression,
                Ghost(cols),
                Ghost(rows as int),
                Ghost(226int),
            );
        },
    }
    place_cmuls(
        &mut s_map,
        cmul_start(l, c),
        l.cmul_per_row(),
        &uses.cmul,
        Ghost(cols),
        Ghost(rows as int),
    );
    let _e1: usize = place_uses(
        &mut s_map,
        ev_start(l, c),
        1,
        &flat_block(21),
        &uses.ev_pol4,
        Ghost(cols),
        Ghost(rows as int),
        Ghost(21int),
    );
    let _e2: usize = place_uses(
        &mut s_map,
        fft_start(l, c),
        1,
        &flat_block(24),
        &uses.fft4,
        Ghost(cols),
        Ghost(rows as int),
        Ghost(24int),
    );
    place_ffts(&mut cv, fft_start(l, c), r1cs, &uses.fft4, Ghost(rows as int));
    let _e3: usize = place_uses(
        &mut s_map,
        tree_start(l, c),
        l.tree_rows(),
        &l.tree_blocks(),
        &uses.tree,
        Ghost(cols),
        Ghost(rows as int),
        Ghost(l.spec_tree_signals()),
    );
    let _e4: usize = place_uses(
        &mut s_map,
        sel_start(l, c),
        1,
        &flat_block(22),
        &uses.sel,
        Ghost(cols),
        Ghost(rows as int),
        Ghost(22int),
    );
    (s_map, cv)
}

/// The airgroup's name: as given, else made from the time stamp.
pub fn airgroup_name(options: &PlonkOptions, stamp: u64) -> (r: String)
    ensures
        r@ == airgroup_name_of(*options, stamp),
{
    match &options.airgroup_name {
        Some(name) => name.clone(),
        None => {
            let mut out: String = "Compressor".to_owned();
            crate::text::push_hex(&mut out, stamp);
            out
        },
    }
}

/// Pack an R1CS into a trace. `stamp` names the airgroup where the options do not. The error
/// says how many merged representatives the connection argument would not enforce.
pub fn pack(l: Layout, r1cs: &R1csFile, options: &PlonkOptions, stamp: u64) -> (r: Result<
    SetupResult,
    UnsoundMerge,
>)
    requires
        packable(l, *r1cs, options.merge_copies),
    ensures
        match r {
            Ok(s) => is_packed(l, *r1cs, *options, stamp, s) && merge_enforced(
                l,
                *r1cs,
                options.merge_copies,
            ),
            Err(e) => is_refusal(l, *r1cs, options.merge_copies, e),
        },
{
    let merge: bool = options.merge_copies;
    let (constraints, additions, copy_merge) = r1cs2plonk_merged(r1cs, merge);
    let info: CustomGatesInfo = get_custom_gates_info(r1cs);
    let uses: Uses = gather_uses(r1cs, &info);
    proof {
        assert(uses.sponge@.unref().len() == uses.sponge@.len());
        assert(uses.compression@.unref().len() == uses.compression@.len());
        assert(uses.cmul@.unref().len() == uses.cmul@.len());
        assert(uses.ev_pol4@.unref().len() == uses.ev_pol4@.len());
        assert(uses.fft4@.unref().len() == uses.fft4@.len());
        assert(uses.tree@.unref().len() == uses.tree@.len());
        assert(uses.sel@.unref().len() == uses.sel@.len());
    }
    let c: Counts = Counts {
        poseidon: uses.sponge.len() + uses.compression.len(),
        cmul: uses.cmul.len(),
        ev_pol4: uses.ev_pol4.len(),
        fft4: uses.fft4.len(),
        tree: uses.tree.len(),
        sel: uses.sel.len(),
    };
    assert(c == counts_of(*r1cs));
    assert(constraints@ == packed_constraints(*r1cs, merge));
    proof {
        lemma_bases(l, c);
        law_waiting_rows(l, c);
        l.lemma_tiers();
    }
    let tiers = l.tiers();
    let pure_tier = l.pure_tier();
    let queues: Vec<Vec<usize>> = plan_queues(l, c);
    let mut waiting: Vec<usize> = Vec::new();
    let mut t: usize = 0;
    while t < queues.len()
        invariant
            t <= queues@.len(),
            waiting@.len() == t,
            forall|k: int| 0 <= k < t ==> #[trigger] waiting@[k] == queues@[k]@.len(),
        decreases queues@.len() - t,
    {
        waiting.push(queues[t].len());
        t = t + 1;
    }
    assert(Seq::new(waiting@.len(), |i: int| waiting@[i] as nat) =~= waiting_of(grid(queues@)));
    let n_plonk_rows: usize = count_own_rows(
        &tiers,
        &pure_tier,
        waiting,
        &constraints,
        Ghost(l.gates()),
    );
    assert(n_plonk_rows == plonk_rows(l, *r1cs, merge));
    let n_custom: usize = count_custom_rows(l, c);
    let n_used: usize = n_custom + n_plonk_rows;
    let (n_bits, n) = height_bits(n_used);
    let (s_map, cv) = place_custom(l, r1cs, &uses, c, n);
    let mut placer: Placer = Placer {
        s_map,
        cv,
        partial: OpenGates::new(),
        half: Vec::new(),
        queues,
        row: n_custom,
    };
    let ghost cols = l.spec_committed_pols();
    proof {
        assert(placer.half@ =~= Seq::<Slots>::empty());
        assert(placer.state() == custom_placing(l, *r1cs, n as int));
        let st = placer.state();
        assert forall|i: int, j: int|
            0 <= i < st.queues.len() && 0 <= j < st.queues[i].len() implies #[trigger] st.queues[i][j]
            < n by {
            assert(st.queues[i][j] < custom_rows(l, c));
        }
        assert(fits(st, cols, n as int, l.gates()));
    }
    placer.place_constraints(
        &tiers,
        &pure_tier,
        &constraints,
        Ghost(cols),
        Ghost(n as int),
        Ghost(l.gates()),
    );
    let ghost done = placer.state();
    assert(done == packed_placing(l, *r1cs, merge, n as int));
    assert(placer.row == n_used);
    let mut cells: Vec<Vec<u32>> = placer.s_map;
    apply_remap_to_s_map(&mut cells, copy_merge.remap.as_slice());
    let ghost want = packed_cells(l, *r1cs, merge, n as int);
    proof {
        let cs = plonk_system(*r1cs).constraints;
        assert forall|id: u32| remapped_id(copy_merge.remap@, id) == #[trigger] packed_id(
            *r1cs,
            merge,
            id,
        ) by {
            if merge {
                let m = (copy_merge.remap@.len() - 1) as u32;
                if id >= copy_merge.remap@.len() {
                    lemma_rep_outside(cs, publics(*r1cs), cs.len(), m, id);
                } else {
                    assert(copy_merge.remap@[id as int] == rep(cs, publics(*r1cs), id));
                }
            }
        }
        assert forall|x: int| 0 <= x < want.len() implies remapped(
            done.cells,
            copy_merge.remap@,
        )[x] == #[trigger] want[x] by {
            assert(remapped(done.cells, copy_merge.remap@)[x] =~= want[x]);
        }
        assert(remapped(done.cells, copy_merge.remap@) =~= want);
        assert(is_table(want, cols, n as int)) by {
            assert forall|x: int| 0 <= x < cols implies (#[trigger] want[x]).len() == n by {
                assert(done.cells[x].len() == n);
            }
        }
        lemma_total_cells_table(want, cols, n as int, cols as nat);
        assert(cols * n <= 48 * n) by (nonlinear_arith)
            requires
                cols <= 48,
                n >= 0,
        ;
    }
    let verdict: Result<(), UnsoundMerge> = verify_merge_soundness(
        &cells,
        copy_merge.merged_reps.as_slice(),
        l.n_cols(),
    );
    match verdict {
        Err(e) => {
            proof {
                lemma_unsound(l, *r1cs, merge, n_bits as nat, copy_merge.merged_reps@, e.bad as nat);
                assert(merge);
                assert(counts_unenforced(
                    l,
                    *r1cs,
                    n_bits as nat,
                    copy_merge.merged_reps@,
                    e.bad as nat,
                ));
            }
            Err(e)
        },
        Ok(_) => {
            proof {
                lemma_sound(l, *r1cs, merge, n_bits as nat, copy_merge.merged_reps@);
            }
            let name: String = airgroup_name(options, stamp);
            let max_constraint_degree: usize = match l.kind {
                SetupType::Aggregation => match options.max_constraint_degree {
                    Some(d) => d,
                    None => 8,
                },
                SetupType::Compressor => 5,
            };
            let template_file: &'static str = match (l.family, l.kind) {
                (HashFamily::Poseidon1, SetupType::Aggregation) => "poseidon1/aggregator",
                (HashFamily::Poseidon1, SetupType::Compressor) => "poseidon1/compressor",
                (HashFamily::Poseidon2, SetupType::Aggregation) => "poseidon2/aggregator",
                (HashFamily::Poseidon2, SetupType::Compressor) => "poseidon2/compressor",
            };
            let template_name: &'static str = match l.kind {
                SetupType::Aggregation => "Aggregator",
                SetupType::Compressor => "Compressor",
            };
            let pil: PilTemplateParams = PilTemplateParams {
                template_file,
                template_name,
                namespace_name: name.clone(),
                n_bits,
                n_publics: r1cs.header.n_outputs + r1cs.header.n_pub_inputs,
                max_constraint_degree,
                n_plonk_rows,
                n_poseidon_compression: uses.compression.len(),
                n_poseidon_sponge: uses.sponge.len(),
                n_cmul_rows: cmul_row_count(c.cmul, l.cmul_per_row()),
                n_ev_pol4: c.ev_pol4,
                n_fft4: c.fft4,
                n_tree_selector: c.tree,
                n_select_val1: c.sel,
            };
            Ok(
                SetupResult {
                    pil,
                    cv: placer.cv,
                    n_bits,
                    n_used,
                    s_map: cells,
                    plonk_additions: additions,
                    airgroup_name: name.clone(),
                    air_name: name,
                },
            )
        },
    }
}

/// Where some representative is not enforced, the merge is not.
proof fn lemma_unsound(
    l: Layout,
    r1cs: R1csFile,
    merge: bool,
    b: nat,
    reps: Seq<u32>,
    bad: nat,
)
    requires
        is_n_bits(used_rows(l, r1cs, merge), b),
        !merge ==> reps.len() == 0,
        merge ==> forall|x: u32| #[trigger]
            reps.contains(x) <==> is_merged_rep(
                plonk_system(r1cs).constraints,
                publics(r1cs),
                x,
            ),
        bad > 0,
        bad == unenforced(
            packed_cells(l, r1cs, merge, vstd::arithmetic::power2::pow2(b) as int),
            reps,
            l.spec_n_cols() as nat,
            reps.len(),
        ),
    ensures
        !merge_enforced(l, r1cs, merge),
{
    let g = packed_cells(l, r1cs, merge, vstd::arithmetic::power2::pow2(b) as int);
    let i = lemma_find_unenforced(g, reps, l.spec_n_cols() as nat, reps.len());
    assert(reps.contains(reps[i]));
    assert(is_merged_rep(plonk_system(r1cs).constraints, publics(r1cs), reps[i]));
}

proof fn lemma_find_unenforced(g: Seq<Seq<u32>>, reps: Seq<u32>, n_cols: nat, n: nat) -> (i: int)
    requires
        unenforced(g, reps, n_cols, n) > 0,
        n <= reps.len(),
    ensures
        0 <= i < n,
        in_band(g, reps[i], n_cols) < 2,
    decreases n,
{
    if in_band(g, reps[n - 1], n_cols) < 2 {
        n - 1
    } else {
        lemma_find_unenforced(g, reps, n_cols, (n - 1) as nat)
    }
}

/// Where every representative is enforced, the merge is.
proof fn lemma_sound(l: Layout, r1cs: R1csFile, merge: bool, b: nat, reps: Seq<u32>)
    requires
        is_n_bits(used_rows(l, r1cs, merge), b),
        merge ==> forall|x: u32| #[trigger]
            reps.contains(x) <==> is_merged_rep(
                plonk_system(r1cs).constraints,
                publics(r1cs),
                x,
            ),
        unenforced(
            packed_cells(l, r1cs, merge, vstd::arithmetic::power2::pow2(b) as int),
            reps,
            l.spec_n_cols() as nat,
            reps.len(),
        ) == 0,
    ensures
        merge_enforced(l, r1cs, merge),
{
    if merge {
        assert forall|x: u32, d: nat|
            #![trigger is_merged_rep(plonk_system(r1cs).constraints, publics(r1cs), x), is_n_bits(
                used_rows(l, r1cs, merge),
                d,
            )]
            is_merged_rep(plonk_system(r1cs).constraints, publics(r1cs), x) && is_n_bits(
                used_rows(l, r1cs, merge),
                d,
            ) implies in_band(
            packed_cells(l, r1cs, merge, vstd::arithmetic::power2::pow2(d) as int),
            x,
            l.spec_n_cols() as nat,
        ) >= 2 by {
            lemma_n_bits_unique(used_rows(l, r1cs, merge), b, d);
            assert(reps.contains(x));
            let i = reps.index_of(x);
            crate::plonk2pil::merge_copies::law_sound_merge_is_enforced(
                packed_cells(l, r1cs, merge, vstd::arithmetic::power2::pow2(b) as int),
                reps,
                l.spec_n_cols() as nat,
                reps.len(),
                i,
            );
        }
    }
}

} // verus!

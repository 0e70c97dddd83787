//! Where the signals of custom gates stand in a packed trace, by column, row and position.
use vstd::prelude::*;

use crate::field::{eqp, lemma_eqp_mul, lemma_residue_eqp, residue};
use crate::plonk2pil::custom_gates::first_declaring;
use crate::plonk2pil::grid::grid;
use crate::plonk2pil::layout::{block, HashFamily, Layout, SetupType};
use crate::plonk2pil::merge_copies::rep;
use crate::plonk2pil::packer::{
    counts_of, fft4_coefs, fft4_known, fft4_uses, is_packed, packable, packed_cells,
    packed_constraints, packed_placing, role_uses, used_rows, PlonkOptions, SetupResult,
};
use crate::plonk2pil::packer_laws::{
    is_index, law_packed_cmul, law_packed_constraints_placed, law_packed_idle_coefs,
    law_packed_poseidon, law_packed_single_row, law_packed_tree, lemma_counts, lemma_packed_tables,
    offered, poseidon_start, GateKind,
};
use crate::plonk2pil::placement_laws::slot_holds;
use crate::plonk2pil::r1cs::{CustomGate, CustomGateUse, GateRole, R1csFile};
use crate::plonk2pil::rows::{cmul_base, ev_base, fft_base, lemma_bases, sel_base, tree_base};
use crate::plonk2pil::to_plonk::{plonk_system, PlonkConstraint};

verus! {

/// A cell of the trace holds a signal: under its own number, or, where copies are merged, under
/// the number of its representative.
pub open spec fn cell_holds(
    r1cs: R1csFile,
    options: PlonkOptions,
    s: SetupResult,
    col: int,
    row: int,
    signal: u64,
) -> bool {
    &&& 0 <= col < s.s_map@.len()
    &&& 0 <= row < s.s_map@[col]@.len()
    &&& s.s_map@[col]@[row] == if options.merge_copies {
        rep(
            plonk_system(r1cs).constraints,
            (r1cs.header.n_outputs + r1cs.header.n_pub_inputs) as u32,
            signal as u32,
        )
    } else {
        signal as u32
    }
}

/// The number of uses of a gate.
pub open spec fn n_uses(r1cs: R1csFile, role: GateRole) -> int {
    role_uses(r1cs, role).len() as int
}

/// The number of the first Poseidon gate of a role: sponges stand before compressions for
/// Poseidon2, behind them for Poseidon1.
pub open spec fn poseidon_before(l: Layout, r1cs: R1csFile, role: GateRole) -> int {
    match (l.family, role) {
        (HashFamily::Poseidon2, GateRole::PoseidonCompression) => n_uses(
            r1cs,
            GateRole::PoseidonSponge,
        ),
        (HashFamily::Poseidon1, GateRole::PoseidonSponge) => n_uses(
            r1cs,
            GateRole::PoseidonCompression,
        ),
        _ => 0,
    }
}

proof fn lemma_cell(
    l: Layout,
    r1cs: R1csFile,
    options: PlonkOptions,
    stamp: u64,
    s: SetupResult,
    col: int,
    row: int,
    signal: u64,
)
    requires
        is_packed(l, r1cs, options, stamp, s),
        0 <= col < l.spec_committed_pols(),
        0 <= row < vstd::arithmetic::power2::pow2(s.n_bits as nat),
        packed_placing(
            l,
            r1cs,
            options.merge_copies,
            vstd::arithmetic::power2::pow2(s.n_bits as nat) as int,
        ).cells[col][row] == signal as u32,
    ensures
        cell_holds(r1cs, options, s, col, row, signal),
{
    let rows = vstd::arithmetic::power2::pow2(s.n_bits as nat) as int;
    let g = packed_cells(l, r1cs, options.merge_copies, rows);
    let p = packed_placing(l, r1cs, options.merge_copies, rows).cells;
    assert(grid(s.s_map@)[col] == s.s_map@[col]@);
    assert(g.len() == p.len());
    assert(g[col].len() == rows);
    assert(g[col].len() == p[col].len());
    assert(grid(s.s_map@)[col][row] == g[col][row]);
}

/// One signal of a Poseidon gate, by its block.
proof fn lemma_poseidon_cell(
    l: Layout,
    r1cs: R1csFile,
    options: PlonkOptions,
    stamp: u64,
    s: SetupResult,
    role: GateRole,
    u: int,
    i: int,
    k: int,
)
    requires
        packable(l, r1cs, options.merge_copies),
        is_packed(l, r1cs, options, stamp, s),
        role == GateRole::PoseidonSponge || role == GateRole::PoseidonCompression,
        0 <= u < role_uses(r1cs, role).len(),
        0 <= i < l.spec_poseidon_blocks(
            if role == GateRole::PoseidonCompression {
                2
            } else {
                0
            },
        ).len(),
        0 <= k < l.spec_poseidon_blocks(
            if role == GateRole::PoseidonCompression {
                2
            } else {
                0
            },
        )[i].n,
    ensures
        ({
            let b = l.spec_poseidon_blocks(
                if role == GateRole::PoseidonCompression {
                    2
                } else {
                    0
                },
            )[i];
            cell_holds(
                r1cs,
                options,
                s,
                b.col + k,
                l.spec_poseidon_rows() * (poseidon_before(l, r1cs, role) + u) + b.off,
                role_uses(r1cs, role)[u].signals@[b.sig + k],
            )
        }),
{
    let rows = vstd::arithmetic::power2::pow2(s.n_bits as nat) as int;
    let b = l.spec_poseidon_blocks(
        if role == GateRole::PoseidonCompression {
            2
        } else {
            0
        },
    )[i];
    law_packed_poseidon(l, r1cs, options.merge_copies, s.n_bits as nat, role, u, i, k);
    assert(poseidon_before(l, r1cs, role) == poseidon_start(l, r1cs, role));
    let row = l.spec_poseidon_rows() * (poseidon_before(l, r1cs, role) + u) + b.off;
    lemma_cell(
        l,
        r1cs,
        options,
        stamp,
        s,
        b.col + k,
        row,
        role_uses(r1cs, role)[u].signals@[b.sig + k],
    );
}

/// The five rows of a Poseidon gate in an aggregation trace. Its input, the first sixteen signals,
/// stands in the first sixteen columns of the first row; its output, the last sixteen signals, in
/// the same columns of the last row. The states between them stand in the columns from 16 and from
/// 32 on, two to a row; of the partial rounds eleven values of one state and eleven of another
/// fill the middle row. The key bits of a compression stand in column 15 of the second and third
/// row.
pub proof fn law_aggregation_poseidon(
    l: Layout,
    r1cs: R1csFile,
    options: PlonkOptions,
    stamp: u64,
    s: SetupResult,
    role: GateRole,
    u: int,
    i: int,
)
    requires
        packable(l, r1cs, options.merge_copies),
        is_packed(l, r1cs, options, stamp, s),
        l.kind == SetupType::Aggregation,
        role == GateRole::PoseidonSponge || role == GateRole::PoseidonCompression,
        0 <= u < role_uses(r1cs, role).len(),
        0 <= i < 16,
    ensures
        ({
            let sig = role_uses(r1cs, role)[u].signals@;
            let n = sig.len() as int;
            let r = 5 * (poseidon_before(l, r1cs, role) + u);
            let at = |col: int, row: int, k: int|
                cell_holds(r1cs, options, s, col, row, sig[k]);
            &&& n == if role == GateRole::PoseidonCompression {
                226int
            } else {
                224
            }
            &&& at(i, r, i)
            &&& at(16 + i, r, n - 208 + i)
            &&& at(32 + i, r, n - 192 + i)
            &&& at(16 + i, r + 1, n - 176 + i)
            &&& at(32 + i, r + 1, n - 160 + i)
            &&& at(16 + i, r + 2, n - 144 + i)
            &&& i < 11 ==> at(32 + i, r + 2, n - 128 + i)
            &&& i < 5 ==> at(43 + i, r + 2, n - 96 + i)
            &&& 5 <= i < 11 ==> at(4 + i, r + 2, n - 96 + i)
            &&& at(16 + i, r + 3, n - 80 + i)
            &&& at(32 + i, r + 3, n - 64 + i)
            &&& at(16 + i, r + 4, n - 48 + i)
            &&& at(32 + i, r + 4, n - 32 + i)
            &&& at(i, r + 4, n - 16 + i)
            &&& role == GateRole::PoseidonCompression ==> at(15, r + 1, 16) && at(15, r + 2, 17)
        }),
{
    reveal(Layout::spec_poseidon_blocks);
    let key: usize = if role == GateRole::PoseidonCompression {
        2
    } else {
        0
    };
    let bs = l.spec_poseidon_blocks(key);
    let n: int = 224 + key;
    assert(role_uses(r1cs, role)[u].signals@.len() == n);
    assert(bs[0] == block(16, 0, 0, 0));
    assert(bs[1] == block(16, 16, 0, (n - 208) as usize));
    assert(bs[2] == block(16, 32, 0, (n - 192) as usize));
    assert(bs[3] == block(16, 16, 1, (n - 176) as usize));
    assert(bs[4] == block(16, 32, 1, (n - 160) as usize));
    assert(bs[5] == block(16, 16, 2, (n - 144) as usize));
    assert(bs[6] == block(11, 32, 2, (n - 128) as usize));
    assert(bs[7] == block(5, 43, 2, (n - 96) as usize));
    assert(bs[8] == block(6, 9, 2, (n - 91) as usize));
    assert(bs[9] == block(16, 16, 3, (n - 80) as usize));
    assert(bs[10] == block(16, 32, 3, (n - 64) as usize));
    assert(bs[11] == block(16, 16, 4, (n - 48) as usize));
    assert(bs[12] == block(16, 32, 4, (n - 32) as usize));
    assert(bs[13] == block(16, 0, 4, (n - 16) as usize));
    lemma_poseidon_cell(l, r1cs, options, stamp, s, role, u, 0, i);
    lemma_poseidon_cell(l, r1cs, options, stamp, s, role, u, 1, i);
    lemma_poseidon_cell(l, r1cs, options, stamp, s, role, u, 2, i);
    lemma_poseidon_cell(l, r1cs, options, stamp, s, role, u, 3, i);
    lemma_poseidon_cell(l, r1cs, options, stamp, s, role, u, 4, i);
    lemma_poseidon_cell(l, r1cs, options, stamp, s, role, u, 5, i);
    if i < 11 {
        lemma_poseidon_cell(l, r1cs, options, stamp, s, role, u, 6, i);
    }
    if i < 5 {
        lemma_poseidon_cell(l, r1cs, options, stamp, s, role, u, 7, i);
    }
    if 5 <= i < 11 {
        lemma_poseidon_cell(l, r1cs, options, stamp, s, role, u, 8, i - 5);
    }
    lemma_poseidon_cell(l, r1cs, options, stamp, s, role, u, 9, i);
    lemma_poseidon_cell(l, r1cs, options, stamp, s, role, u, 10, i);
    lemma_poseidon_cell(l, r1cs, options, stamp, s, role, u, 11, i);
    lemma_poseidon_cell(l, r1cs, options, stamp, s, role, u, 12, i);
    lemma_poseidon_cell(l, r1cs, options, stamp, s, role, u, 13, i);
    if role == GateRole::PoseidonCompression {
        assert(bs[15] == block(1, 15, 2, 17));
        assert(bs[14] == block(1, 15, 1, 16));
        lemma_poseidon_cell(l, r1cs, options, stamp, s, role, u, 14, 0);
        lemma_poseidon_cell(l, r1cs, options, stamp, s, role, u, 15, 0);
    }
}

/// The ten rows of a Poseidon gate in a compressor trace. Its input, the first sixteen signals,
/// stands in the first sixteen columns of the first row; its output, the last sixteen signals, in
/// the same columns of the last row. The states between them stand in the columns of the chain, one
/// to a row; of the partial rounds eleven values of one state and eleven of another fill the sixth
/// row. The key bits of a compression stand in columns 16 and 17 of the first row.
pub proof fn law_compressor_poseidon(
    l: Layout,
    r1cs: R1csFile,
    options: PlonkOptions,
    stamp: u64,
    s: SetupResult,
    role: GateRole,
    u: int,
    i: int,
)
    requires
        packable(l, r1cs, options.merge_copies),
        is_packed(l, r1cs, options, stamp, s),
        l.kind == SetupType::Compressor,
        role == GateRole::PoseidonSponge || role == GateRole::PoseidonCompression,
        0 <= u < role_uses(r1cs, role).len(),
        0 <= i < 16,
    ensures
        ({
            let sig = role_uses(r1cs, role)[u].signals@;
            let n = sig.len() as int;
            let r = 10 * (poseidon_before(l, r1cs, role) + u);
            let p: int = if l.family == HashFamily::Poseidon1 {
                24
            } else {
                27
            };
            let at = |col: int, row: int, k: int|
                cell_holds(r1cs, options, s, col, row, sig[k]);
            &&& n == if role == GateRole::PoseidonCompression {
                226int
            } else {
                224
            }
            &&& at(i, r, i)
            &&& at(p + i, r, n - 208 + i)
            &&& at(p + i, r + 1, n - 192 + i)
            &&& at(p + i, r + 2, n - 176 + i)
            &&& at(p + i, r + 3, n - 160 + i)
            &&& at(p + i, r + 4, n - 144 + i)
            &&& i < 11 ==> at(p + i, r + 5, n - 128 + i)
            &&& i < 5 ==> at(p + 11 + i, r + 5, n - 96 + i)
            &&& 5 <= i < 11 ==> at(13 + i, r + 5, n - 96 + i)
            &&& at(p + i, r + 6, n - 80 + i)
            &&& at(p + i, r + 7, n - 64 + i)
            &&& at(p + i, r + 8, n - 48 + i)
            &&& at(p + i, r + 9, n - 32 + i)
            &&& at(i, r + 9, n - 16 + i)
            &&& role == GateRole::PoseidonCompression ==> at(16, r, 16) && at(17, r, 17)
        }),
{
    reveal(Layout::spec_poseidon_blocks);
    let key: usize = if role == GateRole::PoseidonCompression {
        2
    } else {
        0
    };
    let bs = l.spec_poseidon_blocks(key);
    let n: int = 224 + key;
    let p: usize = if l.family == HashFamily::Poseidon1 {
        24
    } else {
        27
    };
    assert(role_uses(r1cs, role)[u].signals@.len() == n);
    assert(bs[0] == block(16, 0, 0, 0));
    assert(bs[1] == block(16, p, 0, (n - 208) as usize));
    assert(bs[2] == block(16, p, 1, (n - 192) as usize));
    assert(bs[3] == block(16, p, 2, (n - 176) as usize));
    assert(bs[4] == block(16, p, 3, (n - 160) as usize));
    assert(bs[5] == block(16, p, 4, (n - 144) as usize));
    assert(bs[6] == block(11, p, 5, (n - 128) as usize));
    assert(bs[7] == block(5, (p + 11) as usize, 5, (n - 96) as usize));
    assert(bs[8] == block(6, 18, 5, (n - 91) as usize));
    assert(bs[9] == block(16, p, 6, (n - 80) as usize));
    assert(bs[10] == block(16, p, 7, (n - 64) as usize));
    assert(bs[11] == block(16, p, 8, (n - 48) as usize));
    assert(bs[12] == block(16, p, 9, (n - 32) as usize));
    assert(bs[13] == block(16, 0, 9, (n - 16) as usize));
    lemma_poseidon_cell(l, r1cs, options, stamp, s, role, u, 0, i);
    lemma_poseidon_cell(l, r1cs, options, stamp, s, role, u, 1, i);
    lemma_poseidon_cell(l, r1cs, options, stamp, s, role, u, 2, i);
    lemma_poseidon_cell(l, r1cs, options, stamp, s, role, u, 3, i);
    lemma_poseidon_cell(l, r1cs, options, stamp, s, role, u, 4, i);
    lemma_poseidon_cell(l, r1cs, options, stamp, s, role, u, 5, i);
    if i < 11 {
        lemma_poseidon_cell(l, r1cs, options, stamp, s, role, u, 6, i);
    }
    if i < 5 {
        lemma_poseidon_cell(l, r1cs, options, stamp, s, role, u, 7, i);
    }
    if 5 <= i < 11 {
        lemma_poseidon_cell(l, r1cs, options, stamp, s, role, u, 8, i - 5);
    }
    lemma_poseidon_cell(l, r1cs, options, stamp, s, role, u, 9, i);
    lemma_poseidon_cell(l, r1cs, options, stamp, s, role, u, 10, i);
    lemma_poseidon_cell(l, r1cs, options, stamp, s, role, u, 11, i);
    lemma_poseidon_cell(l, r1cs, options, stamp, s, role, u, 12, i);
    lemma_poseidon_cell(l, r1cs, options, stamp, s, role, u, 13, i);
    if role == GateRole::PoseidonCompression {
        assert(bs[15] == block(1, 17, 0, 17));
        assert(bs[14] == block(1, 16, 0, 16));
        lemma_poseidon_cell(l, r1cs, options, stamp, s, role, u, 14, 0);
        lemma_poseidon_cell(l, r1cs, options, stamp, s, role, u, 15, 0);
    }
}

/// The first row behind the Poseidon gates.
pub open spec fn row_of_cmuls(l: Layout, r1cs: R1csFile) -> int {
    let n = n_uses(r1cs, GateRole::PoseidonSponge) + n_uses(r1cs, GateRole::PoseidonCompression);
    if l.kind == SetupType::Aggregation {
        5 * n
    } else {
        10 * n
    }
}

/// The first row behind the complex multiplications: two of them share a row of an aggregation
/// trace, three a row of a compressor trace.
pub open spec fn row_of_evs(l: Layout, r1cs: R1csFile) -> int {
    let n = n_uses(r1cs, GateRole::CMul);
    row_of_cmuls(l, r1cs) + if l.kind == SetupType::Aggregation {
        (n + 1) / 2
    } else {
        (n + 2) / 3
    }
}

/// The first row behind the polynomial evaluations, one to a row.
pub open spec fn row_of_ffts(l: Layout, r1cs: R1csFile) -> int {
    row_of_evs(l, r1cs) + n_uses(r1cs, GateRole::EvPol4)
}

/// The first row behind the FFTs, one to a row.
pub open spec fn row_of_trees(l: Layout, r1cs: R1csFile) -> int {
    row_of_ffts(l, r1cs) + fft4_uses(r1cs).len()
}

/// The first row behind the tree selectors: Poseidon1's take two rows, Poseidon2's one.
pub open spec fn row_of_sels(l: Layout, r1cs: R1csFile) -> int {
    let n = n_uses(r1cs, GateRole::TreeSelector);
    row_of_trees(l, r1cs) + if l.family == HashFamily::Poseidon1 {
        2 * n
    } else {
        n
    }
}

proof fn lemma_rows(l: Layout, r1cs: R1csFile, merge: bool)
    requires
        packable(l, r1cs, merge),
    ensures
        cmul_base(l, counts_of(r1cs)) == row_of_cmuls(l, r1cs),
        ev_base(l, counts_of(r1cs)) == row_of_evs(l, r1cs),
        fft_base(l, counts_of(r1cs)) == row_of_ffts(l, r1cs),
        tree_base(l, counts_of(r1cs)) == row_of_trees(l, r1cs),
        sel_base(l, counts_of(r1cs)) == row_of_sels(l, r1cs),
{
    lemma_counts(r1cs);
    assert(role_uses(r1cs, GateRole::CMul).len() <= usize::MAX);
    assert(role_uses(r1cs, GateRole::EvPol4).len() <= usize::MAX);
    assert(role_uses(r1cs, GateRole::TreeSelector).len() <= usize::MAX);
}

/// A complex multiplication in a packed trace: its nine signals stand side by side, in the row of
/// the pair, or of the three, that it belongs to.
pub proof fn law_cmul_cells(
    l: Layout,
    r1cs: R1csFile,
    options: PlonkOptions,
    stamp: u64,
    s: SetupResult,
    u: int,
    k: int,
)
    requires
        packable(l, r1cs, options.merge_copies),
        is_packed(l, r1cs, options, stamp, s),
        0 <= u < n_uses(r1cs, GateRole::CMul),
        0 <= k < 9,
    ensures
        ({
            let signal = role_uses(r1cs, GateRole::CMul)[u].signals@[k];
            let row = row_of_cmuls(l, r1cs);
            &&& l.kind == SetupType::Aggregation ==> cell_holds(
                r1cs,
                options,
                s,
                9 * (u % 2) + k,
                row + u / 2,
                signal,
            )
            &&& l.kind == SetupType::Compressor ==> cell_holds(
                r1cs,
                options,
                s,
                9 * (u % 3) + k,
                row + u / 3,
                signal,
            )
        }),
{
    lemma_rows(l, r1cs, options.merge_copies);
    law_packed_cmul(l, r1cs, options.merge_copies, s.n_bits as nat, u, k);
    let per = l.spec_cmul_per_row();
    lemma_cell(
        l,
        r1cs,
        options,
        stamp,
        s,
        9 * (u % per) + k,
        row_of_cmuls(l, r1cs) + u / per,
        role_uses(r1cs, GateRole::CMul)[u].signals@[k],
    );
}

/// A polynomial evaluation in a packed trace: its 21 signals stand side by side in a row of its
/// own.
pub proof fn law_ev_cells(
    l: Layout,
    r1cs: R1csFile,
    options: PlonkOptions,
    stamp: u64,
    s: SetupResult,
    u: int,
    k: int,
)
    requires
        packable(l, r1cs, options.merge_copies),
        is_packed(l, r1cs, options, stamp, s),
        0 <= u < n_uses(r1cs, GateRole::EvPol4),
        0 <= k < 21,
    ensures
        cell_holds(
            r1cs,
            options,
            s,
            k,
            row_of_evs(l, r1cs) + u,
            role_uses(r1cs, GateRole::EvPol4)[u].signals@[k],
        ),
{
    lemma_rows(l, r1cs, options.merge_copies);
    law_packed_single_row(
        l,
        r1cs,
        options.merge_copies,
        s.n_bits as nat,
        GateKind::EvPol4,
        u,
        k,
    );
    lemma_cell(
        l,
        r1cs,
        options,
        stamp,
        s,
        k,
        row_of_evs(l, r1cs) + u,
        role_uses(r1cs, GateRole::EvPol4)[u].signals@[k],
    );
}

/// An FFT in a packed trace: its 24 signals stand side by side in a row of its own.
pub proof fn law_fft_cells(
    l: Layout,
    r1cs: R1csFile,
    options: PlonkOptions,
    stamp: u64,
    s: SetupResult,
    u: int,
    k: int,
)
    requires
        packable(l, r1cs, options.merge_copies),
        is_packed(l, r1cs, options, stamp, s),
        0 <= u < fft4_uses(r1cs).len(),
        0 <= k < 24,
    ensures
        cell_holds(
            r1cs,
            options,
            s,
            k,
            row_of_ffts(l, r1cs) + u,
            fft4_uses(r1cs)[u].signals@[k],
        ),
{
    lemma_rows(l, r1cs, options.merge_copies);
    law_packed_single_row(l, r1cs, options.merge_copies, s.n_bits as nat, GateKind::Fft4, u, k);
    lemma_cell(
        l,
        r1cs,
        options,
        stamp,
        s,
        k,
        row_of_ffts(l, r1cs) + u,
        fft4_uses(r1cs)[u].signals@[k],
    );
}

/// A tree selector in a packed trace: Poseidon2's 17 signals stand side by side in one row;
/// Poseidon1's 30 fill a first row as far as the connected columns go, and go on in a second.
pub proof fn law_tree_cells(
    l: Layout,
    r1cs: R1csFile,
    options: PlonkOptions,
    stamp: u64,
    s: SetupResult,
    u: int,
    k: int,
)
    requires
        packable(l, r1cs, options.merge_copies),
        is_packed(l, r1cs, options, stamp, s),
        0 <= u < n_uses(r1cs, GateRole::TreeSelector),
        0 <= k < if l.family == HashFamily::Poseidon1 {
            30int
        } else {
            17
        },
    ensures
        ({
            let signal = role_uses(r1cs, GateRole::TreeSelector)[u].signals@[k];
            let row = row_of_trees(l, r1cs);
            let width = if l.kind == SetupType::Aggregation {
                24int
            } else {
                27
            };
            &&& l.family == HashFamily::Poseidon2 ==> cell_holds(
                r1cs,
                options,
                s,
                k,
                row + u,
                signal,
            )
            &&& l.family == HashFamily::Poseidon1 && k < width ==> cell_holds(
                r1cs,
                options,
                s,
                k,
                row + 2 * u,
                signal,
            )
            &&& l.family == HashFamily::Poseidon1 && k >= width ==> cell_holds(
                r1cs,
                options,
                s,
                k - width,
                row + 2 * u + 1,
                signal,
            )
        }),
{
    lemma_rows(l, r1cs, options.merge_copies);
    let width = if l.kind == SetupType::Aggregation {
        24int
    } else {
        27
    };
    let i: int = if l.family == HashFamily::Poseidon1 && k >= width {
        1
    } else {
        0
    };
    let b = l.spec_tree_blocks()[i];
    law_packed_tree(l, r1cs, options.merge_copies, s.n_bits as nat, u, i, k - b.sig);
    lemma_cell(
        l,
        r1cs,
        options,
        stamp,
        s,
        b.col + k - b.sig,
        row_of_trees(l, r1cs) + l.spec_tree_rows() * u + b.off,
        role_uses(r1cs, GateRole::TreeSelector)[u].signals@[k],
    );
}

/// A value selector in a packed trace: its 22 signals stand side by side in a row of its own.
pub proof fn law_sel_cells(
    l: Layout,
    r1cs: R1csFile,
    options: PlonkOptions,
    stamp: u64,
    s: SetupResult,
    u: int,
    k: int,
)
    requires
        packable(l, r1cs, options.merge_copies),
        is_packed(l, r1cs, options, stamp, s),
        0 <= u < n_uses(r1cs, GateRole::SelectVal1),
        0 <= k < 22,
    ensures
        cell_holds(
            r1cs,
            options,
            s,
            k,
            row_of_sels(l, r1cs) + u,
            role_uses(r1cs, GateRole::SelectVal1)[u].signals@[k],
        ),
{
    lemma_rows(l, r1cs, options.merge_copies);
    law_packed_single_row(l, r1cs, options.merge_copies, s.n_bits as nat, GateKind::Sel, u, k);
    lemma_cell(
        l,
        r1cs,
        options,
        stamp,
        s,
        k,
        row_of_sels(l, r1cs) + u,
        role_uses(r1cs, GateRole::SelectVal1)[u].signals@[k],
    );
}

proof fn lemma_first_declaring(gates: Seq<CustomGate>, role: GateRole, n: nat)
    requires
        n <= gates.len() <= u32::MAX,
        role != GateRole::Fft4,
    ensures
        match first_declaring(gates, role, n) {
            Some(i) => i < n && gates[i as int].known is Some && gates[i as int].known->0.role == role
                && forall|j: int|
                0 <= j < i ==> !((#[trigger] gates[j]).known is Some && gates[j].known->0.role
                    == role),
            None => forall|j: int|
                0 <= j < n ==> !((#[trigger] gates[j]).known is Some && gates[j].known->0.role
                    == role),
        },
    decreases n,
{
    if n > 0 {
        lemma_first_declaring(gates, role, (n - 1) as nat);
    }
}

/// The uses of a role are those of the first gate that is declared with it, in the order of the
/// R1CS; a role that no gate is declared with has none.
pub proof fn law_role_uses(r1cs: R1csFile, role: GateRole, id: u32)
    requires
        r1cs.custom_gates@.len() <= u32::MAX,
        role != GateRole::Fft4,
    ensures
        ({
            let gates = r1cs.custom_gates@;
            let declared = |j: int| gates[j].known is Some && gates[j].known->0.role == role;
            &&& id < gates.len() && declared(id as int) && (forall|j: int|
                0 <= j < id ==> !#[trigger] declared(j)) ==> role_uses(r1cs, role)
                == r1cs.custom_gates_uses@.filter(|u: CustomGateUse| u.id == id)
            &&& (forall|j: int| 0 <= j < gates.len() ==> !#[trigger] declared(j)) ==> role_uses(
                r1cs,
                role,
            ).len() == 0
        }),
{
    let gates = r1cs.custom_gates@;
    let declared = |j: int| gates[j].known is Some && gates[j].known->0.role == role;
    lemma_first_declaring(gates, role, gates.len());
    if id < gates.len() && declared(id as int) && forall|j: int|
        0 <= j < id ==> !#[trigger] declared(j) {
        let i = first_declaring(gates, role, gates.len())->0;
        assert(declared(i as int));
        assert(i == id);
    }
    if forall|j: int| 0 <= j < gates.len() ==> !#[trigger] declared(j) {
        if let Some(i) = first_declaring(gates, role, gates.len()) {
            assert(declared(i as int));
        }
    }
}

/// The FFT uses are those of all gates that are declared as FFTs, in the order of the R1CS.
pub proof fn law_fft_uses(r1cs: R1csFile)
    ensures
        fft4_uses(r1cs) == r1cs.custom_gates_uses@.filter(
            |u: CustomGateUse|
                u.id < r1cs.custom_gates@.len() && r1cs.custom_gates@[u.id as int].known is Some
                    && r1cs.custom_gates@[u.id as int].known->0.role == GateRole::Fft4,
        ),
{
    let a = |u: CustomGateUse| crate::plonk2pil::custom_gates::is_fft4(r1cs.custom_gates@, u.id);
    let b = |u: CustomGateUse|
        u.id < r1cs.custom_gates@.len() && r1cs.custom_gates@[u.id as int].known is Some
            && r1cs.custom_gates@[u.id as int].known->0.role == GateRole::Fft4;
    assert(a =~= b);
}

/// The coefficients of an FFT in a packed trace. Its parameters are the first weight `w`, the
/// increment of weights, the scale `v` and the size. Of size four it carries the scale times the
/// powers of `w` that its four inputs and its two halves are multiplied by; of size two the scale
/// times the weights of the two inputs.
pub proof fn law_fft_coefficients(
    l: Layout,
    r1cs: R1csFile,
    options: PlonkOptions,
    stamp: u64,
    s: SetupResult,
    u: int,
)
    requires
        packable(l, r1cs, options.merge_copies),
        is_packed(l, r1cs, options, stamp, s),
        0 <= u < fft4_uses(r1cs).len(),
    ensures
        ({
            let p = r1cs.custom_gates@[fft4_uses(r1cs)[u].id as int].parameters@;
            let (w, inc, v) = (p[0] as int, p[1] as int, p[2] as int);
            let row = row_of_ffts(l, r1cs) + u;
            let c = |k: int| s.cv@[k]@[row] as int;
            &&& s.cv@.len() == 10
            &&& p[3] == 4 || p[3] == 2
            &&& p[3] == 4 ==> {
                &&& c(0) == v
                &&& eqp(c(1), v * w * w)
                &&& eqp(c(2), v * w)
                &&& eqp(c(3), v * w * w * w)
                &&& eqp(c(4), v * w * inc)
                &&& eqp(c(5), v * w * w * w * inc)
                &&& c(6) == 0 && c(7) == 0 && c(8) == 0 && c(9) == 0
            }
            &&& p[3] == 2 ==> {
                &&& c(0) == 0 && c(1) == 0 && c(2) == 0 && c(3) == 0 && c(4) == 0 && c(5) == 0
                &&& c(6) == v
                &&& eqp(c(7), v * w)
                &&& eqp(c(8), v * w * inc)
                &&& c(9) == 0
            }
        }),
{
    let row = row_of_ffts(l, r1cs) + u;
    let b = s.n_bits as nat;
    let rows = vstd::arithmetic::power2::pow2(b) as int;
    let p = r1cs.custom_gates@[fft4_uses(r1cs)[u].id as int].parameters@;
    let (w, inc, v) = (p[0] as int, p[1] as int, p[2] as int);
    lemma_rows(l, r1cs, options.merge_copies);
    lemma_counts(r1cs);
    lemma_bases(l, counts_of(r1cs));
    assert(fft4_known(p));
    assert forall|t: int| !#[trigger] offered(l, counts_of(r1cs), row, t) by {
        lemma_row_not_offered(l, r1cs, options.merge_copies, row, t);
    }
    let all = fft4_coefs(p);
    let g = packed_placing(l, r1cs, options.merge_copies, rows).coefs;
    assert(g == grid(s.cv@));
    assert forall|k: int| 0 <= k < 10 implies #[trigger] s.cv@[k]@[row] == all[k] by {
        law_packed_idle_coefs(l, r1cs, options.merge_copies, b, row, k);
        lemma_coefs_are_ten(l, r1cs, options, stamp, s);
        assert(grid(s.cv@)[k] == s.cv@[k]@);
    }
    lemma_coefs_are_ten(l, r1cs, options, stamp, s);
    let w2 = residue(w * w);
    let vw = residue(v * w);
    lemma_residue_eqp(w * w);
    lemma_residue_eqp(v * w);
    lemma_eqp_mul(v, v, w2, w * w);
    assert(v * (w * w) == v * w * w) by (nonlinear_arith);
    lemma_residue_eqp(v * w2);
    lemma_eqp_mul(vw, v * w, w2, w * w);
    assert((v * w) * (w * w) == v * w * w * w) by (nonlinear_arith);
    lemma_residue_eqp(vw * w2);
    lemma_eqp_mul(vw, v * w, inc, inc);
    lemma_residue_eqp(vw * inc);
    lemma_eqp_mul(residue(vw * w2), v * w * w * w, inc, inc);
    lemma_residue_eqp(residue(vw * w2) * inc);
    assert(s.cv@[0]@[row] == all[0] && s.cv@[1]@[row] == all[1] && s.cv@[2]@[row] == all[2]
        && s.cv@[3]@[row] == all[3] && s.cv@[4]@[row] == all[4] && s.cv@[5]@[row] == all[5]
        && s.cv@[6]@[row] == all[6] && s.cv@[7]@[row] == all[7] && s.cv@[8]@[row] == all[8]
        && s.cv@[9]@[row] == all[9]);
}

/// A row of an FFT offers no gates.
proof fn lemma_row_not_offered(l: Layout, r1cs: R1csFile, merge: bool, row: int, t: int)
    requires
        packable(l, r1cs, merge),
        row_of_ffts(l, r1cs) <= row < row_of_trees(l, r1cs),
    ensures
        !offered(l, counts_of(r1cs), row, t),
{
    let c = counts_of(r1cs);
    lemma_rows(l, r1cs, merge);
    lemma_bases(l, c);
    let offers = l.spec_poseidon_offers();
    let h = l.spec_poseidon_rows();
    assert forall|u: int, i: int| 0 <= u < c.poseidon && 0 <= i < offers.len() implies row != h * u
        + (#[trigger] offers[i]).0 || !#[trigger] is_index(u) by {
        assert(offers[i].0 < h);
        assert(h * u + h <= h * c.poseidon) by (nonlinear_arith)
            requires
                u + 1 <= c.poseidon,
                h >= 0,
        ;
    }
}

/// The coefficients of a packed trace stand in ten columns.
proof fn lemma_coefs_are_ten(
    l: Layout,
    r1cs: R1csFile,
    options: PlonkOptions,
    stamp: u64,
    s: SetupResult,
)
    requires
        packable(l, r1cs, options.merge_copies),
        is_packed(l, r1cs, options, stamp, s),
    ensures
        s.cv@.len() == 10,
        forall|k: int|
            0 <= k < 10 ==> (#[trigger] s.cv@[k])@.len() == vstd::arithmetic::power2::pow2(
                s.n_bits as nat,
            ),
{
    let rows = vstd::arithmetic::power2::pow2(s.n_bits as nat) as int;
    lemma_packed_tables(l, r1cs, options.merge_copies, s.n_bits as nat);
    assert forall|k: int| 0 <= k < 10 implies (#[trigger] s.cv@[k])@.len() == rows by {
        assert(grid(s.cv@)[k] == s.cv@[k]@);
    }
}

/// Every PLONK constraint stands in a gate of a packed trace. Gate `g` of a row is made of the
/// three columns from `3 * g` on. Its five coefficients stand in the first five coefficient columns
/// for the first two gates of an aggregation trace and the first six of a compressor trace, in the
/// other five for the rest.
pub proof fn law_constraint_gates(
    l: Layout,
    r1cs: R1csFile,
    options: PlonkOptions,
    stamp: u64,
    s: SetupResult,
    i: int,
)
    requires
        packable(l, r1cs, options.merge_copies),
        is_packed(l, r1cs, options, stamp, s),
        0 <= i < packed_constraints(r1cs, options.merge_copies).len(),
    ensures
        exists|row: int, g: int| #[trigger]
            gate_holds(
                l,
                r1cs,
                options,
                s,
                row,
                g,
                packed_constraints(r1cs, options.merge_copies)[i],
            ),
{
    let merge = options.merge_copies;
    let b = s.n_bits as nat;
    let c = packed_constraints(r1cs, merge)[i];
    let rows = vstd::arithmetic::power2::pow2(b) as int;
    law_packed_constraints_placed(l, r1cs, merge, b, i);
    let st = packed_placing(l, r1cs, merge, rows);
    let (row, g) = choose|row: int, g: int|
        0 <= row < used_rows(l, r1cs, merge) && 0 <= g < l.gates() && #[trigger] slot_holds(
            st,
            row,
            g,
            l.split(),
            c,
        );
    assert(used_rows(l, r1cs, merge) <= rows);
    l.lemma_tiers();
    lemma_coefs_are_ten(l, r1cs, options, stamp, s);
    lemma_cell(l, r1cs, options, stamp, s, 3 * g, row, c[0]);
    lemma_cell(l, r1cs, options, stamp, s, 3 * g + 1, row, c[1]);
    lemma_cell(l, r1cs, options, stamp, s, 3 * g + 2, row, c[2]);
    let f: int = if g < l.split() {
        0
    } else {
        5
    };
    assert forall|k: int| 0 <= k < 5 implies #[trigger] s.cv@[f + k]@[row] == c[3 + k] by {
        assert(grid(s.cv@)[f + k] == s.cv@[f + k]@);
        assert(k == 0 || k == 1 || k == 2 || k == 3 || k == 4);
    }
    assert(gate_holds(l, r1cs, options, s, row, g, c));
}

/// Gate `g` of a row holds a constraint: its three signals, and its five coefficients.
pub open spec fn gate_holds(
    l: Layout,
    r1cs: R1csFile,
    options: PlonkOptions,
    s: SetupResult,
    row: int,
    g: int,
    c: PlonkConstraint,
) -> bool {
    let first: int = if g < if l.kind == SetupType::Aggregation {
        2int
    } else {
        6
    } {
        0
    } else {
        5
    };
    &&& 0 <= g < if l.kind == SetupType::Aggregation {
        8int
    } else {
        9
    }
    &&& 0 <= row < s.n_used
    &&& cell_holds(r1cs, options, s, 3 * g, row, c[0])
    &&& cell_holds(r1cs, options, s, 3 * g + 1, row, c[1])
    &&& cell_holds(r1cs, options, s, 3 * g + 2, row, c[2])
    &&& forall|k: int| 0 <= k < 5 ==> #[trigger] s.cv@[first + k]@[row] == c[3 + k]
}

} // verus!

//! How many witness cells the verifier circuit of an R1CS uses, per component.
//!
//! A cell is a single value placed into the witness. The cost per unit is what the placement
//! writes, so the count does not depend on how the rows are laid out.
use vstd::prelude::*;

use crate::plonk2pil::custom_gates::{
    filter_gate_uses, gates_error, get_custom_gates_info, n_uses, role_gate, role_slot, uses_of,
    CustomGatesInfo,
};
use crate::plonk2pil::merge_copies::{ids_fit, r1cs2plonk_merged, surviving};
use crate::plonk2pil::merge_laws::law_merge_shrinks;
use crate::plonk2pil::r1cs::{CustomGateUse, GateRole, R1csFile};
use crate::plonk2pil::to_plonk::{plonk_system, r1cs2plonk};

verus! {

/// Cells one PLONK constraint occupies: left, right and output signal.
pub const PLONK_CELLS: usize = 3;

/// Cells that one use of the role writes; `None` for the tree selector, whose width depends on
/// the hash family.
pub open spec fn gate_cells(role: GateRole) -> Option<usize> {
    match role {
        GateRole::PoseidonSponge => Some(198),
        GateRole::PoseidonCompression => Some(200),
        GateRole::CMul => Some(9),
        GateRole::EvPol4 => Some(21),
        GateRole::Fft4 => Some(24),
        GateRole::TreeSelector => None,
        GateRole::SelectVal1 => Some(22),
    }
}

/// Cells that one use of the role writes; `None` for the tree selector, whose width has to be
/// read off its signals.
pub fn cells_per_gate(role: GateRole) -> (r: Option<usize>)
    ensures
        r == gate_cells(role),
{
    match role {
        GateRole::PoseidonSponge => Some(198),
        GateRole::PoseidonCompression => Some(200),
        GateRole::CMul => Some(9),
        GateRole::EvPol4 => Some(21),
        GateRole::Fft4 => Some(24),
        GateRole::TreeSelector => None,
        GateRole::SelectVal1 => Some(22),
    }
}

/// The width of the tree selector: the signals of its first use, 17 where it has none.
pub open spec fn tree_cells(r1cs: R1csFile) -> nat {
    let uses = uses_of(r1cs.custom_gates_uses@, role_gate(r1cs, GateRole::TreeSelector));
    if uses.len() > 0 {
        uses[0].signals@.len()
    } else {
        17
    }
}

/// Cells that one use of the role writes in this R1CS.
pub open spec fn unit_cells(r1cs: R1csFile, role: GateRole) -> nat {
    match gate_cells(role) {
        Some(n) => n as nat,
        None => tree_cells(r1cs),
    }
}

/// Cells that all uses of the role write.
pub open spec fn role_cells(r1cs: R1csFile, role: GateRole) -> nat {
    n_uses(r1cs, role) * unit_cells(r1cs, role)
}

/// Cells that custom gates write.
pub open spec fn custom_cells(r1cs: R1csFile) -> nat {
    role_cells(r1cs, GateRole::PoseidonSponge) + role_cells(r1cs, GateRole::PoseidonCompression)
        + role_cells(r1cs, GateRole::CMul) + role_cells(r1cs, GateRole::Fft4) + role_cells(
        r1cs,
        GateRole::EvPol4,
    ) + role_cells(r1cs, GateRole::TreeSelector) + role_cells(r1cs, GateRole::SelectVal1)
}

/// Cells that `n_plonk` PLONK constraints and all custom gates write.
pub open spec fn total_estimate(r1cs: R1csFile, n_plonk: nat) -> nat {
    n_plonk * 3 + custom_cells(r1cs)
}

/// One component's share of the estimate.
#[derive(Debug)]
pub struct ComponentCells {
    pub name: &'static str,
    /// Number of gates or constraints.
    pub count: usize,
    /// Cells one unit uses.
    pub cells_per: usize,
    /// `count * cells_per`.
    pub cells: usize,
}

/// The cell estimate of a verifier circuit.
#[derive(Debug)]
pub struct CellEstimate {
    /// The sum of the components' cells.
    pub total_cells: usize,
    pub components: Vec<ComponentCells>,
}

/// The component is the given role's share.
pub open spec fn is_share(
    r1cs: R1csFile,
    c: ComponentCells,
    name: Seq<char>,
    role: GateRole,
) -> bool {
    &&& c.name@ == name
    &&& c.count == n_uses(r1cs, role)
    &&& c.cells_per == unit_cells(r1cs, role)
    &&& c.cells == role_cells(r1cs, role)
}

/// The estimate is that of `n_plonk` PLONK constraints and the R1CS's custom gates.
pub open spec fn is_estimate(r1cs: R1csFile, n_plonk: nat, e: CellEstimate) -> bool {
    let c = e.components@;
    &&& e.total_cells == total_estimate(r1cs, n_plonk)
    &&& c.len() == 8
    &&& c[0].name@ == "PLONK"@
    &&& c[0].count == n_plonk
    &&& c[0].cells_per == 3
    &&& c[0].cells == n_plonk * 3
    &&& is_share(r1cs, c[1], "Poseidon Sponge"@, GateRole::PoseidonSponge)
    &&& is_share(r1cs, c[2], "Poseidon Compression"@, GateRole::PoseidonCompression)
    &&& is_share(r1cs, c[3], "CMul"@, GateRole::CMul)
    &&& is_share(r1cs, c[4], "FFT4"@, GateRole::Fft4)
    &&& is_share(r1cs, c[5], "EvPol4"@, GateRole::EvPol4)
    &&& is_share(r1cs, c[6], "TreeSelector"@, GateRole::TreeSelector)
    &&& is_share(r1cs, c[7], "SelectVal1"@, GateRole::SelectVal1)
}

/// The sum of the first `n` components' cells.
pub open spec fn sum_cells(c: Seq<ComponentCells>, n: nat) -> nat
    decreases n,
{
    if n == 0 {
        0
    } else {
        sum_cells(c, (n - 1) as nat) + c[n - 1].cells as nat
    }
}

fn tree_selector_cells(r1cs: &R1csFile, info: &CustomGatesInfo) -> (r: usize)
    requires
        info.describes(*r1cs),
    ensures
        r == tree_cells(*r1cs),
{
    let id: Option<u32> = info.role_id(GateRole::TreeSelector);
    assert(id == role_gate(*r1cs, GateRole::TreeSelector));
    let uses: Vec<&CustomGateUse> = filter_gate_uses(r1cs.custom_gates_uses.as_slice(), id);
    proof {
        let want = uses_of(r1cs.custom_gates_uses@, id);
        assert(uses@.unref().len() == uses@.len());
        if want.len() > 0 {
            assert(uses@.unref()[0] == *uses@[0]);
        }
    }
    if uses.len() > 0 {
        uses[0].signals.len()
    } else {
        17
    }
}

fn share(
    r1cs: &R1csFile,
    info: &CustomGatesInfo,
    tree: usize,
    name: &'static str,
    role: GateRole,
) -> (c: ComponentCells)
    requires
        info.describes(*r1cs),
        tree == tree_cells(*r1cs),
        role_cells(*r1cs, role) <= usize::MAX,
    ensures
        is_share(*r1cs, c, name@, role),
{
    let count: usize = info.n(role);
    assert(count == n_uses(*r1cs, role)) by {
        assert(info.n_per_role[role_slot(role)] == n_uses(*r1cs, role));
    }
    let cells_per: usize = match cells_per_gate(role) {
        Some(n) => n,
        None => tree,
    };
    ComponentCells { name, count, cells_per, cells: count * cells_per }
}

/// The estimate for a given number of PLONK constraints. Merging only renames signals, so the
/// custom gates count the same with and without it.
fn estimate_with_plonk_count(r1cs: &R1csFile, n_plonk: usize) -> (e: CellEstimate)
    requires
        gates_error(*r1cs) is None,
        r1cs.custom_gates@.len() <= u32::MAX,
        total_estimate(*r1cs, n_plonk as nat) <= usize::MAX,
    ensures
        is_estimate(*r1cs, n_plonk as nat, e),
        e.total_cells == sum_cells(e.components@, e.components@.len()),
{
    let info: CustomGatesInfo = get_custom_gates_info(r1cs);
    let tree: usize = tree_selector_cells(r1cs, &info);
    let mut components: Vec<ComponentCells> = Vec::new();
    components.push(
        ComponentCells {
            name: "PLONK",
            count: n_plonk,
            cells_per: PLONK_CELLS,
            cells: n_plonk * PLONK_CELLS,
        },
    );
    components.push(share(r1cs, &info, tree, "Poseidon Sponge", GateRole::PoseidonSponge));
    components.push(
        share(r1cs, &info, tree, "Poseidon Compression", GateRole::PoseidonCompression),
    );
    components.push(share(r1cs, &info, tree, "CMul", GateRole::CMul));
    components.push(share(r1cs, &info, tree, "FFT4", GateRole::Fft4));
    components.push(share(r1cs, &info, tree, "EvPol4", GateRole::EvPol4));
    components.push(share(r1cs, &info, tree, "TreeSelector", GateRole::TreeSelector));
    components.push(share(r1cs, &info, tree, "SelectVal1", GateRole::SelectVal1));
    proof {
        reveal_with_fuel(sum_cells, 9);
    }
    let mut total_cells: usize = 0;
    let mut i: usize = 0;
    while i < components.len()
        invariant
            i <= components@.len(),
            components@.len() == 8,
            total_cells == sum_cells(components@, i as nat),
            sum_cells(components@, 8) <= usize::MAX,
        decreases components@.len() - i,
    {
        proof {
            lemma_sum_grows(components@, (i + 1) as nat, 8);
        }
        total_cells = total_cells + components[i].cells;
        i = i + 1;
    }
    CellEstimate { total_cells, components }
}

proof fn lemma_sum_grows(c: Seq<ComponentCells>, i: nat, n: nat)
    requires
        i <= n,
    ensures
        sum_cells(c, i) <= sum_cells(c, n),
    decreases n,
{
    if i < n {
        lemma_sum_grows(c, i, (n - 1) as nat);
    }
}

/// The estimate is well defined: gates are in order and the counts fit.
pub open spec fn estimable(r1cs: R1csFile) -> bool {
    &&& gates_error(r1cs) is None
    &&& r1cs.custom_gates@.len() <= u32::MAX
    &&& plonk_system(r1cs).n_vars <= u32::MAX
    &&& total_estimate(r1cs, plonk_system(r1cs).constraints.len()) <= usize::MAX
}

/// Copies can be merged: publics can be counted and ids leave room for a table.
pub open spec fn can_merge(r1cs: R1csFile) -> bool {
    &&& r1cs.header.n_outputs + r1cs.header.n_pub_inputs <= u32::MAX
    &&& ids_fit(plonk_system(r1cs).constraints, plonk_system(r1cs).additions)
}

/// The number of constraints that survive merging.
pub open spec fn merged_count(r1cs: R1csFile) -> nat {
    surviving(
        plonk_system(r1cs).constraints,
        (r1cs.header.n_outputs + r1cs.header.n_pub_inputs) as u32,
    ).len()
}

/// Estimate the cells of the verifier circuit, without merging copies.
pub fn estimate_cells(r1cs: &R1csFile) -> (e: CellEstimate)
    requires
        estimable(*r1cs),
    ensures
        is_estimate(*r1cs, plonk_system(*r1cs).constraints.len(), e),
        e.total_cells == sum_cells(e.components@, e.components@.len()),
{
    let (plonk_constraints, _adds) = r1cs2plonk(r1cs);
    estimate_with_plonk_count(r1cs, plonk_constraints.len())
}

/// Estimate the cells of the verifier circuit after merging copies.
pub fn estimate_cells_merged(r1cs: &R1csFile) -> (e: CellEstimate)
    requires
        estimable(*r1cs),
        can_merge(*r1cs),
    ensures
        is_estimate(*r1cs, merged_count(*r1cs), e),
        e.total_cells == sum_cells(e.components@, e.components@.len()),
{
    let (plonk_constraints, _adds, _merge) = r1cs2plonk_merged(r1cs, true);
    proof {
        law_merge_shrinks(
            plonk_system(*r1cs).constraints,
            (r1cs.header.n_outputs + r1cs.header.n_pub_inputs) as u32,
        );
    }
    estimate_with_plonk_count(r1cs, plonk_constraints.len())
}

/// The estimates without and with merging, side by side.
#[derive(Debug)]
pub struct CellComparison {
    pub raw: CellEstimate,
    pub merged: CellEstimate,
}

impl CellComparison {
    /// Cells that merging saves.
    pub fn cells_saved(&self) -> (r: usize)
        ensures
            r == if self.raw.total_cells >= self.merged.total_cells {
                self.raw.total_cells - self.merged.total_cells
            } else {
                0
            },
    {
        if self.raw.total_cells >= self.merged.total_cells {
            self.raw.total_cells - self.merged.total_cells
        } else {
            0
        }
    }
}

/// Estimate the circuit without and with merging.
pub fn compare_cells(r1cs: &R1csFile) -> (c: CellComparison)
    requires
        estimable(*r1cs),
        can_merge(*r1cs),
    ensures
        is_estimate(*r1cs, plonk_system(*r1cs).constraints.len(), c.raw),
        is_estimate(*r1cs, merged_count(*r1cs), c.merged),
        c.merged.total_cells <= c.raw.total_cells,
        c.raw.total_cells - c.merged.total_cells == 3 * (plonk_system(*r1cs).constraints.len()
            - merged_count(*r1cs)),
{
    proof {
        law_merge_shrinks(
            plonk_system(*r1cs).constraints,
            (r1cs.header.n_outputs + r1cs.header.n_pub_inputs) as u32,
        );
    }
    CellComparison { raw: estimate_cells(r1cs), merged: estimate_cells_merged(r1cs) }
}

/// Merging never makes the circuit larger, and saves three cells per dropped copy.
pub proof fn law_merging_saves_cells(r1cs: R1csFile)
    ensures
        total_estimate(r1cs, merged_count(r1cs)) <= total_estimate(
            r1cs,
            plonk_system(r1cs).constraints.len(),
        ),
        total_estimate(r1cs, plonk_system(r1cs).constraints.len()) - total_estimate(
            r1cs,
            merged_count(r1cs),
        ) == 3 * (plonk_system(r1cs).constraints.len() - merged_count(r1cs)),
{
    law_merge_shrinks(
        plonk_system(r1cs).constraints,
        (r1cs.header.n_outputs + r1cs.header.n_pub_inputs) as u32,
    );
}

} // verus!

//! Which custom gates an R1CS declares and how often it uses each of them.
use std::collections::HashMap;
use vstd::prelude::*;

use crate::plonk2pil::r1cs::{CustomGate, CustomGateUse, GateRole, R1csFile};

verus! {

broadcast use vstd::std_specs::hash::group_hash_axioms;

/// The number of gate roles.
pub const N_ROLES: usize = 7;

/// The position of a role in per-role tables.
pub open spec fn role_slot(role: GateRole) -> int {
    match role {
        GateRole::PoseidonSponge => 0,
        GateRole::PoseidonCompression => 1,
        GateRole::CMul => 2,
        GateRole::EvPol4 => 3,
        GateRole::Fft4 => 4,
        GateRole::TreeSelector => 5,
        GateRole::SelectVal1 => 6,
    }
}

fn role_index(role: GateRole) -> (r: usize)
    ensures
        r == role_slot(role),
        r < N_ROLES,
{
    match role {
        GateRole::PoseidonSponge => 0,
        GateRole::PoseidonCompression => 1,
        GateRole::CMul => 2,
        GateRole::EvPol4 => 3,
        GateRole::Fft4 => 4,
        GateRole::TreeSelector => 5,
        GateRole::SelectVal1 => 6,
    }
}

/// Why the custom gates of an R1CS cannot be used.
#[derive(Clone, Copy, PartialEq, Eq, Structural, Debug)]
pub enum GateError {
    /// The registry does not know the template of a gate.
    Unknown { gate: usize },
    /// A gate takes no parameters, but has some.
    UnexpectedParameters { gate: usize },
    /// Two gates declare the same role.
    DuplicateRole { first: usize, second: usize },
    /// Gates belong to more than one hash family.
    MixedFamilies,
    /// A use names a gate that is not declared.
    Undefined { id: u32 },
}

/// A gate declares the role, other than FFT4, of which there may be several.
pub open spec fn declares(gate: CustomGate, role: GateRole) -> bool {
    gate.known is Some && gate.known->0.role == role && role != GateRole::Fft4
}

/// The first gate before `n` that declares `role`.
pub open spec fn first_declaring(gates: Seq<CustomGate>, role: GateRole, n: nat) -> Option<usize>
    decreases n,
{
    if n == 0 {
        None
    } else {
        match first_declaring(gates, role, (n - 1) as nat) {
            Some(i) => Some(i),
            None => if declares(gates[n - 1], role) {
                Some((n - 1) as usize)
            } else {
                None
            },
        }
    }
}

/// What is wrong with the `i`-th declared gate, given gates before it.
pub open spec fn gate_error_at(gates: Seq<CustomGate>, i: int) -> Option<GateError> {
    match gates[i].known {
        None => Some(GateError::Unknown { gate: i as usize }),
        Some(known) => if known.role == GateRole::Fft4 {
            None
        } else if gates[i].parameters@.len() > 0 {
            Some(GateError::UnexpectedParameters { gate: i as usize })
        } else {
            match first_declaring(gates, known.role, i as nat) {
                Some(j) => Some(GateError::DuplicateRole { first: j, second: i as usize }),
                None => None,
            }
        },
    }
}

/// The first error among the first `n` declared gates.
pub open spec fn declaration_error(gates: Seq<CustomGate>, n: nat) -> Option<GateError>
    decreases n,
{
    if n == 0 {
        None
    } else {
        match declaration_error(gates, (n - 1) as nat) {
            Some(e) => Some(e),
            None => gate_error_at(gates, n - 1),
        }
    }
}

/// Two declared gates belong to different hash families.
pub open spec fn mixes_families(gates: Seq<CustomGate>) -> bool {
    exists|i: int, j: int|
        0 <= i < gates.len() && 0 <= j < gates.len() && family_of(#[trigger] gates[i]) is Some
            && family_of(#[trigger] gates[j]) is Some && family_of(gates[i]) != family_of(
            gates[j],
        )
}

/// The hash family that owns a template.
pub open spec fn family_of(gate: CustomGate) -> Option<u32> {
    match gate.known {
        Some(known) => known.family,
        None => None,
    }
}

/// The first of the first `n` uses that names no declared gate.
pub open spec fn use_error(uses: Seq<CustomGateUse>, n_gates: nat, n: nat) -> Option<GateError>
    decreases n,
{
    if n == 0 {
        None
    } else {
        match use_error(uses, n_gates, (n - 1) as nat) {
            Some(e) => Some(e),
            None => if uses[n - 1].id >= n_gates {
                Some(GateError::Undefined { id: uses[n - 1].id })
            } else {
                None
            },
        }
    }
}

/// The first thing wrong with the custom gates: a declaration, then a mix of families, then a use.
pub open spec fn gates_error(r1cs: R1csFile) -> Option<GateError> {
    let gates = r1cs.custom_gates@;
    let uses = r1cs.custom_gates_uses@;
    match declaration_error(gates, gates.len()) {
        Some(e) => Some(e),
        None => if mixes_families(gates) {
            Some(GateError::MixedFamilies)
        } else {
            use_error(uses, gates.len(), uses.len())
        },
    }
}

/// The role that the declaration named by a use has.
pub open spec fn use_has_role(gates: Seq<CustomGate>, u: CustomGateUse, role: GateRole) -> bool {
    u.id < gates.len() && gates[u.id as int].known is Some && gates[u.id as int].known->0.role
        == role
}

/// How many of the first `n` uses have the role.
pub open spec fn count_role(
    gates: Seq<CustomGate>,
    uses: Seq<CustomGateUse>,
    role: GateRole,
    n: nat,
) -> nat
    decreases n,
{
    if n == 0 {
        0
    } else {
        count_role(gates, uses, role, (n - 1) as nat) + if use_has_role(
            gates,
            uses[n - 1],
            role,
        ) {
            1nat
        } else {
            0nat
        }
    }
}

/// How many uses of the R1CS have the role.
pub open spec fn n_uses(r1cs: R1csFile, role: GateRole) -> nat {
    count_role(
        r1cs.custom_gates@,
        r1cs.custom_gates_uses@,
        role,
        r1cs.custom_gates_uses@.len(),
    )
}

/// The declaration that declares the role.
pub open spec fn role_gate(r1cs: R1csFile, role: GateRole) -> Option<u32> {
    match first_declaring(r1cs.custom_gates@, role, r1cs.custom_gates@.len()) {
        Some(i) => Some(i as u32),
        None => None,
    }
}

/// The declared gate is an FFT4.
pub open spec fn is_fft4(gates: Seq<CustomGate>, id: u32) -> bool {
    id < gates.len() && gates[id as int].known is Some && gates[id as int].known->0.role
        == GateRole::Fft4
}

/// Declared gates by role, the parameters of each FFT4, and how often each role is used.
pub struct CustomGatesInfo {
    pub gate_ids: [Option<u32>; 7],
    pub fft4_parameters: HashMap<u32, Vec<u64>>,
    pub n_per_role: [usize; 7],
    pub n_plonk_rows: usize,
}

impl CustomGatesInfo {
    /// The declaration that declares the role.
    pub fn role_id(&self, role: GateRole) -> (r: Option<u32>)
        ensures
            r == self.gate_ids[role_slot(role)],
    {
        self.gate_ids[role_index(role)]
    }

    /// How many uses the role has.
    pub fn n(&self, role: GateRole) -> (r: usize)
        ensures
            r == self.n_per_role[role_slot(role)],
    {
        self.n_per_role[role_index(role)]
    }

    /// The tables say of the R1CS what it declares and uses.
    pub open spec fn describes(&self, r1cs: R1csFile) -> bool {
        &&& forall|role: GateRole| #[trigger] self.gate_ids[role_slot(role)] == role_gate(r1cs, role)
        &&& forall|role: GateRole| #[trigger] self.n_per_role[role_slot(role)] == n_uses(r1cs, role)
        &&& forall|id: u32| #[trigger]
            self.fft4_parameters@.dom().contains(id) <==> is_fft4(r1cs.custom_gates@, id)
        &&& forall|id: u32| #[trigger]
            self.fft4_parameters@.dom().contains(id) ==> self.fft4_parameters@[id]@
                == r1cs.custom_gates@[id as int].parameters@
    }
}

fn find_declaring(gates: &Vec<CustomGate>, role: GateRole, n: usize) -> (r: Option<usize>)
    requires
        n <= gates@.len(),
    ensures
        r == first_declaring(gates@, role, n as nat),
{
    let mut i: usize = 0;
    while i < n
        invariant
            i <= n <= gates@.len(),
            first_declaring(gates@, role, i as nat) is None,
        decreases n - i,
    {
        let hit: bool = match gates[i].known {
            Some(known) => known.role == role && role != GateRole::Fft4,
            None => false,
        };
        if hit {
            proof {
                lemma_first_stays(gates@, role, (i + 1) as nat, n as nat);
            }
            return Some(i);
        }
        i = i + 1;
    }
    None
}

proof fn lemma_first_stays(gates: Seq<CustomGate>, role: GateRole, i: nat, n: nat)
    requires
        i <= n,
        first_declaring(gates, role, i) is Some,
    ensures
        first_declaring(gates, role, n) == first_declaring(gates, role, i),
    decreases n,
{
    if i < n {
        lemma_first_stays(gates, role, i, (n - 1) as nat);
    }
}

proof fn lemma_declaration_error_stays(gates: Seq<CustomGate>, i: nat, n: nat)
    requires
        i <= n,
        declaration_error(gates, i) is Some,
    ensures
        declaration_error(gates, n) == declaration_error(gates, i),
    decreases n,
{
    if i < n {
        lemma_declaration_error_stays(gates, i, (n - 1) as nat);
    }
}

proof fn lemma_no_declaration_error(gates: Seq<CustomGate>, i: int, n: nat)
    requires
        declaration_error(gates, n) is None,
        0 <= i < n,
    ensures
        gate_error_at(gates, i) is None,
    decreases n,
{
    if i < n - 1 {
        lemma_no_declaration_error(gates, i, (n - 1) as nat);
    }
}

proof fn lemma_use_error_stays(uses: Seq<CustomGateUse>, n_gates: nat, i: nat, n: nat)
    requires
        i <= n,
        use_error(uses, n_gates, i) is Some,
    ensures
        use_error(uses, n_gates, n) == use_error(uses, n_gates, i),
    decreases n,
{
    if i < n {
        lemma_use_error_stays(uses, n_gates, i, (n - 1) as nat);
    }
}

/// Check the custom gates of an R1CS; the error is the first one in the order of
/// declarations, families and uses.
pub fn check_custom_gates(r1cs: &R1csFile) -> (r: Result<(), GateError>)
    ensures
        match r {
            Ok(_) => gates_error(*r1cs) is None,
            Err(e) => gates_error(*r1cs) == Some(e),
        },
{
    let gates: &Vec<CustomGate> = &r1cs.custom_gates;
    let mut family: Option<u32> = None;
    let mut mixed: bool = false;
    let mut i: usize = 0;
    while i < gates.len()
        invariant
            i <= gates@.len(),
            gates@ == r1cs.custom_gates@,
            declaration_error(gates@, i as nat) is None,
            family is Some ==> exists|j: int|
                0 <= j < i && #[trigger] family_of(gates@[j]) == family,
            mixed ==> mixes_families(gates@),
            !mixed ==> forall|j: int|
                0 <= j < i ==> #[trigger] family_of(gates@[j]) is None || family_of(gates@[j])
                    == family,
        decreases gates@.len() - i,
    {
        match gates[i].known {
            None => {
                proof {
                    lemma_declaration_error_stays(gates@, (i + 1) as nat, gates@.len());
                }
                return Err(GateError::Unknown { gate: i });
            },
            Some(known) => {
                if known.role != GateRole::Fft4 {
                    if gates[i].parameters.len() > 0 {
                        proof {
                            lemma_declaration_error_stays(gates@, (i + 1) as nat, gates@.len());
                        }
                        return Err(GateError::UnexpectedParameters { gate: i });
                    }
                    if let Some(first) = find_declaring(gates, known.role, i) {
                        proof {
                            lemma_declaration_error_stays(gates@, (i + 1) as nat, gates@.len());
                        }
                        return Err(GateError::DuplicateRole { first, second: i });
                    }
                }
                if let Some(f) = known.family {
                    assert(family_of(gates@[i as int]) == Some(f));
                    match family {
                        None => {
                            family = Some(f);
                        },
                        Some(g) => {
                            if f != g {
                                mixed = true;
                                proof {
                                    let j = choose|j: int|
                                        0 <= j < i && #[trigger] family_of(gates@[j]) == family;
                                    assert(family_of(gates@[j]) != family_of(gates@[i as int]));
                                }
                            }
                        },
                    }
                }
            },
        }
        i = i + 1;
    }
    if mixed {
        return Err(GateError::MixedFamilies);
    }
    assert(!mixes_families(gates@)) by {
        if mixes_families(gates@) {
            let (x, y) = choose|x: int, y: int|
                0 <= x < gates@.len() && 0 <= y < gates@.len() && family_of(
                    #[trigger] gates@[x],
                ) is Some && family_of(#[trigger] gates@[y]) is Some && family_of(gates@[x])
                    != family_of(gates@[y]);
            assert(family_of(gates@[x]) == family);
            assert(family_of(gates@[y]) == family);
        }
    }
    let uses: &Vec<CustomGateUse> = &r1cs.custom_gates_uses;
    let mut k: usize = 0;
    while k < uses.len()
        invariant
            k <= uses@.len(),
            gates@ == r1cs.custom_gates@,
            uses@ == r1cs.custom_gates_uses@,
            declaration_error(gates@, gates@.len()) is None,
            !mixes_families(gates@),
            use_error(uses@, gates@.len(), k as nat) is None,
        decreases uses@.len() - k,
    {
        if uses[k].id as usize >= gates.len() {
            proof {
                lemma_use_error_stays(uses@, gates@.len(), (k + 1) as nat, uses@.len());
            }
            return Err(GateError::Undefined { id: uses[k].id });
        }
        k = k + 1;
    }
    Ok(())
}

proof fn lemma_defined(uses: Seq<CustomGateUse>, n_gates: nat, i: int, n: nat)
    requires
        use_error(uses, n_gates, n) is None,
        0 <= i < n,
    ensures
        uses[i].id < n_gates,
    decreases n,
{
    if i < n - 1 {
        lemma_defined(uses, n_gates, i, (n - 1) as nat);
    }
}

proof fn lemma_count_bound(
    gates: Seq<CustomGate>,
    uses: Seq<CustomGateUse>,
    role: GateRole,
    n: nat,
)
    ensures
        count_role(gates, uses, role, n) <= n,
    decreases n,
{
    if n > 0 {
        lemma_count_bound(gates, uses, role, (n - 1) as nat);
    }
}

/// Tabulate the custom gates of an R1CS whose custom gates are in order.
pub fn get_custom_gates_info(r1cs: &R1csFile) -> (info: CustomGatesInfo)
    requires
        gates_error(*r1cs) is None,
        r1cs.custom_gates@.len() <= u32::MAX,
    ensures
        info.describes(*r1cs),
        info.n_plonk_rows == 0,
{
    let gates: &Vec<CustomGate> = &r1cs.custom_gates;
    let mut gate_ids: [Option<u32>; 7] = [None, None, None, None, None, None, None];
    let mut fft4: HashMap<u32, Vec<u64>> = HashMap::new();
    let mut i: usize = 0;
    while i < gates.len()
        invariant
            i <= gates@.len() <= u32::MAX,
            gates@ == r1cs.custom_gates@,
            declaration_error(gates@, gates@.len()) is None,
            forall|role: GateRole| #[trigger]
                gate_ids[role_slot(role)] == match first_declaring(gates@, role, i as nat) {
                    Some(j) => Some(j as u32),
                    None => None::<u32>,
                },
            forall|id: u32| #[trigger] fft4@.dom().contains(id) <==> id < i && is_fft4(gates@, id),
            forall|id: u32| #[trigger]
                fft4@.dom().contains(id) ==> fft4@[id]@ == gates@[id as int].parameters@,
        decreases gates@.len() - i,
    {
        proof {
            lemma_no_declaration_error(gates@, i as int, gates@.len());
        }
        let ghost ids_before = gate_ids;
        match gates[i].known {
            None => {},
            Some(known) => {
                if known.role == GateRole::Fft4 {
                    fft4.insert(i as u32, gates[i].parameters.clone());
                } else {
                    let slot: usize = role_index(known.role);
                    gate_ids[slot] = Some(i as u32);
                }
                proof {
                    assert forall|role: GateRole| #[trigger]
                        gate_ids[role_slot(role)] == match first_declaring(
                            gates@,
                            role,
                            (i + 1) as nat,
                        ) {
                            Some(j) => Some(j as u32),
                            None => None::<u32>,
                        } by {
                        if role == known.role && known.role != GateRole::Fft4 {
                            assert(first_declaring(gates@, role, i as nat) is None);
                        } else {
                            assert(gate_ids[role_slot(role)] == ids_before[role_slot(role)]);
                        }
                    }
                }
            },
        }
        i = i + 1;
    }
    let uses: &Vec<CustomGateUse> = &r1cs.custom_gates_uses;
    let mut n_per_role: [usize; 7] = [0, 0, 0, 0, 0, 0, 0];
    let mut k: usize = 0;
    while k < uses.len()
        invariant
            k <= uses@.len(),
            gates@ == r1cs.custom_gates@,
            uses@ == r1cs.custom_gates_uses@,
            declaration_error(gates@, gates@.len()) is None,
            use_error(uses@, gates@.len(), uses@.len()) is None,
            forall|role: GateRole| #[trigger]
                n_per_role[role_slot(role)] == count_role(gates@, uses@, role, k as nat),
        decreases uses@.len() - k,
    {
        proof {
            lemma_defined(uses@, gates@.len(), k as int, uses@.len());
            lemma_no_declaration_error(gates@, uses@[k as int].id as int, gates@.len());
        }
        let ghost before = n_per_role;
        match gates[uses[k].id as usize].known {
            None => {},
            Some(known) => {
                let slot: usize = role_index(known.role);
                proof {
                    lemma_count_bound(gates@, uses@, known.role, k as nat);
                    assert(n_per_role[role_slot(known.role)] == count_role(
                        gates@,
                        uses@,
                        known.role,
                        k as nat,
                    ));
                }
                n_per_role[slot] = n_per_role[slot] + 1;
                proof {
                    assert forall|role: GateRole| #[trigger]
                        n_per_role[role_slot(role)] == count_role(
                            gates@,
                            uses@,
                            role,
                            (k + 1) as nat,
                        ) by {
                        assert(before[role_slot(role)] == count_role(
                            gates@,
                            uses@,
                            role,
                            k as nat,
                        ));
                        if role != known.role {
                            assert(n_per_role[role_slot(role)] == before[role_slot(role)]);
                        }
                    }
                }
            },
        }
        k = k + 1;
    }
    CustomGatesInfo { gate_ids, fft4_parameters: fft4, n_per_role, n_plonk_rows: 0 }
}

/// The uses of a gate with the given id, in order; none where there is no such gate.
pub open spec fn uses_of(uses: Seq<CustomGateUse>, id: Option<u32>) -> Seq<CustomGateUse> {
    match id {
        Some(id) => uses.filter(|u: CustomGateUse| u.id == id),
        None => Seq::empty(),
    }
}

proof fn lemma_filter_step<A>(s: Seq<A>, pred: spec_fn(A) -> bool, i: int)
    requires
        0 <= i < s.len(),
    ensures
        s.take(i + 1).filter(pred) == if pred(s[i]) {
            s.take(i).filter(pred).push(s[i])
        } else {
            s.take(i).filter(pred)
        },
{
    reveal(Seq::filter);
    assert(s.take(i + 1).drop_last() =~= s.take(i));
    assert(s.take(i + 1).last() == s[i]);
}

/// The uses of a gate with the given id, in order.
pub fn filter_gate_uses(uses: &[CustomGateUse], id: Option<u32>) -> (r: Vec<&CustomGateUse>)
    ensures
        r@.unref() == uses_of(uses@, id),
{
    let mut out: Vec<&CustomGateUse> = Vec::new();
    if let Some(id) = id {
        let mut i: usize = 0;
        let ghost pred = |u: CustomGateUse| u.id == id;
        while i < uses.len()
            invariant
                i <= uses@.len(),
                pred == (|u: CustomGateUse| u.id == id),
                out@.unref() == uses@.take(i as int).filter(pred),
            decreases uses@.len() - i,
        {
            proof {
                lemma_filter_step(uses@, pred, i as int);
            }
            let ghost before = out@;
            if uses[i].id == id {
                out.push(&uses[i]);
                assert(out@.unref() =~= before.unref().push(uses@[i as int]));
            }
            i = i + 1;
        }
        assert(uses@.take(i as int) =~= uses@);
    }
    assert(id is None ==> out@.unref() =~= Seq::empty());
    out
}

/// The uses of FFT4 gates, in order.
pub fn filter_fft4_gate_uses<'a>(
    uses: &'a [CustomGateUse],
    fft4_params: &HashMap<u32, Vec<u64>>,
) -> (r: Vec<&'a CustomGateUse>)
    ensures
        r@.unref() == uses@.filter(|u: CustomGateUse| fft4_params@.dom().contains(u.id)),
{
    let mut out: Vec<&CustomGateUse> = Vec::new();
    let mut i: usize = 0;
    let ghost pred = |u: CustomGateUse| fft4_params@.dom().contains(u.id);
    while i < uses.len()
        invariant
            i <= uses@.len(),
            pred == (|u: CustomGateUse| fft4_params@.dom().contains(u.id)),
            out@.unref() == uses@.take(i as int).filter(pred),
        decreases uses@.len() - i,
    {
        proof {
            lemma_filter_step(uses@, pred, i as int);
        }
        let ghost before = out@;
        if fft4_params.contains_key(&uses[i].id) {
            out.push(&uses[i]);
            assert(out@.unref() =~= before.unref().push(uses@[i as int]));
        }
        i = i + 1;
    }
    assert(uses@.take(i as int) =~= uses@);
    out
}

} // verus!

//! The recursive stages: names, sizes, and what follows from the size of a converted circuit.
use vstd::prelude::*;
use vstd::string::StringExecFns;

use crate::paths::{join, joined};
use crate::plonk2pil::packer::PlonkOptions;
use crate::setup::stark_struct::{no_settings, StarkSettings};
use crate::text::push_dec;

verus! {

/// The bits of the domain that the recursive circuits of an airgroup share.
pub const RECURSIVE_BITS_THRESHOLD: usize = 17;

/// The rows that a circuit is sized up to: past half of the shared domain.
pub const TARGET_ROWS: u64 = 69632;

/// The circuit of a recursive stage is too big to go without a compressor.
#[derive(Clone, Copy, PartialEq, Eq, Structural, Debug)]
pub struct NeedsCompressorError {
    pub n_bits: usize,
}

impl NeedsCompressorError {
    /// What to tell the user.
    pub fn message(&self) -> (r: String)
        ensures
            r@ == "Recursive1 circuit exceeds 17-bit threshold (n_bits="@ + crate::text::dec(
                self.n_bits as nat,
            ) + "); a compressor is needed"@,
    {
        let mut out: String = "Recursive1 circuit exceeds 17-bit threshold (n_bits=".to_owned();
        push_dec(&mut out, self.n_bits as u64);
        out.append("); a compressor is needed");
        out
    }
}

/// The circuit of a recursive stage behind a compressor does not fill the shared domain.
#[derive(Clone, Copy, PartialEq, Eq, Structural, Debug)]
pub struct RecursiveTooSmallError {
    pub n_bits: usize,
    /// The rows it takes.
    pub n_used: usize,
}

impl RecursiveTooSmallError {
    /// What to tell the user.
    pub fn message(&self) -> (r: String)
        ensures
            r@ == "Recursive1 packs to 2^"@ + crate::text::dec(self.n_bits as nat) + " (n_used="@
                + crate::text::dec(self.n_used as nat)
                + ") below the shared recursive domain; compressor nQueries must grow"@,
    {
        let mut out: String = "Recursive1 packs to 2^".to_owned();
        push_dec(&mut out, self.n_bits as u64);
        out.append(" (n_used=");
        push_dec(&mut out, self.n_used as u64);
        out.append(") below the shared recursive domain; compressor nQueries must grow");
        out
    }
}

/// The recursive stages.
#[derive(Clone, Copy, PartialEq, Eq, Structural, Debug)]
pub enum RecursiveTemplate {
    Compressor,
    Recursive1,
    Recursive2,
}

/// The name of a stage.
pub open spec fn template_name(t: RecursiveTemplate) -> Seq<char> {
    match t {
        RecursiveTemplate::Compressor => "compressor"@,
        RecursiveTemplate::Recursive1 => "recursive1"@,
        RecursiveTemplate::Recursive2 => "recursive2"@,
    }
}

impl RecursiveTemplate {
    /// The name of the stage.
    pub fn as_str(&self) -> (r: &'static str)
        ensures
            r@ == template_name(*self),
    {
        match self {
            RecursiveTemplate::Compressor => "compressor",
            RecursiveTemplate::Recursive1 => "recursive1",
            RecursiveTemplate::Recursive2 => "recursive2",
        }
    }

    /// The template of its circuit.
    pub fn tera_template(&self) -> (r: &'static str)
        ensures
            r@ == match *self {
                RecursiveTemplate::Compressor => "vadcop/compressor.circom.tera"@,
                RecursiveTemplate::Recursive1 => "vadcop/recursive1.circom.tera"@,
                RecursiveTemplate::Recursive2 => "vadcop/recursive2.circom.tera"@,
            },
    {
        match self {
            RecursiveTemplate::Compressor => "vadcop/compressor.circom.tera",
            RecursiveTemplate::Recursive1 => "vadcop/recursive1.circom.tera",
            RecursiveTemplate::Recursive2 => "vadcop/recursive2.circom.tera",
        }
    }

    /// The template of its circuit, by the name that callers ask for it.
    pub fn ejs_template(&self) -> (r: &'static str)
        ensures
            r@ == match *self {
                RecursiveTemplate::Compressor => "src/vadcop/templates/compressor.circom.ejs"@,
                RecursiveTemplate::Recursive1 => "src/vadcop/templates/recursive1.circom.ejs"@,
                RecursiveTemplate::Recursive2 => "src/vadcop/templates/recursive2.circom.ejs"@,
            },
    {
        match self {
            RecursiveTemplate::Compressor => "src/vadcop/templates/compressor.circom.ejs",
            RecursiveTemplate::Recursive1 => "src/vadcop/templates/recursive1.circom.ejs",
            RecursiveTemplate::Recursive2 => "src/vadcop/templates/recursive2.circom.ejs",
        }
    }
}

/// What a recursive stage is run on.
pub struct RecursiveSetupConfig {
    pub build_dir: String,
    pub template: RecursiveTemplate,
    /// The name of the whole circuit, where it has one.
    pub global_name: Option<String>,
    pub airgroup_name: String,
    pub air_name: String,
    pub has_compressor: bool,
    pub hash: String,
    /// How many airgroups there are, and how many airs the first has, where this is known.
    pub n_airgroups: Option<usize>,
    pub n_airs_first: Option<usize>,
}

/// The name of the whole circuit.
pub open spec fn global_name_text(name: Option<String>) -> Seq<char> {
    match name {
        Some(n) => n@,
        None => "pilout"@,
    }
}

/// The name of the whole circuit.
pub fn get_global_name(name: &Option<String>) -> (r: String)
    ensures
        r@ == global_name_text(*name),
{
    match name {
        Some(n) => n.as_str().to_owned(),
        None => "pilout".to_owned(),
    }
}

/// The names of a recursive stage, and which inputs its verifier takes.
pub struct RecursiveNames {
    pub verifier_name: String,
    pub name_filename: String,
    pub files_dir: String,
    pub input_challenges: bool,
    pub verkey_input: bool,
    pub enable_input: bool,
}

/// The directory of an airgroup.
pub open spec fn airgroup_path(c: RecursiveSetupConfig) -> Seq<char> {
    joined(
        joined(joined(c.build_dir@, "provingKey"@), global_name_text(c.global_name)),
        c.airgroup_name@,
    )
}

/// More than one air is aggregated.
pub open spec fn many_airs(c: RecursiveSetupConfig) -> bool {
    (match c.n_airgroups {
        Some(n) => n > 1,
        None => false,
    }) || (match c.n_airs_first {
        Some(n) => n > 1,
        None => false,
    })
}

/// The names of a recursive stage. The compressor, and a recursive stage without one, verify the
/// air's own proof and take its challenges; recursive2 takes the key as an input, and a switch
/// where more than one air is aggregated.
pub open spec fn are_recursive_names(r: RecursiveNames, c: RecursiveSetupConfig) -> bool {
    let name = template_name(c.template);
    let aggregate = c.template == RecursiveTemplate::Recursive2;
    let own = c.template == RecursiveTemplate::Compressor || (c.template
        == RecursiveTemplate::Recursive1 && !c.has_compressor);
    &&& r.verifier_name@ == if aggregate {
        c.airgroup_name@ + "_recursive2.verifier.circom"@
    } else if own {
        c.air_name@ + ".verifier.circom"@
    } else {
        c.air_name@ + "_compressor.verifier.circom"@
    }
    &&& r.name_filename@ == if aggregate {
        c.airgroup_name@ + "_"@ + name
    } else {
        c.air_name@ + "_"@ + name
    }
    &&& r.files_dir@ == if aggregate {
        joined(airgroup_path(c), name)
    } else {
        joined(joined(joined(airgroup_path(c), "airs"@), c.air_name@), name)
    }
    &&& r.input_challenges == own
    &&& r.verkey_input == aggregate
    &&& r.enable_input == (aggregate && many_airs(c))
}

/// The names of a recursive stage.
pub fn resolve_names_and_paths(config: &RecursiveSetupConfig) -> (r: RecursiveNames)
    ensures
        are_recursive_names(r, *config),
{
    let name: &'static str = config.template.as_str();
    let global: String = get_global_name(&config.global_name);
    let key_dir: String = join(config.build_dir.as_str(), "provingKey");
    let global_dir: String = join(key_dir.as_str(), global.as_str());
    let group_dir: String = join(global_dir.as_str(), config.airgroup_name.as_str());
    let aggregate: bool = matches!(config.template, RecursiveTemplate::Recursive2);
    let own: bool = match config.template {
        RecursiveTemplate::Compressor => true,
        RecursiveTemplate::Recursive1 => !config.has_compressor,
        RecursiveTemplate::Recursive2 => false,
    };
    let many: bool = (match config.n_airgroups {
        Some(n) => n > 1,
        None => false,
    }) || (match config.n_airs_first {
        Some(n) => n > 1,
        None => false,
    });
    if aggregate {
        let mut verifier_name: String = config.airgroup_name.as_str().to_owned();
        verifier_name.append("_recursive2.verifier.circom");
        let mut name_filename: String = config.airgroup_name.as_str().to_owned();
        name_filename.append("_");
        name_filename.append(name);
        RecursiveNames {
            verifier_name,
            name_filename,
            files_dir: join(group_dir.as_str(), name),
            input_challenges: false,
            verkey_input: true,
            enable_input: many,
        }
    } else {
        let mut verifier_name: String = config.air_name.as_str().to_owned();
        if own {
            verifier_name.append(".verifier.circom");
        } else {
            verifier_name.append("_compressor.verifier.circom");
        }
        let mut name_filename: String = config.air_name.as_str().to_owned();
        name_filename.append("_");
        name_filename.append(name);
        let airs_dir: String = join(group_dir.as_str(), "airs");
        let air_dir: String = join(airs_dir.as_str(), config.air_name.as_str());
        RecursiveNames {
            verifier_name,
            name_filename,
            files_dir: join(air_dir.as_str(), name),
            input_challenges: own,
            verkey_input: false,
            enable_input: false,
        }
    }
}

/// The name that the results of a stage carry: recursive2 shares the one of recursive1.
pub open spec fn pil_name(c: RecursiveSetupConfig) -> Seq<char> {
    c.airgroup_name@ + "_"@ + c.air_name@ + "_"@ + (if c.template == RecursiveTemplate::Recursive2 {
        "recursive1"@
    } else {
        template_name(c.template)
    })
}

/// The name that the results of a stage carry.
pub fn airgroup_pil_name(config: &RecursiveSetupConfig) -> (r: String)
    ensures
        r@ == pil_name(*config),
{
    let mut out: String = config.airgroup_name.as_str().to_owned();
    out.append("_");
    out.append(config.air_name.as_str());
    out.append("_");
    match config.template {
        RecursiveTemplate::Recursive2 => out.append("recursive1"),
        _ => out.append(config.template.as_str()),
    }
    out
}

/// How the circuit of a stage is converted: the compressor goes up to degree five.
pub fn recursive_plonk_options(config: &RecursiveSetupConfig) -> (r: PlonkOptions)
    ensures
        r.airgroup_name is Some,
        r.airgroup_name->0@ == if config.template == RecursiveTemplate::Recursive2 {
            "Recursive2"@
        } else {
            pil_name(*config)
        },
        r.max_constraint_degree == if config.template == RecursiveTemplate::Compressor {
            Some(5usize)
        } else {
            None::<usize>
        },
        r.hash_id@ == config.hash@,
        r.merge_copies,
{
    let name: String = match config.template {
        RecursiveTemplate::Recursive2 => "Recursive2".to_owned(),
        _ => airgroup_pil_name(config),
    };
    PlonkOptions {
        airgroup_name: Some(name),
        max_constraint_degree: match config.template {
            RecursiveTemplate::Compressor => Some(5),
            _ => None,
        },
        hash_id: config.hash.as_str().to_owned(),
        merge_copies: true,
    }
}

/// Which packing the circuit of a stage gets.
pub fn recursive_setup_type(template: RecursiveTemplate) -> (r: &'static str)
    ensures
        r@ == if template == RecursiveTemplate::Compressor {
            "compressor"@
        } else {
            "aggregation"@
        },
{
    match template {
        RecursiveTemplate::Compressor => "compressor",
        _ => "aggregation",
    }
}

/// The settings of a stage's own STARK.
pub open spec fn recursive_settings_of(template: RecursiveTemplate) -> StarkSettings {
    StarkSettings {
        blowup_factor: Some(
            if template == RecursiveTemplate::Compressor {
                2usize
            } else {
                3usize
            },
        ),
        folding_factor: Some(3usize),
        final_degree: Some(5usize),
        ..no_settings()
    }
}

/// The settings of a stage's own STARK.
pub fn recursive_settings(template: RecursiveTemplate) -> (r: StarkSettings)
    ensures
        r == recursive_settings_of(template),
{
    let mut s: StarkSettings = StarkSettings::default();
    s.blowup_factor = Some(
        match template {
            RecursiveTemplate::Compressor => 2,
            _ => 3,
        },
    );
    s.folding_factor = Some(3);
    s.final_degree = Some(5);
    s
}

/// The constant root that a verifier is made with: zeros where none is known.
pub fn circuit_root(root: &[String; 4]) -> (r: [String; 4])
    ensures
        (forall|i: int| 0 <= i < 4 ==> (#[trigger] root[i])@.len() == 0) ==> forall|i: int|
            0 <= i < 4 ==> (#[trigger] r[i])@ == "0"@,
        !(forall|i: int| 0 <= i < 4 ==> (#[trigger] root[i])@.len() == 0) ==> forall|i: int|
            0 <= i < 4 ==> (#[trigger] r[i])@ == root[i]@,
{
    let empty: bool = root[0].as_str().unicode_len() == 0 && root[1].as_str().unicode_len() == 0
        && root[2].as_str().unicode_len() == 0 && root[3].as_str().unicode_len() == 0;
    if empty {
        ["0".to_owned(), "0".to_owned(), "0".to_owned(), "0".to_owned()]
    } else {
        proof {
            if forall|i: int| 0 <= i < 4 ==> (#[trigger] root[i])@.len() == 0 {
                assert(root[0]@.len() == 0 && root[1]@.len() == 0 && root[2]@.len() == 0
                    && root[3]@.len() == 0);
            }
        }
        [
            root[0].as_str().to_owned(),
            root[1].as_str().to_owned(),
            root[2].as_str().to_owned(),
            root[3].as_str().to_owned(),
        ]
    }
}

/// What follows from the size of a converted circuit.
#[derive(Clone, Copy, PartialEq, Eq, Structural, Debug)]
pub enum SizeDecision {
    /// Go on.
    Keep,
    /// Stop: a compressor is needed.
    NeedsCompressor(NeedsCompressorError),
    /// Convert again, with this many queries.
    Adjust { n_queries: u64 },
    /// Stop: the compressor has to ask for more queries.
    TooSmall(RecursiveTooSmallError),
}

/// The quotient, rounded up.
pub open spec fn ceil_div(a: int, b: int) -> int {
    (a + b - 1) / b
}

/// The number of queries with which a circuit of `n_used` rows and `n_queries` queries would
/// reach the target, were its rows proportional to its queries.
pub open spec fn proportional(n_queries: int, n_used: int) -> int {
    ceil_div(TARGET_ROWS * n_queries, n_used)
}

/// What follows from the size of a converted circuit. Only recursive1 is sized: without a
/// compressor, a circuit above the shared domain needs one, and a circuit below it gets the
/// queries that fill it; behind a compressor, a circuit below it is sent back.
pub open spec fn size_decision_of(
    template: RecursiveTemplate,
    has_compressor: bool,
    n_bits: usize,
    n_used: usize,
    n_queries: u64,
) -> SizeDecision {
    if template != RecursiveTemplate::Recursive1 {
        SizeDecision::Keep
    } else if has_compressor {
        if n_bits < RECURSIVE_BITS_THRESHOLD {
            SizeDecision::TooSmall(RecursiveTooSmallError { n_bits, n_used })
        } else {
            SizeDecision::Keep
        }
    } else if n_bits > RECURSIVE_BITS_THRESHOLD {
        SizeDecision::NeedsCompressor(NeedsCompressorError { n_bits })
    } else if n_bits < RECURSIVE_BITS_THRESHOLD && n_queries > 0 && proportional(
        n_queries as int,
        n_used as int,
    ) > n_queries {
        SizeDecision::Adjust { n_queries: proportional(n_queries as int, n_used as int) as u64 }
    } else {
        SizeDecision::Keep
    }
}

/// The quotient, rounded up.
pub fn div_up(a: u64, b: u64) -> (r: u64)
    requires
        b > 0,
    ensures
        r == ceil_div(a as int, b as int),
{
    let q: u64 = a / b;
    proof {
        vstd::arithmetic::div_mod::lemma_fundamental_div_mod(a as int, b as int);
        vstd::arithmetic::div_mod::lemma_mod_bound(a as int, b as int);
        let m = a as int % b as int;
        assert(b * q == q * b) by (nonlinear_arith);
        if m == 0 {
            assert(q * b + (b - 1) == a + b - 1);
            vstd::arithmetic::div_mod::lemma_fundamental_div_mod_converse(
                a + b - 1,
                b as int,
                q as int,
                b - 1,
            );
        } else {
            assert((q + 1) * b == q * b + b) by (nonlinear_arith);
            vstd::arithmetic::div_mod::lemma_fundamental_div_mod_converse(
                a + b - 1,
                b as int,
                q + 1,
                m - 1,
            );
            assert(q < u64::MAX) by (nonlinear_arith)
                requires
                    a == b * q + m,
                    m > 0,
                    b >= 1,
                    a <= u64::MAX,
                    0 <= q,
            ;
        }
    }
    if a % b == 0 {
        q
    } else {
        q + 1
    }
}

/// The sizing of a circuit below the shared domain can be computed.
pub open spec fn can_size(
    template: RecursiveTemplate,
    has_compressor: bool,
    n_bits: usize,
    n_used: usize,
    n_queries: u64,
) -> bool {
    template == RecursiveTemplate::Recursive1 && !has_compressor && n_bits
        < RECURSIVE_BITS_THRESHOLD && n_queries > 0 ==> n_used > 0 && TARGET_ROWS * n_queries
        <= u64::MAX
}

/// What follows from the size of a converted circuit. `n_queries` is zero where it is not known.
pub fn size_decision(
    template: RecursiveTemplate,
    has_compressor: bool,
    n_bits: usize,
    n_used: usize,
    n_queries: u64,
) -> (r: SizeDecision)
    requires
        can_size(template, has_compressor, n_bits, n_used, n_queries),
    ensures
        r == size_decision_of(template, has_compressor, n_bits, n_used, n_queries),
{
    match template {
        RecursiveTemplate::Recursive1 => {},
        _ => {
            return SizeDecision::Keep;
        },
    }
    if has_compressor {
        if n_bits < RECURSIVE_BITS_THRESHOLD {
            return SizeDecision::TooSmall(RecursiveTooSmallError { n_bits, n_used });
        }
        return SizeDecision::Keep;
    }
    if n_bits > RECURSIVE_BITS_THRESHOLD {
        return SizeDecision::NeedsCompressor(NeedsCompressorError { n_bits });
    }
    if n_bits < RECURSIVE_BITS_THRESHOLD && n_queries > 0 {
        let wanted: u64 = div_up(TARGET_ROWS * n_queries, n_used as u64);
        if wanted > n_queries {
            return SizeDecision::Adjust { n_queries: wanted };
        }
    }
    SizeDecision::Keep
}

/// Sizing a circuit never asks for fewer queries than it has.
pub proof fn law_sizing_adds_queries(
    template: RecursiveTemplate,
    has_compressor: bool,
    n_bits: usize,
    n_used: usize,
    n_queries: u64,
)
    requires
        can_size(template, has_compressor, n_bits, n_used, n_queries),
    ensures
        match size_decision_of(template, has_compressor, n_bits, n_used, n_queries) {
            SizeDecision::Adjust { n_queries: wanted } => wanted > n_queries,
            _ => true,
        },
{
    if template == RecursiveTemplate::Recursive1 && !has_compressor && n_bits
        < RECURSIVE_BITS_THRESHOLD && n_queries > 0 && proportional(
        n_queries as int,
        n_used as int,
    ) > n_queries {
        assert(proportional(n_queries as int, n_used as int) <= u64::MAX) by (nonlinear_arith)
            requires
                n_used >= 1,
                0 <= TARGET_ROWS * n_queries <= u64::MAX,
                proportional(n_queries as int, n_used as int) == (TARGET_ROWS * n_queries + n_used
                    - 1) / (n_used as int),
        ;
    }
}

/// The queries that a stage's STARK gets: a request counts where it is above what security asks.
pub fn honored_queries(requested: Option<u64>, floor: u64) -> (r: u64)
    ensures
        r == match requested {
            Some(q) => if q > floor {
                q
            } else {
                floor
            },
            None => floor,
        },
        r >= floor,
{
    match requested {
        Some(q) => if q > floor {
            q
        } else {
            floor
        },
        None => floor,
    }
}

} // verus!

//! STARK settings: how they are looked up for an AIR, and the FRI structure they give.
use indexmap::IndexMap;
use vstd::prelude::*;

use crate::setup::names::{index_entries, index_get, index_insert, index_new};
use crate::text::str_eq;

verus! {

/// Settings from which a [`StarkStruct`] is generated.
#[derive(Debug)]
pub struct StarkSettings {
    pub verification_hash_type: Option<String>,
    pub hash_commits: Option<bool>,
    pub blowup_factor: Option<usize>,
    pub folding_factor: Option<usize>,
    pub final_degree: Option<usize>,
    pub merkle_tree_arity: Option<usize>,
    pub merkle_tree_custom: Option<bool>,
    pub last_level_verification: Option<usize>,
    pub pow_bits: Option<usize>,
    pub has_compressor: Option<bool>,
}

/// Settings that leave everything open.
pub open spec fn no_settings() -> StarkSettings {
    StarkSettings {
        verification_hash_type: None,
        hash_commits: None,
        blowup_factor: None,
        folding_factor: None,
        final_degree: None,
        merkle_tree_arity: None,
        merkle_tree_custom: None,
        last_level_verification: None,
        pow_bits: None,
        has_compressor: None,
    }
}

impl Default for StarkSettings {
    fn default() -> (r: Self)
        ensures
            r == no_settings(),
    {
        StarkSettings {
            verification_hash_type: None,
            hash_commits: None,
            blowup_factor: None,
            folding_factor: None,
            final_degree: None,
            merkle_tree_arity: None,
            merkle_tree_custom: None,
            last_level_verification: None,
            pow_bits: None,
            has_compressor: None,
        }
    }
}

impl StarkSettings {
    /// A copy.
    pub fn copied(&self) -> (r: Self)
        ensures
            r == *self,
    {
        let hash: Option<String> = match &self.verification_hash_type {
            Some(h) => Some(h.clone()),
            None => None,
        };
        StarkSettings {
            verification_hash_type: hash,
            hash_commits: self.hash_commits,
            blowup_factor: self.blowup_factor,
            folding_factor: self.folding_factor,
            final_degree: self.final_degree,
            merkle_tree_arity: self.merkle_tree_arity,
            merkle_tree_custom: self.merkle_tree_custom,
            last_level_verification: self.last_level_verification,
            pow_bits: self.pow_bits,
            has_compressor: self.has_compressor,
        }
    }
}

/// One top-level entry of a configuration: the settings of an AIR, or those of the AIRs of an
/// airgroup by name.
pub enum ConfigEntry {
    Nested(AirSettings),
    Flat(StarkSettings),
}

/// Settings by name of the AIR.
pub struct AirSettings {
    index: IndexMap<String, usize>,
    airs: Vec<StarkSettings>,
}

impl AirSettings {
    /// Every name has its settings.
    pub closed spec fn wf(&self) -> bool {
        forall|n: Seq<char>| #[trigger]
            index_entries(self.index).dom().contains(n) ==> index_entries(self.index)[n]
                < self.airs@.len()
    }

    /// The settings of each AIR.
    pub closed spec fn by_name(&self) -> Map<Seq<char>, StarkSettings> {
        Map::new(
            |n: Seq<char>| index_entries(self.index).dom().contains(n),
            |n: Seq<char>| self.airs@[index_entries(self.index)[n] as int],
        )
    }

    /// No AIRs.
    pub fn new() -> (r: Self)
        ensures
            r.wf(),
            r.by_name() == Map::<Seq<char>, StarkSettings>::empty(),
    {
        let r = AirSettings { index: index_new(), airs: Vec::new() };
        assert(r.by_name() =~= Map::<Seq<char>, StarkSettings>::empty());
        r
    }

    /// Set the settings of an AIR.
    pub fn insert(&mut self, name: String, settings: StarkSettings)
        requires
            old(self).wf(),
        ensures
            final(self).wf(),
            final(self).by_name() == old(self).by_name().insert(name@, settings),
    {
        let ghost before = *self;
        let ghost n = name@;
        let i: usize = self.airs.len();
        self.airs.push(settings);
        index_insert(&mut self.index, name, i);
        assert(self.by_name() =~= before.by_name().insert(n, settings));
    }

    /// The settings of an AIR.
    pub fn get(&self, name: &str) -> (r: Option<&StarkSettings>)
        requires
            self.wf(),
        ensures
            match r {
                Some(s) => self.by_name().dom().contains(name@) && self.by_name()[name@] == *s,
                None => !self.by_name().dom().contains(name@),
            },
    {
        match index_get(&self.index, name) {
            Some(i) => Some(&self.airs[i]),
            None => None,
        }
    }
}

/// Settings for AIRs: per airgroup and AIR, per AIR, and a default.
pub struct StarkStructsConfig {
    index: IndexMap<String, usize>,
    entries: Vec<ConfigEntry>,
}

impl StarkStructsConfig {
    /// Every name has its entry, and every entry is in order.
    pub closed spec fn wf(&self) -> bool {
        &&& forall|n: Seq<char>| #[trigger]
            index_entries(self.index).dom().contains(n) ==> index_entries(self.index)[n]
                < self.entries@.len()
        &&& forall|i: int|
            0 <= i < self.entries@.len() ==> entry_wf(#[trigger] self.entries@[i])
    }

    /// The top-level entries by name.
    pub closed spec fn by_name(&self) -> Map<Seq<char>, ConfigEntry> {
        Map::new(
            |n: Seq<char>| index_entries(self.index).dom().contains(n),
            |n: Seq<char>| self.entries@[index_entries(self.index)[n] as int],
        )
    }
}

/// The entry is in order.
pub open spec fn entry_wf(e: ConfigEntry) -> bool {
    e matches ConfigEntry::Nested(airs) ==> airs.wf()
}

/// The settings of an AIR under its airgroup.
pub open spec fn nested_of(
    entries: Map<Seq<char>, ConfigEntry>,
    airgroup: Seq<char>,
    air: Seq<char>,
) -> Option<StarkSettings> {
    if entries.dom().contains(airgroup) {
        match entries[airgroup] {
            ConfigEntry::Nested(airs) => if airs.by_name().dom().contains(air) {
                Some(airs.by_name()[air])
            } else {
                None
            },
            ConfigEntry::Flat(_) => None,
        }
    } else {
        None
    }
}

/// The settings of a top-level AIR.
pub open spec fn flat_of(entries: Map<Seq<char>, ConfigEntry>, air: Seq<char>) -> Option<
    StarkSettings,
> {
    if entries.dom().contains(air) {
        match entries[air] {
            ConfigEntry::Nested(_) => None,
            ConfigEntry::Flat(s) => Some(s),
        }
    } else {
        None
    }
}

/// The settings that apply to an AIR: under its airgroup, else at top level, else the default.
pub open spec fn settings_of(
    entries: Map<Seq<char>, ConfigEntry>,
    airgroup: Seq<char>,
    air: Seq<char>,
) -> StarkSettings {
    match nested_of(entries, airgroup, air) {
        Some(s) => s,
        None => match flat_of(entries, air) {
            Some(s) => s,
            None => match flat_of(entries, "default"@) {
                Some(s) => s,
                None => no_settings(),
            },
        },
    }
}

/// The settings that apply to an AIR, with sixteen bits of work where they leave it open.
pub open spec fn resolved(
    entries: Map<Seq<char>, ConfigEntry>,
    airgroup: Seq<char>,
    air: Seq<char>,
) -> StarkSettings {
    let s = settings_of(entries, airgroup, air);
    match s.pow_bits {
        Some(_) => s,
        None => StarkSettings { pow_bits: Some(16), ..s },
    }
}

/// The AIR asks for a compressor.
pub open spec fn wants_compressor(
    entries: Map<Seq<char>, ConfigEntry>,
    airgroup: Seq<char>,
    air: Seq<char>,
) -> bool {
    let s = match nested_of(entries, airgroup, air) {
        Some(s) => Some(s),
        None => flat_of(entries, air),
    };
    match s {
        Some(s) => s.has_compressor == Some(true),
        None => false,
    }
}

/// The top-level settings of an AIR that asks for a compressor.
pub open spec fn with_compressor(e: Option<StarkSettings>) -> StarkSettings {
    StarkSettings {
        has_compressor: Some(true),
        ..match e {
            Some(s) => s,
            None => no_settings(),
        }
    }
}

impl StarkStructsConfig {
    /// No settings.
    pub fn new() -> (r: Self)
        ensures
            r.wf(),
            r.by_name() == Map::<Seq<char>, ConfigEntry>::empty(),
    {
        let r = StarkStructsConfig { index: index_new(), entries: Vec::new() };
        assert(r.by_name() =~= Map::<Seq<char>, ConfigEntry>::empty());
        r
    }

    /// Set a top-level entry.
    pub fn insert(&mut self, name: String, entry: ConfigEntry)
        requires
            old(self).wf(),
            entry_wf(entry),
        ensures
            final(self).wf(),
            final(self).by_name() == old(self).by_name().insert(name@, entry),
    {
        let ghost before = *self;
        let ghost n = name@;
        let i: usize = self.entries.len();
        self.entries.push(entry);
        index_insert(&mut self.index, name, i);
        assert(self.by_name() =~= before.by_name().insert(n, entry));
    }

    fn lookup_nested(&self, airgroup_name: &str, air_name: &str) -> (r: Option<&StarkSettings>)
        requires
            self.wf(),
        ensures
            match r {
                Some(s) => nested_of(self.by_name(), airgroup_name@, air_name@) == Some(*s),
                None => nested_of(self.by_name(), airgroup_name@, air_name@) is None,
            },
    {
        match index_get(&self.index, airgroup_name) {
            Some(i) => {
                assert(entry_wf(self.entries@[i as int]));
                match &self.entries[i] {
                    ConfigEntry::Nested(airs) => airs.get(air_name),
                    ConfigEntry::Flat(_) => None,
                }
            },
            None => None,
        }
    }

    fn lookup_flat(&self, air_name: &str) -> (r: Option<&StarkSettings>)
        requires
            self.wf(),
        ensures
            match r {
                Some(s) => flat_of(self.by_name(), air_name@) == Some(*s),
                None => flat_of(self.by_name(), air_name@) is None,
            },
    {
        match index_get(&self.index, air_name) {
            Some(i) => match &self.entries[i] {
                ConfigEntry::Nested(_) => None,
                ConfigEntry::Flat(s) => Some(s),
            },
            None => None,
        }
    }

    /// The settings that apply to an AIR: under its airgroup, else at top level, else the
    /// default, with sixteen bits of work where they leave it open.
    pub fn resolve(&self, airgroup_name: &str, air_name: &str) -> (r: StarkSettings)
        requires
            self.wf(),
        ensures
            r == resolved(self.by_name(), airgroup_name@, air_name@),
    {
        let mut s: StarkSettings = match self.lookup_nested(airgroup_name, air_name) {
            Some(s) => s.copied(),
            None => match self.lookup_flat(air_name) {
                Some(s) => s.copied(),
                None => match self.lookup_flat("default") {
                    Some(s) => s.copied(),
                    None => StarkSettings::default(),
                },
            },
        };
        if s.pow_bits.is_none() {
            s.pow_bits = Some(16);
        }
        s
    }

    /// Ask for a compressor for a top-level AIR, keeping its other settings.
    pub fn set_has_compressor(&mut self, air_name: &str)
        requires
            old(self).wf(),
        ensures
            final(self).wf(),
            final(self).by_name() == old(self).by_name().insert(
                air_name@,
                ConfigEntry::Flat(with_compressor(flat_of(old(self).by_name(), air_name@))),
            ),
    {
        let mut s: StarkSettings = match self.lookup_flat(air_name) {
            Some(s) => s.copied(),
            None => StarkSettings::default(),
        };
        s.has_compressor = Some(true);
        self.insert(air_name.to_owned(), ConfigEntry::Flat(s));
    }

    /// Whether the AIR asks for a compressor.
    pub fn has_compressor(&self, airgroup_name: &str, air_name: &str) -> (r: bool)
        requires
            self.wf(),
        ensures
            r == wants_compressor(self.by_name(), airgroup_name@, air_name@),
    {
        let s: Option<&StarkSettings> = match self.lookup_nested(airgroup_name, air_name) {
            Some(s) => Some(s),
            None => self.lookup_flat(air_name),
        };
        match s {
            Some(s) => match s.has_compressor {
                Some(b) => b,
                None => false,
            },
            None => false,
        }
    }
}

/// Asking for a compressor is heard under every airgroup that has no settings of its own for the
/// AIR, and keeps the settings of every other AIR and airgroup.
pub proof fn law_compressor_is_heard(
    entries: Map<Seq<char>, ConfigEntry>,
    air: Seq<char>,
    airgroup: Seq<char>,
    other: Seq<char>,
)
    requires
        nested_of(entries, airgroup, air) is None || airgroup == air,
    ensures
        ({
            let next = entries.insert(air, ConfigEntry::Flat(with_compressor(flat_of(entries, air))));
            &&& wants_compressor(next, airgroup, air)
            &&& other != air ==> flat_of(next, other) == flat_of(entries, other)
            &&& other != air ==> nested_of(next, other, air) == nested_of(entries, other, air)
        }),
{
}

/// The FRI structure of an AIR.
#[derive(Debug)]
pub struct StarkStruct {
    pub n_bits: usize,
    pub n_bits_ext: usize,
    pub merkle_tree_arity: usize,
    pub transcript_arity: usize,
    pub merkle_tree_custom: bool,
    pub hash_commits: bool,
    pub verification_hash_type: String,
    pub last_level_verification: usize,
    pub pow_bits: usize,
    pub steps: Vec<StarkStep>,
    /// Number of FRI queries; zero until the security analysis sets it.
    pub n_queries: usize,
}

/// One FRI step.
#[derive(Clone, Copy, PartialEq, Eq, Structural, Debug)]
pub struct StarkStep {
    pub n_bits: usize,
}

/// The value, or the default where it is open.
pub open spec fn value_or<T>(v: Option<T>, default: T) -> T {
    match v {
        Some(x) => x,
        None => default,
    }
}

/// The hash type that the settings name: `GL` where they leave it open.
pub open spec fn hash_type_of(s: StarkSettings) -> Seq<char> {
    match s.verification_hash_type {
        Some(h) => h@,
        None => "GL"@,
    }
}

/// The hash type is one of the two that exist.
pub open spec fn hash_type_known(s: StarkSettings) -> bool {
    hash_type_of(s) == "GL"@ || hash_type_of(s) == "BN128"@
}

/// The sizes of the FRI steps after one of `bits` bits: folded by `folding` bits at a time, down
/// to the final degree.
pub open spec fn next_steps(bits: nat, folding: nat, final_degree: nat) -> Seq<StarkStep>
    decreases bits,
{
    if bits <= final_degree + 1 || folding == 0 {
        Seq::empty()
    } else {
        let next = if bits > folding + final_degree {
            (bits - folding) as nat
        } else {
            final_degree
        };
        seq![StarkStep { n_bits: next as usize }] + next_steps(next, folding, final_degree)
    }
}

/// All FRI steps.
pub open spec fn fri_steps(bits: nat, folding: nat, final_degree: nat) -> Seq<StarkStep> {
    seq![StarkStep { n_bits: bits as usize }] + next_steps(bits, folding, final_degree)
}

/// The structure is the one that the settings give for `2^n_bits` rows.
pub open spec fn is_stark_struct(
    s: StarkSettings,
    n_bits: usize,
    arity: usize,
    r: StarkStruct,
) -> bool {
    let bn128 = hash_type_of(s) == "BN128"@;
    &&& r.n_bits == n_bits
    &&& r.n_bits_ext == n_bits + value_or(s.blowup_factor, 1)
    &&& r.verification_hash_type@ == hash_type_of(s)
    &&& r.merkle_tree_arity == value_or(
        s.merkle_tree_arity,
        if bn128 {
            16
        } else {
            arity
        },
    )
    &&& r.transcript_arity == if bn128 {
        r.merkle_tree_arity
    } else {
        arity
    }
    &&& r.merkle_tree_custom == if bn128 {
        value_or(s.merkle_tree_custom, false)
    } else {
        true
    }
    &&& r.hash_commits == !bn128
    &&& r.last_level_verification == value_or(
        s.last_level_verification,
        if bn128 {
            0
        } else {
            2
        },
    )
    &&& r.pow_bits == value_or(
        s.pow_bits,
        if bn128 {
            0
        } else {
            20
        },
    )
    &&& r.steps@ == fri_steps(
        r.n_bits_ext as nat,
        value_or(s.folding_factor, 3) as nat,
        value_or(s.final_degree, 5) as nat,
    )
    &&& r.n_queries == 0
}

fn given_or(v: Option<usize>, default: usize) -> (r: usize)
    ensures
        r == value_or(v, default),
{
    match v {
        Some(x) => x,
        None => default,
    }
}

/// The settings give a structure: a known hash type, a size that fits and, where there is
/// anything to fold, steps that shrink.
pub open spec fn generable(s: StarkSettings, n_bits: usize) -> bool {
    let bits = n_bits + value_or(s.blowup_factor, 1);
    let folding = value_or(s.folding_factor, 3);
    let degree = value_or(s.final_degree, 5);
    &&& hash_type_known(s)
    &&& bits <= usize::MAX
    &&& bits > degree + 1 ==> folding >= 1 && degree + folding <= usize::MAX
}

/// Generate the FRI structure of an AIR with `2^n_bits` rows. `goldilocks_arity` is the arity of
/// Goldilocks Merkle trees.
pub fn generate_stark_struct(settings: &StarkSettings, n_bits: usize, goldilocks_arity: usize) -> (r:
    StarkStruct)
    requires
        generable(*settings, n_bits),
    ensures
        is_stark_struct(*settings, n_bits, goldilocks_arity, r),
{
    let verification_hash_type: String = match &settings.verification_hash_type {
        Some(h) => h.clone(),
        None => "GL".to_owned(),
    };
    let blowup_factor: usize = given_or(settings.blowup_factor, 1);
    let folding_factor: usize = given_or(settings.folding_factor, 3);
    let final_degree: usize = given_or(settings.final_degree, 5);
    let bn128: bool = str_eq(verification_hash_type.as_str(), "BN128");
    let merkle_tree_arity: usize;
    let transcript_arity: usize;
    let merkle_tree_custom: bool;
    let last_level_verification: usize;
    let pow_bits: usize;
    if bn128 {
        merkle_tree_arity = given_or(settings.merkle_tree_arity, 16);
        transcript_arity = merkle_tree_arity;
        merkle_tree_custom = match settings.merkle_tree_custom {
            Some(b) => b,
            None => false,
        };
        last_level_verification = given_or(settings.last_level_verification, 0);
        pow_bits = given_or(settings.pow_bits, 0);
    } else {
        merkle_tree_arity = given_or(settings.merkle_tree_arity, goldilocks_arity);
        transcript_arity = goldilocks_arity;
        merkle_tree_custom = true;
        last_level_verification = given_or(settings.last_level_verification, 2);
        pow_bits = given_or(settings.pow_bits, 20);
    }
    let n_bits_ext: usize = n_bits + blowup_factor;
    let mut steps: Vec<StarkStep> = Vec::new();
    steps.push(StarkStep { n_bits: n_bits_ext });
    let mut bits: usize = n_bits_ext;
    let ghost all = fri_steps(n_bits_ext as nat, folding_factor as nat, final_degree as nat);
    assert(steps@ + next_steps(bits as nat, folding_factor as nat, final_degree as nat) =~= all);
    while bits > final_degree && bits - final_degree > 1
        invariant
            bits > final_degree + 1 ==> folding_factor >= 1 && final_degree + folding_factor
                <= usize::MAX,
            steps@ + next_steps(bits as nat, folding_factor as nat, final_degree as nat) == all,
        decreases bits,
    {
        let ghost before = steps@;
        let ghost rest = next_steps(bits as nat, folding_factor as nat, final_degree as nat);
        bits = if bits > folding_factor + final_degree {
            bits - folding_factor
        } else {
            final_degree
        };
        steps.push(StarkStep { n_bits: bits });
        proof {
            let tail = next_steps(bits as nat, folding_factor as nat, final_degree as nat);
            assert(rest == seq![StarkStep { n_bits: bits }] + tail);
            assert(steps@ + tail =~= before + rest);
        }
    }
    assert(steps@ =~= all);
    StarkStruct {
        n_bits,
        n_bits_ext,
        merkle_tree_arity,
        transcript_arity,
        merkle_tree_custom,
        hash_commits: !bn128,
        verification_hash_type,
        last_level_verification,
        pow_bits,
        steps,
        n_queries: 0,
    }
}

/// Whether a structure can be generated from the settings.
pub fn check_settings(settings: &StarkSettings, n_bits: usize) -> (r: bool)
    ensures
        r == generable(*settings, n_bits),
{
    let known: bool = match &settings.verification_hash_type {
        Some(h) => str_eq(h.as_str(), "GL") || str_eq(h.as_str(), "BN128"),
        None => true,
    };
    let folding: usize = given_or(settings.folding_factor, 3);
    let degree: usize = given_or(settings.final_degree, 5);
    let blowup: usize = given_or(settings.blowup_factor, 1);
    if !known || n_bits > usize::MAX - blowup {
        return false;
    }
    let bits: usize = n_bits + blowup;
    let folds: bool = bits > degree && bits - degree > 1;
    !folds || (folding >= 1 && degree <= usize::MAX - folding)
}

proof fn lemma_next_steps(bits: nat, folding: nat, final_degree: nat, i: int)
    requires
        folding >= 1,
        bits <= usize::MAX,
        0 <= i < next_steps(bits, folding, final_degree).len(),
    ensures
        ({
            let s = next_steps(bits, folding, final_degree);
            let before = if i == 0 {
                bits as int
            } else {
                s[i - 1].n_bits as int
            };
            &&& s[i].n_bits < before
            &&& before - s[i].n_bits <= folding
            &&& s[i].n_bits >= final_degree
            &&& s.last().n_bits <= final_degree + 1
        }),
    decreases bits,
{
    let s = next_steps(bits, folding, final_degree);
    let next = if bits > folding + final_degree {
        (bits - folding) as nat
    } else {
        final_degree
    };
    let tail = next_steps(next, folding, final_degree);
    assert(s == seq![StarkStep { n_bits: next as usize }] + tail);
    if tail.len() > 0 {
        lemma_next_steps(
            next,
            folding,
            final_degree,
            if i > 0 {
                i - 1
            } else {
                0
            },
        );
        assert(s.last() == tail.last());
    } else {
        assert(s.last() == s[0]);
    }
}

/// FRI steps start from the extended domain, shrink by at most the folding factor each, and end
/// within one bit of the final degree, never below it.
pub proof fn law_steps_converge(bits: nat, folding: nat, final_degree: nat, i: int)
    requires
        folding >= 1,
        bits <= usize::MAX,
        0 <= i < fri_steps(bits, folding, final_degree).len(),
    ensures
        ({
            let s = fri_steps(bits, folding, final_degree);
            &&& s[0].n_bits == bits
            &&& i > 0 ==> s[i].n_bits < s[i - 1].n_bits <= s[i].n_bits + folding
            &&& i > 0 ==> s[i].n_bits >= final_degree
            &&& bits > final_degree + 1 ==> s.last().n_bits <= final_degree + 1
            &&& bits <= final_degree + 1 ==> s.len() == 1
        }),
{
    let s = fri_steps(bits, folding, final_degree);
    let tail = next_steps(bits, folding, final_degree);
    if tail.len() > 0 {
        lemma_next_steps(
            bits,
            folding,
            final_degree,
            if i > 0 {
                i - 1
            } else {
                0
            },
        );
        assert(s.last() == tail.last());
    }
}

proof fn lemma_steps_fold_fully(bits: nat, folding: nat, final_degree: nat, i: int)
    requires
        folding >= 1,
        bits <= usize::MAX,
        0 <= i < next_steps(bits, folding, final_degree).len(),
    ensures
        ({
            let s = next_steps(bits, folding, final_degree);
            let before = if i == 0 {
                bits as int
            } else {
                s[i - 1].n_bits as int
            };
            &&& before > final_degree + 1
            &&& i < s.len() - 1 ==> s[i].n_bits == bits - (i + 1) * folding
            &&& i == s.len() - 1 ==> s[i].n_bits == if before - folding >= final_degree {
                before - folding
            } else {
                final_degree as int
            }
            &&& s.last().n_bits <= final_degree + 1
        }),
    decreases bits,
{
    let s = next_steps(bits, folding, final_degree);
    let next = s[0].n_bits as nat;
    let tail = next_steps(next, folding, final_degree);
    assert(s =~= seq![s[0]] + tail);
    if tail.len() > 0 {
        if i > 0 {
            lemma_steps_fold_fully(next, folding, final_degree, i - 1);
            assert(s[i] == tail[i - 1]);
            assert(i > 1 ==> s[i - 1] == tail[i - 2]);
            assert(next - i * folding == bits - (i + 1) * folding) by (nonlinear_arith)
                requires
                    next == bits - folding,
            ;
        } else {
            lemma_steps_fold_fully(next, folding, final_degree, 0);
            assert((i + 1) * folding == folding) by (nonlinear_arith)
                requires
                    i == 0,
            ;
        }
        assert(s.last() == tail.last());
    }
}

/// The FRI steps of a structure: the first has the bits of the extended domain, each one but the
/// last has `folding` bits less than the one before, and the last has as many less as the final
/// degree allows. There are no more steps than it takes to come within one bit of the final
/// degree.
pub proof fn law_steps_fold_fully(
    s: StarkSettings,
    n_bits: usize,
    arity: usize,
    r: StarkStruct,
    i: int,
)
    requires
        generable(s, n_bits),
        is_stark_struct(s, n_bits, arity, r),
        0 < i < r.steps@.len(),
    ensures
        ({
            let ext = n_bits + match s.blowup_factor {
                Some(b) => b as int,
                None => 1,
            };
            let folding = match s.folding_factor {
                Some(f) => f as int,
                None => 3,
            };
            let degree = match s.final_degree {
                Some(d) => d as int,
                None => 5,
            };
            let left = r.steps@[i - 1].n_bits - folding;
            &&& r.n_bits_ext == ext
            &&& r.steps@[0].n_bits == ext
            &&& r.steps@[i - 1].n_bits > degree + 1
            &&& i < r.steps@.len() - 1 ==> r.steps@[i].n_bits == ext - i * folding
            &&& i == r.steps@.len() - 1 ==> r.steps@[i].n_bits == if left >= degree {
                left
            } else {
                degree
            }
            &&& r.steps@.last().n_bits <= degree + 1
        }),
{
    let bits = r.n_bits_ext as nat;
    let folding = value_or(s.folding_factor, 3) as nat;
    let degree = value_or(s.final_degree, 5) as nat;
    let tail = next_steps(bits, folding, degree);
    assert(r.steps@ =~= seq![r.steps@[0]] + tail);
    lemma_steps_fold_fully(bits, folding, degree, i - 1);
    assert(r.steps@[i] == tail[i - 1]);
    assert(i > 1 ==> r.steps@[i - 1] == tail[i - 2]);
}

/// A domain that is within one bit of the final degree is not folded, and any other is.
pub proof fn law_small_domains_are_not_folded(
    s: StarkSettings,
    n_bits: usize,
    arity: usize,
    r: StarkStruct,
)
    requires
        generable(s, n_bits),
        is_stark_struct(s, n_bits, arity, r),
    ensures
        ({
            let ext = n_bits + match s.blowup_factor {
                Some(b) => b as int,
                None => 1,
            };
            let degree = match s.final_degree {
                Some(d) => d as int,
                None => 5,
            };
            &&& r.steps@.len() >= 1
            &&& r.steps@[0].n_bits == ext
            &&& r.steps@.len() == 1 <==> ext <= degree + 1
        }),
{
}

} // verus!

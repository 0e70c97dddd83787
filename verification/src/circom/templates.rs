//! Circuits and contracts that are made by filling a template.
use vstd::prelude::*;
use vstd::string::StringExecFns;

use crate::circom::json::{
    join_texts, json_flag, json_object, json_texts, push_text, quoted, separated, JsonObject,
};
use crate::circom::render::{render, rendered};
use crate::circom::template_syntax::fillable;
use crate::exps::emit::texts;
use crate::setup::search::text_of;
use crate::text::{chars_of, dec};

verus! {

/// How the description of a circuit gives the number of proof values: by stage, or in all.
pub enum ProofValues {
    Stages(Vec<Option<u64>>),
    Total(Option<u64>),
}

/// The sum of the numbers, open ones left out.
pub open spec fn sum_of(v: Seq<Option<u64>>) -> nat
    decreases v.len(),
{
    if v.len() == 0 {
        0
    } else {
        sum_of(v.drop_last()) + (match v.last() {
            Some(n) => n as nat,
            None => 0,
        })
    }
}

/// The number of proof values.
pub open spec fn proof_values(v: ProofValues) -> nat {
    match v {
        ProofValues::Stages(s) => sum_of(s@),
        ProofValues::Total(Some(n)) => n as nat,
        ProofValues::Total(None) => 0,
    }
}

proof fn lemma_sum_grows(v: Seq<Option<u64>>, k: int)
    requires
        0 <= k <= v.len(),
    ensures
        sum_of(v.take(k)) <= sum_of(v),
    decreases v.len() - k,
{
    if k < v.len() {
        assert(v.take(k + 1).drop_last() =~= v.take(k));
        lemma_sum_grows(v, k + 1);
    } else {
        assert(v.take(k) =~= v);
    }
}

/// The number of proof values.
pub fn parse_num_proof_values(v: &ProofValues) -> (r: u64)
    requires
        proof_values(*v) <= u64::MAX,
    ensures
        r == proof_values(*v),
{
    match v {
        ProofValues::Stages(s) => {
            let mut total: u64 = 0;
            let mut i: usize = 0;
            assert(s@.take(0) =~= Seq::empty());
            while i < s.len()
                invariant
                    i <= s@.len(),
                    total == sum_of(s@.take(i as int)),
                    sum_of(s@) <= u64::MAX,
                decreases s@.len() - i,
            {
                proof {
                    assert(s@.take(i + 1).drop_last() =~= s@.take(i as int));
                    assert(s@.take(i + 1).last() == s@[i as int]);
                    lemma_sum_grows(s@, i + 1);
                }
                match s[i] {
                    Some(n) => {
                        total = total + n;
                    },
                    None => {},
                }
                i = i + 1;
            }
            assert(s@.take(i as int) =~= s@);
            total
        },
        ProofValues::Total(t) => match t {
            Some(n) => *n,
            None => 0,
        },
    }
}

/// What `char::to_uppercase` makes of a character.
pub uninterp spec fn uppercased(c: char) -> Seq<char>;

/// `char::to_uppercase` gives the upper-case characters, which depend on the character alone.
#[verifier::external_body]
fn to_uppercase(c: char) -> (r: String)
    ensures
        r@ == uppercased(c),
{
    c.to_uppercase().to_string()
}

/// A name that starts with given characters in place of its first.
pub open spec fn with_head(head: Seq<char>, s: Seq<char>) -> Seq<char> {
    head + s.skip(1)
}

/// A name that starts with given characters in place of its first.
pub fn replace_head(head: &str, s: &str) -> (r: String)
    requires
        s@.len() > 0,
    ensures
        r@ == with_head(head@, s@),
{
    let cs: Vec<char> = chars_of(s);
    let mut out: String = head.to_owned();
    let mut i: usize = 1;
    assert(out@ =~= head@ + s@.subrange(1, 1));
    while i < cs.len()
        invariant
            1 <= i <= cs@.len(),
            cs@ == s@,
            out@ == head@ + s@.subrange(1, i as int),
        decreases cs@.len() - i,
    {
        out.push(cs[i]);
        assert(out@ =~= head@ + s@.subrange(1, i + 1));
        i = i + 1;
    }
    assert(s@.subrange(1, i as int) =~= s@.skip(1));
    out
}

/// A name with its first character in upper case.
pub open spec fn capitalised(s: Seq<char>) -> Seq<char> {
    if s.len() == 0 {
        s
    } else {
        with_head(uppercased(s[0]), s)
    }
}

/// A name with its first character in upper case.
pub fn capitalise(s: &str) -> (r: String)
    ensures
        r@ == capitalised(s@),
{
    let cs: Vec<char> = chars_of(s);
    if cs.len() == 0 {
        let out: String = s.to_owned();
        return out;
    }
    let head: String = to_uppercase(cs[0]);
    replace_head(head.as_str(), s)
}

/// The signals of the STARK that a circuit verifies: how they are declared, and how they are
/// handed to its verifier.
pub struct StarkSignals {
    pub define: String,
    pub assign: String,
}

/// What the bridge to BN128 is made from.
pub open spec fn recursivef_fields(files: Seq<Seq<char>>, s: StarkSignals, n_publics: nat) -> Seq<
    (Seq<char>, Seq<char>),
> {
    seq![
        ("verifier_filenames"@, json_texts(files)),
        ("stark_signals"@, quoted(s.define@)),
        ("stark_assign"@, quoted(s.assign@)),
        ("has_publics"@, json_flag(n_publics > 0)),
    ]
}

/// What the circuit that bridges to BN128 is filled with.
pub fn recursivef_values(
    verifier_filenames: &Vec<String>,
    s: &StarkSignals,
    n_publics: u64,
) -> (o: JsonObject)
    ensures
        o.wf(),
        o@ == recursivef_fields(texts(verifier_filenames@), *s, n_publics as nat),
{
    let mut o: JsonObject = JsonObject::new();
    o.add_texts("verifier_filenames", verifier_filenames);
    o.add_text("stark_signals", s.define.as_str());
    o.add_text("stark_assign", s.assign.as_str());
    o.add_flag("has_publics", n_publics > 0);
    assert(o@ =~= recursivef_fields(texts(verifier_filenames@), *s, n_publics as nat));
    o
}

/// The circuit that bridges to BN128.
pub fn gen_recursivef(
    template: &str,
    verifier_filenames: &Vec<String>,
    s: &StarkSignals,
    n_publics: u64,
) -> (r: Option<String>)
    requires
        fillable(
            template@,
            json_object(recursivef_fields(texts(verifier_filenames@), *s, n_publics as nat)),
        ),
    ensures
        text_of(r) == rendered(
            template@,
            json_object(recursivef_fields(texts(verifier_filenames@), *s, n_publics as nat)),
        ),
{
    let o: JsonObject = recursivef_values(verifier_filenames, s, n_publics);
    render(template, &o)
}

/// The difference, or zero.
pub open spec fn less(a: nat, b: nat) -> nat {
    if a > b {
        (a - b) as nat
    } else {
        0
    }
}

/// The publics of the final circuit that are hashed: all but the key in front and the flag
/// behind it.
pub fn hashed_publics(n_publics: u64) -> (r: u64)
    ensures
        r == less(n_publics as nat, 5),
{
    if n_publics > 5 {
        n_publics - 5
    } else {
        0
    }
}

/// What the final circuit is made from.
pub open spec fn recursion_final_fields(
    files: Seq<Seq<char>>,
    s: StarkSignals,
    sha256: Option<Seq<char>>,
    n_publics: nat,
) -> Seq<(Seq<char>, Seq<char>)> {
    seq![
        ("verifier_filenames"@, json_texts(files)),
        (
            "sha256_template"@,
            quoted(
                match sha256 {
                    Some(t) => t,
                    None => ""@,
                },
            ),
        ),
        ("stark_signals"@, quoted(s.define@)),
        ("stark_assign"@, quoted(s.assign@)),
        ("n_publics_proof"@, dec(less(n_publics, 5))),
    ]
}

/// What the final circuit is filled with.
pub fn recursion_final_values(
    verifier_filenames: &Vec<String>,
    s: &StarkSignals,
    sha256_template: &Option<String>,
    n_publics: u64,
) -> (o: JsonObject)
    ensures
        o.wf(),
        o@ == recursion_final_fields(
            texts(verifier_filenames@),
            *s,
            text_of(*sha256_template),
            n_publics as nat,
        ),
{
    let sha256: String = match sha256_template {
        Some(t) => t.as_str().to_owned(),
        None => "".to_owned(),
    };
    let mut o: JsonObject = JsonObject::new();
    o.add_texts("verifier_filenames", verifier_filenames);
    o.add_text("sha256_template", sha256.as_str());
    o.add_text("stark_signals", s.define.as_str());
    o.add_text("stark_assign", s.assign.as_str());
    o.add_number("n_publics_proof", hashed_publics(n_publics));
    assert(o@ =~= recursion_final_fields(
        texts(verifier_filenames@),
        *s,
        text_of(*sha256_template),
        n_publics as nat,
    ));
    o
}

/// The final circuit.
pub fn gen_recursion_final(
    template: &str,
    verifier_filenames: &Vec<String>,
    s: &StarkSignals,
    sha256_template: &Option<String>,
    n_publics: u64,
) -> (r: Option<String>)
    requires
        fillable(template@, json_object(recursion_final_fields(
            texts(verifier_filenames@),
            *s,
            text_of(*sha256_template),
            n_publics as nat,
        ))),
    ensures
        text_of(r) == rendered(template@, json_object(recursion_final_fields(
            texts(verifier_filenames@),
            *s,
            text_of(*sha256_template),
            n_publics as nat,
        ))),
{
    let o: JsonObject = recursion_final_values(verifier_filenames, s, sha256_template, n_publics);
    render(template, &o)
}

/// Which definitions of the publics are verification keys, where there are definitions.
pub open spec fn first_is_key(defs: Option<Vec<Option<bool>>>) -> bool {
    match defs {
        Some(d) => d@.len() > 0 && d@[0] == Some(true),
        None => false,
    }
}

/// The publics hold a program's verification key: in front or at the end.
pub open spec fn has_key(defs: Option<Vec<Option<bool>>>) -> bool {
    match defs {
        Some(d) => d@.len() > 0 && (d@[0] == Some(true) || d@.last() == Some(true)),
        None => false,
    }
}

fn is_true(b: Option<bool>) -> (r: bool)
    ensures
        r == (b == Some(true)),
{
    match b {
        Some(x) => x,
        None => false,
    }
}

/// Whether the publics hold a program's verification key, and whether it is in front.
pub fn program_key(defs: &Option<Vec<Option<bool>>>) -> (r: (bool, bool))
    ensures
        r.0 == has_key(*defs),
        r.1 == first_is_key(*defs),
{
    match defs {
        Some(d) => {
            if d.len() == 0 {
                return (false, false);
            }
            let first: bool = is_true(d[0]);
            let last: bool = is_true(d[d.len() - 1]);
            (first || last, first)
        },
        None => (false, false),
    }
}

/// How the contract decodes a proof.
pub open spec fn decoding(use_fflonk: bool) -> Seq<char> {
    if use_fflonk {
        "bytes32[24] memory proofDecoded = abi.decode(proofBytes, (bytes32[24]));"@
    } else {
        "uint256[24] memory proofDecoded = abi.decode(proofBytes, (uint256[24]));"@
    }
}

/// What the verifier contract is made from.
pub open spec fn solidity_fields(
    camel: Seq<char>,
    root_c: [u64; 4],
    defs: Option<Vec<Option<bool>>>,
    use_fflonk: bool,
) -> Seq<(Seq<char>, Seq<char>)> {
    seq![
        ("name"@, quoted(camel)),
        (
            "snark"@,
            quoted(
                if use_fflonk {
                    "Fflonk"@
                } else {
                    "Plonk"@
                },
            ),
        ),
        ("root_c_0"@, dec(root_c[0] as nat)),
        ("root_c_1"@, dec(root_c[1] as nat)),
        ("root_c_2"@, dec(root_c[2] as nat)),
        ("root_c_3"@, dec(root_c[3] as nat)),
        ("has_program_vk"@, json_flag(has_key(defs))),
        ("first_is_vk"@, json_flag(first_is_key(defs))),
        ("proof_decode"@, quoted(decoding(use_fflonk))),
    ]
}

/// What the verifier contract of a circuit with a capitalised name is filled with.
pub fn solidity_values(
    camel: &str,
    root_c: &[u64; 4],
    defs: &Option<Vec<Option<bool>>>,
    use_fflonk: bool,
) -> (o: JsonObject)
    ensures
        o.wf(),
        o@ == solidity_fields(camel@, *root_c, *defs, use_fflonk),
{
    let key: (bool, bool) = program_key(defs);
    let mut o: JsonObject = JsonObject::new();
    o.add_text("name", camel);
    o.add_text(
        "snark",
        if use_fflonk {
            "Fflonk"
        } else {
            "Plonk"
        },
    );
    o.add_number("root_c_0", root_c[0]);
    o.add_number("root_c_1", root_c[1]);
    o.add_number("root_c_2", root_c[2]);
    o.add_number("root_c_3", root_c[3]);
    o.add_flag("has_program_vk", key.0);
    o.add_flag("first_is_vk", key.1);
    o.add_text(
        "proof_decode",
        if use_fflonk {
            "bytes32[24] memory proofDecoded = abi.decode(proofBytes, (bytes32[24]));"
        } else {
            "uint256[24] memory proofDecoded = abi.decode(proofBytes, (uint256[24]));"
        },
    );
    assert(o@ =~= solidity_fields(camel@, *root_c, *defs, use_fflonk));
    o
}

/// The verifier contract of a circuit.
pub fn gen_solidity(
    template: &str,
    name: &str,
    root_c: &[u64; 4],
    defs: &Option<Vec<Option<bool>>>,
    use_fflonk: bool,
) -> (r: Option<String>)
    requires
        fillable(
            template@,
            json_object(solidity_fields(capitalised(name@), *root_c, *defs, use_fflonk)),
        ),
    ensures
        text_of(r) == rendered(
            template@,
            json_object(solidity_fields(capitalised(name@), *root_c, *defs, use_fflonk)),
        ),
{
    let camel: String = capitalise(name);
    let o: JsonObject = solidity_values(camel.as_str(), root_c, defs, use_fflonk);
    render(template, &o)
}

/// What the contract's interface is made from.
pub open spec fn iverifier_fields(camel: Seq<char>, defs: Option<Vec<Option<bool>>>) -> Seq<
    (Seq<char>, Seq<char>),
> {
    seq![("name"@, quoted(camel)), ("has_program_vk"@, json_flag(has_key(defs)))]
}

/// What the interface of a contract of a circuit with a capitalised name is filled with.
pub fn iverifier_values(camel: &str, defs: &Option<Vec<Option<bool>>>) -> (o: JsonObject)
    ensures
        o.wf(),
        o@ == iverifier_fields(camel@, *defs),
{
    let key: (bool, bool) = program_key(defs);
    let mut o: JsonObject = JsonObject::new();
    o.add_text("name", camel);
    o.add_flag("has_program_vk", key.0);
    assert(o@ =~= iverifier_fields(camel@, *defs));
    o
}

/// The interface of a circuit's verifier contract.
pub fn gen_iverifier(template: &str, name: &str, defs: &Option<Vec<Option<bool>>>) -> (r: Option<
    String,
>)
    requires
        fillable(template@, json_object(iverifier_fields(capitalised(name@), *defs))),
    ensures
        text_of(r) == rendered(template@, json_object(iverifier_fields(capitalised(name@), *defs))),
{
    let camel: String = capitalise(name);
    let o: JsonObject = iverifier_values(camel.as_str(), defs);
    render(template, &o)
}

/// What the compressed final circuit is made from. The flag in front of the publics is verified
/// but not passed on.
pub open spec fn final_compressed_fields(
    files: Seq<Seq<char>>,
    s: StarkSignals,
    n_publics: nat,
    has_recursion: bool,
) -> Seq<(Seq<char>, Seq<char>)> {
    seq![
        ("verifier_filenames"@, json_texts(files)),
        ("stark_signals"@, quoted(s.define@)),
        ("stark_assign"@, quoted(s.assign@)),
        (
            "has_publics"@,
            json_flag(
                if has_recursion {
                    n_publics > 4
                } else {
                    n_publics > 0
                },
            ),
        ),
        ("n_publics"@, dec(n_publics)),
        ("n_publics_real"@, dec(less(n_publics, 1))),
    ]
}

/// What the compressed final circuit is filled with.
pub fn final_compressed_values(
    verifier_filenames: &Vec<String>,
    s: &StarkSignals,
    n_publics: u64,
    has_recursion: bool,
) -> (o: JsonObject)
    ensures
        o.wf(),
        o@ == final_compressed_fields(
            texts(verifier_filenames@),
            *s,
            n_publics as nat,
            has_recursion,
        ),
{
    let mut o: JsonObject = JsonObject::new();
    o.add_texts("verifier_filenames", verifier_filenames);
    o.add_text("stark_signals", s.define.as_str());
    o.add_text("stark_assign", s.assign.as_str());
    o.add_flag(
        "has_publics",
        if has_recursion {
            n_publics > 4
        } else {
            n_publics > 0
        },
    );
    o.add_number("n_publics", n_publics);
    o.add_number(
        "n_publics_real",
        if n_publics > 1 {
            n_publics - 1
        } else {
            0
        },
    );
    assert(o@ =~= final_compressed_fields(
        texts(verifier_filenames@),
        *s,
        n_publics as nat,
        has_recursion,
    ));
    o
}

/// The compressed final circuit.
pub fn gen_final_compressed(
    template: &str,
    verifier_filenames: &Vec<String>,
    s: &StarkSignals,
    n_publics: u64,
    has_recursion: bool,
) -> (r: Option<String>)
    requires
        fillable(template@, json_object(final_compressed_fields(
            texts(verifier_filenames@),
            *s,
            n_publics as nat,
            has_recursion,
        ))),
    ensures
        text_of(r) == rendered(template@, json_object(final_compressed_fields(
            texts(verifier_filenames@),
            *s,
            n_publics as nat,
            has_recursion,
        ))),
{
    let o: JsonObject = final_compressed_values(verifier_filenames, s, n_publics, has_recursion);
    render(template, &o)
}

/// The names of a circuit's public signals: given ones, the publics and the proof values where
/// there are any, the challenge, and the aggregation key where the circuit takes one.
pub open spec fn public_names(
    given: Seq<Seq<char>>,
    n_publics: nat,
    n_values: nat,
    with_key: bool,
) -> Seq<Seq<char>> {
    given + (if n_publics > 0 {
        seq!["publics"@]
    } else {
        Seq::empty()
    }) + (if n_values > 0 {
        seq!["proofValues"@]
    } else {
        Seq::empty()
    }) + seq!["globalChallenge"@] + (if with_key {
        seq!["rootCAgg"@]
    } else {
        Seq::empty()
    })
}

/// The names of a circuit's public signals, with commas between them.
pub fn public_name_text(given: &Vec<String>, n_publics: u64, n_values: u64, with_key: bool) -> (r: String)
    ensures
        r@ == separated(
            public_names(texts(given@), n_publics as nat, n_values as nat, with_key),
            ", "@,
        ),
{
    let mut names: Vec<String> = Vec::new();
    let ghost g = texts(given@);
    let mut i: usize = 0;
    assert(texts(names@) =~= g.take(0));
    while i < given.len()
        invariant
            i <= given@.len(),
            g == texts(given@),
            texts(names@) == g.take(i as int),
        decreases given@.len() - i,
    {
        let s: String = given[i].as_str().to_owned();
        assert(g.take(i + 1) =~= g.take(i as int).push(g[i as int]));
        push_text(&mut names, s);
        i = i + 1;
    }
    assert(g.take(i as int) =~= g);
    if n_publics > 0 {
        push_text(&mut names, "publics".to_owned());
    }
    if n_values > 0 {
        push_text(&mut names, "proofValues".to_owned());
    }
    push_text(&mut names, "globalChallenge".to_owned());
    if with_key {
        push_text(&mut names, "rootCAgg".to_owned());
    }
    assert(texts(names@) =~= public_names(g, n_publics as nat, n_values as nat, with_key));
    join_texts(&names, ", ")
}

/// The values of the whole proof that a circuit carries along: how they are declared and set, and
/// the circuit that hashes them.
pub struct ProofSignals {
    pub define: String,
    pub set: String,
    pub hashes: String,
    /// Names of the public signals among them.
    pub names: Vec<String>,
    pub n_publics: u64,
    pub n_values: u64,
}

/// What the compressor's circuit is made from.
pub open spec fn compressor_fields(files: Seq<Seq<char>>, s: StarkSignals, p: ProofSignals) -> Seq<
    (Seq<char>, Seq<char>),
> {
    seq![
        ("verifier_filenames"@, json_texts(files)),
        ("calculate_hashes"@, quoted(p.hashes@)),
        ("has_publics"@, json_flag(p.n_publics > 0)),
        ("n_publics"@, dec(p.n_publics as nat)),
        ("has_proof_values"@, json_flag(p.n_values > 0)),
        ("num_proof_values"@, dec(p.n_values as nat)),
        ("stark_signals"@, quoted(s.define@)),
        ("vadcop_define"@, quoted(p.define@)),
        ("stark_assign"@, quoted(s.assign@)),
        ("vadcop_init"@, quoted(p.set@)),
        (
            "pub_names"@,
            quoted(
                separated(
                    public_names(Seq::empty(), p.n_publics as nat, p.n_values as nat, false),
                    ", "@,
                ),
            ),
        ),
    ]
}

/// What the compressor's circuit is filled with.
pub fn compressor_values(
    verifier_filenames: &Vec<String>,
    s: &StarkSignals,
    p: &ProofSignals,
) -> (o: JsonObject)
    ensures
        o.wf(),
        o@ == compressor_fields(texts(verifier_filenames@), *s, *p),
{
    let none: Vec<String> = Vec::new();
    assert(texts(none@) =~= Seq::empty());
    let names: String = public_name_text(&none, p.n_publics, p.n_values, false);
    let mut o: JsonObject = JsonObject::new();
    o.add_texts("verifier_filenames", verifier_filenames);
    o.add_text("calculate_hashes", p.hashes.as_str());
    o.add_flag("has_publics", p.n_publics > 0);
    o.add_number("n_publics", p.n_publics);
    o.add_flag("has_proof_values", p.n_values > 0);
    o.add_number("num_proof_values", p.n_values);
    o.add_text("stark_signals", s.define.as_str());
    o.add_text("vadcop_define", p.define.as_str());
    o.add_text("stark_assign", s.assign.as_str());
    o.add_text("vadcop_init", p.set.as_str());
    o.add_text("pub_names", names.as_str());
    assert(o@ =~= compressor_fields(texts(verifier_filenames@), *s, *p));
    o
}

/// The compressor's circuit.
pub fn gen_compressor(
    template: &str,
    verifier_filenames: &Vec<String>,
    s: &StarkSignals,
    p: &ProofSignals,
) -> (r: Option<String>)
    requires
        fillable(template@, json_object(compressor_fields(texts(verifier_filenames@), *s, *p))),
    ensures
        text_of(r) == rendered(
            template@,
            json_object(compressor_fields(texts(verifier_filenames@), *s, *p)),
        ),
{
    let o: JsonObject = compressor_values(verifier_filenames, s, p);
    render(template, &o)
}

/// What recursive1's circuit is made from. Behind a compressor it takes the proof's values as
/// public inputs and hashes nothing; without one it computes them.
pub open spec fn recursive1_fields(
    files: Seq<Seq<char>>,
    s: StarkSignals,
    p: ProofSignals,
    has_compressor: bool,
) -> Seq<(Seq<char>, Seq<char>)> {
    seq![
        ("verifier_filenames"@, json_texts(files)),
        ("has_compressor"@, json_flag(has_compressor)),
        (
            "calculate_hashes"@,
            quoted(
                if has_compressor {
                    ""@
                } else {
                    p.hashes@
                },
            ),
        ),
        ("vadcop_define"@, quoted(p.define@)),
        ("stark_signals"@, quoted(s.define@)),
        ("has_publics"@, json_flag(p.n_publics > 0)),
        ("n_publics"@, dec(p.n_publics as nat)),
        ("has_proof_values"@, json_flag(p.n_values > 0)),
        ("num_proof_values"@, dec(p.n_values as nat)),
        ("stark_assign"@, quoted(s.assign@)),
        ("vadcop_init_or_assign"@, quoted(p.set@)),
        (
            "pub_names"@,
            quoted(
                separated(
                    public_names(
                        if has_compressor {
                            texts(p.names@)
                        } else {
                            Seq::empty()
                        },
                        p.n_publics as nat,
                        p.n_values as nat,
                        true,
                    ),
                    ", "@,
                ),
            ),
        ),
    ]
}

/// What recursive1's circuit is filled with.
pub fn recursive1_values(
    verifier_filenames: &Vec<String>,
    s: &StarkSignals,
    p: &ProofSignals,
    has_compressor: bool,
) -> (o: JsonObject)
    ensures
        o.wf(),
        o@ == recursive1_fields(texts(verifier_filenames@), *s, *p, has_compressor),
{
    let none: Vec<String> = Vec::new();
    assert(texts(none@) =~= Seq::empty());
    let names: String = if has_compressor {
        public_name_text(&p.names, p.n_publics, p.n_values, true)
    } else {
        public_name_text(&none, p.n_publics, p.n_values, true)
    };
    let mut o: JsonObject = JsonObject::new();
    o.add_texts("verifier_filenames", verifier_filenames);
    o.add_flag("has_compressor", has_compressor);
    o.add_text(
        "calculate_hashes",
        if has_compressor {
            ""
        } else {
            p.hashes.as_str()
        },
    );
    o.add_text("vadcop_define", p.define.as_str());
    o.add_text("stark_signals", s.define.as_str());
    o.add_flag("has_publics", p.n_publics > 0);
    o.add_number("n_publics", p.n_publics);
    o.add_flag("has_proof_values", p.n_values > 0);
    o.add_number("num_proof_values", p.n_values);
    o.add_text("stark_assign", s.assign.as_str());
    o.add_text("vadcop_init_or_assign", p.set.as_str());
    o.add_text("pub_names", names.as_str());
    assert(o@ =~= recursive1_fields(texts(verifier_filenames@), *s, *p, has_compressor));
    o
}

/// Recursive1's circuit.
pub fn gen_recursive1(
    template: &str,
    verifier_filenames: &Vec<String>,
    s: &StarkSignals,
    p: &ProofSignals,
    has_compressor: bool,
) -> (r: Option<String>)
    requires
        fillable(
            template@,
            json_object(recursive1_fields(texts(verifier_filenames@), *s, *p, has_compressor)),
        ),
    ensures
        text_of(r) == rendered(
            template@,
            json_object(recursive1_fields(texts(verifier_filenames@), *s, *p, has_compressor)),
        ),
{
    let o: JsonObject = recursive1_values(verifier_filenames, s, p, has_compressor);
    render(template, &o)
}

} // verus!

//! The CUDA toolchain: which architectures to build for, and the flags that nvcc gets.
use vstd::prelude::*;
use vstd::string::StringExecFns;

use crate::exps::emit::texts;
use crate::parse::{
    char_views, digits_value, is_digit, is_number, lemma_parts_nonempty, parse_number, parts, split, trim,
    trimmed, unsigned_digits,
};
use crate::paths::{join, joined};
use crate::text::{chars_of, dec, dec_text, push_dec, str_eq, string_of};

verus! {

/// What `str::to_lowercase` makes of a text.
pub uninterp spec fn lowercased(s: Seq<char>) -> Seq<char>;

/// `str::to_lowercase` gives the lower-case text, which depends on the text alone.
#[verifier::external_body]
fn to_lowercase(s: &str) -> (r: String)
    ensures
        r@ == lowercased(s@),
{
    s.to_lowercase()
}

/// The architectures that cover every supported generation.
pub open spec fn major_archs() -> Seq<u32> {
    seq![80u32, 86u32, 89u32, 90u32, 100u32, 120u32]
}

fn all_major() -> (r: Vec<u32>)
    ensures
        r@ == major_archs(),
{
    let mut v: Vec<u32> = Vec::new();
    v.push(80);
    v.push(86);
    v.push(89);
    v.push(90);
    v.push(100);
    v.push(120);
    assert(v@ =~= major_archs());
    v
}

/// The first line of a text.
pub open spec fn first_line(s: Seq<char>) -> Seq<char> {
    parts(s, '\n')[0]
}

/// The digits of a text.
pub open spec fn digits_of(s: Seq<char>) -> Seq<char> {
    s.filter(|c: char| is_digit(c))
}

/// The architecture that a device query reports: the digits of its first line.
pub open spec fn queried_arch(out: Seq<char>) -> Option<u32> {
    let d = digits_of(first_line(out));
    if is_number(d, u32::MAX as nat) {
        Some(digits_value(d) as u32)
    } else {
        None
    }
}

fn keep_digits(s: &Vec<char>) -> (r: Vec<char>)
    ensures
        r@ == digits_of(s@),
{
    let ghost p = |c: char| is_digit(c);
    let mut out: Vec<char> = Vec::new();
    let mut i: usize = 0;
    proof {
        reveal(Seq::filter);
        assert(s@.take(0).filter(p) =~= Seq::empty());
    }
    while i < s.len()
        invariant
            i <= s@.len(),
            p == (|c: char| is_digit(c)),
            out@ == s@.take(i as int).filter(p),
        decreases s@.len() - i,
    {
        let c: char = s[i];
        proof {
            reveal(Seq::filter);
            assert(s@.take(i + 1).drop_last() =~= s@.take(i as int));
            assert(s@.take(i + 1).last() == c);
        }
        if '0' <= c && c <= '9' {
            out.push(c);
        }
        i = i + 1;
    }
    assert(s@.take(i as int) =~= s@);
    out
}

/// Read the architecture that a device query reports.
pub fn read_queried_arch(out: &str) -> (r: Option<u32>)
    ensures
        r == queried_arch(out@),
{
    let lines: Vec<Vec<char>> = split(&chars_of(out), '\n');
    proof {
        lemma_parts_nonempty(out@, '\n');
        assert(char_views(lines@)[0] == lines@[0]@);
        assert(lines@.len() == char_views(lines@).len());
    }
    let d: Vec<char> = keep_digits(&lines[0]);
    proof {
        lemma_no_sign(first_line(out@));
    }
    match parse_number(&d, u32::MAX as u64) {
        Some(a) => Some(a as u32),
        None => None,
    }
}

proof fn lemma_no_sign(s: Seq<char>)
    ensures
        unsigned_digits(digits_of(s)) == digits_of(s),
{
    let p = |c: char| is_digit(c);
    let d = digits_of(s);
    if d.len() > 0 {
        s.lemma_filter_pred(p, 0);
        assert(is_digit(d[0]));
    }
}

/// The text without any `sm_`, taken from the left.
pub open spec fn without_sm(s: Seq<char>) -> Seq<char>
    decreases s.len(),
{
    if s.len() < 3 {
        s
    } else if s[0] == 's' && s[1] == 'm' && s[2] == '_' {
        without_sm(s.skip(3))
    } else {
        seq![s[0]] + without_sm(s.skip(1))
    }
}

fn remove_sm(s: &Vec<char>) -> (r: Vec<char>)
    ensures
        r@ == without_sm(s@),
{
    let mut out: Vec<char> = Vec::new();
    let mut i: usize = 0;
    proof {
        assert(s@.skip(0) =~= s@);
        assert(out@ + without_sm(s@) =~= without_sm(s@));
    }
    while i < s.len()
        invariant
            i <= s@.len(),
            out@ + without_sm(s@.skip(i as int)) == without_sm(s@),
        decreases s@.len() - i,
    {
        let ghost rest = s@.skip(i as int);
        if s.len() - i >= 3 && s[i] == 's' && s[i + 1] == 'm' && s[i + 2] == '_' {
            assert(rest.skip(3) =~= s@.skip(i + 3));
            i = i + 3;
        } else {
            let ghost before = out@;
            out.push(s[i]);
            proof {
                if rest.len() >= 3 {
                    assert(rest.skip(1) =~= s@.skip(i + 1));
                    assert(out@ + without_sm(s@.skip(i + 1)) =~= before + (seq![rest[0]]
                        + without_sm(s@.skip(i + 1))));
                } else {
                    assert(without_sm(rest) == rest);
                    assert(without_sm(s@.skip(i + 1)) == s@.skip(i + 1));
                    assert(out@ + s@.skip(i + 1) =~= before + rest);
                }
            }
            i = i + 1;
        }
    }
    assert(s@.skip(i as int) =~= Seq::empty());
    assert(out@ + without_sm(s@.skip(i as int)) =~= out@);
    out
}

/// Some entry of a list of architectures, between commas, is `a`.
pub open spec fn lists_arch(list: Seq<Seq<char>>, a: u32) -> bool {
    exists|i: int| 0 <= i < list.len() && entry_is(#[trigger] list[i], a)
}

/// The entry of a list is `a`.
pub open spec fn entry_is(e: Seq<char>, a: u32) -> bool {
    is_number(trimmed(e), u32::MAX as nat) && digits_value(unsigned_digits(trimmed(e))) == a
}

/// The numbers ascend, so that none is there twice.
pub open spec fn ascending(v: Seq<u32>) -> bool {
    forall|i: int, j: int| 0 <= i < j < v.len() ==> (#[trigger] v[i]) < (#[trigger] v[j])
}

/// `v` holds the architectures of a list, each once, in ascending order.
pub open spec fn is_arch_list(v: Seq<u32>, list: Seq<Seq<char>>) -> bool {
    ascending(v) && forall|a: u32| #[trigger] v.contains(a) <==> lists_arch(list, a)
}

/// Put `a` in its place, where it is not there yet.
fn insert_sorted(v: &Vec<u32>, a: u32) -> (r: Vec<u32>)
    requires
        ascending(v@),
    ensures
        ascending(r@),
        forall|x: u32| #[trigger] r@.contains(x) <==> (v@.contains(x) || x == a),
{
    let mut out: Vec<u32> = Vec::new();
    let mut placed: bool = false;
    let mut i: usize = 0;
    while i < v.len()
        invariant
            i <= v@.len(),
            ascending(v@),
            ascending(out@),
            forall|k: int|
                0 <= k < out@.len() ==> ((#[trigger] out@[k]) == a && placed) || (exists|j: int|
                    0 <= j < i && v@[j] == out@[k]),
            forall|j: int| 0 <= j < i ==> out@.contains(#[trigger] v@[j]),
            placed ==> out@.contains(a),
            !placed ==> (forall|j: int| 0 <= j < i ==> (#[trigger] v@[j]) < a),
            placed ==> (forall|j: int| i <= j < v@.len() ==> a < #[trigger] v@[j]),
        decreases v@.len() - i,
    {
        let x: u32 = v[i];
        let ghost before = out@;
        if !placed && a <= x {
            out.push(a);
            placed = true;
            assert(out@[before.len() as int] == a);
            assert(out@.contains(a));
            assert(forall|y: u32| before.contains(y) ==> out@.contains(y)) by {
                assert forall|y: u32| before.contains(y) implies out@.contains(y) by {
                    let k = before.index_of(y);
                    assert(out@[k] == y);
                }
            }
            if a < x {
                let ghost mid = out@;
                out.push(x);
                assert forall|y: u32| mid.contains(y) implies out@.contains(y) by {
                    let k = mid.index_of(y);
                    assert(out@[k] == y);
                }
            }
            assert(out@.contains(x)) by {
                assert(out@.last() == x);
            }
        } else {
            out.push(x);
            assert(out@.last() == x);
            assert forall|y: u32| before.contains(y) implies out@.contains(y) by {
                let k = before.index_of(y);
                assert(out@[k] == y);
            }
        }
        assert forall|k: int| 0 <= k < out@.len() implies ((#[trigger] out@[k]) == a && placed)
            || (exists|j: int| 0 <= j < i + 1 && v@[j] == out@[k]) by {
            if k < before.len() {
                assert(out@[k] == before[k]);
                if !(before[k] == a && placed) {
                    let j = choose|j: int| 0 <= j < i && v@[j] == before[k];
                    assert(0 <= j < i + 1 && v@[j] == out@[k]);
                }
            } else if out@[k] == x {
                assert(v@[i as int] == out@[k]);
            }
        }
        i = i + 1;
    }
    if !placed {
        let ghost before = out@;
        out.push(a);
        assert(out@.last() == a);
        assert forall|y: u32| before.contains(y) implies out@.contains(y) by {
            let k = before.index_of(y);
            assert(out@[k] == y);
        }
    }
    assert forall|x: u32| #[trigger] out@.contains(x) <==> (v@.contains(x) || x == a) by {
        if out@.contains(x) && x != a {
            let k = out@.index_of(x);
            let j = choose|j: int| 0 <= j < v@.len() && v@[j] == out@[k];
            assert(v@[j] == x);
        }
        if v@.contains(x) {
            let j = v@.index_of(x);
            assert(out@.contains(v@[j]));
        }
    }
    out
}

/// Read a list of architectures.
pub fn read_arch_list(list: &Vec<Vec<char>>) -> (r: Vec<u32>)
    ensures
        is_arch_list(r@, char_views(list@)),
{
    let ghost l = char_views(list@);
    let mut out: Vec<u32> = Vec::new();
    let mut i: usize = 0;
    assert(forall|a: u32| !lists_arch(l.take(0), a));
    while i < list.len()
        invariant
            i <= list@.len(),
            l == char_views(list@),
            is_arch_list(out@, l.take(i as int)),
        decreases list@.len() - i,
    {
        let t: Vec<char> = trim(&list[i]);
        let ghost before = out@;
        assert(l[i as int] == list@[i as int]@);
        match parse_number(&t, u32::MAX as u64) {
            Some(a) => {
                out = insert_sorted(&out, a as u32);
            },
            None => {},
        }
        proof {
            let old_l = l.take(i as int);
            let new_l = l.take(i + 1);
            assert forall|a: u32| lists_arch(new_l, a) <==> (lists_arch(old_l, a) || entry_is(
                l[i as int],
                a,
            )) by {
                if lists_arch(new_l, a) {
                    let k = choose|k: int| 0 <= k < new_l.len() && entry_is(#[trigger] new_l[k], a);
                    if k < i {
                        assert(old_l[k] == new_l[k]);
                    }
                }
                if lists_arch(old_l, a) {
                    let k = choose|k: int| 0 <= k < old_l.len() && entry_is(#[trigger] old_l[k], a);
                    assert(new_l[k] == old_l[k]);
                }
                assert(new_l[i as int] == l[i as int]);
            }
            assert forall|a: u32| #[trigger] out@.contains(a) <==> lists_arch(new_l, a) by {}
        }
        i = i + 1;
    }
    assert(l.take(i as int) =~= l);
    out
}

/// What the architectures of a lower-case request are: `major`, those of the host, or a list.
pub open spec fn is_resolved(v: Seq<u32>, request: Seq<char>, query: Option<Seq<char>>) -> bool {
    if request == "major"@ {
        v == major_archs()
    } else if asks_for_host(request) {
        match query {
            Some(out) => match queried_arch(out) {
                Some(a) => v == seq![a],
                None => v == major_archs(),
            },
            None => v == major_archs(),
        }
    } else {
        is_arch_list(v, parts(without_sm(request), ','))
    }
}

/// The text of a query, where there is one.
pub open spec fn query_text(query: Option<String>) -> Option<Seq<char>> {
    match query {
        Some(s) => Some(s@),
        None => None,
    }
}

/// The architectures of a request in lower case, without white space around it. `query` is what
/// the device query printed, where it succeeded.
pub fn archs_of_request(request: &str, query: &Option<String>) -> (r: Vec<u32>)
    ensures
        is_resolved(r@, request@, query_text(*query)),
{
    if str_eq(request, "major") {
        return all_major();
    }
    let cs: Vec<char> = chars_of(request);
    if cs.len() == 0 || str_eq(request, "auto") {
        match query {
            Some(out) => match read_queried_arch(out.as_str()) {
                Some(a) => {
                    let mut v: Vec<u32> = Vec::new();
                    v.push(a);
                    assert(v@ =~= seq![a]);
                    return v;
                },
                None => {},
            },
            None => {},
        }
        return all_major();
    }
    let bare: Vec<char> = remove_sm(&cs);
    let list: Vec<Vec<char>> = split(&bare, ',');
    read_arch_list(&list)
}

/// The architectures of a request: ascending, each once. `auto`, or nothing, asks for that of the
/// host, and for all major ones where the host's is not known.
pub fn resolve_archs(archspec: &str, query: &Option<String>) -> (r: Vec<u32>)
    ensures
        is_resolved(r@, lowercased(trimmed(archspec@)), query_text(*query)),
{
    let t: Vec<char> = trim(&chars_of(archspec));
    let s: String = string_of(t.as_slice());
    let request: String = to_lowercase(s.as_str());
    archs_of_request(request.as_str(), query)
}

/// The request asks for the host's architecture.
pub open spec fn asks_for_host(request: Seq<char>) -> bool {
    request.len() == 0 || request == "auto"@
}

/// Whether a request asks for the host's architecture.
pub fn detects_host(archspec: &str) -> (r: bool)
    ensures
        r == asks_for_host(lowercased(trimmed(archspec@))),
{
    let t: Vec<char> = trim(&chars_of(archspec));
    let s: String = string_of(t.as_slice());
    let request: String = to_lowercase(s.as_str());
    chars_of(request.as_str()).len() == 0 || str_eq(request.as_str(), "auto")
}

/// The architecture is of the datacenter line: its number starts with 10 or 11.
pub open spec fn is_datacenter(a: u32) -> bool {
    let d = dec(a as nat);
    d.len() >= 2 && d[0] == '1' && (d[1] == '0' || d[1] == '1')
}

fn datacenter(a: u32) -> (r: bool)
    ensures
        r == is_datacenter(a),
{
    let d: Vec<char> = chars_of(dec_text(a as u64).as_str());
    d.len() >= 2 && d[0] == '1' && (d[1] == '0' || d[1] == '1')
}

/// The newest architecture of the datacenter line, or of the rest.
pub open spec fn newest(archs: Seq<u32>, dc: bool) -> Option<u32>
    decreases archs.len(),
{
    if archs.len() == 0 {
        None
    } else {
        let a = archs.last();
        match newest(archs.drop_last(), dc) {
            None => if is_datacenter(a) == dc {
                Some(a)
            } else {
                None
            },
            Some(b) => if is_datacenter(a) == dc && a > b {
                Some(a)
            } else {
                Some(b)
            },
        }
    }
}

fn newest_of(archs: &Vec<u32>, dc: bool) -> (r: Option<u32>)
    ensures
        r == newest(archs@, dc),
{
    let mut best: Option<u32> = None;
    let mut i: usize = 0;
    assert(archs@.take(0) =~= Seq::empty());
    while i < archs.len()
        invariant
            i <= archs@.len(),
            best == newest(archs@.take(i as int), dc),
        decreases archs@.len() - i,
    {
        let a: u32 = archs[i];
        proof {
            assert(archs@.take(i + 1).drop_last() =~= archs@.take(i as int));
            assert(archs@.take(i + 1).last() == a);
        }
        let keep: bool = datacenter(a) == dc;
        best = match best {
            None => if keep {
                Some(a)
            } else {
                None
            },
            Some(b) => if keep && a > b {
                Some(a)
            } else {
                Some(b)
            },
        };
        i = i + 1;
    }
    assert(archs@.take(i as int) =~= archs@);
    best
}

/// The newest architecture of a line is the greatest of it, and there is one where the line is
/// not empty.
pub proof fn law_newest_is_greatest(archs: Seq<u32>, dc: bool)
    ensures
        match newest(archs, dc) {
            Some(b) => archs.contains(b) && is_datacenter(b) == dc && forall|i: int|
                0 <= i < archs.len() && is_datacenter(#[trigger] archs[i]) == dc ==> archs[i] <= b,
            None => forall|i: int|
                0 <= i < archs.len() ==> is_datacenter(#[trigger] archs[i]) != dc,
        },
    decreases archs.len(),
{
    if archs.len() > 0 {
        let rest = archs.drop_last();
        law_newest_is_greatest(rest, dc);
        assert forall|i: int| 0 <= i < archs.len() - 1 implies #[trigger] archs[i] == rest[i] by {}
        match newest(rest, dc) {
            Some(b) => {
                let k = rest.index_of(b);
                assert(archs[k] == b);
                assert(archs[archs.len() - 1] == archs.last());
            },
            None => {
                assert(archs[archs.len() - 1] == archs.last());
            },
        }
        assert forall|i: int| 0 <= i < archs.len() implies (i < rest.len() && #[trigger] archs[i]
            == rest[i]) || archs[i] == archs.last() by {}
    }
}

/// Machine code for `a`.
pub open spec fn sass_flags(a: u32) -> Seq<Seq<char>> {
    seq!["-gencode"@, "arch=compute_"@ + dec(a as nat) + ",code=sm_"@ + dec(a as nat)]
}

/// Forward-compatible code for `a`.
pub open spec fn ptx_flags(a: Option<u32>) -> Seq<Seq<char>> {
    match a {
        Some(a) => seq![
            "-gencode"@,
            "arch=compute_"@ + dec(a as nat) + ",code=compute_"@ + dec(a as nat),
        ],
        None => Seq::empty(),
    }
}

/// Machine code for each architecture.
pub open spec fn sass_for(archs: Seq<u32>) -> Seq<Seq<char>>
    decreases archs.len(),
{
    if archs.len() == 0 {
        Seq::empty()
    } else {
        sass_for(archs.drop_last()) + sass_flags(archs.last())
    }
}

/// The code-generation flags: machine code for each architecture, then forward-compatible code
/// for the newest of each line.
pub open spec fn gencode_flags(archs: Seq<u32>) -> Seq<Seq<char>> {
    sass_for(archs) + ptx_flags(newest(archs, true)) + ptx_flags(newest(archs, false))
}

fn push_flag(out: &mut Vec<String>, flag: &str)
    ensures
        texts(final(out)@) == texts(old(out)@).push(flag@),
{
    let ghost before = out@;
    let s: String = flag.to_owned();
    out.push(s);
    assert(texts(out@) =~= texts(before).push(flag@));
}

fn push_gencode(out: &mut Vec<String>, a: u32, code: &str)
    ensures
        texts(final(out)@) == texts(old(out)@) + seq![
            "-gencode"@,
            "arch=compute_"@ + dec(a as nat) + code@ + dec(a as nat),
        ],
{
    let ghost before = texts(out@);
    let mut s: String = "arch=compute_".to_owned();
    push_dec(&mut s, a as u64);
    s.append(code);
    push_dec(&mut s, a as u64);
    push_flag(out, "-gencode");
    push_flag(out, s.as_str());
    assert(texts(out@) =~= before + seq![
        "-gencode"@,
        "arch=compute_"@ + dec(a as nat) + code@ + dec(a as nat),
    ]);
}

/// The code-generation flags.
pub fn gencode(archs: &Vec<u32>) -> (r: Vec<String>)
    ensures
        texts(r@) == gencode_flags(archs@),
{
    let mut out: Vec<String> = Vec::new();
    let mut i: usize = 0;
    proof {
        assert(archs@.take(0) =~= Seq::empty());
        assert(texts(out@) =~= Seq::empty());
    }
    while i < archs.len()
        invariant
            i <= archs@.len(),
            texts(out@) == sass_for(archs@.take(i as int)),
        decreases archs@.len() - i,
    {
        proof {
            assert(archs@.take(i + 1).drop_last() =~= archs@.take(i as int));
            assert(archs@.take(i + 1).last() == archs@[i as int]);
        }
        push_gencode(&mut out, archs[i], ",code=sm_");
        i = i + 1;
    }
    assert(archs@.take(i as int) =~= archs@);
    match newest_of(archs, true) {
        Some(a) => push_gencode(&mut out, a, ",code=compute_"),
        None => {},
    }
    assert(texts(out@) =~= sass_for(archs@) + ptx_flags(newest(archs@, true)));
    match newest_of(archs, false) {
        Some(a) => push_gencode(&mut out, a, ",code=compute_"),
        None => {},
    }
    assert(texts(out@) =~= gencode_flags(archs@));
    out
}

/// Directories below the prover's sources that hold bundled libraries.
pub const BUNDLED_DIRS: [&'static str; 5] = [
    "external/sppark/ff",
    "external/sppark",
    "external/sppark/util",
    "external/sppark/ec",
    "external/blst/src",
];

/// Directories of the prover's own headers.
pub const SOURCE_DIRS: [&'static str; 25] = [
    "utils",
    "goldilocks",
    "goldilocks/utils",
    "goldilocks/src",
    "binfile",
    "XKCP",
    "bctree",
    "config",
    "api",
    "bn128",
    "bn128/src",
    "bn128/src/ffiasm",
    "bn128/src/poseidon",
    "bn128/src/msm",
    "bn128/src/ntt",
    "bn128/src/poseidon2",
    "bn128/src/curve",
    "starkpil",
    "starkpil/expressions",
    "starkpil/transcript",
    "starkpil/merkleTree",
    "starkpil/fri",
    "rapidsnark",
    "rapidsnark/polynomial",
    "fflonk_setup",
];

/// Directories of the system.
pub const SYSTEM_DIRS: [&'static str; 3] = [
    "-I/usr/include",
    "-I/usr/local/include",
    "-I/usr/lib/x86_64-linux-gnu/openmpi/include",
];

/// What the sources are compiled with.
pub const DEFINES: [&'static str; 12] = [
    "-D__USE_CUDA__",
    "-DGL64_PARTIALLY_REDUCED",
    "-D__AVX2__",
    "-D__USE_ASSEMBLY__",
    "-D__ADX__",
    "-DFEATURE_BN254",
    "-DUSE_CUDA_GRAPH",
    "-DOMPI_SKIP_MPICXX",
    "-DMPICH_SKIP_MPICXX",
    "-D__USE_MPI_RMA__",
    "--diag-suppress",
    "114",
];

/// How the sources are compiled.
pub const BASE_FLAGS: [&'static str; 6] = [
    "-Xcompiler",
    "-fPIC",
    "-Xcompiler",
    "-mavx2",
    "-std=c++17",
    "-O3",
];

/// The last flags of a link, before its destination. The CUDA runtime is linked in, so that the
/// library loads whatever toolkit the host has.
pub const LINK_FLAGS: [&'static str; 5] = ["-cudart", "static", "-Xlinker", "--strip-all", "-o"];

/// The texts of a table.
pub open spec fn table(t: Seq<&'static str>) -> Seq<Seq<char>> {
    Seq::new(t.len(), |i: int| t[i]@)
}

/// The directories below `dir`, as flags.
pub open spec fn dirs_below(dir: Seq<char>, rels: Seq<&'static str>) -> Seq<Seq<char>> {
    Seq::new(rels.len(), |i: int| "-I"@ + joined(dir, rels[i]@))
}

/// The header search path.
pub open spec fn header_flags(stark_dir: Seq<char>, work_dir: Seq<char>) -> Seq<Seq<char>> {
    seq!["-I"@ + work_dir] + dirs_below(stark_dir, BUNDLED_DIRS@) + seq![
        "-I"@ + joined(stark_dir, "src"@),
    ] + dirs_below(joined(stark_dir, "src"@), SOURCE_DIRS@) + table(SYSTEM_DIRS@)
}

/// The compile flags.
pub open spec fn flags_for(
    archs: Seq<u32>,
    stark_dir: Seq<char>,
    work_dir: Seq<char>,
    tiled: bool,
) -> Seq<Seq<char>> {
    table(BASE_FLAGS@) + gencode_flags(archs) + table(DEFINES@) + (if tiled {
        seq!["-DFORCE_TILED_LAYOUT"@]
    } else {
        Seq::empty()
    }) + header_flags(stark_dir, work_dir)
}

fn push_table(out: &mut Vec<String>, t: &[&'static str])
    ensures
        texts(final(out)@) == texts(old(out)@) + table(t@),
{
    let ghost before = texts(out@);
    let mut i: usize = 0;
    assert(before + table(t@).take(0) =~= before);
    while i < t.len()
        invariant
            i <= t@.len(),
            texts(out@) == before + table(t@).take(i as int),
        decreases t@.len() - i,
    {
        push_flag(out, t[i]);
        assert(before + table(t@).take(i + 1) =~= (before + table(t@).take(i as int)).push(
            t@[i as int]@,
        ));
        i = i + 1;
    }
    assert(table(t@).take(i as int) =~= table(t@));
}

fn push_all(out: &mut Vec<String>, v: &Vec<String>)
    ensures
        texts(final(out)@) == texts(old(out)@) + texts(v@),
{
    let ghost before = texts(out@);
    let mut i: usize = 0;
    assert(before + texts(v@).take(0) =~= before);
    while i < v.len()
        invariant
            i <= v@.len(),
            texts(out@) == before + texts(v@).take(i as int),
        decreases v@.len() - i,
    {
        push_flag(out, v[i].as_str());
        assert(before + texts(v@).take(i + 1) =~= (before + texts(v@).take(i as int)).push(
            v@[i as int]@,
        ));
        i = i + 1;
    }
    assert(texts(v@).take(i as int) =~= texts(v@));
}

fn push_dir(out: &mut Vec<String>, dir: &str)
    ensures
        texts(final(out)@) == texts(old(out)@).push("-I"@ + dir@),
{
    let mut s: String = "-I".to_owned();
    s.append(dir);
    push_flag(out, s.as_str());
}

fn push_dirs(out: &mut Vec<String>, dir: &str, rels: &[&'static str])
    ensures
        texts(final(out)@) == texts(old(out)@) + dirs_below(dir@, rels@),
{
    let ghost before = texts(out@);
    let ghost all = dirs_below(dir@, rels@);
    let mut i: usize = 0;
    assert(before + all.take(0) =~= before);
    while i < rels.len()
        invariant
            i <= rels@.len(),
            all == dirs_below(dir@, rels@),
            texts(out@) == before + all.take(i as int),
        decreases rels@.len() - i,
    {
        let d: String = join(dir, rels[i]);
        push_dir(out, d.as_str());
        assert(before + all.take(i + 1) =~= (before + all.take(i as int)).push(all[i as int]));
        i = i + 1;
    }
    assert(all.take(i as int) =~= all);
}

/// Why there is no toolchain.
pub enum ToolchainError {
    /// The prover's sources are not where they should be.
    NoSource { stark_dir: String },
    /// The request names no architecture.
    NoArchs { archspec: String },
}

impl ToolchainError {
    /// What to tell the user.
    pub fn message(&self) -> (r: String)
        ensures
            r@ == match *self {
                ToolchainError::NoSource { stark_dir } => "pil2-stark source not found at "@
                    + stark_dir@ + " (pass --stark-src)"@,
                ToolchainError::NoArchs { archspec } => "no valid CUDA archs in spec '"@
                    + archspec@ + "'"@,
            },
    {
        match self {
            ToolchainError::NoSource { stark_dir } => {
                let mut out: String = "pil2-stark source not found at ".to_owned();
                out.append(stark_dir.as_str());
                out.append(" (pass --stark-src)");
                out
            },
            ToolchainError::NoArchs { archspec } => {
                let mut out: String = "no valid CUDA archs in spec '".to_owned();
                out.append(archspec.as_str());
                out.append("'");
                out
            },
        }
    }
}

/// What nvcc is called with.
pub struct Toolchain {
    pub arch_list: Vec<u32>,
    /// Code-generation flags, for compiling and linking.
    pub gencode: Vec<String>,
    /// Flags of a compilation.
    pub compile_flags: Vec<String>,
}

/// The decimal texts of numbers, with one space between them.
pub open spec fn spaced(v: Seq<u32>) -> Seq<char>
    decreases v.len(),
{
    if v.len() == 0 {
        Seq::empty()
    } else if v.len() == 1 {
        dec(v[0] as nat)
    } else {
        spaced(v.drop_last()) + " "@ + dec(v.last() as nat)
    }
}

impl Toolchain {
    /// The code-generation flags.
    pub open spec fn gencode_view(&self) -> Seq<Seq<char>> {
        texts(self.gencode@)
    }

    /// The flags of a compilation.
    pub open spec fn compile_view(&self) -> Seq<Seq<char>> {
        texts(self.compile_flags@)
    }

    /// The toolchain for given architectures.
    pub fn for_archs(arch_list: Vec<u32>, stark_dir: &str, work_dir: &str, tiled: bool) -> (r: Self)
        ensures
            r.arch_list == arch_list,
            r.gencode_view() == gencode_flags(arch_list@),
            r.compile_view() == flags_for(arch_list@, stark_dir@, work_dir@, tiled),
    {
        let codes: Vec<String> = gencode(&arch_list);
        let src: String = join(stark_dir, "src");
        let mut flags: Vec<String> = Vec::new();
        assert(texts(flags@) =~= Seq::empty());
        push_table(&mut flags, &BASE_FLAGS);
        push_all(&mut flags, &codes);
        push_table(&mut flags, &DEFINES);
        if tiled {
            push_flag(&mut flags, "-DFORCE_TILED_LAYOUT");
        }
        let ghost head = texts(flags@);
        proof {
            assert(head =~= table(BASE_FLAGS@) + gencode_flags(arch_list@) + table(DEFINES@) + (
            if tiled {
                seq!["-DFORCE_TILED_LAYOUT"@]
            } else {
                Seq::empty()
            }));
        }
        push_dir(&mut flags, work_dir);
        push_dirs(&mut flags, stark_dir, &BUNDLED_DIRS);
        push_dir(&mut flags, src.as_str());
        push_dirs(&mut flags, src.as_str(), &SOURCE_DIRS);
        push_table(&mut flags, &SYSTEM_DIRS);
        assert(texts(flags@) =~= head + header_flags(stark_dir@, work_dir@));
        Toolchain { arch_list, gencode: codes, compile_flags: flags }
    }

    /// The toolchain for a request. `stark_dir` is where the prover's sources should be, and
    /// `found` says whether they are there.
    pub fn new(
        stark_dir: &str,
        found: bool,
        archspec: &str,
        query: &Option<String>,
        work_dir: &str,
        tiled: bool,
    ) -> (r: Result<Self, ToolchainError>)
        ensures
            match r {
                Ok(t) => found && t.arch_list@.len() > 0 && is_resolved(
                    t.arch_list@,
                    lowercased(trimmed(archspec@)),
                    query_text(*query),
                ) && t.gencode_view() == gencode_flags(t.arch_list@) && t.compile_view()
                    == flags_for(t.arch_list@, stark_dir@, work_dir@, tiled),
                Err(ToolchainError::NoSource { stark_dir: d }) => !found && d@ == stark_dir@,
                Err(ToolchainError::NoArchs { archspec: a }) => found && a@ == archspec@
                    && is_resolved(
                    Seq::empty(),
                    lowercased(trimmed(archspec@)),
                    query_text(*query),
                ),
            },
    {
        if !found {
            return Err(ToolchainError::NoSource { stark_dir: stark_dir.to_owned() });
        }
        let arch_list: Vec<u32> = resolve_archs(archspec, query);
        if arch_list.len() == 0 {
            assert(arch_list@ =~= Seq::empty());
            return Err(ToolchainError::NoArchs { archspec: archspec.to_owned() });
        }
        Ok(Toolchain::for_archs(arch_list, stark_dir, work_dir, tiled))
    }

    /// The architectures, with one space between them.
    pub fn arch_summary(&self) -> (out: String)
        ensures
            out@ == spaced(self.arch_list@),
    {
        let ghost v = self.arch_list@;
        let mut out: String = String::new();
        let mut i: usize = 0;
        assert(v.take(0) =~= Seq::empty());
        while i < self.arch_list.len()
            invariant
                v == self.arch_list@,
                i <= v.len(),
                out@ == spaced(v.take(i as int)),
            decreases v.len() - i,
        {
            if i > 0 {
                out.append(" ");
            }
            push_dec(&mut out, self.arch_list[i] as u64);
            proof {
                assert(v.take(i + 1).drop_last() =~= v.take(i as int));
                assert(v.take(i + 1).last() == v[i as int]);
                if i == 0 {
                    assert(out@ =~= dec(v[0] as nat));
                }
            }
            i = i + 1;
        }
        assert(v.take(i as int) =~= v);
        out
    }

    /// The arguments of nvcc that compile one unit to an object.
    pub fn compile_args(&self, unit: &str, obj: &str, extra_dir: &Option<String>) -> (r: Vec<
        String,
    >)
        ensures
            texts(r@) == seq!["-c"@] + self.compile_view() + seq![unit@, "-o"@, obj@] + (
            match *extra_dir {
                Some(d) => seq!["-I"@ + d@],
                None => Seq::empty(),
            }),
    {
        let mut out: Vec<String> = Vec::new();
        assert(texts(out@) =~= Seq::empty());
        push_flag(&mut out, "-c");
        push_all(&mut out, &self.compile_flags);
        push_flag(&mut out, unit);
        push_flag(&mut out, "-o");
        push_flag(&mut out, obj);
        match extra_dir {
            Some(d) => push_dir(&mut out, d.as_str()),
            None => {},
        }
        assert(texts(out@) =~= seq!["-c"@] + self.compile_view() + seq![unit@, "-o"@, obj@] + (
        match *extra_dir {
            Some(d) => seq!["-I"@ + d@],
            None => Seq::empty(),
        }));
        out
    }

    /// The arguments of nvcc that link objects, or that compile and link units.
    fn shared_args(flags: &Vec<String>, inputs: &Vec<String>, dest: &str) -> (r: Vec<String>)
        ensures
            texts(r@) == seq!["-shared"@] + texts(flags@) + texts(inputs@) + table(LINK_FLAGS@)
                + seq![dest@],
    {
        let mut out: Vec<String> = Vec::new();
        assert(texts(out@) =~= Seq::empty());
        push_flag(&mut out, "-shared");
        push_all(&mut out, flags);
        push_all(&mut out, inputs);
        push_table(&mut out, &LINK_FLAGS);
        push_flag(&mut out, dest);
        assert(texts(out@) =~= seq!["-shared"@] + texts(flags@) + texts(inputs@) + table(
            LINK_FLAGS@,
        ) + seq![dest@]);
        out
    }

    /// The arguments of nvcc that link objects into a shared library.
    pub fn link_args(&self, objs: &Vec<String>, dest: &str) -> (r: Vec<String>)
        ensures
            texts(r@) == seq!["-shared"@] + self.gencode_view() + texts(objs@) + table(LINK_FLAGS@)
                + seq![dest@],
    {
        Toolchain::shared_args(&self.gencode, objs, dest)
    }

    /// The arguments of nvcc that compile units and link them into a shared library.
    pub fn compile_link_args(&self, units: &Vec<String>, dest: &str) -> (r: Vec<String>)
        ensures
            texts(r@) == seq!["-shared"@] + self.compile_view() + texts(units@) + table(LINK_FLAGS@)
                + seq![dest@],
    {
        Toolchain::shared_args(&self.compile_flags, units, dest)
    }
}

} // verus!

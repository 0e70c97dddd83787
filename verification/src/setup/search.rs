//! Where tools and libraries are looked for.
use vstd::prelude::*;
use vstd::string::StringExecFns;

use crate::exps::emit::texts;
use crate::paths::{join, joined};

verus! {

/// What a look at one candidate gave: whether it is there, and its canonical path.
pub struct Probe {
    pub found: bool,
    pub canonical: Option<String>,
}

/// The text of an optional string.
pub open spec fn text_of(s: Option<String>) -> Option<Seq<char>> {
    match s {
        Some(s) => Some(s@),
        None => None,
    }
}

/// A copy of an optional string.
pub fn copied(s: &Option<String>) -> (r: Option<String>)
    ensures
        text_of(r) == text_of(*s),
{
    match s {
        Some(s) => Some(s.as_str().to_owned()),
        None => None,
    }
}

/// The first candidate that is there and has a canonical path.
pub open spec fn first_resolved(ps: Seq<Probe>) -> Option<Seq<char>>
    decreases ps.len(),
{
    if ps.len() == 0 {
        None
    } else if ps[0].found && ps[0].canonical is Some {
        text_of(ps[0].canonical)
    } else {
        first_resolved(ps.skip(1))
    }
}

/// The canonical path of the first candidate that is there.
pub open spec fn first_found(ps: Seq<Probe>) -> Option<Seq<char>>
    decreases ps.len(),
{
    if ps.len() == 0 {
        None
    } else if ps[0].found {
        text_of(ps[0].canonical)
    } else {
        first_found(ps.skip(1))
    }
}

fn pick_resolved(ps: &Vec<Probe>) -> (r: Option<String>)
    ensures
        text_of(r) == first_resolved(ps@),
{
    let mut i: usize = 0;
    assert(ps@.skip(0) =~= ps@);
    while i < ps.len()
        invariant
            i <= ps@.len(),
            first_resolved(ps@.skip(i as int)) == first_resolved(ps@),
        decreases ps@.len() - i,
    {
        let p: &Probe = &ps[i];
        assert(ps@.skip(i as int)[0] == ps@[i as int]);
        if p.found && p.canonical.is_some() {
            return copied(&p.canonical);
        }
        assert(ps@.skip(i as int).skip(1) =~= ps@.skip(i + 1));
        i = i + 1;
    }
    None
}

fn pick_found(ps: &Vec<Probe>) -> (r: Option<String>)
    ensures
        text_of(r) == first_found(ps@),
{
    let mut i: usize = 0;
    assert(ps@.skip(0) =~= ps@);
    while i < ps.len()
        invariant
            i <= ps@.len(),
            first_found(ps@.skip(i as int)) == first_found(ps@),
        decreases ps@.len() - i,
    {
        let p: &Probe = &ps[i];
        assert(ps@.skip(i as int)[0] == ps@[i as int]);
        if p.found {
            return copied(&p.canonical);
        }
        assert(ps@.skip(i as int).skip(1) =~= ps@.skip(i + 1));
        i = i + 1;
    }
    None
}

/// The candidates for `rel`, in the order they are tried: below the project's root, below the
/// working directory, and below each directory above the executable.
pub open spec fn candidate_paths(root: Seq<char>, rel: Seq<char>, above: Seq<Seq<char>>) -> Seq<
    Seq<char>,
> {
    seq![joined(root, rel), rel] + Seq::new(above.len(), |i: int| joined(above[i], rel))
}

/// The candidates for `rel`, in the order they are tried.
pub fn candidates(root: &str, rel: &str, above: &Vec<String>) -> (r: Vec<String>)
    ensures
        texts(r@) == candidate_paths(root@, rel@, texts(above@)),
{
    let mut out: Vec<String> = Vec::new();
    let first: String = join(root, rel);
    let second: String = rel.to_owned();
    out.push(first);
    out.push(second);
    let ghost all = candidate_paths(root@, rel@, texts(above@));
    let mut i: usize = 0;
    assert(texts(out@) =~= all.take(2));
    while i < above.len()
        invariant
            i <= above@.len(),
            all == candidate_paths(root@, rel@, texts(above@)),
            texts(out@) == all.take(i + 2),
        decreases above@.len() - i,
    {
        let ghost before = out@;
        let next: String = join(above[i].as_str(), rel);
        out.push(next);
        proof {
            assert(all[i + 2] == next@);
            assert(all.take(i + 3) =~= all.take(i + 2).push(next@));
            assert(texts(out@) =~= texts(before).push(next@));
        }
        i = i + 1;
    }
    assert(all.take(i + 2) =~= all);
    out
}

/// The candidates below the working directory and the directories above the executable.
pub fn local_candidates(rel: &str, above: &Vec<String>) -> (r: Vec<String>)
    ensures
        texts(r@) == candidate_paths(Seq::empty(), rel@, texts(above@)).skip(1),
{
    let mut out: Vec<String> = Vec::new();
    let first: String = rel.to_owned();
    out.push(first);
    let ghost all = candidate_paths(Seq::empty(), rel@, texts(above@)).skip(1);
    let mut i: usize = 0;
    assert(texts(out@) =~= all.take(1));
    while i < above.len()
        invariant
            i <= above@.len(),
            all == candidate_paths(Seq::empty(), rel@, texts(above@)).skip(1),
            texts(out@) == all.take(i + 1),
        decreases above@.len() - i,
    {
        let ghost before = out@;
        let next: String = join(above[i].as_str(), rel);
        out.push(next);
        proof {
            assert(all[i + 1] == next@);
            assert(all.take(i + 2) =~= all.take(i + 1).push(next@));
            assert(texts(out@) =~= texts(before).push(next@));
        }
        i = i + 1;
    }
    assert(all.take(i + 1) =~= all);
    out
}

/// The path of a package's directory below `node_modules`.
pub open spec fn package_path(package: Seq<char>, sub_path: Seq<char>) -> Seq<char> {
    joined(joined("node_modules"@, package), sub_path)
}

/// The path of a package's directory below `node_modules`.
pub fn node_module(package: &str, sub_path: &str) -> (r: String)
    ensures
        r@ == package_path(package@, sub_path@),
{
    let base: String = join("node_modules", package);
    join(base.as_str(), sub_path)
}

/// A variable that is set to something.
pub open spec fn is_set(env: Option<String>) -> bool {
    match env {
        Some(v) => v@.len() > 0,
        None => false,
    }
}

fn set_value(env: &Option<String>) -> (r: Option<String>)
    ensures
        r is Some == is_set(*env),
        is_set(*env) ==> text_of(r) == text_of(*env),
{
    match env {
        Some(v) => if v.as_str().unicode_len() > 0 {
            Some(v.as_str().to_owned())
        } else {
            None
        },
        None => None,
    }
}

/// A path from the environment, or else the first candidate that resolves, or else the fallback
/// itself.
pub fn resolve_path_env(env: &Option<String>, probes: &Vec<Probe>, fallback: &str) -> (r: String)
    ensures
        r@ == if is_set(*env) {
            env->0@
        } else {
            match first_resolved(probes@) {
                Some(p) => p,
                None => fallback@,
            }
        },
{
    match set_value(env) {
        Some(v) => v,
        None => match pick_resolved(probes) {
            Some(p) => p,
            None => fallback.to_owned(),
        },
    }
}

/// A package's directory: from the environment, or else the first candidate that resolves.
pub fn find_node_module_subpath(env: &Option<String>, probes: &Vec<Probe>) -> (r: Option<String>)
    ensures
        text_of(r) == if is_set(*env) {
            text_of(*env)
        } else {
            first_resolved(probes@)
        },
{
    match set_value(env) {
        Some(v) => Some(v),
        None => pick_resolved(probes),
    }
}

/// A package's directory: where it was found, or else where installing put it, or else the
/// relative path, for messages.
pub fn ensure_node_module_subpath(
    found: &Option<String>,
    installed: &Option<String>,
    package: &str,
    sub_path: &str,
) -> (r: String)
    ensures
        r@ == match (*found, *installed) {
            (Some(p), _) => p@,
            (None, Some(p)) => p@,
            (None, None) => "node_modules/"@ + package@ + "/"@ + sub_path@,
        },
{
    match found {
        Some(p) => p.as_str().to_owned(),
        None => match installed {
            Some(p) => p.as_str().to_owned(),
            None => {
                let mut out: String = "node_modules/".to_owned();
                out.append(package);
                out.append("/");
                out.append(sub_path);
                out
            },
        },
    }
}

/// The PIL compiler: from the environment where that names a file, or else the first candidate
/// that resolves, or else the one on the search path.
pub fn resolve_pil2com_exec(
    env: &Option<String>,
    env_is_file: bool,
    probes: &Vec<Probe>,
    on_path: &Option<String>,
) -> (r: Option<String>)
    ensures
        text_of(r) == if *env is Some && env_is_file {
            text_of(*env)
        } else if first_resolved(probes@) is Some {
            first_resolved(probes@)
        } else {
            text_of(*on_path)
        },
{
    if env.is_some() && env_is_file {
        return copied(env);
    }
    match pick_resolved(probes) {
        Some(p) => Some(p),
        None => copied(on_path),
    }
}

/// The root of the proof exporter: from the environment where that names a directory, or else
/// the first candidate that is there.
pub fn resolve_snarkjs_root(env: &Option<String>, env_is_dir: bool, probes: &Vec<Probe>) -> (r:
    Option<String>)
    ensures
        text_of(r) == if *env is Some && env_is_dir {
            text_of(*env)
        } else {
            first_found(probes@)
        },
{
    if env.is_some() && env_is_dir {
        return copied(env);
    }
    pick_found(probes)
}

/// What to do about a tool that may be missing.
#[derive(Clone, Copy, PartialEq, Eq, Structural, Debug)]
pub enum Bootstrap {
    /// It is there.
    Use,
    /// Install the packages, then look again.
    Install,
    /// There is nothing to install it from.
    GiveUp,
}

/// What to do about a tool: it is used where it was found, and installed where the project
/// describes its packages.
pub fn ensure_step(found: bool, has_package_file: bool) -> (r: Bootstrap)
    ensures
        r == if found {
            Bootstrap::Use
        } else if has_package_file {
            Bootstrap::Install
        } else {
            Bootstrap::GiveUp
        },
{
    if found {
        Bootstrap::Use
    } else if has_package_file {
        Bootstrap::Install
    } else {
        Bootstrap::GiveUp
    }
}

/// The name of the circuit compiler.
pub open spec fn circom_name(mac: bool) -> Seq<char> {
    if mac {
        "circom_mac"@
    } else {
        "circom"@
    }
}

/// The name of the circuit compiler.
pub fn circom_binary(mac: bool) -> (r: &'static str)
    ensures
        r@ == circom_name(mac),
{
    if mac {
        "circom_mac"
    } else {
        "circom"
    }
}

/// The circuit compiler: the one that the environment names, or else the one in the helpers'
/// directory where it is there, by its canonical path where it has one, or else the one on the
/// search path.
pub fn resolve_circom_exec(
    env: &Option<String>,
    circom_helpers_dir: &str,
    mac: bool,
    is_file: bool,
    canonical: &Option<String>,
) -> (r: String)
    ensures
        *env matches Some(p) ==> r@ == p@,
        *env is None ==> r@ == if !is_file {
            circom_name(mac)
        } else {
            match *canonical {
                Some(p) => p@,
                None => joined(circom_helpers_dir@, circom_name(mac)),
            }
        },
{
    if let Some(p) = env {
        return p.as_str().to_owned();
    }
    let name: &'static str = circom_binary(mac);
    if !is_file {
        return name.to_owned();
    }
    match canonical {
        Some(p) => p.as_str().to_owned(),
        None => join(circom_helpers_dir, name),
    }
}

} // verus!

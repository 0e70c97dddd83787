//! What stages read from the documents of earlier ones: lists of keys, and the description of the
//! whole circuit.
use vstd::prelude::*;

use crate::circom::json::push_text;
use crate::exps::emit::texts;
use crate::setup::keys::{
    key_json, key_strings, key_texts, key_view, read_key_json, KeyError, KeyFile, KeyView,
};
use crate::setup::search::text_of;
use crate::setup::stages::aggregate_name;

verus! {

/// A member of a document: missing, or its JSON.
pub open spec fn member_view(m: Option<Option<String>>) -> Option<Option<Seq<char>>> {
    match m {
        Some(v) => Some(text_of(v)),
        None => None,
    }
}

/// The JSON of a member of the object that `serde_json::from_str` reads, where there is one;
/// nothing where the text is no JSON.
pub uninterp spec fn member_json(text: Seq<char>, name: Seq<char>) -> Option<Option<Seq<char>>>;

/// `serde_json::from_str` reads a JSON value, `get` of `serde_json::Value` picks a member of it and
/// `to_string` writes that as JSON again. All three depend on their arguments alone.
#[verifier::external_body]
fn read_member(text: &str, name: &str) -> (r: Option<Option<String>>)
    ensures
        member_view(r) == member_json(text@, name@),
{
    match serde_json::from_str::<serde_json::Value>(text) {
        Ok(v) => Some(v.get(name).map(|m| m.to_string())),
        Err(_) => None,
    }
}

/// The items of a list, each as JSON.
pub open spec fn items_view(v: Option<Vec<String>>) -> Option<Seq<Seq<char>>> {
    match v {
        Some(v) => Some(texts(v@)),
        None => None,
    }
}

/// The items of the list that `serde_json::from_str` reads, each as JSON; nothing where the text is
/// no list.
pub uninterp spec fn items_json(text: Seq<char>) -> Option<Seq<Seq<char>>>;

/// `serde_json::from_str` reads a JSON value, and `to_string` of `serde_json::Value` writes each
/// item of a list as JSON again. Both depend on their arguments alone.
#[verifier::external_body]
fn read_items(text: &str) -> (r: Option<Vec<String>>)
    ensures
        items_view(r) == items_json(text@),
{
    match serde_json::from_str::<serde_json::Value>(text) {
        Ok(serde_json::Value::Array(a)) => Some(a.iter().map(|v| v.to_string()).collect()),
        _ => None,
    }
}

/// A listed key as text: no limbs where it is no list.
pub open spec fn listed_key(k: Option<KeyView>) -> Seq<Seq<char>> {
    match k {
        Some(KeyView::List(v)) => key_texts(v),
        _ => Seq::empty(),
    }
}

/// A listed key as text.
pub fn key_of(k: &Option<KeyFile>) -> (r: Vec<String>)
    ensures
        texts(r@) == listed_key(key_view(*k)),
{
    match k {
        Some(KeyFile::List(v)) => key_strings(v),
        _ => {
            let none: Vec<String> = Vec::new();
            assert(texts(none@) =~= Seq::empty());
            none
        },
    }
}

/// The text that a value is, where it is one.
pub open spec fn whole_text(k: Option<KeyView>) -> Option<Seq<char>> {
    match k {
        Some(KeyView::Text(s)) => Some(s),
        _ => None,
    }
}

/// The text that a value is, where it is one.
pub fn text_in(k: &Option<KeyFile>) -> (r: Option<String>)
    ensures
        text_of(r) == whole_text(key_view(*k)),
{
    match k {
        Some(KeyFile::Text(s)) => Some(s.as_str().to_owned()),
        _ => None,
    }
}

/// The key under a member.
pub open spec fn member_key(m: Option<Seq<char>>) -> Seq<Seq<char>> {
    match m {
        Some(t) => listed_key(key_json(t)),
        None => Seq::empty(),
    }
}

/// The items under a member: none where it is missing or no list.
pub open spec fn member_items(m: Option<Seq<char>>) -> Seq<Seq<char>> {
    match m {
        Some(t) => match items_json(t) {
            Some(v) => v,
            None => Seq::empty(),
        },
        None => Seq::empty(),
    }
}

/// Texts of a list of keys.
pub open spec fn nested_texts(v: Seq<Vec<String>>) -> Seq<Seq<Seq<char>>> {
    Seq::new(v.len(), |i: int| texts(v[i]@))
}

/// The keys under a member.
pub open spec fn member_keys(m: Option<Seq<char>>) -> Seq<Seq<Seq<char>>> {
    member_items(m).map_values(|t: Seq<char>| listed_key(key_json(t)))
}

/// The keys that an airgroup's recursive2 leaves: its own, and those of its airs.
pub struct GroupKeys {
    pub aggregated: Vec<String>,
    pub airs: Vec<Vec<String>>,
}

fn read_member_items(m: &Option<String>) -> (r: Vec<String>)
    ensures
        texts(r@) == member_items(text_of(*m)),
{
    let none: Vec<String> = Vec::new();
    assert(texts(none@) =~= Seq::empty());
    match m {
        Some(t) => match read_items(t.as_str()) {
            Some(v) => v,
            None => none,
        },
        None => none,
    }
}

fn read_member_key(m: &Option<String>) -> (r: Vec<String>)
    ensures
        texts(r@) == member_key(text_of(*m)),
{
    match m {
        Some(t) => key_of(&read_key_json(t.as_str())),
        None => {
            let none: Vec<String> = Vec::new();
            assert(texts(none@) =~= Seq::empty());
            none
        },
    }
}

fn read_member_keys(m: &Option<String>) -> (r: Vec<Vec<String>>)
    ensures
        nested_texts(r@) == member_keys(text_of(*m)),
{
    let items: Vec<String> = read_member_items(m);
    let ghost all = member_keys(text_of(*m));
    let mut out: Vec<Vec<String>> = Vec::new();
    let mut i: usize = 0;
    assert(nested_texts(out@) =~= all.take(0));
    while i < items.len()
        invariant
            i <= items@.len(),
            texts(items@) == member_items(text_of(*m)),
            all == member_keys(text_of(*m)),
            nested_texts(out@) == all.take(i as int),
        decreases items@.len() - i,
    {
        let ghost before = out@;
        let key: Vec<String> = key_of(&read_key_json(items[i].as_str()));
        proof {
            assert(texts(items@)[i as int] == items@[i as int]@);
            assert(all[i as int] == texts(key@));
            assert(all.take(i + 1) =~= all.take(i as int).push(all[i as int]));
        }
        out.push(key);
        assert(nested_texts(out@) =~= nested_texts(before).push(texts(key@)));
        i = i + 1;
    }
    assert(all.take(i as int) =~= all);
    out
}

/// The keys that an airgroup's recursive2 wrote. A key that is missing or no list has no limbs.
pub fn parse_group_keys(text: &str) -> (r: Result<GroupKeys, KeyError>)
    ensures
        match (member_json(text@, "rootCRecursive2"@), member_json(text@, "rootCRecursives1"@)) {
            (Some(own), Some(airs)) => match r {
                Ok(k) => texts(k.aggregated@) == member_key(own) && nested_texts(k.airs@)
                    == member_keys(airs),
                Err(_) => false,
            },
            _ => r is Err && r->Err_0 is NotJson,
        },
{
    match (read_member(text, "rootCRecursive2"), read_member(text, "rootCRecursives1")) {
        (Some(own), Some(airs)) => Ok(
            GroupKeys { aggregated: read_member_key(&own), airs: read_member_keys(&airs) },
        ),
        _ => Err(KeyError::NotJson),
    }
}

/// The text under a member of a document: none where it is missing or no text, and where the
/// document is no JSON.
pub open spec fn member_text(m: Option<Option<Seq<char>>>) -> Option<Seq<char>> {
    match m {
        Some(Some(t)) => whole_text(key_json(t)),
        _ => None,
    }
}

fn read_member_text(text: &str, name: &str) -> (r: Option<String>)
    ensures
        text_of(r) == member_text(member_json(text@, name@)),
{
    match read_member(text, name) {
        Some(Some(t)) => text_in(&read_key_json(t.as_str())),
        _ => None,
    }
}

/// The name of the whole circuit in its description.
pub fn global_name(text: &str) -> (r: Option<String>)
    ensures
        text_of(r) == member_text(member_json(text@, "name"@)),
{
    read_member_text(text, "name")
}

/// The hash family in the description of the whole circuit.
pub fn global_hash(text: &str) -> (r: Option<String>)
    ensures
        text_of(r) == member_text(member_json(text@, "hash"@)),
{
    read_member_text(text, "hash")
}

/// The names of the airgroups in the description of the whole circuit.
pub open spec fn group_names(m: Option<Option<Seq<char>>>) -> Seq<Seq<char>> {
    match m {
        Some(v) => member_items(v).map_values(
            |t: Seq<char>|
                match whole_text(key_json(t)) {
                    Some(n) => n,
                    None => "unnamed"@,
                },
        ),
        None => Seq::empty(),
    }
}

/// The names of the airgroups in the description of the whole circuit.
pub fn airgroup_names(text: &str) -> (r: Vec<String>)
    ensures
        texts(r@) == group_names(member_json(text@, "air_groups"@)),
{
    let member: Option<Option<String>> = read_member(text, "air_groups");
    let ghost all = group_names(member_view(member));
    let mut out: Vec<String> = Vec::new();
    assert(texts(out@) =~= all.take(0));
    let items: Vec<String> = match &member {
        Some(m) => read_member_items(m),
        None => {
            assert(texts(out@) =~= all);
            return out;
        },
    };
    let mut i: usize = 0;
    while i < items.len()
        invariant
            i <= items@.len(),
            member is Some,
            texts(items@) == member_items(text_of(member->0)),
            all == group_names(member_view(member)),
            texts(out@) == all.take(i as int),
        decreases items@.len() - i,
    {
        let name: Option<String> = text_in(&read_key_json(items[i].as_str()));
        let written: String = aggregate_name(&name);
        proof {
            assert(texts(items@)[i as int] == items@[i as int]@);
            assert(all[i as int] == written@);
            assert(all.take(i + 1) =~= all.take(i as int).push(all[i as int]));
        }
        push_text(&mut out, written);
        i = i + 1;
    }
    assert(all.take(i as int) =~= all);
    out
}

} // verus!

//! The settings file: remembering that an air needs a compressor.
use vstd::prelude::*;

use crate::setup::search::text_of;

verus! {

/// `serde_json::Map`, opaque.
#[verifier::external_type_specification]
#[verifier::external_body]
#[verifier::reject_recursive_types(K)]
#[verifier::reject_recursive_types(V)]
pub struct ExJsonMap<K, V>(serde_json::Map<K, V>);

/// `serde_json::Value`, opaque.
#[verifier::external_type_specification]
#[verifier::external_body]
pub struct ExJsonValue(serde_json::Value);

/// A member of a JSON object: an object by its members, or the JSON of something else.
pub enum Member {
    Object(Map<Seq<char>, Member>),
    Other(Seq<char>),
}

/// What a JSON object holds: the member of each name.
pub uninterp spec fn members(m: serde_json::Map<String, serde_json::Value>) -> Map<
    Seq<char>,
    Member,
>;

/// What `serde_json::from_str` reads from the text of a settings file: nothing where it is no
/// JSON object.
pub uninterp spec fn settings_json(text: Seq<char>) -> Option<Map<Seq<char>, Member>>;

/// What `serde_json::to_string_pretty` makes of an object with these members.
pub uninterp spec fn pretty_json(m: Map<Seq<char>, Member>) -> Option<Seq<char>>;

/// No members.
pub open spec fn no_members() -> Map<Seq<char>, Member> {
    Map::empty()
}

/// `serde_json::from_str` reads a JSON object, which depends on the text alone.
#[verifier::external_body]
fn read_settings(text: &str) -> (r: Option<serde_json::Map<String, serde_json::Value>>)
    ensures
        match r {
            Some(m) => settings_json(text@) == Some(members(m)),
            None => settings_json(text@) is None,
        },
{
    serde_json::from_str(text).ok()
}

/// `serde_json::to_string_pretty` writes a JSON object, the members by ascending name: the text
/// depends on the members alone.
#[verifier::external_body]
fn write_pretty(m: serde_json::Map<String, serde_json::Value>) -> (r: Option<String>)
    ensures
        text_of(r) == pretty_json(members(m)),
{
    serde_json::to_string_pretty(&serde_json::Value::Object(m)).ok()
}

/// `serde_json::Map::new` makes an object without members.
#[verifier::external_body]
fn new_object() -> (m: serde_json::Map<String, serde_json::Value>)
    ensures
        members(m) == no_members(),
{
    serde_json::Map::new()
}

/// What stands under a name.
enum Found {
    Nothing,
    Object(serde_json::Map<String, serde_json::Value>),
    Other,
}

/// `serde_json::Map::get` gives the member of a name: nothing, an object, or something else.
#[verifier::external_body]
fn get_member(m: &serde_json::Map<String, serde_json::Value>, name: &str) -> (r: Found)
    ensures
        match r {
            Found::Nothing => !members(*m).dom().contains(name@),
            Found::Object(o) => members(*m).dom().contains(name@) && members(*m)[name@]
                == Member::Object(members(o)),
            Found::Other => members(*m).dom().contains(name@) && members(*m)[name@] is Other,
        },
{
    match m.get(name) {
        None => Found::Nothing,
        Some(serde_json::Value::Object(o)) => Found::Object(o.clone()),
        Some(_) => Found::Other,
    }
}

/// What is put under a name.
enum Given {
    Object(serde_json::Map<String, serde_json::Value>),
    Flag(bool),
}

/// The member that is put under a name.
spec fn given_member(g: Given) -> Member {
    match g {
        Given::Object(o) => Member::Object(members(o)),
        Given::Flag(b) => Member::Other(flag_json(b)),
    }
}

/// `serde_json::Map::insert` sets the member of a name to an object or a flag, and leaves the
/// others. A flag is written `true` or `false`.
#[verifier::external_body]
fn insert_member(m: &mut serde_json::Map<String, serde_json::Value>, name: &str, value: Given)
    ensures
        members(*final(m)) == members(*old(m)).insert(name@, given_member(value)),
{
    let value = match value {
        Given::Object(o) => serde_json::Value::Object(o),
        Given::Flag(b) => serde_json::Value::Bool(b),
    };
    m.insert(name.to_owned(), value);
}

/// The JSON of a flag.
pub open spec fn flag_json(value: bool) -> Seq<char> {
    if value {
        "true"@
    } else {
        "false"@
    }
}

/// The member that says that an air needs a compressor.
pub open spec fn flag_name() -> Seq<char> {
    "hasCompressor"@
}

/// The members with one that says so.
pub open spec fn flagged(m: Map<Seq<char>, Member>) -> Map<Seq<char>, Member> {
    m.insert(flag_name(), Member::Other(flag_json(true)))
}

/// The settings with an entry that says that the air needs a compressor: its own where there is
/// one, a new one where there is none. An entry that is no object stays as it is.
pub open spec fn with_flag(m: Map<Seq<char>, Member>, air: Seq<char>) -> Map<Seq<char>, Member> {
    if !m.dom().contains(air) {
        m.insert(air, Member::Object(flagged(no_members())))
    } else {
        match m[air] {
            Member::Object(o) => m.insert(air, Member::Object(flagged(o))),
            Member::Other(_) => m,
        }
    }
}

/// Say in the settings that an air needs a compressor.
pub fn enable_compressor(m: &mut serde_json::Map<String, serde_json::Value>, air_name: &str)
    ensures
        members(*final(m)) == with_flag(members(*old(m)), air_name@),
{
    match get_member(m, air_name) {
        Found::Nothing => {
            let mut o: serde_json::Map<String, serde_json::Value> = new_object();
            insert_member(&mut o, "hasCompressor", Given::Flag(true));
            insert_member(m, air_name, Given::Object(o));
        },
        Found::Object(found) => {
            let mut o: serde_json::Map<String, serde_json::Value> = found;
            insert_member(&mut o, "hasCompressor", Given::Flag(true));
            insert_member(m, air_name, Given::Object(o));
        },
        Found::Other => {},
    }
}

/// The text of a settings file that says that an air needs a compressor; nothing where the text
/// is no settings file.
pub fn with_compressor(text: &str, air_name: &str) -> (r: Option<String>)
    ensures
        match settings_json(text@) {
            Some(m) => text_of(r) == pretty_json(with_flag(m, air_name@)),
            None => r is None,
        },
{
    match read_settings(text) {
        None => None,
        Some(read) => {
            let mut m: serde_json::Map<String, serde_json::Value> = read;
            enable_compressor(&mut m, air_name);
            write_pretty(m)
        },
    }
}

/// Saying that an air needs a compressor leaves every other entry as it is, and adds at most its
/// own.
pub proof fn law_flag_changes_one_entry(
    m: Map<Seq<char>, Member>,
    air: Seq<char>,
    name: Seq<char>,
)
    requires
        name != air,
    ensures
        with_flag(m, air).dom().contains(name) == m.dom().contains(name),
        m.dom().contains(name) ==> with_flag(m, air)[name] == m[name],
        with_flag(m, air).dom().contains(air),
{
}

/// Saying it twice is saying it once.
pub proof fn law_flag_twice_is_once(m: Map<Seq<char>, Member>, air: Seq<char>)
    ensures
        with_flag(with_flag(m, air), air) == with_flag(m, air),
{
    let once = with_flag(m, air);
    if once[air] is Object {
        let o = once[air]->Object_0;
        assert(flagged(o) =~= o);
        assert(with_flag(once, air) =~= once);
    }
}

} // verus!

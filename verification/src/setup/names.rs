//! An ordered index from names to positions, kept by `indexmap`.
use indexmap::IndexMap;
use vstd::prelude::*;

verus! {

/// `indexmap::IndexMap`, opaque.
#[verifier::external_type_specification]
#[verifier::external_body]
#[verifier::reject_recursive_types(K)]
#[verifier::reject_recursive_types(V)]
#[verifier::reject_recursive_types(S)]
pub struct ExIndexMap<K, V, S>(IndexMap<K, V, S>);

/// What an index holds: the position of each name.
pub uninterp spec fn index_entries(m: IndexMap<String, usize>) -> Map<Seq<char>, usize>;

/// No names.
pub open spec fn no_names() -> Map<Seq<char>, usize> {
    Map::empty()
}

/// `IndexMap::new` makes an index without names.
#[verifier::external_body]
pub(crate) fn index_new() -> (m: IndexMap<String, usize>)
    ensures
        index_entries(m) == no_names(),
{
    IndexMap::new()
}

/// `IndexMap::get` returns the position of the name, where the index holds one.
#[verifier::external_body]
pub(crate) fn index_get(m: &IndexMap<String, usize>, name: &str) -> (r: Option<usize>)
    ensures
        match r {
            Some(i) => index_entries(*m).dom().contains(name@) && index_entries(*m)[name@] == i,
            None => !index_entries(*m).dom().contains(name@),
        },
{
    m.get(name).copied()
}

/// `IndexMap::insert` sets the position of the name, replacing an earlier one; other names keep
/// theirs.
#[verifier::external_body]
pub(crate) fn index_insert(m: &mut IndexMap<String, usize>, name: String, i: usize)
    ensures
        index_entries(*final(m)) == index_entries(*old(m)).insert(name@, i),
{
    m.insert(name, i);
}

} // verus!

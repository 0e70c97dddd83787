//! Rows that hold only what changes at run time, with the rest in a table of instructions.
use vstd::prelude::*;
use vstd::string::StringExecFns;

use crate::circom::json::push_text;
use crate::exps::emit::texts;
use crate::rows::trait_row::{
    accessor_views, accessors, field_accessors, forward_text, forwarded, impl_source, impl_text, Accessor,
    AccessorView, TraceField,
};
use crate::setup::search::text_of;
use crate::text::{concat2, str_eq};

verus! {

/// The bits of the index in front of a compact row.
pub const INDEX_BITS: u64 = 32;

/// A column, and whether it comes from the table.
pub struct IndexedField {
    pub field: TraceField,
    pub instr: bool,
}

/// Whether the tag of a column says that it comes from the table; no other tag is known.
pub fn is_instr_tag(tag: &str) -> (r: bool)
    ensures
        r == (tag@ == "instr"@),
{
    str_eq(tag, "instr")
}

/// The names of the types and the trait around a row.
pub struct RowNames {
    pub ops_trait: String,
    pub packed: String,
    pub indexed: String,
    pub table: String,
}

/// The names of the types and the trait around a row.
pub fn row_names(name: &str) -> (r: RowNames)
    ensures
        r.ops_trait@ == name@ + "Ops"@,
        r.packed@ == name@ + "Packed"@,
        r.indexed@ == name@ + "Indexed"@,
        r.table@ == name@ + "InstrTable"@,
{
    RowNames {
        ops_trait: concat2(name, "Ops"),
        packed: concat2(name, "Packed"),
        indexed: concat2(name, "Indexed"),
        table: concat2(name, "InstrTable"),
    }
}

/// The positions of the columns on one side, in order.
pub open spec fn positions_of(fields: Seq<IndexedField>, instr: bool) -> Seq<int>
    decreases fields.len(),
{
    if fields.len() == 0 {
        Seq::empty()
    } else {
        let before = positions_of(fields.drop_last(), instr);
        if fields.last().instr == instr {
            before.push(fields.len() - 1)
        } else {
            before
        }
    }
}

/// The positions as integers.
pub open spec fn ints(v: Seq<usize>) -> Seq<int> {
    v.map_values(|i: usize| i as int)
}

/// The positions of the columns of the compact row, and of those of the table. The index stands
/// in front of the row.
pub fn split_columns(fields: &Vec<IndexedField>) -> (r: (Vec<usize>, Vec<usize>))
    ensures
        ints(r.0@) == positions_of(fields@, false),
        ints(r.1@) == positions_of(fields@, true),
{
    let mut row: Vec<usize> = Vec::new();
    let mut table: Vec<usize> = Vec::new();
    let mut i: usize = 0;
    proof {
        assert(fields@.take(0) =~= Seq::empty());
        assert(ints(row@) =~= Seq::empty());
        assert(ints(table@) =~= Seq::empty());
    }
    while i < fields.len()
        invariant
            i <= fields@.len(),
            ints(row@) == positions_of(fields@.take(i as int), false),
            ints(table@) == positions_of(fields@.take(i as int), true),
        decreases fields@.len() - i,
    {
        let ghost before_row = row@;
        let ghost before_table = table@;
        proof {
            assert(fields@.take(i + 1).drop_last() =~= fields@.take(i as int));
            assert(fields@.take(i + 1).last() == fields@[i as int]);
        }
        if fields[i].instr {
            table.push(i);
            assert(ints(table@) =~= ints(before_table).push(i as int));
        } else {
            row.push(i);
            assert(ints(row@) =~= ints(before_row).push(i as int));
        }
        i = i + 1;
    }
    assert(fields@.take(i as int) =~= fields@);
    (row, table)
}

/// Every column is in the compact row or in the table, and not in both.
pub proof fn law_columns_are_split(fields: Seq<IndexedField>, i: int)
    requires
        0 <= i < fields.len(),
    ensures
        positions_of(fields, fields[i].instr).contains(i),
        !positions_of(fields, !fields[i].instr).contains(i),
    decreases fields.len(),
{
    lemma_positions_below(fields.drop_last(), !fields[i].instr);
    lemma_positions_below(fields.drop_last(), fields[i].instr);
    let here = positions_of(fields, fields[i].instr);
    let there = positions_of(fields, !fields[i].instr);
    if i == fields.len() - 1 {
        assert(here.last() == i);
        assert(there == positions_of(fields.drop_last(), !fields[i].instr));
    } else {
        let rest = fields.drop_last();
        law_columns_are_split(rest, i);
        let a = positions_of(rest, fields[i].instr);
        let k = a.index_of(i);
        assert(a[k] == i);
        assert(here[k] == i);
        if there.contains(i) {
            let j = there.index_of(i);
            assert(there[j] == i);
            let b = positions_of(rest, !fields[i].instr);
            assert(j < b.len());
            assert(b[j] == i);
            assert(b.contains(i));
        }
    }
}

proof fn lemma_positions_below(fields: Seq<IndexedField>, instr: bool)
    ensures
        forall|k: int|
            0 <= k < positions_of(fields, instr).len() ==> 0 <= #[trigger] positions_of(
                fields,
                instr,
            )[k] < fields.len(),
    decreases fields.len(),
{
    if fields.len() > 0 {
        let rest = fields.drop_last();
        lemma_positions_below(rest, instr);
        let p = positions_of(fields, instr);
        let b = positions_of(rest, instr);
        assert forall|k: int| 0 <= k < p.len() implies 0 <= #[trigger] p[k] < fields.len() by {
            if k < b.len() {
                assert(p[k] == b[k]);
            }
        }
    }
}

/// The product of lengths.
pub open spec fn product(dims: Seq<usize>) -> nat
    decreases dims.len(),
{
    if dims.len() == 0 {
        1
    } else {
        product(dims.drop_last()) * (dims.last() as nat)
    }
}

/// How many columns a field takes.
pub open spec fn columns_of(f: TraceField) -> nat {
    match f.dims {
        Some(d) => product(d@),
        None => 1,
    }
}

/// Where each column comes from: 1 for the table, 0 for the row.
pub open spec fn sources(fields: Seq<IndexedField>) -> Seq<u8>
    decreases fields.len(),
{
    if fields.len() == 0 {
        Seq::empty()
    } else {
        sources(fields.drop_last()) + Seq::new(
            columns_of(fields.last().field),
            |i: int|
                if fields.last().instr {
                    1u8
                } else {
                    0u8
                },
        )
    }
}

/// The number of columns of each field fits, whatever order its lengths are multiplied in.
pub open spec fn columns_fit(fields: Seq<IndexedField>) -> bool {
    forall|i: int, k: int|
        0 <= i < fields.len() && fields[i].field.dims is Some && 0 <= k
            <= fields[i].field.dims->0@.len() ==> product(
            #[trigger] fields[i].field.dims->0@.take(k),
        ) <= usize::MAX
}

fn column_count(f: &TraceField) -> (r: usize)
    requires
        f.dims is Some ==> forall|k: int|
            0 <= k <= f.dims->0@.len() ==> product(#[trigger] f.dims->0@.take(k)) <= usize::MAX,
    ensures
        r == columns_of(*f),
{
    match &f.dims {
        None => 1,
        Some(d) => {
            let mut n: usize = 1;
            let mut k: usize = 0;
            assert(d@.take(0) =~= Seq::empty());
            while k < d.len()
                invariant
                    k <= d@.len(),
                    n == product(d@.take(k as int)),
                    forall|j: int|
                        0 <= j <= d@.len() ==> product(#[trigger] d@.take(j)) <= usize::MAX,
                decreases d@.len() - k,
            {
                proof {
                    assert(d@.take(k + 1).drop_last() =~= d@.take(k as int));
                    assert(d@.take(k + 1).last() == d@[k as int]);
                    assert(product(d@.take(k + 1)) <= usize::MAX);
                }
                n = n * d[k];
                k = k + 1;
            }
            assert(d@.take(k as int) =~= d@);
            n
        },
    }
}

/// Where each column comes from.
pub fn col_source(fields: &Vec<IndexedField>) -> (r: Vec<u8>)
    requires
        columns_fit(fields@),
    ensures
        r@ == sources(fields@),
{
    let mut out: Vec<u8> = Vec::new();
    let mut i: usize = 0;
    assert(fields@.take(0) =~= Seq::empty());
    while i < fields.len()
        invariant
            i <= fields@.len(),
            columns_fit(fields@),
            out@ == sources(fields@.take(i as int)),
        decreases fields@.len() - i,
    {
        proof {
            if fields@[i as int].field.dims is Some {
                assert forall|k: int| 0 <= k <= fields@[i as int].field.dims->0@.len() implies product(
                    #[trigger] fields@[i as int].field.dims->0@.take(k),
                ) <= usize::MAX by {}
            }
        }
        let n: usize = column_count(&fields[i].field);
        let source: u8 = if fields[i].instr {
            1
        } else {
            0
        };
        let ghost before = out@;
        let mut k: usize = 0;
        assert(before + Seq::new(0, |j: int| source) =~= before);
        while k < n
            invariant
                k <= n,
                out@ == before + Seq::new(k as nat, |j: int| source),
            decreases n - k,
        {
            out.push(source);
            assert(before + Seq::new((k + 1) as nat, |j: int| source) =~= (before + Seq::new(
                k as nat,
                |j: int| source,
            )).push(source));
            k = k + 1;
        }
        proof {
            assert(fields@.take(i + 1).drop_last() =~= fields@.take(i as int));
            assert(fields@.take(i + 1).last() == fields@[i as int]);
            assert(out@ =~= sources(fields@.take(i + 1)));
        }
        i = i + 1;
    }
    assert(fields@.take(i as int) =~= fields@);
    out
}

/// An accessor of a column that the row does not hold: setting does nothing, getting gives the
/// default.
pub open spec fn absent(a: AccessorView, name: Seq<char>) -> Seq<char> {
    if a.gives {
        "#[inline(always)] "@ + a.signature + " { <"@ + a.value + ">::default() }"@
    } else {
        "#[inline(always)] fn set_"@ + name + "(&mut self, _value: "@ + a.value + ") {}"@
    }
}

/// The accessors of a column of the compact row.
pub open spec fn column_methods(f: IndexedField, indexed: Seq<char>) -> Seq<Seq<char>> {
    if f.instr {
        field_accessors(f.field).map_values(|a: AccessorView| absent(a, f.field.name@))
    } else {
        field_accessors(f.field).map_values(|a: AccessorView| forwarded(a, indexed))
    }
}

/// The accessors of the compact row.
pub open spec fn indexed_methods(fields: Seq<IndexedField>, indexed: Seq<char>) -> Seq<Seq<char>>
    decreases fields.len(),
{
    if fields.len() == 0 {
        Seq::empty()
    } else {
        indexed_methods(fields.drop_last(), indexed) + column_methods(fields.last(), indexed)
    }
}

/// A column that comes from the table is no array of plain values.
pub open spec fn tags_ok(fields: Seq<IndexedField>) -> bool {
    forall|i: int|
        0 <= i < fields.len() ==> !((#[trigger] fields[i]).instr && fields[i].field.dims is Some
            && !fields[i].field.generic)
}

/// The first array of plain values that is tagged, where there is one.
pub fn tagged_array(fields: &Vec<IndexedField>) -> (r: Option<usize>)
    ensures
        match r {
            Some(i) => i < fields@.len() && fields@[i as int].instr
                && fields@[i as int].field.dims is Some && !fields@[i as int].field.generic
                && tags_ok(fields@.take(i as int)),
            None => tags_ok(fields@),
        },
{
    let mut i: usize = 0;
    while i < fields.len()
        invariant
            i <= fields@.len(),
            tags_ok(fields@.take(i as int)),
        decreases fields@.len() - i,
    {
        let f: &IndexedField = &fields[i];
        if f.instr && f.field.dims.is_some() && !f.field.generic {
            return Some(i);
        }
        assert(tags_ok(fields@.take(i + 1))) by {
            assert forall|k: int| 0 <= k < i + 1 implies !((#[trigger] fields@.take(i + 1)[k]).instr
                && fields@.take(i + 1)[k].field.dims is Some && !fields@.take(
                i + 1,
            )[k].field.generic) by {
                if k < i {
                    assert(fields@.take(i as int)[k] == fields@[k]);
                }
            }
        }
        i = i + 1;
    }
    assert(fields@.take(i as int) =~= fields@);
    None
}

fn absent_text(a: &Accessor, name: &str) -> (r: String)
    ensures
        r@ == absent(a@, name@),
{
    if a.gives {
        let mut s: String = "#[inline(always)] ".to_owned();
        s.append(a.signature.as_str());
        s.append(" { <");
        s.append(a.value.as_str());
        s.append(">::default() }");
        s
    } else {
        let mut s: String = "#[inline(always)] fn set_".to_owned();
        s.append(name);
        s.append("(&mut self, _value: ");
        s.append(a.value.as_str());
        s.append(") {}");
        s
    }
}

fn column_method_texts(f: &IndexedField, indexed: &str) -> (r: Vec<String>)
    ensures
        texts(r@) == column_methods(*f, indexed@),
{
    let v: Vec<Accessor> = accessors(&f.field);
    let ghost all = column_methods(*f, indexed@);
    let mut out: Vec<String> = Vec::new();
    let mut k: usize = 0;
    proof {
        assert(texts(out@) =~= all.take(0));
        assert(accessor_views(v@).len() == v@.len());
    }
    while k < v.len()
        invariant
            k <= v@.len(),
            accessor_views(v@) == field_accessors(f.field),
            all == column_methods(*f, indexed@),
            all.len() == v@.len(),
            texts(out@) == all.take(k as int),
        decreases v@.len() - k,
    {
        let s: String = if f.instr {
            absent_text(&v[k], f.field.name.as_str())
        } else {
            forward_text(&v[k], indexed)
        };
        proof {
            assert(accessor_views(v@)[k as int] == v@[k as int]@);
            assert(all[k as int] == s@);
            assert(all.take(k + 1) =~= all.take(k as int).push(s@));
        }
        push_text(&mut out, s);
        k = k + 1;
    }
    assert(all.take(k as int) =~= all);
    out
}

/// The implementation of a row's trait for its compact form. Arrays of plain values cannot come
/// from the table.
pub fn indexed_ops_impl(
    trait_name: &str,
    indexed_name: &str,
    generic: &Option<String>,
    fields: &Vec<IndexedField>,
) -> (r: String)
    requires
        tags_ok(fields@),
    ensures
        r@ == impl_text(
            trait_name@,
            indexed_name@,
            text_of(*generic),
            indexed_methods(fields@, indexed_name@),
        ),
{
    let mut out: Vec<String> = Vec::new();
    let mut i: usize = 0;
    proof {
        assert(fields@.take(0) =~= Seq::empty());
        assert(texts(out@) =~= Seq::empty());
    }
    while i < fields.len()
        invariant
            i <= fields@.len(),
            texts(out@) == indexed_methods(fields@.take(i as int), indexed_name@),
        decreases fields@.len() - i,
    {
        let v: Vec<String> = column_method_texts(&fields[i], indexed_name);
        let ghost before = texts(out@);
        let ghost all = texts(v@);
        let mut k: usize = 0;
        assert(before + all.take(0) =~= before);
        while k < v.len()
            invariant
                k <= v@.len(),
                all == texts(v@),
                texts(out@) == before + all.take(k as int),
            decreases v@.len() - k,
        {
            let s: String = v[k].as_str().to_owned();
            assert(before + all.take(k + 1) =~= (before + all.take(k as int)).push(s@));
            push_text(&mut out, s);
            k = k + 1;
        }
        proof {
            assert(all.take(k as int) =~= all);
            assert(fields@.take(i + 1).drop_last() =~= fields@.take(i as int));
            assert(fields@.take(i + 1).last() == fields@[i as int]);
        }
        i = i + 1;
    }
    assert(fields@.take(i as int) =~= fields@);
    impl_source(trait_name, indexed_name, generic, &out)
}

} // verus!

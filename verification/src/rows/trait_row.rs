//! The accessors of a row: a trait with a setter and a getter for each column, and its
//! implementations for the row's types.
use vstd::prelude::*;
use vstd::string::StringExecFns;

use crate::circom::json::{join_texts, push_text, separated};
use crate::exps::emit::texts;
use crate::text::{concat2, dec, push_dec};

verus! {

/// A column of a row.
pub struct TraceField {
    pub name: String,
    /// It holds field elements.
    pub generic: bool,
    /// The lengths of its dimensions, outermost first, where it is an array.
    pub dims: Option<Vec<usize>>,
    /// The bits of a value.
    pub bits: usize,
}

/// The type that holds a value of that many bits.
pub open spec fn word_type(bits: nat) -> Seq<char> {
    if bits == 1 {
        "bool"@
    } else if 2 <= bits <= 8 {
        "u8"@
    } else if 9 <= bits <= 16 {
        "u16"@
    } else if 17 <= bits <= 32 {
        "u32"@
    } else if 33 <= bits <= 64 {
        "u64"@
    } else {
        "u128"@
    }
}

/// The type that holds a value of that many bits.
pub fn rust_type_for_bits(bits: usize) -> (r: &'static str)
    ensures
        r@ == word_type(bits as nat),
{
    if bits == 1 {
        "bool"
    } else if 2 <= bits && bits <= 8 {
        "u8"
    } else if 9 <= bits && bits <= 16 {
        "u16"
    } else if 17 <= bits && bits <= 32 {
        "u32"
    } else if 33 <= bits && bits <= 64 {
        "u64"
    } else {
        "u128"
    }
}

/// The type of a whole array: the first dimension is the outermost.
pub open spec fn nested_type(elem: Seq<char>, dims: Seq<usize>) -> Seq<char>
    decreases dims.len(),
{
    if dims.len() == 0 {
        elem
    } else {
        "["@ + nested_type(elem, dims.skip(1)) + "; "@ + dec(dims[0] as nat) + "]"@
    }
}

/// The type of a whole array.
pub fn nested_type_text(elem: &str, dims: &Vec<usize>) -> (r: String)
    ensures
        r@ == nested_type(elem@, dims@),
{
    let mut out: String = elem.to_owned();
    let mut i: usize = dims.len();
    assert(dims@.skip(dims@.len() as int) =~= Seq::empty());
    while i > 0
        invariant
            i <= dims@.len(),
            out@ == nested_type(elem@, dims@.skip(i as int)),
        decreases i,
    {
        let ghost before = out@;
        let mut next: String = "[".to_owned();
        next.append(out.as_str());
        next.append("; ");
        push_dec(&mut next, dims[i - 1] as u64);
        next.append("]");
        proof {
            let rest = dims@.skip(i - 1);
            assert(rest[0] == dims@[i - 1]);
            assert(rest.skip(1) =~= dims@.skip(i as int));
        }
        out = next;
        i = i - 1;
    }
    assert(dims@.skip(0) =~= dims@);
    out
}

/// The names of an array's indices.
pub open spec fn index_names(n: nat) -> Seq<Seq<char>> {
    Seq::new(n, |i: int| "i"@ + dec(i as nat))
}

/// The indices as parameters.
pub open spec fn index_params(n: nat) -> Seq<Seq<char>> {
    Seq::new(n, |i: int| "i"@ + dec(i as nat) + ": usize"@)
}

fn index_name_texts(n: usize) -> (r: Vec<String>)
    ensures
        texts(r@) == index_names(n as nat),
{
    let mut out: Vec<String> = Vec::new();
    let mut i: usize = 0;
    assert(texts(out@) =~= index_names(0));
    while i < n
        invariant
            i <= n,
            texts(out@) == index_names(i as nat),
        decreases n - i,
    {
        let mut s: String = "i".to_owned();
        push_dec(&mut s, i as u64);
        assert(index_names((i + 1) as nat) =~= index_names(i as nat).push(s@));
        push_text(&mut out, s);
        i = i + 1;
    }
    out
}

fn index_param_texts(n: usize) -> (r: Vec<String>)
    ensures
        texts(r@) == index_params(n as nat),
{
    let mut out: Vec<String> = Vec::new();
    let mut i: usize = 0;
    assert(texts(out@) =~= index_params(0));
    while i < n
        invariant
            i <= n,
            texts(out@) == index_params(i as nat),
        decreases n - i,
    {
        let mut s: String = "i".to_owned();
        push_dec(&mut s, i as u64);
        s.append(": usize");
        assert(index_params((i + 1) as nat) =~= index_params(i as nat).push(s@));
        push_text(&mut out, s);
        i = i + 1;
    }
    out
}

/// An accessor: its signature, and how it is called on a type's own methods.
pub struct AccessorView {
    pub signature: Seq<char>,
    /// The name with its arguments, behind the type.
    pub call: Seq<char>,
    /// Whether it gives a value.
    pub gives: bool,
    /// The type of that value.
    pub value: Seq<char>,
}

/// An accessor.
pub struct Accessor {
    pub signature: String,
    pub call: String,
    pub gives: bool,
    pub value: String,
}

impl View for Accessor {
    type V = AccessorView;

    open spec fn view(&self) -> AccessorView {
        AccessorView {
            signature: self.signature@,
            call: self.call@,
            gives: self.gives,
            value: self.value@,
        }
    }
}

/// The accessors by their texts.
pub open spec fn accessor_views(v: Seq<Accessor>) -> Seq<AccessorView> {
    Seq::new(v.len(), |i: int| v[i]@)
}

/// The type of one value of a column.
pub open spec fn value_type(f: TraceField) -> Seq<char> {
    if f.generic {
        "F"@
    } else {
        word_type(f.bits as nat)
    }
}

/// The setter of a single value.
pub open spec fn scalar_setter(name: Seq<char>, ty: Seq<char>) -> AccessorView {
    AccessorView {
        signature: "fn set_"@ + name + "(&mut self, value: "@ + ty + ")"@,
        call: "set_"@ + name + "(self, value)"@,
        gives: false,
        value: ty,
    }
}

/// The getter of a single value.
pub open spec fn scalar_getter(name: Seq<char>, ty: Seq<char>) -> AccessorView {
    AccessorView {
        signature: "fn get_"@ + name + "(&self) -> "@ + ty,
        call: "get_"@ + name + "(self)"@,
        gives: true,
        value: ty,
    }
}

/// The setter of one element of an array.
pub open spec fn element_setter(name: Seq<char>, ty: Seq<char>, n: nat) -> AccessorView {
    AccessorView {
        signature: "fn set_"@ + name + "(&mut self, "@ + separated(
            index_params(n).push("value: "@ + ty),
            ", "@,
        ) + ")"@,
        call: "set_"@ + name + "(self, "@ + separated(index_names(n).push("value"@), ", "@)
            + ")"@,
        gives: false,
        value: ty,
    }
}

/// The getter of one element of an array.
pub open spec fn element_getter(name: Seq<char>, ty: Seq<char>, n: nat) -> AccessorView {
    AccessorView {
        signature: "fn get_"@ + name + "(&self, "@ + separated(index_params(n), ", "@) + ") -> "@
            + ty,
        call: "get_"@ + name + "(self, "@ + separated(index_names(n), ", "@) + ")"@,
        gives: true,
        value: ty,
    }
}

/// The setter of a whole array.
pub open spec fn array_setter(name: Seq<char>, whole: Seq<char>) -> AccessorView {
    AccessorView {
        signature: "fn set_all_"@ + name + "(&mut self, values: &"@ + whole + ")"@,
        call: "set_all_"@ + name + "(self, values)"@,
        gives: false,
        value: whole,
    }
}

/// The getter of a whole array.
pub open spec fn array_getter(name: Seq<char>, whole: Seq<char>) -> AccessorView {
    AccessorView {
        signature: "fn get_all_"@ + name + "(&self) -> "@ + whole,
        call: "get_all_"@ + name + "(self)"@,
        gives: true,
        value: whole,
    }
}

/// The accessors of a column: a setter and a getter of single values; for an array, by element
/// and as a whole. An array of field elements has none.
pub open spec fn field_accessors(f: TraceField) -> Seq<AccessorView> {
    let ty = value_type(f);
    match f.dims {
        None => seq![scalar_setter(f.name@, ty), scalar_getter(f.name@, ty)],
        Some(dims) => if f.generic {
            Seq::empty()
        } else {
            let whole = nested_type(ty, dims@);
            seq![
                element_setter(f.name@, ty, dims@.len()),
                element_getter(f.name@, ty, dims@.len()),
                array_setter(f.name@, whole),
                array_getter(f.name@, whole),
            ]
        },
    }
}

fn cat3(a: &str, b: &str, c: &str) -> (r: String)
    ensures
        r@ == a@ + b@ + c@,
{
    let mut s: String = a.to_owned();
    s.append(b);
    s.append(c);
    s
}

fn cat4(a: &str, b: &str, c: &str, d: &str) -> (r: String)
    ensures
        r@ == a@ + b@ + c@ + d@,
{
    let mut s: String = a.to_owned();
    s.append(b);
    s.append(c);
    s.append(d);
    s
}

fn cat5(a: &str, b: &str, c: &str, d: &str, e: &str) -> (r: String)
    ensures
        r@ == a@ + b@ + c@ + d@ + e@,
{
    let mut s: String = a.to_owned();
    s.append(b);
    s.append(c);
    s.append(d);
    s.append(e);
    s
}

fn push_accessor(out: &mut Vec<Accessor>, a: Accessor)
    ensures
        accessor_views(final(out)@) == accessor_views(old(out)@).push(a@),
{
    let ghost before = out@;
    out.push(a);
    assert(accessor_views(out@) =~= accessor_views(before).push(a@));
}

fn push_array_accessors(out: &mut Vec<Accessor>, name: &str, ty: &str, dims: &Vec<usize>)
    ensures
        accessor_views(final(out)@) == accessor_views(old(out)@) + seq![
            element_setter(name@, ty@, dims@.len()),
            element_getter(name@, ty@, dims@.len()),
            array_setter(name@, nested_type(ty@, dims@)),
            array_getter(name@, nested_type(ty@, dims@)),
        ],
{
    let ghost before = accessor_views(out@);
    let n: usize = dims.len();
    let getter_params: String = join_texts(&index_param_texts(n), ", ");
    let getter_names: String = join_texts(&index_name_texts(n), ", ");
    let mut params: Vec<String> = index_param_texts(n);
    let value: String = concat2("value: ", ty);
    push_text(&mut params, value);
    let setter_params: String = join_texts(&params, ", ");
    let mut names: Vec<String> = index_name_texts(n);
    push_text(&mut names, "value".to_owned());
    let setter_names: String = join_texts(&names, ", ");
    let whole: String = nested_type_text(ty, dims);
    push_accessor(
        out,
        Accessor {
            signature: cat5("fn set_", name, "(&mut self, ", setter_params.as_str(), ")"),
            call: cat5("set_", name, "(self, ", setter_names.as_str(), ")"),
            gives: false,
            value: ty.to_owned(),
        },
    );
    let mut getter: String = cat5("fn get_", name, "(&self, ", getter_params.as_str(), ") -> ");
    getter.append(ty);
    push_accessor(
        out,
        Accessor {
            signature: getter,
            call: cat5("get_", name, "(self, ", getter_names.as_str(), ")"),
            gives: true,
            value: ty.to_owned(),
        },
    );
    push_accessor(
        out,
        Accessor {
            signature: cat5("fn set_all_", name, "(&mut self, values: &", whole.as_str(), ")"),
            call: cat3("set_all_", name, "(self, values)"),
            gives: false,
            value: whole.as_str().to_owned(),
        },
    );
    push_accessor(
        out,
        Accessor {
            signature: cat4("fn get_all_", name, "(&self) -> ", whole.as_str()),
            call: cat3("get_all_", name, "(self)"),
            gives: true,
            value: whole.as_str().to_owned(),
        },
    );
    assert(accessor_views(out@) =~= before + seq![
        element_setter(name@, ty@, dims@.len()),
        element_getter(name@, ty@, dims@.len()),
        array_setter(name@, nested_type(ty@, dims@)),
        array_getter(name@, nested_type(ty@, dims@)),
    ]);
}

/// The accessors of a column.
pub fn accessors(f: &TraceField) -> (r: Vec<Accessor>)
    ensures
        accessor_views(r@) == field_accessors(*f),
{
    let ty: &'static str = if f.generic {
        "F"
    } else {
        rust_type_for_bits(f.bits)
    };
    let name: &str = f.name.as_str();
    let mut out: Vec<Accessor> = Vec::new();
    assert(accessor_views(out@) =~= Seq::empty());
    match &f.dims {
        None => {
            push_accessor(
                &mut out,
                Accessor {
                    signature: cat5("fn set_", name, "(&mut self, value: ", ty, ")"),
                    call: cat3("set_", name, "(self, value)"),
                    gives: false,
                    value: ty.to_owned(),
                },
            );
            push_accessor(
                &mut out,
                Accessor {
                    signature: cat4("fn get_", name, "(&self) -> ", ty),
                    call: cat3("get_", name, "(self)"),
                    gives: true,
                    value: ty.to_owned(),
                },
            );
        },
        Some(dims) => {
            if !f.generic {
                push_array_accessors(&mut out, name, ty, dims);
            }
        },
    }
    assert(accessor_views(out@) =~= field_accessors(*f));
    out
}

/// The accessors of a row's columns, in order.
pub open spec fn row_accessors(fields: Seq<TraceField>) -> Seq<AccessorView>
    decreases fields.len(),
{
    if fields.len() == 0 {
        Seq::empty()
    } else {
        row_accessors(fields.drop_last()) + field_accessors(fields.last())
    }
}

/// The signature of an accessor in a trait.
pub open spec fn declared(a: AccessorView) -> Seq<char> {
    a.signature + ";"@
}

/// An accessor that forwards to a type's own method.
pub open spec fn forwarded(a: AccessorView, row_type: Seq<char>) -> Seq<char> {
    "#[inline(always)] "@ + a.signature + " { "@ + row_type + "::"@ + a.call + (if a.gives {
        " }"@
    } else {
        "; }"@
    })
}

/// The methods of a row's trait.
pub fn trait_method_signatures(fields: &Vec<TraceField>) -> (r: Vec<String>)
    ensures
        texts(r@) == row_accessors(fields@).map_values(|a: AccessorView| declared(a)),
{
    let mut out: Vec<String> = Vec::new();
    let mut i: usize = 0;
    proof {
        assert(fields@.take(0) =~= Seq::empty());
        assert(texts(out@) =~= row_accessors(fields@.take(0)).map_values(
            |a: AccessorView| declared(a),
        ));
    }
    while i < fields.len()
        invariant
            i <= fields@.len(),
            texts(out@) == row_accessors(fields@.take(i as int)).map_values(
                |a: AccessorView| declared(a),
            ),
        decreases fields@.len() - i,
    {
        let v: Vec<Accessor> = accessors(&fields[i]);
        let ghost before = texts(out@);
        let ghost all = field_accessors(fields@[i as int]).map_values(
            |a: AccessorView| declared(a),
        );
        let mut k: usize = 0;
        assert(before + all.take(0) =~= before);
        while k < v.len()
            invariant
                k <= v@.len(),
                i < fields@.len(),
                accessor_views(v@) == field_accessors(fields@[i as int]),
                all == field_accessors(fields@[i as int]).map_values(
                    |a: AccessorView| declared(a),
                ),
                texts(out@) == before + all.take(k as int),
            decreases v@.len() - k,
        {
            let s: String = concat2(v[k].signature.as_str(), ";");
            proof {
                assert(accessor_views(v@)[k as int] == v@[k as int]@);
                assert(all[k as int] == s@);
                assert(before + all.take(k + 1) =~= (before + all.take(k as int)).push(s@));
            }
            push_text(&mut out, s);
            k = k + 1;
        }
        proof {
            assert(accessor_views(v@).len() == v@.len());
            assert(all.take(k as int) =~= all);
            assert(fields@.take(i + 1).drop_last() =~= fields@.take(i as int));
            assert(fields@.take(i + 1).last() == fields@[i as int]);
            assert(row_accessors(fields@.take(i + 1)).map_values(|a: AccessorView| declared(a))
                =~= row_accessors(fields@.take(i as int)).map_values(
                |a: AccessorView| declared(a),
            ) + all);
        }
        i = i + 1;
    }
    assert(fields@.take(i as int) =~= fields@);
    out
}

/// An accessor that forwards to a type's own method.
pub fn forward_text(a: &Accessor, row_type: &str) -> (r: String)
    ensures
        r@ == forwarded(a@, row_type@),
{
    let mut s: String = "#[inline(always)] ".to_owned();
    s.append(a.signature.as_str());
    s.append(" { ");
    s.append(row_type);
    s.append("::");
    s.append(a.call.as_str());
    s.append(
        if a.gives {
            " }"
        } else {
            "; }"
        },
    );
    s
}

/// The methods that forward to a type's own.
pub fn forwarding_methods(row_type: &str, fields: &Vec<TraceField>) -> (r: Vec<String>)
    ensures
        texts(r@) == row_accessors(fields@).map_values(
            |a: AccessorView| forwarded(a, row_type@),
        ),
{
    let mut out: Vec<String> = Vec::new();
    let mut i: usize = 0;
    proof {
        assert(fields@.take(0) =~= Seq::empty());
        assert(texts(out@) =~= row_accessors(fields@.take(0)).map_values(
            |a: AccessorView| forwarded(a, row_type@),
        ));
    }
    while i < fields.len()
        invariant
            i <= fields@.len(),
            texts(out@) == row_accessors(fields@.take(i as int)).map_values(
                |a: AccessorView| forwarded(a, row_type@),
            ),
        decreases fields@.len() - i,
    {
        let v: Vec<Accessor> = accessors(&fields[i]);
        let ghost before = texts(out@);
        let ghost all = field_accessors(fields@[i as int]).map_values(
            |a: AccessorView| forwarded(a, row_type@),
        );
        let mut k: usize = 0;
        assert(before + all.take(0) =~= before);
        while k < v.len()
            invariant
                k <= v@.len(),
                i < fields@.len(),
                accessor_views(v@) == field_accessors(fields@[i as int]),
                all == field_accessors(fields@[i as int]).map_values(
                    |a: AccessorView| forwarded(a, row_type@),
                ),
                texts(out@) == before + all.take(k as int),
            decreases v@.len() - k,
        {
            let s: String = forward_text(&v[k], row_type);
            proof {
                assert(accessor_views(v@)[k as int] == v@[k as int]@);
                assert(all[k as int] == s@);
                assert(before + all.take(k + 1) =~= (before + all.take(k as int)).push(s@));
            }
            push_text(&mut out, s);
            k = k + 1;
        }
        proof {
            assert(accessor_views(v@).len() == v@.len());
            assert(all.take(k as int) =~= all);
            assert(fields@.take(i + 1).drop_last() =~= fields@.take(i as int));
            assert(fields@.take(i + 1).last() == fields@[i as int]);
            assert(row_accessors(fields@.take(i + 1)).map_values(
                |a: AccessorView| forwarded(a, row_type@),
            ) =~= row_accessors(fields@.take(i as int)).map_values(
                |a: AccessorView| forwarded(a, row_type@),
            ) + all);
        }
        i = i + 1;
    }
    assert(fields@.take(i as int) =~= fields@);
    out
}

/// The bounds of a row's parameter.
pub const ROW_BOUNDS: &'static str = ": PrimeField64 + Copy + Default + Send + 'static>";

/// What a row's trait builds on.
pub const ROW_SUPERTRAITS: &'static str =
    ": proofman_common::trace::TraceRow + Default + Copy + Send + Sync + std::fmt::Debug + 'static { ";

/// The parameters of a row, where it has one.
pub open spec fn params_of(generic: Option<Seq<char>>) -> Seq<char> {
    match generic {
        Some(g) => "<"@ + g + ">"@,
        None => ""@,
    }
}

/// The parameters of a row with their bounds.
pub open spec fn bounded_params_of(generic: Option<Seq<char>>) -> Seq<char> {
    match generic {
        Some(g) => "<"@ + g + ROW_BOUNDS@,
        None => ""@,
    }
}

/// The parameters of a row, without and with their bounds.
pub fn generic_tokens(generic: &Option<String>) -> (r: (String, String))
    ensures
        r.0@ == params_of(crate::setup::search::text_of(*generic)),
        r.1@ == bounded_params_of(crate::setup::search::text_of(*generic)),
{
    match generic {
        Some(g) => (cat3("<", g.as_str(), ">"), cat3("<", g.as_str(), ROW_BOUNDS)),
        None => ("".to_owned(), "".to_owned()),
    }
}

/// An implementation of a row's trait.
pub open spec fn impl_text(
    trait_name: Seq<char>,
    row_type: Seq<char>,
    generic: Option<Seq<char>>,
    methods: Seq<Seq<char>>,
) -> Seq<char> {
    "impl "@ + bounded_params_of(generic) + " "@ + trait_name + " "@ + params_of(generic)
        + " for "@ + row_type + " "@ + params_of(generic) + " { "@ + separated(methods, " "@)
        + " }"@
}

/// An implementation of a row's trait.
pub fn impl_source(
    trait_name: &str,
    row_type: &str,
    generic: &Option<String>,
    methods: &Vec<String>,
) -> (r: String)
    ensures
        r@ == impl_text(
            trait_name@,
            row_type@,
            crate::setup::search::text_of(*generic),
            texts(methods@),
        ),
{
    let g: (String, String) = generic_tokens(generic);
    let body: String = join_texts(methods, " ");
    let mut s: String = "impl ".to_owned();
    s.append(g.1.as_str());
    s.append(" ");
    s.append(trait_name);
    s.append(" ");
    s.append(g.0.as_str());
    s.append(" for ");
    s.append(row_type);
    s.append(" ");
    s.append(g.0.as_str());
    s.append(" { ");
    s.append(body.as_str());
    s.append(" }");
    s
}

/// The trait of a row, and its implementations for the plain and the packed type.
pub open spec fn trait_text(
    trait_name: Seq<char>,
    unpacked: Seq<char>,
    packed: Seq<char>,
    generic: Option<Seq<char>>,
    fields: Seq<TraceField>,
) -> Seq<char> {
    "pub trait "@ + trait_name + " "@ + bounded_params_of(generic) + ROW_SUPERTRAITS@ + separated(
        row_accessors(fields).map_values(|a: AccessorView| declared(a)),
        " "@,
    ) + " }\n"@ + impl_text(
        trait_name,
        unpacked,
        generic,
        row_accessors(fields).map_values(|a: AccessorView| forwarded(a, unpacked)),
    ) + "\n"@ + impl_text(
        trait_name,
        packed,
        generic,
        row_accessors(fields).map_values(|a: AccessorView| forwarded(a, packed)),
    )
}

/// The trait of a row, and its implementations for the plain and the packed type.
pub fn trait_impl(
    trait_name: &str,
    unpacked_name: &str,
    packed_name: &str,
    generic: &Option<String>,
    fields: &Vec<TraceField>,
) -> (r: String)
    ensures
        r@ == trait_text(
            trait_name@,
            unpacked_name@,
            packed_name@,
            crate::setup::search::text_of(*generic),
            fields@,
        ),
{
    let g: (String, String) = generic_tokens(generic);
    let methods: String = join_texts(&trait_method_signatures(fields), " ");
    let unpacked: String = impl_source(
        trait_name,
        unpacked_name,
        generic,
        &forwarding_methods(unpacked_name, fields),
    );
    let packed: String = impl_source(
        trait_name,
        packed_name,
        generic,
        &forwarding_methods(packed_name, fields),
    );
    let mut s: String = "pub trait ".to_owned();
    s.append(trait_name);
    s.append(" ");
    s.append(g.1.as_str());
    s.append(ROW_SUPERTRAITS);
    s.append(methods.as_str());
    s.append(" }\n");
    s.append(unpacked.as_str());
    s.append("\n");
    s.append(packed.as_str());
    s
}

/// The implementations of a row's trait have a method for each one that it declares, with the
/// same signature.
pub proof fn law_methods_match(fields: Seq<TraceField>, row_type: Seq<char>, i: int)
    requires
        0 <= i < row_accessors(fields).len(),
    ensures
        ({
            let a = row_accessors(fields)[i];
            let d = row_accessors(fields).map_values(|a: AccessorView| declared(a));
            let f = row_accessors(fields).map_values(|a: AccessorView| forwarded(a, row_type));
            &&& d.len() == f.len()
            &&& d[i] == a.signature + ";"@
            &&& f[i] == "#[inline(always)] "@ + a.signature + " { "@ + row_type + "::"@ + a.call
                + (if a.gives {
                " }"@
            } else {
                "; }"@
            })
        }),
{
}

} // verus!

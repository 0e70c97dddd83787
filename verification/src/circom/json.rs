//! Values as JSON text.
use vstd::prelude::*;
use vstd::string::StringExecFns;

use crate::exps::emit::{idec, push_signed, texts};
use crate::text::{chars_of, dec, digit_char, push_dec};

verus! {

/// A character inside a JSON string.
pub open spec fn escaped(c: char) -> Seq<char> {
    if c == '"' {
        seq!['\\', '"']
    } else if c == '\\' {
        seq!['\\', '\\']
    } else if (c as u32) < 0x20 {
        seq![
            '\\',
            'u',
            '0',
            '0',
            digit_char((c as u32 / 16) as nat),
            digit_char((c as u32 % 16) as nat),
        ]
    } else {
        seq![c]
    }
}

/// Characters inside a JSON string.
pub open spec fn escaped_all(s: Seq<char>) -> Seq<char>
    decreases s.len(),
{
    if s.len() == 0 {
        Seq::empty()
    } else {
        escaped_all(s.drop_last()) + escaped(s.last())
    }
}

/// A JSON string.
pub open spec fn quoted(s: Seq<char>) -> Seq<char> {
    seq!['"'] + escaped_all(s) + seq!['"']
}

fn hex_digit(d: u32) -> (c: char)
    requires
        d < 16,
    ensures
        c == digit_char(d as nat),
{
    if d < 10 {
        (48 + d) as u8 as char
    } else {
        (87 + d) as u8 as char
    }
}

fn push_escaped(out: &mut String, c: char)
    ensures
        final(out)@ == old(out)@ + escaped(c),
{
    let ghost before = out@;
    if c == '"' {
        out.push('\\');
        out.push('"');
    } else if c == '\\' {
        out.push('\\');
        out.push('\\');
    } else if (c as u32) < 0x20 {
        let n: u32 = c as u32;
        out.push('\\');
        out.push('u');
        out.push('0');
        out.push('0');
        out.push(hex_digit(n / 16));
        out.push(hex_digit(n % 16));
    } else {
        out.push(c);
    }
    assert(out@ =~= before + escaped(c));
}

/// Append a JSON string.
pub fn push_quoted(out: &mut String, s: &str)
    ensures
        final(out)@ == old(out)@ + quoted(s@),
{
    let ghost before = out@;
    let cs: Vec<char> = chars_of(s);
    out.push('"');
    let mut i: usize = 0;
    assert(s@.take(0) =~= Seq::empty());
    assert(out@ =~= before + (seq!['"'] + escaped_all(s@.take(0))));
    while i < cs.len()
        invariant
            i <= cs@.len(),
            cs@ == s@,
            out@ == before + (seq!['"'] + escaped_all(s@.take(i as int))),
        decreases cs@.len() - i,
    {
        push_escaped(out, cs[i]);
        proof {
            assert(s@.take(i + 1).drop_last() =~= s@.take(i as int));
            assert(s@.take(i + 1).last() == s@[i as int]);
            assert(out@ =~= before + (seq!['"'] + escaped_all(s@.take(i + 1))));
        }
        i = i + 1;
    }
    assert(s@.take(i as int) =~= s@);
    out.push('"');
    assert(out@ =~= before + quoted(s@));
}

/// Texts with a separator between them.
pub open spec fn separated(v: Seq<Seq<char>>, sep: Seq<char>) -> Seq<char>
    decreases v.len(),
{
    if v.len() == 0 {
        Seq::empty()
    } else if v.len() == 1 {
        v[0]
    } else {
        separated(v.drop_last(), sep) + sep + v.last()
    }
}

/// Join texts with a separator between them.
pub fn join_texts(v: &Vec<String>, sep: &str) -> (r: String)
    ensures
        r@ == separated(texts(v@), sep@),
{
    let ghost t = texts(v@);
    let mut out: String = String::new();
    let mut i: usize = 0;
    assert(t.take(0) =~= Seq::empty());
    while i < v.len()
        invariant
            i <= v@.len(),
            t == texts(v@),
            out@ == separated(t.take(i as int), sep@),
        decreases v@.len() - i,
    {
        if i > 0 {
            out.append(sep);
        }
        out.append(v[i].as_str());
        proof {
            assert(t.take(i + 1).drop_last() =~= t.take(i as int));
            assert(t.take(i + 1).last() == v@[i as int]@);
            if i == 0 {
                assert(out@ =~= t[0]);
            }
        }
        i = i + 1;
    }
    assert(t.take(i as int) =~= t);
    out
}

/// A JSON list.
pub open spec fn json_list(items: Seq<Seq<char>>) -> Seq<char> {
    "["@ + separated(items, ","@) + "]"@
}

/// A JSON list of JSON values.
pub fn list_text(items: &Vec<String>) -> (r: String)
    ensures
        r@ == json_list(texts(items@)),
{
    let mut out: String = "[".to_owned();
    let body: String = join_texts(items, ",");
    out.append(body.as_str());
    out.append("]");
    out
}

/// The JSON of a truth value.
pub open spec fn json_flag(b: bool) -> Seq<char> {
    if b {
        "true"@
    } else {
        "false"@
    }
}

/// A list of strings.
pub open spec fn json_texts(v: Seq<Seq<char>>) -> Seq<char> {
    json_list(v.map_values(|s: Seq<char>| quoted(s)))
}

/// A list of numbers.
pub open spec fn json_numbers(v: Seq<u64>) -> Seq<char> {
    json_list(v.map_values(|n: u64| dec(n as nat)))
}

/// Append a text to a list.
pub fn push_text(out: &mut Vec<String>, s: String)
    ensures
        texts(final(out)@) == texts(old(out)@).push(s@),
{
    let ghost before = out@;
    out.push(s);
    assert(texts(out@) =~= texts(before).push(s@));
}

/// The JSON of a list of strings.
pub fn texts_json(v: &Vec<String>) -> (r: String)
    ensures
        r@ == json_texts(texts(v@)),
{
    let ghost all = texts(v@).map_values(|s: Seq<char>| quoted(s));
    let mut out: Vec<String> = Vec::new();
    let mut i: usize = 0;
    assert(texts(out@) =~= all.take(0));
    while i < v.len()
        invariant
            i <= v@.len(),
            all == texts(v@).map_values(|s: Seq<char>| quoted(s)),
            texts(out@) == all.take(i as int),
        decreases v@.len() - i,
    {
        let mut s: String = String::new();
        push_quoted(&mut s, v[i].as_str());
        proof {
            assert(s@ =~= quoted(v@[i as int]@));
            assert(all.take(i + 1) =~= all.take(i as int).push(s@));
        }
        push_text(&mut out, s);
        i = i + 1;
    }
    assert(all.take(i as int) =~= all);
    list_text(&out)
}

/// The JSON of a list of numbers.
pub fn numbers_json(v: &Vec<u64>) -> (r: String)
    ensures
        r@ == json_numbers(v@),
{
    let ghost all = v@.map_values(|n: u64| dec(n as nat));
    let mut out: Vec<String> = Vec::new();
    let mut i: usize = 0;
    assert(texts(out@) =~= all.take(0));
    while i < v.len()
        invariant
            i <= v@.len(),
            all == v@.map_values(|n: u64| dec(n as nat)),
            texts(out@) == all.take(i as int),
        decreases v@.len() - i,
    {
        let mut s: String = String::new();
        push_dec(&mut s, v[i]);
        proof {
            assert(s@ =~= dec(v@[i as int] as nat));
            assert(all.take(i + 1) =~= all.take(i as int).push(s@));
        }
        push_text(&mut out, s);
        i = i + 1;
    }
    assert(all.take(i as int) =~= all);
    list_text(&out)
}

/// A field of a JSON object.
pub open spec fn json_field(name: Seq<char>, value: Seq<char>) -> Seq<char> {
    quoted(name) + ":"@ + value
}

/// The JSON of an object.
pub open spec fn json_object(fields: Seq<(Seq<char>, Seq<char>)>) -> Seq<char> {
    "{"@ + separated(
        fields.map_values(|f: (Seq<char>, Seq<char>)| json_field(f.0, f.1)),
        ","@,
    ) + "}"@
}

/// A JSON object under construction: its fields, each with the JSON of its value.
pub struct JsonObject {
    pub names: Vec<String>,
    pub values: Vec<String>,
}

impl View for JsonObject {
    type V = Seq<(Seq<char>, Seq<char>)>;

    open spec fn view(&self) -> Seq<(Seq<char>, Seq<char>)> {
        Seq::new(self.names@.len(), |i: int| (self.names@[i]@, self.values@[i]@))
    }
}

impl JsonObject {
    /// Every field has a value.
    pub open spec fn wf(&self) -> bool {
        self.names@.len() == self.values@.len()
    }

    /// No fields.
    pub fn new() -> (r: Self)
        ensures
            r.wf(),
            r@ == Seq::<(Seq<char>, Seq<char>)>::empty(),
    {
        let r = JsonObject { names: Vec::new(), values: Vec::new() };
        assert(r@ =~= Seq::<(Seq<char>, Seq<char>)>::empty());
        r
    }

    /// Add a field whose value is given as JSON.
    pub fn add_json(&mut self, name: &str, value: String)
        requires
            old(self).wf(),
        ensures
            final(self).wf(),
            final(self)@ == old(self)@.push((name@, value@)),
    {
        let ghost before = *self;
        let n: String = name.to_owned();
        self.names.push(n);
        self.values.push(value);
        assert(self@ =~= before@.push((name@, value@)));
    }

    /// Add a number.
    pub fn add_number(&mut self, name: &str, value: u64)
        requires
            old(self).wf(),
        ensures
            final(self).wf(),
            final(self)@ == old(self)@.push((name@, dec(value as nat))),
    {
        let mut s: String = String::new();
        push_dec(&mut s, value);
        assert(s@ =~= dec(value as nat));
        self.add_json(name, s);
    }

    /// Add a signed number.
    pub fn add_signed(&mut self, name: &str, value: i64)
        requires
            old(self).wf(),
        ensures
            final(self).wf(),
            final(self)@ == old(self)@.push((name@, idec(value as int))),
    {
        let mut s: String = String::new();
        push_signed(&mut s, value);
        assert(s@ =~= idec(value as int));
        self.add_json(name, s);
    }

    /// Add a truth value.
    pub fn add_flag(&mut self, name: &str, value: bool)
        requires
            old(self).wf(),
        ensures
            final(self).wf(),
            final(self)@ == old(self)@.push((name@, json_flag(value))),
    {
        let s: String = if value {
            "true".to_owned()
        } else {
            "false".to_owned()
        };
        self.add_json(name, s);
    }

    /// Add a string.
    pub fn add_text(&mut self, name: &str, value: &str)
        requires
            old(self).wf(),
        ensures
            final(self).wf(),
            final(self)@ == old(self)@.push((name@, quoted(value@))),
    {
        let mut s: String = String::new();
        push_quoted(&mut s, value);
        assert(s@ =~= quoted(value@));
        self.add_json(name, s);
    }

    /// Add a list of strings.
    pub fn add_texts(&mut self, name: &str, value: &Vec<String>)
        requires
            old(self).wf(),
        ensures
            final(self).wf(),
            final(self)@ == old(self)@.push((name@, json_texts(texts(value@)))),
    {
        let s: String = texts_json(value);
        self.add_json(name, s);
    }

    /// Add a list of numbers.
    pub fn add_numbers(&mut self, name: &str, value: &Vec<u64>)
        requires
            old(self).wf(),
        ensures
            final(self).wf(),
            final(self)@ == old(self)@.push((name@, json_numbers(value@))),
    {
        let s: String = numbers_json(value);
        self.add_json(name, s);
    }

    /// Add a list of values given as JSON.
    pub fn add_list(&mut self, name: &str, items: &Vec<String>)
        requires
            old(self).wf(),
        ensures
            final(self).wf(),
            final(self)@ == old(self)@.push((name@, json_list(texts(items@)))),
    {
        let s: String = list_text(items);
        self.add_json(name, s);
    }

    /// The JSON of the object.
    pub fn to_json(&self) -> (r: String)
        requires
            self.wf(),
        ensures
            r@ == json_object(self@),
    {
        let ghost all = self@.map_values(|f: (Seq<char>, Seq<char>)| json_field(f.0, f.1));
        let mut fields: Vec<String> = Vec::new();
        let mut i: usize = 0;
        assert(texts(fields@) =~= all.take(0));
        while i < self.names.len()
            invariant
                self.wf(),
                i <= self.names@.len(),
                all == self@.map_values(|f: (Seq<char>, Seq<char>)| json_field(f.0, f.1)),
                texts(fields@) == all.take(i as int),
            decreases self.names@.len() - i,
        {
            let mut s: String = String::new();
            push_quoted(&mut s, self.names[i].as_str());
            s.append(":");
            s.append(self.values[i].as_str());
            proof {
                assert(s@ =~= json_field(self.names@[i as int]@, self.values@[i as int]@));
                assert(all[i as int] == s@);
                assert(all.take(i + 1) =~= all.take(i as int).push(s@));
            }
            push_text(&mut fields, s);
            i = i + 1;
        }
        assert(all.take(i as int) =~= all);
        let mut out: String = "{".to_owned();
        let body: String = join_texts(&fields, ",");
        out.append(body.as_str());
        out.append("}");
        out
    }
}

} // verus!

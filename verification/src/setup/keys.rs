//! Verification keys: what their files say, and the limbs that stages take from them.
use vstd::prelude::*;
use vstd::string::StringExecFns;

use crate::exps::emit::texts;
use crate::parse::{digits_value, is_number, parse_number, unsigned_digits};
use crate::setup::search::text_of;
use crate::text::{chars_of, dec, dec_text, push_dec};

verus! {

/// One element of a key file: its text where it is a string, its value where it is a number that
/// fits a word, and its JSON.
pub struct Limb {
    pub text: Option<String>,
    pub number: Option<u64>,
    pub json: String,
}

/// What an element holds.
pub struct LimbView {
    pub text: Option<Seq<char>>,
    pub number: Option<u64>,
    pub json: Seq<char>,
}

impl View for Limb {
    type V = LimbView;

    open spec fn view(&self) -> LimbView {
        LimbView { text: text_of(self.text), number: self.number, json: self.json@ }
    }
}

/// A key file: a list of elements, a single string, or something else.
pub enum KeyFile {
    List(Vec<Limb>),
    Text(String),
    Other(String),
}

/// What a key file holds.
pub enum KeyView {
    List(Seq<LimbView>),
    Text(Seq<char>),
    Other(Seq<char>),
}

/// What the elements hold.
pub open spec fn limb_views(v: Seq<Limb>) -> Seq<LimbView> {
    Seq::new(v.len(), |i: int| v[i]@)
}

impl View for KeyFile {
    type V = KeyView;

    open spec fn view(&self) -> KeyView {
        match *self {
            KeyFile::List(v) => KeyView::List(limb_views(v@)),
            KeyFile::Text(s) => KeyView::Text(s@),
            KeyFile::Other(s) => KeyView::Other(s@),
        }
    }
}

/// What an optional key file holds.
pub open spec fn key_view(k: Option<KeyFile>) -> Option<KeyView> {
    match k {
        Some(k) => Some(k@),
        None => None,
    }
}

/// What `serde_json::from_str` reads from the text of a key file: nothing where it is no JSON.
pub uninterp spec fn key_json(text: Seq<char>) -> Option<KeyView>;

/// `serde_json::from_str` reads a JSON value, which depends on the text alone; `as_str`, `as_u64`
/// and `to_string` of `serde_json::Value` turn its elements into plain values.
#[verifier::external_body]
pub(crate) fn read_key_json(text: &str) -> (r: Option<KeyFile>)
    ensures
        key_view(r) == key_json(text@),
{
    match serde_json::from_str::<serde_json::Value>(text) {
        Ok(serde_json::Value::Array(a)) => Some(KeyFile::List(a.iter().map(|v| Limb {
            text: v.as_str().map(|s| s.to_owned()),
            number: v.as_u64(),
            json: v.to_string(),
        }).collect())),
        Ok(serde_json::Value::String(s)) => Some(KeyFile::Text(s)),
        Ok(v) => Some(KeyFile::Other(v.to_string())),
        Err(_) => None,
    }
}

/// Why a key file cannot be used.
pub enum KeyError {
    /// It is no JSON.
    NotJson,
    /// It is no list.
    NotList,
    /// It has the wrong number of elements.
    WrongLength { n: usize },
    /// An element is no word.
    NotWord { i: usize },
}

/// The first of the first four elements that is no number.
pub open spec fn first_bad(v: Seq<Option<u64>>, from: int) -> int
    decreases 4 - from,
{
    if from >= 4 || v[from] is None {
        from
    } else {
        first_bad(v, from + 1)
    }
}

/// The numbers of the elements.
pub open spec fn numbers(v: Seq<LimbView>) -> Seq<Option<u64>> {
    Seq::new(v.len(), |i: int| v[i].number)
}

/// The four limbs of a key, as decimal text: the key has exactly four elements, all of them
/// numbers.
pub open spec fn are_limbs(r: Result<[String; 4], KeyError>, k: Option<KeyView>) -> bool {
    match k {
        None => r is Err && r->Err_0 is NotJson,
        Some(KeyView::List(v)) => if v.len() != 4 {
            match r {
                Err(KeyError::WrongLength { n }) => n == v.len(),
                _ => false,
            }
        } else if first_bad(numbers(v), 0) < 4 {
            match r {
                Err(KeyError::NotWord { i }) => i == first_bad(numbers(v), 0),
                _ => false,
            }
        } else {
            match r {
                Ok(a) => forall|i: int|
                    0 <= i < 4 ==> (#[trigger] a[i])@ == dec(v[i].number->0 as nat),
                Err(_) => false,
            }
        },
        Some(_) => r is Err && r->Err_0 is NotList,
    }
}

/// The four limbs of a key that was read.
pub fn limbs_of(k: &Option<KeyFile>) -> (r: Result<[String; 4], KeyError>)
    ensures
        are_limbs(r, key_view(*k)),
{
    match k {
        None => Err(KeyError::NotJson),
        Some(KeyFile::List(v)) => {
            let ghost w = limb_views(v@);
            assert(w.len() == v@.len());
            if v.len() != 4 {
                return Err(KeyError::WrongLength { n: v.len() });
            }
            proof {
                assert(numbers(w)[0] == v@[0].number && numbers(w)[1] == v@[1].number && numbers(
                    w,
                )[2] == v@[2].number && numbers(w)[3] == v@[3].number);
                assert(first_bad(numbers(w), 4) == 4);
                assert(first_bad(numbers(w), 3) == if v@[3].number is None {
                    3int
                } else {
                    4int
                });
                assert(first_bad(numbers(w), 2) == if v@[2].number is None {
                    2int
                } else {
                    first_bad(numbers(w), 3)
                });
                assert(first_bad(numbers(w), 1) == if v@[1].number is None {
                    1int
                } else {
                    first_bad(numbers(w), 2)
                });
            }
            match v[0].number {
                None => Err(KeyError::NotWord { i: 0 }),
                Some(a) => match v[1].number {
                    None => Err(KeyError::NotWord { i: 1 }),
                    Some(b) => match v[2].number {
                        None => Err(KeyError::NotWord { i: 2 }),
                        Some(c) => match v[3].number {
                            None => Err(KeyError::NotWord { i: 3 }),
                            Some(d) => Ok([dec_text(a), dec_text(b), dec_text(c), dec_text(d)]),
                        },
                    },
                },
            }
        },
        Some(_) => Err(KeyError::NotList),
    }
}

/// The four limbs of a key file, as decimal text.
pub fn parse_verkey_json(text: &str) -> (r: Result<[String; 4], KeyError>)
    ensures
        are_limbs(r, key_json(text@)),
{
    let k: Option<KeyFile> = read_key_json(text);
    limbs_of(&k)
}

/// The word that an element stands for: a number, or a string of decimal digits.
pub open spec fn limb_word(l: LimbView) -> Option<u64> {
    match l.number {
        Some(n) => Some(n),
        None => match l.text {
            Some(t) => if is_number(t, u64::MAX as nat) {
                Some(digits_value(unsigned_digits(t)) as u64)
            } else {
                None
            },
            None => None,
        },
    }
}

/// The word that an element stands for.
pub fn word_of(l: &Limb) -> (r: Option<u64>)
    ensures
        r == limb_word(l@),
{
    match l.number {
        Some(n) => Some(n),
        None => match &l.text {
            Some(t) => parse_number(&chars_of(t.as_str()), u64::MAX),
            None => None,
        },
    }
}

/// The words that the elements stand for.
pub open spec fn limb_words(v: Seq<LimbView>) -> Seq<Option<u64>> {
    Seq::new(v.len(), |i: int| limb_word(v[i]))
}

/// The constant root of a key: the first four elements, numbers or decimal strings.
pub open spec fn is_const_root(r: Result<[u64; 4], KeyError>, k: Option<KeyView>) -> bool {
    match k {
        None => r is Err && r->Err_0 is NotJson,
        Some(KeyView::List(v)) => if v.len() < 4 {
            match r {
                Err(KeyError::WrongLength { n }) => n == v.len(),
                _ => false,
            }
        } else if first_bad(limb_words(v), 0) < 4 {
            match r {
                Err(KeyError::NotWord { i }) => i == first_bad(limb_words(v), 0),
                _ => false,
            }
        } else {
            match r {
                Ok(a) => forall|i: int|
                    0 <= i < 4 ==> #[trigger] a[i] == limb_words(v)[i]->0,
                Err(_) => false,
            }
        },
        Some(_) => r is Err && r->Err_0 is NotList,
    }
}

/// The constant root of a key that was read.
pub fn const_root_of(k: &Option<KeyFile>) -> (r: Result<[u64; 4], KeyError>)
    ensures
        is_const_root(r, key_view(*k)),
{
    match k {
        None => Err(KeyError::NotJson),
        Some(KeyFile::List(v)) => {
            let ghost w = limb_views(v@);
            assert(w.len() == v@.len());
            if v.len() < 4 {
                return Err(KeyError::WrongLength { n: v.len() });
            }
            let x: [Option<u64>; 4] = [
                word_of(&v[0]),
                word_of(&v[1]),
                word_of(&v[2]),
                word_of(&v[3]),
            ];
            proof {
                let n = limb_words(w);
                assert(n[0] == x[0] && n[1] == x[1] && n[2] == x[2] && n[3] == x[3]);
                assert(first_bad(n, 4) == 4);
                assert(first_bad(n, 3) == if x[3] is None {
                    3int
                } else {
                    4int
                });
                assert(first_bad(n, 2) == if x[2] is None {
                    2int
                } else {
                    first_bad(n, 3)
                });
                assert(first_bad(n, 1) == if x[1] is None {
                    1int
                } else {
                    first_bad(n, 2)
                });
            }
            match x[0] {
                None => Err(KeyError::NotWord { i: 0 }),
                Some(a) => match x[1] {
                    None => Err(KeyError::NotWord { i: 1 }),
                    Some(b) => match x[2] {
                        None => Err(KeyError::NotWord { i: 2 }),
                        Some(c) => match x[3] {
                            None => Err(KeyError::NotWord { i: 3 }),
                            Some(d) => Ok([a, b, c, d]),
                        },
                    },
                },
            }
        },
        Some(_) => Err(KeyError::NotList),
    }
}

/// The constant root of a key file.
pub fn parse_const_root(text: &str) -> (r: Result<[u64; 4], KeyError>)
    ensures
        is_const_root(r, key_json(text@)),
{
    let k: Option<KeyFile> = read_key_json(text);
    const_root_of(&k)
}

/// The text without any quotation marks at its start.
pub open spec fn unquoted_start(s: Seq<char>) -> Seq<char>
    decreases s.len(),
{
    if s.len() == 0 || s[0] != '"' {
        s
    } else {
        unquoted_start(s.skip(1))
    }
}

/// The text without any quotation marks at its end.
pub open spec fn unquoted_end(s: Seq<char>) -> Seq<char>
    decreases s.len(),
{
    if s.len() == 0 || s.last() != '"' {
        s
    } else {
        unquoted_end(s.drop_last())
    }
}

fn unquote(text: &str) -> (r: String)
    ensures
        r@ == unquoted_end(unquoted_start(text@)),
{
    let s: Vec<char> = chars_of(text);
    let mut lo: usize = 0;
    assert(s@.skip(0) =~= s@);
    while lo < s.len() && s[lo] == '"'
        invariant
            lo <= s@.len(),
            unquoted_start(s@.skip(lo as int)) == unquoted_start(s@),
        decreases s@.len() - lo,
    {
        assert(s@.skip(lo as int).skip(1) =~= s@.skip(lo + 1));
        lo = lo + 1;
    }
    let ghost t = s@.skip(lo as int);
    let mut hi: usize = s.len();
    assert(s@.subrange(lo as int, hi as int) =~= t);
    while lo < hi && s[hi - 1] == '"'
        invariant
            lo <= hi <= s@.len(),
            unquoted_end(s@.subrange(lo as int, hi as int)) == unquoted_end(t),
        decreases hi - lo,
    {
        assert(s@.subrange(lo as int, hi as int).drop_last() =~= s@.subrange(
            lo as int,
            hi - 1,
        ));
        hi = hi - 1;
    }
    let mut out: String = String::new();
    let mut i: usize = lo;
    assert(out@ =~= s@.subrange(lo as int, lo as int));
    while i < hi
        invariant
            lo <= i <= hi <= s@.len(),
            out@ == s@.subrange(lo as int, i as int),
        decreases hi - i,
    {
        out.push(s[i]);
        assert(s@.subrange(lo as int, i + 1) =~= s@.subrange(lo as int, i as int).push(
            s@[i as int],
        ));
        i = i + 1;
    }
    out
}

/// An element as text: a number in decimal, anything else as its JSON without quotation marks.
pub open spec fn limb_text(l: LimbView) -> Seq<char> {
    match l.number {
        Some(n) => dec(n as nat),
        None => unquoted_end(unquoted_start(l.json)),
    }
}

fn text_of_limb(l: &Limb) -> (r: String)
    ensures
        r@ == limb_text(l@),
{
    match l.number {
        Some(n) => dec_text(n),
        None => unquote(l.json.as_str()),
    }
}

/// The root that the final circuit is made with: the first four elements of a list, or a single
/// string in front of zeros.
pub open spec fn is_final_root(r: Result<[String; 4], KeyError>, k: Option<KeyView>) -> bool {
    match k {
        None => r is Err && r->Err_0 is NotJson,
        Some(KeyView::List(v)) => if v.len() < 4 {
            match r {
                Err(KeyError::WrongLength { n }) => n == v.len(),
                _ => false,
            }
        } else {
            match r {
                Ok(a) => forall|i: int| 0 <= i < 4 ==> (#[trigger] a[i])@ == limb_text(v[i]),
                Err(_) => false,
            }
        },
        Some(KeyView::Text(s)) => match r {
            Ok(a) => a[0]@ == s && a[1]@ == "0"@ && a[2]@ == "0"@ && a[3]@ == "0"@,
            Err(_) => false,
        },
        Some(KeyView::Other(_)) => r is Err && r->Err_0 is NotList,
    }
}

/// The root that the final circuit is made with, from a key that was read.
pub fn final_root_of(k: &Option<KeyFile>) -> (r: Result<[String; 4], KeyError>)
    ensures
        is_final_root(r, key_view(*k)),
{
    match k {
        None => Err(KeyError::NotJson),
        Some(KeyFile::List(v)) => {
            let ghost w = limb_views(v@);
            assert(w.len() == v@.len());
            if v.len() < 4 {
                return Err(KeyError::WrongLength { n: v.len() });
            }
            proof {
                assert(w[0] == v@[0]@ && w[1] == v@[1]@ && w[2] == v@[2]@ && w[3] == v@[3]@);
            }
            Ok(
                [
                    text_of_limb(&v[0]),
                    text_of_limb(&v[1]),
                    text_of_limb(&v[2]),
                    text_of_limb(&v[3]),
                ],
            )
        },
        Some(KeyFile::Text(s)) => Ok(
            [s.as_str().to_owned(), "0".to_owned(), "0".to_owned(), "0".to_owned()],
        ),
        Some(KeyFile::Other(_)) => Err(KeyError::NotList),
    }
}

/// The root that the final circuit is made with, from a key file.
pub fn parse_final_root(text: &str) -> (r: Result<[String; 4], KeyError>)
    ensures
        is_final_root(r, key_json(text@)),
{
    let k: Option<KeyFile> = read_key_json(text);
    final_root_of(&k)
}

/// An element of a list of keys, as text: a string, a number in decimal, or zero.
pub open spec fn key_text(l: LimbView) -> Seq<char> {
    match l.text {
        Some(t) => t,
        None => match l.number {
            Some(n) => dec(n as nat),
            None => "0"@,
        },
    }
}

/// An element of a list of keys, as text.
pub fn json_val_to_str(l: &Limb) -> (r: String)
    ensures
        r@ == key_text(l@),
{
    match &l.text {
        Some(t) => t.as_str().to_owned(),
        None => match l.number {
            Some(n) => dec_text(n),
            None => "0".to_owned(),
        },
    }
}

/// The elements of a key, as text.
pub open spec fn key_texts(v: Seq<LimbView>) -> Seq<Seq<char>> {
    Seq::new(v.len(), |i: int| key_text(v[i]))
}

/// The elements of a key, as text.
pub fn key_strings(v: &Vec<Limb>) -> (r: Vec<String>)
    ensures
        texts(r@) == key_texts(limb_views(v@)),
{
    let ghost all = key_texts(limb_views(v@));
    let mut out: Vec<String> = Vec::new();
    let mut i: usize = 0;
    assert(texts(out@) =~= all.take(0));
    while i < v.len()
        invariant
            i <= v@.len(),
            all == key_texts(limb_views(v@)),
            texts(out@) == all.take(i as int),
        decreases v@.len() - i,
    {
        let ghost before = out@;
        let s: String = json_val_to_str(&v[i]);
        out.push(s);
        proof {
            assert(limb_views(v@)[i as int] == v@[i as int]@);
            assert(all[i as int] == s@);
            assert(all.take(i + 1) =~= all.take(i as int).push(s@));
            assert(texts(out@) =~= texts(before).push(s@));
        }
        i = i + 1;
    }
    assert(all.take(i as int) =~= all);
    out
}

/// The constant root of an aggregated key: its four elements, or zeros where it has another
/// number of them.
pub fn aggregated_root(key: &Vec<String>) -> (r: [String; 4])
    ensures
        key@.len() == 4 ==> forall|i: int| 0 <= i < 4 ==> (#[trigger] r[i])@ == key@[i]@,
        key@.len() != 4 ==> forall|i: int| 0 <= i < 4 ==> (#[trigger] r[i])@ == "0"@,
{
    if key.len() == 4 {
        [
            key[0].as_str().to_owned(),
            key[1].as_str().to_owned(),
            key[2].as_str().to_owned(),
            key[3].as_str().to_owned(),
        ]
    } else {
        ["0".to_owned(), "0".to_owned(), "0".to_owned(), "0".to_owned()]
    }
}

/// A limb as it is written to a list of keys: a number where it is one, text otherwise.
pub enum WrittenLimb {
    Number(u64),
    Text(String),
}

/// A limb as it is written to a list of keys.
pub fn written_limb(s: &str) -> (r: WrittenLimb)
    ensures
        match r {
            WrittenLimb::Number(n) => is_number(s@, u64::MAX as nat) && n == digits_value(
                unsigned_digits(s@),
            ),
            WrittenLimb::Text(t) => !is_number(s@, u64::MAX as nat) && t@ == s@,
        },
{
    match parse_number(&chars_of(s), u64::MAX) {
        Some(n) => WrittenLimb::Number(n),
        None => WrittenLimb::Text(s.to_owned()),
    }
}

/// The four words of a root, as decimal text.
pub fn root_texts(root: &[u64; 4]) -> (r: [String; 4])
    ensures
        forall|i: int| 0 <= i < 4 ==> (#[trigger] r[i])@ == dec(root[i] as nat),
{
    [dec_text(root[0]), dec_text(root[1]), dec_text(root[2]), dec_text(root[3])]
}

/// The four limbs of a key written in decimal are its words again.
pub proof fn law_written_limbs_read_back(n: u64)
    ensures
        is_number(dec(n as nat), u64::MAX as nat),
        digits_value(unsigned_digits(dec(n as nat))) == n,
{
    lemma_dec_value(n as nat);
    let d = dec(n as nat);
    assert(crate::parse::is_digit(d[0]));
}

pub proof fn lemma_dec_value(n: nat)
    ensures
        dec(n).len() >= 1,
        crate::parse::all_digits(dec(n)),
        digits_value(dec(n)) == n,
    decreases n,
{
    let d = dec(n);
    let last = crate::text::digit_char(n % 10);
    assert(last as u32 == 48 + n % 10);
    assert(crate::parse::digit_value(last) == n % 10);
    assert(d.len() > 0 ==> digits_value(d) == 10 * digits_value(d.drop_last())
        + crate::parse::digit_value(d.last()));
    if n < 10 {
        assert(d.last() == last);
        assert(d.drop_last() =~= Seq::empty());
        assert(digits_value(d.drop_last()) == 0);
        assert(crate::parse::is_digit(last));
    } else {
        lemma_dec_value(n / 10);
        assert(d.last() == last);
        assert(d.drop_last() =~= dec(n / 10));
        assert forall|i: int| 0 <= i < d.len() implies crate::parse::is_digit(#[trigger] d[i]) by {
            if i < d.len() - 1 {
                assert(d[i] == dec(n / 10)[i]);
            } else {
                assert(d[i] == last);
            }
        }
    }
}

impl KeyError {
    /// What to tell the user.
    pub fn message(&self) -> (r: String)
        ensures
            r@ == match *self {
                KeyError::NotJson => "Failed to parse verkey JSON"@,
                KeyError::NotList => "verkey.json is not an array"@,
                KeyError::WrongLength { n } => "verkey.json has "@ + dec(n as nat)
                    + " entries, expected 4"@,
                KeyError::NotWord { i } => "verkey.json limb "@ + dec(i as nat)
                    + " is not a valid u64"@,
            },
    {
        match self {
            KeyError::NotJson => "Failed to parse verkey JSON".to_owned(),
            KeyError::NotList => "verkey.json is not an array".to_owned(),
            KeyError::WrongLength { n } => {
                let mut out: String = "verkey.json has ".to_owned();
                push_dec(&mut out, *n as u64);
                out.append(" entries, expected 4");
                out
            },
            KeyError::NotWord { i } => {
                let mut out: String = "verkey.json limb ".to_owned();
                push_dec(&mut out, *i as u64);
                out.append(" is not a valid u64");
                out
            },
        }
    }
}

} // verus!

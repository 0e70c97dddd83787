//! The templates that can be filled: text with values, conditions and loops.
//!
//! A tag holds words. `{{ path }}` writes a value, `{{ path | length }}` its length, with other
//! filters in the same way, and `{{ a + b }}` a sum, with differences and products in the same
//! way. `{% if c %}`, `{% elif c %}`, `{% else %}` and `{% endif %}` choose, where `c` joins values
//! and comparisons of values by `and`, `or` and `not`. `{% for name in path %}`,
//! `{% for name in range(end=n) %}` and `{% for name in range(start=m, end=n) %}` repeat, up to
//! `{% endfor %}`. A dash on the inside of a tag cuts blanks, and `{# .. #}` is a comment.
use vstd::prelude::*;

use crate::parse::{all_digits, char_views, is_digit};
use crate::text::chars_of;

verus! {

/// Whether a character can stand in a name.
pub open spec fn in_name(c: char) -> bool {
    starts_name(c) || '0' <= c <= '9'
}

/// Whether a character can start a name.
pub open spec fn starts_name(c: char) -> bool {
    'a' <= c <= 'z' || 'A' <= c <= 'Z' || c == '_'
}

/// Whether a character separates words.
pub open spec fn is_blank(c: char) -> bool {
    c == ' ' || c == '\t' || c == '\r' || c == '\n'
}

/// A name.
pub open spec fn is_name(s: Seq<char>) -> bool {
    s.len() > 0 && starts_name(s[0]) && forall|i: int|
        0 <= i < s.len() ==> in_name(#[trigger] s[i])
}

/// The path of a value: names with points between them, but for the dump of all values.
pub open spec fn is_path(s: Seq<char>) -> bool {
    s.len() > 0 && starts_name(s[0]) && s != "__tera_context"@ && forall|i: int|
        0 <= i < s.len() ==> in_name(#[trigger] s[i]) || (s[i] == '.' && i + 1 < s.len()
            && starts_name(s[i + 1]))
}

/// The last name of a path.
pub open spec fn last_name(s: Seq<char>) -> Seq<char>
    decreases s.len(),
{
    if s.len() == 0 || s.last() == '.' {
        Seq::empty()
    } else {
        last_name(s.drop_last()).push(s.last())
    }
}

/// The words of a text.
pub open spec fn words(s: Seq<char>) -> Seq<Seq<char>>
    decreases s.len(),
{
    if s.len() == 0 {
        Seq::empty()
    } else {
        let w = words(s.drop_last());
        if is_blank(s.last()) {
            w
        } else if s.len() == 1 || is_blank(s[s.len() - 2]) {
            w.push(seq![s.last()])
        } else {
            w.drop_last().push(w.last().push(s.last()))
        }
    }
}

/// Words with a meaning of their own.
pub open spec fn is_keyword(w: Seq<char>) -> bool {
    w == "not"@ || w == "and"@ || w == "or"@ || w == "in"@ || w == "is"@
}

/// A value in a condition: a path, or a number of at most 18 digits.
pub open spec fn is_operand(w: Seq<char>) -> bool {
    (is_path(w) && !is_keyword(w)) || (1 <= w.len() <= 18 && all_digits(w))
}

/// A comparison.
pub open spec fn is_comparison(w: Seq<char>) -> bool {
    w == "=="@ || w == "!="@ || w == "<"@ || w == ">"@ || w == "<="@ || w == ">="@
}

/// A sum, a difference or a product.
pub open spec fn is_arithmetic(w: Seq<char>) -> bool {
    w == "+"@ || w == "-"@ || w == "*"@
}

/// A filter: it makes a value of a value.
pub open spec fn is_filter(w: Seq<char>) -> bool {
    w == "length"@ || w == "first"@ || w == "last"@ || w == "reverse"@ || w == "upper"@
        || w == "lower"@ || w == "trim"@ || w == "trim_start"@ || w == "trim_end"@
        || w == "capitalize"@ || w == "as_str"@ || w == "json_encode"@ || w == "safe"@
}

/// A character of a text in quotation marks.
pub open spec fn in_literal(c: char) -> bool {
    in_name(c) || c == '.' || c == '-' || c == '/' || c == ':'
}

/// A text in quotation marks.
pub open spec fn is_literal(w: Seq<char>) -> bool {
    w.len() >= 2 && w[0] == '"' && w.last() == '"' && forall|i: int|
        1 <= i < w.len() - 1 ==> in_literal(#[trigger] w[i])
}

/// How far a condition is.
#[derive(Clone, Copy, PartialEq, Eq, Structural, Debug)]
pub enum Condition {
    /// A term has to begin.
    Begin,
    /// Its value has to follow.
    Negated,
    /// A value was read.
    Value,
    /// What it is computed with has to follow.
    ValueMore,
    /// A filter of it has to follow.
    ValueFilter,
    /// A filtered value or a text was read.
    Filtered,
    /// What it is compared to has to follow.
    Compared,
    /// A comparison was read.
    Whole,
    /// What its second value is computed with has to follow.
    WholeMore,
    /// A filter of its second value has to follow.
    WholeFilter,
    /// A comparison to a filtered value or a text was read.
    WholeFiltered,
    /// It is no condition.
    Broken,
}

/// How far a condition is after one more word.
pub open spec fn next_condition(c: Condition, w: Seq<char>) -> Condition {
    let joins = w == "and"@ || w == "or"@;
    match c {
        Condition::Begin => if w == "not"@ {
            Condition::Negated
        } else if is_operand(w) {
            Condition::Value
        } else if is_literal(w) {
            Condition::Filtered
        } else {
            Condition::Broken
        },
        Condition::Negated => if is_operand(w) {
            Condition::Value
        } else {
            Condition::Broken
        },
        Condition::Value => if joins {
            Condition::Begin
        } else if is_comparison(w) {
            Condition::Compared
        } else if is_arithmetic(w) {
            Condition::ValueMore
        } else if w == "|"@ {
            Condition::ValueFilter
        } else {
            Condition::Broken
        },
        Condition::ValueMore => if is_operand(w) {
            Condition::Value
        } else {
            Condition::Broken
        },
        Condition::ValueFilter => if is_filter(w) {
            Condition::Filtered
        } else {
            Condition::Broken
        },
        Condition::Filtered => if joins {
            Condition::Begin
        } else if is_comparison(w) {
            Condition::Compared
        } else if w == "|"@ {
            Condition::ValueFilter
        } else {
            Condition::Broken
        },
        Condition::Compared => if is_operand(w) {
            Condition::Whole
        } else if is_literal(w) {
            Condition::WholeFiltered
        } else {
            Condition::Broken
        },
        Condition::Whole => if joins {
            Condition::Begin
        } else if is_arithmetic(w) {
            Condition::WholeMore
        } else if w == "|"@ {
            Condition::WholeFilter
        } else {
            Condition::Broken
        },
        Condition::WholeMore => if is_operand(w) {
            Condition::Whole
        } else {
            Condition::Broken
        },
        Condition::WholeFilter => if is_filter(w) {
            Condition::WholeFiltered
        } else {
            Condition::Broken
        },
        Condition::WholeFiltered => if joins {
            Condition::Begin
        } else if w == "|"@ {
            Condition::WholeFilter
        } else {
            Condition::Broken
        },
        Condition::Broken => Condition::Broken,
    }
}

/// How far a condition is after the words from `first` up to `n`.
pub open spec fn condition_after(ws: Seq<Seq<char>>, first: int, n: int) -> Condition
    decreases n - first,
{
    if n <= first {
        Condition::Begin
    } else {
        next_condition(condition_after(ws, first, n - 1), ws[n - 1])
    }
}

/// The words behind the first are a condition of at most fifteen.
pub open spec fn has_condition(ws: Seq<Seq<char>>) -> bool {
    let c = condition_after(ws, 1, ws.len() as int);
    ws.len() <= 16 && (c == Condition::Value || c == Condition::Filtered || c == Condition::Whole
        || c == Condition::WholeFiltered)
}

/// What a template asks of the values.
pub enum Use {
    /// A loop with that name for its value runs over the list under a path.
    List(Seq<char>, Seq<char>),
    /// A loop with that name for its value runs over numbers.
    Range(Seq<char>),
    /// The number under a path is computed with: it may have so many digits.
    Number(Seq<char>, nat),
}

/// Digits of numbers that are added, subtracted and multiplied.
pub const NUMBER_DIGITS: usize = 18;

/// Digits of numbers that loops run up to.
pub const RANGE_DIGITS: usize = 6;

/// What computing with the words from `first` up to `n` asks of the values.
pub open spec fn number_uses(ws: Seq<Seq<char>>, first: int, n: int) -> Seq<Use>
    decreases n - first,
{
    if n <= first {
        Seq::empty()
    } else {
        let before = number_uses(ws, first, n - 1);
        if is_path(ws[n - 1]) && !is_keyword(ws[n - 1]) {
            before.push(Use::Number(ws[n - 1], NUMBER_DIGITS as nat))
        } else {
            before
        }
    }
}

/// Something is computed.
pub open spec fn computes(ws: Seq<Seq<char>>) -> bool {
    exists|i: int| 0 <= i < ws.len() && is_arithmetic(#[trigger] ws[i])
}

/// What a condition asks of the values.
pub open spec fn condition_uses(ws: Seq<Seq<char>>) -> Seq<Use> {
    if computes(ws) {
        number_uses(ws, 1, ws.len() as int)
    } else {
        Seq::empty()
    }
}

/// Values with sums, differences and products between them.
pub open spec fn is_computation(ws: Seq<Seq<char>>) -> bool {
    3 <= ws.len() <= 15 && ws.len() % 2 == 1 && forall|i: int|
        0 <= i < ws.len() ==> if i % 2 == 0 {
            is_operand(#[trigger] ws[i])
        } else {
            is_arithmetic(ws[i])
        }
}

/// A path with filters behind it.
pub open spec fn is_filtered(ws: Seq<Seq<char>>) -> bool {
    3 <= ws.len() <= 15 && ws.len() % 2 == 1 && is_path(ws[0]) && forall|i: int|
        1 <= i < ws.len() ==> if i % 2 == 1 {
            #[trigger] ws[i] == "|"@
        } else {
            is_filter(ws[i])
        }
}

/// What writing a value asks of the values; nothing where the words are no value.
pub open spec fn value_uses(ws: Seq<Seq<char>>) -> Option<Seq<Use>> {
    if ws.len() == 1 && is_path(ws[0]) {
        Some(Seq::empty())
    } else if is_filtered(ws) {
        Some(Seq::empty())
    } else if is_computation(ws) {
        Some(number_uses(ws, 0, ws.len() as int))
    } else {
        None
    }
}

/// What a loop runs up to: a path, or a number of at most six digits.
pub open spec fn is_bound(w: Seq<char>) -> bool {
    (is_path(w) && !is_keyword(w)) || (1 <= w.len() <= RANGE_DIGITS && all_digits(w))
}

/// What a bound asks of the values.
pub open spec fn bound_uses(w: Seq<char>) -> Seq<Use> {
    if is_path(w) && !is_keyword(w) {
        seq![Use::Number(w, RANGE_DIGITS as nat)]
    } else {
        Seq::empty()
    }
}

/// What stands between a beginning and a last character: nothing where the word has another form.
pub open spec fn between(w: Seq<char>, begin: Seq<char>, end: char) -> Option<Seq<char>> {
    if w.len() > begin.len() && w.take(begin.len() as int) == begin && w.last() == end {
        Some(w.subrange(begin.len() as int, w.len() - 1))
    } else {
        None
    }
}

/// The bounds of the numbers that a loop runs over: nothing where the words are no such loop.
pub open spec fn range_uses(ws: Seq<Seq<char>>) -> Option<Seq<Use>> {
    if ws.len() == 4 {
        match between(ws[3], "range(end="@, ')') {
            Some(n) => if is_bound(n) {
                Some(bound_uses(n))
            } else {
                None
            },
            None => None,
        }
    } else if ws.len() == 5 {
        match (between(ws[3], "range(start="@, ','), between(ws[4], "end="@, ')')) {
            (Some(m), Some(n)) => if is_bound(m) && is_bound(n) {
                Some(bound_uses(m) + bound_uses(n))
            } else {
                None
            },
            _ => None,
        }
    } else {
        None
    }
}

/// What a statement does, and what it asks of the values.
pub enum Statement {
    /// It opens a choice or a loop.
    Open(Seq<Use>),
    /// It goes on with a choice.
    Keep(Seq<Use>),
    /// It closes a choice or a loop.
    Close,
    /// It is none of these.
    Unknown,
}

/// The loop that words make.
pub open spec fn loop_statement(ws: Seq<Seq<char>>) -> Statement {
    if ws.len() >= 4 && ws[0] == "for"@ && is_name(ws[1]) && ws[2] == "in"@ {
        if ws.len() == 4 && is_path(ws[3]) {
            Statement::Open(seq![Use::List(ws[1], ws[3])])
        } else {
            match range_uses(ws) {
                Some(v) => Statement::Open(seq![Use::Range(ws[1])] + v),
                None => Statement::Unknown,
            }
        }
    } else {
        Statement::Unknown
    }
}

/// The statement that words make.
pub open spec fn statement(ws: Seq<Seq<char>>) -> Statement {
    if ws.len() == 0 {
        Statement::Unknown
    } else if ws.len() == 1 && ws[0] == "else"@ {
        Statement::Keep(Seq::empty())
    } else if ws.len() == 1 && (ws[0] == "endif"@ || ws[0] == "endfor"@) {
        Statement::Close
    } else if ws[0] == "if"@ && has_condition(ws) {
        Statement::Open(condition_uses(ws))
    } else if ws[0] == "elif"@ && has_condition(ws) {
        Statement::Keep(condition_uses(ws))
    } else {
        loop_statement(ws)
    }
}

/// Where a tag closes: the first `c` before a closing brace from `i` on, -1 where there is none.
pub open spec fn closing(s: Seq<char>, i: int, c: char) -> int
    decreases s.len() - i,
{
    if i < 0 || i + 1 >= s.len() {
        -1
    } else if s[i] == c && s[i + 1] == '}' {
        i
    } else {
        closing(s, i + 1, c)
    }
}

/// The inside of a tag without the dashes that cut blanks.
pub open spec fn undashed(s: Seq<char>) -> Seq<char> {
    let t = if s.len() > 0 && s[0] == '-' {
        s.skip(1)
    } else {
        s
    };
    if t.len() > 0 && t.last() == '-' {
        t.drop_last()
    } else {
        t
    }
}

/// How deep choices and loops may stand in each other.
pub const MAX_DEPTH: usize = 64;

/// What the template asks of the values from `i` on, inside `depth` open statements; nothing where
/// a tag is not one that can be filled.
pub open spec fn uses_from(s: Seq<char>, i: int, depth: nat) -> Option<Seq<Use>>
    decreases s.len() - i,
{
    if i < 0 || i + 1 >= s.len() {
        Some(Seq::empty())
    } else if s[i] != '{' || !(s[i + 1] == '{' || s[i + 1] == '%' || s[i + 1] == '#') {
        uses_from(s, i + 1, depth)
    } else {
        let c = if s[i + 1] == '{' {
            '}'
        } else {
            s[i + 1]
        };
        let end = closing(s, i + 2, c);
        if end < i + 2 || s.len() < end + 2 {
            None
        } else if c == '#' {
            uses_from(s, end + 2, depth)
        } else {
            let ws = words(undashed(s.subrange(i + 2, end)));
            if c == '}' {
                match value_uses(ws) {
                    Some(v) => behind(v, uses_from(s, end + 2, depth)),
                    None => None,
                }
            } else {
                match statement(ws) {
                    Statement::Unknown => None,
                    Statement::Keep(v) => behind(v, uses_from(s, end + 2, depth)),
                    Statement::Close => uses_from(
                        s,
                        end + 2,
                        if depth > 0 {
                            (depth - 1) as nat
                        } else {
                            0
                        },
                    ),
                    Statement::Open(v) => if depth < MAX_DEPTH {
                        behind(v, uses_from(s, end + 2, depth + 1))
                    } else {
                        None
                    },
                }
            }
        }
    }
}

/// Uses, with others before them.
pub open spec fn behind(v: Seq<Use>, rest: Option<Seq<Use>>) -> Option<Seq<Use>> {
    match rest {
        Some(r) => Some(v + r),
        None => None,
    }
}

/// What a template asks of the values, where all its tags can be filled.
pub open spec fn uses_of(template: Seq<char>) -> Option<Seq<Use>> {
    uses_from(template, 0, 0)
}

/// The two uses do not get in each other's way: no loop runs over the value of a loop, and nothing
/// is computed with the value of a loop over a list.
pub open spec fn are_apart(a: Use, b: Use) -> bool {
    match a {
        Use::List(_, path) => match b {
            Use::List(name, _) => path != name,
            Use::Range(name) => path != name,
            Use::Number(_, _) => true,
        },
        Use::Number(path, _) => match b {
            Use::List(name, _) => path != name,
            _ => true,
        },
        Use::Range(_) => true,
    }
}

/// No two uses get in each other's way.
pub open spec fn all_apart(v: Seq<Use>) -> bool {
    forall|i: int, j: int|
        0 <= i < v.len() && 0 <= j < v.len() ==> are_apart(#[trigger] v[i], #[trigger] v[j])
}

/// The template consists of text and of tags that can be filled, and their uses of values do not
/// get in each other's way.
pub open spec fn plain_template(template: Seq<char>) -> bool {
    uses_of(template) matches Some(v) && all_apart(v)
}

/// The first position from `i` on that is not blank.
pub open spec fn skipped(s: Seq<char>, i: int) -> int
    decreases s.len() - i,
{
    if 0 <= i < s.len() && is_blank(s[i]) {
        skipped(s, i + 1)
    } else {
        i
    }
}

/// Where the value stands of a member of a JSON text that has this name and begins at `i`: -1 where
/// there is none.
pub open spec fn member_value(json: Seq<char>, name: Seq<char>, i: int) -> int {
    if 0 <= i && i + name.len() + 2 <= json.len() && json[i] == '"' && json.subrange(
        i + 1,
        i + 1 + name.len(),
    ) == name && json[i + 1 + name.len()] == '"' {
        let a = skipped(json, i + name.len() + 2);
        let b = skipped(json, a + 1);
        if a < json.len() && json[a] == ':' && b < json.len() {
            b
        } else {
            -1
        }
    } else {
        -1
    }
}

/// The inside of a JSON string from `i` on consists of ASCII characters other than the carriage
/// return, so that each of its characters stands for itself.
pub open spec fn is_simple(s: Seq<char>, i: int) -> bool
    decreases s.len() - i,
{
    if i < 0 || i >= s.len() {
        false
    } else if s[i] == '"' {
        true
    } else if s[i] == '\\' {
        i + 1 < s.len() && s[i + 1] != 'r' && (s[i + 1] as u32) < 0x80 && (s[i + 1] == 'u' ==> i + 5
            < s.len() && !(s[i + 2] == '0' && s[i + 3] == '0' && s[i + 4] == '0' && (s[i + 5] == 'd'
            || s[i + 5] == 'D'))) && is_simple(s, i + 2)
    } else {
        (s[i] as u32) < 0x80 && is_simple(s, i + 1)
    }
}

/// How many digits stand from `i` on.
pub open spec fn digit_run(s: Seq<char>, i: int) -> nat
    decreases s.len() - i,
{
    if 0 <= i < s.len() && is_digit(s[i]) {
        1 + digit_run(s, i + 1)
    } else {
        0
    }
}

/// A natural number of at most so many digits stands at `i`.
pub open spec fn is_small(s: Seq<char>, i: int, digits: nat) -> bool {
    let n = digit_run(s, i);
    1 <= n <= digits && (i + n < s.len() ==> s[i + n] != '.' && s[i + n] != 'e' && s[i + n] != 'E')
}

/// The member at `i`, if it is one of that name, holds a string that is not simple.
pub open spec fn hard_text_at(json: Seq<char>, name: Seq<char>, i: int) -> bool {
    let b = member_value(json, name, i);
    b >= 0 && json[b] == '"' && !is_simple(json, b + 1)
}

/// The member at `i`, if it is one of that name, holds a number that is not small, up to its sign.
pub open spec fn big_number_at(json: Seq<char>, name: Seq<char>, digits: nat, i: int) -> bool {
    let b = member_value(json, name, i);
    b >= 0 && (if json[b] == '-' {
        !is_small(json, b + 1, digits)
    } else {
        is_digit(json[b]) && !is_small(json, b, digits)
    })
}

/// Somewhere in a JSON text a member of that name holds a string that is not simple.
pub open spec fn has_hard_text(json: Seq<char>, name: Seq<char>) -> bool {
    exists|i: int| #[trigger] hard_text_at(json, name, i)
}

/// Somewhere in a JSON text a member of that name holds a number that is not small.
pub open spec fn has_big_number(json: Seq<char>, name: Seq<char>, digits: nat) -> bool {
    exists|i: int| #[trigger] big_number_at(json, name, digits, i)
}

/// A backslash that starts an escape.
pub open spec fn escapes_at(s: Seq<char>, i: int) -> bool
    decreases i,
{
    0 <= i < s.len() && s[i] == '\\' && !(i > 0 && escapes_at(s, i - 1))
}

/// A numbered escape at this position, if there is one, stands for a control character.
pub open spec fn control_at(s: Seq<char>, i: int) -> bool {
    escapes_at(s, i) && i + 1 < s.len() && s[i + 1] == 'u' ==> i + 4 < s.len() && s[i + 2] == '0'
        && s[i + 3] == '0' && (s[i + 4] == '0' || s[i + 4] == '1')
}

/// Numbered escapes stand for control characters only, so names are written out.
pub open spec fn names_written_out(s: Seq<char>) -> bool {
    forall|i: int| 0 <= i < s.len() ==> #[trigger] control_at(s, i)
}

/// The JSON text has what a use asks for: strings that loops run over are simple, and numbers that
/// are computed with are small.
pub open spec fn use_fits(u: Use, json: Seq<char>) -> bool {
    match u {
        Use::List(_, path) => !has_hard_text(json, last_name(path)),
        Use::Number(path, digits) => !has_big_number(json, last_name(path), digits),
        Use::Range(_) => true,
    }
}

/// The JSON text has what the uses ask for.
pub open spec fn uses_fit(v: Seq<Use>, json: Seq<char>) -> bool {
    v.len() > 0 ==> names_written_out(json) && forall|i: int|
        0 <= i < v.len() ==> use_fits(#[trigger] v[i], json)
}

/// The template can be filled from the JSON text: it is one of text and of tags that can be
/// filled, and the values have what it asks of them.
pub open spec fn fillable(template: Seq<char>, json: Seq<char>) -> bool {
    uses_of(template) matches Some(v) && all_apart(v) && uses_fit(v, json)
}

fn name_char(c: char) -> (r: bool)
    ensures
        r == in_name(c),
{
    name_start(c) || '0' <= c && c <= '9'
}

fn name_start(c: char) -> (r: bool)
    ensures
        r == starts_name(c),
{
    'a' <= c && c <= 'z' || 'A' <= c && c <= 'Z' || c == '_'
}

fn blank(c: char) -> (r: bool)
    ensures
        r == is_blank(c),
{
    c == ' ' || c == '\t' || c == '\r' || c == '\n'
}

fn check_name(s: &Vec<char>) -> (r: bool)
    ensures
        r == is_name(s@),
{
    if s.len() == 0 || !name_start(s[0]) {
        return false;
    }
    let mut i: usize = 0;
    while i < s.len()
        invariant
            i <= s@.len(),
            forall|j: int| 0 <= j < i ==> in_name(#[trigger] s@[j]),
        decreases s@.len() - i,
    {
        if !name_char(s[i]) {
            return false;
        }
        i = i + 1;
    }
    true
}

fn same_chars(a: &Vec<char>, b: &Vec<char>) -> (r: bool)
    ensures
        r == (a@ == b@),
{
    if a.len() != b.len() {
        return false;
    }
    let mut i: usize = 0;
    while i < a.len()
        invariant
            i <= a@.len(),
            a@.len() == b@.len(),
            forall|j: int| 0 <= j < i ==> a@[j] == b@[j],
        decreases a@.len() - i,
    {
        if a[i] != b[i] {
            return false;
        }
        i = i + 1;
    }
    assert(a@ =~= b@);
    true
}

fn word_is(w: &Vec<char>, s: &str) -> (r: bool)
    ensures
        r == (w@ == s@),
{
    let t: Vec<char> = chars_of(s);
    same_chars(w, &t)
}

fn check_path(s: &Vec<char>) -> (r: bool)
    ensures
        r == is_path(s@),
{
    if s.len() == 0 || !name_start(s[0]) || word_is(s, "__tera_context") {
        return false;
    }
    let mut i: usize = 0;
    while i < s.len()
        invariant
            i <= s@.len(),
            forall|j: int|
                0 <= j < i ==> in_name(#[trigger] s@[j]) || (s@[j] == '.' && j + 1 < s@.len()
                    && starts_name(s@[j + 1])),
        decreases s@.len() - i,
    {
        if !name_char(s[i]) && !(s[i] == '.' && s.len() - i > 1 && name_start(s[i + 1])) {
            return false;
        }
        i = i + 1;
    }
    true
}

fn check_digits(s: &Vec<char>) -> (r: bool)
    ensures
        r == all_digits(s@),
{
    let mut i: usize = 0;
    while i < s.len()
        invariant
            i <= s@.len(),
            forall|j: int| 0 <= j < i ==> is_digit(#[trigger] s@[j]),
        decreases s@.len() - i,
    {
        let c: char = s[i];
        if !('0' <= c && c <= '9') {
            return false;
        }
        i = i + 1;
    }
    true
}

fn check_operand(w: &Vec<char>) -> (r: bool)
    ensures
        r == is_operand(w@),
{
    let keyword: bool = word_is(w, "not") || word_is(w, "and") || word_is(w, "or") || word_is(
        w,
        "in",
    ) || word_is(w, "is");
    (check_path(w) && !keyword) || (1 <= w.len() && w.len() <= 18 && check_digits(w))
}

fn check_comparison(w: &Vec<char>) -> (r: bool)
    ensures
        r == is_comparison(w@),
{
    word_is(w, "==") || word_is(w, "!=") || word_is(w, "<") || word_is(w, ">") || word_is(w, "<=")
        || word_is(w, ">=")
}

fn check_arithmetic(w: &Vec<char>) -> (r: bool)
    ensures
        r == is_arithmetic(w@),
{
    word_is(w, "+") || word_is(w, "-") || word_is(w, "*")
}

fn check_filter(w: &Vec<char>) -> (r: bool)
    ensures
        r == is_filter(w@),
{
    word_is(w, "length") || word_is(w, "first") || word_is(w, "last") || word_is(w, "reverse")
        || word_is(w, "upper") || word_is(w, "lower") || word_is(w, "trim")
        || word_is(w, "trim_start") || word_is(w, "trim_end") || word_is(w, "capitalize")
        || word_is(w, "as_str") || word_is(w, "json_encode") || word_is(w, "safe")
}

fn check_literal(w: &Vec<char>) -> (r: bool)
    ensures
        r == is_literal(w@),
{
    let n: usize = w.len();
    if n < 2 || w[0] != '"' || w[n - 1] != '"' {
        return false;
    }
    let mut i: usize = 1;
    while i < n - 1
        invariant
            1 <= i <= n - 1,
            n == w@.len(),
            forall|j: int| 1 <= j < i ==> in_literal(#[trigger] w@[j]),
        decreases n - i,
    {
        let c: char = w[i];
        if !(name_char(c) || c == '.' || c == '-' || c == '/' || c == ':') {
            return false;
        }
        i = i + 1;
    }
    true
}

fn step_condition(c: Condition, w: &Vec<char>) -> (r: Condition)
    ensures
        r == next_condition(c, w@),
{
    let joins: bool = word_is(w, "and") || word_is(w, "or");
    match c {
        Condition::Begin => if word_is(w, "not") {
            Condition::Negated
        } else if check_operand(w) {
            Condition::Value
        } else if check_literal(w) {
            Condition::Filtered
        } else {
            Condition::Broken
        },
        Condition::Negated => if check_operand(w) {
            Condition::Value
        } else {
            Condition::Broken
        },
        Condition::Value => if joins {
            Condition::Begin
        } else if check_comparison(w) {
            Condition::Compared
        } else if check_arithmetic(w) {
            Condition::ValueMore
        } else if word_is(w, "|") {
            Condition::ValueFilter
        } else {
            Condition::Broken
        },
        Condition::ValueMore => if check_operand(w) {
            Condition::Value
        } else {
            Condition::Broken
        },
        Condition::ValueFilter => if check_filter(w) {
            Condition::Filtered
        } else {
            Condition::Broken
        },
        Condition::Filtered => if joins {
            Condition::Begin
        } else if check_comparison(w) {
            Condition::Compared
        } else if word_is(w, "|") {
            Condition::ValueFilter
        } else {
            Condition::Broken
        },
        Condition::Compared => if check_operand(w) {
            Condition::Whole
        } else if check_literal(w) {
            Condition::WholeFiltered
        } else {
            Condition::Broken
        },
        Condition::Whole => if joins {
            Condition::Begin
        } else if check_arithmetic(w) {
            Condition::WholeMore
        } else if word_is(w, "|") {
            Condition::WholeFilter
        } else {
            Condition::Broken
        },
        Condition::WholeMore => if check_operand(w) {
            Condition::Whole
        } else {
            Condition::Broken
        },
        Condition::WholeFilter => if check_filter(w) {
            Condition::WholeFiltered
        } else {
            Condition::Broken
        },
        Condition::WholeFiltered => if joins {
            Condition::Begin
        } else if word_is(w, "|") {
            Condition::WholeFilter
        } else {
            Condition::Broken
        },
        Condition::Broken => Condition::Broken,
    }
}

fn check_condition(ws: &Vec<Vec<char>>) -> (r: bool)
    requires
        ws@.len() > 0,
    ensures
        r == has_condition(char_views(ws@)),
{
    if ws.len() > 16 {
        return false;
    }
    let mut c: Condition = Condition::Begin;
    let mut i: usize = 1;
    while i < ws.len()
        invariant
            1 <= i <= ws@.len(),
            c == condition_after(char_views(ws@), 1, i as int),
        decreases ws@.len() - i,
    {
        assert(char_views(ws@)[i as int] == ws@[i as int]@);
        c = step_condition(c, &ws[i]);
        i = i + 1;
    }
    match c {
        Condition::Value => true,
        Condition::Filtered => true,
        Condition::Whole => true,
        Condition::WholeFiltered => true,
        _ => false,
    }
}

fn split_words(s: &Vec<char>) -> (r: Vec<Vec<char>>)
    ensures
        char_views(r@) == words(s@),
{
    let mut out: Vec<Vec<char>> = Vec::new();
    let mut i: usize = 0;
    assert(s@.take(0) =~= Seq::empty());
    assert(char_views(out@) =~= words(s@.take(0)));
    while i < s.len()
        invariant
            i <= s@.len(),
            char_views(out@) == words(s@.take(i as int)),
            i > 0 && !is_blank(s@[i - 1]) ==> out@.len() > 0,
        decreases s@.len() - i,
    {
        let c: char = s[i];
        let ghost before = out@;
        let ghost t = s@.take(i + 1);
        proof {
            assert(t.drop_last() =~= s@.take(i as int));
            assert(t.last() == c);
            if i > 0 {
                assert(t[t.len() - 2] == s@[i - 1]);
            }
        }
        if !blank(c) {
            if i == 0 || blank(s[i - 1]) {
                let mut w: Vec<char> = Vec::new();
                w.push(c);
                out.push(w);
                assert(w@ =~= seq![c]);
                assert(char_views(out@) =~= char_views(before).push(seq![c]));
            } else {
                let n: usize = out.len();
                let mut w: Vec<char> = match out.pop() {
                    Some(w) => w,
                    None => Vec::new(),
                };
                assert(w@ == before[n - 1]@);
                w.push(c);
                out.push(w);
                assert(char_views(before).drop_last() =~= char_views(before.drop_last()));
                assert(char_views(before).last() == before[n - 1]@);
                assert(char_views(out@) =~= char_views(before).drop_last().push(
                    char_views(before).last().push(c),
                ));
            }
        }
        i = i + 1;
    }
    assert(s@.take(i as int) =~= s@);
    out
}

/// What a template asks of the values.
pub enum UseTag {
    List { name: Vec<char>, path: Vec<char> },
    Range { name: Vec<char> },
    Number { path: Vec<char>, digits: usize },
}

impl View for UseTag {
    type V = Use;

    open spec fn view(&self) -> Use {
        match *self {
            UseTag::List { name, path } => Use::List(name@, path@),
            UseTag::Range { name } => Use::Range(name@),
            UseTag::Number { path, digits } => Use::Number(path@, digits as nat),
        }
    }
}

/// The uses by their texts.
pub open spec fn use_views(v: Seq<UseTag>) -> Seq<Use> {
    Seq::new(v.len(), |i: int| v[i]@)
}

fn push_use(out: &mut Vec<UseTag>, u: UseTag)
    ensures
        use_views(final(out)@) == use_views(old(out)@).push(u@),
{
    let ghost before = out@;
    out.push(u);
    assert(use_views(out@) =~= use_views(before).push(u@));
}

fn append_uses(out: &mut Vec<UseTag>, more: Vec<UseTag>)
    ensures
        use_views(final(out)@) == use_views(old(out)@) + use_views(more@),
{
    let ghost before = out@;
    let mut rest: Vec<UseTag> = more;
    out.append(&mut rest);
    assert(use_views(out@) =~= use_views(before) + use_views(more@));
}

fn no_uses() -> (r: Vec<UseTag>)
    ensures
        use_views(r@) == Seq::<Use>::empty(),
{
    let r: Vec<UseTag> = Vec::new();
    assert(use_views(r@) =~= Seq::<Use>::empty());
    r
}

fn copied(w: &Vec<char>) -> (r: Vec<char>)
    ensures
        r@ == w@,
{
    part_of(w, 0, w.len())
}

fn part_of(w: &Vec<char>, from: usize, to: usize) -> (r: Vec<char>)
    requires
        from <= to <= w@.len(),
    ensures
        r@ == w@.subrange(from as int, to as int),
{
    let mut out: Vec<char> = Vec::new();
    let mut i: usize = from;
    while i < to
        invariant
            from <= i <= to <= w@.len(),
            out@ == w@.subrange(from as int, i as int),
        decreases to - i,
    {
        out.push(w[i]);
        i = i + 1;
        assert(out@ =~= w@.subrange(from as int, i as int));
    }
    out
}

fn check_keyword(w: &Vec<char>) -> (r: bool)
    ensures
        r == is_keyword(w@),
{
    word_is(w, "not") || word_is(w, "and") || word_is(w, "or") || word_is(w, "in") || word_is(
        w,
        "is",
    )
}

fn read_numbers(ws: &Vec<Vec<char>>, first: usize) -> (r: Vec<UseTag>)
    ensures
        use_views(r@) == number_uses(char_views(ws@), first as int, ws@.len() as int),
{
    let mut out: Vec<UseTag> = no_uses();
    let mut i: usize = first;
    while i < ws.len()
        invariant
            first <= i,
            i <= ws@.len() || i == first,
            use_views(out@) == number_uses(char_views(ws@), first as int, i as int),
        decreases ws@.len() - i,
    {
        assert(char_views(ws@)[i as int] == ws@[i as int]@);
        if check_path(&ws[i]) && !check_keyword(&ws[i]) {
            push_use(&mut out, UseTag::Number { path: copied(&ws[i]), digits: NUMBER_DIGITS });
        }
        i = i + 1;
    }
    proof {
        if ws@.len() < first {
            assert(number_uses(char_views(ws@), first as int, ws@.len() as int)
                =~= number_uses(char_views(ws@), first as int, first as int));
        }
    }
    out
}

fn check_computes(ws: &Vec<Vec<char>>) -> (r: bool)
    ensures
        r == computes(char_views(ws@)),
{
    let mut i: usize = 0;
    while i < ws.len()
        invariant
            i <= ws@.len(),
            forall|j: int| 0 <= j < i ==> !is_arithmetic(#[trigger] char_views(ws@)[j]),
        decreases ws@.len() - i,
    {
        assert(char_views(ws@)[i as int] == ws@[i as int]@);
        if check_arithmetic(&ws[i]) {
            return true;
        }
        i = i + 1;
    }
    false
}

fn read_condition_uses(ws: &Vec<Vec<char>>) -> (r: Vec<UseTag>)
    ensures
        use_views(r@) == condition_uses(char_views(ws@)),
{
    if check_computes(ws) {
        read_numbers(ws, 1)
    } else {
        no_uses()
    }
}

fn check_computation(ws: &Vec<Vec<char>>) -> (r: bool)
    ensures
        r == is_computation(char_views(ws@)),
{
    let ghost all = char_views(ws@);
    let n: usize = ws.len();
    if n < 3 || n > 15 || n % 2 != 1 {
        return false;
    }
    let mut i: usize = 0;
    while i < n
        invariant
            i <= n,
            n == ws@.len(),
            all == char_views(ws@),
            forall|j: int|
                0 <= j < i ==> if j % 2 == 0 {
                    is_operand(#[trigger] all[j])
                } else {
                    is_arithmetic(all[j])
                },
        decreases n - i,
    {
        assert(all[i as int] == ws@[i as int]@);
        let ok: bool = if i % 2 == 0 {
            check_operand(&ws[i])
        } else {
            check_arithmetic(&ws[i])
        };
        if !ok {
            return false;
        }
        i = i + 1;
    }
    true
}

fn check_filtered(ws: &Vec<Vec<char>>) -> (r: bool)
    ensures
        r == is_filtered(char_views(ws@)),
{
    let ghost all = char_views(ws@);
    let n: usize = ws.len();
    if n < 3 || n > 15 || n % 2 != 1 {
        return false;
    }
    assert(all[0] == ws@[0]@);
    if !check_path(&ws[0]) {
        return false;
    }
    let mut i: usize = 1;
    while i < n
        invariant
            1 <= i <= n,
            n == ws@.len(),
            all == char_views(ws@),
            forall|j: int|
                1 <= j < i ==> if j % 2 == 1 {
                    #[trigger] all[j] == "|"@
                } else {
                    is_filter(all[j])
                },
        decreases n - i,
    {
        assert(all[i as int] == ws@[i as int]@);
        let ok: bool = if i % 2 == 1 {
            word_is(&ws[i], "|")
        } else {
            check_filter(&ws[i])
        };
        if !ok {
            return false;
        }
        i = i + 1;
    }
    true
}

fn read_value(ws: &Vec<Vec<char>>) -> (r: Option<Vec<UseTag>>)
    ensures
        match r {
            Some(v) => value_uses(char_views(ws@)) == Some(use_views(v@)),
            None => value_uses(char_views(ws@)) is None,
        },
{
    let n: usize = ws.len();
    assert forall|k: int| 0 <= k < n implies #[trigger] char_views(ws@)[k] == ws@[k]@ by {}
    if n == 1 && check_path(&ws[0]) {
        return Some(no_uses());
    }
    if check_filtered(ws) {
        return Some(no_uses());
    }
    if check_computation(ws) {
        return Some(read_numbers(ws, 0));
    }
    None
}

fn check_bound(w: &Vec<char>) -> (r: bool)
    ensures
        r == is_bound(w@),
{
    (check_path(w) && !check_keyword(w)) || (1 <= w.len() && w.len() <= RANGE_DIGITS
        && check_digits(w))
}

fn read_bound(w: &Vec<char>) -> (r: Vec<UseTag>)
    ensures
        use_views(r@) == bound_uses(w@),
{
    let mut out: Vec<UseTag> = no_uses();
    if check_path(w) && !check_keyword(w) {
        push_use(&mut out, UseTag::Number { path: copied(w), digits: RANGE_DIGITS });
        assert(use_views(out@) =~= bound_uses(w@));
    }
    out
}

fn take_between(w: &Vec<char>, begin: &str, end: char) -> (r: Option<Vec<char>>)
    ensures
        match r {
            Some(v) => between(w@, begin@, end) == Some(v@),
            None => between(w@, begin@, end) is None,
        },
{
    let b: Vec<char> = chars_of(begin);
    let n: usize = w.len();
    let k: usize = b.len();
    if n <= k || w[n - 1] != end {
        return None;
    }
    let head: Vec<char> = part_of(w, 0, k);
    assert(head@ =~= w@.take(k as int));
    if !same_chars(&head, &b) {
        return None;
    }
    Some(part_of(w, k, n - 1))
}

fn read_range(ws: &Vec<Vec<char>>) -> (r: Option<Vec<UseTag>>)
    ensures
        match r {
            Some(v) => range_uses(char_views(ws@)) == Some(use_views(v@)),
            None => range_uses(char_views(ws@)) is None,
        },
{
    let n: usize = ws.len();
    assert forall|k: int| 0 <= k < n implies #[trigger] char_views(ws@)[k] == ws@[k]@ by {}
    if n == 4 {
        match take_between(&ws[3], "range(end=", ')') {
            Some(b) => if check_bound(&b) {
                Some(read_bound(&b))
            } else {
                None
            },
            None => None,
        }
    } else if n == 5 {
        match (take_between(&ws[3], "range(start=", ','), take_between(&ws[4], "end=", ')')) {
            (Some(a), Some(b)) => if check_bound(&a) && check_bound(&b) {
                let mut v: Vec<UseTag> = read_bound(&a);
                append_uses(&mut v, read_bound(&b));
                Some(v)
            } else {
                None
            },
            _ => None,
        }
    } else {
        None
    }
}

enum Read {
    Open(Vec<UseTag>),
    Keep(Vec<UseTag>),
    Close,
    Unknown,
}

spec fn read_view(r: Read) -> Statement {
    match r {
        Read::Open(v) => Statement::Open(use_views(v@)),
        Read::Keep(v) => Statement::Keep(use_views(v@)),
        Read::Close => Statement::Close,
        Read::Unknown => Statement::Unknown,
    }
}

fn read_loop(ws: &Vec<Vec<char>>) -> (r: Read)
    ensures
        read_view(r) == loop_statement(char_views(ws@)),
{
    let n: usize = ws.len();
    assert forall|k: int| 0 <= k < n implies #[trigger] char_views(ws@)[k] == ws@[k]@ by {}
    if !(n >= 4 && word_is(&ws[0], "for") && check_name(&ws[1]) && word_is(&ws[2], "in")) {
        return Read::Unknown;
    }
    let mut out: Vec<UseTag> = no_uses();
    if n == 4 && check_path(&ws[3]) {
        push_use(&mut out, UseTag::List { name: copied(&ws[1]), path: copied(&ws[3]) });
        proof {
            assert(use_views(out@) =~= seq![Use::List(ws@[1]@, ws@[3]@)]);
        }
        return Read::Open(out);
    }
    match read_range(ws) {
        Some(v) => {
            push_use(&mut out, UseTag::Range { name: copied(&ws[1]) });
            proof {
                assert(use_views(out@) =~= seq![Use::Range(ws@[1]@)]);
            }
            append_uses(&mut out, v);
            Read::Open(out)
        },
        None => Read::Unknown,
    }
}

fn read_statement(ws: &Vec<Vec<char>>) -> (r: Read)
    ensures
        read_view(r) == statement(char_views(ws@)),
{
    let n: usize = ws.len();
    if n == 0 {
        return Read::Unknown;
    }
    assert forall|k: int| 0 <= k < n implies #[trigger] char_views(ws@)[k] == ws@[k]@ by {}
    if n == 1 && word_is(&ws[0], "else") {
        return Read::Keep(no_uses());
    }
    if n == 1 && (word_is(&ws[0], "endif") || word_is(&ws[0], "endfor")) {
        return Read::Close;
    }
    if word_is(&ws[0], "if") && check_condition(ws) {
        return Read::Open(read_condition_uses(ws));
    }
    if word_is(&ws[0], "elif") && check_condition(ws) {
        return Read::Keep(read_condition_uses(ws));
    }
    read_loop(ws)
}

fn find_closing(s: &Vec<char>, start: usize, c: char) -> (r: Option<usize>)
    ensures
        match r {
            Some(e) => e == closing(s@, start as int, c) && start <= e && e + 1 < s@.len(),
            None => closing(s@, start as int, c) == -1,
        },
{
    let n: usize = s.len();
    let mut i: usize = start;
    while i < n && n - i > 1
        invariant
            start <= i,
            n == s@.len(),
            closing(s@, start as int, c) == closing(s@, i as int, c),
        decreases n - i,
    {
        if s[i] == c && s[i + 1] == '}' {
            return Some(i);
        }
        i = i + 1;
    }
    None
}

/// The inside of a tag without the dashes that cut blanks.
fn inside(s: &Vec<char>, from: usize, to: usize) -> (r: Vec<char>)
    requires
        from <= to <= s@.len(),
    ensures
        r@ == undashed(s@.subrange(from as int, to as int)),
{
    let ghost t = s@.subrange(from as int, to as int);
    let mut a: usize = from;
    let mut b: usize = to;
    if a < b && s[a] == '-' {
        a = a + 1;
    }
    if a < b && s[b - 1] == '-' {
        b = b - 1;
    }
    let mut out: Vec<char> = Vec::new();
    let mut i: usize = a;
    while i < b
        invariant
            a <= i <= b <= s@.len(),
            out@ == s@.subrange(a as int, i as int),
        decreases b - i,
    {
        out.push(s[i]);
        i = i + 1;
        assert(out@ =~= s@.subrange(a as int, i as int));
    }
    assert(out@ =~= undashed(t));
    out
}

proof fn lemma_behind(a: Seq<Use>, b: Seq<Use>, rest: Option<Seq<Use>>)
    ensures
        behind(a, behind(b, rest)) == behind(a + b, rest),
{
    if let Some(r) = rest {
        assert(a + (b + r) =~= (a + b) + r);
    }
}

/// What a template asks of the values, where all its tags can be filled.
fn read_uses(s: &Vec<char>) -> (r: Option<Vec<UseTag>>)
    ensures
        match r {
            Some(v) => uses_of(s@) == Some(use_views(v@)),
            None => uses_of(s@) is None,
        },
{
    let n: usize = s.len();
    let mut out: Vec<UseTag> = no_uses();
    let mut depth: usize = 0;
    let mut i: usize = 0;
    proof {
        if let Some(v) = uses_of(s@) {
            assert(use_views(out@) + v =~= v);
        }
    }
    while i < n && n - i > 1
        invariant
            n == s@.len(),
            i <= n,
            depth <= MAX_DEPTH,
            uses_of(s@) == behind(use_views(out@), uses_from(s@, i as int, depth as nat)),
        decreases n - i,
    {
        let k: char = s[i + 1];
        if s[i] != '{' || !(k == '{' || k == '%' || k == '#') {
            i = i + 1;
        } else {
            let c: char = if k == '{' {
                '}'
            } else {
                k
            };
            let end: usize = match find_closing(s, i + 2, c) {
                Some(e) => e,
                None => {
                    return None;
                },
            };
            let ghost before = use_views(out@);
            if c != '#' {
                let text: Vec<char> = inside(s, i + 2, end);
                let ws: Vec<Vec<char>> = split_words(&text);
                if c == '}' {
                    match read_value(&ws) {
                        None => {
                            return None;
                        },
                        Some(v) => {
                            proof {
                                lemma_behind(
                                    before,
                                    use_views(v@),
                                    uses_from(s@, end + 2, depth as nat),
                                );
                            }
                            append_uses(&mut out, v);
                        },
                    }
                } else {
                    match read_statement(&ws) {
                        Read::Unknown => {
                            return None;
                        },
                        Read::Keep(v) => {
                            proof {
                                lemma_behind(
                                    before,
                                    use_views(v@),
                                    uses_from(s@, end + 2, depth as nat),
                                );
                            }
                            append_uses(&mut out, v);
                        },
                        Read::Close => {
                            if depth > 0 {
                                depth = depth - 1;
                            }
                        },
                        Read::Open(v) => {
                            if depth >= MAX_DEPTH {
                                return None;
                            }
                            depth = depth + 1;
                            proof {
                                lemma_behind(
                                    before,
                                    use_views(v@),
                                    uses_from(s@, end + 2, depth as nat),
                                );
                            }
                            append_uses(&mut out, v);
                        },
                    }
                }
            }
            i = end + 2;
        }
    }
    proof {
        assert(use_views(out@) + Seq::<Use>::empty() =~= use_views(out@));
    }
    Some(out)
}

fn check_pair(a: &UseTag, b: &UseTag) -> (r: bool)
    ensures
        r == are_apart(a@, b@),
{
    match a {
        UseTag::List { name: _, path } => match b {
            UseTag::List { name, path: _ } => !same_chars(path, name),
            UseTag::Range { name } => !same_chars(path, name),
            UseTag::Number { path: _, digits: _ } => true,
        },
        UseTag::Number { path, digits: _ } => match b {
            UseTag::List { name, path: _ } => !same_chars(path, name),
            _ => true,
        },
        UseTag::Range { name: _ } => true,
    }
}

fn check_apart(v: &Vec<UseTag>) -> (r: bool)
    ensures
        r == all_apart(use_views(v@)),
{
    let ghost all = use_views(v@);
    let mut i: usize = 0;
    while i < v.len()
        invariant
            i <= v@.len(),
            all == use_views(v@),
            forall|k: int, j: int|
                0 <= k < i && 0 <= j < all.len() ==> are_apart(
                    #[trigger] all[k],
                    #[trigger] all[j],
                ),
        decreases v@.len() - i,
    {
        let mut j: usize = 0;
        while j < v.len()
            invariant
                i < v@.len(),
                j <= v@.len(),
                all == use_views(v@),
                forall|l: int| 0 <= l < j ==> are_apart(all[i as int], #[trigger] all[l]),
            decreases v@.len() - j,
        {
            if !check_pair(&v[i], &v[j]) {
                assert(!are_apart(all[i as int], all[j as int]));
                return false;
            }
            j = j + 1;
        }
        i = i + 1;
    }
    true
}

/// Whether the template consists of text and of tags that can be filled, and their uses of values
/// do not get in each other's way.
pub fn is_plain(template: &str) -> (r: bool)
    ensures
        r == plain_template(template@),
{
    let s: Vec<char> = chars_of(template);
    match read_uses(&s) {
        Some(v) => check_apart(&v),
        None => false,
    }
}

fn skip_blanks(s: &Vec<char>, start: usize) -> (r: usize)
    requires
        start <= s@.len(),
    ensures
        r == skipped(s@, start as int),
        start <= r <= s@.len(),
{
    let mut i: usize = start;
    while i < s.len() && blank(s[i])
        invariant
            start <= i <= s@.len(),
            skipped(s@, start as int) == skipped(s@, i as int),
        decreases s@.len() - i,
    {
        i = i + 1;
    }
    i
}

fn find_value(s: &Vec<char>, name: &Vec<char>, i: usize) -> (r: Option<usize>)
    requires
        i < s@.len(),
    ensures
        match r {
            Some(b) => b == member_value(s@, name@, i as int) && b < s@.len(),
            None => member_value(s@, name@, i as int) == -1,
        },
{
    let total: usize = s.len();
    if s[i] != '"' || total - i < 2 || total - i - 2 < name.len() {
        return None;
    }
    let here: Vec<char> = part_of(s, i + 1, i + 1 + name.len());
    if !same_chars(&here, name) || s[i + 1 + name.len()] != '"' {
        return None;
    }
    let a: usize = skip_blanks(s, i + name.len() + 2);
    if a == s.len() || s[a] != ':' {
        return None;
    }
    let b: usize = skip_blanks(s, a + 1);
    if b < s.len() {
        Some(b)
    } else {
        None
    }
}

fn check_simple(s: &Vec<char>, start: usize) -> (r: bool)
    ensures
        r == is_simple(s@, start as int),
{
    let n: usize = s.len();
    let mut i: usize = start;
    while i < n
        invariant
            start <= i,
            n == s@.len(),
            is_simple(s@, start as int) == is_simple(s@, i as int),
        decreases n - i,
    {
        let c: char = s[i];
        if c == '"' {
            return true;
        }
        if c == '\\' {
            if n - i <= 1 {
                return false;
            }
            let d: char = s[i + 1];
            if d == 'r' || d as u32 >= 0x80 {
                return false;
            }
            if d == 'u' && (n - i <= 5 || (s[i + 2] == '0' && s[i + 3] == '0' && s[i + 4] == '0'
                && (s[i + 5] == 'd' || s[i + 5] == 'D'))) {
                return false;
            }
            i = i + 2;
        } else {
            if c as u32 >= 0x80 {
                return false;
            }
            i = i + 1;
        }
    }
    false
}

fn check_small(s: &Vec<char>, start: usize, digits: usize) -> (r: bool)
    requires
        start <= s@.len(),
    ensures
        r == is_small(s@, start as int, digits as nat),
{
    let n: usize = s.len();
    let mut i: usize = start;
    while i < n && '0' <= s[i] && s[i] <= '9'
        invariant
            start <= i <= n,
            n == s@.len(),
            digit_run(s@, start as int) == (i - start) + digit_run(s@, i as int),
        decreases n - i,
    {
        i = i + 1;
    }
    assert(digit_run(s@, i as int) == 0);
    i > start && i - start <= digits && (i == n || (s[i] != '.' && s[i] != 'e' && s[i] != 'E'))
}

fn find_hard_text(s: &Vec<char>, name: &Vec<char>) -> (r: bool)
    ensures
        r == has_hard_text(s@, name@),
{
    let total: usize = s.len();
    let mut i: usize = 0;
    while i < total
        invariant
            i <= total,
            total == s@.len(),
            forall|j: int| 0 <= j < i ==> !#[trigger] hard_text_at(s@, name@, j),
        decreases total - i,
    {
        if let Some(b) = find_value(s, name, i) {
            if s[b] == '"' && !check_simple(s, b + 1) {
                assert(hard_text_at(s@, name@, i as int));
                return true;
            }
        }
        i = i + 1;
    }
    assert forall|j: int| !#[trigger] hard_text_at(s@, name@, j) by {}
    false
}

fn find_big_number(s: &Vec<char>, name: &Vec<char>, digits: usize) -> (r: bool)
    ensures
        r == has_big_number(s@, name@, digits as nat),
{
    let total: usize = s.len();
    let mut i: usize = 0;
    while i < total
        invariant
            i <= total,
            total == s@.len(),
            forall|j: int| 0 <= j < i ==> !#[trigger] big_number_at(s@, name@, digits as nat, j),
        decreases total - i,
    {
        if let Some(b) = find_value(s, name, i) {
            let c: char = s[b];
            let big: bool = if c == '-' {
                !check_small(s, b + 1, digits)
            } else {
                '0' <= c && c <= '9' && !check_small(s, b, digits)
            };
            if big {
                assert(big_number_at(s@, name@, digits as nat, i as int));
                return true;
            }
        }
        i = i + 1;
    }
    assert forall|j: int| !#[trigger] big_number_at(s@, name@, digits as nat, j) by {}
    false
}

fn check_escapes(s: &Vec<char>) -> (r: bool)
    ensures
        r == names_written_out(s@),
{
    let n: usize = s.len();
    let mut active: bool = false;
    let mut i: usize = 0;
    while i < n
        invariant
            i <= n,
            n == s@.len(),
            active == (i > 0 && escapes_at(s@, i - 1)),
            forall|j: int| 0 <= j < i ==> #[trigger] control_at(s@, j),
        decreases n - i,
    {
        active = s[i] == '\\' && !active;
        assert(active == escapes_at(s@, i as int));
        if active && n - i > 1 && s[i + 1] == 'u' {
            if !(n - i > 4 && s[i + 2] == '0' && s[i + 3] == '0' && (s[i + 4] == '0' || s[i + 4]
                == '1')) {
                assert(!control_at(s@, i as int));
                return false;
            }
        }
        i = i + 1;
    }
    true
}

fn name_at_end(s: &Vec<char>) -> (r: Vec<char>)
    ensures
        r@ == last_name(s@),
{
    let mut out: Vec<char> = Vec::new();
    let mut i: usize = 0;
    assert(s@.take(0) =~= Seq::empty());
    assert(out@ =~= last_name(s@.take(0)));
    while i < s.len()
        invariant
            i <= s@.len(),
            out@ == last_name(s@.take(i as int)),
        decreases s@.len() - i,
    {
        let c: char = s[i];
        proof {
            assert(s@.take(i + 1).drop_last() =~= s@.take(i as int));
            assert(s@.take(i + 1).last() == c);
        }
        if c == '.' {
            out = Vec::new();
            assert(out@ =~= Seq::empty());
        } else {
            out.push(c);
        }
        i = i + 1;
    }
    assert(s@.take(i as int) =~= s@);
    out
}

fn check_use(u: &UseTag, s: &Vec<char>) -> (r: bool)
    ensures
        r == use_fits(u@, s@),
{
    match u {
        UseTag::List { name: _, path } => !find_hard_text(s, &name_at_end(path)),
        UseTag::Number { path, digits } => !find_big_number(s, &name_at_end(path), *digits),
        UseTag::Range { name: _ } => true,
    }
}

/// Whether the template can be filled from the JSON text.
pub fn can_fill(template: &str, json: &str) -> (r: bool)
    ensures
        r == fillable(template@, json@),
{
    let t: Vec<char> = chars_of(template);
    let v: Vec<UseTag> = match read_uses(&t) {
        Some(v) => v,
        None => {
            return false;
        },
    };
    let ghost all = use_views(v@);
    if !check_apart(&v) {
        return false;
    }
    if v.len() == 0 {
        return true;
    }
    let s: Vec<char> = chars_of(json);
    if !check_escapes(&s) {
        return false;
    }
    let mut i: usize = 0;
    while i < v.len()
        invariant
            i <= v@.len(),
            all == use_views(v@),
            uses_of(template@) == Some(all),
            s@ == json@,
            forall|k: int| 0 <= k < i ==> use_fits(#[trigger] all[k], json@),
        decreases v@.len() - i,
    {
        if !check_use(&v[i], &s) {
            assert(!use_fits(all[i as int], json@));
            return false;
        }
        i = i + 1;
    }
    true
}

} // verus!

//! What the lines of a kernel compute.
//!
//! A line is read as the compiler reads it: a declaration or an assignment of a local, whose value
//! is an operator between two locals of the base field, or a call of one of the functions on
//! extension elements.
use vstd::prelude::*;

use crate::exps::emit::{compute_text, decl_text, dst_text, op_sign, op_word, value_text};
use crate::exps::ir::{operand_dim, Instr, Op, Operand};
use crate::setup::keys::lemma_dec_value;
use crate::text::dec;

verus! {

/// The value of a local: an element of the base field, or of its cubic extension.
pub enum Element {
    Base(int),
    Cubic(int, int, int),
}

/// Sum, difference and product of the field, before reduction. Elements of the base field are
/// extension elements with two zeros; the extension is by a root of `x^3 - x - 1`.
#[verifier::opaque]
pub open spec fn applied(op: Op, a: (int, int, int), b: (int, int, int)) -> (int, int, int) {
    match op {
        Op::Add => (a.0 + b.0, a.1 + b.1, a.2 + b.2),
        Op::Sub => (a.0 - b.0, a.1 - b.1, a.2 - b.2),
        Op::Mul => (
            a.0 * b.0 + a.1 * b.2 + a.2 * b.1,
            a.0 * b.1 + a.1 * b.0 + a.1 * b.2 + a.2 * b.1 + a.2 * b.2,
            a.0 * b.2 + a.2 * b.0 + a.1 * b.1 + a.2 * b.2,
        ),
    }
}

/// A value as an extension element.
pub open spec fn lifted(v: Element) -> (int, int, int) {
    match v {
        Element::Base(x) => (x, 0, 0),
        Element::Cubic(x, y, z) => (x, y, z),
    }
}

/// Coordinates of a value.
pub open spec fn dim_of(v: Element) -> nat {
    match v {
        Element::Base(_) => 1,
        Element::Cubic(_, _, _) => 3,
    }
}

/// The value of `a op b`: in the base field where both are.
pub open spec fn combined(op: Op, a: Element, b: Element) -> Element {
    let r = applied(op, lifted(a), lifted(b));
    if a is Base && b is Base {
        Element::Base(r.0)
    } else {
        Element::Cubic(r.0, r.1, r.2)
    }
}

/// The position of the first such character, or the length.
pub open spec fn find(s: Seq<char>, c: char) -> nat
    decreases s.len(),
{
    if s.len() == 0 || s[0] == c {
        0
    } else {
        1 + find(s.skip(1), c)
    }
}

/// What stands before the first such character.
pub open spec fn head(s: Seq<char>, c: char) -> Seq<char> {
    s.take(find(s, c) as int)
}

/// What stands behind the first such character.
pub open spec fn tail(s: Seq<char>, c: char) -> Seq<char> {
    if find(s, c) < s.len() {
        s.skip((find(s, c) + 1) as int)
    } else {
        Seq::empty()
    }
}

/// The operation of an operator.
pub open spec fn sign_op(s: Seq<char>) -> Option<Op> {
    if s == seq!['+'] {
        Some(Op::Add)
    } else if s == seq!['-'] {
        Some(Op::Sub)
    } else if s == seq!['*'] {
        Some(Op::Mul)
    } else {
        None
    }
}

/// The operation of a function on extension elements.
pub open spec fn word_op(s: Seq<char>) -> Option<Op> {
    if s == seq!['c', 'g', '_', 'a', 'd', 'd'] {
        Some(Op::Add)
    } else if s == seq!['c', 'g', '_', 's', 'u', 'b'] {
        Some(Op::Sub)
    } else if s == seq!['c', 'g', '_', 'm', 'u', 'l'] {
        Some(Op::Mul)
    } else {
        None
    }
}

/// The coordinates that a digit in a function's name asks for.
pub open spec fn digit_dim(c: char) -> nat {
    if c == '1' {
        1
    } else if c == '3' {
        3
    } else {
        0
    }
}

/// The locals and their values.
pub type Locals = Map<Seq<char>, Element>;

/// The value of `x sign y` between locals of the base field.
pub open spec fn operator_value(x: Seq<char>, sign: Seq<char>, y: Seq<char>, env: Locals) -> Option<
    Element,
> {
    match sign_op(sign) {
        Some(op) => if env.dom().contains(x) && env.dom().contains(y) && env[x] is Base
            && env[y] is Base {
            Some(combined(op, env[x], env[y]))
        } else {
            None
        },
        None => None,
    }
}

/// The value of `f(x,y)`: there is a function for each operation and each two kinds of arguments of
/// which one is an extension element, and its name ends in their coordinates.
pub open spec fn call_value(f: Seq<char>, x: Seq<char>, y: Seq<char>, env: Locals) -> Option<
    Element,
> {
    if f.len() != 8 || !env.dom().contains(x) || !env.dom().contains(y) || (env[x] is Base
        && env[y] is Base) || digit_dim(f[6]) != dim_of(env[x]) || digit_dim(f[7]) != dim_of(
        env[y],
    ) {
        None
    } else {
        match word_op(f.take(6)) {
            Some(op) => Some(combined(op, env[x], env[y])),
            None => None,
        }
    }
}

/// The value of an expression.
pub open spec fn expression_value(e: Seq<char>, env: Locals) -> Option<Element> {
    if find(e, '(') < e.len() {
        let args = tail(e, '(');
        call_value(head(e, '('), head(args, ','), head(tail(args, ','), ')'), env)
    } else {
        let rest = tail(e, ' ');
        operator_value(head(e, ' '), head(rest, ' '), tail(rest, ' '), env)
    }
}

/// The coordinates of a type, nothing where the word is none.
pub open spec fn type_dim(w: Seq<char>) -> Option<nat> {
    if w == seq!['g', 'l', '6', '4', '_', 't'] {
        Some(1)
    } else if w == seq!['g', '3'] {
        Some(3)
    } else {
        None
    }
}

/// The local that a line assigns, and the value it gets; nothing where the line does not compile. A
/// local is declared once, with a type in front of it, and has values of that type.
pub open spec fn assigned(line: Seq<char>, env: Locals) -> Option<(Seq<char>, Element)> {
    let left = head(line.skip(2), '=');
    let right = tail(line.skip(2), '=');
    match expression_value(head(right.skip(1), ';'), env) {
        None => None,
        Some(v) => match type_dim(head(left, ' ')) {
            Some(d) => {
                let name = head(tail(left, ' '), ' ');
                if dim_of(v) == d && !env.dom().contains(name) {
                    Some((name, v))
                } else {
                    None
                }
            },
            None => {
                let name = head(left, ' ');
                if env.dom().contains(name) && dim_of(env[name]) == dim_of(v) {
                    Some((name, v))
                } else {
                    None
                }
            },
        },
    }
}

/// The character does not occur.
pub open spec fn is_free(s: Seq<char>, c: char) -> bool {
    forall|i: int| 0 <= i < s.len() ==> #[trigger] s[i] != c
}

proof fn lemma_find(a: Seq<char>, c: char, b: Seq<char>)
    requires
        is_free(a, c),
    ensures
        find(a + seq![c] + b, c) == a.len(),
    decreases a.len(),
{
    let s = a + seq![c] + b;
    if a.len() > 0 {
        assert(s[0] == a[0]);
        assert(s.skip(1) =~= a.skip(1) + seq![c] + b);
        assert forall|i: int| 0 <= i < a.skip(1).len() implies #[trigger] a.skip(1)[i] != c by {
            assert(a.skip(1)[i] == a[i + 1]);
        }
        lemma_find(a.skip(1), c, b);
    } else {
        assert(s[0] == c);
    }
}

pub proof fn lemma_absent(a: Seq<char>, c: char)
    requires
        is_free(a, c),
    ensures
        find(a, c) == a.len(),
    decreases a.len(),
{
    if a.len() > 0 {
        assert forall|i: int| 0 <= i < a.skip(1).len() implies #[trigger] a.skip(1)[i] != c by {
            assert(a.skip(1)[i] == a[i + 1]);
        }
        lemma_absent(a.skip(1), c);
    }
}

pub proof fn lemma_split(s: Seq<char>, a: Seq<char>, c: char, b: Seq<char>)
    requires
        is_free(a, c),
        s == a + seq![c] + b,
    ensures
        find(s, c) == a.len(),
        find(s, c) < s.len(),
        head(s, c) == a,
        tail(s, c) == b,
{
    lemma_find(a, c, b);
    assert(head(s, c) =~= a);
    assert(tail(s, c) =~= b);
}

/// A name of a local: letters and digits.
pub open spec fn is_local(s: Seq<char>) -> bool {
    &&& s.len() > 0
    &&& is_free(s, ' ') && is_free(s, '=') && is_free(s, ';') && is_free(s, '(') && is_free(s, ',')
        && is_free(s, ')')
    &&& s[0] != 'g'
}

pub proof fn lemma_numbered(c: char, n: nat)
    requires
        c == 't' || c == 'a' || c == 'b',
    ensures
        is_local(seq![c] + dec(n)),
{
    lemma_dec_value(n);
    let s = seq![c] + dec(n);
    assert forall|i: int| 0 <= i < s.len() implies #[trigger] s[i] == c || crate::parse::is_digit(
        s[i],
    ) by {
        if i > 0 {
            assert(s[i] == dec(n)[i - 1]);
        }
    }
    assert(s[0] == c);
}

/// The local of an operand: a temporary has one of its own, any other operand is loaded into one
/// that is named after its side and the number of the instruction.
pub open spec fn local_of(o: Operand, side: char, idx: nat) -> Seq<char> {
    match o {
        Operand::Tmp { id, dim } => seq!['t'] + dec(id as nat),
        _ => seq![side] + dec(idx),
    }
}

/// The local that an instruction assigns.
pub open spec fn local_assigned(i: Instr) -> Seq<char> {
    if i.dst_is_tmp {
        seq!['t'] + dec(i.dst_id->0 as nat)
    } else {
        seq!['q', 'q']
    }
}

/// The instruction is typed: its operands are locals with as many coordinates as it says, its
/// result is an extension element where one of them is, and its temporary is a local exactly where
/// it was declared.
pub open spec fn is_typed(i: Instr, declared: Set<u64>, env: Locals) -> bool {
    let a = local_of(i.a, 'a', i.idx as nat);
    let b = local_of(i.b, 'b', i.idx as nat);
    let d = local_assigned(i);
    &&& env.dom().contains(a) && dim_of(env[a]) == operand_dim(i.a)
    &&& env.dom().contains(b) && dim_of(env[b]) == operand_dim(i.b)
    &&& i.ddim == if operand_dim(i.a) == 1 && operand_dim(i.b) == 1 {
        1u64
    } else {
        3
    }
    &&& i.dst_is_tmp ==> i.dst_id is Some && (declared.contains(i.dst_id->0)
        <==> env.dom().contains(d))
    &&& !i.dst_is_tmp ==> !env.dom().contains(d)
    &&& env.dom().contains(d) ==> dim_of(env[d]) == i.ddim
}

proof fn lemma_texts(i: Instr, declared: Set<u64>)
    ensures
        value_text(i.a, "a"@, i.idx as nat) == local_of(i.a, 'a', i.idx as nat),
        value_text(i.b, "b"@, i.idx as nat) == local_of(i.b, 'b', i.idx as nat),
        dst_text(i) == local_assigned(i),
        is_local(local_of(i.a, 'a', i.idx as nat)),
        is_local(local_of(i.b, 'b', i.idx as nat)),
        is_local(local_assigned(i)),
{
    reveal_strlit("t");
    reveal_strlit("a");
    reveal_strlit("b");
    reveal_strlit("qq");
    assert("t"@ =~= seq!['t']);
    assert("a"@ =~= seq!['a']);
    assert("b"@ =~= seq!['b']);
    assert("qq"@ =~= seq!['q', 'q']);
    lemma_numbered('a', i.idx as nat);
    lemma_numbered('b', i.idx as nat);
    if let Operand::Tmp { id, dim } = i.a {
        lemma_numbered('t', id as nat);
    }
    if let Operand::Tmp { id, dim } = i.b {
        lemma_numbered('t', id as nat);
    }
    lemma_numbered('t', i.dst_id->0 as nat);
}

/// What stands left of the sign of an assignment.
proof fn lemma_left(decl: Seq<char>, name: Seq<char>, left: Seq<char>)
    requires
        is_local(name),
        decl == Seq::<char>::empty() || decl == seq!['g', 'l', '6', '4', '_', 't', ' '] || decl
            == seq!['g', '3', ' '],
        left == decl + name + seq![' '],
    ensures
        is_free(left, '='),
        decl.len() == 0 ==> type_dim(head(left, ' ')) is None && head(left, ' ') == name,
        decl.len() > 0 ==> head(tail(left, ' '), ' ') == name,
        decl.len() == 7 ==> type_dim(head(left, ' ')) == Some(1nat),
        decl.len() == 3 ==> type_dim(head(left, ' ')) == Some(3nat),
{
    assert forall|k: int| 0 <= k < left.len() implies #[trigger] left[k] != '=' by {
        if k < decl.len() {
            assert(left[k] == decl[k]);
        } else if k < decl.len() + name.len() {
            assert(left[k] == name[k - decl.len()]);
        } else {
            assert(left[k] == ' ');
        }
    }
    let none = Seq::<char>::empty();
    let rest = name + seq![' '];
    assert(rest =~= name + seq![' '] + none);
    lemma_split(rest, name, ' ', none);
    if decl.len() == 0 {
        assert(left =~= rest);
        let gl = seq!['g', 'l', '6', '4', '_', 't'];
        let g3 = seq!['g', '3'];
        assert(gl[0] == 'g' && g3[0] == 'g');
    } else {
        let ty = decl.drop_last();
        assert(left =~= ty + seq![' '] + rest);
        lemma_split(left, ty, ' ', rest);
        if decl.len() == 7 {
            assert(ty =~= seq!['g', 'l', '6', '4', '_', 't']);
        } else {
            assert(ty =~= seq!['g', '3']);
            let gl = seq!['g', 'l', '6', '4', '_', 't'];
            assert(gl.len() == 6 && ty.len() == 2);
        }
    }
}

proof fn lemma_decl(i: Instr, declared: Set<u64>)
    ensures
        ({
            let d = decl_text(i, declared);
            &&& i.dst_is_tmp && declared.contains(i.dst_id->0) ==> d == Seq::<char>::empty()
            &&& !(i.dst_is_tmp && declared.contains(i.dst_id->0)) && i.ddim == 1 ==> d == seq![
                'g',
                'l',
                '6',
                '4',
                '_',
                't',
                ' ',
            ]
            &&& !(i.dst_is_tmp && declared.contains(i.dst_id->0)) && i.ddim != 1 ==> d == seq![
                'g',
                '3',
                ' ',
            ]
        }),
{
    reveal_strlit("");
    reveal_strlit("gl64_t ");
    reveal_strlit("g3 ");
    assert(""@ =~= Seq::<char>::empty());
    assert("gl64_t "@ =~= seq!['g', 'l', '6', '4', '_', 't', ' ']);
    assert("g3 "@ =~= seq!['g', '3', ' ']);
}

/// What stands right of the sign of an assignment in the base field.
proof fn lemma_operator(x: Seq<char>, op: Op, y: Seq<char>, e: Seq<char>, env: Locals)
    requires
        is_local(x),
        is_local(y),
        e == x + seq![' '] + (op_sign(op) + seq![' '] + y),
    ensures
        is_free(e, ';'),
        expression_value(e, env) == operator_value(x, op_sign(op), y, env),
        sign_op(op_sign(op)) == Some(op),
{
    reveal_strlit("+");
    reveal_strlit("-");
    reveal_strlit("*");
    assert("+"@ =~= seq!['+']);
    assert("-"@ =~= seq!['-']);
    assert("*"@ =~= seq!['*']);
    let s = op_sign(op);
    let (plus, minus, times) = (seq!['+'], seq!['-'], seq!['*']);
    assert(plus[0] == '+' && minus[0] == '-' && times[0] == '*');
    assert(s.len() == 1 && (s[0] == '+' || s[0] == '-' || s[0] == '*'));
    let rest = s + seq![' '] + y;
    assert forall|k: int| 0 <= k < e.len() implies #[trigger] e[k] != ';' && e[k] != '(' by {
        if k < x.len() {
            assert(e[k] == x[k]);
        } else if k > x.len() {
            assert(e[k] == rest[k - x.len() - 1]);
            if k > x.len() + 2 {
                assert(e[k] == y[k - x.len() - 3]);
            }
        }
    }
    lemma_absent(e, '(');
    lemma_split(e, x, ' ', rest);
    lemma_split(rest, s, ' ', y);
}

/// What stands right of the sign of an assignment in the extension.
proof fn lemma_call(
    x: Seq<char>,
    op: Op,
    p: nat,
    q: nat,
    y: Seq<char>,
    e: Seq<char>,
    env: Locals,
)
    requires
        is_local(x),
        is_local(y),
        p == 1 || p == 3,
        q == 1 || q == 3,
        e == (seq!['c', 'g', '_'] + op_word(op) + dec(p) + dec(q)) + seq!['('] + (x + seq![','] + (y
            + seq![')'])),
    ensures
        is_free(e, ';'),
        env.dom().contains(x) && env.dom().contains(y) && dim_of(env[x]) == p && dim_of(env[y]) == q
            && p + q > 2 ==> expression_value(e, env) == Some(combined(op, env[x], env[y])),
{
    reveal_strlit("add");
    reveal_strlit("sub");
    reveal_strlit("mul");
    assert("add"@ =~= seq!['a', 'd', 'd']);
    assert("sub"@ =~= seq!['s', 'u', 'b']);
    assert("mul"@ =~= seq!['m', 'u', 'l']);
    assert(dec(1) =~= seq!['1']);
    assert(dec(3) =~= seq!['3']);
    let f = seq!['c', 'g', '_'] + op_word(op) + dec(p) + dec(q);
    let add = seq!['c', 'g', '_', 'a', 'd', 'd'];
    let sub = seq!['c', 'g', '_', 's', 'u', 'b'];
    let mul = seq!['c', 'g', '_', 'm', 'u', 'l'];
    assert(add[3] == 'a' && sub[3] == 's' && mul[3] == 'm');
    assert(f.len() == 8);
    match op {
        Op::Add => assert(f.take(6) =~= add),
        Op::Sub => assert(f.take(6) =~= sub),
        Op::Mul => assert(f.take(6) =~= mul),
    }
    assert(f[6] == dec(p)[0] && f[7] == dec(q)[0]);
    let w = f.take(6);
    assert forall|k: int| 0 <= k < 8 implies #[trigger] f[k] != ';' && f[k] != '(' by {
        if k < 6 {
            assert(f[k] == w[k]);
        }
    }
    let none = Seq::<char>::empty();
    let last = y + seq![')'];
    let args = x + seq![','] + last;
    assert forall|k: int| 0 <= k < e.len() implies #[trigger] e[k] != ';' by {
        if k < 8 {
            assert(e[k] == f[k]);
        } else if k > 8 {
            assert(e[k] == args[k - 9]);
            let m = k - 9;
            if m < x.len() {
                assert(args[m] == x[m]);
            } else if m > x.len() {
                assert(args[m] == last[m - x.len() - 1]);
                if m - x.len() - 1 < y.len() {
                    assert(args[m] == y[m - x.len() - 1]);
                }
            }
        }
    }
    lemma_split(e, f, '(', args);
    lemma_split(args, x, ',', last);
    assert(last =~= y + seq![')'] + none);
    lemma_split(last, y, ')', none);
}

proof fn lemma_base_line(
    decl: Seq<char>,
    name: Seq<char>,
    x: Seq<char>,
    sign: Seq<char>,
    y: Seq<char>,
    line: Seq<char>,
)
    requires
        line == "  "@ + decl + name + " = "@ + x + " "@ + sign + " "@ + y + ";"@,
    ensures
        line.skip(2) == (decl + name + seq![' ']) + seq!['='] + (seq![' '] + (x + seq![' '] + (sign
            + seq![' '] + y)) + seq![';']),
{
    reveal_strlit("  ");
    reveal_strlit(" = ");
    reveal_strlit(" ");
    reveal_strlit(";");
    assert("  "@ =~= seq![' ', ' ']);
    assert(" = "@ =~= seq![' '] + seq!['='] + seq![' ']);
    assert(" "@ =~= seq![' ']);
    assert(";"@ =~= seq![';']);
    let b = seq![' '];
    let q = seq!['='];
    let rest = decl + name + (b + q + b) + x + b + sign + b + y + seq![';'];
    assert(line =~= seq![' ', ' '] + rest);
    assert(line.skip(2) =~= rest);
    assert(rest =~= (decl + name + b) + q + (b + (x + b + (sign + b + y)) + seq![';']));
}

proof fn lemma_cubic_line(
    decl: Seq<char>,
    name: Seq<char>,
    w: Seq<char>,
    p: Seq<char>,
    q: Seq<char>,
    x: Seq<char>,
    y: Seq<char>,
    line: Seq<char>,
)
    requires
        line == "  "@ + decl + name + " = cg_"@ + w + p + q + "("@ + x + ","@ + y + ");"@,
    ensures
        line.skip(2) == (decl + name + seq![' ']) + seq!['='] + (seq![' '] + ((seq!['c', 'g', '_']
            + w + p + q) + seq!['('] + (x + seq![','] + (y + seq![')']))) + seq![';']),
{
    reveal_strlit("  ");
    reveal_strlit(" = cg_");
    reveal_strlit("(");
    reveal_strlit(",");
    reveal_strlit(");");
    let b = seq![' '];
    let eq = seq!['='];
    let cg = seq!['c', 'g', '_'];
    assert("  "@ =~= seq![' ', ' ']);
    assert(" = cg_"@ =~= b + eq + b + cg);
    assert("("@ =~= seq!['(']);
    assert(","@ =~= seq![',']);
    assert(");"@ =~= seq![')'] + seq![';']);
    let rest = decl + name + (b + eq + b + cg) + w + p + q + seq!['('] + x + seq![','] + y + (seq![
        ')',
    ] + seq![';']);
    assert(line =~= seq![' ', ' '] + rest);
    assert(line.skip(2) =~= rest);
    assert(rest =~= (decl + name + b) + eq + (b + ((cg + w + p + q) + seq!['('] + (x + seq![',']
        + (y + seq![')']))) + seq![';']));
}

proof fn lemma_assigned(
    line: Seq<char>,
    decl: Seq<char>,
    name: Seq<char>,
    e: Seq<char>,
    v: Element,
    env: Locals,
)
    requires
        is_local(name),
        decl == Seq::<char>::empty() || decl == seq!['g', 'l', '6', '4', '_', 't', ' '] || decl
            == seq!['g', '3', ' '],
        line.skip(2) == (decl + name + seq![' ']) + seq!['='] + (seq![' '] + e + seq![';']),
        is_free(e, ';'),
        expression_value(e, env) == Some(v),
        decl.len() == 0 ==> env.dom().contains(name) && dim_of(env[name]) == dim_of(v),
        decl.len() > 0 ==> !env.dom().contains(name),
        decl.len() == 7 ==> dim_of(v) == 1,
        decl.len() == 3 ==> dim_of(v) == 3,
    ensures
        assigned(line, env) == Some((name, v)),
{
    let left = decl + name + seq![' '];
    let right = seq![' '] + e + seq![';'];
    let none = Seq::<char>::empty();
    lemma_left(decl, name, left);
    lemma_split(line.skip(2), left, '=', right);
    assert(right.skip(1) =~= e + seq![';'] + none);
    lemma_split(right.skip(1), e, ';', none);
}

proof fn lemma_base_instruction(i: Instr, declared: Set<u64>, env: Locals)
    requires
        is_typed(i, declared, env),
        i.ddim == 1,
    ensures
        assigned(compute_text(i, declared), env) == Some(
            (
                local_assigned(i),
                combined(
                    i.op,
                    env[local_of(i.a, 'a', i.idx as nat)],
                    env[local_of(i.b, 'b', i.idx as nat)],
                ),
            ),
        ),
{
    let x = local_of(i.a, 'a', i.idx as nat);
    let y = local_of(i.b, 'b', i.idx as nat);
    let name = local_assigned(i);
    let decl = decl_text(i, declared);
    let line = compute_text(i, declared);
    lemma_texts(i, declared);
    lemma_decl(i, declared);
    let e = x + seq![' '] + (op_sign(i.op) + seq![' '] + y);
    lemma_base_line(decl, name, x, op_sign(i.op), y, line);
    lemma_operator(x, i.op, y, e, env);
    lemma_assigned(line, decl, name, e, combined(i.op, env[x], env[y]), env);
}

proof fn lemma_cubic_instruction(i: Instr, declared: Set<u64>, env: Locals)
    requires
        is_typed(i, declared, env),
        i.ddim == 3,
    ensures
        assigned(compute_text(i, declared), env) == Some(
            (
                local_assigned(i),
                combined(
                    i.op,
                    env[local_of(i.a, 'a', i.idx as nat)],
                    env[local_of(i.b, 'b', i.idx as nat)],
                ),
            ),
        ),
{
    let x = local_of(i.a, 'a', i.idx as nat);
    let y = local_of(i.b, 'b', i.idx as nat);
    let name = local_assigned(i);
    let decl = decl_text(i, declared);
    let line = compute_text(i, declared);
    lemma_texts(i, declared);
    lemma_decl(i, declared);
    let p = operand_dim(i.a) as nat;
    let q = operand_dim(i.b) as nat;
    let e = (seq!['c', 'g', '_'] + op_word(i.op) + dec(p) + dec(q)) + seq!['('] + (x + seq![',']
        + (y + seq![')']));
    lemma_cubic_line(decl, name, op_word(i.op), dec(p), dec(q), x, y, line);
    lemma_call(x, i.op, p, q, y, e, env);
    lemma_assigned(line, decl, name, e, combined(i.op, env[x], env[y]), env);
}

/// The line of an instruction assigns to its destination what the operation gives on the values of
/// its operands, the first one on the left: a sum, a difference or a product, in the extension
/// where one of them is an extension element.
pub proof fn law_instruction_computes(i: Instr, declared: Set<u64>, env: Locals)
    requires
        is_typed(i, declared, env),
    ensures
        assigned(compute_text(i, declared), env) == Some(
            (
                local_assigned(i),
                combined(
                    i.op,
                    env[local_of(i.a, 'a', i.idx as nat)],
                    env[local_of(i.b, 'b', i.idx as nat)],
                ),
            ),
        ),
{
    if i.ddim == 1 {
        lemma_base_instruction(i, declared, env);
    } else {
        lemma_cubic_instruction(i, declared, env);
    }
}

} // verus!

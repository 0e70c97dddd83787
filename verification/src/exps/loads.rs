//! What the lines of a kernel load.
use vstd::prelude::*;

use crate::exps::emit::{cell_text, layout_name, load_text, row_text, single_text, triple_text};
use crate::exps::ir::Operand;
use crate::exps::meaning::{
    find, head, is_free, is_local, lemma_absent, lemma_split, tail, type_dim, Element,
};
use crate::parse::digits_value;
use crate::setup::keys::lemma_dec_value;
use crate::text::dec;

verus! {

/// The words in memory, by the expressions that name them.
pub type Memory = spec_fn(Seq<char>) -> int;

/// The expression that is assigned to a coordinate of a local.
pub open spec fn coordinate(s: Seq<char>, name: Seq<char>, c: char) -> Option<Seq<char>> {
    if head(s, '=') == seq![' '] + name + seq!['.', c] {
        Some(head(tail(s, '='), ';'))
    } else {
        None
    }
}

/// The local that a line loads, and its value: a number, a word of memory, or three words for the
/// coordinates `a`, `b` and `c` of an extension element.
pub open spec fn loaded(line: Seq<char>, mem: Memory) -> Option<(Seq<char>, Element)> {
    let body = tail(line.skip(2), ' ');
    match type_dim(head(line.skip(2), ' ')) {
        Some(d) => if d == 1 {
            if find(body, '=') < body.len() {
                Some(
                    (head(body, ' '), Element::Base(mem(head(tail(body, '=').skip(1), ';')))),
                )
            } else {
                Some(
                    (
                        head(body, '('),
                        Element::Base(
                            digits_value(head(tail(tail(body, '('), '('), 'u')) as int,
                        ),
                    ),
                )
            }
        } else {
            let name = head(body, ';');
            let s = tail(body, ';');
            let t = tail(s, ';');
            let u = tail(t, ';');
            match (coordinate(s, name, 'a'), coordinate(t, name, 'b'), coordinate(u, name, 'c')) {
                (Some(a), Some(b), Some(c)) => Some((name, Element::Cubic(mem(a), mem(b), mem(c)))),
                _ => None,
            }
        },
        None => None,
    }
}

proof fn lemma_free_add(a: Seq<char>, b: Seq<char>, c: char)
    requires
        is_free(a, c),
        is_free(b, c),
    ensures
        is_free(a + b, c),
{
    let s = a + b;
    assert forall|i: int| 0 <= i < s.len() implies #[trigger] s[i] != c by {
        if i < a.len() {
            assert(s[i] == a[i]);
        } else {
            assert(s[i] == b[i - a.len()]);
        }
    }
}

proof fn lemma_free_dec(n: nat)
    ensures
        is_free(dec(n), ';'),
        is_free(dec(n), '='),
        is_free(dec(n), 'u'),
        digits_value(dec(n)) == n,
{
    lemma_dec_value(n);
    let d = dec(n);
    assert forall|i: int| 0 <= i < d.len() implies #[trigger] d[i] != ';' && d[i] != '=' && d[i]
        != 'u' by {
        assert(crate::parse::is_digit(d[i]));
    }
}

/// One word.
proof fn lemma_single(line: Seq<char>, name: Seq<char>, e: Seq<char>, mem: Memory)
    requires
        is_local(name),
        is_free(e, ';'),
        line == "  gl64_t "@ + name + " = "@ + e + ";"@,
    ensures
        loaded(line, mem) == Some((name, Element::Base(mem(e)))),
{
    reveal_strlit("  gl64_t ");
    reveal_strlit(" = ");
    reveal_strlit(";");
    let ty = seq!['g', 'l', '6', '4', '_', 't'];
    let b = seq![' '];
    let none = Seq::<char>::empty();
    assert("  gl64_t "@ =~= seq![' ', ' '] + ty + b);
    assert(" = "@ =~= b + seq!['='] + b);
    assert(";"@ =~= seq![';']);
    let right = b + e + seq![';'];
    let body = name + b + seq!['='] + right;
    assert(line =~= seq![' ', ' '] + (ty + b + body));
    assert(line.skip(2) =~= ty + b + body);
    lemma_split(line.skip(2), ty, ' ', body);
    lemma_free_add(name, b, '=');
    lemma_split(body, name + b, '=', right);
    assert(body =~= name + b + (seq!['='] + right));
    lemma_split(body, name, ' ', seq!['='] + right);
    assert(right.skip(1) =~= e + seq![';'] + none);
    lemma_split(right.skip(1), e, ';', none);
}

proof fn lemma_number_free(name: Seq<char>, v: nat)
    requires
        is_local(name),
    ensures
        is_free(
            name + seq!['('] + (seq!['u', 'i', 'n', 't', '6', '4', '_', 't'] + seq!['('] + (dec(v)
                + seq!['u'] + seq!['l', 'l', ')', ')', ';'])),
            '=',
        ),
{
    let open = seq!['('];
    let word = seq!['u', 'i', 'n', 't', '6', '4', '_', 't'];
    let end = seq!['l', 'l', ')', ')', ';'];
    let num = dec(v) + seq!['u'] + end;
    lemma_free_dec(v);
    lemma_free_add(dec(v), seq!['u'], '=');
    lemma_free_add(dec(v) + seq!['u'], end, '=');
    lemma_free_add(word, open, '=');
    lemma_free_add(word + open, num, '=');
    lemma_free_add(name, open, '=');
    lemma_free_add(name + open, word + open + num, '=');
}

proof fn lemma_number_shape(line: Seq<char>, name: Seq<char>, d: Seq<char>)
    requires
        line == "  gl64_t "@ + name + "(uint64_t("@ + d + "ull));"@,
    ensures
        line.skip(2) == seq!['g', 'l', '6', '4', '_', 't'] + seq![' '] + (name + seq!['('] + (seq![
            'u',
            'i',
            'n',
            't',
            '6',
            '4',
            '_',
            't',
        ] + seq!['('] + (d + seq!['u'] + seq!['l', 'l', ')', ')', ';']))),
{
    reveal_strlit("  gl64_t ");
    reveal_strlit("(uint64_t(");
    reveal_strlit("ull));");
    let pre = seq![' ', ' '];
    let ty = seq!['g', 'l', '6', '4', '_', 't'];
    let b = seq![' '];
    let open = seq!['('];
    let word = seq!['u', 'i', 'n', 't', '6', '4', '_', 't'];
    let u = seq!['u'];
    let end = seq!['l', 'l', ')', ')', ';'];
    assert("  gl64_t "@ =~= pre + ty + b);
    assert("(uint64_t("@ =~= open + word + open);
    assert("ull));"@ =~= u + end);
    lemma_number_cat(pre, ty, b, name, open, word, d, u, end);
    assert(line == pre + (ty + b + (name + open + (word + open + (d + u + end)))));
    assert(line.skip(2) =~= ty + b + (name + open + (word + open + (d + u + end))));
}

proof fn lemma_number_cat(
    pre: Seq<char>,
    ty: Seq<char>,
    b: Seq<char>,
    name: Seq<char>,
    open: Seq<char>,
    word: Seq<char>,
    d: Seq<char>,
    u: Seq<char>,
    end: Seq<char>,
)
    ensures
        (pre + ty + b) + name + (open + word + open) + d + (u + end) == pre + (ty + b + (name + open
            + (word + open + (d + u + end)))),
{
    assert((pre + ty + b) + name + (open + word + open) + d + (u + end) =~= pre + (ty + b + (name
        + open + (word + open + (d + u + end)))));
}

proof fn lemma_number_words()
    ensures
        is_free(seq!['u', 'i', 'n', 't', '6', '4', '_', 't'], '('),
        is_free(seq!['g', 'l', '6', '4', '_', 't'], ' '),
        type_dim(seq!['g', 'l', '6', '4', '_', 't']) == Some(1nat),
        is_free(seq!['g', '3'], ' '),
        type_dim(seq!['g', '3']) == Some(3nat),
{
    let ty = seq!['g', '3'];
    let gl = seq!['g', 'l', '6', '4', '_', 't'];
    assert(gl.len() == 6 && ty.len() == 2);
}

proof fn lemma_number_parse(
    line: Seq<char>,
    ty: Seq<char>,
    name: Seq<char>,
    word: Seq<char>,
    d: Seq<char>,
    end: Seq<char>,
    mem: Memory,
)
    requires
        is_local(name),
        is_free(ty, ' '),
        type_dim(ty) == Some(1nat),
        is_free(word, '('),
        is_free(d, 'u'),
        is_free(name + seq!['('] + (word + seq!['('] + (d + seq!['u'] + end)), '='),
        line.skip(2) == ty + seq![' '] + (name + seq!['('] + (word + seq!['('] + (d + seq!['u']
            + end))),
    ensures
        loaded(line, mem) == Some((name, Element::Base(digits_value(d) as int))),
{
    let num = d + seq!['u'] + end;
    let inner = word + seq!['('] + num;
    let body = name + seq!['('] + inner;
    lemma_split(line.skip(2), ty, ' ', body);
    lemma_absent(body, '=');
    lemma_split(body, name, '(', inner);
    lemma_split(inner, word, '(', num);
    lemma_split(num, d, 'u', end);
}

/// A number.
proof fn lemma_number(line: Seq<char>, name: Seq<char>, v: nat, mem: Memory)
    requires
        is_local(name),
        line == "  gl64_t "@ + name + "(uint64_t("@ + dec(v) + "ull));"@,
    ensures
        loaded(line, mem) == Some((name, Element::Base(v as int))),
{
    lemma_number_shape(line, name, dec(v));
    lemma_number_free(name, v);
    lemma_free_dec(v);
    lemma_number_words();
    lemma_number_parse(
        line,
        seq!['g', 'l', '6', '4', '_', 't'],
        name,
        seq!['u', 'i', 'n', 't', '6', '4', '_', 't'],
        dec(v),
        seq!['l', 'l', ')', ')', ';'],
        mem,
    );
}

proof fn lemma_coordinate(s: Seq<char>, name: Seq<char>, c: char, e: Seq<char>, rest: Seq<char>)
    requires
        is_local(name),
        c == 'a' || c == 'b' || c == 'c',
        is_free(e, ';'),
        s == seq![' '] + name + seq!['.', c] + seq!['='] + e + seq![';'] + rest,
    ensures
        coordinate(s, name, c) == Some(e),
        tail(s, ';') == rest,
{
    let left = seq![' '] + name + seq!['.', c];
    let right = e + seq![';'] + rest;
    lemma_free_add(seq![' '], name, '=');
    lemma_free_add(seq![' '] + name, seq!['.', c], '=');
    assert(s =~= left + seq!['='] + right);
    lemma_split(s, left, '=', right);
    lemma_split(right, e, ';', rest);
    lemma_free_add(seq![' '], name, ';');
    lemma_free_add(seq![' '] + name, seq!['.', c], ';');
    lemma_free_add(left, seq!['='], ';');
    lemma_free_add(left + seq!['='], e, ';');
    lemma_split(s, left + seq!['='] + e, ';', rest);
}

proof fn lemma_next_coordinate(
    x: Seq<char>,
    sep: Seq<char>,
    name: Seq<char>,
    dot: Seq<char>,
    lit: Seq<char>,
    e: Seq<char>,
    rest: Seq<char>,
)
    requires
        sep == seq![';'] + seq![' '],
        lit == dot + seq!['='],
    ensures
        x + sep + name + lit + e + seq![';'] + rest == x + seq![';'] + (seq![' '] + name + dot
            + seq!['='] + e + seq![';'] + rest),
{
    assert(x + sep + name + lit + e + seq![';'] + rest =~= x + seq![';'] + (seq![' '] + name + dot
        + seq!['='] + e + seq![';'] + rest));
}

proof fn lemma_triple_body(
    line: Seq<char>,
    ty: Seq<char>,
    b: Seq<char>,
    name: Seq<char>,
    s: Seq<char>,
)
    requires
        line == (seq![' ', ' '] + (ty + b)) + name + seq![';'] + s,
    ensures
        line.skip(2) == ty + b + (name + seq![';'] + s),
{
    assert(line.skip(2) =~= ty + b + (name + seq![';'] + s));
}

/// What stands behind the name of a local that is loaded by coordinates.
spec fn coordinates(name: Seq<char>, e: Seq<char>, f: Seq<char>, g: Seq<char>) -> Seq<char> {
    let u = seq![' '] + name + seq!['.', 'c'] + seq!['='] + g + seq![';'] + Seq::<char>::empty();
    let t = seq![' '] + name + seq!['.', 'b'] + seq!['='] + f + seq![';'] + u;
    seq![' '] + name + seq!['.', 'a'] + seq!['='] + e + seq![';'] + t
}

proof fn lemma_triple_shape(
    line: Seq<char>,
    name: Seq<char>,
    e: Seq<char>,
    f: Seq<char>,
    g: Seq<char>,
)
    requires
        line == "  g3 "@ + name + "; "@ + name + ".a="@ + e + "; "@ + name + ".b="@ + f + "; "@
            + name + ".c="@ + g + ";"@,
    ensures
        line.skip(2) == seq!['g', '3'] + seq![' '] + (name + seq![';'] + coordinates(
            name,
            e,
            f,
            g,
        )),
{
    reveal_strlit("  g3 ");
    reveal_strlit("; ");
    reveal_strlit(".a=");
    reveal_strlit(".b=");
    reveal_strlit(".c=");
    reveal_strlit(";");
    let ty = seq!['g', '3'];
    let b = seq![' '];
    let semi = seq![';'];
    let eq = seq!['='];
    let none = Seq::<char>::empty();
    let (da, db, dc) = (seq!['.', 'a'], seq!['.', 'b'], seq!['.', 'c']);
    assert("  g3 "@ =~= seq![' ', ' '] + (ty + b));
    assert("; "@ =~= semi + b);
    assert(".a="@ =~= da + eq);
    assert(".b="@ =~= db + eq);
    assert(".c="@ =~= dc + eq);
    assert(";"@ =~= semi);
    let u = b + name + dc + eq + g + semi + none;
    let t = b + name + db + eq + f + semi + u;
    let s = b + name + da + eq + e + semi + t;
    let x = "  g3 "@ + name;
    let y = x + "; "@ + name + ".a="@ + e;
    let z = y + "; "@ + name + ".b="@ + f;
    let l = z + "; "@ + name + ".c="@ + g + semi;
    assert(line == l);
    lemma_cat_nothing(l);
    lemma_next_coordinate(z, "; "@, name, dc, ".c="@, g, none);
    assert(line == z + semi + u);
    lemma_next_coordinate(y, "; "@, name, db, ".b="@, f, u);
    assert(line == y + semi + t);
    lemma_next_coordinate(x, "; "@, name, da, ".a="@, e, t);
    assert(line == x + semi + s);
    lemma_triple_body(line, ty, b, name, s);
}

proof fn lemma_cat_nothing(l: Seq<char>)
    ensures
        l + Seq::<char>::empty() == l,
{
    assert(l + Seq::<char>::empty() =~= l);
}

/// Three words.
proof fn lemma_triple(
    line: Seq<char>,
    name: Seq<char>,
    e: Seq<char>,
    f: Seq<char>,
    g: Seq<char>,
    mem: Memory,
)
    requires
        is_local(name),
        is_free(e, ';'),
        is_free(f, ';'),
        is_free(g, ';'),
        line == "  g3 "@ + name + "; "@ + name + ".a="@ + e + "; "@ + name + ".b="@ + f + "; "@
            + name + ".c="@ + g + ";"@,
    ensures
        loaded(line, mem) == Some((name, Element::Cubic(mem(e), mem(f), mem(g)))),
{
    lemma_triple_shape(line, name, e, f, g);
    lemma_number_words();
    lemma_triple_parse(line, seq!['g', '3'], name, e, f, g, mem);
}

proof fn lemma_triple_parse(
    line: Seq<char>,
    ty: Seq<char>,
    name: Seq<char>,
    e: Seq<char>,
    f: Seq<char>,
    g: Seq<char>,
    mem: Memory,
)
    requires
        is_local(name),
        is_free(e, ';'),
        is_free(f, ';'),
        is_free(g, ';'),
        is_free(ty, ' '),
        type_dim(ty) == Some(3nat),
        line.skip(2) == ty + seq![' '] + (name + seq![';'] + coordinates(name, e, f, g)),
    ensures
        loaded(line, mem) == Some((name, Element::Cubic(mem(e), mem(f), mem(g)))),
{
    let none = Seq::<char>::empty();
    let u = seq![' '] + name + seq!['.', 'c'] + seq!['='] + g + seq![';'] + none;
    let t = seq![' '] + name + seq!['.', 'b'] + seq!['='] + f + seq![';'] + u;
    let s = coordinates(name, e, f, g);
    let body = name + seq![';'] + s;
    lemma_split(line.skip(2), ty, ' ', body);
    lemma_split(body, name, ';', s);
    lemma_coordinate(s, name, 'a', e, t);
    lemma_coordinate(t, name, 'b', f, u);
    lemma_coordinate(u, name, 'c', g, none);
}

/// The expression of a word of an array.
pub open spec fn entry(arr: Seq<char>, i: nat) -> Seq<char> {
    arr + "["@ + dec(i) + "]"@
}

/// The row `stride` rows on, around the end of the domain.
pub open spec fn row_expression(stride: int) -> Seq<char> {
    if stride == 0 {
        "row"@
    } else {
        "((row+("@ + (if stride < 0 {
            "-"@ + dec((-stride) as nat)
        } else {
            dec(stride as nat)
        }) + "ll))&MASK)"@
    }
}

/// The place of column `col` among `n` in a section.
pub open spec fn place_expression(stride: int, col: nat, n: nat, layout: Seq<char>) -> Seq<char> {
    "OFF("@ + row_expression(stride) + ","@ + dec(col) + ",NExt,"@ + dec(n) + ","@ + layout + ")]"@
}

proof fn lemma_entry_free(arr: Seq<char>, i: nat)
    requires
        is_free(arr, ';'),
    ensures
        is_free(entry(arr, i), ';'),
{
    reveal_strlit("[");
    reveal_strlit("]");
    lemma_free_dec(i);
    lemma_free_add(arr, "["@, ';');
    lemma_free_add(arr + "["@, dec(i), ';');
    lemma_free_add(arr + "["@ + dec(i), "]"@, ';');
}

proof fn lemma_entry_line(name: Seq<char>, arr: Seq<char>, i: nat, mem: Memory)
    requires
        is_local(name),
        is_free(arr, ';'),
    ensures
        loaded(single_text(name, arr, i), mem) == Some((name, Element::Base(mem(entry(arr, i))))),
{
    reveal_strlit("];");
    reveal_strlit("]");
    reveal_strlit(";");
    lemma_entry_free(arr, i);
    assert("];"@ =~= "]"@ + ";"@);
    let line = single_text(name, arr, i);
    assert(line =~= "  gl64_t "@ + name + " = "@ + entry(arr, i) + ";"@);
    lemma_single(line, name, entry(arr, i), mem);
}

proof fn lemma_entries_line(name: Seq<char>, arr: Seq<char>, i: nat, mem: Memory)
    requires
        is_local(name),
        is_free(arr, ';'),
    ensures
        loaded(triple_text(name, arr, i), mem) == Some(
            (
                name,
                Element::Cubic(
                    mem(entry(arr, i)),
                    mem(entry(arr, i + 1)),
                    mem(entry(arr, i + 2)),
                ),
            ),
        ),
{
    reveal_strlit("]; ");
    reveal_strlit("];");
    reveal_strlit("]");
    reveal_strlit("; ");
    reveal_strlit(";");
    lemma_entry_free(arr, i);
    lemma_entry_free(arr, i + 1);
    lemma_entry_free(arr, i + 2);
    assert("]; "@ =~= "]"@ + "; "@);
    assert("];"@ =~= "]"@ + ";"@);
    let line = triple_text(name, arr, i);
    assert(line =~= "  g3 "@ + name + "; "@ + name + ".a="@ + entry(arr, i) + "; "@ + name + ".b="@
        + entry(arr, i + 1) + "; "@ + name + ".c="@ + entry(arr, i + 2) + ";"@);
    lemma_triple(
        line,
        name,
        entry(arr, i),
        entry(arr, i + 1),
        entry(arr, i + 2),
        mem,
    );
}

/// The layout of a committed section.
pub open spec fn layout_expression(n_bits: u64, n: u64, tiled: bool) -> Seq<char> {
    if tiled || (n_bits <= 17 && n > 500) {
        "Layout::ColMajorTiled"@
    } else {
        "Layout::ColMajor"@
    }
}

proof fn lemma_layouts_free()
    ensures
        is_free("Layout::ColMajorTiled"@, ';'),
        is_free("Layout::ColMajor"@, ';'),
{
    reveal_strlit("Layout::ColMajorTiled");
    reveal_strlit("Layout::ColMajor");
}

proof fn lemma_place_free(stride: int, col: nat, n: nat, layout: Seq<char>)
    requires
        is_free(layout, ';'),
    ensures
        is_free(place_expression(stride, col, n, layout), ';'),
{
    reveal_strlit("OFF(");
    reveal_strlit("row");
    reveal_strlit("((row+(");
    reveal_strlit("-");
    reveal_strlit("ll))&MASK)");
    reveal_strlit(",");
    reveal_strlit(",NExt,");
    reveal_strlit(")]");
    lemma_free_dec(col);
    lemma_free_dec(n);
    let row = row_expression(stride);
    if stride != 0 {
        if stride < 0 {
            lemma_free_dec((-stride) as nat);
            lemma_free_add("-"@, dec((-stride) as nat), ';');
        } else {
            lemma_free_dec(stride as nat);
        }
        let k = if stride < 0 {
            "-"@ + dec((-stride) as nat)
        } else {
            dec(stride as nat)
        };
        lemma_free_add("((row+("@, k, ';');
        lemma_free_add("((row+("@ + k, "ll))&MASK)"@, ';');
    }
    let a = "OFF("@ + row;
    lemma_free_add("OFF("@, row, ';');
    lemma_free_add(a, ","@, ';');
    lemma_free_add(a + ","@, dec(col), ';');
    lemma_free_add(a + ","@ + dec(col), ",NExt,"@, ';');
    let b = a + ","@ + dec(col) + ",NExt,"@;
    lemma_free_add(b, dec(n), ';');
    lemma_free_add(b + dec(n), ","@, ';');
    lemma_free_add(b + dec(n) + ","@, layout, ';');
    lemma_free_add(b + dec(n) + ","@ + layout, ")]"@, ';');
}

/// The word of a fixed column.
pub open spec fn fixed_word(id: nat, stride: int, n: nat) -> Seq<char> {
    "cst["@ + place_expression(stride, id, n, "Layout::ColMajorTiled"@)
}

/// The word of a column of a committed stage; `sign` is how the two parts of its place are joined.
pub open spec fn committed_word(
    stage: nat,
    sign: Seq<char>,
    col: nat,
    stride: int,
    n: nat,
    layout: Seq<char>,
) -> Seq<char> {
    "aux[off_cm"@ + dec(stage) + sign + place_expression(stride, col, n, layout)
}

/// What the load of an operand, other than a temporary, gives its local.
pub open spec fn operand_value(
    o: Operand,
    n_constants: u64,
    n_bits: u64,
    ncols: Map<u64, u64>,
    tiled: bool,
    mem: Memory,
) -> Element {
    match o {
        Operand::Num(v) => Element::Base(v as int),
        Operand::Zi => Element::Base(mem("aux[off_zi + row]"@)),
        Operand::Pub { id } => Element::Base(mem(entry("pub"@, id as nat))),
        Operand::Ch { base } => three(|k: nat| mem(entry("ch"@, base as nat + k))),
        Operand::Av { pos, dim } => if dim == 1 {
            Element::Base(mem(entry("av"@, pos as nat)))
        } else {
            three(|k: nat| mem(entry("av"@, pos as nat + k)))
        },
        Operand::Agv { pos, dim } => if dim == 1 {
            Element::Base(mem(entry("agv"@, pos as nat)))
        } else {
            three(|k: nat| mem(entry("agv"@, pos as nat + k)))
        },
        Operand::Const { id, stride } => Element::Base(
            mem(fixed_word(id as nat, stride as int, n_constants as nat)),
        ),
        Operand::Cm { stage, pos, dim, stride } => {
            let n = ncols[stage];
            let l = layout_expression(n_bits, n, tiled);
            if dim == 1 {
                Element::Base(
                    mem(
                        committed_word(
                            stage as nat,
                            " + "@,
                            pos as nat,
                            stride as int,
                            n as nat,
                            l,
                        ),
                    ),
                )
            } else {
                three(
                    |k: nat|
                        mem(
                            committed_word(
                                stage as nat,
                                "+"@,
                                pos as nat + k,
                                stride as int,
                                n as nat,
                                l,
                            ),
                        ),
                )
            }
        },
        Operand::Tmp { id, dim } => Element::Base(0),
    }
}

/// The extension element with these coordinates.
pub open spec fn three(f: spec_fn(nat) -> int) -> Element {
    Element::Cubic(f(0), f(1), f(2))
}

proof fn lemma_fixed_line(name: Seq<char>, id: nat, stride: int, n: nat, mem: Memory)
    requires
        is_local(name),
    ensures
        loaded(
            "  gl64_t "@ + name + " = cst["@ + cell_text(
                row_text(stride),
                id,
                n,
                "Layout::ColMajorTiled"@,
            ) + ";"@,
            mem,
        ) == Some((name, Element::Base(mem(fixed_word(id, stride, n))))),
{
    reveal_strlit(" = cst[");
    reveal_strlit(" = ");
    reveal_strlit("cst[");
    lemma_layouts_free();
    let place = place_expression(stride, id, n, "Layout::ColMajorTiled"@);
    lemma_place_free(stride, id, n, "Layout::ColMajorTiled"@);
    assert(row_text(stride) == row_expression(stride));
    assert(cell_text(row_text(stride), id, n, "Layout::ColMajorTiled"@) == place);
    lemma_free_add("cst["@, place, ';');
    assert(" = cst["@ =~= " = "@ + "cst["@);
    let line = "  gl64_t "@ + name + " = cst["@ + place + ";"@;
    assert(line =~= "  gl64_t "@ + name + " = "@ + fixed_word(id, stride, n) + ";"@);
    lemma_single(line, name, fixed_word(id, stride, n), mem);
}

proof fn lemma_committed_free(
    stage: nat,
    sign: Seq<char>,
    col: nat,
    stride: int,
    n: nat,
    layout: Seq<char>,
)
    requires
        is_free(sign, ';'),
        is_free(layout, ';'),
    ensures
        is_free(committed_word(stage, sign, col, stride, n, layout), ';'),
{
    reveal_strlit("aux[off_cm");
    lemma_free_dec(stage);
    lemma_place_free(stride, col, n, layout);
    lemma_free_add("aux[off_cm"@, dec(stage), ';');
    lemma_free_add("aux[off_cm"@ + dec(stage), sign, ';');
    lemma_free_add(
        "aux[off_cm"@ + dec(stage) + sign,
        place_expression(stride, col, n, layout),
        ';',
    );
}

proof fn lemma_committed_line(
    name: Seq<char>,
    stage: nat,
    col: nat,
    stride: int,
    n: nat,
    layout: Seq<char>,
    mem: Memory,
)
    requires
        is_local(name),
        is_free(layout, ';'),
    ensures
        loaded(
            "  gl64_t "@ + name + " = aux[off_cm"@ + dec(stage) + " + "@ + cell_text(
                row_text(stride),
                col,
                n,
                layout,
            ) + ";"@,
            mem,
        ) == Some(
            (name, Element::Base(mem(committed_word(stage, " + "@, col, stride, n, layout)))),
        ),
{
    reveal_strlit(" = aux[off_cm");
    reveal_strlit(" = ");
    reveal_strlit("aux[off_cm");
    reveal_strlit(" + ");
    let place = place_expression(stride, col, n, layout);
    let e = committed_word(stage, " + "@, col, stride, n, layout);
    lemma_committed_free(stage, " + "@, col, stride, n, layout);
    assert(row_text(stride) == row_expression(stride));
    assert(cell_text(row_text(stride), col, n, layout) == place);
    assert(" = aux[off_cm"@ =~= " = "@ + "aux[off_cm"@);
    let line = "  gl64_t "@ + name + " = aux[off_cm"@ + dec(stage) + " + "@ + place + ";"@;
    assert(line =~= "  gl64_t "@ + name + " = "@ + e + ";"@);
    lemma_single(line, name, e, mem);
}

proof fn lemma_joined(
    x: Seq<char>,
    lit: Seq<char>,
    dot: Seq<char>,
    arr: Seq<char>,
    d: Seq<char>,
    plus: Seq<char>,
    p: Seq<char>,
)
    requires
        lit == dot + arr,
    ensures
        x + lit + d + plus + p == x + dot + (arr + d + plus + p),
{
    assert(x + lit + d + plus + p =~= x + dot + (arr + d + plus + p));
}

proof fn lemma_committed_triple(
    name: Seq<char>,
    stage: nat,
    col: nat,
    stride: int,
    n: nat,
    layout: Seq<char>,
    mem: Memory,
)
    requires
        is_local(name),
        is_free(layout, ';'),
    ensures
        loaded(
            "  g3 "@ + name + "; "@ + name + ".a=aux[off_cm"@ + dec(stage) + "+"@ + cell_text(
                row_text(stride),
                col,
                n,
                layout,
            ) + "; "@ + name + ".b=aux[off_cm"@ + dec(stage) + "+"@ + cell_text(
                row_text(stride),
                col + 1,
                n,
                layout,
            ) + "; "@ + name + ".c=aux[off_cm"@ + dec(stage) + "+"@ + cell_text(
                row_text(stride),
                col + 2,
                n,
                layout,
            ) + ";"@,
            mem,
        ) == Some(
            (
                name,
                three(|k: nat| mem(committed_word(stage, "+"@, col + k, stride, n, layout))),
            ),
        ),
{
    reveal_strlit(".a=aux[off_cm");
    reveal_strlit(".b=aux[off_cm");
    reveal_strlit(".c=aux[off_cm");
    reveal_strlit(".a=");
    reveal_strlit(".b=");
    reveal_strlit(".c=");
    reveal_strlit("aux[off_cm");
    reveal_strlit("+");
    let e = committed_word(stage, "+"@, col, stride, n, layout);
    let f = committed_word(stage, "+"@, col + 1, stride, n, layout);
    let g = committed_word(stage, "+"@, col + 2, stride, n, layout);
    lemma_committed_free(stage, "+"@, col, stride, n, layout);
    lemma_committed_free(stage, "+"@, col + 1, stride, n, layout);
    lemma_committed_free(stage, "+"@, col + 2, stride, n, layout);
    assert(row_text(stride) == row_expression(stride));
    let p = place_expression(stride, col, n, layout);
    let q = place_expression(stride, col + 1, n, layout);
    let r = place_expression(stride, col + 2, n, layout);
    assert(".a=aux[off_cm"@ =~= ".a="@ + "aux[off_cm"@);
    assert(".b=aux[off_cm"@ =~= ".b="@ + "aux[off_cm"@);
    assert(".c=aux[off_cm"@ =~= ".c="@ + "aux[off_cm"@);
    let d = dec(stage);
    let arr = "aux[off_cm"@;
    let x = "  g3 "@ + name + "; "@ + name;
    let y = x + ".a=aux[off_cm"@ + d + "+"@ + p;
    lemma_joined(x, ".a=aux[off_cm"@, ".a="@, arr, d, "+"@, p);
    assert(y == x + ".a="@ + e);
    let z = y + "; "@ + name + ".b=aux[off_cm"@ + d + "+"@ + q;
    lemma_joined(y + "; "@ + name, ".b=aux[off_cm"@, ".b="@, arr, d, "+"@, q);
    assert(z == y + "; "@ + name + ".b="@ + f);
    let w = z + "; "@ + name + ".c=aux[off_cm"@ + d + "+"@ + r;
    lemma_joined(z + "; "@ + name, ".c=aux[off_cm"@, ".c="@, arr, d, "+"@, r);
    assert(w == z + "; "@ + name + ".c="@ + g);
    let line = w + ";"@;
    lemma_triple(line, name, e, f, g, mem);
}

proof fn lemma_zi_line(name: Seq<char>, mem: Memory)
    requires
        is_local(name),
    ensures
        loaded("  gl64_t "@ + name + " = aux[off_zi + row];"@, mem) == Some(
            (name, Element::Base(mem("aux[off_zi + row]"@))),
        ),
{
    reveal_strlit(" = aux[off_zi + row];");
    reveal_strlit("aux[off_zi + row]");
    reveal_strlit(" = ");
    reveal_strlit(";");
    let e = "aux[off_zi + row]"@;
    assert(" = aux[off_zi + row];"@ =~= " = "@ + e + ";"@);
    let line = "  gl64_t "@ + name + " = aux[off_zi + row];"@;
    assert(line =~= "  gl64_t "@ + name + " = "@ + e + ";"@);
    lemma_single(line, name, e, mem);
}

/// The line that loads an operand gives its local the operand's value: the number itself, the word
/// of an array or of a column `stride` rows on, or the three words from its position on as the
/// coordinates of an extension element, in order.
pub proof fn law_operand_loaded(
    o: Operand,
    name: Seq<char>,
    n_constants: u64,
    n_bits: u64,
    ncols: Map<u64, u64>,
    tiled: bool,
    mem: Memory,
)
    requires
        is_local(name),
        !(o is Tmp),
    ensures
        loaded(load_text(o, name, n_constants, n_bits, ncols, tiled), mem) == Some(
            (name, operand_value(o, n_constants, n_bits, ncols, tiled, mem)),
        ),
{
    reveal_strlit("pub");
    reveal_strlit("ch");
    reveal_strlit("av");
    reveal_strlit("agv");
    match o {
        Operand::Num(v) => lemma_number(
            load_text(o, name, n_constants, n_bits, ncols, tiled),
            name,
            v as nat,
            mem,
        ),
        Operand::Zi => lemma_zi_line(name, mem),
        Operand::Pub { id } => lemma_entry_line(name, "pub"@, id as nat, mem),
        Operand::Ch { base } => lemma_entries_line(name, "ch"@, base as nat, mem),
        Operand::Av { pos, dim } => {
            lemma_entry_line(name, "av"@, pos as nat, mem);
            lemma_entries_line(name, "av"@, pos as nat, mem);
        },
        Operand::Agv { pos, dim } => {
            lemma_entry_line(name, "agv"@, pos as nat, mem);
            lemma_entries_line(name, "agv"@, pos as nat, mem);
        },
        Operand::Const { id, stride } => lemma_fixed_line(
            name,
            id as nat,
            stride as int,
            n_constants as nat,
            mem,
        ),
        Operand::Cm { stage, pos, dim, stride } => {
            let l = layout_expression(n_bits, ncols[stage], tiled);
            lemma_layouts_free();
            assert(l == layout_name(n_bits, ncols[stage], tiled));
            if dim == 1 {
                lemma_committed_line(
                    name,
                    stage as nat,
                    pos as nat,
                    stride as int,
                    ncols[stage] as nat,
                    l,
                    mem,
                );
            } else {
                lemma_committed_triple(
                    name,
                    stage as nat,
                    pos as nat,
                    stride as int,
                    ncols[stage] as nat,
                    l,
                    mem,
                );
            }
        },
        Operand::Tmp { id, dim } => {},
    }
}

} // verus!

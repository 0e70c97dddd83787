//! The lists that the template of a BN128 verifier circuit walks through.
use vstd::arithmetic::power::pow;
use vstd::arithmetic::power2::pow2;
use vstd::prelude::*;
use vstd::string::StringExecFns;

use crate::circom::bn128_info::{
    are_sizes, challenges_of, full_depth, is_named, levels_of, name_is, or, or_default,
    power_of_two, section_width, sizes_fit, step_bits, tree_depth, CustomCommit, Pol, RowBoundary,
    Sizes, StarkInfo,
};
use crate::circom::json::{
    json_flag, json_list, json_numbers, json_object, push_text, quoted, JsonObject,
};
use crate::exps::emit::{idec, texts};
use crate::field::{eqp, lemma_eqp_mul, lemma_residue_eqp, mulp, residue, GOLDILOCKS_P};
use crate::field_inverse::{inverse, invp, law_inverse_exists, lemma_power_nonzero};
use crate::field_prime::law_no_zero_divisors;
use crate::stark_verifier::domain::powp;
use crate::text::{dec, dec_text, push_dec};

verus! {

/// The name of a stage's section.
pub open spec fn cm_name(stage: nat) -> Seq<char> {
    "cm"@ + dec(stage)
}

/// The width of a stage's section.
pub open spec fn cm_width(info: StarkInfo, stage: nat) -> u64 {
    section_width(info.sections@, cm_name(stage))
}

/// The width of a stage's section.
pub fn stage_width(info: &StarkInfo, stage: u64) -> (r: u64)
    ensures
        r == cm_width(*info, stage as nat),
{
    let mut name: String = "cm".to_owned();
    push_dec(&mut name, stage);
    info.section(name.as_str())
}

/// The stages with challenges, and how many.
pub open spec fn challenge_list(info: StarkInfo, n: nat) -> Seq<Seq<char>>
    decreases n,
{
    if n == 0 {
        Seq::empty()
    } else {
        let before = challenge_list(info, (n - 1) as nat);
        let count = challenges_of(info.challenge_stages@, n as u64);
        if count > 0 {
            before.push(json_object(seq![("stage"@, dec(n)), ("count"@, dec(count))]))
        } else {
            before
        }
    }
}

/// The stages with challenges, and how many.
pub fn challenge_items(info: &StarkInfo, n: u64) -> (r: Vec<String>)
    requires
        n < u64::MAX,
    ensures
        texts(r@) == challenge_list(*info, n as nat),
{
    let mut out: Vec<String> = Vec::new();
    let mut i: u64 = 0;
    assert(texts(out@) =~= Seq::empty());
    while i < n
        invariant
            i <= n,
            n < u64::MAX,
            texts(out@) == challenge_list(*info, i as nat),
        decreases n - i,
    {
        let stage: u64 = i + 1;
        let count: u64 = info.count_challenges(stage);
        if count > 0 {
            let mut o: JsonObject = JsonObject::new();
            o.add_number("stage", stage);
            o.add_number("count", count);
            assert(o@ =~= seq![("stage"@, dec(stage as nat)), ("count"@, dec(count as nat))]);
            push_text(&mut out, o.to_json());
        }
        i = i + 1;
    }
    out
}

/// The stages, with the widths of their sections.
pub open spec fn stage_list(info: StarkInfo, n: nat) -> Seq<Seq<char>> {
    Seq::new(
        n,
        |i: int|
            json_object(
                seq![
                    ("stage"@, dec((i + 1) as nat)),
                    ("cm_section_len"@, dec(cm_width(info, (i + 1) as nat) as nat)),
                    ("has_cm"@, json_flag(cm_width(info, (i + 1) as nat) > 0)),
                ],
            ),
    )
}

/// The stages, with the widths of their sections.
pub fn stage_items(info: &StarkInfo, n: u64) -> (r: Vec<String>)
    requires
        n < u64::MAX,
    ensures
        texts(r@) == stage_list(*info, n as nat),
{
    let ghost all = stage_list(*info, n as nat);
    let mut out: Vec<String> = Vec::new();
    let mut i: u64 = 0;
    assert(texts(out@) =~= all.take(0));
    while i < n
        invariant
            i <= n,
            n < u64::MAX,
            all == stage_list(*info, n as nat),
            texts(out@) == all.take(i as int),
        decreases n - i,
    {
        let width: u64 = stage_width(info, i + 1);
        let mut o: JsonObject = JsonObject::new();
        o.add_number("stage", i + 1);
        o.add_number("cm_section_len", width);
        o.add_flag("has_cm", width > 0);
        assert(o@ =~= seq![
            ("stage"@, dec((i + 1) as nat)),
            ("cm_section_len"@, dec(width as nat)),
            ("has_cm"@, json_flag(width > 0)),
        ]);
        assert(all.take(i + 1) =~= all.take(i as int).push(all[i as int]));
        push_text(&mut out, o.to_json());
        i = i + 1;
    }
    assert(all.take(i as int) =~= all);
    out
}

/// A polynomial.
pub open spec fn pol_json(p: Pol) -> Seq<char> {
    json_object(
        seq![
            ("stage_id"@, dec(or(p.stage_id, 0) as nat)),
            ("dim"@, dec(or(p.dim, 1) as nat)),
            ("stage_pos"@, dec(or(p.stage_pos, 0) as nat)),
        ],
    )
}

/// The polynomials of a stage.
pub open spec fn pol_list(pols: Seq<Pol>, stage: u64) -> Seq<Seq<char>>
    decreases pols.len(),
{
    if pols.len() == 0 {
        Seq::empty()
    } else {
        let before = pol_list(pols.drop_last(), stage);
        if pols.last().stage == Some(stage) {
            before.push(pol_json(pols.last()))
        } else {
            before
        }
    }
}

fn pol_items(pols: &Vec<Pol>, stage: u64) -> (r: Vec<String>)
    ensures
        texts(r@) == pol_list(pols@, stage),
{
    let mut out: Vec<String> = Vec::new();
    let mut i: usize = 0;
    proof {
        assert(pols@.take(0) =~= Seq::empty());
        assert(texts(out@) =~= Seq::empty());
    }
    while i < pols.len()
        invariant
            i <= pols@.len(),
            texts(out@) == pol_list(pols@.take(i as int), stage),
        decreases pols@.len() - i,
    {
        let p: Pol = pols[i];
        proof {
            assert(pols@.take(i + 1).drop_last() =~= pols@.take(i as int));
            assert(pols@.take(i + 1).last() == p);
        }
        let here: bool = match p.stage {
            Some(s) => s == stage,
            None => false,
        };
        if here {
            let mut o: JsonObject = JsonObject::new();
            o.add_number("stage_id", or_default(p.stage_id, 0));
            o.add_number("dim", or_default(p.dim, 1));
            o.add_number("stage_pos", or_default(p.stage_pos, 0));
            assert(o@ =~= seq![
                ("stage_id"@, dec(or(p.stage_id, 0) as nat)),
                ("dim"@, dec(or(p.dim, 1) as nat)),
                ("stage_pos"@, dec(or(p.stage_pos, 0) as nat)),
            ]);
            push_text(&mut out, o.to_json());
        }
        i = i + 1;
    }
    assert(pols@.take(i as int) =~= pols@);
    out
}

/// The polynomials, by stage.
pub open spec fn pols_by_stage(pols: Seq<Pol>, n: nat) -> Seq<Seq<char>> {
    Seq::new(
        n,
        |i: int|
            json_object(
                seq![
                    ("stage"@, dec((i + 1) as nat)),
                    ("pols"@, json_list(pol_list(pols, (i + 1) as u64))),
                ],
            ),
    )
}

/// The polynomials, by stage.
pub fn pols_by_stage_items(pols: &Vec<Pol>, n: u64) -> (r: Vec<String>)
    requires
        n < u64::MAX,
    ensures
        texts(r@) == pols_by_stage(pols@, n as nat),
{
    let ghost all = pols_by_stage(pols@, n as nat);
    let mut out: Vec<String> = Vec::new();
    let mut i: u64 = 0;
    assert(texts(out@) =~= all.take(0));
    while i < n
        invariant
            i <= n,
            n < u64::MAX,
            all == pols_by_stage(pols@, n as nat),
            texts(out@) == all.take(i as int),
        decreases n - i,
    {
        let items: Vec<String> = pol_items(pols, i + 1);
        let mut o: JsonObject = JsonObject::new();
        o.add_number("stage", i + 1);
        o.add_list("pols", &items);
        assert(o@ =~= seq![
            ("stage"@, dec((i + 1) as nat)),
            ("pols"@, json_list(pol_list(pols@, (i + 1) as u64))),
        ]);
        assert(all.take(i + 1) =~= all.take(i as int).push(all[i as int]));
        push_text(&mut out, o.to_json());
        i = i + 1;
    }
    assert(all.take(i as int) =~= all);
    out
}

/// The name of a custom commitment.
pub open spec fn commit_name(c: CustomCommit) -> Seq<char> {
    match c.name {
        Some(n) => n@,
        None => ""@,
    }
}

/// The name of a custom commitment.
pub fn name_of_commit(c: &CustomCommit) -> (r: String)
    ensures
        r@ == commit_name(*c),
{
    match &c.name {
        Some(n) => n.as_str().to_owned(),
        None => "".to_owned(),
    }
}

/// The positions, zero where they are open.
pub open spec fn filled(v: Seq<Option<u64>>) -> Seq<u64> {
    v.map_values(|x: Option<u64>| or(x, 0))
}

fn fill(v: &Vec<Option<u64>>) -> (r: Vec<u64>)
    ensures
        r@ == filled(v@),
{
    let mut out: Vec<u64> = Vec::new();
    let mut i: usize = 0;
    while i < v.len()
        invariant
            i <= v@.len(),
            out@ == filled(v@).take(i as int),
        decreases v@.len() - i,
    {
        out.push(or_default(v[i], 0));
        assert(filled(v@).take(i + 1) =~= filled(v@).take(i as int).push(filled(v@)[i as int]));
        i = i + 1;
    }
    assert(filled(v@).take(i as int) =~= filled(v@));
    out
}

/// The polynomials of a commitment, by stage.
pub open spec fn commit_pols(c: CustomCommit) -> Seq<Seq<char>> {
    Seq::new(
        c.stage_widths as nat,
        |l: int|
            json_object(
                seq![
                    ("stage_idx"@, dec(l as nat)),
                    ("pols"@, json_list(pol_list(c.pols@, l as u64))),
                ],
            ),
    )
}

fn commit_pol_items(c: &CustomCommit) -> (r: Vec<String>)
    ensures
        texts(r@) == commit_pols(*c),
{
    let ghost all = commit_pols(*c);
    let mut out: Vec<String> = Vec::new();
    let mut l: u64 = 0;
    assert(texts(out@) =~= all.take(0));
    while l < c.stage_widths
        invariant
            l <= c.stage_widths,
            all == commit_pols(*c),
            texts(out@) == all.take(l as int),
        decreases c.stage_widths - l,
    {
        let items: Vec<String> = pol_items(&c.pols, l);
        let mut o: JsonObject = JsonObject::new();
        o.add_number("stage_idx", l);
        o.add_list("pols", &items);
        assert(o@ =~= seq![
            ("stage_idx"@, dec(l as nat)),
            ("pols"@, json_list(pol_list(c.pols@, l as u64))),
        ]);
        assert(all.take(l + 1) =~= all.take(l as int).push(all[l as int]));
        push_text(&mut out, o.to_json());
        l = l + 1;
    }
    assert(all.take(l as int) =~= all);
    out
}

/// A custom commitment.
pub open spec fn commit_json(info: StarkInfo, c: CustomCommit) -> Seq<char> {
    json_object(
        seq![
            ("name"@, quoted(commit_name(c))),
            (
                "section_len_0"@,
                dec(section_width(info.sections@, commit_name(c) + "0"@) as nat),
            ),
            ("stage_widths_count"@, dec(c.stage_widths as nat)),
            ("pols_per_stage"@, json_list(commit_pols(c))),
            ("public_values"@, json_numbers(filled(c.public_values@))),
        ],
    )
}

/// The custom commitments.
pub open spec fn commit_list(info: StarkInfo) -> Seq<Seq<char>> {
    info.custom_commits@.map_values(|c: CustomCommit| commit_json(info, c))
}

/// The custom commitments.
pub fn commit_items(info: &StarkInfo) -> (r: Vec<String>)
    ensures
        texts(r@) == commit_list(*info),
{
    let ghost all = commit_list(*info);
    let mut out: Vec<String> = Vec::new();
    let mut i: usize = 0;
    assert(texts(out@) =~= all.take(0));
    while i < info.custom_commits.len()
        invariant
            i <= info.custom_commits@.len(),
            all == commit_list(*info),
            texts(out@) == all.take(i as int),
        decreases info.custom_commits@.len() - i,
    {
        let c: &CustomCommit = &info.custom_commits[i];
        let name: String = name_of_commit(c);
        let mut section: String = name.as_str().to_owned();
        section.append("0");
        let width: u64 = info.section(section.as_str());
        let items: Vec<String> = commit_pol_items(c);
        let values: Vec<u64> = fill(&c.public_values);
        let mut o: JsonObject = JsonObject::new();
        o.add_text("name", name.as_str());
        o.add_number("section_len_0", width);
        o.add_number("stage_widths_count", c.stage_widths);
        o.add_list("pols_per_stage", &items);
        o.add_numbers("public_values", &values);
        assert(o@ =~= seq![
            ("name"@, quoted(commit_name(*c))),
            (
                "section_len_0"@,
                dec(section_width(info.sections@, commit_name(*c) + "0"@) as nat),
            ),
            ("stage_widths_count"@, dec(c.stage_widths as nat)),
            ("pols_per_stage"@, json_list(commit_pols(*c))),
            ("public_values"@, json_numbers(filled(c.public_values@))),
        ]);
        assert(all[i as int] == commit_json(*info, *c));
        assert(all.take(i + 1) =~= all.take(i as int).push(all[i as int]));
        push_text(&mut out, o.to_json());
        i = i + 1;
    }
    assert(all.take(i as int) =~= all);
    out
}

/// The opening points.
pub open spec fn opening_list(points: Seq<Option<i64>>) -> Seq<Seq<char>> {
    Seq::new(points.len(), |i: int| opening_json(i as nat, opening_of(points[i])))
}

/// An opening point, zero where it is open.
pub open spec fn opening_of(p: Option<i64>) -> i64 {
    match p {
        Some(o) => o,
        None => 0,
    }
}

/// The size of a signed number.
pub open spec fn magnitude(o: int) -> nat {
    if o < 0 {
        (-o) as nat
    } else {
        o as nat
    }
}

/// An opening point.
pub open spec fn opening_json(i: nat, o: i64) -> Seq<char> {
    json_object(
        seq![
            ("idx"@, dec(i)),
            ("opening"@, idec(o as int)),
            ("abs_opening"@, dec(magnitude(o as int))),
            ("is_nonzero"@, json_flag(o != 0)),
            ("is_positive"@, json_flag(o > 0)),
        ],
    )
}

/// The opening points.
pub fn opening_items(points: &Vec<Option<i64>>) -> (r: Vec<String>)
    ensures
        texts(r@) == opening_list(points@),
{
    let ghost all = opening_list(points@);
    let mut out: Vec<String> = Vec::new();
    let mut i: usize = 0;
    assert(texts(out@) =~= all.take(0));
    while i < points.len()
        invariant
            i <= points@.len(),
            all == opening_list(points@),
            texts(out@) == all.take(i as int),
        decreases points@.len() - i,
    {
        let opening: i64 = match points[i] {
            Some(p) => p,
            None => 0,
        };
        let size: u64 = if opening == i64::MIN {
            0x8000_0000_0000_0000u64
        } else if opening < 0 {
            (-opening) as u64
        } else {
            opening as u64
        };
        let mut o: JsonObject = JsonObject::new();
        o.add_number("idx", i as u64);
        o.add_signed("opening", opening);
        o.add_number("abs_opening", size);
        o.add_flag("is_nonzero", opening != 0);
        o.add_flag("is_positive", opening > 0);
        assert(o@ =~= seq![
            ("idx"@, dec(i as nat)),
            ("opening"@, idec(opening as int)),
            ("abs_opening"@, dec(magnitude(opening as int))),
            ("is_nonzero"@, json_flag(opening != 0)),
            ("is_positive"@, json_flag(opening > 0)),
        ]);
        assert(all.take(i + 1) =~= all.take(i as int).push(all[i as int]));
        push_text(&mut out, o.to_json());
        i = i + 1;
    }
    assert(all.take(i as int) =~= all);
    out
}

/// The root of unity of order `2^bits` to the power `e`, in decimal.
pub open spec fn root_power(w: u64, e: nat) -> Seq<char> {
    dec(residue(pow(w as int, e)) as nat)
}

/// One factor of a frame's vanishing polynomial.
pub open spec fn frame_op(c: nat, w: u64, e: nat) -> Seq<char> {
    json_object(
        seq![
            ("c"@, dec(c)),
            ("is_first"@, json_flag(c == 0)),
            ("root"@, quoted(root_power(w, e))),
        ],
    )
}

/// The factors of a frame: the first rows, then the last row `offset_max` times.
pub open spec fn frame_ops(w: u64, min: nat, max: nat, back: nat) -> Seq<Seq<char>> {
    Seq::new(
        min + max,
        |c: int|
            if c < min {
                frame_op(c as nat, w, c as nat)
            } else {
                frame_op(c as nat, w, back)
            },
    )
}

fn frame_op_item(c: u64, w: u64, e: u64) -> (r: String)
    ensures
        r@ == frame_op(c as nat, w, e as nat),
{
    let root: String = dec_text(powp(w, e));
    let mut o: JsonObject = JsonObject::new();
    o.add_number("c", c);
    o.add_flag("is_first", c == 0);
    o.add_text("root", root.as_str());
    assert(o@ =~= seq![
        ("c"@, dec(c as nat)),
        ("is_first"@, json_flag(c == 0)),
        ("root"@, quoted(root_power(w, e as nat))),
    ]);
    o.to_json()
}

fn frame_op_items(w: u64, min: u64, max: u64, back: u64) -> (r: Vec<String>)
    requires
        min + max <= u64::MAX,
    ensures
        texts(r@) == frame_ops(w, min as nat, max as nat, back as nat),
{
    let ghost all = frame_ops(w, min as nat, max as nat, back as nat);
    let mut out: Vec<String> = Vec::new();
    let mut c: u64 = 0;
    assert(texts(out@) =~= all.take(0));
    while c < min + max
        invariant
            min + max <= u64::MAX,
            c <= min + max,
            all == frame_ops(w, min as nat, max as nat, back as nat),
            texts(out@) == all.take(c as int),
        decreases min + max - c,
    {
        let e: u64 = if c < min {
            c
        } else {
            back
        };
        let item: String = frame_op_item(c, w, e);
        assert(all.take(c + 1) =~= all.take(c as int).push(all[c as int]));
        push_text(&mut out, item);
        c = c + 1;
    }
    assert(all.take(c as int) =~= all);
    out
}

/// What is left of `2^n_bits` after `n`.
pub open spec fn rows_before_end(n_bits: nat, n: int) -> nat {
    if pow2(n_bits) > n {
        (pow2(n_bits) - n) as nat
    } else {
        0
    }
}

/// The `i`-th frame.
pub open spec fn frame_json(i: nat, b: RowBoundary, n_bits: nat, w: u64) -> Seq<char> {
    let min = or(b.offset_min, 0) as nat;
    let max = or(b.offset_max, 0) as nat;
    json_object(
        seq![
            ("idx"@, dec(i)),
            ("offset_min"@, dec(min)),
            ("offset_max"@, dec(max)),
            ("size"@, dec(min + max)),
            ("ops"@, json_list(frame_ops(w, min, max, rows_before_end(n_bits, (i + 1) as int)))),
        ],
    )
}

/// The frames among the boundaries.
pub open spec fn frame_list(b: Seq<RowBoundary>, n_bits: nat, w: u64) -> Seq<Seq<char>>
    decreases b.len(),
{
    if b.len() == 0 {
        Seq::empty()
    } else {
        let before = frame_list(b.drop_last(), n_bits, w);
        if is_named(b.last().name, "everyFrame"@) {
            before.push(frame_json(before.len(), b.last(), n_bits, w))
        } else {
            before
        }
    }
}

/// The sizes of the frames fit.
pub open spec fn frames_fit(b: Seq<RowBoundary>) -> bool {
    forall|i: int|
        0 <= i < b.len() ==> or((#[trigger] b[i]).offset_min, 0) + or(b[i].offset_max, 0)
            <= u64::MAX
}

proof fn lemma_frames(b: Seq<RowBoundary>, n_bits: nat, w: u64)
    ensures
        frame_list(b, n_bits, w).len() <= b.len(),
    decreases b.len(),
{
    if b.len() > 0 {
        lemma_frames(b.drop_last(), n_bits, w);
    }
}

/// The frames among the boundaries. `w` is the root of unity of order `2^n_bits`.
pub fn frame_items(b: &Vec<RowBoundary>, n_bits: u64, w: u64) -> (r: Vec<String>)
    requires
        frames_fit(b@),
        n_bits < 64,
    ensures
        texts(r@) == frame_list(b@, n_bits as nat, w),
{
    let rows: u64 = power_of_two(n_bits);
    let n: usize = b.len();
    let mut out: Vec<String> = Vec::new();
    let mut i: usize = 0;
    proof {
        assert(b@.take(0) =~= Seq::empty());
        assert(texts(out@) =~= Seq::empty());
    }
    while i < n
        invariant
            n == b@.len(),
            i <= n,
            frames_fit(b@),
            rows == pow2(n_bits as nat),
            texts(out@) == frame_list(b@.take(i as int), n_bits as nat, w),
        decreases n - i,
    {
        proof {
            assert(b@.take(i + 1).drop_last() =~= b@.take(i as int));
            assert(b@.take(i + 1).last() == b@[i as int]);
            lemma_frames(b@.take(i as int), n_bits as nat, w);
            assert(texts(out@).len() == out@.len());
        }
        if name_is(&b[i].name, "everyFrame") {
            let min: u64 = or_default(b[i].offset_min, 0);
            let max: u64 = or_default(b[i].offset_max, 0);
            let idx: u64 = out.len() as u64;
            let back: u64 = if rows > idx + 1 {
                rows - (idx + 1)
            } else {
                0
            };
            let items: Vec<String> = frame_op_items(w, min, max, back);
            let mut o: JsonObject = JsonObject::new();
            o.add_number("idx", idx);
            o.add_number("offset_min", min);
            o.add_number("offset_max", max);
            o.add_number("size", min + max);
            o.add_list("ops", &items);
            assert(o@ =~= seq![
                ("idx"@, dec(idx as nat)),
                ("offset_min"@, dec(min as nat)),
                ("offset_max"@, dec(max as nat)),
                ("size"@, dec((min + max) as nat)),
                ("ops"@, json_list(frame_ops(w, min as nat, max as nat, back as nat))),
            ]);
            push_text(&mut out, o.to_json());
        }
        i = i + 1;
    }
    assert(b@.take(i as int) =~= b@);
    out
}

/// The bits of the step before `s`; the first step has its own.
pub open spec fn bits_before(info: StarkInfo, s: int) -> u64 {
    if s == 0 {
        step_bits(info, s)
    } else {
        step_bits(info, s - 1)
    }
}

/// The generator of the domain before step `s`.
pub open spec fn fold_shift(info: StarkInfo, shift: u64, s: int) -> int {
    residue(
        pow(
            shift as int,
            pow2((or(info.n_bits_ext, 0) - bits_before(info, s)) as nat),
        ),
    )
}

/// The first constant that folding to step `s` multiplies by.
pub open spec fn fold_e0(info: StarkInfo, shift: u64, s: int) -> Seq<char> {
    if s == 0 {
        "0"@
    } else {
        dec(inverse(fold_shift(info, shift, s)) as nat)
    }
}

/// The second constant that folding to step `s` multiplies by.
pub open spec fn fold_e1(info: StarkInfo, shift: u64, roots: Seq<u64>, s: int) -> Seq<char> {
    if s == 0 {
        "0"@
    } else {
        dec(
            inverse(
                residue(fold_shift(info, shift, s) * roots[bits_before(info, s) as int]),
            ) as nat,
        )
    }
}

/// The polynomial that step `s` is checked against.
pub open spec fn next_pol(s: nat, n_steps: int) -> Seq<char> {
    if s == n_steps - 1 {
        "finalPol"@
    } else {
        "s"@ + dec(s + 1) + "_vals_p"@
    }
}

/// An FRI step.
pub open spec fn step_json(info: StarkInfo, z: Sizes, shift: u64, roots: Seq<u64>, s: nat) -> Seq<
    char,
> {
    let bits = step_bits(info, s as int);
    let prev = bits_before(info, s as int);
    let full = full_depth(bits as int, z.n_bits_arity as int);
    let n_steps = info.steps@.len() as int;
    json_object(
        step_fields(
            s,
            bits as nat,
            prev as nat,
            step_bits(info, (s + 1) as int) as nat,
            tree_depth(
                bits as int,
                z.n_bits_arity as int,
                z.last_level_verification as int,
            ) as nat,
            z.last_level_verification > 0 && full <= z.last_level_verification,
            z.s0_last_mt_size as nat,
            fold_e0(info, shift, s as int),
            fold_e1(info, shift, roots, s as int),
            s == n_steps - 1,
            next_pol(s, n_steps),
        ),
    )
}

/// The FRI steps.
pub open spec fn step_list(info: StarkInfo, z: Sizes, shift: u64, roots: Seq<u64>) -> Seq<
    Seq<char>,
> {
    Seq::new(info.steps@.len(), |s: int| step_json(info, z, shift, roots, s as nat))
}

/// The FRI steps fold: each is not bigger than the one before, the domain has a root of unity
/// for it, and the constants have inverses.
pub open spec fn steps_fold(info: StarkInfo, shift: u64, roots: Seq<u64>) -> bool {
    &&& residue(shift as int) != 0
    &&& forall|s: int|
        1 <= s < info.steps@.len() ==> {
            &&& (#[trigger] step_bits(info, s)) <= step_bits(info, s - 1)
            &&& step_bits(info, s - 1) <= or(info.n_bits_ext, 0)
            &&& or(info.n_bits_ext, 0) - step_bits(info, s - 1) < 64
            &&& step_bits(info, s - 1) < roots.len()
            &&& residue(roots[step_bits(info, s - 1) as int] as int) != 0
        }
}

fn fold_constants(info: &StarkInfo, z: &Sizes, shift: u64, roots: &Vec<u64>, s: usize) -> (r: (
    String,
    String,
))
    requires
        are_sizes(*z, *info),
        steps_fold(*info, shift, roots@),
        s < info.steps@.len(),
    ensures
        r.0@ == fold_e0(*info, shift, s as int),
        r.1@ == fold_e1(*info, shift, roots@, s as int),
{
    if s == 0 {
        return ("0".to_owned(), "0".to_owned());
    }
    let prev: u64 = info.bits_of_step(s - 1);
    assert(step_bits(*info, s as int) <= step_bits(*info, s - 1));
    let times: u64 = power_of_two(z.n_bits_ext - prev);
    let base: u64 = powp(shift, times);
    let n_roots: usize = roots.len();
    assert(prev < n_roots);
    let w: u64 = roots[prev as usize];
    proof {
        lemma_power_nonzero(shift as int, times as nat);
        vstd::arithmetic::div_mod::lemma_mod_bound(
            pow(shift as int, times as nat),
            GOLDILOCKS_P as int,
        );
        vstd::arithmetic::div_mod::lemma_small_mod(base as nat, GOLDILOCKS_P as nat);
        assert(residue(base as int) != 0);
        if residue(base * w) == 0 {
            law_no_zero_divisors(base as int, w as int);
        }
        vstd::arithmetic::div_mod::lemma_mod_twice(base * w, GOLDILOCKS_P as int);
    }
    (dec_text(invp(base)), dec_text(invp(mulp(base, w))))
}

fn next_pol_name(s: usize, n_steps: usize) -> (r: String)
    requires
        s < n_steps,
    ensures
        r@ == next_pol(s as nat, n_steps as int),
{
    if s == n_steps - 1 {
        return "finalPol".to_owned();
    }
    let mut next: String = "s".to_owned();
    push_dec(&mut next, (s + 1) as u64);
    next.append("_vals_p");
    next
}

fn step_item(info: &StarkInfo, z: &Sizes, shift: u64, roots: &Vec<u64>, s: usize) -> (r: String)
    requires
        sizes_fit(*info),
        are_sizes(*z, *info),
        z.arity >= 2 ==> z.n_bits_arity >= 1,
        steps_fold(*info, shift, roots@),
        s < info.steps@.len(),
    ensures
        r@ == step_json(*info, *z, shift, roots@, s as nat),
{
    let n_steps: usize = info.steps.len();
    let bits: u64 = info.bits_of_step(s);
    let next_bits: u64 = info.bits_of_step(s + 1);
    let prev: u64 = if s == 0 {
        bits
    } else {
        info.bits_of_step(s - 1)
    };
    proof {
        assert(step_bits(*info, s as int) < 64);
        if s > 0 {
            assert(step_bits(*info, s - 1) < 64);
            assert(step_bits(*info, s as int) <= step_bits(*info, s - 1));
        }
    }
    let full: u64 = levels_of(bits, z.n_bits_arity);
    let levels: u64 = if full > z.last_level_verification {
        full - z.last_level_verification
    } else {
        0
    };
    let e: (String, String) = fold_constants(info, z, shift, roots, s);
    let next: String = next_pol_name(s, n_steps);
    step_object(
        s as u64,
        bits,
        prev,
        next_bits,
        levels,
        z.last_level_verification > 0 && full <= z.last_level_verification,
        z.s0_last_mt_size,
        e.0.as_str(),
        e.1.as_str(),
        s == n_steps - 1,
        next.as_str(),
    )
}

/// The fields of an FRI step.
pub open spec fn step_fields(
    s: nat,
    bits: nat,
    prev: nat,
    next_bits: nat,
    levels: nat,
    is_empty: bool,
    last_mt_size: nat,
    e0: Seq<char>,
    e1: Seq<char>,
    is_last: bool,
    next: Seq<char>,
) -> Seq<(Seq<char>, Seq<char>)> {
    seq![
        ("s"@, dec(s)),
        ("n_bits"@, dec(bits)),
        ("prev_bits"@, dec(prev)),
        ("next_bits"@, dec(next_bits)),
        ("exponent"@, dec(pow2((prev - bits) as nat))),
        ("val_size"@, dec(pow2(bits))),
        ("merkle_levels"@, dec(levels)),
        ("is_empty"@, json_flag(is_empty)),
        ("last_mt_size"@, dec(last_mt_size)),
        ("mt_size"@, dec(pow2(bits))),
        ("e0"@, quoted(e0)),
        ("e1"@, quoted(e1)),
        ("is_last"@, json_flag(is_last)),
        ("next_pol"@, quoted(next)),
    ]
}

fn step_object(
    s: u64,
    bits: u64,
    prev: u64,
    next_bits: u64,
    levels: u64,
    is_empty: bool,
    last_mt_size: u64,
    e0: &str,
    e1: &str,
    is_last: bool,
    next: &str,
) -> (r: String)
    requires
        bits <= prev < 64,
    ensures
        r@ == json_object(
            step_fields(
                s as nat,
                bits as nat,
                prev as nat,
                next_bits as nat,
                levels as nat,
                is_empty,
                last_mt_size as nat,
                e0@,
                e1@,
                is_last,
                next@,
            ),
        ),
{
    let size: u64 = power_of_two(bits);
    let exponent: u64 = power_of_two(prev - bits);
    let mut o: JsonObject = JsonObject::new();
    o.add_number("s", s);
    o.add_number("n_bits", bits);
    o.add_number("prev_bits", prev);
    o.add_number("next_bits", next_bits);
    o.add_number("exponent", exponent);
    o.add_number("val_size", size);
    o.add_number("merkle_levels", levels);
    o.add_flag("is_empty", is_empty);
    o.add_number("last_mt_size", last_mt_size);
    o.add_number("mt_size", size);
    o.add_text("e0", e0);
    o.add_text("e1", e1);
    o.add_flag("is_last", is_last);
    o.add_text("next_pol", next);
    assert(o@ =~= step_fields(
        s as nat,
        bits as nat,
        prev as nat,
        next_bits as nat,
        levels as nat,
        is_empty,
        last_mt_size as nat,
        e0@,
        e1@,
        is_last,
        next@,
    ));
    o.to_json()
}

/// The FRI steps.
pub fn step_items(info: &StarkInfo, z: &Sizes, shift: u64, roots: &Vec<u64>) -> (r: Vec<String>)
    requires
        sizes_fit(*info),
        are_sizes(*z, *info),
        z.arity >= 2 ==> z.n_bits_arity >= 1,
        steps_fold(*info, shift, roots@),
    ensures
        texts(r@) == step_list(*info, *z, shift, roots@),
{
    let ghost all = step_list(*info, *z, shift, roots@);
    let mut out: Vec<String> = Vec::new();
    let mut s: usize = 0;
    assert(texts(out@) =~= all.take(0));
    while s < info.steps.len()
        invariant
            s <= info.steps@.len(),
            sizes_fit(*info),
            are_sizes(*z, *info),
            z.arity >= 2 ==> z.n_bits_arity >= 1,
            steps_fold(*info, shift, roots@),
            all == step_list(*info, *z, shift, roots@),
            texts(out@) == all.take(s as int),
        decreases info.steps@.len() - s,
    {
        let item: String = step_item(info, z, shift, roots, s);
        assert(all.take(s + 1) =~= all.take(s as int).push(all[s as int]));
        push_text(&mut out, item);
        s = s + 1;
    }
    assert(all.take(s as int) =~= all);
    out
}

/// A field of an object has that name and value.
pub open spec fn has_field(
    fields: Seq<(Seq<char>, Seq<char>)>,
    name: Seq<char>,
    value: Seq<char>,
) -> bool {
    exists|i: int| 0 <= i < fields.len() && #[trigger] fields[i] == (name, value)
}

/// The object of an FRI step folds by these constants, from a domain of `2^prev` points to one of
/// `2^bits`.
pub open spec fn is_fold(text: Seq<char>, prev: nat, bits: nat, e0: int, e1: int) -> bool {
    exists|f: Seq<(Seq<char>, Seq<char>)>| #[trigger]
        json_object(f) == text && has_field(f, "prev_bits"@, dec(prev)) && has_field(
            f,
            "n_bits"@,
            dec(bits),
        ) && has_field(f, "exponent"@, dec(pow2((prev - bits) as nat))) && has_field(
            f,
            "val_size"@,
            dec(pow2(bits)),
        ) && has_field(f, "e0"@, quoted(dec(e0 as nat))) && has_field(
            f,
            "e1"@,
            quoted(dec(e1 as nat)),
        )
}

/// The constants of every fold undo the shift of the coset that is folded. The extended domain is
/// shifted by `shift`; its coset of `2^prev` points, which step `s` folds, by `shift` to the power
/// `2^(n_bits_ext - prev)`, since each halving of the domain squares its points. The first constant
/// is the inverse of that shift, the second the inverse of the shift times the root of unity of
/// order `2^prev`.
pub proof fn law_fold_constants_undo_the_shift(
    info: StarkInfo,
    z: Sizes,
    shift: u64,
    roots: Seq<u64>,
    s: int,
)
    requires
        steps_fold(info, shift, roots),
        1 <= s < info.steps@.len(),
    ensures
        exists|e0: int, e1: int| #[trigger]
            is_fold(
                step_list(info, z, shift, roots)[s],
                or(info.steps@[s - 1], 0) as nat,
                or(info.steps@[s], 0) as nat,
                e0,
                e1,
            ) && 0 <= e0 < GOLDILOCKS_P && 0 <= e1 < GOLDILOCKS_P && eqp(
                e0 * pow(
                    shift as int,
                    pow2((or(info.n_bits_ext, 0) - or(info.steps@[s - 1], 0)) as nat),
                ),
                1,
            ) && eqp(
                e1 * (pow(
                    shift as int,
                    pow2((or(info.n_bits_ext, 0) - or(info.steps@[s - 1], 0)) as nat),
                ) * roots[or(info.steps@[s - 1], 0) as int]),
                1,
            ),
{
    let prev = step_bits(info, s - 1);
    assert(step_bits(info, s) <= step_bits(info, s - 1));
    let coset = pow(shift as int, pow2((or(info.n_bits_ext, 0) - prev) as nat));
    let base = fold_shift(info, shift, s);
    let w = roots[prev as int] as int;
    lemma_power_nonzero(shift as int, pow2((or(info.n_bits_ext, 0) - prev) as nat));
    lemma_residue_eqp(coset);
    assert(base == residue(coset));
    assert(residue(base) != 0);
    if residue(base * w) == 0 {
        law_no_zero_divisors(base, w);
    }
    lemma_residue_eqp(base * w);
    law_inverse_exists(base);
    law_inverse_exists(residue(base * w));
    let e0 = inverse(base);
    let e1 = inverse(residue(base * w));
    lemma_eqp_mul(base, coset, e0, e0);
    assert(base * e0 == e0 * base && coset * e0 == e0 * coset) by (nonlinear_arith);
    lemma_eqp_mul(base, coset, w, w);
    lemma_eqp_mul(residue(base * w), coset * w, e1, e1);
    assert(residue(base * w) * e1 == e1 * residue(base * w) && (coset * w) * e1 == e1 * (coset * w))
        by (nonlinear_arith);
    let bits = step_bits(info, s);
    let text = step_list(info, z, shift, roots)[s];
    assert(text == step_json(info, z, shift, roots, s as nat));
    let full = full_depth(bits as int, z.n_bits_arity as int);
    let n_steps = info.steps@.len() as int;
    let f = step_fields(
        s as nat,
        bits as nat,
        prev as nat,
        step_bits(info, s + 1) as nat,
        tree_depth(
            bits as int,
            z.n_bits_arity as int,
            z.last_level_verification as int,
        ) as nat,
        z.last_level_verification > 0 && full <= z.last_level_verification,
        z.s0_last_mt_size as nat,
        dec(e0 as nat),
        dec(e1 as nat),
        s == n_steps - 1,
        next_pol(s as nat, n_steps),
    );
    assert(json_object(f) == text);
    assert(f[1] == ("n_bits"@, dec(bits as nat)));
    assert(f[2] == ("prev_bits"@, dec(prev as nat)));
    assert(f[4] == ("exponent"@, dec(pow2((prev - bits) as nat))));
    assert(f[5] == ("val_size"@, dec(pow2(bits as nat))));
    assert(f[10] == ("e0"@, quoted(dec(e0 as nat))));
    assert(f[11] == ("e1"@, quoted(dec(e1 as nat))));
    assert(is_fold(text, prev as nat, bits as nat, e0, e1));
}

} // verus!

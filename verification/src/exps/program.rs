//! What the lines of a whole program compute.
use vstd::prelude::*;

use crate::exps::emit::{body_lines, compute_text, declared_after, load_text, op_lines};
use crate::exps::ir::{Instr, Ir, Operand};
use crate::exps::loads::{law_operand_loaded, loaded, operand_value, Memory};
use crate::exps::meaning::{
    assigned, combined, is_typed, law_instruction_computes, lemma_numbered, local_assigned,
    local_of, Locals,
};
use crate::text::dec;

verus! {

/// A line leads from some locals to others: it declares and loads one of them, or assigns one.
pub open spec fn steps_to(line: Seq<char>, env: Locals, mem: Memory, next: Locals) -> bool {
    ||| (loaded(line, mem) matches Some((name, v)) && !env.dom().contains(name) && next
        == env.insert(name, v))
    ||| (assigned(line, env) matches Some((name, v)) && next == env.insert(name, v))
}

/// Lines lead from some locals to others, one after the other.
pub open spec fn runs(lines: Seq<Seq<char>>, env: Locals, mem: Memory, end: Locals) -> bool
    decreases lines.len(),
{
    if lines.len() == 0 {
        end == env
    } else {
        exists|mid: Locals|
            runs(lines.drop_last(), env, mem, mid) && #[trigger] steps_to(
                lines.last(),
                mid,
                mem,
                end,
            )
    }
}

/// The locals once an operand is loaded; temporaries are there already.
pub open spec fn with_operand(
    ir: Ir,
    o: Operand,
    side: char,
    idx: nat,
    tiled: bool,
    env: Locals,
    mem: Memory,
) -> Locals {
    if o is Tmp {
        env
    } else {
        env.insert(
            local_of(o, side, idx),
            operand_value(o, ir.n_constants, ir.n_bits, ir.ncols@, tiled, mem),
        )
    }
}

/// The locals once both operands are loaded.
pub open spec fn with_operands(ir: Ir, i: Instr, tiled: bool, env: Locals, mem: Memory) -> Locals {
    with_operand(
        ir,
        i.b,
        'b',
        i.idx as nat,
        tiled,
        with_operand(ir, i.a, 'a', i.idx as nat, tiled, env, mem),
        mem,
    )
}

/// The locals after an instruction: its destination has the value of `a op b`.
pub open spec fn after_instruction(
    ir: Ir,
    i: Instr,
    tiled: bool,
    env: Locals,
    mem: Memory,
) -> Locals {
    let e = with_operands(ir, i, tiled, env, mem);
    e.insert(
        local_assigned(i),
        combined(
            i.op,
            e[local_of(i.a, 'a', i.idx as nat)],
            e[local_of(i.b, 'b', i.idx as nat)],
        ),
    )
}

/// The locals after a run of instructions.
pub open spec fn after_program(
    ir: Ir,
    ops: Seq<Instr>,
    tiled: bool,
    env: Locals,
    mem: Memory,
) -> Locals
    decreases ops.len(),
{
    if ops.len() == 0 {
        env
    } else {
        after_instruction(
            ir,
            ops.last(),
            tiled,
            after_program(ir, ops.drop_last(), tiled, env, mem),
            mem,
        )
    }
}

/// The instruction can follow on these locals: it is typed, and what it loads has fresh names.
pub open spec fn can_follow(
    ir: Ir,
    i: Instr,
    declared: Set<u64>,
    tiled: bool,
    env: Locals,
    mem: Memory,
) -> bool {
    &&& !(i.a is Tmp) ==> !env.dom().contains(local_of(i.a, 'a', i.idx as nat))
    &&& !(i.b is Tmp) ==> !with_operand(
        ir,
        i.a,
        'a',
        i.idx as nat,
        tiled,
        env,
        mem,
    ).dom().contains(local_of(i.b, 'b', i.idx as nat))
    &&& is_typed(i, declared, with_operands(ir, i, tiled, env, mem))
}

/// Each instruction can follow on those before it.
pub open spec fn is_program(
    ir: Ir,
    ops: Seq<Instr>,
    declared: Set<u64>,
    tiled: bool,
    env: Locals,
    mem: Memory,
) -> bool
    decreases ops.len(),
{
    ops.len() == 0 || (is_program(ir, ops.drop_last(), declared, tiled, env, mem) && can_follow(
        ir,
        ops.last(),
        declared_after(ops.drop_last(), declared),
        tiled,
        after_program(ir, ops.drop_last(), tiled, env, mem),
        mem,
    ))
}

proof fn lemma_one_more(
    lines: Seq<Seq<char>>,
    line: Seq<char>,
    env: Locals,
    mem: Memory,
    mid: Locals,
    end: Locals,
)
    requires
        runs(lines, env, mem, mid),
        steps_to(line, mid, mem, end),
    ensures
        runs(lines.push(line), env, mem, end),
{
    let all = lines.push(line);
    assert(all.drop_last() =~= lines);
    assert(all.last() == line);
    assert(runs(all.drop_last(), env, mem, mid) && steps_to(all.last(), mid, mem, end));
}

proof fn lemma_instruction_runs(
    ir: Ir,
    lines: Seq<Seq<char>>,
    i: Instr,
    declared: Set<u64>,
    tiled: bool,
    start: Locals,
    env: Locals,
    mem: Memory,
)
    requires
        runs(lines, start, mem, env),
        can_follow(ir, i, declared, tiled, env, mem),
    ensures
        runs(
            lines + op_lines(ir, i, declared, tiled),
            start,
            mem,
            after_instruction(ir, i, tiled, env, mem),
        ),
{
    reveal_strlit("a");
    reveal_strlit("b");
    assert("a"@ =~= seq!['a']);
    assert("b"@ =~= seq!['b']);
    let idx = i.idx as nat;
    lemma_numbered('a', idx);
    lemma_numbered('b', idx);
    let la = load_text(i.a, "a"@ + dec(idx), ir.n_constants, ir.n_bits, ir.ncols@, tiled);
    let lb = load_text(i.b, "b"@ + dec(idx), ir.n_constants, ir.n_bits, ir.ncols@, tiled);
    let mid = with_operand(ir, i.a, 'a', idx, tiled, env, mem);
    let full = with_operands(ir, i, tiled, env, mem);
    let first = if i.a is Tmp {
        lines
    } else {
        lines.push(la)
    };
    let second = if i.b is Tmp {
        first
    } else {
        first.push(lb)
    };
    if !(i.a is Tmp) {
        law_operand_loaded(
            i.a,
            "a"@ + dec(idx),
            ir.n_constants,
            ir.n_bits,
            ir.ncols@,
            tiled,
            mem,
        );
        lemma_one_more(lines, la, start, mem, env, mid);
    }
    if !(i.b is Tmp) {
        law_operand_loaded(
            i.b,
            "b"@ + dec(idx),
            ir.n_constants,
            ir.n_bits,
            ir.ncols@,
            tiled,
            mem,
        );
        lemma_one_more(first, lb, start, mem, mid, full);
    }
    law_instruction_computes(i, declared, full);
    let line = compute_text(i, declared);
    let end = after_instruction(ir, i, tiled, env, mem);
    lemma_one_more(second, line, start, mem, full, end);
    assert(lines + op_lines(ir, i, declared, tiled) =~= second.push(line));
}

/// The lines of a program compute what the program says: run one after the other, they leave in
/// each destination the value of its instruction's operation on the values of its operands at that
/// point, loaded from memory or left by an earlier instruction, and so in `qq` the value of the
/// program.
pub proof fn law_program_computes(
    ir: Ir,
    ops: Seq<Instr>,
    declared: Set<u64>,
    tiled: bool,
    env: Locals,
    mem: Memory,
)
    requires
        is_program(ir, ops, declared, tiled, env, mem),
    ensures
        runs(
            body_lines(ir, ops, declared, tiled),
            env,
            mem,
            after_program(ir, ops, tiled, env, mem),
        ),
    decreases ops.len(),
{
    if ops.len() > 0 {
        let before = ops.drop_last();
        law_program_computes(ir, before, declared, tiled, env, mem);
        lemma_instruction_runs(
            ir,
            body_lines(ir, before, declared, tiled),
            ops.last(),
            declared_after(before, declared),
            tiled,
            env,
            after_program(ir, before, tiled, env, mem),
            mem,
        );
    }
}

} // verus!

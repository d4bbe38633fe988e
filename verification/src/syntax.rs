//! The two syntactic layers of the language: flat symbols produced by the
//! lexer, and the nested instruction tree produced by the parser, together
//! with the specification functions that relate the two.

use vstd::prelude::*;

verus! {

/// A recognized single-character instruction glyph.
#[derive(Clone, Copy, PartialEq, Eq, Structural, Debug)]
pub enum OpCode {
    Increment,
    Decrement,
    IncrementPointer,
    DecrementPointer,
    Read,
    Write,
    LoopBegin,
    LoopEnd,
}

/// A structurally resolved operation. A `Loop` owns the instruction
/// sequence that stood strictly between its matching brackets.
#[derive(PartialEq, Eq, Debug)]
pub enum Instruction {
    Increment,
    Decrement,
    IncrementPointer,
    DecrementPointer,
    Read,
    Write,
    Loop(Vec<Instruction>),
}

/// How one symbol changes the bracket nesting depth.
pub open spec fn bracket_step(op: OpCode) -> int {
    match op {
        OpCode::LoopBegin => 1,
        OpCode::LoopEnd => -1,
        _ => 0,
    }
}

/// Bracket nesting depth after the first `n` symbols of `ops`:
/// the number of `LoopBegin` minus the number of `LoopEnd` among them.
pub open spec fn nesting(ops: Seq<OpCode>, n: int) -> int
    decreases n,
{
    if n <= 0 {
        0
    } else {
        nesting(ops, n - 1) + bracket_step(ops[n - 1])
    }
}

/// A symbol sequence is balanced when the nesting depth never drops below
/// zero and returns to zero at the end.
pub open spec fn balanced(ops: Seq<OpCode>) -> bool {
    &&& forall|n: int| 0 <= n <= ops.len() ==> nesting(ops, n) >= 0
    &&& nesting(ops, ops.len() as int) == 0
}

/// The number of `LoopBegin` symbols in `ops`.
pub open spec fn open_count(ops: Seq<OpCode>) -> nat
    decreases ops.len(),
{
    if ops.len() == 0 {
        0
    } else {
        open_count(ops.drop_last()) + (if ops.last() is LoopBegin {
            1nat
        } else {
            0nat
        })
    }
}

/// The symbols that one instruction stands for: a `Loop` contributes its
/// opening bracket, its flattened body, and its closing bracket.
pub open spec fn flatten_instr(ins: Instruction) -> Seq<OpCode>
    decreases ins, 0int,
{
    match ins {
        Instruction::Increment => seq![OpCode::Increment],
        Instruction::Decrement => seq![OpCode::Decrement],
        Instruction::IncrementPointer => seq![OpCode::IncrementPointer],
        Instruction::DecrementPointer => seq![OpCode::DecrementPointer],
        Instruction::Read => seq![OpCode::Read],
        Instruction::Write => seq![OpCode::Write],
        Instruction::Loop(body) => seq![OpCode::LoopBegin] + flatten_from(body@, 0) + seq![
            OpCode::LoopEnd,
        ],
    }
}

/// The symbols that the instructions of `prog` from index `i` on stand for.
pub open spec fn flatten_from(prog: Seq<Instruction>, i: int) -> Seq<OpCode>
    decreases prog, prog.len() - i,
{
    if i < 0 || i >= prog.len() {
        Seq::empty()
    } else {
        flatten_instr(prog[i]) + flatten_from(prog, i + 1)
    }
}

/// The symbol sequence that a whole instruction tree stands for. Parsing
/// inverts this map: the tree built from a symbol sequence flattens back
/// to exactly that sequence.
pub open spec fn flatten_prog(prog: Seq<Instruction>) -> Seq<OpCode> {
    flatten_from(prog, 0)
}

/// The number of `Loop` nodes in one instruction, at all nesting levels.
pub open spec fn loop_count_instr(ins: Instruction) -> nat
    decreases ins, 0int,
{
    match ins {
        Instruction::Loop(body) => 1 + loop_count_from(body@, 0),
        _ => 0,
    }
}

/// The number of `Loop` nodes at all nesting levels in `prog` from `i` on.
pub open spec fn loop_count_from(prog: Seq<Instruction>, i: int) -> nat
    decreases prog, prog.len() - i,
{
    if i < 0 || i >= prog.len() {
        0
    } else {
        loop_count_instr(prog[i]) + loop_count_from(prog, i + 1)
    }
}

/// The number of `Loop` nodes at all nesting levels of the tree.
pub open spec fn loop_count_prog(prog: Seq<Instruction>) -> nat {
    loop_count_from(prog, 0)
}

/// Appending an instruction appends its symbols to the flattening.
pub proof fn lemma_flatten_from_push(prog: Seq<Instruction>, x: Instruction, i: int)
    requires
        0 <= i <= prog.len(),
    ensures
        flatten_from(prog.push(x), i) == flatten_from(prog, i) + flatten_instr(x),
    decreases prog.len() - i,
{
    if i == prog.len() {
        assert(flatten_from(prog.push(x), i) == flatten_instr(x) + flatten_from(
            prog.push(x),
            i + 1,
        ));
        assert(flatten_instr(x) + Seq::<OpCode>::empty() =~= Seq::<OpCode>::empty()
            + flatten_instr(x));
    } else {
        lemma_flatten_from_push(prog, x, i + 1);
        assert(prog.push(x)[i] == prog[i]);
        assert((flatten_instr(prog[i]) + flatten_from(prog, i + 1)) + flatten_instr(x)
            =~= flatten_instr(prog[i]) + (flatten_from(prog, i + 1) + flatten_instr(x)));
    }
}

/// Every instruction stands for at least one symbol, so the flattening is
/// at least as long as the instruction sequence.
pub proof fn lemma_flatten_from_len(prog: Seq<Instruction>, i: int)
    requires
        0 <= i <= prog.len(),
    ensures
        flatten_from(prog, i).len() >= prog.len() - i,
    decreases prog.len() - i,
{
    if i < prog.len() {
        lemma_flatten_from_len(prog, i + 1);
        assert(flatten_instr(prog[i]).len() >= 1);
    }
}

/// Only the empty instruction sequence flattens to the empty symbol
/// sequence: a source with no recognized glyphs parses to no instructions.
pub proof fn lemma_empty_flattening_empty_program(prog: Seq<Instruction>)
    requires
        flatten_prog(prog).len() == 0,
    ensures
        prog == Seq::<Instruction>::empty(),
{
    lemma_flatten_from_len(prog, 0);
    assert(prog =~= Seq::<Instruction>::empty());
}

/// The nesting depth within a subrange is the depth in the whole sequence,
/// relative to the depth where the subrange begins.
pub proof fn lemma_nesting_subrange(ops: Seq<OpCode>, a: int, b: int, k: int)
    requires
        0 <= a <= b <= ops.len(),
        0 <= k <= b - a,
    ensures
        nesting(ops.subrange(a, b), k) == nesting(ops, a + k) - nesting(ops, a),
    decreases k,
{
    if k > 0 {
        lemma_nesting_subrange(ops, a, b, k - 1);
        assert(ops.subrange(a, b)[k - 1] == ops[a + k - 1]);
    }
}

/// Counting opening brackets distributes over concatenation.
pub proof fn lemma_open_count_concat(xs: Seq<OpCode>, ys: Seq<OpCode>)
    ensures
        open_count(xs + ys) == open_count(xs) + open_count(ys),
    decreases ys.len(),
{
    if ys.len() == 0 {
        assert(xs + ys =~= xs);
    } else {
        lemma_open_count_concat(xs, ys.drop_last());
        assert((xs + ys).drop_last() =~= xs + ys.drop_last());
        assert((xs + ys).last() == ys.last());
    }
}

/// The `Loop` nodes of one instruction, counted at all nesting levels,
/// are exactly the opening brackets among the symbols it stands for.
pub proof fn lemma_loop_count_instr_open_count(ins: Instruction)
    ensures
        loop_count_instr(ins) == open_count(flatten_instr(ins)),
    decreases ins, 0int,
{
    match ins {
        Instruction::Loop(body) => {
            lemma_loop_count_from_open_count(body@, 0);
            lemma_open_count_concat(
                seq![OpCode::LoopBegin] + flatten_from(body@, 0),
                seq![OpCode::LoopEnd],
            );
            lemma_open_count_concat(seq![OpCode::LoopBegin], flatten_from(body@, 0));
            assert(open_count(Seq::<OpCode>::empty()) == 0);
            assert(open_count(seq![OpCode::LoopBegin]) == 1) by {
                assert(open_count(Seq::<OpCode>::empty()) == 0);
                assert(seq![OpCode::LoopBegin].drop_last() =~= Seq::<OpCode>::empty());
                assert(seq![OpCode::LoopBegin].last() == OpCode::LoopBegin);
            }
            assert(open_count(seq![OpCode::LoopEnd]) == 0) by {
                assert(open_count(Seq::<OpCode>::empty()) == 0);
                assert(seq![OpCode::LoopEnd].drop_last() =~= Seq::<OpCode>::empty());
                assert(seq![OpCode::LoopEnd].last() == OpCode::LoopEnd);
            }
        },
        _ => {
            assert(open_count(Seq::<OpCode>::empty()) == 0);
            assert(flatten_instr(ins).len() == 1);
            assert(flatten_instr(ins).drop_last() =~= Seq::<OpCode>::empty());
            assert(!(flatten_instr(ins).last() is LoopBegin));
        },
    }
}

/// The `Loop` nodes of `prog` from `i` on, counted at all nesting levels,
/// are exactly the opening brackets among the symbols they stand for.
pub proof fn lemma_loop_count_from_open_count(prog: Seq<Instruction>, i: int)
    ensures
        loop_count_from(prog, i) == open_count(flatten_from(prog, i)),
    decreases prog, prog.len() - i,
{
    if 0 <= i < prog.len() {
        lemma_loop_count_instr_open_count(prog[i]);
        lemma_loop_count_from_open_count(prog, i + 1);
        lemma_open_count_concat(flatten_instr(prog[i]), flatten_from(prog, i + 1));
    }
}

/// The number of `Loop` instructions at all nesting levels of a tree
/// equals the number of bracket pairs in the symbols it stands for: in a
/// balanced sequence every opening bracket heads exactly one pair.
pub proof fn lemma_loop_count_matches_open_count(prog: Seq<Instruction>)
    ensures
        loop_count_prog(prog) == open_count(flatten_prog(prog)),
{
    lemma_loop_count_from_open_count(prog, 0);
}

} // verus!

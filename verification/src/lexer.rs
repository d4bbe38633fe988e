//! The lexer: maps raw source bytes to recognized symbols, silently
//! discarding every byte that is not one of the eight instruction glyphs.

use vstd::prelude::*;

use crate::syntax::OpCode;

verus! {

/// The symbol that one source byte stands for, or `None` for any byte that
/// is not one of the eight recognized glyphs.
pub open spec fn op_of_byte(b: u8) -> Option<OpCode> {
    match b {
        43u8 => Some(OpCode::Increment),  // '+'
        45u8 => Some(OpCode::Decrement),  // '-'
        62u8 => Some(OpCode::IncrementPointer),  // '>'
        60u8 => Some(OpCode::DecrementPointer),  // '<'
        44u8 => Some(OpCode::Read),  // ','
        46u8 => Some(OpCode::Write),  // '.'
        91u8 => Some(OpCode::LoopBegin),  // '['
        93u8 => Some(OpCode::LoopEnd),  // ']'
        _ => None,
    }
}

/// The symbol sequence of a source text: its recognized glyphs, in order.
pub open spec fn lex_spec(src: Seq<u8>) -> Seq<OpCode>
    decreases src.len(),
{
    if src.len() == 0 {
        Seq::empty()
    } else {
        let rest = lex_spec(src.drop_last());
        match op_of_byte(src.last()) {
            Some(op) => rest.push(op),
            None => rest,
        }
    }
}

/// Converts a source text into the ordered sequence of its recognized
/// symbols. Never fails: unrecognized bytes are skipped.
pub fn lex(source: &Vec<u8>) -> (ops: Vec<OpCode>)
    ensures
        ops@ == lex_spec(source@),
{
    let mut ops: Vec<OpCode> = Vec::new();
    let mut i: usize = 0;
    while i < source.len()
        invariant
            i <= source@.len(),
            ops@ == lex_spec(source@.subrange(0, i as int)),
        decreases source@.len() - i,
    {
        let b: u8 = source[i];
        proof {
            let cur = source@.subrange(0, i + 1);
            assert(cur.drop_last() =~= source@.subrange(0, i as int));
            assert(cur.last() == b);
        }
        match b {
            43u8 => ops.push(OpCode::Increment),
            45u8 => ops.push(OpCode::Decrement),
            62u8 => ops.push(OpCode::IncrementPointer),
            60u8 => ops.push(OpCode::DecrementPointer),
            44u8 => ops.push(OpCode::Read),
            46u8 => ops.push(OpCode::Write),
            91u8 => ops.push(OpCode::LoopBegin),
            93u8 => ops.push(OpCode::LoopEnd),
            _ => (),
        }
        i = i + 1;
    }
    proof {
        assert(source@.subrange(0, i as int) =~= source@);
    }
    ops
}

/// A source text whose bytes are all unrecognized lexes to the empty
/// symbol sequence.
pub proof fn lemma_lex_ignores_unrecognized(src: Seq<u8>)
    requires
        forall|k: int| 0 <= k < src.len() ==> op_of_byte(src[k]) is None,
    ensures
        lex_spec(src) == Seq::<OpCode>::empty(),
    decreases src.len(),
{
    if src.len() > 0 {
        lemma_lex_ignores_unrecognized(src.drop_last());
    }
}

} // verus!

//! The structural parser: resolves matched bracket pairs in the flat
//! symbol sequence into nested `Loop` instructions, and reports the
//! position of an unmatched bracket as a fatal structural error.

use vstd::prelude::*;

use crate::syntax::balanced;
use crate::syntax::flatten_instr;
use crate::syntax::flatten_prog;
use crate::syntax::lemma_flatten_from_push;
use crate::syntax::lemma_nesting_subrange;
use crate::syntax::nesting;
use crate::syntax::Instruction;
use crate::syntax::OpCode;

verus! {

/// A structural error: a bracket with no match, with the index of the
/// offending symbol in the symbol sequence.
#[derive(Clone, Copy, PartialEq, Eq, Structural, Debug)]
pub enum ParseError {
    /// A `LoopEnd` with no preceding unmatched `LoopBegin`.
    UnmatchedClose { position: usize },
    /// A `LoopBegin` with no matching `LoopEnd` before the end of input.
    UnmatchedOpen { position: usize },
}

/// The structural error that a left-to-right bracket scan of `ops` reports
/// from index `i` on, given the current nesting depth and the recorded
/// index of the opening bracket of the outermost still-open loop; `None`
/// when every bracket from `i` on matches.
pub open spec fn bracket_scan(ops: Seq<OpCode>, i: int, depth: int, start: int) -> Option<
    ParseError,
>
    decreases ops.len() - i,
{
    if i < 0 || i >= ops.len() {
        if depth == 0 {
            None
        } else {
            Some(ParseError::UnmatchedOpen { position: start as usize })
        }
    } else {
        match ops[i] {
            OpCode::LoopBegin => bracket_scan(
                ops,
                i + 1,
                depth + 1,
                if depth == 0 {
                    i
                } else {
                    start
                },
            ),
            OpCode::LoopEnd => if depth == 0 {
                Some(ParseError::UnmatchedClose { position: i as usize })
            } else {
                bracket_scan(ops, i + 1, depth - 1, start)
            },
            _ => bracket_scan(ops, i + 1, depth, start),
        }
    }
}

/// The structural error of a whole symbol sequence, or `None` when all of
/// its brackets match.
pub open spec fn structure_error(ops: Seq<OpCode>) -> Option<ParseError> {
    bracket_scan(ops, 0, 0, 0)
}

/// What holds of the scan state at index `i`: the tracked depth is the
/// nesting depth there, the depth never went negative, and while a loop is
/// open, `start` records the opening bracket of the outermost one.
spec fn scan_inv(ops: Seq<OpCode>, i: int, depth: int, start: int) -> bool {
    &&& 0 <= i <= ops.len()
    &&& depth == nesting(ops, i)
    &&& forall|k: int| 0 <= k <= i ==> nesting(ops, k) >= 0
    &&& depth > 0 ==> {
        &&& 0 <= start < i
        &&& ops[start] is LoopBegin
        &&& nesting(ops, start) == 0
        &&& forall|m: int| start < m <= i ==> nesting(ops, m) >= 1
    }
}

/// On a balanced remainder the scan reports no error.
proof fn lemma_scan_balanced(ops: Seq<OpCode>, i: int, depth: int, start: int)
    requires
        scan_inv(ops, i, depth, start),
        forall|k: int| 0 <= k <= ops.len() ==> nesting(ops, k) >= 0,
        nesting(ops, ops.len() as int) == 0,
    ensures
        bracket_scan(ops, i, depth, start) is None,
    decreases ops.len() - i,
{
    if i < ops.len() {
        match ops[i] {
            OpCode::LoopBegin => {
                lemma_scan_balanced(
                    ops,
                    i + 1,
                    depth + 1,
                    if depth == 0 {
                        i
                    } else {
                        start
                    },
                );
            },
            OpCode::LoopEnd => {
                assert(nesting(ops, i + 1) == depth - 1);
                lemma_scan_balanced(ops, i + 1, depth - 1, start);
            },
            _ => {
                lemma_scan_balanced(ops, i + 1, depth, start);
            },
        }
    }
}

/// When the scan reports no error, the remainder is balanced.
proof fn lemma_scan_none_balanced(ops: Seq<OpCode>, i: int, depth: int, start: int)
    requires
        scan_inv(ops, i, depth, start),
        bracket_scan(ops, i, depth, start) is None,
    ensures
        forall|k: int| i <= k <= ops.len() ==> nesting(ops, k) >= 0,
        nesting(ops, ops.len() as int) == 0,
    decreases ops.len() - i,
{
    if i < ops.len() {
        match ops[i] {
            OpCode::LoopBegin => {
                lemma_scan_none_balanced(
                    ops,
                    i + 1,
                    depth + 1,
                    if depth == 0 {
                        i
                    } else {
                        start
                    },
                );
            },
            OpCode::LoopEnd => {
                lemma_scan_none_balanced(ops, i + 1, depth - 1, start);
            },
            _ => {
                lemma_scan_none_balanced(ops, i + 1, depth, start);
            },
        }
    }
}

/// The scan reports the first closing bracket that the depth count finds
/// unmatched, with its position.
proof fn lemma_scan_stray_close(ops: Seq<OpCode>, i: int, depth: int, start: int, j: int)
    requires
        scan_inv(ops, i, depth, start),
        i <= j < ops.len(),
        ops[j] is LoopEnd,
        nesting(ops, j) == 0,
        forall|k: int| i <= k < j ==> !(ops[k] is LoopEnd && nesting(ops, k) == 0),
    ensures
        bracket_scan(ops, i, depth, start) == Some(
            ParseError::UnmatchedClose { position: j as usize },
        ),
    decreases ops.len() - i,
{
    if i == j {
    } else {
        match ops[i] {
            OpCode::LoopBegin => {
                lemma_scan_stray_close(
                    ops,
                    i + 1,
                    depth + 1,
                    if depth == 0 {
                        i
                    } else {
                        start
                    },
                    j,
                );
            },
            OpCode::LoopEnd => {
                assert(depth != 0);
                lemma_scan_stray_close(ops, i + 1, depth - 1, start, j);
            },
            _ => {
                lemma_scan_stray_close(ops, i + 1, depth, start, j);
            },
        }
    }
}

/// When every closing bracket matches but the depth never returns to zero,
/// the scan reports the opening bracket of the outermost loop left open:
/// the last opening bracket that sits at nesting depth zero.
proof fn lemma_scan_unmatched_open(ops: Seq<OpCode>, i: int, depth: int, start: int, s: int)
    requires
        scan_inv(ops, i, depth, start),
        forall|k: int| i <= k < ops.len() ==> !(ops[k] is LoopEnd && nesting(ops, k) == 0),
        nesting(ops, ops.len() as int) > 0,
        0 <= s < ops.len(),
        ops[s] is LoopBegin,
        nesting(ops, s) == 0,
        forall|m: int| s < m < ops.len() ==> !(ops[m] is LoopBegin && nesting(ops, m) == 0),
    ensures
        bracket_scan(ops, i, depth, start) == Some(
            ParseError::UnmatchedOpen { position: s as usize },
        ),
    decreases ops.len() - i,
{
    if i == ops.len() {
        assert(start == s) by {
            if s < start {
                assert(!(ops[start] is LoopBegin && nesting(ops, start) == 0));
            }
            if s > start {
                assert(nesting(ops, s) >= 1);
            }
        }
    } else {
        match ops[i] {
            OpCode::LoopBegin => {
                lemma_scan_unmatched_open(
                    ops,
                    i + 1,
                    depth + 1,
                    if depth == 0 {
                        i
                    } else {
                        start
                    },
                    s,
                );
            },
            OpCode::LoopEnd => {
                assert(depth != 0);
                lemma_scan_unmatched_open(ops, i + 1, depth - 1, start, s);
            },
            _ => {
                lemma_scan_unmatched_open(ops, i + 1, depth, start, s);
            },
        }
    }
}

/// A balanced symbol sequence never raises a structural error, however
/// deeply its loops nest.
pub proof fn lemma_balanced_never_errors(ops: Seq<OpCode>)
    requires
        balanced(ops),
    ensures
        structure_error(ops) is None,
{
    lemma_scan_balanced(ops, 0, 0, 0);
}

/// The parse succeeds exactly on the balanced symbol sequences.
pub proof fn lemma_no_error_iff_balanced(ops: Seq<OpCode>)
    ensures
        structure_error(ops) is None <==> balanced(ops),
{
    if balanced(ops) {
        lemma_scan_balanced(ops, 0, 0, 0);
    }
    if structure_error(ops) is None {
        lemma_scan_none_balanced(ops, 0, 0, 0);
    }
}

/// Lexing then parsing a source whose brackets balance never raises a
/// structural error.
pub proof fn lemma_lex_balanced_then_parse_succeeds(src: Seq<u8>)
    requires
        balanced(crate::lexer::lex_spec(src)),
    ensures
        structure_error(crate::lexer::lex_spec(src)) is None,
{
    lemma_balanced_never_errors(crate::lexer::lex_spec(src));
}

/// A closing bracket with no preceding unmatched opening bracket — the
/// first one the depth count finds at depth zero — is reported as the
/// unmatched-close error with its index among the symbols.
pub proof fn lemma_unmatched_close_reported(ops: Seq<OpCode>, j: int)
    requires
        0 <= j < ops.len(),
        ops[j] is LoopEnd,
        nesting(ops, j) == 0,
        forall|k: int| 0 <= k < j ==> !(ops[k] is LoopEnd && nesting(ops, k) == 0),
    ensures
        structure_error(ops) == Some(ParseError::UnmatchedClose { position: j as usize }),
{
    lemma_scan_stray_close(ops, 0, 0, 0, j);
}

/// An opening bracket with no matching closing bracket — the last one at
/// nesting depth zero, when every closing bracket matches and some loop
/// stays open — is reported as the unmatched-open error with its index
/// among the symbols.
pub proof fn lemma_unmatched_open_reported(ops: Seq<OpCode>, s: int)
    requires
        forall|k: int| 0 <= k < ops.len() ==> !(ops[k] is LoopEnd && nesting(ops, k) == 0),
        nesting(ops, ops.len() as int) > 0,
        0 <= s < ops.len(),
        ops[s] is LoopBegin,
        nesting(ops, s) == 0,
        forall|m: int| s < m < ops.len() ==> !(ops[m] is LoopBegin && nesting(ops, m) == 0),
    ensures
        structure_error(ops) == Some(ParseError::UnmatchedOpen { position: s as usize }),
{
    lemma_scan_unmatched_open(ops, 0, 0, 0, s);
}

/// Copies the symbols at positions `start..end` into a fresh vector.
fn subrange_vec(ops: &Vec<OpCode>, start: usize, end: usize) -> (r: Vec<OpCode>)
    requires
        start <= end <= ops@.len(),
    ensures
        r@ == ops@.subrange(start as int, end as int),
{
    let mut r: Vec<OpCode> = Vec::new();
    let mut j: usize = start;
    while j < end
        invariant
            start <= j <= end <= ops@.len(),
            r@ == ops@.subrange(start as int, j as int),
        decreases end - j,
    {
        r.push(ops[j]);
        proof {
            assert(ops@.subrange(start as int, j + 1) =~= ops@.subrange(start as int, j as int)
                .push(ops@[j as int]));
        }
        j = j + 1;
    }
    r
}

/// Resolves the matched bracket pairs of a symbol sequence into a tree of
/// instructions, one nesting level per `Loop` node. Succeeds exactly when
/// every bracket matches, and the tree then flattens back to the input;
/// otherwise reports the offending bracket's index.
pub fn parse(op_codes: &Vec<OpCode>) -> (r: Result<Vec<Instruction>, ParseError>)
    ensures
        match r {
            Ok(program) => structure_error(op_codes@) is None && flatten_prog(program@)
                == op_codes@,
            Err(e) => structure_error(op_codes@) == Some(e),
        },
    decreases op_codes@.len(),
{
    let ghost ops = op_codes@;
    let mut program: Vec<Instruction> = Vec::new();
    let mut loop_stack: usize = 0;
    let mut loop_start: usize = 0;
    let mut i: usize = 0;
    while i < op_codes.len()
        invariant
            i <= ops.len(),
            ops == op_codes@,
            loop_stack <= i,
            loop_stack as int == nesting(ops, i as int),
            forall|k: int| 0 <= k <= i ==> nesting(ops, k) >= 0,
            loop_stack > 0 ==> {
                &&& loop_start < i
                &&& ops[loop_start as int] is LoopBegin
                &&& nesting(ops, loop_start as int) == 0
                &&& forall|m: int| loop_start < m <= i ==> nesting(ops, m) >= 1
                &&& flatten_prog(program@) == ops.subrange(0, loop_start as int)
            },
            loop_stack == 0 ==> flatten_prog(program@) == ops.subrange(0, i as int),
            bracket_scan(ops, i as int, loop_stack as int, loop_start as int) == structure_error(
                ops,
            ),
        decreases ops.len() - i,
    {
        let op = op_codes[i];
        let ghost pre = program@;
        if loop_stack == 0 {
            let instr = match op {
                OpCode::Increment => Some(Instruction::Increment),
                OpCode::Decrement => Some(Instruction::Decrement),
                OpCode::IncrementPointer => Some(Instruction::IncrementPointer),
                OpCode::DecrementPointer => Some(Instruction::DecrementPointer),
                OpCode::Read => Some(Instruction::Read),
                OpCode::Write => Some(Instruction::Write),
                OpCode::LoopBegin => {
                    loop_start = i;
                    loop_stack = 1;
                    None
                },
                OpCode::LoopEnd => {
                    return Err(ParseError::UnmatchedClose { position: i });
                },
            };
            match instr {
                Some(instr) => {
                    proof {
                        lemma_flatten_from_push(pre, instr, 0);
                        assert(flatten_instr(instr) =~= seq![op]);
                        assert(ops.subrange(0, i as int) + seq![op] =~= ops.subrange(0, i + 1));
                    }
                    program.push(instr);
                },
                None => (),
            }
        } else {
            match op {
                OpCode::LoopBegin => {
                    loop_stack = loop_stack + 1;
                },
                OpCode::LoopEnd => {
                    loop_stack = loop_stack - 1;
                    if loop_stack == 0 {
                        let ghost a = loop_start as int + 1;
                        let ghost content = ops.subrange(a, i as int);
                        proof {
                            assert(nesting(ops, a) == 1);
                            assert forall|k: int| 0 <= k <= content.len() implies nesting(
                                content,
                                k,
                            ) == nesting(ops, a + k) - 1 by {
                                lemma_nesting_subrange(ops, a, i as int, k);
                            }
                            assert(balanced(content));
                        }
                        let body_ops = subrange_vec(op_codes, loop_start + 1, i);
                        match parse(&body_ops) {
                            Ok(body) => {
                                proof {
                                    lemma_flatten_from_push(pre, Instruction::Loop(body), 0);
                                    assert(flatten_instr(Instruction::Loop(body))
                                        == seq![OpCode::LoopBegin] + content + seq![
                                        OpCode::LoopEnd,
                                    ]);
                                    assert(ops.subrange(0, loop_start as int) + (seq![
                                        OpCode::LoopBegin,
                                    ] + content + seq![OpCode::LoopEnd]) =~= ops.subrange(
                                        0,
                                        i + 1,
                                    ));
                                }
                                program.push(Instruction::Loop(body));
                            },
                            Err(e) => {
                                // The content of a matched pair is balanced,
                                // so its sub-parse cannot fail.
                                proof {
                                    lemma_balanced_never_errors(content);
                                    assert(false);
                                }
                                return Err(e);
                            },
                        }
                    }
                },
                _ => (),
            }
        }
        i = i + 1;
    }
    if loop_stack != 0 {
        return Err(ParseError::UnmatchedOpen { position: loop_start });
    }
    proof {
        assert(ops.subrange(0, i as int) =~= ops);
    }
    Ok(program)
}

} // verus!

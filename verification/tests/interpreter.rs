use bf_rs::lexer::lex;
use bf_rs::machine::run;
use bf_rs::machine::Machine;
use bf_rs::machine::RunError;
use bf_rs::parser::parse;
use bf_rs::parser::ParseError;
use bf_rs::syntax::Instruction;
use bf_rs::syntax::OpCode;

fn lex_str(src: &str) -> Vec<OpCode> {
    lex(&src.as_bytes().to_vec())
}

fn parse_str(src: &str) -> Result<Vec<Instruction>, ParseError> {
    parse(&lex_str(src))
}

fn run_str(src: &str, input: &[u8], budget: u64) -> (Machine, Result<(), RunError>) {
    let program = parse_str(src).expect("source should be well-formed");
    let mut m = Machine::new(input.to_vec());
    let r = run(&program, &mut m, budget);
    (m, r)
}

fn count_loops(program: &[Instruction]) -> usize {
    let mut total = 0;
    for ins in program {
        if let Instruction::Loop(body) = ins {
            total += 1 + count_loops(body);
        }
    }
    total
}

#[test]
fn lex_empty_source() {
    assert_eq!(lex_str(""), vec![]);
}

#[test]
fn lex_only_comment_bytes_gives_no_symbols() {
    assert_eq!(lex_str("hello world!\n\t ok?"), vec![]);
    assert_eq!(parse_str("hello world!\n\t ok?"), Ok(vec![]));
}

#[test]
fn lex_maps_each_glyph() {
    assert_eq!(
        lex_str("+-><,.[]"),
        vec![
            OpCode::Increment,
            OpCode::Decrement,
            OpCode::IncrementPointer,
            OpCode::DecrementPointer,
            OpCode::Read,
            OpCode::Write,
            OpCode::LoopBegin,
            OpCode::LoopEnd,
        ]
    );
}

#[test]
fn lex_skips_bytes_between_glyphs() {
    assert_eq!(
        lex_str("a+b-c"),
        vec![OpCode::Increment, OpCode::Decrement]
    );
}

#[test]
fn parse_empty_symbols() {
    assert_eq!(parse_str(""), Ok(vec![]));
}

#[test]
fn parse_simple_sequence() {
    assert_eq!(
        parse_str("+-><,."),
        Ok(vec![
            Instruction::Increment,
            Instruction::Decrement,
            Instruction::IncrementPointer,
            Instruction::DecrementPointer,
            Instruction::Read,
            Instruction::Write,
        ])
    );
}

#[test]
fn parse_nested_loops() {
    assert_eq!(
        parse_str("+[>[-]<]"),
        Ok(vec![
            Instruction::Increment,
            Instruction::Loop(vec![
                Instruction::IncrementPointer,
                Instruction::Loop(vec![Instruction::Decrement]),
                Instruction::DecrementPointer,
            ]),
        ])
    );
}

#[test]
fn parse_empty_loop_body() {
    assert_eq!(parse_str("[]"), Ok(vec![Instruction::Loop(vec![])]));
}

#[test]
fn parse_adjacent_loops() {
    assert_eq!(
        parse_str("[][]"),
        Ok(vec![
            Instruction::Loop(vec![]),
            Instruction::Loop(vec![]),
        ])
    );
}

#[test]
fn parse_deep_nesting_succeeds() {
    let depth = 64;
    let src = "[".repeat(depth) + &"]".repeat(depth);
    let program = parse_str(&src).expect("balanced brackets should parse");
    assert_eq!(count_loops(&program), depth);
}

#[test]
fn parse_unmatched_close_at_start() {
    assert_eq!(
        parse_str("]"),
        Err(ParseError::UnmatchedClose { position: 0 })
    );
}

#[test]
fn parse_unmatched_close_after_pair() {
    assert_eq!(
        parse_str("[]]"),
        Err(ParseError::UnmatchedClose { position: 2 })
    );
}

#[test]
fn parse_error_position_counts_symbols_not_bytes() {
    assert_eq!(
        parse_str("no ] here"),
        Err(ParseError::UnmatchedClose { position: 0 })
    );
}

#[test]
fn parse_unmatched_open_alone() {
    assert_eq!(
        parse_str("["),
        Err(ParseError::UnmatchedOpen { position: 0 })
    );
}

#[test]
fn parse_unmatched_open_outermost_reported() {
    assert_eq!(
        parse_str("[[]"),
        Err(ParseError::UnmatchedOpen { position: 0 })
    );
}

#[test]
fn parse_unmatched_open_last_toplevel_reported() {
    assert_eq!(
        parse_str("[]["),
        Err(ParseError::UnmatchedOpen { position: 2 })
    );
}

#[test]
fn loop_count_equals_bracket_pairs() {
    let program = parse_str("+[[-]+[.]]").expect("balanced brackets should parse");
    assert_eq!(count_loops(&program), 3);
}

#[test]
fn increment_256_times_wraps_to_zero() {
    let (m, r) = run_str(&"+".repeat(256), &[], 0);
    assert_eq!(r, Ok(()));
    assert_eq!(m.memory[512], 0);
}

#[test]
fn decrement_at_zero_wraps_to_255() {
    let (m, r) = run_str("-", &[], 0);
    assert_eq!(r, Ok(()));
    assert_eq!(m.memory[512], 255);
}

#[test]
fn scenario_loop_moves_value_and_writes_seven() {
    let (m, r) = run_str("++>+++++[<+>-]<.", &[], 1000);
    assert_eq!(r, Ok(()));
    assert_eq!(m.output, vec![7u8]);
    assert_eq!(m.pointer, 512);
    assert_eq!(m.memory[512], 7);
    assert_eq!(m.memory[513], 0);
}

#[test]
fn scenario_echo_one_byte() {
    let (m, r) = run_str(",.", &[0x41], 10);
    assert_eq!(r, Ok(()));
    assert_eq!(m.output, vec![0x41]);
}

#[test]
fn nested_loops_multiply() {
    let (m, r) = run_str("++++[>++++[>++<-]<-]>>.", &[], 10_000);
    assert_eq!(r, Ok(()));
    assert_eq!(m.output, vec![32u8]);
    assert_eq!(m.memory[514], 32);
}

#[test]
fn moving_left_off_the_tape_faults_on_access() {
    let src = "<".repeat(513) + "+";
    let (m, r) = run_str(&src, &[], 0);
    assert_eq!(r, Err(RunError::PointerOutOfRange));
    assert_eq!(m.pointer, -1);
}

#[test]
fn moving_left_without_access_does_not_fault() {
    let (m, r) = run_str(&"<".repeat(513), &[], 0);
    assert_eq!(r, Ok(()));
    assert_eq!(m.pointer, -1);
}

#[test]
fn moving_right_off_the_tape_faults_on_access() {
    let src = ">".repeat(512) + "+";
    let (_, r) = run_str(&src, &[], 0);
    assert_eq!(r, Err(RunError::PointerOutOfRange));
}

#[test]
fn output_before_a_fault_is_kept() {
    let src = ".".to_string() + &"<".repeat(513) + ".";
    let (m, r) = run_str(&src, &[], 0);
    assert_eq!(r, Err(RunError::PointerOutOfRange));
    assert_eq!(m.output, vec![0u8]);
}

#[test]
fn read_with_no_input_left_faults() {
    let (_, r) = run_str(",", &[], 0);
    assert_eq!(r, Err(RunError::InputExhausted));
}

#[test]
fn read_consumes_input_in_order() {
    let (m, r) = run_str(",.>,.", &[3, 5], 10);
    assert_eq!(r, Ok(()));
    assert_eq!(m.output, vec![3, 5]);
}

#[test]
fn spinning_loop_exhausts_the_budget() {
    let (_, r) = run_str("+[]", &[], 50);
    assert_eq!(r, Err(RunError::StepsExhausted));
}

#[test]
fn skipped_loop_costs_no_budget() {
    let (m, r) = run_str("[.]", &[], 0);
    assert_eq!(r, Ok(()));
    assert_eq!(m.output, vec![]);
}

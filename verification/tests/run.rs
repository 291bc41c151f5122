use brainfuck::instruction::Instruction;
use brainfuck::interpreter::{interpret, Fault, Source};
use brainfuck::parser::scan;
use brainfuck::semantics::TAPE_LEN;

struct Run {
    result: Result<(), Fault>,
    tape: Vec<u8>,
    cursor: usize,
    output: Vec<u8>,
    unread: usize,
}

fn run_on(text: &str, tape: Vec<u8>, cursor: usize, input: &[u8], fuel: u64) -> Run {
    let program = scan(&text.to_string()).unwrap();
    let mut tape = tape;
    let mut cursor = cursor;
    let mut source = Source::new(input.to_vec());
    let mut output = Vec::new();
    let result = interpret(
        &program,
        &mut tape,
        &mut cursor,
        &mut source,
        &mut output,
        fuel,
    );
    let mut unread = 0;
    while source.read().is_some() {
        unread += 1;
    }
    Run {
        result,
        tape,
        cursor,
        output,
        unread,
    }
}

fn run(text: &str, input: &[u8]) -> Run {
    run_on(text, vec![0; TAPE_LEN], 0, input, 1_000_000)
}

#[test]
fn tape_has_thirty_thousand_cells() {
    assert_eq!(TAPE_LEN, 30_000);
}

#[test]
fn two_increments_then_output_writes_code_2() {
    let r = run("++.", &[]);
    assert_eq!(r.result, Ok(()));
    assert_eq!(r.output, vec![2]);
    assert_eq!(r.tape[0], 2);
    assert_eq!(r.cursor, 0);
}

#[test]
fn clear_loop_runs_exactly_once() {
    let r = run_on("+[-]", vec![0; TAPE_LEN], 0, &[], 1);
    assert_eq!(r.result, Ok(()));
    assert_eq!(r.tape[0], 0);
    assert_eq!(r.cursor, 0);
    let starved = run_on("+[-]", vec![0; TAPE_LEN], 0, &[], 0);
    assert_eq!(starved.result, Err(Fault::OutOfFuel));
    assert_eq!(starved.tape[0], 1);
}

#[test]
fn input_is_echoed() {
    let r = run(",.", &[65]);
    assert_eq!(r.result, Ok(()));
    assert_eq!(r.output, vec![b'A']);
    assert_eq!(r.unread, 0);
}

#[test]
fn comments_only_change_nothing() {
    let tape = vec![7, 8, 9];
    let r = run_on("no commands here", tape.clone(), 1, &[1, 2], 0);
    assert_eq!(r.result, Ok(()));
    assert_eq!(r.tape, tape);
    assert_eq!(r.cursor, 1);
    assert_eq!(r.output, Vec::<u8>::new());
    assert_eq!(r.unread, 2);
}

#[test]
fn increment_then_decrement_is_a_no_op() {
    for start in [0u8, 1, 127, 254, 255] {
        let r = run_on("+-", vec![3, start, 5], 1, &[], 0);
        assert_eq!(r.result, Ok(()));
        assert_eq!(r.tape, vec![3, start, 5]);
        let r = run_on("-+", vec![3, start, 5], 1, &[], 0);
        assert_eq!(r.result, Ok(()));
        assert_eq!(r.tape, vec![3, start, 5]);
    }
}

#[test]
fn increment_wraps_from_255_to_0() {
    let r = run_on("+", vec![255], 0, &[], 0);
    assert_eq!(r.result, Ok(()));
    assert_eq!(r.tape, vec![0]);
}

#[test]
fn decrement_wraps_from_0_to_255() {
    let r = run_on("-", vec![0], 0, &[], 0);
    assert_eq!(r.result, Ok(()));
    assert_eq!(r.tape, vec![255]);
}

#[test]
fn loop_is_skipped_when_cell_is_zero() {
    let r = run_on("[+.]", vec![0, 0], 0, &[], 0);
    assert_eq!(r.result, Ok(()));
    assert_eq!(r.tape, vec![0, 0]);
    assert_eq!(r.output, Vec::<u8>::new());
}

#[test]
fn endless_loop_stops_for_want_of_fuel() {
    let r = run_on("+[]", vec![0; 4], 0, &[], 1000);
    assert_eq!(r.result, Err(Fault::OutOfFuel));
    assert_eq!(r.tape[0], 1);
    let r = run_on("+[>+<]", vec![0; 4], 0, &[], 300);
    assert_eq!(r.result, Err(Fault::OutOfFuel));
    assert_eq!(r.tape, vec![1, 300u32 as u8, 0, 0]);
}

#[test]
fn each_pass_takes_one_unit_of_fuel() {
    let five_passes = "+++++[-]";
    assert_eq!(run_on(five_passes, vec![0], 0, &[], 5).result, Ok(()));
    let r = run_on(five_passes, vec![0], 0, &[], 4);
    assert_eq!(r.result, Err(Fault::OutOfFuel));
    assert_eq!(r.tape, vec![1]);
}

#[test]
fn inner_loop_runs_on_what_the_pass_has_left() {
    let nested = "++[>++[-]<-]";
    assert_eq!(run_on(nested, vec![0, 0], 0, &[], 4).result, Ok(()));
    let r = run_on(nested, vec![0, 0], 0, &[], 3);
    assert_eq!(r.result, Err(Fault::OutOfFuel));
    assert_eq!(r.tape, vec![1, 1]);
    assert_eq!(r.cursor, 1);
}

#[test]
fn reading_past_the_end_of_input_stores_zero() {
    let r = run_on(",>,>,", vec![9, 9, 9], 0, &[4], 0);
    assert_eq!(r.result, Ok(()));
    assert_eq!(r.tape, vec![4, 0, 0]);
    assert_eq!(r.cursor, 2);
}

#[test]
fn input_is_read_in_order() {
    let r = run(",>,>,<<.>.>.", &[10, 20, 30, 40]);
    assert_eq!(r.result, Ok(()));
    assert_eq!(r.output, vec![10, 20, 30]);
    assert_eq!(r.unread, 1);
}

#[test]
fn cursor_wraps_at_the_width_of_usize_not_of_the_tape() {
    let r = run_on("<", vec![0; 8], 0, &[], 0);
    assert_eq!(r.result, Ok(()));
    assert_eq!(r.cursor, usize::MAX);
    let r = run_on("<>", vec![0; 8], 0, &[], 0);
    assert_eq!(r.result, Ok(()));
    assert_eq!(r.cursor, 0);
    let r = run_on(">", vec![0; 8], usize::MAX, &[], 0);
    assert_eq!(r.cursor, 0);
}

#[test]
fn moving_off_the_tape_is_no_fault_until_a_cell_is_used() {
    let r = run_on(">>>", vec![0, 0], 0, &[], 0);
    assert_eq!(r.result, Ok(()));
    assert_eq!(r.cursor, 3);
    let r = run_on("+>>+", vec![0, 0], 0, &[], 0);
    assert_eq!(r.result, Err(Fault::OffTape));
    assert_eq!(r.tape, vec![1, 0]);
    assert_eq!(r.cursor, 2);
}

#[test]
fn every_use_of_a_cell_off_the_tape_is_a_fault() {
    for text in ["<+", "<-", "<.", "<,", "<[]"] {
        let r = run_on(text, vec![5; 3], 0, &[1], 10);
        assert_eq!(r.result, Err(Fault::OffTape));
        assert_eq!(r.tape, vec![5; 3]);
        assert_eq!(r.cursor, usize::MAX);
        assert_eq!(r.output, Vec::<u8>::new());
        assert_eq!(r.unread, 1);
    }
}

#[test]
fn fault_in_a_loop_body_ends_the_run() {
    let r = run_on("+[>>+]", vec![0, 0], 0, &[], 10);
    assert_eq!(r.result, Err(Fault::OffTape));
    assert_eq!(r.cursor, 2);
}

#[test]
fn multiplication_by_nested_loops() {
    let r = run("+++[>++++[>+<-]<-]>>.", &[]);
    assert_eq!(r.result, Ok(()));
    assert_eq!(r.output, vec![12]);
}

#[test]
fn hello_world() {
    let text = "++++++++[>++++[>++>+++>+++>+<<<<-]>+>+>->>+[<]<-]>>.>---.+++++++..+++.\
                >>.<-.<.+++.------.--------.>>+.>++.";
    let r = run(text, &[]);
    assert_eq!(r.result, Ok(()));
    assert_eq!(r.output, b"Hello World!\n".to_vec());
}

#[test]
fn interpret_runs_a_tree_built_by_hand() {
    let program = vec![
        Instruction::Input,
        Instruction::Loop(vec![
            Instruction::Output,
            Instruction::Decrement,
        ]),
    ];
    let mut tape = vec![0u8; 2];
    let mut cursor = 0;
    let mut source = Source::new(vec![3]);
    let mut output = Vec::new();
    let result = interpret(&program, &mut tape, &mut cursor, &mut source, &mut output, 3);
    assert_eq!(result, Ok(()));
    assert_eq!(output, vec![3, 2, 1]);
    assert_eq!(tape, vec![0, 0]);
}

#[test]
fn source_hands_out_its_bytes_once() {
    let mut source = Source::new(vec![1, 2]);
    assert_eq!(source.read(), Some(1));
    assert_eq!(source.read(), Some(2));
    assert_eq!(source.read(), None);
    assert_eq!(source.read(), None);
}

#[test]
fn more_fuel_changes_nothing_of_a_run_that_had_enough() {
    let text = "++++[>+++[>++<-]<-]>>.";
    let enough = run_on(text, vec![0; 3], 0, &[], 7);
    assert_eq!(enough.result, Ok(()));
    for fuel in [8, 9, 100, u64::MAX] {
        let more = run_on(text, vec![0; 3], 0, &[], fuel);
        assert_eq!(more.result, enough.result);
        assert_eq!(more.tape, enough.tape);
        assert_eq!(more.cursor, enough.cursor);
        assert_eq!(more.output, enough.output);
    }
    assert_eq!(enough.output, vec![24]);
    assert_eq!(
        run_on(text, vec![0; 3], 0, &[], 6).result,
        Err(Fault::OutOfFuel)
    );
}

#[test]
fn a_full_turn_of_a_cell_takes_256_passes() {
    let r = run_on("-[-]", vec![0], 0, &[], 255);
    assert_eq!(r.result, Ok(()));
    assert_eq!(r.tape, vec![0]);
    let r = run_on("-[-]", vec![0], 0, &[], 254);
    assert_eq!(r.result, Err(Fault::OutOfFuel));
    assert_eq!(r.tape, vec![1]);
}

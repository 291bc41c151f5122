use brainfuck::instruction::{unparse, Instruction};
use brainfuck::parser::{scan, scan_instr, scan_loop, ParseError};

fn chars(text: &str) -> Vec<char> {
    text.chars().collect()
}

fn parse(text: &str) -> Result<Vec<Instruction>, ParseError> {
    scan(&text.to_string())
}

#[test]
fn parses_leaf_commands_in_order() {
    assert_eq!(
        parse("><+-.,"),
        Ok(vec![
            Instruction::MoveNext,
            Instruction::MovePrev,
            Instruction::Increment,
            Instruction::Decrement,
            Instruction::Output,
            Instruction::Input,
        ])
    );
}

#[test]
fn empty_text_is_the_empty_program() {
    assert_eq!(parse(""), Ok(vec![]));
}

#[test]
fn comments_only_parse_to_the_empty_program() {
    assert_eq!(parse("hello, world"), Ok(vec![Instruction::Input]));
    assert_eq!(parse("hello world 123\n\t#!"), Ok(vec![]));
    assert_eq!(parse("héllo wörld ☃"), Ok(vec![]));
}

#[test]
fn comments_between_commands_are_skipped() {
    assert_eq!(
        parse("add one: + then print: . done"),
        Ok(vec![Instruction::Increment, Instruction::Output])
    );
}

#[test]
fn brackets_become_nested_loops() {
    assert_eq!(
        parse("+[-[>]<]."),
        Ok(vec![
            Instruction::Increment,
            Instruction::Loop(vec![
                Instruction::Decrement,
                Instruction::Loop(vec![Instruction::MoveNext]),
                Instruction::MovePrev,
            ]),
            Instruction::Output,
        ])
    );
}

#[test]
fn empty_loop_parses() {
    assert_eq!(parse("[]"), Ok(vec![Instruction::Loop(vec![])]));
    assert_eq!(
        parse("[][ ]"),
        Ok(vec![Instruction::Loop(vec![]), Instruction::Loop(vec![])])
    );
}

#[test]
fn unmatched_open_bracket_is_a_parse_error() {
    assert_eq!(parse("+[-"), Err(ParseError::UnclosedLoop));
    assert_eq!(parse("["), Err(ParseError::UnclosedLoop));
    assert_eq!(parse("[[]"), Err(ParseError::UnclosedLoop));
    assert_eq!(parse("[]["), Err(ParseError::UnclosedLoop));
    assert_eq!(parse("++[>[-]"), Err(ParseError::UnclosedLoop));
}

#[test]
fn unmatched_close_bracket_ends_the_program() {
    assert_eq!(parse("]"), Ok(vec![]));
    assert_eq!(
        parse("+-]++"),
        Ok(vec![Instruction::Increment, Instruction::Decrement])
    );
    assert_eq!(
        parse("[-]].["),
        Ok(vec![Instruction::Loop(vec![Instruction::Decrement])])
    );
}

#[test]
fn error_text_names_the_open_loop() {
    assert_eq!(
        ParseError::UnclosedLoop.message(),
        "an opening bracket has no closing bracket"
    );
}

#[test]
fn scan_instr_reads_one_leaf() {
    let text = chars("a+b");
    let mut at = 1;
    assert_eq!(scan_instr(&text, &mut at), Ok(Some(Instruction::Increment)));
    assert_eq!(at, 2);
}

#[test]
fn scan_instr_skips_a_comment() {
    let text = chars("a+b");
    let mut at = 0;
    assert_eq!(scan_instr(&text, &mut at), Ok(None));
    assert_eq!(at, 1);
}

#[test]
fn scan_instr_leaves_a_closing_bracket_unread() {
    let text = chars("+]");
    let mut at = 1;
    assert_eq!(scan_instr(&text, &mut at), Ok(None));
    assert_eq!(at, 1);
}

#[test]
fn scan_instr_reads_a_whole_loop() {
    let text = chars("x[-[+]]y");
    let mut at = 1;
    assert_eq!(
        scan_instr(&text, &mut at),
        Ok(Some(Instruction::Loop(vec![
            Instruction::Decrement,
            Instruction::Loop(vec![Instruction::Increment]),
        ])))
    );
    assert_eq!(at, 7);
}

#[test]
fn scan_instr_reports_an_open_loop() {
    let text = chars("[+");
    let mut at = 0;
    assert_eq!(scan_instr(&text, &mut at), Err(ParseError::UnclosedLoop));
    assert_eq!(at, 2);
}

#[test]
fn scan_loop_stops_behind_the_closing_bracket() {
    let text = chars("[>.<]+");
    let mut at = 1;
    assert_eq!(
        scan_loop(&text, &mut at),
        Ok(Instruction::Loop(vec![
            Instruction::MoveNext,
            Instruction::Output,
            Instruction::MovePrev,
        ]))
    );
    assert_eq!(at, 5);
}

#[test]
fn scan_loop_at_the_end_of_text_is_an_error() {
    let text = chars("[");
    let mut at = 1;
    assert_eq!(scan_loop(&text, &mut at), Err(ParseError::UnclosedLoop));
    assert_eq!(at, 1);
}

#[test]
fn unparse_writes_each_command() {
    let program = vec![
        Instruction::Increment,
        Instruction::Loop(vec![
            Instruction::MoveNext,
            Instruction::Input,
            Instruction::Loop(vec![]),
            Instruction::MovePrev,
            Instruction::Decrement,
        ]),
        Instruction::Output,
    ];
    assert_eq!(unparse(&program), chars("+[>,[]<-]."));
}

#[test]
fn parse_unparse_parse_is_stable() {
    let source = "read: , then loop [ > + [ - ] < - ] and print . ] not reached +";
    let program = parse(source).unwrap();
    let text: String = unparse(&program).into_iter().collect();
    assert_eq!(text, ",[>+[-]<-].");
    assert_eq!(parse(&text), Ok(program));
}

#[test]
fn unparse_then_parse_gives_the_program_back() {
    let program = vec![
        Instruction::Loop(vec![Instruction::Loop(vec![Instruction::Loop(vec![])])]),
        Instruction::MovePrev,
        Instruction::Loop(vec![Instruction::Output, Instruction::Input]),
    ];
    let text: String = unparse(&program).into_iter().collect();
    assert_eq!(text, "[[[]]]<[.,]");
    assert_eq!(parse(&text), Ok(program));
}

#[test]
fn deep_nesting_parses_and_writes_back() {
    let depth = 200;
    let text: String = "[".repeat(depth) + "+" + &"]".repeat(depth);
    let program = parse(&text).unwrap();
    let mut level = &program;
    for _ in 0..depth {
        assert_eq!(level.len(), 1);
        level = match &level[0] {
            Instruction::Loop(body) => body,
            other => panic!("no loop but {:?}", other),
        };
    }
    assert_eq!(level, &vec![Instruction::Increment]);
    let back: String = unparse(&program).into_iter().collect();
    assert_eq!(back, text);
    let open = "[".repeat(depth) + "+" + &"]".repeat(depth - 1);
    assert_eq!(parse(&open), Err(ParseError::UnclosedLoop));
}

#[test]
fn a_character_of_several_bytes_is_one_comment() {
    let text = chars("é[☃+]");
    let mut at = 0;
    assert_eq!(scan_instr(&text, &mut at), Ok(None));
    assert_eq!(at, 1);
    assert_eq!(
        scan_instr(&text, &mut at),
        Ok(Some(Instruction::Loop(vec![Instruction::Increment])))
    );
    assert_eq!(at, 5);
}

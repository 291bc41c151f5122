//! The parser: from source text to a tree of instructions.
//!
//! Characters are read left to right. Six characters stand for one
//! instruction each, a bracket pair encloses the body of a loop, and every
//! other character is skipped. A closing bracket that closes no loop ends
//! the program; an opening bracket that is never closed is an error.

use vstd::prelude::*;
use crate::instruction::{Instruction, lemma_ops_push, lemma_text_push, ops_of, text_of};
use crate::reading::{lemma_loop_at, lemma_parsed_is_unique, lemma_parsed_keeps_commands};
use crate::syntax::{
    block_end,
    commands,
    is_program_of,
    leaf_of,
    lemma_block_stands_alone,
    lemma_commands_add,
    lemma_commands_one,
    lemma_commands_split_loop,
    lemma_sweep_deeper,
    lemma_sweep_stops,
    loop_at,
    open_loops,
    parsed,
    sweep,
};

verus! {

/// Why a text is not a program.
#[derive(Debug, Clone, Copy, PartialEq, Eq, Structural)]
pub enum ParseError {
    /// An opening bracket has no closing bracket after it.
    UnclosedLoop,
}

impl ParseError {
    /// What went wrong, in words.
    pub fn message(&self) -> (text: &'static str)
        ensures
            text@ == "an opening bracket has no closing bracket"@,
    {
        match self {
            ParseError::UnclosedLoop => "an opening bracket has no closing bracket",
        }
    }
}

/// Parses `content` into a program.
///
/// The program is the one whose text is the command characters of
/// `content`, read up to the first closing bracket that closes no loop, or
/// to the end where there is none. Where a loop is still open at the end,
/// there is no such program, and the result is an error.
pub fn scan(content: &String) -> (r: Result<Vec<Instruction>, ParseError>)
    ensures
        match r {
            Ok(program) => {
                &&& parsed(content@) == Some(ops_of(program@))
                &&& is_program_of(ops_of(program@), content@)
            },
            Err(e) => parsed(content@) is None && e == ParseError::UnclosedLoop,
        },
{
    let mut current: usize = 0;
    let chars = chars_of(content.as_str());
    match scan_block(&chars, &mut current) {
        Ok(program) => {
            proof {
                lemma_parsed_is_unique(content@, ops_of(program@));
            }
            Ok(program)
        },
        Err(e) => Err(e),
    }
}

/// Scans one character at `*current`.
///
/// A command character other than a bracket gives its instruction. An
/// opening bracket gives the loop that it opens, and the scan goes on
/// behind the bracket that closes it. A closing bracket gives nothing and
/// is left unread. Any other character is skipped.
pub fn scan_instr(chars: &Vec<char>, current: &mut usize) -> (r: Result<
    Option<Instruction>,
    ParseError,
>)
    requires
        *old(current) < chars.len(),
    ensures
        ({
            let at = *old(current) as int;
            let close = block_end(chars@, at + 1);
            if chars@[at] == '[' {
                if close < chars.len() {
                    &&& r matches Ok(Some(instr))
                    &&& Some(instr@) == loop_at(chars@, at + 1)
                    &&& *final(current) == close + 1
                } else {
                    &&& r == Err::<Option<Instruction>, ParseError>(ParseError::UnclosedLoop)
                    &&& *final(current) == chars.len()
                }
            } else if chars@[at] == ']' {
                &&& r == Ok::<Option<Instruction>, ParseError>(None)
                &&& *final(current) == at
            } else if leaf_of(chars@[at]) is Some {
                &&& r matches Ok(Some(instr))
                &&& Some(instr@) == leaf_of(chars@[at])
                &&& *final(current) == at + 1
            } else {
                &&& r == Ok::<Option<Instruction>, ParseError>(None)
                &&& *final(current) == at + 1
            }
        }),
    decreases chars.len() - *old(current), 0int,
{
    let ch = chars[*current];
    *current += 1;
    match ch {
        '>' => Ok(Some(Instruction::MoveNext)),
        '<' => Ok(Some(Instruction::MovePrev)),
        '+' => Ok(Some(Instruction::Increment)),
        '-' => Ok(Some(Instruction::Decrement)),
        '.' => Ok(Some(Instruction::Output)),
        ',' => Ok(Some(Instruction::Input)),
        '[' => match scan_loop(chars, current) {
            Ok(instr) => Ok(Some(instr)),
            Err(e) => Err(e),
        },
        ']' => {
            *current -= 1;
            Ok(None)
        },
        _ => Ok(None),
    }
}

/// Scans the body of a loop, from behind its opening bracket at `*current`
/// to behind the bracket that closes it.
pub fn scan_loop(chars: &Vec<char>, current: &mut usize) -> (r: Result<Instruction, ParseError>)
    requires
        *old(current) <= chars.len(),
    ensures
        match r {
            Ok(instr) => {
                &&& block_end(chars@, *old(current) as int) < chars.len()
                &&& *final(current) == block_end(chars@, *old(current) as int) + 1
                &&& Some(instr@) == loop_at(chars@, *old(current) as int)
            },
            Err(e) => {
                &&& block_end(chars@, *old(current) as int) == chars.len()
                &&& *final(current) == chars.len()
                &&& e == ParseError::UnclosedLoop
            },
        },
    decreases chars.len() - *old(current), 2int,
{
    let ghost start = *current as int;
    match scan_block(chars, current) {
        Ok(body) => {
            proof {
                lemma_sweep_stops(chars@, start, 0);
            }
            if *current < chars.len() {
                proof {
                    lemma_loop_at(chars@, start, ops_of(body@));
                }
                *current += 1;  // move past the closing bracket
                Ok(Instruction::Loop(body))
            } else {
                Err(ParseError::UnclosedLoop)
            }
        },
        Err(e) => Err(e),
    }
}

/// Scans instructions from `*current` up to the closing bracket that ends
/// the block, or to the end of the text.
fn scan_block(chars: &Vec<char>, current: &mut usize) -> (r: Result<Vec<Instruction>, ParseError>)
    requires
        *old(current) <= chars.len(),
    ensures
        match r {
            Ok(body) => {
                &&& open_loops(chars@, *old(current) as int) == 0
                &&& *final(current) == block_end(chars@, *old(current) as int)
                &&& text_of(ops_of(body@)) == commands(
                    chars@.subrange(*old(current) as int, *final(current) as int),
                )
            },
            Err(e) => {
                &&& open_loops(chars@, *old(current) as int) > 0
                &&& block_end(chars@, *old(current) as int) == chars.len()
                &&& *final(current) == chars.len()
                &&& e == ParseError::UnclosedLoop
            },
        },
    decreases chars.len() - *old(current), 1int,
{
    let ghost start = *current as int;
    let mut body: Vec<Instruction> = Vec::new();
    proof {
        assert(chars@.subrange(start, start) =~= Seq::<char>::empty());
        assert(commands(Seq::<char>::empty()) =~= Seq::<char>::empty()) by {
            reveal(Seq::filter);
        }
    }
    while *current < chars.len() && chars[*current] != ']'
        invariant
            start == *old(current),
            start <= *current <= chars.len(),
            sweep(chars@, start, 0) == sweep(chars@, *current as int, 0),
            text_of(ops_of(body@)) == commands(chars@.subrange(start, *current as int)),
        decreases chars.len() - *current,
    {
        let ghost at = *current as int;
        let ghost before = body@;
        proof {
            lemma_sweep_stops(chars@, at + 1, 0);
            lemma_sweep_deeper(chars@, at + 1, 0, 1);
        }
        match scan_instr(chars, current) {
            Ok(Some(instr)) => {
                body.push(instr);
                proof {
                    lemma_ops_push(before, instr);
                    lemma_text_push(ops_of(before), instr@);
                }
            },
            Ok(None) => {},
            Err(e) => {
                return Err(e);
            },
        }
        proof {
            let seen = chars@.subrange(start, at);
            let read = chars@.subrange(at, *current as int);
            assert(chars@.subrange(start, *current as int) =~= seen + read);
            lemma_commands_add(seen, read);
            if chars@[at] == '[' {
                lemma_parsed_keeps_commands(chars@.subrange(at + 1, *current - 1));
                lemma_block_stands_alone(chars@, at + 1, at + 1, 0);
                assert(chars@.subrange(at + 1, *current - 1).take(*current - 1 - (at + 1))
                    =~= chars@.subrange(at + 1, *current - 1));
                lemma_commands_split_loop(chars@, at, *current - 1, *current as int);
                assert(chars@.subrange(*current as int, *current as int) =~= Seq::<char>::empty());
            } else {
                assert(read =~= seq![chars@[at]]);
                lemma_commands_one(chars@[at]);
            }
            assert(text_of(ops_of(body@)) =~= commands(chars@.subrange(start, *current as int)));
        }
    }
    proof {
        lemma_sweep_stops(chars@, start, 0);
    }
    Ok(body)
}

/// The characters of `content`, in order.
fn chars_of(content: &str) -> (chars: Vec<char>)
    ensures
        chars@ == content@,
{
    let mut chars: Vec<char> = Vec::new();
    let source = content.chars();
    proof {
        vstd::string::axiom_spec_iter(content);
    }
    for c in it: source
        invariant
            it.seq() == content@,
            chars@ == content@.take(it.index()),
    {
        chars.push(c);
        proof {
            assert(content@.take(it.index() + 1) =~= content@.take(it.index()).push(c));
        }
    }
    proof {
        assert(content@.take(content@.len() as int) =~= content@);
    }
    chars
}

} // verus!

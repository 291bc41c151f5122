//! The evaluator: walks an instruction tree and carries out each
//! instruction on a tape, a cursor, an input source and an output sink.

use vstd::prelude::*;
use crate::instruction::{Instruction, lemma_ops_index, lemma_ops_len, ops_of};
use crate::semantics::{Outcome, Store, run, run_from, run_loop, run_op};

verus! {

/// Why a run stopped before the end of the program.
#[derive(Debug, Clone, Copy, PartialEq, Eq, Structural)]
pub enum Fault {
    /// An instruction needed the current cell while the cursor was off the
    /// tape.
    OffTape,
    /// A loop had a pass to make and no fuel left for it.
    OutOfFuel,
}

/// The bytes that a program reads, one at a time.
pub struct Source {
    bytes: Vec<u8>,
    taken: usize,
}

impl View for Source {
    type V = Seq<u8>;

    /// The bytes that are still to be read.
    closed spec fn view(&self) -> Seq<u8> {
        self.bytes@.skip(self.taken as int)
    }
}

impl Source {
    #[verifier::type_invariant]
    spec fn wf(self) -> bool {
        self.taken <= self.bytes.len()
    }

    /// A source that hands out `bytes`, first to last.
    pub fn new(bytes: Vec<u8>) -> (source: Source)
        ensures
            source@ == bytes@,
    {
        proof {
            assert(bytes@.skip(0) =~= bytes@);
        }
        Source { bytes, taken: 0 }
    }

    /// Takes the next byte, if there is one.
    pub fn read(&mut self) -> (byte: Option<u8>)
        ensures
            old(self)@.len() > 0 ==> byte == Some(old(self)@.first()) && final(self)@ == old(
                self,
            )@.drop_first(),
            old(self)@.len() == 0 ==> byte is None && final(self)@ == old(self)@,
    {
        proof {
            use_type_invariant(&*self);
        }
        if self.taken < self.bytes.len() {
            let byte = self.bytes[self.taken];
            self.taken += 1;
            proof {
                assert(self.bytes@.skip(self.taken as int) =~= old(self)@.drop_first());
            }
            Some(byte)
        } else {
            None
        }
    }
}

/// The outcome that a result and the store left behind stand for.
pub open spec fn outcome_of(result: Result<(), Fault>, store: Store) -> Outcome {
    match result {
        Ok(()) => Outcome::Finished(store),
        Err(Fault::OffTape) => Outcome::OffTape(store),
        Err(Fault::OutOfFuel) => Outcome::OutOfFuel(store),
    }
}

/// Runs `instrs` on the tape `memory` with the cursor `*p`, reading from
/// `input` and writing to `output`.
///
/// The run ends as `run` says for these instructions, this store and this
/// much fuel, and leaves the tape, the cursor, the input and the output as
/// they are in the store of that outcome.
pub fn interpret(
    instrs: &Vec<Instruction>,
    memory: &mut [u8],
    p: &mut usize,
    input: &mut Source,
    output: &mut Vec<u8>,
    fuel: u64,
) -> (r: Result<(), Fault>)
    ensures
        outcome_of(
            r,
            Store {
                tape: final(memory)@,
                cursor: *final(p),
                input: final(input)@,
                output: final(output)@,
            },
        ) == run(
            ops_of(instrs@),
            Store { tape: old(memory)@, cursor: *old(p), input: old(input)@, output: old(output)@ },
            fuel as nat,
        ),
    decreases fuel,
{
    let ghost ops = ops_of(instrs@);
    let ghost first = Store {
        tape: memory@,
        cursor: *p,
        input: input@,
        output: output@,
    };
    let mut at: usize = 0;
    proof {
        lemma_ops_len(instrs@);
    }
    while at < instrs.len()
        invariant
            at <= instrs.len(),
            ops == ops_of(instrs@),
            ops.len() == instrs.len(),
            first == (Store {
                tape: old(memory)@,
                cursor: *old(p),
                input: old(input)@,
                output: old(output)@,
            }),
            run_from(
                ops,
                at as int,
                Store { tape: memory@, cursor: *p, input: input@, output: output@ },
                fuel as nat,
            ) == run(ops, first, fuel as nat),
        decreases instrs.len() - at,
    {
        let ghost now = Store { tape: memory@, cursor: *p, input: input@, output: output@ };
        proof {
            lemma_ops_index(instrs@, at as int);
        }
        match &instrs[at] {
            Instruction::MoveNext => {
                *p = p.wrapping_add(1);
            },
            Instruction::MovePrev => {
                *p = p.wrapping_sub(1);
            },
            Instruction::Increment => {
                if *p >= memory.len() {
                    return Err(Fault::OffTape);
                }
                memory[*p] = memory[*p].wrapping_add(1);
            },
            Instruction::Decrement => {
                if *p >= memory.len() {
                    return Err(Fault::OffTape);
                }
                memory[*p] = memory[*p].wrapping_sub(1);
            },
            Instruction::Output => {
                if *p >= memory.len() {
                    return Err(Fault::OffTape);
                }
                output.push(memory[*p]);
            },
            Instruction::Input => {
                if *p >= memory.len() {
                    return Err(Fault::OffTape);
                }
                match input.read() {
                    Some(byte) => {
                        memory[*p] = byte;
                    },
                    None => {
                        memory[*p] = 0;
                    },
                }
            },
            Instruction::Loop(body) => {
                let mut left = fuel;
                loop
                    invariant
                        left <= fuel,
                        ops == ops_of(instrs@),
                        first == (Store {
                            tape: old(memory)@,
                            cursor: *old(p),
                            input: old(input)@,
                            output: old(output)@,
                        }),
                        ops[at as int] is Loop,
                        ops_of(body@) == ops[at as int]->Loop_0,
                        run_loop(
                            ops_of(body@),
                            Store { tape: memory@, cursor: *p, input: input@, output: output@ },
                            left as nat,
                        ) == run_op(ops[at as int], now, fuel as nat),
                        run_from(ops, at as int, now, fuel as nat) == run(ops, first, fuel as nat),
                        at < ops.len(),
                    ensures
                        run_op(ops[at as int], now, fuel as nat) == Outcome::Finished(
                            Store { tape: memory@, cursor: *p, input: input@, output: output@ },
                        ),
                    decreases left,
                {
                    if *p >= memory.len() {
                        return Err(Fault::OffTape);
                    }
                    if memory[*p] == 0 {
                        break ;
                    }
                    if left == 0 {
                        return Err(Fault::OutOfFuel);
                    }
                    left -= 1;
                    match interpret(body, memory, p, input, output, left) {
                        Ok(()) => {},
                        Err(fault) => {
                            return Err(fault);
                        },
                    }
                }
            },
        }
        at += 1;
    }
    Ok(())
}

} // verus!

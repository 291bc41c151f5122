//! What a program means: its effect on a tape of cells, a cursor, and the
//! bytes it reads and writes.
//!
//! A loop may run forever, so the meaning is given for a budget of fuel.
//! Each pass of a loop takes one unit of the fuel that the loop was entered
//! with, both for the passes that follow and for what runs inside the pass.
//! A run that would need more fuel than it has stops where it stands.

use vstd::prelude::*;
use crate::instruction::Op;

verus! {

/// Everything a program can see and change.
#[verifier::ext_equal]
pub ghost struct Store {
    /// The cells.
    pub tape: Seq<u8>,
    /// The index of the current cell. It wraps at the width of `usize`, not
    /// at the length of the tape, so it may point off the tape.
    pub cursor: usize,
    /// The bytes that are still to be read.
    pub input: Seq<u8>,
    /// The bytes written so far.
    pub output: Seq<u8>,
}

impl Store {
    /// Whether the cursor points at a cell.
    pub open spec fn on_tape(self) -> bool {
        self.cursor < self.tape.len()
    }

    /// The value of the current cell.
    pub open spec fn cell(self) -> u8
        recommends
            self.on_tape(),
    {
        self.tape[self.cursor as int]
    }

    /// This store with `value` in the current cell.
    pub open spec fn with_cell(self, value: u8) -> Store
        recommends
            self.on_tape(),
    {
        Store { tape: self.tape.update(self.cursor as int, value), ..self }
    }
}

/// The number of cells of the tape that a program is usually run on.
pub const TAPE_LEN: usize = 30_000;

/// The store that a program starts on: `cells` cells that all hold 0, the
/// cursor on the first, `input` to read and nothing written.
pub open spec fn fresh(cells: nat, input: Seq<u8>) -> Store {
    Store { tape: Seq::new(cells, |i: int| 0u8), cursor: 0, input, output: Seq::empty() }
}

/// How a run ends, and the store it leaves.
pub ghost enum Outcome {
    /// Every instruction was carried out.
    Finished(Store),
    /// An instruction needed the current cell while the cursor was off the
    /// tape. The store is the one that the instruction found.
    OffTape(Store),
    /// A loop had a pass to make and no fuel left for it. The store is the
    /// one that the pass would have started from.
    OutOfFuel(Store),
}

/// One more than `value`, and 0 after 255.
pub open spec fn cell_up(value: u8) -> u8 {
    if value == 255 {
        0
    } else {
        (value + 1) as u8
    }
}

/// One less than `value`, and 255 before 0.
pub open spec fn cell_down(value: u8) -> u8 {
    if value == 0 {
        255
    } else {
        (value - 1) as u8
    }
}

/// The cursor one cell up; behind the largest `usize` comes 0.
pub open spec fn cursor_up(cursor: usize) -> usize {
    if cursor == usize::MAX {
        0
    } else {
        (cursor + 1) as usize
    }
}

/// The cursor one cell down; before 0 comes the largest `usize`.
pub open spec fn cursor_down(cursor: usize) -> usize {
    if cursor == 0 {
        usize::MAX
    } else {
        (cursor - 1) as usize
    }
}

/// The store after a read into the current cell: the next byte of the
/// input, or 0 where the input is used up.
pub open spec fn after_read(store: Store) -> Store
    recommends
        store.on_tape(),
{
    if store.input.len() > 0 {
        Store { input: store.input.drop_first(), ..store.with_cell(store.input.first()) }
    } else {
        store.with_cell(0)
    }
}

/// The effect of an instruction other than a loop. (A loop is left to
/// `run_loop`; here it does nothing.)
pub open spec fn step(op: Op, store: Store) -> Outcome {
    match op {
        Op::MoveNext => Outcome::Finished(Store { cursor: cursor_up(store.cursor), ..store }),
        Op::MovePrev => Outcome::Finished(Store { cursor: cursor_down(store.cursor), ..store }),
        Op::Loop(_) => Outcome::Finished(store),
        _ => if !store.on_tape() {
            Outcome::OffTape(store)
        } else {
            Outcome::Finished(
                match op {
                    Op::Increment => store.with_cell(cell_up(store.cell())),
                    Op::Decrement => store.with_cell(cell_down(store.cell())),
                    Op::Output => Store { output: store.output.push(store.cell()), ..store },
                    _ => after_read(store),
                },
            )
        },
    }
}

/// The outcome of the instructions of `ops` from index `at` on, in order,
/// each on the store that the one before it left. The first that does not
/// finish ends the run.
pub open spec fn run_from(ops: Seq<Op>, at: int, store: Store, fuel: nat) -> Outcome
    decreases fuel, ops, ops.len() - at,
{
    if at < 0 || at >= ops.len() {
        Outcome::Finished(store)
    } else {
        match run_op(ops[at], store, fuel) {
            Outcome::Finished(next) => run_from(ops, at + 1, next, fuel),
            stopped => stopped,
        }
    }
}

/// The outcome of one instruction.
pub open spec fn run_op(op: Op, store: Store, fuel: nat) -> Outcome
    decreases fuel, op, 0int,
{
    match op {
        Op::Loop(body) => run_loop(body, store, fuel),
        _ => step(op, store),
    }
}

/// The outcome of a loop: while the current cell is not 0, the body runs in
/// full, and the cell is looked at again after each pass.
pub open spec fn run_loop(body: Seq<Op>, store: Store, fuel: nat) -> Outcome
    decreases fuel, body, body.len() + 1,
{
    if !store.on_tape() {
        Outcome::OffTape(store)
    } else if store.cell() == 0 {
        Outcome::Finished(store)
    } else if fuel == 0 {
        Outcome::OutOfFuel(store)
    } else {
        match run_from(body, 0, store, (fuel - 1) as nat) {
            Outcome::Finished(next) => run_loop(body, next, (fuel - 1) as nat),
            stopped => stopped,
        }
    }
}

/// The outcome of a program.
pub open spec fn run(ops: Seq<Op>, store: Store, fuel: nat) -> Outcome {
    run_from(ops, 0, store, fuel)
}

} // verus!

//! The evaluator as a machine that is driven from outside.
//!
//! The machine carries out one instruction at a time and never reads or
//! writes a byte itself. Where the program writes, the machine hands the
//! byte to its driver; where the program reads, it asks the driver for the
//! byte. The driver owns the input and the output, and decides how long to
//! go on.

use vstd::prelude::*;
use crate::instruction::{Instruction, Op, lemma_ops_index, lemma_ops_len, ops_of};
use crate::semantics::{cell_down, cell_up, cursor_down, cursor_up, fresh};

verus! {

/// What the driver tells the machine.
#[derive(Debug, Clone, Copy, PartialEq, Eq, Structural)]
pub enum Event {
    /// Go on.
    Go,
    /// The byte that was read for the machine's last `Action::Read`, or
    /// `None` where the input is used up.
    Byte(Option<u8>),
}

/// What the machine asks of its driver.
#[derive(Debug, Clone, Copy, PartialEq, Eq, Structural)]
pub enum Action {
    /// Nothing: an instruction was carried out.
    Go,
    /// Write this byte to the output.
    Write(u8),
    /// Read a byte from the input, and hand it over as `Event::Byte`.
    Read,
    /// The program has ended.
    Halt,
    /// An instruction needs the current cell, and the cursor is off the
    /// tape. The machine stays as it is.
    OffTape,
}

/// A block that is being run, and the index of its next instruction.
#[verifier::ext_equal]
pub ghost struct Position {
    /// The block.
    pub ops: Seq<Op>,
    /// The index of the next instruction; the length of the block once all
    /// are done.
    pub at: int,
}

/// The model of a machine.
#[verifier::ext_equal]
pub ghost struct Model {
    /// The blocks that are being run: first the program, then the body of
    /// each loop that is being run, the innermost last. Empty once the
    /// program has ended.
    pub frames: Seq<Position>,
    /// The cells.
    pub tape: Seq<u8>,
    /// The index of the current cell.
    pub cursor: usize,
    /// Whether the machine has asked for a byte and not been given one.
    pub waiting: bool,
}

impl Model {
    /// Whether the cursor points at a cell.
    pub open spec fn on_tape(self) -> bool {
        self.cursor < self.tape.len()
    }

    /// The value of the current cell.
    pub open spec fn cell(self) -> u8
        recommends
            self.on_tape(),
    {
        self.tape[self.cursor as int]
    }

    /// This machine with `value` in the current cell.
    pub open spec fn with_cell(self, value: u8) -> Model
        recommends
            self.on_tape(),
    {
        Model { tape: self.tape.update(self.cursor as int, value), ..self }
    }

    /// This machine with the innermost block moved on by one instruction.
    pub open spec fn moved_on(self) -> Model
        recommends
            self.frames.len() > 0,
    {
        let top = self.frames.last();
        Model {
            frames: self.frames.drop_last().push(Position { at: top.at + 1, ..top }),
            ..self
        }
    }

    /// This machine with the innermost block started again.
    pub open spec fn started_again(self) -> Model
        recommends
            self.frames.len() > 0,
    {
        let top = self.frames.last();
        Model { frames: self.frames.drop_last().push(Position { at: 0, ..top }), ..self }
    }

    /// This machine without the innermost block.
    pub open spec fn left(self) -> Model
        recommends
            self.frames.len() > 0,
    {
        Model { frames: self.frames.drop_last(), ..self }
    }

    /// This machine with `body` as its innermost block, at its start.
    pub open spec fn entered(self, body: Seq<Op>) -> Model {
        Model { frames: self.frames.push(Position { ops: body, at: 0 }), ..self }
    }
}

/// The machine at the start of `program`, on a tape of `cells` cells that
/// all hold 0, with the cursor on the first.
pub open spec fn started(program: Seq<Op>, cells: nat) -> Model {
    Model {
        frames: seq![Position { ops: program, at: 0 }],
        tape: fresh(cells, Seq::empty()).tape,
        cursor: 0,
        waiting: false,
    }
}

/// One step of a machine that waits for a byte: the byte goes into the
/// current cell, 0 where there is none, and the instruction is done. Told
/// to go on instead, the machine asks again.
pub open spec fn next_waiting(m: Model, event: Event) -> (Model, Action) {
    match event {
        Event::Go => (m, Action::Read),
        Event::Byte(byte) => if !m.on_tape() || m.frames.len() == 0 {
            (m, Action::OffTape)
        } else {
            let value = match byte {
                Some(b) => b,
                None => 0,
            };
            (Model { waiting: false, ..m.with_cell(value).moved_on() }, Action::Go)
        },
    }
}

/// One step of a machine whose innermost block has come to its end. The
/// program ends; the body of a loop starts again while the current cell is
/// not 0, and is left when it is.
pub open spec fn next_at_end(m: Model) -> (Model, Action)
    recommends
        m.frames.len() > 0,
{
    if m.frames.len() == 1 {
        (m.left(), Action::Halt)
    } else if !m.on_tape() {
        (m, Action::OffTape)
    } else if m.cell() != 0 {
        (m.started_again(), Action::Go)
    } else {
        (m.left(), Action::Go)
    }
}

/// One step of a machine whose next instruction is `op`.
pub open spec fn next_op(m: Model, op: Op) -> (Model, Action)
    recommends
        m.frames.len() > 0,
{
    match op {
        Op::MoveNext => (Model { cursor: cursor_up(m.cursor), ..m.moved_on() }, Action::Go),
        Op::MovePrev => (Model { cursor: cursor_down(m.cursor), ..m.moved_on() }, Action::Go),
        _ => if !m.on_tape() {
            (m, Action::OffTape)
        } else {
            match op {
                Op::Increment => (m.with_cell(cell_up(m.cell())).moved_on(), Action::Go),
                Op::Decrement => (m.with_cell(cell_down(m.cell())).moved_on(), Action::Go),
                Op::Output => (m.moved_on(), Action::Write(m.cell())),
                Op::Input => (Model { waiting: true, ..m }, Action::Read),
                Op::Loop(body) => if m.cell() != 0 {
                    (m.moved_on().entered(body), Action::Go)
                } else {
                    (m.moved_on(), Action::Go)
                },
                _ => (m, Action::Go),
            }
        },
    }
}

/// One step of a machine: what it becomes on `event`, and what it asks of
/// its driver.
pub open spec fn next(m: Model, event: Event) -> (Model, Action) {
    if m.waiting {
        next_waiting(m, event)
    } else if m.frames.len() == 0 {
        (m, Action::Halt)
    } else {
        let top = m.frames.last();
        if top.at < 0 || top.at >= top.ops.len() {
            next_at_end(m)
        } else {
            next_op(m, top.ops[top.at])
        }
    }
}

/// A block that is being run, and the index of its next instruction.
struct Frame<'a> {
    block: &'a Vec<Instruction>,
    at: usize,
}

impl<'a> View for Frame<'a> {
    type V = Position;

    closed spec fn view(&self) -> Position {
        Position { ops: ops_of(self.block@), at: self.at as int }
    }
}

/// A program that is being run, its tape and its cursor.
pub struct Machine<'a> {
    frames: Vec<Frame<'a>>,
    tape: Vec<u8>,
    cursor: usize,
    waiting: bool,
}

impl<'a> View for Machine<'a> {
    type V = Model;

    closed spec fn view(&self) -> Model {
        Model {
            frames: Seq::new(self.frames@.len(), |i: int| self.frames@[i]@),
            tape: self.tape@,
            cursor: self.cursor,
            waiting: self.waiting,
        }
    }
}

impl<'a> Machine<'a> {
    #[verifier::type_invariant]
    spec fn wf(self) -> bool {
        &&& forall|i: int|
            0 <= i < self.frames@.len() ==> (#[trigger] self.frames@[i]).at
                <= self.frames@[i].block.len()
        &&& self.waiting ==> self.frames@.len() > 0 && self.frames@.last().at
            < self.frames@.last().block.len()
    }

    /// The cells.
    pub fn tape(&self) -> (tape: &Vec<u8>)
        ensures
            tape@ == self@.tape,
    {
        &self.tape
    }

    /// The index of the current cell.
    pub fn cursor(&self) -> (cursor: usize)
        ensures
            cursor == self@.cursor,
    {
        self.cursor
    }

    /// A machine at the start of `program`, on a tape of `cells` cells that
    /// all hold 0, with the cursor on the first.
    pub fn new(program: &'a Vec<Instruction>, cells: usize) -> (machine: Machine<'a>)
        ensures
            machine@ == started(ops_of(program@), cells as nat),
    {
        let mut tape: Vec<u8> = Vec::new();
        while tape.len() < cells
            invariant
                tape.len() <= cells,
                forall|i: int| 0 <= i < tape.len() ==> tape@[i] == 0u8,
            decreases cells - tape.len(),
        {
            tape.push(0);
        }
        let mut frames: Vec<Frame<'a>> = Vec::new();
        frames.push(Frame { block: program, at: 0 });
        let machine = Machine { frames, tape, cursor: 0, waiting: false };
        proof {
            let want = started(ops_of(program@), cells as nat);
            assert(machine@.frames =~= want.frames);
            assert(machine@.tape =~= want.tape);
        }
        machine
    }

    /// Carries out one step: `next` says what the machine becomes and what
    /// it asks of its driver.
    pub fn step(self, event: Event) -> (r: (Machine<'a>, Action))
        ensures
            (r.0@, r.1) == next(self@, event),
    {
        proof {
            use_type_invariant(&self);
        }
        let ghost before = self@;
        let Machine { mut frames, mut tape, mut cursor, mut waiting } = self;
        let mut action = Action::Go;
        let depth = frames.len();
        if depth == 0 {
            action = Action::Halt;
        } else {
            let block = frames[depth - 1].block;
            let at = frames[depth - 1].at;
            proof {
                lemma_ops_len(block@);
                if at < block.len() {
                    lemma_ops_index(block@, at as int);
                }
            }
            if waiting {
                match event {
                    Event::Go => {
                        action = Action::Read;
                    },
                    Event::Byte(byte) => {
                        if cursor >= tape.len() {
                            action = Action::OffTape;
                        } else {
                            tape[cursor] = match byte {
                                Some(b) => b,
                                None => 0,
                            };
                            frames[depth - 1].at = at + 1;
                            waiting = false;
                        }
                    },
                }
            } else if at >= block.len() {
                if depth == 1 {
                    frames.pop();
                    action = Action::Halt;
                } else if cursor >= tape.len() {
                    action = Action::OffTape;
                } else if tape[cursor] != 0 {
                    frames[depth - 1].at = 0;
                } else {
                    frames.pop();
                }
            } else {
                match &block[at] {
                    Instruction::MoveNext => {
                        cursor = cursor.wrapping_add(1);
                        frames[depth - 1].at = at + 1;
                    },
                    Instruction::MovePrev => {
                        cursor = cursor.wrapping_sub(1);
                        frames[depth - 1].at = at + 1;
                    },
                    op => {
                        if cursor >= tape.len() {
                            action = Action::OffTape;
                        } else {
                            match op {
                                Instruction::Increment => {
                                    tape[cursor] = tape[cursor].wrapping_add(1);
                                    frames[depth - 1].at = at + 1;
                                },
                                Instruction::Decrement => {
                                    tape[cursor] = tape[cursor].wrapping_sub(1);
                                    frames[depth - 1].at = at + 1;
                                },
                                Instruction::Output => {
                                    action = Action::Write(tape[cursor]);
                                    frames[depth - 1].at = at + 1;
                                },
                                Instruction::Input => {
                                    waiting = true;
                                    action = Action::Read;
                                },
                                Instruction::Loop(body) => {
                                    frames[depth - 1].at = at + 1;
                                    if tape[cursor] != 0 {
                                        frames.push(Frame { block: body, at: 0 });
                                    }
                                },
                                _ => {},
                            }
                        }
                    },
                }
            }
        }
        let after = Machine { frames, tape, cursor, waiting };
        proof {
            assert(after@.frames =~= next(before, event).0.frames);
        }
        (after, action)
    }
}

} // verus!

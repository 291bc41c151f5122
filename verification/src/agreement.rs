//! The machine and the meaning of programs agree: a machine that is driven
//! to the end of a program leaves what `run` says, and where `run` says
//! that a program ends, a machine that is driven long enough gets there.

use vstd::prelude::*;
use crate::instruction::Op;
use crate::machine::{Action, Event, Model, Position, next, started};
use crate::semantics::{Outcome, Store, fresh, run, run_from, run_loop, run_op, step};

verus! {

/// A machine together with its driver: the input that the driver will hand
/// over, and the output that it has been given.
#[verifier::ext_equal]
pub ghost struct Session {
    /// The machine.
    pub machine: Model,
    /// The bytes that the driver has still to hand over.
    pub input: Seq<u8>,
    /// The bytes that the driver has been given to write.
    pub output: Seq<u8>,
}

impl Session {
    /// What the program sees of the session.
    pub open spec fn store(self) -> Store {
        Store {
            tape: self.machine.tape,
            cursor: self.machine.cursor,
            input: self.input,
            output: self.output,
        }
    }

    /// Whether the program has ended.
    pub open spec fn halted(self) -> bool {
        self.machine.frames.len() == 0 && !self.machine.waiting
    }

    /// Whether the machine stands before an instruction that needs the
    /// current cell, with the cursor off the tape.
    pub open spec fn stuck(self) -> bool {
        !self.machine.waiting && self.machine.frames.len() > 0 && next(self.machine, Event::Go)
            == (self.machine, Action::OffTape)
    }
}

/// The session of a machine that runs `frames` and waits for nothing, on
/// the tape, cursor, input and output of `store`.
pub open spec fn session_at(frames: Seq<Position>, store: Store) -> Session {
    Session {
        machine: Model { frames, tape: store.tape, cursor: store.cursor, waiting: false },
        input: store.input,
        output: store.output,
    }
}

/// The session at the start of `program`.
pub open spec fn session_of(program: Seq<Op>, store: Store) -> Session {
    session_at(seq![Position { ops: program, at: 0 }], store)
}

/// What the driver tells the machine next: the next byte of the input
/// where the machine waits for one, and to go on where it does not.
pub open spec fn event_for(s: Session) -> Event {
    if !s.machine.waiting {
        Event::Go
    } else if s.input.len() > 0 {
        Event::Byte(Some(s.input.first()))
    } else {
        Event::Byte(None)
    }
}

/// The session after one step of the machine: the driver has taken the
/// byte that it handed over from the input, and put the byte that it was
/// given at the end of the output.
pub open spec fn served(s: Session) -> Session {
    let (machine, action) = next(s.machine, event_for(s));
    Session {
        machine,
        input: if s.machine.waiting && s.input.len() > 0 {
            s.input.drop_first()
        } else {
            s.input
        },
        output: match action {
            Action::Write(byte) => s.output.push(byte),
            _ => s.output,
        },
    }
}

/// The session after `n` steps.
pub open spec fn served_n(s: Session, n: nat) -> Session
    decreases n,
{
    if n == 0 {
        s
    } else {
        served_n(served(s), (n - 1) as nat)
    }
}

/// Whether `n` steps from `start` bear out `outcome`: the machine has come
/// to `frames` with the store of an outcome that finished, or is stuck with
/// the store of one that stopped off the tape. Of an outcome that ran out
/// of `fuel` it says that the machine is still more than `depth` blocks
/// deep after `n` steps and not stuck, and that `n` is at least the fuel.
pub open spec fn bears_out(
    start: Session,
    n: nat,
    outcome: Outcome,
    frames: Seq<Position>,
    depth: nat,
    fuel: nat,
) -> bool {
    match outcome {
        Outcome::Finished(end) => served_n(start, n) == session_at(frames, end),
        Outcome::OffTape(end) => served_n(start, n).stuck() && served_n(start, n).store() == end,
        Outcome::OutOfFuel(_) => {
            &&& n >= fuel
            &&& served_n(start, n).machine.frames.len() > depth
            &&& !served_n(start, n).stuck()
        },
    }
}

/// `a` steps and then `b` steps are `a + b` steps.
pub proof fn lemma_served_add(s: Session, a: nat, b: nat)
    ensures
        served_n(s, a + b) == served_n(served_n(s, a), b),
    decreases a,
{
    if a > 0 {
        lemma_served_add(served(s), (a - 1) as nat, b);
    }
}

/// One step more.
pub proof fn lemma_served_one_more(s: Session, n: nat)
    ensures
        served_n(s, n + 1) == served(served_n(s, n)),
{
    lemma_served_add(s, n, 1);
    reveal_with_fuel(served_n, 2);
}

/// A machine that has halted, or that is stuck, stays as it is.
pub proof fn lemma_rest_is_final(s: Session, n: nat)
    requires
        s.halted() || s.stuck(),
    ensures
        served_n(s, n) == s,
    decreases n,
{
    if n > 0 {
        assert(served(s) =~= s);
        lemma_rest_is_final(s, (n - 1) as nat);
    }
}

/// The machine carries out an instruction other than a loop as `step`
/// says, in the `n` steps of the result.
pub proof fn lemma_machine_steps(below: Seq<Position>, ops: Seq<Op>, at: int, store: Store) -> (n:
    nat)
    requires
        0 <= at < ops.len(),
        !(ops[at] is Loop),
    ensures
        match step(ops[at], store) {
            Outcome::Finished(next) => n >= 1 && served_n(
                session_at(below.push(Position { ops, at }), store),
                n,
            ) == session_at(below.push(Position { ops, at: at + 1 }), next),
            Outcome::OffTape(same) => n == 0 && same == store && session_at(
                below.push(Position { ops, at }),
                store,
            ).stuck(),
            Outcome::OutOfFuel(_) => false,
        },
{
    let frames = below.push(Position { ops, at });
    let start = session_at(frames, store);
    assert(frames.drop_last() =~= below);
    reveal_with_fuel(served_n, 3);
    match step(ops[at], store) {
        Outcome::Finished(end) => {
            let want = session_at(below.push(Position { ops, at: at + 1 }), end);
            if ops[at] is Input {
                assert(served(served(start)) =~= want);
                2
            } else {
                assert(served(start) =~= want);
                1
            }
        },
        _ => 0,
    }
}

/// The machine runs a block from `at` on as `run_from` says, in the `n`
/// steps of the result, and comes to the end of the block.
pub proof fn lemma_machine_runs_block(
    below: Seq<Position>,
    ops: Seq<Op>,
    at: int,
    store: Store,
    fuel: nat,
) -> (n: nat)
    requires
        0 <= at <= ops.len(),
    ensures
        bears_out(
            session_at(below.push(Position { ops, at }), store),
            n,
            run_from(ops, at, store, fuel),
            below.push(Position { ops, at: ops.len() as int }),
            below.len(),
            fuel,
        ),
    decreases fuel, ops, ops.len() - at,
{
    let start = session_at(below.push(Position { ops, at }), store);
    let moved = below.push(Position { ops, at: at + 1 });
    assert(below.push(Position { ops, at }).drop_last() =~= below);
    if at >= ops.len() {
        0
    } else if let Op::Loop(body) = ops[at] {
        assert(run_op(ops[at], store, fuel) == run_loop(body, store, fuel));
        if !store.on_tape() {
            0
        } else if store.cell() == 0 {
            assert(served(start) =~= session_at(moved, store));
            let n = lemma_machine_runs_block(below, ops, at + 1, store, fuel);
            lemma_served_add(start, 1, n);
            reveal_with_fuel(served_n, 2);
            1 + n
        } else if fuel == 0 {
            0
        } else {
            let inside = moved.push(Position { ops: body, at: 0 });
            assert(served(start) =~= session_at(inside, store));
            reveal_with_fuel(served_n, 2);
            let less = (fuel - 1) as nat;
            let n1 = lemma_machine_runs_block(moved, body, 0, store, less);
            lemma_served_add(start, 1, n1);
            match run_from(body, 0, store, less) {
                Outcome::Finished(passed) => {
                    let n2 = lemma_machine_runs_loop(moved, body, passed, less);
                    lemma_served_add(start, 1 + n1, n2);
                    match run_loop(body, passed, less) {
                        Outcome::Finished(out) => {
                            let n3 = lemma_machine_runs_block(below, ops, at + 1, out, fuel);
                            lemma_served_add(start, 1 + n1 + n2, n3);
                            1 + n1 + n2 + n3
                        },
                        _ => 1 + n1 + n2,
                    }
                },
                _ => 1 + n1,
            }
        }
    } else {
        assert(run_op(ops[at], store, fuel) == step(ops[at], store));
        let n1 = lemma_machine_steps(below, ops, at, store);
        match step(ops[at], store) {
            Outcome::Finished(next) => {
                let n2 = lemma_machine_runs_block(below, ops, at + 1, next, fuel);
                lemma_served_add(start, n1, n2);
                n1 + n2
            },
            _ => 0,
        }
    }
}

/// The machine at the end of a loop's body goes on as `run_loop` says, in
/// the `n` steps of the result, and leaves the loop.
pub proof fn lemma_machine_runs_loop(below: Seq<Position>, body: Seq<Op>, store: Store, fuel: nat)
    -> (n: nat)
    requires
        below.len() > 0,
    ensures
        bears_out(
            session_at(below.push(Position { ops: body, at: body.len() as int }), store),
            n,
            run_loop(body, store, fuel),
            below,
            below.len(),
            fuel,
        ),
    decreases fuel, body, body.len() + 1,
{
    let ended = below.push(Position { ops: body, at: body.len() as int });
    let start = session_at(ended, store);
    assert(ended.drop_last() =~= below);
    if !store.on_tape() {
        0
    } else if store.cell() == 0 {
        assert(served(start) =~= session_at(below, store));
        reveal_with_fuel(served_n, 2);
        1
    } else if fuel == 0 {
        0
    } else {
        let again = below.push(Position { ops: body, at: 0 });
        assert(served(start) =~= session_at(again, store));
        reveal_with_fuel(served_n, 2);
        let less = (fuel - 1) as nat;
        let n1 = lemma_machine_runs_block(below, body, 0, store, less);
        lemma_served_add(start, 1, n1);
        match run_from(body, 0, store, less) {
            Outcome::Finished(passed) => {
                let n2 = lemma_machine_runs_loop(below, body, passed, less);
                lemma_served_add(start, 1 + n1, n2);
                1 + n1 + n2
            },
            _ => 1 + n1,
        }
    }
}

/// Where `run` says that a program ends, a machine that is driven for the
/// `n` steps of the result has halted, with the store that `run` gives.
/// Where `run` says that the program stops off the tape, the machine is
/// stuck after `n` steps, with that store. Where `run` has no fuel left,
/// the machine has neither halted nor got stuck after `n` steps, and `n`
/// is at least the fuel.
pub proof fn lemma_machine_follows_run(program: Seq<Op>, store: Store, fuel: nat) -> (n: nat)
    ensures
        bears_out(
            session_of(program, store),
            n,
            run(program, store, fuel),
            Seq::empty(),
            0,
            fuel,
        ),
{
    let below = Seq::<Position>::empty();
    let start = session_of(program, store);
    assert(below.push(Position { ops: program, at: 0 }) =~= seq![Position { ops: program, at: 0 }]);
    let n = lemma_machine_runs_block(below, program, 0, store, fuel);
    match run(program, store, fuel) {
        Outcome::Finished(end) => {
            let ended = below.push(Position { ops: program, at: program.len() as int });
            assert(ended.drop_last() =~= below);
            assert(served(session_at(ended, end)) =~= session_at(below, end));
            lemma_served_one_more(start, n);
            n + 1
        },
        _ => n,
    }
}

/// Where a machine that is driven for `n` steps has halted, `run` says,
/// with `n` as the fuel, that the program ends with the store that the
/// machine has left. Where the machine is stuck after `n` steps, `run` says
/// that the program stops off the tape, with that store.
pub proof fn lemma_run_follows_machine(program: Seq<Op>, store: Store, n: nat)
    ensures
        served_n(session_of(program, store), n).halted() ==> run(program, store, n)
            == Outcome::Finished(served_n(session_of(program, store), n).store()),
        served_n(session_of(program, store), n).stuck() ==> run(program, store, n)
            == Outcome::OffTape(served_n(session_of(program, store), n).store()),
{
    let start = session_of(program, store);
    let here = served_n(start, n);
    if here.halted() || here.stuck() {
        let k = lemma_machine_follows_run(program, store, n);
        let there = served_n(start, k);
        if k <= n {
            lemma_served_add(start, k, (n - k) as nat);
            if there.halted() || there.stuck() {
                lemma_rest_is_final(there, (n - k) as nat);
            }
        } else {
            lemma_served_add(start, n, (k - n) as nat);
            lemma_rest_is_final(here, (k - n) as nat);
        }
        assert(there == here);
        assert(session_at(Seq::<Position>::empty(), here.store()).halted());
    }
}

/// A machine made by `Machine::new` is at the start of a session on a
/// fresh store.
pub proof fn lemma_started_is_session(program: Seq<Op>, cells: nat, input: Seq<u8>)
    ensures
        session_of(program, fresh(cells, input)).machine == started(program, cells),
{
}

} // verus!

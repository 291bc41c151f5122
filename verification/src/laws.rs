//! What holds of every program: theorems about parsing and running, proved
//! from the definitions in `syntax` and `semantics`.

use vstd::prelude::*;
use crate::instruction::{Op, text_of};
use crate::reading::{
    lemma_commands_of_text,
    lemma_parsed_is_unique,
    lemma_parsed_keeps_commands,
    lemma_sweep_over_text,
};
use crate::semantics::{Outcome, Store, cell_down, cell_up, run, run_from, run_loop, run_op};
use crate::syntax::{block_end, commands, is_command, lemma_commands_push, parsed, sweep};

verus! {

/// A program's text parses back to the program.
pub proof fn lemma_text_parses_back(ops: Seq<Op>)
    ensures
        parsed(text_of(ops)) == Some(ops),
{
    let t = text_of(ops);
    assert(t.subrange(0, t.len() as int) =~= t);
    lemma_sweep_over_text(t, 0, 0, ops);
    lemma_commands_of_text(ops);
    lemma_parsed_is_unique(t, ops);
}

/// Parsing, writing the program out and parsing again gives the program of
/// the first parse.
pub proof fn lemma_parse_is_stable(s: Seq<char>)
    ensures
        parsed(s) matches Some(ops) ==> parsed(text_of(ops)) == Some(ops) && text_of(ops)
            == commands(s.take(block_end(s, 0))),
{
    if let Some(ops) = parsed(s) {
        lemma_text_parses_back(ops);
        lemma_parsed_keeps_commands(s);
    }
}

/// The empty program changes nothing, whatever the fuel.
pub proof fn lemma_empty_program_does_nothing(store: Store, fuel: nat)
    ensures
        run(Seq::<Op>::empty(), store, fuel) == Outcome::Finished(store),
{
}

/// A text made of comments only parses to the empty program, and running
/// it leaves the tape, the cursor, the input and the output as they were.
pub proof fn lemma_comments_do_nothing(s: Seq<char>, store: Store, fuel: nat)
    requires
        forall|i: int| 0 <= i < s.len() ==> !is_command(#[trigger] s[i]),
    ensures
        parsed(s) == Some(Seq::<Op>::empty()),
        run(parsed(s)->0, store, fuel) == Outcome::Finished(store),
{
    lemma_comments_are_swept(s, 0);
    lemma_comments_hold_no_command(s);
    assert(s.take(s.len() as int) =~= s);
    assert(text_of(Seq::<Op>::empty()) =~= Seq::<char>::empty());
    lemma_parsed_is_unique(s, Seq::empty());
}

/// Counting a cell up and then down, or down and then up, gives the value
/// it had.
pub proof fn lemma_up_and_down_cancel(value: u8)
    ensures
        cell_down(cell_up(value)) == value,
        cell_up(cell_down(value)) == value,
{
}

/// Cell values wrap: one up from 255 is 0, one down from 0 is 255.
pub proof fn lemma_cells_wrap()
    ensures
        cell_up(255) == 0,
        cell_down(0) == 255,
{
}

/// `Increment` on a cell that holds 255 leaves 0 in it, and `Decrement` on
/// a cell that holds 0 leaves 255.
pub proof fn lemma_run_wraps_cell(store: Store, fuel: nat)
    requires
        store.on_tape(),
    ensures
        store.cell() == 255 ==> run(seq![Op::Increment], store, fuel) == Outcome::Finished(
            store.with_cell(0),
        ),
        store.cell() == 0 ==> run(seq![Op::Decrement], store, fuel) == Outcome::Finished(
            store.with_cell(255),
        ),
{
    lemma_run_one(Op::Increment, store, fuel);
    lemma_run_one(Op::Decrement, store, fuel);
}

/// A program of one instruction ends as that instruction does.
pub proof fn lemma_run_one(op: Op, store: Store, fuel: nat)
    ensures
        run(seq![op], store, fuel) == run_op(op, store, fuel),
{
    let ops = seq![op];
    assert(ops[0] == op);
    match run_op(op, store, fuel) {
        Outcome::Finished(next) => {
            assert(run_from(ops, 1, next, fuel) == Outcome::Finished(next));
        },
        _ => {},
    }
}

/// `Increment` and then `Decrement`, with no move between them, leave the
/// store as it was; so do `Decrement` and then `Increment`. With the cursor
/// off the tape the first of the two stops the run.
pub proof fn lemma_increment_decrement_is_no_op(store: Store, fuel: nat)
    ensures
        run(seq![Op::Increment, Op::Decrement], store, fuel) == if store.on_tape() {
            Outcome::Finished(store)
        } else {
            Outcome::OffTape(store)
        },
        run(seq![Op::Decrement, Op::Increment], store, fuel) == if store.on_tape() {
            Outcome::Finished(store)
        } else {
            Outcome::OffTape(store)
        },
{
    lemma_run_two(Op::Increment, Op::Decrement, store, fuel);
    lemma_run_two(Op::Decrement, Op::Increment, store, fuel);
    if store.on_tape() {
        let up = store.with_cell(cell_up(store.cell()));
        let down = store.with_cell(cell_down(store.cell()));
        assert(up.on_tape() && down.on_tape());
        assert(up.with_cell(cell_down(up.cell())).tape =~= store.tape);
        assert(down.with_cell(cell_up(down.cell())).tape =~= store.tape);
    }
}

/// A program of two instructions ends as the second does on the store that
/// the first leaves, or as the first does where it does not finish.
pub proof fn lemma_run_two(first: Op, second: Op, store: Store, fuel: nat)
    ensures
        run(seq![first, second], store, fuel) == match run_op(first, store, fuel) {
            Outcome::Finished(next) => run_op(second, next, fuel),
            stopped => stopped,
        },
{
    let ops = seq![first, second];
    assert(ops[0] == first && ops[1] == second);
    match run_op(first, store, fuel) {
        Outcome::Finished(next) => {
            assert(run_from(ops, 0, store, fuel) == run_from(ops, 1, next, fuel));
            match run_op(second, next, fuel) {
                Outcome::Finished(last) => {
                    assert(run_from(ops, 2, last, fuel) == Outcome::Finished(last));
                },
                _ => {},
            }
        },
        _ => {},
    }
}

/// A loop that is entered and whose body never leaves 0 in the current
/// cell never finishes: whatever the fuel, the run ends for want of it.
///
/// "Never" is said by `keeps`: it holds of the store that the loop starts
/// from, and of the store after a pass of the body wherever it held of the
/// store before; and where it holds, the cursor is on the tape, the current
/// cell is not 0, and the body does not stop off the tape.
pub proof fn lemma_loop_runs_forever(
    body: Seq<Op>,
    store: Store,
    keeps: spec_fn(Store) -> bool,
    fuel: nat,
)
    requires
        keeps(store),
        forall|s: Store| #[trigger] keeps(s) ==> s.on_tape() && s.cell() != 0,
        forall|s: Store, f: nat|
            keeps(s) ==> match #[trigger] run(body, s, f) {
                Outcome::Finished(next) => keeps(next),
                Outcome::OffTape(_) => false,
                Outcome::OutOfFuel(_) => true,
            },
    ensures
        run_loop(body, store, fuel) is OutOfFuel,
        run(seq![Op::Loop(body)], store, fuel) is OutOfFuel,
    decreases fuel,
{
    lemma_run_one(Op::Loop(body), store, fuel);
    if fuel > 0 {
        let pass = run(body, store, (fuel - 1) as nat);
        match pass {
            Outcome::Finished(next) => {
                lemma_loop_runs_forever(body, next, keeps, (fuel - 1) as nat);
            },
            _ => {},
        }
    }
}

/// How a run ends does not depend on the fuel, as long as there is enough
/// of it: more fuel changes nothing of a run that did not run out.
pub proof fn lemma_more_fuel_changes_nothing(ops: Seq<Op>, store: Store, fuel: nat, more: nat)
    requires
        !(run(ops, store, fuel) is OutOfFuel),
    ensures
        run(ops, store, fuel + more) == run(ops, store, fuel),
{
    lemma_more_fuel_for_block(ops, 0, store, fuel, more);
}

/// More fuel changes nothing of the rest of a block that did not run out.
pub proof fn lemma_more_fuel_for_block(ops: Seq<Op>, at: int, store: Store, fuel: nat, more: nat)
    requires
        !(run_from(ops, at, store, fuel) is OutOfFuel),
    ensures
        run_from(ops, at, store, fuel + more) == run_from(ops, at, store, fuel),
    decreases fuel, ops, ops.len() - at,
{
    if 0 <= at < ops.len() {
        let first = run_op(ops[at], store, fuel);
        assert(run_op(ops[at], store, fuel + more) == first) by {
            match ops[at] {
                Op::Loop(body) => {
                    lemma_more_fuel_for_loop(body, store, fuel, more);
                },
                _ => {},
            }
        }
        match first {
            Outcome::Finished(next) => {
                lemma_more_fuel_for_block(ops, at + 1, next, fuel, more);
            },
            _ => {},
        }
    }
}

/// More fuel changes nothing of a loop that did not run out.
pub proof fn lemma_more_fuel_for_loop(body: Seq<Op>, store: Store, fuel: nat, more: nat)
    requires
        !(run_loop(body, store, fuel) is OutOfFuel),
    ensures
        run_loop(body, store, fuel + more) == run_loop(body, store, fuel),
    decreases fuel, body, body.len() + 1,
{
    if store.on_tape() && store.cell() != 0 {
        let less = (fuel - 1) as nat;
        assert((fuel + more - 1) as nat == less + more);
        lemma_more_fuel_for_block(body, 0, store, less, more);
        match run_from(body, 0, store, less) {
            Outcome::Finished(next) => {
                lemma_more_fuel_for_loop(body, next, less, more);
            },
            _ => {},
        }
    }
}

/// A walk over comments reaches the end with no loop open.
proof fn lemma_comments_are_swept(s: Seq<char>, from: int)
    requires
        0 <= from <= s.len(),
        forall|i: int| 0 <= i < s.len() ==> !is_command(#[trigger] s[i]),
    ensures
        sweep(s, from, 0) == (s.len() as int, 0nat),
    decreases s.len() - from,
{
    if from < s.len() {
        assert(!is_command(s[from]));
        lemma_comments_are_swept(s, from + 1);
    }
}

/// A text made of comments only has no command characters.
proof fn lemma_comments_hold_no_command(s: Seq<char>)
    requires
        forall|i: int| 0 <= i < s.len() ==> !is_command(#[trigger] s[i]),
    ensures
        commands(s) == Seq::<char>::empty(),
    decreases s.len(),
{
    if s.len() == 0 {
        reveal(Seq::filter);
    } else {
        assert(s =~= s.drop_last().push(s.last()));
        assert(!is_command(s[s.len() - 1]));
        lemma_commands_push(s.drop_last(), s.last());
        lemma_comments_hold_no_command(s.drop_last());
    }
}

} // verus!

//! Every text in which no loop stays open is the source of exactly one
//! program.

use vstd::prelude::*;
use crate::instruction::{Op, lemma_text_first, lemma_text_len, op_text, text_of};
use crate::syntax::{
    block_end,
    commands,
    is_program_of,
    leaf_of,
    lemma_block_stands_alone,
    lemma_commands_add,
    lemma_commands_one,
    lemma_commands_split_first,
    lemma_commands_split_loop,
    lemma_sweep_deeper,
    lemma_sweep_stops,
    loop_at,
    open_loops,
    parsed,
    sweep,
};

verus! {

/// A text without comments is its own command text.
pub proof fn lemma_commands_of_text(ops: Seq<Op>)
    ensures
        commands(text_of(ops)) == text_of(ops),
    decreases ops,
{
    if ops.len() == 0 {
        reveal(Seq::filter);
    } else {
        lemma_commands_of_text(ops.drop_last());
        lemma_commands_add(text_of(ops.drop_last()), op_text(ops.last()));
        match ops.last() {
            Op::Loop(body) => {
                lemma_commands_of_text(body);
                lemma_commands_add(seq!['['] + text_of(body), seq![']']);
                lemma_commands_add(seq!['['], text_of(body));
                lemma_commands_one('[');
                lemma_commands_one(']');
            },
            _ => {
                let c = op_text(ops.last())[0];
                lemma_commands_one(c);
                assert(op_text(ops.last()) =~= seq![c]);
            },
        }
    }
}

/// A walk passes over the text of a block as if it were not there: the
/// brackets in it close one another.
pub proof fn lemma_sweep_over_text(s: Seq<char>, from: int, depth: nat, ops: Seq<Op>)
    requires
        0 <= from,
        from + text_of(ops).len() <= s.len(),
        s.subrange(from, from + text_of(ops).len()) == text_of(ops),
    ensures
        sweep(s, from, depth) == sweep(s, from + text_of(ops).len(), depth),
    decreases ops,
{
    if ops.len() > 0 {
        let front = text_of(ops.drop_last());
        let back = op_text(ops.last());
        let at = from + front.len();
        assert(text_of(ops) == front + back);
        assert(s.subrange(from, at) =~= front) by {
            assert forall|i: int| 0 <= i < front.len() implies s[from + i] == front[i] by {
                assert(s.subrange(from, from + text_of(ops).len())[i] == text_of(ops)[i]);
            }
        }
        assert forall|i: int| 0 <= i < back.len() implies s[at + i] == back[i] by {
            assert(s.subrange(from, from + text_of(ops).len())[front.len() + i] == text_of(
                ops,
            )[front.len() + i]);
        }
        lemma_sweep_over_text(s, from, depth, ops.drop_last());
        match ops.last() {
            Op::Loop(body) => {
                let inner = text_of(body);
                let n = inner.len() as int;
                assert(s[at] == back[0]);
                assert(s[at + (1 + n)] == back[1 + n]);
                assert(s.subrange(at + 1, at + 1 + n) =~= inner) by {
                    assert forall|i: int| 0 <= i < inner.len() implies s[at + 1 + i]
                        == inner[i] by {
                        assert(s[at + (1 + i)] == back[1 + i]);
                    }
                }
                lemma_sweep_over_text(s, at + 1, depth + 1, body);
            },
            _ => {
                assert(s[at] == back[0]);
            },
        }
    }
}

/// Two blocks with the same text are the same block.
pub proof fn lemma_text_determines_block(a: Seq<Op>, b: Seq<Op>)
    requires
        text_of(a) == text_of(b),
    ensures
        a == b,
    decreases text_of(a).len(),
{
    lemma_text_len(a);
    lemma_text_len(b);
    if a.len() > 0 {
        let t = text_of(a);
        lemma_text_first(a);
        lemma_text_first(b);
        let (ta, tb) = (op_text(a.first()), op_text(b.first()));
        let (ra, rb) = (text_of(a.drop_first()), text_of(b.drop_first()));
        assert(t[0] == ta[0] && t[0] == tb[0]);
        match (a.first(), b.first()) {
            (Op::Loop(x), Op::Loop(y)) => {
                let (tx, ty) = (text_of(x), text_of(y));
                let (nx, ny) = (tx.len() as int, ty.len() as int);
                assert(t.subrange(1, 1 + nx) =~= tx) by {
                    assert forall|i: int| 0 <= i < tx.len() implies t[1 + i] == tx[i] by {
                        assert(t[1 + i] == ta[1 + i]);
                    }
                }
                assert(t.subrange(1, 1 + ny) =~= ty) by {
                    assert forall|i: int| 0 <= i < ty.len() implies t[1 + i] == ty[i] by {
                        assert(t[1 + i] == tb[1 + i]);
                    }
                }
                assert(t[1 + nx] == ta[1 + nx]);
                assert(t[1 + ny] == tb[1 + ny]);
                lemma_sweep_over_text(t, 1, 0, x);
                lemma_sweep_over_text(t, 1, 0, y);
                assert(nx == ny);
                lemma_text_determines_block(x, y);
                assert(ra =~= t.subrange(ta.len() as int, t.len() as int));
                assert(rb =~= t.subrange(tb.len() as int, t.len() as int));
            },
            _ => {
                assert(a.first() == b.first());
                assert(ra =~= t.subrange(1, t.len() as int));
                assert(rb =~= t.subrange(1, t.len() as int));
            },
        }
        lemma_text_determines_block(a.drop_first(), b.drop_first());
        assert(a =~= seq![a.first()] + a.drop_first());
        assert(b =~= seq![b.first()] + b.drop_first());
    }
}

/// A text in which no loop stays open is the source of exactly one
/// program.
pub proof fn lemma_parsed_is_unique(s: Seq<char>, ops: Seq<Op>)
    requires
        open_loops(s, 0) == 0,
        is_program_of(ops, s),
    ensures
        parsed(s) == Some(ops),
{
    lemma_text_determines_block(parsed(s)->0, ops);
}

/// A block that is closed and holds the text of `body` is the loop with
/// that body.
pub proof fn lemma_loop_at(s: Seq<char>, from: int, body: Seq<Op>)
    requires
        0 <= from <= s.len(),
        block_end(s, from) < s.len(),
        text_of(body) == commands(s.subrange(from, block_end(s, from))),
    ensures
        loop_at(s, from) == Some(Op::Loop(body)),
{
    let inner = s.subrange(from, block_end(s, from));
    lemma_sweep_stops(s, from, 0);
    lemma_block_stands_alone(s, from, from, 0);
    assert(inner.take(inner.len() as int) =~= inner);
    lemma_parsed_is_unique(inner, body);
}

/// The text of a block that a loop is put in front of.
pub proof fn lemma_text_loop_first(body: Seq<Op>, rest: Seq<Op>)
    ensures
        text_of(seq![Op::Loop(body)] + rest) == seq!['['] + text_of(body) + seq![']'] + text_of(
            rest,
        ),
{
    let ops = seq![Op::Loop(body)] + rest;
    lemma_text_first(ops);
    assert(ops.first() == Op::Loop(body));
    assert(ops.drop_first() =~= rest);
}

/// The text of a block that an instruction is put in front of.
pub proof fn lemma_text_op_first(op: Op, rest: Seq<Op>)
    ensures
        text_of(seq![op] + rest) == op_text(op) + text_of(rest),
{
    let ops = seq![op] + rest;
    lemma_text_first(ops);
    assert(ops.first() == op);
    assert(ops.drop_first() =~= rest);
}

/// Every block in which no loop stays open is the text of some block of
/// instructions. The result is one.
pub proof fn lemma_block_has_program(s: Seq<char>, from: int) -> (ops: Seq<Op>)
    requires
        0 <= from <= s.len(),
        open_loops(s, from) == 0,
    ensures
        text_of(ops) == commands(s.subrange(from, block_end(s, from))),
    decreases s.len() - from,
{
    if from >= s.len() || s[from] == ']' {
        assert(s.subrange(from, from) =~= Seq::<char>::empty());
        assert(commands(Seq::<char>::empty()) =~= Seq::<char>::empty()) by {
            reveal(Seq::filter);
        }
        assert(text_of(Seq::<Op>::empty()) =~= Seq::<char>::empty());
        Seq::empty()
    } else if s[from] == '[' {
        let close = block_end(s, from + 1);
        lemma_sweep_stops(s, from + 1, 0);
        lemma_sweep_deeper(s, from + 1, 0, 1);
        lemma_sweep_stops(s, close + 1, 0);
        let end = block_end(s, close + 1);
        assert(end == block_end(s, from));
        let body = lemma_block_has_program(s, from + 1);
        let rest = lemma_block_has_program(s, close + 1);
        lemma_text_loop_first(body, rest);
        lemma_commands_split_loop(s, from, close, end);
        seq![Op::Loop(body)] + rest
    } else {
        let end = block_end(s, from + 1);
        lemma_sweep_stops(s, from + 1, 0);
        let rest = lemma_block_has_program(s, from + 1);
        lemma_commands_split_first(s, from, end);
        lemma_commands_one(s[from]);
        match leaf_of(s[from]) {
            Some(op) => {
                lemma_text_op_first(op, rest);
                seq![op] + rest
            },
            None => {
                assert(Seq::<char>::empty() + text_of(rest) =~= text_of(rest));
                rest
            },
        }
    }
}

/// The text of a parsed program is what the parser read of its source,
/// with the comments dropped and every command character kept.
pub proof fn lemma_parsed_keeps_commands(s: Seq<char>)
    ensures
        parsed(s) matches Some(ops) ==> is_program_of(ops, s),
{
    if open_loops(s, 0) == 0 {
        let ops = lemma_block_has_program(s, 0);
        assert(is_program_of(ops, s));
    }
}

} // verus!

//! The shape of source text: which characters are commands, where a
//! bracketed block ends, and which program a text is the source of.

use vstd::prelude::*;
use crate::instruction::{Op, text_of};

verus! {

/// The eight characters that mean something; every other character is a
/// comment.
pub open spec fn is_command(c: char) -> bool {
    c == '>' || c == '<' || c == '+' || c == '-' || c == '.' || c == ',' || c == '[' || c == ']'
}

/// The instruction that a character other than a bracket stands for.
pub open spec fn leaf_of(c: char) -> Option<Op> {
    if c == '>' {
        Some(Op::MoveNext)
    } else if c == '<' {
        Some(Op::MovePrev)
    } else if c == '+' {
        Some(Op::Increment)
    } else if c == '-' {
        Some(Op::Decrement)
    } else if c == '.' {
        Some(Op::Output)
    } else if c == ',' {
        Some(Op::Input)
    } else {
        None
    }
}

/// The command characters of `s`, in order, with the comments dropped.
pub open spec fn commands(s: Seq<char>) -> Seq<char> {
    s.filter(|c: char| is_command(c))
}

/// Walks `s` from `from` with `depth` loops open, and stops at the first
/// closing bracket met with no loop open, or at the end of `s`.
///
/// The result is the position where the walk stops and the number of loops
/// that are open there.
pub open spec fn sweep(s: Seq<char>, from: int, depth: nat) -> (int, nat)
    decreases s.len() - from,
{
    if from < 0 || from >= s.len() {
        (s.len() as int, depth)
    } else if s[from] == ']' {
        if depth == 0 {
            (from, 0)
        } else {
            sweep(s, from + 1, (depth - 1) as nat)
        }
    } else if s[from] == '[' {
        sweep(s, from + 1, depth + 1)
    } else {
        sweep(s, from + 1, depth)
    }
}

/// Where the block that starts at `from` ends: the position of the bracket
/// that closes it, or `s.len()` where there is none.
pub open spec fn block_end(s: Seq<char>, from: int) -> int {
    sweep(s, from, 0).0
}

/// How many loops opened at or after `from` are still open where the block
/// that starts at `from` ends.
pub open spec fn open_loops(s: Seq<char>, from: int) -> nat {
    sweep(s, from, 0).1
}

/// Whether `ops` is the program that `s` is the source of: its text is the
/// command characters of `s`, read up to the first closing bracket that
/// closes no loop, or to the end where there is none.
pub open spec fn is_program_of(ops: Seq<Op>, s: Seq<char>) -> bool {
    text_of(ops) == commands(s.take(block_end(s, 0)))
}

/// The program that `s` is the source of. There is none where a loop is
/// still open at the end of `s`.
pub open spec fn parsed(s: Seq<char>) -> Option<Seq<Op>> {
    if open_loops(s, 0) > 0 {
        None
    } else {
        Some(choose|ops: Seq<Op>| is_program_of(ops, s))
    }
}

/// The loop whose body starts at `from`, behind its opening bracket: its
/// body is the program of the text up to the bracket that closes it. There
/// is none where no bracket closes it.
pub open spec fn loop_at(s: Seq<char>, from: int) -> Option<Op> {
    if block_end(s, from) < s.len() {
        match parsed(s.subrange(from, block_end(s, from))) {
            Some(body) => Some(Op::Loop(body)),
            None => None,
        }
    } else {
        None
    }
}

/// A walk stops between its start and the end of the text; it stops early
/// only at a closing bracket, with no loop open.
pub proof fn lemma_sweep_stops(s: Seq<char>, from: int, depth: nat)
    requires
        0 <= from <= s.len(),
    ensures
        from <= sweep(s, from, depth).0 <= s.len(),
        sweep(s, from, depth).0 < s.len() ==> s[sweep(s, from, depth).0] == ']' && sweep(
            s,
            from,
            depth,
        ).1 == 0,
    decreases s.len() - from,
{
    if from < s.len() {
        if s[from] == ']' {
            if depth > 0 {
                lemma_sweep_stops(s, from + 1, (depth - 1) as nat);
            }
        } else if s[from] == '[' {
            lemma_sweep_stops(s, from + 1, depth + 1);
        } else {
            lemma_sweep_stops(s, from + 1, depth);
        }
    }
}

/// A walk that starts `extra` loops deeper passes the bracket at which the
/// shallower walk stops, and goes on from there one loop less deep; where
/// the shallower walk reaches the end, so does the deeper one.
pub proof fn lemma_sweep_deeper(s: Seq<char>, from: int, depth: nat, extra: nat)
    requires
        0 <= from <= s.len(),
        extra >= 1,
    ensures
        sweep(s, from, depth).0 < s.len() ==> sweep(s, from, depth + extra) == sweep(
            s,
            sweep(s, from, depth).0 + 1,
            (extra - 1) as nat,
        ),
        sweep(s, from, depth).0 >= s.len() ==> sweep(s, from, depth + extra) == (
            s.len() as int,
            sweep(s, from, depth).1 + extra,
        ),
    decreases s.len() - from,
{
    if from < s.len() {
        if s[from] == ']' {
            if depth > 0 {
                lemma_sweep_deeper(s, from + 1, (depth - 1) as nat, extra);
            }
        } else if s[from] == '[' {
            lemma_sweep_deeper(s, from + 1, depth + 1, extra);
        } else {
            lemma_sweep_deeper(s, from + 1, depth, extra);
        }
    }
}

/// The text of a block that is closed, taken by itself, is read to its end
/// with no loop open.
pub proof fn lemma_block_stands_alone(s: Seq<char>, from: int, at: int, depth: nat)
    requires
        0 <= from <= at <= sweep(s, at, depth).0 < s.len(),
    ensures
        sweep(s.subrange(from, sweep(s, at, depth).0), at - from, depth) == (
            sweep(s, at, depth).0 - from,
            0nat,
        ),
    decreases s.len() - at,
{
    let close = sweep(s, at, depth).0;
    let inner = s.subrange(from, close);
    lemma_sweep_stops(s, at, depth);
    if at < close {
        assert(inner[at - from] == s[at]);
        if s[at] == ']' {
            lemma_block_stands_alone(s, from, at + 1, (depth - 1) as nat);
        } else if s[at] == '[' {
            lemma_block_stands_alone(s, from, at + 1, depth + 1);
        } else {
            lemma_block_stands_alone(s, from, at + 1, depth);
        }
    } else if depth > 0 {
        lemma_sweep_stops(s, at + 1, (depth - 1) as nat);
    }
}

/// The commands of a text that grows by one character.
pub proof fn lemma_commands_push(s: Seq<char>, c: char)
    ensures
        commands(s.push(c)) == if is_command(c) {
            commands(s).push(c)
        } else {
            commands(s)
        },
{
    s.lemma_filter_push(c, |c: char| is_command(c));
}

/// The commands of two texts joined are the commands of each, joined.
pub proof fn lemma_commands_add(a: Seq<char>, b: Seq<char>)
    ensures
        commands(a + b) == commands(a) + commands(b),
{
    Seq::filter_distributes_over_add(a, b, |c: char| is_command(c));
}

/// The commands of a single character.
pub proof fn lemma_commands_one(c: char)
    ensures
        commands(seq![c]) == if is_command(c) {
            seq![c]
        } else {
            Seq::<char>::empty()
        },
{
    let nothing = Seq::<char>::empty();
    assert(commands(nothing) =~= nothing) by {
        reveal(Seq::filter);
    }
    assert(nothing.push(c) =~= seq![c]);
    lemma_commands_push(nothing, c);
}

/// The commands of a stretch of text, split behind its first character.
pub proof fn lemma_commands_split_first(s: Seq<char>, from: int, to: int)
    requires
        0 <= from < to <= s.len(),
    ensures
        commands(s.subrange(from, to)) == commands(seq![s[from]]) + commands(
            s.subrange(from + 1, to),
        ),
{
    assert(s.subrange(from, to) =~= seq![s[from]] + s.subrange(from + 1, to));
    lemma_commands_add(seq![s[from]], s.subrange(from + 1, to));
}

/// The commands of a stretch of text that starts with a loop, split into
/// the loop's brackets, its body and what follows it.
pub proof fn lemma_commands_split_loop(s: Seq<char>, from: int, close: int, to: int)
    requires
        0 <= from < close < to <= s.len(),
        s[from] == '[',
        s[close] == ']',
    ensures
        commands(s.subrange(from, to)) == seq!['['] + commands(s.subrange(from + 1, close))
            + seq![']'] + commands(s.subrange(close + 1, to)),
{
    lemma_commands_split_first(s, from, to);
    lemma_commands_one('[');
    lemma_commands_one(']');
    assert(s.subrange(from + 1, to) =~= s.subrange(from + 1, close) + s.subrange(close, to));
    lemma_commands_add(s.subrange(from + 1, close), s.subrange(close, to));
    lemma_commands_split_first(s, close, to);
    let body = commands(s.subrange(from + 1, close));
    let rest = commands(s.subrange(close + 1, to));
    assert(seq!['['] + (body + (seq![']'] + rest)) =~= seq!['['] + body + seq![']'] + rest);
}

} // verus!

//! The instruction tree and its mathematical model.

use vstd::prelude::*;

verus! {

/// The model of one instruction: what contracts speak of. The variants are
/// those of `Instruction`, and a loop holds the model of its body.
pub ghost enum Op {
    /// `>`
    MoveNext,
    /// `<`
    MovePrev,
    /// `+`
    Increment,
    /// `-`
    Decrement,
    /// `.`
    Output,
    /// `,`
    Input,
    /// `[` and `]` around a body
    Loop(Seq<Op>),
}

/// One instruction of a program. A program is a `Vec` of them, and so is
/// the body of a loop.
#[derive(Debug, PartialEq, Eq)]
pub enum Instruction {
    /// `>`: moves the cursor one cell up.
    MoveNext,
    /// `<`: moves the cursor one cell down.
    MovePrev,
    /// `+`: adds 1 to the current cell; 255 becomes 0.
    Increment,
    /// `-`: takes 1 from the current cell; 0 becomes 255.
    Decrement,
    /// `.`: writes the current cell to the output.
    Output,
    /// `,`: reads the next byte of the input into the current cell.
    Input,
    /// `[` and `]` around a body: runs the body while the current cell is
    /// not 0.
    Loop(Vec<Instruction>),
}

impl View for Instruction {
    type V = Op;

    open spec fn view(&self) -> Op
        decreases self, 0int,
    {
        match self {
            Instruction::MoveNext => Op::MoveNext,
            Instruction::MovePrev => Op::MovePrev,
            Instruction::Increment => Op::Increment,
            Instruction::Decrement => Op::Decrement,
            Instruction::Output => Op::Output,
            Instruction::Input => Op::Input,
            Instruction::Loop(body) => Op::Loop(ops_of(body@)),
        }
    }
}

/// The model of a block of instructions.
pub open spec fn ops_of(block: Seq<Instruction>) -> Seq<Op>
    decreases block, 1int,
{
    if block.len() == 0 {
        Seq::empty()
    } else {
        ops_of(block.drop_last()).push(block.last()@)
    }
}

/// The source text of a block: each instruction's text, in order.
pub open spec fn text_of(ops: Seq<Op>) -> Seq<char>
    decreases ops, 1int,
{
    if ops.len() == 0 {
        Seq::empty()
    } else {
        text_of(ops.drop_last()) + op_text(ops.last())
    }
}

/// The source text of one instruction; a loop is its body in brackets.
pub open spec fn op_text(op: Op) -> Seq<char>
    decreases op, 0int,
{
    match op {
        Op::MoveNext => seq!['>'],
        Op::MovePrev => seq!['<'],
        Op::Increment => seq!['+'],
        Op::Decrement => seq!['-'],
        Op::Output => seq!['.'],
        Op::Input => seq![','],
        Op::Loop(body) => seq!['['] + text_of(body) + seq![']'],
    }
}

/// The text of a block that grows by one instruction.
pub proof fn lemma_text_push(ops: Seq<Op>, op: Op)
    ensures
        text_of(ops.push(op)) == text_of(ops) + op_text(op),
{
    assert(ops.push(op).drop_last() =~= ops);
}

/// The model of a block that grows by one instruction.
pub proof fn lemma_ops_push(block: Seq<Instruction>, instr: Instruction)
    ensures
        ops_of(block.push(instr)) == ops_of(block).push(instr@),
{
    assert(block.push(instr).drop_last() =~= block);
}

/// The model of a block holds the model of each instruction, in order.
pub proof fn lemma_ops_index(block: Seq<Instruction>, i: int)
    requires
        0 <= i < block.len(),
    ensures
        ops_of(block).len() == block.len(),
        ops_of(block)[i] == block[i]@,
    decreases block.len(),
{
    lemma_ops_len(block);
    assert(ops_of(block) == ops_of(block.drop_last()).push(block.last()@));
    if i < block.len() - 1 {
        lemma_ops_index(block.drop_last(), i);
    }
}

/// The model of a block has one entry for each instruction.
pub proof fn lemma_ops_len(block: Seq<Instruction>)
    ensures
        ops_of(block).len() == block.len(),
    decreases block.len(),
{
    if block.len() > 0 {
        lemma_ops_len(block.drop_last());
        assert(ops_of(block) == ops_of(block.drop_last()).push(block.last()@));
    }
}

/// The text of two blocks joined is the text of each, joined.
pub proof fn lemma_text_add(a: Seq<Op>, b: Seq<Op>)
    ensures
        text_of(a + b) == text_of(a) + text_of(b),
    decreases b.len(),
{
    if b.len() == 0 {
        assert(a + b =~= a);
        assert(text_of(a) + text_of(b) =~= text_of(a));
    } else {
        assert((a + b).drop_last() =~= a + b.drop_last());
        lemma_text_add(a, b.drop_last());
        assert(text_of(a + b) =~= text_of(a) + text_of(b));
    }
}

/// The text of a block that is not empty starts with the text of its first
/// instruction, and the text of the others follows.
pub proof fn lemma_text_first(ops: Seq<Op>)
    requires
        ops.len() > 0,
    ensures
        text_of(ops) == op_text(ops.first()) + text_of(ops.drop_first()),
{
    let head = seq![ops.first()];
    assert(head.drop_last() =~= Seq::<Op>::empty());
    assert(text_of(Seq::<Op>::empty()) =~= Seq::<char>::empty());
    assert(head.last() == ops.first());
    assert(text_of(head) =~= op_text(ops.first()));
    assert(ops =~= head + ops.drop_first());
    lemma_text_add(head, ops.drop_first());
}

/// An instruction's text is never empty, so neither is the text of a block
/// that holds an instruction.
pub proof fn lemma_text_len(ops: Seq<Op>)
    ensures
        ops.len() == 0 <==> text_of(ops).len() == 0,
{
    if ops.len() > 0 {
        lemma_text_first(ops);
    }
}

/// Writes `program` out as source text, without comments.
pub fn unparse(program: &Vec<Instruction>) -> (text: Vec<char>)
    ensures
        text@ == text_of(ops_of(program@)),
    decreases program,
{
    let mut text: Vec<char> = Vec::new();
    let mut at: usize = 0;
    proof {
        assert(program@.take(0) =~= Seq::<Instruction>::empty());
        assert(text_of(Seq::<Op>::empty()) =~= Seq::<char>::empty());
    }
    while at < program.len()
        invariant
            at <= program.len(),
            text@ == text_of(ops_of(program@.take(at as int))),
        decreases program.len() - at,
    {
        proof {
            let done = program@.take(at as int);
            assert(program@.take(at + 1) =~= done.push(program@[at as int]));
            lemma_ops_push(done, program@[at as int]);
            lemma_text_push(ops_of(done), program@[at as int]@);
        }
        match &program[at] {
            Instruction::MoveNext => text.push('>'),
            Instruction::MovePrev => text.push('<'),
            Instruction::Increment => text.push('+'),
            Instruction::Decrement => text.push('-'),
            Instruction::Output => text.push('.'),
            Instruction::Input => text.push(','),
            Instruction::Loop(body) => {
                let mut inner = unparse(body);
                text.push('[');
                text.append(&mut inner);
                text.push(']');
            },
        }
        at += 1;
    }
    proof {
        assert(program@.take(program.len() as int) =~= program@);
    }
    text
}

} // verus!

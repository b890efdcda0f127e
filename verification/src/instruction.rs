//! The opcodes of the language and the parser that recognises them.

use vstd::prelude::*;

verus! {

/// One opcode of the machine. Each is written in source text as a single
/// character; see [`symbol_of`].
#[derive(Clone, Copy, Debug, PartialEq, Eq, Structural)]
pub enum Instruction {
    /// `>`: move the data pointer one cell up, growing the tape if needed.
    Forward,
    /// `<`: move the data pointer one cell down.
    Backward,
    /// `+`: add one to the current cell, wrapping.
    Increment,
    /// `-`: subtract one from the current cell, wrapping.
    Decrement,
    /// `.`: emit the current cell as a character.
    Output,
    /// `,`: store one input value in the current cell.
    Input,
    /// `[`: if the current cell is zero, jump to the matching `]`.
    JumpForwardIfZero,
    /// `]`: if the current cell is not zero, jump to the matching `[`.
    JumpBackwardIfNonZero,
}

/// The character that stands for an opcode in source text.
pub open spec fn symbol_of(op: Instruction) -> char {
    match op {
        Instruction::Forward => '>',
        Instruction::Backward => '<',
        Instruction::Increment => '+',
        Instruction::Decrement => '-',
        Instruction::Output => '.',
        Instruction::Input => ',',
        Instruction::JumpForwardIfZero => '[',
        Instruction::JumpBackwardIfNonZero => ']',
    }
}

/// The opcode that a character stands for, or `None` for a character that is
/// a comment.
pub open spec fn opcode_of(c: char) -> Option<Instruction> {
    if c == '>' {
        Some(Instruction::Forward)
    } else if c == '<' {
        Some(Instruction::Backward)
    } else if c == '+' {
        Some(Instruction::Increment)
    } else if c == '-' {
        Some(Instruction::Decrement)
    } else if c == '.' {
        Some(Instruction::Output)
    } else if c == ',' {
        Some(Instruction::Input)
    } else if c == '[' {
        Some(Instruction::JumpForwardIfZero)
    } else if c == ']' {
        Some(Instruction::JumpBackwardIfNonZero)
    } else {
        None
    }
}

/// The program that a source text denotes: the opcodes of its recognised
/// characters, in the order of the text, with every other character dropped.
pub open spec fn opcodes_of(text: Seq<char>) -> Seq<Instruction> {
    text.filter_map(|c: char| opcode_of(c))
}

/// Parsing filters and maps, and does nothing else: a program is never longer
/// than its text, and writing each of its opcodes back as a character gives
/// the text with every comment character taken out, in the same order.
pub proof fn lemma_parse_filters_and_maps(text: Seq<char>)
    ensures
        opcodes_of(text).len() <= text.len(),
        opcodes_of(text).map_values(|op: Instruction| symbol_of(op)) == text.filter(
            |c: char| opcode_of(c) is Some,
        ),
    decreases text.len(),
{
    reveal(Seq::filter);
    if text.len() > 0 {
        let rest = text.drop_last();
        lemma_parse_filters_and_maps(rest);
        let symbols = |op: Instruction| symbol_of(op);
        match opcode_of(text.last()) {
            Some(op) => {
                assert(opcodes_of(text) == opcodes_of(rest) + seq![op]);
                assert(opcodes_of(text).map_values(symbols) =~= opcodes_of(rest).map_values(
                    symbols,
                ).push(text.last()));
            },
            None => {},
        }
    } else {
        assert(opcodes_of(text).map_values(|op: Instruction| symbol_of(op)) =~= text);
    }
}

/// Parsing a text in two pieces gives the program of the whole text.
pub proof fn lemma_parse_concat(head: Seq<char>, tail: Seq<char>)
    ensures
        opcodes_of(head + tail) == opcodes_of(head) + opcodes_of(tail),
    decreases tail.len(),
{
    if tail.len() == 0 {
        assert(head + tail =~= head);
        assert(opcodes_of(head) + opcodes_of(tail) =~= opcodes_of(head));
    } else {
        lemma_parse_concat(head, tail.drop_last());
        assert((head + tail).drop_last() =~= head + tail.drop_last());
        match opcode_of(tail.last()) {
            Some(op) => {
                assert(opcodes_of(head + tail) =~= opcodes_of(head) + opcodes_of(tail));
            },
            None => {},
        }
    }
}

impl Instruction {
    /// Decodes one character of source text.
    pub fn from_char(c: char) -> (op: Option<Instruction>)
        ensures
            op == opcode_of(c),
    {
        match c {
            '>' => Some(Instruction::Forward),
            '<' => Some(Instruction::Backward),
            '+' => Some(Instruction::Increment),
            '-' => Some(Instruction::Decrement),
            '.' => Some(Instruction::Output),
            ',' => Some(Instruction::Input),
            '[' => Some(Instruction::JumpForwardIfZero),
            ']' => Some(Instruction::JumpBackwardIfNonZero),
            _ => None,
        }
    }
}

/// Parses source text into the opcodes it denotes.
pub fn parse(source: &str) -> (program: Vec<Instruction>)
    ensures
        program@ == opcodes_of(source@),
{
    let mut program: Vec<Instruction> = Vec::new();
    for c in it: source.chars()
        invariant
            it.seq() == source@,
            program@ == opcodes_of(source@.take(it.index() as int)),
    {
        proof {
            Seq::lemma_filter_map_take_succ(source@, |c: char| opcode_of(c), it.index() as int);
        }
        match Instruction::from_char(c) {
            Some(op) => program.push(op),
            None => {},
        }
    }
    proof {
        assert(source@.take(source@.len() as int) =~= source@);
    }
    program
}

} // verus!

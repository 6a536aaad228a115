//! The instruction set and the symbol that stands for each instruction.

use vstd::prelude::*;

verus! {

/// The eight instructions of the language.
#[derive(Clone, Copy, PartialEq, Eq, Debug, Structural)]
pub enum BrainfuckInstructions {
    /// `>`: move the data pointer one cell to the right.
    PointerIncrement,
    /// `<`: move the data pointer one cell to the left.
    PointerDecrement,
    /// `+`: add one to the current cell.
    CellIncrement,
    /// `-`: take one from the current cell.
    CellDecrement,
    /// `.`: write the current cell.
    PutChar,
    /// `,`: read one byte into the current cell.
    GetChar,
    /// `[`: start of a loop.
    WhileStart,
    /// `]`: end of a loop.
    WhileEnd,
}

/// The instruction that the character `c` stands for, if it is one of the
/// eight symbols.
pub open spec fn decode(c: char) -> Option<BrainfuckInstructions> {
    if c == '>' {
        Some(BrainfuckInstructions::PointerIncrement)
    } else if c == '<' {
        Some(BrainfuckInstructions::PointerDecrement)
    } else if c == '+' {
        Some(BrainfuckInstructions::CellIncrement)
    } else if c == '-' {
        Some(BrainfuckInstructions::CellDecrement)
    } else if c == '.' {
        Some(BrainfuckInstructions::PutChar)
    } else if c == ',' {
        Some(BrainfuckInstructions::GetChar)
    } else if c == '[' {
        Some(BrainfuckInstructions::WhileStart)
    } else if c == ']' {
        Some(BrainfuckInstructions::WhileEnd)
    } else {
        None
    }
}

/// Whether `c` is one of the eight symbols; every other character is
/// commentary.
pub open spec fn is_symbol(c: char) -> bool {
    decode(c) is Some
}

impl BrainfuckInstructions {
    /// The symbol that stands for this instruction.
    pub open spec fn spec_symbol(self) -> char {
        match self {
            BrainfuckInstructions::PointerIncrement => '>',
            BrainfuckInstructions::PointerDecrement => '<',
            BrainfuckInstructions::CellIncrement => '+',
            BrainfuckInstructions::CellDecrement => '-',
            BrainfuckInstructions::PutChar => '.',
            BrainfuckInstructions::GetChar => ',',
            BrainfuckInstructions::WhileStart => '[',
            BrainfuckInstructions::WhileEnd => ']',
        }
    }

    /// The symbol that stands for this instruction.
    #[verifier::when_used_as_spec(spec_symbol)]
    pub fn symbol(self) -> (c: char)
        ensures
            c == self.spec_symbol(),
    {
        match self {
            BrainfuckInstructions::PointerIncrement => '>',
            BrainfuckInstructions::PointerDecrement => '<',
            BrainfuckInstructions::CellIncrement => '+',
            BrainfuckInstructions::CellDecrement => '-',
            BrainfuckInstructions::PutChar => '.',
            BrainfuckInstructions::GetChar => ',',
            BrainfuckInstructions::WhileStart => '[',
            BrainfuckInstructions::WhileEnd => ']',
        }
    }

    /// Reads one character: `Some` instruction for a symbol, `None` for
    /// commentary.
    pub fn from_symbol(c: char) -> (instruction: Option<BrainfuckInstructions>)
        ensures
            instruction == decode(c),
    {
        match c {
            '>' => Some(BrainfuckInstructions::PointerIncrement),
            '<' => Some(BrainfuckInstructions::PointerDecrement),
            '+' => Some(BrainfuckInstructions::CellIncrement),
            '-' => Some(BrainfuckInstructions::CellDecrement),
            '.' => Some(BrainfuckInstructions::PutChar),
            ',' => Some(BrainfuckInstructions::GetChar),
            '[' => Some(BrainfuckInstructions::WhileStart),
            ']' => Some(BrainfuckInstructions::WhileEnd),
            _ => None,
        }
    }
}

/// Every instruction is read back from its own symbol.
pub proof fn lemma_decode_symbol(instruction: BrainfuckInstructions)
    ensures
        decode(instruction.spec_symbol()) == Some(instruction),
{
}

/// A symbol is the symbol of the instruction it stands for, so no two
/// symbols stand for the same instruction.
pub proof fn lemma_symbol_decode(c: char)
    requires
        is_symbol(c),
    ensures
        decode(c)->0.spec_symbol() == c,
{
}

} // verus!

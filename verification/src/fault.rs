//! The ways in which loading or running a program ends fatally.

use vstd::prelude::*;

verus! {

/// A fatal condition. Each one ends the run: nothing is retried and no
/// value is made up.
#[derive(Clone, Copy, PartialEq, Eq, Debug, Structural)]
pub enum Fault {
    /// A `[` has no `]` after it that closes it.
    UnmatchedOpen,
    /// A `]` has no `[` before it that it could close.
    UnmatchedClose,
    /// The data pointer was to move right of the last cell.
    PointerOverflow,
    /// The data pointer was to move left of the first cell.
    PointerUnderflow,
    /// A cell that holds 255 was to be incremented.
    CellOverflow,
    /// A cell that holds 0 was to be decremented.
    CellUnderflow,
    /// An instruction was to read a byte and the input had none to give.
    InputUnavailable,
}

impl Fault {
    /// The text of the message for this fault.
    pub open spec fn spec_message(self) -> Seq<char> {
        match self {
            Fault::UnmatchedOpen => "Loop enclosure is broken: a '[' is never closed."@,
            Fault::UnmatchedClose => "Loop enclosure is broken: a ']' closes nothing."@,
            Fault::PointerOverflow => "Memory pointer overflow over 30KB address"@,
            Fault::PointerUnderflow => "Memory pointer overflow below 0B address"@,
            Fault::CellOverflow => "Memory overflow! Cannot exceed value 255."@,
            Fault::CellUnderflow => "Memory overflow! Cannot go below 0 value."@,
            Fault::InputUnavailable => "Cannot obtain this value!"@,
        }
    }

    /// A message that tells the user what went wrong.
    pub fn message(self) -> (text: &'static str)
        ensures
            text@ == self.spec_message(),
    {
        match self {
            Fault::UnmatchedOpen => "Loop enclosure is broken: a '[' is never closed.",
            Fault::UnmatchedClose => "Loop enclosure is broken: a ']' closes nothing.",
            Fault::PointerOverflow => "Memory pointer overflow over 30KB address",
            Fault::PointerUnderflow => "Memory pointer overflow below 0B address",
            Fault::CellOverflow => "Memory overflow! Cannot exceed value 255.",
            Fault::CellUnderflow => "Memory overflow! Cannot go below 0 value.",
            Fault::InputUnavailable => "Cannot obtain this value!",
        }
    }
}

} // verus!

//! What running a program means: the state of the engine, the effect of
//! one instruction, and the course of a whole run on a given input.

use vstd::prelude::*;
use crate::brackets::{balanced, lemma_loop_end, loop_end};
use crate::fault::Fault;
use crate::instruction::BrainfuckInstructions;

verus! {

/// The number of cells on the tape.
pub const TAPE_LENGTH: usize = 30000;

/// The state of the engine.
pub struct Machine {
    /// The cells of the tape.
    pub tape: Seq<u8>,
    /// The data pointer: the position of the current cell.
    pub pointer: int,
    /// The instruction pointer: the position of the instruction that is
    /// executed next. At the length of the program the run is complete.
    pub cursor: int,
    /// The loops that are being executed, the innermost one last: for
    /// each of them the position of its `[`, to which its `]` goes back.
    pub loops: Seq<int>,
}

impl Machine {
    /// The state in which every run begins: all cells zero, both pointers
    /// at the start, no loop entered.
    pub open spec fn initial() -> Machine {
        Machine {
            tape: Seq::new(TAPE_LENGTH as nat, |i: int| 0u8),
            pointer: 0,
            cursor: 0,
            loops: Seq::empty(),
        }
    }

    /// The tape has its fixed length, the data pointer is on the tape, the
    /// instruction pointer is in `program` or just behind it, and every
    /// loop that is being executed starts at a `[` of `program`.
    pub open spec fn inv(self, program: Seq<BrainfuckInstructions>) -> bool {
        &&& self.tape.len() == TAPE_LENGTH
        &&& 0 <= self.pointer < TAPE_LENGTH
        &&& 0 <= self.cursor <= program.len()
        &&& forall|level: int|
            0 <= level < self.loops.len() ==> 0 <= #[trigger] self.loops[level] < program.len()
                && program[self.loops[level]] == BrainfuckInstructions::WhileStart
    }

    /// The value of the current cell.
    pub open spec fn cell(self) -> u8 {
        self.tape[self.pointer]
    }

    /// The run is complete: the instruction pointer is behind the last
    /// instruction.
    pub open spec fn halted(self, program: Seq<BrainfuckInstructions>) -> bool {
        self.cursor >= program.len()
    }

    /// The next instruction reads a byte.
    pub open spec fn awaits_input(self, program: Seq<BrainfuckInstructions>) -> bool {
        !self.halted(program) && program[self.cursor] == BrainfuckInstructions::GetChar
    }

    /// This state with the instruction pointer at `cursor`.
    pub open spec fn jump(self, cursor: int) -> Machine {
        Machine { cursor, ..self }
    }

    /// This state with the data pointer at `pointer`.
    pub open spec fn seek(self, pointer: int) -> Machine {
        Machine { pointer, ..self }
    }

    /// This state with `value` in the current cell.
    pub open spec fn store(self, value: u8) -> Machine {
        Machine { tape: self.tape.update(self.pointer, value), ..self }
    }

    /// This state at the start of the program, with no loop entered.
    pub open spec fn rewind(self) -> Machine {
        Machine { cursor: 0, loops: Seq::empty(), ..self }
    }

    /// This state one loop deeper: the loop whose `[` is at the
    /// instruction pointer is entered, and its body comes next.
    pub open spec fn enter(self) -> Machine {
        Machine { loops: self.loops.push(self.cursor), cursor: self.cursor + 1, ..self }
    }

    /// This state back at the `[` of the innermost loop, which is
    /// executed no longer until that `[` enters it again.
    pub open spec fn repeat(self) -> Machine {
        Machine { loops: self.loops.drop_last(), cursor: self.loops.last(), ..self }
    }
}

/// What one instruction did: the state it left, and the character it
/// wrote, if it wrote one.
pub struct Step {
    pub machine: Machine,
    pub output: Option<char>,
}

/// The effect of the instruction at the instruction pointer. `event` is
/// the byte that the input gives to an instruction that reads, `None` when
/// the input has none; other instructions ignore it.
///
/// A fault leaves no new state: the run is over. Nothing wraps around.
/// What is written is the current cell taken as one character, the one
/// whose code is the value of the cell.
///
/// A `[` on a zero cell goes behind its `]`, so that no instruction of
/// the body is executed; on any other cell it enters the loop, and the
/// body comes next. A `]` ends a pass through the body of the innermost
/// loop that is being executed: it goes back to the `[` of that loop,
/// which tests the cell again. With no loop being executed a `]` has
/// nothing to do and the instruction pointer moves on by one; in a run
/// from the start of a balanced program that never happens.
pub open spec fn step(program: Seq<BrainfuckInstructions>, m: Machine, event: Option<u8>) -> Result<
    Step,
    Fault,
> {
    let next = m.cursor + 1;
    match program[m.cursor] {
        BrainfuckInstructions::PointerIncrement => if m.pointer == TAPE_LENGTH - 1 {
            Err(Fault::PointerOverflow)
        } else {
            Ok(Step { machine: m.seek(m.pointer + 1).jump(next), output: None })
        },
        BrainfuckInstructions::PointerDecrement => if m.pointer == 0 {
            Err(Fault::PointerUnderflow)
        } else {
            Ok(Step { machine: m.seek(m.pointer - 1).jump(next), output: None })
        },
        BrainfuckInstructions::CellIncrement => if m.cell() == 255 {
            Err(Fault::CellOverflow)
        } else {
            Ok(Step { machine: m.store((m.cell() + 1) as u8).jump(next), output: None })
        },
        BrainfuckInstructions::CellDecrement => if m.cell() == 0 {
            Err(Fault::CellUnderflow)
        } else {
            Ok(Step { machine: m.store((m.cell() - 1) as u8).jump(next), output: None })
        },
        BrainfuckInstructions::PutChar => Ok(
            Step { machine: m.jump(next), output: Some(m.cell() as char) },
        ),
        BrainfuckInstructions::GetChar => match event {
            Some(byte) => Ok(Step { machine: m.store(byte).jump(next), output: None }),
            None => Err(Fault::InputUnavailable),
        },
        BrainfuckInstructions::WhileStart => if m.cell() == 0 {
            Ok(Step { machine: m.jump(loop_end(program, m.cursor) + 1), output: None })
        } else {
            Ok(Step { machine: m.enter(), output: None })
        },
        BrainfuckInstructions::WhileEnd => if m.loops.len() > 0 {
            Ok(Step { machine: m.repeat(), output: None })
        } else {
            Ok(Step { machine: m.jump(next), output: None })
        },
    }
}

/// How a run stands.
#[derive(Clone, Copy, PartialEq, Eq, Debug, Structural)]
pub enum Status {
    /// The instruction pointer is behind the last instruction: the run is
    /// complete.
    Finished,
    /// The budget of instructions is used up and the program has not come
    /// to its end. The run can go on from where it stands.
    Suspended,
    /// A fault ended the run.
    Failed(Fault),
}

/// A run on a given input, at some point of its course.
pub struct Session {
    /// The state of the engine.
    pub machine: Machine,
    /// The input that has not been read yet.
    pub unread: Seq<u8>,
    /// The output so far: the characters in the order in which they were
    /// written.
    pub written: Seq<char>,
    /// The fault that ended the run, if one did.
    pub fault: Option<Fault>,
}

impl Session {
    /// The run that starts in state `machine` with `input` to read and
    /// nothing written.
    pub open spec fn start(machine: Machine, input: Seq<u8>) -> Session {
        Session { machine, unread: input, written: Seq::empty(), fault: None }
    }

    /// The run can take another instruction: no fault has ended it and the
    /// program has not come to its end.
    pub open spec fn running(self, program: Seq<BrainfuckInstructions>) -> bool {
        self.fault is None && !self.machine.halted(program)
    }

    /// How the run stands.
    pub open spec fn status(self, program: Seq<BrainfuckInstructions>) -> Status {
        match self.fault {
            Some(fault) => Status::Failed(fault),
            None => if self.machine.halted(program) {
                Status::Finished
            } else {
                Status::Suspended
            },
        }
    }
}

/// The run one instruction later. An instruction that reads takes the
/// first unread byte, and faults if there is none; one that writes adds
/// its character to the output. A fault is recorded and leaves everything
/// else as it was.
pub open spec fn advance(program: Seq<BrainfuckInstructions>, s: Session) -> Session {
    let reads = s.machine.awaits_input(program) && s.unread.len() > 0;
    let event = if reads {
        Some(s.unread[0])
    } else {
        None
    };
    match step(program, s.machine, event) {
        Ok(done) => Session {
            machine: done.machine,
            unread: if reads {
                s.unread.drop_first()
            } else {
                s.unread
            },
            written: match done.output {
                Some(character) => s.written.push(character),
                None => s.written,
            },
            fault: None,
        },
        Err(fault) => Session { fault: Some(fault), ..s },
    }
}

/// The run after at most `budget` further instructions: it stops before
/// that only where the program has come to its end or a fault has
/// occurred.
pub open spec fn run(program: Seq<BrainfuckInstructions>, s: Session, budget: nat) -> Session
    decreases budget,
{
    if budget == 0 || !s.running(program) {
        s
    } else {
        run(program, advance(program, s), (budget - 1) as nat)
    }
}

/// Memory bounds. Nothing wraps around: adding to a cell that holds 255,
/// taking from a cell that holds 0, and moving the data pointer off
/// either end of the tape are faults, each with a kind of its own. And
/// these are the only ways in which the four instructions can fail.
pub proof fn lemma_memory_bounds(
    program: Seq<BrainfuckInstructions>,
    m: Machine,
    event: Option<u8>,
)
    ensures
        program[m.cursor] == BrainfuckInstructions::CellIncrement && m.cell() == 255 ==> step(
            program,
            m,
            event,
        ) == Err::<Step, Fault>(Fault::CellOverflow),
        program[m.cursor] == BrainfuckInstructions::CellIncrement && m.cell() != 255 ==> step(
            program,
            m,
            event,
        ) is Ok,
        program[m.cursor] == BrainfuckInstructions::CellDecrement && m.cell() == 0 ==> step(
            program,
            m,
            event,
        ) == Err::<Step, Fault>(Fault::CellUnderflow),
        program[m.cursor] == BrainfuckInstructions::CellDecrement && m.cell() != 0 ==> step(
            program,
            m,
            event,
        ) is Ok,
        program[m.cursor] == BrainfuckInstructions::PointerIncrement && m.pointer == TAPE_LENGTH
            - 1 ==> step(program, m, event) == Err::<Step, Fault>(Fault::PointerOverflow),
        program[m.cursor] == BrainfuckInstructions::PointerIncrement && m.pointer != TAPE_LENGTH
            - 1 ==> step(program, m, event) is Ok,
        program[m.cursor] == BrainfuckInstructions::PointerDecrement && m.pointer == 0 ==> step(
            program,
            m,
            event,
        ) == Err::<Step, Fault>(Fault::PointerUnderflow),
        program[m.cursor] == BrainfuckInstructions::PointerDecrement && m.pointer != 0 ==> step(
            program,
            m,
            event,
        ) is Ok,
{
}

/// An instruction of a balanced program leaves the engine in a state of
/// that program: the data pointer stays on the tape, the tape keeps its
/// length, the instruction pointer stays in the program or comes just
/// behind it, and the loops that are being executed are loops of the
/// program.
pub proof fn lemma_step_keeps_invariant(
    program: Seq<BrainfuckInstructions>,
    m: Machine,
    event: Option<u8>,
)
    requires
        balanced(program),
        m.inv(program),
        !m.halted(program),
    ensures
        step(program, m, event) matches Ok(done) ==> done.machine.inv(program),
{
    if program[m.cursor] == BrainfuckInstructions::WhileStart {
        lemma_loop_end(program, m.cursor);
    }
}

/// A run of a balanced program keeps the engine in a state of that
/// program, however long it goes on.
pub proof fn lemma_run_keeps_invariant(
    program: Seq<BrainfuckInstructions>,
    s: Session,
    budget: nat,
)
    requires
        balanced(program),
        s.machine.inv(program),
    ensures
        run(program, s, budget).machine.inv(program),
    decreases budget,
{
    if budget > 0 && s.running(program) {
        let reads = s.machine.awaits_input(program) && s.unread.len() > 0;
        let event = if reads {
            Some(s.unread[0])
        } else {
            None
        };
        lemma_step_keeps_invariant(program, s.machine, event);
        lemma_run_keeps_invariant(program, advance(program, s), (budget - 1) as nat);
    }
}

/// A run can be taken in two parts: going on for `second` instructions
/// from where `first` instructions have led is the run of `first +
/// second` instructions.
pub proof fn lemma_run_splits(
    program: Seq<BrainfuckInstructions>,
    s: Session,
    first: nat,
    second: nat,
)
    ensures
        run(program, s, first + second) == run(program, run(program, s, first), second),
    decreases first,
{
    if first > 0 && s.running(program) {
        lemma_run_splits(program, advance(program, s), (first - 1) as nat, second);
    }
}

/// A run that is complete or has failed stays as it is.
pub proof fn lemma_run_stays(program: Seq<BrainfuckInstructions>, s: Session, budget: nat)
    requires
        !s.running(program),
    ensures
        run(program, s, budget) == s,
{
}

/// The budget is only a bound: a run that has come to its end or to a
/// fault within `budget` instructions comes to the same with any larger
/// budget.
pub proof fn lemma_budget_is_only_a_bound(
    program: Seq<BrainfuckInstructions>,
    s: Session,
    budget: nat,
    larger: nat,
)
    requires
        budget <= larger,
        !run(program, s, budget).running(program),
    ensures
        run(program, s, larger) == run(program, s, budget),
{
    lemma_run_splits(program, s, budget, (larger - budget) as nat);
}

/// A fault is fatal: it ends the run at once, with the engine, the input
/// and the output as they were before the instruction that failed, and
/// no budget brings the run any further.
pub proof fn lemma_fault_ends_run(program: Seq<BrainfuckInstructions>, s: Session, budget: nat)
    requires
        s.running(program),
        advance(program, s).fault is Some,
        budget > 0,
    ensures
        run(program, s, budget) == (Session { fault: advance(program, s).fault, ..s }),
        run(program, s, budget).status(program) == Status::Failed(advance(program, s).fault->0),
{
    lemma_run_stays(program, advance(program, s), (budget - 1) as nat);
}

/// A run only ever adds to its output and only ever reads from the front
/// of its input.
pub proof fn lemma_run_extends_transcript(
    program: Seq<BrainfuckInstructions>,
    s: Session,
    budget: nat,
)
    ensures
        s.written.is_prefix_of(run(program, s, budget).written),
        run(program, s, budget).unread.is_suffix_of(s.unread),
    decreases budget,
{
    if budget > 0 && s.running(program) {
        lemma_run_extends_transcript(program, advance(program, s), (budget - 1) as nat);
    }
}

} // verus!

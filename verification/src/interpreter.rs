//! The interpreter: it loads a program from source text and executes it,
//! one instruction at a time or as a whole run on a given input.

use vstd::prelude::*;
use crate::brackets::{
    balanced, compute_jump_table, diagnose, lemma_linked_entries, lemma_nesting_prefix,
    lemma_nesting_push, linked, nesting,
};
use crate::fault::Fault;
use crate::instruction::{decode, is_symbol, BrainfuckInstructions};
use crate::machine::{advance, run, step, Machine, Session, Status, Step, TAPE_LENGTH};
use crate::source::{
    lemma_program_concat, lemma_program_push, lemma_strip_is_stripped, lemma_strip_push,
    program_of, strip, symbols_of,
};

verus! {

/// `String::push` of the standard library: it appends the character to the
/// end of the string and changes nothing else.
pub assume_specification[ String::push ](text: &mut String, ch: char)
    ensures
        final(text)@ == old(text)@.push(ch),
;

/// An interpreter with its tape, its program, its two pointers and the
/// stack of the loops that it is executing.
///
/// The program it holds is always a validated one, and with it the
/// interpreter keeps a table of the `]` of each `[`, so that leaving a
/// loop costs one lookup.
pub struct Interpreter {
    memory: [u8; 30000],
    memory_index: usize,
    instructions: Vec<BrainfuckInstructions>,
    instruction_index: usize,
    jumps: Vec<usize>,
    loops: Vec<usize>,
}

/// What a run on a given input came to.
#[derive(Debug)]
pub struct Run {
    /// The characters that the program wrote, in order.
    pub output: String,
    /// The number of input bytes that the program read.
    pub consumed: usize,
    /// How the run stands.
    pub status: Status,
}

impl View for Interpreter {
    type V = Machine;

    /// The state of the engine: tape, data pointer, instruction pointer,
    /// and the loops that are being executed.
    closed spec fn view(&self) -> Machine {
        Machine {
            tape: self.memory@,
            pointer: self.memory_index as int,
            cursor: self.instruction_index as int,
            loops: self.loops@.map_values(|start: usize| start as int),
        }
    }
}

impl Interpreter {
    /// The program that the interpreter holds.
    pub closed spec fn program(&self) -> Seq<BrainfuckInstructions> {
        self.instructions@
    }

    /// The jump table is the one of the program.
    pub closed spec fn table_linked(&self) -> bool {
        linked(self.instructions@, self.jumps@)
    }

    /// The interpreter is in order: its state is one of its program, the
    /// program's brackets are balanced, and the jump table is right.
    pub open spec fn wf(&self) -> bool {
        &&& self@.inv(self.program())
        &&& balanced(self.program())
        &&& self.table_linked()
    }

    /// A new interpreter: a tape of zeros, both pointers at the start, no
    /// loop entered, and the empty program.
    pub fn new() -> (interpreter: Interpreter)
        ensures
            interpreter.wf(),
            interpreter@ == Machine::initial(),
            interpreter.program() == Seq::<BrainfuckInstructions>::empty(),
    {
        let interpreter = Interpreter {
            memory: [0u8; 30000],
            memory_index: 0,
            instructions: Vec::new(),
            instruction_index: 0,
            jumps: Vec::new(),
            loops: Vec::new(),
        };
        assert(interpreter.memory@ =~= Machine::initial().tape);
        assert(interpreter@.loops =~= Machine::initial().loops);
        interpreter
    }

    /// Lexical analysis: keeps the eight symbols of `code` in their order
    /// and drops every other character.
    pub fn lexical_analysis(&self, code: String) -> (symbols: String)
        ensures
            symbols@ == strip(code@),
    {
        let mut symbols = String::new();
        for character in it: code.as_str().chars()
            invariant
                it.seq() == code@,
                symbols@ == strip(code@.take(it.index())),
        {
            proof {
                assert(code@.take(it.index() + 1) =~= code@.take(it.index()).push(character));
                lemma_strip_push(code@.take(it.index()), character);
            }
            match character {
                '>' | '<' | '+' | '-' | '.' | ',' | '[' | ']' => {
                    symbols.push(character);
                },
                _ => {},
            }
        }
        assert(code@.take(code@.len() as int) =~= code@);
        symbols
    }

    /// Syntactic analysis: tells whether the loops of `code` are closed
    /// correctly, in one pass from left to right with a stack of the
    /// brackets that are open. It fails at the first `]` that finds the
    /// stack empty, and at the end if a `[` is still on it.
    pub fn syntactic_analysis(&self, code: &str) -> (result: Result<(), Fault>)
        ensures
            result is Ok <==> balanced(program_of(code@)),
            result == match diagnose(program_of(code@)) {
                None => Ok::<(), Fault>(()),
                Some(fault) => Err::<(), Fault>(fault),
            },
    {
        let mut stack: Vec<char> = Vec::new();
        for parenthesis in it: code.chars()
            invariant
                it.seq() == code@,
                stack@.len() == nesting(
                    program_of(code@.take(it.index())),
                    program_of(code@.take(it.index())).len() as int,
                ),
                forall|at: int|
                    0 <= at <= program_of(code@.take(it.index())).len() ==> nesting(
                        program_of(code@.take(it.index())),
                        at,
                    ) >= 0,
        {
            let ghost read = program_of(code@.take(it.index()));
            let ghost grown = program_of(code@.take(it.index() + 1));
            proof {
                assert(code@.take(it.index() + 1) =~= code@.take(it.index()).push(parenthesis));
                lemma_program_push(code@.take(it.index()), parenthesis);
                if is_symbol(parenthesis) {
                    lemma_nesting_push(read, decode(parenthesis)->0);
                }
            }
            match parenthesis {
                '[' => {
                    stack.push(parenthesis);
                },
                ']' => {
                    match stack.pop() {
                        Some(_) => {},
                        None => {
                            proof {
                                let rest = code@.skip(it.index() + 1);
                                assert(code@ =~= code@.take(it.index() + 1) + rest);
                                lemma_program_concat(code@.take(it.index() + 1), rest);
                                lemma_nesting_prefix(grown, program_of(rest), grown.len() as int);
                            }
                            return Err(Fault::UnmatchedClose);
                        },
                    }
                },
                _ => {},
            }
        }
        assert(code@.take(code@.len() as int) =~= code@);
        if stack.is_empty() {
            Ok(())
        } else {
            Err(Fault::UnmatchedOpen)
        }
    }

    /// Generates the internal representation of `code`: one instruction
    /// for each symbol, in order. The interpreter holds that program from
    /// now on, with the instruction pointer at its start and no loop
    /// entered; the tape and the data pointer stay as they are.
    pub fn generate_internal_representation(&mut self, code: String)
        requires
            old(self).wf(),
            balanced(program_of(code@)),
        ensures
            final(self).wf(),
            final(self).program() == program_of(code@),
            final(self)@ == old(self)@.rewind(),
    {
        let mut instructions: Vec<BrainfuckInstructions> = Vec::new();
        for character in it: code.as_str().chars()
            invariant
                it.seq() == code@,
                instructions@ == program_of(code@.take(it.index())),
        {
            proof {
                assert(code@.take(it.index() + 1) =~= code@.take(it.index()).push(character));
                lemma_program_push(code@.take(it.index()), character);
            }
            match BrainfuckInstructions::from_symbol(character) {
                Some(instruction) => {
                    instructions.push(instruction);
                },
                None => {},
            }
        }
        assert(code@.take(code@.len() as int) =~= code@);
        self.jumps = compute_jump_table(&instructions);
        self.instructions = instructions;
        self.instruction_index = 0;
        self.loops = Vec::new();
        assert(self@.loops =~= Seq::<int>::empty());
    }

    /// Loads the program that `source` denotes: strips the commentary,
    /// validates the brackets, and generates the instructions. Where the
    /// brackets are not in order nothing is loaded and the interpreter
    /// stays as it was: no part of an invalid text is ever run.
    pub fn initialize_instructions(&mut self, source: String) -> (result: Result<(), Fault>)
        requires
            old(self).wf(),
        ensures
            final(self).wf(),
            result is Ok <==> balanced(program_of(source@)),
            match diagnose(program_of(source@)) {
                None => result == Ok::<(), Fault>(()) && final(self).program() == program_of(
                    source@,
                ) && final(self)@ == old(self)@.rewind(),
                Some(fault) => result == Err::<(), Fault>(fault) && final(self).program() == old(
                    self,
                ).program() && final(self)@ == old(self)@,
            },
    {
        proof {
            lemma_strip_is_stripped(source@);
        }
        let code = self.lexical_analysis(source);
        match self.syntactic_analysis(code.as_str()) {
            Ok(()) => {
                self.generate_internal_representation(code);
                Ok(())
            },
            Err(fault) => Err(fault),
        }
    }

    /// The program that the interpreter holds.
    pub fn instructions(&self) -> (program: &Vec<BrainfuckInstructions>)
        ensures
            program@ == self.program(),
    {
        &self.instructions
    }

    /// The program that the interpreter holds, spelled in symbols: the
    /// text that a source is stripped to before it is loaded.
    pub fn listing(&self) -> (text: String)
        ensures
            text@ == symbols_of(self.program()),
    {
        let mut text = String::new();
        let mut position: usize = 0;
        while position < self.instructions.len()
            invariant
                position <= self.instructions@.len(),
                text@ == symbols_of(self.instructions@.take(position as int)),
            decreases self.instructions@.len() - position,
        {
            text.push(self.instructions[position].symbol());
            position += 1;
        }
        text
    }

    /// The data pointer: the position of the current cell on the tape.
    pub fn memory_index(&self) -> (index: usize)
        ensures
            index == self@.pointer,
    {
        self.memory_index
    }

    /// The instruction pointer: the position of the instruction that is
    /// executed next.
    pub fn instruction_index(&self) -> (index: usize)
        ensures
            index == self@.cursor,
    {
        self.instruction_index
    }

    /// Whether the run is complete: the instruction pointer is behind the
    /// last instruction.
    pub fn finished(&self) -> (done: bool)
        ensures
            done == self@.halted(self.program()),
    {
        self.instruction_index >= self.instructions.len()
    }

    /// Whether the next instruction reads a byte, so that the caller has
    /// to get one from the input before it executes the instruction.
    pub fn awaits_input(&self) -> (reads: bool)
        ensures
            reads == self@.awaits_input(self.program()),
    {
        self.instruction_index < self.instructions.len()
            && self.instructions[self.instruction_index] == BrainfuckInstructions::GetChar
    }

    /// The value of the current cell.
    pub fn get_memory_value(&self) -> (value: u8)
        requires
            self.wf(),
        ensures
            value == self@.cell(),
    {
        self.memory[self.memory_index]
    }

    /// The instruction at the instruction pointer.
    pub fn get_instruction(&self) -> (instruction: BrainfuckInstructions)
        requires
            self.wf(),
            !self@.halted(self.program()),
        ensures
            instruction == self.program()[self@.cursor],
    {
        self.instructions[self.instruction_index]
    }

    /// Adds one to the current cell, or takes one from it. A cell that
    /// holds 255 cannot go up and one that holds 0 cannot go down: that is
    /// a fault, and the cell stays as it is.
    pub fn update_memory_cell(&mut self, increment: bool) -> (result: Result<(), Fault>)
        requires
            old(self).wf(),
        ensures
            final(self).wf(),
            final(self).program() == old(self).program(),
            increment && old(self)@.cell() == 255 ==> result == Err::<(), Fault>(
                Fault::CellOverflow,
            ) && final(self)@ == old(self)@,
            increment && old(self)@.cell() < 255 ==> result == Ok::<(), Fault>(()) && final(self)@
                == old(self)@.store((old(self)@.cell() + 1) as u8),
            !increment && old(self)@.cell() == 0 ==> result == Err::<(), Fault>(
                Fault::CellUnderflow,
            ) && final(self)@ == old(self)@,
            !increment && old(self)@.cell() > 0 ==> result == Ok::<(), Fault>(()) && final(self)@
                == old(self)@.store((old(self)@.cell() - 1) as u8),
    {
        let current_value = self.get_memory_value();
        if increment {
            if current_value == 255 {
                return Err(Fault::CellOverflow);
            }
            self.memory[self.memory_index] = current_value + 1;
        } else {
            if current_value == 0 {
                return Err(Fault::CellUnderflow);
            }
            self.memory[self.memory_index] = current_value - 1;
        }
        Ok(())
    }

    /// Puts `value` into the current cell.
    pub fn set_memory_cell(&mut self, value: u8)
        requires
            old(self).wf(),
        ensures
            final(self).wf(),
            final(self).program() == old(self).program(),
            final(self)@ == old(self)@.store(value),
    {
        self.memory[self.memory_index] = value;
    }

    /// Moves the data pointer one cell to the right or to the left. It
    /// cannot leave the tape on either side: that is a fault, and the
    /// pointer stays where it is.
    pub fn update_memory_pointer(&mut self, increment: bool) -> (result: Result<(), Fault>)
        requires
            old(self).wf(),
        ensures
            final(self).wf(),
            final(self).program() == old(self).program(),
            increment && old(self)@.pointer == TAPE_LENGTH - 1 ==> result == Err::<(), Fault>(
                Fault::PointerOverflow,
            ) && final(self)@ == old(self)@,
            increment && old(self)@.pointer < TAPE_LENGTH - 1 ==> result == Ok::<(), Fault>(())
                && final(self)@ == old(self)@.seek(old(self)@.pointer + 1),
            !increment && old(self)@.pointer == 0 ==> result == Err::<(), Fault>(
                Fault::PointerUnderflow,
            ) && final(self)@ == old(self)@,
            !increment && old(self)@.pointer > 0 ==> result == Ok::<(), Fault>(()) && final(self)@
                == old(self)@.seek(old(self)@.pointer - 1),
    {
        if increment {
            if self.memory_index == TAPE_LENGTH - 1 {
                return Err(Fault::PointerOverflow);
            }
            self.memory_index += 1;
        } else {
            if self.memory_index == 0 {
                return Err(Fault::PointerUnderflow);
            }
            self.memory_index -= 1;
        }
        Ok(())
    }

    /// Puts the instruction pointer at `value`: a jump.
    pub fn set_instruction_pointer(&mut self, value: usize)
        requires
            old(self).wf(),
            value <= old(self).program().len(),
        ensures
            final(self).wf(),
            final(self).program() == old(self).program(),
            final(self)@ == old(self)@.jump(value as int),
    {
        self.instruction_index = value;
    }

    /// Moves the instruction pointer to the next instruction.
    pub fn increment_instruction_pointer(&mut self)
        requires
            old(self).wf(),
            !old(self)@.halted(old(self).program()),
        ensures
            final(self).wf(),
            final(self).program() == old(self).program(),
            final(self)@ == old(self)@.jump(old(self)@.cursor + 1),
    {
        assert(self.instructions@.len() == self.instructions.len());
        self.instruction_index += 1;
    }

    /// `>`: moves the data pointer one cell to the right; at the last cell
    /// that is a fault.
    pub fn pointer_increment(&mut self) -> (result: Result<(), Fault>)
        requires
            old(self).wf(),
        ensures
            final(self).wf(),
            final(self).program() == old(self).program(),
            old(self)@.pointer == TAPE_LENGTH - 1 ==> result == Err::<(), Fault>(
                Fault::PointerOverflow,
            ) && final(self)@ == old(self)@,
            old(self)@.pointer < TAPE_LENGTH - 1 ==> result == Ok::<(), Fault>(()) && final(self)@
                == old(self)@.seek(old(self)@.pointer + 1),
    {
        self.update_memory_pointer(true)
    }

    /// `<`: moves the data pointer one cell to the left; at the first cell
    /// that is a fault.
    pub fn pointer_decrement(&mut self) -> (result: Result<(), Fault>)
        requires
            old(self).wf(),
        ensures
            final(self).wf(),
            final(self).program() == old(self).program(),
            old(self)@.pointer == 0 ==> result == Err::<(), Fault>(Fault::PointerUnderflow)
                && final(self)@ == old(self)@,
            old(self)@.pointer > 0 ==> result == Ok::<(), Fault>(()) && final(self)@ == old(
                self,
            )@.seek(old(self)@.pointer - 1),
    {
        self.update_memory_pointer(false)
    }

    /// `+`: adds one to the current cell; at 255 that is a fault.
    pub fn cell_increment(&mut self) -> (result: Result<(), Fault>)
        requires
            old(self).wf(),
        ensures
            final(self).wf(),
            final(self).program() == old(self).program(),
            old(self)@.cell() == 255 ==> result == Err::<(), Fault>(Fault::CellOverflow)
                && final(self)@ == old(self)@,
            old(self)@.cell() < 255 ==> result == Ok::<(), Fault>(()) && final(self)@ == old(
                self,
            )@.store((old(self)@.cell() + 1) as u8),
    {
        self.update_memory_cell(true)
    }

    /// `-`: takes one from the current cell; at 0 that is a fault.
    pub fn cell_decrement(&mut self) -> (result: Result<(), Fault>)
        requires
            old(self).wf(),
        ensures
            final(self).wf(),
            final(self).program() == old(self).program(),
            old(self)@.cell() == 0 ==> result == Err::<(), Fault>(Fault::CellUnderflow)
                && final(self)@ == old(self)@,
            old(self)@.cell() > 0 ==> result == Ok::<(), Fault>(()) && final(self)@ == old(
                self,
            )@.store((old(self)@.cell() - 1) as u8),
    {
        self.update_memory_cell(false)
    }

    /// `.`: the character to write, which is the current cell taken as one
    /// character: the one whose code is the value of the cell.
    pub fn print_character(&self) -> (character: char)
        requires
            self.wf(),
        ensures
            character == self@.cell() as char,
    {
        self.get_memory_value() as char
    }

    /// `,`: stores the byte that the caller has read into the current
    /// cell. `None` says that the input had no byte to give: that is a
    /// fault, and no value is made up in its place.
    pub fn get_character(&mut self, event: Option<u8>) -> (result: Result<(), Fault>)
        requires
            old(self).wf(),
        ensures
            final(self).wf(),
            final(self).program() == old(self).program(),
            event is None ==> result == Err::<(), Fault>(Fault::InputUnavailable) && final(self)@
                == old(self)@,
            event matches Some(byte) ==> result == Ok::<(), Fault>(()) && final(self)@ == old(
                self,
            )@.store(byte),
    {
        match event {
            Some(byte) => {
                self.set_memory_cell(byte);
                Ok(())
            },
            None => Err(Fault::InputUnavailable),
        }
    }

    /// Whether a loop is being executed.
    pub fn in_loop(&self) -> (inside: bool)
        ensures
            inside == (self@.loops.len() > 0),
    {
        self.loops.len() > 0
    }

    /// Loop control. On a `[` the current cell is tested: if it is zero
    /// the loop is left, the instruction pointer goes behind the `]` of
    /// this `[`, and no instruction of the body is executed; if not, the
    /// loop is entered, and its body comes next. On a `]`, with a loop
    /// being executed, a pass through the body is over: the instruction
    /// pointer goes back to the `[` of that loop, where the cell is tested
    /// again, once for each pass.
    pub fn exec_loop(&mut self)
        requires
            old(self).wf(),
            !old(self)@.halted(old(self).program()),
            old(self).program()[old(self)@.cursor] == BrainfuckInstructions::WhileStart || (old(
                self,
            ).program()[old(self)@.cursor] == BrainfuckInstructions::WhileEnd && old(
                self,
            )@.loops.len() > 0),
        ensures
            final(self).wf(),
            final(self).program() == old(self).program(),
            step(old(self).program(), old(self)@, None) == Ok::<Step, Fault>(
                Step { machine: final(self)@, output: None },
            ),
    {
        assert(self.instructions@.len() == self.instructions.len());
        match self.get_instruction() {
            BrainfuckInstructions::WhileStart => {
                if self.get_memory_value() == 0 {
                    let end = self.jumps[self.instruction_index];
                    proof {
                        lemma_linked_entries(
                            self.instructions@,
                            self.jumps@,
                            self.instruction_index as int,
                        );
                    }
                    self.set_instruction_pointer(end + 1);
                } else {
                    self.loops.push(self.instruction_index);
                    assert(self@.loops =~= old(self)@.loops.push(self.instruction_index as int));
                    self.increment_instruction_pointer();
                }
            },
            _ => {
                match self.loops.pop() {
                    Some(start) => {
                        assert(self@.loops =~= old(self)@.loops.drop_last());
                        self.set_instruction_pointer(start);
                    },
                    None => {},
                }
            },
        }
    }

    /// Executes the instruction at the instruction pointer. `event` is the
    /// byte read for an instruction that reads (`None`: the input has
    /// none), and is ignored by the others. The result is the character
    /// to write, if the instruction writes one. After a fault the
    /// interpreter is as it was before.
    pub fn exec_instruction(&mut self, event: Option<u8>) -> (result: Result<Option<char>, Fault>)
        requires
            old(self).wf(),
            !old(self)@.halted(old(self).program()),
        ensures
            final(self).wf(),
            final(self).program() == old(self).program(),
            match step(old(self).program(), old(self)@, event) {
                Ok(s) => result == Ok::<Option<char>, Fault>(s.output) && final(self)@
                    == s.machine,
                Err(fault) => result == Err::<Option<char>, Fault>(fault) && final(self)@ == old(
                    self,
                )@,
            },
    {
        let mut output: Option<char> = None;
        let done = match self.get_instruction() {
            BrainfuckInstructions::PointerIncrement => self.pointer_increment(),
            BrainfuckInstructions::PointerDecrement => self.pointer_decrement(),
            BrainfuckInstructions::CellIncrement => self.cell_increment(),
            BrainfuckInstructions::CellDecrement => self.cell_decrement(),
            BrainfuckInstructions::PutChar => {
                output = Some(self.print_character());
                Ok(())
            },
            BrainfuckInstructions::GetChar => self.get_character(event),
            BrainfuckInstructions::WhileStart => {
                self.exec_loop();
                return Ok(None);
            },
            BrainfuckInstructions::WhileEnd => {
                if self.in_loop() {
                    self.exec_loop();
                    return Ok(None);
                }
                // no loop is being executed: nothing to do but to move on
                Ok(())
            },
        };
        match done {
            Ok(()) => {
                self.increment_instruction_pointer();
                Ok(output)
            },
            Err(fault) => Err(fault),
        }
    }

    /// Runs the program from where it stands on the input `input`, for at
    /// most `budget` instructions. Instructions that read take the bytes
    /// of `input` in order, and the first one that finds none left is a
    /// fault. The run ends when the instruction pointer comes behind the
    /// last instruction, at the first fault, or when the budget is used
    /// up; a suspended run goes on with the next call, on the input that
    /// is left.
    pub fn interpret(&mut self, input: &[u8], budget: u64) -> (outcome: Run)
        requires
            old(self).wf(),
        ensures
            final(self).wf(),
            final(self).program() == old(self).program(),
            ({
                let end = run(
                    old(self).program(),
                    Session::start(old(self)@, input@),
                    budget as nat,
                );
                &&& final(self)@ == end.machine
                &&& outcome.output@ == end.written
                &&& outcome.consumed <= input@.len()
                &&& input@.skip(outcome.consumed as int) == end.unread
                &&& outcome.status == end.status(old(self).program())
            }),
    {
        let ghost program = self.program();
        let ghost goal = run(program, Session::start(self@, input@), budget as nat);
        let mut output = String::new();
        let mut consumed: usize = 0;
        let mut remaining: u64 = budget;
        assert(input@.skip(0) =~= input@);
        while remaining > 0 && !self.finished()
            invariant
                self.wf(),
                self.program() == program,
                program == old(self).program(),
                goal == run(program, Session::start(old(self)@, input@), budget as nat),
                consumed <= input@.len(),
                goal == run(
                    program,
                    Session {
                        machine: self@,
                        unread: input@.skip(consumed as int),
                        written: output@,
                        fault: None,
                    },
                    remaining as nat,
                ),
            decreases remaining,
        {
            let ghost here = Session {
                machine: self@,
                unread: input@.skip(consumed as int),
                written: output@,
                fault: None,
            };
            let reads = self.awaits_input() && consumed < input.len();
            let event = if reads {
                Some(input[consumed])
            } else {
                None
            };
            assert(goal == run(program, advance(program, here), (remaining - 1) as nat));
            match self.exec_instruction(event) {
                Ok(written) => {
                    if let Some(character) = written {
                        output.push(character);
                    }
                    if reads {
                        assert(input@.skip(consumed as int).drop_first() =~= input@.skip(
                            consumed + 1,
                        ));
                        consumed += 1;
                    }
                },
                Err(fault) => {
                    return Run { output, consumed, status: Status::Failed(fault) };
                },
            }
            remaining -= 1;
        }
        let status = if self.finished() {
            Status::Finished
        } else {
            Status::Suspended
        };
        Run { output, consumed, status }
    }
}

} // verus!

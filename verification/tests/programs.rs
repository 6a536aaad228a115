use brainfuck_interpreter::{Fault, Interpreter, Status};

const HELLO_WORLD: &str = "++++++++[>++++[>++>+++>+++>+<<<<-]>+>+>->>+[<]<-]>>.>---.+++++++..+++.>>.<-.<.+++.------.--------.>>+.>++.";

const NUMBERS: &str = "
    a newline in the fifth cell
    >>>>++++++++++<<<<
    the digit 0 in the fourth cell and ten in the third
    >>>++++++++++++++++++++++++++++++++++++++++++++++++<++++++++++
    the numbers below ten
    [>.>.<+<-]
    >----------<
    nine in the first cell and the digit 1 in the second
    <<+++++++++>+++++++++++++++++++++++++++++++++++++++++++++++++<
    for each ten its ten numbers
    [>>++++++++++[<.>>.>.<+<-]>----------<<+<-]
";

const LOREM_IPSUM: &str = "Lorem ipsum dolor sit amet, consectetur adipiscing elit,\nsed do eiusmod tempor incididunt ut labore et dolore magna aliqua.\nUt enim ad minim veniam, quis nostrud exercitation ullamco laboris\nnisi ut aliquip ex ea commodo consequat.\n";

fn loaded(source: &str) -> Interpreter {
    let mut interpreter = Interpreter::new();
    assert_eq!(interpreter.initialize_instructions(String::from(source)), Ok(()));
    interpreter
}

/// Runs the program as a host with streams does: one instruction at a
/// time, reading a byte only when the next instruction asks for one.
fn stream(interpreter: &mut Interpreter, input: &[u8]) -> (String, Option<Fault>) {
    let mut output = String::new();
    let mut unread = input.iter();
    while !interpreter.finished() {
        let event = if interpreter.awaits_input() { unread.next().copied() } else { None };
        match interpreter.exec_instruction(event) {
            Ok(Some(character)) => output.push(character),
            Ok(None) => {}
            Err(fault) => return (output, Some(fault)),
        }
    }
    (output, None)
}

#[test]
fn hello_world() {
    let mut interpreter = loaded(HELLO_WORLD);
    let run = interpreter.interpret(&[], 100000);
    assert_eq!(run.status, Status::Finished);
    assert_eq!(run.output, "Hello World!\n");
    assert_eq!(run.consumed, 0);
}

#[test]
fn hello_prefix() {
    let mut interpreter = loaded(
        "++++++++[>++++[>++>+++>+++>+<<<<-]>+>+>->>+[<]<-]>>.>---.+++++++..+++.",
    );
    let run = interpreter.interpret(&[], 100000);
    assert_eq!(run.status, Status::Finished);
    assert_eq!(run.output, "Hello");
}

#[test]
fn hello_world_takes_986_instructions() {
    let mut interpreter = loaded(HELLO_WORLD);
    let run = interpreter.interpret(&[], 985);
    assert_eq!(run.status, Status::Suspended);
    assert_eq!(run.output, "Hello World!");
    let run = interpreter.interpret(&[], 1);
    assert_eq!(run.status, Status::Finished);
    assert_eq!(run.output, "\n");
}

#[test]
fn hello_world_streamed() {
    let mut interpreter = loaded(HELLO_WORLD);
    let (output, fault) = stream(&mut interpreter, &[]);
    assert_eq!(fault, None);
    assert_eq!(output, "Hello World!\n");
}

#[test]
fn zero_to_ninety_nine() {
    let mut expected = String::new();
    for number in 0..100 {
        expected.push_str(&format!("{}\n", number));
    }
    let mut interpreter = loaded(NUMBERS);
    let run = interpreter.interpret(&[], 100000);
    assert_eq!(run.status, Status::Finished);
    assert_eq!(run.output, expected);
}

#[test]
fn cat() {
    let mut interpreter = loaded(",[.,]");
    let run = interpreter.interpret(LOREM_IPSUM.as_bytes(), 100000);
    assert_eq!(run.output, LOREM_IPSUM);
    assert_eq!(run.consumed, LOREM_IPSUM.len());
    assert_eq!(run.status, Status::Failed(Fault::InputUnavailable));
}

#[test]
fn cat_streamed() {
    let mut interpreter = loaded(",[.,]");
    let (output, fault) = stream(&mut interpreter, LOREM_IPSUM.as_bytes());
    assert_eq!(output, LOREM_IPSUM);
    assert_eq!(fault, Some(Fault::InputUnavailable));
}

#[test]
fn echo_one_byte() {
    let mut interpreter = loaded(",.");
    let run = interpreter.interpret(&[65], 100);
    assert_eq!(run.status, Status::Finished);
    assert_eq!(run.output, "A");
    assert_eq!(run.consumed, 1);
}

#[test]
fn echo_until_input_is_exhausted() {
    let mut interpreter = loaded("+[,.]");
    let run = interpreter.interpret("hi".as_bytes(), 100);
    assert_eq!(run.output, "hi");
    assert_eq!(run.consumed, 2);
    assert_eq!(run.status, Status::Failed(Fault::InputUnavailable));
    assert!(interpreter.awaits_input());
    assert_eq!(interpreter.get_memory_value(), 105);
}

#[test]
fn lone_open_bracket_never_runs() {
    let mut interpreter = Interpreter::new();
    assert_eq!(interpreter.initialize_instructions(String::from("[")), Err(Fault::UnmatchedOpen));
    let run = interpreter.interpret(&[], 100);
    assert!(run.output.is_empty());
    assert_eq!(run.status, Status::Finished);
}

#[test]
fn lone_close_bracket_never_runs() {
    let mut interpreter = Interpreter::new();
    assert_eq!(interpreter.initialize_instructions(String::from("]")), Err(Fault::UnmatchedClose));
    let run = interpreter.interpret(&[], 100);
    assert!(run.output.is_empty());
    assert_eq!(run.status, Status::Finished);
}

#[test]
fn decrement_of_zero_cell_fails_without_output() {
    let mut interpreter = loaded("-");
    let run = interpreter.interpret(&[], 100);
    assert_eq!(run.status, Status::Failed(Fault::CellUnderflow));
    assert!(run.output.is_empty());
    assert_eq!(interpreter.get_memory_value(), 0);
}

#[test]
fn streamed_run_agrees_with_the_run_on_a_buffer() {
    let source = ",[>+>+<<-]>[.-]>.";
    let mut buffered = loaded(source);
    let run = buffered.interpret(&[5, 6], 100000);
    let mut streamed = loaded(source);
    let (output, fault) = stream(&mut streamed, &[5, 6]);
    assert_eq!(run.status, Status::Finished);
    assert_eq!(fault, None);
    assert_eq!(run.output, "\u{5}\u{4}\u{3}\u{2}\u{1}\u{5}");
    assert_eq!(output, run.output);
    assert_eq!(streamed.memory_index(), buffered.memory_index());
    assert_eq!(streamed.instruction_index(), buffered.instruction_index());
}

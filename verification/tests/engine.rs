use brainfuck_interpreter::{Fault, Interpreter, Status};

fn loaded(source: &str) -> Interpreter {
    let mut interpreter = Interpreter::new();
    assert_eq!(interpreter.initialize_instructions(String::from(source)), Ok(()));
    interpreter
}

#[test]
fn new_interpreter_starts_at_zero() {
    let interpreter = Interpreter::new();
    assert_eq!(interpreter.get_memory_value(), 0);
    assert_eq!(interpreter.memory_index(), 0);
    assert_eq!(interpreter.instruction_index(), 0);
    assert!(interpreter.instructions().is_empty());
    assert!(interpreter.finished());
    assert!(!interpreter.awaits_input());
}

#[test]
fn every_cell_of_a_new_tape_is_zero() {
    let mut interpreter = Interpreter::new();
    for index in 0..30000 {
        assert_eq!(interpreter.memory_index(), index);
        assert_eq!(interpreter.get_memory_value(), 0);
        if index < 29999 {
            assert_eq!(interpreter.pointer_increment(), Ok(()));
        }
    }
}

#[test]
fn cell_increment_adds_one() {
    let mut interpreter = Interpreter::new();
    assert_eq!(interpreter.cell_increment(), Ok(()));
    assert_eq!(interpreter.get_memory_value(), 1);
    assert_eq!(interpreter.cell_increment(), Ok(()));
    assert_eq!(interpreter.get_memory_value(), 2);
    assert_eq!(interpreter.instruction_index(), 0);
}

#[test]
fn cell_decrement_takes_one() {
    let mut interpreter = Interpreter::new();
    interpreter.set_memory_cell(7);
    assert_eq!(interpreter.cell_decrement(), Ok(()));
    assert_eq!(interpreter.get_memory_value(), 6);
}

#[test]
fn cell_increment_at_255_is_fatal() {
    let mut interpreter = Interpreter::new();
    interpreter.set_memory_cell(254);
    assert_eq!(interpreter.cell_increment(), Ok(()));
    assert_eq!(interpreter.get_memory_value(), 255);
    assert_eq!(interpreter.cell_increment(), Err(Fault::CellOverflow));
    assert_eq!(interpreter.get_memory_value(), 255);
}

#[test]
fn cell_decrement_at_zero_is_fatal() {
    let mut interpreter = Interpreter::new();
    assert_eq!(interpreter.cell_decrement(), Err(Fault::CellUnderflow));
    assert_eq!(interpreter.get_memory_value(), 0);
}

#[test]
fn update_memory_cell_goes_both_ways() {
    let mut interpreter = Interpreter::new();
    assert_eq!(interpreter.update_memory_cell(false), Err(Fault::CellUnderflow));
    assert_eq!(interpreter.update_memory_cell(true), Ok(()));
    assert_eq!(interpreter.get_memory_value(), 1);
    assert_eq!(interpreter.update_memory_cell(false), Ok(()));
    assert_eq!(interpreter.get_memory_value(), 0);
    interpreter.set_memory_cell(255);
    assert_eq!(interpreter.update_memory_cell(true), Err(Fault::CellOverflow));
    assert_eq!(interpreter.get_memory_value(), 255);
}

#[test]
fn pointer_moves_right_and_left() {
    let mut interpreter = Interpreter::new();
    assert_eq!(interpreter.pointer_increment(), Ok(()));
    assert_eq!(interpreter.pointer_increment(), Ok(()));
    assert_eq!(interpreter.memory_index(), 2);
    assert_eq!(interpreter.pointer_decrement(), Ok(()));
    assert_eq!(interpreter.memory_index(), 1);
    assert_eq!(interpreter.update_memory_pointer(true), Ok(()));
    assert_eq!(interpreter.update_memory_pointer(false), Ok(()));
    assert_eq!(interpreter.memory_index(), 1);
}

#[test]
fn pointer_decrement_at_first_cell_is_fatal() {
    let mut interpreter = Interpreter::new();
    assert_eq!(interpreter.pointer_decrement(), Err(Fault::PointerUnderflow));
    assert_eq!(interpreter.memory_index(), 0);
}

#[test]
fn pointer_increment_at_last_cell_is_fatal() {
    let mut interpreter = Interpreter::new();
    for _ in 0..29999 {
        assert_eq!(interpreter.pointer_increment(), Ok(()));
    }
    assert_eq!(interpreter.memory_index(), 29999);
    assert_eq!(interpreter.pointer_increment(), Err(Fault::PointerOverflow));
    assert_eq!(interpreter.memory_index(), 29999);
    assert_eq!(interpreter.pointer_decrement(), Ok(()));
    assert_eq!(interpreter.memory_index(), 29998);
}

#[test]
fn cells_are_independent() {
    let mut interpreter = Interpreter::new();
    interpreter.set_memory_cell(11);
    assert_eq!(interpreter.pointer_increment(), Ok(()));
    assert_eq!(interpreter.get_memory_value(), 0);
    interpreter.set_memory_cell(22);
    assert_eq!(interpreter.pointer_decrement(), Ok(()));
    assert_eq!(interpreter.get_memory_value(), 11);
}

#[test]
fn print_character_hands_back_the_cell() {
    let mut interpreter = Interpreter::new();
    interpreter.set_memory_cell(65);
    assert_eq!(interpreter.print_character(), 'A');
    assert_eq!(interpreter.get_memory_value(), 65);
    interpreter.set_memory_cell(10);
    assert_eq!(interpreter.print_character(), '\n');
}

#[test]
fn print_character_takes_the_cell_as_a_character_code() {
    let mut interpreter = Interpreter::new();
    interpreter.set_memory_cell(0);
    assert_eq!(interpreter.print_character(), '\u{0}');
    interpreter.set_memory_cell(127);
    assert_eq!(interpreter.print_character(), '\u{7f}');
    interpreter.set_memory_cell(200);
    assert_eq!(interpreter.print_character(), '\u{c8}');
    interpreter.set_memory_cell(255);
    assert_eq!(interpreter.print_character(), '\u{ff}');
    assert_eq!(interpreter.print_character() as u32, 255);
}

#[test]
fn get_character_stores_the_byte() {
    let mut interpreter = Interpreter::new();
    assert_eq!(interpreter.get_character(Some(104)), Ok(()));
    assert_eq!(interpreter.get_memory_value(), 104);
    assert_eq!(interpreter.get_character(Some(0)), Ok(()));
    assert_eq!(interpreter.get_memory_value(), 0);
}

#[test]
fn get_character_without_input_is_fatal() {
    let mut interpreter = Interpreter::new();
    interpreter.set_memory_cell(9);
    assert_eq!(interpreter.get_character(None), Err(Fault::InputUnavailable));
    assert_eq!(interpreter.get_memory_value(), 9);
}

#[test]
fn instruction_pointer_is_set_and_incremented() {
    let mut interpreter = loaded("+++");
    interpreter.increment_instruction_pointer();
    assert_eq!(interpreter.instruction_index(), 1);
    interpreter.set_instruction_pointer(3);
    assert_eq!(interpreter.instruction_index(), 3);
    assert!(interpreter.finished());
    interpreter.set_instruction_pointer(0);
    assert!(!interpreter.finished());
    assert_eq!(interpreter.get_memory_value(), 0);
}

#[test]
fn exec_instruction_runs_one_instruction_and_advances() {
    let mut interpreter = loaded("+>-");
    assert_eq!(interpreter.exec_instruction(None), Ok(None));
    assert_eq!(interpreter.get_memory_value(), 1);
    assert_eq!(interpreter.instruction_index(), 1);
    assert_eq!(interpreter.exec_instruction(None), Ok(None));
    assert_eq!(interpreter.memory_index(), 1);
    assert_eq!(interpreter.instruction_index(), 2);
    assert_eq!(interpreter.exec_instruction(None), Err(Fault::CellUnderflow));
    assert_eq!(interpreter.instruction_index(), 2);
    assert_eq!(interpreter.memory_index(), 1);
    assert_eq!(interpreter.get_memory_value(), 0);
}

#[test]
fn exec_instruction_writes_and_reads() {
    let mut interpreter = loaded(",.");
    assert!(interpreter.awaits_input());
    assert_eq!(interpreter.exec_instruction(Some(66)), Ok(None));
    assert!(!interpreter.awaits_input());
    assert_eq!(interpreter.exec_instruction(None), Ok(Some('B')));
    assert!(interpreter.finished());
}

#[test]
fn exec_instruction_ignores_the_event_where_nothing_is_read() {
    let mut interpreter = loaded("+.");
    assert_eq!(interpreter.exec_instruction(Some(200)), Ok(None));
    assert_eq!(interpreter.get_memory_value(), 1);
    assert_eq!(interpreter.exec_instruction(Some(200)), Ok(Some('\u{1}')));
}

#[test]
fn exec_instruction_without_input_is_fatal() {
    let mut interpreter = loaded(",");
    assert_eq!(interpreter.exec_instruction(None), Err(Fault::InputUnavailable));
    assert_eq!(interpreter.instruction_index(), 0);
    assert!(interpreter.awaits_input());
}

#[test]
fn loop_with_zero_cell_is_skipped() {
    let mut interpreter = loaded("[+.]+");
    assert_eq!(interpreter.exec_instruction(None), Ok(None));
    assert_eq!(interpreter.instruction_index(), 4);
    assert_eq!(interpreter.get_memory_value(), 0);
    assert_eq!(interpreter.exec_instruction(None), Ok(None));
    assert_eq!(interpreter.get_memory_value(), 1);
    assert!(interpreter.finished());
}

#[test]
fn skipped_loop_runs_zero_times() {
    let mut interpreter = loaded("[>+<.]");
    let run = interpreter.interpret(&[], 100);
    assert_eq!(run.status, Status::Finished);
    assert!(run.output.is_empty());
    assert_eq!(interpreter.memory_index(), 0);
    assert_eq!(interpreter.pointer_increment(), Ok(()));
    assert_eq!(interpreter.get_memory_value(), 0);
}

#[test]
fn skipping_an_outer_loop_skips_the_loops_inside() {
    let mut interpreter = loaded("[+[-]+[.]]>");
    assert_eq!(interpreter.exec_instruction(None), Ok(None));
    assert_eq!(interpreter.instruction_index(), 10);
    assert_eq!(interpreter.exec_instruction(None), Ok(None));
    assert!(interpreter.finished());
    assert_eq!(interpreter.memory_index(), 1);
}

#[test]
fn exec_loop_enters_the_body_on_a_nonzero_cell() {
    let mut interpreter = loaded("+[-]");
    assert_eq!(interpreter.exec_instruction(None), Ok(None));
    assert!(!interpreter.in_loop());
    interpreter.exec_loop();
    assert!(interpreter.in_loop());
    assert_eq!(interpreter.instruction_index(), 2);
    assert_eq!(interpreter.get_memory_value(), 1);
}

#[test]
fn exec_loop_goes_back_from_the_end_to_the_start() {
    let mut interpreter = loaded("+[-]");
    assert_eq!(interpreter.exec_instruction(None), Ok(None));
    interpreter.exec_loop();
    assert_eq!(interpreter.exec_instruction(None), Ok(None));
    assert_eq!(interpreter.instruction_index(), 3);
    interpreter.exec_loop();
    assert_eq!(interpreter.instruction_index(), 1);
    assert!(!interpreter.in_loop());
    interpreter.exec_loop();
    assert_eq!(interpreter.instruction_index(), 4);
    assert!(!interpreter.in_loop());
    assert!(interpreter.finished());
}

#[test]
fn loop_end_outside_of_a_loop_only_moves_on() {
    let mut interpreter = loaded("+[-]+");
    interpreter.set_instruction_pointer(3);
    assert!(!interpreter.in_loop());
    assert_eq!(interpreter.exec_instruction(None), Ok(None));
    assert_eq!(interpreter.instruction_index(), 4);
    assert_eq!(interpreter.get_memory_value(), 0);
    assert_eq!(interpreter.memory_index(), 0);
}

#[test]
fn nested_loops_are_entered_and_left_in_order() {
    let mut interpreter = loaded("+[>+[-]<-]");
    let mut trace = Vec::new();
    let mut inside = Vec::new();
    while !interpreter.finished() {
        trace.push(interpreter.instruction_index());
        inside.push(interpreter.in_loop());
        assert_eq!(interpreter.exec_instruction(None), Ok(None));
    }
    assert!(!interpreter.in_loop());
    assert_eq!(trace, vec![0, 1, 2, 3, 4, 5, 6, 4, 7, 8, 9, 1]);
    assert_eq!(
        inside,
        vec![false, false, true, true, true, true, true, true, true, true, true, false]
    );
    assert_eq!(interpreter.instruction_index(), 10);
}

#[test]
fn loop_is_tested_once_for_each_pass() {
    let mut interpreter = loaded("++[-]");
    let mut trace = Vec::new();
    while !interpreter.finished() {
        trace.push(interpreter.instruction_index());
        assert_eq!(interpreter.exec_instruction(None), Ok(None));
    }
    assert_eq!(trace, vec![0, 1, 2, 3, 4, 2, 3, 4, 2]);
    assert_eq!(interpreter.instruction_index(), 5);
    assert_eq!(interpreter.get_memory_value(), 0);
}

#[test]
fn loop_counts_down_exactly() {
    let mut interpreter = loaded("+++++[>+<-]>");
    let run = interpreter.interpret(&[], 1000);
    assert_eq!(run.status, Status::Finished);
    assert_eq!(interpreter.memory_index(), 1);
    assert_eq!(interpreter.get_memory_value(), 5);
    assert_eq!(interpreter.pointer_decrement(), Ok(()));
    assert_eq!(interpreter.get_memory_value(), 0);
}

#[test]
fn loop_writes_once_for_each_pass() {
    let mut interpreter = loaded("++++[.-]");
    let run = interpreter.interpret(&[], 1000);
    assert_eq!(run.status, Status::Finished);
    assert_eq!(run.output, "\u{4}\u{3}\u{2}\u{1}");
}

#[test]
fn clear_loop_takes_three_instructions_for_each_pass_and_one_more() {
    let mut interpreter = loaded("+++[-]");
    let run = interpreter.interpret(&[], 12);
    assert_eq!(run.status, Status::Suspended);
    assert_eq!(interpreter.instruction_index(), 3);
    assert_eq!(interpreter.get_memory_value(), 0);
    let mut interpreter = loaded("+++[-]");
    let run = interpreter.interpret(&[], 13);
    assert_eq!(run.status, Status::Finished);
    assert_eq!(interpreter.instruction_index(), 6);
    assert_eq!(interpreter.get_memory_value(), 0);
}

#[test]
fn nested_loops_multiply() {
    let mut interpreter = loaded("+++[>++++[>+<-]<-]>>");
    let run = interpreter.interpret(&[], 10000);
    assert_eq!(run.status, Status::Finished);
    assert_eq!(interpreter.memory_index(), 2);
    assert_eq!(interpreter.get_memory_value(), 12);
}

#[test]
fn interpret_with_no_budget_does_nothing() {
    let mut interpreter = loaded("+.");
    let run = interpreter.interpret(&[1, 2], 0);
    assert_eq!(run.status, Status::Suspended);
    assert!(run.output.is_empty());
    assert_eq!(run.consumed, 0);
    assert_eq!(interpreter.instruction_index(), 0);
    assert_eq!(interpreter.get_memory_value(), 0);
}

#[test]
fn interpret_stops_when_the_budget_is_used_up() {
    let mut interpreter = loaded("+[]");
    let run = interpreter.interpret(&[], 1000);
    assert_eq!(run.status, Status::Suspended);
    assert!(run.output.is_empty());
    assert_eq!(interpreter.get_memory_value(), 1);
    assert!(!interpreter.finished());
}

#[test]
fn suspended_run_goes_on_with_the_next_call() {
    let mut interpreter = loaded(",.,.+.");
    let input = [7u8, 8u8];
    let first = interpreter.interpret(&input, 2);
    assert_eq!(first.status, Status::Suspended);
    assert_eq!(first.output, "\u{7}");
    assert_eq!(first.consumed, 1);
    let second = interpreter.interpret(&input[first.consumed..], 100);
    assert_eq!(second.status, Status::Finished);
    assert_eq!(second.output, "\u{8}\u{9}");
    assert_eq!(second.consumed, 1);
}

#[test]
fn interpret_reports_the_fault_and_keeps_the_state() {
    let mut interpreter = loaded("+.>.<<.");
    let run = interpreter.interpret(&[], 100);
    assert_eq!(run.status, Status::Failed(Fault::PointerUnderflow));
    assert_eq!(run.output, "\u{1}\u{0}");
    assert_eq!(interpreter.instruction_index(), 5);
    assert_eq!(interpreter.memory_index(), 0);
    let again = interpreter.interpret(&[], 100);
    assert_eq!(again.status, Status::Failed(Fault::PointerUnderflow));
    assert!(again.output.is_empty());
}

#[test]
fn incrementing_past_255_fails_in_a_program() {
    let mut interpreter = loaded(&"+".repeat(256));
    let run = interpreter.interpret(&[], 255);
    assert_eq!(run.status, Status::Suspended);
    assert_eq!(interpreter.get_memory_value(), 255);
    let run = interpreter.interpret(&[], 1);
    assert_eq!(run.status, Status::Failed(Fault::CellOverflow));
    assert_eq!(interpreter.get_memory_value(), 255);
    assert_eq!(interpreter.instruction_index(), 255);
}

#[test]
fn moving_past_the_last_cell_fails_in_a_program() {
    let mut interpreter = loaded(&">".repeat(30000));
    let run = interpreter.interpret(&[], 100000);
    assert_eq!(run.status, Status::Failed(Fault::PointerOverflow));
    assert_eq!(interpreter.memory_index(), 29999);
    assert_eq!(interpreter.instruction_index(), 29999);
}

#[test]
fn moving_before_the_first_cell_fails_in_a_program() {
    let mut interpreter = loaded("><<");
    let run = interpreter.interpret(&[], 10);
    assert_eq!(run.status, Status::Failed(Fault::PointerUnderflow));
    assert_eq!(interpreter.memory_index(), 0);
    assert_eq!(interpreter.instruction_index(), 2);
}

#[test]
fn input_bytes_are_taken_in_order() {
    let mut interpreter = loaded(",>,>,<<.>.>.");
    let run = interpreter.interpret(&[3, 1, 2, 99], 100);
    assert_eq!(run.status, Status::Finished);
    assert_eq!(run.output, "\u{3}\u{1}\u{2}");
    assert_eq!(run.consumed, 3);
}

#[test]
fn a_zero_byte_is_read_like_any_other() {
    let mut interpreter = loaded("+,.");
    let run = interpreter.interpret(&[0], 100);
    assert_eq!(run.status, Status::Finished);
    assert_eq!(run.output, "\u{0}");
    assert_eq!(interpreter.get_memory_value(), 0);
}

#[test]
fn bytes_above_127_are_written_as_the_characters_with_those_codes() {
    let mut interpreter = loaded(",.>,.");
    let run = interpreter.interpret(&[200, 255], 100);
    assert_eq!(run.status, Status::Finished);
    assert_eq!(run.output, "\u{c8}\u{ff}");
    assert_eq!(run.output.chars().count(), 2);
}

#[test]
fn clear_loop_runs_as_often_as_the_cell_holds() {
    for count in 0..=255u8 {
        let mut interpreter = loaded("[-]");
        interpreter.set_memory_cell(count);
        let mut steps = 0;
        let mut passes = 0;
        while !interpreter.finished() {
            if interpreter.instruction_index() == 0 && interpreter.get_memory_value() != 0 {
                passes += 1;
            }
            assert_eq!(interpreter.exec_instruction(None), Ok(None));
            steps += 1;
        }
        assert_eq!(passes, count as usize);
        assert_eq!(steps, 3 * count as usize + 1);
        assert_eq!(interpreter.get_memory_value(), 0);
        assert_eq!(interpreter.instruction_index(), 3);
        assert!(!interpreter.in_loop());
    }
}

#[test]
fn counting_loop_with_a_longer_body_runs_as_often_as_the_cell_holds() {
    for count in 0..=20u8 {
        let mut interpreter = loaded("[>++[-]+.<-]");
        interpreter.set_memory_cell(count);
        let run = interpreter.interpret(&[], 100000);
        assert_eq!(run.status, Status::Finished);
        assert_eq!(run.output.chars().count(), count as usize);
        assert_eq!(interpreter.get_memory_value(), 0);
        assert_eq!(interpreter.memory_index(), 0);
    }
}

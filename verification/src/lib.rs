//! An interpreter for a tape language of eight one-character instructions.
//!
//! A source text is stripped of everything but the eight symbols, its
//! brackets are validated, and the symbols become a program. The engine
//! then executes the program one instruction at a time on a tape of
//! 30,000 byte cells. Nothing wraps around: leaving the range of a cell
//! or of the tape is a fault that ends the run.
//!
//! The engine performs no input or output itself. An instruction that
//! reads is handed the byte by the caller, and one that writes hands the
//! character back. A whole run on an input that is already in memory is
//! there too.

pub mod brackets;
pub mod fault;
pub mod instruction;
pub mod interpreter;
pub mod loops;
pub mod machine;
pub mod source;

pub use fault::Fault;
pub use instruction::BrainfuckInstructions;
pub use interpreter::{Interpreter, Run};
pub use machine::Status;

//! How loops run: that they are executed as they are nested, and how
//! often the body of a loop is passed through.

use vstd::prelude::*;
use crate::brackets::{
    balanced, lemma_loop_end, lemma_partners, loop_end, loop_start, nesting, paired, unclosed,
};
use crate::fault::Fault;
use crate::instruction::BrainfuckInstructions;
use crate::machine::{
    advance, lemma_run_keeps_invariant, lemma_run_splits, lemma_step_keeps_invariant, run, step,
    Machine, Session, Step,
};

verus! {

/// The number of passes through the body of the loop at `open` that the
/// run `s` begins within its next `budget` instructions: the number of
/// times that the `[` at `open` is executed on a cell that is not zero.
pub open spec fn passes(
    program: Seq<BrainfuckInstructions>,
    s: Session,
    budget: nat,
    open: int,
) -> nat
    decreases budget,
{
    if budget == 0 || !s.running(program) {
        0
    } else {
        let entered: nat = if s.machine.cursor == open && program[open]
            == BrainfuckInstructions::WhileStart && s.machine.cell() != 0 {
            1
        } else {
            0
        };
        entered + passes(program, advance(program, s), (budget - 1) as nat, open)
    }
}

/// The run `s` stands on the `[` at `open` and makes one pass that counts
/// down: after `steps` instructions it stands on that `[` again, for the
/// first time and without a fault, with the data pointer on the same cell
/// and one less in it, and with the same loops being executed as before.
pub open spec fn counts_down_once(
    program: Seq<BrainfuckInstructions>,
    s: Session,
    steps: nat,
    open: int,
) -> bool {
    let back = run(program, s, steps);
    &&& s.machine.cursor == open
    &&& back.fault is None
    &&& back.machine.cursor == open
    &&& back.machine.pointer == s.machine.pointer
    &&& back.machine.cell() == s.machine.cell() - 1
    &&& back.machine.loops == s.machine.loops
    &&& passes(program, s, steps, open) == 1
}

/// The body of the loop at `open` counts down the cell at `pointer`
/// wherever `holds` is true: every run that stands on the `[` with the
/// data pointer there, the cell not zero and `holds` true makes one pass
/// that counts down, after which `holds` is true again.
pub open spec fn body_counts_down(
    program: Seq<BrainfuckInstructions>,
    open: int,
    pointer: int,
    holds: spec_fn(Session) -> bool,
) -> bool {
    forall|s: Session|
        #[trigger] holds(s) && s.fault is None && s.machine.inv(program) && s.machine.cursor
            == open && s.machine.pointer == pointer && s.machine.cell() != 0 ==> exists|steps: nat|
            counts_down_once(program, s, steps, open) && holds(
                #[trigger] run(program, s, steps),
            )
}

/// The passes of a run taken in two parts add up.
pub proof fn lemma_passes_split(
    program: Seq<BrainfuckInstructions>,
    s: Session,
    first: nat,
    second: nat,
    open: int,
)
    ensures
        passes(program, s, first + second, open) == passes(program, s, first, open) + passes(
            program,
            run(program, s, first),
            second,
            open,
        ),
    decreases first,
{
    if first > 0 && s.running(program) {
        lemma_passes_split(program, advance(program, s), (first - 1) as nat, second, open);
    }
}

/// The loops that are being executed are the loops around the
/// instruction pointer: as many as the position is deep, and from the
/// outermost to the innermost each one the `[` of its depth that is still
/// open there.
pub open spec fn aligned(program: Seq<BrainfuckInstructions>, m: Machine) -> bool {
    &&& m.loops.len() == nesting(program, m.cursor)
    &&& forall|level: int|
        0 <= level < m.loops.len() ==> unclosed(program, #[trigger] m.loops[level], m.cursor)
            && nesting(program, m.loops[level]) == level
}

/// At the start of a program, with no loop entered, the loops that are
/// being executed are the loops around the instruction pointer: none.
pub proof fn lemma_start_is_aligned(program: Seq<BrainfuckInstructions>, m: Machine)
    ensures
        aligned(program, m.rewind()),
{
}

/// Loops are executed as they are nested. If the loops that are being
/// executed are the loops around the instruction pointer, they are so
/// again after the instruction: a `[` enters the loop that starts there
/// or goes behind it, and a loop that stands inside another deals with
/// its whole body and with its own `]` before the outer one goes on.
pub proof fn lemma_step_keeps_alignment(
    program: Seq<BrainfuckInstructions>,
    m: Machine,
    event: Option<u8>,
)
    requires
        balanced(program),
        m.inv(program),
        !m.halted(program),
        aligned(program, m),
    ensures
        step(program, m, event) matches Ok(done) ==> aligned(program, done.machine),
{
    let at = m.cursor;
    if program[at] == BrainfuckInstructions::WhileStart && m.cell() == 0 {
        // the loop is left: behind its `]` the depth is the one in front
        // of its `[`, and in between it is higher
        lemma_loop_end(program, at);
    }
    if program[at] == BrainfuckInstructions::WhileEnd {
        // the depth does not fall below zero, so there is a level to
        // close: the innermost loop, which goes on at its `[`
        assert(nesting(program, at + 1) >= 0);
    }
}

/// A run that begins with its loops executed as they are nested, as every
/// run from the start of a program does, goes on like that however long
/// it lasts.
pub proof fn lemma_run_keeps_alignment(
    program: Seq<BrainfuckInstructions>,
    s: Session,
    budget: nat,
)
    requires
        balanced(program),
        s.machine.inv(program),
        aligned(program, s.machine),
    ensures
        aligned(program, run(program, s, budget).machine),
    decreases budget,
{
    if budget > 0 && s.running(program) {
        let reads = s.machine.awaits_input(program) && s.unread.len() > 0;
        let event = if reads {
            Some(s.unread[0])
        } else {
            None
        };
        lemma_step_keeps_alignment(program, s.machine, event);
        lemma_step_keeps_invariant(program, s.machine, event);
        lemma_run_keeps_alignment(program, advance(program, s), (budget - 1) as nat);
    }
}

/// Where loops are executed as they are nested, a `]` is always the end
/// of a pass: a loop is being executed, it is the loop of this `]`, and
/// the instruction leads back to its `[`.
pub proof fn lemma_end_goes_back_to_its_start(
    program: Seq<BrainfuckInstructions>,
    m: Machine,
    event: Option<u8>,
)
    requires
        balanced(program),
        m.inv(program),
        !m.halted(program),
        aligned(program, m),
        program[m.cursor] == BrainfuckInstructions::WhileEnd,
    ensures
        m.loops.len() > 0,
        paired(program, m.loops.last(), m.cursor),
        m.loops.last() == loop_start(program, m.cursor),
        step(program, m, event) == Ok::<Step, Fault>(Step { machine: m.repeat(), output: None }),
{
    let at = m.cursor;
    assert(nesting(program, at + 1) >= 0);
    assert(paired(program, m.loops.last(), at));
    lemma_partners(program, m.loops.last(), at);
}

/// A loop that is met with its cell at zero runs zero times: the `[`
/// takes the run behind its `]` in one instruction, and leaves the tape,
/// the data pointer, the input and the output alone.
pub proof fn lemma_zero_cell_skips_loop(program: Seq<BrainfuckInstructions>, s: Session)
    requires
        balanced(program),
        s.machine.inv(program),
        s.running(program),
        program[s.machine.cursor] == BrainfuckInstructions::WhileStart,
        s.machine.cell() == 0,
    ensures
        paired(program, s.machine.cursor, loop_end(program, s.machine.cursor)),
        run(program, s, 1) == (Session {
            machine: s.machine.jump(loop_end(program, s.machine.cursor) + 1),
            ..s
        }),
        passes(program, s, 1, s.machine.cursor) == 0,
{
    lemma_loop_end(program, s.machine.cursor);
    reveal_with_fuel(run, 2);
    reveal_with_fuel(passes, 2);
}

/// A loop whose body counts its cell down runs exactly as many times as
/// the cell holds when the loop is met. With `n` in the cell, the run
/// makes `n` passes through the body, then finds the cell at zero and goes
/// behind the `]`. The result is the number of instructions that this
/// takes.
pub proof fn lemma_countdown_loop(
    program: Seq<BrainfuckInstructions>,
    s: Session,
    holds: spec_fn(Session) -> bool,
) -> (steps: nat)
    requires
        balanced(program),
        s.machine.inv(program),
        s.running(program),
        program[s.machine.cursor] == BrainfuckInstructions::WhileStart,
        holds(s),
        body_counts_down(program, s.machine.cursor, s.machine.pointer, holds),
    ensures
        steps >= 1,
        passes(program, s, steps, s.machine.cursor) == s.machine.cell(),
        ({
            let last = run(program, s, (steps - 1) as nat);
            &&& holds(last)
            &&& last.fault is None
            &&& last.machine.cursor == s.machine.cursor
            &&& last.machine.pointer == s.machine.pointer
            &&& last.machine.loops == s.machine.loops
            &&& last.machine.cell() == 0
            &&& run(program, s, steps) == (Session {
                machine: last.machine.jump(loop_end(program, s.machine.cursor) + 1),
                ..last
            })
        }),
    decreases s.machine.cell(),
{
    let open = s.machine.cursor;
    if s.machine.cell() == 0 {
        lemma_zero_cell_skips_loop(program, s);
        1
    } else {
        let once = choose|once: nat|
            counts_down_once(program, s, once, open) && holds(
                #[trigger] run(program, s, once),
            );
        let back = run(program, s, once);
        lemma_run_keeps_invariant(program, s, once);
        let rest = lemma_countdown_loop(program, back, holds);
        lemma_run_splits(program, s, once, (rest - 1) as nat);
        lemma_run_splits(program, s, once, rest);
        lemma_passes_split(program, s, once, rest, open);
        once + rest
    }
}

/// The loop `[-]` runs exactly as many times as its cell holds. With `n`
/// in the cell it takes `3 * n + 1` instructions, makes `n` passes, and
/// leaves the cell at zero and everything else as it was, with the
/// instruction pointer behind the `]`.
pub proof fn lemma_clear_loop(program: Seq<BrainfuckInstructions>, s: Session)
    requires
        balanced(program),
        s.machine.inv(program),
        s.fault is None,
        s.machine.cursor + 2 < program.len(),
        program[s.machine.cursor] == BrainfuckInstructions::WhileStart,
        program[s.machine.cursor + 1] == BrainfuckInstructions::CellDecrement,
        program[s.machine.cursor + 2] == BrainfuckInstructions::WhileEnd,
    ensures
        run(program, s, (3 * s.machine.cell() + 1) as nat) == (Session {
            machine: s.machine.store(0).jump(s.machine.cursor + 3),
            ..s
        }),
        passes(program, s, (3 * s.machine.cell() + 1) as nat, s.machine.cursor)
            == s.machine.cell(),
    decreases s.machine.cell(),
{
    let open = s.machine.cursor;
    let n = s.machine.cell();
    assert(paired(program, open, open + 2)) by {
        assert(nesting(program, open + 1) == nesting(program, open) + 1);
        assert(nesting(program, open + 2) == nesting(program, open + 1));
        assert(nesting(program, open + 3) == nesting(program, open + 2) - 1);
    }
    if n == 0 {
        lemma_zero_cell_skips_loop(program, s);
        assert(s.machine.store(0) == s.machine) by {
            assert(s.machine.tape.update(s.machine.pointer, 0u8) =~= s.machine.tape);
        }
    } else {
        let lower = (n - 1) as u8;
        let back = Session { machine: s.machine.store(lower), ..s };
        assert(run(program, s, 3) == back && passes(program, s, 3, open) == 1) by {
            reveal_with_fuel(run, 4);
            reveal_with_fuel(passes, 4);
            let first = advance(program, s);
            assert(first == Session { machine: s.machine.enter(), ..s });
            let second = advance(program, first);
            assert(second == Session {
                machine: s.machine.enter().store(lower).jump(open + 2),
                ..s
            });
            let third = advance(program, second);
            assert(s.machine.loops.push(open).drop_last() =~= s.machine.loops);
            assert(third == back);
        }
        lemma_clear_loop(program, back);
        let rest = (3 * (n - 1) + 1) as nat;
        lemma_run_splits(program, s, 3, rest);
        lemma_passes_split(program, s, 3, rest, open);
        assert(back.machine.store(0) == s.machine.store(0)) by {
            assert(s.machine.tape.update(s.machine.pointer, lower).update(s.machine.pointer, 0u8)
                =~= s.machine.tape.update(s.machine.pointer, 0u8));
        }
    }
}

} // verus!

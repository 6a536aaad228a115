//! The bracket structure of a program: how deep each position is nested,
//! when the brackets are balanced, and which `]` closes which `[`.

use vstd::prelude::*;
use crate::fault::Fault;
use crate::instruction::BrainfuckInstructions;

verus! {

/// What an instruction adds to the nesting depth: a `[` opens one level, a
/// `]` closes one, anything else leaves the depth alone.
pub open spec fn weight(instruction: BrainfuckInstructions) -> int {
    match instruction {
        BrainfuckInstructions::WhileStart => 1,
        BrainfuckInstructions::WhileEnd => -1,
        _ => 0,
    }
}

/// The nesting depth in front of position `at`: the number of `[` minus
/// the number of `]` among the first `at` instructions.
pub open spec fn nesting(program: Seq<BrainfuckInstructions>, at: int) -> int
    decreases at,
{
    if at <= 0 {
        0
    } else {
        nesting(program, at - 1) + weight(program[at - 1])
    }
}

/// Brackets are balanced and properly nested: reading from the left the
/// depth never falls below zero, and it is zero at the end.
pub open spec fn balanced(program: Seq<BrainfuckInstructions>) -> bool {
    &&& forall|at: int| 0 <= at <= program.len() ==> nesting(program, at) >= 0
    &&& nesting(program, program.len() as int) == 0
}

/// What is wrong with the brackets of `program`, if anything. Where a
/// `]` closes nothing that is the fault, whether or not a `[` is left
/// open as well.
pub open spec fn diagnose(program: Seq<BrainfuckInstructions>) -> Option<Fault> {
    if exists|at: int| 0 <= at <= program.len() && nesting(program, at) < 0 {
        Some(Fault::UnmatchedClose)
    } else if nesting(program, program.len() as int) > 0 {
        Some(Fault::UnmatchedOpen)
    } else {
        None
    }
}

/// The `[` at `open` and the `]` at `close` belong together: the depth
/// behind `close` is the depth in front of `open`, and in between it is
/// never that low.
pub open spec fn paired(program: Seq<BrainfuckInstructions>, open: int, close: int) -> bool {
    &&& 0 <= open < close < program.len()
    &&& program[open] == BrainfuckInstructions::WhileStart
    &&& program[close] == BrainfuckInstructions::WhileEnd
    &&& nesting(program, close + 1) == nesting(program, open)
    &&& forall|at: int| open < at <= close ==> nesting(program, at) > nesting(program, open)
}

/// The position of the `]` that closes the `[` at `open`.
pub open spec fn loop_end(program: Seq<BrainfuckInstructions>, open: int) -> int {
    choose|close: int| paired(program, open, close)
}

/// The position of the `[` that the `]` at `close` closes.
pub open spec fn loop_start(program: Seq<BrainfuckInstructions>, close: int) -> int {
    choose|open: int| paired(program, open, close)
}

/// The `[` at `open` is still open at position `upto`: the depth has stayed
/// above the depth in front of it.
pub open spec fn unclosed(program: Seq<BrainfuckInstructions>, open: int, upto: int) -> bool {
    &&& 0 <= open < upto <= program.len()
    &&& program[open] == BrainfuckInstructions::WhileStart
    &&& forall|at: int| open < at <= upto ==> nesting(program, at) > nesting(program, open)
}

/// A table that gives, for each `[` of `program`, the position of the `]`
/// that closes it. Entries of other instructions mean nothing.
pub open spec fn linked(program: Seq<BrainfuckInstructions>, table: Seq<usize>) -> bool {
    &&& table.len() == program.len()
    &&& forall|at: int|
        0 <= at < program.len() && program[at] == BrainfuckInstructions::WhileStart ==> paired(
            program,
            at,
            #[trigger] table[at] as int,
        )
}

/// The brackets are in order exactly when nothing is diagnosed.
pub proof fn lemma_diagnose_none(program: Seq<BrainfuckInstructions>)
    ensures
        diagnose(program) is None <==> balanced(program),
{
}

/// The depth in front of a position depends only on what stands before it.
pub proof fn lemma_nesting_prefix(
    first: Seq<BrainfuckInstructions>,
    second: Seq<BrainfuckInstructions>,
    at: int,
)
    requires
        at <= first.len(),
    ensures
        nesting(first + second, at) == nesting(first, at),
    decreases at,
{
    if at > 0 {
        lemma_nesting_prefix(first, second, at - 1);
    }
}

/// The depths of a program that grew by one instruction.
pub proof fn lemma_nesting_push(
    program: Seq<BrainfuckInstructions>,
    instruction: BrainfuckInstructions,
)
    ensures
        forall|at: int|
            at <= program.len() ==> #[trigger] nesting(program.push(instruction), at) == nesting(
                program,
                at,
            ),
        nesting(program.push(instruction), program.len() as int + 1) == nesting(
            program,
            program.len() as int,
        ) + weight(instruction),
{
    assert(program.push(instruction) =~= program + seq![instruction]);
    assert forall|at: int| at <= program.len() implies #[trigger] nesting(
        program.push(instruction),
        at,
    ) == nesting(program, at) by {
        lemma_nesting_prefix(program, seq![instruction], at);
    }
    let grown = program.push(instruction);
    assert(nesting(grown, program.len() as int + 1) == nesting(grown, program.len() as int)
        + weight(grown[program.len() as int]));
}

/// A `[` has at most one partner.
pub proof fn lemma_one_close(
    program: Seq<BrainfuckInstructions>,
    open: int,
    close: int,
    other: int,
)
    requires
        paired(program, open, close),
        paired(program, open, other),
    ensures
        close == other,
{
    // behind the nearer `]` the depth is back to where a pair with the
    // farther one must not have it yet
}

/// A `]` has at most one partner.
pub proof fn lemma_one_open(
    program: Seq<BrainfuckInstructions>,
    open: int,
    other: int,
    close: int,
)
    requires
        paired(program, open, close),
        paired(program, other, close),
    ensures
        open == other,
{
    // in front of the later `[` the depth is above the one behind the `]`,
    // yet for a pair it must be the same
}

proof fn lemma_search_close(program: Seq<BrainfuckInstructions>, open: int, from: int)
    requires
        balanced(program),
        0 <= open < from <= program.len(),
        program[open] == BrainfuckInstructions::WhileStart,
        forall|at: int| open < at <= from ==> nesting(program, at) > nesting(program, open),
    ensures
        exists|close: int| paired(program, open, close),
    decreases program.len() - from,
{
    assert(nesting(program, from) > nesting(program, open));
    if from < program.len() {
        if nesting(program, from + 1) > nesting(program, open) {
            lemma_search_close(program, open, from + 1);
        } else {
            assert(paired(program, open, from));
        }
    }
}

proof fn lemma_search_open(program: Seq<BrainfuckInstructions>, close: int, from: int)
    requires
        balanced(program),
        0 <= from <= close < program.len(),
        program[close] == BrainfuckInstructions::WhileEnd,
        forall|at: int|
            from <= at <= close ==> #[trigger] nesting(program, at) > nesting(program, close + 1),
    ensures
        exists|open: int| paired(program, open, close),
    decreases from,
{
    assert(nesting(program, from) > nesting(program, close + 1));
    if from > 0 {
        if nesting(program, from - 1) > nesting(program, close + 1) {
            lemma_search_open(program, close, from - 1);
        } else {
            assert(paired(program, from - 1, close));
        }
    }
}

/// In a balanced program every `[` has its `]`: `loop_end` names it.
pub proof fn lemma_loop_end(program: Seq<BrainfuckInstructions>, open: int)
    requires
        balanced(program),
        0 <= open < program.len(),
        program[open] == BrainfuckInstructions::WhileStart,
    ensures
        paired(program, open, loop_end(program, open)),
{
    lemma_search_close(program, open, open + 1);
}

/// In a balanced program every `]` has its `[`: `loop_start` names it.
pub proof fn lemma_loop_start(program: Seq<BrainfuckInstructions>, close: int)
    requires
        balanced(program),
        0 <= close < program.len(),
        program[close] == BrainfuckInstructions::WhileEnd,
    ensures
        paired(program, loop_start(program, close), close),
{
    lemma_search_open(program, close, close);
}

/// Every bracket of `program` has a partner: stack matching leaves no `[`
/// and no `]` over.
pub open spec fn all_paired(program: Seq<BrainfuckInstructions>) -> bool {
    &&& forall|open: int|
        0 <= open < program.len() && #[trigger] program[open] == BrainfuckInstructions::WhileStart
            ==> exists|close: int| paired(program, open, close)
    &&& forall|close: int|
        0 <= close < program.len() && #[trigger] program[close] == BrainfuckInstructions::WhileEnd
            ==> exists|open: int| paired(program, open, close)
}

proof fn lemma_paired_never_negative(program: Seq<BrainfuckInstructions>, upto: int)
    requires
        all_paired(program),
        0 <= upto <= program.len(),
    ensures
        forall|at: int| 0 <= at <= upto ==> nesting(program, at) >= 0,
    decreases upto,
{
    if upto > 0 {
        lemma_paired_never_negative(program, upto - 1);
        if nesting(program, upto) < 0 {
            // the depth falls below zero at a `]`, and in front of its `[`
            // it would be below zero already
            assert(nesting(program, upto - 1) >= 0);
            let close = upto - 1;
            let open = choose|open: int| paired(program, open, close);
        }
    }
}

proof fn lemma_last_at_level(program: Seq<BrainfuckInstructions>, upto: int, level: int) -> (open:
    int)
    requires
        0 <= upto <= program.len(),
        0 <= level < nesting(program, upto),
    ensures
        0 <= open < upto,
        program[open] == BrainfuckInstructions::WhileStart,
        nesting(program, open) == level,
        forall|at: int| open < at <= upto ==> nesting(program, at) > level,
    decreases upto,
{
    if nesting(program, upto - 1) > level {
        lemma_last_at_level(program, upto - 1, level)
    } else {
        upto - 1
    }
}

/// Balanced means matched: the depth never falls below zero and ends at
/// zero exactly when every `[` has a `]` that closes it and every `]` has
/// a `[` that it closes.
pub proof fn lemma_balanced_means_all_paired(program: Seq<BrainfuckInstructions>)
    ensures
        balanced(program) <==> all_paired(program),
{
    if balanced(program) {
        assert forall|open: int|
            0 <= open < program.len() && #[trigger] program[open]
                == BrainfuckInstructions::WhileStart implies exists|close: int|
            paired(program, open, close) by {
            lemma_loop_end(program, open);
        }
        assert forall|close: int|
            0 <= close < program.len() && #[trigger] program[close]
                == BrainfuckInstructions::WhileEnd implies exists|open: int|
            paired(program, open, close) by {
            lemma_loop_start(program, close);
        }
    }
    if all_paired(program) {
        let end = program.len() as int;
        lemma_paired_never_negative(program, end);
        if nesting(program, end) > 0 {
            // the last `[` at depth zero would never be closed
            let open = lemma_last_at_level(program, end, 0);
            let close = choose|close: int| paired(program, open, close);
        }
    }
}

/// Pairs are properly nested: a `[` that stands inside a pair has its `]`
/// inside that pair too.
pub proof fn lemma_pairs_nest(
    program: Seq<BrainfuckInstructions>,
    open: int,
    close: int,
    inner_open: int,
    inner_close: int,
)
    requires
        paired(program, open, close),
        paired(program, inner_open, inner_close),
        open < inner_open < close,
    ensures
        inner_close < close,
{
    // behind the outer `]` the depth is below the one in front of the
    // inner `[`, so the inner pair cannot reach that far
}

/// The two brackets of a pair name each other.
pub proof fn lemma_partners(program: Seq<BrainfuckInstructions>, open: int, close: int)
    requires
        paired(program, open, close),
    ensures
        loop_end(program, open) == close,
        loop_start(program, close) == open,
{
}

/// A correct table holds `loop_end` for each `[`.
pub proof fn lemma_linked_entries(program: Seq<BrainfuckInstructions>, table: Seq<usize>, at: int)
    requires
        linked(program, table),
        0 <= at < program.len(),
        program[at] == BrainfuckInstructions::WhileStart,
    ensures
        paired(program, at, table[at] as int),
        table[at] == loop_end(program, at),
{
}

/// Computes the jump table of a balanced program in one pass, with a
/// stack of the positions of the `[` that are open: the entry of a `[`
/// holds the position of the `]` that closes it, and the entry of any
/// other instruction holds its own position.
pub fn compute_jump_table(instructions: &Vec<BrainfuckInstructions>) -> (table: Vec<usize>)
    requires
        balanced(instructions@),
    ensures
        linked(instructions@, table@),
        forall|at: int|
            0 <= at < instructions@.len() && instructions@[at] != BrainfuckInstructions::WhileStart
                ==> #[trigger] table@[at] == at,
{
    let mut table: Vec<usize> = Vec::new();
    let mut stack: Vec<usize> = Vec::new();
    let mut position: usize = 0;
    while position < instructions.len()
        invariant
            position <= instructions.len(),
            balanced(instructions@),
            table@.len() == position,
            stack@.len() == nesting(instructions@, position as int),
            forall|level: int|
                0 <= level < stack@.len() ==> unclosed(
                    instructions@,
                    #[trigger] stack@[level] as int,
                    position as int,
                ) && nesting(instructions@, stack@[level] as int) == level,
            forall|at: int|
                0 <= at < position && instructions@[at] == BrainfuckInstructions::WhileStart
                    ==> paired(instructions@, at, #[trigger] table@[at] as int) || unclosed(
                    instructions@,
                    at,
                    position as int,
                ),
            forall|at: int|
                0 <= at < position && instructions@[at] != BrainfuckInstructions::WhileStart
                    ==> #[trigger] table@[at] == at,
        decreases instructions.len() - position,
    {
        match instructions[position] {
            BrainfuckInstructions::WhileStart => {
                stack.push(position);
                table.push(position);
            },
            BrainfuckInstructions::WhileEnd => {
                match stack.pop() {
                    Some(open) => {
                        table.set(open, position);
                        table.push(position);
                    },
                    None => {},
                }
            },
            _ => {
                table.push(position);
            },
        }
        position += 1;
    }
    table
}

} // verus!

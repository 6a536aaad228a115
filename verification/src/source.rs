//! From source text to program: which characters count, and what
//! instruction sequence a text denotes.

use vstd::prelude::*;
use crate::instruction::{decode, is_symbol, BrainfuckInstructions};

verus! {

/// The symbols of `source` in their order, with all commentary removed.
pub open spec fn strip(source: Seq<char>) -> Seq<char> {
    source.filter(|c: char| is_symbol(c))
}

/// The instruction sequence that `source` denotes: one instruction for
/// each symbol, in order; commentary denotes nothing.
pub open spec fn program_of(source: Seq<char>) -> Seq<BrainfuckInstructions> {
    source.filter_map(|c: char| decode(c))
}

/// The text that spells `program`: the symbol of each instruction, in
/// order.
pub open spec fn symbols_of(program: Seq<BrainfuckInstructions>) -> Seq<char> {
    program.map_values(|i: BrainfuckInstructions| i.spec_symbol())
}

/// Whether `source` holds symbols only.
pub open spec fn is_stripped(source: Seq<char>) -> bool {
    forall|i: int| 0 <= i < source.len() ==> is_symbol(#[trigger] source[i])
}

/// Whether `text` holds commentary only.
pub open spec fn is_commentary(text: Seq<char>) -> bool {
    forall|i: int| 0 <= i < text.len() ==> !is_symbol(#[trigger] text[i])
}

/// Stripping a text that grew by one character: a symbol is kept, anything
/// else is dropped.
pub proof fn lemma_strip_push(source: Seq<char>, c: char)
    ensures
        strip(source.push(c)) == if is_symbol(c) {
            strip(source).push(c)
        } else {
            strip(source)
        },
{
    source.lemma_filter_push(c, |c: char| is_symbol(c));
}

/// The program of a text that grew by one character: a symbol adds its
/// instruction, anything else adds nothing.
pub proof fn lemma_program_push(source: Seq<char>, c: char)
    ensures
        program_of(source.push(c)) == match decode(c) {
            Some(instruction) => program_of(source).push(instruction),
            None => program_of(source),
        },
{
    assert(source.push(c).drop_last() =~= source);
}

/// Stripping goes through concatenation.
pub proof fn lemma_strip_concat(first: Seq<char>, second: Seq<char>)
    ensures
        strip(first + second) == strip(first) + strip(second),
{
    Seq::filter_distributes_over_add(first, second, |c: char| is_symbol(c));
}

/// The program of two texts put together is the two programs put together.
pub proof fn lemma_program_concat(first: Seq<char>, second: Seq<char>)
    ensures
        program_of(first + second) == program_of(first) + program_of(second),
    decreases second.len(),
{
    if second.len() > 0 {
        let front = second.drop_last();
        let c = second.last();
        lemma_program_concat(first, front);
        assert(second =~= front.push(c));
        lemma_program_push(first + front, c);
    }
}

/// Commentary strips to nothing and denotes the empty program.
pub proof fn lemma_commentary_denotes_nothing(text: Seq<char>)
    requires
        is_commentary(text),
    ensures
        strip(text) == Seq::<char>::empty(),
        program_of(text) == Seq::<BrainfuckInstructions>::empty(),
    decreases text.len(),
{
    if text.len() > 0 {
        let front = text.drop_last();
        let c = text.last();
        lemma_commentary_denotes_nothing(front);
        assert(text =~= front.push(c));
        lemma_strip_push(front, c);
    }
}

/// Commentary is ignored wherever it stands: a text with commentary put in
/// at any place, or taken out of it, strips to the same symbols and denotes
/// the same program.
pub proof fn lemma_commentary_is_ignored(before: Seq<char>, commentary: Seq<char>, after: Seq<char>)
    requires
        is_commentary(commentary),
    ensures
        strip(before + commentary + after) == strip(before + after),
        program_of(before + commentary + after) == program_of(before + after),
{
    lemma_commentary_denotes_nothing(commentary);
    lemma_program_concat(before + commentary, after);
    lemma_program_concat(before, commentary);
    lemma_program_concat(before, after);
}

/// What stripping leaves is symbols only, and stripping it again changes
/// nothing.
pub proof fn lemma_strip_is_stripped(source: Seq<char>)
    ensures
        is_stripped(strip(source)),
        strip(strip(source)) == strip(source),
        program_of(strip(source)) == program_of(source),
    decreases source.len(),
{
    if source.len() > 0 {
        let front = source.drop_last();
        let c = source.last();
        lemma_strip_is_stripped(front);
        assert(source =~= front.push(c));
        lemma_strip_push(front, c);
        if is_symbol(c) {
            lemma_strip_push(strip(front), c);
            lemma_program_push(strip(front), c);
        }
    }
}

/// A text of symbols only is its own stripped form.
pub proof fn lemma_stripped_is_fixed(symbols: Seq<char>)
    requires
        is_stripped(symbols),
    ensures
        strip(symbols) == symbols,
    decreases symbols.len(),
{
    if symbols.len() > 0 {
        let front = symbols.drop_last();
        let c = symbols.last();
        lemma_stripped_is_fixed(front);
        assert(symbols =~= front.push(c));
        lemma_strip_push(front, c);
    }
}

/// Spelling the program of a text gives back the symbols of the text.
pub proof fn lemma_spelling_of_program(source: Seq<char>)
    ensures
        symbols_of(program_of(source)) == strip(source),
    decreases source.len(),
{
    if source.len() > 0 {
        let front = source.drop_last();
        let c = source.last();
        lemma_spelling_of_program(front);
        assert(source =~= front.push(c));
        lemma_strip_push(front, c);
    }
}

/// Round trip from symbols: a text of symbols only, turned into its
/// program and spelled again, is the same text.
pub proof fn lemma_symbols_round_trip(symbols: Seq<char>)
    requires
        is_stripped(symbols),
    ensures
        symbols_of(program_of(symbols)) == symbols,
{
    lemma_spelling_of_program(symbols);
    lemma_stripped_is_fixed(symbols);
}

/// Round trip from instructions: the spelling of a program holds symbols
/// only, has one symbol for each instruction, and denotes that program.
pub proof fn lemma_program_round_trip(program: Seq<BrainfuckInstructions>)
    ensures
        is_stripped(symbols_of(program)),
        symbols_of(program).len() == program.len(),
        program_of(symbols_of(program)) == program,
    decreases program.len(),
{
    if program.len() > 0 {
        let front = program.drop_last();
        let instruction = program.last();
        lemma_program_round_trip(front);
        assert(symbols_of(program) =~= symbols_of(front).push(instruction.spec_symbol()));
        lemma_program_push(symbols_of(front), instruction.spec_symbol());
    }
}

} // verus!

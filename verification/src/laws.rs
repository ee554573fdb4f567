//! Laws of the parser, the tape and the machine, each proved from the
//! definitions in [`crate::syntax`], [`crate::tape`] and [`crate::machine`].

use vstd::prelude::*;

use crate::brackets::{
    lemma_balanced_symbols, lemma_compile_well_formed, lemma_no_stray_close, lemma_op_at_open,
    lemma_outermost_unclosed_exists, lemma_stray_close_exists, lemma_symbols_are_symbols,
    lemma_symbols_idempotent, lemma_symbols_of_symbols,
};
use crate::instruction::Op;
use crate::machine::{lemma_rest_is_run, Machine};
use crate::syntax::{
    balanced, closes_matched, compile, depth, is_symbol, matched, outermost_unclosed,
    stray_close, symbol_filter, symbols, well_formed,
};
use crate::tape::TapeModel;

verus! {

/// Every text can be parsed in exactly one way: its brackets are balanced, or
/// it has a first `]` with nothing open, or it has no such `]` and an
/// outermost `[` that nothing closes.
pub proof fn law_one_outcome(s: Seq<char>)
    ensures
        balanced(s) || (exists|i: int| stray_close(s, i)) || (exists|i: int|
            outermost_unclosed(s, i)),
        balanced(s) ==> forall|i: int| !stray_close(s, i) && !outermost_unclosed(s, i),
        forall|i: int, j: int| !(stray_close(s, i) && outermost_unclosed(s, j)),
{
    if !closes_matched(s, s.len() as int) {
        lemma_stray_close_exists(s, s.len() as int);
    } else {
        lemma_no_stray_close(s);
        if depth(s, s.len() as int) > 0 {
            lemma_outermost_unclosed_exists(s);
        }
    }
}

/// The brackets that parsing reports have no partner: nothing opens a stray
/// `]`, and nothing closes an unclosed `[`.
pub proof fn law_reported_brackets_are_unmatched(s: Seq<char>, i: int)
    ensures
        stray_close(s, i) ==> forall|open: int| !matched(s, open, i),
        outermost_unclosed(s, i) ==> forall|close: int| !matched(s, i, close),
{
    if stray_close(s, i) {
        assert forall|open: int| !matched(s, open, i) by {
            if matched(s, open, i) {
                assert(depth(s, i) > depth(s, open));
                assert(depth(s, open) >= 0);
            }
        }
    }
    if outermost_unclosed(s, i) {
        assert forall|close: int| !matched(s, i, close) by {
            if matched(s, i, close) {
                assert(depth(s, close + 1) > depth(s, i));
            }
        }
    }
}

/// Balanced text is a program whose loops are resolved: it has one
/// instruction for each symbol, and its loop instructions point at each other.
pub proof fn law_balanced_text_is_a_program(s: Seq<char>)
    requires
        balanced(s),
        s.len() <= usize::MAX,
    ensures
        compile(symbols(s)).len() == symbols(s).len(),
        well_formed(compile(symbols(s))),
{
    lemma_balanced_symbols(s);
    lemma_symbols_are_symbols(s);
    s.lemma_filter_len(symbol_filter());
    lemma_compile_well_formed(symbols(s));
}

/// Comments do not matter: a text is a program exactly when the text without
/// its comments is one, and the two are the same program.
pub proof fn law_comments_are_ignored(s: Seq<char>)
    ensures
        balanced(s) <==> balanced(symbols(s)),
        compile(symbols(symbols(s))) == compile(symbols(s)),
{
    lemma_balanced_symbols(s);
    lemma_symbols_idempotent(s);
}

/// Cells wrap: one more than 255 is 0 and one less than 0 is 255, and taking
/// one after adding one gives the cell back.
pub proof fn law_cells_wrap(tape: TapeModel)
    requires
        tape.wf(),
    ensures
        tape.current() == 255 ==> tape.inc().current() == 0,
        tape.current() == 0 ==> tape.dec().current() == 255,
        tape.inc().dec() == tape,
        tape.dec().inc() == tape,
{
    assert(tape.inc().dec().cells =~= tape.cells);
    assert(tape.dec().inc().cells =~= tape.cells);
}

/// A circular tape is a ring: left of the first cell is the last, right of
/// the last is the first, and no move is refused.
pub proof fn law_circular_tape_is_a_ring(tape: TapeModel)
    requires
        tape.wf(),
        tape.circular,
    ensures
        tape.left() is Some,
        tape.right() is Some,
        tape.cursor == 0 ==> tape.left().unwrap().cursor == tape.cells.len() - 1,
        tape.cursor == tape.cells.len() - 1 ==> tape.right().unwrap().cursor == 0,
{
}

/// A bounded tape refuses exactly the move left from its first cell and the
/// move right from its last.
pub proof fn law_bounded_tape_has_edges(tape: TapeModel)
    requires
        tape.wf(),
        !tape.circular,
    ensures
        tape.left() is None <==> tape.cursor == 0,
        tape.right() is None <==> tape.cursor == tape.cells.len() - 1,
{
}

/// A step keeps the cursor on a cell, and keeps the number of cells and the
/// kind of tape.
pub proof fn law_step_keeps_tape_shape(program: Seq<Op>, m: Machine)
    requires
        m.tape.wf(),
        !m.at_rest(program),
    ensures
        ({
            let after = m.step(program).unwrap();
            &&& after.tape.wf()
            &&& after.tape.cells.len() == m.tape.cells.len()
            &&& after.tape.circular == m.tape.circular
        }),
{
}

/// Reading at the end of the input changes nothing and is no error: the
/// program `,` run with no input left ends with the tape as it was.
pub proof fn law_read_at_end_of_input(tape: TapeModel, output: Seq<u8>)
    ensures
        ({
            let program = compile(seq![',']);
            let start = Machine::start(tape, Seq::empty(), output);
            &&& start.terminates(program)
            &&& start.run(program).halted(program)
            &&& start.run(program).shows(tape, Seq::empty(), output)
        }),
{
    let program = compile(seq![',']);
    let start = Machine::start(tape, Seq::empty(), output);
    assert(program[0] == Op::Read);
    reveal_with_fuel(Machine::advance, 2);
    assert(start.advance(program, 1).halted(program));
    lemma_rest_is_run(program, start, 1);
}

/// In `[` + `body` + `]`, the brackets around a balanced `body` match, and
/// everything between them is nested more deeply than they are.
proof fn lemma_wrapped_matches(body: Seq<char>)
    requires
        balanced(body),
    ensures
        matched(seq!['['] + body + seq![']'], 0, body.len() as int + 1),
{
    let s = seq!['['] + body + seq![']'];
    assert forall|k: int| 0 <= k <= body.len() implies #[trigger] depth(s, k + 1) == depth(
        body,
        k,
    ) + 1 by {
        lemma_depth_shifted(body, k);
    }
    assert(depth(s, 0) == 0);
    let n = body.len() as int;
    assert(depth(s, n + 2) == depth(s, n + 1) - 1);
    assert forall|k: int| 0 < k <= n + 1 implies #[trigger] depth(s, k) > depth(s, 0) by {
        assert(depth(s, (k - 1) + 1) == depth(body, k - 1) + 1);
    }
}

/// Inside `[` + `body` + `]`, everything is one deeper than in `body`.
proof fn lemma_depth_shifted(body: Seq<char>, k: int)
    requires
        0 <= k <= body.len(),
    ensures
        depth(seq!['['] + body + seq![']'], k + 1) == depth(body, k) + 1,
    decreases k,
{
    let s = seq!['['] + body + seq![']'];
    if k == 0 {
        assert(depth(s, 0) == 0);
    } else {
        lemma_depth_shifted(body, k - 1);
        assert(s[k] == body[k - 1]);
    }
}

/// A loop met on a zero cell is skipped whole: the program `[` + `body` + `]`
/// run from a zero cell ends at once, with the tape, the input and the output
/// as they were, whatever balanced `body` holds.
pub proof fn law_loop_on_zero_is_skipped(
    body: Seq<char>,
    tape: TapeModel,
    input: Seq<u8>,
    output: Seq<u8>,
)
    requires
        balanced(body),
        body.len() + 2 <= usize::MAX,
        tape.current() == 0,
    ensures
        ({
            let program = compile(symbols(seq!['['] + body + seq![']']));
            let start = Machine::start(tape, input, output);
            &&& start.terminates(program)
            &&& start.run(program).halted(program)
            &&& start.run(program).shows(tape, input, output)
        }),
{
    let text = seq!['['] + body + seq![']'];
    let inner = symbols(body);
    let s = seq!['['] + inner + seq![']'];
    assert(symbols(text) == s) by {
        Seq::filter_distributes_over_add(seq!['['] + body, seq![']'], symbol_filter());
        Seq::filter_distributes_over_add(seq!['['], body, symbol_filter());
        lemma_symbols_of_symbols(seq!['[']);
        lemma_symbols_of_symbols(seq![']']);
    }
    lemma_balanced_symbols(body);
    lemma_wrapped_matches(inner);
    body.lemma_filter_len(symbol_filter());
    let close = (inner.len() + 1) as usize;
    lemma_op_at_open(s, 0, close);
    let program = compile(s);
    let start = Machine::start(tape, input, output);
    assert(program[0] == Op::LoopStart(close));
    reveal_with_fuel(Machine::advance, 2);
    assert(start.advance(program, 1).halted(program));
    lemma_rest_is_run(program, start, 1);
}

/// The loop `[x]` around one instruction `x` that is no bracket, met on a
/// zero cell, writes nothing and leaves the tape as it was.
pub proof fn law_loop_skip(x: char, tape: TapeModel, input: Seq<u8>, output: Seq<u8>)
    requires
        is_symbol(x),
        x != '[',
        x != ']',
        tape.current() == 0,
    ensures
        ({
            let program = compile(symbols(seq!['[', x, ']']));
            let start = Machine::start(tape, input, output);
            &&& start.terminates(program)
            &&& start.run(program).halted(program)
            &&& start.run(program).shows(tape, input, output)
        }),
{
    let body = seq![x];
    assert(depth(body, 0) == 0);
    assert(depth(body, 1) == 0);
    assert(seq!['['] + body + seq![']'] =~= seq!['[', x, ']']);
    law_loop_on_zero_is_skipped(body, tape, input, output);
}

} // verus!

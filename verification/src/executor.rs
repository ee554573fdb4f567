//! Running a program.

use vstd::prelude::*;

use crate::instruction::Op;
use crate::io::{ByteSink, ByteSource};
use crate::machine::{lemma_advance_one_more, lemma_rest_is_run, Machine};
use crate::program::Program;
use crate::tape::Tape;

verus! {

/// Why a run was broken off. `R` is the error of the byte source and `W`
/// that of the byte sink.
#[derive(Debug, PartialEq, Eq)]
pub enum ExecError<R, W> {
    /// An instruction would have moved the cursor off a bounded tape.
    OutOfBounds,
    /// The byte source failed; its error is inside.
    Read(R),
    /// The byte sink failed; its error is inside.
    Write(W),
}

/// Puts what a read gave into the current cell: a byte is stored, the end of
/// the stream changes nothing, and a failure is handed on.
pub fn store_read<T: Tape, E>(tape: &mut T, outcome: Result<Option<u8>, E>) -> (r: Result<(), E>)
    requires
        old(tape)@.wf(),
    ensures
        final(tape)@.wf(),
        match outcome {
            Ok(Some(byte)) => r is Ok && final(tape)@ == old(tape)@.write(byte),
            Ok(None) => r is Ok && final(tape)@ == old(tape)@,
            Err(e) => r == Err::<(), E>(e) && final(tape)@ == old(tape)@,
        },
{
    match outcome {
        Ok(Some(byte)) => {
            tape.write(byte);
            Ok(())
        },
        Ok(None) => Ok(()),
        Err(e) => Err(e),
    }
}

/// Executes the instruction at `ip` and gives the position of the next one.
///
/// On success the tape, the source and the sink are what
/// [`Machine::step`] says. No error changes anything.
pub fn step<R: ByteSource, W: ByteSink, T: Tape>(
    program: &Program,
    ip: usize,
    input: &mut R,
    output: &mut W,
    tape: &mut T,
) -> (r: Result<usize, ExecError<R::Error, W::Error>>)
    requires
        ip < program@.len(),
        old(tape)@.wf(),
    ensures
        final(tape)@.wf(),
        ({
            let before = Machine {
                ip: ip as int,
                tape: old(tape)@,
                input: old(input).pending(),
                output: old(output).written(),
            };
            let after = before.step(program@);
            match r {
                Ok(next) => after == Some(
                    Machine {
                        ip: next as int,
                        tape: final(tape)@,
                        input: final(input).pending(),
                        output: final(output).written(),
                    },
                ),
                Err(e) => {
                    &&& before.shows(final(tape)@, final(input).pending(), final(output).written())
                    &&& match e {
                        ExecError::OutOfBounds => after is None,
                        ExecError::Read(cause) => {
                            &&& program@[ip as int] == Op::Read
                            &&& final(input).failure() == Some(cause)
                        },
                        ExecError::Write(cause) => {
                            &&& program@[ip as int] == Op::Write
                            &&& final(output).failure() == Some(cause)
                        },
                    }
                },
            }
        }),
{
    let ops = program.ops();
    assert(ops.len() == ops@.len());
    match ops[ip] {
        Op::Inc => {
            tape.inc();
            Ok(ip + 1)
        },
        Op::Dec => {
            tape.dec();
            Ok(ip + 1)
        },
        Op::Left => match tape.go_left() {
            Ok(()) => Ok(ip + 1),
            Err(_) => Err(ExecError::OutOfBounds),
        },
        Op::Right => match tape.go_right() {
            Ok(()) => Ok(ip + 1),
            Err(_) => Err(ExecError::OutOfBounds),
        },
        Op::Read => {
            let outcome = input.read_byte();
            match store_read(tape, outcome) {
                Ok(()) => Ok(ip + 1),
                Err(e) => Err(ExecError::Read(e)),
            }
        },
        Op::Write => match output.write_byte(tape.read()) {
            Ok(()) => Ok(ip + 1),
            Err(e) => Err(ExecError::Write(e)),
        },
        Op::LoopStart(end) => if tape.read() == 0 {
            Ok(end + 1)
        } else {
            Ok(ip + 1)
        },
        Op::LoopEnd(start) => if tape.read() != 0 {
            Ok(start + 1)
        } else {
            Ok(ip + 1)
        },
    }
}

/// Runs `program` from its first instruction until the instruction pointer
/// leaves it, or until a move off a bounded tape or a failure of the source
/// or the sink breaks the run off.
///
/// Without a failure of the source or the sink, the tape, the input and the
/// output end as [`Machine::run`] says, and the result tells whether the run
/// came to its end or was stopped at an edge of the tape. A failure stops
/// the run before the instruction that failed, and its cause is handed on.
///
/// A program may loop for ever, and then this function does not return.
/// Verus wants a measure for every loop, and only a run that ends has one:
/// the contract is for the runs of which [`Machine::terminates`] holds.
/// Where that cannot be shown, drive [`step`] instead.
pub fn execute<R: ByteSource, W: ByteSink, T: Tape>(
    program: &Program,
    input: &mut R,
    output: &mut W,
    tape: &mut T,
) -> (r: Result<(), ExecError<R::Error, W::Error>>)
    requires
        old(tape)@.wf(),
        Machine::start(old(tape)@, old(input).pending(), old(output).written()).terminates(
            program@,
        ),
    ensures
        final(tape)@.wf(),
        ({
            let start = Machine::start(old(tape)@, old(input).pending(), old(output).written());
            let end = start.run(program@);
            match r {
                Ok(()) => {
                    &&& end.halted(program@)
                    &&& end.shows(final(tape)@, final(input).pending(), final(output).written())
                },
                Err(ExecError::OutOfBounds) => {
                    &&& !end.halted(program@)
                    &&& end.shows(final(tape)@, final(input).pending(), final(output).written())
                },
                Err(ExecError::Read(cause)) => {
                    &&& final(input).failure() == Some(cause)
                    &&& start.comes_to(
                        program@,
                        Op::Read,
                        final(tape)@,
                        final(input).pending(),
                        final(output).written(),
                    )
                },
                Err(ExecError::Write(cause)) => {
                    &&& final(output).failure() == Some(cause)
                    &&& start.comes_to(
                        program@,
                        Op::Write,
                        final(tape)@,
                        final(input).pending(),
                        final(output).written(),
                    )
                },
            }
        }),
{
    let ghost start = Machine::start(tape@, input.pending(), output.written());
    let ghost mut done: nat = 0;
    let ghost mut left: nat = choose|n: nat| (#[trigger] start.advance(program@, n)).at_rest(
        program@,
    );
    let mut ip: usize = 0;
    while ip < program.len()
        invariant
            tape@.wf(),
            start == Machine::start(old(tape)@, old(input).pending(), old(output).written()),
            start.advance(program@, done) == (Machine {
                ip: ip as int,
                tape: tape@,
                input: input.pending(),
                output: output.written(),
            }),
            start.advance(program@, done).advance(program@, left).at_rest(program@),
        decreases left,
    {
        match step(program, ip, input, output, tape) {
            Ok(next) => {
                proof {
                    lemma_advance_one_more(program@, start, done);
                    assert(left > 0);
                    done = done + 1;
                    left = (left - 1) as nat;
                }
                ip = next;
            },
            Err(e) => {
                proof {
                    if e is OutOfBounds {
                        lemma_rest_is_run(program@, start, done);
                    }
                }
                return Err(e);
            },
        }
    }
    proof {
        lemma_rest_is_run(program@, start, done);
    }
    Ok(())
}

} // verus!

//! The machine, as mathematics: what one instruction does to it, and what a
//! run of instructions does.

use vstd::prelude::*;

use crate::instruction::Op;
use crate::tape::TapeModel;

verus! {

/// The whole state of a run: the position of the next instruction, the tape,
/// the bytes still to be read and the bytes written so far.
pub struct Machine {
    pub ip: int,
    pub tape: TapeModel,
    pub input: Seq<u8>,
    pub output: Seq<u8>,
}

impl Machine {
    /// The machine before the first instruction.
    pub open spec fn start(tape: TapeModel, input: Seq<u8>, output: Seq<u8>) -> Machine {
        Machine { ip: 0, tape, input, output }
    }

    /// The instruction pointer has left the program: the run is over.
    pub open spec fn halted(self, program: Seq<Op>) -> bool {
        !(0 <= self.ip < program.len())
    }

    /// The machine after the instruction at `ip`, or `None` where that
    /// instruction would move the cursor off a bounded tape.
    ///
    /// A read at the end of the input changes nothing. A `[` on a zero cell
    /// goes on after its `]`, a `]` on a non-zero cell goes on after its `[`,
    /// and everything else goes on with the next instruction.
    pub open spec fn step(self, program: Seq<Op>) -> Option<Machine>
        recommends
            !self.halted(program),
    {
        match program[self.ip] {
            Op::Inc => Some(Machine { ip: self.ip + 1, tape: self.tape.inc(), ..self }),
            Op::Dec => Some(Machine { ip: self.ip + 1, tape: self.tape.dec(), ..self }),
            Op::Left => match self.tape.left() {
                Some(tape) => Some(Machine { ip: self.ip + 1, tape, ..self }),
                None => None,
            },
            Op::Right => match self.tape.right() {
                Some(tape) => Some(Machine { ip: self.ip + 1, tape, ..self }),
                None => None,
            },
            Op::Read => if self.input.len() > 0 {
                Some(
                    Machine {
                        ip: self.ip + 1,
                        tape: self.tape.write(self.input[0]),
                        input: self.input.drop_first(),
                        ..self
                    },
                )
            } else {
                Some(Machine { ip: self.ip + 1, ..self })
            },
            Op::Write => Some(
                Machine { ip: self.ip + 1, output: self.output.push(self.tape.current()), ..self },
            ),
            Op::LoopStart(end) => if self.tape.current() == 0 {
                Some(Machine { ip: end + 1, ..self })
            } else {
                Some(Machine { ip: self.ip + 1, ..self })
            },
            Op::LoopEnd(start) => if self.tape.current() != 0 {
                Some(Machine { ip: start + 1, ..self })
            } else {
                Some(Machine { ip: self.ip + 1, ..self })
            },
        }
    }

    /// Nothing more happens: the run is over, or the next instruction would
    /// move the cursor off a bounded tape.
    pub open spec fn at_rest(self, program: Seq<Op>) -> bool {
        self.halted(program) || self.step(program) is None
    }

    /// The machine `n` steps on; a machine at rest stays as it is.
    pub open spec fn advance(self, program: Seq<Op>, n: nat) -> Machine
        decreases n,
    {
        if n == 0 || self.at_rest(program) {
            self
        } else {
            self.step(program).unwrap().advance(program, (n - 1) as nat)
        }
    }

    /// The run from this machine comes to rest after some number of steps.
    pub open spec fn terminates(self, program: Seq<Op>) -> bool {
        exists|n: nat| (#[trigger] self.advance(program, n)).at_rest(program)
    }

    /// The machine in which the run from this one comes to rest, where it
    /// [`terminates`](Machine::terminates).
    pub open spec fn run(self, program: Seq<Op>) -> Machine {
        self.advance(program, choose|n: nat| (#[trigger] self.advance(program, n)).at_rest(program))
    }

    /// This machine has the given tape, input and output.
    pub open spec fn shows(self, tape: TapeModel, input: Seq<u8>, output: Seq<u8>) -> bool {
        self.tape == tape && self.input == input && self.output == output
    }

    /// Some number of steps from this machine, the run stands before an
    /// instruction `op` with the given tape, input and output.
    pub open spec fn comes_to(
        self,
        program: Seq<Op>,
        op: Op,
        tape: TapeModel,
        input: Seq<u8>,
        output: Seq<u8>,
    ) -> bool {
        exists|n: nat|
            {
                let at = #[trigger] self.advance(program, n);
                &&& !at.halted(program)
                &&& program[at.ip] == op
                &&& at.shows(tape, input, output)
            }
    }
}

/// One more step is one step after the others.
pub proof fn lemma_advance_one_more(program: Seq<Op>, m: Machine, n: nat)
    ensures
        m.advance(program, n + 1) == if m.advance(program, n).at_rest(program) {
            m.advance(program, n)
        } else {
            m.advance(program, n).step(program).unwrap()
        },
    decreases n,
{
    if n == 0 {
        reveal_with_fuel(Machine::advance, 2);
    } else if m.at_rest(program) {
    } else {
        lemma_advance_one_more(program, m.step(program).unwrap(), (n - 1) as nat);
    }
}

/// A run that is at rest after `a` steps is in the same state after any
/// larger number of steps.
pub proof fn lemma_rest_is_stable(program: Seq<Op>, m: Machine, a: nat, b: nat)
    requires
        a <= b,
        m.advance(program, a).at_rest(program),
    ensures
        m.advance(program, b) == m.advance(program, a),
    decreases b - a,
{
    if a < b {
        lemma_rest_is_stable(program, m, a, (b - 1) as nat);
        lemma_advance_one_more(program, m, (b - 1) as nat);
    }
}

/// A run comes to rest in one state only: if it is at rest after `n` steps,
/// that state is [`Machine::run`].
pub proof fn lemma_rest_is_run(program: Seq<Op>, m: Machine, n: nat)
    requires
        m.advance(program, n).at_rest(program),
    ensures
        m.terminates(program),
        m.run(program) == m.advance(program, n),
{
    let k = choose|k: nat| (#[trigger] m.advance(program, k)).at_rest(program);
    if k <= n {
        lemma_rest_is_stable(program, m, k, n);
    } else {
        lemma_rest_is_stable(program, m, n, k);
    }
}

} // verus!

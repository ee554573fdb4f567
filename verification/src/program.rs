//! Programs: instruction sequences whose loops are resolved.

use vstd::prelude::*;

use crate::instruction::Op;
use crate::syntax::well_formed;

verus! {

/// A sequence of instructions in which every loop instruction holds the
/// position of its partner. Only [`crate::parser::parse`] makes one, and
/// nothing changes it afterwards.
#[derive(Debug)]
pub struct Program {
    ops: Vec<Op>,
}

impl View for Program {
    type V = Seq<Op>;

    closed spec fn view(&self) -> Seq<Op> {
        self.ops@
    }
}

impl Program {
    #[verifier::type_invariant]
    spec fn resolved(&self) -> bool {
        well_formed(self.ops@)
    }

    /// Wraps instructions whose loops point at each other.
    pub(crate) fn from_ops(ops: Vec<Op>) -> (program: Program)
        requires
            well_formed(ops@),
        ensures
            program@ == ops@,
    {
        Program { ops }
    }

    /// The number of instructions.
    pub fn len(&self) -> (n: usize)
        ensures
            n == self@.len(),
    {
        self.ops.len()
    }

    /// The instructions, in order. Their loops point at each other.
    pub fn ops(&self) -> (ops: &Vec<Op>)
        ensures
            ops@ == self@,
            well_formed(self@),
    {
        proof {
            use_type_invariant(self);
        }
        &self.ops
    }
}

} // verus!

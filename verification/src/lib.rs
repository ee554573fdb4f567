//! A small virtual machine for an eight-instruction language over a tape of
//! bytes: source text is parsed into a program whose loop brackets know each
//! other's position, and the program is run against a tape, a byte source and
//! a byte sink.
//!
//! Every function here is verified with Verus. What a function promises is
//! stated over mathematical models: [`syntax`] says which brackets belong
//! together and which program a text stands for, [`tape::TapeModel`] what a
//! tape is, and [`machine`] what one step of the machine does and what a run
//! of steps comes to. [`laws`] holds what follows from these definitions.

pub mod brackets;
pub mod executor;
pub mod instruction;
pub mod io;
pub mod laws;
pub mod machine;
pub mod parser;
pub mod program;
pub mod syntax;
pub mod tape;

pub use executor::{execute, step, store_read, ExecError};
pub use instruction::{Op, ParseError};
pub use io::{ByteSink, ByteSource, MemorySource};
pub use machine::Machine;
pub use parser::parse;
pub use program::Program;
pub use tape::{CircularTape, OutOfBounds, SimpleTape, Tape, TapeModel};

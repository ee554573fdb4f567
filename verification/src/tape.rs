//! The tape: a row of byte cells with a cursor, in two variants that differ
//! in what happens at the edges.

use vstd::prelude::*;

verus! {

/// The byte after `b`, with 255 followed by 0.
pub open spec fn successor(b: u8) -> u8 {
    if b == 255 {
        0
    } else {
        (b + 1) as u8
    }
}

/// The byte before `b`, with 0 preceded by 255.
pub open spec fn predecessor(b: u8) -> u8 {
    if b == 0 {
        255
    } else {
        (b - 1) as u8
    }
}

/// What a tape is, mathematically: its cells, the index of the current cell,
/// and whether the cursor goes round at the edges.
pub struct TapeModel {
    pub cells: Seq<u8>,
    pub cursor: int,
    pub circular: bool,
}

impl TapeModel {
    /// The cursor is on a cell.
    pub open spec fn wf(self) -> bool {
        0 <= self.cursor < self.cells.len()
    }

    /// A tape of `size` cells, all zero, with the cursor on the first.
    pub open spec fn blank(size: nat, circular: bool) -> TapeModel {
        TapeModel { cells: Seq::new(size, |i: int| 0u8), cursor: 0, circular }
    }

    /// The value of the current cell.
    pub open spec fn current(self) -> u8 {
        self.cells[self.cursor]
    }

    /// The tape with `byte` in the current cell.
    pub open spec fn write(self, byte: u8) -> TapeModel {
        TapeModel { cells: self.cells.update(self.cursor, byte), ..self }
    }

    /// The tape with the current cell one higher, 255 becoming 0.
    pub open spec fn inc(self) -> TapeModel {
        self.write(successor(self.current()))
    }

    /// The tape with the current cell one lower, 0 becoming 255.
    pub open spec fn dec(self) -> TapeModel {
        self.write(predecessor(self.current()))
    }

    /// The tape with the cursor one cell to the left. From the first cell a
    /// circular tape goes to the last; a bounded tape has nowhere to go.
    pub open spec fn left(self) -> Option<TapeModel> {
        if self.cursor > 0 {
            Some(TapeModel { cursor: self.cursor - 1, ..self })
        } else if self.circular {
            Some(TapeModel { cursor: self.cells.len() - 1, ..self })
        } else {
            None
        }
    }

    /// The tape with the cursor one cell to the right. From the last cell a
    /// circular tape goes to the first; a bounded tape has nowhere to go.
    pub open spec fn right(self) -> Option<TapeModel> {
        if self.cursor + 1 < self.cells.len() {
            Some(TapeModel { cursor: self.cursor + 1, ..self })
        } else if self.circular {
            Some(TapeModel { cursor: 0, ..self })
        } else {
            None
        }
    }
}

/// A move that would take the cursor of a bounded tape off the tape.
#[derive(Clone, Copy, Debug, PartialEq, Eq, Structural)]
pub struct OutOfBounds;

/// What the machine asks of a tape. Every operation wants the cursor on a
/// cell, and leaves it on one.
pub trait Tape: View<V = TapeModel> {
    /// Moves the cursor one cell to the left, or refuses and changes nothing.
    fn go_left(&mut self) -> (r: Result<(), OutOfBounds>)
        requires
            old(self)@.wf(),
        ensures
            final(self)@.wf(),
            match old(self)@.left() {
                Some(moved) => r is Ok && final(self)@ == moved,
                None => r is Err && final(self)@ == old(self)@,
            },
    ;

    /// Moves the cursor one cell to the right, or refuses and changes nothing.
    fn go_right(&mut self) -> (r: Result<(), OutOfBounds>)
        requires
            old(self)@.wf(),
        ensures
            final(self)@.wf(),
            match old(self)@.right() {
                Some(moved) => r is Ok && final(self)@ == moved,
                None => r is Err && final(self)@ == old(self)@,
            },
    ;

    /// Adds one to the current cell, 255 becoming 0.
    fn inc(&mut self)
        requires
            old(self)@.wf(),
        ensures
            final(self)@ == old(self)@.inc(),
            final(self)@.wf(),
    ;

    /// Takes one from the current cell, 0 becoming 255.
    fn dec(&mut self)
        requires
            old(self)@.wf(),
        ensures
            final(self)@ == old(self)@.dec(),
            final(self)@.wf(),
    ;

    /// The value of the current cell.
    fn read(&self) -> (byte: u8)
        requires
            self@.wf(),
        ensures
            byte == self@.current(),
    ;

    /// Puts `byte` in the current cell.
    fn write(&mut self, byte: u8)
        requires
            old(self)@.wf(),
        ensures
            final(self)@ == old(self)@.write(byte),
            final(self)@.wf(),
    ;
}

/// A tape with two ends: a move past either is refused.
#[derive(Debug)]
pub struct SimpleTape {
    pos: usize,
    data: Vec<u8>,
}

impl View for SimpleTape {
    type V = TapeModel;

    closed spec fn view(&self) -> TapeModel {
        TapeModel { cells: self.data@, cursor: self.pos as int, circular: false }
    }
}

impl SimpleTape {
    /// A bounded tape of `size` cells, all zero, with the cursor on the first.
    /// A tape of no cells has no cell under its cursor and takes no operation.
    pub fn new(size: usize) -> (tape: SimpleTape)
        ensures
            tape@ == TapeModel::blank(size as nat, false),
    {
        let tape = SimpleTape { pos: 0, data: vec![0u8; size] };
        assert(tape.data@ =~= Seq::new(size as nat, |i: int| 0u8));
        tape
    }

    /// The index of the current cell.
    pub fn position(&self) -> (pos: usize)
        ensures
            pos == self@.cursor,
    {
        self.pos
    }

    /// The cells, first to last.
    pub fn cells(&self) -> (cells: &Vec<u8>)
        ensures
            cells@ == self@.cells,
    {
        &self.data
    }
}

impl Tape for SimpleTape {
    fn go_left(&mut self) -> (r: Result<(), OutOfBounds>) {
        if self.pos == 0 {
            Err(OutOfBounds)
        } else {
            self.pos -= 1;
            Ok(())
        }
    }

    fn go_right(&mut self) -> (r: Result<(), OutOfBounds>) {
        if self.pos < self.data.len() - 1 {
            self.pos += 1;
            Ok(())
        } else {
            Err(OutOfBounds)
        }
    }

    fn inc(&mut self) {
        let byte = self.data[self.pos].wrapping_add(1);
        self.data.set(self.pos, byte);
    }

    fn dec(&mut self) {
        let byte = self.data[self.pos].wrapping_sub(1);
        self.data.set(self.pos, byte);
    }

    fn read(&self) -> (byte: u8) {
        self.data[self.pos]
    }

    fn write(&mut self, byte: u8) {
        self.data.set(self.pos, byte);
    }
}

/// A tape that is a ring: a move past one end arrives at the other.
#[derive(Debug)]
pub struct CircularTape {
    pos: usize,
    data: Vec<u8>,
}

impl View for CircularTape {
    type V = TapeModel;

    closed spec fn view(&self) -> TapeModel {
        TapeModel { cells: self.data@, cursor: self.pos as int, circular: true }
    }
}

impl CircularTape {
    /// A circular tape of `size` cells, all zero, with the cursor on the first.
    /// A tape of no cells has no cell under its cursor and takes no operation.
    pub fn new(size: usize) -> (tape: CircularTape)
        ensures
            tape@ == TapeModel::blank(size as nat, true),
    {
        let tape = CircularTape { pos: 0, data: vec![0u8; size] };
        assert(tape.data@ =~= Seq::new(size as nat, |i: int| 0u8));
        tape
    }

    /// The index of the current cell.
    pub fn position(&self) -> (pos: usize)
        ensures
            pos == self@.cursor,
    {
        self.pos
    }

    /// The cells, first to last.
    pub fn cells(&self) -> (cells: &Vec<u8>)
        ensures
            cells@ == self@.cells,
    {
        &self.data
    }
}

impl Tape for CircularTape {
    fn go_left(&mut self) -> (r: Result<(), OutOfBounds>) {
        if self.pos == 0 {
            self.pos = self.data.len() - 1;
        } else {
            self.pos -= 1;
        }
        Ok(())
    }

    fn go_right(&mut self) -> (r: Result<(), OutOfBounds>) {
        if self.pos < self.data.len() - 1 {
            self.pos += 1;
        } else {
            self.pos = 0;
        }
        Ok(())
    }

    fn inc(&mut self) {
        let byte = self.data[self.pos].wrapping_add(1);
        self.data.set(self.pos, byte);
    }

    fn dec(&mut self) {
        let byte = self.data[self.pos].wrapping_sub(1);
        self.data.set(self.pos, byte);
    }

    fn read(&self) -> (byte: u8) {
        self.data[self.pos]
    }

    fn write(&mut self, byte: u8) {
        self.data.set(self.pos, byte);
    }
}

} // verus!

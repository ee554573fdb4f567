//! Where the machine's bytes come from and where they go.

use vstd::prelude::*;

verus! {

/// Something that hands out bytes one at a time. A call gives the next
/// byte, or says that there are no more, or fails.
pub trait ByteSource {
    /// How a read can fail.
    type Error;

    /// The bytes that the source has yet to hand out, in order. An
    /// implementation that is to be reasoned about says what they are; one
    /// that has no model to offer leaves them unspecified.
    open spec fn pending(&self) -> Seq<u8> {
        arbitrary()
    }

    /// The error of the latest read, if it failed.
    open spec fn failure(&self) -> Option<Self::Error> {
        arbitrary()
    }

    /// Takes the next byte, if there is one. `Ok(None)` is the end of the
    /// stream. A failed call takes nothing.
    fn read_byte(&mut self) -> (r: Result<Option<u8>, Self::Error>)
        ensures
            match r {
                Ok(Some(byte)) => {
                    &&& old(self).pending().len() > 0
                    &&& byte == old(self).pending()[0]
                    &&& final(self).pending() == old(self).pending().drop_first()
                    &&& final(self).failure() is None
                },
                Ok(None) => {
                    &&& old(self).pending().len() == 0
                    &&& final(self).pending() == old(self).pending()
                    &&& final(self).failure() is None
                },
                Err(e) => {
                    &&& final(self).pending() == old(self).pending()
                    &&& final(self).failure() == Some(e)
                },
            },
    ;
}

/// Something that takes bytes one at a time. A call takes the byte or fails.
pub trait ByteSink {
    /// How a write can fail.
    type Error;

    /// The bytes that the sink has taken so far, in order. An
    /// implementation that is to be reasoned about says what they are; one
    /// that has no model to offer leaves them unspecified.
    open spec fn written(&self) -> Seq<u8> {
        arbitrary()
    }

    /// The error of the latest write, if it failed.
    open spec fn failure(&self) -> Option<Self::Error> {
        arbitrary()
    }

    /// Hands `byte` to the sink. A failed call hands over nothing.
    fn write_byte(&mut self, byte: u8) -> (r: Result<(), Self::Error>)
        ensures
            match r {
                Ok(()) => {
                    &&& final(self).written() == old(self).written().push(byte)
                    &&& final(self).failure() is None
                },
                Err(e) => {
                    &&& final(self).written() == old(self).written()
                    &&& final(self).failure() == Some(e)
                },
            },
    ;
}

/// A byte source that reads from memory. It never fails.
#[derive(Debug)]
pub struct MemorySource {
    bytes: Vec<u8>,
    next: usize,
}

impl MemorySource {
    #[verifier::type_invariant]
    spec fn in_range(&self) -> bool {
        self.next <= self.bytes.len()
    }

    /// A source that hands out `bytes`, first to last.
    pub fn new(bytes: Vec<u8>) -> (source: MemorySource)
        ensures
            source.pending() == bytes@,
    {
        MemorySource { bytes, next: 0 }
    }

    /// A source with nothing in it.
    pub fn empty() -> (source: MemorySource)
        ensures
            source.pending() == Seq::<u8>::empty(),
    {
        MemorySource { bytes: Vec::new(), next: 0 }
    }
}

impl ByteSource for MemorySource {
    type Error = core::convert::Infallible;

    closed spec fn pending(&self) -> Seq<u8> {
        self.bytes@.skip(self.next as int)
    }

    open spec fn failure(&self) -> Option<core::convert::Infallible> {
        None
    }

    fn read_byte(&mut self) -> (r: Result<Option<u8>, core::convert::Infallible>)
        ensures
            r is Ok,
    {
        proof {
            use_type_invariant(&*self);
        }
        if self.next < self.bytes.len() {
            let byte = self.bytes[self.next];
            assert(self.bytes@.skip(self.next as int).drop_first() =~= self.bytes@.skip(
                self.next + 1,
            ));
            self.next += 1;
            Ok(Some(byte))
        } else {
            Ok(None)
        }
    }
}

/// A vector takes every byte at its end.
impl ByteSink for Vec<u8> {
    type Error = core::convert::Infallible;

    open spec fn written(&self) -> Seq<u8> {
        self@
    }

    open spec fn failure(&self) -> Option<core::convert::Infallible> {
        None
    }

    fn write_byte(&mut self, byte: u8) -> (r: Result<(), core::convert::Infallible>)
        ensures
            r is Ok,
    {
        self.push(byte);
        Ok(())
    }
}

} // verus!

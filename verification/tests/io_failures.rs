use brainfuck::{execute, parse, step, ByteSink, ByteSource, CircularTape, ExecError, MemorySource, SimpleTape, Tape};

/// A source whose every read fails.
struct BrokenSource;

impl ByteSource for BrokenSource {
    type Error = String;

    fn read_byte(&mut self) -> Result<Option<u8>, String> {
        Err(String::from("source is broken"))
    }
}

/// A sink that takes `room` bytes and then fails.
struct SmallSink {
    taken: Vec<u8>,
    room: usize,
}

impl ByteSink for SmallSink {
    type Error = usize;

    fn write_byte(&mut self, byte: u8) -> Result<(), usize> {
        if self.taken.len() < self.room {
            self.taken.push(byte);
            Ok(())
        } else {
            Err(self.room)
        }
    }
}

#[test]
fn failed_read_aborts_with_the_cause() {
    let program = parse("+,+").unwrap();
    let mut tape = SimpleTape::new(4);
    let mut output: Vec<u8> = Vec::new();
    let r = execute(&program, &mut BrokenSource, &mut output, &mut tape);
    assert_eq!(r, Err(ExecError::Read(String::from("source is broken"))));
    assert_eq!(tape.read(), 1);
    assert!(output.is_empty());
}

#[test]
fn failed_write_aborts_with_the_cause() {
    let program = parse("+.+.+.+").unwrap();
    let mut tape = CircularTape::new(4);
    let mut sink = SmallSink { taken: Vec::new(), room: 2 };
    let r = execute(&program, &mut MemorySource::empty(), &mut sink, &mut tape);
    assert_eq!(r, Err(ExecError::Write(2)));
    assert_eq!(sink.taken, vec![1, 2]);
    assert_eq!(tape.read(), 3);
}

#[test]
fn step_reports_a_failed_read_and_changes_nothing() {
    let program = parse(",").unwrap();
    let mut tape = SimpleTape::new(2);
    tape.write(9);
    let mut output: Vec<u8> = Vec::new();
    let r = step(&program, 0, &mut BrokenSource, &mut output, &mut tape);
    assert_eq!(r, Err(ExecError::Read(String::from("source is broken"))));
    assert_eq!(tape.read(), 9);
    assert_eq!(tape.position(), 0);
}

use brainfuck::{parse, Op, ParseError};

const HELLO_WORLD: &str = "++++++++[>++++[>++>+++>+++>+<<<<-]>+>+>->>+[<]<-]>>.>---.+++++++..+++.>>.<-.<.+++.------.--------.>>+.>++.";

fn ops_of(text: &str) -> Vec<Op> {
    parse(text).unwrap().ops().clone()
}

#[test]
fn empty_text_is_the_empty_program() {
    let program = parse("").unwrap();
    assert_eq!(program.len(), 0);
    assert!(program.ops().is_empty());
}

#[test]
fn a_program_has_one_instruction_for_each_symbol() {
    assert_eq!(parse("+").unwrap().len(), 1);
    assert_eq!(parse("+[-]").unwrap().len(), 4);
    assert_eq!(parse("a + b [ c - d ] e").unwrap().len(), 4);
    assert_eq!(parse(HELLO_WORLD).unwrap().len(), 106);
}

#[test]
fn each_symbol_gives_its_instruction() {
    assert_eq!(
        ops_of("+-<>,."),
        vec![Op::Inc, Op::Dec, Op::Left, Op::Right, Op::Read, Op::Write]
    );
}

#[test]
fn brackets_hold_the_position_of_their_partner() {
    assert_eq!(ops_of("[]"), vec![Op::LoopStart(1), Op::LoopEnd(0)]);
    assert_eq!(
        ops_of("+[>[-]<]."),
        vec![
            Op::Inc,
            Op::LoopStart(7),
            Op::Right,
            Op::LoopStart(5),
            Op::Dec,
            Op::LoopEnd(3),
            Op::Left,
            Op::LoopEnd(1),
            Op::Write,
        ]
    );
    assert_eq!(
        ops_of("[][]"),
        vec![Op::LoopStart(1), Op::LoopEnd(0), Op::LoopStart(3), Op::LoopEnd(2)]
    );
}

#[test]
fn targets_count_instructions_not_characters() {
    assert_eq!(
        ops_of("loop: [ body - ] done"),
        vec![Op::LoopStart(2), Op::Dec, Op::LoopEnd(0)]
    );
}

#[test]
fn comments_give_no_instruction() {
    assert_eq!(ops_of("hello world\n\t123"), vec![]);
    assert_eq!(ops_of(" + + \n - "), vec![Op::Inc, Op::Inc, Op::Dec]);
}

#[test]
fn stripping_comments_changes_nothing() {
    let with_comments = "read , then [ echo . and read again , ] stop";
    let stripped = ",[.,]";
    assert_eq!(ops_of(with_comments), ops_of(stripped));
    assert_eq!(parse(with_comments).unwrap().len(), 5);

    assert!(parse("a[b").is_err());
    assert!(parse("[").is_err());
    assert!(parse("a]b").is_err());
    assert!(parse("]").is_err());
}

#[test]
fn every_loop_of_hello_world_is_resolved() {
    let program = parse(HELLO_WORLD).unwrap();
    let ops = program.ops();
    assert_eq!(ops.len(), HELLO_WORLD.len());
    let mut loops: usize = 0;
    for (at, op) in ops.iter().enumerate() {
        match *op {
            Op::LoopStart(end) => {
                assert!(at < end);
                assert_eq!(ops[end], Op::LoopEnd(at));
                loops += 1;
            }
            Op::LoopEnd(start) => {
                assert!(start < at);
                assert_eq!(ops[start], Op::LoopStart(at));
            }
            _ => {}
        }
    }
    assert_eq!(loops, 3);
}

#[test]
fn a_stray_close_is_reported_where_it_stands() {
    assert_eq!(parse("]").unwrap_err(), ParseError::UnmatchedLoopEnd(0));
    assert_eq!(parse("+]").unwrap_err(), ParseError::UnmatchedLoopEnd(1));
    assert_eq!(parse("[]]").unwrap_err(), ParseError::UnmatchedLoopEnd(2));
    assert_eq!(parse("+[-]>]<").unwrap_err(), ParseError::UnmatchedLoopEnd(5));
}

#[test]
fn the_first_stray_close_is_the_one_reported() {
    assert_eq!(parse("]]").unwrap_err(), ParseError::UnmatchedLoopEnd(0));
    assert_eq!(parse("[]]+]").unwrap_err(), ParseError::UnmatchedLoopEnd(2));
    assert_eq!(parse("[]][").unwrap_err(), ParseError::UnmatchedLoopEnd(2));
    assert_eq!(parse("][").unwrap_err(), ParseError::UnmatchedLoopEnd(0));
}

#[test]
fn an_open_loop_is_reported_where_it_stands() {
    assert_eq!(parse("[").unwrap_err(), ParseError::UnmatchedLoopStart(0));
    assert_eq!(parse("+[-").unwrap_err(), ParseError::UnmatchedLoopStart(1));
    assert_eq!(parse("[][").unwrap_err(), ParseError::UnmatchedLoopStart(2));
    assert_eq!(parse("[+]-[").unwrap_err(), ParseError::UnmatchedLoopStart(4));
}

#[test]
fn the_outermost_open_loop_is_the_one_reported() {
    assert_eq!(parse("[[").unwrap_err(), ParseError::UnmatchedLoopStart(0));
    assert_eq!(parse("[[]").unwrap_err(), ParseError::UnmatchedLoopStart(0));
    assert_eq!(parse("[][[[]").unwrap_err(), ParseError::UnmatchedLoopStart(2));
    assert_eq!(parse("+[>[-]<[").unwrap_err(), ParseError::UnmatchedLoopStart(1));
}

#[test]
fn error_positions_count_comments() {
    assert_eq!(parse("ab]c").unwrap_err(), ParseError::UnmatchedLoopEnd(2));
    assert_eq!(parse("  [").unwrap_err(), ParseError::UnmatchedLoopStart(2));
    assert_eq!(parse("x[y[z]").unwrap_err(), ParseError::UnmatchedLoopStart(1));
}

#[test]
fn error_positions_count_characters_not_bytes() {
    assert_eq!(parse("é]").unwrap_err(), ParseError::UnmatchedLoopEnd(1));
    assert_eq!(parse("日本語[").unwrap_err(), ParseError::UnmatchedLoopStart(3));
}

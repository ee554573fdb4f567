//! From source text to a program.

use vstd::prelude::*;
use vstd::utf8::encode_utf8;

use crate::instruction::{Op, ParseError};
use crate::program::Program;
use crate::brackets::{
    lemma_matched_close_unique, lemma_matched_open_unique, lemma_no_stray_close,
    lemma_op_at_close, lemma_op_at_open, lemma_outermost_unclosed_unique,
    lemma_stray_close_unbalances, lemma_stray_close_unique, lemma_symbols_are_symbols,
    lemma_symbols_prefix, lemma_symbols_take,
};
use crate::syntax::{
    balanced, closes_matched, compile, depth, is_symbol, matched, op_at, outermost_unclosed,
    stray_close, symbols, well_formed,
};

verus! {

/// A `[` that is waiting for its `]`: where it stands in the source text and
/// where its instruction stands in the program.
struct OpenLoop {
    source: usize,
    index: usize,
}

/// What the scan knows of the brackets still open after `i` characters of `s`,
/// the `j`-th of them being the one opened at depth `j`. `full` is the source
/// without comments and `m` the number of instructions emitted so far.
spec fn stack_describes(
    s: Seq<char>,
    i: int,
    full: Seq<char>,
    m: int,
    stack: Seq<OpenLoop>,
) -> bool {
    forall|j: int|
        0 <= j < stack.len() ==> {
            let e = #[trigger] stack[j];
            &&& e.source < i
            &&& s[e.source as int] == '['
            &&& depth(s, e.source as int) == j
            &&& forall|k: int| e.source < k <= i ==> depth(s, k) > j
            &&& e.index < m
            &&& full[e.index as int] == '['
            &&& depth(full, e.index as int) == j
            &&& forall|k: int| e.index < k <= m ==> depth(full, k) > j
        }
}

/// The `[` at `k` is still waiting for its `]`.
spec fn is_open(stack: Seq<OpenLoop>, k: int) -> bool {
    exists|j: int| 0 <= j < stack.len() && (#[trigger] stack[j]).index == k
}

/// The first `m` instructions are those that the first `m` symbols of `full`
/// stand for, but for the targets of the `[` that are still open.
spec fn emitted(full: Seq<char>, m: int, ops: Seq<Op>, stack: Seq<OpenLoop>) -> bool {
    forall|k: int|
        0 <= k < m ==> {
            let op = #[trigger] ops[k];
            if full[k] == '[' {
                is_open(stack, k) || (op matches Op::LoopStart(t) && matched(full, k, t as int))
            } else if full[k] == ']' {
                op matches Op::LoopEnd(p) && matched(full, p as int, k)
            } else {
                op == op_at(full, k)
            }
        }
}

/// When every `[` has found its `]`, the instructions emitted for `full` are
/// the program that `full` stands for, and its loops point at each other.
proof fn lemma_scan_complete(full: Seq<char>, ops: Seq<Op>, stack: Seq<OpenLoop>)
    requires
        forall|k: int| 0 <= k < full.len() ==> is_symbol(full[k]),
        ops.len() == full.len(),
        stack.len() == 0,
        emitted(full, full.len() as int, ops, stack),
    ensures
        ops == compile(full),
        well_formed(ops),
{
    let n = ops.len() as int;
    assert forall|k: int| 0 <= k < n implies ops[k] == op_at(full, k) by {
        if full[k] == '[' {
            lemma_op_at_open(full, k, ops[k]->LoopStart_0);
        } else if full[k] == ']' {
            lemma_op_at_close(full, ops[k]->LoopEnd_0, k);
        }
    }
    assert(ops =~= compile(full));
    assert forall|p: int| 0 <= p < n && (#[trigger] ops[p]) is LoopStart implies ({
        let t = ops[p]->LoopStart_0;
        p < t < n && ops[t as int] == Op::LoopEnd(p as usize)
    }) by {
        let t = ops[p]->LoopStart_0;
        assert(full[p] == '[');
        let q = ops[t as int]->LoopEnd_0;
        lemma_matched_open_unique(full, p, q as int, t as int);
    }
    assert forall|t: int| 0 <= t < n && (#[trigger] ops[t]) is LoopEnd implies ({
        let p = ops[t]->LoopEnd_0;
        p < t && ops[p as int] == Op::LoopStart(t as usize)
    }) by {
        let p = ops[t]->LoopEnd_0;
        assert(full[t] == ']');
        let u = ops[p as int]->LoopStart_0;
        lemma_matched_close_unique(full, p as int, u as int, t);
    }
}

/// A bracket still open stays open when another is pushed above it, and when
/// one that is not it is popped.
proof fn lemma_stays_open(before: Seq<OpenLoop>, after: Seq<OpenLoop>, k: int)
    requires
        is_open(before, k),
        forall|j: int|
            0 <= j < before.len() && (#[trigger] before[j]).index == k ==> j < after.len()
                && after[j] == before[j],
    ensures
        is_open(after, k),
{
    let j = choose|j: int| 0 <= j < before.len() && (#[trigger] before[j]).index == k;
    assert(after[j].index == k);
}

/// A text has no more characters than bytes.
proof fn lemma_chars_fit(chars: Seq<char>)
    ensures
        chars.len() <= encode_utf8(chars).len(),
    decreases chars.len(),
{
    if chars.len() > 0 {
        lemma_chars_fit(chars.drop_first());
    }
}

/// Turns source text into a program.
///
/// Characters other than the eight symbols are comments: they give no
/// instruction, but they count in the positions that errors report, which are
/// indices into the characters of `program`.
///
/// The text is a program exactly when its brackets are balanced, and the
/// program then has one instruction for each symbol, every bracket holding
/// the position of its partner. Otherwise the error is the first `]` with
/// nothing open, if there is one, and else the outermost `[` left open.
pub fn parse(program: &str) -> (r: Result<Program, ParseError>)
    ensures
        r is Ok <==> balanced(program@),
        r matches Ok(p) ==> p@ == compile(symbols(program@)) && well_formed(p@),
        forall|i: usize|
            r == Err::<Program, ParseError>(ParseError::UnmatchedLoopEnd(i))
                <==> #[trigger] stray_close(program@, i as int),
        forall|i: usize|
            r == Err::<Program, ParseError>(ParseError::UnmatchedLoopStart(i))
                <==> #[trigger] outermost_unclosed(program@, i as int),
{
    let ghost s = program@;
    let ghost full = symbols(s);
    // A text has no more symbols than bytes.
    let mut ops: Vec<Op> = Vec::with_capacity(program.as_bytes().len());
    proof {
        lemma_chars_fit(s);
        lemma_symbols_prefix(s, 0);
    }
    let mut stack: Vec<OpenLoop> = Vec::new();
    let mut i: usize = 0;
    for c in it: program.chars()
        invariant
            s == program@,
            it.seq() == s,
            i == it.index(),
            s.len() <= usize::MAX,
            full == symbols(s),
            ops.len() <= full.len(),
            full.take(ops.len() as int) == symbols(s.take(i as int)),
            closes_matched(s, i as int),
            stack.len() == depth(s, i as int),
            depth(full, ops.len() as int) == depth(s, i as int),
            stack_describes(s, i as int, full, ops.len() as int, stack@),
            emitted(full, ops.len() as int, ops@, stack@),
    {
        let ghost m = ops.len() as int;
        let ghost open_before = stack@;
        proof {
            lemma_symbols_take(s, i as int);
            lemma_symbols_prefix(s, i + 1);
            if is_symbol(c) {
                assert(full.take(m + 1)[m] == c);
            }
        }
        match c {
            '+' => ops.push(Op::Inc),
            '-' => ops.push(Op::Dec),
            '<' => ops.push(Op::Left),
            '>' => ops.push(Op::Right),
            ',' => ops.push(Op::Read),
            '.' => ops.push(Op::Write),
            '[' => {
                stack.push(OpenLoop { source: i, index: ops.len() });
                ops.push(Op::LoopStart(0));
                proof {
                    assert(stack@[open_before.len() as int].index == m);
                    assert forall|k: int| 0 <= k < m && is_open(open_before, k)
                        implies is_open(stack@, k) by {
                        lemma_stays_open(open_before, stack@, k);
                    }
                }
            },
            ']' => match stack.pop() {
                Some(open) => {
                    let close = ops.len();
                    ops.push(Op::LoopEnd(open.index));
                    ops.set(open.index, Op::LoopStart(close));
                    proof {
                        assert(open_before[open_before.len() - 1] == open);
                        assert(matched(full, open.index as int, m));
                        assert forall|k: int|
                            0 <= k < m && k != open.index && is_open(open_before, k)
                            implies is_open(stack@, k) by {
                            lemma_stays_open(open_before, stack@, k);
                        }
                    }
                },
                None => {
                    proof {
                        lemma_stray_close_unique(s, i as int);
                        lemma_stray_close_unbalances(s, i as int);
                    }
                    return Err(ParseError::UnmatchedLoopEnd(i));
                },
            },
            _ => {},
        }
        i += 1;
    }
    proof {
        assert(s.take(i as int) =~= s);
        lemma_no_stray_close(s);
    }
    if stack.len() == 0 {
        proof {
            lemma_symbols_are_symbols(s);
            lemma_scan_complete(full, ops@, stack@);
        }
        Ok(Program::from_ops(ops))
    } else {
        let outermost = stack[0].source;
        proof {
            lemma_outermost_unclosed_unique(s, outermost as int);
        }
        Err(ParseError::UnmatchedLoopStart(outermost))
    }
}

} // verus!

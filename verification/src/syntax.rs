//! The shape of source text: which characters are instructions, how deeply
//! brackets are nested, and which bracket belongs with which.

use vstd::prelude::*;

use crate::instruction::Op;

verus! {

/// The eight characters that stand for an instruction. Every other character
/// is a comment.
pub open spec fn is_symbol(c: char) -> bool {
    c == '+' || c == '-' || c == '<' || c == '>' || c == ',' || c == '.' || c == '[' || c == ']'
}

/// [`is_symbol`] as a predicate that a sequence can be filtered by.
pub open spec fn symbol_filter() -> spec_fn(char) -> bool {
    |c: char| is_symbol(c)
}

/// The source text with its comments taken out.
pub open spec fn symbols(s: Seq<char>) -> Seq<char> {
    s.filter(symbol_filter())
}

/// How many `[` are open after the first `n` characters of `s`: the `[` among
/// them minus the `]` among them.
pub open spec fn depth(s: Seq<char>, n: int) -> int
    decreases n,
{
    if n <= 0 {
        0
    } else if s[n - 1] == '[' {
        depth(s, n - 1) + 1
    } else if s[n - 1] == ']' {
        depth(s, n - 1) - 1
    } else {
        depth(s, n - 1)
    }
}

/// No `]` among the first `n` characters of `s` comes with nothing open.
pub open spec fn closes_matched(s: Seq<char>, n: int) -> bool {
    forall|k: int| 0 <= k <= n ==> depth(s, k) >= 0
}

/// `s[i]` is the first `]` with no `[` open before it.
pub open spec fn stray_close(s: Seq<char>, i: int) -> bool {
    &&& 0 <= i < s.len()
    &&& s[i] == ']'
    &&& depth(s, i) == 0
    &&& closes_matched(s, i)
}

/// `s[i]` is a `[` that nothing after it closes.
pub open spec fn unclosed(s: Seq<char>, i: int) -> bool {
    &&& 0 <= i < s.len()
    &&& s[i] == '['
    &&& forall|k: int| i < k <= s.len() ==> depth(s, k) > depth(s, i)
}

/// `s[i]` is the outermost `[` that nothing closes, in a text without a
/// [`stray_close`].
pub open spec fn outermost_unclosed(s: Seq<char>, i: int) -> bool {
    &&& closes_matched(s, s.len() as int)
    &&& unclosed(s, i)
    &&& depth(s, i) == 0
}

/// Every `]` of `s` closes a `[` and every `[` is closed.
pub open spec fn balanced(s: Seq<char>) -> bool {
    closes_matched(s, s.len() as int) && depth(s, s.len() as int) == 0
}

/// The `]` at `close` is the one that closes the `[` at `open`: the depth is
/// back to what it was before `open` for the first time right after `close`.
pub open spec fn matched(s: Seq<char>, open: int, close: int) -> bool {
    &&& 0 <= open < close < s.len()
    &&& s[open] == '['
    &&& s[close] == ']'
    &&& depth(s, close + 1) == depth(s, open)
    &&& forall|k: int| open < k <= close ==> depth(s, k) > depth(s, open)
}

/// The instruction that the character at `k` of comment-free text `s` stands
/// for. A bracket holds the position of the bracket matched with it.
pub open spec fn op_at(s: Seq<char>, k: int) -> Op {
    let c = s[k];
    if c == '+' {
        Op::Inc
    } else if c == '-' {
        Op::Dec
    } else if c == '<' {
        Op::Left
    } else if c == '>' {
        Op::Right
    } else if c == ',' {
        Op::Read
    } else if c == '.' {
        Op::Write
    } else if c == '[' {
        Op::LoopStart(choose|t: usize| matched(s, k, t as int))
    } else {
        Op::LoopEnd(choose|p: usize| matched(s, p as int, k))
    }
}

/// The program that comment-free text `s` stands for: one instruction for
/// each character, in order.
pub open spec fn compile(s: Seq<char>) -> Seq<Op> {
    Seq::new(s.len(), |k: int| op_at(s, k))
}

/// The loop instructions of `ops` point at each other: a `LoopStart` at `p`
/// with target `t` has, later at `t`, a `LoopEnd` with target `p`, and the
/// other way round.
pub open spec fn well_formed(ops: Seq<Op>) -> bool {
    &&& forall|p: int|
        0 <= p < ops.len() ==> (#[trigger] ops[p] matches Op::LoopStart(t) ==> p < t < ops.len()
            && ops[t as int] == Op::LoopEnd(p as usize))
    &&& forall|t: int|
        0 <= t < ops.len() ==> (#[trigger] ops[t] matches Op::LoopEnd(p) ==> p < t
            && ops[p as int] == Op::LoopStart(t as usize))
}

} // verus!

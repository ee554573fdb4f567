//! Lemmas on comments, nesting depth and matching brackets.

use vstd::prelude::*;

use crate::instruction::Op;
use crate::syntax::{
    balanced, closes_matched, compile, depth, is_symbol, matched, op_at, outermost_unclosed,
    stray_close, symbol_filter, symbols, well_formed,
};

verus! {

/// Taking the comments out of a text that ends in `c` keeps `c` if and only if
/// it is a symbol.
pub proof fn lemma_symbols_push(s: Seq<char>, c: char)
    ensures
        symbols(s.push(c)) == if is_symbol(c) {
            symbols(s).push(c)
        } else {
            symbols(s)
        },
{
    reveal(Seq::filter);
    assert(s.push(c).drop_last() =~= s);
}

/// The symbols of the first `i + 1` characters are those of the first `i`,
/// and then `s[i]` if it is a symbol.
pub proof fn lemma_symbols_take(s: Seq<char>, i: int)
    requires
        0 <= i < s.len(),
    ensures
        symbols(s.take(i + 1)) == if is_symbol(s[i]) {
            symbols(s.take(i)).push(s[i])
        } else {
            symbols(s.take(i))
        },
{
    assert(s.take(i + 1) =~= s.take(i).push(s[i]));
    lemma_symbols_push(s.take(i), s[i]);
}

/// The symbols of a prefix of `s` are a prefix of the symbols of `s`.
pub proof fn lemma_symbols_prefix(s: Seq<char>, i: int)
    requires
        0 <= i <= s.len(),
    ensures
        symbols(s.take(i)).len() <= symbols(s).len(),
        symbols(s.take(i)) == symbols(s).take(symbols(s.take(i)).len() as int),
{
    assert(s =~= s.take(i) + s.skip(i));
    Seq::filter_distributes_over_add(s.take(i), s.skip(i), symbol_filter());
    assert(symbols(s.take(i)) =~= symbols(s).take(symbols(s.take(i)).len() as int));
}

/// The symbols of the first `i` characters of `s` open as many brackets as
/// those characters do.
pub proof fn lemma_depth_of_symbols(s: Seq<char>, i: int)
    requires
        0 <= i <= s.len(),
    ensures
        depth(symbols(s), symbols(s.take(i)).len() as int) == depth(s, i),
    decreases i,
{
    lemma_symbols_prefix(s, i);
    if i == 0 {
        assert(symbols(s.take(0)).len() == 0) by {
            reveal(Seq::filter);
        }
    } else {
        lemma_depth_of_symbols(s, i - 1);
        lemma_symbols_prefix(s, i - 1);
        lemma_symbols_take(s, i - 1);
        if is_symbol(s[i - 1]) {
            let m = symbols(s.take(i - 1)).len() as int;
            assert(symbols(s).take(m + 1)[m] == s[i - 1]);
        }
    }
}

/// Every prefix of the symbols of `s` is the symbols of a prefix of `s`.
pub proof fn lemma_symbols_cover(s: Seq<char>, m: int) -> (i: int)
    requires
        0 <= m <= symbols(s).len(),
    ensures
        0 <= i <= s.len(),
        symbols(s.take(i)).len() == m,
{
    assert(s.take(s.len() as int) =~= s);
    lemma_symbols_reach(s, s.len() as int, m)
}

/// Among the first `n` characters of `s`, some prefix has exactly `m`
/// symbols, where `m` is no more than all `n` of them have.
proof fn lemma_symbols_reach(s: Seq<char>, n: int, m: int) -> (i: int)
    requires
        0 <= n <= s.len(),
        0 <= m <= symbols(s.take(n)).len(),
    ensures
        0 <= i <= n,
        symbols(s.take(i)).len() == m,
    decreases n,
{
    if symbols(s.take(n)).len() == m {
        n
    } else {
        assert(n > 0) by {
            reveal(Seq::filter);
        }
        lemma_symbols_take(s, n - 1);
        lemma_symbols_reach(s, n - 1, m)
    }
}

/// Comments do not count in the nesting of brackets.
pub proof fn lemma_balanced_symbols(s: Seq<char>)
    ensures
        balanced(s) <==> balanced(symbols(s)),
{
    let f = symbols(s);
    assert(s.take(s.len() as int) =~= s);
    lemma_depth_of_symbols(s, s.len() as int);
    if closes_matched(f, f.len() as int) {
        assert forall|k: int| 0 <= k <= s.len() implies depth(s, k) >= 0 by {
            lemma_depth_of_symbols(s, k);
            lemma_symbols_prefix(s, k);
        }
    }
    if closes_matched(s, s.len() as int) {
        assert forall|m: int| 0 <= m <= f.len() implies depth(f, m) >= 0 by {
            let i = lemma_symbols_cover(s, m);
            lemma_depth_of_symbols(s, i);
        }
    }
}

/// What is left when the comments are taken out is symbols.
pub proof fn lemma_symbols_are_symbols(s: Seq<char>)
    ensures
        forall|i: int| 0 <= i < symbols(s).len() ==> is_symbol(#[trigger] symbols(s)[i]),
{
    assert forall|i: int| 0 <= i < symbols(s).len() implies is_symbol(
        #[trigger] symbols(s)[i],
    ) by {
        s.lemma_filter_pred(symbol_filter(), i);
    }
}

/// A text of symbols only has no comments to take out.
pub proof fn lemma_symbols_of_symbols(s: Seq<char>)
    requires
        forall|i: int| 0 <= i < s.len() ==> is_symbol(s[i]),
    ensures
        symbols(s) == s,
    decreases s.len(),
{
    if s.len() == 0 {
        reveal(Seq::filter);
    } else {
        lemma_symbols_of_symbols(s.drop_last());
        lemma_symbols_push(s.drop_last(), s.last());
        assert(s.drop_last().push(s.last()) =~= s);
    }
}

/// Taking the comments out twice is taking them out once.
pub proof fn lemma_symbols_idempotent(s: Seq<char>)
    ensures
        symbols(symbols(s)) == symbols(s),
{
    lemma_symbols_are_symbols(s);
    lemma_symbols_of_symbols(symbols(s));
}

/// There is at most one first `]` with nothing open.
pub proof fn lemma_stray_close_unique(s: Seq<char>, i: int)
    requires
        stray_close(s, i),
    ensures
        forall|j: int| stray_close(s, j) ==> j == i,
{
    assert forall|j: int| stray_close(s, j) implies j == i by {
        if i < j {
            assert(depth(s, i + 1) >= 0);
        } else if j < i {
            assert(depth(s, j + 1) >= 0);
        }
    }
}

/// There is at most one outermost `[` that nothing closes.
pub proof fn lemma_outermost_unclosed_unique(s: Seq<char>, i: int)
    requires
        outermost_unclosed(s, i),
    ensures
        forall|j: int| outermost_unclosed(s, j) ==> j == i,
{
    assert forall|j: int| outermost_unclosed(s, j) implies j == i by {
        if i < j {
            assert(depth(s, j) > depth(s, i));
        } else if j < i {
            assert(depth(s, i) > depth(s, j));
        }
    }
}

/// A text with a stray `]` has a prefix that closes more than it opens.
pub proof fn lemma_stray_close_unbalances(s: Seq<char>, i: int)
    requires
        stray_close(s, i),
    ensures
        !closes_matched(s, s.len() as int),
{
    assert(depth(s, i + 1) < 0);
}

/// A text in which no prefix closes more than it opens has no stray `]`.
pub proof fn lemma_no_stray_close(s: Seq<char>)
    requires
        closes_matched(s, s.len() as int),
    ensures
        forall|i: int| !stray_close(s, i),
{
    assert forall|i: int| !stray_close(s, i) by {
        if stray_close(s, i) {
            assert(depth(s, i + 1) < 0);
        }
    }
}

/// Where some prefix of the first `n` characters closes more than it opens,
/// one of them is a stray `]`.
pub proof fn lemma_stray_close_exists(s: Seq<char>, n: int)
    requires
        0 <= n <= s.len(),
        !closes_matched(s, n),
    ensures
        exists|i: int| 0 <= i < n && stray_close(s, i),
    decreases n,
{
    if n > 0 {
        if closes_matched(s, n - 1) {
            let k = choose|k: int| 0 <= k <= n && depth(s, k) < 0;
            assert(k == n);
            assert(depth(s, n - 1) >= 0);
            assert(stray_close(s, n - 1));
        } else {
            lemma_stray_close_exists(s, n - 1);
        }
    }
}

/// Where no `]` is stray and the first `n` characters end with a bracket
/// open, one of them is a `[` at depth zero that nothing among them closes.
proof fn lemma_open_at_depth_zero(s: Seq<char>, n: int) -> (i: int)
    requires
        0 <= n <= s.len(),
        closes_matched(s, n),
        depth(s, n) > 0,
    ensures
        0 <= i < n,
        s[i] == '[',
        depth(s, i) == 0,
        forall|k: int| i < k <= n ==> depth(s, k) > 0,
    decreases n,
{
    if depth(s, n - 1) == 0 {
        n - 1
    } else {
        assert(depth(s, n - 1) >= 0);
        lemma_open_at_depth_zero(s, n - 1)
    }
}

/// Where no `]` is stray and the text ends with a bracket open, it has an
/// outermost unclosed `[`.
pub proof fn lemma_outermost_unclosed_exists(s: Seq<char>)
    requires
        closes_matched(s, s.len() as int),
        depth(s, s.len() as int) > 0,
    ensures
        exists|i: int| outermost_unclosed(s, i),
{
    let i = lemma_open_at_depth_zero(s, s.len() as int);
    assert(outermost_unclosed(s, i));
}

/// A `[` has at most one matching `]`.
pub proof fn lemma_matched_close_unique(s: Seq<char>, open: int, a: int, b: int)
    requires
        matched(s, open, a),
        matched(s, open, b),
    ensures
        a == b,
{
    if a < b {
        assert(depth(s, a + 1) > depth(s, open));
    } else if b < a {
        assert(depth(s, b + 1) > depth(s, open));
    }
}

/// A `]` has at most one matching `[`.
pub proof fn lemma_matched_open_unique(s: Seq<char>, a: int, b: int, close: int)
    requires
        matched(s, a, close),
        matched(s, b, close),
    ensures
        a == b,
{
    if a < b {
        assert(depth(s, b) > depth(s, a));
    } else if b < a {
        assert(depth(s, a) > depth(s, b));
    }
}

/// In balanced text every `[` has its `]`.
pub proof fn lemma_close_exists(s: Seq<char>, open: int) -> (close: int)
    requires
        balanced(s),
        0 <= open < s.len(),
        s[open] == '[',
    ensures
        matched(s, open, close),
{
    lemma_find_close(s, open, open + 1)
}

/// The `]` of the `[` at `open` is at `k` or later, where everything from
/// `open` to `k` is nested more deeply than `open`.
proof fn lemma_find_close(s: Seq<char>, open: int, k: int) -> (close: int)
    requires
        balanced(s),
        0 <= open < k <= s.len(),
        s[open] == '[',
        forall|j: int| open < j <= k ==> depth(s, j) > depth(s, open),
    ensures
        matched(s, open, close),
    decreases s.len() - k,
{
    if k == s.len() {
        assert(depth(s, open) >= 0);
        assert(depth(s, k) > depth(s, open));
        k
    } else if depth(s, k + 1) == depth(s, open) {
        assert(depth(s, k) > depth(s, open));
        k
    } else {
        assert(depth(s, k) > depth(s, open));
        lemma_find_close(s, open, k + 1)
    }
}

/// In balanced text every `]` has its `[`.
pub proof fn lemma_open_exists(s: Seq<char>, close: int) -> (open: int)
    requires
        balanced(s),
        0 <= close < s.len(),
        s[close] == ']',
    ensures
        matched(s, open, close),
{
    assert(depth(s, close + 1) >= 0);
    assert(depth(s, 0) == 0);
    lemma_find_open(s, close, close)
}

/// The `[` of the `]` at `close` is before `k`, where everything from `k` to
/// `close` is nested more deeply than what follows `close`.
proof fn lemma_find_open(s: Seq<char>, close: int, k: int) -> (open: int)
    requires
        balanced(s),
        1 <= k <= close < s.len(),
        s[close] == ']',
        forall|j: int| k <= j <= close ==> #[trigger] depth(s, j) > depth(s, close + 1),
    ensures
        matched(s, open, close),
    decreases k,
{
    assert(depth(s, k) > depth(s, close + 1));
    assert(depth(s, close + 1) >= 0);
    if depth(s, k - 1) == depth(s, close + 1) {
        k - 1
    } else {
        assert(depth(s, 0) == 0);
        lemma_find_open(s, close, k - 1)
    }
}

/// The program that balanced text of symbols stands for has loops that point
/// at each other.
pub proof fn lemma_compile_well_formed(s: Seq<char>)
    requires
        balanced(s),
        forall|k: int| 0 <= k < s.len() ==> is_symbol(s[k]),
        s.len() <= usize::MAX,
    ensures
        well_formed(compile(s)),
{
    let ops = compile(s);
    assert forall|p: int| 0 <= p < ops.len() && (#[trigger] ops[p]) is LoopStart implies ({
        let t = ops[p]->LoopStart_0;
        p < t < ops.len() && ops[t as int] == Op::LoopEnd(p as usize)
    }) by {
        assert(is_symbol(s[p]));
        let close = lemma_close_exists(s, p);
        lemma_op_at_open(s, p, close as usize);
        lemma_op_at_close(s, p as usize, close);
    }
    assert forall|t: int| 0 <= t < ops.len() && (#[trigger] ops[t]) is LoopEnd implies ({
        let p = ops[t]->LoopEnd_0;
        p < t && ops[p as int] == Op::LoopStart(t as usize)
    }) by {
        assert(is_symbol(s[t]));
        let open = lemma_open_exists(s, t);
        lemma_op_at_close(s, open as usize, t);
        lemma_op_at_open(s, open, t as usize);
    }
}

/// The instruction for a `[` holds the position of its matching `]`.
pub proof fn lemma_op_at_open(s: Seq<char>, open: int, close: usize)
    requires
        matched(s, open, close as int),
    ensures
        op_at(s, open) == Op::LoopStart(close),
{
    let t = choose|t: usize| matched(s, open, t as int);
    lemma_matched_close_unique(s, open, t as int, close as int);
}

/// The instruction for a `]` holds the position of its matching `[`.
pub proof fn lemma_op_at_close(s: Seq<char>, open: usize, close: int)
    requires
        matched(s, open as int, close),
    ensures
        op_at(s, close) == Op::LoopEnd(open),
{
    let p = choose|p: usize| matched(s, p as int, close);
    lemma_matched_open_unique(s, p as int, open as int, close);
}

} // verus!

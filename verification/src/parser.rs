//! Structuring: build a nested instruction tree from the token sequence.
//!
//! The parser walks the token sequence once, left to right, translating
//! non-bracket tokens directly into same-shaped instruction nodes. On a
//! [`Token::LoopStart`] it locates the matching [`Token::LoopEnd`] by depth
//! counting ([`stream_until_match`]) and structures the enclosed sub-sequence
//! recursively into a [`AstNode::Loop`] node. An invalid character, a stray
//! close bracket, or an unterminated open bracket is a fatal structuring
//! error: no partial tree is returned.

use crate::lexer::Token;
use vstd::prelude::*;

verus! {

/// A node of the executable instruction tree.
///
/// A `Loop` node exclusively owns its child sequence; the tree is a pure
/// forest with no sharing, so re-entrant traversal needs no aliasing care.
#[derive(Debug)]
pub enum AstNode {
    /// Move the data pointer one cell to the right.
    IncrementPointer,
    /// Move the data pointer one cell to the left.
    DecrementPointer,
    /// Add one to the current cell, wrapping.
    IncrementValue,
    /// Subtract one from the current cell, wrapping.
    DecrementValue,
    /// Emit the current cell as one output character.
    OutputChar,
    /// Read one input byte and store it into the current cell.
    InputChar,
    /// Run the owned child sequence while the current cell is nonzero.
    Loop(Vec<AstNode>),
}

/// A fatal structuring error. No tree is produced when one arises.
#[derive(Clone, Copy, Debug, PartialEq, Eq, Structural)]
pub enum ParseError {
    /// A character outside the instruction alphabet, kept for reporting.
    UnexpectedCharacter(char),
    /// A `]` with no corresponding `[` before it, at this token index.
    UnmatchedClose(usize),
    /// A `[` with no corresponding `]` by the end of the input, at this
    /// token index.
    UnterminatedLoop(usize),
}

/// The index of the close bracket that returns the nesting depth `depth` to
/// zero, scanning `tokens` left to right from `i` (exclusive of `hi`), or
/// `None` if the scan runs out before the depth is closed off.
pub open spec fn find_close(tokens: Seq<Token>, i: int, hi: int, depth: int) -> Option<int>
    decreases hi - i,
{
    if i >= hi {
        None
    } else {
        match tokens[i] {
            Token::LoopStart => find_close(tokens, i + 1, hi, depth + 1),
            Token::LoopEnd => if depth == 1 {
                Some(i)
            } else {
                find_close(tokens, i + 1, hi, depth - 1)
            },
            _ => find_close(tokens, i + 1, hi, depth),
        }
    }
}

/// A found close bracket lies in the scanned range and is a `]`.
pub proof fn lemma_find_close_in_range(tokens: Seq<Token>, i: int, hi: int, depth: int)
    requires
        0 <= i,
        hi <= tokens.len(),
        find_close(tokens, i, hi, depth) is Some,
    ensures
        i <= find_close(tokens, i, hi, depth).unwrap() < hi,
        tokens[find_close(tokens, i, hi, depth).unwrap()] == Token::LoopEnd,
    decreases hi - i,
{
    if i < hi {
        match tokens[i] {
            Token::LoopStart => lemma_find_close_in_range(tokens, i + 1, hi, depth + 1),
            Token::LoopEnd => {
                if depth != 1 {
                    lemma_find_close_in_range(tokens, i + 1, hi, depth - 1);
                }
            },
            _ => lemma_find_close_in_range(tokens, i + 1, hi, depth),
        }
    }
}

/// Whether the token range `[lo, hi)` structures successfully, and with which
/// error it fails otherwise.
///
/// This is the parser's defining behaviour: the first token decides. An
/// invalid character or a stray close fails at once; an open bracket without
/// a matching close fails as unterminated; an open bracket with a matching
/// close requires its body and then the remainder to structure in turn.
pub open spec fn structure_check(tokens: Seq<Token>, lo: int, hi: int) -> Result<(), ParseError>
    decreases hi - lo
        when 0 <= lo <= hi <= tokens.len()
        via structure_check_decreases
{
    if lo >= hi {
        Ok(())
    } else {
        match tokens[lo] {
            Token::Error(c) => Err(ParseError::UnexpectedCharacter(c)),
            Token::LoopEnd => Err(ParseError::UnmatchedClose(lo as usize)),
            Token::LoopStart => match find_close(tokens, lo + 1, hi, 1) {
                None => Err(ParseError::UnterminatedLoop(lo as usize)),
                Some(j) => match structure_check(tokens, lo + 1, j) {
                    Err(e) => Err(e),
                    Ok(_) => structure_check(tokens, j + 1, hi),
                },
            },
            _ => structure_check(tokens, lo + 1, hi),
        }
    }
}

#[via_fn]
proof fn structure_check_decreases(tokens: Seq<Token>, lo: int, hi: int) {
    if lo < hi && tokens[lo] is LoopStart {
        if find_close(tokens, lo + 1, hi, 1) is Some {
            lemma_find_close_in_range(tokens, lo + 1, hi, 1);
        }
    }
}

/// The token sequence that a node sequence re-serializes to, in order,
/// with each loop node contributing its bracket pair around its body.
pub open spec fn flatten(nodes: Seq<AstNode>) -> Seq<Token>
    decreases nodes,
{
    if nodes.len() == 0 {
        Seq::<Token>::empty()
    } else {
        flatten_node(nodes[0]) + flatten(nodes.subrange(1, nodes.len() as int))
    }
}

/// The token sequence that a single node re-serializes to.
pub open spec fn flatten_node(node: AstNode) -> Seq<Token>
    decreases node,
{
    match node {
        AstNode::IncrementPointer => seq![Token::IncrementPointer],
        AstNode::DecrementPointer => seq![Token::DecrementPointer],
        AstNode::IncrementValue => seq![Token::IncrementValue],
        AstNode::DecrementValue => seq![Token::DecrementValue],
        AstNode::OutputChar => seq![Token::OutputChar],
        AstNode::InputChar => seq![Token::InputChar],
        AstNode::Loop(body) => seq![Token::LoopStart] + flatten(body@) + seq![Token::LoopEnd],
    }
}

/// Re-serialization distributes over appending one node.
pub proof fn lemma_flatten_push(nodes: Seq<AstNode>, node: AstNode)
    ensures
        flatten(nodes.push(node)) == flatten(nodes) + flatten_node(node),
    decreases nodes.len(),
{
    if nodes.len() == 0 {
        assert(nodes.push(node)[0] == node);
        assert(nodes.push(node).subrange(1, 1) =~= Seq::<AstNode>::empty());
        assert(flatten(nodes.push(node)) == flatten_node(node) + flatten(
            Seq::<AstNode>::empty(),
        ));
        assert(flatten(nodes.push(node)) =~= flatten(nodes) + flatten_node(node));
    } else {
        let rest = nodes.subrange(1, nodes.len() as int);
        assert(nodes.push(node).subrange(1, nodes.push(node).len() as int) =~= rest.push(node));
        lemma_flatten_push(rest, node);
        assert(flatten(nodes.push(node)) =~= flatten(nodes) + flatten_node(node));
    }
}

/// Count of open brackets in the token range `[lo, hi)`.
pub open spec fn open_count(tokens: Seq<Token>, lo: int, hi: int) -> int
    decreases hi - lo,
{
    if lo >= hi {
        0
    } else {
        (if tokens[lo] is LoopStart {
            1int
        } else {
            0int
        }) + open_count(tokens, lo + 1, hi)
    }
}

/// Count of close brackets in the token range `[lo, hi)`.
pub open spec fn close_count(tokens: Seq<Token>, lo: int, hi: int) -> int
    decreases hi - lo,
{
    if lo >= hi {
        0
    } else {
        (if tokens[lo] is LoopEnd {
            1int
        } else {
            0int
        }) + close_count(tokens, lo + 1, hi)
    }
}

/// No token is an invalid-character token.
pub open spec fn no_invalid(tokens: Seq<Token>) -> bool {
    forall|i: int| 0 <= i < tokens.len() ==> !(#[trigger] tokens[i] is Error)
}

/// The brackets of a token sequence are balanced: no prefix closes more
/// than it has opened, and the whole opens and closes equally often. An
/// extra close violates the first part, an unterminated open the second.
pub open spec fn balanced(tokens: Seq<Token>) -> bool {
    &&& forall|k: int|
        0 <= k <= tokens.len() ==> #[trigger] close_count(tokens, 0, k) <= open_count(tokens, 0, k)
    &&& open_count(tokens, 0, tokens.len() as int) == close_count(tokens, 0, tokens.len() as int)
}

/// Bracket counts add up across a split of the range.
proof fn lemma_count_split(tokens: Seq<Token>, lo: int, mid: int, hi: int)
    requires
        lo <= mid <= hi,
    ensures
        open_count(tokens, lo, hi) == open_count(tokens, lo, mid) + open_count(tokens, mid, hi),
        close_count(tokens, lo, hi) == close_count(tokens, lo, mid) + close_count(tokens, mid, hi),
    decreases mid - lo,
{
    if lo < mid {
        lemma_count_split(tokens, lo + 1, mid, hi);
    }
}

/// A range that structures successfully holds no invalid token, closes no
/// more brackets than it has opened in any prefix, and opens and closes
/// equally often over the whole range.
proof fn lemma_structure_ok_balanced(tokens: Seq<Token>, lo: int, hi: int)
    requires
        0 <= lo <= hi <= tokens.len(),
        structure_check(tokens, lo, hi) is Ok,
    ensures
        forall|i: int| lo <= i < hi ==> !(#[trigger] tokens[i] is Error),
        forall|k: int|
            lo <= k <= hi ==> #[trigger] close_count(tokens, lo, k) <= open_count(tokens, lo, k),
        open_count(tokens, lo, hi) == close_count(tokens, lo, hi),
    decreases hi - lo,
{
    if lo < hi {
        match tokens[lo] {
            Token::LoopStart => {
                let j = find_close(tokens, lo + 1, hi, 1).unwrap();
                lemma_find_close_in_range(tokens, lo + 1, hi, 1);
                lemma_structure_ok_balanced(tokens, lo + 1, j);
                lemma_structure_ok_balanced(tokens, j + 1, hi);
                assert forall|k: int|
                    lo <= k <= hi implies #[trigger] close_count(tokens, lo, k) <= open_count(
                    tokens,
                    lo,
                    k,
                ) by {
                    if lo < k <= j {
                        lemma_count_split(tokens, lo + 1, k, j);
                    } else if j < k {
                        lemma_count_split(tokens, lo + 1, j, k);
                        lemma_count_split(tokens, j + 1, k, hi);
                        if k > j + 1 {
                            lemma_count_split(tokens, j + 1, k, k);
                        }
                    }
                }
                lemma_count_split(tokens, lo + 1, j, hi);
                lemma_count_split(tokens, j + 1, hi, hi);
                assert forall|i: int| lo <= i < hi implies !(#[trigger] tokens[i] is Error) by {
                    lemma_find_close_in_range(tokens, lo + 1, hi, 1);
                }
            },
            Token::LoopEnd => {},
            Token::Error(_) => {},
            _ => {
                lemma_structure_ok_balanced(tokens, lo + 1, hi);
                assert forall|k: int|
                    lo <= k <= hi implies #[trigger] close_count(tokens, lo, k) <= open_count(
                    tokens,
                    lo,
                    k,
                ) by {
                    if lo < k {
                        assert(close_count(tokens, lo + 1, k) <= open_count(tokens, lo + 1, k));
                    }
                }
            },
        }
    }
}

/// A found close bracket closes off exactly the sought depth: up to it the
/// running depth never drops below one, and at it the counts balance the
/// starting depth down to one.
proof fn lemma_find_close_counts(tokens: Seq<Token>, i: int, hi: int, d: int)
    requires
        0 <= i <= hi <= tokens.len(),
        d >= 1,
        find_close(tokens, i, hi, d) is Some,
    ensures
        ({
            let j = find_close(tokens, i, hi, d).unwrap();
            &&& open_count(tokens, i, j) - close_count(tokens, i, j) == 1 - d
            &&& forall|k: int|
                i <= k <= j ==> #[trigger] close_count(tokens, i, k) - open_count(tokens, i, k)
                    <= d - 1
        }),
    decreases hi - i,
{
    lemma_find_close_in_range(tokens, i, hi, d);
    let j = find_close(tokens, i, hi, d).unwrap();
    match tokens[i] {
        Token::LoopStart => {
            lemma_find_close_counts(tokens, i + 1, hi, d + 1);
            assert(open_count(tokens, i, j) == 1 + open_count(tokens, i + 1, j));
            assert(close_count(tokens, i, j) == close_count(tokens, i + 1, j));
            assert forall|k: int|
                i <= k <= j implies #[trigger] close_count(tokens, i, k) - open_count(
                tokens,
                i,
                k,
            ) <= d - 1 by {
                if i < k {
                    assert(close_count(tokens, i + 1, k) - open_count(tokens, i + 1, k) <= d);
                    assert(open_count(tokens, i, k) == 1 + open_count(tokens, i + 1, k));
                    assert(close_count(tokens, i, k) == close_count(tokens, i + 1, k));
                }
            }
        },
        Token::LoopEnd => {
            if d != 1 {
                lemma_find_close_counts(tokens, i + 1, hi, d - 1);
                lemma_find_close_in_range(tokens, i + 1, hi, d - 1);
                assert(open_count(tokens, i, j) == open_count(tokens, i + 1, j));
                assert(close_count(tokens, i, j) == 1 + close_count(tokens, i + 1, j));
                assert forall|k: int|
                    i <= k <= j implies #[trigger] close_count(tokens, i, k) - open_count(
                    tokens,
                    i,
                    k,
                ) <= d - 1 by {
                    if i < k {
                        assert(close_count(tokens, i + 1, k) - open_count(tokens, i + 1, k) <= d
                            - 2);
                        assert(open_count(tokens, i, k) == open_count(tokens, i + 1, k));
                        assert(close_count(tokens, i, k) == 1 + close_count(tokens, i + 1, k));
                    }
                }
            } else {
                assert(open_count(tokens, i, i) == 0);
                assert(close_count(tokens, i, i) == 0);
            }
        },
        _ => {
            lemma_find_close_counts(tokens, i + 1, hi, d);
            assert(open_count(tokens, i, j) == open_count(tokens, i + 1, j));
            assert(close_count(tokens, i, j) == close_count(tokens, i + 1, j));
            assert forall|k: int|
                i <= k <= j implies #[trigger] close_count(tokens, i, k) - open_count(
                tokens,
                i,
                k,
            ) <= d - 1 by {
                if i < k {
                    assert(close_count(tokens, i + 1, k) - open_count(tokens, i + 1, k) <= d - 1);
                    assert(open_count(tokens, i, k) == open_count(tokens, i + 1, k));
                    assert(close_count(tokens, i, k) == close_count(tokens, i + 1, k));
                }
            }
        },
    }
}

/// A range that closes `d` more brackets than it opens holds the close that
/// matches depth `d`.
proof fn lemma_find_close_exists(tokens: Seq<Token>, i: int, hi: int, d: int)
    requires
        0 <= i <= hi <= tokens.len(),
        d >= 1,
        close_count(tokens, i, hi) - open_count(tokens, i, hi) >= d,
    ensures
        find_close(tokens, i, hi, d) is Some,
    decreases hi - i,
{
    match tokens[i] {
        Token::LoopStart => {
            lemma_find_close_exists(tokens, i + 1, hi, d + 1);
        },
        Token::LoopEnd => {
            if d != 1 {
                lemma_find_close_exists(tokens, i + 1, hi, d - 1);
            }
        },
        _ => {
            lemma_find_close_exists(tokens, i + 1, hi, d);
        },
    }
}

/// A range with no invalid token, no prefix that over-closes, and equal
/// open and close totals structures successfully.
proof fn lemma_wellformed_structures(tokens: Seq<Token>, lo: int, hi: int)
    requires
        0 <= lo <= hi <= tokens.len(),
        forall|i: int| lo <= i < hi ==> !(#[trigger] tokens[i] is Error),
        forall|k: int|
            lo <= k <= hi ==> #[trigger] close_count(tokens, lo, k) <= open_count(tokens, lo, k),
        open_count(tokens, lo, hi) == close_count(tokens, lo, hi),
    ensures
        structure_check(tokens, lo, hi) is Ok,
    decreases hi - lo,
{
    if lo < hi {
        match tokens[lo] {
            Token::Error(_) => {
                assert(!(tokens[lo] is Error));
            },
            Token::LoopEnd => {
                assert(close_count(tokens, lo, lo + 1) <= open_count(tokens, lo, lo + 1));
                assert(close_count(tokens, lo + 1, lo + 1) == 0);
                assert(open_count(tokens, lo + 1, lo + 1) == 0);
            },
            Token::LoopStart => {
                lemma_find_close_exists(tokens, lo + 1, hi, 1);
                let j = find_close(tokens, lo + 1, hi, 1).unwrap();
                lemma_find_close_in_range(tokens, lo + 1, hi, 1);
                lemma_find_close_counts(tokens, lo + 1, hi, 1);
                // The body neither over-closes in any prefix nor leaves a
                // bracket open overall.
                assert forall|k: int|
                    lo + 1 <= k <= j implies #[trigger] close_count(tokens, lo + 1, k)
                    <= open_count(tokens, lo + 1, k) by {
                    assert(close_count(tokens, lo + 1, k) - open_count(tokens, lo + 1, k) <= 0);
                }
                lemma_wellformed_structures(tokens, lo + 1, j);
                // The remainder inherits both conditions past the balanced
                // bracket pair.
                lemma_count_split(tokens, lo + 1, j, j + 1);
                assert(close_count(tokens, j + 1, j + 1) == 0);
                assert(open_count(tokens, j + 1, j + 1) == 0);
                assert(close_count(tokens, j, j + 1) == 1);
                assert(open_count(tokens, j, j + 1) == 0);
                assert forall|k: int|
                    j + 1 <= k <= hi implies #[trigger] close_count(tokens, j + 1, k)
                    <= open_count(tokens, j + 1, k) by {
                    lemma_count_split(tokens, lo + 1, j + 1, k);
                    assert(close_count(tokens, lo, k) <= open_count(tokens, lo, k));
                }
                lemma_count_split(tokens, lo + 1, j + 1, hi);
                lemma_wellformed_structures(tokens, j + 1, hi);
            },
            _ => {
                assert forall|k: int|
                    lo + 1 <= k <= hi implies #[trigger] close_count(tokens, lo + 1, k)
                    <= open_count(tokens, lo + 1, k) by {
                    assert(close_count(tokens, lo, k) <= open_count(tokens, lo, k));
                }
                lemma_wellformed_structures(tokens, lo + 1, hi);
            },
        }
    }
}

/// A token sequence structures successfully exactly when it holds no
/// invalid character and its brackets are balanced. In particular any
/// unbalanced bracket sequence — an extra close, or an unterminated open —
/// fails with a structuring error, and no tree is produced for it.
pub proof fn lemma_structure_ok_iff_wellformed(tokens: Seq<Token>)
    ensures
        structure_check(tokens, 0, tokens.len() as int) is Ok <==> (no_invalid(tokens) && balanced(
            tokens,
        )),
{
    if structure_check(tokens, 0, tokens.len() as int) is Ok {
        lemma_structure_ok_balanced(tokens, 0, tokens.len() as int);
    }
    if no_invalid(tokens) && balanced(tokens) {
        lemma_wellformed_structures(tokens, 0, tokens.len() as int);
    }
}

/// How one token changes the bracket nesting depth.
pub open spec fn bracket_step(t: Token) -> int {
    match t {
        Token::LoopStart => 1,
        Token::LoopEnd => -1,
        _ => 0,
    }
}

/// The net bracket depth change over a token sequence.
pub open spec fn nesting_net(s: Seq<Token>) -> int
    decreases s.len(),
{
    if s.len() == 0 {
        0
    } else {
        bracket_step(s[0]) + nesting_net(s.subrange(1, s.len() as int))
    }
}

/// The bracket nesting depth of a token sequence: the highest running
/// depth reached over any prefix, scanning left to right from depth zero.
pub open spec fn nesting_peak(s: Seq<Token>) -> int
    decreases s.len(),
{
    if s.len() == 0 {
        0
    } else {
        let tail = bracket_step(s[0]) + nesting_peak(s.subrange(1, s.len() as int));
        if tail >= 0 {
            tail
        } else {
            0
        }
    }
}

/// The nesting depth of one node: loop nodes nest one deeper than their
/// deepest child.
pub open spec fn node_depth(node: AstNode) -> int
    decreases node,
{
    match node {
        AstNode::Loop(body) => 1 + tree_depth(body@),
        _ => 0,
    }
}

/// The nesting depth of a tree: the deepest nesting among its nodes.
pub open spec fn tree_depth(nodes: Seq<AstNode>) -> int
    decreases nodes,
{
    if nodes.len() == 0 {
        0
    } else {
        let d0 = node_depth(nodes[0]);
        let dr = tree_depth(nodes.subrange(1, nodes.len() as int));
        if d0 >= dr {
            d0
        } else {
            dr
        }
    }
}

/// Net change and peak depth of a single token.
proof fn lemma_nesting_single(t: Token)
    ensures
        nesting_net(seq![t]) == bracket_step(t),
        nesting_peak(seq![t]) == if bracket_step(t) >= 0 {
            bracket_step(t)
        } else {
            0
        },
{
    let s = seq![t];
    assert(s.len() == 1);
    assert(s.subrange(1, s.len() as int) =~= Seq::<Token>::empty());
    assert(nesting_net(Seq::<Token>::empty()) == 0);
    assert(nesting_peak(Seq::<Token>::empty()) == 0);
    assert(s[0] == t);
}

/// A running depth peak is never negative: the empty prefix has depth zero.
proof fn lemma_nesting_peak_nonneg(s: Seq<Token>)
    ensures
        nesting_peak(s) >= 0,
    decreases s.len(),
{
    if s.len() > 0 {
        lemma_nesting_peak_nonneg(s.subrange(1, s.len() as int));
    }
}

/// Net change and peak depth over a concatenation: the net adds up, and
/// the peak is reached either within the first part or within the second
/// part on top of the first part's net change.
proof fn lemma_nesting_concat(a: Seq<Token>, b: Seq<Token>)
    ensures
        nesting_net(a + b) == nesting_net(a) + nesting_net(b),
        nesting_peak(a + b) == if nesting_peak(a) >= nesting_net(a) + nesting_peak(b) {
            nesting_peak(a)
        } else {
            nesting_net(a) + nesting_peak(b)
        },
    decreases a.len(),
{
    if a.len() == 0 {
        assert(a + b =~= b);
        lemma_nesting_peak_nonneg(b);
    } else {
        let rest = a.subrange(1, a.len() as int);
        assert((a + b)[0] == a[0]);
        assert((a + b).subrange(1, (a + b).len() as int) =~= rest + b);
        lemma_nesting_concat(rest, b);
        lemma_nesting_peak_nonneg(rest);
        lemma_nesting_peak_nonneg(b);
    }
}

/// A re-serialized tree is bracket-neutral, and its bracket nesting depth
/// is exactly the tree's nesting depth.
proof fn lemma_flatten_depth(nodes: Seq<AstNode>)
    ensures
        nesting_net(flatten(nodes)) == 0,
        nesting_peak(flatten(nodes)) == tree_depth(nodes),
    decreases nodes,
{
    if nodes.len() > 0 {
        let rest = nodes.subrange(1, nodes.len() as int);
        lemma_flatten_depth_node(nodes[0]);
        lemma_flatten_depth(rest);
        lemma_nesting_concat(flatten_node(nodes[0]), flatten(rest));
    }
}

/// One re-serialized node is bracket-neutral, and its bracket nesting
/// depth is exactly the node's nesting depth.
proof fn lemma_flatten_depth_node(node: AstNode)
    ensures
        nesting_net(flatten_node(node)) == 0,
        nesting_peak(flatten_node(node)) == node_depth(node),
    decreases node,
{
    match node {
        AstNode::Loop(body) => {
            let open = seq![Token::LoopStart];
            let close = seq![Token::LoopEnd];
            let inner = flatten(body@);
            lemma_flatten_depth(body@);
            assert(open[0] == Token::LoopStart);
            assert(close[0] == Token::LoopEnd);
            assert(open.len() == 1 && close.len() == 1);
            assert(open.subrange(1, open.len() as int) =~= Seq::<Token>::empty());
            assert(close.subrange(1, close.len() as int) =~= Seq::<Token>::empty());
            assert(nesting_net(Seq::<Token>::empty()) == 0);
            assert(nesting_peak(Seq::<Token>::empty()) == 0);
            assert(nesting_net(open) == 1);
            assert(nesting_peak(open) == 1);
            assert(nesting_net(close) == -1);
            assert(nesting_peak(close) == 0);
            lemma_nesting_concat(inner, close);
            lemma_nesting_concat(open, inner + close);
            lemma_nesting_peak_nonneg(inner);
            assert(nesting_net(inner + close) == -1);
            assert(nesting_peak(inner + close) == nesting_peak(inner));
            assert(nesting_net(open + (inner + close)) == 0);
            assert(nesting_peak(open + (inner + close)) == 1 + nesting_peak(inner));
            assert(open + (inner + close) =~= flatten_node(node));
            assert(flatten_node(node) == open + (inner + close));
            assert(nesting_net(flatten_node(node)) == 0);
            assert(nesting_peak(flatten_node(node)) == 1 + nesting_peak(inner));
            assert(node_depth(node) == 1 + tree_depth(body@));
        },
        AstNode::IncrementPointer => {
            lemma_nesting_single(Token::IncrementPointer);
        },
        AstNode::DecrementPointer => {
            lemma_nesting_single(Token::DecrementPointer);
        },
        AstNode::IncrementValue => {
            lemma_nesting_single(Token::IncrementValue);
        },
        AstNode::DecrementValue => {
            lemma_nesting_single(Token::DecrementValue);
        },
        AstNode::OutputChar => {
            lemma_nesting_single(Token::OutputChar);
        },
        AstNode::InputChar => {
            lemma_nesting_single(Token::InputChar);
        },
    }
}

/// A structured tree nests exactly as deep as the brackets of the token
/// sequence it re-serializes to: the tree's nesting depth equals the
/// highest running bracket depth of those tokens. Together with the
/// parser's contract — a structured tree re-serializes to its input — the
/// tree built for a source nests exactly as deep as the source's brackets.
pub proof fn lemma_tree_depth_matches_nesting(nodes: Seq<AstNode>)
    ensures
        nesting_peak(flatten(nodes)) == tree_depth(nodes),
{
    lemma_flatten_depth(nodes);
}

/// Scan `tokens` from `start` (exclusive of `hi`) for the close bracket that
/// matches an open bracket just before `start`, counting nested pairs.
fn stream_until_match(tokens: &Vec<Token>, start: usize, hi: usize) -> (r: Option<usize>)
    requires
        start <= hi <= tokens@.len(),
    ensures
        match r {
            Some(j) => find_close(tokens@, start as int, hi as int, 1) == Some(j as int),
            None => find_close(tokens@, start as int, hi as int, 1) is None,
        },
{
    // `extra_depth` is the nesting depth beyond the bracket being matched,
    // so the sought close is the one seen while it is zero.
    let mut extra_depth: usize = 0;
    let mut i: usize = start;
    while i < hi
        invariant
            start <= i <= hi <= tokens@.len(),
            extra_depth as int <= i - start,
            find_close(tokens@, start as int, hi as int, 1) == find_close(
                tokens@,
                i as int,
                hi as int,
                1 + extra_depth as int,
            ),
        decreases hi - i,
    {
        let t = tokens[i];
        match t {
            Token::LoopStart => {
                extra_depth = extra_depth + 1;
            },
            Token::LoopEnd => {
                if extra_depth == 0 {
                    return Some(i);
                }
                extra_depth = extra_depth - 1;
            },
            _ => {},
        }
        i = i + 1;
    }
    None
}

/// Structure the token range `[lo, hi)` into a node sequence.
fn parse_range(tokens: &Vec<Token>, lo: usize, hi: usize) -> (r: Result<Vec<AstNode>, ParseError>)
    requires
        lo <= hi <= tokens@.len(),
    ensures
        match r {
            Ok(nodes) => structure_check(tokens@, lo as int, hi as int) == Ok::<(), ParseError>(())
                && flatten(nodes@) == tokens@.subrange(lo as int, hi as int),
            Err(e) => structure_check(tokens@, lo as int, hi as int) == Err::<(), ParseError>(e),
        },
    decreases hi - lo,
{
    let mut nodes: Vec<AstNode> = Vec::new();
    let mut i: usize = lo;
    while i < hi
        invariant
            lo <= i <= hi <= tokens@.len(),
            flatten(nodes@) == tokens@.subrange(lo as int, i as int),
            structure_check(tokens@, lo as int, hi as int) == structure_check(
                tokens@,
                i as int,
                hi as int,
            ),
        decreases hi - i,
    {
        let t = tokens[i];
        let ghost prev_nodes = nodes@;
        match t {
            Token::Error(c) => {
                return Err(ParseError::UnexpectedCharacter(c));
            },
            Token::LoopEnd => {
                return Err(ParseError::UnmatchedClose(i));
            },
            Token::LoopStart => {
                match stream_until_match(tokens, i + 1, hi) {
                    None => {
                        return Err(ParseError::UnterminatedLoop(i));
                    },
                    Some(j) => {
                        proof {
                            lemma_find_close_in_range(tokens@, i + 1, hi as int, 1);
                        }
                        match parse_range(tokens, i + 1, j) {
                            Err(e) => {
                                return Err(e);
                            },
                            Ok(body) => {
                                let ghost body_view = body@;
                                nodes.push(AstNode::Loop(body));
                                proof {
                                    let pushed = nodes@.last();
                                    lemma_flatten_push(prev_nodes, pushed);
                                    assert(flatten_node(pushed) == seq![Token::LoopStart]
                                        + flatten(body_view) + seq![Token::LoopEnd]);
                                    assert(flatten(nodes@) =~= tokens@.subrange(
                                        lo as int,
                                        j + 1,
                                    ));
                                }
                                i = j + 1;
                            },
                        }
                    },
                }
            },
            Token::IncrementPointer => {
                nodes.push(AstNode::IncrementPointer);
                proof {
                    lemma_flatten_push(prev_nodes, AstNode::IncrementPointer);
                    assert(flatten(nodes@) =~= tokens@.subrange(lo as int, i + 1));
                }
                i = i + 1;
            },
            Token::DecrementPointer => {
                nodes.push(AstNode::DecrementPointer);
                proof {
                    lemma_flatten_push(prev_nodes, AstNode::DecrementPointer);
                    assert(flatten(nodes@) =~= tokens@.subrange(lo as int, i + 1));
                }
                i = i + 1;
            },
            Token::IncrementValue => {
                nodes.push(AstNode::IncrementValue);
                proof {
                    lemma_flatten_push(prev_nodes, AstNode::IncrementValue);
                    assert(flatten(nodes@) =~= tokens@.subrange(lo as int, i + 1));
                }
                i = i + 1;
            },
            Token::DecrementValue => {
                nodes.push(AstNode::DecrementValue);
                proof {
                    lemma_flatten_push(prev_nodes, AstNode::DecrementValue);
                    assert(flatten(nodes@) =~= tokens@.subrange(lo as int, i + 1));
                }
                i = i + 1;
            },
            Token::OutputChar => {
                nodes.push(AstNode::OutputChar);
                proof {
                    lemma_flatten_push(prev_nodes, AstNode::OutputChar);
                    assert(flatten(nodes@) =~= tokens@.subrange(lo as int, i + 1));
                }
                i = i + 1;
            },
            Token::InputChar => {
                nodes.push(AstNode::InputChar);
                proof {
                    lemma_flatten_push(prev_nodes, AstNode::InputChar);
                    assert(flatten(nodes@) =~= tokens@.subrange(lo as int, i + 1));
                }
                i = i + 1;
            },
        }
    }
    proof {
        assert(structure_check(tokens@, i as int, hi as int) == Ok::<(), ParseError>(()));
    }
    Ok(nodes)
}

/// Structure a whole token sequence into the executable instruction tree.
///
/// On success the returned node sequence re-serializes exactly to the input
/// tokens ([`flatten`]), so the instruction order and nesting are fully
/// determined by the input. On failure no tree is produced and the error is
/// the one [`structure_check`] assigns to the input.
pub fn parse(tokens: Vec<Token>) -> (r: Result<Vec<AstNode>, ParseError>)
    ensures
        match r {
            Ok(nodes) => structure_check(tokens@, 0, tokens@.len() as int) == Ok::<
                (),
                ParseError,
            >(()) && flatten(nodes@) == tokens@,
            Err(e) => structure_check(tokens@, 0, tokens@.len() as int) == Err::<
                (),
                ParseError,
            >(e),
        },
{
    let n = tokens.len();
    let r = parse_range(&tokens, 0, n);
    proof {
        assert(tokens@.subrange(0, tokens@.len() as int) =~= tokens@);
    }
    r
}

} // verus!

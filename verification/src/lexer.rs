//! Lexical scanning: classify every source character into a token.
//!
//! The scanner is total: no character is skipped or merged. The six
//! instruction characters and the two brackets map one-to-one to their token
//! variants; every other character (whitespace included) is tagged as an
//! [`Token::Error`] carrying the raw character, so that the parser can reject
//! it with context rather than silently dropping it.

use vstd::prelude::*;

verus! {

/// A classified unit of source text, one per input character.
#[derive(Clone, Copy, Debug, PartialEq, Eq, Structural)]
pub enum Token {
    /// `>`: move the data pointer one cell to the right.
    IncrementPointer,
    /// `<`: move the data pointer one cell to the left.
    DecrementPointer,
    /// `+`: add one to the current cell, wrapping.
    IncrementValue,
    /// `-`: subtract one from the current cell, wrapping.
    DecrementValue,
    /// `.`: emit the current cell as one output character.
    OutputChar,
    /// `,`: read one input line and store its first character's low byte.
    InputChar,
    /// `[`: open a loop.
    LoopStart,
    /// `]`: close a loop.
    LoopEnd,
    /// Any character outside the instruction alphabet, kept verbatim.
    Error(char),
}

/// The classification of a single source character.
pub open spec fn token_of_char(c: char) -> Token {
    if c == '>' {
        Token::IncrementPointer
    } else if c == '<' {
        Token::DecrementPointer
    } else if c == '+' {
        Token::IncrementValue
    } else if c == '-' {
        Token::DecrementValue
    } else if c == '.' {
        Token::OutputChar
    } else if c == ',' {
        Token::InputChar
    } else if c == '[' {
        Token::LoopStart
    } else if c == ']' {
        Token::LoopEnd
    } else {
        Token::Error(c)
    }
}

/// The token sequence of a whole source text: one token per character, in
/// source order.
pub open spec fn scan_spec(s: Seq<char>) -> Seq<Token> {
    Seq::new(s.len(), |i: int| token_of_char(s[i]))
}

/// Classify one source character.
fn classify_char(c: char) -> (t: Token)
    ensures
        t == token_of_char(c),
{
    if c == '>' {
        Token::IncrementPointer
    } else if c == '<' {
        Token::DecrementPointer
    } else if c == '+' {
        Token::IncrementValue
    } else if c == '-' {
        Token::DecrementValue
    } else if c == '.' {
        Token::OutputChar
    } else if c == ',' {
        Token::InputChar
    } else if c == '[' {
        Token::LoopStart
    } else if c == ']' {
        Token::LoopEnd
    } else {
        Token::Error(c)
    }
}

/// Scan a source text into its token sequence.
///
/// The scanner never fails: it produces exactly one token per input
/// character, in source order, so the result's length always equals the
/// character count of the input. Scanning is a pure function of the input
/// text, so scanning the same text twice yields identical sequences.
pub fn tokenize(input: &str) -> (tokens: Vec<Token>)
    ensures
        tokens@ == scan_spec(input@),
        tokens@.len() == input@.len(),
        forall|i: int| 0 <= i < input@.len() ==> tokens@[i] == token_of_char(input@[i]),
{
    let n = input.unicode_len();
    let mut tokens: Vec<Token> = Vec::new();
    let mut i: usize = 0;
    while i < n
        invariant
            n == input@.len(),
            0 <= i <= n,
            tokens@.len() == i,
            forall|k: int| 0 <= k < i ==> tokens@[k] == token_of_char(input@[k]),
        decreases n - i,
    {
        let c = input.get_char(i);
        tokens.push(classify_char(c));
        i = i + 1;
    }
    proof {
        assert(tokens@ =~= scan_spec(input@));
    }
    tokens
}

} // verus!

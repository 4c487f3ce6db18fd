//! Error values of the validator and the generators.
use crate::codec::string_of;
use vstd::prelude::*;
use vstd::string::StringExecFns;

verus! {

/// Why a code or a pattern was rejected, with the half-open span
/// `[start, end)` of the characters at fault.
#[derive(Copy, Clone, Debug, PartialEq)]
pub enum ParseError {
    Syntax(&'static str, usize, usize),
    Day(&'static str, usize, usize),
    Month(&'static str, usize, usize),
    Year(&'static str, usize, usize),
    Identifier(&'static str, usize, usize),
    Checksum(&'static str, usize, usize, char),
}

/// No code satisfies the given pattern.
#[derive(Copy, Clone, Debug, PartialEq, Eq)]
pub struct GenerateError;

/// The half-open span `[start, end)` of the characters at fault.
pub trait ErrorIndexRange {
    spec fn span_start(&self) -> usize;

    spec fn span_end(&self) -> usize;

    fn start(&self) -> (r: usize)
        ensures
            r == self.span_start(),
    ;

    fn end(&self) -> (r: usize)
        ensures
            r == self.span_end(),
    ;
}

impl ErrorIndexRange for ParseError {
    open spec fn span_start(&self) -> usize {
        match *self {
            ParseError::Syntax(_, start, _) => start,
            ParseError::Day(_, start, _) => start,
            ParseError::Month(_, start, _) => start,
            ParseError::Year(_, start, _) => start,
            ParseError::Identifier(_, start, _) => start,
            ParseError::Checksum(_, start, _, _) => start,
        }
    }

    open spec fn span_end(&self) -> usize {
        match *self {
            ParseError::Syntax(_, _, end) => end,
            ParseError::Day(_, _, end) => end,
            ParseError::Month(_, _, end) => end,
            ParseError::Year(_, _, end) => end,
            ParseError::Identifier(_, _, end) => end,
            ParseError::Checksum(_, _, end, _) => end,
        }
    }

    fn start(&self) -> (r: usize) {
        match *self {
            ParseError::Syntax(_, start, _) => start,
            ParseError::Day(_, start, _) => start,
            ParseError::Month(_, start, _) => start,
            ParseError::Year(_, start, _) => start,
            ParseError::Identifier(_, start, _) => start,
            ParseError::Checksum(_, start, _, _) => start,
        }
    }

    fn end(&self) -> (r: usize) {
        match *self {
            ParseError::Syntax(_, _, end) => end,
            ParseError::Day(_, _, end) => end,
            ParseError::Month(_, _, end) => end,
            ParseError::Year(_, _, end) => end,
            ParseError::Identifier(_, _, end) => end,
            ParseError::Checksum(_, _, end, _) => end,
        }
    }
}

impl ParseError {
    /// The rule that was broken, in a few words.
    pub open spec fn spec_description(&self) -> &'static str {
        match *self {
            ParseError::Syntax(..) => "Invalid syntax",
            ParseError::Day(..) => "Invalid day",
            ParseError::Month(..) => "Invalid month",
            ParseError::Year(..) => "Invalid year",
            ParseError::Identifier(..) => "Invalid identifier",
            ParseError::Checksum(..) => "Invalid checksum",
        }
    }

    /// The rule that was broken, in a few words.
    pub fn description(&self) -> (r: &'static str)
        ensures
            r == self.spec_description(),
    {
        match *self {
            ParseError::Syntax(..) => "Invalid syntax",
            ParseError::Day(..) => "Invalid day",
            ParseError::Month(..) => "Invalid month",
            ParseError::Year(..) => "Invalid year",
            ParseError::Identifier(..) => "Invalid identifier",
            ParseError::Checksum(..) => "Invalid checksum",
        }
    }

    /// The full message: the rule and the reason, or for a wrong check
    /// character the one expected.
    pub fn message(&self) -> (r: String)
        ensures
            match *self {
                ParseError::Syntax(reason, _, _) => r@ == "Invalid syntax: "@ + reason@,
                ParseError::Day(reason, _, _) => r@ == "Invalid day: "@ + reason@,
                ParseError::Month(reason, _, _) => r@ == "Invalid month: "@ + reason@,
                ParseError::Year(reason, _, _) => r@ == "Invalid year: "@ + reason@,
                ParseError::Identifier(reason, _, _) => r@ == "Invalid identifier: "@ + reason@,
                ParseError::Checksum(_, _, _, expected) => r@ == "Invalid checksum: expected "@
                    + seq![expected],
            },
    {
        match *self {
            ParseError::Syntax(reason, _, _) => String::from_str("Invalid syntax: ").concat(reason),
            ParseError::Day(reason, _, _) => String::from_str("Invalid day: ").concat(reason),
            ParseError::Month(reason, _, _) => String::from_str("Invalid month: ").concat(reason),
            ParseError::Year(reason, _, _) => String::from_str("Invalid year: ").concat(reason),
            ParseError::Identifier(reason, _, _) => String::from_str("Invalid identifier: ").concat(
                reason,
            ),
            ParseError::Checksum(_, _, _, expected) => {
                let tail = string_of(&vec![expected]);
                String::from_str("Invalid checksum: expected ").concat(tail.as_str())
            },
        }
    }
}

impl GenerateError {
    /// The message of the error.
    pub fn message(&self) -> (r: String)
        ensures
            r@ == "Unable to generate matching hetu"@,
    {
        String::from_str("Unable to generate matching hetu")
    }
}

/// The marker line under a rejected text: a space for each character
/// before the error's span, a caret for each character in it.
pub open spec fn arrows(start: nat, end: nat) -> Seq<char> {
    Seq::new(start, |i: int| ' ') + Seq::new(
        if end > start {
            (end - start) as nat
        } else {
            0
        },
        |i: int| '^',
    )
}

/// Draws carets under the span of `err`.
pub fn index_arrows(err: &ParseError) -> (r: String)
    ensures
        r@ == arrows(err.span_start() as nat, err.span_end() as nat),
{
    let start = err.start();
    let end = err.end();
    let mut chars: Vec<char> = Vec::new();
    let mut i: usize = 0;
    while i < start
        invariant
            i <= start,
            chars@ == Seq::new(i as nat, |j: int| ' '),
        decreases start - i,
    {
        chars.push(' ');
        i = i + 1;
        assert(chars@ =~= Seq::new(i as nat, |j: int| ' '));
    }
    while i < end
        invariant
            start <= i,
            i <= end || end < start,
            i == start || start < i <= end,
            chars@ == Seq::new(start as nat, |j: int| ' ') + Seq::new(
                (i - start) as nat,
                |j: int| '^',
            ),
        decreases end - i,
    {
        chars.push('^');
        i = i + 1;
        assert(chars@ =~= Seq::new(start as nat, |j: int| ' ') + Seq::new(
            (i - start) as nat,
            |j: int| '^',
        ));
    }
    let r = string_of(&chars);
    assert(r@ =~= arrows(start as nat, end as nat));
    r
}

} // verus!

//! Character-level encodings: decimal digits, the check-character alphabet
//! and the century markers.
use crate::error::{GenerateError, ParseError};
use crate::random::random_below;
use vstd::prelude::*;
use vstd::string::StrSliceExecFns;

verus! {

/// Whether `c` is an ASCII decimal digit.
pub open spec fn is_digit(c: char) -> bool {
    '0' <= c <= '9'
}

/// The value of a decimal digit character.
pub open spec fn digit_value(c: char) -> int {
    c as int - '0' as int
}

/// The character of a decimal digit `d` (0 to 9).
pub open spec fn digit_char(d: int) -> char {
    (d + '0' as int) as char
}

/// The 31 check characters, in order of their index.
pub open spec fn alphabet() -> Seq<char> {
    "0123456789ABCDEFHJKLMNPRSTUVWXY"@
}

/// The check character of a nine-digit number.
pub open spec fn check_char(n: int) -> char {
    alphabet()[n % 31]
}

/// Whether `c` may stand as a check character.
pub open spec fn is_check_char(c: char) -> bool {
    alphabet().contains(c)
}

/// The century that a marker character stands for, if any.
pub open spec fn century_of(c: char) -> Option<int> {
    if c == '+' {
        Some(1800)
    } else if c == '-' || c == 'Y' || c == 'X' || c == 'W' || c == 'V' || c == 'U' {
        Some(1900)
    } else if c == 'A' || c == 'B' || c == 'C' || c == 'D' || c == 'E' || c == 'F' {
        Some(2000)
    } else {
        None
    }
}

/// The markers of a century, the customary one first.
pub open spec fn markers_of(century: int) -> Seq<char> {
    if century == 1800 {
        seq!['+']
    } else if century == 1900 {
        seq!['-', 'Y', 'X', 'W', 'V', 'U']
    } else if century == 2000 {
        seq!['A', 'B', 'C', 'D', 'E', 'F']
    } else {
        Seq::empty()
    }
}

/// Reads one decimal digit.
pub fn read_digit(c: char) -> (r: Option<usize>)
    ensures
        is_digit(c) ==> r == Some(digit_value(c) as usize),
        !is_digit(c) ==> r is None,
{
    if '0' <= c && c <= '9' {
        Some((c as u32 - '0' as u32) as usize)
    } else {
        None
    }
}

/// The character of a decimal digit.
pub fn to_digit_char(d: usize) -> (c: char)
    requires
        d < 10,
    ensures
        c == digit_char(d as int),
        is_digit(c),
        digit_value(c) == d,
{
    ((d as u8) + ('0' as u8)) as char
}

/// The check character of a nine-digit number (`ddmmyy` followed by the
/// individual number).
pub fn checksum(n: usize) -> (c: char)
    ensures
        c == check_char(n as int),
{
    let table = "0123456789ABCDEFHJKLMNPRSTUVWXY";
    proof {
        reveal_strlit("0123456789ABCDEFHJKLMNPRSTUVWXY");
    }
    table.get_char(n % 31)
}

/// The century of a marker character; any other character is a syntax
/// error at the marker's place.
pub fn from_separator(separator: &char) -> (r: Result<usize, ParseError>)
    ensures
        century_of(*separator) matches Some(v) ==> r == Ok::<usize, ParseError>(v as usize),
        century_of(*separator) is None ==> r == Err::<usize, ParseError>(
            ParseError::Syntax("Invalid separator", 6, 7),
        ),
{
    match *separator {
        '+' => Ok(1800),
        '-' | 'Y' | 'X' | 'W' | 'V' | 'U' => Ok(1900),
        'A' | 'B' | 'C' | 'D' | 'E' | 'F' => Ok(2000),
        _ => Err(ParseError::Syntax("Invalid separator", 6, 7)),
    }
}

/// The marker of `century` at position `i` of its list of markers.
pub fn marker_at(century: usize, i: usize) -> (c: char)
    requires
        i < markers_of(century as int).len(),
    ensures
        c == markers_of(century as int)[i as int],
        century_of(c) == Some(century as int),
{
    if century == 1800 {
        '+'
    } else if century == 1900 {
        match i {
            0 => '-',
            1 => 'Y',
            2 => 'X',
            3 => 'W',
            4 => 'V',
            _ => 'U',
        }
    } else {
        match i {
            0 => 'A',
            1 => 'B',
            2 => 'C',
            3 => 'D',
            4 => 'E',
            _ => 'F',
        }
    }
}

/// Number of markers of `century`.
pub fn marker_count(century: usize) -> (n: usize)
    ensures
        n == markers_of(century as int).len(),
{
    if century == 1800 {
        1
    } else if century == 1900 || century == 2000 {
        6
    } else {
        0
    }
}

/// A marker for the century of `year`, drawn at random among the markers
/// of that century; years outside 1800 to 2099 have none.
pub fn to_separator(year: usize) -> (r: Result<char, GenerateError>)
    ensures
        1800 <= year < 2100 <==> r is Ok,
        r matches Ok(c) ==> century_of(c) == Some(year / 100 * 100)
            && markers_of(year / 100 * 100).contains(c),
{
    if year < 1800 || year >= 2100 {
        return Err(GenerateError);
    }
    let century = year / 100 * 100;
    let i = random_below(marker_count(century));
    let c = marker_at(century, i);
    assert(markers_of(century as int)[i as int] == c);
    Ok(c)
}

/// Relies on `FromIterator<char>` for `String` (`Iterator::collect`): the
/// string holds the characters in order.
#[verifier::external_body]
pub(crate) fn string_of(chars: &Vec<char>) -> (s: String)
    ensures
        s@ == chars@,
{
    chars.iter().collect()
}

} // verus!

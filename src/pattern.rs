//! Templates of codes: each position either fixed or a wildcard (`?`).
use crate::codec::{
    alphabet, century_of, digit_char, digit_value, from_separator, is_check_char, is_digit,
    read_digit,
};
use crate::error::ParseError;
use vstd::prelude::*;
use vstd::string::StrSliceExecFns;

verus! {

/// A template of a code. `None` is a wildcard; a digit field holds the
/// digit's value, `sep` the century marker and `check` the check character.
#[derive(Copy, Clone, Debug, PartialEq, Eq, Default)]
pub struct SsnPattern {
    pub d1: Option<u8>,
    pub d2: Option<u8>,
    pub m1: Option<u8>,
    pub m2: Option<u8>,
    pub y1: Option<u8>,
    pub y2: Option<u8>,
    pub sep: Option<char>,
    pub i1: Option<u8>,
    pub i2: Option<u8>,
    pub i3: Option<u8>,
    pub check: Option<char>,
}

/// The field that a digit position of a pattern text gives: a wildcard,
/// a digit, or a syntax error at `index`.
pub open spec fn digit_slot(c: char, index: int) -> Result<Option<u8>, ParseError> {
    if c == '?' {
        Ok(None)
    } else if is_digit(c) {
        Ok(Some(digit_value(c) as u8))
    } else {
        Err(ParseError::Syntax("Date not integer", index as usize, (index + 1) as usize))
    }
}

/// The marker field of a pattern text.
pub open spec fn marker_slot(c: char) -> Result<Option<char>, ParseError> {
    if c == '?' {
        Ok(None)
    } else if century_of(c) is Some {
        Ok(Some(c))
    } else {
        Err(ParseError::Syntax("Invalid separator character", 6, 7))
    }
}

/// The check-character field of a pattern text.
pub open spec fn check_slot(c: char) -> Result<Option<char>, ParseError> {
    if c == '?' {
        Ok(None)
    } else if is_check_char(c) {
        Ok(Some(c))
    } else {
        Err(ParseError::Syntax("Invalid checksum character", 10, 11))
    }
}

/// The pattern whose fields are the slots of an eleven-character text.
pub open spec fn pattern_of(s: Seq<char>) -> SsnPattern {
    SsnPattern {
        d1: digit_slot(s[0], 0)->Ok_0,
        d2: digit_slot(s[1], 1)->Ok_0,
        m1: digit_slot(s[2], 2)->Ok_0,
        m2: digit_slot(s[3], 3)->Ok_0,
        y1: digit_slot(s[4], 4)->Ok_0,
        y2: digit_slot(s[5], 5)->Ok_0,
        sep: marker_slot(s[6])->Ok_0,
        i1: digit_slot(s[7], 7)->Ok_0,
        i2: digit_slot(s[8], 8)->Ok_0,
        i3: digit_slot(s[9], 9)->Ok_0,
        check: check_slot(s[10])->Ok_0,
    }
}

/// The first position of an eleven-character text that holds a character
/// its slot does not take, as an error.
pub open spec fn slot_error(s: Seq<char>) -> Option<ParseError> {
    if digit_slot(s[0], 0) is Err {
        Some(digit_slot(s[0], 0)->Err_0)
    } else if digit_slot(s[1], 1) is Err {
        Some(digit_slot(s[1], 1)->Err_0)
    } else if digit_slot(s[2], 2) is Err {
        Some(digit_slot(s[2], 2)->Err_0)
    } else if digit_slot(s[3], 3) is Err {
        Some(digit_slot(s[3], 3)->Err_0)
    } else if digit_slot(s[4], 4) is Err {
        Some(digit_slot(s[4], 4)->Err_0)
    } else if digit_slot(s[5], 5) is Err {
        Some(digit_slot(s[5], 5)->Err_0)
    } else if marker_slot(s[6]) is Err {
        Some(marker_slot(s[6])->Err_0)
    } else if digit_slot(s[7], 7) is Err {
        Some(digit_slot(s[7], 7)->Err_0)
    } else if digit_slot(s[8], 8) is Err {
        Some(digit_slot(s[8], 8)->Err_0)
    } else if digit_slot(s[9], 9) is Err {
        Some(digit_slot(s[9], 9)->Err_0)
    } else if check_slot(s[10]) is Err {
        Some(check_slot(s[10])->Err_0)
    } else {
        None
    }
}

/// Literals that contradict each other within one field: day 00 or over
/// 31, month 00, or a decade before 1850 under the marker `+`.
pub open spec fn local_conflict(p: SsnPattern) -> Option<ParseError> {
    if p.d1 == Some(0u8) && p.d2 == Some(0u8) {
        Some(ParseError::Day("Invalid day too small", 0, 2))
    } else if p.d1 is Some && p.d2 is Some && 10 * p.d1->0 + p.d2->0 > 31 {
        Some(ParseError::Day("Invalid day too large", 0, 2))
    } else if p.m1 == Some(0u8) && p.m2 == Some(0u8) {
        Some(ParseError::Month("Invalid month too small", 2, 4))
    } else if p.y1 is Some && p.sep is Some && century_of(p.sep->0) == Some(1800int) && p.y1->0
        < 5 {
        Some(ParseError::Day("Invalid year before 1850", 4, 7))
    } else {
        None
    }
}

/// What parsing a pattern text gives.
pub open spec fn spec_parse_pattern(s: Seq<char>) -> Result<SsnPattern, ParseError> {
    if s.len() != 11 {
        Err(ParseError::Syntax("Invalid length", 0, s.len() as usize))
    } else if slot_error(s) is Some {
        Err(slot_error(s)->0)
    } else if local_conflict(pattern_of(s)) is Some {
        Err(local_conflict(pattern_of(s))->0)
    } else {
        Ok(pattern_of(s))
    }
}

/// Whether the digit character `c` agrees with the digit field `f`.
pub open spec fn digit_fits(f: Option<u8>, c: char) -> bool {
    f matches Some(v) ==> c == digit_char(v as int)
}

/// Whether `code` holds every literal of `p` at its position.
pub open spec fn matches_pattern(p: SsnPattern, code: Seq<char>) -> bool {
    &&& code.len() == 11
    &&& digit_fits(p.d1, code[0])
    &&& digit_fits(p.d2, code[1])
    &&& digit_fits(p.m1, code[2])
    &&& digit_fits(p.m2, code[3])
    &&& digit_fits(p.y1, code[4])
    &&& digit_fits(p.y2, code[5])
    &&& (p.sep matches Some(c) ==> code[6] == c)
    &&& digit_fits(p.i1, code[7])
    &&& digit_fits(p.i2, code[8])
    &&& digit_fits(p.i3, code[9])
    &&& (p.check matches Some(c) ==> code[10] == c)
}

/// Whether `c` is one of the check characters.
pub fn is_check_symbol(c: char) -> (r: bool)
    ensures
        r == is_check_char(c),
{
    let table = "0123456789ABCDEFHJKLMNPRSTUVWXY";
    proof {
        reveal_strlit("0123456789ABCDEFHJKLMNPRSTUVWXY");
    }
    let mut i: usize = 0;
    while i < 31
        invariant
            i <= 31,
            table@ == alphabet(),
            alphabet().len() == 31,
            forall|j: int| 0 <= j < i ==> alphabet()[j] != c,
        decreases 31 - i,
    {
        if table.get_char(i) == c {
            assert(alphabet()[i as int] == c);
            return true;
        }
        i = i + 1;
    }
    false
}

impl SsnPattern {
    /// The pattern with every position a wildcard.
    pub fn new() -> (p: SsnPattern)
        ensures
            p == (SsnPattern {
                d1: None,
                d2: None,
                m1: None,
                m2: None,
                y1: None,
                y2: None,
                sep: None,
                i1: None,
                i2: None,
                i3: None,
                check: None,
            }),
    {
        SsnPattern {
            d1: None,
            d2: None,
            m1: None,
            m2: None,
            y1: None,
            y2: None,
            sep: None,
            i1: None,
            i2: None,
            i3: None,
            check: None,
        }
    }

    /// Reads the digit position `index` of a pattern text.
    pub fn parse_char(chars: &str, index: usize) -> (r: Result<Option<u8>, ParseError>)
        requires
            index < chars@.len(),
            index < 11,
        ensures
            r == digit_slot(chars@[index as int], index as int),
    {
        let c = chars.get_char(index);
        if c == '?' {
            Ok(None)
        } else {
            match read_digit(c) {
                Some(n) => Ok(Some(n as u8)),
                None => Err(ParseError::Syntax("Date not integer", index, index + 1)),
            }
        }
    }

    /// Parses a pattern text: eleven characters laid out as a code, `?`
    /// standing for any character.
    pub fn parse(p: &str) -> (r: Result<SsnPattern, ParseError>)
        ensures
            r == spec_parse_pattern(p@),
    {
        let len = p.unicode_len();
        if len != 11 {
            return Err(ParseError::Syntax("Invalid length", 0, len));
        }
        let d1 = SsnPattern::parse_char(p, 0)?;
        let d2 = SsnPattern::parse_char(p, 1)?;
        let m1 = SsnPattern::parse_char(p, 2)?;
        let m2 = SsnPattern::parse_char(p, 3)?;
        let y1 = SsnPattern::parse_char(p, 4)?;
        let y2 = SsnPattern::parse_char(p, 5)?;
        let s = p.get_char(6);
        let sep = if s == '?' {
            None
        } else if from_separator(&s).is_ok() {
            Some(s)
        } else {
            return Err(ParseError::Syntax("Invalid separator character", 6, 7));
        };
        let i1 = SsnPattern::parse_char(p, 7)?;
        let i2 = SsnPattern::parse_char(p, 8)?;
        let i3 = SsnPattern::parse_char(p, 9)?;
        let c = p.get_char(10);
        let check = if c == '?' {
            None
        } else if is_check_symbol(c) {
            Some(c)
        } else {
            return Err(ParseError::Syntax("Invalid checksum character", 10, 11));
        };
        let pattern = SsnPattern { d1, d2, m1, m2, y1, y2, sep, i1, i2, i3, check };
        assert(pattern == pattern_of(p@));
        match (d1, d2, m1, m2, y1, sep) {
            (Some(0), Some(0), _, _, _, _) => {
                return Err(ParseError::Day("Invalid day too small", 0, 2));
            },
            (Some(a), Some(b), _, _, _, _) if a * 10 + b > 31 => {
                return Err(ParseError::Day("Invalid day too large", 0, 2));
            },
            (_, _, Some(0), Some(0), _, _) => {
                return Err(ParseError::Month("Invalid month too small", 2, 4));
            },
            (_, _, _, _, Some(y), Some(s)) if y < 5 && matches!(from_separator(&s), Ok(1800)) => {
                return Err(ParseError::Day("Invalid year before 1850", 4, 7));
            },
            _ => {},
        }
        Ok(pattern)
    }
}

} // verus!

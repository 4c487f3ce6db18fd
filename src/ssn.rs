//! The identity code itself: its decoded record, the strict validator and
//! the rendering of a code from its fields.
use crate::calendar::{days_in_month, month_length};
use crate::codec::{
    check_char, checksum, century_of, digit_char, digit_value, from_separator, is_digit,
    read_digit, string_of, to_digit_char,
};
use crate::error::ParseError;
use vstd::prelude::*;
use vstd::string::StrSliceExecFns;

verus! {

/// Legacy two-valued gender, given by the parity of the individual number.
#[derive(Copy, Clone, Debug, PartialEq, Eq, Structural)]
pub enum Gender {
    Female,
    Male,
}

/// The birth date and gender that a valid code stands for.
#[derive(Copy, Clone, Debug, PartialEq, Eq, Structural)]
pub struct Ssn {
    pub day: usize,
    pub month: usize,
    pub year: usize,
    pub gender: Gender,
}

/// Even individual numbers are female, odd ones male.
pub open spec fn gender_of(identifier: int) -> Gender {
    if identifier % 2 == 0 {
        Gender::Female
    } else {
        Gender::Male
    }
}

/// A record that some code stands for: a real date from 1850 to 2099.
pub open spec fn valid_record(r: Ssn) -> bool {
    &&& 1 <= r.month <= 12
    &&& 1850 <= r.year <= 2099
    &&& 1 <= r.day <= month_length(r.month as int, r.year as int)
}

/// Whether the characters `[lo, hi)` of `s` are all decimal digits.
pub open spec fn all_digits(s: Seq<char>, lo: int, hi: int) -> bool {
    forall|i: int| lo <= i < hi ==> is_digit(#[trigger] s[i])
}

/// The two-digit number at `i`.
pub open spec fn two_digits(s: Seq<char>, i: int) -> int {
    10 * digit_value(s[i]) + digit_value(s[i + 1])
}

/// The three-digit number at `i`.
pub open spec fn three_digits(s: Seq<char>, i: int) -> int {
    100 * digit_value(s[i]) + 10 * digit_value(s[i + 1]) + digit_value(s[i + 2])
}

/// The nine digits that the check character is computed from: the date
/// `ddmmyy` followed by the individual number.
pub open spec fn check_number(day: int, month: int, year_of_century: int, identifier: int) -> int {
    day * 10000000 + month * 100000 + year_of_century * 1000 + identifier
}

/// The text of a code: `DDMMYY`, the marker, the zero-padded individual
/// number and its check character.
pub open spec fn code_text(
    day: int,
    month: int,
    year_of_century: int,
    separator: char,
    identifier: int,
) -> Seq<char> {
    seq![
        digit_char(day / 10),
        digit_char(day % 10),
        digit_char(month / 10),
        digit_char(month % 10),
        digit_char(year_of_century / 10),
        digit_char(year_of_century % 10),
        separator,
        digit_char(identifier / 100),
        digit_char(identifier / 10 % 10),
        digit_char(identifier % 10),
        check_char(check_number(day, month, year_of_century, identifier)),
    ]
}

/// What validating `s` gives: the first rule that `s` breaks, in the order
/// length, marker, date digits, month, year, day, individual number, check
/// character; else the record.
pub open spec fn spec_parse(s: Seq<char>) -> Result<Ssn, ParseError> {
    if s.len() != 11 {
        Err(ParseError::Syntax("Invalid length", 0, s.len() as usize))
    } else if century_of(s[6]) is None {
        Err(ParseError::Syntax("Invalid separator", 6, 7))
    } else if !all_digits(s, 0, 6) {
        Err(ParseError::Syntax("Date not integer", 0, 6))
    } else if !(1 <= two_digits(s, 2) <= 12) {
        Err(ParseError::Month("Invalid month number", 2, 4))
    } else if two_digits(s, 4) + century_of(s[6])->0 < 1850 {
        Err(ParseError::Day("Invalid year before 1850", 4, 6))
    } else if !(1 <= two_digits(s, 0) <= month_length(
        two_digits(s, 2),
        two_digits(s, 4) + century_of(s[6])->0,
    )) {
        Err(ParseError::Day("Invalid day number", 0, 2))
    } else if !all_digits(s, 7, 10) {
        Err(ParseError::Identifier("Invalid identifier", 7, 10))
    } else if !(2 <= three_digits(s, 7) <= 899) {
        Err(ParseError::Identifier("Invalid identifier number", 10, 11))
    } else if s[10] != check_char(
        check_number(two_digits(s, 0), two_digits(s, 2), two_digits(s, 4), three_digits(s, 7)),
    ) {
        Err(
            ParseError::Checksum(
                "Incorrect checksum",
                10,
                11,
                check_char(
                    check_number(
                        two_digits(s, 0),
                        two_digits(s, 2),
                        two_digits(s, 4),
                        three_digits(s, 7),
                    ),
                ),
            ),
        )
    } else {
        Ok(
            Ssn {
                day: two_digits(s, 0) as usize,
                month: two_digits(s, 2) as usize,
                year: (two_digits(s, 4) + century_of(s[6])->0) as usize,
                gender: gender_of(three_digits(s, 7)),
            },
        )
    }
}

/// The digit at position `i` of `s`, if it is one.
fn digit_at(s: &str, i: usize) -> (r: Option<usize>)
    requires
        i < s@.len(),
    ensures
        is_digit(s@[i as int]) ==> r == Some(digit_value(s@[i as int]) as usize),
        !is_digit(s@[i as int]) ==> r is None,
{
    read_digit(s.get_char(i))
}

/// Renders a code from its fields, computing the check character.
pub fn format_code(
    day: usize,
    month: usize,
    year_of_century: usize,
    separator: char,
    identifier: usize,
) -> (r: String)
    requires
        day < 100,
        month < 100,
        year_of_century < 100,
        identifier < 1000,
    ensures
        r@ == code_text(
            day as int,
            month as int,
            year_of_century as int,
            separator,
            identifier as int,
        ),
{
    let mut chars: Vec<char> = Vec::new();
    chars.push(to_digit_char(day / 10));
    chars.push(to_digit_char(day % 10));
    chars.push(to_digit_char(month / 10));
    chars.push(to_digit_char(month % 10));
    chars.push(to_digit_char(year_of_century / 10));
    chars.push(to_digit_char(year_of_century % 10));
    chars.push(separator);
    chars.push(to_digit_char(identifier / 100));
    chars.push(to_digit_char(identifier / 10 % 10));
    chars.push(to_digit_char(identifier % 10));
    chars.push(
        checksum(day * 10000000 + month * 100000 + year_of_century * 1000 + identifier),
    );
    let r = string_of(&chars);
    assert(r@ =~= code_text(
        day as int,
        month as int,
        year_of_century as int,
        separator,
        identifier as int,
    ));
    r
}

/// Digits read back as the values they were written from.
pub proof fn lemma_digit_char(d: int)
    requires
        0 <= d <= 9,
    ensures
        is_digit(digit_char(d)),
        digit_value(digit_char(d)) == d,
{
}

/// Rendering a valid record with a marker of its century and an individual
/// number of its gender, then validating the text, gives the record back.
pub proof fn lemma_round_trip(record: Ssn, separator: char, identifier: int)
    requires
        valid_record(record),
        century_of(separator) == Some(record.year / 100 * 100),
        2 <= identifier <= 899,
        gender_of(identifier) == record.gender,
    ensures
        spec_parse(
            code_text(
                record.day as int,
                record.month as int,
                record.year as int % 100,
                separator,
                identifier,
            ),
        ) == Ok::<Ssn, ParseError>(record),
{
    let day = record.day as int;
    let month = record.month as int;
    let yy = record.year as int % 100;
    let s = code_text(day, month, yy, separator, identifier);
    lemma_digit_char(day / 10);
    lemma_digit_char(day % 10);
    lemma_digit_char(month / 10);
    lemma_digit_char(month % 10);
    lemma_digit_char(yy / 10);
    lemma_digit_char(yy % 10);
    lemma_digit_char(identifier / 100);
    lemma_digit_char(identifier / 10 % 10);
    lemma_digit_char(identifier % 10);
    assert(two_digits(s, 0) == day);
    assert(two_digits(s, 2) == month);
    assert(two_digits(s, 4) == yy);
    assert(three_digits(s, 7) == identifier);
    assert(all_digits(s, 0, 6));
    assert(all_digits(s, 7, 10));
    assert(yy + century_of(s[6])->0 == record.year);
}

/// The individual numbers 001 and 900 are rejected whatever the rest of
/// the code.
pub proof fn lemma_reserved_identifiers_rejected(s: Seq<char>)
    requires
        (s[7] == '0' && s[8] == '0' && s[9] == '1') || (s[7] == '9' && s[8] == '0' && s[9]
            == '0'),
    ensures
        spec_parse(s) is Err,
{
}

/// The individual numbers 002 and 899, the lowest and highest in use, are
/// accepted on any valid date with a marker of its century and the right
/// check character.
pub proof fn lemma_boundary_identifiers_accepted(
    day: usize,
    month: usize,
    year: usize,
    separator: char,
)
    requires
        valid_record(Ssn { day, month, year, gender: Gender::Female }),
        century_of(separator) == Some(year / 100 * 100),
    ensures
        spec_parse(code_text(day as int, month as int, year as int % 100, separator, 2))
            == Ok::<Ssn, ParseError>(Ssn { day, month, year, gender: Gender::Female }),
        spec_parse(code_text(day as int, month as int, year as int % 100, separator, 899))
            == Ok::<Ssn, ParseError>(Ssn { day, month, year, gender: Gender::Male }),
{
    lemma_round_trip(Ssn { day, month, year, gender: Gender::Female }, separator, 2);
    lemma_round_trip(Ssn { day, month, year, gender: Gender::Male }, separator, 899);
}

impl Ssn {
    /// Validates a code and decodes it.
    pub fn parse(ssn: &str) -> (r: Result<Ssn, ParseError>)
        ensures
            r == spec_parse(ssn@),
            ssn@.len() != 11 ==> r == Err::<Ssn, ParseError>(
                ParseError::Syntax("Invalid length", 0, ssn@.len() as usize),
            ),
            r matches Ok(record) ==> valid_record(record),
    {
        let len = ssn.unicode_len();
        if len != 11 {
            return Err(ParseError::Syntax("Invalid length", 0, len));
        }
        let separator = ssn.get_char(6);
        let century = match from_separator(&separator) {
            Ok(c) => c,
            Err(e) => return Err(e),
        };
        let date = match (
            digit_at(ssn, 0),
            digit_at(ssn, 1),
            digit_at(ssn, 2),
            digit_at(ssn, 3),
            digit_at(ssn, 4),
            digit_at(ssn, 5),
        ) {
            (Some(d1), Some(d2), Some(m1), Some(m2), Some(y1), Some(y2)) => {
                (d1 * 10 + d2, m1 * 10 + m2, y1 * 10 + y2)
            },
            _ => {
                assert(!all_digits(ssn@, 0, 6));
                return Err(ParseError::Syntax("Date not integer", 0, 6));
            },
        };
        let (day, month, year_of_century) = date;
        if month < 1 || month > 12 {
            return Err(ParseError::Month("Invalid month number", 2, 4));
        }
        let year = year_of_century + century;
        if year < 1850 {
            return Err(ParseError::Day("Invalid year before 1850", 4, 6));
        }
        if day < 1 || day > days_in_month(month, year) {
            return Err(ParseError::Day("Invalid day number", 0, 2));
        }
        let identifier = match (digit_at(ssn, 7), digit_at(ssn, 8), digit_at(ssn, 9)) {
            (Some(i1), Some(i2), Some(i3)) => i1 * 100 + i2 * 10 + i3,
            _ => {
                assert(!all_digits(ssn@, 7, 10));
                return Err(ParseError::Identifier("Invalid identifier", 7, 10));
            },
        };
        if identifier < 2 || identifier > 899 {
            return Err(ParseError::Identifier("Invalid identifier number", 10, 11));
        }
        let expected = checksum(
            day * 10000000 + month * 100000 + year_of_century * 1000 + identifier,
        );
        if ssn.get_char(10) != expected {
            return Err(ParseError::Checksum("Incorrect checksum", 10, 11, expected));
        }
        let gender = if identifier % 2 == 0 {
            Gender::Female
        } else {
            Gender::Male
        };
        Ok(Ssn { day, month, year, gender })
    }
}

} // verus!

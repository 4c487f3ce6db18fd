//! Generation of codes: at random, or matching a pattern by a search of its
//! shuffled space.
use crate::calendar::{days_in_month, month_length};
use crate::codec::{century_of, digit_value, is_digit, markers_of, to_separator};
use crate::domains::{
    century_allowed, decade_floor, digit_allowed, fits, number_allowed, separator_choices,
    separator_range, Candidate, Domains,
};
use crate::error::GenerateError;
use crate::pattern::{digit_fits, matches_pattern, SsnPattern};
use crate::radix::{digits_in_range, lemma_radix_encode, radix_value};
use crate::random::random_below;
use crate::ssn::{
    code_text, format_code, gender_of, lemma_digit_char, lemma_round_trip, spec_parse, two_digits,
    Ssn,
};
use vstd::prelude::*;

verus! {

/// Whether some valid code matches `p`.
pub open spec fn satisfiable(p: SsnPattern) -> bool {
    exists|code: Seq<char>| matches_pattern(p, code) && spec_parse(code) is Ok
}

/// `p` with its check character made a wildcard.
pub open spec fn without_check(p: SsnPattern) -> SsnPattern {
    SsnPattern { check: None, ..p }
}

/// The marker written for a point of `century`: the pattern's own, else the
/// marker of the century at `index` (modulo their number).
pub open spec fn marker_for(sep: Option<char>, century: int, index: int) -> char {
    separator_choices(sep, century)[index % separator_choices(sep, century).len() as int]
}

/// Every marker of a century stands for that century.
pub proof fn lemma_markers(century: int, i: int)
    requires
        century == 1800 || century == 1900 || century == 2000,
        0 <= i < markers_of(century).len(),
    ensures
        century_of(markers_of(century)[i]) == Some(century),
{
    // Index by index, so that each element of the literal list is seen.
    if century != 1800 {
        assert(i == 0 || i == 1 || i == 2 || i == 3 || i == 4 || i == 5);
    }
}

/// The marker chosen for an allowed century stands for that century.
pub proof fn lemma_marker_for(sep: Option<char>, century: int, index: int)
    requires
        century_allowed(sep, century),
        index >= 0,
    ensures
        century_of(marker_for(sep, century, index)) == Some(century),
{
    if sep is None {
        lemma_markers(century, index % markers_of(century).len() as int);
    } else {
        assert(index % 1 == 0);
    }
}

/// An accepted point of a space of `p`, written with a marker of its
/// century that `p` admits, is a valid code matching `p`.
pub proof fn lemma_accepted_code(p: SsnPattern, c: Candidate, separator: char)
    requires
        c.in_range(),
        c.accepted(p.check),
        century_allowed(p.sep, c.century as int),
        digit_allowed(p.y1, decade_floor(p.sep), 9, c.decade as int),
        digit_allowed(p.y2, 0, 9, c.year_digit as int),
        number_allowed(p.m1, p.m2, 1, 12, c.month as int),
        number_allowed(p.d1, p.d2, 1, 31, c.day as int),
        digit_allowed(p.i1, 0, 8, c.i1 as int),
        digit_allowed(p.i2, 0, 9, c.i2 as int),
        digit_allowed(p.i3, 0, 9, c.i3 as int),
        century_of(separator) == Some(c.century as int),
        p.sep matches Some(s) ==> separator == s,
    ensures
        matches_pattern(p, c.text(separator)),
        spec_parse(c.text(separator)) is Ok,
{
    let record = Ssn {
        day: c.day,
        month: c.month,
        year: c.year() as usize,
        gender: gender_of(c.identifier()),
    };
    assert(c.year() / 100 * 100 == c.century);
    assert(c.year() % 100 == c.year_of_century());
    lemma_round_trip(record, separator, c.identifier());
    assert(c.year_of_century() / 10 == c.decade);
    assert(c.year_of_century() % 10 == c.year_digit);
    assert(c.identifier() / 100 == c.i1);
    assert(c.identifier() / 10 % 10 == c.i2);
    assert(c.identifier() % 10 == c.i3);
}

/// Every valid code matching `p` is an accepted point of any space of `p`.
pub proof fn lemma_complete(d: &Domains, p: SsnPattern, code: Seq<char>)
    requires
        d.wf(p),
        matches_pattern(p, code),
        spec_parse(code) is Ok,
    ensures
        exists|k: nat| k < d.total() && (#[trigger] d.candidate(k)).accepted(p.check),
{
    let century = century_of(code[6])->0;
    let c = Candidate {
        century: century as usize,
        decade: digit_value(code[4]) as usize,
        year_digit: digit_value(code[5]) as usize,
        month: two_digits(code, 2) as usize,
        day: two_digits(code, 0) as usize,
        i1: digit_value(code[7]) as usize,
        i2: digit_value(code[8]) as usize,
        i3: digit_value(code[9]) as usize,
    };
    assert(is_digit(code[0]) && is_digit(code[1]) && is_digit(code[2]) && is_digit(code[3]));
    assert(is_digit(code[4]) && is_digit(code[5]));
    assert(is_digit(code[7]) && is_digit(code[8]) && is_digit(code[9]));
    assert forall|f: Option<u8>, i: int| 0 <= i < 11 && is_digit(code[i]) && #[trigger] digit_fits(
        f,
        code[i],
    ) implies fits(f, digit_value(code[i])) by {
        if f is Some {
            lemma_digit_char(digit_value(code[i]));
        }
    }
    assert(digit_fits(p.d1, code[0]) && digit_fits(p.d2, code[1]));
    assert(digit_fits(p.m1, code[2]) && digit_fits(p.m2, code[3]));
    assert(digit_fits(p.y1, code[4]) && digit_fits(p.y2, code[5]));
    assert(digit_fits(p.i1, code[7]) && digit_fits(p.i2, code[8]) && digit_fits(p.i3, code[9]));
    assert(month_length(c.month as int, c.year()) <= 31);
    assert(d.centuries@.contains(c.century));
    assert(d.decades@.contains(c.decade));
    assert(d.year_digits@.contains(c.year_digit));
    assert(d.months@.contains(c.month));
    assert(d.days@.contains(c.day));
    assert(d.i1s@.contains(c.i1));
    assert(d.i2s@.contains(c.i2));
    assert(d.i3s@.contains(c.i3));
    let x7 = choose|i: int| 0 <= i < d.centuries@.len() && d.centuries@[i] == c.century;
    let x6 = choose|i: int| 0 <= i < d.decades@.len() && d.decades@[i] == c.decade;
    let x5 = choose|i: int| 0 <= i < d.year_digits@.len() && d.year_digits@[i] == c.year_digit;
    let x4 = choose|i: int| 0 <= i < d.months@.len() && d.months@[i] == c.month;
    let x3 = choose|i: int| 0 <= i < d.days@.len() && d.days@[i] == c.day;
    let x2 = choose|i: int| 0 <= i < d.i1s@.len() && d.i1s@[i] == c.i1;
    let x1 = choose|i: int| 0 <= i < d.i2s@.len() && d.i2s@[i] == c.i2;
    let x0 = choose|i: int| 0 <= i < d.i3s@.len() && d.i3s@[i] == c.i3;
    let idx = seq![
        x0 as nat,
        x1 as nat,
        x2 as nat,
        x3 as nat,
        x4 as nat,
        x5 as nat,
        x6 as nat,
        x7 as nat,
    ];
    assert(digits_in_range(idx, d.sizes()));
    lemma_radix_encode(idx, d.sizes());
    let k = radix_value(idx, d.sizes());
    assert(d.candidate(k) == c);
    assert(c.accepted(p.check));
}

/// The code of the first accepted point of `d`, if there is one, written
/// with the marker of `p` or else the marker of its century at `marker`.
pub fn first_code(d: &Domains, p: &SsnPattern, check: Option<char>, marker: usize) -> (r: Result<
    String,
    GenerateError,
>)
    requires
        d.wf(*p),
    ensures
        r is Err <==> forall|k: nat| k < d.total() ==> !#[trigger] d.candidate(k).accepted(check),
        r matches Ok(s) ==> exists|k: nat|
            k < d.total() && (#[trigger] d.candidate(k)).accepted(check) && (forall|j: nat|
                j < k ==> !#[trigger] d.candidate(j).accepted(check)) && s@ == d.candidate(k).text(
                marker_for(p.sep, d.candidate(k).century as int, marker as int),
            ),
{
    let (total, _) = d.counts();
    match d.find(p, check, 0, total) {
        Some(k) => {
            proof {
                d.lemma_candidate_in_range(*p, k as nat);
            }
            let c = d.candidate_at(k);
            let separators = separator_range(&p.sep, c.century);
            let separator = separators[marker % separators.len()];
            Ok(
                format_code(
                    c.day,
                    c.month,
                    10 * c.decade + c.year_digit,
                    separator,
                    100 * c.i1 + 10 * c.i2 + c.i3,
                ),
            )
        },
        None => Err(GenerateError),
    }
}

/// The code written for an accepted point of a space of `p` is a valid
/// code matching `q`, where `q` is `p` or `p` without its check character.
pub(crate) proof fn lemma_found_code(d: &Domains, p: SsnPattern, q: SsnPattern, k: nat, marker: int)
    requires
        d.wf(p),
        q == p || q == without_check(p),
        k < d.total(),
        d.candidate(k).accepted(q.check),
        marker >= 0,
    ensures
        matches_pattern(q, d.candidate(k).text(marker_for(p.sep, d.candidate(k).century as int, marker))),
        spec_parse(d.candidate(k).text(marker_for(p.sep, d.candidate(k).century as int, marker))) is Ok,
{
    let c = d.candidate(k);
    d.lemma_candidate_in_range(p, k);
    let sep = marker_for(p.sep, c.century as int, marker);
    lemma_marker_for(p.sep, c.century as int, marker);
    lemma_accepted_code(q, c, sep);
}

/// Proves what a search of a space of `p` gives: a valid code matching `q`
/// when it finds one, and failure only where no valid code matches `q`.
proof fn lemma_search_outcome(
    d: &Domains,
    p: SsnPattern,
    q: SsnPattern,
    marker: usize,
    r: Result<String, GenerateError>,
)
    requires
        d.wf(p),
        q == p || q == without_check(p),
        r is Err <==> forall|k: nat| k < d.total() ==> !#[trigger] d.candidate(k).accepted(q.check),
        r matches Ok(s) ==> exists|k: nat|
            k < d.total() && (#[trigger] d.candidate(k)).accepted(q.check) && s@ == d.candidate(
                k,
            ).text(marker_for(p.sep, d.candidate(k).century as int, marker as int)),
    ensures
        r matches Ok(s) ==> matches_pattern(q, s@) && spec_parse(s@) is Ok,
        r is Ok <==> satisfiable(q),
{
    assert(d.wf(q));
    if let Ok(s) = r {
        let k = choose|k: nat|
            k < d.total() && (#[trigger] d.candidate(k)).accepted(q.check) && s@ == d.candidate(
                k,
            ).text(marker_for(p.sep, d.candidate(k).century as int, marker as int));
        lemma_found_code(d, p, q, k, marker as int);
    } else {
        if satisfiable(q) {
            let code = choose|code: Seq<char>| matches_pattern(q, code) && spec_parse(code) is Ok;
            lemma_complete(d, q, code);
        }
    }
}

/// Generates a valid code that matches `pattern`, the check character
/// included, by a search of the pattern's shuffled space.
pub fn generate_by_pattern_with_fixed_checksum(pattern: &SsnPattern) -> (r: Result<
    String,
    GenerateError,
>)
    ensures
        r matches Ok(s) ==> matches_pattern(*pattern, s@) && spec_parse(s@) is Ok,
        r is Ok <==> satisfiable(*pattern),
{
    let d = Domains::shuffled(pattern);
    let marker = random_below(6);
    let r = first_code(&d, pattern, pattern.check, marker);
    proof {
        lemma_search_outcome(&d, *pattern, *pattern, marker, r);
    }
    r
}

/// Generates a valid code that matches `pattern` in every position but the
/// check character, which is computed.
pub fn generate_by_pattern_with_any_checksum(pattern: &SsnPattern) -> (r: Result<
    String,
    GenerateError,
>)
    ensures
        r matches Ok(s) ==> matches_pattern(without_check(*pattern), s@) && spec_parse(s@) is Ok,
        r is Ok <==> satisfiable(without_check(*pattern)),
{
    let d = Domains::shuffled(pattern);
    let marker = random_below(6);
    let r = first_code(&d, pattern, None, marker);
    proof {
        lemma_search_outcome(&d, *pattern, without_check(*pattern), marker, r);
    }
    r
}

/// A pattern that fixes a date which does not exist (a day past the end of
/// its month in its year, the century given by the marker) is matched by
/// no valid code.
pub proof fn lemma_impossible_date(p: SsnPattern)
    requires
        p.d1 matches Some(v) && v <= 9,
        p.d2 matches Some(v) && v <= 9,
        p.m1 matches Some(v) && v <= 9,
        p.m2 matches Some(v) && v <= 9,
        p.y1 matches Some(v) && v <= 9,
        p.y2 matches Some(v) && v <= 9,
        p.sep matches Some(s) && century_of(s) is Some,
        10 * p.d1->0 + p.d2->0 > month_length(
            10 * p.m1->0 + p.m2->0,
            century_of(p.sep->0)->0 + 10 * p.y1->0 + p.y2->0,
        ),
    ensures
        !satisfiable(p),
{
    if satisfiable(p) {
        let code = choose|code: Seq<char>| matches_pattern(p, code) && spec_parse(code) is Ok;
        lemma_digit_char(p.d1->0 as int);
        lemma_digit_char(p.d2->0 as int);
        lemma_digit_char(p.m1->0 as int);
        lemma_digit_char(p.m2->0 as int);
        lemma_digit_char(p.y1->0 as int);
        lemma_digit_char(p.y2->0 as int);
        assert(two_digits(code, 0) == 10 * p.d1->0 + p.d2->0);
        assert(two_digits(code, 2) == 10 * p.m1->0 + p.m2->0);
        assert(two_digits(code, 4) == 10 * p.y1->0 + p.y2->0);
    }
}

impl Ssn {
    /// Generates a random valid code: a date from 1890 to 2015, a marker of
    /// its century and an individual number from 002 to 899, never one of
    /// the reserved numbers from 900 on.
    pub fn generate() -> (r: String)
        ensures
            spec_parse(r@) is Ok,
            r@[7] != '9',
            exists|day: int, month: int, year: int, separator: char, identifier: int|
                1890 <= year <= 2015 && 1 <= month <= 12 && 1 <= day <= month_length(month, year)
                    && century_of(separator) == Some(year / 100 * 100) && 2 <= identifier <= 899
                    && #[trigger] code_text(day, month, year % 100, separator, identifier) == r@,
    {
        let year = 1890 + random_below(126);
        let month = 1 + random_below(12);
        let day = 1 + random_below(days_in_month(month, year));
        let separator = match to_separator(year) {
            Ok(c) => c,
            Err(_) => {
                assert(false);
                '-'
            },
        };
        let identifier = 2 + random_below(898);
        proof {
            lemma_round_trip(
                Ssn { day, month, year, gender: gender_of(identifier as int) },
                separator,
                identifier as int,
            );
        }
        let r = format_code(day, month, year % 100, separator, identifier);
        assert(r@ == code_text(
            day as int,
            month as int,
            year as int % 100,
            separator,
            identifier as int,
        ));
        r
    }

    /// Generates a valid code matching `pattern`; fails only where no valid
    /// code matches it.
    pub fn generate_by_pattern(pattern: &SsnPattern) -> (r: Result<String, GenerateError>)
        ensures
            r matches Ok(s) ==> matches_pattern(*pattern, s@) && spec_parse(s@) is Ok,
            r is Ok <==> satisfiable(*pattern),
    {
        match pattern.check {
            Some(_) => generate_by_pattern_with_fixed_checksum(pattern),
            None => {
                assert(without_check(*pattern) == *pattern);
                generate_by_pattern_with_any_checksum(pattern)
            },
        }
    }
}

} // verus!

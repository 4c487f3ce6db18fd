use hetu::calendar::{days_in_month, is_leap_year};
use hetu::codec::{checksum, from_separator, to_separator};
use hetu::domains::Domains;
use hetu::generate::first_code;
use hetu::pattern::is_check_symbol;
use hetu::ssn::format_code;
use hetu::{
    generate_by_pattern_with_any_checksum, generate_by_pattern_with_fixed_checksum, index_arrows,
    ErrorIndexRange, Gender, GenerateError, ParseError, Ssn, SsnPattern,
};
use std::collections::HashSet;

fn matches_template(template: &str, code: &str) -> bool {
    template.len() == code.len()
        && template
            .chars()
            .zip(code.chars())
            .all(|(t, c)| t == '?' || t == c)
}

#[test]
fn leap_years_follow_the_gregorian_rule() {
    assert!(is_leap_year(1996));
    assert!(!is_leap_year(1900));
    assert!(is_leap_year(2000));
    assert!(!is_leap_year(2019));
    assert_eq!(days_in_month(2, 1900), 28);
    assert_eq!(days_in_month(2, 2000), 29);
    assert_eq!(days_in_month(2, 1996), 29);
    assert_eq!(days_in_month(4, 1996), 30);
    assert_eq!(days_in_month(12, 1996), 31);
}

#[test]
fn checksum_indexes_the_alphabet_by_remainder() {
    assert_eq!(checksum(10195433), 'X');
    assert_eq!(checksum(10197100), 'P');
    assert_eq!(checksum(0), '0');
    assert_eq!(checksum(30), 'Y');
    assert_eq!(checksum(31), '0');
    assert_eq!(checksum(16), 'H');
}

#[test]
fn check_symbols_exclude_ambiguous_letters() {
    assert!(is_check_symbol('Y'));
    assert!(is_check_symbol('7'));
    assert!(!is_check_symbol('G'));
    assert!(!is_check_symbol('O'));
    assert!(!is_check_symbol('?'));
}

#[test]
fn separators_decode_to_centuries() {
    assert_eq!(from_separator(&'+'), Ok(1800));
    assert_eq!(from_separator(&'-'), Ok(1900));
    assert_eq!(from_separator(&'U'), Ok(1900));
    assert_eq!(from_separator(&'A'), Ok(2000));
    assert_eq!(from_separator(&'F'), Ok(2000));
    assert_eq!(
        from_separator(&'G'),
        Err(ParseError::Syntax("Invalid separator", 6, 7))
    );
}

#[test]
fn separators_are_drawn_from_the_century() {
    for _ in 0..100 {
        assert_eq!(to_separator(1850), Ok('+'));
        assert_eq!(from_separator(&to_separator(1999).unwrap()), Ok(1900));
        assert_eq!(from_separator(&to_separator(2001).unwrap()), Ok(2000));
    }
    assert_eq!(to_separator(1799), Err(GenerateError));
    assert_eq!(to_separator(2100), Err(GenerateError));
}

#[test]
fn format_code_writes_fields_and_check_character() {
    assert_eq!(format_code(1, 1, 95, '+', 433), "010195+433X");
    assert_eq!(format_code(11, 11, 11, '-', 115), "111111-115H");
    assert_eq!(format_code(31, 12, 99, '-', 2), "311299-0029");
}

#[test]
fn rendered_records_parse_back() {
    let cases = [
        (1usize, 1usize, 1895usize, '+', 433usize),
        (29, 2, 1996, '-', 780),
        (29, 2, 2000, 'A', 248),
        (31, 12, 2099, 'F', 899),
        (1, 1, 1850, '+', 2),
        (30, 4, 1950, 'Y', 101),
    ];
    for &(day, month, year, sep, id) in cases.iter() {
        let code = format_code(day, month, year % 100, sep, id);
        let gender = if id % 2 == 0 { Gender::Female } else { Gender::Male };
        assert_eq!(
            Ssn::parse(&code),
            Ok(Ssn {
                day,
                month,
                year,
                gender
            })
        );
    }
}

#[test]
fn wrong_lengths_are_syntax_errors_over_the_whole_text() {
    for text in ["", "0", "010195+433", "010195+433XX", "ääääääääääää"].iter() {
        let n = text.chars().count();
        assert_eq!(
            Ssn::parse(text),
            Err(ParseError::Syntax("Invalid length", 0, n))
        );
    }
}

#[test]
fn each_rule_has_its_error() {
    assert_eq!(
        Ssn::parse("010195+433Y"),
        Err(ParseError::Checksum("Incorrect checksum", 10, 11, 'X'))
    );
    assert_eq!(
        Ssn::parse("010195+4a3X"),
        Err(ParseError::Identifier("Invalid identifier", 7, 10))
    );
    assert_eq!(
        Ssn::parse("010140+123X"),
        Err(ParseError::Day("Invalid year before 1850", 4, 6))
    );
    assert_eq!(
        Ssn::parse("000195+433X"),
        Err(ParseError::Day("Invalid day number", 0, 2))
    );
    assert_eq!(
        Ssn::parse("010095+433X"),
        Err(ParseError::Month("Invalid month number", 2, 4))
    );
    assert_eq!(
        Ssn::parse("+10195+433X"),
        Err(ParseError::Syntax("Date not integer", 0, 6))
    );
}

#[test]
fn reserved_identifiers_are_rejected() {
    assert_eq!(
        Ssn::parse("010101-001S"),
        Err(ParseError::Identifier("Invalid identifier number", 10, 11))
    );
    assert_eq!(
        Ssn::parse("010101-900S"),
        Err(ParseError::Identifier("Invalid identifier number", 10, 11))
    );
    assert_eq!(
        Ssn::parse("010101-000S"),
        Err(ParseError::Identifier("Invalid identifier number", 10, 11))
    );
}

#[test]
fn boundary_identifiers_are_accepted() {
    assert_eq!(
        Ssn::parse("010101-002S"),
        Ok(Ssn {
            day: 1,
            month: 1,
            year: 1901,
            gender: Gender::Female
        })
    );
    assert_eq!(
        Ssn::parse("010101-899P"),
        Ok(Ssn {
            day: 1,
            month: 1,
            year: 1901,
            gender: Gender::Male
        })
    );
}

#[test]
fn generated_codes_are_valid() {
    for _ in 0..2000 {
        let code = Ssn::generate();
        let record = Ssn::parse(&code).unwrap();
        assert!(record.year >= 1890 && record.year <= 2015);
        assert_ne!(code.chars().nth(7), Some('9'));
    }
}

#[test]
fn fixed_checksum_reachable_by_the_wildcard() {
    let pattern = SsnPattern::parse("111111-11?H").unwrap();
    for _ in 0..20 {
        let code = Ssn::generate_by_pattern(&pattern).unwrap();
        assert!(matches_template("111111-11?H", &code));
        assert!(Ssn::parse(&code).is_ok());
        assert_eq!(code, "111111-115H");
    }
}

#[test]
fn fixed_checksum_out_of_reach_fails() {
    let pattern = SsnPattern::parse("111111-115A").unwrap();
    assert_eq!(Ssn::generate_by_pattern(&pattern), Err(GenerateError));
    assert_eq!(
        generate_by_pattern_with_fixed_checksum(&pattern),
        Err(GenerateError)
    );
    assert_eq!(
        generate_by_pattern_with_any_checksum(&pattern),
        Ok(String::from("111111-115H"))
    );
}

#[test]
fn impossible_dates_fail() {
    for text in ["290299-????", "290299-???A", "310499-????", "??13???????", "290200-????"].iter() {
        let pattern = SsnPattern::parse(text).unwrap();
        assert_eq!(Ssn::generate_by_pattern(&pattern), Err(GenerateError));
    }
    let pattern = SsnPattern::parse("290200A????").unwrap();
    let code = Ssn::generate_by_pattern(&pattern).unwrap();
    assert!(Ssn::parse(&code).is_ok());
}

#[test]
fn hand_built_patterns_never_panic() {
    let mut pattern = SsnPattern::new();
    pattern.d1 = Some(200);
    assert_eq!(Ssn::generate_by_pattern(&pattern), Err(GenerateError));
    let mut pattern = SsnPattern::new();
    pattern.sep = Some('Q');
    assert_eq!(Ssn::generate_by_pattern(&pattern), Err(GenerateError));
    let mut pattern = SsnPattern::new();
    pattern.m1 = Some(2);
    assert_eq!(Ssn::generate_by_pattern(&pattern), Err(GenerateError));
    let mut pattern = SsnPattern::new();
    pattern.i1 = Some(9);
    assert_eq!(Ssn::generate_by_pattern(&pattern), Err(GenerateError));
}

#[test]
fn generated_codes_match_their_pattern() {
    for text in ["???????????", "??02??-????", "29029??????", "??????+???Y", "3112??A????"].iter() {
        let pattern = SsnPattern::parse(text).unwrap();
        for _ in 0..20 {
            let code = Ssn::generate_by_pattern(&pattern).unwrap();
            assert!(matches_template(text, &code), "{} does not match {}", code, text);
            assert!(Ssn::parse(&code).is_ok());
        }
    }
}

#[test]
fn enumerator_cycles_without_repeats() {
    let pattern = SsnPattern::parse("?10197-100?").unwrap();
    let mut iter = Ssn::iter(&pattern);
    let first: Vec<String> = (0..4).map(|_| iter.next().unwrap()).collect();
    let distinct: HashSet<&String> = first.iter().collect();
    assert_eq!(distinct.len(), 4);
    for code in first.iter() {
        assert!(Ssn::parse(code).is_ok());
        assert!(matches_template("?10197-100?", code));
    }
    let again: Vec<String> = (0..4).map(|_| iter.next().unwrap()).collect();
    assert_eq!(first, again);
}

#[test]
fn wildcard_enumerator_yields_distinct_valid_codes() {
    let pattern = SsnPattern::parse("???????????").unwrap();
    let mut iter = Ssn::iter(&pattern);
    let mut seen = HashSet::new();
    for _ in 0..3000 {
        let code = iter.next().unwrap();
        assert!(Ssn::parse(&code).is_ok());
        assert!(seen.insert(code));
    }
}

#[test]
fn enumerator_of_an_empty_pattern_ends() {
    let pattern = SsnPattern::parse("290299-????").unwrap();
    let mut iter = Ssn::iter(&pattern);
    assert_eq!(iter.next(), None);
}

#[test]
fn ordered_search_finds_the_first_match() {
    let pattern = SsnPattern::parse("010197-10??").unwrap();
    let domains = Domains::new(&pattern);
    let (total, _) = domains.counts();
    assert_eq!(total, 10);
    assert_eq!(domains.find(&pattern, None, 0, total), Some(0));
    assert_eq!(
        first_code(&domains, &pattern, None, 0),
        Ok(String::from("010197-100P"))
    );
    assert_eq!(
        first_code(&domains, &pattern, Some('R'), 0),
        Ok(String::from("010197-101R"))
    );
    let pattern = SsnPattern::parse("010197?100?").unwrap();
    let domains = Domains::new(&pattern);
    assert_eq!(
        first_code(&domains, &pattern, None, 1),
        Ok(String::from("010197+100P"))
    );
    let pattern = SsnPattern::parse("010110?100?").unwrap();
    let domains = Domains::new(&pattern);
    assert_eq!(
        first_code(&domains, &pattern, None, 1),
        Ok(String::from("010110Y1008"))
    );
    assert_eq!(
        first_code(&domains, &pattern, None, 7),
        Ok(String::from("010110Y1008"))
    );
}

#[test]
fn shuffled_domains_permute_the_ordered_ones() {
    let pattern = SsnPattern::parse("??????-????").unwrap();
    let ordered = Domains::new(&pattern);
    let shuffled = Domains::shuffled(&pattern);
    let sorted = |v: &Vec<usize>| {
        let mut w = v.clone();
        w.sort();
        w
    };
    assert_eq!(sorted(&shuffled.days), ordered.days);
    assert_eq!(sorted(&shuffled.months), ordered.months);
    assert_eq!(sorted(&shuffled.decades), ordered.decades);
    assert_eq!(ordered.days.len(), 31);
    assert_eq!(ordered.months, (1..13).collect::<Vec<usize>>());
    assert_eq!(ordered.centuries, vec![1900]);
    assert_eq!(ordered.i1s, (0..9).collect::<Vec<usize>>());
    let orders: HashSet<Vec<usize>> = (0..20)
        .map(|_| Domains::shuffled(&pattern).days)
        .collect();
    assert!(orders.len() > 1);
}

#[test]
fn pattern_parse_reads_every_field() {
    let pattern = SsnPattern::parse("1?3456-78?A").unwrap();
    assert_eq!(pattern.d1, Some(1));
    assert_eq!(pattern.d2, None);
    assert_eq!(pattern.m1, Some(3));
    assert_eq!(pattern.m2, Some(4));
    assert_eq!(pattern.y1, Some(5));
    assert_eq!(pattern.y2, Some(6));
    assert_eq!(pattern.sep, Some('-'));
    assert_eq!(pattern.i1, Some(7));
    assert_eq!(pattern.i2, Some(8));
    assert_eq!(pattern.i3, None);
    assert_eq!(pattern.check, Some('A'));
    assert_eq!(SsnPattern::parse("???????????").unwrap(), SsnPattern::new());
}

#[test]
fn pattern_parse_errors() {
    assert_eq!(
        SsnPattern::parse("??????-???"),
        Err(ParseError::Syntax("Invalid length", 0, 10))
    );
    assert_eq!(
        SsnPattern::parse("?x????-????"),
        Err(ParseError::Syntax("Date not integer", 1, 2))
    );
    assert_eq!(
        SsnPattern::parse("??????_????"),
        Err(ParseError::Syntax("Invalid separator character", 6, 7))
    );
    assert_eq!(
        SsnPattern::parse("??????-??x?"),
        Err(ParseError::Syntax("Date not integer", 9, 10))
    );
    assert_eq!(
        SsnPattern::parse("??????-???O"),
        Err(ParseError::Syntax("Invalid checksum character", 10, 11))
    );
    assert_eq!(
        SsnPattern::parse("00????????A"),
        Err(ParseError::Day("Invalid day too small", 0, 2))
    );
    assert_eq!(
        SsnPattern::parse("32????????A"),
        Err(ParseError::Day("Invalid day too large", 0, 2))
    );
    assert_eq!(
        SsnPattern::parse("??00??????A"),
        Err(ParseError::Month("Invalid month too small", 2, 4))
    );
    assert_eq!(
        SsnPattern::parse("????4?+????"),
        Err(ParseError::Day("Invalid year before 1850", 4, 7))
    );
}

#[test]
fn error_spans_and_messages() {
    let err = ParseError::Month("Invalid month number", 2, 4);
    assert_eq!(err.start(), 2);
    assert_eq!(err.end(), 4);
    assert_eq!(index_arrows(&err), "  ^^");
    assert_eq!(err.description(), "Invalid month");
    assert_eq!(err.message(), "Invalid month: Invalid month number");
    let err = ParseError::Checksum("Incorrect checksum", 10, 11, 'X');
    assert_eq!(index_arrows(&err), "          ^");
    assert_eq!(err.message(), "Invalid checksum: expected X");
    let err = ParseError::Syntax("Invalid length", 0, 3);
    assert_eq!(index_arrows(&err), "^^^");
    assert_eq!(err.description(), "Invalid syntax");
    assert_eq!(
        GenerateError.message(),
        "Unable to generate matching hetu"
    );
}

use hetu::{Gender, ParseError, Ssn, SsnPattern};
use regex::Regex;

#[test]
fn test_parse_empty_string() {
    assert!(
        Ssn::parse("").unwrap_err() == ParseError::Syntax("Invalid length", 0, 0),
        "fail when given empty String"
    );
}

#[test]
fn test_parse_month_too_large() {
    assert!(
        Ssn::parse("301398-1233").unwrap_err() == ParseError::Month("Invalid month number", 2, 4),
        "fail when given birthdate with month out of bounds"
    );
}

#[test]
fn test_parse_day_too_large() {
    assert!(
        Ssn::parse("320198-123P").unwrap_err() == ParseError::Day("Invalid day number", 0, 2),
        "fail when given birthdate with date out of bounds in January"
    );
}

#[test]
fn test_parse_day_too_large_on_non_leap_year() {
    assert!(
        Ssn::parse("290299-123U").unwrap_err() == ParseError::Day("Invalid day number", 0, 2),
        "fail when given birthdate with date out of bounds in February, non leap year"
    );
}

#[test]
fn test_parse_day_too_large_on_leap_year() {
    assert!(
        Ssn::parse("300204-123Y").unwrap_err() == ParseError::Day("Invalid day number", 0, 2),
        "fail when given birth date with date out of bounds in February, a leap year"
    );
}

#[test]
fn test_parse_invalid_year_characters() {
    assert!(
        Ssn::parse("0101AA-123A").unwrap_err() == ParseError::Syntax("Date not integer", 0, 6),
        "fail when given birth date with alphabets"
    );
}

#[test]
fn test_parse_invalid_separator() {
    assert!(
        Ssn::parse("010195_433X").unwrap_err() == ParseError::Syntax("Invalid separator", 6, 7),
        "fail when given invalid separator chars"
    );
}

#[test]
fn test_parse_date_too_long() {
    assert!(
        Ssn::parse("01011995+433X").unwrap_err() == ParseError::Syntax("Invalid length", 0, 13),
        "fail when given too long date"
    );
}

#[test]
fn test_parse_date_too_short() {
    assert!(
        Ssn::parse("01015+433X").unwrap_err() == ParseError::Syntax("Invalid length", 0, 10),
        "fail when given too short date"
    );
}

#[test]
fn test_parse_identifier_too_long() {
    assert!(
        Ssn::parse("010195+4433X").unwrap_err() == ParseError::Syntax("Invalid length", 0, 12),
        "fail when given too long checksum part"
    );
}

#[test]
fn test_parse_identifier_too_short() {
    assert!(
        Ssn::parse("010195+33X").unwrap_err() == ParseError::Syntax("Invalid length", 0, 10),
        "fail when given too long checksum part"
    );
}

#[test]
fn test_parse_male() {
    assert_eq!(
        Ssn::parse("010195+433X").unwrap(),
        Ssn {
            day: 1,
            month: 1,
            year: 1895,
            gender: Gender::Male,
        }
    );
}

#[test]
fn test_parse_female() {
    assert_eq!(
        Ssn::parse("010197-100P").unwrap(),
        Ssn {
            day: 1,
            month: 1,
            year: 1997,
            gender: Gender::Female,
        }
    );
}

#[test]
fn test_parse_1900s() {
    assert_eq!(
        Ssn::parse("010114A173M").unwrap(),
        Ssn {
            day: 1,
            month: 1,
            year: 2014,
            gender: Gender::Male,
        }
    );
}

#[test]
fn test_parse_leap_year() {
    // pass when given valid finnishSSN with leap year, divisible only by 4
    assert_eq!(
        Ssn::parse("290296-7808").unwrap(),
        Ssn {
            day: 29,
            month: 2,
            year: 1996,
            gender: Gender::Female,
        }
    );
}

#[test]
fn test_parse_invalid_day_on_leap_year() {
    assert!(
        Ssn::parse("290200-101P").unwrap_err() == ParseError::Day("Invalid day number", 0, 2),
        "fail when given valid finnishSSN with leap year, divisible by 100 and not by 400"
    );
}

#[test]
fn test_parse_leap_year_long() {
    // pass when given valid finnishSSN with leap year, divisible by 100 and by 400
    assert_eq!(
        Ssn::parse("290200A248A").unwrap(),
        Ssn {
            day: 29,
            month: 2,
            year: 2000,
            gender: Gender::Female,
        }
    );
}

#[test]
fn test_parse_leading_whitespace() {
    assert!(
        Ssn::parse("010114A173M ").unwrap_err() == ParseError::Syntax("Invalid length", 0, 12),
        "fail when given SSN longer than 11 chars, bogus in the end"
    );
}

#[test]
fn test_parse_trailing_whitespace() {
    assert!(
        Ssn::parse(" 010114A173M").unwrap_err() == ParseError::Syntax("Invalid length", 0, 12),
        "fail when given SSN longer than 11 chars, bogus in the beginning"
    );
}

#[test]
fn test_generate() {
    let ssn = Ssn::generate();
    assert!(Ssn::parse(&ssn).is_ok());
}

#[test]
fn test_iter() {
    let pattern = SsnPattern::parse("010197-100P").unwrap();
    let mut iter = Ssn::iter(&pattern);
    let generated = iter.next().unwrap();
    assert!(Ssn::parse(&generated).is_ok());
}

#[test]
fn test_iter_wildcard() {
    let pattern = SsnPattern::parse("???????????").unwrap();
    let mut iter = Ssn::iter(&pattern);
    let generated = iter.next().unwrap();
    assert!(Ssn::parse(&generated).is_ok());
}

#[test]
fn test_iter_fixed_repeated() {
    let pattern = SsnPattern::parse("010197-100P").unwrap();
    let mut iter = Ssn::iter(&pattern);
    let first = iter.next().unwrap();
    let second = iter.next().unwrap();
    assert_eq!(first, second);
}

// The pattern admits four codes (days 01, 11, 21 and 31 of January 1997),
// so the sequence starts over after four.
#[test]
fn test_iter_wildcard_repeated() {
    let pattern = SsnPattern::parse("?10197-100?").unwrap();
    let mut iter = Ssn::iter(&pattern);
    let first = vec![
        iter.next().unwrap(),
        iter.next().unwrap(),
        iter.next().unwrap(),
        iter.next().unwrap(),
    ];
    let second = vec![
        iter.next().unwrap(),
        iter.next().unwrap(),
        iter.next().unwrap(),
        iter.next().unwrap(),
    ];
    assert_eq!(first, second);
}

#[test]
fn test_pattern_parse() {
    assert!(SsnPattern::parse("123456-7890").is_ok(), "parse valid SSN");
}

#[test]
fn test_pattern_parse_all_wildcard() {
    assert!(
        SsnPattern::parse("??????-????").is_ok(),
        "parse all wildcard input"
    );
}

#[test]
fn test_generate_never_temporary_identifier_with_wilcard() {
    for _i in 0..1_000_000 {
        let generated = Ssn::generate();
        let first_identifier = generated.chars().nth(7).unwrap();
        assert_ne!(
            first_identifier, '9',
            "never generate identifier in range of 900-999"
        );
    }
}

#[test]
fn pattern_parse_invalid_checksum() {
    let pattern = &SsnPattern::parse("??????-???O");
    assert!(pattern.is_err());
}

#[test]
fn pattern_parse_invalid_year() {
    let pattern = &SsnPattern::parse("????4?+????");
    assert!(pattern.is_err());
}

#[test]
fn pattern_parse_month_too_small() {
    let pattern = &SsnPattern::parse("??00??????A");
    assert!(pattern.is_err());
}

#[test]
fn pattern_parse_day_too_small() {
    let pattern = &SsnPattern::parse("00????????A");
    assert!(pattern.is_err());
}

#[test]
fn pattern_parse_day_too_large() {
    let pattern = &SsnPattern::parse("32????????A");
    assert!(pattern.is_err());
}

#[test]
fn first_day_of_year_wildcard() {
    let value = "010100-????";
    let pattern = &SsnPattern::parse(value).unwrap();
    let generated = Ssn::generate_by_pattern(pattern).unwrap();
    let matcher = Regex::new(value.replace("?", ".").as_str()).unwrap();
    assert!(matcher.is_match(&generated), "retain expected values");
    assert!(Ssn::parse(&generated).is_ok(), "generate valid SSN");
}

#[test]
fn first_day_of_year_fixed() {
    let value = "010100-???A";
    let pattern = &SsnPattern::parse(value).unwrap();
    let generated = Ssn::generate_by_pattern(pattern).unwrap();
    let matcher = Regex::new(value.replace("?", ".").as_str()).unwrap();
    assert!(matcher.is_match(&generated), "retain expected values");
    assert!(Ssn::parse(&generated).is_ok(), "generate valid SSN");
}

#[test]
fn identifier_smallest_wildcard() {
    let value = "???????002?";
    let pattern = &SsnPattern::parse(value).unwrap();
    let generated = Ssn::generate_by_pattern(pattern).unwrap();
    let matcher = Regex::new(value.replace("?", ".").as_str()).unwrap();
    assert!(matcher.is_match(&generated), "retain expected values");
    assert!(Ssn::parse(&generated).is_ok(), "generate valid SSN");
}

#[test]
fn identifier_smallest_fixed() {
    let value = "???????002A";
    let pattern = &SsnPattern::parse(value).unwrap();
    let generated = Ssn::generate_by_pattern(pattern).unwrap();
    let matcher = Regex::new(value.replace("?", ".").as_str()).unwrap();
    assert!(matcher.is_match(&generated), "retain expected values");
    assert!(Ssn::parse(&generated).is_ok(), "generate valid SSN");
}

#[test]
fn identifier_biggest_wildcard() {
    let value = "???????899?";
    let pattern = &SsnPattern::parse(value).unwrap();
    let generated = Ssn::generate_by_pattern(pattern).unwrap();
    let matcher = Regex::new(value.replace("?", ".").as_str()).unwrap();
    assert!(matcher.is_match(&generated), "retain expected values");
    assert!(Ssn::parse(&generated).is_ok(), "generate valid SSN");
}

#[test]
fn identifier_biggest_fixed() {
    let value = "???????899A";
    let pattern = &SsnPattern::parse(value).unwrap();
    let generated = Ssn::generate_by_pattern(pattern).unwrap();
    let matcher = Regex::new(value.replace("?", ".").as_str()).unwrap();
    assert!(matcher.is_match(&generated), "retain expected values");
    assert!(Ssn::parse(&generated).is_ok(), "generate valid SSN");
}

#[test]
fn decade_smallest_wildcard() {
    let value = "??????+????";
    let pattern = &SsnPattern::parse(value).unwrap();
    let generated = Ssn::generate_by_pattern(pattern).unwrap();
    let matcher = Regex::new(value.replace("?", ".").as_str()).unwrap();
    assert!(matcher.is_match(&generated), "retain expected values");
    assert!(Ssn::parse(&generated).is_ok(), "generate valid SSN");
}

#[test]
fn decade_smallest_fixed() {
    let value = "??????+???A";
    let pattern = &SsnPattern::parse(value).unwrap();
    let generated = Ssn::generate_by_pattern(pattern).unwrap();
    let matcher = Regex::new(value.replace("?", ".").as_str()).unwrap();
    assert!(matcher.is_match(&generated), "retain expected values");
    assert!(Ssn::parse(&generated).is_ok(), "generate valid SSN");
}

#[test]
fn decade_biggest_wildcard() {
    let value = "??????A????";
    let pattern = &SsnPattern::parse(value).unwrap();
    let generated = Ssn::generate_by_pattern(pattern).unwrap();
    let matcher = Regex::new(value.replace("?", ".").as_str()).unwrap();
    assert!(matcher.is_match(&generated), "retain expected values");
    assert!(Ssn::parse(&generated).is_ok(), "generate valid SSN");
}

#[test]
fn decade_biggest_fixed() {
    let value = "??????A???A";
    let pattern = &SsnPattern::parse(value).unwrap();
    let generated = Ssn::generate_by_pattern(pattern).unwrap();
    let matcher = Regex::new(value.replace("?", ".").as_str()).unwrap();
    assert!(matcher.is_match(&generated), "retain expected values");
    assert!(Ssn::parse(&generated).is_ok(), "generate valid SSN");
}

#[test]
fn month_smallest_wildcard() {
    let value = "??01???????";
    let pattern = &SsnPattern::parse(value).unwrap();
    let generated = Ssn::generate_by_pattern(pattern).unwrap();
    let matcher = Regex::new(value.replace("?", ".").as_str()).unwrap();
    assert!(matcher.is_match(&generated), "retain expected values");
    assert!(Ssn::parse(&generated).is_ok(), "generate valid SSN");
}

#[test]
fn month_smallest_fixed() {
    let value = "??01??????A";
    let pattern = &SsnPattern::parse(value).unwrap();
    let generated = Ssn::generate_by_pattern(pattern).unwrap();
    let matcher = Regex::new(value.replace("?", ".").as_str()).unwrap();
    assert!(matcher.is_match(&generated), "retain expected values");
    assert!(Ssn::parse(&generated).is_ok(), "generate valid SSN");
}

#[test]
fn month_biggest_wildcard() {
    let value = "??12???????";
    let pattern = &SsnPattern::parse(value).unwrap();
    let generated = Ssn::generate_by_pattern(pattern).unwrap();
    let matcher = Regex::new(value.replace("?", ".").as_str()).unwrap();
    assert!(matcher.is_match(&generated), "retain expected values");
    assert!(Ssn::parse(&generated).is_ok(), "generate valid SSN");
}

#[test]
fn month_biggest_fixed() {
    let value = "??12??????A";
    let pattern = &SsnPattern::parse(value).unwrap();
    let generated = Ssn::generate_by_pattern(pattern).unwrap();
    let matcher = Regex::new(value.replace("?", ".").as_str()).unwrap();
    assert!(matcher.is_match(&generated), "retain expected values");
    assert!(Ssn::parse(&generated).is_ok(), "generate valid SSN");
}

#[test]
fn day_smallest_wildcard() {
    let value = "01?????????";
    let pattern = &SsnPattern::parse(value).unwrap();
    let generated = Ssn::generate_by_pattern(pattern).unwrap();
    let matcher = Regex::new(value.replace("?", ".").as_str()).unwrap();
    assert!(matcher.is_match(&generated), "retain expected values");
    assert!(Ssn::parse(&generated).is_ok(), "generate valid SSN");
}

#[test]
fn day_smallest_fixed() {
    let value = "01????????A";
    let pattern = &SsnPattern::parse(value).unwrap();
    let generated = Ssn::generate_by_pattern(pattern).unwrap();
    let matcher = Regex::new(value.replace("?", ".").as_str()).unwrap();
    assert!(matcher.is_match(&generated), "retain expected values");
    assert!(Ssn::parse(&generated).is_ok(), "generate valid SSN");
}

#[test]
fn day_biggest_wildcard() {
    let value = "31?????????";
    let pattern = &SsnPattern::parse(value).unwrap();
    let generated = Ssn::generate_by_pattern(pattern).unwrap();
    let matcher = Regex::new(value.replace("?", ".").as_str()).unwrap();
    assert!(matcher.is_match(&generated), "retain expected values");
    assert!(Ssn::parse(&generated).is_ok(), "generate valid SSN");
}

#[test]
fn day_biggest_fixed() {
    let value = "31????????A";
    let pattern = &SsnPattern::parse(value).unwrap();
    let generated = Ssn::generate_by_pattern(pattern).unwrap();
    let matcher = Regex::new(value.replace("?", ".").as_str()).unwrap();
    assert!(matcher.is_match(&generated), "retain expected values");
    assert!(Ssn::parse(&generated).is_ok(), "generate valid SSN");
}

#[test]
fn identifier_too_small_wildcard() {
    let pattern = &SsnPattern::parse("???????001?").unwrap();
    assert!(Ssn::generate_by_pattern(pattern).is_err());
}

#[test]
fn identifier_too_small_fixed() {
    let pattern = &SsnPattern::parse("???????001A").unwrap();
    assert!(Ssn::generate_by_pattern(pattern).is_err());
}

#[test]
fn day_too_large_on_non_leap_year_wilcard() {
    let pattern = &SsnPattern::parse("290299-????").unwrap();
    assert!(Ssn::generate_by_pattern(pattern).is_err());
}

#[test]
fn day_too_large_on_non_leap_year_fixed() {
    let pattern = &SsnPattern::parse("290299-???A").unwrap();
    assert!(Ssn::generate_by_pattern(pattern).is_err());
}

#[test]
fn day_too_large_on_leap_year_wildcard() {
    let pattern = &SsnPattern::parse("300204-????").unwrap();
    assert!(Ssn::generate_by_pattern(pattern).is_err());
}

#[test]
fn day_too_large_on_leap_year_fixed() {
    let pattern = &SsnPattern::parse("300204-???A").unwrap();
    assert!(Ssn::generate_by_pattern(pattern).is_err());
}

use kinsaga::{cmp_date_strings, ChronicleDate};
use std::cmp::Ordering;

#[test]
fn test_parse_year_only() {
    let date = ChronicleDate::parse("1987").unwrap();
    assert_eq!(date.year, Some(1987));
    assert_eq!(date.month, None);
    assert_eq!(date.day, None);
    assert!(!date.uncertain);
}

#[test]
fn test_parse_year_month() {
    let date = ChronicleDate::parse("1987-03").unwrap();
    assert_eq!(date.year, Some(1987));
    assert_eq!(date.month, Some(3));
    assert_eq!(date.day, None);
    assert!(!date.uncertain);
}

#[test]
fn test_parse_full_date() {
    let date = ChronicleDate::parse("1987-03-15").unwrap();
    assert_eq!(date.year, Some(1987));
    assert_eq!(date.month, Some(3));
    assert_eq!(date.day, Some(15));
    assert!(!date.uncertain);
    assert!(date.is_complete());
}

#[test]
fn test_parse_uncertain_year() {
    let date = ChronicleDate::parse("1987?").unwrap();
    assert_eq!(date.year, Some(1987));
    assert!(date.uncertain);
}

#[test]
fn test_parse_uncertain_full_date() {
    let date = ChronicleDate::parse("1987-03-15?").unwrap();
    assert_eq!(date.year, Some(1987));
    assert_eq!(date.month, Some(3));
    assert_eq!(date.day, Some(15));
    assert!(date.uncertain);
}

#[test]
fn test_date_ordering() {
    let d1 = ChronicleDate::parse("1986").unwrap();
    let d2 = ChronicleDate::parse("1987").unwrap();
    let d3 = ChronicleDate::parse("1987-03").unwrap();
    let d4 = ChronicleDate::parse("1987-03-15").unwrap();

    assert!(d1 < d2);
    assert!(d2 < d3);
    assert!(d3 < d4);
}

#[test]
fn test_ord_consistent_with_eq() {
    let certain = ChronicleDate::parse("1987").unwrap();
    let uncertain = ChronicleDate::parse("1987?").unwrap();

    // Same sort key, but not equal — cmp must not return Equal
    assert_ne!(certain, uncertain);
    assert_ne!(certain.cmp(&uncertain), Ordering::Equal);
    assert!(certain < uncertain, "certain date sorts before uncertain on ties");

    let same = ChronicleDate::parse("1987").unwrap();
    assert_eq!(certain, same);
    assert_eq!(certain.cmp(&same), Ordering::Equal);
}

#[test]
fn test_display() {
    let date = ChronicleDate::parse("1987-03?").unwrap();
    assert_eq!(date.to_string(), "1987-03?");
}

#[test]
fn test_invalid_month() {
    assert!(ChronicleDate::parse("1987-13").is_err());
    assert!(ChronicleDate::parse("1987-00").is_err());
}

#[test]
fn test_invalid_day() {
    assert!(ChronicleDate::parse("1987-03-32").is_err());
    assert!(ChronicleDate::parse("1987-03-00").is_err());
}

// ---------------------------------------------------------------------------

#[test]
fn parse_errors_name_the_offending_part() {
    assert_eq!(ChronicleDate::parse("abc").unwrap_err().message(), "invalid year: abc");
    assert_eq!(ChronicleDate::parse("1987-13").unwrap_err().message(), "invalid month: 13");
    assert_eq!(ChronicleDate::parse("1987-03-32").unwrap_err().message(), "invalid day: 32");
    assert_eq!(
        ChronicleDate::parse("1987-03-01-02").unwrap_err().message(),
        "invalid date format: 1987-03-01-02"
    );
    assert_eq!(ChronicleDate::parse("").unwrap_err().message(), "invalid year: ");
}

#[test]
fn from_str_agrees_with_parse() {
    let d: ChronicleDate = "2001-02?".parse().unwrap();
    assert_eq!(d, ChronicleDate::parse("2001-02?").unwrap());
    assert!("x".parse::<ChronicleDate>().is_err());
}

#[test]
fn sort_key_fills_missing_parts_with_zero() {
    assert_eq!(ChronicleDate::parse("1987").unwrap().sort_key(), (1987, 0, 0));
    assert_eq!(ChronicleDate::parse("1987-03-15?").unwrap().sort_key(), (1987, 3, 15));
}

#[test]
fn order_agrees_with_ord() {
    let a = ChronicleDate::parse("1987").unwrap();
    let b = ChronicleDate::parse("1987?").unwrap();
    let c = ChronicleDate::parse("1990-01").unwrap();
    assert!(a.order(&b) < 0);
    assert!(b.order(&a) > 0);
    assert!(c.order(&b) > 0);
    assert_eq!(a.order(&a), 0);
}

#[test]
fn date_strings_sort_unparseable_last() {
    assert_eq!(cmp_date_strings("1990", "2000"), Ordering::Less);
    assert_eq!(cmp_date_strings("2000", "1990-05"), Ordering::Greater);
    assert_eq!(cmp_date_strings("someday", "1990"), Ordering::Greater);
    assert_eq!(cmp_date_strings("1990", "someday"), Ordering::Less);
    assert_eq!(cmp_date_strings("someday", "never"), Ordering::Equal);
    assert_eq!(cmp_date_strings("1990", "1990"), Ordering::Equal);
}

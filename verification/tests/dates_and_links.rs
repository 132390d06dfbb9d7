//! Dates, file-name matching, numbers and object-store links.

use ftf_docs::dates::{
    contains_str, date_as_value, format_due_date, format_invoice_date, format_line_date,
    is_in_month, parse_date,
};
use ftf_docs::numbers::{hundredths_to_string, parse_hundredths, u64_to_dec_string};
use ftf_docs::utils::{generate_link, s3_link_to_object, S3Object};

#[test]
fn parse_date_accepts_valid_dates() {
    let d = parse_date("2024-02-20").unwrap();
    assert_eq!((d.year, d.month, d.day), (2024, 2, 20));
}

#[test]
fn parse_date_knows_leap_years() {
    assert!(parse_date("2024-02-29").is_some());
    assert!(parse_date("2023-02-29").is_none());
    assert!(parse_date("2000-02-29").is_some());
    assert!(parse_date("1900-02-29").is_none());
}

#[test]
fn parse_date_rejects_malformed_strings() {
    assert!(parse_date("2024-2-20").is_none());
    assert!(parse_date("20-02-2024").is_none());
    assert!(parse_date("2024-13-01").is_none());
    assert!(parse_date("2024-04-31").is_none());
    assert!(parse_date("2024-02-20T").is_none());
    assert!(parse_date("").is_none());
}

#[test]
fn date_formats() {
    assert_eq!(format_invoice_date("2024-02-20").as_str(), "20/02/2024");
    assert_eq!(format_line_date("2024-02-20").as_str(), "20/02");
    assert_eq!(format_due_date("2024-03-05").as_str(), "05 Mar 2024");
}

#[test]
fn date_keys_order_chronologically() {
    let a = date_as_value("2024-02-20");
    let b = date_as_value("2024-03-01");
    let c = date_as_value("2023-12-31");
    assert!(a.key() < b.key());
    assert!(c.key() < a.key());
}

#[test]
fn is_in_month_finds_bounded_tokens() {
    assert!(is_in_month("invoice 12_02_2024.xlsx", "02_2024"));
    assert!(is_in_month("12_02_2024", "02_2024"));
    assert!(!is_in_month("invoice 12_02_2024.xlsx", "03_2024"));
    assert!(!is_in_month("nothing here", "02_2024"));
}

#[test]
fn is_in_month_respects_word_boundaries() {
    // the date token is glued to a word character, so it does not count
    assert!(!is_in_month("orders_12_02_2024.xlsx", "02_2024"));
    assert!(!is_in_month("12_02_2024x", "02_2024"));
}

#[test]
fn contains_str_works() {
    assert!(contains_str("12_02_2024", "02_2024"));
    assert!(contains_str("abc", ""));
    assert!(!contains_str("abc", "abcd"));
    assert!(contains_str("abcd", "bcd"));
}

#[test]
fn decimal_parsing_in_hundredths() {
    assert_eq!(parse_hundredths("1.50"), Some(150));
    assert_eq!(parse_hundredths("2"), Some(200));
    assert_eq!(parse_hundredths("0.05"), Some(5));
    assert_eq!(parse_hundredths("-1.25"), Some(-125));
    assert_eq!(parse_hundredths("3.999"), Some(399)); // truncated toward zero
    assert_eq!(parse_hundredths(""), None);
    assert_eq!(parse_hundredths("1."), None);
    assert_eq!(parse_hundredths(".5"), None);
    assert_eq!(parse_hundredths("1.2.3"), None);
    assert_eq!(parse_hundredths("12a"), None);
}

#[test]
fn decimal_rendering_in_hundredths() {
    assert_eq!(hundredths_to_string(150).as_str(), "1.5");
    assert_eq!(hundredths_to_string(155).as_str(), "1.55");
    assert_eq!(hundredths_to_string(200).as_str(), "2");
    assert_eq!(hundredths_to_string(-125).as_str(), "-1.25");
    assert_eq!(hundredths_to_string(0).as_str(), "0");
}

#[test]
fn dec_string_renders_plain_numbers() {
    assert_eq!(u64_to_dec_string(0).as_str(), "0");
    assert_eq!(u64_to_dec_string(12345).as_str(), "12345");
}

#[test]
fn link_round_trip() {
    let obj = S3Object::new(String::from("Alice.pdf"), String::from("produce-docs"));
    let link = generate_link(&obj);
    assert_eq!(
        link.as_str(),
        "https://produce-docs.s3.eu-west-2.amazonaws.com/Alice.pdf"
    );
    let back = s3_link_to_object(&link, &String::from("produce-docs"));
    assert_eq!(back.key.as_str(), "Alice.pdf");
    assert_eq!(back.bucket.as_str(), "produce-docs");
}

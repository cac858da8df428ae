use startgg_export::commands::greet;
use startgg_export::queries::scalars::{IdInput, StartggId};
use startgg_export::text::{join_non_empty, trim_str};
use startgg_export::utils::{
    content_type_or_unknown, format_event_date, format_page_counter, id_to_string,
    split_prefix_and_name, summarize_body, winner_id_to_string,
};

#[test]
fn split_prefix_and_name_without_bar() {
    assert_eq!(
        split_prefix_and_name("  Mang0  "),
        (String::new(), "Mang0".to_string())
    );
}

#[test]
fn split_prefix_and_name_with_sponsors() {
    assert_eq!(
        split_prefix_and_name(" C9 | Team A |  Mango "),
        ("C9|Team A".to_string(), "Mango".to_string())
    );
}

#[test]
fn split_prefix_and_name_empty_pieces() {
    assert_eq!(split_prefix_and_name("|"), (String::new(), String::new()));
    assert_eq!(split_prefix_and_name("a||b"), ("a|".to_string(), "b".to_string()));
}

#[test]
fn trim_removes_unicode_whitespace() {
    assert_eq!(trim_str("\u{3000}\t x y \u{a0}\n"), "x y");
    assert_eq!(trim_str("\u{feff}x"), "\u{feff}x");
}

#[test]
fn join_non_empty_skips_empty_values() {
    let values = vec!["a".to_string(), String::new(), "b".to_string()];
    assert_eq!(join_non_empty(values, " | "), "a | b");
    assert_eq!(join_non_empty(vec![String::new()], " | "), "");
}

#[test]
fn format_event_date_of_epoch_and_later() {
    assert_eq!(format_event_date(0), Some("1970-01-01".to_string()));
    assert_eq!(format_event_date(1_700_000_000), Some("2023-11-14".to_string()));
    assert_eq!(format_event_date(-86_400), Some("1969-12-31".to_string()));
}

#[test]
fn format_event_date_out_of_range() {
    assert_eq!(format_event_date(8_210_266_876_799).is_some(), true);
    assert_eq!(format_event_date(8_210_266_876_800), None);
    assert_eq!(format_event_date(-8_334_601_228_800).is_some(), true);
    assert_eq!(format_event_date(-8_334_601_228_801), None);
    assert_eq!(format_event_date(i64::MAX), None);
}

#[test]
fn summarize_body_short_and_long() {
    assert_eq!(summarize_body("hello", 10), "hello");
    assert_eq!(summarize_body("hello", 5), "hello");
    assert_eq!(summarize_body("hello world", 5), "hello...");
    assert_eq!(summarize_body("héllo", 3), "hé...");
}

#[test]
fn format_page_counter_with_and_without_total() {
    assert_eq!(format_page_counter(3, Some(10)), "page 3/10");
    assert_eq!(format_page_counter(3, None), "page 3");
    assert_eq!(format_page_counter(-2, Some(0)), "page -2/0");
}

#[test]
fn id_texts() {
    assert_eq!(id_to_string(&StartggId::from_text("abc")), "abc");
    assert_eq!(id_to_string(&StartggId::from_i64(-42)), "-42");
    assert_eq!(
        id_to_string(&StartggId::from_input(IdInput::U64(u64::MAX))),
        "18446744073709551615"
    );
    assert_eq!(
        id_to_string(&StartggId::from_input(IdInput::I64(i64::MIN))),
        "-9223372036854775808"
    );
    assert_eq!(winner_id_to_string(1234567), "1234567");
    assert_eq!(winner_id_to_string(0), "0");
}

#[test]
fn content_type_fallback() {
    assert_eq!(content_type_or_unknown(Some("application/json")), "application/json");
    assert_eq!(content_type_or_unknown(None), "unknown");
}

#[test]
fn greet_message() {
    assert_eq!(greet("Ana"), "Hello, Ana! You've been greeted from Rust!");
}

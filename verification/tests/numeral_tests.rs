use request_analytics::numeral::parse_count_at;
use request_analytics::numeral::render_count;
use request_analytics::span::SpanContext;

#[test]
fn renders_zero_and_small_counts() {
    assert_eq!(render_count(0), "0");
    assert_eq!(render_count(7), "7");
    assert_eq!(render_count(10), "10");
    assert_eq!(render_count(90125), "90125");
}

#[test]
fn renders_the_largest_count() {
    assert_eq!(render_count(u64::MAX), "18446744073709551615");
}

#[test]
fn parses_digit_runs_back() {
    assert_eq!(parse_count_at("90125", 0), Some((90125, 5)));
    assert_eq!(parse_count_at("42}", 0), Some((42, 2)));
    assert_eq!(parse_count_at("a42", 1), Some((42, 3)));
}

#[test]
fn rejects_missing_digits_and_overflow() {
    assert_eq!(parse_count_at("abc", 0), None);
    assert_eq!(parse_count_at("", 0), None);
    assert_eq!(parse_count_at("18446744073709551616", 0), None);
    assert_eq!(parse_count_at("18446744073709551615", 0), Some((u64::MAX, 20)));
}

#[test]
fn span_attributes_are_appended_in_order() {
    let mut span = SpanContext::new();
    span.set_attribute(String::from("country"), String::from("FR"));
    span.set_attribute(String::from("tier"), String::from("gold"));
    assert_eq!(span.attributes.len(), 2);
    assert_eq!(span.attributes[0], (String::from("country"), String::from("FR")));
    assert_eq!(span.attributes[1], (String::from("tier"), String::from("gold")));
}

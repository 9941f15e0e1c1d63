use csv_repair::numeric::{is_float_text, is_number_with_separator};
use csv_repair::text::decimal_string;

fn chars(s: &str) -> Vec<char> {
    s.chars().collect()
}

#[test]
fn float_text_agrees_with_std_parse() {
    let samples = [
        "", "0", "1", "-1", "+1", "1.", ".5", ".", "-.", "+.5", "1.5", "1.5.3", "1e5", "1E5", "1e+5", "1e-5",
        "1e", "e5", "1.e3", ".e3", "1e5.0", "inf", "-inf", "+Inf", "INFINITY", "infinity", "infin", "nan", "NaN",
        "-nan", "nana", " 1", "1 ", "1,5", "0x10", "1_000", "--1", "+-1", "12abc", "00012", "9999999999999999999999",
        "1e400", "é", "١",
    ];
    for s in samples.iter() {
        assert_eq!(is_float_text(&chars(s)), s.parse::<f64>().is_ok(), "on {:?}", s);
    }
}

#[test]
fn number_with_separator_reads_separator_as_point() {
    assert!(is_number_with_separator("2,5", ','));
    assert!(!is_number_with_separator("2,5", '.'));
    assert!(is_number_with_separator("2.5", '.'));
    // With ',' as separator, '.' is still a point.
    assert!(is_number_with_separator("2.5", ','));
    assert!(!is_number_with_separator("1,2,3", ','));
}

#[test]
fn decimal_string_values() {
    assert_eq!(decimal_string(0), "0");
    assert_eq!(decimal_string(7), "7");
    assert_eq!(decimal_string(10), "10");
    assert_eq!(decimal_string(12345), "12345");
    assert_eq!(decimal_string(usize::MAX), usize::MAX.to_string());
}

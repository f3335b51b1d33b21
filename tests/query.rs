use missile_tables::query::{page_for, parse_launch_query, parse_u32_from, split_chars, ConfigError, Page};

#[test]
fn query_sets_altitude_and_velocity() {
    let q = parse_launch_query("https://example.org/?alt1000+vel300").unwrap();
    assert_eq!(q.altitude, 1000);
    assert_eq!(q.start_velocity.as_deref(), Some("300"));
    assert_eq!(q.start_velocity.unwrap().parse::<f64>().unwrap(), 300.0);
}

#[test]
fn altitude_without_digits_is_an_error() {
    let r = parse_launch_query("https://example.org/?alt");
    assert_eq!(r.unwrap_err(), ConfigError::MalformedAltitude);
}

#[test]
fn altitude_beyond_u32_is_an_error() {
    let r = parse_launch_query("https://example.org/?alt4294967296");
    assert_eq!(r.unwrap_err(), ConfigError::MalformedAltitude);
    let q = parse_launch_query("https://example.org/?alt4294967295").unwrap();
    assert_eq!(q.altitude, 4294967295);
}

#[test]
fn altitude_with_letters_is_an_error() {
    let r = parse_launch_query("https://example.org/?vel250+alt12x");
    assert_eq!(r.unwrap_err(), ConfigError::MalformedAltitude);
}

#[test]
fn unrecognized_tokens_leave_defaults() {
    let q = parse_launch_query("https://example.org/?foo+bar12+al").unwrap();
    assert_eq!(q.altitude, 0);
    assert!(q.start_velocity.is_none());
    let q = parse_launch_query("https://example.org/").unwrap();
    assert_eq!(q.altitude, 0);
    assert!(q.start_velocity.is_none());
}

#[test]
fn later_tokens_win() {
    let q = parse_launch_query("https://example.org/?alt5+vel1.5+x+alt7+vel2").unwrap();
    assert_eq!(q.altitude, 7);
    assert_eq!(q.start_velocity.as_deref(), Some("2"));
}

#[test]
fn velocity_text_is_passed_on_unchecked() {
    let q = parse_launch_query("https://example.org/?vel").unwrap();
    assert_eq!(q.start_velocity.as_deref(), Some(""));
}

#[test]
fn split_keeps_empty_pieces() {
    assert_eq!(split_chars("a+b++c+", '+'), vec!["a", "b", "", "c", ""]);
    assert_eq!(split_chars("", '+'), vec![""]);
    assert_eq!(split_chars("https://h/p", '/'), vec!["https:", "", "h", "p"]);
}

#[test]
fn digits_are_read_as_u32() {
    assert_eq!(parse_u32_from("alt0042", 3), Some(42));
    assert_eq!(parse_u32_from("alt", 3), None);
    assert_eq!(parse_u32_from("alt-1", 3), None);
    assert_eq!(parse_u32_from("99999999999", 0), None);
}

#[test]
fn pages_are_told_apart_by_first_segment() {
    assert_eq!(page_for("https://example.org/"), Page::Tables);
    assert_eq!(page_for("https://example.org/?alt1000+vel300"), Page::Tables);
    assert_eq!(page_for("https://example.org/live_calc.html"), Page::LiveCalculator);
    assert_eq!(page_for("https://example.org/about.html"), Page::Other);
    assert_eq!(page_for("https://example.org"), Page::Other);
}

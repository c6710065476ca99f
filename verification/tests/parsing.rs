use logscan::entry::parse_line;
use logscan::kv::extract_details;
use logscan::matcher::match_line;
use logscan::stamp::{parse_stamp, Stamp};
use logscan::tally::RunTally;

fn details_map(d: &Vec<(String, String)>) -> std::collections::BTreeMap<String, String> {
    d.iter().cloned().collect()
}

// Lines without the LEVEL [TS] MESSAGE shape yield no match.
#[test]
fn non_matching_lines_yield_nothing() {
    assert!(match_line("hello world").is_none());
    assert!(match_line("INFO no brackets").is_none());
    assert!(match_line("WEIRD [2024-01-01|00:00:00] msg").is_none());
    assert!(match_line("").is_none());
    assert!(match_line(" INFO [01-01|00:00:00] msg").is_none());
    assert!(match_line("info [01-01|00:00:00] msg").is_none());
    assert!(parse_line("hello world", 2024).is_none());
    assert!(parse_line("INFO no brackets", 2024).is_none());
    assert!(parse_line("WEIRD [2024-01-01|00:00:00] msg", 2024).is_none());
}

#[test]
fn matcher_splits_the_three_segments() {
    let m = match_line("ERROR [03-10|09:15:22.500] db=primary").unwrap();
    assert_eq!(m.level, "ERROR");
    assert_eq!(m.stamp_text, "03-10|09:15:22.500");
    assert_eq!(m.message, "db=primary");
}

#[test]
fn matcher_allows_no_space_before_bracket() {
    let m = match_line("INFO[x] y").unwrap();
    assert_eq!(m.level, "INFO");
    assert_eq!(m.stamp_text, "x");
    assert_eq!(m.message, "y");
}

#[test]
fn matcher_requires_whitespace_after_bracket() {
    assert!(match_line("INFO [x]msg").is_none());
    assert!(match_line("INFO [x]").is_none());
}

#[test]
fn matcher_extends_capture_to_a_bracket_followed_by_whitespace() {
    let m = match_line("INFO [a]b [c] msg").unwrap();
    assert_eq!(m.stamp_text, "a]b [c");
    assert_eq!(m.message, "msg");
}

#[test]
fn matcher_keeps_empty_message() {
    let m = match_line("DEBUG [01-02|03:04:05] ").unwrap();
    assert_eq!(m.level, "DEBUG");
    assert_eq!(m.message, "");
}

// Reconstructing with a given year keeps every written component.
#[test]
fn reconstruction_keeps_components() {
    let st = parse_stamp(2023, "06-15|14:30:00").unwrap();
    assert_eq!(
        st,
        Stamp {
            year: 2023,
            month: 6,
            day: 15,
            hour: 14,
            minute: 30,
            second: 0,
            nanosecond: 0,
        }
    );
}

#[test]
fn reconstruction_reads_fractional_seconds() {
    let st = parse_stamp(2024, "03-10|09:15:22.500").unwrap();
    assert_eq!(st.nanosecond, 500_000_000);
    let st2 = parse_stamp(2024, "03-10|09:15:22.1234567891").unwrap();
    assert_eq!(st2.nanosecond, 123_456_789);
    let st3 = parse_stamp(2024, "03-10|09:15:22.5").unwrap();
    assert_eq!(st3.nanosecond, 500_000_000);
}

#[test]
fn reconstruction_allows_whitespace_before_fields() {
    let st = parse_stamp(2024, " 03-10|09:15:22").unwrap();
    assert_eq!((st.month, st.day), (3, 10));
    assert!(parse_stamp(2024, "03 -10|09:15:22").is_none());
}

#[test]
fn reconstruction_accepts_single_digit_fields() {
    let st = parse_stamp(2024, "3-1|9:5:2").unwrap();
    assert_eq!(
        (st.month, st.day, st.hour, st.minute, st.second),
        (3, 1, 9, 5, 2)
    );
}

// Invalid calendar values always yield no entry.
#[test]
fn invalid_calendar_values_yield_nothing() {
    assert!(parse_stamp(2024, "13-01|00:00:00").is_none());
    assert!(parse_stamp(2024, "01-32|00:00:00").is_none());
    assert!(parse_stamp(2024, "06-15|24:00:00").is_none());
    assert!(parse_stamp(2024, "06-15|14:60:00").is_none());
    assert!(parse_stamp(2024, "06-15|14:30:61").is_none());
    assert!(parse_stamp(2024, "00-15|14:30:00").is_none());
    assert!(parse_stamp(2024, "06-00|14:30:00").is_none());
    assert!(parse_line("INFO [13-01|00:00:00] msg", 2024).is_none());
    assert!(parse_line("INFO [01-32|00:00:00] msg", 2024).is_none());
    assert!(parse_line("INFO [06-15|24:00:00] msg", 2024).is_none());
}

#[test]
fn reconstruction_respects_leap_years() {
    assert!(parse_stamp(2024, "02-29|00:00:00").is_some());
    assert!(parse_stamp(2023, "02-29|00:00:00").is_none());
    assert!(parse_stamp(2000, "02-29|00:00:00").is_some());
    assert!(parse_stamp(1900, "02-29|00:00:00").is_none());
}

#[test]
fn reconstruction_keeps_a_leap_second() {
    let st = parse_stamp(2016, "12-31|23:59:60").unwrap();
    assert_eq!(st.second, 59);
    assert_eq!(st.nanosecond, 1_000_000_000);
}

#[test]
fn reconstruction_rejects_malformed_text() {
    assert!(parse_stamp(2024, "06-15|14:30").is_none());
    assert!(parse_stamp(2024, "06/15|14:30:00").is_none());
    assert!(parse_stamp(2024, "06-15 14:30:00").is_none());
    assert!(parse_stamp(2024, "06-15|14:30:00x").is_none());
    assert!(parse_stamp(2024, "06-15|14:30:00.").is_none());
    assert!(parse_stamp(2024, "123-15|14:30:00").is_none());
    assert!(parse_stamp(2024, "").is_none());
}

#[test]
fn reconstruction_bounds_the_year() {
    assert!(parse_stamp(10000, "06-15|14:30:00").is_none());
    assert!(parse_stamp(-300000, "06-15|14:30:00").is_none());
    let st = parse_stamp(-1, "06-15|14:30:00").unwrap();
    assert_eq!(st.year, -1);
}

// Key/value scan: last write wins, quotes stripped.
#[test]
fn details_keep_last_value_and_strip_quotes() {
    let d = extract_details("key1=val1 key2=\"quoted val\" key1=override");
    let m = details_map(&d);
    assert_eq!(m.len(), 2);
    assert_eq!(m["key1"], "override");
    assert_eq!(m["key2"], "quoted val");
}

#[test]
fn details_keep_first_occurrence_order() {
    let d = extract_details("b=1 a=2 b=3");
    assert_eq!(d.len(), 2);
    assert_eq!(d[0], ("b".to_string(), "3".to_string()));
    assert_eq!(d[1], ("a".to_string(), "2".to_string()));
}

// A message without tokens yields an empty mapping; the message is kept.
#[test]
fn message_without_tokens_yields_empty_details() {
    assert!(extract_details("no tokens here!").is_empty());
    assert!(extract_details("").is_empty());
    assert!(extract_details("a= b =c = \"x\"").is_empty());
    let e = parse_line("INFO [06-15|14:30:00] no tokens here!", 2023).unwrap();
    assert!(e.details.is_empty());
    assert_eq!(e.message, "no tokens here!");
}

#[test]
fn details_edge_shapes() {
    // an unquoted value is a maximal non-whitespace run
    let d = extract_details("a=b=c d=e");
    let m = details_map(&d);
    assert_eq!(m["a"], "b=c");
    assert_eq!(m["d"], "e");
    // a value may start with '=' when nothing better follows the key
    let d2 = extract_details("x==y");
    assert_eq!(details_map(&d2)["x"], "=y");
    // an unterminated quote falls back to the non-whitespace run
    let d3 = extract_details("a=\"bc de");
    assert_eq!(details_map(&d3)["a"], "\"bc");
    // a lone quote strips to an empty value, and so does an empty quoted span
    let d4 = extract_details("a=\"");
    assert_eq!(details_map(&d4)["a"], "");
    let d4b = extract_details("b=\"\"");
    assert_eq!(details_map(&d4b)["b"], "");
    // a quoted span may reach across whitespace to the next quote
    let d4c = extract_details("a=\" b=\"\"");
    let m4c = details_map(&d4c);
    assert_eq!(m4c.len(), 1);
    assert_eq!(m4c["a"], " b=");
    // a quoted value may hold whitespace, and ends at the first quote
    let d5 = extract_details("m=\"say \"hi\"\" t=u");
    let m5 = details_map(&d5);
    assert_eq!(m5["m"], "say ");
    assert_eq!(m5["t"], "u");
}

// Processing the same line twice yields identical records.
#[test]
fn processing_is_repeatable() {
    let line = "WARN [07-01|12:00:00.25] a=1 b=\"two words\" extra";
    let e1 = parse_line(line, 2022).unwrap();
    let e2 = parse_line(line, 2022).unwrap();
    assert_eq!(e1.level, e2.level);
    assert_eq!(e1.timestamp.stamp, e2.timestamp.stamp);
    assert_eq!(e1.timestamp.offset_seconds, e2.timestamp.offset_seconds);
    assert_eq!(e1.message, e2.message);
    assert_eq!(e1.details, e2.details);
}

// End-to-end: the documented example line.
#[test]
fn end_to_end_example() {
    let line = "ERROR [03-10|09:15:22.500] db=primary retries=3 msg=\"connection lost\"";
    let e = parse_line(line, 2024).unwrap();
    assert_eq!(e.level, "ERROR");
    assert_eq!(
        e.timestamp.stamp,
        Stamp {
            year: 2024,
            month: 3,
            day: 10,
            hour: 9,
            minute: 15,
            second: 22,
            nanosecond: 500_000_000,
        }
    );
    assert_eq!(e.message, "db=primary retries=3 msg=\"connection lost\"");
    let m = details_map(&e.details);
    assert_eq!(m.len(), 3);
    assert_eq!(m["db"], "primary");
    assert_eq!(m["retries"], "3");
    assert_eq!(m["msg"], "connection lost");
}

// The tally never counts more valid entries than processed lines.
#[test]
fn tally_counts_and_invariant() {
    let mut t = RunTally::new();
    assert_eq!((t.lines_processed, t.valid_entries), (0, 0));
    t.record(true);
    t.record(false);
    t.record(true);
    t.record(false);
    assert_eq!(t.lines_processed, 4);
    assert_eq!(t.valid_entries, 2);
    assert!(t.valid_entries <= t.lines_processed);
}

// The library's own parsers, held against the crates that do the same work:
// chrono for the timestamp layout, regex for the structural and key/value
// patterns. The comparisons stay on ASCII input, where the character classes
// of the two sides coincide.

use chrono::{Datelike, Timelike};
use logscan::kv::extract_details;
use logscan::matcher::match_line;
use logscan::stamp::parse_stamp;

fn chrono_reference(year: i32, raw: &str) -> Option<(i32, u8, u8, u8, u8, u8, u32)> {
    let with_year = format!("{}-{}", year, raw);
    let naive =
        chrono::NaiveDateTime::parse_from_str(&with_year, "%Y-%m-%d|%H:%M:%S%.f").ok()?;
    Some((
        naive.year(),
        naive.month() as u8,
        naive.day() as u8,
        naive.hour() as u8,
        naive.minute() as u8,
        naive.second() as u8,
        naive.nanosecond(),
    ))
}

#[test]
fn stamp_parser_agrees_with_chrono() {
    let years: &[i32] = &[2024, 2023, 0, -1, 9999, 10000, -262143, -262144, 1900, 2000];
    let raws: &[&str] = &[
        "06-15|14:30:00",
        "03-10|09:15:22.500",
        "3-1|9:5:2",
        "02-29|00:00:00",
        "12-31|23:59:60",
        "12-31|23:59:59.999999999",
        "03-10|09:15:22.1234567891",
        " 03-10|09:15:22",
        "03- 10|09:15:22",
        "03 -10|09:15:22",
        "13-01|00:00:00",
        "01-32|00:00:00",
        "06-15|24:00:00",
        "06-15|14:60:00",
        "06-15|14:30:61",
        "06-15|14:30",
        "06-15|14:30:00x",
        "06-15|14:30:00.",
        "06-15|14:30:00 ",
        "123-15|14:30:00",
        "06/15|14:30:00",
        "",
        "0-0|0:0:0",
        "1-1|0:0:0",
    ];
    for &y in years {
        for &raw in raws {
            let ours = parse_stamp(y, raw);
            let theirs = chrono_reference(y, raw);
            match (ours, theirs) {
                (None, None) => {},
                (Some(st), Some((cy, cmo, cd, ch, cmi, cs, cn))) => {
                    assert_eq!(
                        (st.year, st.month, st.day, st.hour, st.minute, st.second, st.nanosecond),
                        (cy, cmo, cd, ch, cmi, cs, cn),
                        "component mismatch for year {} raw {:?}",
                        y,
                        raw
                    );
                },
                _ => panic!(
                    "acceptance mismatch for year {} raw {:?}: ours {:?} chrono {:?}",
                    y, raw, ours, theirs
                ),
            }
        }
    }
}

#[test]
fn matcher_agrees_with_the_structural_pattern() {
    let pattern = regex::Regex::new(
        r"^(?P<level>INFO|WARN|ERROR|DEBUG|TRACE)\s*\[(?P<timestamp>.+?)\]\s+(?P<message>.*)",
    )
    .unwrap();
    let lines: &[&str] = &[
        "INFO [06-15|14:30:00] all good",
        "ERROR [03-10|09:15:22.500] db=primary",
        "INFO[x] y",
        "INFO [x]msg",
        "INFO [x]",
        "INFO [a]b [c] msg",
        "INFO []] m",
        "INFO [] m",
        "DEBUG   [t]  spaced out",
        "TRACE [t] ",
        "WARN [w]\tmsg",
        "hello world",
        "INFO no brackets",
        "WEIRD [2024-01-01|00:00:00] msg",
        " INFO [x] y",
        "INFORMATIVE [x] y",
        "ERROR[",
        "",
    ];
    for &line in lines {
        let ours = match_line(line);
        let theirs = pattern.captures(line);
        match (&ours, &theirs) {
            (None, None) => {},
            (Some(m), Some(caps)) => {
                assert_eq!(m.level, &caps["level"], "level mismatch on {:?}", line);
                assert_eq!(
                    m.stamp_text, &caps["timestamp"],
                    "timestamp mismatch on {:?}",
                    line
                );
                assert_eq!(m.message, &caps["message"], "message mismatch on {:?}", line);
            },
            _ => panic!(
                "acceptance mismatch on {:?}: ours {:?} regex {:?}",
                line,
                ours.is_some(),
                theirs.is_some()
            ),
        }
    }
}

fn regex_details(message: &str) -> Vec<(String, String)> {
    let kv = regex::Regex::new(r#"(?P<key>\w+)=(?P<value>"[^"]*"|\S+)"#).unwrap();
    let mut out: Vec<(String, String)> = Vec::new();
    for caps in kv.captures_iter(message) {
        let key = caps["key"].to_string();
        let mut value = caps["value"].to_string();
        if value.starts_with('"') && value.ends_with('"') {
            value = value.trim_matches('"').to_string();
        }
        match out.iter_mut().find(|(k, _)| *k == key) {
            Some(slot) => slot.1 = value,
            None => out.push((key, value)),
        }
    }
    out
}

#[test]
fn details_agree_with_the_key_value_pattern() {
    let messages: &[&str] = &[
        "key1=val1 key2=\"quoted val\" key1=override",
        "db=primary retries=3 msg=\"connection lost\"",
        "no tokens here!",
        "",
        "a=b=c d=e",
        "x==y",
        "a=\"bc de",
        "a=\"",
        "b=\"\"",
        "a=\" b=\"\"",
        "m=\"say \"hi\"\" t=u",
        "a= b =c = \"x\"",
        "under_score1=ok 9lives=yes",
        "trail=",
        "=lead a=1",
        "q=\"one two\"three",
    ];
    for &message in messages {
        let ours = extract_details(message);
        let theirs = regex_details(message);
        assert_eq!(ours, theirs, "details mismatch on {:?}", message);
    }
}

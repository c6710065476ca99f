use vstd::prelude::*;

use crate::kv::{details_of, extract_details, pairs_view};
use crate::matcher::{line_match, match_line, MatchedLine};
use crate::stamp::{parse_stamp, parse_stamp_spec, Stamp};

verus! {

// Entry builder: turns a matched line and a caller-supplied year into a
// finished record, or decides that the line contributes nothing. A line
// yields a record only when it has the structural shape, its timestamp text
// reconstructs to a real wall-clock instant under the year, and the local
// time zone gives that instant exactly one offset.

/// An absolute point in time with local-offset semantics: the wall-clock
/// instant and the offset, in seconds east of UTC, that the local time zone
/// assigns it.
#[derive(Clone, Copy, Debug)]
pub struct LocalStamp {
    pub stamp: Stamp,
    pub offset_seconds: i32,
}

/// The structured record produced for one recognized log line.
#[derive(Debug)]
pub struct LogEntry {
    pub level: String,
    pub timestamp: LocalStamp,
    pub message: String,
    pub details: Vec<(String, String)>,
}

/// The deterministic part of processing one line under a year: the severity,
/// the reconstructed wall-clock instant, the verbatim message and the
/// details mapping — everything except the zone resolution.
pub open spec fn line_record(s: Seq<char>, year: i32) -> Option<
    (Seq<char>, Stamp, Seq<char>, Seq<(Seq<char>, Seq<char>)>),
> {
    match line_match(s) {
        None => None,
        Some((lv, ts, msg)) => match parse_stamp_spec(year, ts) {
            None => None,
            Some(st) => Some((lv, st, msg, details_of(msg))),
        },
    }
}

/// Relies on chrono: NaiveDate::from_ymd_opt and NaiveTime::from_hms_nano_opt
/// accept exactly the real calendar dates and times of day;
/// NaiveDateTime::and_local_timezone(Local).single() yields the machine's
/// local offset for the instant exactly when that offset is unique, and
/// FixedOffset::local_minus_utc is strictly within one day of seconds.
/// Which offset comes back depends on the machine's time zone, so nothing
/// more is claimed of the value.
#[verifier::external_body]
fn local_offset_seconds(st: &Stamp) -> (r: Option<i32>)
    ensures
        r matches Some(off) ==> -86400 < off < 86400,
{
    let date = chrono::NaiveDate::from_ymd_opt(st.year, st.month as u32, st.day as u32)?;
    let hms = (st.hour as u32, st.minute as u32, st.second as u32);
    let time = chrono::NaiveTime::from_hms_nano_opt(hms.0, hms.1, hms.2, st.nanosecond)?;
    let naive = chrono::NaiveDateTime::new(date, time);
    let resolved = naive.and_local_timezone(chrono::Local).single()?;
    Some(resolved.offset().local_minus_utc())
}

/// Assembles the finished record from the matched segments, the
/// reconstructed instant and a resolved offset. The record carries the
/// severity and the message verbatim, and the details extracted from the
/// message.
pub fn finish_entry(parts: MatchedLine, st: Stamp, offset_seconds: i32) -> (r: LogEntry)
    ensures
        r.level@ == parts.level@,
        r.timestamp.stamp == st,
        r.timestamp.offset_seconds == offset_seconds,
        r.message@ == parts.message@,
        pairs_view(r.details@) == details_of(parts.message@),
{
    let details = extract_details(parts.message.as_str());
    LogEntry {
        level: parts.level,
        timestamp: LocalStamp { stamp: st, offset_seconds },
        message: parts.message,
        details,
    }
}

/// Processes one line: a record comes back only for a line whose structural
/// match and timestamp reconstruction succeed, and then its severity,
/// instant, message and details are exactly those of the line; a line whose
/// match or reconstruction fails never yields a record. A line whose
/// wall-clock instant the local time zone maps to no offset or to two
/// offsets is dropped as well.
pub fn parse_line(line: &str, year: i32) -> (r: Option<LogEntry>)
    ensures
        line_record(line@, year) is None ==> r is None,
        r matches Some(e) ==> line_record(line@, year) is Some && ({
            let (lv, st, msg, det) = line_record(line@, year)->0;
            e.level@ == lv && e.timestamp.stamp == st && -86400 < e.timestamp.offset_seconds
                < 86400 && e.message@ == msg && pairs_view(e.details@) == det
        }),
{
    let parts = match match_line(line) {
        None => {
            return None;
        },
        Some(p) => p,
    };
    let st = match parse_stamp(year, parts.stamp_text.as_str()) {
        None => {
            return None;
        },
        Some(s) => s,
    };
    let off = match local_offset_seconds(&st) {
        None => {
            return None;
        },
        Some(o) => o,
    };
    Some(finish_entry(parts, st, off))
}

/// Processing the same line under the same year twice yields the same
/// outcome: the record content is a function of the line and the year
/// alone. Only the zone resolution stands outside this statement; the
/// machine's time zone fixes it.
pub proof fn lemma_processing_deterministic(
    s: Seq<char>,
    year: i32,
    r1: Option<(Seq<char>, Stamp, Seq<char>, Seq<(Seq<char>, Seq<char>)>)>,
    r2: Option<(Seq<char>, Stamp, Seq<char>, Seq<(Seq<char>, Seq<char>)>)>,
)
    requires
        r1 == line_record(s, year),
        r2 == line_record(s, year),
    ensures
        r1 == r2,
{
}

} // verus!

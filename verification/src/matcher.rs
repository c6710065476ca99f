use vstd::prelude::*;
use vstd::string::{StrSliceExecFns, StringExecFns};

use crate::chars::{is_ws, scan_ws, ws_char, ws_end};

verus! {

// Structural matcher: recognizes the three-part shape
//   LEVEL [TIMESTAMP] MESSAGE
// of a log line. LEVEL is one of INFO, WARN, ERROR, DEBUG, TRACE, exactly at
// the start of the line; any run of whitespace may follow it before the `[`.
// The timestamp text is the shortest non-empty span after `[` that ends at a
// `]` immediately followed by whitespace; at least one whitespace character
// must separate that `]` from the message, which is the rest of the line.

/// Length of the severity token at the start of the line, if there is one.
pub open spec fn level_len(s: Seq<char>) -> Option<int> {
    if s.len() >= 4 && s[0] == 'I' && s[1] == 'N' && s[2] == 'F' && s[3] == 'O' {
        Some(4int)
    } else if s.len() >= 4 && s[0] == 'W' && s[1] == 'A' && s[2] == 'R' && s[3] == 'N' {
        Some(4int)
    } else if s.len() >= 5 && s[0] == 'E' && s[1] == 'R' && s[2] == 'R' && s[3] == 'O' && s[4]
        == 'R' {
        Some(5int)
    } else if s.len() >= 5 && s[0] == 'D' && s[1] == 'E' && s[2] == 'B' && s[3] == 'U' && s[4]
        == 'G' {
        Some(5int)
    } else if s.len() >= 5 && s[0] == 'T' && s[1] == 'R' && s[2] == 'A' && s[3] == 'C' && s[4]
        == 'E' {
        Some(5int)
    } else {
        None
    }
}

/// Position `p` closes the timestamp: it holds `]` and a whitespace
/// character follows it.
pub open spec fn closes_stamp(s: Seq<char>, p: int) -> bool {
    0 <= p && p + 1 < s.len() && s[p] == ']' && is_ws(s[p + 1])
}

/// The first position at or after `from` that closes the timestamp.
pub open spec fn stamp_close(s: Seq<char>, from: int) -> Option<int>
    decreases s.len() - from,
{
    if from < 0 || from >= s.len() {
        None
    } else if closes_stamp(s, from) {
        Some(from)
    } else {
        stamp_close(s, from + 1)
    }
}

pub proof fn lemma_stamp_close_found(s: Seq<char>, from: int, e: int)
    requires
        0 <= from <= e,
        closes_stamp(s, e),
        forall|p: int| from <= p < e ==> !closes_stamp(s, p),
    ensures
        stamp_close(s, from) == Some(e),
    decreases e - from,
{
    if from < e {
        lemma_stamp_close_found(s, from + 1, e);
    }
}

pub proof fn lemma_stamp_close_none(s: Seq<char>, from: int)
    requires
        0 <= from,
        forall|p: int| from <= p < s.len() ==> !closes_stamp(s, p),
    ensures
        stamp_close(s, from) == None::<int>,
    decreases s.len() - from,
{
    if from < s.len() {
        lemma_stamp_close_none(s, from + 1);
    }
}

/// What the structural matcher yields on a line: the severity token, the raw
/// timestamp text between the brackets, and the message, or nothing when the
/// line does not have the required shape.
pub open spec fn line_match(s: Seq<char>) -> Option<(Seq<char>, Seq<char>, Seq<char>)> {
    match level_len(s) {
        None => None,
        Some(ll) => {
            let j = ws_end(s, ll);
            if j < s.len() && s[j] == '[' {
                match stamp_close(s, j + 2) {
                    None => None,
                    Some(e) => {
                        let m = ws_end(s, e + 1);
                        Some((s.subrange(0, ll), s.subrange(j + 1, e), s.subrange(m, s.len() as int)))
                    },
                }
            } else {
                None
            }
        },
    }
}

/// The three segments of a recognized log line.
pub struct MatchedLine {
    pub level: String,
    pub stamp_text: String,
    pub message: String,
}

fn level_prefix(line: &str) -> (r: Option<usize>)
    ensures
        r matches Some(ll) ==> level_len(line@) == Some(ll as int),
        r is None ==> level_len(line@) is None,
{
    let n = line.unicode_len();
    if n >= 4 {
        let c0 = line.get_char(0);
        let c1 = line.get_char(1);
        let c2 = line.get_char(2);
        let c3 = line.get_char(3);
        if c0 == 'I' && c1 == 'N' && c2 == 'F' && c3 == 'O' {
            return Some(4);
        }
        if c0 == 'W' && c1 == 'A' && c2 == 'R' && c3 == 'N' {
            return Some(4);
        }
        if n >= 5 {
            let c4 = line.get_char(4);
            if c0 == 'E' && c1 == 'R' && c2 == 'R' && c3 == 'O' && c4 == 'R' {
                return Some(5);
            }
            if c0 == 'D' && c1 == 'E' && c2 == 'B' && c3 == 'U' && c4 == 'G' {
                return Some(5);
            }
            if c0 == 'T' && c1 == 'R' && c2 == 'A' && c3 == 'C' && c4 == 'E' {
                return Some(5);
            }
        }
    }
    None
}

/// Structural matcher. Returns the severity, the raw timestamp text and the
/// message of a line of the shape `LEVEL [TIMESTAMP] MESSAGE`, and nothing
/// for every other line.
#[verifier::loop_isolation(false)]
pub fn match_line(line: &str) -> (r: Option<MatchedLine>)
    ensures
        r is Some <==> line_match(line@) is Some,
        r matches Some(m) ==> line_match(line@) == Some((m.level@, m.stamp_text@, m.message@)),
{
    let n = line.unicode_len();
    let ll = match level_prefix(line) {
        None => {
            return None;
        },
        Some(ll) => ll,
    };
    let j = scan_ws(line, ll);
    if j >= n || line.get_char(j) != '[' {
        return None;
    }
    if n < 3 || j >= n - 2 {
        proof {
            assert(stamp_close(line@, j + 2) is None);
        }
        return None;
    }
    let mut k: usize = j + 2;
    let mut found: bool = false;
    while k < n - 1 && !found
        invariant
            j + 2 <= k <= n - 1,
            forall|p: int| j + 2 <= p < k ==> !closes_stamp(line@, p),
            found ==> closes_stamp(line@, k as int),
        decreases n - k, if found { 0int } else { 1int },
    {
        if line.get_char(k) == ']' && ws_char(line.get_char(k + 1)) {
            found = true;
        } else {
            k = k + 1;
        }
    }
    if !found {
        proof {
            assert(forall|p: int| j + 2 <= p < line@.len() ==> !closes_stamp(line@, p));
            lemma_stamp_close_none(line@, j + 2);
        }
        return None;
    }
    let e = k;
    proof {
        lemma_stamp_close_found(line@, j + 2, e as int);
    }
    let m = scan_ws(line, e + 1);
    let level = line.substring_char(0, ll);
    let stamp_text = line.substring_char(j + 1, e);
    let message = line.substring_char(m, n);
    Some(
        MatchedLine {
            level: String::from_str(level),
            stamp_text: String::from_str(stamp_text),
            message: String::from_str(message),
        },
    )
}

} // verus!

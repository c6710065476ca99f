use vstd::prelude::*;
use vstd::string::StrSliceExecFns;

use crate::chars::{
    digit_end, dval, is_digit, lemma_digit_end_props, lemma_ws_end_is, scan_digits,
    scan_ws, ws_end,
};

verus! {

// Timestamp reconstruction. The raw timestamp text captured between the
// brackets is combined with a caller-supplied year and read against the
// layout `MM-DD|HH:MM:SS` with an optional fractional-second suffix:
// each numeric field is one or two digits and may be preceded by whitespace,
// the separators must follow their field immediately, the fraction is a dot
// followed by at least one digit (the first nine digits carry value, any
// further digits are accepted and ignored), and nothing may follow. The
// result must name a real calendar date and time of day; a second field of
// 60 is kept as a leap second on second 59.

/// A wall-clock instant: a calendar date and a time of day, without a zone.
/// A leap second is carried as `second == 59` with `nanosecond` at or above
/// one billion.
#[derive(PartialEq, Eq, Structural, Clone, Copy, Debug)]
pub struct Stamp {
    pub year: i32,
    pub month: u8,
    pub day: u8,
    pub hour: u8,
    pub minute: u8,
    pub second: u8,
    pub nanosecond: u32,
}

/// A year the reconstruction can accept: non-negative years must fit in four
/// digits, and the proleptic calendar reaches back to year -262143.
pub open spec fn year_ok(y: int) -> bool {
    -262143 <= y <= 9999
}

/// Proleptic Gregorian leap year.
pub open spec fn is_leap(y: int) -> bool {
    y % 4 == 0 && (y % 100 != 0 || y % 400 == 0)
}

/// Number of days in a month of the proleptic Gregorian calendar.
pub open spec fn days_in_month(y: int, m: int) -> int {
    if m == 2 {
        if is_leap(y) {
            29
        } else {
            28
        }
    } else if m == 4 || m == 6 || m == 9 || m == 11 {
        30
    } else {
        31
    }
}

/// A whitespace run, then one or two digits: the value and the position that
/// follows the digits.
pub open spec fn num2(s: Seq<char>, i: int) -> Option<(int, int)> {
    let j = ws_end(s, i);
    if j < s.len() && is_digit(s[j]) {
        if j + 1 < s.len() && is_digit(s[j + 1]) {
            Some((10 * dval(s[j]) + dval(s[j + 1]), j + 2))
        } else {
            Some((dval(s[j]), j + 1))
        }
    } else {
        None
    }
}

/// Exactly the character `c` at position `i`.
pub open spec fn lit(s: Seq<char>, i: int, c: char) -> Option<int> {
    if 0 <= i < s.len() && s[i] == c {
        Some(i + 1)
    } else {
        None
    }
}

/// Value of the digit run `s[a..b]`, read left to right.
pub open spec fn digits_value(s: Seq<char>, a: int, b: int) -> int
    decreases b - a,
{
    if a >= b {
        0
    } else {
        digits_value(s, a, b - 1) * 10 + dval(s[b - 1])
    }
}

pub open spec fn pow10(k: nat) -> int
    decreases k,
{
    if k == 0 {
        1
    } else {
        10 * pow10((k - 1) as nat)
    }
}

pub proof fn lemma_pow10_add(a: nat, b: nat)
    ensures
        pow10(a + b) == pow10(a) * pow10(b),
    decreases a,
{
    if a == 0 {
    } else {
        lemma_pow10_add((a - 1) as nat, b);
        assert(pow10(a + b) == 10 * pow10((a + b - 1) as nat));
        assert(10 * (pow10((a - 1) as nat) * pow10(b)) == (10 * pow10((a - 1) as nat)) * pow10(b))
            by (nonlinear_arith);
    }
}

pub proof fn lemma_digits_value_bound(s: Seq<char>, a: int, b: int)
    requires
        0 <= a <= b <= s.len(),
        forall|k: int| a <= k < b ==> is_digit(s[k]),
    ensures
        0 <= digits_value(s, a, b) < pow10((b - a) as nat),
    decreases b - a,
{
    if a < b {
        lemma_digits_value_bound(s, a, b - 1);
        assert(pow10((b - a) as nat) == 10 * pow10((b - a - 1) as nat));
        assert(digits_value(s, a, b - 1) <= pow10((b - a - 1) as nat) - 1);
        assert(digits_value(s, a, b - 1) * 10 <= (pow10((b - a - 1) as nat) - 1) * 10)
            by (nonlinear_arith)
            requires
                digits_value(s, a, b - 1) <= pow10((b - a - 1) as nat) - 1,
        ;
    }
}

/// The optional fractional-second suffix at position `i`: the nanosecond
/// value and the position after all fraction digits. Without a dot at `i`
/// nothing is consumed; a dot not followed by a digit fails.
pub open spec fn frac(s: Seq<char>, i: int) -> Option<(int, int)> {
    if 0 <= i < s.len() && s[i] == '.' {
        let d0 = i + 1;
        let de = digit_end(s, d0);
        if de == d0 {
            None
        } else {
            let k = if de - d0 > 9 {
                9
            } else {
                de - d0
            };
            Some((digits_value(s, d0, d0 + k) * pow10((9 - k) as nat), de))
        }
    } else {
        Some((0, i))
    }
}

/// Combines the parsed fields into a `Stamp`, folding a leap second (a
/// second field of 60) onto second 59.
pub open spec fn stamp_of(year: i32, mo: int, d: int, h: int, mi: int, se: int, nano: int) -> Stamp {
    Stamp {
        year: year,
        month: mo as u8,
        day: d as u8,
        hour: h as u8,
        minute: mi as u8,
        second: if se == 60 {
            59u8
        } else {
            se as u8
        },
        nanosecond: (nano + if se == 60 {
            1000000000int
        } else {
            0int
        }) as u32,
    }
}

/// What reconstructing the raw timestamp text `s` under `year` yields:
/// a wall-clock instant, or nothing when the text does not follow the
/// layout or names no real date or time of day.
pub open spec fn parse_stamp_spec(year: i32, s: Seq<char>) -> Option<Stamp> {
    match num2(s, 0) {
        None => None,
        Some((mo, p1)) => match lit(s, p1, '-') {
            None => None,
            Some(p2) => match num2(s, p2) {
                None => None,
                Some((d, p3)) => match lit(s, p3, '|') {
                    None => None,
                    Some(p4) => match num2(s, p4) {
                        None => None,
                        Some((h, p5)) => match lit(s, p5, ':') {
                            None => None,
                            Some(p6) => match num2(s, p6) {
                                None => None,
                                Some((mi, p7)) => match lit(s, p7, ':') {
                                    None => None,
                                    Some(p8) => match num2(s, p8) {
                                        None => None,
                                        Some((se, p9)) => match frac(s, p9) {
                                            None => None,
                                            Some((nano, p10)) => {
                                                if p10 == s.len() && year_ok(year as int) && 1 <= mo
                                                    <= 12 && 1 <= d && d <= days_in_month(
                                                    year as int,
                                                    mo,
                                                ) && h <= 23 && mi <= 59 && se <= 60 {
                                                    Some(stamp_of(year, mo, d, h, mi, se, nano))
                                                } else {
                                                    None
                                                }
                                            },
                                        },
                                    },
                                },
                            },
                        },
                    },
                },
            },
        },
    }
}

/// A well-formed wall-clock instant: a real calendar date, an hour below 24,
/// a minute below 60, and a second below 60 whose nanosecond part may reach
/// into a leap second only on second 59.
pub open spec fn stamp_valid(st: Stamp) -> bool {
    year_ok(st.year as int) && 1 <= st.month <= 12 && 1 <= st.day <= days_in_month(
        st.year as int,
        st.month as int,
    ) && st.hour <= 23 && st.minute <= 59 && st.second <= 59 && st.nanosecond < 2000000000 && (
    st.nanosecond >= 1000000000 ==> st.second == 59)
}

fn read_num2(s: &str, i: usize) -> (r: Option<(u32, usize)>)
    requires
        i <= s@.len(),
    ensures
        r is None ==> num2(s@, i as int) is None,
        r matches Some((v, p)) ==> num2(s@, i as int) == Some((v as int, p as int)) && v <= 99 && i
            <= p <= s@.len(),
{
    let n = s.unicode_len();
    let j = scan_ws(s, i);
    if j >= n {
        return None;
    }
    let c0 = s.get_char(j);
    let u0 = c0 as u32;
    if !(48 <= u0 && u0 <= 57) {
        return None;
    }
    if j + 1 < n {
        let c1 = s.get_char(j + 1);
        let u1 = c1 as u32;
        if 48 <= u1 && u1 <= 57 {
            return Some((10 * (u0 - 48) + (u1 - 48), j + 2));
        }
    }
    Some((u0 - 48, j + 1))
}

fn read_lit(s: &str, i: usize, c: char) -> (r: Option<usize>)
    requires
        i <= s@.len(),
    ensures
        r is None ==> lit(s@, i as int, c) is None,
        r matches Some(p) ==> lit(s@, i as int, c) == Some(p as int) && i < p <= s@.len(),
{
    let n = s.unicode_len();
    if i < n && s.get_char(i) == c {
        Some(i + 1)
    } else {
        None
    }
}

fn pow10_exec(k: usize) -> (r: u32)
    requires
        k <= 9,
    ensures
        r == pow10(k as nat),
{
    proof {
        reveal_with_fuel(pow10, 11);
    }
    if k == 0 {
        1
    } else if k == 1 {
        10
    } else if k == 2 {
        100
    } else if k == 3 {
        1000
    } else if k == 4 {
        10000
    } else if k == 5 {
        100000
    } else if k == 6 {
        1000000
    } else if k == 7 {
        10000000
    } else if k == 8 {
        100000000
    } else {
        1000000000
    }
}

#[verifier::loop_isolation(false)]
#[verifier::rlimit(60)]
fn read_frac(s: &str, i: usize) -> (r: Option<(u32, usize)>)
    requires
        i <= s@.len(),
    ensures
        r is None ==> frac(s@, i as int) is None,
        r matches Some((v, p)) ==> frac(s@, i as int) == Some((v as int, p as int)) && v
            < 1000000000 && i <= p <= s@.len(),
{
    let n = s.unicode_len();
    if i < n && s.get_char(i) == '.' {
        let d0 = i + 1;
        let de = scan_digits(s, d0);
        if de == d0 {
            return None;
        }
        let k: usize = if de - d0 > 9 {
            9
        } else {
            de - d0
        };
        proof {
            reveal_with_fuel(pow10, 11);
            lemma_digit_end_props(s@, d0 as int);
        }
        let mut acc: u32 = 0;
        let mut idx = d0;
        while idx < d0 + k
            invariant
                d0 <= idx <= d0 + k,
                d0 + k <= de,
                forall|q: int| d0 <= q < de ==> is_digit(s@[q]),
                acc == digits_value(s@, d0 as int, idx as int),
                acc < pow10((idx - d0) as nat),
            decreases d0 + k - idx,
        {
            proof {
                reveal_with_fuel(pow10, 11);
                assert(pow10(((idx - d0) + 1) as nat) == 10 * pow10((idx - d0) as nat));
                assert(pow10((idx - d0) as nat) <= pow10(8nat)) by {
                    lemma_pow10_add((idx - d0) as nat, (8 - (idx - d0)) as nat);
                    lemma_pow10_pos((8 - (idx - d0)) as nat);
                    assert(pow10(8nat) == pow10((idx - d0) as nat) * pow10((8 - (idx - d0)) as nat));
                    assert(pow10((idx - d0) as nat) * 1 <= pow10((idx - d0) as nat) * pow10(
                        (8 - (idx - d0)) as nat,
                    )) by (nonlinear_arith)
                        requires
                            pow10((8 - (idx - d0)) as nat) >= 1,
                            pow10((idx - d0) as nat) >= 0,
                    ;
                }
            }
            let c = s.get_char(idx);
            let u = c as u32;
            acc = acc * 10 + (u - 48);
            idx = idx + 1;
        }
        proof {
            lemma_digits_value_bound(s@, d0 as int, (d0 + k) as int);
            lemma_pow10_add(k as nat, (9 - k) as nat);
            lemma_pow10_pos((9 - k) as nat);
            assert(acc * pow10((9 - k) as nat) <= (pow10(k as nat) - 1) * pow10((9 - k) as nat))
                by (nonlinear_arith)
                requires
                    acc <= pow10(k as nat) - 1,
                    pow10((9 - k) as nat) >= 1,
            ;
            assert((pow10(k as nat) - 1) * pow10((9 - k) as nat) == pow10(k as nat) * pow10(
                (9 - k) as nat,
            ) - pow10((9 - k) as nat)) by (nonlinear_arith);
            reveal_with_fuel(pow10, 11);
        }
        let scale = pow10_exec(9 - k);
        let v = acc * scale;
        Some((v, de))
    } else {
        Some((0, i))
    }
}

pub proof fn lemma_pow10_pos(k: nat)
    ensures
        pow10(k) >= 1,
    decreases k,
{
    if k > 0 {
        lemma_pow10_pos((k - 1) as nat);
    }
}

fn leap_year(y: i32) -> (r: bool)
    ensures
        r == is_leap(y as int),
{
    let m4 = y.checked_rem_euclid(4).unwrap();
    let m100 = y.checked_rem_euclid(100).unwrap();
    let m400 = y.checked_rem_euclid(400).unwrap();
    m4 == 0 && (m100 != 0 || m400 == 0)
}

/// Number of days in month `m` of year `y`.
pub fn month_days(y: i32, m: u32) -> (r: u32)
    requires
        1 <= m <= 12,
    ensures
        r == days_in_month(y as int, m as int),
{
    if m == 2 {
        if leap_year(y) {
            29
        } else {
            28
        }
    } else if m == 4 || m == 6 || m == 9 || m == 11 {
        30
    } else {
        31
    }
}

/// Reconstructs a wall-clock instant from the raw timestamp text and the
/// supplied year, or reports that the text is unusable.
pub fn parse_stamp(year: i32, raw: &str) -> (r: Option<Stamp>)
    ensures
        r == parse_stamp_spec(year, raw@),
{
    let n = raw.unicode_len();
    let (mo, p1) = match read_num2(raw, 0) {
        None => {
            return None;
        },
        Some(x) => x,
    };
    let p2 = match read_lit(raw, p1, '-') {
        None => {
            return None;
        },
        Some(x) => x,
    };
    let (d, p3) = match read_num2(raw, p2) {
        None => {
            return None;
        },
        Some(x) => x,
    };
    let p4 = match read_lit(raw, p3, '|') {
        None => {
            return None;
        },
        Some(x) => x,
    };
    let (h, p5) = match read_num2(raw, p4) {
        None => {
            return None;
        },
        Some(x) => x,
    };
    let p6 = match read_lit(raw, p5, ':') {
        None => {
            return None;
        },
        Some(x) => x,
    };
    let (mi, p7) = match read_num2(raw, p6) {
        None => {
            return None;
        },
        Some(x) => x,
    };
    let p8 = match read_lit(raw, p7, ':') {
        None => {
            return None;
        },
        Some(x) => x,
    };
    let (se, p9) = match read_num2(raw, p8) {
        None => {
            return None;
        },
        Some(x) => x,
    };
    let (nano, p10) = match read_frac(raw, p9) {
        None => {
            return None;
        },
        Some(x) => x,
    };
    if !(p10 == n && -262143 <= year && year <= 9999 && 1 <= mo && mo <= 12 && 1 <= d && d
        <= month_days(year, mo) && h <= 23 && mi <= 59 && se <= 60) {
        return None;
    }
    let second: u8 = if se == 60 {
        59
    } else {
        se as u8
    };
    let nanosecond: u32 = if se == 60 {
        nano + 1000000000
    } else {
        nano
    };
    Some(
        Stamp {
            year,
            month: mo as u8,
            day: d as u8,
            hour: h as u8,
            minute: mi as u8,
            second,
            nanosecond,
        },
    )
}

} // verus!

verus! {

/// Every instant the reconstruction yields is well-formed: it names a real
/// calendar date and time of day. In particular a month of 13, a day of 32
/// or an hour of 24 never yields an entry.
pub proof fn lemma_parsed_stamp_valid(year: i32, s: Seq<char>, st: Stamp)
    requires
        parse_stamp_spec(year, s) == Some(st),
    ensures
        stamp_valid(st),
{
    let (mo, p1) = num2(s, 0)->0;
    let p2 = lit(s, p1, '-')->0;
    let (d, p3) = num2(s, p2)->0;
    let p4 = lit(s, p3, '|')->0;
    let (h, p5) = num2(s, p4)->0;
    let p6 = lit(s, p5, ':')->0;
    let (mi, p7) = num2(s, p6)->0;
    let p8 = lit(s, p7, ':')->0;
    let (se, p9) = num2(s, p8)->0;
    let (nano, p10) = frac(s, p9)->0;
    if 0 <= p9 < s.len() && s[p9] == '.' {
        let d0 = p9 + 1;
        let de = digit_end(s, d0);
        let k = if de - d0 > 9 {
            9int
        } else {
            de - d0
        };
        lemma_digit_end_props(s, d0);
        lemma_digits_value_bound(s, d0, d0 + k);
        lemma_pow10_add(k as nat, (9 - k) as nat);
        lemma_pow10_pos((9 - k) as nat);
        lemma_pow10_pos(k as nat);
        let dv = digits_value(s, d0, d0 + k);
        assert(dv * pow10((9 - k) as nat) <= (pow10(k as nat) - 1) * pow10((9 - k) as nat))
            by (nonlinear_arith)
            requires
                dv <= pow10(k as nat) - 1,
                pow10((9 - k) as nat) >= 1,
        ;
        assert((pow10(k as nat) - 1) * pow10((9 - k) as nat) == pow10(k as nat) * pow10(
            (9 - k) as nat,
        ) - pow10((9 - k) as nat)) by (nonlinear_arith);
        assert(dv * pow10((9 - k) as nat) >= 0) by (nonlinear_arith)
            requires
                dv >= 0,
                pow10((9 - k) as nat) >= 1,
        ;
        reveal_with_fuel(pow10, 11);
        assert(0 <= nano < 1000000000);
    } else {
        assert(nano == 0);
    }
}

/// Reconstructing a timestamp text of the canonical shape
/// `MM-DD|HH:MM:SS` under a year yields exactly the instant whose
/// components are the written ones.
pub proof fn lemma_canonical_reconstruction(
    year: i32,
    mo: int,
    d: int,
    h: int,
    mi: int,
    se: int,
    raw: Seq<char>,
)
    requires
        raw.len() == 14,
        forall|k: int| 0 <= k < 14 && k != 2 && k != 5 && k != 8 && k != 11 ==> is_digit(raw[k]),
        raw[2] == '-',
        raw[5] == '|',
        raw[8] == ':',
        raw[11] == ':',
        mo == 10 * dval(raw[0]) + dval(raw[1]),
        d == 10 * dval(raw[3]) + dval(raw[4]),
        h == 10 * dval(raw[6]) + dval(raw[7]),
        mi == 10 * dval(raw[9]) + dval(raw[10]),
        se == 10 * dval(raw[12]) + dval(raw[13]),
        year_ok(year as int),
        1 <= mo <= 12,
        1 <= d <= days_in_month(year as int, mo),
        h <= 23,
        mi <= 59,
        se <= 59,
    ensures
        parse_stamp_spec(year, raw) == Some(
            Stamp {
                year,
                month: mo as u8,
                day: d as u8,
                hour: h as u8,
                minute: mi as u8,
                second: se as u8,
                nanosecond: 0,
            },
        ),
{
    lemma_ws_end_is(raw, 0, 0);
    assert(num2(raw, 0) == Some((mo, 2int)));
    assert(lit(raw, 2, '-') == Some(3int));
    lemma_ws_end_is(raw, 3, 3);
    assert(num2(raw, 3) == Some((d, 5int)));
    assert(lit(raw, 5, '|') == Some(6int));
    lemma_ws_end_is(raw, 6, 6);
    assert(num2(raw, 6) == Some((h, 8int)));
    assert(lit(raw, 8, ':') == Some(9int));
    lemma_ws_end_is(raw, 9, 9);
    assert(num2(raw, 9) == Some((mi, 11int)));
    assert(lit(raw, 11, ':') == Some(12int));
    lemma_ws_end_is(raw, 12, 12);
    assert(num2(raw, 12) == Some((se, 14int)));
    assert(frac(raw, 14) == Some((0int, 14int)));
}

} // verus!

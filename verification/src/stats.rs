//! Usage statistics computed from what is on the machine: play sessions read
//! from the game's rotated log files, and the installation date taken from
//! the platform's registry or a folder timestamp. File and registry access
//! run on the caller's side; this module parses the texts and does the
//! arithmetic.
use vstd::prelude::*;

use vstd::string::StringExecFns;

use crate::backup::u64_string;
use crate::text::chars_to_string;
use crate::text::is_digit_byte;
use crate::text::push_char;
use crate::text::str_chars;

verus! {

/// A calendar timestamp as read from a game log line.
#[derive(PartialEq, Eq, Structural, Clone, Copy, Debug)]
pub struct LogStamp {
    pub year: u32,
    pub month: u32,
    pub day: u32,
    pub hour: u32,
    pub minute: u32,
    pub second: u32,
}

pub open spec fn is_leap_year(y: int) -> bool {
    y % 4 == 0 && (y % 100 != 0 || y % 400 == 0)
}

pub open spec fn days_in_month(y: int, m: int) -> int {
    if m == 2 {
        if is_leap_year(y) {
            29
        } else {
            28
        }
    } else if m == 4 || m == 6 || m == 9 || m == 11 {
        30
    } else {
        31
    }
}

/// A real calendar timestamp: in-range fields for its month and year.
pub open spec fn stamp_valid(t: LogStamp) -> bool {
    &&& t.year <= 9999
    &&& 1 <= t.month <= 12
    &&& 1 <= t.day <= days_in_month(t.year as int, t.month as int)
    &&& t.hour < 24
    &&& t.minute < 60
    &&& t.second < 60
}

/// Days between the calendar epoch used here and a date, by the standard
/// civil-calendar formula, shifted by four hundred years so that every
/// intermediate value stays non-negative for all years this module accepts.
pub open spec fn spec_epoch_days(y: int, m: int, d: int) -> int {
    let yp = if m <= 2 {
        y + 399
    } else {
        y + 400
    };
    let era = yp / 400;
    let yoe = yp - era * 400;
    let mp = if m > 2 {
        m - 3
    } else {
        m + 9
    };
    let doy = (153 * mp + 2) / 5 + d - 1;
    let doe = yoe * 365 + yoe / 4 - yoe / 100 + doy;
    era * 146097 + doe - 719468 - 146097
}

/// Seconds between the epoch and a timestamp.
pub open spec fn spec_epoch_seconds(t: LogStamp) -> int {
    spec_epoch_days(t.year as int, t.month as int, t.day as int) * 86400 + t.hour as int * 3600
        + t.minute as int * 60 + t.second as int
}

/// Compute the epoch second count of a valid timestamp.
pub fn epoch_seconds(t: &LogStamp) -> (r: i64)
    requires
        stamp_valid(*t),
    ensures
        r as int == spec_epoch_seconds(*t),
        -100000000000 <= r <= 400000000000,
{
    let yp: i64 = if t.month <= 2 {
        t.year as i64 + 399
    } else {
        t.year as i64 + 400
    };
    let era: i64 = yp / 400;
    proof {
        assert(399 <= yp <= 10399);
        assert(0 <= era <= 25);
    }
    let yoe: i64 = yp - era * 400;
    proof {
        assert(0 <= yoe <= 399);
    }
    let mp: i64 = if t.month > 2 {
        t.month as i64 - 3
    } else {
        t.month as i64 + 9
    };
    proof {
        assert(0 <= mp <= 11);
    }
    let doy: i64 = (153 * mp + 2) / 5 + t.day as i64 - 1;
    proof {
        assert(0 <= doy <= 366);
    }
    let doe: i64 = yoe * 365 + yoe / 4 - yoe / 100 + doy;
    proof {
        assert(0 <= doe <= 146460);
    }
    let days: i64 = era * 146097 + doe - 719468 - 146097;
    proof {
        assert(-865565 <= days <= 3933320);
    }
    days * 86400 + t.hour as i64 * 3600 + t.minute as i64 * 60 + t.second as i64
}

/// Whole minutes of a session spanning two timestamps: exact for sessions
/// that do not run backwards; a backwards pair never counts as positive.
pub fn session_minutes(first: &LogStamp, last: &LogStamp) -> (r: i64)
    requires
        stamp_valid(*first),
        stamp_valid(*last),
    ensures
        spec_epoch_seconds(*last) >= spec_epoch_seconds(*first) ==> r as int == (spec_epoch_seconds(
            *last,
        ) - spec_epoch_seconds(*first)) / 60,
        spec_epoch_seconds(*last) < spec_epoch_seconds(*first) ==> r <= 0,
{
    let a = epoch_seconds(first);
    let b = epoch_seconds(last);
    if b >= a {
        (b - a) / 60
    } else {
        let d = (a - b) / 60;
        proof {
            assert(d >= 0);
        }
        -d
    }
}

/// A session counts toward playtime when it is positive and shorter than a
/// day; anything else is treated as a logging artifact.
pub fn session_counts(minutes: i64) -> (r: bool)
    ensures
        r == (0 < minutes && minutes < 1440),
{
    0 < minutes && minutes < 1440
}

fn digit_val(b: u8) -> (r: u32)
    requires
        is_digit_byte(b),
    ensures
        r == b - 48,
        r <= 9,
{
    (b - 48) as u32
}

/// The fixed `<YYYY-MM-DDTHH:MM:SS` shape at the head of a game log line.
pub open spec fn spec_line_stamp_shape(l: Seq<u8>) -> bool {
    &&& l.len() >= 20
    &&& l[0] == 60
    &&& is_digit_byte(l[1]) && is_digit_byte(l[2]) && is_digit_byte(l[3]) && is_digit_byte(l[4])
    &&& l[5] == 45
    &&& is_digit_byte(l[6]) && is_digit_byte(l[7])
    &&& l[8] == 45
    &&& is_digit_byte(l[9]) && is_digit_byte(l[10])
    &&& l[11] == 84
    &&& is_digit_byte(l[12]) && is_digit_byte(l[13])
    &&& l[14] == 58
    &&& is_digit_byte(l[15]) && is_digit_byte(l[16])
    &&& l[17] == 58
    &&& is_digit_byte(l[18]) && is_digit_byte(l[19])
}

pub open spec fn spec_line_stamp(l: Seq<u8>) -> LogStamp {
    LogStamp {
        year: ((l[1] - 48) * 1000 + (l[2] - 48) * 100 + (l[3] - 48) * 10 + (l[4] - 48)) as u32,
        month: ((l[6] - 48) * 10 + (l[7] - 48)) as u32,
        day: ((l[9] - 48) * 10 + (l[10] - 48)) as u32,
        hour: ((l[12] - 48) * 10 + (l[13] - 48)) as u32,
        minute: ((l[15] - 48) * 10 + (l[16] - 48)) as u32,
        second: ((l[18] - 48) * 10 + (l[19] - 48)) as u32,
    }
}

fn is_digit(b: u8) -> (r: bool)
    ensures
        r == is_digit_byte(b),
{
    48 <= b && b <= 57
}

/// Parse the timestamp at the head of a game log line: present exactly when
/// the line opens with the log's fixed timestamp shape and the fields form a
/// real calendar timestamp.
pub fn parse_log_line_stamp(line: &Vec<u8>) -> (r: Option<LogStamp>)
    ensures
        r is Some <==> spec_line_stamp_shape(line@) && stamp_valid(spec_line_stamp(line@)),
        r is Some ==> r->0 == spec_line_stamp(line@),
{
    if line.len() < 20 {
        return None;
    }
    if line[0] != 60 {
        return None;
    }
    if !(is_digit(line[1]) && is_digit(line[2]) && is_digit(line[3]) && is_digit(line[4])) {
        return None;
    }
    if line[5] != 45 {
        return None;
    }
    if !(is_digit(line[6]) && is_digit(line[7])) {
        return None;
    }
    if line[8] != 45 {
        return None;
    }
    if !(is_digit(line[9]) && is_digit(line[10])) {
        return None;
    }
    if line[11] != 84 {
        return None;
    }
    if !(is_digit(line[12]) && is_digit(line[13])) {
        return None;
    }
    if line[14] != 58 {
        return None;
    }
    if !(is_digit(line[15]) && is_digit(line[16])) {
        return None;
    }
    if line[17] != 58 {
        return None;
    }
    if !(is_digit(line[18]) && is_digit(line[19])) {
        return None;
    }
    let year = digit_val(line[1]) * 1000 + digit_val(line[2]) * 100 + digit_val(line[3]) * 10
        + digit_val(line[4]);
    let month = digit_val(line[6]) * 10 + digit_val(line[7]);
    let day = digit_val(line[9]) * 10 + digit_val(line[10]);
    let hour = digit_val(line[12]) * 10 + digit_val(line[13]);
    let minute = digit_val(line[15]) * 10 + digit_val(line[16]);
    let second = digit_val(line[18]) * 10 + digit_val(line[19]);
    let stamp = LogStamp { year, month, day, hour, minute, second };
    proof {
        assert(stamp == spec_line_stamp(line@));
    }
    if month < 1 || month > 12 {
        return None;
    }
    let dim: u32 = if month == 2 {
        let leap = year % 4 == 0 && (year % 100 != 0 || year % 400 == 0);
        if leap {
            29
        } else {
            28
        }
    } else if month == 4 || month == 6 || month == 9 || month == 11 {
        30
    } else {
        31
    };
    proof {
        assert(dim == days_in_month(year as int, month as int));
    }
    if day < 1 || day > dim {
        return None;
    }
    if hour >= 24 || minute >= 60 || second >= 60 {
        return None;
    }
    Some(stamp)
}

/// Playtime rendered for display: hours and zero-padded minutes when at
/// least an hour, bare minutes otherwise.
pub fn format_playtime(total_minutes: u64) -> (r: String)
    ensures
        ({
            let h = total_minutes as int / 60;
            let m = total_minutes as int % 60;
            if h > 0 {
                r@ == crate::text::spec_digits(h).map_values(|b: u8| b as char) + ("h ")@ + (
                if m < 10 {
                    seq!['0']
                } else {
                    Seq::<char>::empty()
                }) + crate::text::spec_digits(m).map_values(|b: u8| b as char) + ("min")@
            } else {
                r@ == crate::text::spec_digits(m).map_values(|b: u8| b as char) + ("min")@
            }
        }),
{
    let hours = total_minutes / 60;
    let minutes = total_minutes % 60;
    if hours > 0 {
        let mut out = u64_string(hours);
        out.append("h ");
        if minutes < 10 {
            push_char(&mut out, '0');
        }
        let m_str = u64_string(minutes);
        out.append(m_str.as_str());
        out.append("min");
        proof {
            if minutes < 10 {
                assert(out@ =~= crate::text::spec_digits(total_minutes as int / 60).map_values(
                    |b: u8| b as char,
                ) + ("h ")@ + seq!['0'] + crate::text::spec_digits(
                    total_minutes as int % 60,
                ).map_values(|b: u8| b as char) + ("min")@);
            } else {
                assert(out@ =~= crate::text::spec_digits(total_minutes as int / 60).map_values(
                    |b: u8| b as char,
                ) + ("h ")@ + Seq::<char>::empty() + crate::text::spec_digits(
                    total_minutes as int % 60,
                ).map_values(|b: u8| b as char) + ("min")@);
            }
        }
        out
    } else {
        let mut out = u64_string(minutes);
        out.append("min");
        out
    }
}

/// The eight-character registry install date `YYYYMMDD` rewritten as the ISO
/// form `YYYY-MM-DDT00:00:00Z`; dates of any other shape are passed over.
pub fn registry_date_to_iso(raw: &str) -> (r: Option<String>)
    ensures
        r is Some <==> (raw@.len() == 8 && forall|t: int|
            0 <= t < 8 ==> '0' <= #[trigger] raw@[t] && raw@[t] <= '9'),
        r is Some ==> r->0@ == raw@.subrange(0, 4) + seq!['-'] + raw@.subrange(4, 6) + seq!['-']
            + raw@.subrange(6, 8) + ("T00:00:00Z")@,
{
    let chars = str_chars(raw);
    if chars.len() != 8 {
        return None;
    }
    let mut all_digits = true;
    let mut k: usize = 0;
    while k < 8
        invariant
            0 <= k <= 8,
            chars@ == raw@,
            chars@.len() == 8,
            all_digits == (forall|t: int|
                0 <= t < k ==> '0' <= #[trigger] raw@[t] && raw@[t] <= '9'),
        decreases 8 - k,
    {
        let c = chars[k];
        if !('0' <= c && c <= '9') {
            all_digits = false;
            proof {
                assert(!('0' <= raw@[k as int] && raw@[k as int] <= '9'));
            }
        }
        k += 1;
    }
    if !all_digits {
        return None;
    }
    let mut out: Vec<char> = Vec::new();
    out.push(chars[0]);
    out.push(chars[1]);
    out.push(chars[2]);
    out.push(chars[3]);
    out.push('-');
    out.push(chars[4]);
    out.push(chars[5]);
    out.push('-');
    out.push(chars[6]);
    out.push(chars[7]);
    let mut s = chars_to_string(&out);
    s.append("T00:00:00Z");
    proof {
        assert(out@ =~= raw@.subrange(0, 4) + seq!['-'] + raw@.subrange(4, 6) + seq!['-']
            + raw@.subrange(6, 8));
    }
    Some(s)
}

/// What `chrono` reads out of an RFC 3339 timestamp: its count of seconds
/// since the common epoch, when it parses. The count depends on the input
/// characters alone.
pub uninterp spec fn rfc3339_unix_seconds(s: Seq<char>) -> Option<i64>;

/// Relies on chrono's `DateTime::parse_from_rfc3339` and `timestamp`: the
/// parse is a pure function of the timestamp string, absent exactly when the
/// string is not a valid RFC 3339 timestamp.
#[verifier::external_body]
pub fn parse_rfc3339_seconds(s: &str) -> (r: Option<i64>)
    ensures
        r == rfc3339_unix_seconds(s@),
{
    chrono::DateTime::parse_from_rfc3339(s).ok().map(|dt| dt.timestamp())
}

/// Whole days between a stored installation date and the present moment,
/// truncated toward zero: exactly the day count the interface shows. Absent
/// when the stored date does not parse.
pub fn days_since(date: &str, now_unix_seconds: i64) -> (r: Option<i64>)
    ensures
        rfc3339_unix_seconds(date@) is None ==> r is None,
        rfc3339_unix_seconds(date@) matches Some(t) ==> ({
            let d = now_unix_seconds - t;
            &&& (i64::MIN <= d <= i64::MAX) ==> (r is Some && (d >= 0 ==> r->0 == d / 86400) && (d
                < 0 ==> r->0 <= 0))
            &&& !(i64::MIN <= d <= i64::MAX) ==> r is None
        }),
{
    let t = match parse_rfc3339_seconds(date) {
        Some(t) => t,
        None => {
            return None;
        },
    };
    let d = match now_unix_seconds.checked_sub(t) {
        Some(d) => d,
        None => {
            return None;
        },
    };
    if d >= 0 {
        Some(d / 86400)
    } else {
        let q = (-(d + 1)) / 86400;
        proof {
            assert(q >= 0);
        }
        Some(-q)
    }
}

} // verus!

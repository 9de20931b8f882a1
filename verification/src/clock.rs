//! Local time, and the timestamped lines of the connection journal.
use vstd::prelude::*;
use crate::text::{decimal, digit, is_digit};

verus! {

/// The shape of every `%Y-%m-%d %H:%M:%S` rendering: a year of at least four digits
/// (signed outside years 0 to 9999), then `-MM-DD HH:MM:SS`, each field two digits.
pub open spec fn timestamp_shaped(s: Seq<char>) -> bool {
    let n = s.len() as int;
    let y = n - 15;
    &&& n >= 19
    &&& s[y] == '-' && s[y + 3] == '-' && s[y + 6] == ' ' && s[y + 9] == ':' && s[y + 12] == ':'
    &&& forall|i: int|
        y < i < n && i != y + 3 && i != y + 6 && i != y + 9 && i != y + 12 ==> is_digit(
            #[trigger] s[i],
        )
    &&& forall|i: int|
        0 <= i < y ==> is_digit(#[trigger] s[i]) || (i == 0 && (s[i] == '+' || s[i] == '-'))
    &&& (s[0] == '+' || s[0] == '-') ==> y >= 5
}

/// The proleptic Gregorian date `(year, month, day)` of the day `days` after
/// 1970-01-01.
pub open spec fn civil_date(days: int) -> (int, int, int) {
    let z = days + 719468;
    let era = z / 146097;
    let doe = z - era * 146097;
    let yoe = (doe - doe / 1460 + doe / 36524 - doe / 146096) / 365;
    let doy = doe - (365 * yoe + yoe / 4 - yoe / 100);
    let mp = (5 * doy + 2) / 153;
    let d = doy - (153 * mp + 2) / 5 + 1;
    let m = if mp < 10 {
        mp + 3
    } else {
        mp - 9
    };
    let y = yoe + era * 400 + if m <= 2 {
        1int
    } else {
        0int
    };
    (y, m, d)
}

/// `n` (below 100) as two digits.
pub open spec fn two_digits(n: int) -> Seq<char> {
    seq![digit((n / 10) as nat), digit((n % 10) as nat)]
}

/// `n` with leading zeros to at least `width` digits.
pub open spec fn zero_padded(n: nat, width: nat) -> Seq<char> {
    let d = decimal(n);
    if d.len() < width {
        Seq::new((width - d.len()) as nat, |i: int| '0') + d
    } else {
        d
    }
}

/// A year as `%Y` writes it: four digits at least, with a sign outside 0 to 9999.
pub open spec fn year_text(y: int) -> Seq<char> {
    if 0 <= y <= 9999 {
        zero_padded(y as nat, 4)
    } else if y > 9999 {
        seq!['+'] + zero_padded(y as nat, 4)
    } else {
        seq!['-'] + zero_padded((-y) as nat, 4)
    }
}

/// The wall-clock moment `t` seconds after 1970-01-01 00:00:00 as
/// `%Y-%m-%d %H:%M:%S`.
#[verifier::opaque]
pub open spec fn clock_text(t: int) -> Seq<char> {
    let date = civil_date(t / 86400);
    let s = t % 86400;
    year_text(date.0) + seq!['-'] + two_digits(date.1) + seq!['-'] + two_digits(date.2) + seq![' ']
        + two_digits(s / 3600) + seq![':'] + two_digits(s % 3600 / 60) + seq![':'] + two_digits(
        s % 60,
    )
}

/// The system clock as whole seconds and nanoseconds since 1970-01-01 UTC.
/// Calls `std::time::SystemTime::now` and `duration_since(UNIX_EPOCH)`; that call
/// fails, and this gives `None`, when the clock reads before 1970. Which moment comes
/// back depends on the clock; of every reading, std documents the nanoseconds below
/// one second.
#[verifier::external_body]
fn clock_reading() -> (r: Option<(u64, u32)>)
    ensures
        r matches Some(t) ==> t.1 < 1_000_000_000,
{
    match std::time::SystemTime::now().duration_since(std::time::UNIX_EPOCH) {
        Ok(d) => Some((d.as_secs(), d.subsec_nanos())),
        Err(_) => None,
    }
}

/// The moment `secs` seconds and `nanos` nanoseconds after 1970-01-01 UTC, in the
/// local time zone, as `%Y-%m-%d %H:%M:%S`.
/// Calls `chrono::DateTime::from_timestamp`, which gives `None` for a moment outside
/// chrono's range, then `with_timezone(&chrono::Local)` and `format`. The text depends
/// on the time zone in force, so it gets no name; what is stated is the shape that
/// chrono's formatting gives every moment (year zero-padded to four digits and signed
/// outside 0 to 9999; the other fields two digits), and that the text is the wall-clock
/// rendering of the moment shifted by the zone's offset, which chrono holds to less
/// than a day either way (`FixedOffset`). Left unsaid: chrono looks up the
/// zone's offset with an `unwrap`, which fails only on time-zone data giving an offset
/// of a whole day or more.
#[verifier::external_body]
fn local_time_text(secs: i64, nanos: u32) -> (r: Option<String>)
    requires
        nanos < 1_000_000_000,
    ensures
        r matches Some(t) ==> timestamp_shaped(t@),
        r matches Some(t) ==> exists|local: int|
            -86400 < local - secs < 86400 && t@ == #[trigger] clock_text(local),
{
    match chrono::DateTime::from_timestamp(secs, nanos) {
        Some(utc) => Some(utc.with_timezone(&chrono::Local).format("%Y-%m-%d %H:%M:%S").to_string()),
        None => None,
    }
}

/// The local date and time as `YYYY-MM-DD HH:MM:SS`, with the clock reading it
/// renders (whole seconds since 1970-01-01 UTC), or `None` when the clock cannot be
/// read as such (before 1970, or beyond what a date can hold). The text is the reading
/// itself, shifted by the time zone's offset of less than a day.
pub fn local_timestamp() -> (r: Option<(String, u64)>)
    ensures
        r matches Some(p) ==> timestamp_shaped(p.0@),
        r matches Some(p) ==> exists|local: int|
            -86400 < local - p.1 < 86400 && p.0@ == #[trigger] clock_text(local),
{
    match clock_reading() {
        Some((secs, nanos)) => {
            if secs <= i64::MAX as u64 {
                let x = secs as i64;
                assert(x as int == secs as int);
                match local_time_text(x, nanos) {
                    Some(t) => Some((t, secs)),
                    None => None,
                }
            } else {
                None
            }
        },
        None => None,
    }
}

/// What stands in a journal line for the time when the clock cannot be read.
pub open spec fn unreadable_clock() -> Seq<char> {
    "horloge illisible"@
}

/// `[<timestamp>] <message>` and a newline.
pub open spec fn log_line_text(timestamp: Seq<char>, message: Seq<char>) -> Seq<char> {
    "["@ + timestamp + "] "@ + message + "\n"@
}

/// The journal line for `message` at time `timestamp`.
pub fn log_line(timestamp: &str, message: &str) -> (r: String)
    ensures
        r@ == log_line_text(timestamp@, message@),
{
    let mut r = String::from_str("[");
    r.append(timestamp);
    r.append("] ");
    r.append(message);
    r.append("\n");
    assert(r@ =~= log_line_text(timestamp@, message@));
    r
}

/// The journal line for `message`, stamped with the local time, or with
/// `horloge illisible` when the clock cannot be read.
pub fn stamped_log_line(message: &str) -> (r: String)
    ensures
        exists|timestamp: Seq<char>|
            (timestamp_shaped(timestamp) || timestamp == unreadable_clock()) && r@
                == #[trigger] log_line_text(timestamp, message@),
        exists|timestamp: Seq<char>|
            ((exists|local: int| timestamp == #[trigger] clock_text(local)) || timestamp
                == unreadable_clock()) && r@ == #[trigger] log_line_text(timestamp, message@),
{
    match local_timestamp() {
        Some((timestamp, _)) => {
            let r = log_line(timestamp.as_str(), message);
            assert(timestamp_shaped(timestamp@) && r@ == log_line_text(timestamp@, message@));
            r
        },
        None => {
            let r = log_line("horloge illisible", message);
            assert(r@ == log_line_text(unreadable_clock(), message@));
            r
        },
    }
}

} // verus!

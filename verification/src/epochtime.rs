//! Epoch time conversion: the UTC time of a UNIX timestamp and how far it
//! lies from now, as the text report the tools print.

use vstd::prelude::*;
use vstd::string::*;
use crate::commands::{CommandResult, HdctCommand};
use crate::text::{
    decimal, magnitude, push_char, push_decimal, push_signed_decimal, push_signed_zero_padded,
    push_zero_padded, signed_decimal, signed_zero_padded, zero_padded,
};

verus! {

/// The earliest timestamp with a UTC date (the first second of year -262143).
pub const MIN_TIMESTAMP: i64 = -8334601228800;

/// The latest timestamp with a UTC date (the last second of year 262142).
pub const MAX_TIMESTAMP: i64 = 8210266876799;

/// Nanoseconds per second.
pub const NANOS_PER_SEC: u32 = 1000000000;

/// Options of the epoch time converter.
pub struct Args {
    /// The input value to convert.
    pub input: i64,
    /// Copy the resulting uuid to the clipboard
    pub copy_to_clipboard: bool,
}

/// The text of the UTC date and time of a timestamp, as the date-time crate
/// displays it (such as `2015-05-15 00:00:00 UTC`).
pub uninterp spec fn utc_display(secs: i64) -> Seq<char>;

/// The UTC date and time of a timestamp as text, or `None` for a timestamp
/// with no date.
///
/// Calls `chrono::DateTime::<Utc>::from_timestamp(secs, 0)` and displays the
/// result. The crate's source accepts exactly the seconds from the first
/// second of year -262143 to the last second of year 262142; the text itself
/// is only named, not stated.
#[verifier::external_body]
fn utc_time_text(secs: i64) -> (r: Option<String>)
    ensures
        r is Some <==> MIN_TIMESTAMP <= secs <= MAX_TIMESTAMP,
        r matches Some(s) ==> s@ == utc_display(secs),
{
    match chrono::DateTime::<chrono::Utc>::from_timestamp(secs, 0) {
        Some(dt) => Some(dt.to_string()),
        None => None,
    }
}

/// The current time as whole seconds since the UNIX epoch and the
/// nanoseconds since that second.
///
/// Calls `chrono::Utc::now`, which on this platform reads the system clock
/// and builds the time from a whole number of seconds since the epoch and a
/// sub-second part below one second; it panics for a clock set before the
/// epoch. What time it returns is not stated, only those bounds.
#[verifier::external_body]
fn utc_now() -> (now: (i64, u32))
    ensures
        0 <= now.0 <= MAX_TIMESTAMP,
        now.1 < NANOS_PER_SEC,
{
    let now = chrono::Utc::now();
    (now.timestamp(), now.timestamp_subsec_nanos())
}

/// Whether a timestamp has a UTC date.
pub fn timestamp_in_range(secs: i64) -> (b: bool)
    ensures
        b == (MIN_TIMESTAMP <= secs <= MAX_TIMESTAMP),
{
    MIN_TIMESTAMP <= secs && secs <= MAX_TIMESTAMP
}

/// A signed span of time: `secs` seconds plus `nanos` nanoseconds, with
/// `nanos` below one second (a negative span has negative `secs` and
/// non-negative `nanos`).
#[derive(Debug, Clone, Copy)]
pub struct TimeSpan {
    pub secs: i64,
    pub nanos: u32,
}

/// Division truncated toward zero, as Rust divides signed integers.
pub open spec fn div_toward_zero(a: int, b: int) -> int {
    if a >= 0 {
        a / b
    } else {
        -((-a) / b)
    }
}

/// Seconds from `now` (seconds and nanoseconds) to the whole second `then`.
pub open spec fn span_secs(then: int, now_secs: int, now_nanos: int) -> int {
    if now_nanos == 0 {
        then - now_secs
    } else {
        then - now_secs - 1
    }
}

pub open spec fn span_nanos(now_nanos: int) -> int {
    if now_nanos == 0 {
        0
    } else {
        NANOS_PER_SEC - now_nanos
    }
}

/// Whole seconds of a span, rounded toward zero.
pub open spec fn whole_seconds(secs: int, nanos: int) -> int {
    if secs < 0 && nanos > 0 {
        secs + 1
    } else {
        secs
    }
}

/// The sub-second part of a span, signed like the span.
pub open spec fn signed_subsec_nanos(secs: int, nanos: int) -> int {
    if secs < 0 && nanos > 0 {
        nanos - NANOS_PER_SEC
    } else {
        nanos
    }
}

/// Whole milliseconds of a span, rounded toward zero.
pub open spec fn whole_millis(secs: int, nanos: int) -> int {
    whole_seconds(secs, nanos) * 1000 + div_toward_zero(signed_subsec_nanos(secs, nanos), 1000000)
}

/// Bound on the spans between two timestamps with dates.
pub open spec fn span_bounded(s: TimeSpan) -> bool {
    &&& -20000000000000 <= s.secs <= 20000000000000
    &&& s.nanos < NANOS_PER_SEC
}

impl TimeSpan {
    /// The span from `now` to the whole second `then`, as the date-time
    /// crate's `signed_duration_since` gives it for two times without leap
    /// seconds.
    pub fn between(then: i64, now_secs: i64, now_nanos: u32) -> (s: TimeSpan)
        requires
            MIN_TIMESTAMP <= then <= MAX_TIMESTAMP,
            0 <= now_secs <= MAX_TIMESTAMP,
            now_nanos < NANOS_PER_SEC,
        ensures
            s.secs == span_secs(then as int, now_secs as int, now_nanos as int),
            s.nanos == span_nanos(now_nanos as int),
            span_bounded(s),
    {
        let d = then - now_secs;
        if now_nanos == 0 {
            TimeSpan { secs: d, nanos: 0 }
        } else {
            TimeSpan { secs: d - 1, nanos: NANOS_PER_SEC - now_nanos }
        }
    }

    /// Whole seconds, rounded toward zero.
    pub fn num_seconds(&self) -> (r: i64)
        requires
            span_bounded(*self),
        ensures
            r == whole_seconds(self.secs as int, self.nanos as int),
    {
        if self.secs < 0 && self.nanos > 0 {
            self.secs + 1
        } else {
            self.secs
        }
    }

    /// Whole minutes, rounded toward zero.
    pub fn num_minutes(&self) -> (r: i64)
        requires
            span_bounded(*self),
        ensures
            r == div_toward_zero(whole_seconds(self.secs as int, self.nanos as int), 60),
    {
        div_toward_zero_exec(self.num_seconds(), 60)
    }

    /// Whole hours, rounded toward zero.
    pub fn num_hours(&self) -> (r: i64)
        requires
            span_bounded(*self),
        ensures
            r == div_toward_zero(whole_seconds(self.secs as int, self.nanos as int), 3600),
    {
        div_toward_zero_exec(self.num_seconds(), 3600)
    }

    /// Whole days, rounded toward zero.
    pub fn num_days(&self) -> (r: i64)
        requires
            span_bounded(*self),
        ensures
            r == div_toward_zero(whole_seconds(self.secs as int, self.nanos as int), 86400),
    {
        div_toward_zero_exec(self.num_seconds(), 86400)
    }

    /// Whole milliseconds, rounded toward zero.
    pub fn num_milliseconds(&self) -> (r: i64)
        requires
            span_bounded(*self),
        ensures
            r == whole_millis(self.secs as int, self.nanos as int),
    {
        let sub: i64 = if self.secs < 0 && self.nanos > 0 {
            self.nanos as i64 - 1000000000
        } else {
            self.nanos as i64
        };
        self.num_seconds() * 1000 + div_toward_zero_exec(sub, 1000000)
    }
}

fn div_toward_zero_exec(a: i64, b: i64) -> (r: i64)
    requires
        b > 0,
        a > i64::MIN,
    ensures
        r == div_toward_zero(a as int, b as int),
{
    if a >= 0 {
        a / b
    } else {
        -((-a) / b)
    }
}


pub open spec fn abs(x: int) -> int {
    if x < 0 {
        -x
    } else {
        x
    }
}

/// Milliseconds since the epoch of a time given as seconds and nanoseconds.
pub open spec fn millis_of(secs: int, nanos: int) -> int {
    secs * 1000 + nanos / 1000000
}

/// The last line of the converter's report: how far the timestamp lies from
/// now, a `-` first when it lies in the past, then the whole days, hours and
/// minutes of the distance (each counted in full, not modulo the larger
/// unit), then the seconds modulo a minute and the milliseconds modulo a
/// minute.
pub open spec fn relative_line(input: int, now_secs: int, now_nanos: int) -> Seq<char> {
    let secs = span_secs(input, now_secs, now_nanos);
    let nanos = span_nanos(now_nanos);
    let total = whole_seconds(secs, nanos);
    let sign = if millis_of(now_secs, now_nanos) - input * 1000 > 0 {
        seq!['-']
    } else {
        seq![]
    };
    "Relative to now: "@ + sign + decimal(abs(div_toward_zero(total, 86400)) as nat) + "d "@
        + zero_padded(abs(div_toward_zero(total, 3600)) as nat, 2) + "h "@ + zero_padded(
        abs(div_toward_zero(total, 60)) as nat,
        2,
    ) + "m "@ + zero_padded((abs(total) % 60) as nat, 2) + "."@ + zero_padded(
        (abs(whole_millis(secs, nanos)) % 60000) as nat,
        4,
    ) + "s\n"@
}

/// The converter's report for a timestamp, given the text of its UTC time
/// and the current time.
pub open spec fn epoch_report_text(input: i64, utc: Seq<char>, now_secs: i64, now_nanos: u32) -> Seq<
    char,
> {
    "Epoch time: "@ + signed_decimal(input as int) + "\n"@ + "UTC time: "@ + utc + "\n"@
        + relative_line(input as int, now_secs as int, now_nanos as int)
}

/// The last line of the suite's epoch time summary: the distance from now to
/// the timestamp as signed whole days, hours, minutes, seconds and
/// milliseconds, each counted in full.
pub open spec fn signed_relative_line(input: int, now_secs: int, now_nanos: int) -> Seq<char> {
    let secs = span_secs(input, now_secs, now_nanos);
    let nanos = span_nanos(now_nanos);
    let total = whole_seconds(secs, nanos);
    "Relative to now: "@ + signed_decimal(div_toward_zero(total, 86400)) + "d "@
        + signed_zero_padded(div_toward_zero(total, 3600), 2) + "h "@ + signed_zero_padded(
        div_toward_zero(total, 60),
        2,
    ) + "m "@ + signed_zero_padded(total, 2) + "."@ + signed_zero_padded(
        whole_millis(secs, nanos),
        4,
    ) + "s\n"@
}

/// The suite's epoch time summary for a timestamp, given the text of its UTC
/// time and the current time.
pub open spec fn epoch_summary_text(input: i64, utc: Seq<char>, now_secs: i64, now_nanos: u32) -> Seq<
    char,
> {
    "Epoch time: "@ + signed_decimal(input as int) + "\n"@ + "UTC time: "@ + utc + "\n"@
        + signed_relative_line(input as int, now_secs as int, now_nanos as int)
}

/// Whether a current time is one the clock can give.
pub open spec fn now_ok(now_secs: i64, now_nanos: u32) -> bool {
    0 <= now_secs <= MAX_TIMESTAMP && now_nanos < NANOS_PER_SEC
}

/// Appends the first two lines of both reports.
fn push_report_head(result: &mut String, input: i64, utc_text: &str)
    ensures
        final(result)@ == old(result)@ + "Epoch time: "@ + signed_decimal(input as int) + "\n"@
            + "UTC time: "@ + utc_text@ + "\n"@,
{
    result.append("Epoch time: ");
    push_signed_decimal(result, input);
    result.append("\n");
    result.append("UTC time: ");
    result.append(utc_text);
    result.append("\n");
    assert(result@ =~= old(result)@ + "Epoch time: "@ + signed_decimal(input as int) + "\n"@
        + "UTC time: "@ + utc_text@ + "\n"@);
}

/// Appends the last line of the converter's report.
fn push_relative_line(result: &mut String, input: i64, now_secs: i64, now_nanos: u32)
    requires
        MIN_TIMESTAMP <= input <= MAX_TIMESTAMP,
        now_ok(now_secs, now_nanos),
    ensures
        final(result)@ == old(result)@ + relative_line(
            input as int,
            now_secs as int,
            now_nanos as int,
        ),
{
    let diff = TimeSpan::between(input, now_secs, now_nanos);
    let now_millis = now_secs * 1000 + (now_nanos / 1000000) as i64;
    let dt_millis = input * 1000;
    let mut line = String::new();
    line.append("Relative to now: ");
    if now_millis - dt_millis > 0 {
        push_char(&mut line, '-');
    }
    push_decimal(&mut line, magnitude(diff.num_days()));
    line.append("d ");
    push_zero_padded(&mut line, magnitude(diff.num_hours()), 2);
    line.append("h ");
    push_zero_padded(&mut line, magnitude(diff.num_minutes()), 2);
    line.append("m ");
    push_zero_padded(&mut line, magnitude(diff.num_seconds()) % 60, 2);
    line.append(".");
    push_zero_padded(&mut line, magnitude(diff.num_milliseconds()) % 60000, 4);
    line.append("s\n");
    assert(line@ =~= relative_line(input as int, now_secs as int, now_nanos as int));
    result.append(line.as_str());
}

/// Appends the last line of the suite's summary.
fn push_signed_relative_line(result: &mut String, input: i64, now_secs: i64, now_nanos: u32)
    requires
        MIN_TIMESTAMP <= input <= MAX_TIMESTAMP,
        now_ok(now_secs, now_nanos),
    ensures
        final(result)@ == old(result)@ + signed_relative_line(
            input as int,
            now_secs as int,
            now_nanos as int,
        ),
{
    let diff = TimeSpan::between(input, now_secs, now_nanos);
    let mut line = String::new();
    line.append("Relative to now: ");
    push_signed_decimal(&mut line, diff.num_days());
    line.append("d ");
    push_signed_zero_padded(&mut line, diff.num_hours(), 2);
    line.append("h ");
    push_signed_zero_padded(&mut line, diff.num_minutes(), 2);
    line.append("m ");
    push_signed_zero_padded(&mut line, diff.num_seconds(), 2);
    line.append(".");
    push_signed_zero_padded(&mut line, diff.num_milliseconds(), 4);
    line.append("s\n");
    assert(line@ =~= signed_relative_line(input as int, now_secs as int, now_nanos as int));
    result.append(line.as_str());
}

/// The converter's report for a timestamp with a date, given the text of its
/// UTC time and the current time.
pub fn format_epoch_report(input: i64, utc_text: &str, now_secs: i64, now_nanos: u32) -> (r:
    String)
    requires
        MIN_TIMESTAMP <= input <= MAX_TIMESTAMP,
        now_ok(now_secs, now_nanos),
    ensures
        r@ == epoch_report_text(input, utc_text@, now_secs, now_nanos),
{
    let mut result = String::new();
    push_report_head(&mut result, input, utc_text);
    push_relative_line(&mut result, input, now_secs, now_nanos);
    assert(result@ =~= epoch_report_text(input, utc_text@, now_secs, now_nanos));
    result
}

/// The suite's epoch time summary for a timestamp with a date, given the
/// text of its UTC time and the current time.
pub fn format_epoch_summary(input: i64, utc_text: &str, now_secs: i64, now_nanos: u32) -> (r:
    String)
    requires
        MIN_TIMESTAMP <= input <= MAX_TIMESTAMP,
        now_ok(now_secs, now_nanos),
    ensures
        r@ == epoch_summary_text(input, utc_text@, now_secs, now_nanos),
{
    let mut result = String::new();
    push_report_head(&mut result, input, utc_text);
    push_signed_relative_line(&mut result, input, now_secs, now_nanos);
    assert(result@ =~= epoch_summary_text(input, utc_text@, now_secs, now_nanos));
    result
}

/// The converter's report for a timestamp at a given current time, or
/// `None` for a timestamp with no date.
pub fn epoch_report_at(input: i64, now_secs: i64, now_nanos: u32) -> (r: Option<String>)
    requires
        now_ok(now_secs, now_nanos),
    ensures
        r is Some <==> MIN_TIMESTAMP <= input <= MAX_TIMESTAMP,
        r matches Some(s) ==> s@ == epoch_report_text(input, utc_display(input), now_secs, now_nanos),
{
    match utc_time_text(input) {
        Some(utc) => Some(format_epoch_report(input, utc.as_str(), now_secs, now_nanos)),
        None => None,
    }
}

/// The converter's report for a timestamp, measured from the current time,
/// or `None` for a timestamp with no date. Reading the clock panics where
/// the system clock stands before 1970 or past the year 262142.
pub fn epoch_report(input: i64) -> (r: Option<String>)
    ensures
        r is Some <==> MIN_TIMESTAMP <= input <= MAX_TIMESTAMP,
        r matches Some(s) ==> exists|now_secs: i64, now_nanos: u32|
            now_ok(now_secs, now_nanos) && s@ == epoch_report_text(
                input,
                utc_display(input),
                now_secs,
                now_nanos,
            ),
{
    let (now_secs, now_nanos) = utc_now();
    let r = epoch_report_at(input, now_secs, now_nanos);
    proof {
        if r is Some {
            assert(now_ok(now_secs, now_nanos) && r->0@ == epoch_report_text(
                input,
                utc_display(input),
                now_secs,
                now_nanos,
            ));
        }
    }
    r
}

/// Converts from epoch time to human readable time. UTC only.
pub struct EpochTime {
    /// The input value to convert.
    pub input: i64,
}

impl HdctCommand for EpochTime {
    open spec fn runnable(&self) -> bool {
        MIN_TIMESTAMP <= self.input <= MAX_TIMESTAMP
    }

    /// The suite's summary of the timestamp, measured from the current time.
    /// Reading the clock panics where the system clock stands before 1970 or
    /// past the year 262142.
    fn run(self, verbosity: i32) -> (r: CommandResult)
        ensures
            r matches Ok(s) && exists|now_secs: i64, now_nanos: u32|
                now_ok(now_secs, now_nanos) && s@ == epoch_summary_text(
                    self.input,
                    utc_display(self.input),
                    now_secs,
                    now_nanos,
                ),
    {
        let (now_secs, now_nanos) = utc_now();
        match utc_time_text(self.input) {
            Some(utc) => Ok(format_epoch_summary(self.input, utc.as_str(), now_secs, now_nanos)),
            None => {
                assert(false);
                Err(String::new())
            },
        }
    }
}


/// The converter marks a timestamp that lies in the past, counted in
/// milliseconds, with a `-` right after `Relative to now: `, and only such a
/// timestamp.
pub proof fn lemma_relative_line_sign(input: i64, now_secs: i64, now_nanos: u32)
    ensures
        relative_line(input as int, now_secs as int, now_nanos as int)[17] == '-' <==> input
            * 1000 < millis_of(now_secs as int, now_nanos as int),
{
    reveal_strlit("Relative to now: ");
    let head = "Relative to now: "@;
    assert(head.len() == 17);
    let line = relative_line(input as int, now_secs as int, now_nanos as int);
    let secs = span_secs(input as int, now_secs as int, now_nanos as int);
    let nanos = span_nanos(now_nanos as int);
    let total = whole_seconds(secs, nanos);
    let days = decimal(abs(div_toward_zero(total, 86400)) as nat);
    crate::text::lemma_decimal_digits(abs(div_toward_zero(total, 86400)) as nat);
    if input * 1000 < millis_of(now_secs as int, now_nanos as int) {
        assert(line[17] == (seq!['-'] + days)[0]);
    } else {
        assert(line[17] == days[0]);
        assert(crate::text::is_digit(days[0]));
    }
}

} // verus!

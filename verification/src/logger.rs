//! Log records: which file a message goes to and the line written there.
//! Writing the line is the host's part.

use vstd::prelude::*;
use crate::text::{concat, is_digit, digits_value};

verus! {

/// The severity of a log message.
#[derive(Clone, Copy, PartialEq, Eq, Structural)]
pub enum LogLevel {
    Info,
    Error,
    Warn,
    Debug,
}

/// The name of a level as it appears in a log line.
pub open spec fn level_name(l: LogLevel) -> Seq<char> {
    match l {
        LogLevel::Info => "INFO"@,
        LogLevel::Error => "ERROR"@,
        LogLevel::Warn => "WARN"@,
        LogLevel::Debug => "DEBUG"@,
    }
}

/// A line for the log and the file that it is appended to.
pub struct LogEntry {
    pub file: String,
    pub line: String,
}

/// The log file of a day, given as `YYYYMMDD`.
pub open spec fn log_file(day: Seq<char>) -> Seq<char> {
    "logs/side_"@ + day + ".sdlog"@
}

/// A log line: the timestamp, the level and the message.
pub open spec fn log_line(stamp: Seq<char>, level: LogLevel, message: Seq<char>) -> Seq<char> {
    "["@ + stamp + "] ["@ + level_name(level) + "] "@ + message
}

/// Every character is a decimal digit.
pub open spec fn is_digits(t: Seq<char>) -> bool {
    forall|k: int| 0 <= k < t.len() ==> is_digit(#[trigger] t[k])
}

/// A year as chrono writes `%Y`: four digits for the years 0 to 9999,
/// otherwise a sign followed by at least four digits (at most six, the
/// largest year chrono represents having six).
pub open spec fn is_year_text(y: Seq<char>) -> bool {
    ||| y.len() == 4 && is_digits(y)
    ||| 5 <= y.len() <= 7 && (y[0] == '+' || y[0] == '-') && is_digits(y.drop_first())
}

/// Two digits whose value lies between `lo` and `hi`.
pub open spec fn is_two_digits_in(t: Seq<char>, lo: nat, hi: nat) -> bool {
    t.len() == 2 && is_digits(t) && lo <= digits_value(t) <= hi
}

/// A date as `%Y%m%d` writes it: the year, the month (01 to 12) and the
/// day of the month (01 to 31).
pub open spec fn is_day_text(t: Seq<char>) -> bool {
    let n = t.len() as int;
    &&& n >= 8
    &&& is_year_text(t.take(n - 4))
    &&& is_two_digits_in(t.subrange(n - 4, n - 2), 1, 12)
    &&& is_two_digits_in(t.subrange(n - 2, n), 1, 31)
}

/// A time stamp as `%Y-%m-%d %H:%M:%S%.3f` writes it: the year, `-`, the
/// month, `-`, the day, a space, the hour (00 to 23), `:`, the minute (00 to
/// 59), `:`, the second (00 to 60, 60 for a leap second), `.` and three
/// digits of milliseconds.
pub open spec fn is_stamp_text(t: Seq<char>) -> bool {
    let n = t.len() as int;
    let b = n - 19;
    &&& n >= 23
    &&& is_year_text(t.take(b))
    &&& t[b] == '-'
    &&& is_two_digits_in(t.subrange(b + 1, b + 3), 1, 12)
    &&& t[b + 3] == '-'
    &&& is_two_digits_in(t.subrange(b + 4, b + 6), 1, 31)
    &&& t[b + 6] == ' '
    &&& is_two_digits_in(t.subrange(b + 7, b + 9), 0, 23)
    &&& t[b + 9] == ':'
    &&& is_two_digits_in(t.subrange(b + 10, b + 12), 0, 59)
    &&& t[b + 12] == ':'
    &&& is_two_digits_in(t.subrange(b + 13, b + 15), 0, 60)
    &&& t[b + 15] == '.'
    &&& is_digits(t.subrange(b + 16, n))
}

/// `chrono::Local::now().format("%Y%m%d").to_string()`: today's local date.
/// Which date it is depends on the clock and the time zone, so only its
/// shape is stated. (chrono panics when the system clock is set before
/// 1970 or the time-zone data gives no offset: states of the machine that
/// no argument can rule out.)
#[verifier::external_body]
fn local_day_text() -> (res: String)
    ensures
        is_day_text(res@),
{
    chrono::Local::now().format("%Y%m%d").to_string()
}

/// `chrono::Local::now().format("%Y-%m-%d %H:%M:%S%.3f").to_string()`: the
/// local time now, to the millisecond. Only its shape is stated, as for
/// `local_day_text`.
#[verifier::external_body]
fn local_stamp_text() -> (res: String)
    ensures
        is_stamp_text(res@),
{
    chrono::Local::now().format("%Y-%m-%d %H:%M:%S%.3f").to_string()
}

fn level_text(level: LogLevel) -> (res: String)
    ensures
        res@ == level_name(level),
{
    match level {
        LogLevel::Info => "INFO".to_owned(),
        LogLevel::Error => "ERROR".to_owned(),
        LogLevel::Warn => "WARN".to_owned(),
        LogLevel::Debug => "DEBUG".to_owned(),
    }
}

/// The entry for `message` at `level`, stamped with `stamp` and filed
/// under the day `day`.
pub fn entry_at(level: LogLevel, message: &str, stamp: &str, day: &str) -> (res: LogEntry)
    ensures
        res.file@ == log_file(day@),
        res.line@ == log_line(stamp@, level, message@),
{
    let file = concat(concat("logs/side_", day).as_str(), ".sdlog");
    let a = concat(concat("[", stamp).as_str(), "] [");
    let b = concat(concat(a.as_str(), level_text(level).as_str()).as_str(), "] ");
    let line = concat(b.as_str(), message);
    LogEntry { file, line }
}

/// The entry for `message` at `level`, stamped now: the file is named by
/// the local date (`%Y%m%d`), the line carries the local time
/// (`%Y-%m-%d %H:%M:%S%.3f`).
pub fn log(level: LogLevel, message: &str) -> (res: LogEntry)
    ensures
        exists|stamp: Seq<char>, day: Seq<char>|
            #![trigger log_file(day), log_line(stamp, level, message@)]
            is_stamp_text(stamp) && is_day_text(day) && res.file@ == log_file(day) && res.line@ == log_line(stamp, level, message@),
{
    let day = local_day_text();
    let stamp = local_stamp_text();
    let res = entry_at(level, message, stamp.as_str(), day.as_str());
    assert(is_stamp_text(stamp@) && is_day_text(day@) && res.file@ == log_file(day@) && res.line@
        == log_line(stamp@, level, message@));
    res
}

/// An information message.
pub fn info(message: &str) -> (res: LogEntry)
    ensures
        exists|stamp: Seq<char>, day: Seq<char>|
            #![trigger log_file(day), log_line(stamp, LogLevel::Info, message@)]
            is_stamp_text(stamp) && is_day_text(day) && res.file@ == log_file(day) && res.line@ == log_line(stamp, LogLevel::Info, message@),
{
    log(LogLevel::Info, message)
}

/// An error message.
pub fn error(message: &str) -> (res: LogEntry)
    ensures
        exists|stamp: Seq<char>, day: Seq<char>|
            #![trigger log_file(day), log_line(stamp, LogLevel::Error, message@)]
            is_stamp_text(stamp) && is_day_text(day) && res.file@ == log_file(day) && res.line@ == log_line(stamp, LogLevel::Error, message@),
{
    log(LogLevel::Error, message)
}

/// A warning.
pub fn warn(message: &str) -> (res: LogEntry)
    ensures
        exists|stamp: Seq<char>, day: Seq<char>|
            #![trigger log_file(day), log_line(stamp, LogLevel::Warn, message@)]
            is_stamp_text(stamp) && is_day_text(day) && res.file@ == log_file(day) && res.line@ == log_line(stamp, LogLevel::Warn, message@),
{
    log(LogLevel::Warn, message)
}

/// A debugging message: logged only in a debug build (`enabled`).
pub fn debug(message: &str, enabled: bool) -> (res: Option<LogEntry>)
    ensures
        res is Some <==> enabled,
        res matches Some(e) ==> exists|stamp: Seq<char>, day: Seq<char>|
            #![trigger log_file(day), log_line(stamp, LogLevel::Debug, message@)]
            is_stamp_text(stamp) && is_day_text(day) && e.file@ == log_file(day) && e.line@ == log_line(stamp, LogLevel::Debug, message@),
{
    if enabled {
        Some(log(LogLevel::Debug, message))
    } else {
        None
    }
}

} // verus!

//! Moments as text.

use crate::protocol::Timestamp;
use vstd::prelude::*;

verus! {

/// The first day that the calendar holds, counted from the Unix epoch: the first of January of
/// the year -262143.
pub const FIRST_DAY: i64 = -96_465_292;

/// The last day that the calendar holds: the last of December of the year 262142.
pub const LAST_DAY: i64 = 95_026_236;

/// The day of a moment in UTC, counted from the Unix epoch.
pub open spec fn day_of(seconds: i64) -> int {
    seconds as int / 86_400
}

/// Whether the calendar holds the day of a moment.
pub open spec fn holds_day(seconds: i64) -> bool {
    FIRST_DAY <= day_of(seconds) <= LAST_DAY
}

/// Whether the calendar holds a moment: its day, and a fraction below a second, or below two in
/// the last second of a minute, which may be followed by a leap second.
pub open spec fn holds(t: Timestamp) -> bool {
    holds_day(t.seconds) && (t.nanos < 1_000_000_000 || t.nanos < 2_000_000_000 && t.seconds as int
        % 60 == 59)
}

/// Whether a year has a 29th of February.
pub open spec fn is_leap_year(year: int) -> bool {
    year % 4 == 0 && (year % 100 != 0 || year % 400 == 0)
}

/// The number of days in a month.
pub open spec fn days_in_month(year: int, month: int) -> int {
    if month == 2 {
        if is_leap_year(year) {
            29
        } else {
            28
        }
    } else if month == 4 || month == 6 || month == 9 || month == 11 {
        30
    } else {
        31
    }
}

/// The number of days in a year before a month.
pub open spec fn days_before_month(year: int, month: int) -> int
    decreases month,
{
    if month <= 1 {
        0
    } else {
        days_before_month(year, month - 1) + days_in_month(year, month - 1)
    }
}

/// The number of days from the start of the year 0 to the start of a year.
pub open spec fn days_before_year(year: int) -> int {
    365 * year + (year + 3) / 4 - (year + 99) / 100 + (year + 399) / 400
}

/// The day of a date, counted from the Unix epoch.
pub open spec fn day_number(year: int, month: int, day: int) -> int {
    days_before_year(year) - days_before_year(1970) + days_before_month(year, month) + day - 1
}

/// A number below 100 in two digits.
pub open spec fn two_digits(n: int) -> Seq<char> {
    seq![('0' as int + n / 10) as char, ('0' as int + n % 10) as char]
}

/// A date with a year of four digits, as `year-month-day`.
pub open spec fn date_text(year: int, month: int, day: int) -> Seq<char> {
    two_digits(year / 100) + two_digits(year % 100) + seq!['-'] + two_digits(month) + seq!['-']
        + two_digits(day)
}

/// Whether a text is a date in the years from 0 to 9999, and the date is that of a day.
pub open spec fn spells_day(text: Seq<char>, day_count: int) -> bool {
    exists|year: int, month: int, day: int|
        {
            &&& 0 <= year <= 9999
            &&& 1 <= month <= 12
            &&& 1 <= day <= days_in_month(year, month)
            &&& #[trigger] day_number(year, month, day) == day_count
            &&& text == date_text(year, month, day)
        }
}

/// Whether a day lies in the years from 0 to 9999.
pub open spec fn has_four_digit_year(day_count: int) -> bool {
    -days_before_year(1970) <= day_count < days_before_year(10_000) - days_before_year(1970)
}

/// A moment that the calendar holds, in RFC 3339 form.
pub uninterp spec fn rfc3339(seconds: i64, nanos: u32) -> Seq<char>;

/// A day that the calendar holds, as `year-month-day`.
pub uninterp spec fn utc_day(day_count: int) -> Seq<char>;

/// `chrono::DateTime::from_timestamp`, then `chrono::DateTime::to_rfc3339`: there is a text for
/// exactly the moments that the calendar holds. It depends on the moment alone and is named
/// [`rfc3339`].
#[verifier::external_body]
fn to_rfc3339(seconds: i64, nanos: u32) -> (text: Option<String>)
    ensures
        match text {
            Some(text) => holds((Timestamp { seconds, nanos })) && text@ == rfc3339(seconds, nanos),
            None => !holds((Timestamp { seconds, nanos })),
        },
{
    chrono::DateTime::from_timestamp(seconds, nanos).map(|moment| moment.to_rfc3339())
}

/// `chrono::DateTime::from_timestamp` at a full second, then `chrono::DateTime::format` with
/// `%Y-%m-%d`: there is a text for exactly the days that the calendar holds. It depends on the
/// day alone and is named [`utc_day`]; in the years from 0 to 9999 it is the date of the day in
/// the Gregorian calendar, with a year of four digits.
#[verifier::external_body]
fn format_day(seconds: i64) -> (text: Option<String>)
    ensures
        match text {
            Some(text) => holds_day(seconds) && text@ == utc_day(day_of(seconds)),
            None => !holds_day(seconds),
        },
        text matches Some(text) ==> has_four_digit_year(day_of(seconds)) ==> spells_day(
            text@,
            day_of(seconds),
        ),
{
    chrono::DateTime::from_timestamp(seconds, 0).map(
        |moment| moment.format("%Y-%m-%d").to_string(),
    )
}

/// A moment in RFC 3339 form.
pub fn moment_text(t: Timestamp) -> (text: Option<String>)
    ensures
        match text {
            Some(text) => holds(t) && text@ == rfc3339(t.seconds, t.nanos),
            None => !holds(t),
        },
{
    to_rfc3339(t.seconds, t.nanos)
}

/// The name of the file that holds the operations of a day.
pub open spec fn ops_file_of(day: Seq<char>) -> Seq<char> {
    day + ".jsonl"@
}

/// The name of the file for the operations of a day.
pub fn day_file(day: &str) -> (name: String)
    ensures
        name@ == ops_file_of(day@),
{
    day.to_owned().concat(".jsonl")
}

/// The name of the file that holds the operations of the day of a moment. All moments of a day
/// share one.
pub fn ops_file_name(t: Timestamp) -> (name: Option<String>)
    ensures
        match name {
            Some(name) => holds_day(t.seconds) && name@ == ops_file_of(
                utc_day(day_of(t.seconds)),
            ),
            None => !holds_day(t.seconds),
        },
        holds_day(t.seconds) && has_four_digit_year(day_of(t.seconds)) ==> spells_day(
            utc_day(day_of(t.seconds)),
            day_of(t.seconds),
        ),
{
    match format_day(t.seconds) {
        Some(day) => Some(day_file(day.as_str())),
        None => None,
    }
}

proof fn lemma_two_digits(a: int, b: int)
    requires
        0 <= a < 100,
        0 <= b < 100,
        two_digits(a) == two_digits(b),
    ensures
        a == b,
{
    assert(two_digits(a)[0] == two_digits(b)[0]);
    assert(two_digits(a)[1] == two_digits(b)[1]);
    assert(0 <= a / 10 < 10 && 0 <= b / 10 < 10);
    assert((('0' as int + a / 10) as char) as int == '0' as int + a / 10);
    assert((('0' as int + b / 10) as char) as int == '0' as int + b / 10);
    assert((('0' as int + a % 10) as char) as int == '0' as int + a % 10);
    assert((('0' as int + b % 10) as char) as int == '0' as int + b % 10);
}

/// The log is daily: the operations of all moments of a day go to one file.
pub proof fn law_day_has_one_file(first: Timestamp, second: Timestamp)
    requires
        day_of(first.seconds) == day_of(second.seconds),
    ensures
        ops_file_of(utc_day(day_of(first.seconds))) == ops_file_of(
            utc_day(day_of(second.seconds)),
        ),
{
}

/// The log is daily: the operations of two days never share a file.
pub proof fn law_days_have_their_own_files(
    first: Seq<char>,
    first_day: int,
    second: Seq<char>,
    second_day: int,
)
    requires
        spells_day(first, first_day),
        spells_day(second, second_day),
        ops_file_of(first) == ops_file_of(second),
    ensures
        first_day == second_day,
{
    let (y, m, d) = choose|year: int, month: int, day: int|
        {
            &&& 0 <= year <= 9999
            &&& 1 <= month <= 12
            &&& 1 <= day <= days_in_month(year, month)
            &&& #[trigger] day_number(year, month, day) == first_day
            &&& first == date_text(year, month, day)
        };
    let (y2, m2, d2) = choose|year: int, month: int, day: int|
        {
            &&& 0 <= year <= 9999
            &&& 1 <= month <= 12
            &&& 1 <= day <= days_in_month(year, month)
            &&& #[trigger] day_number(year, month, day) == second_day
            &&& second == date_text(year, month, day)
        };
    assert(first.len() == 10 && second.len() == 10);
    assert forall|i: int| 0 <= i < 10 implies #[trigger] first[i] == second[i] by {
        assert(ops_file_of(first)[i] == first[i]);
        assert(ops_file_of(second)[i] == second[i]);
    }
    assert(first =~= second);
    assert(two_digits(y / 100) =~= first.subrange(0, 2));
    assert(two_digits(y2 / 100) =~= first.subrange(0, 2));
    assert(two_digits(y % 100) =~= first.subrange(2, 4));
    assert(two_digits(y2 % 100) =~= first.subrange(2, 4));
    assert(two_digits(m) =~= first.subrange(5, 7));
    assert(two_digits(m2) =~= first.subrange(5, 7));
    assert(two_digits(d) =~= first.subrange(8, 10));
    assert(two_digits(d2) =~= first.subrange(8, 10));
    lemma_two_digits(y / 100, y2 / 100);
    lemma_two_digits(y % 100, y2 % 100);
    lemma_two_digits(m, m2);
    lemma_two_digits(d, d2);
}

/// A day begins at a multiple of its 86400 seconds from the epoch, before it and behind it, and
/// its file is named by its date with the ending for lines of JSON.
pub proof fn law_file_of_the_day(seconds: i64, day: Seq<char>)
    ensures
        86_400 * day_of(seconds) <= seconds < 86_400 * day_of(seconds) + 86_400,
        ops_file_of(day) == day + ".jsonl"@,
{
}

} // verus!

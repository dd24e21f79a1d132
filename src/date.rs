//! Normalizing the export files' date strings into calendar dates.
use vstd::prelude::*;

verus! {

/// The pattern of the export files' dates, such as `05-Jan-23 10:15 PM`:
/// day, abbreviated month name, two-digit year, then a 12-hour clock time.
pub const EXPORT_DATE_FORMAT: &'static str = "%d-%b-%y %I:%M %p";

/// A calendar date as plain values.
#[derive(Clone, Copy, Debug, PartialEq, Eq, Structural)]
pub struct CalendarDate {
    pub year: i32,
    /// 1 for January through 12 for December.
    pub month: u32,
    /// 1 through 31.
    pub day: u32,
}

/// The date that the text `s` denotes under the strftime-style pattern `fmt`
/// as `(year, month, day)`, or `None` where it does not parse.
pub uninterp spec fn date_of(s: Seq<char>, fmt: Seq<char>) -> Option<(i32, u32, u32)>;

/// Relies on `chrono::NaiveDate::parse_from_str`, and on `Datelike`'s
/// `month` (documented range 1 to 12) and `day` (range 1 to 31): the outcome
/// depends on the text and the pattern alone.
#[verifier::external_body]
fn parse_date(s: &str, fmt: &str) -> (r: Option<CalendarDate>)
    ensures
        match r {
            Some(d) => date_of(s@, fmt@) == Some((d.year, d.month, d.day)) && 1 <= d.month
                <= 12 && 1 <= d.day <= 31,
            None => date_of(s@, fmt@) is None,
        },
{
    match chrono::NaiveDate::parse_from_str(s, fmt) {
        Ok(d) => Some(CalendarDate {
            year: chrono::Datelike::year(&d),
            month: chrono::Datelike::month(&d),
            day: chrono::Datelike::day(&d),
        }),
        Err(_) => None,
    }
}

/// The date of an export file's date text, if it parses.
pub open spec fn export_date(s: Seq<char>) -> Option<(i32, u32, u32)> {
    date_of(s, EXPORT_DATE_FORMAT@)
}

/// Parses an export file's date text, such as `05-Jan-23 10:15 PM`. The
/// date is read as a calendar date in local time, so its month is the one
/// the text names.
pub fn parse_export_date(s: &str) -> (r: Option<CalendarDate>)
    ensures
        match r {
            Some(d) => export_date(s@) == Some((d.year, d.month, d.day)) && 1 <= d.month <= 12,
            None => export_date(s@) is None,
        },
{
    parse_date(s, EXPORT_DATE_FORMAT)
}

} // verus!

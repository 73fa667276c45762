//! Dates as forms submit them.

use vstd::prelude::*;

verus! {

/// What `chrono::NaiveDate::parse_from_str` with the format `%Y-%m-%d`
/// makes of a text: nothing where it refuses the text, else the day it
/// read, given as the Unix timestamp of that day's midnight in UTC.
pub uninterp spec fn midnight_of(text: Seq<char>) -> Option<i64>;

/// Parses a date with `chrono::NaiveDate::parse_from_str` and the format
/// `%Y-%m-%d`, and converts the day to the timestamp of its midnight in
/// UTC. The result depends on the text alone.
#[verifier::external_body]
fn parse_day(text: &str) -> (timestamp: Option<i64>)
    ensures
        timestamp == midnight_of(text@),
{
    match chrono::NaiveDate::parse_from_str(text, "%Y-%m-%d") {
        Ok(day) => Some(day.and_time(chrono::NaiveTime::MIN).and_utc().timestamp()),
        Err(_) => None,
    }
}

/// The date a form carries, where the text is a date.
pub fn date_of_form(text: &str) -> (timestamp: Option<i64>)
    ensures
        timestamp == midnight_of(text@),
{
    parse_day(text)
}

} // verus!

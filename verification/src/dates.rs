//! Dates as text. The calendar is chrono's: this module hands it a count of
//! seconds and takes the text back.

use vstd::prelude::*;

verus! {

/// The minute in which the moment `seconds` after the Unix epoch falls, in
/// UTC, written as year, month, day, hour and minute, `2025-01-31 09:05 UTC`;
/// `None` where the calendar has no date that far from the epoch.
pub uninterp spec fn utc_minute_text(seconds: i64) -> Option<Seq<char>>;

/// The characters of a text that may be absent.
pub open spec fn text_view(text: Option<String>) -> Option<Seq<char>> {
    match text {
        Some(t) => Some(t@),
        None => None,
    }
}

/// The date shown for a formatted moment: the text itself, or a dash where
/// there is none.
pub open spec fn date_text_of(formatted: Option<Seq<char>>) -> Seq<char> {
    match formatted {
        Some(t) => t,
        None => seq!['-'],
    }
}

/// Turns `seconds` into a moment with `chrono::DateTime::from_timestamp` and
/// writes it with `chrono::DateTime::format` under the pattern
/// `%Y-%m-%d %H:%M UTC`. Not proved: that the outcome, text or `None`,
/// depends on `seconds` alone, which is all that the contract claims. It
/// does not say for which counts of seconds there is a text.
#[verifier::external_body]
fn utc_minute(seconds: i64) -> (text: Option<String>)
    ensures
        text_view(text) == utc_minute_text(seconds),
{
    match chrono::DateTime::from_timestamp(seconds, 0) {
        Some(moment) => Some(moment.format("%Y-%m-%d %H:%M UTC").to_string()),
        None => None,
    }
}

/// The date shown for a formatted moment: the text itself, or a dash where
/// there is none.
pub fn date_text_from(formatted: Option<String>) -> (text: String)
    ensures
        text@ == date_text_of(text_view(formatted)),
{
    match formatted {
        Some(t) => t,
        None => {
            let mut dash = String::new();
            dash.append("-");
            proof {
                reveal_strlit("-");
                assert(dash@ =~= seq!['-']);
            }
            dash
        },
    }
}

/// Writes the moment `seconds` after the Unix epoch for display, to the
/// minute and in UTC; a dash where the calendar has no such date.
pub fn date_text(seconds: i64) -> (text: String)
    ensures
        text@ == date_text_of(utc_minute_text(seconds)),
{
    date_text_from(utc_minute(seconds))
}

} // verus!

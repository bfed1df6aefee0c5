//! Reading contribution data out of the remote API's JSON reply.
//!
//! The reply is a JSON document; the total contribution count sits under
//! `data.user.contributionsCollection.contributionCalendar.totalContributions`,
//! and the per-day calendar under `...contributionCalendar.weeks`, each week
//! holding `contributionDays` with a `date` (ISO 8601) and a
//! `contributionCount`. A reply that is not JSON, or that lacks an expected
//! field, is an explicit error — never a default value. Dates become plain
//! day numbers, the form the streak calculator works on.

use vstd::prelude::*;
use crate::streak::ContributionDay;

verus! {

/// Why the remote reply could not be read.
#[derive(PartialEq, Eq, Structural, Debug)]
pub enum ApiError {
    MalformedJson,
    MissingField,
}

/// Whether a text is a well-formed JSON document; this depends on the text
/// alone.
pub uninterp spec fn json_wf(s: Seq<char>) -> bool;

/// The number the reply carries at its total-contributions path, when the
/// whole path is there with an integer at its end; this depends on the text
/// alone.
pub uninterp spec fn total_of(s: Seq<char>) -> Option<i64>;

/// The (date text, count) pairs of the reply's per-day calendar, in document
/// order, when every expected field has its expected shape; this depends on
/// the text alone.
pub uninterp spec fn days_of(s: Seq<char>) -> Option<Seq<(Seq<char>, i64)>>;

/// The day number an ISO 8601 calendar date denotes, when the text is one;
/// this depends on the text alone.
pub uninterp spec fn date_num_of(s: Seq<char>) -> Option<i64>;

/// Relies on serde_json::from_str::<Value>: whether a text parses as JSON
/// depends on the text alone.
#[verifier::external_body]
fn json_check(text: &str) -> (r: bool)
    ensures
        r == json_wf(text@),
{
    serde_json::from_str::<serde_json::Value>(text).is_ok()
}

/// Relies on serde_json::from_str, Value::get and Value::as_i64: the integer
/// at `data.user.contributionsCollection.contributionCalendar
/// .totalContributions` depends on the reply text alone; nothing when some
/// step of the path is missing or of the wrong shape.
#[verifier::external_body]
fn read_total(text: &str) -> (r: Option<i64>)
    ensures
        r == total_of(text@),
{
    let v: serde_json::Value = serde_json::from_str(text).ok()?;
    v.get("data")?
        .get("user")?
        .get("contributionsCollection")?
        .get("contributionCalendar")?
        .get("totalContributions")?
        .as_i64()
}

/// Relies on serde_json::from_str, Value::get, Value::as_array, Value::as_str
/// and Value::as_i64: the (date, count) pairs under the reply's
/// `...contributionCalendar.weeks`, week by week and day by day, depend on
/// the reply text alone; nothing when an expected field is missing or of the
/// wrong shape.
#[verifier::external_body]
fn read_day_entries(text: &str) -> (r: Option<Vec<(String, i64)>>)
    ensures
        r.deep_view() == days_of(text@),
{
    let v: serde_json::Value = serde_json::from_str(text).ok()?;
    let weeks = v.get("data")?.get("user")?.get("contributionsCollection")?.get(
        "contributionCalendar",
    )?.get("weeks")?.as_array()?;
    let mut out: Vec<(String, i64)> = Vec::new();
    for week in weeks {
        for day in week.get("contributionDays")?.as_array()? {
            let date = day.get("date")?.as_str()?.to_string();
            out.push((date, day.get("contributionCount")?.as_i64()?));
        }
    }
    Some(out)
}

/// Relies on chrono::NaiveDate::parse_from_str with the "%Y-%m-%d" format and
/// on chrono::Datelike::num_days_from_ce: the day number of a calendar date
/// depends on the text alone.
#[verifier::external_body]
fn parse_iso_date(s: &str) -> (r: Option<i64>)
    ensures
        r == date_num_of(s@),
{
    match chrono::NaiveDate::parse_from_str(s, "%Y-%m-%d") {
        Ok(d) => Some(chrono::Datelike::num_days_from_ce(&d) as i64),
        Err(_) => None,
    }
}

/// Every date text of the calendar denotes a calendar date.
pub open spec fn all_dates_parse(entries: Seq<(Seq<char>, i64)>) -> bool {
    forall|i: int| 0 <= i < entries.len() ==> #[trigger] date_num_of(entries[i].0) is Some
}

/// The total contribution count of the reply: exactly the number at its
/// expected path. A reply that is not JSON is malformed; a JSON reply
/// without the path is missing a field.
pub fn extract_total_contributions(text: &str) -> (r: Result<i64, ApiError>)
    ensures
        !json_wf(text@) ==> r == Err::<i64, ApiError>(ApiError::MalformedJson),
        json_wf(text@) && total_of(text@) is Some ==> r == Ok::<i64, ApiError>(
            total_of(text@)->Some_0,
        ),
        json_wf(text@) && total_of(text@) is None ==> r == Err::<i64, ApiError>(
            ApiError::MissingField,
        ),
{
    if !json_check(text) {
        return Err(ApiError::MalformedJson);
    }
    match read_total(text) {
        Some(n) => Ok(n),
        None => Err(ApiError::MissingField),
    }
}

/// The per-day calendar of the reply, as day numbers and counts in document
/// order: the i-th result pairs the day number of the i-th date text with
/// the i-th count. A reply that is not JSON is malformed; one whose weeks,
/// days, dates or counts do not have the expected shape, or whose date texts
/// hold one that is no calendar date, is missing a field.
pub fn extract_contribution_days(text: &str) -> (r: Result<Vec<ContributionDay>, ApiError>)
    ensures
        !json_wf(text@) ==> r == Err::<Vec<ContributionDay>, ApiError>(ApiError::MalformedJson),
        json_wf(text@) && days_of(text@) is None ==> r == Err::<Vec<ContributionDay>, ApiError>(
            ApiError::MissingField,
        ),
        json_wf(text@) && days_of(text@) is Some && !all_dates_parse(days_of(text@)->Some_0)
            ==> r == Err::<Vec<ContributionDay>, ApiError>(ApiError::MissingField),
        json_wf(text@) && days_of(text@) is Some && all_dates_parse(days_of(text@)->Some_0)
            ==> ({
            let entries = days_of(text@)->Some_0;
            &&& r is Ok
            &&& r->Ok_0@.len() == entries.len()
            &&& forall|i: int|
                0 <= i < entries.len() ==> #[trigger] r->Ok_0@[i] == (ContributionDay {
                    date: date_num_of(entries[i].0)->Some_0,
                    count: entries[i].1,
                })
        }),
{
    if !json_check(text) {
        return Err(ApiError::MalformedJson);
    }
    let entries = match read_day_entries(text) {
        Some(v) => v,
        None => {
            return Err(ApiError::MissingField);
        },
    };
    let ghost gentries = days_of(text@)->Some_0;
    proof {
        assert(entries.deep_view() == gentries);
        assert(entries.deep_view().len() == entries@.len());
    }
    let n = entries.len();
    let mut out: Vec<ContributionDay> = Vec::new();
    let mut i: usize = 0;
    while i < n
        invariant
            json_wf(text@),
            days_of(text@) == Some(gentries),
            entries.deep_view() == gentries,
            n == entries@.len(),
            n == gentries.len(),
            0 <= i <= n,
            out@.len() == i,
            forall|j: int| 0 <= j < i ==> #[trigger] date_num_of(gentries[j].0) is Some,
            forall|j: int|
                0 <= j < i ==> #[trigger] out@[j] == (ContributionDay {
                    date: date_num_of(gentries[j].0)->Some_0,
                    count: gentries[j].1,
                }),
        decreases n - i,
    {
        let e = &entries[i];
        proof {
            assert(entries.deep_view()[i as int] == gentries[i as int]);
            assert(entries@[i as int].deep_view() == (entries@[i as int].0@, entries@[
                i as int
            ].1));
        }
        let date = match parse_iso_date(e.0.as_str()) {
            Some(v) => v,
            None => {
                proof {
                    assert(date_num_of(gentries[i as int].0) is None);
                    assert(!all_dates_parse(gentries));
                }
                return Err(ApiError::MissingField);
            },
        };
        out.push(ContributionDay { date, count: e.1 });
        i += 1;
    }
    Ok(out)
}

} // verus!

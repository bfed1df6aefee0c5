use chrono::Datelike;
use readme_stats::contributions::{
    extract_contribution_days, extract_total_contributions, ApiError,
};
use readme_stats::streak::calculate_contribution_streak;

fn reply_with_total(total: i64) -> String {
    format!(
        "{{\"data\":{{\"user\":{{\"contributionsCollection\":{{\"contributionCalendar\":{{\"totalContributions\":{}}}}}}}}}}}",
        total
    )
}

fn day_entry(date: &str, count: i64) -> String {
    format!("{{\"date\":\"{}\",\"contributionCount\":{}}}", date, count)
}

fn reply_with_days(entries: &[String]) -> String {
    format!(
        "{{\"data\":{{\"user\":{{\"contributionsCollection\":{{\"contributionCalendar\":{{\"weeks\":[{{\"contributionDays\":[{}]}}]}}}}}}}}}}",
        entries.join(",")
    )
}

fn day_number(date: &str) -> i64 {
    chrono::NaiveDate::parse_from_str(date, "%Y-%m-%d").unwrap().num_days_from_ce() as i64
}

#[test]
fn total_is_extracted() {
    assert_eq!(extract_total_contributions(&reply_with_total(1234)), Ok(1234));
}

#[test]
fn bad_json_is_malformed() {
    assert_eq!(extract_total_contributions("not json at all"), Err(ApiError::MalformedJson));
    assert_eq!(extract_contribution_days("{\"data\":"), Err(ApiError::MalformedJson));
}

#[test]
fn missing_field_is_reported() {
    assert_eq!(extract_total_contributions("{}"), Err(ApiError::MissingField));
    assert_eq!(
        extract_total_contributions("{\"data\":{\"user\":{}}}"),
        Err(ApiError::MissingField)
    );
    assert_eq!(extract_contribution_days("{\"data\":{}}"), Err(ApiError::MissingField));
}

#[test]
fn non_numeric_count_is_missing_field() {
    let entry = String::from("{\"date\":\"2024-03-10\",\"contributionCount\":\"three\"}");
    assert_eq!(extract_contribution_days(&reply_with_days(&[entry])), Err(ApiError::MissingField));
}

#[test]
fn unparsable_date_is_missing_field() {
    let entry = String::from("{\"date\":\"March 10\",\"contributionCount\":3}");
    assert_eq!(extract_contribution_days(&reply_with_days(&[entry])), Err(ApiError::MissingField));
}

#[test]
fn days_become_day_numbers_and_counts() {
    let reply = reply_with_days(&[
        day_entry("2024-03-08", 0),
        day_entry("2024-03-09", 3),
        day_entry("2024-03-10", 5),
    ]);
    let days = extract_contribution_days(&reply).unwrap();
    assert_eq!(days.len(), 3);
    assert_eq!(days[0].count, 0);
    assert_eq!(days[1].count, 3);
    assert_eq!(days[2].count, 5);
    assert_eq!(days[0].date, day_number("2024-03-08"));
    assert_eq!(days[1].date, days[0].date + 1);
    assert_eq!(days[2].date, days[0].date + 2);
}

#[test]
fn extraction_feeds_the_streak_calculator() {
    let reply = reply_with_days(&[
        day_entry("2024-03-07", 0),
        day_entry("2024-03-08", 2),
        day_entry("2024-03-09", 3),
        day_entry("2024-03-10", 5),
    ]);
    let days = extract_contribution_days(&reply).unwrap();
    let today = day_number("2024-03-10");
    assert_eq!(calculate_contribution_streak(&days, today), 3);
}

#[test]
fn grace_day_through_the_whole_pipeline() {
    let reply = reply_with_days(&[
        day_entry("2024-03-08", 2),
        day_entry("2024-03-09", 3),
        day_entry("2024-03-10", 0),
    ]);
    let days = extract_contribution_days(&reply).unwrap();
    let today = day_number("2024-03-10");
    assert_eq!(calculate_contribution_streak(&days, today), 2);
}

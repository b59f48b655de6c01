use futaba::event::{Event, CHECK_IN_TOKEN};
use futaba::ledger::{Ledger, RecordOutcome};
use futaba::snowflake::IntoSnowflakes;
use futaba::stats::{count_in, ids_in, missing_days, participant_detail, participant_detail_in};
use futaba::stats::{percent, rank, streak_ranking, total_ranking, year_window};
use futaba::stats::{yearly_statistics, yearly_statistics_in, Board, MissingDays, StatsError};
use futaba::stats::{StreakBasis, YearWindow, YearlyStat, YearlyStats, DAY_TICKS, DETAIL_LIMIT_COUNT};
use futaba::time::{Date, DateTime, UtcOffset};

fn kst() -> UtcOffset {
    UtcOffset::east(9 * 3600).unwrap()
}

fn day(year: i32, month: u32, day: u32) -> Date {
    Date::from_ymd(year, month, day).unwrap()
}

fn at(year: i32, month: u32, d: u32, second_of_day: i64) -> DateTime {
    let start = day(year, month, d).and_midnight(kst()).unwrap();
    DateTime::from_timestamp(start.timestamp() + second_of_day, 0, kst()).unwrap()
}

fn id_on(year: i32, month: u32, d: u32, second_of_day: i64) -> i64 {
    at(year, month, d, second_of_day).into_snowflakes()
}

fn check_in(ledger: &mut Ledger, actor: u64, id: i64) {
    let event = Event {
        id,
        author_id: actor,
        author_is_bot: false,
        edited: false,
        content: CHECK_IN_TOKEN.to_string(),
    };
    assert_eq!(ledger.record(&event), RecordOutcome::Accepted);
}

fn entry(name: &str, number: u64) -> (String, u64) {
    (name.to_string(), number)
}

/// Alice has events on January 1 to 5 of 2024, Bob on January 4 and 5 and
/// two on January 3, Carol none, Dave one in 2023.
fn sample() -> Ledger {
    let mut ledger = Ledger::new(kst());
    ledger.upsert_participant(1, "alice".to_string());
    ledger.upsert_participant(2, "bob".to_string());
    ledger.upsert_participant(3, "carol".to_string());
    ledger.upsert_participant(4, "dave".to_string());
    check_in(&mut ledger, 4, id_on(2023, 6, 1, 50));
    for d in 1..=5 {
        check_in(&mut ledger, 1, id_on(2024, 1, d, 100));
    }
    check_in(&mut ledger, 2, id_on(2024, 1, 3, 200));
    check_in(&mut ledger, 2, id_on(2024, 1, 3, 300));
    check_in(&mut ledger, 2, id_on(2024, 1, 4, 200));
    check_in(&mut ledger, 2, id_on(2024, 1, 5, 200));
    ledger
}

#[test]
fn rank_puts_greater_numbers_first_and_keeps_ties_in_order() {
    let entries = vec![entry("a", 2), entry("b", 5), entry("c", 2), entry("d", 0), entry("e", 5)];
    assert_eq!(
        rank(&entries),
        vec![entry("b", 5), entry("e", 5), entry("a", 2), entry("c", 2), entry("d", 0)]
    );
    assert_eq!(rank(&Vec::new()), Vec::new());
    assert_eq!(rank(&vec![entry("x", u64::MAX), entry("y", 0)]), vec![entry("x", u64::MAX), entry("y", 0)]);
    assert_eq!(rank(&vec![entry("y", 0), entry("x", u64::MAX)]), vec![entry("x", u64::MAX), entry("y", 0)]);
}

#[test]
fn total_ranking_lists_who_has_events_by_count() {
    let ledger = sample();
    assert_eq!(total_ranking(&ledger), vec![entry("alice", 5), entry("bob", 4), entry("dave", 1)]);
    assert_eq!(total_ranking(&Ledger::new(kst())), Vec::new());
}

#[test]
fn longest_streak_ranking_lists_everyone() {
    let ledger = sample();
    let now = at(2030, 1, 1, 0);
    assert_eq!(
        streak_ranking(&ledger, StreakBasis::Longest, now),
        vec![entry("alice", 5), entry("bob", 3), entry("dave", 1), entry("carol", 0)]
    );
}

#[test]
fn current_streak_ranking_lists_unbroken_streaks() {
    let ledger = sample();
    let both = vec![entry("alice", 5), entry("bob", 3)];
    assert_eq!(streak_ranking(&ledger, StreakBasis::Current, at(2024, 1, 5, 400)), both);
    assert_eq!(streak_ranking(&ledger, StreakBasis::Current, at(2024, 1, 6, 0)), both);
    assert_eq!(streak_ranking(&ledger, StreakBasis::Current, at(2024, 1, 6, 86_399)), both);
    assert_eq!(streak_ranking(&ledger, StreakBasis::Current, at(2024, 1, 7, 0)), Vec::new());
    assert_eq!(streak_ranking(&ledger, StreakBasis::Current, at(2024, 1, 4, 0)), Vec::new());
    assert_eq!(
        streak_ranking(&ledger, StreakBasis::Current, at(2023, 6, 2, 0)),
        vec![entry("dave", 1)]
    );
}

#[test]
fn current_streak_ranking_reads_now_in_the_zone_of_the_ledger() {
    let ledger = sample();
    // 2024-01-06T15:00Z is the first instant of January 7 at UTC+9.
    let now = DateTime::from_timestamp(1_704_553_200, 0, UtcOffset::utc()).unwrap();
    assert_eq!(streak_ranking(&ledger, StreakBasis::Current, now), Vec::new());
    let before = DateTime::from_timestamp(1_704_553_199, 0, UtcOffset::utc()).unwrap();
    assert_eq!(streak_ranking(&ledger, StreakBasis::Current, before).len(), 2);
}

#[test]
fn boards_tell_who_is_listed_with_what() {
    let ledger = sample();
    let bob = ledger.participant(2).unwrap();
    let carol = ledger.participant(3).unwrap();
    assert_eq!(Board::Total.line(&ledger, bob), Some(4));
    assert_eq!(Board::Total.line(&ledger, carol), None);
    assert_eq!(Board::Longest.line(&ledger, carol), Some(0));
    assert_eq!(Board::Current { today: day(2024, 1, 6) }.line(&ledger, bob), Some(3));
    assert_eq!(Board::Current { today: day(2024, 1, 7) }.line(&ledger, bob), None);
    assert_eq!(Board::Current { today: day(2024, 1, 5) }.line(&ledger, carol), None);
    let january_3 = Board::Within { begin: id_on(2024, 1, 3, 0), end: id_on(2024, 1, 4, 0) };
    assert_eq!(january_3.line(&ledger, bob), Some(2));
    assert_eq!(january_3.line(&ledger, carol), None);
    assert_eq!(january_3.ranking(&ledger), vec![entry("bob", 2), entry("alice", 1)]);
}

#[test]
fn count_in_counts_from_begin_up_to_but_not_including_end() {
    let ledger = sample();
    let a = id_on(2024, 1, 3, 200);
    let b = id_on(2024, 1, 3, 300);
    assert_eq!(count_in(&ledger, 2, a, b), 1);
    assert_eq!(count_in(&ledger, 2, a, b + 1), 2);
    assert_eq!(count_in(&ledger, 2, a + 1, b), 0);
    assert_eq!(count_in(&ledger, 2, i64::MIN, i64::MAX), 4);
    assert_eq!(count_in(&ledger, 3, i64::MIN, i64::MAX), 0);
    assert_eq!(count_in(&ledger, 2, b, a), 0);
    assert_eq!(ids_in(&ledger, 2, a, b + 1), vec![a, b]);
}

#[test]
fn the_window_of_a_past_year_spans_the_year() {
    let now = at(2025, 3, 10, 0);
    let window = year_window(Some(2023), now, kst()).unwrap();
    assert_eq!(window.year(), 2023);
    assert_eq!(window.total_days(), 365);
    assert_eq!(window.first_day(), day(2023, 1, 1));
    assert_eq!(window.begin(), id_on(2023, 1, 1, 0));
    assert_eq!(window.end(), id_on(2024, 1, 1, 0));
    assert_eq!(window.zone(), kst());
    let leap = year_window(Some(2024), now, kst()).unwrap();
    assert_eq!(leap.total_days(), 366);
    assert_eq!(leap.end() - leap.begin(), 366 * DAY_TICKS);
}

#[test]
fn the_window_of_the_present_year_ends_with_today() {
    let now = at(2024, 3, 10, 43_200);
    let window = year_window(None, now, kst()).unwrap();
    assert_eq!(window.year(), 2024);
    assert_eq!(window.total_days(), 31 + 29 + 10);
    assert_eq!(window.begin(), id_on(2024, 1, 1, 0));
    assert_eq!(window.end(), id_on(2024, 3, 11, 0));
    assert_eq!(year_window(Some(2024), now, kst()), Some(window));
    let first = year_window(None, at(2024, 1, 1, 0), kst()).unwrap();
    assert_eq!(first.total_days(), 1);
}

#[test]
fn the_window_of_a_year_to_come_spans_the_year() {
    let window = year_window(Some(2030), at(2024, 3, 10, 0), kst()).unwrap();
    assert_eq!((window.year(), window.total_days()), (2030, 365));
}

#[test]
fn the_present_year_is_read_in_the_zone() {
    // 2023-12-31T15:00Z is the first instant of 2024 at UTC+9.
    let now = DateTime::from_timestamp(1_704_034_800, 0, UtcOffset::utc()).unwrap();
    assert_eq!(year_window(None, now, kst()).unwrap().year(), 2024);
    let utc = year_window(None, now, UtcOffset::utc()).unwrap();
    assert_eq!((utc.year(), utc.total_days()), (2023, 365));
}

#[test]
fn years_beyond_the_identifiers_have_no_window() {
    let now = at(2024, 3, 10, 0);
    assert!(year_window(Some(2083), now, kst()).is_some());
    assert_eq!(year_window(Some(2084), now, kst()), None);
    assert!(year_window(Some(1946), now, kst()).is_some());
    assert_eq!(year_window(Some(1945), now, kst()), None);
    assert_eq!(year_window(Some(i32::MAX), now, kst()), None);
    assert_eq!(year_window(Some(i32::MIN), now, kst()), None);
    assert_eq!(year_window(Some(300_000), now, kst()), None);
    let far = DateTime::from_timestamp(4_000_000_000, 0, kst()).unwrap();
    assert_eq!(year_window(None, far, kst()), None);
    assert!(year_window(Some(2024), far, kst()).is_some());
}

#[test]
fn windows_between_days() {
    let window = YearWindow::between(2024, day(2024, 1, 1), day(2024, 1, 3), kst()).unwrap();
    assert_eq!((window.year(), window.total_days()), (2024, 2));
    assert_eq!(window.end(), window.begin() + 2 * DAY_TICKS);
    assert_eq!(YearWindow::between(2024, day(2024, 1, 1), day(2024, 1, 1), kst()), None);
    assert_eq!(YearWindow::between(2024, day(2024, 1, 2), day(2024, 1, 1), kst()), None);
    assert_eq!(YearWindow::between(1, Date { day: i32::MIN }, Date { day: i32::MAX }, kst()), None);
}

#[test]
fn yearly_statistics_count_the_events_of_the_year() {
    let ledger = sample();
    let (year, stats) = yearly_statistics(&ledger, Some(2024), at(2025, 2, 1, 0)).unwrap();
    assert_eq!(year, 2024);
    assert_eq!(stats, YearlyStats { stats: vec![entry("alice", 5), entry("bob", 4)], total_days: 366 });
    let (year, stats) = yearly_statistics(&ledger, Some(2023), at(2025, 2, 1, 0)).unwrap();
    assert_eq!(year, 2023);
    assert_eq!(stats, YearlyStats { stats: vec![entry("dave", 1)], total_days: 365 });
    let (year, stats) = yearly_statistics(&ledger, None, at(2025, 2, 1, 0)).unwrap();
    assert_eq!((year, stats.len(), stats.total_days), (2025, 0, 32));
}

#[test]
fn yearly_statistics_of_the_present_year_stop_today() {
    let ledger = sample();
    let (year, stats) = yearly_statistics(&ledger, None, at(2024, 1, 4, 150)).unwrap();
    assert_eq!(year, 2024);
    assert_eq!(stats, YearlyStats { stats: vec![entry("alice", 4), entry("bob", 3)], total_days: 4 });
}

#[test]
fn yearly_statistics_refuse_unsupported_years() {
    let ledger = sample();
    let answer = yearly_statistics(&ledger, Some(2084), at(2024, 1, 4, 150));
    assert_eq!(answer, Err(StatsError::UnsupportedDate));
}

#[test]
fn yearly_statistics_in_a_window() {
    let ledger = sample();
    let window = YearWindow::between(2024, day(2024, 1, 4), day(2024, 1, 6), kst()).unwrap();
    assert_eq!(
        yearly_statistics_in(&ledger, &window),
        YearlyStats { stats: vec![entry("alice", 2), entry("bob", 2)], total_days: 2 }
    );
}

#[test]
fn yearly_stats_come_one_by_one_with_the_days() {
    let stats = YearlyStats { stats: vec![entry("alice", 183), entry("bob", 4)], total_days: 366 };
    assert_eq!(stats.len(), 2);
    let items = stats.iter();
    assert_eq!(
        items,
        vec![
            YearlyStat { name: "alice".to_string(), total_days: 366, count: 183 },
            YearlyStat { name: "bob".to_string(), total_days: 366, count: 4 },
        ]
    );
    assert_eq!(items[0].title(), "alice");
    assert_eq!(items[0].ratio(), Some(50));
    assert_eq!(items[1].ratio(), Some(1));
    assert_eq!(YearlyStats { stats: Vec::new(), total_days: 1 }.iter(), Vec::new());
}

#[test]
fn percent_rounds_down() {
    assert_eq!(percent(0, 365), Some(0));
    assert_eq!(percent(1, 365), Some(0));
    assert_eq!(percent(3, 366), Some(0));
    assert_eq!(percent(4, 366), Some(1));
    assert_eq!(percent(365, 365), Some(100));
    assert_eq!(percent(364, 365), Some(99));
    assert_eq!(percent(2, 1), Some(200));
    assert_eq!(percent(u64::MAX, i64::MAX), Some(200));
    assert_eq!(percent(u64::MAX / 100, 1), Some(u64::MAX / 100 * 100));
}

#[test]
fn percent_of_no_day_or_beyond_u64_is_refused() {
    assert_eq!(percent(1, 0), None);
    assert_eq!(percent(1, -5), None);
    assert_eq!(percent(u64::MAX, 1), None);
    assert_eq!(percent(u64::MAX / 100 + 1, 1), None);
}

#[test]
fn detail_of_an_unknown_actor() {
    let ledger = sample();
    assert_eq!(participant_detail(&ledger, 77, at(2024, 1, 5, 500)), Err(StatsError::UnknownActor));
    let window = year_window(None, at(2024, 1, 5, 500), kst()).unwrap();
    assert_eq!(participant_detail_in(&ledger, 77, &window), Err(StatsError::UnknownActor));
    let far = DateTime::from_timestamp(4_000_000_000, 0, kst()).unwrap();
    assert_eq!(participant_detail(&ledger, 77, far), Err(StatsError::UnknownActor));
    assert_eq!(participant_detail(&ledger, 1, far), Err(StatsError::UnsupportedDate));
}

#[test]
fn detail_of_a_participant() {
    let ledger = sample();
    let detail = participant_detail(&ledger, 2, at(2024, 1, 8, 500)).unwrap();
    assert_eq!(detail.name, "bob");
    assert_eq!(detail.longest_streak, 3);
    assert_eq!(detail.current_streak, 3);
    assert_eq!(detail.year, 2024);
    assert_eq!(detail.yearly_count, 4);
    assert_eq!(detail.yearly_ratio, 50);
    assert_eq!(detail.total_count, 4);
    assert_eq!(
        detail.missing_days,
        MissingDays::Detailed(vec![
            day(2024, 1, 1),
            day(2024, 1, 2),
            day(2024, 1, 6),
            day(2024, 1, 7),
            day(2024, 1, 8),
        ])
    );
}

#[test]
fn detail_counts_the_present_year_only_for_the_yearly_numbers() {
    let ledger = sample();
    let detail = participant_detail(&ledger, 4, at(2024, 1, 2, 0)).unwrap();
    assert_eq!((detail.year, detail.yearly_count, detail.yearly_ratio, detail.total_count), (2024, 0, 0, 1));
    assert_eq!(detail.missing_days, MissingDays::Detailed(vec![day(2024, 1, 1), day(2024, 1, 2)]));
    let alice = participant_detail(&ledger, 1, at(2024, 1, 5, 0)).unwrap();
    assert_eq!((alice.yearly_count, alice.yearly_ratio), (5, 100));
    assert_eq!(alice.missing_days, MissingDays::Detailed(Vec::new()));
}

#[test]
fn all_but_three_days_of_a_year_gives_those_three_dates() {
    let mut ledger = Ledger::new(kst());
    ledger.upsert_participant(1, "alice".to_string());
    ledger.upsert_participant(2, "bob".to_string());
    let first = day(2023, 1, 1).day;
    let skipped = [day(2023, 1, 1), day(2023, 7, 19), day(2023, 12, 31)];
    for k in 0..365 {
        let date = Date::from_epoch_days(first + k);
        let start = date.and_midnight(kst()).unwrap().into_snowflakes();
        check_in(&mut ledger, 2, start + 5);
        if !skipped.contains(&date) {
            // Alternately at the very start and at the very end of the day.
            let id = if k % 2 == 0 { start } else { start + DAY_TICKS - 1 };
            check_in(&mut ledger, 1, id);
        }
    }
    let window = year_window(Some(2023), at(2024, 5, 5, 0), kst()).unwrap();
    assert_eq!(missing_days(&ledger, 1, &window), MissingDays::Detailed(skipped.to_vec()));
    assert_eq!(missing_days(&ledger, 2, &window), MissingDays::Detailed(Vec::new()));
    let detail = participant_detail_in(&ledger, 1, &window).unwrap();
    assert_eq!((detail.yearly_count, detail.yearly_ratio), (362, 99));
}

#[test]
fn missing_days_are_listed_below_the_threshold_and_counted_from_it_on() {
    assert_eq!(DETAIL_LIMIT_COUNT, 10);
    let mut ledger = Ledger::new(kst());
    ledger.upsert_participant(1, "alice".to_string());
    check_in(&mut ledger, 1, id_on(2024, 1, 1, 0));
    let nine = YearWindow::between(2024, day(2024, 1, 1), day(2024, 1, 11), kst()).unwrap();
    let listed: Vec<Date> = (2..=10).map(|d| day(2024, 1, d)).collect();
    assert_eq!(missing_days(&ledger, 1, &nine), MissingDays::Detailed(listed));
    let ten = YearWindow::between(2024, day(2024, 1, 1), day(2024, 1, 12), kst()).unwrap();
    assert_eq!(missing_days(&ledger, 1, &ten), MissingDays::Count(10));
    let year = year_window(Some(2024), at(2025, 1, 1, 0), kst()).unwrap();
    assert_eq!(missing_days(&ledger, 1, &year), MissingDays::Count(365));
    assert_eq!(missing_days(&ledger, 9, &year), MissingDays::Count(366));
}

#[test]
fn several_events_on_one_day_miss_no_other_day() {
    let mut ledger = Ledger::new(kst());
    ledger.upsert_participant(1, "alice".to_string());
    check_in(&mut ledger, 1, id_on(2024, 1, 2, 30));
    check_in(&mut ledger, 1, id_on(2024, 1, 2, 10));
    check_in(&mut ledger, 1, id_on(2024, 1, 2, 20));
    check_in(&mut ledger, 1, id_on(2023, 12, 31, 86_399));
    check_in(&mut ledger, 1, id_on(2024, 1, 4, 0));
    let window = YearWindow::between(2024, day(2024, 1, 1), day(2024, 1, 4), kst()).unwrap();
    assert_eq!(
        missing_days(&ledger, 1, &window),
        MissingDays::Detailed(vec![day(2024, 1, 1), day(2024, 1, 3)])
    );
}

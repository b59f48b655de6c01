use futaba::backfill::{ingest_page, start_cursor, well_formed, PAGE_LIMIT};
use futaba::backfill::{BackfillAction, BackfillController, BackfillError};
use futaba::event::{Event, CHECK_IN_TOKEN};
use futaba::ledger::{HistoryRecord, Ledger, Participant};
use futaba::snowflake::IntoSnowflakes;
use futaba::time::{Date, DateTime, UtcOffset};

fn kst() -> UtcOffset {
    UtcOffset::east(9 * 3600).unwrap()
}

fn id_on(year: i32, month: u32, day: u32, second_of_day: i64) -> i64 {
    let start = Date::from_ymd(year, month, day).unwrap().and_midnight(kst()).unwrap();
    DateTime::from_timestamp(start.timestamp() + second_of_day, 0, kst()).unwrap().into_snowflakes()
}

fn event(id: i64, author_id: u64, content: &str) -> Event {
    Event { id, author_id, author_is_bot: false, edited: false, content: content.to_string() }
}

fn ledger_of(actors: &[u64]) -> Ledger {
    let mut ledger = Ledger::new(kst());
    for actor in actors {
        ledger.upsert_participant(*actor, format!("actor{}", actor));
    }
    ledger
}

/// A source of one event per day from 2023-05-01 on, by the actors 1 to 3 in
/// turn; every seventh event says something else, and every eleventh is of
/// an actor nobody registered.
fn stream(len: usize) -> Vec<Event> {
    let first = Date::from_ymd(2023, 5, 1).unwrap();
    let mut events = Vec::new();
    for i in 0..len {
        let date = Date::from_epoch_days(first.day + i as i32);
        let start = date.and_midnight(kst()).unwrap();
        let id = DateTime::from_timestamp(start.timestamp() + 60 + i as i64, 0, kst())
            .unwrap()
            .into_snowflakes();
        let author = if i % 11 == 10 { 9 } else { 1 + (i % 3) as u64 };
        let content = if i % 7 == 6 { "hello" } else { CHECK_IN_TOKEN };
        events.push(event(id, author, content));
    }
    events
}

/// The page a source that holds `stream` gives for a fetch, newest first as
/// such sources do.
fn fetch(stream: &[Event], after: i64, limit: usize) -> Vec<Event> {
    let mut page: Vec<Event> = stream.iter().filter(|e| e.id > after).take(limit).cloned().collect();
    page.reverse();
    page
}

/// Drives the controller until it rests or `max_pages` pages were handed
/// over. Returns the pages' count.
fn drive(
    controller: &mut BackfillController,
    ledger: &mut Ledger,
    stream: &[Event],
    first: BackfillAction,
    max_pages: usize,
) -> usize {
    let mut action = first;
    let mut pages = 0;
    while let BackfillAction::Fetch { after, limit } = action {
        if pages == max_pages {
            break;
        }
        assert_eq!(limit, PAGE_LIMIT);
        assert_eq!(controller.cursor(), Some(after));
        action = controller.on_page(ledger, &fetch(stream, after, limit)).unwrap();
        pages += 1;
    }
    pages
}

fn state(ledger: &Ledger) -> (Vec<Participant>, Vec<HistoryRecord>) {
    (ledger.participants().clone(), ledger.history().clone())
}

#[test]
fn the_page_limit_is_one_hundred() {
    assert_eq!(PAGE_LIMIT, 100);
}

#[test]
fn start_cursor_is_the_largest_of_what_is_there() {
    assert_eq!(start_cursor(None, None, None), None);
    assert_eq!(start_cursor(Some(5), None, None), Some(5));
    assert_eq!(start_cursor(None, Some(6), None), Some(6));
    assert_eq!(start_cursor(None, None, Some(7)), Some(7));
    assert_eq!(start_cursor(Some(5), Some(9), Some(7)), Some(9));
    assert_eq!(start_cursor(Some(10), Some(9), Some(7)), Some(10));
    assert_eq!(start_cursor(Some(5), Some(6), Some(7)), Some(7));
    assert_eq!(start_cursor(Some(-5), None, Some(-7)), Some(-5));
}

#[test]
fn resume_without_any_start_needs_a_seed() {
    let mut controller = BackfillController::new(None);
    assert_eq!(controller.resume(None, None, 1000), Err(BackfillError::MissingSeed));
    assert!(!controller.is_paging());
    assert_eq!(controller.cursor(), None);
}

#[test]
fn resume_pages_while_the_cursor_is_before_the_target() {
    let mut controller = BackfillController::new(Some(10));
    assert_eq!(
        controller.resume(Some(20), Some(15), 1000),
        Ok(BackfillAction::Fetch { after: 20, limit: 100 })
    );
    assert_eq!(controller, BackfillController::Paging { cursor: 20, target: 1000 });
    assert!(controller.is_paging());
    assert_eq!(controller.cursor(), Some(20));
}

#[test]
fn resume_rests_when_the_cursor_has_reached_the_target() {
    let mut controller = BackfillController::new(Some(1000));
    assert_eq!(controller.resume(None, None, 1000), Ok(BackfillAction::Rest));
    assert_eq!(controller, BackfillController::Idle { reached: Some(1000) });
    let mut controller = BackfillController::new(None);
    assert_eq!(controller.resume(None, Some(2000), 1000), Ok(BackfillAction::Rest));
    assert_eq!(controller.cursor(), Some(2000));
}

#[test]
fn resume_in_a_run_starts_from_the_cursor_again() {
    let mut controller = BackfillController::Paging { cursor: 50, target: 100 };
    assert_eq!(
        controller.resume(Some(70), None, 500),
        Ok(BackfillAction::Fetch { after: 70, limit: 100 })
    );
    assert_eq!(controller, BackfillController::Paging { cursor: 70, target: 500 });
}

#[test]
fn a_page_is_not_looked_at_while_the_controller_rests() {
    let mut controller = BackfillController::new(Some(0));
    let mut ledger = ledger_of(&[1]);
    let page = vec![event(id_on(2024, 1, 1, 10), 1, CHECK_IN_TOKEN)];
    assert_eq!(controller.on_page(&mut ledger, &page), Ok(BackfillAction::Rest));
    assert_eq!(controller, BackfillController::Idle { reached: Some(0) });
    assert!(ledger.history().is_empty());
}

#[test]
fn a_short_page_ends_the_run_and_moves_the_cursor() {
    let mut ledger = ledger_of(&[1]);
    let a = id_on(2024, 1, 1, 10);
    let b = id_on(2024, 1, 2, 10);
    let mut controller = BackfillController::Paging { cursor: 0, target: i64::MAX };
    let page = vec![event(b, 1, CHECK_IN_TOKEN), event(a, 1, CHECK_IN_TOKEN)];
    assert_eq!(controller.on_page(&mut ledger, &page), Ok(BackfillAction::Rest));
    assert_eq!(controller, BackfillController::Idle { reached: Some(b) });
    assert_eq!(ledger.history().len(), 2);
}

#[test]
fn an_empty_page_ends_the_run_and_leaves_the_cursor() {
    let mut ledger = ledger_of(&[1]);
    let mut controller = BackfillController::Paging { cursor: 77, target: 1000 };
    assert_eq!(controller.on_page(&mut ledger, &Vec::new()), Ok(BackfillAction::Rest));
    assert_eq!(controller, BackfillController::Idle { reached: Some(77) });
}

#[test]
fn the_page_is_worked_off_in_the_order_of_the_identifiers() {
    let mut ledger = ledger_of(&[1]);
    let ids = [id_on(2024, 1, 3, 10), id_on(2024, 1, 1, 10), id_on(2024, 1, 4, 10), id_on(2024, 1, 2, 10)];
    let page: Vec<Event> = ids.iter().map(|id| event(*id, 1, CHECK_IN_TOKEN)).collect();
    assert_eq!(ingest_page(&mut ledger, &page), Some(ids[2]));
    let recorded: Vec<i64> = ledger.history().iter().map(|r| r.event_id).collect();
    assert_eq!(recorded, vec![ids[1], ids[3], ids[0], ids[2]]);
    let p = ledger.participant(1).unwrap();
    assert_eq!((p.count, p.streak.current, p.streak.longest), (4, 4, 4));
}

#[test]
fn the_cursor_moves_past_events_that_do_not_count() {
    let mut ledger = ledger_of(&[1]);
    let a = id_on(2024, 1, 1, 10);
    let b = id_on(2024, 1, 2, 10);
    let c = id_on(2024, 1, 3, 10);
    let mut controller = BackfillController::Paging { cursor: 0, target: i64::MAX };
    let mut bot = event(c, 1, CHECK_IN_TOKEN);
    bot.author_is_bot = true;
    let page = vec![event(a, 1, CHECK_IN_TOKEN), event(b, 1, "hello"), bot];
    assert_eq!(controller.on_page(&mut ledger, &page), Ok(BackfillAction::Rest));
    assert_eq!(controller.cursor(), Some(c));
    let recorded: Vec<i64> = ledger.history().iter().map(|r| r.event_id).collect();
    assert_eq!(recorded, vec![a]);
}

#[test]
fn unknown_actors_and_duplicates_do_not_end_the_page() {
    let mut ledger = ledger_of(&[1]);
    let a = id_on(2024, 1, 1, 10);
    let b = id_on(2024, 1, 2, 10);
    let c = id_on(2024, 1, 3, 10);
    assert_eq!(ingest_page(&mut ledger, &vec![event(b, 1, CHECK_IN_TOKEN)]), Some(b));
    let page = vec![
        event(a, 5, CHECK_IN_TOKEN),
        event(b, 1, CHECK_IN_TOKEN),
        event(c, 1, CHECK_IN_TOKEN),
    ];
    assert_eq!(ingest_page(&mut ledger, &page), Some(c));
    let recorded: Vec<i64> = ledger.history().iter().map(|r| r.event_id).collect();
    assert_eq!(recorded, vec![b, c]);
    assert_eq!(ledger.participant(1).unwrap().streak.current, 2);
}

#[test]
fn a_full_page_before_the_target_asks_for_the_next() {
    let events = stream(150);
    let mut ledger = ledger_of(&[1, 2, 3]);
    let mut controller = BackfillController::Paging { cursor: 0, target: events[149].id };
    let answer = controller.on_page(&mut ledger, &fetch(&events, 0, 100));
    assert_eq!(answer, Ok(BackfillAction::Fetch { after: events[99].id, limit: 100 }));
    assert_eq!(controller, BackfillController::Paging { cursor: events[99].id, target: events[149].id });
    let answer = controller.on_page(&mut ledger, &fetch(&events, events[99].id, 100));
    assert_eq!(answer, Ok(BackfillAction::Rest));
    assert_eq!(controller, BackfillController::Idle { reached: Some(events[149].id) });
}

#[test]
fn a_full_page_that_reaches_the_target_ends_the_run() {
    let events = stream(100);
    let mut ledger = ledger_of(&[1, 2, 3]);
    let mut controller = BackfillController::Paging { cursor: 0, target: events[99].id };
    let answer = controller.on_page(&mut ledger, &fetch(&events, 0, 100));
    assert_eq!(answer, Ok(BackfillAction::Rest));
    assert_eq!(controller.cursor(), Some(events[99].id));
}

#[test]
fn a_page_with_an_event_at_or_before_the_cursor_is_a_source_failure() {
    let mut ledger = ledger_of(&[1]);
    let a = id_on(2024, 1, 1, 10);
    let b = id_on(2024, 1, 2, 10);
    let mut controller = BackfillController::Paging { cursor: a, target: i64::MAX };
    let page = vec![event(b, 1, CHECK_IN_TOKEN), event(a, 1, CHECK_IN_TOKEN)];
    assert!(!well_formed(&page, a));
    assert!(well_formed(&page, a - 1));
    assert_eq!(controller.on_page(&mut ledger, &page), Err(BackfillError::SourceFailure));
    assert_eq!(controller, BackfillController::Idle { reached: Some(a) });
    assert!(ledger.history().is_empty());
}

#[test]
fn a_page_longer_than_the_limit_is_a_source_failure() {
    let events = stream(101);
    let mut ledger = ledger_of(&[1, 2, 3]);
    let mut controller = BackfillController::Paging { cursor: 0, target: i64::MAX };
    assert!(!well_formed(&events, 0));
    assert!(well_formed(&events[..100].to_vec(), 0));
    assert_eq!(controller.on_page(&mut ledger, &events), Err(BackfillError::SourceFailure));
    assert_eq!(controller.cursor(), Some(0));
    assert!(ledger.history().is_empty());
}

#[test]
fn abort_keeps_the_cursor() {
    let mut controller = BackfillController::Paging { cursor: 33, target: 1000 };
    controller.abort();
    assert_eq!(controller, BackfillController::Idle { reached: Some(33) });
    controller.abort();
    assert_eq!(controller, BackfillController::Idle { reached: Some(33) });
    let mut controller = BackfillController::new(None);
    controller.abort();
    assert_eq!(controller.cursor(), None);
}

#[test]
fn a_run_over_several_pages_records_what_counts() {
    let events = stream(250);
    let mut ledger = ledger_of(&[1, 2, 3]);
    let mut controller = BackfillController::new(None);
    let first = controller.resume(ledger.latest_event_id(), Some(0), events[249].id).unwrap();
    assert_eq!(drive(&mut controller, &mut ledger, &events, first, usize::MAX), 3);
    assert_eq!(controller, BackfillController::Idle { reached: Some(events[249].id) });
    let expected: Vec<i64> = events
        .iter()
        .enumerate()
        .filter(|(i, _)| i % 7 != 6 && i % 11 != 10)
        .map(|(_, e)| e.id)
        .collect();
    let recorded: Vec<i64> = ledger.history().iter().map(|r| r.event_id).collect();
    assert_eq!(recorded, expected);
    let total: u64 = ledger.participants().iter().map(|p| p.count).sum();
    assert_eq!(total, expected.len() as u64);
}

#[test]
fn a_run_cut_between_pages_and_taken_up_again_ends_like_one_run() {
    let events = stream(250);
    let head = events[249].id;
    let mut whole = ledger_of(&[1, 2, 3]);
    let mut controller = BackfillController::new(None);
    let first = controller.resume(None, Some(0), head).unwrap();
    drive(&mut controller, &mut whole, &events, first, usize::MAX);

    let mut ledger = ledger_of(&[1, 2, 3]);
    let mut controller = BackfillController::new(None);
    let first = controller.resume(None, Some(0), head).unwrap();
    assert_eq!(drive(&mut controller, &mut ledger, &events, first, 1), 1);
    let persisted = controller.cursor();
    assert_eq!(persisted, Some(events[99].id));

    let mut controller = BackfillController::new(persisted);
    let again = controller.resume(ledger.latest_event_id(), Some(0), head).unwrap();
    drive(&mut controller, &mut ledger, &events, again, usize::MAX);
    assert_eq!(state(&ledger), state(&whole));
    assert_eq!(controller.cursor(), Some(head));
}

#[test]
fn a_run_cut_in_a_page_and_taken_up_again_ends_like_one_run() {
    let events = stream(250);
    let head = events[249].id;
    let mut whole = ledger_of(&[1, 2, 3]);
    let mut controller = BackfillController::new(None);
    let first = controller.resume(None, Some(0), head).unwrap();
    drive(&mut controller, &mut whole, &events, first, usize::MAX);

    // The first page is worked off and its cursor persisted; of the second
    // page 37 events reach the ledger before the process dies.
    let mut ledger = ledger_of(&[1, 2, 3]);
    let mut controller = BackfillController::new(None);
    let first = controller.resume(None, Some(0), head).unwrap();
    drive(&mut controller, &mut ledger, &events, first, 1);
    let persisted = controller.cursor();
    ingest_page(&mut ledger, &events[100..137].to_vec());

    // Once from the persisted cursor alone, once from the newest recorded
    // event as well.
    let mut from_cursor = ledger_of(&[1, 2, 3]);
    ingest_page(&mut from_cursor, &events[..137].to_vec());
    let mut controller = BackfillController::new(persisted);
    let again = controller.resume(None, None, head).unwrap();
    assert_eq!(again, BackfillAction::Fetch { after: events[99].id, limit: 100 });
    drive(&mut controller, &mut from_cursor, &events, again, usize::MAX);
    assert_eq!(state(&from_cursor), state(&whole));

    let mut controller = BackfillController::new(persisted);
    let latest = ledger.latest_event_id();
    assert_eq!(latest, Some(events[136].id));
    let again = controller.resume(latest, Some(0), head).unwrap();
    assert_eq!(again, BackfillAction::Fetch { after: events[136].id, limit: 100 });
    drive(&mut controller, &mut ledger, &events, again, usize::MAX);
    assert_eq!(state(&ledger), state(&whole));
}

#[test]
fn a_second_run_over_the_same_source_changes_nothing() {
    let events = stream(120);
    let head = events[119].id;
    let mut ledger = ledger_of(&[1, 2, 3]);
    let mut controller = BackfillController::new(None);
    let first = controller.resume(None, Some(0), head).unwrap();
    drive(&mut controller, &mut ledger, &events, first, usize::MAX);
    let before = state(&ledger);
    assert_eq!(controller.resume(ledger.latest_event_id(), Some(0), head), Ok(BackfillAction::Rest));
    let mut from_seed = BackfillController::new(None);
    let first = from_seed.resume(None, Some(0), head).unwrap();
    drive(&mut from_seed, &mut ledger, &events, first, usize::MAX);
    assert_eq!(state(&ledger), before);
}

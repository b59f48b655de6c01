use futaba::backfill::BackfillController;
use futaba::event::{Event, CHECK_IN_TOKEN};
use futaba::ledger::{Ledger, RecordOutcome};
use futaba::live::{on_event, register_members, LiveAction, Member};
use futaba::snowflake::IntoSnowflakes;
use futaba::time::{Date, DateTime, UtcOffset};

fn kst() -> UtcOffset {
    UtcOffset::east(9 * 3600).unwrap()
}

fn id_on(year: i32, month: u32, day: u32, second_of_day: i64) -> i64 {
    let start = Date::from_ymd(year, month, day).unwrap().and_midnight(kst()).unwrap();
    DateTime::from_timestamp(start.timestamp() + second_of_day, 0, kst()).unwrap().into_snowflakes()
}

fn event(id: i64, author_id: u64, content: &str) -> Event {
    Event { id, author_id, author_is_bot: false, edited: false, content: content.to_string() }
}

fn member(user_id: u64, nick: Option<&str>, user_name: &str) -> Member {
    Member { user_id, nick: nick.map(|n| n.to_string()), user_name: user_name.to_string() }
}

#[test]
fn a_live_check_in_is_counted() {
    let mut ledger = Ledger::new(kst());
    ledger.upsert_participant(1, "alice".to_string());
    let e = event(id_on(2024, 1, 1, 10), 1, CHECK_IN_TOKEN);
    assert_eq!(on_event(&mut ledger, &e), LiveAction::Counted(RecordOutcome::Accepted));
    assert_eq!(on_event(&mut ledger, &e), LiveAction::Counted(RecordOutcome::Duplicate));
    assert_eq!(ledger.participant(1).unwrap().count, 1);
    let stranger = event(id_on(2024, 1, 1, 20), 2, CHECK_IN_TOKEN);
    assert_eq!(
        on_event(&mut ledger, &stranger),
        LiveAction::Counted(RecordOutcome::RejectedUnknownActor)
    );
    assert_eq!(ledger.history().len(), 1);
}

#[test]
fn a_live_event_that_does_not_count_is_to_be_removed() {
    let mut ledger = Ledger::new(kst());
    ledger.upsert_participant(1, "alice".to_string());
    assert_eq!(on_event(&mut ledger, &event(id_on(2024, 1, 1, 10), 1, "hello")), LiveAction::Remove);
    let mut edited = event(id_on(2024, 1, 1, 11), 1, CHECK_IN_TOKEN);
    edited.edited = true;
    assert_eq!(on_event(&mut ledger, &edited), LiveAction::Remove);
    assert!(ledger.history().is_empty());
    assert_eq!(ledger.participant(1).unwrap().count, 0);
}

#[test]
fn a_live_event_moves_the_cursor_of_a_resting_controller() {
    let mut controller = BackfillController::new(None);
    controller.on_live_event(50);
    assert_eq!(controller, BackfillController::Idle { reached: Some(50) });
    controller.on_live_event(40);
    assert_eq!(controller.cursor(), Some(50));
    controller.on_live_event(60);
    assert_eq!(controller.cursor(), Some(60));
}

#[test]
fn a_live_event_leaves_the_cursor_of_a_run() {
    let mut controller = BackfillController::Paging { cursor: 10, target: 100 };
    controller.on_live_event(500);
    assert_eq!(controller, BackfillController::Paging { cursor: 10, target: 100 });
}

#[test]
fn members_go_by_their_nick_or_else_by_their_name() {
    assert_eq!(member(1, Some("ally"), "alice").display_name(), "ally");
    assert_eq!(member(1, None, "alice").display_name(), "alice");
    assert_eq!(member(1, Some(""), "alice").display_name(), "");
}

#[test]
fn a_page_of_members_is_registered_and_gives_the_place_to_go_on_from() {
    let mut ledger = Ledger::new(kst());
    ledger.upsert_participant(2, "robert".to_string());
    ledger.record(&event(id_on(2024, 1, 1, 10), 2, CHECK_IN_TOKEN));
    let page = vec![member(5, None, "eve"), member(2, Some("bob"), "robert"), member(3, None, "carol")];
    assert_eq!(register_members(&mut ledger, &page), Some(5));
    let names: Vec<(u64, String, u64)> =
        ledger.participants().iter().map(|p| (p.actor_id, p.name.clone(), p.count)).collect();
    assert_eq!(
        names,
        vec![(2, "bob".to_string(), 1), (5, "eve".to_string(), 0), (3, "carol".to_string(), 0)]
    );
    assert_eq!(register_members(&mut ledger, &Vec::new()), None);
    assert_eq!(ledger.participants().len(), 3);
    assert_eq!(register_members(&mut ledger, &vec![member(0, None, "zero")]), Some(0));
}

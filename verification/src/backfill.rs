//! Catching up on the events that the source holds beyond the cursor.
//!
//! The controller asks for the events after its cursor page by page. It puts
//! each page in the order of the identifiers, hands the events that count to
//! the ledger, and moves the cursor to the newest identifier of the page,
//! whether that event counted or not. A page shorter than the limit is the
//! last one. The controller does no input or output itself: it says what to
//! fetch next and is told what came back.

use crate::event::{Event, EventView};
use crate::ledger::{Ledger, LedgerView};
use crate::order::{lemma_order_of_ascending, order_of, spec_order};
use vstd::prelude::*;

verus! {

/// How many events the controller asks for at a time.
pub const PAGE_LIMIT: usize = 100;

/// The events of a page as the contracts see them.
pub open spec fn views(page: Seq<Event>) -> Seq<EventView> {
    page.map_values(|event: Event| event@)
}

/// The identifiers of a page as keys to order it by.
pub open spec fn id_keys(page: Seq<EventView>) -> Seq<i128> {
    page.map_values(|event: EventView| event.id as i128)
}

/// The page in the order of the identifiers, events of one identifier in the
/// order they came in.
pub open spec fn spec_page_order(page: Seq<EventView>) -> Seq<EventView> {
    spec_order(id_keys(page)).map_values(|i: usize| page[i as int])
}

/// The ledger after it was shown one event: it is handed the event if the
/// event counts as a check-in, and stays as it is otherwise.
pub open spec fn spec_ingest_one(ledger: LedgerView, event: EventView) -> LedgerView {
    if event.counts(ledger.offset) {
        ledger.spec_record(event.id, event.author_id).0
    } else {
        ledger
    }
}

/// The ledger after it was shown the events one after the other.
pub open spec fn spec_ingest(ledger: LedgerView, events: Seq<EventView>) -> LedgerView
    decreases events.len(),
{
    if events.len() == 0 {
        ledger
    } else {
        spec_ingest_one(spec_ingest(ledger, events.drop_last()), events.last())
    }
}

/// The greatest identifier in the page, `None` where the page is empty.
pub open spec fn spec_newest(page: Seq<EventView>) -> Option<i64>
    decreases page.len(),
{
    if page.len() == 0 {
        None
    } else {
        spec_later(spec_newest(page.drop_last()), Some(page.last().id))
    }
}

/// Whether a page cannot be the answer to a request for at most
/// `PAGE_LIMIT` events after `cursor`.
pub open spec fn malformed(page: Seq<EventView>, cursor: i64) -> bool {
    ||| page.len() > PAGE_LIMIT
    ||| exists|i: int| 0 <= i < page.len() && (#[trigger] page[i]).id <= cursor
}

/// The larger of two optional identifiers, an absent one giving way.
pub open spec fn spec_later(a: Option<i64>, b: Option<i64>) -> Option<i64> {
    match (a, b) {
        (Some(x), Some(y)) => Some(if x >= y {
            x
        } else {
            y
        }),
        (Some(x), None) => Some(x),
        (None, other) => other,
    }
}

/// Where a run starts: at the largest of the persisted cursor, the newest
/// recorded event and the operator's seed, as far as each is there.
pub open spec fn spec_start_cursor(
    persisted: Option<i64>,
    latest_recorded: Option<i64>,
    seed: Option<i64>,
) -> Option<i64> {
    spec_later(spec_later(persisted, latest_recorded), seed)
}

/// The larger of two optional identifiers, an absent one giving way.
fn later(a: Option<i64>, b: Option<i64>) -> (c: Option<i64>)
    ensures
        c == spec_later(a, b),
{
    match (a, b) {
        (Some(x), Some(y)) => Some(if x >= y {
            x
        } else {
            y
        }),
        (Some(x), None) => Some(x),
        (None, other) => other,
    }
}

/// Where a run starts: at the largest of the persisted cursor, the newest
/// recorded event and the operator's seed. `None` where there is none of the
/// three: then a seed is needed.
pub fn start_cursor(persisted: Option<i64>, latest_recorded: Option<i64>, seed: Option<i64>) -> (start:
    Option<i64>)
    ensures
        start == spec_start_cursor(persisted, latest_recorded, seed),
        start is None <==> persisted is None && latest_recorded is None && seed is None,
{
    later(later(persisted, latest_recorded), seed)
}

/// Shows the ledger the events of a page in the order of their identifiers
/// and hands it those that count. Returns the newest identifier of the
/// page.
pub fn ingest_page(ledger: &mut Ledger, page: &Vec<Event>) -> (newest: Option<i64>)
    ensures
        final(ledger)@ == spec_ingest(old(ledger)@, spec_page_order(views(page@))),
        newest == spec_newest(views(page@)),
{
    let ghost events = views(page@);
    let mut keys: Vec<i128> = Vec::new();
    let mut newest: Option<i64> = None;
    let mut i: usize = 0;
    while i < page.len()
        invariant
            i <= page.len(),
            events == views(page@),
            keys@ == id_keys(events.take(i as int)),
            newest == spec_newest(events.take(i as int)),
        decreases page.len() - i,
    {
        let id: i64 = page[i].id;
        keys.push(id as i128);
        proof {
            let upto = events.take(i as int + 1);
            assert(upto.drop_last() =~= events.take(i as int));
            assert(upto.last() == events[i as int]);
            assert(keys@ =~= id_keys(upto));
        }
        newest = later(newest, Some(id));
        i += 1;
    }
    assert(events.take(page.len() as int) =~= events);
    let order = order_of(&keys);
    let ghost sorted = spec_page_order(events);
    let mut k: usize = 0;
    while k < order.len()
        invariant
            k <= order.len(),
            events == views(page@),
            order@ == spec_order(id_keys(events)),
            order@.len() == page.len(),
            forall|j: int| 0 <= j < order@.len() ==> (#[trigger] order@[j]) < page.len(),
            sorted == spec_page_order(events),
            ledger@ == spec_ingest(old(ledger)@, sorted.take(k as int)),
        decreases order.len() - k,
    {
        let event = &page[order[k]];
        proof {
            assert(sorted.take(k as int + 1).drop_last() =~= sorted.take(k as int));
            assert(sorted.take(k as int + 1).last() == event@);
        }
        if event.check_message(&ledger.zone()) {
            ledger.record(event);
        }
        k += 1;
    }
    assert(sorted.take(order.len() as int) =~= sorted);
    newest
}

/// What the controller asks of its driver next.
#[derive(Clone, Copy, Debug, PartialEq, Eq, Structural)]
pub enum BackfillAction {
    /// Fetch the events strictly after `after`, at most `limit` of them, in
    /// any order, and hand them over as the next page.
    Fetch { after: i64, limit: usize },
    /// Nothing more to fetch in this run.
    Rest,
}

/// Why a run ended early.
#[derive(Clone, Copy, Debug, PartialEq, Eq, Structural)]
pub enum BackfillError {
    /// There is neither a cursor nor a recorded event nor a seed to start
    /// from.
    MissingSeed,
    /// The source answered with a page that it was not asked for.
    SourceFailure,
}

/// The controller of catch-up runs. It rests between runs and pages during
/// one. The cursor is the newest identifier of the pages that were worked
/// off; a failure leaves it where it was.
#[derive(Clone, Copy, Debug, PartialEq, Eq, Structural)]
pub enum BackfillController {
    /// Between runs.
    Idle { reached: Option<i64> },
    /// In a run that goes on until the cursor has reached `target`.
    Paging { cursor: i64, target: i64 },
}

impl BackfillController {
    /// The cursor: every event up to it was worked off.
    pub open spec fn spec_cursor(self) -> Option<i64> {
        match self {
            BackfillController::Idle { reached } => reached,
            BackfillController::Paging { cursor, .. } => Some(cursor),
        }
    }

    /// The controller after the signal to catch up, and its answer. The run
    /// starts at the largest of the cursor, the newest recorded event and the
    /// seed. Without any of them it cannot start. It pages if the start lies
    /// before `target`, and rests otherwise.
    pub open spec fn spec_resume(
        self,
        latest_recorded: Option<i64>,
        seed: Option<i64>,
        target: i64,
    ) -> (BackfillController, Result<BackfillAction, BackfillError>) {
        match spec_start_cursor(self.spec_cursor(), latest_recorded, seed) {
            None => (BackfillController::Idle { reached: None }, Err(BackfillError::MissingSeed)),
            Some(start) => if start < target {
                (
                    BackfillController::Paging { cursor: start, target },
                    Ok(BackfillAction::Fetch { after: start, limit: PAGE_LIMIT }),
                )
            } else {
                (BackfillController::Idle { reached: Some(start) }, Ok(BackfillAction::Rest))
            },
        }
    }

    /// The controller and the ledger after a page, and the controller's
    /// answer. While the controller rests a page is not looked at. In a run,
    /// a malformed page ends the run with a failure and changes neither
    /// ledger nor cursor. Any other page is shown to the ledger in the order
    /// of its identifiers, and the cursor moves to the newest of them; the
    /// run goes on if the page was full and the cursor is still before the
    /// target.
    pub open spec fn spec_on_page(self, ledger: LedgerView, page: Seq<EventView>) -> (
        BackfillController,
        LedgerView,
        Result<BackfillAction, BackfillError>,
    ) {
        match self {
            BackfillController::Idle { .. } => (self, ledger, Ok(BackfillAction::Rest)),
            BackfillController::Paging { cursor, target } => if malformed(page, cursor) {
                (
                    BackfillController::Idle { reached: Some(cursor) },
                    ledger,
                    Err(BackfillError::SourceFailure),
                )
            } else {
                let moved = match spec_newest(page) {
                    Some(id) => id,
                    None => cursor,
                };
                let shown = spec_ingest(ledger, spec_page_order(page));
                if page.len() < PAGE_LIMIT || moved >= target {
                    (BackfillController::Idle { reached: Some(moved) }, shown, Ok(BackfillAction::Rest))
                } else {
                    (
                        BackfillController::Paging { cursor: moved, target },
                        shown,
                        Ok(BackfillAction::Fetch { after: moved, limit: PAGE_LIMIT }),
                    )
                }
            },
        }
    }

    /// A controller that rests, with the cursor that was persisted, if any.
    pub fn new(persisted: Option<i64>) -> (controller: BackfillController)
        ensures
            controller == (BackfillController::Idle { reached: persisted }),
    {
        BackfillController::Idle { reached: persisted }
    }

    /// The cursor, to be persisted when a page was worked off.
    pub fn cursor(&self) -> (cursor: Option<i64>)
        ensures
            cursor == self.spec_cursor(),
    {
        match self {
            BackfillController::Idle { reached } => *reached,
            BackfillController::Paging { cursor, .. } => Some(*cursor),
        }
    }

    /// Whether a run is under way.
    pub fn is_paging(&self) -> (paging: bool)
        ensures
            paging == (self is Paging),
    {
        match self {
            BackfillController::Idle { .. } => false,
            BackfillController::Paging { .. } => true,
        }
    }

    /// The signal to catch up: after a start, a reconnect or a resume of the
    /// source. `latest_recorded` is the newest event of the ledger, `seed`
    /// the operator's, `target` the newest event that the source has now.
    pub fn resume(&mut self, latest_recorded: Option<i64>, seed: Option<i64>, target: i64) -> (answer:
        Result<BackfillAction, BackfillError>)
        ensures
            (*final(self), answer) == old(self).spec_resume(latest_recorded, seed, target),
    {
        match start_cursor(self.cursor(), latest_recorded, seed) {
            None => {
                *self = BackfillController::Idle { reached: None };
                Err(BackfillError::MissingSeed)
            },
            Some(start) => {
                if start < target {
                    *self = BackfillController::Paging { cursor: start, target };
                    Ok(BackfillAction::Fetch { after: start, limit: PAGE_LIMIT })
                } else {
                    *self = BackfillController::Idle { reached: Some(start) };
                    Ok(BackfillAction::Rest)
                }
            },
        }
    }

    /// The page that the source gave in answer to the last `Fetch`. While the
    /// controller rests a page is not looked at. A page that is longer than
    /// the limit, or holds an event that is not after the cursor, ends the
    /// run with a failure: ledger and cursor stay as they were. Any other
    /// page is worked off: its events are shown to the ledger in the order of
    /// their identifiers, and the cursor moves to the newest of them.
    pub fn on_page(&mut self, ledger: &mut Ledger, page: &Vec<Event>) -> (answer: Result<
        BackfillAction,
        BackfillError,
    >)
        ensures
            (*final(self), final(ledger)@, answer) == old(self).spec_on_page(
                old(ledger)@,
                views(page@),
            ),
    {
        let (cursor, target) = match self {
            BackfillController::Idle { .. } => {
                return Ok(BackfillAction::Rest);
            },
            BackfillController::Paging { cursor, target } => (*cursor, *target),
        };
        if !well_formed(page, cursor) {
            *self = BackfillController::Idle { reached: Some(cursor) };
            return Err(BackfillError::SourceFailure);
        }
        let newest = ingest_page(ledger, page);
        let moved: i64 = match newest {
            Some(id) => id,
            None => cursor,
        };
        if page.len() < PAGE_LIMIT || moved >= target {
            *self = BackfillController::Idle { reached: Some(moved) };
            Ok(BackfillAction::Rest)
        } else {
            *self = BackfillController::Paging { cursor: moved, target };
            Ok(BackfillAction::Fetch { after: moved, limit: PAGE_LIMIT })
        }
    }

    /// Ends the run after a failure of the source or of the storage. The
    /// cursor stays where it was, so that the next run starts there again.
    pub fn abort(&mut self)
        ensures
            *final(self) == (BackfillController::Idle { reached: old(self).spec_cursor() }),
    {
        let cursor = self.cursor();
        *self = BackfillController::Idle { reached: cursor };
    }
}

/// Whether a page can be the answer to a request for at most `PAGE_LIMIT`
/// events after `cursor`.
pub fn well_formed(page: &Vec<Event>, cursor: i64) -> (ok: bool)
    ensures
        ok == !malformed(views(page@), cursor),
{
    if page.len() > PAGE_LIMIT {
        return false;
    }
    let mut i: usize = 0;
    while i < page.len()
        invariant
            i <= page.len(),
            page.len() <= PAGE_LIMIT,
            forall|k: int| 0 <= k < i ==> (#[trigger] views(page@)[k]).id > cursor,
        decreases page.len() - i,
    {
        if page[i].id <= cursor {
            assert(views(page@)[i as int].id <= cursor);
            return false;
        }
        i += 1;
    }
    true
}

/// Whether the ledger would accept the event if it were shown it now.
pub open spec fn awaits(ledger: LedgerView, event: EventView) -> bool {
    &&& event.counts(ledger.offset)
    &&& !ledger.recorded(event.id)
    &&& ledger.knows(event.author_id)
}

/// Showing the ledger one event changes it exactly if the ledger accepts the
/// event. Afterwards the ledger does not await the event any more, nor any
/// event that it did not await before: what is recorded stays recorded, and
/// nobody is registered by a backfill.
pub proof fn lemma_ingest_one(ledger: LedgerView, event: EventView, other: EventView)
    ensures
        !awaits(ledger, event) ==> spec_ingest_one(ledger, event) == ledger,
        !awaits(spec_ingest_one(ledger, event), event),
        !awaits(ledger, other) ==> !awaits(spec_ingest_one(ledger, event), other),
        spec_ingest_one(ledger, event).offset == ledger.offset,
{
    let after = spec_ingest_one(ledger, event);
    if awaits(ledger, event) {
        let i = ledger.index_of(event.author_id);
        assert(after.history[ledger.history.len() as int].event_id == event.id);
        if ledger.recorded(other.id) {
            let k = choose|k: int|
                0 <= k < ledger.history.len() && (#[trigger] ledger.history[k]).event_id
                    == other.id;
            assert(after.history[k].event_id == other.id);
        }
        if after.knows(other.author_id) {
            let k = choose|k: int|
                0 <= k < after.participants.len() && (#[trigger] after.participants[k]).actor_id
                    == other.author_id;
            assert(ledger.participants[k].actor_id == other.author_id);
        }
    }
}

/// Showing the ledger two lists of events one after the other is showing it
/// the one list that they make.
pub proof fn lemma_ingest_append(ledger: LedgerView, first: Seq<EventView>, second: Seq<EventView>)
    ensures
        spec_ingest(ledger, first + second) == spec_ingest(spec_ingest(ledger, first), second),
    decreases second.len(),
{
    if second.len() == 0 {
        assert(first + second =~= first);
    } else {
        lemma_ingest_append(ledger, first, second.drop_last());
        assert((first + second).drop_last() =~= first + second.drop_last());
        assert((first + second).last() == second.last());
    }
}

/// After the ledger was shown a list of events it awaits none of them, nor
/// any event that it did not await before.
pub proof fn lemma_ingest_settles(ledger: LedgerView, events: Seq<EventView>, other: EventView)
    ensures
        spec_ingest(ledger, events).offset == ledger.offset,
        forall|i: int| 0 <= i < events.len() ==> !awaits(spec_ingest(ledger, events), #[trigger] events[i]),
        !awaits(ledger, other) ==> !awaits(spec_ingest(ledger, events), other),
    decreases events.len(),
{
    if events.len() > 0 {
        let before = spec_ingest(ledger, events.drop_last());
        lemma_ingest_settles(ledger, events.drop_last(), other);
        lemma_ingest_one(before, events.last(), other);
        assert forall|i: int| 0 <= i < events.len() implies !awaits(
            spec_ingest(ledger, events),
            #[trigger] events[i],
        ) by {
            if i < events.len() - 1 {
                assert(events.drop_last()[i] == events[i]);
                lemma_ingest_one(before, events.last(), events[i]);
            } else {
                lemma_ingest_one(before, events.last(), events.last());
            }
        }
    }
}

/// Showing the ledger events that it does not await changes nothing.
pub proof fn lemma_ingest_nothing_new(ledger: LedgerView, events: Seq<EventView>)
    requires
        forall|i: int| 0 <= i < events.len() ==> !awaits(ledger, #[trigger] events[i]),
    ensures
        spec_ingest(ledger, events) == ledger,
    decreases events.len(),
{
    if events.len() > 0 {
        assert forall|i: int| 0 <= i < events.drop_last().len() implies !awaits(
            ledger,
            #[trigger] events.drop_last()[i],
        ) by {
            assert(events.drop_last()[i] == events[i]);
        }
        lemma_ingest_nothing_new(ledger, events.drop_last());
        lemma_ingest_one(ledger, events.last(), events.last());
    }
}

/// A run that was cut short can be taken up again at any event up to the one
/// it was cut at. Let `events` be what the source holds, in the order of the
/// identifiers. If the ledger was shown the first `done` of them, and is
/// then shown all of them from the one at `from` on, where that is not behind
/// the one at `done`, it ends as if it had been shown every event once: no
/// event is counted twice and none is left out.
pub proof fn lemma_resume(ledger: LedgerView, events: Seq<EventView>, done: int, from: int)
    requires
        0 <= from <= done <= events.len(),
    ensures
        spec_ingest(spec_ingest(ledger, events.take(done)), events.skip(from)) == spec_ingest(
            ledger,
            events,
        ),
{
    let shown = spec_ingest(ledger, events.take(done));
    let again = events.subrange(from, done);
    let rest = events.skip(done);
    assert(events.skip(from) =~= again + rest);
    assert(events =~= events.take(done) + rest);
    lemma_ingest_append(shown, again, rest);
    lemma_ingest_append(ledger, events.take(done), rest);
    assert forall|i: int| 0 <= i < again.len() implies !awaits(shown, #[trigger] again[i]) by {
        lemma_ingest_settles(ledger, events.take(done), again[i]);
        assert(events.take(done)[from + i] == again[i]);
    }
    lemma_ingest_nothing_new(shown, again);
}

/// The cursor never moves back: neither the signal to catch up nor a page
/// leaves the controller with a smaller cursor than it had, and a failure
/// leaves it with the one it had.
pub proof fn lemma_cursor_never_moves_back(
    controller: BackfillController,
    ledger: LedgerView,
    page: Seq<EventView>,
    latest_recorded: Option<i64>,
    seed: Option<i64>,
    target: i64,
)
    ensures
        controller.spec_cursor() matches Some(before) ==> {
            &&& controller.spec_resume(latest_recorded, seed, target).0.spec_cursor() matches Some(
                after,
            ) && after >= before
            &&& controller.spec_on_page(ledger, page).0.spec_cursor() matches Some(after) && after
                >= before
        },
        controller.spec_on_page(ledger, page).2 is Err ==> controller.spec_on_page(
            ledger,
            page,
        ).0.spec_cursor() == controller.spec_cursor() && controller.spec_on_page(ledger, page).1
            == ledger,
{
    if let BackfillController::Paging { cursor, target } = controller {
        if !malformed(page, cursor) {
            lemma_newest(page);
        }
    }
}

/// The newest identifier of a page is one of the page, and none is greater.
pub proof fn lemma_newest(page: Seq<EventView>)
    ensures
        match spec_newest(page) {
            None => page.len() == 0,
            Some(id) => {
                &&& exists|i: int| 0 <= i < page.len() && (#[trigger] page[i]).id == id
                &&& forall|i: int| 0 <= i < page.len() ==> (#[trigger] page[i]).id <= id
            },
        },
    decreases page.len(),
{
    if page.len() > 0 {
        let rest = page.drop_last();
        lemma_newest(rest);
        let n = page.len() - 1;
        assert(page[n].id == page.last().id);
        match spec_newest(rest) {
            Some(best) => {
                let k = choose|k: int| 0 <= k < rest.len() && (#[trigger] rest[k]).id == best;
                assert(page[k].id == best);
                assert forall|i: int| 0 <= i < page.len() implies (#[trigger] page[i]).id
                    <= spec_newest(page).unwrap() by {
                    if i < n {
                        assert(rest[i].id <= best);
                    }
                }
            },
            None => {},
        }
    }
}

/// Whether each event has a greater identifier than the one before it.
pub open spec fn strictly_ascending(stream: Seq<EventView>) -> bool {
    forall|i: int, j: int| 0 <= i < j < stream.len() ==> stream[i].id < stream[j].id
}

/// How many events the stream holds up to the cursor, where the stream is in
/// the order of the identifiers: the place of the first event after the
/// cursor.
pub open spec fn spec_rank(stream: Seq<EventView>, cursor: i64) -> int
    decreases stream.len(),
{
    if stream.len() == 0 {
        0
    } else if stream.last().id <= cursor {
        stream.len() as int
    } else {
        spec_rank(stream.drop_last(), cursor)
    }
}

/// The page that a source which holds the events `stream`, in the order of
/// the identifiers, gives when asked for the events after `cursor`: the next
/// `PAGE_LIMIT` of them, or as many as there are.
pub open spec fn spec_source_page(stream: Seq<EventView>, cursor: i64) -> Seq<EventView> {
    let from = spec_rank(stream, cursor);
    let to = if stream.len() - from > PAGE_LIMIT {
        from + PAGE_LIMIT
    } else {
        stream.len() as int
    };
    stream.subrange(from, to)
}

/// The controller and the ledger after a driver has answered up to `pages`
/// fetches from a source that holds the events `stream`.
pub open spec fn spec_drive(
    controller: BackfillController,
    ledger: LedgerView,
    stream: Seq<EventView>,
    pages: nat,
) -> (BackfillController, LedgerView)
    decreases pages,
{
    if pages == 0 {
        (controller, ledger)
    } else {
        match controller {
            BackfillController::Idle { .. } => (controller, ledger),
            BackfillController::Paging { cursor, .. } => {
                let next = controller.spec_on_page(ledger, spec_source_page(stream, cursor));
                spec_drive(next.0, next.1, stream, (pages - 1) as nat)
            },
        }
    }
}

/// The ledger after a run that starts at `cursor` and catches up with a
/// source that holds the events `stream`, the last of them being the target.
pub open spec fn spec_catch_up(cursor: i64, ledger: LedgerView, stream: Seq<EventView>, pages: nat) -> LedgerView {
    let resumed = (BackfillController::Idle { reached: Some(cursor) }).spec_resume(
        None,
        None,
        stream.last().id,
    ).0;
    spec_drive(resumed, ledger, stream, pages).1
}

/// In a stream in the order of the identifiers the events up to the cursor
/// come first, and the rank tells how many they are.
pub proof fn lemma_rank(stream: Seq<EventView>, cursor: i64)
    requires
        strictly_ascending(stream),
    ensures
        0 <= spec_rank(stream, cursor) <= stream.len(),
        forall|i: int| 0 <= i < spec_rank(stream, cursor) ==> (#[trigger] stream[i]).id <= cursor,
        forall|i: int|
            spec_rank(stream, cursor) <= i < stream.len() ==> (#[trigger] stream[i]).id > cursor,
    decreases stream.len(),
{
    if stream.len() > 0 {
        let rest = stream.drop_last();
        assert(strictly_ascending(rest)) by {
            assert forall|i: int, j: int| 0 <= i < j < rest.len() implies rest[i].id < rest[j].id by {
                assert(rest[i] == stream[i] && rest[j] == stream[j]);
            }
        }
        lemma_rank(rest, cursor);
        if stream.last().id <= cursor {
            assert forall|i: int| 0 <= i < stream.len() implies (#[trigger] stream[i]).id
                <= cursor by {
                if i < stream.len() - 1 {
                    assert(stream[i].id < stream[stream.len() - 1].id);
                }
            }
        } else {
            assert forall|i: int| 0 <= i < spec_rank(stream, cursor) implies (
            #[trigger] stream[i]).id <= cursor by {
                assert(rest[i] == stream[i]);
            }
            assert forall|i: int| spec_rank(stream, cursor) <= i < stream.len() implies (
            #[trigger] stream[i]).id > cursor by {
                if i < rest.len() {
                    assert(rest[i] == stream[i]);
                }
            }
        }
    }
}

/// The rank of the identifier of an event of the stream is the place behind
/// that event.
pub proof fn lemma_rank_of_event(stream: Seq<EventView>, at: int)
    requires
        strictly_ascending(stream),
        0 <= at < stream.len(),
    ensures
        spec_rank(stream, stream[at].id) == at + 1,
{
    let cursor = stream[at].id;
    lemma_rank(stream, cursor);
    let r = spec_rank(stream, cursor);
    if r <= at {
        assert(stream[at].id > cursor);
    }
    if r > at + 1 {
        assert(stream[at + 1].id <= cursor);
    }
}

/// A page that is in the order of its identifiers already is worked off as
/// it stands, and its last event is its newest.
pub proof fn lemma_page_in_order(page: Seq<EventView>)
    requires
        strictly_ascending(page),
        page.len() <= usize::MAX,
    ensures
        spec_page_order(page) == page,
        spec_newest(page) == (if page.len() == 0 {
            None
        } else {
            Some(page.last().id)
        }),
    decreases page.len(),
{
    let keys = id_keys(page);
    lemma_order_of_ascending(keys, keys.len());
    assert(spec_page_order(page) =~= page);
    if page.len() > 0 {
        let rest = page.drop_last();
        assert(strictly_ascending(rest)) by {
            assert forall|i: int, j: int| 0 <= i < j < rest.len() implies rest[i].id < rest[j].id by {
                assert(rest[i] == page[i] && rest[j] == page[j]);
            }
        }
        lemma_page_in_order(rest);
        if rest.len() > 0 {
            assert(rest.last() == page[page.len() - 2]);
            assert(page[page.len() - 2].id < page[page.len() - 1].id);
        }
    }
}

/// A run catches up with the source: from a cursor before the last event of
/// the source, and with a driver that answers every fetch from the source,
/// the controller comes to rest at the last event, and the ledger has been
/// shown every event after the cursor once, in the order of the identifiers.
pub proof fn lemma_drive_shows_all(
    ledger: LedgerView,
    stream: Seq<EventView>,
    cursor: i64,
    pages: nat,
)
    requires
        strictly_ascending(stream),
        0 < stream.len() <= usize::MAX,
        cursor < stream.last().id,
        pages >= stream.len() - spec_rank(stream, cursor),
    ensures
        spec_drive(
            BackfillController::Paging { cursor, target: stream.last().id },
            ledger,
            stream,
            pages,
        ) == (
            BackfillController::Idle { reached: Some(stream.last().id) },
            spec_ingest(ledger, stream.skip(spec_rank(stream, cursor))),
        ),
    decreases stream.len() - spec_rank(stream, cursor),
{
    let target = stream.last().id;
    let controller = BackfillController::Paging { cursor, target };
    let from = spec_rank(stream, cursor);
    lemma_rank(stream, cursor);
    if from == stream.len() {
        assert(stream[stream.len() - 1].id <= cursor);
    }
    let page = spec_source_page(stream, cursor);
    let to = from + page.len();
    assert(strictly_ascending(page)) by {
        assert forall|i: int, j: int| 0 <= i < j < page.len() implies page[i].id < page[j].id by {
            assert(page[i] == stream[from + i] && page[j] == stream[from + j]);
        }
    }
    assert(!malformed(page, cursor)) by {
        assert forall|i: int| 0 <= i < page.len() implies (#[trigger] page[i]).id > cursor by {
            assert(page[i] == stream[from + i]);
        }
    }
    lemma_page_in_order(page);
    let moved = page.last().id;
    assert(page.last() == stream[to - 1]);
    let shown = spec_ingest(ledger, page);
    let next = controller.spec_on_page(ledger, page);
    assert(next.1 == shown);
    assert(stream.skip(from) =~= page + stream.skip(to));
    lemma_ingest_append(ledger, page, stream.skip(to));
    if page.len() < PAGE_LIMIT || moved >= target {
        if to < stream.len() {
            assert(stream[to - 1].id < stream[stream.len() - 1].id);
        }
        assert(stream.skip(to) =~= Seq::<EventView>::empty());
        assert(next.0 == BackfillController::Idle { reached: Some(target) });
        assert(spec_drive(next.0, shown, stream, (pages - 1) as nat) == (next.0, shown));
    } else {
        lemma_rank_of_event(stream, to - 1);
        lemma_drive_shows_all(shown, stream, moved, (pages - 1) as nat);
    }
}

/// A run that is cut short and taken up again ends as one run that was not
/// cut. Let a source hold the events `stream`. A first run starts at
/// `cursor` and shows the ledger the events after it up to the one at
/// `done`, where it is cut, be that between two pages or in the middle of
/// one. The next run starts at `restart`: a cursor that is not before the
/// first one and not behind the last event that was shown, as every cursor
/// is that was persisted after a whole page, and as the newest recorded
/// event is. Then the ledger ends as after one run from `cursor` that was
/// not cut.
pub proof fn lemma_backfill_resumes(
    ledger: LedgerView,
    stream: Seq<EventView>,
    cursor: i64,
    done: int,
    restart: i64,
    pages: nat,
)
    requires
        strictly_ascending(stream),
        0 < stream.len() <= usize::MAX,
        pages >= stream.len(),
        cursor <= restart,
        spec_rank(stream, cursor) <= done <= stream.len(),
        spec_rank(stream, restart) <= done,
    ensures
        spec_catch_up(
            restart,
            spec_ingest(ledger, stream.subrange(spec_rank(stream, cursor), done)),
            stream,
            pages,
        ) == spec_catch_up(cursor, ledger, stream, pages),
        spec_catch_up(cursor, ledger, stream, pages) == spec_ingest(
            ledger,
            stream.skip(spec_rank(stream, cursor)),
        ),
{
    let target = stream.last().id;
    let first = spec_rank(stream, cursor);
    let second = spec_rank(stream, restart);
    lemma_rank(stream, cursor);
    lemma_rank(stream, restart);
    let events = stream.skip(first);
    let cut = spec_ingest(ledger, stream.subrange(first, done));
    assert(first <= second) by {
        if second < first {
            assert(stream[second].id <= cursor);
            assert(stream[second].id > restart);
        }
    }
    assert(events.take(done - first) =~= stream.subrange(first, done));
    assert(events.skip(second - first) =~= stream.skip(second));
    lemma_resume(ledger, events, done - first, second - first);
    if cursor < target {
        lemma_drive_shows_all(ledger, stream, cursor, pages);
    } else {
        assert(first == stream.len()) by {
            if first < stream.len() {
                assert(stream[stream.len() - 1].id > cursor);
            }
        }
        assert(events =~= Seq::<EventView>::empty());
    }
    if restart < target {
        lemma_drive_shows_all(cut, stream, restart, pages);
    } else {
        assert(second == stream.len()) by {
            if second < stream.len() {
                assert(stream[stream.len() - 1].id > restart);
            }
        }
        assert(stream.skip(second) =~= Seq::<EventView>::empty());
    }
}

} // verus!

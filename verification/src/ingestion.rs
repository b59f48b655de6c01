//! The state of the ingestion in one value: the ledger and the controller of
//! the catch-up runs.
//!
//! Backfilled pages and live events are taken in through this one value, so
//! that nothing about the ingestion lives anywhere else. It is handed to
//! whoever drives the ingestion and persisted by them.

use crate::backfill::{BackfillAction, BackfillController, BackfillError};
use crate::backfill::{spec_ingest_one, views};
use crate::event::{Event, EventView};
use crate::ledger::{Ledger, LedgerView};
use crate::live::{on_event, spec_on_event, LiveAction};
use crate::time::UtcOffset;
use vstd::prelude::*;

verus! {

/// The ledger and the controller of the catch-up runs.
pub struct IngestionState {
    pub ledger: Ledger,
    pub controller: BackfillController,
}

/// What an `IngestionState` holds.
pub struct IngestionStateView {
    pub ledger: LedgerView,
    pub controller: BackfillController,
}

impl View for IngestionState {
    type V = IngestionStateView;

    open spec fn view(&self) -> IngestionStateView {
        IngestionStateView { ledger: self.ledger@, controller: self.controller }
    }
}

impl IngestionStateView {
    /// The state after the signal to catch up, and the answer: the
    /// controller's, with the newest event of the ledger as the newest
    /// recorded one.
    pub open spec fn spec_resume(self, seed: Option<i64>, target: i64) -> (
        IngestionStateView,
        Result<BackfillAction, BackfillError>,
    ) {
        let resumed = self.controller.spec_resume(
            self.ledger.spec_latest_event_id(),
            seed,
            target,
        );
        (IngestionStateView { ledger: self.ledger, controller: resumed.0 }, resumed.1)
    }

    /// The state after a page, and the answer: the controller's.
    pub open spec fn spec_on_page(self, page: Seq<EventView>) -> (
        IngestionStateView,
        Result<BackfillAction, BackfillError>,
    ) {
        let worked = self.controller.spec_on_page(self.ledger, page);
        (IngestionStateView { ledger: worked.1, controller: worked.0 }, worked.2)
    }

    /// The state after an event that just happened, and what is to be done
    /// with the event. The ledger is shown the event, and the cursor of a
    /// resting controller moves up to it.
    pub open spec fn spec_on_event(self, event: EventView) -> (IngestionStateView, LiveAction) {
        let taken = spec_on_event(self.ledger, event);
        (
            IngestionStateView {
                ledger: taken.0,
                controller: self.controller.spec_on_live_event(event.id),
            },
            taken.1,
        )
    }
}

impl IngestionState {
    /// The state of an ingestion that starts with an empty ledger in `zone`
    /// and with the cursor that was persisted, if any.
    pub fn new(zone: UtcOffset, persisted: Option<i64>) -> (state: IngestionState)
        ensures
            state.ledger@ == (LedgerView {
                offset: zone@,
                participants: Seq::empty(),
                history: Seq::empty(),
            }),
            state.controller == (BackfillController::Idle { reached: persisted }),
    {
        IngestionState { ledger: Ledger::new(zone), controller: BackfillController::new(persisted) }
    }

    /// The signal to catch up with the source, whose newest event is
    /// `target`.
    pub fn resume(&mut self, seed: Option<i64>, target: i64) -> (answer: Result<
        BackfillAction,
        BackfillError,
    >)
        ensures
            (final(self)@, answer) == old(self)@.spec_resume(seed, target),
    {
        let latest = self.ledger.latest_event_id();
        self.controller.resume(latest, seed, target)
    }

    /// The page that the source gave in answer to the last fetch.
    pub fn on_page(&mut self, page: &Vec<Event>) -> (answer: Result<BackfillAction, BackfillError>)
        ensures
            (final(self)@, answer) == old(self)@.spec_on_page(views(page@)),
    {
        self.controller.on_page(&mut self.ledger, page)
    }

    /// An event that just happened.
    pub fn on_event(&mut self, event: &Event) -> (action: LiveAction)
        ensures
            (final(self)@, action) == old(self)@.spec_on_event(event@),
            final(self).ledger@ == spec_ingest_one(old(self).ledger@, event@),
    {
        let action = on_event(&mut self.ledger, event);
        self.controller.on_live_event(event.id);
        action
    }

    /// Ends a run after a failure of the source or of the storage; the
    /// cursor stays where it was.
    pub fn abort(&mut self)
        ensures
            final(self).ledger@ == old(self).ledger@,
            final(self).controller == (BackfillController::Idle {
                reached: old(self).controller.spec_cursor(),
            }),
    {
        self.controller.abort();
    }
}

} // verus!

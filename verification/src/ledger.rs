//! The ledger: the participants and the history of their counted events.
//!
//! The history holds one record for each accepted event and never two records
//! of one event identifier: an event that comes a second time is reported as a
//! duplicate and changes nothing. That makes it safe to hand the ledger the
//! same events again, as a backfill does after a restart. A participant is
//! registered before events of theirs count; the events of an unknown actor
//! are turned away and leave no record.
//!
//! What holds of every ledger is said by `LedgerView::wf`. A `Ledger` cannot
//! be had in another state: its invariant is part of the type.

use crate::event::Event;
use crate::snowflake::{date_of, spec_date_of};
use crate::streak::{advance, StreakState};
use crate::time::{valid_offset, Date, UtcOffset};
use std::collections::{HashMap, HashSet};
use vstd::prelude::*;

verus! {

/// One actor and the running totals of their counted events.
#[derive(Clone, Debug, PartialEq, Eq)]
pub struct Participant {
    /// The actor's stable identity.
    pub actor_id: u64,
    /// The name the actor was last seen under.
    pub name: String,
    /// How many events of the actor were counted.
    pub count: u64,
    /// The actor's streak.
    pub streak: StreakState,
}

/// A `Participant` with the name as a sequence of characters.
pub struct ParticipantView {
    pub actor_id: u64,
    pub name: Seq<char>,
    pub count: u64,
    pub streak: StreakState,
}

impl View for Participant {
    type V = ParticipantView;

    open spec fn view(&self) -> ParticipantView {
        ParticipantView {
            actor_id: self.actor_id,
            name: self.name@,
            count: self.count,
            streak: self.streak,
        }
    }
}

/// One counted event.
#[derive(Clone, Copy, Debug, PartialEq, Eq, Structural)]
pub struct HistoryRecord {
    /// The identifier of the event; no two records share one.
    pub event_id: i64,
    /// The actor the event is counted for.
    pub actor_id: u64,
    /// The calendar date the event fell on in the ledger's zone.
    pub date: Date,
}

/// How the ledger took an event.
#[derive(Clone, Copy, Debug, PartialEq, Eq, Structural)]
pub enum RecordOutcome {
    /// The event was new and its actor known: it is recorded and counted.
    Accepted,
    /// The history holds the event already; nothing changed.
    Duplicate,
    /// The actor was never registered; nothing changed.
    RejectedUnknownActor,
}

/// The records of the actor `actor_id`.
pub open spec fn by_actor(actor_id: u64) -> spec_fn(HistoryRecord) -> bool {
    |record: HistoryRecord| record.actor_id == actor_id
}

/// What a `Ledger` holds: the offset of its zone in seconds, the participants
/// in the order they were registered in, and the history in the order the
/// events were accepted in.
pub struct LedgerView {
    pub offset: int,
    pub participants: Seq<ParticipantView>,
    pub history: Seq<HistoryRecord>,
}

impl LedgerView {
    /// Whether the actor is registered.
    pub open spec fn knows(self, actor_id: u64) -> bool {
        exists|i: int|
            0 <= i < self.participants.len() && (#[trigger] self.participants[i]).actor_id
                == actor_id
    }

    /// Where among the participants the actor stands, if registered.
    pub open spec fn index_of(self, actor_id: u64) -> int {
        choose|i: int|
            0 <= i < self.participants.len() && (#[trigger] self.participants[i]).actor_id
                == actor_id
    }

    /// The record of the actor, if registered.
    pub open spec fn participant(self, actor_id: u64) -> ParticipantView {
        self.participants[self.index_of(actor_id)]
    }

    /// Whether the history holds the event.
    pub open spec fn recorded(self, event_id: i64) -> bool {
        exists|i: int|
            0 <= i < self.history.len() && (#[trigger] self.history[i]).event_id == event_id
    }

    /// How many events of the actor the history holds.
    pub open spec fn count_of(self, actor_id: u64) -> nat {
        self.history.filter(by_actor(actor_id)).len()
    }

    /// The invariant of the ledger. No two participants share an actor and no
    /// two records an event. Each record is dated by its identifier and
    /// belongs to a registered actor. Each participant's count is the number
    /// of their records; their streak is dated if and only if they have a
    /// record, and its runs are no longer than the count.
    pub open spec fn wf(self) -> bool {
        &&& valid_offset(self.offset)
        &&& forall|i: int, j: int|
            0 <= i < j < self.participants.len() ==> (#[trigger] self.participants[i]).actor_id
                != (#[trigger] self.participants[j]).actor_id
        &&& forall|i: int, j: int|
            0 <= i < j < self.history.len() ==> (#[trigger] self.history[i]).event_id != (
            #[trigger] self.history[j]).event_id
        &&& forall|i: int|
            0 <= i < self.history.len() ==> {
                &&& (#[trigger] self.history[i]).date.day == spec_date_of(
                    self.history[i].event_id as int,
                    self.offset,
                )
                &&& self.knows(self.history[i].actor_id)
            }
        &&& forall|i: int|
            0 <= i < self.participants.len() ==> {
                let p = #[trigger] self.participants[i];
                &&& p.count == self.count_of(p.actor_id)
                &&& (p.streak.last_date is Some <==> p.count > 0)
                &&& p.streak.settled()
                &&& p.streak.current <= p.count
                &&& p.streak.longest <= p.count
            }
    }

    /// The record that an accepted event leaves in the history.
    pub open spec fn record_of(self, event_id: i64, actor_id: u64) -> HistoryRecord {
        HistoryRecord {
            event_id,
            actor_id,
            date: Date { day: spec_date_of(event_id as int, self.offset) as i32 },
        }
    }

    /// The ledger after it was handed the event, and how it took it. An
    /// event that the history holds is a duplicate. Of the others, one of an
    /// unknown actor is turned away. Neither changes the ledger. Any other
    /// event is accepted: it is added to the history, and its actor's count
    /// grows by one and their streak advances by the date of the event.
    pub open spec fn spec_record(self, event_id: i64, actor_id: u64) -> (LedgerView, RecordOutcome) {
        if self.recorded(event_id) {
            (self, RecordOutcome::Duplicate)
        } else if !self.knows(actor_id) {
            (self, RecordOutcome::RejectedUnknownActor)
        } else {
            let record = self.record_of(event_id, actor_id);
            let prior = self.participant(actor_id);
            let counted = ParticipantView {
                actor_id: prior.actor_id,
                name: prior.name,
                count: (prior.count + 1) as u64,
                streak: prior.streak.spec_advance(record.date),
            };
            (
                LedgerView {
                    offset: self.offset,
                    participants: self.participants.update(self.index_of(actor_id), counted),
                    history: self.history.push(record),
                },
                RecordOutcome::Accepted,
            )
        }
    }

    /// The ledger after the actor was seen under `name`: a known actor gets
    /// the name and keeps all else; an unknown one is registered, with no
    /// event counted. The history stays as it is.
    pub open spec fn spec_upsert(self, actor_id: u64, name: Seq<char>) -> LedgerView {
        if self.knows(actor_id) {
            let prior = self.participant(actor_id);
            LedgerView {
                offset: self.offset,
                participants: self.participants.update(
                    self.index_of(actor_id),
                    ParticipantView {
                        actor_id: prior.actor_id,
                        name,
                        count: prior.count,
                        streak: prior.streak,
                    },
                ),
                history: self.history,
            }
        } else {
            LedgerView {
                offset: self.offset,
                participants: self.participants.push(
                    ParticipantView {
                        actor_id,
                        name,
                        count: 0,
                        streak: StreakState { longest: 0, current: 0, last_date: None },
                    },
                ),
                history: self.history,
            }
        }
    }

    /// The greatest identifier in the history, `None` where the history is
    /// empty.
    pub open spec fn spec_latest_event_id(self) -> Option<i64> {
        spec_latest(self.history)
    }

    /// Whether `latest` is the greatest identifier in the history, `None`
    /// where the history is empty.
    pub open spec fn is_latest(self, latest: Option<i64>) -> bool {
        match latest {
            None => self.history.len() == 0,
            Some(id) => self.recorded(id) && forall|i: int|
                0 <= i < self.history.len() ==> (#[trigger] self.history[i]).event_id <= id,
        }
    }
}

/// The greatest identifier among the records, `None` where there are none.
pub open spec fn spec_latest(history: Seq<HistoryRecord>) -> Option<i64>
    decreases history.len(),
{
    if history.len() == 0 {
        None
    } else {
        match spec_latest(history.drop_last()) {
            Some(best) => Some(if best >= history.last().event_id {
                best
            } else {
                history.last().event_id
            }),
            None => Some(history.last().event_id),
        }
    }
}

/// The latest identifier is one of the history, and none is greater.
pub proof fn lemma_latest(ledger: LedgerView)
    ensures
        ledger.is_latest(ledger.spec_latest_event_id()),
    decreases ledger.history.len(),
{
    if ledger.history.len() > 0 {
        let rest = LedgerView {
            offset: ledger.offset,
            participants: ledger.participants,
            history: ledger.history.drop_last(),
        };
        lemma_latest(rest);
        let n = ledger.history.len() - 1;
        match rest.spec_latest_event_id() {
            Some(best) => {
                let k = choose|k: int|
                    0 <= k < rest.history.len() && (#[trigger] rest.history[k]).event_id == best;
                assert(ledger.history[k].event_id == best);
                assert(ledger.history[n].event_id == ledger.history.last().event_id);
                assert forall|i: int| 0 <= i < ledger.history.len() implies (
                #[trigger] ledger.history[i]).event_id <= ledger.spec_latest_event_id().unwrap() by {
                    if i < n {
                        assert(rest.history[i].event_id <= best);
                    }
                }
            },
            None => {
                assert(ledger.history[n].event_id == ledger.history.last().event_id);
            },
        }
    }
}

/// Every identifier falls on a day whose number is a value of `i32`.
pub proof fn lemma_date_fits(event_id: i64, offset: int)
    requires
        valid_offset(offset),
    ensures
        -100_000 < spec_date_of(event_id as int, offset) < 100_000,
{
}

/// In a ledger that meets its invariant a registered actor stands at one
/// place only.
pub proof fn lemma_index_of(ledger: LedgerView, actor_id: u64, i: int)
    requires
        ledger.wf(),
        0 <= i < ledger.participants.len(),
        ledger.participants[i].actor_id == actor_id,
    ensures
        ledger.knows(actor_id),
        ledger.index_of(actor_id) == i,
{
    let j = ledger.index_of(actor_id);
    assert(ledger.participants[j].actor_id == actor_id);
    if j < i {
        assert(ledger.participants[j].actor_id != ledger.participants[i].actor_id);
    } else if i < j {
        assert(ledger.participants[i].actor_id != ledger.participants[j].actor_id);
    }
}

/// No participant has more events counted than the history holds.
pub proof fn lemma_count_bounded(ledger: LedgerView, i: int)
    requires
        ledger.wf(),
        0 <= i < ledger.participants.len(),
    ensures
        ledger.participants[i].count <= ledger.history.len(),
        ledger.participants[i].streak.current <= ledger.history.len(),
{
    ledger.history.lemma_filter_len(by_actor(ledger.participants[i].actor_id));
}

/// Handing the ledger an event keeps its invariant.
pub proof fn lemma_record_keeps_wf(ledger: LedgerView, event_id: i64, actor_id: u64)
    requires
        ledger.wf(),
        ledger.history.len() < u64::MAX,
    ensures
        ledger.spec_record(event_id, actor_id).0.wf(),
{
    let (after, outcome) = ledger.spec_record(event_id, actor_id);
    if outcome == RecordOutcome::Accepted {
        let i = ledger.index_of(actor_id);
        let prior = ledger.participants[i];
        let record = ledger.record_of(event_id, actor_id);
        lemma_date_fits(event_id, ledger.offset);
        lemma_count_bounded(ledger, i);
        crate::streak::lemma_advance_settles(prior.streak, record.date);
        assert forall|k: int| 0 <= k < after.history.len() implies {
            &&& (#[trigger] after.history[k]).date.day == spec_date_of(
                after.history[k].event_id as int,
                after.offset,
            )
            &&& after.knows(after.history[k].actor_id)
        } by {
            if k < ledger.history.len() {
                assert(ledger.knows(ledger.history[k].actor_id));
                let w = ledger.index_of(ledger.history[k].actor_id);
                assert(after.participants[w].actor_id == ledger.history[k].actor_id);
            } else {
                assert(after.participants[i].actor_id == actor_id);
            }
        }
        assert forall|k: int| 0 <= k < after.participants.len() implies {
            let p = #[trigger] after.participants[k];
            &&& p.count == after.count_of(p.actor_id)
            &&& (p.streak.last_date is Some <==> p.count > 0)
            &&& p.streak.settled()
            &&& p.streak.current <= p.count
            &&& p.streak.longest <= p.count
        } by {
            let q = ledger.participants[k];
            ledger.history.lemma_filter_len_push(by_actor(q.actor_id), record);
            if k != i {
                if k < i {
                    assert(ledger.participants[k].actor_id != ledger.participants[i].actor_id);
                } else {
                    assert(ledger.participants[i].actor_id != ledger.participants[k].actor_id);
                }
            }
        }
        assert forall|a: int, b: int| 0 <= a < b < after.history.len() implies (
        #[trigger] after.history[a]).event_id != (#[trigger] after.history[b]).event_id by {
            if b == ledger.history.len() {
                assert(ledger.history[a].event_id != event_id);
            }
        }
    }
}

/// Seeing an actor under a name keeps the invariant of the ledger.
pub proof fn lemma_upsert_keeps_wf(ledger: LedgerView, actor_id: u64, name: Seq<char>)
    requires
        ledger.wf(),
    ensures
        ledger.spec_upsert(actor_id, name).wf(),
{
    let after = ledger.spec_upsert(actor_id, name);
    assert forall|k: int| 0 <= k < after.history.len() implies {
        &&& (#[trigger] after.history[k]).date.day == spec_date_of(
            after.history[k].event_id as int,
            after.offset,
        )
        &&& after.knows(after.history[k].actor_id)
    } by {
        assert(ledger.knows(ledger.history[k].actor_id));
        let w = ledger.index_of(ledger.history[k].actor_id);
        assert(after.participants[w].actor_id == ledger.history[k].actor_id);
    }
    if !ledger.knows(actor_id) {
        assert(ledger.count_of(actor_id) == 0) by {
            let held = ledger.history.filter(by_actor(actor_id));
            if held.len() > 0 {
                ledger.history.lemma_filter_pred(by_actor(actor_id), 0);
                ledger.history.lemma_filter_contains_rev(by_actor(actor_id), held[0]);
                let k = choose|k: int| 0 <= k < ledger.history.len() && ledger.history[k] == held[0];
                assert(ledger.knows(ledger.history[k].actor_id));
            }
        }
        assert forall|k: int| 0 <= k < after.participants.len() implies {
            let p = #[trigger] after.participants[k];
            &&& p.count == after.count_of(p.actor_id)
            &&& (p.streak.last_date is Some <==> p.count > 0)
            &&& p.streak.settled()
            &&& p.streak.current <= p.count
            &&& p.streak.longest <= p.count
        } by {
            if k < ledger.participants.len() {
                assert(after.participants[k] == ledger.participants[k]);
            }
        }
        assert forall|a: int, b: int| 0 <= a < b < after.participants.len() implies (
        #[trigger] after.participants[a]).actor_id != (
        #[trigger] after.participants[b]).actor_id by {
            if b == ledger.participants.len() {
                assert(ledger.participants[a].actor_id != actor_id);
            }
        }
    } else {
        let i = ledger.index_of(actor_id);
        assert forall|k: int| 0 <= k < after.participants.len() implies {
            let p = #[trigger] after.participants[k];
            &&& p.count == after.count_of(p.actor_id)
            &&& (p.streak.last_date is Some <==> p.count > 0)
            &&& p.streak.settled()
            &&& p.streak.current <= p.count
            &&& p.streak.longest <= p.count
        } by {
            let q = ledger.participants[k];
            assert(q.count == ledger.count_of(q.actor_id));
        }
    }
}

/// An event is accepted exactly where the history does not hold it and its
/// actor is registered. Then it is in the history, which grew by this one
/// record, and the actor has one more event counted.
pub proof fn lemma_accepted(ledger: LedgerView, event_id: i64, actor_id: u64)
    requires
        ledger.wf(),
        ledger.history.len() < u64::MAX,
    ensures
        ledger.spec_record(event_id, actor_id).1 == RecordOutcome::Accepted <==> !ledger.recorded(
            event_id,
        ) && ledger.knows(actor_id),
        ledger.spec_record(event_id, actor_id).1 == RecordOutcome::Accepted ==> {
            let after = ledger.spec_record(event_id, actor_id).0;
            &&& after.recorded(event_id)
            &&& after.history.len() == ledger.history.len() + 1
            &&& after.knows(actor_id)
            &&& after.participant(actor_id).count == ledger.participant(actor_id).count + 1
        },
{
    let (after, outcome) = ledger.spec_record(event_id, actor_id);
    if outcome == RecordOutcome::Accepted {
        let i = ledger.index_of(actor_id);
        lemma_record_keeps_wf(ledger, event_id, actor_id);
        lemma_count_bounded(ledger, i);
        assert(after.history[ledger.history.len() as int].event_id == event_id);
        assert(after.participants[i].actor_id == actor_id);
        lemma_index_of(after, actor_id, i);
    }
}

/// Handing the ledger an event a second time changes nothing: once an event
/// is accepted, every event with its identifier is a duplicate, whoever its
/// actor is, and leaves the ledger as it was after the first time.
pub proof fn lemma_record_twice(ledger: LedgerView, event_id: i64, actor_id: u64, again: u64)
    requires
        ledger.wf(),
        ledger.history.len() < u64::MAX,
        ledger.spec_record(event_id, actor_id).1 == RecordOutcome::Accepted,
    ensures
        ledger.spec_record(event_id, actor_id).0.spec_record(event_id, again) == (
            ledger.spec_record(event_id, actor_id).0,
            RecordOutcome::Duplicate,
        ),
{
    lemma_accepted(ledger, event_id, actor_id);
}

/// An event that was not accepted leaves the ledger as it was, and handing
/// it over again gives the same answer.
pub proof fn lemma_record_refused(ledger: LedgerView, event_id: i64, actor_id: u64)
    requires
        ledger.spec_record(event_id, actor_id).1 != RecordOutcome::Accepted,
    ensures
        ledger.spec_record(event_id, actor_id).0 == ledger,
{
}

/// Seeing an actor under a name a second time changes nothing.
pub proof fn lemma_upsert_twice(ledger: LedgerView, actor_id: u64, name: Seq<char>)
    requires
        ledger.wf(),
    ensures
        ledger.spec_upsert(actor_id, name).spec_upsert(actor_id, name) == ledger.spec_upsert(
            actor_id,
            name,
        ),
        ledger.spec_upsert(actor_id, name).knows(actor_id),
        ledger.spec_upsert(actor_id, name).participant(actor_id).name == name,
        ledger.spec_upsert(actor_id, name).history == ledger.history,
{
    let once = ledger.spec_upsert(actor_id, name);
    lemma_upsert_keeps_wf(ledger, actor_id, name);
    let i = if ledger.knows(actor_id) {
        ledger.index_of(actor_id)
    } else {
        ledger.participants.len() as int
    };
    assert(once.participants[i].actor_id == actor_id);
    lemma_index_of(once, actor_id, i);
    assert(once.spec_upsert(actor_id, name).participants =~= once.participants);
}

/// The participants and the history of their counted events, in one zone.
/// Beside both the ledger keeps where each actor stands and which events are
/// recorded, so that neither has to be searched for.
pub struct Ledger {
    zone: UtcOffset,
    participants: Vec<Participant>,
    history: Vec<HistoryRecord>,
    places: HashMap<u64, usize>,
    held: HashSet<i64>,
}

impl View for Ledger {
    type V = LedgerView;

    closed spec fn view(&self) -> LedgerView {
        LedgerView {
            offset: self.zone@,
            participants: self.participants@.map_values(|p: Participant| p@),
            history: self.history@,
        }
    }
}

impl Ledger {
    /// What the ledger keeps beside participants and history agrees with
    /// them: each actor is found at the place where they stand, and the
    /// events that are found are those of the history.
    pub closed spec fn indexed(self) -> bool {
        &&& forall|i: int|
            0 <= i < self.participants@.len() ==> self.places@.contains_key(
                (#[trigger] self.participants@[i]).actor_id,
            ) && self.places@[self.participants@[i].actor_id] == i
        &&& forall|actor_id: u64| #[trigger]
            self.places@.contains_key(actor_id) ==> self.places@[actor_id]
                < self.participants@.len() && self.participants@[self.places@[actor_id] as int].actor_id
                == actor_id
        &&& forall|event_id: i64| #[trigger]
            self.held@.contains(event_id) <==> self@.recorded(event_id)
    }

    /// Every ledger meets the invariant of what it holds.
    #[verifier::type_invariant]
    pub open spec fn inv(self) -> bool {
        self@.wf() && self.indexed()
    }

    /// An empty ledger that dates its events in `zone`.
    pub fn new(zone: UtcOffset) -> (ledger: Ledger)
        ensures
            ledger@.wf(),
            ledger@ == (LedgerView {
                offset: zone@,
                participants: Seq::empty(),
                history: Seq::empty(),
            }),
    {
        let _ = zone.local_minus_utc();
        let ledger = Ledger {
            zone,
            participants: Vec::new(),
            history: Vec::new(),
            places: HashMap::new(),
            held: HashSet::new(),
        };
        assert(ledger@.participants =~= Seq::empty());
        assert(ledger@.history =~= Seq::empty());
        ledger
    }

    /// The zone the ledger dates its events in.
    pub fn zone(&self) -> (zone: UtcOffset)
        ensures
            zone@ == self@.offset,
            self@.wf(),
    {
        proof {
            use_type_invariant(self);
        }
        self.zone
    }

    /// The participants, in the order they were registered in.
    pub fn participants(&self) -> (participants: &Vec<Participant>)
        ensures
            participants@.len() == self@.participants.len(),
            forall|i: int|
                0 <= i < participants@.len() ==> (#[trigger] participants@[i])@
                    == self@.participants[i],
            self@.wf(),
    {
        proof {
            use_type_invariant(self);
        }
        &self.participants
    }

    /// The history, in the order the events were accepted in.
    pub fn history(&self) -> (history: &Vec<HistoryRecord>)
        ensures
            history@ == self@.history,
            self@.wf(),
    {
        proof {
            use_type_invariant(self);
        }
        &self.history
    }

    /// Where among the participants the actor stands.
    pub fn position_of(&self, actor_id: u64) -> (found: Option<usize>)
        ensures
            found is Some <==> self@.knows(actor_id),
            found matches Some(i) ==> i < self@.participants.len() && i
                == self@.index_of(actor_id) && self@.participants[i as int].actor_id == actor_id,
    {
        proof {
            use_type_invariant(self);
        }
        match self.places.get(&actor_id) {
            Some(place) => {
                let i: usize = *place;
                proof {
                    assert(self.places@.contains_key(actor_id));
                    assert(self@.participants[i as int].actor_id == actor_id);
                    lemma_index_of(self@, actor_id, i as int);
                }
                Some(i)
            },
            None => {
                proof {
                    if self@.knows(actor_id) {
                        let k = self@.index_of(actor_id);
                        assert(self.participants@[k].actor_id == actor_id);
                    }
                }
                None
            },
        }
    }

    /// Whether the history holds the event.
    pub fn is_recorded(&self, event_id: i64) -> (held: bool)
        ensures
            held == self@.recorded(event_id),
    {
        proof {
            use_type_invariant(self);
        }
        self.held.contains(&event_id)
    }

    /// Hands the ledger an event that counts as a check-in.
    pub fn record(&mut self, event: &Event) -> (outcome: RecordOutcome)
        ensures
            final(self)@.wf(),
            (final(self)@, outcome) == old(self)@.spec_record(event.id, event.author_id),
    {
        proof {
            use_type_invariant(&*self);
        }
        if self.is_recorded(event.id) {
            return RecordOutcome::Duplicate;
        }
        let i: usize = match self.position_of(event.author_id) {
            Some(i) => i,
            None => {
                return RecordOutcome::RejectedUnknownActor;
            },
        };
        let date = date_of(event.id, &self.zone);
        let record = HistoryRecord { event_id: event.id, actor_id: event.author_id, date };
        let mut taken = Ledger::new(self.zone);
        core::mem::swap(self, &mut taken);
        let Ledger { zone, mut participants, mut history, places, mut held } = taken;
        let ghost before = history@;
        history.push(record);
        held.insert(event.id);
        let pushed: usize = history.len();
        proof {
            lemma_count_bounded(old(self)@, i as int);
            lemma_record_keeps_wf(old(self)@, event.id, event.author_id);
        }
        let prior = participants[i].streak;
        let next = advance(prior, date);
        participants[i].count = participants[i].count + 1;
        participants[i].streak = next;
        proof {
            let ledger = Ledger { zone, participants, history, places, held };
            let after = old(self)@.spec_record(event.id, event.author_id).0;
            assert(ledger@.participants =~= after.participants);
            assert(ledger@.history =~= after.history);
            assert(ledger@ == after);
            assert forall|id: i64| #[trigger] ledger.held@.contains(id) <==> ledger@.recorded(id) by {
                if old(self)@.recorded(id) {
                    let k = choose|k: int|
                        0 <= k < before.len() && (#[trigger] before[k]).event_id == id;
                    assert(ledger@.history[k].event_id == id);
                }
                if ledger@.recorded(id) && id != event.id {
                    let k = choose|k: int|
                        0 <= k < ledger@.history.len() && (#[trigger] ledger@.history[k]).event_id
                            == id;
                    assert(before[k].event_id == id);
                }
                assert(ledger@.history[before.len() as int].event_id == event.id);
            }
            assert forall|k: int| 0 <= k < ledger.participants@.len() implies ledger.places@.contains_key(
                (#[trigger] ledger.participants@[k]).actor_id,
            ) && ledger.places@[ledger.participants@[k].actor_id] == k by {
                assert(ledger.participants@[k].actor_id == old(self).participants@[k].actor_id);
            }
            assert forall|actor_id: u64| #[trigger]
                ledger.places@.contains_key(actor_id) implies ledger.places@[actor_id]
                < ledger.participants@.len() && ledger.participants@[ledger.places@[actor_id] as int].actor_id
                == actor_id by {
                let k = ledger.places@[actor_id] as int;
                assert(ledger.participants@[k].actor_id == old(self).participants@[k].actor_id);
            }
            assert(ledger.inv());
        }
        *self = Ledger { zone, participants, history, places, held };
        RecordOutcome::Accepted
    }

    /// Registers the actor under `display_name`, or renames a registered one.
    /// Counts and streaks are not touched.
    pub fn upsert_participant(&mut self, actor_id: u64, display_name: String)
        ensures
            final(self)@.wf(),
            final(self)@ == old(self)@.spec_upsert(actor_id, display_name@),
    {
        proof {
            use_type_invariant(&*self);
            lemma_upsert_keeps_wf(old(self)@, actor_id, display_name@);
        }
        let found = self.position_of(actor_id);
        let mut taken = Ledger::new(self.zone);
        core::mem::swap(self, &mut taken);
        let Ledger { zone, mut participants, history, mut places, held } = taken;
        match found {
            Some(i) => {
                participants[i].name = display_name;
            },
            None => {
                let place: usize = participants.len();
                participants.push(
                    Participant { actor_id, name: display_name, count: 0, streak: StreakState::new() },
                );
                places.insert(actor_id, place);
            },
        }
        proof {
            let ledger = Ledger { zone, participants, history, places, held };
            let after = old(self)@.spec_upsert(actor_id, display_name@);
            assert(ledger@.participants =~= after.participants);
            assert(ledger@.history =~= after.history);
            assert(ledger@ == after);
            assert forall|id: i64| #[trigger] ledger.held@.contains(id) <==> ledger@.recorded(id) by {
                if old(self)@.recorded(id) {
                    let k = choose|k: int|
                        0 <= k < old(self)@.history.len() && (#[trigger] old(self)@.history[k]).event_id
                            == id;
                    assert(ledger@.history[k].event_id == id);
                }
                if ledger@.recorded(id) {
                    let k = choose|k: int|
                        0 <= k < ledger@.history.len() && (#[trigger] ledger@.history[k]).event_id
                            == id;
                    assert(old(self)@.history[k].event_id == id);
                }
            }
            assert forall|k: int| 0 <= k < ledger.participants@.len() implies ledger.places@.contains_key(
                (#[trigger] ledger.participants@[k]).actor_id,
            ) && ledger.places@[ledger.participants@[k].actor_id] == k by {
                if k < old(self).participants@.len() {
                    assert(ledger.participants@[k].actor_id == old(self).participants@[k].actor_id);
                    if found is None {
                        assert(old(self)@.participants[k].actor_id != actor_id);
                    }
                }
            }
            assert forall|a: u64| #[trigger]
                ledger.places@.contains_key(a) implies ledger.places@[a]
                < ledger.participants@.len() && ledger.participants@[ledger.places@[a] as int].actor_id
                == a by {
                if old(self).places@.contains_key(a) {
                    let k = old(self).places@[a] as int;
                    assert(ledger.participants@[k].actor_id == old(self).participants@[k].actor_id);
                    if found is None {
                        assert(old(self)@.participants[k].actor_id == a);
                    }
                }
            }
            assert(ledger.inv());
        }
        *self = Ledger { zone, participants, history, places, held };
    }

    /// The greatest event identifier in the history, `None` where the history
    /// is empty.
    pub fn latest_event_id(&self) -> (latest: Option<i64>)
        ensures
            latest == self@.spec_latest_event_id(),
            self@.is_latest(latest),
    {
        let mut latest: Option<i64> = None;
        let mut i: usize = 0;
        while i < self.history.len()
            invariant
                i <= self.history.len(),
                latest == spec_latest(self@.history.take(i as int)),
            decreases self.history.len() - i,
        {
            let id: i64 = self.history[i].event_id;
            proof {
                assert(self@.history.take(i as int + 1).drop_last() =~= self@.history.take(
                    i as int,
                ));
                assert(self@.history.take(i as int + 1).last() == self@.history[i as int]);
            }
            latest = match latest {
                Some(best) => Some(if best >= id {
                    best
                } else {
                    id
                }),
                None => Some(id),
            };
            i += 1;
        }
        proof {
            assert(self@.history.take(self.history.len() as int) =~= self@.history);
            lemma_latest(self@);
        }
        latest
    }

    /// The record of the actor, if registered.
    pub fn participant(&self, actor_id: u64) -> (found: Option<&Participant>)
        ensures
            found is Some <==> self@.knows(actor_id),
            found matches Some(p) ==> p@ == self@.participant(actor_id) && p.actor_id == actor_id,
    {
        match self.position_of(actor_id) {
            Some(i) => Some(&self.participants[i]),
            None => None,
        }
    }
}

} // verus!

//! Taking in events as they happen, and the members that the source reports.
//!
//! Live events go the way of backfilled ones: the validator tells whether an
//! event counts, and the ledger records it once. So it does no harm when an
//! event arrives live and in a page of a backfill as well.

use crate::backfill::{spec_ingest_one, BackfillController};
use crate::event::{Event, EventView};
use crate::ledger::{Ledger, LedgerView, RecordOutcome};
use vstd::prelude::*;

verus! {

/// What is to be done with an event that just happened.
#[derive(Clone, Copy, Debug, PartialEq, Eq, Structural)]
pub enum LiveAction {
    /// The event does not count as a check-in: it is to be removed from the
    /// stream.
    Remove,
    /// The event counts and was handed to the ledger, which took it so.
    Counted(RecordOutcome),
}

/// The ledger after an event that just happened, and what is to be done with
/// the event.
pub open spec fn spec_on_event(ledger: LedgerView, event: EventView) -> (LedgerView, LiveAction) {
    if event.counts(ledger.offset) {
        (
            ledger.spec_record(event.id, event.author_id).0,
            LiveAction::Counted(ledger.spec_record(event.id, event.author_id).1),
        )
    } else {
        (ledger, LiveAction::Remove)
    }
}

/// Takes in an event that just happened: an event that counts as a check-in
/// is handed to the ledger, any other is to be removed and leaves the ledger
/// as it is.
pub fn on_event(ledger: &mut Ledger, event: &Event) -> (action: LiveAction)
    ensures
        (final(ledger)@, action) == spec_on_event(old(ledger)@, event@),
        final(ledger)@ == spec_ingest_one(old(ledger)@, event@),
{
    if event.check_message(&ledger.zone()) {
        LiveAction::Counted(ledger.record(event))
    } else {
        LiveAction::Remove
    }
}

impl BackfillController {
    /// The controller after an event happened live. While it rests, its
    /// cursor moves up to the event, so that the next run does not fetch the
    /// event again. In a run the cursor is the run's: the pages to come hold
    /// what lies between.
    pub open spec fn spec_on_live_event(self, event_id: i64) -> BackfillController {
        match self {
            BackfillController::Idle { reached } => BackfillController::Idle {
                reached: crate::backfill::spec_later(reached, Some(event_id)),
            },
            BackfillController::Paging { .. } => self,
        }
    }

    /// Tells the controller of an event that happened live and was taken in.
    pub fn on_live_event(&mut self, event_id: i64)
        ensures
            *final(self) == old(self).spec_on_live_event(event_id),
    {
        match self {
            BackfillController::Idle { reached } => {
                let moved = match *reached {
                    Some(cursor) => if cursor >= event_id {
                        cursor
                    } else {
                        event_id
                    },
                    None => event_id,
                };
                *self = BackfillController::Idle { reached: Some(moved) };
            },
            BackfillController::Paging { .. } => {},
        }
    }
}

/// A member of the community as the membership source reports them.
#[derive(Clone, Debug, PartialEq, Eq)]
pub struct Member {
    /// The member's stable identity.
    pub user_id: u64,
    /// The name the member goes by in the community, if they chose one.
    pub nick: Option<String>,
    /// The member's name at large.
    pub user_name: String,
}

/// A `Member` with the names as sequences of characters.
pub struct MemberView {
    pub user_id: u64,
    pub nick: Option<Seq<char>>,
    pub user_name: Seq<char>,
}

impl View for Member {
    type V = MemberView;

    open spec fn view(&self) -> MemberView {
        MemberView {
            user_id: self.user_id,
            nick: match self.nick {
                Some(nick) => Some(nick@),
                None => None,
            },
            user_name: self.user_name@,
        }
    }
}

impl MemberView {
    /// The name a member is displayed under: the one they go by in the
    /// community, or else their name at large.
    pub open spec fn display_name(self) -> Seq<char> {
        match self.nick {
            Some(nick) => nick,
            None => self.user_name,
        }
    }
}

impl Member {
    /// The name the member is displayed under.
    pub fn display_name(&self) -> (name: String)
        ensures
            name@ == self@.display_name(),
    {
        match &self.nick {
            Some(nick) => nick.clone(),
            None => self.user_name.clone(),
        }
    }
}

/// The members as the contracts see them.
pub open spec fn member_views(members: Seq<Member>) -> Seq<MemberView> {
    members.map_values(|member: Member| member@)
}

/// The ledger after the members were registered one after the other, each
/// under their display name.
pub open spec fn spec_register(ledger: LedgerView, members: Seq<MemberView>) -> LedgerView
    decreases members.len(),
{
    if members.len() == 0 {
        ledger
    } else {
        spec_register(ledger, members.drop_last()).spec_upsert(
            members.last().user_id,
            members.last().display_name(),
        )
    }
}

/// The greatest identity among the members, `None` where there are none.
pub open spec fn spec_largest_user_id(members: Seq<MemberView>) -> Option<u64>
    decreases members.len(),
{
    if members.len() == 0 {
        None
    } else {
        match spec_largest_user_id(members.drop_last()) {
            Some(best) => Some(if best >= members.last().user_id {
                best
            } else {
                members.last().user_id
            }),
            None => Some(members.last().user_id),
        }
    }
}

/// The greatest identity among the members: the place to ask for the next
/// page of members from. `None` where the page is empty: the members are
/// through.
pub fn largest_user_id(members: &Vec<Member>) -> (largest: Option<u64>)
    ensures
        largest == spec_largest_user_id(member_views(members@)),
{
    let ghost all = member_views(members@);
    let mut largest: Option<u64> = None;
    let mut i: usize = 0;
    while i < members.len()
        invariant
            i <= members.len(),
            all == member_views(members@),
            largest == spec_largest_user_id(all.take(i as int)),
        decreases members.len() - i,
    {
        let member = &members[i];
        proof {
            assert(all.take(i as int + 1).drop_last() =~= all.take(i as int));
            assert(all.take(i as int + 1).last() == member@);
        }
        largest = match largest {
            Some(best) => Some(if best >= member.user_id {
                best
            } else {
                member.user_id
            }),
            None => Some(member.user_id),
        };
        i += 1;
    }
    assert(all.take(members.len() as int) =~= all);
    largest
}

/// Registers a page of members, each under their display name, and returns
/// the greatest identity of the page.
pub fn register_members(ledger: &mut Ledger, members: &Vec<Member>) -> (largest: Option<u64>)
    ensures
        final(ledger)@ == spec_register(old(ledger)@, member_views(members@)),
        largest == spec_largest_user_id(member_views(members@)),
{
    let ghost all = member_views(members@);
    let mut i: usize = 0;
    while i < members.len()
        invariant
            i <= members.len(),
            all == member_views(members@),
            ledger@ == spec_register(old(ledger)@, all.take(i as int)),
        decreases members.len() - i,
    {
        let member = &members[i];
        proof {
            assert(all.take(i as int + 1).drop_last() =~= all.take(i as int));
            assert(all.take(i as int + 1).last() == member@);
        }
        ledger.upsert_participant(member.user_id, member.display_name());
        i += 1;
    }
    assert(all.take(members.len() as int) =~= all);
    largest_user_id(members)
}

} // verus!

//! The streak engine: how a participant's run of consecutive check-in days
//! changes when one more event is counted.
//!
//! The engine holds no state. It compares the date of the new event with the
//! date of the last counted one and with nothing else: an event on the day
//! after continues the run, every other event starts a new run of one day.
//! That includes a second event on the day of the last one, and an event
//! that is older than the last one.

use crate::time::Date;
use vstd::prelude::*;

verus! {

/// The running streak of one participant.
#[derive(Clone, Copy, Debug, PartialEq, Eq, Structural)]
pub struct StreakState {
    /// The longest run of consecutive days so far.
    pub longest: u64,
    /// The run of consecutive days that the last counted event belongs to.
    pub current: u64,
    /// The date of the last counted event, `None` before the first.
    pub last_date: Option<Date>,
}

impl StreakState {
    /// Whether an event on `event_date` continues the current run: it falls
    /// on the day after the last counted event.
    pub open spec fn continues(self, event_date: Date) -> bool {
        self.last_date matches Some(last) && event_date.day == last.day + 1
    }

    /// The streak after one more event, on `event_date`, is counted.
    pub open spec fn spec_advance(self, event_date: Date) -> StreakState {
        if self.last_date is None {
            StreakState {
                longest: if self.longest >= 1 {
                    self.longest
                } else {
                    1
                },
                current: 1,
                last_date: Some(event_date),
            }
        } else if self.continues(event_date) {
            let current = (self.current + 1) as u64;
            StreakState {
                longest: if self.longest >= current {
                    self.longest
                } else {
                    current
                },
                current,
                last_date: Some(event_date),
            }
        } else {
            StreakState { longest: self.longest, current: 1, last_date: Some(event_date) }
        }
    }

    /// The streak after the events on `dates` are counted one after the
    /// other.
    pub open spec fn spec_advance_all(self, dates: Seq<Date>) -> StreakState
        decreases dates.len(),
    {
        if dates.len() == 0 {
            self
        } else {
            self.spec_advance_all(dates.drop_last()).spec_advance(dates.last())
        }
    }

    /// What holds of the streak of a participant with counted events: the
    /// current run is at least one day long and not longer than the longest.
    pub open spec fn settled(self) -> bool {
        self.last_date is Some ==> 1 <= self.current <= self.longest
    }

    /// The streak of a participant of whom no event was counted yet.
    pub fn new() -> (state: StreakState)
        ensures
            state == (StreakState { longest: 0, current: 0, last_date: None }),
    {
        StreakState { longest: 0, current: 0, last_date: None }
    }
}

/// Each date in `dates` is the day after the one before it.
pub open spec fn consecutive_days(dates: Seq<Date>) -> bool {
    forall|i: int| 0 < i < dates.len() ==> (#[trigger] dates[i]).day == dates[i - 1].day + 1
}

/// The streak after one more event, on `event_date`, is counted.
pub fn advance(prior: StreakState, event_date: Date) -> (next: StreakState)
    requires
        prior.current < u64::MAX,
    ensures
        next == prior.spec_advance(event_date),
{
    match prior.last_date {
        None => StreakState {
            longest: if prior.longest >= 1 {
                prior.longest
            } else {
                1
            },
            current: 1,
            last_date: Some(event_date),
        },
        Some(last) => {
            if event_date.follows(last) {
                let current: u64 = prior.current + 1;
                StreakState {
                    longest: if prior.longest >= current {
                        prior.longest
                    } else {
                        current
                    },
                    current,
                    last_date: Some(event_date),
                }
            } else {
                StreakState { longest: prior.longest, current: 1, last_date: Some(event_date) }
            }
        },
    }
}

/// One event never shortens the longest run, leaves the current run at least
/// one day long and not longer than the longest, and dates the streak.
pub proof fn lemma_advance_settles(prior: StreakState, event_date: Date)
    requires
        prior.current < u64::MAX,
        prior.settled(),
    ensures
        prior.spec_advance(event_date).settled(),
        prior.spec_advance(event_date).longest >= prior.longest,
        prior.spec_advance(event_date).current >= 1,
        prior.spec_advance(event_date).last_date == Some(event_date),
        prior.spec_advance(event_date).current <= prior.current + 1,
        prior.spec_advance(event_date).longest <= prior.longest || prior.spec_advance(
            event_date,
        ).longest <= prior.current + 1,
{
}

/// An event on the day after the last counted one lengthens the current run
/// by one day.
pub proof fn lemma_next_day_extends(prior: StreakState, event_date: Date)
    requires
        prior.current < u64::MAX,
        prior.continues(event_date),
    ensures
        prior.spec_advance(event_date).current == prior.current + 1,
        prior.spec_advance(event_date).longest >= prior.longest,
        prior.spec_advance(event_date).longest >= prior.current + 1,
{
}

/// Over events on consecutive days the current run grows by exactly one day
/// with each event after the first, and the longest run never shrinks.
pub proof fn lemma_consecutive_days_grow(prior: StreakState, dates: Seq<Date>, k: int)
    requires
        consecutive_days(dates),
        1 <= k <= dates.len(),
        prior.current + dates.len() <= u64::MAX,
    ensures
        prior.spec_advance_all(dates.take(k)).last_date == Some(dates[k - 1]),
        prior.spec_advance_all(dates.take(k)).longest >= prior.spec_advance_all(
            dates.take(k - 1),
        ).longest,
        prior.spec_advance_all(dates.take(k)).current <= prior.current + k,
        k >= 2 ==> prior.spec_advance_all(dates.take(k)).current == prior.spec_advance_all(
            dates.take(k - 1),
        ).current + 1,
    decreases k,
{
    let upto = dates.take(k);
    let before = dates.take(k - 1);
    assert(upto.drop_last() =~= before);
    assert(upto.last() == dates[k - 1]);
    if k >= 2 {
        lemma_consecutive_days_grow(prior, dates, k - 1);
        assert(prior.spec_advance_all(before).continues(dates[k - 1]));
    } else {
        assert(before =~= Seq::<Date>::empty());
    }
}

/// An event that does not fall on the day after the last counted one starts
/// a new run of one day and leaves the longest run as it was. That holds of
/// an event on the day of the last one too.
pub proof fn lemma_other_day_resets(prior: StreakState, event_date: Date)
    requires
        prior.last_date is Some,
        !prior.continues(event_date),
    ensures
        prior.spec_advance(event_date).current == 1,
        prior.spec_advance(event_date).longest == prior.longest,
{
}

} // verus!

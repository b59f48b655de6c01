//! Raw inbound events and the rule that decides whether one counts as a
//! check-in.

use crate::snowflake::{date_of, spec_date_of};
use crate::time::{civil_from_days, CivilDate, UtcOffset};
use vstd::prelude::*;
use vstd::string::*;

verus! {

/// The content that makes an event a check-in.
pub const CHECK_IN_TOKEN: &'static str = "으어어";

/// The month of the day of the year on which every content counts.
pub const FREE_PASS_MONTH: u32 = 4;

/// The day of the month of the day of the year on which every content
/// counts.
pub const FREE_PASS_DAY: u32 = 1;

/// One observed check-in attempt, as the event source hands it over.
#[derive(Clone, Debug, PartialEq, Eq)]
pub struct Event {
    /// The identifier the source gave the event; it holds the time of the
    /// event.
    pub id: i64,
    /// The actor who made the event.
    pub author_id: u64,
    /// Whether the author is an automated actor.
    pub author_is_bot: bool,
    /// Whether the event was edited after it was made.
    pub edited: bool,
    /// What the event says.
    pub content: String,
}

/// An `Event` with its content as a sequence of characters.
pub struct EventView {
    pub id: i64,
    pub author_id: u64,
    pub author_is_bot: bool,
    pub edited: bool,
    pub content: Seq<char>,
}

impl View for Event {
    type V = EventView;

    open spec fn view(&self) -> EventView {
        EventView {
            id: self.id,
            author_id: self.author_id,
            author_is_bot: self.author_is_bot,
            edited: self.edited,
            content: self.content@,
        }
    }
}

/// Whether `date` is the yearly day on which every content counts.
pub open spec fn is_free_pass_day(date: Option<CivilDate>) -> bool {
    date matches Some(d) && d.month == FREE_PASS_MONTH && d.day == FREE_PASS_DAY
}

impl EventView {
    /// Whether the event counts as a check-in, given the calendar date it
    /// falls on. Events of automated actors never count, nor do edited ones.
    /// Of the others every one counts on the free-pass day, and on other days
    /// those whose content is the token, character for character.
    pub open spec fn counts_on(self, local_date: Option<CivilDate>) -> bool {
        &&& !self.author_is_bot
        &&& !self.edited
        &&& (is_free_pass_day(local_date) || self.content == CHECK_IN_TOKEN@)
    }

    /// Whether the event counts as a check-in in the zone at `offset`. The
    /// date of the event is that of its identifier, and its month and day are
    /// read from chrono's calendar.
    pub open spec fn counts(self, offset: int) -> bool {
        self.counts_on(civil_from_days(spec_date_of(self.id as int, offset) as i32))
    }
}

impl Event {
    /// Whether the event counts as a check-in when `local_date` is the
    /// calendar date it falls on.
    pub fn check_message_on(&self, local_date: Option<CivilDate>) -> (counts: bool)
        ensures
            counts == self@.counts_on(local_date),
    {
        if self.author_is_bot || self.edited {
            return false;
        }
        let free_pass = match local_date {
            Some(date) => date.month == FREE_PASS_MONTH && date.day == FREE_PASS_DAY,
            None => false,
        };
        if free_pass {
            true
        } else {
            let token = String::from_str(CHECK_IN_TOKEN);
            self.content == token
        }
    }

    /// Whether the event counts as a check-in in `zone`.
    pub fn check_message(&self, zone: &UtcOffset) -> (counts: bool)
        ensures
            counts == self@.counts(zone@),
    {
        let date = date_of(self.id, zone);
        self.check_message_on(date.civil())
    }
}

} // verus!

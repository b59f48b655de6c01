//! Planning how a scheduled event is mirrored into the calendars of those
//! who attend it.
//!
//! For each attendee with a calendar the event has one mirror in that
//! calendar. The plan compares the mirrors that are saved with the attendees
//! of the moment: mirrors of those who left are removed, those who came get
//! a mirror, and the mirrors of those who stayed are brought up to date.
//! Who has no calendar is passed over.

use vstd::prelude::*;

verus! {

/// The saved mirror of an event in the calendar of one user.
#[derive(Clone, Debug, PartialEq, Eq)]
pub struct Mirror {
    pub user_id: i64,
    /// The identity of the mirror in the calendar.
    pub google_event_id: String,
}

/// A `Mirror` as the contracts see it.
pub struct MirrorView {
    pub user_id: i64,
    pub google_event_id: Seq<char>,
}

impl View for Mirror {
    type V = MirrorView;

    open spec fn view(&self) -> MirrorView {
        MirrorView { user_id: self.user_id, google_event_id: self.google_event_id@ }
    }
}

/// The calendar of one user.
#[derive(Clone, Debug, PartialEq, Eq)]
pub struct Calendar {
    pub user_id: i64,
    pub calendar_id: String,
}

/// A `Calendar` as the contracts see it.
pub struct CalendarView {
    pub user_id: i64,
    pub calendar_id: Seq<char>,
}

impl View for Calendar {
    type V = CalendarView;

    open spec fn view(&self) -> CalendarView {
        CalendarView { user_id: self.user_id, calendar_id: self.calendar_id@ }
    }
}

/// One step of bringing the mirrors of an event up to date.
#[derive(Clone, Debug, PartialEq, Eq)]
pub enum MirrorAction {
    /// Take the mirror out of the calendar and forget it.
    Remove { user_id: i64, calendar_id: String, google_event_id: String },
    /// Put a mirror into the calendar and save it.
    Create { user_id: i64, calendar_id: String },
    /// Bring the mirror in the calendar up to date.
    Refresh { user_id: i64, calendar_id: String, google_event_id: String },
}

/// A `MirrorAction` as the contracts see it.
pub enum MirrorActionView {
    Remove { user_id: i64, calendar_id: Seq<char>, google_event_id: Seq<char> },
    Create { user_id: i64, calendar_id: Seq<char> },
    Refresh { user_id: i64, calendar_id: Seq<char>, google_event_id: Seq<char> },
}

impl View for MirrorAction {
    type V = MirrorActionView;

    open spec fn view(&self) -> MirrorActionView {
        match self {
            MirrorAction::Remove { user_id, calendar_id, google_event_id } => MirrorActionView::Remove {
                user_id: *user_id,
                calendar_id: calendar_id@,
                google_event_id: google_event_id@,
            },
            MirrorAction::Create { user_id, calendar_id } => MirrorActionView::Create {
                user_id: *user_id,
                calendar_id: calendar_id@,
            },
            MirrorAction::Refresh { user_id, calendar_id, google_event_id } => MirrorActionView::Refresh {
                user_id: *user_id,
                calendar_id: calendar_id@,
                google_event_id: google_event_id@,
            },
        }
    }
}

/// The mirrors as the contracts see them.
pub open spec fn mirror_views(saved: Seq<Mirror>) -> Seq<MirrorView> {
    saved.map_values(|mirror: Mirror| mirror@)
}

/// The calendars as the contracts see them.
pub open spec fn calendar_views(calendars: Seq<Calendar>) -> Seq<CalendarView> {
    calendars.map_values(|calendar: Calendar| calendar@)
}

/// The actions as the contracts see them.
pub open spec fn action_views(actions: Seq<MirrorAction>) -> Seq<MirrorActionView> {
    actions.map_values(|action: MirrorAction| action@)
}

/// The calendar of the user: the first of theirs among the first `n`
/// calendars, `None` where they have none there.
pub open spec fn spec_calendar_of(calendars: Seq<CalendarView>, user_id: i64, n: int) -> Option<
    Seq<char>,
>
    decreases n,
{
    if n <= 0 {
        None
    } else {
        match spec_calendar_of(calendars, user_id, n - 1) {
            Some(calendar_id) => Some(calendar_id),
            None => if calendars[n - 1].user_id == user_id {
                Some(calendars[n - 1].calendar_id)
            } else {
                None
            },
        }
    }
}

/// Whether a mirror is saved for the user.
pub open spec fn is_mirrored(saved: Seq<MirrorView>, user_id: i64) -> bool {
    exists|i: int| 0 <= i < saved.len() && (#[trigger] saved[i]).user_id == user_id
}

/// What is done with a saved mirror whose user attends no more: it is
/// removed where the user has a calendar.
pub open spec fn removal(attendees: Seq<i64>, calendars: Seq<CalendarView>) -> spec_fn(
    MirrorView,
) -> Option<MirrorActionView> {
    |mirror: MirrorView|
        if attendees.contains(mirror.user_id) {
            None
        } else {
            match spec_calendar_of(calendars, mirror.user_id, calendars.len() as int) {
                Some(calendar_id) => Some(
                    MirrorActionView::Remove {
                        user_id: mirror.user_id,
                        calendar_id,
                        google_event_id: mirror.google_event_id,
                    },
                ),
                None => None,
            }
        }
}

/// What is done for an attendee without a saved mirror: a mirror is created
/// where they have a calendar.
pub open spec fn creation(saved: Seq<MirrorView>, calendars: Seq<CalendarView>) -> spec_fn(
    i64,
) -> Option<MirrorActionView> {
    |user_id: i64|
        if is_mirrored(saved, user_id) {
            None
        } else {
            match spec_calendar_of(calendars, user_id, calendars.len() as int) {
                Some(calendar_id) => Some(MirrorActionView::Create { user_id, calendar_id }),
                None => None,
            }
        }
}

/// What is done with a saved mirror whose user still attends: it is brought
/// up to date where the user has a calendar.
pub open spec fn refreshing(attendees: Seq<i64>, calendars: Seq<CalendarView>) -> spec_fn(
    MirrorView,
) -> Option<MirrorActionView> {
    |mirror: MirrorView|
        if !attendees.contains(mirror.user_id) {
            None
        } else {
            match spec_calendar_of(calendars, mirror.user_id, calendars.len() as int) {
                Some(calendar_id) => Some(
                    MirrorActionView::Refresh {
                        user_id: mirror.user_id,
                        calendar_id,
                        google_event_id: mirror.google_event_id,
                    },
                ),
                None => None,
            }
        }
}

/// The plan: first the removals, in the order of the saved mirrors, then the
/// creations, in the order of the attendees, then the refreshings, in the
/// order of the saved mirrors.
pub open spec fn spec_plan(
    saved: Seq<MirrorView>,
    attendees: Seq<i64>,
    calendars: Seq<CalendarView>,
) -> Seq<MirrorActionView> {
    saved.filter_map(removal(attendees, calendars)) + attendees.filter_map(
        creation(saved, calendars),
    ) + saved.filter_map(refreshing(attendees, calendars))
}

/// The calendar of the user, if they have one.
pub fn calendar_of(calendars: &Vec<Calendar>, user_id: i64) -> (found: Option<&String>)
    ensures
        match found {
            Some(calendar_id) => spec_calendar_of(
                calendar_views(calendars@),
                user_id,
                calendars@.len() as int,
            ) == Some(calendar_id@),
            None => spec_calendar_of(calendar_views(calendars@), user_id, calendars@.len() as int)
                is None,
        },
{
    let mut i: usize = 0;
    while i < calendars.len()
        invariant
            i <= calendars.len(),
            spec_calendar_of(calendar_views(calendars@), user_id, i as int) is None,
        decreases calendars.len() - i,
    {
        if calendars[i].user_id == user_id {
            proof {
                lemma_calendar_stays(
                    calendar_views(calendars@),
                    user_id,
                    i as int + 1,
                    calendars@.len() as int,
                );
            }
            return Some(&calendars[i].calendar_id);
        }
        i += 1;
    }
    None
}

/// A calendar found among the first calendars is the one found among more
/// of them.
pub proof fn lemma_calendar_stays(calendars: Seq<CalendarView>, user_id: i64, n: int, more: int)
    requires
        0 <= n <= more,
        spec_calendar_of(calendars, user_id, n) is Some,
    ensures
        spec_calendar_of(calendars, user_id, more) == spec_calendar_of(calendars, user_id, n),
    decreases more - n,
{
    if n < more {
        lemma_calendar_stays(calendars, user_id, n, more - 1);
    }
}

/// Whether the user is among the attendees.
pub fn attends(attendees: &Vec<i64>, user_id: i64) -> (found: bool)
    ensures
        found == attendees@.contains(user_id),
{
    let mut i: usize = 0;
    while i < attendees.len()
        invariant
            i <= attendees.len(),
            forall|k: int| 0 <= k < i ==> attendees@[k] != user_id,
        decreases attendees.len() - i,
    {
        if attendees[i] == user_id {
            assert(attendees@[i as int] == user_id);
            return true;
        }
        i += 1;
    }
    false
}

/// Whether a mirror is saved for the user.
pub fn has_mirror(saved: &Vec<Mirror>, user_id: i64) -> (found: bool)
    ensures
        found == is_mirrored(mirror_views(saved@), user_id),
{
    let mut i: usize = 0;
    while i < saved.len()
        invariant
            i <= saved.len(),
            forall|k: int| 0 <= k < i ==> (#[trigger] mirror_views(saved@)[k]).user_id != user_id,
        decreases saved.len() - i,
    {
        if saved[i].user_id == user_id {
            assert(mirror_views(saved@)[i as int].user_id == user_id);
            return true;
        }
        i += 1;
    }
    false
}

/// Plans how the mirrors of an event are brought up to date: `saved` are the
/// mirrors that exist, `attendees` those who attend now, and `calendars` the
/// calendars of the users who have one.
pub fn plan(saved: &Vec<Mirror>, attendees: &Vec<i64>, calendars: &Vec<Calendar>) -> (actions: Vec<
    MirrorAction,
>)
    ensures
        action_views(actions@) == spec_plan(
            mirror_views(saved@),
            attendees@,
            calendar_views(calendars@),
        ),
{
    let ghost mirrors = mirror_views(saved@);
    let ghost owned = calendar_views(calendars@);
    let ghost remove = removal(attendees@, owned);
    let ghost create = creation(mirrors, owned);
    let ghost refresh = refreshing(attendees@, owned);
    let mut actions: Vec<MirrorAction> = Vec::new();
    let mut i: usize = 0;
    assert(action_views(actions@) =~= mirrors.take(0).filter_map(remove));
    while i < saved.len()
        invariant
            i <= saved.len(),
            mirrors == mirror_views(saved@),
            owned == calendar_views(calendars@),
            remove == removal(attendees@, owned),
            action_views(actions@) == mirrors.take(i as int).filter_map(remove),
        decreases saved.len() - i,
    {
        let mirror = &saved[i];
        let ghost before = actions@;
        proof {
            mirrors.lemma_filter_map_take_succ(remove, i as int);
        }
        if !attends(attendees, mirror.user_id) {
            match calendar_of(calendars, mirror.user_id) {
                Some(calendar_id) => {
                    let action = MirrorAction::Remove {
                        user_id: mirror.user_id,
                        calendar_id: calendar_id.clone(),
                        google_event_id: mirror.google_event_id.clone(),
                    };
                    actions.push(action);
                    proof {
                        assert(action_views(actions@) =~= action_views(before) + seq![action@]);
                    }
                },
                None => {},
            }
        }
        proof {
            assert(action_views(actions@) =~= mirrors.take(i as int + 1).filter_map(remove));
        }
        i += 1;
    }
    assert(mirrors.take(saved.len() as int) =~= mirrors);
    let ghost removals = action_views(actions@);
    let mut j: usize = 0;
    assert(action_views(actions@) =~= removals + attendees@.take(0).filter_map(create));
    while j < attendees.len()
        invariant
            j <= attendees.len(),
            mirrors == mirror_views(saved@),
            owned == calendar_views(calendars@),
            create == creation(mirrors, owned),
            action_views(actions@) == removals + attendees@.take(j as int).filter_map(create),
        decreases attendees.len() - j,
    {
        let user_id: i64 = attendees[j];
        let ghost before = actions@;
        proof {
            attendees@.lemma_filter_map_take_succ(create, j as int);
        }
        if !has_mirror(saved, user_id) {
            match calendar_of(calendars, user_id) {
                Some(calendar_id) => {
                    let action = MirrorAction::Create { user_id, calendar_id: calendar_id.clone() };
                    actions.push(action);
                    proof {
                        assert(action_views(actions@) =~= action_views(before) + seq![action@]);
                    }
                },
                None => {},
            }
        }
        proof {
            assert(action_views(actions@) =~= removals + attendees@.take(j as int + 1).filter_map(
                create,
            ));
        }
        j += 1;
    }
    assert(attendees@.take(attendees.len() as int) =~= attendees@);
    let ghost first = action_views(actions@);
    let mut k: usize = 0;
    assert(action_views(actions@) =~= first + mirrors.take(0).filter_map(refresh));
    while k < saved.len()
        invariant
            k <= saved.len(),
            mirrors == mirror_views(saved@),
            owned == calendar_views(calendars@),
            refresh == refreshing(attendees@, owned),
            action_views(actions@) == first + mirrors.take(k as int).filter_map(refresh),
        decreases saved.len() - k,
    {
        let mirror = &saved[k];
        let ghost before = actions@;
        proof {
            mirrors.lemma_filter_map_take_succ(refresh, k as int);
        }
        if attends(attendees, mirror.user_id) {
            match calendar_of(calendars, mirror.user_id) {
                Some(calendar_id) => {
                    let action = MirrorAction::Refresh {
                        user_id: mirror.user_id,
                        calendar_id: calendar_id.clone(),
                        google_event_id: mirror.google_event_id.clone(),
                    };
                    actions.push(action);
                    proof {
                        assert(action_views(actions@) =~= action_views(before) + seq![action@]);
                    }
                },
                None => {},
            }
        }
        proof {
            assert(action_views(actions@) =~= first + mirrors.take(k as int + 1).filter_map(
                refresh,
            ));
        }
        k += 1;
    }
    assert(mirrors.take(saved.len() as int) =~= mirrors);
    actions
}

} // verus!

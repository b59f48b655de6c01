//! Statistics over the ledger: rankings, the counts of a year, and the
//! detail of one participant with the days they missed.
//!
//! Nothing here changes the ledger. What depends on the present day takes
//! the present instant as an argument; the calendar is read in the zone of
//! the ledger.

use crate::gaps::{gap_views, gaps, lemma_gaps_bounded, lemma_gaps_of_same_numbers, spec_gaps};
use crate::ledger::{HistoryRecord, Ledger, LedgerView, Participant, ParticipantView};
use crate::order::{arranges, lemma_sorted, order_of, sort_ascending, spec_order};
use crate::snowflake::{encode, fits_i64, spec_date_of, spec_encode};
use crate::time::{civil_from_days, days_from_civil, valid_offset};
use crate::time::{CivilDate, Date, DateTime, DateTimeView, UtcOffset};
use crate::time::{MILLIS_PER_SECOND, SECONDS_PER_DAY};
use vstd::prelude::*;

verus! {

/// One line of a ranking: a participant's name and their number.
pub type Entry = (String, u64);

/// One line of a ranking as the contracts see it.
pub type EntryView = (Seq<char>, u64);

/// The lines of a ranking as the contracts see them.
pub open spec fn entry_views(entries: Seq<Entry>) -> Seq<EntryView> {
    entries.map_values(|entry: Entry| (entry.0@, entry.1))
}

/// The keys that put entries in descending order of their numbers.
pub open spec fn descending_keys(entries: Seq<EntryView>) -> Seq<i128> {
    entries.map_values(|entry: EntryView| (-(entry.1 as int)) as i128)
}

/// The entries in descending order of their numbers, entries of one number
/// in the order they came in.
pub open spec fn spec_ranked(entries: Seq<EntryView>) -> Seq<EntryView> {
    spec_order(descending_keys(entries)).map_values(|i: usize| entries[i as int])
}

/// Ranking keeps every entry, each as often as it came, and puts greater
/// numbers first.
pub proof fn lemma_ranked(entries: Seq<EntryView>)
    requires
        entries.len() <= usize::MAX,
    ensures
        spec_ranked(entries).len() == entries.len(),
        arranges(spec_order(descending_keys(entries)), entries.len()),
        forall|a: int, b: int|
            0 <= a < b < entries.len() ==> (#[trigger] spec_ranked(entries)[a]).1 >= (
            #[trigger] spec_ranked(entries)[b]).1,
{
    let keys = descending_keys(entries);
    let order = spec_order(keys);
    crate::order::lemma_order(keys);
    assert forall|a: int, b: int| 0 <= a < b < entries.len() implies (#[trigger] spec_ranked(
        entries,
    )[a]).1 >= (#[trigger] spec_ranked(entries)[b]).1 by {
        assert(keys[order[a] as int] <= keys[order[b] as int]);
    }
}

/// The entries in descending order of their numbers.
pub fn rank(entries: &Vec<Entry>) -> (ranked: Vec<Entry>)
    ensures
        entry_views(ranked@) == spec_ranked(entry_views(entries@)),
{
    let ghost lines = entry_views(entries@);
    let mut keys: Vec<i128> = Vec::new();
    let mut i: usize = 0;
    while i < entries.len()
        invariant
            i <= entries.len(),
            lines == entry_views(entries@),
            keys@ == descending_keys(lines.take(i as int)),
        decreases entries.len() - i,
    {
        keys.push(-(entries[i].1 as i128));
        proof {
            assert(keys@ =~= descending_keys(lines.take(i as int + 1)));
        }
        i += 1;
    }
    assert(lines.take(entries.len() as int) =~= lines);
    let order = order_of(&keys);
    let mut ranked: Vec<Entry> = Vec::new();
    let mut k: usize = 0;
    while k < order.len()
        invariant
            k <= order.len(),
            lines == entry_views(entries@),
            order@ == spec_order(descending_keys(lines)),
            arranges(order@, entries@.len()),
            entry_views(ranked@) == spec_ranked(lines).take(k as int),
        decreases order.len() - k,
    {
        let entry = &entries[order[k]];
        let ghost before = ranked@;
        let name = entry.0.clone();
        ranked.push((name, entry.1));
        proof {
            assert(lines[order@[k as int] as int] == (entry.0@, entry.1));
            assert(spec_ranked(lines)[k as int] == lines[order@[k as int] as int]);
            assert(entry_views(ranked@) =~= entry_views(before).push((name@, entry.1)));
            assert(entry_views(ranked@) =~= spec_ranked(lines).take(k as int + 1));
        }
        k += 1;
    }
    assert(spec_ranked(lines).take(order.len() as int) =~= spec_ranked(lines));
    ranked
}

/// The records of the actor with identifiers from `begin` up to, but not
/// including, `end`.
pub open spec fn in_range(actor_id: u64, begin: i64, end: i64) -> spec_fn(HistoryRecord) -> bool {
    |record: HistoryRecord| record.actor_id == actor_id && begin <= record.event_id < end
}

/// How many events of the actor the history holds with identifiers from
/// `begin` up to, but not including, `end`.
pub open spec fn spec_count_in(ledger: LedgerView, actor_id: u64, begin: i64, end: i64) -> nat {
    ledger.history.filter(in_range(actor_id, begin, end)).len()
}

/// How many events of the actor the history holds with identifiers from
/// `begin` up to, but not including, `end`.
pub fn count_in(ledger: &Ledger, actor_id: u64, begin: i64, end: i64) -> (count: u64)
    ensures
        count == spec_count_in(ledger@, actor_id, begin, end),
{
    let history = ledger.history();
    let ghost wanted = in_range(actor_id, begin, end);
    let mut count: u64 = 0;
    let mut i: usize = 0;
    while i < history.len()
        invariant
            i <= history.len(),
            history@ == ledger@.history,
            wanted == in_range(actor_id, begin, end),
            count == history@.take(i as int).filter(wanted).len(),
            count <= i,
        decreases history.len() - i,
    {
        let record = &history[i];
        proof {
            assert(history@.take(i as int + 1) =~= history@.take(i as int).push(history@[i as int]));
            history@.take(i as int).lemma_filter_len_push(wanted, history@[i as int]);
        }
        if record.actor_id == actor_id && begin <= record.event_id && record.event_id < end {
            count += 1;
        }
        i += 1;
    }
    assert(history@.take(history.len() as int) =~= history@);
    count
}

/// What a ranking goes by.
#[derive(Clone, Copy, Debug, PartialEq, Eq, Structural)]
pub enum Board {
    /// The number of counted events, for participants who have any.
    Total,
    /// The longest streak, for every participant.
    Longest,
    /// The current streak, for the participants whose streak is not broken
    /// on the day `today`: their last counted event fell on that day or on
    /// the day before.
    Current { today: Date },
    /// The number of counted events with identifiers from `begin` up to, but
    /// not including, `end`, for participants who have any such.
    Within { begin: i64, end: i64 },
}

impl Board {
    /// The number the board shows for the participant.
    pub open spec fn number(self, ledger: LedgerView, p: ParticipantView) -> u64 {
        match self {
            Board::Total => p.count,
            Board::Longest => p.streak.longest,
            Board::Current { .. } => p.streak.current,
            Board::Within { begin, end } => spec_count_in(ledger, p.actor_id, begin, end) as u64,
        }
    }

    /// Whether the participant is on the board.
    pub open spec fn lists(self, ledger: LedgerView, p: ParticipantView) -> bool {
        match self {
            Board::Total => p.count > 0,
            Board::Longest => true,
            Board::Current { today } => p.streak.last_date matches Some(last) && today.day - 1
                <= last.day <= today.day,
            Board::Within { begin, end } => spec_count_in(ledger, p.actor_id, begin, end) > 0,
        }
    }

    /// The participants that are on the board.
    pub open spec fn listed(self, ledger: LedgerView) -> spec_fn(ParticipantView) -> bool {
        |p: ParticipantView| self.lists(ledger, p)
    }

    /// The board's lines over some participants of the ledger, in their
    /// order.
    pub open spec fn lines(self, ledger: LedgerView, participants: Seq<ParticipantView>) -> Seq<
        EntryView,
    > {
        participants.filter(self.listed(ledger)).map_values(
            |p: ParticipantView| (p.name, self.number(ledger, p)),
        )
    }

    /// The board: its lines over the participants of the ledger, in
    /// descending order of their numbers.
    pub open spec fn spec_ranking(self, ledger: LedgerView) -> Seq<EntryView> {
        spec_ranked(self.lines(ledger, ledger.participants))
    }

    /// The number the board shows for the participant, `None` where the
    /// participant is not on the board.
    pub fn line(&self, ledger: &Ledger, p: &Participant) -> (number: Option<u64>)
        ensures
            number is Some <==> self.lists(ledger@, p@),
            number matches Some(n) ==> n == self.number(ledger@, p@),
    {
        match self {
            Board::Total => if p.count > 0 {
                Some(p.count)
            } else {
                None
            },
            Board::Longest => Some(p.streak.longest),
            Board::Current { today } => match p.streak.last_date {
                Some(last) => if today.day as i64 - 1 <= last.day as i64 && last.day <= today.day {
                    Some(p.streak.current)
                } else {
                    None
                },
                None => None,
            },
            Board::Within { begin, end } => {
                let count = count_in(ledger, p.actor_id, *begin, *end);
                if count > 0 {
                    Some(count)
                } else {
                    None
                }
            },
        }
    }

    /// The board over the participants of the ledger.
    pub fn ranking(&self, ledger: &Ledger) -> (ranking: Vec<Entry>)
        ensures
            entry_views(ranking@) == self.spec_ranking(ledger@),
    {
        let participants = ledger.participants();
        let ghost all = ledger@.participants;
        let mut lines: Vec<Entry> = Vec::new();
        let mut i: usize = 0;
        while i < participants.len()
            invariant
                i <= participants.len(),
                all == ledger@.participants,
                all.len() == participants@.len(),
                forall|k: int| 0 <= k < all.len() ==> (#[trigger] participants@[k])@ == all[k],
                entry_views(lines@) == self.lines(ledger@, all.take(i as int)),
            decreases participants.len() - i,
        {
            let p = &participants[i];
            let ghost before = lines@;
            proof {
                assert(all.take(i as int + 1) =~= all.take(i as int).push(all[i as int]));
                all.take(i as int).lemma_filter_push(all[i as int], self.listed(ledger@));
            }
            match self.line(ledger, p) {
                Some(number) => {
                    let name = p.name.clone();
                    lines.push((name, number));
                    proof {
                        assert(entry_views(lines@) =~= entry_views(before).push(
                            (all[i as int].name, self.number(ledger@, all[i as int])),
                        ));
                        assert(entry_views(lines@) =~= self.lines(ledger@, all.take(i as int + 1)));
                    }
                },
                None => {},
            }
            i += 1;
        }
        assert(all.take(participants.len() as int) =~= all);
        rank(&lines)
    }
}

/// What `streak_ranking` goes by.
#[derive(Clone, Copy, Debug, PartialEq, Eq, Structural)]
pub enum StreakBasis {
    Current,
    Longest,
}

/// The participants with counted events by the number of those, greatest
/// first.
pub fn total_ranking(ledger: &Ledger) -> (ranking: Vec<Entry>)
    ensures
        entry_views(ranking@) == Board::Total.spec_ranking(ledger@),
{
    Board::Total.ranking(ledger)
}

/// The board that a ranking of streaks is read from at the instant `now`.
pub open spec fn spec_streak_board(basis: StreakBasis, now: DateTimeView, offset: int) -> Board {
    match basis {
        StreakBasis::Longest => Board::Longest,
        StreakBasis::Current => Board::Current {
            today: Date { day: now.in_zone(offset).local_day() as i32 },
        },
    }
}

/// The participants by their streak, longest first. By the longest streak
/// every participant is listed. By the current streak those are listed whose
/// streak is not broken at `now`: their last counted event fell on the
/// present day of the ledger's zone or on the day before.
pub fn streak_ranking(ledger: &Ledger, basis: StreakBasis, now: DateTime) -> (ranking: Vec<Entry>)
    ensures
        entry_views(ranking@) == spec_streak_board(basis, now@, ledger@.offset).spec_ranking(
            ledger@,
        ),
{
    let board = match basis {
        StreakBasis::Longest => Board::Longest,
        StreakBasis::Current => Board::Current { today: now.with_timezone(ledger.zone()).date() },
    };
    board.ranking(ledger)
}

/// How many identifiers one day spans.
pub const DAY_TICKS: i64 = 362_387_865_600_000;

/// Why a statistic cannot be given.
#[derive(Clone, Copy, Debug, PartialEq, Eq, Structural)]
pub enum StatsError {
    /// The actor was never registered.
    UnknownActor,
    /// The year or the present day lies beyond the calendar that chrono
    /// represents or beyond the range of the identifiers.
    UnsupportedDate,
}

/// The first identifier of the day `day` in the zone at `offset`.
pub open spec fn spec_day_start(day: int, offset: int) -> int {
    spec_encode((day * SECONDS_PER_DAY - offset) * MILLIS_PER_SECOND)
}

/// What a `YearWindow` holds: the year, the number of its first day, how many
/// days it spans, and the offset of the zone in seconds.
pub struct YearWindowView {
    pub year: i32,
    pub first_day: int,
    pub days: int,
    pub offset: int,
}

impl YearWindowView {
    /// The first identifier of the window.
    pub open spec fn begin(self) -> int {
        spec_day_start(self.first_day, self.offset)
    }

    /// The first identifier behind the window.
    pub open spec fn end(self) -> int {
        spec_day_start(self.first_day + self.days, self.offset)
    }

    /// The windows that a `YearWindow` can hold: of one day at least, with
    /// days that are values of `i32` and bounds that are identifiers.
    pub open spec fn wf(self) -> bool {
        &&& self.days >= 1
        &&& i32::MIN <= self.first_day
        &&& self.first_day + self.days <= i32::MAX
        &&& valid_offset(self.offset)
        &&& fits_i64(self.begin())
        &&& fits_i64(self.end())
    }

    /// The first identifier of the `k`-th day of the window, counted from 0.
    pub open spec fn day_begin(self, k: int) -> int {
        self.begin() + k * DAY_TICKS
    }
}

/// The days of a year that statistics are taken over, as a range of
/// identifiers: from the first day of the year, in one zone, up to the first
/// day of the next year or, for the present year, up to the present day.
#[derive(Clone, Copy, Debug, PartialEq, Eq)]
pub struct YearWindow {
    year: i32,
    first_day: Date,
    days: i64,
    begin: i64,
    end: i64,
    zone: UtcOffset,
}

impl View for YearWindow {
    type V = YearWindowView;

    closed spec fn view(&self) -> YearWindowView {
        YearWindowView {
            year: self.year,
            first_day: self.first_day.day as int,
            days: self.days as int,
            offset: self.zone@,
        }
    }
}

impl YearWindow {
    #[verifier::type_invariant]
    closed spec fn inv(self) -> bool {
        &&& self@.wf()
        &&& self.begin == self@.begin()
        &&& self.end == self@.end()
    }

    /// The window of the days from `first` up to, but not including, `until`
    /// in `zone`, for the year `year`. `None` where there is no such day, or
    /// where a bound is beyond the range of the identifiers.
    pub fn between(year: i32, first: Date, until: Date, zone: UtcOffset) -> (window: Option<
        YearWindow,
    >)
        ensures
            window is Some <==> (YearWindowView {
                year,
                first_day: first.day as int,
                days: until.day - first.day,
                offset: zone@,
            }).wf(),
            window matches Some(w) ==> w@ == (YearWindowView {
                year,
                first_day: first.day as int,
                days: until.day - first.day,
                offset: zone@,
            }),
    {
        let _ = zone.local_minus_utc();
        if first.day >= until.day {
            return None;
        }
        let begin: i64 = match first.and_midnight(zone) {
            Some(start) => match encode(start) {
                Some(id) => id,
                None => {
                    return None;
                },
            },
            None => {
                return None;
            },
        };
        let end: i64 = match until.and_midnight(zone) {
            Some(start) => match encode(start) {
                Some(id) => id,
                None => {
                    return None;
                },
            },
            None => {
                return None;
            },
        };
        Some(YearWindow { year, first_day: first, days: until.days_since(first), begin, end, zone })
    }

    /// The year.
    pub fn year(&self) -> (year: i32)
        ensures
            year == self@.year,
    {
        self.year
    }

    /// The first day of the window.
    pub fn first_day(&self) -> (day: Date)
        ensures
            day.day == self@.first_day,
    {
        self.first_day
    }

    /// How many days the window spans.
    pub fn total_days(&self) -> (days: i64)
        ensures
            days == self@.days,
            self@.wf(),
    {
        proof {
            use_type_invariant(self);
        }
        self.days
    }

    /// The first identifier of the window.
    pub fn begin(&self) -> (id: i64)
        ensures
            id == self@.begin(),
            self@.wf(),
    {
        proof {
            use_type_invariant(self);
        }
        self.begin
    }

    /// The first identifier behind the window.
    pub fn end(&self) -> (id: i64)
        ensures
            id == self@.end(),
            self@.wf(),
    {
        proof {
            use_type_invariant(self);
        }
        self.end
    }

    /// The zone the days of the window are days of.
    pub fn zone(&self) -> (zone: UtcOffset)
        ensures
            zone@ == self@.offset,
    {
        self.zone
    }
}

/// The window of a year as `year_window` owes it. `today` is the number of
/// the present day and `present` its calendar date. The year is the one
/// asked for or, where none is asked for, the present one. The window starts
/// with the year. For the present year it ends with the present day, for
/// every other year with the year.
pub open spec fn spec_year_window(
    year: Option<i32>,
    today: int,
    present: Option<CivilDate>,
    offset: int,
) -> Option<YearWindowView> {
    match present {
        None => None,
        Some(present) => {
            let resolved = match year {
                Some(y) => y,
                None => present.year,
            };
            let until: Option<int> = if resolved == present.year {
                Some(today + 1)
            } else if resolved == i32::MAX {
                None
            } else {
                match days_from_civil((resolved + 1) as i32, 1, 1) {
                    Some(day) => Some(day as int),
                    None => None,
                }
            };
            match (days_from_civil(resolved, 1, 1), until) {
                (Some(first), Some(until)) => {
                    let window = YearWindowView {
                        year: resolved,
                        first_day: first as int,
                        days: until - first,
                        offset,
                    };
                    if window.wf() {
                        Some(window)
                    } else {
                        None
                    }
                },
                _ => None,
            }
        },
    }
}

/// The window of the year `year`, or of the present year where none is
/// given, as seen at the instant `now` in `zone`. `None` where chrono's
/// calendar does not reach or the days of the year lie beyond the range of
/// the identifiers.
pub fn year_window(year: Option<i32>, now: DateTime, zone: UtcOffset) -> (window: Option<
    YearWindow,
>)
    ensures
        match spec_year_window(
            year,
            now@.in_zone(zone@).local_day(),
            civil_from_days(now@.in_zone(zone@).local_day() as i32),
            zone@,
        ) {
            Some(view) => window matches Some(w) && w@ == view,
            None => window is None,
        },
{
    let today = now.with_timezone(zone).date();
    let present = match today.civil() {
        Some(present) => present,
        None => {
            return None;
        },
    };
    let resolved: i32 = match year {
        Some(y) => y,
        None => present.year,
    };
    let first = match Date::from_ymd(resolved, 1, 1) {
        Some(first) => first,
        None => {
            return None;
        },
    };
    let until = if resolved == present.year {
        if today.day == i32::MAX {
            return None;
        }
        Date::from_epoch_days(today.day + 1)
    } else {
        if resolved == i32::MAX {
            return None;
        }
        match Date::from_ymd(resolved + 1, 1, 1) {
            Some(until) => until,
            None => {
                return None;
            },
        }
    };
    YearWindow::between(resolved, first, until, zone)
}

/// The counts of a year: for each participant with events in the year their
/// name and how many, and the number of days that the counts are taken over.
#[derive(Clone, Debug, PartialEq, Eq)]
pub struct YearlyStats {
    pub stats: Vec<Entry>,
    pub total_days: i64,
}

/// The count of one participant in a year.
#[derive(Clone, Debug, PartialEq, Eq)]
pub struct YearlyStat {
    pub name: String,
    pub total_days: i64,
    pub count: u64,
}

/// The share of `count` in `total_days` in per cent, rounded down.
pub open spec fn spec_percent(count: u64, total_days: i64) -> int {
    count * 100 / (total_days as int)
}

/// The share of `count` in `total_days` in per cent, rounded down. `None`
/// where there is no day to share in, or the share is no value of `u64`.
pub fn percent(count: u64, total_days: i64) -> (share: Option<u64>)
    ensures
        share is Some <==> total_days >= 1 && spec_percent(count, total_days) <= u64::MAX,
        share matches Some(p) ==> p == spec_percent(count, total_days),
{
    if total_days < 1 {
        return None;
    }
    let share: u128 = count as u128 * 100 / (total_days as u128);
    if share <= u64::MAX as u128 {
        Some(share as u64)
    } else {
        None
    }
}

impl YearlyStat {
    /// The participant's name.
    pub fn title(&self) -> (name: &String)
        ensures
            name@ == self.name@,
    {
        &self.name
    }

    /// The share of the days of the year on which the participant has an
    /// event, in per cent, if each event fell on a day of its own.
    pub fn ratio(&self) -> (share: Option<u64>)
        ensures
            share is Some <==> self.total_days >= 1 && spec_percent(self.count, self.total_days)
                <= u64::MAX,
            share matches Some(p) ==> p == spec_percent(self.count, self.total_days),
    {
        percent(self.count, self.total_days)
    }
}

impl YearlyStats {
    /// The counts one by one, each with the number of days of the year.
    pub fn iter(&self) -> (items: Vec<YearlyStat>)
        ensures
            items@.len() == self.stats@.len(),
            forall|i: int|
                0 <= i < items@.len() ==> {
                    &&& (#[trigger] items@[i]).name@ == self.stats@[i].0@
                    &&& items@[i].count == self.stats@[i].1
                    &&& items@[i].total_days == self.total_days
                },
    {
        let mut items: Vec<YearlyStat> = Vec::new();
        let mut i: usize = 0;
        while i < self.stats.len()
            invariant
                i <= self.stats.len(),
                items@.len() == i,
                forall|k: int|
                    0 <= k < i ==> {
                        &&& (#[trigger] items@[k]).name@ == self.stats@[k].0@
                        &&& items@[k].count == self.stats@[k].1
                        &&& items@[k].total_days == self.total_days
                    },
            decreases self.stats.len() - i,
        {
            let entry = &self.stats[i];
            items.push(
                YearlyStat { name: entry.0.clone(), total_days: self.total_days, count: entry.1 },
            );
            i += 1;
        }
        items
    }

    /// How many participants have a count.
    pub fn len(&self) -> (len: usize)
        ensures
            len == self.stats@.len(),
    {
        self.stats.len()
    }
}

/// The counts of the window's year: the participants with events in the
/// window by the number of those, greatest first, and the days of the
/// window.
pub fn yearly_statistics_in(ledger: &Ledger, window: &YearWindow) -> (stats: YearlyStats)
    ensures
        window@.wf(),
        stats.total_days == window@.days,
        entry_views(stats.stats@) == (Board::Within {
            begin: window@.begin() as i64,
            end: window@.end() as i64,
        }).spec_ranking(ledger@),
{
    let board = Board::Within { begin: window.begin(), end: window.end() };
    YearlyStats { stats: board.ranking(ledger), total_days: window.total_days() }
}

/// The counts of the year `year`, or of the present year where none is
/// given, as seen at the instant `now`: the year they are of, the days they
/// are taken over, and for each participant with events in the year their
/// name and how many, greatest first. The year has 365 or 366 days; of the
/// present year the days up to the present one are taken.
pub fn yearly_statistics(ledger: &Ledger, year: Option<i32>, now: DateTime) -> (answer: Result<
    (i32, YearlyStats),
    StatsError,
>)
    ensures
        match spec_year_window(
            year,
            now@.in_zone(ledger@.offset).local_day(),
            civil_from_days(now@.in_zone(ledger@.offset).local_day() as i32),
            ledger@.offset,
        ) {
            Some(window) => answer matches Ok((resolved, stats)) && resolved == window.year
                && stats.total_days == window.days && entry_views(stats.stats@) == (Board::Within {
                begin: window.begin() as i64,
                end: window.end() as i64,
            }).spec_ranking(ledger@),
            None => answer == Err::<(i32, YearlyStats), StatsError>(StatsError::UnsupportedDate),
        },
{
    match year_window(year, now, ledger.zone()) {
        Some(window) => Ok((window.year(), yearly_statistics_in(ledger, &window))),
        None => Err(StatsError::UnsupportedDate),
    }
}

/// Below this many missing days the days are listed; from it on they are
/// only counted.
pub const DETAIL_LIMIT_COUNT: u64 = 10;

/// The days of a window on which a participant has no counted event.
#[derive(Clone, Debug, PartialEq, Eq)]
pub enum MissingDays {
    /// The days, in ascending order.
    Detailed(Vec<Date>),
    /// How many days there are.
    Count(u64),
}

/// `MissingDays` as the contracts see it.
pub enum MissingDaysView {
    Detailed(Seq<Date>),
    Count(u64),
}

impl View for MissingDays {
    type V = MissingDaysView;

    open spec fn view(&self) -> MissingDaysView {
        match self {
            MissingDays::Detailed(days) => MissingDaysView::Detailed(days@),
            MissingDays::Count(count) => MissingDaysView::Count(*count),
        }
    }
}

/// The identifiers of the actor's events from `begin` up to, but not
/// including, `end`, in the order of the history.
pub open spec fn spec_ids_in(ledger: LedgerView, actor_id: u64, begin: i64, end: i64) -> Seq<i64> {
    ledger.history.filter(in_range(actor_id, begin, end)).map_values(
        |record: HistoryRecord| record.event_id,
    )
}

impl YearWindowView {
    /// The actor's events in the window.
    pub open spec fn ids_of(self, ledger: LedgerView, actor_id: u64) -> Seq<i64> {
        spec_ids_in(ledger, actor_id, self.begin() as i64, self.end() as i64)
    }

    /// The days of the window, counted from 0, on which the actor has no
    /// event, in ascending order: those whose span of identifiers holds none
    /// of the actor's events.
    pub open spec fn spec_missing(self, ledger: LedgerView, actor_id: u64) -> Seq<int> {
        spec_gaps(self.ids_of(ledger, actor_id), self.begin(), DAY_TICKS as int, self.days as nat)
    }

    /// The date of the `k`-th day of the window, counted from 0.
    pub open spec fn date(self, k: int) -> Date {
        Date { day: (self.first_day + k) as i32 }
    }

    /// The missing days as `missing_days` owes them: listed by date where
    /// they are fewer than `DETAIL_LIMIT_COUNT`, and counted otherwise.
    pub open spec fn spec_missing_days(self, ledger: LedgerView, actor_id: u64) -> MissingDaysView {
        let missing = self.spec_missing(ledger, actor_id);
        if missing.len() < DETAIL_LIMIT_COUNT {
            MissingDaysView::Detailed(missing.map_values(|k: int| self.date(k)))
        } else {
            MissingDaysView::Count(missing.len() as u64)
        }
    }
}

/// The identifiers of the actor's events from `begin` up to, but not
/// including, `end`, in the order of the history.
pub fn ids_in(ledger: &Ledger, actor_id: u64, begin: i64, end: i64) -> (ids: Vec<i64>)
    ensures
        ids@ == spec_ids_in(ledger@, actor_id, begin, end),
{
    let history = ledger.history();
    let ghost wanted = in_range(actor_id, begin, end);
    let ghost id_of = |record: HistoryRecord| record.event_id;
    let mut ids: Vec<i64> = Vec::new();
    let mut i: usize = 0;
    while i < history.len()
        invariant
            i <= history.len(),
            history@ == ledger@.history,
            wanted == in_range(actor_id, begin, end),
            id_of == (|record: HistoryRecord| record.event_id),
            ids@ == history@.take(i as int).filter(wanted).map_values(id_of),
        decreases history.len() - i,
    {
        let record = &history[i];
        proof {
            assert(history@.take(i as int + 1) =~= history@.take(i as int).push(history@[i as int]));
            history@.take(i as int).lemma_filter_push(history@[i as int], wanted);
        }
        if record.actor_id == actor_id && begin <= record.event_id && record.event_id < end {
            ids.push(record.event_id);
            proof {
                assert(ids@ =~= history@.take(i as int + 1).filter(wanted).map_values(id_of));
            }
        }
        i += 1;
    }
    assert(history@.take(history.len() as int) =~= history@);
    ids
}

/// The span of a window is that of its days.
pub proof fn lemma_window_span(window: YearWindowView, k: int)
    ensures
        window.day_begin(k) == spec_day_start(window.first_day + k, window.offset),
        window.end() == window.day_begin(window.days),
        window.begin() == window.day_begin(0),
{
}

/// The days of the window on which the actor has no counted event: the
/// window is walked day by day along the actor's events in ascending order.
pub fn missing_days(ledger: &Ledger, actor_id: u64, window: &YearWindow) -> (missing: MissingDays)
    ensures
        missing@ == window@.spec_missing_days(ledger@, actor_id),
{
    let begin = window.begin();
    let end = window.end();
    let days = window.total_days();
    let first = window.first_day();
    let ids = ids_in(ledger, actor_id, begin, end);
    let sorted = sort_ascending(&ids);
    proof {
        assert(ids@.len() == ids.len());
        lemma_window_span(window@, window@.days);
        lemma_sorted(ids@);
        lemma_gaps_of_same_numbers(sorted@, ids@, begin as int, DAY_TICKS as int, days as nat);
        lemma_gaps_bounded(ids@, begin as int, DAY_TICKS as int, days as nat);
    }
    let found = gaps(&sorted, begin, DAY_TICKS, days as u64);
    let ghost missing = window@.spec_missing(ledger@, actor_id);
    assert(gap_views(found@) == missing);
    if (found.len() as u64) < DETAIL_LIMIT_COUNT {
        let mut dates: Vec<Date> = Vec::new();
        let mut i: usize = 0;
        while i < found.len()
            invariant
                i <= found.len(),
                window@.wf(),
                first.day == window@.first_day,
                days == window@.days,
                gap_views(found@) == missing,
                forall|j: int| 0 <= j < missing.len() ==> 0 <= (#[trigger] missing[j]) < days,
                dates@ == missing.map_values(|k: int| window@.date(k)).take(i as int),
            decreases found.len() - i,
        {
            let k: u64 = found[i];
            assert(missing[i as int] == k);
            let date = Date::from_epoch_days((first.day as i64 + k as i64) as i32);
            dates.push(date);
            proof {
                assert(dates@ =~= missing.map_values(|k: int| window@.date(k)).take(i as int + 1));
            }
            i += 1;
        }
        assert(missing.map_values(|k: int| window@.date(k)).take(found.len() as int)
            =~= missing.map_values(|k: int| window@.date(k)));
        MissingDays::Detailed(dates)
    } else {
        MissingDays::Count(found.len() as u64)
    }
}

/// The detail of one participant in the present year.
#[derive(Clone, Debug, PartialEq, Eq)]
pub struct UserDetail {
    pub name: String,
    pub longest_streak: u64,
    pub current_streak: u64,
    /// The year that the yearly numbers are of.
    pub year: i32,
    /// How many events the participant has in the year.
    pub yearly_count: u64,
    /// The share of the days of the year, up to the present one, for which
    /// the participant has an event, in per cent.
    pub yearly_ratio: u64,
    /// How many events the participant has in all.
    pub total_count: u64,
    /// The days of the year, up to the present one, without an event.
    pub missing_days: MissingDays,
}

/// A `UserDetail` as the contracts see it.
pub struct UserDetailView {
    pub name: Seq<char>,
    pub longest_streak: u64,
    pub current_streak: u64,
    pub year: i32,
    pub yearly_count: u64,
    pub yearly_ratio: u64,
    pub total_count: u64,
    pub missing_days: MissingDaysView,
}

impl View for UserDetail {
    type V = UserDetailView;

    open spec fn view(&self) -> UserDetailView {
        UserDetailView {
            name: self.name@,
            longest_streak: self.longest_streak,
            current_streak: self.current_streak,
            year: self.year,
            yearly_count: self.yearly_count,
            yearly_ratio: self.yearly_ratio,
            total_count: self.total_count,
            missing_days: self.missing_days@,
        }
    }
}

impl YearWindowView {
    /// The detail of a registered actor over the window.
    pub open spec fn spec_detail(self, ledger: LedgerView, actor_id: u64) -> UserDetailView {
        let p = ledger.participant(actor_id);
        let yearly = spec_count_in(ledger, actor_id, self.begin() as i64, self.end() as i64);
        UserDetailView {
            name: p.name,
            longest_streak: p.streak.longest,
            current_streak: p.streak.current,
            year: self.year,
            yearly_count: yearly as u64,
            yearly_ratio: ((yearly as int) * 100 / self.days) as u64,
            total_count: p.count,
            missing_days: self.spec_missing_days(ledger, actor_id),
        }
    }
}

/// The detail of the actor over the window: their streaks, how many events
/// they have in the window and in all, the share of the window's days that
/// the events of the window make, and the days of the window without an
/// event. A hundred times the length of the history must be a value of
/// `u64`, for the share to be one.
pub fn participant_detail_in(ledger: &Ledger, actor_id: u64, window: &YearWindow) -> (answer: Result<
    UserDetail,
    StatsError,
>)
    requires
        ledger@.history.len() * 100 <= u64::MAX,
    ensures
        match answer {
            Ok(detail) => ledger@.knows(actor_id) && detail@ == window@.spec_detail(
                ledger@,
                actor_id,
            ),
            Err(error) => !ledger@.knows(actor_id) && error == StatsError::UnknownActor,
        },
{
    let p = match ledger.participant(actor_id) {
        Some(p) => p,
        None => {
            return Err(StatsError::UnknownActor);
        },
    };
    let days = window.total_days();
    let begin = window.begin();
    let end = window.end();
    let yearly = count_in(ledger, actor_id, begin, end);
    proof {
        ledger@.history.lemma_filter_len(in_range(actor_id, begin, end));
        assert(yearly * 100 / (days as int) <= yearly * 100) by (nonlinear_arith)
            requires
                days >= 1,
                yearly >= 0,
        ;
    }
    let ratio: u64 = yearly * 100 / (days as u64);
    Ok(
        UserDetail {
            name: p.name.clone(),
            longest_streak: p.streak.longest,
            current_streak: p.streak.current,
            year: window.year(),
            yearly_count: yearly,
            yearly_ratio: ratio,
            total_count: p.count,
            missing_days: missing_days(ledger, actor_id, window),
        },
    )
}

/// The detail of the actor in the present year, as seen at the instant
/// `now`. An actor who was never registered has none.
pub fn participant_detail(ledger: &Ledger, actor_id: u64, now: DateTime) -> (answer: Result<
    UserDetail,
    StatsError,
>)
    requires
        ledger@.history.len() * 100 <= u64::MAX,
    ensures
        match answer {
            Ok(detail) => {
                &&& ledger@.knows(actor_id)
                &&& spec_year_window(
                    None,
                    now@.in_zone(ledger@.offset).local_day(),
                    civil_from_days(now@.in_zone(ledger@.offset).local_day() as i32),
                    ledger@.offset,
                ) matches Some(window)
                &&& detail@ == window.spec_detail(ledger@, actor_id)
            },
            Err(StatsError::UnknownActor) => !ledger@.knows(actor_id),
            Err(StatsError::UnsupportedDate) => ledger@.knows(actor_id) && spec_year_window(
                None,
                now@.in_zone(ledger@.offset).local_day(),
                civil_from_days(now@.in_zone(ledger@.offset).local_day() as i32),
                ledger@.offset,
            ) is None,
        },
{
    if ledger.position_of(actor_id).is_none() {
        return Err(StatsError::UnknownActor);
    }
    match year_window(None, now, ledger.zone()) {
        Some(window) => participant_detail_in(ledger, actor_id, &window),
        None => Err(StatsError::UnsupportedDate),
    }
}

/// An identifier lies in the span of a day exactly if it falls on that day.
pub proof fn lemma_day_of_id(id: int, day: int, offset: int)
    ensures
        spec_day_start(day, offset) <= id < spec_day_start(day + 1, offset) <==> spec_date_of(
            id,
            offset,
        ) == day,
{
}

/// A day of the window is missing exactly if the history holds no event of
/// the actor that is dated to it. So the missing days that are listed are
/// the dates of the window on which the participant has no counted event,
/// all of them and no others.
pub proof fn lemma_missing_day_has_no_event(
    window: YearWindowView,
    ledger: LedgerView,
    actor_id: u64,
    k: int,
)
    requires
        window.wf(),
        ledger.wf(),
        ledger.offset == window.offset,
        0 <= k < window.days,
    ensures
        window.spec_missing(ledger, actor_id).contains(k) <==> !exists|i: int|
            0 <= i < ledger.history.len() && (#[trigger] ledger.history[i]).actor_id == actor_id
                && ledger.history[i].date == window.date(k),
{
    let begin = window.begin() as i64;
    let end = window.end() as i64;
    let wanted = in_range(actor_id, begin, end);
    let kept = ledger.history.filter(wanted);
    let ids = window.ids_of(ledger, actor_id);
    let all = Seq::new(window.days as nat, |k: int| k);
    let gap = crate::gaps::is_gap(ids, window.begin(), DAY_TICKS as int);
    let lo = crate::gaps::window_begin(window.begin(), DAY_TICKS as int, k);
    let hi = crate::gaps::window_begin(window.begin(), DAY_TICKS as int, k + 1);
    lemma_window_span(window, k);
    lemma_window_span(window, k + 1);
    lemma_window_span(window, window.days);
    assert(window.begin() <= lo && hi <= window.end()) by (nonlinear_arith)
        requires
            lo == window.begin() + k * DAY_TICKS,
            hi == window.begin() + (k + 1) * DAY_TICKS,
            window.end() == window.begin() + window.days * DAY_TICKS,
            0 <= k < window.days,
    ;
    assert(all[k] == k);
    if window.spec_missing(ledger, actor_id).contains(k) {
        all.lemma_filter_contains_rev(gap, k);
    } else if gap(k) {
        all.lemma_filter_contains(gap, k);
    }
    assert(window.spec_missing(ledger, actor_id).contains(k) <==> gap(k));
    if crate::gaps::any_within(ids, lo, hi) {
        let j = choose|j: int| 0 <= j < ids.len() && lo <= (#[trigger] ids[j]) < hi;
        ledger.history.lemma_filter_contains_rev(wanted, kept[j]);
        let i = choose|i: int| 0 <= i < ledger.history.len() && ledger.history[i] == kept[j];
        ledger.history.lemma_filter_pred(wanted, j);
        lemma_day_of_id(ids[j] as int, window.first_day + k, window.offset);
        assert(ledger.history[i].actor_id == actor_id && ledger.history[i].date == window.date(k));
    }
    if exists|i: int|
        0 <= i < ledger.history.len() && (#[trigger] ledger.history[i]).actor_id == actor_id
            && ledger.history[i].date == window.date(k) {
        let i = choose|i: int|
            0 <= i < ledger.history.len() && (#[trigger] ledger.history[i]).actor_id == actor_id
                && ledger.history[i].date == window.date(k);
        let record = ledger.history[i];
        lemma_day_of_id(record.event_id as int, window.first_day + k, window.offset);
        assert(wanted(record));
        ledger.history.lemma_filter_contains(wanted, i);
        let j = choose|j: int| 0 <= j < kept.len() && kept[j] == record;
        assert(ids[j] == record.event_id);
        assert(lo <= ids[j] < hi);
    }
}

} // verus!

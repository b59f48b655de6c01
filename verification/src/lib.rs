//! The engine of a community bot that tracks a daily check-in.
//!
//! Events come from a paginated, time-ordered source. The backfill
//! controller catches up with the source from a cursor, the validator tells
//! which events count as a check-in, and the ledger records each counted
//! event once and keeps the running streak of each participant. Rankings,
//! yearly counts and the days a participant missed are read from the ledger.
//!
//! The library does no input or output. Time comes in as an argument, pages
//! come in as values, and what is to be fetched next goes out as a value.
//!
//! Beside the engine stand the other decisions of the bot, each on plain
//! values: how the commands read their arguments, how a scheduled event is
//! mirrored into the calendars of its attendees, the texts of a conversation
//! with a language model, the rewriting of links, and the names that the
//! login flow goes by.

pub mod auth;
pub mod backfill;
pub mod chat;
pub mod command;
pub mod event;
pub mod gaps;
pub mod ingestion;
pub mod ledger;
pub mod links;
pub mod live;
pub mod mirror;
pub mod order;
pub mod snowflake;
pub mod stats;
pub mod streak;
pub mod time;

pub use auth::{RedirectUrl, RsAlgorithm};
pub use backfill::{BackfillAction, BackfillController, BackfillError};
pub use command::{ApplicationCommandOptionType, CommandDataOptionHelper, OptionValue};
pub use event::Event;
pub use ingestion::IngestionState;
pub use ledger::{HistoryRecord, Ledger, Participant, RecordOutcome};
pub use live::{largest_user_id, on_event, register_members, LiveAction, Member};
pub use snowflake::{add_duration, encode, from_snowflakes, IntoSnowflakes};
pub use stats::{MissingDays, StatsError, StreakBasis, UserDetail, YearWindow, YearlyStat, YearlyStats};
pub use streak::{advance, StreakState};
pub use time::{CivilDate, Date, DateTime, Duration, UtcOffset};

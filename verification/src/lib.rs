//! A recurring-job scheduling engine: cron schedules over a proleptic
//! Gregorian calendar, a registry of armed jobs, and the state machine that
//! decides what a daemon dispatches on each wake-up.

pub mod calendar;
pub mod text;
pub mod field;
pub mod schedule;
pub mod search;
pub mod registry;
pub mod dispatch;
pub mod shutdown;
pub mod scheduler;
pub mod events;
pub mod executor;

//! Skedgy: a task scheduler whose scheduling logic is verified.
//!
//! Tasks run at a point in time, after a delay, or on a cron pattern.
//! Times are milliseconds since the Unix epoch (UTC) and delays are
//! milliseconds. The scheduler itself is a state machine: the caller feeds
//! it commands and the current time, sleeps as it plans, and runs the
//! batches it hands out.
pub mod builder;
pub mod config;
pub mod context;
pub mod cron_schedule;
pub mod dep;
pub mod dep_store;
pub mod error;
pub mod laws;
pub mod ordering;
pub mod scheduler;
pub mod state;
pub mod table;
pub mod task;
pub mod task_macro;
pub mod time;

pub use builder::{ScheduleBuilder, ScheduleType, SkedgyTaskBuilder};
pub use config::SkedgyConfig;
pub use context::SkedgyContext;
pub use cron_schedule::CronSchedule;
pub use dep::Dep;
pub use dep_store::DependencyStore;
pub use error::SkedgyError;
pub use ordering::merge_by_time;
pub use scheduler::{dispatch_list, earliest_wakeup, SkedgyCommand, SkedgyScheduler, TickPlan};
pub use state::SkedgyState;
pub use table::Schedules;
pub use task::{Metadata, SkedgyTask, TaskKind};
pub use task_macro::{
    dependency_flags, get_dependency_type, get_struct_name_ident, is_dependency_type, FnArgShape,
    GenericArgShape, PathSegmentShape, TypeShape,
};
pub use time::{now_millis, IntoDateTime, IntoDuration, CRON_AFTER_MAX, MAX_MILLIS, MIN_MILLIS};

//! The scheduler: user programs take turns, sleep, exit and fault without harm to each other.

pub mod gate;
pub mod persistent;
pub mod state;

pub use gate::{PersistentExecutableReport, SchedulerError, SchedulerReport};
pub use persistent::PERSISTENT_EXECUTABLE_PATH;

//! A scheduler that drives an ordered chain of timers from the user's idle
//! time, with modules that may veto or stop the chain, and the data and
//! handlers of a protocol that edits the chain while it runs.
pub mod chain;
pub mod cmd_timer;
pub mod error;
pub mod laws;
pub mod modules;
pub mod observers;
pub mod scheduler;
pub mod socket;
pub mod timers;

pub use chain::Action;
pub use error::Error;
pub use modules::{Module, Progress, TimerInfo};
pub use scheduler::Xidlehook;
pub use timers::Timer;

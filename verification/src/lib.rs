//! A timer for sequential, named events, with a verified report formatter.
//!
//! A [`Timer`] records a linear sequence of named events. `start` opens a new
//! event, closing the one before it if it is still open; `finish` closes the
//! open event; `render` produces a textual breakdown of the closed events,
//! most expensive first, with truncated percentages of the total time and a
//! warning line when an event was left open.

pub mod digits;
pub mod laws;
pub mod report;
pub mod sorting;
pub mod timer;

pub use report::format_report;
pub use timer::Timer;

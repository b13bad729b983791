//! Reconstructs structured work-session records from a comma/newline-delimited
//! plain-text clock log, and turns them into paired clock-in/clock-out
//! intervals with minute-resolution elapsed-time arithmetic, including spans
//! that cross midnight.

pub mod clockin;
pub mod date;
pub mod err;
pub mod gob;
pub mod groups;
pub mod interval;
pub mod parse;
pub mod s_time;
mod text;

pub use clockin::{read_date, read_string, AllData, ClockAction, Clockin, InData, LineClockAction};
pub use date::Date;
pub use err::{LineErr, TokErr};
pub use groups::Groups;
pub use interval::{reconstruct_intervals, Anomaly, Interval, Reconstruction};
pub use s_time::STime;

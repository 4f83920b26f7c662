//! Counts the calendar days in a half-open interval of UTC instants whose
//! weekday lies in an allowed set and whose date is not excluded, either as
//! an exact `YYYY-MM-DD` date or as a yearly-repeating `*-MM-DD` pattern.

pub mod counter;
pub mod date;
pub mod pattern;
mod timestamp;

pub use counter::find_difference;

pub use date::Date;
pub use date::MAX_EPOCH_DAY;
pub use date::MAX_TIMESTAMP;
pub use date::MAX_YEAR;
pub use date::MIN_EPOCH_DAY;
pub use date::MIN_TIMESTAMP;
pub use date::MIN_YEAR;

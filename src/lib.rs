//! Turns symbolic descriptions of "when" into calendar dates, and settles a
//! noisy structured-output service's answers by repeated sampling and quorum.

pub mod date;
pub mod when;
pub mod consensus;
pub mod prompt;
pub mod event;

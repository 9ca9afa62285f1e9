//! The other facts of a calendar event that the oracle is asked for.

use vstd::prelude::*;

verus! {

/// A time of day on the 24-hour clock: hour 0 to 23, minute 0 to 59.
#[derive(Clone, Copy, Debug, PartialEq, Eq, Structural)]
pub struct Time24Hr {
    pub hour: u8,
    pub minute: u8,
}

#[derive(Clone, Copy, Debug, PartialEq, Eq, Structural)]
pub enum AmPm {
    Am,
    Pm,
}

/// A time of day on the 12-hour clock: hour 0 to 12, minute 0 to 59.
#[derive(Clone, Copy, Debug, PartialEq, Eq, Structural)]
pub struct TimeAmPm {
    pub hour: u8,
    pub minute: u8,
    pub am_pm: AmPm,
}

#[derive(Clone, Copy, Debug, PartialEq, Eq, Structural)]
pub enum CalTime {
    Unspecified,
    TimeWith24Hr(Time24Hr),
    TimeWithAmPm(TimeAmPm),
}

/// The name of an event.
#[derive(Clone, Debug, Default, PartialEq, Eq)]
pub struct Namer {
    pub event_name: String,
}

/// The people attending an event.
#[derive(Clone, Debug, Default, PartialEq, Eq)]
pub struct Names {
    pub names: Vec<String>,
}

/// Where an event takes place, if anywhere.
#[derive(Clone, Debug, Default, PartialEq, Eq)]
pub enum Location {
    #[default]
    Unspecified,
    Location(String),
}

/// The words the oracle uses for a place it could not find.
pub open spec fn is_placeholder(s: Seq<char>) -> bool {
    s == "Unknown"@ || s == "unknown"@ || s == "None"@ || s == "none"@ || s == "Not Specified"@
        || s == "not specified"@
}

fn same_text(a: &String, b: &str) -> (r: bool)
    ensures
        r == (a@ == b@),
{
    let owned = b.to_owned();
    *a == owned
}

impl Location {
    /// A location named by a placeholder word is no location.
    pub fn cleanup(&mut self)
        ensures
            *final(self) == match *old(self) {
                Location::Location(s) => if is_placeholder(s@) {
                    Location::Unspecified
                } else {
                    *old(self)
                },
                Location::Unspecified => Location::Unspecified,
            },
    {
        let clear = match self {
            Location::Location(s) => same_text(s, "Unknown") || same_text(s, "unknown") || same_text(
                s,
                "None",
            ) || same_text(s, "none") || same_text(s, "Not Specified") || same_text(
                s,
                "not specified",
            ),
            Location::Unspecified => false,
        };
        if clear {
            *self = Location::Unspecified;
        }
    }
}

/// `time::UtcDateTime`, carried as it is.
#[verifier::external_type_specification]
#[verifier::external_body]
pub struct ExUtcDateTime(time::UtcDateTime);

/// An event as it would be written to a calendar.
#[derive(Debug)]
pub struct CalendarEntry {
    pub datetime: time::UtcDateTime,
    pub entry: String,
}

} // verus!

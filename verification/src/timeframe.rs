//! Named recency windows used to filter the visit log for "recent"
//! rankings.

use vstd::prelude::*;
use crate::strcmp::str_eq;

verus! {

/// A named recency window. MONTH is a 30-day approximation and YEAR a
/// 365-day approximation; neither follows the calendar.
#[derive(Clone, Copy, Debug, PartialEq, Eq, Structural)]
pub enum TimeFrame {
    HOUR,
    DAY,
    WEEK,
    MONTH,
    YEAR,
}

/// The length of a window, in milliseconds.
pub open spec fn spec_milliseconds(tf: TimeFrame) -> int {
    match tf {
        TimeFrame::HOUR => 3_600_000,
        TimeFrame::DAY => 86_400_000,
        TimeFrame::WEEK => 604_800_000,
        TimeFrame::MONTH => 2_592_000_000,
        TimeFrame::YEAR => 31_536_000_000,
    }
}

impl TimeFrame {
    /// The fixed length of this window, in milliseconds.
    pub fn get_milliseconds(&self) -> (ms: i64)
        ensures
            ms == spec_milliseconds(*self),
    {
        match self {
            TimeFrame::HOUR => 1000 * 3600,
            TimeFrame::DAY => 1000 * 3600 * 24,
            TimeFrame::WEEK => 1000 * 3600 * 24 * 7,
            TimeFrame::MONTH => 1000 * 3600 * 24 * 30,
            TimeFrame::YEAR => 1000 * 3600 * 24 * 365,
        }
    }

    /// What `from_label` returns: the window whose label the string is,
    /// or nothing for any other string.
    pub open spec fn spec_from_label(label: Seq<char>) -> Option<TimeFrame> {
        if label == "HOUR"@ {
            Some(TimeFrame::HOUR)
        } else if label == "DAY"@ {
            Some(TimeFrame::DAY)
        } else if label == "WEEK"@ {
            Some(TimeFrame::WEEK)
        } else if label == "MONTH"@ {
            Some(TimeFrame::MONTH)
        } else if label == "YEAR"@ {
            Some(TimeFrame::YEAR)
        } else {
            None
        }
    }

    /// Parses a window from its label. The case must match exactly as
    /// defined; any other string is rejected.
    pub fn from_label(label: &str) -> (r: Option<TimeFrame>)
        ensures
            r == Self::spec_from_label(label@),
    {
        if str_eq(label, "HOUR") {
            Some(TimeFrame::HOUR)
        } else if str_eq(label, "DAY") {
            Some(TimeFrame::DAY)
        } else if str_eq(label, "WEEK") {
            Some(TimeFrame::WEEK)
        } else if str_eq(label, "MONTH") {
            Some(TimeFrame::MONTH)
        } else if str_eq(label, "YEAR") {
            Some(TimeFrame::YEAR)
        } else {
            None
        }
    }
}

} // verus!

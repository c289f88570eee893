//! Time windows: a symbolic unit stands for a fixed number of seconds, and a
//! window of that length ending now begins at the cutoff.

use crate::parsing::ReadingTime;
use vstd::prelude::*;

verus! {

/// The length of a window. The set is closed: there are these four and no others.
#[derive(Clone, Copy, Debug, PartialEq, Eq, Structural)]
pub enum PlotTimeUnit {
    Year,
    Month,
    Day,
    Hour,
}

/// The token `year`, in ASCII.
pub open spec fn year_token() -> Seq<u8> {
    seq![0x79u8, 0x65u8, 0x61u8, 0x72u8]
}

/// The token `month`, in ASCII.
pub open spec fn month_token() -> Seq<u8> {
    seq![0x6du8, 0x6fu8, 0x6eu8, 0x74u8, 0x68u8]
}

/// The token `day`, in ASCII.
pub open spec fn day_token() -> Seq<u8> {
    seq![0x64u8, 0x61u8, 0x79u8]
}

/// The token `hour`, in ASCII.
pub open spec fn hour_token() -> Seq<u8> {
    seq![0x68u8, 0x6fu8, 0x75u8, 0x72u8]
}

/// The unit that a token names, if it names one.
pub open spec fn unit_of_token(token: Seq<u8>) -> Option<PlotTimeUnit> {
    if token == year_token() {
        Some(PlotTimeUnit::Year)
    } else if token == month_token() {
        Some(PlotTimeUnit::Month)
    } else if token == day_token() {
        Some(PlotTimeUnit::Day)
    } else if token == hour_token() {
        Some(PlotTimeUnit::Hour)
    } else {
        None
    }
}

impl PlotTimeUnit {
    /// The length of the window in seconds. A year counts 365 days and a
    /// month 30: the lengths are fixed, not those of the calendar.
    pub open spec fn seconds(self) -> int {
        match self {
            PlotTimeUnit::Year => 365 * 86_400int,
            PlotTimeUnit::Month => 30 * 86_400int,
            PlotTimeUnit::Day => 86_400,
            PlotTimeUnit::Hour => 3_600,
        }
    }

    /// The length of the window in seconds.
    pub fn to_seconds(&self) -> (r: i64)
        ensures
            r == self.seconds(),
            *self == PlotTimeUnit::Year ==> r == 31_536_000,
            *self == PlotTimeUnit::Month ==> r == 2_592_000,
            *self == PlotTimeUnit::Day ==> r == 86_400,
            *self == PlotTimeUnit::Hour ==> r == 3_600,
    {
        match self {
            PlotTimeUnit::Year => 31_536_000,
            PlotTimeUnit::Month => 2_592_000,
            PlotTimeUnit::Day => 86_400,
            PlotTimeUnit::Hour => 3_600,
        }
    }

    /// Reads a unit from its token: one of `year`, `month`, `day`, `hour`, in
    /// lower case and with nothing around it. Any other token names no unit.
    pub fn from_token(token: &[u8]) -> (r: Option<PlotTimeUnit>)
        ensures
            r == unit_of_token(token@),
    {
        let n: usize = token.len();
        if n == 4 && token[0] == 0x79 && token[1] == 0x65 && token[2] == 0x61 && token[3] == 0x72 {
            assert(token@ =~= year_token());
            Some(PlotTimeUnit::Year)
        } else if n == 5 && token[0] == 0x6d && token[1] == 0x6f && token[2] == 0x6e && token[3]
            == 0x74 && token[4] == 0x68 {
            assert(token@ =~= month_token());
            Some(PlotTimeUnit::Month)
        } else if n == 3 && token[0] == 0x64 && token[1] == 0x61 && token[2] == 0x79 {
            assert(token@ =~= day_token());
            Some(PlotTimeUnit::Day)
        } else if n == 4 && token[0] == 0x68 && token[1] == 0x6f && token[2] == 0x75 && token[3]
            == 0x72 {
            assert(token@ =~= hour_token());
            Some(PlotTimeUnit::Hour)
        } else {
            None
        }
    }
}

/// Where the window of length `unit` that ends at `now` begins, in unix
/// seconds. Readings sent after the cutoff are inside the window.
pub fn cutoff(now: ReadingTime, unit: PlotTimeUnit) -> (r: i64)
    ensures
        r == now@ - unit.seconds(),
{
    now.timestamp() - unit.to_seconds()
}

} // verus!

//! Explicit time. Open intervals use sentinels, never an absent value.
use vstd::prelude::*;

use crate::text::{int_text, show_i64};

verus! {

/// Unix milliseconds, UTC.
#[derive(Debug, Clone, Copy, PartialEq, Eq, PartialOrd, Ord, Hash, Structural)]
pub struct Timestamp(pub i64);

/// Sentinel for the beginning of time, in milliseconds: one above the least
/// `i64`.
pub const TIME_MIN: i64 = -9223372036854775807;

/// Sentinel for the end of time, or "still true", in milliseconds: one below
/// the greatest `i64`.
pub const TIME_MAX: i64 = 9223372036854775806;

impl DeepView for Timestamp {
    type V = Timestamp;

    open spec fn deep_view(&self) -> Timestamp {
        *self
    }
}

impl Timestamp {
    pub fn from_millis(m: i64) -> (r: Self)
        ensures
            r.0 == m,
    {
        Timestamp(m)
    }

    pub fn millis(self) -> (r: i64)
        ensures
            r == self.0,
    {
        self.0
    }

    pub fn is_min(self) -> (r: bool)
        ensures
            r == (self.0 == TIME_MIN),
    {
        self.0 == TIME_MIN
    }

    pub fn is_max(self) -> (r: bool)
        ensures
            r == (self.0 == TIME_MAX),
    {
        self.0 == TIME_MAX
    }

    /// How the time is shown: the sentinels as infinities, any other time as
    /// its number of milliseconds.
    pub open spec fn shown(self) -> Seq<char> {
        if self.0 == TIME_MIN {
            "-infinity"@
        } else if self.0 == TIME_MAX {
            "+infinity"@
        } else {
            int_text(self.0 as int)
        }
    }

    pub fn to_text(self) -> (r: String)
        ensures
            r@ == self.shown(),
    {
        if self.is_min() {
            "-infinity".to_owned()
        } else if self.is_max() {
            "+infinity".to_owned()
        } else {
            show_i64(self.0)
        }
    }
}

/// The sentinels enclose every time that is neither a sentinel nor an extreme
/// `i64`, and neither is itself an extreme `i64`.
pub proof fn law_sentinels_enclose_time(t: Timestamp)
    requires
        t.0 != i64::MIN,
        t.0 != i64::MAX,
    ensures
        TIME_MIN <= t.0 <= TIME_MAX,
        TIME_MIN < TIME_MAX,
        TIME_MIN != i64::MIN,
        TIME_MAX != i64::MAX,
{
}

} // verus!

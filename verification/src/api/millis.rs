//! Times as the API reports them.

use vstd::prelude::*;

verus! {

/// A number of milliseconds with two decimals.
#[derive(Clone, Copy, Debug, PartialEq, Eq, Structural)]
pub struct Millis {
    pub hundredths: u64,
}

/// A time in nanoseconds, rounded to hundredths of a millisecond. Half a hundredth
/// is rounded up.
pub open spec fn rounded(nanos: u64) -> Millis {
    Millis { hundredths: ((nanos + 5_000) / 10_000) as u64 }
}

/// Rounds a time in nanoseconds to hundredths of a millisecond.
pub fn round2(nanos: u64) -> (r: Millis)
    ensures
        r == rounded(nanos),
{
    let whole: u64 = nanos / 10_000;
    if nanos % 10_000 >= 5_000 {
        Millis { hundredths: whole + 1 }
    } else {
        Millis { hundredths: whole }
    }
}

impl Millis {
    /// The time in nanoseconds.
    pub open spec fn nanos(self) -> int {
        self.hundredths * 10_000
    }

    /// The time in whole microseconds.
    pub open spec fn micros(self) -> int {
        self.hundredths * 10
    }
}

/// A reported time is within half a hundredth of a millisecond of the measured one.
pub proof fn law_rounding_error(nanos: u64)
    ensures
        rounded(nanos).nanos() - 5_000 <= nanos < rounded(nanos).nanos() + 5_000,
{
}

} // verus!

//! Market data ingestion settings.
use std::time::Duration;
use vstd::prelude::*;

use crate::durations::{duration_from_secs, seconds};

verus! {

/// Emits a synthetic random-walk tick for each watched symbol on a fixed
/// interval, so the full pipeline can run before a real market data
/// subscription exists. It does not reflect real market prices.
pub struct MockFeed {
    pub symbols: Vec<String>,
    pub interval: Duration,
}

impl MockFeed {
    /// A feed over `symbols` ticking once a second.
    pub fn new(symbols: Vec<String>) -> (f: Self)
        ensures
            f.symbols == symbols,
            f.interval == seconds(1),
    {
        MockFeed { symbols, interval: duration_from_secs(1) }
    }
}

/// Remainder of `a` divided by `b`, truncated toward zero (Rust's `%`).
pub open spec fn trunc_rem(a: int, b: int) -> int {
    if a >= 0 {
        a % b
    } else {
        -((-a) % b)
    }
}

/// The mock feed's price step, in hundredths of a price unit, drawn from the
/// clock's nanoseconds: between -10 and 10 for any time after the epoch.
pub fn jitter_hundredths(nanos: i64) -> (j: i64)
    ensures
        j == trunc_rem(nanos as int, 21) - 10,
        nanos >= 0 ==> -10 <= j <= 10,
{
    let r: i64 = nanos % 21;
    r - 10
}

} // verus!

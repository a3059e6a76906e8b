//! Error kinds of the charting pipeline. Unparseable timestamps are not
//! errors: such a row's timestamp counts as missing and the row is excluded
//! from every per-quantity series.

use vstd::prelude::*;

verus! {

/// Why a chart, or one of its panels, could not be produced.
#[derive(Clone, Copy, Debug, PartialEq, Eq, Structural)]
pub enum ChartError {
    /// A required computation (the axis range) was handed zero valid
    /// timestamps.
    EmptyInput,
    /// A present value of the charted quantity could not be read as a
    /// number; this aborts the whole chart for the input at hand.
    TypeConversion,
    /// The charted quantity has zero non-null values across all sensors, so
    /// no y-range exists.
    NoData,
    /// The drawing surface was not partitioned into the required number of
    /// panel regions.
    Layout,
}

} // verus!

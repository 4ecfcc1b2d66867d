//! Decoded sentences, as the forwarder looks at them.
//!
//! Angles are whole numbers of hundred-thousandths of a minute of arc, the
//! finest step that a position report can show; speed and course are tenths
//! of a knot and of a degree.

use vstd::prelude::*;

verus! {

/// Hundred-thousandths of a minute of arc in one degree.
pub const UNITS_PER_DEGREE: u64 = 6_000_000;

/// Hundred-thousandths of a minute of arc in one minute.
pub const UNITS_PER_MINUTE: u64 = 100_000;

/// A point in time on the UTC calendar.
///
/// `second` counts from 0 to 59; during a leap second it stays at 59 and
/// `nanosecond` runs from 1,000,000,000 to 1,999,999,999.
#[derive(Clone, Copy, Debug, PartialEq, Eq, Structural)]
pub struct UtcTime {
    pub year: i32,
    pub month: u32,
    pub day: u32,
    pub hour: u32,
    pub minute: u32,
    pub second: u32,
    pub nanosecond: u32,
}

/// A sentence after decoding.
#[derive(Clone, Copy, Debug, PartialEq, Eq)]
pub enum ParsedMessage {
    /// A position report of a vessel.
    VesselDynamicData { mmsi: u32, own_vessel: bool, latitude: Option<i64>, longitude: Option<i64> },
    /// The name and the dimensions of a vessel.
    VesselStaticData { mmsi: u32, own_vessel: bool },
    /// A position from the vessel's own GNSS receiver.
    Rmc {
        timestamp: Option<UtcTime>,
        latitude: Option<i64>,
        longitude: Option<i64>,
        sog_knots: Option<i64>,
        bearing: Option<i64>,
    },
    /// A part of a sentence whose other parts are still to come.
    Incomplete,
    /// Any other sentence.
    Unsupported,
}

} // verus!

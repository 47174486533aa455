//! Rational media timebases and the timestamps, spans and ranges counted in
//! them.

pub mod arith;
pub mod laws;
pub mod model;
pub mod parse;
pub mod primitives;
pub mod roster;
pub mod roster_laws;
pub mod round_trip;
pub mod timebase;
pub mod time_range;
pub mod text;
pub mod timestamp;
pub mod varint;
pub mod wire;

pub use parse::{
    ParseRateError, ParseSignedDurationError, ParseTimeRangeError, ParseTimebaseError,
    ParseTimestampError,
};
pub use timebase::{Rate, Timebase};
pub use time_range::TimeRange;
pub use timestamp::{SignedDuration, Timestamp};

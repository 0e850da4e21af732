//! Exact-value analytics for a tracker of physiological measurements:
//! lossless fractions, unit normalisation, field-wise summary statistics and
//! the grouping of readings into the periods of a day.

pub mod daily;
pub mod datetime;
pub mod decimal;
pub mod display;
pub mod entry;
pub mod form;
pub mod fraction;
pub mod intparse;
pub mod measurement;
pub mod model;
pub mod numbers;
pub mod order;
pub mod rational;
pub mod routing;
pub mod stats;
pub mod units;

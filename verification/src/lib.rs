//! Core of a personal weight/impedance tracking service: given a sparse,
//! irregularly dated set of measurements and a requested date window, the
//! library builds a gap-filled daily series aligned to calendar days, flags
//! duplicate same-day entries, and computes a linear trend with summary
//! statistics over the observed values.
//!
//! Weights and impedances are carried as integer counts of thousandths of
//! the unit (so a weight of 80.5 kg is the value 80500); timestamps are
//! carried as the local calendar day they fall on. The surrounding service
//! converts at its edges.

pub mod chart;
pub mod configuration;
pub mod csv;
pub mod date;
pub mod domain;
pub mod error;
pub mod table;

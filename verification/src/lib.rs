//! Normalisation of multi-resolution energy-consumption telemetry into one
//! time-ordered collection of priced measurements.
//!
//! The pipeline runs leaf-first through the modules of this crate:
//! [`utils`] repairs the date literals of a raw payload, [`model`] holds the
//! typed snapshot, [`index`] indexes a series by timestamp, [`time`] turns
//! civil Helsinki time into UTC, [`price`] resolves the price that holds at
//! an instant, [`measurement`] assembles the records and [`normalize`]
//! merges them. [`export`] decides what a time-series database gets to see
//! of each record. [`sorted`] holds the theory of ordered sequences that
//! the index and the output share.
//!
//! Readings and prices are carried as an opaque type parameter; the crate
//! never computes on them except through a scaling function that the caller
//! supplies.

pub mod config;
pub mod error;
pub mod export;
pub mod index;
pub mod measurement;
pub mod model;
pub mod normalize;
pub mod price;
pub mod sorted;
pub mod time;
pub mod utils;

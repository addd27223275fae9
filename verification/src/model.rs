//! The typed snapshot of one telemetry feed: four resolutions, each with its
//! consumption series per tariff bucket, a status series and a temperature
//! series, and the price lists.
//!
//! `V` is the type of a reading or a price. Nothing here looks inside it.

use vstd::prelude::*;

use crate::measurement::Resolution;
use crate::time::UtcInstant;

verus! {

/// One point of a series: local epoch milliseconds and the value read then.
#[derive(Clone, Copy, Debug, PartialEq)]
pub struct RawSample<T> {
    pub timestamp: i64,
    pub value: T,
}

/// A series as the feed delivers it, in no particular order and possibly
/// with repeated timestamps.
#[derive(Clone, Debug, PartialEq)]
pub struct Measurements<T> {
    pub data: Vec<RawSample<T>>,
}

/// The consumption series of one tariff bucket, with the bucket's label.
#[derive(Clone, Debug, PartialEq)]
pub struct Consumption<V> {
    pub series: Measurements<V>,
    pub tariff_time_zone_name: String,
}

/// Everything the feed holds for one resolution.
#[derive(Clone, Debug, PartialEq)]
pub struct OneResolution<V> {
    pub consumptions: Vec<Consumption<V>>,
    pub consumption_statuses: Measurements<u8>,
    pub temperature: Measurements<V>,
}

/// A price that holds from `start_time` to `end_time`, both included.
#[derive(Clone, Copy, Debug, PartialEq)]
pub struct Price<V> {
    pub start_time: UtcInstant,
    pub end_time: UtcInstant,
    pub price_no_vat: V,
    pub price_with_vat: V,
}

/// The price intervals of the two tariffs, each in priority order.
#[derive(Clone, Debug, PartialEq)]
pub struct PriceList<V> {
    pub time_based_energy_day_prices: Vec<Price<V>>,
    pub time_based_energy_night_prices: Vec<Price<V>>,
}

/// One snapshot of the feed.
#[derive(Clone, Debug, PartialEq)]
pub struct Model<V> {
    pub hours: OneResolution<V>,
    pub days: OneResolution<V>,
    pub months: OneResolution<V>,
    pub years: OneResolution<V>,
    pub network_price_list: PriceList<V>,
    pub sales_price_list: Option<PriceList<V>>,
}

impl<V> Model<V> {
    /// The block of the snapshot that belongs to a resolution.
    pub open spec fn block(self, resolution: Resolution) -> OneResolution<V> {
        match resolution {
            Resolution::Hour => self.hours,
            Resolution::Day => self.days,
            Resolution::Month => self.months,
            Resolution::Year => self.years,
        }
    }

    pub fn resolution(&self, resolution: Resolution) -> (r: &OneResolution<V>)
        ensures
            *r == self.block(resolution),
    {
        match resolution {
            Resolution::Hour => &self.hours,
            Resolution::Day => &self.days,
            Resolution::Month => &self.months,
            Resolution::Year => &self.years,
        }
    }
}

} // verus!

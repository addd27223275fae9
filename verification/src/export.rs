//! What a time-series database gets to see of a record: which fields and
//! tags a data point carries, and its timestamp in nanoseconds.

use vstd::prelude::*;

use crate::measurement::{Measurement, Resolution, Tariff};

verus! {

/// One data point. A field that is `None` is left out of the point.
#[derive(Clone, Copy, Debug, PartialEq)]
pub struct DataPoint<V> {
    /// Nanoseconds since the Unix epoch, UTC.
    pub timestamp: i64,
    pub consumption: V,
    pub quality: i64,
    pub energy_price: Option<V>,
    pub transfer_price: Option<V>,
    /// The sum of the two prices, where both are known.
    pub price: Option<V>,
    pub temperature: Option<V>,
    /// The tariff tag; only hourly records carry one.
    pub tariff: Option<Tariff>,
    pub resolution: Resolution,
}

/// `total` is what `sum` made of the two prices; where one of them is
/// unknown there is no total.
pub open spec fn summed<V, F: Fn(V, V) -> V>(
    energy: Option<V>,
    transfer: Option<V>,
    sum: F,
    total: Option<V>,
) -> bool {
    if energy is Some && transfer is Some {
        total is Some && call_ensures(sum, (energy->0, transfer->0), total->0)
    } else {
        total is None
    }
}

/// `point` is the data point of `record`.
pub open spec fn point_of<V, F: Fn(V, V) -> V>(
    record: Measurement<V>,
    sum: F,
    point: DataPoint<V>,
) -> bool {
    &&& point.timestamp == record.timestamp * 1_000_000_000
    &&& point.consumption == record.consumption
    &&& point.quality == record.quality
    &&& point.energy_price == record.price.energy
    &&& point.transfer_price == record.price.transfer
    &&& summed(record.price.energy, record.price.transfer, sum, point.price)
    &&& point.temperature == record.temperature
    &&& point.tariff == if record.resolution == Resolution::Hour {
        Some(record.tariff)
    } else {
        None
    }
    &&& point.resolution == record.resolution
}

/// The name under which the points are stored.
pub fn measurement_name() -> (r: &'static str)
    ensures
        r@ == "energiatili"@,
{
    "energiatili"
}

/// The value of the tariff tag.
pub fn tariff_tag(tariff: Tariff) -> (r: &'static str)
    ensures
        r@ == match tariff {
            Tariff::Day => "day"@,
            Tariff::Night => "night"@,
        },
{
    match tariff {
        Tariff::Day => "day",
        Tariff::Night => "night",
    }
}

/// The value of the resolution tag.
pub fn resolution_tag(resolution: Resolution) -> (r: &'static str)
    ensures
        r@ == match resolution {
            Resolution::Hour => "hour"@,
            Resolution::Day => "day"@,
            Resolution::Month => "month"@,
            Resolution::Year => "year"@,
        },
{
    match resolution {
        Resolution::Hour => "hour",
        Resolution::Day => "day",
        Resolution::Month => "month",
        Resolution::Year => "year",
    }
}

/// Adds the two prices where both are known.
pub fn total_price<V: Copy, F: Fn(V, V) -> V>(energy: Option<V>, transfer: Option<V>, sum: &F) -> (total:
    Option<V>)
    requires
        forall|e: V, t: V| call_requires(*sum, (e, t)),
    ensures
        summed(energy, transfer, *sum, total),
{
    match (energy, transfer) {
        (Some(e), Some(t)) => Some(sum(e, t)),
        _ => None,
    }
}

/// Makes the data point of a record. `sum` adds two prices. There is no
/// data point where the timestamp in nanoseconds does not fit 64 bits.
pub fn convert<V: Copy, F: Fn(V, V) -> V>(record: &Measurement<V>, sum: &F) -> (r: Option<
    DataPoint<V>,
>)
    requires
        forall|e: V, t: V| call_requires(*sum, (e, t)),
    ensures
        match r {
            Some(point) => point_of(*record, *sum, point),
            None => record.timestamp * 1_000_000_000 < i64::MIN || record.timestamp * 1_000_000_000
                > i64::MAX,
        },
{
    let nanos: i128 = (record.timestamp as i128) * 1_000_000_000;
    if nanos < -0x8000_0000_0000_0000 || nanos > 0x7fff_ffff_ffff_ffff {
        return None;
    }
    let tariff = match record.resolution {
        Resolution::Hour => Some(record.tariff),
        _ => None,
    };
    Some(
        DataPoint {
            timestamp: nanos as i64,
            consumption: record.consumption,
            quality: record.quality as i64,
            energy_price: record.price.energy,
            transfer_price: record.price.transfer,
            price: total_price(record.price.energy, record.price.transfer, sum),
            temperature: record.temperature,
            tariff,
            resolution: record.resolution,
        },
    )
}

} // verus!

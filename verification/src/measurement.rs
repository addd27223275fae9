//! The canonical records: what one of them holds, how it is assembled from
//! a consumption sample, and the collection that keeps them in order.

use vstd::prelude::*;

use crate::error::Error;
use crate::index::{sample_key, value_at, TimeIndex};
use crate::model::{Model, RawSample};
use crate::price::{covers, find_price, lemma_first_covering, tariff_prices, unit_price};
use crate::sorted::{
    ascending, find_last, lemma_found_is_element, lemma_upsert_ascending, lemma_upsert_at,
    lemma_upsert_position, upsert, upsert_all, upsert_position,
};
use crate::time::{convert_timestamp, utc_of_local_millis};

verus! {

/// The granularity over which the feed has summed a series.
#[derive(Clone, Copy, Debug, PartialEq, Eq)]
pub enum Resolution {
    Hour,
    Day,
    Month,
    Year,
}

/// The pricing zone of a consumption sample.
#[derive(Clone, Copy, Debug, PartialEq, Eq)]
pub enum Tariff {
    Day,
    Night,
}

/// What a reading costs: for the transfer of the energy and for the energy
/// itself. Either side may be unknown.
#[derive(Clone, Copy, Debug, PartialEq)]
pub struct Price<V> {
    pub transfer: Option<V>,
    pub energy: Option<V>,
}

/// One canonical record.
#[derive(Clone, Copy, Debug, PartialEq)]
pub struct Measurement<V> {
    /// Time of measurement, in seconds since the Unix epoch, UTC.
    pub timestamp: i64,
    /// Electricity consumption in kWh.
    pub consumption: V,
    /// Status of the reading; 0 where none was reported.
    pub quality: u8,
    /// Outside temperature, where one was reported.
    pub temperature: Option<V>,
    /// Day or night pricing.
    pub tariff: Tariff,
    /// Time resolution.
    pub resolution: Resolution,
    /// Price of the consumption.
    pub price: Price<V>,
}

impl Resolution {
    /// The place of a resolution in the order of the output.
    pub open spec fn rank(self) -> int {
        match self {
            Resolution::Hour => 0,
            Resolution::Day => 1,
            Resolution::Month => 2,
            Resolution::Year => 3,
        }
    }

    pub fn rank_of(&self) -> (r: u8)
        ensures
            r == self.rank(),
    {
        match self {
            Resolution::Hour => 0,
            Resolution::Day => 1,
            Resolution::Month => 2,
            Resolution::Year => 3,
        }
    }
}

/// The tariff that a label of the feed stands for.
pub open spec fn tariff_of_label(label: Seq<char>) -> Option<Tariff> {
    if label == "Päivä"@ {
        Some(Tariff::Day)
    } else if label == "Yö"@ {
        Some(Tariff::Night)
    } else {
        None
    }
}

impl Tariff {
    /// The place of a tariff in the order of the output.
    pub open spec fn rank(self) -> int {
        match self {
            Tariff::Day => 0,
            Tariff::Night => 1,
        }
    }

    pub fn rank_of(&self) -> (r: u8)
        ensures
            r == self.rank(),
    {
        match self {
            Tariff::Day => 0,
            Tariff::Night => 1,
        }
    }

    /// Decodes a label of the feed. Any label but the two known ones has no
    /// tariff.
    pub fn from_label(label: &str) -> (r: Option<Tariff>)
        ensures
            r == tariff_of_label(label@),
    {
        let given = label.to_owned();
        let day = "Päivä".to_owned();
        let night = "Yö".to_owned();
        if given == day {
            Some(Tariff::Day)
        } else if given == night {
            Some(Tariff::Night)
        } else {
            None
        }
    }
}

/// The record of one consumption sample with prices per unit: its UTC
/// second, the status and temperature of its timestamp or their defaults,
/// and the prices that hold at its UTC second.
pub open spec fn assembled<V>(
    ts: i64,
    consumption: V,
    statuses: Seq<RawSample<u8>>,
    temperatures: Seq<RawSample<V>>,
    tariff: Tariff,
    model: Model<V>,
    resolution: Resolution,
) -> Result<Measurement<V>, Error> {
    match utc_of_local_millis(ts) {
        Err(e) => Err(e),
        Ok(utc) => Ok(
            Measurement {
                timestamp: utc,
                consumption,
                quality: match value_at(statuses, ts) {
                    Some(q) => q,
                    None => 0,
                },
                temperature: value_at(temperatures, ts),
                tariff,
                resolution,
                price: unit_price(model, utc, tariff),
            },
        ),
    }
}

/// `cost` is what `scale` made of a price per unit and a consumption; an
/// unknown price has an unknown cost.
pub open spec fn scaled<V, F: Fn(V, V) -> V>(
    unit: Option<V>,
    consumption: V,
    scale: F,
    cost: Option<V>,
) -> bool {
    match unit {
        Some(p) => cost is Some && call_ensures(scale, (p, consumption), cost->0),
        None => cost is None,
    }
}

/// `record` is `unit` with each price per unit scaled by the consumption.
pub open spec fn priced<V, F: Fn(V, V) -> V>(
    unit: Measurement<V>,
    record: Measurement<V>,
    scale: F,
) -> bool {
    &&& record.timestamp == unit.timestamp
    &&& record.consumption == unit.consumption
    &&& record.quality == unit.quality
    &&& record.temperature == unit.temperature
    &&& record.tariff == unit.tariff
    &&& record.resolution == unit.resolution
    &&& scaled(unit.price.transfer, unit.consumption, scale, record.price.transfer)
    &&& scaled(unit.price.energy, unit.consumption, scale, record.price.energy)
}

/// Multiplies a price per unit, where there is one, by a consumption.
pub fn scale_price<V: Copy, F: Fn(V, V) -> V>(unit: Option<V>, consumption: V, scale: &F) -> (cost:
    Option<V>)
    requires
        forall|p: V, c: V| call_requires(*scale, (p, c)),
    ensures
        scaled(unit, consumption, *scale, cost),
{
    match unit {
        Some(p) => Some(scale(p, consumption)),
        None => None,
    }
}

/// Joins one consumption sample with its status, its temperature and its
/// price. `scale` multiplies a price per unit by the consumption.
pub fn build_measurement<V: Copy, F: Fn(V, V) -> V>(
    ts: i64,
    consumption: V,
    status_map: &TimeIndex<u8>,
    temperature_map: &TimeIndex<V>,
    tariff: Tariff,
    model: &Model<V>,
    resolution: Resolution,
    scale: &F,
) -> (r: Result<Measurement<V>, Error>)
    requires
        forall|p: V, c: V| call_requires(*scale, (p, c)),
    ensures
        match r {
            Ok(record) => assembled(
                ts,
                consumption,
                status_map@,
                temperature_map@,
                tariff,
                *model,
                resolution,
            ) matches Ok(unit) && priced(unit, record, *scale),
            Err(e) => assembled(
                ts,
                consumption,
                status_map@,
                temperature_map@,
                tariff,
                *model,
                resolution,
            ) == Err::<Measurement<V>, Error>(e),
        },
{
    let timestamp = match convert_timestamp(ts) {
        Ok(utc) => utc,
        Err(e) => {
            return Err(e);
        },
    };
    let quality = match status_map.get(ts) {
        Some(q) => q,
        None => 0,
    };
    let temperature = temperature_map.get(ts);
    let unit = find_price(timestamp, tariff, model);
    let price = Price {
        transfer: scale_price(unit.transfer, consumption, scale),
        energy: scale_price(unit.energy, consumption, scale),
    };
    Ok(Measurement { timestamp, consumption, quality, temperature, tariff, resolution, price })
}

/// The key of a record in the output: its timestamp first, then its
/// resolution, then its tariff. Two records of one timestamp that differ in
/// resolution or tariff have different keys.
pub open spec fn record_key<V>() -> spec_fn(Measurement<V>) -> int {
    |m: Measurement<V>| m.timestamp * 8 + m.resolution.rank() * 2 + m.tariff.rank()
}

/// The records pair off, each of `records` being the one of `units` with
/// its prices scaled.
pub open spec fn priced_seq<V, F: Fn(V, V) -> V>(
    units: Seq<Measurement<V>>,
    records: Seq<Measurement<V>>,
    scale: F,
) -> bool {
    &&& units.len() == records.len()
    &&& forall|i: int|
        #![trigger units[i]]
        #![trigger records[i]]
        0 <= i < units.len() ==> priced(units[i], records[i], scale)
}

/// Scaling the prices does not change where a record goes.
pub proof fn lemma_upsert_priced<V, F: Fn(V, V) -> V>(
    units: Seq<Measurement<V>>,
    records: Seq<Measurement<V>>,
    unit: Measurement<V>,
    record: Measurement<V>,
    scale: F,
)
    requires
        priced_seq(units, records, scale),
        priced(unit, record, scale),
    ensures
        priced_seq(
            upsert(units, unit, record_key::<V>()),
            upsert(records, record, record_key::<V>()),
            scale,
        ),
{
    let key = record_key::<V>();
    let pos = upsert_position(units, unit, key);
    lemma_upsert_position(units, unit, key);
    lemma_upsert_at(units, unit, key, pos);
    lemma_upsert_at(records, record, key, pos);
}

/// Scaling the prices does not change how two collections merge.
pub proof fn lemma_upsert_all_priced<V, F: Fn(V, V) -> V>(
    units: Seq<Measurement<V>>,
    records: Seq<Measurement<V>>,
    more_units: Seq<Measurement<V>>,
    more_records: Seq<Measurement<V>>,
    scale: F,
)
    requires
        priced_seq(units, records, scale),
        priced_seq(more_units, more_records, scale),
    ensures
        priced_seq(
            upsert_all(units, more_units, record_key::<V>()),
            upsert_all(records, more_records, record_key::<V>()),
            scale,
        ),
    decreases more_units.len(),
{
    if more_units.len() > 0 {
        let key = record_key::<V>();
        let front_units = more_units.drop_last();
        let front_records = more_records.drop_last();
        lemma_upsert_all_priced(units, records, front_units, front_records, scale);
        lemma_upsert_priced(
            upsert_all(units, front_units, key),
            upsert_all(records, front_records, key),
            more_units.last(),
            more_records.last(),
            scale,
        );
    }
}

/// The output: records in ascending order of their keys, no key twice.
#[derive(Debug)]
pub struct Measurements<V> {
    items: Vec<Measurement<V>>,
}

impl<V> Measurements<V> {
    /// The records in their order.
    pub closed spec fn view(&self) -> Seq<Measurement<V>> {
        self.items@
    }

    #[verifier::type_invariant]
    spec fn well_formed(&self) -> bool {
        ascending(self.items@, record_key::<V>())
    }
}

/// The key of a record as a machine integer.
pub fn key_of<V>(record: &Measurement<V>) -> (k: i128)
    ensures
        k == record_key::<V>()(*record),
{
    (record.timestamp as i128) * 8 + (record.resolution.rank_of() as i128) * 2 + (
    record.tariff.rank_of() as i128)
}

impl<V: Copy> Measurements<V> {
    pub fn new() -> (r: Self)
        ensures
            r@ == Seq::<Measurement<V>>::empty(),
    {
        Measurements { items: Vec::new() }
    }

    /// The number of records. They stand in ascending order of their keys.
    pub fn len(&self) -> (n: usize)
        ensures
            n == self@.len(),
            ascending(self@, record_key::<V>()),
    {
        proof {
            use_type_invariant(self);
        }
        self.items.len()
    }

    /// The `i`-th record.
    pub fn get(&self, i: usize) -> (r: Measurement<V>)
        requires
            i < self@.len(),
        ensures
            r == self@[i as int],
    {
        self.items[i]
    }

    /// The `i`-th record, if there are that many.
    pub fn record(&self, i: usize) -> (r: Option<Measurement<V>>)
        ensures
            r == if i < self@.len() {
                Some(self@[i as int])
            } else {
                None
            },
    {
        if i < self.items.len() {
            Some(self.items[i])
        } else {
            None
        }
    }

    /// The records as a vector, in their order.
    pub fn into_vec(self) -> (r: Vec<Measurement<V>>)
        ensures
            r@ == self@,
            ascending(r@, record_key::<V>()),
    {
        proof {
            use_type_invariant(&self);
        }
        self.items
    }

    /// Puts a record into the collection; it replaces the record of the
    /// same key, if there is one.
    pub fn insert(&mut self, record: Measurement<V>)
        ensures
            final(self)@ == upsert(old(self)@, record, record_key::<V>()),
            ascending(final(self)@, record_key::<V>()),
    {
        proof {
            use_type_invariant(&*self);
        }
        let mut items: Vec<Measurement<V>> = Vec::new();
        std::mem::swap(&mut items, &mut self.items);
        let ghost before = items@;
        let k: i128 = key_of(&record);
        let mut pos: usize = items.len();
        while pos > 0 && key_of(&items[pos - 1]) > k
            invariant
                pos <= items.len(),
                items@ == before,
                k == record_key::<V>()(record),
                forall|j: int|
                    pos <= j < before.len() ==> record_key::<V>()(record) < record_key::<V>()(
                        #[trigger] before[j],
                    ),
            decreases pos,
        {
            pos -= 1;
        }
        proof {
            lemma_upsert_at(before, record, record_key::<V>(), pos as int);
            lemma_upsert_ascending(before, record, record_key::<V>());
        }
        if pos > 0 && key_of(&items[pos - 1]) == k {
            items.set(pos - 1, record);
        } else {
            items.insert(pos, record);
        }
        self.items = items;
    }

    /// Puts every record of `other` into the collection, first to last.
    pub fn merge(&mut self, other: &Measurements<V>)
        ensures
            final(self)@ == upsert_all(old(self)@, other@, record_key::<V>()),
            ascending(final(self)@, record_key::<V>()),
    {
        proof {
            use_type_invariant(&*self);
        }
        let mut i: usize = 0;
        while i < other.items.len()
            invariant
                i <= other.items.len(),
                self@ == upsert_all(
                    old(self)@,
                    other.items@.subrange(0, i as int),
                    record_key::<V>(),
                ),
                ascending(self@, record_key::<V>()),
            decreases other.items.len() - i,
        {
            proof {
                let next = other.items@.subrange(0, i + 1);
                assert(next.drop_last() == other.items@.subrange(0, i as int));
            }
            self.insert(other.items[i]);
            i += 1;
        }
        assert(other.items@.subrange(0, i as int) == other.items@);
    }
}

/// Records in ascending order of their keys are in ascending order of
/// time, and two records of one key agree in timestamp, resolution and
/// tariff.
pub proof fn lemma_record_order<V>(a: Measurement<V>, b: Measurement<V>)
    ensures
        record_key::<V>()(a) < record_key::<V>()(b) ==> a.timestamp <= b.timestamp,
        record_key::<V>()(a) == record_key::<V>()(b) <==> a.timestamp == b.timestamp
            && a.resolution == b.resolution && a.tariff == b.tariff,
{
}

/// The output is in ascending order of time: no record is earlier than the
/// one before it.
pub proof fn lemma_ascending_in_time<V>(records: Seq<Measurement<V>>)
    requires
        ascending(records, record_key::<V>()),
    ensures
        forall|i: int, j: int|
            0 <= i <= j < records.len() ==> records[i].timestamp <= records[j].timestamp,
{
    assert forall|i: int, j: int| 0 <= i <= j < records.len() implies records[i].timestamp
        <= records[j].timestamp by {
        if i < j {
            lemma_record_order(records[i], records[j]);
        }
    }
}

/// The resolution of a record is a tag and no more: time, status,
/// temperature and prices come out as they do for an hourly record of the
/// same series.
pub proof fn lemma_resolution_is_a_tag<V>(
    ts: i64,
    consumption: V,
    statuses: Seq<RawSample<u8>>,
    temperatures: Seq<RawSample<V>>,
    tariff: Tariff,
    model: Model<V>,
    resolution: Resolution,
)
    ensures
        assembled(ts, consumption, statuses, temperatures, tariff, model, resolution)
            == match assembled(
            ts,
            consumption,
            statuses,
            temperatures,
            tariff,
            model,
            Resolution::Hour,
        ) {
            Ok(hourly) => Ok(Measurement { resolution, ..hourly }),
            Err(e) => Err(e),
        },
{
}

/// Where exactly one transfer-price interval contains the instant of a
/// record, the transfer cost of the record is what `scale` makes of that
/// interval's price and the record's consumption.
pub proof fn lemma_cost_in_only_interval<V, F: Fn(V, V) -> V>(
    model: Model<V>,
    unit: Measurement<V>,
    record: Measurement<V>,
    scale: F,
    i: int,
)
    requires
        unit.price == unit_price(model, unit.timestamp, unit.tariff),
        priced(unit, record, scale),
        0 <= i < tariff_prices(model.network_price_list, unit.tariff).len(),
        forall|j: int|
            0 <= j < tariff_prices(model.network_price_list, unit.tariff).len() ==> (covers(
                #[trigger] tariff_prices(model.network_price_list, unit.tariff)[j],
                unit.timestamp,
            ) <==> j == i),
    ensures
        record.price.transfer matches Some(cost) && call_ensures(
            scale,
            (
                tariff_prices(model.network_price_list, unit.tariff)[i].price_with_vat,
                record.consumption,
            ),
            cost,
        ),
{
    let list = tariff_prices(model.network_price_list, unit.tariff);
    lemma_first_covering(list, unit.timestamp, i);
}

/// A timestamp without a status sample gives quality 0, and one without a
/// temperature sample gives no temperature.
pub proof fn lemma_defaults<V>(
    ts: i64,
    consumption: V,
    statuses: Seq<RawSample<u8>>,
    temperatures: Seq<RawSample<V>>,
    tariff: Tariff,
    model: Model<V>,
    resolution: Resolution,
)
    requires
        assembled(ts, consumption, statuses, temperatures, tariff, model, resolution) is Ok,
    ensures
        (forall|i: int| 0 <= i < statuses.len() ==> (#[trigger] statuses[i]).timestamp != ts)
            ==> assembled(
            ts,
            consumption,
            statuses,
            temperatures,
            tariff,
            model,
            resolution,
        )->Ok_0.quality == 0,
        (forall|i: int| 0 <= i < temperatures.len() ==> (#[trigger] temperatures[i]).timestamp
            != ts) ==> assembled(
            ts,
            consumption,
            statuses,
            temperatures,
            tariff,
            model,
            resolution,
        )->Ok_0.temperature is None,
{
    lemma_found_is_element(statuses, sample_key::<u8>(), ts as int);
    lemma_found_is_element(temperatures, sample_key::<V>(), ts as int);
}

} // verus!

//! From a snapshot to the output: the records of every tariff bucket of
//! every resolution, merged into one collection in ascending order of time.

use vstd::prelude::*;

use crate::error::Error;
use crate::index::{time_index, values_into_map, TimeIndex, lemma_time_index};
use crate::measurement::{
    assembled, build_measurement, lemma_ascending_in_time, lemma_upsert_all_priced,
    lemma_upsert_priced, priced, priced_seq, record_key, tariff_of_label, Measurement,
    Measurements, Resolution, Tariff,
};
use crate::model::{Consumption, Model, RawSample};
use crate::sorted::{
    all_meet, ascending, distinct_keys, lemma_find_distinct, lemma_found_is_element,
    lemma_upsert_all_concat, lemma_upsert_all_finds, lemma_upsert_all_front,
    lemma_upsert_all_meets, lemma_upsert_meets, upsert, upsert_all,
};

verus! {

/// `acc` after the records of a bucket were put into it, one for each entry
/// of the bucket's time index in ascending order of timestamps. The first
/// entry without a UTC instant ends it with that entry's error.
pub open spec fn bucket_units<V>(
    acc: Seq<Measurement<V>>,
    entries: Seq<RawSample<V>>,
    tariff: Tariff,
    model: Model<V>,
    resolution: Resolution,
) -> Result<Seq<Measurement<V>>, Error>
    decreases entries.len(),
{
    if entries.len() == 0 {
        Ok(acc)
    } else {
        match assembled(
            entries[0].timestamp,
            entries[0].value,
            model.block(resolution).consumption_statuses.data@,
            model.block(resolution).temperature.data@,
            tariff,
            model,
            resolution,
        ) {
            Err(e) => Err(e),
            Ok(unit) => bucket_units(
                upsert(acc, unit, record_key::<V>()),
                entries.drop_first(),
                tariff,
                model,
                resolution,
            ),
        }
    }
}

/// `acc` after the records of some buckets of a resolution were put into
/// it, bucket after bucket.
pub open spec fn resolution_units<V>(
    acc: Seq<Measurement<V>>,
    buckets: Seq<Consumption<V>>,
    model: Model<V>,
    resolution: Resolution,
) -> Result<Seq<Measurement<V>>, Error>
    decreases buckets.len(),
{
    if buckets.len() == 0 {
        Ok(acc)
    } else {
        match tariff_of_label(buckets[0].tariff_time_zone_name@) {
            None => Err(Error::UnsupportedVariant { label: buckets[0].tariff_time_zone_name }),
            Some(tariff) => match bucket_units(
                acc,
                time_index(buckets[0].series.data@),
                tariff,
                model,
                resolution,
            ) {
                Err(e) => Err(e),
                Ok(next) => resolution_units(next, buckets.drop_first(), model, resolution),
            },
        }
    }
}

/// The first label among some buckets that stands for no tariff.
pub open spec fn first_unknown_label<V>(buckets: Seq<Consumption<V>>) -> Option<String>
    decreases buckets.len(),
{
    if buckets.len() == 0 {
        None
    } else if tariff_of_label(buckets[0].tariff_time_zone_name@) is None {
        Some(buckets[0].tariff_time_zone_name)
    } else {
        first_unknown_label(buckets.drop_first())
    }
}

/// The records of one resolution with prices per unit, or the error that
/// ends the run. An unknown label anywhere in the resolution comes before
/// any other error.
pub open spec fn one_resolution<V>(resolution: Resolution, model: Model<V>) -> Result<
    Seq<Measurement<V>>,
    Error,
> {
    match first_unknown_label(model.block(resolution).consumptions@) {
        Some(label) => Err(Error::UnsupportedVariant { label }),
        None => resolution_units(
            Seq::<Measurement<V>>::empty(),
            model.block(resolution).consumptions@,
            model,
            resolution,
        ),
    }
}

/// The first label of the snapshot that stands for no tariff, the
/// resolutions taken in their order.
pub open spec fn unknown_label<V>(model: Model<V>) -> Option<String> {
    match first_unknown_label(model.hours.consumptions@) {
        Some(label) => Some(label),
        None => match first_unknown_label(model.days.consumptions@) {
            Some(label) => Some(label),
            None => match first_unknown_label(model.months.consumptions@) {
                Some(label) => Some(label),
                None => first_unknown_label(model.years.consumptions@),
            },
        },
    }
}

/// The canonical records of a snapshot with prices per unit, or the error
/// that ends the run. An unknown label anywhere in the snapshot comes
/// before any other error; after that the resolutions are taken in their
/// order.
pub open spec fn normalized<V>(model: Model<V>) -> Result<Seq<Measurement<V>>, Error> {
    match unknown_label(model) {
        Some(label) => Err(Error::UnsupportedVariant { label }),
        None => match one_resolution(Resolution::Hour, model) {
            Err(e) => Err(e),
            Ok(hours) => match one_resolution(Resolution::Day, model) {
                Err(e) => Err(e),
                Ok(days) => match one_resolution(Resolution::Month, model) {
                    Err(e) => Err(e),
                    Ok(months) => match one_resolution(Resolution::Year, model) {
                        Err(e) => Err(e),
                        Ok(years) => Ok(
                            upsert_all(
                                upsert_all(
                                    upsert_all(hours, days, record_key::<V>()),
                                    months,
                                    record_key::<V>(),
                                ),
                                years,
                                record_key::<V>(),
                            ),
                        ),
                    },
                },
            },
        },
    }
}

/// The outcome of a run against what the snapshot asks for: the records
/// pair off with those with prices per unit, or the error is the same.
pub open spec fn outcome<V, F: Fn(V, V) -> V>(
    expected: Result<Seq<Measurement<V>>, Error>,
    got: Result<Measurements<V>, Error>,
    scale: F,
) -> bool {
    match got {
        Ok(records) => expected matches Ok(units) && priced_seq(units, records@, scale),
        Err(e) => expected == Err::<Seq<Measurement<V>>, Error>(e),
    }
}

/// A status or temperature series may be looked up through its time index.
pub proof fn lemma_assembled_indexed<V>(
    ts: i64,
    consumption: V,
    statuses: Seq<RawSample<u8>>,
    temperatures: Seq<RawSample<V>>,
    tariff: Tariff,
    model: Model<V>,
    resolution: Resolution,
)
    ensures
        assembled(
            ts,
            consumption,
            time_index(statuses),
            time_index(temperatures),
            tariff,
            model,
            resolution,
        ) == assembled(ts, consumption, statuses, temperatures, tariff, model, resolution),
{
    lemma_time_index(statuses, ts);
    lemma_time_index(temperatures, ts);
}

/// Puts the records of one bucket into `out`.
fn convert_bucket<V: Copy, F: Fn(V, V) -> V>(
    out: &mut Measurements<V>,
    Ghost(units): Ghost<Seq<Measurement<V>>>,
    index: &TimeIndex<V>,
    tariff: Tariff,
    status_map: &TimeIndex<u8>,
    temperature_map: &TimeIndex<V>,
    model: &Model<V>,
    resolution: Resolution,
    scale: &F,
) -> (r: Result<(), Error>)
    requires
        forall|p: V, c: V| call_requires(*scale, (p, c)),
        priced_seq(units, old(out)@, *scale),
        status_map@ == time_index(model.block(resolution).consumption_statuses.data@),
        temperature_map@ == time_index(model.block(resolution).temperature.data@),
    ensures
        match r {
            Ok(()) => bucket_units(units, index@, tariff, *model, resolution) matches Ok(next)
                && priced_seq(next, final(out)@, *scale),
            Err(e) => bucket_units(units, index@, tariff, *model, resolution) == Err::<
                Seq<Measurement<V>>,
                Error,
            >(e),
        },
{
    let ghost mut current = units;
    let n = index.len();
    let mut i: usize = 0;
    assert(index@.skip(0) == index@);
    while i < n
        invariant
            i <= n,
            n == index@.len(),
            forall|p: V, c: V| call_requires(*scale, (p, c)),
            priced_seq(current, out@, *scale),
            status_map@ == time_index(model.block(resolution).consumption_statuses.data@),
            temperature_map@ == time_index(model.block(resolution).temperature.data@),
            bucket_units(units, index@, tariff, *model, resolution) == bucket_units(
                current,
                index@.skip(i as int),
                tariff,
                *model,
                resolution,
            ),
        decreases n - i,
    {
        let sample = index.entry(i);
        proof {
            assert(index@.skip(i as int).drop_first() == index@.skip(i + 1));
            lemma_assembled_indexed(
                sample.timestamp,
                sample.value,
                model.block(resolution).consumption_statuses.data@,
                model.block(resolution).temperature.data@,
                tariff,
                *model,
                resolution,
            );
        }
        match build_measurement(
            sample.timestamp,
            sample.value,
            status_map,
            temperature_map,
            tariff,
            model,
            resolution,
            scale,
        ) {
            Err(e) => {
                return Err(e);
            },
            Ok(record) => {
                proof {
                    let unit = assembled(
                        sample.timestamp,
                        sample.value,
                        status_map@,
                        temperature_map@,
                        tariff,
                        *model,
                        resolution,
                    )->Ok_0;
                    lemma_upsert_priced(current, out@, unit, record, *scale);
                    current = upsert(current, unit, record_key::<V>());
                }
                out.insert(record);
            },
        }
        i += 1;
    }
    Ok(())
}

/// Checks the labels of some buckets.
fn check_labels<V>(buckets: &Vec<Consumption<V>>) -> (r: Result<(), Error>)
    ensures
        match r {
            Ok(()) => first_unknown_label(buckets@) is None,
            Err(e) => first_unknown_label(buckets@) matches Some(label) && e == (
            Error::UnsupportedVariant { label }),
        },
{
    let mut i: usize = 0;
    assert(buckets@.skip(0) == buckets@);
    while i < buckets.len()
        invariant
            i <= buckets.len(),
            first_unknown_label(buckets@) == first_unknown_label(buckets@.skip(i as int)),
        decreases buckets.len() - i,
    {
        assert(buckets@.skip(i as int).drop_first() == buckets@.skip(i + 1));
        if Tariff::from_label(buckets[i].tariff_time_zone_name.as_str()).is_none() {
            return Err(
                Error::UnsupportedVariant { label: buckets[i].tariff_time_zone_name.clone() },
            );
        }
        i += 1;
    }
    Ok(())
}

/// Makes the records of one resolution of a snapshot. `scale` multiplies a
/// price per unit by a consumption.
pub fn convert_one_resolution<V: Copy, F: Fn(V, V) -> V>(
    resolution: Resolution,
    model: &Model<V>,
    scale: &F,
) -> (r: Result<Measurements<V>, Error>)
    requires
        forall|p: V, c: V| call_requires(*scale, (p, c)),
    ensures
        outcome(one_resolution(resolution, *model), r, *scale),
{
    let root = model.resolution(resolution);
    match check_labels(&root.consumptions) {
        Err(e) => {
            return Err(e);
        },
        Ok(()) => {},
    }
    let status_map = values_into_map(root.consumption_statuses.data.as_slice());
    let temperature_map = values_into_map(root.temperature.data.as_slice());
    let mut out = Measurements::new();
    let ghost mut units = Seq::<Measurement<V>>::empty();
    let ghost buckets = root.consumptions@;
    let mut b: usize = 0;
    assert(buckets.skip(0) == buckets);
    while b < root.consumptions.len()
        invariant
            b <= root.consumptions.len(),
            buckets == root.consumptions@,
            *root == model.block(resolution),
            forall|p: V, c: V| call_requires(*scale, (p, c)),
            priced_seq(units, out@, *scale),
            status_map@ == time_index(model.block(resolution).consumption_statuses.data@),
            temperature_map@ == time_index(model.block(resolution).temperature.data@),
            one_resolution(resolution, *model) == resolution_units(
                units,
                buckets.skip(b as int),
                *model,
                resolution,
            ),
        decreases root.consumptions.len() - b,
    {
        let bucket = &root.consumptions[b];
        proof {
            assert(buckets.skip(b as int).drop_first() == buckets.skip(b + 1));
        }
        let tariff = match Tariff::from_label(bucket.tariff_time_zone_name.as_str()) {
            Some(t) => t,
            None => {
                return Err(
                    Error::UnsupportedVariant { label: bucket.tariff_time_zone_name.clone() },
                );
            },
        };
        let index = values_into_map(bucket.series.data.as_slice());
        match convert_bucket(
            &mut out,
            Ghost(units),
            &index,
            tariff,
            &status_map,
            &temperature_map,
            model,
            resolution,
            scale,
        ) {
            Err(e) => {
                return Err(e);
            },
            Ok(()) => {
                proof {
                    units = bucket_units(units, index@, tariff, *model, resolution)->Ok_0;
                }
            },
        }
        b += 1;
    }
    Ok(out)
}

impl<V: Copy> Measurements<V> {
    /// Normalises a snapshot: the records of all four resolutions in one
    /// collection, in ascending order of time. `scale` multiplies a price
    /// per unit by a consumption.
    pub fn from_model<F: Fn(V, V) -> V>(model: &Model<V>, scale: F) -> (r: Result<
        Measurements<V>,
        Error,
    >)
        requires
            forall|p: V, c: V| call_requires(scale, (p, c)),
        ensures
            outcome(normalized(*model), r, scale),
            r matches Ok(records) ==> ascending(records@, record_key::<V>()) && forall|
                i: int,
                j: int,
            |
                0 <= i <= j < records@.len() ==> records@[i].timestamp <= records@[j].timestamp,
            r matches Ok(records) ==> model.sales_price_list is None ==> forall|i: int|
                0 <= i < records@.len() ==> (#[trigger] records@[i]).price.energy is None,
    {
        match check_labels(&model.hours.consumptions) {
            Err(e) => {
                return Err(e);
            },
            Ok(()) => {},
        }
        match check_labels(&model.days.consumptions) {
            Err(e) => {
                return Err(e);
            },
            Ok(()) => {},
        }
        match check_labels(&model.months.consumptions) {
            Err(e) => {
                return Err(e);
            },
            Ok(()) => {},
        }
        match check_labels(&model.years.consumptions) {
            Err(e) => {
                return Err(e);
            },
            Ok(()) => {},
        }
        let mut out = match convert_one_resolution(Resolution::Hour, model, &scale) {
            Err(e) => {
                return Err(e);
            },
            Ok(records) => records,
        };
        let days = match convert_one_resolution(Resolution::Day, model, &scale) {
            Err(e) => {
                return Err(e);
            },
            Ok(records) => records,
        };
        let months = match convert_one_resolution(Resolution::Month, model, &scale) {
            Err(e) => {
                return Err(e);
            },
            Ok(records) => records,
        };
        let years = match convert_one_resolution(Resolution::Year, model, &scale) {
            Err(e) => {
                return Err(e);
            },
            Ok(records) => records,
        };
        proof {
            let key = record_key::<V>();
            let h = one_resolution(Resolution::Hour, *model)->Ok_0;
            let d = one_resolution(Resolution::Day, *model)->Ok_0;
            let m = one_resolution(Resolution::Month, *model)->Ok_0;
            let y = one_resolution(Resolution::Year, *model)->Ok_0;
            lemma_upsert_all_priced(h, out@, d, days@, scale);
            lemma_upsert_all_priced(
                upsert_all(h, d, key),
                upsert_all(out@, days@, key),
                m,
                months@,
                scale,
            );
            lemma_upsert_all_priced(
                upsert_all(upsert_all(h, d, key), m, key),
                upsert_all(upsert_all(out@, days@, key), months@, key),
                y,
                years@,
                scale,
            );
        }
        out.merge(&days);
        out.merge(&months);
        out.merge(&years);
        proof {
            lemma_ascending_in_time(out@);
            if model.sales_price_list is None {
                lemma_no_sales_list(*model);
            }
        }
        Ok(out)
    }
}

/// Every record that can be assembled for a resolution of a snapshot meets
/// `p`.
pub open spec fn assembled_meet<V>(
    model: Model<V>,
    resolution: Resolution,
    p: spec_fn(Measurement<V>) -> bool,
) -> bool {
    forall|ts: i64, consumption: V, tariff: Tariff|
        (#[trigger] assembled(
            ts,
            consumption,
            model.block(resolution).consumption_statuses.data@,
            model.block(resolution).temperature.data@,
            tariff,
            model,
            resolution,
        )) matches Ok(unit) ==> p(unit)
}

/// What holds of every record that can be assembled holds of every record
/// that a bucket adds.
pub proof fn lemma_bucket_units_meet<V>(
    acc: Seq<Measurement<V>>,
    entries: Seq<RawSample<V>>,
    tariff: Tariff,
    model: Model<V>,
    resolution: Resolution,
    p: spec_fn(Measurement<V>) -> bool,
)
    requires
        all_meet(acc, p),
        assembled_meet(model, resolution, p),
    ensures
        bucket_units(acc, entries, tariff, model, resolution) matches Ok(out) ==> all_meet(out, p),
    decreases entries.len(),
{
    if entries.len() > 0 {
        match assembled(
            entries[0].timestamp,
            entries[0].value,
            model.block(resolution).consumption_statuses.data@,
            model.block(resolution).temperature.data@,
            tariff,
            model,
            resolution,
        ) {
            Err(_) => {},
            Ok(unit) => {
                lemma_upsert_meets(acc, unit, record_key::<V>(), p);
                lemma_bucket_units_meet(
                    upsert(acc, unit, record_key::<V>()),
                    entries.drop_first(),
                    tariff,
                    model,
                    resolution,
                    p,
                );
            },
        }
    }
}

/// What holds of every record that can be assembled holds of every record
/// that the buckets of a resolution add.
pub proof fn lemma_resolution_units_meet<V>(
    acc: Seq<Measurement<V>>,
    buckets: Seq<Consumption<V>>,
    model: Model<V>,
    resolution: Resolution,
    p: spec_fn(Measurement<V>) -> bool,
)
    requires
        all_meet(acc, p),
        assembled_meet(model, resolution, p),
    ensures
        resolution_units(acc, buckets, model, resolution) matches Ok(out) ==> all_meet(out, p),
    decreases buckets.len(),
{
    if buckets.len() > 0 {
        match tariff_of_label(buckets[0].tariff_time_zone_name@) {
            None => {},
            Some(tariff) => {
                let entries = time_index(buckets[0].series.data@);
                lemma_bucket_units_meet(acc, entries, tariff, model, resolution, p);
                match bucket_units(acc, entries, tariff, model, resolution) {
                    Err(_) => {},
                    Ok(next) => {
                        lemma_resolution_units_meet(
                            next,
                            buckets.drop_first(),
                            model,
                            resolution,
                            p,
                        );
                    },
                }
            },
        }
    }
}

/// What holds of every record that can be assembled for any resolution
/// holds of every record of the output.
pub proof fn lemma_normalized_meet<V>(model: Model<V>, p: spec_fn(Measurement<V>) -> bool)
    requires
        assembled_meet(model, Resolution::Hour, p),
        assembled_meet(model, Resolution::Day, p),
        assembled_meet(model, Resolution::Month, p),
        assembled_meet(model, Resolution::Year, p),
    ensures
        normalized(model) matches Ok(out) ==> all_meet(out, p),
{
    let nothing = Seq::<Measurement<V>>::empty();
    let key = record_key::<V>();
    lemma_resolution_units_meet(nothing, model.hours.consumptions@, model, Resolution::Hour, p);
    lemma_resolution_units_meet(nothing, model.days.consumptions@, model, Resolution::Day, p);
    lemma_resolution_units_meet(nothing, model.months.consumptions@, model, Resolution::Month, p);
    lemma_resolution_units_meet(nothing, model.years.consumptions@, model, Resolution::Year, p);
    if normalized(model) is Ok {
        let h = one_resolution(Resolution::Hour, model)->Ok_0;
        let d = one_resolution(Resolution::Day, model)->Ok_0;
        let m = one_resolution(Resolution::Month, model)->Ok_0;
        let y = one_resolution(Resolution::Year, model)->Ok_0;
        lemma_upsert_all_meets(h, d, key, p);
        lemma_upsert_all_meets(upsert_all(h, d, key), m, key, p);
        lemma_upsert_all_meets(upsert_all(upsert_all(h, d, key), m, key), y, key, p);
    }
}

/// Without a sales price list no record of the output has an energy price.
pub proof fn lemma_no_sales_list<V>(model: Model<V>)
    requires
        model.sales_price_list is None,
    ensures
        normalized(model) matches Ok(out) ==> forall|i: int|
            0 <= i < out.len() ==> (#[trigger] out[i]).price.energy is None,
{
    let p = |m: Measurement<V>| m.price.energy is None;
    lemma_normalized_meet(model, p);
}

/// A label that stands for no tariff is found.
pub proof fn lemma_unknown_label_found<V>(buckets: Seq<Consumption<V>>, i: int)
    requires
        0 <= i < buckets.len(),
        tariff_of_label(buckets[i].tariff_time_zone_name@) is None,
    ensures
        first_unknown_label(buckets) is Some,
    decreases i,
{
    if i > 0 && tariff_of_label(buckets[0].tariff_time_zone_name@) is Some {
        lemma_unknown_label_found(buckets.drop_first(), i - 1);
    }
}

/// A label that stands for no tariff, in whichever bucket of whichever
/// resolution, makes the whole run fail with `UnsupportedVariant`; no
/// record is dropped in silence.
pub proof fn lemma_unknown_label_fails<V>(model: Model<V>, resolution: Resolution, i: int)
    requires
        0 <= i < model.block(resolution).consumptions@.len(),
        tariff_of_label(model.block(resolution).consumptions@[i].tariff_time_zone_name@) is None,
    ensures
        normalized(model) is Err,
        normalized(model)->Err_0 is UnsupportedVariant,
        one_resolution(resolution, model) is Err,
        one_resolution(resolution, model)->Err_0 is UnsupportedVariant,
{
    lemma_unknown_label_found(model.block(resolution).consumptions@, i);
}

/// Every entry of a bucket has a UTC instant.
pub open spec fn all_assembled<V>(
    entries: Seq<RawSample<V>>,
    tariff: Tariff,
    model: Model<V>,
    resolution: Resolution,
) -> bool {
    forall|i: int|
        0 <= i < entries.len() ==> (#[trigger] assembled(
            entries[i].timestamp,
            entries[i].value,
            model.block(resolution).consumption_statuses.data@,
            model.block(resolution).temperature.data@,
            tariff,
            model,
            resolution,
        )) is Ok
}

/// The records of the entries of a bucket, in the order of the entries.
pub open spec fn bucket_records<V>(
    entries: Seq<RawSample<V>>,
    tariff: Tariff,
    model: Model<V>,
    resolution: Resolution,
) -> Seq<Measurement<V>> {
    Seq::new(
        entries.len(),
        |i: int|
            assembled(
                entries[i].timestamp,
                entries[i].value,
                model.block(resolution).consumption_statuses.data@,
                model.block(resolution).temperature.data@,
                tariff,
                model,
                resolution,
            )->Ok_0,
    )
}

/// A bucket whose entries all have a UTC instant adds its records, first
/// to last.
pub proof fn lemma_bucket_units_merge<V>(
    acc: Seq<Measurement<V>>,
    entries: Seq<RawSample<V>>,
    tariff: Tariff,
    model: Model<V>,
    resolution: Resolution,
)
    requires
        all_assembled(entries, tariff, model, resolution),
    ensures
        bucket_units(acc, entries, tariff, model, resolution) == Ok::<Seq<Measurement<V>>, Error>(
            upsert_all(
                acc,
                bucket_records(entries, tariff, model, resolution),
                record_key::<V>(),
            ),
        ),
    decreases entries.len(),
{
    let key = record_key::<V>();
    let records = bucket_records(entries, tariff, model, resolution);
    if entries.len() > 0 {
        let rest = entries.drop_first();
        let unit = assembled(
            entries[0].timestamp,
            entries[0].value,
            model.block(resolution).consumption_statuses.data@,
            model.block(resolution).temperature.data@,
            tariff,
            model,
            resolution,
        );
        assert forall|i: int| 0 <= i < rest.len() implies (#[trigger] assembled(
            rest[i].timestamp,
            rest[i].value,
            model.block(resolution).consumption_statuses.data@,
            model.block(resolution).temperature.data@,
            tariff,
            model,
            resolution,
        )) is Ok by {
            assert(assembled(
                entries[i + 1].timestamp,
                entries[i + 1].value,
                model.block(resolution).consumption_statuses.data@,
                model.block(resolution).temperature.data@,
                tariff,
                model,
                resolution,
            ) is Ok);
        }
        lemma_bucket_units_merge(upsert(acc, unit->Ok_0, key), rest, tariff, model, resolution);
        assert(bucket_records(rest, tariff, model, resolution) =~= records.drop_first());
        lemma_upsert_all_front(acc, records, key);
    }
}

/// Every bucket has a known label, and every entry of every bucket has a
/// UTC instant.
pub open spec fn all_buckets_assembled<V>(
    buckets: Seq<Consumption<V>>,
    model: Model<V>,
    resolution: Resolution,
) -> bool {
    forall|b: int|
        0 <= b < buckets.len() ==> {
            &&& tariff_of_label((#[trigger] buckets[b]).tariff_time_zone_name@) is Some
            &&& all_assembled(
                time_index(buckets[b].series.data@),
                tariff_of_label(buckets[b].tariff_time_zone_name@)->0,
                model,
                resolution,
            )
        }
}

/// The records of a bucket, in ascending order of the timestamps of its
/// samples.
pub open spec fn records_of<V>(
    bucket: Consumption<V>,
    model: Model<V>,
    resolution: Resolution,
) -> Seq<Measurement<V>> {
    bucket_records(
        time_index(bucket.series.data@),
        tariff_of_label(bucket.tariff_time_zone_name@)->0,
        model,
        resolution,
    )
}

/// The records of some buckets, bucket after bucket.
pub open spec fn resolution_records<V>(
    buckets: Seq<Consumption<V>>,
    model: Model<V>,
    resolution: Resolution,
) -> Seq<Measurement<V>>
    decreases buckets.len(),
{
    if buckets.len() == 0 {
        Seq::<Measurement<V>>::empty()
    } else {
        records_of(buckets[0], model, resolution) + resolution_records(
            buckets.drop_first(),
            model,
            resolution,
        )
    }
}

/// Buckets whose labels are known and whose entries all have a UTC instant
/// add their records, bucket after bucket.
pub proof fn lemma_resolution_units_merge<V>(
    acc: Seq<Measurement<V>>,
    buckets: Seq<Consumption<V>>,
    model: Model<V>,
    resolution: Resolution,
)
    requires
        all_buckets_assembled(buckets, model, resolution),
    ensures
        first_unknown_label(buckets) is None,
        resolution_units(acc, buckets, model, resolution) == Ok::<Seq<Measurement<V>>, Error>(
            upsert_all(
                acc,
                resolution_records(buckets, model, resolution),
                record_key::<V>(),
            ),
        ),
    decreases buckets.len(),
{
    let key = record_key::<V>();
    if buckets.len() > 0 {
        let rest = buckets.drop_first();
        let first = records_of(buckets[0], model, resolution);
        assert forall|b: int| 0 <= b < rest.len() implies {
            &&& tariff_of_label((#[trigger] rest[b]).tariff_time_zone_name@) is Some
            &&& all_assembled(
                time_index(rest[b].series.data@),
                tariff_of_label(rest[b].tariff_time_zone_name@)->0,
                model,
                resolution,
            )
        } by {
            assert(rest[b] == buckets[b + 1]);
        }
        lemma_bucket_units_merge(
            acc,
            time_index(buckets[0].series.data@),
            tariff_of_label(buckets[0].tariff_time_zone_name@)->0,
            model,
            resolution,
        );
        lemma_resolution_units_merge(upsert_all(acc, first, key), rest, model, resolution);
        lemma_upsert_all_concat(acc, first, resolution_records(rest, model, resolution), key);
    }
}

/// The records of a bucket are among those of the buckets, and carry the
/// tariff of the bucket's label.
pub proof fn lemma_bucket_records_belong<V>(
    buckets: Seq<Consumption<V>>,
    model: Model<V>,
    resolution: Resolution,
    b: int,
    i: int,
)
    requires
        0 <= b < buckets.len(),
        0 <= i < records_of(buckets[b], model, resolution).len(),
        all_buckets_assembled(buckets, model, resolution),
    ensures
        resolution_records(buckets, model, resolution).contains(
            records_of(buckets[b], model, resolution)[i],
        ),
        records_of(buckets[b], model, resolution)[i].tariff == tariff_of_label(
            buckets[b].tariff_time_zone_name@,
        )->0,
    decreases b,
{
    let all = resolution_records(buckets, model, resolution);
    let first = records_of(buckets[0], model, resolution);
    let rest = buckets.drop_first();
    let entries = time_index(buckets[b].series.data@);
    let tariff = tariff_of_label(buckets[b].tariff_time_zone_name@)->0;
    assert(assembled(
        entries[i].timestamp,
        entries[i].value,
        model.block(resolution).consumption_statuses.data@,
        model.block(resolution).temperature.data@,
        tariff,
        model,
        resolution,
    ) is Ok);
    if b == 0 {
        assert(all[i] == first[i]);
    } else {
        assert forall|c: int| 0 <= c < rest.len() implies {
            &&& tariff_of_label((#[trigger] rest[c]).tariff_time_zone_name@) is Some
            &&& all_assembled(
                time_index(rest[c].series.data@),
                tariff_of_label(rest[c].tariff_time_zone_name@)->0,
                model,
                resolution,
            )
        } by {
            assert(rest[c] == buckets[c + 1]);
        }
        lemma_bucket_records_belong(rest, model, resolution, b - 1, i);
        let later = resolution_records(rest, model, resolution);
        let n = choose|n: int|
            0 <= n < later.len() && later[n] == records_of(buckets[b], model, resolution)[i];
        assert(all[first.len() + n] == later[n]);
    }
}

/// Buckets of one resolution, no two of whose records share time and
/// tariff: the output of the resolution holds every record of every bucket,
/// each under the tariff of its bucket, and nothing else.
pub proof fn lemma_distinct_records_are_kept<V>(model: Model<V>, resolution: Resolution)
    requires
        all_buckets_assembled(model.block(resolution).consumptions@, model, resolution),
        distinct_keys(
            resolution_records(model.block(resolution).consumptions@, model, resolution),
            record_key::<V>(),
        ),
    ensures
        one_resolution(resolution, model) is Ok,
        forall|b: int, i: int|
            0 <= b < model.block(resolution).consumptions@.len() && 0 <= i < records_of(
                model.block(resolution).consumptions@[b],
                model,
                resolution,
            ).len() ==> {
                let record = #[trigger] records_of(
                    model.block(resolution).consumptions@[b],
                    model,
                    resolution,
                )[i];
                &&& one_resolution(resolution, model)->Ok_0.contains(record)
                &&& record.tariff == tariff_of_label(
                    model.block(resolution).consumptions@[b].tariff_time_zone_name@,
                )->0
            },
        forall|k: int|
            0 <= k < one_resolution(resolution, model)->Ok_0.len() ==> resolution_records(
                model.block(resolution).consumptions@,
                model,
                resolution,
            ).contains(#[trigger] one_resolution(resolution, model)->Ok_0[k]),
{
    let key = record_key::<V>();
    let nothing = Seq::<Measurement<V>>::empty();
    let buckets = model.block(resolution).consumptions@;
    let all = resolution_records(buckets, model, resolution);
    let out = upsert_all(nothing, all, key);
    lemma_resolution_units_merge(nothing, buckets, model, resolution);

    assert forall|b: int, i: int|
        0 <= b < buckets.len() && 0 <= i < records_of(buckets[b], model, resolution).len() implies {
        let record = #[trigger] records_of(buckets[b], model, resolution)[i];
        &&& out.contains(record)
        &&& record.tariff == tariff_of_label(buckets[b].tariff_time_zone_name@)->0
    } by {
        let record = records_of(buckets[b], model, resolution)[i];
        lemma_bucket_records_belong(buckets, model, resolution, b, i);
        let n = choose|n: int| 0 <= n < all.len() && all[n] == record;
        lemma_find_distinct(all, key, n);
        lemma_upsert_all_finds(nothing, all, key, key(record));
        lemma_found_is_element(out, key, key(record));
    }
    let p = |m: Measurement<V>| all.contains(m);
    lemma_upsert_all_meets(nothing, all, key, p);
}

} // verus!

use energiatili::error::Error;
use energiatili::index::values_into_map;
use energiatili::measurement::{
    build_measurement, key_of, scale_price, Measurement, Measurements, Price, Resolution, Tariff,
};
use energiatili::model::{
    Consumption, Measurements as Series, Model, OneResolution, Price as Interval, PriceList,
    RawSample,
};
use energiatili::normalize::convert_one_resolution;
use energiatili::time::UtcInstant;

const DAY: &str = "Päivä";
const NIGHT: &str = "Yö";

// Civil Helsinki midnight of 1 January 2023 in epoch milliseconds, and the
// UTC second it denotes.
const LOCAL_MS: i64 = 1672531200000;
const UTC: i64 = 1672524000;
const HOUR_MS: i64 = 3_600_000;

fn times(price: f64, consumption: f64) -> f64 {
    price * consumption
}

fn sample<T>(timestamp: i64, value: T) -> RawSample<T> {
    RawSample { timestamp, value }
}

fn series<T>(data: Vec<RawSample<T>>) -> Series<T> {
    Series { data }
}

fn bucket(label: &str, data: Vec<RawSample<f64>>) -> Consumption<f64> {
    Consumption { series: series(data), tariff_time_zone_name: label.to_string() }
}

fn block(consumptions: Vec<Consumption<f64>>) -> OneResolution<f64> {
    OneResolution {
        consumptions,
        consumption_statuses: series(Vec::new()),
        temperature: series(Vec::new()),
    }
}

fn interval(start: i64, end: i64, price: f64) -> Interval<f64> {
    Interval {
        start_time: UtcInstant { secs: start, nanos: 0 },
        end_time: UtcInstant { secs: end, nanos: 0 },
        price_no_vat: price,
        price_with_vat: price,
    }
}

fn flat(day: f64, night: f64) -> PriceList<f64> {
    PriceList {
        time_based_energy_day_prices: vec![interval(0, 4_000_000_000, day)],
        time_based_energy_night_prices: vec![interval(0, 4_000_000_000, night)],
    }
}

fn model(hours: OneResolution<f64>) -> Model<f64> {
    Model {
        hours,
        days: block(Vec::new()),
        months: block(Vec::new()),
        years: block(Vec::new()),
        network_price_list: flat(4.0, 2.0),
        sales_price_list: Some(flat(8.0, 6.0)),
    }
}

fn keys(records: &Measurements<f64>) -> Vec<(i64, Resolution, Tariff)> {
    let mut out = Vec::new();
    for i in 0..records.len() {
        let m = records.get(i);
        out.push((m.timestamp, m.resolution, m.tariff));
    }
    out
}

#[test]
fn record_joins_status_temperature_and_price() {
    let statuses = values_into_map(&[sample(LOCAL_MS, 3u8)]);
    let temperatures = values_into_map(&[sample(LOCAL_MS, -4.5)]);
    let m = model(block(Vec::new()));
    let record = build_measurement(
        LOCAL_MS,
        2.5,
        &statuses,
        &temperatures,
        Tariff::Day,
        &m,
        Resolution::Hour,
        &times,
    );
    assert_eq!(
        record,
        Ok(Measurement {
            timestamp: UTC,
            consumption: 2.5,
            quality: 3,
            temperature: Some(-4.5),
            tariff: Tariff::Day,
            resolution: Resolution::Hour,
            price: Price { transfer: Some(10.0), energy: Some(20.0) },
        })
    );
}

#[test]
fn cost_is_the_exact_product_of_price_and_consumption() {
    let statuses = values_into_map::<u8>(&[]);
    let temperatures = values_into_map::<f64>(&[]);
    let mut m = model(block(Vec::new()));
    m.network_price_list.time_based_energy_night_prices = vec![interval(UTC, UTC, 0.1)];
    let record = build_measurement(
        LOCAL_MS,
        0.3,
        &statuses,
        &temperatures,
        Tariff::Night,
        &m,
        Resolution::Day,
        &times,
    )
    .unwrap();
    assert_eq!(record.price.transfer, Some(0.1 * 0.3));
    assert_eq!(record.price.energy, Some(6.0 * 0.3));
}

#[test]
fn missing_status_and_temperature_take_their_defaults() {
    let statuses = values_into_map(&[sample(LOCAL_MS + HOUR_MS, 9u8)]);
    let temperatures = values_into_map(&[sample(LOCAL_MS - HOUR_MS, 1.0)]);
    let m = model(block(Vec::new()));
    let record = build_measurement(
        LOCAL_MS,
        1.0,
        &statuses,
        &temperatures,
        Tariff::Day,
        &m,
        Resolution::Hour,
        &times,
    )
    .unwrap();
    assert_eq!(record.quality, 0);
    assert_eq!(record.temperature, None);
}

#[test]
fn resolution_does_not_change_what_is_computed() {
    let statuses = values_into_map(&[sample(LOCAL_MS, 5u8)]);
    let temperatures = values_into_map(&[sample(LOCAL_MS, 2.0)]);
    let m = model(block(Vec::new()));
    let hourly = build_measurement(
        LOCAL_MS,
        1.5,
        &statuses,
        &temperatures,
        Tariff::Night,
        &m,
        Resolution::Hour,
        &times,
    )
    .unwrap();
    for resolution in [Resolution::Day, Resolution::Month, Resolution::Year] {
        let other = build_measurement(
            LOCAL_MS,
            1.5,
            &statuses,
            &temperatures,
            Tariff::Night,
            &m,
            resolution,
            &times,
        )
        .unwrap();
        assert_eq!(other, Measurement { resolution, ..hourly });
    }
}

#[test]
fn record_in_the_spring_gap_is_an_error() {
    let statuses = values_into_map::<u8>(&[]);
    let temperatures = values_into_map::<f64>(&[]);
    let m = model(block(Vec::new()));
    let record = build_measurement(
        1679801400000,
        1.0,
        &statuses,
        &temperatures,
        Tariff::Day,
        &m,
        Resolution::Hour,
        &times,
    );
    assert_eq!(record, Err(Error::TimeConversion { timestamp: 1679801400000 }));
}

#[test]
fn scale_price_leaves_an_unknown_price_unknown() {
    assert_eq!(scale_price(Some(3.0), 2.0, &times), Some(6.0));
    assert_eq!(scale_price(None, 2.0, &times), None);
}

#[test]
fn output_is_in_ascending_order_of_time() {
    let hours = block(vec![
        bucket(DAY, vec![sample(LOCAL_MS + 2 * HOUR_MS, 3.0), sample(LOCAL_MS, 1.0)]),
        bucket(NIGHT, vec![sample(LOCAL_MS + 3 * HOUR_MS, 4.0), sample(LOCAL_MS + HOUR_MS, 2.0)]),
    ]);
    let mut m = model(hours);
    m.days = block(vec![bucket(DAY, vec![sample(LOCAL_MS, 10.0)])]);
    m.years = block(vec![bucket(NIGHT, vec![sample(LOCAL_MS - 24 * HOUR_MS, 100.0)])]);
    let records = Measurements::from_model(&m, times).unwrap();
    let stamps: Vec<i64> = keys(&records).iter().map(|k| k.0).collect();
    assert_eq!(
        stamps,
        vec![UTC - 86400, UTC, UTC, UTC + 3600, UTC + 7200, UTC + 10800]
    );
    for i in 1..records.len() {
        assert!(records.get(i - 1).timestamp <= records.get(i).timestamp);
        assert!(key_of(&records.get(i - 1)) < key_of(&records.get(i)));
    }
}

#[test]
fn records_of_one_instant_in_different_resolutions_coexist() {
    let mut m = model(block(vec![bucket(DAY, vec![sample(LOCAL_MS, 1.0)])]));
    m.days = block(vec![bucket(DAY, vec![sample(LOCAL_MS, 24.0)])]);
    m.months = block(vec![bucket(DAY, vec![sample(LOCAL_MS, 700.0)])]);
    m.years = block(vec![bucket(DAY, vec![sample(LOCAL_MS, 8000.0)])]);
    let records = Measurements::from_model(&m, times).unwrap();
    assert_eq!(
        keys(&records),
        vec![
            (UTC, Resolution::Hour, Tariff::Day),
            (UTC, Resolution::Day, Tariff::Day),
            (UTC, Resolution::Month, Tariff::Day),
            (UTC, Resolution::Year, Tariff::Day),
        ]
    );
    assert_eq!(records.get(2).consumption, 700.0);
    assert_eq!(records.get(2).price.energy, Some(8.0 * 700.0));
}

#[test]
fn records_of_one_instant_in_different_tariffs_coexist() {
    let hours = block(vec![
        bucket(NIGHT, vec![sample(LOCAL_MS, 2.0)]),
        bucket(DAY, vec![sample(LOCAL_MS, 1.0)]),
    ]);
    let records = Measurements::from_model(&model(hours), times).unwrap();
    assert_eq!(
        keys(&records),
        vec![(UTC, Resolution::Hour, Tariff::Day), (UTC, Resolution::Hour, Tariff::Night)]
    );
    assert_eq!(records.get(0).consumption, 1.0);
    assert_eq!(records.get(0).price.transfer, Some(4.0));
    assert_eq!(records.get(1).consumption, 2.0);
    assert_eq!(records.get(1).price.transfer, Some(4.0));
}

#[test]
fn buckets_with_disjoint_timestamps_are_united() {
    let hours = block(vec![
        bucket(DAY, vec![sample(LOCAL_MS, 1.0), sample(LOCAL_MS + 2 * HOUR_MS, 3.0)]),
        bucket(NIGHT, vec![sample(LOCAL_MS + HOUR_MS, 2.0), sample(LOCAL_MS + 3 * HOUR_MS, 4.0)]),
    ]);
    let records = convert_one_resolution(Resolution::Hour, &model(hours), &times).unwrap();
    assert_eq!(
        keys(&records),
        vec![
            (UTC, Resolution::Hour, Tariff::Day),
            (UTC + 3600, Resolution::Hour, Tariff::Night),
            (UTC + 7200, Resolution::Hour, Tariff::Day),
            (UTC + 10800, Resolution::Hour, Tariff::Night),
        ]
    );
    let consumptions: Vec<f64> = records.into_vec().iter().map(|m| m.consumption).collect();
    assert_eq!(consumptions, vec![1.0, 2.0, 3.0, 4.0]);
}

#[test]
fn repeated_timestamp_in_a_bucket_gives_one_record() {
    let hours = block(vec![bucket(
        DAY,
        vec![sample(LOCAL_MS, 1.0), sample(LOCAL_MS + HOUR_MS, 2.0), sample(LOCAL_MS, 5.0)],
    )]);
    let records = Measurements::from_model(&model(hours), times).unwrap();
    assert_eq!(records.len(), 2);
    assert_eq!(records.get(0).consumption, 5.0);
    assert_eq!(records.get(1).consumption, 2.0);
}

#[test]
fn later_bucket_of_the_same_tariff_replaces_a_record() {
    let hours = block(vec![
        bucket(DAY, vec![sample(LOCAL_MS, 1.0)]),
        bucket(DAY, vec![sample(LOCAL_MS, 2.0)]),
    ]);
    let records = Measurements::from_model(&model(hours), times).unwrap();
    assert_eq!(records.len(), 1);
    assert_eq!(records.get(0).consumption, 2.0);
}

#[test]
fn timestamps_of_one_second_in_one_tariff_give_one_record() {
    let hours = block(vec![
        bucket(DAY, vec![sample(LOCAL_MS, 1.0)]),
        bucket(DAY, vec![sample(LOCAL_MS + 500, 2.0)]),
    ]);
    let records = Measurements::from_model(&model(hours), times).unwrap();
    assert_eq!(keys(&records), vec![(UTC, Resolution::Hour, Tariff::Day)]);
    assert_eq!(records.get(0).consumption, 2.0);
}

#[test]
fn key_orders_by_time_then_resolution_then_tariff() {
    let record = |timestamp: i64, resolution: Resolution, tariff: Tariff| Measurement {
        timestamp,
        consumption: 0.0,
        quality: 0,
        temperature: None,
        tariff,
        resolution,
        price: Price { transfer: None, energy: None },
    };
    assert_eq!(key_of(&record(5, Resolution::Day, Tariff::Night)), 43);
    assert_eq!(key_of(&record(0, Resolution::Hour, Tariff::Day)), 0);
    assert_eq!(key_of(&record(-1, Resolution::Year, Tariff::Night)), -1);
    assert_eq!(key_of(&record(i64::MAX, Resolution::Year, Tariff::Night)), (i64::MAX as i128) * 8 + 7);
    assert_eq!(key_of(&record(i64::MIN, Resolution::Hour, Tariff::Day)), (i64::MIN as i128) * 8);
}

#[test]
fn unknown_tariff_label_fails_the_run() {
    let hours = block(vec![
        bucket(DAY, vec![sample(LOCAL_MS, 1.0)]),
        bucket("Simple", vec![sample(LOCAL_MS, 2.0)]),
    ]);
    assert_eq!(
        Measurements::from_model(&model(hours), times).err(),
        Some(Error::UnsupportedVariant { label: "Simple".to_string() })
    );
}

#[test]
fn unknown_tariff_label_comes_before_a_time_error() {
    let mut m = model(block(vec![bucket(DAY, vec![sample(1679801400000, 1.0)])]));
    m.years = block(vec![bucket("paiva", Vec::new())]);
    assert_eq!(
        Measurements::from_model(&m, times).err(),
        Some(Error::UnsupportedVariant { label: "paiva".to_string() })
    );
    assert_eq!(
        convert_one_resolution(Resolution::Hour, &m, &times).err(),
        Some(Error::TimeConversion { timestamp: 1679801400000 })
    );
    assert_eq!(
        convert_one_resolution(Resolution::Year, &m, &times).err(),
        Some(Error::UnsupportedVariant { label: "paiva".to_string() })
    );
}

#[test]
fn sample_in_the_spring_gap_fails_the_run() {
    let m = model(block(vec![bucket(
        NIGHT,
        vec![sample(LOCAL_MS, 1.0), sample(1679801400000, 1.0)],
    )]));
    assert_eq!(
        Measurements::from_model(&m, times).err(),
        Some(Error::TimeConversion { timestamp: 1679801400000 })
    );
}

#[test]
fn without_sales_list_no_record_has_an_energy_price() {
    let hours = block(vec![
        bucket(DAY, vec![sample(LOCAL_MS, 1.0), sample(LOCAL_MS + HOUR_MS, 2.0)]),
        bucket(NIGHT, vec![sample(LOCAL_MS + 2 * HOUR_MS, 3.0)]),
    ]);
    let mut m = model(hours);
    m.days = block(vec![bucket(DAY, vec![sample(LOCAL_MS, 6.0)])]);
    m.sales_price_list = None;
    let records = Measurements::from_model(&m, times).unwrap();
    assert_eq!(records.len(), 4);
    for i in 0..records.len() {
        assert_eq!(records.get(i).price.energy, None);
        assert!(records.get(i).price.transfer.is_some());
    }
}

#[test]
fn status_and_temperature_come_from_the_resolution_of_the_record() {
    let mut hours = block(vec![bucket(DAY, vec![sample(LOCAL_MS, 1.0)])]);
    hours.consumption_statuses = series(vec![sample(LOCAL_MS, 1u8), sample(LOCAL_MS, 2u8)]);
    hours.temperature = series(vec![sample(LOCAL_MS, -1.0)]);
    let mut m = model(hours);
    m.days = block(vec![bucket(DAY, vec![sample(LOCAL_MS, 24.0)])]);
    let records = Measurements::from_model(&m, times).unwrap();
    assert_eq!(records.get(0).resolution, Resolution::Hour);
    assert_eq!(records.get(0).quality, 2);
    assert_eq!(records.get(0).temperature, Some(-1.0));
    assert_eq!(records.get(1).resolution, Resolution::Day);
    assert_eq!(records.get(1).quality, 0);
    assert_eq!(records.get(1).temperature, None);
}

#[test]
fn empty_snapshot_gives_empty_output() {
    let records = Measurements::from_model(&model(block(Vec::new())), times).unwrap();
    assert_eq!(records.len(), 0);
    assert_eq!(records.record(0), None);
}

#[test]
fn merge_unites_two_collections() {
    let hours = block(vec![bucket(DAY, vec![sample(LOCAL_MS, 1.0)])]);
    let mut m = model(hours);
    m.days = block(vec![bucket(DAY, vec![sample(LOCAL_MS - 24 * HOUR_MS, 9.0)])]);
    let mut all = convert_one_resolution(Resolution::Hour, &m, &times).unwrap();
    let days = convert_one_resolution(Resolution::Day, &m, &times).unwrap();
    all.merge(&days);
    assert_eq!(
        keys(&all),
        vec![(UTC - 86400, Resolution::Day, Tariff::Day), (UTC, Resolution::Hour, Tariff::Day)]
    );
    assert_eq!(all.into_vec(), Measurements::from_model(&m, times).unwrap().into_vec());
}

#[test]
fn insert_replaces_the_record_of_the_same_key() {
    let record = |timestamp: i64, consumption: f64, tariff: Tariff| Measurement {
        timestamp,
        consumption,
        quality: 0,
        temperature: None,
        tariff,
        resolution: Resolution::Hour,
        price: Price { transfer: None, energy: None },
    };
    let mut records = Measurements::new();
    records.insert(record(20, 1.0, Tariff::Day));
    records.insert(record(10, 2.0, Tariff::Night));
    records.insert(record(10, 3.0, Tariff::Day));
    records.insert(record(20, 4.0, Tariff::Day));
    assert_eq!(records.len(), 3);
    assert_eq!(records.get(0), record(10, 3.0, Tariff::Day));
    assert_eq!(records.get(1), record(10, 2.0, Tariff::Night));
    assert_eq!(records.get(2), record(20, 4.0, Tariff::Day));
    assert_eq!(records.record(2), Some(record(20, 4.0, Tariff::Day)));
    assert_eq!(records.record(3), None);
}

#[test]
fn labels_decode_to_tariffs() {
    assert_eq!(Tariff::from_label("Päivä"), Some(Tariff::Day));
    assert_eq!(Tariff::from_label("Yö"), Some(Tariff::Night));
    assert_eq!(Tariff::from_label("päivä"), None);
    assert_eq!(Tariff::from_label("Yö "), None);
    assert_eq!(Tariff::from_label(""), None);
    assert_eq!(Tariff::from_label("day"), None);
}

#[test]
fn ranks_follow_the_declaration() {
    assert_eq!(Resolution::Hour.rank_of(), 0);
    assert_eq!(Resolution::Day.rank_of(), 1);
    assert_eq!(Resolution::Month.rank_of(), 2);
    assert_eq!(Resolution::Year.rank_of(), 3);
    assert_eq!(Tariff::Day.rank_of(), 0);
    assert_eq!(Tariff::Night.rank_of(), 1);
}

#[test]
fn snapshot_hands_out_the_block_of_a_resolution() {
    let mut m = model(block(vec![bucket(DAY, Vec::new())]));
    m.years = block(vec![bucket(NIGHT, Vec::new()), bucket(DAY, Vec::new())]);
    assert_eq!(m.resolution(Resolution::Hour).consumptions.len(), 1);
    assert_eq!(m.resolution(Resolution::Day).consumptions.len(), 0);
    assert_eq!(m.resolution(Resolution::Month).consumptions.len(), 0);
    assert_eq!(m.resolution(Resolution::Year).consumptions.len(), 2);
}

use energiatili::index::{values_into_map, TimeIndex};
use energiatili::model::RawSample;

fn sample<T>(timestamp: i64, value: T) -> RawSample<T> {
    RawSample { timestamp, value }
}

#[test]
fn index_orders_by_timestamp() {
    let index = values_into_map(&[sample(30, 3.0), sample(10, 1.0), sample(20, 2.0)]);
    assert_eq!(index.len(), 3);
    assert_eq!(index.entry(0), sample(10, 1.0));
    assert_eq!(index.entry(1), sample(20, 2.0));
    assert_eq!(index.entry(2), sample(30, 3.0));
}

#[test]
fn later_duplicate_overwrites_earlier() {
    let index = values_into_map(&[sample(10, 1u8), sample(20, 2), sample(10, 7), sample(20, 9)]);
    assert_eq!(index.len(), 2);
    assert_eq!(index.get(10), Some(7));
    assert_eq!(index.get(20), Some(9));
    assert_eq!(index.entry(0), sample(10, 7));
}

#[test]
fn missing_timestamp_has_no_value() {
    let index = values_into_map(&[sample(10, 1u8), sample(30, 3)]);
    assert_eq!(index.get(20), None);
    assert_eq!(index.get(9), None);
    assert_eq!(index.get(31), None);
    assert_eq!(index.get(i64::MIN), None);
    assert_eq!(index.get(i64::MAX), None);
}

#[test]
fn empty_series_has_empty_index() {
    let index = values_into_map::<u8>(&[]);
    assert_eq!(index.len(), 0);
    assert_eq!(index.get(0), None);
}

#[test]
fn insert_keeps_order_whatever_the_order_of_arrival() {
    let mut index = TimeIndex::new();
    for ts in [5i64, -3, 12, 0, 7, -3, 12, 1] {
        index.insert(sample(ts, ts * 2));
    }
    let mut seen = Vec::new();
    for i in 0..index.len() {
        seen.push(index.entry(i).timestamp);
    }
    assert_eq!(seen, vec![-3, 0, 1, 5, 7, 12]);
    for ts in [-3i64, 0, 1, 5, 7, 12] {
        assert_eq!(index.get(ts), Some(ts * 2));
    }
}

#[test]
fn index_holds_extreme_timestamps() {
    let index = values_into_map(&[sample(i64::MAX, 1u8), sample(i64::MIN, 2), sample(0, 3)]);
    assert_eq!(index.entry(0).timestamp, i64::MIN);
    assert_eq!(index.entry(2).timestamp, i64::MAX);
    assert_eq!(index.get(i64::MAX), Some(1));
}

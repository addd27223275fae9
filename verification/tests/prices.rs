use energiatili::measurement::{Price, Tariff};
use energiatili::model::{Measurements, Model, OneResolution, Price as Interval, PriceList};
use energiatili::price::{find_in_list, find_price};
use energiatili::time::UtcInstant;

fn at(secs: i64) -> UtcInstant {
    UtcInstant { secs, nanos: 0 }
}

fn interval(start: i64, end: i64, price: f64) -> Interval<f64> {
    Interval { start_time: at(start), end_time: at(end), price_no_vat: price / 2.0, price_with_vat: price }
}

fn empty_block() -> OneResolution<f64> {
    OneResolution {
        consumptions: Vec::new(),
        consumption_statuses: Measurements { data: Vec::new() },
        temperature: Measurements { data: Vec::new() },
    }
}

fn model(network: PriceList<f64>, sales: Option<PriceList<f64>>) -> Model<f64> {
    Model {
        hours: empty_block(),
        days: empty_block(),
        months: empty_block(),
        years: empty_block(),
        network_price_list: network,
        sales_price_list: sales,
    }
}

#[test]
fn interval_is_closed_at_both_ends() {
    let list = vec![interval(100, 200, 4.5)];
    assert_eq!(find_in_list(&list, 99), None);
    assert_eq!(find_in_list(&list, 100), Some(4.5));
    assert_eq!(find_in_list(&list, 150), Some(4.5));
    assert_eq!(find_in_list(&list, 200), Some(4.5));
    assert_eq!(find_in_list(&list, 201), None);
}

#[test]
fn first_matching_interval_wins() {
    let list = vec![interval(0, 10, 1.0), interval(5, 20, 2.0), interval(0, 30, 3.0)];
    assert_eq!(find_in_list(&list, 7), Some(1.0));
    assert_eq!(find_in_list(&list, 15), Some(2.0));
    assert_eq!(find_in_list(&list, 25), Some(3.0));
    assert_eq!(find_in_list(&list, 31), None);
}

#[test]
fn empty_list_has_no_price() {
    assert_eq!(find_in_list::<f64>(&Vec::new(), 0), None);
}

#[test]
fn fractions_of_a_second_count_at_the_bounds() {
    let list = vec![Interval {
        start_time: UtcInstant { secs: 100, nanos: 1 },
        end_time: UtcInstant { secs: 200, nanos: 999_999_999 },
        price_no_vat: 1.0,
        price_with_vat: 2.0,
    }];
    assert_eq!(find_in_list(&list, 100), None);
    assert_eq!(find_in_list(&list, 101), Some(2.0));
    assert_eq!(find_in_list(&list, 200), Some(2.0));
    assert_eq!(find_in_list(&list, 201), None);
}

#[test]
fn price_takes_the_list_of_the_tariff() {
    let network = PriceList {
        time_based_energy_day_prices: vec![interval(0, 100, 5.0)],
        time_based_energy_night_prices: vec![interval(0, 100, 3.0)],
    };
    let sales = PriceList {
        time_based_energy_day_prices: vec![interval(0, 100, 8.0)],
        time_based_energy_night_prices: vec![interval(50, 100, 6.0)],
    };
    let m = model(network, Some(sales));
    assert_eq!(find_price(10, Tariff::Day, &m), Price { transfer: Some(5.0), energy: Some(8.0) });
    assert_eq!(find_price(10, Tariff::Night, &m), Price { transfer: Some(3.0), energy: None });
    assert_eq!(find_price(60, Tariff::Night, &m), Price { transfer: Some(3.0), energy: Some(6.0) });
    assert_eq!(find_price(101, Tariff::Day, &m), Price { transfer: None, energy: None });
}

#[test]
fn without_sales_list_there_is_no_energy_price() {
    let network = PriceList {
        time_based_energy_day_prices: vec![interval(0, 100, 5.0)],
        time_based_energy_night_prices: Vec::new(),
    };
    let m = model(network, None);
    assert_eq!(find_price(10, Tariff::Day, &m), Price { transfer: Some(5.0), energy: None });
    assert_eq!(find_price(10, Tariff::Night, &m), Price { transfer: None, energy: None });
}

//! The price per unit that holds at an instant for a tariff.

use vstd::prelude::*;

use crate::measurement::{Price, Tariff};
use crate::model::{Model, Price as Interval, PriceList};

verus! {

/// The interval of a price contains the start of second `utc`.
pub open spec fn covers<V>(price: Interval<V>, utc: i64) -> bool {
    price.start_time.not_after_second(utc as int) && price.end_time.not_before_second(utc as int)
}

/// The price of the first interval of a list that contains `utc`.
pub open spec fn first_covering<V>(list: Seq<Interval<V>>, utc: i64) -> Option<V>
    decreases list.len(),
{
    if list.len() == 0 {
        None
    } else if covers(list[0], utc) {
        Some(list[0].price_with_vat)
    } else {
        first_covering(list.drop_first(), utc)
    }
}

/// The intervals of a price list that belong to a tariff.
pub open spec fn tariff_prices<V>(list: PriceList<V>, tariff: Tariff) -> Seq<Interval<V>> {
    match tariff {
        Tariff::Day => list.time_based_energy_day_prices@,
        Tariff::Night => list.time_based_energy_night_prices@,
    }
}

/// The price per unit at `utc` for a tariff. Without a sales price list
/// there is no energy price.
pub open spec fn unit_price<V>(model: Model<V>, utc: i64, tariff: Tariff) -> Price<V> {
    Price {
        transfer: first_covering(tariff_prices(model.network_price_list, tariff), utc),
        energy: match model.sales_price_list {
            Some(list) => first_covering(tariff_prices(list, tariff), utc),
            None => None,
        },
    }
}

/// Scans a list of intervals for the first one that contains `timestamp`.
pub fn find_in_list<V: Copy>(list: &Vec<Interval<V>>, timestamp: i64) -> (r: Option<V>)
    ensures
        r == first_covering(list@, timestamp),
{
    let mut i: usize = 0;
    assert(list@.skip(0) == list@);
    while i < list.len()
        invariant
            i <= list.len(),
            first_covering(list@, timestamp) == first_covering(list@.skip(i as int), timestamp),
        decreases list.len() - i,
    {
        let price = list[i];
        if price.start_time.is_not_after_second(timestamp) && price.end_time.is_not_before_second(
            timestamp,
        ) {
            return Some(price.price_with_vat);
        }
        assert(list@.skip(i as int).drop_first() == list@.skip(i + 1));
        i += 1;
    }
    None
}

/// Resolves the transfer price and the energy price per unit at a UTC
/// second.
pub fn find_price<V: Copy>(timestamp: i64, tariff: Tariff, model: &Model<V>) -> (r: Price<V>)
    ensures
        r == unit_price(*model, timestamp, tariff),
{
    let transfer = match tariff {
        Tariff::Day => find_in_list(&model.network_price_list.time_based_energy_day_prices, timestamp),
        Tariff::Night => find_in_list(
            &model.network_price_list.time_based_energy_night_prices,
            timestamp,
        ),
    };
    let energy = match &model.sales_price_list {
        Some(list) => match tariff {
            Tariff::Day => find_in_list(&list.time_based_energy_day_prices, timestamp),
            Tariff::Night => find_in_list(&list.time_based_energy_night_prices, timestamp),
        },
        None => None,
    };
    Price { transfer, energy }
}

/// The first interval that contains an instant gives the price, whatever
/// the intervals after it hold.
pub proof fn lemma_first_covering<V>(list: Seq<Interval<V>>, utc: i64, i: int)
    requires
        0 <= i < list.len(),
        covers(list[i], utc),
        forall|j: int| 0 <= j < i ==> !covers(#[trigger] list[j], utc),
    ensures
        first_covering(list, utc) == Some(list[i].price_with_vat),
    decreases i,
{
    if i > 0 {
        let rest = list.drop_first();
        lemma_first_covering(rest, utc, i - 1);
    }
}

/// Where no interval contains an instant there is no price.
pub proof fn lemma_none_covering<V>(list: Seq<Interval<V>>, utc: i64)
    requires
        forall|j: int| 0 <= j < list.len() ==> !covers(#[trigger] list[j], utc),
    ensures
        first_covering(list, utc) is None,
    decreases list.len(),
{
    if list.len() > 0 {
        let rest = list.drop_first();
        lemma_none_covering(rest, utc);
    }
}

} // verus!

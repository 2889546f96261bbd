//! Price observations lined up asset by asset and day by day, return series
//! in ascending order, and the observations that the risk measures are read
//! from.

use vstd::prelude::*;
use crate::data::{names_of, Record};
use crate::error::PortfolioError;
use crate::ordering::{
    ascending_order, ascending_order_of, comes_before, insertion_place, is_ascending_order,
    lemma_ascending_order_exists,
};
use crate::scalar::{all_numbers, Scalar};
use crate::utils::name_place;

verus! {

/// The ranks of the observations of a series, place by place.
pub open spec fn ranks_of(values: Seq<Scalar>) -> Seq<i128> {
    Seq::new(values.len(), |i: int| values[i].rank() as i128)
}

/// The observations of `values` in ascending order. Equal observations keep
/// the order in which they stand in `values`.
pub open spec fn sorted_ascending(values: Seq<Scalar>) -> Seq<Scalar> {
    Seq::new(values.len(), |a: int| values[ascending_order_of(ranks_of(values))[a] as int])
}

/// The ranks of the observations of a series, place by place.
pub fn ranks(values: &Vec<Scalar>) -> (r: Vec<i128>)
    ensures
        r@ == ranks_of(values@),
{
    let mut r: Vec<i128> = Vec::new();
    let mut i: usize = 0;
    while i < values.len()
        invariant
            i <= values.len(),
            r@ == ranks_of(values@).take(i as int),
        decreases values.len() - i,
    {
        r.push(values[i].rank_value() as i128);
        assert(r@ == ranks_of(values@).take(i + 1));
        i += 1;
    }
    assert(ranks_of(values@).take(i as int) == ranks_of(values@));
    r
}

/// Whether every entry of `values` is a number.
pub fn only_numbers(values: &Vec<Scalar>) -> (r: bool)
    ensures
        r == all_numbers(values@),
{
    let mut i: usize = 0;
    while i < values.len()
        invariant
            i <= values.len(),
            forall|j: int| 0 <= j < i ==> !(#[trigger] values@[j]).spec_is_nan(),
        decreases values.len() - i,
    {
        if values[i].is_nan() {
            return false;
        }
        i += 1;
    }
    true
}

/// The observations of `values` in ascending order. Equal observations keep
/// the order in which they stand in `values`.
pub fn sort_ascending(values: &Vec<Scalar>) -> (sorted: Vec<Scalar>)
    ensures
        sorted@ == sorted_ascending(values@),
{
    let keys = ranks(values);
    let order = ascending_order(&keys);
    let mut sorted: Vec<Scalar> = Vec::new();
    let mut a: usize = 0;
    while a < order.len()
        invariant
            a <= order.len(),
            order.len() == values.len(),
            order@ == ascending_order_of(ranks_of(values@)),
            is_ascending_order(order@, ranks_of(values@)),
            sorted@ == sorted_ascending(values@).take(a as int),
        decreases order.len() - a,
    {
        sorted.push(values[order[a]]);
        assert(sorted@ == sorted_ascending(values@).take(a + 1));
        a += 1;
    }
    assert(sorted_ascending(values@).take(a as int) == sorted_ascending(values@));
    sorted
}

/// The place, in the ascending series, of the observation that is the value
/// at risk: place `tail` where the series is longer than that, and the last
/// place where it is not.
pub open spec fn quantile_place(tail: int, len: int) -> int {
    if tail >= len {
        len - 1
    } else {
        tail
    }
}

/// The value at risk of a series that is not empty: the observation in place
/// `quantile_place` of the ascending series. It is an observation of the
/// series, never a value between two of them.
pub open spec fn value_at_risk(series: Seq<Scalar>, tail: int) -> Scalar {
    sorted_ascending(series)[quantile_place(tail, series.len() as int)]
}

/// The value at risk of a series of returns, where `tail` is the number of
/// observations that count as the tail: the confidence level's complement
/// times the length of the series, rounded up. The series has to hold
/// numbers only: what is not a number has no place in an ascending order.
pub fn portfolio_var(series: &Vec<Scalar>, tail: usize) -> (r: Result<Scalar, PortfolioError>)
    requires
        all_numbers(series@),
    ensures
        series@.len() == 0 ==> r == Err::<Scalar, PortfolioError>(PortfolioError::EmptyReturns),
        series@.len() > 0 ==> r == Ok::<Scalar, PortfolioError>(
            value_at_risk(series@, tail as int),
        ),
{
    let len = series.len();
    if len == 0 {
        return Err(PortfolioError::EmptyReturns);
    }
    let sorted = sort_ascending(series);
    if tail >= len {
        Ok(sorted[len - 1])
    } else {
        Ok(sorted[tail])
    }
}

/// What the conditional value at risk is made of.
#[derive(Debug)]
pub enum TailRisk {
    /// The tail takes in the whole series: the measure is this observation,
    /// the last of the ascending series.
    Observation(Scalar),
    /// The measure is the arithmetic mean of these observations, the first
    /// ones of the ascending series, in ascending order.
    MeanOf(Vec<Scalar>),
}

/// What the conditional value at risk of a series of returns is made of,
/// where `tail` is the number of observations that count as the tail. The
/// series has to hold numbers only.
pub fn portfolio_cvar(series: &Vec<Scalar>, tail: usize) -> (r: Result<TailRisk, PortfolioError>)
    requires
        all_numbers(series@),
    ensures
        series@.len() == 0 ==> (r matches Err(e) && e == PortfolioError::EmptyReturns),
        series@.len() > 0 && tail >= series@.len() ==> (r matches Ok(TailRisk::Observation(worst))
            && worst == sorted_ascending(series@).last()),
        series@.len() > 0 && tail < series@.len() ==> (r matches Ok(TailRisk::MeanOf(worst))
            && worst@ == sorted_ascending(series@).take(tail as int)),
{
    let len = series.len();
    if len == 0 {
        return Err(PortfolioError::EmptyReturns);
    }
    let mut sorted = sort_ascending(series);
    if tail >= len {
        Ok(TailRisk::Observation(sorted[len - 1]))
    } else {
        sorted.truncate(tail);
        assert(sorted@ == sorted_ascending(series@).take(tail as int));
        Ok(TailRisk::MeanOf(sorted))
    }
}

/// The ascending series of a series with one more observation is the
/// ascending series of the earlier ones with the new one put in.
proof fn lemma_sorted_step(values: Seq<Scalar>) -> (p: int)
    requires
        0 < values.len() <= usize::MAX,
    ensures
        0 <= p <= values.len() - 1,
        sorted_ascending(values) == sorted_ascending(values.drop_last()).insert(p, values.last()),
{
    let keys = ranks_of(values);
    let before = values.drop_last();
    assert(ranks_of(before) =~= keys.drop_last());
    let earlier = ascending_order_of(keys.drop_last());
    lemma_ascending_order_exists(keys.drop_last());
    lemma_ascending_order_exists(keys);
    let p = insertion_place(earlier, keys, keys.last() as int);
    crate::ordering::lemma_insertion_place_of_order(keys);
    let order = ascending_order_of(keys);
    let grown = sorted_ascending(before).insert(p, values.last());
    assert forall|a: int| 0 <= a < values.len() implies sorted_ascending(values)[a] == grown[a] by {
        if a < p {
            assert(order[a] == earlier[a]);
            assert(earlier[a] < before.len());
        } else if a > p {
            assert(order[a] == earlier[a - 1]);
            assert(earlier[a - 1] < before.len());
        }
    }
    assert(sorted_ascending(values) =~= grown);
    p
}

/// The ascending series holds the observations of the series it was made
/// from, each as often as the series holds it, and no observation of it is
/// above a later one.
pub proof fn lemma_sorted_ascending(values: Seq<Scalar>)
    requires
        values.len() <= usize::MAX,
    ensures
        sorted_ascending(values).len() == values.len(),
        sorted_ascending(values).to_multiset() == values.to_multiset(),
        forall|a: int, b: int|
            0 <= a <= b < values.len() ==> (#[trigger] sorted_ascending(values)[a]).rank() <= (
            #[trigger] sorted_ascending(values)[b]).rank(),
    decreases values.len(),
{
    lemma_ascending_order_exists(ranks_of(values));
    let order = ascending_order_of(ranks_of(values));
    let sorted = sorted_ascending(values);
    assert forall|a: int, b: int| 0 <= a <= b < values.len() implies (#[trigger] sorted[a]).rank() <= (
    #[trigger] sorted[b]).rank() by {
        if a < b {
            assert(comes_before(ranks_of(values), order[a] as int, order[b] as int));
        }
    }
    if values.len() == 0 {
        assert(sorted =~= values);
    } else {
        let before = values.drop_last();
        lemma_sorted_ascending(before);
        let p = lemma_sorted_step(values);
        vstd::seq_lib::to_multiset_insert(sorted_ascending(before), p, values.last());
        vstd::seq_lib::to_multiset_build(before, values.last());
        assert(before.push(values.last()) =~= values);
    }
}

/// No observation of the tail is above the value at risk: the tail's mean
/// is taken over observations that the value at risk bounds from above.
pub proof fn lemma_tail_not_above_value_at_risk(series: Seq<Scalar>, tail: int, i: int)
    requires
        series.len() <= usize::MAX,
        0 <= i < tail < series.len(),
    ensures
        sorted_ascending(series).take(tail)[i].rank() <= value_at_risk(series, tail).rank(),
{
    lemma_sorted_ascending(series);
    assert(sorted_ascending(series)[i].rank() <= sorted_ascending(series)[tail].rank());
}

/// The assets that the first `upto` observations name, each once, in the
/// order in which they are first named.
pub open spec fn asset_names_upto(data: Seq<Record>, upto: int) -> Seq<Seq<char>>
    decreases upto,
{
    if upto <= 0 {
        Seq::empty()
    } else {
        let earlier = asset_names_upto(data, upto - 1);
        if earlier.contains(data[upto - 1].asset@) {
            earlier
        } else {
            earlier.push(data[upto - 1].asset@)
        }
    }
}

/// The assets that the observations name, each once, in the order in which
/// they are first named.
pub open spec fn asset_names(data: Seq<Record>) -> Seq<Seq<char>> {
    asset_names_upto(data, data.len() as int)
}

/// The places, among the first `upto` observations, of those of the asset
/// `name`, in the order in which they stand.
pub open spec fn places_upto(data: Seq<Record>, name: Seq<char>, upto: int) -> Seq<usize>
    decreases upto,
{
    if upto <= 0 {
        Seq::empty()
    } else if data[upto - 1].asset@ == name {
        places_upto(data, name, upto - 1).push((upto - 1) as usize)
    } else {
        places_upto(data, name, upto - 1)
    }
}

/// The places of the observations of the asset `name`, in the order in which
/// they stand.
pub open spec fn places_of(data: Seq<Record>, name: Seq<char>) -> Seq<usize> {
    places_upto(data, name, data.len() as int)
}

/// The days of the observations in the given places, as ordinals.
pub open spec fn days_at(data: Seq<Record>, places: Seq<usize>) -> Seq<i128> {
    Seq::new(places.len(), |a: int| data[places[a] as int].date.ordinal() as i128)
}

/// The places of the observations of the asset `name` day by day, the
/// earliest first. Where two observations of the asset bear the same day,
/// the one that stands first among the observations comes first.
pub open spec fn chronological_places(data: Seq<Record>, name: Seq<char>) -> Seq<usize> {
    let places = places_of(data, name);
    let order = ascending_order_of(days_at(data, places));
    Seq::new(places.len(), |a: int| places[order[a] as int])
}

/// The prices of the asset `name` day by day, the earliest first.
pub open spec fn chronological_prices(data: Seq<Record>, name: Seq<char>) -> Seq<Scalar> {
    let places = chronological_places(data, name);
    Seq::new(places.len(), |a: int| data[places[a] as int].price)
}

proof fn lemma_places_upto(data: Seq<Record>, name: Seq<char>, upto: int)
    requires
        0 <= upto <= data.len() <= usize::MAX,
    ensures
        places_upto(data, name, upto).len() <= upto,
        forall|a: int|
            0 <= a < places_upto(data, name, upto).len() ==> (#[trigger] places_upto(
                data,
                name,
                upto,
            )[a]) < upto && data[places_upto(data, name, upto)[a] as int].asset@ == name,
        forall|a: int, b: int|
            0 <= a < b < places_upto(data, name, upto).len() ==> (#[trigger] places_upto(
                data,
                name,
                upto,
            )[a]) < (#[trigger] places_upto(data, name, upto)[b]),
        forall|place: int|
            0 <= place < upto && data[place].asset@ == name ==> places_upto(
                data,
                name,
                upto,
            ).contains(place as usize),
    decreases upto,
{
    if upto > 0 {
        lemma_places_upto(data, name, upto - 1);
        let earlier = places_upto(data, name, upto - 1);
        let now = places_upto(data, name, upto);
        assert forall|place: int| 0 <= place < upto && data[place].asset@ == name implies now.contains(
            place as usize,
        ) by {
            if place < upto - 1 {
                let a = choose|a: int| 0 <= a < earlier.len() && earlier[a] == place as usize;
                assert(now[a] == place as usize);
            } else {
                assert(now[now.len() - 1] == place as usize);
            }
        }
    }
}

/// The chronological places of an asset are places of observations of that
/// asset, each of them once and none left out; their days do not go back;
/// and of two with the same day the one that stands first among the
/// observations comes first.
pub proof fn lemma_chronological_places(data: Seq<Record>, name: Seq<char>)
    requires
        data.len() <= usize::MAX,
    ensures
        forall|a: int|
            0 <= a < chronological_places(data, name).len() ==> (#[trigger] chronological_places(
                data,
                name,
            )[a]) < data.len() && data[chronological_places(data, name)[a] as int].asset@ == name,
        forall|a: int, b: int|
            0 <= a < b < chronological_places(data, name).len() ==> {
                let first = data[(#[trigger] chronological_places(data, name)[a]) as int];
                let second = data[(#[trigger] chronological_places(data, name)[b]) as int];
                &&& !second.date.spec_precedes(first.date)
                &&& chronological_places(data, name)[a] != chronological_places(data, name)[b]
                &&& first.date == second.date ==> chronological_places(data, name)[a]
                    < chronological_places(data, name)[b]
            },
        forall|place: int|
            0 <= place < data.len() && data[place].asset@ == name ==> chronological_places(
                data,
                name,
            ).contains(place as usize),
{
    let places = places_of(data, name);
    let days = days_at(data, places);
    let order = ascending_order_of(days);
    let arranged = chronological_places(data, name);
    lemma_places_upto(data, name, data.len() as int);
    lemma_ascending_order_exists(days);
    assert forall|a: int| 0 <= a < arranged.len() implies (#[trigger] arranged[a]) < data.len()
        && data[arranged[a] as int].asset@ == name by {
        assert(order[a] < places.len());
    }
    assert forall|a: int, b: int| 0 <= a < b < arranged.len() implies {
        let first = data[(#[trigger] arranged[a]) as int];
        let second = data[(#[trigger] arranged[b]) as int];
        &&& !second.date.spec_precedes(first.date)
        &&& arranged[a] != arranged[b]
        &&& first.date == second.date ==> arranged[a] < arranged[b]
    } by {
        assert(order[a] < places.len() && order[b] < places.len());
        assert(comes_before(days, order[a] as int, order[b] as int));
        let first = data[arranged[a] as int];
        let second = data[arranged[b] as int];
        first.date.lemma_ordinal_orders(second.date);
        second.date.lemma_ordinal_orders(first.date);
        if order[a] < order[b] {
            assert(places[order[a] as int] < places[order[b] as int]);
        } else {
            assert(places[order[b] as int] < places[order[a] as int]);
        }
    }
    assert forall|place: int| 0 <= place < data.len() && data[place].asset@ == name implies arranged.contains(
        place as usize,
    ) by {
        let at = choose|at: int| 0 <= at < places.len() && places[at] == place as usize;
        crate::ordering::lemma_order_names_every_place(order, days, at);
        let a = choose|a: int| 0 <= a < order.len() && order[a] == at;
        assert(arranged[a] == place as usize);
    }
}

/// The number of observations of that asset among `names` which has the
/// fewest.
pub open spec fn shortest_history(data: Seq<Record>, names: Seq<Seq<char>>) -> int
    decreases names.len(),
{
    if names.len() == 0 {
        usize::MAX as int
    } else {
        let others = shortest_history(data, names.drop_last());
        let own = places_of(data, names.last()).len() as int;
        if own < others {
            own
        } else {
            others
        }
    }
}

/// The fewest observations that an asset may have: three prices give the
/// two returns that a sample covariance needs.
pub const MIN_OBSERVATIONS: usize = 3;

/// Prices lined up for the estimator: one row per asset, one column per
/// period, every row as long as the shortest history.
#[derive(Debug)]
pub struct PriceHistory {
    pub assets: Vec<String>,
    pub prices: Vec<Vec<Scalar>>,
}

impl PriceHistory {
    /// Whether the rows are those of `data`: the assets in the order in which
    /// `data` first names them, and for each asset its prices day by day, cut
    /// to the length of the shortest history. An asset with a longer history
    /// loses its latest prices.
    pub open spec fn lines_up(&self, data: Seq<Record>) -> bool {
        let names = asset_names(data);
        let length = shortest_history(data, names);
        &&& names_of(self.assets@) == names
        &&& self.prices@.len() == names.len()
        &&& forall|i: int|
            0 <= i < names.len() ==> (#[trigger] self.prices@[i])@ == chronological_prices(
                data,
                names[i],
            ).take(length)
    }
}

/// The assets that the observations name, each once, in the order in which
/// they are first named.
pub fn distinct_assets(data: &Vec<Record>) -> (assets: Vec<String>)
    ensures
        names_of(assets@) == asset_names(data@),
{
    let mut assets: Vec<String> = Vec::new();
    let mut i: usize = 0;
    while i < data.len()
        invariant
            i <= data.len(),
            names_of(assets@) == asset_names_upto(data@, i as int),
        decreases data.len() - i,
    {
        match name_place(&assets, &data[i].asset) {
            Some(place) => {
                assert(names_of(assets@)[place as int] == data@[i as int].asset@);
            },
            None => {
                let ghost before = names_of(assets@);
                assets.push(data[i].asset.clone());
                assert(names_of(assets@) =~= before.push(data@[i as int].asset@));
            },
        }
        i += 1;
    }
    assets
}

/// The prices of the asset `name` day by day, the earliest first.
pub fn price_series(data: &Vec<Record>, name: &String) -> (prices: Vec<Scalar>)
    ensures
        prices@ == chronological_prices(data@, name@),
{
    let mut places: Vec<usize> = Vec::new();
    let mut days: Vec<i128> = Vec::new();
    let mut i: usize = 0;
    while i < data.len()
        invariant
            i <= data.len(),
            places@ == places_upto(data@, name@, i as int),
            forall|a: int| 0 <= a < places@.len() ==> (#[trigger] places@[a]) < i,
            days@ == days_at(data@, places@),
        decreases data.len() - i,
    {
        if data[i].asset == *name {
            places.push(i);
            days.push(data[i].date.ordinal_value());
            assert(days@ =~= days_at(data@, places@));
        }
        i += 1;
    }
    let order = ascending_order(&days);
    let mut prices: Vec<Scalar> = Vec::new();
    let mut a: usize = 0;
    while a < order.len()
        invariant
            a <= order.len(),
            order@.len() == places@.len(),
            places@ == places_of(data@, name@),
            forall|b: int| 0 <= b < places@.len() ==> (#[trigger] places@[b]) < data@.len(),
            is_ascending_order(order@, days_at(data@, places@)),
            order@ == ascending_order_of(days_at(data@, places@)),
            prices@ == chronological_prices(data@, name@).take(a as int),
        decreases order.len() - a,
    {
        assert(order@[a as int] < places@.len());
        assert(chronological_places(data@, name@)[a as int] == places@[order@[a as int] as int]);
        prices.push(data[places[order[a]]].price);
        assert(prices@ =~= chronological_prices(data@, name@).take(a + 1));
        a += 1;
    }
    assert(chronological_prices(data@, name@).take(a as int) =~= chronological_prices(
        data@,
        name@,
    ));
    prices
}

/// Lines the observations up for the estimator. A run needs one asset at
/// least, and of every asset enough observations.
pub fn align_prices(data: &Vec<Record>) -> (r: Result<PriceHistory, PortfolioError>)
    ensures
        match r {
            Ok(history) => {
                &&& data@.len() > 0
                &&& shortest_history(data@, asset_names(data@)) >= MIN_OBSERVATIONS
                &&& history.lines_up(data@)
            },
            Err(error) => if data@.len() == 0 {
                error == PortfolioError::InsufficientAssets
            } else {
                &&& shortest_history(data@, asset_names(data@)) < MIN_OBSERVATIONS
                &&& error == PortfolioError::InsufficientHistory {
                    shortest: shortest_history(data@, asset_names(data@)) as usize,
                }
            },
        },
{
    let assets = distinct_assets(data);
    if assets.len() == 0 {
        proof {
            if data@.len() > 0 {
                lemma_names_grow(data@, data@.len() as int);
            }
        }
        return Err(PortfolioError::InsufficientAssets);
    }
    proof {
        if data@.len() == 0 {
            assert(asset_names_upto(data@, 0).len() == 0);
        }
    }
    let ghost names = asset_names(data@);
    let mut prices: Vec<Vec<Scalar>> = Vec::new();
    let mut shortest: usize = usize::MAX;
    let mut i: usize = 0;
    while i < assets.len()
        invariant
            i <= assets.len(),
            names == asset_names(data@),
            names_of(assets@) == names,
            prices@.len() == i,
            shortest == shortest_history(data@, names.take(i as int)),
            forall|j: int|
                0 <= j < i ==> (#[trigger] prices@[j])@ == chronological_prices(data@, names[j]),
        decreases assets.len() - i,
    {
        let series = price_series(data, &assets[i]);
        assert(names_of(assets@)[i as int] == assets@[i as int]@);
        assert(names.take(i + 1).drop_last() =~= names.take(i as int));
        assert(names.take(i + 1).last() == names[i as int]);
        if series.len() < shortest {
            shortest = series.len();
        }
        prices.push(series);
        i += 1;
    }
    assert(names.take(i as int) =~= names);
    if shortest < MIN_OBSERVATIONS {
        return Err(PortfolioError::InsufficientHistory { shortest });
    }
    let mut k: usize = 0;
    while k < prices.len()
        invariant
            k <= prices.len(),
            prices@.len() == names.len(),
            shortest == shortest_history(data@, names),
            forall|j: int|
                0 <= j < k ==> (#[trigger] prices@[j])@ == chronological_prices(
                    data@,
                    names[j],
                ).take(shortest as int),
            forall|j: int|
                k <= j < prices@.len() ==> (#[trigger] prices@[j])@ == chronological_prices(
                    data@,
                    names[j],
                ),
        decreases prices.len() - k,
    {
        proof {
            lemma_shortest_is_lower_bound(data@, names, k as int);
        }
        let mut row: Vec<Scalar> = Vec::new();
        let mut t: usize = 0;
        while t < shortest
            invariant
                t <= shortest,
                k < prices@.len(),
                shortest <= prices@[k as int]@.len(),
                row@ == prices@[k as int]@.take(t as int),
            decreases shortest - t,
        {
            row.push(prices[k][t]);
            assert(row@ =~= prices@[k as int]@.take(t + 1));
            t += 1;
        }
        let ghost before = prices@;
        prices.set(k, row);
        assert forall|j: int| k < j < prices@.len() implies (#[trigger] prices@[j])@
            == chronological_prices(data@, names[j]) by {
            assert(prices@[j] == before[j]);
        }
        assert forall|j: int| 0 <= j < k implies (#[trigger] prices@[j])@ == chronological_prices(
            data@,
            names[j],
        ).take(shortest as int) by {
            assert(prices@[j] == before[j]);
        }
        k += 1;
    }
    Ok(PriceHistory { assets, prices })
}

/// The days and prices of the observations of the asset `name`, in the
/// order in which they stand.
pub open spec fn observations_of(data: Seq<Record>, name: Seq<char>) -> Seq<(i128, Scalar)> {
    let places = places_of(data, name);
    Seq::new(
        places.len(),
        |a: int| (data[places[a] as int].date.ordinal() as i128, data[places[a] as int].price),
    )
}

/// Two assets that were observed on the same days at the same prices have
/// the same prices day by day.
pub proof fn lemma_same_observations_same_prices(
    data: Seq<Record>,
    first: Seq<char>,
    second: Seq<char>,
)
    requires
        data.len() <= usize::MAX,
        observations_of(data, first) == observations_of(data, second),
    ensures
        chronological_prices(data, first) == chronological_prices(data, second),
{
    lemma_places_upto(data, first, data.len() as int);
    let p1 = places_of(data, first);
    let p2 = places_of(data, second);
    let o1 = observations_of(data, first);
    let o2 = observations_of(data, second);
    assert(p1.len() == o1.len() && p2.len() == o2.len());
    assert forall|a: int| 0 <= a < p1.len() implies days_at(data, p1)[a] == days_at(data, p2)[a] by {
        assert(o1[a] == o2[a]);
    }
    assert(days_at(data, p1) =~= days_at(data, p2));
    let order = ascending_order_of(days_at(data, p1));
    let prices1 = chronological_prices(data, first);
    let prices2 = chronological_prices(data, second);
    assert(prices1.len() == prices2.len());
    lemma_ascending_order_exists(days_at(data, p1));
    assert forall|a: int| 0 <= a < prices1.len() implies prices1[a] == prices2[a] by {
        assert(order[a] < p1.len());
        assert(o1[order[a] as int] == o2[order[a] as int]);
    }
    assert(prices1 =~= prices2);
}

/// No asset is named twice.
pub proof fn lemma_asset_names_distinct(data: Seq<Record>)
    ensures
        asset_names(data).no_duplicates(),
{
    lemma_names_upto_distinct(data, data.len() as int);
}

proof fn lemma_names_upto_distinct(data: Seq<Record>, upto: int)
    ensures
        asset_names_upto(data, upto).no_duplicates(),
    decreases upto,
{
    if upto > 0 {
        lemma_names_upto_distinct(data, upto - 1);
    }
}

/// Every asset that an observation names is among the assets.
pub proof fn lemma_asset_names_complete(data: Seq<Record>, place: int)
    requires
        0 <= place < data.len(),
    ensures
        asset_names(data).contains(data[place].asset@),
{
    lemma_names_upto_complete(data, data.len() as int, place);
}

proof fn lemma_names_upto_complete(data: Seq<Record>, upto: int, place: int)
    requires
        0 <= place < upto,
    ensures
        asset_names_upto(data, upto).contains(data[place].asset@),
    decreases upto,
{
    let earlier = asset_names_upto(data, upto - 1);
    let now = asset_names_upto(data, upto);
    if place < upto - 1 {
        lemma_names_upto_complete(data, upto - 1, place);
        let i = choose|i: int| 0 <= i < earlier.len() && earlier[i] == data[place].asset@;
        assert(now[i] == data[place].asset@);
    } else if earlier.contains(data[place].asset@) {
    } else {
        assert(now[now.len() - 1] == data[place].asset@);
    }
}

/// All rows of lined-up prices have one length: that of the shortest
/// history.
pub proof fn lemma_rows_share_length(history: PriceHistory, data: Seq<Record>, i: int)
    requires
        history.lines_up(data),
        0 <= i < history.prices@.len(),
    ensures
        history.prices@[i]@.len() == shortest_history(data, asset_names(data)),
{
    let names = asset_names(data);
    lemma_shortest_is_lower_bound(data, names, i);
    lemma_shortest_not_negative(data, names);
}

proof fn lemma_shortest_not_negative(data: Seq<Record>, names: Seq<Seq<char>>)
    ensures
        shortest_history(data, names) >= 0,
    decreases names.len(),
{
    if names.len() > 0 {
        lemma_shortest_not_negative(data, names.drop_last());
    }
}

/// Observations that are there name an asset.
proof fn lemma_names_grow(data: Seq<Record>, upto: int)
    requires
        0 < upto <= data.len(),
    ensures
        asset_names_upto(data, upto).len() > 0,
    decreases upto,
{
    if upto > 1 {
        lemma_names_grow(data, upto - 1);
    }
}

/// No asset has fewer observations than the shortest history.
proof fn lemma_shortest_is_lower_bound(data: Seq<Record>, names: Seq<Seq<char>>, i: int)
    requires
        0 <= i < names.len(),
    ensures
        shortest_history(data, names) <= places_of(data, names[i]).len(),
    decreases names.len(),
{
    if i < names.len() - 1 {
        lemma_shortest_is_lower_bound(data, names.drop_last(), i);
    }
}

/// What the estimator hands to the optimizer: the assets, the mean return
/// of each, the sample covariance of their returns, and the returns
/// themselves, one row per asset and one column per period.
#[derive(Debug)]
pub struct PortfolioStats {
    pub assets: Vec<String>,
    pub mean_returns: Vec<Scalar>,
    pub covariance: Vec<Vec<Scalar>>,
    pub returns_matrix: Vec<Vec<Scalar>>,
}

/// Whether every row of `matrix` has the length `width`.
pub open spec fn rows_have_width(matrix: Seq<Vec<Scalar>>, width: int) -> bool {
    forall|i: int| 0 <= i < matrix.len() ==> (#[trigger] matrix[i])@.len() == width
}

/// The place of the first row of `matrix` whose length is not `width`, or
/// nothing where every row has that length.
pub fn first_row_off_width(matrix: &Vec<Vec<Scalar>>, width: usize) -> (r: Option<usize>)
    ensures
        match r {
            Some(i) => i < matrix@.len() && matrix@[i as int]@.len() != width && rows_have_width(
                matrix@.take(i as int),
                width as int,
            ),
            None => rows_have_width(matrix@, width as int),
        },
{
    let mut i: usize = 0;
    while i < matrix.len()
        invariant
            i <= matrix.len(),
            rows_have_width(matrix@.take(i as int), width as int),
        decreases matrix.len() - i,
    {
        if matrix[i].len() != width {
            return Some(i);
        }
        assert forall|j: int| 0 <= j < i + 1 implies (#[trigger] matrix@.take(i + 1)[j])@.len()
            == width by {
            if j < i {
                assert(matrix@.take(i as int)[j] == matrix@.take(i + 1)[j]);
            }
        }
        i += 1;
    }
    assert(matrix@.take(i as int) == matrix@);
    None
}

impl PortfolioStats {
    /// The number of assets.
    pub open spec fn asset_count(&self) -> int {
        self.assets@.len() as int
    }

    /// The number of periods that the returns cover.
    pub open spec fn periods(&self) -> int {
        if self.returns_matrix@.len() > 0 {
            self.returns_matrix@[0]@.len() as int
        } else {
            0
        }
    }

    /// Whether the parts fit together: there is an asset, every part has one
    /// entry or one row per asset, the covariance matrix is square, and all
    /// assets have returns for the same periods, two at least.
    pub open spec fn well_formed(&self) -> bool {
        &&& self.asset_count() > 0
        &&& self.mean_returns@.len() == self.asset_count()
        &&& self.covariance@.len() == self.asset_count()
        &&& rows_have_width(self.covariance@, self.asset_count())
        &&& self.returns_matrix@.len() == self.asset_count()
        &&& rows_have_width(self.returns_matrix@, self.periods())
        &&& self.periods() >= 2
    }

    /// Puts the statistics together, if the parts fit. The parts are looked
    /// at in this order: the assets, the mean returns, the rows of the
    /// covariance matrix and their lengths, the rows of the returns and
    /// their lengths, and the number of periods. Returns over fewer than two
    /// periods count as a history that is too short: a history has one
    /// observation more than it has periods.
    pub fn new(
        assets: Vec<String>,
        mean_returns: Vec<Scalar>,
        covariance: Vec<Vec<Scalar>>,
        returns_matrix: Vec<Vec<Scalar>>,
    ) -> (r: Result<PortfolioStats, PortfolioError>)
        ensures
            match r {
                Ok(stats) => {
                    &&& stats.well_formed()
                    &&& stats.assets == assets
                    &&& stats.mean_returns == mean_returns
                    &&& stats.covariance == covariance
                    &&& stats.returns_matrix == returns_matrix
                },
                Err(error) => {
                    let candidate = PortfolioStats {
                        assets,
                        mean_returns,
                        covariance,
                        returns_matrix,
                    };
                    &&& !candidate.well_formed()
                    &&& error == Self::shape_fault(candidate)
                },
            },
    {
        let n = assets.len();
        if n == 0 {
            return Err(PortfolioError::InsufficientAssets);
        }
        if mean_returns.len() != n {
            return Err(PortfolioError::DimensionMismatch { expected: n, found: mean_returns.len() });
        }
        if covariance.len() != n {
            return Err(PortfolioError::DimensionMismatch { expected: n, found: covariance.len() });
        }
        if let Some(i) = first_row_off_width(&covariance, n) {
            proof {
                lemma_first_off_width(covariance@, n as int, i as int);
            }
            return Err(PortfolioError::DimensionMismatch { expected: n, found: covariance[i].len() });
        }
        if returns_matrix.len() != n {
            return Err(
                PortfolioError::DimensionMismatch { expected: n, found: returns_matrix.len() },
            );
        }
        let periods = returns_matrix[0].len();
        if let Some(i) = first_row_off_width(&returns_matrix, periods) {
            proof {
                lemma_first_off_width(returns_matrix@, periods as int, i as int);
            }
            return Err(
                PortfolioError::DimensionMismatch {
                    expected: periods,
                    found: returns_matrix[i].len(),
                },
            );
        }
        if periods < 2 {
            return Err(PortfolioError::InsufficientHistory { shortest: periods + 1 });
        }
        Ok(PortfolioStats { assets, mean_returns, covariance, returns_matrix })
    }

    /// What is wrong with the shape of statistics that are not well formed:
    /// the first fault in the order in which `new` looks at the parts.
    pub open spec fn shape_fault(candidate: PortfolioStats) -> PortfolioError {
        let n = candidate.assets@.len();
        if n == 0 {
            PortfolioError::InsufficientAssets
        } else if candidate.mean_returns@.len() != n {
            PortfolioError::DimensionMismatch {
                expected: n as usize,
                found: candidate.mean_returns@.len() as usize,
            }
        } else if candidate.covariance@.len() != n {
            PortfolioError::DimensionMismatch {
                expected: n as usize,
                found: candidate.covariance@.len() as usize,
            }
        } else if !rows_have_width(candidate.covariance@, n as int) {
            PortfolioError::DimensionMismatch {
                expected: n as usize,
                found: candidate.covariance@[first_off_width(
                    candidate.covariance@,
                    n as int,
                )]@.len() as usize,
            }
        } else if candidate.returns_matrix@.len() != n {
            PortfolioError::DimensionMismatch {
                expected: n as usize,
                found: candidate.returns_matrix@.len() as usize,
            }
        } else if !rows_have_width(candidate.returns_matrix@, candidate.periods()) {
            PortfolioError::DimensionMismatch {
                expected: candidate.periods() as usize,
                found: candidate.returns_matrix@[first_off_width(
                    candidate.returns_matrix@,
                    candidate.periods(),
                )]@.len() as usize,
            }
        } else {
            PortfolioError::InsufficientHistory { shortest: (candidate.periods() + 1) as usize }
        }
    }

    /// Accepts a weight vector that has one weight per asset.
    pub fn check_weights(&self, weights: &Vec<Scalar>) -> (r: Result<(), PortfolioError>)
        ensures
            weights@.len() == self.returns_matrix@.len() ==> r is Ok,
            weights@.len() != self.returns_matrix@.len() ==> r == Err::<(), PortfolioError>(
                PortfolioError::DimensionMismatch {
                    expected: self.returns_matrix@.len() as usize,
                    found: weights@.len() as usize,
                },
            ),
    {
        check_weight_count(self.returns_matrix.len(), weights.len())
    }
}

/// The place of the first row of `matrix` whose length is not `width`.
pub open spec fn first_off_width(matrix: Seq<Vec<Scalar>>, width: int) -> int
    recommends
        !rows_have_width(matrix, width),
    decreases matrix.len(),
{
    if matrix.len() == 0 {
        0
    } else if rows_have_width(matrix.drop_last(), width) {
        matrix.len() - 1
    } else {
        first_off_width(matrix.drop_last(), width)
    }
}

proof fn lemma_first_off_width(matrix: Seq<Vec<Scalar>>, width: int, i: int)
    requires
        0 <= i < matrix.len(),
        rows_have_width(matrix.take(i), width),
        matrix[i]@.len() != width,
    ensures
        first_off_width(matrix, width) == i,
        !rows_have_width(matrix, width),
    decreases matrix.len(),
{
    let shorter = matrix.drop_last();
    if i == matrix.len() - 1 {
        assert(shorter == matrix.take(i));
    } else {
        assert(shorter[i] == matrix[i]);
        assert(shorter.take(i) == matrix.take(i));
        lemma_first_off_width(shorter, width, i);
    }
}

/// Accepts a weight vector of `weights` entries for a matrix of returns with
/// `rows` rows: the two numbers have to be the same.
pub fn check_weight_count(rows: usize, weights: usize) -> (r: Result<(), PortfolioError>)
    ensures
        rows == weights ==> r is Ok,
        rows != weights ==> r == Err::<(), PortfolioError>(
            PortfolioError::DimensionMismatch { expected: rows, found: weights },
        ),
{
    if rows == weights {
        Ok(())
    } else {
        Err(PortfolioError::DimensionMismatch { expected: rows, found: weights })
    }
}

} // verus!

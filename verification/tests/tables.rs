use portfolio_optimizer::config::ConfigError;
use portfolio_optimizer::data::{row_records, Record};
use portfolio_optimizer::error::PortfolioError;
use portfolio_optimizer::scalar::Scalar;
use portfolio_optimizer::utils::{
    day_place, insert_day, insert_name, name_place, name_stands_before, price_table, sorted_days,
    sorted_names, stands_before, Date,
};

fn scalar(value: f64) -> Scalar {
    Scalar::from_bits(value.to_bits())
}

fn day(d: u32) -> Date {
    Date { year: 2024, month: 3, day: d }
}

fn record(d: u32, asset: &str, price: f64) -> Record {
    Record { date: day(d), asset: asset.to_string(), price: scalar(price) }
}

fn cell(value: Option<f64>) -> Option<Scalar> {
    value.map(scalar)
}

fn names(list: &[&str]) -> Vec<String> {
    list.iter().map(|n| n.to_string()).collect()
}

#[test]
fn names_are_ordered_byte_by_byte() {
    let samples = ["", "A", "AAPL", "AAPLE", "AB", "MSFT", "a", "aapl", "\u{e9}", "z\u{fc}rich", "zz"];
    for a in samples {
        for b in samples {
            assert_eq!(name_stands_before(&a.to_string(), &b.to_string()), a < b, "{a:?} {b:?}");
            assert_eq!(stands_before(a.as_bytes(), b.as_bytes()), a.as_bytes() < b.as_bytes());
        }
    }
}

#[test]
fn days_are_kept_once_and_in_order() {
    let mut days = Vec::new();
    for d in [5, 2, 9, 2, 5, 1] {
        insert_day(&mut days, day(d));
    }
    assert_eq!(days, vec![day(1), day(2), day(5), day(9)]);
    assert_eq!(day_place(&days, day(5)), Some(2));
    assert_eq!(day_place(&days, day(3)), None);
}

#[test]
fn names_are_kept_once_and_in_order() {
    let mut list = Vec::new();
    for n in ["MSFT", "AAPL", "msft", "GOOG", "AAPL", "AAP"] {
        insert_name(&mut list, &n.to_string());
    }
    assert_eq!(list, names(&["AAP", "AAPL", "GOOG", "MSFT", "msft"]));
    assert_eq!(name_place(&list, &"GOOG".to_string()), Some(2));
    assert_eq!(name_place(&list, &"goog".to_string()), None);
}

#[test]
fn a_table_has_a_row_per_day_and_a_column_per_asset() {
    let data = vec![
        record(2, "MSFT", 402.0),
        record(1, "AAPL", 171.0),
        record(3, "AAPL", 173.0),
        record(1, "MSFT", 401.0),
        record(2, "GOOG", 142.0),
    ];
    assert_eq!(sorted_days(&data), vec![day(1), day(2), day(3)]);
    assert_eq!(sorted_names(&data), names(&["AAPL", "GOOG", "MSFT"]));
    let table = price_table(&data);
    assert_eq!(table.days, vec![day(1), day(2), day(3)]);
    assert_eq!(table.assets, names(&["AAPL", "GOOG", "MSFT"]));
    assert_eq!(
        table.cells,
        vec![
            vec![cell(Some(171.0)), cell(None), cell(Some(401.0))],
            vec![cell(None), cell(Some(142.0)), cell(Some(402.0))],
            vec![cell(Some(173.0)), cell(None), cell(None)],
        ]
    );
}

#[test]
fn the_last_of_two_prices_for_one_cell_counts() {
    let data = vec![record(1, "AAPL", 171.0), record(1, "AAPL", 171.5), record(1, "AAPL", 170.9)];
    let table = price_table(&data);
    assert_eq!(table.cells, vec![vec![cell(Some(170.9))]]);
}

#[test]
fn no_observations_make_an_empty_table() {
    let table = price_table(&Vec::new());
    assert!(table.days.is_empty());
    assert!(table.assets.is_empty());
    assert!(table.cells.is_empty());
}

#[test]
fn a_table_row_gives_an_observation_per_price() {
    let headers = names(&["date", "AAPL", "GOOG", "MSFT", "TSLA"]);
    let cells = vec![cell(None), cell(Some(171.0)), cell(None), cell(Some(401.0))];
    let records = row_records(&headers, day(7), &cells);
    assert_eq!(records.len(), 2);
    assert_eq!(records[0].date, day(7));
    assert_eq!(records[0].asset, "AAPL");
    assert_eq!(records[0].price, scalar(171.0));
    assert_eq!(records[1].asset, "MSFT");
    assert_eq!(records[1].price, scalar(401.0));
}

#[test]
fn the_first_column_of_a_table_row_holds_no_price() {
    let headers = names(&["date", "AAPL"]);
    let records = row_records(&headers, day(7), &vec![cell(Some(20240307.0)), cell(Some(171.0))]);
    assert_eq!(records.len(), 1);
    assert_eq!(records[0].asset, "AAPL");
    assert!(row_records(&Vec::new(), day(7), &vec![cell(Some(1.0))]).is_empty());
    assert!(row_records(&names(&["date"]), day(7), &vec![cell(Some(1.0))]).is_empty());
    assert!(row_records(&headers, day(7), &Vec::new()).is_empty());
}

#[test]
fn every_error_has_its_sentence() {
    assert_eq!(PortfolioError::InsufficientAssets.message(), "No assets found in data.");
    assert_eq!(
        PortfolioError::InsufficientHistory { shortest: 1 }.message(),
        "Not enough data points to compute returns."
    );
    assert_eq!(
        PortfolioError::InsufficientHistory { shortest: 2 }.message(),
        "Not enough observations to compute covariance."
    );
    assert_eq!(PortfolioError::SingularCovariance.message(), "The covariance matrix is singular.");
    assert_eq!(
        PortfolioError::WeightNormalization { gap: scalar(0.5) }.message(),
        "Optimal risky weights do not sum to 1."
    );
    assert_eq!(
        PortfolioError::DimensionMismatch { expected: 2, found: 3 }.message(),
        "Weights length doesn't match assets!"
    );
    assert_eq!(
        PortfolioError::InvalidFrontierResolution { requested: 1 }.message(),
        "A frontier needs at least two points."
    );
    assert_eq!(PortfolioError::EmptyReturns.message(), "No returns to measure the risk of.");
    assert_eq!(ConfigError::UnknownMethod.message(), "Unknown optimization method specified.");
    assert_eq!(
        ConfigError::MissingParameter { needed: 2, given: 1 }.message(),
        "The optimization method lacks a parameter."
    );
    assert_eq!(ConfigError::UnknownDataSource.message(), "Unknown data source specified.");
    assert_eq!(
        ConfigError::UnsupportedBroker.message(),
        "Unsupported data broker specified. Please open an issue, specifying your data broker and useful links."
    );
    assert_eq!(ConfigError::UnsupportedTimeframe.message(), "Unsupported timeframe specified.");
}

//! The settings of a run and the choices that they name.

use vstd::prelude::*;
use vstd::string::StringExecFns;
use crate::scalar::Scalar;

verus! {

/// Where the price observations come from: `data_source` names the kind of
/// source, `data_file` the file to read when the source is a file.
#[derive(Clone, Debug)]
pub struct General {
    pub data_source: String,
    pub data_file: String,
}

/// How the optimizer is to work: the sub-method by name, the annual
/// risk-free rate, and the parameters of the sub-method in order (the risk
/// aversion first, then, for the near-optimal method, the share of utility
/// to keep).
#[derive(Clone, Debug)]
pub struct PortofolioOptimization {
    pub method: String,
    pub sub_method: String,
    pub risk_free_rate: Scalar,
    pub params: Vec<Scalar>,
}

/// What to ask of a remote price service.
#[derive(Clone, Debug)]
pub struct DataAPI {
    pub source: String,
    pub api_key: String,
    pub tickers: Vec<String>,
    pub start_date: String,
    pub end_date: String,
    pub timeframe: String,
}

/// All settings of a run.
#[derive(Clone, Debug)]
pub struct Settings {
    pub general: General,
    pub data_api: DataAPI,
    pub portofolio_optimization: PortofolioOptimization,
}

/// Why a configuration cannot be used.
#[derive(Clone, Copy, Debug, PartialEq, Eq, Structural)]
pub enum ConfigError {
    /// The sub-method is none of the known ones.
    UnknownMethod,
    /// The sub-method needs more parameters than were given.
    MissingParameter { needed: usize, given: usize },
    /// The data source is none of the known ones.
    UnknownDataSource,
    /// The remote price service is none of the known ones.
    UnsupportedBroker,
    /// The timeframe is none of the known ones.
    UnsupportedTimeframe,
}

impl ConfigError {
    /// What to tell the user, in a sentence.
    pub open spec fn spec_message(self) -> Seq<char> {
        match self {
            ConfigError::UnknownMethod => "Unknown optimization method specified."@,
            ConfigError::MissingParameter { .. } => "The optimization method lacks a parameter."@,
            ConfigError::UnknownDataSource => "Unknown data source specified."@,
            ConfigError::UnsupportedBroker => "Unsupported data broker specified. Please open an issue, specifying your data broker and useful links."@,
            ConfigError::UnsupportedTimeframe => "Unsupported timeframe specified."@,
        }
    }

    /// What to tell the user, in a sentence.
    pub fn message(&self) -> (r: String)
        ensures
            r@ == self.spec_message(),
    {
        match self {
            ConfigError::UnknownMethod => String::from_str("Unknown optimization method specified."),
            ConfigError::MissingParameter { .. } => String::from_str(
                "The optimization method lacks a parameter.",
            ),
            ConfigError::UnknownDataSource => String::from_str("Unknown data source specified."),
            ConfigError::UnsupportedBroker => String::from_str(
                "Unsupported data broker specified. Please open an issue, specifying your data broker and useful links.",
            ),
            ConfigError::UnsupportedTimeframe => String::from_str("Unsupported timeframe specified."),
        }
    }
}

/// Whether `text` reads exactly as `word`.
pub fn reads_as(text: &String, word: &str) -> (r: bool)
    ensures
        r == (text@ == word@),
{
    let expected = String::from_str(word);
    *text == expected
}

/// Where the price observations come from.
#[derive(Clone, Copy, Debug, PartialEq, Eq, Structural)]
pub enum DataSource {
    /// A file of comma-separated values.
    Csv,
    /// A remote price service.
    Api,
}

impl DataSource {
    /// The source that goes by `name`: `csv` or `api`, written just so.
    pub open spec fn named(name: Seq<char>) -> Result<DataSource, ConfigError> {
        if name == "csv"@ {
            Ok(DataSource::Csv)
        } else if name == "api"@ {
            Ok(DataSource::Api)
        } else {
            Err(ConfigError::UnknownDataSource)
        }
    }

    /// The source that the settings name.
    pub fn from_config(general: &General) -> (r: Result<DataSource, ConfigError>)
        ensures
            r == Self::named(general.data_source@),
    {
        if reads_as(&general.data_source, "csv") {
            Ok(DataSource::Csv)
        } else if reads_as(&general.data_source, "api") {
            Ok(DataSource::Api)
        } else {
            Err(ConfigError::UnknownDataSource)
        }
    }
}

/// What `str::to_lowercase` makes of a text.
pub uninterp spec fn lowercase_of(text: Seq<char>) -> Seq<char>;

/// Calls `str::to_lowercase`. The contract gives the outcome the name
/// `lowercase_of` and says nothing more of it.
#[verifier::external_body]
fn lowercase(text: &str) -> (r: String)
    ensures
        r@ == lowercase_of(text@),
{
    text.to_lowercase()
}

/// A remote price service.
#[derive(Clone, Copy, Debug, PartialEq, Eq, Structural)]
pub enum Broker {
    AlphaVantage,
    Twelve,
}

impl Broker {
    /// The service that goes by `name`, a name in lower case.
    pub open spec fn named(name: Seq<char>) -> Result<Broker, ConfigError> {
        if name == "alphavantage"@ {
            Ok(Broker::AlphaVantage)
        } else if name == "twelve"@ {
            Ok(Broker::Twelve)
        } else {
            Err(ConfigError::UnsupportedBroker)
        }
    }

    /// The service that goes by `name`, a name in lower case.
    pub fn by_name(name: &String) -> (r: Result<Broker, ConfigError>)
        ensures
            r == Self::named(name@),
    {
        if reads_as(name, "alphavantage") {
            Ok(Broker::AlphaVantage)
        } else if reads_as(name, "twelve") {
            Ok(Broker::Twelve)
        } else {
            Err(ConfigError::UnsupportedBroker)
        }
    }

    /// The service that the settings name, in whatever case they write it.
    pub fn from_config(data_api: &DataAPI) -> (r: Result<Broker, ConfigError>)
        ensures
            r == Self::named(lowercase_of(data_api.source@)),
    {
        let name = lowercase(data_api.source.as_str());
        Self::by_name(&name)
    }
}

/// The spacing of the observations asked of a price service.
#[derive(Clone, Copy, Debug, PartialEq, Eq, Structural)]
pub enum Timeframe {
    Daily,
    Weekly,
    Monthly,
}

impl Timeframe {
    /// The timeframe that goes by `name`, a name in lower case.
    pub open spec fn named(name: Seq<char>) -> Result<Timeframe, ConfigError> {
        if name == "daily"@ {
            Ok(Timeframe::Daily)
        } else if name == "weekly"@ {
            Ok(Timeframe::Weekly)
        } else if name == "monthly"@ {
            Ok(Timeframe::Monthly)
        } else {
            Err(ConfigError::UnsupportedTimeframe)
        }
    }

    /// The timeframe that goes by `name`, a name in lower case.
    pub fn by_name(name: &String) -> (r: Result<Timeframe, ConfigError>)
        ensures
            r == Self::named(name@),
    {
        if reads_as(name, "daily") {
            Ok(Timeframe::Daily)
        } else if reads_as(name, "weekly") {
            Ok(Timeframe::Weekly)
        } else if reads_as(name, "monthly") {
            Ok(Timeframe::Monthly)
        } else {
            Err(ConfigError::UnsupportedTimeframe)
        }
    }

    /// The timeframe that the settings name, in whatever case they write it.
    pub fn from_config(data_api: &DataAPI) -> (r: Result<Timeframe, ConfigError>)
        ensures
            r == Self::named(lowercase_of(data_api.timeframe@)),
    {
        let name = lowercase(data_api.timeframe.as_str());
        Self::by_name(&name)
    }

    /// The name of the Alpha Vantage query that answers with this timeframe.
    pub fn alphavantage_function(self) -> (r: &'static str)
        ensures
            r@ == match self {
                Timeframe::Daily => "TIME_SERIES_DAILY"@,
                Timeframe::Weekly => "TIME_SERIES_WEEKLY"@,
                Timeframe::Monthly => "TIME_SERIES_MONTHLY"@,
            },
    {
        match self {
            Timeframe::Daily => "TIME_SERIES_DAILY",
            Timeframe::Weekly => "TIME_SERIES_WEEKLY",
            Timeframe::Monthly => "TIME_SERIES_MONTHLY",
        }
    }

    /// The key under which an Alpha Vantage answer holds its series.
    pub fn alphavantage_series_key(self) -> (r: &'static str)
        ensures
            r@ == match self {
                Timeframe::Daily => "Time Series (Daily)"@,
                Timeframe::Weekly => "Weekly Time Series"@,
                Timeframe::Monthly => "Monthly Time Series"@,
            },
    {
        match self {
            Timeframe::Daily => "Time Series (Daily)",
            Timeframe::Weekly => "Weekly Time Series",
            Timeframe::Monthly => "Monthly Time Series",
        }
    }

    /// The interval by which Twelve Data knows this timeframe.
    pub fn twelve_interval(self) -> (r: &'static str)
        ensures
            r@ == match self {
                Timeframe::Daily => "1day"@,
                Timeframe::Weekly => "1week"@,
                Timeframe::Monthly => "1month"@,
            },
    {
        match self {
            Timeframe::Daily => "1day",
            Timeframe::Weekly => "1week",
            Timeframe::Monthly => "1month",
        }
    }
}

} // verus!

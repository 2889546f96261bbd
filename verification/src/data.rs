//! Price observations.

use vstd::prelude::*;
use vstd::string::StringSliceAdditionalSpecFns;
use crate::scalar::Scalar;
use crate::utils::{date_read_from, parse_date, Date};

verus! {

/// One price observation: what an asset cost on a day.
#[derive(Clone, Debug)]
pub struct Record {
    pub date: Date,
    pub asset: String,
    pub price: Scalar,
}

/// The observations of a run, in no particular order.
pub type HistoricalData = Vec<Record>;

/// The texts of a list of names.
pub open spec fn names_of(assets: Seq<String>) -> Seq<Seq<char>> {
    Seq::new(assets.len(), |i: int| assets[i]@)
}

/// The day of an observation that a price service reports under the date
/// `date_text`, if the observation is to be kept: the text has to read as a
/// date, and the date has to lie in the span from `start` to `end`.
pub open spec fn kept_day(date_text: Seq<char>, start: Date, end: Date) -> Option<Date> {
    match date_read_from(date_text) {
        Some(date) => if date.spec_within(start, end) {
            Some(date)
        } else {
            None
        },
        None => None,
    }
}

/// The day of an observation reported under the date `date_text`, or
/// nothing where the observation is to be passed over.
pub fn observation_day(date_text: &str, start: Date, end: Date) -> (r: Option<Date>)
    ensures
        r == kept_day(date_text@, start, end),
{
    match parse_date(date_text) {
        Ok(date) => if date.within(start, end) {
            Some(date)
        } else {
            None
        },
        Err(_) => None,
    }
}

/// The number of bytes that a date takes at the head of a date and time.
pub const DATE_BYTES: usize = 10;

/// The date part of a text that holds a date and a time: its first ten
/// bytes. There is none where the text is shorter, or where its tenth byte
/// ends in the middle of a character.
pub fn leading_date<'a>(date_time: &'a str) -> (r: Option<&'a str>)
    ensures
        match r {
            Some(part) => {
                &&& date_time.len() >= DATE_BYTES
                &&& date_time.is_char_boundary(DATE_BYTES)
                &&& part.spec_bytes() == date_time.spec_bytes().subrange(0, DATE_BYTES as int)
            },
            None => date_time.len() < DATE_BYTES || !date_time.is_char_boundary(DATE_BYTES),
        },
{
    if date_time.len() >= DATE_BYTES && date_time.is_char_boundary(DATE_BYTES) {
        let (part, _) = date_time.split_at(DATE_BYTES);
        Some(part)
    } else {
        None
    }
}

/// The observations that the first `upto` columns of a table row hold. The
/// first column holds the day and no price; each further column holds the
/// price of the asset that heads it, where the row has a price there.
pub open spec fn row_records_upto(
    headers: Seq<String>,
    date: Date,
    cells: Seq<Option<Scalar>>,
    upto: int,
) -> Seq<Record>
    decreases upto,
{
    if upto <= 1 {
        Seq::empty()
    } else {
        let earlier = row_records_upto(headers, date, cells, upto - 1);
        if upto - 1 < cells.len() && cells[upto - 1] is Some {
            earlier.push(
                Record { date, asset: headers[upto - 1], price: cells[upto - 1]->Some_0 },
            )
        } else {
            earlier
        }
    }
}

/// The observations that one row of a table holds, column by column.
/// `headers` are the headings of the table, `date` is the day of the row, and
/// `cells` holds for each column the price that stands there, if one does.
pub fn row_records(headers: &Vec<String>, date: Date, cells: &Vec<Option<Scalar>>) -> (records: Vec<
    Record,
>)
    ensures
        records@ == row_records_upto(headers@, date, cells@, headers@.len() as int),
{
    let mut records: Vec<Record> = Vec::new();
    let mut i: usize = 1;
    while i < headers.len()
        invariant
            1 <= i,
            i <= headers@.len() || (headers@.len() == 0 && i == 1),
            records@ == row_records_upto(headers@, date, cells@, i as int),
        decreases headers@.len() - i,
    {
        if i < cells.len() {
            if let Some(price) = cells[i] {
                records.push(Record { date, asset: headers[i].clone(), price });
            }
        }
        i += 1;
    }
    assert(row_records_upto(headers@, date, cells@, 0) == row_records_upto(
        headers@,
        date,
        cells@,
        1,
    ));
    records
}

} // verus!

//! Calendar dates and names: how dates are read from text, and how dates
//! and names are ordered.

use vstd::prelude::*;
use vstd::string::StringSliceAdditionalSpecFns;
use vstd::utf8::{encode_utf8, encode_utf8_decode_utf8};
use crate::data::{names_of, Record};
use crate::scalar::Scalar;

verus! {

/// `chrono::ParseError`, the report that chrono gives of a text that it
/// cannot read. Nothing is said of what it holds.
#[verifier::external_type_specification]
#[verifier::external_body]
pub struct ExParseError(chrono::ParseError);

/// A day of the calendar.
#[derive(Clone, Copy, Debug, PartialEq, Eq, Structural)]
pub struct Date {
    pub year: i32,
    pub month: u32,
    pub day: u32,
}

impl Date {
    /// Whether `self` is an earlier day than `other`.
    pub open spec fn spec_precedes(self, other: Date) -> bool {
        self.year < other.year || (self.year == other.year && (self.month < other.month || (
        self.month == other.month && self.day < other.day)))
    }

    /// Whether `self` lies in the span from `start` to `end`, both days
    /// included.
    pub open spec fn spec_within(self, start: Date, end: Date) -> bool {
        !self.spec_precedes(start) && !end.spec_precedes(self)
    }

    /// An integer that orders the days as the calendar does: of two days
    /// the earlier has the smaller ordinal.
    pub open spec fn ordinal(self) -> int {
        (self.year * 0x1_0000_0000 + self.month) * 0x1_0000_0000 + self.day
    }

    /// The ordinal as a machine integer.
    pub fn ordinal_value(self) -> (r: i128)
        ensures
            r == self.ordinal(),
    {
        let year: i128 = self.year as i128;
        let month: i128 = self.month as i128;
        let day: i128 = self.day as i128;
        (year * 0x1_0000_0000 + month) * 0x1_0000_0000 + day
    }

    /// The ordinals order the days as `precedes` does.
    pub proof fn lemma_ordinal_orders(self, other: Date)
        ensures
            self.spec_precedes(other) <==> self.ordinal() < other.ordinal(),
            self == other <==> self.ordinal() == other.ordinal(),
    {
    }

    #[verifier::when_used_as_spec(spec_precedes)]
    pub fn precedes(self, other: Date) -> (r: bool)
        ensures
            r == self.spec_precedes(other),
    {
        if self.year != other.year {
            self.year < other.year
        } else if self.month != other.month {
            self.month < other.month
        } else {
            self.day < other.day
        }
    }

    #[verifier::when_used_as_spec(spec_within)]
    pub fn within(self, start: Date, end: Date) -> (r: bool)
        ensures
            r == self.spec_within(start, end),
    {
        !self.precedes(start) && !end.precedes(self)
    }
}

/// Why a text is not a date.
#[derive(Debug)]
pub enum DateError {
    /// The text does not read as year, month and day; the parser's own
    /// report is kept.
    Unreadable(chrono::ParseError),
}

/// Year, month and day that chrono reads from `text` in the form
/// `%Y-%m-%d`, or nothing where it reads no date.
pub uninterp spec fn calendar_date_in(text: Seq<char>) -> Option<(int, int, int)>;

/// Calls `chrono::NaiveDate::parse_from_str` with the format `%Y-%m-%d` and
/// takes year, month and day from the date by `Datelike::year`,
/// `Datelike::month` and `Datelike::day`. The contract gives the outcome the
/// name `calendar_date_in` and says nothing more of it: which texts read as
/// dates, and as which, is chrono's to say.
#[verifier::external_body]
fn read_year_month_day(text: &str) -> (r: Result<Date, chrono::ParseError>)
    ensures
        match r {
            Ok(date) => calendar_date_in(text@) == Some(
                (date.year as int, date.month as int, date.day as int),
            ),
            Err(_) => calendar_date_in(text@) is None,
        },
{
    match chrono::NaiveDate::parse_from_str(text, "%Y-%m-%d") {
        Ok(date) => Ok(
            Date {
                year: chrono::Datelike::year(&date),
                month: chrono::Datelike::month(&date),
                day: chrono::Datelike::day(&date),
            },
        ),
        Err(error) => Err(error),
    }
}

/// The date that `text` reads as, if it reads as one.
pub open spec fn date_read_from(text: Seq<char>) -> Option<Date> {
    match calendar_date_in(text) {
        Some((year, month, day)) => Some(
            Date { year: year as i32, month: month as u32, day: day as u32 },
        ),
        None => None,
    }
}

/// Reads a date written as year, month and day with hyphens between them.
pub fn parse_date(date_str: &str) -> (r: Result<Date, DateError>)
    ensures
        match r {
            Ok(date) => date_read_from(date_str@) == Some(date),
            Err(error) => date_read_from(date_str@) is None,
        },
{
    match read_year_month_day(date_str) {
        Ok(date) => Ok(date),
        Err(error) => Err(DateError::Unreadable(error)),
    }
}

/// Whether `a` stands before `b` in a dictionary that goes byte by byte: at
/// the first place where the two differ `a` has the smaller byte, or `a`
/// ends there and `b` goes on.
pub open spec fn bytes_before(a: Seq<u8>, b: Seq<u8>) -> bool
    decreases a.len(),
{
    if b.len() == 0 {
        false
    } else if a.len() == 0 {
        true
    } else if a[0] != b[0] {
        a[0] < b[0]
    } else {
        bytes_before(a.drop_first(), b.drop_first())
    }
}

/// Whether the name `a` stands before the name `b` in the order of names:
/// the order of their bytes.
pub open spec fn name_before(a: Seq<char>, b: Seq<char>) -> bool {
    bytes_before(encode_utf8(a), encode_utf8(b))
}

/// No text stands before itself.
pub proof fn lemma_bytes_before_irreflexive(a: Seq<u8>)
    ensures
        !bytes_before(a, a),
    decreases a.len(),
{
    if a.len() > 0 {
        lemma_bytes_before_irreflexive(a.drop_first());
    }
}

/// What stands before a text that stands before a third stands before the
/// third.
pub proof fn lemma_bytes_before_transitive(a: Seq<u8>, b: Seq<u8>, c: Seq<u8>)
    requires
        bytes_before(a, b),
        bytes_before(b, c),
    ensures
        bytes_before(a, c),
    decreases a.len(),
{
    if a.len() > 0 && a[0] == b[0] && b[0] == c[0] {
        lemma_bytes_before_transitive(a.drop_first(), b.drop_first(), c.drop_first());
    }
}

/// Of two different texts one stands before the other.
pub proof fn lemma_bytes_before_total(a: Seq<u8>, b: Seq<u8>)
    ensures
        a == b || bytes_before(a, b) || bytes_before(b, a),
    decreases a.len(),
{
    if a.len() > 0 && b.len() > 0 && a[0] == b[0] {
        lemma_bytes_before_total(a.drop_first(), b.drop_first());
        if a.drop_first() == b.drop_first() {
            assert(a =~= seq![a[0]] + a.drop_first());
            assert(b =~= seq![b[0]] + b.drop_first());
        }
    } else if a.len() == 0 && b.len() == 0 {
        assert(a =~= b);
    }
}

/// Names are ordered without gaps or loops: no name stands before itself,
/// the order carries over from one pair to the next, and of two different
/// names one stands before the other.
pub proof fn lemma_name_order(a: Seq<char>, b: Seq<char>, c: Seq<char>)
    ensures
        !name_before(a, a),
        name_before(a, b) && name_before(b, c) ==> name_before(a, c),
        a == b || name_before(a, b) || name_before(b, a),
{
    lemma_bytes_before_irreflexive(encode_utf8(a));
    if name_before(a, b) && name_before(b, c) {
        lemma_bytes_before_transitive(encode_utf8(a), encode_utf8(b), encode_utf8(c));
    }
    lemma_bytes_before_total(encode_utf8(a), encode_utf8(b));
    if encode_utf8(a) == encode_utf8(b) {
        encode_utf8_decode_utf8(a);
        encode_utf8_decode_utf8(b);
    }
}

/// Whether `a` stands before `b` in the order of bytes.
pub fn stands_before(a: &[u8], b: &[u8]) -> (r: bool)
    ensures
        r == bytes_before(a@, b@),
{
    let mut i: usize = 0;
    assert(a@.skip(0) == a@ && b@.skip(0) == b@);
    while i < a.len() && i < b.len()
        invariant
            i <= a@.len(),
            i <= b@.len(),
            bytes_before(a@, b@) == bytes_before(a@.skip(i as int), b@.skip(i as int)),
        decreases a@.len() - i,
    {
        assert(a@.skip(i as int).drop_first() == a@.skip(i + 1));
        assert(b@.skip(i as int).drop_first() == b@.skip(i + 1));
        assert(a@.skip(i as int)[0] == a@[i as int]);
        assert(b@.skip(i as int)[0] == b@[i as int]);
        if a[i] != b[i] {
            return a[i] < b[i];
        }
        i += 1;
    }
    i < b.len()
}

/// Whether the name `a` stands before the name `b`.
pub fn name_stands_before(a: &String, b: &String) -> (r: bool)
    ensures
        r == name_before(a@, b@),
{
    stands_before(a.as_str().as_bytes(), b.as_str().as_bytes())
}

/// Whether every day of the list is earlier than the days behind it.
pub open spec fn days_ascend(days: Seq<Date>) -> bool {
    forall|a: int, b: int|
        0 <= a < b < days.len() ==> (#[trigger] days[a]).spec_precedes(#[trigger] days[b])
}

/// Whether every name of the list stands before the names behind it.
pub open spec fn names_ascend(names: Seq<Seq<char>>) -> bool {
    forall|a: int, b: int|
        0 <= a < b < names.len() ==> name_before(#[trigger] names[a], #[trigger] names[b])
}

/// The days that the first `upto` observations bear.
pub open spec fn days_seen(data: Seq<Record>, upto: int) -> Set<Date> {
    Set::new(|day: Date| exists|i: int| 0 <= i < upto && i < data.len() && data[i].date == day)
}

/// The assets that the first `upto` observations name.
pub open spec fn names_seen(data: Seq<Record>, upto: int) -> Set<Seq<char>> {
    Set::new(
        |name: Seq<char>| exists|i: int| 0 <= i < upto && i < data.len() && data[i].asset@ == name,
    )
}

/// The latest price, among the first `upto` observations, of the asset
/// `name` on the day `day`: where several observations tell it, the last of
/// them counts.
pub open spec fn last_price(data: Seq<Record>, upto: int, day: Date, name: Seq<char>) -> Option<
    Scalar,
>
    decreases upto,
{
    if upto <= 0 {
        None
    } else if data[upto - 1].date == day && data[upto - 1].asset@ == name {
        Some(data[upto - 1].price)
    } else {
        last_price(data, upto - 1, day, name)
    }
}

proof fn lemma_insert_to_set<A>(s: Seq<A>, p: int, x: A)
    requires
        0 <= p <= s.len(),
    ensures
        s.insert(p, x).to_set() == s.to_set().insert(x),
{
    let grown = s.insert(p, x);
    assert forall|y: A| grown.to_set().contains(y) <==> s.to_set().insert(x).contains(y) by {
        if grown.to_set().contains(y) {
            let i = choose|i: int| 0 <= i < grown.len() && grown[i] == y;
            if i < p {
                assert(s[i] == y);
            } else if i > p {
                assert(s[i - 1] == y);
            }
        }
        if s.to_set().contains(y) {
            let i = choose|i: int| 0 <= i < s.len() && s[i] == y;
            if i < p {
                assert(grown[i] == y);
            } else {
                assert(grown[i + 1] == y);
            }
        }
        if y == x {
            assert(grown[p] == y);
        }
    }
    assert(grown.to_set() =~= s.to_set().insert(x));
}

/// Puts a day into an ascending list of days, unless it is there already.
pub fn insert_day(days: &mut Vec<Date>, day: Date)
    requires
        days_ascend(old(days)@),
    ensures
        days_ascend(final(days)@),
        final(days)@.to_set() == old(days)@.to_set().insert(day),
{
    let mut p: usize = 0;
    while p < days.len() && days[p].precedes(day)
        invariant
            p <= days@.len(),
            days@ == old(days)@,
            forall|a: int| 0 <= a < p ==> (#[trigger] days@[a]).spec_precedes(day),
        decreases days@.len() - p,
    {
        p += 1;
    }
    if p < days.len() && days[p] == day {
        assert(days@.to_set().contains(day));
        assert(days@.to_set() =~= days@.to_set().insert(day));
        return ;
    }
    proof {
        lemma_insert_to_set(days@, p as int, day);
        let grown = days@.insert(p as int, day);
        assert forall|a: int, b: int| 0 <= a < b < grown.len() implies (#[trigger] grown[a]).spec_precedes(
            #[trigger] grown[b],
        ) by {
            if b < p {
                assert(grown[a] == days@[a] && grown[b] == days@[b]);
            } else if b == p {
                assert(grown[a] == days@[a]);
            } else if a < p {
                assert(grown[a] == days@[a] && grown[b] == days@[b - 1]);
                if b - 1 > p {
                    assert(days@[p as int].spec_precedes(days@[b - 1]));
                }
            } else if a == p {
                assert(grown[b] == days@[b - 1]);
                if b - 1 > p {
                    assert(days@[p as int].spec_precedes(days@[b - 1]));
                }
            } else {
                assert(grown[a] == days@[a - 1] && grown[b] == days@[b - 1]);
            }
        }
    }
    days.insert(p, day);
}

/// Puts a name into an ascending list of names, unless it is there already.
pub fn insert_name(names: &mut Vec<String>, name: &String)
    requires
        names_ascend(names_of(old(names)@)),
    ensures
        names_ascend(names_of(final(names)@)),
        names_of(final(names)@).to_set() == names_of(old(names)@).to_set().insert(name@),
{
    let ghost before = names_of(names@);
    let mut p: usize = 0;
    while p < names.len() && name_stands_before(&names[p], name)
        invariant
            p <= names@.len(),
            names@ == old(names)@,
            before == names_of(names@),
            forall|a: int| 0 <= a < p ==> name_before(#[trigger] before[a], name@),
        decreases names@.len() - p,
    {
        assert(before[p as int] == names@[p as int]@);
        p += 1;
    }
    if p < names.len() && names[p] == *name {
        assert(before[p as int] == name@);
        assert(before.to_set().contains(name@));
        assert(before.to_set() =~= before.to_set().insert(name@));
        return ;
    }
    proof {
        lemma_insert_to_set(before, p as int, name@);
        let grown = before.insert(p as int, name@);
        if p < before.len() {
            assert(before[p as int] == names@[p as int]@);
            lemma_name_order(before[p as int], name@, name@);
        }
        assert forall|a: int, b: int| 0 <= a < b < grown.len() implies name_before(
            #[trigger] grown[a],
            #[trigger] grown[b],
        ) by {
            if b < p {
                assert(grown[a] == before[a] && grown[b] == before[b]);
            } else if b == p {
                assert(grown[a] == before[a]);
            } else if a < p {
                assert(grown[a] == before[a] && grown[b] == before[b - 1]);
                if b - 1 > p {
                    assert(name_before(before[p as int], before[b - 1]));
                }
                lemma_name_order(before[a], name@, before[p as int]);
                lemma_name_order(before[a], before[p as int], before[b - 1]);
            } else if a == p {
                assert(grown[b] == before[b - 1]);
                if b - 1 > p {
                    assert(name_before(before[p as int], before[b - 1]));
                    lemma_name_order(name@, before[p as int], before[b - 1]);
                }
            } else {
                assert(grown[a] == before[a - 1] && grown[b] == before[b - 1]);
            }
        }
    }
    names.insert(p, name.clone());
    assert(names_of(names@) =~= before.insert(p as int, name@));
}

/// The first place of `day` in a list of days, or nothing where the list
/// does not hold it.
pub fn day_place(days: &Vec<Date>, day: Date) -> (r: Option<usize>)
    ensures
        match r {
            Some(place) => {
                &&& place < days@.len()
                &&& days@[place as int] == day
                &&& forall|a: int| 0 <= a < place ==> days@[a] != day
            },
            None => !days@.contains(day),
        },
{
    let mut p: usize = 0;
    while p < days.len()
        invariant
            p <= days@.len(),
            forall|a: int| 0 <= a < p ==> days@[a] != day,
        decreases days@.len() - p,
    {
        if days[p] == day {
            return Some(p);
        }
        p += 1;
    }
    None
}

/// The first place of `name` in a list of names, or nothing where the list
/// does not hold it.
pub fn name_place(names: &Vec<String>, name: &String) -> (r: Option<usize>)
    ensures
        match r {
            Some(place) => {
                &&& place < names@.len()
                &&& names@[place as int]@ == name@
                &&& forall|a: int| 0 <= a < place ==> names_of(names@)[a] != name@
            },
            None => !names_of(names@).contains(name@),
        },
{
    let mut p: usize = 0;
    while p < names.len()
        invariant
            p <= names@.len(),
            forall|a: int| 0 <= a < p ==> names_of(names@)[a] != name@,
        decreases names@.len() - p,
    {
        if names[p] == *name {
            return Some(p);
        }
        assert(names_of(names@)[p as int] == names@[p as int]@);
        p += 1;
    }
    None
}

/// The days that the observations bear, each once, the earliest first.
pub fn sorted_days(data: &Vec<Record>) -> (days: Vec<Date>)
    ensures
        days_ascend(days@),
        days@.to_set() == days_seen(data@, data@.len() as int),
{
    let mut days: Vec<Date> = Vec::new();
    let mut i: usize = 0;
    assert(days@.to_set() =~= days_seen(data@, 0));
    while i < data.len()
        invariant
            i <= data@.len(),
            days_ascend(days@),
            days@.to_set() == days_seen(data@, i as int),
        decreases data@.len() - i,
    {
        insert_day(&mut days, data[i].date);
        assert(days_seen(data@, i + 1) =~= days_seen(data@, i as int).insert(data@[i as int].date));
        i += 1;
    }
    days
}

/// The assets that the observations name, each once, in the order of names.
pub fn sorted_names(data: &Vec<Record>) -> (names: Vec<String>)
    ensures
        names_ascend(names_of(names@)),
        names_of(names@).to_set() == names_seen(data@, data@.len() as int),
{
    let mut names: Vec<String> = Vec::new();
    let mut i: usize = 0;
    assert(names_of(names@).to_set() =~= names_seen(data@, 0));
    while i < data.len()
        invariant
            i <= data@.len(),
            names_ascend(names_of(names@)),
            names_of(names@).to_set() == names_seen(data@, i as int),
        decreases data@.len() - i,
    {
        insert_name(&mut names, &data[i].asset);
        assert(names_seen(data@, i + 1) =~= names_seen(data@, i as int).insert(
            data@[i as int].asset@,
        ));
        i += 1;
    }
    names
}

/// The observations as a table: one row per day, the earliest first, one
/// column per asset, in the order of names, and in each cell the price of
/// that asset on that day, where an observation tells it.
#[derive(Debug)]
pub struct PriceTable {
    pub days: Vec<Date>,
    pub assets: Vec<String>,
    pub cells: Vec<Vec<Option<Scalar>>>,
}

impl PriceTable {
    /// Whether the table is that of `data`.
    pub open spec fn tabulates(&self, data: Seq<Record>) -> bool {
        &&& days_ascend(self.days@)
        &&& self.days@.to_set() == days_seen(data, data.len() as int)
        &&& names_ascend(names_of(self.assets@))
        &&& names_of(self.assets@).to_set() == names_seen(data, data.len() as int)
        &&& self.cells@.len() == self.days@.len()
        &&& forall|r: int|
            0 <= r < self.cells@.len() ==> (#[trigger] self.cells@[r])@ == Seq::new(
                self.assets@.len(),
                |c: int| last_price(data, data.len() as int, self.days@[r], self.assets@[c]@),
            )
    }
}

/// The prices of one day, asset by asset.
fn table_row(data: &Vec<Record>, assets: &Vec<String>, day: Date) -> (row: Vec<Option<Scalar>>)
    requires
        names_ascend(names_of(assets@)),
        names_of(assets@).to_set() == names_seen(data@, data@.len() as int),
    ensures
        row@ == Seq::new(
            assets@.len(),
            |c: int| last_price(data@, data@.len() as int, day, assets@[c]@),
        ),
{
    let mut row: Vec<Option<Scalar>> = Vec::new();
    let mut c: usize = 0;
    while c < assets.len()
        invariant
            c <= assets@.len(),
            row@ == Seq::new(c as nat, |c: int| last_price(data@, 0, day, assets@[c]@)),
        decreases assets@.len() - c,
    {
        row.push(None);
        assert(row@ =~= Seq::new((c + 1) as nat, |c: int| last_price(data@, 0, day, assets@[c]@)));
        c += 1;
    }
    let mut i: usize = 0;
    while i < data.len()
        invariant
            i <= data@.len(),
            names_ascend(names_of(assets@)),
            names_of(assets@).to_set() == names_seen(data@, data@.len() as int),
            row@ == Seq::new(
                assets@.len(),
                |c: int| last_price(data@, i as int, day, assets@[c]@),
            ),
        decreases data@.len() - i,
    {
        if data[i].date == day {
            proof {
                assert(names_seen(data@, data@.len() as int).contains(data@[i as int].asset@));
                assert(names_of(assets@).to_set().contains(data@[i as int].asset@));
            }
            match name_place(assets, &data[i].asset) {
                Some(place) => {
                    row.set(place, Some(data[i].price));
                    proof {
                        let names = names_of(assets@);
                        assert forall|c: int| 0 <= c < assets@.len() implies row@[c] == last_price(
                            data@,
                            i + 1,
                            day,
                            assets@[c]@,
                        ) by {
                            if c != place {
                                assert(names[c] == assets@[c]@ && names[place as int]
                                    == assets@[place as int]@);
                                lemma_name_order(names[c], names[c], names[c]);
                                if c < place {
                                    assert(name_before(names[c], names[place as int]));
                                } else {
                                    assert(name_before(names[place as int], names[c]));
                                }
                            }
                        }
                        assert(row@ =~= Seq::new(
                            assets@.len(),
                            |c: int| last_price(data@, i + 1, day, assets@[c]@),
                        ));
                    }
                },
                None => {},
            }
        } else {
            assert(row@ =~= Seq::new(
                assets@.len(),
                |c: int| last_price(data@, i + 1, day, assets@[c]@),
            ));
        }
        i += 1;
    }
    row
}

/// Lays the observations out as a table.
pub fn price_table(data: &Vec<Record>) -> (table: PriceTable)
    ensures
        table.tabulates(data@),
{
    let days = sorted_days(data);
    let assets = sorted_names(data);
    let mut cells: Vec<Vec<Option<Scalar>>> = Vec::new();
    let mut r: usize = 0;
    while r < days.len()
        invariant
            r <= days@.len(),
            names_ascend(names_of(assets@)),
            names_of(assets@).to_set() == names_seen(data@, data@.len() as int),
            cells@.len() == r,
            forall|q: int|
                0 <= q < r ==> (#[trigger] cells@[q])@ == Seq::new(
                    assets@.len(),
                    |c: int| last_price(data@, data@.len() as int, days@[q], assets@[c]@),
                ),
        decreases days@.len() - r,
    {
        let row = table_row(data, &assets, days[r]);
        cells.push(row);
        r += 1;
    }
    PriceTable { days, assets, cells }
}

} // verus!

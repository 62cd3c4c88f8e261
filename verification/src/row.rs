//! The row transformer: from one named-column CSV record to one output bar.
//!
//! Which columns a record must carry depends on the file's timeframe: a
//! `day` file needs `Date, Open, High, Low, Close, TotalVolume`, a `minute`
//! file additionally needs `Time`. A record missing a required column is
//! fatal for its file — the file is abandoned, not retried — because silent
//! partial ingestion of a malformed file is worse than stopping it.
use vstd::prelude::*;
use vstd::string::StrSliceExecFns;
use vstd::string::StringExecFns;

use crate::text::eq_str;

verus! {

/// The two supported bar granularities.
#[derive(Clone, Copy, Debug, PartialEq, Eq, Structural)]
pub enum Timeframe {
    /// One bar per day; timestamps are dates.
    Day,
    /// One bar per minute; timestamps are date plus time of day.
    Minute,
}

impl Timeframe {
    /// The label of this timeframe, as it appears in filenames and in the
    /// stored rows.
    pub open spec fn label_spec(self) -> Seq<char> {
        match self {
            Timeframe::Day => "day"@,
            Timeframe::Minute => "minute"@,
        }
    }

    /// The label as an owned string.
    pub fn label(&self) -> (r: String)
        ensures
            r@ == self.label_spec(),
    {
        match self {
            Timeframe::Day => String::from_str("day"),
            Timeframe::Minute => String::from_str("minute"),
        }
    }
}

/// Index of the column named `name`, preferring the rightmost when a header
/// repeats; `-1` when absent.
pub open spec fn find_col(headers: Seq<Seq<char>>, name: Seq<char>) -> int
    decreases headers.len(),
{
    if headers.len() == 0 {
        -1
    } else if headers.last() == name {
        headers.len() - 1
    } else {
        find_col(headers.drop_last(), name)
    }
}

/// The value a record holds under the column named `name`, if the header
/// names it and the record is long enough.
pub open spec fn col_value(headers: Seq<Seq<char>>, row: Seq<Seq<char>>, name: Seq<char>) -> Option<
    Seq<char>,
> {
    let j = find_col(headers, name);
    if 0 <= j < row.len() {
        Some(row[j])
    } else {
        None
    }
}

/// Look a record's value up by column name.
pub fn get_col(headers: &Vec<String>, row: &Vec<String>, name: &str) -> (r: Option<String>)
    ensures
        match r {
            Some(s) => col_value(headers.deep_view(), row.deep_view(), name@) == Some(s@),
            None => col_value(headers.deep_view(), row.deep_view(), name@) is None,
        },
{
    let ghost h = headers.deep_view();
    let n = headers.len();
    proof {
        assert(h.len() == headers@.len());
        assert(h.take(n as int) =~~= h);
    }
    let mut i: usize = n;
    let mut found: Option<usize> = None;
    while i > 0
        invariant_except_break
            found is None,
        invariant
            0 <= i <= n,
            n == h.len(),
            h == headers.deep_view(),
            h.len() == headers@.len(),
            find_col(h, name@) == find_col(h.take(i as int), name@),
        ensures
            match found {
                Some(j) => j < n && find_col(h, name@) == j,
                None => i == 0,
            },
        decreases i,
    {
        proof {
            assert(h.take(i as int).drop_last() =~~= h.take(i - 1 as int));
            assert(h.take(i as int).last() == h[i - 1]);
            assert(h[i - 1] == headers@[i - 1]@);
        }
        if eq_str(headers[i - 1].as_str(), name) {
            found = Some(i - 1);
            break;
        }
        i = i - 1;
    }
    proof {
        if found is None {
            assert(h.take(0) =~~= Seq::<Seq<char>>::empty());
            assert(find_col(h, name@) == -1);
        }
    }
    match found {
        Some(j) => {
            if j < row.len() {
                proof {
                    assert(row.deep_view()[j as int] == row@[j as int]@);
                }
                Some(row[j].clone())
            } else {
                proof {
                    assert(row.deep_view().len() == row@.len());
                }
                None
            }
        },
        None => {
            proof {
                assert(row.deep_view().len() == row@.len());
            }
            None
        },
    }
}

/// One output row, ready for insertion: the primary key `(symbol, barsize,
/// contract, timestamp)` plus the price and volume fields carried through as
/// decimal text for the database layer to cast.
#[derive(Clone, Debug)]
pub struct Bar {
    /// The date, or date and time of day for minute bars.
    pub timestamp: String,
    /// The symbol root the series belongs to.
    pub symbol: String,
    /// First day of the contract month, absent for non-futures symbols.
    pub contract: Option<String>,
    /// Opening price, as decimal text.
    pub open_text: String,
    /// Highest price, as decimal text.
    pub high_text: String,
    /// Lowest price, as decimal text.
    pub low_text: String,
    /// Closing price, as decimal text.
    pub close_text: String,
    /// Traded volume, as decimal text.
    pub volume_text: String,
    /// The timeframe label, `day` or `minute`, verbatim.
    pub barsize: String,
}

/// The mathematical content of a [`Bar`].
pub struct BarView {
    /// The timestamp text.
    pub timestamp: Seq<char>,
    /// The symbol root.
    pub symbol: Seq<char>,
    /// The contract date text, if any.
    pub contract: Option<Seq<char>>,
    /// Opening price text.
    pub open_text: Seq<char>,
    /// Highest price text.
    pub high_text: Seq<char>,
    /// Lowest price text.
    pub low_text: Seq<char>,
    /// Closing price text.
    pub close_text: Seq<char>,
    /// Traded volume text.
    pub volume_text: Seq<char>,
    /// The timeframe label.
    pub barsize: Seq<char>,
}

impl View for Bar {
    type V = BarView;

    open spec fn view(&self) -> BarView {
        BarView {
            timestamp: self.timestamp@,
            symbol: self.symbol@,
            contract: self.contract.deep_view(),
            open_text: self.open_text@,
            high_text: self.high_text@,
            low_text: self.low_text@,
            close_text: self.close_text@,
            volume_text: self.volume_text@,
            barsize: self.barsize@,
        }
    }
}

/// A record lacked a column its file's timeframe requires.
#[derive(Clone, Debug)]
pub struct MissingColumn {
    /// The name of the first required column that was absent.
    pub column: String,
}

/// The first required column that the record does not carry, in the order
/// the fields are read: `Date`, `Time` for minute files, then the five
/// value columns.
pub open spec fn first_missing(tf: Timeframe, h: Seq<Seq<char>>, row: Seq<Seq<char>>) -> Option<
    Seq<char>,
> {
    if col_value(h, row, "Date"@) is None {
        Some("Date"@)
    } else if tf is Minute && col_value(h, row, "Time"@) is None {
        Some("Time"@)
    } else if col_value(h, row, "Open"@) is None {
        Some("Open"@)
    } else if col_value(h, row, "High"@) is None {
        Some("High"@)
    } else if col_value(h, row, "Low"@) is None {
        Some("Low"@)
    } else if col_value(h, row, "Close"@) is None {
        Some("Close"@)
    } else if col_value(h, row, "TotalVolume"@) is None {
        Some("TotalVolume"@)
    } else {
        None
    }
}

/// The bar a complete record transforms to: the timestamp is the `Date`
/// value, extended by the `Time` value for minute files; prices and volume
/// are carried through verbatim; the barsize is the timeframe label.
pub open spec fn bar_of(
    tf: Timeframe,
    root: Seq<char>,
    contract: Option<Seq<char>>,
    h: Seq<Seq<char>>,
    row: Seq<Seq<char>>,
) -> BarView {
    BarView {
        timestamp: if tf is Day {
            col_value(h, row, "Date"@).unwrap()
        } else {
            col_value(h, row, "Date"@).unwrap() + " "@ + col_value(h, row, "Time"@).unwrap()
        },
        symbol: root,
        contract: contract,
        open_text: col_value(h, row, "Open"@).unwrap(),
        high_text: col_value(h, row, "High"@).unwrap(),
        low_text: col_value(h, row, "Low"@).unwrap(),
        close_text: col_value(h, row, "Close"@).unwrap(),
        volume_text: col_value(h, row, "TotalVolume"@).unwrap(),
        barsize: tf.label_spec(),
    }
}

/// Transform one named-column record into a bar, or name the first required
/// column it misses.
pub fn transform_row(
    tf: Timeframe,
    root: &String,
    contract: &Option<String>,
    headers: &Vec<String>,
    row: &Vec<String>,
) -> (r: Result<Bar, MissingColumn>)
    ensures
        first_missing(tf, headers.deep_view(), row.deep_view()) is None ==> (r matches Ok(b) && b@
            == bar_of(tf, root@, contract.deep_view(), headers.deep_view(), row.deep_view())),
        first_missing(tf, headers.deep_view(), row.deep_view()) matches Some(c) ==> (r matches Err(
            e,
        ) && e.column@ == c),
{
    let date_v = match get_col(headers, row, "Date") {
        Some(s) => s,
        None => {
            return Err(MissingColumn { column: String::from_str("Date") });
        },
    };
    let timestamp = match tf {
        Timeframe::Day => date_v,
        Timeframe::Minute => {
            let time_v = match get_col(headers, row, "Time") {
                Some(s) => s,
                None => {
                    return Err(MissingColumn { column: String::from_str("Time") });
                },
            };
            let mut t = date_v;
            t.append(" ");
            t.append(time_v.as_str());
            t
        },
    };
    let open_v = match get_col(headers, row, "Open") {
        Some(s) => s,
        None => {
            return Err(MissingColumn { column: String::from_str("Open") });
        },
    };
    let high_v = match get_col(headers, row, "High") {
        Some(s) => s,
        None => {
            return Err(MissingColumn { column: String::from_str("High") });
        },
    };
    let low_v = match get_col(headers, row, "Low") {
        Some(s) => s,
        None => {
            return Err(MissingColumn { column: String::from_str("Low") });
        },
    };
    let close_v = match get_col(headers, row, "Close") {
        Some(s) => s,
        None => {
            return Err(MissingColumn { column: String::from_str("Close") });
        },
    };
    let volume_v = match get_col(headers, row, "TotalVolume") {
        Some(s) => s,
        None => {
            return Err(MissingColumn { column: String::from_str("TotalVolume") });
        },
    };
    Ok(
        Bar {
            timestamp,
            symbol: root.clone(),
            contract: match contract {
                Some(c) => Some(c.clone()),
                None => None,
            },
            open_text: open_v,
            high_text: high_v,
            low_text: low_v,
            close_text: close_v,
            volume_text: volume_v,
            barsize: tf.label(),
        },
    )
}

} // verus!

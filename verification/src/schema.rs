//! The vendor's schema: a document of results, each a list of series, each
//! series a list of column names and rows of cells that go with the names
//! by position; and the sensor reading that a cell holds as nested JSON text.
//!
//! A record of the schema is read from an object by the names of its fields,
//! or from an array of its fields in order. The typed records borrow from the
//! document that they were read from.

use vstd::prelude::*;
use crate::json::{values_of, Json, JsonValue};

verus! {

/// A sensor reading: `{sensor_text: string, value: [scalar, ...]}`.
pub struct ReportValueEntry<'a> {
    pub sensor_text: &'a String,
    pub value: &'a Vec<Json>,
}

/// A series: `{columns: [string, ...], values: [[cell, ...], ...]}`.
pub struct ReportsSeries<'a> {
    pub columns: Vec<&'a String>,
    pub values: Vec<&'a Vec<Json>>,
}

/// A result: `{series: [series, ...]}`.
pub struct ReportsResults<'a> {
    pub series: Vec<ReportsSeries<'a>>,
}

/// A document: `{results: [result, ...]}`.
pub struct ReportsData<'a> {
    pub results: Vec<ReportsResults<'a>>,
}

pub struct ValueEntryView {
    pub sensor_text: Seq<char>,
    pub value: Seq<JsonValue>,
}

pub struct SeriesView {
    pub columns: Seq<Seq<char>>,
    pub values: Seq<Seq<JsonValue>>,
}

pub struct ResultsView {
    pub series: Seq<SeriesView>,
}

pub struct DataView {
    pub results: Seq<ResultsView>,
}

impl<'a> View for ReportValueEntry<'a> {
    type V = ValueEntryView;

    open spec fn view(&self) -> ValueEntryView {
        ValueEntryView { sensor_text: self.sensor_text@, value: values_of(self.value@) }
    }
}

impl<'a> View for ReportsSeries<'a> {
    type V = SeriesView;

    open spec fn view(&self) -> SeriesView {
        SeriesView {
            columns: self.columns@.map_values(|name: &String| name@),
            values: self.values@.map_values(|row: &Vec<Json>| values_of(row@)),
        }
    }
}

impl<'a> View for ReportsResults<'a> {
    type V = ResultsView;

    open spec fn view(&self) -> ResultsView {
        ResultsView { series: self.series@.map_values(|s: ReportsSeries<'a>| s@) }
    }
}

impl<'a> View for ReportsData<'a> {
    type V = DataView;

    open spec fn view(&self) -> DataView {
        DataView { results: self.results@.map_values(|r: ReportsResults<'a>| r@) }
    }
}

/// The texts of a list of strings; `None` where an item is no string.
pub open spec fn texts(items: Seq<JsonValue>) -> Option<Seq<Seq<char>>> {
    if forall|i: int| 0 <= i < items.len() ==> #[trigger] items[i] is String {
        Some(items.map_values(|item: JsonValue| item->String_0))
    } else {
        None
    }
}

/// The items of a list of arrays; `None` where an item is no array.
pub open spec fn arrays(items: Seq<JsonValue>) -> Option<Seq<Seq<JsonValue>>> {
    if forall|i: int| 0 <= i < items.len() ==> #[trigger] items[i] is Array {
        Some(items.map_values(|item: JsonValue| item->Array_0))
    } else {
        None
    }
}

/// The sensor reading that `json` is, if it is one.
pub open spec fn value_entry(json: JsonValue) -> Option<ValueEntryView> {
    match (json.field("sensor_text"@, 0, 2), json.field("value"@, 1, 2)) {
        (Some(JsonValue::String(sensor_text)), Some(JsonValue::Array(value))) => Some(
            ValueEntryView { sensor_text, value },
        ),
        _ => None,
    }
}

/// The series that `json` is, if it is one.
pub open spec fn series(json: JsonValue) -> Option<SeriesView> {
    match (json.field("columns"@, 0, 2), json.field("values"@, 1, 2)) {
        (Some(JsonValue::Array(columns)), Some(JsonValue::Array(values))) => match (
            texts(columns),
            arrays(values),
        ) {
            (Some(columns), Some(values)) => Some(SeriesView { columns, values }),
            _ => None,
        },
        _ => None,
    }
}

/// The result that `json` is, if it is one.
pub open spec fn results(json: JsonValue) -> Option<ResultsView> {
    match json.field("series"@, 0, 1) {
        Some(JsonValue::Array(items)) => if forall|i: int|
            0 <= i < items.len() ==> series(#[trigger] items[i]) is Some {
            Some(ResultsView { series: items.map_values(|item: JsonValue| series(item)->Some_0) })
        } else {
            None
        },
        _ => None,
    }
}

/// The document that `json` is, if it is one.
pub open spec fn data(json: JsonValue) -> Option<DataView> {
    match json.field("results"@, 0, 1) {
        Some(JsonValue::Array(items)) => if forall|i: int|
            0 <= i < items.len() ==> results(#[trigger] items[i]) is Some {
            Some(DataView { results: items.map_values(|item: JsonValue| results(item)->Some_0) })
        } else {
            None
        },
        _ => None,
    }
}

impl<'a> ReportValueEntry<'a> {
    pub fn decode(json: &'a Json) -> (r: Option<ReportValueEntry<'a>>)
        ensures
            match r {
                Some(entry) => value_entry(json@) == Some(entry@),
                None => value_entry(json@) is None,
            },
    {
        let sensor_text = match json.field("sensor_text", 0, 2) {
            Some(member) => match member.as_string() {
                Some(text) => text,
                None => { return None; },
            },
            None => { return None; },
        };
        let value = match json.field("value", 1, 2) {
            Some(member) => match member.as_array() {
                Some(items) => items,
                None => { return None; },
            },
            None => { return None; },
        };
        Some(ReportValueEntry { sensor_text, value })
    }
}

fn decode_texts<'a>(items: &'a Vec<Json>) -> (r: Option<Vec<&'a String>>)
    ensures
        match r {
            Some(names) => texts(values_of(items@)) == Some(
                names@.map_values(|name: &String| name@),
            ),
            None => texts(values_of(items@)) is None,
        },
{
    let mut names: Vec<&'a String> = Vec::new();
    let mut i: usize = 0;
    while i < items.len()
        invariant
            i <= items.len(),
            names.len() == i,
            forall|k: int|
                0 <= k < i ==> #[trigger] values_of(items@)[k] == JsonValue::String(names@[k]@),
        decreases items.len() - i,
    {
        match items[i].as_string() {
            Some(text) => {
                names.push(text);
            },
            None => {
                assert(!(values_of(items@)[i as int] is String));
                return None;
            },
        }
        i += 1;
    }
    assert(values_of(items@).map_values(|item: JsonValue| item->String_0) =~= names@.map_values(
        |name: &String| name@,
    ));
    Some(names)
}

fn decode_arrays<'a>(items: &'a Vec<Json>) -> (r: Option<Vec<&'a Vec<Json>>>)
    ensures
        match r {
            Some(rows) => arrays(values_of(items@)) == Some(
                rows@.map_values(|row: &Vec<Json>| values_of(row@)),
            ),
            None => arrays(values_of(items@)) is None,
        },
{
    let mut rows: Vec<&'a Vec<Json>> = Vec::new();
    let mut i: usize = 0;
    while i < items.len()
        invariant
            i <= items.len(),
            rows.len() == i,
            forall|k: int|
                0 <= k < i ==> #[trigger] values_of(items@)[k] == JsonValue::Array(
                    values_of(rows@[k]@),
                ),
        decreases items.len() - i,
    {
        match items[i].as_array() {
            Some(row) => {
                rows.push(row);
            },
            None => {
                assert(!(values_of(items@)[i as int] is Array));
                return None;
            },
        }
        i += 1;
    }
    assert(values_of(items@).map_values(|item: JsonValue| item->Array_0) =~= rows@.map_values(
        |row: &Vec<Json>| values_of(row@),
    ));
    Some(rows)
}

impl<'a> ReportsSeries<'a> {
    pub fn decode(json: &'a Json) -> (r: Option<ReportsSeries<'a>>)
        ensures
            match r {
                Some(s) => series(json@) == Some(s@),
                None => series(json@) is None,
            },
    {
        let columns = match json.field("columns", 0, 2) {
            Some(member) => match member.as_array() {
                Some(items) => items,
                None => { return None; },
            },
            None => { return None; },
        };
        let values = match json.field("values", 1, 2) {
            Some(member) => match member.as_array() {
                Some(items) => items,
                None => { return None; },
            },
            None => { return None; },
        };
        let columns = match decode_texts(columns) {
            Some(names) => names,
            None => { return None; },
        };
        let values = match decode_arrays(values) {
            Some(rows) => rows,
            None => { return None; },
        };
        Some(ReportsSeries { columns, values })
    }
}

impl<'a> ReportsResults<'a> {
    pub fn decode(json: &'a Json) -> (r: Option<ReportsResults<'a>>)
        ensures
            match r {
                Some(res) => results(json@) == Some(res@),
                None => results(json@) is None,
            },
    {
        let items = match json.field("series", 0, 1) {
            Some(member) => match member.as_array() {
                Some(items) => items,
                None => { return None; },
            },
            None => { return None; },
        };
        let mut all: Vec<ReportsSeries<'a>> = Vec::new();
        let mut i: usize = 0;
        while i < items.len()
            invariant
                i <= items.len(),
                all.len() == i,
                json@.field("series"@, 0, 1) == Some(JsonValue::Array(values_of(items@))),
                forall|k: int|
                    0 <= k < i ==> series(#[trigger] values_of(items@)[k]) == Some(all@[k]@),
            decreases items.len() - i,
        {
            match ReportsSeries::decode(&items[i]) {
                Some(s) => {
                    all.push(s);
                },
                None => {
                    assert(series(values_of(items@)[i as int]) is None);
                    return None;
                },
            }
            i += 1;
        }
        let r = ReportsResults { series: all };
        assert(values_of(items@).map_values(|item: JsonValue| series(item)->Some_0) =~= r@.series);
        Some(r)
    }
}

impl<'a> ReportsData<'a> {
    pub fn decode(json: &'a Json) -> (r: Option<ReportsData<'a>>)
        ensures
            match r {
                Some(d) => data(json@) == Some(d@),
                None => data(json@) is None,
            },
    {
        let items = match json.field("results", 0, 1) {
            Some(member) => match member.as_array() {
                Some(items) => items,
                None => { return None; },
            },
            None => { return None; },
        };
        let mut all: Vec<ReportsResults<'a>> = Vec::new();
        let mut i: usize = 0;
        while i < items.len()
            invariant
                i <= items.len(),
                all.len() == i,
                json@.field("results"@, 0, 1) == Some(JsonValue::Array(values_of(items@))),
                forall|k: int|
                    0 <= k < i ==> results(#[trigger] values_of(items@)[k]) == Some(all@[k]@),
            decreases items.len() - i,
        {
            match ReportsResults::decode(&items[i]) {
                Some(res) => {
                    all.push(res);
                },
                None => {
                    assert(results(values_of(items@)[i as int]) is None);
                    return None;
                },
            }
            i += 1;
        }
        let r = ReportsData { results: all };
        assert(values_of(items@).map_values(|item: JsonValue| results(item)->Some_0) =~= r@.results);
        Some(r)
    }
}

} // verus!

//! Flattening: the report records that the rows of a series stand for.
//!
//! A row goes with the column names by position, up to the shorter of the
//! two; where a name occurs more than once, its last column counts. A row
//! with a `time` that is an integer and an `event_text` that is a string
//! belongs to the report of that event on that day, and every column whose
//! name is a floating-point literal and whose cell holds a sensor reading
//! gives one record of that report.

use vstd::prelude::*;
use vstd::seq_lib::lemma_flatten_concat;
use crate::calendar::{report_name, utc_date};
use crate::ident::Uuid;
use crate::json::{parsed_json, values_of, Json, JsonValue};
use crate::model::{Report, ReportView};
use crate::schema::{
    data, value_entry, DataView, ReportValueEntry, ResultsView, SeriesView, ValueEntryView,
};
use crate::text::is_float_literal;

verus! {

/// How many cells of `row` have a column name.
pub open spec fn zip_len(columns: Seq<Seq<char>>, row: Seq<JsonValue>) -> nat {
    if columns.len() <= row.len() {
        columns.len()
    } else {
        row.len()
    }
}

/// The cell under `name` among the first `n`: the last one of that name.
pub open spec fn cell_among(
    columns: Seq<Seq<char>>,
    row: Seq<JsonValue>,
    name: Seq<char>,
    n: nat,
) -> Option<JsonValue>
    decreases n,
{
    if n == 0 {
        None
    } else if columns[n - 1] == name {
        Some(row[n - 1])
    } else {
        cell_among(columns, row, name, (n - 1) as nat)
    }
}

/// The cell of `row` under `name`.
pub open spec fn cell(columns: Seq<Seq<char>>, row: Seq<JsonValue>, name: Seq<char>) -> Option<
    JsonValue,
> {
    cell_among(columns, row, name, zip_len(columns, row))
}

/// Whether column `i` is the one that counts for its name among the first
/// `n`: no later column has the same name.
pub open spec fn counts(columns: Seq<Seq<char>>, n: nat, i: int) -> bool {
    forall|j: int| i < j < n ==> #[trigger] columns[j] != columns[i]
}

/// The timestamp and the event of a row: its `time`, where that is an
/// integer that fits 64 bits, and its `event_text`, where that is a string.
pub open spec fn header(columns: Seq<Seq<char>>, row: Seq<JsonValue>) -> Option<(i64, Seq<char>)> {
    match (cell(columns, row, "time"@), cell(columns, row, "event_text"@)) {
        (Some(JsonValue::Number(Some(secs))), Some(JsonValue::String(event_text))) => Some(
            (secs, event_text),
        ),
        _ => None,
    }
}

/// The sensor reading that a cell holds: the cell is a string, the string
/// is JSON text, and the document is a sensor reading.
pub open spec fn cell_entry(cell: JsonValue) -> Option<ValueEntryView> {
    match cell {
        JsonValue::String(text) => match parsed_json(text) {
            Some(json) => value_entry(json),
            None => None,
        },
        _ => None,
    }
}

/// The value that a sensor reading gives: its first value, where that is a
/// string.
pub open spec fn reading(entry: ValueEntryView) -> Option<Seq<char>> {
    if entry.value.len() > 0 && entry.value[0] is String {
        Some(entry.value[0]->String_0)
    } else {
        None
    }
}

/// The record of one field of a report, where the sensor reading gives a
/// value.
pub open spec fn field_record(
    customer: Seq<u8>,
    vessel: Seq<u8>,
    report_name: Seq<char>,
    field_name: Seq<char>,
    entry: ValueEntryView,
) -> Option<ReportView> {
    match reading(entry) {
        Some(value) => Some(
            ReportView {
                customer_id: customer,
                vessel_id: vessel,
                report_name,
                field_name,
                value,
                label: entry.sensor_text,
            },
        ),
        None => None,
    }
}

/// The records that column `i` of a row gives: one or none.
pub open spec fn column_records(
    customer: Seq<u8>,
    vessel: Seq<u8>,
    report_name: Seq<char>,
    columns: Seq<Seq<char>>,
    row: Seq<JsonValue>,
    i: int,
) -> Seq<ReportView> {
    if counts(columns, zip_len(columns, row), i) && is_float_literal(columns[i]) {
        match cell_entry(row[i]) {
            Some(entry) => match field_record(customer, vessel, report_name, columns[i], entry) {
                Some(record) => seq![record],
                None => seq![],
            },
            None => seq![],
        }
    } else {
        seq![]
    }
}

/// The records of the first `n` columns of a row, in the order of the
/// columns.
pub open spec fn fields_among(
    customer: Seq<u8>,
    vessel: Seq<u8>,
    report_name: Seq<char>,
    columns: Seq<Seq<char>>,
    row: Seq<JsonValue>,
    n: nat,
) -> Seq<ReportView> {
    Seq::new(n, |i: int| column_records(customer, vessel, report_name, columns, row, i)).flatten()
}

/// The records of a row that belongs to the report `report_name`.
pub open spec fn row_fields(
    customer: Seq<u8>,
    vessel: Seq<u8>,
    report_name: Seq<char>,
    columns: Seq<Seq<char>>,
    row: Seq<JsonValue>,
) -> Seq<ReportView> {
    fields_among(customer, vessel, report_name, columns, row, zip_len(columns, row))
}

/// The records of a row: those of its report where it has a header and the
/// timestamp has a date, none otherwise.
pub open spec fn row_records(
    customer: Seq<u8>,
    vessel: Seq<u8>,
    columns: Seq<Seq<char>>,
    row: Seq<JsonValue>,
) -> Seq<ReportView> {
    match header(columns, row) {
        Some((secs, event_text)) => match utc_date(secs) {
            Some(date) => row_fields(
                customer,
                vessel,
                report_name(date, event_text),
                columns,
                row,
            ),
            None => seq![],
        },
        None => seq![],
    }
}

/// The records of the rows `rows` under the column names `columns`, row by
/// row.
pub open spec fn rows_records(
    customer: Seq<u8>,
    vessel: Seq<u8>,
    columns: Seq<Seq<char>>,
    rows: Seq<Seq<JsonValue>>,
) -> Seq<ReportView> {
    rows.map_values(|row: Seq<JsonValue>| row_records(customer, vessel, columns, row)).flatten()
}

/// The records of a series.
pub open spec fn series_records(customer: Seq<u8>, vessel: Seq<u8>, series: SeriesView) -> Seq<
    ReportView,
> {
    rows_records(customer, vessel, series.columns, series.values)
}

/// The records of a list of series, series by series.
pub open spec fn all_series_records(
    customer: Seq<u8>,
    vessel: Seq<u8>,
    all: Seq<SeriesView>,
) -> Seq<ReportView> {
    all.map_values(|series: SeriesView| series_records(customer, vessel, series)).flatten()
}

/// The records of a document: those of the series of its results, in the
/// order of the document.
pub open spec fn document_records(customer: Seq<u8>, vessel: Seq<u8>, document: DataView) -> Seq<
    ReportView,
> {
    document.results.map_values(
        |results: ResultsView| all_series_records(customer, vessel, results.series),
    ).flatten()
}

/// The records of an entry that holds the text `text`: those of the document
/// that the text is, `None` where it is no document of the schema.
pub open spec fn entry_records(customer: Seq<u8>, vessel: Seq<u8>, text: Seq<char>) -> Option<
    Seq<ReportView>,
> {
    match parsed_json(text) {
        Some(json) => match data(json) {
            Some(document) => Some(document_records(customer, vessel, document)),
            None => None,
        },
        None => None,
    }
}

/// The records of one more column follow those of the columns before it.
pub proof fn lemma_fields_among_next(
    customer: Seq<u8>,
    vessel: Seq<u8>,
    report_name: Seq<char>,
    columns: Seq<Seq<char>>,
    row: Seq<JsonValue>,
    n: nat,
)
    ensures
        fields_among(customer, vessel, report_name, columns, row, n + 1) == fields_among(
            customer,
            vessel,
            report_name,
            columns,
            row,
            n,
        ) + column_records(customer, vessel, report_name, columns, row, n as int),
        fields_among(customer, vessel, report_name, columns, row, 0) == Seq::<ReportView>::empty(),
{
    let f = |i: int| column_records(customer, vessel, report_name, columns, row, i);
    assert(Seq::new(n + 1, f) =~= Seq::new(n, f).push(f(n as int)));
    Seq::new(n, f).lemma_flatten_push(f(n as int));
    assert(Seq::new(0, f) =~= Seq::<Seq<ReportView>>::empty());
}

/// The records of one more row follow those of the rows before it.
pub proof fn lemma_rows_records_next(
    customer: Seq<u8>,
    vessel: Seq<u8>,
    columns: Seq<Seq<char>>,
    rows: Seq<Seq<JsonValue>>,
    row: Seq<JsonValue>,
)
    ensures
        rows_records(customer, vessel, columns, rows.push(row)) == rows_records(
            customer,
            vessel,
            columns,
            rows,
        ) + row_records(customer, vessel, columns, row),
        rows_records(customer, vessel, columns, Seq::empty()) == Seq::<ReportView>::empty(),
{
    let f = |row: Seq<JsonValue>| row_records(customer, vessel, columns, row);
    assert(rows.push(row).map_values(f) =~= rows.map_values(f).push(f(row)));
    rows.map_values(f).lemma_flatten_push(f(row));
    assert(Seq::<Seq<JsonValue>>::empty().map_values(f) =~= Seq::<Seq<ReportView>>::empty());
}

/// Each row gives its records by itself: the records of rows in a row are
/// those of the first rows and then those of the rest.
pub proof fn lemma_rows_records_concat(
    customer: Seq<u8>,
    vessel: Seq<u8>,
    columns: Seq<Seq<char>>,
    first: Seq<Seq<JsonValue>>,
    rest: Seq<Seq<JsonValue>>,
)
    ensures
        rows_records(customer, vessel, columns, first + rest) == rows_records(
            customer,
            vessel,
            columns,
            first,
        ) + rows_records(customer, vessel, columns, rest),
{
    let f = |row: Seq<JsonValue>| row_records(customer, vessel, columns, row);
    assert((first + rest).map_values(f) =~= first.map_values(f) + rest.map_values(f));
    lemma_flatten_concat(first.map_values(f), rest.map_values(f));
}

/// A row without a header, be it that it has no `time` or no `event_text`
/// or that one of them is of the wrong kind, gives no record, and the rows
/// around it give what they give without it.
pub proof fn lemma_row_without_header(
    customer: Seq<u8>,
    vessel: Seq<u8>,
    columns: Seq<Seq<char>>,
    before: Seq<Seq<JsonValue>>,
    row: Seq<JsonValue>,
    after: Seq<Seq<JsonValue>>,
)
    requires
        header(columns, row) is None,
    ensures
        row_records(customer, vessel, columns, row) == Seq::<ReportView>::empty(),
        rows_records(customer, vessel, columns, before + seq![row] + after) == rows_records(
            customer,
            vessel,
            columns,
            before + after,
        ),
{
    lemma_rows_records_concat(customer, vessel, columns, before + seq![row], after);
    lemma_rows_records_concat(customer, vessel, columns, before, seq![row]);
    lemma_rows_records_concat(customer, vessel, columns, before, after);
    lemma_rows_records_next(customer, vessel, columns, Seq::empty(), row);
    assert(Seq::<Seq<JsonValue>>::empty().push(row) == seq![row]);
}

/// The records of one more series follow those of the series before it.
pub proof fn lemma_all_series_records_next(
    customer: Seq<u8>,
    vessel: Seq<u8>,
    all: Seq<SeriesView>,
    series: SeriesView,
)
    ensures
        all_series_records(customer, vessel, all.push(series)) == all_series_records(
            customer,
            vessel,
            all,
        ) + series_records(customer, vessel, series),
        all_series_records(customer, vessel, Seq::empty()) == Seq::<ReportView>::empty(),
{
    let f = |series: SeriesView| series_records(customer, vessel, series);
    assert(all.push(series).map_values(f) =~= all.map_values(f).push(f(series)));
    all.map_values(f).lemma_flatten_push(f(series));
    assert(Seq::<SeriesView>::empty().map_values(f) =~= Seq::<Seq<ReportView>>::empty());
}

/// The records of one more result follow those of the results before it.
pub proof fn lemma_document_records_next(
    customer: Seq<u8>,
    vessel: Seq<u8>,
    all: Seq<ResultsView>,
    results: ResultsView,
)
    ensures
        document_records(customer, vessel, DataView { results: all.push(results) })
            == document_records(customer, vessel, DataView { results: all }) + all_series_records(
            customer,
            vessel,
            results.series,
        ),
        document_records(customer, vessel, DataView { results: Seq::empty() }) == Seq::<
            ReportView,
        >::empty(),
{
    let f = |results: ResultsView| all_series_records(customer, vessel, results.series);
    assert(all.push(results).map_values(f) =~= all.map_values(f).push(f(results)));
    all.map_values(f).lemma_flatten_push(f(results));
    assert(Seq::<ResultsView>::empty().map_values(f) =~= Seq::<Seq<ReportView>>::empty());
}

/// The texts of a list of column names.
pub open spec fn names_of(columns: Seq<&String>) -> Seq<Seq<char>> {
    columns.map_values(|name: &String| name@)
}

/// The cell of `row` under `name`.
pub fn find_cell<'a>(columns: &Vec<&String>, row: &'a Vec<Json>, name: &str) -> (r: Option<
    &'a Json,
>)
    ensures
        match r {
            Some(json) => cell(names_of(columns@), values_of(row@), name@) == Some(json@),
            None => cell(names_of(columns@), values_of(row@), name@) is None,
        },
{
    let n = if columns.len() <= row.len() {
        columns.len()
    } else {
        row.len()
    };
    let mut i: usize = n;
    while i > 0
        invariant
            i <= n,
            n == zip_len(names_of(columns@), values_of(row@)),
            cell(names_of(columns@), values_of(row@), name@) == cell_among(
                names_of(columns@),
                values_of(row@),
                name@,
                i as nat,
            ),
        decreases i,
    {
        i -= 1;
        if columns[i].as_str().eq(name) {
            return Some(&row[i]);
        }
    }
    None
}

/// The timestamp and the event of a row.
pub fn row_header<'a>(columns: &Vec<&String>, row: &'a Vec<Json>) -> (r: Option<
    (i64, &'a String),
>)
    ensures
        match r {
            Some((secs, event_text)) => header(names_of(columns@), values_of(row@)) == Some(
                (secs, event_text@),
            ),
            None => header(names_of(columns@), values_of(row@)) is None,
        },
{
    let secs = match find_cell(columns, row, "time") {
        Some(Json::Number(Some(secs))) => *secs,
        _ => { return None; },
    };
    match find_cell(columns, row, "event_text") {
        Some(Json::String(event_text)) => Some((secs, event_text)),
        _ => None,
    }
}

/// Whether column `i` counts for its name among the first `n`.
pub fn column_counts(columns: &Vec<&String>, n: usize, i: usize) -> (r: bool)
    requires
        i < n <= columns.len(),
    ensures
        r == counts(names_of(columns@), n as nat, i as int),
{
    let mut j: usize = i + 1;
    while j < n
        invariant
            i < j <= n <= columns.len(),
            forall|k: int|
                i < k < j ==> #[trigger] names_of(columns@)[k] != names_of(columns@)[i as int],
        decreases n - j,
    {
        if columns[j].as_str().eq(columns[i].as_str()) {
            assert(names_of(columns@)[j as int] == names_of(columns@)[i as int]);
            return false;
        }
        j += 1;
    }
    true
}

/// The sensor reading that a cell holds.
pub fn read_cell(cell: &Json) -> (r: Option<Json>)
    ensures
        match r {
            Some(json) => cell_entry(cell@) == value_entry(json@),
            None => cell_entry(cell@) is None,
        },
{
    match cell {
        Json::String(text) => match Json::parse(text.as_str()) {
            Ok(json) => Some(json),
            Err(_) => None,
        },
        _ => None,
    }
}

/// The record of one field of a report, where the sensor reading gives a
/// value.
pub fn field_record_of(
    customer_id: Uuid,
    vessel_id: Uuid,
    report_name: &String,
    field_name: &String,
    entry: &ReportValueEntry,
) -> (r: Option<Report>)
    ensures
        match r {
            Some(record) => field_record(
                customer_id@,
                vessel_id@,
                report_name@,
                field_name@,
                entry@,
            ) == Some(record@),
            None => field_record(customer_id@, vessel_id@, report_name@, field_name@, entry@)
                is None,
        },
{
    if entry.value.len() == 0 {
        return None;
    }
    match &entry.value[0] {
        Json::String(value) => Some(
            Report {
                customer_id,
                vessel_id,
                report_name: report_name.clone(),
                field_name: field_name.clone(),
                value: value.clone(),
                label: entry.sensor_text.clone(),
            },
        ),
        _ => None,
    }
}

} // verus!

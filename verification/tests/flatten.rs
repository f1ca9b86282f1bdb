use vessel_reports::flatten::{column_counts, field_record_of, find_cell, read_cell, row_header};
use vessel_reports::ident::Uuid;
use vessel_reports::json::Json;
use vessel_reports::loader::{load_reports, DynamoDbBuffer};
use vessel_reports::model::Report;
use vessel_reports::runtime_error::RuntimeError;
use vessel_reports::schema::{ReportValueEntry, ReportsSeries};

const CUSTOMER: &str = "00000000-0000-0000-0000-000000000000";
const VESSEL: &str = "00000000-0000-0000-0000-000000000001";

fn buffer() -> DynamoDbBuffer {
    DynamoDbBuffer::new("Reports".to_string(), CUSTOMER, VESSEL).ok().unwrap()
}

fn text(value: &str) -> Json {
    Json::String(value.to_string())
}

fn number(value: i64) -> Json {
    Json::Number(Some(value))
}

fn sensor(label: &str, value: &str) -> Json {
    text(&format!("{{\"sensor_text\":\"{label}\",\"value\":[\"{value}\"]}}"))
}

fn copy(json: &Json) -> Json {
    match json {
        Json::Null => Json::Null,
        Json::Bool(b) => Json::Bool(*b),
        Json::Number(n) => Json::Number(*n),
        Json::String(s) => Json::String(s.clone()),
        Json::Array(items) => Json::Array(items.iter().map(copy).collect()),
        Json::Object(members) => {
            Json::Object(members.iter().map(|m| (m.0.clone(), copy(&m.1))).collect())
        }
    }
}

fn copy_row(row: &[Json]) -> Vec<Json> {
    row.iter().map(copy).collect()
}

fn names(columns: &[&str]) -> Vec<String> {
    columns.iter().map(|name| name.to_string()).collect()
}

/// All the records that the buffer holds, sealed or not, in order.
fn drain(buffer: &mut DynamoDbBuffer) -> Vec<Report> {
    buffer.flush();
    buffer.save().into_iter().flatten().collect()
}

fn records_of_rows(columns: &[&str], rows: &[Vec<Json>]) -> Vec<Report> {
    let columns = names(columns);
    let series =
        ReportsSeries { columns: columns.iter().collect(), values: rows.iter().collect() };
    let mut buffer = buffer();
    buffer.save_data_series(&series);
    drain(&mut buffer)
}

fn summary(records: &[Report]) -> Vec<(String, String, String, String)> {
    records
        .iter()
        .map(|r| (r.report_name.clone(), r.field_name.clone(), r.value.clone(), r.label.clone()))
        .collect()
}

fn line(report: &str, field: &str, value: &str, label: &str) -> (String, String, String, String) {
    (report.to_string(), field.to_string(), value.to_string(), label.to_string())
}

#[test]
fn row_with_one_sensor_gives_one_record() {
    let row = vec![
        number(1_700_000_000),
        text("warn"),
        text("{\"sensor_text\":\"Temp\",\"value\":[\"42\"]}"),
    ];
    let records = records_of_rows(&["time", "event_text", "3.0"], &[row]);
    assert_eq!(1, records.len());
    assert_eq!("2023-11-14.warn", records[0].report_name);
    assert_eq!("3.0", records[0].field_name);
    assert_eq!("42", records[0].value);
    assert_eq!("Temp", records[0].label);
    assert_eq!(Uuid::parse_str(CUSTOMER).unwrap(), records[0].customer_id);
    assert_eq!(Uuid::parse_str(VESSEL).unwrap(), records[0].vessel_id);
}

#[test]
fn document_text_gives_the_same_record() {
    let data = "{\"results\":[{\"series\":[{\"columns\":[\"time\",\"event_text\",\"3.0\"],\
                \"values\":[[1700000000,\"warn\",\
                \"{\\\"sensor_text\\\":\\\"Temp\\\",\\\"value\\\":[\\\"42\\\"]}\"]]}]}]}";
    let mut buffer = buffer();
    assert!(buffer.save_sensors_data(data).is_ok());
    let records = drain(&mut buffer);
    assert_eq!(vec![line("2023-11-14.warn", "3.0", "42", "Temp")], summary(&records));
}

#[test]
fn row_without_time_or_event_gives_nothing() {
    let good = vec![number(1_700_000_000), text("warn"), sensor("Temp", "42")];
    let alone = records_of_rows(&["time", "event_text", "3.0"], &[copy_row(&good)]);
    assert_eq!(1, alone.len());

    assert!(records_of_rows(&["event_text", "3.0"], &[vec![text("warn"), sensor("T", "1")]])
        .is_empty());
    assert!(records_of_rows(&["time", "3.0"], &[vec![number(1), sensor("T", "1")]]).is_empty());
    for bad in [
        vec![Json::Null, text("warn"), sensor("Temp", "1")],
        vec![text("1700000000"), text("warn"), sensor("Temp", "1")],
        vec![Json::Number(None), text("warn"), sensor("Temp", "1")],
        vec![number(1_700_000_000), Json::Null, sensor("Temp", "1")],
        vec![number(1_700_000_000), number(7), sensor("Temp", "1")],
        vec![number(1_700_000_000)],
        vec![],
    ] {
        let rows = [copy_row(&good), bad, copy_row(&good)];
        let records = records_of_rows(&["time", "event_text", "3.0"], &rows);
        assert_eq!(
            vec![
                line("2023-11-14.warn", "3.0", "42", "Temp"),
                line("2023-11-14.warn", "3.0", "42", "Temp")
            ],
            summary(&records)
        );
    }
}

#[test]
fn timestamp_without_a_date_gives_nothing() {
    let rows = [
        vec![number(i64::MAX), text("warn"), sensor("Temp", "1")],
        vec![number(86_400), text("info"), sensor("Temp", "2")],
    ];
    let records = records_of_rows(&["time", "event_text", "1"], &rows);
    assert_eq!(vec![line("1970-1-2.info", "1", "2", "Temp")], summary(&records));
}

#[test]
fn only_columns_named_by_a_float_give_records() {
    let row = vec![
        number(0),
        text("e"),
        sensor("A", "1"),
        sensor("B", "2"),
        sensor("C", "3"),
        sensor("D", "4"),
        sensor("E", "5"),
    ];
    let records =
        records_of_rows(&["time", "event_text", "1", "name", "-2.5e3", "", "inf"], &[row]);
    assert_eq!(
        vec![
            line("1970-1-1.e", "1", "1", "A"),
            line("1970-1-1.e", "-2.5e3", "3", "C"),
            line("1970-1-1.e", "inf", "5", "E"),
        ],
        summary(&records)
    );
}

#[test]
fn cells_that_hold_no_reading_are_passed_over() {
    let row = vec![
        number(0),
        text("e"),
        text("not json"),
        text("{\"sensor_text\":\"A\"}"),
        text("{\"sensor_text\":\"B\",\"value\":[]}"),
        text("{\"sensor_text\":\"C\",\"value\":[42]}"),
        text("{\"sensor_text\":\"D\",\"value\":[null,\"x\"]}"),
        number(5),
        Json::Object(vec![
            ("sensor_text".to_string(), text("E")),
            ("value".to_string(), Json::Array(vec![text("5")])),
        ]),
        text("{\"sensor_text\":\"F\",\"value\":[\"6\",7]}"),
        text("[\"G\",[\"7\"]]"),
    ];
    let columns = ["time", "event_text", "1", "2", "3", "4", "5", "6", "7", "8", "9"];
    let records = records_of_rows(&columns, &[row]);
    assert_eq!(
        vec![line("1970-1-1.e", "8", "6", "F"), line("1970-1-1.e", "9", "7", "G")],
        summary(&records)
    );
}

#[test]
fn last_column_of_a_name_counts() {
    let row = vec![
        number(0),
        sensor("A", "first"),
        text("old"),
        number(86_400),
        sensor("B", "second"),
        text("new"),
    ];
    let columns = ["time", "1", "event_text", "time", "1", "event_text"];
    let records = records_of_rows(&columns, &[row]);
    assert_eq!(vec![line("1970-1-2.new", "1", "second", "B")], summary(&records));
}

#[test]
fn earlier_column_counts_where_the_row_ends_before_the_later() {
    let row = vec![number(0), text("e"), sensor("A", "first")];
    let records = records_of_rows(&["time", "event_text", "1", "1"], &[row]);
    assert_eq!(vec![line("1970-1-1.e", "1", "first", "A")], summary(&records));
    let long = vec![number(0), text("e"), sensor("A", "first"), sensor("B", "beyond")];
    let records = records_of_rows(&["time", "event_text", "1"], &[long]);
    assert_eq!(vec![line("1970-1-1.e", "1", "first", "A")], summary(&records));
}

#[test]
fn later_column_that_holds_no_reading_hides_the_earlier() {
    let row = vec![number(0), text("e"), sensor("A", "first"), Json::Null];
    assert!(records_of_rows(&["time", "event_text", "1", "1"], &[row]).is_empty());
}

#[test]
fn records_come_in_the_order_of_the_document() {
    let data = "{\"results\":[\
        {\"series\":[\
          {\"columns\":[\"time\",\"event_text\",\"1\",\"2\"],\"values\":[\
            [0,\"a\",\"{\\\"sensor_text\\\":\\\"L\\\",\\\"value\\\":[\\\"1\\\"]}\",\
                     \"{\\\"sensor_text\\\":\\\"L\\\",\\\"value\\\":[\\\"2\\\"]}\"],\
            [0,\"b\",\"{\\\"sensor_text\\\":\\\"L\\\",\\\"value\\\":[\\\"3\\\"]}\",null]]},\
          {\"columns\":[\"event_text\",\"time\",\"9\"],\"values\":[\
            [\"c\",0,\"{\\\"sensor_text\\\":\\\"L\\\",\\\"value\\\":[\\\"4\\\"]}\"]]}]},\
        {\"series\":[]},\
        {\"series\":[\
          {\"columns\":[\"time\",\"event_text\",\"1\"],\"values\":[\
            [0,\"d\",\"{\\\"sensor_text\\\":\\\"L\\\",\\\"value\\\":[\\\"5\\\"]}\"]]}]}]}";
    let mut buffer = buffer();
    assert!(buffer.process_entry("data/reports.json", data).is_ok());
    let records = drain(&mut buffer);
    assert_eq!(
        vec![
            line("1970-1-1.a", "1", "1", "L"),
            line("1970-1-1.a", "2", "2", "L"),
            line("1970-1-1.b", "1", "3", "L"),
            line("1970-1-1.c", "9", "4", "L"),
            line("1970-1-1.d", "1", "5", "L"),
        ],
        summary(&records)
    );
}

#[test]
fn text_that_is_no_document_is_an_error_and_pushes_nothing() {
    for bad in ["", "{", "[]", "{\"results\":[{\"series\":[{\"columns\":[]}]}]}", "{\"results\":7}"]
    {
        let mut buffer = buffer();
        let result = buffer.save_sensors_data(bad);
        assert!(matches!(result, Err(RuntimeError::SerializationError(_))), "{bad}");
        assert_eq!(0, buffer.len());
        assert!(buffer.save().is_empty());
    }
}

#[test]
fn document_with_a_malformed_series_pushes_nothing_of_the_others() {
    let data = "{\"results\":[{\"series\":[\
        {\"columns\":[\"time\",\"event_text\",\"1\"],\"values\":[\
          [0,\"a\",\"{\\\"sensor_text\\\":\\\"L\\\",\\\"value\\\":[\\\"1\\\"]}\"]]},\
        {\"columns\":[\"time\"]}]}]}";
    let mut buffer = buffer();
    assert!(buffer.process_entry("data/reports.json", data).is_err());
    assert!(drain(&mut buffer).is_empty());
}

#[test]
fn other_entries_are_passed_over() {
    let mut buffer = buffer();
    assert!(buffer.process_entry("data/other.json", "not even json").is_ok());
    assert!(buffer.process_entry("data/", "").is_ok());
    assert!(buffer.process_entry("", "{\"results\":[]}").is_ok());
    assert!(drain(&mut buffer).is_empty());
}

#[test]
fn cell_of_a_row_is_the_last_of_its_name() {
    let columns = names(&["a", "b", "a", "c"]);
    let columns: Vec<&String> = columns.iter().collect();
    let row = vec![number(1), number(2), number(3)];
    assert!(matches!(find_cell(&columns, &row, "a"), Some(Json::Number(Some(3)))));
    assert!(matches!(find_cell(&columns, &row, "b"), Some(Json::Number(Some(2)))));
    assert!(find_cell(&columns, &row, "c").is_none());
    assert!(find_cell(&columns, &row, "d").is_none());
    let short = vec![number(1)];
    assert!(matches!(find_cell(&columns, &short, "a"), Some(Json::Number(Some(1)))));
    assert!(find_cell(&columns, &vec![], "a").is_none());
}

#[test]
fn header_is_time_and_event() {
    let columns = names(&["event_text", "time"]);
    let columns: Vec<&String> = columns.iter().collect();
    let row = vec![text("warn"), number(-7)];
    let (secs, event_text) = row_header(&columns, &row).unwrap();
    assert_eq!(-7, secs);
    assert_eq!("warn", event_text);
    assert!(row_header(&columns, &vec![text("warn")]).is_none());
    assert!(row_header(&columns, &vec![number(1), number(2)]).is_none());
    assert!(row_header(&columns, &vec![text("warn"), Json::Number(None)]).is_none());
    assert!(row_header(&columns, &vec![text("warn"), Json::Bool(true)]).is_none());
}

#[test]
fn column_counts_where_no_later_has_its_name() {
    let columns = names(&["a", "b", "a", "b", "c"]);
    let columns: Vec<&String> = columns.iter().collect();
    assert!(!column_counts(&columns, 5, 0));
    assert!(!column_counts(&columns, 5, 1));
    assert!(column_counts(&columns, 5, 2));
    assert!(column_counts(&columns, 5, 3));
    assert!(column_counts(&columns, 5, 4));
    assert!(!column_counts(&columns, 3, 0));
    assert!(column_counts(&columns, 3, 1));
    assert!(column_counts(&columns, 2, 0));
    assert!(column_counts(&columns, 1, 0));
}

#[test]
fn cell_is_read_as_nested_json() {
    assert!(matches!(read_cell(&text("[1]")), Some(Json::Array(_))));
    assert!(matches!(read_cell(&text("\"x\"")), Some(Json::String(_))));
    assert!(read_cell(&text("x")).is_none());
    assert!(read_cell(&text("")).is_none());
    assert!(read_cell(&number(1)).is_none());
    assert!(read_cell(&Json::Array(vec![])).is_none());
    assert!(read_cell(&Json::Null).is_none());
}

#[test]
fn field_record_takes_the_first_value_if_it_is_a_string() {
    let customer = Uuid::parse_str(CUSTOMER).unwrap();
    let vessel = Uuid::parse_str(VESSEL).unwrap();
    let label = "Temp".to_string();
    let report = "2023-11-14.warn".to_string();
    let field = "3.0".to_string();

    let values = vec![text("42"), number(1)];
    let entry = ReportValueEntry { sensor_text: &label, value: &values };
    let record = field_record_of(customer, vessel, &report, &field, &entry).unwrap();
    assert_eq!(customer, record.customer_id);
    assert_eq!(vessel, record.vessel_id);
    assert_eq!("2023-11-14.warn", record.report_name);
    assert_eq!("3.0", record.field_name);
    assert_eq!("42", record.value);
    assert_eq!("Temp", record.label);

    let none: Vec<Json> = vec![];
    let entry = ReportValueEntry { sensor_text: &label, value: &none };
    assert!(field_record_of(customer, vessel, &report, &field, &entry).is_none());
    let numeric = vec![number(42), text("42")];
    let entry = ReportValueEntry { sensor_text: &label, value: &numeric };
    assert!(field_record_of(customer, vessel, &report, &field, &entry).is_none());
}

#[test]
fn key_of_no_archive_leaves_nothing_to_do() {
    for key in ["", "export.zip", "v1/SYNC/a/b/c.zip", "v1/OTHER/x.zip"] {
        assert!(matches!(load_reports("Reports".to_string(), key), Ok(None)), "{key}");
    }
    let upper = format!("v1/SYNC/{}/{VESSEL}/a.zip", "ABCDEF00-0000-0000-0000-000000000000");
    assert!(matches!(load_reports("Reports".to_string(), &upper), Ok(None)));
}

#[test]
fn key_of_an_archive_starts_an_empty_buffer() {
    let key = format!("v1/SYNC/{CUSTOMER}/{VESSEL}/2024/export.zip");
    let mut buffer = load_reports("Reports".to_string(), &key).ok().unwrap().unwrap();
    assert_eq!("Reports", buffer.table_name());
    assert_eq!(Uuid::parse_str(CUSTOMER).unwrap(), buffer.customer_id());
    assert_eq!(Uuid::parse_str(VESSEL).unwrap(), buffer.vessel_id());
    assert_eq!(0, buffer.len());
    assert!(buffer.save().is_empty());
    buffer.flush();
    assert!(buffer.save().is_empty());
}

#[test]
fn identifiers_that_are_no_uuids_are_an_error() {
    for key in [
        format!("v1/SYNC/{CUSTOMER}/------------------------------------/a.zip"),
        format!("v1/SYNC/0000000000000000-0000-0000-000000000/{VESSEL}/a.zip"),
        format!("v1/SYNC/{CUSTOMER}/00000000-0000-0000-0000000-000000001/a.zip"),
    ] {
        let result = load_reports("Reports".to_string(), &key);
        assert!(matches!(result, Err(RuntimeError::UuidError(_))), "{key}");
    }
    assert!(matches!(
        DynamoDbBuffer::new("Reports".to_string(), "nothing", VESSEL),
        Err(RuntimeError::UuidError(_))
    ));
    assert!(matches!(
        DynamoDbBuffer::new("Reports".to_string(), CUSTOMER, ""),
        Err(RuntimeError::UuidError(_))
    ));
}

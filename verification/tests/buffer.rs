use std::collections::HashMap;
use vessel_reports::ident::Uuid;
use vessel_reports::loader::{load_reports, DynamoDbBuffer, CHUNK_SIZE};
use vessel_reports::model::Report;

const CUSTOMER: &str = "00000000-0000-0000-0000-000000000000";
const VESSEL: &str = "00000000-0000-0000-0000-000000000001";

fn buffer() -> DynamoDbBuffer {
    DynamoDbBuffer::new("Reports".to_string(), CUSTOMER, VESSEL).ok().unwrap()
}

fn record(n: usize) -> Report {
    Report {
        customer_id: Uuid::parse_str(CUSTOMER).unwrap(),
        vessel_id: Uuid::parse_str(VESSEL).unwrap(),
        report_name: "2024-1-1.info".to_string(),
        field_name: format!("{n}.0"),
        value: format!("{n}"),
        label: "Sensor".to_string(),
    }
}

fn values(batch: &[Report]) -> Vec<String> {
    batch.iter().map(|r| r.value.clone()).collect()
}

fn counted(from: usize, to: usize) -> Vec<String> {
    (from..to).map(|n| n.to_string()).collect()
}

#[test]
fn capacity_is_that_of_a_bulk_write() {
    assert_eq!(25, CHUNK_SIZE);
}

#[test]
fn queue_is_sealed_exactly_when_it_reaches_capacity() {
    let mut buffer = buffer();
    for n in 0..24 {
        buffer.write(record(n));
        assert_eq!(n + 1, buffer.len());
        assert!(buffer.save().is_empty());
    }
    buffer.write(record(24));
    assert_eq!(0, buffer.len());
    let batches = buffer.save();
    assert_eq!(1, batches.len());
    assert_eq!(counted(0, 25), values(&batches[0]));
    assert!(buffer.save().is_empty());
    buffer.write(record(25));
    assert_eq!(1, buffer.len());
    assert!(buffer.save().is_empty());
}

#[test]
fn sixty_records_make_two_batches_and_a_rest() {
    let mut buffer = buffer();
    for n in 0..60 {
        buffer.save_record(record(n));
    }
    assert_eq!(10, buffer.len());
    buffer.flush();
    assert_eq!(0, buffer.len());
    let batches = buffer.save();
    assert_eq!(3, batches.len());
    assert_eq!(counted(0, 25), values(&batches[0]));
    assert_eq!(counted(25, 50), values(&batches[1]));
    assert_eq!(counted(50, 60), values(&batches[2]));
}

#[test]
fn flush_of_an_empty_queue_seals_nothing() {
    let mut buffer = buffer();
    buffer.flush();
    assert!(buffer.save().is_empty());
    for n in 0..50 {
        buffer.write(record(n));
    }
    buffer.flush();
    buffer.flush();
    let batches = buffer.save();
    assert_eq!(2, batches.len());
    assert!(batches.iter().all(|batch| batch.len() == 25));
}

#[test]
fn flush_seals_what_is_left() {
    let mut buffer = buffer();
    buffer.write(record(0));
    buffer.flush();
    assert_eq!(0, buffer.len());
    let batches = buffer.save();
    assert_eq!(1, batches.len());
    assert_eq!(counted(0, 1), values(&batches[0]));
}

#[test]
fn save_leaves_the_queue_as_it_is() {
    let mut buffer = buffer();
    for n in 0..30 {
        buffer.write(record(n));
    }
    assert_eq!(1, buffer.save().len());
    assert_eq!(5, buffer.len());
    for n in 30..50 {
        buffer.write(record(n));
    }
    let batches = buffer.save();
    assert_eq!(1, batches.len());
    assert_eq!(counted(25, 50), values(&batches[0]));
    assert_eq!(0, buffer.len());
}

#[test]
fn no_batch_is_over_capacity_and_nothing_is_lost() {
    for total in [0usize, 1, 24, 25, 26, 49, 50, 51, 99, 100, 137] {
        let mut buffer = buffer();
        let mut written: Vec<String> = Vec::new();
        let mut bulk_writes = 0;
        for n in 0..total {
            buffer.write(record(n));
            for batch in buffer.save() {
                assert_eq!(25, batch.len());
                written.extend(values(&batch));
                bulk_writes += 1;
            }
        }
        assert_eq!(total / 25, bulk_writes);
        buffer.flush();
        let last = buffer.save();
        assert_eq!(if total % 25 == 0 { 0 } else { 1 }, last.len());
        for batch in last {
            assert_eq!(total % 25, batch.len());
            written.extend(values(&batch));
        }
        assert_eq!(counted(0, total), written);
    }
}

fn sensor_row(time: i64, fields: usize) -> String {
    let mut row = format!("[{time},\"info\"");
    for n in 0..fields {
        row.push_str(&format!(
            ",\"{{\\\"sensor_text\\\":\\\"S{n}\\\",\\\"value\\\":[\\\"{time}/{n}\\\"]}}\""
        ));
    }
    row.push(']');
    row
}

fn archive_text(rows: usize, fields: usize) -> String {
    let mut columns = String::from("\"time\",\"event_text\"");
    for n in 0..fields {
        columns.push_str(&format!(",\"{n}.5\""));
    }
    let rows: Vec<String> =
        (0..rows).map(|day| sensor_row(86_400 * (day as i64 % 3), fields)).collect();
    format!(
        "{{\"results\":[{{\"series\":[{{\"columns\":[{columns}],\"values\":[{}]}}]}}]}}",
        rows.join(",")
    )
}

/// Ingests one archive that holds `data` and writes the batches into `store`
/// as the table would take them.
fn ingest(store: &mut HashMap<(String, String), Vec<(String, String)>>, data: &str) -> usize {
    let key = format!("v1/SYNC/{CUSTOMER}/{VESSEL}/export.zip");
    let mut buffer = load_reports("Reports".to_string(), &key).ok().unwrap().unwrap();
    buffer.process_entry("data/", "").ok().unwrap();
    buffer.process_entry("data/reports.json", data).ok().unwrap();
    let mut batches = buffer.save();
    buffer.flush();
    batches.extend(buffer.save());
    for batch in &batches {
        assert!(!batch.is_empty() && batch.len() <= 25);
        for record in batch {
            let key = record.build_key();
            store.insert(
                (key.customer_and_vessel_id, key.report_key),
                record.attributes_for_write(),
            );
        }
    }
    batches.len()
}

#[test]
fn ingesting_an_archive_again_leaves_the_same_records() {
    let data = archive_text(7, 9);
    let mut store = HashMap::new();
    assert_eq!(3, ingest(&mut store, &data));
    let once = store.clone();
    assert_eq!(27, once.len());
    assert_eq!(3, ingest(&mut store, &data));
    assert_eq!(once, store);
}

#[test]
fn later_row_of_the_same_report_and_field_wins() {
    let data = "{\"results\":[{\"series\":[{\"columns\":[\"time\",\"event_text\",\"1\"],\"values\":[\
        [0,\"e\",\"{\\\"sensor_text\\\":\\\"L\\\",\\\"value\\\":[\\\"old\\\"]}\"],\
        [60,\"e\",\"{\\\"sensor_text\\\":\\\"L\\\",\\\"value\\\":[\\\"new\\\"]}\"]]}]}]}";
    let mut store = HashMap::new();
    assert_eq!(1, ingest(&mut store, data));
    assert_eq!(1, store.len());
    let item = store.values().next().unwrap();
    assert!(item.contains(&("value".to_string(), "new".to_string())));
    assert!(item.contains(&("reportKey".to_string(), "1970-1-1.e:1".to_string())));
}

#[test]
fn wide_row_is_sealed_on_the_way() {
    let data = archive_text(1, 60);
    let key = format!("v1/SYNC/{CUSTOMER}/{VESSEL}/export.zip");
    let mut buffer = load_reports("Reports".to_string(), &key).ok().unwrap().unwrap();
    buffer.save_sensors_data(&data).ok().unwrap();
    assert_eq!(10, buffer.len());
    let batches = buffer.save();
    assert_eq!(2, batches.len());
    assert_eq!("0.5", batches[0][0].field_name);
    assert_eq!("24.5", batches[0][24].field_name);
    assert_eq!("25.5", batches[1][0].field_name);
    assert_eq!("0/49", batches[1][24].value);
}

use base64::Engine;
use remote_query::cell::Cell;
use remote_query::encoding::encode_text;
use remote_query::export::{add_formatted_timestamps, export_columns, filter_and_extract_fields, format_timestamp};
use remote_query::script::{build_export_job, ExportTable};
use remote_query::stream::RecordCounter;
use remote_query::table::Row;
use remote_query::wide::ExportConfig;

fn row(entries: Vec<(&str, Cell)>) -> Row {
    let mut r = Row::new();
    for (k, v) in entries {
        r.set(k.to_string(), v);
    }
    r
}

fn text_of(r: &Row, k: &str) -> Option<String> {
    match r.get(&k.to_string()) {
        Some(Cell::Text(s)) => Some(s.clone()),
        _ => None,
    }
}

#[test]
fn encoded_inputs_decode_to_the_same_bytes() {
    for s in ["/data/a.db", "it's \"quoted\" \\ back", "données/数据.db", "line\nbreak", ""] {
        let encoded = encode_text(s);
        let decoded = base64::engine::general_purpose::STANDARD.decode(encoded.as_bytes()).unwrap();
        assert_eq!(decoded, s.as_bytes());
        assert!(encoded.chars().all(|c| c.is_ascii_alphanumeric() || c == '+' || c == '/' || c == '='));
    }
}

#[test]
fn seconds_are_shown_at_utc8() {
    assert_eq!(format_timestamp(1700000000, false), "2023-11-15 06:13:20");
    assert_eq!(format_timestamp(0, false), "1970-01-01 08:00:00");
    assert_eq!(format_timestamp(-1, false), "1970-01-01 07:59:59");
}

#[test]
fn milliseconds_are_shown_with_their_fraction() {
    assert_eq!(format_timestamp(1700000000123, true), "2023/11/15 06:13:20.123");
    assert_eq!(format_timestamp(1700000000007, true), "2023/11/15 06:13:20.007");
    assert_eq!(format_timestamp(-1000, true), "1970/01/01 07:59:59.000");
    assert_eq!(format_timestamp(-1500, true), "-1500");
}

#[test]
fn out_of_range_times_are_shown_as_numbers() {
    assert_eq!(format_timestamp(i64::MAX, false), i64::MAX.to_string());
}

fn config() -> ExportConfig {
    ExportConfig {
        main_table_fields: vec!["id".to_string(), "timestamp".to_string(), "local_timestamp".to_string()],
        extract_from_payload: vec![("METER".to_string(), vec!["v".to_string(), "gone".to_string()])],
        field_name_mapping: vec![("v".to_string(), "voltage".to_string())],
    }
}

#[test]
fn export_rows_keep_configured_fields() {
    let data = vec![row(vec![
        ("id", Cell::Int(1)),
        ("device_sn", Cell::Text("S".to_string())),
        ("device_type", Cell::Text("meter".to_string())),
        ("timestamp", Cell::Int(0)),
        ("payload_json", Cell::Text("{\"v\": 230, \"gone\": null}".to_string())),
    ])];
    let out = filter_and_extract_fields(&data, &config());
    assert_eq!(out.len(), 1);
    let mut keys = out[0].keys();
    keys.sort();
    assert_eq!(keys, vec!["id", "timestamp", "voltage"]);
    assert!(matches!(out[0].get(&"voltage".to_string()), Some(Cell::Int(230))));
}

#[test]
fn export_times_are_formatted() {
    let mut data = vec![row(vec![
        ("timestamp", Cell::Int(0)),
        ("local_timestamp", Cell::Int(1700000000123)),
        ("id", Cell::Int(3)),
    ])];
    add_formatted_timestamps(&mut data);
    assert_eq!(text_of(&data[0], "timestamp"), Some("1970-01-01 08:00:00".to_string()));
    assert_eq!(text_of(&data[0], "local_timestamp"), Some("2023/11/15 06:13:20.123".to_string()));
    assert!(matches!(data[0].get(&"id".to_string()), Some(Cell::Int(3))));
}

#[test]
fn export_columns_put_main_fields_first() {
    let rows = vec![
        row(vec![("zeta", Cell::Null), ("timestamp", Cell::Int(1)), ("alpha", Cell::Null)]),
        row(vec![("id", Cell::Int(2)), ("beta", Cell::Null)]),
    ];
    assert_eq!(export_columns(&rows, &config()), vec!["id", "timestamp", "alpha", "beta", "zeta"]);
}

#[test]
fn export_jobs_carry_range_and_table() {
    let wide = build_export_job(ExportTable::WideTable, "/data/a.db", 1700000000, 1700003600);
    assert!(wide.script.contains("db_path = base64.b64decode(\"L2RhdGEvYS5kYg==\")"));
    assert!(wide.script.contains("start_time = 1700000000\n    end_time = 1700003600\n"));
    assert!(wide.script.contains("FROM data_wide WHERE local_timestamp >= ?"));
    assert!(wide.script.contains("print(temp_file)"));
    let demand = build_export_job(ExportTable::DemandResults, "/data/a.db", 1, 2);
    assert!(demand.script.contains("FROM demand_results WHERE timestamp >= ?"));
    assert!(demand.temp_path.starts_with("/tmp/query_result_"));
}

#[test]
fn records_are_counted_outside_quotes() {
    let text = b"\"id\",\"note\"\r\n1,\"two\r\nlines\"\r\n2,\"say \"\"hi\"\"\"\r\n";
    let mut whole = RecordCounter::new();
    whole.feed(text);
    assert_eq!(whole.records(), 2);
    for split in 0..text.len() {
        let mut parts = RecordCounter::new();
        parts.feed(&text[..split]);
        parts.feed(&text[split..]);
        assert_eq!(parts, whole);
    }
}

#[test]
fn empty_text_has_no_records() {
    let mut c = RecordCounter::new();
    c.feed(b"");
    assert_eq!(c.records(), 0);
    c.feed(b"\"id\"\r\n");
    assert_eq!(c.records(), 0);
}

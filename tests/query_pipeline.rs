use remote_query::cell::{infer_cell, Cell};
use remote_query::decode::decode_csv;
use remote_query::encoding::encode_text;
use remote_query::error::QueryError;
use remote_query::runner::{error_text, Action, Event, Run};
use remote_query::script::{build_job, command_for, existence_command, remove_command, Interpreter};
use remote_query::sql::{
    build_command_sql, build_device_sql, build_sql, columns_from_table_info, default_device_columns,
    escape_sql_quotes, parse_kind, table_info_sql, QueryKind, QueryParams,
};
use remote_query::table::{QueryResult, Row};

fn params(kind: &str, filter: Option<&str>, extended: bool) -> QueryParams {
    QueryParams {
        db_path: "/data/a.db".to_string(),
        start_time: 1700000000,
        end_time: 1700003600,
        query_type: kind.to_string(),
        device_filter: filter.map(|f| f.to_string()),
        include_extended: extended,
    }
}

fn text(c: Option<&Cell>) -> Option<String> {
    match c {
        Some(Cell::Text(s)) => Some(s.clone()),
        _ => None,
    }
}

fn int_of(c: Option<&Cell>) -> Option<i64> {
    match c {
        Some(Cell::Int(v)) => Some(*v),
        _ => None,
    }
}

#[test]
fn empty_field_is_null() {
    assert!(matches!(infer_cell(""), Cell::Null));
}

#[test]
fn integer_fields_become_integers() {
    assert!(matches!(infer_cell("42"), Cell::Int(42)));
    assert!(matches!(infer_cell("-7"), Cell::Int(-7)));
    assert!(matches!(infer_cell("+5"), Cell::Int(5)));
    assert!(matches!(infer_cell("-9223372036854775808"), Cell::Int(i64::MIN)));
    assert!(matches!(infer_cell("9223372036854775807"), Cell::Int(i64::MAX)));
}

#[test]
fn float_fields_keep_their_literal() {
    for s in ["1.5", "1e5", "-2.5E-3", ".5", "5.", "inf", "NaN", "9223372036854775808"] {
        match infer_cell(s) {
            Cell::Float(t) => assert_eq!(t, s),
            other => panic!("{} gave {:?}", s, other),
        }
    }
}

#[test]
fn other_fields_stay_text() {
    for s in ["abc", "+", "12a", " 5", "1e", ".", "e5", "--1"] {
        match infer_cell(s) {
            Cell::Text(t) => assert_eq!(t, s),
            other => panic!("{} gave {:?}", s, other),
        }
    }
}

#[test]
fn query_kinds_are_parsed() {
    assert_eq!(parse_kind("device").unwrap(), QueryKind::Device);
    assert_eq!(parse_kind("command").unwrap(), QueryKind::Command);
    assert_eq!(parse_kind("wide_table").unwrap(), QueryKind::WideTable);
    match parse_kind("devices") {
        Err(QueryError::UnsupportedKind(t)) => assert_eq!(t, "devices"),
        other => panic!("{:?}", other),
    }
}

#[test]
fn single_quotes_are_doubled() {
    assert_eq!(escape_sql_quotes("O'Brien"), "O''Brien");
    assert_eq!(escape_sql_quotes("''"), "''''");
    assert_eq!(escape_sql_quotes("plain"), "plain");
}

#[test]
fn device_sql_filters_inclusively_and_orders_by_time() {
    let cols = vec!["id".to_string(), "device_sn".to_string(), "timestamp".to_string()];
    let sql = build_device_sql(&params("device", None, false), &cols);
    assert_eq!(
        sql,
        "SELECT d.id, d.device_sn, d.timestamp FROM device_data d WHERE d.timestamp >= 1700000000 \
         AND d.timestamp <= 1700003600 ORDER BY d.timestamp ASC"
    );
}

#[test]
fn device_sql_with_payload_and_filter() {
    let cols = vec!["id".to_string()];
    let sql = build_device_sql(&params("device", Some("A'1"), true), &cols);
    assert_eq!(
        sql,
        "SELECT d.id, e.payload_json FROM device_data d LEFT JOIN device_payload e ON e.data_id = d.id \
         WHERE d.timestamp >= 1700000000 AND d.timestamp <= 1700003600 AND d.device_sn = 'A''1' \
         ORDER BY d.timestamp ASC"
    );
}

#[test]
fn command_sql_lists_fixed_columns() {
    let sql = build_command_sql(&params("command", Some("X"), false));
    assert_eq!(
        sql,
        "SELECT id, device_sn, command_name, command_value, timestamp FROM command_log WHERE \
         timestamp >= 1700000000 AND timestamp <= 1700003600 AND device_sn = 'X' ORDER BY timestamp ASC"
    );
}

#[test]
fn negative_times_are_written_in_full() {
    let mut p = params("command", None, false);
    p.start_time = -5;
    p.end_time = 0;
    let sql = build_command_sql(&p);
    assert!(sql.contains("timestamp >= -5 AND timestamp <= 0 ORDER"));
}

#[test]
fn build_sql_dispatches_and_rejects() {
    let cols = default_device_columns();
    assert!(build_sql(&params("device", None, false), &cols).unwrap().starts_with("SELECT d.id, d.device_sn"));
    assert!(build_sql(&params("command", None, false), &cols).unwrap().contains("FROM command_log"));
    assert!(matches!(build_sql(&params("wide_table", None, false), &cols), Err(QueryError::UnsupportedKind(_))));
    assert!(matches!(build_sql(&params("other", None, false), &cols), Err(QueryError::UnsupportedKind(_))));
}

#[test]
fn table_info_gives_declared_order_or_default() {
    assert_eq!(table_info_sql(), "PRAGMA table_info(device_data)");
    let info = decode_csv(&b"cid,name,type\n0,id,INTEGER\n1,device_sn,TEXT\n2,timestamp,INTEGER\n".to_vec()).unwrap();
    assert_eq!(columns_from_table_info(&info), vec!["id", "device_sn", "timestamp"]);
    let empty = QueryResult::empty();
    assert_eq!(columns_from_table_info(&empty), default_device_columns());
    assert_eq!(default_device_columns().len(), 7);
}

#[test]
fn encoding_matches_standard_base64() {
    assert_eq!(encode_text("/data/a.db"), "L2RhdGEvYS5kYg==");
    assert_eq!(encode_text("SELECT 'a\\b\" FROM t"), "U0VMRUNUICdhXGIiIEZST00gdA==");
    assert_eq!(encode_text("données/数据.db"), "ZG9ubsOpZXMv5pWw5o2uLmRi");
    assert_eq!(encode_text(""), "");
}

#[test]
fn job_carries_encoded_inputs_and_fresh_names() {
    let job = build_job("/data/a.db", "SELECT 1");
    assert!(job.script.contains("base64.b64decode(\"L2RhdGEvYS5kYg==\")"));
    assert!(job.script.contains("base64.b64decode(\"U0VMRUNUIDE=\")"));
    assert!(job.script.contains(&format!("temp_file = \"{}\"", job.temp_path)));
    assert!(!job.script.contains("SELECT 1"));
    let token = job.temp_path.strip_prefix("/tmp/query_result_").unwrap().strip_suffix(".csv.gz").unwrap();
    assert_eq!(token.len(), 32);
    assert!(token.chars().all(|c| c.is_ascii_hexdigit() && !c.is_ascii_uppercase()));
    let mark = job.delimiter.strip_prefix("PYTHON_SCRIPT_EOF_").unwrap();
    assert_eq!(mark.len(), 8);
    let other = build_job("/data/a.db", "SELECT 1");
    assert_ne!(job.temp_path, other.temp_path);
}

#[test]
fn commands_have_their_shape() {
    let job = build_job("/d.db", "SELECT 1");
    let cmd = command_for(&job, Interpreter::Primary);
    assert!(cmd.starts_with(&format!("python3 << '{}'\n", job.delimiter)));
    assert!(cmd.ends_with(&format!("\n{}", job.delimiter)));
    let alt = command_for(&job, Interpreter::Alternate);
    assert!(alt.starts_with(&format!("python << '{}'\n", job.delimiter)));
    assert_eq!(remove_command("/tmp/x.csv.gz"), "rm -f '/tmp/x.csv.gz'");
    assert_eq!(
        existence_command("/tmp/x"),
        "if [ -f '/tmp/x' ]; then wc -c < '/tmp/x'; else echo missing; fi"
    );
}

fn executed(code: i32, out: &str, err: &str) -> Event {
    Event::Executed { exit_code: code, stdout: out.to_string(), stderr: err.to_string() }
}

fn new_run() -> (Run, String, String) {
    let job = build_job("/data/a.db", "SELECT 1");
    let temp = job.temp_path.clone();
    let primary = command_for(&job, Interpreter::Primary);
    (Run::new(job), temp, primary)
}

#[test]
fn successful_run_probes_downloads_and_cleans_up() {
    let (mut run, temp, primary) = new_run();
    match run.next(Event::Start) {
        Action::Execute(c) => assert_eq!(c, primary),
        other => panic!("{:?}", other),
    }
    match run.next(executed(0, &format!("{}\r\n", temp), "")) {
        Action::Probe(c) => assert_eq!(c, existence_command(&temp)),
        other => panic!("{:?}", other),
    }
    match run.next(executed(0, "2048\n", "")) {
        Action::Download(p) => assert_eq!(p, temp),
        other => panic!("{:?}", other),
    }
    match run.next(Event::Downloaded) {
        Action::Cleanup(c) => assert_eq!(c, remove_command(&temp)),
        other => panic!("{:?}", other),
    }
    assert!(matches!(run.next(executed(0, "", "")), Action::Done(Ok(()))));
}

#[test]
fn missing_interpreter_falls_back_once() {
    let (mut run, temp, _) = new_run();
    run.next(Event::Start);
    match run.next(executed(127, "", "bash: line 1: python3: Command Not Found")) {
        Action::Execute(c) => assert!(c.starts_with("python << '")),
        other => panic!("{:?}", other),
    }
    match run.next(executed(0, &temp, "")) {
        Action::Probe(_) => {}
        other => panic!("{:?}", other),
    }
}

#[test]
fn second_missing_interpreter_is_not_retried() {
    let (mut run, temp, _) = new_run();
    run.next(Event::Start);
    run.next(executed(127, "", "python3: command not found"));
    match run.next(executed(127, "", "python: command not found")) {
        Action::Cleanup(c) => assert_eq!(c, remove_command(&temp)),
        other => panic!("{:?}", other),
    }
    match run.next(executed(0, "", "")) {
        Action::Done(Err(QueryError::Script(m))) => assert_eq!(m, "python: command not found"),
        other => panic!("{:?}", other),
    }
}

#[test]
fn missing_remote_file_is_an_integrity_error() {
    let (mut run, temp, _) = new_run();
    run.next(Event::Start);
    run.next(executed(0, &temp, ""));
    match run.next(executed(0, "missing\n", "")) {
        Action::Cleanup(c) => assert_eq!(c, remove_command(&temp)),
        other => panic!("{:?}", other),
    }
    assert!(matches!(run.next(executed(0, "", "")), Action::Done(Err(QueryError::Integrity(_)))));
}

#[test]
fn failed_probe_still_downloads() {
    let (mut run, temp, _) = new_run();
    run.next(Event::Start);
    run.next(executed(0, &temp, ""));
    match run.next(Event::TransportFailed("channel closed".to_string())) {
        Action::Download(p) => assert_eq!(p, temp),
        other => panic!("{:?}", other),
    }
}

#[test]
fn cleanup_outcome_does_not_matter() {
    for outcome in [executed(0, "", ""), executed(1, "", "rm: cannot remove: No such file"), Event::TransportFailed("gone".to_string())] {
        let (mut run, temp, _) = new_run();
        run.next(Event::Start);
        run.next(executed(0, &temp, ""));
        run.next(executed(0, "10", ""));
        run.next(Event::Downloaded);
        assert!(matches!(run.next(outcome), Action::Done(Ok(()))));
    }
}

#[test]
fn script_errors_use_the_reported_error_field() {
    let (mut run, _, _) = new_run();
    run.next(Event::Start);
    run.next(executed(1, "", "{\"error\": \"no such table: device_data\"}"));
    match run.next(executed(0, "", "")) {
        Action::Done(Err(QueryError::Script(m))) => assert_eq!(m, "no such table: device_data"),
        other => panic!("{:?}", other),
    }
    assert_eq!(error_text("Traceback: boom"), "Traceback: boom");
    assert_eq!(error_text("{\"other\": \"x\"}"), "{\"other\": \"x\"}");
}

#[test]
fn empty_or_foreign_path_is_an_integrity_error() {
    for out in ["  \n", "/tmp/elsewhere.csv.gz\n"] {
        let (mut run, _, _) = new_run();
        run.next(Event::Start);
        assert!(matches!(run.next(executed(0, out, "")), Action::Cleanup(_)));
        assert!(matches!(run.next(executed(0, "", "")), Action::Done(Err(QueryError::Integrity(_)))));
    }
}

#[test]
fn transport_failures_clean_up_and_fail() {
    let (mut run, temp, _) = new_run();
    run.next(Event::Start);
    match run.next(Event::TransportFailed("session dropped".to_string())) {
        Action::Cleanup(c) => assert_eq!(c, remove_command(&temp)),
        other => panic!("{:?}", other),
    }
    match run.next(executed(0, "", "")) {
        Action::Done(Err(QueryError::Transport(m))) => assert_eq!(m, "session dropped"),
        other => panic!("{:?}", other),
    }
    let (mut run, temp, _) = new_run();
    run.next(Event::Start);
    run.next(executed(0, &temp, ""));
    run.next(executed(0, "1", ""));
    assert!(matches!(run.next(Event::TransportFailed("sftp".to_string())), Action::Cleanup(_)));
    assert!(matches!(run.next(executed(0, "", "")), Action::Done(Err(QueryError::Transport(_)))));
}

#[test]
fn unexpected_events_end_in_cleanup() {
    let (mut run, _, _) = new_run();
    assert!(matches!(run.next(Event::Downloaded), Action::Cleanup(_)));
    assert!(matches!(run.next(Event::Start), Action::Done(Err(QueryError::Transport(_)))));
    assert!(matches!(run.next(Event::Start), Action::Done(Err(QueryError::Transport(_)))));
}

#[test]
fn end_to_end_device_result() {
    let csv = b"id,device_sn,device_type,timestamp\n\
1,D1,pcs,1700000000\n\
2,D2,meter,1700001800\n\
3,D1,pcs,1700003600\n"
        .to_vec();
    let result = decode_csv(&csv).unwrap();
    assert_eq!(result.total_rows, 3);
    assert_eq!(result.columns, vec!["id", "device_sn", "device_type", "timestamp"]);
    let ts: Vec<i64> = result.rows.iter().map(|r| int_of(r.get(&"timestamp".to_string())).unwrap()).collect();
    assert_eq!(ts, vec![1700000000, 1700001800, 1700003600]);
    assert_eq!(text(result.rows[1].get(&"device_sn".to_string())), Some("D2".to_string()));
}

#[test]
fn zero_rows_are_not_an_error() {
    let result = decode_csv(&b"id,timestamp\n".to_vec()).unwrap();
    assert_eq!(result.total_rows, 0);
    assert_eq!(result.columns, vec!["id", "timestamp"]);
    let none = decode_csv(&Vec::new()).unwrap();
    assert_eq!(none.total_rows, 0);
}

#[test]
fn malformed_text_is_an_integrity_error() {
    assert!(matches!(decode_csv(&b"a,b\n1,2,3\n".to_vec()), Err(QueryError::Integrity(_))));
    assert!(matches!(decode_csv(&vec![b'a', b'\n', 0xff, 0xfe]), Err(QueryError::Integrity(_))));
}

#[test]
fn decoded_rows_keep_nulls_and_quotes() {
    let result = decode_csv(&b"a,b,c\n,\"x,y\",2.50\n".to_vec()).unwrap();
    let row = &result.rows[0];
    assert!(matches!(row.get(&"a".to_string()), Some(Cell::Null)));
    assert_eq!(text(row.get(&"b".to_string())), Some("x,y".to_string()));
    assert!(matches!(row.get(&"c".to_string()), Some(Cell::Float(s)) if s == "2.50"));
}

#[test]
fn row_set_replaces_values() {
    let mut row = Row::new();
    row.set("a".to_string(), Cell::Int(1));
    row.set("b".to_string(), Cell::Int(2));
    row.set("a".to_string(), Cell::Int(3));
    assert_eq!(row.keys(), vec!["a", "b"]);
    assert_eq!(int_of(row.get(&"a".to_string())), Some(3));
    assert!(row.get(&"c".to_string()).is_none());
}

#[test]
fn error_messages_name_their_kind() {
    assert_eq!(QueryError::NotConnected.message(), "not connected");
    assert_eq!(QueryError::Script("bad".to_string()).message(), "query failed: bad");
    assert_eq!(QueryError::Integrity("gone".to_string()).message(), "integrity error: gone");
    assert_eq!(QueryError::Transport("t".to_string()).message(), "transport error: t");
    assert_eq!(QueryError::UnsupportedKind("x".to_string()).message(), "unsupported query type: x");
}

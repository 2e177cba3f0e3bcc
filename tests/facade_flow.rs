use remote_query::cell::Cell;
use remote_query::decode::decode_csv;
use remote_query::error::QueryError;
use remote_query::facade::{QueryRun, QueryStep, Stage};
use remote_query::sql::QueryParams;
use remote_query::wide::{default_config, ExportConfig};

fn params(kind: &str, filter: Option<&str>) -> QueryParams {
    QueryParams {
        db_path: "/data/a.db".to_string(),
        start_time: 10,
        end_time: 20,
        query_type: kind.to_string(),
        device_filter: filter.map(|f| f.to_string()),
        include_extended: false,
    }
}

fn sql_of(step: &QueryStep) -> String {
    match step {
        QueryStep::RunSql(s) => s.clone(),
        other => panic!("{:?}", other),
    }
}

#[test]
fn unknown_kind_fails_before_remote_work() {
    match QueryRun::start(params("table", None)) {
        Err(QueryError::UnsupportedKind(t)) => assert_eq!(t, "table"),
        other => panic!("{:?}", other),
    }
}

#[test]
fn command_request_runs_one_statement() {
    let (mut run, step) = QueryRun::start(params("command", Some("X"))).unwrap();
    assert!(sql_of(&step).contains("FROM command_log WHERE timestamp >= 10 AND timestamp <= 20 AND device_sn = 'X'"));
    let rows = decode_csv(&b"id,timestamp\n1,15\n".to_vec()).unwrap();
    match run.next(Ok(rows), &default_config()) {
        QueryStep::Finished(Ok(r)) => assert_eq!(r.total_rows, 1),
        other => panic!("{:?}", other),
    }
    assert_eq!(run.stage, Stage::Finished);
}

#[test]
fn device_request_reads_schema_then_queries() {
    let (mut run, step) = QueryRun::start(params("device", Some("D1"))).unwrap();
    assert_eq!(sql_of(&step), "PRAGMA table_info(device_data)");
    let info = decode_csv(&b"cid,name\n0,id\n1,timestamp\n".to_vec()).unwrap();
    let step = run.next(Ok(info), &default_config());
    assert_eq!(
        sql_of(&step),
        "SELECT d.id, d.timestamp FROM device_data d WHERE d.timestamp >= 10 AND d.timestamp <= 20 \
         AND d.device_sn = 'D1' ORDER BY d.timestamp ASC"
    );
    let rows = decode_csv(&b"id,timestamp\n1,12\n2,18\n".to_vec()).unwrap();
    match run.next(Ok(rows), &default_config()) {
        QueryStep::Finished(Ok(r)) => {
            assert_eq!(r.total_rows, 2);
            assert_eq!(r.columns, vec!["id", "timestamp"]);
        }
        other => panic!("{:?}", other),
    }
}

#[test]
fn failed_schema_read_falls_back_to_default_columns() {
    let (mut run, _) = QueryRun::start(params("device", None)).unwrap();
    let step = run.next(Err(QueryError::Script("no such table".to_string())), &default_config());
    assert!(sql_of(&step).starts_with("SELECT d.id, d.device_sn, d.device_type, d.timestamp, d.local_timestamp, d.activePower, d.reactivePower FROM"));
}

#[test]
fn wide_request_merges_both_queries() {
    let mut p = params("wide_table", Some("ignored"));
    p.include_extended = false;
    let (mut run, _) = QueryRun::start(p).unwrap();
    let step = run.next(Err(QueryError::Script("x".to_string())), &default_config());
    let device_sql = sql_of(&step);
    assert!(!device_sql.contains("device_sn = "));
    let devices = decode_csv(&b"device_sn,timestamp,activePower\nD1,15,3\n".to_vec()).unwrap();
    let step = run.next(Ok(devices), &default_config());
    let command_sql = sql_of(&step);
    assert!(command_sql.contains("FROM command_log") && !command_sql.contains("device_sn = "));
    let commands = decode_csv(&b"id,device_sn,command_name,command_value,timestamp\n1,D1,setP,9,15\n".to_vec()).unwrap();
    let cfg = ExportConfig {
        main_table_fields: vec!["activePower".to_string()],
        extract_from_payload: Vec::new(),
        field_name_mapping: Vec::new(),
    };
    match run.next(Ok(commands), &cfg) {
        QueryStep::Finished(Ok(r)) => {
            assert_eq!(r.total_rows, 1);
            assert_eq!(r.columns, vec!["timestamp", "D1_activePower", "D1_setP"]);
            assert!(matches!(r.rows[0].get(&"D1_setP".to_string()), Some(Cell::Int(9))));
        }
        other => panic!("{:?}", other),
    }
}

#[test]
fn wide_request_fails_when_a_part_fails() {
    let (mut run, _) = QueryRun::start(params("wide_table", None)).unwrap();
    run.next(Err(QueryError::Script("x".to_string())), &default_config());
    let devices = decode_csv(&b"device_sn,timestamp\nD1,15\n".to_vec()).unwrap();
    run.next(Ok(devices), &default_config());
    match run.next(Err(QueryError::Integrity("lost".to_string())), &default_config()) {
        QueryStep::Finished(Err(QueryError::Integrity(m))) => assert_eq!(m, "lost"),
        other => panic!("{:?}", other),
    }
    let (mut run, _) = QueryRun::start(params("wide_table", None)).unwrap();
    run.next(Err(QueryError::Script("x".to_string())), &default_config());
    assert!(matches!(
        run.next(Err(QueryError::Transport("down".to_string())), &default_config()),
        QueryStep::Finished(Err(QueryError::Transport(_)))
    ));
}

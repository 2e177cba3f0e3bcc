use remote_query::cell::Cell;
use remote_query::deploy::{
    filter_benign_warnings, format_file_size, parse_marker, plan_deploy, service_unit,
    status_from_outputs, DeployConfig, DeployStatus, SshConfig, SshConfigDto,
};
use remote_query::table::{QueryResult, Row};
use remote_query::wide::{default_config, format_value, merge_wide, wide_columns, ExportConfig};

fn row(entries: Vec<(&str, Cell)>) -> Row {
    let mut r = Row::new();
    for (k, v) in entries {
        r.set(k.to_string(), v);
    }
    r
}

fn result(rows: Vec<Row>) -> QueryResult {
    let n = rows.len();
    QueryResult { columns: Vec::new(), rows, total_rows: n }
}

fn txt(s: &str) -> Cell {
    Cell::Text(s.to_string())
}

fn config(main: &[&str], extract: Vec<(&str, Vec<&str>)>, mapping: Vec<(&str, &str)>) -> ExportConfig {
    ExportConfig {
        main_table_fields: main.iter().map(|s| s.to_string()).collect(),
        extract_from_payload: extract
            .into_iter()
            .map(|(k, v)| (k.to_string(), v.into_iter().map(|s| s.to_string()).collect()))
            .collect(),
        field_name_mapping: mapping.into_iter().map(|(a, b)| (a.to_string(), b.to_string())).collect(),
    }
}

fn get_int(r: &Row, k: &str) -> Option<i64> {
    match r.get(&k.to_string()) {
        Some(Cell::Int(v)) => Some(*v),
        _ => None,
    }
}

#[test]
fn same_timestamp_rows_merge_into_one() {
    let devices = result(vec![row(vec![
        ("device_sn", txt("D1")),
        ("timestamp", Cell::Int(100)),
        ("activePower", Cell::Int(5)),
    ])]);
    let commands = result(vec![row(vec![
        ("device_sn", txt("D1")),
        ("command_name", txt("setP")),
        ("command_value", Cell::Int(10)),
        ("timestamp", Cell::Int(100)),
    ])]);
    let merged = merge_wide(&devices, &commands, &config(&["activePower"], vec![], vec![]), false);
    assert_eq!(merged.total_rows, 1);
    let r = &merged.rows[0];
    assert_eq!(get_int(r, "timestamp"), Some(100));
    assert_eq!(get_int(r, "D1_activePower"), Some(5));
    assert_eq!(get_int(r, "D1_setP"), Some(10));
    assert_eq!(merged.columns, vec!["timestamp", "D1_activePower", "D1_setP"]);
}

#[test]
fn null_payload_fields_are_skipped() {
    let devices = result(vec![row(vec![
        ("device_sn", txt("D1")),
        ("timestamp", Cell::Int(7)),
        ("payload_json", txt("{\"x\": 1, \"y\": null}")),
    ])]);
    let cfg = config(&[], vec![("default", vec!["x", "y"])], vec![]);
    let merged = merge_wide(&devices, &result(vec![]), &cfg, true);
    let r = &merged.rows[0];
    assert_eq!(get_int(r, "D1_x"), Some(1));
    assert!(r.get(&"D1_y".to_string()).is_none());
    assert_eq!(merged.columns, vec!["timestamp", "D1_x"]);
}

#[test]
fn payload_ignored_without_extended_fields() {
    let devices = result(vec![row(vec![
        ("device_sn", txt("D1")),
        ("timestamp", Cell::Int(7)),
        ("payload_json", txt("{\"x\": 1}")),
    ])]);
    let cfg = config(&[], vec![("default", vec!["x"])], vec![]);
    let merged = merge_wide(&devices, &result(vec![]), &cfg, false);
    assert_eq!(merged.columns, vec!["timestamp"]);
}

#[test]
fn device_type_picks_list_and_mapping_renames() {
    let devices = result(vec![row(vec![
        ("device_sn", Cell::Int(42)),
        ("device_type", txt("pcs")),
        ("timestamp", Cell::Int(1)),
        ("payload_json", txt("{\"soc\": 55.5, \"mode\": \"auto\", \"v\": 3}")),
    ])]);
    let cfg = config(
        &[],
        vec![("PCS", vec!["soc", "mode"]), ("default", vec!["v"])],
        vec![("soc", "stateOfCharge")],
    );
    let merged = merge_wide(&devices, &result(vec![]), &cfg, true);
    let r = &merged.rows[0];
    assert!(matches!(r.get(&"42_stateOfCharge".to_string()), Some(Cell::Float(s)) if s == "55.5"));
    assert!(matches!(r.get(&"42_mode".to_string()), Some(Cell::Text(s)) if s == "auto"));
    assert!(r.get(&"42_v".to_string()).is_none());
}

#[test]
fn rows_come_out_in_timestamp_order() {
    let devices = result(vec![
        row(vec![("device_sn", txt("A")), ("timestamp", Cell::Int(300)), ("p", Cell::Int(3))]),
        row(vec![("device_sn", txt("A")), ("timestamp", Cell::Int(100)), ("p", Cell::Int(1))]),
        row(vec![("device_sn", txt("B")), ("timestamp", Cell::Int(200)), ("p", Cell::Int(2))]),
        row(vec![("device_sn", txt("B")), ("p", Cell::Int(9))]),
    ]);
    let merged = merge_wide(&devices, &result(vec![]), &config(&["p"], vec![], vec![]), false);
    let ts: Vec<i64> = merged.rows.iter().map(|r| get_int(r, "timestamp").unwrap()).collect();
    assert_eq!(ts, vec![100, 200, 300]);
    assert_eq!(merged.columns, vec!["timestamp", "A_p", "B_p"]);
}

#[test]
fn later_writes_overwrite_earlier_ones() {
    let commands = result(vec![
        row(vec![("command_name", txt("mode")), ("command_value", Cell::Int(1)), ("timestamp", Cell::Int(5))]),
        row(vec![("command_name", txt("mode")), ("command_value", Cell::Int(2)), ("timestamp", Cell::Int(5))]),
    ]);
    let merged = merge_wide(&result(vec![]), &commands, &config(&[], vec![], vec![]), false);
    assert_eq!(merged.total_rows, 1);
    assert_eq!(get_int(&merged.rows[0], "mode"), Some(2));
}

#[test]
fn empty_inputs_give_an_empty_table() {
    let merged = merge_wide(&result(vec![]), &result(vec![]), &default_config(), true);
    assert_eq!(merged.total_rows, 0);
    assert!(merged.columns.is_empty());
}

#[test]
fn columns_sort_after_the_timestamp() {
    let rows = vec![
        row(vec![("timestamp", Cell::Int(1)), ("b", Cell::Null), ("a", Cell::Null)]),
        row(vec![("timestamp", Cell::Int(2)), ("B", Cell::Null), ("ab", Cell::Null), ("a", Cell::Null)]),
    ];
    assert_eq!(wide_columns(&rows), vec!["timestamp", "B", "a", "ab", "b"]);
}

#[test]
fn default_config_lists_main_fields() {
    let cfg = default_config();
    assert_eq!(
        cfg.main_table_fields,
        vec!["id", "device_sn", "device_type", "timestamp", "local_timestamp", "activePower", "reactivePower"]
    );
    assert!(cfg.extract_from_payload.is_empty());
    assert!(cfg.field_name_mapping.is_empty());
}

#[test]
fn values_are_written_as_text() {
    assert_eq!(format_value(&Cell::Null), "");
    assert_eq!(format_value(&Cell::Int(-12)), "-12");
    assert_eq!(format_value(&Cell::Float("1.50".to_string())), "1.50");
    assert_eq!(format_value(&txt("x")), "x");
}

#[test]
fn benign_warnings_are_dropped() {
    assert_eq!(filter_benign_warnings("  done \n"), Some("done".to_string()));
    assert_eq!(filter_benign_warnings("sudo: unable to resolve host box: Name or service not known"), None);
    assert_eq!(filter_benign_warnings("SUDO: Unable To Resolve Hostname x"), None);
    assert_eq!(filter_benign_warnings(" \n\t"), None);
}

#[test]
fn file_sizes_are_formatted() {
    assert_eq!(format_file_size(0), "0 B");
    assert_eq!(format_file_size(1023), "1023 B");
    assert_eq!(format_file_size(1024), "1.00 KB");
    assert_eq!(format_file_size(1536), "1.50 KB");
    assert_eq!(format_file_size(1152), "1.12 KB");
    assert_eq!(format_file_size(1048575), "1024.00 KB");
    assert_eq!(format_file_size(1048576), "1.00 MB");
    assert_eq!(format_file_size(5 * 1048576 + 524288), "5.50 MB");
}

#[test]
fn markers_are_read_from_lines_then_text() {
    let e = "exists".to_string();
    let n = "not_exists".to_string();
    assert_eq!(parse_marker("exists\n", &e, &n), Some(true));
    assert_eq!(parse_marker("sudo: warning\n  not_exists  \n", &e, &n), Some(false));
    assert_eq!(parse_marker("", &e, &n), None);
    assert_eq!(parse_marker("it EXISTS here", &e, &n), Some(true));
    assert_eq!(parse_marker("maybe not_exists here", &e, &n), Some(false));
}

#[test]
fn status_comes_from_check_outputs() {
    let some = |s: &str| Some(s.to_string());
    let st = status_from_outputs(&some("exists\n"), &some("exists"), &some("active\nactive"), &some("disabled\n"));
    assert_eq!(st, DeployStatus { installed: true, service_exists: true, service_running: true, service_enabled: false });
    let st = status_from_outputs(&None, &some("not_exists"), &some("active"), &some("enabled"));
    assert_eq!(st, DeployStatus { installed: false, service_exists: false, service_running: false, service_enabled: false });
}

#[test]
fn deploy_plan_follows_status() {
    let cfg = DeployConfig {
        binary_path: None,
        config_path: Some("c.toml".to_string()),
        topo_path: None,
        upload_binary: None,
        upload_config: true,
        upload_topo: false,
        use_root: false,
        start_service: false,
    };
    let running = DeployStatus { installed: true, service_exists: true, service_running: true, service_enabled: true };
    let plan = plan_deploy(&cfg, &running);
    assert!(plan.restart && plan.stop_first && plan.activate && plan.create_user);
    let stopped = DeployStatus { installed: true, service_exists: true, service_running: false, service_enabled: true };
    let plan = plan_deploy(&cfg, &stopped);
    assert!(!plan.restart && !plan.stop_first && !plan.activate);
}

#[test]
fn service_unit_names_user_only_when_not_root() {
    assert!(!service_unit(true).contains("User="));
    assert!(service_unit(false).contains("User=analysis\n"));
    assert!(service_unit(true).contains("ExecStart=/opt/analysis/bin/analysis-collector --config /opt/analysis/config.toml"));
}

#[test]
fn connection_settings_carry_over() {
    let dto = SshConfigDto {
        host: "h".to_string(),
        port: 22,
        username: "u".to_string(),
        password: Some("SECRET-REDACTED".to_string()),
        key_file: None,
    };
    let c = SshConfig::from_dto(dto);
    assert_eq!(c.host, "h");
    assert_eq!(c.port, 22);
    assert_eq!(c.password.as_deref(), Some("SECRET-REDACTED"));
}

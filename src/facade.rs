//! The decisions of one request, from its kind to its result.
//!
//! A request of an unknown kind fails before any remote work. A device query
//! first reads the device table's column order, falling back to the default
//! order when that fails. A wide-table request runs a device query and a command
//! query for all devices and merges them; when either fails the request fails,
//! with no partial table.
use vstd::prelude::*;
use crate::error::QueryError;
use crate::sql::{
    QueryKind,
    QueryParams,
    build_command_sql,
    build_device_sql,
    columns_from_table_info,
    command_sql,
    default_columns,
    default_device_columns,
    device_sql,
    kind_of,
    opt_view,
    parse_kind,
    rows_view,
    table_info_columns,
    table_info_sql,
};
use crate::table::{QueryResult, strings_view};
use crate::wide::{ExportConfig, merge_wide, merged, wide_columns_of};

verus! {

/// Where a request stands.
#[derive(Clone, Copy, Debug, PartialEq, Eq, Structural)]
pub enum Stage {
    /// Waiting for the device table's column list.
    Schema,
    /// Waiting for the device rows.
    Devices,
    /// Waiting for the command rows.
    Commands,
    /// Over.
    Finished,
}

/// What the caller is to do next.
#[derive(Debug)]
pub enum QueryStep {
    /// Run this SQL on the request's database and report its outcome.
    RunSql(String),
    /// The request is answered.
    Finished(Result<QueryResult, QueryError>),
}

/// One request in progress.
#[derive(Debug)]
pub struct QueryRun {
    pub params: QueryParams,
    pub kind: QueryKind,
    pub stage: Stage,
    pub devices: QueryResult,
}

/// The device filter that the device query of a request uses: none for a wide
/// table, which covers all devices.
pub open spec fn device_filter_of(kind: QueryKind, params: QueryParams) -> Option<Seq<char>> {
    if kind == QueryKind::WideTable {
        None
    } else {
        opt_view(params.device_filter)
    }
}

/// The device table's columns that an outcome of the column query gives.
pub open spec fn columns_from(outcome: Result<QueryResult, QueryError>) -> Seq<Seq<char>> {
    match outcome {
        Ok(info) => match table_info_columns(rows_view(info.rows@)) {
            Some(c) => c,
            None => default_columns(),
        },
        Err(_) => default_columns(),
    }
}

impl QueryRun {
    /// Starts a request: an error for an unknown kind; else the first SQL to run,
    /// the column query for device and wide-table requests and the command query
    /// for command requests.
    pub fn start(params: QueryParams) -> (r: Result<(QueryRun, QueryStep), QueryError>)
        ensures
            match kind_of(params.query_type@) {
                None => r matches Err(QueryError::UnsupportedKind(t)) && t@ == params.query_type@,
                Some(k) => r matches Ok((run, step)) && run.params == params && run.kind == k
                    && run.devices.wf() && if k == QueryKind::Command {
                    run.stage == Stage::Commands && (step matches QueryStep::RunSql(s) && s@
                        == command_sql(
                        params.start_time as int,
                        params.end_time as int,
                        opt_view(params.device_filter),
                    ))
                } else {
                    run.stage == Stage::Schema && (step matches QueryStep::RunSql(s) && s@
                        == "PRAGMA table_info(device_data)"@)
                },
            },
    {
        let kind = match parse_kind(params.query_type.as_str()) {
            Ok(k) => k,
            Err(e) => return Err(e),
        };
        match kind {
            QueryKind::Command => {
                let sql = build_command_sql(&params);
                Ok((QueryRun { params, kind, stage: Stage::Commands, devices: QueryResult::empty() }, QueryStep::RunSql(sql)))
            },
            _ => Ok((
                QueryRun { params, kind, stage: Stage::Schema, devices: QueryResult::empty() },
                QueryStep::RunSql(table_info_sql()),
            )),
        }
    }

    /// The step after the SQL last asked for ended in `outcome`.
    pub fn next(&mut self, outcome: Result<QueryResult, QueryError>, config: &ExportConfig) -> (step: QueryStep)
        requires
            old(self).stage != Stage::Finished,
            old(self).devices.wf(),
            outcome matches Ok(t) ==> t.wf(),
            old(self).kind == QueryKind::Command ==> old(self).stage == Stage::Commands,
        ensures
            final(self).params == old(self).params,
            final(self).kind == old(self).kind,
            final(self).devices.wf(),
            old(self).kind == QueryKind::Command ==> final(self).stage == Stage::Commands || final(self).stage == Stage::Finished,
            match old(self).stage {
                Stage::Schema => final(self).stage == Stage::Devices && (step matches QueryStep::RunSql(s)
                    && s@ == device_sql(
                    columns_from(outcome),
                    old(self).params.start_time as int,
                    old(self).params.end_time as int,
                    device_filter_of(old(self).kind, old(self).params),
                    old(self).params.include_extended,
                )),
                Stage::Devices => match outcome {
                    Err(e) => final(self).stage == Stage::Finished && step == QueryStep::Finished(Err(e)),
                    Ok(rows) => if old(self).kind == QueryKind::WideTable {
                        final(self).stage == Stage::Commands && final(self).devices == rows
                            && (step matches QueryStep::RunSql(s) && s@ == command_sql(
                            old(self).params.start_time as int,
                            old(self).params.end_time as int,
                            None,
                        ))
                    } else {
                        final(self).stage == Stage::Finished && step == QueryStep::Finished(Ok(rows))
                    },
                },
                _ => match outcome {
                    Err(e) => final(self).stage == Stage::Finished && step == QueryStep::Finished(Err(e)),
                    Ok(rows) => final(self).stage == Stage::Finished && if old(self).kind
                        == QueryKind::WideTable {
                        step matches QueryStep::Finished(Ok(t)) && t.wf() && rows_view(t.rows@)
                            == merged(
                            rows_view(old(self).devices.rows@),
                            rows_view(rows.rows@),
                            config@,
                            old(self).params.include_extended,
                        ).map_values(|e: (int, Map<Seq<char>, crate::cell::CellV>)| e.1)
                            && wide_columns_of(strings_view(t.columns@), rows_view(t.rows@))
                    } else {
                        step == QueryStep::Finished(Ok(rows))
                    },
                },
            },
    {
        match self.stage {
            Stage::Schema => {
                let columns = match &outcome {
                    Ok(info) => columns_from_table_info(info),
                    Err(_) => default_device_columns(),
                };
                let sql = if self.kind == QueryKind::WideTable {
                    let all = QueryParams {
                        db_path: self.params.db_path.clone(),
                        start_time: self.params.start_time,
                        end_time: self.params.end_time,
                        query_type: self.params.query_type.clone(),
                        device_filter: None,
                        include_extended: self.params.include_extended,
                    };
                    build_device_sql(&all, &columns)
                } else {
                    build_device_sql(&self.params, &columns)
                };
                self.stage = Stage::Devices;
                QueryStep::RunSql(sql)
            },
            Stage::Devices => match outcome {
                Err(e) => {
                    self.stage = Stage::Finished;
                    QueryStep::Finished(Err(e))
                },
                Ok(rows) => {
                    if self.kind == QueryKind::WideTable {
                        let all = QueryParams {
                            db_path: self.params.db_path.clone(),
                            start_time: self.params.start_time,
                            end_time: self.params.end_time,
                            query_type: self.params.query_type.clone(),
                            device_filter: None,
                            include_extended: false,
                        };
                        self.devices = rows;
                        self.stage = Stage::Commands;
                        QueryStep::RunSql(build_command_sql(&all))
                    } else {
                        self.stage = Stage::Finished;
                        QueryStep::Finished(Ok(rows))
                    }
                },
            },
            _ => match outcome {
                Err(e) => {
                    self.stage = Stage::Finished;
                    QueryStep::Finished(Err(e))
                },
                Ok(rows) => {
                    self.stage = Stage::Finished;
                    if self.kind == QueryKind::WideTable {
                        QueryStep::Finished(Ok(merge_wide(&self.devices, &rows, config, self.params.include_extended)))
                    } else {
                        QueryStep::Finished(Ok(rows))
                    }
                },
            },
        }
    }
}

} // verus!

//! Turning a query request into SQL text.
//!
//! Both statements filter the time column inclusively at both ends and order by
//! it ascending; a device filter is compared for equality after every single
//! quote in it is doubled.
use vstd::prelude::*;
use crate::cell::{Cell, CellV};
use crate::error::QueryError;
use crate::table::QueryResult;

verus! {

/// The kinds of query a request may name.
#[derive(Clone, Copy, Debug, PartialEq, Eq, Structural)]
pub enum QueryKind {
    Device,
    Command,
    WideTable,
}

/// A query request.
#[derive(Debug)]
pub struct QueryParams {
    pub db_path: String,
    pub start_time: i64,
    pub end_time: i64,
    pub query_type: String,
    pub device_filter: Option<String>,
    pub include_extended: bool,
}

pub open spec fn device_word() -> Seq<char> {
    seq!['d', 'e', 'v', 'i', 'c', 'e']
}

pub open spec fn command_word() -> Seq<char> {
    seq!['c', 'o', 'm', 'm', 'a', 'n', 'd']
}

pub open spec fn wide_table_word() -> Seq<char> {
    seq!['w', 'i', 'd', 'e', '_', 't', 'a', 'b', 'l', 'e']
}

/// The kind that a request's `query_type` names.
pub open spec fn kind_of(s: Seq<char>) -> Option<QueryKind> {
    if s == device_word() {
        Some(QueryKind::Device)
    } else if s == command_word() {
        Some(QueryKind::Command)
    } else if s == wide_table_word() {
        Some(QueryKind::WideTable)
    } else {
        None
    }
}

fn chars_equal(a: &Vec<char>, b: &Vec<char>) -> (r: bool)
    ensures
        r == (a@ == b@),
{
    if a.len() != b.len() {
        return false;
    }
    let mut i: usize = 0;
    while i < a.len()
        invariant
            a@.len() == b@.len(),
            i <= a@.len(),
            forall|j: int| 0 <= j < i ==> a@[j] == b@[j],
        decreases a@.len() - i,
    {
        if a[i] != b[i] {
            return false;
        }
        i = i + 1;
    }
    assert(a@ =~= b@);
    true
}

/// The kind named by `query_type`: `device`, `command` or `wide_table`, and an
/// error naming any other text.
pub fn parse_kind(query_type: &str) -> (r: Result<QueryKind, QueryError>)
    ensures
        match kind_of(query_type@) {
            Some(k) => r == Ok::<QueryKind, QueryError>(k),
            None => r matches Err(QueryError::UnsupportedKind(t)) && t@ == query_type@,
        },
{
    let cs = crate::text::chars_of(query_type);
    let device = vec!['d', 'e', 'v', 'i', 'c', 'e'];
    let command = vec!['c', 'o', 'm', 'm', 'a', 'n', 'd'];
    let wide = vec!['w', 'i', 'd', 'e', '_', 't', 'a', 'b', 'l', 'e'];
    assert(device@ =~= device_word());
    assert(command@ =~= command_word());
    assert(wide@ =~= wide_table_word());
    if chars_equal(&cs, &device) {
        Ok(QueryKind::Device)
    } else if chars_equal(&cs, &command) {
        Ok(QueryKind::Command)
    } else if chars_equal(&cs, &wide) {
        Ok(QueryKind::WideTable)
    } else {
        Err(QueryError::UnsupportedKind(query_type.to_owned()))
    }
}

/// `s` with every single quote doubled.
pub open spec fn escape_quotes(s: Seq<char>) -> Seq<char>
    decreases s.len(),
{
    if s.len() == 0 {
        Seq::empty()
    } else if s.last() == '\'' {
        escape_quotes(s.drop_last()) + seq!['\'', '\'']
    } else {
        escape_quotes(s.drop_last()).push(s.last())
    }
}

/// `s` with every single quote doubled, so that it can stand between quotes in SQL.
pub fn escape_sql_quotes(s: &str) -> (r: String)
    ensures
        r@ == escape_quotes(s@),
{
    let cs = crate::text::chars_of(s);
    let mut r = String::new();
    let mut i: usize = 0;
    while i < cs.len()
        invariant
            cs@ == s@,
            i <= cs@.len(),
            r@ == escape_quotes(s@.subrange(0, i as int)),
        decreases cs@.len() - i,
    {
        assert(s@.subrange(0, i + 1).drop_last() =~= s@.subrange(0, i as int));
        r.push(cs[i]);
        if cs[i] == '\'' {
            r.push('\'');
        }
        assert(r@ =~= escape_quotes(s@.subrange(0, i + 1)));
        i = i + 1;
    }
    assert(s@.subrange(0, cs@.len() as int) =~= s@);
    r
}

/// The digits of `n` in base ten, without leading zeros.
pub open spec fn digits_text(n: nat) -> Seq<char>
    decreases n,
{
    if n < 10 {
        seq![(n + '0' as int) as char]
    } else {
        digits_text(n / 10).push(((n % 10) + '0' as int) as char)
    }
}

/// The decimal text of `v`: a minus sign when negative, then its digits.
pub open spec fn decimal_text(v: int) -> Seq<char> {
    if v < 0 {
        seq!['-'] + digits_text((-v) as nat)
    } else {
        digits_text(v as nat)
    }
}

/// Relies on `i64::to_string`: the decimal text of the number.
#[verifier::external_body]
pub(crate) fn int_to_text(v: i64) -> (r: String)
    ensures
        r@ == decimal_text(v as int),
{
    v.to_string()
}

/// Columns of the device table in declared order, as the schema defines them.
pub open spec fn default_columns() -> Seq<Seq<char>> {
    seq![
        "id"@,
        "device_sn"@,
        "device_type"@,
        "timestamp"@,
        "local_timestamp"@,
        "activePower"@,
        "reactivePower"@,
    ]
}

/// Columns of the device table, in declared order, used when its schema cannot
/// be read.
pub fn default_device_columns() -> (r: Vec<String>)
    ensures
        crate::table::strings_view(r@) == default_columns(),
{
    let r = vec![
        "id".to_string(),
        "device_sn".to_string(),
        "device_type".to_string(),
        "timestamp".to_string(),
        "local_timestamp".to_string(),
        "activePower".to_string(),
        "reactivePower".to_string(),
    ];
    assert(crate::table::strings_view(r@) =~= default_columns());
    r
}

/// The statement that lists the device table's columns in declared order.
pub fn table_info_sql() -> (r: String)
    ensures
        r@ == "PRAGMA table_info(device_data)"@,
{
    "PRAGMA table_info(device_data)".to_string()
}

/// The columns named by the rows of a `PRAGMA table_info` result, in row order,
/// or `None` when there are none or a row has no textual `name`.
pub open spec fn table_info_columns(rows: Seq<Map<Seq<char>, CellV>>) -> Option<Seq<Seq<char>>>
    decreases rows.len(),
{
    if rows.len() == 0 {
        None
    } else {
        let last = rows.last();
        let name = if last.contains_key("name"@) {
            last["name"@]
        } else {
            CellV::Null
        };
        match name {
            CellV::Text(n) => if rows.len() == 1 {
                Some(seq![n])
            } else {
                match table_info_columns(rows.drop_last()) {
                    Some(cols) => Some(cols.push(n)),
                    None => None,
                }
            },
            _ => None,
        }
    }
}

pub open spec fn rows_view(rows: Seq<crate::table::Row>) -> Seq<Map<Seq<char>, CellV>> {
    rows.map_values(|r: crate::table::Row| r@)
}

/// The device table's columns as a `PRAGMA table_info` result lists them, or the
/// default columns when that result lists none or is malformed.
pub fn columns_from_table_info(info: &QueryResult) -> (r: Vec<String>)
    requires
        info.wf(),
    ensures
        match table_info_columns(rows_view(info.rows@)) {
            Some(cols) => crate::table::strings_view(r@) == cols,
            None => crate::table::strings_view(r@) == default_columns(),
        },
{
    let key = "name".to_string();
    let mut cols: Vec<String> = Vec::new();
    let mut i: usize = 0;
    while i < info.rows.len()
        invariant
            info.wf(),
            key@ == "name"@,
            i <= info.rows@.len(),
            cols@.len() == i,
            i > 0 ==> table_info_columns(rows_view(info.rows@.subrange(0, i as int)))
                == Some(crate::table::strings_view(cols@)),
        decreases info.rows@.len() - i,
    {
        let ghost pre = rows_view(info.rows@.subrange(0, i + 1));
        assert(pre.drop_last() =~= rows_view(info.rows@.subrange(0, i as int)));
        assert(pre.last() == info.rows@[i as int]@);
        assert(info.rows@[i as int].wf());
        match info.rows[i].get(&key) {
            Some(Cell::Text(n)) => {
                cols.push(n.clone());
                assert(crate::table::strings_view(cols@) =~= crate::table::strings_view(
                    cols@.drop_last(),
                ).push(n@));
                if i == 0 {
                    assert(crate::table::strings_view(cols@) =~= seq![n@]);
                }
            },
            _ => {
                proof {
                    lemma_table_info_none_from(info.rows@, i as int);
                }
                return default_device_columns();
            },
        }
        i = i + 1;
    }
    if i == 0 {
        assert(rows_view(info.rows@).len() == 0);
        return default_device_columns();
    }
    assert(info.rows@.subrange(0, i as int) =~= info.rows@);
    cols
}

/// Once a prefix has no column list, no longer prefix has one.
proof fn lemma_table_info_none_from(rows: Seq<crate::table::Row>, i: int)
    requires
        0 <= i < rows.len(),
        table_info_columns(rows_view(rows.subrange(0, i + 1))) is None,
    ensures
        table_info_columns(rows_view(rows)) is None,
    decreases rows.len() - i,
{
    if i + 1 < rows.len() {
        let pre = rows_view(rows.subrange(0, i + 2));
        assert(pre.drop_last() =~= rows_view(rows.subrange(0, i + 1)));
        lemma_table_info_none_from(rows, i + 1);
    } else {
        assert(rows.subrange(0, i + 1) =~= rows);
    }
}

/// `, d.c` for each column `c` of `cols[..n]`, the first without the comma.
pub open spec fn select_list(cols: Seq<Seq<char>>, n: int) -> Seq<char>
    decreases n,
{
    if n <= 0 {
        Seq::empty()
    } else if n == 1 {
        "d."@ + cols[0]
    } else {
        select_list(cols, n - 1) + ", d."@ + cols[n - 1]
    }
}

/// The condition on the device serial, `prefix` naming its table, or nothing.
pub open spec fn filter_clause(prefix: Seq<char>, filter: Option<Seq<char>>) -> Seq<char> {
    match filter {
        None => Seq::empty(),
        Some(v) => " AND "@ + prefix + "device_sn = '"@ + escape_quotes(v) + "'"@,
    }
}

pub open spec fn opt_view(o: Option<String>) -> Option<Seq<char>> {
    match o {
        Some(s) => Some(s@),
        None => None,
    }
}

/// The statement of a device query: the given columns of the device table and,
/// with extended fields, the payload joined from the payload table.
pub open spec fn device_sql(
    cols: Seq<Seq<char>>,
    start: int,
    end: int,
    filter: Option<Seq<char>>,
    extended: bool,
) -> Seq<char> {
    "SELECT "@ + select_list(cols, cols.len() as int) + (if extended {
        ", e.payload_json"@
    } else {
        Seq::empty()
    }) + " FROM device_data d"@ + (if extended {
        " LEFT JOIN device_payload e ON e.data_id = d.id"@
    } else {
        Seq::empty()
    }) + " WHERE d.timestamp >= "@ + decimal_text(start) + " AND d.timestamp <= "@
        + decimal_text(end) + filter_clause("d."@, filter) + " ORDER BY d.timestamp ASC"@
}

/// The statement of a command query: a fixed list of columns of the command table.
pub open spec fn command_sql(start: int, end: int, filter: Option<Seq<char>>) -> Seq<char> {
    "SELECT id, device_sn, command_name, command_value, timestamp FROM command_log WHERE timestamp >= "@
        + decimal_text(start) + " AND timestamp <= "@ + decimal_text(end) + filter_clause(
        Seq::empty(),
        filter,
    ) + " ORDER BY timestamp ASC"@
}

fn push_filter(out: &mut String, prefix: &str, filter: &Option<String>)
    ensures
        final(out)@ == old(out)@ + filter_clause(prefix@, opt_view(*filter)),
{
    match filter {
        None => {
            assert(old(out)@ + Seq::<char>::empty() =~= old(out)@);
        },
        Some(v) => {
            let ghost before = out@;
            out.append(" AND ");
            out.append(prefix);
            out.append("device_sn = '");
            let esc = escape_sql_quotes(v.as_str());
            out.append(esc.as_str());
            out.append("'");
            assert(out@ =~= before + filter_clause(prefix@, opt_view(*filter)));
        },
    }
}

/// The SQL of a device query over `columns`.
pub fn build_device_sql(params: &QueryParams, columns: &Vec<String>) -> (r: String)
    ensures
        r@ == device_sql(
            crate::table::strings_view(columns@),
            params.start_time as int,
            params.end_time as int,
            opt_view(params.device_filter),
            params.include_extended,
        ),
{
    let ghost cv = crate::table::strings_view(columns@);
    let mut out = String::new();
    out.append("SELECT ");
    let ghost head = out@;
    let mut i: usize = 0;
    while i < columns.len()
        invariant
            cv == crate::table::strings_view(columns@),
            i <= columns@.len(),
            out@ == head + select_list(cv, i as int),
        decreases columns@.len() - i,
    {
        if i > 0 {
            out.append(", d.");
        } else {
            out.append("d.");
        }
        out.append(columns[i].as_str());
        assert(cv[i as int] == columns@[i as int]@);
        assert(out@ =~= head + select_list(cv, i + 1));
        i = i + 1;
    }
    let ghost listed = out@;
    if params.include_extended {
        out.append(", e.payload_json");
    } else {
        assert(listed + Seq::<char>::empty() =~= listed);
    }
    let ghost with_payload = out@;
    out.append(" FROM device_data d");
    let ghost from = out@;
    if params.include_extended {
        out.append(" LEFT JOIN device_payload e ON e.data_id = d.id");
    } else {
        assert(from + Seq::<char>::empty() =~= from);
    }
    out.append(" WHERE d.timestamp >= ");
    let start = int_to_text(params.start_time);
    out.append(start.as_str());
    out.append(" AND d.timestamp <= ");
    let end = int_to_text(params.end_time);
    out.append(end.as_str());
    push_filter(&mut out, "d.", &params.device_filter);
    out.append(" ORDER BY d.timestamp ASC");
    assert(out@ =~= device_sql(
        cv,
        params.start_time as int,
        params.end_time as int,
        opt_view(params.device_filter),
        params.include_extended,
    ));
    out
}

/// The SQL of a command query.
pub fn build_command_sql(params: &QueryParams) -> (r: String)
    ensures
        r@ == command_sql(
            params.start_time as int,
            params.end_time as int,
            opt_view(params.device_filter),
        ),
{
    let mut out = String::new();
    out.append(
        "SELECT id, device_sn, command_name, command_value, timestamp FROM command_log WHERE timestamp >= ",
    );
    let start = int_to_text(params.start_time);
    out.append(start.as_str());
    out.append(" AND timestamp <= ");
    let end = int_to_text(params.end_time);
    out.append(end.as_str());
    push_filter(&mut out, "", &params.device_filter);
    out.append(" ORDER BY timestamp ASC");
    proof {
        reveal_strlit("");
    }
    assert(""@ =~= Seq::<char>::empty());
    assert(out@ =~= command_sql(
        params.start_time as int,
        params.end_time as int,
        opt_view(params.device_filter),
    ));
    out
}

/// Each statement keeps the rows whose time lies between the bounds, both
/// included, and asks for them in ascending order of time: it ends with that
/// condition, the device filter if any, and the ascending order.
pub proof fn lemma_statements_filter_and_order(
    cols: Seq<Seq<char>>,
    start: int,
    end: int,
    filter: Option<Seq<char>>,
    extended: bool,
)
    ensures
        exists|head: Seq<char>|
            device_sql(cols, start, end, filter, extended) == head + " WHERE d.timestamp >= "@
                + decimal_text(start) + " AND d.timestamp <= "@ + decimal_text(end) + filter_clause(
                "d."@,
                filter,
            ) + " ORDER BY d.timestamp ASC"@,
        exists|head: Seq<char>|
            command_sql(start, end, filter) == head + " WHERE timestamp >= "@ + decimal_text(start)
                + " AND timestamp <= "@ + decimal_text(end) + filter_clause(Seq::empty(), filter)
                + " ORDER BY timestamp ASC"@,
{
    let dh = "SELECT "@ + select_list(cols, cols.len() as int) + (if extended {
        ", e.payload_json"@
    } else {
        Seq::empty()
    }) + " FROM device_data d"@ + (if extended {
        " LEFT JOIN device_payload e ON e.data_id = d.id"@
    } else {
        Seq::empty()
    });
    assert(device_sql(cols, start, end, filter, extended) =~= dh + " WHERE d.timestamp >= "@
        + decimal_text(start) + " AND d.timestamp <= "@ + decimal_text(end) + filter_clause(
        "d."@,
        filter,
    ) + " ORDER BY d.timestamp ASC"@);
    let ch = "SELECT id, device_sn, command_name, command_value, timestamp FROM command_log"@;
    reveal_strlit(
        "SELECT id, device_sn, command_name, command_value, timestamp FROM command_log WHERE timestamp >= ",
    );
    reveal_strlit("SELECT id, device_sn, command_name, command_value, timestamp FROM command_log");
    reveal_strlit(" WHERE timestamp >= ");
    assert("SELECT id, device_sn, command_name, command_value, timestamp FROM command_log WHERE timestamp >= "@
        =~= ch + " WHERE timestamp >= "@);
    assert(command_sql(start, end, filter) =~= ch + " WHERE timestamp >= "@ + decimal_text(start)
        + " AND timestamp <= "@ + decimal_text(end) + filter_clause(Seq::empty(), filter)
        + " ORDER BY timestamp ASC"@);
}

/// The SQL of a request whose kind produces one: device or command. A wide-table
/// request is answered by one query of each, and any other kind is an error.
pub fn build_sql(params: &QueryParams, columns: &Vec<String>) -> (r: Result<String, QueryError>)
    ensures
        match kind_of(params.query_type@) {
            Some(QueryKind::Device) => r matches Ok(s) && s@ == device_sql(
                crate::table::strings_view(columns@),
                params.start_time as int,
                params.end_time as int,
                opt_view(params.device_filter),
                params.include_extended,
            ),
            Some(QueryKind::Command) => r matches Ok(s) && s@ == command_sql(
                params.start_time as int,
                params.end_time as int,
                opt_view(params.device_filter),
            ),
            _ => r matches Err(QueryError::UnsupportedKind(t)) && t@ == params.query_type@,
        },
{
    match parse_kind(params.query_type.as_str()) {
        Ok(QueryKind::Device) => Ok(build_device_sql(params, columns)),
        Ok(QueryKind::Command) => Ok(build_command_sql(params)),
        Ok(QueryKind::WideTable) => Err(QueryError::UnsupportedKind(params.query_type.clone())),
        Err(e) => Err(e),
    }
}

} // verus!

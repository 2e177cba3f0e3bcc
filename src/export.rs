//! Preparing rows of a plain query for a spreadsheet: the configured main
//! fields and payload fields of each row, and timestamps shown as UTC+8 times.
use vstd::prelude::*;
use crate::cell::{Cell, CellV};
use crate::sql::{decimal_text, int_to_text};
use crate::table::Row;
use crate::sql::rows_view;
use crate::table::strings_view;
use crate::wide::{
    ExportConfig,
    apply_row_writes,
    apply_writes,
    columns_except,
    row_writes,
    row_writes_of,
    seen_in,
    sorted_columns_except,
    strictly_sorted,
};

verus! {

/// The text chrono gives for the instant `secs` seconds and `nanos` nanoseconds
/// after the epoch, at a fixed offset of `offset` seconds, in `pattern`; `None`
/// where chrono has no such instant.
pub uninterp spec fn offset_time_text(secs: int, nanos: int, offset: int, pattern: Seq<char>) -> Option<Seq<char>>;

pub open spec fn pattern_with_slashes() -> Seq<char> {
    "%Y/%m/%d %H:%M:%S"@
}

pub open spec fn pattern_with_dashes() -> Seq<char> {
    "%Y-%m-%d %H:%M:%S"@
}

/// Relies on chrono: `Utc.timestamp_opt(secs, nanos)` seen at the fixed offset
/// `offset` and formatted with `pattern`, or `None` where either has no value.
#[verifier::external_body]
fn format_at_offset(secs: i64, nanos: u32, offset: i32, pattern: &str) -> (r: Option<String>)
    requires
        pattern@ == pattern_with_slashes() || pattern@ == pattern_with_dashes(),
    ensures
        match r {
            Some(t) => offset_time_text(secs as int, nanos as int, offset as int, pattern@) == Some(t@),
            None => offset_time_text(secs as int, nanos as int, offset as int, pattern@) is None,
        },
{
    let tz = chrono::FixedOffset::east_opt(offset)?;
    let utc = chrono::TimeZone::timestamp_opt(&chrono::Utc, secs, nanos).single()?;
    Some(utc.with_timezone(&tz).format(pattern).to_string())
}

/// The offset of the times shown: eight hours east of UTC.
pub open spec fn utc8_offset() -> int {
    28800
}

pub open spec fn digit_of(d: int) -> char {
    (d + '0' as int) as char
}

/// A timestamp as shown: seconds as `YYYY-MM-DD HH:MM:SS`; milliseconds as
/// `YYYY/MM/DD HH:MM:SS.mmm`; both at UTC+8. A timestamp chrono cannot place,
/// and a negative millisecond count that is not a whole second, is shown as its
/// number.
pub open spec fn timestamp_text(ts: int, millis: bool) -> Seq<char> {
    if millis {
        if ts < 0 && ts % 1000 != 0 {
            decimal_text(ts)
        } else {
            let ms = ts % 1000;
            match offset_time_text(ts / 1000, ms * 1000000, utc8_offset(), pattern_with_slashes()) {
                Some(t) => t + seq!['.', digit_of(ms / 100), digit_of((ms / 10) % 10), digit_of(ms % 10)],
                None => decimal_text(ts),
            }
        }
    } else {
        match offset_time_text(ts, 0, utc8_offset(), pattern_with_dashes()) {
            Some(t) => t,
            None => decimal_text(ts),
        }
    }
}

/// A timestamp in seconds, or with `is_millis` in milliseconds, as shown in an
/// export.
pub fn format_timestamp(timestamp: i64, is_millis: bool) -> (r: String)
    ensures
        r@ == timestamp_text(timestamp as int, is_millis),
{
    let offset: i32 = 28800;
    if is_millis {
        let wide = timestamp as i128;
        let magnitude: i128 = if wide < 0 {
            -wide
        } else {
            wide
        };
        let rest = magnitude % 1000;
        if wide < 0 && rest != 0 {
            assert(timestamp as int % 1000 != 0);
            return int_to_text(timestamp);
        }
        let secs: i128 = if wide < 0 {
            -(magnitude / 1000)
        } else {
            magnitude / 1000
        };
        assert(secs == timestamp as int / 1000 && rest == timestamp as int % 1000);
        let nanos = (rest * 1000000) as u32;
        match format_at_offset(secs as i64, nanos, offset, "%Y/%m/%d %H:%M:%S") {
            Some(t) => {
                let mut r = t;
                r.push('.');
                r.push(((rest / 100) as u8 + 48) as char);
                r.push((((rest / 10) % 10) as u8 + 48) as char);
                r.push(((rest % 10) as u8 + 48) as char);
                r
            },
            None => int_to_text(timestamp),
        }
    } else {
        match format_at_offset(timestamp, 0, offset, "%Y-%m-%d %H:%M:%S") {
            Some(t) => t,
            None => int_to_text(timestamp),
        }
    }
}

/// The row of an export: the configured main fields of `row` and the configured
/// fields of its payload, under their own names.
pub open spec fn export_row(row: Map<Seq<char>, CellV>, cfg: crate::wide::ConfigV) -> Map<Seq<char>, CellV> {
    apply_writes(Map::empty(), row_writes(row, None, cfg, true))
}

/// Each row reduced to its configured main fields plus the configured fields of
/// its JSON payload, renamed as the configuration says.
pub fn filter_and_extract_fields(data: &Vec<Row>, config: &ExportConfig) -> (r: Vec<Row>)
    requires
        forall|i: int| 0 <= i < data@.len() ==> #[trigger] data@[i].wf(),
    ensures
        r@.len() == data@.len(),
        forall|i: int| 0 <= i < r@.len() ==> #[trigger] r@[i].wf(),
        forall|i: int| 0 <= i < r@.len() ==> #[trigger] r@[i]@ == export_row(data@[i]@, config@),
{
    let mut out: Vec<Row> = Vec::new();
    let mut i: usize = 0;
    while i < data.len()
        invariant
            forall|a: int| 0 <= a < data@.len() ==> #[trigger] data@[a].wf(),
            i <= data@.len(),
            out@.len() == i,
            forall|a: int| 0 <= a < i ==> #[trigger] out@[a].wf(),
            forall|a: int| 0 <= a < i ==> #[trigger] out@[a]@ == export_row(data@[a]@, config@),
        decreases data@.len() - i,
    {
        let row = &data[i];
        assert(row.wf());
        let writes = row_writes_of(row, &None, config, true);
        let mut fresh = Row::new();
        apply_row_writes(&mut fresh, &writes);
        out.push(fresh);
        i = i + 1;
    }
    out
}

/// `row` with an integer `timestamp` shown in seconds and an integer
/// `local_timestamp` shown in milliseconds.
pub open spec fn with_shown_times(row: Map<Seq<char>, CellV>) -> Map<Seq<char>, CellV> {
    let r1 = match row.get("timestamp"@) {
        Some(CellV::Int(ts)) => row.insert("timestamp"@, CellV::Text(timestamp_text(ts, false))),
        _ => row,
    };
    match r1.get("local_timestamp"@) {
        Some(CellV::Int(ts)) => r1.insert("local_timestamp"@, CellV::Text(timestamp_text(ts, true))),
        _ => r1,
    }
}

/// The rows with their timestamps shown as UTC+8 times.
pub fn add_formatted_timestamps(data: &mut Vec<Row>)
    requires
        forall|i: int| 0 <= i < old(data)@.len() ==> #[trigger] old(data)@[i].wf(),
    ensures
        final(data)@.len() == old(data)@.len(),
        forall|i: int| 0 <= i < final(data)@.len() ==> #[trigger] final(data)@[i].wf(),
        forall|i: int|
            0 <= i < final(data)@.len() ==> #[trigger] final(data)@[i]@ == with_shown_times(old(data)@[i]@),
{
    let ts_key = "timestamp".to_string();
    let local_key = "local_timestamp".to_string();
    let mut i: usize = 0;
    while i < data.len()
        invariant
            ts_key@ == "timestamp"@,
            local_key@ == "local_timestamp"@,
            data@.len() == old(data)@.len(),
            i <= data@.len(),
            forall|a: int| 0 <= a < data@.len() ==> #[trigger] data@[a].wf(),
            forall|a: int| 0 <= a < i ==> #[trigger] data@[a]@ == with_shown_times(old(data)@[a]@),
            forall|a: int| i <= a < data@.len() ==> #[trigger] data@[a] == old(data)@[a],
        decreases data@.len() - i,
    {
        let mut row = data.remove(i);
        let ghost before = row@;
        assert(row == old(data)@[i as int]);
        let seconds = match row.get(&ts_key) {
            Some(Cell::Int(ts)) => Some(*ts),
            _ => None,
        };
        match seconds {
            Some(ts) => row.set(ts_key.clone(), Cell::Text(format_timestamp(ts, false))),
            None => {},
        }
        let millis = match row.get(&local_key) {
            Some(Cell::Int(ts)) => Some(*ts),
            _ => None,
        };
        match millis {
            Some(ts) => row.set(local_key.clone(), Cell::Text(format_timestamp(ts, true))),
            None => {},
        }
        assert(row@ == with_shown_times(before));
        data.insert(i, row);
        i = i + 1;
    }
}

fn any_row_has(rows: &Vec<Row>, name: &String) -> (r: bool)
    requires
        forall|i: int| 0 <= i < rows@.len() ==> #[trigger] rows@[i].wf(),
    ensures
        r == seen_in(rows_view(rows@), rows@.len() as int, name@),
{
    let ghost rv = rows_view(rows@);
    let mut i: usize = 0;
    while i < rows.len()
        invariant
            rv == rows_view(rows@),
            forall|a: int| 0 <= a < rows@.len() ==> #[trigger] rows@[a].wf(),
            i <= rows@.len(),
            forall|a: int| 0 <= a < i ==> !(#[trigger] rv[a]).contains_key(name@),
        decreases rows@.len() - i,
    {
        assert(rv[i as int] == rows@[i as int]@);
        if rows[i].get(name).is_some() {
            assert(rv[i as int].contains_key(name@));
            return true;
        }
        i = i + 1;
    }
    false
}

/// The fields of `main` that some row of `rows[..n]` has, in order.
pub open spec fn present_fields(main: Seq<Seq<char>>, rows: Seq<Map<Seq<char>, CellV>>, n: int) -> Seq<
    Seq<char>,
>
    decreases main.len(),
{
    if main.len() == 0 {
        main
    } else {
        let before = present_fields(main.drop_last(), rows, n);
        if seen_in(rows, n, main.last()) {
            before.push(main.last())
        } else {
            before
        }
    }
}

/// The columns of an export of plain query rows: the configured main fields
/// that some row has, in configured order, then every other column once, in
/// lexicographic order.
pub fn export_columns(rows: &Vec<Row>, config: &ExportConfig) -> (r: Vec<String>)
    requires
        forall|i: int| 0 <= i < rows@.len() ==> #[trigger] rows@[i].wf(),
    ensures
        ({
            let main = config@.main;
            let head = present_fields(main, rows_view(rows@), rows@.len() as int);
            let n = head.len();
            &&& strings_view(r@).subrange(0, n as int) == head
            &&& strictly_sorted(strings_view(r@).subrange(n as int, r@.len() as int))
            &&& strings_view(r@).subrange(n as int, r@.len() as int).to_set() == columns_except(
                rows_view(rows@),
                rows@.len() as int,
                main,
            )
        }),
{
    let ghost rv = rows_view(rows@);
    let main = &config.main_table_fields;
    let ghost mv = strings_view(main@);
    let mut out: Vec<String> = Vec::new();
    let mut i: usize = 0;
    assert(present_fields(mv.subrange(0, 0), rv, rows@.len() as int) =~= Seq::<Seq<char>>::empty());
    assert(strings_view(out@) =~= Seq::<Seq<char>>::empty());
    while i < main.len()
        invariant
            rv == rows_view(rows@),
            mv == strings_view(main@),
            mv == config@.main,
            forall|a: int| 0 <= a < rows@.len() ==> #[trigger] rows@[a].wf(),
            i <= main@.len(),
            strings_view(out@) == present_fields(mv.subrange(0, i as int), rv, rows@.len() as int),
        decreases main@.len() - i,
    {
        assert(mv.subrange(0, i + 1).drop_last() =~= mv.subrange(0, i as int));
        assert(mv.subrange(0, i + 1).last() == main@[i as int]@);
        if any_row_has(rows, &main[i]) {
            out.push(main[i].clone());
            assert(strings_view(out@) =~= present_fields(mv.subrange(0, i as int), rv, rows@.len() as int).push(
                main@[i as int]@,
            ));
        }
        i = i + 1;
    }
    assert(mv.subrange(0, mv.len() as int) =~= mv);
    let ghost head = strings_view(out@);
    let mut rest = sorted_columns_except(rows, main);
    let ghost rest_v = strings_view(rest@);
    out.append(&mut rest);
    assert(strings_view(out@) =~= head + rest_v);
    assert(strings_view(out@).subrange(0, head.len() as int) =~= head);
    assert(strings_view(out@).subrange(head.len() as int, out@.len() as int) =~= rest_v);
    out
}

} // verus!

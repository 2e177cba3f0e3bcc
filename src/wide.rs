//! The wide table: device and command rows merged into one row per timestamp.
//!
//! A device row contributes its configured main fields and, with extended
//! fields, the configured fields of its JSON payload; a command row contributes
//! its value under its command name. Columns are prefixed with the device serial
//! where a row has one. Writes to a timestamp's row happen in processing order
//! (device rows, then command rows, each in query order), so a later write to the
//! same column replaces an earlier one.
use vstd::prelude::*;
use crate::cell::{Cell, CellV};
use crate::lookup::{find_key, first_value, lemma_first_value_at, lemma_first_value_none};
use crate::sql::{decimal_text, int_to_text};
use crate::sql::rows_view;
use crate::table::{QueryResult, Row, lemma_entries_map_lookup, strings_view};
use crate::text::{chars_of, lemma_text_less_total, lemma_text_less_transitive, text_less, text_less_exec};

verus! {

/// Which fields the wide table takes from device rows and how it names them.
#[derive(Debug)]
pub struct ExportConfig {
    /// Fields copied from each device row.
    pub main_table_fields: Vec<String>,
    /// Payload fields to extract, by upper-case device type or `default`.
    pub extract_from_payload: Vec<(String, Vec<String>)>,
    /// Output names of extracted payload fields.
    pub field_name_mapping: Vec<(String, String)>,
}

pub struct ConfigV {
    pub main: Seq<Seq<char>>,
    pub extract: Seq<(Seq<char>, Seq<Seq<char>>)>,
    pub mapping: Seq<(Seq<char>, Seq<char>)>,
}

impl View for ExportConfig {
    type V = ConfigV;

    open spec fn view(&self) -> ConfigV {
        ConfigV {
            main: strings_view(self.main_table_fields@),
            extract: self.extract_from_payload@.map_values(
                |e: (String, Vec<String>)| (e.0@, strings_view(e.1@)),
            ),
            mapping: self.field_name_mapping@.map_values(|e: (String, String)| (e.0@, e.1@)),
        }
    }
}

/// The main fields used when no configuration file is found.
pub open spec fn default_main_fields() -> Seq<Seq<char>> {
    seq![
        "id"@,
        "device_sn"@,
        "device_type"@,
        "timestamp"@,
        "local_timestamp"@,
        "activePower"@,
        "reactivePower"@,
    ]
}

/// The built-in configuration: the default main fields, nothing extracted from
/// payloads, no renaming.
pub fn default_config() -> (r: ExportConfig)
    ensures
        r@.main == default_main_fields(),
        r@.extract.len() == 0,
        r@.mapping.len() == 0,
{
    let main = vec![
        "id".to_string(),
        "device_sn".to_string(),
        "device_type".to_string(),
        "timestamp".to_string(),
        "local_timestamp".to_string(),
        "activePower".to_string(),
        "reactivePower".to_string(),
    ];
    assert(strings_view(main@) =~= default_main_fields());
    ExportConfig { main_table_fields: main, extract_from_payload: Vec::new(), field_name_mapping: Vec::new() }
}

/// The text a value is written as: empty for null, decimal digits for an
/// integer, the literal for a float, and text as it is.
pub open spec fn cell_text(c: CellV) -> Seq<char> {
    match c {
        CellV::Null => Seq::empty(),
        CellV::Int(v) => decimal_text(v),
        CellV::Float(s) => s,
        CellV::Text(s) => s,
    }
}

/// The text a value is written as.
pub fn format_value(c: &Cell) -> (r: String)
    ensures
        r@ == cell_text(c@),
{
    match c {
        Cell::Null => String::new(),
        Cell::Int(v) => int_to_text(*v),
        Cell::Float(s) => s.clone(),
        Cell::Text(s) => s.clone(),
    }
}

/// `name` under the device serial `dev`, when there is one.
pub open spec fn prefixed(dev: Option<Seq<char>>, name: Seq<char>) -> Seq<char> {
    match dev {
        Some(d) => d + "_"@ + name,
        None => name,
    }
}

fn prefix_name(dev: &Option<String>, name: &String) -> (r: String)
    ensures
        r@ == prefixed(
            match dev {
                Some(d) => Some(d@),
                None => None,
            },
            name@,
        ),
{
    match dev {
        Some(d) => {
            let mut r = d.clone();
            r.append("_");
            r.append(name.as_str());
            r
        },
        None => name.clone(),
    }
}

/// The device serial of a row: the text of its `device_sn` unless absent or null.
pub open spec fn device_id(row: Map<Seq<char>, CellV>) -> Option<Seq<char>> {
    if row.contains_key("device_sn"@) && !(row["device_sn"@] is Null) {
        Some(cell_text(row["device_sn"@]))
    } else {
        None
    }
}

fn device_id_of(row: &Row) -> (r: Option<String>)
    requires
        row.wf(),
    ensures
        match r {
            Some(d) => device_id(row@) == Some(d@),
            None => device_id(row@) is None,
        },
{
    let key = "device_sn".to_string();
    match row.get(&key) {
        Some(c) => if c.is_null() {
            None
        } else {
            Some(format_value(c))
        },
        None => None,
    }
}

/// The timestamp that keys a row: its integer `timestamp`.
pub open spec fn row_key(row: Map<Seq<char>, CellV>) -> Option<int> {
    if row.contains_key("timestamp"@) {
        match row["timestamp"@] {
            CellV::Int(v) => Some(v),
            _ => None,
        }
    } else {
        None
    }
}

fn row_key_of(row: &Row) -> (r: Option<i64>)
    requires
        row.wf(),
    ensures
        match r {
            Some(k) => row_key(row@) == Some(k as int),
            None => row_key(row@) is None,
        },
{
    let key = "timestamp".to_string();
    match row.get(&key) {
        Some(Cell::Int(v)) => Some(*v),
        _ => None,
    }
}

/// The upper-case form of a text, as Unicode defines it.
pub uninterp spec fn upper_of(s: Seq<char>) -> Seq<char>;

/// Relies on `str::to_uppercase`: the upper-case form depends on the characters alone.
#[verifier::external_body]
fn uppercase(s: &str) -> (r: String)
    ensures
        r@ == upper_of(s@),
{
    s.to_uppercase()
}

/// The device type a row's extraction list is chosen by: its textual
/// `device_type` in upper case, or `default`.
pub open spec fn device_kind(row: Map<Seq<char>, CellV>) -> Seq<char> {
    if row.contains_key("device_type"@) {
        match row["device_type"@] {
            CellV::Text(s) => upper_of(s),
            _ => "default"@,
        }
    } else {
        "default"@
    }
}

fn device_kind_of(row: &Row) -> (r: String)
    requires
        row.wf(),
    ensures
        r@ == device_kind(row@),
{
    let key = "device_type".to_string();
    match row.get(&key) {
        Some(Cell::Text(s)) => uppercase(s.as_str()),
        _ => "default".to_string(),
    }
}

/// The top-level entries of a JSON object, each value typed as a `Cell`, in key
/// order; `None` when the text is no JSON object.
pub uninterp spec fn json_object_entries(s: Seq<char>) -> Option<Seq<(Seq<char>, CellV)>>;

/// Relies on `serde_json::from_str` into a `serde_json::Map`: the object's
/// entries in key order, each JSON value moved into its `Cell` (integers by
/// `Number::as_i64`, other numbers by their text, booleans, arrays and objects as
/// their JSON text).
#[verifier::external_body]
fn parse_object(s: &str) -> (r: Option<Vec<(String, Cell)>>)
    ensures
        match r {
            Some(v) => json_object_entries(s@) == Some(
                v@.map_values(|e: (String, Cell)| (e.0@, e.1@)),
            ),
            None => json_object_entries(s@) is None,
        },
{
    let m = serde_json::from_str::<serde_json::Map<String, serde_json::Value>>(s).ok()?;
    Some(m.into_iter().map(|(k, v)| {
        let c = match v {
            serde_json::Value::Null => Cell::Null,
            serde_json::Value::Number(n) => match n.as_i64() {
                Some(i) => Cell::Int(i),
                None => Cell::Float(n.to_string()),
            },
            serde_json::Value::String(t) => Cell::Text(t),
            other => Cell::Text(other.to_string()),
        };
        (k, c)
    }).collect())
}

/// The payload entries of a device row: its non-empty textual `payload_json`
/// parsed as a JSON object.
pub open spec fn row_payload(row: Map<Seq<char>, CellV>) -> Option<Seq<(Seq<char>, CellV)>> {
    if row.contains_key("payload_json"@) {
        match row["payload_json"@] {
            CellV::Text(t) => if t.len() > 0 {
                json_object_entries(t)
            } else {
                None
            },
            _ => None,
        }
    } else {
        None
    }
}

/// The payload fields extracted for `kind`: its own list, else the `default` list,
/// else none.
pub open spec fn extraction_list(cfg: ConfigV, kind: Seq<char>) -> Seq<Seq<char>> {
    match first_value(cfg.extract, kind) {
        Some(l) => l,
        None => match first_value(cfg.extract, "default"@) {
            Some(l) => l,
            None => Seq::empty(),
        },
    }
}

/// The output name of payload field `f`.
pub open spec fn output_name(cfg: ConfigV, f: Seq<char>) -> Seq<char> {
    match first_value(cfg.mapping, f) {
        Some(n) => n,
        None => f,
    }
}

/// The columns written for the main fields `fields` present in `row`.
pub open spec fn main_writes(
    row: Map<Seq<char>, CellV>,
    dev: Option<Seq<char>>,
    fields: Seq<Seq<char>>,
) -> Seq<(Seq<char>, CellV)>
    decreases fields.len(),
{
    if fields.len() == 0 {
        Seq::empty()
    } else {
        let w = main_writes(row, dev, fields.drop_last());
        let f = fields.last();
        if row.contains_key(f) {
            w.push((prefixed(dev, f), row[f]))
        } else {
            w
        }
    }
}

/// The columns written for the payload fields `fields` that `payload` holds and
/// that are not null.
pub open spec fn extract_writes(
    payload: Seq<(Seq<char>, CellV)>,
    dev: Option<Seq<char>>,
    fields: Seq<Seq<char>>,
    cfg: ConfigV,
) -> Seq<(Seq<char>, CellV)>
    decreases fields.len(),
{
    if fields.len() == 0 {
        Seq::empty()
    } else {
        let w = extract_writes(payload, dev, fields.drop_last(), cfg);
        let f = fields.last();
        match first_value(payload, f) {
            Some(v) => if v is Null {
                w
            } else {
                w.push((prefixed(dev, output_name(cfg, f)), v))
            },
            None => w,
        }
    }
}

/// Everything a device row writes to its timestamp's row, in order.
pub open spec fn device_writes(row: Map<Seq<char>, CellV>, cfg: ConfigV, extended: bool) -> Seq<
    (Seq<char>, CellV),
> {
    row_writes(row, device_id(row), cfg, extended)
}

/// The main fields of `row`, then with `extended` its configured payload fields,
/// each under the prefix `dev` when there is one.
pub open spec fn row_writes(
    row: Map<Seq<char>, CellV>,
    dev: Option<Seq<char>>,
    cfg: ConfigV,
    extended: bool,
) -> Seq<(Seq<char>, CellV)> {
    main_writes(row, dev, cfg.main) + if extended {
        match row_payload(row) {
            Some(p) => extract_writes(p, dev, extraction_list(cfg, device_kind(row)), cfg),
            None => Seq::empty(),
        }
    } else {
        Seq::empty()
    }
}

/// What a command row writes: its value under its command name, when it has a
/// name.
pub open spec fn command_writes(row: Map<Seq<char>, CellV>) -> Seq<(Seq<char>, CellV)> {
    if row.contains_key("command_name"@) && !(row["command_name"@] is Null) {
        let value = if row.contains_key("command_value"@) {
            row["command_value"@]
        } else {
            CellV::Null
        };
        seq![(prefixed(device_id(row), cell_text(row["command_name"@])), value)]
    } else {
        Seq::empty()
    }
}

pub open spec fn writes_view(w: Seq<(String, Cell)>) -> Seq<(Seq<char>, CellV)> {
    w.map_values(|e: (String, Cell)| (e.0@, e.1@))
}

fn push_write(out: &mut Vec<(String, Cell)>, name: String, value: Cell)
    ensures
        writes_view(final(out)@) == writes_view(old(out)@).push((name@, value@)),
{
    let ghost n = name@;
    let ghost v = value@;
    out.push((name, value));
    assert(writes_view(out@) =~= writes_view(old(out)@).push((n, v)));
}

/// The columns a device row writes for the main fields.
fn main_writes_of(row: &Row, dev: &Option<String>, cfg: &ExportConfig) -> (r: Vec<(String, Cell)>)
    requires
        row.wf(),
    ensures
        writes_view(r@) == main_writes(
            row@,
            match dev {
                Some(d) => Some(d@),
                None => None,
            },
            cfg@.main,
        ),
{
    let ghost dv = match dev {
        Some(d) => Some(d@),
        None => None,
    };
    let ghost fields = cfg@.main;
    let mut out: Vec<(String, Cell)> = Vec::new();
    let mut i: usize = 0;
    assert(writes_view(out@) =~= main_writes(row@, dv, fields.subrange(0, 0)));
    while i < cfg.main_table_fields.len()
        invariant
            row.wf(),
            fields == cfg@.main,
            dv == match dev {
                Some(d) => Some(d@),
                None => None,
            },
            i <= fields.len(),
            fields.len() == cfg.main_table_fields@.len(),
            writes_view(out@) == main_writes(row@, dv, fields.subrange(0, i as int)),
        decreases fields.len() - i,
    {
        let f = &cfg.main_table_fields[i];
        assert(fields.subrange(0, i + 1).drop_last() =~= fields.subrange(0, i as int));
        assert(fields.subrange(0, i + 1).last() == f@);
        match row.get(f) {
            Some(c) => {
                let name = prefix_name(dev, f);
                push_write(&mut out, name, c.copy());
            },
            None => {},
        }
        i = i + 1;
    }
    assert(fields.subrange(0, fields.len() as int) =~= fields);
    out
}

fn payload_value<'a>(payload: &'a Vec<(String, Cell)>, key: &String) -> (r: Option<&'a Cell>)
    ensures
        match r {
            Some(c) => first_value(writes_view(payload@), key@) == Some(c@),
            None => first_value(writes_view(payload@), key@) is None,
        },
{
    let ghost pv = writes_view(payload@);
    match find_key(payload, key) {
        Some(i) => {
            proof {
                assert forall|j: int| 0 <= j < i implies #[trigger] pv[j].0 != key@ by {
                    assert(pv[j].0 == payload@[j].0@);
                }
                lemma_first_value_at(pv, key@, i as int);
            }
            Some(&payload[i].1)
        },
        None => {
            proof {
                assert forall|j: int| 0 <= j < pv.len() implies #[trigger] pv[j].0 != key@ by {
                    assert(pv[j].0 == payload@[j].0@);
                }
                lemma_first_value_none(pv, key@);
            }
            None
        },
    }
}

fn extraction_list_of(cfg: &ExportConfig, kind: &String) -> (r: Vec<String>)
    ensures
        strings_view(r@) == extraction_list(cfg@, kind@),
{
    let ghost ev = cfg@.extract;
    let entries = &cfg.extract_from_payload;
    assert forall|j: int| 0 <= j < ev.len() implies #[trigger] ev[j].0 == entries@[j].0@ by {}
    match find_key(entries, kind) {
        Some(i) => {
            proof {
                lemma_first_value_at(ev, kind@, i as int);
            }
            entries[i].1.clone()
        },
        None => {
            proof {
                lemma_first_value_none(ev, kind@);
            }
            let fallback = "default".to_string();
            match find_key(entries, &fallback) {
                Some(i) => {
                    proof {
                        lemma_first_value_at(ev, "default"@, i as int);
                    }
                    entries[i].1.clone()
                },
                None => {
                    proof {
                        lemma_first_value_none(ev, "default"@);
                    }
                    let r: Vec<String> = Vec::new();
                    assert(strings_view(r@) =~= Seq::<Seq<char>>::empty());
                    r
                },
            }
        },
    }
}

fn output_name_of(cfg: &ExportConfig, f: &String) -> (r: String)
    ensures
        r@ == output_name(cfg@, f@),
{
    let ghost mv = cfg@.mapping;
    let entries = &cfg.field_name_mapping;
    assert forall|j: int| 0 <= j < mv.len() implies #[trigger] mv[j].0 == entries@[j].0@ by {}
    match find_key(entries, f) {
        Some(i) => {
            proof {
                lemma_first_value_at(mv, f@, i as int);
            }
            entries[i].1.clone()
        },
        None => {
            proof {
                lemma_first_value_none(mv, f@);
            }
            f.clone()
        },
    }
}

/// The columns written for the payload fields of `fields` held in `payload`.
pub fn extract_fields(
    payload: &Vec<(String, Cell)>,
    dev: &Option<String>,
    fields: &Vec<String>,
    cfg: &ExportConfig,
) -> (r: Vec<(String, Cell)>)
    ensures
        writes_view(r@) == extract_writes(
            writes_view(payload@),
            match dev {
                Some(d) => Some(d@),
                None => None,
            },
            strings_view(fields@),
            cfg@,
        ),
{
    let ghost dv = match dev {
        Some(d) => Some(d@),
        None => None,
    };
    let ghost fv = strings_view(fields@);
    let ghost pv = writes_view(payload@);
    let mut out: Vec<(String, Cell)> = Vec::new();
    let mut i: usize = 0;
    assert(writes_view(out@) =~= extract_writes(pv, dv, fv.subrange(0, 0), cfg@));
    while i < fields.len()
        invariant
            fv == strings_view(fields@),
            pv == writes_view(payload@),
            dv == match dev {
                Some(d) => Some(d@),
                None => None,
            },
            i <= fields@.len(),
            writes_view(out@) == extract_writes(pv, dv, fv.subrange(0, i as int), cfg@),
        decreases fields@.len() - i,
    {
        let f = &fields[i];
        assert(fv.subrange(0, i + 1).drop_last() =~= fv.subrange(0, i as int));
        assert(fv.subrange(0, i + 1).last() == f@);
        match payload_value(payload, f) {
            Some(v) => {
                if !v.is_null() {
                    let mapped = output_name_of(cfg, f);
                    let name = prefix_name(dev, &mapped);
                    push_write(&mut out, name, v.copy());
                }
            },
            None => {},
        }
        i = i + 1;
    }
    assert(fv.subrange(0, fv.len() as int) =~= fv);
    out
}

/// Everything a device row writes to its timestamp's row, in order.
pub fn device_writes_of(row: &Row, cfg: &ExportConfig, extended: bool) -> (r: Vec<(String, Cell)>)
    requires
        row.wf(),
    ensures
        writes_view(r@) == device_writes(row@, cfg@, extended),
{
    let dev = device_id_of(row);
    row_writes_of(row, &dev, cfg, extended)
}

/// The writes of `row_writes` for the prefix `dev`.
pub(crate) fn row_writes_of(row: &Row, dev: &Option<String>, cfg: &ExportConfig, extended: bool) -> (r: Vec<
    (String, Cell),
>)
    requires
        row.wf(),
    ensures
        writes_view(r@) == row_writes(
            row@,
            match dev {
                Some(d) => Some(d@),
                None => None,
            },
            cfg@,
            extended,
        ),
{
    let ghost dv = match dev {
        Some(d) => Some(d@),
        None => None,
    };
    let mut out = main_writes_of(row, dev, cfg);
    let ghost main = writes_view(out@);
    let mut extra: Vec<(String, Cell)> = Vec::new();
    if extended {
        let key = "payload_json".to_string();
        match row.get(&key) {
            Some(Cell::Text(t)) => {
                if t.unicode_len() > 0 {
                    match parse_object(t.as_str()) {
                        Some(payload) => {
                            let kind = device_kind_of(row);
                            let fields = extraction_list_of(cfg, &kind);
                            extra = extract_fields(&payload, dev, &fields, cfg);
                        },
                        None => {},
                    }
                }
            },
            _ => {},
        }
    }
    let ghost ex = writes_view(extra@);
    out.append(&mut extra);
    assert(writes_view(out@) =~= main + ex);
    assert(ex =~= (if extended {
        match row_payload(row@) {
            Some(p) => extract_writes(p, dv, extraction_list(cfg@, device_kind(row@)), cfg@),
            None => Seq::empty(),
        }
    } else {
        Seq::empty()
    }));
    out
}

/// What a command row writes to its timestamp's row.
pub fn command_writes_of(row: &Row) -> (r: Vec<(String, Cell)>)
    requires
        row.wf(),
    ensures
        writes_view(r@) == command_writes(row@),
{
    let mut out: Vec<(String, Cell)> = Vec::new();
    let name_key = "command_name".to_string();
    let value_key = "command_value".to_string();
    match row.get(&name_key) {
        Some(n) => {
            if !n.is_null() {
                let dev = device_id_of(row);
                let text = format_value(n);
                let name = prefix_name(&dev, &text);
                let value = match row.get(&value_key) {
                    Some(v) => v.copy(),
                    None => Cell::Null,
                };
                push_write(&mut out, name, value);
                assert(writes_view(out@) =~= command_writes(row@));
            } else {
                assert(writes_view(out@) =~= command_writes(row@));
            }
        },
        None => {
            assert(writes_view(out@) =~= command_writes(row@));
        },
    }
    out
}

/// A row of the wide table before anything is written: only its timestamp.
pub open spec fn init_row(k: int) -> Map<Seq<char>, CellV> {
    Map::<Seq<char>, CellV>::empty().insert("timestamp"@, CellV::Int(k))
}

/// `m` after the writes `w`, in order.
pub open spec fn apply_writes(m: Map<Seq<char>, CellV>, w: Seq<(Seq<char>, CellV)>) -> Map<
    Seq<char>,
    CellV,
>
    decreases w.len(),
{
    if w.len() == 0 {
        m
    } else {
        apply_writes(m, w.drop_last()).insert(w.last().0, w.last().1)
    }
}

/// The table `t` after the writes `w` to the row keyed `k`: that row is created
/// in front of the first row with a larger key when there is none yet.
pub open spec fn upsert(
    t: Seq<(int, Map<Seq<char>, CellV>)>,
    k: int,
    w: Seq<(Seq<char>, CellV)>,
) -> Seq<(int, Map<Seq<char>, CellV>)>
    decreases t.len(),
{
    if t.len() == 0 {
        seq![(k, apply_writes(init_row(k), w))]
    } else if t[0].0 == k {
        t.update(0, (k, apply_writes(t[0].1, w)))
    } else if t[0].0 > k {
        seq![(k, apply_writes(init_row(k), w))] + t
    } else {
        seq![t[0]] + upsert(t.drop_first(), k, w)
    }
}

/// The table after the device rows `rows`, in order; rows without a timestamp
/// write nothing.
pub open spec fn fold_devices(
    rows: Seq<Map<Seq<char>, CellV>>,
    cfg: ConfigV,
    extended: bool,
) -> Seq<(int, Map<Seq<char>, CellV>)>
    decreases rows.len(),
{
    if rows.len() == 0 {
        Seq::empty()
    } else {
        let t = fold_devices(rows.drop_last(), cfg, extended);
        match row_key(rows.last()) {
            Some(k) => upsert(t, k, device_writes(rows.last(), cfg, extended)),
            None => t,
        }
    }
}

/// The table `t0` after the command rows `rows`, in order.
pub open spec fn fold_commands(
    t0: Seq<(int, Map<Seq<char>, CellV>)>,
    rows: Seq<Map<Seq<char>, CellV>>,
) -> Seq<(int, Map<Seq<char>, CellV>)>
    decreases rows.len(),
{
    if rows.len() == 0 {
        t0
    } else {
        let t = fold_commands(t0, rows.drop_last());
        match row_key(rows.last()) {
            Some(k) => upsert(t, k, command_writes(rows.last())),
            None => t,
        }
    }
}

/// The wide table of `devices` and `commands`: one keyed row per timestamp.
pub open spec fn merged(
    devices: Seq<Map<Seq<char>, CellV>>,
    commands: Seq<Map<Seq<char>, CellV>>,
    cfg: ConfigV,
    extended: bool,
) -> Seq<(int, Map<Seq<char>, CellV>)> {
    fold_commands(fold_devices(devices, cfg, extended), commands)
}

pub open spec fn table_view(t: Seq<(i64, Row)>) -> Seq<(int, Map<Seq<char>, CellV>)> {
    t.map_values(|e: (i64, Row)| (e.0 as int, e.1@))
}

pub open spec fn table_wf(t: Seq<(i64, Row)>) -> bool {
    forall|i: int| 0 <= i < t.len() ==> #[trigger] t[i].1.wf()
}

/// Where `upsert` writes: after the leading rows with smaller keys.
proof fn lemma_upsert_at(
    t: Seq<(int, Map<Seq<char>, CellV>)>,
    k: int,
    w: Seq<(Seq<char>, CellV)>,
    p: int,
)
    requires
        0 <= p <= t.len(),
        forall|j: int| 0 <= j < p ==> #[trigger] t[j].0 < k,
        p < t.len() ==> t[p].0 >= k,
    ensures
        upsert(t, k, w) == if p < t.len() && t[p].0 == k {
            t.update(p, (k, apply_writes(t[p].1, w)))
        } else {
            t.insert(p, (k, apply_writes(init_row(k), w)))
        },
    decreases p,
{
    if p == 0 {
        if t.len() == 0 {
            assert(t.insert(0, (k, apply_writes(init_row(k), w))) =~= seq![
                (k, apply_writes(init_row(k), w)),
            ]);
        } else if t[0].0 > k {
            assert(t.insert(0, (k, apply_writes(init_row(k), w))) =~= seq![
                (k, apply_writes(init_row(k), w)),
            ] + t);
        }
    } else {
        let u = t.drop_first();
        assert forall|j: int| 0 <= j < p - 1 implies #[trigger] u[j].0 < k by {
            assert(u[j] == t[j + 1]);
        }
        assert(t[0].0 < k);
        lemma_upsert_at(u, k, w, p - 1);
        if p < t.len() && t[p].0 == k {
            assert(seq![t[0]] + u.update(p - 1, (k, apply_writes(u[p - 1].1, w))) =~= t.update(
                p,
                (k, apply_writes(t[p].1, w)),
            ));
        } else {
            assert(seq![t[0]] + u.insert(p - 1, (k, apply_writes(init_row(k), w))) =~= t.insert(
                p,
                (k, apply_writes(init_row(k), w)),
            ));
        }
    }
}

/// `row` after the writes `w`, in order.
pub fn apply_row_writes(row: &mut Row, w: &Vec<(String, Cell)>)
    requires
        old(row).wf(),
    ensures
        final(row).wf(),
        final(row)@ == apply_writes(old(row)@, writes_view(w@)),
{
    let ghost wv = writes_view(w@);
    let mut i: usize = 0;
    assert(wv.subrange(0, 0) =~= Seq::<(Seq<char>, CellV)>::empty());
    while i < w.len()
        invariant
            wv == writes_view(w@),
            i <= w@.len(),
            row.wf(),
            row@ == apply_writes(old(row)@, wv.subrange(0, i as int)),
        decreases w@.len() - i,
    {
        assert(wv.subrange(0, i + 1).drop_last() =~= wv.subrange(0, i as int));
        assert(wv.subrange(0, i + 1).last() == (w@[i as int].0@, w@[i as int].1@));
        row.set(w[i].0.clone(), w[i].1.copy());
        i = i + 1;
    }
    assert(wv.subrange(0, wv.len() as int) =~= wv);
}

/// The table `t` after the writes `w` to the row keyed `k`.
pub fn upsert_row(t: &mut Vec<(i64, Row)>, k: i64, w: &Vec<(String, Cell)>)
    requires
        table_wf(old(t)@),
    ensures
        table_wf(final(t)@),
        table_view(final(t)@) == upsert(table_view(old(t)@), k as int, writes_view(w@)),
{
    let ghost tv = table_view(t@);
    let mut p: usize = 0;
    while p < t.len() && t[p].0 < k
        invariant
            tv == table_view(t@),
            t@ == old(t)@,
            table_wf(t@),
            p <= t@.len(),
            forall|j: int| 0 <= j < p ==> #[trigger] tv[j].0 < k,
        decreases t@.len() - p,
    {
        p = p + 1;
    }
    proof {
        lemma_upsert_at(tv, k as int, writes_view(w@), p as int);
    }
    let ghost old_t = t@;
    if p < t.len() && t[p].0 == k {
        let (key, mut row) = t.remove(p);
        assert(row.wf());
        apply_row_writes(&mut row, w);
        let ghost rv = row@;
        assert(row.wf());
        t.insert(p, (key, row));
        assert(t@[p as int].1.wf());
        assert(t@ =~= old_t.update(p as int, t@[p as int]));
        assert forall|i: int| 0 <= i < t@.len() implies #[trigger] t@[i].1.wf() by {
            if i != p {
                assert(old_t[i].1.wf());
            }
        }
        assert(table_view(t@) =~= tv.update(p as int, (k as int, rv)));
    } else {
        let mut row = Row::new();
        row.set("timestamp".to_string(), Cell::Int(k));
        assert(row@ =~= init_row(k as int));
        apply_row_writes(&mut row, w);
        let ghost rv = row@;
        assert(row.wf());
        t.insert(p, (k, row));
        assert(t@[p as int].1.wf());
        assert(t@ =~= old_t.insert(p as int, t@[p as int]));
        assert forall|i: int| 0 <= i < t@.len() implies #[trigger] t@[i].1.wf() by {
            if i < p {
                assert(old_t[i].1.wf());
            } else if i > p {
                assert(old_t[i - 1].1.wf());
            }
        }
        assert(table_view(t@) =~= tv.insert(p as int, (k as int, rv)));
    }
}

/// The rows of the wide table of `devices` and `commands`, in ascending order of
/// timestamp, with the column order of `wide_columns`.
pub fn merge_wide(
    devices: &QueryResult,
    commands: &QueryResult,
    cfg: &ExportConfig,
    extended: bool,
) -> (r: QueryResult)
    requires
        devices.wf(),
        commands.wf(),
    ensures
        r.wf(),
        rows_view(r.rows@) == merged(
            rows_view(devices.rows@),
            rows_view(commands.rows@),
            cfg@,
            extended,
        ).map_values(|e: (int, Map<Seq<char>, CellV>)| e.1),
        wide_columns_of(strings_view(r.columns@), rows_view(r.rows@)),
{
    let ghost dv = rows_view(devices.rows@);
    let ghost cv = rows_view(commands.rows@);
    let mut t: Vec<(i64, Row)> = Vec::new();
    let mut i: usize = 0;
    assert(table_view(t@) =~= fold_devices(dv.subrange(0, 0), cfg@, extended));
    while i < devices.rows.len()
        invariant
            devices.wf(),
            dv == rows_view(devices.rows@),
            i <= devices.rows@.len(),
            table_wf(t@),
            table_view(t@) == fold_devices(dv.subrange(0, i as int), cfg@, extended),
        decreases devices.rows@.len() - i,
    {
        let row = &devices.rows[i];
        assert(devices.rows@[i as int].wf());
        assert(dv.subrange(0, i + 1).drop_last() =~= dv.subrange(0, i as int));
        assert(dv.subrange(0, i + 1).last() == row@);
        match row_key_of(row) {
            Some(k) => {
                let w = device_writes_of(row, cfg, extended);
                upsert_row(&mut t, k, &w);
            },
            None => {},
        }
        i = i + 1;
    }
    assert(dv.subrange(0, dv.len() as int) =~= dv);
    let ghost after_devices = table_view(t@);
    let mut j: usize = 0;
    assert(cv.subrange(0, 0) =~= Seq::<Map<Seq<char>, CellV>>::empty());
    while j < commands.rows.len()
        invariant
            commands.wf(),
            cv == rows_view(commands.rows@),
            j <= commands.rows@.len(),
            table_wf(t@),
            table_view(t@) == fold_commands(after_devices, cv.subrange(0, j as int)),
        decreases commands.rows@.len() - j,
    {
        let row = &commands.rows[j];
        assert(commands.rows@[j as int].wf());
        assert(cv.subrange(0, j + 1).drop_last() =~= cv.subrange(0, j as int));
        assert(cv.subrange(0, j + 1).last() == row@);
        match row_key_of(row) {
            Some(k) => {
                let w = command_writes_of(row);
                upsert_row(&mut t, k, &w);
            },
            None => {},
        }
        j = j + 1;
    }
    assert(cv.subrange(0, cv.len() as int) =~= cv);
    let ghost final_table = table_view(t@);
    let mut rows: Vec<Row> = Vec::new();
    let n = t.len();
    let mut q: usize = 0;
    while q < n
        invariant
            n == t@.len(),
            table_wf(t@),
            final_table == table_view(t@),
            q <= n,
            rows@.len() == q,
            forall|a: int| 0 <= a < q ==> #[trigger] rows@[a].wf(),
            forall|a: int| 0 <= a < q ==> #[trigger] rows@[a]@ == final_table[a].1,
        decreases n - q,
    {
        assert(t@[q as int].1.wf());
        rows.push(t[q].1.copy());
        q = q + 1;
    }
    assert(rows_view(rows@) =~= final_table.map_values(|e: (int, Map<Seq<char>, CellV>)| e.1));
    let columns = wide_columns(&rows);
    let total = rows.len();
    QueryResult { columns, rows, total_rows: total }
}

/// Each text comes before every later one.
pub open spec fn strictly_sorted(s: Seq<Seq<char>>) -> bool {
    forall|i: int, j: int| 0 <= i < j < s.len() ==> text_less(#[trigger] s[i], #[trigger] s[j])
}

/// Adds `name` to the sorted texts `cols` unless it is there.
pub(crate) fn insert_sorted(cols: &mut Vec<String>, name: &String)
    requires
        strictly_sorted(strings_view(old(cols)@)),
    ensures
        strictly_sorted(strings_view(final(cols)@)),
        strings_view(final(cols)@).to_set() == strings_view(old(cols)@).to_set().insert(name@),
{
    let ghost v = strings_view(cols@);
    let n = chars_of(name.as_str());
    let mut p: usize = 0;
    while p < cols.len() && text_less_exec(&chars_of(cols[p].as_str()), &n)
        invariant
            v == strings_view(cols@),
            cols@ == old(cols)@,
            strictly_sorted(v),
            n@ == name@,
            p <= cols@.len(),
            forall|j: int| 0 <= j < p ==> text_less(#[trigger] v[j], name@),
        decreases cols@.len() - p,
    {
        p = p + 1;
    }
    if p < cols.len() && cols[p] == *name {
        assert(v[p as int] == name@);
        assert(v.to_set() =~= v.to_set().insert(name@));
        return;
    }
    cols.insert(p, name.clone());
    let ghost u = strings_view(cols@);
    assert(u =~= v.insert(p as int, name@));
    proof {
        if p < v.len() {
            lemma_text_less_total(v[p as int], name@);
        }
    }
    assert forall|i: int, j: int| 0 <= i < j < u.len() implies text_less(#[trigger] u[i], #[trigger] u[j]) by {
        if j < p {
            assert(text_less(v[i], v[j]));
        } else if i < p && j == p {
        } else if i < p && j > p {
            assert(text_less(v[i], v[j - 1]));
        } else if i == p && j > p {
            if j - 1 > p {
                assert(text_less(v[p as int], v[j - 1]));
                lemma_text_less_transitive(name@, v[p as int], v[j - 1]);
            }
        } else {
            assert(text_less(v[i - 1], v[j - 1]));
        }
    }
    assert forall|c: Seq<char>| u.contains(c) <==> (v.contains(c) || c == name@) by {
        if u.contains(c) {
            let i = choose|i: int| 0 <= i < u.len() && u[i] == c;
            if i < p {
                assert(v[i] == c);
            } else if i > p {
                assert(v[i - 1] == c);
            }
        }
        if v.contains(c) {
            let i = choose|i: int| 0 <= i < v.len() && v[i] == c;
            if i < p {
                assert(u[i] == c);
            } else {
                assert(u[i + 1] == c);
            }
        }
        if c == name@ {
            assert(u[p as int] == c);
        }
    }
    assert(u.to_set() =~= v.to_set().insert(name@));
}

/// `cols` lists the columns of `rows` as the wide table orders them: the
/// timestamp first, then every other column once, in lexicographic order.
pub open spec fn wide_columns_of(cols: Seq<Seq<char>>, rows: Seq<Map<Seq<char>, CellV>>) -> bool {
    if rows.len() == 0 {
        cols.len() == 0
    } else {
        &&& cols.len() > 0
        &&& cols[0] == "timestamp"@
        &&& strictly_sorted(cols.drop_first())
        &&& cols.drop_first().to_set() == other_columns(rows, rows.len() as int)
    }
}

/// Some row of `rows[..i]` has column `c`.
pub open spec fn seen_in(rows: Seq<Map<Seq<char>, CellV>>, i: int, c: Seq<char>) -> bool {
    exists|a: int| 0 <= a < i && #[trigger] rows[a].contains_key(c)
}

/// The columns other than the timestamp that some row of `rows[..i]` has.
pub open spec fn other_columns(rows: Seq<Map<Seq<char>, CellV>>, i: int) -> Set<Seq<char>> {
    Set::new(|c: Seq<char>| c != "timestamp"@ && seen_in(rows, i, c))
}

/// The columns that some row of `rows[..i]` has and `excluded` does not list.
pub open spec fn columns_except(
    rows: Seq<Map<Seq<char>, CellV>>,
    i: int,
    excluded: Seq<Seq<char>>,
) -> Set<Seq<char>> {
    Set::new(|c: Seq<char>| !excluded.contains(c) && seen_in(rows, i, c))
}

/// Every column of some row that `excluded` does not list, once each, in
/// lexicographic order.
pub fn sorted_columns_except(rows: &Vec<Row>, excluded: &Vec<String>) -> (r: Vec<String>)
    requires
        forall|i: int| 0 <= i < rows@.len() ==> #[trigger] rows@[i].wf(),
    ensures
        strictly_sorted(strings_view(r@)),
        strings_view(r@).to_set() == columns_except(
            rows_view(rows@),
            rows@.len() as int,
            strings_view(excluded@),
        ),
{
    let ghost rv = rows_view(rows@);
    let ghost ex = strings_view(excluded@);
    let mut rest: Vec<String> = Vec::new();
    let mut i: usize = 0;
    assert(strings_view(rest@).to_set() =~= columns_except(rv, 0, ex));
    while i < rows.len()
        invariant
            rv == rows_view(rows@),
            ex == strings_view(excluded@),
            forall|a: int| 0 <= a < rows@.len() ==> #[trigger] rows@[a].wf(),
            i <= rows@.len(),
            strictly_sorted(strings_view(rest@)),
            strings_view(rest@).to_set() == columns_except(rv, i as int, ex),
        decreases rows@.len() - i,
    {
        let row = &rows[i];
        let ghost ev = row.entries_view();
        let ghost base = columns_except(rv, i as int, ex);
        proof {
            lemma_entries_map_lookup(ev);
        }
        let mut k: usize = 0;
        assert(base.union(Set::new(|c: Seq<char>| !ex.contains(c) && exists|b: int| 0 <= b < 0 && #[trigger] ev[b].0 == c)) =~= base);
        while k < row.entries.len()
            invariant
                rv == rows_view(rows@),
                ex == strings_view(excluded@),
                row == rows@[i as int],
                ev == row.entries_view(),
                base == columns_except(rv, i as int, ex),
                i < rows@.len(),
                k <= row.entries@.len(),
                strictly_sorted(strings_view(rest@)),
                strings_view(rest@).to_set() == base.union(
                    Set::new(|c: Seq<char>| !ex.contains(c) && exists|b: int| 0 <= b < k && #[trigger] ev[b].0 == c),
                ),
            decreases row.entries@.len() - k,
        {
            let ghost before = Set::new(|c: Seq<char>| !ex.contains(c) && exists|b: int| 0 <= b < k && #[trigger] ev[b].0 == c);
            let ghost after = Set::new(|c: Seq<char>| !ex.contains(c) && exists|b: int| 0 <= b < k + 1 && #[trigger] ev[b].0 == c);
            let ghost name = ev[k as int].0;
            assert(name == row.entries@[k as int].0@);
            assert forall|c: Seq<char>| after.contains(c) <==> (before.contains(c) || (c == name && !ex.contains(c))) by {
                if after.contains(c) {
                    let b = choose|b: int| 0 <= b < k + 1 && #[trigger] ev[b].0 == c;
                    if b < k {
                        assert(before.contains(c));
                    }
                }
                if before.contains(c) {
                    let b = choose|b: int| 0 <= b < k && #[trigger] ev[b].0 == c;
                    assert(ev[b].0 == c && b < k + 1);
                }
                if c == name && !ex.contains(c) {
                    assert(ev[k as int].0 == c);
                }
            }
            let listed = find_name(excluded, &row.entries[k].0);
            if !listed {
                insert_sorted(&mut rest, &row.entries[k].0);
                assert(strings_view(rest@).to_set() =~= base.union(after));
            } else {
                assert(strings_view(rest@).to_set() =~= base.union(after));
            }
            k = k + 1;
        }
        assert(strings_view(rest@).to_set() =~= columns_except(rv, i + 1, ex)) by {
            assert(rv[i as int] == row@);
            assert forall|c: Seq<char>| #[trigger] columns_except(rv, i + 1, ex).contains(c) <==> strings_view(rest@).to_set().contains(c) by {
                if seen_in(rv, i + 1, c) && !seen_in(rv, i as int, c) {
                    assert(rv[i as int].contains_key(c));
                }
                if row@.contains_key(c) {
                    assert(rv[i as int].contains_key(c));
                    assert(seen_in(rv, i + 1, c));
                }
                if seen_in(rv, i as int, c) {
                    let a = choose|a: int| 0 <= a < i && #[trigger] rv[a].contains_key(c);
                    assert(seen_in(rv, i + 1, c));
                }
            }
        }
        i = i + 1;
    }
    rest
}

/// Whether `names` lists `name`.
fn find_name(names: &Vec<String>, name: &String) -> (r: bool)
    ensures
        r == strings_view(names@).contains(name@),
{
    let mut i: usize = 0;
    while i < names.len()
        invariant
            i <= names@.len(),
            forall|j: int| 0 <= j < i ==> #[trigger] names@[j]@ != name@,
        decreases names@.len() - i,
    {
        if names[i] == *name {
            assert(strings_view(names@)[i as int] == name@);
            return true;
        }
        i = i + 1;
    }
    assert forall|j: int| 0 <= j < strings_view(names@).len() implies strings_view(names@)[j] != name@ by {
        assert(strings_view(names@)[j] == names@[j]@);
    }
    false
}

/// The columns of the wide table: the timestamp first, then every other column
/// of any row once, in lexicographic order; none when there are no rows.
pub fn wide_columns(rows: &Vec<Row>) -> (r: Vec<String>)
    requires
        forall|i: int| 0 <= i < rows@.len() ==> #[trigger] rows@[i].wf(),
    ensures
        wide_columns_of(strings_view(r@), rows_view(rows@)),
{
    if rows.len() == 0 {
        let r: Vec<String> = Vec::new();
        assert(strings_view(r@).len() == 0);
        return r;
    }
    let excluded = vec!["timestamp".to_string()];
    let mut rest = sorted_columns_except(rows, &excluded);
    let ghost rest_v = strings_view(rest@);
    assert(strings_view(excluded@) =~= seq!["timestamp"@]);
    assert(columns_except(rows_view(rows@), rows@.len() as int, strings_view(excluded@)) =~= other_columns(
        rows_view(rows@),
        rows@.len() as int,
    )) by {
        assert forall|c: Seq<char>| seq!["timestamp"@].contains(c) <==> c == "timestamp"@ by {
            if c == "timestamp"@ {
                assert(seq!["timestamp"@][0] == c);
            }
        }
    }
    let mut r: Vec<String> = Vec::new();
    r.push("timestamp".to_string());
    r.append(&mut rest);
    assert(strings_view(r@).drop_first() =~= rest_v);
    r
}

/// Keys strictly ascending.
pub open spec fn keys_ascending(t: Seq<(int, Map<Seq<char>, CellV>)>) -> bool {
    forall|i: int, j: int| 0 <= i < j < t.len() ==> #[trigger] t[i].0 < #[trigger] t[j].0
}

/// Writing to a row adds no key below a bound that `k` and every key already
/// there exceed.
pub proof fn lemma_upsert_bound(
    t: Seq<(int, Map<Seq<char>, CellV>)>,
    k: int,
    w: Seq<(Seq<char>, CellV)>,
    b: int,
)
    requires
        b < k,
        forall|j: int| 0 <= j < t.len() ==> b < #[trigger] t[j].0,
    ensures
        forall|i: int| 0 <= i < upsert(t, k, w).len() ==> b < #[trigger] upsert(t, k, w)[i].0,
    decreases t.len(),
{
    let u = upsert(t, k, w);
    if t.len() > 0 && t[0].0 < k {
        let rest = t.drop_first();
        assert forall|j: int| 0 <= j < rest.len() implies b < #[trigger] rest[j].0 by {
            assert(rest[j] == t[j + 1]);
        }
        lemma_upsert_bound(rest, k, w, b);
        let ur = upsert(rest, k, w);
        assert forall|i: int| 0 <= i < u.len() implies b < #[trigger] u[i].0 by {
            if i > 0 {
                assert(u[i] == ur[i - 1]);
            }
        }
    } else if t.len() > 0 && t[0].0 > k {
        assert forall|i: int| 0 <= i < u.len() implies b < #[trigger] u[i].0 by {
            if i > 0 {
                assert(u[i] == t[i - 1]);
            }
        }
    }
}

/// Writing to a row keeps the keys strictly ascending.
pub proof fn lemma_upsert_ascending(
    t: Seq<(int, Map<Seq<char>, CellV>)>,
    k: int,
    w: Seq<(Seq<char>, CellV)>,
)
    requires
        keys_ascending(t),
    ensures
        keys_ascending(upsert(t, k, w)),
    decreases t.len(),
{
    let u = upsert(t, k, w);
    if t.len() == 0 {
    } else if t[0].0 == k {
    } else if t[0].0 > k {
        assert forall|i: int, j: int| 0 <= i < j < u.len() implies #[trigger] u[i].0 < #[trigger] u[j].0 by {
            if i > 0 {
                assert(u[i] == t[i - 1] && u[j] == t[j - 1]);
            } else {
                assert(u[j] == t[j - 1]);
                if j - 1 > 0 {
                    assert(t[0].0 < t[j - 1].0);
                }
            }
        }
    } else {
        let rest = t.drop_first();
        assert(keys_ascending(rest)) by {
            assert forall|i: int, j: int| 0 <= i < j < rest.len() implies #[trigger] rest[i].0
                < #[trigger] rest[j].0 by {
                assert(rest[i] == t[i + 1] && rest[j] == t[j + 1]);
            }
        }
        lemma_upsert_ascending(rest, k, w);
        assert forall|j: int| 0 <= j < rest.len() implies t[0].0 < #[trigger] rest[j].0 by {
            assert(rest[j] == t[j + 1]);
        }
        lemma_upsert_bound(rest, k, w, t[0].0);
        let ur = upsert(rest, k, w);
        assert forall|i: int, j: int| 0 <= i < j < u.len() implies #[trigger] u[i].0 < #[trigger] u[j].0 by {
            if i > 0 {
                assert(u[i] == ur[i - 1] && u[j] == ur[j - 1]);
            } else {
                assert(u[j] == ur[j - 1]);
            }
        }
    }
}

proof fn lemma_fold_devices_ascending(rows: Seq<Map<Seq<char>, CellV>>, cfg: ConfigV, extended: bool)
    ensures
        keys_ascending(fold_devices(rows, cfg, extended)),
    decreases rows.len(),
{
    if rows.len() > 0 {
        lemma_fold_devices_ascending(rows.drop_last(), cfg, extended);
        match row_key(rows.last()) {
            Some(k) => lemma_upsert_ascending(
                fold_devices(rows.drop_last(), cfg, extended),
                k,
                device_writes(rows.last(), cfg, extended),
            ),
            None => {},
        }
    }
}

proof fn lemma_fold_commands_ascending(
    t0: Seq<(int, Map<Seq<char>, CellV>)>,
    rows: Seq<Map<Seq<char>, CellV>>,
)
    requires
        keys_ascending(t0),
    ensures
        keys_ascending(fold_commands(t0, rows)),
    decreases rows.len(),
{
    if rows.len() > 0 {
        lemma_fold_commands_ascending(t0, rows.drop_last());
        match row_key(rows.last()) {
            Some(k) => lemma_upsert_ascending(
                fold_commands(t0, rows.drop_last()),
                k,
                command_writes(rows.last()),
            ),
            None => {},
        }
    }
}

/// The rows of a wide table come in strictly ascending order of timestamp.
pub proof fn lemma_merged_ascending(
    devices: Seq<Map<Seq<char>, CellV>>,
    commands: Seq<Map<Seq<char>, CellV>>,
    cfg: ConfigV,
    extended: bool,
)
    ensures
        keys_ascending(merged(devices, commands, cfg, extended)),
{
    lemma_fold_devices_ascending(devices, cfg, extended);
    lemma_fold_commands_ascending(fold_devices(devices, cfg, extended), commands);
}

/// After writes, a row has every column it had and every column written.
pub proof fn lemma_apply_writes_keys(m: Map<Seq<char>, CellV>, w: Seq<(Seq<char>, CellV)>)
    ensures
        forall|c: Seq<char>| m.contains_key(c) ==> #[trigger] apply_writes(m, w).contains_key(c),
        forall|i: int| 0 <= i < w.len() ==> #[trigger] apply_writes(m, w).contains_key(w[i].0),
    decreases w.len(),
{
    if w.len() > 0 {
        lemma_apply_writes_keys(m, w.drop_last());
        assert forall|c: Seq<char>| m.contains_key(c) implies #[trigger] apply_writes(
            m,
            w,
        ).contains_key(c) by {
            assert(apply_writes(m, w.drop_last()).contains_key(c));
        }
        assert forall|i: int| 0 <= i < w.len() implies #[trigger] apply_writes(m, w).contains_key(
            w[i].0,
        ) by {
            if i < w.len() - 1 {
                assert(w.drop_last()[i] == w[i]);
                assert(apply_writes(m, w.drop_last()).contains_key(w.drop_last()[i].0));
            }
        }
    }
}

/// A device row and a command row with the same timestamp merge into exactly one
/// row of the wide table, keyed by that timestamp, holding every column the
/// device row writes and every column the command row writes.
pub proof fn lemma_same_timestamp_one_row(
    device: Map<Seq<char>, CellV>,
    command: Map<Seq<char>, CellV>,
    cfg: ConfigV,
    extended: bool,
)
    requires
        row_key(device) is Some,
        row_key(command) == row_key(device),
    ensures
        ({
            let t = merged(seq![device], seq![command], cfg, extended);
            let dw = device_writes(device, cfg, extended);
            let cw = command_writes(command);
            &&& t.len() == 1
            &&& Some(t[0].0) == row_key(device)
            &&& t[0].1.contains_key("timestamp"@)
            &&& forall|i: int| 0 <= i < dw.len() ==> t[0].1.contains_key(#[trigger] dw[i].0)
            &&& forall|i: int| 0 <= i < cw.len() ==> t[0].1.contains_key(#[trigger] cw[i].0)
        }),
{
    let k = row_key(device)->0;
    let dw = device_writes(device, cfg, extended);
    let cw = command_writes(command);
    assert(seq![device].drop_last() =~= Seq::<Map<Seq<char>, CellV>>::empty());
    assert(seq![command].drop_last() =~= Seq::<Map<Seq<char>, CellV>>::empty());
    let empty = Seq::<(int, Map<Seq<char>, CellV>)>::empty();
    assert(fold_devices(seq![device].drop_last(), cfg, extended) == empty);
    assert(seq![device].last() == device);
    assert(seq![command].last() == command);
    let t1 = fold_devices(seq![device], cfg, extended);
    assert(upsert(empty, k, dw) == seq![(k, apply_writes(init_row(k), dw))]);
    assert(t1 == seq![(k, apply_writes(init_row(k), dw))]);
    let row1 = apply_writes(init_row(k), dw);
    assert(fold_commands(t1, seq![command].drop_last()) == t1);
    assert(upsert(t1, k, cw) == t1.update(0, (k, apply_writes(row1, cw))));
    let t = merged(seq![device], seq![command], cfg, extended);
    assert(t == t1.update(0, (k, apply_writes(row1, cw))));
    lemma_apply_writes_keys(init_row(k), dw);
    lemma_apply_writes_keys(row1, cw);
    assert(init_row(k).contains_key("timestamp"@));
    assert forall|i: int| 0 <= i < dw.len() implies t[0].1.contains_key(#[trigger] dw[i].0) by {
        assert(row1.contains_key(dw[i].0));
    }
}

/// A payload field whose value is null writes nothing: from `{"x": 1, "y": null}`
/// with fields `x` and `y` and no renaming, only `x` is written, under the
/// device's prefix.
pub proof fn lemma_null_field_skipped(dev: Seq<char>, cfg: ConfigV)
    requires
        cfg.mapping.len() == 0,
    ensures
        extract_writes(
            seq![("x"@, CellV::Int(1)), ("y"@, CellV::Null)],
            Some(dev),
            seq!["x"@, "y"@],
            cfg,
        ) == seq![(dev + "_"@ + "x"@, CellV::Int(1))],
{
    reveal_strlit("x");
    reveal_strlit("y");
    let payload = seq![("x"@, CellV::Int(1)), ("y"@, CellV::Null)];
    let fields = seq!["x"@, "y"@];
    assert("x"@ != "y"@) by {
        assert("x"@[0] != "y"@[0]);
    }
    assert(payload.drop_first() =~= seq![("y"@, CellV::Null)]);
    assert(payload.drop_first().drop_first() =~= Seq::<(Seq<char>, CellV)>::empty());
    assert(first_value(payload, "x"@) == Some(CellV::Int(1)));
    assert(first_value(payload.drop_first(), "y"@) == Some(CellV::Null));
    assert(first_value(payload, "y"@) == Some(CellV::Null));
    assert(first_value(cfg.mapping, "x"@) is None);
    assert(fields.drop_last() =~= seq!["x"@]);
    assert(seq!["x"@].drop_last() =~= Seq::<Seq<char>>::empty());
    assert(extract_writes(payload, Some(dev), seq!["x"@].drop_last(), cfg) == Seq::<
        (Seq<char>, CellV),
    >::empty());
    assert(seq!["x"@].last() == "x"@);
    assert(fields.last() == "y"@);
    assert(extract_writes(payload, Some(dev), seq!["x"@], cfg) =~= seq![
        (dev + "_"@ + "x"@, CellV::Int(1)),
    ]);
}

} // verus!

//! The remote script and the shell commands that carry it.
//!
//! The script opens the database, runs the statement, and writes the result as
//! gzip-compressed delimited text to its temporary file; on success it prints
//! only that file's path, and on failure it removes the file, prints one JSON
//! object with an `error` field to standard error, and exits non-zero. The path,
//! database and statement reach it as base64 text only.
use vstd::prelude::*;
use vstd::string::StringSliceAdditionalSpecFns;
use crate::encoding::{b64_encode, encode_text};
use crate::text::{chars_of, string_of_range};

verus! {

pub const SCRIPT_HEAD: &'static str = "import sqlite3\nimport csv\nimport gzip\nimport sys\nimport base64\nimport os\nimport json\n\ntemp_file = \"";

pub const SCRIPT_DB: &'static str = "\"\ntry:\n    db_path = base64.b64decode(\"";

pub const SCRIPT_SQL: &'static str = "\").decode('utf-8')\n    sql = base64.b64decode(\"";

pub const SCRIPT_TAIL: &'static str = "\").decode('utf-8')\n    conn = sqlite3.connect(db_path)\n    cursor = conn.cursor()\n    cursor.execute(sql)\n    columns = [d[0] for d in cursor.description] if cursor.description else []\n    with gzip.open(temp_file, 'wt', encoding='utf-8', newline='', compresslevel=9) as gz_file:\n        if columns:\n            writer = csv.writer(gz_file)\n            writer.writerow(columns)\n            while True:\n                batch = cursor.fetchmany(1000)\n                if not batch:\n                    break\n                for row in batch:\n                    writer.writerow(['' if v is None else str(v) for v in row])\n    conn.close()\n    print(temp_file)\n    sys.exit(0)\nexcept Exception as e:\n    try:\n        os.remove(temp_file)\n    except OSError:\n        pass\n    print(json.dumps({\"error\": str(e)}, ensure_ascii=False), file=sys.stderr)\n    sys.exit(1)\n";

/// The script for one query: `temp` is where it writes, `db64` and `sql64` the
/// base64 texts of the database path and the statement.
pub open spec fn query_script(temp: Seq<char>, db64: Seq<char>, sql64: Seq<char>) -> Seq<char> {
    SCRIPT_HEAD@ + temp + SCRIPT_DB@ + db64 + SCRIPT_SQL@ + sql64 + SCRIPT_TAIL@
}

pub open spec fn is_lower_hex(c: char) -> bool {
    ('0' <= c && c <= '9') || ('a' <= c && c <= 'f')
}

/// A token of 32 lower-case hexadecimal digits.
pub open spec fn is_token(t: Seq<char>) -> bool {
    t.len() == 32 && forall|i: int| 0 <= i < t.len() ==> is_lower_hex(#[trigger] t[i])
}

/// Relies on `uuid::Uuid::new_v4` and `Simple::encode_lower`: a random identifier
/// written as 32 lower-case hexadecimal digits.
#[verifier::external_body]
fn fresh_token() -> (r: String)
    ensures
        is_token(r@),
{
    let mut buf = [0u8; 32];
    uuid::Uuid::new_v4().simple().encode_lower(&mut buf).to_string()
}

/// The remote path of the result file named by `token`.
pub open spec fn temp_path_for(token: Seq<char>) -> Seq<char> {
    "/tmp/query_result_"@ + token + ".csv.gz"@
}

/// The heredoc delimiter named by the first eight digits of `token`.
pub open spec fn delimiter_for(token: Seq<char>) -> Seq<char> {
    "PYTHON_SCRIPT_EOF_"@ + token.subrange(0, 8)
}

/// The interpreters the script is run with: the primary one first.
#[derive(Clone, Copy, Debug, PartialEq, Eq, Structural)]
pub enum Interpreter {
    Primary,
    Alternate,
}

pub open spec fn interpreter_name(i: Interpreter) -> Seq<char> {
    match i {
        Interpreter::Primary => "python3"@,
        Interpreter::Alternate => "python"@,
    }
}

/// The shell command that feeds `script` to `interp` through a heredoc closed by
/// `delim`.
pub open spec fn heredoc_command(interp: Interpreter, delim: Seq<char>, script: Seq<char>) -> Seq<
    char,
> {
    interpreter_name(interp) + " << '"@ + delim + "'\n"@ + script + "\n"@ + delim
}

/// The command that removes `path`, and succeeds whether or not it exists.
pub open spec fn cleanup_command(path: Seq<char>) -> Seq<char> {
    "rm -f '"@ + path + "'"@
}

/// The command that prints the size of `path` when it exists and `missing`
/// otherwise.
pub open spec fn probe_command(path: Seq<char>) -> Seq<char> {
    "if [ -f '"@ + path + "' ]; then wc -c < '"@ + path + "'; else echo missing; fi"@
}

/// Everything one query run sends: the script, where it writes, and the heredoc
/// delimiter.
#[derive(Debug)]
pub struct ScriptJob {
    pub script: String,
    pub temp_path: String,
    pub delimiter: String,
}

impl ScriptJob {
    /// The script writes to `temp_path`, decodes `db_path` and `sql` from base64,
    /// and both the path and the delimiter carry fresh random tokens.
    pub open spec fn built_from(&self, db_path: Seq<u8>, sql: Seq<u8>) -> bool {
        &&& exists|t: Seq<char>| is_token(t) && self.temp_path@ == temp_path_for(t)
        &&& exists|t: Seq<char>| is_token(t) && self.delimiter@ == delimiter_for(t)
        &&& self.script@ == query_script(self.temp_path@, b64_encode(db_path), b64_encode(sql))
    }
}

/// The script that runs `sql` on the database at `db_path`, with a fresh result
/// path and a fresh heredoc delimiter.
pub fn build_job(db_path: &str, sql: &str) -> (r: ScriptJob)
    ensures
        r.built_from(db_path.spec_bytes(), sql.spec_bytes()),
{
    let token = fresh_token();
    let mut temp_path = String::new();
    temp_path.append("/tmp/query_result_");
    temp_path.append(token.as_str());
    temp_path.append(".csv.gz");
    assert(temp_path@ =~= temp_path_for(token@));
    let mark = fresh_token();
    let mark_chars = chars_of(mark.as_str());
    let short = string_of_range(&mark_chars, 0, 8);
    let mut delimiter = String::new();
    delimiter.append("PYTHON_SCRIPT_EOF_");
    delimiter.append(short.as_str());
    assert(delimiter@ =~= delimiter_for(mark@));
    let db64 = encode_text(db_path);
    let sql64 = encode_text(sql);
    let mut script = String::new();
    script.append(SCRIPT_HEAD);
    script.append(temp_path.as_str());
    script.append(SCRIPT_DB);
    script.append(db64.as_str());
    script.append(SCRIPT_SQL);
    script.append(sql64.as_str());
    script.append(SCRIPT_TAIL);
    assert(script@ =~= query_script(temp_path@, db64@, sql64@));
    ScriptJob { script, temp_path, delimiter }
}

/// The command that runs the job's script with `interp`.
pub fn command_for(job: &ScriptJob, interp: Interpreter) -> (r: String)
    ensures
        r@ == heredoc_command(interp, job.delimiter@, job.script@),
{
    let mut r = String::new();
    match interp {
        Interpreter::Primary => r.append("python3"),
        Interpreter::Alternate => r.append("python"),
    }
    r.append(" << '");
    r.append(job.delimiter.as_str());
    r.append("'\n");
    r.append(job.script.as_str());
    r.append("\n");
    r.append(job.delimiter.as_str());
    assert(r@ =~= heredoc_command(interp, job.delimiter@, job.script@));
    r
}

/// The command that removes `path`, tolerating its absence.
pub fn remove_command(path: &str) -> (r: String)
    ensures
        r@ == cleanup_command(path@),
{
    let mut r = String::new();
    r.append("rm -f '");
    r.append(path);
    r.append("'");
    assert(r@ =~= cleanup_command(path@));
    r
}

/// The command that reports the size of `path`, or `missing`.
pub fn existence_command(path: &str) -> (r: String)
    ensures
        r@ == probe_command(path@),
{
    let mut r = String::new();
    r.append("if [ -f '");
    r.append(path);
    r.append("' ]; then wc -c < '");
    r.append(path);
    r.append("'; else echo missing; fi");
    assert(r@ =~= probe_command(path@));
    r
}


/// The tables that can be exported directly to a file.
#[derive(Clone, Copy, Debug, PartialEq, Eq, Structural)]
pub enum ExportTable {
    /// The wide table, filtered on its millisecond `local_timestamp`.
    WideTable,
    /// The demand results, filtered on their `timestamp` in seconds.
    DemandResults,
}

pub const EXPORT_HEAD: &'static str = "import sqlite3\nimport csv\nimport gzip\nimport sys\nimport base64\nimport os\nimport json\nfrom datetime import datetime, timezone, timedelta\n\ntemp_file = \"";

pub const EXPORT_DB: &'static str = "\"\ntry:\n    db_path = base64.b64decode(\"";

pub const EXPORT_START: &'static str = "\").decode('utf-8')\n    start_time = ";

pub const EXPORT_END: &'static str = "\n    end_time = ";

pub const WIDE_EXPORT_TAIL: &'static str = "\n    beijing_tz = timezone(timedelta(hours=8))\n    def shown(ms):\n        try:\n            dt = datetime.fromtimestamp(ms / 1000.0, tz=timezone.utc).astimezone(beijing_tz)\n            return \"'\" + dt.strftime(\"%Y-%m-%d %H:%M:%S\") + \".{0:03d}\".format(int(ms % 1000))\n        except (ValueError, OSError, OverflowError):\n            return \"'\" + str(ms)\n    conn = sqlite3.connect(db_path)\n    cursor = conn.cursor()\n    cursor.execute(\"SELECT * FROM data_wide WHERE local_timestamp >= ? AND local_timestamp <= ? ORDER BY local_timestamp\", (start_time * 1000, end_time * 1000))\n    columns = [d[0] for d in cursor.description] if cursor.description else []\n    with gzip.open(temp_file, 'wt', encoding='utf-8', newline='', compresslevel=9) as gz_file:\n        if columns:\n            writer = csv.writer(gz_file, quoting=csv.QUOTE_NONNUMERIC)\n            writer.writerow(columns)\n            while True:\n                batch = cursor.fetchmany(1000)\n                if not batch:\n                    break\n                for row in batch:\n                    out = []\n                    for col, v in zip(columns, row):\n                        if v is None:\n                            out.append('')\n                        elif col == 'local_timestamp':\n                            out.append(shown(v))\n                        elif isinstance(v, (int, float)):\n                            out.append(v)\n                        else:\n                            out.append(str(v))\n                    writer.writerow(out)\n    conn.close()\n    print(temp_file)\n    sys.exit(0)\nexcept Exception as e:\n    try:\n        os.remove(temp_file)\n    except OSError:\n        pass\n    print(json.dumps({\"error\": str(e)}, ensure_ascii=False), file=sys.stderr)\n    sys.exit(1)\n";

pub const DEMAND_EXPORT_TAIL: &'static str = "\n    beijing_tz = timezone(timedelta(hours=8))\n    def shown(ts):\n        if ts is None:\n            return ''\n        try:\n            dt = datetime.fromtimestamp(ts, tz=timezone.utc).astimezone(beijing_tz)\n            return \"'\" + dt.strftime(\"%Y-%m-%d %H:%M:%S\")\n        except (ValueError, OSError, OverflowError):\n            return \"'\" + str(ts)\n    conn = sqlite3.connect(db_path)\n    cursor = conn.cursor()\n    cursor.execute(\"SELECT id, timestamp, meter_sn, calculated_demand FROM demand_results WHERE timestamp >= ? AND timestamp <= ? ORDER BY timestamp ASC\", (start_time, end_time))\n    with gzip.open(temp_file, 'wt', encoding='utf-8', newline='', compresslevel=9) as gz_file:\n        writer = csv.writer(gz_file, quoting=csv.QUOTE_NONNUMERIC)\n        writer.writerow(['id', 'timestamp', 'meter_sn', 'calculated_demand'])\n        while True:\n            batch = cursor.fetchmany(1000)\n            if not batch:\n                break\n            for row in batch:\n                writer.writerow([\n                    row[0] if row[0] is not None else '',\n                    shown(row[1]),\n                    row[2] if row[2] is not None else '',\n                    row[3] if row[3] is not None else 0.0,\n                ])\n    conn.close()\n    print(temp_file)\n    sys.exit(0)\nexcept Exception as e:\n    try:\n        os.remove(temp_file)\n    except OSError:\n        pass\n    print(json.dumps({\"error\": str(e)}, ensure_ascii=False), file=sys.stderr)\n    sys.exit(1)\n";

pub open spec fn export_tail(table: ExportTable) -> Seq<char> {
    match table {
        ExportTable::WideTable => WIDE_EXPORT_TAIL@,
        ExportTable::DemandResults => DEMAND_EXPORT_TAIL@,
    }
}

/// The script of a direct export: it writes the rows of `table` between `start`
/// and `end` (seconds, both included) as delimited text, numbers unquoted and
/// times shown at UTC+8, to `temp`, and prints that path.
pub open spec fn export_script(table: ExportTable, temp: Seq<char>, db64: Seq<char>, start: int, end: int) -> Seq<char> {
    EXPORT_HEAD@ + temp + EXPORT_DB@ + db64 + EXPORT_START@ + crate::sql::decimal_text(start) + EXPORT_END@
        + crate::sql::decimal_text(end) + export_tail(table)
}

/// The job of a direct export of `table` from the database at `db_path`.
pub fn build_export_job(table: ExportTable, db_path: &str, start: i64, end: i64) -> (r: ScriptJob)
    ensures
        exists|t: Seq<char>| is_token(t) && r.temp_path@ == temp_path_for(t),
        exists|t: Seq<char>| is_token(t) && r.delimiter@ == delimiter_for(t),
        r.script@ == export_script(table, r.temp_path@, b64_encode(db_path.spec_bytes()), start as int, end as int),
{
    let token = fresh_token();
    let mut temp_path = String::new();
    temp_path.append("/tmp/query_result_");
    temp_path.append(token.as_str());
    temp_path.append(".csv.gz");
    assert(temp_path@ =~= temp_path_for(token@));
    let mark = fresh_token();
    let mark_chars = chars_of(mark.as_str());
    let short = string_of_range(&mark_chars, 0, 8);
    let mut delimiter = String::new();
    delimiter.append("PYTHON_SCRIPT_EOF_");
    delimiter.append(short.as_str());
    assert(delimiter@ =~= delimiter_for(mark@));
    let db64 = encode_text(db_path);
    let mut script = String::new();
    script.append(EXPORT_HEAD);
    script.append(temp_path.as_str());
    script.append(EXPORT_DB);
    script.append(db64.as_str());
    script.append(EXPORT_START);
    script.append(crate::sql::int_to_text(start).as_str());
    script.append(EXPORT_END);
    script.append(crate::sql::int_to_text(end).as_str());
    match table {
        ExportTable::WideTable => script.append(WIDE_EXPORT_TAIL),
        ExportTable::DemandResults => script.append(DEMAND_EXPORT_TAIL),
    }
    assert(script@ =~= export_script(table, temp_path@, db64@, start as int, end as int));
    ScriptJob { script, temp_path, delimiter }
}

} // verus!

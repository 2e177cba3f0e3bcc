//! Decisions of the service deployment: connection settings, reading the
//! output of status checks, what a deployment stops, starts or restarts, and the
//! text shown for its files.
use vstd::prelude::*;
use crate::sql::{digits_text, int_to_text};
use crate::text::{chars_of, contains_str, contains_text, lower_of, lowercase, trim, trimmed};

verus! {

/// Where and how to reach the remote host.
#[derive(Debug)]
pub struct SshConfig {
    pub host: String,
    pub port: u16,
    pub username: String,
    pub password: Option<String>,
    pub key_file: Option<String>,
}

/// Connection settings as the user interface sends them.
#[derive(Debug)]
pub struct SshConfigDto {
    pub host: String,
    pub port: u16,
    pub username: String,
    pub password: Option<String>,
    pub key_file: Option<String>,
}

impl SshConfig {
    /// The settings carried by `dto`, field for field.
    pub fn from_dto(dto: SshConfigDto) -> (r: SshConfig)
        ensures
            r.host == dto.host,
            r.port == dto.port,
            r.username == dto.username,
            r.password == dto.password,
            r.key_file == dto.key_file,
    {
        SshConfig {
            host: dto.host,
            port: dto.port,
            username: dto.username,
            password: dto.password,
            key_file: dto.key_file,
        }
    }
}

/// What a deployment uploads and does.
#[derive(Debug)]
pub struct DeployConfig {
    pub binary_path: Option<String>,
    pub config_path: Option<String>,
    pub topo_path: Option<String>,
    pub upload_binary: Option<bool>,
    pub upload_config: bool,
    pub upload_topo: bool,
    pub use_root: bool,
    pub start_service: bool,
}

/// What the status checks found on the remote host.
#[derive(Clone, Copy, Debug, PartialEq, Eq, Structural)]
pub struct DeployStatus {
    pub installed: bool,
    pub service_exists: bool,
    pub service_running: bool,
    pub service_enabled: bool,
}

pub open spec fn benign_patterns() -> Seq<Seq<char>> {
    seq![
        "unable to resolve host"@,
        "unable to resolve hostname"@,
        "sudo: unable to resolve host"@,
        "sudo: unable to resolve hostname"@,
    ]
}

/// Command output worth showing: the trimmed text, unless it is empty or, in
/// lower case, holds a warning about an unresolvable host name.
pub open spec fn shown_output(text: Seq<char>) -> Option<Seq<char>> {
    let t = trimmed(text);
    if t.len() == 0 {
        None
    } else if exists|i: int|
        0 <= i < benign_patterns().len() && contains_text(lower_of(t), #[trigger] benign_patterns()[i]) {
        None
    } else {
        Some(t)
    }
}

/// The trimmed output, or `None` when it is empty or only a harmless warning.
pub fn filter_benign_warnings(text: &str) -> (r: Option<String>)
    ensures
        match r {
            Some(s) => shown_output(text@) == Some(s@),
            None => shown_output(text@) is None,
        },
{
    let t = trim(text);
    if t.unicode_len() == 0 {
        return None;
    }
    let lower = lowercase(t.as_str());
    let patterns = vec![
        "unable to resolve host".to_string(),
        "unable to resolve hostname".to_string(),
        "sudo: unable to resolve host".to_string(),
        "sudo: unable to resolve hostname".to_string(),
    ];
    assert(crate::table::strings_view(patterns@) =~= benign_patterns());
    let mut i: usize = 0;
    while i < patterns.len()
        invariant
            crate::table::strings_view(patterns@) == benign_patterns(),
            lower@ == lower_of(t@),
            t@ == trimmed(text@),
            t@.len() > 0,
            i <= patterns@.len(),
            forall|j: int| 0 <= j < i ==> !contains_text(lower@, #[trigger] benign_patterns()[j]),
        decreases patterns@.len() - i,
    {
        assert(patterns@[i as int]@ == benign_patterns()[i as int]);
        if contains_str(lower.as_str(), patterns[i].as_str()) {
            assert(contains_text(lower_of(t@), benign_patterns()[i as int]));
            return None;
        }
        i = i + 1;
    }
    Some(t)
}

/// `n / d` rounded to the nearest integer, ties to the even one.
pub open spec fn round_half_even(n: int, d: int) -> int {
    let q = n / d;
    let r = n % d;
    if 2 * r > d || (2 * r == d && q % 2 == 1) {
        q + 1
    } else {
        q
    }
}

pub open spec fn digit_char(d: int) -> char {
    (d + '0' as int) as char
}

/// `h` hundredths written with two decimals.
pub open spec fn two_decimals(h: nat) -> Seq<char> {
    digits_text(h / 100) + seq!['.', digit_char(((h / 10) % 10) as int), digit_char((h % 10) as int)]
}

/// A size in bytes as shown: whole bytes below one KiB, else KiB below one MiB,
/// else MiB, with two decimals.
pub open spec fn size_text(size: nat) -> Seq<char> {
    if size < 1024 {
        digits_text(size) + " B"@
    } else if size < 1048576 {
        two_decimals(round_half_even((size * 100) as int, 1024) as nat) + " KB"@
    } else {
        two_decimals(round_half_even((size * 100) as int, 1048576) as nat) + " MB"@
    }
}

fn round_div(n: u128, d: u128) -> (r: u128)
    requires
        0 < d <= 1048576,
        n <= 2_000_000_000_000_000_000_000,
    ensures
        r as int == round_half_even(n as int, d as int),
{
    let q = n / d;
    let rem = n % d;
    if 2 * rem > d || (2 * rem == d && q % 2 == 1) {
        q + 1
    } else {
        q
    }
}

fn hundredths_text(h: u128) -> (r: String)
    requires
        h < 1_000_000_000_000_000_000,
    ensures
        r@ == two_decimals(h as nat),
{
    let whole = (h / 100) as i64;
    let tens = ((h / 10) % 10) as u8;
    let ones = (h % 10) as u8;
    proof {
        assert(digits_text((h / 100) as nat) == crate::sql::decimal_text(whole as int));
    }
    let mut out = String::new();
    out.append(int_to_text(whole).as_str());
    out.push('.');
    out.push((tens + 48) as char);
    out.push((ones + 48) as char);
    assert(out@ =~= two_decimals(h as nat));
    out
}

/// A size in bytes as shown: `512 B`, `1.50 KB`, `2.00 MB`.
pub fn format_file_size(size: u64) -> (r: String)
    ensures
        r@ == size_text(size as nat),
{
    let mut r: String;
    if size < 1024 {
        r = int_to_text(size as i64);
        proof {
            assert(crate::sql::decimal_text(size as int) == digits_text(size as nat));
        }
        r.append(" B");
    } else if size < 1048576 {
        let h = round_div(size as u128 * 100, 1024);
        assert(h <= 102400);
        r = hundredths_text(h);
        r.append(" KB");
    } else {
        let h = round_div(size as u128 * 100, 1048576);
        assert(h <= 1_800_000_000_000_000) by (nonlinear_arith)
            requires
                h as int == round_half_even(size as int * 100, 1048576),
                size <= u64::MAX,
        ;
        r = hundredths_text(h);
        r.append(" MB");
    }
    r
}

/// `Some(true)` for a line reading `pos`, `Some(false)` for one reading `neg`.
pub open spec fn line_marker(line: Seq<char>, pos: Seq<char>, neg: Seq<char>) -> Option<bool> {
    if line == pos {
        Some(true)
    } else if line == neg {
        Some(false)
    } else {
        None
    }
}

/// The marker of the first line of `s` from `start` on that trims to `pos` or to
/// `neg`; lines end at line feeds, `i` is where the scan stands.
pub open spec fn scan_lines(s: Seq<char>, start: int, i: int, pos: Seq<char>, neg: Seq<char>) -> Option<
    bool,
>
    decreases s.len() - i,
{
    if i >= s.len() {
        line_marker(trimmed(s.subrange(start, s.len() as int)), pos, neg)
    } else if s[i] == '\n' {
        match line_marker(trimmed(s.subrange(start, i)), pos, neg) {
            Some(b) => Some(b),
            None => scan_lines(s, i + 1, i + 1, pos, neg),
        }
    } else {
        scan_lines(s, start, i + 1, pos, neg)
    }
}

/// What a check's output says: the first line that reads `pos` or `neg`; failing
/// that, whether the lower-case output holds `pos` without `neg`, or `neg`.
pub open spec fn marker_of(s: Seq<char>, pos: Seq<char>, neg: Seq<char>) -> Option<bool> {
    match scan_lines(s, 0, 0, pos, neg) {
        Some(b) => Some(b),
        None => {
            let low = lower_of(s);
            if contains_text(low, pos) && !contains_text(low, neg) {
                Some(true)
            } else if contains_text(low, neg) {
                Some(false)
            } else {
                None
            }
        },
    }
}

fn line_marker_exec(line: &String, pos: &String, neg: &String) -> (r: Option<bool>)
    ensures
        r == line_marker(line@, pos@, neg@),
{
    if *line == *pos {
        Some(true)
    } else if *line == *neg {
        Some(false)
    } else {
        None
    }
}

/// What a status check printed: `pos` or `neg` on a line of its own, or else in
/// the text; `None` when neither appears.
pub fn parse_marker(output: &str, pos: &String, neg: &String) -> (r: Option<bool>)
    ensures
        r == marker_of(output@, pos@, neg@),
{
    let cs = chars_of(output);
    let n = cs.len();
    let mut start: usize = 0;
    let mut i: usize = 0;
    let mut found: Option<bool> = None;
    while i < n && found.is_none()
        invariant
            cs@ == output@,
            n == cs@.len(),
            start <= i <= n,
            found is Some ==> found == scan_lines(output@, 0, 0, pos@, neg@),
            found is None ==> scan_lines(output@, 0, 0, pos@, neg@) == scan_lines(
                output@,
                start as int,
                i as int,
                pos@,
                neg@,
            ),
        decreases n - i,
    {
        if cs[i] == '\n' {
            let line = trim(crate::text::string_of_range(&cs, start, i).as_str());
            match line_marker_exec(&line, pos, neg) {
                Some(b) => {
                    found = Some(b);
                },
                None => {
                    start = i + 1;
                },
            }
        }
        i = i + 1;
    }
    if found.is_none() {
        let line = trim(crate::text::string_of_range(&cs, start, n).as_str());
        found = line_marker_exec(&line, pos, neg);
    }
    match found {
        Some(b) => Some(b),
        None => {
            let low = lowercase(output);
            let has_pos = contains_str(low.as_str(), pos.as_str());
            let has_neg = contains_str(low.as_str(), neg.as_str());
            if has_pos && !has_neg {
                Some(true)
            } else if has_neg {
                Some(false)
            } else {
                None
            }
        },
    }
}

/// The output of a check that printed `exists` or `not_exists`, read as a flag;
/// a check that failed, or said neither, counts as `false`.
pub open spec fn exists_flag(out: Option<Seq<char>>) -> bool {
    match out {
        Some(o) => marker_of(o, "exists"@, "not_exists"@) == Some(true),
        None => false,
    }
}

/// The output of a check that printed `pos` or `neg`, read as a flag.
pub open spec fn state_flag(out: Option<Seq<char>>, pos: Seq<char>, neg: Seq<char>) -> bool {
    match out {
        Some(o) => marker_of(o, pos, neg) == Some(true),
        None => false,
    }
}

pub open spec fn opt_text(o: Option<String>) -> Option<Seq<char>> {
    match o {
        Some(s) => Some(s@),
        None => None,
    }
}

fn read_flag(out: &Option<String>, pos: &str, neg: &str) -> (r: bool)
    ensures
        r == state_flag(opt_text(*out), pos@, neg@),
{
    match out {
        Some(o) => {
            let p = pos.to_owned();
            let n = neg.to_owned();
            match parse_marker(o.as_str(), &p, &n) {
                Some(b) => b,
                None => false,
            }
        },
        None => false,
    }
}

/// The deployment status that the outputs of the four checks show: the binary
/// check, the service file check, and, only where the service file exists, the
/// activity and enablement checks. `None` stands for a check that failed.
pub fn status_from_outputs(
    binary: &Option<String>,
    service_file: &Option<String>,
    active: &Option<String>,
    enabled: &Option<String>,
) -> (r: DeployStatus)
    ensures
        r.installed == exists_flag(opt_text(*binary)),
        r.service_exists == exists_flag(opt_text(*service_file)),
        r.service_running == (r.service_exists && state_flag(
            opt_text(*active),
            "active"@,
            "inactive"@,
        )),
        r.service_enabled == (r.service_exists && state_flag(
            opt_text(*enabled),
            "enabled"@,
            "disabled"@,
        )),
{
    let installed = read_flag(binary, "exists", "not_exists");
    let service_exists = read_flag(service_file, "exists", "not_exists");
    let mut service_running = false;
    let mut service_enabled = false;
    if service_exists {
        service_running = read_flag(active, "active", "inactive");
        service_enabled = read_flag(enabled, "enabled", "disabled");
    }
    DeployStatus { installed, service_exists, service_running, service_enabled }
}

/// What a deployment does to the service around its uploads.
#[derive(Clone, Copy, Debug, PartialEq, Eq, Structural)]
pub struct DeployPlan {
    /// Stop the service before uploading.
    pub stop_first: bool,
    /// Create the service user and give it the install directory.
    pub create_user: bool,
    /// Enable the service and bring it up afterwards.
    pub activate: bool,
    /// Bring it up by restarting rather than starting.
    pub restart: bool,
}

/// The plan for `config` on a host in state `status`: a running service whose
/// configuration or topology is replaced is restarted, and enabled even when no
/// start was asked for; a running installed service is stopped first.
pub fn plan_deploy(config: &DeployConfig, status: &DeployStatus) -> (r: DeployPlan)
    ensures
        r.restart == (status.service_running && (config.upload_config || config.upload_topo)),
        r.stop_first == ((status.installed && status.service_running) || r.restart),
        r.create_user == !config.use_root,
        r.activate == (config.start_service || r.restart),
{
    let restart = status.service_running && (config.upload_config || config.upload_topo);
    DeployPlan {
        stop_first: (status.installed && status.service_running) || restart,
        create_user: !config.use_root,
        activate: config.start_service || restart,
        restart,
    }
}

pub const SERVICE_UNIT_ROOT: &'static str = "[Unit]\nDescription=Analysis Data Collector\nAfter=network.target\n\n[Service]\nType=simple\nWorkingDirectory=/opt/analysis\nExecStart=/opt/analysis/bin/analysis-collector --config /opt/analysis/config.toml\nRestart=always\nRestartSec=5\n\n[Install]\nWantedBy=multi-user.target";

pub const SERVICE_UNIT_USER: &'static str = "[Unit]\nDescription=Analysis Data Collector\nAfter=network.target\n\n[Service]\nType=simple\nUser=analysis\nWorkingDirectory=/opt/analysis\nExecStart=/opt/analysis/bin/analysis-collector --config /opt/analysis/config.toml\nRestart=always\nRestartSec=5\n\n[Install]\nWantedBy=multi-user.target";

/// The systemd unit of the service: run as root, or as the service user.
pub fn service_unit(use_root: bool) -> (r: String)
    ensures
        r@ == (if use_root {
            SERVICE_UNIT_ROOT@
        } else {
            SERVICE_UNIT_USER@
        }),
{
    if use_root {
        SERVICE_UNIT_ROOT.to_owned()
    } else {
        SERVICE_UNIT_USER.to_owned()
    }
}

} // verus!

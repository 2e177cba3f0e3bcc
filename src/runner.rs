//! The decisions of one remote query run, as a state machine.
//!
//! The caller performs each action on the remote host and hands back what
//! happened as the next event. The script runs under the primary interpreter,
//! and once more under the alternate one when the first is reported missing. A
//! reported result file is probed, then downloaded. Every path to a final
//! outcome passes through one removal of the remote result file, whose own
//! outcome does not matter.
use vstd::prelude::*;
use crate::error::{ErrorV, QueryError};
use crate::script::{
    ScriptJob,
    Interpreter,
    cleanup_command,
    command_for,
    existence_command,
    heredoc_command,
    probe_command,
    remove_command,
};
use crate::text::{contains_str, contains_text, lower_of, lowercase, trim, trimmed};

verus! {

/// The entries of a JSON object whose values are all strings, in key order, or
/// `None` when the text is no such object.
pub uninterp spec fn json_string_entries(s: Seq<char>) -> Option<Seq<(Seq<char>, Seq<char>)>>;

/// Relies on `serde_json::from_str` into an ordered map of strings: the object's
/// entries when the text is a JSON object of string values.
#[verifier::external_body]
fn parse_string_object(s: &str) -> (r: Option<Vec<(String, String)>>)
    ensures
        match r {
            Some(v) => json_string_entries(s@) == Some(
                v@.map_values(|e: (String, String)| (e.0@, e.1@)),
            ),
            None => json_string_entries(s@) is None,
        },
{
    serde_json::from_str::<std::collections::BTreeMap<String, String>>(s).ok().map(
        |m| m.into_iter().collect(),
    )
}

/// The value of the first entry named `key`.
pub open spec fn entry_value(entries: Seq<(Seq<char>, Seq<char>)>, key: Seq<char>) -> Option<
    Seq<char>,
>
    decreases entries.len(),
{
    if entries.len() == 0 {
        None
    } else if entries[0].0 == key {
        Some(entries[0].1)
    } else {
        entry_value(entries.drop_first(), key)
    }
}

/// What a failed script reported: the `error` field of the JSON object on its
/// standard error, or that text as it stands.
pub open spec fn script_error_text(stderr: Seq<char>) -> Seq<char> {
    match json_string_entries(stderr) {
        Some(entries) => match entry_value(entries, "error"@) {
            Some(v) => v,
            None => stderr,
        },
        None => stderr,
    }
}

/// The error text of a failed script's standard error.
pub fn error_text(stderr: &str) -> (r: String)
    ensures
        r@ == script_error_text(stderr@),
{
    match parse_string_object(stderr) {
        Some(entries) => {
            let ghost ev = entries@.map_values(|e: (String, String)| (e.0@, e.1@));
            let key = "error".to_string();
            let mut i: usize = 0;
            assert(ev.subrange(0, ev.len() as int) =~= ev);
            while i < entries.len()
                invariant
                    ev == entries@.map_values(|e: (String, String)| (e.0@, e.1@)),
                    key@ == "error"@,
                    json_string_entries(stderr@) == Some(ev),
                    i <= entries@.len(),
                    entry_value(ev, "error"@) == entry_value(ev.subrange(i as int, ev.len() as int), "error"@),
                decreases entries@.len() - i,
            {
                let ghost rest = ev.subrange(i as int, ev.len() as int);
                assert(rest.drop_first() =~= ev.subrange(i + 1, ev.len() as int));
                assert(rest[0] == ev[i as int]);
                assert(ev[i as int] == (entries@[i as int].0@, entries@[i as int].1@));
                if entries[i].0 == key {
                    return entries[i].1.clone();
                }
                i = i + 1;
            }
            stderr.to_owned()
        },
        None => stderr.to_owned(),
    }
}

/// The primary interpreter's failure says that it is not installed.
pub open spec fn interpreter_missing(stderr: Seq<char>) -> bool {
    contains_text(lower_of(stderr), "command not found"@)
}

/// Where a run stands.
#[derive(Clone, Copy, Debug, PartialEq, Eq, Structural)]
pub enum Phase {
    Ready,
    Primary,
    Alternate,
    Probing,
    Downloading,
    Cleaning,
    Finished,
}

/// What happened to the last action.
#[derive(Debug)]
pub enum Event {
    /// Begin the run.
    Start,
    /// A command ran to completion.
    Executed { exit_code: i32, stdout: String, stderr: String },
    /// A command or a transfer failed at the protocol level.
    TransportFailed(String),
    /// The result file reached its local copy.
    Downloaded,
}

pub enum EventV {
    Start,
    Executed(int, Seq<char>, Seq<char>),
    TransportFailed(Seq<char>),
    Downloaded,
}

impl View for Event {
    type V = EventV;

    open spec fn view(&self) -> EventV {
        match self {
            Event::Start => EventV::Start,
            Event::Executed { exit_code, stdout, stderr } => EventV::Executed(
                *exit_code as int,
                stdout@,
                stderr@,
            ),
            Event::TransportFailed(m) => EventV::TransportFailed(m@),
            Event::Downloaded => EventV::Downloaded,
        }
    }
}

/// What the caller is to do next.
#[derive(Debug)]
pub enum Action {
    /// Run the script with this command.
    Execute(String),
    /// Run this command to see whether the result file exists.
    Probe(String),
    /// Download the remote file at this path.
    Download(String),
    /// Run this command to remove the remote result file.
    Cleanup(String),
    /// The run is over: the result file is downloaded, or the error.
    Done(Result<(), QueryError>),
}

pub enum ActionV {
    Execute(Seq<char>),
    Probe(Seq<char>),
    Download(Seq<char>),
    Cleanup(Seq<char>),
    Done(Result<(), ErrorV>),
}

impl View for Action {
    type V = ActionV;

    open spec fn view(&self) -> ActionV {
        match self {
            Action::Execute(c) => ActionV::Execute(c@),
            Action::Probe(c) => ActionV::Probe(c@),
            Action::Download(p) => ActionV::Download(p@),
            Action::Cleanup(c) => ActionV::Cleanup(c@),
            Action::Done(Ok(())) => ActionV::Done(Ok(())),
            Action::Done(Err(e)) => ActionV::Done(Err(e@)),
        }
    }
}

/// The model of a run: its script, result path and delimiter, where it stands,
/// and the error it will end with (none for success).
pub struct RunV {
    pub script: Seq<char>,
    pub temp: Seq<char>,
    pub delim: Seq<char>,
    pub phase: Phase,
    pub pending: Option<ErrorV>,
}

pub open spec fn missing_word() -> Seq<char> {
    "missing"@
}

pub open spec fn no_path_message() -> Seq<char> {
    "no temp file path returned"@
}

pub open spec fn other_path_message() -> Seq<char> {
    "script reported a different result file"@
}

pub open spec fn absent_message() -> Seq<char> {
    "result file is missing on the remote host"@
}

pub open spec fn unexpected_message() -> Seq<char> {
    "unexpected event for the current step"@
}

/// Remove the result file, then end with `pending`.
pub open spec fn clean_then(r: RunV, pending: Option<ErrorV>) -> (RunV, ActionV) {
    (
        RunV { phase: Phase::Cleaning, pending, ..r },
        ActionV::Cleanup(cleanup_command(r.temp)),
    )
}

/// After the script finished with `code`, `out` and `err`.
pub open spec fn after_script(r: RunV, code: int, out: Seq<char>, err: Seq<char>) -> (
    RunV,
    ActionV,
) {
    if code != 0 {
        clean_then(r, Some(ErrorV::Script(script_error_text(err))))
    } else if trimmed(out).len() == 0 {
        clean_then(r, Some(ErrorV::Integrity(no_path_message())))
    } else if trimmed(out) != r.temp {
        clean_then(r, Some(ErrorV::Integrity(other_path_message())))
    } else {
        (RunV { phase: Phase::Probing, ..r }, ActionV::Probe(probe_command(r.temp)))
    }
}

pub open spec fn outcome(pending: Option<ErrorV>) -> Result<(), ErrorV> {
    match pending {
        Some(e) => Err(e),
        None => Ok(()),
    }
}

/// The next model and action of a run on an event.
pub open spec fn transition(r: RunV, e: EventV) -> (RunV, ActionV) {
    let unexpected = Some(ErrorV::Transport(unexpected_message()));
    match r.phase {
        Phase::Ready => match e {
            EventV::Start => (
                RunV { phase: Phase::Primary, ..r },
                ActionV::Execute(heredoc_command(Interpreter::Primary, r.delim, r.script)),
            ),
            _ => clean_then(r, unexpected),
        },
        Phase::Primary => match e {
            EventV::Executed(code, out, err) => if code != 0 && interpreter_missing(err) {
                (
                    RunV { phase: Phase::Alternate, ..r },
                    ActionV::Execute(heredoc_command(Interpreter::Alternate, r.delim, r.script)),
                )
            } else {
                after_script(r, code, out, err)
            },
            EventV::TransportFailed(m) => clean_then(r, Some(ErrorV::Transport(m))),
            _ => clean_then(r, unexpected),
        },
        Phase::Alternate => match e {
            EventV::Executed(code, out, err) => after_script(r, code, out, err),
            EventV::TransportFailed(m) => clean_then(r, Some(ErrorV::Transport(m))),
            _ => clean_then(r, unexpected),
        },
        Phase::Probing => match e {
            EventV::Executed(_, out, _) => if trimmed(out) == missing_word() {
                clean_then(r, Some(ErrorV::Integrity(absent_message())))
            } else {
                (RunV { phase: Phase::Downloading, ..r }, ActionV::Download(r.temp))
            },
            EventV::TransportFailed(_) => (
                RunV { phase: Phase::Downloading, ..r },
                ActionV::Download(r.temp),
            ),
            _ => clean_then(r, unexpected),
        },
        Phase::Downloading => match e {
            EventV::Downloaded => clean_then(r, None),
            EventV::TransportFailed(m) => clean_then(r, Some(ErrorV::Transport(m))),
            _ => clean_then(r, unexpected),
        },
        Phase::Cleaning => (RunV { phase: Phase::Finished, ..r }, ActionV::Done(outcome(r.pending))),
        Phase::Finished => (r, ActionV::Done(outcome(r.pending))),
    }
}

/// One remote query run.
#[derive(Debug)]
pub struct Run {
    pub job: ScriptJob,
    pub phase: Phase,
    pub pending: Option<QueryError>,
}

impl View for Run {
    type V = RunV;

    open spec fn view(&self) -> RunV {
        RunV {
            script: self.job.script@,
            temp: self.job.temp_path@,
            delim: self.job.delimiter@,
            phase: self.phase,
            pending: match self.pending {
                Some(e) => Some(e@),
                None => None,
            },
        }
    }
}

impl Run {
    /// A run of `job` that has not started.
    pub fn new(job: ScriptJob) -> (r: Run)
        ensures
            r@ == (RunV {
                script: job.script@,
                temp: job.temp_path@,
                delim: job.delimiter@,
                phase: Phase::Ready,
                pending: None,
            }),
    {
        Run { job, phase: Phase::Ready, pending: None }
    }

    fn clean_then(&mut self, pending: Option<QueryError>) -> (a: Action)
        ensures
            (final(self)@, a@) == clean_then(
                old(self)@,
                match pending {
                    Some(e) => Some(e@),
                    None => None,
                },
            ),
    {
        self.phase = Phase::Cleaning;
        self.pending = pending;
        Action::Cleanup(remove_command(self.job.temp_path.as_str()))
    }

    fn after_script(&mut self, code: i32, out: &String, err: &String) -> (a: Action)
        ensures
            (final(self)@, a@) == after_script(old(self)@, code as int, out@, err@),
    {
        if code != 0 {
            return self.clean_then(Some(QueryError::Script(error_text(err.as_str()))));
        }
        let path = trim(out.as_str());
        if path.unicode_len() == 0 {
            return self.clean_then(Some(QueryError::Integrity("no temp file path returned".to_string())));
        }
        if path != self.job.temp_path {
            return self.clean_then(
                Some(QueryError::Integrity("script reported a different result file".to_string())),
            );
        }
        self.phase = Phase::Probing;
        Action::Probe(existence_command(self.job.temp_path.as_str()))
    }

    fn unexpected(&mut self) -> (a: Action)
        ensures
            (final(self)@, a@) == clean_then(
                old(self)@,
                Some(ErrorV::Transport(unexpected_message())),
            ),
    {
        self.clean_then(Some(QueryError::Transport("unexpected event for the current step".to_string())))
    }

    fn finish(&self) -> (a: Action)
        ensures
            a@ == ActionV::Done(outcome(self@.pending)),
    {
        match &self.pending {
            Some(e) => Action::Done(Err(copy_error(e))),
            None => Action::Done(Ok(())),
        }
    }

    /// The action that follows `event`.
    pub fn next(&mut self, event: Event) -> (a: Action)
        ensures
            (final(self)@, a@) == transition(old(self)@, event@),
    {
        match self.phase {
            Phase::Ready => match event {
                Event::Start => {
                    self.phase = Phase::Primary;
                    Action::Execute(command_for(&self.job, Interpreter::Primary))
                },
                _ => self.unexpected(),
            },
            Phase::Primary => match event {
                Event::Executed { exit_code, stdout, stderr } => {
                    if exit_code != 0 && contains_str(
                        lowercase(stderr.as_str()).as_str(),
                        "command not found",
                    ) {
                        self.phase = Phase::Alternate;
                        Action::Execute(command_for(&self.job, Interpreter::Alternate))
                    } else {
                        self.after_script(exit_code, &stdout, &stderr)
                    }
                },
                Event::TransportFailed(m) => self.clean_then(Some(QueryError::Transport(m))),
                _ => self.unexpected(),
            },
            Phase::Alternate => match event {
                Event::Executed { exit_code, stdout, stderr } => self.after_script(
                    exit_code,
                    &stdout,
                    &stderr,
                ),
                Event::TransportFailed(m) => self.clean_then(Some(QueryError::Transport(m))),
                _ => self.unexpected(),
            },
            Phase::Probing => match event {
                Event::Executed { stdout, .. } => {
                    let t = trim(stdout.as_str());
                    let word = "missing".to_string();
                    if t == word {
                        self.clean_then(
                            Some(QueryError::Integrity("result file is missing on the remote host".to_string())),
                        )
                    } else {
                        self.phase = Phase::Downloading;
                        Action::Download(self.job.temp_path.clone())
                    }
                },
                Event::TransportFailed(_) => {
                    self.phase = Phase::Downloading;
                    Action::Download(self.job.temp_path.clone())
                },
                _ => self.unexpected(),
            },
            Phase::Downloading => match event {
                Event::Downloaded => self.clean_then(None),
                Event::TransportFailed(m) => self.clean_then(Some(QueryError::Transport(m))),
                _ => self.unexpected(),
            },
            Phase::Cleaning => {
                self.phase = Phase::Finished;
                self.finish()
            },
            Phase::Finished => self.finish(),
        }
    }
}

/// When the primary interpreter fails and reports that it is missing, the same
/// script runs once under the alternate interpreter; whatever that run reports,
/// no third run follows, and when it succeeds and names the result file, the
/// file is probed next.
pub proof fn lemma_fallback_once(
    r: RunV,
    code1: int,
    out1: Seq<char>,
    err1: Seq<char>,
    code2: int,
    out2: Seq<char>,
    err2: Seq<char>,
)
    requires
        r.phase == Phase::Ready,
        code1 != 0,
        interpreter_missing(err1),
    ensures
        ({
            let (r1, a1) = transition(r, EventV::Start);
            let (r2, a2) = transition(r1, EventV::Executed(code1, out1, err1));
            let (r3, a3) = transition(r2, EventV::Executed(code2, out2, err2));
            &&& a1 == ActionV::Execute(heredoc_command(Interpreter::Primary, r.delim, r.script))
            &&& a2 == ActionV::Execute(heredoc_command(Interpreter::Alternate, r.delim, r.script))
            &&& !(a3 is Execute)
            &&& (code2 == 0 && r.temp.len() > 0 && trimmed(out2) == r.temp) ==> a3
                == ActionV::Probe(probe_command(r.temp))
        }),
{
}

/// A result file that the probe reports missing after the script reported
/// success ends the run in an integrity error, after its removal is requested.
pub proof fn lemma_missing_file_fails(
    r: RunV,
    code: int,
    out: Seq<char>,
    err: Seq<char>,
    next: EventV,
)
    requires
        r.phase == Phase::Probing,
        trimmed(out) == missing_word(),
    ensures
        ({
            let (r1, a1) = transition(r, EventV::Executed(code, out, err));
            &&& a1 == ActionV::Cleanup(cleanup_command(r.temp))
            &&& transition(r1, next).1 matches ActionV::Done(Err(ErrorV::Integrity(_)))
        }),
{
}

/// Once removal of the result file is requested, what that removal reports
/// (say, that the file was already gone) does not change how the run ends.
pub proof fn lemma_cleanup_outcome_ignored(r: RunV, e1: EventV, e2: EventV)
    requires
        r.phase == Phase::Cleaning,
    ensures
        transition(r, e1) == transition(r, e2),
        transition(r, e1).1 == ActionV::Done(outcome(r.pending)),
{
}

/// Before the removal of the result file is requested, no event ends a run; and
/// every step into removal requests it for the run's own result file.
pub proof fn lemma_no_outcome_before_cleanup(r: RunV, e: EventV)
    requires
        r.phase != Phase::Cleaning,
        r.phase != Phase::Finished,
    ensures
        !(transition(r, e).1 is Done),
        transition(r, e).0.phase == Phase::Cleaning ==> transition(r, e).1 == ActionV::Cleanup(
            cleanup_command(r.temp),
        ),
        transition(r, e).0.temp == r.temp,
{
}

/// A copy of an error.
pub fn copy_error(e: &QueryError) -> (r: QueryError)
    ensures
        r@ == e@,
{
    match e {
        QueryError::NotConnected => QueryError::NotConnected,
        QueryError::Transport(m) => QueryError::Transport(m.clone()),
        QueryError::Script(m) => QueryError::Script(m.clone()),
        QueryError::Integrity(m) => QueryError::Integrity(m.clone()),
        QueryError::UnsupportedKind(m) => QueryError::UnsupportedKind(m.clone()),
    }
}

} // verus!

//! The bookkeeping of supervised runs: run identifiers, the records that go
//! to the log, and the decision taken on each event of a run. Spawning,
//! reading the streams and writing the log are left to the caller, which
//! feeds each event to [`Run::on_event`] and performs the action it returns.

use vstd::prelude::*;
use vstd::string::*;
use crate::text::{decimal, digits, joined, padded, views, pad_to, push_decimal, push_joined};

verus! {

/// Whether no name is overridden twice.
pub open spec fn distinct_names(env: Seq<(String, String)>) -> bool {
    forall|i: int, j: int|
        0 <= i < j < env.len() ==> (#[trigger] env[i]).0@ != (#[trigger] env[j]).0@
}

/// The first place at which `env` overrides `name`, or its length where it
/// does not.
pub open spec fn place_of(env: Seq<(String, String)>, name: Seq<char>) -> int
    decreases env.len(),
{
    if env.len() == 0 {
        0
    } else if env[0].0@ == name {
        0
    } else {
        1 + place_of(env.drop_first(), name)
    }
}

/// Options of one run: environment overrides, put on top of the inherited
/// environment, and whether a non-zero exit counts as success. The
/// overrides are a mapping from names to values: well-formed options
/// override no name twice.
#[derive(Debug, Clone)]
pub struct RunOptions {
    pub env: Vec<(String, String)>,
    pub allow_failure: Option<bool>,
}

impl RunOptions {
    /// Whether no name is overridden twice.
    pub open spec fn well_formed(&self) -> bool {
        distinct_names(self.env@)
    }

    /// Whether no name is overridden twice.
    pub fn is_well_formed(&self) -> (r: bool)
        ensures
            r == self.well_formed(),
    {
        let mut i: usize = 0;
        while i < self.env.len()
            invariant
                i <= self.env@.len(),
                forall|a: int, b: int|
                    0 <= a < b < self.env@.len() && a < i ==> (#[trigger] self.env@[a]).0@ != (
                    #[trigger] self.env@[b]).0@,
            decreases self.env@.len() - i,
        {
            let mut k: usize = i + 1;
            while k < self.env.len()
                invariant
                    i < k <= self.env@.len(),
                    forall|b: int|
                        i < b < k ==> self.env@[i as int].0@ != (#[trigger] self.env@[b]).0@,
                decreases self.env@.len() - k,
            {
                if self.env[i].0 == self.env[k].0 {
                    return false;
                }
                k = k + 1;
            }
            i = i + 1;
        }
        true
    }

    /// Overrides `name` with `value`: in the place of its earlier override
    /// where it has one, else behind the others. No other override changes,
    /// and options that override no name twice stay so.
    pub fn set_env(&mut self, name: String, value: String)
        ensures
            final(self).allow_failure == old(self).allow_failure,
            final(self).env@ == if place_of(old(self).env@, name@) < old(self).env@.len() {
                old(self).env@.update(place_of(old(self).env@, name@), (name, value))
            } else {
                old(self).env@.push((name, value))
            },
            old(self).well_formed() ==> final(self).well_formed(),
    {
        let mut i: usize = 0;
        assert(self.env@.skip(0) =~= self.env@);
        while i < self.env.len() && !(self.env[i].0 == name)
            invariant
                i <= self.env@.len(),
                *self == *old(self),
                place_of(self.env@, name@) == i + place_of(self.env@.skip(i as int), name@),
                forall|j: int| 0 <= j < i ==> (#[trigger] self.env@[j]).0@ != name@,
            decreases self.env@.len() - i,
        {
            assert(self.env@.skip(i as int).drop_first() =~= self.env@.skip(i + 1));
            i = i + 1;
        }
        if i < self.env.len() {
            self.env.set(i, (name, value));
        } else {
            self.env.push((name, value));
        }
    }
}

impl Default for RunOptions {
    fn default() -> (r: RunOptions)
        ensures
            r.env@.len() == 0,
            r.allow_failure is None,
            r.well_formed(),
    {
        RunOptions { env: Vec::new(), allow_failure: None }
    }
}

/// How a child ended: its exit code, or `None` where the code could not be
/// determined (the child was killed by a signal).
#[derive(Debug, Clone, Copy, PartialEq, Eq)]
pub struct ExitStatus {
    pub code: Option<i32>,
}

impl ExitStatus {
    /// Whether the child exited with code zero.
    pub open spec fn spec_success(&self) -> bool {
        self.code == Some(0i32)
    }

    /// Whether the child exited with code zero.
    #[verifier::when_used_as_spec(spec_success)]
    pub fn success(&self) -> (r: bool)
        ensures
            r == self.spec_success(),
    {
        match self.code {
            Some(code) => code == 0,
            None => false,
        }
    }
}

/// Why a run failed.
#[derive(Debug, Clone, PartialEq, Eq)]
pub enum RunError {
    /// The child could not be created; holds the system's message.
    SpawnFailed(String),
    /// The child could not be waited on; holds the system's message.
    WaitFailed(String),
    /// The child ended unsuccessfully and failure was not allowed.
    CommandFailed(ExitStatus),
}

/// The kind of a log record.
#[derive(Debug, Clone, Copy, PartialEq, Eq, Structural)]
pub enum LogTag {
    Env,
    Started,
    Stdout,
    Stderr,
    Exited,
    /// The child could not be spawned.
    Failed,
}

/// One record of the log: a tag, the run it belongs to, and the payload.
#[derive(Debug, Clone, PartialEq, Eq)]
pub struct LogRecord {
    pub tag: LogTag,
    pub run_id: i32,
    pub payload: String,
}

/// The width to which the tag field of a log line is padded.
pub const TAG_WIDTH: usize = 15;

/// The name of a tag as the log spells it.
pub open spec fn tag_text(tag: LogTag) -> Seq<char> {
    match tag {
        LogTag::Env => "env"@,
        LogTag::Started => "started"@,
        LogTag::Stdout => "stdout"@,
        LogTag::Stderr => "stderr"@,
        LogTag::Exited => "exited"@,
        LogTag::Failed => "failed"@,
    }
}

/// The tag field of a line before padding: the tag, then the run identifier
/// in square brackets.
pub open spec fn tag_field(tag: LogTag, run_id: i32) -> Seq<char> {
    tag_text(tag) + seq!['['] + decimal(run_id as int) + seq![']']
}

/// The text of one log line: the padded tag field, an arrow, the payload and
/// a newline.
pub open spec fn line_text(tag: LogTag, run_id: i32, payload: Seq<char>) -> Seq<char> {
    padded(tag_field(tag, run_id), TAG_WIDTH as nat) + seq![' ', '-', '>', ' '] + payload
        + seq!['\n']
}

/// The payload of an `env` record.
pub open spec fn env_payload(name: Seq<char>, value: Seq<char>) -> Seq<char> {
    name + seq!['='] + value
}

/// The payload of a `started` record: the command, a space, and the
/// arguments joined by spaces.
pub open spec fn started_payload(command: Seq<char>, args: Seq<Seq<char>>) -> Seq<char> {
    command + seq![' '] + joined(args, seq![' '])
}

/// The payload of an `exited` record for a child that was waited on.
pub open spec fn exited_payload(status: ExitStatus) -> Seq<char> {
    match status.code {
        Some(code) => "status = "@ + decimal(code as int),
        None => "status = unknown"@,
    }
}

/// The payload of a `failed` record: what could not be started, as in a
/// `started` record, and the system's message.
pub open spec fn spawn_failed_payload(
    command: Seq<char>,
    args: Seq<Seq<char>>,
    message: Seq<char>,
) -> Seq<char> {
    "could not start "@ + started_payload(command, args) + ": "@ + message
}

/// The payload of an `exited` record for a child that could not be waited on.
pub open spec fn wait_failed_payload(message: Seq<char>) -> Seq<char> {
    "failed to wait on child process: = "@ + message
}

fn tag_str(tag: LogTag) -> (r: &'static str)
    ensures
        r@ == tag_text(tag),
{
    match tag {
        LogTag::Env => "env",
        LogTag::Started => "started",
        LogTag::Stdout => "stdout",
        LogTag::Stderr => "stderr",
        LogTag::Exited => "exited",
        LogTag::Failed => "failed",
    }
}

impl LogRecord {
    /// The line that this record contributes to the log.
    pub fn to_line(&self) -> (r: String)
        ensures
            r@ == line_text(self.tag, self.run_id, self.payload@),
    {
        proof {
            reveal_strlit("[");
            reveal_strlit("]");
            reveal_strlit(" -> ");
            reveal_strlit("\n");
        }
        let mut out = String::new();
        out.append(tag_str(self.tag));
        out.append("[");
        push_decimal(&mut out, self.run_id as i64);
        out.append("]");
        assert(out@ =~= tag_field(self.tag, self.run_id));
        pad_to(&mut out, TAG_WIDTH);
        out.append(" -> ");
        out.append(self.payload.as_str());
        out.append("\n");
        assert(" -> "@ =~= seq![' ', '-', '>', ' ']);
        assert("\n"@ =~= seq!['\n']);
        assert(out@ =~= line_text(self.tag, self.run_id, self.payload@));
        out
    }
}

/// The verdict on a child that was waited on: success carries the status;
/// an unsuccessful status is a failure unless failure is allowed.
pub open spec fn verdict(status: ExitStatus, allow_failure: bool) -> Result<ExitStatus, RunError> {
    if !allow_failure && !status.spec_success() {
        Err(RunError::CommandFailed(status))
    } else {
        Ok(status)
    }
}

/// Classifies the status of a child that was waited on.
pub fn classify(status: ExitStatus, allow_failure: bool) -> (r: Result<ExitStatus, RunError>)
    ensures
        r == verdict(status, allow_failure),
{
    if !allow_failure && !status.success() {
        Err(RunError::CommandFailed(status))
    } else {
        Ok(status)
    }
}

/// The identifier that follows `id`; the counter wraps where the machine
/// integer ends.
pub open spec fn following_id(id: i32) -> i32 {
    if id == i32::MAX {
        i32::MIN
    } else {
        (id + 1) as i32
    }
}

/// The identifier that a fresh runner hands to its run number `k`, counted
/// from zero.
pub open spec fn nth_run_id(k: nat) -> i32
    decreases k,
{
    if k == 0 {
        1
    } else {
        following_id(nth_run_id((k - 1) as nat))
    }
}

/// The runner's own state: the log it writes to and the identifier of the
/// next run. Each runner numbers its runs by itself.
pub struct LoggedCmd {
    log_file: String,
    run_id: i32,
}

impl LoggedCmd {
    /// The name of the log file.
    pub closed spec fn spec_log_file(&self) -> Seq<char> {
        self.log_file@
    }

    /// The identifier that the next run will get.
    pub closed spec fn next_run_id(&self) -> i32 {
        self.run_id
    }

    /// A runner without a log file, whose first run gets identifier 1.
    pub fn new() -> (r: LoggedCmd)
        ensures
            r.next_run_id() == 1,
            r.next_run_id() == nth_run_id(0),
            r.spec_log_file().len() == 0,
    {
        LoggedCmd { log_file: String::new(), run_id: 1 }
    }

    /// Names the file that the log is appended to. Opening it is the
    /// caller's part.
    pub fn set_log_file(&mut self, file_name: String)
        ensures
            final(self).spec_log_file() == file_name@,
            final(self).next_run_id() == old(self).next_run_id(),
    {
        self.log_file = file_name;
    }

    /// The name of the log file.
    pub fn log_file(&self) -> (r: &str)
        ensures
            r@ == self.spec_log_file(),
    {
        self.log_file.as_str()
    }

    /// Begins a run: takes the next identifier and fixes what the run is
    /// made of. The records returned, one `env` record for each override in
    /// order, go to the log before the child is spawned. The options
    /// override no name twice, so each name is logged once.
    pub fn run_command(&mut self, command: &str, args: &Vec<String>, opts: Option<RunOptions>) -> (r: (
        Run,
        Vec<LogRecord>,
    ))
        requires
            opts matches Some(o) ==> o.well_formed(),
        ensures
            distinct_names(r.0.env@),
            r.0.run_id == old(self).next_run_id(),
            final(self).next_run_id() == following_id(old(self).next_run_id()),
            forall|k: nat|
                old(self).next_run_id() == #[trigger] nth_run_id(k) ==> final(self).next_run_id()
                    == nth_run_id(k + 1),
            final(self).spec_log_file() == old(self).spec_log_file(),
            r.0.phase == RunPhase::Created,
            r.0.command@ == command@,
            views(r.0.args@) == views(args@),
            r.0.allow_failure == match opts {
                Some(o) => o.allow_failure == Some(true),
                None => false,
            },
            pairs_view(r.0.env@) == match opts {
                Some(o) => pairs_view(o.env@),
                None => Seq::<(Seq<char>, Seq<char>)>::empty(),
            },
            r.1@.len() == r.0.env@.len(),
            forall|i: int|
                0 <= i < r.1@.len() ==> {
                    &&& (#[trigger] r.1@[i]).tag == LogTag::Env
                    &&& r.1@[i].run_id == r.0.run_id
                    &&& r.1@[i].payload@ == env_payload(r.0.env@[i].0@, r.0.env@[i].1@)
                },
    {
        let run_id: i32 = self.run_id;
        assert forall|k: nat| run_id == #[trigger] nth_run_id(k) implies following_id(run_id)
            == nth_run_id(k + 1) by {
            assert(nth_run_id(k + 1) == following_id(nth_run_id(((k + 1) - 1) as nat)));
        }
        self.run_id = if run_id == i32::MAX {
            i32::MIN
        } else {
            run_id + 1
        };
        let (env, allow_failure) = match opts {
            Some(o) => (
                o.env,
                match o.allow_failure {
                    Some(allow) => allow,
                    None => false,
                },
            ),
            None => (Vec::new(), false),
        };
        assert(pairs_view(env@) =~= match opts {
            Some(o) => pairs_view(o.env@),
            None => Seq::<(Seq<char>, Seq<char>)>::empty(),
        });
        let mut records: Vec<LogRecord> = Vec::new();
        let mut i: usize = 0;
        while i < env.len()
            invariant
                i <= env.len(),
                records@.len() == i,
                forall|j: int|
                    0 <= j < i ==> {
                        &&& (#[trigger] records@[j]).tag == LogTag::Env
                        &&& records@[j].run_id == run_id
                        &&& records@[j].payload@ == env_payload(env@[j].0@, env@[j].1@)
                    },
            decreases env.len() - i,
        {
            proof {
                reveal_strlit("=");
            }
            let mut payload = String::new();
            payload.append(env[i].0.as_str());
            payload.append("=");
            payload.append(env[i].1.as_str());
            assert(payload@ =~= env_payload(env@[i as int].0@, env@[i as int].1@));
            records.push(LogRecord { tag: LogTag::Env, run_id, payload });
            i = i + 1;
        }
        let mut own_args: Vec<String> = Vec::new();
        let mut k: usize = 0;
        while k < args.len()
            invariant
                k <= args.len(),
                own_args@.len() == k,
                forall|j: int| 0 <= j < k ==> (#[trigger] own_args@[j])@ == args@[j]@,
            decreases args.len() - k,
        {
            own_args.push(args[k].clone());
            k = k + 1;
        }
        assert(views(own_args@) =~= views(args@));
        let run = Run {
            run_id,
            command: command.to_owned(),
            args: own_args,
            env,
            allow_failure,
            phase: RunPhase::Created,
        };
        (run, records)
    }
}

/// The views of a vector of pairs of strings.
pub open spec fn pairs_view(pairs: Seq<(String, String)>) -> Seq<(Seq<char>, Seq<char>)> {
    Seq::new(pairs.len(), |i: int| (pairs[i].0@, pairs[i].1@))
}

/// Where a run stands.
#[derive(Debug, Clone, Copy, PartialEq, Eq, Structural)]
pub enum RunPhase {
    /// The child has not been spawned yet.
    Created,
    /// The child runs; its streams are drained.
    Running,
    /// The run is over.
    Finished,
}

/// One supervised execution of an external command.
#[derive(Debug, Clone)]
pub struct Run {
    pub run_id: i32,
    pub command: String,
    pub args: Vec<String>,
    pub env: Vec<(String, String)>,
    pub allow_failure: bool,
    pub phase: RunPhase,
}

/// What the caller reports of a run.
#[derive(Debug, Clone)]
pub enum RunEvent {
    /// The child was spawned.
    Spawned,
    /// The child could not be spawned.
    SpawnFailed(String),
    /// A line read from the child's standard output.
    Stdout(String),
    /// A line read from the child's standard error.
    Stderr(String),
    /// The child ended and both streams are drained.
    Exited(ExitStatus),
    /// Waiting on the child failed.
    WaitFailed(String),
}

/// What the caller does next.
#[derive(Debug, PartialEq, Eq)]
pub enum RunAction {
    /// Nothing new: go on as before.
    Continue,
    /// Drain both streams, line by line, and wait for the child.
    Supervise,
    /// The run is over, with this result.
    Finish(Result<ExitStatus, RunError>),
}

/// The answer to one event: the record to append to the log, if any, and
/// the action to take.
#[derive(Debug)]
pub struct RunStep {
    pub record: Option<LogRecord>,
    pub action: RunAction,
}

/// The phase that follows `phase` on `event`. An event that does not belong
/// to the phase leaves it as it is.
pub open spec fn next_phase(phase: RunPhase, event: RunEvent) -> RunPhase {
    match (phase, event) {
        (RunPhase::Created, RunEvent::Spawned) => RunPhase::Running,
        (RunPhase::Created, RunEvent::SpawnFailed(_)) => RunPhase::Finished,
        (RunPhase::Running, RunEvent::Exited(_)) => RunPhase::Finished,
        (RunPhase::Running, RunEvent::WaitFailed(_)) => RunPhase::Finished,
        _ => phase,
    }
}

/// The tag of the record that `event` adds to the log in `phase`, if it adds
/// one.
pub open spec fn event_tag(phase: RunPhase, event: RunEvent) -> Option<LogTag> {
    match (phase, event) {
        (RunPhase::Created, RunEvent::Spawned) => Some(LogTag::Started),
        (RunPhase::Created, RunEvent::SpawnFailed(_)) => Some(LogTag::Failed),
        (RunPhase::Running, RunEvent::Stdout(_)) => Some(LogTag::Stdout),
        (RunPhase::Running, RunEvent::Stderr(_)) => Some(LogTag::Stderr),
        (RunPhase::Running, RunEvent::Exited(_)) => Some(LogTag::Exited),
        (RunPhase::Running, RunEvent::WaitFailed(_)) => Some(LogTag::Exited),
        _ => None,
    }
}

/// The payload of the record that `event` adds to the log of `run`.
pub open spec fn event_payload(run: Run, event: RunEvent) -> Seq<char> {
    match event {
        RunEvent::Spawned => started_payload(run.command@, views(run.args@)),
        RunEvent::SpawnFailed(message) => spawn_failed_payload(
            run.command@,
            views(run.args@),
            message@,
        ),
        RunEvent::Stdout(line) => line@,
        RunEvent::Stderr(line) => line@,
        RunEvent::Exited(status) => exited_payload(status),
        RunEvent::WaitFailed(message) => wait_failed_payload(message@),
    }
}

/// The action that answers `event` for `run`.
pub open spec fn event_action(run: Run, event: RunEvent) -> RunAction {
    match (run.phase, event) {
        (RunPhase::Created, RunEvent::Spawned) => RunAction::Supervise,
        (RunPhase::Created, RunEvent::SpawnFailed(message)) => RunAction::Finish(
            Err(RunError::SpawnFailed(message)),
        ),
        (RunPhase::Running, RunEvent::Exited(status)) => RunAction::Finish(
            verdict(status, run.allow_failure),
        ),
        (RunPhase::Running, RunEvent::WaitFailed(message)) => RunAction::Finish(
            Err(RunError::WaitFailed(message)),
        ),
        _ => RunAction::Continue,
    }
}

impl Run {
    fn record(&self, tag: LogTag, payload: String) -> (r: Option<LogRecord>)
        ensures
            r == Some(LogRecord { tag, run_id: self.run_id, payload }),
    {
        Some(LogRecord { tag, run_id: self.run_id, payload })
    }

    fn started_text(&self) -> (r: String)
        ensures
            r@ == started_payload(self.command@, views(self.args@)),
    {
        proof {
            reveal_strlit(" ");
        }
        let mut payload = String::new();
        payload.append(self.command.as_str());
        payload.append(" ");
        assert(" "@ =~= seq![' ']);
        push_joined(&mut payload, &self.args, " ");
        assert(payload@ =~= started_payload(self.command@, views(self.args@)));
        payload
    }

    /// Takes one event of the run: moves the phase on, and returns the
    /// record for the log and the action to take. Only the phase changes.
    pub fn on_event(&mut self, event: RunEvent) -> (r: RunStep)
        ensures
            final(self).phase == next_phase(old(self).phase, event),
            final(self).run_id == old(self).run_id,
            final(self).command == old(self).command,
            final(self).args == old(self).args,
            final(self).env == old(self).env,
            final(self).allow_failure == old(self).allow_failure,
            r.action == event_action(*old(self), event),
            match event_tag(old(self).phase, event) {
                Some(tag) => r.record is Some && r.record->0.tag == tag && r.record->0.run_id
                    == old(self).run_id && r.record->0.payload@ == event_payload(
                    *old(self),
                    event,
                ),
                None => r.record is None,
            },
    {
        match self.phase {
            RunPhase::Created => match event {
                RunEvent::Spawned => {
                    let payload = self.started_text();
                    self.phase = RunPhase::Running;
                    RunStep {
                        record: self.record(LogTag::Started, payload),
                        action: RunAction::Supervise,
                    }
                },
                RunEvent::SpawnFailed(message) => {
                    let mut payload = String::new();
                    payload.append("could not start ");
                    payload.append(self.started_text().as_str());
                    payload.append(": ");
                    payload.append(message.as_str());
                    assert(payload@ =~= spawn_failed_payload(
                        self.command@,
                        views(self.args@),
                        message@,
                    ));
                    self.phase = RunPhase::Finished;
                    RunStep {
                        record: self.record(LogTag::Failed, payload),
                        action: RunAction::Finish(Err(RunError::SpawnFailed(message))),
                    }
                },
                _ => RunStep { record: None, action: RunAction::Continue },
            },
            RunPhase::Running => match event {
                RunEvent::Stdout(line) => RunStep {
                    record: self.record(LogTag::Stdout, line),
                    action: RunAction::Continue,
                },
                RunEvent::Stderr(line) => RunStep {
                    record: self.record(LogTag::Stderr, line),
                    action: RunAction::Continue,
                },
                RunEvent::Exited(status) => {
                    let payload = exited_text(status);
                    self.phase = RunPhase::Finished;
                    RunStep {
                        record: self.record(LogTag::Exited, payload),
                        action: RunAction::Finish(classify(status, self.allow_failure)),
                    }
                },
                RunEvent::WaitFailed(message) => {
                    let mut payload = String::new();
                    payload.append("failed to wait on child process: = ");
                    payload.append(message.as_str());
                    assert(payload@ =~= wait_failed_payload(message@));
                    self.phase = RunPhase::Finished;
                    RunStep {
                        record: self.record(LogTag::Exited, payload),
                        action: RunAction::Finish(Err(RunError::WaitFailed(message))),
                    }
                },
                _ => RunStep { record: None, action: RunAction::Continue },
            },
            RunPhase::Finished => RunStep { record: None, action: RunAction::Continue },
        }
    }
}

fn exited_text(status: ExitStatus) -> (r: String)
    ensures
        r@ == exited_payload(status),
{
    let mut payload = String::new();
    match status.code {
        Some(code) => {
            payload.append("status = ");
            push_decimal(&mut payload, code as i64);
        },
        None => {
            payload.append("status = unknown");
        },
    }
    assert(payload@ =~= exited_payload(status));
    payload
}

/// The phase of a run that was in `phase` before `events` came in.
pub open spec fn phase_after(phase: RunPhase, events: Seq<RunEvent>) -> RunPhase
    decreases events.len(),
{
    if events.len() == 0 {
        phase
    } else {
        next_phase(phase_after(phase, events.drop_last()), events.last())
    }
}

/// The tags of the records that `events` add to the log, in order, for a
/// run that was in `phase` before them.
pub open spec fn tags_after(phase: RunPhase, events: Seq<RunEvent>) -> Seq<LogTag>
    decreases events.len(),
{
    if events.len() == 0 {
        Seq::empty()
    } else {
        let earlier = tags_after(phase, events.drop_last());
        match event_tag(phase_after(phase, events.drop_last()), events.last()) {
            Some(tag) => earlier.push(tag),
            None => earlier,
        }
    }
}

/// Whether a tag marks a line of one of the child's streams.
pub open spec fn is_stream_tag(tag: LogTag) -> bool {
    tag == LogTag::Stdout || tag == LogTag::Stderr
}

/// The shape of a run's records from its spawn on: nothing before the
/// child is spawned; then one `started` record, followed by stream records
/// only; and, once the run is over, either one `failed` record and no other
/// (the spawn failed) or one `started` record first, one `exited` record
/// last, and stream records between them.
pub open spec fn ordered_log(phase: RunPhase, tags: Seq<LogTag>) -> bool {
    match phase {
        RunPhase::Created => tags.len() == 0,
        RunPhase::Running => {
            &&& tags.len() >= 1
            &&& tags[0] == LogTag::Started
            &&& forall|i: int| 1 <= i < tags.len() ==> is_stream_tag(#[trigger] tags[i])
        },
        RunPhase::Finished => (tags.len() == 1 && tags[0] == LogTag::Failed) || {
            &&& tags.len() >= 2
            &&& tags[0] == LogTag::Started
            &&& tags.last() == LogTag::Exited
            &&& forall|i: int| 1 <= i < tags.len() - 1 ==> is_stream_tag(#[trigger] tags[i])
        },
    }
}

/// Whatever events a new run is fed, in whatever order, its records keep
/// their order: exactly one `started` record, then the stream records, then
/// exactly one `exited` record; or, where the spawn fails, one `failed`
/// record alone.
pub proof fn run_log_is_ordered(events: Seq<RunEvent>)
    ensures
        ordered_log(
            phase_after(RunPhase::Created, events),
            tags_after(RunPhase::Created, events),
        ),
    decreases events.len(),
{
    if events.len() > 0 {
        run_log_is_ordered(events.drop_last());
    }
}

/// The line that an event carries for the stream of `tag`, if it carries
/// one.
pub open spec fn stream_line(event: RunEvent, tag: LogTag) -> Option<Seq<char>> {
    match (event, tag) {
        (RunEvent::Stdout(line), LogTag::Stdout) => Some(line@),
        (RunEvent::Stderr(line), LogTag::Stderr) => Some(line@),
        _ => None,
    }
}

/// The lines that the events carry for the stream of `tag`, in the order
/// in which they come.
pub open spec fn lines_sent(events: Seq<RunEvent>, tag: LogTag) -> Seq<Seq<char>>
    decreases events.len(),
{
    if events.len() == 0 {
        Seq::empty()
    } else {
        match stream_line(events.last(), tag) {
            Some(line) => lines_sent(events.drop_last(), tag).push(line),
            None => lines_sent(events.drop_last(), tag),
        }
    }
}

/// The payloads of the records with `tag` that the events add to the log
/// of `run`, in the order of the log.
pub open spec fn payloads_logged(run: Run, events: Seq<RunEvent>, tag: LogTag) -> Seq<Seq<char>>
    decreases events.len(),
{
    if events.len() == 0 {
        Seq::empty()
    } else {
        let earlier = payloads_logged(run, events.drop_last(), tag);
        if event_tag(phase_after(run.phase, events.drop_last()), events.last()) == Some(tag) {
            earlier.push(event_payload(run, events.last()))
        } else {
            earlier
        }
    }
}

/// While the child runs, each stream reaches the log as it was read: the
/// payloads of the records of a stream are the lines of that stream, each
/// once, unchanged, and in their order, however the two streams mix.
pub proof fn stream_lines_are_kept(run: Run, events: Seq<RunEvent>, tag: LogTag)
    requires
        run.phase == RunPhase::Running,
        is_stream_tag(tag),
        forall|i: int|
            0 <= i < events.len() ==> (#[trigger] events[i]) is Stdout || events[i] is Stderr,
    ensures
        phase_after(run.phase, events) == RunPhase::Running,
        payloads_logged(run, events, tag) == lines_sent(events, tag),
    decreases events.len(),
{
    if events.len() > 0 {
        stream_lines_are_kept(run, events.drop_last(), tag);
        assert(events[events.len() - 1] is Stdout || events[events.len() - 1] is Stderr);
    }
}

/// A fresh runner counts from one: its run number `k`, counted from zero,
/// gets the identifier `k + 1`.
pub proof fn run_ids_count_up(k: nat)
    requires
        k < i32::MAX,
    ensures
        nth_run_id(k) == k + 1,
    decreases k,
{
    if k > 0 {
        run_ids_count_up((k - 1) as nat);
    }
}

/// Whether one of the first `n` runs of a fresh runner gets the identifier
/// `id`.
pub open spec fn handed_out(n: nat, id: int) -> bool {
    exists|k: nat| k < n && #[trigger] nth_run_id(k) == id
}

/// The first `n` runs of a fresh runner get the identifiers from 1 to `n`:
/// each of them once, and no other.
pub proof fn run_ids_are_one_to_n(n: nat)
    requires
        n <= i32::MAX,
    ensures
        forall|id: int| #[trigger] handed_out(n, id) <==> 1 <= id <= n,
        forall|j: nat, k: nat| j < n && k < n && j != k ==> nth_run_id(j) != nth_run_id(k),
{
    assert forall|k: nat| k < n implies nth_run_id(k) == k + 1 by {
        run_ids_count_up(k);
    }
    assert forall|id: int| 1 <= id <= n implies handed_out(n, id) by {
        let k = (id - 1) as nat;
        run_ids_count_up(k);
        assert(k < n && nth_run_id(k) == id);
    }
}

/// The digits of a number hold no newline.
proof fn digits_hold_no_newline(n: nat)
    ensures
        !digits(n).contains('\n'),
    decreases n,
{
    if n >= 10 {
        digits_hold_no_newline(n / 10);
        let shorter = digits(n / 10);
        assert forall|i: int| 0 <= i < digits(n).len() implies digits(n)[i] != '\n' by {
            if i < shorter.len() {
                assert(shorter.contains(shorter[i]));
            }
        }
    }
}

/// A log line is one physical line: it ends in a newline, and where the
/// payload holds no newline, that is the only one.
pub proof fn line_is_one_line(tag: LogTag, run_id: i32, payload: Seq<char>)
    requires
        !payload.contains('\n'),
    ensures
        line_text(tag, run_id, payload).last() == '\n',
        forall|i: int|
            0 <= i < line_text(tag, run_id, payload).len() - 1 ==> line_text(
                tag,
                run_id,
                payload,
            )[i] != '\n',
{
    reveal_strlit("env");
    reveal_strlit("started");
    reveal_strlit("stdout");
    reveal_strlit("stderr");
    reveal_strlit("exited");
    reveal_strlit("failed");
    let id = run_id as int;
    if id < 0 {
        digits_hold_no_newline((-id) as nat);
    } else {
        digits_hold_no_newline(id as nat);
    }
    let number = decimal(id);
    assert forall|i: int| 0 <= i < number.len() implies number[i] != '\n' by {
        if id < 0 {
            if i > 0 {
                assert(digits((-id) as nat).contains(digits((-id) as nat)[i - 1]));
            }
        } else {
            assert(digits(id as nat).contains(number[i]));
        }
    }
    let field = tag_field(tag, run_id);
    assert forall|i: int| 0 <= i < field.len() implies field[i] != '\n' by {
        let name = tag_text(tag);
        if i < name.len() {
        } else if i == name.len() {
        } else if i < name.len() + 1 + number.len() {
            assert(field[i] == number[i - name.len() - 1]);
        } else {
        }
    }
    let head = padded(field, TAG_WIDTH as nat);
    assert forall|i: int| 0 <= i < head.len() implies head[i] != '\n' by {
        if i < field.len() {
            assert(head[i] == field[i]);
        }
    }
    let line = line_text(tag, run_id, payload);
    assert forall|i: int| 0 <= i < line.len() - 1 implies line[i] != '\n' by {
        if i < head.len() {
            assert(line[i] == head[i]);
        } else if i < head.len() + 4 {
        } else {
            assert(line[i] == payload[i - head.len() - 4]);
            assert(payload.contains(payload[i - head.len() - 4]));
        }
    }
}

} // verus!

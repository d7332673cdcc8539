//! Supervised child processes: what to run, how it is doing, and its captured output.
use vstd::prelude::*;

verus! {

/// A program and its argument vector.
#[derive(Clone, Debug, PartialEq)]
pub struct ProcSpec {
    pub program: String,
    pub args: Vec<String>,
}

/// The state of the supervised process.
#[derive(Clone, Debug, PartialEq, Default)]
pub enum ProcStatus {
    #[default]
    Stopped,
    Running,
    Exited(i32),
    Crashed(String),
}

/// A process supervisor: starts one child, stops it, and reports on it.
pub trait ProcessBackend: Send + Sync {
    fn start(&self, spec: ProcSpec) -> Result<(), String>;

    /// Asks the running child to stop; true when a stop request was sent.
    fn stop(&self) -> bool;

    fn status(&self) -> ProcStatus;

    fn recent_logs(&self) -> Vec<String>;
}

/// How many captured output lines a supervisor keeps.
pub const LOG_CAPACITY: usize = 500;

/// The log after appending `line` to `logs`: the oldest line is dropped once more than
/// `LOG_CAPACITY` lines are held.
pub open spec fn log_after(logs: Seq<String>, line: String) -> Seq<String> {
    let all = logs.push(line);
    if all.len() > LOG_CAPACITY {
        all.drop_first()
    } else {
        all
    }
}

/// Appends one captured output line, keeping at most `LOG_CAPACITY` of the newest lines.
pub fn push_log_line(logs: &mut Vec<String>, line: String)
    ensures
        final(logs)@ == log_after(old(logs)@, line),
{
    logs.push(line);
    if logs.len() > LOG_CAPACITY {
        logs.remove(0);
        assert(final(logs)@ =~= log_after(old(logs)@, line));
    }
}

/// The status of a child that has finished: a successful exit is `Exited(0)`, another
/// exit carries its code (-1 when it has none, e.g. killed by a signal), and a failure
/// to wait on it is `Crashed` with the error text.
pub fn finished_status(outcome: Result<(bool, Option<i32>), String>) -> (s: ProcStatus)
    ensures
        s == (match outcome {
            Ok((true, _)) => ProcStatus::Exited(0),
            Ok((false, Some(c))) => ProcStatus::Exited(c),
            Ok((false, None)) => ProcStatus::Exited(-1i32),
            Err(e) => ProcStatus::Crashed(e),
        }),
{
    match outcome {
        Ok((true, _)) => ProcStatus::Exited(0),
        Ok((false, Some(c))) => ProcStatus::Exited(c),
        Ok((false, None)) => ProcStatus::Exited(-1),
        Err(e) => ProcStatus::Crashed(e),
    }
}

/// What a supervisor knows of its child: its status, its captured output, and whether a
/// stop request can still reach the running child.
pub struct SupervisorState {
    pub status: ProcStatus,
    pub logs: Vec<String>,
    pub stop_armed: bool,
}

impl SupervisorState {
    /// The state before anything was started.
    pub fn new() -> (s: Self)
        ensures
            s.status == ProcStatus::Stopped,
            s.logs@.len() == 0,
            !s.stop_armed,
            s.wf(),
    {
        SupervisorState { status: ProcStatus::Stopped, logs: Vec::new(), stop_armed: false }
    }

    /// The log holds at most `LOG_CAPACITY` lines.
    pub open spec fn wf(&self) -> bool {
        self.logs@.len() <= LOG_CAPACITY
    }

    /// A child was spawned: it is running and can be asked to stop. Earlier output is kept.
    pub fn started(&mut self)
        ensures
            final(self).status == ProcStatus::Running,
            final(self).stop_armed,
            final(self).logs@ == old(self).logs@,
    {
        self.status = ProcStatus::Running;
        self.stop_armed = true;
    }

    /// The child printed a line (on stdout or stderr).
    pub fn output_line(&mut self, line: String)
        ensures
            final(self).logs@ == log_after(old(self).logs@, line),
            final(self).status == old(self).status,
            final(self).stop_armed == old(self).stop_armed,
            old(self).wf() ==> final(self).wf(),
    {
        push_log_line(&mut self.logs, line);
    }

    /// The child exited on its own (or waiting on it failed): it can no longer be stopped.
    pub fn exited(&mut self, outcome: Result<(bool, Option<i32>), String>)
        ensures
            final(self).status == (match outcome {
                Ok((true, _)) => ProcStatus::Exited(0),
                Ok((false, Some(c))) => ProcStatus::Exited(c),
                Ok((false, None)) => ProcStatus::Exited(-1i32),
                Err(e) => ProcStatus::Crashed(e),
            }),
            !final(self).stop_armed,
            final(self).logs@ == old(self).logs@,
    {
        self.stop_armed = false;
        self.status = finished_status(outcome);
    }

    /// The child was killed on request: it is stopped.
    pub fn killed(&mut self)
        ensures
            final(self).status == ProcStatus::Stopped,
            !final(self).stop_armed,
            final(self).logs@ == old(self).logs@,
    {
        self.stop_armed = false;
        self.status = ProcStatus::Stopped;
    }

    /// A stop was requested: true when it can reach the child, which happens at most once
    /// per start.
    pub fn take_stop(&mut self) -> (sent: bool)
        ensures
            sent == old(self).stop_armed,
            !final(self).stop_armed,
            final(self).status == old(self).status,
            final(self).logs@ == old(self).logs@,
    {
        let sent = self.stop_armed;
        self.stop_armed = false;
        sent
    }
}

/// The captured log never holds more than `LOG_CAPACITY` lines, and the newest line is
/// always its last.
pub proof fn law_log_bounded(logs: Seq<String>, line: String)
    requires
        logs.len() <= LOG_CAPACITY,
    ensures
        log_after(logs, line).len() <= LOG_CAPACITY,
        log_after(logs, line).last() == line,
        log_after(logs, line).len() == if logs.len() < LOG_CAPACITY {
            logs.len() + 1
        } else {
            LOG_CAPACITY as nat
        },
{
}

/// Once full, the log drops exactly its oldest line for each new one.
pub proof fn law_log_drops_oldest(logs: Seq<String>, line: String)
    requires
        logs.len() == LOG_CAPACITY,
    ensures
        log_after(logs, line) == logs.skip(1).push(line),
{
    assert(logs.push(line).drop_first() =~= logs.skip(1).push(line));
}

} // verus!

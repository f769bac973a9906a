//! The child-process supervisor: which child is tracked, what `start`,
//! `stop` and `status` decide, and the cached admin token.
//!
//! The supervisor decides; its caller performs the process and file work and
//! hands back what happened (a spawn result, a probe of the child).

use vstd::prelude::*;
use crate::errors::ErrorKind;
use crate::text::{decimal, decimal_chars, string_of_chars};

verus! {

/// What a non-blocking probe of the tracked child found.
#[derive(Clone, Copy, Debug, PartialEq, Eq, Structural)]
pub enum Probe {
    Alive { pid: Option<u32> },
    Exited { code: Option<i32> },
    Failed,
}

/// The state of the managed process as a status query reports it.
#[derive(Clone, Copy, Debug, PartialEq, Eq, Structural)]
pub enum ProcessStatus {
    NotRunning,
    Running { pid: Option<u32> },
    Exited { code: Option<i32> },
    Unknown,
}

/// What `start` must do once its checks passed.
#[derive(Clone, Copy, Debug, PartialEq, Eq, Structural)]
pub enum StartStep {
    /// A tracked child is alive: nothing is spawned.
    AlreadyRunning,
    /// Spawn the binary and report the result with `record_spawn`.
    Spawn,
}

/// A tracked child process, by OS process id where one is known.
#[derive(Clone, Copy, Debug, PartialEq, Eq, Structural)]
pub struct TrackedChild {
    pub pid: Option<u32>,
}

/// One supervisor per session: the tracked child (at most one) and the
/// cached admin token.
#[derive(Debug)]
pub struct Supervisor {
    pub child: Option<TrackedChild>,
    pub token: Option<String>,
}

pub open spec fn start_step_of(tracking: bool, binary_exists: bool, probe: Option<Probe>) -> Result<StartStep, ErrorKind> {
    if !binary_exists {
        Err(ErrorKind::NotInstalled)
    } else {
        match probe {
            Some(Probe::Alive { .. }) => Ok(StartStep::AlreadyRunning),
            Some(Probe::Failed) => Err(ErrorKind::ProcessIo),
            _ => Ok(StartStep::Spawn),
        }
    }
}

pub open spec fn status_of(probe: Option<Probe>) -> ProcessStatus {
    match probe {
        None => ProcessStatus::NotRunning,
        Some(Probe::Alive { pid }) => ProcessStatus::Running { pid },
        Some(Probe::Exited { code }) => ProcessStatus::Exited { code },
        Some(Probe::Failed) => ProcessStatus::Unknown,
    }
}

impl Supervisor {
    pub open spec fn tracking(&self) -> bool {
        self.child is Some
    }

    pub open spec fn token_view(&self) -> Option<Seq<char>> {
        match self.token {
            Some(t) => Some(t@),
            None => None,
        }
    }

    /// A supervisor at session start: no child, no token.
    pub fn new() -> (r: Supervisor)
        ensures
            !r.tracking(),
            r.token is None,
    {
        Supervisor { child: None, token: None }
    }

    pub fn is_tracking(&self) -> (r: bool)
        ensures
            r == self.tracking(),
    {
        self.child.is_some()
    }

    /// Decides `start` once the installer has run: a missing binary fails, a
    /// live tracked child makes it a success with nothing spawned, a failed
    /// probe is reported, and otherwise the binary is to be spawned.
    /// `probe` is the probe of the tracked child, present exactly when one is
    /// tracked.
    pub fn start_step(&self, binary_exists: bool, probe: Option<Probe>) -> (r: Result<StartStep, ErrorKind>)
        requires
            probe is Some == self.tracking(),
        ensures
            r == start_step_of(self.tracking(), binary_exists, probe),
    {
        if !binary_exists {
            return Err(ErrorKind::NotInstalled);
        }
        match probe {
            Some(Probe::Alive { .. }) => Ok(StartStep::AlreadyRunning),
            Some(Probe::Failed) => Err(ErrorKind::ProcessIo),
            _ => Ok(StartStep::Spawn),
        }
    }

    /// Records the outcome of a spawn: a new child (with its process id, if
    /// known) replaces any tracked one; a refused spawn changes nothing.
    pub fn record_spawn(&mut self, spawned: Result<Option<u32>, ()>) -> (r: Result<(), ErrorKind>)
        ensures
            spawned matches Ok(pid) ==> r is Ok && final(self).child == Some(TrackedChild { pid }),
            spawned is Err ==> r == Err::<(), ErrorKind>(ErrorKind::Spawn) && final(self).child == old(self).child,
            final(self).token == old(self).token,
    {
        match spawned {
            Ok(pid) => {
                self.child = Some(TrackedChild { pid });
                Ok(())
            },
            Err(_) => Err(ErrorKind::Spawn),
        }
    }

    /// Stops tracking the child. Returns whether one was tracked, which the
    /// caller then kills; stopping never fails and is idempotent.
    pub fn stop(&mut self) -> (r: bool)
        ensures
            r == old(self).tracking(),
            !final(self).tracking(),
            final(self).token == old(self).token,
    {
        let was = self.child.is_some();
        self.child = None;
        was
    }

    /// The status that a probe of the tracked child shows (`None` when no
    /// child is tracked). An exit found here clears the handle; a live child
    /// or a failed probe keeps it.
    pub fn status(&mut self, probe: Option<Probe>) -> (r: ProcessStatus)
        requires
            probe is Some == old(self).tracking(),
        ensures
            r == status_of(probe),
            final(self).tracking() == (probe matches Some(p) && !(p is Exited)),
            final(self).token == old(self).token,
    {
        match probe {
            None => ProcessStatus::NotRunning,
            Some(Probe::Alive { pid }) => {
                self.child = Some(TrackedChild { pid });
                ProcessStatus::Running { pid }
            },
            Some(Probe::Exited { code }) => {
                self.child = None;
                ProcessStatus::Exited { code }
            },
            Some(Probe::Failed) => ProcessStatus::Unknown,
        }
    }

    /// The cached admin token.
    pub fn admin_token(&self) -> (r: Option<String>)
        ensures
            r matches Some(t) ==> self.token_view() == Some(t@),
            r is None ==> self.token is None,
    {
        match &self.token {
            Some(t) => Some(t.clone()),
            None => None,
        }
    }

    /// Caches a token minted or found while enabling the admin API.
    pub fn set_token(&mut self, token: String)
        ensures
            final(self).token_view() == Some(token@),
            final(self).child == old(self).child,
    {
        self.token = Some(token);
    }

    /// The token to authenticate with: the cached one where present, else the
    /// one read from configuration, which is then cached. `None` means the
    /// admin API is unavailable, not an error.
    pub fn get_admin_token(&mut self, from_config: Option<String>) -> (r: Option<String>)
        ensures
            old(self).token is Some ==> r.is_some() && final(self).token_view() == old(self).token_view() && Some(r.unwrap()@) == old(self).token_view(),
            old(self).token is None ==> match from_config {
                Some(t) => r.is_some() && r.unwrap()@ == t@ && final(self).token_view() == Some(t@),
                None => r is None && final(self).token is None,
            },
            final(self).child == old(self).child,
    {
        if self.token.is_some() {
            return self.admin_token();
        }
        match from_config {
            Some(t) => {
                let r = t.clone();
                self.token = Some(t);
                Some(r)
            },
            None => None,
        }
    }
}

/// Once a child has been spawned and is still alive, starting again spawns
/// nothing: the one tracked child stays the only one.
pub proof fn lemma_second_start_spawns_nothing(s: Supervisor, pid: Option<u32>, later_pid: Option<u32>)
    requires
        s.child == Some(TrackedChild { pid }),
    ensures
        start_step_of(s.tracking(), true, Some(Probe::Alive { pid: later_pid })) == Ok::<StartStep, ErrorKind>(StartStep::AlreadyRunning),
{
}

/// A child that died since the last query shows as exited on the next status
/// query, which also stops tracking it.
pub proof fn lemma_dead_child_found_on_next_status(code: Option<i32>)
    ensures
        status_of(Some(Probe::Exited { code })) == (ProcessStatus::Exited { code }),
        !(status_of(Some(Probe::Exited { code })) is Running),
{
}

pub open spec fn signed_decimal(n: int) -> Seq<char> {
    if n < 0 {
        seq!['-'] + decimal((-n) as nat)
    } else {
        decimal(n as nat)
    }
}

/// Human-readable text of a process status.
pub open spec fn status_text_of(s: ProcessStatus) -> Seq<char> {
    match s {
        ProcessStatus::NotRunning => "未运行"@,
        ProcessStatus::Running { pid } => "运行中 (pid="@ + match pid {
            Some(p) => decimal(p as nat),
            None => "?"@,
        } + ")"@,
        ProcessStatus::Exited { code } => "已退出 (code="@ + match code {
            Some(c) => signed_decimal(c as int),
            None => "-"@,
        } + ")"@,
        ProcessStatus::Unknown => "未知"@,
    }
}

fn signed_text(n: i32) -> (r: String)
    ensures
        r@ == signed_decimal(n as int),
{
    if n < 0 {
        let m: u128 = (0i64 - n as i64) as u128;
        let digits = decimal_chars(m);
        let mut r = String::from_str("-");
        let d = string_of_chars(&digits);
        r.append(d.as_str());
        proof {
            reveal_strlit("-");
        }
        r
    } else {
        let digits = decimal_chars(n as u128);
        string_of_chars(&digits)
    }
}

/// Renders a process status for display.
pub fn status_text(s: ProcessStatus) -> (r: String)
    ensures
        r@ == status_text_of(s),
{
    match s {
        ProcessStatus::NotRunning => String::from_str("未运行"),
        ProcessStatus::Running { pid } => {
            let mut r = String::from_str("运行中 (pid=");
            match pid {
                Some(p) => {
                    let d = string_of_chars(&decimal_chars(p as u128));
                    r.append(d.as_str());
                },
                None => r.append("?"),
            }
            r.append(")");
            r
        },
        ProcessStatus::Exited { code } => {
            let mut r = String::from_str("已退出 (code=");
            match code {
                Some(c) => {
                    let d = signed_text(c);
                    r.append(d.as_str());
                },
                None => r.append("-"),
            }
            r.append(")");
            r
        },
        ProcessStatus::Unknown => String::from_str("未知"),
    }
}

/// A command that the control surface accepts.
#[derive(Clone, Copy, Debug, PartialEq, Eq, Structural)]
pub enum ControlAction {
    Start,
    Stop,
    Restart,
}

pub open spec fn control_action_of(name: Seq<char>) -> Option<ControlAction> {
    if name == "start"@ {
        Some(ControlAction::Start)
    } else if name == "stop"@ {
        Some(ControlAction::Stop)
    } else if name == "restart"@ {
        Some(ControlAction::Restart)
    } else {
        None
    }
}

/// Reads a control command by name; any other name is refused.
pub fn parse_control_action(name: &str) -> (r: Option<ControlAction>)
    ensures
        r == control_action_of(name@),
{
    if crate::text::same_text(name, "start") {
        Some(ControlAction::Start)
    } else if crate::text::same_text(name, "stop") {
        Some(ControlAction::Stop)
    } else if crate::text::same_text(name, "restart") {
        Some(ControlAction::Restart)
    } else {
        None
    }
}

} // verus!

use vstd::prelude::*;

use crate::config::{RestartLimit, RestartPolicy};
use crate::program::Program;

verus! {

/// Minimum wall-clock delay, in milliseconds, between a child's exit and its
/// replacement: throttles tight respawn loops of a crashing command.
pub const RESPAWN_DELAY_MS: u64 = 1000;

/// Lifecycle state of one child slot. Every variant carries the instant
/// (milliseconds on the supervisor's monotonic clock) of its last transition.
#[derive(Clone, Copy, Debug, PartialEq, Eq)]
pub enum Status {
    /// The process is not running.
    Stopped(u64),
    /// The process exited on its own with the given code
    /// (`None` when it was ended by a signal).
    Finished(u64, Option<i32>),
    /// The process is being gracefully terminated.
    Terminating(u64),
    /// The process is launched but has not yet run for `min_runtime`.
    Starting(u64),
    /// The process has run for at least `min_runtime`.
    Running(u64),
}

impl Status {
    /// Instant of the last transition.
    pub open spec fn timestamp(self) -> u64 {
        match self {
            Status::Stopped(t) => t,
            Status::Finished(t, _) => t,
            Status::Terminating(t) => t,
            Status::Starting(t) => t,
            Status::Running(t) => t,
        }
    }

    /// A live OS process stands behind this slot.
    pub open spec fn is_active(self) -> bool {
        self is Starting || self is Running
    }

    /// Nothing is running and nothing more will be observed of this process.
    pub open spec fn is_quiescent(self) -> bool {
        self is Stopped || self is Finished
    }

    pub open spec fn label_spec(self) -> Seq<char> {
        match self {
            Status::Stopped(_) => "Stopped"@,
            Status::Finished(_, _) => "Finished"@,
            Status::Terminating(_) => "Terminating"@,
            Status::Starting(_) => "Starting"@,
            Status::Running(_) => "Running"@,
        }
    }

    /// Human-readable name of the variant.
    pub fn label(&self) -> (r: String)
        ensures
            r@ == self.label_spec(),
    {
        match self {
            Status::Stopped(_) => "Stopped".to_owned(),
            Status::Finished(_, _) => "Finished".to_owned(),
            Status::Terminating(_) => "Terminating".to_owned(),
            Status::Starting(_) => "Starting".to_owned(),
            Status::Running(_) => "Running".to_owned(),
        }
    }
}

/// What one `try_wait` poll of the OS process reported.
#[derive(Clone, Copy, Debug, PartialEq, Eq)]
pub enum WaitStatus {
    /// The process has exited with the given code (`None`: ended by a signal).
    Exited(Option<i32>),
    /// The process is still running.
    Alive,
    /// The poll itself failed; nothing is known.
    Unknown,
}

/// What the caller must do to the OS process after a tick of one child.
#[derive(Clone, Copy, Debug, PartialEq, Eq)]
pub enum ChildAction {
    /// Nothing to do.
    Idle,
    /// Spawn a replacement process for this slot.
    Respawn,
    /// Force-terminate the process of this slot.
    ForceKill,
}

/// One live or recently-live OS process of a program.
#[derive(Clone, Copy, Debug, PartialEq, Eq)]
pub struct Child {
    pub status: Status,
    /// Number of auto-respawns that have replaced the process in this slot.
    pub restarts: u64,
}

/// Exit code as the restart policy reads it: a signal-ended process counts as 0.
pub open spec fn code_val(code: Option<i32>) -> i32 {
    match code {
        Some(c) => c,
        None => 0,
    }
}

/// Respawn count after one more respawn (saturating at the type's bound).
pub open spec fn bumped(r: u64) -> u64 {
    if r < u64::MAX {
        (r + 1) as u64
    } else {
        r
    }
}

/// Does the program's policy call for replacing a child that exited with `code`?
pub open spec fn respawn_wanted_spec(p: Program, code: Option<i32>) -> bool {
    match p.restart_policy {
        RestartPolicy::Never => false,
        RestartPolicy::Always => true,
        RestartPolicy::UnexpectedExit => !p.valid_exit_codes@.contains(code_val(code)),
    }
}

/// Does `max_restarts` still leave room for one more respawn?
pub open spec fn respawn_room_spec(p: Program, restarts: u64) -> bool {
    match p.max_restarts {
        RestartLimit::Limited(m) => restarts < m,
        RestartLimit::Unlimited => true,
    }
}

/// First phase of a tick: record an observed exit, unless one is already recorded.
pub open spec fn status_after_wait(s: Status, w: WaitStatus, now: u64) -> Status {
    match w {
        WaitStatus::Exited(code) => if s is Finished {
            s
        } else {
            Status::Finished(now, code)
        },
        _ => s,
    }
}

/// One full reconciliation step of a child: observe an exit, then either
/// respawn a settled exit, escalate an expired graceful stop, or promote a
/// child past its minimum runtime — in that order, at most one of the three.
pub open spec fn tick_step(c: Child, p: Program, w: WaitStatus, now: u64) -> (Child, ChildAction) {
    let s1 = status_after_wait(c.status, w, now);
    match s1 {
        Status::Finished(since, code) => if now - since >= RESPAWN_DELAY_MS
            && respawn_wanted_spec(p, code) && respawn_room_spec(p, c.restarts) {
            (Child { status: Status::Starting(now), restarts: bumped(c.restarts) }, ChildAction::Respawn)
        } else {
            (Child { status: s1, restarts: c.restarts }, ChildAction::Idle)
        },
        Status::Terminating(since) => if now - since > p.graceful_timeout {
            (Child { status: Status::Stopped(now), restarts: c.restarts }, ChildAction::ForceKill)
        } else {
            (Child { status: s1, restarts: c.restarts }, ChildAction::Idle)
        },
        Status::Starting(since) => if now - since > p.min_runtime {
            (Child { status: Status::Running(now), restarts: c.restarts }, ChildAction::Idle)
        } else {
            (Child { status: s1, restarts: c.restarts }, ChildAction::Idle)
        },
        _ => (Child { status: s1, restarts: c.restarts }, ChildAction::Idle),
    }
}

/// A graceful stop applied to a child: an active child whose signal was
/// delivered starts terminating; every other child is left as it was.
pub open spec fn stop_step(c: Child, sent: bool, now: u64) -> Child {
    if c.status.is_active() && sent {
        Child { status: Status::Terminating(now), restarts: c.restarts }
    } else {
        c
    }
}

/// A forced kill applied to a child: every non-quiescent child — starting,
/// running, or still terminating — is stopped on the spot; a quiescent one
/// is left as it is.
pub open spec fn kill_step(c: Child, now: u64) -> Child {
    if !c.status.is_quiescent() {
        Child { status: Status::Stopped(now), restarts: c.restarts }
    } else {
        c
    }
}

impl Child {
    /// A fresh slot for a process spawned at `now`.
    pub fn new(now: u64) -> (c: Child)
        ensures
            c == (Child { status: Status::Starting(now), restarts: 0u64 }),
    {
        Child { status: Status::Starting(now), restarts: 0 }
    }

    /// Is a live OS process standing behind this slot?
    pub fn is_active(&self) -> (r: bool)
        ensures
            r == self.status.is_active(),
    {
        matches!(self.status, Status::Starting(_) | Status::Running(_))
    }

    /// Is this slot quiescent (`Stopped` or `Finished`)?
    pub fn is_quiescent(&self) -> (r: bool)
        ensures
            r == self.status.is_quiescent(),
    {
        matches!(self.status, Status::Stopped(_) | Status::Finished(_, _))
    }

    /// Instant of the last status transition.
    pub fn last_update(&self) -> (t: u64)
        ensures
            t == self.status.timestamp(),
    {
        match self.status {
            Status::Finished(t, _) => t,
            Status::Running(t) => t,
            Status::Stopped(t) => t,
            Status::Terminating(t) => t,
            Status::Starting(t) => t,
        }
    }

    /// One reconciliation step. `wait` is what polling the OS process
    /// reported; `now` is the current instant. The returned action is what
    /// the caller must do to the OS process.
    pub fn tick(&mut self, program: &Program, wait: WaitStatus, now: u64) -> (action: ChildAction)
        requires
            old(self).status.timestamp() <= now,
        ensures
            *final(self) == tick_step(*old(self), *program, wait, now).0,
            action == tick_step(*old(self), *program, wait, now).1,
            final(self).status.timestamp() <= now,
    {
        match wait {
            WaitStatus::Exited(code) => {
                if !matches!(self.status, Status::Finished(_, _)) {
                    self.status = Status::Finished(now, code);
                }
            }
            _ => {}
        }
        let mut action = ChildAction::Idle;
        match self.status {
            Status::Finished(since, code) => {
                if now - since >= RESPAWN_DELAY_MS && respawn_wanted(program, code)
                    && respawn_room(program, self.restarts) {
                    self.restarts = if self.restarts < u64::MAX {
                        self.restarts + 1
                    } else {
                        self.restarts
                    };
                    self.status = Status::Starting(now);
                    action = ChildAction::Respawn;
                }
            }
            Status::Terminating(since) => {
                if now - since > program.graceful_timeout {
                    self.status = Status::Stopped(now);
                    action = ChildAction::ForceKill;
                }
            }
            Status::Starting(since) => {
                if now - since > program.min_runtime {
                    self.status = Status::Running(now);
                }
            }
            _ => {}
        }
        action
    }

    /// Force-terminate a non-quiescent child: its status becomes
    /// `Stopped(now)`. Returns whether the OS process must now be killed by
    /// the caller.
    pub fn kill(&mut self, now: u64) -> (must_kill: bool)
        ensures
            *final(self) == kill_step(*old(self), now),
            must_kill == !old(self).status.is_quiescent(),
    {
        if matches!(self.status, Status::Starting(_) | Status::Running(_) | Status::Terminating(_)) {
            self.status = Status::Stopped(now);
            true
        } else {
            false
        }
    }

    /// Record a graceful stop: `sent` says whether the caller managed to
    /// deliver the stop signal to the OS process. An active child whose
    /// signal was delivered moves to `Terminating(now)`.
    pub fn stop(&mut self, sent: bool, now: u64)
        ensures
            *final(self) == stop_step(*old(self), sent, now),
    {
        if matches!(self.status, Status::Starting(_) | Status::Running(_)) && sent {
            self.status = Status::Terminating(now);
        }
    }
}

/// Does the program's policy call for replacing a child that exited with `code`?
fn respawn_wanted(program: &Program, code: Option<i32>) -> (r: bool)
    ensures
        r == respawn_wanted_spec(*program, code),
{
    match program.restart_policy {
        RestartPolicy::Never => false,
        RestartPolicy::Always => true,
        RestartPolicy::UnexpectedExit => {
            let cv: i32 = match code {
                Some(c) => c,
                None => 0,
            };
            !contains_code(&program.valid_exit_codes, cv)
        }
    }
}

/// Does `max_restarts` still leave room for one more respawn?
fn respawn_room(program: &Program, restarts: u64) -> (r: bool)
    ensures
        r == respawn_room_spec(*program, restarts),
{
    match program.max_restarts {
        RestartLimit::Limited(m) => restarts < m as u64,
        RestartLimit::Unlimited => true,
    }
}

/// Membership of an exit code in the set of expected codes.
fn contains_code(codes: &Vec<i32>, c: i32) -> (r: bool)
    ensures
        r == codes@.contains(c),
{
    let mut i: usize = 0;
    while i < codes.len()
        invariant
            i <= codes.len(),
            forall|j: int| 0 <= j < i ==> codes@[j] != c,
        decreases codes.len() - i,
    {
        if codes[i] == c {
            return true;
        }
        i += 1;
    }
    false
}

} // verus!

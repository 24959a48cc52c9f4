//! The timed blocking session: Idle, or Blocking since a start time for a
//! duration, driving the hosts-file patcher on start and stop.

use vstd::prelude::*;
use crate::hosts::HostFiles;
use crate::text::views;

verus! {

/// Where a session stands. Times are milliseconds on the caller's clock.
#[derive(Debug, Clone, Copy, PartialEq, Eq, Structural)]
pub enum SessionState {
    Idle,
    Blocking { started_at: u64, duration_ms: u64 },
}

/// Why a session did not start.
#[derive(Debug, Clone, Copy, PartialEq, Eq, Structural)]
pub enum StartError {
    /// There is no domain to block.
    NoDomains,
    /// The duration is zero.
    ZeroDuration,
}

impl SessionState {
    /// The session is blocking and its time is up at `now`.
    pub open spec fn expired_at(self, now: u64) -> bool {
        match self {
            SessionState::Blocking { started_at, duration_ms } => now >= started_at + duration_ms,
            SessionState::Idle => false,
        }
    }

    /// The state after a tick at `now`.
    pub open spec fn after_tick(self, now: u64) -> SessionState {
        if self.expired_at(now) {
            SessionState::Idle
        } else {
            self
        }
    }

    /// Milliseconds left at `now`, at least zero and at most `u64::MAX`;
    /// none when idle.
    pub open spec fn remaining_at(self, now: u64) -> Option<u64> {
        match self {
            SessionState::Blocking { started_at, duration_ms } => {
                let left: int = started_at + duration_ms - now;
                if left <= 0 {
                    Some(0)
                } else if left > u64::MAX {
                    Some(u64::MAX)
                } else {
                    Some(left as u64)
                }
            },
            SessionState::Idle => None,
        }
    }
}

/// A blocking session and the task it serves.
pub struct BlockingSession {
    pub state: SessionState,
    pub task: String,
}

impl BlockingSession {
    /// An idle session.
    pub fn new() -> (r: BlockingSession)
        ensures
            r.state == SessionState::Idle,
            r.task@ == Seq::<char>::empty(),
    {
        BlockingSession { state: SessionState::Idle, task: String::new() }
    }

    pub fn is_blocking(&self) -> (r: bool)
        ensures
            r == (self.state is Blocking),
    {
        match self.state {
            SessionState::Blocking { .. } => true,
            SessionState::Idle => false,
        }
    }

    /// Starts blocking `domains` for `duration_ms` from `now`: takes the
    /// backup if none is held, patches the hosts content, then records the
    /// session. On a refusal nothing changes.
    pub fn start(
        &mut self,
        files: &mut HostFiles,
        domains: &Vec<String>,
        now: u64,
        duration_ms: u64,
        task: String,
    ) -> (r: Result<(), StartError>)
        requires
            old(self).state is Idle,
        ensures
            domains@.len() == 0 ==> r == Err::<(), StartError>(StartError::NoDomains),
            domains@.len() > 0 && duration_ms == 0 ==> r == Err::<(), StartError>(
                StartError::ZeroDuration,
            ),
            domains@.len() > 0 && duration_ms > 0 ==> r is Ok,
            r is Ok ==> final(files)@ == old(files)@.with_backup().blocked(views(domains@)),
            r is Ok ==> final(self).state == (SessionState::Blocking {
                started_at: now,
                duration_ms,
            }),
            r is Ok ==> final(self).task == task,
            r is Err ==> *final(self) == *old(self) && *final(files) == *old(files),
    {
        if domains.len() == 0 {
            return Err(StartError::NoDomains);
        }
        if duration_ms == 0 {
            return Err(StartError::ZeroDuration);
        }
        files.ensure_backup();
        files.apply_block(domains);
        self.state = SessionState::Blocking { started_at: now, duration_ms };
        self.task = task;
        Ok(())
    }

    /// Ends the session and puts the backup back in place of the hosts file.
    pub fn stop(&mut self, files: &mut HostFiles)
        ensures
            final(self).state == SessionState::Idle,
            final(self).task == old(self).task,
            final(files)@ == old(files)@.restored(),
    {
        files.remove_block();
        self.state = SessionState::Idle;
    }

    /// Ends the session if its time is up at `now`; tells whether it did.
    pub fn tick(&mut self, files: &mut HostFiles, now: u64) -> (ended: bool)
        ensures
            ended == old(self).state.expired_at(now),
            final(self).state == old(self).state.after_tick(now),
            final(self).task == old(self).task,
            ended ==> final(files)@ == old(files)@.restored(),
            !ended ==> *final(files) == *old(files),
    {
        let expired = match self.state {
            SessionState::Blocking { started_at, duration_ms } => now >= started_at && now
                - started_at >= duration_ms,
            SessionState::Idle => false,
        };
        if expired {
            self.stop(files);
        }
        expired
    }

    /// One check of a countdown that the user may cancel: a cancel ends a
    /// blocking session at once, otherwise it ends when its time is up at
    /// `now`. Tells whether it ended.
    pub fn poll(&mut self, files: &mut HostFiles, now: u64, cancel: bool) -> (ended: bool)
        ensures
            ended == (old(self).state is Blocking && (cancel || old(self).state.expired_at(now))),
            ended ==> final(self).state == SessionState::Idle && final(files)@ == old(
                files,
            )@.restored(),
            final(self).task == old(self).task,
            !ended ==> *final(self) == *old(self) && *final(files) == *old(files),
    {
        if cancel && self.is_blocking() {
            self.stop(files);
            true
        } else {
            self.tick(files, now)
        }
    }

    /// Milliseconds left at `now`, none when idle.
    pub fn remaining_time(&self, now: u64) -> (r: Option<u64>)
        ensures
            r == self.state.remaining_at(now),
    {
        match self.state {
            SessionState::Blocking { started_at, duration_ms } => {
                if now >= started_at {
                    let elapsed = now - started_at;
                    if elapsed >= duration_ms {
                        Some(0)
                    } else {
                        Some(duration_ms - elapsed)
                    }
                } else {
                    Some((started_at - now).saturating_add(duration_ms))
                }
            },
            SessionState::Idle => None,
        }
    }
}

/// A session started at `start` for `duration_ms`: ticks before its end
/// leave it blocking; the first tick at or after its end makes it idle and
/// restores the hosts file; no tick after that restores it again.
pub proof fn lemma_expiry(start: u64, duration_ms: u64, now: u64, later: u64)
    ensures
        ({
            let s = SessionState::Blocking { started_at: start, duration_ms };
            &&& now < start + duration_ms ==> !s.expired_at(now) && s.after_tick(now) == s
            &&& now >= start + duration_ms ==> s.expired_at(now) && s.after_tick(now)
                == SessionState::Idle
            &&& now >= start + duration_ms ==> !s.after_tick(now).expired_at(later)
                && s.after_tick(now).after_tick(later) == SessionState::Idle
        }),
{
}

/// The state after ticks at each of `times` in turn, and how many of those
/// ticks ended the session (each such tick restores the hosts file once).
pub open spec fn run_ticks(s: SessionState, times: Seq<u64>) -> (SessionState, nat)
    decreases times.len(),
{
    if times.len() == 0 {
        (s, 0)
    } else {
        let (p, c) = run_ticks(s, times.drop_last());
        let t = times.last();
        (p.after_tick(t), c + if p.expired_at(t) {
            1nat
        } else {
            0nat
        })
    }
}

proof fn lemma_idle_ticks(times: Seq<u64>)
    ensures
        run_ticks(SessionState::Idle, times) == (SessionState::Idle, 0nat),
    decreases times.len(),
{
    if times.len() > 0 {
        lemma_idle_ticks(times.drop_last());
    }
}

/// Over any sequence of ticks on a session started at `start` for
/// `duration_ms`: while no tick has come at or after its end, it stays
/// blocking and nothing is restored; once one has, it is idle and exactly
/// one tick restored the hosts file, the first tick at or after the end.
pub proof fn lemma_expiry_sequence(start: u64, duration_ms: u64, times: Seq<u64>)
    ensures
        ({
            let s = SessionState::Blocking { started_at: start, duration_ms };
            let end = start + duration_ms;
            &&& (forall|i: int| 0 <= i < times.len() ==> #[trigger] times[i] < end) ==> run_ticks(
                s,
                times,
            ) == (s, 0nat)
            &&& (exists|i: int| 0 <= i < times.len() && #[trigger] times[i] >= end) ==> run_ticks(
                s,
                times,
            ) == (SessionState::Idle, 1nat)
        }),
    decreases times.len(),
{
    let s = SessionState::Blocking { started_at: start, duration_ms };
    let end = start + duration_ms;
    if times.len() > 0 {
        let rest = times.drop_last();
        lemma_expiry_sequence(start, duration_ms, rest);
        if exists|i: int| 0 <= i < rest.len() && #[trigger] rest[i] >= end {
            lemma_idle_ticks(seq![times.last()]);
            assert(run_ticks(SessionState::Idle, seq![times.last()]) == (
                SessionState::Idle,
                0nat,
            ));
        } else {
            assert forall|i: int| 0 <= i < rest.len() implies #[trigger] rest[i] < end by {
                if rest[i] >= end {
                    assert(0 <= i < rest.len() && rest[i] >= end);
                }
            }
            if exists|i: int| 0 <= i < times.len() && #[trigger] times[i] >= end {
                let i = choose|i: int| 0 <= i < times.len() && #[trigger] times[i] >= end;
                if i < rest.len() {
                    assert(rest[i] == times[i]);
                }
            }
            assert forall|i: int| 0 <= i < rest.len() implies #[trigger] times[i] < end by {
                assert(rest[i] == times[i]);
            }
        }
    }
}

/// The first tick at or after the end of a session is the one that ends it.
pub proof fn lemma_first_late_tick_restores(start: u64, duration_ms: u64, times: Seq<u64>, f: int)
    requires
        0 <= f < times.len(),
        times[f] >= start + duration_ms,
        forall|i: int| 0 <= i < f ==> #[trigger] times[i] < start + duration_ms,
    ensures
        ({
            let s = SessionState::Blocking { started_at: start, duration_ms };
            &&& run_ticks(s, times.take(f)) == (s, 0nat)
            &&& run_ticks(s, times.take(f + 1)) == (SessionState::Idle, 1nat)
            &&& run_ticks(s, times) == (SessionState::Idle, 1nat)
        }),
{
    lemma_expiry_sequence(start, duration_ms, times.take(f));
    lemma_expiry_sequence(start, duration_ms, times.take(f + 1));
    lemma_expiry_sequence(start, duration_ms, times);
    assert(times.take(f + 1)[f] == times[f]);
    assert(times[f] >= start + duration_ms);
    assert forall|i: int| 0 <= i < times.take(f).len() implies #[trigger] times.take(f)[i] < start
        + duration_ms by {
        assert(times.take(f)[i] == times[i]);
    }
}

} // verus!

//! The session ledger: the ordered list of configured sessions, the
//! current index and its start time, and the per-session lap records.
use crate::packets::common::SessionType;
use crate::packets::server::Lap;
use crate::packets::server::SessionU;
use vstd::prelude::*;

verus! {

/// Whether a session accepts new entries.
#[derive(Debug, Clone, Copy, PartialEq, Eq, Structural)]
pub enum SessionOpenType {
    Closed,
    Open,
    WaitOnly,
}

/// One configured session: its name, kind, duration and lap limit.
#[derive(Debug, Clone, PartialEq)]
pub struct Session {
    /// The session name as the wire carries it.
    pub name: Vec<u8>,
    pub session_type: SessionType,
    /// Duration in seconds.
    pub end_secs: u32,
    pub laps: u16,
}

/// The session ledger: at least one session, a current index and the
/// monotonic start time of the current session in milliseconds.
#[derive(Debug, Clone, PartialEq)]
pub struct Sessions {
    pub sessions: Vec<Session>,
    pub start_ms: u64,
    pub current: usize,
}

impl Sessions {
    /// At least one session, the current index in range, and session
    /// names short enough for the wire.
    pub open spec fn wf(&self) -> bool {
        &&& 1 <= self.sessions@.len() <= 255
        &&& self.current < self.sessions@.len()
        &&& forall|i: int|
            0 <= i < self.sessions@.len() ==> (#[trigger] self.sessions@[i]).name@.len() <= 255
    }

    pub open spec fn spec_sessions(&self) -> Seq<Session> {
        self.sessions@
    }

    pub open spec fn spec_current(&self) -> int {
        self.current as int
    }

    pub open spec fn spec_start(&self) -> u64 {
        self.start_ms
    }

    /// The descriptor of the current session.
    pub open spec fn spec_current_session(&self) -> Session {
        self.sessions@[self.current as int]
    }

    /// When the current session is over: its duration has elapsed.
    pub open spec fn spec_is_over(&self, now_ms: u64) -> bool {
        now_ms - self.start_ms >= self.spec_current_session().end_secs * 1000
    }

    /// Builds a ledger on the given session list, starting at the first
    /// session now.
    pub fn new(sessions: Vec<Session>, now_ms: u64) -> (r: Sessions)
        requires
            1 <= sessions@.len() <= 255,
            forall|i: int| 0 <= i < sessions@.len() ==> (#[trigger] sessions@[i]).name@.len() <= 255,
        ensures
            r.wf(),
            r.spec_sessions() == sessions@,
            r.spec_current() == 0,
            r.spec_start() == now_ms,
    {
        Sessions { sessions, start_ms: now_ms, current: 0 }
    }

    /// The wire byte of every session's kind, in order.
    pub fn get_types(&self) -> (r: Vec<u8>)
        ensures
            r@.len() == self.spec_sessions().len(),
            forall|i: int|
                0 <= i < r@.len() ==> r@[i] == (#[trigger] self.spec_sessions()[i]).session_type.spec_byte(),
    {
        let mut out: Vec<u8> = Vec::new();
        let mut i: usize = 0;
        while i < self.sessions.len()
            invariant
                i <= self.sessions@.len(),
                out@.len() == i,
                forall|j: int|
                    0 <= j < i ==> out@[j] == (#[trigger] self.sessions@[j]).session_type.spec_byte(),
            decreases self.sessions@.len() - i,
        {
            out.push(self.sessions[i].session_type.byte());
            i = i + 1;
        }
        out
    }

    /// The duration of every session in seconds, in order.
    pub fn get_durations(&self) -> (r: Vec<i64>)
        ensures
            r@.len() == self.spec_sessions().len(),
            forall|i: int|
                0 <= i < r@.len() ==> r@[i] == (#[trigger] self.spec_sessions()[i]).end_secs as i64,
    {
        let mut out: Vec<i64> = Vec::new();
        let mut i: usize = 0;
        while i < self.sessions.len()
            invariant
                i <= self.sessions@.len(),
                out@.len() == i,
                forall|j: int| 0 <= j < i ==> out@[j] == (#[trigger] self.sessions@[j]).end_secs as i64,
            decreases self.sessions@.len() - i,
        {
            out.push(self.sessions[i].end_secs as i64);
            i = i + 1;
        }
        out
    }

    /// The descriptor of the current session.
    pub fn get_current_session(&self) -> (r: &Session)
        requires
            self.wf(),
        ensures
            *r == self.spec_current_session(),
    {
        &self.sessions[self.current]
    }

    /// The current session index.
    pub fn get_current(&self) -> (r: usize)
        ensures
            r == self.spec_current(),
    {
        self.current
    }

    /// Whether the current session's duration has elapsed.
    pub fn is_over(&self, now_ms: u64) -> (r: bool)
        requires
            self.wf(),
            now_ms >= self.spec_start(),
        ensures
            r == self.spec_is_over(now_ms),
    {
        let end: u64 = self.sessions[self.current].end_secs as u64 * 1000;
        now_ms - self.start_ms >= end
    }

    /// Milliseconds left in the current session, clamped to zero.
    pub fn left_time(&self, now_ms: u64) -> (r: u64)
        requires
            self.wf(),
            now_ms >= self.spec_start(),
        ensures
            r == (if self.spec_is_over(now_ms) {
                0int
            } else {
                self.spec_current_session().end_secs * 1000 - (now_ms - self.spec_start())
            }),
    {
        let end: u64 = self.sessions[self.current].end_secs as u64 * 1000;
        let elapsed = now_ms - self.start_ms;
        if elapsed >= end {
            0
        } else {
            end - elapsed
        }
    }

    /// Restarts the current session's clock.
    pub fn start(&mut self, now_ms: u64)
        ensures
            *final(self) == (Sessions { start_ms: now_ms, ..*old(self) }),
    {
        self.start_ms = now_ms;
    }

    /// The start time of the current session.
    pub fn get_start(&self) -> (r: u64)
        ensures
            r == self.spec_start(),
    {
        self.start_ms
    }

    /// Advances to the next session, wrapping around, and restarts the
    /// clock.
    pub fn next_session(&mut self, now_ms: u64)
        requires
            old(self).wf(),
        ensures
            final(self).wf(),
            final(self).spec_sessions() == old(self).spec_sessions(),
            final(self).spec_current() == (old(self).spec_current() + 1) % (
            old(self).spec_sessions().len() as int),
            final(self).spec_start() == now_ms,
    {
        let len = self.sessions.len();
        assert(self.current < len);
        self.current = (self.current + 1) % len;
        self.start_ms = now_ms;
    }

    /// The session list as the welcome frame carries it.
    pub fn to_packet_list(&self) -> (r: Vec<SessionU>)
        ensures
            r@.len() == self.spec_sessions().len(),
            forall|i: int|
                0 <= i < r@.len() ==> r@[i] == (SessionU {
                    session_type: (#[trigger] self.spec_sessions()[i]).session_type,
                    laps: self.spec_sessions()[i].laps,
                    time: self.spec_sessions()[i].end_secs as u16,
                }),
    {
        let mut out: Vec<SessionU> = Vec::new();
        let mut i: usize = 0;
        while i < self.sessions.len()
            invariant
                i <= self.sessions@.len(),
                out@.len() == i,
                forall|j: int|
                    0 <= j < i ==> out@[j] == (SessionU {
                        session_type: (#[trigger] self.sessions@[j]).session_type,
                        laps: self.sessions@[j].laps,
                        time: self.sessions@[j].end_secs as u16,
                    }),
            decreases self.sessions@.len() - i,
        {
            let s = &self.sessions[i];
            out.push(SessionU { session_type: s.session_type, laps: s.laps, time: s.end_secs as u16 });
            i = i + 1;
        }
        out
    }
}

} // verus!

//! The watcher: the IDLE loop's timing and dispatch decisions, and the
//! periodic poll fallback.  The caller performs the I/O each decision asks
//! for and reports what happened.

use vstd::prelude::*;

use crate::bytes::{is_prefix, upper_seq, SP};
use crate::parser::ascii;

verus! {

/// Heartbeat period inside IDLE: ten minutes after the previous DONE.
pub const HEARTBEAT_MS: u64 = 600_000;

/// How often the other mailboxes are polled through the shared connection.
pub const PEER_POLL_MS: u64 = 300_000;

/// The poll-mode tick: every subscribed mailbox is examined this often.
pub const POLL_PERIOD_MS: u64 = 180_000;

/// What the IDLE loop observed while waiting.
#[derive(Debug)]
pub enum WatchEvent {
    /// A complete record arrived from the server.
    Line(Vec<u8>),
    /// The read deadline passed with nothing to read.
    TimedOut,
    /// The stream ended or failed.
    StreamEnded,
}

/// What the IDLE loop must do now, in order: reconnect if asked; poll the
/// peer mailboxes if asked; send DONE, process, and re-enter IDLE if asked.
#[derive(Debug, Clone, Copy, PartialEq, Eq, Structural)]
pub struct IdleDecision {
    /// Send DONE, drain the response, re-IDLE, and NOOP the main connection.
    pub heartbeat: bool,
    /// Run the update scan on every other subscribed mailbox.
    pub poll_peers: bool,
    /// The line carries real untagged data: send DONE, process the pending
    /// lines, and re-enter IDLE.
    pub process_line: bool,
    /// Reconnect both the watcher's and the main connection, then re-IDLE.
    pub reconnect: bool,
}

/// Clock state of one IDLE session.
#[derive(Debug, Clone, Copy, PartialEq, Eq, Structural)]
pub struct WatcherState {
    /// When the previous DONE was sent (the heartbeat clock).
    pub last_done_ms: u64,
    /// When the peer mailboxes were last polled.
    pub last_peer_poll_ms: u64,
}

/// The heartbeat is due exactly when ten minutes have passed since the
/// previous DONE — whatever else arrived in between.
pub open spec fn spec_heartbeat_due(st: WatcherState, now_ms: u64) -> bool {
    now_ms >= st.last_done_ms + HEARTBEAT_MS
}

/// The peer poll is due exactly when five minutes have passed.
pub open spec fn spec_peer_poll_due(st: WatcherState, now_ms: u64) -> bool {
    now_ms >= st.last_peer_poll_ms + PEER_POLL_MS
}

/// Server chatter that IDLE ignores: continuation marks and `* OK` lines.
pub open spec fn spec_ignored_line(l: Seq<u8>) -> bool {
    ||| is_prefix(l, ascii("+ "@))
    ||| (l.len() >= 4 && upper_seq(l.subrange(0, 4)) == ascii("* OK"@))
}

/// Is this line chatter the IDLE loop ignores?
pub fn ignored_line(l: &[u8]) -> (r: bool)
    ensures
        r == spec_ignored_line(l@),
{
    proof {
        reveal_strlit("+ ");
        reveal_strlit("* OK");
    }
    let plus: [u8; 2] = [43, SP];
    proof {
        assert(plus@ =~= ascii("+ "@));
    }
    if crate::bytes::starts_with(l, plus.as_slice()) {
        return true;
    }
    if l.len() >= 4 {
        let head = crate::parser::sub_bytes(l, 0, 4);
        let ok: [u8; 4] = [42, SP, 79, 75];
        proof {
            assert(ok@ =~= ascii("* OK"@));
            assert(upper_seq(ok@) =~= ok@);
        }
        if crate::bytes::eq_ignore_case(head.as_slice(), ok.as_slice()) {
            return true;
        }
        proof {
            assert(head@ == l@.subrange(0, 4));
        }
    }
    false
}

impl WatcherState {
    /// Start the clocks at the moment IDLE is entered.
    pub fn new(now_ms: u64) -> (r: WatcherState)
        ensures
            r.last_done_ms == now_ms,
            r.last_peer_poll_ms == now_ms,
    {
        WatcherState { last_done_ms: now_ms, last_peer_poll_ms: now_ms }
    }

    /// The moment the next read must give up: the heartbeat deadline.
    pub fn read_deadline(&self) -> (r: u64)
        requires
            self.last_done_ms + HEARTBEAT_MS <= u64::MAX,
        ensures
            r == self.last_done_ms + HEARTBEAT_MS,
    {
        self.last_done_ms + HEARTBEAT_MS
    }

    /// One turn of the IDLE loop.  The heartbeat fires exactly when ten
    /// minutes have elapsed since the previous DONE, independent of which
    /// event woke the loop; peer polls fire on their own five-minute clock;
    /// a line is processed only when it is not ignored chatter.
    pub fn idle_step(&mut self, now_ms: u64, event: &WatchEvent) -> (d: IdleDecision)
        requires
            old(self).last_done_ms + HEARTBEAT_MS <= u64::MAX,
            old(self).last_peer_poll_ms + PEER_POLL_MS <= u64::MAX,
        ensures
            d.heartbeat == spec_heartbeat_due(*old(self), now_ms),
            d.poll_peers == spec_peer_poll_due(*old(self), now_ms),
            d.reconnect == (event is StreamEnded),
            d.process_line == (match event {
                WatchEvent::Line(l) => !spec_ignored_line(l@),
                _ => false,
            }),
            final(self).last_done_ms == (if d.heartbeat || d.process_line {
                now_ms
            } else {
                old(self).last_done_ms
            }),
            final(self).last_peer_poll_ms == (if d.poll_peers {
                now_ms
            } else {
                old(self).last_peer_poll_ms
            }),
    {
        let heartbeat = now_ms >= self.last_done_ms + HEARTBEAT_MS;
        let poll_peers = now_ms >= self.last_peer_poll_ms + PEER_POLL_MS;
        let (process_line, reconnect) = match event {
            WatchEvent::Line(l) => (!ignored_line(l.as_slice()), false),
            WatchEvent::TimedOut => (false, false),
            WatchEvent::StreamEnded => (false, true),
        };
        if heartbeat || process_line {
            self.last_done_ms = now_ms;
        }
        if poll_peers {
            self.last_peer_poll_ms = now_ms;
        }
        IdleDecision { heartbeat, poll_peers, process_line, reconnect }
    }
}

/// The heartbeat decision is a function of the clock alone: two wakeups of
/// the same session at the same instant decide the heartbeat identically,
/// whatever events woke them.
pub proof fn lemma_heartbeat_independent_of_event(
    st: WatcherState,
    now_ms: u64,
    d1: IdleDecision,
    d2: IdleDecision,
)
    requires
        d1.heartbeat == spec_heartbeat_due(st, now_ms),
        d2.heartbeat == spec_heartbeat_due(st, now_ms),
    ensures
        d1.heartbeat == d2.heartbeat,
{
}

/// Poll-mode clock: examine every subscribed mailbox each tick.
#[derive(Debug, Clone, Copy, PartialEq, Eq, Structural)]
pub struct PollState {
    pub last_scan_ms: u64,
}

impl PollState {
    pub fn new(now_ms: u64) -> (r: PollState)
        ensures
            r.last_scan_ms == now_ms,
    {
        PollState { last_scan_ms: now_ms }
    }

    /// Whether a full scan is due, and the clock update when it is.
    pub fn tick(&mut self, now_ms: u64) -> (scan: bool)
        requires
            old(self).last_scan_ms + POLL_PERIOD_MS <= u64::MAX,
        ensures
            scan == (now_ms >= old(self).last_scan_ms + POLL_PERIOD_MS),
            final(self).last_scan_ms == (if scan {
                now_ms
            } else {
                old(self).last_scan_ms
            }),
    {
        if now_ms >= self.last_scan_ms + POLL_PERIOD_MS {
            self.last_scan_ms = now_ms;
            true
        } else {
            false
        }
    }
}

} // verus!

use vstd::prelude::*;

verus! {

/// How long a request may wait for a reply before the connection counts as stale.
pub const EXPECTED_RESPONSE_MS: u64 = 200;

/// How long without any message before the server is asked for its status.
pub const SUSPICIOUS_QUIET_MS: u64 = 300_000;

/// Interval of the suspend detector's tick.
pub const SUSPEND_MONITOR_MS: u64 = 1_000;

/// A wall-clock gap between two ticks of at least this long means the machine slept.
pub const SUSPEND_THRESHOLD_MS: u64 = 10_000;

/// A change of the connection's state, as the connection reports it.
#[derive(Clone, Copy, Debug, PartialEq, Eq, Structural)]
pub enum LinkStatus {
    Connected,
    Disconnected,
    ReconnectFailed,
}

/// Connection health and the timers that watch it. Times are milliseconds on a
/// monotonic clock, except `last_wall_ms`, which is on the wall clock.
#[derive(Clone, Copy, Debug, PartialEq, Eq, Structural)]
pub struct Watchdog {
    pub connected: bool,
    /// Connected, but a request went unanswered for too long.
    pub stale: bool,
    pub reconnect_attempts: u32,
    /// When the quiet timer fires, if armed.
    pub quiet_deadline: Option<u64>,
    /// When the response timer fires, if armed.
    pub response_deadline: Option<u64>,
    /// Wall-clock time of the suspend detector's previous tick.
    pub last_wall_ms: u64,
}

/// `now + d`, saturating at the largest time.
pub open spec fn after(now: u64, d: u64) -> u64 {
    if now + d > u64::MAX {
        u64::MAX
    } else {
        (now + d) as u64
    }
}

/// `n + 1`, saturating at the largest count.
pub open spec fn bumped(n: u32) -> u32 {
    if n == u32::MAX {
        n
    } else {
        (n + 1) as u32
    }
}

/// Whether a suspend-detector tick at `wall_ms`, after one at `last_ms`, shows a gap that
/// only a sleep of the machine explains. A clock that went back shows none.
pub open spec fn suspend_gap(last_ms: u64, wall_ms: u64) -> bool {
    wall_ms >= last_ms && wall_ms - last_ms >= SUSPEND_THRESHOLD_MS
}

fn deadline_after(now: u64, d: u64) -> (r: u64)
    ensures
        r == after(now, d),
{
    if now > u64::MAX - d {
        u64::MAX
    } else {
        now + d
    }
}

impl Watchdog {
    /// Disconnected, with the quiet timer armed from `now_ms`.
    pub fn new(now_ms: u64, wall_ms: u64) -> (r: Self)
        ensures
            !r.connected,
            !r.stale,
            r.reconnect_attempts == 0,
            r.quiet_deadline == Some(after(now_ms, SUSPICIOUS_QUIET_MS)),
            r.response_deadline is None,
            r.last_wall_ms == wall_ms,
    {
        Watchdog {
            connected: false,
            stale: false,
            reconnect_attempts: 0,
            quiet_deadline: Some(deadline_after(now_ms, SUSPICIOUS_QUIET_MS)),
            response_deadline: None,
            last_wall_ms: wall_ms,
        }
    }

    /// The timers watch only a connection that is up and not already stale.
    pub open spec fn watching(&self) -> bool {
        self.connected && !self.stale
    }

    /// The quiet timer's deadline, while it is armed and watching.
    pub fn quiet_timer(&self) -> (r: Option<u64>)
        ensures
            r == (if self.watching() {
                self.quiet_deadline
            } else {
                None
            }),
    {
        if self.connected && !self.stale {
            self.quiet_deadline
        } else {
            None
        }
    }

    /// The response timer's deadline, while it is armed and watching.
    pub fn response_timer(&self) -> (r: Option<u64>)
        ensures
            r == (if self.watching() {
                self.response_deadline
            } else {
                None
            }),
    {
        if self.connected && !self.stale {
            self.response_deadline
        } else {
            None
        }
    }

    /// Applies a connection-status change. Returns whether the server should be asked
    /// for its full status (after a connect).
    pub fn on_status(&mut self, status: LinkStatus) -> (r: bool)
        ensures
            r == (status == LinkStatus::Connected),
            final(self).stale == old(self).stale,
            final(self).quiet_deadline == old(self).quiet_deadline,
            final(self).response_deadline == old(self).response_deadline,
            final(self).last_wall_ms == old(self).last_wall_ms,
            status == LinkStatus::Connected ==> final(self).connected
                && final(self).reconnect_attempts == 0,
            status == LinkStatus::Disconnected ==> !final(self).connected
                && final(self).reconnect_attempts == 1,
            status == LinkStatus::ReconnectFailed ==> final(self).connected == old(self).connected
                && final(self).reconnect_attempts == bumped(old(self).reconnect_attempts),
    {
        match status {
            LinkStatus::Connected => {
                self.connected = true;
                self.reconnect_attempts = 0;
                true
            },
            LinkStatus::Disconnected => {
                self.connected = false;
                self.reconnect_attempts = 1;
                false
            },
            LinkStatus::ReconnectFailed => {
                if self.reconnect_attempts < u32::MAX {
                    self.reconnect_attempts = self.reconnect_attempts + 1;
                }
                false
            },
        }
    }

    /// The quiet timer fired. If it was armed and watching, it is disarmed and the server
    /// should be asked for its status (returns true).
    pub fn on_quiet_timer(&mut self) -> (r: bool)
        ensures
            r == (old(self).watching() && old(self).quiet_deadline is Some),
            r ==> *final(self) == (Watchdog { quiet_deadline: None, ..*old(self) }),
            !r ==> *final(self) == *old(self),
    {
        if self.connected && !self.stale && self.quiet_deadline.is_some() {
            self.quiet_deadline = None;
            true
        } else {
            false
        }
    }

    /// The response timer fired. If it was armed and watching, the connection becomes
    /// stale and the timer is spent (returns true: the view changed).
    pub fn on_response_timer(&mut self) -> (r: bool)
        ensures
            r == (old(self).watching() && old(self).response_deadline is Some),
            r ==> *final(self) == (Watchdog { stale: true, response_deadline: None, ..*old(self) }),
            !r ==> *final(self) == *old(self),
    {
        if self.connected && !self.stale && self.response_deadline.is_some() {
            self.stale = true;
            self.response_deadline = None;
            true
        } else {
            false
        }
    }

    /// A batch of messages arrived at `now_ms`: the quiet timer is armed afresh, the
    /// response timer disarmed, and staleness cleared. Returns whether it was stale.
    pub fn on_messages(&mut self, now_ms: u64) -> (r: bool)
        ensures
            r == old(self).stale,
            *final(self) == (Watchdog {
                stale: false,
                quiet_deadline: Some(after(now_ms, SUSPICIOUS_QUIET_MS)),
                response_deadline: None,
                ..*old(self)
            }),
    {
        let was_stale = self.stale;
        self.stale = false;
        self.quiet_deadline = Some(deadline_after(now_ms, SUSPICIOUS_QUIET_MS));
        self.response_deadline = None;
        was_stale
    }

    /// A request was sent at `now_ms`: the response timer is armed.
    pub fn on_sent(&mut self, now_ms: u64)
        ensures
            *final(self) == (Watchdog {
                response_deadline: Some(after(now_ms, EXPECTED_RESPONSE_MS)),
                ..*old(self)
            }),
    {
        self.response_deadline = Some(deadline_after(now_ms, EXPECTED_RESPONSE_MS));
    }

    /// The suspend detector ticked at wall-clock time `wall_ms`. Returns whether the gap
    /// since the previous tick shows that the machine slept, so that the connection
    /// should be checked.
    pub fn on_suspend_tick(&mut self, wall_ms: u64) -> (r: bool)
        ensures
            r == suspend_gap(old(self).last_wall_ms, wall_ms),
            *final(self) == (Watchdog { last_wall_ms: wall_ms, ..*old(self) }),
    {
        let slept = wall_ms >= self.last_wall_ms && wall_ms - self.last_wall_ms
            >= SUSPEND_THRESHOLD_MS;
        self.last_wall_ms = wall_ms;
        slept
    }
}

} // verus!

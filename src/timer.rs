//! A pausable one-shot connection timer driven by caller-supplied clock
//! readings (whole seconds).
use vstd::prelude::*;

verus! {

/// Charges wall-clock time against a target while active. Pausing keeps the
/// time left; resuming re-arms with that remainder.
#[derive(Clone, Copy, Debug, PartialEq, Eq, Structural)]
pub struct ConnTimer {
    pub target_secs: u64,
    /// Time left when last paused (or when armed).
    pub remaining_secs: u64,
    /// When the current run started (meaningful while active).
    pub started_at: u64,
    /// When the current run ends: `started_at + remaining_secs`, saturated.
    pub deadline: u64,
    pub active: bool,
    /// The entry to notify when the timer fires.
    pub cb: Option<usize>,
}

pub open spec fn sat_add(a: u64, b: u64) -> u64 {
    if a + b > u64::MAX {
        u64::MAX
    } else {
        (a + b) as u64
    }
}

impl ConnTimer {
    pub open spec fn wf(self) -> bool {
        &&& self.remaining_secs <= self.target_secs
        &&& self.active ==> self.deadline == sat_add(self.started_at, self.remaining_secs)
    }

    /// The timer after `start(now)`.
    pub open spec fn started_spec(self, now: u64) -> ConnTimer {
        if self.active {
            self
        } else {
            ConnTimer {
                active: true,
                started_at: now,
                deadline: sat_add(now, self.remaining_secs),
                ..self
            }
        }
    }

    /// The timer after `stop(now)`: the time left is kept.
    pub open spec fn stopped_spec(self, now: u64) -> ConnTimer {
        if !self.active {
            self
        } else {
            ConnTimer {
                active: false,
                remaining_secs: if now >= self.deadline {
                    0
                } else if now <= self.started_at {
                    self.remaining_secs
                } else {
                    (self.deadline - now) as u64
                },
                ..self
            }
        }
    }

    /// The timer has run out at time `now`.
    pub open spec fn fires_spec(self, now: u64) -> bool {
        self.active && now >= self.deadline
    }

    pub fn new(target_secs: u64) -> (r: ConnTimer)
        ensures
            r.wf(),
            r.target_secs == target_secs,
            r.remaining_secs == target_secs,
            !r.active,
            r.cb is None,
    {
        ConnTimer {
            target_secs,
            remaining_secs: target_secs,
            started_at: 0,
            deadline: 0,
            active: false,
            cb: None,
        }
    }

    /// Names the entry to notify when the timer fires.
    pub fn set_callback(&mut self, entry: usize)
        ensures
            *final(self) == (ConnTimer { cb: Some(entry), ..*old(self) }),
    {
        self.cb = Some(entry);
    }

    pub fn clear_callback(&mut self)
        ensures
            *final(self) == (ConnTimer { cb: None, ..*old(self) }),
    {
        self.cb = None;
    }

    /// Arms (or resumes) the timer at `now` with the time left; no effect
    /// while already active.
    pub fn start(&mut self, now: u64)
        requires
            old(self).wf(),
        ensures
            final(self).wf(),
            final(self).active,
            *final(self) == old(self).started_spec(now),
            old(self).active ==> *final(self) == *old(self),
            !old(self).active ==> *final(self) == (ConnTimer {
                active: true,
                started_at: now,
                deadline: sat_add(now, old(self).remaining_secs),
                ..*old(self)
            }),
    {
        if !self.active {
            self.started_at = now;
            self.deadline = now.saturating_add(self.remaining_secs);
            self.active = true;
        }
    }

    /// Pauses the timer at `now`, keeping the time left; no effect while
    /// paused.
    pub fn stop(&mut self, now: u64)
        requires
            old(self).wf(),
        ensures
            final(self).wf(),
            !final(self).active,
            *final(self) == old(self).stopped_spec(now),
            !old(self).active ==> *final(self) == *old(self),
            old(self).active ==> *final(self) == (ConnTimer {
                active: false,
                remaining_secs: if now >= old(self).deadline {
                    0
                } else if now <= old(self).started_at {
                    old(self).remaining_secs
                } else {
                    (old(self).deadline - now) as u64
                },
                ..*old(self)
            }),
    {
        if self.active {
            if now >= self.deadline {
                self.remaining_secs = 0;
            } else if now > self.started_at {
                self.remaining_secs = self.deadline - now;
            }
            self.active = false;
        }
    }

    /// Charges nothing so far: the full target is left again, counted from
    /// `now` while active.
    pub fn reset(&mut self, now: u64)
        requires
            old(self).wf(),
        ensures
            final(self).wf(),
            final(self).remaining_secs == old(self).target_secs,
            final(self).active == old(self).active,
            final(self).target_secs == old(self).target_secs,
            final(self).cb == old(self).cb,
            old(self).active ==> final(self).started_at == now && final(self).deadline == sat_add(
                now,
                old(self).target_secs,
            ),
    {
        self.remaining_secs = self.target_secs;
        if self.active {
            self.started_at = now;
            self.deadline = now.saturating_add(self.target_secs);
        }
    }

    /// The timer has run out at `now`.
    pub fn fires(&self, now: u64) -> (r: bool)
        ensures
            r == self.fires_spec(now),
    {
        self.active && now >= self.deadline
    }

    /// Seconds left at `now`.
    pub fn remaining(&self, now: u64) -> (r: u64)
        requires
            self.wf(),
        ensures
            !self.active ==> r == self.remaining_secs,
            self.active && now >= self.deadline ==> r == 0,
            self.active && now < self.deadline && now > self.started_at ==> r == self.deadline
                - now,
            self.active && now < self.deadline && now <= self.started_at ==> r
                == self.remaining_secs,
    {
        if !self.active {
            self.remaining_secs
        } else if now >= self.deadline {
            0
        } else if now > self.started_at {
            self.deadline - now
        } else {
            self.remaining_secs
        }
    }
}

/// A running timer that has not fired at `now`, started no later than `now`,
/// has its deadline after `now` and at most its target past `now`.
pub proof fn lemma_running_deadline(t: ConnTimer, now: u64)
    requires
        t.wf(),
        t.active,
        t.started_at <= now,
        !t.fires_spec(now),
    ensures
        now < t.deadline,
        t.deadline <= now + t.target_secs,
{
}

} // verus!

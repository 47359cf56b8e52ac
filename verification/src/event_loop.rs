//! Pacing decisions of the UI event loop.
//!
//! The embedding program sleeps, polls the window system and redraws; this
//! type decides for it: how long to wait so the loop runs no faster than
//! once per [`MIN_TICK_MS`], whether it may block for the next event, and
//! which frame timestamps the frame counter keeps.  Time reaches the
//! library as milliseconds on a monotonic clock.

use std::collections::VecDeque;

use vstd::prelude::*;

verus! {

/// The loop runs at most once per this many milliseconds.
pub const MIN_TICK_MS: u64 = 10;

/// Frame timestamps older than this window are dropped from the counter.
pub const FRAME_WINDOW_MS: u64 = 250;

/// `s` with the run of timestamps before `cutoff` dropped from the front;
/// the dropping stops at the first timestamp that is recent enough.
pub open spec fn drop_older(s: Seq<u64>, cutoff: u64) -> Seq<u64>
    decreases s.len(),
{
    if s.len() == 0 {
        Seq::empty()
    } else if s[0] < cutoff {
        drop_older(s.drop_first(), cutoff)
    } else {
        s
    }
}

/// The state behind the UI loop's pacing: whether the UI asked for another
/// update, when the last tick ended, and the timestamps of recent frames.
pub struct EventLoop {
    ui_needs_update: bool,
    last_update_ms: u64,
    frames: VecDeque<u64>,
}

impl EventLoop {
    /// Whether the UI asked for another update.
    pub closed spec fn ui_pending(&self) -> bool {
        self.ui_needs_update
    }

    /// When the last tick ended, in clock milliseconds.
    pub closed spec fn last_update(&self) -> u64 {
        self.last_update_ms
    }

    /// The recorded frame timestamps, oldest first.
    pub closed spec fn frame_times(&self) -> Seq<u64> {
        self.frames@
    }

    /// A fresh loop at time `now_ms`: the UI needs a first draw and no
    /// frame has been recorded yet.
    pub fn new(now_ms: u64) -> (r: Self)
        ensures
            r.ui_pending(),
            r.last_update() == now_ms,
            r.frame_times() == Seq::<u64>::empty(),
    {
        EventLoop { ui_needs_update: true, last_update_ms: now_ms, frames: VecDeque::new() }
    }

    /// The timestamps of the recorded recent frames, oldest first.
    pub fn recent_frames(&self) -> (r: Vec<u64>)
        ensures
            r@ == self.frame_times(),
    {
        let mut out: Vec<u64> = Vec::new();
        let mut i: usize = 0;
        while i < self.frames.len()
            invariant
                i <= self.frames@.len(),
                out@ == self.frames@.take(i as int),
            decreases self.frames@.len() - i,
        {
            out.push(self.frames[i]);
            proof {
                assert(self.frames@.take(i as int + 1) =~= self.frames@.take(i as int).push(
                    self.frames@[i as int],
                ));
            }
            i += 1;
        }
        proof {
            assert(self.frames@.take(self.frames@.len() as int) =~= self.frames@);
        }
        out
    }

    /// Notifies the loop that the UI requires another update whether or not
    /// any events are pending (some widget may still be animating).
    pub fn needs_update(&mut self)
        ensures
            final(self).ui_pending(),
            final(self).last_update() == old(self).last_update(),
            final(self).frame_times() == old(self).frame_times(),
    {
        self.ui_needs_update = true;
    }

    /// How long to sleep before polling, so that the loop runs no faster
    /// than once per [`MIN_TICK_MS`] milliseconds.
    pub fn pace_delay_ms(&self, now_ms: u64) -> (r: u64)
        requires
            self.last_update() <= now_ms,
        ensures
            r == (if now_ms - self.last_update() < MIN_TICK_MS {
                (MIN_TICK_MS - (now_ms - self.last_update())) as int
            } else {
                0int
            }),
    {
        let elapsed = now_ms - self.last_update_ms;
        if elapsed < MIN_TICK_MS {
            MIN_TICK_MS - elapsed
        } else {
            0
        }
    }

    /// Whether the loop should block waiting for the next event instead of
    /// redrawing: only when no event is pending and the UI needs no update.
    pub fn should_block(&self, pending_events: usize) -> (r: bool)
        ensures
            r == (pending_events == 0 && !self.ui_pending()),
    {
        pending_events == 0 && !self.ui_needs_update
    }

    /// Ends one tick at time `now_ms`: the UI update request is consumed,
    /// the tick time is recorded for pacing, and the frame counter drops
    /// the frames older than [`FRAME_WINDOW_MS`] milliseconds before
    /// recording this one.
    pub fn end_tick(&mut self, now_ms: u64)
        requires
            old(self).last_update() <= now_ms,
        ensures
            !final(self).ui_pending(),
            final(self).last_update() == now_ms,
            final(self).frame_times() == drop_older(
                old(self).frame_times(),
                if now_ms >= FRAME_WINDOW_MS {
                    (now_ms - FRAME_WINDOW_MS) as u64
                } else {
                    0u64
                },
            ).push(now_ms),
    {
        self.ui_needs_update = false;
        self.last_update_ms = now_ms;
        let cutoff: u64 = if now_ms >= FRAME_WINDOW_MS {
            now_ms - FRAME_WINDOW_MS
        } else {
            0
        };
        let ghost frames0 = self.frames@;
        loop
            invariant_except_break
                !self.ui_needs_update,
                self.last_update_ms == now_ms,
                drop_older(self.frames@, cutoff) == drop_older(frames0, cutoff),
            ensures
                !self.ui_needs_update,
                self.last_update_ms == now_ms,
                self.frames@ == drop_older(frames0, cutoff),
            decreases self.frames@.len(),
        {
            match self.frames.pop_front() {
                None => {
                    assert(self.frames@ =~= drop_older(self.frames@, cutoff));
                    break ;
                },
                Some(t) => {
                    if t >= cutoff {
                        self.frames.push_front(t);
                        assert(self.frames@ == drop_older(self.frames@, cutoff));
                        break ;
                    }
                    proof {
                        let ghost before = seq![t] + self.frames@;
                        assert(before.drop_first() =~= self.frames@);
                        assert(drop_older(before, cutoff) == drop_older(self.frames@, cutoff));
                    }
                },
            }
        }
        self.frames.push_back(now_ms);
    }
}

} // verus!

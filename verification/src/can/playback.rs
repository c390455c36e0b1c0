//! Replaying recorded frames: position, pace and what is due.
use crate::can::queue::{emitted, PlaybackEventSend, PlaybackFrameEmit};
use crate::can::{frames_view, CanFrame, FrameView};
use crate::ratio::{part, part_of, Ratio};
use vstd::prelude::*;

verus! {

/// Frames that one slice replays at most.
pub const PLAYBACK_FRAMES_PER_SLICE: usize = 500;

/// Nanoseconds that a single step covers.
pub const PLAYBACK_STEP: i64 = 100_000_000;

/// One whole in millionths.
pub const MILLION: i64 = 1_000_000;

/// A replay. `base` is the time on the capture timeline at which the frame time `base_t` was
/// replayed; the speed is in millionths of real time.
#[derive(Debug)]
pub struct Playback {
    pub frames: Vec<CanFrame>,
    pub idx: usize,
    pub online: bool,
    pub speed_ppm: i64,
    pub playing: bool,
    pub paused: bool,
    pub base: u64,
    pub base_t: i64,
    pub loop_play: bool,
}

/// The end of the run of frames from `idx` on that lie before the time `limit`.
pub open spec fn run_end(frames: Seq<CanFrame>, idx: int, limit: int) -> int
    decreases frames.len() - idx,
{
    if idx >= frames.len() || frames[idx].t >= limit {
        idx
    } else {
        run_end(frames, idx + 1, limit)
    }
}

/// A copy of the frames from `a` up to `b`.
pub fn copy_frames(frames: &[CanFrame], a: usize, b: usize) -> (r: Vec<CanFrame>)
    requires
        a <= b <= frames.len(),
    ensures
        frames_view(r@) == frames_view(frames@).subrange(a as int, b as int),
{
    let mut out: Vec<CanFrame> = Vec::new();
    let mut i: usize = a;
    let ghost all = frames_view(frames@);
    assert(frames_view(out@) =~= all.subrange(a as int, a as int));
    while i < b
        invariant
            a <= i <= b <= frames.len(),
            all == frames_view(frames@),
            frames_view(out@) == all.subrange(a as int, i as int),
        decreases b - i,
    {
        let ghost before = out@;
        out.push(frames[i].clone());
        proof {
            assert(frames_view(out@) =~= frames_view(before).push(all[i as int]));
            assert(all.subrange(a as int, i + 1) =~= all.subrange(a as int, i as int).push(
                all[i as int],
            ));
        }
        i += 1;
    }
    out
}

/// How a slice of a replay ended.
#[derive(Clone, Copy, Debug)]
pub enum SliceEnd {
    /// The replay starts over; its position is reported.
    Restarted,
    /// The replay is complete; its position is reported, then a message.
    Completed,
    /// The replay goes on; its position is reported.
    GoesOn,
}

impl Playback {
    /// The position is within the recording.
    pub open spec fn wf(&self) -> bool {
        self.idx <= self.frames@.len()
    }

    /// The time of the frame at the position, zero at the end.
    pub open spec fn time_here(&self) -> i64 {
        if self.idx < self.frames@.len() {
            self.frames@[self.idx as int].t
        } else {
            0
        }
    }

    /// A recording that waits at its beginning.
    pub fn load(frames: Vec<CanFrame>, now: u64) -> (r: Playback)
        ensures
            r.wf(),
            r == (Playback {
                frames,
                idx: 0,
                online: false,
                speed_ppm: 1_000_000,
                playing: false,
                paused: false,
                base: now,
                base_t: 0,
                loop_play: false,
            }),
    {
        Playback {
            frames,
            idx: 0,
            online: false,
            speed_ppm: MILLION,
            playing: false,
            paused: false,
            base: now,
            base_t: 0,
            loop_play: false,
        }
    }

    /// Starts or resumes the replay at its position; at the end it starts over.
    pub fn play(&mut self, online: bool, speed_ppm: i64, loop_play: bool, now: u64)
        requires
            old(self).wf(),
        ensures
            final(self).wf(),
            ({
                let idx = if old(self).idx >= old(self).frames@.len() {
                    0
                } else {
                    old(self).idx
                };
                *final(self) == (Playback {
                    idx,
                    online,
                    speed_ppm,
                    loop_play,
                    playing: true,
                    paused: false,
                    base: now,
                    base_t: if idx < old(self).frames@.len() {
                        old(self).frames@[idx as int].t
                    } else {
                        0
                    },
                    ..*old(self)
                })
            }),
    {
        if self.idx >= self.frames.len() {
            self.idx = 0;
        }
        self.online = online;
        self.speed_ppm = speed_ppm;
        self.loop_play = loop_play;
        self.playing = true;
        self.paused = false;
        self.base = now;
        self.base_t = if self.idx < self.frames.len() {
            self.frames[self.idx].t
        } else {
            0
        };
    }

    /// Pauses the replay at its position.
    pub fn pause(&mut self)
        ensures
            *final(self) == (Playback { paused: true, ..*old(self) }),
    {
        self.paused = true;
    }

    /// Takes the replay back to its beginning.
    pub fn cancel(&mut self)
        ensures
            *final(self) == (Playback { idx: 0, playing: false, paused: false, ..*old(self) }),
    {
        self.idx = 0;
        self.playing = false;
        self.paused = false;
    }

    /// The position for a fraction of the recording.
    pub open spec fn position_for(&self, frac: Ratio) -> int {
        let at = part_of(self.frames@.len() as int, frac.unit(), frac.whole());
        if at >= self.frames@.len() {
            self.frames@.len() - 1
        } else {
            at
        }
    }

    /// Moves to a fraction of the recording. An empty recording has no positions.
    pub fn seek(&mut self, frac: Ratio, now: u64) -> (r: bool)
        requires
            old(self).wf(),
        ensures
            final(self).wf(),
            r == (old(self).frames@.len() > 0),
            !r ==> *final(self) == *old(self),
            r ==> *final(self) == (Playback {
                idx: old(self).position_for(frac) as usize,
                base: now,
                base_t: old(self).frames@[old(self).position_for(frac)].t,
                ..*old(self)
            }),
    {
        let len: usize = self.frames.len();
        if len == 0 {
            return false;
        }
        let at: usize = part(len as i128, frac.unit_numerator(), frac.denominator()) as usize;
        let i: usize = if at >= len {
            len - 1
        } else {
            at
        };
        self.idx = i;
        self.base = now;
        self.base_t = self.frames[i].t;
        true
    }

    /// Begins a single step: stops the replay and gives the end of the frames that the step covers,
    /// a tenth of a second from the position on.
    pub fn begin_step(&mut self) -> (r: usize)
        requires
            old(self).wf(),
        ensures
            final(self).wf(),
            *final(self) == (Playback { playing: false, ..*old(self) }),
            r as int == run_end(
                old(self).frames@,
                old(self).idx as int,
                old(self).time_here() + PLAYBACK_STEP,
            ),
            old(self).idx <= r <= old(self).frames@.len(),
    {
        self.playing = false;
        let mut end: usize = self.idx;
        if self.idx < self.frames.len() {
            let limit: i128 = self.frames[self.idx].t as i128 + PLAYBACK_STEP as i128;
            let ghost wanted = run_end(self.frames@, self.idx as int, limit as int);
            while end < self.frames.len() && (self.frames[end].t as i128) < limit
                invariant
                    self.idx <= end <= self.frames@.len(),
                    wanted == run_end(self.frames@, end as int, limit as int),
                    *self == (Playback { playing: false, ..*old(self) }),
                decreases self.frames@.len() - end,
            {
                end += 1;
            }
        }
        end
    }

    /// Whether a frame is due at the replay's pace: at least as much time has gone by as lies
    /// between the base and the frame, at the speed of the replay.
    pub open spec fn frame_due(&self, i: int, now: u64) -> bool {
        let ahead = self.frames@[i].t - self.base_t;
        let passed = now - self.base;
        self.speed_ppm <= 0 || (passed >= 0 && passed * self.speed_ppm >= (if ahead > 0 {
            ahead
        } else {
            0
        }) * 1_000_000)
    }

    /// Whether the frame at a place is due.
    pub fn is_frame_due(&self, i: usize, now: u64) -> (r: bool)
        requires
            i < self.frames@.len(),
        ensures
            r == self.frame_due(i as int, now),
    {
        if self.speed_ppm <= 0 {
            return true;
        }
        if now < self.base {
            return false;
        }
        let ahead: i128 = self.frames[i].t as i128 - self.base_t as i128;
        let wanted: u128 = if ahead > 0 {
            ahead as u128
        } else {
            0
        };
        let passed: u128 = (now - self.base) as u128;
        let speed: u128 = self.speed_ppm as u128;
        assert(0 <= passed * speed <= 0xffff_ffff_ffff_ffff * 0x7fff_ffff_ffff_ffff) by (nonlinear_arith)
            requires
                0 <= passed <= 0xffff_ffff_ffff_ffff,
                0 <= speed <= 0x7fff_ffff_ffff_ffff,
        ;
        passed * speed >= wanted * 1_000_000
    }

    /// The end of the frames from the position on that are due, at most a slice of them.
    pub open spec fn due_end(&self, at: int, now: u64) -> int
        decreases self.frames@.len() - at,
    {
        if at >= self.frames@.len() || at - self.idx >= PLAYBACK_FRAMES_PER_SLICE
            || !self.frame_due(at, now) {
            at
        } else {
            self.due_end(at + 1, now)
        }
    }

    /// The end of the frames that a slice replays offline.
    pub fn offline_end(&self, now: u64) -> (r: usize)
        requires
            self.wf(),
        ensures
            r as int == self.due_end(self.idx as int, now),
            self.idx <= r <= self.frames@.len(),
            r - self.idx <= PLAYBACK_FRAMES_PER_SLICE,
    {
        let mut end: usize = self.idx;
        while end < self.frames.len() && end - self.idx < PLAYBACK_FRAMES_PER_SLICE
            && self.is_frame_due(end, now)
            invariant
                self.idx <= end <= self.frames@.len(),
                end - self.idx <= PLAYBACK_FRAMES_PER_SLICE,
                self.due_end(self.idx as int, now) == self.due_end(end as int, now),
            decreases self.frames@.len() - end,
        {
            end += 1;
        }
        end
    }

    /// The frames from the position up to `end`.
    pub fn frames_until(&self, end: usize) -> (r: Vec<CanFrame>)
        requires
            self.idx <= end <= self.frames@.len(),
        ensures
            frames_view(r@) == frames_view(self.frames@).subrange(self.idx as int, end as int),
    {
        copy_frames(self.frames.as_slice(), self.idx, end)
    }

    /// Takes what became of the frames of an offline slice up to `end`. Nothing is skipped: while
    /// the queue is full the position stays.
    pub fn after_batch(&mut self, end: usize, fate: PlaybackEventSend)
        requires
            old(self).wf(),
            old(self).idx <= end <= old(self).frames@.len(),
        ensures
            final(self).wf(),
            *final(self) == match fate {
                PlaybackEventSend::Enqueued => Playback { idx: end, ..*old(self) },
                PlaybackEventSend::Full => *old(self),
                PlaybackEventSend::Disconnected => Playback { playing: false, ..*old(self) },
            },
    {
        match fate {
            PlaybackEventSend::Enqueued => {
                self.idx = end;
            },
            PlaybackEventSend::Full => {},
            PlaybackEventSend::Disconnected => {
                self.playing = false;
            },
        }
    }

    /// The next frame of an online slice that has replayed `count` frames so far. As fast as
    /// possible a slice has a limit; at a pace it replays whatever is due.
    pub fn next_online(&self, now: u64, count: usize) -> (r: Option<CanFrame>)
        ensures
            r is Some <==> self.idx < self.frames@.len() && (if self.speed_ppm <= 0 {
                count < PLAYBACK_FRAMES_PER_SLICE
            } else {
                self.frame_due(self.idx as int, now)
            }),
            r matches Some(f) ==> f@ == self.frames@[self.idx as int]@,
    {
        if self.idx >= self.frames.len() {
            return None;
        }
        if self.speed_ppm <= 0 {
            if count >= PLAYBACK_FRAMES_PER_SLICE {
                return None;
            }
        } else if !self.is_frame_due(self.idx, now) {
            return None;
        }
        Some(self.frames[self.idx].clone())
    }

    /// Takes what became of the frame at the position; says whether the slice goes on.
    pub fn after_frame(&mut self, fate: PlaybackFrameEmit) -> (r: bool)
        requires
            old(self).idx < old(self).frames@.len(),
        ensures
            final(self).wf(),
            r == (fate is Emitted),
            *final(self) == match fate {
                PlaybackFrameEmit::Emitted => Playback {
                    idx: (old(self).idx + 1) as usize,
                    ..*old(self)
                },
                PlaybackFrameEmit::Backpressure => *old(self),
                PlaybackFrameEmit::Failed => Playback { playing: false, ..*old(self) },
            },
    {
        match fate {
            PlaybackFrameEmit::Emitted => {
                let n: usize = self.frames.len();
                assert(self.idx < n);
                self.idx = self.idx + 1;
                true
            },
            PlaybackFrameEmit::Backpressure => false,
            PlaybackFrameEmit::Failed => {
                self.playing = false;
                false
            },
        }
    }

    /// Ends a slice: at the end of the recording the replay starts over or is complete.
    pub fn end_slice(&mut self, now: u64) -> (r: SliceEnd)
        requires
            old(self).wf(),
        ensures
            final(self).wf(),
            ({
                let n = old(self).frames@.len();
                if old(self).idx < n {
                    r is GoesOn && *final(self) == *old(self)
                } else if old(self).loop_play && n > 0 {
                    r is Restarted && *final(self) == (Playback {
                        idx: 0,
                        base: now,
                        base_t: old(self).frames@[0].t,
                        ..*old(self)
                    })
                } else {
                    r is Completed && *final(self) == (Playback { playing: false, ..*old(self) })
                }
            }),
    {
        if self.idx < self.frames.len() {
            return SliceEnd::GoesOn;
        }
        if self.loop_play && self.frames.len() > 0 {
            self.idx = 0;
            self.base = now;
            self.base_t = self.frames[0].t;
            return SliceEnd::Restarted;
        }
        self.playing = false;
        SliceEnd::Completed
    }
}

/// Whether a replay goes to the bus: only where it was asked for and something is connected.
pub fn playback_online_mode(requested: bool, connected: bool) -> (r: bool)
    ensures
        r == (requested && connected),
{
    requested && connected
}

proof fn lemma_due_end_bounds(p: Playback, at: int, now: u64)
    requires
        p.idx <= at <= p.frames@.len(),
        at - p.idx <= PLAYBACK_FRAMES_PER_SLICE,
    ensures
        at <= p.due_end(at, now) <= p.frames@.len(),
        p.due_end(at, now) - p.idx <= PLAYBACK_FRAMES_PER_SLICE,
    decreases p.frames@.len() - at,
{
    if at < p.frames@.len() && at - p.idx < PLAYBACK_FRAMES_PER_SLICE && p.frame_due(at, now) {
        lemma_due_end_bounds(p, at + 1, now);
    }
}

/// Offline nothing is lost and nothing comes twice: whatever becomes of a slice, the frames that
/// went out and the frames that are left are together the frames that were left before it.
pub proof fn law_offline_replay_is_lossless(before: Playback, now: u64, fate: PlaybackEventSend)
    requires
        before.wf(),
    ensures
        ({
            let end = before.due_end(before.idx as int, now);
            let all = frames_view(before.frames@);
            let left_before = all.skip(before.idx as int);
            let out = if fate is Enqueued {
                all.subrange(before.idx as int, end)
            } else {
                seq![]
            };
            let idx_after = if fate is Enqueued {
                end
            } else {
                before.idx as int
            };
            left_before == out + all.skip(idx_after)
        }),
{
    lemma_due_end_bounds(before, before.idx as int, now);
    let end = before.due_end(before.idx as int, now);
    let all = frames_view(before.frames@);
    let left_before = all.skip(before.idx as int);
    if fate is Enqueued {
        assert(left_before =~= all.subrange(before.idx as int, end) + all.skip(end));
    } else {
        assert(left_before =~= Seq::<FrameView>::empty() + left_before);
    }
}

/// Online no frame is sent twice: a frame that the bus took moves the position on, even where its
/// echo was lost.
pub proof fn law_online_replay_never_repeats(fate: PlaybackEventSend)
    ensures
        !(emitted(true, fate) is Backpressure),
{
}

} // verus!

//! Laws on replays: what is due when, and what the commands do.
use crate::can::controller::{effects_view, Controller, Effect};
use crate::can::playback::{run_end, Playback};
use crate::can::{CanFrame, Cmd, Evt};
use crate::ratio::{part_of, Ratio};
use vstd::prelude::*;

verus! {

/// How far a frame lies ahead of the start of a replay.
pub open spec fn ahead(p: Playback, i: int) -> int {
    if p.frames@[i].t > p.base_t {
        p.frames@[i].t - p.base_t
    } else {
        0
    }
}

/// A frame is due once the elapsed time, times the speed in millionths, reaches a million times its
/// distance. So at `k` times the speed it is due once `k` times the elapsed time reaches its
/// distance, at the `k`-th part of the speed once the elapsed time reaches `k` times its distance.
/// Without a pace it is due at once, and with one never before the start.
pub proof fn law_frames_are_due_at_their_pace(p: Playback, i: usize, now: u64, k: int, due: bool)
    requires
        i < p.frames@.len(),
        k >= 1,
        call_ensures(Playback::is_frame_due, (&p, i, now), due),
    ensures
        p.speed_ppm <= 0 ==> due,
        p.speed_ppm > 0 && now < p.base ==> !due,
        p.speed_ppm > 0 && now >= p.base ==> due == ((now - p.base) * p.speed_ppm >= 1_000_000
            * ahead(p, i as int)),
        p.speed_ppm == k * 1_000_000 && now >= p.base ==> due == (k * (now - p.base) >= ahead(
            p,
            i as int,
        )),
        p.speed_ppm * k == 1_000_000 && now >= p.base ==> due == (now - p.base >= k * ahead(
            p,
            i as int,
        )),
{
    let e = now - p.base;
    let s = p.speed_ppm as int;
    let d = ahead(p, i as int);
    assert(s <= 0 && k >= 1 ==> s * k <= 0) by (nonlinear_arith);
    if s > 0 && e >= 0 {
        assert(due == (e * s >= d * 1_000_000));
        assert(s == k * 1_000_000 ==> (e * s >= d * 1_000_000) == (k * e >= d)) by (nonlinear_arith);
        assert(s * k == 1_000_000 && k >= 1 && s > 0 ==> (e * s >= d * 1_000_000) == (e >= k * d))
            by (nonlinear_arith)
            requires
                e >= 0,
                d >= 0,
        {
            if s * k == 1_000_000 && k >= 1 && s > 0 {
                assert(d * 1_000_000 == (k * d) * s);
                if e >= k * d {
                    assert(e * s >= (k * d) * s);
                } else {
                    assert(e * s < (k * d) * s);
                }
            }
        }
    }
}

/// What is due stays due: later, at a greater speed, and for frames that lie nearer.
pub proof fn law_due_frames_stay_due(p: Playback, q: Playback, i: int, j: int, now: u64, later: u64)
    requires
        0 <= i < p.frames@.len(),
        0 <= j < q.frames@.len(),
        p.frame_due(i, now),
        p.speed_ppm > 0,
        p.speed_ppm <= q.speed_ppm,
        now <= later,
        q.base <= p.base,
        ahead(q, j) <= ahead(p, i),
    ensures
        q.frame_due(j, later),
{
    let a = (now - p.base) * p.speed_ppm;
    let b = (later - q.base) * q.speed_ppm;
    assert(a <= b) by (nonlinear_arith)
        requires
            a == (now - p.base) * p.speed_ppm,
            b == (later - q.base) * q.speed_ppm,
            0 <= now - p.base <= later - q.base,
            0 < p.speed_ppm <= q.speed_ppm,
    ;
}

proof fn lemma_due_run(p: Playback, at: int, now: u64)
    requires
        p.idx <= at <= p.frames@.len(),
        at - p.idx <= 500,
    ensures
        at <= p.due_end(at, now) <= p.frames@.len(),
        p.due_end(at, now) - p.idx <= 500,
        forall|i: int| at <= i < p.due_end(at, now) ==> #[trigger] p.frame_due(i, now),
        p.due_end(at, now) < p.frames@.len() && p.due_end(at, now) - p.idx < 500 ==> !p.frame_due(
            p.due_end(at, now),
            now,
        ),
    decreases p.frames@.len() - at,
{
    if at < p.frames@.len() && at - p.idx < 500 && p.frame_due(at, now) {
        lemma_due_run(p, at + 1, now);
    }
}

/// An offline slice takes the frames from the position on that are due, in order: it ends at the
/// end of the recording, after 500 frames, or before the first frame that is not due.
pub proof fn law_slices_take_what_is_due(p: Playback, now: u64, end: usize)
    requires
        p.wf(),
        call_ensures(Playback::offline_end, (&p, now), end),
    ensures
        p.idx <= end <= p.frames@.len(),
        end - p.idx <= 500,
        forall|i: int| p.idx <= i < end ==> #[trigger] p.frame_due(i, now),
        end < p.frames@.len() && end - p.idx < 500 ==> !p.frame_due(end as int, now),
{
    lemma_due_run(p, p.idx as int, now);
}

/// Online the frame at the position comes next, where it is due at the pace of the replay; without a
/// pace up to 500 frames come in a slice.
pub proof fn law_the_frame_at_the_position_comes_next(
    p: Playback,
    now: u64,
    count: usize,
    r: Option<CanFrame>,
)
    requires
        call_ensures(Playback::next_online, (&p, now, count), r),
    ensures
        p.idx >= p.frames@.len() ==> r is None,
        r matches Some(f) ==> f.id == p.frames@[p.idx as int].id && f.data@
            == p.frames@[p.idx as int].data@ && f.ch == p.frames@[p.idx as int].ch && f.t
            == p.frames@[p.idx as int].t,
        p.idx < p.frames@.len() && p.speed_ppm <= 0 ==> (r is Some <==> count < 500),
        p.idx < p.frames@.len() && p.speed_ppm == 1_000_000 ==> (r is Some <==> now >= p.base + ahead(
            p,
            p.idx as int,
        )),
{
}

/// A recording that is loaded waits at its beginning, at the speed at which it was recorded.
pub proof fn law_loaded_recordings_wait(
    before: Controller,
    after: Controller,
    frames: Vec<CanFrame>,
    now: u64,
    t: i64,
    effects: Seq<Effect>,
)
    requires
        after.obeys(&before, Cmd::PlaybackLoad(frames), now, t, effects_view(effects)),
    ensures
        after.playback matches Some(p) && p.frames == frames && p.idx == 0 && !p.playing && !p.paused
            && !p.online && p.speed_ppm == 1_000_000,
        effects.len() == 2,
        effects[1] matches Effect::Critical(e, _) && e == Evt::Playback(0, frames@.len() as usize, false),
        after.periodics == before.periodics && after.pending == before.pending && after.links
            == before.links,
{
    let fx = effects_view(effects);
    assert(fx.len() == effects.len());
    assert(fx[1] == effects[1]@);
}

/// A replay begins at its position, or at the beginning where it was at the end; the frame there is
/// due at once, and one that lies `d` later, at the speed of the recording, after `d`.
pub proof fn law_replays_begin_at_their_position(
    before: Controller,
    after: Controller,
    online: bool,
    speed_ppm: i64,
    speed_text: String,
    loop_play: bool,
    now: u64,
    t: i64,
    effects: Seq<Effect>,
)
    requires
        after.obeys(
            &before,
            Cmd::PlaybackPlay { online, speed_ppm, speed_text, loop_play },
            now,
            t,
            effects_view(effects),
        ),
    ensures
        match before.playback {
            None => after.playback is None,
            Some(b) => after.playback matches Some(p) && p.frames == b.frames && p.playing && !p.paused
                && p.online == online && p.speed_ppm == speed_ppm && p.loop_play == loop_play
                && p.idx == (if b.idx < b.frames@.len() {
                b.idx
            } else {
                0
            }) && (p.idx < p.frames@.len() ==> {
                &&& p.frame_due(p.idx as int, now)
                &&& forall|i: int, at: u64|
                    speed_ppm == 1_000_000 && 0 <= i < p.frames@.len() && p.frames@[i].t
                        >= p.frames@[p.idx as int].t ==> (#[trigger] p.frame_due(i, at) <==> at >= now
                        + (p.frames@[i].t - p.frames@[p.idx as int].t))
            }),
        },
{
    if let Some(p) = after.playback {
        if p.idx < p.frames@.len() {
            assert(p.base == now && p.base_t == p.frames@[p.idx as int].t);
            assert(0 * p.speed_ppm == 0) by (nonlinear_arith);
            assert(p.frame_due(p.idx as int, now));
        }
    }
}

/// A fraction of a recording is the frame at that fraction: zero is the first frame, one is the
/// last, and in between as many frames lie before the position as the fraction says.
pub proof fn law_seeking_finds_the_fraction(p: Playback, frac: Ratio)
    requires
        p.frames@.len() > 0,
    ensures
        0 <= p.position_for(frac) < p.frames@.len(),
        frac.num <= 0 ==> p.position_for(frac) == 0,
        frac.den > 0 && frac.num >= frac.den ==> p.position_for(frac) == p.frames@.len() - 1,
        frac.den > 0 && 0 <= frac.num < frac.den ==> p.position_for(frac) * frac.den
            <= p.frames@.len() * frac.num < (p.position_for(frac) + 1) * frac.den,
{
    let n = p.frames@.len() as int;
    let u = frac.unit();
    let w = frac.whole();
    let at = part_of(n, u, w);
    assert(0 <= u <= w && w >= 1);
    assert(0 <= n * u) by (nonlinear_arith)
        requires
            n > 0,
            u >= 0,
    ;
    vstd::arithmetic::div_mod::lemma_fundamental_div_mod(n * u, w);
    assert(0 <= at) by (nonlinear_arith)
        requires
            at == n * u / w,
            n * u >= 0,
            w >= 1,
    ;
    if u == 0 {
        assert(n * 0 == 0);
        assert(0int / w == 0) by (nonlinear_arith)
            requires
                w >= 1,
        ;
    }
    if u == w {
        assert(n * w / w == n) by (nonlinear_arith)
            requires
                w >= 1,
        ;
    }
    if u < w {
        assert(at * w <= n * u < (at + 1) * w) by (nonlinear_arith)
            requires
                n * u == w * at + (n * u) % w,
                0 <= (n * u) % w < w,
        ;
        assert(at < n) by (nonlinear_arith)
            requires
                at * w <= n * u,
                u < w,
                n > 0,
                w >= 1,
                u >= 0,
        {
            if at >= n {
                assert(at * w >= n * w);
                assert(n * u < n * w);
            }
        }
    }
}

/// Seeking moves the position and goes on from there: the frame at the position is due at once.
pub proof fn law_seeking_moves_the_position(
    before: Controller,
    after: Controller,
    frac: Ratio,
    now: u64,
    t: i64,
    effects: Seq<Effect>,
)
    requires
        after.obeys(&before, Cmd::PlaybackSeek(frac), now, t, effects_view(effects)),
        before.playback matches Some(b) && 0 < b.frames@.len() <= usize::MAX,
    ensures
        ({
            let b = before.playback->0;
            &&& after.playback matches Some(p) && p.frames == b.frames && p.idx == b.position_for(frac)
                && p.playing == b.playing && p.online == b.online && p.speed_ppm == b.speed_ppm
                && p.frame_due(p.idx as int, now) && effects.len() == 1 && (effects[0] matches
                Effect::Critical(e, _) && e == Evt::Playback(
                p.idx,
                b.frames@.len() as usize,
                b.playing,
            ))
        }),
{
    let b = before.playback->0;
    law_seeking_finds_the_fraction(b, frac);
    let fx = effects_view(effects);
    assert(fx.len() == effects.len());
    assert(fx[0] == effects[0]@);
    let p = after.playback->0;
    assert(0 * p.speed_ppm == 0) by (nonlinear_arith);
}

/// A pause keeps the position, and cancelling goes back to the beginning; both leave the recording.
pub proof fn law_pausing_and_cancelling(
    before: Controller,
    paused: Controller,
    cancelled: Controller,
    now: u64,
    t: i64,
    fx_paused: Seq<Effect>,
    fx_cancelled: Seq<Effect>,
)
    requires
        before.playback is Some,
        paused.obeys(&before, Cmd::PlaybackPause, now, t, effects_view(fx_paused)),
        cancelled.obeys(&before, Cmd::PlaybackCancel, now, t, effects_view(fx_cancelled)),
    ensures
        ({
            let b = before.playback->0;
            &&& paused.playback matches Some(p) && p.paused && p.idx == b.idx && p.frames == b.frames
                && p.playing == b.playing
            &&& cancelled.playback matches Some(p) && p.idx == 0 && !p.playing && !p.paused
                && p.frames == b.frames
        }),
{
}

proof fn lemma_run(frames: Seq<CanFrame>, idx: int, limit: int)
    requires
        0 <= idx <= frames.len(),
    ensures
        idx <= run_end(frames, idx, limit) <= frames.len(),
        forall|i: int| idx <= i < run_end(frames, idx, limit) ==> (#[trigger] frames[i]).t < limit,
        run_end(frames, idx, limit) < frames.len() ==> frames[run_end(frames, idx, limit)].t >= limit,
    decreases frames.len() - idx,
{
    if idx < frames.len() && frames[idx].t < limit {
        lemma_run(frames, idx + 1, limit);
    }
}

/// A single step stops the replay and covers the frames of a tenth of a second from the position
/// on: all of them lie within it, and the one after them does not.
pub proof fn law_steps_cover_a_tenth_of_a_second(
    before: Controller,
    after: Controller,
    now: u64,
    t: i64,
    effects: Seq<Effect>,
)
    requires
        after.obeys(&before, Cmd::PlaybackStep, now, t, effects_view(effects)),
        before.playback matches Some(b) && b.idx < b.frames@.len() <= usize::MAX,
    ensures
        after.playback matches Some(p) && !p.playing,
        effects.len() == 1,
        effects[0] matches Effect::Step { end, online } && ({
            let b = before.playback->0;
            let from = b.frames@[b.idx as int].t;
            &&& online == b.online
            &&& b.idx < end <= b.frames@.len()
            &&& forall|i: int|
                b.idx <= i < end ==> (#[trigger] b.frames@[i]).t < from + 100_000_000
            &&& end < b.frames@.len() ==> b.frames@[end as int].t >= from + 100_000_000
        }),
{
    let b = before.playback->0;
    let fx = effects_view(effects);
    assert(fx.len() == effects.len());
    assert(fx[0] == effects[0]@);
    lemma_run(b.frames@, b.idx as int, b.frames@[b.idx as int].t + 100_000_000);
}

} // verus!

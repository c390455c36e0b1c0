//! Bounded, time-sliced CAN send scheduling.
use crate::can::{frames_view, CanFrame, FrameView};
use std::collections::VecDeque;
use vstd::prelude::*;

verus! {

/// Jobs that may wait at the same time.
pub const MAX_PENDING_SEND_JOBS: usize = 64;

/// Frames that may wait in all jobs together.
pub const MAX_PENDING_SEND_FRAMES: u64 = 100_000;

/// Frames attempted in one slice of the controller.
pub const SEND_FRAMES_PER_SLICE: usize = 32;

/// Time budget of one slice, in nanoseconds.
pub const SEND_SLICE_BUDGET: u64 = 2_000_000;

// ---------------------------------------------------------------- counting frames

/// A payload as a little-endian number.
pub open spec fn payload_value(data: Seq<u8>) -> nat
    decreases data.len(),
{
    if data.len() == 0 {
        0
    } else {
        data[0] as nat + 256 * payload_value(data.drop_first())
    }
}

/// The number of values that `n` bytes can hold.
pub open spec fn payload_space(n: nat) -> nat
    decreases n,
{
    if n == 0 {
        1
    } else {
        256 * payload_space((n - 1) as nat)
    }
}

/// A payload of `n` bytes holds a number below `payload_space(n)`.
pub proof fn lemma_payload_bound(data: Seq<u8>)
    ensures
        payload_value(data) < payload_space(data.len()),
    decreases data.len(),
{
    if data.len() > 0 {
        lemma_payload_bound(data.drop_first());
    }
}

/// A payload is determined by its length and the number it holds.
pub proof fn lemma_payload_injective(a: Seq<u8>, b: Seq<u8>)
    requires
        a.len() == b.len(),
        payload_value(a) == payload_value(b),
    ensures
        a == b,
    decreases a.len(),
{
    if a.len() > 0 {
        let x = payload_value(a.drop_first());
        let y = payload_value(b.drop_first());
        assert(a[0] as nat + 256 * x == b[0] as nat + 256 * y);
        assert(x == y);
        lemma_payload_injective(a.drop_first(), b.drop_first());
        assert(a =~= seq![a[0]] + a.drop_first());
        assert(b =~= seq![b[0]] + b.drop_first());
    } else {
        assert(a =~= b);
    }
}

/// The payload after counting up once: the carry runs from the first byte on.
pub open spec fn counted_up(data: Seq<u8>) -> Seq<u8>
    decreases data.len(),
{
    if data.len() == 0 {
        data
    } else if data[0] < 255 {
        data.update(0, (data[0] + 1) as u8)
    } else {
        seq![0u8] + counted_up(data.drop_first())
    }
}

/// Counting up adds one to the little-endian number, modulo the payload's space.
pub proof fn lemma_counted_up(data: Seq<u8>)
    ensures
        counted_up(data).len() == data.len(),
        payload_value(counted_up(data)) == (payload_value(data) + 1) % payload_space(data.len()),
    decreases data.len(),
{
    lemma_payload_bound(data);
    if data.len() == 0 {
    } else if data[0] < 255 {
        let next = counted_up(data);
        assert(next.drop_first() =~= data.drop_first());
        lemma_payload_bound(next);
        assert(payload_value(next) == payload_value(data) + 1);
        vstd::arithmetic::div_mod::lemma_small_mod(
            (payload_value(data) + 1) as nat,
            payload_space(data.len()),
        );
    } else {
        let rest = data.drop_first();
        lemma_counted_up(rest);
        lemma_payload_bound(rest);
        let next = counted_up(data);
        assert(next.drop_first() =~= counted_up(rest));
        let v = payload_value(rest);
        let m = payload_space(rest.len());
        if v + 1 < m {
            vstd::arithmetic::div_mod::lemma_small_mod((v + 1) as nat, m);
            vstd::arithmetic::div_mod::lemma_small_mod((256 * (v + 1)) as nat, (256 * m) as nat);
        } else {
            vstd::arithmetic::div_mod::lemma_mod_self_0(m as int);
            vstd::arithmetic::div_mod::lemma_mod_self_0((256 * m) as int);
        }
    }
}

/// Counts a payload up by one; the carry runs from the first byte on.
pub fn increment_frame_data(data: &mut Vec<u8>)
    ensures
        final(data)@ == counted_up(old(data)@),
        final(data)@.len() == old(data)@.len(),
        payload_value(final(data)@) == (payload_value(old(data)@) + 1) % payload_space(
            old(data)@.len(),
        ),
{
    let ghost before = data@;
    proof {
        lemma_counted_up(before);
        assert(before.skip(0) =~= before);
        assert(before.take(0) + counted_up(before.skip(0)) =~= counted_up(before));
    }
    let mut i: usize = 0;
    while i < data.len()
        invariant
            i <= data.len(),
            before == old(data)@,
            data@.len() == before.len(),
            data@.skip(i as int) == before.skip(i as int),
            data@.take(i as int) + counted_up(before.skip(i as int)) == counted_up(before),
            counted_up(before).len() == before.len(),
            payload_value(counted_up(before)) == (payload_value(before) + 1) % payload_space(
                before.len(),
            ),
        decreases data.len() - i,
    {
        let ghost rest = before.skip(i as int);
        let ghost head = data@.take(i as int);
        assert(data@[i as int] == data@.skip(i as int)[0]);
        if data[i] < 255 {
            let next: u8 = data[i] + 1;
            data.set(i, next);
            proof {
                assert(data@ =~= head + counted_up(rest)) by {
                    assert forall|j: int| i < j < before.len() implies data@[j] == rest[j - i] by {
                        assert(before.skip(i as int)[j - i] == before[j]);
                        assert(data@[j] == before[j]);
                    }
                }
            }
            return ;
        }
        data.set(i, 0);
        proof {
            assert(rest.drop_first() =~= before.skip(i + 1));
            assert(data@.take(i + 1) =~= head.push(0u8));
            assert(head.push(0u8) + counted_up(before.skip(i + 1)) =~= head + counted_up(rest));
            assert(data@.skip(i + 1) =~= before.skip(i + 1)) by {
                assert forall|j: int| i + 1 <= j < before.len() implies data@[j] == before[j] by {
                    assert(before.skip(i as int)[j - i] == before[j]);
                }
            }
        }
        i += 1;
    }
    proof {
        assert(before.skip(i as int) =~= Seq::<u8>::empty());
        assert(counted_up(before.skip(i as int)) =~= Seq::<u8>::empty());
        assert(data@ =~= data@.take(i as int) + counted_up(before.skip(i as int)));
    }
}


/// The least significant bytes first: a further byte weighs the space of those before it.
proof fn lemma_payload_push(s: Seq<u8>, b: u8)
    ensures
        payload_value(s.push(b)) == payload_value(s) + payload_space(s.len()) * b,
    decreases s.len(),
{
    let t = s.push(b);
    if s.len() == 0 {
        assert(t.drop_first() =~= Seq::<u8>::empty());
        assert(payload_value(t.drop_first()) == 0);
        assert(payload_value(t) == b);
        assert(payload_value(s) == 0);
        assert(payload_space(s.len()) * b == b) by (nonlinear_arith)
            requires
                payload_space(s.len()) == 1,
        ;
    } else {
        assert(t.drop_first() =~= s.drop_first().push(b));
        lemma_payload_push(s.drop_first(), b);
        let k = payload_space(s.drop_first().len()) as int;
        assert(payload_space(s.len()) == 256 * k);
        assert(256 * (k * b) == (256 * k) * b) by (nonlinear_arith);
        assert(t[0] == s[0]);
        assert(payload_value(t) == s[0] + 256 * (payload_value(s.drop_first()) + k * b));
        assert(payload_value(s) == s[0] + 256 * payload_value(s.drop_first()));
    }
}

// ---------------------------------------------------------------- counting sequences

/// The number of identifiers of a frame format.
pub open spec fn id_space(ext: bool) -> nat {
    if ext {
        0x2000_0000
    } else {
        0x800
    }
}

/// The frame that follows `f` in a counting sequence.
pub open spec fn next_in_sequence(f: FrameView, id_increment: bool, data_increment: bool) -> FrameView {
    FrameView {
        id: if id_increment {
            ((f.id + 1) % id_space(f.ext) as int) as u32
        } else {
            f.id
        },
        data: if data_increment {
            counted_up(f.data)
        } else {
            f.data
        },
        ..f
    }
}

/// The frame `steps` places after `f` in a counting sequence.
pub open spec fn in_sequence(
    f: FrameView,
    steps: nat,
    id_increment: bool,
    data_increment: bool,
) -> FrameView
    decreases steps,
{
    if steps == 0 {
        f
    } else {
        next_in_sequence(
            in_sequence(f, (steps - 1) as nat, id_increment, data_increment),
            id_increment,
            data_increment,
        )
    }
}

/// Counting on from the second frame is counting on from the first, one place later.
pub proof fn lemma_sequence_shift(f: FrameView, steps: nat, id_increment: bool, data_increment: bool)
    ensures
        in_sequence(next_in_sequence(f, id_increment, data_increment), steps, id_increment, data_increment)
            == in_sequence(f, steps + 1, id_increment, data_increment),
    decreases steps,
{
    if steps == 0 {
        assert(in_sequence(f, 0, id_increment, data_increment) == f);
        reveal_with_fuel(in_sequence, 2);
    } else {
        lemma_sequence_shift(f, (steps - 1) as nat, id_increment, data_increment);
    }
}

/// A counting sequence in closed form: both counters advance by `steps`, each in its own
/// space, and neither disturbs the other nor any other field.
pub proof fn lemma_sequence_closed_form(
    f: FrameView,
    steps: nat,
    id_increment: bool,
    data_increment: bool,
)
    ensures
        ({
            let g = in_sequence(f, steps, id_increment, data_increment);
            &&& g == (FrameView { id: g.id, data: g.data, ..f })
            &&& g.data.len() == f.data.len()
            &&& g.id as int == (if id_increment && steps > 0 {
                (f.id + steps) % id_space(f.ext) as int
            } else {
                f.id as int
            })
            &&& payload_value(g.data) == (if data_increment {
                (payload_value(f.data) + steps) % payload_space(f.data.len())
            } else {
                payload_value(f.data)
            })
            &&& !data_increment ==> g.data == f.data
        }),
    decreases steps,
{
    lemma_payload_bound(f.data);
    if steps == 0 {
        vstd::arithmetic::div_mod::lemma_small_mod(payload_value(f.data), payload_space(f.data.len()));
    } else {
        let k = (steps - 1) as nat;
        lemma_sequence_closed_form(f, k, id_increment, data_increment);
        let p = in_sequence(f, k, id_increment, data_increment);
        let s = id_space(f.ext) as int;
        if id_increment {
            if k > 0 {
                vstd::arithmetic::div_mod::lemma_add_mod_noop_right(1, f.id + k, s);
                assert((1 + (f.id + k) % s) % s == (1 + (f.id + k)) % s);
            }
            assert(0 <= (p.id + 1) % s < s);
        }
        if data_increment {
            lemma_counted_up(p.data);
            let m = payload_space(f.data.len()) as int;
            let v = payload_value(f.data) as int;
            assert(m > 0);
            vstd::arithmetic::div_mod::lemma_add_mod_noop_right(1, v + k, m);
            assert((1 + (v + k) % m) % m == (1 + (v + k)) % m);
        }
    }
}

/// Masking a 32-bit number to `space - 1` takes it modulo the space.
proof fn lemma_id_mask(x: u32)
    ensures
        x & 0x7FF == x % 0x800,
        x & 0x1FFF_FFFF == x % 0x2000_0000,
{
    assert(x & 0x7FF == x % 0x800) by (bit_vector);
    assert(x & 0x1FFF_FFFF == x % 0x2000_0000) by (bit_vector);
}

/// The identifier after `id`, back to zero at the end of the format's range.
fn next_id(id: u32, ext: bool) -> (r: u32)
    ensures
        r as int == (id + 1) % id_space(ext) as int,
{
    let mask: u32 = if ext {
        0x1FFF_FFFF
    } else {
        0x7FF
    };
    let sum: u32 = id.wrapping_add(1);
    proof {
        lemma_id_mask(sum);
        assert(u32::MAX + 1 == 0x2000_0000 * 8);
    }
    sum & mask
}

/// Adds `steps` to a payload, as a little-endian number in the payload's space.
fn add_to_payload(data: &mut Vec<u8>, steps: u64)
    ensures
        final(data)@.len() == old(data)@.len(),
        payload_value(final(data)@) == (payload_value(old(data)@) + steps) % payload_space(
            old(data)@.len(),
        ) as int,
{
    let ghost before = data@;
    let ghost total = payload_value(before) + steps;
    let mut carry: u64 = steps;
    let mut i: usize = 0;
    proof {
        assert(before.skip(0) =~= before);
        assert(data@.take(0) =~= Seq::<u8>::empty());
        assert(payload_space(0) * (payload_value(before) + carry) == payload_value(before) + carry)
            by (nonlinear_arith)
            requires
                payload_space(0) == 1,
        ;
    }
    while i < data.len()
        invariant
            i <= data.len(),
            data@.len() == before.len(),
            data@.skip(i as int) == before.skip(i as int),
            payload_value(data@.take(i as int)) + payload_space(i as nat) * (payload_value(
                before.skip(i as int),
            ) + carry) == total,
        decreases data.len() - i,
    {
        let ghost head = data@.take(i as int);
        let ghost old_carry = carry as int;
        assert(data@[i as int] == data@.skip(i as int)[0]);
        let sum: u64 = data[i] as u64 + carry % 256;
        let byte: u8 = (sum % 256) as u8;
        data.set(i, byte);
        carry = carry / 256 + sum / 256;
        proof {
            let rest = before.skip(i as int);
            assert(rest.drop_first() =~= before.skip(i + 1));
            assert(data@.take(i + 1) =~= head.push(byte));
            lemma_payload_push(head, byte);
            assert(data@.skip(i + 1) =~= before.skip(i + 1)) by {
                assert forall|j: int| i + 1 <= j < before.len() implies data@[j] == before[j] by {
                    assert(before.skip(i as int)[j - i] == before[j]);
                }
            }
            let k = payload_space(i as nat) as int;
            let v = payload_value(before.skip(i + 1)) as int;
            assert(payload_space((i + 1) as nat) == 256 * k);
            assert(rest[0] + old_carry == byte + 256 * carry);
            assert(payload_value(rest) == rest[0] + 256 * v);
            assert(k * byte + (256 * k) * (v + carry) == k * (payload_value(rest) + old_carry))
                by (nonlinear_arith)
                requires
                    rest[0] + old_carry == byte + 256 * carry,
                    payload_value(rest) == rest[0] + 256 * v,
            ;
        }
        i += 1;
    }
    proof {
        assert(data@.take(i as int) =~= data@);
        assert(before.skip(i as int) =~= Seq::<u8>::empty());
        lemma_payload_bound(data@);
        let m = payload_space(before.len()) as int;
        assert(total == carry * m + payload_value(data@)) by (nonlinear_arith)
            requires
                payload_value(data@) + m * (0 + carry) == total,
        ;
        vstd::arithmetic::div_mod::lemma_fundamental_div_mod_converse(
            total as int,
            m,
            carry as int,
            payload_value(data@) as int,
        );
    }
}

/// Advances the seed of a counting sequence past `steps` frames.
pub fn advance_sequence_frame(
    frame: &mut CanFrame,
    steps: u64,
    id_increment: bool,
    data_increment: bool,
)
    ensures
        final(frame)@ == in_sequence(old(frame)@, steps as nat, id_increment, data_increment),
{
    let ghost before = frame@;
    proof {
        lemma_sequence_closed_form(before, steps as nat, id_increment, data_increment);
    }
    if id_increment && steps > 0 {
        let space: u64 = if frame.ext {
            0x2000_0000
        } else {
            0x800
        };
        let offset: u64 = steps % space;
        proof {
            vstd::arithmetic::div_mod::lemma_add_mod_noop_right(
                before.id as int,
                steps as int,
                space as int,
            );
        }
        frame.id = ((frame.id as u64 + offset) % space) as u32;
    }
    if data_increment {
        add_to_payload(&mut frame.data, steps);
        proof {
            lemma_payload_injective(
                frame.data@,
                in_sequence(before, steps as nat, id_increment, data_increment).data,
            );
        }
    }
}

// ---------------------------------------------------------------- jobs

/// Where the frames of a job come from.
#[derive(Debug)]
pub enum PendingSendSource {
    Sequence { next: CanFrame, id_increment: bool, data_increment: bool },
    Batch { frames: Vec<CanFrame>, index: usize },
}

/// A send request that is worked off over several slices.
#[derive(Debug)]
pub struct PendingSendJob {
    pub source: PendingSendSource,
    pub total: u64,
    pub emitted: u64,
}

/// The frame `k` places ahead in a source.
pub open spec fn ahead(source: PendingSendSource, k: nat) -> FrameView {
    match source {
        PendingSendSource::Sequence { next, id_increment, data_increment } => in_sequence(
            next@,
            k,
            id_increment,
            data_increment,
        ),
        PendingSendSource::Batch { frames, index } => frames@[(index + k) % frames@.len() as int]@,
    }
}

impl PendingSendJob {
    /// A job stays within the frame limit, and a batch points at one of its frames.
    pub open spec fn wf(&self) -> bool {
        &&& self.emitted <= self.total <= MAX_PENDING_SEND_FRAMES
        &&& self.source matches PendingSendSource::Batch { frames, index } ==> index < frames@.len()
    }

    /// The frames that the job has yet to emit, in order.
    pub open spec fn queued(&self) -> Seq<FrameView> {
        Seq::new((self.total - self.emitted) as nat, |k: int| ahead(self.source, k as nat))
    }

    /// A job that counts up from `frame`, `count` frames long but no longer than the limit.
    pub fn sequence(frame: CanFrame, count: u64, id_increment: bool, data_increment: bool) -> (r: Option<
        Self,
    >)
        ensures
            r is Some <==> count > 0,
            r matches Some(job) ==> {
                &&& job.wf()
                &&& job.queued().len() == if count < MAX_PENDING_SEND_FRAMES {
                    count
                } else {
                    MAX_PENDING_SEND_FRAMES
                }
                &&& forall|k: int|
                    0 <= k < job.queued().len() ==> #[trigger] job.queued()[k] == in_sequence(
                        frame@,
                        k as nat,
                        id_increment,
                        data_increment,
                    )
            },
    {
        if count == 0 {
            return None;
        }
        let total: u64 = if count < MAX_PENDING_SEND_FRAMES {
            count
        } else {
            MAX_PENDING_SEND_FRAMES
        };
        Some(
            PendingSendJob {
                source: PendingSendSource::Sequence { next: frame, id_increment, data_increment },
                total,
                emitted: 0,
            },
        )
    }

    /// A job that sends the list of frames `repeat` times, no longer than the limit.
    pub fn batch(frames: Vec<CanFrame>, repeat: u32) -> (r: Option<Self>)
        ensures
            r is Some <==> frames@.len() > 0 && repeat > 0,
            r matches Some(job) ==> {
                let n = frames@.len() * repeat;
                &&& job.wf()
                &&& job.queued().len() == if n < MAX_PENDING_SEND_FRAMES {
                    n
                } else {
                    MAX_PENDING_SEND_FRAMES as int
                }
                &&& forall|k: int|
                    0 <= k < job.queued().len() ==> #[trigger] job.queued()[k] == frames@[k
                        % frames@.len() as int]@
            },
    {
        if frames.len() == 0 || repeat == 0 {
            return None;
        }
        assert(frames@.len() * repeat <= usize::MAX * u32::MAX) by (nonlinear_arith)
            requires
                0 <= frames@.len() <= usize::MAX,
                0 <= repeat <= u32::MAX,
        ;
        let wanted: u128 = frames.len() as u128 * repeat as u128;
        let total: u64 = if wanted < MAX_PENDING_SEND_FRAMES as u128 {
            wanted as u64
        } else {
            MAX_PENDING_SEND_FRAMES
        };
        Some(PendingSendJob { source: PendingSendSource::Batch { frames, index: 0 }, total, emitted: 0 })
    }

    /// The number of frames that the job has yet to emit.
    pub fn remaining(&self) -> (r: u64)
        ensures
            r == if self.emitted <= self.total {
                self.total - self.emitted
            } else {
                0
            },
            self.wf() ==> r == self.queued().len(),
    {
        self.total.saturating_sub(self.emitted)
    }

    /// Takes the next frame of the job.
    pub fn next_frame(&mut self) -> (r: Option<CanFrame>)
        requires
            old(self).wf(),
        ensures
            final(self).wf(),
            r is Some <==> old(self).queued().len() > 0,
            r is None ==> *final(self) == *old(self),
            r matches Some(f) ==> f@ == old(self).queued()[0] && final(self).queued() == old(self).queued().drop_first() && final(self).total == old(self).total,
    {
        if self.emitted >= self.total {
            return None;
        }
        let ghost before = self.queued();
        let ghost source = self.source;
        let frame = match &mut self.source {
            PendingSendSource::Sequence { next, id_increment, data_increment } => {
                let frame = next.clone();
                if *id_increment {
                    next.id = next_id(next.id, next.ext);
                }
                if *data_increment {
                    increment_frame_data(&mut next.data);
                }
                assert(next@ == next_in_sequence(frame@, *id_increment, *data_increment));
                frame
            },
            PendingSendSource::Batch { frames, index } => {
                let n: usize = frames.len();
                let frame = frames[*index].clone();
                *index = if *index + 1 == n {
                    0
                } else {
                    *index + 1
                };
                frame
            },
        };
        self.emitted = self.emitted + 1;
        proof {
            assert forall|k: int| 0 <= k < before.len() - 1 implies #[trigger] ahead(
                self.source,
                k as nat,
            ) == ahead(source, (k + 1) as nat) by {
                match source {
                    PendingSendSource::Sequence { next, id_increment, data_increment } => {
                        lemma_sequence_shift(next@, k as nat, id_increment, data_increment);
                    },
                    PendingSendSource::Batch { frames, index } => {
                        let n = frames@.len() as int;
                        if index + 1 == n {
                            vstd::arithmetic::div_mod::lemma_mod_add_multiples_vanish(k, n);
                            assert((index + (k + 1)) == n + k);
                        }
                    },
                }
            }
            assert(frame@ == before[0]) by {
                match source {
                    PendingSendSource::Sequence { next, id_increment, data_increment } => {},
                    PendingSendSource::Batch { frames, index } => {
                        vstd::arithmetic::div_mod::lemma_small_mod(index as nat, frames@.len());
                    },
                }
            }
            assert(self.queued() =~= before.drop_first());
        }
        Some(frame)
    }
}


// ---------------------------------------------------------------- the queue

/// The number of frames that the jobs have yet to emit.
pub open spec fn frames_left(jobs: Seq<PendingSendJob>) -> nat
    decreases jobs.len(),
{
    if jobs.len() == 0 {
        0
    } else {
        frames_left(jobs.drop_last()) + jobs.last().queued().len()
    }
}

/// Every job is well formed, and the jobs and their frames stay within the limits.
pub open spec fn queue_wf(jobs: Seq<PendingSendJob>) -> bool {
    &&& jobs.len() <= MAX_PENDING_SEND_JOBS
    &&& forall|i: int| 0 <= i < jobs.len() ==> (#[trigger] jobs[i]).wf()
    &&& frames_left(jobs) <= MAX_PENDING_SEND_FRAMES
}

/// A part of the queue holds no more frames than the whole.
proof fn lemma_frames_left_prefix(jobs: Seq<PendingSendJob>, k: int)
    requires
        0 <= k <= jobs.len(),
    ensures
        frames_left(jobs.take(k)) <= frames_left(jobs),
    decreases jobs.len() - k,
{
    if k < jobs.len() {
        lemma_frames_left_prefix(jobs, k + 1);
        assert(jobs.take(k + 1).drop_last() =~= jobs.take(k));
    } else {
        assert(jobs.take(k) =~= jobs);
    }
}

/// The frames left are those of the first job and those of the others.
pub proof fn lemma_frames_left_first(jobs: Seq<PendingSendJob>)
    requires
        jobs.len() > 0,
    ensures
        frames_left(jobs) == jobs[0].queued().len() + frames_left(jobs.drop_first()),
    decreases jobs.len(),
{
    if jobs.len() == 1 {
        assert(jobs.drop_last() =~= Seq::<PendingSendJob>::empty());
        assert(jobs.drop_first() =~= Seq::<PendingSendJob>::empty());
    } else {
        lemma_frames_left_first(jobs.drop_last());
        assert(jobs.drop_last().drop_first() =~= jobs.drop_first().drop_last());
        assert(jobs.drop_first().last() == jobs.last());
    }
}

/// The number of frames that the queue has yet to emit.
pub fn pending_send_frames(queue: &VecDeque<PendingSendJob>) -> (r: u64)
    requires
        queue_wf(queue@),
    ensures
        r == frames_left(queue@),
{
    let mut sum: u64 = 0;
    let mut i: usize = 0;
    while i < queue.len()
        invariant
            i <= queue@.len(),
            queue_wf(queue@),
            sum == frames_left(queue@.take(i as int)),
        decreases queue@.len() - i,
    {
        proof {
            lemma_frames_left_prefix(queue@, i + 1);
            assert(queue@.take(i + 1).drop_last() =~= queue@.take(i as int));
        }
        sum = sum + queue[i].remaining();
        i += 1;
    }
    assert(queue@.take(i as int) =~= queue@);
    sum
}

/// Whether the queue has room for a further job.
pub open spec fn has_room(jobs: Seq<PendingSendJob>, job: PendingSendJob) -> bool {
    jobs.len() < MAX_PENDING_SEND_JOBS && frames_left(jobs) + job.queued().len()
        <= MAX_PENDING_SEND_FRAMES
}

/// Appends a job where the limits on jobs and on frames allow it.
pub fn enqueue_send_job(queue: &mut VecDeque<PendingSendJob>, job: PendingSendJob) -> (r: Result<
    u64,
    String,
>)
    requires
        queue_wf(old(queue)@),
        job.wf(),
    ensures
        queue_wf(final(queue)@),
        r is Ok <==> has_room(old(queue)@, job),
        r matches Ok(n) ==> n == job.queued().len() && final(queue)@ == old(queue)@.push(job),
        r matches Err(message) ==> final(queue)@ == old(queue)@ && message@ == if old(queue)@.len()
            >= MAX_PENDING_SEND_JOBS {
            "发送任务过多，请等待当前任务完成"@
        } else {
            "待发送帧已达到 100000 帧安全上限"@
        },
{
    if queue.len() >= MAX_PENDING_SEND_JOBS {
        return Err("发送任务过多，请等待当前任务完成".to_owned());
    }
    let remaining: u64 = job.remaining();
    if pending_send_frames(queue) + remaining > MAX_PENDING_SEND_FRAMES {
        return Err("待发送帧已达到 100000 帧安全上限".to_owned());
    }
    let ghost before = queue@;
    queue.push_back(job);
    assert(queue@.drop_last() =~= before);
    Ok(remaining)
}

// ---------------------------------------------------------------- one slice of sending

/// The state of one slice: what was attempted and which frames went out.
#[derive(Debug)]
pub struct SendSlice {
    pub attempts: usize,
    pub echoes: Vec<CanFrame>,
    pub stopped: bool,
}

/// What the slice asks for next.
#[derive(Debug)]
pub enum SliceStep {
    /// The slice is over.
    Done,
    /// A job without frames left the queue.
    Skipped,
    /// This frame is to be put on the bus; the answer goes to `finish`.
    Transmit(CanFrame),
}

/// The view of a frame that is about to be sent at time `t`.
pub open spec fn stamped(f: FrameView, t: i64) -> FrameView {
    FrameView { t, tx: true, ..f }
}

impl SendSlice {
    /// A slice in which nothing was attempted yet.
    pub fn new() -> (r: SendSlice)
        ensures
            r.attempts == 0,
            r.echoes@.len() == 0,
            !r.stopped,
    {
        SendSlice { attempts: 0, echoes: Vec::new(), stopped: false }
    }

    /// Whether the slice goes on.
    pub open spec fn goes_on(&self, jobs: Seq<PendingSendJob>, connected: bool, out_of_time: bool) -> bool {
        connected && !out_of_time && !self.stopped && self.attempts < SEND_FRAMES_PER_SLICE
            && jobs.len() > 0
    }

    /// Chooses the next frame: the first frame of the first job, stamped with the time of sending.
    pub fn begin(
        &mut self,
        queue: &mut VecDeque<PendingSendJob>,
        connected: bool,
        out_of_time: bool,
        t: i64,
    ) -> (r: SliceStep)
        requires
            queue_wf(old(queue)@),
        ensures
            queue_wf(final(queue)@),
            final(self).stopped == old(self).stopped,
            final(self).echoes == old(self).echoes,
            r is Done <==> !old(self).goes_on(old(queue)@, connected, out_of_time),
            r is Done ==> final(queue)@ == old(queue)@ && final(self).attempts == old(self).attempts,
            !(r is Done) ==> final(self).attempts == old(self).attempts + 1,
            r is Skipped ==> old(queue)@[0].queued().len() == 0 && final(queue)@ == old(
                queue,
            )@.drop_first(),
            r matches SliceStep::Transmit(f) ==> {
                &&& old(queue)@[0].queued().len() > 0
                &&& f@ == stamped(old(queue)@[0].queued()[0], t)
                &&& final(queue)@.len() == old(queue)@.len()
                &&& final(queue)@[0].queued() == old(queue)@[0].queued().drop_first()
                &&& final(queue)@.drop_first() == old(queue)@.drop_first()
            },
    {
        if !connected || out_of_time || self.stopped || self.attempts >= SEND_FRAMES_PER_SLICE {
            return SliceStep::Done;
        }
        let ghost before = queue@;
        proof {
            if before.len() > 0 {
                lemma_frames_left_first(before);
            }
        }
        match queue.pop_front() {
            None => SliceStep::Done,
            Some(job) => {
                let mut job = job;
                let ghost rest = before.drop_first();
                assert(queue@ =~= rest);
                assert(before[0].wf());
                self.attempts = self.attempts + 1;
                match job.next_frame() {
                    None => {
                        assert forall|i: int| 0 <= i < rest.len() implies (#[trigger] rest[i]).wf() by {
                            assert(before[i + 1].wf());
                        }
                        SliceStep::Skipped
                    },
                    Some(f) => {
                        let mut f = f;
                        f.t = t;
                        f.tx = true;
                        queue.push_front(job);
                        proof {
                            assert(queue@.drop_first() =~= rest);
                            assert(queue@[0] == job);
                            lemma_frames_left_first(queue@);
                            assert forall|i: int| 0 <= i < queue@.len() implies (
                            #[trigger] queue@[i]).wf() by {
                                if i > 0 {
                                    assert(queue@[i] == rest[i - 1]);
                                    assert(before[i].wf());
                                }
                            }
                        }
                        SliceStep::Transmit(f)
                    },
                }
            },
        }
    }

    /// Takes the answer of the bus. A frame that went out is echoed on the channel it used, and a
    /// job leaves the queue with its last frame; a failure removes the job and ends the slice.
    pub fn finish(
        &mut self,
        queue: &mut VecDeque<PendingSendJob>,
        frame: CanFrame,
        outcome: Result<u8, String>,
    ) -> (r: Option<String>)
        requires
            queue_wf(old(queue)@),
            old(queue)@.len() > 0,
        ensures
            queue_wf(final(queue)@),
            final(self).attempts == old(self).attempts,
            match outcome {
                Ok(channel) => {
                    &&& r is None
                    &&& final(self).stopped == old(self).stopped
                    &&& frames_view(final(self).echoes@) == frames_view(old(self).echoes@).push(
                        FrameView { ch: channel, ..frame@ },
                    )
                    &&& final(queue)@ == if old(queue)@[0].queued().len() == 0 {
                        old(queue)@.drop_first()
                    } else {
                        old(queue)@
                    }
                },
                Err(error) => {
                    &&& r matches Some(message) && message@ == "发送任务已停止: "@ + error@
                    &&& final(self).stopped
                    &&& final(self).echoes == old(self).echoes
                    &&& final(queue)@ == old(queue)@.drop_first()
                },
            },
    {
        let ghost before = queue@;
        proof {
            lemma_frames_left_first(before);
            assert(before[0].wf());
            let rest = before.drop_first();
            assert forall|i: int| 0 <= i < rest.len() implies (#[trigger] rest[i]).wf() by {
                assert(before[i + 1].wf());
            }
        }
        match outcome {
            Ok(channel) => {
                let mut frame = frame;
                frame.ch = channel;
                let ghost echoes = self.echoes@;
                self.echoes.push(frame);
                assert(frames_view(self.echoes@) =~= frames_view(echoes).push(frame@));
                if queue[0].remaining() == 0 {
                    let _ = queue.pop_front();
                    assert(queue@ =~= before.drop_first());
                }
                None
            },
            Err(error) => {
                let _ = queue.pop_front();
                assert(queue@ =~= before.drop_first());
                self.stopped = true;
                let mut message = "发送任务已停止: ".to_owned();
                message.push_str(error.as_str());
                Some(message)
            },
        }
    }
}

} // verus!

//! Batches whose outcome somebody waits for. Nothing here ever blocks.
use crate::can::queue::CommandSender;
use crate::can::{CanFrame, Cmd};
use crate::ends::{offered, Offer, StdInbox, Taken};
use crate::text;
use std::sync::mpsc::Receiver;
use vstd::prelude::*;

verus! {

/// Batches that may wait for their outcome.
pub const PENDING_LIMIT: usize = 128;

/// Nanoseconds within which a batch is to be confirmed.
pub const ACK_TIMEOUT: u64 = 500_000_000;

/// Who waits for the outcome of a batch.
#[derive(Debug)]
pub enum Target {
    /// A script, by the number under which it is answered.
    Ipc(u64),
    /// The window from which a file is sent.
    File { path: String, english: bool },
}

/// A batch whose outcome somebody waits for.
pub struct Pending {
    pub receiver: StdInbox<Result<u64, String>>,
    pub deadline: u64,
    pub target: Target,
}

/// Why a batch was not confirmed.
#[derive(Debug)]
pub struct AckError {
    pub code: &'static str,
    pub message: String,
}

/// Whether an outcome is the one that follows from what the channel held: a confirmation, a
/// refusal, nothing yet, or nothing within the time.
pub open spec fn settles(
    r: Option<Result<u64, AckError>>,
    taken: Taken<Result<u64, String>>,
    deadline: u64,
    now: u64,
) -> bool {
    match taken {
        Taken::Item(Ok(n)) => r == Some(Ok::<u64, AckError>(n)),
        Taken::Item(Err(m)) => r matches Some(Err(e)) && e.code@ == "QUEUE_REJECTED"@ && e.message
            == m,
        Taken::Disconnected => r matches Some(Err(e)) && e.code@ == "TIMEOUT"@ && e.message@
            == "CAN 后台确认通道已关闭，任务状态未知"@,
        Taken::Empty => if now >= deadline {
            r matches Some(Err(e)) && e.code@ == "TIMEOUT"@ && e.message@
                == "CAN 后台未在 500ms 内确认，任务状态未知；请勿自动重试"@
        } else {
            r is None
        },
    }
}

/// The outcome that follows from what the channel held.
pub fn settle(taken: Taken<Result<u64, String>>, deadline: u64, now: u64) -> (r: Option<
    Result<u64, AckError>,
>)
    ensures
        settles(r, taken, deadline, now),
{
    match taken {
        Taken::Item(Ok(n)) => Some(Ok(n)),
        Taken::Item(Err(message)) => Some(Err(AckError { code: "QUEUE_REJECTED", message })),
        Taken::Disconnected => Some(
            Err(
                AckError {
                    code: "TIMEOUT",
                    message: "CAN 后台确认通道已关闭，任务状态未知".to_owned(),
                },
            ),
        ),
        Taken::Empty => if now >= deadline {
            Some(
                Err(
                    AckError {
                        code: "TIMEOUT",
                        message: "CAN 后台未在 500ms 内确认，任务状态未知；请勿自动重试".to_owned(),
                    },
                ),
            )
        } else {
            None
        },
    }
}

/// The outcome of a batch, as far as it is known, by one look. It never waits: without an outcome
/// there is one as soon as the deadline has passed.
pub fn result(receiver: &mut StdInbox<Result<u64, String>>, deadline: u64, now: u64) -> (r: Option<
    Result<u64, AckError>,
>)
    ensures
        exists|taken: Taken<Result<u64, String>>| #[trigger]
            final(receiver).looked(old(receiver), taken) && settles(r, taken, deadline, now),
        now >= deadline ==> r is Some,
{
    let taken = receiver.look();
    assert(receiver.looked(old(receiver), taken));
    settle(taken, deadline, now)
}

/// Why a batch cannot be submitted now, if it cannot.
pub fn submit_refusal(pending: usize, accepted: bool) -> (r: Option<String>)
    ensures
        match r {
            None => pending < PENDING_LIMIT && accepted,
            Some(m) => if pending >= PENDING_LIMIT {
                m@ == "发送确认队列已满，请稍后重试"@
            } else {
                !accepted && m@ == "CAN 后台已退出或命令队列已满"@
            },
        },
{
    if pending >= PENDING_LIMIT {
        Some("发送确认队列已满，请稍后重试".to_owned())
    } else if !accepted {
        Some("CAN 后台已退出或命令队列已满".to_owned())
    } else {
        None
    }
}

/// Submits a batch and waits for its outcome. What is submitted names whoever waits, so that the
/// outcome comes back through the receiver that is given. Whether it is accepted depends on the
/// command queue.
pub fn submit(
    pending: &mut Vec<Pending>,
    commands: &CommandSender,
    frames: Vec<CanFrame>,
    repeat: u32,
    ack: u64,
    receiver: Receiver<Result<u64, String>>,
    target: Target,
    now: u64,
) -> (r: Result<(), String>)
    requires
        now <= u64::MAX - ACK_TIMEOUT,
    ensures
        old(pending)@.len() < PENDING_LIMIT ==> exists|fate: Offer<Cmd>| #[trigger]
            offered(commands.tx, Cmd::SendBatch { frames, repeat, ack: Some(ack) }, fate) && (r
                is Ok <==> fate is Accepted),
        match r {
            Ok(()) => {
                &&& old(pending)@.len() < PENDING_LIMIT
                &&& final(pending)@.len() == old(pending)@.len() + 1
                &&& final(pending)@.drop_last() == old(pending)@
                &&& final(pending)@.last().receiver.end() == receiver
                &&& final(pending)@.last().receiver.looks().len() == 0
                &&& final(pending)@.last().deadline == now + ACK_TIMEOUT
                &&& final(pending)@.last().target == target
            },
            Err(m) => final(pending)@ == old(pending)@ && if old(pending)@.len() >= PENDING_LIMIT {
                m@ == "发送确认队列已满，请稍后重试"@
            } else {
                m@ == "CAN 后台已退出或命令队列已满"@
            },
        },
{
    let count: usize = pending.len();
    if count >= PENDING_LIMIT {
        return Err("发送确认队列已满，请稍后重试".to_owned());
    }
    let accepted: bool = commands.send(Cmd::SendBatch { frames, repeat, ack: Some(ack) }).is_ok();
    match submit_refusal(count, accepted) {
        Some(m) => Err(m),
        None => {
            let receiver = StdInbox::new(receiver);
            pending.push(Pending { receiver, deadline: now + ACK_TIMEOUT, target });
            assert(pending@.drop_last() =~= old(pending)@);
            Ok(())
        },
    }
}

/// What the channels of some batches held.
pub type Looks = Seq<Taken<Result<u64, String>>>;

/// Whether a batch has no outcome yet.
pub open spec fn open_at(p: Pending, taken: Taken<Result<u64, String>>, now: u64) -> bool {
    taken is Empty && now < p.deadline
}

/// The batches that keep waiting, in their order.
pub open spec fn kept(all: Seq<Pending>, looks: Looks, now: u64) -> Seq<Pending>
    decreases all.len(),
{
    if all.len() == 0 {
        seq![]
    } else {
        let before = kept(all.drop_last(), looks, now);
        if open_at(all.last(), looks[all.len() - 1], now) {
            before.push(all.last())
        } else {
            before
        }
    }
}

/// The places of the batches that have an outcome, in their order.
pub open spec fn settled(all: Seq<Pending>, looks: Looks, now: u64) -> Seq<int>
    decreases all.len(),
{
    if all.len() == 0 {
        seq![]
    } else {
        let before = settled(all.drop_last(), looks, now);
        if open_at(all.last(), looks[all.len() - 1], now) {
            before
        } else {
            before.push(all.len() - 1)
        }
    }
}

/// Whether answers are those to the batches at some places.
pub open spec fn answers(
    r: Seq<(Target, Result<u64, AckError>)>,
    all: Seq<Pending>,
    looks: Looks,
    now: u64,
    places: Seq<int>,
) -> bool {
    &&& r.len() == places.len()
    &&& forall|k: int|
        0 <= k < r.len() ==> (#[trigger] r[k]).0 == all[places[k]].target && settles(
            Some(r[k].1),
            looks[places[k]],
            all[places[k]].deadline,
            now,
        )
}

/// Whether one look was made for each of the first batches: what it brought, and the batches after
/// it.
pub open spec fn looked_into(all: Seq<Pending>, looks: Looks, after: Seq<Pending>) -> bool {
    &&& looks.len() == after.len()
    &&& looks.len() <= all.len()
    &&& forall|i: int|
        0 <= i < looks.len() ==> {
            &&& (#[trigger] after[i]).receiver.looked(&all[i].receiver, looks[i])
            &&& after[i].deadline == all[i].deadline
            &&& after[i].target == all[i].target
        }
}

proof fn lemma_looks(all: Seq<Pending>, looks: Looks, more: Looks, now: u64)
    requires
        all.len() <= looks.len(),
        all.len() <= more.len(),
        forall|i: int| 0 <= i < all.len() ==> looks[i] == more[i],
    ensures
        kept(all, looks, now) == kept(all, more, now),
        settled(all, looks, now) == settled(all, more, now),
        forall|k: int|
            0 <= k < settled(all, looks, now).len() ==> 0 <= #[trigger] settled(all, looks, now)[k]
                < all.len(),
    decreases all.len(),
{
    if all.len() > 0 {
        lemma_looks(all.drop_last(), looks, more, now);
    }
}

/// Hands out the outcomes that are known by now, by one look for each batch. Batches without one
/// keep waiting, in their order, but none beyond its deadline.
pub fn poll(pending: &mut Vec<Pending>, now: u64) -> (r: Vec<(Target, Result<u64, AckError>)>)
    ensures
        forall|i: int| 0 <= i < final(pending)@.len() ==> now < (#[trigger] final(pending)@[i]).deadline,
        exists|looks: Looks, after: Seq<Pending>|
            {
                &&& looks.len() == old(pending)@.len()
                &&& #[trigger] looked_into(old(pending)@, looks, after)
                &&& final(pending)@ == kept(after, looks, now)
                &&& answers(r@, after, looks, now, settled(after, looks, now))
            },
{
    let ghost all = pending@;
    let mut out: Vec<(Target, Result<u64, AckError>)> = Vec::new();
    let mut index: usize = 0;
    let ghost mut looks: Looks = Seq::empty();
    let ghost mut after: Seq<Pending> = Seq::empty();
    assert(pending@ =~= kept(after, looks, now) + all.skip(0));
    while index < pending.len()
        invariant
            index <= pending@.len(),
            all == old(pending)@,
            looked_into(all, looks, after),
            index == kept(after, looks, now).len(),
            pending@ == kept(after, looks, now) + all.skip(looks.len() as int),
            answers(out@, after, looks, now, settled(after, looks, now)),
            forall|i: int| 0 <= i < index ==> now < (#[trigger] pending@[i]).deadline,
        decreases all.len() - looks.len(),
    {
        let ghost k = looks.len() as int;
        let ghost head = kept(after, looks, now);
        let ghost places = settled(after, looks, now);
        let ghost before = pending@;
        proof {
            assert(k < all.len());
            assert(pending@[index as int] == all[k]);
            assert(all.skip(k)[0] == all[k]);
            assert(all.skip(k).skip(1) =~= all.skip(k + 1));
        }
        let deadline: u64 = pending[index].deadline;
        let outcome = result(&mut pending[index].receiver, deadline, now);
        let ghost one = pending@[index as int];
        let ghost taken = choose|taken: Taken<Result<u64, String>>| #[trigger]
            one.receiver.looked(&all[k].receiver, taken) && settles(outcome, taken, deadline, now);
        let ghost more = looks.push(taken);
        let ghost grown = after.push(one);
        proof {
            assert(pending@ =~= before.update(index as int, one));
            lemma_looks(after, looks, more, now);
            assert(grown.drop_last() =~= after);
            assert(grown.last() == one);
            assert(open_at(one, taken, now) <==> outcome is None);
            assert(looked_into(all, more, grown));
        }
        match outcome {
            None => {
                proof {
                    assert(kept(grown, more, now) == head.push(one));
                    assert(pending@ =~= head.push(one) + all.skip(k + 1));
                    assert(settled(grown, more, now) == places);
                    looks = more;
                    after = grown;
                }
                index += 1;
            },
            Some(o) => {
                let done = pending.remove(index);
                out.push((done.target, o));
                proof {
                    assert(kept(grown, more, now) == head);
                    assert(pending@ =~= head + all.skip(k + 1));
                    assert(settled(grown, more, now) == places.push(k));
                    looks = more;
                    after = grown;
                }
            },
        }
    }
    assert(pending@ =~= kept(after, looks, now));
    out
}

/// The status of a file that was handed over.
pub fn queued_text(total: u64, english: bool) -> (r: String)
    ensures
        r@ == if english {
            "Queued "@ + text::decimal(total as nat) + " frames"@
        } else {
            "已提交 "@ + text::decimal(total as nat) + " 帧"@
        },
{
    let mut out: String;
    if english {
        out = "Queued ".to_owned();
        text::push_decimal(&mut out, total);
        out.push_str(" frames");
    } else {
        out = "已提交 ".to_owned();
        text::push_decimal(&mut out, total);
        out.push_str(" 帧");
    }
    out
}

/// The line of the log that tells of a file that was handed over.
pub fn queued_line(path: &str, total: u64) -> (r: String)
    ensures
        r@ == "File send queued: "@ + path@ + ", total "@ + text::decimal(total as nat)
            + " frames"@,
{
    let mut out = "File send queued: ".to_owned();
    out.push_str(path);
    out.push_str(", total ");
    text::push_decimal(&mut out, total);
    out.push_str(" frames");
    out
}

} // verus!

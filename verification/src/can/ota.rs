//! Firmware updates over CAN: frames sent one after the other, each acknowledged.
use crate::can::{frames_view, CanFrame, FrameView, OtaAck, OtaJob, OtaResponseId};
use crate::text;
use vstd::prelude::*;

verus! {

/// The wish to stop a firmware update.
#[derive(Clone, Copy, Debug)]
pub struct OtaCancel {
    pub requested: bool,
}

/// Asks the running firmware update to stop.
pub fn cancel_ota(cancel: &mut OtaCancel)
    ensures
        final(cancel).requested,
{
    cancel.requested = true;
}

// ---------------------------------------------------------------- acknowledgements

/// Whether an identifier fits the expected one.
pub open spec fn id_fits(spec_id: OtaResponseId, id: u32) -> bool {
    match spec_id {
        OtaResponseId::Exact(expected) => id == expected,
        OtaResponseId::WildcardBase(base) => id - id % 256 == base,
    }
}

/// Whether an identifier fits the expected one.
pub fn ota_response_id_matches(spec_id: OtaResponseId, id: u32) -> (r: bool)
    ensures
        r == id_fits(spec_id, id),
{
    match spec_id {
        OtaResponseId::Exact(expected) => id == expected,
        OtaResponseId::WildcardBase(base) => {
            assert(id & 0xFFFF_FF00 == id - id % 256) by (bit_vector);
            (id & 0xFFFF_FF00) == base
        },
    }
}

/// Whether a frame is the acknowledgement that is waited for.
pub open spec fn acknowledges(ack: OtaAck, f: FrameView) -> bool {
    match ack {
        OtaAck::Unneeded => true,
        OtaAck::XcpConnect { response } => {
            &&& id_fits(response, f.id)
            &&& f.data.len() >= 8
            &&& f.data[0] == 0xFF
            &&& f.data[1] == 0x10
            &&& f.data[4] == 0x08
            &&& f.data[5] == 0x00
            &&& f.data[6] == 0x01
            &&& f.data[7] == 0x01
        },
        OtaAck::XcpAck { response } => id_fits(response, f.id) && f.data == seq![0xFFu8],
        OtaAck::UdsFlowControl => f.data.len() > 0 && f.data[0] == 0x30,
        OtaAck::UdsPositive { service } => f.data.len() > 1 && f.data[1] == (service + 0x40) % 256,
    }
}

/// Whether a frame is the acknowledgement that is waited for.
pub fn ota_ack_matches(ack: OtaAck, frame: &CanFrame) -> (r: bool)
    ensures
        r == acknowledges(ack, frame@),
{
    let data = &frame.data;
    match ack {
        OtaAck::Unneeded => true,
        OtaAck::XcpConnect { response } => ota_response_id_matches(response, frame.id) && data.len()
            >= 8 && data[0] == 0xFF && data[1] == 0x10 && data[4] == 0x08 && data[5] == 0x00
            && data[6] == 0x01 && data[7] == 0x01,
        OtaAck::XcpAck { response } => {
            let fits: bool = ota_response_id_matches(response, frame.id) && data.len() == 1
                && data[0] == 0xFF;
            proof {
                if fits {
                    assert(data@ =~= seq![0xFFu8]);
                }
            }
            fits
        },
        OtaAck::UdsFlowControl => data.len() > 0 && data[0] == 0x30,
        OtaAck::UdsPositive { service } => data.len() > 1 && data[1] == service.wrapping_add(0x40),
    }
}

/// Whether a frame is the acknowledgement that is waited for, on the channel it is waited for on.
pub fn ota_ack_matches_on_channel(
    ack: OtaAck,
    expected_channel: u8,
    actual_channel: u8,
    frame: &CanFrame,
) -> (r: bool)
    ensures
        r == (actual_channel == expected_channel && acknowledges(ack, frame@)),
{
    actual_channel == expected_channel && ota_ack_matches(ack, frame)
}

/// The number of frames up to the first acknowledgement, that one included; all of them where
/// there is none.
pub open spec fn frames_to_ack(ack: OtaAck, frames: Seq<FrameView>) -> int
    decreases frames.len(),
{
    if frames.len() == 0 {
        0
    } else if acknowledges(ack, frames[0]) {
        1
    } else {
        1 + frames_to_ack(ack, frames.drop_first())
    }
}

/// Whether some frame is the acknowledgement.
pub open spec fn any_acknowledges(ack: OtaAck, frames: Seq<FrameView>) -> bool {
    exists|i: int| 0 <= i < frames.len() && acknowledges(ack, #[trigger] frames[i])
}

proof fn lemma_no_ack_yet(ack: OtaAck, frames: Seq<FrameView>, k: int)
    requires
        0 <= k <= frames.len(),
        forall|i: int| 0 <= i < k ==> !acknowledges(ack, #[trigger] frames[i]),
    ensures
        frames_to_ack(ack, frames) == k + frames_to_ack(ack, frames.skip(k)),
    decreases k,
{
    if k == 0 {
        assert(frames.skip(0) =~= frames);
    } else {
        let rest = frames.drop_first();
        assert(!acknowledges(ack, frames[0]));
        assert forall|i: int| 0 <= i < k - 1 implies !acknowledges(ack, #[trigger] rest[i]) by {
            assert(rest[i] == frames[i + 1]);
        }
        lemma_no_ack_yet(ack, rest, k - 1);
        assert(rest.skip(k - 1) =~= frames.skip(k));
    }
}

/// Looks through the frames that a channel received while an acknowledgement is waited for. Gives
/// the frames to show, up to the acknowledgement, and whether it was there.
pub fn scan_for_ack(ack: OtaAck, expected_channel: u8, channel: u8, frames: &[CanFrame]) -> (r: (
    Vec<CanFrame>,
    bool,
))
    ensures
        ({
            let received = frames_view(frames@).map_values(|f: FrameView| FrameView { ch: channel, ..f });
            let shown = if channel == expected_channel {
                frames_to_ack(ack, received)
            } else {
                received.len() as int
            };
            &&& frames_view(r.0@) == received.take(shown)
            &&& r.1 == (channel == expected_channel && any_acknowledges(ack, received))
        }),
{
    let ghost on_channel = |f: FrameView| FrameView { ch: channel, ..f };
    let ghost received = frames_view(frames@).map_values(on_channel);
    let mut shown: Vec<CanFrame> = Vec::new();
    let mut i: usize = 0;
    assert(frames_view(shown@) =~= received.take(0));
    while i < frames.len()
        invariant
            i <= frames.len(),
            on_channel == (|f: FrameView| FrameView { ch: channel, ..f }),
            received == frames_view(frames@).map_values(on_channel),
            frames_view(shown@) == received.take(i as int),
            channel == expected_channel ==> forall|j: int|
                0 <= j < i ==> !acknowledges(ack, #[trigger] received[j]),
        decreases frames.len() - i,
    {
        let mut frame = frames[i].clone();
        frame.ch = channel;
        assert(frame@ == received[i as int]);
        let matched: bool = ota_ack_matches_on_channel(ack, expected_channel, channel, &frame);
        let ghost before = shown@;
        shown.push(frame);
        proof {
            assert(frames_view(shown@) =~= frames_view(before).push(received[i as int]));
            assert(received.take(i + 1) =~= received.take(i as int).push(received[i as int]));
        }
        if matched {
            proof {
                lemma_no_ack_yet(ack, received, i as int);
                assert(received.skip(i as int)[0] == received[i as int]);
            }
            return (shown, true);
        }
        i += 1;
    }
    proof {
        if channel == expected_channel {
            lemma_no_ack_yet(ack, received, i as int);
            assert(received.skip(i as int) =~= Seq::<FrameView>::empty());
        }
    }
    (shown, false)
}

// ---------------------------------------------------------------- the course of an update

/// A firmware update under way: the step that it is at and the attempts made for it.
#[derive(Debug)]
pub struct OtaRun {
    pub job: OtaJob,
    pub idx: usize,
    pub attempt: u32,
}

/// A report on the progress of a firmware update.
#[derive(Debug)]
pub struct OtaReport {
    pub done: usize,
    pub total: usize,
    pub text: String,
}

impl OtaReport {
    /// What the report says.
    pub open spec fn says(&self, done: int, total: int, text: Seq<char>) -> bool {
        self.done == done && self.total == total && self.text@ == text
    }
}

/// What a firmware update asks for next.
#[derive(Debug)]
pub enum OtaNext {
    /// Send this frame, then `after_send`; then wait for the acknowledgement on the channel for as
    /// long as is said.
    Transmit { frame: CanFrame, ack: OtaAck, channel: u8, timeout_ms: u64 },
    /// The update is over.
    Finished(OtaReport),
}

/// What follows an attempt.
#[derive(Debug)]
pub enum OtaAfterAck {
    /// The step is done.
    Advanced(OtaReport),
    /// The step is tried again; a message says so.
    Retry(String),
    /// The update failed; a message on the last attempt, and the report.
    GaveUp(String, OtaReport),
}

/// The greater of two numbers.
pub open spec fn greater(a: int, b: int) -> int {
    if a < b {
        b
    } else {
        a
    }
}

impl OtaRun {
    /// The update has not gone past its end.
    pub open spec fn wf(&self) -> bool {
        self.idx <= self.job.steps@.len() && (self.idx < self.job.steps@.len() ==> self.attempt
            <= self.retries())
    }

    /// The retries of the current step: its own or those of the job, whichever are more.
    pub open spec fn retries(&self) -> int {
        greater(self.job.steps@[self.idx as int].retries as int, self.job.retries as int)
    }

    /// How long the current step waits: its own time or that of the job, whichever is longer.
    pub open spec fn timeout(&self) -> int {
        greater(
            greater(
                self.job.steps@[self.idx as int].timeout_ms as int,
                self.job.timeout_ms as int,
            ),
            1,
        )
    }

    /// A text that begins with the name of the job.
    fn named(&self, rest: &str) -> (r: String)
        ensures
            r@ == self.job.name@ + rest@,
    {
        let mut out = self.job.name.clone();
        out.push_str(rest);
        out
    }

    /// Begins an update. Without a connected device it fails at once.
    pub fn begin(job: OtaJob, connected: bool, cancel: &mut OtaCancel) -> (r: (
        OtaReport,
        Option<OtaRun>,
    ))
        ensures
            connected ==> {
                &&& !final(cancel).requested
                &&& r.0.says(0, job.steps@.len() as int, job.name@ + " started"@)
                &&& r.1 matches Some(run) && run.job == job && run.idx == 0 && run.attempt == 0
                    && run.wf()
            },
            !connected ==> {
                &&& *final(cancel) == *old(cancel)
                &&& r.0.says(0, job.steps@.len() as int, "OTA failed: no device connected"@)
                &&& r.1 is None
            },
    {
        let total: usize = job.steps.len();
        if !connected {
            return (
                OtaReport { done: 0, total, text: "OTA failed: no device connected".to_owned() },
                None,
            );
        }
        cancel.requested = false;
        let run = OtaRun { job, idx: 0, attempt: 0 };
        let text = run.named(" started");
        (OtaReport { done: 0, total, text }, Some(run))
    }

    /// The next transmission, or the end of the update.
    pub fn next(&self, cancel: OtaCancel, t: i64) -> (r: OtaNext)
        requires
            self.wf(),
        ensures
            ({
                let total = self.job.steps@.len() as int;
                if self.idx == total {
                    r matches OtaNext::Finished(report) && report.says(
                        total,
                        total,
                        self.job.name@ + " complete"@,
                    )
                } else if cancel.requested {
                    r matches OtaNext::Finished(report) && report.says(
                        self.idx as int,
                        total,
                        self.job.name@ + " cancelled"@,
                    )
                } else {
                    let step = self.job.steps@[self.idx as int];
                    r matches OtaNext::Transmit { frame, ack, channel, timeout_ms } && frame@ == (
                    FrameView { t, tx: true, ..step.frame@ }) && ack == step.ack && channel
                        == step.frame.ch && timeout_ms == self.timeout()
                }
            }),
    {
        let total: usize = self.job.steps.len();
        if self.idx >= total {
            return OtaNext::Finished(
                OtaReport { done: total, total, text: self.named(" complete") },
            );
        }
        if cancel.requested {
            return OtaNext::Finished(
                OtaReport { done: self.idx, total, text: self.named(" cancelled") },
            );
        }
        let step = &self.job.steps[self.idx];
        let mut frame = step.frame.clone();
        frame.t = t;
        frame.tx = true;
        let mut timeout_ms: u64 = if step.timeout_ms < self.job.timeout_ms {
            self.job.timeout_ms
        } else {
            step.timeout_ms
        };
        if timeout_ms < 1 {
            timeout_ms = 1;
        }
        OtaNext::Transmit { frame, ack: step.ack, channel: step.frame.ch, timeout_ms }
    }

    /// Takes the outcome of a transmission. A frame that went out is shown; a failure ends the
    /// update.
    pub fn after_send(&self, frame: CanFrame, outcome: Result<u8, String>) -> (r: Result<
        CanFrame,
        OtaReport,
    >)
        ensures
            match outcome {
                Ok(used) => r matches Ok(echo) && echo@ == (FrameView { ch: used, ..frame@ }),
                Err(error) => r matches Err(report) && report.says(
                    self.idx as int,
                    self.job.steps@.len() as int,
                    "OTA send failed: "@ + error@,
                ),
            },
    {
        match outcome {
            Ok(used) => {
                let mut frame = frame;
                frame.ch = used;
                Ok(frame)
            },
            Err(error) => {
                let mut text = "OTA send failed: ".to_owned();
                text.push_str(error.as_str());
                Err(OtaReport { done: self.idx, total: self.job.steps.len(), text })
            },
        }
    }

    /// The message on an attempt without an acknowledgement.
    pub open spec fn timeout_text(&self) -> Seq<char> {
        self.job.name@ + " step "@ + text::decimal((self.idx + 1) as nat) + "/"@ + text::decimal(
            self.job.steps@.len(),
        ) + " timeout, retry "@ + text::decimal((self.attempt + 1) as nat) + "/"@ + text::decimal(
            self.retries() as nat,
        )
    }

    /// Takes whether the acknowledgement came. Without one the step is tried again as long as
    /// retries are left.
    pub fn after_ack(&mut self, acknowledged: bool) -> (r: OtaAfterAck)
        requires
            old(self).wf(),
            old(self).idx < old(self).job.steps@.len(),
        ensures
            final(self).wf(),
            final(self).job == old(self).job,
            ({
                let total = old(self).job.steps@.len() as int;
                let name = old(self).job.name@;
                match r {
                    OtaAfterAck::Advanced(report) => {
                        &&& acknowledged
                        &&& final(self).idx == old(self).idx + 1
                        &&& final(self).attempt == 0
                        &&& report.says(
                            old(self).idx + 1,
                            total,
                            name + " "@ + text::decimal((old(self).idx + 1) as nat) + "/"@
                                + text::decimal(total as nat),
                        )
                    },
                    OtaAfterAck::Retry(message) => {
                        &&& !acknowledged
                        &&& old(self).attempt < old(self).retries()
                        &&& final(self).idx == old(self).idx
                        &&& final(self).attempt == old(self).attempt + 1
                        &&& message@ == old(self).timeout_text()
                    },
                    OtaAfterAck::GaveUp(message, report) => {
                        &&& !acknowledged
                        &&& old(self).attempt == old(self).retries()
                        &&& *final(self) == *old(self)
                        &&& message@ == old(self).timeout_text()
                        &&& report.says(
                            old(self).idx as int,
                            total,
                            name + " failed at step "@ + text::decimal((old(self).idx + 1) as nat),
                        )
                    },
                }
            }),
    {
        let total: usize = self.job.steps.len();
        let place: u64 = self.idx as u64 + 1;
        if acknowledged {
            let mut text = self.named(" ");
            text::push_decimal(&mut text, place);
            text.push_str("/");
            text::push_decimal(&mut text, total as u64);
            self.idx = self.idx + 1;
            self.attempt = 0;
            return OtaAfterAck::Advanced(OtaReport { done: self.idx, total, text });
        }
        let own: u32 = self.job.steps[self.idx].retries;
        let retries: u32 = if own < self.job.retries {
            self.job.retries
        } else {
            own
        };
        let mut message = self.named(" step ");
        text::push_decimal(&mut message, place);
        message.push_str("/");
        text::push_decimal(&mut message, total as u64);
        message.push_str(" timeout, retry ");
        text::push_decimal(&mut message, self.attempt as u64 + 1);
        message.push_str("/");
        text::push_decimal(&mut message, retries as u64);
        if self.attempt < retries {
            self.attempt = self.attempt + 1;
            return OtaAfterAck::Retry(message);
        }
        let mut text = self.named(" failed at step ");
        text::push_decimal(&mut text, place);
        OtaAfterAck::GaveUp(message, OtaReport { done: self.idx, total, text })
    }
}

/// The attempts that an update can still make.
pub open spec fn attempts_left(job: OtaJob, idx: int, attempt: int) -> int
    decreases job.steps@.len() - idx,
{
    if idx < 0 || idx >= job.steps@.len() {
        0
    } else {
        greater(job.steps@[idx].retries as int, job.retries as int) + 1 - attempt + attempts_left(
            job,
            idx + 1,
            0,
        )
    }
}

/// Every update comes to an end: each attempt that does not end it leaves fewer attempts.
pub proof fn law_updates_end(before: OtaRun, after: OtaRun)
    requires
        before.wf(),
        before.idx < before.job.steps@.len(),
        after.job == before.job,
        (after.idx == before.idx + 1 && after.attempt == 0) || (after.idx == before.idx
            && after.attempt == before.attempt + 1),
    ensures
        attempts_left(after.job, after.idx as int, after.attempt as int) < attempts_left(
            before.job,
            before.idx as int,
            before.attempt as int,
        ),
{
}

} // verus!

//! Requests of scripts: what they are answered, and which periodic frames they own.
use crate::can::{CanFrame, Cmd, DeviceConfig, FrameView};
use crate::lists::newest;
use crate::text;
use vstd::prelude::*;

verus! {

/// Frames that a batch may bring onto the bus.
pub const BATCH_LIMIT: u64 = 100_000;

// ---------------------------------------------------------------- frames

/// A frame that a script wants to send.
#[derive(Debug)]
pub struct IpcFrame {
    pub ch: u8,
    pub id: u32,
    pub data: Vec<u8>,
    pub ext: bool,
    pub fd: bool,
    pub brs: bool,
    pub remote: bool,
}

/// Whether a length has a code of its own in CAN FD.
pub open spec fn has_code(n: nat) -> bool {
    n <= 8 || n == 12 || n == 16 || n == 20 || n == 24 || n == 32 || n == 48 || n == 64
}

/// What is wrong with a frame that a script wants to send.
pub open spec fn frame_fault(f: IpcFrame) -> Option<Seq<char>> {
    let max: u32 = if f.ext {
        0x1FFF_FFFF
    } else {
        0x7FF
    };
    let n = f.data@.len();
    if f.ch == 0 {
        Some("CAN 通道必须从 1 开始"@)
    } else if f.id > max {
        Some(
            "ID 0x"@ + text::hex(f.id as nat) + " 超出"@ + (if f.ext {
                "扩展"@
            } else {
                "标准"@
            }) + "帧范围 0x0..0x"@ + text::hex(max as nat),
        )
    } else if f.brs && !f.fd {
        Some("BRS 只能用于 CAN FD 帧"@)
    } else if f.remote && f.fd {
        Some("CAN FD 不支持远程帧"@)
    } else if f.remote && n > 0 {
        Some("远程帧不能携带数据字节"@)
    } else if !f.fd && n > 8 {
        Some(
            "经典 CAN 最多 8 字节，当前为 "@ + text::decimal(n)
                + " 字节；需要显式设置 fd=True"@,
        )
    } else if f.fd && !has_code(n) {
        Some(
            "CAN FD 数据长度 "@ + text::decimal(n)
                + " 无法直接映射 DLC；允许 0..8、12、16、20、24、32、48、64 字节"@,
        )
    } else {
        None
    }
}

/// The frame on the bus of one that a script wants to send.
pub open spec fn sent_frame(f: IpcFrame) -> FrameView {
    FrameView {
        t: 0,
        ch: f.ch,
        tx: true,
        id: f.id,
        ext: f.ext,
        fd: f.fd,
        brs: f.brs,
        remote: f.remote,
        error: false,
        data: f.data@,
    }
}

fn check_frame(f: &IpcFrame) -> (r: Result<(), String>)
    ensures
        match r {
            Ok(()) => frame_fault(*f) is None,
            Err(m) => frame_fault(*f) == Some(m@),
        },
{
    if f.ch == 0 {
        return Err("CAN 通道必须从 1 开始".to_owned());
    }
    let max: u32 = if f.ext {
        0x1FFF_FFFF
    } else {
        0x7FF
    };
    if f.id > max {
        let mut out = "ID 0x".to_owned();
        text::push_hex(&mut out, f.id as u64);
        out.push_str(" 超出");
        if f.ext {
            out.push_str("扩展");
        } else {
            out.push_str("标准");
        }
        out.push_str("帧范围 0x0..0x");
        text::push_hex(&mut out, max as u64);
        return Err(out);
    }
    if f.brs && !f.fd {
        return Err("BRS 只能用于 CAN FD 帧".to_owned());
    }
    if f.remote && f.fd {
        return Err("CAN FD 不支持远程帧".to_owned());
    }
    let n: usize = f.data.len();
    if f.remote && n > 0 {
        return Err("远程帧不能携带数据字节".to_owned());
    }
    if !f.fd && n > 8 {
        let mut out = "经典 CAN 最多 8 字节，当前为 ".to_owned();
        text::push_decimal(&mut out, n as u64);
        out.push_str(" 字节；需要显式设置 fd=True");
        return Err(out);
    }
    let coded: bool = n <= 8 || n == 12 || n == 16 || n == 20 || n == 24 || n == 32 || n == 48 || n
        == 64;
    if f.fd && !coded {
        let mut out = "CAN FD 数据长度 ".to_owned();
        text::push_decimal(&mut out, n as u64);
        out.push_str(" 无法直接映射 DLC；允许 0..8、12、16、20、24、32、48、64 字节");
        return Err(out);
    }
    Ok(())
}

/// Checks a frame that a script wants to send.
pub fn validate_ipc_tx_frame(f: &IpcFrame) -> (r: Result<CanFrame, String>)
    ensures
        match r {
            Ok(frame) => frame_fault(*f) is None && frame@ == sent_frame(*f),
            Err(m) => frame_fault(*f) == Some(m@),
        },
{
    match check_frame(f) {
        Err(m) => Err(m),
        Ok(()) => Ok(
            CanFrame {
                t: 0,
                ch: f.ch,
                tx: true,
                id: f.id,
                ext: f.ext,
                fd: f.fd,
                brs: f.brs,
                remote: f.remote,
                error: false,
                data: crate::bytes::copy_bytes(f.data.as_slice()),
            },
        ),
    }
}

// ---------------------------------------------------------------- answers

/// What a script is answered.
#[derive(Debug)]
pub enum IpcReply {
    Done,
    /// The configured channels are being connected: how many, and their numbers.
    Connecting { channels: usize, expected: Vec<u8> },
    /// A database: whether it was loaded now, under which name, and a note where it was not.
    Database { loaded: bool, name: String, note: Option<&'static str> },
    /// The request could not be read.
    Invalid { code: String, msg: String },
    Refused { code: &'static str, msg: String },
}

/// Whether a request is refused with a code and a message.
pub open spec fn refuses(r: IpcReply, code: Seq<char>, msg: Seq<char>) -> bool {
    r matches IpcReply::Refused { code: c, msg: m } && c@ == code && m@ == msg
}

fn refused(code: &'static str, msg: &str) -> (r: IpcReply)
    ensures
        refuses(r, code@, msg@),
{
    IpcReply::Refused { code, msg: msg.to_owned() }
}

fn refused_with(code: &'static str, msg: String) -> (r: IpcReply)
    ensures
        refuses(r, code@, msg@),
{
    IpcReply::Refused { code, msg }
}

/// What is said where there is no licence.
pub open spec fn unlicensed(r: IpcReply) -> bool {
    refuses(r, "LICENSE_REQUIRED"@, "试用已结束，需要有效的 .pcanlic 授权"@)
}

/// The answer where there is no licence.
pub fn license_denied() -> (r: IpcReply)
    ensures
        unlicensed(r),
{
    refused("LICENSE_REQUIRED", "试用已结束，需要有效的 .pcanlic 授权")
}

/// A step towards an answer.
#[derive(Debug)]
pub enum IpcStep {
    /// The answer.
    Reply(IpcReply),
    /// A command is to be submitted; the answer depends on whether it is accepted.
    Submit(Cmd),
    /// A batch is to be submitted.
    Batch { frames: Vec<CanFrame>, repeat: u32 },
    /// A periodic frame is to be submitted under a number of the client, then
    /// `periodic_submitted`.
    Periodic { number: u64, handle: u64, start: Cmd },
}

/// What a single frame comes to.
pub open spec fn once_step(r: IpcStep, f: IpcFrame, licensed: bool) -> bool {
    if !licensed {
        r matches IpcStep::Reply(reply) && unlicensed(reply)
    } else {
        match frame_fault(f) {
            Some(m) => r matches IpcStep::Reply(reply) && refuses(reply, "BAD_FRAME"@, m),
            None => r matches IpcStep::Submit(Cmd::SendOnce(frame)) && frame@ == sent_frame(f),
        }
    }
}

/// A single frame is to be sent.
pub fn send_once(f: &IpcFrame, licensed: bool) -> (r: IpcStep)
    ensures
        once_step(r, *f, licensed),
{
    if !licensed {
        return IpcStep::Reply(license_denied());
    }
    match validate_ipc_tx_frame(f) {
        Ok(frame) => IpcStep::Submit(Cmd::SendOnce(frame)),
        Err(m) => IpcStep::Reply(refused_with("BAD_FRAME", m)),
    }
}

/// The answer to a single frame, given whether it was accepted.
pub fn send_once_reply(accepted: bool) -> (r: IpcReply)
    ensures
        if accepted {
            r is Done
        } else {
            refuses(r, "BUSY"@, "CAN 命令队列已满，本帧未提交，请稍后重试"@)
        },
{
    if accepted {
        IpcReply::Done
    } else {
        refused("BUSY", "CAN 命令队列已满，本帧未提交，请稍后重试")
    }
}

/// The number of the first frame, from one on, that cannot be sent.
pub open spec fn first_bad(frames: Seq<IpcFrame>, from: int) -> Option<int>
    decreases frames.len() - from,
{
    if from < 0 || from >= frames.len() {
        None
    } else if frame_fault(frames[from]) is Some {
        Some(from)
    } else {
        first_bad(frames, from + 1)
    }
}

/// The frames on the bus of those that a script wants to send.
pub open spec fn sent_frames(frames: Seq<IpcFrame>) -> Seq<FrameView> {
    frames.map_values(|f: IpcFrame| sent_frame(f))
}

/// The frames that a batch brings onto the bus.
pub open spec fn batch_total(count: nat, repeat: u32) -> int {
    let total = count * (repeat as nat);
    if total > u64::MAX {
        u64::MAX as int
    } else {
        total as int
    }
}

fn total_of(count: usize, repeat: u32) -> (r: u64)
    ensures
        r == batch_total(count as nat, repeat),
{
    proof {
        assert((count as int) * (repeat as int) <= u64::MAX * u32::MAX) by (nonlinear_arith)
            requires
                0 <= count <= u64::MAX,
                0 <= repeat <= u32::MAX,
        ;
        assert((count as int) * (repeat as int) >= 0) by (nonlinear_arith)
            requires
                0 <= count,
                0 <= repeat,
        ;
    }
    let product: u128 = (count as u128) * (repeat as u128);
    if product > 0xFFFF_FFFF_FFFF_FFFF {
        0xFFFF_FFFF_FFFF_FFFF
    } else {
        product as u64
    }
}


/// What a batch comes to.
pub open spec fn batch_step(r: IpcStep, frames: Seq<IpcFrame>, repeat: u32, licensed: bool) -> bool {
    let total = batch_total(frames.len(), repeat);
    if !licensed {
        r matches IpcStep::Reply(reply) && unlicensed(reply)
    } else if frames.len() == 0 {
        r matches IpcStep::Reply(reply) && refuses(reply, "BAD_ARG"@, "frames 不能为空"@)
    } else if repeat == 0 {
        r matches IpcStep::Reply(reply) && refuses(reply, "BAD_ARG"@, "repeat 必须大于 0"@)
    } else if total > BATCH_LIMIT {
        r matches IpcStep::Reply(reply) && refuses(
            reply,
            "BATCH_LIMIT"@,
            "批量发送共 "@ + text::decimal(total as nat) + " 帧，超过 100000 帧安全上限"@,
        )
    } else {
        match first_bad(frames, 0) {
            Some(i) => r matches IpcStep::Reply(reply) && refuses(
                reply,
                "BAD_FRAME"@,
                "frames["@ + text::decimal(i as nat) + "]: "@ + frame_fault(frames[i])->0,
            ),
            None => r matches IpcStep::Batch { frames: out, repeat: n } && n == repeat
                && crate::can::frames_view(out@) == sent_frames(frames),
        }
    }
}

/// A batch is to be sent: as a whole or not at all.
pub fn send_batch(frames: &[IpcFrame], repeat: u32, licensed: bool) -> (r: IpcStep)
    ensures
        batch_step(r, frames@, repeat, licensed),
{
    let ghost all = frames@;
    if !licensed {
        return IpcStep::Reply(license_denied());
    }
    if frames.len() == 0 {
        return IpcStep::Reply(refused("BAD_ARG", "frames 不能为空"));
    }
    if repeat == 0 {
        return IpcStep::Reply(refused("BAD_ARG", "repeat 必须大于 0"));
    }
    let total: u64 = total_of(frames.len(), repeat);
    if total > BATCH_LIMIT {
        let mut out = "批量发送共 ".to_owned();
        text::push_decimal(&mut out, total);
        out.push_str(" 帧，超过 100000 帧安全上限");
        return IpcStep::Reply(refused_with("BATCH_LIMIT", out));
    }
    let mut valid: Vec<CanFrame> = Vec::new();
    let mut i: usize = 0;
    while i < frames.len()
        invariant
            i <= all.len(),
            licensed,
            repeat > 0,
            all.len() > 0,
            all == frames@,
            batch_total(all.len(), repeat) <= BATCH_LIMIT,
            crate::can::frames_view(valid@) =~= sent_frames(all.take(i as int)),
            first_bad(all, 0) == first_bad(all, i as int),
        decreases all.len() - i,
    {
        let ghost before = valid@;
        let f = &frames[i];
        match validate_ipc_tx_frame(f) {
            Ok(frame) => {
                valid.push(frame);
                assert(crate::can::frames_view(valid@) =~= crate::can::frames_view(before).push(
                    sent_frame(*f),
                ));
                assert(sent_frames(all.take(i + 1)) =~= sent_frames(all.take(i as int)).push(
                    sent_frame(*f),
                ));
            },
            Err(m) => {
                let mut out = "frames[".to_owned();
                text::push_decimal(&mut out, i as u64);
                out.push_str("]: ");
                out.push_str(m.as_str());
                return IpcStep::Reply(refused_with("BAD_FRAME", out));
            },
        }
        i += 1;
    }
    assert(all.take(i as int) =~= all);
    IpcStep::Batch { frames: valid, repeat }
}

// ---------------------------------------------------------------- periodic frames

/// The periodic frames of the scripts: who owns each of them, under which number it is known to its
/// owner and under which it runs.
#[derive(Debug)]
pub struct IpcHandles {
    entries: Vec<((u64, u64), u64)>,
    next_handle: u64,
}

/// The handles of all owners.
pub open spec fn handle_map(entries: Seq<((u64, u64), u64)>) -> Map<(u64, u64), u64>
    decreases entries.len(),
{
    if entries.len() == 0 {
        Map::empty()
    } else {
        handle_map(entries.drop_last()).insert(entries.last().0, entries.last().1)
    }
}

/// Whether no owner has a number twice.
pub open spec fn distinct_owners(entries: Seq<((u64, u64), u64)>) -> bool {
    forall|i: int, j: int|
        0 <= i < j < entries.len() ==> (#[trigger] entries[i]).0 != (#[trigger] entries[j]).0
}

proof fn lemma_handle_map(entries: Seq<((u64, u64), u64)>)
    requires
        distinct_owners(entries),
    ensures
        forall|i: int|
            0 <= i < entries.len() ==> handle_map(entries).dom().contains(
                (#[trigger] entries[i]).0,
            ) && handle_map(entries)[entries[i].0] == entries[i].1,
        forall|k: (u64, u64)| #[trigger]
            handle_map(entries).dom().contains(k) ==> exists|i: int|
                0 <= i < entries.len() && (#[trigger] entries[i]).0 == k,
    decreases entries.len(),
{
    if entries.len() > 0 {
        let rest = entries.drop_last();
        let e = entries.last();
        assert(distinct_owners(rest)) by {
            assert forall|i: int, j: int| 0 <= i < j < rest.len() implies (
            #[trigger] rest[i]).0 != (#[trigger] rest[j]).0 by {
                assert(entries[i].0 != entries[j].0);
            }
        }
        lemma_handle_map(rest);
        assert forall|i: int| 0 <= i < entries.len() implies handle_map(entries).dom().contains(
            (#[trigger] entries[i]).0,
        ) && handle_map(entries)[entries[i].0] == entries[i].1 by {
            if i < rest.len() {
                assert(rest[i] == entries[i]);
                assert(entries[i].0 != entries[entries.len() - 1].0);
            }
        }
        assert forall|k: (u64, u64)| #[trigger] handle_map(entries).dom().contains(k) implies exists|
            i: int,
        | 0 <= i < entries.len() && (#[trigger] entries[i]).0 == k by {
            if k == e.0 {
                assert(entries[entries.len() - 1].0 == k);
            } else {
                assert(handle_map(rest).dom().contains(k));
                let i = choose|i: int| 0 <= i < rest.len() && (#[trigger] rest[i]).0 == k;
                assert(entries[i].0 == k);
            }
        }
    }
}

proof fn lemma_same_handles(a: Seq<((u64, u64), u64)>, m: Map<(u64, u64), u64>)
    requires
        distinct_owners(a),
        forall|i: int|
            0 <= i < a.len() ==> m.dom().contains((#[trigger] a[i]).0) && m[a[i].0] == a[i].1,
        forall|k: (u64, u64)| #[trigger]
            m.dom().contains(k) ==> exists|i: int| 0 <= i < a.len() && (#[trigger] a[i]).0 == k,
    ensures
        handle_map(a) == m,
{
    lemma_handle_map(a);
    assert forall|k: (u64, u64)| handle_map(a).dom().contains(k) <==> #[trigger] m.dom().contains(
        k,
    ) by {
        if m.dom().contains(k) {
            let i = choose|i: int| 0 <= i < a.len() && (#[trigger] a[i]).0 == k;
            assert(handle_map(a).dom().contains(a[i].0));
        }
        if handle_map(a).dom().contains(k) {
            let i = choose|i: int| 0 <= i < a.len() && (#[trigger] a[i]).0 == k;
            assert(m.dom().contains(a[i].0));
        }
    }
    assert forall|k: (u64, u64)| #[trigger] m.dom().contains(k) implies handle_map(a)[k] == m[k] by {
        let i = choose|i: int| 0 <= i < a.len() && (#[trigger] a[i]).0 == k;
        assert(handle_map(a)[a[i].0] == m[a[i].0]);
    }
    assert(handle_map(a) =~= m);
}

/// Whether a command stops the periodic frame with a handle: it turns off an empty frame.
pub open spec fn stops(c: Cmd, handle: u64) -> bool {
    c matches Cmd::SetPeriodic { handle: h, frame, period_ms, repeat, enable } && {
        &&& h == handle
        &&& frame@ == (FrameView {
            t: 0,
            ch: 1,
            tx: true,
            id: 0,
            ext: false,
            fd: false,
            brs: false,
            remote: false,
            error: false,
            data: seq![],
        })
        &&& period_ms == 1
        &&& repeat == -1
        &&& !enable
    }
}

/// The command that stops the periodic frame with a handle.
pub fn stop_internal_periodic(internal: u64) -> (r: Cmd)
    ensures
        stops(r, internal),
{
    let frame = CanFrame {
        t: 0,
        ch: 1,
        tx: true,
        id: 0,
        ext: false,
        fd: false,
        brs: false,
        remote: false,
        error: false,
        data: Vec::new(),
    };
    assert(frame.data@ =~= seq![]);
    Cmd::SetPeriodic { handle: internal, frame, period_ms: 1, repeat: -1, enable: false }
}

/// The handles that a client owns, in the order in which they were given.
pub open spec fn owned(entries: Seq<((u64, u64), u64)>, client: u64) -> Seq<u64>
    decreases entries.len(),
{
    if entries.len() == 0 {
        seq![]
    } else if entries.last().0.0 == client {
        owned(entries.drop_last(), client).push(entries.last().1)
    } else {
        owned(entries.drop_last(), client)
    }
}

/// Whether each command stops one of the handles, in their order.
pub open spec fn stops_all(commands: Seq<Cmd>, handles: Seq<u64>) -> bool {
    &&& commands.len() == handles.len()
    &&& forall|i: int| 0 <= i < handles.len() ==> stops(#[trigger] commands[i], handles[i])
}

/// A periodic frame that is to be started.
#[derive(Debug)]
pub struct PeriodicStart {
    pub handle: u64,
    /// The command that stops the frame that ran under the same number, if one did.
    pub stop: Option<Cmd>,
    pub start: Cmd,
}

/// Whether a periodic frame is refused: without a licence, or because of the frame.
pub open spec fn periodic_refused(reply: IpcReply, f: IpcFrame, licensed: bool) -> bool {
    if !licensed {
        unlicensed(reply)
    } else {
        frame_fault(f) is Some && refuses(reply, "BAD_FRAME"@, frame_fault(f)->0)
    }
}

/// Whether a command starts a periodic frame under a handle, with a period of at least a
/// millisecond.
pub open spec fn starts(c: Cmd, handle: u64, f: IpcFrame, period_ms: u64, repeat: i64) -> bool {
    c matches Cmd::SetPeriodic { handle: h, frame, period_ms: ms, repeat: n, enable } && {
        &&& h == handle
        &&& frame@ == sent_frame(f)
        &&& ms == if period_ms < 1 {
            1
        } else {
            period_ms
        }
        &&& n == repeat
        &&& enable
    }
}

/// The handle under which a periodic frame of a script runs: they are told from others by their
/// highest bit.
pub open spec fn script_handle(next: u64) -> u64 {
    next | (1u64 << 63)
}

impl IpcHandles {
    /// Whether the numbers of each owner are distinct.
    pub closed spec fn wf(&self) -> bool {
        distinct_owners(self.entries@)
    }

    /// The handles of all owners.
    pub closed spec fn map(&self) -> Map<(u64, u64), u64> {
        handle_map(self.entries@)
    }

    /// The handles of all owners in the order in which they were given.
    pub closed spec fn list(&self) -> Seq<((u64, u64), u64)> {
        self.entries@
    }

    /// The number of the next handle.
    pub closed spec fn next(&self) -> u64 {
        self.next_handle
    }

    /// No periodic frames.
    pub fn new() -> (r: IpcHandles)
        ensures
            r.wf(),
            r.map() == Map::<(u64, u64), u64>::empty(),
            r.next() == 1,
    {
        IpcHandles { entries: Vec::new(), next_handle: 1 }
    }

    /// The number of the next handle.
    pub fn next_number(&self) -> (r: u64)
        ensures
            r == self.next(),
    {
        self.next_handle
    }

    /// Gives out some handles to others. The first of them; the rest follow it.
    pub fn give_out(&mut self, count: u64) -> (r: u64)
        requires
            old(self).wf(),
            old(self).next() + count <= u64::MAX,
        ensures
            final(self).wf(),
            r == old(self).next(),
            final(self).next() == old(self).next() + count,
            final(self).map() == old(self).map(),
            final(self).list() == old(self).list(),
    {
        let first: u64 = self.next_handle;
        self.next_handle = first + count;
        first
    }

    fn find(&self, key: (u64, u64)) -> (r: Option<usize>)
        requires
            self.wf(),
        ensures
            match r {
                Some(i) => i < self.entries@.len() && self.entries@[i as int].0 == key
                    && self.map().dom().contains(key) && self.map()[key]
                    == self.entries@[i as int].1,
                None => !self.map().dom().contains(key),
            },
    {
        proof {
            lemma_handle_map(self.entries@);
        }
        let mut i: usize = 0;
        while i < self.entries.len()
            invariant
                i <= self.entries@.len(),
                forall|j: int| 0 <= j < i ==> (#[trigger] self.entries@[j]).0 != key,
                forall|j: int|
                    0 <= j < self.entries@.len() ==> self.map().dom().contains(
                        (#[trigger] self.entries@[j]).0,
                    ) && self.map()[self.entries@[j].0] == self.entries@[j].1,
            decreases self.entries@.len() - i,
        {
            let k = self.entries[i].0;
            if k.0 == key.0 && k.1 == key.1 {
                assert(self.entries@[i as int].0 == key);
                return Some(i);
            }
            i += 1;
        }
        None
    }

    fn take(&mut self, key: (u64, u64)) -> (r: Option<u64>)
        requires
            old(self).wf(),
        ensures
            final(self).wf(),
            final(self).next() == old(self).next(),
            final(self).map() == old(self).map().remove(key),
            r == if old(self).map().dom().contains(key) {
                Some(old(self).map()[key])
            } else {
                None
            },
    {
        match self.find(key) {
            Some(i) => {
                let ghost before = self.entries@;
                proof {
                    lemma_handle_map(before);
                }
                let (_, handle) = self.entries.remove(i);
                proof {
                    let after = self.entries@;
                    assert(after =~= before.remove(i as int));
                    assert forall|a: int, b: int| 0 <= a < b < after.len() implies (
                    #[trigger] after[a]).0 != (#[trigger] after[b]).0 by {
                        let x = if a < i { a } else { a + 1 };
                        let y = if b < i { b } else { b + 1 };
                        assert(before[x].0 != before[y].0);
                    }
                    let m = handle_map(before).remove(key);
                    assert forall|j: int| 0 <= j < after.len() implies m.dom().contains(
                        (#[trigger] after[j]).0,
                    ) && m[after[j].0] == after[j].1 by {
                        let x = if j < i { j } else { j + 1 };
                        assert(before[x] == after[j]);
                        assert(before[x].0 != before[i as int].0);
                    }
                    assert forall|k: (u64, u64)| #[trigger] m.dom().contains(k) implies exists|j: int|
                        0 <= j < after.len() && (#[trigger] after[j]).0 == k by {
                        let x = choose|x: int| 0 <= x < before.len() && (#[trigger] before[x]).0 == k;
                        let y = if x < i { x } else { x - 1 };
                        assert(after[y].0 == k);
                    }
                    lemma_same_handles(after, m);
                }
                Some(handle)
            },
            None => {
                assert(self.map().remove(key) =~= self.map());
                None
            },
        }
    }

    fn put(&mut self, key: (u64, u64), handle: u64)
        requires
            old(self).wf(),
            !old(self).map().dom().contains(key),
        ensures
            final(self).wf(),
            final(self).next() == old(self).next(),
            final(self).map() == old(self).map().insert(key, handle),
    {
        let ghost before = self.entries@;
        proof {
            lemma_handle_map(before);
        }
        self.entries.push((key, handle));
        assert(self.entries@.drop_last() =~= before);
        assert forall|i: int, j: int| 0 <= i < j < self.entries@.len() implies (
        #[trigger] self.entries@[i]).0 != (#[trigger] self.entries@[j]).0 by {
            if j < before.len() {
                assert(before[i].0 != before[j].0);
            } else {
                assert(handle_map(before).dom().contains(before[i].0));
            }
        }
    }

    /// A client wants a periodic frame under a number of its own. A frame that runs under that
    /// number is stopped.
    pub fn set_periodic(
        &mut self,
        client: u64,
        number: u64,
        f: &IpcFrame,
        period_ms: u64,
        repeat: i64,
        licensed: bool,
    ) -> (r: Result<PeriodicStart, IpcReply>)
        requires
            old(self).wf(),
            old(self).next() < u64::MAX,
        ensures
            final(self).wf(),
            match r {
                Err(reply) => *final(self) == *old(self) && periodic_refused(reply, *f, licensed),
                Ok(p) => {
                    let key = (client, number);
                    &&& licensed
                    &&& frame_fault(*f) is None
                    &&& p.handle == script_handle(old(self).next())
                    &&& final(self).next() == old(self).next() + 1
                    &&& final(self).map() == old(self).map().insert(key, p.handle)
                    &&& match p.stop {
                        Some(c) => old(self).map().dom().contains(key) && stops(
                            c,
                            old(self).map()[key],
                        ),
                        None => !old(self).map().dom().contains(key),
                    }
                    &&& starts(p.start, p.handle, *f, period_ms, repeat)
                },
            },
    {
        if !licensed {
            return Err(license_denied());
        }
        let frame = match validate_ipc_tx_frame(f) {
            Ok(frame) => frame,
            Err(m) => {
                return Err(refused_with("BAD_FRAME", m));
            },
        };
        let handle: u64 = self.next_handle | (1u64 << 63);
        self.next_handle = self.next_handle + 1;
        let ghost before = self.map();
        let key = (client, number);
        let stop = match self.take(key) {
            Some(old) => Some(stop_internal_periodic(old)),
            None => None,
        };
        self.put(key, handle);
        assert(before.remove(key).insert(key, handle) =~= before.insert(key, handle));
        let start = Cmd::SetPeriodic {
            handle,
            frame,
            period_ms: if period_ms < 1 {
                1
            } else {
                period_ms
            },
            repeat,
            enable: true,
        };
        Ok(PeriodicStart { handle, stop, start })
    }

    /// The start of a periodic frame was submitted, or could not be: then the client owns nothing
    /// under its number.
    pub fn periodic_submitted(&mut self, client: u64, number: u64, accepted: bool) -> (r: IpcReply)
        requires
            old(self).wf(),
        ensures
            final(self).wf(),
            final(self).next() == old(self).next(),
            if accepted {
                r is Done && final(self).map() == old(self).map()
            } else {
                &&& refuses(r, "BUSY"@, "CAN 命令队列已满，周期任务未提交，请稍后重试"@)
                &&& final(self).map() == old(self).map().remove((client, number))
            },
    {
        if accepted {
            IpcReply::Done
        } else {
            let _ = self.take((client, number));
            refused("BUSY", "CAN 命令队列已满，周期任务未提交，请稍后重试")
        }
    }

    /// A client wants the periodic frame under a number of its own to stop.
    pub fn stop_periodic(&mut self, client: u64, number: u64) -> (r: Option<Cmd>)
        requires
            old(self).wf(),
        ensures
            final(self).wf(),
            final(self).next() == old(self).next(),
            final(self).map() == old(self).map().remove((client, number)),
            match r {
                Some(c) => old(self).map().dom().contains((client, number)) && stops(
                    c,
                    old(self).map()[(client, number)],
                ),
                None => !old(self).map().dom().contains((client, number)),
            },
    {
        match self.take((client, number)) {
            Some(handle) => Some(stop_internal_periodic(handle)),
            None => None,
        }
    }

    /// A client is gone: all its periodic frames stop, and those of others go on.
    pub fn client_gone(&mut self, client: u64) -> (r: Vec<Cmd>)
        requires
            old(self).wf(),
        ensures
            final(self).wf(),
            final(self).next() == old(self).next(),
            stops_all(r@, owned(old(self).list(), client)),
            forall|k: (u64, u64)| #[trigger]
                final(self).map().dom().contains(k) <==> old(self).map().dom().contains(k) && k.0
                    != client,
            forall|k: (u64, u64)| #[trigger]
                final(self).map().dom().contains(k) ==> final(self).map()[k] == old(self).map()[k],
    {
        let ghost before = self.entries@;
        let n: usize = self.entries.len();
        let mut commands: Vec<Cmd> = Vec::new();
        let mut kept: Vec<((u64, u64), u64)> = Vec::new();
        let mut i: usize = 0;
        assert(before.take(0) =~= seq![]);
        while i < n
            invariant
                i <= n == before.len(),
                self.entries@ == before,
                self.next_handle == old(self).next_handle,
                distinct_owners(before),
                stops_all(commands@, owned(before.take(i as int), client)),
                distinct_owners(kept@),
                forall|j: int|
                    0 <= j < kept@.len() ==> (#[trigger] kept@[j]).0.0 != client && before.take(
                        i as int,
                    ).contains(kept@[j]),
                forall|j: int|
                    0 <= j < i && (#[trigger] before[j]).0.0 != client ==> kept@.contains(before[j]),
            decreases n - i,
        {
            let e = self.entries[i];
            let ghost kept0 = kept@;
            let ghost commands0 = commands@;
            proof {
                assert(before.take(i + 1).drop_last() =~= before.take(i as int));
                assert(before.take(i + 1).last() == e);
                assert(before[i as int] == e);
            }
            if e.0.0 == client {
                commands.push(stop_internal_periodic(e.1));
                assert(stops_all(commands@, owned(before.take(i + 1), client)));
            } else {
                kept.push(e);
                assert forall|a: int, b: int| 0 <= a < b < kept@.len() implies (
                #[trigger] kept@[a]).0 != (#[trigger] kept@[b]).0 by {
                    if b < kept0.len() {
                        assert(kept0[a].0 != kept0[b].0);
                    } else {
                        assert(before.take(i as int).contains(kept0[a]));
                        let x = choose|x: int|
                            0 <= x < i && before.take(i as int)[x] == kept0[a];
                        assert(before[x].0 != before[i as int].0);
                    }
                }
            }
            proof {
                assert forall|j: int| 0 <= j < kept@.len() implies (#[trigger] kept@[j]).0.0
                    != client && before.take(i + 1).contains(kept@[j]) by {
                    if j < kept0.len() {
                        assert(kept@[j] == kept0[j]);
                        let x = choose|x: int| 0 <= x < i && before.take(i as int)[x] == kept0[j];
                        assert(before.take(i + 1)[x] == kept@[j]);
                    } else {
                        assert(before.take(i + 1)[i as int] == e);
                    }
                }
                assert forall|j: int| 0 <= j < i + 1 && (#[trigger] before[j]).0.0
                    != client implies kept@.contains(before[j]) by {
                    if j < i {
                        assert(kept0.contains(before[j]));
                        let x = choose|x: int| 0 <= x < kept0.len() && kept0[x] == before[j];
                        assert(kept@[x] == before[j]);
                    } else {
                        assert(kept@[kept@.len() - 1] == e);
                    }
                }
            }
            i += 1;
        }
        assert(before.take(i as int) =~= before);
        self.entries = kept;
        proof {
            let after = self.entries@;
            lemma_handle_map(before);
            lemma_handle_map(after);
            assert forall|k: (u64, u64)| #[trigger] handle_map(after).dom().contains(k) <==> handle_map(
                before,
            ).dom().contains(k) && k.0 != client by {
                if handle_map(after).dom().contains(k) {
                    let j = choose|j: int| 0 <= j < after.len() && (#[trigger] after[j]).0 == k;
                    assert(before.contains(after[j]));
                    let x = choose|x: int| 0 <= x < before.len() && before[x] == after[j];
                    assert(handle_map(before).dom().contains(before[x].0));
                }
                if handle_map(before).dom().contains(k) && k.0 != client {
                    let x = choose|x: int| 0 <= x < before.len() && (#[trigger] before[x]).0 == k;
                    assert(after.contains(before[x]));
                    let j = choose|j: int| 0 <= j < after.len() && after[j] == before[x];
                    assert(handle_map(after).dom().contains(after[j].0));
                }
            }
            assert forall|k: (u64, u64)| #[trigger] handle_map(after).dom().contains(k) implies handle_map(
                after,
            )[k] == handle_map(before)[k] by {
                let j = choose|j: int| 0 <= j < after.len() && (#[trigger] after[j]).0 == k;
                assert(before.contains(after[j]));
                let x = choose|x: int| 0 <= x < before.len() && before[x] == after[j];
                assert(handle_map(before)[before[x].0] == before[x].1);
                assert(handle_map(after)[after[j].0] == after[j].1);
            }
        }
        commands
    }

    /// The answer to a client that a periodic frame started could not be delivered: the frame
    /// stops, as nobody knows of it.
    pub fn undelivered(&mut self, client: u64, number: u64, handle: u64) -> (r: Cmd)
        requires
            old(self).wf(),
            old(self).map().dom().contains((client, number)),
            old(self).map()[(client, number)] == handle,
        ensures
            final(self).wf(),
            final(self).next() == old(self).next(),
            stops(r, handle),
            final(self).map() == old(self).map().remove((client, number)),
    {
        let _ = self.take((client, number));
        stop_internal_periodic(handle)
    }
}

/// The handles of scripts are never those of others, and two periodic frames never share one.
pub proof fn law_script_handles_are_distinct(a: u64, b: u64)
    requires
        a < b < 0x8000_0000_0000_0000,
    ensures
        script_handle(a) != script_handle(b),
        script_handle(a) >= 0x8000_0000_0000_0000,
{
    assert(a < b && b < 0x8000_0000_0000_0000 ==> a | (1u64 << 63) != b | (1u64 << 63) && a | (1u64
        << 63) >= 0x8000_0000_0000_0000) by (bit_vector);
}

/// Whether a handle stands in a list for some number of a client.
spec fn is_listed(entries: Seq<((u64, u64), u64)>, client: u64, handle: u64) -> bool {
    exists|i: int|
        0 <= i < entries.len() && (#[trigger] entries[i]).0.0 == client && entries[i].1 == handle
}

proof fn lemma_owned(entries: Seq<((u64, u64), u64)>, client: u64)
    ensures
        forall|i: int|
            0 <= i < entries.len() && (#[trigger] entries[i]).0.0 == client ==> owned(
                entries,
                client,
            ).contains(entries[i].1),
        forall|j: int|
            0 <= j < owned(entries, client).len() ==> is_listed(
                entries,
                client,
                #[trigger] owned(entries, client)[j],
            ),
    decreases entries.len(),
{
    if entries.len() > 0 {
        let rest = entries.drop_last();
        let n = entries.len() - 1;
        lemma_owned(rest, client);
        let before = owned(rest, client);
        let all = owned(entries, client);
        assert forall|i: int| 0 <= i < entries.len() && (#[trigger] entries[i]).0.0 == client implies
            all.contains(entries[i].1) by {
            if i < n {
                assert(rest[i] == entries[i]);
                let j = choose|j: int| 0 <= j < before.len() && before[j] == entries[i].1;
                assert(all[j] == entries[i].1);
            } else {
                assert(all[all.len() - 1] == entries[i].1);
            }
        }
        assert forall|j: int| 0 <= j < all.len() implies is_listed(
            entries,
            client,
            #[trigger] all[j],
        ) by {
            if j < before.len() {
                assert(before[j] == all[j]);
                let i = choose|i: int|
                    0 <= i < rest.len() && (#[trigger] rest[i]).0.0 == client && rest[i].1
                        == before[j];
                assert(entries[i] == rest[i]);
            } else {
                assert(entries[n].0.0 == client && entries[n].1 == all[j]);
            }
        }
    }
}

/// Whether a handle is held for some number of a client.
pub open spec fn is_held_for(h: IpcHandles, client: u64, handle: u64) -> bool {
    exists|number: u64| #[trigger]
        h.map().contains_key((client, number)) && h.map()[(client, number)] == handle
}

/// The handles of a client are those that are held for a number of its own, and no others.
pub proof fn law_clients_own_their_handles(h: IpcHandles, client: u64)
    requires
        h.wf(),
    ensures
        forall|number: u64| #[trigger]
            h.map().contains_key((client, number)) ==> owned(h.list(), client).contains(
                h.map()[(client, number)],
            ),
        forall|j: int|
            0 <= j < owned(h.list(), client).len() ==> is_held_for(
                h,
                client,
                #[trigger] owned(h.list(), client)[j],
            ),
{
    let entries = h.entries@;
    lemma_handle_map(entries);
    lemma_owned(entries, client);
    assert forall|number: u64| #[trigger] h.map().contains_key((client, number)) implies owned(
        h.list(),
        client,
    ).contains(h.map()[(client, number)]) by {
        assert(handle_map(entries).dom().contains((client, number)));
        let i = choose|i: int| 0 <= i < entries.len() && (#[trigger] entries[i]).0 == (client, number);
    }
    assert forall|j: int| 0 <= j < owned(h.list(), client).len() implies is_held_for(
        h,
        client,
        #[trigger] owned(h.list(), client)[j],
    ) by {
        let i = choose|i: int|
            0 <= i < entries.len() && (#[trigger] entries[i]).0.0 == client && entries[i].1 == owned(
                entries,
                client,
            )[j];
        let number = entries[i].0.1;
        assert(entries[i].0 == (client, number));
        assert(h.map().contains_key((client, number)));
    }
}

// ---------------------------------------------------------------- connecting and the console

/// The numbers that the configured channels will have.
pub open spec fn expected_channels(channels: Seq<DeviceConfig>) -> Seq<u8> {
    channels.map_values(|c: DeviceConfig| if c.sw_channel < 1 { 1u8 } else { c.sw_channel })
}

/// The answer to a client that wants the configured channels connected.
pub fn connect_configured(channels: &[DeviceConfig], licensed: bool) -> (r: IpcReply)
    ensures
        if licensed {
            r matches IpcReply::Connecting { channels: n, expected } && n == channels@.len()
                && expected@ == expected_channels(channels@)
        } else {
            unlicensed(r)
        },
{
    if !licensed {
        return license_denied();
    }
    let ghost all = expected_channels(channels@);
    let mut expected: Vec<u8> = Vec::new();
    let mut i: usize = 0;
    while i < channels.len()
        invariant
            i <= channels@.len(),
            all == expected_channels(channels@),
            expected@ =~= all.take(i as int),
        decreases channels@.len() - i,
    {
        let ch: u8 = channels[i].sw_channel;
        expected.push(
            if ch < 1 {
                1
            } else {
                ch
            },
        );
        i += 1;
    }
    assert(all.take(i as int) =~= all);
    IpcReply::Connecting { channels: channels.len(), expected }
}

/// A client wants the capture started.
pub fn start_capture(licensed: bool) -> (r: IpcStep)
    ensures
        if licensed {
            r == IpcStep::Submit(Cmd::Start)
        } else {
            r matches IpcStep::Reply(reply) && unlicensed(reply)
        },
{
    if licensed {
        IpcStep::Submit(Cmd::Start)
    } else {
        IpcStep::Reply(license_denied())
    }
}

fn among(paths: &[String], path: &str) -> (r: bool)
    ensures
        r == text::texts(paths@).contains(path@),
{
    let mut i: usize = 0;
    while i < paths.len()
        invariant
            i <= paths@.len(),
            forall|j: int| 0 <= j < i ==> (#[trigger] text::texts(paths@)[j]) != path@,
        decreases paths@.len() - i,
    {
        if text::same_text(paths[i].as_str(), path) {
            assert(text::texts(paths@)[i as int] == path@);
            return true;
        }
        i += 1;
    }
    false
}

/// Whether an answer tells of a database: one that was loaded before comes with a note.
pub open spec fn tells_database(r: IpcReply, now: bool, called: Seq<char>) -> bool {
    r matches IpcReply::Database { loaded, name, note } && loaded == now && name@ == called
        && match note {
        Some(n) => !now && n@ == "已加载"@,
        None => now,
    }
}

/// A client brings a database: the name under which it was read, or why it could not be read. One
/// that is loaded already is left as it is; one that is new joins the paths, and the line says so.
pub fn load_database(paths: &mut Vec<String>, path: String, read: Result<String, String>) -> (r: (
    IpcReply,
    Option<String>,
))
    ensures
        ({
            let known = text::texts(old(paths)@).contains(path@);
            &&& final(paths)@ == if !known && read is Ok {
                old(paths)@.push(path)
            } else {
                old(paths)@
            }
            &&& if known {
                r.1 is None && tells_database(r.0, false, path@)
            } else {
                match read {
                    Ok(called) => {
                        &&& tells_database(r.0, true, called@)
                        &&& r.1 matches Some(line) && line@ == "脚本加载 DBC: "@ + called@
                    },
                    Err(e) => r.1 is None && refuses(r.0, "LOAD_FAIL"@, e@),
                }
            }
        }),
{
    if among(paths.as_slice(), path.as_str()) {
        return (IpcReply::Database { loaded: false, name: path, note: Some("已加载") }, None);
    }
    match read {
        Ok(called) => {
            paths.push(path);
            let mut line = "脚本加载 DBC: ".to_owned();
            line.push_str(called.as_str());
            (IpcReply::Database { loaded: true, name: called, note: None }, Some(line))
        },
        Err(e) => (IpcReply::Refused { code: "LOAD_FAIL", msg: e }, None),
    }
}

/// The answer to a client that wants given channels connected, if it is refused.
pub fn connect_refusal(channels: &[DeviceConfig], licensed: bool) -> (r: Option<IpcReply>)
    ensures
        match r {
            None => licensed && channels@.len() > 0,
            Some(reply) => if !licensed {
                unlicensed(reply)
            } else {
                channels@.len() == 0 && refuses(
                    reply,
                    "BAD_ARG"@,
                    "channels 不能为空(至少给一个通道配置)"@,
                )
            },
        },
{
    if !licensed {
        Some(license_denied())
    } else if channels.len() == 0 {
        Some(refused("BAD_ARG", "channels 不能为空(至少给一个通道配置)"))
    } else {
        None
    }
}

/// The status after a script told how it ended.
pub fn run_status(passed: bool, summary: &str) -> (r: String)
    ensures
        r@ == (if passed {
            "PASS"@
        } else {
            "FAIL"@
        }) + " "@ + summary@,
{
    let mut out = (if passed {
        "PASS"
    } else {
        "FAIL"
    }).to_owned();
    out.push_str(" ");
    out.push_str(summary);
    out
}

/// The settings of the console.
#[derive(Clone, Copy, Debug, PartialEq, Eq, Structural)]
pub struct ConsoleState {
    pub enabled: bool,
    pub id: Option<u32>,
    pub ch: u8,
}

impl ConsoleState {
    /// Takes over what a script sets; a negative identifier stands for none.
    pub fn set(&mut self, enabled: Option<bool>, id: Option<i64>, ch: Option<u8>)
        ensures
            final(self).enabled == (match enabled {
                Some(e) => e,
                None => old(self).enabled,
            }),
            final(self).id == (match id {
                Some(v) => if v < 0 {
                    None::<u32>
                } else {
                    Some((v as int % 0x1_0000_0000) as u32)
                },
                None => old(self).id,
            }),
            final(self).ch == (match ch {
                Some(c) => c,
                None => old(self).ch,
            }),
    {
        if let Some(e) = enabled {
            self.enabled = e;
        }
        if let Some(v) = id {
            self.id = crate::workbench::project::console_target(v);
        }
        if let Some(c) = ch {
            self.ch = c;
        }
    }
}

// ---------------------------------------------------------------- snapshots and subscribers

/// Whether a subscriber wants a frame: it asked for its identifier, or for all.
pub open spec fn wants(ids: Seq<u32>, id: u32) -> bool {
    ids.len() == 0 || ids.contains(id)
}

/// Whether a subscriber wants a frame.
pub fn is_wanted(ids: &[u32], id: u32) -> (r: bool)
    ensures
        r == wants(ids@, id),
{
    if ids.len() == 0 {
        return true;
    }
    let mut i: usize = 0;
    while i < ids.len()
        invariant
            i <= ids@.len(),
            ids@.len() > 0,
            forall|j: int| 0 <= j < i ==> ids@[j] != id,
        decreases ids@.len() - i,
    {
        if ids[i] == id {
            assert(ids@[i as int] == id);
            return true;
        }
        i += 1;
    }
    false
}

/// The subscribers that a frame goes to.
pub fn ipc_fanout(subscribers: &[Vec<u32>], id: u32) -> (r: Vec<usize>)
    ensures
        forall|k: usize| #[trigger]
            r@.contains(k) <==> k < subscribers@.len() && wants(subscribers@[k as int]@, id),
        forall|i: int, j: int| 0 <= i < j < r@.len() ==> r@[i] < r@[j],
{
    let mut out: Vec<usize> = Vec::new();
    let mut i: usize = 0;
    while i < subscribers.len()
        invariant
            i <= subscribers@.len(),
            forall|k: usize| #[trigger]
                out@.contains(k) <==> k < i && wants(subscribers@[k as int]@, id),
            forall|a: int, b: int| 0 <= a < b < out@.len() ==> out@[a] < out@[b],
            forall|a: int| 0 <= a < out@.len() ==> (#[trigger] out@[a]) < i,
        decreases subscribers@.len() - i,
    {
        let ghost before = out@;
        if is_wanted(subscribers[i].as_slice(), id) {
            out.push(i);
        }
        proof {
            let after = out@;
            assert forall|k: usize| #[trigger] after.contains(k) <==> k < i + 1 && wants(
                subscribers@[k as int]@,
                id,
            ) by {
                if before.contains(k) {
                    let x = choose|x: int| 0 <= x < before.len() && before[x] == k;
                    assert(after[x] == k);
                }
                if k == i && wants(subscribers@[k as int]@, id) {
                    assert(after[after.len() - 1] == k);
                }
                if after.contains(k) && k != i {
                    let x = choose|x: int| 0 <= x < after.len() && after[x] == k;
                    assert(before[x] == k);
                    assert(before.contains(k));
                }
                if after.contains(k) && k == i {
                    if !wants(subscribers@[i as int]@, id) {
                        assert(before.contains(k));
                    }
                }
            }
        }
        i += 1;
    }
    out
}

/// The last lines of a log, at most as many as given.
pub fn recent_logs(logs: &[String], limit: usize) -> (r: Vec<String>)
    ensures
        text::texts(r@) == newest(text::texts(logs@), limit as int),
{
    let n: usize = logs.len();
    let start: usize = if n > limit {
        n - limit
    } else {
        0
    };
    let ghost all = text::texts(logs@);
    let mut out: Vec<String> = Vec::new();
    let mut i: usize = start;
    assert(text::texts(out@) =~= all.subrange(start as int, start as int));
    while i < n
        invariant
            start <= i <= n == logs@.len(),
            all == text::texts(logs@),
            text::texts(out@) == all.subrange(start as int, i as int),
        decreases n - i,
    {
        let ghost before = out@;
        out.push(logs[i].clone());
        assert(text::texts(out@) =~= text::texts(before).push(all[i as int]));
        assert(all.subrange(start as int, i + 1) =~= all.subrange(start as int, i as int).push(
            all[i as int],
        ));
        i += 1;
    }
    assert(all.subrange(start as int, n as int) =~= newest(
        all,
        limit as int,
    ));
    out
}

} // verus!

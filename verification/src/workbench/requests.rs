//! The requests of scripts: from a request and the state of the workbench to what is to be done.
use crate::can::{configs_view, Cmd, DeviceConfig};
use crate::text;
use crate::workbench::channels::copy_configs;
use crate::workbench::ipc::{
    batch_step, connect_configured, connect_refusal, expected_channels, frame_fault, load_database,
    once_step, owned, periodic_refused, refuses, run_status, script_handle, send_batch, send_once,
    start_capture, starts, stops, stops_all, tells_database, unlicensed, ConsoleState, IpcFrame,
    IpcHandles, IpcReply, IpcStep,
};
use vstd::prelude::*;

verus! {

/// A request of a script.
#[derive(Debug)]
pub enum IpcReq {
    /// A request that could not be read.
    Invalid { code: String, msg: String },
    SendOnce(IpcFrame),
    SendBatch { frames: Vec<IpcFrame>, repeat: u32 },
    /// A periodic frame under a number of the client.
    SetPeriodic { number: u64, frame: IpcFrame, period_ms: u64, repeat: i64 },
    StopPeriodic { number: u64 },
    Connect { channels: Vec<DeviceConfig> },
    ConnectConfigured,
    /// A database: the name under which it was read, or why it could not be read.
    LoadDbc { path: String, read: Result<String, String> },
    Disconnect,
    Start,
    Stop,
    Log { msg: String },
    RunResult { passed: bool, summary: String },
    ConsoleSet { enabled: Option<bool>, id: Option<i64>, ch: Option<u8>, clear: bool },
    /// The client is gone.
    ClientGone,
}

/// What the licence allows.
#[derive(Clone, Copy, Debug, PartialEq, Eq, Structural)]
pub struct Licence {
    pub transmit: bool,
    pub connect: bool,
    pub capture: bool,
}

/// What scripts can change.
#[derive(Debug)]
pub struct IpcState {
    pub handles: IpcHandles,
    pub channels: Vec<DeviceConfig>,
    pub database_paths: Vec<String>,
    pub run_status: String,
    pub console: ConsoleState,
}

/// What is to be done for a request: commands to be handed over first, in order and whatever comes
/// of them, a line for the log, whether the console is to be emptied, and the step towards the
/// answer.
#[derive(Debug)]
pub struct IpcOutcome {
    pub commands: Vec<Cmd>,
    pub line: Option<String>,
    pub clear_console: bool,
    pub step: IpcStep,
}

/// Whether nothing but an answer follows, and the answer is that all is done.
pub open spec fn just_done(step: IpcStep) -> bool {
    step matches IpcStep::Reply(reply) && reply is Done
}

/// Whether a line is written.
pub open spec fn writes_line(line: Option<String>, words: Seq<char>) -> bool {
    line matches Some(l) && l@ == words
}

/// Whether a command connects some channels.
pub open spec fn connects(c: Cmd, channels: Seq<DeviceConfig>) -> bool {
    c matches Cmd::ConnectChannels(list) && configs_view(list@) == configs_view(channels)
}

impl IpcState {
    /// Nothing but the handles changes.
    pub open spec fn same_but_handles(&self, before: &IpcState) -> bool {
        &&& self.channels == before.channels
        &&& self.database_paths == before.database_paths
        &&& self.run_status == before.run_status
        &&& self.console == before.console
    }

    /// What a request changes and asks for.
    pub open spec fn obeys(
        &self,
        before: &IpcState,
        client: u64,
        req: IpcReq,
        licence: Licence,
        r: IpcOutcome,
    ) -> bool {
        let quiet = r.line is None && !r.clear_console;
        match req {
            IpcReq::Invalid { code, msg } => {
                &&& *self == *before
                &&& quiet && r.commands@.len() == 0
                &&& r.step == IpcStep::Reply(IpcReply::Invalid { code, msg })
            },
            IpcReq::SendOnce(f) => {
                &&& *self == *before
                &&& quiet && r.commands@.len() == 0
                &&& once_step(r.step, f, licence.transmit)
            },
            IpcReq::SendBatch { frames, repeat } => {
                &&& *self == *before
                &&& quiet && r.commands@.len() == 0
                &&& batch_step(r.step, frames@, repeat, licence.transmit)
            },
            IpcReq::SetPeriodic { number, frame, period_ms, repeat } => {
                let key = (client, number);
                let map = before.handles.map();
                &&& quiet
                &&& if !licence.transmit || frame_fault(frame) is Some {
                    &&& *self == *before
                    &&& r.commands@.len() == 0
                    &&& r.step matches IpcStep::Reply(reply) && periodic_refused(
                        reply,
                        frame,
                        licence.transmit,
                    )
                } else {
                    let given = script_handle(before.handles.next());
                    &&& self.same_but_handles(before)
                    &&& self.handles.next() == before.handles.next() + 1
                    &&& self.handles.map() == map.insert(key, given)
                    &&& if map.dom().contains(key) {
                        r.commands@.len() == 1 && stops(r.commands@[0], map[key])
                    } else {
                        r.commands@.len() == 0
                    }
                    &&& r.step matches IpcStep::Periodic { number: n, handle, start } && n == number
                        && handle == given && starts(start, given, frame, period_ms, repeat)
                }
            },
            IpcReq::StopPeriodic { number } => {
                let key = (client, number);
                let map = before.handles.map();
                &&& quiet && just_done(r.step)
                &&& self.same_but_handles(before)
                &&& self.handles.next() == before.handles.next()
                &&& self.handles.map() == map.remove(key)
                &&& if map.dom().contains(key) {
                    r.commands@.len() == 1 && stops(r.commands@[0], map[key])
                } else {
                    r.commands@.len() == 0
                }
            },
            IpcReq::Connect { channels } => {
                &&& quiet
                &&& if licence.connect && channels@.len() > 0 {
                    &&& self.handles == before.handles
                    &&& configs_view(self.channels@) == configs_view(channels@)
                    &&& self.database_paths == before.database_paths
                    &&& self.run_status == before.run_status
                    &&& self.console == before.console
                    &&& r.commands@.len() == 1 && connects(r.commands@[0], channels@)
                    &&& just_done(r.step)
                } else {
                    &&& *self == *before
                    &&& r.commands@.len() == 0
                    &&& r.step matches IpcStep::Reply(reply) && if !licence.connect {
                        unlicensed(reply)
                    } else {
                        refuses(reply, "BAD_ARG"@, "channels 不能为空(至少给一个通道配置)"@)
                    }
                }
            },
            IpcReq::ConnectConfigured => {
                &&& *self == *before
                &&& quiet
                &&& r.step matches IpcStep::Reply(reply) && if licence.connect {
                    &&& r.commands@.len() == 1 && connects(r.commands@[0], before.channels@)
                    &&& reply matches IpcReply::Connecting { channels: n, expected } && n
                        == before.channels@.len() && expected@ == expected_channels(before.channels@)
                } else {
                    r.commands@.len() == 0 && unlicensed(reply)
                }
            },
            IpcReq::LoadDbc { path, read } => {
                let known = text::texts(before.database_paths@).contains(path@);
                &&& self.handles == before.handles && self.channels == before.channels
                &&& self.run_status == before.run_status && self.console == before.console
                &&& self.database_paths@ == if !known && read is Ok {
                    before.database_paths@.push(path)
                } else {
                    before.database_paths@
                }
                &&& !r.clear_console && r.commands@.len() == 0
                &&& r.step matches IpcStep::Reply(reply) && if known {
                    r.line is None && tells_database(reply, false, path@)
                } else {
                    match read {
                        Ok(called) => tells_database(reply, true, called@) && writes_line(
                            r.line,
                            "脚本加载 DBC: "@ + called@,
                        ),
                        Err(e) => r.line is None && refuses(reply, "LOAD_FAIL"@, e@),
                    }
                }
            },
            IpcReq::Disconnect => {
                &&& *self == *before
                &&& quiet && just_done(r.step)
                &&& r.commands@ == seq![Cmd::Disconnect]
            },
            IpcReq::Start => {
                &&& *self == *before
                &&& quiet
                &&& if licence.capture {
                    r.commands@ == seq![Cmd::Start] && just_done(r.step)
                } else {
                    r.commands@.len() == 0 && (r.step matches IpcStep::Reply(reply) && unlicensed(
                        reply,
                    ))
                }
            },
            IpcReq::Stop => {
                &&& *self == *before
                &&& quiet && just_done(r.step)
                &&& r.commands@ == seq![Cmd::Stop]
            },
            IpcReq::Log { msg } => {
                &&& *self == *before
                &&& r.line == Some(msg) && !r.clear_console
                &&& r.commands@.len() == 0 && just_done(r.step)
            },
            IpcReq::RunResult { passed, summary } => {
                let words = (if passed {
                    "PASS"@
                } else {
                    "FAIL"@
                }) + " "@ + summary@;
                &&& self.handles == before.handles && self.channels == before.channels
                &&& self.database_paths == before.database_paths && self.console == before.console
                &&& self.run_status@ == words
                &&& writes_line(r.line, "[脚本] "@ + words) && !r.clear_console
                &&& r.commands@.len() == 0 && just_done(r.step)
            },
            IpcReq::ConsoleSet { enabled, id, ch, clear } => {
                &&& self.handles == before.handles && self.channels == before.channels
                &&& self.database_paths == before.database_paths
                &&& self.run_status == before.run_status
                &&& self.console.enabled == (match enabled {
                    Some(e) => e,
                    None => before.console.enabled,
                })
                &&& self.console.id == (match id {
                    Some(v) => if v < 0 {
                        None::<u32>
                    } else {
                        Some((v as int % 0x1_0000_0000) as u32)
                    },
                    None => before.console.id,
                })
                &&& self.console.ch == (match ch {
                    Some(c) => c,
                    None => before.console.ch,
                })
                &&& r.line is None && r.clear_console == clear
                &&& r.commands@.len() == 0 && just_done(r.step)
            },
            IpcReq::ClientGone => {
                &&& self.same_but_handles(before)
                &&& self.handles.next() == before.handles.next()
                &&& stops_all(r.commands@, owned(before.handles.list(), client))
                &&& forall|k: (u64, u64)| #[trigger]
                    self.handles.map().dom().contains(k) <==> before.handles.map().dom().contains(k)
                        && k.0 != client
                &&& forall|k: (u64, u64)| #[trigger]
                    self.handles.map().dom().contains(k) ==> self.handles.map()[k]
                        == before.handles.map()[k]
                &&& quiet && just_done(r.step)
            },
        }
    }

    /// Takes a request of a client.
    pub fn handle_ipc(&mut self, client: u64, req: IpcReq, licence: Licence) -> (r: IpcOutcome)
        requires
            old(self).handles.wf(),
            req is SetPeriodic ==> old(self).handles.next() < u64::MAX,
        ensures
            final(self).handles.wf(),
            final(self).obeys(old(self), client, req, licence, r),
    {
        let mut commands: Vec<Cmd> = Vec::new();
        let mut line: Option<String> = None;
        let mut clear_console: bool = false;
        let step = match req {
            IpcReq::Invalid { code, msg } => IpcStep::Reply(IpcReply::Invalid { code, msg }),
            IpcReq::SendOnce(f) => send_once(&f, licence.transmit),
            IpcReq::SendBatch { frames, repeat } => send_batch(
                frames.as_slice(),
                repeat,
                licence.transmit,
            ),
            IpcReq::SetPeriodic { number, frame, period_ms, repeat } => match self.handles.set_periodic(
                client,
                number,
                &frame,
                period_ms,
                repeat,
                licence.transmit,
            ) {
                Err(reply) => IpcStep::Reply(reply),
                Ok(p) => {
                    if let Some(stop) = p.stop {
                        commands.push(stop);
                    }
                    IpcStep::Periodic { number, handle: p.handle, start: p.start }
                },
            },
            IpcReq::StopPeriodic { number } => {
                if let Some(stop) = self.handles.stop_periodic(client, number) {
                    commands.push(stop);
                }
                IpcStep::Reply(IpcReply::Done)
            },
            IpcReq::Connect { channels } => match connect_refusal(
                channels.as_slice(),
                licence.connect,
            ) {
                Some(reply) => IpcStep::Reply(reply),
                None => {
                    self.channels = copy_configs(channels.as_slice());
                    commands.push(Cmd::ConnectChannels(channels));
                    IpcStep::Reply(IpcReply::Done)
                },
            },
            IpcReq::ConnectConfigured => {
                if licence.connect {
                    commands.push(Cmd::ConnectChannels(copy_configs(self.channels.as_slice())));
                }
                IpcStep::Reply(connect_configured(self.channels.as_slice(), licence.connect))
            },
            IpcReq::LoadDbc { path, read } => {
                let told = load_database(&mut self.database_paths, path, read);
                line = told.1;
                IpcStep::Reply(told.0)
            },
            IpcReq::Disconnect => {
                commands.push(Cmd::Disconnect);
                assert(commands@ =~= seq![Cmd::Disconnect]);
                IpcStep::Reply(IpcReply::Done)
            },
            IpcReq::Start => match start_capture(licence.capture) {
                IpcStep::Submit(command) => {
                    commands.push(command);
                    assert(commands@ =~= seq![Cmd::Start]);
                    IpcStep::Reply(IpcReply::Done)
                },
                other => other,
            },
            IpcReq::Stop => {
                commands.push(Cmd::Stop);
                assert(commands@ =~= seq![Cmd::Stop]);
                IpcStep::Reply(IpcReply::Done)
            },
            IpcReq::Log { msg } => {
                line = Some(msg);
                IpcStep::Reply(IpcReply::Done)
            },
            IpcReq::RunResult { passed, summary } => {
                self.run_status = run_status(passed, summary.as_str());
                let mut words = "[脚本] ".to_owned();
                words.push_str(self.run_status.as_str());
                line = Some(words);
                IpcStep::Reply(IpcReply::Done)
            },
            IpcReq::ConsoleSet { enabled, id, ch, clear } => {
                self.console.set(enabled, id, ch);
                clear_console = clear;
                IpcStep::Reply(IpcReply::Done)
            },
            IpcReq::ClientGone => {
                commands = self.handles.client_gone(client);
                IpcStep::Reply(IpcReply::Done)
            },
        };
        IpcOutcome { commands, line, clear_console, step }
    }
}

/// Requests that are refused ask for no command and change nothing.
pub proof fn law_refused_requests_do_nothing(
    before: IpcState,
    after: IpcState,
    client: u64,
    req: IpcReq,
    licence: Licence,
    r: IpcOutcome,
)
    requires
        after.obeys(&before, client, req, licence, r),
        r.step matches IpcStep::Reply(reply) && (reply is Refused || reply is Invalid),
    ensures
        r.commands@.len() == 0,
        after.handles == before.handles,
        after.channels == before.channels,
        after.database_paths@ == before.database_paths@,
        after.run_status == before.run_status,
        after.console == before.console,
{
}

} // verus!

//! Tests of the requests of scripts, the send tasks and the outcome of a run.
use pcanwork::can::{CanFrame, Cmd, DeviceConfig, Evt};
use pcanwork::workbench::ipc::{ConsoleState, IpcFrame, IpcHandles, IpcReply, IpcStep};
use pcanwork::workbench::requests::{IpcOutcome, IpcReq, IpcState, Licence};
use pcanwork::workbench::scripts::{result_code, ScriptRun};
use pcanwork::workbench::tx_tasks::{TxList, TxTask};

const ALL: Licence = Licence { transmit: true, connect: true, capture: true };
const NOTHING: Licence = Licence { transmit: false, connect: false, capture: false };

fn state() -> IpcState {
    IpcState {
        handles: IpcHandles::new(),
        channels: vec![],
        database_paths: vec![],
        run_status: String::new(),
        console: ConsoleState { enabled: false, id: Some(5), ch: 3 },
    }
}

fn frame(id: u32) -> IpcFrame {
    IpcFrame { ch: 1, id, data: vec![1, 2], ext: false, fd: false, brs: false, remote: false }
}

fn device(sw_channel: u8) -> DeviceConfig {
    DeviceConfig {
        sw_channel,
        is_fd: false,
        device_type: "PCAN".to_string(),
        hardware_label: String::new(),
        hardware_id: String::new(),
        device_index: 0,
        channel_index: 0,
        baud: "500K".to_string(),
        data_baud: String::new(),
        custom_bitrate: String::new(),
        termination: false,
        listen_only: false,
        fd_non_iso: false,
        net_server: false,
        ip: String::new(),
        port: String::new(),
    }
}

/// Nothing but an answer comes of a request.
fn only_reply(outcome: IpcOutcome) -> IpcReply {
    assert!(outcome.commands.is_empty());
    assert_eq!(outcome.line, None);
    assert!(!outcome.clear_console);
    match outcome.step {
        IpcStep::Reply(reply) => reply,
        other => panic!("unexpected: {other:?}"),
    }
}

fn refused(outcome: IpcOutcome) -> (String, String) {
    match only_reply(outcome) {
        IpcReply::Refused { code, msg } => (code.to_string(), msg),
        other => panic!("unexpected: {other:?}"),
    }
}

fn set_periodic(id: u32) -> IpcReq {
    IpcReq::SetPeriodic { number: 7, frame: frame(id), period_ms: 0, repeat: 3 }
}

#[test]
fn unreadable_requests_are_answered_as_they_are() {
    let mut s = state();
    let req = IpcReq::Invalid { code: "BAD".to_string(), msg: "why".to_string() };
    match only_reply(s.handle_ipc(1, req, ALL)) {
        IpcReply::Invalid { code, msg } => assert_eq!((&*code, &*msg), ("BAD", "why")),
        other => panic!("unexpected: {other:?}"),
    }
}

#[test]
fn frames_of_scripts_are_submitted() {
    let mut s = state();
    let outcome = s.handle_ipc(1, IpcReq::SendOnce(frame(0x12)), ALL);
    assert!(outcome.commands.is_empty());
    match outcome.step {
        IpcStep::Submit(Cmd::SendOnce(f)) => {
            assert_eq!((f.id, f.ch, f.tx), (0x12, 1, true));
            assert_eq!(f.data, vec![1, 2]);
        }
        other => panic!("unexpected: {other:?}"),
    }
    let (code, _) = refused(s.handle_ipc(1, IpcReq::SendOnce(frame(0x800)), ALL));
    assert_eq!(code, "BAD_FRAME");
    let (code, _) = refused(s.handle_ipc(1, IpcReq::SendOnce(frame(1)), NOTHING));
    assert_eq!(code, "LICENSE_REQUIRED");
    let batch = IpcReq::SendBatch { frames: vec![frame(1), frame(2)], repeat: 4 };
    match s.handle_ipc(1, batch, ALL).step {
        IpcStep::Batch { frames, repeat } => {
            assert_eq!(frames.iter().map(|f: &CanFrame| f.id).collect::<Vec<_>>(), vec![1, 2]);
            assert_eq!(repeat, 4);
        }
        other => panic!("unexpected: {other:?}"),
    }
}

#[test]
fn periodic_frames_of_a_script_end_with_it() {
    let mut s = state();
    let outcome = s.handle_ipc(1, set_periodic(0x10), ALL);
    assert!(outcome.commands.is_empty());
    let first = match outcome.step {
        IpcStep::Periodic {
            number: 7,
            handle,
            start: Cmd::SetPeriodic { handle: started, frame, period_ms: 1, repeat: 3, enable: true },
        } => {
            assert_eq!(handle, started);
            assert_eq!(frame.id, 0x10);
            handle
        }
        other => panic!("unexpected: {other:?}"),
    };
    let outcome = s.handle_ipc(1, set_periodic(0x11), ALL);
    assert_eq!(outcome.commands.len(), 1);
    assert!(matches!(
        outcome.commands[0],
        Cmd::SetPeriodic { handle, enable: false, .. } if handle == first
    ));
    let second = match outcome.step {
        IpcStep::Periodic { handle, .. } => handle,
        other => panic!("unexpected: {other:?}"),
    };
    assert_ne!(first, second);
    let _ = s.handle_ipc(2, set_periodic(0x12), ALL);
    let gone = s.handle_ipc(1, IpcReq::ClientGone, ALL);
    assert_eq!(gone.commands.len(), 1);
    assert!(matches!(
        gone.commands[0],
        Cmd::SetPeriodic { handle, enable: false, .. } if handle == second
    ));
    assert!(matches!(gone.step, IpcStep::Reply(IpcReply::Done)));
    assert!(s.handle_ipc(1, IpcReq::StopPeriodic { number: 7 }, ALL).commands.is_empty());
    assert_eq!(s.handle_ipc(2, IpcReq::StopPeriodic { number: 7 }, ALL).commands.len(), 1);
    let (code, _) = refused(s.handle_ipc(1, set_periodic(0x10), NOTHING));
    assert_eq!(code, "LICENSE_REQUIRED");
}

#[test]
fn scripts_connect_the_channels_that_they_bring() {
    let mut s = state();
    let (code, msg) = refused(s.handle_ipc(1, IpcReq::Connect { channels: vec![] }, ALL));
    assert_eq!((&*code, &*msg), ("BAD_ARG", "channels 不能为空(至少给一个通道配置)"));
    let (code, _) = refused(s.handle_ipc(1, IpcReq::Connect { channels: vec![device(2)] }, NOTHING));
    assert_eq!(code, "LICENSE_REQUIRED");
    assert!(s.channels.is_empty());
    let outcome = s.handle_ipc(1, IpcReq::Connect { channels: vec![device(2)] }, ALL);
    assert!(matches!(outcome.step, IpcStep::Reply(IpcReply::Done)));
    match &outcome.commands[..] {
        [Cmd::ConnectChannels(list)] => assert_eq!(list[0].sw_channel, 2),
        other => panic!("unexpected: {other:?}"),
    }
    assert_eq!(s.channels.len(), 1);
    let outcome = s.handle_ipc(1, IpcReq::ConnectConfigured, ALL);
    assert!(matches!(&outcome.commands[..], [Cmd::ConnectChannels(list)] if list.len() == 1));
    match outcome.step {
        IpcStep::Reply(IpcReply::Connecting { channels, expected }) => {
            assert_eq!((channels, expected), (1, vec![2]));
        }
        other => panic!("unexpected: {other:?}"),
    }
    let (code, _) = refused(s.handle_ipc(1, IpcReq::ConnectConfigured, NOTHING));
    assert_eq!(code, "LICENSE_REQUIRED");
}

#[test]
fn scripts_start_and_stop_the_capture() {
    let mut s = state();
    let outcome = s.handle_ipc(1, IpcReq::Start, ALL);
    assert!(matches!(&outcome.commands[..], [Cmd::Start]));
    assert!(matches!(outcome.step, IpcStep::Reply(IpcReply::Done)));
    let (code, _) = refused(s.handle_ipc(1, IpcReq::Start, NOTHING));
    assert_eq!(code, "LICENSE_REQUIRED");
    assert!(matches!(&s.handle_ipc(1, IpcReq::Stop, NOTHING).commands[..], [Cmd::Stop]));
    let outcome = s.handle_ipc(1, IpcReq::Disconnect, NOTHING);
    assert!(matches!(&outcome.commands[..], [Cmd::Disconnect]));
}

#[test]
fn scripts_tell_and_load() {
    let mut s = state();
    let outcome = s.handle_ipc(1, IpcReq::Log { msg: "hello".to_string() }, NOTHING);
    assert_eq!(outcome.line.as_deref(), Some("hello"));
    let result = IpcReq::RunResult { passed: false, summary: "2/3".to_string() };
    let outcome = s.handle_ipc(1, result, NOTHING);
    assert_eq!(outcome.line.as_deref(), Some("[脚本] FAIL 2/3"));
    assert_eq!(s.run_status, "FAIL 2/3");
    let load = |read: Result<&str, &str>| IpcReq::LoadDbc {
        path: "a.dbc".to_string(),
        read: read.map(str::to_string).map_err(str::to_string),
    };
    let (code, msg) = refused(s.handle_ipc(1, load(Err("bad")), NOTHING));
    assert_eq!((&*code, &*msg), ("LOAD_FAIL", "bad"));
    let outcome = s.handle_ipc(1, load(Ok("A")), NOTHING);
    assert_eq!(outcome.line.as_deref(), Some("脚本加载 DBC: A"));
    assert!(matches!(
        outcome.step,
        IpcStep::Reply(IpcReply::Database { loaded: true, note: None, .. })
    ));
    let again = only_reply(s.handle_ipc(1, load(Ok("A")), NOTHING));
    assert!(matches!(again, IpcReply::Database { loaded: false, note: Some("已加载"), .. }));
    let set = IpcReq::ConsoleSet { enabled: Some(true), id: Some(-1), ch: None, clear: true };
    let outcome = s.handle_ipc(1, set, NOTHING);
    assert!(outcome.clear_console);
    assert_eq!((s.console.enabled, s.console.id, s.console.ch), (true, None, 3));
}

// ---------------------------------------------------------------- send tasks

fn task(data: u8) -> TxTask {
    TxTask { handle: 0, periodic: true, sent: 4, data: vec![data], signal_values: vec![] }
}

#[test]
fn replaced_send_tasks_get_fresh_handles() {
    let mut list = TxList { tasks: vec![], dirty: false };
    let mut numbers = IpcHandles::new();
    assert_eq!(numbers.give_out(9), 1);
    let read = list.list_read(Ok(vec![task(1), task(2)]), &mut numbers);
    assert!(read.stop.is_empty());
    assert_eq!(read.line, "已加载发送列表 2 条（默认停发）");
    assert_eq!(list.tasks.iter().map(|t| t.handle).collect::<Vec<_>>(), vec![10, 11]);
    assert!(list.tasks.iter().all(|t| !t.periodic));
    assert_eq!(list.tasks[1].data, vec![2]);
    let opened = list.project_opened("p.pcan", vec![task(3)], &mut numbers);
    assert_eq!(opened.stop, vec![10, 11]);
    assert_eq!(opened.line, "已打开工程: p.pcan（发送任务 1 条，默认停发）");
    assert_eq!((list.tasks[0].handle, numbers.next_number()), (12, 13));
    let failed = list.list_read(Err("gone".to_string()), &mut numbers);
    assert_eq!(failed.line, "加载发送列表失败: gone");
    assert!(failed.stop.is_empty());
    assert_eq!((list.tasks.len(), numbers.next_number()), (1, 13));
    assert_eq!(list.reload(vec![], &mut numbers), vec![12]);
}

#[test]
fn events_change_the_task_that_they_speak_of() {
    let mut list = TxList { tasks: vec![], dirty: false };
    let mut numbers = IpcHandles::new();
    let _ = list.reload(vec![task(1), task(2)], &mut numbers);
    list.tasks[1].periodic = true;
    assert!(list.event(Evt::PeriodicProgress { handle: 9, sent: 8 }).is_none());
    assert!(!list.dirty);
    assert!(list.event(Evt::PeriodicProgress { handle: 2, sent: 8 }).is_none());
    assert!(list.dirty);
    assert_eq!((list.tasks[0].sent, list.tasks[1].sent), (4, 8));
    assert!(list.event(Evt::PeriodicDone(2)).is_none());
    assert!(!list.tasks[1].periodic);
    let update = Evt::DynamicUpdate {
        handle: 1,
        data: vec![7, 8],
        signal_values: vec![("rpm".to_string(), 3.5f64.to_bits())],
        sent: 20,
    };
    assert!(list.event(update).is_none());
    assert_eq!(list.tasks[0].data, vec![7, 8]);
    assert_eq!(list.tasks[0].signal_values[0].1, 3.5f64.to_bits());
    assert_eq!((list.tasks[0].sent, list.tasks[1].sent), (20, 8));
    assert!(matches!(list.event(Evt::Running(true)), Some(Evt::Running(true))));
}

// ---------------------------------------------------------------- runs

#[test]
fn a_log_that_cannot_be_saved_fails_the_run() {
    let mut run = ScriptRun {
        running: true,
        started: None,
        timeout_secs: 1,
        stop_asked: false,
        status: "PASS 3/3".to_string(),
        dirty: true,
        lost_seen: 0,
    };
    assert!(!run.log_due());
    run.running = false;
    assert!(run.log_due());
    assert_eq!(run.log_not_saved("x.log", "full"), "保存测试运行日志失败 x.log: full");
    assert_eq!(run.status, "FAIL: 运行日志保存失败");
    assert_eq!(result_code(&run.status), -1);
    run.status = "FAIL 1/3".to_string();
    let _ = run.log_not_saved("x.log", "full");
    assert_eq!(run.status, "FAIL 1/3");
}

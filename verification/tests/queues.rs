//! Tests of the queues between the user interface and the controller.
use pcanwork::can::adapters::{emit_playback_frame, process_pending_sends, send_on};
use pcanwork::can::queue::{next_command, spawn, CommandHealth, NextCommand, PlaybackFrameEmit};
use pcanwork::can::send_queue::PendingSendJob;
use pcanwork::can::{CanAdapter, CanFrame, Cmd, Evt, PollReport, TimestampHealth};
use pcanwork::ends::{Inbox, StdInbox};
use pcanwork::modbus::commands::{MasterHandle, MasterMsg};
use pcanwork::modbus::traffic::traffic_channel;
use pcanwork::workbench::batches::{poll, submit, Target};
use std::collections::VecDeque;
use std::sync::atomic::Ordering;
use std::sync::mpsc::sync_channel;

struct Recorder {
    taken: Vec<u32>,
    refuse: bool,
}

impl CanAdapter for Recorder {
    fn poll(&mut self, _out: &mut Vec<CanFrame>) -> PollReport {
        PollReport::default()
    }

    fn send(&mut self, f: &CanFrame) -> Result<(), String> {
        if self.refuse {
            return Err("busy".to_string());
        }
        self.taken.push(f.id);
        Ok(())
    }

    fn name(&self) -> String {
        "recorder".to_string()
    }
}

fn recorder(channel: u8, refuse: bool) -> (u8, Recorder) {
    (channel, Recorder { taken: vec![], refuse })
}

fn frame(ch: u8, id: u32) -> CanFrame {
    CanFrame {
        t: 0,
        ch,
        tx: false,
        id,
        ext: false,
        fd: false,
        brs: false,
        remote: false,
        error: false,
        data: vec![],
    }
}

#[test]
fn announced_shutdowns_come_first() {
    let queues = spawn();
    let mut commands = Inbox::new(queues.command_rx);
    queues.commands.send(Cmd::Start).unwrap();
    assert!(matches!(
        next_command(&mut commands, &queues.commands.health),
        NextCommand::Run(Cmd::Start)
    ));
    assert!(matches!(
        next_command(&mut commands, &queues.commands.health),
        NextCommand::Idle
    ));
    for _ in 0..512 {
        queues.commands.send(Cmd::Stop).unwrap();
    }
    assert!(queues.commands.send(Cmd::Shutdown).is_err());
    assert_eq!(queues.commands.health.rejected.load(Ordering::Relaxed), 1);
    assert!(matches!(
        next_command(&mut commands, &queues.commands.health),
        NextCommand::Shutdown
    ));
}

#[test]
fn clones_share_their_counters() {
    let queues = spawn();
    let further = queues.commands.clone();
    further.send(Cmd::Start).unwrap();
    further.send(Cmd::Stop).unwrap();
    assert_eq!(queues.commands.health.high_watermark.load(Ordering::Relaxed), 2);
    assert_eq!(queues.command_rx.len(), 2);
    let fresh = CommandHealth::default();
    assert_eq!(fresh.rejected.load(Ordering::Relaxed), 0);
    assert_eq!(fresh.high_watermark.load(Ordering::Relaxed), 0);
    assert!(!fresh.shutdown_requested.load(Ordering::Relaxed));
}

#[test]
fn health_reports_tell_the_counters() {
    let mut queues = spawn();
    queues.commands.send(Cmd::Start).unwrap();
    queues.events.send(Evt::Running(true)).unwrap();
    let timestamp = TimestampHealth {
        samples: 1,
        latest_jitter_nanos: 2,
        max_jitter_nanos: 3,
        drift_ppb: 4,
        monotonic_violations: 5,
    };
    queues.events.report_health(6, 7, &queues.commands.health, 1, timestamp);
    assert_eq!(queues.events.high_watermark, 2);
    let _ = queues.event_rx.try_recv();
    match queues.event_rx.try_recv() {
        Ok(Evt::CaptureHealth {
            hardware_overruns,
            queue_depth,
            command_rejected,
            command_queue_high_watermark,
            ..
        }) => {
            assert_eq!((hardware_overruns, queue_depth), (6, 1));
            assert_eq!((command_rejected, command_queue_high_watermark), (0, 1));
        }
        other => panic!("unexpected: {other:?}"),
    }
}

#[test]
fn output_is_drained_in_portions() {
    let (tx, rx) = sync_channel(2000);
    for i in 0..1500 {
        tx.send(i.to_string()).unwrap();
    }
    let mut lines = StdInbox::new(rx);
    let first = lines.drain_lines(|| false);
    assert_eq!(first.len(), 1024);
    assert_eq!(first[1023], "1023");
    assert_eq!(lines.drain_lines(|| true), vec!["1024".to_string()]);
    assert_eq!(lines.drain_lines(|| false).len(), 475);
    assert!(lines.drain_lines(|| false).is_empty());
}

#[test]
fn one_adapter_is_handed_the_frame() {
    let mut adapters = vec![recorder(1, false), recorder(2, false), recorder(2, false)];
    assert_eq!(send_on(&mut adapters, &frame(2, 7)), Ok(2));
    let taken: Vec<usize> = adapters.iter().map(|a| a.1.taken.len()).collect();
    assert_eq!(taken, vec![0, 1, 0]);
    assert_eq!(send_on(&mut adapters, &frame(3, 7)), Err("CAN 通道 3 未连接".to_string()));
}

#[test]
fn replayed_frames_reach_bus_and_window() {
    let mut queues = spawn();
    let mut adapters = vec![recorder(1, false)];
    let fate = emit_playback_frame(&mut adapters, &mut queues.events, frame(1, 5), true);
    assert_eq!(fate, PlaybackFrameEmit::Emitted);
    assert_eq!(adapters[0].1.taken, vec![5]);
    match queues.event_rx.try_recv() {
        Ok(Evt::PlaybackFrame(f)) => assert_eq!((f.id, f.tx), (5, true)),
        other => panic!("unexpected: {other:?}"),
    }
    adapters[0].1.refuse = true;
    let fate = emit_playback_frame(&mut adapters, &mut queues.events, frame(1, 5), true);
    assert_eq!(fate, PlaybackFrameEmit::Failed);
    match queues.event_rx.try_recv() {
        Ok(Evt::Log(text)) => assert_eq!(text, "在线回放发送失败: busy"),
        other => panic!("unexpected: {other:?}"),
    }
}

#[test]
fn slices_send_in_order_and_show_one_batch() {
    let mut queues = spawn();
    let mut adapters = vec![recorder(1, false)];
    let mut jobs = VecDeque::new();
    jobs.push_back(PendingSendJob::batch(vec![frame(1, 1), frame(1, 2)], 1).unwrap());
    jobs.push_back(PendingSendJob::batch(vec![frame(9, 3), frame(1, 4)], 1).unwrap());
    jobs.push_back(PendingSendJob::batch(vec![frame(1, 5)], 1).unwrap());
    let r = process_pending_sends(&mut jobs, &mut adapters, &mut queues.events, || (false, 8));
    assert_eq!(r, (2, true));
    assert_eq!(adapters[0].1.taken, vec![1, 2]);
    assert_eq!(jobs.len(), 1);
    match queues.event_rx.try_recv() {
        Ok(Evt::Log(text)) => assert_eq!(text, "发送任务已停止: CAN 通道 9 未连接"),
        other => panic!("unexpected: {other:?}"),
    }
    match queues.event_rx.try_recv() {
        Ok(Evt::Frames(list)) => {
            let shown: Vec<(u32, i64, bool)> = list.iter().map(|f| (f.id, f.t, f.tx)).collect();
            assert_eq!(shown, vec![(1, 8, true), (2, 8, true)]);
        }
        other => panic!("unexpected: {other:?}"),
    }
    let r = process_pending_sends(&mut jobs, &mut adapters, &mut queues.events, || (true, 9));
    assert_eq!(r, (0, false));
}

#[test]
fn batches_are_settled_in_their_order() {
    let queues = spawn();
    let mut pending = Vec::new();
    let mut ends = Vec::new();
    for ack in 0..3 {
        let (tx, rx) = sync_channel(1);
        submit(&mut pending, &queues.commands, vec![], 1, ack, rx, Target::Ipc(ack), 0).unwrap();
        ends.push(tx);
    }
    assert!(matches!(
        queues.command_rx.try_recv(),
        Ok(Cmd::SendBatch { repeat: 1, ack: Some(0), .. })
    ));
    ends[2].send(Ok(4)).unwrap();
    ends[0].send(Err("no".to_string())).unwrap();
    let answers = poll(&mut pending, 1);
    assert_eq!(answers.len(), 2);
    assert!(matches!(&answers[0], (Target::Ipc(0), Err(e)) if e.code == "QUEUE_REJECTED"));
    assert!(matches!(&answers[1], (Target::Ipc(2), Ok(4))));
    assert_eq!(pending.len(), 1);
    let late = poll(&mut pending, 500_000_000);
    assert!(matches!(&late[0], (Target::Ipc(1), Err(e)) if e.code == "TIMEOUT"));
}

#[test]
fn what_is_handed_over_arrives() {
    let (handle, mut messages) = MasterHandle::new();
    assert_eq!(handle.send(MasterMsg::SetChartPage(3)), None);
    assert!(matches!(messages.try_recv(), Ok(MasterMsg::SetChartPage(3))));
    for _ in 0..256 {
        assert_eq!(handle.send(MasterMsg::Stop), None);
    }
    assert_eq!(
        handle.send(MasterMsg::Stop).as_deref(),
        Some("Master control queue full: command rejected")
    );
    let (mut traffic, mut chunks) = traffic_channel();
    assert!(traffic.send((true, vec![1, 2])).is_ok());
    assert_eq!(traffic.health.high_watermark, 1);
    assert_eq!(chunks.try_recv().unwrap(), (true, vec![1, 2]));
}

//! Tests of the drivers, the schedules and the controller.
use pcanwork::can::adapters::{open_adapter, AdapterKind, OpenedChannel};
use pcanwork::can::bitrate::baud_to_bps;
use pcanwork::can::controller::{capture_batches, Controller, Effect};
use pcanwork::can::ip_text::valid_ip;
use pcanwork::can::ota::{ota_ack_matches, scan_for_ack, OtaAfterAck, OtaCancel, OtaNext, OtaRun};
use pcanwork::can::pcan::{
    fd_dlc_to_len, fd_len_to_dlc, pcan_attached_channels, pcan_channel_index, pcan_channel_name,
    pcan_device_name, pcan_fd_bitrate, pcan_message, pcan_usb_channel, pcan_write_result,
    poll_classic, PcanBus, PcanInitStep, PcanMessage, PcanOpening, PcanRead,
};
use pcanwork::can::pcan_ffi::{TPCANChannelInformation, TPCANMsg, TPCANTimestamp};
use pcanwork::can::playback::{Playback, SliceEnd};
use pcanwork::can::queue::{PlaybackEventSend, PlaybackFrameEmit};
use pcanwork::can::schedule::{
    count_sent, dynamic_rand_bits, dynamic_seed, simulation_not_sent, sorted_once, take_due,
    timer_due_time, Periodic, SimPeriodic,
};
use pcanwork::can::send_queue::PendingSendJob;
use pcanwork::can::supervision::should_log_send_error;
use pcanwork::can::timebase::HardwareTimebase;
use pcanwork::can::vci::{call_outcome, entry_symbol, vci_device_key, DriverCall, VciBus, VciStep};
use pcanwork::can::vci_setup::{SetupCall, SetupNext};
use pcanwork::can::zcan::{adapter_key, validate_channel_set, zcan_profile, zlg_kernel_library};
use pcanwork::can::zcan_bus::{merge_poll_report, ZcanFdBus, ZcanMessage, ZcanStep};
use pcanwork::can::zcan_scan::{
    instance_id_matches, instance_text_matches, next_scan_index, zcan_info_text, VciProbe,
};
use pcanwork::can::{
    normalize_baud, zlg_timing, CanFrame, Cmd, DeviceConfig, Evt, OtaAck, OtaJob, OtaResponseId,
    OtaStep, PollReport, SimPeriodicConfig,
};
use pcanwork::ratio::Ratio;
use pcanwork::table::Table;

fn device(device_type: &str, channel: u8) -> DeviceConfig {
    DeviceConfig {
        sw_channel: channel,
        is_fd: false,
        device_type: device_type.to_string(),
        hardware_label: String::new(),
        hardware_id: String::new(),
        device_index: 0,
        channel_index: (channel - 1) as u32,
        baud: "500K".to_string(),
        data_baud: "2M".to_string(),
        custom_bitrate: String::new(),
        termination: false,
        listen_only: false,
        fd_non_iso: false,
        net_server: false,
        ip: "192.168.0.10".to_string(),
        port: "8000".to_string(),
    }
}

fn frame(t: i64) -> CanFrame {
    CanFrame {
        t,
        ch: 1,
        tx: false,
        id: 0x123,
        ext: false,
        fd: false,
        brs: false,
        remote: false,
        error: false,
        data: vec![1, 2, 3],
    }
}

// ---------------------------------------------------------------- texts

#[test]
fn bit_rates_are_read() {
    assert_eq!(baud_to_bps("500K"), 500_000);
    assert_eq!(baud_to_bps(" 1 m "), 1_000_000);
    assert_eq!(baud_to_bps("83.5kbps"), 83_500);
    assert_eq!(baud_to_bps("250000"), 250_000);
    assert_eq!(baud_to_bps("fast"), 0);
    assert_eq!(normalize_baud("1M"), "1000K");
    assert_eq!(zlg_timing("500k"), Some((0x00, 0x1C)));
    assert_eq!(zlg_timing("3K"), None);
}

#[test]
fn addresses_are_checked() {
    let ip = |s: &str| valid_ip(&s.chars().collect::<Vec<char>>());
    assert!(ip("192.168.0.10"));
    assert!(!ip("192.168.0.256"));
    assert!(!ip("192.168.0"));
    assert!(ip("fe80::1"));
    assert!(ip("::ffff:1.2.3.4"));
    assert!(!ip("1::2::3"));
}

#[test]
fn frames_are_written_as_hexadecimal() {
    assert_eq!(frame(0).data_hex(), "01 02 03");
}

// ---------------------------------------------------------------- PCAN

#[test]
fn channels_of_the_driver_are_numbered() {
    assert_eq!(pcan_channel_index(0x51), Some(0));
    assert_eq!(pcan_channel_index(0x509), Some(8));
    assert_eq!(pcan_channel_index(0x41), None);
    assert_eq!(pcan_usb_channel(8), Some(0x509));
    assert_eq!(pcan_channel_name(2), "PCAN_USBBUS3");
}

#[test]
fn names_of_devices_are_read_without_fail() {
    let mut raw = [0i8; 33];
    raw[0] = b' ' as i8;
    raw[1] = -1;
    raw[2] = b'A' as i8;
    raw[3] = b' ' as i8;
    assert_eq!(pcan_device_name(&raw), "\u{FFFD}A");
    let info = TPCANChannelInformation {
        channel_handle: 0x51,
        device_type: 5,
        controller_number: 0,
        device_features: 1,
        device_name: [0; 33],
        device_id: 7,
        channel_condition: 1,
    };
    let found = pcan_attached_channels(0, 0, &[info]);
    assert_eq!(found.len(), 1);
    assert_eq!(found[0].device_name, "PCAN-USB FD");
    assert!(pcan_attached_channels(1, 0, &[info]).is_empty());
}

#[test]
fn lengths_of_fd_frames_have_codes() {
    for (len, dlc) in [(0, 0), (8, 8), (9, 9), (12, 9), (13, 10), (33, 14), (64, 15)] {
        assert_eq!(fd_len_to_dlc(len), dlc);
    }
    assert_eq!(fd_dlc_to_len(0x0D), 32);
    assert_eq!(fd_dlc_to_len(15), 64);
}

#[test]
fn messages_of_the_driver_become_frames() {
    let mut clock = HardwareTimebase::new(1_000, None);
    let mut out = Vec::new();
    let message = |status: u32, millis: u32| PcanRead {
        status,
        msg: TPCANMsg {
            id: 0x123,
            msgtype: 0x02,
            len: 2,
            data: [9, 8, 7, 6, 5, 4, 3, 2],
        },
        ts: TPCANTimestamp {
            millis,
            millis_overflow: 0,
            micros: 5,
        },
    };
    let report = poll_classic(
        &[message(0, 1), message(0, 3), message(0x20, 0)],
        &mut clock,
        1_000_000_000,
        &mut out,
    );
    assert!(!report.connection_lost);
    assert_eq!(out.len(), 2);
    assert!(out[0].ext);
    assert_eq!(out[0].data, vec![9, 8]);
    assert_eq!(out[1].t - out[0].t, 2_000_000);
}

#[test]
fn frames_become_messages_of_the_driver() {
    match pcan_message(false, &frame(0)) {
        Ok(PcanMessage::Classic(m)) => {
            assert_eq!((m.id, m.len), (0x123, 3));
            assert_eq!(m.data, [1, 2, 3, 0, 0, 0, 0, 0]);
        }
        other => panic!("unexpected: {other:?}"),
    }
    let mut fd = frame(0);
    fd.fd = true;
    assert!(pcan_message(false, &fd).is_err());
    assert!(pcan_write_result(false, 0).is_ok());
    assert!(pcan_write_result(false, 1).is_err());
    assert!(pcan_fd_bitrate("500K", "2M").unwrap().starts_with("f_clock="));
    assert!(pcan_fd_bitrate("77K", "2M").is_err());
}

#[test]
fn channels_are_opened_step_by_step() {
    let opening = PcanBus::open_cfg(&device("PCAN", 1), false).unwrap();
    assert!(matches!(opening, PcanOpening::Classic { channel: 0x51, .. }));
    match opening.initialized(0) {
        PcanInitStep::Opened(bus) => assert!(!bus.is_fd),
        other => panic!("unexpected: {other:?}"),
    }
    assert!(PcanBus::open_config(99, "500K").is_err());
    assert!(PcanBus::open().is_ok());
}

// ---------------------------------------------------------------- other vendors

#[test]
fn adapters_are_told_apart() {
    assert_eq!(open_adapter(&device("pcan", 1)), Ok(AdapterKind::Pcan));
    assert_eq!(open_adapter(&device("GCAN", 1)), Ok(AdapterKind::Gcan));
    assert_eq!(open_adapter(&device("ZHCXCAN", 1)), Ok(AdapterKind::Zhcx));
    assert_eq!(open_adapter(&device("USBCAN2", 1)), Ok(AdapterKind::Zlg));
    assert!(open_adapter(&device("Virtual", 1)).is_err());
    assert_eq!(
        open_adapter(&device("Foo", 1)).unwrap_err(),
        "未知设备类型: Foo"
    );
    assert_ne!(
        adapter_key(&device("GCAN", 1)),
        adapter_key(&device("GCAN", 2))
    );
    let profile = zcan_profile("USBCANFD-200U").unwrap();
    assert_eq!(zlg_kernel_library(profile), Some("kerneldlls/USBCANFD.dll"));
}

#[test]
fn device_instances_are_matched_by_their_prefix() {
    let text: Vec<u16> = "usb\\vid_04d8".encode_utf16().chain([0, 65]).collect();
    assert!(instance_id_matches(&text, "USB\\VID_04D8"));
    assert!(!instance_id_matches(&text, "USB\\VID_04D8A"));
    assert!(!instance_id_matches(&[0xD800, 0x41], "\u{FFFD}B"));
    assert!(instance_id_matches(&[0xD800, 0x41], "\u{FFFD}a"));
    assert!(instance_text_matches("abc", "AB"));
    assert_eq!(zcan_info_text(b"SN1\0junk"), "SN1");
    assert_eq!(next_scan_index(0, false), Some(1));
    assert_eq!(next_scan_index(1, false), None);
    assert_eq!(next_scan_index(6, true), Some(7));
    assert_eq!(next_scan_index(7, true), None);
}

#[test]
fn probes_end_after_misses() {
    let mut probe = VciProbe::new();
    assert_eq!(probe.wanted(), Some(0));
    probe.answer(true);
    assert_eq!(probe.wanted(), Some(1));
}

#[test]
fn vci_frames_are_built_and_counted() {
    let bus = VciBus::open(&device("ZHCX", 1), "VCI_", 4).unwrap();
    let message = bus.message(&frame(0)).unwrap();
    assert_eq!(message.id, 0x123);
    let mut fd = frame(0);
    fd.fd = true;
    assert!(bus.message(&fd).is_err());
    assert_eq!(entry_symbol("VCI_", "OpenDevice"), b"VCI_OpenDevice\0".to_vec());
    assert!(call_outcome("VCI_", "StartCAN", "failed", DriverCall::Returned(1)).is_ok());
    assert!(call_outcome("VCI_", "StartCAN", "failed", DriverCall::Returned(0)).is_err());
    assert!(call_outcome("VCI_", "StartCAN", "failed", DriverCall::Missing("x".to_string())).is_err());
    let key = vci_device_key(&["ControlCAN.dll".to_string()], "VCI_", 4, 0);
    assert_ne!(key, vci_device_key(&["ControlCAN.dll".to_string()], "VCI_", 4, 1));
}

#[test]
fn vci_supervision_pauses_between_checks() {
    let mut bus = VciBus::open(&device("ZHCX", 1), "VCI_", 4).unwrap();
    let first = bus.begin_health(10_000_000_000);
    assert!(!matches!(first, VciStep::Done(_)));
    let again = bus.begin_health(10_000_000_001);
    assert!(matches!(again, VciStep::Done(_)));
}

#[test]
fn zlg_frames_are_built_and_supervised() {
    let cfg = device("USBCANFD-200U", 1);
    let opening = ZcanFdBus::open(&cfg).unwrap();
    let mut bus = ZcanFdBus::opened(&cfg, opening.profile, None);
    assert!(matches!(bus.message(&frame(0)), Ok(ZcanMessage::Classic(_))));
    assert!(matches!(bus.begin_health(true, 5), ZcanStep::QueryOnline));
    assert!(ZcanFdBus::open(&device("PCAN", 1)).is_err());
    let mut report = PollReport::default();
    merge_poll_report(
        &mut report,
        PollReport {
            receive_overruns: 2,
            driver_errors: 1,
            connection_lost: true,
            message: Some("m".to_string()),
        },
    );
    assert_eq!(report.receive_overruns, 2);
    assert!(report.connection_lost);
}

fn failure(next: SetupNext) -> String {
    match next {
        SetupNext::Ended(Err(text)) => text,
        other => panic!("unexpected: {other:?}"),
    }
}

#[test]
fn vci_channels_are_recovered_call_by_call() {
    let bus = VciBus::open(&device("ZHCX", 1), "VCI_", 4).unwrap();
    assert!(matches!(bus.begin_setup(false), SetupCall::Init(c) if c.acc_mask == 0xFFFF_FFFF));
    let mut call = bus.begin_setup(true);
    let mut made = Vec::new();
    loop {
        made.push(format!("{call:?}").chars().take(4).collect::<String>());
        match bus.after_setup_call(true, call, DriverCall::Returned(1)) {
            SetupNext::Call(next) => call = next,
            SetupNext::Ended(end) => {
                assert!(end.is_ok());
                break;
            }
        }
    }
    assert_eq!(made, vec!["Rese", "Init", "Star", "Clea"]);
    let failed = || DriverCall::Returned(0);
    assert_eq!(failure(bus.after_setup_call(true, SetupCall::Reset, failed())), "VCI_ResetCAN 失败");
    assert_eq!(failure(bus.after_setup_call(true, SetupCall::Start, failed())), "VCI_StartCAN 恢复失败");
    assert_eq!(failure(bus.after_setup_call(false, SetupCall::Start, failed())), "VCI_StartCAN 失败");
    let missing = DriverCall::Missing("gone".to_string());
    assert_eq!(
        failure(bus.after_setup_call(false, SetupCall::Reset, missing)),
        "VCI_ResetCAN 未找到: gone"
    );
    assert!(matches!(
        bus.after_setup_call(true, SetupCall::ClearBuffer, failed()),
        SetupNext::Ended(Ok(()))
    ));
    assert_eq!(
        bus.device_present(failed()).unwrap_err(),
        "VCI_设备物理连接已丢失（ReadBoardInfo 失败）"
    );
    assert!(bus.device_present(DriverCall::Returned(1)).is_ok());
}

#[test]
fn simulation_faults_are_told_once() {
    let mut sim = SimPeriodic::start(
        SimPeriodicConfig {
            frame: frame(0),
            has_dbc: false,
            dbc_id: 0,
            generators: vec![],
        },
        0,
    );
    assert_eq!(
        sim.encoding_failed("no signal").as_deref(),
        Some("仿真发生器编码失败: CAN1 0x123: no signal")
    );
    assert_eq!(sim.encoding_failed("no signal"), None);
    let due = sim.due_frame(8);
    assert_eq!((due.t, due.tx), (8, true));
    assert!(sim.encoding_failed("again").is_some());
    assert_eq!(
        simulation_not_sent(&frame(0), "full"),
        "仿真发生器发送失败: CAN1 0x123: full"
    );
}

#[test]
fn timers_are_not_early() {
    assert_eq!(timer_due_time(0), None);
    assert_eq!(timer_due_time(1), Some(-1));
    assert_eq!(timer_due_time(100), Some(-1));
    assert_eq!(timer_due_time(101), Some(-2));
    assert_eq!(timer_due_time(u128::MAX), Some(-i64::MAX));
}

// ---------------------------------------------------------------- schedules

#[test]
fn periodic_frames_keep_their_rhythm() {
    let mut table = Table::new();
    table.insert(
        3,
        Periodic {
            frame: frame(0),
            period: 10_000_000,
            next: 0,
            remaining: 2,
            sent: 0,
        },
    );
    let due = take_due(&mut table, 1_000_000, 42);
    assert_eq!(due.len(), 1);
    assert_eq!((due[0].0, due[0].1.t, due[0].1.tx), (3, 42, true));
    assert!(take_due(&mut table, 9_000_000, 43).is_empty());
    assert_eq!(take_due(&mut table, 10_000_000, 44).len(), 1);
    assert!(!count_sent(&mut table, 3).unwrap().done);
    assert!(count_sent(&mut table, 3).unwrap().done);
    assert!(count_sent(&mut table, 99).is_none());
    assert_eq!(sorted_once(&[3, 1, 3, 2]), vec![1, 2, 3]);
    assert_eq!(dynamic_rand_bits(1), dynamic_rand_bits(1));
    assert_ne!(dynamic_seed(1, 2, "A"), dynamic_seed(1, 2, "B"));
}

#[test]
fn repeated_errors_are_logged_once_a_second() {
    let mut recent = Controller::new().send_errors;
    assert!(should_log_send_error(&mut recent, 1, "full", 0));
    assert!(!should_log_send_error(&mut recent, 1, "full", 999_999_999));
    assert!(should_log_send_error(&mut recent, 1, "other", 999_999_999));
    assert!(should_log_send_error(&mut recent, 1, "other", 1_999_999_999));
}

#[test]
fn batches_repeat_their_frames() {
    let mut job = PendingSendJob::batch(vec![frame(1), frame(2)], 2).unwrap();
    let times: Vec<i64> = (0..4).map(|_| job.next_frame().unwrap().t).collect();
    assert_eq!(times, vec![1, 2, 1, 2]);
    assert!(job.next_frame().is_none());
    assert!(PendingSendJob::batch(vec![], 2).is_none());
}

#[test]
fn a_third_of_three_frames_is_the_second() {
    let mut playback = Playback::load(vec![frame(0), frame(1), frame(2)], 0);
    for (num, den, position) in [(1, 3, 1), (2, 3, 2), (1, 1, 2), (-1, 3, 0), (1, 2, 1), (9, 0, 2)] {
        assert!(playback.seek(Ratio { num, den }, 7));
        assert_eq!(playback.idx, position);
        assert_eq!(playback.base_t, position as i64);
    }
    assert!(!Playback::load(vec![], 0).seek(Ratio { num: 1, den: 2 }, 0));
}

#[test]
fn replays_run_in_time_and_over_again() {
    let frames = vec![frame(0), frame(1_000_000), frame(5_000_000)];
    let mut playback = Playback::load(frames, 0);
    playback.play(false, 1_000_000, true, 100);
    assert_eq!(playback.offline_end(100 + 1_000_000), 2);
    assert!(!playback.is_frame_due(2, 100 + 4_999_999));
    assert!(playback.is_frame_due(2, 100 + 5_000_000));
    let end = playback.offline_end(100 + 6_000_000);
    assert_eq!(playback.frames_until(end).len(), 3);
    playback.after_batch(end, PlaybackEventSend::Full);
    assert_eq!(playback.idx, 0);
    playback.after_batch(end, PlaybackEventSend::Enqueued);
    assert_eq!(playback.idx, 3);
    assert!(matches!(playback.end_slice(7_000_000), SliceEnd::Restarted));
    assert_eq!(playback.idx, 0);
    playback.pause();
    assert!(playback.paused);
    assert!(playback.seek(Ratio { num: 1, den: 2 }, 0));
    playback.play(true, 0, false, 0);
    while let Some(_next) = playback.next_online(0, 0) {
        playback.after_frame(PlaybackFrameEmit::Emitted);
    }
    assert!(matches!(playback.end_slice(1), SliceEnd::Completed));
    playback.cancel();
    assert!(!playback.playing);
}

// ---------------------------------------------------------------- firmware updates

fn job(ack: OtaAck) -> OtaJob {
    OtaJob {
        name: "fw".to_string(),
        steps: vec![OtaStep {
            frame: frame(0),
            ack,
            timeout_ms: 5,
            retries: 1,
        }],
        timeout_ms: 10,
        retries: 0,
    }
}

#[test]
fn updates_retry_and_end() {
    let mut cancel = OtaCancel { requested: true };
    let (report, run) = OtaRun::begin(job(OtaAck::UdsFlowControl), true, &mut cancel);
    assert_eq!(report.text, "fw started");
    assert!(!cancel.requested);
    let mut run = run.unwrap();
    let sent = match run.next(cancel, 9) {
        OtaNext::Transmit {
            frame, timeout_ms, ..
        } => {
            assert_eq!((frame.t, frame.tx, timeout_ms), (9, true, 10));
            frame
        }
        other => panic!("unexpected: {other:?}"),
    };
    assert!(run.after_send(sent, Ok(1)).is_ok());
    match run.after_ack(false) {
        OtaAfterAck::Retry(text) => assert_eq!(text, "fw step 1/1 timeout, retry 1/1"),
        other => panic!("unexpected: {other:?}"),
    }
    match run.after_ack(false) {
        OtaAfterAck::GaveUp(_, report) => assert_eq!(report.text, "fw failed at step 1"),
        other => panic!("unexpected: {other:?}"),
    }
    let (report, run) = OtaRun::begin(job(OtaAck::Unneeded), false, &mut cancel);
    assert_eq!(report.text, "OTA failed: no device connected");
    assert!(run.is_none());
}

#[test]
fn acknowledgements_are_found() {
    let mut positive = frame(0);
    positive.data = vec![2, 0x74];
    let ack = OtaAck::UdsPositive { service: 0x34 };
    assert!(ota_ack_matches(ack, &positive));
    assert!(!ota_ack_matches(ack, &frame(0)));
    let wild = OtaAck::XcpAck {
        response: OtaResponseId::WildcardBase(0x100),
    };
    let mut xcp = frame(0);
    xcp.data = vec![0xFF];
    assert!(ota_ack_matches(wild, &xcp));
    let (shown, found) = scan_for_ack(ack, 1, 1, &[frame(0), positive, frame(1)]);
    assert!(found);
    assert_eq!(shown.len(), 2);
}

// ---------------------------------------------------------------- the controller

#[test]
fn connecting_is_all_or_nothing() {
    let mut controller = Controller::new();
    let list = vec![
        OpenedChannel {
            channel: 1,
            outcome: Ok("A".to_string()),
        },
        OpenedChannel {
            channel: 2,
            outcome: Err("gone".to_string()),
        },
    ];
    let (events, all) = controller.channels_opened(list);
    assert!(!all);
    assert!(controller.links.is_empty());
    assert!(events.len() >= 3);
    let (_, all) = controller.channels_opened(vec![OpenedChannel {
        channel: 1,
        outcome: Ok("A".to_string()),
    }]);
    assert!(all);
    assert_eq!(controller.links[0].name, "A");
}

#[test]
fn commands_change_what_the_controller_does() {
    let mut controller = Controller::new();
    let effects = controller.command(Cmd::Connect, 0, 0);
    assert!(effects.iter().any(|e| matches!(e, Effect::OpenFirst)));
    controller.first_opened(Ok("PCAN".to_string()));
    assert_eq!(controller.links.len(), 1);
    controller.command(Cmd::Start, 0, 0);
    assert!(controller.running);
    let effects = controller.command(Cmd::SendOnce(frame(0)), 0, 77);
    match &effects[0] {
        Effect::Transmit(f) => assert_eq!((f.t, f.tx), (77, false)),
        other => panic!("unexpected: {other:?}"),
    }
    match Controller::sent_once(frame(77), Ok(2)) {
        Evt::Frame(f) => assert_eq!((f.t, f.tx, f.ch), (77, true, 2)),
        other => panic!("unexpected: {other:?}"),
    }
    match Controller::sent_once(frame(77), Err("full".to_string())) {
        Evt::Log(text) => assert_eq!(text, "发送失败: full"),
        other => panic!("unexpected: {other:?}"),
    }
    controller.command(
        Cmd::SetPeriodic {
            handle: 4,
            frame: frame(0),
            period_ms: 10,
            repeat: -1,
            enable: true,
        },
        0,
        0,
    );
    assert_eq!(controller.periodics.len(), 1);
    controller.command(Cmd::StopPeriodic { handle: 4 }, 0, 0);
    assert!(controller.periodics.is_empty());
    let effects = controller.command(
        Cmd::SendBatch {
            frames: vec![frame(0)],
            repeat: 3,
            ack: Some(9),
        },
        0,
        0,
    );
    assert!(effects
        .iter()
        .any(|e| matches!(e, Effect::Acknowledge(9, Ok(3)))));
    controller.command(Cmd::Disconnect, 0, 0);
    assert!(controller.links.is_empty() && !controller.running);
    let effects = controller.command(Cmd::Shutdown, 0, 0);
    assert!(matches!(effects.last(), Some(Effect::Exit)));
}

#[test]
fn refused_channels_change_nothing() {
    let mut controller = Controller::new();
    controller.first_opened(Ok("PCAN".to_string()));
    let mut bad = device("PCAN", 1);
    bad.sw_channel = 0;
    assert!(validate_channel_set(&[bad.clone()]).is_err());
    controller.command(Cmd::ConnectChannels(vec![bad]), 0, 0);
    assert_eq!(controller.links.len(), 1);
}

#[test]
fn lost_adapters_are_let_go_after_three_reports() {
    let mut controller = Controller::new();
    controller.first_opened(Ok("PCAN".to_string()));
    let lost = || PollReport {
        receive_overruns: 0,
        driver_errors: 1,
        connection_lost: true,
        message: Some("unplugged".to_string()),
    };
    assert!(controller.polled(1, lost(), true, 0).1.is_none());
    assert!(controller.polled(1, lost(), true, 1).1.is_none());
    let (_, reason) = controller.polled(1, lost(), true, 2);
    let effects = controller.lost(1, reason.unwrap());
    assert!(controller.links.is_empty());
    assert!(effects.iter().any(|e| matches!(
        e,
        Effect::Event(Evt::Connected { .. }) | Effect::Critical(Evt::Connected { .. }, _)
    )));
}

#[test]
fn captured_frames_are_shown_in_batches() {
    let frames: Vec<CanFrame> = (0..300).map(frame).collect();
    let batches = capture_batches(&frames, 3);
    assert_eq!(batches.iter().map(Vec::len).collect::<Vec<_>>(), vec![128, 128, 44]);
    assert!(batches.iter().flatten().all(|f| f.ch == 3));
}

//! Tests of the CAN side.
use std::collections::VecDeque;
use std::sync::atomic::Ordering;

use crossbeam_channel::bounded;
use pcanwork::can::adapters::{emit_playback_frame, process_pending_sends, send_on};
use pcanwork::can::ota::{cancel_ota, ota_ack_matches_on_channel, OtaCancel};
use pcanwork::can::pcan::pcan_poll_error;
use pcanwork::can::pcan_ffi::{PCAN_ERROR_BUSOFF, PCAN_ERROR_ILLHW};
use pcanwork::can::playback::playback_online_mode;
use pcanwork::can::queue::{
    choose_next, leaves_reserve, next_command, spawn, CommandHealth, CommandSender, EventSender,
    NextCommand, PlaybackFrameEmit, EVENT_QUEUE_CAPACITY, EVENT_QUEUE_CONTROL_RESERVE,
};
use pcanwork::can::schedule::{
    advance_periodic_deadline, stop_periodic_jobs, DynamicPeriodic, Periodic,
};
use pcanwork::can::send_queue::{
    enqueue_send_job, pending_send_frames, PendingSendJob, MAX_PENDING_SEND_FRAMES,
    SEND_FRAMES_PER_SLICE,
};
use pcanwork::can::supervision::connection_loss_confirmed;
use pcanwork::can::timebase::HardwareTimebase;
use pcanwork::can::zcan::{
    validate_channel_set, validate_device_config, zcan_device_key, zcan_driver_channel_type,
    zcan_profile, ZcanDeviceFamily,
};
use pcanwork::can::zcan_bus::{zcan_error_is_connection_lost, zcan_error_message};
use pcanwork::can::zcan_ffi::{
    ZcanChannelConfig, ZcanChannelInitConfig, ZcanChannelStatus, ZcanClassicInitConfig,
    ERROR_CAN_BUSERR, ERROR_CAN_BUSOFF, TYPE_CANFD,
};
use pcanwork::can::zcan_scan::printable_vci_text;
use pcanwork::can::zlg_ffi::{VCI_BOARD_INFO, VCI_CAN_OBJ, VCI_CAN_STATUS, VCI_INIT_CONFIG};
use pcanwork::can::{
    advance_send_sequence_seed, zlg_timing, CanAdapter, CanFrame, Cmd, DeviceConfig,
    DynamicPeriodicConfig, Evt, OtaAck, OtaResponseId, PollReport, TimestampHealth,
};
use pcanwork::table::Table;
use pcanwork::ends::{Inbox, Taken};

const MILLI: u128 = 1_000_000;

fn device(device_type: &str, channel: u8) -> DeviceConfig {
    DeviceConfig {
        sw_channel: channel,
        is_fd: false,
        device_type: device_type.to_string(),
        hardware_label: String::new(),
        hardware_id: String::new(),
        device_index: 0,
        channel_index: (channel - 1) as u32,
        baud: "500K".to_string(),
        data_baud: "2M".to_string(),
        custom_bitrate: String::new(),
        termination: false,
        listen_only: false,
        fd_non_iso: false,
        net_server: false,
        ip: "192.168.0.10".to_string(),
        port: "8000".to_string(),
    }
}

fn frame(channel: u8) -> CanFrame {
    CanFrame {
        t: 0,
        ch: channel,
        tx: false,
        id: 0x123,
        ext: false,
        fd: false,
        brs: false,
        remote: false,
        error: false,
        data: vec![0xFF],
    }
}

struct MockAdapter {
    fail_send: bool,
    sent: usize,
}

impl CanAdapter for MockAdapter {
    fn poll(&mut self, _out: &mut Vec<CanFrame>) -> PollReport {
        PollReport::default()
    }

    fn send(&mut self, _frame: &CanFrame) -> Result<(), String> {
        self.sent += 1;
        if self.fail_send {
            Err("mock send failure".to_string())
        } else {
            Ok(())
        }
    }

    fn name(&self) -> String {
        "mock".to_string()
    }
}

fn no_health() -> TimestampHealth {
    TimestampHealth {
        samples: 0,
        latest_jitter_nanos: 0,
        max_jitter_nanos: 0,
        drift_ppb: 0,
        monotonic_violations: 0,
    }
}

#[test]
fn controlcan_board_info_matches_vendor_abi() {
    assert_eq!(std::mem::size_of::<VCI_BOARD_INFO>(), 80);
    assert_eq!(std::mem::size_of::<VCI_CAN_STATUS>(), 12);
    assert_eq!(std::mem::size_of::<VCI_CAN_OBJ>(), 24);
    assert_eq!(std::mem::size_of::<VCI_INIT_CONFIG>(), 16);
    assert_eq!(printable_vci_text(b"CANalyst-II\0ignored"), "CANalyst-II");
}

#[test]
fn pcan_unplug_status_is_classified_as_connection_loss() {
    let report = pcan_poll_error(PCAN_ERROR_ILLHW);
    assert!(report.connection_lost);
    let bus_off = pcan_poll_error(PCAN_ERROR_BUSOFF);
    assert!(!bus_off.connection_lost);
}

#[test]
fn connection_loss_requires_three_consecutive_reports() {
    let mut streaks = Table::new();
    assert!(!connection_loss_confirmed(&mut streaks, 1, true, 0));
    assert!(!connection_loss_confirmed(&mut streaks, 1, false, 1));
    assert!(!connection_loss_confirmed(&mut streaks, 1, true, 2));
    assert!(!connection_loss_confirmed(&mut streaks, 1, false, 3));
    assert!(connection_loss_confirmed(&mut streaks, 1, true, 4));
}

#[test]
fn channel_validation_is_adapter_aware() {
    assert!(validate_device_config(&device("PCAN", 1)).is_ok());

    let mut classic = device("USBCAN-E-U", 1);
    classic.is_fd = true;
    assert!(validate_device_config(&classic).is_err());

    let mut network = device("CANFDNET", 1);
    network.is_fd = true;
    network.ip = "not-an-ip".to_string();
    assert!(validate_device_config(&network).is_err());
    network.ip = "192.168.0.10".to_string();
    assert!(validate_device_config(&network).is_ok());
}

#[test]
fn zlg_e_u_and_canfd_mini_use_distinct_driver_families() {
    let usbcan1 = zcan_profile("USBCAN1").unwrap();
    let usbcan2 = zcan_profile("USBCAN2").unwrap();
    let eu = zcan_profile("USBCAN-E-U").unwrap();
    let two_eu = zcan_profile("USBCAN-2E-U").unwrap();
    let mini = zcan_profile("USBCANFD-MINI").unwrap();
    assert_eq!(usbcan1.device_type, 3);
    assert_eq!(usbcan2.device_type, 4);
    assert_eq!(usbcan1.family, ZcanDeviceFamily::UsbClassic);
    assert_eq!(usbcan2.family, ZcanDeviceFamily::UsbClassic);
    assert_eq!(eu.device_type, 20);
    assert_eq!(two_eu.device_type, 21);
    assert_eq!(eu.family, ZcanDeviceFamily::UsbClassic);
    assert!(!eu.fd_capable);
    assert_eq!(mini.device_type, 43);
    assert_eq!(mini.family, ZcanDeviceFamily::UsbCanFd);
    assert!(mini.fd_capable);
}

#[test]
fn zlg_canfd_hardware_uses_canfd_driver_channel_for_classic_frames() {
    let profile = zcan_profile("USBCANFD-200U").unwrap();
    assert_eq!(profile.family, ZcanDeviceFamily::UsbCanFd);
    assert!(profile.fd_capable);
    let driver_type = zcan_driver_channel_type(profile, false);
    assert_eq!(driver_type, TYPE_CANFD);
}

#[test]
fn zlg_usb_shared_device_key_ignores_stale_network_fields() {
    let profile = zcan_profile("USBCANFD-200U").unwrap();
    let first = device("USBCANFD-200U", 1);
    let mut second = device("USBCANFD-200U", 2);
    second.channel_index = 1;
    second.net_server = true;
    second.ip = "192.168.0.178".to_string();
    second.port = "8000".to_string();
    assert_eq!(
        zcan_device_key(profile, &first),
        zcan_device_key(profile, &second)
    );
}

#[test]
fn zlg_e_u_classic_init_uses_sja1000_timing_layout() {
    let (timing0, timing1) = zlg_timing("500K").unwrap();
    let cfg = ZcanChannelInitConfig {
        can_type: 0,
        config: ZcanChannelConfig::from_classic(ZcanClassicInitConfig {
            acc_code: 0,
            acc_mask: 0xFFFF_FFFF,
            reserved: 0,
            filter: 1,
            timing0,
            timing1,
            mode: 0,
        }),
    };
    let classic = cfg.config.classic();
    assert_eq!(std::mem::size_of::<ZcanChannelInitConfig>(), 32);
    assert_eq!(classic.timing0, timing0);
    assert_eq!(classic.timing1, timing1);
    assert_eq!(classic.acc_mask, 0xFFFF_FFFF);
}

#[test]
fn zlg_bus_error_is_actionable_but_not_a_usb_disconnect() {
    let status = ZcanChannelStatus {
        reg_re_counter: 7,
        reg_te_counter: 31,
        ..Default::default()
    };
    let message = zcan_error_message(ERROR_CAN_BUSERR | ERROR_CAN_BUSOFF, Some(status));
    assert!(message.contains("CAN_H/CAN_L"));
    assert!(message.contains("Bus-Off"));
    assert!(message.contains("RXErr=7"));
    assert!(!zcan_error_is_connection_lost(
        ERROR_CAN_BUSERR | ERROR_CAN_BUSOFF
    ));
}

#[test]
fn send_sequence_increments_id_and_little_endian_payload() {
    let mut source = frame(1);
    source.id = 0x7FE;
    source.data = vec![0xFF, 0x00];
    let mut job = PendingSendJob::sequence(source, 3, true, true).unwrap();
    let first = job.next_frame().unwrap();
    let second = job.next_frame().unwrap();
    let third = job.next_frame().unwrap();
    assert_eq!((first.id, first.data), (0x7FE, vec![0xFF, 0x00]));
    assert_eq!((second.id, second.data), (0x7FF, vec![0x00, 0x01]));
    assert_eq!((third.id, third.data), (0x000, vec![0x01, 0x01]));
    assert_eq!(job.remaining(), 0);
}

#[test]
fn completed_sequence_advances_the_next_form_seed() {
    let mut seed = frame(1);
    seed.id = 0x100;
    seed.data = vec![0x00, 0x11, 0x22, 0x33, 0x44, 0x55, 0x66, 0x77];

    advance_send_sequence_seed(&mut seed, 1, true, true);

    assert_eq!(seed.id, 0x101);
    assert_eq!(
        seed.data,
        vec![0x01, 0x11, 0x22, 0x33, 0x44, 0x55, 0x66, 0x77]
    );
}

#[test]
fn form_seed_advances_by_the_entire_queued_sequence() {
    let mut seed = frame(1);
    seed.id = 0x7FE;
    seed.data = vec![0xFF, 0x00];

    advance_send_sequence_seed(&mut seed, 3, true, true);

    assert_eq!(seed.id, 0x001);
    assert_eq!(seed.data, vec![0x02, 0x01]);
}

#[test]
fn form_seed_increment_options_are_independent() {
    let mut id_only = frame(1);
    id_only.id = 0x100;
    id_only.data = vec![0x10];
    advance_send_sequence_seed(&mut id_only, 1, true, false);
    assert_eq!((id_only.id, id_only.data), (0x101, vec![0x10]));

    let mut data_only = frame(1);
    data_only.id = 0x100;
    data_only.data = vec![0x10];
    advance_send_sequence_seed(&mut data_only, 1, false, true);
    assert_eq!((data_only.id, data_only.data), (0x100, vec![0x11]));
}

#[test]
fn stop_periodic_removes_static_and_dynamic_jobs_for_the_handle() {
    let now: u128 = 0;
    let mut periodics = Table::new();
    periodics.insert(
        7,
        Periodic {
            frame: frame(1),
            period: 10 * MILLI,
            next: now,
            remaining: 1000,
            sent: 67,
        },
    );
    let mut dynamic_periodics = Table::new();
    dynamic_periodics.insert(
        7,
        DynamicPeriodic {
            config: DynamicPeriodicConfig {
                frame: frame(1),
                dbc_id: 0x116,
                period_ms: 10,
                repeat: 1000,
                start_sent: 67,
            },
            next: now,
            sent: 67,
        },
    );

    stop_periodic_jobs(&mut periodics, &mut dynamic_periodics, 7);

    assert!(periodics.find(7).is_none());
    assert!(dynamic_periodics.find(7).is_none());
}

#[test]
fn periodic_deadline_does_not_accumulate_wakeup_delay() {
    let scheduled: u128 = 5_000 * MILLI;
    let period = 10 * MILLI;
    let woke_late = scheduled + 2 * MILLI;

    let next = advance_periodic_deadline(scheduled, period, woke_late);

    assert_eq!(next, scheduled + period);
}

#[test]
fn periodic_deadline_skips_expired_slots_after_an_overrun() {
    let scheduled: u128 = 5_000 * MILLI;
    let period = 10 * MILLI;
    let woke_after_next_slot = scheduled + 12 * MILLI;

    let next = advance_periodic_deadline(scheduled, period, woke_after_next_slot);

    assert_eq!(next, woke_after_next_slot + period);
}

#[test]
fn pending_send_queue_rejects_unbounded_work() {
    let mut queue = VecDeque::new();
    let job = PendingSendJob::sequence(frame(1), MAX_PENDING_SEND_FRAMES, false, false).unwrap();
    assert!(matches!(
        enqueue_send_job(&mut queue, job),
        Ok(MAX_PENDING_SEND_FRAMES)
    ));
    let extra = PendingSendJob::sequence(frame(1), 1, false, false).unwrap();
    assert!(enqueue_send_job(&mut queue, extra).is_err());
}

#[test]
fn channel_set_rejects_duplicate_software_and_hardware_bindings() {
    let first = device("PCAN", 1);
    let mut duplicate_software = device("PCAN", 1);
    duplicate_software.channel_index = 1;
    assert!(validate_channel_set(&[first.clone(), duplicate_software]).is_err());

    let mut duplicate_hardware = first.clone();
    duplicate_hardware.sw_channel = 2;
    assert!(validate_channel_set(&[first, duplicate_hardware]).is_err());
}

#[test]
fn stable_hardware_identity_survives_runtime_index_changes() {
    let mut first = device("USBCANFD-200U", 1);
    first.is_fd = true;
    first.hardware_id = "USBCANFD-200U:46716A0:0".to_string();

    let mut same_endpoint = first.clone();
    same_endpoint.sw_channel = 2;
    same_endpoint.device_index = 7;
    same_endpoint.channel_index = 1;

    let error = validate_channel_set(&[first, same_endpoint]).unwrap_err();
    assert!(error.contains("同一硬件端点"));
}

#[test]
fn pcan_fd_accepts_complete_custom_timing_and_rejects_partial_text() {
    let mut config = device("PCAN", 1);
    config.is_fd = true;
    config.custom_bitrate = "f_clock=80000000,nom_brp=2,nom_tseg1=63,nom_tseg2=16,nom_sjw=16,data_brp=2,data_tseg1=15,data_tseg2=4,data_sjw=4".to_string();
    assert!(validate_device_config(&config).is_ok());

    config.custom_bitrate = "nominal 500K / data 2M".to_string();
    assert!(validate_device_config(&config).is_err());
}

#[test]
fn capability_validation_rejects_incompatible_modes() {
    let mut classic = device("GCAN", 1);
    classic.fd_non_iso = true;
    assert!(validate_device_config(&classic).is_err());

    let mut fd = device("USBCANFD-200U", 1);
    fd.is_fd = true;
    fd.fd_non_iso = true;
    assert!(validate_device_config(&fd).is_ok());

    let mut pcan = device("PCAN", 1);
    pcan.listen_only = true;
    assert!(validate_device_config(&pcan).is_err());
}

#[test]
fn hardware_timebase_preserves_device_deltas() {
    let mut clock = HardwareTimebase::new(1_000, None);
    assert_eq!(clock.map(1_000_000, 5_000_000_000), 5_000_000_000);
    assert_eq!(clock.map(1_250_000, 8_000_000_000), 5_250_000_000);
}

#[test]
fn hardware_timebase_extends_32_bit_wrap() {
    let mut clock = HardwareTimebase::new(100_000, Some(32));
    let before_wrap = u32::MAX as u64 - 4;
    assert_eq!(clock.map(before_wrap, 2_000_000_000), 2_000_000_000);
    assert_eq!(clock.map(5, 9_000_000_000), 2_001_000_000);
}

#[test]
fn event_queue_drops_capture_before_control_reserve_and_reports_it() {
    let (raw_tx, rx) = bounded(EVENT_QUEUE_CAPACITY);
    let mut sender = EventSender::new(raw_tx);
    for index in 0..(EVENT_QUEUE_CAPACITY - EVENT_QUEUE_CONTROL_RESERVE) {
        sender
            .send(Evt::Log(format!("queued control {index}")))
            .unwrap();
    }

    sender.send_frames(vec![frame(1), frame(1)]);
    assert_eq!(sender.dropped_frames, 2);
    while rx.try_recv().is_ok() {}
    sender.report_health(3, 4, &CommandHealth::default(), 0, no_health());
    let health = rx.try_recv().unwrap();
    assert!(matches!(
        health,
        Evt::CaptureHealth {
            dropped_frames: 2,
            hardware_overruns: 3,
            hardware_errors: 4,
            ..
        }
    ));
}

#[test]
fn command_queue_never_blocks_and_reports_rejection() {
    let (tx, _rx) = bounded(1);
    let health = CommandHealth::default();
    let sender = CommandSender {
        tx,
        health: health.clone(),
    };
    sender.send(Cmd::Start).unwrap();
    assert!(sender.send(Cmd::Stop).is_err());
    assert_eq!(health.rejected.load(Ordering::Relaxed), 1);
    assert_eq!(health.high_watermark.load(Ordering::Relaxed), 1);
}

#[test]
fn shutdown_signal_bypasses_a_full_command_queue() {
    let (tx, _rx) = bounded(1);
    let health = CommandHealth::default();
    let sender = CommandSender {
        tx,
        health: health.clone(),
    };
    sender.send(Cmd::Start).unwrap();
    assert!(sender.send_critical(Cmd::Shutdown, 0).is_err());
    assert!(health.shutdown_requested.load(Ordering::Acquire));
}

#[test]
fn send_rejects_missing_target_channel() {
    let mut adapters = vec![(
        1,
        MockAdapter {
            fail_send: false,
            sent: 0,
        },
    )];

    let error = send_on(&mut adapters, &frame(2)).unwrap_err();
    assert!(error.contains('2'));
    assert_eq!(adapters[0].1.sent, 0);
}

#[test]
fn pending_send_processing_is_bounded_per_controller_slice() {
    let mut queue = VecDeque::new();
    enqueue_send_job(
        &mut queue,
        PendingSendJob::sequence(frame(1), 100, false, false).unwrap(),
    )
    .unwrap();
    let mut adapters = vec![(
        1,
        MockAdapter {
            fail_send: false,
            sent: 0,
        },
    )];
    let (raw_tx, rx) = bounded(EVENT_QUEUE_CAPACITY);
    let mut events = EventSender::new(raw_tx);

    process_pending_sends(&mut queue, &mut adapters, &mut events, || (false, 7));

    let emitted = rx
        .try_iter()
        .map(|event| match event {
            Evt::Frames(frames) => frames.len(),
            Evt::Frame(_) => 1,
            _ => 0,
        })
        .sum::<usize>();
    assert!(emitted > 0 && emitted <= SEND_FRAMES_PER_SLICE);
    assert_eq!(pending_send_frames(&queue), 100 - emitted as u64);
}

#[test]
fn a_failed_frame_removes_its_job() {
    let mut queue = VecDeque::new();
    enqueue_send_job(
        &mut queue,
        PendingSendJob::sequence(frame(1), 100, false, false).unwrap(),
    )
    .unwrap();
    let mut adapters = vec![(
        1,
        MockAdapter {
            fail_send: true,
            sent: 0,
        },
    )];
    let (raw_tx, rx) = bounded(8);
    let mut events = EventSender::new(raw_tx);
    let outcome = process_pending_sends(&mut queue, &mut adapters, &mut events, || (false, 0));
    assert_eq!(outcome, (0, true));
    assert_eq!(pending_send_frames(&queue), 0);
    match rx.try_recv().unwrap() {
        Evt::Log(text) => assert_eq!(text, "发送任务已停止: mock send failure"),
        other => panic!("unexpected event: {other:?}"),
    }
}

#[test]
fn a_slice_ends_when_its_time_is_up() {
    let mut queue = VecDeque::new();
    enqueue_send_job(
        &mut queue,
        PendingSendJob::sequence(frame(1), 3, false, false).unwrap(),
    )
    .unwrap();
    let mut adapters = vec![(
        1,
        MockAdapter {
            fail_send: false,
            sent: 0,
        },
    )];
    let (raw_tx, _rx) = bounded(8);
    let mut events = EventSender::new(raw_tx);
    let outcome = process_pending_sends(&mut queue, &mut adapters, &mut events, || (true, 0));
    assert_eq!(outcome, (0, false));
    assert_eq!(pending_send_frames(&queue), 3);
}

#[test]
fn online_playback_does_not_emit_frame_after_hardware_failure() {
    let mut adapters = vec![(
        1,
        MockAdapter {
            fail_send: true,
            sent: 0,
        },
    )];
    let (raw_tx, rx) = bounded(8);
    let mut tx = EventSender::new(raw_tx);

    assert_eq!(
        emit_playback_frame(&mut adapters, &mut tx, frame(1), true),
        PlaybackFrameEmit::Failed
    );
    let events: Vec<_> = rx.try_iter().collect();
    assert!(events.iter().any(|event| matches!(event, Evt::Log(_))));
    assert!(!events
        .iter()
        .any(|event| matches!(event, Evt::PlaybackFrame(_))));
}

#[test]
fn frames_reach_the_bus_once() {
    let mut adapters = vec![(
        1,
        MockAdapter {
            fail_send: false,
            sent: 0,
        },
    )];
    assert_eq!(send_on(&mut adapters, &frame(1)), Ok(1));
    assert_eq!(adapters[0].1.sent, 1);

    let (raw_tx, rx) = bounded(1);
    let mut tx = EventSender::new(raw_tx);
    assert_eq!(
        emit_playback_frame(&mut adapters, &mut tx, frame(1), true),
        PlaybackFrameEmit::Emitted
    );
    assert_eq!(adapters[0].1.sent, 2);
    assert_eq!(tx.dropped_events, 0);

    assert_eq!(
        emit_playback_frame(&mut adapters, &mut tx, frame(1), true),
        PlaybackFrameEmit::Emitted
    );
    assert_eq!(adapters[0].1.sent, 3);
    assert_eq!(tx.dropped_events, 1);
    assert!(matches!(rx.try_recv().unwrap(), Evt::PlaybackFrame(f) if f.tx));
    assert!(rx.try_recv().is_err());

    assert_eq!(
        emit_playback_frame(&mut adapters, &mut tx, frame(1), false),
        PlaybackFrameEmit::Emitted
    );
    assert_eq!(adapters[0].1.sent, 3);

    adapters[0].1.fail_send = true;
    assert!(send_on(&mut adapters, &frame(1)).is_err());
    assert_eq!(adapters[0].1.sent, 4);
}

#[test]
fn offline_playback_retries_when_the_ui_queue_is_full() {
    let mut adapters: Vec<(u8, MockAdapter)> = Vec::new();
    let (raw_tx, rx) = bounded(1);
    let mut tx = EventSender::new(raw_tx);
    tx.send(Evt::Log("occupy queue".to_string())).unwrap();

    assert_eq!(
        emit_playback_frame(&mut adapters, &mut tx, frame(1), false),
        PlaybackFrameEmit::Backpressure
    );
    assert_eq!(tx.dropped_events, 0);
    assert!(matches!(rx.try_recv().unwrap(), Evt::Log(_)));

    assert_eq!(
        emit_playback_frame(&mut adapters, &mut tx, frame(1), false),
        PlaybackFrameEmit::Emitted
    );
    assert!(matches!(rx.try_recv().unwrap(), Evt::PlaybackFrame(_)));
}

#[test]
fn ota_ack_requires_the_expected_channel() {
    let ack = OtaAck::XcpAck {
        response: OtaResponseId::Exact(0x123),
    };
    let response = frame(1);

    assert!(!ota_ack_matches_on_channel(ack, 2, 1, &response));
    assert!(ota_ack_matches_on_channel(ack, 2, 2, &response));
}

#[test]
fn online_playback_falls_back_to_offline_without_hardware() {
    assert!(!playback_online_mode(true, false));
    assert!(playback_online_mode(true, true));
    assert!(!playback_online_mode(false, true));
}

#[test]
fn a_cancelled_update_stays_cancelled() {
    let mut cancel = OtaCancel { requested: false };
    cancel_ota(&mut cancel);
    assert!(cancel.requested);
}

#[test]
fn both_queues_carry_what_is_sent() {
    let mut queues = spawn();
    let mut commands = Inbox::new(queues.command_rx);
    queues.commands.send(Cmd::Start).unwrap();
    assert!(matches!(
        next_command(&mut commands, &queues.commands.health),
        NextCommand::Run(Cmd::Start)
    ));
    assert!(matches!(
        next_command(&mut commands, &queues.commands.health),
        NextCommand::Idle
    ));
    queues.events.send(Evt::Running(true)).unwrap();
    assert!(matches!(
        queues.event_rx.try_recv().unwrap(),
        Evt::Running(true)
    ));
    let further = queues.commands.clone();
    further.send(Cmd::Shutdown).unwrap();
    assert!(matches!(
        next_command(&mut commands, &queues.commands.health),
        NextCommand::Shutdown
    ));
}

#[test]
fn the_controller_ends_without_senders() {
    assert!(matches!(
        choose_next(false, Taken::Disconnected),
        NextCommand::End
    ));
    assert!(matches!(
        choose_next(true, Taken::Item(Cmd::Start)),
        NextCommand::Shutdown
    ));
}

#[test]
fn the_last_places_of_the_event_queue_are_reserved() {
    assert!(leaves_reserve(959));
    assert!(!leaves_reserve(960));
}

#[test]
fn a_critical_command_finds_room_at_once() {
    let (tx, rx) = bounded(1);
    let health = CommandHealth::default();
    let sender = CommandSender { tx, health };
    sender.send_critical(Cmd::Stop, 250).unwrap();
    assert!(matches!(rx.try_recv().unwrap(), Cmd::Stop));
}

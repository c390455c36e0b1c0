//! Tests of the steps that drivers and tasks are made of.
use pcanwork::can::adapters::{effective_channel, not_connected};
use pcanwork::can::controller::Controller;
use pcanwork::can::ota::ota_response_id_matches;
use pcanwork::can::pcan::{missing_entry_report, poll_fd, retried_fd, PcanFdRead};
use pcanwork::can::pcan_ffi::TPCANMsgFD;
use pcanwork::can::schedule::{no_database_message, SimPeriodic, SimStep};
use pcanwork::can::send_queue::{advance_sequence_frame, increment_frame_data};
use pcanwork::can::timebase::HardwareTimebase;
use pcanwork::can::vci::{DriverCall, VciBus, VciStep};
use pcanwork::can::zcan_bus::{
    open_check, receive_request, transmit_error, ZcanFdBus, ZcanOpenCheck, ZcanStep,
};
use pcanwork::can::zcan_ffi::{
    CanFrameC, CanfdFrameC, ZcanChannelStatus, ZcanDeviceInfo, ZcanReceiveData, ZcanReceiveFdData,
};
use pcanwork::can::zcan_scan::{probe_vci_device, zcan_attached_channels, ZcanScan};
use pcanwork::can::zcan_setup::{
    RecoveryCall, RecoveryNext, ZcanCall, ZcanOpenNext, ZcanRecovery,
};
use pcanwork::can::zcan::zcan_profile;
use pcanwork::can::zlg_ffi::{VCI_BOARD_INFO, VCI_CAN_OBJ, VCI_CAN_STATUS};
use pcanwork::can::{
    CanFrame, Cmd, DeviceConfig, DynamicPeriodicConfig, OtaResponseId, PollReport,
    SimGeneratorMode, SimPeriodicConfig, SimSignalGenerator,
};
use pcanwork::modbus::adu::{modbus_exc_name, traffic_line, u16be};
use pcanwork::modbus::master::{describe_poll, flatten_unit, Reply};
use pcanwork::modbus::grid::PollData;
use pcanwork::modbus::pdu::{pdu_u16, ExceptionCode, Request, Response};
use pcanwork::modbus::scan::{probe_request, scan_row, ScanErr};
use pcanwork::modbus::store::{
    apply_edit, is_write, put_words, read_bits, read_words, window_u16, DataStore,
};
use pcanwork::modbus::{func_area_be, Area, SimMode, WriteFunc};
use pcanwork::order::{arrange, comes_before};
use pcanwork::workbench::batches::queued_line;
use pcanwork::workbench::hardware::retained_channels;
use pcanwork::workbench::ipc::{
    connect_configured, connect_refusal, load_database, start_capture, stop_internal_periodic,
    IpcReply, IpcStep,
};
use pcanwork::workbench::project::device_in_use;
use pcanwork::workbench::status::choice_rows;
use pcanwork::workbench::stress::{recording_complete, recording_outcome};

fn device(device_type: &str) -> DeviceConfig {
    DeviceConfig {
        sw_channel: 1,
        device_type: device_type.to_string(),
        baud: "500K".to_string(),
        data_baud: "2M".to_string(),
        ..DeviceConfig::default()
    }
}

fn frame(data: &[u8]) -> CanFrame {
    CanFrame {
        t: 0,
        ch: 1,
        tx: false,
        id: 0x7FF,
        ext: false,
        fd: false,
        brs: false,
        remote: false,
        error: false,
        data: data.to_vec(),
    }
}

fn done(step: VciStep) -> PollReport {
    match step {
        VciStep::Done(report) => report,
        other => panic!("unexpected: {other:?}"),
    }
}

fn status(reg_status: u8, rec: u8, tec: u8) -> VCI_CAN_STATUS {
    VCI_CAN_STATUS {
        reg_status,
        reg_re_counter: rec,
        reg_te_counter: tec,
        ..VCI_CAN_STATUS::default()
    }
}

// ---------------------------------------------------------------- older drivers

#[test]
fn vci_messages_become_frames() {
    let bus = VciBus::open(&device("ZHCX"), "VCI_", 4).unwrap();
    let message = VCI_CAN_OBJ {
        id: 0x123,
        time_stamp: 9,
        time_flag: 1,
        send_type: 0,
        remote_flag: 0,
        extern_flag: 1,
        data_len: 200,
        data: [1, 2, 3, 4, 5, 6, 7, 8],
        reserved: [0; 3],
    };
    let mut out = Vec::new();
    assert!(bus.received(1, &[message, message], 55, &mut out).is_none());
    assert_eq!(out.len(), 1);
    assert_eq!((out[0].t, out[0].ch, out[0].ext), (55, 1, true));
    assert_eq!(out[0].data.len(), 8);
    let report = bus.received(u32::MAX, &[message], 0, &mut out).unwrap();
    assert!(report.connection_lost);
    assert_eq!(report.message.as_deref(), Some("VCI_Receive 返回驱动错误"));
}

#[test]
fn vci_faults_are_recovered_once_a_second() {
    let mut bus = VciBus::open(&device("ZHCX"), "VCI_", 4).unwrap();
    let off = status(0x80, 1, 255);
    assert!(matches!(bus.after_status(5, Ok(Some(off))), VciStep::Recover { .. }));
    let report = done(bus.after_status(1_000_000_004, Ok(Some(off))));
    assert!(report.message.is_none() && !report.connection_lost);
    assert!(matches!(bus.after_status(1_000_000_005, Ok(Some(off))), VciStep::Recover { .. }));
    assert_eq!(
        bus.after_recovery(off, Ok(())).message.as_deref(),
        Some("VCI_CAN1 Bus-Off，已自动复位恢复（REC=1 TEC=255）")
    );
    let failed = bus.after_recovery(off, Err("x".to_string()));
    assert!(failed.connection_lost);
    assert_eq!(failed.message.as_deref(), Some("VCI_CAN1 Bus-Off恢复失败: x"));
}

#[test]
fn vci_warnings_and_losses_are_told_apart() {
    let mut bus = VciBus::open(&device("ZHCX"), "VCI_", 4).unwrap();
    let warning = done(bus.after_status(0, Ok(Some(status(0x40, 3, 4)))));
    assert!(!warning.connection_lost);
    assert_eq!(
        warning.message.as_deref(),
        Some("VCI_CAN1 总线错误警告（SR=0x40 REC=3 TEC=4）")
    );
    assert!(done(bus.after_status(0, Ok(None))).message.is_none());
    assert!(done(bus.after_status(0, Err("e".to_string()))).connection_lost);
    assert!(done(bus.after_lookup(Some(false))).connection_lost);
    assert!(matches!(bus.after_lookup(None), VciStep::CheckPresence));
    assert!(matches!(bus.after_presence(Ok(())), VciStep::ReadStatus));
    let dead = done(bus.after_doubtful_status(Ok(Some(status(0, 0, 0)))));
    assert!(dead.connection_lost);
    assert!(matches!(
        bus.after_doubtful_status(Ok(Some(status(0, 1, 0)))),
        VciStep::CheckPresence
    ));
}

#[test]
fn repeated_failures_count_as_bus_off() {
    let mut bus = VciBus::open(&device("ZHCX"), "VCI_", 4).unwrap();
    let passive = status(0, 0, 135);
    for _ in 0..9 {
        assert!(bus.transmitted(0, Some(passive)).is_err());
    }
    assert!(!matches!(bus.after_status(0, Ok(Some(passive))), VciStep::Recover { .. }));
    assert_eq!(
        bus.transmitted(0, Some(passive)).unwrap_err(),
        "VCI_Transmit 失败（SR=0x00 REC=0 TEC=135）"
    );
    assert!(matches!(bus.after_status(0, Ok(Some(passive))), VciStep::Recover { .. }));
    assert!(bus.transmitted(1, None).is_ok());
    assert_eq!(bus.consecutive_send_failures, 0);
    assert_eq!(bus.transmitted(0, None).unwrap_err(), "VCI_Transmit 失败");
}

#[test]
fn status_registers_need_an_entry_point() {
    let bus = VciBus::open(&device("ZHCX"), "VCI_", 4).unwrap();
    let read = status(1, 2, 3);
    assert!(matches!(
        bus.channel_status(DriverCall::Missing("m".to_string()), read),
        Ok(None)
    ));
    assert!(matches!(
        bus.channel_status(DriverCall::Returned(1), read),
        Ok(Some(s)) if s.reg_te_counter == 3
    ));
    assert_eq!(
        bus.channel_status(DriverCall::Returned(0), read).unwrap_err(),
        "VCI_ReadCANStatus 失败"
    );
}

#[test]
fn boards_tell_their_channels() {
    let mut info = VCI_BOARD_INFO::default();
    info.can_num = 2;
    info.serial_number[..3].copy_from_slice(b"S\x011");
    info.hardware_type[..4].copy_from_slice(b"HW 1");
    let found = probe_vci_device("ZHCX", "CANalyst-II", 0, 3, &info);
    assert_eq!(found.len(), 2);
    assert_eq!(found[1].serial_number, "S1");
    assert_eq!(found[1].hardware_label, "HW 1");
    assert_eq!((found[1].device_index, found[1].channel_index), (3, 1));
    let fixed = probe_vci_device("GCAN", "GCAN USBCAN-I", 1, 0, &info);
    assert_eq!(fixed.len(), 1);
    assert_eq!(fixed[0].hardware_label, "GCAN USBCAN-I");
}

// ---------------------------------------------------------------- ZLG

fn zcan() -> ZcanFdBus {
    let cfg = device("USBCANFD-200U");
    ZcanFdBus::opened(&cfg, zcan_profile("USBCANFD-200U").unwrap(), None)
}

#[test]
fn zlg_errors_are_counted_until_they_change() {
    let mut bus = zcan();
    let busy = ZcanChannelStatus { reg_te_counter: 9, ..ZcanChannelStatus::default() };
    let report = match bus.after_errors(0, 7, 0x10, Some(busy)) {
        ZcanStep::Done(report) => report,
        other => panic!("unexpected: {other:?}"),
    };
    assert_eq!((report.driver_errors, report.connection_lost), (1, false));
    let mut frames = Vec::new();
    bus.take_error_frames(&mut frames);
    assert_eq!(frames.len(), 1);
    assert_eq!(frames[0].data, vec![0, 0, 0, 9, 0x10, 0, 0, 0]);
    assert!(frames[0].error);
    match bus.after_errors(0, 8, 0x10, Some(busy)) {
        ZcanStep::Done(report) => assert_eq!(report.driver_errors, 0),
        other => panic!("unexpected: {other:?}"),
    }
    let off = bus.after_errors(0, 9, 0x20, None);
    let report = match off {
        ZcanStep::Recover(report) => report,
        other => panic!("unexpected: {other:?}"),
    };
    let told = ZcanFdBus::after_recovery(report, true).message.unwrap();
    assert!(told.ends_with("；已自动复位并重新启动通道"), "{told}");
    assert!(matches!(bus.after_errors(5, 9, 0x20, None), ZcanStep::Done(_)));
    assert!(matches!(bus.after_errors(1_000_000_000, 9, 0x20, None), ZcanStep::Recover(_)));
}

#[test]
fn zlg_devices_can_be_offline() {
    let bus = zcan();
    assert!(matches!(bus.after_online(DriverCall::Returned(1)), ZcanStep::QueryErrors));
    match bus.after_online(DriverCall::Returned(0)) {
        ZcanStep::Done(report) => {
            assert!(report.connection_lost);
            assert_eq!(report.message.as_deref(), Some("ZLG 设备离线或 USB 已断开"));
        }
        other => panic!("unexpected: {other:?}"),
    }
    assert_eq!(
        open_check(ZcanOpenCheck::Started(0)).unwrap_err(),
        "ZCAN_StartCAN 失败"
    );
    assert_eq!(
        open_check(ZcanOpenCheck::Initialized(false)).unwrap_err(),
        "ZCAN_InitCAN 失败"
    );
    assert!(open_check(ZcanOpenCheck::Online(0)).is_err());
    assert!(open_check(ZcanOpenCheck::Online(1)).is_ok());
    assert_eq!(receive_request(0), Some(0));
    assert_eq!(receive_request(u32::MAX), None);
    assert_eq!(receive_request(300), Some(256));
    let health = PollReport { message: Some("m".to_string()), ..PollReport::default() };
    assert_eq!(transmit_error("ZCAN_Transmit", health), "ZCAN_Transmit 失败；m");
}

fn opened(next: ZcanOpenNext) -> ZcanCall {
    match next {
        ZcanOpenNext::Call(call) => call,
        other => panic!("unexpected: {other:?}"),
    }
}

fn refused(next: ZcanOpenNext) -> String {
    match next {
        ZcanOpenNext::Failed(text) => text,
        other => panic!("unexpected: {other:?}"),
    }
}

#[test]
fn zlg_channels_are_opened_call_by_call() {
    let opening = ZcanFdBus::open(&device("USBCANFD-200U")).unwrap();
    let mut calls = vec![opening.begin()];
    loop {
        match opening.after_call(*calls.last().unwrap(), DriverCall::Returned(1)) {
            ZcanOpenNext::Call(next) => calls.push(next),
            ZcanOpenNext::Opened => break,
            other => panic!("unexpected: {other:?}"),
        }
    }
    assert_eq!(
        calls,
        vec![
            ZcanCall::SetProperty(0),
            ZcanCall::SetProperty(1),
            ZcanCall::SetProperty(2),
            ZcanCall::SetProperty(3),
            ZcanCall::Initialize,
            ZcanCall::Reset,
            ZcanCall::Clear,
            ZcanCall::Terminate,
            ZcanCall::Start,
            ZcanCall::ClearStarted,
            ZcanCall::QueryOnline,
        ]
    );
    let classic = ZcanFdBus::open(&device("USBCAN-E-U")).unwrap();
    let read = opened(classic.after_call(classic.begin(), DriverCall::Returned(1)));
    assert_eq!(read, ZcanCall::ReadRate);
    assert_eq!(
        opened(classic.after_call(ZcanCall::Clear, DriverCall::Returned(0))),
        ZcanCall::Start
    );
}

#[test]
fn zlg_channels_fail_to_open() {
    let opening = ZcanFdBus::open(&device("USBCANFD-200U")).unwrap();
    let missing = || DriverCall::Missing("gone".to_string());
    let zero = || DriverCall::Returned(0);
    assert_eq!(
        opened(opening.after_call(ZcanCall::SetProperty(0), zero())),
        ZcanCall::SetProperty(1)
    );
    assert_eq!(
        refused(opening.after_call(ZcanCall::SetProperty(2), zero())),
        "设置 canfd_abit_baud_rate=500000 失败"
    );
    assert_eq!(
        refused(opening.after_call(ZcanCall::SetProperty(0), missing())),
        "ZCAN_SetValue 未找到: gone"
    );
    assert_eq!(refused(opening.after_call(ZcanCall::Initialize, zero())), "ZCAN_InitCAN 失败");
    assert_eq!(
        refused(opening.after_call(ZcanCall::Initialize, missing())),
        "ZCAN_InitCAN 未找到: gone"
    );
    assert_eq!(
        opened(opening.after_call(ZcanCall::Reset, missing())),
        ZcanCall::Clear
    );
    assert_eq!(
        refused(opening.after_call(ZcanCall::Start, missing())),
        "ZCAN_StartCAN 未找到: gone"
    );
    let reset = opened(opening.after_call(ZcanCall::Start, zero()));
    assert_eq!(reset, ZcanCall::ResetUnstarted);
    assert_eq!(
        refused(opening.after_call(reset, DriverCall::Returned(1))),
        "ZCAN_StartCAN 失败"
    );
    assert_eq!(
        refused(opening.after_call(ZcanCall::QueryOnline, zero())),
        "ZLG 设备打开后报告离线，请检查 USB、驱动和设备占用状态"
    );
    assert!(matches!(
        opening.after_call(ZcanCall::QueryOnline, missing()),
        ZcanOpenNext::Opened
    ));
}

#[test]
fn zlg_recoveries_make_all_three_calls() {
    for failing in 0..4 {
        let report = PollReport { message: Some("m".to_string()), ..PollReport::default() };
        let mut recovery = ZcanRecovery::begin(report);
        let mut made = Vec::new();
        let done = loop {
            let answer = if made.len() == failing {
                DriverCall::Missing("gone".to_string())
            } else {
                DriverCall::Returned(1)
            };
            made.push(recovery.call);
            match recovery.answered(answer) {
                RecoveryNext::Call(next) => recovery = next,
                RecoveryNext::Done(report) => break report,
            }
        };
        assert_eq!(made, vec![RecoveryCall::Reset, RecoveryCall::Clear, RecoveryCall::Start]);
        let expected = if failing == 3 {
            "m；已自动复位并重新启动通道"
        } else {
            "m；自动恢复失败，请断开设备后重新连接"
        };
        assert_eq!(done.message.as_deref(), Some(expected));
    }
}

#[test]
fn zlg_messages_become_frames() {
    let mut bus = zcan();
    let mut out = Vec::new();
    let classic = ZcanReceiveData {
        frame: CanFrameC {
            can_id: 0x8000_0123,
            can_dlc: 2,
            pad: 0,
            res0: 0,
            res1: 0,
            data: [5, 6, 7, 8, 0, 0, 0, 0],
        },
        timestamp: 10,
    };
    bus.received_classic(&[classic], 1_000_000, &mut out);
    let fd = ZcanReceiveFdData {
        frame: CanfdFrameC {
            can_id: 0x55,
            len: 64,
            flags: 1,
            res0: 0,
            res1: 0,
            data: [3; 64],
        },
        timestamp: 12,
    };
    bus.received_fd(&[fd], 1_000_000, &mut out);
    assert_eq!((out[0].id, out[0].ext, out[0].fd), (0x123, true, false));
    assert_eq!(out[0].data, vec![5, 6]);
    assert_eq!((out[1].fd, out[1].brs, out[1].data.len()), (true, true, 64));
    assert_eq!(out[1].t - out[0].t, 2_000);
}

#[test]
fn scanned_devices_are_listed_once() {
    let info = ZcanDeviceInfo {
        hw_version: 0,
        fw_version: 0,
        driver_version: 0,
        interface_version: 0,
        irq_num: 0,
        can_num: 1,
        serial_number: [b'7'; 20],
        hardware_type: [0; 40],
        reserved: [0; 4],
    };
    let scan = |name: &str| ZcanScan {
        profile: zcan_profile(name).unwrap(),
        device_index: 0,
        info,
    };
    let found = zcan_attached_channels(&[scan("USBCAN1"), scan("USBCAN2")], vec![]);
    assert_eq!(found.len(), 1);
    assert_eq!(found[0].device_type, "USBCAN1");
    assert_eq!(found[0].hardware_label, "USBCAN1");
}

// ---------------------------------------------------------------- PCAN

#[test]
fn fd_messages_of_the_driver_become_frames() {
    let mut clock = HardwareTimebase::new(1_000, None);
    let mut out = Vec::new();
    let read = |status: u32| PcanFdRead {
        status,
        msg: TPCANMsgFD { id: 1, msgtype: 0x0C, dlc: 9, data: [4; 64] },
        ts: 3,
    };
    let report = poll_fd(&[read(0), read(0x20)], &mut clock, 0, &mut out);
    assert!(!report.connection_lost && report.message.is_none());
    assert_eq!(out.len(), 1);
    assert_eq!((out[0].fd, out[0].brs, out[0].data.len()), (true, true, 12));
    let lost = poll_fd(&[read(0x1400)], &mut clock, 0, &mut out);
    assert!(lost.connection_lost);
    let missing = missing_entry_report("CAN_Read", "gone");
    assert!(missing.connection_lost);
    assert_eq!(missing.message.as_deref(), Some("找不到 CAN_Read: gone"));
    assert!(retried_fd(0x51, "n".to_string(), 0x1400, 0).unwrap().is_fd);
    assert!(retried_fd(0x51, "n".to_string(), 0x1400, 1).is_err());
}

// ---------------------------------------------------------------- sending

#[test]
fn sequences_count_up() {
    let mut data = vec![0x01, 0xFF];
    increment_frame_data(&mut data);
    let mut f = frame(&data);
    advance_sequence_frame(&mut f, 1, true, false);
    assert_eq!(f.id, 0);
    assert_eq!(f.data, data);
    assert_eq!(not_connected(3), "CAN 通道 3 未连接");
    assert_eq!((effective_channel(0), effective_channel(9)), (1, 9));
    assert!(ota_response_id_matches(OtaResponseId::WildcardBase(0x100), 0x1AB));
    assert!(!ota_response_id_matches(OtaResponseId::Exact(0x100), 0x1AB));
}

#[test]
fn controllers_count_and_forget_jobs() {
    let mut controller = Controller::new();
    controller.first_opened(Ok("A".to_string()));
    controller.command(
        Cmd::SetPeriodic { handle: 1, frame: frame(&[]), period_ms: 5, repeat: 1, enable: true },
        0,
        0,
    );
    assert_eq!(controller.periodic_sent(1), Some((1, true)));
    assert_eq!(controller.periodics.value_at(0).remaining, 0);
    assert_eq!(controller.periodics.value_at(0).sent, 1);
    assert_eq!(controller.periodic_sent(2), None);
    controller.periodic_done(1);
    assert!(controller.periodics.is_empty());
    let config = |repeat: i64| {
        Some(DynamicPeriodicConfig {
            frame: frame(&[]),
            dbc_id: 0,
            period_ms: 5,
            repeat,
            start_sent: 0,
        })
    };
    controller.command(Cmd::SetDynamicPeriodic { handle: 2, config: config(-1) }, 0, 0);
    assert_eq!(controller.dynamics.len(), 1);
    controller.command(Cmd::SetDynamicPeriodic { handle: 2, config: config(0) }, 0, 0);
    assert!(controller.dynamics.is_empty());
    controller.command(Cmd::SetDynamicPeriodic { handle: 2, config: config(3) }, 0, 0);
    controller.dynamic_done(2);
    assert!(controller.dynamics.is_empty());
    assert_eq!(controller.send_failed(1, "h: ", "e", 0).as_deref(), Some("h: e"));
    assert_eq!(controller.send_failed(1, "h: ", "e", 1), None);
    assert!(!controller.health_report_due(0));
    assert!(!controller.health_report_due(249_999_999));
    assert!(controller.health_report_due(250_000_000));
    assert!(!controller.health_report_due(250_000_001));
    assert_eq!((controller.pause_millis(false), controller.pause_millis(true)), (10, 1));
    controller.shutdown();
    assert!(controller.links.is_empty());
}

#[test]
fn simulated_signals_come_due() {
    let generator = |signal: &str| SimSignalGenerator {
        signal: signal.to_string(),
        mode: SimGeneratorMode::Constant { value: 0 },
        period_ms: 1,
    };
    let config = |signal: &str| SimPeriodicConfig {
        frame: frame(&[7, 8]),
        has_dbc: false,
        dbc_id: 0,
        generators: vec![generator(signal)],
    };
    let mut sim = SimPeriodic::start(config(""), 0);
    assert!(matches!(sim.next_signal(0, 0), SimStep::FirstByte { index: 0, tick: 0 }));
    assert!(matches!(sim.next_signal(1, 0), SimStep::Done));
    assert!(matches!(sim.next_signal(0, 9_999_999), SimStep::Done));
    assert!(matches!(sim.next_signal(0, 10_000_000), SimStep::FirstByte { index: 0, tick: 1 }));
    sim.set_first_byte(1);
    assert_eq!(sim.frame.data, vec![1, 8]);
    sim.set_payload(vec![9]);
    assert_eq!(sim.frame.data, vec![9]);
    let mut named = SimPeriodic::start(config("Speed"), 0);
    assert!(matches!(named.next_signal(0, 0), SimStep::NoDatabase));
    assert_eq!(no_database_message(), "DBC signal generator has no DBC database");
}

// ---------------------------------------------------------------- Modbus

#[test]
fn tables_are_read_and_written_in_blocks() {
    let mut store = DataStore::new();
    assert!(put_words(&mut store.holding, 65_534, &[1, 2]).is_ok());
    assert_eq!(
        put_words(&mut store.holding, 65_535, &[1, 2]),
        Err(ExceptionCode::IllegalDataAddress)
    );
    assert_eq!(read_words(&store.holding, 65_534, 2), Ok(vec![1, 2]));
    assert!(read_words(&store.holding, 65_535, 2).is_err());
    assert_eq!(read_bits(&store.coils, 0, 2), Ok(vec![false, false]));
    assert_eq!(window_u16(&store.holding, 65_535, 9), vec![2]);
    apply_edit(&mut store, Area::Coils, 4, Some(true), None);
    assert!(store.coils[4]);
    assert!(is_write(&Request::WriteSingleCoil(0, true)));
    assert!(!is_write(&Request::ReadCoils(0, 1)));
}

#[test]
fn codes_and_indices_have_names() {
    assert_eq!(modbus_exc_name(2), "Illegal Data Address");
    assert_eq!(modbus_exc_name(77), "?");
    assert_eq!(u16be(&[0, 0x12, 0x34], 1), 0x1234);
    assert_eq!(pdu_u16(&[0x12, 0x34], 0), Some(0x1234));
    assert_eq!(pdu_u16(&[0x12, 0x34], 1), None);
    assert_eq!(ExceptionCode::IllegalFunction.debug_name(), "IllegalFunction");
    assert_eq!(Response::ReadCoils(vec![]).function_code(), 1);
    assert_eq!(func_area_be(0), Area::Coils);
    assert_eq!(SimMode::from_index(99), SimMode::Off);
    assert_eq!(WriteFunc::from_index(0), WriteFunc::SingleCoil);
    assert!(traffic_line(true, &[1, 3, 0, 0, 0, 1, 0x84, 0x0A], false, "|").contains("01 03"));
}

#[test]
fn answers_are_described() {
    assert!(flatten_unit(&Reply::Regs(vec![])).is_ok());
    assert_eq!(flatten_unit(&Reply::Timeout).unwrap_err(), "Timeout");
    assert!(flatten_unit(&Reply::Exception(ExceptionCode::IllegalDataValue)).is_err());
    assert_eq!(describe_poll("FC03", &PollData::Regs(vec![1, 2])), "Read FC03 ×2");
    assert!(matches!(
        probe_request(Area::InputRegisters, 9),
        Request::ReadInputRegisters(9, 1)
    ));
    let row = scan_row("@5".to_string(), &Err(ScanErr::Timeout), 0);
    assert_eq!((row.dir.as_str(), row.text.as_str()), ("…", "@5: no response"));
}

// ---------------------------------------------------------------- order and scripts

#[test]
fn rows_with_equal_ranks_keep_their_order() {
    let chars = |s: &str| s.chars().collect::<Vec<char>>();
    assert!(comes_before(&chars("ab"), &chars("abc")));
    assert!(!comes_before(&chars("b"), &chars("abc")));
    let ranks = vec![(2, chars("")), (1, chars("b")), (1, chars("a")), (2, chars(""))];
    assert_eq!(arrange(&ranks, false), vec![2, 1, 0, 3]);
}

#[test]
fn scripts_start_and_load_databases() {
    assert!(matches!(start_capture(true), IpcStep::Submit(Cmd::Start)));
    assert!(matches!(start_capture(false), IpcStep::Reply(IpcReply::Refused { .. })));
    let mut paths = Vec::new();
    let (reply, line) = load_database(&mut paths, "a.dbc".to_string(), Ok("A".to_string()));
    assert!(matches!(reply, IpcReply::Database { loaded: true, name, note: None } if name == "A"));
    assert_eq!(line.as_deref(), Some("脚本加载 DBC: A"));
    let (reply, line) = load_database(&mut paths, "a.dbc".to_string(), Err("x".to_string()));
    assert!(matches!(
        reply,
        IpcReply::Database { loaded: false, name, note: Some("已加载") } if name == "a.dbc"
    ));
    assert_eq!(line, None);
    let (reply, _) = load_database(&mut paths, "b.dbc".to_string(), Err("x".to_string()));
    assert!(matches!(reply, IpcReply::Refused { code: "LOAD_FAIL", msg } if msg == "x"));
    assert_eq!(paths, vec!["a.dbc".to_string()]);
    match stop_internal_periodic(5) {
        Cmd::SetPeriodic { handle, frame, period_ms, repeat, enable } => {
            assert_eq!((handle, period_ms, repeat, enable), (5, 1, -1, false));
            assert_eq!((frame.ch, frame.tx, frame.data.len()), (1, true, 0));
        }
        other => panic!("unexpected: {other:?}"),
    }
}

#[test]
fn short_decisions_of_the_workbench() {
    let (baud, cfg) = device_in_use(&[device("PCAN"), device("GCAN")]).unwrap();
    assert_eq!((baud.as_str(), cfg.device_type.as_str()), ("500K", "PCAN"));
    assert!(device_in_use(&[]).is_none());
    assert!(recording_complete(Some(7), &[3, 4]));
    assert!(!recording_complete(Some(6), &[3, 4]));
    assert!(!recording_complete(None, &[]));
    assert_eq!(
        recording_outcome(false),
        Err("recording incomplete: see report.json".to_string())
    );
    assert!(retained_channels(false, &[]).is_none());
    assert!(retained_channels(true, &[]).unwrap().is_empty());
    assert_eq!(choice_rows(&[]), vec!["(无 DBC 信号)".to_string()]);
}

#[test]
fn scripts_connect_with_a_licence() {
    assert!(matches!(
        connect_configured(&[device("PCAN")], true),
        IpcReply::Connecting { channels: 1, expected } if expected == vec![1]
    ));
    assert!(matches!(
        connect_configured(&[], false),
        IpcReply::Refused { .. }
    ));
    assert!(connect_refusal(&[device("PCAN")], true).is_none());
    assert!(matches!(
        connect_refusal(&[], true),
        Some(IpcReply::Refused { code: "BAD_ARG", .. })
    ));
    assert_eq!(queued_line("a.asc", 3), "File send queued: a.asc, total 3 frames");
}

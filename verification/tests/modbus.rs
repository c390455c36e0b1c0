//! Tests of the Modbus side.
use pcanwork::modbus::adu::{
    build_datagram, fc_name, modbus_crc16, parse_datagram, parse_modbus_adu, MbapReassembler,
};
use pcanwork::modbus::axis::{axis_range, series_heads};
use pcanwork::modbus::chart::{ChartRow, ChartState};
use pcanwork::modbus::commands::{
    export_chart, plan_write, MasterAction, MasterHandle, MasterMsg, Sent, WriteReq, WriteValue,
};
use pcanwork::modbus::csv::{build_server_csv, csv_field};
use pcanwork::modbus::datalog::{LogCfg, LogValue, Logger};
use pcanwork::modbus::grid::{
    argb_to_color, build_grid, master_grid, poll_values, refresh_names, slave_grid, slave_window,
    DerivedValue, DisplayRow, PollData, SlaveView,
};
use pcanwork::modbus::log::{civil_date, hms_text, push_log, timestamp_text};
use pcanwork::modbus::master::{
    connecting_status, poll_request, poll_result, MasterNotice, MasterState, PollErr, ReadDef,
    Reply,
};
use pcanwork::modbus::pdu::{
    decode_server_request_pdu, encode_server_response_pdu, ExceptionCode, Request, Response,
};
use pcanwork::modbus::scan::{probe, slave_range, Scan, ScanKind, ScanTarget};
use pcanwork::modbus::sim::{apply_sim, bump_one, sim_regs, step_value, Xorshift};
use pcanwork::modbus::slave::{
    bind_error_message, serve_datagram, BindErrorKind, SlaveEvent, SlaveService,
};
use pcanwork::modbus::span::{
    advance_items, validate_read_definition, validate_span, validate_write_items,
};
use pcanwork::modbus::store::{describe_request, handle_request, DataStore};
use pcanwork::modbus::traffic::{traffic_channel, LossCounts, TrafficMonitor};
use pcanwork::modbus::updater::{SlaveAction, SlaveEvents, SlaveHandle, SlaveMsg, SlaveUpdater};
use pcanwork::modbus::windows::{
    export_windows, file_result, serial_builder, start_backend, Cmd, SerialParity, ShownRow,
    ShownWindow, Transport, UiCfg, WinEffect, Windows,
};
use pcanwork::modbus::{Area, SimCfg, SimMode, WriteFunc, WriteItem};
use pcanwork::table::Table;

fn bind_kind(error: &std::io::Error) -> BindErrorKind {
    match error.kind() {
        std::io::ErrorKind::AddrNotAvailable => BindErrorKind::AddrNotAvailable,
        std::io::ErrorKind::AddrInUse => BindErrorKind::AddrInUse,
        std::io::ErrorKind::PermissionDenied => BindErrorKind::PermissionDenied,
        _ => BindErrorKind::Other,
    }
}

fn bind_message(host: &str, port: u16, error: &std::io::Error, english: bool) -> String {
    bind_error_message(
        host,
        port,
        bind_kind(error),
        error.raw_os_error(),
        &error.to_string(),
        english,
    )
}

#[test]
fn bind_error_explains_unavailable_windows_address_in_both_languages() {
    let error = std::io::Error::from_raw_os_error(10049);
    let zh = bind_message("192.168.1.110", 502, &error, false);
    let en = bind_message("192.168.1.110", 502, &error, true);
    assert!(zh.contains("当前不能用于监听"));
    assert!(zh.contains("网卡可能未连接"));
    assert!(zh.contains("IP 地址尚未生效"));
    assert!(zh.contains("0.0.0.0"));
    assert!(en.contains("not currently available for listening"));
    assert!(en.contains("network adapter may be disconnected"));
    assert!(en.contains("IP address may not be active yet"));
    assert!(en.contains("0.0.0.0"));
}

#[test]
fn bind_error_explains_port_conflict() {
    let error = std::io::Error::new(std::io::ErrorKind::AddrInUse, "in use");
    assert!(bind_message("0.0.0.0", 502, &error, false).contains("端口 502"));
    assert!(bind_message("0.0.0.0", 502, &error, true).contains("port 502"));
}

#[test]
fn bind_errors_without_a_special_cause_are_quoted() {
    assert_eq!(
        bind_error_message("::1", 5020, BindErrorKind::Other, None, "odd", true),
        "Start failed: cannot listen on ::1:5020 (odd)."
    );
    assert_eq!(
        bind_error_message("h", 1, BindErrorKind::PermissionDenied, Some(13), "no", true),
        "Start failed: permission denied while listening on h:1."
    );
}

#[test]
fn protocol_spans_enforce_modbus_limits_and_address_space() {
    assert!(validate_read_definition(Area::Coils, 0, 2000).is_ok());
    assert!(validate_read_definition(Area::Coils, 0, 2001).is_err());
    assert!(validate_read_definition(Area::HoldingRegisters, 0, 125).is_ok());
    assert!(validate_read_definition(Area::HoldingRegisters, 0, 126).is_err());
    assert!(validate_read_definition(Area::HoldingRegisters, 65_535, 2).is_err());
    assert!(validate_span(0, 1968, 1968, "FC15").is_ok());
    assert!(validate_span(0, 1969, 1968, "FC15").is_err());
    assert!(validate_span(0, 123, 123, "FC16").is_ok());
    assert!(validate_span(0, 124, 123, "FC16").is_err());
}

#[test]
fn mbap_reassembler_handles_split_and_sticky_frames() {
    let first = [
        0x00, 0x01, 0x00, 0x00, 0x00, 0x06, 0x01, 0x03, 0x00, 0x00, 0x00, 0x01,
    ];
    let second = [
        0x00, 0x02, 0x00, 0x00, 0x00, 0x06, 0x01, 0x03, 0x00, 0x01, 0x00, 0x01,
    ];

    let mut split = MbapReassembler::default();
    assert!(split.push(&first[..5]).is_empty());
    assert_eq!(split.push(&first[5..]), vec![first.to_vec()]);

    let mut sticky = MbapReassembler::default();
    let mut joined = first.to_vec();
    joined.extend_from_slice(&second);
    assert_eq!(sticky.push(&joined), vec![first.to_vec(), second.to_vec()]);
}

#[test]
fn multiple_write_rejects_non_contiguous_addresses() {
    let items = [
        WriteItem {
            address: 100,
            value: 1,
            inc: false,
        },
        WriteItem {
            address: 102,
            value: 3,
            inc: false,
        },
    ];
    assert!(validate_write_items(WriteFunc::MultiRegs, &items).is_err());
    assert!(validate_write_items(WriteFunc::SingleReg, &items).is_ok());
}

#[test]
fn server_csv_export() {
    let mut store = DataStore::new();
    store.holding[0] = 28;
    store.holding[5] = 1000;
    store.coils[2] = true;
    let mut names: Table<String> = Table::new();
    names.insert(0, "Temp".to_string());
    let csv = build_server_csv(&store, &names);
    assert_eq!(
        csv.lines().next().unwrap(),
        "Import,Function,Address,Name,Value"
    );
    assert!(csv.contains("yes,Coils,2,,1"), "{csv}");
    assert!(csv.contains("yes,HoldingRegisters,0,Temp,28"), "{csv}");
    assert!(csv.contains("yes,HoldingRegisters,5,,1000"), "{csv}");
    assert!(
        csv.lines().count() < 50,
        "filtered empties, got {}",
        csv.lines().count()
    );
    assert!(
        !csv.contains("yes,HoldingRegisters,6,"),
        "空寄存器不应导出\n{csv}"
    );
}

#[test]
fn csv_address_lenient() {
    assert_eq!(
        Area::from_csv_name("HoldingRegisters"),
        Some(Area::HoldingRegisters)
    );
    assert_eq!(Area::from_csv_name("coils"), Some(Area::Coils));
    assert_eq!(Area::from_csv_name("4x"), Some(Area::HoldingRegisters));
    assert_eq!(Area::from_csv_name("9"), None);
}

#[test]
fn modbus_adu_parsing() {
    let req = [
        0x00, 0x01, 0x00, 0x00, 0x00, 0x06, 0x01, 0x03, 0x00, 0x00, 0x00, 0x0A,
    ];
    let s = parse_modbus_adu(true, &req, true).unwrap();
    assert!(s.contains("TID=1") && s.contains("U=1") && s.contains("FC03"));
    assert!(s.contains("addr=0") && s.contains("qty=10"), "{s}");
    let resp = [
        0x00, 0x01, 0x00, 0x00, 0x00, 0x07, 0x01, 0x03, 0x04, 0x12, 0x34, 0x56, 0x78,
    ];
    let s = parse_modbus_adu(false, &resp, true).unwrap();
    assert!(s.contains("FC03") && s.contains("bytes=4"), "{s}");
    let exc = [0x00, 0x01, 0x00, 0x00, 0x00, 0x03, 0x01, 0x83, 0x02];
    let s = parse_modbus_adu(false, &exc, true).unwrap();
    assert!(
        s.contains("Exception 02") && s.contains("Illegal Data Address"),
        "{s}"
    );
    let rtu = [0x01, 0x03, 0x00, 0x00, 0x00, 0x0A, 0xC5, 0xCD];
    let s = parse_modbus_adu(true, &rtu, false).unwrap();
    assert!(
        !s.contains("TID") && s.contains("U=1") && s.contains("addr=0") && s.contains("qty=10"),
        "{s}"
    );
    assert!(parse_modbus_adu(true, &[0x00, 0x01], true).is_none());
}

#[test]
fn handle_request_bounds() {
    let mut store = DataStore::new();
    let r = handle_request(&mut store, &Request::ReadHoldingRegisters(65535, 5));
    assert!(matches!(r, Err(ExceptionCode::IllegalDataAddress)));
}

#[test]
fn mask_write_and_read_write_multiple() {
    let mut store = DataStore::new();
    store.holding[5] = 0x00F2;
    let r = handle_request(&mut store, &Request::MaskWriteRegister(5, 0x00FF, 0xFF00));
    assert!(r.is_ok());
    assert_eq!(store.holding[5], 0xFFF2);

    let r = handle_request(
        &mut store,
        &Request::ReadWriteMultipleRegisters(0, 3, 0, vec![10, 20, 30]),
    );
    match r {
        Ok(Response::ReadWriteMultipleRegisters(v)) => assert_eq!(v, vec![10, 20, 30]),
        other => panic!("unexpected: {other:?}"),
    }
}

#[test]
fn sim_increment_wraps() {
    let mut store = DataStore::new();
    store.holding[0] = 8;
    let cfg = SimCfg {
        mode: SimMode::Increment,
        area: Area::HoldingRegisters,
        address: 0,
        quantity: 1,
        step: 5,
        min: 0,
        max: 10,
        interval_ms: 100,
        target: -1,
    };
    let mut rng = Xorshift::new(1);
    apply_sim(&mut store, &cfg, &mut rng);
    assert_eq!(store.holding[0], 0);
    apply_sim(&mut store, &cfg, &mut rng);
    assert_eq!(store.holding[0], 5);
}

#[test]
fn write_item_inc_wraps() {
    let mut items = vec![
        WriteItem {
            address: 0,
            value: 65534,
            inc: true,
        },
        WriteItem {
            address: 1,
            value: 50,
            inc: false,
        },
    ];
    advance_items(&mut items);
    assert_eq!(items[0].value, 65535);
    assert_eq!(items[1].value, 50);
    advance_items(&mut items);
    assert_eq!(items[0].value, 0);
}

#[test]
fn slave_sim_single_register() {
    let mut mem = vec![0u16; 5];
    let cfg = SimCfg {
        mode: SimMode::Increment,
        area: Area::HoldingRegisters,
        address: 1,
        quantity: 4,
        step: 5,
        min: 0,
        max: 100,
        interval_ms: 100,
        target: 3,
    };
    let mut rng = Xorshift::new(3);
    sim_regs(&mut mem, 1, 5, &cfg, &mut rng);
    assert_eq!(mem, vec![0, 0, 0, 5, 0]);
}

#[test]
fn chart_pages_cover_addresses_beyond_the_first_six() {
    let rows: Vec<ChartRow> = (0..25)
        .map(|address| ChartRow {
            address,
            num: Some((address as f64).to_bits()),
        })
        .collect();
    let mut ch = ChartState::new();

    ch.update(&rows);
    ch.update(&rows);
    assert_eq!(ch.total, 25);
    assert_eq!(ch.addrs, (0..12).collect::<Vec<_>>());
    assert_eq!(ch.data.iter().filter(|d| d.len() >= 2).count(), 12);

    assert!(ch.move_page(1));
    ch.update(&rows);
    assert_eq!(ch.page_start, 12);
    assert_eq!(ch.addrs, (12..24).collect::<Vec<_>>());

    assert!(ch.move_page(1));
    ch.update(&rows);
    assert_eq!(ch.page_start, 24);
    assert_eq!(ch.addrs, vec![24]);
    assert!(!ch.move_page(1));

    ch.page_start = 0;
    assert!(ch.focus_address(&rows, 19));
    ch.update(&rows);
    assert_eq!(ch.page_start, 12);
    assert!(ch.addrs.contains(&19));
}

fn sampled(factor: f64) -> ChartState {
    let mut ch = ChartState::new();
    for v in [10.0f64, 20.0, 30.0] {
        ch.update(&[
            ChartRow { address: 0, num: Some(v.to_bits()) },
            ChartRow { address: 1, num: Some((v * factor).to_bits()) },
        ]);
    }
    ch
}

fn shown_range(ch: &ChartState, right: bool) -> Option<(String, String)> {
    let text = |bits: u64| format!("{:.2}", f64::from_bits(bits));
    axis_range(ch, right).map(|(low, high)| (text(low), text(high)))
}

fn range(low: &str, high: &str) -> Option<(String, String)> {
    Some((low.to_string(), high.to_string()))
}

#[test]
fn overlaid_series_share_an_axis_or_have_their_own() {
    let mut ch = sampled(100.0);
    assert_eq!(series_heads(&ch).len(), 2);
    assert_eq!(shown_range(&ch, false), range("10.00", "3000.00"));
    assert_eq!(shown_range(&ch, true), None);
    assert!(series_heads(&ch).iter().all(|h| !h.right));

    ch.set_axis(1, true);
    assert_eq!(shown_range(&ch, false), range("10.00", "30.00"));
    assert_eq!(shown_range(&ch, true), range("1000.00", "3000.00"));
    let heads = series_heads(&ch);
    assert!(!heads[0].right);
    assert!(heads[1].right);
}

#[test]
fn each_register_has_its_own_curve() {
    let mut ch = sampled(2.0);
    assert_eq!(ch.data.len(), 2);
    assert_eq!(ch.data[0].len(), 3);
    let heads = series_heads(&ch);
    assert_eq!(heads.len(), 2);
    assert_eq!((&*heads[0].name, &*heads[1].name), ("@0", "@1"));
    ch.set_axis(1, true);
    assert_eq!(shown_range(&ch, false), range("10.00", "30.00"));
    assert_eq!(shown_range(&ch, true).unwrap().1, "60.00");
}

// ---------------------------------------------------------------- requests and frames

#[test]
fn checksums_have_the_documented_value() {
    assert_eq!(
        modbus_crc16(&[0x01, 0x03, 0x00, 0x00, 0x00, 0x0A]),
        0xCDC5
    );
    assert_eq!(fc_name(16), "Write Multiple Regs");
}

#[test]
fn a_written_register_reads_back_through_a_datagram() {
    let service = SlaveService {
        unit_id: 1,
        tcp: true,
        ignore_unit_id: false,
    };
    let mut store = DataStore::new();
    let mut requests = 0u64;
    let write = build_datagram(Some((0, 9)), 1, &[0x06, 0x00, 0x0C, 0x56, 0x78]);
    let outcome = serve_datagram(&service, &mut store, &mut requests, &write, false);
    assert_eq!(outcome.reply, Some(write.clone()));
    assert_eq!(store.holding[12], 0x5678);
    assert_eq!(requests, 1);
    assert_eq!(outcome.events.len(), 2);
    assert!(matches!(outcome.events[1], SlaveEvent::Changed));

    let read = build_datagram(Some((0, 10)), 1, &[0x03, 0x00, 0x0C, 0x00, 0x01]);
    let outcome = serve_datagram(&service, &mut store, &mut requests, &read, false);
    let reply = parse_datagram(&outcome.reply.unwrap(), false).unwrap();
    assert_eq!(reply.pdu, vec![0x03, 0x02, 0x56, 0x78]);
    assert_eq!(reply.transaction, Some((0, 10)));
}

#[test]
fn serial_datagrams_need_a_good_checksum() {
    let service = SlaveService {
        unit_id: 1,
        tcp: false,
        ignore_unit_id: false,
    };
    let mut store = DataStore::new();
    let mut requests = 0u64;
    let mut frame = build_datagram(None, 1, &[0x03, 0x00, 0x00, 0x00, 0x01]);
    let good = serve_datagram(&service, &mut store, &mut requests, &frame, true);
    assert!(good.reply.is_some());
    frame[2] ^= 1;
    let bad = serve_datagram(&service, &mut store, &mut requests, &frame, true);
    assert!(bad.reply.is_none());
    match &bad.events[0] {
        SlaveEvent::Log { dir, text } => {
            assert_eq!(dir, "ERR");
            assert_eq!(text, "Discarded malformed UDP Modbus frame");
        }
        SlaveEvent::Changed => unreachable!(),
    }
}

#[test]
fn broadcasts_work_in_silence_and_strangers_are_ignored() {
    let service = SlaveService {
        unit_id: 5,
        tcp: false,
        ignore_unit_id: true,
    };
    let mut store = DataStore::new();
    let mut requests = 0u64;
    let request = Request::WriteSingleRegister(3, 77);
    let reply = service.call(&mut store, &mut requests, 0, &request);
    assert!(reply.answer.is_none());
    assert_eq!(store.holding[3], 77);
    let other = Request::WriteSingleRegister(3, 1);
    let reply = service.call(&mut store, &mut requests, 9, &other);
    assert!(reply.answer.is_none());
    assert!(reply.events.is_empty());
    assert_eq!(store.holding[3], 77);
    assert_eq!(requests, 1);
}

#[test]
fn functions_that_are_not_served_are_counted_and_refused() {
    let service = SlaveService { unit_id: 1, tcp: true, ignore_unit_id: false };
    let mut store = DataStore::new();
    let mut requests = 0u64;
    let request = Request::Unserved("ReadExceptionStatus".to_string());
    let reply = service.call(&mut store, &mut requests, 1, &request);
    assert!(matches!(reply.answer, Some(Err(ExceptionCode::IllegalFunction))));
    assert_eq!(requests, 1);
    let lines: Vec<(String, String)> = reply
        .events
        .into_iter()
        .map(|e| match e {
            SlaveEvent::Log { dir, text } => (dir, text),
            SlaveEvent::Changed => unreachable!(),
        })
        .collect();
    assert_eq!(lines[0], ("RX".to_string(), "ReadExceptionStatus".to_string()));
    assert_eq!(lines[1], ("ERR".to_string(), "Exception: IllegalFunction".to_string()));
    let reply = service.call(&mut store, &mut requests, 2, &request);
    assert!(reply.answer.is_none());
    assert_eq!(requests, 1);
}

#[test]
fn refused_requests_are_told() {
    let service = SlaveService {
        unit_id: 1,
        tcp: true,
        ignore_unit_id: false,
    };
    let mut store = DataStore::new();
    let mut requests = 0u64;
    let request = Request::ReadCoils(65535, 2);
    let reply = service.call(&mut store, &mut requests, 1, &request);
    assert!(matches!(
        reply.answer,
        Some(Err(ExceptionCode::IllegalDataAddress))
    ));
    match &reply.events[1] {
        SlaveEvent::Log { text, .. } => assert_eq!(text, "Exception: IllegalDataAddress"),
        SlaveEvent::Changed => unreachable!(),
    }
    assert_eq!(describe_request(&request), "Read Coils @65535 ×2");
}

#[test]
fn units_are_decoded_and_encoded() {
    assert!(matches!(
        decode_server_request_pdu(&[0x05, 0x00, 0x01, 0xFF, 0x00]),
        Ok(Request::WriteSingleCoil(1, true))
    ));
    assert!(matches!(
        decode_server_request_pdu(&[0x05, 0x00, 0x01, 0x12, 0x34]),
        Err(ExceptionCode::IllegalDataValue)
    ));
    assert!(matches!(
        decode_server_request_pdu(&[0x63]),
        Err(ExceptionCode::IllegalFunction)
    ));
    assert_eq!(
        encode_server_response_pdu(3, Err(ExceptionCode::IllegalFunction)),
        vec![0x83, 0x01]
    );
    assert_eq!(
        encode_server_response_pdu(1, Ok(Response::ReadCoils(vec![true, false, true]))),
        vec![0x01, 0x01, 0x05]
    );
}

// ---------------------------------------------------------------- simulation

#[test]
fn simulated_values_move_as_set() {
    let mut rng = Xorshift::new(0);
    assert_eq!(rng.state, 1);
    assert_eq!(step_value(3, SimMode::Decrement, 5, 0, 10, &mut rng), 10);
    assert_eq!(step_value(0, SimMode::Toggle, 1, 0, 10, &mut rng), 10);
    assert_eq!(step_value(7, SimMode::Off, 1, 0, 10, &mut rng), 7);
    assert_eq!(step_value(7, SimMode::Increment, 5, i64::MIN, i64::MAX, &mut rng), 12);
    let mut other = Xorshift { state: 1 };
    let drawn = other.next();
    let mut again = Xorshift { state: 1 };
    let expected = (i64::MIN as i128 + drawn as i128) as u16;
    assert_eq!(step_value(7, SimMode::Random, 1, i64::MIN, i64::MAX, &mut again), expected);
    let drawn = step_value(7, SimMode::Random, 1, 5, 6, &mut rng);
    assert!(drawn == 5 || drawn == 6);
    let mut store = DataStore::new();
    store.holding[0] = 65535;
    bump_one(&mut store, Area::HoldingRegisters, 0);
    bump_one(&mut store, Area::Coils, 9);
    assert_eq!(store.holding[0], 0);
    assert!(store.coils[9]);
}

fn view(area: Area) -> SlaveView {
    SlaveView {
        area,
        address: 0,
        quantity: 4,
        format: 0,
    }
}

#[test]
fn the_server_obeys_the_user() {
    let mut store = DataStore::new();
    let mut updater = SlaveUpdater::new(view(Area::HoldingRegisters), true, 4);
    assert!(matches!(
        updater.message(
            &mut store,
            SlaveMsg::Edit {
                address: 2,
                bit: None,
                word: Some(9)
            }
        ),
        SlaveAction::Render
    ));
    assert_eq!(store.holding[2], 9);
    updater.message(
        &mut store,
        SlaveMsg::SetName {
            address: 2,
            name: "Speed".to_string(),
        },
    );
    match updater.message(&mut store, SlaveMsg::ExportCsv("out.csv".to_string())) {
        SlaveAction::Write { path, text } => {
            assert_eq!(path, "out.csv");
            assert!(text.contains("yes,HoldingRegisters,2,Speed,9\n"));
        }
        other => panic!("unexpected: {other:?}"),
    }
    updater.message(
        &mut store,
        SlaveMsg::SetName {
            address: 2,
            name: "  ".to_string(),
        },
    );
    assert!(updater.names.find(2).is_none());
    let cfg = SimCfg {
        mode: SimMode::Increment,
        area: Area::HoldingRegisters,
        address: 2,
        quantity: 1,
        step: 1,
        min: 0,
        max: 100,
        interval_ms: 10,
        target: -1,
    };
    assert!(matches!(
        updater.message(&mut store, SlaveMsg::SimStart(cfg)),
        SlaveAction::SimulateEvery(50)
    ));
    assert!(updater.simulate(&mut store));
    assert_eq!(store.holding[2], 10);
    updater.message(&mut store, SlaveMsg::SimStop);
    assert!(!updater.simulate(&mut store));
    updater.message(&mut store, SlaveMsg::ToggleAutoInc { address: 2 });
    assert!(updater.count_up(&mut store));
    assert_eq!(store.holding[2], 11);
    updater.message(&mut store, SlaveMsg::ToggleAutoInc { address: 2 });
    assert!(!updater.count_up(&mut store));
    assert_eq!(store.holding[2], 11);
}

#[test]
fn losses_are_reported_once() {
    let mut updater = SlaveUpdater::new(view(Area::Coils), true, 1);
    let lost = LossCounts {
        dropped: 2,
        dropped_bytes: 30,
        high_watermark: 1024,
    };
    let events = LossCounts {
        dropped: 1,
        dropped_bytes: 0,
        high_watermark: 7,
    };
    let told = updater.log.health_checked(&lost, &events, 61);
    assert_eq!(
        told,
        Some("Slave event queue overflow: dropped 1, H7/1024".to_string())
    );
    assert_eq!(
        updater.log.traffic[0].text,
        "Traffic monitor queue overflow: dropped 2 chunks / 30 bytes, H1024/1024"
    );
    assert_eq!(updater.log.traffic[0].time, "00:01:01");
    assert_eq!(updater.log.health_checked(&lost, &events, 62), None);
    assert!(updater.log.flush_traffic().is_some());
    assert!(updater.log.flush_traffic().is_none());
    assert_eq!(updater.log.flush_lines().unwrap().len(), 1);
}

// ---------------------------------------------------------------- queues

#[test]
fn full_queues_count_what_they_lose() {
    let (mut tx, mut rx) = traffic_channel();
    for _ in 0..1024 {
        tx.send((true, vec![1, 2])).unwrap();
    }
    assert!(tx.send((false, vec![1, 2, 3])).is_err());
    assert_eq!(tx.health.dropped, 1);
    assert_eq!(tx.health.dropped_bytes, 3);
    assert_eq!(tx.health.high_watermark, 1024);
    assert_eq!(rx.try_recv().unwrap(), (true, vec![1, 2]));
    tx.send((false, vec![9])).unwrap();
}

#[test]
fn engines_tell_of_rejected_messages() {
    let (handle, mut rx) = MasterHandle::new();
    assert!(handle.send(MasterMsg::Stop).is_none());
    assert!(matches!(rx.try_recv(), Ok(MasterMsg::Stop)));
    for _ in 0..256 {
        assert!(handle.send(MasterMsg::StopLog).is_none());
    }
    assert_eq!(
        handle.send(MasterMsg::Stop),
        Some("Master control queue full: command rejected".to_string())
    );
    let (server, rx) = SlaveHandle::new();
    drop(rx);
    assert_eq!(
        server.send(SlaveMsg::SimStop),
        Some("Slave control queue full: command rejected".to_string())
    );
    let (mut events, mut event_rx) = SlaveEvents::new();
    assert!(events.send_event(SlaveEvent::Changed));
    assert!(matches!(event_rx.try_recv(), Ok(SlaveEvent::Changed)));
}

#[test]
fn the_command_queue_reports_its_state() {
    let (mut sender, _rx) = start_backend();
    let (outcome, report) = sender.send(Cmd::ScanStop, 1_000);
    assert!(outcome.is_ok());
    assert_eq!(report.unwrap().text, "CMD 1/512 H1 R0");
    let (_, quiet) = sender.send(Cmd::ScanStop, 1_400);
    assert!(quiet.is_none());
    for _ in 0..510 {
        assert!(sender.send(Cmd::SlaveStop, 1_400).0.is_ok());
    }
    let (outcome, report) = sender.send(Cmd::SlaveStop, 1_401);
    assert!(outcome.is_err());
    let report = report.unwrap();
    assert!(report.loss);
    assert_eq!(report.text, "CMD 512/512 H512 R1");
}

#[test]
fn traffic_is_shown_frame_by_frame() {
    let mut monitor = TrafficMonitor::new(true);
    let frame = [
        0x00, 0x01, 0x00, 0x00, 0x00, 0x06, 0x01, 0x03, 0x00, 0x00, 0x00, 0x0A,
    ];
    monitor.recorded(true, frame[..7].to_vec(), 0);
    assert!(monitor.flush().is_none());
    monitor.recorded(true, frame[7..].to_vec(), 3_661);
    let lines = monitor.flush().unwrap();
    assert_eq!(lines.len(), 1);
    assert_eq!(lines[0].dir, "Tx");
    assert_eq!(lines[0].time, "01:01:01");
    assert_eq!(
        lines[0].text,
        "TID=1 U=1 FC03 Read Holding Regs addr=0 qty=10   |   00 01 00 00 00 06 01 03 00 00 00 0A"
    );
}

// ---------------------------------------------------------------- logs

#[test]
fn logs_stay_bounded() {
    let mut log = Vec::new();
    for n in 0..350u64 {
        push_log(&mut log, n, "RX", format!("{n}"), 300);
    }
    assert_eq!(log.len(), 300);
    assert_eq!(log[0].text, "50");
    assert_eq!(log[299].text, "349");
}

#[test]
fn dates_are_those_of_the_calendar() {
    assert_eq!(timestamp_text(0), "1970-01-01 00:00:00");
    assert_eq!(timestamp_text(951_782_400), "2000-02-29 00:00:00");
    assert_eq!(timestamp_text(1_709_251_199), "2024-02-29 23:59:59");
    assert_eq!(timestamp_text(4_107_542_399), "2100-02-28 23:59:59");
    assert_eq!(timestamp_text(4_107_542_400), "2100-03-01 00:00:00");
    let date = civil_date(365);
    assert_eq!((date.year, date.month, date.day), (1971, 1, 1));
    assert_eq!(hms_text(86_399), "23:59:59");
}

fn log_cfg(on_change: bool, timestamp: bool) -> LogCfg {
    LogCfg {
        path: "log.csv".to_string(),
        each_read: true,
        period_s: 1,
        delimiter: ',',
        on_change,
        timestamp,
    }
}

fn log_values(a: f64, b: f64) -> Vec<LogValue> {
    vec![
        LogValue {
            address: 0,
            bits: a.to_bits(),
            text: format!("{a}"),
        },
        LogValue {
            address: 1,
            bits: b.to_bits(),
            text: format!("{b}"),
        },
    ]
}

#[test]
fn polled_values_are_logged_with_a_header() {
    let mut logger = Logger::new(log_cfg(true, false));
    let step = logger.maybe_log(&log_values(1.0, 2.0), 0, 0).unwrap();
    assert_eq!(step.lines, vec!["@0,@1".to_string(), "1,2".to_string()]);
    assert!(step.flush);
    assert!(logger.maybe_log(&log_values(1.0, 2.0), 1, 0).is_none());
    let step = logger.maybe_log(&log_values(1.0, 3.5), 2, 0).unwrap();
    assert_eq!(step.lines, vec!["1,3.5".to_string()]);
    assert!(!step.flush);
}

#[test]
fn logged_zeros_are_equal_and_no_number_is() {
    let mut logger = Logger::new(log_cfg(true, false));
    logger.maybe_log(&log_values(0.0, 1.0), 0, 0).unwrap();
    assert!(logger.maybe_log(&log_values(-0.0, 1.0), 1, 0).is_none());
    logger.maybe_log(&log_values(f64::NAN, 1.0), 2, 0).unwrap();
    assert!(logger.maybe_log(&log_values(f64::NAN, 1.0), 3, 0).is_some());
}

#[test]
fn periods_are_kept_between_lines() {
    let mut cfg = log_cfg(false, true);
    cfg.each_read = false;
    cfg.period_s = 2;
    let mut logger = Logger::new(cfg);
    let step = logger.maybe_log(&log_values(1.0, 2.0), 0, 60).unwrap();
    assert_eq!(step.lines[0], "Timestamp,@0,@1");
    assert_eq!(step.lines[1], "1970-01-01 00:01:00,1,2");
    assert!(logger
        .maybe_log(&log_values(1.0, 2.0), 1_999_999_999, 61)
        .is_none());
    assert!(logger
        .maybe_log(&log_values(1.0, 2.0), 2_000_000_000, 62)
        .is_some());
}

// ---------------------------------------------------------------- grids

fn row(address: i32, argb: u32, label: Option<&str>) -> DisplayRow {
    DisplayRow {
        address,
        value: "5".to_string(),
        raw: "0005".to_string(),
        argb,
        label: label.map(|l| l.to_string()),
        plc_addr: format!("4{:05}", address + 1),
    }
}

#[test]
fn grids_show_names_labels_and_colours() {
    let mut names = Table::new();
    names.insert(1, "Level".to_string());
    let (grid, list) = build_grid(&[row(0, 0, None), row(1, 0xFF61AFEF, Some("ok"))], &names, true);
    assert_eq!(grid[0].name, "");
    assert_eq!(grid[0].hex_addr, "0x0000");
    assert!(!grid[0].colored);
    assert_eq!(grid[1].value, "5 (ok)");
    assert_eq!(grid[1].vcolor, (0xFF, 0x61, 0xAF, 0xEF));
    assert_eq!(list, vec!["".to_string(), "Level".to_string()]);
    assert_eq!(argb_to_color(0x01020304), (1, 2, 3, 4));

    let derived = [
        DerivedValue {
            name: "sum".to_string(),
            value: Some("12".to_string()),
        },
        DerivedValue {
            name: "bad".to_string(),
            value: None,
        },
    ];
    let (grid, list) = master_grid(&[row(0, 0, None)], &names, &derived);
    assert_eq!(grid[1].address, -1);
    assert_eq!(grid[2].address, -2);
    assert_eq!(grid[2].value, "—");
    assert_eq!(list.len(), 3);

    let (grid, _) = slave_grid(
        &[row(0, 0, None), row(1, 0, None)],
        &names,
        Area::Coils,
        &[(Area::Coils, 1), (Area::InputRegisters, 0)],
    );
    assert!(!grid[0].auto_inc);
    assert!(grid[1].auto_inc);
}

#[test]
fn names_are_shown_again_only_where_they_changed() {
    let mut shown = vec!["a".to_string()];
    assert!(!refresh_names(&mut shown, vec!["a".to_string()]));
    assert!(refresh_names(&mut shown, vec!["b".to_string()]));
    assert_eq!(shown, vec!["b".to_string()]);
}

#[test]
fn windows_of_the_tables_end_with_them() {
    let mut store = DataStore::new();
    store.coils[65535] = true;
    let data = slave_window(
        &store,
        &SlaveView {
            area: Area::Coils,
            address: 65534,
            quantity: 9,
            format: 0,
        },
    );
    assert_eq!(poll_values(&data), vec![0, 1]);
}

// ---------------------------------------------------------------- polling windows

fn def() -> ReadDef {
    ReadDef {
        area: Area::HoldingRegisters,
        address: 10,
        quantity: 2,
        scan_ms: 1000,
        poll: true,
    }
}

fn master(reconnect: bool) -> MasterState {
    MasterState::connected(
        "TCP h:502".to_string(),
        None,
        def(),
        0,
        0,
        reconnect,
        10,
        0,
    )
    .0
}

#[test]
fn windows_connect_and_poll() {
    assert_eq!(
        connecting_status("TCP h:502", &def()).unwrap(),
        "Connecting — TCP h:502 …"
    );
    let mut bad = def();
    bad.quantity = 0;
    assert!(connecting_status("x", &bad)
        .unwrap_err()
        .starts_with("Invalid read definition: "));
    let mut state = master(true);
    assert_eq!(state.link.timeout_ms, 1000);
    assert_eq!(state.link.reconnect_ms, 200);
    assert!(matches!(
        poll_request(&state.def),
        Ok(Request::ReadHoldingRegisters(10, 2))
    ));
    let data = match poll_result(Reply::Regs(vec![1, 2])) {
        Ok(data) => data,
        Err(_) => unreachable!(),
    };
    let notices = state.polled(data, "Holding", None, 5);
    assert_eq!(notices.len(), 3);
    assert_eq!((state.counts.tx, state.counts.rx), (1, 1));
    assert_eq!(state.log[0].text, "Read Holding ×2");
    assert!(matches!(state.display.last, Some(PollData::Regs(_))));
}

#[test]
fn failures_of_communication_lead_to_a_new_connection() {
    let mut state = master(true);
    for n in 1..=5u32 {
        let (notices, retry) = state.poll_failed(PollErr::Io("Timeout".to_string()), 0);
        assert_eq!(retry, Some(200));
        assert_eq!(state.counts.consec_fail, n);
        match &notices[1] {
            MasterNotice::Status { text, connected } => {
                assert_eq!(text, &format!("Error — Timeout (连续失败 {n})"));
                assert!(!connected);
            }
            other => panic!("unexpected: {other:?}"),
        }
        assert_eq!(notices.len(), if n == 5 { 4 } else { 3 });
    }
    state.reconnected(Ok(()), 1);
    assert_eq!(state.counts.consec_fail, 0);
    let (_, retry) = state.poll_failed(PollErr::Exception("IllegalFunction".to_string()), 0);
    assert_eq!(retry, None);
    assert_eq!(state.counts.consec_fail, 0);
    state.poll_failed(PollErr::Invalid("x".to_string()), 0);
    assert!(!state.def.poll);
    assert_eq!(state.counts.err, 7);
}

#[test]
fn writes_are_planned_and_told() {
    let (request, line) = plan_write(WriteReq {
        address: 7,
        text: " 70000 ".to_string(),
        value: WriteValue::Encoded(Ok(vec![1, 4464])),
    })
    .unwrap();
    assert!(matches!(request, Request::WriteMultipleRegisters(7, _)));
    assert_eq!(line, "Write 2 regs @7 = 70000");
    assert_eq!(
        plan_write(WriteReq {
            address: 1,
            text: String::new(),
            value: WriteValue::Coil(None),
        })
        .unwrap_err(),
        "invalid coil value (use 0/1/on/off)"
    );
    let mut state = master(false);
    let (action, _) = state.message(
        MasterMsg::MaskWrite {
            address: 4,
            and_mask: 0xF0,
            or_mask: 0x0F,
        },
        0,
    );
    let sent = match action {
        MasterAction::Send { sent, .. } => sent,
        other => panic!("unexpected: {other:?}"),
    };
    state.answered(sent, &Reply::Regs(vec![]), 0);
    assert_eq!(
        state.log[0].text,
        "FC22 Mask write @4: AND=0x00F0 OR=0x000F"
    );
    state.answered(
        Sent::Exchange {
            read_addr: 1,
            read_qty: 2,
            write_addr: 3,
            written: 4,
        },
        &Reply::Regs(vec![0x12, 0xABCD]),
        0,
    );
    assert_eq!(
        state.log[1].text,
        "FC23 wrote 4 @3, read 2@1: 0x0012 0xABCD"
    );
    state.answered(
        Sent::List(3),
        &Reply::Exception(ExceptionCode::IllegalDataValue),
        0,
    );
    assert_eq!(state.log[2].text, "Write list failed: IllegalDataValue");
    assert_eq!((state.counts.tx, state.counts.rx, state.counts.err), (1, 2, 1));
}

#[test]
fn exchanges_beyond_the_limits_are_not_sent() {
    let mut state = master(false);
    let (action, notices) = state.message(
        MasterMsg::ReadWrite {
            read_addr: 0,
            read_qty: 126,
            write_addr: 0,
            write_values: vec![1],
        },
        0,
    );
    assert!(matches!(action, MasterAction::Nothing));
    assert_eq!(notices.len(), 3);
    assert_eq!((state.counts.tx, state.counts.err), (0, 1));
}

#[test]
fn lists_are_written_again_and_again() {
    let mut state = master(false);
    let items = vec![WriteItem {
        address: 5,
        value: 9,
        inc: true,
    }];
    let (action, _) = state.message(
        MasterMsg::AutoWrite {
            func: WriteFunc::SingleReg,
            items,
            interval_ms: 20,
        },
        0,
    );
    assert!(matches!(action, MasterAction::WriteEvery(50)));
    assert_eq!(state.log[0].text, "Auto-write started (1 items, 20 ms)");
    let (action, _) = state.auto_write_due(0);
    match action {
        MasterAction::Send { requests, sent } => {
            assert!(matches!(requests[0], Request::WriteSingleRegister(5, 9)));
            state.answered(sent, &Reply::Regs(vec![]), 0);
        }
        other => panic!("unexpected: {other:?}"),
    }
    assert_eq!(state.auto.items[0].value, 10);
    state.message(MasterMsg::AutoWriteStop, 0);
    assert!(matches!(state.auto_write_due(0).0, MasterAction::Nothing));
}

#[test]
fn curves_are_exported_as_a_table() {
    let text = export_chart(
        &[3, 4],
        &[
            vec!["1".to_string(), "2".to_string()],
            vec!["7".to_string()],
        ],
    );
    assert_eq!(text, "Sample,@3,@4\n0,1,7\n1,2,\n");
}

#[test]
fn scans_do_not_wrap_round() {
    let mut scan = Scan::new(
        ScanKind::Addresses {
            start: 65535,
            count: 3,
        },
        Area::HoldingRegisters,
    );
    assert_eq!(scan.next(), Some(ScanTarget::Address(65535)));
    let status = scan.answered(Reply::Regs(vec![255]), 0);
    assert_eq!(status, "Address scan 1/3 — 1 responded");
    assert_eq!(scan.rows[0].text, "@65535: 0x00FF (255)");
    assert_eq!(scan.next(), None);
    assert_eq!(scan.finished(), "Address scan done — 1 of 3 responded");

    let mut scan = Scan::new(slave_range(3, 2), Area::Coils);
    assert_eq!(scan.next(), Some(ScanTarget::Slave(2)));
    assert_eq!(
        scan.answered(Reply::Timeout, 0),
        "Slave scan 2…3 — 0 responded"
    );
    assert_eq!(scan.rows[0].text, "ID 2: no response");
    assert_eq!(probe(Area::Coils, Reply::Bits(vec![true])).unwrap(), "coil = 1");
}

// ---------------------------------------------------------------- windows

#[test]
fn windows_open_and_close() {
    let mut windows = Windows::new();
    assert_eq!((windows.list[0].cfg.port, windows.list[0].cfg.quantity), (0, 0));
    assert!(windows.list[0].cfg.host.is_empty());
    let mut current = UiCfg::default();
    current.host = "first".to_string();
    let effects = windows.command(Cmd::NewWindow(current));
    assert_eq!(windows.list.len(), 2);
    assert_eq!(windows.list[0].cfg.host, "first");
    assert_eq!(windows.list[1].title, "Poll 2");
    assert_eq!(windows.active, 2);
    assert!(matches!(effects[1], WinEffect::Show(2)));
    assert!(windows.reconcile(&[false, true]));
    assert!(!windows.reconcile(&[false, true]));
    let effects = windows.command(Cmd::Master(MasterMsg::StopLog));
    assert!(effects.is_empty());
    let effects = windows.command(Cmd::CloseWindow { id: 2 });
    assert!(matches!(effects[0], WinEffect::Show(1)));
    assert_eq!(windows.active, 1);
    let effects = windows.command(Cmd::CloseWindow { id: 1 });
    assert!(effects.is_empty());
    assert_eq!(windows.list.len(), 1);
}

#[test]
fn transports_decide_who_is_answered() {
    let tcp = Transport::Tcp {
        host: "h".to_string(),
        port: 502,
    };
    assert!(tcp.is_mbap());
    assert!(tcp.service(1, true).ignore_unit_id);
    assert_eq!(tcp.listening_status("1.2.3.4:502", true), "Listening on 1.2.3.4:502 (TLS)");
    let rtu = Transport::RtuOverTcp {
        host: "h".to_string(),
        port: 502,
    };
    assert!(!rtu.service(1, true).ignore_unit_id);
    assert_eq!(rtu.stopped_status("gone"), "RTU/TCP server stopped: gone");
    let serial = serial_builder(7, 2, 9);
    assert_eq!(serial.data_bits, 7);
    assert_eq!(serial.parity, SerialParity::Odd);
    assert_eq!(serial.stop_bits, 1);
}

#[test]
fn exports_of_windows_quote_their_fields() {
    assert_eq!(csv_field("a,\"b\""), "\"a,\"\"b\"\"\"");
    let windows = [ShownWindow {
        id: 2,
        function: 3,
        rows: vec![
            ShownRow {
                address: 4,
                name: "own".to_string(),
                value: "1,5".to_string(),
            },
            ShownRow {
                address: -1,
                name: "fx".to_string(),
                value: "9".to_string(),
            },
        ],
        names: vec!["given".to_string()],
    }];
    let text = export_windows("active\n", 1, &windows);
    assert_eq!(
        text,
        "Import,Function,Address,Name,Value\nactive\nyes,InputRegisters,4,given,\"1,5\"\nyes,InputRegisters,-1,fx,9\n"
    );
    assert_eq!(export_windows("", 2, &windows), "Import,Function,Address,Name,Value\n");
    assert_eq!(file_result("CSV 导出", "p", None), "CSV 导出成功: p");
    assert_eq!(
        file_result("CSV 导出", "p", Some("full")),
        "CSV 导出失败: p — full"
    );
}

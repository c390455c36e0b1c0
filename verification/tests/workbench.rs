//! Tests of what the windows of the workbench show and decide.
use std::collections::{HashMap, VecDeque};
use std::sync::mpsc::sync_channel;

use crossbeam_channel::bounded;
use pcanwork::can::pcan::PcanChannelInfo;
use pcanwork::can::queue::{CommandHealth, CommandSender};
use pcanwork::ends::{StdInbox, Taken};
use pcanwork::can::zcan_scan::ZcanUsbChannelInfo;
use pcanwork::can::{CanFrame, Cmd};
use pcanwork::ratio::Ratio;
use pcanwork::workbench::batches::{
    poll, queued_text, result, settle, submit, submit_refusal, Target,
};
use pcanwork::workbench::channel_form::{data_rates, set_chan_form};
use pcanwork::workbench::channels::{
    chan_detail_strings, chan_list_strings, default_channel, renumber_channel_slice, ChannelList,
};
use pcanwork::workbench::curves::{
    chart_axis_range, chart_full_range, cursor_readout, decimate_min_max_deque, eased_zoom_step,
    pan_chart_range, selected_chart_range, visible_chart_range, window_pts, Reading, Series,
    ZoomState,
};
use pcanwork::workbench::filters::{
    dir_idx_to_opt, parse_filter, parse_u32, same_filter, validate_filter, Filter,
};
use pcanwork::workbench::hardware::{
    pcan_hardware_id, refresh_and_reconcile_pcan, zcan_hardware_id, HardwareScan,
};
use pcanwork::workbench::hardware_rows::hardware_display_rows;
use pcanwork::workbench::ipc::{
    ipc_fanout, recent_logs, run_status, send_batch, send_once, send_once_reply,
    validate_ipc_tx_frame, ConsoleState, IpcFrame, IpcHandles, IpcReply, IpcStep,
};
use pcanwork::workbench::message_rows::{
    hot_bytes, make_msgrow, select_records, should_rebuild, trace_limit, Refresh, TableState,
    TableView,
};
use pcanwork::workbench::messages::{FrameRec, TableCache, DISPLAY_CAP};
use pcanwork::workbench::project::{
    clamp_selection, commit_channel_edit, console_channel, console_target, effective_paths,
    hidden_columns, hidden_columns_text, restored_limit, touch_recent_project,
};
use pcanwork::workbench::replay_files::{
    choose_frames, concat_fits, files_label, merge_files, parse_channel_map, parse_hex_u32,
    source_channels, ReplayChoice, ReplayFile,
};
use pcanwork::workbench::scripts::{append_output, result_code, ScriptRun};
use pcanwork::workbench::signals::{
    expand_signals, make_signal_row, sort_decoded_for_display, Decoded, SignalCache,
};
use pcanwork::workbench::status::{
    choice_text, filter_feedback, is_project_file, offer_signals, playback_status, project_name,
    scan_status, selected_text, ConnectionState, LossState, SignalChoice,
};
use pcanwork::workbench::stress::{accounted, load_database, load_frame, percentile_index};

const SECOND: i64 = 1_000_000_000;

fn frame(no: u64, key: u64, value: u8) -> FrameRec {
    FrameRec {
        no,
        key,
        t: no as i64 * 1_000_000,
        ch: 1,
        tx: false,
        id: key as u32,
        ext: false,
        fd: false,
        brs: false,
        remote: false,
        error: false,
        data: vec![value],
        delta: 10_000_000,
        count: no,
        changed_mask: vec![false],
        name: String::new(),
    }
}

fn latest(cache: &TableCache, key: u64) -> &FrameRec {
    cache.latest.value_at(cache.latest.find(key).unwrap())
}

#[test]
fn grouped_refresh_scans_only_arrivals_and_expires_evicted_matches() {
    let mut cache = TableCache::new();
    let mut trace: VecDeque<_> = (1..=100_000)
        .map(|no| frame(no, no % 200, (no % 2) as u8))
        .collect();
    assert_eq!(cache.sync_latest(&trace, |_: &FrameRec| true), 100_000);
    assert_eq!(cache.latest.len(), 200);
    assert_eq!(cache.sync_latest(&trace, |_: &FrameRec| true), 0);
    trace.pop_front();
    trace.push_back(frame(100_001, 1, 7));
    assert_eq!(cache.sync_latest(&trace, |_: &FrameRec| true), 1);
    assert_eq!(latest(&cache, 1).data, vec![7]);
    trace.clear();
    cache.sync_latest(&trace, |_: &FrameRec| true);
    assert!(cache.latest.is_empty());
}

#[test]
fn fd_hex_render_preserves_all_bytes_and_highlights() {
    let mut rec = frame(1, 256, 0);
    rec.data = (0..64).collect();
    let mut hot = vec![false; 64];
    hot[63] = true;
    let row = make_msgrow(
        &rec,
        &hot,
        false,
        false,
        rec.t,
        true,
        "0x100".to_string(),
        "0.001000".to_string(),
        "0.010000".to_string(),
        "10.0ms".to_string(),
    );
    assert_eq!(row.data_bytes.len(), 64);
    assert_eq!(row.data_bytes[63].hex.as_str(), "3F");
    assert!(row.data_bytes[63].hot);
    assert_eq!(row.data_text.lines().count(), 4);
    assert_eq!(
        row.data_text.lines().next().unwrap(),
        "00 01 02 03 04 05 06 07 08 09 0A 0B 0C 0D 0E 0F"
    );
}

#[test]
fn grouped_filter_keeps_latest_matching_frame_until_evicted() {
    let mut cache = TableCache::new();
    let mut trace = VecDeque::from(vec![frame(1, 7, 1), frame(2, 7, 0)]);
    cache.sync_latest(&trace, |r: &FrameRec| r.data[0] == 1);
    assert_eq!(latest(&cache, 7).no, 1);
    trace.push_back(frame(3, 7, 0));
    cache.sync_latest(&trace, |r: &FrameRec| r.data[0] == 1);
    assert_eq!(latest(&cache, 7).no, 1);
    trace.pop_front();
    cache.sync_latest(&trace, |r: &FrameRec| r.data[0] == 1);
    assert!(cache.latest.is_empty());
}

#[test]
fn incremental_views_match_full_scan_across_ring_rollover() {
    let mut cache = TableCache::new();
    let mut trace = VecDeque::new();
    for batch in 0..80_u64 {
        for n in 1..=73 {
            let no = batch * 73 + n;
            trace.push_back(frame(no, no % 239, (no % 7) as u8));
            if trace.len() > 2000 {
                trace.pop_front();
            }
        }
        let accept = |r: &FrameRec| r.data[0] != 3;
        assert_eq!(cache.sync_latest(&trace, accept), 73);
        let mut expected = HashMap::new();
        for r in trace.iter().filter(|r| accept(r)) {
            expected.insert(r.key, r.no);
        }
        assert_eq!(
            (0..cache.latest.len())
                .map(|i| (cache.latest.handle_at(i), cache.latest.value_at(i).no))
                .collect::<HashMap<_, _>>(),
            expected
        );
        let mut recent: Vec<_> = trace
            .iter()
            .rev()
            .filter(|r| accept(r))
            .take(DISPLAY_CAP)
            .map(|r| r.no)
            .collect();
        recent.reverse();
        assert_eq!(
            cache.recent.iter().map(|r| r.no).collect::<Vec<_>>(),
            recent
        );
    }
}

#[test]
fn refresh_scan_cost_evidence() {
    let mut trace: VecDeque<_> = (1..=100_000).map(|n| frame(n, n % 200, 1)).collect();
    let mut cache = TableCache::new();
    cache.sync_latest(&trace, |_: &FrameRec| true);
    for n in 100_001..=100_200 {
        trace.pop_front();
        trace.push_back(frame(n, n % 200, 1));
        assert_eq!(cache.sync_latest(&trace, |_: &FrameRec| true), 1);
    }
}

fn decoded(name: &str, start_bit: u64) -> Decoded {
    Decoded {
        name: name.to_string(),
        raw_text: "0".to_string(),
        physical_text: "0.000".to_string(),
        unit: String::new(),
        start_bit,
        size: 1,
        out_of_range: false,
        enum_txt: String::new(),
        mux_active: true,
        mux_value: None,
    }
}

#[test]
fn expanded_signal_places_value_in_data_column() {
    let decoded = Decoded {
        name: "PackCurrent".to_string(),
        raw_text: "125".to_string(),
        physical_text: format!("{:.3}", 12.5),
        unit: "A".to_string(),
        start_bit: 16,
        size: 16,
        out_of_range: false,
        enum_txt: String::new(),
        mux_active: true,
        mux_value: None,
    };

    let row = make_signal_row(&decoded, true);
    assert!(row.is_signal);
    assert_eq!(row.no.as_str(), "");
    assert_eq!(row.data_text.as_str(), "12.500 A  (Raw: 125)");
    assert_eq!(row.dlc.as_str(), "");
    assert_eq!(row.len.as_str(), "");
    assert_eq!(row.count.as_str(), "Bit 16:16");
}

#[test]
fn explicit_refresh_is_not_blocked_while_paused() {
    assert!(should_rebuild(true, 42, u64::MAX));
    assert!(!should_rebuild(true, 42, 41));
    assert!(should_rebuild(false, 42, 41));
    assert!(!should_rebuild(false, 42, 42));
}

#[test]
fn expanded_signals_sort_by_start_bit_then_name() {
    let mut signals = vec![
        decoded("Z", 24),
        decoded("B", 8),
        decoded("A", 8),
        decoded("M", 0),
    ];
    sort_decoded_for_display(&mut signals);
    assert_eq!(
        signals
            .iter()
            .map(|signal| signal.name.as_str())
            .collect::<Vec<_>>(),
        vec!["M", "A", "B", "Z"]
    );
}

#[test]
fn unselected_signals_keep_their_last_value() {
    let mut cache = SignalCache::new();
    let mut selected = decoded("X", 0);
    selected.mux_value = Some(2);
    selected.physical_text = "7.000".to_string();
    let shown = expand_signals(&mut cache, 5, vec![selected]);
    assert!(shown[0].1);
    let mut waiting = decoded("X", 0);
    waiting.mux_active = false;
    waiting.mux_value = Some(2);
    let shown = expand_signals(&mut cache, 5, vec![waiting.clone()]);
    assert!(shown[0].1);
    assert_eq!(
        make_signal_row(&shown[0].0, true).data_text,
        "7.000  (Raw: 0)  [MUX=2 上次值]"
    );
    let shown = expand_signals(&mut cache, 6, vec![waiting]);
    assert!(!shown[0].1);
    let row = make_signal_row(&shown[0].0, false);
    assert_eq!(row.data_text, "—  [MUX=2 等待]");
    assert_eq!(row.comment, "MuxInactive");
}

#[test]
fn tables_show_and_sort_what_they_hold() {
    let mut cache = TableCache::new();
    let mut trace = VecDeque::new();
    for n in 1..=5u64 {
        let mut rec = frame(n, 100 - n, n as u8);
        rec.name = format!("n{}", 9 - n);
        trace.push_back(rec);
    }
    cache.sync_latest(&trace, |_: &FrameRec| true);
    let numbers = |recs: Vec<FrameRec>| recs.iter().map(|r| r.no).collect::<Vec<_>>();
    assert_eq!(numbers(select_records(&cache, true, 3, -1, false)), vec![3, 4, 5]);
    assert_eq!(
        numbers(select_records(&cache, false, 3, -1, false)),
        vec![5, 4, 3, 2, 1]
    );
    assert_eq!(numbers(select_records(&cache, true, 3, 0, true)), vec![5, 4, 3]);
    assert_eq!(
        numbers(select_records(&cache, true, 300, 6, false)),
        vec![5, 4, 3, 2, 1]
    );
    assert_eq!(
        numbers(select_records(&cache, true, 300, 3, true)),
        vec![1, 2, 3, 4, 5]
    );
    assert_eq!(trace_limit(1), 750);
    assert_eq!(trace_limit(2), DISPLAY_CAP);
    assert_eq!(trace_limit(7), 300);
}

#[test]
fn tables_are_refreshed_where_something_changed() {
    let mut state = TableState {
        trace_limit: 300,
        last_signature: 5,
        config: 1,
    };
    let mut view = TableView {
        mode_trace: true,
        autoscroll: false,
        paused: false,
        config: 1,
        signature: 6,
    };
    assert_eq!(state.refresh(300, &view, 9, 9), Refresh::Keep);
    view.autoscroll = true;
    assert_eq!(state.refresh(300, &view, 9, 8), Refresh::Update);
    assert_eq!(state.refresh(300, &view, 9, 8), Refresh::Keep);
    assert_eq!(state.refresh(750, &view, 9, 8), Refresh::Restart);
    view.signature = 7;
    assert_eq!(state.refresh(750, &view, 3, 9), Refresh::Restart);
    assert_eq!(hot_bytes(SECOND, &[SECOND, SECOND / 2, 2 * SECOND]), vec![true, false, false]);
}

// ---------------------------------------------------------------- filters

#[test]
fn validates_filter_without_silently_dropping_tokens() {
    assert!(validate_filter("180,100-1FF,!200", "01 02 FF").is_ok());
    assert!(validate_filter("", "").is_ok());
    for id in ["GG", "180,", "!100-200", "20000000", "100-ZZ"] {
        assert!(validate_filter(id, "").is_err(), "{id}");
    }
    for data in ["GG", "0102", "100", "01 zz"] {
        assert!(validate_filter("180", data).is_err(), "{data}");
    }
}

#[test]
fn filters_are_read_as_written() {
    let f = parse_filter("180, 1FF-100,!0x200,zz", " Motor* ", "01 0xFF");
    assert_eq!(f.allow, vec![(0x180, 0x180), (0x100, 0x1FF)]);
    assert_eq!(f.deny, vec![0x200]);
    assert_eq!(f.name, Some("Motor".to_string()));
    assert!(f.name_prefix && !f.name_suffix && !f.name_exclude);
    assert_eq!(f.data, Some(vec![0x01, 0xFF]));
    assert_eq!(parse_u32(" 0X7ff "), Some(0x7FF));
    assert_eq!(parse_u32(""), None);
    assert_eq!(dir_idx_to_opt(2), Some(true));
    assert_eq!(
        validate_filter("1,x", "").unwrap_err(),
        "ID 条件错误 / Invalid ID: x"
    );
    assert_eq!(
        validate_filter("", "1 100").unwrap_err(),
        "Data 字节错误 / Invalid byte: 100"
    );
}

// ---------------------------------------------------------------- batches

#[test]
fn pending_ack_never_waits_and_retains_backend_result() {
    let (tx, rx) = sync_channel(1);
    let mut rx = StdInbox::new(rx);
    let now = 10_000_000_000u64;
    let later = now + 1_000_000_000;
    assert!(result(&mut rx, later, now).is_none());
    tx.send(Ok(17)).unwrap();
    assert_eq!(result(&mut rx, now, now).unwrap().unwrap(), 17);
    assert!(result(&mut rx, now, now).unwrap().is_err());
    drop(tx);
    assert!(result(&mut rx, later, now).unwrap().is_err());
}

#[test]
fn outcomes_of_batches_have_their_codes() {
    let error = settle(Taken::Item(Err("full".to_string())), 0, 0)
        .unwrap()
        .unwrap_err();
    assert_eq!((error.code, error.message.as_str()), ("QUEUE_REJECTED", "full"));
    let error = settle(Taken::Empty, 5, 5).unwrap().unwrap_err();
    assert_eq!(error.code, "TIMEOUT");
    assert!(submit_refusal(128, true).unwrap().contains("队列已满"));
    assert!(submit_refusal(0, true).is_none());
    assert_eq!(queued_text(3, true), "Queued 3 frames");
}

#[test]
fn batches_are_confirmed_in_their_order() {
    let (tx, _keep) = bounded(2);
    let commands = CommandSender {
        tx,
        health: CommandHealth::default(),
    };
    let mut pending = Vec::new();
    let (ack_a, rx_a) = sync_channel(1);
    let (_ack_b, rx_b) = sync_channel(1);
    submit(&mut pending, &commands, vec![], 1, 1, rx_a, Target::Ipc(1), 0).unwrap();
    submit(&mut pending, &commands, vec![], 1, 2, rx_b, Target::Ipc(2), 0).unwrap();
    let (_ack_c, rx_c) = sync_channel(1);
    assert!(submit(&mut pending, &commands, vec![], 1, 3, rx_c, Target::Ipc(3), 0).is_err());
    ack_a.send(Ok(4)).unwrap();
    let done = poll(&mut pending, 1);
    assert_eq!(done.len(), 1);
    assert!(matches!(done[0].0, Target::Ipc(1)));
    assert_eq!(pending.len(), 1);
    let done = poll(&mut pending, 500_000_000);
    assert!(matches!(done[0].0, Target::Ipc(2)));
    assert!(pending.is_empty());
}

// ---------------------------------------------------------------- curves

#[test]
fn y_axis_modes_select_independent_or_shared_physical_ranges() {
    let own = (-20.0, 80.0);
    let shared = (-200.0, 500.0);
    assert_eq!(chart_axis_range(own, shared, 0), own);
    assert_eq!(chart_axis_range(own, shared, 1), shared);
    assert_eq!(chart_axis_range(own, shared, 2), own);
}

#[test]
fn playback_decimation_preserves_narrow_extrema_and_endpoints() {
    let mut points: VecDeque<(i64, i64)> = (0..2_000).map(|i| (i, 10)).collect();
    points[987].1 = 798;
    points[988].1 = 0;
    let reduced: Vec<(i64, i64)> = decimate_min_max_deque(&points, 0, points.len(), 120)
        .into_iter()
        .map(|i| points[i])
        .collect();

    assert!(reduced.len() <= 120);
    assert_eq!(reduced.first(), points.front());
    assert_eq!(reduced.last(), points.back());
    assert!(reduced.iter().any(|point| point.1 == 798));
    assert!(reduced.iter().any(|point| point.1 == 0));
    assert!(reduced.windows(2).all(|pair| pair[0].0 <= pair[1].0));
}

#[test]
fn zoom_transition_moves_monotonically_and_reaches_target() {
    let target = (20 * SECOND, 80 * SECOND);
    let mut current = (0, 100 * SECOND);
    let mut finished = false;
    for _ in 0..20 {
        let previous = current;
        (current, finished) = eased_zoom_step(current, target);
        assert!(current.0 >= previous.0 && current.1 <= previous.1);
        if finished {
            break;
        }
    }
    assert!(finished);
    assert_eq!(current, target);
}

fn ratio(num: i64, den: u32) -> Ratio {
    Ratio { num, den }
}

#[test]
fn fractions_of_stretches_are_exact() {
    assert_eq!(pan_chart_range((0, 3), (-10, 10), ratio(1, 3)), (-1, 2));
    assert_eq!(pan_chart_range((0, 3), (-10, 10), ratio(-1, 3)), (1, 4));
    assert_eq!(selected_chart_range((0, 9), ratio(1, 3), ratio(2, 3)), Some((3, 6)));
    assert_eq!(selected_chart_range((0, 9), ratio(-5, 3), ratio(7, 0)), Some((0, 9)));
    assert!(selected_chart_range((0, 1000), ratio(50, 100), ratio(51, 100)).is_some());
    assert_eq!(selected_chart_range((5, 5), ratio(0, 1), ratio(1, 1)), Some((5, 6)));
    assert_eq!(selected_chart_range((5, 2), ratio(0, 1), ratio(1, 1)), Some((5, 6)));
}

#[test]
fn pan_and_box_zoom_stay_inside_the_visible_data_range() {
    let seconds = |a: i64, b: i64| (a * SECOND, b * SECOND);
    assert_eq!(
        pan_chart_range(seconds(20, 60), seconds(0, 100), ratio(1, 4)),
        seconds(10, 50)
    );
    assert_eq!(
        pan_chart_range(seconds(20, 60), seconds(0, 100), ratio(-2, 1)),
        seconds(60, 100)
    );
    assert_eq!(
        selected_chart_range(seconds(20, 60), ratio(3, 4), ratio(1, 4)),
        Some(seconds(30, 50))
    );
    assert_eq!(selected_chart_range(seconds(20, 60), ratio(1, 2), ratio(505, 1000)), None);
}

#[test]
fn playback_keeps_the_panned_window_while_live_capture_follows_the_tail() {
    let data = (0, 100 * SECOND);
    let selected = Some((20 * SECOND, 50 * SECOND));
    assert_eq!(
        visible_chart_range(data, selected, None, false, true),
        (20 * SECOND, 50 * SECOND)
    );
    assert_eq!(
        visible_chart_range(data, selected, None, false, false),
        (70 * SECOND, 100 * SECOND)
    );
}

#[test]
fn windows_of_samples_reach_the_borders() {
    let samples: VecDeque<(i64, i64)> = (0..10).map(|i| (i * 10, i)).collect();
    assert_eq!(window_pts(&samples, 25, 45, 100), vec![2, 3, 4, 5]);
    assert_eq!(window_pts(&samples, 0, 90, 1), vec![0]);
    assert_eq!(window_pts(&samples, 0, 90, 2), vec![0, 9]);
    assert_eq!(window_pts(&samples, 0, 90, 3), vec![0, 1, 9]);
    for max_pts in 0..12 {
        assert!(window_pts(&samples, 0, 90, max_pts).len() <= max_pts);
    }
    let peak: VecDeque<(i64, i64)> = VecDeque::from(vec![(0, 0), (1, -9), (2, 9), (3, 1), (4, 0)]);
    assert_eq!(window_pts(&peak, 0, 4, 3), vec![0, 2, 4]);
    assert_eq!(window_pts(&peak, 0, 4, 4), vec![0, 1, 2, 4]);
    let drop: VecDeque<(i64, i64)> = VecDeque::from(vec![(0, 5), (1, -9), (2, 4), (3, 1), (4, 0)]);
    assert_eq!(window_pts(&drop, 0, 4, 3), vec![0, 1, 4]);
    assert!(window_pts(&VecDeque::new(), 0, 1, 9).is_empty());
    let series = [
        Series {
            visible: true,
            samples: samples.clone(),
        },
        Series {
            visible: false,
            samples: VecDeque::from(vec![(-5, 0)]),
        },
    ];
    assert_eq!(chart_full_range(&series), (0, 90));
    assert_eq!(chart_full_range(&series[1..]), (0, SECOND));
    assert_eq!(chart_full_range(&[]), (0, SECOND));
    let lone = Series {
        visible: true,
        samples: VecDeque::from(vec![(5 * SECOND, 1)]),
    };
    assert_eq!(chart_full_range(&[lone]), (5 * SECOND, 5 * SECOND));
    let mut zoom = ZoomState {
        view: Some((0, 100 * SECOND)),
        target: Some((20 * SECOND, 80 * SECOND)),
    };
    zoom.advance_chart_zoom();
    assert_eq!(zoom.view, Some((8_400_000_000, 91_600_000_000)));
}

#[test]
fn cursors_are_read_out() {
    let readings = [
        Reading {
            name: "A".to_string(),
            visible: true,
            value: Some("1.00V".to_string()),
            second: Some(("2.50V".to_string(), "1.50".to_string())),
        },
        Reading {
            name: "B".to_string(),
            visible: false,
            value: Some("9".to_string()),
            second: None,
        },
    ];
    assert_eq!(cursor_readout("t=1", &readings, false, true), "t=1  |  A=1.00V");
    assert_eq!(
        cursor_readout("dt", &readings, true, true),
        "dt   |   A: 1.00V -> 2.50V  delta=1.50"
    );
}

// ---------------------------------------------------------------- channels and hardware

fn pcan(index: u32, id: u32, name: &str) -> PcanChannelInfo {
    PcanChannelInfo {
        channel_index: index,
        channel_name: format!("PCAN_USBBUS{}", index + 1),
        device_name: name.to_string(),
        device_id: id,
        fd_capable: index == 0,
        channel_condition: 1,
    }
}

fn usb(device_type: &str, serial: &str, index: u32) -> ZcanUsbChannelInfo {
    ZcanUsbChannelInfo {
        device_type: device_type.to_string(),
        hardware_label: "Label".to_string(),
        serial_number: serial.to_string(),
        device_index: 0,
        channel_index: index,
        fd_capable: true,
    }
}

#[test]
fn channels_are_listed_with_their_details() {
    let mut channels = vec![default_channel(), default_channel()];
    channels[0].device_type = "pcan".to_string();
    channels[0].channel_index = 1;
    channels[0].is_fd = true;
    channels[1].device_type = "CANFDNET".to_string();
    channels[1].hardware_label = " Gate ".to_string();
    renumber_channel_slice(&mut channels);
    assert_eq!(channels[1].sw_channel, 2);
    let rows = chan_list_strings(&channels);
    assert_eq!(rows[0], "CAN1  Unnamed  CAN FD");
    assert_eq!(rows[1], "CAN2  Gate  CAN");
    let details = chan_detail_strings(&channels, &[pcan(1, 0xAB, "PCAN-USB")]);
    assert_eq!(
        details[0],
        "pcan  PCAN_USBBUS2 PCAN-USB: Device ID ABh  CANFD 500K/2M !"
    );
    assert_eq!(details[1], "CANFDNET  192.168.0.178:8000  CAN 500K");
}

#[test]
fn attached_adapters_are_shown_in_groups() {
    let devices = [pcan(1, 9, "B"), pcan(0, 9, "A"), pcan(2, 9, "B")];
    let others = [usb("USBCANFD-200U", "S1", 0), usb("GCAN", "", 0)];
    let rows = hardware_display_rows(&devices, &others, &[], true);
    let titles: Vec<&str> = rows.iter().map(|r| r.title.as_str()).collect();
    assert_eq!(
        titles,
        vec![
            "PEAK  A",
            "↳ PCAN_USBBUS1",
            "PEAK  B",
            "↳ PCAN_USBBUS2",
            "↳ PCAN_USBBUS3",
            "GCAN  Label",
            "↳ CAN1",
            "ZLG  Label",
            "↳ CAN1",
        ]
    );
    let sources: Vec<i32> = rows.iter().map(|r| r.source).collect();
    assert_eq!(sources, vec![-1, 1, -1, 0, 2, -1, 4, -1, 3]);
    assert_eq!(rows[2].detail, "Device ID 00000009h · 2 channel(s)");
    assert_eq!(rows[7].detail, "SN S1 · 1 channel(s)");
    let none = hardware_display_rows(&[], &[], &[], true);
    assert_eq!(none[0].title, "No CAN hardware detected");
}

#[test]
fn channels_find_their_adapters_again() {
    let mut channel = default_channel();
    channel.hardware_id = pcan_hardware_id(&pcan(3, 0x1F, "P"));
    assert_eq!(channel.hardware_id, "PCAN:0000001F:3");
    assert_eq!(zcan_hardware_id(&usb(" usbcan2 ", " ab ", 1)), "USBCAN2:AB:1");
    assert_eq!(zcan_hardware_id(&usb("X", "", 1)), "X:DEV0:1");
    let mut list = ChannelList {
        channels: vec![channel],
        selected: 5,
        edit: None,
    };
    let told = refresh_and_reconcile_pcan(&mut list, &[pcan(3, 0x1F, "P")], &[]);
    assert!(told.is_none());
    assert_eq!(list.channels[0].device_type, "PCAN");
    assert_eq!(list.channels[0].channel_index, 3);
    assert_eq!(list.channels[0].hardware_label, "P");
    let told = refresh_and_reconcile_pcan(&mut list, &[pcan(0, 0x2F, "Q")], &[]);
    assert_eq!(
        told,
        Some("PCAN 硬件通道已自动校正: PCAN_USBBUS4 → PCAN_USBBUS1".to_string())
    );
    assert_eq!(list.normalized_channel_selection(), 0);
}

#[test]
fn forms_tell_what_adapters_can_do() {
    let mut channel = default_channel();
    channel.device_type = "PCAN".to_string();
    let form = set_chan_form(&channel, &[pcan(0, 7, "P")], &[], true);
    assert!(form.supports_fd && form.manual_mode);
    assert!(!form.supports_listen_only && !form.supports_non_iso);
    assert_eq!(form.identity, "PCAN:00000007:0");
    assert_eq!(form.state, "Detected and matched");
    assert_eq!(form.arbitration, vec!["1M", "800K", "500K", "250K", "125K"]);
    channel.device_type = "USBCAN2".to_string();
    let form = set_chan_form(&channel, &[], &[], false);
    assert!(form.supports_listen_only && !form.supports_fd);
    assert_eq!(form.arbitration.len(), 10);
    assert_eq!(form.state, "手动映射，连接前请核对索引");
    assert_eq!(data_rates().len(), 9);
}

#[test]
fn scans_of_adapters_are_not_repeated_at_once() {
    let mut scan = HardwareScan {
        last: None,
        in_progress: false,
        status: String::new(),
    };
    assert!(scan.begin(0, true));
    assert!(!scan.begin(1_999_999_999, true));
    assert!(!scan.begin(2_000_000_000, true));
    scan.in_progress = false;
    assert!(!scan.begin(2_000_000_001, true));
    assert!(scan.begin(4_000_000_000, false));
}

// ---------------------------------------------------------------- projects

#[test]
fn edited_channels_are_taken_over_as_a_valid_set() {
    let mut channel = default_channel();
    channel.device_type = "PCAN".to_string();
    let mut list = ChannelList {
        channels: vec![channel.clone()],
        selected: 0,
        edit: None,
    };
    list.ensure_channel_edit_session();
    let session = list.edit.as_mut().unwrap();
    session.channels.push(channel);
    session.selected = 9;
    session.dirty = true;
    assert!(commit_channel_edit(&mut list).is_err());
    assert_eq!(list.channels.len(), 1);
    let session = list.edit.as_mut().unwrap();
    session.channels[1].sw_channel = 2;
    session.channels[1].channel_index = 1;
    assert_eq!(commit_channel_edit(&mut list), Ok(2));
    assert_eq!(list.selected, 1);
    assert!(!list.edit.unwrap().dirty);
}

#[test]
fn recent_projects_come_first_and_once() {
    let mut list: Vec<String> = (0..12).map(|n| format!("p{n}")).collect();
    touch_recent_project(&mut list, "P3");
    assert_eq!(list.len(), 12);
    assert_eq!(list[0], "P3");
    assert_eq!(list.iter().filter(|p| p.eq_ignore_ascii_case("p3")).count(), 1);
    touch_recent_project(&mut list, "new");
    assert_eq!(list.len(), 12);
    assert_eq!(list[0], "new");
}

#[test]
fn settings_are_restored_within_limits() {
    assert_eq!(
        hidden_columns_text(&["b".to_string(), "a".to_string()]),
        "a,b"
    );
    assert_eq!(hidden_columns(" a ,,b"), vec!["a".to_string(), "b".to_string()]);
    assert_eq!(console_target(-1), None);
    assert_eq!(console_target(0x7FF), Some(0x7FF));
    assert_eq!(console_channel(900), 255);
    assert_eq!(restored_limit(10, 1000, 5000), 5000);
    assert_eq!(clamp_selection(-3, 4), 0);
    assert_eq!(effective_paths(&[], Some("x")), vec!["x".to_string()]);
    assert_eq!(project_name(" ", Some("stem")), "stem");
    assert!(is_project_file("PcPrj"));
    assert!(!is_project_file("txt"));
}

// ---------------------------------------------------------------- scripts

fn ipc_frame(id: u32, len: usize) -> IpcFrame {
    IpcFrame {
        ch: 1,
        id,
        data: vec![0; len],
        ext: false,
        fd: false,
        brs: false,
        remote: false,
    }
}

#[test]
fn frames_of_scripts_are_checked() {
    assert!(validate_ipc_tx_frame(&ipc_frame(0x7FF, 8)).unwrap().tx);
    assert_eq!(
        validate_ipc_tx_frame(&ipc_frame(0x800, 8)).unwrap_err(),
        "ID 0x800 超出标准帧范围 0x0..0x7FF"
    );
    assert!(validate_ipc_tx_frame(&ipc_frame(1, 9))
        .unwrap_err()
        .contains("9 字节"));
    let mut fd = ipc_frame(1, 9);
    fd.fd = true;
    assert!(validate_ipc_tx_frame(&fd).unwrap_err().contains("DLC"));
    let mut none = ipc_frame(1, 0);
    none.ch = 0;
    assert_eq!(validate_ipc_tx_frame(&none).unwrap_err(), "CAN 通道必须从 1 开始");
    let mut remote = ipc_frame(1, 1);
    remote.remote = true;
    assert_eq!(
        validate_ipc_tx_frame(&remote).unwrap_err(),
        "远程帧不能携带数据字节"
    );
}

#[test]
fn requests_of_scripts_are_answered() {
    assert!(matches!(
        send_once(&ipc_frame(1, 1), true),
        IpcStep::Submit(Cmd::SendOnce(_))
    ));
    match send_once(&ipc_frame(1, 1), false) {
        IpcStep::Reply(IpcReply::Refused { code, .. }) => assert_eq!(code, "LICENSE_REQUIRED"),
        other => panic!("unexpected: {other:?}"),
    }
    assert!(matches!(send_once_reply(true), IpcReply::Done));
    let frames = vec![ipc_frame(1, 1), ipc_frame(0x900, 1)];
    match send_batch(&frames, 1, true) {
        IpcStep::Reply(IpcReply::Refused { code, msg }) => {
            assert_eq!(code, "BAD_FRAME");
            assert!(msg.starts_with("frames[1]: ID 0x900"));
        }
        other => panic!("unexpected: {other:?}"),
    }
    match send_batch(&frames[..1], 100_001, true) {
        IpcStep::Reply(IpcReply::Refused { code, .. }) => assert_eq!(code, "BATCH_LIMIT"),
        other => panic!("unexpected: {other:?}"),
    }
    assert!(matches!(
        send_batch(&frames[..1], 100_000, true),
        IpcStep::Batch { repeat: 100_000, .. }
    ));
}

#[test]
fn periodic_frames_belong_to_their_clients() {
    let mut handles = IpcHandles::new();
    let first = handles
        .set_periodic(1, 10, &ipc_frame(1, 1), 0, -1, true)
        .unwrap();
    assert!(first.stop.is_none());
    assert!(matches!(
        first.start,
        Cmd::SetPeriodic {
            period_ms: 1,
            enable: true,
            ..
        }
    ));
    assert!(matches!(
        handles.periodic_submitted(1, 10, true),
        IpcReply::Done
    ));
    let second = handles
        .set_periodic(1, 10, &ipc_frame(2, 1), 5, 3, true)
        .unwrap();
    match second.stop {
        Some(Cmd::SetPeriodic { handle, enable, .. }) => {
            assert_eq!(handle, first.handle);
            assert!(!enable);
        }
        other => panic!("unexpected: {other:?}"),
    }
    handles
        .set_periodic(2, 10, &ipc_frame(3, 1), 5, 3, true)
        .unwrap();
    assert_eq!(handles.client_gone(1).len(), 1);
    assert!(handles.stop_periodic(1, 10).is_none());
    assert!(handles.stop_periodic(2, 10).is_some());
    assert_eq!(ipc_fanout(&[vec![], vec![5], vec![7, 8]], 7), vec![0, 2]);
    assert_eq!(
        recent_logs(&["a".to_string(), "b".to_string()], 1),
        vec!["b".to_string()]
    );
    let mut console = ConsoleState {
        enabled: false,
        id: Some(3),
        ch: 0,
    };
    console.set(Some(true), Some(-1), None);
    assert_eq!((console.enabled, console.id, console.ch), (true, None, 0));
    assert_eq!(run_status(true, "3 steps"), "PASS 3 steps");
}

fn run(status: &str) -> ScriptRun {
    ScriptRun {
        running: true,
        started: Some(0),
        timeout_secs: 1,
        stop_asked: false,
        status: status.to_string(),
        dirty: false,
        lost_seen: 0,
    }
}

#[test]
fn scripts_end_in_time() {
    let mut script = run("");
    assert!(!script.stop_if_due(1_000_000_000));
    assert!(script.stop_if_due(1_000_000_001));
    assert_eq!(script.status, "FAIL: 超时");
    let mut script = run("");
    script.stop_asked = true;
    assert!(script.stop_if_due(0));
    assert_eq!(script.status, "已停止");
    let mut script = run("PASS all");
    script.ended(false);
    assert_eq!(script.status, "PASS all");
    assert_eq!(result_code("PASS all"), 1);
    assert!(script.output_lost(4).unwrap().contains("已丢弃 4 行"));
    assert_eq!(result_code(&script.status), -1);
    assert!(script.output_lost(4).is_none());
}

#[test]
fn output_is_cut_between_characters() {
    let mut output = String::new();
    assert!(!append_output(&mut output, &[]));
    assert!(append_output(&mut output, &["é".repeat(150_000)]));
    assert_eq!(output.len(), 199_999);
    assert!(output.ends_with("é\n"));
    assert!(append_output(&mut output, &["x".to_string()]));
    assert_eq!(output.len(), 199_999);
    assert!(output.ends_with("\nx\n"));
}

// ---------------------------------------------------------------- replay files

fn can_frame(t: i64, ch: u8, id: u32) -> CanFrame {
    CanFrame {
        t,
        ch,
        tx: false,
        id,
        ext: false,
        fd: false,
        brs: false,
        remote: false,
        error: false,
        data: vec![],
    }
}

#[test]
fn files_are_put_together() {
    let files = [
        ReplayFile {
            name: "a".to_string(),
            frames: vec![can_frame(5_000_000, 1, 1), can_frame(7_000_000, 2, 2)],
        },
        ReplayFile {
            name: "b".to_string(),
            frames: vec![can_frame(6_000_000, 1, 3)],
        },
    ];
    let mixed: Vec<u32> = merge_files(&files, false).iter().map(|f| f.id).collect();
    assert_eq!(mixed, vec![1, 3, 2]);
    assert!(concat_fits(&files));
    let joined: Vec<(u32, i64)> = merge_files(&files, true).iter().map(|f| (f.id, f.t)).collect();
    assert_eq!(joined, vec![(1, 0), (2, 2_000_000), (3, 3_000_000)]);
    assert_eq!(files_label(&files, 3, true), "2 files: a, b (3 frames)");
    assert_eq!(files_label(&files[..1], 2, false), "a (2 帧)");
    assert_eq!(source_channels(&files[0].frames), "1, 2");
    assert_eq!(source_channels(&[]), "-");
    let far = [
        ReplayFile {
            name: "c".to_string(),
            frames: vec![can_frame(i64::MIN, 1, 1), can_frame(i64::MAX, 1, 1)],
        },
    ];
    assert!(!concat_fits(&far));
}

#[test]
fn frames_are_chosen_for_replay() {
    let map = parse_channel_map("1:3, 2:0,bad,4:900");
    let choice = ReplayChoice {
        id_lo: 1,
        id_hi: 2,
        start: 0,
        end: 10,
    };
    let frames = [
        can_frame(1, 1, 1),
        can_frame(2, 2, 1),
        can_frame(3, 1, 9),
        can_frame(11, 1, 1),
        can_frame(4, 5, 2),
    ];
    let chosen: Vec<(u8, i64)> = choose_frames(&frames, &choice, &map)
        .iter()
        .map(|f| (f.ch, f.t))
        .collect();
    assert_eq!(chosen, vec![(3, 1), (5, 4)]);
    assert_eq!(parse_hex_u32(" 0x0xff "), Some(0xFF));
    assert_eq!(parse_hex_u32("  "), None);
}

// ---------------------------------------------------------------- status

#[test]
fn connections_are_shown() {
    let mut state = ConnectionState {
        connected: false,
        channels: vec![],
        name: String::new(),
        pending: true,
        expected: 2,
    };
    let (line, outcome) = state.connected(&[1, 2], "bus".to_string(), None, true);
    assert_eq!(line, Some("后端: bus".to_string()));
    assert!(outcome.unwrap().success);
    assert!(!state.pending);
    let (line, outcome) = state.connected(&[], String::new(), Some("gone".to_string()), true);
    assert!(line.is_none() && outcome.is_none());
    assert_eq!(state.name, "");
    state.pending = true;
    state.expected = 2;
    let (_, outcome) = state.connected(&[1], "bus".to_string(), None, true);
    let outcome = outcome.unwrap();
    assert!(!outcome.success);
    assert_eq!(outcome.message, "Channel connection failed");
}

#[test]
fn losses_of_frames_and_commands_are_told() {
    let none = LossState {
        dropped_frames: 0,
        dropped_events: 0,
        hardware_overruns: 0,
        hardware_errors: 0,
        command_rejected: 0,
        monotonic_violations: 0,
        recorder_dropped: 0,
    };
    let mut state = none;
    assert!(!state.any_loss());
    let mut now = none;
    now.dropped_frames = 5;
    now.command_rejected = 1;
    let (frames, commands) = state.update(now);
    assert_eq!(
        frames.unwrap(),
        "严重: CAN UI 队列已丢失 5 帧（累计 5），请降低显示负载或停止测量"
    );
    assert!(commands.is_some());
    assert!(state.any_loss());
    assert_eq!(state.update(now), (None, None));
}

#[test]
fn short_texts_are_as_shown() {
    assert_eq!(playback_status(0, 0, false, true), "No file loaded");
    assert_eq!(playback_status(4, 4, false, true), "Done");
    assert_eq!(playback_status(1, 4, false, false), "就绪/已暂停");
    assert_eq!(scan_status(0, 12, true), "No hardware found · 12 ms");
    assert_eq!(scan_status(3, 12, false), "已发现 3 个物理通道 · 12 ms");
    assert_eq!(selected_text(None, ""), "无");
    assert_eq!(selected_text(Some((1 << 38) | 0x1ABC), "Eng"), "0x1ABC Eng");
    let off = Filter::default();
    let draft = parse_filter("180", "", "01 ff");
    let same = parse_filter("0x180", " ", "1 0xFF");
    assert_eq!(filter_feedback(Ok(()), &draft, &off, true), "Pending changes — click Apply");
    assert_eq!(filter_feedback(Ok(()), &draft, &same, true), "Filter applied");
    assert_eq!(filter_feedback(Ok(()), &off, &parse_filter("", "", ""), false), "未启用筛选");
    assert_eq!(filter_feedback(Err("bad".to_string()), &draft, &off, true), "bad");
    assert!(!same_filter(&draft, &parse_filter("180", "", "01")));
}

#[test]
fn signals_are_offered_once_and_in_order() {
    let choice = |id: u32, signal: &str, unit: &str| SignalChoice {
        id,
        message: "M".to_string(),
        signal: signal.to_string(),
        unit: unit.to_string(),
    };
    let offered = offer_signals(&[
        choice(2, "B", ""),
        choice(1, "Z", "V"),
        choice(2, "A", ""),
        choice(1, "Z", "other"),
    ]);
    let texts: Vec<String> = offered.iter().map(choice_text).collect();
    assert_eq!(texts, vec!["0x1 M / Z [V]", "0x2 M / A", "0x2 M / B"]);
}

#[test]
fn the_synthetic_load_is_as_described() {
    let frame = load_frame(0x1234, 7);
    assert_eq!(frame.id, 256 + 4);
    assert_eq!(&frame.data[..5], &[3, 0x34, 0x12, 0x9C, 0x36]);
    assert_eq!(frame.data.len(), 64);
    let database = load_database();
    assert!(database.starts_with("VERSION \"\"\nNS_ :\nBS_:\nBU_: Test\nBO_ 256 Load256: 64 Test\n"));
    assert_eq!(database.matches("BO_ ").count(), 16);
    assert_eq!(database.matches(" SG_ Branch").count(), 64);
    assert!(accounted(10, 6, 3, 1));
    assert!(!accounted(10, 6, 3, 0));
    assert_eq!(percentile_index(200), 190);
}

//! Tests of chart labels and of the snapshot for scripts.
use pcanwork::modbus::axis::{axis_range, is_smaller, series_heads};
use pcanwork::modbus::chart::{ChartRow, ChartState};
use pcanwork::table::Table;
use pcanwork::workbench::chart_labels::{
    chart_axis_time_label, chart_cursor_time_label, chart_time_label, marked_places, number_text,
    playback_original_time_label, render_point_cap, ChartTime, TimeLabel, FIRST_DATE, SECOND,
};
use pcanwork::workbench::snapshot::{channel_snapshot, last_log, ChanStats};

fn seconds(value: i128, digits: u8) -> TimeLabel {
    TimeLabel::Seconds { value, digits }
}

#[test]
fn labels_follow_source_and_mode() {
    let live = ChartTime { source: 0, mode: 1, epoch: Some(50), base: 0 };
    assert_eq!(chart_time_label(live, 7), TimeLabel::Wall(57));
    let unknown = ChartTime { epoch: None, ..live };
    assert_eq!(chart_time_label(unknown, 7), seconds(7, 1));
    assert_eq!(chart_cursor_time_label(unknown, 7), seconds(7, 3));
    let replay = ChartTime { source: 1, mode: 0, epoch: None, base: 100 };
    assert_eq!(chart_time_label(replay, 70), seconds(-30, 1));
    let dated = ChartTime { mode: 1, ..replay };
    assert_eq!(chart_time_label(dated, FIRST_DATE), seconds(FIRST_DATE as i128, 1));
    assert_eq!(
        chart_cursor_time_label(dated, FIRST_DATE + 1),
        TimeLabel::Wall(FIRST_DATE as i128 + 1)
    );
    assert_eq!(playback_original_time_label(5, true), seconds(5, 3));
}

#[test]
fn short_stretches_have_more_decimals() {
    let c = ChartTime { source: 1, mode: 0, epoch: None, base: 2 };
    for (span, digits) in [
        (10 * SECOND, 1),
        (10 * SECOND - 1, 2),
        (SECOND - 1, 3),
        (SECOND / 10, 3),
        (SECOND / 10 - 1, 4),
    ] {
        assert_eq!(chart_axis_time_label(c, 9, span), seconds(7, digits));
    }
}

#[test]
fn detail_follows_the_width() {
    assert_eq!(render_point_cap(0), 600);
    assert_eq!(render_point_cap(301), 602);
    assert_eq!(render_point_cap(usize::MAX), 4_000);
}

#[test]
fn snapshots_list_connected_channels() {
    let mut stats = Table::new();
    let busy = ChanStats { rx: 3, tx: 1, err: 0, bus_load_bits: 9, fps_bits: 8 };
    stats.insert(2, busy);
    let rows = channel_snapshot(true, &[3, 2], &stats);
    assert_eq!(rows.iter().map(|r| r.ch).collect::<Vec<_>>(), vec![2, 3]);
    assert_eq!(rows[0].stats, busy);
    assert_eq!(rows[1].stats, ChanStats::default());
    assert!(channel_snapshot(false, &[3, 2], &stats).is_empty());
    assert_eq!(last_log(&["a".to_string(), "b".to_string()]), "b");
    assert_eq!(last_log(&[]), "");
}

#[test]
fn numbers_are_cut_from_texts() {
    assert_eq!(number_text("  -12.5V 3"), "-12.5");
    assert_eq!(number_text("V1"), "");
    assert_eq!(number_text(""), "");
}

#[test]
fn dense_curves_have_fewer_markers() {
    assert_eq!(marked_places(0, 3), vec![0, 1, 2]);
    let marks = marked_places(70, 100);
    assert_eq!(marks.first(), Some(&0));
    assert_eq!(marks[1], 3);
    assert_eq!(marks.last(), Some(&99));
    assert!(marked_places(70, 0).is_empty());
}

#[test]
fn bit_patterns_are_ordered_as_numbers() {
    let numbers = [f64::NEG_INFINITY, -2.5, -0.0, 0.0, 1e-300, 3.0, f64::INFINITY, f64::NAN];
    for a in numbers {
        for b in numbers {
            assert_eq!(is_smaller(a.to_bits(), b.to_bits()), a < b, "{a} {b}");
        }
    }
}

#[test]
fn axes_hold_the_samples_of_their_series() {
    let mut chart = ChartState::new();
    let rows = |a: f64, b: f64| {
        vec![
            ChartRow { address: 7, num: Some(a.to_bits()) },
            ChartRow { address: 8, num: None },
            ChartRow { address: 9, num: Some(b.to_bits()) },
        ]
    };
    chart.update(&rows(1.5, 4.0));
    assert!(series_heads(&chart).is_empty());
    chart.update(&rows(-2.0, f64::NAN));
    chart.set_axis(9, true);
    let bits = |a: f64, b: f64| Some((a.to_bits(), b.to_bits()));
    assert_eq!(axis_range(&chart, false), bits(-2.0, 1.5));
    assert_eq!(axis_range(&chart, true), bits(4.0, 4.0));
    let heads = series_heads(&chart);
    assert_eq!(heads.len(), 2);
    assert_eq!((heads[0].name.as_str(), heads[0].right, heads[0].argb), ("@7", false, 0xFF61AFEF));
    assert_eq!((heads[1].addr, heads[1].right, heads[1].argb), (9, true, 0xFF98C379));
    chart.set_axis(9, false);
    assert_eq!(axis_range(&chart, true), None);
}

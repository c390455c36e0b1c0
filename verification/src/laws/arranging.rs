//! Laws on what the workbench keeps: channels and their hardware, projects, tasks and script runs.
use crate::can::pcan::PcanChannelView;
use crate::can::zcan_scan::UsbChannelView;
use crate::can::{CanFrame, DeviceConfigView, Evt};
use crate::laws::texts::{law_numerals_end_in_their_last_digit, law_numerals_read_back};
use crate::order::{law_keys_are_sorted, law_rows_are_arranged, sorted_keys, text_before};
use crate::text;
use crate::workbench::channels::renumbered;
use crate::workbench::hardware::{
    corrected, first_set, needs_correction, pcan_identity, pcan_named, reconciled, usb_identity,
    usb_named, HardwareScan,
};
use crate::workbench::project::{
    clamp_selection, console_channel, console_target, effective_paths, filled_parts, key_texts,
    name_keys, others, restored_limit, touched,
};
use crate::workbench::scripts::{last_bytes, lines_text, text_bytes, ScriptRun};
use crate::workbench::status::{
    choice_ranks, connect_success, distinct, first_choices, known, offered, split_key, ChoiceView,
};
use crate::workbench::stress::{load_frame, percentile_index};
use crate::workbench::tx_tasks::{numbered, told, told_handle, TxTask};
use vstd::prelude::*;

verus! {

// ---------------------------------------------------------------- channels

/// Channels are numbered from one in the order of their list; nothing else of them changes.
pub proof fn law_channels_are_numbered(channels: Seq<DeviceConfigView>, i: int)
    requires
        0 <= i < channels.len() <= 255,
    ensures
        renumbered(channels).len() == channels.len(),
        renumbered(channels)[i].sw_channel == i + 1,
        (DeviceConfigView { sw_channel: channels[i].sw_channel, ..renumbered(channels)[i] })
            == channels[i],
{
}

/// The place of the first flag that is set.
pub proof fn law_the_first_is_found(flags: Seq<bool>, from: int)
    requires
        0 <= from <= flags.len(),
    ensures
        match first_set(flags, from) {
            Some(i) => from <= i < flags.len() && flags[i] && forall|j: int|
                from <= j < i ==> !(#[trigger] flags[j]),
            None => forall|j: int| from <= j < flags.len() ==> !(#[trigger] flags[j]),
        },
    decreases flags.len() - from,
{
    if from < flags.len() && !flags[from] {
        law_the_first_is_found(flags, from + 1);
    }
}

/// A channel is put where its hardware is: on the PEAK channel that has its identity, else on the
/// USB channel that has it, the first of them in either case. A channel whose hardware is not there
/// or not known stays as it is. Rates and switches are kept.
pub proof fn law_channels_follow_their_hardware(
    c: DeviceConfigView,
    pcan: Seq<PcanChannelView>,
    usb: Seq<UsbChannelView>,
    label: bool,
    i: int,
)
    ensures
        ({
            let r = reconciled(c, pcan, usb, label);
            let first_pcan = c.hardware_id.len() > 0 && 0 <= i < pcan.len() && pcan_identity(pcan[i])
                == c.hardware_id && forall|j: int|
                0 <= j < i ==> pcan_identity(#[trigger] pcan[j]) != c.hardware_id;
            let no_pcan = forall|j: int|
                0 <= j < pcan.len() ==> pcan_identity(#[trigger] pcan[j]) != c.hardware_id;
            let first_usb = c.hardware_id.len() > 0 && 0 <= i < usb.len() && usb_identity(usb[i])
                == c.hardware_id && forall|j: int|
                0 <= j < i ==> usb_identity(#[trigger] usb[j]) != c.hardware_id;
            let no_usb = forall|j: int|
                0 <= j < usb.len() ==> usb_identity(#[trigger] usb[j]) != c.hardware_id;
            &&& first_pcan ==> r.device_type == "PCAN"@ && r.channel_index == pcan[i].channel_index
            &&& no_pcan && first_usb ==> r.device_type == usb[i].device_type && r.device_index
                == usb[i].device_index && r.channel_index == usb[i].channel_index
            &&& no_pcan && no_usb || c.hardware_id.len() == 0 ==> r == c
            &&& r.sw_channel == c.sw_channel && r.is_fd == c.is_fd && r.hardware_id == c.hardware_id
            &&& r.baud == c.baud && r.data_baud == c.data_baud && r.custom_bitrate == c.custom_bitrate
            &&& r.termination == c.termination && r.listen_only == c.listen_only && r.fd_non_iso
                == c.fd_non_iso
            &&& r.net_server == c.net_server && r.ip == c.ip && r.port == c.port
            &&& !label || text::trim(c.hardware_label).len() > 0 ==> r.hardware_label
                == c.hardware_label
            &&& label && text::trim(c.hardware_label).len() == 0 && first_pcan ==> r.hardware_label
                == pcan[i].device_name
        }),
{
    let a = pcan_named(pcan, c.hardware_id);
    let b = usb_named(usb, c.hardware_id);
    law_the_first_is_found(a, 0);
    law_the_first_is_found(b, 0);
    assert forall|j: int| 0 <= j < pcan.len() implies a[j] == (pcan_identity(#[trigger] pcan[j])
        == c.hardware_id) by {}
    assert forall|j: int| 0 <= j < usb.len() implies b[j] == (usb_identity(#[trigger] usb[j])
        == c.hardware_id) by {}
    if 0 <= i < pcan.len() && a[i] && forall|j: int|
        0 <= j < i ==> pcan_identity(#[trigger] pcan[j]) != c.hardware_id {
        let k = first_set(a, 0)->0;
        assert(a[k]);
        if k < i {
            assert(pcan_identity(pcan[k]) != c.hardware_id);
        }
    }
    if 0 <= i < usb.len() && b[i] && forall|j: int|
        0 <= j < i ==> usb_identity(#[trigger] usb[j]) != c.hardware_id {
        let k = first_set(b, 0)->0;
        assert(b[k]);
        if k < i {
            assert(usb_identity(usb[k]) != c.hardware_id);
        }
    }
    if forall|j: int| 0 <= j < pcan.len() ==> pcan_identity(#[trigger] pcan[j]) != c.hardware_id {
        if first_set(a, 0) is Some {
            let k = first_set(a, 0)->0;
            assert(pcan_identity(pcan[k]) != c.hardware_id);
        }
    }
    if forall|j: int| 0 <= j < usb.len() ==> usb_identity(#[trigger] usb[j]) != c.hardware_id {
        if first_set(b, 0) is Some {
            let k = first_set(b, 0)->0;
            assert(usb_identity(usb[k]) != c.hardware_id);
        }
    }
}

proof fn lemma_numeral_len(n: nat, digits: nat)
    requires
        digits >= 1,
        n < vstd::arithmetic::power::pow(16, digits),
    ensures
        text::numeral(n, 16).len() <= digits,
    decreases digits,
{
    reveal(vstd::arithmetic::power::pow);
    law_numerals_end_in_their_last_digit(n, 16);
    if n >= 16 {
        if digits == 1 {
            assert(vstd::arithmetic::power::pow(16, 0) == 1);
            assert(vstd::arithmetic::power::pow(16, 1) == 16 * vstd::arithmetic::power::pow(16, 0));
        } else {
            assert(vstd::arithmetic::power::pow(16, digits) == 16 * vstd::arithmetic::power::pow(
                16,
                (digits - 1) as nat,
            ));
            lemma_numeral_len(n / 16, (digits - 1) as nat);
        }
    }
}

proof fn lemma_zeros(t: Seq<char>, k: nat)
    requires
        t.len() > 0,
    ensures
        text::digits_value(Seq::new(k, |i: int| '0') + t, 16) == text::digits_value(t, 16),
    decreases t.len(), k,
{
    let z = Seq::new(k, |i: int| '0');
    let s = z + t;
    assert(s.last() == t.last());
    if k == 0 {
        assert(s =~= t);
    } else if t.len() == 1 {
        assert(s.drop_last() =~= z);
        let y = Seq::new((k - 1) as nat, |i: int| '0');
        assert(z =~= y + seq!['0']);
        lemma_zeros(seq!['0'], (k - 1) as nat);
        assert(text::digit_value('0', 16) == Some(0nat));
        assert(text::digits_value(z, 16) == Some(0nat));
        assert(0nat * 16 == 0);
    } else {
        assert(s.drop_last() =~= z + t.drop_last());
        lemma_zeros(t.drop_last(), k);
    }
}

proof fn lemma_eight_digits(n: u32)
    ensures
        text::hex_padded(n as nat, 8).len() == 8,
        text::digits_value(text::hex_padded(n as nat, 8), 16) == Some(n as nat),
{
    reveal(vstd::arithmetic::power::pow);
    assert(vstd::arithmetic::power::pow(16, 8) == 0x1_0000_0000) by {
        reveal_with_fuel(vstd::arithmetic::power::pow, 9);
    }
    lemma_numeral_len(n as nat, 8);
    law_numerals_read_back(n as nat, 16);
    law_numerals_end_in_their_last_digit(n as nat, 16);
    let h = text::hex(n as nat);
    lemma_zeros(h, (8 - h.len()) as nat);
}

/// PEAK channels have the same identity only where they are the same channel of the same device.
pub proof fn law_identities_tell_channels_apart(a: PcanChannelView, b: PcanChannelView)
    requires
        pcan_identity(a) == pcan_identity(b),
    ensures
        a.device_id == b.device_id,
        a.channel_index == b.channel_index,
{
    reveal_strlit("PCAN:");
    reveal_strlit(":");
    lemma_eight_digits(a.device_id);
    lemma_eight_digits(b.device_id);
    let x = pcan_identity(a);
    let y = pcan_identity(b);
    assert(x.subrange(5, 13) =~= text::hex_padded(a.device_id as nat, 8));
    assert(y.subrange(5, 13) =~= text::hex_padded(b.device_id as nat, 8));
    assert(x.skip(14) =~= text::decimal(a.channel_index as nat));
    assert(y.skip(14) =~= text::decimal(b.channel_index as nat));
    law_numerals_read_back(a.channel_index as nat, 10);
    law_numerals_read_back(b.channel_index as nat, 10);
}

/// The only PEAK channel of a list is put on the only one that is plugged in, and nothing else of
/// the list changes.
pub proof fn law_the_only_channel_is_corrected(
    channels: Seq<DeviceConfigView>,
    pcan: Seq<PcanChannelView>,
    at: int,
    i: int,
)
    requires
        needs_correction(channels, pcan, at),
        0 <= i < channels.len(),
    ensures
        pcan.len() == 1,
        corrected(channels, at, pcan[0]).len() == channels.len(),
        corrected(channels, at, pcan[0])[at].channel_index == pcan[0].channel_index,
        corrected(channels, at, pcan[0])[at].sw_channel == channels[at].sw_channel,
        channels[at].channel_index != pcan[0].channel_index,
        i != at ==> corrected(channels, at, pcan[0])[i] == channels[i],
{
}

/// Two searches for hardware are two seconds apart.
pub proof fn law_searches_keep_their_distance(scan: HardwareScan, t: u64, now: u64)
    requires
        scan.last == Some(t),
        t <= now,
    ensures
        scan.too_soon(now) <==> now < t + 2 * 1_000_000_000,
{
}

// ---------------------------------------------------------------- projects

/// A selection stays where it is as long as there is such an entry, and else goes to the nearest.
pub proof fn law_selections_stay_in_their_list(selected: i32, count: usize, r: i32)
    requires
        count <= i32::MAX,
        call_ensures(clamp_selection, (selected, count), r),
    ensures
        0 <= selected < count ==> r == selected,
        selected < 0 ==> r == 0,
        0 < count <= selected ==> r == count - 1,
        count == 0 ==> r == 0,
{
}

proof fn lemma_others(list: Seq<Seq<char>>, path: Seq<char>, k: int)
    requires
        0 <= k < list.len(),
        text::upper(list[k]) != text::upper(path),
    ensures
        others(list, path).contains(list[k]),
    decreases list.len(),
{
    let rest = list.drop_last();
    let all = others(list, path);
    if k < rest.len() {
        assert(rest[k] == list[k]);
        lemma_others(rest, path, k);
        let i = choose|i: int| 0 <= i < others(rest, path).len() && others(rest, path)[i] == list[k];
        assert(all[i] == list[k]);
    } else {
        assert(all[all.len() - 1] == list[k]);
    }
}

proof fn lemma_others_len(list: Seq<Seq<char>>, path: Seq<char>)
    ensures
        others(list, path).len() <= list.len(),
    decreases list.len(),
{
    if list.len() > 0 {
        lemma_others_len(list.drop_last(), path);
    }
}

/// A project that is opened comes first in the list of recent ones, and no other is lost as long as
/// there are fewer than twelve.
pub proof fn law_recent_projects_are_kept(list: Seq<Seq<char>>, path: Seq<char>, k: int)
    requires
        list.len() < 12,
        0 <= k < list.len(),
    ensures
        touched(list, path)[0] == path,
        text::upper(list[k]) != text::upper(path) ==> touched(list, path).contains(list[k]),
{
    lemma_others_len(list, path);
    let all = touched(list, path);
    if text::upper(list[k]) != text::upper(path) {
        lemma_others(list, path, k);
        let o = others(list, path);
        let i = choose|i: int| 0 <= i < o.len() && o[i] == list[k];
        assert(all[i + 1] == list[k]);
    }
}

/// Hidden columns are written in alphabetical order, each once, and all of them.
pub proof fn law_hidden_columns_are_listed(names: Seq<Seq<char>>, i: int, j: int, k: int)
    requires
        0 <= k < names.len(),
    ensures
        ({
            let r = key_texts(sorted_keys(name_keys(names)));
            &&& r.contains(names[k])
            &&& 0 <= i < j < r.len() ==> text_before(r[i], r[j])
            &&& 0 <= i < r.len() ==> names.contains(r[i])
        }),
{
    let keys = name_keys(names);
    let sorted = sorted_keys(keys);
    let r = key_texts(sorted);
    law_keys_are_sorted(keys);
    assert(keys[k] == (0u32, names[k]));
    assert(keys.contains(keys[k]));
    assert(sorted.contains(keys[k]));
    let at = choose|at: int| 0 <= at < sorted.len() && sorted[at] == keys[k];
    assert(r[at] == names[k]);
    if 0 <= i < r.len() {
        assert(sorted.contains(sorted[i]));
        let x = choose|x: int| 0 <= x < keys.len() && keys[x] == sorted[i];
        assert(names[x] == r[i]);
        if i < j < r.len() {
            assert(sorted.contains(sorted[j]));
            let y = choose|y: int| 0 <= y < keys.len() && keys[y] == sorted[j];
            assert(sorted[i].0 == 0 && sorted[j].0 == 0);
            assert(r[i] == sorted[i].1 && r[j] == sorted[j].1);
            assert(crate::order::key_before(sorted[i], sorted[j]));
        }
    }
}

/// Of stored columns those that are not blank are read, without the blanks around them.
pub proof fn law_stored_columns_are_read(parts: Seq<Seq<char>>, part: Seq<char>)
    ensures
        filled_parts(seq![]).len() == 0,
        filled_parts(parts.push(part)) == if text::trim(part).len() == 0 {
            filled_parts(parts)
        } else {
            filled_parts(parts).push(text::trim(part))
        },
{
    assert(parts.push(part).drop_last() =~= parts);
}

/// What was stored of the console is taken as far as it can be; a negative identifier stands for
/// none. A limit that is too small is passed over.
pub proof fn law_stored_settings_are_taken(
    id: i64,
    target: Option<u32>,
    ch: i32,
    channel: u8,
    stored: usize,
    least: usize,
    current: usize,
    limit: usize,
)
    requires
        call_ensures(console_target, (id,), target),
        call_ensures(console_channel, (ch,), channel),
        call_ensures(restored_limit, (stored, least, current), limit),
    ensures
        target is None <==> id < 0,
        0 <= id <= u32::MAX ==> target == Some(id as u32),
        0 <= ch <= 255 ==> channel == ch,
        ch < 0 ==> channel == 0,
        ch > 255 ==> channel == 255,
        stored >= least ==> limit == stored,
        stored < least ==> limit == current,
{
}

/// A list of files goes before the single one of older projects.
pub proof fn law_lists_go_before_single_files(
    paths: &[String],
    single: Option<&str>,
    r: Vec<String>,
)
    requires
        call_ensures(effective_paths, (paths, single), r),
    ensures
        paths@.len() > 0 ==> r@.len() == paths@.len() && forall|i: int|
            0 <= i < paths@.len() ==> (#[trigger] r@[i])@ == paths@[i]@,
        paths@.len() == 0 && single is Some ==> r@.len() == 1 && r@[0]@ == single->0@,
        paths@.len() == 0 && single is None ==> r@.len() == 0,
{
    let a = text::texts(r@);
    let b = text::texts(paths@);
    assert(a.len() == r@.len() && b.len() == paths@.len());
    if paths@.len() > 0 {
        assert forall|i: int| 0 <= i < paths@.len() implies (#[trigger] r@[i])@ == paths@[i]@ by {
            assert(a[i] == r@[i]@ && b[i] == paths@[i]@);
        }
    } else if single is Some {
        assert(a[0] == r@[0]@);
    }
}

// ---------------------------------------------------------------- tasks and scripts

/// What is told of a task changes that of it and nothing else.
pub proof fn law_tasks_are_told(
    t: TxTask,
    handle: u64,
    sent: u64,
    data: Vec<u8>,
    values: Vec<(String, u64)>,
)
    ensures
        ({
            let done = Evt::PeriodicDone(handle);
            let r = told(t, done);
            &&& told_handle(done) == Some(handle)
            &&& !r.periodic && r.sent == t.sent && r.data == t.data && r.handle == t.handle
                && r.signal_values == t.signal_values
        }),
        ({
            let progress = Evt::PeriodicProgress { handle, sent };
            let r = told(t, progress);
            &&& told_handle(progress) == Some(handle)
            &&& r.sent == sent && r.periodic == t.periodic && r.data == t.data && r.handle == t.handle
        }),
        ({
            let update = Evt::DynamicUpdate { handle, data, signal_values: values, sent };
            let r = told(t, update);
            &&& told_handle(update) == Some(handle)
            &&& r.data == data && r.signal_values == values && r.sent == sent && r.periodic
                == t.periodic && r.handle == t.handle
        }),
{
}

/// Tasks that are read are numbered on from the next free number, in order, and none of them runs.
pub proof fn law_read_tasks_wait(tasks: Seq<TxTask>, first: u64, i: int)
    requires
        0 <= i < tasks.len(),
        first + tasks.len() <= u64::MAX,
    ensures
        numbered(tasks, first).len() == tasks.len(),
        numbered(tasks, first)[i].handle == first + i,
        !numbered(tasks, first)[i].periodic,
        numbered(tasks, first)[i].data == tasks[i].data,
        numbered(tasks, first)[i].sent == tasks[i].sent,
        numbered(tasks, first)[i].signal_values == tasks[i].signal_values,
{
}

/// A script that is given some seconds runs for them and no longer.
pub proof fn law_scripts_end_in_time(run: ScriptRun, started: u64, more: nat, now: u64)
    requires
        run.started == Some(started),
        run.running,
        !run.stop_asked,
        now == started + run.timeout_secs * 1_000_000_000 + more,
    ensures
        run.to_be_stopped(now) <==> more > 0,
{
}

/// A script that is asked to stop or has no time left is stopped only where it runs.
pub proof fn law_stopping_takes_a_running_script(run: ScriptRun, now: u64)
    ensures
        run.to_be_stopped(now) ==> run.running,
        run.running && run.stop_asked ==> run.to_be_stopped(now),
        run.started is None && !run.stop_asked ==> !run.to_be_stopped(now),
{
}

/// The output keeps its end: as much of it as there is room for, and no character less.
pub proof fn law_the_end_of_the_output_is_kept(s: Seq<char>, limit: nat)
    ensures
        ({
            let r = last_bytes(s, limit);
            let cut = s.len() - r.len();
            &&& 0 <= cut
            &&& r == s.skip(cut)
            &&& text_bytes(r) <= limit
            &&& cut > 0 ==> text_bytes(s.skip(cut - 1)) > limit
            &&& text_bytes(s) <= limit ==> r == s
        }),
    decreases s.len(),
{
    if text_bytes(s) <= limit {
        assert(s =~= s.skip(0));
    } else if s.len() > 0 {
        let t = s.skip(1);
        law_the_end_of_the_output_is_kept(t, limit);
        let r = last_bytes(s, limit);
        let cut = s.len() - r.len();
        assert(t.skip(cut - 1) =~= s.skip(cut));
        if cut == 1 {
            assert(s.skip(0) =~= s);
        } else {
            assert(t.skip(cut - 2) =~= s.skip(cut - 1));
        }
    }
}

/// A text of ASCII characters has as many bytes as characters, and the bytes of others count too.
pub proof fn law_bytes_are_counted(s: Seq<char>)
    ensures
        s.len() <= text_bytes(s) <= 4 * s.len(),
        (forall|i: int| 0 <= i < s.len() ==> (#[trigger] s[i] as int) < 128) ==> text_bytes(s)
            == s.len(),
        (forall|i: int| 0 <= i < s.len() ==> 0x800 <= (#[trigger] s[i] as int) < 0x1_0000)
            ==> text_bytes(s) == 3 * s.len(),
    decreases s.len(),
{
    if s.len() > 0 {
        law_bytes_are_counted(s.skip(1));
        assert forall|i: int| 0 <= i < s.len() - 1 implies #[trigger] s.skip(1)[i] == s[i + 1] by {}
    }
}

/// Lines stand one under the other.
pub proof fn law_lines_are_ended(lines: Seq<Seq<char>>, line: Seq<char>)
    ensures
        lines_text(seq![]).len() == 0,
        lines_text(lines.push(line)).len() == lines_text(lines).len() + line.len() + 1,
        lines_text(lines.push(line)).last() == '\n',
        lines_text(lines.push(line)).drop_last() == lines_text(lines) + line,
{
    assert(lines.push(line).drop_last() =~= lines);
    assert(lines_text(lines.push(line)).drop_last() =~= lines_text(lines) + line);
}

// ---------------------------------------------------------------- status

/// Each channel that is connected counts once, in the order in which they are named.
pub proof fn law_connected_channels_count_once(v: Seq<u8>)
    ensures
        distinct(v).no_duplicates(),
        forall|x: u8| #[trigger] distinct(v).contains(x) <==> v.contains(x),
        v.no_duplicates() ==> distinct(v) == v,
    decreases v.len(),
{
    if v.len() > 0 {
        let rest = v.drop_last();
        law_connected_channels_count_once(rest);
        let before = distinct(rest);
        let all = distinct(v);
        assert forall|x: u8| #[trigger] all.contains(x) <==> v.contains(x) by {
            if v.contains(x) {
                let i = choose|i: int| 0 <= i < v.len() && v[i] == x;
                if i < rest.len() {
                    assert(rest[i] == x);
                    assert(before.contains(x));
                    let j = choose|j: int| 0 <= j < before.len() && before[j] == x;
                    assert(all[j] == x);
                } else if !before.contains(x) {
                    assert(all[all.len() - 1] == x);
                }
            }
            if all.contains(x) {
                let j = choose|j: int| 0 <= j < all.len() && all[j] == x;
                if j < before.len() {
                    assert(before[j] == x);
                    assert(before.contains(x));
                    assert(rest.contains(x));
                    let i = choose|i: int| 0 <= i < rest.len() && rest[i] == x;
                    assert(v[i] == x);
                } else {
                    assert(v[v.len() - 1] == x);
                }
            }
        }
        if v.no_duplicates() {
            assert(rest.no_duplicates());
            if rest.contains(v.last()) {
                let i = choose|i: int| 0 <= i < rest.len() && rest[i] == v.last();
                assert(v[i] == v[v.len() - 1]);
            }
            assert(all =~= v);
        }
    }
}

/// A connection succeeds where no error came and every channel that was expected is there; one that
/// was named twice is still one.
pub proof fn law_all_channels_are_needed(failed: bool, expected: usize, channels: Seq<u8>)
    requires
        channels.no_duplicates(),
    ensures
        connect_success(failed, expected, channels) <==> !failed && expected > 0 && channels.len()
            == expected,
        channels.len() > 0 ==> connect_success(failed, expected, channels.push(channels[0]))
            == connect_success(failed, expected, channels),
{
    law_connected_channels_count_once(channels);
    if channels.len() > 0 {
        let more = channels.push(channels[0]);
        assert(more.drop_last() =~= channels);
        assert(channels.contains(channels[0]));
    }
}

/// The key of a message holds its identifier in its lowest 32 bits, and whether that is extended
/// above six more.
pub proof fn law_keys_hold_identifiers(
    id: u32,
    between: u64,
    ext: bool,
    above: u64,
    key: u64,
    r: (u32, bool),
)
    requires
        between < 64,
        key == id + between * 0x1_0000_0000 + (if ext {
            0x40_0000_0000int
        } else {
            0
        }) + above * 0x80_0000_0000,
        call_ensures(split_key, (key,), r),
    ensures
        r == (id, ext),
{
    let e: int = if ext {
        1
    } else {
        0
    };
    let high = between + 64 * e + 128 * above;
    assert(key == id + 0x1_0000_0000 * high);
    vstd::arithmetic::div_mod::lemma_fundamental_div_mod_converse(
        key as int,
        0x1_0000_0000,
        high,
        id as int,
    );
    let low = id + between * 0x1_0000_0000;
    assert(key == low + 0x40_0000_0000 * (e + 2 * above));
    vstd::arithmetic::div_mod::lemma_fundamental_div_mod_converse(
        key as int,
        0x40_0000_0000,
        e + 2 * above,
        low,
    );
}

proof fn lemma_firsts(v: Seq<ChoiceView>)
    ensures
        forall|k: int| 0 <= k < v.len() ==> known(first_choices(v), #[trigger] v[k]),
        forall|i: int| 0 <= i < first_choices(v).len() ==> v.contains(#[trigger] first_choices(v)[i]),
        forall|i: int, j: int|
            0 <= i < j < first_choices(v).len() ==> (#[trigger] first_choices(v)[i]).id != (
            #[trigger] first_choices(v)[j]).id || first_choices(v)[i].signal
                != first_choices(v)[j].signal,
    decreases v.len(),
{
    if v.len() > 0 {
        let rest = v.drop_last();
        lemma_firsts(rest);
        let before = first_choices(rest);
        let all = first_choices(v);
        assert forall|k: int| 0 <= k < v.len() implies known(all, #[trigger] v[k]) by {
            if k < rest.len() {
                assert(rest[k] == v[k]);
                assert(known(before, rest[k]));
                let i = choose|i: int|
                    0 <= i < before.len() && (#[trigger] before[i]).id == v[k].id && before[i].signal
                        == v[k].signal;
                assert(all[i] == before[i]);
            } else if !known(before, v.last()) {
                assert(all[all.len() - 1] == v.last());
            }
        }
        assert forall|i: int| 0 <= i < all.len() implies v.contains(#[trigger] all[i]) by {
            if i < before.len() {
                assert(all[i] == before[i]);
                assert(rest.contains(before[i]));
                let k = choose|k: int| 0 <= k < rest.len() && rest[k] == before[i];
                assert(v[k] == all[i]);
            } else {
                assert(v[v.len() - 1] == all[i]);
            }
        }
        assert forall|i: int, j: int| 0 <= i < j < all.len() implies (#[trigger] all[i]).id != (
        #[trigger] all[j]).id || all[i].signal != all[j].signal by {
            assert(all[i] == before[i]);
            if j < before.len() {
                assert(all[j] == before[j]);
            } else {
                assert(!known(before, v.last()));
            }
        }
    }
}

/// Signals are offered by the identifier of their message and then by name, each once, and all of
/// them.
pub proof fn law_offered_signals_are_sorted(v: Seq<ChoiceView>, i: int, j: int, k: int)
    requires
        0 <= k < v.len(),
    ensures
        known(offered(v), v[k]),
        0 <= i < j < offered(v).len() ==> offered(v)[i].id < offered(v)[j].id || offered(v)[i].id
            == offered(v)[j].id && text_before(offered(v)[i].signal, offered(v)[j].signal),
        0 <= i < offered(v).len() ==> v.contains(offered(v)[i]),
{
    let firsts = first_choices(v);
    let ranks = choice_ranks(firsts);
    let rows = crate::order::arranged(ranks, false, firsts.len() as int);
    let r = offered(v);
    lemma_firsts(v);
    law_rows_are_arranged(ranks, false, firsts.len() as int);
    assert(r.len() == rows.len());
    assert(known(firsts, v[k]));
    let at = choose|at: int|
        0 <= at < firsts.len() && (#[trigger] firsts[at]).id == v[k].id && firsts[at].signal
            == v[k].signal;
    assert(rows.contains(at));
    let place = choose|place: int| 0 <= place < rows.len() && rows[place] == at;
    assert(r[place] == firsts[at]);
    if 0 <= i < r.len() {
        assert(rows.contains(rows[i]));
        assert(r[i] == firsts[rows[i]]);
        if i < j < r.len() {
            assert(rows.contains(rows[j]));
            assert(r[j] == firsts[rows[j]]);
            let a = rows[i];
            let b = rows[j];
            assert(ranks[a] == (firsts[a].id as int, firsts[a].signal));
            assert(ranks[b] == (firsts[b].id as int, firsts[b].signal));
            assert(crate::order::stands_behind(ranks, false, b, a) || (
            !crate::order::stands_behind(ranks, false, a, b) && a < b));
            crate::order::law_texts_are_ordered(firsts[a].signal, firsts[b].signal);
            if a < b {
                assert(firsts[a].id != firsts[b].id || firsts[a].signal != firsts[b].signal);
            } else if b < a {
                assert(firsts[b].id != firsts[a].id || firsts[b].signal != firsts[a].signal);
            }
        }
    }
}

proof fn lemma_two_bytes(n: nat)
    ensures
        n % 256 + 256 * (n / 256 % 256) == n % 65536,
        n % 256 < 256,
        n / 256 % 256 < 256,
{
    vstd::arithmetic::div_mod::lemma_mod_breakdown(n as int, 256, 256);
}

/// A frame under load counts in its second and third byte, thrice that in the next two, and tells
/// in the first which of four kinds it is; sixteen identifiers take turns.
pub proof fn law_load_frames_count(n: u64, t: i64, r: CanFrame)
    requires
        n <= u64::MAX / 3,
        call_ensures(load_frame, (n, t), r),
    ensures
        r.t == t && r.fd && r.brs && !r.tx && !r.ext && r.ch == 1,
        r.id == 0x100 + n % 16,
        r.data@.len() == 64,
        r.data@[1] + 256 * r.data@[2] == n % 65536,
        r.data@[3] + 256 * r.data@[4] == (3 * n) % 65536,
        r.data@[0] == (n / 16) % 4,
        forall|i: int| 5 <= i < 64 ==> #[trigger] r.data@[i] == 0,
{
    let d = r@.data;
    let bytes = Seq::new(64, |i: int| crate::workbench::stress::load_byte(n, i));
    assert(d == r.data@);
    assert(d == bytes);
    lemma_two_bytes(n as nat);
    lemma_two_bytes((3 * n) as nat);
    assert forall|i: int| 5 <= i < 64 implies #[trigger] r.data@[i] == 0 by {
        assert(bytes[i] == 0);
    }
    assert(d[0] == crate::workbench::stress::load_byte(n, 0));
    assert(d[1] == crate::workbench::stress::load_byte(n, 1));
    assert(d[2] == crate::workbench::stress::load_byte(n, 2));
    assert(d[3] == crate::workbench::stress::load_byte(n, 3));
    assert(d[4] == crate::workbench::stress::load_byte(n, 4));
}

/// Of a number of sorted values at least 95 in a hundred stand in front of the one that is taken, or
/// as near to that as a whole number can be.
pub proof fn law_percentiles_are_ranks(count: usize, r: usize)
    requires
        0 < count <= usize::MAX / 95,
        call_ensures(percentile_index, (count,), r),
    ensures
        100 * r <= 95 * count < 100 * (r + 1),
{
}

} // verus!

//! What the windows of the workbench tell of connections, losses, replays and projects.
use crate::order::{arrange, arranged, numbers_view, ranks_view, Rank};
use crate::text;
use crate::workbench::filters::{no_filter, same_filter, Filter, FilterView};
use vstd::prelude::*;

verus! {

// ---------------------------------------------------------------- connections

/// The connections as the windows know them.
#[derive(Debug)]
pub struct ConnectionState {
    pub connected: bool,
    pub channels: Vec<u8>,
    pub name: String,
    /// Whether the channel window waits for its channels.
    pub pending: bool,
    /// How many it waits for.
    pub expected: usize,
}

/// What the channel window shows of an attempt to connect.
#[derive(Debug)]
pub struct ConnectOutcome {
    pub success: bool,
    pub message: String,
}

/// The different numbers of a list.
pub open spec fn distinct(v: Seq<u8>) -> Seq<u8>
    decreases v.len(),
{
    if v.len() == 0 {
        seq![]
    } else {
        let before = distinct(v.drop_last());
        if before.contains(v.last()) {
            before
        } else {
            before.push(v.last())
        }
    }
}

fn distinct_channels(v: &[u8]) -> (r: Vec<u8>)
    ensures
        r@ == distinct(v@),
{
    let mut out: Vec<u8> = Vec::new();
    let mut i: usize = 0;
    assert(v@.take(0) =~= seq![]);
    assert(out@ =~= distinct(v@.take(0)));
    while i < v.len()
        invariant
            i <= v@.len(),
            out@ == distinct(v@.take(i as int)),
        decreases v@.len() - i,
    {
        let ch: u8 = v[i];
        let mut known: bool = false;
        let mut k: usize = 0;
        while k < out.len()
            invariant
                k <= out@.len(),
                known == (exists|j: int| 0 <= j < k && out@[j] == ch),
            decreases out@.len() - k,
        {
            if out[k] == ch {
                assert(out@[k as int] == ch);
                known = true;
            }
            k += 1;
        }
        assert(known == out@.contains(ch));
        assert(v@.take(i + 1).drop_last() =~= v@.take(i as int));
        assert(v@.take(i + 1).last() == ch);
        if !known {
            out.push(ch);
        }
        i += 1;
    }
    assert(v@.take(i as int) =~= v@);
    out
}

/// What an attempt to connect comes to, for the channel window: it succeeded where nothing went
/// wrong and all channels are there.
pub open spec fn connect_success(failed: bool, expected: usize, channels: Seq<u8>) -> bool {
    !failed && expected > 0 && distinct(channels).len() == expected
}

/// What the channel window says of an attempt to connect.
pub open spec fn connect_message(success: bool, error: Option<Seq<char>>, english: bool) -> Seq<char> {
    if success {
        if english {
            "All channels connected"@
        } else {
            "全部通道连接成功"@
        }
    } else {
        match error {
            Some(e) => e,
            None => if english {
                "Channel connection failed"@
            } else {
                "通道连接失败，请检查设备状态和参数"@
            },
        }
    }
}

impl ConnectionState {
    /// The controller told which channels are connected. The line for the log, and what the channel
    /// window shows, where it waits.
    pub fn connected(&mut self, channels: &[u8], name: String, error: Option<String>, english: bool) -> (r: (
        Option<String>,
        Option<ConnectOutcome>,
    ))
        ensures
            final(self).connected == (channels@.len() > 0),
            final(self).channels@ == distinct(channels@),
            final(self).name@ == if channels@.len() == 0 {
                Seq::<char>::empty()
            } else if name@.len() > 0 {
                name@
            } else {
                old(self).name@
            },
            !final(self).pending,
            final(self).expected == if old(self).pending {
                0
            } else {
                old(self).expected
            },
            match r.0 {
                Some(line) => channels@.len() > 0 && name@.len() > 0 && line@ == "后端: "@ + name@,
                None => channels@.len() == 0 || name@.len() == 0,
            },
            match r.1 {
                None => !old(self).pending,
                Some(outcome) => {
                    let success = connect_success(error is Some, old(self).expected, channels@);
                    &&& old(self).pending
                    &&& outcome.success == success
                    &&& outcome.message@ == connect_message(
                        success,
                        match error {
                            Some(e) => Some(e@),
                            None => None,
                        },
                        english,
                    )
                },
            },
    {
        let pending: bool = self.pending;
        let expected: usize = self.expected;
        self.connected = channels.len() > 0;
        self.channels = distinct_channels(channels);
        let mut line: Option<String> = None;
        if self.connected {
            if !name.as_str().is_empty() {
                let mut out = "后端: ".to_owned();
                out.push_str(name.as_str());
                line = Some(out);
                self.name = name;
            }
        } else {
            self.name = String::new();
            assert(self.name@ =~= Seq::<char>::empty());
        }
        if !pending {
            return (line, None);
        }
        self.pending = false;
        self.expected = 0;
        let success: bool = error.is_none() && expected > 0 && self.channels.len() == expected;
        let message: String = if success {
            (if english {
                "All channels connected"
            } else {
                "全部通道连接成功"
            }).to_owned()
        } else {
            match error {
                Some(e) => e,
                None => (if english {
                    "Channel connection failed"
                } else {
                    "通道连接失败，请检查设备状态和参数"
                }).to_owned(),
            }
        };
        (line, Some(ConnectOutcome { success, message }))
    }
}

// ---------------------------------------------------------------- losses

/// Counters of what was lost or went wrong.
#[derive(Clone, Copy, Debug, PartialEq, Eq, Structural)]
pub struct LossState {
    pub dropped_frames: u64,
    pub dropped_events: u64,
    pub hardware_overruns: u64,
    pub hardware_errors: u64,
    pub command_rejected: u64,
    pub monotonic_violations: u64,
    pub recorder_dropped: u64,
}

impl LossState {
    /// Whether anything was lost or went wrong.
    pub fn any_loss(&self) -> (r: bool)
        ensures
            r == (self.dropped_frames > 0 || self.dropped_events > 0 || self.hardware_overruns > 0
                || self.hardware_errors > 0 || self.command_rejected > 0
                || self.monotonic_violations > 0 || self.recorder_dropped > 0),
    {
        self.dropped_frames > 0 || self.dropped_events > 0 || self.hardware_overruns > 0
            || self.hardware_errors > 0 || self.command_rejected > 0 || self.monotonic_violations
            > 0 || self.recorder_dropped > 0
    }

    /// Takes over new counters. The lines for the log: one for frames and one for commands that
    /// were lost since the last time.
    pub fn update(&mut self, now: LossState) -> (r: (Option<String>, Option<String>))
        ensures
            *final(self) == now,
            match r.0 {
                Some(line) => now.dropped_frames > old(self).dropped_frames && line@
                    == "严重: CAN UI 队列已丢失 "@ + text::decimal(
                    (now.dropped_frames - old(self).dropped_frames) as nat,
                ) + " 帧（累计 "@ + text::decimal(now.dropped_frames as nat)
                    + "），请降低显示负载或停止测量"@,
                None => now.dropped_frames <= old(self).dropped_frames,
            },
            match r.1 {
                Some(line) => now.command_rejected > old(self).command_rejected && line@
                    == "严重: CAN 命令队列拒绝了 "@ + text::decimal(
                    (now.command_rejected - old(self).command_rejected) as nat,
                ) + " 个操作（累计 "@ + text::decimal(now.command_rejected as nat)
                    + "），操作未执行"@,
                None => now.command_rejected <= old(self).command_rejected,
            },
    {
        let mut frames: Option<String> = None;
        if now.dropped_frames > self.dropped_frames {
            let mut out = "严重: CAN UI 队列已丢失 ".to_owned();
            text::push_decimal(&mut out, now.dropped_frames - self.dropped_frames);
            out.push_str(" 帧（累计 ");
            text::push_decimal(&mut out, now.dropped_frames);
            out.push_str("），请降低显示负载或停止测量");
            frames = Some(out);
        }
        let mut commands: Option<String> = None;
        if now.command_rejected > self.command_rejected {
            let mut out = "严重: CAN 命令队列拒绝了 ".to_owned();
            text::push_decimal(&mut out, now.command_rejected - self.command_rejected);
            out.push_str(" 个操作（累计 ");
            text::push_decimal(&mut out, now.command_rejected);
            out.push_str("），操作未执行");
            commands = Some(out);
        }
        *self = now;
        (frames, commands)
    }
}

// ---------------------------------------------------------------- short texts

/// The status of a replay.
pub fn playback_status(pos: usize, total: usize, playing: bool, english: bool) -> (r: &'static str)
    ensures
        r@ == if total == 0 {
            if english {
                "No file loaded"@
            } else {
                "未载入文件"@
            }
        } else if playing {
            if english {
                "Playing"@
            } else {
                "回放中"@
            }
        } else if pos >= total {
            if english {
                "Done"@
            } else {
                "回放完成"@
            }
        } else if english {
            "Ready / Paused"@
        } else {
            "就绪/已暂停"@
        },
{
    if total == 0 {
        if english {
            "No file loaded"
        } else {
            "未载入文件"
        }
    } else if playing {
        if english {
            "Playing"
        } else {
            "回放中"
        }
    } else if pos >= total {
        if english {
            "Done"
        } else {
            "回放完成"
        }
    } else if english {
        "Ready / Paused"
    } else {
        "就绪/已暂停"
    }
}

/// The status after the adapters were scanned.
pub fn scan_status(channels: usize, elapsed_ms: u64, english: bool) -> (r: String)
    ensures
        r@ == (if channels == 0 {
            if english {
                "No hardware found"@
            } else {
                "未发现硬件"@
            }
        } else if english {
            text::decimal(channels as nat) + " channel(s) detected"@
        } else {
            "已发现 "@ + text::decimal(channels as nat) + " 个物理通道"@
        }) + " · "@ + text::decimal(elapsed_ms as nat) + " ms"@,
{
    let mut out = String::new();
    if channels == 0 {
        out.push_str(
            if english {
                "No hardware found"
            } else {
                "未发现硬件"
            },
        );
        assert(out@ =~= if english {
            "No hardware found"@
        } else {
            "未发现硬件"@
        });
    } else if english {
        text::push_decimal(&mut out, channels as u64);
        out.push_str(" channel(s) detected");
        assert(out@ =~= text::decimal(channels as nat) + " channel(s) detected"@);
    } else {
        out.push_str("已发现 ");
        text::push_decimal(&mut out, channels as u64);
        out.push_str(" 个物理通道");
        assert(out@ =~= "已发现 "@ + text::decimal(channels as nat) + " 个物理通道"@);
    }
    out.push_str(" · ");
    text::push_decimal(&mut out, elapsed_ms);
    out.push_str(" ms");
    out
}

/// Whether the name of a file ends like that of a project, whatever its case.
pub fn is_project_file(extension: &str) -> (r: bool)
    ensures
        r == (text::upper(extension@) == text::upper("pcprj"@) || text::upper(extension@)
            == text::upper("zcp"@) || text::upper(extension@) == text::upper("json"@)),
{
    text::same_ignoring_case(extension, "pcprj") || text::same_ignoring_case(extension, "zcp")
        || text::same_ignoring_case(extension, "json")
}

/// The name of a project: its own, else that of its file, else a standing one.
pub fn project_name(name: &str, file_stem: Option<&str>) -> (r: String)
    ensures
        r@ == if text::trim(name@).len() > 0 {
            name@
        } else {
            match file_stem {
                Some(s) => s@,
                None => "CAN_Test_Project"@,
            }
        },
{
    let bare = text::trimmed(name);
    if !bare.as_str().is_empty() {
        name.to_owned()
    } else {
        match file_stem {
            Some(s) => s.to_owned(),
            None => "CAN_Test_Project".to_owned(),
        }
    }
}

/// The identifier in the key of a message, and whether it is an extended one.
pub open spec fn key_parts(key: u64) -> (u32, bool) {
    ((key as int % 0x1_0000_0000) as u32, (key as int / 0x40_0000_0000) % 2 == 1)
}

/// The identifier in the key of a message, and whether it is an extended one.
pub fn split_key(key: u64) -> (r: (u32, bool))
    ensures
        r == key_parts(key),
{
    ((key % 0x1_0000_0000) as u32, (key / 0x40_0000_0000) % 2 == 1)
}

/// The text of the selected message: its identifier and its name, where it has one.
pub fn selected_text(key: Option<u64>, name: &str) -> (r: String)
    ensures
        r@ == match key {
            None => "无"@,
            Some(k) => if name@.len() == 0 {
                "0x"@ + text::hex(key_parts(k).0 as nat)
            } else {
                "0x"@ + text::hex(key_parts(k).0 as nat) + " "@ + name@
            },
        },
{
    match key {
        None => "无".to_owned(),
        Some(k) => {
            let parts = split_key(k);
            let mut out = "0x".to_owned();
            text::push_hex(&mut out, parts.0 as u64);
            if !name.is_empty() {
                out.push_str(" ");
                out.push_str(name);
            }
            out
        },
    }
}

/// What is said of the filter: what is wrong with its texts, that changes wait, that there is none,
/// or that it is in force.
pub open spec fn filter_words(
    fault: Option<Seq<char>>,
    draft: FilterView,
    active: FilterView,
    english: bool,
) -> Seq<char> {
    match fault {
        Some(e) => e,
        None => if draft != active {
            if english {
                "Pending changes — click Apply"@
            } else {
                "待应用：点击应用筛选"@
            }
        } else if active == no_filter() {
            if english {
                "No active filter"@
            } else {
                "未启用筛选"@
            }
        } else if english {
            "Filter applied"@
        } else {
            "筛选已生效"@
        },
    }
}

/// What is said of a filter whose texts were checked, given the filter that they mean and the one
/// in force.
pub fn filter_feedback(
    checked: Result<(), String>,
    draft: &Filter,
    active: &Filter,
    english: bool,
) -> (r: String)
    ensures
        r@ == filter_words(
            match checked {
                Ok(_) => None,
                Err(e) => Some(e@),
            },
            draft@,
            active@,
            english,
        ),
{
    match checked {
        Err(e) => e,
        Ok(_) => {
            let words: &str = if !same_filter(draft, active) {
                if english {
                    "Pending changes — click Apply"
                } else {
                    "待应用：点击应用筛选"
                }
            } else if same_filter(active, &Filter::default()) {
                if english {
                    "No active filter"
                } else {
                    "未启用筛选"
                }
            } else if english {
                "Filter applied"
            } else {
                "筛选已生效"
            };
            words.to_owned()
        },
    }
}

// ---------------------------------------------------------------- signals to choose from

/// A signal of a database.
#[derive(Debug)]
pub struct SignalChoice {
    pub id: u32,
    pub message: String,
    pub signal: String,
    pub unit: String,
}

/// What a signal of a database is.
pub struct ChoiceView {
    pub id: u32,
    pub message: Seq<char>,
    pub signal: Seq<char>,
    pub unit: Seq<char>,
}

impl View for SignalChoice {
    type V = ChoiceView;

    open spec fn view(&self) -> ChoiceView {
        ChoiceView {
            id: self.id,
            message: self.message@,
            signal: self.signal@,
            unit: self.unit@,
        }
    }
}

impl Clone for SignalChoice {
    fn clone(&self) -> (r: SignalChoice)
        ensures
            r@ == self@,
    {
        SignalChoice {
            id: self.id,
            message: self.message.clone(),
            signal: self.signal.clone(),
            unit: self.unit.clone(),
        }
    }
}

/// What some signals are.
pub open spec fn choices_view(v: Seq<SignalChoice>) -> Seq<ChoiceView> {
    v.map_values(|c: SignalChoice| c@)
}

/// Whether a signal of the same name and message is among some signals.
pub open spec fn known(v: Seq<ChoiceView>, c: ChoiceView) -> bool {
    exists|i: int| 0 <= i < v.len() && (#[trigger] v[i]).id == c.id && v[i].signal == c.signal
}

/// The signals of which none of the same name and message came before.
pub open spec fn first_choices(v: Seq<ChoiceView>) -> Seq<ChoiceView>
    decreases v.len(),
{
    if v.len() == 0 {
        seq![]
    } else {
        let before = first_choices(v.drop_last());
        if known(before, v.last()) {
            before
        } else {
            before.push(v.last())
        }
    }
}

/// What signals to choose from are sorted by: their message, then their name.
pub open spec fn choice_ranks(v: Seq<ChoiceView>) -> Seq<Rank> {
    v.map_values(|c: ChoiceView| (c.id as int, c.signal))
}

/// The signals to choose from: each once, by message and name.
pub open spec fn offered(v: Seq<ChoiceView>) -> Seq<ChoiceView> {
    let firsts = first_choices(v);
    arranged(choice_ranks(firsts), false, firsts.len() as int).map_values(|i: int| firsts[i])
}

fn keep_first(v: &[SignalChoice]) -> (r: Vec<SignalChoice>)
    ensures
        choices_view(r@) == first_choices(choices_view(v@)),
{
    let ghost all = choices_view(v@);
    let mut out: Vec<SignalChoice> = Vec::new();
    let mut i: usize = 0;
    assert(all.take(0) =~= seq![]);
    assert(choices_view(out@) =~= first_choices(all.take(0)));
    while i < v.len()
        invariant
            i <= v@.len(),
            all == choices_view(v@),
            choices_view(out@) == first_choices(all.take(i as int)),
        decreases v@.len() - i,
    {
        let ghost so_far = choices_view(out@);
        let ghost c = all[i as int];
        let mut found: bool = false;
        let mut k: usize = 0;
        while k < out.len()
            invariant
                k <= out@.len(),
                i < v@.len(),
                so_far == choices_view(out@),
                c == v@[i as int]@,
                found == (exists|j: int|
                    0 <= j < k && (#[trigger] so_far[j]).id == c.id && so_far[j].signal == c.signal),
            decreases out@.len() - k,
        {
            assert(so_far[k as int] == out@[k as int]@);
            if out[k].id == v[i].id && text::same_text(
                out[k].signal.as_str(),
                v[i].signal.as_str(),
            ) {
                found = true;
            }
            k += 1;
        }
        assert(found == known(so_far, c));
        assert(all.take(i + 1).drop_last() =~= all.take(i as int));
        assert(all.take(i + 1).last() == c);
        if !found {
            let ghost before = out@;
            out.push(v[i].clone());
            assert(choices_view(out@) =~= choices_view(before).push(c));
        }
        i += 1;
    }
    assert(all.take(i as int) =~= all);
    out
}

/// The signals to choose from: each once, by message and name.
pub fn offer_signals(v: &[SignalChoice]) -> (r: Vec<SignalChoice>)
    ensures
        choices_view(r@) == offered(choices_view(v@)),
{
    let firsts = keep_first(v);
    let ghost f = choices_view(firsts@);
    let ghost all = choice_ranks(f);
    let mut ranks: Vec<(i128, Vec<char>)> = Vec::new();
    let mut i: usize = 0;
    while i < firsts.len()
        invariant
            i <= firsts@.len(),
            f == choices_view(firsts@),
            all == choice_ranks(f),
            ranks_view(ranks@) =~= all.take(i as int),
        decreases firsts@.len() - i,
    {
        let ghost before = ranks@;
        let name = text::chars_of(firsts[i].signal.as_str());
        ranks.push((firsts[i].id as i128, name));
        assert(ranks_view(ranks@) =~= ranks_view(before).push(all[i as int]));
        i += 1;
    }
    assert(all.take(i as int) =~= all);
    let order = arrange(ranks.as_slice(), false);
    let ghost target = offered(choices_view(v@));
    let mut out: Vec<SignalChoice> = Vec::new();
    let mut k: usize = 0;
    while k < order.len()
        invariant
            k <= order@.len(),
            order@.len() == firsts@.len(),
            f == choices_view(firsts@),
            numbers_view(order@) == arranged(all, false, firsts@.len() as int),
            all == choice_ranks(f),
            f == first_choices(choices_view(v@)),
            target == offered(choices_view(v@)),
            forall|i: int| 0 <= i < order@.len() ==> (#[trigger] order@[i]) < firsts@.len(),
            choices_view(out@) =~= target.take(k as int),
        decreases order@.len() - k,
    {
        let ghost before = out@;
        let at: usize = order[k];
        out.push(firsts[at].clone());
        assert(numbers_view(order@)[k as int] == at);
        assert(target[k as int] == firsts@[at as int]@);
        assert(choices_view(out@) =~= choices_view(before).push(target[k as int]));
        k += 1;
    }
    assert(target.take(k as int) =~= target);
    out
}

/// The row of a signal to choose.
pub open spec fn choice_words(c: ChoiceView) -> Seq<char> {
    "0x"@ + text::hex(c.id as nat) + " "@ + c.message + " / "@ + c.signal + (if c.unit.len() == 0 {
        Seq::<char>::empty()
    } else {
        " ["@ + c.unit + "]"@
    })
}

/// The rows of the signals to choose from, or the row that says that there are none.
pub open spec fn choice_lines(offered: Seq<ChoiceView>) -> Seq<Seq<char>> {
    if offered.len() == 0 {
        seq!["(无 DBC 信号)"@]
    } else {
        offered.map_values(|c: ChoiceView| choice_words(c))
    }
}

/// The rows of signals to choose from.
pub fn choice_rows(choices: &[SignalChoice]) -> (r: Vec<String>)
    ensures
        text::texts(r@) == choice_lines(choices_view(choices@)),
{
    let mut out: Vec<String> = Vec::new();
    let ghost all = choices_view(choices@);
    if choices.len() == 0 {
        out.push("(无 DBC 信号)".to_owned());
        assert(text::texts(out@) =~= seq!["(无 DBC 信号)"@]);
        return out;
    }
    let ghost f = |c: ChoiceView| choice_words(c);
    let mut i: usize = 0;
    assert(text::texts(out@) =~= all.take(0).map_values(f));
    while i < choices.len()
        invariant
            i <= choices@.len(),
            all == choices_view(choices@),
            f == (|c: ChoiceView| choice_words(c)),
            text::texts(out@) == all.take(i as int).map_values(f),
        decreases choices@.len() - i,
    {
        let ghost before = out@;
        out.push(choice_text(&choices[i]));
        assert(text::texts(out@) =~= text::texts(before).push(choice_words(all[i as int])));
        assert(all.take(i + 1).map_values(f) =~= all.take(i as int).map_values(f).push(
            f(all[i as int]),
        ));
        i += 1;
    }
    assert(all.take(i as int) =~= all);
    out
}

/// The row of a signal to choose.
pub fn choice_text(c: &SignalChoice) -> (r: String)
    ensures
        r@ == choice_words(c@),
{
    let mut out = "0x".to_owned();
    text::push_hex(&mut out, c.id as u64);
    out.push_str(" ");
    out.push_str(c.message.as_str());
    out.push_str(" / ");
    out.push_str(c.signal.as_str());
    let ghost head = out@;
    if !c.unit.as_str().is_empty() {
        out.push_str(" [");
        out.push_str(c.unit.as_str());
        out.push_str("]");
        assert(out@ =~= head + (" ["@ + c.unit@ + "]"@));
    } else {
        assert(out@ =~= head + Seq::<char>::empty());
    }
    out
}

} // verus!

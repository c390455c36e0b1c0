//! The signals of an expanded message: their order, the values that are kept for those that are not
//! being sent, and their rows.
use crate::order::{arrange, arranged, numbers_view, ranks_view, Rank};
use crate::text;
use crate::workbench::message_rows::MsgRow;
use vstd::prelude::*;

verus! {

/// A decoded signal. Its value is given as text.
#[derive(Debug)]
pub struct Decoded {
    pub name: String,
    pub raw_text: String,
    pub physical_text: String,
    pub unit: String,
    pub start_bit: u64,
    pub size: u64,
    pub out_of_range: bool,
    pub enum_txt: String,
    /// Whether the multiplexer selects the signal.
    pub mux_active: bool,
    /// The value of the multiplexer that selects the signal, if one does.
    pub mux_value: Option<u64>,
}

/// What a decoded signal is.
pub struct DecodedView {
    pub name: Seq<char>,
    pub raw_text: Seq<char>,
    pub physical_text: Seq<char>,
    pub unit: Seq<char>,
    pub start_bit: u64,
    pub size: u64,
    pub out_of_range: bool,
    pub enum_txt: Seq<char>,
    pub mux_active: bool,
    pub mux_value: Option<u64>,
}

impl View for Decoded {
    type V = DecodedView;

    open spec fn view(&self) -> DecodedView {
        DecodedView {
            name: self.name@,
            raw_text: self.raw_text@,
            physical_text: self.physical_text@,
            unit: self.unit@,
            start_bit: self.start_bit,
            size: self.size,
            out_of_range: self.out_of_range,
            enum_txt: self.enum_txt@,
            mux_active: self.mux_active,
            mux_value: self.mux_value,
        }
    }
}

impl Clone for Decoded {
    fn clone(&self) -> (r: Decoded)
        ensures
            r@ == self@,
    {
        Decoded {
            name: self.name.clone(),
            raw_text: self.raw_text.clone(),
            physical_text: self.physical_text.clone(),
            unit: self.unit.clone(),
            start_bit: self.start_bit,
            size: self.size,
            out_of_range: self.out_of_range,
            enum_txt: self.enum_txt.clone(),
            mux_active: self.mux_active,
            mux_value: self.mux_value,
        }
    }
}

/// What some signals are.
pub open spec fn signals_view(signals: Seq<Decoded>) -> Seq<DecodedView> {
    signals.map_values(|s: Decoded| s@)
}

// ---------------------------------------------------------------- order

/// What signals are sorted by: their first bit, then their name.
pub open spec fn signal_ranks(signals: Seq<DecodedView>) -> Seq<Rank> {
    signals.map_values(|s: DecodedView| (s.start_bit as int, s.name))
}

/// The signals in the order of their first bits, and of their names where those are equal.
pub open spec fn displayed(signals: Seq<DecodedView>) -> Seq<DecodedView> {
    arranged(signal_ranks(signals), false, signals.len() as int).map_values(|i: int| signals[i])
}

/// Sorts signals by their first bits, and by their names where those are equal.
pub fn sort_decoded_for_display(signals: &mut Vec<Decoded>)
    ensures
        signals_view(final(signals)@) == displayed(signals_view(old(signals)@)),
{
    let ghost all = signal_ranks(signals_view(signals@));
    let mut ranks: Vec<(i128, Vec<char>)> = Vec::new();
    let mut i: usize = 0;
    while i < signals.len()
        invariant
            i <= signals@.len(),
            signals@ == old(signals)@,
            all == signal_ranks(signals_view(signals@)),
            ranks_view(ranks@) =~= all.take(i as int),
        decreases signals@.len() - i,
    {
        let ghost before = ranks@;
        let name = text::chars_of(signals[i].name.as_str());
        ranks.push((signals[i].start_bit as i128, name));
        assert(ranks_view(ranks@) =~= ranks_view(before).push(all[i as int]));
        i += 1;
    }
    assert(all.take(i as int) =~= all);
    let order = arrange(ranks.as_slice(), false);
    let ghost target = displayed(signals_view(signals@));
    let mut out: Vec<Decoded> = Vec::new();
    let mut k: usize = 0;
    while k < order.len()
        invariant
            k <= order@.len(),
            order@.len() == signals@.len(),
            signals@ == old(signals)@,
            numbers_view(order@) == arranged(all, false, signals@.len() as int),
            all == signal_ranks(signals_view(signals@)),
            target == displayed(signals_view(signals@)),
            forall|i: int| 0 <= i < order@.len() ==> (#[trigger] order@[i]) < signals@.len(),
            signals_view(out@) =~= target.take(k as int),
        decreases order@.len() - k,
    {
        let ghost before = out@;
        let at: usize = order[k];
        out.push(signals[at].clone());
        assert(numbers_view(order@)[k as int] == at);
        assert(target[k as int] == signals@[at as int]@);
        assert(signals_view(out@) =~= signals_view(before).push(target[k as int]));
        k += 1;
    }
    assert(target.take(k as int) =~= target);
    *signals = out;
}

// ---------------------------------------------------------------- kept values

/// The last values of signals that a multiplexer selects, by the key of their message and their
/// name.
#[derive(Debug)]
pub struct SignalCache {
    pub entries: Vec<(u64, Decoded)>,
}

/// What is kept: for a key and a name the last value.
pub open spec fn kept_map(entries: Seq<(u64, Decoded)>) -> Map<(u64, Seq<char>), DecodedView>
    decreases entries.len(),
{
    if entries.len() == 0 {
        Map::empty()
    } else {
        let e = entries.last();
        kept_map(entries.drop_last()).insert((e.0, e.1@.name), e.1@)
    }
}

impl View for SignalCache {
    type V = Map<(u64, Seq<char>), DecodedView>;

    closed spec fn view(&self) -> Map<(u64, Seq<char>), DecodedView> {
        kept_map(self.entries@)
    }
}

proof fn lemma_kept_map(entries: Seq<(u64, Decoded)>, i: int, key: u64, name: Seq<char>)
    requires
        0 <= i < entries.len(),
        entries[i].0 == key,
        entries[i].1@.name == name,
        forall|j: int|
            i < j < entries.len() ==> !((#[trigger] entries[j]).0 == key && entries[j].1@.name
                == name),
    ensures
        kept_map(entries).dom().contains((key, name)),
        kept_map(entries)[(key, name)] == entries[i].1@,
    decreases entries.len(),
{
    if i < entries.len() - 1 {
        let e = entries[entries.len() - 1];
        assert(!(e.0 == key && e.1@.name == name));
        assert((e.0, e.1@.name) != (key, name));
        lemma_kept_map(entries.drop_last(), i, key, name);
    }
}

proof fn lemma_not_kept(entries: Seq<(u64, Decoded)>, key: u64, name: Seq<char>)
    requires
        forall|j: int|
            0 <= j < entries.len() ==> !((#[trigger] entries[j]).0 == key && entries[j].1@.name
                == name),
    ensures
        !kept_map(entries).dom().contains((key, name)),
    decreases entries.len(),
{
    if entries.len() > 0 {
        let e = entries[entries.len() - 1];
        assert((e.0, e.1@.name) != (key, name));
        lemma_not_kept(entries.drop_last(), key, name);
    }
}

proof fn lemma_kept_removed(entries: Seq<(u64, Decoded)>, i: int)
    requires
        0 <= i < entries.len(),
        forall|j: int|
            i < j < entries.len() ==> !((#[trigger] entries[j]).0 == entries[i].0
                && entries[j].1@.name == entries[i].1@.name),
    ensures
        kept_map(entries) == kept_map(entries.remove(i)).insert(
            (entries[i].0, entries[i].1@.name),
            entries[i].1@,
        ),
    decreases entries.len(),
{
    let k = (entries[i].0, entries[i].1@.name);
    if i == entries.len() - 1 {
        assert(entries.remove(i) =~= entries.drop_last());
    } else {
        let rest = entries.drop_last();
        let e = entries.last();
        let ke = (e.0, e.1@.name);
        lemma_kept_removed(rest, i);
        assert(entries.remove(i).drop_last() =~= rest.remove(i));
        assert(entries.remove(i).last() == e);
        assert(entries[entries.len() - 1] == e);
        assert(ke != k);
        assert(kept_map(entries) =~= kept_map(entries.remove(i)).insert(k, entries[i].1@));
    }
}

impl SignalCache {
    /// Nothing is kept.
    pub fn new() -> (r: SignalCache)
        ensures
            r@ == Map::<(u64, Seq<char>), DecodedView>::empty(),
    {
        SignalCache { entries: Vec::new() }
    }

    fn find(&self, key: u64, name: &str) -> (r: Option<usize>)
        ensures
            match r {
                Some(i) => i < self.entries@.len() && self.entries@[i as int].0 == key
                    && self.entries@[i as int].1@.name == name@ && self@.dom().contains(
                    (key, name@),
                ) && self@[(key, name@)] == self.entries@[i as int].1@ && (forall|j: int|
                    i < j < self.entries@.len() ==> !((#[trigger] self.entries@[j]).0 == key
                        && self.entries@[j].1@.name == name@)),
                None => !self@.dom().contains((key, name@)),
            },
    {
        let mut i: usize = self.entries.len();
        while i > 0
            invariant
                i <= self.entries@.len(),
                forall|j: int|
                    i <= j < self.entries@.len() ==> !((#[trigger] self.entries@[j]).0 == key
                        && self.entries@[j].1@.name == name@),
            decreases i,
        {
            i -= 1;
            if self.entries[i].0 == key && text::same_text(self.entries[i].1.name.as_str(), name) {
                proof {
                    lemma_kept_map(self.entries@, i as int, key, name@);
                }
                return Some(i);
            }
        }
        proof {
            lemma_not_kept(self.entries@, key, name@);
        }
        None
    }

    /// The value that is kept for a signal.
    pub fn get(&self, key: u64, name: &str) -> (r: Option<Decoded>)
        ensures
            match r {
                Some(d) => self@.dom().contains((key, name@)) && self@[(key, name@)] == d@,
                None => !self@.dom().contains((key, name@)),
            },
    {
        match self.find(key, name) {
            Some(i) => Some(self.entries[i].1.clone()),
            None => None,
        }
    }

    /// Keeps the value of a signal.
    pub fn insert(&mut self, key: u64, signal: Decoded)
        ensures
            final(self)@ == old(self)@.insert((key, signal@.name), signal@),
    {
        let ghost before = self.entries@;
        match self.find(key, signal.name.as_str()) {
            Some(i) => {
                let _ = self.entries.remove(i);
                proof {
                    lemma_kept_removed(before, i as int);
                    assert(self.entries@ =~= before.remove(i as int));
                }
            },
            None => {},
        }
        let ghost mid = self.entries@;
        self.entries.push((key, signal));
        proof {
            assert(self.entries@.drop_last() =~= mid);
            assert(self@ =~= kept_map(before).insert((key, signal@.name), signal@));
        }
    }
}

/// What is kept after a message was decoded: the values of the signals that its multiplexer
/// selects.
pub open spec fn kept_after(
    kept: Map<(u64, Seq<char>), DecodedView>,
    key: u64,
    signals: Seq<DecodedView>,
) -> Map<(u64, Seq<char>), DecodedView>
    decreases signals.len(),
{
    if signals.len() == 0 {
        kept
    } else {
        let s = signals.last();
        let before = kept_after(kept, key, signals.drop_last());
        if s.mux_active && s.mux_value is Some {
            before.insert((key, s.name), s)
        } else {
            before
        }
    }
}

/// What is shown of a signal, and whether it has a value: its value where it is sent, else the last
/// one that is kept, marked as not being sent.
pub open spec fn shown_signal(
    kept: Map<(u64, Seq<char>), DecodedView>,
    key: u64,
    s: DecodedView,
) -> (DecodedView, bool) {
    if s.mux_active {
        (s, true)
    } else if kept.dom().contains((key, s.name)) {
        (DecodedView { mux_active: false, ..kept[(key, s.name)] }, true)
    } else {
        (s, false)
    }
}

/// What is shown of the signals of a message.
pub open spec fn shown_signals(
    kept: Map<(u64, Seq<char>), DecodedView>,
    key: u64,
    signals: Seq<DecodedView>,
) -> Seq<(DecodedView, bool)> {
    signals.map_values(|s: DecodedView| shown_signal(kept, key, s))
}

/// What some shown signals are.
pub open spec fn pairs_view(pairs: Seq<(Decoded, bool)>) -> Seq<(DecodedView, bool)> {
    pairs.map_values(|p: (Decoded, bool)| (p.0@, p.1))
}

/// The signals of an expanded message, in order, with the values that are kept.
pub fn expand_signals(cache: &mut SignalCache, key: u64, decoded: Vec<Decoded>) -> (r: Vec<
    (Decoded, bool),
>)
    ensures
        ({
            let sorted = displayed(signals_view(decoded@));
            &&& final(cache)@ == kept_after(old(cache)@, key, sorted)
            &&& pairs_view(r@) == shown_signals(final(cache)@, key, sorted)
        }),
{
    let mut signals = decoded;
    sort_decoded_for_display(&mut signals);
    let ghost all = signals_view(signals@);
    let ghost kept0 = cache@;
    let mut i: usize = 0;
    assert(all.take(0) =~= seq![]);
    while i < signals.len()
        invariant
            i <= signals@.len(),
            all == signals_view(signals@),
            cache@ == kept_after(kept0, key, all.take(i as int)),
        decreases signals@.len() - i,
    {
        assert(all.take(i + 1).drop_last() =~= all.take(i as int));
        assert(all.take(i + 1).last() == signals@[i as int]@);
        if signals[i].mux_active && signals[i].mux_value.is_some() {
            cache.insert(key, signals[i].clone());
        }
        i += 1;
    }
    assert(all.take(i as int) =~= all);
    let ghost kept = cache@;
    let mut out: Vec<(Decoded, bool)> = Vec::new();
    let ghost target = shown_signals(kept, key, all);
    let mut k: usize = 0;
    while k < signals.len()
        invariant
            k <= signals@.len(),
            all == signals_view(signals@),
            kept == cache@,
            target == shown_signals(kept, key, all),
            pairs_view(out@) =~= target.take(k as int),
        decreases signals@.len() - k,
    {
        let ghost before = out@;
        let current = &signals[k];
        assert(all[k as int] == current@);
        let shown: (Decoded, bool) = if current.mux_active {
            (current.clone(), true)
        } else {
            match cache.get(key, current.name.as_str()) {
                Some(previous) => {
                    let mut previous = previous;
                    previous.mux_active = false;
                    (previous, true)
                },
                None => (current.clone(), false),
            }
        };
        assert((shown.0@, shown.1) == target[k as int]);
        out.push(shown);
        assert(pairs_view(out@) =~= pairs_view(before).push(target[k as int]));
        k += 1;
    }
    assert(target.take(k as int) =~= target);
    out
}

/// A signal that its multiplexer selected once keeps its value: while it is not selected, the value
/// of the last time is shown.
pub proof fn law_last_values_are_shown(
    kept: Map<(u64, Seq<char>), DecodedView>,
    key: u64,
    s: DecodedView,
    later: DecodedView,
)
    requires
        s.mux_active,
        s.mux_value is Some,
        later.name == s.name,
        !later.mux_active,
    ensures
        shown_signal(kept_after(kept, key, seq![s]), key, later) == (
            DecodedView { mux_active: false, ..s },
            true,
        ),
{
    assert(seq![s].drop_last() =~= seq![]);
    assert(kept_after(kept, key, seq![]) == kept);
}

// ---------------------------------------------------------------- rows

/// The value of a signal as it is shown.
pub open spec fn value_text(s: DecodedView, has_value: bool) -> Seq<char> {
    let value = if has_value {
        s.physical_text + (if s.unit.len() > 0 {
            seq![' '] + s.unit
        } else {
            seq![]
        }) + "  (Raw: "@ + s.raw_text + ")"@ + (if s.enum_txt.len() > 0 {
            "  "@ + s.enum_txt
        } else {
            seq![]
        })
    } else {
        "—"@
    };
    match s.mux_value {
        None => value,
        Some(m) => value + "  [MUX="@ + text::decimal(m as nat) + (if s.mux_active {
            " 当前]"@
        } else if has_value {
            " 上次值]"@
        } else {
            " 等待]"@
        }),
    }
}

fn value_string(s: &Decoded, has_value: bool) -> (r: String)
    ensures
        r@ == value_text(s@, has_value),
{
    let mut out: String;
    if has_value {
        out = s.physical_text.clone();
        let ghost a = out@;
        if !s.unit.as_str().is_empty() {
            out.push(' ');
            out.push_str(s.unit.as_str());
            assert(out@ =~= a + (seq![' '] + s.unit@));
        } else {
            assert(out@ =~= a + seq![]);
        }
        out.push_str("  (Raw: ");
        out.push_str(s.raw_text.as_str());
        out.push_str(")");
        let ghost b = out@;
        if !s.enum_txt.as_str().is_empty() {
            out.push_str("  ");
            out.push_str(s.enum_txt.as_str());
            assert(out@ =~= b + ("  "@ + s.enum_txt@));
        } else {
            assert(out@ =~= b + seq![]);
        }
    } else {
        out = "—".to_owned();
    }
    match s.mux_value {
        Some(m) => {
            out.push_str("  [MUX=");
            text::push_decimal(&mut out, m);
            if s.mux_active {
                out.push_str(" 当前]");
            } else if has_value {
                out.push_str(" 上次值]");
            } else {
                out.push_str(" 等待]");
            }
        },
        None => {},
    }
    out
}

fn nothing() -> (r: String)
    ensures
        r@ == Seq::<char>::empty(),
{
    let out = String::new();
    assert(out@ =~= Seq::<char>::empty());
    out
}

/// The row of a signal.
pub fn make_signal_row(s: &Decoded, has_valid_value: bool) -> (row: MsgRow)
    ensures
        row.name@ == "  "@ + s.name@,
        row.kind@ == "Sig"@,
        row.data_text@ == value_text(s@, has_valid_value),
        row.count@ == "Bit "@ + text::decimal(s.start_bit as nat) + ":"@ + text::decimal(
            s.size as nat,
        ),
        row.comment@ == if !s.mux_active && s.mux_value is Some {
            "MuxInactive"@
        } else if s.out_of_range {
            "OutOfRange"@
        } else {
            "Normal"@
        },
        row.signal_name@ == s.name@,
        row.signal_out_of_range == s.out_of_range,
        row.is_signal,
        !row.is_tx && !row.is_error && !row.is_new && !row.timeout,
        !row.can_expand && !row.expanded,
        row.no@.len() == 0 && row.time@.len() == 0 && row.delta@.len() == 0,
        row.ch@.len() == 0 && row.id@.len() == 0 && row.dlc@.len() == 0,
        row.len@.len() == 0 && row.cycle@.len() == 0 && row.data_bytes@.len() == 0,
        row.dir@ == ""@ && row.fd@ == ""@ && row.brs@ == ""@,
{
    let mut name = "  ".to_owned();
    name.push_str(s.name.as_str());
    let mut count = "Bit ".to_owned();
    text::push_decimal(&mut count, s.start_bit);
    count.push_str(":");
    text::push_decimal(&mut count, s.size);
    MsgRow {
        no: nothing(),
        time: nothing(),
        delta: nothing(),
        ch: nothing(),
        dir: "",
        id: nothing(),
        name,
        kind: "Sig",
        fd: "",
        brs: "",
        dlc: nothing(),
        len: nothing(),
        data_bytes: Vec::new(),
        data_text: value_string(s, has_valid_value),
        cycle: nothing(),
        count,
        comment: if !s.mux_active && s.mux_value.is_some() {
            "MuxInactive"
        } else if s.out_of_range {
            "OutOfRange"
        } else {
            "Normal"
        },
        is_tx: false,
        is_error: false,
        is_new: false,
        timeout: false,
        is_signal: true,
        can_expand: false,
        expanded: false,
        signal_name: s.name.clone(),
        signal_out_of_range: s.out_of_range,
    }
}

} // verus!

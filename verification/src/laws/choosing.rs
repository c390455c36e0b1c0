//! Laws on filters, on the choice of recorded frames and on their order.
use crate::can::{frames_view, CanFrame, FrameView};
use crate::order::{arranged, law_rows_are_arranged, law_texts_are_ordered, stands_behind};
use crate::table::Table;
use crate::text::{self, find, hex, is_space, numeral, trim};
use crate::workbench::filters::{
    allowed, bytes_of, denied, dir_idx_to_opt, hex_number, is_condition, is_id, parse_filter,
    Filter,
};
use crate::workbench::replay_files::{
    border, by_time, channel_map, channel_pair, choose_frames, first_time, last_time, replayed,
    time_ranks, ReplayChoice,
};
use crate::workbench::signals::{displayed, signal_ranks, DecodedView};
use vstd::prelude::*;

verus! {

// ---------------------------------------------------------------- numerals

/// Every character of a numeral is a digit of its base.
pub(crate) proof fn lemma_digits(n: nat, base: nat)
    requires
        2 <= base <= 16,
    ensures
        numeral(n, base).len() >= 1,
        forall|i: int|
            0 <= i < numeral(n, base).len() ==> 48 <= (#[trigger] numeral(n, base)[i]) as u32 <= 70
                && !(58 <= numeral(n, base)[i] as u32 <= 64),
    decreases n,
{
    crate::laws::texts::law_numerals_end_in_their_last_digit(n, base);
    if n >= base {
        assert(n / base < n) by (nonlinear_arith)
            requires
                n >= base,
                base >= 2,
        ;
        lemma_digits(n / base, base);
        assert(n % base < base) by (nonlinear_arith)
            requires
                base >= 2,
        ;
        assert forall|i: int| 0 <= i < numeral(n, base).len() implies 48 <= (#[trigger] numeral(
            n,
            base,
        )[i]) as u32 <= 70 && !(58 <= numeral(n, base)[i] as u32 <= 64) by {
            if i < numeral(n, base).len() - 1 {
                assert(numeral(n, base)[i] == numeral(n, base).drop_last()[i]);
            }
        }
    } else {
        vstd::arithmetic::div_mod::lemma_small_mod(n, base);
    }
}

pub(crate) proof fn lemma_not_trimmed(s: Seq<char>)
    requires
        s.len() > 0,
        !is_space(s[0]),
        !is_space(s.last()),
    ensures
        trim(s) == s,
{
}

pub(crate) proof fn lemma_no_char(s: Seq<char>, c: char)
    requires
        forall|i: int| 0 <= i < s.len() ==> s[i] != c,
    ensures
        find(s, c) == s.len(),
{
    crate::text::lemma_find_unique(s, c, s.len() as int);
}

/// An identifier is written in hexadecimal digits, with or without `0x` before them.
pub proof fn law_identifiers_are_hexadecimal(n: nat)
    requires
        n <= 0xFFFF_FFFF,
    ensures
        hex_number(numeral(n, 16)) == Some(n),
        hex_number("0x"@ + numeral(n, 16)) == Some(n),
        n <= 0x1FFF_FFFF <==> is_id(numeral(n, 16)),
{
    let s = numeral(n, 16);
    lemma_digits(n, 16);
    lemma_not_trimmed(s);
    reveal_strlit("0x");
    reveal_strlit("0X");
    crate::laws::texts::law_numbers_are_written_in_their_base(n, 0, 0);
    crate::laws::texts::law_numerals_read_back(n, 16);
    assert(!text::has_prefix(s, "0x"@)) by {
        if text::has_prefix(s, "0x"@) {
            assert(s.take(2)[1] == "0x"@[1]);
            assert(s[1] == 'x');
        }
    }
    assert(!text::has_prefix(s, "0X"@)) by {
        if text::has_prefix(s, "0X"@) {
            assert(s.take(2)[1] == "0X"@[1]);
            assert(s[1] == 'X');
        }
    }
    let t = "0x"@ + s;
    assert(t[0] == '0' && t.last() == s.last());
    lemma_not_trimmed(t);
    assert(t.take(2) =~= "0x"@);
    assert(t.skip(2) =~= s);
    assert(s[0] != '+');
}

/// A filter lets one identifier pass, or all from one to another in either order; with an
/// exclamation mark it keeps one out.
pub proof fn law_conditions_name_identifiers(a: nat, b: nat)
    requires
        a <= 0x1FFF_FFFF,
        b <= 0x1FFF_FFFF,
    ensures
        allowed(numeral(a, 16)) == Some((a as u32, a as u32)),
        denied(numeral(a, 16)) is None,
        denied(seq!['!'] + numeral(a, 16)) == Some(a as u32),
        allowed(seq!['!'] + numeral(a, 16)) is None,
        a <= b ==> allowed(numeral(a, 16) + seq!['-'] + numeral(b, 16)) == Some((a as u32, b as u32)),
        a > b ==> allowed(numeral(a, 16) + seq!['-'] + numeral(b, 16)) == Some((b as u32, a as u32)),
        is_condition(numeral(a, 16)),
        is_condition(seq!['!'] + numeral(a, 16)),
        is_condition(numeral(a, 16) + seq!['-'] + numeral(b, 16)),
{
    let s = numeral(a, 16);
    let z = numeral(b, 16);
    lemma_digits(a, 16);
    lemma_digits(b, 16);
    law_identifiers_are_hexadecimal(a);
    law_identifiers_are_hexadecimal(b);
    lemma_no_char(s, '-');
    let n = seq!['!'] + s;
    assert(n[0] == '!' && n.skip(1) =~= s);
    let w = s + seq!['-'] + z;
    assert(w[0] == s[0]);
    assert(w[s.len() as int] == '-');
    assert forall|i: int| 0 <= i < s.len() implies w[i] != '-' by {
        assert(w[i] == s[i]);
    }
    crate::text::lemma_find_unique(w, '-', s.len() as int);
    assert(w.take(s.len() as int) =~= s);
    assert(w.skip(s.len() as int + 1) =~= z);
    lemma_not_trimmed(s);
    lemma_not_trimmed(z);
}

/// The bytes of a filter are written in two hexadecimal digits each.
pub proof fn law_bytes_are_hexadecimal(b: u8, before: Seq<Seq<char>>)
    ensures
        bytes_of(before.push(text::hex_padded(b as nat, 2))) == bytes_of(before).push(b),
{
    crate::laws::texts::law_bytes_have_two_digits(b);
    let w = text::hex_padded(b as nat, 2);
    let all = before.push(w);
    assert(all.drop_last() =~= before);
    lemma_digits(b as nat, 16);
    assert(w[1] != 'x') by {
        crate::laws::texts::law_numbers_are_written_in_their_base(b as nat, 0, 2);
        assert(w.skip(w.len() - hex(b as nat).len()) == hex(b as nat));
        assert(w[1] == hex(b as nat).last());
    }
    assert(w[0] != '+') by {
        if hex(b as nat).len() == 2 {
            assert(w == hex(b as nat));
        }
    }
}

/// A name stands for itself; a star behind it for all that begin with it, a star before it for all
/// that end with it, and an exclamation mark for all others.
pub proof fn law_names_are_read(id: &str, name: &str, data: &str, r: Filter)
    requires
        call_ensures(parse_filter, (id, name, data), r),
    ensures
        ({
            let n = trim(name@);
            &&& n.len() == 0 <==> r.name is None
            &&& r.name_exclude <==> n.len() > 0 && n[0] == '!'
            &&& r.name_prefix <==> n.len() > 0 && n[0] != '!' && n.last() == '*'
            &&& r.name_suffix <==> n.len() > 0 && n[0] == '*' && n.last() != '*'
            &&& n.len() > 0 && (n[0] == '!' || (n[0] == '*' && n.last() != '*')) ==> (r.name->0)@
                == n.skip(1)
            &&& n.len() > 0 && n[0] != '!' && n.last() == '*' ==> (r.name->0)@ == n.drop_last()
            &&& n.len() > 0 && n[0] != '!' && n[0] != '*' && n.last() != '*' ==> (r.name->0)@ == n
        }),
        r.dir_filter is None,
{
}

/// The first choice of direction takes all frames, the second received ones, the third sent ones.
pub proof fn law_directions_are_chosen(idx: i32, r: Option<bool>)
    requires
        call_ensures(dir_idx_to_opt, (idx,), r),
    ensures
        r == Some(false) <==> idx == 1,
        r == Some(true) <==> idx == 2,
{
}

// ---------------------------------------------------------------- recorded frames

/// Recordings are merged by time: times never fall, and frames of one time keep their order.
pub proof fn law_recordings_are_merged_by_time(frames: Seq<FrameView>, i: int, j: int)
    requires
        0 <= i < j < frames.len(),
    ensures
        by_time(frames).len() == frames.len(),
        by_time(frames)[i].t <= by_time(frames)[j].t,
        frames.contains(by_time(frames)[i]),
        by_time(frames).contains(frames[i]),
{
    let ranks = time_ranks(frames);
    let n = frames.len() as int;
    law_rows_are_arranged(ranks, false, n);
    let order = arranged(ranks, false, n);
    assert(order.contains(order[i]) && order.contains(order[j]));
    assert(stands_behind(ranks, false, order[j], order[i]) || !stands_behind(
        ranks,
        false,
        order[i],
        order[j],
    ));
    law_texts_are_ordered(Seq::<char>::empty(), Seq::<char>::empty());
    assert(by_time(frames)[i] == frames[order[i]]);
    assert(order.contains(i));
    let k = choose|k: int| 0 <= k < order.len() && order[k] == i;
    assert(by_time(frames)[k] == frames[i]);
}

/// The first and the last time of a recording are those of frames of it, and all others lie between
/// them.
pub proof fn law_recordings_have_their_ends(frames: Seq<FrameView>, i: int)
    requires
        0 <= i < frames.len(),
    ensures
        first_time(frames) <= frames[i].t <= last_time(frames),
        exists|k: int| 0 <= k < frames.len() && (#[trigger] frames[k]).t == first_time(frames),
        exists|k: int| 0 <= k < frames.len() && (#[trigger] frames[k]).t == last_time(frames),
    decreases frames.len(),
{
    if frames.len() == 1 {
        assert(frames[0].t == first_time(frames));
    } else {
        let rest = frames.drop_last();
        let j = if i < rest.len() { i } else { 0 };
        law_recordings_have_their_ends(rest, j);
        assert(rest[j] == frames[j]);
        let a = choose|k: int| 0 <= k < rest.len() && (#[trigger] rest[k]).t == first_time(rest);
        let b = choose|k: int| 0 <= k < rest.len() && (#[trigger] rest[k]).t == last_time(rest);
        assert(frames[a].t == first_time(rest));
        assert(frames[b].t == last_time(rest));
        assert(frames[frames.len() - 1].t == frames.last().t);
    }
}

proof fn lemma_chosen_count(frames: Seq<FrameView>, c: ReplayChoice, map: Map<u64, u8>)
    ensures
        replayed(frames, c, map).len() <= frames.len(),
    decreases frames.len(),
{
    if frames.len() > 0 {
        lemma_chosen_count(frames.drop_last(), c, map);
    }
}

/// A frame within the chosen identifiers and times is replayed, on the channel that its own is
/// mapped to, unless that is none; its place among those that are replayed.
pub proof fn law_chosen_frames_are_replayed(
    frames: Seq<FrameView>,
    c: ReplayChoice,
    map: Map<u64, u8>,
    i: int,
) -> (k: int)
    requires
        0 <= i < frames.len(),
        c.id_lo <= frames[i].id <= c.id_hi,
        c.start <= frames[i].t <= c.end,
        if map.dom().contains(frames[i].ch as u64) {
            map[frames[i].ch as u64] != 0
        } else {
            frames[i].ch != 0
        },
    ensures
        0 <= k <= i,
        k < replayed(frames, c, map).len(),
        replayed(frames, c, map)[k].id == frames[i].id,
        replayed(frames, c, map)[k].t == frames[i].t,
        replayed(frames, c, map)[k].data == frames[i].data,
        replayed(frames, c, map)[k].ch == (if map.dom().contains(frames[i].ch as u64) {
            map[frames[i].ch as u64]
        } else {
            frames[i].ch
        }),
    decreases frames.len(),
{
    lemma_chosen_count(frames.drop_last(), c, map);
    if i == frames.len() - 1 {
        replayed(frames, c, map).len() - 1
    } else {
        law_chosen_frames_are_replayed(frames.drop_last(), c, map, i)
    }
}

/// Nothing else is replayed.
pub proof fn law_other_frames_are_left_out(
    frames: &[CanFrame],
    c: ReplayChoice,
    map: Table<u8>,
    r: Vec<CanFrame>,
    k: int,
)
    requires
        map.wf(),
        call_ensures(choose_frames, (frames, &c, &map), r),
        0 <= k < r@.len(),
    ensures
        r@.len() <= frames@.len(),
        c.id_lo <= r@[k].id <= c.id_hi,
        c.start <= r@[k].t <= c.end,
        r@[k].ch != 0,
{
    lemma_chosen_count(frames_view(frames@), c, map.map());
    lemma_only_chosen(frames_view(frames@), c, map.map(), k);
    assert(frames_view(r@)[k] == r@[k]@);
    assert(frames_view(frames@).len() == frames@.len());
    assert(frames_view(r@).len() == r@.len());
}

proof fn lemma_only_chosen(frames: Seq<FrameView>, c: ReplayChoice, map: Map<u64, u8>, k: int)
    requires
        0 <= k < replayed(frames, c, map).len(),
    ensures
        c.id_lo <= replayed(frames, c, map)[k].id <= c.id_hi,
        c.start <= replayed(frames, c, map)[k].t <= c.end,
        replayed(frames, c, map)[k].ch != 0,
    decreases frames.len(),
{
    let before = replayed(frames.drop_last(), c, map);
    if k < before.len() {
        lemma_only_chosen(frames.drop_last(), c, map, k);
    }
}

/// A mapping of channels is written as two decimal numbers with a colon between them; a later one
/// for the same channel counts.
pub proof fn law_channels_are_mapped(a: nat, b: nat, before: Seq<Seq<char>>)
    requires
        a <= 255,
        b <= 255,
    ensures
        channel_pair(numeral(a, 10) + seq![':'] + numeral(b, 10)) == Some((a as u8, b as u8)),
        channel_map(before.push(numeral(a, 10) + seq![':'] + numeral(b, 10))) == channel_map(
            before,
        ).insert(a as u64, b as u8),
{
    let s = numeral(a, 10);
    let z = numeral(b, 10);
    lemma_digits(a, 10);
    lemma_digits(b, 10);
    let w = s + seq![':'] + z;
    assert(w[0] == s[0] && w.last() == z.last());
    lemma_not_trimmed(w);
    lemma_not_trimmed(s);
    lemma_not_trimmed(z);
    assert(w[s.len() as int] == ':');
    assert forall|i: int| 0 <= i < s.len() implies w[i] != ':' by {
        assert(w[i] == s[i]);
    }
    crate::text::lemma_find_unique(w, ':', s.len() as int);
    assert(w.take(s.len() as int) =~= s);
    assert(w.skip(s.len() as int + 1) =~= z);
    crate::laws::texts::law_numerals_read_back(a, 10);
    crate::laws::texts::law_numerals_read_back(b, 10);
    let all = before.push(w);
    assert(all.drop_last() =~= before);
}

/// The border of a choice is a hexadecimal number; a blank one is none.
pub proof fn law_borders_are_hexadecimal(n: nat, blank: Seq<char>)
    requires
        n <= 0xFFFF_FFFF,
        trim(blank).len() == 0,
    ensures
        border(numeral(n, 16)) == Some(n),
        border(blank) is None,
{
    let s = numeral(n, 16);
    lemma_digits(n, 16);
    lemma_not_trimmed(s);
    crate::laws::texts::law_numerals_read_back(n, 16);
    assert(s[0] != '+');
    if s.len() >= 2 {
        assert(s[1] != 'x' && s[1] != 'X');
    }
}

// ---------------------------------------------------------------- signals

/// Signals are shown by their first bit, and by their names where that is the same.
pub proof fn law_signals_are_shown_in_order(signals: Seq<DecodedView>, i: int, j: int)
    requires
        0 <= i < j < signals.len(),
    ensures
        displayed(signals).len() == signals.len(),
        displayed(signals)[i].start_bit <= displayed(signals)[j].start_bit,
        displayed(signals)[i].start_bit == displayed(signals)[j].start_bit
            ==> !crate::order::text_before(displayed(signals)[j].name, displayed(signals)[i].name),
        signals.contains(displayed(signals)[i]),
        displayed(signals).contains(signals[i]),
{
    let ranks = signal_ranks(signals);
    let n = signals.len() as int;
    law_rows_are_arranged(ranks, false, n);
    let order = arranged(ranks, false, n);
    assert(order.contains(order[i]) && order.contains(order[j]));
    let a = order[i];
    let b = order[j];
    assert(stands_behind(ranks, false, b, a) || !stands_behind(ranks, false, a, b));
    law_texts_are_ordered(signals[a].name, signals[b].name);
    law_texts_are_ordered(signals[b].name, signals[a].name);
    assert(displayed(signals)[i] == signals[a]);
    assert(displayed(signals)[j] == signals[b]);
    assert(order.contains(i));
    let k = choose|k: int| 0 <= k < order.len() && order[k] == i;
    assert(displayed(signals)[k] == signals[i]);
}

} // verus!

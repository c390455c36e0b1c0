//! What scripts see of the running capture.
use crate::can::schedule::{rising, sorted_once};
use crate::table::Table;
use vstd::prelude::*;

verus! {

/// The statistics of one channel. The bus load and the frame rate are the bit patterns of
/// floating-point numbers.
#[derive(Clone, Copy, Debug, Default, PartialEq, Eq)]
pub struct ChanStats {
    pub rx: u64,
    pub tx: u64,
    pub err: u64,
    pub bus_load_bits: u64,
    pub fps_bits: u64,
}

/// The statistics of a channel that has none yet.
pub open spec fn no_stats() -> ChanStats {
    ChanStats { rx: 0, tx: 0, err: 0, bus_load_bits: 0, fps_bits: 0 }
}

/// A connected channel with its statistics.
#[derive(Clone, Copy, Debug, PartialEq, Eq)]
pub struct ChanStatSnap {
    pub ch: u64,
    pub stats: ChanStats,
}

/// The statistics kept for a channel.
pub open spec fn stats_of(stats: &Table<ChanStats>, ch: u64) -> ChanStats {
    if stats.map().contains_key(ch) {
        stats.map()[ch]
    } else {
        no_stats()
    }
}

/// The numbers of the channels shown.
pub open spec fn shown_numbers(v: Seq<ChanStatSnap>) -> Seq<u64> {
    Seq::new(v.len(), |i: int| v[i].ch)
}

/// The connected channels in rising order, each once, with their statistics. Without a
/// connection there are none.
pub fn channel_snapshot(connected: bool, channels: &[u64], stats: &Table<ChanStats>) -> (r: Vec<
    ChanStatSnap,
>)
    requires
        stats.wf(),
    ensures
        !connected ==> r@.len() == 0,
        connected ==> {
            let numbers = shown_numbers(r@);
            &&& rising(numbers)
            &&& forall|ch: u64| numbers.contains(ch) <==> channels@.contains(ch)
            &&& forall|i: int|
                0 <= i < r@.len() ==> (#[trigger] r@[i]).stats == stats_of(stats, r@[i].ch)
        },
{
    let mut out: Vec<ChanStatSnap> = Vec::new();
    if !connected {
        return out;
    }
    let numbers = sorted_once(channels);
    let mut i: usize = 0;
    assert(shown_numbers(out@) =~= numbers@.take(0));
    while i < numbers.len()
        invariant
            stats.wf(),
            i <= numbers.len(),
            shown_numbers(out@) == numbers@.take(i as int),
            forall|k: int|
                0 <= k < out@.len() ==> (#[trigger] out@[k]).stats == stats_of(stats, out@[k].ch),
        decreases numbers.len() - i,
    {
        let ch: u64 = numbers[i];
        let kept: ChanStats = match stats.find(ch) {
            Some(at) => *stats.value_at(at),
            None => ChanStats { rx: 0, tx: 0, err: 0, bus_load_bits: 0, fps_bits: 0 },
        };
        let ghost before = out@;
        out.push(ChanStatSnap { ch, stats: kept });
        assert(shown_numbers(out@) =~= shown_numbers(before).push(ch));
        assert(numbers@.take(i + 1) =~= numbers@.take(i as int).push(ch));
        i += 1;
    }
    assert(numbers@.take(i as int) =~= numbers@);
    out
}

/// The last line of a log; empty where there is none.
pub fn last_log(logs: &[String]) -> (r: String)
    ensures
        r@ == if logs@.len() == 0 {
            Seq::<char>::empty()
        } else {
            logs@[logs@.len() - 1]@
        },
{
    if logs.len() == 0 {
        String::new()
    } else {
        logs[logs.len() - 1].clone()
    }
}

} // verus!

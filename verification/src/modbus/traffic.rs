//! The raw traffic that a connection records, and the monitor that shows it.
use crate::ends::{mpsc_held, mpsc_made, open_channel, MpscOutbox};
use crate::modbus::adu::{traffic_line, traffic_text, MbapReassembler};
use crate::modbus::adu::{frame_list, reassembled};
use crate::modbus::log::{copy_lines, lines_view, logged, push_log, LineView, LogLine, TRAFFIC_LIMIT};
use crate::text;
use tokio::sync::mpsc::Receiver;
use vstd::prelude::*;

verus! {

/// Chunks of traffic that may wait for the monitor.
pub const TRAFFIC_QUEUE_CAPACITY: usize = 1024;

/// Counters of a bounded queue that loses what it has no room for.
#[derive(Clone, Copy, Debug, PartialEq, Eq, Structural)]
pub struct LossCounts {
    pub dropped: u64,
    pub dropped_bytes: u64,
    pub high_watermark: usize,
}

impl LossCounts {
    /// Nothing was lost.
    pub fn new() -> (r: LossCounts)
        ensures
            r == (LossCounts { dropped: 0, dropped_bytes: 0, high_watermark: 0 }),
    {
        LossCounts { dropped: 0, dropped_bytes: 0, high_watermark: 0 }
    }

    /// The counters after an item of a size was offered.
    pub open spec fn counted(self, accepted: bool, bytes: u64, depth: usize) -> LossCounts {
        if accepted {
            LossCounts {
                high_watermark: if depth > self.high_watermark {
                    depth
                } else {
                    self.high_watermark
                },
                ..self
            }
        } else {
            LossCounts {
                dropped: ((self.dropped + 1) % 0x1_0000_0000_0000_0000) as u64,
                dropped_bytes: ((self.dropped_bytes + bytes) % 0x1_0000_0000_0000_0000) as u64,
                ..self
            }
        }
    }

    /// Counts an item that was offered.
    pub fn count(&mut self, accepted: bool, bytes: u64, depth: usize)
        ensures
            *final(self) == old(self).counted(accepted, bytes, depth),
    {
        if accepted {
            if depth > self.high_watermark {
                self.high_watermark = depth;
            }
        } else {
            self.dropped = self.dropped.wrapping_add(1);
            self.dropped_bytes = self.dropped_bytes.wrapping_add(bytes);
        }
    }
}

/// The way recorded traffic reaches the monitor.
pub struct TrafficTx {
    pub out: MpscOutbox<(bool, Vec<u8>)>,
    pub health: LossCounts,
}

impl TrafficTx {
    /// Hands a chunk over without waiting; one that finds no room is lost and counted.
    pub fn send(&mut self, item: (bool, Vec<u8>)) -> (r: Result<(), ()>)
        ensures
            final(self).out.end() == old(self).out.end(),
            final(self).out.record() == old(self).out.record().push((item, r is Ok)),
            exists|depth: usize|
                final(self).health == #[trigger] old(self).health.counted(
                    r is Ok,
                    item.1@.len() as u64,
                    depth,
                ) && (r is Ok ==> mpsc_held(old(self).out.end(), depth)),
    {
        let bytes: u64 = item.1.len() as u64;
        let accepted: bool = self.out.hand(item);
        let depth: usize = if accepted {
            self.out.depth()
        } else {
            0
        };
        self.health.count(accepted, bytes, depth);
        let outcome = if accepted {
            Ok(())
        } else {
            Err(())
        };
        assert(self.health == old(self).health.counted(outcome is Ok, bytes, depth));
        outcome
    }
}

/// A way for recorded traffic and its other end.
pub fn traffic_channel() -> (r: (TrafficTx, Receiver<(bool, Vec<u8>)>))
    ensures
        mpsc_made(TRAFFIC_QUEUE_CAPACITY, r.0.out.end(), r.1),
        r.0.out.record().len() == 0,
        r.0.health == (LossCounts { dropped: 0, dropped_bytes: 0, high_watermark: 0 }),
{
    let ends = open_channel::<(bool, Vec<u8>)>(TRAFFIC_QUEUE_CAPACITY);
    (TrafficTx { out: MpscOutbox::new(ends.0), health: LossCounts::new() }, ends.1)
}

// ---------------------------------------------------------------- the monitor

/// The report of lost traffic.
pub open spec fn loss_text(lost: LossCounts) -> Seq<char> {
    "Traffic monitor queue overflow: dropped "@ + text::decimal(lost.dropped as nat) + " chunks / "@
        + text::decimal(lost.dropped_bytes as nat) + " bytes, H"@ + text::decimal(
        lost.high_watermark as nat,
    ) + "/1024"@
}

/// The report of lost traffic.
pub fn loss_report(lost: &LossCounts) -> (r: String)
    ensures
        r@ == loss_text(*lost),
{
    let mut out = "Traffic monitor queue overflow: dropped ".to_owned();
    text::push_decimal(&mut out, lost.dropped);
    out.push_str(" chunks / ");
    text::push_decimal(&mut out, lost.dropped_bytes);
    out.push_str(" bytes, H");
    text::push_decimal(&mut out, lost.high_watermark as u64);
    out.push_str("/1024");
    out
}

/// The name of a direction.
pub open spec fn direction(is_tx: bool) -> Seq<char> {
    if is_tx {
        "Tx"@
    } else {
        "Rx"@
    }
}

/// The lines of a monitor after some frames.
pub open spec fn monitored(
    lines: Seq<LineView>,
    frames: Seq<Seq<u8>>,
    is_tx: bool,
    is_tcp: bool,
    bar: Seq<char>,
    secs: nat,
) -> Seq<LineView>
    decreases frames.len(),
{
    if frames.len() == 0 {
        lines
    } else {
        logged(
            monitored(lines, frames.drop_last(), is_tx, is_tcp, bar, secs),
            secs,
            direction(is_tx),
            traffic_text(is_tx, frames.last(), is_tcp, bar),
            TRAFFIC_LIMIT as int,
        )
    }
}

fn direction_name(is_tx: bool) -> (r: &'static str)
    ensures
        r@ == direction(is_tx),
{
    if is_tx {
        "Tx"
    } else {
        "Rx"
    }
}

/// Appends the line of one frame.
pub fn push_traffic(
    buf: &mut Vec<LogLine>,
    secs: u64,
    is_tx: bool,
    bytes: &[u8],
    is_tcp: bool,
    bar: &str,
)
    ensures
        lines_view(final(buf)@) == logged(
            lines_view(old(buf)@),
            secs as nat,
            direction(is_tx),
            traffic_text(is_tx, bytes@, is_tcp, bar@),
            TRAFFIC_LIMIT as int,
        ),
{
    let line = traffic_line(is_tx, bytes, is_tcp, bar);
    push_log(buf, secs, direction_name(is_tx), line, TRAFFIC_LIMIT);
}

/// The traffic monitor of a polling connection.
#[derive(Debug)]
pub struct TrafficMonitor {
    pub lines: Vec<LogLine>,
    pub sent: MbapReassembler,
    pub received: MbapReassembler,
    pub reported_drops: u64,
    pub dirty: bool,
    pub is_tcp: bool,
}

impl TrafficMonitor {
    /// A monitor that has seen nothing.
    pub fn new(is_tcp: bool) -> (r: TrafficMonitor)
        ensures
            r.lines@.len() == 0,
            r.sent.bytes@.len() == 0,
            r.received.bytes@.len() == 0,
            r.reported_drops == 0,
            !r.dirty,
            r.is_tcp == is_tcp,
    {
        TrafficMonitor {
            lines: Vec::new(),
            sent: MbapReassembler::default(),
            received: MbapReassembler::default(),
            reported_drops: 0,
            dirty: false,
            is_tcp,
        }
    }

    /// The bytes that wait for the rest of their frame, in a direction.
    pub open spec fn held(&self, is_tx: bool) -> Seq<u8> {
        if is_tx {
            self.sent.bytes@
        } else {
            self.received.bytes@
        }
    }

    /// The frames that a chunk completes. A serial line records whole frames.
    pub open spec fn completed(&self, is_tx: bool, chunk: Seq<u8>) -> Seq<Seq<u8>> {
        if self.is_tcp {
            reassembled(self.held(is_tx) + chunk).0
        } else {
            seq![chunk]
        }
    }

    /// A chunk came: each frame that it completes becomes a line.
    pub fn recorded(&mut self, is_tx: bool, chunk: Vec<u8>, secs: u64)
        ensures
            final(self).is_tcp == old(self).is_tcp,
            final(self).reported_drops == old(self).reported_drops,
            final(self).held(!is_tx) == old(self).held(!is_tx),
            final(self).held(is_tx) == if old(self).is_tcp {
                reassembled(old(self).held(is_tx) + chunk@).1
            } else {
                old(self).held(is_tx)
            },
            lines_view(final(self).lines@) == monitored(
                lines_view(old(self).lines@),
                old(self).completed(is_tx, chunk@),
                is_tx,
                old(self).is_tcp,
                "   |   "@,
                secs as nat,
            ),
            final(self).dirty == (old(self).dirty || old(self).completed(is_tx, chunk@).len() > 0),
    {
        let frames: Vec<Vec<u8>> = if self.is_tcp {
            if is_tx {
                self.sent.push(chunk.as_slice())
            } else {
                self.received.push(chunk.as_slice())
            }
        } else {
            let mut one: Vec<Vec<u8>> = Vec::new();
            one.push(chunk);
            assert(frame_list(one@) =~= seq![chunk@]);
            one
        };
        let ghost all = frame_list(frames@);
        let ghost lines0 = lines_view(self.lines@);
        assert(all == old(self).completed(is_tx, chunk@));
        let is_tcp: bool = self.is_tcp;
        let mut i: usize = 0;
        assert(all.take(0) =~= seq![]);
        while i < frames.len()
            invariant
                i <= frames@.len(),
                all == frame_list(frames@),
                is_tcp == self.is_tcp,
                is_tcp == old(self).is_tcp,
                self.reported_drops == old(self).reported_drops,
                self.held(!is_tx) == old(self).held(!is_tx),
                self.held(is_tx) == if is_tcp {
                    reassembled(old(self).held(is_tx) + chunk@).1
                } else {
                    old(self).held(is_tx)
                },
                lines_view(self.lines@) == monitored(
                    lines0,
                    all.take(i as int),
                    is_tx,
                    is_tcp,
                    "   |   "@,
                    secs as nat,
                ),
                self.dirty == (old(self).dirty || i > 0),
            decreases frames@.len() - i,
        {
            push_traffic(&mut self.lines, secs, is_tx, frames[i].as_slice(), is_tcp, "   |   ");
            self.dirty = true;
            proof {
                assert(all.take(i + 1).drop_last() =~= all.take(i as int));
                assert(all.take(i + 1).last() == frames@[i as int]@);
            }
            i += 1;
        }
        assert(all.take(i as int) =~= all);
    }

    /// The queue was looked at: a loss that was not reported yet becomes a line.
    pub fn health_checked(&mut self, lost: &LossCounts, secs: u64)
        ensures
            final(self).is_tcp == old(self).is_tcp,
            final(self).sent == old(self).sent,
            final(self).received == old(self).received,
            if lost.dropped > old(self).reported_drops {
                &&& lines_view(final(self).lines@) == logged(
                    lines_view(old(self).lines@),
                    secs as nat,
                    "ERR"@,
                    loss_text(*lost),
                    TRAFFIC_LIMIT as int,
                )
                &&& final(self).dirty
                &&& final(self).reported_drops == lost.dropped
            } else {
                &&& final(self).lines == old(self).lines
                &&& final(self).dirty == old(self).dirty
                &&& final(self).reported_drops == old(self).reported_drops
            },
    {
        if lost.dropped > self.reported_drops {
            push_log(&mut self.lines, secs, "ERR", loss_report(lost), TRAFFIC_LIMIT);
            self.dirty = true;
            self.reported_drops = lost.dropped;
        }
    }

    /// The lines to show, where there are new ones since the last time.
    pub fn flush(&mut self) -> (r: Option<Vec<LogLine>>)
        ensures
            !final(self).dirty,
            final(self).is_tcp == old(self).is_tcp,
            final(self).sent == old(self).sent,
            final(self).received == old(self).received,
            final(self).lines == old(self).lines,
            final(self).reported_drops == old(self).reported_drops,
            r is Some <==> old(self).dirty,
            r matches Some(lines) ==> lines_view(lines@) == lines_view(old(self).lines@),
    {
        if !self.dirty {
            return None;
        }
        self.dirty = false;
        Some(copy_lines(self.lines.as_slice()))
    }
}

} // verus!

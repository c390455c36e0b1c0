//! The file that polled values are logged to.
use crate::modbus::log::{timestamp_says, timestamp_text};
use crate::text;
use vstd::prelude::*;

verus! {

/// How polled values are logged.
#[derive(Debug)]
pub struct LogCfg {
    pub path: String,
    pub each_read: bool,
    pub period_s: u32,
    pub delimiter: char,
    pub on_change: bool,
    pub timestamp: bool,
}

/// A value to be logged: its address, the bits of the number and its text.
#[derive(Debug)]
pub struct LogValue {
    pub address: i32,
    pub bits: u64,
    pub text: String,
}

/// The log file of a window. Times are nanoseconds of a clock that does not run backwards.
#[derive(Debug)]
pub struct Logger {
    pub cfg: LogCfg,
    pub last_write: Option<u64>,
    pub last_flush: Option<u64>,
    pub last_vals: Option<Vec<u64>>,
    pub header_written: bool,
}

/// The lines to write, and whether to hand them to the disk.
#[derive(Debug)]
pub struct LogStep {
    pub lines: Vec<String>,
    pub flush: bool,
}

/// The time between two readings of the clock.
pub open spec fn since(now: u64, then: u64) -> int {
    if now >= then {
        now - then
    } else {
        0
    }
}

/// Whether the bits are those of no number.
pub open spec fn not_a_number(bits: u64) -> bool {
    bits as int % 0x8000_0000_0000_0000 > 0x7FF0_0000_0000_0000
}

/// Whether the bits of two numbers stand for equal numbers: the two zeros are equal, and nothing is
/// equal to what is no number.
pub open spec fn equal_numbers(a: u64, b: u64) -> bool {
    &&& !not_a_number(a)
    &&& !not_a_number(b)
    &&& a == b || (a as int % 0x8000_0000_0000_0000 == 0 && b as int % 0x8000_0000_0000_0000 == 0)
}

/// Whether two lists of numbers are equal.
pub open spec fn equal_lists(a: Seq<u64>, b: Seq<u64>) -> bool {
    a.len() == b.len() && forall|i: int| 0 <= i < a.len() ==> #[trigger] equal_numbers(a[i], b[i])
}

fn same_numbers(a: &[u64], b: &[u64]) -> (r: bool)
    ensures
        r == equal_lists(a@, b@),
{
    if a.len() != b.len() {
        return false;
    }
    let mut i: usize = 0;
    while i < a.len()
        invariant
            i <= a@.len() == b@.len(),
            forall|j: int| 0 <= j < i ==> #[trigger] equal_numbers(a@[j], b@[j]),
        decreases a@.len() - i,
    {
        let x: u64 = a[i];
        let y: u64 = b[i];
        let half: u64 = 0x8000_0000_0000_0000;
        let limit: u64 = 0x7FF0_0000_0000_0000;
        let equal: bool = x % half <= limit && y % half <= limit && (x == y || (x % half == 0 && y
            % half == 0));
        assert(equal == equal_numbers(a@[i as int], b@[i as int]));
        if !equal {
            return false;
        }
        i += 1;
    }
    true
}

/// The numbers of some values.
pub open spec fn numbers(values: Seq<LogValue>) -> Seq<u64> {
    values.map_values(|v: LogValue| v.bits)
}

/// The line with the addresses.
pub open spec fn header_line(cfg: LogCfg, values: Seq<LogValue>) -> Seq<char> {
    let d = seq![cfg.delimiter];
    (if cfg.timestamp {
        "Timestamp"@ + d
    } else {
        seq![]
    }) + text::joined(
        values.map_values(|v: LogValue| "@"@ + text::signed_decimal(v.address as int)),
        d,
    )
}

/// Whether a line holds the values, after the date and time where the log has them.
pub open spec fn values_line(line: Seq<char>, cfg: LogCfg, values: Seq<LogValue>, secs: u64) -> bool {
    let d = seq![cfg.delimiter];
    let list = text::joined(values.map_values(|v: LogValue| v.text@), d);
    if cfg.timestamp {
        exists|stamp: Seq<char>| #[trigger]
            timestamp_says(stamp, secs as nat) && line == stamp + d + list
    } else {
        line == list
    }
}

fn delimiter_text(c: char) -> (r: String)
    ensures
        r@ == seq![c],
{
    let mut out = String::new();
    out.push(c);
    assert(out@ =~= seq![c]);
    out
}

fn address_list(values: &[LogValue]) -> (r: Vec<String>)
    ensures
        text::texts(r@) == values@.map_values(
            |v: LogValue| "@"@ + text::signed_decimal(v.address as int),
        ),
{
    let ghost f = |v: LogValue| "@"@ + text::signed_decimal(v.address as int);
    let mut out: Vec<String> = Vec::new();
    let mut i: usize = 0;
    while i < values.len()
        invariant
            i <= values@.len(),
            f == (|v: LogValue| "@"@ + text::signed_decimal(v.address as int)),
            text::texts(out@) =~= values@.take(i as int).map_values(f),
        decreases values@.len() - i,
    {
        let ghost before = out@;
        let mut one = "@".to_owned();
        text::push_signed(&mut one, values[i].address as i64);
        out.push(one);
        proof {
            assert(text::texts(out@) =~= text::texts(before).push(f(values@[i as int])));
            assert(values@.take(i + 1).map_values(f) =~= values@.take(i as int).map_values(f).push(
                f(values@[i as int]),
            ));
        }
        i += 1;
    }
    assert(values@.take(i as int) =~= values@);
    out
}

fn text_list(values: &[LogValue]) -> (r: Vec<String>)
    ensures
        text::texts(r@) == values@.map_values(|v: LogValue| v.text@),
{
    let ghost f = |v: LogValue| v.text@;
    let mut out: Vec<String> = Vec::new();
    let mut i: usize = 0;
    while i < values.len()
        invariant
            i <= values@.len(),
            f == (|v: LogValue| v.text@),
            text::texts(out@) =~= values@.take(i as int).map_values(f),
        decreases values@.len() - i,
    {
        let ghost before = out@;
        out.push(values[i].text.clone());
        proof {
            assert(text::texts(out@) =~= text::texts(before).push(f(values@[i as int])));
            assert(values@.take(i + 1).map_values(f) =~= values@.take(i as int).map_values(f).push(
                f(values@[i as int]),
            ));
        }
        i += 1;
    }
    assert(values@.take(i as int) =~= values@);
    out
}

fn number_list(values: &[LogValue]) -> (r: Vec<u64>)
    ensures
        r@ == numbers(values@),
{
    let mut out: Vec<u64> = Vec::new();
    let mut i: usize = 0;
    while i < values.len()
        invariant
            i <= values@.len(),
            out@ =~= numbers(values@.take(i as int)),
        decreases values@.len() - i,
    {
        out.push(values[i].bits);
        i += 1;
    }
    assert(values@.take(i as int) =~= values@);
    out
}

impl Logger {
    /// A log file that was just opened.
    pub fn new(cfg: LogCfg) -> (r: Logger)
        ensures
            r.cfg == cfg,
            r.last_write is None,
            r.last_flush is None,
            r.last_vals is None,
            !r.header_written,
    {
        Logger { cfg, last_write: None, last_flush: None, last_vals: None, header_written: false }
    }

    /// Whether the time for a line has come.
    pub open spec fn due(&self, now: u64) -> bool {
        self.cfg.each_read || match self.last_write {
            None => true,
            Some(t) => since(now, t) / 1_000_000_000 >= (if self.cfg.period_s > 1 {
                self.cfg.period_s as int
            } else {
                1
            }),
        }
    }

    /// Whether the values are those of the last line, where only changes are logged.
    pub open spec fn unchanged(&self, values: Seq<LogValue>) -> bool {
        self.cfg.on_change && match self.last_vals {
            Some(last) => equal_lists(last@, numbers(values)),
            None => false,
        }
    }

    /// Whether the lines written so far are to be handed to the disk.
    pub open spec fn flush_due(&self, now: u64) -> bool {
        match self.last_flush {
            None => true,
            Some(t) => since(now, t) >= 1_000_000_000,
        }
    }

    /// The lines for the values of a poll: a header before the first one, nothing before the time
    /// has come or where only changes are logged and there is none.
    pub fn maybe_log(&mut self, values: &[LogValue], now: u64, secs: u64) -> (r: Option<LogStep>)
        requires
            secs <= i64::MAX,
        ensures
            final(self).cfg == old(self).cfg,
            match r {
                None => {
                    &&& !old(self).due(now) || old(self).unchanged(values@)
                    &&& *final(self) == *old(self)
                },
                Some(step) => {
                    &&& old(self).due(now)
                    &&& !old(self).unchanged(values@)
                    &&& step.flush == old(self).flush_due(now)
                    &&& final(self).header_written
                    &&& final(self).last_write == Some(now)
                    &&& final(self).last_flush == if step.flush {
                        Some(now)
                    } else {
                        old(self).last_flush
                    }
                    &&& final(self).last_vals is Some
                    &&& final(self).last_vals->0@ == numbers(values@)
                    &&& if old(self).header_written {
                        &&& step.lines@.len() == 1
                        &&& values_line(step.lines@[0]@, old(self).cfg, values@, secs)
                    } else {
                        &&& step.lines@.len() == 2
                        &&& step.lines@[0]@ == header_line(old(self).cfg, values@)
                        &&& values_line(step.lines@[1]@, old(self).cfg, values@, secs)
                    }
                },
            },
    {
        let due: bool = self.cfg.each_read || match self.last_write {
            None => true,
            Some(t) => {
                let period: u64 = if self.cfg.period_s > 1 {
                    self.cfg.period_s as u64
                } else {
                    1
                };
                now >= t && (now - t) / 1_000_000_000 >= period
            },
        };
        if !due {
            return None;
        }
        let nums = number_list(values);
        let unchanged: bool = self.cfg.on_change && match &self.last_vals {
            Some(last) => same_numbers(last.as_slice(), nums.as_slice()),
            None => false,
        };
        if unchanged {
            return None;
        }
        let d = delimiter_text(self.cfg.delimiter);
        let mut lines: Vec<String> = Vec::new();
        if !self.header_written {
            let mut h = String::new();
            assert(h@ =~= seq![]);
            if self.cfg.timestamp {
                h.push_str("Timestamp");
                h.push_str(d.as_str());
                assert(h@ =~= "Timestamp"@ + d@);
            }
            let addrs = address_list(values);
            let list = text::join(addrs.as_slice(), d.as_str());
            h.push_str(list.as_str());
            lines.push(h);
            self.header_written = true;
        }
        let mut line = String::new();
        assert(line@ =~= seq![]);
        let texts = text_list(values);
        let list = text::join(texts.as_slice(), d.as_str());
        if self.cfg.timestamp {
            let stamp = timestamp_text(secs);
            line.push_str(stamp.as_str());
            line.push_str(d.as_str());
            line.push_str(list.as_str());
            assert(timestamp_says(stamp@, secs as nat));
            assert(line@ =~= stamp@ + d@ + list@);
        } else {
            line.push_str(list.as_str());
            assert(line@ =~= list@);
        }
        assert(values_line(line@, self.cfg, values@, secs));
        lines.push(line);
        let flush: bool = match self.last_flush {
            None => true,
            Some(t) => now >= t && now - t >= 1_000_000_000,
        };
        if flush {
            self.last_flush = Some(now);
        }
        self.last_write = Some(now);
        self.last_vals = Some(nums);
        Some(LogStep { lines, flush })
    }
}

/// A log of changes does not repeat itself: right after a line was written, the same numbers give
/// no further line, unless one of them is no number.
pub proof fn law_changes_are_logged_once(logger: Logger, values: Seq<LogValue>)
    requires
        logger.cfg.on_change,
        logger.last_vals is Some,
        logger.last_vals->0@ == numbers(values),
        forall|i: int| 0 <= i < values.len() ==> !not_a_number((#[trigger] values[i]).bits),
    ensures
        logger.unchanged(values),
{
    let a = numbers(values);
    assert forall|i: int| 0 <= i < a.len() implies #[trigger] equal_numbers(a[i], a[i]) by {
        assert(a[i] == values[i].bits);
    }
}

} // verus!

//! Scripts that run beside the workbench: when they end, and what is kept of their output.
use crate::ends::{items, lemma_items_pushed, StdInbox, Taken};
use crate::text;
use vstd::prelude::*;

verus! {

/// Bytes of output that are kept.
pub const OUTPUT_LIMIT: u64 = 200_000;

/// A script. Times are nanoseconds of a clock that does not run backwards.
#[derive(Debug)]
pub struct ScriptRun {
    /// Whether the script runs.
    pub running: bool,
    pub started: Option<u64>,
    pub timeout_secs: u64,
    pub stop_asked: bool,
    pub status: String,
    pub dirty: bool,
    /// Lines of output that were lost, as far as that was told.
    pub lost_seen: u64,
}

/// Whether a status tells of success or of failure.
pub open spec fn concluded(status: Seq<char>) -> bool {
    text::has_prefix(status, "PASS"@) || text::has_prefix(status, "FAIL"@)
}

/// What the runner shows of a status: one for success, minus one for failure, else zero.
pub fn result_code(status: &str) -> (r: i32)
    ensures
        r == if text::has_prefix(status@, "PASS"@) {
            1int
        } else if text::has_prefix(status@, "FAIL"@) {
            -1
        } else {
            0
        },
{
    if text::starts_with_text(status, "PASS") {
        1
    } else if text::starts_with_text(status, "FAIL") {
        -1
    } else {
        0
    }
}

impl ScriptRun {
    /// Whether the time of the script is up.
    pub open spec fn timed_out(&self, now: u64) -> bool {
        match self.started {
            Some(t) => now >= t && now - t > self.timeout_secs * 1_000_000_000,
            None => false,
        }
    }

    /// Whether the script is to be stopped now: the user asks for it, or its time is up.
    pub open spec fn to_be_stopped(&self, now: u64) -> bool {
        (self.stop_asked || self.timed_out(now)) && self.running
    }

    fn is_timed_out(&self, now: u64) -> (r: bool)
        ensures
            r == self.timed_out(now),
    {
        match self.started {
            Some(t) => now >= t && (now - t) as u128 > (self.timeout_secs as u128)
                * 1_000_000_000u128,
            None => false,
        }
    }

    /// Stops the script where it is to be stopped. Where it is not, a wish to stop that came too
    /// late is forgotten. Whether the script is to be stopped.
    pub fn stop_if_due(&mut self, now: u64) -> (r: bool)
        ensures
            r == old(self).to_be_stopped(now),
            !final(self).stop_asked,
            final(self).timeout_secs == old(self).timeout_secs,
            final(self).lost_seen == old(self).lost_seen,
            if r {
                &&& !final(self).running
                &&& final(self).started is None
                &&& final(self).dirty
                &&& final(self).status@ == if old(self).timed_out(now) {
                    "FAIL: 超时"@
                } else {
                    "已停止"@
                }
            } else {
                &&& final(self).running == old(self).running
                &&& final(self).started == old(self).started
                &&& final(self).dirty == old(self).dirty
                &&& final(self).status == old(self).status
            },
    {
        let late: bool = self.is_timed_out(now);
        if (self.stop_asked || late) && self.running {
            self.running = false;
            self.status = (if late {
                "FAIL: 超时"
            } else {
                "已停止"
            }).to_owned();
            self.started = None;
            self.stop_asked = false;
            self.dirty = true;
            return true;
        }
        self.stop_asked = false;
        false
    }

    /// The script ended by itself. An outcome that it told stays.
    pub fn ended(&mut self, success: bool)
        ensures
            !final(self).running,
            final(self).started is None,
            final(self).dirty,
            final(self).stop_asked == old(self).stop_asked,
            final(self).timeout_secs == old(self).timeout_secs,
            final(self).lost_seen == old(self).lost_seen,
            final(self).status@ == if concluded(old(self).status@) {
                old(self).status@
            } else if success {
                "PASS"@
            } else {
                "FAIL"@
            },
    {
        self.running = false;
        self.started = None;
        if !(text::starts_with_text(self.status.as_str(), "PASS") || text::starts_with_text(
            self.status.as_str(),
            "FAIL",
        )) {
            self.status = (if success {
                "PASS"
            } else {
                "FAIL"
            }).to_owned();
        }
        self.dirty = true;
    }

    /// Whether the output is to be written to a file now: there is something new, and the script
    /// does not run.
    pub fn log_due(&self) -> (r: bool)
        ensures
            r == (self.dirty && !self.running),
    {
        self.dirty && !self.running
    }

    /// The output could not be written: a line tells why, and the script has failed.
    pub fn log_not_saved(&mut self, path: &str, error: &str) -> (r: String)
        ensures
            r@ == "保存测试运行日志失败 "@ + path@ + ": "@ + error@,
            final(self).running == old(self).running,
            final(self).started == old(self).started,
            final(self).timeout_secs == old(self).timeout_secs,
            final(self).stop_asked == old(self).stop_asked,
            final(self).dirty == old(self).dirty,
            final(self).lost_seen == old(self).lost_seen,
            final(self).status@ == if text::has_prefix(old(self).status@, "FAIL"@) {
                old(self).status@
            } else {
                "FAIL: 运行日志保存失败"@
            },
    {
        if !text::starts_with_text(self.status.as_str(), "FAIL") {
            self.status = "FAIL: 运行日志保存失败".to_owned();
        }
        let mut line = "保存测试运行日志失败 ".to_owned();
        line.push_str(path);
        line.push_str(": ");
        line.push_str(error);
        line
    }

    /// Output was lost: a line tells how much, and the script has failed.
    pub fn output_lost(&mut self, lost: u64) -> (r: Option<String>)
        ensures
            final(self).running == old(self).running,
            final(self).started == old(self).started,
            final(self).stop_asked == old(self).stop_asked,
            final(self).timeout_secs == old(self).timeout_secs,
            final(self).dirty == old(self).dirty,
            match r {
                Some(line) => {
                    &&& lost > old(self).lost_seen
                    &&& final(self).lost_seen == lost
                    &&& line@ == "[PCAN-Explorer10] Python 输出队列已丢弃 "@ + text::decimal(
                        (lost - old(self).lost_seen) as nat,
                    ) + " 行（累计 "@ + text::decimal(lost as nat)
                        + "），测试结果日志不完整"@
                    &&& final(self).status@ == if text::has_prefix(old(self).status@, "FAIL"@) {
                        old(self).status@
                    } else {
                        "FAIL: Python 输出队列溢出"@
                    }
                },
                None => {
                    &&& lost <= old(self).lost_seen
                    &&& *final(self) == *old(self)
                },
            },
    {
        if lost <= self.lost_seen {
            return None;
        }
        let mut out = "[PCAN-Explorer10] Python 输出队列已丢弃 ".to_owned();
        text::push_decimal(&mut out, lost - self.lost_seen);
        out.push_str(" 行（累计 ");
        text::push_decimal(&mut out, lost);
        out.push_str("），测试结果日志不完整");
        self.lost_seen = lost;
        if !text::starts_with_text(self.status.as_str(), "FAIL") {
            self.status = "FAIL: Python 输出队列溢出".to_owned();
        }
        Some(out)
    }
}

/// A loss of output is never hidden: whatever a script told, it has failed.
pub proof fn law_lost_output_fails_the_run(before: Seq<char>, after: Seq<char>)
    requires
        after == if text::has_prefix(before, "FAIL"@) {
            before
        } else {
            "FAIL: Python 输出队列溢出"@
        },
    ensures
        text::has_prefix(after, "FAIL"@),
{
    reveal_strlit("FAIL");
    reveal_strlit("FAIL: Python 输出队列溢出");
    if !text::has_prefix(before, "FAIL"@) {
        assert(after.take(4) =~= "FAIL"@);
    }
}

// ---------------------------------------------------------------- output

/// The bytes of a character.
pub open spec fn char_bytes(c: char) -> nat {
    let n = c as int;
    if n < 0x80 {
        1
    } else if n < 0x800 {
        2
    } else if n < 0x1_0000 {
        3
    } else {
        4
    }
}

/// The bytes of a text.
pub open spec fn text_bytes(s: Seq<char>) -> nat
    decreases s.len(),
{
    if s.len() == 0 {
        0
    } else {
        char_bytes(s[0]) + text_bytes(s.skip(1))
    }
}

/// The longest end of a text that has at most the given number of bytes.
pub open spec fn last_bytes(s: Seq<char>, limit: nat) -> Seq<char>
    decreases s.len(),
{
    if text_bytes(s) <= limit {
        s
    } else if s.len() == 0 {
        s
    } else {
        last_bytes(s.skip(1), limit)
    }
}

fn bytes_of(c: char) -> (r: u64)
    ensures
        r == char_bytes(c),
{
    let n: u32 = c as u32;
    if n < 0x80 {
        1
    } else if n < 0x800 {
        2
    } else if n < 0x1_0000 {
        3
    } else {
        4
    }
}

/// Where the end of a text begins that has at most the given number of bytes.
fn cut_at(chars: &[char], limit: u64) -> (r: usize)
    requires
        limit <= u64::MAX - 4,
    ensures
        r <= chars@.len(),
        chars@.skip(r as int) == last_bytes(chars@, limit as nat),
{
    let ghost s = chars@;
    let n: usize = chars.len();
    let mut i: usize = n;
    let mut kept: u64 = 0;
    assert(s.skip(n as int) =~= seq![]);
    while i > 0
        invariant_except_break
            kept == text_bytes(s.skip(i as int)),
        invariant
            i <= n == s.len(),
            s == chars@,
            limit <= u64::MAX - 4,
            kept <= limit,
            text_bytes(s.skip(i as int)) <= limit,
        ensures
            i > 0 ==> text_bytes(s.skip(i - 1)) > limit,
        decreases i,
    {
        let w: u64 = bytes_of(chars[i - 1]);
        proof {
            assert(s.skip(i - 1)[0] == s[i - 1]);
            assert(s.skip(i - 1).skip(1) =~= s.skip(i as int));
        }
        if kept + w > limit {
            break;
        }
        kept += w;
        i -= 1;
    }
    proof {
        lemma_last_bytes(s, limit as nat, 0, i as int);
        assert(s.skip(0) =~= s);
    }
    i
}

proof fn lemma_bytes_fall(s: Seq<char>, a: int, b: int)
    requires
        0 <= a <= b <= s.len(),
    ensures
        text_bytes(s.skip(a)) >= text_bytes(s.skip(b)),
    decreases b - a,
{
    if a < b {
        lemma_bytes_fall(s, a + 1, b);
        assert(s.skip(a).skip(1) =~= s.skip(a + 1));
    }
}

proof fn lemma_last_bytes(s: Seq<char>, limit: nat, from: int, at: int)
    requires
        0 <= from <= at <= s.len(),
        text_bytes(s.skip(at)) <= limit,
        at > 0 ==> text_bytes(s.skip(at - 1)) > limit,
    ensures
        last_bytes(s.skip(from), limit) == s.skip(at),
    decreases at - from,
{
    if from < at {
        lemma_bytes_fall(s, from, at - 1);
        assert(s.skip(from).skip(1) =~= s.skip(from + 1));
        lemma_last_bytes(s, limit, from + 1, at);
    }
}

/// Lines that are taken of the output at a time.
pub const LINES_PER_DRAIN: usize = 1024;

/// The looks that brought some lines.
pub open spec fn lines_brought(lines: Seq<String>) -> Seq<Taken<String>> {
    lines.map_values(|l: String| Taken::Item(l))
}

impl StdInbox<String> {
    /// Takes the lines of output that wait, in the order in which they come: no more than may be
    /// taken at a time, and none after the clock said that the time is up.
    pub fn drain_lines<F: Fn() -> bool>(&mut self, out_of_time: F) -> (r: Vec<String>)
        requires
            call_requires(out_of_time, ()),
        ensures
            final(self).end() == old(self).end(),
            final(self).so_far() == old(self).so_far() + r@,
            r@.len() <= LINES_PER_DRAIN,
            exists|rest: Seq<Taken<String>>|
                {
                    &&& final(self).looks() == #[trigger] (old(self).looks() + lines_brought(r@)
                        + rest)
                    &&& rest.len() <= 1
                    &&& rest.len() == 1 ==> !(rest[0] is Item) && r@.len() < LINES_PER_DRAIN
                    &&& rest.len() == 0 ==> r@.len() == LINES_PER_DRAIN || call_ensures(
                        out_of_time,
                        (),
                        true,
                    )
                    &&& r@.len() + rest.len() > 1 ==> call_ensures(out_of_time, (), false)
                },
    {
        let mut lines: Vec<String> = Vec::new();
        let ghost start = self.looks();
        let ghost none = Seq::<Taken<String>>::empty();
        assert(self.looks() =~= start + lines_brought(lines@) + none);
        assert(self.so_far() =~= items(start) + lines@);
        while lines.len() < LINES_PER_DRAIN
            invariant
                lines@.len() <= LINES_PER_DRAIN,
                call_requires(out_of_time, ()),
                start == old(self).looks(),
                none == Seq::<Taken<String>>::empty(),
                self.end() == old(self).end(),
                self.looks() == start + lines_brought(lines@) + none,
                self.so_far() == items(start) + lines@,
                lines@.len() > 0 ==> call_ensures(out_of_time, (), false),
            decreases LINES_PER_DRAIN - lines.len(),
        {
            let ghost before = self.looks();
            let ghost had = lines@;
            let taken = self.look();
            proof {
                lemma_items_pushed(before, taken);
            }
            match taken {
                Taken::Item(line) => {
                    lines.push(line);
                    assert(self.looks() =~= start + lines_brought(lines@) + none);
                    assert(self.so_far() =~= items(start) + lines@);
                },
                Taken::Empty => {
                    assert(self.looks() =~= start + lines_brought(lines@) + seq![
                        Taken::<String>::Empty,
                    ]);
                    return lines;
                },
                Taken::Disconnected => {
                    assert(self.looks() =~= start + lines_brought(lines@) + seq![
                        Taken::<String>::Disconnected,
                    ]);
                    return lines;
                },
            }
            if out_of_time() {
                return lines;
            }
        }
        lines
    }
}

/// Lines, each with an end.
pub open spec fn lines_text(lines: Seq<Seq<char>>) -> Seq<char>
    decreases lines.len(),
{
    if lines.len() == 0 {
        seq![]
    } else {
        lines_text(lines.drop_last()) + lines.last() + seq!['\n']
    }
}

/// Appends lines to the output and keeps the last 200000 bytes of it. Whether there was anything to
/// append.
pub fn append_output(output: &mut String, lines: &[String]) -> (r: bool)
    ensures
        r == (lines@.len() > 0),
        final(output)@ == if lines@.len() == 0 {
            old(output)@
        } else {
            last_bytes(old(output)@ + lines_text(text::texts(lines@)), OUTPUT_LIMIT as nat)
        },
{
    if lines.len() == 0 {
        return false;
    }
    let ghost head = output@;
    let ghost all = text::texts(lines@);
    let mut i: usize = 0;
    assert(all.take(0) =~= seq![]);
    assert(output@ =~= head + lines_text(all.take(0)));
    while i < lines.len()
        invariant
            i <= lines@.len(),
            all == text::texts(lines@),
            output@ == head + lines_text(all.take(i as int)),
        decreases lines@.len() - i,
    {
        output.push_str(lines[i].as_str());
        output.push('\n');
        proof {
            assert(all.take(i + 1).drop_last() =~= all.take(i as int));
            assert(all.take(i + 1).last() == lines@[i as int]@);
            assert(output@ =~= head + lines_text(all.take(i + 1)));
        }
        i += 1;
    }
    assert(all.take(i as int) =~= all);
    let chars = text::chars_of(output.as_str());
    let cut: usize = cut_at(chars.as_slice(), OUTPUT_LIMIT);
    if cut > 0 {
        let n: usize = chars.len();
        let rest = text::copy_range(chars.as_slice(), cut, n);
        assert(rest@ =~= chars@.skip(cut as int));
        *output = text::string_of(rest.as_slice());
    } else {
        assert(chars@.skip(0) =~= chars@);
    }
    true
}

} // verus!

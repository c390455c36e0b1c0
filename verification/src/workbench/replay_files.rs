//! Recorded files for replay: how they are put together, and which of their frames are replayed.
use crate::can::{frames_view, CanFrame, FrameView};
use crate::order::{arrange, arranged, numbers_view, ranks_view, Rank};
use crate::table::Table;
use crate::text;
use crate::workbench::filters::without_marks;
use vstd::prelude::*;

verus! {

/// Nanoseconds between two files that are replayed one after the other.
pub const FILE_GAP: i64 = 1_000_000;

/// A recorded file.
#[derive(Debug)]
pub struct ReplayFile {
    pub name: String,
    pub frames: Vec<CanFrame>,
}

// ---------------------------------------------------------------- putting files together

/// The first time of some frames.
pub open spec fn first_time(frames: Seq<FrameView>) -> int
    decreases frames.len(),
{
    if frames.len() == 0 {
        0
    } else if frames.len() == 1 {
        frames[0].t as int
    } else {
        let before = first_time(frames.drop_last());
        if frames.last().t < before {
            frames.last().t as int
        } else {
            before
        }
    }
}

/// The last time of some frames.
pub open spec fn last_time(frames: Seq<FrameView>) -> int
    decreases frames.len(),
{
    if frames.len() == 0 {
        0
    } else if frames.len() == 1 {
        frames[0].t as int
    } else {
        let before = last_time(frames.drop_last());
        if frames.last().t > before {
            frames.last().t as int
        } else {
            before
        }
    }
}

/// Frames moved in time.
pub open spec fn moved(frames: Seq<FrameView>, by: int) -> Seq<FrameView> {
    frames.map_values(|f: FrameView| FrameView { t: (f.t + by) as i64, ..f })
}

/// The frames of files.
pub open spec fn file_frames(files: Seq<ReplayFile>) -> Seq<Seq<FrameView>> {
    files.map_values(|f: ReplayFile| frames_view(f.frames@))
}

/// Where the next file begins, after files that follow each other.
pub open spec fn end_of(files: Seq<Seq<FrameView>>) -> int
    decreases files.len(),
{
    if files.len() == 0 {
        0
    } else {
        let f = files.last();
        let before = end_of(files.drop_last());
        if f.len() == 0 {
            before
        } else {
            before + (last_time(f) - first_time(f)) + FILE_GAP
        }
    }
}

/// The frames of files that follow each other, each beginning where the one before it ended.
pub open spec fn one_after_the_other(files: Seq<Seq<FrameView>>) -> Seq<FrameView>
    decreases files.len(),
{
    if files.len() == 0 {
        seq![]
    } else {
        let f = files.last();
        let rest = files.drop_last();
        one_after_the_other(rest) + (if f.len() == 0 {
            seq![]
        } else {
            moved(f, end_of(rest) - first_time(f))
        })
    }
}

/// The frames of all files.
pub open spec fn all_frames(files: Seq<Seq<FrameView>>) -> Seq<FrameView>
    decreases files.len(),
{
    if files.len() == 0 {
        seq![]
    } else {
        all_frames(files.drop_last()) + files.last()
    }
}

/// What frames are sorted by: their time.
pub open spec fn time_ranks(frames: Seq<FrameView>) -> Seq<Rank> {
    frames.map_values(|f: FrameView| (f.t as int, Seq::<char>::empty()))
}

/// Frames in the order of their times; those of the same time stay as they are.
pub open spec fn by_time(frames: Seq<FrameView>) -> Seq<FrameView> {
    arranged(time_ranks(frames), false, frames.len() as int).map_values(|i: int| frames[i])
}

proof fn lemma_times(frames: Seq<FrameView>, i: int)
    requires
        0 <= i < frames.len(),
    ensures
        first_time(frames) <= frames[i].t <= last_time(frames),
        i64::MIN <= first_time(frames) <= last_time(frames) <= i64::MAX,
    decreases frames.len(),
{
    if frames.len() > 1 {
        if i < frames.len() - 1 {
            lemma_times(frames.drop_last(), i);
        } else {
            lemma_times(frames.drop_last(), 0);
        }
    }
}

proof fn lemma_end_grows(files: Seq<Seq<FrameView>>, n: int)
    requires
        0 <= n <= files.len(),
    ensures
        0 <= end_of(files.take(n)) <= end_of(files),
    decreases files.len(),
{
    if n == files.len() {
        assert(files.take(n) =~= files);
        if n > 0 {
            lemma_end_grows(files.drop_last(), n - 1);
            if files.last().len() > 0 {
                lemma_times(files.last(), 0);
            }
        }
    } else {
        lemma_end_grows(files.drop_last(), n);
        assert(files.drop_last().take(n) =~= files.take(n));
        if files.last().len() > 0 {
            lemma_times(files.last(), 0);
        }
    }
}

fn time_span(frames: &[CanFrame]) -> (r: (i64, i64))
    requires
        frames@.len() > 0,
    ensures
        r.0 == first_time(frames_view(frames@)),
        r.1 == last_time(frames_view(frames@)),
{
    let ghost all = frames_view(frames@);
    let mut lo: i64 = frames[0].t;
    let mut hi: i64 = frames[0].t;
    let mut i: usize = 1;
    assert(all.take(1)[0] == frames@[0]@);
    while i < frames.len()
        invariant
            1 <= i <= frames@.len(),
            all == frames_view(frames@),
            lo == first_time(all.take(i as int)),
            hi == last_time(all.take(i as int)),
        decreases frames@.len() - i,
    {
        let t: i64 = frames[i].t;
        assert(all.take(i + 1).drop_last() =~= all.take(i as int));
        assert(all.take(i + 1).last() == frames@[i as int]@);
        if t < lo {
            lo = t;
        }
        if t > hi {
            hi = t;
        }
        i += 1;
    }
    assert(all.take(i as int) =~= all);
    (lo, hi)
}

/// Whether files fit one after the other into the times there are.
pub fn concat_fits(files: &[ReplayFile]) -> (r: bool)
    ensures
        r == (end_of(file_frames(files@)) <= i64::MAX),
{
    let ghost all = file_frames(files@);
    let mut cursor: i128 = 0;
    let mut i: usize = 0;
    assert(all.take(0) =~= seq![]);
    while i < files.len()
        invariant
            i <= files@.len(),
            all == file_frames(files@),
            cursor == end_of(all.take(i as int)),
            0 <= cursor <= i64::MAX,
        decreases files@.len() - i,
    {
        proof {
            assert(all.take(i + 1).drop_last() =~= all.take(i as int));
            assert(all.take(i + 1).last() == frames_view(files@[i as int].frames@));
            lemma_end_grows(all, i + 1);
        }
        if files[i].frames.len() > 0 {
            let span = time_span(files[i].frames.as_slice());
            proof {
                lemma_times(frames_view(files@[i as int].frames@), 0);
            }
            cursor = cursor + (span.1 as i128 - span.0 as i128) + FILE_GAP as i128;
            if cursor > 0x7FFF_FFFF_FFFF_FFFF {
                return false;
            }
        }
        i += 1;
    }
    assert(all.take(i as int) =~= all);
    true
}

fn push_moved(out: &mut Vec<CanFrame>, frames: &[CanFrame], by: i128)
    requires
        forall|i: int|
            0 <= i < frames@.len() ==> i64::MIN <= (#[trigger] frames@[i]).t + by <= i64::MAX,
        -0x2_0000_0000_0000_0000 < by < 0x2_0000_0000_0000_0000,
    ensures
        frames_view(final(out)@) == frames_view(old(out)@) + moved(
            frames_view(frames@),
            by as int,
        ),
{
    let ghost start = frames_view(out@);
    let ghost target = moved(frames_view(frames@), by as int);
    let mut i: usize = 0;
    assert(start + target.take(0) =~= start);
    while i < frames.len()
        invariant
            i <= frames@.len(),
            target == moved(frames_view(frames@), by as int),
            forall|i: int|
                0 <= i < frames@.len() ==> i64::MIN <= (#[trigger] frames@[i]).t + by <= i64::MAX,
            -0x2_0000_0000_0000_0000 < by < 0x2_0000_0000_0000_0000,
            frames_view(out@) == start + target.take(i as int),
        decreases frames@.len() - i,
    {
        let ghost before = out@;
        let mut f = frames[i].clone();
        assert(f@.t == frames@[i as int].t);
        f.t = (f.t as i128 + by) as i64;
        assert(f@ == target[i as int]);
        out.push(f);
        proof {
            assert(frames_view(out@) =~= frames_view(before).push(target[i as int]));
            assert(start + target.take(i + 1) =~= (start + target.take(i as int)).push(
                target[i as int],
            ));
        }
        i += 1;
    }
    assert(target.take(i as int) =~= target);
}

fn sort_by_time(frames: Vec<CanFrame>) -> (r: Vec<CanFrame>)
    ensures
        frames_view(r@) == by_time(frames_view(frames@)),
{
    let ghost all = frames_view(frames@);
    let ghost ranked = time_ranks(all);
    let mut ranks: Vec<(i128, Vec<char>)> = Vec::new();
    let mut i: usize = 0;
    while i < frames.len()
        invariant
            i <= frames@.len(),
            all == frames_view(frames@),
            ranked == time_ranks(all),
            ranks_view(ranks@) =~= ranked.take(i as int),
        decreases frames@.len() - i,
    {
        let ghost before = ranks@;
        let none: Vec<char> = Vec::new();
        assert(none@ =~= Seq::<char>::empty());
        ranks.push((frames[i].t as i128, none));
        assert(ranks_view(ranks@) =~= ranks_view(before).push(ranked[i as int]));
        i += 1;
    }
    assert(ranked.take(i as int) =~= ranked);
    let order = arrange(ranks.as_slice(), false);
    let ghost target = by_time(all);
    let mut out: Vec<CanFrame> = Vec::new();
    let mut k: usize = 0;
    while k < order.len()
        invariant
            k <= order@.len(),
            order@.len() == frames@.len(),
            all == frames_view(frames@),
            ranked == time_ranks(all),
            numbers_view(order@) == arranged(ranked, false, frames@.len() as int),
            target == by_time(all),
            forall|i: int| 0 <= i < order@.len() ==> (#[trigger] order@[i]) < frames@.len(),
            frames_view(out@) =~= target.take(k as int),
        decreases order@.len() - k,
    {
        let ghost before = out@;
        let at: usize = order[k];
        out.push(frames[at].clone());
        assert(numbers_view(order@)[k as int] == at);
        assert(target[k as int] == frames@[at as int]@);
        assert(frames_view(out@) =~= frames_view(before).push(target[k as int]));
        k += 1;
    }
    assert(target.take(k as int) =~= target);
    out
}

/// The frames of files in the order of their times: the files one after the other, or all at once.
pub fn merge_files(files: &[ReplayFile], concat: bool) -> (r: Vec<CanFrame>)
    requires
        concat ==> end_of(file_frames(files@)) <= i64::MAX,
    ensures
        frames_view(r@) == by_time(
            if concat {
                one_after_the_other(file_frames(files@))
            } else {
                all_frames(file_frames(files@))
            },
        ),
{
    let ghost all = file_frames(files@);
    let mut out: Vec<CanFrame> = Vec::new();
    let mut cursor: i128 = 0;
    let mut i: usize = 0;
    assert(all.take(0) =~= seq![]);
    assert(frames_view(out@) =~= seq![]);
    while i < files.len()
        invariant
            i <= files@.len(),
            all == file_frames(files@),
            concat ==> end_of(all) <= i64::MAX,
            concat ==> cursor == end_of(all.take(i as int)),
            concat ==> 0 <= cursor <= i64::MAX,
            frames_view(out@) == if concat {
                one_after_the_other(all.take(i as int))
            } else {
                all_frames(all.take(i as int))
            },
        decreases files@.len() - i,
    {
        let frames = &files[i].frames;
        let ghost f = frames_view(frames@);
        proof {
            assert(all.take(i + 1).drop_last() =~= all.take(i as int));
            assert(all.take(i + 1).last() == f);
            lemma_end_grows(all, i as int);
            lemma_end_grows(all, i + 1);
        }
        if concat {
            if frames.len() > 0 {
                let span = time_span(frames.as_slice());
                let by: i128 = cursor - span.0 as i128;
                proof {
                    lemma_times(f, 0);
                    assert forall|k: int| 0 <= k < frames@.len() implies i64::MIN <= (
                    #[trigger] frames@[k]).t + by <= i64::MAX by {
                        lemma_times(f, k);
                        assert(f[k] == frames@[k]@);
                    }
                }
                push_moved(&mut out, frames.as_slice(), by);
                cursor = cursor + (span.1 as i128 - span.0 as i128) + FILE_GAP as i128;
            } else {
                assert(frames_view(out@) =~= one_after_the_other(all.take(i + 1)));
            }
        } else {
            push_moved(&mut out, frames.as_slice(), 0);
            assert(moved(f, 0) =~= f);
        }
        i += 1;
    }
    assert(all.take(i as int) =~= all);
    sort_by_time(out)
}

proof fn lemma_times_of_files(files: Seq<Seq<FrameView>>, i: int)
    requires
        end_of(files) <= i64::MAX,
        0 <= i < one_after_the_other(files).len(),
    ensures
        0 <= one_after_the_other(files)[i].t < end_of(files),
    decreases files.len(),
{
    if files.len() > 0 {
        let rest = files.drop_last();
        let f = files.last();
        let before = one_after_the_other(rest);
        lemma_end_grows(files, files.len() - 1);
        assert(files.take(files.len() - 1) =~= rest);
        if i < before.len() {
            lemma_times_of_files(rest, i);
        } else {
            let j = i - before.len();
            lemma_times(f, j);
            assert(one_after_the_other(files)[i] == moved(f, end_of(rest) - first_time(f))[j]);
        }
    }
}

/// Files that are replayed one after the other do not overlap: every frame of a file comes later
/// than all frames of the files before it, and times within a file keep their distances.
pub proof fn law_files_follow_each_other(files: Seq<Seq<FrameView>>, i: int, j: int, k: int)
    requires
        files.len() > 0,
        end_of(files) <= i64::MAX,
        0 <= i < one_after_the_other(files.drop_last()).len(),
        0 <= j < files.last().len(),
        0 <= k < files.last().len(),
    ensures
        ({
            let n = one_after_the_other(files.drop_last()).len();
            let all = one_after_the_other(files);
            &&& all[i].t < all[n + j].t
            &&& all[n + j].t - all[n + k].t == files.last()[j].t - files.last()[k].t
        }),
{
    let rest = files.drop_last();
    let f = files.last();
    lemma_end_grows(files, files.len() - 1);
    assert(files.take(files.len() - 1) =~= rest);
    lemma_times_of_files(rest, i);
    lemma_times(f, j);
    lemma_times(f, k);
    let m = moved(f, end_of(rest) - first_time(f));
    let all = one_after_the_other(files);
    let n = one_after_the_other(rest).len();
    assert(all[n + j] == m[j]);
    assert(all[n + k] == m[k]);
}

// ---------------------------------------------------------------- labels

/// The names of files.
pub open spec fn file_names(files: Seq<ReplayFile>) -> Seq<Seq<char>> {
    files.map_values(|f: ReplayFile| f.name@)
}

/// What the window says of the files.
pub open spec fn files_text(names: Seq<Seq<char>>, total: nat, english: bool) -> Seq<char> {
    let count = if english {
        " ("@ + text::decimal(total) + " frames)"@
    } else {
        " ("@ + text::decimal(total) + " 帧)"@
    };
    if names.len() == 0 {
        if english {
            "(no file selected)"@
        } else {
            "(未选择文件)"@
        }
    } else if names.len() == 1 {
        names[0] + count
    } else {
        text::decimal(names.len()) + (if english {
            " files: "@
        } else {
            " 个文件: "@
        }) + text::joined(names, ", "@) + count
    }
}

fn push_count(out: &mut String, total: u64, english: bool)
    ensures
        final(out)@ == old(out)@ + (if english {
            " ("@ + text::decimal(total as nat) + " frames)"@
        } else {
            " ("@ + text::decimal(total as nat) + " 帧)"@
        }),
{
    let ghost before = out@;
    out.push_str(" (");
    text::push_decimal(out, total);
    if english {
        out.push_str(" frames)");
        assert(out@ =~= before + (" ("@ + text::decimal(total as nat) + " frames)"@));
    } else {
        out.push_str(" 帧)");
        assert(out@ =~= before + (" ("@ + text::decimal(total as nat) + " 帧)"@));
    }
}

/// What the window says of the files.
pub fn files_label(files: &[ReplayFile], total: usize, english: bool) -> (r: String)
    ensures
        r@ == files_text(file_names(files@), total as nat, english),
{
    let ghost names = file_names(files@);
    let n: usize = files.len();
    if n == 0 {
        return (if english {
            "(no file selected)"
        } else {
            "(未选择文件)"
        }).to_owned();
    }
    if n == 1 {
        let mut out = files[0].name.clone();
        push_count(&mut out, total as u64, english);
        return out;
    }
    let mut list: Vec<String> = Vec::new();
    let mut i: usize = 0;
    while i < n
        invariant
            i <= n == files@.len(),
            names == file_names(files@),
            text::texts(list@) =~= names.take(i as int),
        decreases n - i,
    {
        let ghost before = list@;
        list.push(files[i].name.clone());
        assert(text::texts(list@) =~= text::texts(before).push(names[i as int]));
        i += 1;
    }
    assert(names.take(i as int) =~= names);
    let mut out = text::decimal_string(n as u64);
    out.push_str(
        if english {
            " files: "
        } else {
            " 个文件: "
        },
    );
    let joined = text::join(list.as_slice(), ", ");
    out.push_str(joined.as_str());
    push_count(&mut out, total as u64, english);
    out
}

/// Whether a channel occurs among some frames.
pub open spec fn occurs(frames: Seq<FrameView>, ch: int) -> bool {
    exists|i: int| 0 <= i < frames.len() && (#[trigger] frames[i]).ch == ch
}

/// The texts of the channels below a number that occur, in rising order.
pub open spec fn channel_texts(frames: Seq<FrameView>, below: int) -> Seq<Seq<char>>
    decreases below,
{
    if below <= 0 {
        seq![]
    } else {
        let before = channel_texts(frames, below - 1);
        if occurs(frames, below - 1) {
            before.push(text::decimal((below - 1) as nat))
        } else {
            before
        }
    }
}

/// The channels that occur among some frames, in rising order.
pub fn source_channels(frames: &[CanFrame]) -> (r: String)
    ensures
        r@ == if frames@.len() == 0 {
            "-"@
        } else {
            text::joined(channel_texts(frames_view(frames@), 256), ", "@)
        },
{
    if frames.len() == 0 {
        return "-".to_owned();
    }
    let ghost all = frames_view(frames@);
    let mut seen: [bool; 256] = [false; 256];
    let mut i: usize = 0;
    while i < frames.len()
        invariant
            i <= frames@.len(),
            all == frames_view(frames@),
            seen@.len() == 256,
            forall|c: int| 0 <= c < 256 ==> #[trigger] seen@[c] == occurs(all.take(i as int), c),
        decreases frames@.len() - i,
    {
        let ch: usize = frames[i].ch as usize;
        let ghost before = seen@;
        seen[ch] = true;
        proof {
            let now = all.take(i + 1);
            assert(now[i as int] == frames@[i as int]@);
            assert forall|c: int| 0 <= c < 256 implies #[trigger] seen@[c] == occurs(now, c) by {
                let _ = before[c];
                if occurs(all.take(i as int), c) {
                    let k = choose|k: int|
                        0 <= k < i && (#[trigger] all.take(i as int)[k]).ch == c;
                    assert(now[k].ch == c);
                }
                if occurs(now, c) && c != ch {
                    let k = choose|k: int| 0 <= k < now.len() && (#[trigger] now[k]).ch == c;
                    assert(all.take(i as int)[k].ch == c);
                }
            }
        }
        i += 1;
    }
    assert(all.take(i as int) =~= all);
    let mut parts: Vec<String> = Vec::new();
    let mut c: usize = 0;
    assert(text::texts(parts@) =~= channel_texts(all, 0));
    while c < 256
        invariant
            c <= 256,
            seen@.len() == 256,
            forall|c: int| 0 <= c < 256 ==> #[trigger] seen@[c] == occurs(all, c),
            text::texts(parts@) == channel_texts(all, c as int),
        decreases 256 - c,
    {
        let ghost before = parts@;
        if seen[c] {
            parts.push(text::decimal_string(c as u64));
            assert(text::texts(parts@) =~= text::texts(before).push(text::decimal(c as nat)));
        }
        c += 1;
    }
    text::join(parts.as_slice(), ", ")
}

// ---------------------------------------------------------------- choosing frames

/// A text without any `0X` in front of it.
pub open spec fn without_large_marks(s: Seq<char>) -> Seq<char>
    decreases s.len(),
{
    if s.len() >= 2 && s[0] == '0' && s[1] == 'X' {
        without_large_marks(s.skip(2))
    } else {
        s
    }
}

/// The hexadecimal number of a text, if it holds one.
pub open spec fn border(s: Seq<char>) -> Option<nat> {
    let t = text::trim(s);
    if t.len() == 0 {
        None
    } else {
        text::unsigned_value(without_large_marks(without_marks(t)), 16, 0xFFFF_FFFF)
    }
}

/// The hexadecimal number of a text, if it holds one.
pub fn parse_hex_u32(s: &str) -> (r: Option<u32>)
    ensures
        match r {
            Some(v) => border(s@) == Some(v as nat),
            None => border(s@) is None,
        },
{
    let chars = text::chars_of(s);
    let t = text::trim_chars(chars.as_slice());
    let n: usize = t.len();
    if n == 0 {
        return None;
    }
    let ghost all = t@;
    let mut i: usize = 0;
    assert(all.skip(0) =~= all);
    while n - i >= 2 && t[i] == '0' && t[i + 1] == 'x'
        invariant
            i <= n == all.len(),
            all == t@,
            without_marks(all) == without_marks(all.skip(i as int)),
        decreases n - i,
    {
        assert(all.skip(i as int).skip(2) =~= all.skip(i + 2));
        i += 2;
    }
    assert(without_marks(all) == all.skip(i as int));
    while n - i >= 2 && t[i] == '0' && t[i + 1] == 'X'
        invariant
            i <= n == all.len(),
            all == t@,
            without_large_marks(without_marks(all)) == without_large_marks(all.skip(i as int)),
        decreases n - i,
    {
        assert(all.skip(i as int).skip(2) =~= all.skip(i + 2));
        i += 2;
    }
    let body = text::copy_range(t.as_slice(), i, n);
    assert(body@ =~= all.skip(i as int));
    match text::read_unsigned(body.as_slice(), 16, 0xFFFF_FFFF) {
        Some(v) => Some(v as u32),
        None => None,
    }
}

/// The pair of channels that a part of a channel map names.
pub open spec fn channel_pair(part: Seq<char>) -> Option<(u8, u8)> {
    let t = text::trim(part);
    let k = text::find(t, ':');
    if k >= t.len() {
        None
    } else {
        match (
            text::unsigned_value(text::trim(t.take(k)), 10, 255),
            text::unsigned_value(text::trim(t.skip(k + 1)), 10, 255),
        ) {
            (Some(a), Some(b)) => Some((a as u8, b as u8)),
            _ => None,
        }
    }
}

/// The channels that parts of a text map; a later pair replaces an earlier one.
pub open spec fn channel_map(parts: Seq<Seq<char>>) -> Map<u64, u8>
    decreases parts.len(),
{
    if parts.len() == 0 {
        Map::empty()
    } else {
        let before = channel_map(parts.drop_last());
        match channel_pair(parts.last()) {
            Some((a, b)) => before.insert(a as u64, b),
            None => before,
        }
    }
}

fn read_pair(part: &[char]) -> (r: Option<(u8, u8)>)
    ensures
        r == channel_pair(part@),
{
    let t = text::trim_chars(part);
    let n: usize = t.len();
    let k: usize = text::find_char(t.as_slice(), ':');
    if k >= n {
        return None;
    }
    let a = text::copy_range(t.as_slice(), 0, k);
    let b = text::copy_range(t.as_slice(), k + 1, n);
    assert(a@ =~= t@.take(k as int));
    assert(b@ =~= t@.skip(k + 1));
    let a = text::trim_chars(a.as_slice());
    let b = text::trim_chars(b.as_slice());
    match (
        text::read_unsigned(a.as_slice(), 10, 255),
        text::read_unsigned(b.as_slice(), 10, 255),
    ) {
        (Some(a), Some(b)) => Some((a as u8, b as u8)),
        _ => None,
    }
}

/// Reads which channels are replayed on which: pairs with a colon between them.
pub fn parse_channel_map(s: &str) -> (r: Table<u8>)
    ensures
        r.wf(),
        r.map() == channel_map(text::split(s@, ',')),
{
    let chars = text::chars_of(s);
    let parts = text::split_chars(chars.as_slice(), ',');
    let ghost all = text::split(s@, ',');
    let mut out: Table<u8> = Table::new();
    let mut i: usize = 0;
    assert(all.take(0) =~= seq![]);
    while i < parts.len()
        invariant
            i <= parts@.len(),
            text::views(parts@) == all,
            out.wf(),
            out.map() == channel_map(all.take(i as int)),
        decreases parts@.len() - i,
    {
        assert(all.take(i + 1).drop_last() =~= all.take(i as int));
        assert(all.take(i + 1).last() == parts@[i as int]@);
        if let Some((a, b)) = read_pair(parts[i].as_slice()) {
            out.insert(a as u64, b);
        }
        i += 1;
    }
    assert(all.take(i as int) =~= all) by {
        assert(text::views(parts@).len() == parts@.len());
    }
    out
}

/// Which frames are replayed: a range of identifiers and a stretch of time.
#[derive(Clone, Copy, Debug)]
pub struct ReplayChoice {
    pub id_lo: u32,
    pub id_hi: u32,
    pub start: i64,
    pub end: i64,
}

/// The channel on which a frame is replayed.
pub open spec fn replay_channel(map: Map<u64, u8>, ch: u8) -> u8 {
    if map.dom().contains(ch as u64) {
        map[ch as u64]
    } else {
        ch
    }
}

/// Whether a frame is replayed: it is within the choice, and its channel is not mapped to none.
pub open spec fn is_replayed(f: FrameView, c: ReplayChoice, map: Map<u64, u8>) -> bool {
    c.id_lo <= f.id <= c.id_hi && c.start <= f.t <= c.end && replay_channel(map, f.ch) != 0
}

/// The frames that are replayed, on the channels that they are mapped to.
pub open spec fn replayed(frames: Seq<FrameView>, c: ReplayChoice, map: Map<u64, u8>) -> Seq<FrameView>
    decreases frames.len(),
{
    if frames.len() == 0 {
        seq![]
    } else {
        let before = replayed(frames.drop_last(), c, map);
        let f = frames.last();
        if is_replayed(f, c, map) {
            before.push(FrameView { ch: replay_channel(map, f.ch), ..f })
        } else {
            before
        }
    }
}

/// The frames that are replayed, on the channels that they are mapped to.
pub fn choose_frames(frames: &[CanFrame], choice: &ReplayChoice, map: &Table<u8>) -> (r: Vec<CanFrame>)
    requires
        map.wf(),
    ensures
        frames_view(r@) == replayed(frames_view(frames@), *choice, map.map()),
{
    let ghost all = frames_view(frames@);
    let mut out: Vec<CanFrame> = Vec::new();
    let mut i: usize = 0;
    assert(all.take(0) =~= seq![]);
    assert(frames_view(out@) =~= seq![]);
    while i < frames.len()
        invariant
            i <= frames@.len(),
            map.wf(),
            all == frames_view(frames@),
            frames_view(out@) == replayed(all.take(i as int), *choice, map.map()),
        decreases frames@.len() - i,
    {
        let ghost before = out@;
        let f = &frames[i];
        assert(all.take(i + 1).drop_last() =~= all.take(i as int));
        assert(all.take(i + 1).last() == f@);
        if f.id >= choice.id_lo && f.id <= choice.id_hi && f.t >= choice.start && f.t
            <= choice.end {
            let dst: u8 = match map.find(f.ch as u64) {
                Some(at) => *map.value_at(at),
                None => f.ch,
            };
            if dst != 0 {
                let mut g = f.clone();
                g.ch = dst;
                assert(g@ == FrameView { ch: dst, ..f@ });
                out.push(g);
                assert(frames_view(out@) =~= frames_view(before).push(g@));
            }
        }
        i += 1;
    }
    assert(all.take(i as int) =~= all);
    out
}

} // verus!

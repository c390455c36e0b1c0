//! The value axes of register charts. Numbers are bit patterns of floating-point numbers, whose
//! order is stated on the bits.
use crate::modbus::chart::ChartState;
use crate::modbus::datalog::not_a_number;
use crate::text;
use vstd::prelude::*;

verus! {

/// The bits of the number above all others.
pub const INFINITE: u64 = 0x7FF0_0000_0000_0000;

/// The bits of the number below all others.
pub const MINUS_INFINITE: u64 = 0xFFF0_0000_0000_0000;

/// The place of a number among all numbers: the first bit is the sign, the rest the magnitude.
pub open spec fn rank_of(bits: u64) -> int {
    if bits < 0x8000_0000_0000_0000 {
        bits as int
    } else {
        0x8000_0000_0000_0000 - bits
    }
}

/// Whether a number is smaller than another. What is no number is neither smaller nor greater.
pub open spec fn smaller(a: u64, b: u64) -> bool {
    !not_a_number(a) && !not_a_number(b) && rank_of(a) < rank_of(b)
}

/// Whether bits are those of a finite number.
pub open spec fn finite(bits: u64) -> bool {
    bits as int % 0x8000_0000_0000_0000 < INFINITE
}

fn to_rank(bits: u64) -> (r: i128)
    ensures
        r == rank_of(bits),
{
    if bits < 0x8000_0000_0000_0000 {
        bits as i128
    } else {
        0x8000_0000_0000_0000 - bits as i128
    }
}

/// Whether a number is smaller than another.
pub fn is_smaller(a: u64, b: u64) -> (r: bool)
    ensures
        r == smaller(a, b),
{
    let half: u64 = 0x8000_0000_0000_0000;
    a % half <= INFINITE && b % half <= INFINITE && to_rank(a) < to_rank(b)
}

/// The smallest of some numbers, infinite for none.
pub open spec fn least(v: Seq<u64>) -> u64
    decreases v.len(),
{
    if v.len() == 0 {
        INFINITE
    } else {
        let m = least(v.drop_last());
        if smaller(v.last(), m) {
            v.last()
        } else {
            m
        }
    }
}

/// The greatest of some numbers, minus infinite for none.
pub open spec fn greatest(v: Seq<u64>) -> u64
    decreases v.len(),
{
    if v.len() == 0 {
        MINUS_INFINITE
    } else {
        let m = greatest(v.drop_last());
        if smaller(m, v.last()) {
            v.last()
        } else {
            m
        }
    }
}

/// The samples of the first `n` series that are on an axis, one series behind the other.
pub open spec fn axis_values(ch: &ChartState, right: bool, n: int) -> Seq<u64>
    decreases n,
{
    if n <= 0 {
        seq![]
    } else {
        let before = axis_values(ch, right, n - 1);
        if ch.right@.contains(ch.addrs@[n - 1]) == right {
            before + ch.data@[n - 1]@
        } else {
            before
        }
    }
}

/// The range of an axis: the smallest and the greatest of its samples.
pub open spec fn range_of(v: Seq<u64>) -> Option<(u64, u64)> {
    if finite(least(v)) {
        Some((least(v), greatest(v)))
    } else {
        None
    }
}

fn is_right(ch: &ChartState, addr: u16) -> (r: bool)
    ensures
        r == ch.right@.contains(addr),
{
    let mut i: usize = 0;
    while i < ch.right.len()
        invariant
            i <= ch.right@.len(),
            forall|j: int| 0 <= j < i ==> ch.right@[j] != addr,
        decreases ch.right@.len() - i,
    {
        if ch.right[i] == addr {
            return true;
        }
        i += 1;
    }
    false
}

/// The range of the left or the right axis, where it has a finite sample to show.
pub fn axis_range(ch: &ChartState, right: bool) -> (r: Option<(u64, u64)>)
    requires
        ch.wf(),
    ensures
        r == range_of(axis_values(ch, right, ch.data@.len() as int)),
{
    let mut lo: u64 = INFINITE;
    let mut hi: u64 = MINUS_INFINITE;
    let mut i: usize = 0;
    while i < ch.data.len()
        invariant
            ch.wf(),
            i <= ch.data@.len(),
            lo == least(axis_values(ch, right, i as int)),
            hi == greatest(axis_values(ch, right, i as int)),
        decreases ch.data@.len() - i,
    {
        if is_right(ch, ch.addrs[i]) == right {
            let ghost before = axis_values(ch, right, i as int);
            let d = &ch.data[i];
            let mut j: usize = 0;
            assert(before + d@.take(0) =~= before);
            while j < d.len()
                invariant
                    j <= d@.len(),
                    lo == least(before + d@.take(j as int)),
                    hi == greatest(before + d@.take(j as int)),
                decreases d@.len() - j,
            {
                let v: u64 = d[j];
                let ghost now = before + d@.take(j + 1);
                assert(now.drop_last() =~= before + d@.take(j as int));
                assert(now.last() == v);
                if is_smaller(v, lo) {
                    lo = v;
                }
                if is_smaller(hi, v) {
                    hi = v;
                }
                j += 1;
            }
            assert(d@.take(j as int) =~= d@);
        }
        i += 1;
    }
    let half: u64 = 0x8000_0000_0000_0000;
    if lo % half < INFINITE {
        Some((lo, hi))
    } else {
        None
    }
}

proof fn lemma_extremes(v: Seq<u64>, i: int)
    requires
        0 <= i < v.len(),
    ensures
        !smaller(v[i], least(v)),
        !smaller(greatest(v), v[i]),
        !not_a_number(least(v)),
        !not_a_number(greatest(v)),
    decreases v.len(),
{
    lemma_numbers(v.drop_last());
    if i < v.len() - 1 {
        lemma_extremes(v.drop_last(), i);
    }
}

proof fn lemma_numbers(v: Seq<u64>)
    ensures
        !not_a_number(least(v)),
        !not_a_number(greatest(v)),
    decreases v.len(),
{
    if v.len() > 0 {
        lemma_numbers(v.drop_last());
    }
}

/// No sample of an axis lies outside the range of the axis.
pub proof fn law_axes_hold_their_samples(v: Seq<u64>, i: int)
    requires
        0 <= i < v.len(),
        range_of(v) is Some,
    ensures
        !smaller(v[i], (range_of(v)->0).0),
        !smaller((range_of(v)->0).1, v[i]),
{
    lemma_extremes(v, i);
}

/// What is shown of a series besides its curve.
#[derive(Debug)]
pub struct SeriesHead {
    /// Its place among the series.
    pub place: usize,
    pub addr: u16,
    pub name: String,
    pub argb: u32,
    pub right: bool,
}

/// The colours of the series of a page.
pub open spec fn series_colour(i: int) -> u32 {
    let k = i % 12;
    if k == 0 {
        0xFF61AFEF
    } else if k == 1 {
        0xFF98C379
    } else if k == 2 {
        0xFFE06C75
    } else if k == 3 {
        0xFFE5C07B
    } else if k == 4 {
        0xFFC678DD
    } else if k == 5 {
        0xFF56B6C2
    } else if k == 6 {
        0xFFD19A66
    } else if k == 7 {
        0xFFABB2BF
    } else if k == 8 {
        0xFFE06CB4
    } else if k == 9 {
        0xFF7FB069
    } else if k == 10 {
        0xFF5C9DFF
    } else {
        0xFFF0A030
    }
}

fn colour_at(i: usize) -> (r: u32)
    ensures
        r == series_colour(i as int),
{
    match i % 12 {
        0 => 0xFF61AFEF,
        1 => 0xFF98C379,
        2 => 0xFFE06C75,
        3 => 0xFFE5C07B,
        4 => 0xFFC678DD,
        5 => 0xFF56B6C2,
        6 => 0xFFD19A66,
        7 => 0xFFABB2BF,
        8 => 0xFFE06CB4,
        9 => 0xFF7FB069,
        10 => 0xFF5C9DFF,
        _ => 0xFFF0A030,
    }
}

/// The series among the first `n` that can be drawn: those with two samples or more.
pub open spec fn drawn(ch: &ChartState, n: int) -> Seq<int>
    decreases n,
{
    if n <= 0 {
        seq![]
    } else if ch.data@[n - 1]@.len() >= 2 {
        drawn(ch, n - 1).push(n - 1)
    } else {
        drawn(ch, n - 1)
    }
}

/// Whether a head is that of the series at a place.
pub open spec fn heads(ch: &ChartState, h: SeriesHead, place: int) -> bool {
    &&& h.place == place
    &&& h.addr == ch.addrs@[place]
    &&& h.name@ == "@"@ + text::decimal(h.addr as nat)
    &&& h.argb == series_colour(place)
    &&& h.right == ch.right@.contains(h.addr)
}

/// The heads of the series that can be drawn, in order.
pub fn series_heads(ch: &ChartState) -> (r: Vec<SeriesHead>)
    requires
        ch.wf(),
    ensures
        r@.len() == drawn(ch, ch.data@.len() as int).len(),
        forall|k: int|
            0 <= k < r@.len() ==> heads(
                ch,
                #[trigger] r@[k],
                drawn(ch, ch.data@.len() as int)[k],
            ),
{
    let mut out: Vec<SeriesHead> = Vec::new();
    let mut i: usize = 0;
    while i < ch.data.len()
        invariant
            ch.wf(),
            i <= ch.data@.len(),
            out@.len() == drawn(ch, i as int).len(),
            forall|k: int|
                0 <= k < out@.len() ==> heads(ch, #[trigger] out@[k], drawn(ch, i as int)[k]),
        decreases ch.data@.len() - i,
    {
        if ch.data[i].len() >= 2 {
            let addr: u16 = ch.addrs[i];
            let mut name = "@".to_owned();
            text::push_decimal(&mut name, addr as u64);
            out.push(
                SeriesHead { place: i, addr, name, argb: colour_at(i), right: is_right(ch, addr) },
            );
        }
        i += 1;
    }
    out
}

} // verus!

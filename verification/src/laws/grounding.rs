//! Laws on what the rest stands on: deadlines, checksums, numbers drawn, and texts taken apart.
use crate::can::CanFrame;
use crate::can::ip_text::{is_ipv4, is_octet};
use crate::can::schedule::{
    seed_of, take_due, take_due_dynamics, DynamicDue, DynamicPeriodic, Periodic,
};
use crate::laws::texts::law_numerals_read_back;
use crate::modbus::adu::{crc_bit, crc_bits, crc_of};
use crate::modbus::sim::{shifted, Xorshift};
use crate::order::{key_before, rank_before, text_before};
use crate::table::Table;
use crate::text;
use vstd::prelude::*;

verus! {

// ---------------------------------------------------------------- deadlines

/// A frame that was due is due again one period after it was due, however late it went out; only
/// where that has passed too, one period from now. A frame that was not due keeps its deadline.
pub proof fn law_frames_keep_their_beat(
    jobs: &mut Table<Periodic>,
    now: u64,
    t: i64,
    r: Vec<(u64, CanFrame)>,
    i: int,
)
    requires
        old(jobs).wf(),
        crate::can::schedule::jobs_wf(old(jobs).rows()),
        call_ensures(take_due, (jobs, now, t), r),
        0 <= i < old(jobs).rows().len(),
    ensures
        ({
            let before = old(jobs).rows()[i].1;
            let after = final(jobs).rows()[i].1;
            &&& final(jobs).rows()[i].0 == old(jobs).rows()[i].0
            &&& now < before.next ==> after.next == before.next
            &&& now >= before.next && before.next + before.period > now ==> after.next == before.next
                + before.period
            &&& now >= before.next && before.next + before.period <= now ==> after.next == now
                + before.period
            &&& after.period == before.period && after.remaining == before.remaining && after.sent
                == before.sent
        }),
        final(jobs).rows().len() == old(jobs).rows().len(),
{
    assert(final(jobs).rows()[i].0 == old(jobs).rows()[i].0);
    let before = old(jobs).rows()[i].1;
    assert(before.wf());
}

/// Frames that are encoded keep their beat in the same way, and each time that one is due counts.
pub proof fn law_encoded_frames_keep_their_beat(
    jobs: &mut Table<DynamicPeriodic>,
    now: u64,
    r: Vec<DynamicDue>,
    i: int,
)
    requires
        old(jobs).wf(),
        call_ensures(take_due_dynamics, (jobs, now), r),
        0 <= i < old(jobs).rows().len(),
        1 <= old(jobs).rows()[i].1.config.period_ms,
        old(jobs).rows()[i].1.next <= u64::MAX,
    ensures
        ({
            let before = old(jobs).rows()[i].1;
            let after = final(jobs).rows()[i].1;
            let period = before.config.period_ms * 1_000_000;
            &&& final(jobs).rows()[i].0 == old(jobs).rows()[i].0
            &&& now < before.next ==> after.next == before.next && after.sent == before.sent
            &&& now >= before.next && before.next + period > now ==> after.next == before.next + period
            &&& now >= before.next && before.next + period <= now ==> after.next == now + period
            &&& now >= before.next && before.sent < u64::MAX ==> after.sent == before.sent + 1
        }),
{
    assert(final(jobs).rows()[i].0 == old(jobs).rows()[i].0);
}

// ---------------------------------------------------------------- checksums

/// The checksum of nothing is 0xFFFF. Each bit that is taken in halves it; where a one falls out the
/// polynomial 0xA001 is added, and nothing else has the highest bit set.
pub proof fn law_checksums_divide_by_their_polynomial(x: u16, data: Seq<u8>, b: u8)
    ensures
        crc_of(Seq::empty()) == 0xFFFF,
        x % 2 == 0 ==> crc_bit(x) * 2 == x,
        x % 2 == 1 ==> (crc_bit(x) ^ 0xA001) * 2 + 1 == x,
        crc_bit(x) >= 0x8000 <==> x % 2 == 1,
        crc_of(data.push(b)) == crc_bits(crc_of(data) ^ (b as u16), 8),
        crc_bits(x, 1) == crc_bit(x),
{
    assert(data.push(b).drop_last() =~= data);
    assert((x & 1 != 0) == (x % 2 == 1) && x >> 1 < 0x8000 && (x % 2 == 0 ==> (x >> 1) * 2 == x) && (x
        % 2 == 1 ==> (((x >> 1) ^ 0xA001) ^ 0xA001) * 2 + 1 == x) && ((x >> 1) ^ 0xA001) >= 0x8000)
        by (bit_vector);
    assert(crc_bits(x, 0) == x);
}

proof fn lemma_bits_tell_apart(x: u16, y: u16, n: nat)
    requires
        x != y,
    ensures
        crc_bits(x, n) != crc_bits(y, n),
    decreases n,
{
    if n > 0 {
        lemma_bits_tell_apart(x, y, (n - 1) as nat);
        let a = crc_bits(x, (n - 1) as nat);
        let b = crc_bits(y, (n - 1) as nat);
        law_checksums_divide_by_their_polynomial(a, Seq::empty(), 0);
        law_checksums_divide_by_their_polynomial(b, Seq::empty(), 0);
    }
}

/// A byte that was changed on the way changes the checksum.
pub proof fn law_checksums_tell_bytes_apart(data: Seq<u8>, x: u8, y: u8)
    requires
        x != y,
    ensures
        crc_of(data.push(x)) != crc_of(data.push(y)),
{
    let c = crc_of(data);
    law_checksums_divide_by_their_polynomial(0, data, x);
    law_checksums_divide_by_their_polynomial(0, data, y);
    assert(x != y ==> c ^ (x as u16) != c ^ (y as u16)) by (bit_vector);
    lemma_bits_tell_apart(c ^ (x as u16), c ^ (y as u16), 8);
}

// ---------------------------------------------------------------- numbers drawn

/// Numbers are drawn by a step that adds over the bits of the state and never comes to zero from
/// another number; a low bit alone becomes six.
pub proof fn law_draws_add_over_bits(x: u64, y: u64, k: u64)
    requires
        k < 7,
    ensures
        shifted(x ^ y) == shifted(x) ^ shifted(y),
        shifted(x) == 0 <==> x == 0,
        shifted(1u64 << k) == (1u64 << k) | (1u64 << ((k + 6) as u64)) | (1u64 << ((k + 13) as u64)) | (1u64
            << ((k + 17) as u64)) | (1u64 << ((k + 23) as u64)) | (1u64 << ((k + 30) as u64)),
{
    let z = x ^ y;
    let a = x ^ (x << 13);
    let b = a ^ (a >> 7);
    let c = y ^ (y << 13);
    let d = c ^ (c >> 7);
    let e = z ^ (z << 13);
    let f = e ^ (e >> 7);
    assert(z == x ^ y && a == x ^ (x << 13) && b == a ^ (a >> 7) && c == y ^ (y << 13) && d == c ^ (c
        >> 7) && e == z ^ (z << 13) && f == e ^ (e >> 7) ==> f ^ (f << 17) == (b ^ (b << 17)) ^ (d ^ (d
        << 17)) && (b ^ (b << 17) == 0 <==> x == 0)) by (bit_vector);
    let p = 1u64 << k;
    let q = p ^ (p << 13);
    let r = q ^ (q >> 7);
    let k6 = (k + 6) as u64;
    let k13 = (k + 13) as u64;
    let k17 = (k + 17) as u64;
    let k23 = (k + 23) as u64;
    let k30 = (k + 30) as u64;
    assert(k < 7 && p == 1u64 << k && q == p ^ (p << 13) && r == q ^ (q >> 7) && k6 == k + 6 && k13 == k
        + 13 && k17 == k + 17 && k23 == k + 23 && k30 == k + 30 ==> r ^ (r << 17) == p | (1u64 << k6) | (
    1u64 << k13) | (1u64 << k17) | (1u64 << k23) | (1u64 << k30)) by (bit_vector);
}

/// A number that is drawn is the state that the next one is drawn from.
pub proof fn law_draws_follow_each_other(g: &mut Xorshift, r: u64)
    requires
        call_ensures(Xorshift::next, (g,), r),
    ensures
        final(g).state == r,
        old(g).state != 0 ==> r != 0,
{
    law_draws_add_over_bits(old(g).state, 0, 0);
}

/// The seed of a signal holds its name in base 31, behind the handle and the count.
pub proof fn law_seeds_hold_the_name(handle: u64, sent: u64, name: Seq<u8>, b: u8)
    ensures
        seed_of(handle, 0, Seq::empty()) == handle,
        sent < 0x100_0000 ==> seed_of(0, sent, Seq::empty()) == sent + sent * 0x100_0000,
        seed_of(handle, sent, name.push(b)) == (31 * seed_of(handle, sent, name) + b)
            % 0x1_0000_0000_0000_0000,
{
    assert(name.push(b).drop_last() =~= name);
    let zero: u64 = 0;
    assert(handle ^ zero == handle) by (bit_vector)
        requires
            zero == 0,
    ;
    let x = sent.wrapping_mul(0x0100_0001);
    assert(zero ^ x == x) by (bit_vector)
        requires
            zero == 0,
    ;
    let s = seed_of(handle, sent, name);
    let m = 0x1_0000_0000_0000_0000;
    vstd::arithmetic::div_mod::lemma_add_mod_noop((s * 31) as int, b as int, m);
    if sent < 0x100_0000 {
        assert(sent * 0x0100_0001 < m);
        vstd::arithmetic::div_mod::lemma_small_mod((sent * 0x0100_0001) as nat, m as nat);
    }
}

// ---------------------------------------------------------------- texts

/// A text before a separator, if it holds none, is the first part; what follows is taken apart in
/// the same way.
pub proof fn law_separators_part_texts(a: Seq<char>, c: char, rest: Seq<char>)
    requires
        !a.contains(c),
    ensures
        text::split(a, c) == seq![a],
        text::split(a.push(c) + rest, c) == seq![a] + text::split(rest, c),
{
    let s = a.push(c) + rest;
    let n = a.len() as int;
    assert forall|i: int| 0 <= i < n implies a[i] != c by {
        assert(a.contains(a[i]));
    }
    text::lemma_find_unique(a, c, n);
    assert forall|i: int| 0 <= i < n implies s[i] != c by {
        assert(s[i] == a[i]);
    }
    assert(s[n] == c);
    text::lemma_find_unique(s, c, n);
    assert(s.take(n) =~= a);
    assert(s.skip(n + 1) =~= rest);
}

proof fn lemma_octet(n: nat)
    requires
        n <= 255,
    ensures
        is_octet(text::decimal(n)),
        !text::decimal(n).contains('.'),
{
    let s = text::decimal(n);
    law_numerals_read_back(n, 10);
    crate::laws::configuring::lemma_decimal_digits(n);
    assert(s[0] != '+');
    assert(!s.contains('.')) by {
        if s.contains('.') {
            let i = choose|i: int| 0 <= i < s.len() && s[i] == '.';
            assert(48 <= s[i] as u32);
        }
    }
    reveal_with_fuel(text::numeral, 4);
    if n >= 100 {
        assert(s.len() == 3);
        assert(s[0] == text::digit_char(n / 10 / 10));
    } else if n >= 10 {
        assert(s.len() == 2);
        assert(s[0] == text::digit_char(n / 10));
    } else {
        assert(s.len() == 1);
    }
}

/// Four numbers up to 255 with points between them are an address.
pub proof fn law_four_numbers_are_an_address(a: nat, b: nat, c: nat, d: nat)
    requires
        a <= 255 && b <= 255 && c <= 255 && d <= 255,
    ensures
        is_ipv4(
            text::decimal(a).push('.') + (text::decimal(b).push('.') + (text::decimal(c).push('.')
                + text::decimal(d))),
        ),
{
    lemma_octet(a);
    lemma_octet(b);
    lemma_octet(c);
    lemma_octet(d);
    let x = text::decimal(d);
    let y = text::decimal(c).push('.') + x;
    let z = text::decimal(b).push('.') + y;
    law_separators_part_texts(x, '.', Seq::empty());
    law_separators_part_texts(text::decimal(c), '.', x);
    law_separators_part_texts(text::decimal(b), '.', y);
    law_separators_part_texts(text::decimal(a), '.', z);
    let parts = text::split(text::decimal(a).push('.') + z, '.');
    assert(parts =~= seq![text::decimal(a), text::decimal(b), text::decimal(c), text::decimal(d)]);
}

/// Nothing is an address that has not four parts of one to three characters, none above 255.
pub proof fn law_addresses_have_four_parts(s: Seq<char>, i: int)
    requires
        is_ipv4(s),
        0 <= i < 4,
    ensures
        text::split(s, '.').len() == 4,
        1 <= text::split(s, '.')[i].len() <= 3,
        text::digits_value(text::split(s, '.')[i], 10) is Some,
        text::digits_value(text::split(s, '.')[i], 10)->0 <= 255,
{
    assert(is_octet(text::split(s, '.')[i]));
}

/// Texts are ordered by their first character that differs, and a text comes before what goes on
/// from it.
pub proof fn law_the_first_difference_decides(
    p: Seq<char>,
    x: char,
    y: char,
    s: Seq<char>,
    t: Seq<char>,
)
    requires
        x != y,
    ensures
        text_before(p + seq![x] + s, p + seq![y] + t) <==> (x as u32) < (y as u32),
        text_before(p, p + seq![x] + s),
        !text_before(p + seq![x] + s, p),
    decreases p.len(),
{
    let a = p + seq![x] + s;
    let b = p + seq![y] + t;
    if p.len() > 0 {
        let q = p.skip(1);
        law_the_first_difference_decides(q, x, y, s, t);
        assert(a.skip(1) =~= q + seq![x] + s);
        assert(b.skip(1) =~= q + seq![y] + t);
        assert(a[0] == p[0] && b[0] == p[0]);
    } else {
        assert(a[0] == x && b[0] == y);
    }
}

/// Ranks and keys are ordered by their number first, and by their text where the numbers are alike.
pub proof fn law_numbers_decide_before_texts(
    m: int,
    n: int,
    a: u32,
    b: u32,
    x: Seq<char>,
    y: Seq<char>,
)
    ensures
        m < n ==> rank_before((m, x), (n, y)) && !rank_before((n, y), (m, x)),
        rank_before((m, x), (m, y)) <==> text_before(x, y),
        a < b ==> key_before((a, x), (b, y)) && !key_before((b, y), (a, x)),
        key_before((a, x), (a, y)) <==> text_before(x, y),
{
}

/// A number is read where it is not too great, with a plus sign or without; a text that holds
/// anything else is none.
pub proof fn law_numbers_are_read_up_to_a_limit(n: nat, max: nat, s: Seq<char>, base: nat)
    requires
        2 <= base <= 16,
    ensures
        n <= max ==> text::unsigned_value(text::numeral(n, base), base, max) == Some(n),
        n > max ==> text::unsigned_value(text::numeral(n, base), base, max) is None,
        n <= max ==> text::unsigned_value(seq!['+'] + text::numeral(n, base), base, max) == Some(n),
        text::unsigned_value(Seq::empty(), base, max) is None,
        text::unsigned_value(s.push('-'), base, max) is None,
        text::unsigned_value(s.push(' '), base, max) is None,
{
    law_numerals_read_back(n, base);
    let t = text::numeral(n, base);
    crate::laws::texts::law_numerals_end_in_their_last_digit(n, base);
    crate::laws::choosing::lemma_digits(n, base);
    assert(t[0] != '+');
    assert((seq!['+'] + t).drop_first() =~= t);
    lemma_bad_end(s, '-', base);
    lemma_bad_end(s, ' ', base);
    let u = s.push('-');
    let v = s.push(' ');
    if s.len() > 0 {
        assert(u.drop_first() =~= s.drop_first().push('-'));
        assert(v.drop_first() =~= s.drop_first().push(' '));
        lemma_bad_end(s.drop_first(), '-', base);
        lemma_bad_end(s.drop_first(), ' ', base);
    }
}

proof fn lemma_bad_end(s: Seq<char>, c: char, base: nat)
    requires
        c == '-' || c == ' ',
        2 <= base <= 16,
    ensures
        text::digits_value(s.push(c), base) is None,
{
    assert(s.push(c).last() == c);
    assert(text::digit_value(c, base) is None);
}

proof fn lemma_words(s: Seq<char>, k: int)
    requires
        0 <= k < text::words(s).len(),
    ensures
        text::words(s)[k].len() > 0,
        forall|i: int|
            0 <= i < text::words(s)[k].len() ==> !text::is_space(#[trigger] text::words(s)[k][i]),
    decreases s.len(),
{
    let t = text::trim_start(s);
    text::lemma_trim_start(s);
    text::lemma_find_space(t);
    if t.len() > 0 && k > 0 {
        let n = text::find_space(t);
        lemma_words(t.skip(n), k - 1);
        assert(text::words(s)[k] == text::words(t.skip(n))[k - 1]);
    }
}

/// Words are not empty and hold no white space.
pub proof fn law_words_hold_no_space(s: Seq<char>, k: int, i: int)
    requires
        0 <= k < text::words(s).len(),
        0 <= i < text::words(s)[k].len(),
    ensures
        text::words(s)[k].len() > 0,
        !text::is_space(text::words(s)[k][i]),
{
    lemma_words(s, k);
}

/// A text is found in every text that holds it, and taking a character out leaves the others.
pub proof fn law_parts_are_found(a: Seq<char>, p: Seq<char>, b: Seq<char>, c: char, x: char)
    ensures
        text::has_part(a + p + b, p),
        text::has_prefix(p + b, p),
        text::without(a.push(c), c) == text::without(a, c),
        x != c ==> text::without(a.push(x), c) == text::without(a, c).push(x),
        !text::without(a, c).contains(c),
    decreases a.len(),
{
    assert((a + p + b).subrange(a.len() as int, a.len() + p.len() as int) =~= p);
    assert(text::stands_at(a + p + b, p, a.len() as int));
    assert((p + b).subrange(0, p.len() as int) =~= p);
    reveal(Seq::filter);
    assert(a.push(c).drop_last() =~= a);
    assert(a.push(x).drop_last() =~= a);
    if a.len() > 0 {
        law_parts_are_found(a.drop_last(), p, b, c, x);
        let before = text::without(a.drop_last(), c);
        assert(a.drop_last().push(a.last()) =~= a);
        if a.last() != c {
            assert(text::without(a, c) == before.push(a.last()));
        }
    }
}

/// Bytes are written in two digits each, with a blank between them.
pub proof fn law_bytes_are_written_apart(data: Seq<u8>, b: u8)
    ensures
        text::hex_bytes(Seq::empty()).len() == 0,
        text::hex_bytes(seq![b]) == text::hex_padded(b as nat, 2),
        data.len() > 0 ==> text::hex_bytes(data.push(b)) == text::hex_bytes(data) + " "@
            + text::hex_padded(b as nat, 2),
        data.len() > 0 ==> text::hex_bytes(data).len() == 3 * data.len() - 1,
    decreases data.len(),
{
    let f = |b: u8| text::hex_padded(b as nat, 2);
    let parts = data.map_values(f);
    let more = data.push(b).map_values(f);
    assert(more =~= parts.push(f(b)));
    assert(more.drop_last() =~= parts);
    assert(seq![b].map_values(f) =~= seq![f(b)]);
    if data.len() > 0 {
        let rest = data.drop_last();
        crate::laws::texts::law_bytes_have_two_digits(data.last());
        law_bytes_are_written_apart(rest, data.last());
        assert(rest.push(data.last()) =~= data);
        reveal_strlit(" ");
        if rest.len() == 0 {
            assert(data =~= seq![data.last()]);
        }
    }
}

} // verus!

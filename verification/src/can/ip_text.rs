//! The textual form of IP addresses.
use crate::text;
use vstd::prelude::*;

verus! {

/// Whether every character is a digit in `base`.
pub open spec fn digits_in(s: Seq<char>, base: nat) -> bool {
    forall|i: int| 0 <= i < s.len() ==> text::digit_value(#[trigger] s[i], base) is Some
}

/// A decimal octet of one to three digits without leading zeros.
pub open spec fn is_octet(s: Seq<char>) -> bool {
    1 <= s.len() <= 3 && s[0] != '+' && (s.len() > 1 ==> s[0] != '0') && text::unsigned_value(
        s,
        10,
        255,
    ) is Some
}

/// Four octets with points between them.
pub open spec fn is_ipv4(s: Seq<char>) -> bool {
    let parts = text::split(s, '.');
    parts.len() == 4 && forall|i: int| 0 <= i < 4 ==> is_octet(#[trigger] parts[i])
}

/// A group of one to four hexadecimal digits.
pub open spec fn is_group(s: Seq<char>) -> bool {
    1 <= s.len() <= 4 && digits_in(s, 16)
}

/// The number of 16-bit groups in a list with colons between them. Where `ipv4_last` allows it,
/// an IPv4 address may stand for the last two. Nothing is a list of no group.
pub open spec fn group_count(s: Seq<char>, ipv4_last: bool) -> Option<nat> {
    let parts = text::split(s, ':');
    if s.len() == 0 {
        Some(0)
    } else if exists|i: int| 0 <= i < parts.len() - 1 && !is_group(#[trigger] parts[i]) {
        None
    } else if is_group(parts.last()) {
        Some(parts.len())
    } else if ipv4_last && is_ipv4(parts.last()) {
        Some(parts.len() + 1)
    } else {
        None
    }
}

/// The index of the first double colon from `k` on.
pub open spec fn double_colon(s: Seq<char>, k: int) -> Option<int>
    decreases s.len() - k,
{
    if k + 1 >= s.len() {
        None
    } else if s[k] == ':' && s[k + 1] == ':' {
        Some(k)
    } else {
        double_colon(s, k + 1)
    }
}

/// Eight groups, or fewer with a double colon that stands for at least one.
pub open spec fn is_ipv6(s: Seq<char>) -> bool {
    match double_colon(s, 0) {
        None => group_count(s, true) == Some(8nat),
        Some(i) => match (group_count(s.take(i), false), group_count(s.skip(i + 2), true)) {
            (Some(a), Some(b)) => a + b <= 7,
            _ => false,
        },
    }
}

/// An IPv4 or IPv6 address.
pub open spec fn is_ip(s: Seq<char>) -> bool {
    is_ipv4(s) || is_ipv6(s)
}

fn octet(s: &[char]) -> (r: bool)
    ensures
        r == is_octet(s@),
{
    s.len() >= 1 && s.len() <= 3 && s[0] != '+' && (s.len() <= 1 || s[0] != '0')
        && text::read_unsigned(s, 10, 255).is_some()
}

fn ipv4(s: &[char]) -> (r: bool)
    ensures
        r == is_ipv4(s@),
{
    let parts = text::split_chars(s, '.');
    let ghost views = text::views(parts@);
    if parts.len() != 4 {
        return false;
    }
    let mut i: usize = 0;
    while i < 4
        invariant
            i <= 4,
            parts@.len() == 4,
            views == text::views(parts@),
            views == text::split(s@, '.'),
            forall|j: int| 0 <= j < i ==> is_octet(#[trigger] views[j]),
        decreases 4 - i,
    {
        if !octet(parts[i].as_slice()) {
            assert(!is_octet(views[i as int]));
            return false;
        }
        i += 1;
    }
    true
}

fn group(s: &[char]) -> (r: bool)
    ensures
        r == is_group(s@),
{
    if s.len() < 1 || s.len() > 4 {
        return false;
    }
    let mut i: usize = 0;
    while i < s.len()
        invariant
            i <= s.len(),
            forall|j: int| 0 <= j < i ==> text::digit_value(#[trigger] s@[j], 16) is Some,
        decreases s.len() - i,
    {
        if text::to_digit_value(s[i], 16).is_none() {
            assert(text::digit_value(s@[i as int], 16) is None);
            return false;
        }
        i += 1;
    }
    true
}

fn count_groups(s: &[char], ipv4_last: bool) -> (r: Option<u64>)
    ensures
        r is Some <==> group_count(s@, ipv4_last) is Some,
        r matches Some(n) ==> n as nat == group_count(s@, ipv4_last)->0 || (n > 8 && group_count(
            s@,
            ipv4_last,
        )->0 > 8),
{
    if s.len() == 0 {
        return Some(0);
    }
    let parts = text::split_chars(s, ':');
    let ghost views = text::views(parts@);
    proof {
        lemma_split_nonempty(s@, ':');
    }
    let n: usize = parts.len();
    let mut i: usize = 0;
    while i < n - 1
        invariant
            i <= n - 1,
            n >= 1,
            n == parts@.len(),
            views == text::views(parts@),
            views == text::split(s@, ':'),
            s@.len() > 0,
            forall|j: int| 0 <= j < i ==> is_group(#[trigger] views[j]),
        decreases n - i,
    {
        if !group(parts[i].as_slice()) {
            assert(!is_group(views[i as int]));
            return None;
        }
        i += 1;
    }
    assert(views.last() == parts@[n - 1]@);
    if group(parts[n - 1].as_slice()) {
        Some(n as u64)
    } else if ipv4_last && ipv4(parts[n - 1].as_slice()) {
        if n < 100 {
            Some(n as u64 + 1)
        } else {
            Some(n as u64)
        }
    } else {
        None
    }
}

proof fn lemma_split_nonempty(s: Seq<char>, c: char)
    ensures
        text::split(s, c).len() >= 1,
    decreases s.len(),
{
}

/// Whether a text is an IPv4 or IPv6 address.
pub fn valid_ip(s: &[char]) -> (r: bool)
    ensures
        r == is_ip(s@),
{
    if ipv4(s) {
        return true;
    }
    let mut k: usize = 0;
    let n: usize = s.len();
    while k < n && n - k > 1
        invariant
            k <= n,
            n == s.len(),
            !is_ipv4(s@),
            double_colon(s@, k as int) == double_colon(s@, 0),
        decreases s.len() - k,
    {
        if s[k] == ':' && s[k + 1] == ':' {
            let left = text::copy_range(s, 0, k);
            let right = text::copy_range(s, k + 2, s.len());
            assert(left@ =~= s@.take(k as int));
            assert(right@ =~= s@.skip(k + 2));
            return match (count_groups(left.as_slice(), false), count_groups(
                right.as_slice(),
                true,
            )) {
                (Some(a), Some(b)) => a <= 7 && b <= 7 && a + b <= 7,
                _ => false,
            };
        }
        k += 1;
    }
    match count_groups(s, true) {
        Some(n) => n == 8,
        None => false,
    }
}

} // verus!

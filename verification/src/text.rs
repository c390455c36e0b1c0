//! Text as sequences of characters: numerals, trimming, splitting and ASCII case.
//!
//! Every function works on the view of a string (`Seq<char>`), so the contracts of the
//! other modules can spell out the texts they build and accept.
use vstd::prelude::*;

verus! {

/// `String::push` appends one character and changes nothing before it.
pub assume_specification[ String::push ](s: &mut String, c: char)
    ensures
        final(s)@ == old(s)@.push(c),
;

/// `String::push_str` appends the given text and changes nothing before it.
pub assume_specification[ String::push_str ](s: &mut String, t: &str)
    ensures
        final(s)@ == old(s)@ + t@,
;

// ---------------------------------------------------------------- characters

/// The Unicode `White_Space` property.
pub open spec fn is_space(c: char) -> bool {
    let n = c as u32;
    ||| 0x09 <= n <= 0x0d
    ||| n == 0x20
    ||| n == 0x85
    ||| n == 0xa0
    ||| n == 0x1680
    ||| 0x2000 <= n <= 0x200a
    ||| n == 0x2028
    ||| n == 0x2029
    ||| n == 0x202f
    ||| n == 0x205f
    ||| n == 0x3000
}

/// Whether a character is Unicode white space.
pub fn space(c: char) -> (r: bool)
    ensures
        r == is_space(c),
{
    let n: u32 = c as u32;
    (0x09 <= n && n <= 0x0d) || n == 0x20 || n == 0x85 || n == 0xa0 || n == 0x1680 || (0x2000 <= n
        && n <= 0x200a) || n == 0x2028 || n == 0x2029 || n == 0x202f || n == 0x205f || n == 0x3000
}

/// ASCII upper case of one character; other characters stay.
pub open spec fn upper_char(c: char) -> char {
    if 'a' as u32 <= c as u32 <= 'z' as u32 {
        (c as u32 - 32) as char
    } else {
        c
    }
}

/// ASCII upper case of one character.
pub fn to_upper_char(c: char) -> (r: char)
    ensures
        r == upper_char(c),
{
    let n: u32 = c as u32;
    if 97 <= n && n <= 122 {
        ((n - 32) as u8) as char
    } else {
        c
    }
}

/// ASCII upper case of a text.
pub open spec fn upper(s: Seq<char>) -> Seq<char> {
    s.map_values(|c: char| upper_char(c))
}

/// The digit for `d` (0 to 15), upper case above nine.
pub open spec fn digit_char(d: nat) -> char {
    if d < 10 {
        (48 + d) as char
    } else {
        (55 + d) as char
    }
}

/// The digit for `d` (0 to 15).
pub fn to_digit_char(d: u8) -> (r: char)
    requires
        d < 16,
    ensures
        r == digit_char(d as nat),
{
    if d < 10 {
        (48 + d) as char
    } else {
        (55 + d) as char
    }
}

/// The value of a digit in `base` (2 to 16), upper or lower case.
pub open spec fn digit_value(c: char, base: nat) -> Option<nat> {
    let n = c as u32;
    let v = if 48 <= n <= 57 {
        (n - 48) as nat
    } else if 65 <= n <= 70 {
        (n - 55) as nat
    } else if 97 <= n <= 102 {
        (n - 87) as nat
    } else {
        16nat
    };
    if v < base {
        Some(v)
    } else {
        None
    }
}

/// The value of a digit in `base`.
pub fn to_digit_value(c: char, base: u64) -> (r: Option<u64>)
    requires
        2 <= base <= 16,
    ensures
        r is Some <==> digit_value(c, base as nat) is Some,
        r matches Some(v) ==> v as nat == digit_value(c, base as nat)->0,
{
    let n: u32 = c as u32;
    let v: u64 = if 48 <= n && n <= 57 {
        (n - 48) as u64
    } else if 65 <= n && n <= 70 {
        (n - 55) as u64
    } else if 97 <= n && n <= 102 {
        (n - 87) as u64
    } else {
        16
    };
    if v < base {
        Some(v)
    } else {
        None
    }
}

// ---------------------------------------------------------------- strings and characters

/// The characters of a text.
pub fn chars_of(s: &str) -> (r: Vec<char>)
    ensures
        r@ == s@,
{
    broadcast use vstd::string::axiom_spec_iter;

    let mut out: Vec<char> = Vec::new();
    for c in iter: s.chars()
        invariant
            iter.seq() == s@,
            out@ == s@.take(iter.index() as int),
    {
        out.push(c);
        assert(s@.take(iter.index() + 1) =~= s@.take(iter.index() as int).push(c));
    }
    assert(s@.take(s@.len() as int) =~= s@);
    out
}

/// The string made of the given characters.
pub fn string_of(chars: &[char]) -> (r: String)
    ensures
        r@ == chars@,
{
    let mut out = String::new();
    push_chars(&mut out, chars);
    assert(Seq::<char>::empty() + chars@ =~= chars@);
    out
}

/// Appends characters to a string.
pub fn push_chars(out: &mut String, chars: &[char])
    ensures
        final(out)@ == old(out)@ + chars@,
{
    let ghost before = out@;
    let mut i: usize = 0;
    while i < chars.len()
        invariant
            i <= chars.len(),
            out@ == before + chars@.take(i as int),
        decreases chars.len() - i,
    {
        out.push(chars[i]);
        assert(chars@.take(i + 1) =~= chars@.take(i as int).push(chars[i as int]));
        assert(before + chars@.take(i as int).push(chars[i as int]) =~= (before + chars@.take(
            i as int,
        )).push(chars[i as int]));
        i += 1;
    }
    assert(chars@.take(chars@.len() as int) =~= chars@);
}

/// Whether two character slices are the same text.
pub fn same(a: &[char], b: &[char]) -> (r: bool)
    ensures
        r == (a@ == b@),
{
    if a.len() != b.len() {
        return false;
    }
    let mut i: usize = 0;
    while i < a.len()
        invariant
            i <= a.len(),
            a.len() == b.len(),
            a@.take(i as int) == b@.take(i as int),
        decreases a.len() - i,
    {
        if a[i] != b[i] {
            assert(a@[i as int] != b@[i as int]);
            return false;
        }
        assert(a@.take(i + 1) =~= a@.take(i as int).push(a[i as int]));
        assert(b@.take(i + 1) =~= b@.take(i as int).push(b[i as int]));
        i += 1;
    }
    assert(a@.take(a@.len() as int) =~= a@);
    assert(b@.take(b@.len() as int) =~= b@);
    true
}

/// Whether two strings are the same text.
pub fn same_text(a: &str, b: &str) -> (r: bool)
    ensures
        r == (a@ == b@),
{
    let x = chars_of(a);
    let y = chars_of(b);
    same(x.as_slice(), y.as_slice())
}

/// Whether two strings are the same text up to ASCII case.
pub fn same_ignoring_case(a: &str, b: &str) -> (r: bool)
    ensures
        r == (upper(a@) == upper(b@)),
{
    let x = to_upper(a);
    let y = to_upper(b);
    same_text(x.as_str(), y.as_str())
}

/// ASCII upper case of a string.
pub fn to_upper(s: &str) -> (r: String)
    ensures
        r@ == upper(s@),
{
    let chars = chars_of(s);
    let mut out = String::new();
    let mut i: usize = 0;
    while i < chars.len()
        invariant
            i <= chars.len(),
            chars@ == s@,
            out@ == upper(s@.take(i as int)),
        decreases chars.len() - i,
    {
        out.push(to_upper_char(chars[i]));
        assert(s@.take(i + 1) =~= s@.take(i as int).push(chars[i as int]));
        assert(upper(s@.take(i + 1)) =~= upper(s@.take(i as int)).push(upper_char(chars[i as int])));
        i += 1;
    }
    assert(s@.take(s@.len() as int) =~= s@);
    out
}

// ---------------------------------------------------------------- numerals

/// The numeral of `n` in `base`, without leading zeros.
pub open spec fn numeral(n: nat, base: nat) -> Seq<char>
    decreases n,
    via numeral_decreases
{
    if base < 2 || n < base {
        seq![digit_char(n)]
    } else {
        numeral(n / base, base).push(digit_char(n % base))
    }
}

#[via_fn]
proof fn numeral_decreases(n: nat, base: nat) {
    if base >= 2 && n >= base {
        assert(n / base < n) by (nonlinear_arith)
            requires
                n >= base,
                base >= 2,
        ;
    }
}

/// The decimal numeral of `n`.
pub open spec fn decimal(n: nat) -> Seq<char> {
    numeral(n, 10)
}

/// The hexadecimal numeral of `n`, upper case.
pub open spec fn hex(n: nat) -> Seq<char> {
    numeral(n, 16)
}

/// The decimal numeral of a signed number.
pub open spec fn signed_decimal(n: int) -> Seq<char> {
    if n < 0 {
        seq!['-'] + decimal((-n) as nat)
    } else {
        decimal(n as nat)
    }
}

/// `s` filled with zeros on the left up to `width` characters.
pub open spec fn zero_filled(s: Seq<char>, width: nat) -> Seq<char> {
    if s.len() >= width {
        s
    } else {
        Seq::new((width - s.len()) as nat, |i: int| '0') + s
    }
}

/// The hexadecimal numeral of `n` in at least `width` digits.
pub open spec fn hex_padded(n: nat, width: nat) -> Seq<char> {
    zero_filled(hex(n), width)
}

/// Appends the numeral of `n` in `base`.
fn push_numeral(out: &mut String, n: u64, base: u64)
    requires
        2 <= base <= 16,
    ensures
        final(out)@ == old(out)@ + numeral(n as nat, base as nat),
    decreases n,
{
    let ghost before = out@;
    if n >= base {
        assert(n / base < n) by (nonlinear_arith)
            requires
                n >= base,
                base >= 2,
        ;
        push_numeral(out, n / base, base);
        let d: u64 = n % base;
        out.push(to_digit_char(d as u8));
        assert(out@ =~= before + numeral(n as nat, base as nat));
    } else {
        out.push(to_digit_char(n as u8));
        assert(out@ =~= before + numeral(n as nat, base as nat));
    }
}

/// Appends the decimal numeral of `n`.
pub fn push_decimal(out: &mut String, n: u64)
    ensures
        final(out)@ == old(out)@ + decimal(n as nat),
{
    push_numeral(out, n, 10);
}

/// Appends the decimal numeral of a signed number.
pub fn push_signed(out: &mut String, n: i64)
    ensures
        final(out)@ == old(out)@ + signed_decimal(n as int),
{
    let ghost before = out@;
    if n < 0 {
        out.push('-');
        let magnitude: u64 = if n == i64::MIN {
            0x8000_0000_0000_0000
        } else {
            (-n) as u64
        };
        push_decimal(out, magnitude);
        assert(out@ =~= before + signed_decimal(n as int));
    } else {
        push_decimal(out, n as u64);
    }
}

/// Appends the hexadecimal numeral of `n`.
pub fn push_hex(out: &mut String, n: u64)
    ensures
        final(out)@ == old(out)@ + hex(n as nat),
{
    push_numeral(out, n, 16);
}

/// The number of digits of the numeral of `n` in `base`.
fn numeral_len(n: u64, base: u64) -> (r: u64)
    requires
        2 <= base <= 16,
    ensures
        r as nat == numeral(n as nat, base as nat).len(),
        1 <= r <= 64,
{
    let mut k: u64 = 1;
    let mut rest: u64 = n;
    let ghost mut bound: nat = 0x1_0000_0000_0000_0000;
    let ghost mut left: nat = 64;
    proof {
        vstd::arithmetic::power2::lemma2_to64();
        assert(bound == vstd::arithmetic::power2::pow2(64)) by {
            vstd::arithmetic::power2::lemma2_to64_rest();
        }
    }
    while rest >= base
        invariant
            2 <= base <= 16,
            numeral(n as nat, base as nat).len() == (k - 1) + numeral(rest as nat, base as nat).len(),
            1 <= k,
            k + left == 65,
            left >= 1,
            rest < vstd::arithmetic::power2::pow2(left),
        decreases rest,
    {
        proof {
            assert(rest / base < rest && rest / base <= rest / 2) by (nonlinear_arith)
                requires
                    rest >= base,
                    base >= 2,
            ;
            vstd::arithmetic::power2::lemma2_to64();
            if left == 1 {
                assert(rest < 2);
            }
            vstd::arithmetic::power2::lemma_pow2_unfold(left);
            left = (left - 1) as nat;
        }
        rest = rest / base;
        k += 1;
    }
    k
}

/// Appends `n` in hexadecimal, with leading zeros up to `width` digits.
pub fn push_hex_padded(out: &mut String, n: u64, width: u64)
    ensures
        final(out)@ == old(out)@ + hex_padded(n as nat, width as nat),
{
    let ghost before = out@;
    let digits: u64 = numeral_len(n, 16);
    let mut filled: u64 = digits;
    while filled < width
        invariant
            digits as nat == hex(n as nat).len(),
            digits <= filled,
            filled <= width || filled == digits,
            out@ == before + Seq::new((filled - digits) as nat, |i: int| '0'),
        decreases width - filled,
    {
        out.push('0');
        assert(out@ =~= before + Seq::new((filled + 1 - digits) as nat, |i: int| '0'));
        filled += 1;
    }
    push_hex(out, n);
    assert(out@ =~= before + hex_padded(n as nat, width as nat));
}

/// The decimal numeral of `n` in at least `width` digits.
pub open spec fn decimal_padded(n: nat, width: nat) -> Seq<char> {
    zero_filled(decimal(n), width)
}

/// Appends `n` in decimal, with leading zeros up to `width` digits.
pub fn push_decimal_padded(out: &mut String, n: u64, width: u64)
    ensures
        final(out)@ == old(out)@ + decimal_padded(n as nat, width as nat),
{
    let ghost before = out@;
    let digits: u64 = numeral_len(n, 10);
    let mut filled: u64 = digits;
    while filled < width
        invariant
            digits as nat == decimal(n as nat).len(),
            digits <= filled,
            filled <= width || filled == digits,
            out@ == before + Seq::new((filled - digits) as nat, |i: int| '0'),
        decreases width - filled,
    {
        out.push('0');
        assert(out@ =~= before + Seq::new((filled + 1 - digits) as nat, |i: int| '0'));
        filled += 1;
    }
    push_decimal(out, n);
    assert(out@ =~= before + decimal_padded(n as nat, width as nat));
}

/// The decimal numeral of `n` as a string.
pub fn decimal_string(n: u64) -> (r: String)
    ensures
        r@ == decimal(n as nat),
{
    let mut out = String::new();
    push_decimal(&mut out, n);
    assert(out@ =~= decimal(n as nat));
    out
}

// ---------------------------------------------------------------- reading numbers

/// The value of a text of digits in `base`; `None` where it is empty or holds another character.
pub open spec fn digits_value(s: Seq<char>, base: nat) -> Option<nat>
    decreases s.len(),
{
    if s.len() == 0 {
        None
    } else if digit_value(s.last(), base) is None {
        None
    } else if s.len() == 1 {
        digit_value(s.last(), base)
    } else {
        match digits_value(s.drop_last(), base) {
            None => None,
            Some(v) => Some(v * base + digit_value(s.last(), base)->0),
        }
    }
}

/// An unsigned number in `base` no greater than `max`, with an optional plus sign.
pub open spec fn unsigned_value(s: Seq<char>, base: nat, max: nat) -> Option<nat> {
    let body = if s.len() > 0 && s[0] == '+' {
        s.drop_first()
    } else {
        s
    };
    match digits_value(body, base) {
        Some(v) if v <= max => Some(v),
        _ => None,
    }
}

/// Digits only count where every prefix does.
proof fn lemma_digits_prefix(s: Seq<char>, k: int, base: nat)
    requires
        0 < k <= s.len(),
        digits_value(s, base) is Some,
        base >= 1,
    ensures
        digits_value(s.take(k), base) is Some,
        digits_value(s.take(k), base)->0 <= digits_value(s, base)->0,
    decreases s.len() - k,
{
    if k == s.len() {
        assert(s.take(k) =~= s);
    } else {
        lemma_digits_prefix(s, k + 1, base);
        let t = s.take(k + 1);
        assert(t.drop_last() =~= s.take(k));
        let v = digits_value(s.take(k), base)->0;
        assert(v <= v * base) by (nonlinear_arith)
            requires
                base >= 1,
        ;
    }
}

/// Reads an unsigned number no greater than `max`.
pub fn read_unsigned(s: &[char], base: u64, max: u64) -> (r: Option<u64>)
    requires
        2 <= base <= 16,
        max < 0x1000_0000_0000_0000,
    ensures
        r is Some <==> unsigned_value(s@, base as nat, max as nat) is Some,
        r matches Some(v) ==> v as nat == unsigned_value(s@, base as nat, max as nat)->0,
{
    let start: usize = if s.len() > 0 && s[0] == '+' {
        1
    } else {
        0
    };
    let ghost body = s@.skip(start as int);
    proof {
        if start == 1 {
            assert(body =~= s@.drop_first());
        } else {
            assert(body =~= s@);
        }
    }
    if start >= s.len() {
        return None;
    }
    let mut i: usize = start;
    let mut value: u64 = 0;
    while i < s.len()
        invariant
            start <= i <= s.len(),
            start < s.len(),
            body == s@.skip(start as int),
            2 <= base <= 16,
            max < 0x1000_0000_0000_0000,
            value <= max,
            i == start ==> value == 0,
            i > start ==> digits_value(body.take(i - start), base as nat) == Some(value as nat),
            unsigned_value(s@, base as nat, max as nat) == (match digits_value(body, base as nat) {
                Some(v) if v <= max => Some(v),
                _ => None,
            }),
        decreases s.len() - i,
    {
        let ghost prefix = body.take(i + 1 - start);
        proof {
            assert(prefix.last() == s@[i as int]);
            assert(prefix.drop_last() =~= body.take(i - start));
        }
        match to_digit_value(s[i], base) {
            None => {
                proof {
                    assert(digits_value(prefix, base as nat) is None);
                    if digits_value(body, base as nat) is Some {
                        lemma_digits_prefix(body, i + 1 - start, base as nat);
                    }
                }
                return None;
            },
            Some(d) => {
                assert(value * base <= max * 16) by (nonlinear_arith)
                    requires
                        value <= max,
                        base <= 16,
                ;
                let next: u64 = value * base + d;
                proof {
                    assert(digits_value(prefix, base as nat) == Some(next as nat));
                }
                if next > max {
                    proof {
                        if digits_value(body, base as nat) is Some {
                            lemma_digits_prefix(body, i + 1 - start, base as nat);
                        }
                    }
                    return None;
                }
                value = next;
            },
        }
        i += 1;
    }
    assert(body.take(s@.len() - start) =~= body);
    Some(value)
}

// ---------------------------------------------------------------- trimming and splitting

/// `s` without leading white space.
pub open spec fn trim_start(s: Seq<char>) -> Seq<char>
    decreases s.len(),
{
    if s.len() > 0 && is_space(s[0]) {
        trim_start(s.drop_first())
    } else {
        s
    }
}

/// `s` without trailing white space.
pub open spec fn trim_end(s: Seq<char>) -> Seq<char>
    decreases s.len(),
{
    if s.len() > 0 && is_space(s.last()) {
        trim_end(s.drop_last())
    } else {
        s
    }
}

/// `s` without leading and trailing white space.
pub open spec fn trim(s: Seq<char>) -> Seq<char> {
    trim_end(trim_start(s))
}

/// Removes leading and trailing white space.
pub fn trim_chars(s: &[char]) -> (r: Vec<char>)
    ensures
        r@ == trim(s@),
{
    let mut a: usize = 0;
    assert(s@.skip(0) =~= s@);
    while a < s.len() && space(s[a])
        invariant
            a <= s.len(),
            trim_start(s@.skip(a as int)) == trim_start(s@),
        decreases s.len() - a,
    {
        assert(s@.skip(a as int).drop_first() =~= s@.skip(a + 1));
        a += 1;
    }
    assert(trim_start(s@) == s@.skip(a as int));
    let mut b: usize = s.len();
    let ghost body = s@.skip(a as int);
    assert(body =~= s@.subrange(a as int, b as int));
    while b > a && space(s[b - 1])
        invariant
            a <= b <= s.len(),
            trim_end(s@.subrange(a as int, b as int)) == trim_end(body),
        decreases b,
    {
        assert(s@.subrange(a as int, b as int).drop_last() =~= s@.subrange(a as int, b - 1));
        b -= 1;
    }
    assert(trim_end(body) == s@.subrange(a as int, b as int));
    copy_range(s, a, b)
}

/// A copy of the characters from `a` up to `b`.
pub fn copy_range(s: &[char], a: usize, b: usize) -> (r: Vec<char>)
    requires
        a <= b <= s.len(),
    ensures
        r@ == s@.subrange(a as int, b as int),
{
    let mut out: Vec<char> = Vec::new();
    let mut i: usize = a;
    while i < b
        invariant
            a <= i <= b <= s.len(),
            out@ == s@.subrange(a as int, i as int),
        decreases b - i,
    {
        out.push(s[i]);
        assert(s@.subrange(a as int, i + 1) =~= s@.subrange(a as int, i as int).push(s[i as int]));
        i += 1;
    }
    out
}

/// Removes leading and trailing white space from a string.
pub fn trimmed(s: &str) -> (r: String)
    ensures
        r@ == trim(s@),
{
    let chars = chars_of(s);
    let inner = trim_chars(chars.as_slice());
    string_of(inner.as_slice())
}

/// The index of the first `c` in `s`, or the length of `s`.
pub open spec fn find(s: Seq<char>, c: char) -> int
    decreases s.len(),
{
    if s.len() == 0 {
        0
    } else if s[0] == c {
        0
    } else {
        1 + find(s.drop_first(), c)
    }
}

/// Where `find` stops.
pub proof fn lemma_find(s: Seq<char>, c: char)
    ensures
        0 <= find(s, c) <= s.len(),
        find(s, c) < s.len() ==> s[find(s, c)] == c,
        forall|i: int| 0 <= i < find(s, c) ==> s[i] != c,
    decreases s.len(),
{
    if s.len() > 0 && s[0] != c {
        lemma_find(s.drop_first(), c);
        assert forall|i: int| 0 <= i < find(s, c) implies s[i] != c by {
            if i > 0 {
                assert(s[i] == s.drop_first()[i - 1]);
            }
        }
    }
}

/// An index at which `c` comes first is the one `find` gives.
pub proof fn lemma_find_unique(s: Seq<char>, c: char, k: int)
    requires
        0 <= k <= s.len(),
        forall|i: int| 0 <= i < k ==> s[i] != c,
        k < s.len() ==> s[k] == c,
    ensures
        find(s, c) == k,
{
    lemma_find(s, c);
    let f = find(s, c);
    if f < k {
        assert(s[f] != c);
    } else if k < f {
        assert(s[k] != c);
    }
}

/// The index of the first `c`, or the length.
pub fn find_char(s: &[char], c: char) -> (r: usize)
    ensures
        r as int == find(s@, c),
        r <= s.len(),
{
    let mut i: usize = 0;
    while i < s.len()
        invariant
            i <= s.len(),
            forall|j: int| 0 <= j < i ==> s@[j] != c,
        decreases s.len() - i,
    {
        if s[i] == c {
            proof {
                lemma_find_unique(s@, c, i as int);
            }
            return i;
        }
        i += 1;
    }
    proof {
        lemma_find_unique(s@, c, i as int);
    }
    i
}

/// The parts of `s` between the separators `c`, empty ones included.
pub open spec fn split(s: Seq<char>, c: char) -> Seq<Seq<char>>
    decreases s.len(),
{
    let i = find(s, c);
    if 0 <= i < s.len() {
        seq![s.take(i)] + split(s.skip(i + 1), c)
    } else {
        seq![s]
    }
}

/// The views of a list of character vectors.
pub open spec fn views(v: Seq<Vec<char>>) -> Seq<Seq<char>> {
    v.map_values(|x: Vec<char>| x@)
}

/// Splits a text at each separator.
pub fn split_chars(s: &[char], c: char) -> (r: Vec<Vec<char>>)
    ensures
        views(r@) == split(s@, c),
{
    let mut out: Vec<Vec<char>> = Vec::new();
    let mut start: usize = 0;
    assert(s@.skip(0) =~= s@);
    assert(views(out@) =~= Seq::<Seq<char>>::empty());
    assert(Seq::<Seq<char>>::empty() + split(s@, c) =~= split(s@, c));
    loop
        invariant
            start <= s.len(),
            views(out@) + split(s@.skip(start as int), c) == split(s@, c),
        decreases s.len() - start,
    {
        let ghost rest = s@.skip(start as int);
        let mut i: usize = start;
        while i < s.len() && s[i] != c
            invariant
                start <= i <= s.len(),
                rest == s@.skip(start as int),
                forall|j: int| 0 <= j < i - start ==> rest[j] != c,
            decreases s.len() - i,
        {
            assert(rest[i - start] == s@[i as int]);
            i += 1;
        }
        let part = copy_range(s, start, i);
        let ghost before = views(out@);
        proof {
            if i < s.len() {
                assert(rest[i - start] == s@[i as int]);
            }
            lemma_find_unique(rest, c, i - start);
            assert(part@ =~= rest.take(i - start));
        }
        out.push(part);
        assert(views(out@) =~= before.push(part@));
        if i >= s.len() {
            proof {
                assert(part@ =~= rest);
                assert(before.push(part@) =~= before + split(rest, c));
            }
            return out;
        }
        proof {
            assert(rest.skip(i - start + 1) =~= s@.skip(i + 1));
            assert(before.push(part@) + split(s@.skip(i + 1), c) =~= before + split(rest, c));
        }
        start = i + 1;
    }
}

/// The index of the first white space in `s`, or the length of `s`.
pub open spec fn find_space(s: Seq<char>) -> int
    decreases s.len(),
{
    if s.len() == 0 {
        0
    } else if is_space(s[0]) {
        0
    } else {
        1 + find_space(s.drop_first())
    }
}

/// Where `find_space` stops.
pub proof fn lemma_find_space(s: Seq<char>)
    ensures
        0 <= find_space(s) <= s.len(),
        find_space(s) < s.len() ==> is_space(s[find_space(s)]),
        forall|i: int| 0 <= i < find_space(s) ==> !is_space(s[i]),
        s.len() > 0 && !is_space(s[0]) ==> find_space(s) > 0,
    decreases s.len(),
{
    if s.len() > 0 && !is_space(s[0]) {
        lemma_find_space(s.drop_first());
        assert forall|i: int| 0 <= i < find_space(s) implies !is_space(s[i]) by {
            if i > 0 {
                assert(s[i] == s.drop_first()[i - 1]);
            }
        }
    }
}

/// Leading white space goes, the rest stays.
pub proof fn lemma_trim_start(s: Seq<char>)
    ensures
        trim_start(s).len() <= s.len(),
        trim_start(s) == s.skip(s.len() - trim_start(s).len()),
        trim_start(s).len() > 0 ==> !is_space(trim_start(s)[0]),
        forall|i: int| 0 <= i < s.len() - trim_start(s).len() ==> is_space(s[i]),
    decreases s.len(),
{
    if s.len() > 0 && is_space(s[0]) {
        let t = s.drop_first();
        lemma_trim_start(t);
        assert(trim_start(s) =~= s.skip(s.len() - trim_start(s).len()));
        assert forall|i: int| 0 <= i < s.len() - trim_start(s).len() implies is_space(s[i]) by {
            if i > 0 {
                assert(s[i] == t[i - 1]);
            }
        }
    } else {
        assert(s.skip(0) =~= s);
    }
}

/// The words of `s`: the longest runs without white space, in order.
pub open spec fn words(s: Seq<char>) -> Seq<Seq<char>>
    decreases s.len(),
    via words_decreases
{
    let t = trim_start(s);
    if t.len() == 0 {
        seq![]
    } else {
        seq![t.take(find_space(t))] + words(t.skip(find_space(t)))
    }
}

#[via_fn]
proof fn words_decreases(s: Seq<char>) {
    lemma_trim_start(s);
    lemma_find_space(trim_start(s));
}

proof fn lemma_last_space(s: Seq<char>)
    requires
        s.len() > 0,
        is_space(s.last()),
    ensures
        words(s) == words(s.drop_last()),
    decreases s.len(),
{
    let u = s.drop_last();
    let t = trim_start(s);
    lemma_trim_start(s);
    lemma_trim_start(u);
    if t.len() == 0 {
        if trim_start(u).len() > 0 {
            let k = u.len() - trim_start(u).len();
            assert(trim_start(u)[0] == s[k]);
        }
    } else {
        let k = s.len() - t.len();
        assert(t.last() == s.last());
        let v = trim_start(u);
        let m = u.len() - v.len();
        if v.len() == 0 {
            assert(is_space(u[k]));
            assert(t[0] == s[k]);
        }
        if m < k {
            assert(v[0] == s[m]);
        }
        if m > k {
            assert(u[k] == t[0]);
        }
        assert(v =~= t.drop_last());
        let j = find_space(t);
        lemma_find_space(t);
        lemma_find_space(v);
        let i = find_space(v);
        if i < j {
            assert(v[i] == t[i]);
        }
        if i > j {
            assert(v[j] == t[j]);
        }
        assert(v.take(i) =~= t.take(j));
        assert(v.skip(i) =~= t.skip(j).drop_last());
        lemma_last_space(t.skip(j));
    }
}

proof fn lemma_words_end(s: Seq<char>)
    ensures
        words(trim_end(s)) == words(s),
    decreases s.len(),
{
    if s.len() > 0 && is_space(s.last()) {
        lemma_last_space(s);
        lemma_words_end(s.drop_last());
    }
}

/// White space around a text holds no word, and a text without words holds nothing else.
pub proof fn lemma_words_trimmed(s: Seq<char>)
    ensures
        words(trim(s)) == words(s),
        words(s).len() == 0 <==> trim(s).len() == 0,
{
    let t = trim_start(s);
    lemma_trim_start(s);
    lemma_trim_start(t);
    lemma_words_end(t);
    assert(trim_start(t) == t);
    assert(words(t) == words(s));
    let e = trim_end(t);
    lemma_trim_start(e);
    lemma_trim_end_first(t);
}

/// The first character that is no white space stays.
proof fn lemma_trim_end_first(s: Seq<char>)
    ensures
        s.len() > 0 && !is_space(s[0]) ==> trim_end(s).len() > 0,
    decreases s.len(),
{
    if s.len() > 0 && is_space(s.last()) {
        lemma_trim_end_first(s.drop_last());
    }
}

/// The words of a text.
pub fn split_words(s: &[char]) -> (r: Vec<Vec<char>>)
    ensures
        views(r@) == words(s@),
{
    let mut out: Vec<Vec<char>> = Vec::new();
    let mut at: usize = 0;
    assert(s@.skip(0) =~= s@);
    assert(views(out@) + words(s@) =~= words(s@));
    loop
        invariant
            at <= s.len(),
            views(out@) + words(s@.skip(at as int)) == words(s@),
        decreases s.len() - at,
    {
        let ghost rest = s@.skip(at as int);
        let ghost t = trim_start(rest);
        let mut a: usize = at;
        while a < s.len() && space(s[a])
            invariant
                at <= a <= s.len(),
                t == trim_start(s@.skip(a as int)),
            decreases s.len() - a,
        {
            assert(s@.skip(a as int).drop_first() =~= s@.skip(a + 1));
            a += 1;
        }
        assert(t == s@.skip(a as int));
        if a >= s.len() {
            assert(views(out@) + Seq::<Seq<char>>::empty() =~= views(out@));
            return out;
        }
        let mut b: usize = a;
        while b < s.len() && !space(s[b])
            invariant
                a <= b <= s.len(),
                t == s@.skip(a as int),
                forall|j: int| 0 <= j < b - a ==> !is_space(t[j]),
            decreases s.len() - b,
        {
            assert(t[b - a] == s@[b as int]);
            b += 1;
        }
        proof {
            lemma_find_space(t);
            let f = find_space(t);
            if b < s.len() {
                assert(t[b - a] == s@[b as int]);
            }
            if f < b - a {
                assert(!is_space(t[f]));
            } else if f > b - a {
                assert(!is_space(t[b - a]));
            }
            assert(f == b - a);
        }
        let part = copy_range(s, a, b);
        let ghost before = views(out@);
        out.push(part);
        proof {
            assert(part@ =~= t.take(b - a));
            assert(views(out@) =~= before.push(part@));
            assert(t.skip(b - a) =~= s@.skip(b as int));
            assert(before.push(part@) + words(s@.skip(b as int)) =~= before + words(rest));
        }
        at = b;
    }
}

/// `s` without the character `c`.
pub open spec fn without(s: Seq<char>, c: char) -> Seq<char> {
    s.filter(|x: char| x != c)
}

/// Removes every `c` from a text.
pub fn remove_char(s: &[char], c: char) -> (r: Vec<char>)
    ensures
        r@ == without(s@, c),
{
    let mut out: Vec<char> = Vec::new();
    let mut i: usize = 0;
    proof {
        reveal(Seq::filter);
    }
    while i < s.len()
        invariant
            i <= s.len(),
            out@ == without(s@.take(i as int), c),
        decreases s.len() - i,
    {
        proof {
            reveal(Seq::filter);
            assert(s@.take(i + 1).drop_last() =~= s@.take(i as int));
        }
        if s[i] != c {
            out.push(s[i]);
        }
        i += 1;
    }
    assert(s@.take(s@.len() as int) =~= s@);
    out
}

/// The texts of `parts` with `separator` between them.
pub open spec fn joined(parts: Seq<Seq<char>>, separator: Seq<char>) -> Seq<char>
    decreases parts.len(),
{
    if parts.len() == 0 {
        seq![]
    } else if parts.len() == 1 {
        parts[0]
    } else {
        joined(parts.drop_last(), separator) + separator + parts.last()
    }
}

/// The views of a list of strings.
pub open spec fn texts(v: Seq<String>) -> Seq<Seq<char>> {
    v.map_values(|s: String| s@)
}

/// Joins strings with a separator between them.
pub fn join(parts: &[String], separator: &str) -> (r: String)
    ensures
        r@ == joined(texts(parts@), separator@),
{
    let mut out = String::new();
    let mut i: usize = 0;
    while i < parts.len()
        invariant
            i <= parts.len(),
            out@ == joined(texts(parts@.take(i as int)), separator@),
        decreases parts.len() - i,
    {
        let ghost before = texts(parts@.take(i as int));
        let ghost after = texts(parts@.take(i + 1));
        if i > 0 {
            out.push_str(separator);
        }
        out.push_str(parts[i].as_str());
        proof {
            assert(after.drop_last() =~= before);
            assert(after.last() == parts@[i as int]@);
            assert(after.len() == i + 1);
            if i == 0 {
                assert(out@ =~= after[0]);
            }
        }
        i += 1;
    }
    assert(parts@.take(parts@.len() as int) =~= parts@);
    out
}

/// Two-digit hexadecimal bytes with a blank between them.
pub open spec fn hex_bytes(data: Seq<u8>) -> Seq<char> {
    joined(data.map_values(|b: u8| hex_padded(b as nat, 2)), " "@)
}

/// Two-digit hexadecimal bytes with a blank between them.
pub fn hex_text(data: &[u8]) -> (r: String)
    ensures
        r@ == hex_bytes(data@),
{
    let mut out = String::new();
    let ghost parts = data@.map_values(|b: u8| hex_padded(b as nat, 2));
    let mut i: usize = 0;
    while i < data.len()
        invariant
            i <= data.len(),
            parts == data@.map_values(|b: u8| hex_padded(b as nat, 2)),
            out@ == joined(parts.take(i as int), " "@),
        decreases data.len() - i,
    {
        if i > 0 {
            out.push_str(" ");
        }
        push_hex_padded(&mut out, data[i] as u64, 2);
        proof {
            let after = parts.take(i + 1);
            assert(after.drop_last() =~= parts.take(i as int));
            assert(after.last() == hex_padded(data@[i as int] as nat, 2));
            if i == 0 {
                assert(out@ =~= after[0]);
            }
        }
        i += 1;
    }
    assert(parts.take(i as int) =~= parts);
    out
}

/// The concatenation of texts.
pub open spec fn concat(parts: Seq<Seq<char>>) -> Seq<char>
    decreases parts.len(),
{
    if parts.len() == 0 {
        seq![]
    } else {
        concat(parts.drop_last()) + parts.last()
    }
}

// ---------------------------------------------------------------- searching

/// Whether `part` stands in `s` at `i`.
pub open spec fn stands_at(s: Seq<char>, part: Seq<char>, i: int) -> bool {
    0 <= i && i + part.len() <= s.len() && s.subrange(i, i + part.len()) == part
}

/// Whether `part` occurs in `s`.
pub open spec fn has_part(s: Seq<char>, part: Seq<char>) -> bool {
    exists|i: int| stands_at(s, part, i)
}

/// Whether `part` stands in `s` at `i`.
fn part_at(s: &[char], part: &[char], i: usize) -> (r: bool)
    requires
        i + part.len() <= s.len(),
    ensures
        r == stands_at(s@, part@, i as int),
{
    let mut j: usize = 0;
    while j < part.len()
        invariant
            j <= part.len(),
            i + part.len() <= s.len(),
            forall|k: int| 0 <= k < j ==> s@[i + k] == part@[k],
        decreases part.len() - j,
    {
        if s[i + j] != part[j] {
            assert(s@.subrange(i as int, i + part@.len())[j as int] != part@[j as int]);
            return false;
        }
        j += 1;
    }
    assert(s@.subrange(i as int, i + part@.len()) =~= part@);
    true
}

/// Whether `part` occurs in `s`.
pub fn contains_chars(s: &[char], part: &[char]) -> (r: bool)
    ensures
        r == has_part(s@, part@),
{
    if part.len() > s.len() {
        assert forall|i: int| !stands_at(s@, part@, i) by {}
        return false;
    }
    let last: usize = s.len() - part.len();
    let mut i: usize = 0;
    while i <= last
        invariant
            last == s.len() - part.len(),
            part.len() <= s.len(),
            i <= last + 1,
            forall|k: int| 0 <= k < i ==> !stands_at(s@, part@, k),
        decreases last + 1 - i,
    {
        if part_at(s, part, i) {
            return true;
        }
        if i == last {
            assert forall|k: int| !stands_at(s@, part@, k) by {
                if 0 <= k && k + part@.len() <= s@.len() {
                    assert(k < i || k == i);
                }
            }
            return false;
        }
        i += 1;
    }
    false
}

/// Whether `part` occurs in `s`.
pub fn contains_text(s: &str, part: &str) -> (r: bool)
    ensures
        r == has_part(s@, part@),
{
    let a = chars_of(s);
    let b = chars_of(part);
    contains_chars(a.as_slice(), b.as_slice())
}

/// Whether `s` begins with `part`.
pub open spec fn has_prefix(s: Seq<char>, part: Seq<char>) -> bool {
    stands_at(s, part, 0)
}

/// Whether `s` begins with `part`.
pub fn begins_with(s: &[char], part: &[char]) -> (r: bool)
    ensures
        r == has_prefix(s@, part@),
{
    part.len() <= s.len() && part_at(s, part, 0)
}

/// Whether the string begins with `part`.
pub fn starts_with_text(s: &str, part: &str) -> (r: bool)
    ensures
        r == has_prefix(s@, part@),
{
    let a = chars_of(s);
    let b = chars_of(part);
    begins_with(a.as_slice(), b.as_slice())
}

} // verus!

//! Bit rates written as decimal numbers with an optional unit.
use crate::text;
use vstd::prelude::*;

verus! {

// ---------------------------------------------------------------- decimal numbers

/// Whether every character is a decimal digit.
pub open spec fn all_digits(s: Seq<char>) -> bool {
    forall|i: int| 0 <= i < s.len() ==> text::digit_value(#[trigger] s[i], 10) is Some
}

/// The number that the first `places` digits of `digits` write, with zeros after the last one.
pub open spec fn leading_value(digits: Seq<char>, places: int) -> nat
    decreases places,
{
    if places <= 0 {
        0
    } else {
        10 * leading_value(digits, places - 1) + if places - 1 < digits.len() {
            text::digit_value(digits[places - 1], 10)->0
        } else {
            0
        }
    }
}

/// `n`, held at the end of the range of `u32`.
pub open spec fn clipped(n: nat) -> u32 {
    if n > u32::MAX {
        u32::MAX
    } else {
        n as u32
    }
}

/// A decimal number: its digits without the point, and where the point stands among them.
pub struct Decimal {
    pub negative: bool,
    pub digits: Seq<char>,
    pub point: int,
}

/// The numbers that a decimal text can write.
pub enum Written {
    Number(Decimal),
    Infinite { negative: bool },
    NotANumber,
    Malformed,
}

/// The value of an exponent: digits with an optional sign.
pub open spec fn exponent_value(s: Seq<char>) -> Option<int> {
    let signed = s.len() > 0 && (s[0] == '+' || s[0] == '-');
    match text::digits_value(if signed { s.drop_first() } else { s }, 10) {
        None => None,
        Some(v) => Some(if signed && s[0] == '-' { -(v as int) } else { v as int }),
    }
}

/// Reads a decimal number: a sign, digits with at most one point, and an exponent after `E`.
pub open spec fn read_decimal(s: Seq<char>) -> Written {
    let signed = s.len() > 0 && (s[0] == '+' || s[0] == '-');
    let negative = signed && s[0] == '-';
    let body = if signed { s.drop_first() } else { s };
    let e = text::find(body, 'E');
    let mantissa = body.take(e);
    let exponent = if e < body.len() { exponent_value(body.skip(e + 1)) } else { Some(0int) };
    let p = text::find(mantissa, '.');
    let whole = mantissa.take(p);
    let fraction = if p < mantissa.len() { mantissa.skip(p + 1) } else { seq![] };
    if body == "INF"@ || body == "INFINITY"@ {
        Written::Infinite { negative }
    } else if body == "NAN"@ {
        Written::NotANumber
    } else if exponent is None || !all_digits(whole) || !all_digits(fraction) || whole.len()
        + fraction.len() == 0 {
        Written::Malformed
    } else {
        Written::Number(
            Decimal { negative, digits: whole + fraction, point: whole.len() + exponent->0 },
        )
    }
}

/// A decimal text times ten to the power `shift`, without its fraction, clipped to `u32`; zero
/// where the text is no number.
pub open spec fn scaled(s: Seq<char>, shift: int) -> u32 {
    match read_decimal(s) {
        Written::Number(d) => if d.negative {
            0
        } else {
            clipped(leading_value(d.digits, d.point + shift))
        },
        Written::Infinite { negative } => if negative { 0 } else { u32::MAX },
        _ => 0,
    }
}

proof fn lemma_leading_grows(digits: Seq<char>, p: int, q: int)
    requires
        p <= q,
    ensures
        leading_value(digits, p) <= leading_value(digits, q),
    decreases q - p,
{
    if p < q {
        lemma_leading_grows(digits, p, q - 1);
    }
}

/// Ten to the power `n`.
spec fn ten_to(n: nat) -> nat
    decreases n,
{
    if n == 0 {
        1
    } else {
        10 * ten_to((n - 1) as nat)
    }
}

/// Past the last digit each further place multiplies by ten.
proof fn lemma_leading_past_end(digits: Seq<char>, q: int)
    requires
        q >= digits.len(),
    ensures
        leading_value(digits, q) == leading_value(digits, digits.len() as int) * ten_to(
            (q - digits.len()) as nat,
        ),
    decreases q,
{
    let v = leading_value(digits, digits.len() as int);
    if q == digits.len() {
        assert(v * ten_to(0) == v) by (nonlinear_arith)
            requires
                ten_to(0) == 1,
        ;
    } else {
        lemma_leading_past_end(digits, q - 1);
        let n = (q - digits.len()) as nat;
        let t = ten_to((n - 1) as nat);
        assert(10 * (v * t) == v * (10 * t)) by (nonlinear_arith);
    }
}

/// Ten places past the last digit the clipped value no longer changes.
proof fn lemma_far_places(digits: Seq<char>, p: int, q: int)
    requires
        p >= digits.len() + 10,
        q >= digits.len() + 10,
    ensures
        clipped(leading_value(digits, p)) == clipped(leading_value(digits, q)),
{
    let n = digits.len() as int;
    let v = leading_value(digits, n);
    lemma_leading_past_end(digits, n + 10);
    lemma_leading_past_end(digits, p);
    lemma_leading_past_end(digits, q);
    if v == 0 {
        let tp = ten_to((p - n) as nat);
        let tq = ten_to((q - n) as nat);
        assert(v * tp == 0 && v * tq == 0) by (nonlinear_arith)
            requires
                v == 0,
        ;
    } else {
        assert(ten_to(10) == 10_000_000_000) by {
            reveal_with_fuel(ten_to, 11);
        }
        assert(v * ten_to(10) >= ten_to(10)) by (nonlinear_arith)
            requires
                v >= 1,
                ten_to(10) >= 0,
        ;
        lemma_leading_grows(digits, n + 10, p);
        lemma_leading_grows(digits, n + 10, q);
    }
}

/// The clipped value of the first `places` digits.
fn leading_clipped(digits: &[char], places: i128) -> (r: u32)
    requires
        all_digits(digits@),
    ensures
        r == clipped(leading_value(digits@, places as int)),
{
    if places <= 0 {
        return 0;
    }
    let mut value: u64 = 0;
    let mut at: usize = 0;
    while at < digits.len() && (at as i128) < places
        invariant
            all_digits(digits@),
            at <= digits.len(),
            at <= places,
            value == leading_value(digits@, at as int),
            value <= u32::MAX,
        decreases digits.len() - at,
    {
        assert(text::digit_value(digits@[at as int], 10) is Some);
        let d: u64 = match text::to_digit_value(digits[at], 10) {
            Some(d) => d,
            None => 0,
        };
        assert(d < 10);
        value = 10 * value + d;
        assert(value == leading_value(digits@, at + 1));
        if value > u32::MAX as u64 {
            proof {
                lemma_leading_grows(digits@, at + 1, places as int);
            }
            return u32::MAX;
        }
        at += 1;
    }
    let mut place: i128 = at as i128;
    if value == 0 {
        proof {
            if place < places {
                lemma_leading_past_end(digits@, places as int);
                let t = ten_to((places - digits@.len()) as nat);
                assert(0 * t == 0) by (nonlinear_arith);
            }
        }
        return 0;
    }
    while place < places
        invariant
            at <= place <= places,
            place < places ==> at == digits.len(),
            0 < value <= u32::MAX,
            value == leading_value(digits@, place as int),
        decreases places - place,
    {
        value = 10 * value;
        assert(value == leading_value(digits@, place + 1));
        if value > u32::MAX as u64 {
            proof {
                lemma_leading_grows(digits@, place + 1, places as int);
            }
            return u32::MAX;
        }
        place += 1;
    }
    value as u32
}

/// A bound on exponents beyond which the clipped value no longer depends on them.
spec fn exponent_bound() -> int {
    1_000_000_000_000_000_000_000_000_000_000
}

/// `v`, held within the exponent bound.
spec fn bounded(v: int) -> int {
    if v > exponent_bound() {
        exponent_bound()
    } else if v < -exponent_bound() {
        -exponent_bound()
    } else {
        v
    }
}

/// Reads an exponent, held within the bound.
fn read_exponent(s: &[char]) -> (r: Option<i128>)
    ensures
        r is Some <==> exponent_value(s@) is Some,
        r matches Some(v) ==> v as int == bounded(exponent_value(s@)->0),
{
    let limit: i128 = 1_000_000_000_000_000_000_000_000_000_000;
    let signed: bool = s.len() > 0 && (s[0] == '+' || s[0] == '-');
    let start: usize = if signed {
        1
    } else {
        0
    };
    let ghost body = if signed {
        s@.drop_first()
    } else {
        s@
    };
    assert(body =~= s@.skip(start as int));
    if start >= s.len() {
        return None;
    }
    let mut value: i128 = 0;
    let mut i: usize = start;
    while i < s.len()
        invariant
            start <= i <= s.len(),
            start < s.len(),
            limit == exponent_bound(),
            body == s@.skip(start as int),
            0 <= value <= limit,
            i == start ==> value == 0,
            i > start ==> digits_prefix(body, i - start) is Some && value == bounded(
                digits_prefix(body, i - start)->0 as int,
            ),
            exponent_value(s@) is Some <==> text::digits_value(body, 10) is Some,
        decreases s.len() - i,
    {
        let ghost prefix = body.take(i + 1 - start);
        proof {
            assert(prefix.last() == s@[i as int]);
            assert(prefix.drop_last() =~= body.take(i - start));
        }
        match text::to_digit_value(s[i], 10) {
            None => {
                proof {
                    if text::digits_value(body, 10) is Some {
                        lemma_digits_all(body);
                        assert(body[i - start] == s@[i as int]);
                    }
                }
                return None;
            },
            Some(d) => {
                let next: i128 = 10 * value + d as i128;
                value = if next > limit {
                    limit
                } else {
                    next
                };
            },
        }
        i += 1;
    }
    proof {
        assert(body.take(s@.len() - start) =~= body);
    }
    if signed && s[0] == '-' {
        Some(-value)
    } else {
        Some(value)
    }
}

/// The value of the first `k` digits.
spec fn digits_prefix(s: Seq<char>, k: int) -> Option<nat> {
    text::digits_value(s.take(k), 10)
}

/// A text with a digit value holds digits only.
proof fn lemma_digits_all(s: Seq<char>)
    requires
        text::digits_value(s, 10) is Some,
    ensures
        all_digits(s),
    decreases s.len(),
{
    if s.len() > 1 {
        lemma_digits_all(s.drop_last());
        assert forall|i: int| 0 <= i < s.len() implies text::digit_value(
            #[trigger] s[i],
            10,
        ) is Some by {
            if i < s.len() - 1 {
                assert(s[i] == s.drop_last()[i]);
            }
        }
    }
}

/// Whether every character is a decimal digit.
fn digits_only(s: &[char]) -> (r: bool)
    ensures
        r == all_digits(s@),
{
    let mut i: usize = 0;
    while i < s.len()
        invariant
            i <= s.len(),
            forall|j: int| 0 <= j < i ==> text::digit_value(#[trigger] s@[j], 10) is Some,
        decreases s.len() - i,
    {
        if text::to_digit_value(s[i], 10).is_none() {
            assert(text::digit_value(s@[i as int], 10) is None);
            return false;
        }
        i += 1;
    }
    true
}

/// A decimal text times ten to the power `shift`, without its fraction, clipped to `u32`.
fn scale_decimal(s: &[char], shift: u8) -> (r: u32)
    ensures
        r == scaled(s@, shift as int),
{
    let signed: bool = s.len() > 0 && (s[0] == '+' || s[0] == '-');
    let negative: bool = signed && s[0] == '-';
    let body = if signed {
        text::copy_range(s, 1, s.len())
    } else {
        text::copy_range(s, 0, s.len())
    };
    proof {
        if signed {
            assert(body@ =~= s@.drop_first());
        } else {
            assert(body@ =~= s@);
        }
    }
    let inf = text::chars_of("INF");
    let infinity = text::chars_of("INFINITY");
    let nan = text::chars_of("NAN");
    if text::same(body.as_slice(), inf.as_slice()) || text::same(
        body.as_slice(),
        infinity.as_slice(),
    ) {
        return if negative {
            0
        } else {
            u32::MAX
        };
    }
    if text::same(body.as_slice(), nan.as_slice()) {
        return 0;
    }
    let e: usize = text::find_char(body.as_slice(), 'E');
    let mantissa = text::copy_range(body.as_slice(), 0, e);
    assert(mantissa@ =~= body@.take(e as int));
    let exponent: i128 = if e < body.len() {
        let tail = text::copy_range(body.as_slice(), e + 1, body.len());
        assert(tail@ =~= body@.skip(e + 1));
        match read_exponent(tail.as_slice()) {
            Some(v) => v,
            None => {
                return 0;
            },
        }
    } else {
        0
    };
    let p: usize = text::find_char(mantissa.as_slice(), '.');
    let whole = text::copy_range(mantissa.as_slice(), 0, p);
    assert(whole@ =~= mantissa@.take(p as int));
    let fraction = if p < mantissa.len() {
        let f = text::copy_range(mantissa.as_slice(), p + 1, mantissa.len());
        assert(f@ =~= mantissa@.skip(p + 1));
        f
    } else {
        Vec::new()
    };
    if !digits_only(whole.as_slice()) || !digits_only(fraction.as_slice()) {
        return 0;
    }
    if whole.len() == 0 && fraction.len() == 0 {
        return 0;
    }
    if negative {
        return 0;
    }
    let whole_len: usize = whole.len();
    let mut digits = whole;
    let mut fraction = fraction;
    let ghost joined = digits@ + fraction@;
    digits.append(&mut fraction);
    proof {
        assert(digits@ =~= joined);
        assert(all_digits(digits@));
        let d = read_decimal(s@);
        assert(d is Number);
        let true_exponent = if e < body@.len() {
            exponent_value(body@.skip(e + 1))->0
        } else {
            0
        };
        let exact = whole_len + true_exponent + shift;
        let held = whole_len + exponent + shift;
        assert(usize::MAX <= 0xffff_ffff_ffff_ffff);
        if true_exponent > exponent_bound() {
            lemma_far_places(digits@, exact, held);
        } else if true_exponent < -exponent_bound() {
            assert(exact < 0 && held < 0);
        }
    }
    leading_clipped(digits.as_slice(), whole_len as i128 + exponent + shift as i128)
}

// ---------------------------------------------------------------- bit rates

/// `s` without the occurrences of `part`, taken from the left.
pub open spec fn without_part(s: Seq<char>, part: Seq<char>) -> Seq<char>
    decreases s.len(),
{
    if s.len() == 0 || part.len() == 0 {
        s
    } else if text::has_prefix(s, part) {
        without_part(s.skip(part.len() as int), part)
    } else {
        seq![s[0]] + without_part(s.drop_first(), part)
    }
}

/// Removes the occurrences of a nonempty `part`, taken from the left.
fn remove_part(s: &[char], part: &[char]) -> (r: Vec<char>)
    requires
        part.len() > 0,
    ensures
        r@ == without_part(s@, part@),
{
    let mut out: Vec<char> = Vec::new();
    let mut i: usize = 0;
    assert(s@.skip(0) =~= s@);
    assert(out@ + without_part(s@, part@) =~= without_part(s@, part@));
    while i < s.len()
        invariant
            i <= s.len(),
            part.len() > 0,
            out@ + without_part(s@.skip(i as int), part@) == without_part(s@, part@),
        decreases s.len() - i,
    {
        let ghost rest = s@.skip(i as int);
        let tail = text::copy_range(s, i, s.len());
        assert(tail@ =~= rest);
        if text::begins_with(tail.as_slice(), part) {
            assert(rest.skip(part@.len() as int) =~= s@.skip(i + part@.len()));
            i += part.len();
        } else {
            let ghost before = out@;
            out.push(s[i]);
            proof {
                assert(rest.drop_first() =~= s@.skip(i + 1));
                assert(out@ + without_part(s@.skip(i + 1), part@) =~= before + without_part(
                    rest,
                    part@,
                ));
            }
            i += 1;
        }
    }
    assert(out@ + without_part(s@.skip(i as int), part@) =~= out@) by {
        assert(s@.skip(i as int) =~= Seq::<char>::empty());
    }
    out
}

/// A bit rate in bits per second: a decimal number in `M` or `K`, or a plain integer. Texts that
/// are neither count as zero.
pub open spec fn bits_per_second(s: Seq<char>) -> u32 {
    let b = without_part(text::without(text::upper(text::trim(s)), ' '), "BPS"@);
    if b.len() > 0 && b.last() == 'M' {
        scaled(b.drop_last(), 6)
    } else if b.len() > 0 && b.last() == 'K' {
        scaled(b.drop_last(), 3)
    } else {
        match text::unsigned_value(b, 10, u32::MAX as nat) {
            Some(v) => v as u32,
            None => 0,
        }
    }
}

/// A bit rate in bits per second.
pub fn baud_to_bps(s: &str) -> (r: u32)
    ensures
        r == bits_per_second(s@),
{
    let trimmed = text::trimmed(s);
    let raised = text::to_upper(trimmed.as_str());
    let chars = text::chars_of(raised.as_str());
    let compact = text::remove_char(chars.as_slice(), ' ');
    let bps = text::chars_of("BPS");
    proof {
        reveal_strlit("BPS");
    }
    let b = remove_part(compact.as_slice(), bps.as_slice());
    if b.len() > 0 && (b[b.len() - 1] == 'M' || b[b.len() - 1] == 'K') {
        let number = text::copy_range(b.as_slice(), 0, b.len() - 1);
        assert(number@ =~= b@.drop_last());
        if b[b.len() - 1] == 'M' {
            scale_decimal(number.as_slice(), 6)
        } else {
            scale_decimal(number.as_slice(), 3)
        }
    } else {
        match text::read_unsigned(b.as_slice(), 10, u32::MAX as u64) {
            Some(v) => v as u32,
            None => 0,
        }
    }
}

} // verus!

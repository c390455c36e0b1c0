//! Laws on numerals and on reading them.
use crate::text::{
    decimal, decimal_padded, digit_value, digits_value, hex, hex_padded, is_space, joined, numeral,
    signed_decimal, split, trim, unsigned_value, upper,
};
use vstd::prelude::*;

verus! {

/// The digits zero to nine are the characters from the number 48 on, the digits ten to fifteen
/// those from 65 on, which `A` has.
pub open spec fn is_digit_for(c: char, d: nat) -> bool {
    c as int == if d < 10 {
        (48 + d) as int
    } else {
        65 + d - 10
    }
}

/// A numeral ends in the digit of the remainder, and what stands before it is the numeral of the
/// rest.
pub proof fn law_numerals_end_in_their_last_digit(n: nat, base: nat)
    requires
        2 <= base <= 16,
    ensures
        numeral(n, base).len() >= 1,
        is_digit_for(numeral(n, base).last(), n % base),
        n < base ==> numeral(n, base).len() == 1,
        n >= base ==> numeral(n, base).drop_last() == numeral(n / base, base),
{
    if n < base {
        vstd::arithmetic::div_mod::lemma_small_mod(n, base);
    } else {
        assert(numeral(n, base).drop_last() =~= numeral(n / base, base));
        assert(n % base < base) by (nonlinear_arith)
            requires
                base >= 2,
        ;
    }
}

/// What is written as a numeral is read as the number again.
pub proof fn law_numerals_read_back(n: nat, base: nat)
    requires
        2 <= base <= 16,
    ensures
        digits_value(numeral(n, base), base) == Some(n),
    decreases n,
{
    law_numerals_end_in_their_last_digit(n, base);
    let s = numeral(n, base);
    if n >= base {
        assert(n / base < n) by (nonlinear_arith)
            requires
                n >= base,
                base >= 2,
        ;
        law_numerals_read_back(n / base, base);
        law_numerals_end_in_their_last_digit(n / base, base);
        vstd::arithmetic::div_mod::lemma_fundamental_div_mod(n as int, base as int);
        assert((n / base) * base == base * (n / base)) by (nonlinear_arith);
        assert(n % base < base) by (nonlinear_arith)
            requires
                base >= 2,
        ;
        assert(digit_value(s.last(), base) == Some(n % base));
    } else {
        vstd::arithmetic::div_mod::lemma_small_mod(n, base);
    }
}

/// Decimal and hexadecimal numerals are those with ten and sixteen digits, and are read as such;
/// a negative number has a minus sign, and filling up adds zeros in front only.
pub proof fn law_numbers_are_written_in_their_base(n: nat, m: int, width: nat)
    ensures
        decimal(n) == numeral(n, 10),
        hex(n) == numeral(n, 16),
        unsigned_value(decimal(n), 10, n) == Some(n),
        unsigned_value(hex(n), 16, n) == Some(n),
        m < 0 ==> signed_decimal(m)[0] == '-' && signed_decimal(m).skip(1) == numeral((-m) as nat, 10),
        m >= 0 ==> signed_decimal(m) == numeral(m as nat, 10),
        hex_padded(n, width).len() == (if hex(n).len() < width {
            width
        } else {
            hex(n).len()
        }),
        hex_padded(n, width).skip(hex_padded(n, width).len() - hex(n).len()) == hex(n),
        forall|i: int|
            0 <= i < hex_padded(n, width).len() - hex(n).len() ==> #[trigger] hex_padded(n, width)[i]
                == '0',
        decimal_padded(n, width).skip(decimal_padded(n, width).len() - decimal(n).len()) == decimal(n),
        decimal_padded(n, width).len() >= width,
{
    law_numerals_read_back(n, 10);
    law_numerals_read_back(n, 16);
    lemma_first_is_no_sign(n, 10);
    lemma_first_is_no_sign(n, 16);
    if m < 0 {
        assert(signed_decimal(m).skip(1) =~= numeral((-m) as nat, 10));
    }
    assert(hex_padded(n, width).skip(hex_padded(n, width).len() - hex(n).len()) =~= hex(n));
    assert(decimal_padded(n, width).skip(decimal_padded(n, width).len() - decimal(n).len())
        =~= decimal(n));
}

proof fn lemma_first_is_no_sign(n: nat, base: nat)
    requires
        2 <= base <= 16,
    ensures
        numeral(n, base).len() >= 1,
        numeral(n, base)[0] != '+',
    decreases n,
{
    law_numerals_end_in_their_last_digit(n, base);
    if n >= base {
        assert(n / base < n) by (nonlinear_arith)
            requires
                n >= base,
                base >= 2,
        ;
        lemma_first_is_no_sign(n / base, base);
        assert(numeral(n, base)[0] == numeral(n, base).drop_last()[0]);
    }
}

/// A byte in two digits is read as the byte again.
pub proof fn law_bytes_have_two_digits(b: u8)
    ensures
        hex_padded(b as nat, 2).len() == 2,
        digits_value(hex_padded(b as nat, 2), 16) == Some(b as nat),
{
    let n = b as nat;
    law_numerals_read_back(n, 16);
    law_numerals_end_in_their_last_digit(n, 16);
    if n < 16 {
        let s = hex_padded(n, 2);
        assert(s =~= seq!['0', hex(n)[0]]);
        assert(s.drop_last() =~= seq!['0']);
        assert(digits_value(seq!['0'], 16) == Some(0nat));
        assert(digit_value(s.last(), 16) == Some(n));
    } else {
        law_numerals_end_in_their_last_digit(n / 16, 16);
        assert(n / 16 < 16);
        assert(hex(n).len() == 2) by {
            assert(hex(n).drop_last() == numeral(n / 16, 16));
        }
    }
}

/// Lower case letters have the same values as upper case ones, and nothing but digits of the base
/// has a value.
pub proof fn law_digits_have_their_values(c: char, base: nat)
    requires
        2 <= base <= 16,
    ensures
        digit_value(c, base) matches Some(d) ==> d < base && (is_digit_for(c, d) || (d >= 10 && c as int
            == 97 + d - 10)),
        digit_value(c, base) is None ==> forall|d: nat| d < base ==> !is_digit_for(c, d),
{
}

/// Trimming takes white space from both ends and nothing else.
pub proof fn law_trimming_takes_white_space(s: Seq<char>)
    ensures
        trim(s).len() <= s.len(),
        trim(s).len() > 0 ==> !is_space(trim(s)[0]) && !is_space(trim(s).last()),
        exists|a: int|
            0 <= a && a + trim(s).len() <= s.len() && trim(s) == #[trigger] s.subrange(
                a,
                a + trim(s).len(),
            ) && (forall|i: int| 0 <= i < a ==> is_space(#[trigger] s[i])) && (forall|i: int|
                a + trim(s).len() <= i < s.len() ==> is_space(#[trigger] s[i])),
{
    lemma_trim_start(s);
    let t = crate::text::trim_start(s);
    lemma_trim_end(t);
    let u = crate::text::trim_end(t);
    let a = s.len() - t.len();
    assert(trim(s) == u);
    assert(u =~= s.subrange(a, a + u.len()));
    assert forall|i: int| a + u.len() <= i < s.len() implies is_space(#[trigger] s[i]) by {
        assert(t[i - a] == s[i]);
    }
    if u.len() > 0 {
        assert(u[0] == t[0]);
    }
}

proof fn lemma_trim_start(s: Seq<char>)
    ensures
        crate::text::trim_start(s).len() <= s.len(),
        crate::text::trim_start(s) == s.skip(s.len() - crate::text::trim_start(s).len()),
        forall|i: int|
            0 <= i < s.len() - crate::text::trim_start(s).len() ==> is_space(#[trigger] s[i]),
        crate::text::trim_start(s).len() > 0 ==> !is_space(crate::text::trim_start(s)[0]),
    decreases s.len(),
{
    let t = crate::text::trim_start(s);
    if s.len() > 0 && is_space(s[0]) {
        let r = s.drop_first();
        lemma_trim_start(r);
        assert(t =~= s.skip(s.len() - t.len()));
        assert forall|i: int| 0 <= i < s.len() - t.len() implies is_space(#[trigger] s[i]) by {
            if i > 0 {
                assert(r[i - 1] == s[i]);
            }
        }
    } else {
        assert(t =~= s.skip(0));
    }
}

proof fn lemma_trim_end(s: Seq<char>)
    ensures
        crate::text::trim_end(s).len() <= s.len(),
        crate::text::trim_end(s) == s.take(crate::text::trim_end(s).len() as int),
        forall|i: int| crate::text::trim_end(s).len() <= i < s.len() ==> is_space(#[trigger] s[i]),
        crate::text::trim_end(s).len() > 0 ==> !is_space(crate::text::trim_end(s).last()),
    decreases s.len(),
{
    let t = crate::text::trim_end(s);
    if s.len() > 0 && is_space(s.last()) {
        lemma_trim_end(s.drop_last());
        assert(t =~= s.take(t.len() as int));
        assert forall|i: int| t.len() <= i < s.len() implies is_space(#[trigger] s[i]) by {
            if i < s.len() - 1 {
                assert(s.drop_last()[i] == s[i]);
            }
        }
    } else {
        assert(t =~= s.take(s.len() as int));
    }
}

/// Upper case changes the small letters only, to the letters 32 places before them.
pub proof fn law_upper_case(s: Seq<char>, i: int)
    requires
        0 <= i < s.len(),
    ensures
        upper(s).len() == s.len(),
        upper(s)[i] as u32 == if 97 <= s[i] as u32 <= 122 {
            (s[i] as u32 - 32) as u32
        } else {
            s[i] as u32
        },
{
    let n = s[i] as u32;
    if 97 <= n <= 122 {
        assert(upper(s)[i] == (n - 32) as char);
    }
}

/// Texts that are split at a character and joined with it are what they were.
pub proof fn law_parts_join_again(s: Seq<char>, c: char)
    ensures
        joined(split(s, c), seq![c]) == s,
        split(s, c).len() >= 1,
        forall|i: int| 0 <= i < split(s, c).len() ==> !(#[trigger] split(s, c)[i]).contains(c),
    decreases s.len(),
{
    crate::text::lemma_find(s, c);
    let i = crate::text::find(s, c);
    let parts = split(s, c);
    if i < s.len() {
        let rest = s.skip(i + 1);
        law_parts_join_again(rest, c);
        lemma_joined_front(s.take(i), split(rest, c), seq![c]);
        assert(s =~= s.take(i) + seq![c] + rest);
        assert forall|k: int| 0 <= k < parts.len() implies !(#[trigger] parts[k]).contains(c) by {
            if k > 0 {
                assert(parts[k] == split(rest, c)[k - 1]);
            } else {
                assert(parts[0] == s.take(i));
                if s.take(i).contains(c) {
                    let j = choose|j: int| 0 <= j < s.take(i).len() && s.take(i)[j] == c;
                    assert(s[j] == c);
                }
            }
        }
    } else {
        assert(parts =~= seq![s]);
        if s.contains(c) {
            let j = choose|j: int| 0 <= j < s.len() && s[j] == c;
            assert(s[j] != c);
        }
    }
}

proof fn lemma_joined_front(first: Seq<char>, rest: Seq<Seq<char>>, separator: Seq<char>)
    requires
        rest.len() >= 1,
    ensures
        joined(seq![first] + rest, separator) == first + separator + joined(rest, separator),
    decreases rest.len(),
{
    let all = seq![first] + rest;
    assert(all.last() == rest.last());
    assert(all.drop_last() =~= seq![first] + rest.drop_last());
    if rest.len() == 1 {
        assert(all.drop_last() =~= seq![first]);
        assert(joined(all.drop_last(), separator) == first);
        assert(joined(rest, separator) == rest[0]);
        assert(joined(all, separator) =~= first + separator + rest[0]);
    } else {
        lemma_joined_front(first, rest.drop_last(), separator);
        assert(joined(all, separator) =~= first + separator + joined(rest, separator));
    }
}

} // verus!

//! The pieces of JSON serialization that the claim set and header need:
//! escaping of string contents and decimal formatting of timestamps.
//! Everything works on the UTF-8 bytes of the serialized text.
use vstd::prelude::*;

verus! {

/// The lowercase hex digit for a value below 16.
pub open spec fn hex_digit(v: u8) -> u8
    recommends
        v < 16,
{
    if v < 10 {
        (v + 48) as u8
    } else {
        (v + 87) as u8
    }
}

/// How one byte of string content appears inside a JSON string literal:
/// quote and backslash get a backslash escape, control bytes become
/// `\u00XX`, and every other byte stands as it is. Escaping works on UTF-8
/// bytes; continuation bytes of multi-byte characters are at or above 0x80
/// and pass through unchanged.
pub open spec fn esc_byte(b: u8) -> Seq<u8> {
    if b == 34 {
        seq![92u8, 34u8]
    } else if b == 92 {
        seq![92u8, 92u8]
    } else if b < 32 {
        seq![92u8, 117u8, 48u8, 48u8, hex_digit(b / 16), hex_digit(b % 16)]
    } else {
        seq![b]
    }
}

/// The JSON escaping of a whole byte sequence.
pub open spec fn escape_json(s: Seq<u8>) -> Seq<u8>
    decreases s.len(),
{
    if s.len() == 0 {
        Seq::empty()
    } else {
        esc_byte(s[0]) + escape_json(s.drop_first())
    }
}

fn hex_digit_exec(v: u8) -> (r: u8)
    requires
        v < 16,
    ensures
        r == hex_digit(v),
{
    if v < 10 {
        v + 48
    } else {
        v + 87
    }
}

/// Appends the JSON escaping of `s` to `out`.
pub fn push_escaped(out: &mut Vec<u8>, s: &Vec<u8>)
    ensures
        final(out)@ == old(out)@ + escape_json(s@),
{
    let mut i: usize = 0;
    proof {
        assert(s@.skip(0) =~= s@);
    }
    while i < s.len()
        invariant
            i <= s.len(),
            out@ + escape_json(s@.skip(i as int)) == old(out)@ + escape_json(s@),
        decreases s.len() - i,
    {
        let b = s[i];
        if b == 34 {
            out.push(92);
            out.push(34);
        } else if b == 92 {
            out.push(92);
            out.push(92);
        } else if b < 32 {
            out.push(92);
            out.push(117);
            out.push(48);
            out.push(48);
            out.push(hex_digit_exec(b / 16));
            out.push(hex_digit_exec(b % 16));
        } else {
            out.push(b);
        }
        proof {
            let rest = s@.skip(i as int);
            assert(rest[0] == s@[i as int]);
            assert(rest.drop_first() =~= s@.skip(i as int + 1));
        }
        i = i + 1;
    }
    proof {
        assert(s@.skip(s@.len() as int).len() == 0);
    }
}

/// The decimal digits of a nonnegative integer, most significant first.
pub open spec fn dec_digits(n: int) -> Seq<u8>
    recommends
        n >= 0,
    decreases n,
{
    if n < 10 {
        seq![(48 + n) as u8]
    } else {
        dec_digits(n / 10).push((48 + n % 10) as u8)
    }
}

/// The decimal rendering of an integer: a minus sign for negative values,
/// then the digits without leading zeros.
pub open spec fn dec_repr(n: int) -> Seq<u8> {
    if n < 0 {
        seq![45u8] + dec_digits(-n)
    } else {
        dec_digits(n)
    }
}

/// The digits of a nonnegative value are nonempty and lie between '0' and
/// '9'.
pub proof fn lemma_dec_digits_bytes(n: int)
    requires
        n >= 0,
    ensures
        dec_digits(n).len() >= 1,
        forall|i: int| 0 <= i < dec_digits(n).len() ==> 48 <= #[trigger] dec_digits(n)[i] <= 57,
    decreases n,
{
    if n >= 10 {
        lemma_dec_digits_bytes(n / 10);
    }
}

/// Distinct nonnegative values have distinct digit sequences.
pub proof fn lemma_dec_digits_injective(n1: int, n2: int)
    requires
        n1 >= 0,
        n2 >= 0,
        dec_digits(n1) == dec_digits(n2),
    ensures
        n1 == n2,
    decreases n1,
{
    lemma_dec_digits_bytes(n1);
    lemma_dec_digits_bytes(n2);
    if n1 < 10 && n2 < 10 {
        assert(dec_digits(n1)[0] == dec_digits(n2)[0]);
    } else if n1 < 10 && n2 >= 10 {
        lemma_dec_digits_bytes(n2 / 10);
        assert(dec_digits(n2).len() >= 2);
    } else if n1 >= 10 && n2 < 10 {
        lemma_dec_digits_bytes(n1 / 10);
        assert(dec_digits(n1).len() >= 2);
    } else {
        assert(dec_digits(n1).last() == (48 + n1 % 10) as u8);
        assert(dec_digits(n2).last() == (48 + n2 % 10) as u8);
        assert(n1 % 10 == n2 % 10);
        assert(dec_digits(n1).drop_last() =~= dec_digits(n1 / 10));
        assert(dec_digits(n2).drop_last() =~= dec_digits(n2 / 10));
        lemma_dec_digits_injective(n1 / 10, n2 / 10);
        vstd::arithmetic::div_mod::lemma_fundamental_div_mod(n1, 10);
        vstd::arithmetic::div_mod::lemma_fundamental_div_mod(n2, 10);
    }
}

/// A byte of a decimal rendering: a digit or the minus sign.
pub open spec fn is_decimal_byte(b: u8) -> bool {
    b == 45 || (48 <= b && b <= 57)
}

/// Every byte of a decimal rendering is a decimal byte.
pub proof fn lemma_dec_repr_bytes(n: int)
    ensures
        forall|i: int| 0 <= i < dec_repr(n).len() ==> is_decimal_byte(#[trigger] dec_repr(n)[i]),
{
    if n < 0 {
        lemma_dec_digits_bytes(-n);
        assert forall|i: int| 0 <= i < dec_repr(n).len() implies is_decimal_byte(
            #[trigger] dec_repr(n)[i],
        ) by {
            if i > 0 {
                assert(dec_repr(n)[i] == dec_digits(-n)[i - 1]);
            }
        }
    } else {
        lemma_dec_digits_bytes(n);
    }
}

/// The longest all-decimal suffix of a byte sequence.
pub open spec fn decimal_suffix(s: Seq<u8>) -> Seq<u8>
    decreases s.len(),
{
    if s.len() == 0 {
        Seq::empty()
    } else if is_decimal_byte(s.last()) {
        decimal_suffix(s.drop_last()).push(s.last())
    } else {
        Seq::empty()
    }
}

/// Text that ends in a non-decimal byte followed by decimal bytes has
/// exactly those decimal bytes as its decimal suffix.
pub proof fn lemma_decimal_suffix_of_concat(a: Seq<u8>, d: Seq<u8>)
    requires
        a.len() > 0,
        !is_decimal_byte(a.last()),
        forall|i: int| 0 <= i < d.len() ==> is_decimal_byte(#[trigger] d[i]),
    ensures
        decimal_suffix(a + d) == d,
    decreases d.len(),
{
    if d.len() == 0 {
        assert(a + d =~= a);
        assert(decimal_suffix(a + d) =~= d);
    } else {
        assert((a + d).last() == d.last());
        assert((a + d).drop_last() =~= a + d.drop_last());
        assert forall|i: int| 0 <= i < d.drop_last().len() implies is_decimal_byte(
            #[trigger] d.drop_last()[i],
        ) by {
            assert(d.drop_last()[i] == d[i]);
        }
        lemma_decimal_suffix_of_concat(a, d.drop_last());
        assert(decimal_suffix(a + d) =~= d);
    }
}

/// The decimal rendering is injective: distinct integers render
/// differently.
pub proof fn lemma_dec_repr_injective(n1: int, n2: int)
    requires
        dec_repr(n1) == dec_repr(n2),
    ensures
        n1 == n2,
{
    if n1 >= 0 && n2 >= 0 {
        lemma_dec_digits_injective(n1, n2);
    } else if n1 < 0 && n2 < 0 {
        assert(dec_repr(n1).drop_first() =~= dec_digits(-n1));
        assert(dec_repr(n2).drop_first() =~= dec_digits(-n2));
        lemma_dec_digits_injective(-n1, -n2);
    } else if n1 < 0 {
        lemma_dec_digits_bytes(n2);
        assert(dec_repr(n1)[0] == 45);
        assert(dec_repr(n2)[0] == dec_digits(n2)[0]);
    } else {
        lemma_dec_digits_bytes(n1);
        assert(dec_repr(n2)[0] == 45);
        assert(dec_repr(n1)[0] == dec_digits(n1)[0]);
    }
}

fn push_digits(m: i64, out: &mut Vec<u8>)
    requires
        m >= 0,
    ensures
        final(out)@ == old(out)@ + dec_digits(m as int),
    decreases m,
{
    if m < 10 {
        out.push(48 + (m as u8));
    } else {
        push_digits(m / 10, out);
        out.push(48 + ((m % 10) as u8));
    }
}

/// Appends the decimal rendering of `n` to `out`. `i64::MIN` is left out so
/// that the magnitude can be negated in place.
pub fn push_decimal(out: &mut Vec<u8>, n: i64)
    requires
        n > i64::MIN,
    ensures
        final(out)@ == old(out)@ + dec_repr(n as int),
{
    if n < 0 {
        out.push(45);
        push_digits(-n, out);
    } else {
        push_digits(n, out);
    }
}

} // verus!

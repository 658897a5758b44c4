//! Base64url (no padding) over byte sequences, as the compact token
//! serialization uses for its header, claims and signature segments.
use vstd::prelude::*;

verus! {

/// The base64url alphabet entry for a 6-bit value.
pub open spec fn b64url_byte(v: u8) -> u8
    recommends
        v < 64,
{
    if v < 26 {
        (v + 65) as u8  // 'A'..='Z'
    } else if v < 52 {
        (v + 71) as u8  // 'a'..='z'
    } else if v < 62 {
        (v - 4) as u8  // '0'..='9'
    } else if v == 62 {
        45u8  // '-'
    } else {
        95u8  // '_'
    }
}

/// True of the bytes that base64url output is made of.
pub open spec fn is_b64url_byte(b: u8) -> bool {
    (65 <= b && b <= 90) || (97 <= b && b <= 122) || (48 <= b && b <= 57) || b == 45 || b == 95
}

/// Base64url encoding without padding: three input bytes become four output
/// bytes; a remainder of one or two input bytes becomes two or three output
/// bytes.
pub open spec fn b64url_encode(s: Seq<u8>) -> Seq<u8>
    decreases s.len(),
{
    if s.len() == 0 {
        Seq::empty()
    } else if s.len() == 1 {
        seq![b64url_byte(s[0] / 4), b64url_byte(((s[0] % 4) * 16) as u8)]
    } else if s.len() == 2 {
        seq![
            b64url_byte(s[0] / 4),
            b64url_byte(((s[0] % 4) * 16 + s[1] / 16) as u8),
            b64url_byte(((s[1] % 16) * 4) as u8),
        ]
    } else {
        seq![
            b64url_byte(s[0] / 4),
            b64url_byte(((s[0] % 4) * 16 + s[1] / 16) as u8),
            b64url_byte(((s[1] % 16) * 4 + s[2] / 64) as u8),
            b64url_byte((s[2] % 64) as u8),
        ] + b64url_encode(s.skip(3))
    }
}

fn b64_byte(v: u8) -> (r: u8)
    requires
        v < 64,
    ensures
        r == b64url_byte(v),
{
    if v < 26 {
        v + 65
    } else if v < 52 {
        v + 71
    } else if v < 62 {
        v - 4
    } else if v == 62 {
        45
    } else {
        95
    }
}

/// Encodes `input` as base64url without padding.
pub fn base64url(input: &Vec<u8>) -> (r: Vec<u8>)
    ensures
        r@ == b64url_encode(input@),
{
    let mut out: Vec<u8> = Vec::new();
    let mut i: usize = 0;
    proof {
        assert(input@.skip(0) =~= input@);
    }
    while input.len() - i >= 3
        invariant
            i <= input.len(),
            out@ + b64url_encode(input@.skip(i as int)) == b64url_encode(input@),
        decreases input.len() - i,
    {
        let b0 = input[i];
        let b1 = input[i + 1];
        let b2 = input[i + 2];
        out.push(b64_byte(b0 / 4));
        out.push(b64_byte((b0 % 4) * 16 + b1 / 16));
        out.push(b64_byte((b1 % 16) * 4 + b2 / 64));
        out.push(b64_byte(b2 % 64));
        proof {
            let s = input@.skip(i as int);
            assert(s.len() >= 3);
            assert(s[0] == input@[i as int]);
            assert(s[1] == input@[i as int + 1]);
            assert(s[2] == input@[i as int + 2]);
            assert(s.skip(3) =~= input@.skip(i as int + 3));
        }
        i = i + 3;
    }
    if input.len() - i == 1 {
        let b0 = input[i];
        out.push(b64_byte(b0 / 4));
        out.push(b64_byte((b0 % 4) * 16));
        proof {
            let s = input@.skip(i as int);
            assert(s.len() == 1);
            assert(s[0] == input@[i as int]);
        }
    } else if input.len() - i == 2 {
        let b0 = input[i];
        let b1 = input[i + 1];
        out.push(b64_byte(b0 / 4));
        out.push(b64_byte((b0 % 4) * 16 + b1 / 16));
        out.push(b64_byte((b1 % 16) * 4));
        proof {
            let s = input@.skip(i as int);
            assert(s.len() == 2);
            assert(s[0] == input@[i as int]);
            assert(s[1] == input@[i as int + 1]);
        }
    } else {
        proof {
            assert(input@.skip(i as int).len() == 0);
        }
    }
    out
}

/// The alphabet entry of any 6-bit value is an alphabet byte; out-of-range
/// arguments also land in the alphabet, on its final entry.
pub proof fn lemma_b64url_byte_in_alphabet(v: u8)
    ensures
        is_b64url_byte(b64url_byte(v)),
{
}

/// Every byte that the encoding produces lies in the base64url alphabet.
pub proof fn lemma_b64url_encode_in_alphabet(s: Seq<u8>)
    ensures
        forall|i: int|
            0 <= i < b64url_encode(s).len() ==> is_b64url_byte(#[trigger] b64url_encode(s)[i]),
    decreases s.len(),
{
    let e = b64url_encode(s);
    if s.len() == 0 {
    } else if s.len() == 1 {
        assert forall|i: int| 0 <= i < e.len() implies is_b64url_byte(e[i]) by {
            lemma_b64url_byte_in_alphabet(s[0] / 4);
            lemma_b64url_byte_in_alphabet(((s[0] % 4) * 16) as u8);
        }
    } else if s.len() == 2 {
        assert forall|i: int| 0 <= i < e.len() implies is_b64url_byte(e[i]) by {
            lemma_b64url_byte_in_alphabet(s[0] / 4);
            lemma_b64url_byte_in_alphabet(((s[0] % 4) * 16 + s[1] / 16) as u8);
            lemma_b64url_byte_in_alphabet(((s[1] % 16) * 4) as u8);
        }
    } else {
        lemma_b64url_encode_in_alphabet(s.skip(3));
        assert forall|i: int| 0 <= i < e.len() implies is_b64url_byte(e[i]) by {
            lemma_b64url_byte_in_alphabet(s[0] / 4);
            lemma_b64url_byte_in_alphabet(((s[0] % 4) * 16 + s[1] / 16) as u8);
            lemma_b64url_byte_in_alphabet(((s[1] % 16) * 4 + s[2] / 64) as u8);
            lemma_b64url_byte_in_alphabet((s[2] % 64) as u8);
            if i >= 4 {
                assert(e[i] == b64url_encode(s.skip(3))[i - 4]);
            }
        }
    }
}

/// Distinct 6-bit values have distinct alphabet entries.
pub proof fn lemma_b64url_byte_injective(v1: u8, v2: u8)
    requires
        v1 < 64,
        v2 < 64,
        b64url_byte(v1) == b64url_byte(v2),
    ensures
        v1 == v2,
{
}

/// The output length separates the input length classes: empty, one byte,
/// two bytes, and a full chunk or more.
proof fn lemma_b64url_len_class(s: Seq<u8>)
    ensures
        s.len() == 0 ==> b64url_encode(s).len() == 0,
        s.len() == 1 ==> b64url_encode(s).len() == 2,
        s.len() == 2 ==> b64url_encode(s).len() == 3,
        s.len() >= 3 ==> b64url_encode(s).len() >= 4,
{
}

/// The encoding is injective: distinct byte sequences encode to distinct
/// outputs.
pub proof fn lemma_b64url_encode_injective(a: Seq<u8>, b: Seq<u8>)
    requires
        b64url_encode(a) == b64url_encode(b),
    ensures
        a == b,
    decreases a.len(),
{
    let ea = b64url_encode(a);
    let eb = b64url_encode(b);
    lemma_b64url_len_class(a);
    lemma_b64url_len_class(b);
    if a.len() == 0 {
        assert(b.len() == 0);
        assert(a =~= b);
    } else if a.len() == 1 {
        assert(b.len() == 1);
        assert(ea[0] == b64url_byte(a[0] / 4) && ea[1] == b64url_byte(((a[0] % 4) * 16) as u8));
        assert(eb[0] == b64url_byte(b[0] / 4) && eb[1] == b64url_byte(((b[0] % 4) * 16) as u8));
        lemma_b64url_byte_injective(a[0] / 4, b[0] / 4);
        lemma_b64url_byte_injective(((a[0] % 4) * 16) as u8, ((b[0] % 4) * 16) as u8);
        assert(a[0] == b[0]);
        assert(a =~= b);
    } else if a.len() == 2 {
        assert(b.len() == 2);
        assert(ea[0] == b64url_byte(a[0] / 4) && ea[1] == b64url_byte(
            ((a[0] % 4) * 16 + a[1] / 16) as u8,
        ) && ea[2] == b64url_byte(((a[1] % 16) * 4) as u8));
        assert(eb[0] == b64url_byte(b[0] / 4) && eb[1] == b64url_byte(
            ((b[0] % 4) * 16 + b[1] / 16) as u8,
        ) && eb[2] == b64url_byte(((b[1] % 16) * 4) as u8));
        lemma_b64url_byte_injective(a[0] / 4, b[0] / 4);
        lemma_b64url_byte_injective(
            ((a[0] % 4) * 16 + a[1] / 16) as u8,
            ((b[0] % 4) * 16 + b[1] / 16) as u8,
        );
        lemma_b64url_byte_injective(((a[1] % 16) * 4) as u8, ((b[1] % 16) * 4) as u8);
        assert(a[0] == b[0]);
        assert(a[1] == b[1]);
        assert(a =~= b);
    } else {
        assert(b.len() >= 3);
        assert(ea[0] == b64url_byte(a[0] / 4) && ea[1] == b64url_byte(
            ((a[0] % 4) * 16 + a[1] / 16) as u8,
        ) && ea[2] == b64url_byte(((a[1] % 16) * 4 + a[2] / 64) as u8) && ea[3] == b64url_byte(
            (a[2] % 64) as u8,
        ));
        assert(eb[0] == b64url_byte(b[0] / 4) && eb[1] == b64url_byte(
            ((b[0] % 4) * 16 + b[1] / 16) as u8,
        ) && eb[2] == b64url_byte(((b[1] % 16) * 4 + b[2] / 64) as u8) && eb[3] == b64url_byte(
            (b[2] % 64) as u8,
        ));
        lemma_b64url_byte_injective(a[0] / 4, b[0] / 4);
        lemma_b64url_byte_injective(
            ((a[0] % 4) * 16 + a[1] / 16) as u8,
            ((b[0] % 4) * 16 + b[1] / 16) as u8,
        );
        lemma_b64url_byte_injective(
            ((a[1] % 16) * 4 + a[2] / 64) as u8,
            ((b[1] % 16) * 4 + b[2] / 64) as u8,
        );
        lemma_b64url_byte_injective((a[2] % 64) as u8, (b[2] % 64) as u8);
        assert(a[0] == b[0]);
        assert(a[1] == b[1]);
        assert(a[2] == b[2]);
        assert(ea.skip(4) =~= b64url_encode(a.skip(3)));
        assert(eb.skip(4) =~= b64url_encode(b.skip(3)));
        lemma_b64url_encode_injective(a.skip(3), b.skip(3));
        assert forall|i: int| 0 <= i < a.len() implies a[i] == b[i] by {
            if i >= 3 {
                assert(a[i] == a.skip(3)[i - 3]);
                assert(b[i] == b.skip(3)[i - 3]);
            }
        }
        assert(a =~= b);
    }
}

/// A nonempty input never encodes to the empty sequence.
pub proof fn lemma_b64url_encode_nonempty(s: Seq<u8>)
    requires
        s.len() > 0,
    ensures
        b64url_encode(s).len() > 0,
{
}

} // verus!

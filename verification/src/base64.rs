//! A minimal RFC 4648 base64 decoder, for wire bytes kept in text.

use vstd::prelude::*;

use crate::text::chars_of;

verus! {

/// The value of a character of the base64 alphabet.
pub open spec fn sextet(c: char) -> Option<nat> {
    if 'A' <= c && c <= 'Z' {
        Some((c as nat - 'A' as nat) as nat)
    } else if 'a' <= c && c <= 'z' {
        Some((c as nat - 'a' as nat + 26) as nat)
    } else if '0' <= c && c <= '9' {
        Some((c as nat - '0' as nat + 52) as nat)
    } else if c == '+' {
        Some(62)
    } else if c == '/' {
        Some(63)
    } else {
        None
    }
}

/// The values of the characters of `s`, padding left out.
pub open spec fn sextets(s: Seq<char>) -> Seq<nat>
    decreases s.len(),
{
    if s.len() == 0 {
        Seq::empty()
    } else {
        let rest = sextets(s.drop_last());
        match sextet(s.last()) {
            Some(v) => rest.push(v),
            None => rest,
        }
    }
}

/// Every character is of the alphabet or padding.
pub open spec fn is_base64(s: Seq<char>) -> bool {
    forall|i: int| 0 <= i < s.len() ==> s[i] == '=' || sextet(#[trigger] s[i]) is Some
}

/// The bytes of one group of up to four values: the whole bytes of their bits.
pub open spec fn group_bytes(v: Seq<nat>) -> Seq<u8> {
    if v.len() >= 4 {
        let n = v[0] * 262144 + v[1] * 4096 + v[2] * 64 + v[3];
        seq![(n / 65536) as u8, (n / 256 % 256) as u8, (n % 256) as u8]
    } else if v.len() == 3 {
        let n = v[0] * 4096 + v[1] * 64 + v[2];
        seq![(n / 1024) as u8, (n / 4 % 256) as u8]
    } else if v.len() == 2 {
        seq![((v[0] * 64 + v[1]) / 16) as u8]
    } else {
        Seq::empty()
    }
}

/// The bytes of a run of values, four at a time.
pub open spec fn bytes_of(v: Seq<nat>) -> Seq<u8>
    decreases v.len(),
{
    if v.len() <= 4 {
        group_bytes(v)
    } else {
        group_bytes(v.take(4)) + bytes_of(v.skip(4))
    }
}

/// The value of a character.
fn sextet_value(c: char) -> (v: Option<u32>)
    ensures
        match v {
            Some(n) => sextet(c) == Some(n as nat) && n < 64,
            None => sextet(c) is None,
        },
{
    let u: u32 = c as u32;
    if 'A' <= c && c <= 'Z' {
        Some(u - 65)
    } else if 'a' <= c && c <= 'z' {
        Some(u - 97 + 26)
    } else if '0' <= c && c <= '9' {
        Some(u - 48 + 52)
    } else if c == '+' {
        Some(62)
    } else if c == '/' {
        Some(63)
    } else {
        None
    }
}

/// The values of a sequence of 32-bit numbers.
pub open spec fn as_values(v: Seq<u32>) -> Seq<nat> {
    v.map_values(|n: u32| n as nat)
}

/// The bytes that a base64 text encodes. Padding is skipped wherever it stands.
pub fn nvfp4_b64_decode(s: &str) -> (out: Vec<u8>)
    requires
        is_base64(s@),
    ensures
        out@ == bytes_of(sextets(s@)),
{
    let chars: Vec<char> = chars_of(s);
    let mut values: Vec<u32> = Vec::new();
    let mut i: usize = 0;
    assert(as_values(values@) =~= sextets(s@.take(0)));
    while i < chars.len()
        invariant
            chars@ == s@,
            i <= chars@.len(),
            as_values(values@) =~= sextets(s@.take(i as int)),
            forall|k: int| 0 <= k < values@.len() ==> #[trigger] values@[k] < 64,
        decreases chars@.len() - i,
    {
        assert(s@.take(i + 1).drop_last() =~= s@.take(i as int));
        if let Some(v) = sextet_value(chars[i]) {
            values.push(v);
        }
        i = i + 1;
    }
    assert(s@.take(i as int) =~= s@);
    decode_values(values.as_slice())
}

/// The bytes of a run of values.
fn decode_values(values: &[u32]) -> (out: Vec<u8>)
    requires
        forall|k: int| 0 <= k < values@.len() ==> #[trigger] values@[k] < 64,
    ensures
        out@ == bytes_of(as_values(values@)),
{
    let ghost v = as_values(values@);
    let len: usize = values.len();
    let mut out: Vec<u8> = Vec::new();
    let mut i: usize = 0;
    assert(v.skip(0) =~= v);
    while len - i > 4
        invariant
            len == values@.len(),
            v == as_values(values@),
            i <= len,
            forall|k: int| 0 <= k < values@.len() ==> #[trigger] values@[k] < 64,
            bytes_of(v) == out@ + bytes_of(v.skip(i as int)),
        decreases len - i,
    {
        let n: u32 = values[i] * 262144 + values[i + 1] * 4096 + values[i + 2] * 64 + values[i + 3];
        let ghost before = out@;
        out.push((n / 65536) as u8);
        out.push((n / 256 % 256) as u8);
        out.push((n % 256) as u8);
        proof {
            let rest = v.skip(i as int);
            assert(rest.skip(4) =~= v.skip(i + 4));
            assert(out@ =~= before + group_bytes(rest.take(4)));
            assert(bytes_of(v) =~= out@ + bytes_of(v.skip(i + 4)));
        }
        i = i + 4;
    }
    let ghost before = out@;
    let ghost rest = v.skip(i as int);
    if len - i == 4 {
        let n: u32 = values[i] * 262144 + values[i + 1] * 4096 + values[i + 2] * 64 + values[i + 3];
        out.push((n / 65536) as u8);
        out.push((n / 256 % 256) as u8);
        out.push((n % 256) as u8);
    } else if len - i == 3 {
        let n: u32 = values[i] * 4096 + values[i + 1] * 64 + values[i + 2];
        out.push((n / 1024) as u8);
        out.push((n / 4 % 256) as u8);
    } else if len - i == 2 {
        let n: u32 = values[i] * 64 + values[i + 1];
        out.push((n / 16) as u8);
    }
    assert(out@ =~= before + group_bytes(rest));
    out
}

/// The values that encode up to three bytes.
pub open spec fn group_sextets(b: Seq<u8>) -> Seq<nat> {
    if b.len() >= 3 {
        let n = b[0] as nat * 65536 + b[1] as nat * 256 + b[2] as nat;
        seq![n / 262144, n / 4096 % 64, n / 64 % 64, n % 64]
    } else if b.len() == 2 {
        let n = b[0] as nat * 1024 + b[1] as nat * 4;
        seq![n / 4096, n / 64 % 64, n % 64]
    } else if b.len() == 1 {
        let n = b[0] as nat * 16;
        seq![n / 64, n % 64]
    } else {
        Seq::empty()
    }
}

/// The values that encode bytes, three at a time.
pub open spec fn encoded(b: Seq<u8>) -> Seq<nat>
    decreases b.len(),
{
    if b.len() <= 3 {
        group_sextets(b)
    } else {
        group_sextets(b.take(3)) + encoded(b.skip(3))
    }
}

/// A text encodes bytes where its values, padding left out, are theirs.
pub open spec fn encodes(s: Seq<char>, b: Seq<u8>) -> bool {
    is_base64(s) && sextets(s) == encoded(b)
}

proof fn lemma_sextets_of_24_bits(n: u32)
    by (bit_vector)
    requires
        n < 0x100_0000u32,
    ensures
        n / 262144 * 262144 + n / 4096 % 64 * 4096 + n / 64 % 64 * 64 + n % 64 == n,
{
}

proof fn lemma_bytes_of_24_bits(b0: u8, b1: u8, b2: u8, n: nat)
    requires
        n == b0 * 65536 + b1 * 256 + b2,
    ensures
        n / 65536 == b0,
        n / 256 % 256 == b1,
        n % 256 == b2,
{
    let high = b0 * 256 + b1;
    vstd::arithmetic::div_mod::lemma_fundamental_div_mod_converse(
        n as int,
        65536,
        b0 as int,
        b1 * 256 + b2,
    );
    vstd::arithmetic::div_mod::lemma_fundamental_div_mod_converse(n as int, 256, high, b2 as int);
    vstd::arithmetic::div_mod::lemma_fundamental_div_mod_converse(high, 256, b0 as int, b1 as int);
}

proof fn lemma_three_bytes(b0: u8, b1: u8, b2: u8)
    ensures
        ({
            let n = b0 as nat * 65536 + b1 as nat * 256 + b2 as nat;
            &&& n / 262144 * 262144 + n / 4096 % 64 * 4096 + n / 64 % 64 * 64 + n % 64 == n
            &&& n / 65536 == b0
            &&& n / 256 % 256 == b1
            &&& n % 256 == b2
        }),
{
    let n = b0 as nat * 65536 + b1 as nat * 256 + b2 as nat;
    lemma_sextets_of_24_bits(n as u32);
    lemma_bytes_of_24_bits(b0, b1, b2, n);
}

proof fn lemma_two_bytes(b0: u8, b1: u8)
    ensures
        ({
            let n = b0 as nat * 1024 + b1 as nat * 4;
            &&& n / 4096 * 4096 + n / 64 % 64 * 64 + n % 64 == n
            &&& n / 1024 == b0
            &&& n / 4 % 256 == b1
        }),
{
    let n: u32 = (b0 as u32 * 1024 + b1 as u32 * 4) as u32;
    assert(n / 4096 * 4096 + n / 64 % 64 * 64 + n % 64 == n) by (bit_vector)
        requires
            n < 0x10_0000u32,
    ;
}

proof fn lemma_group_round_trip(b: Seq<u8>)
    requires
        b.len() <= 3,
    ensures
        group_bytes(group_sextets(b)) =~= b,
        group_sextets(b).len() <= 4,
        b.len() == 3 ==> group_sextets(b).len() == 4,
{
    if b.len() == 3 {
        lemma_three_bytes(b[0], b[1], b[2]);
    } else if b.len() == 2 {
        lemma_two_bytes(b[0], b[1]);
    }
}

/// Decoding gives back the bytes that a text encodes.
pub proof fn decoding_undoes_encoding(s: Seq<char>, b: Seq<u8>)
    requires
        encodes(s, b),
    ensures
        bytes_of(sextets(s)) == b,
{
    lemma_values_round_trip(b);
}

proof fn lemma_values_round_trip(b: Seq<u8>)
    ensures
        bytes_of(encoded(b)) =~= b,
    decreases b.len(),
{
    if b.len() <= 3 {
        lemma_group_round_trip(b);
    } else {
        let v = encoded(b);
        let rest = encoded(b.skip(3));
        lemma_group_round_trip(b.take(3));
        lemma_values_round_trip(b.skip(3));
        assert(b.skip(3).len() >= 1);
        lemma_encoded_grows(b.skip(3));
        assert(v.take(4) =~= group_sextets(b.take(3)));
        assert(v.skip(4) =~= rest);
        assert(b =~= b.take(3) + b.skip(3));
    }
}

proof fn lemma_encoded_grows(b: Seq<u8>)
    requires
        b.len() >= 1,
    ensures
        encoded(b).len() >= 1,
{
    if b.len() > 3 {
        assert(group_sextets(b.take(3)).len() == 4);
    }
}

} // verus!

//! Laws of encoded numbers: base64 text, quantised blocks and repacked weights, and of the
//! greedy stream.

use vstd::prelude::*;

use crate::q4k_repack::Q4KPackedBlock8;

verus! {

/// The base64 alphabet: capital letters, small letters, digits, plus and slash, in this
/// order, have the values 0 to 63; no other character has a value.
pub proof fn the_alphabet_counts_up(c: char, i: int)
    requires
        0 <= i < 26,
    ensures
        c as int == 'A' as int + i ==> crate::base64::sextet(c) == Some(i as nat),
        c as int == 'a' as int + i ==> crate::base64::sextet(c) == Some((26 + i) as nat),
        i < 10 && c as int == '0' as int + i ==> crate::base64::sextet(c) == Some((52 + i) as nat),
        crate::base64::sextet('+') == Some(62nat),
        crate::base64::sextet('/') == Some(63nat),
        crate::base64::sextet('=') is None,
        crate::base64::sextet(c) is Some ==> crate::base64::sextet(c)->0 < 64 && ('A' <= c <= 'Z'
            || 'a' <= c <= 'z' || '0' <= c <= '9' || c == '+' || c == '/'),
{
}

/// The values of a text are those of its characters in their order; padding has none.
pub proof fn values_follow_the_text(s: Seq<char>, c: char)
    ensures
        crate::base64::sextets(Seq::empty()).len() == 0,
        crate::base64::sextet(c) matches Some(v) ==> crate::base64::sextets(s.push(c))
            == crate::base64::sextets(s).push(v),
        c == '=' ==> crate::base64::sextets(s.push(c)) == crate::base64::sextets(s),
{
    assert(s.push(c).drop_last() =~= s);
}

/// Each four values are three bytes: the same number in base 64 and in base 256. Three
/// values that are left over are two bytes and two left-over bits, two are one byte and four
/// left-over bits; a single one is no byte.
pub proof fn values_are_bytes_of_the_same_bits(v: Seq<nat>, j: int)
    requires
        forall|i: int| 0 <= i < v.len() ==> #[trigger] v[i] < 64,
        0 <= j,
    ensures
        ({
            let out = crate::base64::bytes_of(v);
            let left = v.len() as int - 4 * j;
            &&& out.len() == v.len() / 4 * 3 + (if v.len() % 4 == 3 {
                2int
            } else if v.len() % 4 == 2 {
                1int
            } else {
                0int
            })
            &&& left >= 4 ==> v[4 * j] * 262144 + v[4 * j + 1] * 4096 + v[4 * j + 2] * 64 + v[4 * j
                + 3] == out[3 * j] * 65536 + out[3 * j + 1] * 256 + out[3 * j + 2]
            &&& left == 3 ==> (v[4 * j] * 4096 + v[4 * j + 1] * 64 + v[4 * j + 2]) / 4 == out[3 * j]
                * 256 + out[3 * j + 1]
            &&& left == 2 ==> (v[4 * j] * 64 + v[4 * j + 1]) / 16 == out[3 * j]
        }),
    decreases v.len(),
{
    let out = crate::base64::bytes_of(v);
    if v.len() <= 4 {
        if v.len() == 4 {
            lemma_four_values(v[0], v[1], v[2], v[3]);
        } else if v.len() == 3 {
            lemma_three_values(v[0], v[1], v[2]);
        }
    } else {
        let head = v.take(4);
        let rest = v.skip(4);
        assert forall|i: int| 0 <= i < rest.len() implies #[trigger] rest[i] < 64 by {
            assert(rest[i] == v[i + 4]);
        }
        let first = crate::base64::group_bytes(head);
        assert(head[0] < 64 && head[1] < 64 && head[2] < 64 && head[3] < 64) by {
            assert(v[0] < 64 && v[1] < 64 && v[2] < 64 && v[3] < 64);
        }
        lemma_four_values(head[0], head[1], head[2], head[3]);
        assert(out =~= first + crate::base64::bytes_of(rest));
        if j > 0 {
            values_are_bytes_of_the_same_bits(rest, j - 1);
            let tail = crate::base64::bytes_of(rest);
            assert(rest[4 * (j - 1)] == v[4 * j] || rest.len() <= 4 * (j - 1));
            assert(out.len() == 3 + tail.len());
            if rest.len() - 4 * (j - 1) >= 4 {
                assert(rest[4 * (j - 1) + 1] == v[4 * j + 1]);
                assert(rest[4 * (j - 1) + 2] == v[4 * j + 2]);
                assert(rest[4 * (j - 1) + 3] == v[4 * j + 3]);
                assert(out[3 * j] == tail[3 * (j - 1)]);
                assert(out[3 * j + 1] == tail[3 * (j - 1) + 1]);
                assert(out[3 * j + 2] == tail[3 * (j - 1) + 2]);
            } else if rest.len() - 4 * (j - 1) == 3 {
                assert(rest[4 * (j - 1) + 1] == v[4 * j + 1]);
                assert(rest[4 * (j - 1) + 2] == v[4 * j + 2]);
                assert(out[3 * j] == tail[3 * (j - 1)]);
                assert(out[3 * j + 1] == tail[3 * (j - 1) + 1]);
            } else if rest.len() - 4 * (j - 1) == 2 {
                assert(rest[4 * (j - 1) + 1] == v[4 * j + 1]);
                assert(out[3 * j] == tail[3 * (j - 1)]);
            }
        } else {
            values_are_bytes_of_the_same_bits(rest, 0);
            assert(out[0] == first[0] && out[1] == first[1] && out[2] == first[2]);
        }
    }
}

proof fn lemma_four_values(a: nat, b: nat, c: nat, d: nat)
    requires
        a < 64,
        b < 64,
        c < 64,
        d < 64,
    ensures
        ({
            let n = a * 262144 + b * 4096 + c * 64 + d;
            &&& n < 0x100_0000
            &&& ((n / 65536) as u8) * 65536 + ((n / 256 % 256) as u8) * 256 + ((n % 256) as u8) == n
        }),
{
    let n = a * 262144 + b * 4096 + c * 64 + d;
    let m = n as u32;
    assert(m / 65536 * 65536 + m / 256 % 256 * 256 + m % 256 == m && m / 65536 < 256) by (bit_vector)
        requires
            m < 0x100_0000u32,
    ;
}

proof fn lemma_three_values(a: nat, b: nat, c: nat)
    requires
        a < 64,
        b < 64,
        c < 64,
    ensures
        ({
            let n = a * 4096 + b * 64 + c;
            ((n / 1024) as u8) * 256 + ((n / 4 % 256) as u8) == n / 4
        }),
{
    let n = a * 4096 + b * 64 + c;
    let m = n as u32;
    assert(m / 1024 * 256 + m / 4 % 256 == m / 4 && m / 1024 < 256) by (bit_vector)
        requires
            m < 0x4_0000u32,
    ;
}

/// The product of a vector with a sum of two is the sum of its products with each, and with
/// a multiple is the multiple of the product.
pub proof fn dot_products_are_linear(a: Seq<int>, b: Seq<int>, c: Seq<int>, k: int, n: int)
    requires
        0 <= n <= a.len(),
        n <= b.len(),
        n <= c.len(),
    ensures
        crate::q8_kernels::dot(a, Seq::new(n as nat, |i: int| b[i] + k * c[i]), n)
            == crate::q8_kernels::dot(a, b, n) + k * crate::q8_kernels::dot(a, c, n),
    decreases n,
{
    let mixed = Seq::new(n as nat, |i: int| b[i] + k * c[i]);
    if n > 0 {
        dot_products_are_linear(a, b, c, k, n - 1);
        let shorter = Seq::new((n - 1) as nat, |i: int| b[i] + k * c[i]);
        lemma_dot_prefix(a, mixed, shorter, n - 1);
        let x = a[n - 1];
        let y = b[n - 1];
        let z = c[n - 1];
        let w = crate::q8_kernels::dot(a, c, n - 1);
        assert(x * (y + k * z) == x * y + k * (x * z)) by (nonlinear_arith);
        assert(k * (w + x * z) == k * w + k * (x * z)) by (nonlinear_arith);
    } else {
        assert(k * 0 == 0);
    }
}

proof fn lemma_dot_prefix(a: Seq<int>, b: Seq<int>, c: Seq<int>, n: int)
    requires
        forall|i: int| 0 <= i < n ==> #[trigger] b[i] == c[i],
    ensures
        crate::q8_kernels::dot(a, b, n) == crate::q8_kernels::dot(a, c, n),
    decreases n,
{
    if n > 0 {
        lemma_dot_prefix(a, b, c, n - 1);
        assert(b[n - 1] == c[n - 1]);
    }
}

/// The product with the vector that is 1 at one place and 0 elsewhere is what stands at
/// that place, for every place up to the last.
pub proof fn dot_products_pick_each_place(a: Seq<int>, b: Seq<int>, n: int, j: int)
    requires
        0 <= j < n,
        forall|i: int| 0 <= i < n ==> #[trigger] b[i] == (if i == j {
            1int
        } else {
            0
        }),
    ensures
        crate::q8_kernels::dot(a, b, n) == a[j],
    decreases n,
{
    let x = a[n - 1];
    assert(x * 0 == 0 && x * 1 == x);
    if j == n - 1 {
        lemma_dot_zero(a, b, n - 1);
        assert(b[n - 1] == 1);
    } else {
        dot_products_pick_each_place(a, b, n - 1, j);
        assert(b[n - 1] == 0);
    }
}

proof fn lemma_dot_zero(a: Seq<int>, b: Seq<int>, n: int)
    requires
        forall|i: int| 0 <= i < n ==> #[trigger] b[i] == 0,
    ensures
        crate::q8_kernels::dot(a, b, n) == 0,
    decreases n,
{
    if n > 0 {
        lemma_dot_zero(a, b, n - 1);
        assert(b[n - 1] == 0);
        let x = a[n - 1];
        assert(x * 0 == 0);
    }
}

/// A byte encodes the signed value of the same eight bits: from -128 to 127, and the same
/// but for a multiple of 256. The values of a block are those of its quants, in order.
pub proof fn bytes_encode_signed_values(b: u8, quants: Seq<i8>, encoded: Seq<u8>, i: int)
    ensures
        -128 <= crate::q8_kernels::signed_byte(b) <= 127,
        crate::q8_kernels::signed_byte(b) == b || crate::q8_kernels::signed_byte(b) == b - 256,
        crate::q8_kernels::quant_values(quants).len() == quants.len(),
        crate::q8_kernels::encoded_values(encoded).len() == encoded.len(),
        0 <= i < quants.len() ==> crate::q8_kernels::quant_values(quants)[i] == quants[i],
        0 <= i < encoded.len() ==> crate::q8_kernels::encoded_values(encoded)[i]
            == crate::q8_kernels::signed_byte(encoded[i]),
{
}

/// Eight scales and eight minima of six bits each, in twelve bytes: the first four of either
/// in the lower six bits of bytes 0 to 3 and 4 to 7, the others by their lower four bits in
/// the two halves of bytes 8 to 11 and by their upper two bits on top of the first eight.
pub open spec fn packed_bits(scales: Seq<u8>, mins: Seq<u8>) -> Seq<u8> {
    Seq::new(
        12,
        |i: int|
            if i < 4 {
                (scales[i] + 64 * (scales[i + 4] / 16)) as u8
            } else if i < 8 {
                (mins[i - 4] + 64 * (mins[i] / 16)) as u8
            } else {
                (scales[i - 4] % 16 + 16 * (mins[i - 4] % 16)) as u8
            },
    )
}

/// Unpacking gives back the scales and minima that were packed.
pub proof fn unpacking_undoes_packing(scales: Seq<u8>, mins: Seq<u8>, g: int)
    requires
        scales.len() == 8,
        mins.len() == 8,
        forall|i: int| 0 <= i < 8 ==> #[trigger] scales[i] < 64,
        forall|i: int| 0 <= i < 8 ==> #[trigger] mins[i] < 64,
        0 <= g < 8,
    ensures
        crate::q4k_repack::group_scale(packed_bits(scales, mins), g) == scales[g],
        crate::q4k_repack::group_min(packed_bits(scales, mins), g) == mins[g],
{
    let bytes = packed_bits(scales, mins);
    if g < 4 {
        assert(scales[g] < 64 && scales[g + 4] < 64 && mins[g] < 64 && mins[g + 4] < 64);
        lemma_six_bits(scales[g], scales[g + 4]);
        lemma_six_bits(mins[g], mins[g + 4]);
    } else {
        assert(scales[g - 4] < 64 && scales[g] < 64 && mins[g - 4] < 64 && mins[g] < 64);
        lemma_six_bits(scales[g - 4], scales[g]);
        lemma_six_bits(mins[g - 4], mins[g]);
        lemma_two_nibbles(scales[g], mins[g]);
    }
}

proof fn lemma_six_bits(low: u8, high: u8)
    requires
        low < 64,
        high < 64,
    ensures
        ({
            let x = (low + 64 * (high / 16)) as u8;
            x % 64 == low && x / 64 == high / 16 && x == low + 64 * (high / 16)
        }),
{
    let q = high / 16;
    assert(q < 4);
    let x = (low + 64 * q) as u8;
    assert(x == low + 64 * q);
}

proof fn lemma_two_nibbles(low: u8, high: u8)
    requires
        low < 64,
        high < 64,
    ensures
        ({
            let x = (low % 16 + 16 * (high % 16)) as u8;
            &&& (x % 16 + 16 * (low / 16)) as u8 == low
            &&& (x / 16 + 16 * (high / 16)) as u8 == high
        }),
{
    let a = low % 16;
    let b = high % 16;
    let x = (a + 16 * b) as u8;
    assert(x == a + 16 * b);
    assert(x % 16 == a && x / 16 == b);
}

/// A packed block holds the superblocks of its eight rows, value by value: of row `r` the
/// two scales as they stand on the wire, lower byte first; for each group `g` the unpacked
/// scale and minimum of the row; and of its 128 nibble bytes, four at a time in turn with
/// the other rows, byte `4 * q + b` at `32 * q + 4 * r + b`.
pub proof fn packed_blocks_hold_their_rows(
    block: Q4KPackedBlock8,
    wire: Seq<u8>,
    superblocks: int,
    group: int,
    sb: int,
    r: int,
    g: int,
    q: int,
    b: int,
)
    requires
        crate::q4k_repack::packs(block, wire, superblocks, group, sb),
        0 <= r < 8,
        0 <= g < 8,
        0 <= q < 32,
        0 <= b < 4,
        0 <= group,
        0 <= sb < superblocks,
        wire.len() >= ((group * 8 + r) * superblocks + sb + 1) * 144,
    ensures
        ({
            let start = ((group * 8 + r) * superblocks + sb) * 144;
            let scales = wire.subrange(start + 4, start + 16);
            &&& block.d@[r] == wire[start] + 256 * wire[start + 1]
            &&& block.dmin@[r] == wire[start + 2] + 256 * wire[start + 3]
            &&& block.scales@[g]@[r] == crate::q4k_repack::group_scale(scales, g)
            &&& block.mins@[g]@[r] == crate::q4k_repack::group_min(scales, g)
            &&& block.qs@[32 * q + 4 * r + b] == wire[start + 16 + 4 * q + b]
            &&& block.qs@.len() == 1024
        }),
{
    let c = q / 8;
    let qc = q % 8;
    assert(crate::q4k_repack::packed_slot(r, c, qc, b) == 32 * q + 4 * r + b);
    assert(crate::q4k_repack::wire_slot(c, qc, b) == 16 + 4 * q + b);
    assert(block.d@[r] == block.d@[r] && block.dmin@[r] == block.dmin@[r]);
    assert(block.scales@[g]@[r] == block.scales@[g]@[r]);
    assert(block.mins@[g]@[r] == block.mins@[g]@[r]);
}

/// A greedy stream is as long as asked for, and each of its tokens is the model's own next
/// token after the context and the tokens before it.
pub proof fn greedy_streams_follow_the_model(
    model: spec_fn(Seq<u32>) -> u32,
    context: Seq<u32>,
    count: nat,
    i: int,
)
    requires
        0 <= i < count,
    ensures
        crate::lossless::greedy(model, context, count).len() == count,
        crate::lossless::greedy(model, context, count)[i] == model(
            context + crate::lossless::greedy(model, context, count).take(i),
        ),
    decreases count,
{
    let t = model(context);
    let rest = crate::lossless::greedy(model, context.push(t), (count - 1) as nat);
    let whole = crate::lossless::greedy(model, context, count);
    assert(whole =~= seq![t] + rest);
    if count == 1 {
        assert(rest =~= Seq::empty());
    } else {
        greedy_streams_follow_the_model(model, context.push(t), (count - 1) as nat, 0);
    }
    if i == 0 {
        assert(context + whole.take(0) =~= context);
    } else {
        greedy_streams_follow_the_model(model, context.push(t), (count - 1) as nat, i - 1);
        assert(context + whole.take(i) =~= context.push(t) + rest.take(i - 1));
    }
}

/// The stand-in model looks at the last three tokens of its context, and at nothing before
/// them; its tokens are below 17.
pub proof fn the_stand_in_looks_at_three_tokens(a: Seq<u32>, b: Seq<u32>)
    requires
        a.len() >= 3,
        b.len() >= 3,
        a[a.len() - 1] == b[b.len() - 1],
        a[a.len() - 2] == b[b.len() - 2],
        a[a.len() - 3] == b[b.len() - 3],
    ensures
        crate::lossless::oracle_token(a) == crate::lossless::oracle_token(b),
        crate::lossless::oracle_token(a) < 17,
        crate::lossless::oracle()(a) == crate::lossless::oracle_token(a),
        crate::lossless::oracle_token(Seq::empty()) == 0,
{
}

/// The stand-in model's token: its last three tokens, 7 and 13 in the place of missing ones,
/// each times a fixed odd number, added up within 64 bits, and the remainder by 17 of that.
pub proof fn the_stand_in_mixes_three_tokens(before: Seq<u32>, c: u32, b: u32, a: u32)
    ensures
        crate::lossless::oracle_token(before.push(c).push(b).push(a)) == (a
            * 11400714819323198485 + b * 14029467366897019727 + c * 1609587929392839161)
            % 18446744073709551616 % 17,
        crate::lossless::oracle_token(seq![b, a]) == (a * 11400714819323198485 + b
            * 14029467366897019727 + 13 * 1609587929392839161) % 18446744073709551616 % 17,
        crate::lossless::oracle_token(seq![a]) == (a * 11400714819323198485 + 7
            * 14029467366897019727 + 13 * 1609587929392839161) % 18446744073709551616 % 17,
{
}

} // verus!

//! Integer parts of the Q8_0 kernels, and a route between them.

use vstd::prelude::*;

verus! {

/// Values in a Q8_0 block.
pub const Q8_0_BLOCK_VALUES: usize = 32;

/// The sum of the first `n` products.
pub open spec fn dot(a: Seq<int>, b: Seq<int>, n: int) -> int
    decreases n,
{
    if n <= 0 {
        0
    } else {
        dot(a, b, n - 1) + a[n - 1] * b[n - 1]
    }
}

/// The values of signed quants.
pub open spec fn quant_values(quants: Seq<i8>) -> Seq<int> {
    quants.map_values(|q: i8| q as int)
}

/// The signed value that a byte encodes in two's complement.
pub open spec fn signed_byte(b: u8) -> int {
    if b < 128 {
        b as int
    } else {
        b - 256
    }
}

/// The values of encoded quants.
pub open spec fn encoded_values(quants: Seq<u8>) -> Seq<int> {
    quants.map_values(|b: u8| signed_byte(b))
}

proof fn lemma_product_bound(w: i8, x: i8)
    ensures
        -16384 <= w * x <= 16384,
{
    assert(-16384 <= w * x <= 16384) by (nonlinear_arith)
        requires
            -128 <= w <= 127,
            -128 <= x <= 127,
    ;
}

/// The dot product of the quants of two blocks.
pub fn q8_0_block_int_dot_horizontal_sum(weight: &[i8; 32], input: &[i8; 32]) -> (sum: i32)
    ensures
        sum == dot(quant_values(weight@), quant_values(input@), Q8_0_BLOCK_VALUES as int),
        sum == dot(quant_values(weight@), quant_values(input@), 32),
{
    let mut sum: i32 = 0;
    let mut i: usize = 0;
    while i < Q8_0_BLOCK_VALUES
        invariant
            i <= Q8_0_BLOCK_VALUES,
            weight@.len() == 32,
            input@.len() == 32,
            -16384 * i <= sum <= 16384 * i,
            sum == dot(quant_values(weight@), quant_values(input@), i as int),
        decreases Q8_0_BLOCK_VALUES - i,
    {
        let w: i8 = weight[i];
        let x: i8 = input[i];
        proof {
            lemma_product_bound(w, x);
        }
        sum = sum + (w as i32) * (x as i32);
        i = i + 1;
    }
    sum
}

/// The signed value that a byte encodes.
fn decode_quant(b: u8) -> (q: i8)
    ensures
        q == signed_byte(b),
{
    if b < 128 {
        b as i8
    } else {
        ((b as i16) - 256) as i8
    }
}

/// The dot product of encoded quants with the quants of a block.
pub fn q8_0_block_int_dot_horizontal_sum_encoded(weight: &[u8; 32], input: &[i8; 32]) -> (sum: i32)
    ensures
        sum == dot(encoded_values(weight@), quant_values(input@), Q8_0_BLOCK_VALUES as int),
        sum == dot(encoded_values(weight@), quant_values(input@), 32),
{
    let mut sum: i32 = 0;
    let mut i: usize = 0;
    while i < Q8_0_BLOCK_VALUES
        invariant
            i <= Q8_0_BLOCK_VALUES,
            weight@.len() == 32,
            input@.len() == 32,
            -16384 * i <= sum <= 16384 * i,
            sum == dot(encoded_values(weight@), quant_values(input@), i as int),
        decreases Q8_0_BLOCK_VALUES - i,
    {
        let w: i8 = decode_quant(weight[i]);
        let x: i8 = input[i];
        proof {
            lemma_product_bound(w, x);
        }
        sum = sum + (w as i32) * (x as i32);
        i = i + 1;
    }
    sum
}

/// Encoded quants have the dot product of the quants that they encode.
pub proof fn encoding_keeps_the_dot_product(encoded: Seq<u8>, quants: Seq<i8>, input: Seq<i8>)
    requires
        encoded.len() == quants.len(),
        forall|i: int| 0 <= i < quants.len() ==> signed_byte(#[trigger] encoded[i]) == quants[i],
    ensures
        encoded_values(encoded) == quant_values(quants),
        dot(encoded_values(encoded), quant_values(input), quants.len() as int) == dot(
            quant_values(quants),
            quant_values(input),
            quants.len() as int,
        ),
{
    assert(encoded_values(encoded) =~= quant_values(quants));
}

/// Whether a batch of `rows` rows of a feed-forward input projection goes to the tiled
/// kernel: small batches that fill at least one tile of four rows do. Fewer rows and
/// large chunks have kernels of their own.
pub fn x86_q8_ffn_gate_up_small_batch_prefers_owner(rows: usize) -> (prefers: bool)
    ensures
        prefers == (4 <= rows <= 16),
{
    4 <= rows && rows <= 16
}

} // verus!

//! Integer kernels, their routing and the repacking of Q4_K weights.

use camelid::q4k_repack::{q4_k_unpack_kmask_scales, Q4KPackedRows8};
use camelid::q8_kernels::{
    q8_0_block_int_dot_horizontal_sum, q8_0_block_int_dot_horizontal_sum_encoded,
    x86_q8_ffn_gate_up_small_batch_prefers_owner, Q8_0_BLOCK_VALUES,
};

#[test]
fn x86_q8_ffn_gate_up_small_batch_owner_predicate_boundaries() {
    assert!(!x86_q8_ffn_gate_up_small_batch_prefers_owner(0));
    assert!(!x86_q8_ffn_gate_up_small_batch_prefers_owner(1));
    // 2..=3 rows do not fill a tile.
    assert!(!x86_q8_ffn_gate_up_small_batch_prefers_owner(2));
    assert!(!x86_q8_ffn_gate_up_small_batch_prefers_owner(3));
    assert!(x86_q8_ffn_gate_up_small_batch_prefers_owner(4));
    assert!(x86_q8_ffn_gate_up_small_batch_prefers_owner(8));
    assert!(x86_q8_ffn_gate_up_small_batch_prefers_owner(16));
    assert!(!x86_q8_ffn_gate_up_small_batch_prefers_owner(17));
    assert!(!x86_q8_ffn_gate_up_small_batch_prefers_owner(512));
}

#[test]
fn q8_0_horizontal_sum_matches_linear_int_sum() {
    let weight = std::array::from_fn(|idx| (idx as i8).wrapping_mul(7).wrapping_sub(111));
    let input = std::array::from_fn(|idx| (idx as i8).wrapping_mul(5).wrapping_add(97));
    let linear_sum: i32 = weight
        .iter()
        .zip(input.iter())
        .map(|(w, x)| i32::from(*w) * i32::from(*x))
        .sum();

    assert_eq!(
        q8_0_block_int_dot_horizontal_sum(&weight, &input),
        linear_sum
    );
}

#[test]
fn q8_0_encoded_horizontal_sum_matches_linear_int_sum() {
    let weight: [i8; Q8_0_BLOCK_VALUES] =
        std::array::from_fn(|idx| (idx as i8).wrapping_mul(7).wrapping_sub(111));
    let input: [i8; Q8_0_BLOCK_VALUES] =
        std::array::from_fn(|idx| (idx as i8).wrapping_mul(5).wrapping_add(97));
    let encoded_weight = weight.map(|quant| quant as u8);
    let linear_sum: i32 = weight
        .iter()
        .zip(input.iter())
        .map(|(w, x)| i32::from(*w) * i32::from(*x))
        .sum();

    assert_eq!(
        q8_0_block_int_dot_horizontal_sum_encoded(&encoded_weight, &input),
        linear_sum
    );
}

#[test]
fn q4_k_repack8_round_trip_matches_wire() {
    let rows = 16usize;
    let superblocks = 2usize;
    let row_bytes = superblocks * 144;
    let wire: Vec<u8> = (0..rows * row_bytes)
        .map(|i| ((i as u32).wrapping_mul(2_654_435_761) >> 24) as u8)
        .collect();
    let pack = Q4KPackedRows8::from_q4_k_wire(rows, superblocks, &wire).unwrap();
    for row_group in 0..rows / 8 {
        for sb in 0..superblocks {
            let gb = &pack.blocks[row_group * superblocks + sb];
            for r in 0..8 {
                let src = ((row_group * 8 + r) * superblocks + sb) * 144;
                let d = u16::from_le_bytes([wire[src], wire[src + 1]]);
                let dmin = u16::from_le_bytes([wire[src + 2], wire[src + 3]]);
                assert_eq!(gb.d[r], d);
                assert_eq!(gb.dmin[r], dmin);
                let (scales, mins) =
                    q4_k_unpack_kmask_scales(&wire[src + 4..src + 16]);
                for g in 0..8 {
                    assert_eq!(gb.scales[g][r], scales[g]);
                    assert_eq!(gb.mins[g][r], mins[g]);
                }
                for c in 0..4 {
                    for qc in 0..8 {
                        for b in 0..4 {
                            assert_eq!(
                                gb.qs[c * 256 + qc * 32 + r * 4 + b],
                                wire[src + 16 + c * 32 + qc * 4 + b],
                                "nibble byte mismatch (r={r}, c={c}, qc={qc}, b={b})"
                            );
                        }
                    }
                }
            }
        }
    }
}

#[test]
fn q4_k_packing_needs_whole_groups_and_all_bytes() {
    let wire = vec![0u8; 8 * 144];
    assert!(Q4KPackedRows8::from_q4_k_wire(8, 1, &wire).is_some());
    assert!(Q4KPackedRows8::from_q4_k_wire(8, 2, &wire).is_none());
    assert!(Q4KPackedRows8::from_q4_k_wire(4, 2, &wire).is_none());
    assert!(Q4KPackedRows8::from_q4_k_wire(usize::MAX - 7, usize::MAX, &wire).is_none());
    assert_eq!(
        Q4KPackedRows8::from_q4_k_wire(0, 3, &[]).unwrap().blocks.len(),
        0
    );
}

#[test]
fn group_scales_take_their_high_bits_from_the_first_bytes() {
    let mut bytes = [0u8; 12];
    bytes[1] = 0b1011_0101;
    bytes[5] = 0b0111_0001;
    bytes[9] = 0b1100_0110;
    let (scales, mins) = q4_k_unpack_kmask_scales(&bytes);
    assert_eq!(scales[1], 0b11_0101);
    assert_eq!(mins[1], 0b11_0001);
    assert_eq!(scales[5], 0b10_0110);
    assert_eq!(mins[5], 0b01_1100);
}

#[test]
fn extreme_quants() {
    let low = [-128i8; 32];
    let high = [127i8; 32];
    assert_eq!(q8_0_block_int_dot_horizontal_sum(&low, &low), 32 * 16_384);
    assert_eq!(
        q8_0_block_int_dot_horizontal_sum(&low, &high),
        -32 * 128 * 127
    );
    assert_eq!(
        q8_0_block_int_dot_horizontal_sum_encoded(&[0x80; 32], &high),
        -32 * 128 * 127
    );
}

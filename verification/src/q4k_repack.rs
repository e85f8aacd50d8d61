//! Repacking of Q4_K weights: the superblocks of eight rows interleaved, so that a
//! kernel reads the same column of all eight at once.

use vstd::prelude::*;

verus! {

/// Bytes of a superblock on the wire: two 16-bit scales, twelve bytes of packed
/// 6-bit group scales and minima, and 128 bytes of nibbles.
pub const Q4_K_WIRE_BYTES: usize = 144;

/// Rows in a packed group.
pub const PACK_ROWS: usize = 8;

/// Nibble bytes in a packed block.
pub const PACKED_NIBBLE_BYTES: usize = 1024;

/// The scale of group `g` in twelve packed bytes.
pub open spec fn group_scale(bytes: Seq<u8>, g: int) -> u8 {
    if g < 4 {
        (bytes[g] % 64) as u8
    } else {
        (bytes[g + 4] % 16 + 16 * (bytes[g - 4] / 64)) as u8
    }
}

/// The minimum of group `g` in twelve packed bytes.
pub open spec fn group_min(bytes: Seq<u8>, g: int) -> u8 {
    if g < 4 {
        (bytes[g + 4] % 64) as u8
    } else {
        (bytes[g + 4] / 16 + 16 * (bytes[g] / 64)) as u8
    }
}

/// The scales and minima of the eight groups of a superblock.
pub fn q4_k_unpack_kmask_scales(bytes: &[u8]) -> (unpacked: (Vec<u8>, Vec<u8>))
    requires
        bytes@.len() == 12,
    ensures
        unpacked.0@ == Seq::new(8, |g: int| group_scale(bytes@, g)),
        unpacked.1@ == Seq::new(8, |g: int| group_min(bytes@, g)),
{
    let mut scales: Vec<u8> = Vec::new();
    let mut mins: Vec<u8> = Vec::new();
    let mut g: usize = 0;
    while g < 8
        invariant
            g <= 8,
            bytes@.len() == 12,
            scales@ =~= Seq::new(g as nat, |k: int| group_scale(bytes@, k)),
            mins@ =~= Seq::new(g as nat, |k: int| group_min(bytes@, k)),
        decreases 8 - g,
    {
        if g < 4 {
            scales.push(bytes[g] % 64);
            mins.push(bytes[g + 4] % 64);
        } else {
            scales.push(bytes[g + 4] % 16 + 16 * (bytes[g - 4] / 64));
            mins.push(bytes[g + 4] / 16 + 16 * (bytes[g] / 64));
        }
        g = g + 1;
    }
    (scales, mins)
}

/// The superblocks of eight rows. `d` and `dmin` are half-precision bits.
#[derive(Debug, Clone, PartialEq, Eq)]
pub struct Q4KPackedBlock8 {
    pub d: Vec<u16>,
    pub dmin: Vec<u16>,
    pub scales: Vec<Vec<u8>>,
    pub mins: Vec<Vec<u8>>,
    pub qs: Vec<u8>,
}

/// The packed rows of a weight: for each group of eight rows, its superblocks.
#[derive(Debug, Clone, PartialEq, Eq)]
pub struct Q4KPackedRows8 {
    pub blocks: Vec<Q4KPackedBlock8>,
}

/// A little-endian 16-bit number.
pub open spec fn half_bits(wire: Seq<u8>, at: int) -> u16 {
    (wire[at] + 256 * wire[at + 1]) as u16
}

/// Where superblock `sb` of row `r` of group `group` starts on the wire.
pub open spec fn wire_start(superblocks: int, group: int, sb: int, r: int) -> int {
    ((group * 8 + r) * superblocks + sb) * 144
}

/// Where nibble byte `b` of column `qc` of chunk `c` of row `r` stands in a packed
/// block.
pub open spec fn packed_slot(r: int, c: int, qc: int, b: int) -> int {
    c * 256 + qc * 32 + r * 4 + b
}

/// The same nibble byte within its superblock on the wire.
pub open spec fn wire_slot(c: int, qc: int, b: int) -> int {
    16 + c * 32 + qc * 4 + b
}

/// `block` holds superblock `sb` of the eight rows of `group`.
pub open spec fn packs(
    block: Q4KPackedBlock8,
    wire: Seq<u8>,
    superblocks: int,
    group: int,
    sb: int,
) -> bool {
    &&& block.d@.len() == 8
    &&& block.dmin@.len() == 8
    &&& block.scales@.len() == 8
    &&& block.mins@.len() == 8
    &&& block.qs@.len() == 1024
    &&& forall|r: int|
        #![trigger block.d@[r]]
        0 <= r < 8 ==> block.d@[r] == half_bits(wire, wire_start(superblocks, group, sb, r))
    &&& forall|r: int|
        #![trigger block.dmin@[r]]
        0 <= r < 8 ==> block.dmin@[r] == half_bits(
            wire,
            wire_start(superblocks, group, sb, r) + 2,
        )
    &&& forall|g: int|
        #![trigger block.scales@[g]]
        0 <= g < 8 ==> block.scales@[g]@ == Seq::new(
            8,
            |r: int| group_scale(packed_scales(wire, wire_start(superblocks, group, sb, r)), g),
        )
    &&& forall|g: int|
        #![trigger block.mins@[g]]
        0 <= g < 8 ==> block.mins@[g]@ == Seq::new(
            8,
            |r: int| group_min(packed_scales(wire, wire_start(superblocks, group, sb, r)), g),
        )
    &&& forall|r: int, c: int, qc: int, b: int|
        0 <= r < 8 && 0 <= c < 4 && 0 <= qc < 8 && 0 <= b < 4 ==> block.qs@[#[trigger] packed_slot(
            r,
            c,
            qc,
            b,
        )] == wire[wire_start(superblocks, group, sb, r) + wire_slot(c, qc, b)]
}

/// The packed scales and minima of a superblock.
pub open spec fn packed_scales(wire: Seq<u8>, start: int) -> Seq<u8> {
    wire.subrange(start + 4, start + 16)
}

/// The nibble bytes of a packed block are those of its eight superblocks in another
/// order: each byte has one place, within the block, and no two share one.
pub proof fn nibbles_are_permuted(
    r: int,
    c: int,
    qc: int,
    b: int,
    r2: int,
    c2: int,
    qc2: int,
    b2: int,
)
    requires
        0 <= r < 8 && 0 <= c < 4 && 0 <= qc < 8 && 0 <= b < 4,
        0 <= r2 < 8 && 0 <= c2 < 4 && 0 <= qc2 < 8 && 0 <= b2 < 4,
    ensures
        0 <= packed_slot(r, c, qc, b) < 1024,
        16 <= wire_slot(c, qc, b) < 144,
        packed_slot(r, c, qc, b) == packed_slot(r2, c2, qc2, b2) ==> r == r2 && c == c2 && qc
            == qc2 && b == b2,
        wire_slot(c, qc, b) == wire_slot(c2, qc2, b2) ==> c == c2 && qc == qc2 && b == b2,
{
}

proof fn lemma_wire_bounds(rows: int, superblocks: int, group: int, sb: int, r: int)
    requires
        0 <= group < rows / 8,
        0 <= sb < superblocks,
        0 <= r < 8,
    ensures
        0 <= wire_start(superblocks, group, sb, r),
        wire_start(superblocks, group, sb, r) + 144 <= rows * superblocks * 144,
{
    let row = group * 8 + r;
    assert(0 <= row < rows);
    assert(0 <= row * superblocks && row * superblocks + superblocks <= rows * superblocks)
        by (nonlinear_arith)
        requires
            0 <= row < rows,
            0 <= superblocks,
    ;
    assert(rows * superblocks * 144 == 144 * (rows * superblocks)) by (nonlinear_arith);
}

/// A little-endian 16-bit number.
fn read_half(wire: &[u8], at: usize) -> (bits: u16)
    requires
        at + 1 < wire@.len(),
    ensures
        bits == half_bits(wire@, at as int),
{
    wire[at] as u16 + 256 * (wire[at + 1] as u16)
}

/// Where each of the eight superblocks of a packed block starts on the wire.
fn wire_starts(
    wire: &[u8],
    rows: usize,
    superblocks: usize,
    group: usize,
    sb: usize,
) -> (starts: Vec<usize>)
    requires
        group < rows / 8,
        sb < superblocks,
        wire@.len() == rows * superblocks * 144,
    ensures
        starts@.len() == 8,
        forall|r: int|
            0 <= r < 8 ==> #[trigger] starts@[r] == wire_start(
                superblocks as int,
                group as int,
                sb as int,
                r,
            ) && starts@[r] + 144 <= wire@.len(),
{
    let total: usize = wire.len();
    let mut starts: Vec<usize> = Vec::new();
    let mut r: usize = 0;
    while r < 8
        invariant
            r <= 8,
            group < rows / 8,
            sb < superblocks,
            total == wire@.len(),
            wire@.len() == rows * superblocks * 144,
            starts@.len() == r,
            forall|k: int|
                0 <= k < r ==> #[trigger] starts@[k] == wire_start(
                    superblocks as int,
                    group as int,
                    sb as int,
                    k,
                ) && starts@[k] + 144 <= wire@.len(),
        decreases 8 - r,
    {
        proof {
            lemma_wire_bounds(
                rows as int,
                superblocks as int,
                group as int,
                sb as int,
                r as int,
            );
            let row = group * 8 + r;
            assert(0 <= row * superblocks <= (row * superblocks + sb) * 144) by (nonlinear_arith)
                requires
                    0 <= row,
                    0 <= superblocks,
                    0 <= sb,
            ;
        }
        starts.push(((group * 8 + r) * superblocks + sb) * 144);
        r = r + 1;
    }
    starts
}

/// Packs superblock `sb` of the eight rows of `group`.
fn pack_block(
    wire: &[u8],
    rows: usize,
    superblocks: usize,
    group: usize,
    sb: usize,
) -> (block: Q4KPackedBlock8)
    requires
        group < rows / 8,
        sb < superblocks,
        wire@.len() == rows * superblocks * 144,
    ensures
        packs(block, wire@, superblocks as int, group as int, sb as int),
{
    let starts: Vec<usize> = wire_starts(wire, rows, superblocks, group, sb);
    let total: usize = wire.len();
    let ghost n = superblocks as int;
    let ghost gr = group as int;
    let ghost s = sb as int;
    let mut d: Vec<u16> = Vec::new();
    let mut dmin: Vec<u16> = Vec::new();
    let mut row_scales: Vec<Vec<u8>> = Vec::new();
    let mut row_mins: Vec<Vec<u8>> = Vec::new();
    let mut r: usize = 0;
    while r < 8
        invariant
            r <= 8,
            total == wire@.len(),
            starts@.len() == 8,
            forall|k: int|
                0 <= k < 8 ==> #[trigger] starts@[k] == wire_start(n, gr, s, k) && starts@[k] + 144
                    <= wire@.len(),
            d@.len() == r,
            dmin@.len() == r,
            row_scales@.len() == r,
            row_mins@.len() == r,
            forall|k: int|
                0 <= k < r ==> #[trigger] d@[k] == half_bits(wire@, wire_start(n, gr, s, k)),
            forall|k: int|
                0 <= k < r ==> #[trigger] dmin@[k] == half_bits(
                    wire@,
                    wire_start(n, gr, s, k) + 2,
                ),
            forall|k: int|
                0 <= k < r ==> (#[trigger] row_scales@[k])@ == Seq::new(
                    8,
                    |g: int| group_scale(packed_scales(wire@, wire_start(n, gr, s, k)), g),
                ),
            forall|k: int|
                0 <= k < r ==> (#[trigger] row_mins@[k])@ == Seq::new(
                    8,
                    |g: int| group_min(packed_scales(wire@, wire_start(n, gr, s, k)), g),
                ),
        decreases 8 - r,
    {
        let at: usize = starts[r];
        d.push(read_half(wire, at));
        dmin.push(read_half(wire, at + 2));
        let bytes: &[u8] = vstd::slice::slice_subrange(wire, at + 4, at + 16);
        let (scales, mins): (Vec<u8>, Vec<u8>) = q4_k_unpack_kmask_scales(bytes);
        row_scales.push(scales);
        row_mins.push(mins);
        r = r + 1;
    }
    let scales: Vec<Vec<u8>> = transpose8(&row_scales);
    let mins: Vec<Vec<u8>> = transpose8(&row_mins);
    let mut qs: Vec<u8> = Vec::new();
    let mut i: usize = 0;
    while i < PACKED_NIBBLE_BYTES
        invariant
            i <= PACKED_NIBBLE_BYTES,
            total == wire@.len(),
            starts@.len() == 8,
            forall|k: int|
                0 <= k < 8 ==> #[trigger] starts@[k] == wire_start(n, gr, s, k) && starts@[k] + 144
                    <= wire@.len(),
            qs@.len() == i,
            forall|k: int|
                0 <= k < i ==> #[trigger] qs@[k] == wire@[wire_start(n, gr, s, (k % 32) / 4)
                    + wire_slot(k / 256, (k % 256) / 32, k % 4)],
        decreases PACKED_NIBBLE_BYTES - i,
    {
        let c: usize = i / 256;
        let qc: usize = (i % 256) / 32;
        let r: usize = (i % 32) / 4;
        let b: usize = i % 4;
        assert(starts@[r as int] + 144 <= wire@.len());
        qs.push(wire[starts[r] + 16 + c * 32 + qc * 4 + b]);
        i = i + 1;
    }
    let block = Q4KPackedBlock8 { d, dmin, scales, mins, qs };
    proof {
        assert forall|r: int, c: int, qc: int, b: int|
            0 <= r < 8 && 0 <= c < 4 && 0 <= qc < 8 && 0 <= b < 4 implies
            block.qs@[#[trigger] packed_slot(r, c, qc, b)] == wire@[wire_start(n, gr, s, r)
            + wire_slot(c, qc, b)] by {
            let k = packed_slot(r, c, qc, b);
            assert(k / 256 == c && (k % 256) / 32 == qc && (k % 32) / 4 == r && k % 4 == b);
        }
        assert forall|g: int| 0 <= g < 8 implies (#[trigger] block.scales@[g])@ == Seq::new(
            8,
            |r: int| group_scale(packed_scales(wire@, wire_start(n, gr, s, r)), g),
        ) by {
            assert(block.scales@[g]@ =~= Seq::new(
                8,
                |r: int| group_scale(packed_scales(wire@, wire_start(n, gr, s, r)), g),
            )) by {
                assert forall|r: int| 0 <= r < 8 implies block.scales@[g]@[r] == group_scale(
                    packed_scales(wire@, wire_start(n, gr, s, r)),
                    g,
                ) by {
                    assert(block.scales@[g]@[r] == row_scales@[r]@[g]);
                }
            }
        }
        assert forall|g: int| 0 <= g < 8 implies (#[trigger] block.mins@[g])@ == Seq::new(
            8,
            |r: int| group_min(packed_scales(wire@, wire_start(n, gr, s, r)), g),
        ) by {
            assert(block.mins@[g]@ =~= Seq::new(
                8,
                |r: int| group_min(packed_scales(wire@, wire_start(n, gr, s, r)), g),
            )) by {
                assert forall|r: int| 0 <= r < 8 implies block.mins@[g]@[r] == group_min(
                    packed_scales(wire@, wire_start(n, gr, s, r)),
                    g,
                ) by {
                    assert(block.mins@[g]@[r] == row_mins@[r]@[g]);
                }
            }
        }
    }
    block
}

/// Rows and columns of an eight by eight table exchanged.
fn transpose8(table: &Vec<Vec<u8>>) -> (flipped: Vec<Vec<u8>>)
    requires
        table@.len() == 8,
        forall|r: int| 0 <= r < 8 ==> (#[trigger] table@[r])@.len() == 8,
    ensures
        flipped@.len() == 8,
        forall|g: int| 0 <= g < 8 ==> (#[trigger] flipped@[g])@.len() == 8,
        forall|g: int, r: int|
            0 <= g < 8 && 0 <= r < 8 ==> #[trigger] flipped@[g]@[r] == table@[r]@[g],
{
    let mut flipped: Vec<Vec<u8>> = Vec::new();
    let mut g: usize = 0;
    while g < 8
        invariant
            g <= 8,
            table@.len() == 8,
            forall|r: int| 0 <= r < 8 ==> (#[trigger] table@[r])@.len() == 8,
            flipped@.len() == g,
            forall|k: int| 0 <= k < g ==> (#[trigger] flipped@[k])@.len() == 8,
            forall|k: int, r: int|
                0 <= k < g && 0 <= r < 8 ==> #[trigger] flipped@[k]@[r] == table@[r]@[k],
        decreases 8 - g,
    {
        let mut column: Vec<u8> = Vec::new();
        let mut r: usize = 0;
        while r < 8
            invariant
                r <= 8,
                g < 8,
                table@.len() == 8,
                forall|k: int| 0 <= k < 8 ==> (#[trigger] table@[k])@.len() == 8,
                column@.len() == r,
                forall|k: int| 0 <= k < r ==> #[trigger] column@[k] == table@[k]@[g as int],
            decreases 8 - r,
        {
            column.push(table[r][g]);
            r = r + 1;
        }
        flipped.push(column);
        g = g + 1;
    }
    flipped
}

impl Q4KPackedRows8 {
    /// Packs `rows` rows of `superblocks` superblocks each. `None` where the rows do
    /// not make whole groups, or the wire has not as many bytes as they take.
    pub fn from_q4_k_wire(rows: usize, superblocks: usize, wire: &[u8]) -> (packed: Option<Self>)
        ensures
            packed is Some == (rows % 8 == 0 && wire@.len() == rows * superblocks * 144),
            packed matches Some(p) ==> {
                &&& p.blocks@.len() == rows / 8 * superblocks
                &&& forall|group: int, sb: int|
                    0 <= group < rows / 8 && 0 <= sb < superblocks ==> packs(
                        #[trigger] p.blocks@[group * superblocks + sb],
                        wire@,
                        superblocks as int,
                        group,
                        sb,
                    )
            },
    {
        if rows % PACK_ROWS != 0 {
            return None;
        }
        let total: usize = wire.len();
        let cells: usize = match rows.checked_mul(superblocks) {
            Some(cells) => cells,
            None => {
                return None;
            },
        };
        match cells.checked_mul(Q4_K_WIRE_BYTES) {
            Some(bytes) => {
                if bytes != total {
                    return None;
                }
            },
            None => {
                return None;
            },
        }
        let mut blocks: Vec<Q4KPackedBlock8> = Vec::new();
        let mut group: usize = 0;
        while group < rows / 8
            invariant
                group <= rows / 8,
                wire@.len() == rows * superblocks * 144,
                blocks@.len() == group * superblocks,
                forall|g: int, s: int|
                    0 <= g < group && 0 <= s < superblocks ==> packs(
                        #[trigger] blocks@[g * superblocks + s],
                        wire@,
                        superblocks as int,
                        g,
                        s,
                    ),
            decreases rows / 8 - group,
        {
            let mut sb: usize = 0;
            while sb < superblocks
                invariant
                    group < rows / 8,
                    sb <= superblocks,
                    wire@.len() == rows * superblocks * 144,
                    blocks@.len() == group * superblocks + sb,
                    forall|g: int, s: int|
                        0 <= g < group && 0 <= s < superblocks ==> packs(
                            #[trigger] blocks@[g * superblocks + s],
                            wire@,
                            superblocks as int,
                            g,
                            s,
                        ),
                    forall|s: int|
                        0 <= s < sb ==> packs(
                            #[trigger] blocks@[group * superblocks + s],
                            wire@,
                            superblocks as int,
                            group as int,
                            s,
                        ),
                decreases superblocks - sb,
            {
                let ghost before = blocks@;
                let block: Q4KPackedBlock8 = pack_block(wire, rows, superblocks, group, sb);
                blocks.push(block);
                proof {
                    assert forall|g: int, s: int| 0 <= g < group && 0 <= s < superblocks implies packs(
                        #[trigger] blocks@[g * superblocks + s],
                        wire@,
                        superblocks as int,
                        g,
                        s,
                    ) by {
                        assert(0 <= g * superblocks && g * superblocks + superblocks <= group
                            * superblocks) by (nonlinear_arith)
                            requires
                                0 <= g < group,
                                0 <= superblocks,
                        ;
                        assert(blocks@[g * superblocks + s] == before[g * superblocks + s]);
                    }
                    assert(0 <= group * superblocks) by (nonlinear_arith)
                        requires
                            0 <= group,
                            0 <= superblocks,
                    ;
                    assert forall|s: int| 0 <= s < sb + 1 implies packs(
                        #[trigger] blocks@[group * superblocks + s],
                        wire@,
                        superblocks as int,
                        group as int,
                        s,
                    ) by {
                        if s < sb {
                            assert(blocks@[group * superblocks + s] == before[group * superblocks
                                + s]);
                        }
                    }
                }
                sb = sb + 1;
            }
            proof {
                assert((group + 1) * superblocks == group * superblocks + superblocks)
                    by (nonlinear_arith);
            }
            group = group + 1;
        }
        Some(Q4KPackedRows8 { blocks })
    }
}

} // verus!

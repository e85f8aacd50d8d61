//! Head mapping of grouped-query attention, and which heads and positions an
//! attention trace samples.

use vstd::prelude::*;

verus! {

/// How query heads share key-value heads.
#[derive(Debug, Clone, Copy, PartialEq, Eq, Structural)]
pub enum GqaHeadMapping {
    /// Neighbouring query heads share one.
    Grouped,
    /// Query heads take turns.
    Modulo,
}

/// The number of heads or positions at the end that a trace always samples, and of
/// positions at the start.
pub const TRACE_EDGE: usize = 4;

/// The key-value head of a query head, where each of `kv_heads` serves `group`
/// query heads.
pub open spec fn kv_head_of(head: int, group: int, kv_heads: int, mapping: GqaHeadMapping) -> int {
    match mapping {
        GqaHeadMapping::Grouped => head / group,
        GqaHeadMapping::Modulo => head % kv_heads,
    }
}

/// The key-value head of a query head.
pub fn map_attention_head_to_kv_head(
    head: usize,
    group: usize,
    kv_heads: usize,
    mapping: GqaHeadMapping,
) -> (kv_head: usize)
    requires
        mapping is Grouped ==> group > 0,
        mapping is Modulo ==> kv_heads > 0,
    ensures
        kv_head == kv_head_of(head as int, group as int, kv_heads as int, mapping),
{
    match mapping {
        GqaHeadMapping::Grouped => head / group,
        GqaHeadMapping::Modulo => head % kv_heads,
    }
}

/// Every query head has a key-value head, and each key-value head serves `group`
/// query heads: head `k` of them is `k`-th in its group, or in its turn.
pub proof fn heads_share_evenly(
    group: int,
    kv_heads: int,
    mapping: GqaHeadMapping,
    kv_head: int,
    k: int,
)
    requires
        0 < group,
        0 < kv_heads,
        0 <= kv_head < kv_heads,
        0 <= k < group,
    ensures
        ({
            let head = match mapping {
                GqaHeadMapping::Grouped => kv_head * group + k,
                GqaHeadMapping::Modulo => k * kv_heads + kv_head,
            };
            0 <= head < group * kv_heads && kv_head_of(head, group, kv_heads, mapping) == kv_head
        }),
{
    match mapping {
        GqaHeadMapping::Grouped => {
            let head = kv_head * group + k;
            vstd::arithmetic::div_mod::lemma_fundamental_div_mod_converse(head, group, kv_head, k);
            assert(0 <= head < group * kv_heads) by (nonlinear_arith)
                requires
                    head == kv_head * group + k,
                    0 <= kv_head < kv_heads,
                    0 <= k < group,
            ;
        },
        GqaHeadMapping::Modulo => {
            let head = k * kv_heads + kv_head;
            vstd::arithmetic::div_mod::lemma_fundamental_div_mod_converse(
                head,
                kv_heads,
                k,
                kv_head,
            );
            assert(0 <= head < group * kv_heads) by (nonlinear_arith)
                requires
                    head == k * kv_heads + kv_head,
                    0 <= kv_head < kv_heads,
                    0 <= k < group,
            ;
        },
    }
}

/// The numbers below `n` that `keep` holds of, in order.
pub open spec fn kept(n: int, keep: spec_fn(int) -> bool) -> Seq<usize>
    decreases n,
{
    if n <= 0 {
        Seq::empty()
    } else if keep(n - 1) {
        kept(n - 1, keep).push((n - 1) as usize)
    } else {
        kept(n - 1, keep)
    }
}

/// A position is sampled at the start of the prompt and at the current end.
pub open spec fn position_sampled(n: int) -> spec_fn(int) -> bool {
    |p: int| p < TRACE_EDGE || p >= n - TRACE_EDGE
}

/// The sampled positions of the `n` positions so far: the first and the last few.
pub fn sampled_attention_trace_positions(n: usize) -> (positions: Vec<usize>)
    ensures
        positions@ == kept(n as int, position_sampled(n as int)),
{
    let mut positions: Vec<usize> = Vec::new();
    let mut p: usize = 0;
    while p < n
        invariant
            p <= n,
            positions@ == kept(p as int, position_sampled(n as int)),
        decreases n - p,
    {
        if p < TRACE_EDGE || n - p <= TRACE_EDGE {
            positions.push(p);
        }
        p = p + 1;
    }
    positions
}

/// A head is sampled where it is the first of its key-value head, and at the end.
pub open spec fn head_sampled(
    n: int,
    group: int,
    kv_heads: int,
    mapping: GqaHeadMapping,
) -> spec_fn(int) -> bool {
    |h: int| first_of_kv_head(h, group, kv_heads, mapping) || h >= n - TRACE_EDGE
}

/// No earlier query head has the same key-value head.
pub open spec fn first_of_kv_head(
    head: int,
    group: int,
    kv_heads: int,
    mapping: GqaHeadMapping,
) -> bool {
    forall|earlier: int|
        0 <= earlier < head ==> #[trigger] kv_head_of(earlier, group, kv_heads, mapping)
            != kv_head_of(head, group, kv_heads, mapping)
}

/// A query head is the first of its key-value head where it starts a group, or stands in
/// the first turn.
pub proof fn lemma_first_of_kv_head(head: int, group: int, kv_heads: int, mapping: GqaHeadMapping)
    requires
        0 <= head,
        mapping is Grouped ==> group > 0,
        mapping is Modulo ==> kv_heads > 0,
    ensures
        first_of_kv_head(head, group, kv_heads, mapping) == (match mapping {
            GqaHeadMapping::Grouped => head % group == 0,
            GqaHeadMapping::Modulo => head < kv_heads,
        }),
{
    match mapping {
        GqaHeadMapping::Grouped => {
            vstd::arithmetic::div_mod::lemma_fundamental_div_mod(head, group);
            let q = head / group;
            assert(group * q == q * group) by (nonlinear_arith);
            if head % group == 0 {
                assert forall|earlier: int| 0 <= earlier < head implies #[trigger] kv_head_of(
                    earlier,
                    group,
                    kv_heads,
                    mapping,
                ) != q by {
                    vstd::arithmetic::div_mod::lemma_fundamental_div_mod(earlier, group);
                    if earlier / group == q {
                        assert(group * (earlier / group) == group * q);
                    }
                }
            } else {
                let start = q * group;
                vstd::arithmetic::div_mod::lemma_fundamental_div_mod_converse(start, group, q, 0);
                assert(0 <= start) by (nonlinear_arith)
                    requires
                        start == q * group,
                        0 <= q,
                        0 < group,
                ;
                assert(kv_head_of(start, group, kv_heads, mapping) == q);
            }
        },
        GqaHeadMapping::Modulo => {
            if head < kv_heads {
                vstd::arithmetic::div_mod::lemma_small_mod(head as nat, kv_heads as nat);
                assert forall|earlier: int| 0 <= earlier < head implies #[trigger] kv_head_of(
                    earlier,
                    group,
                    kv_heads,
                    mapping,
                ) != head by {
                    vstd::arithmetic::div_mod::lemma_small_mod(earlier as nat, kv_heads as nat);
                }
            } else {
                let earlier = head - kv_heads;
                vstd::arithmetic::div_mod::lemma_mod_sub_multiples_vanish(head, kv_heads);
                assert(kv_head_of(earlier, group, kv_heads, mapping) == head % kv_heads);
            }
        },
    }
}

/// The sampled heads of `n` query heads: the first of each key-value head, and the
/// last few.
pub fn sampled_attention_trace_heads(
    n: usize,
    group: usize,
    kv_heads: usize,
    mapping: GqaHeadMapping,
) -> (heads: Vec<usize>)
    requires
        mapping is Grouped ==> group > 0,
        mapping is Modulo ==> kv_heads > 0,
    ensures
        heads@ == kept(
            n as int,
            head_sampled(n as int, group as int, kv_heads as int, mapping),
        ),
{
    let mut heads: Vec<usize> = Vec::new();
    let mut h: usize = 0;
    while h < n
        invariant
            h <= n,
            mapping is Grouped ==> group > 0,
            mapping is Modulo ==> kv_heads > 0,
            heads@ == kept(
                h as int,
                head_sampled(n as int, group as int, kv_heads as int, mapping),
            ),
        decreases n - h,
    {
        proof {
            lemma_first_of_kv_head(h as int, group as int, kv_heads as int, mapping);
        }
        let anchor: bool = match mapping {
            GqaHeadMapping::Grouped => h % group == 0,
            GqaHeadMapping::Modulo => h < kv_heads,
        };
        if anchor || n - h <= TRACE_EDGE {
            heads.push(h);
        }
        h = h + 1;
    }
    heads
}

} // verus!

//! The rotation that rotary position embedding applies to a row: which elements
//! form a pair, and that each pair is rotated once by the angle of its index.
//!
//! The arithmetic of the elements is the caller's: `angle` gives the rotation of
//! a pair at a position, `rotate` applies it to the two elements of a pair.

use vstd::prelude::*;

use crate::rope::{RopeDirection, RopePairing, RopeParams};

verus! {

/// How a row splits into heads, and a head into pairs. A head has `head_dim`
/// elements, of which the first `rope_dim` rotate.
#[derive(Debug, Clone, Copy, PartialEq, Eq, Structural)]
pub struct RopeShape {
    pub head_count: usize,
    pub head_dim: usize,
    pub rope_dim: usize,
    pub pairing: RopePairing,
}

impl RopeShape {
    /// A head has pairs to rotate, and a row can be indexed.
    pub open spec fn wf(self) -> bool {
        &&& 0 < self.rope_dim <= self.head_dim
        &&& self.rope_dim % 2 == 0
        &&& self.head_count * self.head_dim <= usize::MAX
    }

    /// Elements of a row.
    pub open spec fn width(self) -> int {
        self.head_count * self.head_dim
    }

    /// Pairs of a head.
    pub open spec fn pairs(self) -> int {
        self.rope_dim as int / 2
    }

    /// The two elements of a pair: neighbours, or half the rotated elements apart.
    pub open spec fn pair_dims(self, head: int, pair: int) -> (int, int) {
        let start = head * self.head_dim;
        match self.pairing {
            RopePairing::AdjacentEvenOdd => (start + 2 * pair, start + 2 * pair + 1),
            RopePairing::SplitHalf => (start + pair, start + pair + self.pairs()),
        }
    }

    /// Element `i` of a row rotates.
    pub open spec fn rotates(self, i: int) -> bool {
        i % (self.head_dim as int) < self.rope_dim
    }

    /// The head that element `i` belongs to.
    pub open spec fn head_of(self, i: int) -> int {
        i / (self.head_dim as int)
    }

    /// The pair that the rotating element `i` belongs to.
    pub open spec fn pair_of(self, i: int) -> int {
        let within = i % (self.head_dim as int);
        match self.pairing {
            RopePairing::AdjacentEvenOdd => within / 2,
            RopePairing::SplitHalf => if within < self.pairs() {
                within
            } else {
                within - self.pairs()
            },
        }
    }
}

/// The elements of a pair lie in the row, differ, rotate, and belong to that head
/// and pair and to no other.
pub proof fn pairs_are_disjoint(shape: RopeShape, head: int, pair: int)
    requires
        shape.wf(),
        0 <= head < shape.head_count,
        0 <= pair < shape.pairs(),
    ensures
        ({
            let (d0, d1) = shape.pair_dims(head, pair);
            &&& 0 <= d0 < d1 < shape.width()
            &&& shape.rotates(d0) && shape.rotates(d1)
            &&& shape.head_of(d0) == head && shape.head_of(d1) == head
            &&& shape.pair_of(d0) == pair && shape.pair_of(d1) == pair
        }),
{
    let n = shape.head_dim as int;
    let (d0, d1) = shape.pair_dims(head, pair);
    let w0 = d0 - head * n;
    let w1 = d1 - head * n;
    assert(0 <= w0 < w1 < n);
    lemma_split(head, w0, n);
    lemma_split(head, w1, n);
    assert(0 <= head * n && head * n + n <= shape.head_count * n) by (nonlinear_arith)
        requires
            0 <= head < shape.head_count,
            n >= 0,
    ;
    assert(shape.head_count * n == shape.width()) by (nonlinear_arith)
        requires
            n == shape.head_dim,
            shape.width() == shape.head_count * shape.head_dim,
    ;
}

proof fn lemma_split(head: int, within: int, n: int)
    requires
        0 <= within < n,
    ensures
        (head * n + within) / n == head,
        (head * n + within) % n == within,
{
    vstd::arithmetic::div_mod::lemma_fundamental_div_mod_converse(
        head * n + within,
        n,
        head,
        within,
    );
}

/// Every element that rotates is one of the two of its pair.
pub proof fn pairs_cover_the_rotating_elements(shape: RopeShape, i: int)
    requires
        shape.wf(),
        0 <= i < shape.width(),
        shape.rotates(i),
    ensures
        0 <= shape.head_of(i) < shape.head_count,
        0 <= shape.pair_of(i) < shape.pairs(),
        i == shape.pair_dims(shape.head_of(i), shape.pair_of(i)).0 || i == shape.pair_dims(
            shape.head_of(i),
            shape.pair_of(i),
        ).1,
{
    let n = shape.head_dim as int;
    vstd::arithmetic::div_mod::lemma_fundamental_div_mod(i, n);
    assert(n * (i / n) == (i / n) * n) by (nonlinear_arith);
    assert(0 <= i / n < shape.head_count) by (nonlinear_arith)
        requires
            0 <= i < shape.head_count * n,
            n > 0,
            i == (i / n) * n + i % n,
            0 <= i % n < n,
    ;
}

/// `angle` can be called on everything.
pub open spec fn angle_total<A, F: Fn(RopeParams, usize, usize) -> A>(angle: F) -> bool {
    forall|params: RopeParams, effective: usize, pair: usize|
        call_requires(angle, (params, effective, pair))
}

/// `rotate` can be called on everything.
pub open spec fn rotate_total<T, A, R: Fn(RopeDirection, A, T, T) -> (T, T)>(rotate: R) -> bool {
    forall|direction: RopeDirection, a: A, x0: T, x1: T|
        call_requires(rotate, (direction, a, x0, x1))
}

/// The pair of one head holds after the rotation what `rotate` makes of it.
pub open spec fn head_rotated<T, A, R: Fn(RopeDirection, A, T, T) -> (T, T)>(
    params: RopeParams,
    rotate: R,
    a: A,
    head: int,
    pair: int,
    before: Seq<T>,
    after: Seq<T>,
) -> bool {
    let (d0, d1) = params.shape.pair_dims(head, pair);
    call_ensures(rotate, (params.direction, a, before[d0], before[d1]), (after[d0], after[d1]))
}

/// The pair is rotated in all heads, by one and the same angle.
pub open spec fn pair_rotated<T, A, F: Fn(RopeParams, usize, usize) -> A, R: Fn(RopeDirection, A, T, T) -> (T, T)>(
    params: RopeParams,
    angle: F,
    rotate: R,
    pair: int,
    before: Seq<T>,
    after: Seq<T>,
) -> bool {
    exists|a: A|
        #![trigger call_ensures(angle, (params, params.effective_position(), pair as usize), a)]
        call_ensures(angle, (params, params.effective_position(), pair as usize), a) && forall|head: int|
            0 <= head < params.shape.head_count ==> #[trigger] head_rotated(
                params,
                rotate,
                a,
                head,
                pair,
                before,
                after,
            )
}

/// `after` is the row `before` with every pair rotated once and every other
/// element unchanged.
pub open spec fn row_rotated<T, A, F: Fn(RopeParams, usize, usize) -> A, R: Fn(RopeDirection, A, T, T) -> (T, T)>(
    params: RopeParams,
    angle: F,
    rotate: R,
    before: Seq<T>,
    after: Seq<T>,
) -> bool {
    &&& before.len() == params.shape.width()
    &&& after.len() == params.shape.width()
    &&& forall|i: int|
        0 <= i < params.shape.width() && !params.shape.rotates(i) ==> #[trigger] after[i] == before[i]
    &&& forall|pair: int|
        0 <= pair < params.shape.pairs() ==> #[trigger] pair_rotated(
            params,
            angle,
            rotate,
            pair,
            before,
            after,
        )
}

/// Element `i` has been rotated once the loops over pairs and heads stand at
/// `pair` and `head`.
spec fn touched(shape: RopeShape, i: int, pair: int, head: int) -> bool {
    shape.rotates(i) && (shape.pair_of(i) < pair || (shape.pair_of(i) == pair && shape.head_of(i)
        < head))
}

/// The two elements of a pair.
fn pair_indices(shape: RopeShape, head: usize, pair: usize) -> (dims: (usize, usize))
    requires
        shape.wf(),
        head < shape.head_count,
        pair < shape.pairs(),
    ensures
        (dims.0 as int, dims.1 as int) == shape.pair_dims(head as int, pair as int),
        dims.0 < dims.1 < shape.width(),
{
    proof {
        pairs_are_disjoint(shape, head as int, pair as int);
        assert(0 <= head * shape.head_dim <= shape.head_count * shape.head_dim)
            by (nonlinear_arith)
            requires
                head < shape.head_count,
        ;
    }
    let start: usize = head * shape.head_dim;
    match shape.pairing {
        RopePairing::AdjacentEvenOdd => (start + pair * 2, start + pair * 2 + 1),
        RopePairing::SplitHalf => (start + pair, start + pair + shape.rope_dim / 2),
    }
}

/// Rotates the row that starts at `start`, for the position `effective`.
pub fn apply_rope_to_row<T: Copy, A: Copy, F: Fn(RopeParams, usize, usize) -> A, R: Fn(RopeDirection, A, T, T) -> (T, T)>(
    data: &mut [T],
    start: usize,
    position: usize,
    params: RopeParams,
    angle: &F,
    rotate: &R,
)
    requires
        params.shape.wf(),
        crate::rope::effective(params.position_mode, position as nat) <= usize::MAX,
        start + params.shape.width() <= old(data)@.len(),
        angle_total(*angle),
        rotate_total(*rotate),
    ensures
        final(data)@.len() == old(data)@.len(),
        row_rotated(
            params.at(position),
            *angle,
            *rotate,
            old(data)@.subrange(start as int, start + params.shape.width()),
            final(data)@.subrange(start as int, start + params.shape.width()),
        ),
        forall|i: int|
            0 <= i < start || start + params.shape.width() <= i < old(data)@.len()
                ==> #[trigger] final(data)@[i] == old(data)@[i],
{
    let params: RopeParams = RopeParams { position, ..params };
    let shape: RopeShape = params.shape;
    let effective: usize = params.position_mode.effective_position(position);
    let ghost whole = data@;
    let ghost end = start + shape.width();
    let ghost before = data@.subrange(start as int, end);
    let ghost mut angles: Seq<A> = Seq::empty();
    let half: usize = shape.rope_dim / 2;
    let n: usize = data.len();
    let mut pair: usize = 0;
    while pair < half
        invariant
            shape.wf(),
            half == shape.pairs(),
            pair <= half,
            n == data@.len(),
            data@.len() == whole.len(),
            end == start + shape.width(),
            end <= data@.len(),
            before == whole.subrange(start as int, end),
            shape == params.shape,
            effective == params.effective_position(),
            angle_total(*angle),
            rotate_total(*rotate),
            forall|i: int|
                0 <= i < start || end <= i < whole.len() ==> #[trigger] data@[i] == whole[i],
            forall|i: int|
                0 <= i < shape.width() && !touched(shape, i, pair as int, 0) ==> #[trigger] before[i]
                    == data@[start + i],
            angles.len() == pair,
            forall|p: int|
                0 <= p < pair ==> call_ensures(
                    *angle,
                    (params, effective, p as usize),
                    #[trigger] angles[p],
                ),
            forall|p: int, h: int|
                0 <= p < pair && 0 <= h < shape.head_count ==> #[trigger] head_rotated(
                    params,
                    *rotate,
                    angles[p],
                    h,
                    p,
                    before,
                    data@.subrange(start as int, end),
                ),
        decreases half - pair,
    {
        let a: A = angle(params, effective, pair);
        let mut head: usize = 0;
        while head < shape.head_count
            invariant
                shape.wf(),
                half == shape.pairs(),
                pair < half,
                head <= shape.head_count,
                n == data@.len(),
                data@.len() == whole.len(),
                end == start + shape.width(),
                end <= data@.len(),
                before == whole.subrange(start as int, end),
                shape == params.shape,
                rotate_total(*rotate),
                forall|i: int|
                    0 <= i < start || end <= i < whole.len() ==> #[trigger] data@[i] == whole[i],
                forall|i: int|
                    0 <= i < shape.width() && !touched(shape, i, pair as int, head as int)
                        ==> #[trigger] before[i] == data@[start + i],
                angles.len() == pair,
                forall|p: int, h: int|
                    0 <= p < pair && 0 <= h < shape.head_count ==> #[trigger] head_rotated(
                        params,
                        *rotate,
                        angles[p],
                        h,
                        p,
                        before,
                        data@.subrange(start as int, end),
                    ),
                forall|h: int|
                    0 <= h < head ==> #[trigger] head_rotated(
                        params,
                        *rotate,
                        a,
                        h,
                        pair as int,
                        before,
                        data@.subrange(start as int, end),
                    ),
            decreases shape.head_count - head,
        {
            let (dim0, dim1): (usize, usize) = pair_indices(shape, head, pair);
            proof {
                pairs_are_disjoint(shape, head as int, pair as int);
                assert(!touched(shape, dim0 as int, pair as int, head as int));
                assert(!touched(shape, dim1 as int, pair as int, head as int));
                assert(before[dim0 as int] == data@[start + dim0]);
                assert(before[dim1 as int] == data@[start + dim1]);
            }
            let ghost row = data@.subrange(start as int, end);
            let x0: T = data[start + dim0];
            let x1: T = data[start + dim1];
            let (y0, y1): (T, T) = rotate(params.direction, a, x0, x1);
            data[start + dim0] = y0;
            data[start + dim1] = y1;
            proof {
                let after = data@.subrange(start as int, end);
                assert(after =~= row.update(dim0 as int, y0).update(dim1 as int, y1));
                assert forall|p: int, h: int|
                    0 <= p < pair && 0 <= h < shape.head_count implies #[trigger] head_rotated(
                    params,
                    *rotate,
                    angles[p],
                    h,
                    p,
                    before,
                    after,
                ) by {
                    pairs_are_disjoint(shape, h, p);
                    assert(head_rotated(params, *rotate, angles[p], h, p, before, row));
                }
                assert forall|h: int| 0 <= h < head + 1 implies #[trigger] head_rotated(
                    params,
                    *rotate,
                    a,
                    h,
                    pair as int,
                    before,
                    after,
                ) by {
                    pairs_are_disjoint(shape, h, pair as int);
                    if h < head {
                        assert(head_rotated(params, *rotate, a, h, pair as int, before, row));
                    }
                }
                assert forall|i: int|
                    0 <= i < shape.width() && !touched(
                        shape,
                        i,
                        pair as int,
                        head + 1,
                    ) implies #[trigger] before[i] == data@[start + i] by {
                    assert(!touched(shape, i, pair as int, head as int));
                    assert(i != dim0 && i != dim1);
                }
            }
            head = head + 1;
        }
        proof {
            let done = angles;
            angles = angles.push(a);
            assert forall|p: int, h: int|
                0 <= p < pair + 1 && 0 <= h < shape.head_count implies #[trigger] head_rotated(
                params,
                *rotate,
                angles[p],
                h,
                p,
                before,
                data@.subrange(start as int, end),
            ) by {
                if p < pair {
                    assert(angles[p] == done[p]);
                    let row = data@.subrange(start as int, end);
                    assert(head_rotated(params, *rotate, done[p], h, p, before, row));
                }
            }
            assert forall|i: int|
                0 <= i < shape.width() && !touched(shape, i, pair + 1, 0) implies
                #[trigger] before[i] == data@[start + i] by {
                if touched(shape, i, pair as int, shape.head_count as int) {
                    pairs_cover_the_rotating_elements(shape, i);
                }
            }
        }
        pair = pair + 1;
    }
    proof {
        let after = data@.subrange(start as int, end);
        assert forall|i: int| 0 <= i < shape.width() && !shape.rotates(i) implies
            #[trigger] after[i] == before[i] by {
            assert(!touched(shape, i, pair as int, 0));
        }
        assert forall|p: int| 0 <= p < shape.pairs() implies #[trigger] pair_rotated(
            params,
            *angle,
            *rotate,
            p,
            before,
            after,
        ) by {
            assert(call_ensures(*angle, (params, effective, p as usize), angles[p]));
        }
    }
}

} // verus!

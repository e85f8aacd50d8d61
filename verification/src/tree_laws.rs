//! Laws of draft trees and of the accept walk.

use vstd::prelude::*;

use crate::spec_tree::TreeModel;

verus! {

/// The root path of a node starts at the root, ends at the node, climbs one
/// parent per step, and is one longer than the node is deep.
pub proof fn root_path_shape(tree: TreeModel, i: int)
    requires
        tree.wf(),
        0 <= i < tree.tokens.len(),
    ensures
        ({
            let path = crate::spec_tree::root_path(tree.parent, i);
            &&& path.len() == tree.depth[i] + 1
            &&& path[0] == 0
            &&& path.last() == i
            &&& forall|k: int|
                0 <= k < path.len() ==> 0 <= #[trigger] path[k] <= i && tree.depth[path[k]] == k
            &&& forall|k: int|
                0 < k < path.len() ==> tree.parent[#[trigger] path[k]] == path[k - 1]
        }),
    decreases i,
{
    if i > 0 {
        root_path_shape(tree, tree.parent[i] as int);
    }
}

/// A node's drafted tokens are the tokens on its root path, the anchor left out.
pub proof fn path_tokens_follow_root_path(tree: TreeModel, i: int)
    requires
        tree.wf(),
        0 <= i < tree.tokens.len(),
    ensures
        tree.path_tokens(i) == crate::spec_tree::root_path(
            tree.parent,
            i,
        ).drop_first().map_values(|n: int| tree.tokens[n]),
    decreases i,
{
    let path = crate::spec_tree::root_path(tree.parent, i);
    root_path_shape(tree, i);
    if i > 0 {
        let p = tree.parent[i] as int;
        path_tokens_follow_root_path(tree, p);
        root_path_shape(tree, p);
        let up = crate::spec_tree::root_path(tree.parent, p);
        assert(path.drop_first() =~= up.drop_first().push(i));
    }
    assert(tree.path_tokens(i) =~= path.drop_first().map_values(|n: int| tree.tokens[n]));
}

/// The mask is causal: a node sees no later node, everything else that it sees
/// is shallower than itself, and it sees all that its ancestors see.
pub proof fn mask_is_causal(tree: TreeModel, j: int, i: int)
    requires
        tree.wf(),
        0 <= i < tree.tokens.len(),
        crate::spec_tree::on_root_path(tree.parent, j, i),
    ensures
        0 <= j <= i,
        tree.depth[j] <= tree.depth[i],
        j == i <==> tree.depth[j] == tree.depth[i],
        forall|k: int|
            crate::spec_tree::on_root_path(tree.parent, k, j) ==> #[trigger]
                crate::spec_tree::on_root_path(tree.parent, k, i),
    decreases i,
{
    let path = crate::spec_tree::root_path(tree.parent, i);
    root_path_shape(tree, i);
    let m = choose|m: int| 0 <= m < path.len() && path[m] == j;
    if j != i {
        let p = tree.parent[i] as int;
        let up = crate::spec_tree::root_path(tree.parent, p);
        assert(path =~= up.push(i));
        assert(up[m] == j);
        assert(crate::spec_tree::on_root_path(tree.parent, j, p));
        mask_is_causal(tree, j, p);
        assert forall|k: int| crate::spec_tree::on_root_path(tree.parent, k, j) implies #[trigger]
            crate::spec_tree::on_root_path(tree.parent, k, i) by {
            assert(crate::spec_tree::on_root_path(tree.parent, k, p));
            let q = choose|q: int| 0 <= q < up.len() && up[q] == k;
            assert(path[q] == k);
        }
    }
}

/// In breadth-first order no node is less deep than a node before it.
pub proof fn breadth_first_depths(tree: TreeModel, i: int, j: int)
    requires
        tree.wf(),
        tree.breadth_first(),
        0 <= i < j < tree.tokens.len(),
    ensures
        tree.depth[i] <= tree.depth[j],
    decreases j,
{
    if i > 0 {
        let p = tree.parent[i] as int;
        let q = tree.parent[j] as int;
        assert(p <= q);
        if p < q {
            breadth_first_depths(tree, p, q);
        }
    }
}

/// A single-branch tree stands in breadth-first order.
pub proof fn linear_is_breadth_first(anchor: u32, drafts: Seq<u32>)
    requires
        drafts.len() <= i32::MAX,
    ensures
        crate::spec_tree::linear_model(anchor, drafts).breadth_first(),
{
}

/// No two nodes of a tree share a cache slot. (Slots are 32 bits wide, so they
/// can only collide between nodes that lie 2^32 apart.)
pub proof fn kv_slots_are_unique(base: usize, nodes: nat)
    requires
        base + nodes <= usize::MAX + 1,
        nodes <= 0x1_0000_0000,
    ensures
        crate::spec_tree::kv_slots(base as int, nodes).no_duplicates(),
{
    let slots = crate::spec_tree::kv_slots(base as int, nodes);
    assert forall|i: int, j: int| 0 <= i < nodes && 0 <= j < nodes && i != j implies slots[i]
        != slots[j] by {
        let x = (base + i) as u64;
        let y = (base + j) as u64;
        assert(slots[i] == x as i32);
        assert(slots[j] == y as i32);
        assert(x as i32 == y as i32 ==> x % 0x1_0000_0000 == y % 0x1_0000_0000) by (bit_vector);
    }
}

/// A bit of the mask is set exactly where the path to its row's node holds that node:
/// a node sees itself, nothing after it, and no padding bit is set.
pub proof fn mask_rows_are_root_paths(
    tree: TreeModel,
    bits: Seq<u32>,
    words: int,
    path: Seq<usize>,
    i: usize,
    j: usize,
)
    requires
        tree.rooted(),
        crate::spec_tree::masks(tree, bits, words),
        path.map_values(|n: usize| n as int) == crate::spec_tree::root_path(
            tree.parent,
            i as int,
        ),
        i < tree.tokens.len(),
        j < words * 32,
    ensures
        crate::spec_tree::mask_bit(bits, words, i as int, j as int) <==> (j < tree.tokens.len()
            && path.contains(j)),
        crate::spec_tree::mask_bit(bits, words, i as int, i as int),
        j > i ==> !crate::spec_tree::mask_bit(bits, words, i as int, j as int),
        j >= tree.tokens.len() ==> !crate::spec_tree::mask_bit(bits, words, i as int, j as int),
{
    let up = crate::spec_tree::root_path(tree.parent, i as int);
    assert(up == path.map_values(|n: usize| n as int));
    lemma_root_path_range(tree, i as int);
    if crate::spec_tree::on_root_path(tree.parent, j as int, i as int) {
        let k = choose|k: int| 0 <= k < up.len() && up[k] == j;
        assert(path[k] == j);
    }
    if path.contains(j) {
        let k = choose|k: int| 0 <= k < path.len() && path[k] == j;
        assert(up[k] == j);
    }
    assert(up[up.len() - 1] == i);
    assert(crate::spec_tree::on_root_path(tree.parent, i as int, i as int));
    assert(crate::spec_tree::mask_bit(bits, words, i as int, i as int)
        <==> crate::spec_tree::on_root_path(tree.parent, i as int, i as int));
}

/// The root path of a node of a rooted tree starts at the root, ends at the node and
/// holds no later node.
proof fn lemma_root_path_range(tree: TreeModel, i: int)
    requires
        tree.rooted(),
        0 <= i < tree.tokens.len(),
    ensures
        ({
            let path = crate::spec_tree::root_path(tree.parent, i);
            &&& path.len() >= 1
            &&& path[0] == 0
            &&& path.last() == i
            &&& forall|k: int| 0 <= k < path.len() ==> 0 <= #[trigger] path[k] <= i
        }),
    decreases i,
{
    if i > 0 {
        lemma_root_path_range(tree, tree.parent[i] as int);
    }
}

/// The nodes visited by the accept walk are the root path of the node it ends
/// at, and what it emits are the drafted tokens on that path followed by the
/// prediction at its end, which no child of that node carries.
pub proof fn accept_follows_a_root_path(tree: TreeModel, predicted: Seq<u32>)
    requires
        tree.rooted(),
        predicted.len() == tree.tokens.len(),
    ensures
        ({
            let walk = tree.accepted_nodes(predicted, 0);
            let leaf = walk.last();
            &&& 0 <= leaf < tree.tokens.len()
            &&& walk == crate::spec_tree::root_path(tree.parent, leaf)
            &&& tree.emitted_tokens(predicted, 0) == tree.path_tokens(leaf).push(predicted[leaf])
            &&& forall|ch: int| !#[trigger] tree.is_matching_child(leaf, predicted[leaf], ch)
        }),
{
    lemma_walk_extends(tree, predicted, 0);
    let walk = tree.accepted_nodes(predicted, 0);
    assert(crate::spec_tree::root_path(tree.parent, 0) =~= seq![0]);
    assert(crate::spec_tree::root_path(tree.parent, 0).drop_last() + walk =~= walk);
    assert(tree.path_tokens(0) + tree.emitted_tokens(predicted, 0) =~= tree.emitted_tokens(
        predicted,
        0,
    ));
}

/// The accept walk from `c` continues the root path of `c`, keeps what the model
/// confirms, and is as long as a walk from `c` can be.
proof fn lemma_walk_extends(tree: TreeModel, predicted: Seq<u32>, c: int)
    requires
        tree.rooted(),
        predicted.len() == tree.tokens.len(),
        0 <= c < tree.tokens.len(),
    ensures
        ({
            let walk = tree.accepted_nodes(predicted, c);
            let leaf = walk.last();
            &&& walk.len() == tree.walk_len(predicted, c)
            &&& walk.len() >= 1
            &&& walk[0] == c
            &&& c <= leaf < tree.tokens.len()
            &&& tree.confirmed(predicted, c) ==> tree.confirmed(predicted, leaf)
            &&& crate::spec_tree::root_path(tree.parent, c).drop_last() + walk
                == crate::spec_tree::root_path(tree.parent, leaf)
            &&& tree.path_tokens(c) + tree.emitted_tokens(predicted, c) == tree.path_tokens(
                leaf,
            ).push(predicted[leaf])
            &&& forall|ch: int| !#[trigger] tree.is_matching_child(leaf, predicted[leaf], ch)
        }),
    decreases tree.tokens.len() - c,
{
    let next = predicted[c];
    crate::spec_tree::longest_child_is_longest(tree, predicted, c, c + 1);
    let walk = tree.accepted_nodes(predicted, c);
    let path = crate::spec_tree::root_path(tree.parent, c);
    lemma_root_path_range(tree, c);
    match tree.next_accepted(predicted, c) {
        Some(ch) => {
            lemma_walk_extends(tree, predicted, ch);
            let rest = tree.accepted_nodes(predicted, ch);
            let leaf = rest.last();
            assert(walk =~= seq![c] + rest);
            assert(walk.last() == leaf);
            let path_ch = crate::spec_tree::root_path(tree.parent, ch);
            assert(path_ch =~= path.push(ch));
            assert(path_ch.drop_last() =~= path);
            assert(path.drop_last() + walk =~= path + rest);
            assert(tree.emitted_tokens(predicted, c) =~= seq![next] + tree.emitted_tokens(
                predicted,
                ch,
            ));
            assert(tree.path_tokens(ch) =~= tree.path_tokens(c).push(next));
            assert(tree.path_tokens(c) + tree.emitted_tokens(predicted, c) =~= tree.path_tokens(ch)
                + tree.emitted_tokens(predicted, ch));
        },
        None => {
            assert(walk =~= seq![c]);
            assert(path.drop_last() + walk =~= path);
            assert(tree.path_tokens(c) + tree.emitted_tokens(predicted, c) =~= tree.path_tokens(
                c,
            ).push(next));
        },
    }
}

/// The accept walk ends at a node whose whole path the model confirms, and no node
/// with such a path has a longer one: the longest matching path is accepted.
pub proof fn accept_is_longest(tree: TreeModel, predicted: Seq<u32>)
    requires
        tree.rooted(),
        predicted.len() == tree.tokens.len(),
    ensures
        ({
            let walk = tree.accepted_nodes(predicted, 0);
            &&& tree.confirmed(predicted, walk.last())
            &&& crate::spec_tree::root_path(tree.parent, walk.last()).len() == walk.len()
            &&& forall|v: int|
                0 <= v < tree.tokens.len() && #[trigger] tree.confirmed(predicted, v)
                    ==> crate::spec_tree::root_path(tree.parent, v).len() <= walk.len()
        }),
{
    accept_follows_a_root_path(tree, predicted);
    lemma_walk_extends(tree, predicted, 0);
    let walk = tree.accepted_nodes(predicted, 0);
    assert forall|v: int| 0 <= v < tree.tokens.len() && #[trigger] tree.confirmed(
        predicted,
        v,
    ) implies crate::spec_tree::root_path(tree.parent, v).len() <= walk.len() by {
        lemma_confirmed_within_walk(tree, predicted, v);
    }
}

/// A confirmed path together with the walk below it is no longer than the walk from
/// the root.
proof fn lemma_confirmed_within_walk(tree: TreeModel, predicted: Seq<u32>, v: int)
    requires
        tree.rooted(),
        0 <= v < tree.tokens.len(),
        tree.confirmed(predicted, v),
    ensures
        crate::spec_tree::root_path(tree.parent, v).len() + tree.walk_len(predicted, v)
            <= tree.walk_len(predicted, 0) + 1,
        tree.walk_len(predicted, v) >= 1,
    decreases v,
{
    if v > 0 {
        let p = tree.parent[v] as int;
        lemma_confirmed_within_walk(tree, predicted, p);
        crate::spec_tree::longest_child_is_longest(tree, predicted, p, p + 1);
        assert(tree.is_matching_child(p, predicted[p], v));
    }
}

/// No two children of one node carry the same token.
pub open spec fn siblings_distinct(tree: TreeModel) -> bool {
    forall|a: int, b: int|
        0 < a < b < tree.tokens.len() && #[trigger] tree.parent[a] == #[trigger] tree.parent[b]
            ==> tree.tokens[a] != tree.tokens[b]
}

/// Where no two siblings carry the same token, every node whose whole path the model
/// confirms lies on the accept walk.
pub proof fn confirmed_nodes_are_accepted(tree: TreeModel, predicted: Seq<u32>, i: int)
    requires
        tree.rooted(),
        siblings_distinct(tree),
        predicted.len() == tree.tokens.len(),
        0 <= i < tree.tokens.len(),
        tree.confirmed(predicted, i),
    ensures
        tree.accepted_nodes(predicted, 0).contains(i),
    decreases i,
{
    let walk = tree.accepted_nodes(predicted, 0);
    if i == 0 {
        assert(walk[0] == 0);
    } else {
        let p = tree.parent[i] as int;
        confirmed_nodes_are_accepted(tree, predicted, p);
        let k = choose|k: int| 0 <= k < walk.len() && walk[k] == p;
        lemma_walk_suffix(tree, predicted, 0, k);
        let rest = tree.accepted_nodes(predicted, p);
        crate::spec_tree::longest_child_is_longest(tree, predicted, p, p + 1);
        assert(tree.is_matching_child(p, predicted[p], i));
        let ch = tree.next_accepted(predicted, p)->0;
        assert(tree.is_matching_child(p, predicted[p], ch));
        assert(tree.parent[ch] == tree.parent[i]);
        assert(rest =~= seq![p] + tree.accepted_nodes(predicted, i));
        assert(tree.accepted_nodes(predicted, i)[0] == i);
        assert(walk.skip(k)[1] == i);
        assert(walk[k + 1] == i);
    }
}

/// A node that the walk from `c` visits is on it together with the rest of the
/// walk from that node.
proof fn lemma_walk_suffix(tree: TreeModel, predicted: Seq<u32>, c: int, k: int)
    requires
        predicted.len() == tree.tokens.len(),
        0 <= c < tree.tokens.len(),
        0 <= k < tree.accepted_nodes(predicted, c).len(),
    ensures
        ({
            let walk = tree.accepted_nodes(predicted, c);
            &&& 0 <= walk[k] < tree.tokens.len()
            &&& walk.skip(k) == tree.accepted_nodes(predicted, walk[k])
        }),
    decreases tree.tokens.len() - c,
{
    let walk = tree.accepted_nodes(predicted, c);
    crate::spec_tree::longest_child_is_longest(tree, predicted, c, c + 1);
    if k == 0 {
        assert(walk.skip(0) =~= walk);
    } else {
        let ch = tree.next_accepted(predicted, c)->0;
        let rest = tree.accepted_nodes(predicted, ch);
        assert(walk =~= seq![c] + rest);
        lemma_walk_suffix(tree, predicted, ch, k - 1);
        assert(walk.skip(k) =~= rest.skip(k - 1));
    }
}

/// How many drafts, from `j` on, the model confirms before the first mismatch,
/// counted from the start.
pub open spec fn confirmed_prefix(drafts: Seq<u32>, predicted: Seq<u32>, j: int) -> int
    decreases drafts.len() - j,
{
    if 0 <= j < drafts.len() && drafts[j] == predicted[j] {
        confirmed_prefix(drafts, predicted, j + 1)
    } else {
        j
    }
}

/// On a single-branch tree the accept walk is the linear accept: the longest
/// prefix of the drafts that the model confirms, and the model's next token
/// after it.
pub proof fn linear_accept(anchor: u32, drafts: Seq<u32>, predicted: Seq<u32>)
    requires
        drafts.len() <= i32::MAX,
        predicted.len() == drafts.len() + 1,
    ensures
        ({
            let tree = crate::spec_tree::linear_model(anchor, drafts);
            let m = confirmed_prefix(drafts, predicted, 0);
            &&& 0 <= m <= drafts.len()
            &&& tree.emitted_tokens(predicted, 0) == predicted.take(m + 1)
            &&& tree.accepted_nodes(predicted, 0).last() == m
        }),
{
    lemma_linear_walk(anchor, drafts, predicted, 0);
    let tree = crate::spec_tree::linear_model(anchor, drafts);
    let m = confirmed_prefix(drafts, predicted, 0);
    assert(tree.emitted_tokens(predicted, 0) =~= predicted.take(m + 1));
}

proof fn lemma_linear_walk(anchor: u32, drafts: Seq<u32>, predicted: Seq<u32>, c: int)
    requires
        drafts.len() <= i32::MAX,
        predicted.len() == drafts.len() + 1,
        0 <= c <= drafts.len(),
    ensures
        ({
            let tree = crate::spec_tree::linear_model(anchor, drafts);
            let m = confirmed_prefix(drafts, predicted, c);
            &&& c <= m <= drafts.len()
            &&& tree.accepted_nodes(predicted, c) == Seq::new((m + 1 - c) as nat, |k: int| c + k)
        }),
    decreases drafts.len() - c,
{
    let tree = crate::spec_tree::linear_model(anchor, drafts);
    let next = predicted[c];
    crate::spec_tree::longest_child_is_longest(tree, predicted, c, c + 1);
    let m = confirmed_prefix(drafts, predicted, c);
    let walk = tree.accepted_nodes(predicted, c);
    if c < drafts.len() {
        assert(tree.parent[c + 1] == c as i32);
        assert(tree.tokens[c + 1] == drafts[c]);
    }
    if c < drafts.len() && drafts[c] == next {
        assert(tree.is_matching_child(c, next, c + 1));
        lemma_linear_walk(anchor, drafts, predicted, c + 1);
        assert(walk =~= seq![c] + tree.accepted_nodes(predicted, c + 1));
        assert(walk =~= Seq::new((m + 1 - c) as nat, |k: int| c + k));
    } else {
        match tree.next_accepted(predicted, c) {
            Some(ch) => {
                assert(tree.parent[ch] == (ch - 1) as i32);
                assert(ch == c + 1);
                assert(false);
            },
            None => {},
        }
        assert(walk =~= Seq::new(1, |k: int| c + k));
    }
}

/// `q` is a way down the tree from `c` that the model itself would take: every further
/// node is a child of the node before it and carries the token predicted there.
pub open spec fn matching_way(tree: TreeModel, predicted: Seq<u32>, c: int, q: Seq<int>) -> bool {
    &&& q.len() >= 1
    &&& q[0] == c
    &&& forall|k: int|
        0 < k < q.len() ==> 0 <= #[trigger] q[k] < tree.tokens.len() && tree.parent[q[k]] == q[k
            - 1] && tree.tokens[q[k]] == predicted[q[k - 1]]
}

/// `p` and `q` are the same, or part ways somewhere, and there `p` takes the earlier
/// node.
pub open spec fn takes_earlier_nodes(p: Seq<int>, q: Seq<int>) -> bool {
    ||| p == q
    ||| exists|k: int|
        0 <= k < p.len() && k < q.len() && #[trigger] p[k] < q[k] && p.take(k) == q.take(k)
}

proof fn lemma_walk_is_a_way(tree: TreeModel, predicted: Seq<u32>, c: int)
    requires
        tree.rooted(),
        0 <= c < tree.tokens.len(),
    ensures
        matching_way(tree, predicted, c, tree.accepted_nodes(predicted, c)),
        tree.accepted_nodes(predicted, c).len() == tree.walk_len(predicted, c),
    decreases tree.tokens.len() - c,
{
    crate::spec_tree::longest_child_is_longest(tree, predicted, c, c + 1);
    let walk = tree.accepted_nodes(predicted, c);
    if let Some(ch) = tree.next_accepted(predicted, c) {
        lemma_walk_is_a_way(tree, predicted, ch);
        let rest = tree.accepted_nodes(predicted, ch);
        assert(walk =~= seq![c] + rest);
        assert forall|k: int| 0 < k < walk.len() implies 0 <= #[trigger] walk[k]
            < tree.tokens.len() && tree.parent[walk[k]] == walk[k - 1] && tree.tokens[walk[k]]
            == predicted[walk[k - 1]] by {
            assert(walk[k] == rest[k - 1]);
            if k > 1 {
                assert(walk[k - 1] == rest[k - 2]);
            }
        }
    }
}

proof fn lemma_ways_are_no_longer(tree: TreeModel, predicted: Seq<u32>, c: int, q: Seq<int>)
    requires
        tree.rooted(),
        0 <= c < tree.tokens.len(),
        matching_way(tree, predicted, c, q),
    ensures
        q.len() <= tree.walk_len(predicted, c),
        q.len() == tree.walk_len(predicted, c) ==> takes_earlier_nodes(
            tree.accepted_nodes(predicted, c),
            q,
        ),
    decreases tree.tokens.len() - c,
{
    crate::spec_tree::longest_child_is_longest(tree, predicted, c, c + 1);
    lemma_walk_is_a_way(tree, predicted, c);
    let walk = tree.accepted_nodes(predicted, c);
    if q.len() == 1 {
        if walk.len() == 1 {
            assert(walk =~= q);
        }
    } else {
        let next = q[1];
        let rest = q.skip(1);
        assert(tree.parent[next] == c);
        assert(next > c);
        assert(tree.is_matching_child(c, predicted[c], next));
        assert forall|k: int| 0 < k < rest.len() implies 0 <= #[trigger] rest[k]
            < tree.tokens.len() && tree.parent[rest[k]] == rest[k - 1] && tree.tokens[rest[k]]
            == predicted[rest[k - 1]] by {
            assert(rest[k] == q[k + 1]);
            assert(rest[k - 1] == q[k]);
        }
        lemma_ways_are_no_longer(tree, predicted, next, rest);
        let ch = tree.next_accepted(predicted, c)->0;
        assert(tree.walk_len(predicted, next) <= tree.walk_len(predicted, ch));
        if q.len() == tree.walk_len(predicted, c) {
            let tail = tree.accepted_nodes(predicted, ch);
            assert(walk =~= seq![c] + tail);
            lemma_walk_is_a_way(tree, predicted, ch);
            if ch == next {
                if tail == rest {
                    assert(walk =~= q);
                } else {
                    let k = choose|k: int|
                        0 <= k < tail.len() && k < rest.len() && #[trigger] tail[k] < rest[k]
                            && tail.take(k) == rest.take(k);
                    assert(walk[k + 1] == tail[k] && q[k + 1] == rest[k]);
                    assert(walk.take(k + 1) =~= seq![c] + tail.take(k));
                    assert(q.take(k + 1) =~= seq![c] + rest.take(k));
                    assert(takes_earlier_nodes(walk, q));
                }
            } else {
                assert(tail[0] == ch);
                assert(walk[1] == ch && ch < next);
                assert(walk.take(1) =~= q.take(1));
                assert(takes_earlier_nodes(walk, q));
            }
        }
    }
}

/// The accept walk takes, of all ways down from the root that the model itself would
/// take, a longest one, and of the longest ones the one of the earliest nodes. What it
/// emits is the model's own next token after each node on it.
pub proof fn accept_takes_the_first_longest_way(tree: TreeModel, predicted: Seq<u32>)
    requires
        tree.rooted(),
        predicted.len() == tree.tokens.len(),
    ensures
        ({
            let walk = tree.accepted_nodes(predicted, 0);
            let emitted = tree.emitted_tokens(predicted, 0);
            &&& matching_way(tree, predicted, 0, walk)
            &&& forall|q: Seq<int>| #[trigger]
                matching_way(tree, predicted, 0, q) ==> q.len() <= walk.len()
            &&& forall|q: Seq<int>| #[trigger]
                matching_way(tree, predicted, 0, q) && q.len() == walk.len()
                    ==> takes_earlier_nodes(walk, q)
            &&& emitted.len() == walk.len()
            &&& forall|k: int| 0 <= k < walk.len() ==> #[trigger] emitted[k] == predicted[walk[k]]
        }),
{
    lemma_walk_is_a_way(tree, predicted, 0);
    let walk = tree.accepted_nodes(predicted, 0);
    assert forall|q: Seq<int>| #[trigger] matching_way(tree, predicted, 0, q) implies q.len()
        <= walk.len() && (q.len() == walk.len() ==> takes_earlier_nodes(walk, q)) by {
        lemma_ways_are_no_longer(tree, predicted, 0, q);
    }
}

/// A path starts at a node without a parent, ends at its node, and goes from each node
/// to a child of it.
pub proof fn a_path_climbs_parent_by_parent(parent: Seq<i32>, i: int)
    requires
        crate::spec_tree::parents_precede(parent),
        0 <= i < parent.len(),
    ensures
        ({
            let path = crate::spec_tree::root_path(parent, i);
            &&& path.len() >= 1
            &&& path.last() == i
            &&& 0 <= path[0] <= i
            &&& parent[path[0]] < 0
            &&& forall|k: int|
                0 < k < path.len() ==> 0 <= #[trigger] path[k] <= i && parent[path[k]] == path[k
                    - 1]
        }),
    decreases i,
{
    if parent[i] >= 0 {
        a_path_climbs_parent_by_parent(parent, parent[i] as int);
    }
}

/// A node's context is the tokens of the nodes on its path, the first node left out.
pub proof fn a_context_holds_the_tokens_of_its_path(tree: TreeModel, i: int)
    requires
        tree.rooted(),
        0 <= i < tree.tokens.len(),
    ensures
        ({
            let path = crate::spec_tree::root_path(tree.parent, i);
            let tokens = tree.path_tokens(i);
            &&& tokens.len() + 1 == path.len()
            &&& forall|k: int|
                0 <= k < tokens.len() ==> #[trigger] tokens[k] == tree.tokens[path[k + 1]]
        }),
    decreases i,
{
    if i > 0 {
        a_context_holds_the_tokens_of_its_path(tree, tree.parent[i] as int);
    }
}

/// The mask has just enough words for a bit per node in each row. In it the root sees
/// itself alone, and every other node sees itself and what its parent sees.
pub proof fn a_mask_row_extends_the_row_of_the_parent(
    tree: TreeModel,
    bits: Seq<u32>,
    words: int,
    i: int,
    j: int,
)
    requires
        tree.rooted(),
        crate::spec_tree::masks(tree, bits, words),
        0 <= i < tree.tokens.len(),
        0 <= j < words * 32,
    ensures
        ({
            let up = tree.parent[i] as int;
            let sees = (bits[i * words + j / 32] >> ((j % 32) as u32)) & 1 == 1;
            let parent_sees = (bits[up * words + j / 32] >> ((j % 32) as u32)) & 1 == 1;
            &&& words * 32 >= tree.tokens.len()
            &&& (words - 1) * 32 < tree.tokens.len()
            &&& bits.len() == tree.tokens.len() * words
            &&& i == 0 ==> (sees <==> j == 0)
            &&& i > 0 ==> (sees <==> (j == i || parent_sees))
        }),
{
    let up = tree.parent[i] as int;
    let path = crate::spec_tree::root_path(tree.parent, i);
    assert(crate::spec_tree::mask_bit(bits, words, i, j) <==> crate::spec_tree::on_root_path(
        tree.parent,
        j,
        i,
    ));
    if i == 0 {
        assert(path =~= seq![0int]);
        assert(path[0] == 0);
    } else {
        assert(crate::spec_tree::mask_bit(bits, words, up, j) <==> crate::spec_tree::on_root_path(
            tree.parent,
            j,
            up,
        ));
        let above = crate::spec_tree::root_path(tree.parent, up);
        assert(path =~= above.push(i));
        assert(path[above.len() as int] == i);
        if above.contains(j) {
            let k = choose|k: int| 0 <= k < above.len() && above[k] == j;
            assert(path[k] == j);
        }
    }
}

/// A node's cache slot is its index counted from the base, as far as that fits.
pub proof fn kv_slots_count_from_the_base(base: usize, nodes: nat, i: int)
    requires
        0 <= i < nodes,
        base + i <= i32::MAX,
    ensures
        crate::spec_tree::kv_slots(base as int, nodes).len() == nodes,
        crate::spec_tree::kv_slots(base as int, nodes)[i] == base + i,
{
}

} // verus!

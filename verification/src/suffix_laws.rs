//! Laws of suffix-decoding drafts.

use vstd::prelude::*;

use crate::spec_tree::TreeModel;
use crate::suffix_decoding::DraftState;
use crate::suffix_decoding::SuffixDecodingDrafter;

verus! {

/// Some successor is preferred to all others, unless there is none.
proof fn lemma_best_exists(counts: Map<u32, nat>)
    requires
        counts.dom().finite(),
        !counts.dom().is_empty(),
    ensures
        crate::suffix_decoding::is_best(counts, crate::suffix_decoding::best(counts)),
    decreases counts.dom().len(),
{
    let t = counts.dom().choose();
    let rest = counts.remove(t);
    if rest.dom().is_empty() {
        assert forall|u: u32| #[trigger] counts.contains_key(u) && u != t implies
            crate::suffix_decoding::ranks_before(counts, t, u) by {
            assert(rest.dom().contains(u));
        }
        assert(crate::suffix_decoding::is_best(counts, t));
    } else {
        lemma_best_exists(rest);
        let b = crate::suffix_decoding::best(rest);
        if crate::suffix_decoding::ranks_before(counts, b, t) {
            assert forall|u: u32| #[trigger] counts.contains_key(u) && u != b implies
                crate::suffix_decoding::ranks_before(counts, b, u) by {
                if u != t {
                    assert(rest.contains_key(u));
                }
            }
            assert(crate::suffix_decoding::is_best(counts, b));
        } else {
            assert forall|u: u32| #[trigger] counts.contains_key(u) && u != t implies
                crate::suffix_decoding::ranks_before(counts, t, u) by {
                assert(rest.contains_key(u));
                if u != b {
                    assert(crate::suffix_decoding::ranks_before(rest, b, u));
                }
            }
            assert(crate::suffix_decoding::is_best(counts, t));
        }
    }
}

/// The chosen successors are the `branch` most frequent ones: distinct, most
/// frequent first with ties by lower token, as many as there are up to
/// `branch`, and each preferred to every successor left out.
pub proof fn top_tokens_are_most_frequent(counts: Map<u32, nat>, branch: nat)
    requires
        counts.dom().finite(),
    ensures
        ({
            let top = crate::suffix_decoding::top_tokens(counts, branch);
            &&& top.no_duplicates()
            &&& top.len() == (if counts.dom().len() <= branch {
                counts.dom().len()
            } else {
                branch
            })
            &&& forall|i: int| 0 <= i < top.len() ==> counts.contains_key(#[trigger] top[i])
            &&& forall|i: int, j: int|
                0 <= i < j < top.len() ==> crate::suffix_decoding::ranks_before(
                    counts,
                    #[trigger] top[i],
                    #[trigger] top[j],
                )
            &&& forall|i: int, u: u32|
                0 <= i < top.len() && counts.contains_key(u) && !top.contains(u) ==> #[trigger]
                    crate::suffix_decoding::ranks_before(counts, top[i], u)
            &&& forall|i: int, j: int|
                0 <= i < j < top.len() ==> counts[#[trigger] top[i]] > counts[#[trigger] top[j]]
                    || (counts[top[i]] == counts[top[j]] && top[i] < top[j])
            &&& forall|i: int, u: u32|
                0 <= i < top.len() && #[trigger] counts.contains_key(u) && !top.contains(u)
                    ==> counts[#[trigger] top[i]] > counts[u] || (counts[top[i]] == counts[u]
                    && top[i] < u)
        }),
    decreases branch,
{
    let top = crate::suffix_decoding::top_tokens(counts, branch);
    if branch > 0 && !counts.dom().is_empty() {
        lemma_best_exists(counts);
        let b = crate::suffix_decoding::best(counts);
        let rest = counts.remove(b);
        let tail = crate::suffix_decoding::top_tokens(rest, (branch - 1) as nat);
        top_tokens_are_most_frequent(rest, (branch - 1) as nat);
        assert(top =~= seq![b] + tail);
        assert forall|i: int| 0 <= i < top.len() implies counts.contains_key(#[trigger] top[i]) by {
            if i > 0 {
                assert(rest.contains_key(tail[i - 1]));
            }
        }
        assert forall|i: int, j: int| 0 <= i < j < top.len() implies
            crate::suffix_decoding::ranks_before(
            counts,
            #[trigger] top[i],
            #[trigger] top[j],
        ) by {
            assert(rest.contains_key(tail[j - 1]));
            if i > 0 {
                assert(crate::suffix_decoding::ranks_before(rest, tail[i - 1], tail[j - 1]));
                assert(rest.contains_key(tail[i - 1]));
            }
        }
        assert forall|i: int, u: u32|
            0 <= i < top.len() && counts.contains_key(u) && !top.contains(u) implies #[trigger]
        crate::suffix_decoding::ranks_before(counts, top[i], u) by {
            assert(u != b) by {
                assert(top[0] == b);
            }
            if i > 0 {
                assert(rest.contains_key(u));
                assert(!tail.contains(u)) by {
                    if tail.contains(u) {
                        let q = choose|q: int| 0 <= q < tail.len() && tail[q] == u;
                        assert(top[q + 1] == u);
                    }
                }
                assert(crate::suffix_decoding::ranks_before(rest, tail[i - 1], u));
                assert(rest.contains_key(tail[i - 1]));
            }
        }
        assert(top.no_duplicates()) by {
            assert forall|i: int, j: int| 0 <= i < j < top.len() implies top[i] != top[j] by {
                assert(crate::suffix_decoding::ranks_before(counts, top[i], top[j]));
            }
        }
        assert(rest.dom() =~= counts.dom().remove(b));
        assert forall|i: int, u: u32|
            0 <= i < top.len() && #[trigger] counts.contains_key(u) && !top.contains(u) implies
            counts[#[trigger] top[i]] > counts[u] || (counts[top[i]] == counts[u] && top[i] < u) by {
            assert(crate::suffix_decoding::ranks_before(counts, top[i], u));
        }
        assert forall|i: int, j: int| 0 <= i < j < top.len() implies counts[#[trigger] top[i]]
            > counts[#[trigger] top[j]] || (counts[top[i]] == counts[top[j]] && top[i] < top[j]) by {
            assert(crate::suffix_decoding::ranks_before(counts, top[i], top[j]));
        }
    } else {
        assert(top =~= Seq::empty());
        if counts.dom().is_empty() {
            assert(counts.dom() =~= Set::empty());
        }
    }
}

/// Of the successors in a map of counts, only those that occurred are chosen.
pub proof fn chosen_successors_occurred(counts: Map<u32, nat>, branch: nat, i: int)
    requires
        counts.dom().finite(),
        0 <= i < crate::suffix_decoding::top_tokens(
            crate::suffix_decoding::occurring(counts),
            branch,
        ).len(),
    ensures
        ({
            let t = crate::suffix_decoding::top_tokens(
                crate::suffix_decoding::occurring(counts),
                branch,
            )[i];
            counts.contains_key(t) && counts[t] > 0
        }),
{
    let some = crate::suffix_decoding::occurring(counts);
    assert(some.dom().subset_of(counts.dom()));
    vstd::set_lib::lemma_len_subset(some.dom(), counts.dom());
    top_tokens_are_most_frequent(some, branch);
    assert(some.contains_key(crate::suffix_decoding::top_tokens(some, branch)[i]));
}

/// The tokens counted are among the tokens of `hist`, so they are finitely many.
proof fn lemma_counts_finite(hist: Seq<u32>, pattern: Seq<u32>, end: int)
    ensures
        crate::suffix_decoding::follow_counts(hist, pattern, end).dom().finite(),
    decreases end,
{
    let counts = crate::suffix_decoding::follow_counts(hist, pattern, end);
    if end <= 0 {
        assert(counts.dom() =~= Set::empty());
    } else {
        lemma_counts_finite(hist, pattern, end - 1);
        let before = crate::suffix_decoding::follow_counts(hist, pattern, end - 1);
        let t = hist[end - 1 + pattern.len()];
        assert(counts.dom().subset_of(before.dom().insert(t)));
        vstd::set_lib::lemma_len_subset(counts.dom(), before.dom().insert(t));
    }
}

/// The successors of a pattern are finitely many.
pub proof fn lemma_successors_finite(hist: Seq<u32>, pattern: Seq<u32>)
    ensures
        crate::suffix_decoding::successor_counts(hist, pattern).dom().finite(),
{
    lemma_counts_finite(hist, pattern, hist.len() - pattern.len());
    if pattern.len() == 0 || hist.len() <= pattern.len() {
        assert(crate::suffix_decoding::successor_counts(hist, pattern).dom() =~= Set::empty());
    }
}

/// A counted token really followed an occurrence of the pattern.
proof fn lemma_counted_token_followed(hist: Seq<u32>, pattern: Seq<u32>, token: u32, end: int)
    requires
        crate::suffix_decoding::follow_count(hist, pattern, token, end) > 0,
    ensures
        exists|s: int|
            0 <= s < end && #[trigger] crate::speculative::occurs_at(hist, pattern, s) && hist[s
                + pattern.len()] == token,
    decreases end,
{
    if end > 0 {
        if crate::speculative::occurs_at(hist, pattern, end - 1) && hist[end - 1 + pattern.len()]
            == token {
        } else {
            lemma_counted_token_followed(hist, pattern, token, end - 1);
        }
    }
}

/// `token` followed an earlier occurrence of the last `n` tokens of `context`.
pub open spec fn followed(hist: Seq<u32>, context: Seq<u32>, n: int, s: int, token: u32) -> bool {
    &&& 0 <= s
    &&& s + n < hist.len()
    &&& crate::speculative::occurs_at(hist, crate::speculative::last_tokens(context, n), s)
    &&& hist[s + n] == token
}

/// `token` followed an earlier occurrence of a suffix of `context` of at least
/// `min_match` and at most `n` tokens.
pub open spec fn observed(
    hist: Seq<u32>,
    context: Seq<u32>,
    min_match: nat,
    n: nat,
    token: u32,
) -> bool {
    exists|m: int, s: int|
        min_match <= m <= n && 1 <= m && #[trigger] followed(hist, context, m, s, token)
}

/// Every proposed successor followed an earlier occurrence of a suffix of the
/// context that is long enough; no two are equal, and there are at most `branch`.
pub proof fn proposals_are_observed(
    hist: Seq<u32>,
    context: Seq<u32>,
    min_match: nat,
    n: nat,
    branch: nat,
)
    requires
        n <= context.len(),
    ensures
        ({
            let tokens = crate::suffix_decoding::longest_match_tokens(
                hist,
                context,
                min_match,
                n,
                branch,
            );
            &&& tokens.len() <= branch
            &&& tokens.no_duplicates()
            &&& forall|k: int|
                0 <= k < tokens.len() ==> observed(
                    hist,
                    context,
                    min_match,
                    n,
                    #[trigger] tokens[k],
                )
        }),
    decreases n,
{
    let tokens = crate::suffix_decoding::longest_match_tokens(hist, context, min_match, n, branch);
    if n > 0 && n >= min_match {
        let pattern = crate::speculative::last_tokens(context, n as int);
        let counts = crate::suffix_decoding::successor_counts(hist, pattern);
        if counts.dom().is_empty() {
            proposals_are_observed(hist, context, min_match, (n - 1) as nat, branch);
            assert forall|k: int| 0 <= k < tokens.len() implies observed(
                hist,
                context,
                min_match,
                n,
                #[trigger] tokens[k],
            ) by {
                assert(observed(hist, context, min_match, (n - 1) as nat, tokens[k]));
            }
        } else {
            let end = hist.len() - n;
            assert(counts == crate::suffix_decoding::follow_counts(hist, pattern, end)) by {
                if hist.len() <= n {
                    assert(counts.dom() =~= Set::empty());
                }
            }
            lemma_counts_finite(hist, pattern, end);
            top_tokens_are_most_frequent(counts, branch);
            assert forall|k: int| 0 <= k < tokens.len() implies observed(
                hist,
                context,
                min_match,
                n,
                #[trigger] tokens[k],
            ) by {
                assert(counts.contains_key(tokens[k]));
                lemma_counted_token_followed(hist, pattern, tokens[k], end);
                let s = choose|s: int|
                    0 <= s < end && #[trigger] crate::speculative::occurs_at(hist, pattern, s)
                        && hist[s + pattern.len()] == tokens[k];
                assert(followed(hist, context, n as int, s, tokens[k]));
            }
        }
    }
}

/// The successors of the last `m` tokens of `context` in `hist`.
pub open spec fn suffix_counts(hist: Seq<u32>, context: Seq<u32>, m: int) -> Map<u32, nat> {
    crate::suffix_decoding::successor_counts(hist, crate::speculative::last_tokens(context, m))
}

/// The longest recurring suffix decides: where the last `m` tokens recurred and
/// no longer suffix did, the proposals are the preferred successors of exactly
/// those `m` tokens.
pub proof fn longest_match_wins(
    hist: Seq<u32>,
    context: Seq<u32>,
    min_match: nat,
    n: nat,
    branch: nat,
    m: nat,
)
    requires
        1 <= m,
        min_match <= m <= n,
        !suffix_counts(hist, context, m as int).dom().is_empty(),
        forall|j: int|
            m < j <= n ==> (#[trigger] suffix_counts(hist, context, j)).dom().is_empty(),
    ensures
        crate::suffix_decoding::longest_match_tokens(hist, context, min_match, n, branch)
            == crate::suffix_decoding::top_tokens(suffix_counts(hist, context, m as int), branch),
    decreases n,
{
    if n > m {
        assert(suffix_counts(hist, context, n as int).dom().is_empty());
        longest_match_wins(hist, context, min_match, (n - 1) as nat, branch, m);
    }
}

/// Where no suffix of an admitted length recurred, nothing is proposed.
pub proof fn no_match_no_proposal(
    hist: Seq<u32>,
    context: Seq<u32>,
    min_match: nat,
    n: nat,
    branch: nat,
)
    requires
        forall|j: int|
            1 <= j && min_match <= j <= n ==> (#[trigger] suffix_counts(
                hist,
                context,
                j,
            )).dom().is_empty(),
    ensures
        crate::suffix_decoding::longest_match_tokens(hist, context, min_match, n, branch).len()
            == 0,
    decreases n,
{
    if n > 0 && n >= min_match {
        assert(suffix_counts(hist, context, n as int).dom().is_empty());
        no_match_no_proposal(hist, context, min_match, (n - 1) as nat, branch);
    }
}

/// A node's token followed, earlier in `hist`, a suffix of the history continued
/// by the drafted path to the node's parent.
pub open spec fn node_is_observed(
    d: SuffixDecodingDrafter,
    hist: Seq<u32>,
    tree: TreeModel,
    i: int,
) -> bool {
    let context = hist + tree.path_tokens(tree.parent[i] as int);
    observed(hist, context, d.min_match as nat, context.len(), tree.tokens[i])
}

/// What a finished or growing draft satisfies, where nodes before `next` have
/// been expanded.
spec fn lawful(
    d: SuffixDecodingDrafter,
    hist: Seq<u32>,
    state: DraftState,
    next: int,
    anchor: u32,
    max_nodes: int,
    max_depth: int,
) -> bool {
    &&& state.tree.wf()
    &&& state.tree.tokens[0] == anchor
    &&& state.tree.tokens.len() <= max_nodes
    &&& forall|i: int|
        0 <= i < state.tree.tokens.len() ==> (#[trigger] state.tree.depth[i]) <= max_depth
            && state.tree.depth[i] <= i
    &&& state.paths.len() == state.tree.tokens.len()
    &&& forall|i: int|
        0 <= i < state.paths.len() ==> #[trigger] state.paths[i] == state.tree.path_tokens(i)
    &&& forall|i: int| 0 <= i < state.tree.tokens.len() ==> (#[trigger] state.tree.parent[i]) < next
    &&& crate::tree_laws::siblings_distinct(state.tree)
    &&& forall|i: int|
        0 < i < state.tree.tokens.len() ==> #[trigger] node_is_observed(d, hist, state.tree, i)
    &&& children_adjacent(state.tree, d.branch as int)
    &&& state.tree.breadth_first()
    &&& expanded(d, hist, state.tree, next, max_nodes, max_depth)
}

/// The tokens of the children of `node` among the first `n` nodes, in order.
pub open spec fn child_tokens(tree: TreeModel, node: int, n: int) -> Seq<u32>
    decreases n,
{
    if n <= 0 {
        Seq::empty()
    } else if tree.parent[n - 1] == node {
        child_tokens(tree, node, n - 1).push(tree.tokens[n - 1])
    } else {
        child_tokens(tree, node, n - 1)
    }
}

/// The tokens of the children of `node`, in order.
pub open spec fn children(tree: TreeModel, node: int) -> Seq<u32> {
    child_tokens(tree, node, tree.tokens.len() as int)
}

/// The tokens that belong below `node`: the successors proposed after its path, none
/// at the depth limit, and none where the history is too short to match in.
pub open spec fn wanted(
    d: SuffixDecodingDrafter,
    hist: Seq<u32>,
    tree: TreeModel,
    node: int,
    max_depth: int,
) -> Seq<u32> {
    if tree.depth[node] >= max_depth || hist.len() <= d.min_match {
        Seq::empty()
    } else {
        d.successors_of(hist, tree.path_tokens(node))
    }
}

/// The first `next` nodes have the children that belong below them, as far as the
/// node budget reaches; later nodes have none yet. A node is cut short only where no
/// later node has children.
spec fn expanded(
    d: SuffixDecodingDrafter,
    hist: Seq<u32>,
    tree: TreeModel,
    next: int,
    max_nodes: int,
    max_depth: int,
) -> bool {
    &&& forall|p: int|
        0 <= p < tree.tokens.len() ==> {
            &&& (#[trigger] children(tree, p)).is_prefix_of(wanted(d, hist, tree, p, max_depth))
            &&& p < next && tree.tokens.len() < max_nodes ==> children(tree, p) == wanted(
                d,
                hist,
                tree,
                p,
                max_depth,
            )
            &&& p >= next ==> children(tree, p).len() == 0
        }
    &&& forall|p: int, q: int|
        0 <= p < q < tree.tokens.len() && (#[trigger] children(tree, q)).len() > 0 ==> (
        #[trigger] children(tree, p)) == wanted(d, hist, tree, p, max_depth)
}

/// The children of a node stand next to each other, at most `branch` of them.
pub open spec fn children_adjacent(tree: TreeModel, branch: int) -> bool {
    forall|a: int, b: int|
        0 < a <= b < tree.tokens.len() && #[trigger] tree.parent[a] == #[trigger] tree.parent[b]
            ==> b - a < branch
}

/// Paths of earlier nodes do not change when nodes are appended.
proof fn lemma_path_tokens_prefix(t: TreeModel, u: TreeModel, i: int)
    requires
        t.parent.len() == t.tokens.len(),
        u.parent.len() == u.tokens.len(),
        t.tokens.is_prefix_of(u.tokens),
        t.parent.is_prefix_of(u.parent),
        i < t.tokens.len(),
    ensures
        t.path_tokens(i) == u.path_tokens(i),
    decreases i,
{
    if 0 <= i && 0 <= t.parent[i] < i {
        lemma_path_tokens_prefix(t, u, t.parent[i] as int);
    }
    if 0 <= i {
        assert(t.parent[i] == u.parent[i]);
        assert(t.tokens[i] == u.tokens[i]);
    }
}

/// Children among the earlier nodes do not change when nodes are appended.
proof fn lemma_child_tokens_prefix(t: TreeModel, u: TreeModel, p: int, n: int)
    requires
        t.parent.len() == t.tokens.len(),
        u.parent.len() == u.tokens.len(),
        t.tokens.is_prefix_of(u.tokens),
        t.parent.is_prefix_of(u.parent),
        n <= t.tokens.len(),
    ensures
        child_tokens(t, p, n) == child_tokens(u, p, n),
    decreases n,
{
    if n > 0 {
        lemma_child_tokens_prefix(t, u, p, n - 1);
        assert(t.parent[n - 1] == u.parent[n - 1]);
        assert(t.tokens[n - 1] == u.tokens[n - 1]);
    }
}

/// A node that is no parent has no children.
proof fn lemma_no_children(tree: TreeModel, p: int, n: int)
    requires
        n <= tree.parent.len(),
        forall|i: int| 0 <= i < n ==> (#[trigger] tree.parent[i]) != p,
    ensures
        child_tokens(tree, p, n).len() == 0,
    decreases n,
{
    if n > 0 {
        lemma_no_children(tree, p, n - 1);
    }
}

/// Attached tokens become the further children of their node, and of no other.
proof fn lemma_children_attached(
    state: DraftState,
    node: int,
    tokens: Seq<u32>,
    p: int,
    k: int,
)
    requires
        state.tree.parent.len() == state.tree.tokens.len(),
        0 <= node <= i32::MAX,
        0 <= k <= tokens.len(),
    ensures
        child_tokens(
            crate::suffix_decoding::attach(state, node, tokens).tree,
            p,
            state.tree.tokens.len() + k,
        ) == children(state.tree, p) + (if p == node {
            tokens.take(k)
        } else {
            Seq::empty()
        }),
    decreases k,
{
    let next = crate::suffix_decoding::attach(state, node, tokens).tree;
    let n = state.tree.tokens.len() as int;
    assert(state.tree.tokens.is_prefix_of(next.tokens));
    assert(state.tree.parent.is_prefix_of(next.parent));
    if k == 0 {
        lemma_child_tokens_prefix(state.tree, next, p, n);
        assert(child_tokens(next, p, n) =~= children(state.tree, p) + (if p == node {
            tokens.take(0)
        } else {
            Seq::empty()
        }));
    } else {
        lemma_children_attached(state, node, tokens, p, k - 1);
        assert(next.parent[n + k - 1] == node as i32);
        assert(next.tokens[n + k - 1] == tokens[k - 1]);
        assert(tokens.take(k) =~= tokens.take(k - 1).push(tokens[k - 1]));
        assert(child_tokens(next, p, n + k) =~= children(state.tree, p) + (if p == node {
            tokens.take(k)
        } else {
            Seq::empty()
        }));
    }
}

/// Expanding a node gives it the children that belong below it.
proof fn lemma_expand_children(
    d: SuffixDecodingDrafter,
    hist: Seq<u32>,
    state: DraftState,
    node: int,
    anchor: u32,
    max_nodes: usize,
    max_depth: usize,
)
    requires
        crate::spec_tree::draft_fits(max_nodes, max_depth),
        hist.len() > d.min_match,
        lawful(d, hist, state, node, anchor, max_nodes as int, max_depth as int),
        0 <= node < state.tree.tokens.len() < max_nodes,
    ensures
        expanded(
            d,
            hist,
            crate::suffix_decoding::attach(
                state,
                node,
                d.children_of(hist, state, node, max_nodes as int, max_depth as int),
            ).tree,
            node + 1,
            max_nodes as int,
            max_depth as int,
        ),
{
    let tokens = d.children_of(hist, state, node, max_nodes as int, max_depth as int);
    let next = crate::suffix_decoding::attach(state, node, tokens).tree;
    let n = state.tree.tokens.len() as int;
    assert(state.tree.tokens.is_prefix_of(next.tokens));
    assert(state.tree.parent.is_prefix_of(next.parent));
    assert forall|p: int| 0 <= p < next.tokens.len() implies {
        &&& (#[trigger] children(next, p)).is_prefix_of(
            wanted(d, hist, next, p, max_depth as int),
        )
        &&& p < node + 1 && next.tokens.len() < max_nodes ==> children(next, p) == wanted(
            d,
            hist,
            next,
            p,
            max_depth as int,
        )
        &&& p >= node + 1 ==> children(next, p).len() == 0
    } by {
        lemma_children_attached(state, node, tokens, p, tokens.len() as int);
        assert(tokens.take(tokens.len() as int) =~= tokens);
        if p < n {
            lemma_path_tokens_prefix(state.tree, next, p);
            assert(next.depth[p] == state.tree.depth[p]);
            assert(wanted(d, hist, next, p, max_depth as int) == wanted(
                d,
                hist,
                state.tree,
                p,
                max_depth as int,
            ));
            let before = children(state.tree, p);
            assert(before.is_prefix_of(wanted(d, hist, state.tree, p, max_depth as int)));
            if p == node {
                assert(before.len() == 0);
                assert(children(next, p) =~= tokens);
                assert(state.paths[node] == state.tree.path_tokens(node));
            } else {
                assert(children(next, p) =~= before);
            }
        } else {
            assert forall|i: int| 0 <= i < n implies (#[trigger] state.tree.parent[i]) != p by {}
            lemma_no_children(state.tree, p, n);
            assert(children(next, p) =~= Seq::empty());
        }
    }
    assert forall|p: int, q: int|
        0 <= p < q < next.tokens.len() && (#[trigger] children(next, q)).len() > 0 implies (
    #[trigger] children(next, p)) == wanted(d, hist, next, p, max_depth as int) by {
        assert(q < node + 1);
        lemma_children_attached(state, node, tokens, p, tokens.len() as int);
        assert(tokens.take(tokens.len() as int) =~= tokens);
        lemma_path_tokens_prefix(state.tree, next, p);
        assert(next.depth[p] == state.tree.depth[p]);
        assert(children(state.tree, p) == wanted(d, hist, state.tree, p, max_depth as int));
        assert(children(next, p) =~= children(state.tree, p));
    }
}

proof fn lemma_expand_lawful(
    d: SuffixDecodingDrafter,
    hist: Seq<u32>,
    state: DraftState,
    node: int,
    anchor: u32,
    max_nodes: usize,
    max_depth: usize,
)
    requires
        crate::spec_tree::draft_fits(max_nodes, max_depth),
        hist.len() > d.min_match,
        lawful(d, hist, state, node, anchor, max_nodes as int, max_depth as int),
        0 <= node < state.tree.tokens.len() < max_nodes,
    ensures
        lawful(
            d,
            hist,
            crate::suffix_decoding::attach(
                state,
                node,
                d.children_of(hist, state, node, max_nodes as int, max_depth as int),
            ),
            node + 1,
            anchor,
            max_nodes as int,
            max_depth as int,
        ),
{
    let tokens = d.children_of(hist, state, node, max_nodes as int, max_depth as int);
    let next = crate::suffix_decoding::attach(state, node, tokens);
    let n = state.tree.tokens.len() as int;
    let path = state.paths[node];
    let context = hist + path;
    let longest = hist.len() - 1 + path.len();
    let bound: nat = (if d.max_match <= longest {
        d.max_match as int
    } else {
        longest
    }) as nat;
    proposals_are_observed(hist, context, d.min_match as nat, bound, d.branch as nat);
    let all = d.successors_of(hist, path);
    assert(tokens.len() <= all.len());
    assert forall|k: int| 0 <= k < tokens.len() implies #[trigger] tokens[k] == all[k] by {}
    assert(state.tree.tokens.is_prefix_of(next.tree.tokens));
    assert(state.tree.parent.is_prefix_of(next.tree.parent));
    lemma_expand_children(d, hist, state, node, anchor, max_nodes, max_depth);
    assert(next.tree.breadth_first()) by {
        assert forall|i: int, j: int| 0 <= i < j < next.tree.parent.len() implies (
        #[trigger] next.tree.parent[i]) <= (#[trigger] next.tree.parent[j]) by {
            if i < n {
                assert(next.tree.parent[i] == state.tree.parent[i]);
            }
            if j < n {
                assert(next.tree.parent[j] == state.tree.parent[j]);
            }
        }
    }
    assert forall|i: int| 0 < i < next.tree.tokens.len() implies 0 <= (
    #[trigger] next.tree.parent[i]) < i && next.tree.depth[i] == next.tree.depth[
    next.tree.parent[i] as int] + 1 by {
        if i < n {
            assert(next.tree.parent[i] == state.tree.parent[i]);
        } else {
            assert(next.tree.parent[i] == node as i32);
            assert(next.tree.depth[i] == (state.tree.depth[node] + 1) as u16);
        }
    }
    assert(next.tree.parent[0] == state.tree.parent[0]);
    assert(next.tree.depth[0] == state.tree.depth[0]);
    assert(next.tree.wf());
    assert forall|i: int| 0 <= i < next.tree.tokens.len() implies (#[trigger] next.tree.depth[i])
        <= max_depth && next.tree.depth[i] <= i by {
        if i >= n {
            assert(next.tree.depth[i] == (state.tree.depth[node] + 1) as u16);
        } else {
            assert(next.tree.depth[i] == state.tree.depth[i]);
        }
    }
    assert forall|i: int| 0 <= i < next.paths.len() implies #[trigger] next.paths[i]
        == next.tree.path_tokens(i) by {
        if i < n {
            lemma_path_tokens_prefix(state.tree, next.tree, i);
            assert(next.paths[i] == state.paths[i]);
        } else {
            lemma_path_tokens_prefix(state.tree, next.tree, node);
            assert(next.tree.parent[i] == node as i32);
            assert(next.tree.tokens[i] == tokens[i - n]);
            assert(next.paths[i] == state.paths[node].push(tokens[i - n]));
        }
    }
    assert forall|i: int| 0 <= i < next.tree.tokens.len() implies (#[trigger] next.tree.parent[i])
        < node + 1 by {
        if i < n {
            assert(next.tree.parent[i] == state.tree.parent[i]);
        }
    }
    assert(crate::tree_laws::siblings_distinct(next.tree)) by {
        assert forall|a: int, b: int|
            0 < a < b < next.tree.tokens.len() && #[trigger] next.tree.parent[a]
                == #[trigger] next.tree.parent[b] implies next.tree.tokens[a]
            != next.tree.tokens[b] by {
            if b < n {
                assert(state.tree.parent[a] == state.tree.parent[b]);
            } else if a < n {
                assert(next.tree.parent[a] == state.tree.parent[a]);
                assert(next.tree.parent[b] == node as i32);
            } else {
                assert(tokens[a - n] == all[a - n]);
                assert(tokens[b - n] == all[b - n]);
            }
        }
    }
    assert(children_adjacent(next.tree, d.branch as int)) by {
        assert forall|a: int, b: int|
            0 < a <= b < next.tree.tokens.len() && #[trigger] next.tree.parent[a]
                == #[trigger] next.tree.parent[b] implies b - a < d.branch by {
            if b < n {
                assert(state.tree.parent[a] == state.tree.parent[b]);
            } else if a < n {
                assert(next.tree.parent[a] == state.tree.parent[a]);
                assert(next.tree.parent[b] == node as i32);
            }
        }
    }
    assert forall|i: int| 0 < i < next.tree.tokens.len() implies #[trigger] node_is_observed(
        d,
        hist,
        next.tree,
        i,
    ) by {
        let p = next.tree.parent[i] as int;
        if i < n {
            assert(node_is_observed(d, hist, state.tree, i));
            assert(p == state.tree.parent[i]);
            lemma_path_tokens_prefix(state.tree, next.tree, p);
        } else {
            assert(p == node);
            lemma_path_tokens_prefix(state.tree, next.tree, node);
            assert(context == hist + next.tree.path_tokens(p));
            assert(next.tree.tokens[i] == all[i - n]);
            assert(observed(hist, context, d.min_match as nat, bound, all[i - n]));
            let (m, s) = choose|m: int, s: int|
                d.min_match <= m <= bound && 1 <= m && #[trigger] followed(
                    hist,
                    context,
                    m,
                    s,
                    all[i - n],
                );
            assert(followed(hist, context, m, s, all[i - n]));
        }
    }
}

proof fn lemma_grow_lawful(
    d: SuffixDecodingDrafter,
    hist: Seq<u32>,
    state: DraftState,
    node: int,
    anchor: u32,
    max_nodes: usize,
    max_depth: usize,
)
    requires
        crate::spec_tree::draft_fits(max_nodes, max_depth),
        hist.len() > d.min_match,
        lawful(d, hist, state, node, anchor, max_nodes as int, max_depth as int),
        0 <= node,
    ensures
        ({
            let end = d.grow(hist, state, node, max_nodes as int, max_depth as int);
            lawful(
                d,
                hist,
                end,
                end.tree.tokens.len() as int,
                anchor,
                max_nodes as int,
                max_depth as int,
            )
        }),
    decreases max_nodes - state.tree.tokens.len(), state.tree.tokens.len() - node,
{
    if node >= state.tree.tokens.len() || state.tree.tokens.len() >= max_nodes {
    } else {
        let children = d.children_of(hist, state, node, max_nodes as int, max_depth as int);
        lemma_expand_lawful(d, hist, state, node, anchor, max_nodes, max_depth);
        lemma_grow_lawful(
            d,
            hist,
            crate::suffix_decoding::attach(state, node, children),
            node + 1,
            anchor,
            max_nodes,
            max_depth,
        );
    }
}

/// A drafted tree is rooted at the anchor, stays within both budgets, gives no
/// node more than `branch` children and no two siblings the same token, and
/// holds only tokens that were observed to follow their context.
pub proof fn drafts_are_observed(
    d: SuffixDecodingDrafter,
    history: Seq<u32>,
    anchor: u32,
    max_nodes: usize,
    max_depth: usize,
)
    requires
        crate::spec_tree::draft_fits(max_nodes, max_depth),
    ensures
        ({
            let hist = crate::suffix_decoding::recent(history, d.window as nat);
            let end = d.drafted(history, anchor, max_nodes as int, max_depth as int);
            &&& end.tree.wf()
            &&& end.tree.tokens[0] == anchor
            &&& crate::spec_tree::within_budget(end.tree, max_nodes, max_depth)
            &&& crate::tree_laws::siblings_distinct(end.tree)
            &&& end.tree.tokens.len() > 1 ==> children_adjacent(end.tree, d.branch as int)
            &&& forall|i: int|
                0 < i < end.tree.tokens.len() ==> #[trigger] node_is_observed(d, hist, end.tree, i)
            &&& end.paths.len() == end.tree.tokens.len()
            &&& forall|i: int|
                0 <= i < end.paths.len() ==> #[trigger] end.paths[i] == end.tree.path_tokens(i)
        }),
{
    lemma_drafted_lawful(d, history, anchor, max_nodes, max_depth);
    let root = crate::suffix_decoding::root_state(anchor);
    assert(root.tree.path_tokens(0) =~= Seq::empty());
    assert(root.paths[0] =~= Seq::empty());
}

/// A draft is lawful, unless it is the bare anchor because nothing may be drafted.
proof fn lemma_drafted_lawful(
    d: SuffixDecodingDrafter,
    history: Seq<u32>,
    anchor: u32,
    max_nodes: usize,
    max_depth: usize,
)
    requires
        crate::spec_tree::draft_fits(max_nodes, max_depth),
    ensures
        ({
            let hist = crate::suffix_decoding::recent(history, d.window as nat);
            let end = d.drafted(history, anchor, max_nodes as int, max_depth as int);
            let n = end.tree.tokens.len() as int;
            &&& lawful(d, hist, end, n, anchor, max_nodes as int, max_depth as int) || end
                == crate::suffix_decoding::root_state(anchor)
            &&& end.tree.wf()
            &&& end.tree.breadth_first()
            &&& expanded(d, hist, end.tree, n, max_nodes as int, max_depth as int)
        }),
{
    let hist = crate::suffix_decoding::recent(history, d.window as nat);
    let root = crate::suffix_decoding::root_state(anchor);
    assert(root.tree.path_tokens(0) =~= Seq::empty());
    assert(root.paths[0] =~= Seq::empty());
    lemma_no_children(root.tree, 0, 1);
    if max_nodes <= 1 || max_depth == 0 || d.branch == 0 || hist.len() <= d.min_match {
        if max_depth > 0 && d.branch == 0 && hist.len() > d.min_match {
            let context = hist + root.tree.path_tokens(0);
            assert(context =~= hist);
            let bound: nat = (if d.max_match <= hist.len() - 1 {
                d.max_match as int
            } else {
                hist.len() - 1
            }) as nat;
            proposals_are_observed(hist, context, d.min_match as nat, bound, 0);
            assert(wanted(d, hist, root.tree, 0, max_depth as int) =~= Seq::empty());
        }
        assert forall|p: int| 0 <= p < root.tree.tokens.len() implies {
            &&& (#[trigger] children(root.tree, p)).is_prefix_of(
                wanted(d, hist, root.tree, p, max_depth as int),
            )
            &&& p < 1 && root.tree.tokens.len() < max_nodes ==> children(root.tree, p) == wanted(
                d,
                hist,
                root.tree,
                p,
                max_depth as int,
            )
            &&& p >= 1 ==> children(root.tree, p).len() == 0
        } by {
            assert(p == 0);
            assert(children(root.tree, p) =~= Seq::empty());
        }
    } else {
        assert(children(root.tree, 0) =~= Seq::empty());
        assert(lawful(d, hist, root, 0, anchor, max_nodes as int, max_depth as int));
        lemma_grow_lawful(d, hist, root, 0, anchor, max_nodes, max_depth);
    }
}

/// A drafted tree stands in breadth-first order: no node has an earlier parent than
/// the node before it, and none is less deep.
pub proof fn drafts_are_breadth_first(
    d: SuffixDecodingDrafter,
    history: Seq<u32>,
    anchor: u32,
    max_nodes: usize,
    max_depth: usize,
)
    requires
        crate::spec_tree::draft_fits(max_nodes, max_depth),
    ensures
        ({
            let tree = d.drafted(history, anchor, max_nodes as int, max_depth as int).tree;
            &&& tree.breadth_first()
            &&& forall|i: int, j: int|
                0 <= i < j < tree.depth.len() ==> (#[trigger] tree.depth[i]) <= (
                #[trigger] tree.depth[j])
        }),
{
    lemma_drafted_lawful(d, history, anchor, max_nodes, max_depth);
    let tree = d.drafted(history, anchor, max_nodes as int, max_depth as int).tree;
    assert forall|i: int, j: int| 0 <= i < j < tree.depth.len() implies (#[trigger] tree.depth[i])
        <= (#[trigger] tree.depth[j]) by {
        crate::tree_laws::breadth_first_depths(tree, i, j);
    }
}

/// The children of a node are its preferred successors: in order, as far as the node
/// budget reaches, and all of them where the budget is not spent, or where a later node
/// has children.
pub proof fn children_are_preferred_successors(
    d: SuffixDecodingDrafter,
    history: Seq<u32>,
    anchor: u32,
    max_nodes: usize,
    max_depth: usize,
    node: int,
)
    requires
        crate::spec_tree::draft_fits(max_nodes, max_depth),
        0 <= node < d.drafted(
            history,
            anchor,
            max_nodes as int,
            max_depth as int,
        ).tree.tokens.len(),
    ensures
        ({
            let hist = crate::suffix_decoding::recent(history, d.window as nat);
            let tree = d.drafted(history, anchor, max_nodes as int, max_depth as int).tree;
            &&& children(tree, node).is_prefix_of(wanted(d, hist, tree, node, max_depth as int))
            &&& tree.tokens.len() < max_nodes ==> children(tree, node) == wanted(
                d,
                hist,
                tree,
                node,
                max_depth as int,
            )
            &&& forall|q: int|
                node < q < tree.tokens.len() && (#[trigger] children(tree, q)).len() > 0
                    ==> children(tree, node) == wanted(d, hist, tree, node, max_depth as int)
        }),
{
    lemma_drafted_lawful(d, history, anchor, max_nodes, max_depth);
}

/// Below the node cap and above the depth limit, the children of a node are exactly
/// the preferred successors of its longest recurring suffix: where the last `m` tokens
/// of the history continued by the node's path recurred, and no longer admitted suffix
/// did, they are the preferred successors of those `m` tokens.
pub proof fn children_follow_the_longest_match(
    d: SuffixDecodingDrafter,
    history: Seq<u32>,
    anchor: u32,
    max_nodes: usize,
    max_depth: usize,
    node: int,
    m: nat,
)
    requires
        crate::spec_tree::draft_fits(max_nodes, max_depth),
        ({
            let hist = crate::suffix_decoding::recent(history, d.window as nat);
            let tree = d.drafted(history, anchor, max_nodes as int, max_depth as int).tree;
            let context = hist + tree.path_tokens(node);
            &&& 0 <= node < tree.tokens.len() < max_nodes
            &&& tree.depth[node] < max_depth
            &&& hist.len() > d.min_match
            &&& 1 <= m && d.min_match <= m <= d.max_match && m < context.len()
            &&& !suffix_counts(hist, context, m as int).dom().is_empty()
            &&& forall|j: int|
                m < j <= d.max_match && j < context.len() ==> (#[trigger] suffix_counts(
                    hist,
                    context,
                    j,
                )).dom().is_empty()
        }),
    ensures
        ({
            let hist = crate::suffix_decoding::recent(history, d.window as nat);
            let tree = d.drafted(history, anchor, max_nodes as int, max_depth as int).tree;
            let context = hist + tree.path_tokens(node);
            children(tree, node) == crate::suffix_decoding::top_tokens(
                suffix_counts(hist, context, m as int),
                d.branch as nat,
            )
        }),
{
    let hist = crate::suffix_decoding::recent(history, d.window as nat);
    let tree = d.drafted(history, anchor, max_nodes as int, max_depth as int).tree;
    let path = tree.path_tokens(node);
    let longest = hist.len() - 1 + path.len();
    let bound: nat = (if d.max_match <= longest {
        d.max_match as int
    } else {
        longest
    }) as nat;
    children_are_preferred_successors(d, history, anchor, max_nodes, max_depth, node);
    longest_match_wins(hist, hist + path, d.min_match as nat, bound, d.branch as nat, m);
}

/// Where no admitted suffix of the history recurred in its window, the draft is
/// the bare anchor.
pub proof fn no_recurrence_drafts_the_anchor(
    d: SuffixDecodingDrafter,
    history: Seq<u32>,
    anchor: u32,
    max_nodes: usize,
    max_depth: usize,
)
    requires
        ({
            let hist = crate::suffix_decoding::recent(history, d.window as nat);
            forall|j: int|
                1 <= j && d.min_match <= j <= d.max_match && j < hist.len() ==> (
                #[trigger] suffix_counts(hist, hist, j)).dom().is_empty()
        }),
    ensures
        d.drafted(history, anchor, max_nodes as int, max_depth as int)
            == crate::suffix_decoding::root_state(anchor),
{
    let hist = crate::suffix_decoding::recent(history, d.window as nat);
    let root = crate::suffix_decoding::root_state(anchor);
    if max_nodes <= 1 || max_depth == 0 || d.branch == 0 || hist.len() <= d.min_match {
    } else {
        let empty = Seq::<u32>::empty();
        assert(hist + empty =~= hist);
        assert(root.paths[0] =~= empty);
        let bound: nat = (if d.max_match <= hist.len() - 1 {
            d.max_match as int
        } else {
            hist.len() - 1
        }) as nat;
        no_match_no_proposal(hist, hist, d.min_match as nat, bound, d.branch as nat);
        let children = d.children_of(hist, root, 0, max_nodes as int, max_depth as int);
        assert(children =~= empty);
        let next = crate::suffix_decoding::attach(root, 0, children);
        assert(next =~= root);
        reveal_with_fuel(SuffixDecodingDrafter::grow, 3);
    }
}

} // verus!

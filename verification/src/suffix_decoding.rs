//! Model-free suffix decoding.
//!
//! Drafts a tree of likely continuations from the observed token stream alone.
//! Where the n-gram drafter takes the single most recent match, this drafter
//! aggregates all earlier matches of the current suffix into counts and follows
//! the most frequent continuations, level by level.

use std::collections::HashMap;
use vstd::prelude::*;

use crate::spec_tree::TokenTree;
use crate::spec_tree::TreeDrafter;
use crate::spec_tree::TreeModel;
use crate::speculative::matches_at;

verus! {

/// How many starts before `end` carry an occurrence of `pattern` that `token`
/// follows.
pub open spec fn follow_count(hist: Seq<u32>, pattern: Seq<u32>, token: u32, end: int) -> nat
    decreases end,
{
    if end <= 0 {
        0
    } else {
        let here: nat = if crate::speculative::occurs_at(hist, pattern, end - 1) && hist[end - 1
            + pattern.len()] == token {
            1
        } else {
            0
        };
        follow_count(hist, pattern, token, end - 1) + here
    }
}

/// Every token that followed an occurrence of `pattern` starting before `end`,
/// with the number of times it did.
pub open spec fn follow_counts(hist: Seq<u32>, pattern: Seq<u32>, end: int) -> Map<u32, nat> {
    Map::new(
        |t: u32| follow_count(hist, pattern, t, end) > 0,
        |t: u32| follow_count(hist, pattern, t, end),
    )
}

/// The successors of `pattern` in `hist`, its trailing occurrence left out.
pub open spec fn successor_counts(hist: Seq<u32>, pattern: Seq<u32>) -> Map<u32, nat> {
    if pattern.len() == 0 || hist.len() <= pattern.len() {
        Map::empty()
    } else {
        follow_counts(hist, pattern, hist.len() - pattern.len())
    }
}

/// The order in which successors are preferred: by count, then by lower token.
pub open spec fn ranks_before(counts: Map<u32, nat>, a: u32, b: u32) -> bool {
    counts[a] > counts[b] || (counts[a] == counts[b] && a < b)
}

/// `t` is preferred to every other successor.
pub open spec fn is_best(counts: Map<u32, nat>, t: u32) -> bool {
    counts.contains_key(t) && forall|u: u32|
        #[trigger] counts.contains_key(u) && u != t ==> ranks_before(counts, t, u)
}

/// The preferred successor of a non-empty map.
pub open spec fn best(counts: Map<u32, nat>) -> u32 {
    choose|t: u32| is_best(counts, t)
}

/// The `branch` most preferred successors, best first.
pub open spec fn top_tokens(counts: Map<u32, nat>, branch: nat) -> Seq<u32>
    decreases branch,
{
    if branch == 0 || counts.dom().is_empty() {
        Seq::empty()
    } else {
        seq![best(counts)] + top_tokens(counts.remove(best(counts)), (branch - 1) as nat)
    }
}

/// The counts held by an executable map.
pub open spec fn counts_of(freq: Map<u32, usize>) -> Map<u32, nat> {
    freq.map_values(|c: usize| c as nat)
}

/// The successors that occurred at least once.
pub open spec fn occurring(counts: Map<u32, nat>) -> Map<u32, nat> {
    counts.restrict(Set::new(|t: u32| counts[t] > 0))
}

/// The most recent `window` tokens.
pub open spec fn recent(history: Seq<u32>, window: nat) -> Seq<u32> {
    if history.len() <= window {
        history
    } else {
        history.skip(history.len() - window)
    }
}

/// The preferred successors of the longest suffix of `context`, of at most `n`
/// and at least `min_match` tokens, that recurred in `hist`.
pub open spec fn longest_match_tokens(
    hist: Seq<u32>,
    context: Seq<u32>,
    min_match: nat,
    n: nat,
    branch: nat,
) -> Seq<u32>
    decreases n,
{
    if n == 0 || n < min_match {
        Seq::empty()
    } else {
        let counts = successor_counts(
            hist,
            crate::speculative::last_tokens(context, n as int),
        );
        if counts.dom().is_empty() {
            longest_match_tokens(hist, context, min_match, (n - 1) as nat, branch)
        } else {
            top_tokens(counts, branch)
        }
    }
}

/// A tree under construction together with the tokens drafted along the path to
/// each of its nodes.
#[verifier::ext_equal]
pub struct DraftState {
    pub tree: TreeModel,
    pub paths: Seq<Seq<u32>>,
}

/// The anchor-only state.
pub open spec fn root_state(anchor: u32) -> DraftState {
    DraftState {
        tree: crate::spec_tree::linear_model(anchor, Seq::empty()),
        paths: seq![Seq::<u32>::empty()],
    }
}

/// `state` with `tokens` attached, in order, as children of `node`.
pub open spec fn attach(state: DraftState, node: int, tokens: Seq<u32>) -> DraftState {
    DraftState {
        tree: TreeModel {
            tokens: state.tree.tokens + tokens,
            parent: state.tree.parent + Seq::new(tokens.len(), |k: int| node as i32),
            depth: state.tree.depth + Seq::new(
                tokens.len(),
                |k: int| (state.tree.depth[node] + 1) as u16,
            ),
        },
        paths: state.paths + Seq::new(tokens.len(), |k: int| state.paths[node].push(tokens[k])),
    }
}

impl SuffixDecodingDrafter {
    /// The tokens proposed to follow `hist` continued by `path`.
    pub open spec fn successors_of(self, hist: Seq<u32>, path: Seq<u32>) -> Seq<u32> {
        let longest = hist.len() - 1 + path.len();
        longest_match_tokens(
            hist,
            hist + path,
            self.min_match as nat,
            (if self.max_match <= longest {
                self.max_match as int
            } else {
                longest
            }) as nat,
            self.branch as nat,
        )
    }

    /// The tokens attached below `node`: its successors as far as the node
    /// budget reaches, none at the depth limit.
    pub open spec fn children_of(
        self,
        hist: Seq<u32>,
        state: DraftState,
        node: int,
        max_nodes: int,
        max_depth: int,
    ) -> Seq<u32> {
        if state.tree.depth[node] >= max_depth {
            Seq::empty()
        } else {
            let tokens = self.successors_of(hist, state.paths[node]);
            let room = max_nodes - state.tree.tokens.len();
            if tokens.len() <= room {
                tokens
            } else {
                tokens.take(room)
            }
        }
    }

    /// Expand `node` and every later node in order until the node budget is
    /// spent or no node is left to expand.
    pub open spec fn grow(
        self,
        hist: Seq<u32>,
        state: DraftState,
        node: int,
        max_nodes: int,
        max_depth: int,
    ) -> DraftState
        decreases max_nodes - state.tree.tokens.len(), state.tree.tokens.len() - node,
    {
        if node >= state.tree.tokens.len() || state.tree.tokens.len() >= max_nodes {
            state
        } else {
            let children = self.children_of(hist, state, node, max_nodes, max_depth);
            self.grow(hist, attach(state, node, children), node + 1, max_nodes, max_depth)
        }
    }

    /// The state that a draft ends in.
    pub open spec fn drafted(
        self,
        history: Seq<u32>,
        anchor: u32,
        max_nodes: int,
        max_depth: int,
    ) -> DraftState {
        let hist = recent(history, self.window as nat);
        if max_nodes <= 1 || max_depth == 0 || self.branch == 0 || hist.len() <= self.min_match {
            root_state(anchor)
        } else {
            self.grow(hist, root_state(anchor), 0, max_nodes, max_depth)
        }
    }
}

/// Model-free suffix-decoding tree drafter.
#[derive(Debug, Clone)]
pub struct SuffixDecodingDrafter {
    /// Longest suffix length to try matching.
    pub max_match: usize,
    /// Shortest suffix length worth matching.
    pub min_match: usize,
    /// Cap on the history window scanned for matches (most recent tokens).
    pub window: usize,
    /// Most distinct successors attached to one tree node.
    pub branch: usize,
}

impl Default for SuffixDecodingDrafter {
    fn default() -> (drafter: Self)
        ensures
            drafter.max_match == 4,
            drafter.min_match == 2,
            drafter.window == 512,
            drafter.branch == 2,
    {
        SuffixDecodingDrafter { max_match: 4, min_match: 2, window: 512, branch: 2 }
    }
}

proof fn lemma_follow_counts_step(hist: Seq<u32>, pattern: Seq<u32>, start: int)
    requires
        0 <= start,
    ensures
        crate::speculative::occurs_at(hist, pattern, start) ==> {
            let t = hist[start + pattern.len()];
            let old_count = follow_count(hist, pattern, t, start);
            follow_counts(hist, pattern, start + 1) =~= follow_counts(hist, pattern, start).insert(
                t,
                old_count + 1,
            )
        },
        !crate::speculative::occurs_at(hist, pattern, start) ==> follow_counts(
            hist,
            pattern,
            start + 1,
        ) =~= follow_counts(hist, pattern, start),
{
}

proof fn lemma_follow_count_bound(hist: Seq<u32>, pattern: Seq<u32>, token: u32, end: int)
    requires
        0 <= end,
    ensures
        follow_count(hist, pattern, token, end) <= end,
    decreases end,
{
    if end > 0 {
        lemma_follow_count_bound(hist, pattern, token, end - 1);
    }
}

/// A finite, non-empty map of counts has exactly one best token.
proof fn lemma_best_unique(counts: Map<u32, nat>, t: u32)
    requires
        is_best(counts, t),
    ensures
        best(counts) == t,
{
    let b = best(counts);
    assert(is_best(counts, b));
    if b != t {
        assert(ranks_before(counts, t, b));
        assert(ranks_before(counts, b, t));
    }
}

impl SuffixDecodingDrafter {
    /// Of all earlier occurrences of `pattern` within `hist`, the token that
    /// follows each, with its frequency. The trailing occurrence has no
    /// successor and is not counted.
    pub fn successor_freqs(hist: &[u32], pattern: &[u32]) -> (freq: HashMap<u32, usize>)
        ensures
            counts_of(freq@) == successor_counts(hist@, pattern@),
    {
        broadcast use vstd::std_specs::hash::group_hash_axioms;

        let mut freq: HashMap<u32, usize> = HashMap::new();
        let n: usize = pattern.len();
        let len: usize = hist.len();
        if n == 0 || len <= n {
            assert(counts_of(freq@) =~= successor_counts(hist@, pattern@));
            return freq;
        }
        let limit: usize = len - n;
        let mut start: usize = 0;
        assert(counts_of(freq@) =~= follow_counts(hist@, pattern@, 0));
        while start < limit
            invariant
                n == pattern@.len(),
                len == hist@.len(),
                0 < n < len,
                limit == len - n,
                start <= limit,
                counts_of(freq@) == follow_counts(hist@, pattern@, start as int),
            decreases limit - start,
        {
            proof {
                lemma_follow_counts_step(hist@, pattern@, start as int);
            }
            if matches_at(hist, start, pattern) {
                let token: u32 = hist[start + n];
                let ghost before = freq@;
                proof {
                    lemma_follow_count_bound(hist@, pattern@, token, start as int);
                    assert(counts_of(before).contains_key(token) == before.contains_key(token));
                }
                let seen: usize = match freq.get(&token) {
                    Some(c) => *c,
                    None => 0,
                };
                proof {
                    if before.contains_key(token) {
                        assert(counts_of(before)[token] == before[token] as nat);
                    }
                    assert(seen == follow_count(hist@, pattern@, token, start as int));
                }
                freq.insert(token, seen + 1);
                assert(counts_of(freq@) =~= counts_of(before).insert(token, (seen + 1) as nat));
            }
            start = start + 1;
        }
        freq
    }

    /// The preferred successor that occurred at least once, if there is any.
    fn best_successor(freq: &HashMap<u32, usize>) -> (found: Option<u32>)
        ensures
            found matches Some(t) ==> is_best(occurring(counts_of(freq@)), t) && freq@.contains_key(
                t,
            ),
            found is None ==> occurring(counts_of(freq@)).dom().is_empty(),
    {
        broadcast use vstd::std_specs::hash::group_hash_axioms;

        let mut top: Option<(u32, usize)> = None;
        let ghost pairs = vstd::std_specs::iter::IteratorSpec::remaining(&freq.iter());
        for (t, c) in it: freq.iter()
            invariant
                pairs == it.seq(),
                pairs == vstd::std_specs::iter::IteratorSpec::remaining(&freq.iter()),
                top is None ==> forall|k: int|
                    0 <= k < it.index() ==> *(#[trigger] pairs[k]).1 == 0,
                top matches Some(b) ==> freq@.contains_key(b.0) && freq@[b.0] == b.1 && b.1 > 0,
                top matches Some(b) ==> forall|k: int|
                    0 <= k < it.index() && *(#[trigger] pairs[k]).0 != b.0 ==> b.1 > *pairs[k].1
                        || (b.1 == *pairs[k].1 && b.0 < *pairs[k].0),
        {
            proof {
                assert(freq@.contains_key(*pairs[it.index()].0));
                assert(freq@[*pairs[it.index()].0] == *pairs[it.index()].1);
            }
            let better: bool = match top {
                None => *c > 0,
                Some((bt, bc)) => *c > bc || (*c == bc && *t < bt),
            };
            if better {
                top = Some((*t, *c));
            }
        }
        let ghost counts = occurring(counts_of(freq@));
        match top {
            Some((t, c)) => {
                proof {
                    assert forall|u: u32|
                        #[trigger] counts.contains_key(u) && u != t implies ranks_before(
                        counts,
                        t,
                        u,
                    ) by {
                        assert(freq@.contains_key(u));
                        assert(pairs.contains((&u, &freq@[u])));
                        let k = choose|k: int| 0 <= k < pairs.len() && pairs[k] == (&u, &freq@[u]);
                        assert(*pairs[k].0 == u);
                    }
                }
                Some(t)
            },
            None => {
                proof {
                    assert forall|u: u32| !#[trigger] counts.dom().contains(u) by {
                        if counts.dom().contains(u) {
                            assert(freq@.contains_key(u));
                            assert(pairs.contains((&u, &freq@[u])));
                            let k = choose|k: int|
                                0 <= k < pairs.len() && pairs[k] == (&u, &freq@[u]);
                            assert(*pairs[k].1 == 0);
                        }
                    }
                    assert(counts.dom() =~= Set::empty());
                }
                None
            },
        }
    }

    /// Up to `branch` most frequent successors, ties broken by lower token id, of
    /// those that occurred at least once.
    pub fn top_successors(freq: &HashMap<u32, usize>, branch: usize) -> (tokens: Vec<u32>)
        ensures
            tokens@ == top_tokens(occurring(counts_of(freq@)), branch as nat),
    {
        broadcast use vstd::std_specs::hash::group_hash_axioms;

        let mut left: HashMap<u32, usize> = freq.clone();
        let mut tokens: Vec<u32> = Vec::new();
        let ghost wanted = top_tokens(occurring(counts_of(freq@)), branch as nat);
        assert(wanted =~= tokens@ + top_tokens(occurring(counts_of(left@)), branch as nat));
        while tokens.len() < branch
            invariant
                tokens@.len() <= branch,
                wanted == top_tokens(occurring(counts_of(freq@)), branch as nat),
                wanted == tokens@ + top_tokens(
                    occurring(counts_of(left@)),
                    (branch - tokens@.len()) as nat,
                ),
            decreases branch - tokens@.len(),
        {
            let ghost counts = occurring(counts_of(left@));
            match Self::best_successor(&left) {
                Some(t) => {
                    let ghost before = tokens@;
                    proof {
                        lemma_best_unique(counts, t);
                        assert(!counts.dom().is_empty()) by {
                            assert(counts.dom().contains(t));
                        }
                    }
                    left.remove(&t);
                    tokens.push(t);
                    proof {
                        assert(occurring(counts_of(left@)) =~= counts.remove(t));
                        assert(wanted =~= tokens@ + top_tokens(
                            occurring(counts_of(left@)),
                            (branch - tokens@.len()) as nat,
                        ));
                    }
                },
                None => {
                    assert(wanted =~= tokens@);
                    return tokens;
                },
            }
        }
        assert(wanted =~= tokens@);
        tokens
    }
}

/// Take the next node to expand from the front, so that nodes are expanded in
/// the order in which they were attached.
pub fn frontier_pop(frontier: &mut Vec<usize>) -> (next: Option<usize>)
    ensures
        old(frontier)@.len() == 0 ==> next is None && final(frontier)@ == old(frontier)@,
        old(frontier)@.len() > 0 ==> next == Some(old(frontier)@[0]) && final(frontier)@ == old(
            frontier,
        )@.drop_first(),
{
    if frontier.is_empty() {
        None
    } else {
        let next: usize = frontier.remove(0);
        assert(frontier@ =~= old(frontier)@.drop_first());
        Some(next)
    }
}

/// The length-`n` suffix of `hist` followed by `path`; empty where the two
/// together are shorter.
pub fn build_pattern(hist: &[u32], path: &[u32], n: usize) -> (pattern: Vec<u32>)
    ensures
        n <= hist@.len() + path@.len() ==> pattern@ == crate::speculative::last_tokens(
            hist@ + path@,
            n as int,
        ),
        n > hist@.len() + path@.len() ==> pattern@.len() == 0,
{
    let mut pattern: Vec<u32> = Vec::new();
    let path_len: usize = path.len();
    let hist_len: usize = hist.len();
    if path_len >= n {
        pattern.extend_from_slice(vstd::slice::slice_subrange(path, path_len - n, path_len));
        assert(pattern@ =~= crate::speculative::last_tokens(hist@ + path@, n as int));
    } else {
        let from_hist: usize = n - path_len;
        if from_hist <= hist_len {
            pattern.extend_from_slice(
                vstd::slice::slice_subrange(hist, hist_len - from_hist, hist_len),
            );
            pattern.extend_from_slice(path);
            assert(pattern@ =~= crate::speculative::last_tokens(hist@ + path@, n as int));
        }
    }
    pattern
}

/// What holds of every state on the way: the anchor stands at the root, the
/// node budget is kept, and where the fields are wide enough the tree is
/// well-formed and no deeper than allowed.
spec fn sound_state(state: DraftState, anchor: u32, max_nodes: usize, max_depth: usize) -> bool {
    &&& state.tree.tokens.len() >= 1
    &&& state.tree.tokens.len() <= max_nodes
    &&& state.tree.parent.len() == state.tree.tokens.len()
    &&& state.tree.depth.len() == state.tree.tokens.len()
    &&& state.paths.len() == state.tree.tokens.len()
    &&& state.tree.tokens[0] == anchor
    &&& crate::spec_tree::draft_fits(max_nodes, max_depth) ==> {
        &&& state.tree.wf()
        &&& crate::spec_tree::within_budget(state.tree, max_nodes, max_depth)
        &&& forall|i: int|
            0 <= i < state.tree.tokens.len() ==> (#[trigger] state.tree.depth[i]) <= i
    }
}

proof fn lemma_attach_sound(
    state: DraftState,
    node: int,
    tokens: Seq<u32>,
    anchor: u32,
    max_nodes: usize,
    max_depth: usize,
)
    requires
        sound_state(state, anchor, max_nodes, max_depth),
        0 <= node < state.tree.tokens.len(),
        state.tree.tokens.len() + tokens.len() <= max_nodes,
        tokens.len() > 0 ==> state.tree.depth[node] < max_depth,
    ensures
        sound_state(attach(state, node, tokens), anchor, max_nodes, max_depth),
{
    let next = attach(state, node, tokens);
    if crate::spec_tree::draft_fits(max_nodes, max_depth) {
        let n = state.tree.tokens.len() as int;
        assert forall|i: int| 0 < i < next.tree.tokens.len() implies 0 <= (
        #[trigger] next.tree.parent[i]) < i && next.tree.depth[i] == next.tree.depth[
        next.tree.parent[i] as int] + 1 by {
            if i < n {
                assert(next.tree.parent[i] == state.tree.parent[i]);
            } else {
                assert(next.tree.parent[i] == node as i32);
                assert(node < max_nodes - 1);
                assert(next.tree.depth[i] == (state.tree.depth[node] + 1) as u16);
            }
        }
        assert forall|i: int| 0 <= i < next.tree.depth.len() implies (#[trigger] next.tree.depth[i])
            <= max_depth && next.tree.depth[i] <= i by {
            if i >= n {
                assert(next.tree.depth[i] == (state.tree.depth[node] + 1) as u16);
            } else {
                assert(next.tree.depth[i] == state.tree.depth[i]);
            }
        }
        assert(next.tree.parent[0] == state.tree.parent[0]);
        assert(next.tree.depth[0] == state.tree.depth[0]);
    }
}

impl SuffixDecodingDrafter {
    /// Successor frequencies for a pattern that ends in the drafted path. All
    /// earlier occurrences lie in `hist`, so `hist` alone is scanned.
    pub fn successor_freqs_ctx(hist: &[u32], path: &[u32], pattern: &[u32]) -> (freq: HashMap<
        u32,
        usize,
    >)
        ensures
            counts_of(freq@) == successor_counts(hist@, pattern@),
    {
        let _ = path;
        Self::successor_freqs(hist, pattern)
    }

    /// The successors of the longest recurring suffix of `hist` continued by
    /// `path`.
    fn choose_successors(&self, hist: &[u32], path: &[u32]) -> (tokens: Vec<u32>)
        requires
            hist@.len() >= 1,
        ensures
            tokens@ == self.successors_of(hist@, path@),
    {
        let longest: usize = (hist.len() - 1).saturating_add(path.len());
        let mut n: usize = if self.max_match <= longest {
            self.max_match
        } else {
            longest
        };
        let ghost wanted = self.successors_of(hist@, path@);
        while n > 0 && n >= self.min_match
            invariant
                n <= hist@.len() - 1 + path@.len(),
                wanted == self.successors_of(hist@, path@),
                wanted == longest_match_tokens(
                    hist@,
                    hist@ + path@,
                    self.min_match as nat,
                    n as nat,
                    self.branch as nat,
                ),
            decreases n,
        {
            let pattern: Vec<u32> = build_pattern(hist, path, n);
            let freq: HashMap<u32, usize> = Self::successor_freqs_ctx(
                hist,
                path,
                pattern.as_slice(),
            );
            let ghost counts = counts_of(freq@);
            if !freq.is_empty() {
                proof {
                    assert(occurring(counts) =~= counts);
                    assert(!counts.dom().is_empty()) by {
                        assert(counts.dom() =~= freq@.dom());
                        if counts.dom().is_empty() {
                            assert(freq@ =~= Map::empty());
                        }
                    }
                }
                return Self::top_successors(&freq, self.branch);
            }
            assert(counts.dom() =~= Set::empty());
            n = n - 1;
        }
        Vec::new()
    }
}

/// The paths held by an executable vector.
spec fn path_seqs(paths: Seq<Vec<u32>>) -> Seq<Seq<u32>> {
    paths.map_values(|p: Vec<u32>| p@)
}

impl TreeDrafter for SuffixDecodingDrafter {
    fn draft_tree(
        &mut self,
        history: &[u32],
        anchor: u32,
        max_nodes: usize,
        max_depth: usize,
    ) -> (tree: TokenTree)
        ensures
            *final(self) == *old(self),
            tree@ == old(self).drafted(
                history@,
                anchor,
                max_nodes as int,
                max_depth as int,
            ).tree,
    {
        let mut tree: TokenTree = TokenTree::linear(anchor, &[]);
        let ghost me = *self;
        proof {
            assert(tree@ =~= root_state(anchor).tree);
        }
        if max_nodes <= 1 || max_depth == 0 || self.branch == 0 {
            return tree;
        }
        let len: usize = history.len();
        let start: usize = len.saturating_sub(self.window);
        let hist: &[u32] = vstd::slice::slice_subrange(history, start, len);
        proof {
            assert(hist@ =~= recent(history@, self.window as nat));
        }
        if hist.len() <= self.min_match {
            return tree;
        }
        let ghost goal = me.drafted(history@, anchor, max_nodes as int, max_depth as int);
        let mut frontier: Vec<usize> = Vec::new();
        frontier.push(0);
        let mut paths: Vec<Vec<u32>> = Vec::new();
        paths.push(Vec::new());
        let ghost mut state = root_state(anchor);
        let ghost mut next: int = 0;
        proof {
            assert(path_seqs(paths@) =~= state.paths);
            assert(frontier@ =~= Seq::new(1, |k: int| k as usize));
        }
        while frontier.len() > 0 && tree.nodes() < max_nodes
            invariant
                *self == me,
                hist@.len() >= 1,
                0 <= next <= state.tree.tokens.len(),
                state.tree.tokens.len() <= usize::MAX,
                sound_state(state, anchor, max_nodes, max_depth),
                tree@ == state.tree,
                path_seqs(paths@) == state.paths,
                frontier@ == Seq::new(
                    (state.tree.tokens.len() - next) as nat,
                    |k: int| (next + k) as usize,
                ),
                goal == me.grow(hist@, state, next, max_nodes as int, max_depth as int),
            decreases max_nodes - state.tree.tokens.len(), frontier@.len(),
        {
            let node: usize = match frontier_pop(&mut frontier) {
                Some(node) => node,
                None => 0,
            };
            let node_depth: u16 = tree.depth[node];
            let ghost children = me.children_of(
                hist@,
                state,
                next,
                max_nodes as int,
                max_depth as int,
            );
            let ghost grown = attach(state, next, children);
            let mut chosen: Vec<u32> = Vec::new();
            let mut path: Vec<u32> = Vec::new();
            if (node_depth as usize) < max_depth {
                path.extend_from_slice(paths[node].as_slice());
                assert(path@ =~= state.paths[next]);
                chosen = self.choose_successors(hist, path.as_slice());
            }
            let mut k: usize = 0;
            while k < chosen.len() && tree.nodes() < max_nodes
                invariant
                    k <= chosen@.len(),
                    node == next,
                    0 <= next < state.tree.tokens.len(),
                    sound_state(state, anchor, max_nodes, max_depth),
                    node_depth == state.tree.depth[next],
                    chosen@.len() > 0 ==> path@ == state.paths[next],
                    tree@ == attach(state, next, chosen@.take(k as int)).tree,
                    path_seqs(paths@) == attach(state, next, chosen@.take(k as int)).paths,
                    tree@.tokens.len() <= max_nodes,
                    frontier@ == Seq::new(
                        (state.tree.tokens.len() + k - next - 1) as nat,
                        |m: int| (next + 1 + m) as usize,
                    ),
                decreases chosen@.len() - k,
            {
                let tok: u32 = chosen[k];
                let child: usize = tree.nodes();
                tree.tokens.push(tok);
                tree.parent.push(#[verifier::truncate] (node as i32));
                tree.depth.push(#[verifier::truncate] ((node_depth as usize + 1) as u16));
                let mut child_path: Vec<u32> = Vec::new();
                child_path.extend_from_slice(path.as_slice());
                child_path.push(tok);
                assert(child_path@ =~= state.paths[next].push(tok));
                let ghost paths_before = paths@;
                paths.push(child_path);
                frontier.push(child);
                proof {
                    let taken = chosen@.take(k as int);
                    let more = chosen@.take(k + 1);
                    assert(more =~= taken.push(tok));
                    assert(path_seqs(paths@) =~= path_seqs(paths_before).push(
                        state.paths[next].push(tok),
                    ));
                    assert(attach(state, next, more).paths =~= attach(
                        state,
                        next,
                        taken,
                    ).paths.push(state.paths[next].push(tok)));
                }
                k = k + 1;
            }
            proof {
                lemma_attach_sound(state, next, children, anchor, max_nodes, max_depth);
                state = grown;
                next = next + 1;
            }
        }
        tree
    }
}

} // verus!

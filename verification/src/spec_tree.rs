//! Draft token trees for lossless speculative decoding.
//!
//! A drafter proposes a tree of candidate continuations, one batched forward
//! pass of the target model predicts the next token after every node, and the
//! accept walk keeps the longest root path that the model itself would have
//! taken. Every emitted token is therefore the model's own greedy choice; the
//! draft only decides how many tokens land per pass.

use vstd::prelude::*;

use crate::speculative::NGramDrafter;

verus! {

/// Most nodes a draft tree should hold, the root anchor included.
///
/// The batched verify pass spends one row per node, and past this width the
/// extra rows stop paying for themselves.
pub const TREE_MAX_NODES: usize = 16;

/// A draft token tree.
///
/// Node 0 is the root anchor: the last committed token. Nodes are stored in
/// breadth-first order, so a parent always precedes its children.
#[derive(Debug, Clone, PartialEq, Eq)]
pub struct TokenTree {
    /// Token id at each node.
    pub tokens: Vec<u32>,
    /// Parent index per node (`-1` for the root), before the node's own index.
    pub parent: Vec<i32>,
    /// Depth per node (root = 0).
    pub depth: Vec<u16>,
}

/// The mathematical content of a [`TokenTree`].
#[verifier::ext_equal]
pub struct TreeModel {
    pub tokens: Seq<u32>,
    pub parent: Seq<i32>,
    pub depth: Seq<u16>,
}

impl View for TokenTree {
    type V = TreeModel;

    open spec fn view(&self) -> TreeModel {
        TreeModel { tokens: self.tokens@, parent: self.parent@, depth: self.depth@ }
    }
}

/// Every parent index lies strictly before its child (a negative index means
/// that the node has no parent).
pub open spec fn parents_precede(parent: Seq<i32>) -> bool {
    forall|i: int| 0 <= i < parent.len() ==> (#[trigger] parent[i]) < i
}

/// The node indices from the root down to `i`, `i` last.
pub open spec fn root_path(parent: Seq<i32>, i: int) -> Seq<int>
    decreases i,
{
    if 0 <= i < parent.len() && 0 <= parent[i] < i {
        root_path(parent, parent[i] as int).push(i)
    } else {
        seq![i]
    }
}

/// Node `j` is `i` itself or one of its ancestors.
pub open spec fn on_root_path(parent: Seq<i32>, j: int, i: int) -> bool {
    root_path(parent, i).contains(j)
}

/// Bit `b` of the word `w`.
pub open spec fn bit_set(w: u32, b: u32) -> bool {
    (w >> b) & 1 == 1
}

impl TreeModel {
    /// A tree rooted at node 0: every other node has an earlier parent.
    pub open spec fn rooted(self) -> bool {
        &&& self.tokens.len() >= 1
        &&& self.parent.len() == self.tokens.len()
        &&& self.parent[0] == -1
        &&& forall|i: int| 0 < i < self.tokens.len() ==> 0 <= (#[trigger] self.parent[i]) < i
    }

    /// A rooted tree whose depths are right: a node is one level deeper than its
    /// parent.
    pub open spec fn wf(self) -> bool {
        &&& self.rooted()
        &&& self.depth.len() == self.tokens.len()
        &&& self.depth[0] == 0
        &&& forall|i: int|
            0 < i < self.tokens.len() ==> self.depth[i] == self.depth[(
            #[trigger] self.parent[i]) as int] + 1
    }

    /// Nodes stand level by level, and within a level in the order of their
    /// parents: parents never decrease from one node to the next.
    pub open spec fn breadth_first(self) -> bool {
        forall|i: int, j: int|
            0 <= i < j < self.parent.len() ==> (#[trigger] self.parent[i]) <= (
            #[trigger] self.parent[j])
    }

    /// The tokens drafted along the root path of `i`, the anchor left out.
    pub open spec fn path_tokens(self, i: int) -> Seq<u32>
        decreases i,
    {
        if 0 <= i < self.parent.len() && 0 <= self.parent[i] < i {
            self.path_tokens(self.parent[i] as int).push(self.tokens[i])
        } else {
            Seq::empty()
        }
    }

    /// Node `ch` is a child of `c` that carries `token`.
    pub open spec fn is_matching_child(self, c: int, token: u32, ch: int) -> bool {
        c < ch < self.tokens.len() && self.parent[ch] == c && self.tokens[ch] == token
    }

    /// The most nodes on a way down from `c`, `c` included, on which every further
    /// node carries the token predicted at its parent.
    pub open spec fn walk_len(self, predicted: Seq<u32>, c: int) -> nat
        decreases self.tokens.len() - c, self.tokens.len() - c,
    {
        if c < self.tokens.len() {
            1 + self.longest_below(predicted, c, c + 1)
        } else {
            1
        }
    }

    /// The longest such way from a child of `c` at or after `from` that carries the
    /// token predicted at `c`; 0 where there is none.
    pub open spec fn longest_below(self, predicted: Seq<u32>, c: int, from: int) -> nat
        decreases self.tokens.len() - c, self.tokens.len() - from,
    {
        if from <= c || from >= self.tokens.len() {
            0
        } else {
            let rest = self.longest_below(predicted, c, from + 1);
            if self.is_matching_child(c, predicted[c], from) && self.walk_len(predicted, from)
                > rest {
                self.walk_len(predicted, from)
            } else {
                rest
            }
        }
    }

    /// The first child of `c` at or after `from` that starts such a longest way.
    pub open spec fn longest_child_from(self, predicted: Seq<u32>, c: int, from: int) -> Option<int>
        decreases self.tokens.len() - from,
    {
        if from >= self.tokens.len() {
            None
        } else if self.is_matching_child(c, predicted[c], from) && self.walk_len(predicted, from)
            == self.longest_below(predicted, c, from) {
            Some(from)
        } else {
            self.longest_child_from(predicted, c, from + 1)
        }
    }

    /// The child of `c` that the accept walk moves to: of the children that carry
    /// the token predicted at `c`, the first from which the walk is longest.
    pub open spec fn next_accepted(self, predicted: Seq<u32>, c: int) -> Option<int> {
        self.longest_child_from(predicted, c, c + 1)
    }

    /// Every node on the root path of `i` carries the token predicted at its parent.
    pub open spec fn confirmed(self, predicted: Seq<u32>, i: int) -> bool
        decreases i,
    {
        if 0 < i < self.tokens.len() && 0 <= self.parent[i] < i {
            self.tokens[i] == predicted[self.parent[i] as int] && self.confirmed(
                predicted,
                self.parent[i] as int,
            )
        } else {
            true
        }
    }

    /// The nodes that the accept walk visits from `c` on, `c` first.
    pub open spec fn accepted_nodes(self, predicted: Seq<u32>, c: int) -> Seq<int>
        decreases self.tokens.len() - c,
    {
        match self.next_accepted(predicted, c) {
            Some(ch) => if c < ch < self.tokens.len() {
                seq![c] + self.accepted_nodes(predicted, ch)
            } else {
                seq![c]
            },
            None => seq![c],
        }
    }

    /// The model's own next token after every node of the accept walk from `c`.
    pub open spec fn emitted_tokens(self, predicted: Seq<u32>, c: int) -> Seq<u32> {
        self.accepted_nodes(predicted, c).map_values(|n: int| predicted[n])
    }
}

/// The single-branch tree over `drafts`.
pub open spec fn linear_model(anchor: u32, drafts: Seq<u32>) -> TreeModel {
    TreeModel {
        tokens: seq![anchor] + drafts,
        parent: Seq::new(drafts.len() + 1, |i: int| (i - 1) as i32),
        depth: Seq::new(drafts.len() + 1, |i: int| i as u16),
    }
}

impl TokenTree {
    /// The single-branch tree: node 0 is `anchor`, node `i` is `drafts[i - 1]`
    /// with parent `i - 1` and depth `i`.
    pub fn linear(anchor: u32, drafts: &[u32]) -> (tree: Self)
        ensures
            tree@ == linear_model(anchor, drafts@),
            drafts@.len() <= u16::MAX ==> tree@.wf(),
    {
        let mut tokens: Vec<u32> = Vec::new();
        let mut parent: Vec<i32> = Vec::new();
        let mut depth: Vec<u16> = Vec::new();
        tokens.push(anchor);
        parent.push(-1);
        depth.push(0);
        let mut i: usize = 0;
        while i < drafts.len()
            invariant
                i <= drafts@.len(),
                tokens@ =~= seq![anchor] + drafts@.take(i as int),
                parent@ =~= Seq::new((i + 1) as nat, |k: int| (k - 1) as i32),
                depth@ =~= Seq::new((i + 1) as nat, |k: int| k as u16),
            decreases drafts@.len() - i,
        {
            tokens.push(drafts[i]);
            parent.push(#[verifier::truncate] (i as i32));
            depth.push(#[verifier::truncate] ((i + 1) as u16));
            i = i + 1;
        }
        let tree = TokenTree { tokens, parent, depth };
        assert(drafts@.take(i as int) =~= drafts@);
        tree
    }

    /// Number of nodes, the root anchor included.
    pub fn nodes(&self) -> (n: usize)
        ensures
            n == self@.tokens.len(),
    {
        self.tokens.len()
    }

    /// Largest depth of any node (0 for an anchor-only or empty tree).
    pub fn max_depth(&self) -> (d: usize)
        ensures
            forall|i: int| 0 <= i < self@.depth.len() ==> (#[trigger] self@.depth[i]) <= d,
            self@.depth.len() == 0 ==> d == 0,
            self@.depth.len() > 0 ==> exists|i: int|
                0 <= i < self@.depth.len() && (#[trigger] self@.depth[i]) == d,
    {
        let mut best: u16 = 0;
        let mut i: usize = 0;
        while i < self.depth.len()
            invariant
                i <= self.depth@.len(),
                forall|k: int| 0 <= k < i ==> (#[trigger] self.depth@[k]) <= best,
                i == 0 ==> best == 0,
                i > 0 ==> exists|k: int| 0 <= k < i && (#[trigger] self.depth@[k]) == best,
            decreases self.depth@.len() - i,
        {
            if i == 0 || self.depth[i] > best {
                best = self.depth[i];
            }
            i = i + 1;
        }
        best as usize
    }

    /// The node indices from the root to `leaf` inclusive (root first).
    pub fn path_to(&self, leaf: usize) -> (path: Vec<usize>)
        requires
            parents_precede(self@.parent),
            leaf < self@.parent.len(),
        ensures
            path@.map_values(|n: usize| n as int) == root_path(self@.parent, leaf as int),
    {
        let mut upward: Vec<usize> = Vec::new();
        let mut cur: usize = leaf;
        let ghost whole = root_path(self@.parent, leaf as int);
        let ghost mut rest = whole;
        loop
            invariant_except_break
                parents_precede(self@.parent),
                cur < self@.parent.len(),
                rest == root_path(self@.parent, cur as int),
                whole == rest + reversed_indices(upward@),
            ensures
                whole == reversed_indices(upward@),
            decreases cur,
        {
            let ghost before = upward@;
            upward.push(cur);
            proof {
                assert(reversed_indices(upward@) =~= seq![cur as int] + reversed_indices(before));
            }
            let p: i32 = self.parent[cur];
            if p < 0 {
                proof {
                    assert(rest =~= seq![cur as int]);
                    assert(whole =~= reversed_indices(upward@));
                }
                break;
            }
            proof {
                let up = root_path(self@.parent, p as int);
                assert(rest =~= up.push(cur as int));
                rest = up;
                assert(whole =~= rest + reversed_indices(upward@));
            }
            cur = p as usize;
        }
        let mut path: Vec<usize> = Vec::new();
        let mut k: usize = upward.len();
        while k > 0
            invariant
                k <= upward@.len(),
                path@.len() == upward@.len() - k,
                forall|m: int| 0 <= m < path@.len() ==> #[trigger] path@[m] == upward@[upward@.len()
                    - 1 - m],
            decreases k,
        {
            k = k - 1;
            path.push(upward[k]);
        }
        assert(path@.map_values(|n: usize| n as int) =~= reversed_indices(upward@));
        path
    }

    /// Per-node depth as `i32`, the offset of each node's position.
    pub fn node_depth(&self) -> (depths: Vec<i32>)
        ensures
            depths@ == Seq::new(self@.depth.len(), |i: int| self@.depth[i] as i32),
    {
        let mut depths: Vec<i32> = Vec::new();
        let mut i: usize = 0;
        while i < self.depth.len()
            invariant
                i <= self.depth@.len(),
                depths@ =~= Seq::new(i as nat, |k: int| self.depth@[k] as i32),
            decreases self.depth@.len() - i,
        {
            depths.push(self.depth[i] as i32);
            i = i + 1;
        }
        depths
    }

    /// Per-node cache slot: `base` plus the node index, cut to 32 bits.
    pub fn node_kvslot(&self, base: usize) -> (slots: Vec<i32>)
        requires
            base + self@.tokens.len() <= usize::MAX + 1,
        ensures
            slots@ == kv_slots(base as int, self@.tokens.len()),
    {
        let mut slots: Vec<i32> = Vec::new();
        let mut i: usize = 0;
        while i < self.nodes()
            invariant
                i <= self.tokens@.len(),
                base + self.tokens@.len() <= usize::MAX + 1,
                slots@ =~= kv_slots(base as int, i as nat),
            decreases self.tokens@.len() - i,
        {
            slots.push(#[verifier::truncate] ((base + i) as i32));
            i = i + 1;
        }
        slots
    }

    /// The causal mask of the tree as a flat bitset with a fixed stride of
    /// words per node: bit `j` of node `i` is set exactly when `j` lies on the
    /// root path of `i`.
    pub fn ancestor_bitset(&self) -> (mask: (Vec<u32>, usize))
        requires
            parents_precede(self@.parent),
            self@.parent.len() >= self@.tokens.len(),
            self@.tokens.len() * words_for(self@.tokens.len()) <= usize::MAX,
        ensures
            masks(self@, mask.0@, mask.1 as int),
    {
        let n: usize = self.nodes();
        let words: usize = if n % 32 == 0 { n / 32 } else { n / 32 + 1 };
        proof {
            assert(words == words_for(n as nat));
        }
        let mut bits: Vec<u32> = Vec::new();
        let mut i: usize = 0;
        while i < n
            invariant
                n == self@.tokens.len(),
                words == words_for(n as nat),
                parents_precede(self@.parent),
                self@.parent.len() >= n,
                i <= n,
                bits@.len() == i * words,
                forall|r: int, j: int|
                    0 <= r < i && 0 <= j < words * 32 ==> (#[trigger] mask_bit(
                        bits@,
                        words as int,
                        r,
                        j,
                    ) <==> on_root_path(self@.parent, j, r)),
            decreases n - i,
        {
            let row: Vec<u32> = self.ancestor_row(i, words);
            let ghost before = bits@;
            bits.extend_from_slice(row.as_slice());
            proof {
                assert(bits@ =~= before + row@);
                lemma_rows_append(before, row@, i as int, words as int);
                assert((i + 1) * words == i * words + words) by (nonlinear_arith);
            }
            i = i + 1;
        }
        (bits, words)
    }

    /// One node's row of the mask.
    fn ancestor_row(&self, node: usize, words: usize) -> (row: Vec<u32>)
        requires
            parents_precede(self@.parent),
            node < self@.tokens.len(),
            self@.parent.len() >= self@.tokens.len(),
            words == words_for(self@.tokens.len()),
        ensures
            row@.len() == words,
            forall|j: int|
                0 <= j < words * 32 ==> (#[trigger] row_bit(row@, j) <==> on_root_path(
                    self@.parent,
                    j,
                    node as int,
                )),
    {
        let mut row: Vec<u32> = vec![0u32; words];
        let mut cur: usize = node;
        proof {
            assert forall|j: int| 0 <= j < words * 32 implies !#[trigger] row_bit(row@, j) by {
                lemma_zero_bit((j % 32) as u32);
            }
        }
        loop
            invariant_except_break
                parents_precede(self@.parent),
                node < self@.tokens.len(),
                cur <= node,
                self@.parent.len() >= self@.tokens.len(),
                words == words_for(self@.tokens.len()),
                row@.len() == words,
                marked_down_to(self@.parent, row@, node as int, cur as int),
            ensures
                row@.len() == words,
                marked(self@.parent, row@, node as int),
            decreases cur,
        {
            let ghost before = row@;
            let w: usize = cur / 32;
            let b: u32 = (cur % 32) as u32;
            let word: u32 = row[w];
            row.set(w, word | (1u32 << b));
            proof {
                lemma_set_bit_in_row(before, row@, cur as int, words as int);
                lemma_mark_step(self@.parent, before, row@, node as int, cur as int);
            }
            let p: i32 = self.parent[cur];
            if p < 0 {
                break;
            }
            cur = p as usize;
        }
        row
    }

    /// Lossless greedy-exact tree accept.
    ///
    /// `predicted[i]` is the model's greedy next token after node `i`. The root
    /// is always accepted. From an accepted node the walk moves to a child that
    /// carries the predicted token, and stops where there is none; of several such
    /// children it takes the first from which it gets furthest, so that the longest
    /// matching path is accepted. The result is the prediction at every accepted
    /// node together with the last accepted node.
    pub fn accept_longest_path(&self, predicted: &[u32]) -> (accepted: (Vec<u32>, usize))
        requires
            self@.tokens.len() >= 1,
            self@.parent.len() >= self@.tokens.len(),
            predicted@.len() == self@.tokens.len(),
        ensures
            accepted.0@ == self@.emitted_tokens(predicted@, 0),
            accepted.1 == self@.accepted_nodes(predicted@, 0).last(),
            self@.rooted() ==> self@.confirmed(predicted@, accepted.1 as int),
            self@.rooted() ==> root_path(self@.parent, accepted.1 as int).len()
                == accepted.0@.len(),
            self@.rooted() ==> forall|v: int|
                0 <= v < self@.tokens.len() && #[trigger] self@.confirmed(predicted@, v)
                    ==> root_path(self@.parent, v).len() <= accepted.0@.len(),
    {
        let next: Vec<Option<usize>> = self.longest_children(predicted);
        let mut emitted: Vec<u32> = Vec::new();
        let mut c: usize = 0;
        let ghost walk = self@.accepted_nodes(predicted@, 0);
        let ghost mut done: Seq<int> = Seq::empty();
        proof {
            if self@.rooted() {
                crate::tree_laws::accept_is_longest(self@, predicted@);
            }
            assert(walk =~= done + self@.accepted_nodes(predicted@, c as int));
        }
        loop
            invariant
                c < self@.tokens.len(),
                next@.len() == self@.tokens.len(),
                chooses_longest(self@, predicted@, next@),
                predicted@.len() == self@.tokens.len(),
                walk == self@.accepted_nodes(predicted@, 0),
                walk == done + self@.accepted_nodes(predicted@, c as int),
                emitted@ =~= done.map_values(|n: int| predicted@[n]),
                self@.rooted() ==> self@.confirmed(predicted@, walk.last()),
                self@.rooted() ==> root_path(self@.parent, walk.last()).len() == walk.len(),
                self@.rooted() ==> forall|v: int|
                    0 <= v < self@.tokens.len() && #[trigger] self@.confirmed(predicted@, v)
                        ==> root_path(self@.parent, v).len() <= walk.len(),
            decreases self@.tokens.len() - c,
        {
            proof {
                longest_child_is_longest(self@, predicted@, c as int, c + 1);
            }
            emitted.push(predicted[c]);
            proof {
                done = done.push(c as int);
                assert(emitted@ =~= done.map_values(|n: int| predicted@[n]));
            }
            match next[c] {
                Some(ch) => {
                    proof {
                        assert(walk =~= done + self@.accepted_nodes(predicted@, ch as int));
                    }
                    c = ch;
                },
                None => {
                    proof {
                        assert(walk =~= done);
                    }
                    return (emitted, c);
                },
            }
        }
    }

    /// For every node the child that the accept walk moves to. A node passes the
    /// length of its own walk up to its parent; children come after their parents,
    /// so from the last node on every length is known when it is needed.
    fn longest_children(&self, predicted: &[u32]) -> (next: Vec<Option<usize>>)
        requires
            self@.parent.len() >= self@.tokens.len(),
            predicted@.len() == self@.tokens.len(),
        ensures
            next@.len() == self@.tokens.len(),
            chooses_longest(self@, predicted@, next@),
    {
        let n: usize = self.nodes();
        let mut lens: Vec<usize> = vec![1usize; n];
        let mut next: Vec<Option<usize>> = vec![None; n];
        let mut k: usize = n;
        while k > 0
            invariant
                n == self@.tokens.len(),
                k <= n,
                self@.parent.len() >= n,
                predicted@.len() == n,
                lens@.len() == n,
                next@.len() == n,
                forall|c: int|
                    0 <= c < n ==> #[trigger] lens@[c] == 1 + self@.longest_below(
                        predicted@,
                        c,
                        later_of(k as int, c + 1),
                    ),
                forall|c: int|
                    0 <= c < n ==> node_of(#[trigger] next@[c]) == self@.longest_child_from(
                        predicted@,
                        c,
                        later_of(k as int, c + 1),
                    ),
            decreases k,
        {
            let ch: usize = k - 1;
            let len: usize = lens[ch];
            proof {
                assert(later_of(k as int, ch + 1) == ch + 1);
                assert(len == self@.walk_len(predicted@, ch as int));
                lemma_walk_len_bound(self@, predicted@, ch as int);
            }
            let p: i32 = self.parent[ch];
            let ghost lens0 = lens@;
            let ghost next0 = next@;
            if p >= 0 && (p as usize) < ch && self.tokens[ch] == predicted[p as usize] {
                let c: usize = p as usize;
                proof {
                    assert(later_of(k as int, c + 1) == k);
                    longest_child_is_longest(self@, predicted@, c as int, k as int);
                }
                if len + 1 >= lens[c] {
                    lens.set(c, len + 1);
                    next.set(c, Some(ch));
                }
            }
            proof {
                assert forall|c: int| 0 <= c < n implies #[trigger] lens@[c] == 1
                    + self@.longest_below(predicted@, c, later_of(ch as int, c + 1)) by {
                    assert(lens0[c] == 1 + self@.longest_below(
                        predicted@,
                        c,
                        later_of(k as int, c + 1),
                    ));
                }
                assert forall|c: int| 0 <= c < n implies node_of(#[trigger] next@[c])
                    == self@.longest_child_from(predicted@, c, later_of(ch as int, c + 1)) by {
                    assert(node_of(next0[c]) == self@.longest_child_from(
                        predicted@,
                        c,
                        later_of(k as int, c + 1),
                    ));
                    assert(lens0[c] == 1 + self@.longest_below(
                        predicted@,
                        c,
                        later_of(k as int, c + 1),
                    ));
                }
            }
            k = ch;
        }
        next
    }
}

/// The larger of two positions.
spec fn later_of(a: int, b: int) -> int {
    if a >= b {
        a
    } else {
        b
    }
}

/// A node, where there is one.
spec fn node_of(n: Option<usize>) -> Option<int> {
    match n {
        Some(i) => Some(i as int),
        None => None,
    }
}

/// `next` holds for every node the child that the accept walk moves to.
spec fn chooses_longest(tree: TreeModel, predicted: Seq<u32>, next: Seq<Option<usize>>) -> bool {
    forall|c: int|
        0 <= c < next.len() ==> node_of(#[trigger] next[c]) == tree.next_accepted(predicted, c)
}

/// The child that the accept walk moves to carries the predicted token; from no
/// other such child is the walk longer, and from no earlier one as long. Where there
/// is no such child there is none to move to.
pub proof fn longest_child_is_longest(tree: TreeModel, predicted: Seq<u32>, c: int, from: int)
    requires
        c < from,
    ensures
        match tree.longest_child_from(predicted, c, from) {
            Some(ch) => {
                &&& from <= ch && tree.is_matching_child(c, predicted[c], ch)
                &&& tree.walk_len(predicted, ch) == tree.longest_below(predicted, c, from)
                &&& forall|k: int|
                    from <= k && #[trigger] tree.is_matching_child(c, predicted[c], k)
                        ==> tree.walk_len(predicted, k) <= tree.walk_len(predicted, ch)
                &&& forall|k: int|
                    from <= k < ch && #[trigger] tree.is_matching_child(c, predicted[c], k)
                        ==> tree.walk_len(predicted, k) < tree.walk_len(predicted, ch)
            },
            None => {
                &&& tree.longest_below(predicted, c, from) == 0
                &&& forall|k: int|
                    from <= k ==> !#[trigger] tree.is_matching_child(c, predicted[c], k)
            },
        },
    decreases tree.tokens.len() - from,
{
    if from < tree.tokens.len() {
        longest_child_is_longest(tree, predicted, c, from + 1);
    }
}

/// A walk has no more nodes than come from its start on.
proof fn lemma_walk_len_bound(tree: TreeModel, predicted: Seq<u32>, c: int)
    requires
        c < tree.tokens.len(),
    ensures
        1 <= tree.walk_len(predicted, c) <= tree.tokens.len() - c,
    decreases tree.tokens.len() - c,
{
    longest_child_is_longest(tree, predicted, c, c + 1);
    if let Some(ch) = tree.next_accepted(predicted, c) {
        lemma_walk_len_bound(tree, predicted, ch);
    }
}

/// Bounds under which a drafted tree cannot outgrow the widths of the parent and
/// depth fields.
pub open spec fn draft_fits(max_nodes: usize, max_depth: usize) -> bool {
    &&& max_nodes <= 0x8000_0000
    &&& max_nodes <= 0x1_0000 || max_depth <= 0xffff
}

/// A tree within a drafter's budget: the anchor always stands, further nodes
/// only within `max_nodes` and no deeper than `max_depth`.
pub open spec fn within_budget(tree: TreeModel, max_nodes: usize, max_depth: usize) -> bool {
    &&& tree.tokens.len() <= max_nodes || tree.tokens.len() == 1
    &&& forall|i: int| 0 <= i < tree.depth.len() ==> (#[trigger] tree.depth[i]) <= max_depth
}

/// A drafter that proposes a tree of candidate continuations.
///
/// `history` is the full token sequence so far and ends with `anchor`, the
/// tree's root. `max_nodes` and `max_depth` bound the tree.
pub trait TreeDrafter {
    fn draft_tree(
        &mut self,
        history: &[u32],
        anchor: u32,
        max_nodes: usize,
        max_depth: usize,
    ) -> (tree: TokenTree)
        ensures
            tree@.tokens.len() >= 1,
            tree@.tokens[0] == anchor,
            draft_fits(max_nodes, max_depth) ==> tree@.wf() && within_budget(
                tree@,
                max_nodes,
                max_depth,
            ),
    ;
}

/// How many draft tokens a single chain may hold under both budgets.
pub open spec fn chain_budget(max_nodes: usize, max_depth: usize) -> nat {
    if max_nodes == 0 {
        0
    } else if max_nodes - 1 <= max_depth {
        (max_nodes - 1) as nat
    } else {
        max_depth as nat
    }
}

/// An n-gram drafter seen as a tree drafter: its tree is exactly the
/// single-branch tree of the n-gram chain.
pub struct NGramTreeDrafter {
    pub inner: NGramDrafter,
}

impl NGramTreeDrafter {
    pub fn new(inner: NGramDrafter) -> (drafter: Self)
        ensures
            drafter.inner == inner,
    {
        NGramTreeDrafter { inner }
    }
}

impl TreeDrafter for NGramTreeDrafter {
    fn draft_tree(
        &mut self,
        history: &[u32],
        anchor: u32,
        max_nodes: usize,
        max_depth: usize,
    ) -> (tree: TokenTree)
        ensures
            *final(self) == *old(self),
            tree@ == linear_model(
                anchor,
                crate::speculative::ngram_draft(
                    history@,
                    old(self).inner.min_ngram as nat,
                    old(self).inner.max_ngram as nat,
                    chain_budget(max_nodes, max_depth),
                ),
            ),
    {
        let by_nodes: usize = max_nodes.saturating_sub(1);
        let max_drafts: usize = if by_nodes <= max_depth { by_nodes } else { max_depth };
        let drafts: Vec<u32> = self.inner.draft(history, max_drafts);
        TokenTree::linear(anchor, drafts.as_slice())
    }
}

/// The first `n` cache slots counted from `base`, each cut to 32 bits.
pub open spec fn kv_slots(base: int, n: nat) -> Seq<i32> {
    Seq::new(n, |i: int| (base + i) as i32)
}

/// Words of 32 bits that hold one bit per node.
pub open spec fn words_for(n: nat) -> nat {
    (n + 31) / 32
}

/// Bit `j` of a row of words.
pub open spec fn row_bit(row: Seq<u32>, j: int) -> bool {
    bit_set(row[j / 32], (j % 32) as u32)
}

/// The flat bitset, with just enough words per row, whose row `i` marks the root path
/// of node `i`.
pub open spec fn masks(tree: TreeModel, bits: Seq<u32>, words: int) -> bool {
    &&& words == words_for(tree.tokens.len())
    &&& bits.len() == tree.tokens.len() * words
    &&& forall|i: int, j: int|
        0 <= i < tree.tokens.len() && 0 <= j < words * 32 ==> (#[trigger] mask_bit(
            bits,
            words,
            i,
            j,
        ) <==> on_root_path(tree.parent, j, i))
}

/// Bit `j` of row `i` of a flat bitset with `words` words per row.
pub open spec fn mask_bit(bits: Seq<u32>, words: int, i: int, j: int) -> bool {
    bit_set(bits[i * words + j / 32], (j % 32) as u32)
}

/// The bits set in `row` are exactly the nodes on the root path of `node`.
spec fn marked(parent: Seq<i32>, row: Seq<u32>, node: int) -> bool {
    forall|j: int|
        0 <= j < row.len() * 32 ==> (#[trigger] row_bit(row, j) <==> on_root_path(parent, j, node))
}

/// The root path of `node` is what `row` marks together with the root path of
/// `cur`.
spec fn marked_down_to(parent: Seq<i32>, row: Seq<u32>, node: int, cur: int) -> bool {
    forall|j: int|
        0 <= j < row.len() * 32 ==> (on_root_path(parent, j, node) <==> (#[trigger] row_bit(row, j)
            || on_root_path(parent, j, cur)))
}

proof fn lemma_mark_step(parent: Seq<i32>, before: Seq<u32>, after: Seq<u32>, node: int, cur: int)
    requires
        parents_precede(parent),
        0 <= cur < parent.len(),
        cur < before.len() * 32,
        before.len() == after.len(),
        marked_down_to(parent, before, node, cur),
        forall|j: int|
            0 <= j < after.len() * 32 ==> (#[trigger] row_bit(after, j) <==> (row_bit(before, j)
                || j == cur)),
    ensures
        parent[cur] < 0 ==> marked(parent, after, node),
        parent[cur] >= 0 ==> marked_down_to(parent, after, node, parent[cur] as int),
{
    lemma_root_path_step(parent, cur);
    let up = parent[cur] as int;
    assert forall|j: int| 0 <= j < after.len() * 32 implies (parent[cur] < 0 ==> (#[trigger] row_bit(
        after,
        j,
    ) <==> on_root_path(parent, j, node))) && (parent[cur] >= 0 ==> (on_root_path(parent, j, node)
        <==> (row_bit(after, j) || on_root_path(parent, j, up)))) by {
        assert(row_bit(after, j) <==> (row_bit(before, j) || j == cur));
        assert(on_root_path(parent, j, node) <==> (row_bit(before, j) || on_root_path(
            parent,
            j,
            cur,
        )));
    }
}

/// An upward walk read backwards, as mathematical indices.
spec fn reversed_indices(upward: Seq<usize>) -> Seq<int> {
    upward.reverse().map_values(|n: usize| n as int)
}

proof fn lemma_zero_bit(b: u32)
    requires
        b < 32,
    ensures
        !bit_set(0, b),
{
    assert((0u32 >> b) & 1 != 1) by (bit_vector);
}

proof fn lemma_or_bit(w: u32, b: u32, x: u32)
    requires
        b < 32,
        x < 32,
    ensures
        bit_set(w | (1u32 << b), x) <==> (bit_set(w, x) || x == b),
{
    assert((((w | (1u32 << b)) >> x) & 1 == 1) <==> ((w >> x) & 1 == 1 || x == b)) by (bit_vector)
        requires
            b < 32,
            x < 32,
    ;
}

proof fn lemma_set_bit_in_row(before: Seq<u32>, after: Seq<u32>, c: int, words: int)
    requires
        0 <= c < words * 32,
        before.len() == words,
        after == before.update(c / 32, before[c / 32] | (1u32 << ((c % 32) as u32))),
    ensures
        forall|j: int|
            0 <= j < words * 32 ==> (#[trigger] row_bit(after, j) <==> (row_bit(before, j) || j
                == c)),
{
    assert forall|j: int| 0 <= j < words * 32 implies (#[trigger] row_bit(after, j) <==> (row_bit(
        before,
        j,
    ) || j == c)) by {
        if j / 32 == c / 32 {
            lemma_or_bit(before[c / 32], (c % 32) as u32, (j % 32) as u32);
        }
    }
}

proof fn lemma_root_path_step(parent: Seq<i32>, c: int)
    requires
        parents_precede(parent),
        0 <= c < parent.len(),
    ensures
        parent[c] < 0 ==> forall|j: int| #[trigger] on_root_path(parent, j, c) <==> j == c,
        parent[c] >= 0 ==> forall|j: int| #[trigger]
            on_root_path(parent, j, c) <==> (j == c || on_root_path(parent, j, parent[c] as int)),
{
    let path = root_path(parent, c);
    if parent[c] < 0 {
        assert(path =~= seq![c]);
        assert forall|j: int| #[trigger] on_root_path(parent, j, c) <==> j == c by {
            assert(path[0] == c);
        }
    } else {
        let up = root_path(parent, parent[c] as int);
        assert(path =~= up.push(c));
        assert forall|j: int| #[trigger]
            on_root_path(parent, j, c) <==> (j == c || on_root_path(
                parent,
                j,
                parent[c] as int,
            )) by {
            if up.contains(j) {
                let k = choose|k: int| 0 <= k < up.len() && up[k] == j;
                assert(path[k] == j);
            }
            assert(path[up.len() as int] == c);
        }
    }
}

proof fn lemma_rows_append(before: Seq<u32>, row: Seq<u32>, i: int, words: int)
    requires
        0 <= i,
        0 <= words,
        before.len() == i * words,
        row.len() == words,
    ensures
        forall|r: int, j: int|
            0 <= r < i && 0 <= j < words * 32 ==> #[trigger] mask_bit(before + row, words, r, j)
                == mask_bit(before, words, r, j),
        forall|j: int|
            0 <= j < words * 32 ==> #[trigger] mask_bit(before + row, words, i, j) == row_bit(
                row,
                j,
            ),
{
    assert forall|r: int, j: int| 0 <= r < i && 0 <= j < words * 32 implies #[trigger] mask_bit(
        before + row,
        words,
        r,
        j,
    ) == mask_bit(before, words, r, j) by {
        assert(0 <= r * words + j / 32 < i * words) by (nonlinear_arith)
            requires
                0 <= r < i,
                0 <= j / 32 < words,
        ;
    }
}

} // verus!

//! Token trees: layout, masks and acceptance.

use camelid::spec_tree::{NGramTreeDrafter, TokenTree, TreeDrafter, TREE_MAX_NODES};
use camelid::speculative::NGramDrafter;

/// Build a small hand tree:
///        0 (anchor=10)
///       / \
///      1   2        (tokens 11, 12)
///     /   / \
///    3   4   5      (tokens 13, 14, 15)
fn branchy_tree() -> TokenTree {
    TokenTree {
        tokens: vec![10, 11, 12, 13, 14, 15],
        parent: vec![-1, 0, 0, 1, 2, 2],
        depth: vec![0, 1, 1, 2, 2, 2],
    }
}

#[test]
fn linear_layout_matches_chain() {
    let t = TokenTree::linear(10, &[11, 12, 13]);
    assert_eq!(t.tokens, vec![10, 11, 12, 13]);
    assert_eq!(t.parent, vec![-1, 0, 1, 2]);
    assert_eq!(t.depth, vec![0, 1, 2, 3]);
    assert_eq!(t.nodes(), 4);
    assert_eq!(t.max_depth(), 3);
    assert_eq!(t.path_to(3), vec![0, 1, 2, 3]);
}

#[test]
fn linear_anchor_only() {
    let t = TokenTree::linear(7, &[]);
    assert_eq!(t.tokens, vec![7]);
    assert_eq!(t.parent, vec![-1]);
    assert_eq!(t.depth, vec![0]);
    assert_eq!(t.max_depth(), 0);
}

#[test]
fn parent_before_child_bfs_invariant() {
    let t = branchy_tree();
    for i in 1..t.nodes() {
        assert!(t.parent[i] < i as i32, "parent[{i}] must precede child");
    }
    assert_eq!(t.parent[0], -1);
    assert_eq!(t.depth[0], 0);
}

#[test]
fn path_to_walks_to_root() {
    let t = branchy_tree();
    assert_eq!(t.path_to(3), vec![0, 1, 3]);
    assert_eq!(t.path_to(5), vec![0, 2, 5]);
    assert_eq!(t.path_to(0), vec![0]);
}

#[test]
fn node_depth_matches() {
    let t = branchy_tree();
    assert_eq!(t.node_depth(), vec![0, 1, 1, 2, 2, 2]);
}

#[test]
fn node_kvslot_unique_from_base() {
    let t = branchy_tree();
    assert_eq!(t.node_kvslot(100), vec![100, 101, 102, 103, 104, 105]);
    // Slots are unique (no two nodes collide).
    let slots = t.node_kvslot(0);
    let mut sorted = slots.clone();
    sorted.sort_unstable();
    sorted.dedup();
    assert_eq!(slots.len(), sorted.len());
}

#[test]
fn ancestor_bitset_marks_path() {
    let t = branchy_tree();
    let (bits, words) = t.ancestor_bitset();
    assert_eq!(words, 1); // 6 nodes ⇒ ceil(6/32) = 1 word
    let isset = |node: usize, anc: usize| -> bool {
        (bits[node * words + anc / 32] >> (anc % 32)) & 1 == 1
    };
    // Node 3 (path 0->1->3): ancestors-or-self = {0,1,3}.
    assert!(isset(3, 0) && isset(3, 1) && isset(3, 3));
    assert!(!isset(3, 2) && !isset(3, 4) && !isset(3, 5));
    // Node 5 (path 0->2->5): {0,2,5}.
    assert!(isset(5, 0) && isset(5, 2) && isset(5, 5));
    assert!(!isset(5, 1) && !isset(5, 3) && !isset(5, 4));
    // Root: only itself.
    assert!(isset(0, 0));
    assert!(!isset(0, 1));
}

#[test]
fn ancestor_bitset_multiword_stride() {
    // 33-node linear chain ⇒ stride 2 words.
    let drafts: Vec<u32> = (1..=32).collect();
    let t = TokenTree::linear(0, &drafts);
    let (bits, words) = t.ancestor_bitset();
    assert_eq!(t.nodes(), 33);
    assert_eq!(words, 2);
    // Node 32 is the leaf of the chain: every node 0..=32 is an ancestor.
    let isset = |node: usize, anc: usize| -> bool {
        (bits[node * words + anc / 32] >> (anc % 32)) & 1 == 1
    };
    for anc in 0..=32 {
        assert!(isset(32, anc), "node 32 should have ancestor {anc}");
    }
}

/// Linear accept: the longest prefix of `drafts` that the model confirms, plus the
/// bonus at the first mismatch.
fn linear_accept_reference(drafts: &[u32], predicted: &[u32]) -> Vec<u32> {
    let mut accepted = vec![predicted[0]];
    let mut j = 0usize;
    while j < drafts.len() && drafts[j] == predicted[j] {
        accepted.push(predicted[j + 1]);
        j += 1;
    }
    accepted
}

#[test]
fn accept_longest_path_reproduces_linear_accept() {
    // Exhaustively check many (drafts, predicted) pairs: the tree accept on
    // a linear() tree must emit exactly what the linear accept emits.
    let cases: &[(&[u32], &[u32])] = &[
        // full accept
        (&[1, 2, 3], &[9, 1, 2, 3]),
        // accept first two, mismatch at third
        (&[1, 2, 3], &[9, 1, 2, 99]),
        // accept first, mismatch at second
        (&[1, 2, 3], &[9, 1, 88, 0]),
        // reject all drafts (only bonus emitted)
        (&[1, 2, 3], &[9, 88, 0, 0]),
        // no drafts: bonus only
        (&[], &[42]),
        // single draft accepted
        (&[5], &[9, 5]),
        // single draft rejected
        (&[5], &[9, 6]),
    ];
    for (drafts, predicted) in cases {
        let tree = TokenTree::linear(0, drafts);
        let (emitted, _leaf) = tree.accept_longest_path(predicted);
        let reference = linear_accept_reference(drafts, predicted);
        assert_eq!(
            emitted, reference,
            "tree accept must equal linear accept for drafts={drafts:?} predicted={predicted:?}"
        );
    }
}

#[test]
fn accept_longest_path_leaf_tracks_accepted_count() {
    // drafts=[1,2,3] live at nodes 1,2,3. predicted[c] is the model's
    // argmax after node c. To accept drafts[0]=1 then drafts[1]=2 then
    // mismatch: predicted = [1, 2, 99, _]. Emitted = the model's tokens
    // along the accepted path plus the final bonus: [1, 2, 99].
    let tree = TokenTree::linear(0, &[1, 2, 3]);
    let (emitted, leaf) = tree.accept_longest_path(&[1, 2, 99, 0]);
    assert_eq!(emitted, vec![1, 2, 99]); // 2 accepted + bonus
    assert_eq!(leaf, 2); // node index of the 2nd accepted draft
                         // reject at root ⇒ leaf is root, only bonus emitted.
    let (emitted2, leaf2) = tree.accept_longest_path(&[88, 0, 0, 0]);
    assert_eq!(emitted2, vec![88]);
    assert_eq!(leaf2, 0);
}

#[test]
fn accept_longest_path_picks_matching_branch() {
    //        0 (anchor=10)
    //       / \
    //      1   2     (tokens 11, 12)
    //     /   / \
    //    3   4   5   (tokens 13, 14, 15)
    let t = branchy_tree();
    // predicted: at root the model wants 12 (node 2's token), at node 2 it
    // wants 15 (node 5's token), at node 5 it wants 100 (no child).
    // predicted indexed by node: [12, _, 15, _, _, 100]
    let predicted = vec![12, 0, 15, 0, 0, 100];
    let (emitted, leaf) = t.accept_longest_path(&predicted);
    // root accepted -> emit 12 (matches child 2) -> emit 15 (matches child 5)
    // -> no child -> emit 100 bonus.
    assert_eq!(emitted, vec![12, 15, 100]);
    assert_eq!(leaf, 5);
}

#[test]
fn accept_longest_path_stops_when_no_branch_matches() {
    let t = branchy_tree();
    // Model wants 99 at root: no child has token 99, emit bonus, stop.
    let predicted = vec![99, 0, 0, 0, 0, 0];
    let (emitted, leaf) = t.accept_longest_path(&predicted);
    assert_eq!(emitted, vec![99]);
    assert_eq!(leaf, 0);
}

#[test]
fn ngram_tree_drafter_is_degenerate_linear() {
    // Wrapping NGramDrafter as a tree drafter yields exactly linear() of
    // the same n-gram chain — zero behavior change.
    let mut drafter = NGramTreeDrafter::new(NGramDrafter::default());
    let history = vec![1, 2, 3, 4, 5, 6, 9, 9, 1, 2, 3, 4];
    let anchor = *history.last().unwrap();
    let max_nodes = TREE_MAX_NODES;
    let max_depth = 8;
    let tree = drafter.draft_tree(&history, anchor, max_nodes, max_depth);
    // The wrapper draws max_nodes-1 capped by max_depth drafts.
    let max_drafts = (max_nodes - 1).min(max_depth);
    let chain = NGramDrafter::default().draft(&history, max_drafts);
    let expected = TokenTree::linear(anchor, &chain);
    assert_eq!(tree, expected);
    // The tree is a single chain (no branching).
    for i in 1..tree.nodes() {
        assert_eq!(tree.parent[i], (i - 1) as i32);
    }
}

#[test]
fn the_mask_is_causal_across_branches() {
    let t = branchy_tree();
    let (bits, words) = t.ancestor_bitset();
    for node in 0..t.nodes() {
        let path = t.path_to(node);
        for other in 0..t.nodes() {
            let set = (bits[node * words + other / 32] >> (other % 32)) & 1 == 1;
            assert_eq!(set, path.contains(&other), "node {node}, other {other}");
            assert!(!set || other <= node);
        }
    }
}

#[test]
fn acceptance_takes_the_longest_path_of_equal_siblings() {
    let t = TokenTree {
        tokens: vec![10, 11, 11, 12],
        parent: vec![-1, 0, 0, 2],
        depth: vec![0, 1, 1, 2],
    };
    let (emitted, leaf) = t.accept_longest_path(&[11, 12, 12, 7]);
    assert_eq!(emitted, vec![11, 12, 7]);
    assert_eq!(leaf, 3);
    // The continuation of the second sibling does not match: both end at once, and
    // the first is taken.
    let (emitted, leaf) = t.accept_longest_path(&[11, 12, 13, 7]);
    assert_eq!(emitted, vec![11, 12]);
    assert_eq!(leaf, 1);
}

#[test]
fn acceptance_compares_whole_walks() {
    //        0
    //      / | \
    //     1  2  3       (all token 5)
    //     |  |  |
    //     4  5  6       (tokens 6, 6, 6)
    //        |  |
    //        7  8       (token 7)
    let t = TokenTree {
        tokens: vec![1, 5, 5, 5, 6, 6, 6, 7, 7],
        parent: vec![-1, 0, 0, 0, 1, 2, 3, 5, 6],
        depth: vec![0, 1, 1, 1, 2, 2, 2, 3, 3],
    };
    let (emitted, leaf) = t.accept_longest_path(&[5, 6, 6, 6, 9, 7, 7, 8, 4]);
    assert_eq!(emitted, vec![5, 6, 7, 8]);
    assert_eq!(leaf, 7);
    let (emitted, leaf) = t.accept_longest_path(&[5, 6, 6, 6, 9, 0, 7, 8, 4]);
    assert_eq!(emitted, vec![5, 6, 7, 4]);
    assert_eq!(leaf, 8);
}

#[test]
fn ngram_drafts_the_most_recent_continuation() {
    let drafter = NGramDrafter::default();
    // [1, 2] occurs twice before the end; the later one goes on with 9.
    assert_eq!(
        drafter.draft(&[1, 2, 7, 8, 1, 2, 9, 5, 1, 2], 3),
        vec![9, 5, 1]
    );
    assert_eq!(drafter.draft(&[1, 2, 3, 4], 3), Vec::<u32>::new());
    assert_eq!(
        drafter.draft(&[1, 2, 7, 1, 2], 0),
        Vec::<u32>::new()
    );
}

#[test]
fn ngram_tree_keeps_both_budgets() {
    let history = vec![1, 2, 3, 4, 5, 6, 9, 9, 1, 2, 3, 4];
    let mut drafter = NGramTreeDrafter::new(NGramDrafter::default());
    assert_eq!(drafter.draft_tree(&history, 4, 3, 8).nodes(), 3);
    assert_eq!(drafter.draft_tree(&history, 4, 16, 1).nodes(), 2);
    assert_eq!(drafter.draft_tree(&history, 4, 0, 8).nodes(), 1);
}

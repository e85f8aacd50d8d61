//! Whatever a drafter proposes, decoding emits the greedy stream.

use camelid::lossless::{
    drafted_decode, node_paths, oracle_greedy_decode, oracle_next, predicted_for_tree, spec_round,
};
use camelid::spec_tree::{TokenTree, TreeDrafter, TREE_MAX_NODES};
use camelid::speculative::NGramDrafter;
use camelid::suffix_decoding::SuffixDecodingDrafter;

/// Drives a full decode with a drafter, one round at a time, and compares the
/// stream with pure greedy decoding.
fn assert_drafter_lossless<D: TreeDrafter>(mut drafter: D, prompt: &[u32], count: usize) {
    let truth = oracle_greedy_decode(prompt, count);
    let mut history = prompt.to_vec();
    let mut emitted_all: Vec<u32> = Vec::new();
    let mut rounds = 0usize;
    while emitted_all.len() < count {
        rounds += 1;
        assert!(rounds < 10_000, "decode did not terminate");
        let anchor = *history.last().expect("non-empty prompt");
        let tree = drafter.draft_tree(&history, anchor, TREE_MAX_NODES, 8);
        assert_eq!(tree.tokens[0], anchor, "tree root must be the anchor");
        let emitted = spec_round(&tree, &history);
        assert!(!emitted.is_empty(), "every round emits at least the bonus");
        for t in emitted {
            if emitted_all.len() >= count {
                break;
            }
            emitted_all.push(t);
            history.push(t);
        }
    }
    emitted_all.truncate(count);
    assert_eq!(
        emitted_all, truth,
        "drafter emitted a non-greedy stream — losslessness violated"
    );
    assert_eq!(drafted_decode(&mut drafter, prompt, count), truth);
}

/// The longest prefix of `drafts` that the model confirms, then one more token.
fn linear_ref(drafts: &[u32], predicted: &[u32]) -> Vec<u32> {
    let mut accepted = vec![predicted[0]];
    let mut j = 0usize;
    while j < drafts.len() && drafts[j] == predicted[j] {
        accepted.push(predicted[j + 1]);
        j += 1;
    }
    accepted
}

#[test]
fn tree_accept_equals_linear_accept_for_equivalent_inputs() {
    // Deterministic pseudo-random cases.
    let mut state = 0x1234_5678u64;
    let mut rng = || {
        state = state
            .wrapping_mul(6364136223846793005)
            .wrapping_add(1442695040888963407);
        (state >> 33) as u32
    };
    for _ in 0..2000 {
        let len = (rng() % 7) as usize; // 0..6 drafts
        let drafts: Vec<u32> = (0..len).map(|_| rng() % 5).collect();
        // predicted has len+1 entries (one per node).
        let predicted: Vec<u32> = (0..len + 1).map(|_| rng() % 5).collect();
        let tree = TokenTree::linear(99, &drafts);
        let (emitted, _) = tree.accept_longest_path(&predicted);
        assert_eq!(
            emitted,
            linear_ref(&drafts, &predicted),
            "drafts={drafts:?} predicted={predicted:?}"
        );
    }
}

/// An n-gram drafter as a degenerate tree drafter.
struct Chain(NGramDrafter);

impl TreeDrafter for Chain {
    fn draft_tree(
        &mut self,
        history: &[u32],
        anchor: u32,
        max_nodes: usize,
        max_depth: usize,
    ) -> TokenTree {
        let k = (max_nodes - 1).min(max_depth);
        TokenTree::linear(anchor, &self.0.draft(history, k))
    }
}

#[test]
fn ngram_linear_tree_lossless_under_oracle() {
    // NGram wrapped as a degenerate tree must be lossless too.
    assert_drafter_lossless(Chain(NGramDrafter::default()), &[1, 2, 3, 4], 80);
}

#[test]
fn suffix_decoding_lossless_under_oracle() {
    assert_drafter_lossless(SuffixDecodingDrafter::default(), &[1, 2, 3, 4], 80);
}

/// A drafter that proposes wrong tokens, on two branches.
struct Stubborn;

impl TreeDrafter for Stubborn {
    fn draft_tree(
        &mut self,
        _history: &[u32],
        anchor: u32,
        _max_nodes: usize,
        _max_depth: usize,
    ) -> TokenTree {
        TokenTree {
            tokens: vec![anchor, 3, 99, 3],
            parent: vec![-1, 0, 0, 1],
            depth: vec![0, 1, 1, 2],
        }
    }
}

#[test]
fn a_wrong_drafter_is_lossless() {
    assert_drafter_lossless(Stubborn, &[5], 60);
}

#[test]
fn oracle_mixes_the_last_tokens() {
    assert_eq!(oracle_next(&[]), 0);
    let a = 0x9E37_79B9_7F4A_7C15u64;
    let b = 0xC2B2_AE3D_27D4_EB4Fu64.wrapping_mul(7);
    let c = 0x1656_67B1_9E37_79F9u64.wrapping_mul(13);
    let h = a.wrapping_add(b).wrapping_add(c);
    assert_eq!(oracle_next(&[1]), (h % 17) as u32);
    // Only the last three tokens count.
    assert_eq!(oracle_next(&[9, 9, 1, 2, 3]), oracle_next(&[1, 2, 3]));
}

#[test]
fn oracle_decode_feeds_its_own_tokens() {
    let out = oracle_greedy_decode(&[1, 2], 3);
    assert_eq!(out.len(), 3);
    assert_eq!(out[0], oracle_next(&[1, 2]));
    assert_eq!(out[1], oracle_next(&[1, 2, out[0]]));
    assert_eq!(out[2], oracle_next(&[1, 2, out[0], out[1]]));
}

#[test]
fn predictions_follow_node_paths() {
    let tree = TokenTree {
        tokens: vec![10, 11, 12, 13],
        parent: vec![-1, 0, 0, 1],
        depth: vec![0, 1, 1, 2],
    };
    assert_eq!(
        node_paths(&tree),
        vec![vec![], vec![11], vec![12], vec![11, 13]]
    );
    let history = [4, 10];
    assert_eq!(
        predicted_for_tree(&tree, &history),
        vec![
            oracle_next(&[4, 10]),
            oracle_next(&[4, 10, 11]),
            oracle_next(&[4, 10, 12]),
            oracle_next(&[4, 10, 11, 13]),
        ]
    );
}

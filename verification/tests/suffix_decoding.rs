//! Suffix decoding: what the drafter proposes.

use std::collections::HashMap;

use camelid::spec_tree::{TreeDrafter, TREE_MAX_NODES};
use camelid::suffix_decoding::{build_pattern, frontier_pop, SuffixDecodingDrafter};

#[test]
fn anchor_only_when_no_repeat() {
    let mut d = SuffixDecodingDrafter::default();
    let history = vec![1, 2, 3, 4, 5];
    let tree = d.draft_tree(&history, 5, TREE_MAX_NODES, 6);
    assert_eq!(tree.nodes(), 1); // root only
    assert_eq!(tree.tokens, vec![5]);
}

#[test]
fn drafts_most_frequent_continuation() {
    // Suffix [3,4] recurs; after it we mostly see 7 (twice) and once 9.
    // history: 3 4 7 ... 3 4 7 ... 3 4 9 ... 3 4  (trailing suffix)
    let mut d = SuffixDecodingDrafter {
        max_match: 2,
        min_match: 2,
        window: 4096,
        branch: 1,
    };
    let history = vec![3, 4, 7, 0, 3, 4, 7, 0, 3, 4, 9, 0, 3, 4];
    let anchor = 4;
    let tree = d.draft_tree(&history, anchor, TREE_MAX_NODES, 4);
    // Root + most-frequent successor 7.
    assert!(tree.nodes() >= 2);
    assert_eq!(tree.tokens[0], 4);
    assert_eq!(tree.tokens[1], 7, "7 follows [3,4] more often than 9");
    // BFS invariant.
    for i in 1..tree.nodes() {
        assert!(tree.parent[i] < i as i32);
    }
}

#[test]
fn branching_expands_multiple_successors() {
    let mut d = SuffixDecodingDrafter {
        max_match: 2,
        min_match: 2,
        window: 4096,
        branch: 2,
    };
    // [3,4] -> 7 (x2) and 9 (x1): branch=2 should attach both.
    let history = vec![3, 4, 7, 0, 3, 4, 7, 0, 3, 4, 9, 0, 3, 4];
    let tree = d.draft_tree(&history, 4, TREE_MAX_NODES, 1);
    // depth capped at 1, so root + (up to) 2 children.
    let children: Vec<u32> = (1..tree.nodes())
        .filter(|&i| tree.parent[i] == 0)
        .map(|i| tree.tokens[i])
        .collect();
    assert!(children.contains(&7));
    assert!(children.contains(&9));
    assert_eq!(tree.max_depth(), 1);
}

#[test]
fn respects_node_and_depth_caps() {
    let mut d = SuffixDecodingDrafter::default();
    let history = vec![1, 2, 3, 1, 2, 3, 1, 2, 3, 1, 2, 3, 1, 2];
    let tree = d.draft_tree(&history, 2, 5, 2);
    assert!(tree.nodes() <= 5, "node cap respected");
    assert!(tree.max_depth() <= 2, "depth cap respected");
}

#[test]
fn successors_are_counted_and_ranked() {
    let hist = [3, 4, 7, 0, 3, 4, 7, 0, 3, 4, 9, 0, 3, 4];
    let freq = SuffixDecodingDrafter::successor_freqs(&hist, &[3, 4]);
    assert_eq!(freq.len(), 2);
    assert_eq!(freq[&7], 2);
    assert_eq!(freq[&9], 1);
    assert_eq!(SuffixDecodingDrafter::top_successors(&freq, 1), vec![7]);
    assert_eq!(SuffixDecodingDrafter::top_successors(&freq, 5), vec![7, 9]);
    assert!(SuffixDecodingDrafter::top_successors(&freq, 0).is_empty());
}

#[test]
fn equally_frequent_successors_come_by_token() {
    let hist = [1, 9, 1, 5, 1, 7, 1];
    let freq = SuffixDecodingDrafter::successor_freqs(&hist, &[1]);
    assert_eq!(
        SuffixDecodingDrafter::top_successors(&freq, 3),
        vec![5, 7, 9]
    );
}

#[test]
fn patterns_span_history_and_path() {
    assert_eq!(build_pattern(&[1, 2, 3], &[4, 5], 3), vec![3, 4, 5]);
    assert_eq!(build_pattern(&[1, 2, 3], &[4, 5], 2), vec![4, 5]);
    assert_eq!(build_pattern(&[1], &[2], 3), Vec::<u32>::new());
}

#[test]
fn frontier_is_first_in_first_out() {
    let mut frontier = vec![3usize, 1, 2];
    assert_eq!(frontier_pop(&mut frontier), Some(3));
    assert_eq!(frontier_pop(&mut frontier), Some(1));
    assert_eq!(frontier, vec![2]);
    assert_eq!(frontier_pop(&mut frontier), Some(2));
    assert_eq!(frontier_pop(&mut frontier), None);
}

#[test]
fn the_longest_match_wins() {
    // After [2, 3] comes 8; after [1, 2, 3] comes 9.
    let mut d = SuffixDecodingDrafter {
        max_match: 3,
        min_match: 2,
        window: 4096,
        branch: 1,
    };
    let history = vec![1, 2, 3, 9, 0, 2, 3, 8, 0, 2, 3, 8, 0, 1, 2, 3];
    let tree = d.draft_tree(&history, 3, TREE_MAX_NODES, 1);
    assert_eq!(tree.tokens, vec![3, 9]);
}

#[test]
fn matches_outside_the_window_are_not_seen() {
    let mut d = SuffixDecodingDrafter {
        max_match: 2,
        min_match: 2,
        window: 4,
        branch: 2,
    };
    let history = vec![3, 4, 7, 0, 0, 0, 3, 4];
    let tree = d.draft_tree(&history, 4, TREE_MAX_NODES, 4);
    assert_eq!(tree.tokens, vec![4]);
}

#[test]
fn suffix_defaults() {
    let d = SuffixDecodingDrafter::default();
    assert_eq!(
        (d.max_match, d.min_match, d.window, d.branch),
        (4, 2, 512, 2)
    );
}

#[test]
fn only_successors_that_occurred_are_returned() {
    let freq = HashMap::from([(5u32, 0usize)]);
    assert!(SuffixDecodingDrafter::top_successors(&freq, 1).is_empty());
    let freq = HashMap::from([(5u32, 0usize), (9, 2), (7, 0), (8, 2)]);
    assert_eq!(SuffixDecodingDrafter::top_successors(&freq, 4), vec![8, 9]);
}

#[test]
fn drafts_stand_in_breadth_first_order() {
    let mut d = SuffixDecodingDrafter::default();
    let history = vec![1, 2, 3, 1, 2, 4, 1, 2, 3, 1, 2, 4, 3, 1, 2];
    let tree = d.draft_tree(&history, 2, TREE_MAX_NODES, 4);
    assert!(tree.nodes() > 3);
    for i in 1..tree.nodes() {
        assert!(tree.parent[i - 1] <= tree.parent[i]);
        assert!(tree.depth[i - 1] <= tree.depth[i]);
    }
    // The children of the root are the successors of its longest recurring suffix,
    // [3, 1, 2], which 4 followed.
    let children: Vec<u32> = (1..tree.nodes())
        .filter(|&i| tree.parent[i] == 0)
        .map(|i| tree.tokens[i])
        .collect();
    assert_eq!(children, vec![4]);
}

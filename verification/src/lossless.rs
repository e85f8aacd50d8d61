//! Lossless speculative decoding.
//!
//! Whatever a drafter proposes, the tokens that an accept walk emits are the
//! tokens that greedy decoding would have produced: a draft changes how many
//! tokens land per round, never which. The laws hold for every model, seen as a
//! function from a token context to its greedy next token; the executable
//! functions run a small deterministic stand-in for one.

use vstd::prelude::*;

use crate::spec_tree::TokenTree;
use crate::spec_tree::TreeDrafter;
use crate::spec_tree::TreeModel;
use crate::spec_tree::TREE_MAX_NODES;

verus! {

/// The first `count` tokens of greedy decoding from `context`.
pub open spec fn greedy(
    model: spec_fn(Seq<u32>) -> u32,
    context: Seq<u32>,
    count: nat,
) -> Seq<u32>
    decreases count,
{
    if count == 0 {
        Seq::empty()
    } else {
        let t = model(context);
        seq![t] + greedy(model, context.push(t), (count - 1) as nat)
    }
}

/// `predicted` holds the model's next token after every node of `tree`, each in
/// the context of `history` (which ends with the anchor) and the node's path.
pub open spec fn predicts(
    model: spec_fn(Seq<u32>) -> u32,
    tree: TreeModel,
    history: Seq<u32>,
    predicted: Seq<u32>,
) -> bool {
    &&& predicted.len() == tree.tokens.len()
    &&& forall|i: int|
        0 <= i < tree.tokens.len() ==> #[trigger] predicted[i] == model(
            history + tree.path_tokens(i),
        )
}

/// Greedy decoding of `a + b` tokens is greedy decoding of `a` tokens followed
/// by greedy decoding of `b` more.
pub proof fn greedy_splits(model: spec_fn(Seq<u32>) -> u32, context: Seq<u32>, a: nat, b: nat)
    ensures
        greedy(model, context, a).len() == a,
        greedy(model, context, a + b) == greedy(model, context, a) + greedy(
            model,
            context + greedy(model, context, a),
            b,
        ),
    decreases a,
{
    if a == 0 {
        assert(context + greedy(model, context, 0) =~= context);
        assert(greedy(model, context, b) =~= greedy(model, context, 0) + greedy(model, context, b));
    } else {
        let t = model(context);
        let next = context.push(t);
        greedy_splits(model, next, (a - 1) as nat, b);
        let head = greedy(model, next, (a - 1) as nat);
        assert(context + greedy(model, context, a) =~= next + head);
        assert(greedy(model, context, a + b) =~= seq![t] + greedy(model, next, (a - 1 + b) as nat));
        assert(greedy(model, context, a + b) =~= greedy(model, context, a) + greedy(
            model,
            context + greedy(model, context, a),
            b,
        ));
    }
}

/// From an accepted node on, the accept walk emits what greedy decoding from
/// that node's context emits.
proof fn lemma_walk_is_greedy(
    model: spec_fn(Seq<u32>) -> u32,
    tree: TreeModel,
    history: Seq<u32>,
    predicted: Seq<u32>,
    c: int,
)
    requires
        crate::spec_tree::parents_precede(tree.parent),
        tree.parent.len() >= tree.tokens.len(),
        predicts(model, tree, history, predicted),
        0 <= c < tree.tokens.len(),
    ensures
        tree.emitted_tokens(predicted, c).len() >= 1,
        tree.emitted_tokens(predicted, c) == greedy(
            model,
            history + tree.path_tokens(c),
            tree.emitted_tokens(predicted, c).len(),
        ),
    decreases tree.tokens.len() - c,
{
    let context = history + tree.path_tokens(c);
    let next = predicted[c];
    let emitted = tree.emitted_tokens(predicted, c);
    crate::spec_tree::longest_child_is_longest(tree, predicted, c, c + 1);
    reveal_with_fuel(greedy, 2);
    match tree.next_accepted(predicted, c) {
        Some(ch) => {
            lemma_walk_is_greedy(model, tree, history, predicted, ch);
            let rest = tree.emitted_tokens(predicted, ch);
            assert(emitted =~= seq![next] + rest);
            assert(tree.path_tokens(ch) == tree.path_tokens(c).push(next));
            assert(history + tree.path_tokens(ch) =~= context.push(next));
            assert(greedy(model, context, emitted.len()) =~= seq![next] + rest);
        },
        None => {
            assert(emitted =~= seq![next]);
            assert(greedy(model, context, 1) =~= seq![next]);
        },
    }
}

/// Losslessness: for every model, tree and history, the accept walk emits at
/// least one token, and what it emits is exactly what greedy decoding from
/// `history` emits.
pub proof fn accept_is_lossless(
    model: spec_fn(Seq<u32>) -> u32,
    tree: TreeModel,
    history: Seq<u32>,
    predicted: Seq<u32>,
)
    requires
        crate::spec_tree::parents_precede(tree.parent),
        tree.parent.len() >= tree.tokens.len(),
        tree.tokens.len() >= 1,
        predicts(model, tree, history, predicted),
    ensures
        tree.emitted_tokens(predicted, 0).len() >= 1,
        tree.emitted_tokens(predicted, 0) == greedy(
            model,
            history,
            tree.emitted_tokens(predicted, 0).len(),
        ),
{
    lemma_walk_is_greedy(model, tree, history, predicted, 0);
    assert(history + tree.path_tokens(0) =~= history);
}

/// The stand-in model's next token: a mix of the last three tokens (7 and 13
/// where the context is too short), taken modulo 2^64 and then modulo 17; 0
/// for an empty context.
pub open spec fn oracle_token(context: Seq<u32>) -> u32 {
    if context.len() == 0 {
        0
    } else {
        let n = context.len() as int;
        let a = context[n - 1] as int;
        let b = if n >= 2 {
            context[n - 2] as int
        } else {
            7
        };
        let c = if n >= 3 {
            context[n - 3] as int
        } else {
            13
        };
        ((a * 0x9E3779B97F4A7C15 + b * 0xC2B2AE3D27D4EB4F + c * 0x165667B19E3779F9)
            % 0x1_0000_0000_0000_0000 % 17) as u32
    }
}

/// The stand-in model as a function.
pub open spec fn oracle() -> spec_fn(Seq<u32>) -> u32 {
    |context: Seq<u32>| oracle_token(context)
}

/// Wrapped summands give a wrapped sum.
proof fn lemma_wrapped_sum(x: u64, y: u64, sum: u64, a: int, b: int)
    requires
        x == a % 0x1_0000_0000_0000_0000,
        y == b % 0x1_0000_0000_0000_0000,
        sum == (if x + y > u64::MAX {
            x + y - 0x1_0000_0000_0000_0000
        } else {
            x + y
        }),
    ensures
        sum == (a + b) % 0x1_0000_0000_0000_0000,
{
}

/// The stand-in model's greedy next token.
pub fn oracle_next(context: &[u32]) -> (token: u32)
    ensures
        token == oracle_token(context@),
{
    let n: usize = context.len();
    if n == 0 {
        return 0;
    }
    let a: u64 = context[n - 1] as u64;
    let b: u64 = if n >= 2 {
        context[n - 2] as u64
    } else {
        7
    };
    let c: u64 = if n >= 3 {
        context[n - 3] as u64
    } else {
        13
    };
    let ka: u64 = a.wrapping_mul(0x9E3779B97F4A7C15);
    let kb: u64 = b.wrapping_mul(0xC2B2AE3D27D4EB4F);
    let kc: u64 = c.wrapping_mul(0x165667B19E3779F9);
    let ab: u64 = ka.wrapping_add(kb);
    let h: u64 = ab.wrapping_add(kc);
    proof {
        lemma_wrapped_sum(ka, kb, ab, a * 0x9E3779B97F4A7C15, b * 0xC2B2AE3D27D4EB4F);
        lemma_wrapped_sum(
            ab,
            kc,
            h,
            a * 0x9E3779B97F4A7C15 + b * 0xC2B2AE3D27D4EB4F,
            c * 0x165667B19E3779F9,
        );
    }
    (h % 17) as u32
}

/// Pure greedy decoding of `count` tokens: the ground-truth stream.
pub fn oracle_greedy_decode(prompt: &[u32], count: usize) -> (out: Vec<u32>)
    ensures
        out@ == greedy(oracle(), prompt@, count as nat),
{
    let mut ctx: Vec<u32> = Vec::new();
    ctx.extend_from_slice(prompt);
    assert(ctx@ =~= prompt@);
    let mut out: Vec<u32> = Vec::new();
    let ghost whole = greedy(oracle(), prompt@, count as nat);
    assert(whole =~= out@ + greedy(oracle(), ctx@, count as nat));
    while out.len() < count
        invariant
            out@.len() <= count,
            whole == out@ + greedy(oracle(), ctx@, (count - out@.len()) as nat),
        decreases count - out@.len(),
    {
        let t: u32 = oracle_next(ctx.as_slice());
        let ghost before = out@;
        let ghost rest = greedy(oracle(), ctx@, (count - out@.len()) as nat);
        out.push(t);
        ctx.push(t);
        assert(rest =~= seq![t] + greedy(oracle(), ctx@, (count - out@.len()) as nat));
        assert(whole =~= out@ + greedy(oracle(), ctx@, (count - out@.len()) as nat));
    }
    assert(whole =~= out@);
    out
}

/// The tokens drafted along the path to each node, the anchor left out.
pub fn node_paths(tree: &TokenTree) -> (paths: Vec<Vec<u32>>)
    requires
        tree@.rooted(),
    ensures
        paths@.len() == tree@.tokens.len(),
        forall|i: int| 0 <= i < paths@.len() ==> (#[trigger] paths@[i])@ == tree@.path_tokens(i),
{
    let mut paths: Vec<Vec<u32>> = Vec::new();
    let n: usize = tree.nodes();
    let mut i: usize = 0;
    while i < n
        invariant
            n == tree@.tokens.len(),
            tree@.rooted(),
            i <= n,
            paths@.len() == i,
            forall|k: int| 0 <= k < i ==> (#[trigger] paths@[k])@ == tree@.path_tokens(k),
        decreases n - i,
    {
        let mut path: Vec<u32> = Vec::new();
        if i > 0 {
            let p: usize = tree.parent[i] as usize;
            path.extend_from_slice(paths[p].as_slice());
            path.push(tree.tokens[i]);
            assert(path@ =~= tree@.path_tokens(p as int).push(tree@.tokens[i as int]));
        } else {
            assert(path@ =~= tree@.path_tokens(0));
        }
        paths.push(path);
        i = i + 1;
    }
    paths
}

/// The stand-in model's prediction after every node of `tree`.
pub fn predicted_for_tree(tree: &TokenTree, history_through_anchor: &[u32]) -> (predicted: Vec<
    u32,
>)
    requires
        tree@.rooted(),
    ensures
        predicts(oracle(), tree@, history_through_anchor@, predicted@),
{
    let paths: Vec<Vec<u32>> = node_paths(tree);
    let mut predicted: Vec<u32> = Vec::new();
    let mut i: usize = 0;
    while i < paths.len()
        invariant
            i <= paths@.len(),
            paths@.len() == tree@.tokens.len(),
            predicted@.len() == i,
            forall|k: int|
                0 <= k < paths@.len() ==> (#[trigger] paths@[k])@ == tree@.path_tokens(k),
            forall|k: int|
                0 <= k < i ==> #[trigger] predicted@[k] == oracle()(
                    history_through_anchor@ + tree@.path_tokens(k),
                ),
        decreases paths@.len() - i,
    {
        let mut ctx: Vec<u32> = Vec::new();
        ctx.extend_from_slice(history_through_anchor);
        ctx.extend_from_slice(paths[i].as_slice());
        assert(ctx@ =~= history_through_anchor@ + tree@.path_tokens(i as int));
        predicted.push(oracle_next(ctx.as_slice()));
        i = i + 1;
    }
    predicted
}

/// One speculative round: the tokens emitted for `tree` after `history`.
pub fn spec_round(tree: &TokenTree, history: &[u32]) -> (emitted: Vec<u32>)
    requires
        tree@.rooted(),
    ensures
        emitted@.len() >= 1,
        emitted@ == greedy(oracle(), history@, emitted@.len()),
        exists|predicted: Seq<u32>|
            predicts(oracle(), tree@, history@, predicted) && emitted@
                == #[trigger] tree@.emitted_tokens(predicted, 0),
{
    let predicted: Vec<u32> = predicted_for_tree(tree, history);
    let (emitted, _leaf) = tree.accept_longest_path(predicted.as_slice());
    proof {
        accept_is_lossless(oracle(), tree@, history@, predicted@);
        assert(predicts(oracle(), tree@, history@, predicted@));
    }
    emitted
}

/// Decode `count` tokens with the help of a drafter. Whatever the drafter
/// proposes, the stream is the one that greedy decoding produces.
pub fn drafted_decode<D: TreeDrafter>(drafter: &mut D, prompt: &[u32], count: usize) -> (out: Vec<
    u32,
>)
    requires
        prompt@.len() >= 1,
    ensures
        out@ == greedy(oracle(), prompt@, count as nat),
{
    let mut history: Vec<u32> = Vec::new();
    history.extend_from_slice(prompt);
    assert(history@ =~= prompt@);
    let mut out: Vec<u32> = Vec::new();
    while out.len() < count
        invariant
            prompt@.len() >= 1,
            out@.len() <= count,
            history@ == prompt@ + out@,
            out@ == greedy(oracle(), prompt@, out@.len()),
        decreases count - out@.len(),
    {
        let anchor: u32 = history[history.len() - 1];
        let tree: TokenTree = drafter.draft_tree(history.as_slice(), anchor, TREE_MAX_NODES, 8);
        let emitted: Vec<u32> = spec_round(&tree, history.as_slice());
        let ghost start = out@;
        let mut k: usize = 0;
        while k < emitted.len() && out.len() < count
            invariant
                k <= emitted@.len(),
                out@.len() <= count,
                out@ == start + emitted@.take(k as int),
                history@ == prompt@ + out@,
                emitted@.len() >= 1,
                k == 0 ==> out@.len() < count,
                start.len() + k == out@.len(),
            decreases emitted@.len() - k,
        {
            let t: u32 = emitted[k];
            out.push(t);
            history.push(t);
            assert(emitted@.take(k + 1) =~= emitted@.take(k as int).push(t));
            assert(history@ =~= prompt@ + out@);
            k = k + 1;
        }
        proof {
            let n = emitted@.len();
            greedy_splits(oracle(), prompt@ + start, k as nat, (n - k) as nat);
            assert(emitted@.take(k as int) =~= greedy(oracle(), prompt@ + start, k as nat));
            greedy_splits(oracle(), prompt@, start.len(), k as nat);
        }
    }
    out
}

} // verus!

//! Laws of drafting, told by the tokens of the history alone: which earlier match a
//! draft continues, and with what.

use vstd::prelude::*;

verus! {

/// The last `m` tokens of `context` stood in `hist` before, from `s` on, and some token
/// followed them there.
pub open spec fn recurs_at(hist: Seq<u32>, context: Seq<u32>, m: int, s: int) -> bool {
    &&& 0 <= s
    &&& 0 <= m <= context.len()
    &&& s + m < hist.len()
    &&& forall|k: int|
        0 <= k < m ==> #[trigger] hist[s + k] == context[context.len() - m + k]
}

/// A pattern occurs where it fits and every one of its tokens stands in its place.
pub proof fn occurrences_agree_token_by_token(hist: Seq<u32>, pattern: Seq<u32>, s: int)
    ensures
        crate::speculative::occurs_at(hist, pattern, s) <==> (0 <= s && s + pattern.len()
            <= hist.len() && forall|k: int|
            0 <= k < pattern.len() ==> #[trigger] hist[s + k] == pattern[k]),
{
    if 0 <= s && s + pattern.len() <= hist.len() {
        let here = hist.subrange(s, s + pattern.len());
        if forall|k: int| 0 <= k < pattern.len() ==> #[trigger] hist[s + k] == pattern[k] {
            assert forall|k: int| 0 <= k < pattern.len() implies here[k] == pattern[k] by {
                assert(here[k] == hist[s + k]);
            }
            assert(here =~= pattern);
        }
        if here == pattern {
            assert forall|k: int| 0 <= k < pattern.len() implies #[trigger] hist[s + k]
                == pattern[k] by {
                assert(here[k] == hist[s + k]);
            }
        }
    }
}

/// A suffix recurs where it occurs as a pattern and is followed by a token.
proof fn lemma_recurs_is_occurs(hist: Seq<u32>, context: Seq<u32>, m: int, s: int)
    requires
        0 <= m <= context.len(),
    ensures
        recurs_at(hist, context, m, s) <==> (s + m < hist.len() && crate::speculative::occurs_at(
            hist,
            crate::speculative::last_tokens(context, m),
            s,
        )),
{
    let pattern = crate::speculative::last_tokens(context, m);
    occurrences_agree_token_by_token(hist, pattern, s);
    assert(pattern.len() == m);
    assert forall|k: int| 0 <= k < m implies pattern[k] == context[context.len() - m + k] by {}
    if recurs_at(hist, context, m, s) {
        assert forall|k: int| 0 <= k < pattern.len() implies #[trigger] hist[s + k] == pattern[k] by {
        }
    }
}

proof fn lemma_latest(history: Seq<u32>, n: int, end: int)
    requires
        0 < n < history.len(),
        end <= history.len() - n,
    ensures
        match crate::speculative::latest_occurrence(
            history,
            crate::speculative::last_tokens(history, n),
            end,
        ) {
            Some(s) => s < end && recurs_at(history, history, n, s) && forall|t: int|
                s < t < end ==> !#[trigger] recurs_at(history, history, n, t),
            None => forall|t: int| t < end ==> !#[trigger] recurs_at(history, history, n, t),
        },
    decreases end,
{
    if end > 0 {
        lemma_recurs_is_occurs(history, history, n, end - 1);
        lemma_latest(history, n, end - 1);
    }
}

/// `draft` is what followed the start `s` of a match of the last `m` tokens, cut to
/// `max_drafts` tokens. No longer admitted suffix recurred, and that suffix recurred
/// nowhere later.
pub open spec fn continues_match(
    history: Seq<u32>,
    max_ngram: nat,
    max_drafts: nat,
    draft: Seq<u32>,
    m: int,
    s: int,
) -> bool {
    &&& recurs_at(history, history, m, s)
    &&& forall|t: int| s < t ==> !#[trigger] recurs_at(history, history, m, t)
    &&& forall|j: int, t: int|
        m < j <= max_ngram ==> !#[trigger] recurs_at(history, history, j, t)
    &&& draft.len() <= max_drafts
    &&& draft.len() == max_drafts || draft.len() == history.len() - (s + m)
    &&& s + m + draft.len() <= history.len()
    &&& forall|k: int| 0 <= k < draft.len() ==> #[trigger] draft[k] == history[s + m + k]
}

/// A draft is what followed the most recent earlier match of the longest suffix of an
/// admitted length that matched at all. Where no suffix of an admitted length did,
/// nothing is drafted.
pub proof fn a_draft_continues_the_latest_longest_match(
    history: Seq<u32>,
    min_ngram: nat,
    max_ngram: nat,
    max_drafts: nat,
)
    ensures
        ({
            let draft = crate::speculative::ngram_draft(history, min_ngram, max_ngram, max_drafts);
            ||| exists|m: int, s: int|
                1 <= m && min_ngram <= m <= max_ngram && #[trigger] continues_match(
                    history,
                    max_ngram,
                    max_drafts,
                    draft,
                    m,
                    s,
                )
            ||| draft.len() == 0 && forall|m: int, s: int|
                1 <= m && min_ngram <= m <= max_ngram ==> !#[trigger] recurs_at(
                    history,
                    history,
                    m,
                    s,
                )
        }),
{
    lemma_draft_from(history, min_ngram, max_ngram, max_ngram, max_drafts);
}

proof fn lemma_draft_from(
    history: Seq<u32>,
    min_ngram: nat,
    n: nat,
    max_ngram: nat,
    max_drafts: nat,
)
    requires
        n <= max_ngram,
        forall|j: int, t: int|
            n < j <= max_ngram ==> !#[trigger] recurs_at(history, history, j, t),
    ensures
        ({
            let draft = crate::speculative::ngram_draft(history, min_ngram, n, max_drafts);
            ||| exists|m: int, s: int|
                1 <= m && min_ngram <= m <= max_ngram && #[trigger] continues_match(
                    history,
                    max_ngram,
                    max_drafts,
                    draft,
                    m,
                    s,
                )
            ||| draft.len() == 0 && forall|m: int, s: int|
                1 <= m && min_ngram <= m <= max_ngram ==> !#[trigger] recurs_at(
                    history,
                    history,
                    m,
                    s,
                )
        }),
    decreases n,
{
    let draft = crate::speculative::ngram_draft(history, min_ngram, n, max_drafts);
    if n == 0 || n < min_ngram {
        assert forall|m: int, s: int| 1 <= m && min_ngram <= m <= max_ngram implies
            !#[trigger] recurs_at(history, history, m, s) by {
            assert(n < m);
        }
    } else {
        if n < history.len() {
            lemma_latest(history, n as int, history.len() - n);
        }
        let found = crate::speculative::latest_occurrence(
            history,
            crate::speculative::last_tokens(history, n as int),
            history.len() - n,
        );
        if n < history.len() && found is Some {
            let s = found->0;
            assert forall|t: int| s < t implies !#[trigger] recurs_at(
                history,
                history,
                n as int,
                t,
            ) by {}
            assert(continues_match(history, max_ngram, max_drafts, draft, n as int, s));
        } else {
            assert forall|t: int| !#[trigger] recurs_at(history, history, n as int, t) by {}
            assert forall|j: int, t: int| n - 1 < j <= max_ngram implies !#[trigger] recurs_at(
                history,
                history,
                j,
                t,
            ) by {
                if j == n {
                    assert(!recurs_at(history, history, n as int, t));
                }
            }
            lemma_draft_from(history, min_ngram, (n - 1) as nat, max_ngram, max_drafts);
        }
    }
}

/// The single-branch tree holds the anchor and then the drafts in their order: each
/// node hangs below the node before it, one level deeper.
pub proof fn a_chain_tree_holds_its_drafts(anchor: u32, drafts: Seq<u32>, i: int)
    requires
        drafts.len() <= u16::MAX,
        0 <= i <= drafts.len(),
    ensures
        ({
            let tree = crate::spec_tree::linear_model(anchor, drafts);
            &&& tree.tokens.len() == drafts.len() + 1
            &&& tree.parent.len() == drafts.len() + 1
            &&& tree.depth.len() == drafts.len() + 1
            &&& tree.tokens[0] == anchor
            &&& i > 0 ==> tree.tokens[i] == drafts[i - 1]
            &&& tree.parent[i] == i - 1
            &&& tree.depth[i] == i
        }),
{
}

/// A chain drafted as a tree uses both budgets up as far as the match is followed: with
/// room for further nodes and levels, each next token that followed the match is there.
pub proof fn a_drafted_chain_uses_its_budget(
    history: Seq<u32>,
    min_ngram: nat,
    max_ngram: nat,
    anchor: u32,
    max_nodes: usize,
    max_depth: usize,
)
    ensures
        ({
            let tree = crate::spec_tree::linear_model(
                anchor,
                crate::speculative::ngram_draft(
                    history,
                    min_ngram,
                    max_ngram,
                    crate::spec_tree::chain_budget(max_nodes, max_depth),
                ),
            );
            let drafts = tree.tokens.skip(1);
            &&& tree.tokens[0] == anchor
            &&& drafts.len() <= max_depth
            &&& drafts.len() == 0 || drafts.len() < max_nodes
            &&& forall|m: int, s: int|
                1 <= m && min_ngram <= m <= max_ngram && #[trigger] recurs_at(
                    history,
                    history,
                    m,
                    s,
                ) ==> (drafts.len() > 0 || max_nodes <= 1 || max_depth == 0)
            &&& drafts.len() > 0 ==> exists|m: int, s: int|
                1 <= m && min_ngram <= m <= max_ngram && #[trigger] continues_match(
                    history,
                    max_ngram,
                    drafts.len(),
                    drafts,
                    m,
                    s,
                ) && (drafts.len() == max_depth || drafts.len() + 1 == max_nodes || s + m
                    + drafts.len() == history.len())
        }),
{
    let budget = crate::spec_tree::chain_budget(max_nodes, max_depth);
    let draft = crate::speculative::ngram_draft(history, min_ngram, max_ngram, budget);
    let tree = crate::spec_tree::linear_model(anchor, draft);
    let drafts = tree.tokens.skip(1);
    assert(drafts =~= draft);
    a_draft_continues_the_latest_longest_match(history, min_ngram, max_ngram, budget);
    if exists|m: int, s: int|
        1 <= m && min_ngram <= m <= max_ngram && #[trigger] continues_match(
            history,
            max_ngram,
            budget,
            draft,
            m,
            s,
        ) {
        let (m, s) = choose|m: int, s: int|
            1 <= m && min_ngram <= m <= max_ngram && #[trigger] continues_match(
                history,
                max_ngram,
                budget,
                draft,
                m,
                s,
            );
        assert(continues_match(history, max_ngram, drafts.len(), drafts, m, s));
    }
}

/// The tokens that a draft is matched in are the end of the history: as many as the
/// window allows, and the same as the history has, counted from the end.
pub proof fn the_window_is_the_end_of_the_history(history: Seq<u32>, window: nat, k: int)
    ensures
        ({
            let searched = crate::suffix_decoding::recent(history, window);
            &&& searched.len() <= history.len() && searched.len() <= window
            &&& searched.len() == history.len() || searched.len() == window
            &&& 0 <= k < searched.len() ==> searched[searched.len() - 1 - k]
                == history[history.len() - 1 - k]
            &&& window > 0 && history.len() > 0 ==> searched.len() > 0 && searched.last()
                == history.last()
        }),
{
}

/// A draft does not depend on tokens older than the window: two histories that end in
/// the same `window` tokens are drafted for alike.
pub proof fn older_tokens_do_not_matter(
    d: crate::suffix_decoding::SuffixDecodingDrafter,
    history: Seq<u32>,
    other: Seq<u32>,
    anchor: u32,
    max_nodes: int,
    max_depth: int,
)
    requires
        history.len() >= d.window,
        other.len() >= d.window,
        forall|k: int|
            1 <= k <= d.window ==> #[trigger] history[history.len() - k] == other[other.len() - k],
    ensures
        d.drafted(history, anchor, max_nodes, max_depth) == d.drafted(
            other,
            anchor,
            max_nodes,
            max_depth,
        ),
{
    let a = crate::suffix_decoding::recent(history, d.window as nat);
    let b = crate::suffix_decoding::recent(other, d.window as nat);
    assert(a.len() == d.window && b.len() == d.window);
    assert forall|i: int| 0 <= i < a.len() implies a[i] == b[i] by {
        let k = d.window - i;
        assert(history[history.len() - k] == other[other.len() - k]);
    }
    assert(a =~= b);
}

/// The starts from which the last `m` tokens of `context` recurred in `hist` and `token`
/// followed.
pub open spec fn follow_starts(hist: Seq<u32>, context: Seq<u32>, m: int, token: u32) -> Set<int> {
    Set::new(|s: int| recurs_at(hist, context, m, s) && hist[s + m] == token)
}

/// How often `token` followed the last `m` tokens of `context` in `hist`.
pub open spec fn times_followed(hist: Seq<u32>, context: Seq<u32>, m: int, token: u32) -> nat {
    follow_starts(hist, context, m, token).len()
}

proof fn lemma_follow_count_is_a_set(
    hist: Seq<u32>,
    context: Seq<u32>,
    m: int,
    token: u32,
    end: int,
)
    requires
        0 <= m <= context.len(),
        0 <= end <= hist.len() - m,
    ensures
        ({
            let below = Set::new(
                |s: int| s < end && recurs_at(hist, context, m, s) && hist[s + m] == token,
            );
            &&& below.finite()
            &&& below.len() == crate::suffix_decoding::follow_count(
                hist,
                crate::speculative::last_tokens(context, m),
                token,
                end,
            )
        }),
    decreases end,
{
    let below = Set::new(
        |s: int| s < end && recurs_at(hist, context, m, s) && hist[s + m] == token,
    );
    if end == 0 {
        assert(below =~= Set::empty());
    } else {
        lemma_follow_count_is_a_set(hist, context, m, token, end - 1);
        lemma_recurs_is_occurs(hist, context, m, end - 1);
        let before = Set::new(
            |s: int| s < end - 1 && recurs_at(hist, context, m, s) && hist[s + m] == token,
        );
        if recurs_at(hist, context, m, end - 1) && hist[end - 1 + m] == token {
            assert(below =~= before.insert(end - 1));
        } else {
            assert(below =~= before);
        }
    }
}

/// Successors are counted by the places at which they followed: a token has a count
/// exactly where it followed the pattern somewhere, and its count is the number of those
/// places.
pub proof fn counts_are_numbers_of_places(hist: Seq<u32>, context: Seq<u32>, m: int, token: u32)
    requires
        1 <= m <= context.len(),
    ensures
        ({
            let counts = crate::suffix_decoding::successor_counts(
                hist,
                crate::speculative::last_tokens(context, m),
            );
            &&& follow_starts(hist, context, m, token).finite()
            &&& counts.contains_key(token) <==> exists|s: int|
                #[trigger] recurs_at(hist, context, m, s) && hist[s + m] == token
            &&& counts.contains_key(token) <==> times_followed(hist, context, m, token) > 0
            &&& counts.contains_key(token) ==> counts[token] == times_followed(
                hist,
                context,
                m,
                token,
            )
        }),
{
    let pattern = crate::speculative::last_tokens(context, m);
    let starts = follow_starts(hist, context, m, token);
    assert(pattern.len() == m);
    if m < hist.len() {
        let end = hist.len() - m;
        lemma_follow_count_is_a_set(hist, context, m, token, end);
        assert(starts =~= Set::new(
            |s: int| s < end && recurs_at(hist, context, m, s) && hist[s + m] == token,
        ));
    } else {
        assert(starts =~= Set::empty());
    }
    if starts.len() > 0 {
        let s = starts.choose();
        assert(starts.contains(s));
        assert(recurs_at(hist, context, m, s));
    }
    if exists|s: int| #[trigger] recurs_at(hist, context, m, s) && hist[s + m] == token {
        let s = choose|s: int| #[trigger] recurs_at(hist, context, m, s) && hist[s + m] == token;
        assert(starts.contains(s));
        if starts.len() == 0 {
            assert(starts =~= Set::empty());
        }
    }
}

proof fn lemma_counts_domain(hist: Seq<u32>, context: Seq<u32>, m: int)
    requires
        1 <= m <= context.len(),
    ensures
        ({
            let counts = crate::suffix_laws::suffix_counts(hist, context, m);
            &&& counts.dom().finite()
            &&& counts.dom().is_empty() <==> forall|s: int| !#[trigger] recurs_at(
                hist,
                context,
                m,
                s,
            )
        }),
{
    let counts = crate::suffix_laws::suffix_counts(hist, context, m);
    crate::suffix_laws::lemma_successors_finite(
        hist,
        crate::speculative::last_tokens(context, m),
    );
    if counts.dom().is_empty() {
        assert forall|s: int| !#[trigger] recurs_at(hist, context, m, s) by {
            if recurs_at(hist, context, m, s) {
                counts_are_numbers_of_places(hist, context, m, hist[s + m]);
                assert(counts.dom().contains(hist[s + m]));
            }
        }
    }
    if forall|s: int| !#[trigger] recurs_at(hist, context, m, s) {
        assert forall|t: u32| !#[trigger] counts.dom().contains(t) by {
            counts_are_numbers_of_places(hist, context, m, t);
        }
        assert(counts.dom() =~= Set::empty());
    }
}

/// The part of a history that lies in the window.
pub open spec fn tail_of(history: Seq<u32>, window: int) -> Seq<u32> {
    history.subrange(
        if history.len() > window {
            history.len() - window
        } else {
            0
        },
        history.len() as int,
    )
}

/// `a` is preferred to `b`: it followed the last `m` tokens more often, or as often and
/// is the lower token.
pub open spec fn preferred(hist: Seq<u32>, context: Seq<u32>, m: int, a: u32, b: u32) -> bool {
    ||| times_followed(hist, context, m, a) > times_followed(hist, context, m, b)
    ||| times_followed(hist, context, m, a) == times_followed(hist, context, m, b) && a < b
}

/// What hangs below a node of a draft: the tokens that most often followed the longest
/// suffix of history and path that recurred within the window. They stand best first,
/// none twice, at most `branch` of them, and one that also followed is left out only
/// behind all of them, where `branch` is reached or the tree is full and nothing hangs
/// below any later node. At the depth limit, and where nothing recurred, nothing hangs.
pub proof fn children_are_the_most_frequent_continuations(
    d: crate::suffix_decoding::SuffixDecodingDrafter,
    history: Seq<u32>,
    anchor: u32,
    max_nodes: usize,
    max_depth: usize,
    node: int,
    m: int,
)
    requires
        crate::spec_tree::draft_fits(max_nodes, max_depth),
        ({
            let hist = tail_of(history, d.window as int);
            let tree = d.drafted(history, anchor, max_nodes as int, max_depth as int).tree;
            let context = hist + tree.path_tokens(node);
            &&& 0 <= node < tree.tokens.len()
            &&& tree.depth[node] < max_depth
            &&& hist.len() > d.min_match
            &&& 1 <= m && d.min_match <= m <= d.max_match && m < context.len()
            &&& exists|s: int| #[trigger] recurs_at(hist, context, m, s)
            &&& forall|j: int, s: int|
                m < j <= d.max_match && j < context.len() ==> !#[trigger] recurs_at(
                    hist,
                    context,
                    j,
                    s,
                )
        }),
    ensures
        ({
            let hist = tail_of(history, d.window as int);
            let tree = d.drafted(history, anchor, max_nodes as int, max_depth as int).tree;
            let context = hist + tree.path_tokens(node);
            let below = crate::suffix_laws::children(tree, node);
            &&& below.no_duplicates()
            &&& below.len() <= d.branch
            &&& forall|i: int|
                0 <= i < below.len() ==> times_followed(hist, context, m, #[trigger] below[i]) > 0
            &&& forall|i: int, j: int|
                0 <= i < j < below.len() ==> preferred(
                    hist,
                    context,
                    m,
                    #[trigger] below[i],
                    #[trigger] below[j],
                )
            &&& forall|t: u32, i: int|
                #![trigger times_followed(hist, context, m, t), below[i]]
                times_followed(hist, context, m, t) > 0 && !below.contains(t) && 0 <= i
                    < below.len() ==> preferred(hist, context, m, below[i], t)
            &&& forall|t: u32|
                #[trigger] times_followed(hist, context, m, t) > 0 && !below.contains(t) ==> {
                    ||| below.len() == d.branch
                    ||| tree.tokens.len() >= max_nodes && forall|q: int|
                        node < q < tree.tokens.len() ==> #[trigger] crate::suffix_laws::children(
                            tree,
                            q,
                        ).len() == 0
                }
        }),
{
    let hist = tail_of(history, d.window as int);
    assert(hist =~= crate::suffix_decoding::recent(history, d.window as nat));
    let tree = d.drafted(history, anchor, max_nodes as int, max_depth as int).tree;
    let path = tree.path_tokens(node);
    let context = hist + path;
    let below = crate::suffix_laws::children(tree, node);
    let counts = crate::suffix_laws::suffix_counts(hist, context, m);
    let longest = hist.len() - 1 + path.len();
    let bound: nat = (if d.max_match <= longest {
        d.max_match as int
    } else {
        longest
    }) as nat;
    crate::suffix_laws::children_are_preferred_successors(
        d,
        history,
        anchor,
        max_nodes,
        max_depth,
        node,
    );
    lemma_counts_domain(hist, context, m);
    assert forall|j: int| m < j <= bound implies (#[trigger] crate::suffix_laws::suffix_counts(
        hist,
        context,
        j,
    )).dom().is_empty() by {
        lemma_counts_domain(hist, context, j);
    }
    crate::suffix_laws::longest_match_wins(
        hist,
        context,
        d.min_match as nat,
        bound,
        d.branch as nat,
        m as nat,
    );
    let top = crate::suffix_decoding::top_tokens(counts, d.branch as nat);
    assert(crate::suffix_laws::wanted(d, hist, tree, node, max_depth as int) == top);
    crate::suffix_laws::top_tokens_are_most_frequent(counts, d.branch as nat);
    assert(below.is_prefix_of(top));
    assert forall|t: u32| true implies counts.contains_key(t) == (#[trigger] times_followed(
        hist,
        context,
        m,
        t,
    ) > 0) && (counts.contains_key(t) ==> counts[t] == times_followed(hist, context, m, t)) by {
        counts_are_numbers_of_places(hist, context, m, t);
    }
    assert forall|i: int| 0 <= i < below.len() implies #[trigger] below[i] == top[i]
        && counts.contains_key(top[i]) by {}
    assert forall|i: int, j: int| 0 <= i < j < below.len() implies preferred(
        hist,
        context,
        m,
        #[trigger] below[i],
        #[trigger] below[j],
    ) by {
        assert(below[i] == top[i] && below[j] == top[j]);
        assert(counts[top[i]] == times_followed(hist, context, m, below[i]));
        assert(counts[top[j]] == times_followed(hist, context, m, below[j]));
    }
    assert forall|t: u32, i: int|
        #![trigger times_followed(hist, context, m, t), below[i]]
        times_followed(hist, context, m, t) > 0 && !below.contains(t) && 0 <= i < below.len() implies
        preferred(hist, context, m, below[i], t) by {
        assert(below[i] == top[i]);
        assert(counts.contains_key(t));
        assert(counts[top[i]] == times_followed(hist, context, m, below[i]));
        if top.contains(t) {
            let q = choose|q: int| 0 <= q < top.len() && top[q] == t;
            if q < below.len() {
                assert(below[q] == t);
            }
            assert(counts[top[i]] > counts[top[q]] || (counts[top[i]] == counts[top[q]] && top[i]
                < top[q]));
        }
    }
    assert forall|t: u32|
        #[trigger] times_followed(hist, context, m, t) > 0 && !below.contains(t) implies {
        ||| below.len() == d.branch
        ||| tree.tokens.len() >= max_nodes && forall|q: int|
            node < q < tree.tokens.len() ==> #[trigger] crate::suffix_laws::children(
                tree,
                q,
            ).len() == 0
    } by {
        if below == top {
            assert(counts.contains_key(t));
            if top.len() < d.branch {
                let seen = top.to_set();
                top.unique_seq_to_set();
                assert(seen.subset_of(counts.dom()));
                vstd::set_lib::lemma_subset_equality(seen, counts.dom());
                assert(seen.contains(t));
                assert(top.contains(t));
            }
        }
    }
}

/// Where no admitted suffix of history and path recurred within the window, and at the
/// depth limit, nothing hangs below a node.
pub proof fn nothing_recurs_nothing_hangs(
    d: crate::suffix_decoding::SuffixDecodingDrafter,
    history: Seq<u32>,
    anchor: u32,
    max_nodes: usize,
    max_depth: usize,
    node: int,
)
    requires
        crate::spec_tree::draft_fits(max_nodes, max_depth),
        ({
            let hist = tail_of(history, d.window as int);
            let tree = d.drafted(history, anchor, max_nodes as int, max_depth as int).tree;
            let context = hist + tree.path_tokens(node);
            &&& 0 <= node < tree.tokens.len()
            &&& tree.depth[node] >= max_depth || hist.len() <= d.min_match || forall|m: int, s: int|
                1 <= m && d.min_match <= m <= d.max_match && m < context.len()
                    ==> !#[trigger] recurs_at(hist, context, m, s)
        }),
    ensures
        crate::suffix_laws::children(
            d.drafted(history, anchor, max_nodes as int, max_depth as int).tree,
            node,
        ).len() == 0,
{
    let hist = tail_of(history, d.window as int);
    assert(hist =~= crate::suffix_decoding::recent(history, d.window as nat));
    let tree = d.drafted(history, anchor, max_nodes as int, max_depth as int).tree;
    let path = tree.path_tokens(node);
    let context = hist + path;
    crate::suffix_laws::children_are_preferred_successors(
        d,
        history,
        anchor,
        max_nodes,
        max_depth,
        node,
    );
    if tree.depth[node] < max_depth && hist.len() > d.min_match {
        let longest = hist.len() - 1 + path.len();
        let bound: nat = (if d.max_match <= longest {
            d.max_match as int
        } else {
            longest
        }) as nat;
        assert forall|j: int| 1 <= j && d.min_match <= j <= bound implies (
        #[trigger] crate::suffix_laws::suffix_counts(hist, context, j)).dom().is_empty() by {
            lemma_counts_domain(hist, context, j);
        }
        crate::suffix_laws::no_match_no_proposal(
            hist,
            context,
            d.min_match as nat,
            bound,
            d.branch as nat,
        );
    }
}

/// A draft is a tree below its anchor: every further node has an earlier parent and is one
/// level deeper than it. It holds no more nodes and no deeper ones than allowed, the anchor
/// aside.
pub proof fn drafts_are_trees_within_their_budget(
    d: crate::suffix_decoding::SuffixDecodingDrafter,
    history: Seq<u32>,
    anchor: u32,
    max_nodes: usize,
    max_depth: usize,
    i: int,
)
    requires
        max_nodes <= 0x1_0000,
    ensures
        ({
            let tree = d.drafted(history, anchor, max_nodes as int, max_depth as int).tree;
            let n = tree.tokens.len();
            &&& n >= 1
            &&& n <= max_nodes || n == 1
            &&& tree.parent.len() == n && tree.depth.len() == n
            &&& tree.tokens[0] == anchor
            &&& tree.parent[0] == -1 && tree.depth[0] == 0
            &&& 0 < i < n ==> {
                &&& 0 <= tree.parent[i] < i
                &&& tree.depth[i] == tree.depth[tree.parent[i] as int] + 1
                &&& tree.depth[i] <= max_depth
            }
        }),
{
    crate::suffix_laws::drafts_are_observed(d, history, anchor, max_nodes, max_depth);
    let tree = d.drafted(history, anchor, max_nodes as int, max_depth as int).tree;
    if 0 < i < tree.tokens.len() {
        assert(tree.depth[i] <= max_depth);
    }
}

/// The last `n` tokens of a text are `n` tokens, each as far from the end as in the text.
pub proof fn last_tokens_are_the_end(s: Seq<u32>, n: int, k: int)
    requires
        0 <= k < n <= s.len(),
    ensures
        crate::speculative::last_tokens(s, n).len() == n,
        crate::speculative::last_tokens(s, n)[n - 1 - k] == s[s.len() - 1 - k],
{
}

/// Counts are taken over as they are, and of them the tokens that occurred at least once
/// are kept, all of them and with their counts. Nothing follows an empty pattern.
pub proof fn occurring_tokens_keep_their_counts(
    freq: Map<u32, usize>,
    hist: Seq<u32>,
    token: u32,
)
    ensures
        ({
            let counts = crate::suffix_decoding::counts_of(freq);
            let kept = crate::suffix_decoding::occurring(counts);
            &&& counts.contains_key(token) <==> freq.contains_key(token)
            &&& freq.contains_key(token) ==> counts[token] == freq[token]
            &&& kept.contains_key(token) <==> freq.contains_key(token) && freq[token] > 0
            &&& kept.contains_key(token) ==> kept[token] == freq[token]
        }),
        !crate::suffix_decoding::successor_counts(hist, Seq::empty()).contains_key(token),
{
}

} // verus!

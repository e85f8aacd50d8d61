//! Linear n-gram drafting over the observed token stream.

use vstd::prelude::*;

verus! {

/// `pattern` occurs in `hist` from index `s` on.
pub open spec fn occurs_at(hist: Seq<u32>, pattern: Seq<u32>, s: int) -> bool {
    &&& 0 <= s
    &&& s + pattern.len() <= hist.len()
    &&& hist.subrange(s, s + pattern.len()) == pattern
}

/// The last `n` tokens of `s`.
pub open spec fn last_tokens(s: Seq<u32>, n: int) -> Seq<u32> {
    s.subrange(s.len() - n, s.len() as int)
}

/// Whether `pattern` occurs in `hist` at `start`.
pub fn matches_at(hist: &[u32], start: usize, pattern: &[u32]) -> (found: bool)
    requires
        start + pattern@.len() <= hist@.len(),
    ensures
        found == occurs_at(hist@, pattern@, start as int),
{
    let len: usize = hist.len();
    let ghost here = hist@.subrange(start as int, start + pattern@.len());
    let mut k: usize = 0;
    while k < pattern.len()
        invariant
            k <= pattern@.len(),
            len == hist@.len(),
            start + pattern@.len() <= len,
            here == hist@.subrange(start as int, start + pattern@.len()),
            forall|m: int| 0 <= m < k ==> #[trigger] here[m] == pattern@[m],
        decreases pattern@.len() - k,
    {
        if hist[start + k] != pattern[k] {
            assert(here[k as int] != pattern@[k as int]);
            return false;
        }
        k = k + 1;
    }
    assert(here =~= pattern@);
    true
}

/// The greatest start before `end` at which `pattern` occurs.
pub open spec fn latest_occurrence(hist: Seq<u32>, pattern: Seq<u32>, end: int) -> Option<int>
    decreases end,
{
    if end <= 0 {
        None
    } else if occurs_at(hist, pattern, end - 1) {
        Some(end - 1)
    } else {
        latest_occurrence(hist, pattern, end - 1)
    }
}

/// The continuation of at most `max_drafts` tokens that followed index `from`.
pub open spec fn continuation(history: Seq<u32>, from: int, max_drafts: nat) -> Seq<u32> {
    if history.len() - from <= max_drafts {
        history.skip(from)
    } else {
        history.subrange(from, from + max_drafts)
    }
}

/// What followed the most recent earlier occurrence of the longest suffix of at
/// most `n` and at least `min_ngram` tokens that occurred before; nothing where
/// no such suffix did.
pub open spec fn ngram_draft(
    history: Seq<u32>,
    min_ngram: nat,
    n: nat,
    max_drafts: nat,
) -> Seq<u32>
    decreases n,
{
    if n == 0 || n < min_ngram {
        Seq::empty()
    } else if n < history.len() && latest_occurrence(
        history,
        last_tokens(history, n as int),
        history.len() - n,
    ) is Some {
        let s = latest_occurrence(
            history,
            last_tokens(history, n as int),
            history.len() - n,
        )->0;
        continuation(history, s + n, max_drafts)
    } else {
        ngram_draft(history, min_ngram, (n - 1) as nat, max_drafts)
    }
}

/// A drafter that proposes one chain: the tokens that followed the most recent
/// earlier occurrence of the current suffix.
#[derive(Debug, Clone)]
pub struct NGramDrafter {
    /// Longest suffix to look for.
    pub max_ngram: usize,
    /// Shortest suffix worth a draft.
    pub min_ngram: usize,
}

impl Default for NGramDrafter {
    fn default() -> (drafter: Self)
        ensures
            drafter.max_ngram == 4,
            drafter.min_ngram == 2,
    {
        NGramDrafter { max_ngram: 4, min_ngram: 2 }
    }
}

impl NGramDrafter {
    /// Propose at most `max_drafts` tokens to follow `history`.
    pub fn draft(&self, history: &[u32], max_drafts: usize) -> (drafts: Vec<u32>)
        ensures
            drafts@ == ngram_draft(
                history@,
                self.min_ngram as nat,
                self.max_ngram as nat,
                max_drafts as nat,
            ),
            drafts@.len() <= max_drafts,
    {
        let len: usize = history.len();
        let mut n: usize = self.max_ngram;
        let ghost wanted = ngram_draft(
            history@,
            self.min_ngram as nat,
            self.max_ngram as nat,
            max_drafts as nat,
        );
        while n > 0 && n >= self.min_ngram
            invariant
                len == history@.len(),
                wanted == ngram_draft(
                    history@,
                    self.min_ngram as nat,
                    self.max_ngram as nat,
                    max_drafts as nat,
                ),
                wanted == ngram_draft(
                    history@,
                    self.min_ngram as nat,
                    n as nat,
                    max_drafts as nat,
                ),
            decreases n,
        {
            if n < len {
                let suffix: &[u32] = vstd::slice::slice_subrange(history, len - n, len);
                let mut end: usize = len - n;
                while end > 0
                    invariant
                        len == history@.len(),
                        0 < n < len,
                        n >= self.min_ngram,
                        end <= len - n,
                        suffix@ == last_tokens(history@, n as int),
                        wanted == ngram_draft(
                            history@,
                            self.min_ngram as nat,
                            self.max_ngram as nat,
                            max_drafts as nat,
                        ),
                        wanted == ngram_draft(
                            history@,
                            self.min_ngram as nat,
                            n as nat,
                            max_drafts as nat,
                        ),
                        latest_occurrence(history@, suffix@, len - n) == latest_occurrence(
                            history@,
                            suffix@,
                            end as int,
                        ),
                    decreases end,
                {
                    end = end - 1;
                    if matches_at(history, end, suffix) {
                        return copy_continuation(history, end + n, max_drafts);
                    }
                }
            }
            n = n - 1;
        }
        Vec::new()
    }
}

/// The at most `max_drafts` tokens of `history` from `from` on.
fn copy_continuation(history: &[u32], from: usize, max_drafts: usize) -> (tokens: Vec<u32>)
    requires
        from <= history@.len(),
    ensures
        tokens@ == continuation(history@, from as int, max_drafts as nat),
        tokens@.len() <= max_drafts,
{
    let mut tokens: Vec<u32> = Vec::new();
    let len: usize = history.len();
    while tokens.len() < max_drafts && from + tokens.len() < len
        invariant
            len == history@.len(),
            from <= len,
            tokens@.len() <= max_drafts,
            from + tokens@.len() <= len,
            tokens@ =~= history@.subrange(from as int, from + tokens@.len()),
        decreases len - from - tokens@.len(),
    {
        let k: usize = from + tokens.len();
        tokens.push(history[k]);
    }
    tokens
}

} // verus!

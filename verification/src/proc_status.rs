//! The resident set size in the text of a `/proc/<pid>/status` file.

use vstd::prelude::*;

use crate::text::{char_is_white_space, chars_eq, chars_of, find_char, parse_unsigned};

verus! {

/// The text from the first line that starts with `VmRSS:` on, after that label.
pub open spec fn after_rss_label(s: Seq<char>) -> Option<Seq<char>>
    decreases s.len(),
{
    if s.len() >= 6 && s.take(6) == "VmRSS:"@ {
        Some(s.skip(6))
    } else {
        let n = crate::text::index_of_char(s, '\n') as int;
        if 0 <= n < s.len() {
            after_rss_label(s.skip(n + 1))
        } else {
            None
        }
    }
}

/// The characters before the first white space.
pub open spec fn first_word(s: Seq<char>) -> Seq<char>
    decreases s.len(),
{
    if s.len() == 0 || crate::text::is_white_space(s[0]) {
        Seq::empty()
    } else {
        seq![s[0]] + first_word(s.drop_first())
    }
}

/// The number that follows the label on its line, past white space.
pub open spec fn rss_kib(s: Seq<char>) -> Option<nat> {
    match after_rss_label(s) {
        Some(rest) => {
            let line = rest.take(crate::text::index_of_char(rest, '\n') as int);
            crate::text::unsigned_number(
                first_word(crate::text::trim_start(line)),
                u64::MAX as nat,
            )
        },
        None => None,
    }
}

/// The resident set size in KiB, where the text tells it.
pub fn parse_proc_status_rss_kib(status: &str) -> (kib: Option<u64>)
    ensures
        match kib {
            Some(n) => rss_kib(status@) == Some(n as nat),
            None => rss_kib(status@) is None,
        },
{
    let chars: Vec<char> = chars_of(status);
    let label: Vec<char> = chars_of("VmRSS:");
    proof {
        reveal_strlit("VmRSS:");
    }
    let len: usize = chars.len();
    let mut start: usize = 0;
    assert(chars@.skip(0) =~= chars@);
    loop
        invariant
            chars@ == status@,
            label@ == "VmRSS:"@,
            len == chars@.len(),
            start <= len,
            after_rss_label(status@) == after_rss_label(chars@.skip(start as int)),
        decreases len - start,
    {
        let rest: &[char] = vstd::slice::slice_subrange(chars.as_slice(), start, len);
        assert(rest@ =~= chars@.skip(start as int));
        if len - start >= 6 {
            let head: &[char] = vstd::slice::slice_subrange(rest, 0, 6);
            assert(head@ =~= rest@.take(6));
            if chars_eq(head, label.as_slice()) {
                let value: &[char] = vstd::slice::slice_subrange(rest, 6, rest.len());
                assert(value@ =~= rest@.skip(6));
                return rss_value(value);
            }
        }
        let end: usize = find_char(rest, '\n');
        if end == rest.len() {
            return None;
        }
        assert(rest@.skip(end + 1) =~= chars@.skip(start + end + 1));
        start = start + end + 1;
    }
}

/// The number at the start of a line, past white space.
fn rss_value(rest: &[char]) -> (kib: Option<u64>)
    ensures
        ({
            let line = rest@.take(crate::text::index_of_char(rest@, '\n') as int);
            let word = first_word(crate::text::trim_start(line));
            match kib {
                Some(n) => crate::text::unsigned_number(word, u64::MAX as nat) == Some(n as nat),
                None => crate::text::unsigned_number(word, u64::MAX as nat) is None,
            }
        }),
{
    let end: usize = find_char(rest, '\n');
    let line: &[char] = vstd::slice::slice_subrange(rest, 0, end);
    assert(line@ =~= rest@.take(end as int));
    let mut lo: usize = 0;
    assert(line@.skip(0) =~= line@);
    while lo < line.len() && char_is_white_space(line[lo])
        invariant
            lo <= line@.len(),
            crate::text::trim_start(line@) == crate::text::trim_start(line@.skip(lo as int)),
        decreases line@.len() - lo,
    {
        assert(line@.skip(lo as int).drop_first() =~= line@.skip(lo + 1));
        lo = lo + 1;
    }
    let ghost word = first_word(line@.skip(lo as int));
    let mut hi: usize = lo;
    assert(line@.subrange(lo as int, lo as int) =~= Seq::empty());
    while hi < line.len() && !char_is_white_space(line[hi])
        invariant
            lo <= hi <= line@.len(),
            word =~= line@.subrange(lo as int, hi as int) + first_word(line@.skip(hi as int)),
        decreases line@.len() - hi,
    {
        proof {
            let tail = line@.skip(hi as int);
            assert(tail.drop_first() =~= line@.skip(hi + 1));
            assert(line@.subrange(lo as int, hi + 1) =~= line@.subrange(lo as int, hi as int)
                + seq![line@[hi as int]]);
        }
        hi = hi + 1;
    }
    let digits: &[char] = vstd::slice::slice_subrange(line, lo, hi);
    assert(digits@ =~= word);
    parse_unsigned(digits, u64::MAX)
}

} // verus!

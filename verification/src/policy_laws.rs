//! Laws of the small policies: thread counts, layer selectors, the resident set size in a
//! status text, and the heads and positions that a trace samples.

use vstd::prelude::*;

use crate::attention_trace::GqaHeadMapping;

verus! {

/// `s` is the decimal text of `n`, with white space around it or not.
pub open spec fn writes_number(s: Seq<char>, n: nat) -> bool {
    exists|before: Seq<char>, after: Seq<char>|
        crate::text_laws::white(before) && crate::text_laws::white(after) && s == #[trigger] (
        before + crate::text::decimal(n) + after)
}

/// A number that is written out is read, whatever white space stands around it.
proof fn lemma_written_number(s: Seq<char>, n: nat, max: nat)
    requires
        writes_number(s, n),
        n <= max,
    ensures
        crate::text::trimmed(s) == crate::text::decimal(n),
        crate::text::unsigned_number(crate::text::trimmed(s), max) == Some(n),
{
    let (before, after) = choose|before: Seq<char>, after: Seq<char>|
        crate::text_laws::white(before) && crate::text_laws::white(after) && s == #[trigger] (
        before + crate::text::decimal(n) + after);
    crate::text_laws::decimal_texts_are_read_back(n, max);
    crate::text_laws::trimming_leaves_the_core(before, crate::text::decimal(n), after);
}

/// A number above zero that is written as the override is the width of either pool,
/// whatever else holds. Zero turns either pool off, and so does `off` for the decode pool.
pub proof fn thread_overrides_decide(
    text: &str,
    n: nat,
    flag: bool,
    other_flag: bool,
    count: usize,
    policy: Option<usize>,
)
    requires
        n <= usize::MAX,
        writes_number(text@, n),
    ensures
        n > 0 ==> crate::thread_policy::prefill_threads(Some(text), flag, count, other_flag)
            == Some(n),
        n > 0 ==> crate::thread_policy::decode_threads(Some(text), flag, count, policy) == Some(n),
        n == 0 ==> crate::thread_policy::prefill_threads(
            Some(text),
            flag,
            count,
            other_flag,
        ) is None,
        n == 0 ==> crate::thread_policy::decode_threads(Some(text), flag, count, policy) is None,
{
    lemma_written_number(text@, n, usize::MAX as nat);
    crate::text_laws::decimal_texts_denote_their_number(n);
    reveal_strlit("off");
    let s = crate::text::decimal(n);
    assert('0' <= s[0] && s[0] <= '9');
    assert("off"@[0] == 'o');
}

/// `off` as the override, white space around it or not, turns the decode pool off.
pub proof fn off_turns_the_decode_pool_off(
    text: &str,
    before: Seq<char>,
    after: Seq<char>,
    dedicated: bool,
    global_threads: usize,
    policy: Option<usize>,
)
    requires
        crate::text_laws::white(before),
        crate::text_laws::white(after),
        text@ == before + "off"@ + after,
    ensures
        crate::thread_policy::decode_threads(Some(text), dedicated, global_threads, policy) is None,
{
    reveal_strlit("off");
    crate::text_laws::trimming_leaves_the_core(before, "off"@, after);
}

/// Without an override, the prefill pool is as wide as the logical cores exactly where that
/// was measured to pay and the count is not pinned; else it is the global pool. The decode
/// pool is as wide as the global one where a dedicated pool is asked for; else as the policy
/// says, unless the policy is wider than the global pool or there is none. An override for
/// decoding that is neither a number nor `off` is as none; one for prefill turns the pool
/// off.
pub proof fn thread_counts_without_a_number(
    text: &str,
    pinned: bool,
    measured: bool,
    logical_cores: usize,
    dedicated: bool,
    global_threads: usize,
    policy: Option<usize>,
)
    requires
        crate::text::unsigned_number(crate::text::trimmed(text@), usize::MAX as nat) is None,
        crate::text::trimmed(text@) != "off"@,
    ensures
        measured && !pinned ==> crate::thread_policy::prefill_threads(
            None,
            pinned,
            logical_cores,
            measured,
        ) == Some(logical_cores as nat),
        !measured || pinned ==> crate::thread_policy::prefill_threads(
            None,
            pinned,
            logical_cores,
            measured,
        ) is None,
        crate::thread_policy::prefill_threads(Some(text), pinned, logical_cores, measured) is None,
        dedicated ==> crate::thread_policy::decode_threads(None, dedicated, global_threads, policy)
            == Some(global_threads as nat),
        !dedicated && policy is Some && policy->0 <= global_threads
            ==> crate::thread_policy::decode_threads(None, dedicated, global_threads, policy)
            == Some(policy->0 as nat),
        !dedicated && (policy is None || policy->0 > global_threads)
            ==> crate::thread_policy::decode_threads(
            None,
            dedicated,
            global_threads,
            policy,
        ) is None,
        crate::thread_policy::decode_threads(Some(text), dedicated, global_threads, policy)
            == crate::thread_policy::decode_threads(None, dedicated, global_threads, policy),
{
}

/// The parts of a list with a comma between each two.
pub open spec fn with_commas(parts: Seq<Seq<char>>) -> Seq<char>
    decreases parts.len(),
{
    if parts.len() == 0 {
        Seq::empty()
    } else if parts.len() == 1 {
        parts[0]
    } else {
        parts[0] + seq![','] + with_commas(parts.drop_first())
    }
}

/// The parts of a text are cut at its commas and nowhere else: put together again with
/// commas they are the text, and none of them holds a comma.
pub proof fn lists_are_cut_at_their_commas(s: Seq<char>)
    ensures
        ({
            let parts = crate::layer_selector::comma_parts(s);
            &&& parts.len() >= 1
            &&& with_commas(parts) == s
            &&& forall|i: int, k: int|
                0 <= i < parts.len() && 0 <= k < parts[i].len() ==> #[trigger] parts[i][k] != ','
        }),
    decreases s.len(),
{
    let parts = crate::layer_selector::comma_parts(s);
    let n = crate::text::index_of_char(s, ',') as int;
    crate::text_laws::the_first_place_is_found(s, ',');
    if n < s.len() {
        let rest = s.skip(n + 1);
        let tail = crate::layer_selector::comma_parts(rest);
        lists_are_cut_at_their_commas(rest);
        assert(parts =~= seq![s.take(n)] + tail);
        assert(parts.drop_first() =~= tail);
        assert(with_commas(parts) =~= s.take(n) + seq![','] + rest);
        assert(s =~= s.take(n) + seq![','] + rest);
        assert forall|i: int, k: int| 0 <= i < parts.len() && 0 <= k < parts[i].len() implies
            #[trigger] parts[i][k] != ',' by {
            if i == 0 {
                assert(parts[0][k] == s[k]);
            } else {
                assert(parts[i] == tail[i - 1]);
            }
        }
    } else {
        assert(parts =~= seq![s]);
    }
}

/// A list is read where every part of it names a layer, and then selects exactly the layers
/// that its parts name. One part that names none spoils it.
pub proof fn lists_select_the_layers_they_name(parts: Seq<Seq<char>>, layer: nat)
    ensures
        crate::layer_selector::list_selects(parts, layer) is Some <==> forall|i: int|
            0 <= i < parts.len() ==> crate::layer_selector::listed_layer(#[trigger] parts[i]) is Some,
        crate::layer_selector::list_selects(parts, layer) matches Some(selected) ==> (selected
            <==> exists|i: int|
            0 <= i < parts.len() && crate::layer_selector::listed_layer(#[trigger] parts[i])
                == Some(layer)),
    decreases parts.len(),
{
    if parts.len() > 0 {
        let tail = parts.drop_first();
        lists_select_the_layers_they_name(tail, layer);
        let whole = crate::layer_selector::list_selects(parts, layer);
        let rest = crate::layer_selector::list_selects(tail, layer);
        if whole is Some {
            assert forall|i: int| 0 <= i < parts.len() implies crate::layer_selector::listed_layer(
                #[trigger] parts[i],
            ) is Some by {
                if i > 0 {
                    assert(parts[i] == tail[i - 1]);
                }
            }
            if rest == Some(true) {
                let j = choose|j: int|
                    0 <= j < tail.len() && crate::layer_selector::listed_layer(#[trigger] tail[j])
                        == Some(layer);
                assert(parts[j + 1] == tail[j]);
            }
            if exists|i: int|
                0 <= i < parts.len() && crate::layer_selector::listed_layer(#[trigger] parts[i])
                    == Some(layer) {
                let i = choose|i: int|
                    0 <= i < parts.len() && crate::layer_selector::listed_layer(
                        #[trigger] parts[i],
                    ) == Some(layer);
                if i > 0 {
                    assert(tail[i - 1] == parts[i]);
                }
            }
        }
        if forall|i: int|
            0 <= i < parts.len() ==> crate::layer_selector::listed_layer(
                #[trigger] parts[i],
            ) is Some {
            assert(crate::layer_selector::listed_layer(parts[0]) is Some);
            assert forall|i: int| 0 <= i < tail.len() implies crate::layer_selector::listed_layer(
                #[trigger] tail[i],
            ) is Some by {
                assert(tail[i] == parts[i + 1]);
            }
        }
    }
}

/// A part of a list names the layer whose number it writes, white space around it or not.
pub proof fn parts_name_the_numbers_they_write(part: Seq<char>, n: nat)
    requires
        writes_number(part, n),
        n <= usize::MAX,
    ensures
        crate::layer_selector::listed_layer(part) == Some(n),
{
    lemma_written_number(part, n, usize::MAX as nat);
}

/// White space around a selector does not matter. `all` and `true` select every layer,
/// `none` and nothing select none, and any other text selects what it selects as a list.
pub proof fn selectors_mean_what_they_say(
    before: Seq<char>,
    word: Seq<char>,
    after: Seq<char>,
    layer: nat,
)
    requires
        crate::text_laws::white(before),
        crate::text_laws::white(after),
        word.len() > 0 ==> !crate::text::is_white_space(word[0]) && !crate::text::is_white_space(
            word.last(),
        ),
    ensures
        ({
            let selected = crate::layer_selector::selects(before + word + after, layer);
            &&& word == "all"@ || word == "true"@ ==> selected == Some(true)
            &&& word == "none"@ || word.len() == 0 ==> selected == Some(false)
            &&& word != "all"@ && word != "true"@ && word != "none"@ && word.len() > 0
                ==> selected == crate::layer_selector::list_selects(
                crate::layer_selector::comma_parts(word),
                layer,
            )
        }),
{
    crate::text_laws::trimming_leaves_the_core(before, word, after);
    reveal_strlit("all");
    reveal_strlit("true");
    reveal_strlit("none");
    reveal_strlit("");
    if word.len() == 0 {
        assert(word =~= ""@);
    }
    if word == "none"@ {
        assert("all"@.len() == 3);
        assert("true"@[0] == 't' && "none"@[0] == 'n');
    }
}

/// The label of the resident set size stands at `i`.
pub open spec fn labelled_at(s: Seq<char>, i: int) -> bool {
    i + 6 <= s.len() && s.subrange(i, i + 6) == "VmRSS:"@
}

/// No line of `s` starts with the label of the resident set size.
pub open spec fn no_line_is_labelled(s: Seq<char>) -> bool {
    forall|i: int|
        0 <= i && (i == 0 || (i <= s.len() && s[i - 1] == '\n')) ==> !#[trigger] labelled_at(s, i)
}

proof fn lemma_skip_lines(lines: Seq<char>, rest: Seq<char>)
    requires
        lines.len() > 0 ==> lines.last() == '\n',
        no_line_is_labelled(lines),
        rest.len() >= 6,
        rest.take(6) == "VmRSS:"@,
    ensures
        crate::proc_status::after_rss_label(lines + rest) == Some(rest.skip(6)),
    decreases lines.len(),
{
    reveal_strlit("VmRSS:");
    let s = lines + rest;
    if lines.len() == 0 {
        assert(s =~= rest);
    } else {
        let n = crate::text::index_of_char(s, '\n') as int;
        crate::text_laws::the_first_place_is_found(s, '\n');
        assert(s[lines.len() - 1] == '\n');
        assert(n < lines.len());
        assert(s[n] == lines[n]);
        if s.take(6) == "VmRSS:"@ {
            // The label holds no line end, so it would lie within the first line.
            assert(s.take(6)[0] == 'V' && s.take(6)[1] == 'm' && s.take(6)[2] == 'R' && s.take(6)[3]
                == 'S' && s.take(6)[4] == 'S' && s.take(6)[5] == ':');
            assert(n >= 6) by {
                if n < 6 {
                    assert(s.take(6)[n] == s[n]);
                }
            }
            assert(lines.subrange(0, 6) =~= s.take(6));
            assert(labelled_at(lines, 0));
            assert(false);
        }
        let fewer = lines.skip(n + 1);
        assert(s.skip(n + 1) =~= fewer + rest);
        assert forall|i: int|
            0 <= i && (i == 0 || (i <= fewer.len() && fewer[i - 1] == '\n')) implies
            !#[trigger] labelled_at(fewer, i) by {
            let j = i + n + 1;
            assert(!labelled_at(lines, j)) by {
                if i > 0 {
                    assert(lines[j - 1] == fewer[i - 1]);
                }
            }
            if i + 6 <= fewer.len() {
                assert(fewer.subrange(i, i + 6) =~= lines.subrange(j, j + 6));
            }
        }
        lemma_skip_lines(fewer, rest);
    }
}

proof fn lemma_first_word(word: Seq<char>, rest: Seq<char>)
    requires
        forall|i: int| 0 <= i < word.len() ==> !crate::text::is_white_space(#[trigger] word[i]),
        rest.len() > 0 ==> crate::text::is_white_space(rest[0]),
    ensures
        crate::proc_status::first_word(word + rest) == word,
    decreases word.len(),
{
    let s = word + rest;
    if word.len() == 0 {
        assert(s =~= rest);
        assert(crate::proc_status::first_word(s) =~= word);
    } else {
        assert(s[0] == word[0]);
        assert(s.drop_first() =~= word.drop_first() + rest);
        lemma_first_word(word.drop_first(), rest);
        assert(crate::proc_status::first_word(s) =~= word);
    }
}

/// The resident set size is the number on the first line that starts with its label: after
/// the label and blanks, whatever lines stand before it, and whatever follows the number on
/// its line or after it.
pub proof fn the_labelled_number_is_the_size(
    lines: Seq<char>,
    blanks: Seq<char>,
    n: nat,
    unit: Seq<char>,
    more: Seq<char>,
)
    requires
        n <= u64::MAX,
        lines.len() > 0 ==> lines.last() == '\n',
        no_line_is_labelled(lines),
        forall|i: int|
            0 <= i < blanks.len() ==> crate::text::is_white_space(#[trigger] blanks[i]) && blanks[i]
                != '\n',
        unit.len() > 0 ==> crate::text::is_white_space(unit[0]),
        forall|i: int| 0 <= i < unit.len() ==> #[trigger] unit[i] != '\n',
        more.len() > 0 ==> more[0] == '\n',
    ensures
        crate::proc_status::rss_kib(
            lines + ("VmRSS:"@ + blanks + crate::text::decimal(n) + unit + more),
        ) == Some(n),
{
    reveal_strlit("VmRSS:");
    let digits = crate::text::decimal(n);
    let rest = "VmRSS:"@ + blanks + digits + unit + more;
    let value = blanks + digits + unit + more;
    let line = blanks + digits + unit;
    assert(rest.take(6) =~= "VmRSS:"@);
    assert(rest.skip(6) =~= value);
    lemma_skip_lines(lines, rest);
    crate::text_laws::decimal_texts_denote_their_number(n);
    crate::text_laws::decimal_texts_are_read_back(n, u64::MAX as nat);
    assert forall|i: int| 0 <= i < line.len() implies #[trigger] line[i] != '\n' by {
        if i < blanks.len() {
            assert(line[i] == blanks[i]);
        } else if i < blanks.len() + digits.len() {
            assert(line[i] == digits[i - blanks.len()]);
        } else {
            assert(line[i] == unit[i - blanks.len() - digits.len()]);
        }
    }
    let end = crate::text::index_of_char(value, '\n') as int;
    crate::text_laws::the_first_place_is_found(value, '\n');
    assert(value =~= line + more);
    assert(end == line.len()) by {
        if end < line.len() {
            assert(value[end] == line[end]);
        }
        if more.len() > 0 {
            assert(value[line.len() as int] == '\n');
        }
    }
    assert(value.take(end) =~= line);
    assert(line =~= blanks + (digits + unit));
    let core = digits + unit;
    assert(core[0] == digits[0]);
    assert(crate::text_laws::white(blanks));
    crate::text_laws::leading_white_space_goes(blanks, core);
    assert forall|i: int| 0 <= i < digits.len() implies !crate::text::is_white_space(
        #[trigger] digits[i],
    ) by {
        assert('0' <= digits[i] && digits[i] <= '9');
    }
    lemma_first_word(digits, unit);
}

/// Where the first labelled line has a word in the place of the number, there is no size,
/// whatever later lines say.
pub proof fn a_labelled_word_is_no_size(
    lines: Seq<char>,
    blanks: Seq<char>,
    word: Seq<char>,
    more: Seq<char>,
)
    requires
        lines.len() > 0 ==> lines.last() == '\n',
        no_line_is_labelled(lines),
        forall|i: int|
            0 <= i < blanks.len() ==> crate::text::is_white_space(#[trigger] blanks[i]) && blanks[i]
                != '\n',
        forall|i: int| 0 <= i < word.len() ==> !crate::text::is_white_space(#[trigger] word[i]),
        !crate::text_laws::digits(word),
        word.len() > 0 ==> word[0] != '+',
        more.len() > 0 ==> more[0] == '\n',
    ensures
        crate::proc_status::rss_kib(lines + ("VmRSS:"@ + blanks + word + more)) is None,
{
    reveal_strlit("VmRSS:");
    let rest = "VmRSS:"@ + blanks + word + more;
    let value = blanks + word + more;
    let line = blanks + word;
    assert(rest.take(6) =~= "VmRSS:"@);
    assert(rest.skip(6) =~= value);
    lemma_skip_lines(lines, rest);
    let end = crate::text::index_of_char(value, '\n') as int;
    crate::text_laws::the_first_place_is_found(value, '\n');
    assert(value =~= line + more);
    assert forall|i: int| 0 <= i < line.len() implies #[trigger] line[i] != '\n' by {
        if i < blanks.len() {
            assert(line[i] == blanks[i]);
        } else {
            assert(line[i] == word[i - blanks.len()]);
            assert(!crate::text::is_white_space(word[i - blanks.len()]));
        }
    }
    assert(end == line.len()) by {
        if end < line.len() {
            assert(value[end] == line[end]);
        }
        if more.len() > 0 {
            assert(value[line.len() as int] == '\n');
        }
    }
    assert(value.take(end) =~= line);
    assert(crate::text_laws::white(blanks));
    crate::text_laws::leading_white_space_goes(blanks, word);
    lemma_first_word(word, Seq::empty());
    assert(word + Seq::<char>::empty() =~= word);
    crate::text_laws::numbers_are_read_as_they_stand(word, u64::MAX as nat);
}

/// A text of whose lines none starts with the label tells no size.
pub proof fn without_the_label_there_is_no_size(s: Seq<char>)
    requires
        no_line_is_labelled(s),
    ensures
        crate::proc_status::rss_kib(s) is None,
    decreases s.len(),
{
    lemma_no_label(s);
}

proof fn lemma_no_label(s: Seq<char>)
    requires
        no_line_is_labelled(s),
    ensures
        crate::proc_status::after_rss_label(s) is None,
    decreases s.len(),
{
    assert(!labelled_at(s, 0));
    if s.len() >= 6 {
        assert(s.take(6) =~= s.subrange(0, 6));
    }
    let n = crate::text::index_of_char(s, '\n') as int;
    crate::text_laws::the_first_place_is_found(s, '\n');
    if n < s.len() {
        let rest = s.skip(n + 1);
        assert forall|i: int|
            0 <= i && (i == 0 || (i <= rest.len() && rest[i - 1] == '\n')) implies
            !#[trigger] labelled_at(rest, i) by {
            let j = i + n + 1;
            assert(!labelled_at(s, j)) by {
                if i > 0 {
                    assert(s[j - 1] == rest[i - 1]);
                }
            }
            if i + 6 <= rest.len() {
                assert(rest.subrange(i, i + 6) =~= s.subrange(j, j + 6));
            }
        }
        lemma_no_label(rest);
    }
}

/// `list` holds, in rising order and each once, exactly the numbers below `n` that are
/// wanted.
pub open spec fn lists_the_wanted(list: Seq<usize>, n: int, want: spec_fn(int) -> bool) -> bool {
    &&& forall|i: int, j: int| 0 <= i < j < list.len() ==> #[trigger] list[i] < #[trigger] list[j]
    &&& forall|i: int| 0 <= i < list.len() ==> #[trigger] list[i] < n && want(list[i] as int)
    &&& forall|x: int|
        0 <= x < n && #[trigger] want(x) ==> exists|i: int|
            0 <= i < list.len() && #[trigger] list[i] == x
}

proof fn lemma_kept(n: int, keep: spec_fn(int) -> bool)
    requires
        0 <= n <= usize::MAX,
    ensures
        lists_the_wanted(crate::attention_trace::kept(n, keep), n, keep),
    decreases n,
{
    if n > 0 {
        lemma_kept(n - 1, keep);
        let before = crate::attention_trace::kept(n - 1, keep);
        let list = crate::attention_trace::kept(n, keep);
        assert forall|x: int| 0 <= x < n && #[trigger] keep(x) implies exists|i: int|
            0 <= i < list.len() && #[trigger] list[i] == x by {
            if x < n - 1 {
                let i = choose|i: int| 0 <= i < before.len() && #[trigger] before[i] == x;
                assert(list[i] == x);
            } else {
                assert(list[list.len() - 1] == x);
            }
        }
    }
}

/// The sampled positions are the first four and the last four of the positions so far, in
/// order and each once.
pub proof fn sampled_positions_are_the_edges(n: usize)
    ensures
        lists_the_wanted(
            crate::attention_trace::kept(
                n as int,
                crate::attention_trace::position_sampled(n as int),
            ),
            n as int,
            |p: int| p < 4 || p + 4 >= n,
        ),
{
    let keep = crate::attention_trace::position_sampled(n as int);
    let want = |p: int| p < 4 || p + 4 >= n;
    lemma_kept(n as int, keep);
    let list = crate::attention_trace::kept(n as int, keep);
    assert forall|x: int| 0 <= x < n && #[trigger] want(x) implies exists|i: int|
        0 <= i < list.len() && #[trigger] list[i] == x by {
        assert(keep(x));
    }
    assert forall|i: int| 0 <= i < list.len() implies #[trigger] list[i] < n && want(
        list[i] as int,
    ) by {
        assert(keep(list[i] as int));
    }
}

/// Neighbouring query heads share a key-value head in whole groups, or take turns through
/// the key-value heads one by one.
pub proof fn query_heads_have_their_kv_heads(head: int, group: int, kv_heads: int)
    requires
        0 <= head,
        0 < group,
        0 < kv_heads,
    ensures
        ({
            let kv = crate::attention_trace::kv_head_of(
                head,
                group,
                kv_heads,
                GqaHeadMapping::Grouped,
            );
            kv * group <= head < kv * group + group
        }),
        ({
            let kv = crate::attention_trace::kv_head_of(
                head,
                group,
                kv_heads,
                GqaHeadMapping::Modulo,
            );
            &&& 0 <= kv < kv_heads
            &&& head < kv_heads ==> kv == head
            &&& kv == crate::attention_trace::kv_head_of(
                head + kv_heads,
                group,
                kv_heads,
                GqaHeadMapping::Modulo,
            )
        }),
{
    vstd::arithmetic::div_mod::lemma_fundamental_div_mod(head, group);
    vstd::arithmetic::mul::lemma_mul_is_commutative(head / group, group);
    vstd::arithmetic::div_mod::lemma_mod_add_multiples_vanish(head, kv_heads);
    if head < kv_heads {
        vstd::arithmetic::div_mod::lemma_small_mod(head as nat, kv_heads as nat);
    }
}

/// The sampled heads are the last four, and of each key-value head the first query head: in
/// groups every head whose number the group divides, in turns the heads of the first turn.
/// They stand in order, each once.
pub proof fn sampled_heads_are_the_firsts_and_the_last(
    n: usize,
    group: int,
    kv_heads: int,
    mapping: GqaHeadMapping,
)
    requires
        mapping is Grouped ==> group > 0,
        mapping is Modulo ==> kv_heads > 0,
    ensures
        lists_the_wanted(
            crate::attention_trace::kept(
                n as int,
                crate::attention_trace::head_sampled(n as int, group, kv_heads, mapping),
            ),
            n as int,
            |h: int|
                h + 4 >= n || (mapping is Grouped && h % group == 0) || (mapping is Modulo && h
                    < kv_heads),
        ),
{
    let keep = crate::attention_trace::head_sampled(n as int, group, kv_heads, mapping);
    let want = |h: int|
        h + 4 >= n || (mapping is Grouped && h % group == 0) || (mapping is Modulo && h < kv_heads);
    lemma_kept(n as int, keep);
    let list = crate::attention_trace::kept(n as int, keep);
    assert forall|h: int| 0 <= h implies #[trigger] keep(h) == want(h) by {
        crate::attention_trace::lemma_first_of_kv_head(h, group, kv_heads, mapping);
    }
    assert forall|x: int| 0 <= x < n && #[trigger] want(x) implies exists|i: int|
        0 <= i < list.len() && #[trigger] list[i] == x by {
        assert(keep(x));
    }
    assert forall|i: int| 0 <= i < list.len() implies #[trigger] list[i] < n && want(
        list[i] as int,
    ) by {
        assert(keep(list[i] as int));
    }
}

/// The device path is kept from a key exactly while the last verdict on it is a failure: not
/// before a verdict, not after a pass, and no longer once the verdict is forgotten.
pub proof fn only_failures_forbid(verdicts: Map<u64, bool>, key: u64)
    ensures
        !crate::resident_parity::failed(Map::empty(), key),
        !crate::resident_parity::failed(verdicts.insert(key, true), key),
        crate::resident_parity::failed(verdicts.insert(key, false), key),
        !crate::resident_parity::failed(verdicts.remove(key), key),
{
}

} // verus!

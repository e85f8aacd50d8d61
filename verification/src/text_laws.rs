//! Laws of text: trimming, digits and numbers, told character by character.

use vstd::prelude::*;

verus! {

/// Only white space.
pub open spec fn white(s: Seq<char>) -> bool {
    forall|i: int| 0 <= i < s.len() ==> crate::text::is_white_space(#[trigger] s[i])
}

proof fn lemma_trim_start(before: Seq<char>, rest: Seq<char>)
    requires
        white(before),
        rest.len() > 0 ==> !crate::text::is_white_space(rest[0]),
    ensures
        crate::text::trim_start(before + rest) == rest,
    decreases before.len(),
{
    let s = before + rest;
    if before.len() == 0 {
        assert(s =~= rest);
    } else {
        assert(s[0] == before[0]);
        assert(s.drop_first() =~= before.drop_first() + rest);
        lemma_trim_start(before.drop_first(), rest);
    }
}

proof fn lemma_trim_end(rest: Seq<char>, after: Seq<char>)
    requires
        white(after),
        rest.len() > 0 ==> !crate::text::is_white_space(rest.last()),
    ensures
        crate::text::trim_end(rest + after) == rest,
    decreases after.len(),
{
    let s = rest + after;
    if after.len() == 0 {
        assert(s =~= rest);
    } else {
        assert(s.last() == after.last());
        assert(s.drop_last() =~= rest + after.drop_last());
        lemma_trim_end(rest, after.drop_last());
    }
}

proof fn lemma_all_white(s: Seq<char>)
    requires
        white(s),
    ensures
        crate::text::trim_start(s).len() == 0,
    decreases s.len(),
{
    if s.len() > 0 {
        lemma_all_white(s.drop_first());
    }
}

/// Trimming takes off the white space around a text, and nothing else: of a core that
/// neither starts nor ends with white space, put between white space, the core is left.
pub proof fn trimming_leaves_the_core(before: Seq<char>, core: Seq<char>, after: Seq<char>)
    requires
        white(before),
        white(after),
        core.len() > 0 ==> !crate::text::is_white_space(core[0]) && !crate::text::is_white_space(
            core.last(),
        ),
    ensures
        crate::text::trimmed(before + core + after) == core,
        crate::text::trim_start(before + core) == core,
        crate::text::trim_end(core + after) == core,
{
    lemma_trim_start(before, core);
    lemma_trim_end(core, after);
    if core.len() > 0 {
        assert(before + core + after =~= before + (core + after));
        lemma_trim_start(before, core + after);
    } else {
        let s = before + core + after;
        assert(white(s)) by {
            assert forall|i: int| 0 <= i < s.len() implies crate::text::is_white_space(
                #[trigger] s[i],
            ) by {
                if i < before.len() {
                    assert(s[i] == before[i]);
                } else {
                    assert(s[i] == after[i - before.len()]);
                }
            }
        }
        lemma_all_white(s);
        assert(crate::text::trim_start(s) =~= core);
        assert(core + Seq::empty() =~= core);
    }
}

/// The place of a character is the first at which it stands; where it stands nowhere, it is
/// the end.
pub proof fn the_first_place_is_found(s: Seq<char>, c: char)
    ensures
        ({
            let n = crate::text::index_of_char(s, c);
            &&& n <= s.len()
            &&& n < s.len() ==> s[n as int] == c
            &&& forall|i: int| 0 <= i < n ==> #[trigger] s[i] != c
        }),
    decreases s.len(),
{
    if s.len() > 0 && s[0] != c {
        let rest = s.drop_first();
        the_first_place_is_found(rest, c);
        assert forall|i: int| 0 <= i < crate::text::index_of_char(s, c) implies #[trigger] s[i]
            != c by {
            if i > 0 {
                assert(s[i] == rest[i - 1]);
            }
        }
    }
}

/// The power of ten with this exponent.
pub open spec fn ten_to(k: nat) -> nat
    decreases k,
{
    if k == 0 {
        1
    } else {
        10 * ten_to((k - 1) as nat)
    }
}

/// A run of digits denotes the sum of its digits, each times the power of ten of its place:
/// it is the number of the digits before a place, moved up by the places from there on,
/// plus the number of the digits from that place on.
pub proof fn digits_count_by_their_place(head: Seq<char>, tail: Seq<char>)
    ensures
        crate::text::digits_value(head + tail) == crate::text::digits_value(head) * ten_to(
            tail.len(),
        ) + crate::text::digits_value(tail),
    decreases tail.len(),
{
    let s = head + tail;
    let h = crate::text::digits_value(head) as int;
    if tail.len() == 0 {
        assert(s =~= head);
        assert(h * 1 == h);
    } else {
        let shorter = tail.drop_last();
        digits_count_by_their_place(head, shorter);
        assert(s.drop_last() =~= head + shorter);
        assert(s.last() == tail.last());
        let t = ten_to(shorter.len()) as int;
        let v = crate::text::digits_value(shorter) as int;
        assert(ten_to(tail.len()) == 10 * t);
        assert(crate::text::digits_value(s.drop_last()) == h * t + v);
        assert((h * t + v) * 10 == h * (10 * t) + v * 10) by (nonlinear_arith);
    }
}

/// A single digit denotes its own value: `0` to `9` denote 0 to 9.
pub proof fn a_digit_denotes_itself(c: char)
    requires
        '0' <= c <= '9',
    ensures
        crate::text::digits_value(seq![c]) == c as int - '0' as int,
        crate::text::is_digit(c),
{
    assert(seq![c].drop_last() =~= Seq::empty());
    reveal_with_fuel(crate::text::digits_value, 2);
}

/// The decimal text of a number is a run of digits that denotes it, and has no zero at its
/// start unless the number is zero.
pub proof fn decimal_texts_denote_their_number(n: nat)
    ensures
        ({
            let s = crate::text::decimal(n);
            &&& s.len() >= 1
            &&& forall|i: int| 0 <= i < s.len() ==> '0' <= #[trigger] s[i] && s[i] <= '9'
            &&& crate::text::digits_value(s) == n
            &&& s[0] == '0' ==> n == 0 && s.len() == 1
        }),
    decreases n,
{
    crate::text::decimal_round_trip(n);
    let s = crate::text::decimal(n);
    assert forall|i: int| 0 <= i < s.len() implies '0' <= #[trigger] s[i] && s[i] <= '9' by {
        assert(crate::text::is_digit(s[i]));
    }
    if n >= 10 {
        decimal_texts_denote_their_number(n / 10);
        assert(s[0] == crate::text::decimal(n / 10)[0]);
    }
}

/// `s` is a run of digits, not empty.
pub open spec fn digits(s: Seq<char>) -> bool {
    s.len() > 0 && forall|i: int| 0 <= i < s.len() ==> '0' <= #[trigger] s[i] && s[i] <= '9'
}

/// A text is read as a number exactly where it is a run of digits, with a plus sign before
/// it or not, whose number fits; it is read as that number. Anything else is no number.
pub proof fn numbers_are_read_as_they_stand(s: Seq<char>, max: nat)
    ensures
        crate::text::digits_number(s, max) == (if digits(s) && crate::text::digits_value(s) <= max {
            Some(crate::text::digits_value(s))
        } else {
            None::<nat>
        }),
        digits(s) ==> crate::text::unsigned_number(s, max) == crate::text::digits_number(s, max),
        crate::text::unsigned_number(seq!['+'] + s, max) == crate::text::digits_number(s, max),
        s.len() > 0 && s[0] != '+' && !digits(s) ==> crate::text::unsigned_number(s, max) is None,
        s.len() == 0 ==> crate::text::unsigned_number(s, max) is None,
{
    if digits(s) {
        assert forall|i: int| 0 <= i < s.len() implies crate::text::is_digit(#[trigger] s[i]) by {}
        assert(s[0] != '+');
    }
    if s.len() > 0 && crate::text::all_digits(s) {
        assert forall|i: int| 0 <= i < s.len() implies '0' <= #[trigger] s[i] && s[i] <= '9' by {
            assert(crate::text::is_digit(s[i]));
        }
    }
    assert((seq!['+'] + s).skip(1) =~= s);
}

/// The decimal text of a number that fits is read back as that number.
pub proof fn decimal_texts_are_read_back(n: nat, max: nat)
    requires
        n <= max,
    ensures
        crate::text::digits_number(crate::text::decimal(n), max) == Some(n),
        crate::text::unsigned_number(crate::text::decimal(n), max) == Some(n),
        !crate::text::is_white_space(crate::text::decimal(n)[0]),
        !crate::text::is_white_space(crate::text::decimal(n).last()),
{
    let s = crate::text::decimal(n);
    decimal_texts_denote_their_number(n);
    numbers_are_read_as_they_stand(s, max);
    assert('0' <= s[0] && s[0] <= '9');
    assert('0' <= s[s.len() - 1] && s[s.len() - 1] <= '9');
}

/// Of the characters of ASCII, the space and those from the tab to the carriage return are
/// white space and no others; of the rest, the Unicode spaces and separators.
pub proof fn white_space_is_unicode_white_space(c: char)
    ensures
        c as int <= 0x7f ==> (crate::text::is_white_space(c) <==> c == ' ' || 0x09 <= c as int
            <= 0x0d),
        c as int > 0x7f ==> (crate::text::is_white_space(c) <==> c as int == 0x85 || c as int
            == 0xa0 || c as int == 0x1680 || 0x2000 <= c as int <= 0x200a || c as int == 0x2028
            || c as int == 0x2029 || c as int == 0x202f || c as int == 0x205f || c as int
            == 0x3000),
{
}

/// A list in brackets starts and ends with its brackets; one number stands alone between
/// them, and each further one follows after a comma and a space.
pub proof fn lists_are_written_with_commas(values: Seq<usize>, last: usize)
    ensures
        crate::text::listed(Seq::empty()) == "[]"@,
        crate::text::listed(seq![last]) == "["@ + crate::text::decimal(last as nat) + "]"@,
        values.len() > 0 ==> crate::text::listed(values.push(last)) == crate::text::listed(
            values,
        ).drop_last() + ", "@ + crate::text::decimal(last as nat) + "]"@,
{
    reveal_strlit("[");
    reveal_strlit("]");
    reveal_strlit("[]");
    assert(crate::text::listed(Seq::empty()) =~= "[]"@);
    if values.len() > 0 {
        let more = values.push(last);
        assert(more.drop_last() =~= values);
        assert(crate::text::listed(values).drop_last() =~= "["@ + crate::text::joined(values));
        assert(crate::text::listed(more) =~= crate::text::listed(values).drop_last() + ", "@
            + crate::text::decimal(last as nat) + "]"@);
    }
}

/// Leading white space goes, and nothing after it.
pub proof fn leading_white_space_goes(before: Seq<char>, rest: Seq<char>)
    requires
        white(before),
        rest.len() > 0 ==> !crate::text::is_white_space(rest[0]),
    ensures
        crate::text::trim_start(before + rest) == rest,
{
    lemma_trim_start(before, rest);
}

} // verus!

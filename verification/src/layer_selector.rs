//! Selectors that turn a diagnostic on for all layers, for none or for some.

use vstd::prelude::*;

use crate::text::{chars_of, find_char, parse_unsigned, text_eq, trim_text};

verus! {

/// The parts of `s` between commas.
pub open spec fn comma_parts(s: Seq<char>) -> Seq<Seq<char>>
    decreases s.len(),
{
    let n = crate::text::index_of_char(s, ',') as int;
    if 0 <= n < s.len() {
        seq![s.take(n)] + comma_parts(s.skip(n + 1))
    } else {
        seq![s]
    }
}

/// The layer that a part of a list names, white space around it aside.
pub open spec fn listed_layer(part: Seq<char>) -> Option<nat> {
    crate::text::unsigned_number(crate::text::trimmed(part), usize::MAX as nat)
}

/// A list names the layers of its parts; a part that names none spoils it.
pub open spec fn list_selects(parts: Seq<Seq<char>>, layer: nat) -> Option<bool>
    decreases parts.len(),
{
    if parts.len() == 0 {
        Some(false)
    } else {
        match (listed_layer(parts[0]), list_selects(parts.drop_first(), layer)) {
            (Some(n), Some(rest)) => Some(n == layer || rest),
            _ => None,
        }
    }
}

/// Whether a selector selects a layer: `all` or `true` do, `none` or nothing do not,
/// and a list selects the layers that it names. `None` for any other text.
pub open spec fn selects(value: Seq<char>, layer: nat) -> Option<bool> {
    let v = crate::text::trimmed(value);
    if v == "all"@ || v == "true"@ {
        Some(true)
    } else if v == "none"@ || v == ""@ {
        Some(false)
    } else {
        list_selects(comma_parts(v), layer)
    }
}

/// The report of a text that is no selector.
pub open spec fn selector_fault(name: Seq<char>) -> Seq<char> {
    name + " must be all, none, or a comma-separated list of layers"@
}

/// Whether the selector `value` of the variable `name` selects a layer.
pub fn diagnostic_zero_delta_value(name: &str, value: &str, layer: usize) -> (selected: Result<
    bool,
    String,
>)
    ensures
        match selected {
            Ok(b) => selects(value@, layer as nat) == Some(b),
            Err(text) => selects(value@, layer as nat) is None && text@ == selector_fault(name@),
        },
{
    let v: &str = trim_text(value);
    if text_eq(v, "all") || text_eq(v, "true") {
        return Ok(true);
    }
    if text_eq(v, "none") || text_eq(v, "") {
        return Ok(false);
    }
    match list_selects_layer(v, layer) {
        Some(b) => Ok(b),
        None => {
            let mut text: String = name.to_owned();
            text.append(" must be all, none, or a comma-separated list of layers");
            Err(text)
        },
    }
}

/// Whether a comma-separated list names a layer.
fn list_selects_layer(list: &str, layer: usize) -> (selected: Option<bool>)
    ensures
        selected == list_selects(comma_parts(list@), layer as nat),
    decreases list@.len(),
{
    let chars: Vec<char> = chars_of(list);
    let end: usize = find_char(chars.as_slice(), ',');
    let ghost parts = comma_parts(list@);
    if end < chars.len() {
        let part: &str = list.substring_char(0, end);
        let rest: &str = list.substring_char(end + 1, chars.len());
        proof {
            assert(part@ =~= list@.take(end as int));
            assert(rest@ =~= list@.skip(end + 1));
            assert(parts.drop_first() =~= comma_parts(rest@));
        }
        match (parse_layer(part), list_selects_layer(rest, layer)) {
            (Some(n), Some(found)) => Some(n == layer || found),
            _ => None,
        }
    } else {
        proof {
            assert(parts.drop_first() =~= Seq::empty());
            reveal_with_fuel(list_selects, 2);
        }
        match parse_layer(list) {
            Some(n) => Some(n == layer),
            None => None,
        }
    }
}

/// The layer that a part of a list names.
fn parse_layer(part: &str) -> (layer: Option<usize>)
    ensures
        match layer {
            Some(n) => listed_layer(part@) == Some(n as nat),
            None => listed_layer(part@) is None,
        },
{
    let chars: Vec<char> = chars_of(trim_text(part));
    match parse_unsigned(chars.as_slice(), usize::MAX as u64) {
        Some(n) => Some(n as usize),
        None => None,
    }
}

} // verus!

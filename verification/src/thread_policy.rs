//! How many threads prefill and decode run on.

use vstd::prelude::*;

use crate::text::{chars_of, parse_unsigned, text_eq, trim_text};

verus! {

/// The thread count that an override names: a number above zero, white space around
/// it aside.
pub open spec fn thread_override(spec_text: Seq<char>) -> Option<nat> {
    match crate::text::unsigned_number(crate::text::trimmed(spec_text), usize::MAX as nat) {
        Some(n) => if n > 0 {
            Some(n)
        } else {
            None
        },
        None => None,
    }
}

/// An override that turns the decode pool off: zero or `off`.
pub open spec fn kill_switch(spec_text: Seq<char>) -> bool {
    let t = crate::text::trimmed(spec_text);
    t == "off"@ || crate::text::unsigned_number(t, usize::MAX as nat) == Some(0nat)
}

/// The width of the prefill pool; `None` for the global pool. An override decides
/// alone. Without one the pool widens to all logical cores where that was measured
/// to pay, and where the operator has not pinned the global thread count.
pub open spec fn prefill_threads(
    override_text: Option<&str>,
    pinned: bool,
    logical_cores: usize,
    measured: bool,
) -> Option<nat> {
    match override_text {
        Some(t) => thread_override(t@),
        None => if measured && !pinned {
            Some(logical_cores as nat)
        } else {
            None
        },
    }
}

/// The width of the decode pool; `None` for no pool of its own. An override of a
/// number above zero wins, the kill switch turns the pool off, and any other
/// override is ignored. Next comes the request for a dedicated pool, as wide as the
/// global one, and last the policy, unless it is wider than the global pool.
pub open spec fn decode_threads(
    override_text: Option<&str>,
    dedicated: bool,
    global_threads: usize,
    policy: Option<usize>,
) -> Option<nat> {
    let by_default = if dedicated {
        Some(global_threads as nat)
    } else {
        match policy {
            Some(p) => if p <= global_threads {
                Some(p as nat)
            } else {
                None
            },
            None => None,
        }
    };
    match override_text {
        Some(t) => if kill_switch(t@) {
            None
        } else if thread_override(t@) is Some {
            thread_override(t@)
        } else {
            by_default
        },
        None => by_default,
    }
}

/// The number that an override names, white space around it aside.
fn parse_threads(override_text: &str) -> (threads: Option<usize>)
    ensures
        match threads {
            Some(n) => crate::text::unsigned_number(
                crate::text::trimmed(override_text@),
                usize::MAX as nat,
            ) == Some(n as nat),
            None => crate::text::unsigned_number(
                crate::text::trimmed(override_text@),
                usize::MAX as nat,
            ) is None,
        },
{
    let chars: Vec<char> = chars_of(trim_text(override_text));
    match parse_unsigned(chars.as_slice(), usize::MAX as u64) {
        Some(n) => Some(n as usize),
        None => None,
    }
}

/// The width of the prefill pool.
pub fn resolve_prefill_thread_count_from(
    override_text: Option<&str>,
    pinned: bool,
    logical_cores: usize,
    measured: bool,
) -> (threads: Option<usize>)
    ensures
        match threads {
            Some(n) => prefill_threads(override_text, pinned, logical_cores, measured) == Some(
                n as nat,
            ),
            None => prefill_threads(override_text, pinned, logical_cores, measured) is None,
        },
{
    match override_text {
        Some(t) => match parse_threads(t) {
            Some(n) => if n > 0 {
                Some(n)
            } else {
                None
            },
            None => None,
        },
        None => if measured && !pinned {
            Some(logical_cores)
        } else {
            None
        },
    }
}

/// The width of the decode pool.
pub fn resolve_decode_thread_count_from(
    override_text: Option<&str>,
    dedicated: bool,
    global_threads: usize,
    policy: Option<usize>,
) -> (threads: Option<usize>)
    ensures
        match threads {
            Some(n) => decode_threads(override_text, dedicated, global_threads, policy) == Some(
                n as nat,
            ),
            None => decode_threads(override_text, dedicated, global_threads, policy) is None,
        },
{
    if let Some(t) = override_text {
        if text_eq(trim_text(t), "off") {
            return None;
        }
        if let Some(n) = parse_threads(t) {
            return if n > 0 {
                Some(n)
            } else {
                None
            };
        }
    }
    if dedicated {
        return Some(global_threads);
    }
    match policy {
        Some(p) => if p <= global_threads {
            Some(p)
        } else {
            None
        },
        None => None,
    }
}

/// A decode pool that the policy alone asks for is never wider than the global one.
pub proof fn policy_never_widens(global_threads: usize, policy: Option<usize>)
    ensures
        decode_threads(None, false, global_threads, policy) matches Some(n) ==> n <= global_threads,
{
}

/// A pinned global thread count is never widened silently.
pub proof fn pinned_prefill_stays_global(logical_cores: usize, measured: bool)
    ensures
        prefill_threads(None, true, logical_cores, measured) is None,
{
}

} // verus!

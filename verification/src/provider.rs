//! Provider-side selection logic for environment-variable platforms.
//!
//! Such a platform consults a fixed precedence chain of locale
//! variables, highest priority first. The values of that chain are read
//! by platform glue outside this library and handed here in chain
//! order, an unset variable standing as the empty string; this module
//! picks the first usable value — non-empty and not a "no locale
//! configured" sentinel — as the sole raw entry.

use vstd::prelude::*;

use crate::normalize::{is_sentinel, is_sentinel_value};

verus! {

/// The first value from position `i` on that is not a sentinel, if any.
pub open spec fn first_usable_from(values: Seq<Seq<char>>, i: int) -> Option<Seq<char>>
    decreases values.len() - i,
{
    if i < 0 || i >= values.len() {
        None
    } else if !is_sentinel(values[i]) {
        Some(values[i])
    } else {
        first_usable_from(values, i + 1)
    }
}

/// The value an environment-variable platform selects from its
/// precedence chain: the first non-empty, non-sentinel one.
pub open spec fn first_usable(values: Seq<Seq<char>>) -> Option<Seq<char>> {
    first_usable_from(values, 0)
}

/// The selected chain value is itself never a sentinel.
pub proof fn lemma_first_usable_not_sentinel(values: Seq<Seq<char>>, i: int)
    ensures
        first_usable_from(values, i) is Some ==> !is_sentinel(first_usable_from(values, i)->Some_0),
    decreases values.len() - i,
{
    if 0 <= i < values.len() && is_sentinel(values[i]) {
        lemma_first_usable_not_sentinel(values, i + 1);
    }
}

/// Raw locale fetch for environment-variable platforms, given the
/// values of the precedence chain in chain order: the first usable
/// value is the sole raw entry; none leaves the result empty.
pub fn env_chain_entries(values: &Vec<String>) -> (raw_entries: Vec<String>)
    ensures
        match first_usable(values.deep_view()) {
            Some(v) => raw_entries.deep_view() =~= seq![v],
            None => raw_entries.deep_view() =~= Seq::<Seq<char>>::empty(),
        },
{
    let mut i: usize = 0;
    while i < values.len()
        invariant
            i <= values.len(),
            first_usable(values.deep_view()) == first_usable_from(values.deep_view(), i as int),
        decreases values.len() - i,
    {
        if !is_sentinel_value(&values[i]) {
            let mut raw_entries: Vec<String> = Vec::new();
            raw_entries.push(values[i].clone());
            proof {
                assert(raw_entries.deep_view() =~= seq![values.deep_view()[i as int]]);
            }
            return raw_entries;
        }
        i = i + 1;
    }
    Vec::new()
}

} // verus!

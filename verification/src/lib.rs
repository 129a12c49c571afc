//! Reports the user's preferred locales as normalized BCP-47 language tags.
//!
//! A platform provider supplies raw locale entries (POSIX environment
//! values, structured identifiers, host language lists); the normalizer
//! turns them into a canonical, deduplicated, validated preference list.
//! The library itself is read-only and stateless: every call computes a
//! fresh list from the raw entries it is given.

use vstd::prelude::*;

pub mod laws;
pub mod normalize;
pub mod provider;

verus! {

use crate::normalize::{normalize_entry, normalize_list_spec};

/// Raw locale fetch for targets without any locale subsystem: the
/// fallback provider always reports no entries.
pub fn get() -> (raw_entries: Vec<String>)
    ensures
        raw_entries@ =~= Seq::<String>::empty(),
{
    Vec::new()
}

/// Whether `tags` already holds a tag equal (as a string) to `tag`.
fn contains_tag(tags: &Vec<String>, tag: &String) -> (found: bool)
    ensures
        found == tags.deep_view().contains(tag@),
{
    let mut k: usize = 0;
    while k < tags.len()
        invariant
            k <= tags.len(),
            forall|t: int| 0 <= t < k ==> tags.deep_view()[t] != tag@,
        decreases tags.len() - k,
    {
        if tags[k] == *tag {
            proof {
                assert(tags.deep_view()[k as int] == tag@);
            }
            return true;
        }
        k = k + 1;
    }
    proof {
        assert(!tags.deep_view().contains(tag@));
    }
    false
}

/// Returns the preferred locales named by the given raw provider
/// entries, in descending order of preference.
///
/// Each raw entry is normalized to a canonical BCP-47 tag or dropped;
/// provider order is kept and exact duplicates are removed, first
/// occurrence winning. An empty or wholly malformed input yields an
/// empty list.
pub fn get_locales(raw_entries: Vec<String>) -> (locales: Vec<String>)
    ensures
        locales.deep_view() == normalize_list_spec(raw_entries.deep_view()),
{
    let ghost raws = raw_entries.deep_view();
    let mut locales: Vec<String> = Vec::new();
    let mut i: usize = 0;
    proof {
        assert(locales.deep_view() =~= normalize_list_spec(raws.take(0)));
    }
    while i < raw_entries.len()
        invariant
            i <= raw_entries.len(),
            raws == raw_entries.deep_view(),
            locales.deep_view() == normalize_list_spec(raws.take(i as int)),
        decreases raw_entries.len() - i,
    {
        proof {
            assert(raws.take(i + 1).drop_last() =~= raws.take(i as int));
            assert(raws.take(i + 1).last() == raw_entries@[i as int]@);
        }
        let ghost before = locales.deep_view();
        match normalize_entry(raw_entries[i].as_str()) {
            Some(tag) => {
                if !contains_tag(&locales, &tag) {
                    locales.push(tag);
                    proof {
                        assert(locales.deep_view() =~= before.push(tag@));
                    }
                }
            },
            None => {},
        }
        proof {
            assert(locales.deep_view() =~= normalize_list_spec(raws.take(i + 1)));
        }
        i = i + 1;
    }
    proof {
        assert(raws.take(raw_entries.len() as int) =~= raws);
    }
    locales
}

/// Returns the most preferred locale named by the given raw provider
/// entries, or `None` when no entry survives normalization.
///
/// This is exactly the first element of [`get_locales`] on the same
/// entries; it performs no independent work.
pub fn get_locale(raw_entries: Vec<String>) -> (locale: Option<String>)
    ensures
        match locale {
            Some(tag) => normalize_list_spec(raw_entries.deep_view()).len() > 0
                && tag@ == normalize_list_spec(raw_entries.deep_view())[0],
            None => normalize_list_spec(raw_entries.deep_view()).len() == 0,
        },
{
    let mut locales = get_locales(raw_entries);
    if locales.len() > 0 {
        let first = locales.remove(0);
        Some(first)
    } else {
        None
    }
}

} // verus!

//! The guarantees of the normalized preference list, stated and proved
//! once over the specification model. The executable API is tied to the
//! same model by the `ensures` clauses of `get_locales` and `get_locale`,
//! so each law here carries over to every call.

use vstd::prelude::*;

use crate::normalize::{
    clean, hyphenate, is_canonical_tag, is_sentinel, normalize_entry_spec, normalize_list_spec,
    lemma_strip_codeset_no_dot,
};

verus! {

/// Idempotence: the preference list is a function of the raw entries
/// alone, so two calls over the same entries return identical lists.
pub proof fn lemma_locales_idempotent(raws_first: Seq<Seq<char>>, raws_second: Seq<Seq<char>>)
    requires
        raws_first == raws_second,
    ensures
        normalize_list_spec(raws_first) == normalize_list_spec(raws_second),
{
}

/// A raw entry that survives normalization yields a canonical tag:
/// non-empty, free of NUL bytes and of underscores.
pub proof fn lemma_entry_canonical(s: Seq<char>)
    ensures
        normalize_entry_spec(s) is Some ==> is_canonical_tag(normalize_entry_spec(s)->Some_0),
{
    if normalize_entry_spec(s) is Some {
        let t = clean(s);
        let base = crate::normalize::strip_codeset(crate::normalize::strip_nuls(s));
        assert forall|k: int| 0 <= k < t.len() implies t[k] != '_' by {
            assert(t[k] == hyphenate(base)[k]);
        }
        assert(!t.contains('_'));
    }
}

/// Every tag in the preference list is the normalization of one of the
/// raw entries.
pub proof fn lemma_list_elements(raws: Seq<Seq<char>>)
    ensures
        forall|i: int| 0 <= i < normalize_list_spec(raws).len()
            ==> exists|j: int| 0 <= j < raws.len()
                && normalize_entry_spec(raws[j]) == Some(#[trigger] normalize_list_spec(raws)[i]),
    decreases raws.len(),
{
    if raws.len() > 0 {
        lemma_list_elements(raws.drop_last());
        let shorter = raws.drop_last();
        let prefix = normalize_list_spec(shorter);
        let full = normalize_list_spec(raws);
        assert forall|i: int| 0 <= i < full.len() implies exists|j: int| 0 <= j < raws.len()
            && normalize_entry_spec(raws[j]) == Some(#[trigger] full[i]) by {
            if i < prefix.len() {
                assert(prefix[i] == full[i]);
                let j = choose|j: int| 0 <= j < shorter.len()
                    && normalize_entry_spec(shorter[j]) == Some(prefix[i]);
                assert(raws[j] == shorter[j]);
                assert(normalize_entry_spec(raws[j]) == Some(full[i]));
            } else {
                let j = raws.len() - 1;
                assert(normalize_entry_spec(raws[j]) == Some(full[i]));
            }
        }
    }
}

/// No-duplicate invariant: no two tags of the preference list are equal.
pub proof fn lemma_no_duplicates(raws: Seq<Seq<char>>)
    ensures
        forall|i: int, j: int| 0 <= i < j < normalize_list_spec(raws).len()
            ==> normalize_list_spec(raws)[i] != normalize_list_spec(raws)[j],
    decreases raws.len(),
{
    if raws.len() > 0 {
        lemma_no_duplicates(raws.drop_last());
        let prefix = normalize_list_spec(raws.drop_last());
        let full = normalize_list_spec(raws);
        assert forall|i: int, j: int| 0 <= i < j < full.len() implies full[i] != full[j] by {
            if j == full.len() - 1 && full.len() == prefix.len() + 1 {
                assert(full[i] == prefix[i]);
                if full[i] == full[j] {
                    assert(prefix.contains(full[j]));
                }
            } else {
                assert(full[i] == prefix[i] && full[j] == prefix[j]);
            }
        }
    }
}

/// Well-formedness: every tag in the preference list is canonical.
pub proof fn lemma_list_well_formed(raws: Seq<Seq<char>>)
    ensures
        forall|i: int| 0 <= i < normalize_list_spec(raws).len()
            ==> is_canonical_tag(#[trigger] normalize_list_spec(raws)[i]),
{
    lemma_list_elements(raws);
    let full = normalize_list_spec(raws);
    assert forall|i: int| 0 <= i < full.len() implies is_canonical_tag(#[trigger] full[i]) by {
        let j = choose|j: int| 0 <= j < raws.len()
            && normalize_entry_spec(raws[j]) == Some(full[i]);
        lemma_entry_canonical(raws[j]);
    }
}

/// Sentinel filtering, per entry: a raw entry that is itself a sentinel
/// (`C`, `POSIX`, or empty) is always dropped.
pub proof fn lemma_sentinel_entry_dropped(s: Seq<char>)
    requires
        is_sentinel(s),
    ensures
        normalize_entry_spec(s) is None,
{
    reveal_strlit("C");
    reveal_strlit("POSIX");
    assert(s.len() == 0 || s.last() != '\0');
    assert(crate::normalize::strip_nuls(s) == s);
    assert forall|k: int| 0 <= k < s.len() implies s[k] != '.' by {
        if s == "C"@ {
            assert(s[k] == 'C');
        } else {
            assert(s == "POSIX"@);
        }
    }
    lemma_strip_codeset_no_dot(s);
    let t = hyphenate(s);
    assert forall|k: int| 0 <= k < s.len() implies t[k] == s[k] by {
        if s == "C"@ {
            assert(s[k] == 'C');
        } else {
            assert(s == "POSIX"@);
        }
    }
    assert(t =~= s);
    assert(clean(s) == s);
    assert(is_sentinel(clean(s)));
}

/// Sentinel filtering, per list: no sentinel value ever stands in the
/// preference list, directly or transformed.
pub proof fn lemma_no_sentinel_in_list(raws: Seq<Seq<char>>)
    ensures
        forall|i: int| 0 <= i < normalize_list_spec(raws).len()
            ==> !is_sentinel(#[trigger] normalize_list_spec(raws)[i]),
{
    lemma_list_elements(raws);
    let full = normalize_list_spec(raws);
    assert forall|i: int| 0 <= i < full.len() implies !is_sentinel(#[trigger] full[i]) by {
        let j = choose|j: int| 0 <= j < raws.len()
            && normalize_entry_spec(raws[j]) == Some(full[i]);
    }
}

/// Order preservation: when every raw entry normalizes successfully and
/// the normalized tags are pairwise distinct, the preference list is
/// exactly the per-entry normalizations, in provider order.
pub proof fn lemma_order_preserved(raws: Seq<Seq<char>>)
    requires
        forall|i: int| 0 <= i < raws.len() ==> (#[trigger] normalize_entry_spec(raws[i])) is Some,
        forall|i: int, j: int| 0 <= i < j < raws.len()
            ==> normalize_entry_spec(raws[i]) != normalize_entry_spec(raws[j]),
    ensures
        normalize_list_spec(raws).len() == raws.len(),
        forall|i: int| 0 <= i < raws.len()
            ==> #[trigger] normalize_list_spec(raws)[i] == normalize_entry_spec(raws[i])->Some_0,
    decreases raws.len(),
{
    if raws.len() > 0 {
        let shorter = raws.drop_last();
        assert(forall|i: int| 0 <= i < shorter.len() ==> shorter[i] == raws[i]);
        lemma_order_preserved(shorter);
        let prefix = normalize_list_spec(shorter);
        let last_tag = normalize_entry_spec(raws.last())->Some_0;
        if prefix.contains(last_tag) {
            let w = choose|w: int| 0 <= w < prefix.len() && prefix[w] == last_tag;
            assert(normalize_entry_spec(raws[w]) == Some(last_tag));
            assert(normalize_entry_spec(raws[raws.len() - 1]) == Some(last_tag));
            assert(false);
        }
    }
}

/// Graceful degradation: a provider that reports no raw entries yields
/// an empty preference list.
pub proof fn lemma_empty_input(raws: Seq<Seq<char>>)
    requires
        raws.len() == 0,
    ensures
        normalize_list_spec(raws).len() == 0,
{
}

} // verus!

//! Normalization of raw platform locale entries into canonical BCP-47 tags.
//!
//! Each raw entry is cleaned in three steps: trailing NUL terminators are
//! stripped, a trailing codeset suffix (everything from the last `.` on,
//! such as `.UTF-8`) is removed, and the remaining underscore or dot
//! separators are replaced by hyphens. A cleaned entry is dropped when it
//! is empty, still holds a NUL, or is one of the "no locale configured"
//! sentinels (`C`, `POSIX`). The surviving tags are assembled in provider
//! order with exact duplicates removed, first occurrence winning.

use vstd::prelude::*;

verus! {

/// The cleaned entry with every trailing NUL terminator removed.
pub open spec fn strip_nuls(s: Seq<char>) -> Seq<char>
    decreases s.len(),
{
    if s.len() > 0 && s.last() == '\0' {
        strip_nuls(s.drop_last())
    } else {
        s
    }
}

/// The entry with its trailing codeset suffix removed: everything from
/// the last `.` (inclusive) to the end, if any `.` is present.
pub open spec fn strip_codeset(s: Seq<char>) -> Seq<char>
    decreases s.len(),
{
    if !s.contains('.') {
        s
    } else if s.last() == '.' {
        s.drop_last()
    } else {
        strip_codeset(s.drop_last())
    }
}

/// Separator substitution: underscores and dots become hyphens.
pub open spec fn hyphenate(s: Seq<char>) -> Seq<char> {
    s.map_values(|c: char| if c == '_' || c == '.' { '-' } else { c })
}

/// The full cleaning of one raw entry.
pub open spec fn clean(s: Seq<char>) -> Seq<char> {
    hyphenate(strip_codeset(strip_nuls(s)))
}

/// A value that means "no locale configured" rather than naming a locale.
pub open spec fn is_sentinel(s: Seq<char>) -> bool {
    s.len() == 0 || s == "C"@ || s == "POSIX"@
}

/// A canonical tag: non-empty, no NUL byte, hyphens rather than
/// underscores as subtag separators.
pub open spec fn is_canonical_tag(s: Seq<char>) -> bool {
    s.len() > 0 && !s.contains('\0') && !s.contains('_')
}

/// What normalization makes of one raw entry: the cleaned tag, or
/// nothing when the entry is a sentinel or malformed.
pub open spec fn normalize_entry_spec(s: Seq<char>) -> Option<Seq<char>> {
    let t = clean(s);
    if is_sentinel(t) || t.contains('\0') {
        None
    } else {
        Some(t)
    }
}

/// The assembled preference list: normalized entries in provider order,
/// exact duplicates dropped, first occurrence winning.
pub open spec fn normalize_list_spec(raws: Seq<Seq<char>>) -> Seq<Seq<char>>
    decreases raws.len(),
{
    if raws.len() == 0 {
        Seq::empty()
    } else {
        let prefix = normalize_list_spec(raws.drop_last());
        match normalize_entry_spec(raws.last()) {
            Some(t) => if prefix.contains(t) {
                prefix
            } else {
                prefix.push(t)
            },
            None => prefix,
        }
    }
}

pub(crate) proof fn lemma_strip_codeset_no_dot(s: Seq<char>)
    requires
        forall|k: int| 0 <= k < s.len() ==> s[k] != '.',
    ensures
        strip_codeset(s) == s,
{
    assert(!s.contains('.'));
}

pub(crate) proof fn lemma_strip_codeset_last_dot(s: Seq<char>, d: int)
    requires
        0 <= d < s.len(),
        s[d] == '.',
        forall|k: int| d < k < s.len() ==> s[k] != '.',
    ensures
        strip_codeset(s) == s.take(d),
    decreases s.len(),
{
    assert(s.contains('.'));
    if d == s.len() - 1 {
        assert(s.last() == '.');
        assert(s.drop_last() =~= s.take(d));
    } else {
        assert(s.last() != '.');
        let shorter = s.drop_last();
        assert(shorter[d] == '.');
        lemma_strip_codeset_last_dot(shorter, d);
        assert(shorter.take(d) =~= s.take(d));
    }
}

/// Hyphenation of the first `cut` characters of `raw`, built by copying
/// maximal separator-free chunks and a `-` for each separator.
fn hyphenate_prefix(raw: &str, cut: usize) -> (out: String)
    requires
        cut <= raw@.len(),
    ensures
        out@ == hyphenate(raw@.take(cut as int)),
{
    let mut out = String::new();
    let mut start: usize = 0;
    let mut i: usize = 0;
    proof {
        assert(out@ =~= hyphenate(raw@.take(0)));
    }
    while i < cut
        invariant
            start <= i <= cut <= raw@.len(),
            out@ == hyphenate(raw@.take(start as int)),
            forall|k: int| start <= k < i ==> raw@[k] != '_' && raw@[k] != '.',
        decreases cut - i,
    {
        let c = raw.get_char(i);
        if c == '_' || c == '.' {
            out.append(raw.substring_char(start, i));
            proof {
                assert(out@ =~= hyphenate(raw@.take(i as int)));
            }
            out.append("-");
            proof {
                reveal_strlit("-");
                assert(out@ =~= hyphenate(raw@.take(i + 1)));
            }
            start = i + 1;
        }
        i += 1;
    }
    out.append(raw.substring_char(start, cut));
    proof {
        assert(out@ =~= hyphenate(raw@.take(cut as int)));
    }
    out
}

/// Whether `value` is one of the "no locale configured" sentinels.
pub fn is_sentinel_value(value: &String) -> (sentinel: bool)
    ensures
        sentinel == is_sentinel(value@),
{
    if value.as_str().is_empty() {
        return true;
    }
    let c_sentinel = String::from_str("C");
    let posix_sentinel = String::from_str("POSIX");
    *value == c_sentinel || *value == posix_sentinel
}

/// Normalizes one raw platform locale entry, returning the canonical
/// BCP-47 tag or `None` when the entry is a sentinel or malformed.
pub fn normalize_entry(raw: &str) -> (result: Option<String>)
    ensures
        match result {
            Some(tag) => normalize_entry_spec(raw@) == Some(tag@),
            None => normalize_entry_spec(raw@) is None,
        },
{
    let n = raw.unicode_len();
    let mut end: usize = n;
    proof {
        assert(raw@.take(n as int) =~= raw@);
    }
    while end > 0 && raw.get_char(end - 1) == '\0'
        invariant
            end <= n == raw@.len(),
            strip_nuls(raw@) == strip_nuls(raw@.take(end as int)),
        decreases end,
    {
        proof {
            assert(raw@.take(end as int).last() == raw@[end - 1]);
            assert(raw@.take(end as int).drop_last() =~= raw@.take(end - 1));
        }
        end = end - 1;
    }
    proof {
        if end == 0 {
            assert(raw@.take(0) =~= Seq::<char>::empty());
        } else {
            assert(raw@.take(end as int).last() == raw@[end - 1]);
        }
        assert(strip_nuls(raw@) == raw@.take(end as int));
    }
    let mut j: usize = end;
    while j > 0 && raw.get_char(j - 1) != '.'
        invariant
            j <= end <= raw@.len(),
            forall|k: int| j <= k < end ==> raw@[k] != '.',
        decreases j,
    {
        j = j - 1;
    }
    let cut: usize = if j == 0 {
        end
    } else {
        j - 1
    };
    proof {
        let stripped = raw@.take(end as int);
        if j == 0 {
            lemma_strip_codeset_no_dot(stripped);
        } else {
            assert(stripped[j - 1] == '.');
            lemma_strip_codeset_last_dot(stripped, j - 1);
            assert(stripped.take(j - 1) =~= raw@.take(cut as int));
        }
        assert(strip_codeset(strip_nuls(raw@)) == raw@.take(cut as int));
    }
    let tag = hyphenate_prefix(raw, cut);
    proof {
        assert(tag@ == clean(raw@));
    }
    let len = tag.as_str().unicode_len();
    if len == 0 {
        return None;
    }
    let mut k: usize = 0;
    let mut has_nul = false;
    while k < len
        invariant
            k <= len == tag@.len(),
            !has_nul ==> forall|t: int| 0 <= t < k ==> tag@[t] != '\0',
            has_nul ==> tag@.contains('\0'),
        decreases len - k,
    {
        if tag.as_str().get_char(k) == '\0' {
            has_nul = true;
        }
        k = k + 1;
    }
    if has_nul {
        return None;
    }
    proof {
        assert(!tag@.contains('\0'));
    }
    if is_sentinel_value(&tag) {
        return None;
    }
    Some(tag)
}

} // verus!

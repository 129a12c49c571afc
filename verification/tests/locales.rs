use sys_locale::{get, get_locale, get_locales};

fn raw(entries: &[&str]) -> Vec<String> {
    entries.iter().map(|e| e.to_string()).collect()
}

#[test]
fn can_obtain_locale() {
    let locales = get_locales(raw(&["en_US.UTF-8", "fr_FR.UTF-8"]));
    assert!(!locales.is_empty(), "locales vec was empty");
    for (i, locale) in locales.into_iter().enumerate() {
        assert!(!locale.is_empty(), "locale string {} was empty", i);
        assert!(
            !locale.ends_with('\0'),
            "locale {} contained trailing NUL",
            i
        );
    }
}

#[test]
fn posix_entries_are_normalized_and_deduplicated() {
    let entries = raw(&["en_US.UTF-8", "fr_FR.UTF-8", "en_US.UTF-8"]);
    let locales = get_locales(entries.clone());
    assert_eq!(locales, vec!["en-US".to_string(), "fr-FR".to_string()]);
    assert_eq!(get_locale(entries), Some("en-US".to_string()));
}

#[test]
fn sole_sentinel_yields_no_locale() {
    let locales = get_locales(raw(&["C"]));
    assert!(locales.is_empty());
    assert_eq!(get_locale(raw(&["C"])), None);
}

#[test]
fn well_formed_tags_pass_through_unchanged() {
    let entries = raw(&["en-GB", "en"]);
    let locales = get_locales(entries);
    assert_eq!(locales, vec!["en-GB".to_string(), "en".to_string()]);
}

#[test]
fn fallback_provider_reports_nothing() {
    assert!(get().is_empty());
}

#[test]
fn empty_raw_sequence_degrades_gracefully() {
    assert!(get_locales(Vec::new()).is_empty());
    assert_eq!(get_locale(Vec::new()), None);
}

#[test]
fn all_sentinels_are_filtered() {
    let entries = raw(&["", "POSIX", "C", "C.UTF-8", "POSIX.UTF-8", "de_DE"]);
    let locales = get_locales(entries);
    assert_eq!(locales, vec!["de-DE".to_string()]);
}

#[test]
fn trailing_nul_terminators_are_stripped() {
    let locales = get_locales(raw(&["en_US\0", "sv_SE.UTF-8\0\0"]));
    assert_eq!(locales, vec!["en-US".to_string(), "sv-SE".to_string()]);
}

#[test]
fn interior_nul_drops_the_entry() {
    let locales = get_locales(raw(&["en\0US", "nb_NO"]));
    assert_eq!(locales, vec!["nb-NO".to_string()]);
}

#[test]
fn underscores_become_hyphens() {
    let locales = get_locales(raw(&["zh_Hans_CN"]));
    assert_eq!(locales, vec!["zh-Hans-CN".to_string()]);
}

#[test]
fn distinct_raw_forms_of_one_tag_are_deduplicated() {
    let entries = raw(&["en_US", "en-US.UTF-8", "en-US\0"]);
    let locales = get_locales(entries);
    assert_eq!(locales, vec!["en-US".to_string()]);
}

#[test]
fn repeated_calls_return_identical_lists() {
    let entries = raw(&["en_US.UTF-8", "ja_JP.UTF-8", "C"]);
    let first = get_locales(entries.clone());
    let second = get_locales(entries);
    assert_eq!(first, second);
}

#[test]
fn single_locale_matches_head_of_list() {
    let inputs: Vec<Vec<String>> = vec![
        raw(&["en_US.UTF-8", "fr_FR.UTF-8"]),
        raw(&["C", "POSIX"]),
        raw(&[]),
        raw(&["ko_KR.EUC-KR", "ko_KR"]),
    ];
    for entries in inputs {
        let head = get_locales(entries.clone()).first().cloned();
        assert_eq!(get_locale(entries), head);
    }
}

#[test]
fn returned_lists_hold_no_duplicates() {
    let entries = raw(&["en_US", "en_US.UTF-8", "fr_FR", "en-US", "fr_FR\0"]);
    let locales = get_locales(entries);
    for i in 0..locales.len() {
        for j in (i + 1)..locales.len() {
            assert_ne!(locales[i], locales[j]);
        }
    }
}

#[test]
fn returned_tags_are_well_formed() {
    let entries = raw(&["en_US.UTF-8", "zh_Hans_CN", "pt_BR\0", "C", ""]);
    let locales = get_locales(entries);
    assert!(!locales.is_empty());
    for locale in locales {
        assert!(!locale.is_empty());
        assert!(!locale.contains('\0'));
        assert!(!locale.contains('_'));
    }
}

#[test]
fn env_chain_picks_first_usable_value() {
    let chain = raw(&["", "C", "de_DE.UTF-8", "en_US.UTF-8"]);
    let entries = sys_locale::provider::env_chain_entries(&chain);
    assert_eq!(entries, vec!["de_DE.UTF-8".to_string()]);
    let locales = get_locales(entries);
    assert_eq!(locales, vec!["de-DE".to_string()]);
}

#[test]
fn env_chain_of_sentinels_yields_nothing() {
    let chain = raw(&["", "POSIX", "C"]);
    let entries = sys_locale::provider::env_chain_entries(&chain);
    assert!(entries.is_empty());
    assert_eq!(get_locale(entries), None);
}

#[test]
fn only_the_codeset_suffix_is_stripped() {
    let locales = get_locales(raw(&["ca_ES.ISO8859-15@euro"]));
    assert_eq!(locales, vec!["ca-ES".to_string()]);
}

//! Loading the mention configuration from TOML source text.

use lowc::load_mentions;
use lowc::MentionLoad;

#[test]
fn no_source_at_all_is_absent() {
    assert!(matches!(load_mentions(None), MentionLoad::Absent));
}

#[test]
fn unparsable_source_is_absent() {
    assert!(matches!(load_mentions(Some("not = [ valid toml")), MentionLoad::Absent));
}

#[test]
fn empty_source_loads_no_entries() {
    match load_mentions(Some("")) {
        MentionLoad::Loaded(entries) => assert_eq!(entries.len(), 0),
        _ => panic!("an empty table must load"),
    }
}

#[test]
fn entries_load_with_sites_and_flags() {
    let source = "[alice]\nsite = \"https://alice.example\"\nmention = true\n\n[bob]\nsite = \"https://bob.example\"\n";
    match load_mentions(Some(source)) {
        MentionLoad::Loaded(entries) => {
            assert_eq!(entries.len(), 2);
            assert_eq!(entries[0].handle, "alice");
            assert_eq!(entries[0].site, "https://alice.example");
            assert!(entries[0].mention);
            assert_eq!(entries[1].handle, "bob");
            assert_eq!(entries[1].site, "https://bob.example");
            // An absent `mention` field defaults to false.
            assert!(!entries[1].mention);
        },
        _ => panic!("both entries are valid and must load"),
    }
}

#[test]
fn missing_site_fails_naming_the_handle() {
    // One bad entry aborts the whole load, even beside valid ones.
    let source = "[alice]\nsite = \"https://alice.example\"\n\n[bob]\nmention = true\n";
    match load_mentions(Some(source)) {
        MentionLoad::EntryError(handle) => assert_eq!(handle, "bob"),
        _ => panic!("an entry without a site must fail the load"),
    }
}

#[test]
fn non_string_site_fails_naming_the_handle() {
    let source = "[zed]\nsite = 7\n";
    match load_mentions(Some(source)) {
        MentionLoad::EntryError(handle) => assert_eq!(handle, "zed"),
        _ => panic!("a non-string site must fail the load"),
    }
}

#[test]
fn loaded_config_drives_the_transform() {
    let source = "[alice]\nsite = \"https://alice.example\"\nmention = true\n";
    let entries = match load_mentions(Some(source)) {
        MentionLoad::Loaded(entries) => entries,
        _ => panic!("the entry is valid and must load"),
    };
    let lowc = lowc::with_builtin_tags().expect("built-in tag vocabulary must register");
    let out: String = lowc.transform(lowc::chars_of("hi @alice"), &entries).iter().collect();
    assert_eq!(
        out,
        "hi <a href=\"https://alice.example\" data-handle=\"alice\" data-mention=\"true\" class=\"u-in-reply-to\">@alice</a>"
    );
}

use selma::config::{ConfigError, ProtocolEntry, ProtocolList};
use selma::policy::{
    SELMA_SANITIZER_ALLOW, SELMA_SANITIZER_REMOVE_CONTENTS, SELMA_SANITIZER_WRAP_WHITESPACE,
};
use selma::store::Sanitizer;
use selma::tags::{element_name, KNOWN_TAGS};

fn tag(name: &str) -> &str {
    name
}

fn schemes(list: &[&str]) -> ProtocolList {
    ProtocolList::List(list.iter().map(|s| ProtocolEntry::Scheme(s.to_string())).collect())
}

fn sorted(list: Option<&Vec<String>>) -> Option<Vec<String>> {
    list.map(|l| {
        let mut l = l.clone();
        l.sort();
        l.dedup();
        l
    })
}

#[test]
fn new_store_allows_nothing() {
    let store = Sanitizer::new();
    for index in 0..KNOWN_TAGS {
        assert_eq!(store.flags_of(tag(element_name(index))), 0);
        assert!(!store.allows_tag(tag(element_name(index))));
    }
    assert_eq!(store.flags_of(tag("no-such-tag")), 0);
    assert!(!store.allows_attribute("a", "href"));
    assert!(store.protocols_for("a", "href").is_none());
    assert!(store.has_no_class_filter("a"));
    assert!(!store.allows_class("a", "x"));
    assert!(store.escape_tagfilter());
    assert!(!store.allow_comments());
    assert!(store.allow_doctype());
}

#[test]
fn flag_values_are_single_bits() {
    assert_eq!(SELMA_SANITIZER_ALLOW, 1);
    assert_eq!(SELMA_SANITIZER_REMOVE_CONTENTS, 4);
    assert_eq!(SELMA_SANITIZER_WRAP_WHITESPACE, 8);
}

#[test]
fn set_flag_touches_one_bit_of_one_tag() {
    let mut store = Sanitizer::new();
    store.set_flag("p", SELMA_SANITIZER_ALLOW, true);
    assert_eq!(store.flags_of(tag("p")), 1);
    assert!(store.allows_tag(tag("p")));
    assert_eq!(store.flags_of(tag("b")), 0);
    store.set_flag("p", SELMA_SANITIZER_REMOVE_CONTENTS, true);
    assert_eq!(store.flags_of(tag("p")), 5);
    store.set_flag("p", SELMA_SANITIZER_WRAP_WHITESPACE, true);
    assert_eq!(store.flags_of(tag("p")), 13);
    store.set_flag("p", SELMA_SANITIZER_ALLOW, false);
    assert_eq!(store.flags_of(tag("p")), 12);
    assert!(!store.allows_tag(tag("p")));
    store.set_flag("p", SELMA_SANITIZER_ALLOW, false);
    assert_eq!(store.flags_of(tag("p")), 12);
}

#[test]
fn set_flag_is_idempotent_and_order_independent() {
    let mut one = Sanitizer::new();
    one.set_flag("p", SELMA_SANITIZER_ALLOW, true);
    one.set_flag("p", SELMA_SANITIZER_ALLOW, true);
    one.set_flag("b", SELMA_SANITIZER_WRAP_WHITESPACE, true);
    let mut other = Sanitizer::new();
    other.set_flag("b", SELMA_SANITIZER_WRAP_WHITESPACE, true);
    other.set_flag("p", SELMA_SANITIZER_ALLOW, true);
    for index in 0..KNOWN_TAGS {
        let t = tag(element_name(index));
        assert_eq!(one.flags_of(t), other.flags_of(t));
    }
    assert_eq!(one.flags_of(tag("p")), 1);
    assert_eq!(one.flags_of(tag("b")), 8);
}

#[test]
fn unknown_names_share_their_flags() {
    let mut store = Sanitizer::new();
    store.set_flag("my-element", SELMA_SANITIZER_ALLOW, true);
    assert!(store.allows_tag(tag("another-element")));
    assert!(!store.allows_tag(tag("p")));
}

#[test]
fn set_all_flags_touches_one_bit_of_every_tag() {
    let mut store = Sanitizer::new();
    store.set_flag("p", SELMA_SANITIZER_ALLOW, true);
    store.set_all_flags(SELMA_SANITIZER_REMOVE_CONTENTS, true);
    assert_eq!(store.flags_of(tag("p")), 5);
    assert_eq!(store.flags_of(tag("b")), 4);
    assert_eq!(store.flags_of(tag("unknown")), 4);
    store.set_all_flags(SELMA_SANITIZER_REMOVE_CONTENTS, false);
    assert_eq!(store.flags_of(tag("p")), 1);
    assert_eq!(store.flags_of(tag("b")), 0);
    assert_eq!(store.flags_of(tag("unknown")), 0);
}

#[test]
fn attribute_grants_add_up() {
    let mut store = Sanitizer::new();
    store.allow_attribute("a", "href");
    assert!(store.allows_attribute("a", "href"));
    assert!(!store.allows_attribute("p", "href"));
    assert!(!store.allows_attribute("a", "title"));
    store.allow_attribute("all", "title");
    assert!(store.allows_attribute("a", "title"));
    assert!(store.allows_attribute("p", "title"));
    assert!(store.allows_attribute("never-configured", "title"));
    assert!(store.allows_attribute("a", "href"));
    store.allow_attribute("a", "href");
    store.allow_attribute("a", "rel");
    assert!(store.allows_attribute("a", "href"));
    assert!(store.allows_attribute("a", "rel"));
    assert!(!store.allows_attribute("all", "href"));
}

#[test]
fn class_grants_add_up() {
    let mut store = Sanitizer::new();
    assert!(store.has_no_class_filter("p"));
    store.allow_class("p", "note");
    assert!(!store.has_no_class_filter("p"));
    assert!(store.has_no_class_filter("b"));
    assert!(store.allows_class("p", "note"));
    assert!(!store.allows_class("b", "note"));
    assert!(!store.allows_class("p", "other"));
    store.allow_class("all", "hidden");
    assert!(!store.has_no_class_filter("b"));
    assert!(store.allows_class("b", "hidden"));
    assert!(store.allows_class("p", "hidden"));
    assert!(store.allows_class("p", "note"));
}

#[test]
fn scheme_lists_add_up() {
    let mut store = Sanitizer::new();
    assert_eq!(store.allow_protocols("a", "href", &schemes(&["http", "https"])), Ok(()));
    assert_eq!(
        sorted(store.protocols_for("a", "href")),
        Some(vec!["http".to_string(), "https".to_string()])
    );
    assert!(store.protocols_for("a", "src").is_none());
    assert!(store.protocols_for("img", "href").is_none());
    assert_eq!(
        store.allow_protocols("a", "href", &ProtocolList::List(vec![ProtocolEntry::Relative])),
        Ok(())
    );
    assert_eq!(
        sorted(store.protocols_for("a", "href")),
        Some(vec!["#".to_string(), "/".to_string(), "http".to_string(), "https".to_string()])
    );
    assert_eq!(store.allow_protocols("a", "href", &schemes(&["http"])), Ok(()));
    assert_eq!(
        sorted(store.protocols_for("a", "href")),
        Some(vec!["#".to_string(), "/".to_string(), "http".to_string(), "https".to_string()])
    );
    assert_eq!(store.allow_protocols("img", "src", &ProtocolList::All), Ok(()));
    assert_eq!(sorted(store.protocols_for("img", "src")), Some(vec!["all".to_string()]));
}

#[test]
fn refused_scheme_lists_change_nothing() {
    let mut store = Sanitizer::new();
    let with_all = ProtocolList::List(vec![
        ProtocolEntry::Scheme("http".to_string()),
        ProtocolEntry::All,
    ]);
    assert_eq!(store.allow_protocols("a", "href", &with_all), Err(ConfigError::AllInsideList));
    assert!(store.protocols_for("a", "href").is_none());
    let only_all = ProtocolList::List(vec![ProtocolEntry::All]);
    assert_eq!(store.allow_protocols("a", "href", &only_all), Err(ConfigError::AllInsideList));
    assert_eq!(
        store.allow_protocols("a", "href", &ProtocolList::Invalid),
        Err(ConfigError::InvalidProtocolList)
    );
    assert!(store.protocols_for("a", "href").is_none());
}

#[test]
fn scheme_list_without_any_scheme_configures_nothing() {
    let mut store = Sanitizer::new();
    assert_eq!(store.allow_protocols("a", "href", &ProtocolList::List(vec![])), Ok(()));
    assert!(store.protocols_for("a", "href").is_none());
    assert_eq!(
        store.allow_protocols("a", "href", &ProtocolList::List(vec![ProtocolEntry::Other])),
        Ok(())
    );
    assert!(store.protocols_for("a", "href").is_none());
}

#[test]
fn switches_are_set_and_read() {
    let mut store = Sanitizer::new();
    assert_eq!(store.set_escape_tagfilter(false), false);
    assert_eq!(store.set_allow_comments(true), true);
    assert_eq!(store.set_allow_doctype(false), false);
    assert!(!store.escape_tagfilter());
    assert!(store.allow_comments());
    assert!(!store.allow_doctype());
    assert_eq!(store.set_escape_tagfilter(true), true);
    assert!(store.escape_tagfilter());
    assert!(store.allow_comments());
}

#[test]
fn config_error_messages() {
    assert_eq!(ConfigError::AllInsideList.message(), "`:all` must be passed outside of an array");
    assert_eq!(
        ConfigError::InvalidProtocolList.message(),
        "Protocol list must be an array, or just `:all`"
    );
    assert_eq!(
        ConfigError::InvalidRemoveContents.message(),
        "remove_contents must be `true`, `false`, or an array"
    );
}

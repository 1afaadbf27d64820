use selma::config::{
    AttributeGrant, Config, ConfigError, ProtocolEntry, ProtocolGrant, ProtocolList, RemoveContents,
};
use selma::sanitizer::SelmaSanitizer;
use selma::store::Sanitizer;

fn names(list: &[&str]) -> Vec<String> {
    list.iter().map(|s| s.to_string()).collect()
}

fn build(config: &Config) -> SelmaSanitizer {
    match SelmaSanitizer::new(config) {
        Ok(s) => s,
        Err(e) => panic!("refused: {}", e.message()),
    }
}

fn flags(sanitizer: &SelmaSanitizer, name: &str) -> u8 {
    sanitizer.store().flags_of(name)
}

#[test]
fn empty_configuration_allows_nothing() {
    let sanitizer = build(&Config::new());
    assert_eq!(flags(&sanitizer, "p"), 0);
    assert!(sanitizer.disallows("p"));
    assert!(sanitizer.get_escape_tagfilter());
    assert!(!sanitizer.get_allow_comments());
    assert!(sanitizer.get_allow_doctype());
}

#[test]
fn elements_whitespace_and_contents_set_their_flags() {
    let mut config = Config::new();
    config.elements = names(&["p", "b"]);
    config.remove_contents = RemoveContents::Elements(names(&["b", "em"]));
    config.whitespace_elements = names(&["div", "p"]);
    let sanitizer = build(&config);
    assert_eq!(flags(&sanitizer, "p"), 9);
    assert_eq!(flags(&sanitizer, "b"), 5);
    assert_eq!(flags(&sanitizer, "em"), 4);
    assert_eq!(flags(&sanitizer, "div"), 8);
    assert_eq!(flags(&sanitizer, "i"), 0);
    assert!(!sanitizer.disallows("p"));
    assert!(sanitizer.disallows("em"));
}

#[test]
fn remove_contents_everywhere() {
    let mut config = Config::new();
    config.elements = names(&["p"]);
    config.remove_contents = RemoveContents::Everywhere(true);
    let sanitizer = build(&config);
    assert_eq!(flags(&sanitizer, "p"), 5);
    assert_eq!(flags(&sanitizer, "i"), 4);
    config.remove_contents = RemoveContents::Everywhere(false);
    let sanitizer = build(&config);
    assert_eq!(flags(&sanitizer, "p"), 1);
    assert_eq!(flags(&sanitizer, "i"), 0);
}

#[test]
fn invalid_remove_contents_is_refused() {
    let mut config = Config::new();
    config.elements = names(&["p"]);
    config.remove_contents = RemoveContents::Invalid;
    assert!(matches!(SelmaSanitizer::new(&config), Err(ConfigError::InvalidRemoveContents)));
    let mut store = Sanitizer::new();
    assert_eq!(
        SelmaSanitizer::setup_config(&mut store, &config),
        Err(ConfigError::InvalidRemoveContents)
    );
    assert_eq!(store.flags_of("p"), 0);
}

#[test]
fn setup_config_sets_flags_only() {
    let mut config = Config::new();
    config.elements = names(&["p"]);
    config.attributes = vec![AttributeGrant { element: "p".to_string(), attributes: names(&["id"]) }];
    let mut store = Sanitizer::new();
    assert_eq!(SelmaSanitizer::setup_config(&mut store, &config), Ok(()));
    assert_eq!(store.flags_of("p"), 1);
    assert!(!store.allows_attribute("p", "id"));
}

#[test]
fn attributes_and_protocols_are_granted() {
    let mut config = Config::new();
    config.attributes = vec![
        AttributeGrant { element: "all".to_string(), attributes: names(&["title", "class"]) },
        AttributeGrant { element: "a".to_string(), attributes: names(&["href"]) },
    ];
    config.protocols = vec![
        ProtocolGrant {
            element: "a".to_string(),
            attribute: "href".to_string(),
            protocols: ProtocolList::List(vec![
                ProtocolEntry::Scheme("https".to_string()),
                ProtocolEntry::Relative,
                ProtocolEntry::Other,
            ]),
        },
        ProtocolGrant {
            element: "img".to_string(),
            attribute: "src".to_string(),
            protocols: ProtocolList::All,
        },
    ];
    let sanitizer = build(&config);
    let store = sanitizer.store();
    assert!(store.allows_attribute("p", "title"));
    assert!(store.allows_attribute("a", "href"));
    assert!(!store.allows_attribute("p", "href"));
    let mut href = store.protocols_for("a", "href").unwrap().clone();
    href.sort();
    assert_eq!(href, names(&["#", "/", "https"]));
    assert_eq!(store.protocols_for("img", "src").unwrap(), &names(&["all"]));
    assert!(store.protocols_for("p", "href").is_none());
}

#[test]
fn first_refused_scheme_list_decides() {
    let mut config = Config::new();
    config.protocols = vec![
        ProtocolGrant {
            element: "a".to_string(),
            attribute: "href".to_string(),
            protocols: ProtocolList::List(vec![ProtocolEntry::Scheme("http".to_string())]),
        },
        ProtocolGrant {
            element: "a".to_string(),
            attribute: "src".to_string(),
            protocols: ProtocolList::Invalid,
        },
        ProtocolGrant {
            element: "a".to_string(),
            attribute: "cite".to_string(),
            protocols: ProtocolList::List(vec![ProtocolEntry::All]),
        },
    ];
    assert!(matches!(SelmaSanitizer::new(&config), Err(ConfigError::InvalidProtocolList)));
    config.protocols.remove(1);
    assert!(matches!(SelmaSanitizer::new(&config), Err(ConfigError::AllInsideList)));
    config.remove_contents = RemoveContents::Invalid;
    assert!(matches!(SelmaSanitizer::new(&config), Err(ConfigError::InvalidRemoveContents)));
}

#[test]
fn switches_follow_the_configuration() {
    let mut config = Config::new();
    config.escape_tagfilter = Some(false);
    config.allow_comments = Some(true);
    config.allow_doctype = Some(false);
    let sanitizer = build(&config);
    assert!(!sanitizer.get_escape_tagfilter());
    assert!(sanitizer.get_allow_comments());
    assert!(!sanitizer.get_allow_doctype());
}

#[test]
fn sanitizer_from_a_store_applies_it() {
    let mut store = Sanitizer::new();
    store.set_flag("p", 1, true);
    store.set_allow_comments(true);
    let sanitizer = SelmaSanitizer::from_store(store);
    assert!(!sanitizer.disallows("p"));
    assert!(sanitizer.disallows("b"));
    assert!(sanitizer.get_allow_comments());
}

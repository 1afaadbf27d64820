use selma::selector::{InvalidSelector, SelmaSelector};

fn some(s: &str) -> Option<String> {
    Some(s.to_string())
}

#[test]
fn selector_needs_something_to_match() {
    assert_eq!(SelmaSelector::new(None, None, None).err(), Some(InvalidSelector::NoSelector));
    assert_eq!(
        SelmaSelector::new(None, None, Some(vec!["pre".to_string()])).err(),
        Some(InvalidSelector::NoSelector)
    );
}

#[test]
fn selectors_are_parsed_when_they_are_given() {
    assert_eq!(
        SelmaSelector::new(some("a["), None, None).err(),
        Some(InvalidSelector::MatchElement("a[".to_string()))
    );
    assert_eq!(
        SelmaSelector::new(None, some("!!"), None).err(),
        Some(InvalidSelector::MatchTextWithin("!!".to_string()))
    );
    assert_eq!(
        SelmaSelector::new(some("p"), some(""), None).err(),
        Some(InvalidSelector::MatchTextWithin("".to_string()))
    );
    assert_eq!(
        SelmaSelector::new(some("a["), some("!!"), None).err(),
        Some(InvalidSelector::MatchElement("a[".to_string()))
    );
}

#[test]
fn valid_selectors_are_kept_as_given() {
    let selector = match SelmaSelector::new(
        some("a[href], p.note"),
        some("*"),
        Some(vec!["pre".to_string(), "code".to_string()]),
    ) {
        Ok(s) => s,
        Err(e) => panic!("{}", e.message()),
    };
    assert_eq!(selector.match_element(), some("a[href], p.note"));
    assert_eq!(selector.match_text_within(), some("*"));
    assert_eq!(selector.ignore_text_within(), Some(vec!["pre".to_string(), "code".to_string()]));
    let selector = match SelmaSelector::new(some("b"), None, None) {
        Ok(s) => s,
        Err(e) => panic!("{}", e.message()),
    };
    assert_eq!(selector.match_element(), some("b"));
    assert_eq!(selector.match_text_within(), None);
    assert_eq!(selector.ignore_text_within(), None);
}

#[test]
fn from_checked_goes_by_what_it_is_told() {
    assert_eq!(
        SelmaSelector::from_checked(None, true, None, true, None).err(),
        Some(InvalidSelector::NoSelector)
    );
    assert_eq!(
        SelmaSelector::from_checked(some("a"), false, some("b"), false, None).err(),
        Some(InvalidSelector::MatchElement("a".to_string()))
    );
    assert_eq!(
        SelmaSelector::from_checked(some("a"), true, some("b"), false, None).err(),
        Some(InvalidSelector::MatchTextWithin("b".to_string()))
    );
    assert_eq!(
        SelmaSelector::from_checked(None, false, some("b"), false, None).err(),
        Some(InvalidSelector::MatchTextWithin("b".to_string()))
    );
    assert!(SelmaSelector::from_checked(None, false, some("b"), true, None).is_ok());
    assert!(SelmaSelector::from_checked(some("a"), true, None, false, None).is_ok());
}

#[test]
fn messages_name_the_selector() {
    assert_eq!(
        InvalidSelector::NoSelector.message(),
        "Neither `match_element` nor `match_text_within` option given"
    );
    assert_eq!(
        InvalidSelector::MatchElement("a[".to_string()).message(),
        "Could not parse `match_element` (`a[`) as valid CSS"
    );
    assert_eq!(
        InvalidSelector::MatchTextWithin("!!".to_string()).message(),
        "Could not parse `match_text_within` (`!!`) as valid CSS"
    );
}

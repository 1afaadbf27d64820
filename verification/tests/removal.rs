use selma::config::{Config, RemoveContents};
use selma::edits::ElementEdit;
use selma::sanitizer::SelmaSanitizer;

fn names(list: &[&str]) -> Vec<String> {
    list.iter().map(|s| s.to_string()).collect()
}

fn space() -> String {
    " ".to_string()
}

fn sanitizer() -> SelmaSanitizer {
    let mut config = Config::new();
    config.elements = names(&["p", "iframe", "br"]);
    config.remove_contents = RemoveContents::Elements(names(&["em", "hr"]));
    config.whitespace_elements = names(&["div", "img", "em", "script"]);
    match SelmaSanitizer::new(&config) {
        Ok(s) => s,
        Err(_) => panic!("refused"),
    }
}

#[test]
fn remove_element_follows_the_flags() {
    assert_eq!(SelmaSanitizer::remove_element(false, 0), vec![ElementEdit::RemoveAndKeepContent]);
    assert_eq!(SelmaSanitizer::remove_element(true, 1), vec![ElementEdit::RemoveAndKeepContent]);
    assert_eq!(SelmaSanitizer::remove_element(false, 4), vec![ElementEdit::Remove]);
    assert_eq!(SelmaSanitizer::remove_element(true, 12), vec![ElementEdit::Remove]);
    assert_eq!(
        SelmaSanitizer::remove_element(false, 8),
        vec![ElementEdit::Before(space()), ElementEdit::After(space()), ElementEdit::RemoveAndKeepContent]
    );
    assert_eq!(
        SelmaSanitizer::remove_element(true, 9),
        vec![ElementEdit::After(space()), ElementEdit::RemoveAndKeepContent]
    );
}

#[test]
fn end_tag_is_kept_out_unless_there_is_none() {
    let mut edits = vec![ElementEdit::Remove];
    SelmaSanitizer::check_if_end_tag_needs_removal(&mut edits, false);
    assert_eq!(edits, vec![ElementEdit::Remove, ElementEdit::RemoveEndTag]);
    let mut edits = vec![ElementEdit::Remove];
    SelmaSanitizer::check_if_end_tag_needs_removal(&mut edits, true);
    assert_eq!(edits, vec![ElementEdit::Remove]);
}

#[test]
fn forced_removal_takes_everything() {
    assert_eq!(
        SelmaSanitizer::plan_forced_removal(false),
        vec![ElementEdit::Remove, ElementEdit::RemoveEndTag]
    );
    assert_eq!(SelmaSanitizer::plan_forced_removal(true), vec![ElementEdit::Remove]);
}

#[test]
fn allowed_elements_stay() {
    let s = sanitizer();
    assert_eq!(s.plan_removal("p", false), (false, vec![]));
    assert_eq!(s.plan_removal("br", false), (false, vec![]));
    assert_eq!(s.plan_removal("p", true), (false, vec![]));
}

#[test]
fn elements_that_are_not_allowed_go_as_their_flags_say() {
    let s = sanitizer();
    assert_eq!(
        s.plan_removal("b", false),
        (true, vec![ElementEdit::RemoveAndKeepContent, ElementEdit::RemoveEndTag])
    );
    assert_eq!(
        s.plan_removal("no-such-tag", false),
        (true, vec![ElementEdit::RemoveAndKeepContent, ElementEdit::RemoveEndTag])
    );
    assert_eq!(
        s.plan_removal("div", false),
        (
            true,
            vec![
                ElementEdit::Before(space()),
                ElementEdit::After(space()),
                ElementEdit::RemoveAndKeepContent,
                ElementEdit::RemoveEndTag
            ]
        )
    );
    assert_eq!(
        s.plan_removal("img", false),
        (true, vec![ElementEdit::After(space()), ElementEdit::RemoveAndKeepContent])
    );
    assert_eq!(s.plan_removal("em", false), (true, vec![ElementEdit::Remove, ElementEdit::RemoveEndTag]));
    assert_eq!(s.plan_removal("hr", false), (true, vec![ElementEdit::Remove]));
}

#[test]
fn text_bearing_tags_never_leave_what_they_hold() {
    let s = sanitizer();
    for name in ["script", "style", "math", "svg"].iter() {
        assert_eq!(
            s.plan_removal(name, false),
            (true, vec![ElementEdit::Remove, ElementEdit::RemoveEndTag]),
            "{}",
            name
        );
    }
}

#[test]
fn element_that_was_removed_before_is_left_alone() {
    let s = sanitizer();
    assert_eq!(s.plan_removal("b", true), (false, vec![]));
    assert_eq!(s.plan_removal("script", true), (false, vec![]));
}

#[test]
fn iframe_that_stays_loses_what_it_holds() {
    let s = sanitizer();
    assert_eq!(s.plan_removal("iframe", false), (false, vec![ElementEdit::SetInnerContent(space())]));
    assert_eq!(s.plan_removal("iframe", true), (false, vec![ElementEdit::SetInnerContent(space())]));
    let bare = match SelmaSanitizer::new(&Config::new()) {
        Ok(s) => s,
        Err(_) => panic!("refused"),
    };
    assert_eq!(
        bare.plan_removal("iframe", true),
        (false, vec![ElementEdit::SetInnerContent(String::new())])
    );
    assert_eq!(
        bare.plan_removal("iframe", false),
        (true, vec![ElementEdit::RemoveAndKeepContent, ElementEdit::RemoveEndTag])
    );
}

#[test]
fn disallows_reads_the_allow_flag() {
    let s = sanitizer();
    assert!(!s.disallows("p"));
    assert!(s.disallows("div"));
    assert!(s.disallows("P"));
    assert!(s.disallows("unknown"));
}

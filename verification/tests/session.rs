use lol_html::html_content::{Element, EndTag, TextChunk};
use selma::ancestors::AncestorStack;
use selma::config::Config;
use selma::rewriter::{Callbacks, Handler, SelmaRewriter};
use selma::sanitizer::SelmaSanitizer;
use selma::selector::SelmaSelector;
use selma::session::{finish, handles_text, RewriteError};

struct Quiet;

impl Callbacks for Quiet {
    fn handle_element(&self, _element: &mut Element, _ancestors: &Vec<String>) -> Result<(), String> {
        Ok(())
    }

    fn handle_text_chunk(&self, _text_chunk: &mut TextChunk) -> Result<(), String> {
        Ok(())
    }

    fn on_end_tag(&self, _end_tag: &mut EndTag) -> Result<(), String> {
        Ok(())
    }
}

fn sanitizer(allow_doctype: bool, allow_comments: bool) -> SelmaSanitizer {
    let mut config = Config::new();
    config.allow_doctype = Some(allow_doctype);
    config.allow_comments = Some(allow_comments);
    match SelmaSanitizer::new(&config) {
        Ok(s) => s,
        Err(_) => panic!("refused"),
    }
}

fn handler(element: Option<&str>, text: Option<&str>) -> Handler<Quiet> {
    match SelmaSelector::new(element.map(|s| s.to_string()), text.map(|s| s.to_string()), None) {
        Ok(selector) => Handler::new(selector, Quiet, false),
        Err(_) => panic!("refused"),
    }
}

fn counts(choice: Option<SelmaSanitizer>, handlers: Vec<Handler<Quiet>>) -> (usize, usize) {
    let rewriter = match SelmaRewriter::new(choice, handlers, &vec![]) {
        Ok(r) => r,
        Err(_) => panic!("refused"),
    };
    let result = match rewriter.configure_first_pass() {
        Ok(settings) => (
            settings.document_content_handlers.len(),
            settings.element_content_handlers.len(),
        ),
        Err(_) => panic!("the first pass was refused"),
    };
    result
}

fn selector(ignore: Option<Vec<String>>) -> SelmaSelector {
    match SelmaSelector::new(None, Some("*".to_string()), ignore) {
        Ok(s) => s,
        Err(_) => panic!("refused"),
    }
}

fn stack(names: &[&str]) -> AncestorStack {
    let mut stack = AncestorStack::new();
    for name in names.iter() {
        stack.open(name, true);
    }
    stack
}

#[test]
fn finish_decodes_utf8() {
    assert_eq!(finish("<p>héllo ✓</p>".as_bytes().to_vec()), Ok("<p>héllo ✓</p>".to_string()));
    assert_eq!(finish(vec![]), Ok(String::new()));
}

#[test]
fn finish_refuses_what_is_no_utf8() {
    assert_eq!(finish(vec![0x3c, 0xff, 0x3e]), Err(RewriteError::InvalidOutput));
    assert_eq!(finish(vec![0xc3]), Err(RewriteError::InvalidOutput));
    assert_eq!(finish(vec![0xed, 0xa0, 0x80]), Err(RewriteError::InvalidOutput));
}

#[test]
fn text_in_an_ignored_tag_is_not_handled() {
    let ignore = selector(Some(vec!["pre".to_string(), "code".to_string()]));
    assert!(!handles_text(&ignore, &stack(&["div", "pre"]), "text"));
    assert!(!handles_text(&ignore, &stack(&["code"]), "text"));
    assert!(handles_text(&ignore, &stack(&["pre", "b"]), "text"));
    assert!(handles_text(&ignore, &stack(&["div"]), "text"));
    assert!(handles_text(&ignore, &stack(&[]), "text"));
}

#[test]
fn empty_chunks_are_not_handled() {
    let ignore = selector(Some(vec!["pre".to_string()]));
    assert!(!handles_text(&ignore, &stack(&["div"]), ""));
    assert!(!handles_text(&selector(None), &stack(&["div"]), ""));
    assert!(handles_text(&selector(None), &stack(&["pre"]), " "));
    assert!(handles_text(&selector(Some(vec![])), &stack(&["pre"]), "x"));
}

#[test]
fn first_pass_has_the_callbacks_of_the_sanitizer() {
    assert_eq!(counts(Some(sanitizer(true, true)), vec![]), (0, 1));
    assert_eq!(counts(Some(sanitizer(false, true)), vec![]), (1, 1));
    assert_eq!(counts(Some(sanitizer(true, false)), vec![]), (1, 1));
    assert_eq!(counts(Some(sanitizer(false, false)), vec![]), (2, 1));
    assert_eq!(counts(Some(SelmaSanitizer::new(&Config::new()).ok().unwrap()), vec![]), (1, 1));
}

#[test]
fn first_pass_has_the_callbacks_of_each_handler() {
    assert_eq!(counts(None, vec![handler(Some("p"), None)]), (0, 2));
    assert_eq!(counts(None, vec![handler(None, Some("p"))]), (0, 2));
    assert_eq!(counts(None, vec![handler(Some("p"), Some("b"))]), (0, 3));
    assert_eq!(
        counts(
            Some(sanitizer(false, false)),
            vec![handler(Some("p"), Some("b")), handler(Some("i"), None)]
        ),
        (2, 6)
    );
}

#[test]
fn first_pass_is_refused_for_a_selector_that_is_not_valid() {
    let unchecked = match SelmaSelector::from_checked(None, true, Some("b[".to_string()), true, None) {
        Ok(s) => s,
        Err(_) => panic!("refused"),
    };
    let rewriter = match SelmaRewriter::new(
        None,
        vec![handler(Some("p"), None), Handler::new(unchecked, Quiet, false)],
        &vec![],
    ) {
        Ok(r) => r,
        Err(_) => panic!("refused"),
    };
    assert_eq!(rewriter.configure_first_pass().err(), Some(RewriteError::Configuration("b[".to_string())));
    let mut settings = lol_html::Settings::default();
    assert_eq!(
        rewriter.add_handlers(&mut settings),
        Err(RewriteError::Configuration("b[".to_string()))
    );
}

#[test]
fn final_pass_has_the_filter_alone() {
    let sanitizer = sanitizer(false, false);
    match SelmaRewriter::<Quiet>::configure_final_pass(&sanitizer) {
        Ok(settings) => {
            assert_eq!(settings.document_content_handlers.len(), 0);
            assert_eq!(settings.element_content_handlers.len(), 1);
        }
        Err(_) => panic!("the final pass was refused"),
    };
}

#[test]
fn handlers_are_added_behind_what_the_settings_hold() {
    let rewriter = match SelmaRewriter::new(
        None,
        vec![handler(Some("p"), Some("b"))],
        &vec![],
    ) {
        Ok(r) => r,
        Err(_) => panic!("refused"),
    };
    let mut settings = lol_html::Settings::default();
    assert_eq!(rewriter.add_handlers(&mut settings), Ok(()));
    assert_eq!(rewriter.add_handlers(&mut settings), Ok(()));
    assert_eq!(settings.element_content_handlers.len(), 6);
    assert_eq!(settings.document_content_handlers.len(), 0);
}

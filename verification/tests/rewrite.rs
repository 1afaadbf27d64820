use lol_html::html_content::{ContentType, Element, EndTag, TextChunk};
use selma::config::{
    AttributeGrant, Config, ProtocolEntry, ProtocolGrant, ProtocolList, RemoveContents,
};
use selma::rewriter::{Callbacks, Handler, MemoryValue, RewriterOption, SelmaRewriter};
use selma::sanitizer::SelmaSanitizer;
use selma::selector::SelmaSelector;
use selma::session::RewriteError;
use std::cell::RefCell;

struct Quiet;

impl Callbacks for Quiet {
    fn handle_element(&self, _element: &mut Element, _ancestors: &Vec<String>) -> Result<(), String> {
        Ok(())
    }

    fn handle_text_chunk(&self, _text_chunk: &mut TextChunk) -> Result<(), String> {
        Ok(())
    }

    fn on_end_tag(&self, _end_tag: &mut EndTag) -> Result<(), String> {
        Ok(())
    }
}

struct Recorder {
    log: RefCell<Vec<String>>,
}

impl Callbacks for Recorder {
    fn handle_element(&self, element: &mut Element, ancestors: &Vec<String>) -> Result<(), String> {
        self.log.borrow_mut().push(format!("element {} in {}", element.tag_name(), ancestors.join(">")));
        Ok(())
    }

    fn handle_text_chunk(&self, text_chunk: &mut TextChunk) -> Result<(), String> {
        self.log.borrow_mut().push(format!("text {}", text_chunk.as_str()));
        Ok(())
    }

    fn on_end_tag(&self, end_tag: &mut EndTag) -> Result<(), String> {
        self.log.borrow_mut().push(format!("end {}", end_tag.name()));
        Ok(())
    }
}

fn names(list: &[&str]) -> Vec<String> {
    list.iter().map(|s| s.to_string()).collect()
}

fn rewriter_for(config: &Config) -> SelmaRewriter<Quiet> {
    let sanitizer = match SelmaSanitizer::new(config) {
        Ok(s) => s,
        Err(_) => panic!("the configuration was refused"),
    };
    match SelmaRewriter::<Quiet>::new(Some(sanitizer), vec![], &vec![]) {
        Ok(r) => r,
        Err(_) => panic!("the rewriter was refused"),
    }
}

fn sanitize(config: &Config, html: &str) -> String {
    match rewriter_for(config).rewrite(html.to_string()) {
        Ok(out) => out,
        Err(e) => panic!("the rewrite failed: {:?}", e),
    }
}

fn selector(element: Option<&str>, text: Option<&str>, ignore: Option<Vec<String>>) -> SelmaSelector {
    match SelmaSelector::new(element.map(|s| s.to_string()), text.map(|s| s.to_string()), ignore) {
        Ok(s) => s,
        Err(_) => panic!("the selector was refused"),
    }
}

fn link_config() -> Config {
    let mut config = Config::new();
    config.elements = names(&["a"]);
    config.attributes = vec![AttributeGrant { element: "a".to_string(), attributes: names(&["href"]) }];
    config.protocols = vec![ProtocolGrant {
        element: "a".to_string(),
        attribute: "href".to_string(),
        protocols: ProtocolList::List(vec![
            ProtocolEntry::Scheme("http".to_string()),
            ProtocolEntry::Scheme("https".to_string()),
        ]),
    }];
    config
}

#[test]
fn script_goes_with_what_it_holds() {
    let mut config = Config::new();
    config.elements = names(&["p", "b"]);
    assert_eq!(
        sanitize(&config, "<p>Hi <script>evil()</script> there</p>"),
        "<p>Hi  there</p>"
    );
}

#[test]
fn href_with_a_scheme_that_is_not_listed_is_dropped() {
    assert_eq!(sanitize(&link_config(), "<a href=\"javascript:alert(1)\">x</a>"), "<a>x</a>");
}

#[test]
fn href_with_a_listed_scheme_is_escaped() {
    assert_eq!(
        sanitize(&link_config(), "<a href=\"HTTPS://example.com/a?b=1&c=2\">x</a>"),
        "<a href=\"HTTPS://example.com/a?b=1&amp;c=2\">x</a>"
    );
    assert_eq!(
        sanitize(&link_config(), "<a href='http://x/ é' onclick=steal()>x</a>"),
        "<a href=\"http://x/%20%C3%A9\">x</a>"
    );
}

struct Renamer;

impl Callbacks for Renamer {
    fn handle_element(&self, element: &mut Element, _ancestors: &Vec<String>) -> Result<(), String> {
        element.set_tag_name("strong").map_err(|e| e.to_string())
    }

    fn handle_text_chunk(&self, _text_chunk: &mut TextChunk) -> Result<(), String> {
        Ok(())
    }

    fn on_end_tag(&self, _end_tag: &mut EndTag) -> Result<(), String> {
        Ok(())
    }
}

#[test]
fn handler_renames_the_elements_it_matches() {
    let handler = Handler::new(selector(Some("b"), None, None), Renamer, false);
    let rewriter = match SelmaRewriter::new(None, vec![handler], &vec![]) {
        Ok(r) => r,
        Err(_) => panic!("the rewriter was refused"),
    };
    assert_eq!(rewriter.rewrite("<b>hi</b>".to_string()), Ok("<strong>hi</strong>".to_string()));
    assert_eq!(
        rewriter.rewrite("<p><b>hi</b> <i>there</i></p>".to_string()),
        Ok("<p><strong>hi</strong> <i>there</i></p>".to_string())
    );
}

#[test]
fn nested_angle_brackets_do_not_smuggle_a_script() {
    let mut config = Config::new();
    config.elements = names(&["p"]);
    assert_eq!(sanitize(&config, "<<a>script>alert(1)</script>"), "");
    assert_eq!(sanitize(&config, "<p>a</p><<a>script>alert(1)</script><p>b</p>"), "<p>a</p><p>b</p>");
}

#[test]
fn first_pass_alone_lets_the_smuggled_script_through() {
    let mut config = Config::new();
    config.elements = names(&["p"]);
    config.escape_tagfilter = Some(false);
    assert_eq!(sanitize(&config, "<<a>script>alert(1)</script>"), "<script>alert(1)</script>");
}

#[test]
fn final_pass_removes_escapeworthy_tags_even_where_they_are_allowed() {
    let mut config = Config::new();
    config.elements = names(&["p", "iframe", "title", "textarea"]);
    assert_eq!(
        sanitize(&config, "<title>t</title><p>a</p><iframe>b</iframe><textarea>c</textarea>"),
        "<p>a</p>"
    );
    config.escape_tagfilter = Some(false);
    assert_eq!(
        sanitize(&config, "<title>t</title><p>a</p><iframe>b</iframe><textarea>c</textarea>"),
        "<title>t</title><p>a</p><iframe> </iframe><textarea>c</textarea>"
    );
}

#[test]
fn comments_and_doctype_follow_their_switches() {
    let mut config = Config::new();
    config.elements = names(&["p"]);
    assert_eq!(sanitize(&config, "<!DOCTYPE html><!-- c --><p>a<!-- d --></p>"), "<!DOCTYPE html><p>a</p>");
    config.allow_comments = Some(true);
    config.allow_doctype = Some(false);
    assert_eq!(sanitize(&config, "<!DOCTYPE html><!-- c --><p>a<!-- d --></p>"), "<!-- c --><p>a<!-- d --></p>");
}

#[test]
fn elements_go_as_their_flags_say() {
    let mut config = Config::new();
    config.elements = names(&["p", "span"]);
    config.remove_contents = RemoveContents::Elements(names(&["em"]));
    config.whitespace_elements = names(&["div", "br", "em"]);
    assert_eq!(
        sanitize(
            &config,
            "<div>a<em>b</em>c<br>d</div><i>e</i><unknown-tag>f</unknown-tag><p>g</p><svg><b>h</b></svg><math>i</math><style>j</style>"
        ),
        " ac d ef<p>g</p>"
    );
}

#[test]
fn attributes_are_sanitized_in_place() {
    let mut config = Config::new();
    config.elements = names(&["a", "img", "meta"]);
    config.attributes = vec![AttributeGrant {
        element: "all".to_string(),
        attributes: names(&["class", "title", "src", "charset"]),
    }];
    assert_eq!(
        sanitize(&config, "<a class=\"a b\" title='x\"y&lt;z' onclick=\"steal()\">x</a>"),
        "<a class=\"a b\" title=\"x&quot;y&lt;z\">x</a>"
    );
    assert_eq!(sanitize(&config, "<img src=x onerror=alert(1)>"), "<img src=\"x\">");
    assert_eq!(sanitize(&config, "<a title=\" http://x\">x</a>"), "<a>x</a>");
    assert_eq!(sanitize(&config, "<a title>x</a>"), "<a title>x</a>");
    assert_eq!(
        sanitize(&config, "<meta charset=\"latin1\"><meta charset=\"utf-8\" title=\"a&b\">"),
        "<meta charset=\"utf-8\"><meta charset=\"utf-8\" title=\"a&b\">"
    );
}

#[test]
fn of_a_repeated_attribute_the_first_is_judged_and_one_is_left() {
    let mut config = link_config();
    config.attributes[0].attributes.push("title".to_string());
    assert_eq!(
        sanitize(&config, "<a href=\"http://x\" title=\"t\" href=\"javascript:alert(1)\">x</a>"),
        "<a title=\"t\" href=\"http://x\">x</a>"
    );
    assert_eq!(
        sanitize(&config, "<a href=\"javascript:alert(1)\" title=\"t\" href=\"http://x\">x</a>"),
        "<a title=\"t\">x</a>"
    );
    assert_eq!(
        sanitize(&config, "<a HREF=\"http://x\" href=\"http://y\">x</a>"),
        "<a href=\"http://x\">x</a>"
    );
}

#[test]
fn repeated_charset_and_class_are_judged_like_single_ones() {
    let mut store = selma::store::Sanitizer::new();
    store.set_flag("meta", 1, true);
    store.set_flag("p", 1, true);
    store.allow_attribute("all", "charset");
    store.allow_attribute("all", "class");
    store.allow_class("all", "note");
    let rewriter = match SelmaRewriter::<Quiet>::new(
        Some(SelmaSanitizer::from_store(store)),
        vec![],
        &vec![],
    ) {
        Ok(r) => r,
        Err(_) => panic!("the rewriter was refused"),
    };
    assert_eq!(
        rewriter.rewrite("<meta charset=\"utf-7\" charset=\"utf-8\">".to_string()),
        Ok("<meta charset=\"utf-8\">".to_string())
    );
    assert_eq!(
        rewriter.rewrite("<p class=\"note evil\" class=\"evil\">a</p>".to_string()),
        Ok("<p class=\"note\">a</p>".to_string())
    );
}

#[test]
fn attribute_name_that_opens_a_comment_takes_the_element() {
    let mut config = Config::new();
    config.elements = names(&["div", "p"]);
    assert_eq!(sanitize(&config, "<p>a</p><div <!-- x -->=\"1\">y</div>z"), "<p>a</p>z");
}

#[test]
fn class_tokens_are_filtered_in_the_output() {
    let mut store = selma::store::Sanitizer::new();
    store.set_flag("p", 1, true);
    store.allow_attribute("all", "class");
    store.allow_class("all", "note");
    store.allow_class("p", "big");
    let rewriter = match SelmaRewriter::<Quiet>::new(
        Some(SelmaSanitizer::from_store(store)),
        vec![],
        &vec![],
    ) {
        Ok(r) => r,
        Err(_) => panic!("the rewriter was refused"),
    };
    assert_eq!(
        rewriter.rewrite("<p class=\" big  evil note \">a</p><p class=\"evil\">b</p>".to_string()),
        Ok("<p class=\"big note\">a</p><p>b</p>".to_string())
    );
}

#[test]
fn output_of_a_rewrite_passes_unchanged_through_the_next() {
    let mut config = link_config();
    config.elements = names(&["a", "p", "b"]);
    config.whitespace_elements = names(&["div"]);
    let inputs = [
        "<p>Hi <script>evil()</script> there</p>",
        "<a href=\"http://x/?a=1&b=2\" onclick=x>x</a><div>y</div>",
        "<!-- c --><p>a &amp; b</p><<a>script>alert(1)</script>",
    ];
    for input in inputs.iter() {
        let once = sanitize(&config, input);
        assert_eq!(sanitize(&config, &once), once, "{}", input);
    }
}

#[test]
fn unfinished_tag_at_the_end_is_not_part_of_the_output() {
    let mut config = Config::new();
    config.elements = names(&["p"]);
    assert_eq!(sanitize(&config, "<p>unfinished <b"), "<p>unfinished ");
    assert_eq!(sanitize(&config, "plain text"), "plain text");
    assert_eq!(sanitize(&config, ""), "");
}

#[test]
fn handlers_see_elements_text_and_end_tags_in_document_order() {
    let handler = Handler::new(
        selector(Some("p, b"), Some("p"), Some(names(&["b"]))),
        Recorder { log: RefCell::new(vec![]) },
        true,
    );
    let rewriter = match SelmaRewriter::new(None, vec![handler], &vec![]) {
        Ok(r) => r,
        Err(_) => panic!("the rewriter was refused"),
    };
    let html = "<div><p>one <b>two</b> three<br>four</p></div><P CLASS=x>five</P>";
    assert_eq!(rewriter.rewrite(html.to_string()), Ok(html.to_string()));
    assert_eq!(
        *rewriter.get_handlers()[0].callbacks().log.borrow(),
        vec![
            "element p in div",
            "text one ",
            "element b in div>p",
            "end b",
            "text  three",
            "text four",
            "end p",
            "element p in ",
            "text five",
            "end p",
        ]
    );
}

#[test]
fn end_tags_are_not_reported_unless_asked_for() {
    let handler = Handler::new(
        selector(Some("p"), None, None),
        Recorder { log: RefCell::new(vec![]) },
        false,
    );
    let rewriter = match SelmaRewriter::new(None, vec![handler], &vec![]) {
        Ok(r) => r,
        Err(_) => panic!("the rewriter was refused"),
    };
    assert_eq!(rewriter.rewrite("<p>a</p>".to_string()), Ok("<p>a</p>".to_string()));
    assert_eq!(*rewriter.get_handlers()[0].callbacks().log.borrow(), vec!["element p in "]);
}

struct Shouter;

impl Callbacks for Shouter {
    fn handle_element(&self, element: &mut Element, _ancestors: &Vec<String>) -> Result<(), String> {
        element.before("[", ContentType::Text);
        element.after("]", ContentType::Text);
        Ok(())
    }

    fn handle_text_chunk(&self, text_chunk: &mut TextChunk) -> Result<(), String> {
        let upper = text_chunk.as_str().to_uppercase();
        text_chunk.replace(&upper, ContentType::Text);
        Ok(())
    }

    fn on_end_tag(&self, end_tag: &mut EndTag) -> Result<(), String> {
        end_tag.before("!", ContentType::Text);
        Ok(())
    }
}

#[test]
fn handlers_run_after_the_sanitizer_on_every_element() {
    let mut config = Config::new();
    config.elements = names(&["p", "b"]);
    let sanitizer = match SelmaSanitizer::new(&config) {
        Ok(s) => s,
        Err(_) => panic!("the configuration was refused"),
    };
    let handler = Handler::new(selector(Some("b, i"), Some("b"), None), Shouter, true);
    let rewriter = match SelmaRewriter::new(Some(sanitizer), vec![handler], &vec![]) {
        Ok(r) => r,
        Err(_) => panic!("the rewriter was refused"),
    };
    assert_eq!(
        rewriter.rewrite("<p onclick=x>a <b>b</b> <i>c</i></p>".to_string()),
        Ok("<p>a [<b>B!</b>] [c!]</p>".to_string())
    );
}

struct Failing;

impl Callbacks for Failing {
    fn handle_element(&self, _element: &mut Element, _ancestors: &Vec<String>) -> Result<(), String> {
        Err("no".to_string())
    }

    fn handle_text_chunk(&self, _text_chunk: &mut TextChunk) -> Result<(), String> {
        Err("no text".to_string())
    }

    fn on_end_tag(&self, _end_tag: &mut EndTag) -> Result<(), String> {
        Ok(())
    }
}

#[test]
fn failing_handler_fails_the_rewrite() {
    let rewriter = match SelmaRewriter::new(
        None,
        vec![Handler::new(selector(Some("i"), None, None), Failing, false)],
        &vec![],
    ) {
        Ok(r) => r,
        Err(_) => panic!("the rewriter was refused"),
    };
    assert_eq!(
        rewriter.rewrite("<p><i>x</i></p>".to_string()),
        Err(RewriteError::Handler("no".to_string()))
    );
    assert_eq!(rewriter.rewrite("<p>x</p>".to_string()), Ok("<p>x</p>".to_string()));
    let rewriter = match SelmaRewriter::new(
        None,
        vec![Handler::new(selector(None, Some("i"), None), Failing, false)],
        &vec![],
    ) {
        Ok(r) => r,
        Err(_) => panic!("the rewriter was refused"),
    };
    assert_eq!(
        rewriter.rewrite("<p><i>x</i></p>".to_string()),
        Err(RewriteError::Handler("no text".to_string()))
    );
}

#[test]
fn handler_whose_selector_was_never_checked_fails_the_rewrite() {
    let unchecked = match SelmaSelector::from_checked(Some("a[".to_string()), true, None, true, None) {
        Ok(s) => s,
        Err(_) => panic!("refused"),
    };
    let rewriter = match SelmaRewriter::new(
        None,
        vec![Handler::new(unchecked, Quiet, false)],
        &vec![],
    ) {
        Ok(r) => r,
        Err(_) => panic!("the rewriter was refused"),
    };
    assert_eq!(
        rewriter.rewrite("<p>x</p>".to_string()),
        Err(RewriteError::Configuration("a[".to_string()))
    );
}

#[test]
fn rewrite_stops_when_the_memory_is_used_up() {
    let options = vec![RewriterOption {
        key: "memory".to_string(),
        max_allowed_memory_usage: MemoryValue::Given(20),
        preallocated_parsing_buffer_size: MemoryValue::Given(10),
    }];
    let mut config = Config::new();
    config.elements = names(&["p"]);
    let sanitizer = match SelmaSanitizer::new(&config) {
        Ok(s) => s,
        Err(_) => panic!("the configuration was refused"),
    };
    let rewriter = match SelmaRewriter::<Quiet>::new(Some(sanitizer), vec![], &options) {
        Ok(r) => r,
        Err(_) => panic!("the rewriter was refused"),
    };
    let long = format!("<p class=\"{}", "a".repeat(200));
    assert_eq!(rewriter.rewrite(long), Err(RewriteError::ResourceExhausted));
}

#[test]
fn buffer_that_no_vector_can_hold_fails_the_rewrite() {
    let options = vec![RewriterOption {
        key: "memory".to_string(),
        max_allowed_memory_usage: MemoryValue::Absent,
        preallocated_parsing_buffer_size: MemoryValue::Given(u64::MAX),
    }];
    match SelmaRewriter::<Quiet>::new(Some(SelmaSanitizer::new(&Config::new()).ok().unwrap()), vec![], &options) {
        Ok(rewriter) => {
            assert_eq!(rewriter.rewrite("<p>x</p>".to_string()), Err(RewriteError::ResourceExhausted))
        }
        Err(e) => assert_eq!(e, selma::rewriter::RewriterError::InvalidPreallocatedParsingBufferSize),
    }
}

#[test]
fn default_sanitizer_allows_no_element() {
    let rewriter = match SelmaRewriter::<Quiet>::new(Some(SelmaSanitizer::new(&Config::new()).ok().unwrap()), vec![], &vec![]) {
        Ok(r) => r,
        Err(_) => panic!("the rewriter was refused"),
    };
    assert_eq!(
        rewriter.rewrite("<!DOCTYPE html><p>a <b>b</b><!-- c --></p>".to_string()),
        Ok("<!DOCTYPE html>a b".to_string())
    );
}

struct Inspector {
    sanitizer: SelmaSanitizer,
    step: &'static str,
    log: RefCell<Vec<String>>,
}

impl Callbacks for Inspector {
    fn handle_element(&self, element: &mut Element, _ancestors: &Vec<String>) -> Result<(), String> {
        let answer = match self.step {
            "allow_element" => format!("{}", self.sanitizer.allow_element(element)),
            "try_remove_element" => format!("{}", self.sanitizer.try_remove_element(element)),
            "force_remove_element" => {
                self.sanitizer.force_remove_element(element);
                String::new()
            }
            "escape_tagfilter" => format!("{}", self.sanitizer.escape_tagfilter(element)),
            "sanitize_attributes" => format!("{:?}", self.sanitizer.sanitize_attributes(element).is_ok()),
            _ => format!("{:?}", self.sanitizer.sanitize_element(element).is_ok()),
        };
        let names: Vec<String> = element.attributes().iter().map(|a| a.name()).collect();
        self.log.borrow_mut().push(format!(
            "{} {} removed={} [{}]",
            element.tag_name(),
            answer,
            element.removed(),
            names.join(" ")
        ));
        Ok(())
    }

    fn handle_text_chunk(&self, _text_chunk: &mut TextChunk) -> Result<(), String> {
        Ok(())
    }

    fn on_end_tag(&self, _end_tag: &mut EndTag) -> Result<(), String> {
        Ok(())
    }
}

fn inspect(step: &'static str, html: &str) -> (String, Vec<String>) {
    let mut config = link_config();
    config.elements = names(&["a", "p"]);
    config.whitespace_elements = names(&["div"]);
    config.attributes[0].attributes.push("title".to_string());
    let sanitizer = match SelmaSanitizer::new(&config) {
        Ok(s) => s,
        Err(_) => panic!("the configuration was refused"),
    };
    let handler = Handler::new(
        selector(Some("*"), None, None),
        Inspector { sanitizer, step, log: RefCell::new(vec![]) },
        false,
    );
    let rewriter = match SelmaRewriter::new(None, vec![handler], &vec![]) {
        Ok(r) => r,
        Err(_) => panic!("the rewriter was refused"),
    };
    let out = match rewriter.rewrite(html.to_string()) {
        Ok(out) => out,
        Err(e) => panic!("the rewrite failed: {:?}", e),
    };
    let log = rewriter.get_handlers()[0].callbacks().log.borrow().clone();
    (out, log)
}

#[test]
fn allow_element_tells_which_elements_have_to_go() {
    let (out, log) = inspect("allow_element", "<p>a<b>b</b></p><script>c</script>");
    assert_eq!(out, "<p>a<b>b</b></p><script>c</script>");
    assert_eq!(
        log,
        vec!["p false removed=false []", "b true removed=false []", "script true removed=false []"]
    );
}

#[test]
fn try_remove_element_removes_what_is_not_allowed() {
    let (out, log) = inspect("try_remove_element", "<p id=x>a<b>b</b><div>c</div></p><script>d</script>");
    assert_eq!(out, "<p id=x>ab c </p>");
    assert_eq!(
        log,
        vec![
            "p false removed=false [id]",
            "b true removed=true []",
            "div true removed=true []",
            "script true removed=true []"
        ]
    );
}

#[test]
fn force_remove_element_removes_even_what_is_allowed() {
    let (out, log) = inspect("force_remove_element", "x<p>a<b>b</b></p>y<br>z");
    assert_eq!(out, "xyz");
    assert_eq!(log, vec!["p  removed=true []", "b  removed=true []", "br  removed=true []"]);
}

#[test]
fn escape_tagfilter_removes_escapeworthy_elements_only() {
    let (out, log) = inspect("escape_tagfilter", "<p>a</p><title>t</title><b>b</b><xmp>x</xmp>");
    assert_eq!(out, "<p>a</p><b>b</b>");
    assert_eq!(
        log,
        vec![
            "p false removed=false []",
            "title true removed=true []",
            "b false removed=false []",
            "xmp true removed=true []"
        ]
    );
}

#[test]
fn sanitize_attributes_leaves_the_attributes_that_survive() {
    let (out, log) = inspect(
        "sanitize_attributes",
        "<a href=\"http://x\" onclick=y title=\"\" id=i TITLE=t2>a</a><p <!--=1 id=x>b</p>",
    );
    assert_eq!(out, "<a href=\"http://x\" TITLE=\"\">a</a>");
    assert_eq!(log, vec!["a true removed=false [href title]", "p true removed=true [<!-- id]"]);
}

#[test]
fn sanitize_element_removes_or_sanitizes() {
    let (out, log) = inspect(
        "sanitize_element",
        "<a href=\"javascript:x\" title=ok>a</a><i title=ok>b</i>",
    );
    assert_eq!(out, "<a title=\"ok\">a</a>b");
    assert_eq!(log, vec!["a true removed=false [title]", "i true removed=true [title]"]);
}

#[test]
fn markup_that_the_parser_cannot_read_in_one_way_fails_the_rewrite() {
    let mut config = Config::new();
    config.elements = names(&["p"]);
    let result = rewriter_for(&config).rewrite("<select><xmp>a</xmp></select>".to_string());
    assert!(matches!(result, Err(RewriteError::ParsingAmbiguity(_))), "{:?}", result);
}

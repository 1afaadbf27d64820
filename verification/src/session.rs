//! One rewrite: the passes of the parser over a document, with the
//! sanitizer and the handlers as its callbacks.

use crate::ancestors::{holds_no_void, is_tracked, step, AncestorStack, TagEvent};
use crate::engine::{
    can_have_content, element_attributes, element_edits, element_end_tag_calls,
    element_has_end_tag, element_removed, element_tag_name, tag_name, EndTagCall,
};
use crate::policy::Policy;
use crate::rewriter::{Callbacks, Handler, MemoryOptions, RewriterOptions, SelmaRewriter};
use crate::sanitizer::SelmaSanitizer;
use crate::selector::{is_valid_selector, SelmaSelector};
use crate::tags::escapeworthy_tags_css;
use lol_html::errors::{AttributeNameError, RewritingError, SelectorError};
use lol_html::html_content::{Element, EndTag, TextChunk};
use lol_html::{
    DocumentContentHandlers, ElementContentHandlers, HtmlRewriter, MemorySettings, Selector,
    Settings,
};
use std::borrow::Cow;
use std::cell::RefCell;
use std::rc::Rc;
use std::string::FromUtf8Error;
use vstd::prelude::*;
use vstd::utf8::{decode_utf8, encode_utf8, valid_utf8};

verus! {

/// The callbacks and options of one pass of the parser.
#[verifier::external_type_specification]
#[verifier::external_body]
pub struct ExSettings<'h, 's>(Settings<'h, 's>);

/// Why a pass of the parser failed.
#[verifier::external_type_specification]
#[verifier::external_body]
pub struct ExRewritingError(RewritingError);

/// Why bytes are no UTF-8.
#[verifier::external_type_specification]
#[verifier::external_body]
pub struct ExFromUtf8Error(FromUtf8Error);

/// A cell whose content is borrowed at run time.
#[verifier::external_type_specification]
#[verifier::external_body]
#[verifier::reject_recursive_types(T)]
pub struct ExRefCell<T: ?Sized>(RefCell<T>);

/// Why a rewrite failed. No output is returned with any of these.
#[derive(Debug, PartialEq, Eq)]
pub enum RewriteError {
    /// A selector that the parser does not accept; it is held here.
    Configuration(String),
    /// The parser refused an attribute that the sanitizer set.
    ProtocolOrAttribute(String),
    /// The parser would have needed more memory than it is allowed.
    ResourceExhausted,
    /// A callback of a handler failed; what it said is held here.
    Handler(String),
    /// The parser cannot tell how a browser would read the document.
    ParsingAmbiguity(String),
    /// The output is not UTF-8.
    InvalidOutput,
}

/// The stack of one handler, shared by the callbacks that read and fill it.
pub type SharedStack = Rc<RefCell<AncestorStack>>;

/// `Rc::new` and `RefCell::new` around `stack`.
#[verifier::external_body]
pub(crate) fn share_stack(stack: AncestorStack) -> (r: SharedStack) {
    Rc::new(RefCell::new(stack))
}

/// What `after` is when one more call was registered for the end tag of
/// `before`: where the element has an end tag, the call is the last of its
/// calls; where it has none, nothing is registered. Nothing else changes.
pub open spec fn registered_for_end_tag(before: &Element, after: &Element, call: EndTagCall) -> bool {
    &&& element_end_tag_calls(after) == if element_has_end_tag(before) {
        element_end_tag_calls(before).push(call)
    } else {
        element_end_tag_calls(before)
    }
    &&& element_edits(after) == element_edits(before)
    &&& element_tag_name(after) == element_tag_name(before)
    &&& element_has_end_tag(after) == element_has_end_tag(before)
    &&& element_removed(after) == element_removed(before)
    &&& element_attributes(after) == element_attributes(before)
}

/// Adds to `Element::end_tag_handlers` a handler that takes the innermost
/// name off the shared stack, where the element has an end tag at all.
#[verifier::external_body]
pub(crate) fn close_at_end_tag(element: &mut Element, stack: &SharedStack)
    ensures
        element_end_tag_calls(final(element)) == if element_has_end_tag(old(element)) {
            element_end_tag_calls(old(element)).push(EndTagCall::Pop)
        } else {
            element_end_tag_calls(old(element))
        },
        element_edits(final(element)) == element_edits(old(element)),
        element_tag_name(final(element)) == element_tag_name(old(element)),
        element_has_end_tag(final(element)) == element_has_end_tag(old(element)),
        element_removed(final(element)) == element_removed(old(element)),
        element_attributes(final(element)) == element_attributes(old(element)),
{
    if let Some(handlers) = element.end_tag_handlers() {
        let stack = Rc::clone(stack);
        handlers.push(Box::new(move |_end_tag| {
            stack.borrow_mut().close();
            Ok(())
        }));
    }
}

/// Adds to `Element::end_tag_handlers` a handler that calls `on_end_tag` of
/// `callbacks`, where the element has an end tag at all.
#[verifier::external_body]
pub(crate) fn call_at_end_tag<C: Callbacks + 'static>(element: &mut Element, callbacks: &Rc<C>)
    ensures
        registered_for_end_tag(old(element), final(element), EndTagCall::OnEndTag),
{
    if let Some(handlers) = element.end_tag_handlers() {
        let callbacks = Rc::clone(callbacks);
        handlers.push(Box::new(move |end_tag| {
            process_end_tag(&*callbacks, end_tag).map_err(|e| e.into())
        }));
    }
}

/// The text of a chunk: what `TextChunk::as_str` returns.
pub uninterp spec fn chunk_text(text_chunk: &TextChunk) -> Seq<char>;

/// `TextChunk::as_str`, copied.
#[verifier::external_body]
pub(crate) fn text_content(text_chunk: &TextChunk) -> (r: String)
    ensures
        r@ == chunk_text(text_chunk),
{
    text_chunk.as_str().to_string()
}

/// What a callback for documents does.
pub enum DocumentCallback {
    /// It calls `remove_doctype` of the sanitizer with this policy.
    RemoveDoctypes(Policy),
    /// It calls `remove_comment` of the sanitizer with this policy.
    RemoveComments(Policy),
}

/// What a callback for elements, or for the text in them, does.
pub enum ElementCallback {
    /// It calls `sanitize_element` of the sanitizer with this policy.
    Sanitize(Policy),
    /// It calls `escape_tagfilter` of the sanitizer with this policy.
    Filter(Policy),
    /// It calls `process_element_handlers` for this handler.
    HandleElement(SelmaSelector, bool),
    /// It calls `process_text_handlers` for this handler.
    HandleText(SelmaSelector),
    /// It calls `track_element`.
    Track,
}

/// A callback with the selector of the elements that it is called for.
pub struct Registration {
    pub selector: Seq<char>,
    pub callback: ElementCallback,
}

/// The callbacks for documents that `settings` holds, in the order in which
/// they were added: what `Settings::document_content_handlers` holds.
pub uninterp spec fn document_callbacks(settings: &Settings) -> Seq<DocumentCallback>;

/// The callbacks for elements that `settings` holds, in the order in which
/// they were added: what `Settings::element_content_handlers` holds. The
/// parser calls them in this order.
pub uninterp spec fn element_callbacks(settings: &Settings) -> Seq<Registration>;

/// `Settings::default`: no callback, UTF-8, the parser's own memory
/// settings.
#[verifier::external_body]
pub(crate) fn empty_settings<'h, 's>() -> (r: Settings<'h, 's>)
    ensures
        document_callbacks(&r) == Seq::<DocumentCallback>::empty(),
        element_callbacks(&r) == Seq::<Registration>::empty(),
{
    Settings::default()
}

/// Appends to `Settings::document_content_handlers` a handler that calls
/// `remove_doctype` for each doctype.
#[verifier::external_body]
pub(crate) fn remove_doctypes<'h>(settings: &mut Settings<'h, '_>, sanitizer: &'h SelmaSanitizer)
    ensures
        document_callbacks(final(settings)) == document_callbacks(old(settings)).push(
            DocumentCallback::RemoveDoctypes(sanitizer@),
        ),
        element_callbacks(final(settings)) == element_callbacks(old(settings)),
{
    settings.document_content_handlers.push(
        DocumentContentHandlers::default().doctype(move |doctype| {
            sanitizer.remove_doctype(doctype);
            Ok(())
        }),
    );
}

/// Appends to `Settings::document_content_handlers` a handler that calls
/// `remove_comment` for each comment.
#[verifier::external_body]
pub(crate) fn remove_comments<'h>(settings: &mut Settings<'h, '_>, sanitizer: &'h SelmaSanitizer)
    ensures
        document_callbacks(final(settings)) == document_callbacks(old(settings)).push(
            DocumentCallback::RemoveComments(sanitizer@),
        ),
        element_callbacks(final(settings)) == element_callbacks(old(settings)),
{
    settings.document_content_handlers.push(
        DocumentContentHandlers::default().comments(move |comment| {
            sanitizer.remove_comment(comment);
            Ok(())
        }),
    );
}

/// What `settings` holds after `callback` was registered for `css`: one
/// more callback for elements if the selector is valid, and what it held
/// before if not.
pub open spec fn registered(
    before: &Settings,
    after: &Settings,
    css: Seq<char>,
    callback: ElementCallback,
) -> bool {
    &&& document_callbacks(after) == document_callbacks(before)
    &&& element_callbacks(after) == if is_valid_selector(css) {
        element_callbacks(before).push(Registration { selector: css, callback })
    } else {
        element_callbacks(before)
    }
}

/// Parses `css` and appends to `Settings::element_content_handlers` a
/// handler that calls `sanitize_element` for each element that the selector
/// selects. It fails, and appends nothing, where `css` is no valid
/// selector.
#[verifier::external_body]
pub(crate) fn sanitize_elements<'h>(
    settings: &mut Settings<'h, '_>,
    css: &str,
    sanitizer: &'h SelmaSanitizer,
) -> (r: Result<(), SelectorError>)
    ensures
        r is Ok == is_valid_selector(css@),
        registered(old(settings), final(settings), css@, ElementCallback::Sanitize(sanitizer@)),
{
    let selector = css.parse::<Selector>()?;
    let handlers = ElementContentHandlers::default().element(move |element| {
        sanitizer.sanitize_element(element).map_err(|e| e.into())
    });
    settings.element_content_handlers.push((Cow::Owned(selector), handlers));
    Ok(())
}

/// Parses `css` and appends to `Settings::element_content_handlers` a
/// handler that calls `escape_tagfilter` for each element that the selector
/// selects. It fails, and appends nothing, where `css` is no valid
/// selector.
#[verifier::external_body]
pub(crate) fn filter_elements<'h>(
    settings: &mut Settings<'h, '_>,
    css: &str,
    sanitizer: &'h SelmaSanitizer,
) -> (r: Result<(), SelectorError>)
    ensures
        r is Ok == is_valid_selector(css@),
        registered(old(settings), final(settings), css@, ElementCallback::Filter(sanitizer@)),
{
    let selector = css.parse::<Selector>()?;
    let handlers = ElementContentHandlers::default().element(move |element| {
        sanitizer.escape_tagfilter(element);
        Ok(())
    });
    settings.element_content_handlers.push((Cow::Owned(selector), handlers));
    Ok(())
}

/// Parses `css` and appends to `Settings::element_content_handlers` a
/// handler that calls `process_element_handlers` for each element that the
/// selector selects. It fails, and appends nothing, where `css` is no
/// valid selector.
#[verifier::external_body]
pub(crate) fn dispatch_elements<'h, C: Callbacks + 'static>(
    settings: &mut Settings<'h, '_>,
    css: &str,
    handler: &'h Handler<C>,
    stack: &SharedStack,
) -> (r: Result<(), SelectorError>)
    ensures
        r is Ok == is_valid_selector(css@),
        registered(
            old(settings),
            final(settings),
            css@,
            ElementCallback::HandleElement(handler.selector(), handler.handles_end_tags()),
        ),
{
    let selector = css.parse::<Selector>()?;
    let stack = Rc::clone(stack);
    let handlers = ElementContentHandlers::default().element(move |element| {
        process_element_handlers(handler, element, &stack.borrow()).map_err(|e| e.into())
    });
    settings.element_content_handlers.push((Cow::Owned(selector), handlers));
    Ok(())
}

/// Parses `css` and appends to `Settings::element_content_handlers` a
/// handler that calls `process_text_handlers` for each chunk of text inside
/// an element that the selector selects. It fails, and appends nothing,
/// where `css` is no valid selector.
#[verifier::external_body]
pub(crate) fn dispatch_text<'h, C: Callbacks + 'static>(
    settings: &mut Settings<'h, '_>,
    css: &str,
    handler: &'h Handler<C>,
    stack: &SharedStack,
) -> (r: Result<(), SelectorError>)
    ensures
        r is Ok == is_valid_selector(css@),
        registered(
            old(settings),
            final(settings),
            css@,
            ElementCallback::HandleText(handler.selector()),
        ),
{
    let selector = css.parse::<Selector>()?;
    let stack = Rc::clone(stack);
    let handlers = ElementContentHandlers::default().text(move |text_chunk| {
        process_text_handlers(handler, text_chunk, &stack.borrow()).map_err(|e| e.into())
    });
    settings.element_content_handlers.push((Cow::Owned(selector), handlers));
    Ok(())
}

/// Parses `css` and appends to `Settings::element_content_handlers` a
/// handler that calls `track_element` for each element that the selector
/// selects. It fails, and appends nothing, where `css` is no valid
/// selector.
#[verifier::external_body]
pub(crate) fn track_elements(settings: &mut Settings<'_, '_>, css: &str, stack: &SharedStack) -> (r:
    Result<(), SelectorError>)
    ensures
        r is Ok == is_valid_selector(css@),
        registered(old(settings), final(settings), css@, ElementCallback::Track),
{
    let selector = css.parse::<Selector>()?;
    let stack = Rc::clone(stack);
    let handlers = ElementContentHandlers::default().element(move |element| {
        track_element(&stack, &mut stack.borrow_mut(), element);
        Ok(())
    });
    settings.element_content_handlers.push((Cow::Owned(selector), handlers));
    Ok(())
}

/// What one pass of the parser writes out for the input `html`, with these
/// callbacks and these sizes of memory, where no callback is a handler's:
/// the bytes, or nothing where the pass fails. With the sanitizer's
/// callbacks alone a pass depends on nothing but these.
pub uninterp spec fn pass_output(
    documents: Seq<DocumentCallback>,
    elements: Seq<Registration>,
    preallocated: usize,
    allowed: usize,
    html: Seq<u8>,
) -> Option<Seq<u8>>;

/// Whether no callback of `elements` calls a handler.
pub open spec fn calls_no_handler(elements: Seq<Registration>) -> bool {
    forall|i: int|
        0 <= i < elements.len() ==> !((#[trigger] elements[i]).callback is HandleElement)
            && !(elements[i].callback is HandleText)
}

/// The bytes that a pass wrote, if it did not fail.
pub open spec fn written(r: Result<Vec<u8>, RewritingError>) -> Option<Seq<u8>> {
    match r {
        Ok(bytes) => Some(bytes@),
        Err(_) => None,
    }
}

/// One pass of the parser: `HtmlRewriter::new` with `settings` and the
/// sizes of `memory`, and one `HtmlRewriter::write` of the whole input. The
/// result is what the parser wrote out; where no callback is a handler's,
/// it is named by `pass_output`. `HtmlRewriter::new` panics where the
/// parsing buffer is larger than the memory allowed, or than a vector can
/// be.
#[verifier::external_body]
pub(crate) fn run_pass(settings: Settings<'_, '_>, memory: &MemoryOptions, html: &[u8]) -> (r:
    Result<Vec<u8>, RewritingError>)
    requires
        memory.preallocated_parsing_buffer_size <= memory.max_allowed_memory_usage,
        memory.preallocated_parsing_buffer_size <= isize::MAX,
    ensures
        calls_no_handler(element_callbacks(&settings)) ==> written(r) == pass_output(
            document_callbacks(&settings),
            element_callbacks(&settings),
            memory.preallocated_parsing_buffer_size,
            memory.max_allowed_memory_usage,
            html@,
        ),
{
    let mut settings = settings;
    settings.memory_settings = MemorySettings {
        preallocated_parsing_buffer_size: memory.preallocated_parsing_buffer_size,
        max_allowed_memory_usage: memory.max_allowed_memory_usage,
    };
    let mut output = vec![];
    let mut rewriter = HtmlRewriter::new(settings, |c: &[u8]| output.extend_from_slice(c));
    rewriter.write(html)?;
    drop(rewriter);
    Ok(output)
}

/// Tells the variants of `RewritingError` apart. A failed content handler
/// is the sanitizer's where it carries an `AttributeNameError`, and a
/// callback's otherwise.
#[verifier::external_body]
pub(crate) fn classify(error: RewritingError) -> (r: RewriteError)
    ensures
        r is ResourceExhausted || r is ParsingAmbiguity || r is ProtocolOrAttribute || r is Handler,
{
    match error {
        RewritingError::MemoryLimitExceeded(_) => RewriteError::ResourceExhausted,
        RewritingError::ParsingAmbiguity(e) => RewriteError::ParsingAmbiguity(e.to_string()),
        RewritingError::ContentHandlerError(e) => if e.is::<AttributeNameError>() {
            RewriteError::ProtocolOrAttribute(e.to_string())
        } else {
            RewriteError::Handler(e.to_string())
        },
    }
}

/// `String::from_utf8`: the text that `bytes` encode, where they are UTF-8.
#[verifier::external_body]
pub(crate) fn string_from_utf8(bytes: Vec<u8>) -> (r: Result<String, FromUtf8Error>)
    ensures
        r is Ok == valid_utf8(bytes@),
        r is Ok ==> r->Ok_0@ == decode_utf8(bytes@),
{
    String::from_utf8(bytes)
}

/// Whether a handler is called for a chunk of text: not for text directly
/// inside one of the tags that it ignores, and not for an empty chunk.
pub open spec fn text_is_handled(
    ignore: Option<Seq<Seq<char>>>,
    stack: Seq<Seq<char>>,
    content: Seq<char>,
) -> bool {
    !(ignore is Some && stack.len() > 0 && ignore->Some_0.contains(stack.last())) && content.len()
        > 0
}

/// Whether a handler with the match criteria `selector` is called for a
/// chunk of text that holds `content`, with `ancestors` open.
pub fn handles_text(selector: &SelmaSelector, ancestors: &AncestorStack, content: &str) -> (r: bool)
    ensures
        r == text_is_handled(selector@.ignore_text_within, ancestors@, content@),
{
    match selector.ignore_text_within() {
        Some(tags) => {
            if ancestors.innermost_is_one_of(&tags) {
                return false;
            }
        },
        None => {},
    }
    content.unicode_len() > 0
}

/// Calls `on_end_tag` with the end tag, and answers what it answers.
pub fn process_end_tag<C: Callbacks>(callbacks: &C, end_tag: &mut EndTag) -> (r: Result<
    (),
    String,
>)
    ensures
        callbacks.end_tag_handled(old(end_tag), final(end_tag), r),
{
    callbacks.on_end_tag(end_tag)
}

/// The calls for the end tag of an element as a handler finds them: one
/// more than before, the call of the handler's `on_end_tag`, exactly where
/// the handler has one and the element has an end tag.
pub open spec fn calls_handed<C: Callbacks>(handler: Handler<C>, element: &Element) -> Seq<
    EndTagCall,
> {
    if handler.handles_end_tags() && element_has_end_tag(element) {
        element_end_tag_calls(element).push(EndTagCall::OnEndTag)
    } else {
        element_end_tag_calls(element)
    }
}

/// Calls `handle_element` of `handler` with the element and with the names
/// of the open elements, outermost first, and answers what it answers.
/// Where the handler has an `on_end_tag`, the call of it is registered for
/// the end tag first, and not otherwise; nothing else of the element
/// changes before the handler has it.
pub fn process_element_handlers<C: Callbacks + 'static>(
    handler: &Handler<C>,
    element: &mut Element,
    ancestors: &AncestorStack,
) -> (r: Result<(), String>)
    ensures
        handler.held().element_handled(
            element_tag_name(old(element)),
            element_removed(old(element)),
            element_attributes(old(element)),
            element_edits(old(element)),
            calls_handed(*handler, old(element)),
            ancestors@,
            final(element),
            r,
        ),
{
    if handler.has_on_end_tag() {
        call_at_end_tag(element, handler.callbacks());
    }
    let names = ancestors.snapshot();
    handler.callbacks().handle_element(element, &names)
}

/// Calls `handle_text_chunk` of `handler` with the chunk, and answers what
/// it answers, unless the text is directly inside a tag that the handler
/// ignores, or the chunk is empty: then the chunk stays as it is and the
/// answer is `Ok`.
pub fn process_text_handlers<C: Callbacks>(
    handler: &Handler<C>,
    text_chunk: &mut TextChunk,
    ancestors: &AncestorStack,
) -> (r: Result<(), String>)
    ensures
        !text_is_handled(
            handler.selector()@.ignore_text_within,
            ancestors@,
            chunk_text(old(text_chunk)),
        ) ==> r is Ok && chunk_text(final(text_chunk)) == chunk_text(old(text_chunk)),
        text_is_handled(
            handler.selector()@.ignore_text_within,
            ancestors@,
            chunk_text(old(text_chunk)),
        ) ==> handler.held().text_handled(old(text_chunk), final(text_chunk), r),
{
    let content = text_content(text_chunk);
    if !handles_text(handler.get_selector(), ancestors, content.as_str()) {
        return Ok(());
    }
    handler.callbacks().handle_text_chunk(text_chunk)
}

/// What the tracker does at each start tag. `open` is the stack that
/// `stack` shares. The name of the element goes on it, in lower case, and
/// the call that takes it off again is registered for the end tag, unless
/// the element is not tracked: it is a void element, or the parser hands
/// out no end tag for it. Nothing else of the element changes.
pub fn track_element(stack: &SharedStack, open: &mut AncestorStack, element: &mut Element)
    ensures
        final(open)@ == step(
            old(open)@,
            TagEvent::Open {
                name: element_tag_name(old(element)),
                has_end_tag: element_has_end_tag(old(element)),
            },
        ),
        holds_no_void(old(open)@) ==> holds_no_void(final(open)@),
        element_end_tag_calls(final(element)) == if is_tracked(
            element_tag_name(old(element)),
            element_has_end_tag(old(element)),
        ) {
            element_end_tag_calls(old(element)).push(EndTagCall::Pop)
        } else {
            element_end_tag_calls(old(element))
        },
        element_edits(final(element)) == element_edits(old(element)),
        element_tag_name(final(element)) == element_tag_name(old(element)),
        element_removed(final(element)) == element_removed(old(element)),
        element_attributes(final(element)) == element_attributes(old(element)),
        element_has_end_tag(final(element)) == element_has_end_tag(old(element)),
{
    let name = tag_name(element);
    let has_end_tag = can_have_content(element);
    let pushed = open.open(name.as_str(), has_end_tag);
    if pushed {
        close_at_end_tag(element, stack);
    }
}

/// The callbacks for documents of the first pass: a sanitizer removes the
/// doctype unless it allows it, and comments unless it allows them.
pub open spec fn first_pass_documents(policy: Option<Policy>) -> Seq<DocumentCallback> {
    match policy {
        None => Seq::empty(),
        Some(policy) => (if policy.allow_doctype {
            Seq::empty()
        } else {
            seq![DocumentCallback::RemoveDoctypes(policy)]
        }) + (if policy.allow_comments {
            Seq::empty()
        } else {
            seq![DocumentCallback::RemoveComments(policy)]
        }),
    }
}

/// The callbacks of one handler: its element callback if it matches
/// elements, its text callback if it matches text, and the tracker of its
/// ancestor stack, which comes last and so sees an element after the
/// handler did.
pub open spec fn callbacks_of<C: Callbacks>(handler: Handler<C>) -> Seq<Registration> {
    let selector = handler.selector();
    (match selector@.match_element {
        Some(css) => seq![
            Registration {
                selector: css,
                callback: ElementCallback::HandleElement(selector, handler.handles_end_tags()),
            },
        ],
        None => Seq::empty(),
    }) + (match selector@.match_text_within {
        Some(css) => seq![
            Registration { selector: css, callback: ElementCallback::HandleText(selector) },
        ],
        None => Seq::empty(),
    }) + seq![Registration { selector: "*"@, callback: ElementCallback::Track }]
}

/// The callbacks of the handlers before index `upto`, handler by handler.
pub open spec fn handler_callbacks<C: Callbacks>(handlers: Seq<Handler<C>>, upto: int) -> Seq<
    Registration,
>
    decreases upto,
{
    if upto <= 0 {
        Seq::empty()
    } else {
        handler_callbacks(handlers, upto - 1) + callbacks_of(handlers[upto - 1])
    }
}

/// The callbacks for elements of the first pass: the sanitizer first, on
/// every element, then the handlers in the order in which they were given.
pub open spec fn first_pass_elements<C: Callbacks>(
    policy: Option<Policy>,
    handlers: Seq<Handler<C>>,
) -> Seq<Registration> {
    (match policy {
        Some(policy) => seq![
            Registration { selector: "*"@, callback: ElementCallback::Sanitize(policy) },
        ],
        None => Seq::empty(),
    }) + handler_callbacks(handlers, handlers.len() as int)
}

/// The callbacks for elements of the final pass: the filter alone, on the
/// escape-worthy tags.
pub open spec fn final_pass_elements(policy: Policy) -> Seq<Registration> {
    seq![
        Registration {
            selector: "title, textarea, style, xmp, iframe, noembed, noframes, noscript, script, plaintext"@,
            callback: ElementCallback::Filter(policy),
        },
    ]
}

/// The first selector of `registrations` that is not valid, if there is
/// one: the selector at which the configuring of a pass stops.
pub open spec fn first_refused(registrations: Seq<Registration>) -> Option<Seq<char>>
    decreases registrations.len(),
{
    if registrations.len() == 0 {
        None
    } else {
        match first_refused(registrations.drop_last()) {
            Some(css) => Some(css),
            None => if is_valid_selector(registrations.last().selector) {
                None
            } else {
                Some(registrations.last().selector)
            },
        }
    }
}

/// The first selector of two runs of registrations that is not valid is
/// that of the first run, if it has one, and else that of the second.
pub proof fn lemma_first_refused_append(a: Seq<Registration>, b: Seq<Registration>)
    ensures
        first_refused(a + b) == match first_refused(a) {
            Some(css) => Some(css),
            None => first_refused(b),
        },
    decreases b.len(),
{
    if b.len() == 0 {
        assert(a + b =~= a);
    } else {
        assert((a + b).drop_last() =~= a + b.drop_last());
        assert((a + b).last() == b.last());
        lemma_first_refused_append(a, b.drop_last());
    }
}

/// The first selector of a single registration that is not valid.
pub proof fn lemma_first_refused_one(registration: Registration)
    ensures
        first_refused(seq![registration]) == if is_valid_selector(registration.selector) {
            None
        } else {
            Some(registration.selector)
        },
{
    let one = seq![registration];
    assert(one.drop_last() =~= Seq::<Registration>::empty());
    assert(one.last() == registration);
    assert(first_refused(one.drop_last()) is None);
}

/// A selector that is refused among the callbacks of the first handlers is
/// the one that is refused among the callbacks of all of them.
pub proof fn lemma_refused_stays<C: Callbacks>(handlers: Seq<Handler<C>>, upto: int, all: int)
    requires
        0 <= upto <= all,
        first_refused(handler_callbacks(handlers, upto)) is Some,
    ensures
        first_refused(handler_callbacks(handlers, all)) == first_refused(
            handler_callbacks(handlers, upto),
        ),
    decreases all - upto,
{
    if upto < all {
        lemma_refused_stays(handlers, upto, all - 1);
        lemma_first_refused_append(
            handler_callbacks(handlers, all - 1),
            callbacks_of(handlers[all - 1]),
        );
    }
}

/// Whether every selector that the first pass parses is valid: that of
/// every element, where there is a sanitizer or a handler, and those of
/// the handlers.
pub open spec fn first_pass_is_valid<C: Callbacks>(
    policy: Option<Policy>,
    handlers: Seq<Handler<C>>,
) -> bool {
    first_refused(first_pass_elements(policy, handlers)) is None
}

/// Whether the selector of the escape-worthy tags is valid.
pub open spec fn final_pass_is_valid() -> bool {
    is_valid_selector(
        "title, textarea, style, xmp, iframe, noembed, noframes, noscript, script, plaintext"@,
    )
}

/// What the configuring of a pass answers with `settings` for the
/// registrations `wanted`: the failure that holds the first selector that
/// is not valid, or else settings.
pub open spec fn stops_at_first_refused<T>(wanted: Seq<Registration>, r: Result<T, RewriteError>) -> bool {
    match first_refused(wanted) {
        Some(css) => r is Err && r->Err_0 is Configuration && r->Err_0->Configuration_0@ == css,
        None => r is Ok,
    }
}

/// Whether a rewrite ends with the final pass: it has a sanitizer, and the
/// sanitizer filters escape-worthy tags.
pub open spec fn final_pass_is_due(policy: Option<Policy>) -> bool {
    policy is Some && policy->Some_0.escape_tagfilter
}

/// What a rewrite returns for the bytes that its last pass wrote: the text
/// that they encode, or `InvalidOutput` where they are no UTF-8.
pub fn finish(output: Vec<u8>) -> (r: Result<String, RewriteError>)
    ensures
        valid_utf8(output@) ==> r is Ok && r->Ok_0@ == decode_utf8(output@),
        !valid_utf8(output@) ==> r is Err && r->Err_0 is InvalidOutput,
{
    match string_from_utf8(output) {
        Ok(text) => Ok(text),
        Err(_) => Err(RewriteError::InvalidOutput),
    }
}

/// The failure of a rewrite that met the selector `css`, which is not
/// valid.
fn refused(css: &str) -> (r: RewriteError)
    ensures
        r is Configuration,
        r->Configuration_0@ == css@,
{
    RewriteError::Configuration(css.to_owned())
}

/// What a pass under `options` writes for `html` with these callbacks.
pub open spec fn output_under(
    documents: Seq<DocumentCallback>,
    elements: Seq<Registration>,
    options: RewriterOptions,
    html: Seq<u8>,
) -> Option<Seq<u8>> {
    pass_output(
        documents,
        elements,
        options.memory_options.preallocated_parsing_buffer_size,
        options.memory_options.max_allowed_memory_usage,
        html,
    )
}

/// Whether `r` is what a pass answers that is named by `output`: the bytes,
/// or a failure of the parser.
pub open spec fn answers(output: Option<Seq<u8>>, r: Result<Vec<u8>, RewriteError>) -> bool {
    match output {
        Some(bytes) => r is Ok && r->Ok_0@ == bytes,
        None => r is Err && is_parser_failure(r->Err_0),
    }
}

/// The failures that come from a pass of the parser.
pub open spec fn is_parser_failure(error: RewriteError) -> bool {
    error is ResourceExhausted || error is ParsingAmbiguity || error is ProtocolOrAttribute
        || error is Handler
}

/// Whether `r` is what `finish` answers for `bytes`.
pub open spec fn finished(bytes: Seq<u8>, r: Result<String, RewriteError>) -> bool {
    if valid_utf8(bytes) {
        r is Ok && r->Ok_0@ == decode_utf8(bytes)
    } else {
        r is Err && r->Err_0 is InvalidOutput
    }
}

/// Whether `r` is what the final pass answers for what the first pass
/// wrote: that text itself where the sanitizer does not filter
/// escape-worthy tags; the failure that holds the selector of those tags
/// where it is not valid; and else the text that the pass writes, or the
/// failure of the parser.
pub open spec fn finally(
    policy: Policy,
    options: RewriterOptions,
    html: Seq<u8>,
    r: Result<String, RewriteError>,
) -> bool {
    if !policy.escape_tagfilter {
        finished(html, r)
    } else if !final_pass_is_valid() {
        stops_at_first_refused(final_pass_elements(policy), r)
    } else if options.memory_options.preallocated_parsing_buffer_size > isize::MAX {
        r is Err && r->Err_0 is ResourceExhausted
    } else {
        match output_under(Seq::empty(), final_pass_elements(policy), options, html) {
            Some(bytes) => finished(bytes, r),
            None => r is Err && is_parser_failure(r->Err_0),
        }
    }
}

/// Whether `r` is what a rewrite of `html` answers where the rewriter has a
/// sanitizer with this policy and no handler: the failure that holds the
/// first selector that is not valid; else the failure of the first pass;
/// else what the final pass answers for what the first pass wrote.
pub open spec fn sanitized<C: Callbacks>(
    policy: Policy,
    handlers: Seq<Handler<C>>,
    options: RewriterOptions,
    html: Seq<char>,
    r: Result<String, RewriteError>,
) -> bool {
    let elements = first_pass_elements(Some(policy), handlers);
    if first_refused(elements) is Some {
        stops_at_first_refused(elements, r)
    } else {
        match output_under(
            first_pass_documents(Some(policy)),
            elements,
            options,
            encode_utf8(html),
        ) {
            Some(bytes) => finally(policy, options, bytes, r),
            None => r is Err && is_parser_failure(r->Err_0),
        }
    }
}

impl<C: Callbacks + 'static> SelmaRewriter<C> {
    /// Whether the rewrite ends with the final pass.
    pub fn runs_final_pass(&self) -> (r: bool)
        ensures
            r == final_pass_is_due(self.policy()),
    {
        match self.sanitizer() {
            Some(sanitizer) => sanitizer.get_escape_tagfilter(),
            None => false,
        }
    }

    /// Appends the callbacks of the handlers to `settings`, handler by
    /// handler. It stops at the first selector that is not valid, and fails
    /// with it.
    pub fn add_handlers<'h>(&'h self, settings: &mut Settings<'h, '_>) -> (r: Result<
        (),
        RewriteError,
    >)
        ensures
            stops_at_first_refused(
                handler_callbacks(self.handlers(), self.handlers().len() as int),
                r,
            ),
            r is Ok ==> document_callbacks(final(settings)) == document_callbacks(old(settings))
                && element_callbacks(final(settings)) == element_callbacks(old(settings))
                + handler_callbacks(self.handlers(), self.handlers().len() as int),
    {
        let handlers = self.get_handlers();
        let mut i: usize = 0;
        assert(element_callbacks(settings) + handler_callbacks(self.handlers(), 0)
            =~= element_callbacks(settings));
        while i < handlers.len()
            invariant
                i <= handlers.len(),
                handlers@ == self.handlers(),
                first_refused(handler_callbacks(handlers@, i as int)) is None,
                document_callbacks(settings) == document_callbacks(old(settings)),
                element_callbacks(settings) == element_callbacks(old(settings))
                    + handler_callbacks(handlers@, i as int),
            decreases handlers.len() - i,
        {
            let handler = &handlers[i];
            let ghost before = element_callbacks(settings);
            let ghost done = handler_callbacks(handlers@, i as int);
            let ghost selector = handler.selector();
            let ghost for_elements: Seq<Registration> = match selector@.match_element {
                Some(css) => seq![
                    Registration {
                        selector: css,
                        callback: ElementCallback::HandleElement(
                            selector,
                            handler.handles_end_tags(),
                        ),
                    },
                ],
                None => Seq::empty(),
            };
            let ghost for_text: Seq<Registration> = match selector@.match_text_within {
                Some(css) => seq![
                    Registration { selector: css, callback: ElementCallback::HandleText(selector) },
                ],
                None => Seq::empty(),
            };
            let ghost tracker = Registration { selector: "*"@, callback: ElementCallback::Track };
            proof {
                assert(callbacks_of(handlers@[i as int]) == for_elements + for_text + seq![tracker]);
                lemma_first_refused_append(done, callbacks_of(handlers@[i as int]));
                lemma_first_refused_append(for_elements + for_text, seq![tracker]);
                lemma_first_refused_append(for_elements, for_text);
                lemma_first_refused_one(tracker);
                if for_elements.len() > 0 {
                    lemma_first_refused_one(for_elements[0]);
                    assert(for_elements =~= seq![for_elements[0]]);
                }
                if for_text.len() > 0 {
                    lemma_first_refused_one(for_text[0]);
                    assert(for_text =~= seq![for_text[0]]);
                }
            }
            let stack = share_stack(AncestorStack::new());
            match handler.get_selector().match_element() {
                Some(css) => {
                    if dispatch_elements(settings, css.as_str(), handler, &stack).is_err() {
                        proof {
                            lemma_refused_stays(handlers@, i + 1, handlers@.len() as int);
                        }
                        return Err(refused(css.as_str()));
                    }
                },
                None => {},
            }
            match handler.get_selector().match_text_within() {
                Some(css) => {
                    if dispatch_text(settings, css.as_str(), handler, &stack).is_err() {
                        proof {
                            lemma_refused_stays(handlers@, i + 1, handlers@.len() as int);
                        }
                        return Err(refused(css.as_str()));
                    }
                },
                None => {},
            }
            if track_elements(settings, "*", &stack).is_err() {
                proof {
                    lemma_refused_stays(handlers@, i + 1, handlers@.len() as int);
                }
                return Err(refused("*"));
            }
            assert(element_callbacks(settings) =~= before + callbacks_of(handlers@[i as int]));
            assert(before + callbacks_of(handlers@[i as int]) =~= element_callbacks(old(settings))
                + handler_callbacks(handlers@, i + 1));
            i += 1;
        }
        Ok(())
    }

    /// The callbacks of the first pass: those of the sanitizer, then those
    /// of the handlers. It stops at the first selector that is not valid,
    /// and fails with it.
    pub fn configure_first_pass<'h>(&'h self) -> (r: Result<Settings<'h, 'h>, RewriteError>)
        ensures
            stops_at_first_refused(first_pass_elements(self.policy(), self.handlers()), r),
            r is Ok == first_pass_is_valid(self.policy(), self.handlers()),
            r is Ok ==> document_callbacks(&r->Ok_0) == first_pass_documents(self.policy())
                && element_callbacks(&r->Ok_0) == first_pass_elements(
                self.policy(),
                self.handlers(),
            ),
            r is Err ==> r->Err_0 is Configuration,
    {
        let mut settings = empty_settings();
        let ghost of_handlers = handler_callbacks(self.handlers(), self.handlers().len() as int);
        let ghost of_sanitizer: Seq<Registration> = match self.policy() {
            Some(policy) => seq![
                Registration { selector: "*"@, callback: ElementCallback::Sanitize(policy) },
            ],
            None => Seq::empty(),
        };
        proof {
            assert(first_pass_elements(self.policy(), self.handlers()) == of_sanitizer
                + of_handlers);
            lemma_first_refused_append(of_sanitizer, of_handlers);
            if of_sanitizer.len() > 0 {
                lemma_first_refused_one(of_sanitizer[0]);
                assert(of_sanitizer =~= seq![of_sanitizer[0]]);
            }
        }
        match self.sanitizer() {
            None => {},
            Some(sanitizer) => {
                if !sanitizer.get_allow_doctype() {
                    remove_doctypes(&mut settings, sanitizer);
                }
                if !sanitizer.get_allow_comments() {
                    remove_comments(&mut settings, sanitizer);
                }
                assert(document_callbacks(&settings) =~= first_pass_documents(self.policy()));
                if sanitize_elements(&mut settings, "*", sanitizer).is_err() {
                    return Err(refused("*"));
                }
            },
        }
        let ghost before = element_callbacks(&settings);
        assert(before =~= of_sanitizer);
        match self.add_handlers(&mut settings) {
            Ok(_) => {},
            Err(e) => {
                return Err(e);
            },
        }
        assert(element_callbacks(&settings) =~= first_pass_elements(
            self.policy(),
            self.handlers(),
        ));
        Ok(settings)
    }

    /// The callbacks of the final pass. It fails where the selector of the
    /// escape-worthy tags is not valid.
    pub fn configure_final_pass<'h>(sanitizer: &'h SelmaSanitizer) -> (r: Result<
        Settings<'h, 'h>,
        RewriteError,
    >)
        ensures
            stops_at_first_refused(final_pass_elements(sanitizer@), r),
            r is Ok == final_pass_is_valid(),
            r is Ok ==> document_callbacks(&r->Ok_0) == Seq::<DocumentCallback>::empty()
                && element_callbacks(&r->Ok_0) == final_pass_elements(sanitizer@),
            r is Err ==> r->Err_0 is Configuration,
    {
        let mut settings = empty_settings();
        proof {
            lemma_first_refused_one(final_pass_elements(sanitizer@)[0]);
            assert(final_pass_elements(sanitizer@) =~= seq![final_pass_elements(sanitizer@)[0]]);
        }
        let css = escapeworthy_tags_css();
        if filter_elements(&mut settings, css, sanitizer).is_err() {
            return Err(refused(css));
        }
        assert(element_callbacks(&settings) =~= final_pass_elements(sanitizer@));
        Ok(settings)
    }

    /// Rewrites `html`. The first pass runs with the callbacks of
    /// `configure_first_pass`: it sanitizes each element and then calls the
    /// handlers, each in the order in which it was given. Where the final
    /// pass is due, it runs over what the first pass wrote, with the
    /// callbacks of `configure_final_pass`. The result is what the last pass
    /// wrote. What the parser still holds back at the end of the input, such
    /// as a tag that is not finished, is not part of it.
    ///
    /// A parsing buffer that no vector can hold fails the rewrite before
    /// anything else. Then the first selector that is not valid fails it,
    /// and nothing else fails it with `Configuration`. For a rewriter
    /// without handlers the result is the text that `sanitized` names.
    pub fn rewrite(&self, html: String) -> (r: Result<String, RewriteError>)
        ensures
            self.options().memory_options.preallocated_parsing_buffer_size > isize::MAX ==> r
                is Err && r->Err_0 is ResourceExhausted,
            self.options().memory_options.preallocated_parsing_buffer_size <= isize::MAX
                && first_refused(first_pass_elements(self.policy(), self.handlers()))
                is Some ==> stops_at_first_refused(
                first_pass_elements(self.policy(), self.handlers()),
                r,
            ),
            r is Err && r->Err_0 is Configuration ==> !first_pass_is_valid(
                self.policy(),
                self.handlers(),
            ) || (final_pass_is_due(self.policy()) && !final_pass_is_valid()),
            self.options().memory_options.preallocated_parsing_buffer_size <= isize::MAX
                && self.handlers().len() == 0 && self.policy() is Some ==> sanitized(
                self.policy()->Some_0,
                self.handlers(),
                self.options(),
                html@,
                r,
            ),
    {
        if self.get_options().memory_options.preallocated_parsing_buffer_size > isize::MAX as usize {
            return Err(RewriteError::ResourceExhausted);
        }
        let rewritten = self.perform_handler_rewrite(html.as_str())?;
        match self.sanitizer() {
            None => finish(rewritten),
            Some(sanitizer) => self.perform_final_sanitization(sanitizer, rewritten),
        }
    }

    /// The final pass: where the sanitizer filters escape-worthy tags, the
    /// parser runs once more, over `html`, which the first pass wrote, and
    /// each element with such a tag is removed. The result is the text
    /// that the pass wrote, or `html` itself where the sanitizer does not
    /// filter.
    pub fn perform_final_sanitization(&self, sanitizer: &SelmaSanitizer, html: Vec<u8>) -> (r:
        Result<String, RewriteError>)
        ensures
            finally(sanitizer@, self.options(), html@, r),
    {
        if !sanitizer.get_escape_tagfilter() {
            return finish(html);
        }
        let settings = Self::configure_final_pass(sanitizer)?;
        let filtered = self.run_rewrite(settings, html.as_slice())?;
        finish(filtered)
    }

    /// The first pass: the parser runs over `html` with the callbacks of
    /// `configure_first_pass`. Where a selector of the first pass is not
    /// valid, the pass fails with the first such selector and the parser
    /// does not run. Where all are valid, what comes back is what
    /// `run_rewrite` answers for those callbacks and the bytes of `html`.
    pub fn perform_handler_rewrite(&self, html: &str) -> (r: Result<Vec<u8>, RewriteError>)
        ensures
            match first_refused(first_pass_elements(self.policy(), self.handlers())) {
                Some(css) => r is Err && r->Err_0 is Configuration && r->Err_0->Configuration_0@
                    == css,
                None => {
                    &&& r is Err ==> is_parser_failure(r->Err_0)
                    &&& self.options().memory_options.preallocated_parsing_buffer_size
                        > isize::MAX ==> r is Err && r->Err_0 is ResourceExhausted
                    &&& self.options().memory_options.preallocated_parsing_buffer_size
                        <= isize::MAX && self.handlers().len() == 0 ==> answers(
                        output_under(
                            first_pass_documents(self.policy()),
                            first_pass_elements(self.policy(), self.handlers()),
                            self.options(),
                            encode_utf8(html@),
                        ),
                        r,
                    )
                },
            },
    {
        let settings = self.configure_first_pass()?;
        self.run_rewrite(settings, html.as_bytes())
    }

    /// One pass of the parser over `html` with the callbacks of `settings`,
    /// under the rewriter's memory options. A parsing buffer that no vector
    /// can hold exhausts the memory before the pass begins. A failure is
    /// one of the parser's. Where no callback is a handler's, the result is
    /// what `pass_output` names.
    pub fn run_rewrite(&self, settings: Settings<'_, '_>, html: &[u8]) -> (r: Result<
        Vec<u8>,
        RewriteError,
    >)
        ensures
            self.options().memory_options.preallocated_parsing_buffer_size > isize::MAX ==> r
                is Err && r->Err_0 is ResourceExhausted,
            r is Err ==> is_parser_failure(r->Err_0),
            self.options().memory_options.preallocated_parsing_buffer_size <= isize::MAX
                && calls_no_handler(element_callbacks(&settings)) ==> answers(
                output_under(
                    document_callbacks(&settings),
                    element_callbacks(&settings),
                    self.options(),
                    html@,
                ),
                r,
            ),
    {
        let memory = self.get_options().memory_options;
        if memory.preallocated_parsing_buffer_size > isize::MAX as usize {
            return Err(RewriteError::ResourceExhausted);
        }
        match run_pass(settings, &memory, html) {
            Ok(output) => Ok(output),
            Err(error) => Err(classify(error)),
        }
    }
}

} // verus!

//! The rewrite session: what a rewriter is made of, and how it is checked
//! when it is built.

use crate::attributes::AttributeView;
use crate::edits::Edit;
use crate::engine::{
    element_attributes, element_edits, element_end_tag_calls, element_removed, element_tag_name,
    EndTagCall,
};
use crate::policy::Policy;
use crate::sanitizer::SelmaSanitizer;
use crate::text::{str_eq, strs};
use crate::selector::SelmaSelector;
use lol_html::html_content::{Element, EndTag, TextChunk};
use lol_html::MemorySettings;
use std::rc::Rc;
use vstd::prelude::*;

verus! {

/// The callbacks of a handler. The rewrite calls `handle_element` for each
/// element that the handler's `match_element` selects, `handle_text_chunk`
/// for each chunk of text inside an element that its `match_text_within`
/// selects, and `on_end_tag` for the end tag of each element that
/// `handle_element` was called for. A callback that fails ends the rewrite.
///
/// What a callback makes of a node, and what it answers, is the handler's
/// own business. The three relations stand for it in contracts, so that the
/// functions that call a callback can say that they did, with what, and
/// that they hand on what it answered. Nothing is known of a relation but
/// its name; a handler written outside verified code leaves them as they
/// are.
pub trait Callbacks {
    /// What `handle_element` makes of an element that had the tag name
    /// `tag`, the removal mark `removed`, the attributes `attrs`, the
    /// record `edits` of what was asked of it and the calls `calls` for its
    /// end tag, with `ancestors` open around it, and what it answers.
    open spec fn element_handled(
        &self,
        tag: Seq<char>,
        removed: bool,
        attrs: Seq<AttributeView>,
        edits: Seq<Edit>,
        calls: Seq<EndTagCall>,
        ancestors: Seq<Seq<char>>,
        after: &Element,
        result: Result<(), String>,
    ) -> bool {
        true
    }

    /// What `handle_text_chunk` makes of a chunk of text, and what it
    /// answers.
    open spec fn text_handled(
        &self,
        before: &TextChunk,
        after: &TextChunk,
        result: Result<(), String>,
    ) -> bool {
        true
    }

    /// What `on_end_tag` makes of an end tag, and what it answers.
    open spec fn end_tag_handled(
        &self,
        before: &EndTag,
        after: &EndTag,
        result: Result<(), String>,
    ) -> bool {
        true
    }

    /// Called with an element and the names of its open ancestors, outermost
    /// first.
    fn handle_element(&self, element: &mut Element, ancestors: &Vec<String>) -> (r: Result<
        (),
        String,
    >)
        ensures
            self.element_handled(
                element_tag_name(old(element)),
                element_removed(old(element)),
                element_attributes(old(element)),
                element_edits(old(element)),
                element_end_tag_calls(old(element)),
                strs(ancestors@),
                final(element),
                r,
            ),
    ;

    /// Called with a chunk of text that is not empty.
    fn handle_text_chunk(&self, text_chunk: &mut TextChunk) -> (r: Result<(), String>)
        ensures
            self.text_handled(old(text_chunk), final(text_chunk), r),
    ;

    /// Called with the end tag of an element.
    fn on_end_tag(&self, end_tag: &mut EndTag) -> (r: Result<(), String>)
        ensures
            self.end_tag_handled(old(end_tag), final(end_tag), r),
    ;
}

/// A selector with the callbacks that it selects nodes for.
pub struct Handler<C: Callbacks> {
    selector: SelmaSelector,
    callbacks: Rc<C>,
    handles_end_tags: bool,
}

impl<C: Callbacks> Handler<C> {
    /// Pairs `selector` with `callbacks`. `handles_end_tags` says whether
    /// `on_end_tag` is to be called at all.
    pub fn new(selector: SelmaSelector, callbacks: C, handles_end_tags: bool) -> (r: Handler<C>)
        ensures
            r.selector()@ == selector@,
            r.handles_end_tags() == handles_end_tags,
            r.held() == callbacks,
    {
        Handler { selector, callbacks: Rc::new(callbacks), handles_end_tags }
    }

    /// The match criteria of the handler.
    pub closed spec fn selector(&self) -> SelmaSelector {
        self.selector
    }

    /// Whether `on_end_tag` is called.
    pub closed spec fn handles_end_tags(&self) -> bool {
        self.handles_end_tags
    }

    /// The match criteria of the handler.
    pub fn get_selector(&self) -> (r: &SelmaSelector)
        ensures
            *r == self.selector(),
    {
        &self.selector
    }

    /// The callbacks that the handler holds.
    pub closed spec fn held(&self) -> C {
        *self.callbacks
    }

    /// The callbacks of the handler.
    pub fn callbacks(&self) -> (r: &Rc<C>)
        ensures
            **r == self.held(),
    {
        &self.callbacks
    }

    /// Whether `on_end_tag` is called.
    pub fn has_on_end_tag(&self) -> (r: bool)
        ensures
            r == self.handles_end_tags(),
    {
        self.handles_end_tags
    }
}

/// How much memory the parser may use.
#[derive(Clone, Copy, Debug, PartialEq, Eq, Structural)]
pub struct MemoryOptions {
    pub max_allowed_memory_usage: usize,
    pub preallocated_parsing_buffer_size: usize,
}

/// `lol_html::MemorySettings::default`: a parsing buffer of 1024 bytes and
/// no limit on memory.
#[verifier::external_body]
pub(crate) fn default_memory_options() -> (r: MemoryOptions)
    ensures
        r.preallocated_parsing_buffer_size == 1024,
        r.max_allowed_memory_usage == usize::MAX,
{
    let settings = MemorySettings::default();
    MemoryOptions {
        max_allowed_memory_usage: settings.max_allowed_memory_usage,
        preallocated_parsing_buffer_size: settings.preallocated_parsing_buffer_size,
    }
}

/// The options of a rewriter.
#[derive(Clone, Copy, Debug, PartialEq, Eq, Structural)]
pub struct RewriterOptions {
    pub memory_options: MemoryOptions,
}

impl RewriterOptions {
    /// The parser's own defaults.
    pub open spec fn defaults() -> RewriterOptions {
        RewriterOptions {
            memory_options: MemoryOptions {
                max_allowed_memory_usage: usize::MAX,
                preallocated_parsing_buffer_size: 1024,
            },
        }
    }

    /// The parser's own defaults.
    pub fn new() -> (r: RewriterOptions)
        ensures
            r == Self::defaults(),
    {
        RewriterOptions { memory_options: default_memory_options() }
    }
}

/// One size as the caller gave it.
#[derive(Clone, Copy, Debug, PartialEq, Eq, Structural)]
pub enum MemoryValue {
    /// The option was not given.
    Absent,
    /// What was given is no integer: the default stands in for it.
    NotAnInteger,
    /// An integer that is negative or too large.
    OutOfRange,
    Given(u64),
}

/// One entry of the options: its key, and the sizes given under it.
pub struct RewriterOption {
    pub key: String,
    pub max_allowed_memory_usage: MemoryValue,
    pub preallocated_parsing_buffer_size: MemoryValue,
}

/// Why a rewriter was not built.
#[derive(Debug, PartialEq, Eq)]
pub enum RewriterError {
    /// Neither a sanitizer nor a handler.
    NothingGiven,
    /// An option with a key other than `memory`; the key is held here.
    UnknownOption(String),
    /// `max_allowed_memory_usage` is out of range.
    InvalidMaxAllowedMemoryUsage,
    /// `preallocated_parsing_buffer_size` is out of range.
    InvalidPreallocatedParsingBufferSize,
    /// The parsing buffer alone is larger than all the memory allowed.
    BufferExceedsMemory,
}

/// What a `RewriterError` stands for in contracts.
pub enum RewriterFault {
    NothingGiven,
    UnknownOption(Seq<char>),
    InvalidMaxAllowedMemoryUsage,
    InvalidPreallocatedParsingBufferSize,
    BufferExceedsMemory,
}

impl View for RewriterError {
    type V = RewriterFault;

    open spec fn view(&self) -> RewriterFault {
        match self {
            RewriterError::NothingGiven => RewriterFault::NothingGiven,
            RewriterError::UnknownOption(key) => RewriterFault::UnknownOption(key@),
            RewriterError::InvalidMaxAllowedMemoryUsage => RewriterFault::InvalidMaxAllowedMemoryUsage,
            RewriterError::InvalidPreallocatedParsingBufferSize => RewriterFault::InvalidPreallocatedParsingBufferSize,
            RewriterError::BufferExceedsMemory => RewriterFault::BufferExceedsMemory,
        }
    }
}

impl RewriterFault {
    /// The sentence that tells the caller what to change.
    pub open spec fn message(self) -> Seq<char> {
        match self {
            RewriterFault::NothingGiven => "Must provide a sanitizer or a handler"@,
            RewriterFault::UnknownOption(key) => "Unknown option: "@ + key,
            RewriterFault::InvalidMaxAllowedMemoryUsage => "max_allowed_memory_usage must be a positive integer"@,
            RewriterFault::InvalidPreallocatedParsingBufferSize => "preallocated_parsing_buffer_size must be a positive integer"@,
            RewriterFault::BufferExceedsMemory => "max_allowed_memory_usage must be greater than preallocated_parsing_buffer_size"@,
        }
    }
}

impl RewriterError {
    /// The sentence that tells the caller what to change.
    pub fn message(&self) -> (r: String)
        ensures
            r@ == self@.message(),
    {
        match self {
            RewriterError::NothingGiven => "Must provide a sanitizer or a handler".to_owned(),
            RewriterError::UnknownOption(key) => {
                let mut r = "Unknown option: ".to_owned();
                r.append(key.as_str());
                r
            },
            RewriterError::InvalidMaxAllowedMemoryUsage => "max_allowed_memory_usage must be a positive integer".to_owned(),
            RewriterError::InvalidPreallocatedParsingBufferSize => "preallocated_parsing_buffer_size must be a positive integer".to_owned(),
            RewriterError::BufferExceedsMemory => "max_allowed_memory_usage must be greater than preallocated_parsing_buffer_size".to_owned(),
        }
    }
}

/// A size after one value was given for it: the value if it fits, the
/// default in place of what is no integer, the size as it was where nothing
/// was given, and nothing for an integer out of range.
pub open spec fn sized(current: usize, default: usize, value: MemoryValue) -> Option<usize> {
    match value {
        MemoryValue::Absent => Some(current),
        MemoryValue::NotAnInteger => Some(default),
        MemoryValue::OutOfRange => None,
        MemoryValue::Given(v) => if v <= usize::MAX {
            Some(v as usize)
        } else {
            None
        },
    }
}

/// The memory options after one entry, or why the entry is refused.
pub open spec fn with_option(current: MemoryOptions, entry: RewriterOption) -> Result<
    MemoryOptions,
    RewriterFault,
> {
    if entry.key@ != "memory"@ {
        Err(RewriterFault::UnknownOption(entry.key@))
    } else {
        match sized(
            current.max_allowed_memory_usage,
            usize::MAX,
            entry.max_allowed_memory_usage,
        ) {
            None => Err(RewriterFault::InvalidMaxAllowedMemoryUsage),
            Some(max) => match sized(
                current.preallocated_parsing_buffer_size,
                1024,
                entry.preallocated_parsing_buffer_size,
            ) {
                None => Err(RewriterFault::InvalidPreallocatedParsingBufferSize),
                Some(buffer) => Ok(
                    MemoryOptions {
                        max_allowed_memory_usage: max,
                        preallocated_parsing_buffer_size: buffer,
                    },
                ),
            },
        }
    }
}

/// The memory options after the entries of `entries`, in order, or why the
/// first entry that is refused is refused.
pub open spec fn with_options(start: MemoryOptions, entries: Seq<RewriterOption>) -> Result<
    MemoryOptions,
    RewriterFault,
>
    decreases entries.len(),
{
    if entries.len() == 0 {
        Ok(start)
    } else {
        match with_options(start, entries.drop_last()) {
            Err(fault) => Err(fault),
            Ok(current) => with_option(current, entries.last()),
        }
    }
}

/// The options of a rewriter that is given `entries`, or why none is built.
pub open spec fn checked_options(entries: Seq<RewriterOption>) -> Result<
    RewriterOptions,
    RewriterFault,
> {
    match with_options(RewriterOptions::defaults().memory_options, entries) {
        Err(fault) => Err(fault),
        Ok(memory) => if memory.preallocated_parsing_buffer_size
            > memory.max_allowed_memory_usage {
            Err(RewriterFault::BufferExceedsMemory)
        } else {
            Ok(RewriterOptions { memory_options: memory })
        },
    }
}

/// What a rewriter is made of.
pub struct Rewriter<C: Callbacks> {
    sanitizer: Option<SelmaSanitizer>,
    handlers: Vec<Handler<C>>,
    options: RewriterOptions,
}

/// A rewriter: a sanitizer, handlers, or both, and the options under which
/// the parser runs.
pub struct SelmaRewriter<C: Callbacks> {
    rewriter: Rewriter<C>,
}

/// Why no rewriter is built, if none is.
pub open spec fn rewriter_fault(
    without_sanitizer: bool,
    handlers: nat,
    options: Seq<RewriterOption>,
) -> Option<RewriterFault> {
    if without_sanitizer && handlers == 0 {
        Some(RewriterFault::NothingGiven)
    } else {
        match checked_options(options) {
            Err(fault) => Some(fault),
            Ok(_) => None,
        }
    }
}

/// The policy of the sanitizer that a rewriter is given, if it is given
/// one.
pub open spec fn chosen_policy(sanitizer: Option<SelmaSanitizer>) -> Option<Policy> {
    match sanitizer {
        None => None,
        Some(sanitizer) => Some(sanitizer@),
    }
}

/// One size after a value was given for it.
fn size_of(current: usize, default: usize, value: MemoryValue) -> (r: Option<usize>)
    ensures
        r == sized(current, default, value),
{
    match value {
        MemoryValue::Absent => Some(current),
        MemoryValue::NotAnInteger => Some(default),
        MemoryValue::OutOfRange => None,
        MemoryValue::Given(v) => if v <= usize::MAX as u64 {
            Some(v as usize)
        } else {
            None
        },
    }
}

impl<C: Callbacks> SelmaRewriter<C> {
    /// The sanitizer, if the rewriter has one.
    pub closed spec fn policy(&self) -> Option<Policy> {
        match self.rewriter.sanitizer {
            Some(sanitizer) => Some(sanitizer@),
            None => None,
        }
    }

    /// The handlers, in the order in which they were given.
    pub closed spec fn handlers(&self) -> Seq<Handler<C>> {
        self.rewriter.handlers@
    }

    /// The options under which the parser runs.
    pub closed spec fn options(&self) -> RewriterOptions {
        self.rewriter.options
    }

    /// A rewriter has something to do, and its parsing buffer fits in the
    /// memory that it allows.
    #[verifier::type_invariant]
    pub closed spec fn wf(&self) -> bool {
        &&& self.rewriter.sanitizer is Some || self.rewriter.handlers@.len() > 0
        &&& self.rewriter.options.memory_options.preallocated_parsing_buffer_size
            <= self.rewriter.options.memory_options.max_allowed_memory_usage
    }

    /// The sanitizer, if the rewriter has one.
    pub fn sanitizer(&self) -> (r: Option<&SelmaSanitizer>)
        ensures
            r is Some == self.policy() is Some,
            r is Some ==> r->Some_0@ == self.policy()->Some_0,
    {
        match &self.rewriter.sanitizer {
            Some(sanitizer) => Some(sanitizer),
            None => None,
        }
    }

    /// The handlers, in the order in which they were given.
    pub fn get_handlers(&self) -> (r: &Vec<Handler<C>>)
        ensures
            r@ == self.handlers(),
    {
        &self.rewriter.handlers
    }

    /// The options. The parsing buffer fits in the memory allowed.
    pub fn get_options(&self) -> (r: RewriterOptions)
        ensures
            r == self.options(),
            r.memory_options.preallocated_parsing_buffer_size
                <= r.memory_options.max_allowed_memory_usage,
    {
        proof {
            use_type_invariant(self);
        }
        self.rewriter.options
    }

    /// The memory options after one entry, or why the entry is refused.
    pub fn apply_option(current: MemoryOptions, entry: &RewriterOption) -> (r: Result<
        MemoryOptions,
        RewriterError,
    >)
        ensures
            match with_option(current, *entry) {
                Ok(memory) => r == Ok::<MemoryOptions, RewriterError>(memory),
                Err(fault) => r is Err && r->Err_0@ == fault,
            },
    {
        if !str_eq(entry.key.as_str(), "memory") {
            return Err(RewriterError::UnknownOption(entry.key.clone()));
        }
        let max = match size_of(
            current.max_allowed_memory_usage,
            usize::MAX,
            entry.max_allowed_memory_usage,
        ) {
            None => {
                return Err(RewriterError::InvalidMaxAllowedMemoryUsage);
            },
            Some(max) => max,
        };
        let buffer = match size_of(
            current.preallocated_parsing_buffer_size,
            1024,
            entry.preallocated_parsing_buffer_size,
        ) {
            None => {
                return Err(RewriterError::InvalidPreallocatedParsingBufferSize);
            },
            Some(buffer) => buffer,
        };
        Ok(MemoryOptions { max_allowed_memory_usage: max, preallocated_parsing_buffer_size: buffer })
    }

    /// Builds a rewriter. It needs a sanitizer or a handler, and is refused
    /// where it is given neither; every option has the key `memory`, with
    /// sizes in range; and the parsing buffer must fit in the memory
    /// allowed.
    pub fn new(
        sanitizer: Option<SelmaSanitizer>,
        handlers: Vec<Handler<C>>,
        options: &Vec<RewriterOption>,
    ) -> (r: Result<SelmaRewriter<C>, RewriterError>)
        ensures
            match rewriter_fault(sanitizer is None, handlers@.len(), options@) {
                Some(fault) => r is Err && r->Err_0@ == fault,
                None => r is Ok && r->Ok_0.wf() && r->Ok_0.policy() == chosen_policy(sanitizer)
                    && r->Ok_0.handlers() == handlers@ && Ok::<RewriterOptions, RewriterFault>(
                    r->Ok_0.options(),
                ) == checked_options(options@),
            },
    {
        let ghost without_sanitizer = sanitizer is None;
        let chosen = sanitizer;
        if chosen.is_none() && handlers.len() == 0 {
            return Err(RewriterError::NothingGiven);
        }
        let mut memory = RewriterOptions::new().memory_options;
        let mut i: usize = 0;
        assert(options@.take(0) =~= Seq::<RewriterOption>::empty());
        while i < options.len()
            invariant
                i <= options.len(),
                without_sanitizer == (sanitizer is None),
                !(without_sanitizer && handlers@.len() == 0),
                with_options(RewriterOptions::defaults().memory_options, options@.take(i as int))
                    == Ok::<MemoryOptions, RewriterFault>(memory),
            decreases options.len() - i,
        {
            proof {
                let next = options@.take(i + 1);
                assert(next.drop_last() =~= options@.take(i as int));
                assert(next.last() == options@[i as int]);
            }
            match Self::apply_option(memory, &options[i]) {
                Ok(updated) => {
                    memory = updated;
                },
                Err(e) => {
                    proof {
                        lemma_option_fault_stays(
                            RewriterOptions::defaults().memory_options,
                            options@,
                            i + 1,
                        );
                    }
                    return Err(e);
                },
            }
            i += 1;
        }
        assert(options@.take(options.len() as int) =~= options@);
        if memory.preallocated_parsing_buffer_size > memory.max_allowed_memory_usage {
            return Err(RewriterError::BufferExceedsMemory);
        }
        Ok(
            SelmaRewriter {
                rewriter: Rewriter {
                    sanitizer: chosen,
                    handlers,
                    options: RewriterOptions { memory_options: memory },
                },
            },
        )
    }
}

/// Once a prefix of the options holds a refused entry, the fault of the
/// whole is the fault of that prefix.
proof fn lemma_option_fault_stays(start: MemoryOptions, entries: Seq<RewriterOption>, k: int)
    requires
        0 <= k <= entries.len(),
        with_options(start, entries.take(k)) is Err,
    ensures
        with_options(start, entries) == with_options(start, entries.take(k)),
    decreases entries.len() - k,
{
    if k == entries.len() {
        assert(entries.take(k) =~= entries);
    } else {
        assert(entries.take(k + 1).drop_last() =~= entries.take(k));
        lemma_option_fault_stays(start, entries, k + 1);
    }
}

} // verus!

//! What a handler matches: an element selector, a selector of the elements
//! whose text it reads, and the tags in which it reads no text.

use crate::text::strs;
use lol_html::errors::SelectorError;
use lol_html::Selector;
use vstd::prelude::*;

verus! {

/// A selector that the parser has accepted.
#[verifier::external_type_specification]
#[verifier::external_body]
pub struct ExSelector(Selector);

/// Why the parser refuses a selector.
#[verifier::external_type_specification]
#[verifier::external_body]
pub struct ExSelectorError(SelectorError);

/// Whether `css` is a selector of the grammar that the parser supports:
/// whether `str::parse::<lol_html::Selector>` accepts it.
pub uninterp spec fn is_valid_selector(css: Seq<char>) -> bool;

/// `lol_html::Selector`'s `FromStr::from_str`. It succeeds on the strings
/// of `is_valid_selector`; nothing is claimed of the selector itself.
#[verifier::external_body]
pub(crate) fn parse_selector(css: &str) -> (r: Result<Selector, SelectorError>)
    ensures
        r is Ok == is_valid_selector(css@),
{
    css.parse::<Selector>()
}

/// Why a selector was refused.
#[derive(Debug, PartialEq, Eq)]
pub enum InvalidSelector {
    /// Neither `match_element` nor `match_text_within` was given.
    NoSelector,
    /// `match_element`, which is held here, is no valid selector.
    MatchElement(String),
    /// `match_text_within`, which is held here, is no valid selector.
    MatchTextWithin(String),
}

/// What an `InvalidSelector` stands for in contracts.
pub enum SelectorFault {
    NoSelector,
    MatchElement(Seq<char>),
    MatchTextWithin(Seq<char>),
}

impl View for InvalidSelector {
    type V = SelectorFault;

    open spec fn view(&self) -> SelectorFault {
        match self {
            InvalidSelector::NoSelector => SelectorFault::NoSelector,
            InvalidSelector::MatchElement(css) => SelectorFault::MatchElement(css@),
            InvalidSelector::MatchTextWithin(css) => SelectorFault::MatchTextWithin(css@),
        }
    }
}

impl SelectorFault {
    /// The sentence that tells the caller what to change.
    pub open spec fn message(self) -> Seq<char> {
        match self {
            SelectorFault::NoSelector => "Neither `match_element` nor `match_text_within` option given"@,
            SelectorFault::MatchElement(css) => "Could not parse `match_element` (`"@ + css
                + "`) as valid CSS"@,
            SelectorFault::MatchTextWithin(css) => "Could not parse `match_text_within` (`"@ + css
                + "`) as valid CSS"@,
        }
    }
}

/// Why a handler's match criteria are refused, if they are, once it is
/// known whether each given selector parses: `NoSelector` where none is
/// given, else the first given selector that does not parse.
pub open spec fn selector_fault(
    match_element: Option<Seq<char>>,
    match_element_parses: bool,
    match_text_within: Option<Seq<char>>,
    match_text_within_parses: bool,
) -> Option<SelectorFault> {
    if match_element is None && match_text_within is None {
        Some(SelectorFault::NoSelector)
    } else if match_element is Some && !match_element_parses {
        Some(SelectorFault::MatchElement(match_element->Some_0))
    } else if match_text_within is Some && !match_text_within_parses {
        Some(SelectorFault::MatchTextWithin(match_text_within->Some_0))
    } else {
        None
    }
}

impl InvalidSelector {
    /// The sentence that tells the caller what to change.
    pub fn message(&self) -> (r: String)
        ensures
            r@ == self@.message(),
    {
        match self {
            InvalidSelector::NoSelector => {
                "Neither `match_element` nor `match_text_within` option given".to_owned()
            },
            InvalidSelector::MatchElement(css) => {
                let mut r = "Could not parse `match_element` (`".to_owned();
                r.append(css.as_str());
                r.append("`) as valid CSS");
                r
            },
            InvalidSelector::MatchTextWithin(css) => {
                let mut r = "Could not parse `match_text_within` (`".to_owned();
                r.append(css.as_str());
                r.append("`) as valid CSS");
                r
            },
        }
    }
}

/// The match criteria of a handler.
pub struct SelmaSelector {
    match_element: Option<String>,
    match_text_within: Option<String>,
    ignore_text_within: Option<Vec<String>>,
}

/// What a `SelmaSelector` stands for in contracts.
pub struct SelectorView {
    pub match_element: Option<Seq<char>>,
    pub match_text_within: Option<Seq<char>>,
    pub ignore_text_within: Option<Seq<Seq<char>>>,
}

/// The text of an optional string.
pub open spec fn text_of(s: Option<String>) -> Option<Seq<char>> {
    match s {
        Some(s) => Some(s@),
        None => None,
    }
}

/// The names of an optional list of strings.
pub open spec fn names_of(list: Option<Vec<String>>) -> Option<Seq<Seq<char>>> {
    match list {
        Some(list) => Some(strs(list@)),
        None => None,
    }
}

/// Whether an optional selector is absent or valid.
pub open spec fn absent_or_valid(css: Option<Seq<char>>) -> bool {
    match css {
        Some(css) => is_valid_selector(css),
        None => true,
    }
}

impl View for SelmaSelector {
    type V = SelectorView;

    closed spec fn view(&self) -> SelectorView {
        SelectorView {
            match_element: text_of(self.match_element),
            match_text_within: text_of(self.match_text_within),
            ignore_text_within: names_of(self.ignore_text_within),
        }
    }
}

/// A copy of an optional string.
fn copy_text(s: &Option<String>) -> (r: Option<String>)
    ensures
        text_of(r) == text_of(*s),
{
    match s {
        Some(s) => Some(s.clone()),
        None => None,
    }
}

impl SelmaSelector {
    /// What `new` answers once it is known whether each given selector
    /// parses.
    pub fn from_checked(
        match_element: Option<String>,
        match_element_parses: bool,
        match_text_within: Option<String>,
        match_text_within_parses: bool,
        ignore_text_within: Option<Vec<String>>,
    ) -> (r: Result<SelmaSelector, InvalidSelector>)
        ensures
            match selector_fault(
                text_of(match_element),
                match_element_parses,
                text_of(match_text_within),
                match_text_within_parses,
            ) {
                Some(fault) => r is Err && r->Err_0@ == fault,
                None => r is Ok && r->Ok_0@ == (SelectorView {
                    match_element: text_of(match_element),
                    match_text_within: text_of(match_text_within),
                    ignore_text_within: names_of(ignore_text_within),
                }),
            },
    {
        if match_element.is_none() && match_text_within.is_none() {
            return Err(InvalidSelector::NoSelector);
        }
        if !match_element_parses {
            if let Some(css) = match_element {
                return Err(InvalidSelector::MatchElement(css));
            }
        }
        if !match_text_within_parses {
            if let Some(css) = match_text_within {
                return Err(InvalidSelector::MatchTextWithin(css));
            }
        }
        Ok(SelmaSelector { match_element, match_text_within, ignore_text_within })
    }

    /// Builds the match criteria of a handler. At least one of
    /// `match_element` and `match_text_within` has to be given, and each
    /// given one has to be a valid selector.
    pub fn new(
        match_element: Option<String>,
        match_text_within: Option<String>,
        ignore_text_within: Option<Vec<String>>,
    ) -> (r: Result<SelmaSelector, InvalidSelector>)
        ensures
            match selector_fault(
                text_of(match_element),
                absent_or_valid(text_of(match_element)),
                text_of(match_text_within),
                absent_or_valid(text_of(match_text_within)),
            ) {
                Some(fault) => r is Err && r->Err_0@ == fault,
                None => r is Ok && r->Ok_0@ == (SelectorView {
                    match_element: text_of(match_element),
                    match_text_within: text_of(match_text_within),
                    ignore_text_within: names_of(ignore_text_within),
                }),
            },
    {
        let element_parses = match &match_element {
            Some(css) => parse_selector(css.as_str()).is_ok(),
            None => true,
        };
        let text_parses = match &match_text_within {
            Some(css) => parse_selector(css.as_str()).is_ok(),
            None => true,
        };
        Self::from_checked(
            match_element,
            element_parses,
            match_text_within,
            text_parses,
            ignore_text_within,
        )
    }

    /// The selector of the elements that the handler is called for.
    pub fn match_element(&self) -> (r: Option<String>)
        ensures
            text_of(r) == self@.match_element,
    {
        copy_text(&self.match_element)
    }

    /// The selector of the elements whose text the handler is called for.
    pub fn match_text_within(&self) -> (r: Option<String>)
        ensures
            text_of(r) == self@.match_text_within,
    {
        copy_text(&self.match_text_within)
    }

    /// The tags directly inside which the handler reads no text.
    pub fn ignore_text_within(&self) -> (r: Option<Vec<String>>)
        ensures
            names_of(r) == self@.ignore_text_within,
    {
        match &self.ignore_text_within {
            None => None,
            Some(list) => {
                let mut out: Vec<String> = Vec::new();
                let mut i: usize = 0;
                assert(strs(out@) =~= strs(list@).take(0));
                while i < list.len()
                    invariant
                        i <= list.len(),
                        strs(out@) == strs(list@).take(i as int),
                    decreases list.len() - i,
                {
                    let ghost before = strs(out@);
                    let item = list[i].clone();
                    assert(item@ == list@[i as int]@);
                    out.push(item);
                    assert(strs(out@) =~= before.push(item@));
                    assert(strs(out@) =~= strs(list@).take(i + 1));
                    i += 1;
                }
                assert(strs(list@).take(list.len() as int) =~= strs(list@));
                Some(out)
            },
        }
    }
}

} // verus!

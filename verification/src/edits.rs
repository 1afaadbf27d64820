//! The changes that the sanitizer asks of the parser for one element.

use vstd::prelude::*;

verus! {

/// One change to an element. Inserted content is text: the parser escapes
/// it.
#[derive(Debug, PartialEq, Eq)]
pub enum ElementEdit {
    /// Remove the attribute with this name.
    RemoveAttribute(String),
    /// Give the attribute with this name this value.
    SetAttribute(String, String),
    /// Remove the element and what it holds.
    Remove,
    /// Remove the tags of the element and keep what it holds.
    RemoveAndKeepContent,
    /// Insert this text before the element.
    Before(String),
    /// Insert this text after the element.
    After(String),
    /// Replace what the element holds by this text.
    SetInnerContent(String),
    /// Remove the end tag when the parser reaches it.
    RemoveEndTag,
}

/// What an `ElementEdit` stands for in contracts.
pub enum Edit {
    RemoveAttribute(Seq<char>),
    SetAttribute(Seq<char>, Seq<char>),
    Remove,
    RemoveAndKeepContent,
    Before(Seq<char>),
    After(Seq<char>),
    SetInnerContent(Seq<char>),
    RemoveEndTag,
}

impl View for ElementEdit {
    type V = Edit;

    open spec fn view(&self) -> Edit {
        match self {
            ElementEdit::RemoveAttribute(name) => Edit::RemoveAttribute(name@),
            ElementEdit::SetAttribute(name, value) => Edit::SetAttribute(name@, value@),
            ElementEdit::Remove => Edit::Remove,
            ElementEdit::RemoveAndKeepContent => Edit::RemoveAndKeepContent,
            ElementEdit::Before(text) => Edit::Before(text@),
            ElementEdit::After(text) => Edit::After(text@),
            ElementEdit::SetInnerContent(text) => Edit::SetInnerContent(text@),
            ElementEdit::RemoveEndTag => Edit::RemoveEndTag,
        }
    }
}

/// The views of a list of edits, in order.
pub open spec fn edit_views(list: Seq<ElementEdit>) -> Seq<Edit> {
    Seq::new(list.len(), |i: int| list[i]@)
}

/// Whether some edit of `edits` takes the start tag of the element out of
/// the output.
pub open spec fn removes_element(edits: Seq<Edit>) -> bool {
    exists|i: int| 0 <= i < edits.len() && (edits[i] is Remove || edits[i] is RemoveAndKeepContent)
}

/// Whether some edit of `edits` removes the attribute called `name`.
pub open spec fn removes_attribute(edits: Seq<Edit>, name: Seq<char>) -> bool {
    edits.contains(Edit::RemoveAttribute(name))
}

} // verus!

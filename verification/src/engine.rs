//! The streaming parser, `lol_html`, as the sanitizer sees it.
//!
//! A node of the parser is opaque here. Names stand for what the sanitizer
//! reads of it: of an element its tag name, its attributes and whether it
//! was removed; of a comment, a doctype and an end tag whether it was
//! removed. Every function of this file that touches a node is a thin call
//! into the parser, and its contract says over those names what the
//! parser's source shows.

use crate::attributes::{
    attribute_names, attribute_views, has_removal_verdict, lemma_survivor_is_last,
    lemma_surviving_names, names_survivor, survives, surviving_names, Attribute,
    AttributeVerdict, AttributeView,
};
use crate::policy::Policy;
use crate::store::{first_key, lemma_first_key_is};
use crate::edits::{edit_views, removes_element, Edit, ElementEdit};
use crate::removal::{forced_removal, lemma_disallowed_is_removed, lemma_forced_removal_removes};
use crate::sanitizer::SelmaSanitizer;
use crate::tags::{is_void, tag_index, Tag};
use crate::text::str_eq;
use lol_html::errors::AttributeNameError;
use lol_html::html_content::{Comment, Doctype, Element, EndTag, TextChunk};
use vstd::prelude::*;

verus! {

/// An element as the parser hands it to a callback. Nothing of it is visible here.
#[verifier::external_type_specification]
#[verifier::external_body]
pub struct ExElement<'r, 't>(Element<'r, 't>);

/// An end tag as the parser hands it to a callback.
#[verifier::external_type_specification]
#[verifier::external_body]
pub struct ExEndTag<'i>(EndTag<'i>);

/// A comment as the parser hands it to a callback.
#[verifier::external_type_specification]
#[verifier::external_body]
pub struct ExComment<'i>(Comment<'i>);

/// A doctype as the parser hands it to a callback.
#[verifier::external_type_specification]
#[verifier::external_body]
pub struct ExDoctype<'i>(Doctype<'i>);

/// A chunk of text as the parser hands it to a callback.
#[verifier::external_type_specification]
#[verifier::external_body]
pub struct ExTextChunk<'i>(TextChunk<'i>);

/// Why the parser refuses the name of an attribute.
#[verifier::external_type_specification]
#[verifier::external_body]
pub struct ExAttributeNameError(AttributeNameError);

/// How inserted content is read: as text, which the parser escapes, or as
/// markup, which it inserts as it is.
#[derive(Clone, Copy, Debug, PartialEq, Eq, Structural)]
pub enum ContentType {
    Text,
    Html,
}

impl ContentType {
    /// The content type that a caller names: `text` or `html`.
    pub open spec fn named(name: Seq<char>) -> Option<ContentType> {
        if name == "text"@ {
            Some(ContentType::Text)
        } else if name == "html"@ {
            Some(ContentType::Html)
        } else {
            None
        }
    }

    /// The content type called `name`, if there is one.
    pub fn from_name(name: &str) -> (r: Option<ContentType>)
        ensures
            r == Self::named(name@),
    {
        if str_eq(name, "text") {
            Some(ContentType::Text)
        } else if str_eq(name, "html") {
            Some(ContentType::Html)
        } else {
            None
        }
    }
}

/// The tag name of an element, in ASCII lower case: what `Element::tag_name`
/// returns.
pub uninterp spec fn element_tag_name(element: &Element) -> Seq<char>;

/// Whether an element was removed or replaced: what `Element::removed`
/// returns.
pub uninterp spec fn element_removed(element: &Element) -> bool;

/// The attributes of an element, in order, each with the name that
/// `Attribute::name` returns and the value that `Attribute::value` returns.
pub uninterp spec fn element_attributes(element: &Element) -> Seq<AttributeView>;

/// Whether the parser will hand out an end tag for an element: what
/// `Element::can_have_content` returns.
pub uninterp spec fn element_has_end_tag(element: &Element) -> bool;

/// The edits that were asked of an element, in the order in which they
/// were asked: one entry for each call of a function of this file that
/// changes the element.
pub uninterp spec fn element_edits(element: &Element) -> Seq<Edit>;

/// What is called when the parser reaches the end tag of an element.
pub enum EndTagCall {
    /// The innermost name leaves the ancestor stack.
    Pop,
    /// `on_end_tag` of a handler is called.
    OnEndTag,
}

/// The calls that were registered for the end tag of an element, in the
/// order in which they were registered: what `Element::end_tag_handlers`
/// holds of them.
pub uninterp spec fn element_end_tag_calls(element: &Element) -> Seq<EndTagCall>;

/// Whether `after` is `before` with one more edit asked of it, and with
/// its tag name, its end tag and the calls for its end tag as they were.
pub open spec fn asked(before: &Element, after: &Element, edit: Edit) -> bool {
    &&& element_edits(after) == element_edits(before).push(edit)
    &&& element_tag_name(after) == element_tag_name(before)
    &&& element_has_end_tag(after) == element_has_end_tag(before)
    &&& element_end_tag_calls(after) == element_end_tag_calls(before)
}

/// What `Element::set_attribute` makes of the attributes `before` when it
/// is asked for the attribute `name`, which is in ASCII lower case, and
/// answers `ok`. Where there is an attribute with the name, it succeeds and
/// gives the first such attribute a new value: no name changes, and no
/// other attribute. Where there is none, it either fails and changes
/// nothing, or appends one attribute.
pub open spec fn attribute_is_set(
    before: Seq<AttributeView>,
    after: Seq<AttributeView>,
    name: Seq<char>,
    ok: bool,
) -> bool {
    let at = first_key(attribute_names(before), name, 0);
    if at < before.len() {
        &&& ok
        &&& attribute_names(after) == attribute_names(before)
        &&& forall|j: int| 0 <= j < before.len() && j != at ==> after[j] == before[j]
    } else if ok {
        after.len() == before.len() + 1 && after.take(before.len() as int) == before
    } else {
        after == before
    }
}

/// What `char::to_ascii_lowercase` makes of a character.
pub open spec fn ascii_lowercase_of(c: char) -> char {
    if 0x41 <= c as u32 <= 0x5a {
        ((c as u32 + 32) as u8) as char
    } else {
        c
    }
}

/// What `str::to_ascii_lowercase` makes of a string.
pub open spec fn ascii_lowercase(s: Seq<char>) -> Seq<char> {
    Seq::new(s.len(), |i: int| ascii_lowercase_of(s[i]))
}

/// `attrs` without the first attribute called `name`, if there is one.
pub open spec fn without_named(attrs: Seq<AttributeView>, name: Seq<char>) -> Seq<AttributeView> {
    let at = first_key(attribute_names(attrs), name, 0);
    if at < attrs.len() {
        attrs.remove(at)
    } else {
        attrs
    }
}

/// `Element::tag_name`.
#[verifier::external_body]
pub(crate) fn tag_name(element: &Element) -> (r: String)
    ensures
        r@ == element_tag_name(element),
{
    element.tag_name()
}

/// `Element::removed`.
#[verifier::external_body]
pub(crate) fn is_removed(element: &Element) -> (r: bool)
    ensures
        r == element_removed(element),
{
    element.removed()
}

/// How many attributes `Element::attributes` holds.
#[verifier::external_body]
pub(crate) fn attribute_count(element: &Element) -> (r: usize)
    ensures
        r == element_attributes(element).len(),
{
    element.attributes().len()
}

/// `Attribute::name` of the attribute at `index` of `Element::attributes`.
/// The parser hands every name out in ASCII lower case.
#[verifier::external_body]
pub(crate) fn attribute_name(element: &Element, index: usize) -> (r: String)
    requires
        index < element_attributes(element).len(),
    ensures
        r@ == element_attributes(element)[index as int].name,
        ascii_lowercase(r@) == r@,
{
    element.attributes()[index].name()
}

/// `Attribute::value` of the attribute at `index` of `Element::attributes`.
#[verifier::external_body]
pub(crate) fn attribute_value(element: &Element, index: usize) -> (r: String)
    requires
        index < element_attributes(element).len(),
    ensures
        r@ == element_attributes(element)[index as int].value,
{
    element.attributes()[index].value()
}

/// The attributes of `element`, in order.
pub fn attributes(element: &Element) -> (r: Vec<Attribute>)
    ensures
        attribute_views(r@) == element_attributes(element),
        forall|i: int|
            0 <= i < r@.len() ==> ascii_lowercase(#[trigger] r@[i].name@) == r@[i].name@,
{
    let count = attribute_count(element);
    let mut out: Vec<Attribute> = Vec::new();
    let mut i: usize = 0;
    while i < count
        invariant
            i <= count,
            count == element_attributes(element).len(),
            out@.len() == i,
            forall|k: int| 0 <= k < i ==> (#[trigger] out@[k])@ == element_attributes(element)[k],
            forall|k: int|
                0 <= k < i ==> ascii_lowercase(#[trigger] out@[k].name@) == out@[k].name@,
        decreases count - i,
    {
        let name = attribute_name(element, i);
        let value = attribute_value(element, i);
        out.push(Attribute { name, value });
        i += 1;
    }
    assert(attribute_views(out@) =~= element_attributes(element));
    out
}

/// `Element::can_have_content`.
#[verifier::external_body]
pub(crate) fn can_have_content(element: &Element) -> (r: bool)
    ensures
        r == element_has_end_tag(element),
{
    element.can_have_content()
}

/// `Element::remove`: it marks the start tag as removed and leaves the tag
/// name and the attributes as they are.
#[verifier::external_body]
pub(crate) fn remove(element: &mut Element)
    ensures
        element_edits(final(element)) == element_edits(old(element)).push(Edit::Remove),
        element_tag_name(final(element)) == element_tag_name(old(element)),
        element_has_end_tag(final(element)) == element_has_end_tag(old(element)),
        element_end_tag_calls(final(element)) == element_end_tag_calls(old(element)),
        element_removed(final(element)),
        element_attributes(final(element)) == element_attributes(old(element)),
{
    element.remove()
}

/// `Element::remove_and_keep_content`: it marks the start tag as removed
/// and leaves the tag name and the attributes as they are.
#[verifier::external_body]
pub(crate) fn remove_and_keep_content(element: &mut Element)
    ensures
        asked(old(element), final(element), Edit::RemoveAndKeepContent),
        element_removed(final(element)),
        element_attributes(final(element)) == element_attributes(old(element)),
{
    element.remove_and_keep_content()
}

/// `Element::before` with `content` as text: it adds to the content that
/// goes before the element, and touches neither mark nor attribute.
#[verifier::external_body]
pub(crate) fn before(element: &mut Element, content: &str)
    ensures
        asked(old(element), final(element), Edit::Before(content@)),
        element_removed(final(element)) == element_removed(old(element)),
        element_attributes(final(element)) == element_attributes(old(element)),
{
    element.before(content, lol_html::html_content::ContentType::Text)
}

/// `Element::after` with `content` as text: it adds to the content that
/// goes after the element, and touches neither mark nor attribute.
#[verifier::external_body]
pub(crate) fn after(element: &mut Element, content: &str)
    ensures
        asked(old(element), final(element), Edit::After(content@)),
        element_removed(final(element)) == element_removed(old(element)),
        element_attributes(final(element)) == element_attributes(old(element)),
{
    element.after(content, lol_html::html_content::ContentType::Text)
}

/// `Element::set_inner_content` with `content` as text: it replaces what
/// the element holds, where it can hold anything, and touches neither mark
/// nor attribute.
#[verifier::external_body]
pub(crate) fn set_inner_content(element: &mut Element, content: &str)
    ensures
        asked(old(element), final(element), Edit::SetInnerContent(content@)),
        element_removed(final(element)) == element_removed(old(element)),
        element_attributes(final(element)) == element_attributes(old(element)),
{
    element.set_inner_content(content, lol_html::html_content::ContentType::Text)
}

/// `Element::set_attribute`. It looks for the first attribute whose name is
/// `name` in ASCII lower case, and does with the attributes what
/// `attribute_is_set` says. Where it succeeds, the edit is on the record.
/// The tag name and the removal mark stay.
#[verifier::external_body]
pub(crate) fn set_attribute(element: &mut Element, name: &str, value: &str) -> (r: Result<
    (),
    AttributeNameError,
>)
    ensures
        element_edits(final(element)) == if r is Ok {
            element_edits(old(element)).push(Edit::SetAttribute(name@, value@))
        } else {
            element_edits(old(element))
        },
        element_tag_name(final(element)) == element_tag_name(old(element)),
        element_has_end_tag(final(element)) == element_has_end_tag(old(element)),
        element_end_tag_calls(final(element)) == element_end_tag_calls(old(element)),
        element_removed(final(element)) == element_removed(old(element)),
        attribute_is_set(
            element_attributes(old(element)),
            element_attributes(final(element)),
            ascii_lowercase(name@),
            r is Ok,
        ),
{
    element.set_attribute(name, value)
}

/// `Element::remove_attribute`. It removes the first attribute whose name
/// is `name` in ASCII lower case, if there is one. The tag name and the
/// removal mark stay.
#[verifier::external_body]
pub(crate) fn remove_attribute(element: &mut Element, name: &str)
    ensures
        asked(old(element), final(element), Edit::RemoveAttribute(name@)),
        element_removed(final(element)) == element_removed(old(element)),
        element_attributes(final(element)) == without_named(
            element_attributes(old(element)),
            ascii_lowercase(name@),
        ),
{
    element.remove_attribute(name)
}

/// Whether an end tag is marked as removed, so that the parser writes it
/// out no more: the mark that `EndTag::remove` sets.
pub uninterp spec fn end_tag_removed(end_tag: &EndTag) -> bool;

/// Whether a comment was removed: what `Comment::removed` returns.
pub uninterp spec fn comment_removed(comment: &Comment) -> bool;

/// Whether a doctype was removed: what `Doctype::removed` returns.
pub uninterp spec fn doctype_removed(doctype: &Doctype) -> bool;

/// `EndTag::remove`: it marks the end tag as removed.
#[verifier::external_body]
pub(crate) fn end_tag_remove(end_tag: &mut EndTag)
    ensures
        end_tag_removed(final(end_tag)),
{
    end_tag.remove()
}

/// `Comment::remove`: it marks the comment as removed.
#[verifier::external_body]
pub(crate) fn comment_remove(comment: &mut Comment)
    ensures
        comment_removed(final(comment)),
{
    comment.remove()
}

/// `Doctype::remove`: it marks the doctype as removed.
#[verifier::external_body]
pub(crate) fn doctype_remove(doctype: &mut Doctype)
    ensures
        doctype_removed(final(doctype)),
{
    doctype.remove()
}

/// Adds to `Element::end_tag_handlers` a handler that removes the end tag,
/// where the element has an end tag at all. The edit is on the record;
/// neither mark nor attribute changes.
#[verifier::external_body]
pub(crate) fn remove_end_tag_later(element: &mut Element)
    ensures
        asked(old(element), final(element), Edit::RemoveEndTag),
        element_removed(final(element)) == element_removed(old(element)),
        element_attributes(final(element)) == element_attributes(old(element)),
{
    if let Some(handlers) = element.end_tag_handlers() {
        handlers.push(Box::new(|end_tag| {
            SelmaSanitizer::remove_end_tag(end_tag);
            Ok(())
        }));
    }
}

/// What one edit makes of the attributes `before`, where it is done.
pub open spec fn attributes_after(
    before: Seq<AttributeView>,
    after: Seq<AttributeView>,
    edit: Edit,
    ok: bool,
) -> bool {
    match edit {
        Edit::RemoveAttribute(name) => after == without_named(before, ascii_lowercase(name)),
        Edit::SetAttribute(name, value) => attribute_is_set(
            before,
            after,
            ascii_lowercase(name),
            ok,
        ),
        _ => after == before,
    }
}

/// Whether an edit changes an attribute.
pub open spec fn is_attribute_edit(edit: Edit) -> bool {
    edit is SetAttribute || edit is RemoveAttribute
}

/// Whether no edit of `edits` sets an attribute: such edits cannot fail.
pub open spec fn sets_no_attribute(edits: Seq<Edit>) -> bool {
    forall|i: int| 0 <= i < edits.len() ==> !(edits[i] is SetAttribute)
}

/// Whether no edit of `edits` changes an attribute.
pub open spec fn changes_no_attribute(edits: Seq<Edit>) -> bool {
    forall|i: int| 0 <= i < edits.len() ==> !is_attribute_edit(edits[i])
}

/// Asks the parser for one edit. Only the setting of an attribute can
/// fail. An edit that is done is on the record of the element.
pub fn apply_edit(element: &mut Element, edit: &ElementEdit) -> (r: Result<(), AttributeNameError>)
    ensures
        r is Err ==> edit@ is SetAttribute,
        element_edits(final(element)) == if r is Ok {
            element_edits(old(element)).push(edit@)
        } else {
            element_edits(old(element))
        },
        element_tag_name(final(element)) == element_tag_name(old(element)),
        element_has_end_tag(final(element)) == element_has_end_tag(old(element)),
        element_end_tag_calls(final(element)) == element_end_tag_calls(old(element)),
        element_removed(final(element)) == (element_removed(old(element)) || edit@ is Remove
            || edit@ is RemoveAndKeepContent),
        attributes_after(
            element_attributes(old(element)),
            element_attributes(final(element)),
            edit@,
            r is Ok,
        ),
{
    match edit {
        ElementEdit::RemoveAttribute(name) => {
            remove_attribute(element, name.as_str());
            Ok(())
        },
        ElementEdit::SetAttribute(name, value) => set_attribute(
            element,
            name.as_str(),
            value.as_str(),
        ),
        ElementEdit::Remove => {
            remove(element);
            Ok(())
        },
        ElementEdit::RemoveAndKeepContent => {
            remove_and_keep_content(element);
            Ok(())
        },
        ElementEdit::Before(text) => {
            before(element, text.as_str());
            Ok(())
        },
        ElementEdit::After(text) => {
            after(element, text.as_str());
            Ok(())
        },
        ElementEdit::SetInnerContent(text) => {
            set_inner_content(element, text.as_str());
            Ok(())
        },
        ElementEdit::RemoveEndTag => {
            remove_end_tag_later(element);
            Ok(())
        },
    }
}

/// Asks the parser for each edit of `edits`, in order, and stops at the
/// first that fails.
pub fn apply_edits(element: &mut Element, edits: &Vec<ElementEdit>) -> (r: Result<
    (),
    AttributeNameError,
>)
    ensures
        r is Err ==> !sets_no_attribute(edit_views(edits@)),
        element_tag_name(final(element)) == element_tag_name(old(element)),
        element_removed(old(element)) ==> element_removed(final(element)),
        r is Ok ==> element_removed(final(element)) == (element_removed(old(element))
            || removes_element(edit_views(edits@))),
        changes_no_attribute(edit_views(edits@)) ==> element_attributes(final(element))
            == element_attributes(old(element)),
        r is Ok ==> element_edits(final(element)) == element_edits(old(element)) + edit_views(
            edits@,
        ),
        element_has_end_tag(final(element)) == element_has_end_tag(old(element)),
        element_end_tag_calls(final(element)) == element_end_tag_calls(old(element)),
{
    let mut i: usize = 0;
    assert(element_edits(element) + edit_views(edits@).take(0) =~= element_edits(element));
    while i < edits.len()
        invariant
            i <= edits.len(),
            element_edits(element) == element_edits(old(element)) + edit_views(edits@).take(
                i as int,
            ),
            element_has_end_tag(element) == element_has_end_tag(old(element)),
            element_end_tag_calls(element) == element_end_tag_calls(old(element)),
            changes_no_attribute(edit_views(edits@)) ==> element_attributes(element)
                == element_attributes(old(element)),
            element_tag_name(element) == element_tag_name(old(element)),
            element_removed(element) == (element_removed(old(element)) || removes_element(
                edit_views(edits@).take(i as int),
            )),
        decreases edits.len() - i,
    {
        let ghost prefix = edit_views(edits@).take(i as int);
        let ghost next = edit_views(edits@).take(i + 1);
        assert(edit_views(edits@)[i as int] == edits@[i as int]@);
        match apply_edit(element, &edits[i]) {
            Ok(_) => {},
            Err(e) => {
                assert(edit_views(edits@)[i as int] is SetAttribute);
                return Err(e);
            },
        }
        proof {
            assert(next =~= prefix.push(edits@[i as int]@));
            assert(element_edits(element) =~= element_edits(old(element)) + next);
            if removes_element(prefix) {
                let k = choose|k: int|
                    0 <= k < prefix.len() && (prefix[k] is Remove || prefix[k]
                        is RemoveAndKeepContent);
                assert(next[k] == prefix[k]);
            }
            if removes_element(next) && !removes_element(prefix) {
                let k = choose|k: int|
                    0 <= k < next.len() && (next[k] is Remove || next[k] is RemoveAndKeepContent);
                if k < i {
                    assert(prefix[k] == next[k]);
                }
            }
            if edits@[i as int]@ is Remove || edits@[i as int]@ is RemoveAndKeepContent {
                assert(next[i as int] == edits@[i as int]@);
            }
        }
        i += 1;
    }
    assert(edit_views(edits@).take(edits.len() as int) =~= edit_views(edits@));
    Ok(())
}

/// When the attributes before index `at` were dealt with, the first
/// attribute of the element that is called like the one at `at` is that
/// one: it stands right behind the survivors, and no survivor shares its
/// name.
proof fn lemma_position(policy: Policy, tag: Seq<char>, attrs: Seq<AttributeView>, at: int)
    requires
        0 <= at < attrs.len(),
    ensures
        first_key(
            surviving_names(policy, tag, attrs, at) + attribute_names(attrs).skip(at),
            attrs[at].name,
            0,
        ) == surviving_names(policy, tag, attrs, at).len(),
{
    let kept = surviving_names(policy, tag, attrs, at);
    let names = kept + attribute_names(attrs).skip(at);
    lemma_surviving_names(policy, tag, attrs, at);
    assert(names[kept.len() as int] == attrs[at].name);
    assert forall|q: int| 0 <= q < kept.len() implies names[q] != attrs[at].name by {
        assert(names[q] == kept[q]);
        assert(names_survivor(policy, tag, attrs, at, kept[q]));
        let j = choose|j: int|
            0 <= j < at && survives(policy, tag, attrs, j) && attrs[j].name == kept[q];
        lemma_survivor_is_last(policy, tag, attrs, j, at);
    }
    lemma_first_key_is(names, attrs[at].name, 0, kept.len() as int);
}

/// The edits that the first pass asks of an element called `tag`, of which
/// `removed` says whether it was removed before and which has the
/// attributes `attrs`: those of the removal strategy and, for an element
/// that is still there afterwards, those of the attribute sanitizer.
pub open spec fn element_plan(
    policy: Policy,
    tag: Seq<char>,
    removed: bool,
    attrs: Seq<AttributeView>,
) -> Seq<Edit> {
    policy.removal_plan(tag, removed) + (if removed || policy.should_remove(tag, removed) {
        Seq::empty()
    } else {
        policy.attribute_plan(tag, attrs)
    })
}

impl SelmaSanitizer {
    /// Removes a doctype.
    pub fn remove_doctype(&self, doctype: &mut Doctype)
        ensures
            doctype_removed(final(doctype)),
    {
        doctype_remove(doctype);
    }

    /// Removes a comment.
    pub fn remove_comment(&self, comment: &mut Comment)
        ensures
            comment_removed(final(comment)),
    {
        comment_remove(comment);
    }

    /// Removes an end tag.
    pub fn remove_end_tag(end_tag: &mut EndTag)
        ensures
            end_tag_removed(final(end_tag)),
    {
        end_tag_remove(end_tag);
    }

    /// Whether the tag of `element` is not allowed, so that the element has
    /// to go.
    pub fn allow_element(&self, element: &Element) -> (r: bool)
        ensures
            r == !self@.allows(tag_index(element_tag_name(element))),
    {
        let name = tag_name(element);
        self.disallows(name.as_str())
    }

    /// Applies the removal strategy to `element`: an element that is still
    /// there and whose tag is not allowed is removed; an iframe that stays
    /// loses what it holds. The result says whether the element had to go.
    pub fn try_remove_element(&self, element: &mut Element) -> (should_remove: bool)
        ensures
            should_remove == self@.should_remove(
                element_tag_name(old(element)),
                element_removed(old(element)),
            ),
            element_removed(final(element)) == (element_removed(old(element)) || should_remove),
            element_tag_name(final(element)) == element_tag_name(old(element)),
            element_attributes(final(element)) == element_attributes(old(element)),
            element_edits(final(element)) == element_edits(old(element)) + self@.removal_plan(
                element_tag_name(old(element)),
                element_removed(old(element)),
            ),
            element_has_end_tag(final(element)) == element_has_end_tag(old(element)),
            element_end_tag_calls(final(element)) == element_end_tag_calls(old(element)),
    {
        let name = tag_name(element);
        let removed = is_removed(element);
        let (should_remove, edits) = self.plan_removal(name.as_str(), removed);
        proof {
            if should_remove {
                lemma_disallowed_is_removed(self@, name@);
            }
        }
        let applied = apply_edits(element, &edits);
        assert(applied is Ok);
        should_remove
    }

    /// Removes `element` and what it holds, whatever its flags, and keeps
    /// its end tag out of the output: it asks for the edits of
    /// `forced_removal`.
    pub fn force_remove_element(&self, element: &mut Element)
        ensures
            element_removed(final(element)),
            element_tag_name(final(element)) == element_tag_name(old(element)),
            element_attributes(final(element)) == element_attributes(old(element)),
            element_edits(final(element)) == element_edits(old(element)) + forced_removal(
                is_void(tag_index(element_tag_name(old(element)))),
            ),
            element_has_end_tag(final(element)) == element_has_end_tag(old(element)),
            element_end_tag_calls(final(element)) == element_end_tag_calls(old(element)),
    {
        let name = tag_name(element);
        let tag = Tag::tag_from_tag_name(name.as_str());
        let edits = Self::plan_forced_removal(tag.self_closing);
        proof {
            lemma_forced_removal_removes(tag.self_closing);
        }
        let applied = apply_edits(element, &edits);
        assert(applied is Ok);
    }

    /// The step of the final pass: where the final pass is on, an element
    /// with an escape-worthy tag is removed with what it holds. The result
    /// says whether it was.
    pub fn escape_tagfilter(&self, element: &mut Element) -> (r: bool)
        ensures
            r == (self@.escape_tagfilter && Tag::tag_from_tag_name_spec(
                element_tag_name(old(element)),
            ).is_tag_escapeworthy()),
            element_removed(final(element)) == (element_removed(old(element)) || r),
            element_tag_name(final(element)) == element_tag_name(old(element)),
            element_attributes(final(element)) == element_attributes(old(element)),
            element_edits(final(element)) == if r {
                element_edits(old(element)) + forced_removal(
                    is_void(tag_index(element_tag_name(old(element)))),
                )
            } else {
                element_edits(old(element))
            },
            element_has_end_tag(final(element)) == element_has_end_tag(old(element)),
            element_end_tag_calls(final(element)) == element_end_tag_calls(old(element)),
    {
        if self.get_escape_tagfilter() {
            let name = tag_name(element);
            let tag = Tag::tag_from_tag_name(name.as_str());
            if tag.is_tag_escapeworthy() {
                self.force_remove_element(element);
                return true;
            }
        }
        false
    }

    /// Applies the attribute sanitizer to `element`, each attribute in its
    /// turn: an attribute is dropped, rewritten or left alone, as
    /// `verdict_at` says, and the first verdict `RemoveElement` takes the
    /// element out and ends the work. Where the element stays, the names of
    /// its attributes are afterwards those of the attributes that survive,
    /// in order. The parser refuses no edit that this asks for.
    pub fn sanitize_attributes(&self, element: &mut Element) -> (r: Result<(), AttributeNameError>)
        ensures
            r is Ok,
            element_tag_name(final(element)) == element_tag_name(old(element)),
            element_removed(final(element)) == (element_removed(old(element))
                || has_removal_verdict(
                self@,
                element_tag_name(old(element)),
                element_attributes(old(element)),
            )),
            !has_removal_verdict(
                self@,
                element_tag_name(old(element)),
                element_attributes(old(element)),
            ) ==> attribute_names(element_attributes(final(element))) == surviving_names(
                self@,
                element_tag_name(old(element)),
                element_attributes(old(element)),
                element_attributes(old(element)).len() as int,
            ),
            element_edits(final(element)) == element_edits(old(element)) + self@.attribute_plan(
                element_tag_name(old(element)),
                element_attributes(old(element)),
            ),
            element_has_end_tag(final(element)) == element_has_end_tag(old(element)),
            element_end_tag_calls(final(element)) == element_end_tag_calls(old(element)),
    {
        let name = tag_name(element);
        let attrs = attributes(element);
        let ghost tag = name@;
        let ghost all = attribute_views(attrs@);
        let ghost mut done: Seq<Edit> = Seq::empty();
        let mut i: usize = 0;
        assert(done + self@.attribute_plan_from(tag, all, 0) =~= self@.attribute_plan(tag, all));
        assert(element_edits(element) + done =~= element_edits(element));
        assert(surviving_names(self@, tag, all, 0) + attribute_names(all).skip(0)
            =~= attribute_names(all));
        while i < attrs.len()
            invariant
                i <= attrs.len(),
                tag == name@,
                all == attribute_views(attrs@),
                tag == element_tag_name(old(element)),
                all == element_attributes(old(element)),
                forall|k: int|
                    0 <= k < attrs@.len() ==> ascii_lowercase(#[trigger] attrs@[k].name@)
                        == attrs@[k].name@,
                element_tag_name(element) == tag,
                element_removed(element) == element_removed(old(element)),
                element_has_end_tag(element) == element_has_end_tag(old(element)),
                element_end_tag_calls(element) == element_end_tag_calls(old(element)),
                element_edits(element) == element_edits(old(element)) + done,
                self@.attribute_plan(tag, all) == done + self@.attribute_plan_from(
                    tag,
                    all,
                    i as int,
                ),
                forall|j: int| 0 <= j < i ==> !(self@.verdict_at(tag, all, j) is RemoveElement),
                attribute_names(element_attributes(element)) == surviving_names(
                    self@,
                    tag,
                    all,
                    i as int,
                ) + attribute_names(all).skip(i as int),
            decreases attrs.len() - i,
        {
            let ghost current = element_attributes(element);
            let ghost kept = surviving_names(self@, tag, all, i as int);
            let ghost rest = attribute_names(all).skip(i + 1);
            let ghost later = self@.attribute_plan_from(tag, all, i + 1);
            let ghost before = element_edits(old(element));
            let verdict = self.verdict_for(name.as_str(), &attrs, i);
            proof {
                lemma_position(self@, tag, all, i as int);
                assert(all[i as int].name == attrs@[i as int].name@);
                assert(attribute_names(all).skip(i as int) =~= seq![all[i as int].name] + rest);
            }
            match verdict {
                AttributeVerdict::RemoveElement => {
                    self.force_remove_element(element);
                    assert(before + done + forced_removal(is_void(tag_index(tag))) =~= before + (
                    done + forced_removal(is_void(tag_index(tag)))));
                    return Ok(());
                },
                AttributeVerdict::Drop => {
                    remove_attribute(element, attrs[i].name.as_str());
                    proof {
                        let edit = Edit::RemoveAttribute(all[i as int].name);
                        assert((before + done).push(edit) =~= before + done.push(edit));
                        assert(done + (seq![edit] + later) =~= done.push(edit) + later);
                        done = done.push(edit);
                        let at = kept.len() as int;
                        assert(element_attributes(element) == current.remove(at));
                        assert(attribute_names(current.remove(at)) =~= attribute_names(
                            current,
                        ).remove(at));
                        assert((kept + attribute_names(all).skip(i as int)).remove(at) =~= kept
                            + rest);
                    }
                },
                AttributeVerdict::Replace(value) => {
                    match set_attribute(element, attrs[i].name.as_str(), value.as_str()) {
                        Ok(_) => {},
                        Err(e) => {
                            return Err(e);
                        },
                    }
                    proof {
                        let edit = Edit::SetAttribute(all[i as int].name, value@);
                        assert((before + done).push(edit) =~= before + done.push(edit));
                        assert(done + (seq![edit] + later) =~= done.push(edit) + later);
                        done = done.push(edit);
                        assert(kept + attribute_names(all).skip(i as int) =~= kept.push(
                            all[i as int].name,
                        ) + rest);
                    }
                },
                AttributeVerdict::Keep => {
                    proof {
                        assert(kept + attribute_names(all).skip(i as int) =~= kept.push(
                            all[i as int].name,
                        ) + rest);
                    }
                },
            }
            i += 1;
        }
        proof {
            assert(attribute_names(all).skip(attrs.len() as int) =~= Seq::<Seq<char>>::empty());
            assert(surviving_names(self@, tag, all, attrs.len() as int) + Seq::<
                Seq<char>,
            >::empty() =~= surviving_names(self@, tag, all, attrs.len() as int));
            assert(done + Seq::<Edit>::empty() =~= done);
        }
        Ok(())
    }

    /// What the first pass does to each element: the removal strategy, and
    /// the attribute sanitizer for an element that is still there. An
    /// element whose tag is not allowed is removed afterwards, whatever
    /// else holds of it. An element whose tag is allowed, and that was
    /// still there, stays unless an attribute takes it out, and then has
    /// the attributes that survive, and no other.
    pub fn sanitize_element(&self, element: &mut Element) -> (r: Result<(), AttributeNameError>)
        ensures
            r is Ok,
            element_tag_name(final(element)) == element_tag_name(old(element)),
            !self@.allows(tag_index(element_tag_name(old(element)))) ==> element_removed(
                final(element),
            ),
            element_removed(old(element)) ==> element_removed(final(element)),
            self@.allows(tag_index(element_tag_name(old(element)))) && !element_removed(
                old(element),
            ) ==> {
                let tag = element_tag_name(old(element));
                let attrs = element_attributes(old(element));
                &&& element_removed(final(element)) == has_removal_verdict(self@, tag, attrs)
                &&& !has_removal_verdict(self@, tag, attrs) ==> attribute_names(
                    element_attributes(final(element)),
                ) == surviving_names(self@, tag, attrs, attrs.len() as int)
            },
            element_edits(final(element)) == element_edits(old(element)) + element_plan(
                self@,
                element_tag_name(old(element)),
                element_removed(old(element)),
                element_attributes(old(element)),
            ),
            element_has_end_tag(final(element)) == element_has_end_tag(old(element)),
            element_end_tag_calls(final(element)) == element_end_tag_calls(old(element)),
    {
        let ghost before = element_edits(element);
        let ghost removal = self@.removal_plan(
            element_tag_name(element),
            element_removed(element),
        );
        let ghost plan = self@.attribute_plan(
            element_tag_name(element),
            element_attributes(element),
        );
        assert(before + removal + Seq::<Edit>::empty() =~= before + removal);
        assert(before + removal + plan =~= before + (removal + plan));
        assert(before + (removal + Seq::<Edit>::empty()) =~= before + removal);
        self.try_remove_element(element);
        if is_removed(element) {
            return Ok(());
        }
        self.sanitize_attributes(element)
    }
}

} // verus!

//! The element removal strategy: whether an element stays, and how it goes.

use crate::edits::{edit_views, removes_element, Edit, ElementEdit};
use crate::policy::{
    has_flag, Policy, SELMA_SANITIZER_REMOVE_CONTENTS, SELMA_SANITIZER_WRAP_WHITESPACE,
};
use crate::sanitizer::SelmaSanitizer;
use crate::tags::{is_void, tag_index, Tag, TAG_IFRAME, TAG_MATH, TAG_SCRIPT, TAG_STYLE, TAG_SVG};
use vstd::prelude::*;

verus! {

/// How an element goes under `flags`: with what it holds if they have
/// `REMOVE_CONTENTS`; else its tags alone, with a space in place of each tag
/// that it had if they have `WRAP_WHITESPACE`.
pub open spec fn removal_edits(self_closing: bool, flags: u8) -> Seq<Edit> {
    if has_flag(flags, SELMA_SANITIZER_REMOVE_CONTENTS) {
        seq![Edit::Remove]
    } else if has_flag(flags, SELMA_SANITIZER_WRAP_WHITESPACE) {
        if self_closing {
            seq![Edit::After(" "@), Edit::RemoveAndKeepContent]
        } else {
            seq![Edit::Before(" "@), Edit::After(" "@), Edit::RemoveAndKeepContent]
        }
    } else {
        seq![Edit::RemoveAndKeepContent]
    }
}

/// What keeps the end tag of a removed element out of the output: nothing
/// for an element that has none.
pub open spec fn end_tag_edits(self_closing: bool) -> Seq<Edit> {
    if self_closing {
        Seq::empty()
    } else {
        seq![Edit::RemoveEndTag]
    }
}

/// How an element goes whatever its flags: with what it holds, and with its
/// end tag.
pub open spec fn forced_removal(self_closing: bool) -> Seq<Edit> {
    seq![Edit::Remove] + end_tag_edits(self_closing)
}

/// The tags that never go without what they hold.
pub open spec fn is_text_bearing(index: int) -> bool {
    index == TAG_SCRIPT || index == TAG_STYLE || index == TAG_MATH || index == TAG_SVG
}

impl Policy {
    /// Whether an element called `tag` has to go: it is still there and its
    /// tag is not allowed.
    pub open spec fn should_remove(self, tag: Seq<char>, removed: bool) -> bool {
        !removed && !self.allows(tag_index(tag))
    }

    /// The flags under which an element called `tag` goes: `REMOVE_CONTENTS`
    /// alone for a text-bearing tag, else those configured.
    pub open spec fn removal_flags(self, tag: Seq<char>) -> u8 {
        if is_text_bearing(tag_index(tag)) {
            SELMA_SANITIZER_REMOVE_CONTENTS
        } else {
            self.flags[tag_index(tag)]
        }
    }

    /// The edits for an element called `tag`, of which `removed` says
    /// whether it was removed before. One that has to go goes as its flags
    /// say, with its end tag. An iframe that stays holds a single space if
    /// its tag has any flag, and nothing otherwise.
    pub open spec fn removal_plan(self, tag: Seq<char>, removed: bool) -> Seq<Edit> {
        let index = tag_index(tag);
        if self.should_remove(tag, removed) {
            removal_edits(is_void(index), self.removal_flags(tag)) + end_tag_edits(is_void(index))
        } else if index == TAG_IFRAME {
            if self.flags[index] != 0 {
                seq![Edit::SetInnerContent(" "@)]
            } else {
                seq![Edit::SetInnerContent(Seq::empty())]
            }
        } else {
            Seq::empty()
        }
    }
}

impl SelmaSanitizer {
    /// Whether an element called `tag_name` must not stay.
    pub fn disallows(&self, tag_name: &str) -> (r: bool)
        ensures
            r == !self@.allows(tag_index(tag_name@)),
    {
        !self.store().allows_tag(tag_name)
    }

    /// The edits that take an element out under `flags`.
    pub fn remove_element(self_closing: bool, flags: u8) -> (edits: Vec<ElementEdit>)
        ensures
            edit_views(edits@) == removal_edits(self_closing, flags),
    {
        let wrap_whitespace = (flags & SELMA_SANITIZER_WRAP_WHITESPACE) != 0;
        let remove_contents = (flags & SELMA_SANITIZER_REMOVE_CONTENTS) != 0;
        let mut edits: Vec<ElementEdit> = Vec::new();
        if remove_contents {
            edits.push(ElementEdit::Remove);
        } else {
            if wrap_whitespace {
                if !self_closing {
                    edits.push(ElementEdit::Before(" ".to_owned()));
                }
                edits.push(ElementEdit::After(" ".to_owned()));
            }
            edits.push(ElementEdit::RemoveAndKeepContent);
        }
        assert(edit_views(edits@) =~= removal_edits(self_closing, flags));
        edits
    }

    /// Adds to `edits` what keeps the end tag of a removed element out.
    pub fn check_if_end_tag_needs_removal(edits: &mut Vec<ElementEdit>, self_closing: bool)
        ensures
            edit_views(final(edits)@) == edit_views(old(edits)@) + end_tag_edits(self_closing),
    {
        if !self_closing {
            edits.push(ElementEdit::RemoveEndTag);
        }
        assert(edit_views(edits@) =~= edit_views(old(edits)@) + end_tag_edits(self_closing));
    }

    /// The edits that take an element out whatever its flags.
    pub fn plan_forced_removal(self_closing: bool) -> (edits: Vec<ElementEdit>)
        ensures
            edit_views(edits@) == forced_removal(self_closing),
    {
        let mut edits: Vec<ElementEdit> = Vec::new();
        edits.push(ElementEdit::Remove);
        Self::check_if_end_tag_needs_removal(&mut edits, self_closing);
        assert(edit_views(edits@) =~= forced_removal(self_closing));
        edits
    }

    /// Whether an element called `tag_name` has to go, and the edits that
    /// the removal strategy asks for it.
    pub fn plan_removal(&self, tag_name: &str, removed: bool) -> (r: (bool, Vec<ElementEdit>))
        ensures
            r.0 == self@.should_remove(tag_name@, removed),
            edit_views(r.1@) == self@.removal_plan(tag_name@, removed),
    {
        let store = self.store();
        let tag = Tag::tag_from_tag_name(tag_name);
        let flags = store.flags_at(tag);
        let should_remove = !removed && !store.allows_at(tag);
        if should_remove {
            let mut edits = if tag.has_text_content() {
                Self::remove_element(tag.self_closing, SELMA_SANITIZER_REMOVE_CONTENTS)
            } else {
                Self::remove_element(tag.self_closing, flags)
            };
            Self::check_if_end_tag_needs_removal(&mut edits, tag.self_closing);
            (true, edits)
        } else {
            let mut edits: Vec<ElementEdit> = Vec::new();
            if tag.is_iframe() {
                if flags != 0 {
                    edits.push(ElementEdit::SetInnerContent(" ".to_owned()));
                    assert(edit_views(edits@) =~= seq![Edit::SetInnerContent(" "@)]);
                } else {
                    edits.push(ElementEdit::SetInnerContent(String::new()));
                    assert(edit_views(edits@) =~= seq![Edit::SetInnerContent(Seq::empty())]);
                }
            } else {
                assert(edit_views(edits@) =~= Seq::<Edit>::empty());
            }
            (false, edits)
        }
    }
}

/// An element that the parser hands out, that is still there and whose
/// tag is not allowed, does not stay: the removal strategy takes its start
/// tag out, whatever the flags of the tag.
pub proof fn lemma_disallowed_is_removed(policy: Policy, tag: Seq<char>)
    requires
        !policy.allows(tag_index(tag)),
    ensures
        policy.should_remove(tag, false),
        removes_element(policy.removal_plan(tag, false)),
{
    let plan = policy.removal_plan(tag, false);
    let edits = removal_edits(is_void(tag_index(tag)), policy.removal_flags(tag));
    let last = edits.len() - 1;
    assert(edits[last] is Remove || edits[last] is RemoveAndKeepContent);
    assert(plan[last] == edits[last]);
}

/// A text-bearing tag that is not allowed goes with what it holds, even
/// where its flags ask for less: what it holds is never hoisted into the
/// tree around it.
pub proof fn lemma_text_bearing_goes_whole(policy: Policy, tag: Seq<char>)
    requires
        !policy.allows(tag_index(tag)),
        is_text_bearing(tag_index(tag)),
    ensures
        policy.removal_plan(tag, false) == forced_removal(is_void(tag_index(tag))),
{
    assert(SELMA_SANITIZER_REMOVE_CONTENTS & SELMA_SANITIZER_REMOVE_CONTENTS != 0) by (bit_vector);
}

/// An element that stays keeps its tags: the plan of an allowed element
/// never takes its start tag out.
pub proof fn lemma_allowed_stays(policy: Policy, tag: Seq<char>, removed: bool)
    requires
        policy.allows(tag_index(tag)),
    ensures
        !policy.should_remove(tag, removed),
        !removes_element(policy.removal_plan(tag, removed)),
{
}

/// A forced removal takes the element out.
pub proof fn lemma_forced_removal_removes(self_closing: bool)
    ensures
        removes_element(forced_removal(self_closing)),
{
    assert(forced_removal(self_closing)[0] is Remove);
}

} // verus!

//! The ancestor tracker: the tags that are open at a point of a document.

use crate::tags::{is_void, tag_index, Tag};
use crate::text::{list_contains, lowercase, strs, to_lowercase};
use vstd::prelude::*;

verus! {

/// What the tracker sees of a document: start tags, each with its name and
/// with whether the parser will hand out an end tag for it, and end tags.
pub enum TagEvent {
    Open { name: Seq<char>, has_end_tag: bool },
    Close,
}

/// Whether the element of a start tag is tracked: an end tag will come for
/// it, and its name in lower case is not that of a void element.
pub open spec fn is_tracked(name: Seq<char>, has_end_tag: bool) -> bool {
    has_end_tag && !is_void(tag_index(lowercase(name)))
}

/// The stack after one event.
pub open spec fn step(stack: Seq<Seq<char>>, event: TagEvent) -> Seq<Seq<char>> {
    match event {
        TagEvent::Open { name, has_end_tag } => if is_tracked(name, has_end_tag) {
            stack.push(lowercase(name))
        } else {
            stack
        },
        TagEvent::Close => if stack.len() > 0 {
            stack.drop_last()
        } else {
            stack
        },
    }
}

/// The stack after the events of `events`, in order.
pub open spec fn track(stack: Seq<Seq<char>>, events: Seq<TagEvent>) -> Seq<Seq<char>>
    decreases events.len(),
{
    if events.len() == 0 {
        stack
    } else {
        step(track(stack, events.drop_last()), events.last())
    }
}

/// How many tracked elements are open after `events`: tracked start tags
/// less end tags.
pub open spec fn depth(events: Seq<TagEvent>) -> int
    decreases events.len(),
{
    if events.len() == 0 {
        0
    } else {
        depth(events.drop_last()) + match events.last() {
            TagEvent::Open { name, has_end_tag } => if is_tracked(name, has_end_tag) {
                1int
            } else {
                0int
            },
            TagEvent::Close => -1int,
        }
    }
}

/// A document is well formed where no end tag comes without its start tag
/// and every tracked element is closed.
pub open spec fn well_formed(events: Seq<TagEvent>) -> bool {
    &&& depth(events) == 0
    &&& forall|k: int| 0 <= k <= events.len() ==> depth(#[trigger] events.take(k)) >= 0
}

/// Every name on a stack is in lower case form and none is that of a void
/// element.
pub open spec fn holds_no_void(stack: Seq<Seq<char>>) -> bool {
    forall|i: int| 0 <= i < stack.len() ==> !is_void(tag_index(#[trigger] stack[i]))
}

/// As long as no end tag comes without its start tag, the stack is as high
/// as the document is deep, and it holds no void element.
pub proof fn lemma_track_depth(events: Seq<TagEvent>)
    requires
        forall|k: int| 0 <= k <= events.len() ==> depth(#[trigger] events.take(k)) >= 0,
    ensures
        track(Seq::empty(), events).len() == depth(events),
        holds_no_void(track(Seq::empty(), events)),
    decreases events.len(),
{
    if events.len() > 0 {
        let before = events.drop_last();
        assert forall|k: int| 0 <= k <= before.len() implies depth(#[trigger] before.take(k))
            >= 0 by {
            assert(before.take(k) =~= events.take(k));
        }
        lemma_track_depth(before);
        assert(events.take(events.len() as int) =~= events);
        assert(before =~= events.take(events.len() - 1));
    }
}

/// After a well-formed document the stack is empty.
pub proof fn lemma_balanced(events: Seq<TagEvent>)
    requires
        well_formed(events),
    ensures
        track(Seq::empty(), events) == Seq::<Seq<char>>::empty(),
{
    lemma_track_depth(events);
    assert(track(Seq::empty(), events) =~= Seq::<Seq<char>>::empty());
}

/// At no point of a well-formed document does the stack hold a void
/// element, or an element for which no end tag comes.
pub proof fn lemma_never_void(events: Seq<TagEvent>, k: int)
    requires
        well_formed(events),
        0 <= k <= events.len(),
    ensures
        holds_no_void(track(Seq::empty(), events.take(k))),
{
    let prefix = events.take(k);
    assert forall|j: int| 0 <= j <= prefix.len() implies depth(#[trigger] prefix.take(j)) >= 0 by {
        assert(prefix.take(j) =~= events.take(j));
    }
    lemma_track_depth(prefix);
}

/// The names of the open elements of one rewrite, outermost first.
pub struct AncestorStack {
    names: Vec<String>,
}

impl View for AncestorStack {
    type V = Seq<Seq<char>>;

    closed spec fn view(&self) -> Seq<Seq<char>> {
        strs(self.names@)
    }
}

impl AncestorStack {
    /// The stack at the start of a document.
    pub fn new() -> (r: AncestorStack)
        ensures
            r@ == Seq::<Seq<char>>::empty(),
            holds_no_void(r@),
    {
        let r = AncestorStack { names: Vec::new() };
        assert(r@ =~= Seq::<Seq<char>>::empty());
        r
    }

    /// Takes note of a start tag. The name goes on the stack in lower case,
    /// unless the element is not tracked; the result says whether it went
    /// there.
    pub fn open(&mut self, tag_name: &str, has_end_tag: bool) -> (pushed: bool)
        ensures
            pushed == is_tracked(tag_name@, has_end_tag),
            final(self)@ == step(
                old(self)@,
                TagEvent::Open { name: tag_name@, has_end_tag },
            ),
            holds_no_void(old(self)@) ==> holds_no_void(final(self)@),
    {
        let name = to_lowercase(tag_name);
        if !has_end_tag || Tag::tag_from_tag_name(name.as_str()).self_closing {
            return false;
        }
        let ghost before = self@;
        self.names.push(name);
        assert(self@ =~= before.push(name@));
        true
    }

    /// Takes note of an end tag: the innermost name leaves the stack.
    pub fn close(&mut self)
        ensures
            final(self)@ == step(old(self)@, TagEvent::Close),
            holds_no_void(old(self)@) ==> holds_no_void(final(self)@),
    {
        let ghost before = self@;
        if self.names.len() > 0 {
            self.names.pop();
            assert(self@ =~= before.drop_last());
        }
    }

    /// How many elements are open.
    pub fn len(&self) -> (r: usize)
        ensures
            r == self@.len(),
    {
        self.names.len()
    }

    /// Whether the innermost open element is one of `tags`.
    pub fn innermost_is_one_of(&self, tags: &Vec<String>) -> (r: bool)
        ensures
            r == (self@.len() > 0 && strs(tags@).contains(self@.last())),
    {
        let n = self.names.len();
        if n == 0 {
            return false;
        }
        assert(self@.last() == self.names@[n - 1]@);
        list_contains(tags, self.names[n - 1].as_str())
    }

    /// The names of the open elements, outermost first.
    pub fn snapshot(&self) -> (r: Vec<String>)
        ensures
            strs(r@) == self@,
    {
        let mut out: Vec<String> = Vec::new();
        let mut i: usize = 0;
        assert(strs(out@) =~= self@.take(0));
        while i < self.names.len()
            invariant
                i <= self.names.len(),
                strs(out@) == self@.take(i as int),
            decreases self.names.len() - i,
        {
            let ghost before = strs(out@);
            let item = self.names[i].clone();
            assert(item@ == self.names@[i as int]@);
            out.push(item);
            assert(strs(out@) =~= before.push(item@));
            assert(strs(out@) =~= self@.take(i + 1));
            i += 1;
        }
        assert(self@.take(self.names.len() as int) =~= self@);
        out
    }
}

} // verus!

//! The mathematical model of a sanitization policy.
//!
//! A `Policy` is what a `Sanitizer` stands for in contracts: the flags of
//! each tag, the attribute and class grants that hold for every tag, and one
//! `ElementPolicy` for each tag that was configured by name.

use crate::tags::{tag_index, TAG_COUNT};
use vstd::prelude::*;

verus! {

/// The element may stay in the output.
pub const SELMA_SANITIZER_ALLOW: u8 = 1;

/// When the element goes, what it holds goes with it.
pub const SELMA_SANITIZER_REMOVE_CONTENTS: u8 = 4;

/// When the element is unwrapped, a space takes the place of each tag.
pub const SELMA_SANITIZER_WRAP_WHITESPACE: u8 = 8;

/// Whether some bit of `flag` is set in `flags`.
pub open spec fn has_flag(flags: u8, flag: u8) -> bool {
    flags & flag != 0
}

/// `flags` with the bits of `flag` switched on or off.
pub open spec fn with_flag(flags: u8, flag: u8, set: bool) -> u8 {
    if set {
        flags | flag
    } else {
        flags & !flag
    }
}

/// The scope under which a grant holds for every element.
pub open spec fn all_scope() -> Seq<char> {
    "all"@
}

/// The scheme entry that switches the scheme check of an attribute off.
pub open spec fn all_schemes() -> Seq<char> {
    "all"@
}

/// What was configured for one tag by name.
pub struct ElementPolicy {
    /// The attributes granted to the tag.
    pub allowed_attrs: Set<Seq<char>>,
    /// The attributes that an element with the tag is expected to have. No
    /// verdict depends on them.
    pub required_attrs: Set<Seq<char>>,
    /// The classes granted to the tag.
    pub allowed_classes: Set<Seq<char>>,
    /// The schemes allowed in each attribute that has a scheme list.
    pub protocols: Map<Seq<char>, Set<Seq<char>>>,
}

impl ElementPolicy {
    /// The policy of a tag for which nothing was configured.
    pub open spec fn empty() -> ElementPolicy {
        ElementPolicy {
            allowed_attrs: Set::empty(),
            required_attrs: Set::empty(),
            allowed_classes: Set::empty(),
            protocols: Map::empty(),
        }
    }

    /// The schemes allowed in `attr`; none where it has no scheme list.
    pub open spec fn schemes(self, attr: Seq<char>) -> Set<Seq<char>> {
        if self.protocols.dom().contains(attr) {
            self.protocols[attr]
        } else {
            Set::empty()
        }
    }
}

/// A whole policy.
pub struct Policy {
    /// One set of flags for each index of the tag table.
    pub flags: Seq<u8>,
    /// The attributes granted to every tag.
    pub allowed_attrs: Set<Seq<char>>,
    /// The classes granted to every tag.
    pub allowed_classes: Set<Seq<char>>,
    /// What is configured for single tags, by name.
    pub elements: Map<Seq<char>, ElementPolicy>,
    /// Whether the final pass removes the escape-worthy tags.
    pub escape_tagfilter: bool,
    /// Whether comments stay in the output.
    pub allow_comments: bool,
    /// Whether the doctype stays in the output.
    pub allow_doctype: bool,
}

impl Policy {
    /// The policy that allows nothing: no flag, no grant, comments removed,
    /// the doctype kept, the final pass on.
    pub open spec fn initial() -> Policy {
        Policy {
            flags: Seq::new(TAG_COUNT as nat, |i: int| 0u8),
            allowed_attrs: Set::empty(),
            allowed_classes: Set::empty(),
            elements: Map::empty(),
            escape_tagfilter: true,
            allow_comments: false,
            allow_doctype: true,
        }
    }

    /// There is one set of flags for each index of the tag table.
    pub open spec fn wf(self) -> bool {
        self.flags.len() == TAG_COUNT
    }

    /// What is configured for `tag`: an empty policy until the tag is first
    /// named.
    pub open spec fn element(self, tag: Seq<char>) -> ElementPolicy {
        if self.elements.dom().contains(tag) {
            self.elements[tag]
        } else {
            ElementPolicy::empty()
        }
    }

    /// Whether the tag at `index` may stay in the output.
    pub open spec fn allows(self, index: int) -> bool {
        has_flag(self.flags[index], SELMA_SANITIZER_ALLOW)
    }

    /// The policy with `flag` switched on or off for the tag called `tag`.
    pub open spec fn set_flag(self, tag: Seq<char>, flag: u8, set: bool) -> Policy {
        Policy {
            flags: self.flags.update(
                tag_index(tag),
                with_flag(self.flags[tag_index(tag)], flag, set),
            ),
            ..self
        }
    }

    /// The policy with `flag` switched on or off for every tag.
    pub open spec fn set_all_flags(self, flag: u8, set: bool) -> Policy {
        Policy {
            flags: Seq::new(self.flags.len(), |i: int| with_flag(self.flags[i], flag, set)),
            ..self
        }
    }

    /// Grants `attr` to every element if `element` is `all_scope()`, else to
    /// that element alone.
    pub open spec fn allow_attribute(self, element: Seq<char>, attr: Seq<char>) -> Policy {
        if element == all_scope() {
            Policy { allowed_attrs: self.allowed_attrs.insert(attr), ..self }
        } else {
            let e = self.element(element);
            Policy {
                elements: self.elements.insert(
                    element,
                    ElementPolicy { allowed_attrs: e.allowed_attrs.insert(attr), ..e },
                ),
                ..self
            }
        }
    }

    /// Grants the class `class` to every element if `element` is
    /// `all_scope()`, else to that element alone.
    pub open spec fn allow_class(self, element: Seq<char>, class: Seq<char>) -> Policy {
        if element == all_scope() {
            Policy { allowed_classes: self.allowed_classes.insert(class), ..self }
        } else {
            let e = self.element(element);
            Policy {
                elements: self.elements.insert(
                    element,
                    ElementPolicy { allowed_classes: e.allowed_classes.insert(class), ..e },
                ),
                ..self
            }
        }
    }

    /// Adds `schemes` to those allowed in attribute `attr` of `element`.
    /// Adding no scheme configures nothing.
    pub open spec fn allow_schemes(
        self,
        element: Seq<char>,
        attr: Seq<char>,
        schemes: Set<Seq<char>>,
    ) -> Policy {
        if schemes == Set::<Seq<char>>::empty() {
            self
        } else {
            let e = self.element(element);
            Policy {
                elements: self.elements.insert(
                    element,
                    ElementPolicy {
                        protocols: e.protocols.insert(attr, e.schemes(attr).union(schemes)),
                        ..e
                    },
                ),
                ..self
            }
        }
    }

    /// Whether `attr` may stay on an element called `tag`, by its name
    /// alone.
    pub open spec fn allows_attribute(self, tag: Seq<char>, attr: Seq<char>) -> bool {
        self.element(tag).allowed_attrs.contains(attr) || self.allowed_attrs.contains(attr)
    }

    /// Whether the class `class` may stay on an element called `tag`.
    pub open spec fn allows_class(self, tag: Seq<char>, class: Seq<char>) -> bool {
        self.allowed_classes.contains(class) || self.element(tag).allowed_classes.contains(class)
    }

    /// Whether no class was granted that could apply to `tag`: classes are
    /// then not filtered at all.
    pub open spec fn has_no_class_filter(self, tag: Seq<char>) -> bool {
        self.allowed_classes == Set::<Seq<char>>::empty() && self.element(tag).allowed_classes
            == Set::<Seq<char>>::empty()
    }
}

/// Switching a flag twice is switching it once.
pub proof fn lemma_with_flag_idempotent(flags: u8, flag: u8, set: bool)
    ensures
        with_flag(with_flag(flags, flag, set), flag, set) == with_flag(flags, flag, set),
{
    assert((flags | flag) | flag == flags | flag) by (bit_vector);
    assert((flags & !flag) & !flag == flags & !flag) by (bit_vector);
}

/// Flags that share no bit are switched in any order.
pub proof fn lemma_with_flag_commutes(flags: u8, f: u8, a: bool, g: u8, b: bool)
    requires
        f & g == 0,
    ensures
        with_flag(with_flag(flags, f, a), g, b) == with_flag(with_flag(flags, g, b), f, a),
{
    assert((flags | f) | g == (flags | g) | f) by (bit_vector);
    assert((flags & !f) & !g == (flags & !g) & !f) by (bit_vector);
    assert(f & g == 0 ==> (flags | f) & !g == (flags & !g) | f) by (bit_vector);
    assert(f & g == 0 ==> (flags & !f) | g == (flags | g) & !f) by (bit_vector);
}

/// Switching a flag on sets it, switching it off clears it, and no flag
/// that shares no bit with it changes.
pub proof fn lemma_with_flag_sets(flags: u8, flag: u8, set: bool, other: u8)
    ensures
        flag != 0 ==> has_flag(with_flag(flags, flag, true), flag),
        !has_flag(with_flag(flags, flag, false), flag),
        flag & other == 0 ==> has_flag(with_flag(flags, flag, set), other) == has_flag(flags, other),
{
    assert(flag != 0 ==> (flags | flag) & flag != 0) by (bit_vector);
    assert((flags & !flag) & flag == 0) by (bit_vector);
    assert(flag & other == 0 ==> (flags | flag) & other == flags & other) by (bit_vector);
    assert(flag & other == 0 ==> (flags & !flag) & other == flags & other) by (bit_vector);
}

impl Policy {
    /// `set_flag` is idempotent.
    pub proof fn lemma_set_flag_idempotent(self, tag: Seq<char>, flag: u8, set: bool)
        requires
            self.wf(),
        ensures
            self.set_flag(tag, flag, set).set_flag(tag, flag, set) == self.set_flag(tag, flag, set),
    {
        crate::tags::lemma_tag_index(tag);
        lemma_with_flag_idempotent(self.flags[tag_index(tag)], flag, set);
        assert(self.set_flag(tag, flag, set).set_flag(tag, flag, set).flags =~= self.set_flag(
            tag,
            flag,
            set,
        ).flags);
    }

    /// Two calls of `set_flag` with flags that share no bit give the same
    /// policy in either order, whatever the tags.
    pub proof fn lemma_set_flag_commutes(
        self,
        tag: Seq<char>,
        f: u8,
        a: bool,
        other: Seq<char>,
        g: u8,
        b: bool,
    )
        requires
            self.wf(),
            f & g == 0,
        ensures
            self.set_flag(tag, f, a).set_flag(other, g, b) == self.set_flag(other, g, b).set_flag(
                tag,
                f,
                a,
            ),
    {
        crate::tags::lemma_tag_index(tag);
        crate::tags::lemma_tag_index(other);
        lemma_with_flag_commutes(self.flags[tag_index(tag)], f, a, g, b);
        assert(self.set_flag(tag, f, a).set_flag(other, g, b).flags =~= self.set_flag(
            other,
            g,
            b,
        ).set_flag(tag, f, a).flags);
    }

    /// `set_all_flags` is idempotent.
    pub proof fn lemma_set_all_flags_idempotent(self, flag: u8, set: bool)
        ensures
            self.set_all_flags(flag, set).set_all_flags(flag, set) == self.set_all_flags(flag, set),
    {
        assert forall|i: int| 0 <= i < self.flags.len() implies with_flag(
            with_flag(self.flags[i], flag, set),
            flag,
            set,
        ) == with_flag(self.flags[i], flag, set) by {
            lemma_with_flag_idempotent(self.flags[i], flag, set);
        }
        assert(self.set_all_flags(flag, set).set_all_flags(flag, set).flags
            =~= self.set_all_flags(flag, set).flags);
    }

    /// `allow_attribute` is idempotent.
    pub proof fn lemma_allow_attribute_idempotent(self, element: Seq<char>, attr: Seq<char>)
        ensures
            self.allow_attribute(element, attr).allow_attribute(element, attr)
                == self.allow_attribute(element, attr),
    {
        let once = self.allow_attribute(element, attr);
        let twice = once.allow_attribute(element, attr);
        assert(twice.allowed_attrs =~= once.allowed_attrs);
        if element != all_scope() {
            assert(once.element(element).allowed_attrs.insert(attr) =~= once.element(
                element,
            ).allowed_attrs);
            assert(twice.elements =~= once.elements);
        }
    }

    /// Two calls of `allow_attribute` give the same policy in either order:
    /// grants add up.
    pub proof fn lemma_allow_attribute_commutes(
        self,
        element: Seq<char>,
        attr: Seq<char>,
        other_element: Seq<char>,
        other_attr: Seq<char>,
    )
        ensures
            self.allow_attribute(element, attr).allow_attribute(other_element, other_attr)
                == self.allow_attribute(other_element, other_attr).allow_attribute(element, attr),
    {
        let ab = self.allow_attribute(element, attr).allow_attribute(other_element, other_attr);
        let ba = self.allow_attribute(other_element, other_attr).allow_attribute(element, attr);
        assert(ab.allowed_attrs =~= ba.allowed_attrs);
        if element == other_element && element != all_scope() {
            assert(self.element(element).allowed_attrs.insert(attr).insert(other_attr)
                =~= self.element(element).allowed_attrs.insert(other_attr).insert(attr));
        }
        assert(ab.elements =~= ba.elements);
    }

    /// A grant under `all_scope()` changes no record of any element.
    pub proof fn lemma_all_scope_touches_no_element(self, attr: Seq<char>, class: Seq<char>)
        ensures
            self.allow_attribute(all_scope(), attr).elements == self.elements,
            self.allow_class(all_scope(), class).elements == self.elements,
    {
    }

    /// `allow_class` is idempotent.
    pub proof fn lemma_allow_class_idempotent(self, element: Seq<char>, class: Seq<char>)
        ensures
            self.allow_class(element, class).allow_class(element, class) == self.allow_class(
                element,
                class,
            ),
    {
        let once = self.allow_class(element, class);
        let twice = once.allow_class(element, class);
        assert(twice.allowed_classes =~= once.allowed_classes);
        if element != all_scope() {
            assert(once.element(element).allowed_classes.insert(class) =~= once.element(
                element,
            ).allowed_classes);
            assert(twice.elements =~= once.elements);
        }
    }

    /// Two calls of `allow_class` give the same policy in either order.
    pub proof fn lemma_allow_class_commutes(
        self,
        element: Seq<char>,
        class: Seq<char>,
        other_element: Seq<char>,
        other_class: Seq<char>,
    )
        ensures
            self.allow_class(element, class).allow_class(other_element, other_class)
                == self.allow_class(other_element, other_class).allow_class(element, class),
    {
        let ab = self.allow_class(element, class).allow_class(other_element, other_class);
        let ba = self.allow_class(other_element, other_class).allow_class(element, class);
        assert(ab.allowed_classes =~= ba.allowed_classes);
        if element == other_element && element != all_scope() {
            assert(self.element(element).allowed_classes.insert(class).insert(other_class)
                =~= self.element(element).allowed_classes.insert(other_class).insert(class));
        }
        assert(ab.elements =~= ba.elements);
    }

    /// `allow_schemes` is idempotent.
    pub proof fn lemma_allow_schemes_idempotent(
        self,
        element: Seq<char>,
        attr: Seq<char>,
        schemes: Set<Seq<char>>,
    )
        ensures
            self.allow_schemes(element, attr, schemes).allow_schemes(element, attr, schemes)
                == self.allow_schemes(element, attr, schemes),
    {
        let once = self.allow_schemes(element, attr, schemes);
        let twice = once.allow_schemes(element, attr, schemes);
        if schemes != Set::<Seq<char>>::empty() {
            let e = once.element(element);
            assert(e.schemes(attr).union(schemes) =~= e.schemes(attr));
            assert(e.protocols.insert(attr, e.schemes(attr).union(schemes)) =~= e.protocols);
            assert(twice.elements =~= once.elements);
        }
    }

    /// Two calls of `allow_schemes` give the same policy in either order:
    /// schemes add up.
    pub proof fn lemma_allow_schemes_commutes(
        self,
        element: Seq<char>,
        attr: Seq<char>,
        schemes: Set<Seq<char>>,
        other_element: Seq<char>,
        other_attr: Seq<char>,
        other_schemes: Set<Seq<char>>,
    )
        ensures
            self.allow_schemes(element, attr, schemes).allow_schemes(
                other_element,
                other_attr,
                other_schemes,
            ) == self.allow_schemes(other_element, other_attr, other_schemes).allow_schemes(
                element,
                attr,
                schemes,
            ),
    {
        let ab = self.allow_schemes(element, attr, schemes).allow_schemes(
            other_element,
            other_attr,
            other_schemes,
        );
        let ba = self.allow_schemes(other_element, other_attr, other_schemes).allow_schemes(
            element,
            attr,
            schemes,
        );
        if schemes != Set::<Seq<char>>::empty() && other_schemes != Set::<Seq<char>>::empty()
            && element == other_element {
            let e = self.element(element);
            if attr == other_attr {
                assert(e.schemes(attr).union(schemes).union(other_schemes) =~= e.schemes(
                    attr,
                ).union(other_schemes).union(schemes));
            }
            assert(ab.element(element).protocols =~= ba.element(element).protocols);
        }
        assert(ab.elements =~= ba.elements);
    }
}

} // verus!

//! The attribute sanitizer: what becomes of each attribute of an element.

use crate::edits::{edit_views, removes_attribute, Edit, ElementEdit};
use crate::escape::{escape_href, escape_html, escaped_href, escaped_html, unescape_html, unescaped_html};
use crate::removal::forced_removal;
use crate::policy::{all_schemes, Policy};
use crate::sanitizer::SelmaSanitizer;
use crate::store::{first_key, lemma_first_key_is, names};
use crate::tags::{is_void, tag_index, Tag, TAG_META};
use crate::text::{
    chars_of, contains_pattern, has_pattern, has_prefix, is_word, join, join_with,
    lemma_split_join, lemma_tokens_are_words, list_contains, lowercase, occurs_at,
    split_whitespace, starts_with, str_eq, strs, to_lowercase, trim_leading, trim_start, words,
};
use vstd::prelude::*;

verus! {

/// One attribute of an element, as the parser hands it out: the name in
/// lower case, the value as written.
#[derive(Debug, PartialEq, Eq)]
pub struct Attribute {
    pub name: String,
    pub value: String,
}

/// What an `Attribute` stands for in contracts.
pub struct AttributeView {
    pub name: Seq<char>,
    pub value: Seq<char>,
}

impl View for Attribute {
    type V = AttributeView;

    open spec fn view(&self) -> AttributeView {
        AttributeView { name: self.name@, value: self.value@ }
    }
}

/// The views of a list of attributes, in order.
pub open spec fn attribute_views(list: Seq<Attribute>) -> Seq<AttributeView> {
    Seq::new(list.len(), |i: int| list[i]@)
}

/// What becomes of one attribute.
#[derive(Debug, PartialEq, Eq)]
pub enum AttributeVerdict {
    /// The whole element goes, and no further attribute is looked at.
    RemoveElement,
    /// The attribute goes.
    Drop,
    /// The attribute stays as it is written.
    Keep,
    /// The attribute stays with this value.
    Replace(String),
}

/// What an `AttributeVerdict` stands for in contracts.
pub enum Verdict {
    RemoveElement,
    Drop,
    Keep,
    Replace(Seq<char>),
}

impl View for AttributeVerdict {
    type V = Verdict;

    open spec fn view(&self) -> Verdict {
        match self {
            AttributeVerdict::RemoveElement => Verdict::RemoveElement,
            AttributeVerdict::Drop => Verdict::Drop,
            AttributeVerdict::Keep => Verdict::Keep,
            AttributeVerdict::Replace(value) => Verdict::Replace(value@),
        }
    }
}

/// The characters that end the scheme of a value.
pub open spec fn is_scheme_delimiter(c: char) -> bool {
    c == ':' || c == '/' || c == '#'
}

/// The index of the first scheme delimiter of `value`, or its length.
pub open spec fn scheme_end(value: Seq<char>) -> nat
    decreases value.len(),
{
    if value.len() > 0 && !is_scheme_delimiter(value[0]) {
        1 + scheme_end(value.drop_first())
    } else {
        0
    }
}

/// What of `value` is looked up in a scheme list, before it is put in lower
/// case: a marker of a relative value, or the text before the first `:`.
/// A value without any delimiter is looked up without its last character.
pub open spec fn scheme_candidate(value: Seq<char>) -> Seq<char> {
    let k = scheme_end(value) as int;
    if k < value.len() {
        if value[k] == '/' {
            seq!['/']
        } else if value[k] == '#' {
            seq!['#']
        } else {
            value.take(k)
        }
    } else if value.len() == 0 {
        value
    } else {
        value.take(value.len() - 1)
    }
}

/// Whether the candidate of `value` is a marker of a relative value, which
/// is looked up as it is.
pub open spec fn is_relative(value: Seq<char>) -> bool {
    let k = scheme_end(value) as int;
    k < value.len() && (value[k] == '/' || value[k] == '#')
}

/// Whether `schemes` lets `value` through.
pub open spec fn has_allowed_scheme(schemes: Set<Seq<char>>, value: Seq<char>) -> bool {
    schemes.contains(all_schemes()) || (if is_relative(value) {
        schemes.contains(scheme_candidate(value))
    } else {
        schemes.contains(lowercase(scheme_candidate(value)))
    })
}

/// A prefix without delimiter that ends at a delimiter, or at the end of the
/// value, pins `scheme_end`.
pub proof fn lemma_scheme_end_is(value: Seq<char>, k: int)
    requires
        0 <= k <= value.len(),
        forall|i: int| 0 <= i < k ==> !is_scheme_delimiter(value[i]),
        k < value.len() ==> is_scheme_delimiter(value[k]),
    ensures
        scheme_end(value) == k,
    decreases value.len(),
{
    if value.len() > 0 && !is_scheme_delimiter(value[0]) {
        let t = value.drop_first();
        assert(k > 0);
        assert forall|i: int| 0 <= i < k - 1 implies !is_scheme_delimiter(t[i]) by {
            assert(t[i] == value[i + 1]);
        }
        lemma_scheme_end_is(t, k - 1);
    } else {
        if k > 0 {
            assert(!is_scheme_delimiter(value[0]));
        }
    }
}

/// The tokens of `tokens` that `policy` allows as classes of `tag`, in
/// order.
pub open spec fn allowed_classes(policy: Policy, tag: Seq<char>, tokens: Seq<Seq<char>>) -> Seq<
    Seq<char>,
>
    decreases tokens.len(),
{
    if tokens.len() == 0 {
        Seq::empty()
    } else if policy.allows_class(tag, tokens.last()) {
        allowed_classes(policy, tag, tokens.drop_last()).push(tokens.last())
    } else {
        allowed_classes(policy, tag, tokens.drop_last())
    }
}

impl Policy {
    /// Whether the scheme of `value` lets the attribute `attr` of `tag`
    /// through. An empty value always does. Without a scheme list a value
    /// does unless it holds `://`.
    pub open spec fn scheme_ok(self, tag: Seq<char>, attr: Seq<char>, value: Seq<char>) -> bool {
        value.len() == 0 || (if self.element(tag).protocols.dom().contains(attr) {
            has_allowed_scheme(self.element(tag).protocols[attr], value)
        } else {
            !contains_pattern(value, "://"@)
        })
    }

    /// Whether the value of a class attribute of `tag` is filtered at all.
    pub open spec fn filters_classes(self, tag: Seq<char>) -> bool {
        !self.has_no_class_filter(tag)
    }

    /// What a class attribute with `value` holds after filtering; `None`
    /// where no token is left.
    pub open spec fn class_value(self, tag: Seq<char>, value: Seq<char>) -> Option<Seq<char>> {
        if self.filters_classes(tag) {
            let kept = allowed_classes(self, tag, split_whitespace(value));
            if kept.len() == 0 {
                None
            } else {
                Some(join(kept, " "@))
            }
        } else {
            Some(value)
        }
    }

    /// The value that the attribute `attr` of `tag` goes on with, given its
    /// unescaped `value`; `None` where the attribute goes.
    pub open spec fn carried_value(self, tag: Seq<char>, attr: Seq<char>, value: Seq<char>) -> Option<
        Seq<char>,
    > {
        if !self.allows_attribute(tag, attr) {
            None
        } else if !self.scheme_ok(tag, attr, value) {
            None
        } else if attr == "class"@ {
            self.class_value(tag, value)
        } else {
            Some(value)
        }
    }

    /// What becomes of the attribute `attr` of `tag`, given its unescaped
    /// `value`.
    pub open spec fn judge(self, tag: Seq<char>, attr: Seq<char>, value: Seq<char>) -> Verdict {
        match self.carried_value(tag, attr, value) {
            None => Verdict::Drop,
            Some(carried) => if tag_index(tag) == TAG_META {
                if attr == "charset"@ && value != "utf-8"@ {
                    Verdict::Replace("utf-8"@)
                } else if attr == "class"@ && self.filters_classes(tag) {
                    Verdict::Replace(carried)
                } else {
                    Verdict::Keep
                }
            } else if carried.len() == 0 {
                Verdict::Keep
            } else if attr == "href"@ {
                Verdict::Replace(escaped_href(carried))
            } else {
                Verdict::Replace(escaped_html(carried))
            },
        }
    }

    /// What becomes of the attribute `attr` of `tag`, given its value as
    /// written.
    pub open spec fn judge_raw(self, tag: Seq<char>, attr: Seq<char>, raw: Seq<char>) -> Verdict {
        if starts_with(attr, "<!--"@) {
            Verdict::RemoveElement
        } else {
            self.judge(tag, attr, unescaped_html(trim_start(raw)))
        }
    }
}

/// Whether the name of the attribute at `at` occurs again behind it in
/// `attrs`.
pub open spec fn occurs_later(attrs: Seq<AttributeView>, at: int) -> bool {
    exists|j: int| at < j < attrs.len() && attrs[j].name == attrs[at].name
}

/// The index of the first attribute of `attrs` that has the name of the one
/// at `at`.
pub open spec fn first_occurrence(attrs: Seq<AttributeView>, at: int) -> int {
    first_key(attribute_names(attrs), attrs[at].name, 0)
}

impl Policy {
    /// What becomes of the attribute at `at` of an element called `tag`
    /// that has the attributes `attrs`.
    ///
    /// Of attributes with one name, one is left at most, and it holds what
    /// the first of them is judged to hold: that is the one a browser
    /// reads. The parser finds attributes by name and then takes the first,
    /// so every occurrence but the last is removed, and the last gets the
    /// verdict on the value of the first.
    pub open spec fn verdict_at(self, tag: Seq<char>, attrs: Seq<AttributeView>, at: int) -> Verdict {
        if !starts_with(attrs[at].name, "<!--"@) && occurs_later(attrs, at) {
            Verdict::Drop
        } else {
            let first = first_occurrence(attrs, at);
            let verdict = self.judge_raw(tag, attrs[at].name, attrs[first].value);
            if verdict is Keep && first != at {
                Verdict::Replace(attrs[first].value)
            } else {
                verdict
            }
        }
    }

    /// The edits for the attributes of `attrs` from index `from` on, each
    /// in its turn; they end with the removal of the element where a
    /// verdict is `RemoveElement`.
    pub open spec fn attribute_plan_from(
        self,
        tag: Seq<char>,
        attrs: Seq<AttributeView>,
        from: int,
    ) -> Seq<Edit>
        decreases attrs.len() - from,
    {
        if from < 0 || from >= attrs.len() {
            Seq::empty()
        } else {
            match self.verdict_at(tag, attrs, from) {
                Verdict::RemoveElement => forced_removal(is_void(tag_index(tag))),
                Verdict::Drop => seq![Edit::RemoveAttribute(attrs[from].name)]
                    + self.attribute_plan_from(tag, attrs, from + 1),
                Verdict::Replace(value) => seq![Edit::SetAttribute(attrs[from].name, value)]
                    + self.attribute_plan_from(tag, attrs, from + 1),
                Verdict::Keep => self.attribute_plan_from(tag, attrs, from + 1),
            }
        }
    }

    /// The edits for the attributes `attrs` of an element called `tag`.
    pub open spec fn attribute_plan(self, tag: Seq<char>, attrs: Seq<AttributeView>) -> Seq<Edit> {
        self.attribute_plan_from(tag, attrs, 0)
    }
}

/// The names of a list of attributes, in order.
pub open spec fn attribute_names(attrs: Seq<AttributeView>) -> Seq<Seq<char>> {
    Seq::new(attrs.len(), |i: int| attrs[i].name)
}

/// Whether the attribute at `at` stays on the element.
pub open spec fn survives(policy: Policy, tag: Seq<char>, attrs: Seq<AttributeView>, at: int) -> bool {
    policy.verdict_at(tag, attrs, at) is Keep || policy.verdict_at(tag, attrs, at) is Replace
}

/// The names of the attributes before index `upto` that stay on the
/// element, in order.
pub open spec fn surviving_names(
    policy: Policy,
    tag: Seq<char>,
    attrs: Seq<AttributeView>,
    upto: int,
) -> Seq<Seq<char>>
    decreases upto,
{
    if upto <= 0 {
        Seq::empty()
    } else if survives(policy, tag, attrs, upto - 1) {
        surviving_names(policy, tag, attrs, upto - 1).push(attrs[upto - 1].name)
    } else {
        surviving_names(policy, tag, attrs, upto - 1)
    }
}

/// Whether the verdict on some attribute takes the element out.
pub open spec fn has_removal_verdict(policy: Policy, tag: Seq<char>, attrs: Seq<AttributeView>) -> bool {
    exists|j: int| 0 <= j < attrs.len() && policy.verdict_at(tag, attrs, j) is RemoveElement
}

/// Whether `name` is the name of an attribute before index `upto` that
/// survives.
pub open spec fn names_survivor(
    policy: Policy,
    tag: Seq<char>,
    attrs: Seq<AttributeView>,
    upto: int,
    name: Seq<char>,
) -> bool {
    exists|j: int| 0 <= j < upto && survives(policy, tag, attrs, j) && attrs[j].name == name
}

/// Every surviving name is the name of an attribute that survives.
pub proof fn lemma_surviving_names(
    policy: Policy,
    tag: Seq<char>,
    attrs: Seq<AttributeView>,
    upto: int,
)
    requires
        0 <= upto <= attrs.len(),
    ensures
        forall|q: int|
            0 <= q < surviving_names(policy, tag, attrs, upto).len() ==> names_survivor(
                policy,
                tag,
                attrs,
                upto,
                #[trigger] surviving_names(policy, tag, attrs, upto)[q],
            ),
    decreases upto,
{
    if upto > 0 {
        lemma_surviving_names(policy, tag, attrs, upto - 1);
        let before = surviving_names(policy, tag, attrs, upto - 1);
        let now = surviving_names(policy, tag, attrs, upto);
        assert forall|q: int| 0 <= q < now.len() implies names_survivor(
            policy,
            tag,
            attrs,
            upto,
            #[trigger] now[q],
        ) by {
            if q < before.len() {
                assert(now[q] == before[q]);
                assert(names_survivor(policy, tag, attrs, upto - 1, before[q]));
                let j = choose|j: int|
                    0 <= j < upto - 1 && survives(policy, tag, attrs, j) && attrs[j].name
                        == before[q];
                assert(0 <= j < upto && survives(policy, tag, attrs, j) && attrs[j].name == now[q]);
            } else {
                let j = upto - 1;
                assert(0 <= j < upto && survives(policy, tag, attrs, j) && attrs[j].name == now[q]);
            }
        }
    }
}

/// An attribute that survives is the last one with its name.
pub proof fn lemma_survivor_is_last(
    policy: Policy,
    tag: Seq<char>,
    attrs: Seq<AttributeView>,
    at: int,
    later: int,
)
    requires
        0 <= at < later < attrs.len(),
        survives(policy, tag, attrs, at),
    ensures
        attrs[at].name != attrs[later].name,
{
    if attrs[at].name == attrs[later].name {
        assert(occurs_later(attrs, at));
    }
}

/// Where the last attribute with a name is dropped, or takes the element
/// out, no attribute with that name survives.
pub proof fn lemma_dropped_does_not_survive(
    policy: Policy,
    tag: Seq<char>,
    attrs: Seq<AttributeView>,
    at: int,
)
    requires
        0 <= at < attrs.len(),
        !occurs_later(attrs, at),
        !survives(policy, tag, attrs, at),
    ensures
        !surviving_names(policy, tag, attrs, attrs.len() as int).contains(attrs[at].name),
{
    let names = surviving_names(policy, tag, attrs, attrs.len() as int);
    lemma_surviving_names(policy, tag, attrs, attrs.len() as int);
    if names.contains(attrs[at].name) {
        let q = choose|q: int| 0 <= q < names.len() && names[q] == attrs[at].name;
        assert(names_survivor(policy, tag, attrs, attrs.len() as int, names[q]));
        let j = choose|j: int|
            0 <= j < attrs.len() && survives(policy, tag, attrs, j) && attrs[j].name == names[q];
        if j < at {
            lemma_survivor_is_last(policy, tag, attrs, j, at);
        }
        if j > at {
            assert(occurs_later(attrs, at));
        }
    }
}

/// Whether the name of the attribute at `at` occurs again behind it in
/// `attributes`.
fn occurs_behind(attributes: &Vec<Attribute>, at: usize) -> (r: bool)
    requires
        at < attributes.len(),
    ensures
        r == occurs_later(attribute_views(attributes@), at as int),
{
    let mut j: usize = at + 1;
    while j < attributes.len()
        invariant
            at < j <= attributes.len(),
            forall|k: int|
                at < k < j ==> attribute_views(attributes@)[k].name != attribute_views(
                    attributes@,
                )[at as int].name,
        decreases attributes.len() - j,
    {
        if str_eq(attributes[j].name.as_str(), attributes[at].name.as_str()) {
            assert(attribute_views(attributes@)[j as int].name == attribute_views(
                attributes@,
            )[at as int].name);
            return true;
        }
        j += 1;
    }
    false
}

/// The index of the first attribute of `attributes` that has the name of
/// the one at `at`.
fn first_with_name(attributes: &Vec<Attribute>, at: usize) -> (r: usize)
    requires
        at < attributes.len(),
    ensures
        r == first_occurrence(attribute_views(attributes@), at as int),
        r <= at,
        attributes@[r as int].name@ == attributes@[at as int].name@,
{
    let ghost names = attribute_names(attribute_views(attributes@));
    let mut j: usize = 0;
    while j < at
        invariant
            j <= at,
            at < attributes.len(),
            names == attribute_names(attribute_views(attributes@)),
            forall|k: int| 0 <= k < j ==> names[k] != names[at as int],
        decreases at - j,
    {
        if str_eq(attributes[j].name.as_str(), attributes[at].name.as_str()) {
            proof {
                assert(names[j as int] == names[at as int]);
                lemma_first_key_is(names, names[at as int], 0, j as int);
            }
            return j;
        }
        j += 1;
    }
    proof {
        lemma_first_key_is(names, names[at as int], 0, at as int);
    }
    at
}

impl SelmaSanitizer {
    /// Whether `attr_val` names a scheme the way a URL does.
    pub fn has_protocol(attr_val: &str) -> (r: bool)
        ensures
            r == contains_pattern(attr_val@, "://"@),
    {
        has_pattern(attr_val, "://")
    }

    /// The part of `attr_val` that is looked up in a scheme list, and
    /// whether it is a marker of a relative value.
    pub fn scheme_of(attr_val: &str) -> (r: (String, bool))
        ensures
            r.0@ == scheme_candidate(attr_val@),
            r.1 == is_relative(attr_val@),
    {
        let chars = chars_of(attr_val);
        let n = chars.len();
        let mut k: usize = 0;
        while k < n && !(chars[k] == ':' || chars[k] == '/' || chars[k] == '#')
            invariant
                k <= n,
                n == chars.len(),
                chars@ == attr_val@,
                forall|i: int| 0 <= i < k ==> !is_scheme_delimiter(attr_val@[i]),
            decreases n - k,
        {
            k += 1;
        }
        proof {
            lemma_scheme_end_is(attr_val@, k as int);
        }
        if k < n {
            if chars[k] == '/' {
                proof {
                    reveal_strlit("/");
                }
                assert("/"@ =~= seq!['/']);
                ("/".to_owned(), true)
            } else if chars[k] == '#' {
                proof {
                    reveal_strlit("#");
                }
                assert("#"@ =~= seq!['#']);
                ("#".to_owned(), true)
            } else {
                assert(attr_val@.take(k as int) =~= attr_val@.subrange(0, k as int));
                (attr_val.substring_char(0, k).to_owned(), false)
            }
        } else if n == 0 {
            assert(attr_val@.subrange(0, 0) =~= attr_val@);
            (attr_val.substring_char(0, 0).to_owned(), false)
        } else {
            assert(attr_val@.take(n - 1) =~= attr_val@.subrange(0, n - 1));
            (attr_val.substring_char(0, n - 1).to_owned(), false)
        }
    }

    /// Whether the scheme list `protocols_allowed` lets `attr_val` through.
    pub fn has_allowed_protocol(protocols_allowed: &Vec<String>, attr_val: &str) -> (r: bool)
        ensures
            r == has_allowed_scheme(names(protocols_allowed@), attr_val@),
    {
        if list_contains(protocols_allowed, "all") {
            return true;
        }
        let (candidate, relative) = Self::scheme_of(attr_val);
        if relative {
            list_contains(protocols_allowed, candidate.as_str())
        } else {
            let lowered = to_lowercase(candidate.as_str());
            list_contains(protocols_allowed, lowered.as_str())
        }
    }

    /// The class tokens of `attr_val` that may stay on an element called
    /// `tag_name`, joined by single spaces; `None` where none may stay. The
    /// value itself where no class was granted that could apply to the tag.
    pub fn sanitize_class_attribute(&self, tag_name: &str, attr_val: &str) -> (r: Option<String>)
        ensures
            match self@.class_value(tag_name@, attr_val@) {
                Some(value) => r is Some && r->Some_0@ == value,
                None => r is None,
            },
    {
        if self.store().has_no_class_filter(tag_name) {
            return Some(attr_val.to_owned());
        }
        let tokens = words(attr_val);
        let mut valid_classes: Vec<String> = Vec::new();
        let mut i: usize = 0;
        assert(strs(tokens@).take(0) =~= Seq::<Seq<char>>::empty());
        assert(strs(valid_classes@) =~= Seq::<Seq<char>>::empty());
        while i < tokens.len()
            invariant
                i <= tokens.len(),
                strs(valid_classes@) == allowed_classes(
                    self@,
                    tag_name@,
                    strs(tokens@).take(i as int),
                ),
            decreases tokens.len() - i,
        {
            proof {
                let next = strs(tokens@).take(i + 1);
                assert(next.drop_last() =~= strs(tokens@).take(i as int));
                assert(next.last() == tokens@[i as int]@);
            }
            if self.store().allows_class(tag_name, tokens[i].as_str()) {
                let ghost before = strs(valid_classes@);
                valid_classes.push(tokens[i].clone());
                assert(strs(valid_classes@) =~= before.push(tokens@[i as int]@));
            }
            i += 1;
        }
        assert(strs(tokens@).take(tokens.len() as int) =~= strs(tokens@));
        if valid_classes.len() == 0 {
            return None;
        }
        Some(join_with(&valid_classes, " "))
    }

    /// Whether the attribute `attr_name` stays on an element called
    /// `tag_name`, given its unescaped value `attr_val`, and with which
    /// value it goes on: `None` where it goes.
    pub fn should_keep_attribute(&self, tag_name: &str, attr_name: &str, attr_val: &str) -> (r:
        Option<String>)
        ensures
            match self@.carried_value(tag_name@, attr_name@, attr_val@) {
                Some(value) => r is Some && r->Some_0@ == value,
                None => r is None,
            },
    {
        if !self.store().allows_attribute(tag_name, attr_name) {
            return None;
        }
        let is_empty = attr_val.unicode_len() == 0;
        match self.store().protocols_for(tag_name, attr_name) {
            None => {
                if !is_empty && Self::has_protocol(attr_val) {
                    return None;
                }
            },
            Some(protocols) => {
                if !is_empty && !Self::has_allowed_protocol(protocols, attr_val) {
                    return None;
                }
            },
        }
        if str_eq(attr_name, "class") {
            return self.sanitize_class_attribute(tag_name, attr_val);
        }
        Some(attr_val.to_owned())
    }

    /// What becomes of the attribute `attr_name` of an element called
    /// `tag_name`, given its unescaped value.
    pub fn judge_attribute(&self, tag_name: &str, attr_name: &str, unescaped: &str) -> (r:
        AttributeVerdict)
        ensures
            r@ == self@.judge(tag_name@, attr_name@, unescaped@),
    {
        let carried = match self.should_keep_attribute(tag_name, attr_name, unescaped) {
            None => {
                return AttributeVerdict::Drop;
            },
            Some(carried) => carried,
        };
        let tag = Tag::tag_from_tag_name(tag_name);
        if tag.is_meta() {
            if str_eq(attr_name, "charset") && !str_eq(unescaped, "utf-8") {
                AttributeVerdict::Replace("utf-8".to_owned())
            } else if str_eq(attr_name, "class") && !self.store().has_no_class_filter(tag_name) {
                AttributeVerdict::Replace(carried)
            } else {
                AttributeVerdict::Keep
            }
        } else if carried.as_str().unicode_len() == 0 {
            AttributeVerdict::Keep
        } else if str_eq(attr_name, "href") {
            AttributeVerdict::Replace(escape_href(carried.as_str()))
        } else {
            AttributeVerdict::Replace(escape_html(carried.as_str()))
        }
    }

    /// What becomes of the attribute `attr_name` of an element called
    /// `tag_name`, given its value as written: a name that begins with a
    /// comment opener takes the element with it; else the value is trimmed
    /// at its start, unescaped and judged.
    pub fn sanitize_attribute(&self, tag_name: &str, attr_name: &str, attr_val: &str) -> (r:
        AttributeVerdict)
        ensures
            r@ == self@.judge_raw(tag_name@, attr_name@, attr_val@),
    {
        if has_prefix(attr_name, "<!--") {
            return AttributeVerdict::RemoveElement;
        }
        let trimmed = trim_leading(attr_val);
        let unescaped = unescape_html(trimmed);
        self.judge_attribute(tag_name, attr_name, unescaped.as_str())
    }

    /// What becomes of the attribute at `at` of an element called
    /// `tag_name` that has the attributes `attributes`.
    pub fn verdict_for(&self, tag_name: &str, attributes: &Vec<Attribute>, at: usize) -> (r:
        AttributeVerdict)
        requires
            at < attributes.len(),
        ensures
            r@ == self@.verdict_at(tag_name@, attribute_views(attributes@), at as int),
    {
        let attribute = &attributes[at];
        assert(attribute_views(attributes@)[at as int] == attribute@);
        let name = attribute.name.as_str();
        if !has_prefix(name, "<!--") && occurs_behind(attributes, at) {
            return AttributeVerdict::Drop;
        }
        let first = first_with_name(attributes, at);
        assert(attribute_views(attributes@)[first as int] == attributes@[first as int]@);
        let verdict = self.sanitize_attribute(tag_name, name, attributes[first].value.as_str());
        match verdict {
            AttributeVerdict::Keep => if first == at {
                AttributeVerdict::Keep
            } else {
                AttributeVerdict::Replace(attributes[first].value.clone())
            },
            AttributeVerdict::RemoveElement => AttributeVerdict::RemoveElement,
            AttributeVerdict::Drop => AttributeVerdict::Drop,
            AttributeVerdict::Replace(value) => AttributeVerdict::Replace(value),
        }
    }

    /// The edits for the attributes of an element called `tag_name`, each
    /// attribute in its turn.
    pub fn plan_attributes(&self, tag_name: &str, attributes: &Vec<Attribute>) -> (plan: Vec<
        ElementEdit,
    >)
        ensures
            edit_views(plan@) == self@.attribute_plan(tag_name@, attribute_views(attributes@)),
    {
        let ghost attrs = attribute_views(attributes@);
        let mut plan: Vec<ElementEdit> = Vec::new();
        let mut i: usize = 0;
        assert(edit_views(plan@) + self@.attribute_plan_from(tag_name@, attrs, 0)
            =~= self@.attribute_plan(tag_name@, attrs));
        while i < attributes.len()
            invariant
                i <= attributes.len(),
                attrs == attribute_views(attributes@),
                self@.attribute_plan(tag_name@, attrs) == edit_views(plan@)
                    + self@.attribute_plan_from(tag_name@, attrs, i as int),
            decreases attributes.len() - i,
        {
            let ghost before = edit_views(plan@);
            let ghost rest = self@.attribute_plan_from(tag_name@, attrs, i + 1);
            let name = attributes[i].name.as_str();
            let verdict = self.verdict_for(tag_name, attributes, i);
            match verdict {
                AttributeVerdict::RemoveElement => {
                    let tag = Tag::tag_from_tag_name(tag_name);
                    let mut removal = Self::plan_forced_removal(tag.self_closing);
                    let ghost tail = edit_views(removal@);
                    plan.append(&mut removal);
                    assert(edit_views(plan@) =~= before + tail);
                    return plan;
                },
                AttributeVerdict::Drop => {
                    plan.push(ElementEdit::RemoveAttribute(name.to_owned()));
                    assert(edit_views(plan@) + rest =~= before + (seq![
                        Edit::RemoveAttribute(attrs[i as int].name),
                    ] + rest));
                },
                AttributeVerdict::Replace(value) => {
                    plan.push(ElementEdit::SetAttribute(name.to_owned(), value));
                    assert(edit_views(plan@) + rest =~= before + (seq![
                        Edit::SetAttribute(attrs[i as int].name, value@),
                    ] + rest));
                },
                AttributeVerdict::Keep => {},
            }
            i += 1;
        }
        assert(edit_views(plan@) + Seq::<Edit>::empty() =~= edit_views(plan@));
        plan
    }
}

/// What `allowed_classes` keeps: the tokens that the policy allows, and
/// no other.
pub proof fn lemma_allowed_classes(policy: Policy, tag: Seq<char>, tokens: Seq<Seq<char>>)
    ensures
        forall|t: Seq<char>| #[trigger]
            allowed_classes(policy, tag, tokens).contains(t) <==> tokens.contains(t)
                && policy.allows_class(tag, t),
        (forall|i: int| 0 <= i < tokens.len() ==> policy.allows_class(tag, #[trigger] tokens[i]))
            ==> allowed_classes(policy, tag, tokens) == tokens,
    decreases tokens.len(),
{
    if tokens.len() > 0 {
        let before = tokens.drop_last();
        let last = tokens.last();
        lemma_allowed_classes(policy, tag, before);
        let kept = allowed_classes(policy, tag, tokens);
        let kept_before = allowed_classes(policy, tag, before);
        assert forall|t: Seq<char>| #[trigger]
            kept.contains(t) <==> tokens.contains(t) && policy.allows_class(tag, t) by {
            if kept.contains(t) {
                let i = choose|i: int| 0 <= i < kept.len() && kept[i] == t;
                if i < kept_before.len() {
                    assert(kept_before[i] == t);
                    assert(kept_before.contains(t));
                    let j = choose|j: int| 0 <= j < before.len() && before[j] == t;
                    assert(tokens[j] == t);
                } else {
                    assert(t == last);
                    assert(tokens[tokens.len() - 1] == t);
                }
            }
            if tokens.contains(t) && policy.allows_class(tag, t) {
                let j = choose|j: int| 0 <= j < tokens.len() && tokens[j] == t;
                if j < before.len() {
                    assert(before[j] == t);
                    assert(before.contains(t));
                    assert(kept_before.contains(t));
                    let i = choose|i: int| 0 <= i < kept_before.len() && kept_before[i] == t;
                    assert(kept[i] == t);
                } else {
                    assert(kept[kept.len() - 1] == t);
                }
            }
        }
        if forall|i: int| 0 <= i < tokens.len() ==> policy.allows_class(tag, #[trigger] tokens[i]) {
            assert forall|i: int| 0 <= i < before.len() implies policy.allows_class(
                tag,
                #[trigger] before[i],
            ) by {
                assert(before[i] == tokens[i]);
            }
            assert(policy.allows_class(tag, tokens[tokens.len() - 1]));
            assert(kept =~= tokens);
        }
    } else {
        assert(allowed_classes(policy, tag, tokens) =~= tokens);
    }
}

/// The class tokens that survive are exactly the tokens of the value that
/// the policy allows, in their order; where no class was granted that
/// could apply to the tag, the value passes as it is; and what survived
/// once passes unchanged when it is filtered again.
pub proof fn lemma_class_filter(policy: Policy, tag: Seq<char>, value: Seq<char>)
    ensures
        policy.has_no_class_filter(tag) ==> policy.class_value(tag, value) == Some(value),
        policy.filters_classes(tag) ==> match policy.class_value(tag, value) {
            Some(kept) => {
                &&& split_whitespace(kept) == allowed_classes(policy, tag, split_whitespace(value))
                &&& forall|t: Seq<char>| #[trigger]
                    split_whitespace(kept).contains(t) <==> split_whitespace(value).contains(t)
                        && policy.allows_class(tag, t)
                &&& policy.class_value(tag, kept) == Some(kept)
            },
            None => forall|t: Seq<char>| #[trigger]
                split_whitespace(value).contains(t) ==> !policy.allows_class(tag, t),
        },
{
    if policy.filters_classes(tag) {
        let tokens = split_whitespace(value);
        let kept = allowed_classes(policy, tag, tokens);
        lemma_allowed_classes(policy, tag, tokens);
        lemma_tokens_are_words(value);
        if kept.len() > 0 {
            reveal_strlit(" ");
            assert(" "@ =~= seq![' ']);
            assert forall|i: int| 0 <= i < kept.len() implies is_word(#[trigger] kept[i]) by {
                assert(kept.contains(kept[i]));
                let j = choose|j: int| 0 <= j < tokens.len() && tokens[j] == kept[i];
                assert(is_word(tokens[j]));
            }
            lemma_split_join(kept);
            let joined = join(kept, " "@);
            assert(split_whitespace(joined) == kept);
            assert forall|i: int| 0 <= i < kept.len() implies policy.allows_class(
                tag,
                #[trigger] kept[i],
            ) by {
                assert(kept.contains(kept[i]));
            }
            lemma_allowed_classes(policy, tag, kept);
        } else {
            assert forall|t: Seq<char>| #[trigger] tokens.contains(t) implies !policy.allows_class(
                tag,
                t,
            ) by {
                if policy.allows_class(tag, t) {
                    assert(kept.contains(t));
                }
            }
        }
    }
}

/// An attribute without a scheme list whose unescaped value holds `://`
/// is dropped, whatever else the policy says of it.
pub proof fn lemma_unlisted_scheme_is_dropped(
    policy: Policy,
    tag: Seq<char>,
    attr: Seq<char>,
    value: Seq<char>,
)
    requires
        contains_pattern(value, "://"@),
        !policy.element(tag).protocols.dom().contains(attr),
    ensures
        policy.judge(tag, attr, value) == Verdict::Drop,
{
    reveal_strlit("://");
    let at = choose|at: int| occurs_at(value, "://"@, at);
    assert(value.len() >= 3);
}

/// An attribute that the policy does not grant is dropped.
pub proof fn lemma_ungranted_is_dropped(
    policy: Policy,
    tag: Seq<char>,
    attr: Seq<char>,
    value: Seq<char>,
)
    requires
        !policy.allows_attribute(tag, attr),
    ensures
        policy.judge(tag, attr, value) == Verdict::Drop,
{
}

/// Every attribute that is reached and whose verdict is `Drop` has an edit
/// that removes it.
pub proof fn lemma_plan_drops(policy: Policy, tag: Seq<char>, attrs: Seq<AttributeView>, at: int)
    requires
        0 <= at < attrs.len(),
        policy.verdict_at(tag, attrs, at) is Drop,
        forall|j: int| 0 <= j < at ==> !(policy.verdict_at(tag, attrs, j) is RemoveElement),
    ensures
        removes_attribute(policy.attribute_plan(tag, attrs), attrs[at].name),
{
    lemma_plan_drops_from(policy, tag, attrs, at, 0);
}

/// `lemma_plan_drops` for the edits from index `from` on.
proof fn lemma_plan_drops_from(
    policy: Policy,
    tag: Seq<char>,
    attrs: Seq<AttributeView>,
    at: int,
    from: int,
)
    requires
        0 <= from <= at < attrs.len(),
        policy.verdict_at(tag, attrs, at) is Drop,
        forall|j: int| from <= j < at ==> !(policy.verdict_at(tag, attrs, j) is RemoveElement),
    ensures
        removes_attribute(policy.attribute_plan_from(tag, attrs, from), attrs[at].name),
    decreases at - from,
{
    let plan = policy.attribute_plan_from(tag, attrs, from);
    let target = Edit::RemoveAttribute(attrs[at].name);
    if from == at {
        assert(plan[0] == target);
    } else {
        lemma_plan_drops_from(policy, tag, attrs, at, from + 1);
        let rest = policy.attribute_plan_from(tag, attrs, from + 1);
        let k = choose|k: int| 0 <= k < rest.len() && rest[k] == target;
        match policy.verdict_at(tag, attrs, from) {
            Verdict::RemoveElement => {},
            Verdict::Drop => {
                assert(plan[k + 1] == target);
            },
            Verdict::Replace(value) => {
                assert(plan[k + 1] == target);
            },
            Verdict::Keep => {
                assert(plan[k] == target);
            },
        }
    }
}

/// Where the first attribute with a name has no scheme list and a value
/// that, trimmed and unescaped, holds `://`, no attribute with that name
/// stays on the element: the last one with the name is dropped, unless its
/// name takes the whole element out, and the name is not among the names
/// that survive.
pub proof fn lemma_unlisted_scheme_does_not_survive(
    policy: Policy,
    tag: Seq<char>,
    attrs: Seq<AttributeView>,
    at: int,
)
    requires
        0 <= at < attrs.len(),
        !occurs_later(attrs, at),
        contains_pattern(
            unescaped_html(trim_start(attrs[first_occurrence(attrs, at)].value)),
            "://"@,
        ),
        !policy.element(tag).protocols.dom().contains(attrs[at].name),
    ensures
        policy.verdict_at(tag, attrs, at) is Drop || policy.verdict_at(tag, attrs, at)
            is RemoveElement,
        !surviving_names(policy, tag, attrs, attrs.len() as int).contains(attrs[at].name),
{
    lemma_unlisted_scheme_is_dropped(
        policy,
        tag,
        attrs[at].name,
        unescaped_html(trim_start(attrs[first_occurrence(attrs, at)].value)),
    );
    lemma_dropped_does_not_survive(policy, tag, attrs, at);
}

} // verus!

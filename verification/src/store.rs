//! The policy store: the allow-list state that a rewrite reads.

use crate::config::{
    entries_schemes, protocol_schemes, ConfigError, ProtocolEntry, ProtocolList,
};
use crate::policy::{with_flag, ElementPolicy, Policy, SELMA_SANITIZER_ALLOW};
use crate::tags::{tag_index, Tag, TAG_COUNT};
use crate::text::{list_contains, str_eq, strs};
use vstd::prelude::*;

verus! {

/// The names that a list of strings holds, as a set.
pub open spec fn names(list: Seq<String>) -> Set<Seq<char>> {
    strs(list).to_set()
}

/// The first index at or after `from` at which `keys` holds `key`, or the
/// length of `keys`.
pub open spec fn first_key(keys: Seq<Seq<char>>, key: Seq<char>, from: int) -> int
    decreases keys.len() - from,
{
    if from < 0 || from >= keys.len() {
        keys.len() as int
    } else if keys[from] == key {
        from
    } else {
        first_key(keys, key, from + 1)
    }
}

/// The first index of a key is in range, holds the key if it is an index of
/// the list, and no index before it holds the key.
pub proof fn lemma_first_key(keys: Seq<Seq<char>>, key: Seq<char>, from: int)
    requires
        0 <= from <= keys.len(),
    ensures
        from <= first_key(keys, key, from) <= keys.len(),
        first_key(keys, key, from) < keys.len() ==> keys[first_key(keys, key, from)] == key,
        forall|j: int| from <= j < first_key(keys, key, from) ==> keys[j] != key,
    decreases keys.len() - from,
{
    if from < keys.len() && keys[from] != key {
        lemma_first_key(keys, key, from + 1);
    }
}

/// An index that holds `key` with none before it is the first.
pub proof fn lemma_first_key_is(keys: Seq<Seq<char>>, key: Seq<char>, from: int, at: int)
    requires
        0 <= from <= at <= keys.len(),
        at < keys.len() ==> keys[at] == key,
        forall|j: int| from <= j < at ==> keys[j] != key,
    ensures
        first_key(keys, key, from) == at,
    decreases at - from,
{
    if from < at {
        lemma_first_key_is(keys, key, from + 1, at);
    }
}

/// Whether no name occurs twice in `names`.
pub open spec fn distinct(names: Seq<Seq<char>>) -> bool {
    forall|i: int, j: int| 0 <= i < j < names.len() ==> names[i] != names[j]
}

/// A name that a list does not hold can be appended to it without any name
/// occurring twice.
pub proof fn lemma_distinct_push(names: Seq<Seq<char>>, name: Seq<char>)
    requires
        distinct(names),
        !names.contains(name),
    ensures
        distinct(names.push(name)),
{
    let after = names.push(name);
    assert forall|i: int, j: int| 0 <= i < j < after.len() implies after[i] != after[j] by {
        if j == names.len() {
            assert(names[i] == after[i]);
            assert(names.contains(after[i]));
        }
    }
}

/// A key whose first index is the length of the list is not in the list.
pub proof fn lemma_absent_key(keys: Seq<Seq<char>>, key: Seq<char>)
    requires
        first_key(keys, key, 0) == keys.len(),
    ensures
        !keys.contains(key),
{
    lemma_first_key(keys, key, 0);
}

/// The schemes allowed in one attribute of one element.
pub struct ProtocolSanitizer {
    attr_name: String,
    protocols: Vec<String>,
}

/// What is configured for one tag by name.
pub struct ElementSanitizer {
    element_name: String,
    allowed_attrs: Vec<String>,
    required_attrs: Vec<String>,
    allowed_classes: Vec<String>,
    protocol_sanitizers: Vec<ProtocolSanitizer>,
}

/// The attribute names of a list of scheme lists, in order.
pub closed spec fn protocol_keys(list: Seq<ProtocolSanitizer>) -> Seq<Seq<char>> {
    Seq::new(list.len(), |i: int| list[i].attr_name@)
}

/// The scheme lists of a list, each under the name of its attribute.
pub closed spec fn protocol_map(list: Seq<ProtocolSanitizer>) -> Map<Seq<char>, Set<Seq<char>>> {
    Map::new(
        |attr: Seq<char>| first_key(protocol_keys(list), attr, 0) < list.len(),
        |attr: Seq<char>| names(list[first_key(protocol_keys(list), attr, 0)].protocols@),
    )
}

/// The tag names of a list of records, in order.
pub closed spec fn element_keys(list: Seq<ElementSanitizer>) -> Seq<Seq<char>> {
    Seq::new(list.len(), |i: int| list[i].element_name@)
}

/// The records of a list, each under the name of its tag.
pub closed spec fn element_map(list: Seq<ElementSanitizer>) -> Map<Seq<char>, ElementPolicy> {
    Map::new(
        |tag: Seq<char>| first_key(element_keys(list), tag, 0) < list.len(),
        |tag: Seq<char>| list[first_key(element_keys(list), tag, 0)]@,
    )
}

/// No attribute has two scheme lists, and no scheme list holds a scheme
/// twice.
pub closed spec fn protocols_wf(list: Seq<ProtocolSanitizer>) -> bool {
    &&& distinct(protocol_keys(list))
    &&& forall|k: int| 0 <= k < list.len() ==> distinct(strs(#[trigger] list[k].protocols@))
}

impl View for ElementSanitizer {
    type V = ElementPolicy;

    closed spec fn view(&self) -> ElementPolicy {
        ElementPolicy {
            allowed_attrs: names(self.allowed_attrs@),
            required_attrs: names(self.required_attrs@),
            allowed_classes: names(self.allowed_classes@),
            protocols: protocol_map(self.protocol_sanitizers@),
        }
    }
}

impl ElementSanitizer {
    /// Nothing occurs twice in the record of one tag.
    pub closed spec fn wf(&self) -> bool {
        &&& distinct(strs(self.allowed_attrs@))
        &&& distinct(strs(self.required_attrs@))
        &&& distinct(strs(self.allowed_classes@))
        &&& protocols_wf(self.protocol_sanitizers@)
    }

    /// The record of a tag for which nothing is configured yet.
    fn new(element_name: &str) -> (r: ElementSanitizer)
        ensures
            r@ == ElementPolicy::empty(),
            r.element_name@ == element_name@,
            r.wf(),
    {
        let r = ElementSanitizer {
            element_name: element_name.to_owned(),
            allowed_attrs: Vec::new(),
            required_attrs: Vec::new(),
            allowed_classes: Vec::new(),
            protocol_sanitizers: Vec::new(),
        };
        proof {
            lemma_names_empty(r.allowed_attrs@);
            lemma_names_empty(r.required_attrs@);
            lemma_names_empty(r.allowed_classes@);
            assert(protocol_map(r.protocol_sanitizers@) =~= Map::empty());
        }
        r
    }
}

/// An empty list holds no name.
proof fn lemma_names_empty(list: Seq<String>)
    requires
        list.len() == 0,
    ensures
        names(list) == Set::<Seq<char>>::empty(),
{
    assert(names(list) =~= Set::<Seq<char>>::empty());
}

/// Appending a string adds its name.
proof fn lemma_names_push(list: Seq<String>, item: String)
    ensures
        names(list.push(item)) == names(list).insert(item@),
{
    let a = strs(list.push(item));
    let b = strs(list);
    assert(a =~= b.push(item@));
    assert forall|n: Seq<char>| a.contains(n) == (b.contains(n) || n == item@) by {
        if b.contains(n) {
            let i = choose|i: int| 0 <= i < b.len() && b[i] == n;
            assert(a[i] == n);
        }
        if n == item@ {
            assert(a[b.len() as int] == n);
        }
    }
    assert(names(list.push(item)) =~= names(list).insert(item@));
}

/// Whether a list of strings is empty, as the set of its names.
proof fn lemma_names_is_empty(list: Seq<String>)
    ensures
        (names(list) == Set::<Seq<char>>::empty()) == (list.len() == 0),
{
    if list.len() == 0 {
        lemma_names_empty(list);
    } else {
        assert(strs(list)[0] == list[0]@);
        assert(strs(list).contains(list[0]@));
        assert(names(list).contains(list[0]@));
    }
}

/// Adds `name` to `list` unless the list holds it.
fn add_name(list: &mut Vec<String>, name: &str)
    requires
        distinct(strs(old(list)@)),
    ensures
        names(final(list)@) == names(old(list)@).insert(name@),
        distinct(strs(final(list)@)),
{
    if list_contains(list, name) {
        assert(names(list@).insert(name@) =~= names(list@));
    } else {
        let item = name.to_owned();
        proof {
            lemma_names_push(list@, item);
            lemma_distinct_push(strs(list@), item@);
            assert(strs(list@.push(item)) =~= strs(list@).push(item@));
        }
        list.push(item);
    }
}

/// Where `list` holds the record of `tag`: the first index with that name,
/// or the length of the list.
fn find_element(list: &Vec<ElementSanitizer>, tag: &str) -> (at: usize)
    ensures
        at == first_key(element_keys(list@), tag@, 0),
        at <= list.len(),
{
    let mut i: usize = 0;
    while i < list.len()
        invariant
            i <= list.len(),
            forall|j: int| 0 <= j < i ==> element_keys(list@)[j] != tag@,
        decreases list.len() - i,
    {
        if str_eq(list[i].element_name.as_str(), tag) {
            proof {
                lemma_first_key_is(element_keys(list@), tag@, 0, i as int);
            }
            return i;
        }
        i += 1;
    }
    proof {
        lemma_first_key_is(element_keys(list@), tag@, 0, i as int);
    }
    i
}

/// Where `list` holds the schemes of `attr`: the first index with that
/// name, or the length of the list.
fn find_protocol(list: &Vec<ProtocolSanitizer>, attr: &str) -> (at: usize)
    ensures
        at == first_key(protocol_keys(list@), attr@, 0),
        at <= list.len(),
{
    let mut i: usize = 0;
    while i < list.len()
        invariant
            i <= list.len(),
            forall|j: int| 0 <= j < i ==> protocol_keys(list@)[j] != attr@,
        decreases list.len() - i,
    {
        if str_eq(list[i].attr_name.as_str(), attr) {
            proof {
                lemma_first_key_is(protocol_keys(list@), attr@, 0, i as int);
            }
            return i;
        }
        i += 1;
    }
    proof {
        lemma_first_key_is(protocol_keys(list@), attr@, 0, i as int);
    }
    i
}

/// Replacing the record of `tag` replaces what the map holds for `tag`.
proof fn lemma_element_map_update(
    before: Seq<ElementSanitizer>,
    after: Seq<ElementSanitizer>,
    at: int,
    tag: Seq<char>,
)
    requires
        0 <= at < before.len(),
        after.len() == before.len(),
        at == first_key(element_keys(before), tag, 0),
        after[at].element_name@ == tag,
        forall|j: int| 0 <= j < before.len() && j != at ==> after[j] == before[j],
    ensures
        element_map(after) == element_map(before).insert(tag, after[at]@),
{
    let kb = element_keys(before);
    let ka = element_keys(after);
    lemma_first_key(kb, tag, 0);
    assert(ka =~= kb);
    assert forall|t: Seq<char>| #[trigger]
        element_map(after).dom().contains(t) == element_map(before).insert(
            tag,
            after[at]@,
        ).dom().contains(t) by {}
    assert forall|t: Seq<char>| #[trigger]
        element_map(after).dom().contains(t) implies element_map(after)[t] == element_map(
            before,
        ).insert(tag, after[at]@)[t] by {
        lemma_first_key(kb, t, 0);
        if t != tag {
            assert(first_key(kb, t, 0) != at);
        }
    }
    assert(element_map(after) =~= element_map(before).insert(tag, after[at]@));
}

/// Appending a record for a tag that has none adds it to the map.
proof fn lemma_element_map_push(before: Seq<ElementSanitizer>, record: ElementSanitizer)
    requires
        first_key(element_keys(before), record.element_name@, 0) == before.len(),
    ensures
        element_map(before.push(record)) == element_map(before).insert(
            record.element_name@,
            record@,
        ),
{
    let after = before.push(record);
    let kb = element_keys(before);
    let ka = element_keys(after);
    let tag = record.element_name@;
    assert(ka =~= kb.push(tag));
    assert forall|t: Seq<char>|
        first_key(ka, t, 0) == (if first_key(kb, t, 0) < kb.len() {
            first_key(kb, t, 0)
        } else if t == tag {
            kb.len() as int
        } else {
            ka.len() as int
        }) by {
        lemma_first_key(kb, t, 0);
        let at = first_key(kb, t, 0);
        if at < kb.len() {
            lemma_first_key_is(ka, t, 0, at);
        } else if t == tag {
            lemma_first_key_is(ka, t, 0, kb.len() as int);
        } else {
            lemma_first_key_is(ka, t, 0, ka.len() as int);
        }
    }
    assert forall|t: Seq<char>| #[trigger]
        element_map(after).dom().contains(t) implies element_map(after)[t] == element_map(
            before,
        ).insert(tag, record@)[t] by {
        lemma_first_key(kb, t, 0);
    }
    lemma_first_key(kb, tag, 0);
    assert(element_map(after) =~= element_map(before).insert(tag, record@));
}

/// Replacing the schemes of `attr` replaces what the map holds for `attr`.
proof fn lemma_protocol_map_update(
    before: Seq<ProtocolSanitizer>,
    after: Seq<ProtocolSanitizer>,
    at: int,
    attr: Seq<char>,
)
    requires
        0 <= at < before.len(),
        after.len() == before.len(),
        at == first_key(protocol_keys(before), attr, 0),
        after[at].attr_name@ == attr,
        forall|j: int| 0 <= j < before.len() && j != at ==> after[j] == before[j],
    ensures
        protocol_map(after) == protocol_map(before).insert(attr, names(after[at].protocols@)),
{
    let kb = protocol_keys(before);
    let ka = protocol_keys(after);
    lemma_first_key(kb, attr, 0);
    assert(ka =~= kb);
    assert forall|t: Seq<char>| #[trigger]
        protocol_map(after).dom().contains(t) implies protocol_map(after)[t] == protocol_map(
            before,
        ).insert(attr, names(after[at].protocols@))[t] by {
        lemma_first_key(kb, t, 0);
        if t != attr {
            assert(first_key(kb, t, 0) != at);
        }
    }
    assert(protocol_map(after) =~= protocol_map(before).insert(
        attr,
        names(after[at].protocols@),
    ));
}

/// Appending the schemes of an attribute that has none adds them to the map.
proof fn lemma_protocol_map_push(before: Seq<ProtocolSanitizer>, record: ProtocolSanitizer)
    requires
        first_key(protocol_keys(before), record.attr_name@, 0) == before.len(),
    ensures
        protocol_map(before.push(record)) == protocol_map(before).insert(
            record.attr_name@,
            names(record.protocols@),
        ),
{
    let after = before.push(record);
    let kb = protocol_keys(before);
    let ka = protocol_keys(after);
    let attr = record.attr_name@;
    assert(ka =~= kb.push(attr));
    assert forall|t: Seq<char>|
        first_key(ka, t, 0) == (if first_key(kb, t, 0) < kb.len() {
            first_key(kb, t, 0)
        } else if t == attr {
            kb.len() as int
        } else {
            ka.len() as int
        }) by {
        lemma_first_key(kb, t, 0);
        let at = first_key(kb, t, 0);
        if at < kb.len() {
            lemma_first_key_is(ka, t, 0, at);
        } else if t == attr {
            lemma_first_key_is(ka, t, 0, kb.len() as int);
        } else {
            lemma_first_key_is(ka, t, 0, ka.len() as int);
        }
    }
    assert forall|t: Seq<char>| #[trigger]
        protocol_map(after).dom().contains(t) implies protocol_map(after)[t] == protocol_map(
            before,
        ).insert(attr, names(record.protocols@))[t] by {
        lemma_first_key(kb, t, 0);
    }
    lemma_first_key(kb, attr, 0);
    assert(protocol_map(after) =~= protocol_map(before).insert(attr, names(record.protocols@)));
}

/// Adds each name of `items` to `list` unless the list holds it.
fn add_names(list: &mut Vec<String>, items: &Vec<String>)
    requires
        distinct(strs(old(list)@)),
    ensures
        names(final(list)@) == names(old(list)@).union(names(items@)),
        distinct(strs(final(list)@)),
{
    let mut i: usize = 0;
    assert(names(items@.take(0)) =~= Set::<Seq<char>>::empty()) by {
        lemma_names_empty(items@.take(0));
    }
    assert(names(list@).union(Set::<Seq<char>>::empty()) =~= names(list@));
    while i < items.len()
        invariant
            i <= items.len(),
            distinct(strs(list@)),
            names(list@) == names(old(list)@).union(names(items@.take(i as int))),
        decreases items.len() - i,
    {
        proof {
            assert(items@.take(i + 1) =~= items@.take(i as int).push(items@[i as int]));
            lemma_names_push(items@.take(i as int), items@[i as int]);
        }
        add_name(list, items[i].as_str());
        assert(names(list@) =~= names(old(list)@).union(names(items@.take(i + 1))));
        i += 1;
    }
    assert(items@.take(items.len() as int) =~= items@);
}

/// The schemes that `list` grants, or why it is refused.
fn expand_protocols(list: &ProtocolList) -> (r: Result<Vec<String>, ConfigError>)
    ensures
        match protocol_schemes(*list) {
            Ok(schemes) => r is Ok && strs(r->Ok_0@) == schemes,
            Err(e) => r == Err::<Vec<String>, ConfigError>(e),
        },
{
    match list {
        ProtocolList::All => {
            let mut out: Vec<String> = Vec::new();
            out.push("all".to_owned());
            assert(strs(out@) =~= seq!["all"@]);
            Ok(out)
        },
        ProtocolList::Invalid => Err(ConfigError::InvalidProtocolList),
        ProtocolList::List(entries) => {
            let mut out: Vec<String> = Vec::new();
            let mut i: usize = 0;
            assert(strs(out@) =~= entries_schemes(entries@.take(0)));
            while i < entries.len()
                invariant
                    i <= entries.len(),
                    *list == ProtocolList::List(*entries),
                    forall|j: int| 0 <= j < i ==> !(entries@[j] is All),
                    strs(out@) == entries_schemes(entries@.take(i as int)),
                decreases entries.len() - i,
            {
                let ghost before = strs(out@);
                proof {
                    assert(entries@.take(i + 1).drop_last() =~= entries@.take(i as int));
                    assert(entries@.take(i + 1).last() == entries@[i as int]);
                }
                match &entries[i] {
                    ProtocolEntry::Scheme(name) => {
                        out.push(name.clone());
                        assert(strs(out@) =~= before + seq![name@]);
                    },
                    ProtocolEntry::Relative => {
                        out.push("#".to_owned());
                        out.push("/".to_owned());
                        assert(strs(out@) =~= before + seq!["#"@, "/"@]);
                    },
                    ProtocolEntry::All => {
                        assert(entries@[i as int] is All);
                        return Err(ConfigError::AllInsideList);
                    },
                    ProtocolEntry::Other => {
                        assert(strs(out@) =~= before + Seq::<Seq<char>>::empty());
                    },
                }
                i += 1;
            }
            assert(entries@.take(entries.len() as int) =~= entries@);
            Ok(out)
        },
    }
}

/// The schemes that `map` holds for `attr`; none where it holds none.
pub open spec fn schemes_in(map: Map<Seq<char>, Set<Seq<char>>>, attr: Seq<char>) -> Set<
    Seq<char>,
> {
    if map.dom().contains(attr) {
        map[attr]
    } else {
        Set::empty()
    }
}

/// Adds `schemes` to those that `list` holds for `attr`.
fn add_schemes(list: &mut Vec<ProtocolSanitizer>, attr: &str, schemes: &Vec<String>)
    requires
        protocols_wf(old(list)@),
    ensures
        protocol_map(final(list)@) == protocol_map(old(list)@).insert(
            attr@,
            schemes_in(protocol_map(old(list)@), attr@).union(names(schemes@)),
        ),
        protocols_wf(final(list)@),
{
    let at = find_protocol(list, attr);
    let ghost before = list@;
    proof {
        lemma_first_key(protocol_keys(before), attr@, 0);
    }
    if at < list.len() {
        add_names(&mut list[at].protocols, schemes);
        proof {
            lemma_protocol_map_update(before, list@, at as int, attr@);
            assert(protocol_keys(list@) =~= protocol_keys(before));
            assert forall|k: int| 0 <= k < list@.len() implies distinct(
                strs(#[trigger] list@[k].protocols@),
            ) by {
                if k != at {
                    assert(list@[k] == before[k]);
                }
            }
        }
    } else {
        let mut record = ProtocolSanitizer { attr_name: attr.to_owned(), protocols: Vec::new() };
        proof {
            lemma_names_empty(record.protocols@);
        }
        add_names(&mut record.protocols, schemes);
        proof {
            lemma_protocol_map_push(before, record);
            assert(Set::<Seq<char>>::empty().union(names(schemes@)) =~= names(schemes@));
            lemma_absent_key(protocol_keys(before), attr@);
            lemma_distinct_push(protocol_keys(before), attr@);
            assert(protocol_keys(before.push(record)) =~= protocol_keys(before).push(attr@));
            assert forall|k: int| 0 <= k < before.push(record).len() implies distinct(
                strs(#[trigger] before.push(record)[k].protocols@),
            ) by {
                if k < before.len() {
                    assert(before.push(record)[k] == before[k]);
                }
            }
        }
        list.push(record);
    }
}

/// The allow-list state of a sanitizer: the flags of every tag, the grants
/// that hold for every element, and one record for each tag configured by
/// name.
pub struct Sanitizer {
    flags: [u8; TAG_COUNT],
    allowed_attrs: Vec<String>,
    allowed_classes: Vec<String>,
    element_sanitizers: Vec<ElementSanitizer>,
    escape_tagfilter: bool,
    allow_comments: bool,
    allow_doctype: bool,
}

impl View for Sanitizer {
    type V = Policy;

    closed spec fn view(&self) -> Policy {
        Policy {
            flags: self.flags@,
            allowed_attrs: names(self.allowed_attrs@),
            allowed_classes: names(self.allowed_classes@),
            elements: element_map(self.element_sanitizers@),
            escape_tagfilter: self.escape_tagfilter,
            allow_comments: self.allow_comments,
            allow_doctype: self.allow_doctype,
        }
    }
}

/// No tag has two records, and nothing occurs twice in any record.
pub closed spec fn records_wf(list: Seq<ElementSanitizer>) -> bool {
    &&& distinct(element_keys(list))
    &&& forall|k: int| 0 <= k < list.len() ==> (#[trigger] list[k]).wf()
}

/// Replacing one record by a well-formed one with the same name keeps the
/// records well formed.
proof fn lemma_records_update(before: Seq<ElementSanitizer>, after: Seq<ElementSanitizer>, at: int)
    requires
        records_wf(before),
        0 <= at < before.len(),
        after.len() == before.len(),
        after[at].element_name@ == before[at].element_name@,
        after[at].wf(),
        forall|j: int| 0 <= j < before.len() && j != at ==> after[j] == before[j],
    ensures
        records_wf(after),
{
    assert(element_keys(after) =~= element_keys(before));
    assert forall|k: int| 0 <= k < after.len() implies (#[trigger] after[k]).wf() by {
        if k != at {
            assert(after[k] == before[k]);
            assert(before[k].wf());
        }
    }
}

/// Appending a well-formed record for a tag that has none keeps the records
/// well formed.
proof fn lemma_records_push(before: Seq<ElementSanitizer>, record: ElementSanitizer)
    requires
        records_wf(before),
        record.wf(),
        first_key(element_keys(before), record.element_name@, 0) == before.len(),
    ensures
        records_wf(before.push(record)),
{
    let after = before.push(record);
    lemma_absent_key(element_keys(before), record.element_name@);
    lemma_distinct_push(element_keys(before), record.element_name@);
    assert(element_keys(after) =~= element_keys(before).push(record.element_name@));
    assert forall|k: int| 0 <= k < after.len() implies (#[trigger] after[k]).wf() by {
        if k < before.len() {
            assert(after[k] == before[k]);
            assert(before[k].wf());
        }
    }
}

impl Sanitizer {
    /// The lists of the store stand for sets and its records for a map:
    /// nothing occurs twice in any of them.
    pub closed spec fn wf(&self) -> bool {
        &&& distinct(strs(self.allowed_attrs@))
        &&& distinct(strs(self.allowed_classes@))
        &&& records_wf(self.element_sanitizers@)
    }

    /// The store that allows nothing.
    pub fn new() -> (r: Sanitizer)
        ensures
            r@ == Policy::initial(),
            r.wf(),
    {
        let flags: [u8; TAG_COUNT] = [0u8; TAG_COUNT];
        let r = Sanitizer {
            flags,
            allowed_attrs: Vec::new(),
            allowed_classes: Vec::new(),
            element_sanitizers: Vec::new(),
            escape_tagfilter: true,
            allow_comments: false,
            allow_doctype: true,
        };
        proof {
            lemma_names_empty(r.allowed_attrs@);
            lemma_names_empty(r.allowed_classes@);
            assert(element_map(r.element_sanitizers@) =~= Map::empty());
            assert(r.flags@ =~= Policy::initial().flags);
        }
        r
    }

    /// Switches `flag` on or off for the tag called `tag_name`; a name that
    /// the tag table does not hold stands for every such name.
    pub fn set_flag(&mut self, tag_name: &str, flag: u8, set: bool)
        requires
            old(self).wf(),
        ensures
            final(self)@ == old(self)@.set_flag(tag_name@, flag, set),
            final(self)@.wf(),
            final(self).wf(),
    {
        let tag = Tag::tag_from_tag_name(tag_name);
        let index = tag.index;
        let current = self.flags[index];
        let updated = if set {
            current | flag
        } else {
            current & !flag
        };
        self.flags[index] = updated;
        assert(self.flags@ =~= old(self).flags@.update(tag_index(tag_name@), updated));
    }

    /// Switches `flag` on or off for every tag.
    pub fn set_all_flags(&mut self, flag: u8, set: bool)
        requires
            old(self).wf(),
        ensures
            final(self)@ == old(self)@.set_all_flags(flag, set),
            final(self)@.wf(),
            final(self).wf(),
    {
        let mut i: usize = 0;
        while i < TAG_COUNT
            invariant
                i <= TAG_COUNT,
                self.flags@.len() == TAG_COUNT,
                old(self).flags@.len() == TAG_COUNT,
                forall|j: int| 0 <= j < i ==> self.flags@[j] == with_flag(old(self).flags@[j], flag, set),
                forall|j: int| i <= j < TAG_COUNT ==> self.flags@[j] == old(self).flags@[j],
                self.wf(),
                self.allowed_attrs == old(self).allowed_attrs,
                self.allowed_classes == old(self).allowed_classes,
                self.element_sanitizers == old(self).element_sanitizers,
                self.escape_tagfilter == old(self).escape_tagfilter,
                self.allow_comments == old(self).allow_comments,
                self.allow_doctype == old(self).allow_doctype,
            decreases TAG_COUNT - i,
        {
            let current = self.flags[i];
            let updated = if set {
                current | flag
            } else {
                current & !flag
            };
            self.flags[i] = updated;
            i += 1;
        }
        assert(self.flags@ =~= old(self)@.set_all_flags(flag, set).flags);
    }

    /// Grants the attribute `attr_name` to `element`, or to every element if
    /// `element` is `"all"`.
    pub fn allow_attribute(&mut self, element: &str, attr_name: &str)
        requires
            old(self).wf(),
        ensures
            final(self)@ == old(self)@.allow_attribute(element@, attr_name@),
            final(self)@.wf(),
            final(self).wf(),
    {
        if str_eq(element, "all") {
            add_name(&mut self.allowed_attrs, attr_name);
        } else {
            let at = find_element(&self.element_sanitizers, element);
            if at < self.element_sanitizers.len() {
                let ghost before = self.element_sanitizers@;
                proof {
                    lemma_first_key(element_keys(before), element@, 0);
                }
                assert(before[at as int].wf());
                add_name(&mut self.element_sanitizers[at].allowed_attrs, attr_name);
                proof {
                    lemma_element_map_update(before, self.element_sanitizers@, at as int, element@);
                    lemma_records_update(before, self.element_sanitizers@, at as int);
                }
            } else {
                let mut record = ElementSanitizer::new(element);
                add_name(&mut record.allowed_attrs, attr_name);
                proof {
                    lemma_element_map_push(self.element_sanitizers@, record);
                    lemma_records_push(self.element_sanitizers@, record);
                }
                self.element_sanitizers.push(record);
            }
        }
    }

    /// Grants the class `class_name` to `element`, or to every element if
    /// `element` is `"all"`.
    pub fn allow_class(&mut self, element: &str, class_name: &str)
        requires
            old(self).wf(),
        ensures
            final(self)@ == old(self)@.allow_class(element@, class_name@),
            final(self)@.wf(),
            final(self).wf(),
    {
        if str_eq(element, "all") {
            add_name(&mut self.allowed_classes, class_name);
        } else {
            let at = find_element(&self.element_sanitizers, element);
            if at < self.element_sanitizers.len() {
                let ghost before = self.element_sanitizers@;
                proof {
                    lemma_first_key(element_keys(before), element@, 0);
                }
                assert(before[at as int].wf());
                add_name(&mut self.element_sanitizers[at].allowed_classes, class_name);
                proof {
                    lemma_element_map_update(before, self.element_sanitizers@, at as int, element@);
                    lemma_records_update(before, self.element_sanitizers@, at as int);
                }
            } else {
                let mut record = ElementSanitizer::new(element);
                add_name(&mut record.allowed_classes, class_name);
                proof {
                    lemma_element_map_push(self.element_sanitizers@, record);
                    lemma_records_push(self.element_sanitizers@, record);
                }
                self.element_sanitizers.push(record);
            }
        }
    }

    /// Adds the schemes of `protocols` to those allowed in the attribute
    /// `attr_name` of `element`. A list that holds `ProtocolEntry::All`, and
    /// `ProtocolList::Invalid`, are refused and change nothing.
    pub fn allow_protocols(&mut self, element: &str, attr_name: &str, protocols: &ProtocolList) -> (r:
        Result<(), ConfigError>)
        requires
            old(self).wf(),
        ensures
            match protocol_schemes(*protocols) {
                Ok(schemes) => r is Ok && final(self)@ == old(self)@.allow_schemes(
                    element@,
                    attr_name@,
                    schemes.to_set(),
                ),
                Err(e) => r == Err::<(), ConfigError>(e) && final(self)@ == old(self)@,
            },
            final(self)@.wf(),
            final(self).wf(),
    {
        let schemes = match expand_protocols(protocols) {
            Ok(schemes) => schemes,
            Err(e) => {
                return Err(e);
            },
        };
        proof {
            lemma_names_is_empty(schemes@);
        }
        if schemes.len() == 0 {
            return Ok(());
        }
        let at = find_element(&self.element_sanitizers, element);
        if at < self.element_sanitizers.len() {
            let ghost before = self.element_sanitizers@;
            proof {
                lemma_first_key(element_keys(before), element@, 0);
            }
            assert(before[at as int].wf());
            add_schemes(&mut self.element_sanitizers[at].protocol_sanitizers, attr_name, &schemes);
            proof {
                lemma_element_map_update(before, self.element_sanitizers@, at as int, element@);
                lemma_records_update(before, self.element_sanitizers@, at as int);
            }
        } else {
            let mut record = ElementSanitizer::new(element);
            add_schemes(&mut record.protocol_sanitizers, attr_name, &schemes);
            proof {
                lemma_element_map_push(self.element_sanitizers@, record);
                lemma_records_push(self.element_sanitizers@, record);
            }
            self.element_sanitizers.push(record);
        }
        Ok(())
    }

    /// Switches on or off whether the final pass removes the escape-worthy
    /// tags.
    pub fn set_escape_tagfilter(&mut self, allow: bool) -> (r: bool)
        requires
            old(self).wf(),
        ensures
            r == allow,
            final(self)@ == (Policy { escape_tagfilter: allow, ..old(self)@ }),
            final(self).wf(),
    {
        self.escape_tagfilter = allow;
        allow
    }

    /// Switches on or off whether comments stay in the output.
    pub fn set_allow_comments(&mut self, allow: bool) -> (r: bool)
        requires
            old(self).wf(),
        ensures
            r == allow,
            final(self)@ == (Policy { allow_comments: allow, ..old(self)@ }),
            final(self).wf(),
    {
        self.allow_comments = allow;
        allow
    }

    /// Switches on or off whether the doctype stays in the output.
    pub fn set_allow_doctype(&mut self, allow: bool) -> (r: bool)
        requires
            old(self).wf(),
        ensures
            r == allow,
            final(self)@ == (Policy { allow_doctype: allow, ..old(self)@ }),
            final(self).wf(),
    {
        self.allow_doctype = allow;
        allow
    }

    /// Whether the final pass removes the escape-worthy tags.
    pub fn escape_tagfilter(&self) -> (r: bool)
        ensures
            r == self@.escape_tagfilter,
    {
        self.escape_tagfilter
    }

    /// Whether comments stay in the output.
    pub fn allow_comments(&self) -> (r: bool)
        ensures
            r == self@.allow_comments,
    {
        self.allow_comments
    }

    /// Whether the doctype stays in the output.
    pub fn allow_doctype(&self) -> (r: bool)
        ensures
            r == self@.allow_doctype,
    {
        self.allow_doctype
    }

    /// Every store has one set of flags for each index of the tag table.
    pub proof fn lemma_wf(&self)
        ensures
            self@.wf(),
    {
    }

    /// The flags of the tag called `tag_name`.
    pub fn flags_of(&self, tag_name: &str) -> (r: u8)
        ensures
            r == self@.flags[tag_index(tag_name@)],
    {
        self.flags_at(Tag::tag_from_tag_name(tag_name))
    }

    /// Whether an element called `tag_name` may stay in the output.
    pub fn allows_tag(&self, tag_name: &str) -> (r: bool)
        ensures
            r == self@.allows(tag_index(tag_name@)),
    {
        self.allows_at(Tag::tag_from_tag_name(tag_name))
    }

    /// The flags of `tag`.
    pub(crate) fn flags_at(&self, tag: Tag) -> (r: u8)
        requires
            tag.index < TAG_COUNT,
        ensures
            r == self@.flags[tag.index as int],
    {
        self.flags[tag.index]
    }

    /// Whether the tag at `tag`'s index may stay in the output.
    pub(crate) fn allows_at(&self, tag: Tag) -> (r: bool)
        requires
            tag.index < TAG_COUNT,
        ensures
            r == self@.allows(tag.index as int),
    {
        self.flags[tag.index] & SELMA_SANITIZER_ALLOW != 0
    }

    /// Whether the attribute `attr_name` may stay on an element called
    /// `tag_name`, by its name alone.
    pub fn allows_attribute(&self, tag_name: &str, attr_name: &str) -> (r: bool)
        ensures
            r == self@.allows_attribute(tag_name@, attr_name@),
    {
        let at = find_element(&self.element_sanitizers, tag_name);
        if at < self.element_sanitizers.len() && list_contains(
            &self.element_sanitizers[at].allowed_attrs,
            attr_name,
        ) {
            return true;
        }
        list_contains(&self.allowed_attrs, attr_name)
    }

    /// The schemes allowed in the attribute `attr_name` of an element called
    /// `tag_name`, where it has a scheme list.
    pub fn protocols_for(&self, tag_name: &str, attr_name: &str) -> (r: Option<&Vec<String>>)
        ensures
            r is Some == self@.element(tag_name@).protocols.dom().contains(attr_name@),
            r is Some ==> names(r->Some_0@) == self@.element(tag_name@).protocols[attr_name@],
    {
        let at = find_element(&self.element_sanitizers, tag_name);
        if at >= self.element_sanitizers.len() {
            return None;
        }
        let record = &self.element_sanitizers[at];
        let k = find_protocol(&record.protocol_sanitizers, attr_name);
        if k >= record.protocol_sanitizers.len() {
            return None;
        }
        Some(&record.protocol_sanitizers[k].protocols)
    }

    /// Whether no class was granted that could apply to an element called
    /// `tag_name`.
    pub fn has_no_class_filter(&self, tag_name: &str) -> (r: bool)
        ensures
            r == self@.has_no_class_filter(tag_name@),
    {
        proof {
            lemma_names_is_empty(self.allowed_classes@);
        }
        if self.allowed_classes.len() != 0 {
            return false;
        }
        let at = find_element(&self.element_sanitizers, tag_name);
        if at >= self.element_sanitizers.len() {
            return true;
        }
        proof {
            lemma_names_is_empty(self.element_sanitizers@[at as int].allowed_classes@);
        }
        self.element_sanitizers[at].allowed_classes.len() == 0
    }

    /// Whether the class `class_name` may stay on an element called
    /// `tag_name`.
    pub fn allows_class(&self, tag_name: &str, class_name: &str) -> (r: bool)
        ensures
            r == self@.allows_class(tag_name@, class_name@),
    {
        if list_contains(&self.allowed_classes, class_name) {
            return true;
        }
        let at = find_element(&self.element_sanitizers, tag_name);
        at < self.element_sanitizers.len() && list_contains(
            &self.element_sanitizers[at].allowed_classes,
            class_name,
        )
    }
}

} // verus!

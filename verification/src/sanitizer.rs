//! The sanitizer: a policy store built from a configuration.

use crate::config::{
    protocol_schemes, AttributeGrant, Config, ConfigError, ProtocolGrant, RemoveContents,
};
use crate::policy::{
    has_flag, lemma_with_flag_sets, with_flag, Policy, SELMA_SANITIZER_ALLOW,
    SELMA_SANITIZER_REMOVE_CONTENTS, SELMA_SANITIZER_WRAP_WHITESPACE,
};
use crate::tags::{lemma_tag_index, tag_index, TAG_COUNT};
use crate::store::Sanitizer;
use crate::text::strs;
use vstd::prelude::*;

verus! {

/// `policy` with `flag` switched on for each of `tags`.
pub open spec fn flag_each(policy: Policy, tags: Seq<Seq<char>>, flag: u8) -> Policy
    decreases tags.len(),
{
    if tags.len() == 0 {
        policy
    } else {
        flag_each(policy, tags.drop_last(), flag).set_flag(tags.last(), flag, true)
    }
}

/// `policy` with each of `attrs` granted to `element`.
pub open spec fn grant_each(policy: Policy, element: Seq<char>, attrs: Seq<Seq<char>>) -> Policy
    decreases attrs.len(),
{
    if attrs.len() == 0 {
        policy
    } else {
        grant_each(policy, element, attrs.drop_last()).allow_attribute(element, attrs.last())
    }
}

/// `policy` with every grant of `grants`.
pub open spec fn grant_attributes(policy: Policy, grants: Seq<AttributeGrant>) -> Policy
    decreases grants.len(),
{
    if grants.len() == 0 {
        policy
    } else {
        grant_each(
            grant_attributes(policy, grants.drop_last()),
            grants.last().element@,
            strs(grants.last().attributes@),
        )
    }
}

/// Why the first scheme list that is refused is refused, if one is.
pub open spec fn protocols_error(grants: Seq<ProtocolGrant>) -> Option<ConfigError>
    decreases grants.len(),
{
    if grants.len() == 0 {
        None
    } else {
        match protocols_error(grants.drop_last()) {
            Some(e) => Some(e),
            None => match protocol_schemes(grants.last().protocols) {
                Ok(_) => None,
                Err(e) => Some(e),
            },
        }
    }
}

/// `policy` with the schemes of every scheme list of `grants`.
pub open spec fn grant_protocols(policy: Policy, grants: Seq<ProtocolGrant>) -> Policy
    decreases grants.len(),
{
    if grants.len() == 0 {
        policy
    } else {
        let before = grant_protocols(policy, grants.drop_last());
        match protocol_schemes(grants.last().protocols) {
            Ok(schemes) => before.allow_schemes(
                grants.last().element@,
                grants.last().attribute@,
                schemes.to_set(),
            ),
            Err(_) => before,
        }
    }
}

/// `policy` with the flags that `config` asks for: `ALLOW` on its elements,
/// `REMOVE_CONTENTS` as `remove_contents` says, `WRAP_WHITESPACE` on its
/// whitespace elements.
pub open spec fn configured_flags(policy: Policy, config: Config) -> Policy {
    let allowed = flag_each(policy, strs(config.elements@), SELMA_SANITIZER_ALLOW);
    let removed = match config.remove_contents {
        RemoveContents::Everywhere(set) => allowed.set_all_flags(
            SELMA_SANITIZER_REMOVE_CONTENTS,
            set,
        ),
        RemoveContents::Elements(tags) => flag_each(
            allowed,
            strs(tags@),
            SELMA_SANITIZER_REMOVE_CONTENTS,
        ),
        _ => allowed,
    };
    flag_each(removed, strs(config.whitespace_elements@), SELMA_SANITIZER_WRAP_WHITESPACE)
}

/// Why `config` is refused, if it is.
pub open spec fn config_error(config: Config) -> Option<ConfigError> {
    if config.remove_contents is Invalid {
        Some(ConfigError::InvalidRemoveContents)
    } else {
        protocols_error(config.protocols@)
    }
}

/// The policy that `config` describes.
pub open spec fn configured(config: Config) -> Policy {
    let granted = grant_protocols(
        grant_attributes(configured_flags(Policy::initial(), config), config.attributes@),
        config.protocols@,
    );
    Policy {
        escape_tagfilter: match config.escape_tagfilter {
            Some(b) => b,
            None => true,
        },
        allow_comments: match config.allow_comments {
            Some(b) => b,
            None => false,
        },
        allow_doctype: match config.allow_doctype {
            Some(b) => b,
            None => true,
        },
        ..granted
    }
}

/// Switches `flag` on for each of `tags`.
fn flag_tags(store: &mut Sanitizer, tags: &Vec<String>, flag: u8)
    requires
        old(store).wf(),
    ensures
        final(store)@ == flag_each(old(store)@, strs(tags@), flag),
        final(store).wf(),
{
    let mut i: usize = 0;
    assert(strs(tags@).take(0) =~= Seq::<Seq<char>>::empty());
    while i < tags.len()
        invariant
            i <= tags.len(),
            store.wf(),
            store@ == flag_each(old(store)@, strs(tags@).take(i as int), flag),
        decreases tags.len() - i,
    {
        proof {
            let next = strs(tags@).take(i + 1);
            assert(next.drop_last() =~= strs(tags@).take(i as int));
            assert(next.last() == tags@[i as int]@);
        }
        store.set_flag(tags[i].as_str(), flag, true);
        i += 1;
    }
    assert(strs(tags@).take(tags.len() as int) =~= strs(tags@));
}

/// Grants each of `attrs` to `element`.
fn grant_list(store: &mut Sanitizer, element: &str, attrs: &Vec<String>)
    requires
        old(store).wf(),
    ensures
        final(store)@ == grant_each(old(store)@, element@, strs(attrs@)),
        final(store).wf(),
{
    let mut i: usize = 0;
    assert(strs(attrs@).take(0) =~= Seq::<Seq<char>>::empty());
    while i < attrs.len()
        invariant
            i <= attrs.len(),
            store.wf(),
            store@ == grant_each(old(store)@, element@, strs(attrs@).take(i as int)),
        decreases attrs.len() - i,
    {
        proof {
            let next = strs(attrs@).take(i + 1);
            assert(next.drop_last() =~= strs(attrs@).take(i as int));
            assert(next.last() == attrs@[i as int]@);
        }
        store.allow_attribute(element, attrs[i].as_str());
        i += 1;
    }
    assert(strs(attrs@).take(attrs.len() as int) =~= strs(attrs@));
}

/// A sanitizer: the policy that a rewrite applies to every element,
/// attribute, comment and doctype.
pub struct SelmaSanitizer {
    store: Sanitizer,
}

impl View for SelmaSanitizer {
    type V = Policy;

    closed spec fn view(&self) -> Policy {
        self.store@
    }
}

impl SelmaSanitizer {
    /// Builds the sanitizer that `config` describes. A configuration whose
    /// `remove_contents` is invalid, or one of whose scheme lists is refused,
    /// builds none.
    pub fn new(config: &Config) -> (r: Result<SelmaSanitizer, ConfigError>)
        ensures
            match config_error(*config) {
                Some(e) => r == Err::<SelmaSanitizer, ConfigError>(e),
                None => r is Ok && r->Ok_0@ == configured(*config),
            },
    {
        let mut store = Sanitizer::new();
        match Self::setup_config(&mut store, config) {
            Ok(_) => {},
            Err(e) => {
                return Err(e);
            },
        }
        let attributes = &config.attributes;
        let ghost flagged = store@;
        let mut i: usize = 0;
        assert(attributes@.take(0) =~= Seq::<AttributeGrant>::empty());
        while i < attributes.len()
            invariant
                i <= attributes.len(),
                store.wf(),
                store@ == grant_attributes(flagged, attributes@.take(i as int)),
            decreases attributes.len() - i,
        {
            proof {
                let next = attributes@.take(i + 1);
                assert(next.drop_last() =~= attributes@.take(i as int));
                assert(next.last() == attributes@[i as int]);
            }
            grant_list(&mut store, attributes[i].element.as_str(), &attributes[i].attributes);
            i += 1;
        }
        assert(attributes@.take(attributes.len() as int) =~= attributes@);
        let protocols = &config.protocols;
        let ghost granted = store@;
        let mut k: usize = 0;
        assert(protocols@.take(0) =~= Seq::<ProtocolGrant>::empty());
        while k < protocols.len()
            invariant
                k <= protocols.len(),
                store.wf(),
                !(config.remove_contents is Invalid),
                *protocols == config.protocols,
                protocols_error(protocols@.take(k as int)) is None,
                store@ == grant_protocols(granted, protocols@.take(k as int)),
            decreases protocols.len() - k,
        {
            proof {
                let next = protocols@.take(k + 1);
                assert(next.drop_last() =~= protocols@.take(k as int));
                assert(next.last() == protocols@[k as int]);
            }
            let grant = &protocols[k];
            match store.allow_protocols(
                grant.element.as_str(),
                grant.attribute.as_str(),
                &grant.protocols,
            ) {
                Ok(_) => {},
                Err(e) => {
                    proof {
                        lemma_protocols_error_stays(protocols@, k + 1);
                    }
                    return Err(e);
                },
            }
            k += 1;
        }
        assert(protocols@.take(protocols.len() as int) =~= protocols@);
        match config.escape_tagfilter {
            Some(b) => {
                store.set_escape_tagfilter(b);
            },
            None => {
                store.set_escape_tagfilter(true);
            },
        }
        match config.allow_comments {
            Some(b) => {
                store.set_allow_comments(b);
            },
            None => {
                store.set_allow_comments(false);
            },
        }
        match config.allow_doctype {
            Some(b) => {
                store.set_allow_doctype(b);
            },
            None => {
                store.set_allow_doctype(true);
            },
        }
        Ok(SelmaSanitizer { store })
    }

    /// Sets the flags of `store` as `config` asks. An invalid
    /// `remove_contents` is refused and changes nothing.
    pub fn setup_config(store: &mut Sanitizer, config: &Config) -> (r: Result<(), ConfigError>)
        requires
            old(store).wf(),
        ensures
            final(store).wf(),
            config.remove_contents is Invalid ==> r == Err::<(), ConfigError>(
                ConfigError::InvalidRemoveContents,
            ) && final(store)@ == old(store)@,
            !(config.remove_contents is Invalid) ==> r is Ok && final(store)@ == configured_flags(
                old(store)@,
                *config,
            ),
    {
        if let RemoveContents::Invalid = config.remove_contents {
            return Err(ConfigError::InvalidRemoveContents);
        }
        flag_tags(store, &config.elements, SELMA_SANITIZER_ALLOW);
        match &config.remove_contents {
            RemoveContents::Everywhere(set) => {
                store.set_all_flags(SELMA_SANITIZER_REMOVE_CONTENTS, *set);
            },
            RemoveContents::Elements(tags) => {
                flag_tags(store, tags, SELMA_SANITIZER_REMOVE_CONTENTS);
            },
            _ => {},
        }
        flag_tags(store, &config.whitespace_elements, SELMA_SANITIZER_WRAP_WHITESPACE);
        Ok(())
    }

    /// A sanitizer that applies what `store` holds.
    pub fn from_store(store: Sanitizer) -> (r: SelmaSanitizer)
        ensures
            r@ == store@,
    {
        SelmaSanitizer { store }
    }

    /// The policy store that this sanitizer applies.
    pub fn store(&self) -> (r: &Sanitizer)
        ensures
            r@ == self@,
            self@.wf(),
    {
        proof {
            self.store.lemma_wf();
        }
        &self.store
    }

    /// Whether the final pass removes the escape-worthy tags.
    pub fn get_escape_tagfilter(&self) -> (r: bool)
        ensures
            r == self@.escape_tagfilter,
    {
        self.store.escape_tagfilter()
    }

    /// Whether comments stay in the output.
    pub fn get_allow_comments(&self) -> (r: bool)
        ensures
            r == self@.allow_comments,
    {
        self.store.allow_comments()
    }

    /// Whether the doctype stays in the output.
    pub fn get_allow_doctype(&self) -> (r: bool)
        ensures
            r == self@.allow_doctype,
    {
        self.store.allow_doctype()
    }
}

/// Once a prefix of the scheme lists holds a refused one, the error of the
/// whole is the error of that prefix.
proof fn lemma_protocols_error_stays(grants: Seq<ProtocolGrant>, k: int)
    requires
        0 <= k <= grants.len(),
        protocols_error(grants.take(k)) is Some,
    ensures
        protocols_error(grants) == protocols_error(grants.take(k)),
    decreases grants.len() - k,
{
    if k == grants.len() {
        assert(grants.take(k) =~= grants);
    } else {
        assert(grants.take(k + 1).drop_last() =~= grants.take(k));
        lemma_protocols_error_stays(grants, k + 1);
    }
}

/// Whether one of `tags` has the index `index` in the tag table.
pub open spec fn lists(tags: Seq<Seq<char>>, index: int) -> bool {
    exists|k: int| 0 <= k < tags.len() && tag_index(#[trigger] tags[k]) == index
}

/// `flag_each` switches `flag` on for the listed tags and changes nothing
/// else.
pub proof fn lemma_flag_each(policy: Policy, tags: Seq<Seq<char>>, flag: u8, index: int)
    requires
        policy.wf(),
        0 <= index < TAG_COUNT,
    ensures
        flag_each(policy, tags, flag).wf(),
        flag_each(policy, tags, flag).flags[index] == (if lists(tags, index) {
            with_flag(policy.flags[index], flag, true)
        } else {
            policy.flags[index]
        }),
        flag_each(policy, tags, flag) == (Policy {
            flags: flag_each(policy, tags, flag).flags,
            ..policy
        }),
    decreases tags.len(),
{
    if tags.len() > 0 {
        let before = tags.drop_last();
        let last = tags.last();
        lemma_tag_index(last);
        lemma_flag_each(policy, before, flag, index);
        lemma_flag_each(policy, before, flag, tag_index(last));
        let x = policy.flags[index];
        assert((x | flag) | flag == x | flag) by (bit_vector);
        if lists(before, index) {
            let k = choose|k: int| 0 <= k < before.len() && tag_index(#[trigger] before[k]) == index;
            assert(tags[k] == before[k]);
        }
        if tag_index(last) == index {
            assert(tags[tags.len() - 1] == last);
        }
        if lists(tags, index) && tag_index(last) != index {
            let k = choose|k: int| 0 <= k < tags.len() && tag_index(#[trigger] tags[k]) == index;
            assert(before[k] == tags[k]);
        }
    } else {
        lemma_tag_index(Seq::empty());
    }
}

/// Grants change no flag and no switch.
pub proof fn lemma_grants_keep_flags(policy: Policy, config: Config)
    ensures
        grant_protocols(grant_attributes(policy, config.attributes@), config.protocols@).flags
            == policy.flags,
{
    lemma_attribute_grants_keep_flags(policy, config.attributes@);
    lemma_protocol_grants_keep_flags(
        grant_attributes(policy, config.attributes@),
        config.protocols@,
    );
}

/// Granting attributes to one element changes no flag.
proof fn lemma_grant_each_keeps_flags(policy: Policy, element: Seq<char>, attrs: Seq<Seq<char>>)
    ensures
        grant_each(policy, element, attrs).flags == policy.flags,
    decreases attrs.len(),
{
    if attrs.len() > 0 {
        lemma_grant_each_keeps_flags(policy, element, attrs.drop_last());
    }
}

/// Granting attributes changes no flag.
proof fn lemma_attribute_grants_keep_flags(policy: Policy, grants: Seq<AttributeGrant>)
    ensures
        grant_attributes(policy, grants).flags == policy.flags,
    decreases grants.len(),
{
    if grants.len() > 0 {
        lemma_attribute_grants_keep_flags(policy, grants.drop_last());
        lemma_grant_each_keeps_flags(
            grant_attributes(policy, grants.drop_last()),
            grants.last().element@,
            strs(grants.last().attributes@),
        );
    }
}

/// Granting schemes changes no flag.
proof fn lemma_protocol_grants_keep_flags(policy: Policy, grants: Seq<ProtocolGrant>)
    ensures
        grant_protocols(policy, grants).flags == policy.flags,
    decreases grants.len(),
{
    if grants.len() > 0 {
        lemma_protocol_grants_keep_flags(policy, grants.drop_last());
    }
}

/// What a configuration means for the flags of each tag: a tag is allowed
/// exactly if the configuration lists it among its elements; it wraps
/// whitespace exactly if it is listed among the whitespace elements; and
/// it loses what it holds exactly if `remove_contents` says so, for every
/// tag or for the listed ones.
pub proof fn lemma_configured_flags(config: Config, index: int)
    requires
        0 <= index < TAG_COUNT,
    ensures
        configured(config).wf(),
        configured(config).allows(index) == lists(strs(config.elements@), index),
        has_flag(configured(config).flags[index], SELMA_SANITIZER_WRAP_WHITESPACE) == lists(
            strs(config.whitespace_elements@),
            index,
        ),
        has_flag(configured(config).flags[index], SELMA_SANITIZER_REMOVE_CONTENTS)
            == match config.remove_contents {
            RemoveContents::Everywhere(set) => set,
            RemoveContents::Elements(tags) => lists(strs(tags@), index),
            _ => false,
        },
{
    let start = Policy::initial();
    let allow = SELMA_SANITIZER_ALLOW;
    let contents = SELMA_SANITIZER_REMOVE_CONTENTS;
    let wrap = SELMA_SANITIZER_WRAP_WHITESPACE;
    assert(allow & contents == 0 && allow & wrap == 0 && contents & wrap == 0 && contents & allow
        == 0 && wrap & allow == 0 && wrap & contents == 0 && allow != 0 && contents != 0 && wrap
        != 0) by (bit_vector)
        requires
            allow == 1u8,
            contents == 4u8,
            wrap == 8u8,
    ;
    assert(0u8 & allow == 0 && 0u8 & contents == 0 && 0u8 & wrap == 0) by (bit_vector);
    let allowed = flag_each(start, strs(config.elements@), allow);
    lemma_flag_each(start, strs(config.elements@), allow, index);
    lemma_with_flag_sets(start.flags[index], allow, true, contents);
    lemma_with_flag_sets(start.flags[index], allow, true, wrap);
    let removed = match config.remove_contents {
        RemoveContents::Everywhere(set) => allowed.set_all_flags(contents, set),
        RemoveContents::Elements(tags) => flag_each(allowed, strs(tags@), contents),
        _ => allowed,
    };
    match config.remove_contents {
        RemoveContents::Everywhere(set) => {
            lemma_with_flag_sets(allowed.flags[index], contents, set, allow);
            lemma_with_flag_sets(allowed.flags[index], contents, set, wrap);
        },
        RemoveContents::Elements(tags) => {
            lemma_flag_each(allowed, strs(tags@), contents, index);
            lemma_with_flag_sets(allowed.flags[index], contents, true, allow);
            lemma_with_flag_sets(allowed.flags[index], contents, true, wrap);
        },
        _ => {},
    }
    assert(removed.wf());
    let wrapped = flag_each(removed, strs(config.whitespace_elements@), wrap);
    lemma_flag_each(removed, strs(config.whitespace_elements@), wrap, index);
    lemma_with_flag_sets(removed.flags[index], wrap, true, allow);
    lemma_with_flag_sets(removed.flags[index], wrap, true, contents);
    assert(wrapped == configured_flags(start, config));
    lemma_grants_keep_flags(wrapped, config);
}

} // verus!

//! The configuration from which a sanitizer is built, as plain values.

use vstd::prelude::*;

verus! {

/// One entry of a scheme list.
pub enum ProtocolEntry {
    /// A scheme by name, such as `https`.
    Scheme(String),
    /// Values that begin with `#` or `/`.
    Relative,
    /// Every scheme. It is accepted only in place of a list.
    All,
    /// An entry of any other form. It grants nothing.
    Other,
}

/// What is configured for one attribute of one element.
pub enum ProtocolList {
    List(Vec<ProtocolEntry>),
    /// No scheme check for this attribute.
    All,
    /// Neither a list nor `All`.
    Invalid,
}

/// Which elements lose what they hold when they are removed.
pub enum RemoveContents {
    Unset,
    Everywhere(bool),
    Elements(Vec<String>),
    /// Neither a boolean nor a list.
    Invalid,
}

/// The attributes granted to one element, or to every element where
/// `element` is `"all"`.
pub struct AttributeGrant {
    pub element: String,
    pub attributes: Vec<String>,
}

/// The scheme list of one attribute of one element.
pub struct ProtocolGrant {
    pub element: String,
    pub attribute: String,
    pub protocols: ProtocolList,
}

/// A whole configuration.
pub struct Config {
    pub elements: Vec<String>,
    pub remove_contents: RemoveContents,
    pub whitespace_elements: Vec<String>,
    pub attributes: Vec<AttributeGrant>,
    pub protocols: Vec<ProtocolGrant>,
    /// `None` stands for `true`.
    pub escape_tagfilter: Option<bool>,
    /// `None` stands for `false`.
    pub allow_comments: Option<bool>,
    /// `None` stands for `true`.
    pub allow_doctype: Option<bool>,
}

/// Why a configuration was refused.
#[derive(Clone, Copy, Debug, PartialEq, Eq, Structural)]
pub enum ConfigError {
    /// A scheme list holds `ProtocolEntry::All`.
    AllInsideList,
    /// A scheme list is `ProtocolList::Invalid`.
    InvalidProtocolList,
    /// `remove_contents` is `RemoveContents::Invalid`.
    InvalidRemoveContents,
}

impl ConfigError {
    /// The sentence that tells the caller what to change.
    pub open spec fn spec_message(self) -> Seq<char> {
        match self {
            ConfigError::AllInsideList => "`:all` must be passed outside of an array"@,
            ConfigError::InvalidProtocolList => "Protocol list must be an array, or just `:all`"@,
            ConfigError::InvalidRemoveContents => "remove_contents must be `true`, `false`, or an array"@,
        }
    }

    /// The sentence that tells the caller what to change.
    pub fn message(&self) -> (r: String)
        ensures
            r@ == self.spec_message(),
    {
        match self {
            ConfigError::AllInsideList => "`:all` must be passed outside of an array".to_owned(),
            ConfigError::InvalidProtocolList => "Protocol list must be an array, or just `:all`".to_owned(),
            ConfigError::InvalidRemoveContents => "remove_contents must be `true`, `false`, or an array".to_owned(),
        }
    }
}

/// The schemes that one entry grants.
pub open spec fn entry_schemes(entry: ProtocolEntry) -> Seq<Seq<char>> {
    match entry {
        ProtocolEntry::Scheme(name) => seq![name@],
        ProtocolEntry::Relative => seq!["#"@, "/"@],
        ProtocolEntry::All => seq!["all"@],
        ProtocolEntry::Other => Seq::empty(),
    }
}

/// The schemes that the entries grant, in order.
pub open spec fn entries_schemes(entries: Seq<ProtocolEntry>) -> Seq<Seq<char>>
    decreases entries.len(),
{
    if entries.len() == 0 {
        Seq::empty()
    } else {
        entries_schemes(entries.drop_last()) + entry_schemes(entries.last())
    }
}

/// Whether some entry is `ProtocolEntry::All`.
pub open spec fn has_all_entry(entries: Seq<ProtocolEntry>) -> bool {
    exists|i: int| 0 <= i < entries.len() && entries[i] is All
}

/// The schemes that a scheme list grants, or why it is refused.
pub open spec fn protocol_schemes(list: ProtocolList) -> Result<Seq<Seq<char>>, ConfigError> {
    match list {
        ProtocolList::List(entries) => if has_all_entry(entries@) {
            Err(ConfigError::AllInsideList)
        } else {
            Ok(entries_schemes(entries@))
        },
        ProtocolList::All => Ok(seq!["all"@]),
        ProtocolList::Invalid => Err(ConfigError::InvalidProtocolList),
    }
}

impl Config {
    /// The configuration that grants nothing and leaves every switch at its
    /// default.
    pub fn new() -> (r: Config)
        ensures
            r.elements@.len() == 0,
            r.remove_contents is Unset,
            r.whitespace_elements@.len() == 0,
            r.attributes@.len() == 0,
            r.protocols@.len() == 0,
            r.escape_tagfilter is None,
            r.allow_comments is None,
            r.allow_doctype is None,
    {
        Config {
            elements: Vec::new(),
            remove_contents: RemoveContents::Unset,
            whitespace_elements: Vec::new(),
            attributes: Vec::new(),
            protocols: Vec::new(),
            escape_tagfilter: None,
            allow_comments: None,
            allow_doctype: None,
        }
    }
}

} // verus!

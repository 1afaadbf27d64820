//! The table of known tags.
//!
//! Every known tag name has a dense index; one more index stands for every
//! other name. Per-tag policy flags are stored by that index.

use crate::text::str_eq;
use vstd::prelude::*;

verus! {

/// How many tag names the table knows.
pub const KNOWN_TAGS: usize = 143;

/// The index that stands for every name the table does not know.
pub const UNKNOWN_TAG: usize = 143;

/// How many indices there are: one for each known name, and `UNKNOWN_TAG`.
pub const TAG_COUNT: usize = 144;
/// The indices of the tags that the policy treats in a way of their own.
pub const TAG_IFRAME: usize = 61;
pub const TAG_MATH: usize = 78;
pub const TAG_META: usize = 81;
pub const TAG_NOEMBED: usize = 87;
pub const TAG_NOFRAMES: usize = 88;
pub const TAG_NOSCRIPT: usize = 89;
pub const TAG_PLAINTEXT: usize = 98;
pub const TAG_SCRIPT: usize = 109;
pub const TAG_STYLE: usize = 119;
pub const TAG_SVG: usize = 123;
pub const TAG_TEXTAREA: usize = 128;
pub const TAG_TITLE: usize = 133;
pub const TAG_XMP: usize = 142;

/// The name that the table holds at `index`.
pub open spec fn tag_name(index: int) -> Seq<char> {
    if 0 <= index < KNOWN_TAGS {
        name_at(index as usize)
    } else {
        Seq::empty()
    }
}

/// The table itself.
pub open spec fn name_at(index: usize) -> Seq<char> {
    match index {
        0 => "a"@,
        1 => "abbr"@,
        2 => "acronym"@,
        3 => "address"@,
        4 => "applet"@,
        5 => "area"@,
        6 => "article"@,
        7 => "aside"@,
        8 => "audio"@,
        9 => "b"@,
        10 => "base"@,
        11 => "basefont"@,
        12 => "bdi"@,
        13 => "bdo"@,
        14 => "bgsound"@,
        15 => "big"@,
        16 => "blink"@,
        17 => "blockquote"@,
        18 => "body"@,
        19 => "br"@,
        20 => "button"@,
        21 => "canvas"@,
        22 => "caption"@,
        23 => "center"@,
        24 => "cite"@,
        25 => "code"@,
        26 => "col"@,
        27 => "colgroup"@,
        28 => "data"@,
        29 => "datalist"@,
        30 => "dd"@,
        31 => "del"@,
        32 => "details"@,
        33 => "dfn"@,
        34 => "dialog"@,
        35 => "dir"@,
        36 => "div"@,
        37 => "dl"@,
        38 => "dt"@,
        39 => "em"@,
        40 => "embed"@,
        41 => "fieldset"@,
        42 => "figcaption"@,
        43 => "figure"@,
        44 => "font"@,
        45 => "footer"@,
        46 => "form"@,
        47 => "frame"@,
        48 => "frameset"@,
        49 => "h1"@,
        50 => "h2"@,
        51 => "h3"@,
        52 => "h4"@,
        53 => "h5"@,
        54 => "h6"@,
        55 => "head"@,
        56 => "header"@,
        57 => "hgroup"@,
        58 => "hr"@,
        59 => "html"@,
        60 => "i"@,
        61 => "iframe"@,
        62 => "image"@,
        63 => "img"@,
        64 => "input"@,
        65 => "ins"@,
        66 => "isindex"@,
        67 => "kbd"@,
        68 => "keygen"@,
        69 => "label"@,
        70 => "legend"@,
        71 => "li"@,
        72 => "link"@,
        73 => "listing"@,
        74 => "main"@,
        75 => "map"@,
        76 => "mark"@,
        77 => "marquee"@,
        78 => "math"@,
        79 => "menu"@,
        80 => "menuitem"@,
        81 => "meta"@,
        82 => "meter"@,
        83 => "multicol"@,
        84 => "nav"@,
        85 => "nextid"@,
        86 => "nobr"@,
        87 => "noembed"@,
        88 => "noframes"@,
        89 => "noscript"@,
        90 => "object"@,
        91 => "ol"@,
        92 => "optgroup"@,
        93 => "option"@,
        94 => "output"@,
        95 => "p"@,
        96 => "param"@,
        97 => "picture"@,
        98 => "plaintext"@,
        99 => "pre"@,
        100 => "progress"@,
        101 => "q"@,
        102 => "rb"@,
        103 => "rp"@,
        104 => "rt"@,
        105 => "rtc"@,
        106 => "ruby"@,
        107 => "s"@,
        108 => "samp"@,
        109 => "script"@,
        110 => "section"@,
        111 => "select"@,
        112 => "slot"@,
        113 => "small"@,
        114 => "source"@,
        115 => "spacer"@,
        116 => "span"@,
        117 => "strike"@,
        118 => "strong"@,
        119 => "style"@,
        120 => "sub"@,
        121 => "summary"@,
        122 => "sup"@,
        123 => "svg"@,
        124 => "table"@,
        125 => "tbody"@,
        126 => "td"@,
        127 => "template"@,
        128 => "textarea"@,
        129 => "tfoot"@,
        130 => "th"@,
        131 => "thead"@,
        132 => "time"@,
        133 => "title"@,
        134 => "tr"@,
        135 => "track"@,
        136 => "tt"@,
        137 => "u"@,
        138 => "ul"@,
        139 => "var"@,
        140 => "video"@,
        141 => "wbr"@,
        142 => "xmp"@,
        _ => Seq::empty(),
    }
}

/// The name that the table holds at `index`.
pub fn element_name(index: usize) -> (name: &'static str)
    requires
        index < KNOWN_TAGS,
    ensures
        name@ == tag_name(index as int),
{
    match index {
        0 => "a",
        1 => "abbr",
        2 => "acronym",
        3 => "address",
        4 => "applet",
        5 => "area",
        6 => "article",
        7 => "aside",
        8 => "audio",
        9 => "b",
        10 => "base",
        11 => "basefont",
        12 => "bdi",
        13 => "bdo",
        14 => "bgsound",
        15 => "big",
        16 => "blink",
        17 => "blockquote",
        18 => "body",
        19 => "br",
        20 => "button",
        21 => "canvas",
        22 => "caption",
        23 => "center",
        24 => "cite",
        25 => "code",
        26 => "col",
        27 => "colgroup",
        28 => "data",
        29 => "datalist",
        30 => "dd",
        31 => "del",
        32 => "details",
        33 => "dfn",
        34 => "dialog",
        35 => "dir",
        36 => "div",
        37 => "dl",
        38 => "dt",
        39 => "em",
        40 => "embed",
        41 => "fieldset",
        42 => "figcaption",
        43 => "figure",
        44 => "font",
        45 => "footer",
        46 => "form",
        47 => "frame",
        48 => "frameset",
        49 => "h1",
        50 => "h2",
        51 => "h3",
        52 => "h4",
        53 => "h5",
        54 => "h6",
        55 => "head",
        56 => "header",
        57 => "hgroup",
        58 => "hr",
        59 => "html",
        60 => "i",
        61 => "iframe",
        62 => "image",
        63 => "img",
        64 => "input",
        65 => "ins",
        66 => "isindex",
        67 => "kbd",
        68 => "keygen",
        69 => "label",
        70 => "legend",
        71 => "li",
        72 => "link",
        73 => "listing",
        74 => "main",
        75 => "map",
        76 => "mark",
        77 => "marquee",
        78 => "math",
        79 => "menu",
        80 => "menuitem",
        81 => "meta",
        82 => "meter",
        83 => "multicol",
        84 => "nav",
        85 => "nextid",
        86 => "nobr",
        87 => "noembed",
        88 => "noframes",
        89 => "noscript",
        90 => "object",
        91 => "ol",
        92 => "optgroup",
        93 => "option",
        94 => "output",
        95 => "p",
        96 => "param",
        97 => "picture",
        98 => "plaintext",
        99 => "pre",
        100 => "progress",
        101 => "q",
        102 => "rb",
        103 => "rp",
        104 => "rt",
        105 => "rtc",
        106 => "ruby",
        107 => "s",
        108 => "samp",
        109 => "script",
        110 => "section",
        111 => "select",
        112 => "slot",
        113 => "small",
        114 => "source",
        115 => "spacer",
        116 => "span",
        117 => "strike",
        118 => "strong",
        119 => "style",
        120 => "sub",
        121 => "summary",
        122 => "sup",
        123 => "svg",
        124 => "table",
        125 => "tbody",
        126 => "td",
        127 => "template",
        128 => "textarea",
        129 => "tfoot",
        130 => "th",
        131 => "thead",
        132 => "time",
        133 => "title",
        134 => "tr",
        135 => "track",
        136 => "tt",
        137 => "u",
        138 => "ul",
        139 => "var",
        140 => "video",
        141 => "wbr",
        _ => "xmp",
    }
}

/// Whether the tag at `index` is a void element: it has no content and no
/// end tag.
pub open spec fn is_void(index: int) -> bool {
    ||| index == 5  // area
    ||| index == 10  // base
    ||| index == 11  // basefont
    ||| index == 14  // bgsound
    ||| index == 19  // br
    ||| index == 26  // col
    ||| index == 40  // embed
    ||| index == 47  // frame
    ||| index == 58  // hr
    ||| index == 63  // img
    ||| index == 64  // input
    ||| index == 68  // keygen
    ||| index == 72  // link
    ||| index == 81  // meta
    ||| index == 96  // param
    ||| index == 114  // source
    ||| index == 135  // track
    ||| index == 141  // wbr
}

/// The first index at or after `from` whose name is `name`, or `UNKNOWN_TAG`.
pub open spec fn first_named(name: Seq<char>, from: int) -> int
    decreases KNOWN_TAGS - from,
{
    if from < 0 || from >= KNOWN_TAGS {
        UNKNOWN_TAG as int
    } else if tag_name(from) == name {
        from
    } else {
        first_named(name, from + 1)
    }
}

/// The index of the tag called `name`.
pub open spec fn tag_index(name: Seq<char>) -> int {
    first_named(name, 0)
}

/// A known name's index is below `KNOWN_TAGS` and the table holds the name
/// there; no known index holds an unknown name.
pub proof fn lemma_tag_index(name: Seq<char>)
    ensures
        0 <= tag_index(name) < TAG_COUNT,
        tag_index(name) != UNKNOWN_TAG ==> tag_name(tag_index(name)) == name,
        tag_index(name) == UNKNOWN_TAG ==> forall|i: int|
            0 <= i < KNOWN_TAGS ==> tag_name(i) != name,
{
    lemma_first_named(name, 0);
}

/// `lemma_tag_index` for the search from index `from` on.
proof fn lemma_first_named(name: Seq<char>, from: int)
    requires
        0 <= from <= KNOWN_TAGS,
    ensures
        from <= first_named(name, from) < TAG_COUNT,
        first_named(name, from) != UNKNOWN_TAG ==> tag_name(first_named(name, from)) == name,
        forall|i: int| from <= i < first_named(name, from) && i < KNOWN_TAGS ==> tag_name(i) != name,
    decreases KNOWN_TAGS - from,
{
    if from < KNOWN_TAGS && tag_name(from) != name {
        lemma_first_named(name, from + 1);
    }
}

/// A tag as the policy sees it: its index in the table and whether it is a
/// void element.
#[derive(Clone, Copy, Debug, PartialEq, Eq, Structural)]
pub struct Tag {
    pub index: usize,
    pub self_closing: bool,
}

impl Tag {
    /// The tag called `name`.
    pub open spec fn tag_from_tag_name_spec(name: Seq<char>) -> Tag {
        Tag { index: tag_index(name) as usize, self_closing: is_void(tag_index(name)) }
    }

    /// Whether this is what `tag_from_tag_name` returns for `name`.
    pub open spec fn is_tag_of(self, name: Seq<char>) -> bool {
        self.index == tag_index(name) && self.self_closing == is_void(tag_index(name))
    }

    /// Looks `tag_name` up in the table. A name that the table does not hold
    /// gets `UNKNOWN_TAG`.
    pub fn tag_from_tag_name(tag_name: &str) -> (tag: Tag)
        ensures
            tag == Self::tag_from_tag_name_spec(tag_name@),
            tag.is_tag_of(tag_name@),
            tag.index < TAG_COUNT,
    {
        let mut i: usize = 0;
        while i < KNOWN_TAGS
            invariant
                i <= KNOWN_TAGS,
                tag_index(tag_name@) == first_named(tag_name@, i as int),
            decreases KNOWN_TAGS - i,
        {
            if str_eq(element_name(i), tag_name) {
                proof {
                    lemma_tag_index(tag_name@);
                }
                return Tag { index: i, self_closing: Self::void_at(i) };
            }
            i += 1;
        }
        Tag { index: UNKNOWN_TAG, self_closing: false }
    }

    /// Whether the tag at `index` is a void element.
    fn void_at(index: usize) -> (r: bool)
        ensures
            r == is_void(index as int),
    {
        index == 5
            || index == 10
            || index == 11
            || index == 14
            || index == 19
            || index == 26
            || index == 40
            || index == 47
            || index == 58
            || index == 63
            || index == 64
            || index == 68
            || index == 72
            || index == 81
            || index == 96
            || index == 114
            || index == 135
            || index == 141
    }

    /// Tags whose content is never hoisted into the surrounding tree when
    /// the tag itself goes: script, style, math and svg.
    pub open spec fn spec_has_text_content(self) -> bool {
        self.index == TAG_SCRIPT || self.index == TAG_STYLE || self.index == TAG_MATH
            || self.index == TAG_SVG
    }

    /// Whether the tag never goes without what it holds.
    #[verifier::when_used_as_spec(spec_has_text_content)]
    pub fn has_text_content(self) -> (r: bool)
        ensures
            r == self.spec_has_text_content(),
    {
        self.index == TAG_SCRIPT || self.index == TAG_STYLE || self.index == TAG_MATH
            || self.index == TAG_SVG
    }

    /// Whether this is `meta`.
    pub open spec fn spec_is_meta(self) -> bool {
        self.index == TAG_META
    }

    /// Whether this is `meta`.
    #[verifier::when_used_as_spec(spec_is_meta)]
    pub fn is_meta(self) -> (r: bool)
        ensures
            r == self.spec_is_meta(),
    {
        self.index == TAG_META
    }

    /// Whether this is `iframe`.
    pub open spec fn spec_is_iframe(self) -> bool {
        self.index == TAG_IFRAME
    }

    /// Whether this is `iframe`.
    #[verifier::when_used_as_spec(spec_is_iframe)]
    pub fn is_iframe(self) -> (r: bool)
        ensures
            r == self.spec_is_iframe(),
    {
        self.index == TAG_IFRAME
    }

    /// Tags that can carry markup past a single filtering pass: what they
    /// hold is raw text to one parser and markup to the next.
    pub open spec fn spec_is_tag_escapeworthy(self) -> bool {
        ||| self.index == TAG_TITLE
        ||| self.index == TAG_TEXTAREA
        ||| self.index == TAG_STYLE
        ||| self.index == TAG_XMP
        ||| self.index == TAG_IFRAME
        ||| self.index == TAG_NOEMBED
        ||| self.index == TAG_NOFRAMES
        ||| self.index == TAG_NOSCRIPT
        ||| self.index == TAG_SCRIPT
        ||| self.index == TAG_PLAINTEXT
    }

    /// Whether the final pass removes the tag.
    #[verifier::when_used_as_spec(spec_is_tag_escapeworthy)]
    pub fn is_tag_escapeworthy(self) -> (r: bool)
        ensures
            r == self.spec_is_tag_escapeworthy(),
    {
        self.index == TAG_TITLE || self.index == TAG_TEXTAREA || self.index == TAG_STYLE
            || self.index == TAG_XMP || self.index == TAG_IFRAME || self.index == TAG_NOEMBED
            || self.index == TAG_NOFRAMES || self.index == TAG_NOSCRIPT || self.index
            == TAG_SCRIPT || self.index == TAG_PLAINTEXT
    }
}

/// The selector that matches exactly the tags of `is_tag_escapeworthy`.
pub fn escapeworthy_tags_css() -> (css: &'static str)
    ensures
        css@ == "title, textarea, style, xmp, iframe, noembed, noframes, noscript, script, plaintext"@,
{
    "title, textarea, style, xmp, iframe, noembed, noframes, noscript, script, plaintext"
}

} // verus!

use selma::tags::{
    element_name, escapeworthy_tags_css, Tag, KNOWN_TAGS, TAG_COUNT, TAG_IFRAME, TAG_META,
    TAG_SCRIPT, UNKNOWN_TAG,
};

#[test]
fn every_known_name_has_its_own_index() {
    for index in 0..KNOWN_TAGS {
        let tag = Tag::tag_from_tag_name(element_name(index));
        assert_eq!(tag.index, index, "{}", element_name(index));
    }
}

#[test]
fn table_has_one_more_index_than_names() {
    assert_eq!(KNOWN_TAGS, 143);
    assert_eq!(UNKNOWN_TAG, 143);
    assert_eq!(TAG_COUNT, 144);
}

#[test]
fn names_that_the_table_does_not_hold_share_one_index() {
    assert_eq!(Tag::tag_from_tag_name("my-element").index, UNKNOWN_TAG);
    assert_eq!(Tag::tag_from_tag_name("").index, UNKNOWN_TAG);
    assert_eq!(Tag::tag_from_tag_name("DIV").index, UNKNOWN_TAG);
    assert_eq!(Tag::tag_from_tag_name("divv").index, UNKNOWN_TAG);
    assert!(!Tag::tag_from_tag_name("my-element").self_closing);
}

#[test]
fn lookup_finds_first_and_last_name() {
    assert_eq!(Tag::tag_from_tag_name("a"), Tag { index: 0, self_closing: false });
    assert_eq!(Tag::tag_from_tag_name("xmp"), Tag { index: 142, self_closing: false });
    assert_eq!(Tag::tag_from_tag_name("div").index, 36);
    assert_eq!(Tag::tag_from_tag_name("p").index, 95);
}

#[test]
fn void_elements_are_self_closing() {
    let void = [
        "area", "base", "basefont", "bgsound", "br", "col", "embed", "frame", "hr", "img", "input",
        "keygen", "link", "meta", "param", "source", "track", "wbr",
    ];
    let mut count = 0;
    for index in 0..KNOWN_TAGS {
        let name = element_name(index);
        let tag = Tag::tag_from_tag_name(name);
        assert_eq!(tag.self_closing, void.contains(&name), "{}", name);
        if tag.self_closing {
            count += 1;
        }
    }
    assert_eq!(count, void.len());
}

#[test]
fn special_tags_are_told_apart() {
    assert_eq!(Tag::tag_from_tag_name("script").index, TAG_SCRIPT);
    assert_eq!(Tag::tag_from_tag_name("meta").index, TAG_META);
    assert_eq!(Tag::tag_from_tag_name("iframe").index, TAG_IFRAME);
    for name in ["script", "style", "math", "svg"].iter() {
        assert!(Tag::tag_from_tag_name(name).has_text_content(), "{}", name);
    }
    assert!(!Tag::tag_from_tag_name("p").has_text_content());
    assert!(!Tag::tag_from_tag_name("title").has_text_content());
    assert!(Tag::tag_from_tag_name("meta").is_meta());
    assert!(!Tag::tag_from_tag_name("link").is_meta());
    assert!(Tag::tag_from_tag_name("iframe").is_iframe());
    assert!(!Tag::tag_from_tag_name("frame").is_iframe());
}

#[test]
fn selector_of_escapeworthy_tags_names_each_of_them() {
    let listed: Vec<&str> = escapeworthy_tags_css().split(", ").collect();
    assert_eq!(
        listed,
        vec![
            "title", "textarea", "style", "xmp", "iframe", "noembed", "noframes", "noscript",
            "script", "plaintext"
        ]
    );
    for index in 0..KNOWN_TAGS {
        let name = element_name(index);
        assert_eq!(
            Tag::tag_from_tag_name(name).is_tag_escapeworthy(),
            listed.contains(&name),
            "{}",
            name
        );
    }
    assert!(!Tag::tag_from_tag_name("unknown").is_tag_escapeworthy());
}

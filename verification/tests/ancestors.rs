use selma::ancestors::AncestorStack;

#[test]
fn stack_follows_start_and_end_tags() {
    let mut stack = AncestorStack::new();
    assert_eq!(stack.len(), 0);
    assert!(stack.open("div", true));
    assert!(stack.open("P", true));
    assert_eq!(stack.snapshot(), vec!["div".to_string(), "p".to_string()]);
    stack.close();
    assert_eq!(stack.snapshot(), vec!["div".to_string()]);
    stack.close();
    assert_eq!(stack.len(), 0);
    assert_eq!(stack.snapshot(), Vec::<String>::new());
}

#[test]
fn void_elements_never_go_on_the_stack() {
    let mut stack = AncestorStack::new();
    for name in ["br", "img", "BR", "meta", "input", "hr"].iter() {
        assert!(!stack.open(name, true), "{}", name);
    }
    assert_eq!(stack.len(), 0);
}

#[test]
fn elements_without_end_tag_never_go_on_the_stack() {
    let mut stack = AncestorStack::new();
    assert!(stack.open("svg", true));
    assert!(!stack.open("path", false));
    assert!(!stack.open("div", false));
    assert_eq!(stack.snapshot(), vec!["svg".to_string()]);
}

#[test]
fn end_tag_on_an_empty_stack_changes_nothing() {
    let mut stack = AncestorStack::new();
    stack.close();
    assert_eq!(stack.len(), 0);
    assert!(stack.open("p", true));
    assert_eq!(stack.len(), 1);
}

#[test]
fn stack_is_empty_after_a_well_formed_document() {
    let mut stack = AncestorStack::new();
    let mut deepest = 0;
    let events: [Option<(&str, bool)>; 12] = [
        Some(("html", true)),
        Some(("body", true)),
        Some(("p", true)),
        Some(("br", true)),
        Some(("b", true)),
        None,
        Some(("img", false)),
        None,
        Some(("div", true)),
        None,
        None,
        None,
    ];
    for event in events.iter() {
        match event {
            Some((name, has_end_tag)) => {
                stack.open(name, *has_end_tag);
            }
            None => stack.close(),
        }
        for name in stack.snapshot().iter() {
            assert!(name != "br" && name != "img");
        }
        if stack.len() > deepest {
            deepest = stack.len();
        }
    }
    assert_eq!(deepest, 4);
    assert_eq!(stack.len(), 0);
}

#[test]
fn innermost_is_one_of_looks_at_the_top_only() {
    let mut stack = AncestorStack::new();
    let tags = vec!["script".to_string(), "pre".to_string()];
    assert!(!stack.innermost_is_one_of(&tags));
    stack.open("pre", true);
    assert!(stack.innermost_is_one_of(&tags));
    stack.open("b", true);
    assert!(!stack.innermost_is_one_of(&tags));
    assert!(!stack.innermost_is_one_of(&vec![]));
    stack.close();
    assert!(stack.innermost_is_one_of(&tags));
}

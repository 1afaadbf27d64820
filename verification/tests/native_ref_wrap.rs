use selma::native_ref_wrap::{Anchor, HandleArena, NativeRefWrap, StaleHandleError};

#[test]
fn handle_is_live_until_its_anchor_is_released() {
    let mut arena = HandleArena::new();
    let (handle, anchor) = NativeRefWrap::wrap(&mut arena);
    assert!(!handle.is_poisoned(&arena));
    assert_eq!(handle.assert_not_poisoned(&arena), Ok(()));
    arena.release(anchor);
    assert!(handle.is_poisoned(&arena));
    assert_eq!(handle.assert_not_poisoned(&arena), Err(StaleHandleError));
}

#[test]
fn copies_of_a_handle_go_stale_together() {
    let mut arena = HandleArena::new();
    let (handle, anchor) = NativeRefWrap::wrap(&mut arena);
    let kept = handle;
    arena.release(anchor);
    assert!(kept.is_poisoned(&arena));
    assert!(handle.is_poisoned(&arena));
}

#[test]
fn stale_handle_stays_stale() {
    let mut arena = HandleArena::new();
    let (first, first_anchor) = NativeRefWrap::wrap(&mut arena);
    arena.release(first_anchor);
    let (second, second_anchor) = NativeRefWrap::wrap(&mut arena);
    assert!(first.is_poisoned(&arena));
    assert!(!second.is_poisoned(&arena));
    let (third, third_anchor) = NativeRefWrap::wrap(&mut arena);
    arena.release(second_anchor);
    assert!(first.is_poisoned(&arena));
    assert!(second.is_poisoned(&arena));
    assert!(!third.is_poisoned(&arena));
    arena.release(third_anchor);
    assert!(third.is_poisoned(&arena));
}

#[test]
fn nested_handles_are_released_one_by_one() {
    let mut arena = HandleArena::new();
    let (element, element_anchor) = NativeRefWrap::wrap(&mut arena);
    let (text, text_anchor) = NativeRefWrap::wrap(&mut arena);
    arena.release(text_anchor);
    assert!(!element.is_poisoned(&arena));
    assert!(text.is_poisoned(&arena));
    arena.release(element_anchor);
    assert!(element.is_poisoned(&arena));
}

#[test]
fn anchor_of_a_number_that_was_never_issued_releases_nothing() {
    let mut arena = HandleArena::new();
    let (handle, _anchor) = NativeRefWrap::wrap(&mut arena);
    arena.release(Anchor::new(7));
    assert!(!handle.is_poisoned(&arena));
}

#[test]
fn stale_handle_message() {
    assert_eq!(StaleHandleError.message(), "The object has been freed and can't be used anymore.");
}

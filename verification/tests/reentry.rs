use flui_core::{EntityUpdateSlot, QuitMode, ReentryError, WindowId, WindowUpdateStack};

#[test]
fn nested_update_of_the_same_window_is_refused() {
    let mut stack = WindowUpdateStack::new();
    let outer = stack.enter_checked(WindowId(1)).unwrap();
    assert_eq!(outer, 0);
    assert_eq!(stack.current(), Some(WindowId(1)));
    // Another window nests.
    let inner = stack.enter_checked(WindowId(2)).unwrap();
    assert_eq!(inner, 1);
    // The outer window again is refused, and the stack is unchanged.
    assert_eq!(
        stack.enter_checked(WindowId(1)),
        Err(ReentryError::NestedWindowUpdate(WindowId(1)))
    );
    assert_eq!(stack.current(), Some(WindowId(2)));
    stack.exit(inner);
    assert_eq!(stack.current(), Some(WindowId(1)));
    stack.exit(outer);
    assert_eq!(stack.current(), None);
    assert!(!stack.contains(WindowId(1)));
    // After leaving, the window can be updated again.
    assert_eq!(stack.enter_checked(WindowId(1)), Ok(0));
}

#[test]
fn unchecked_enter_is_bookkeeping_only() {
    let mut stack = WindowUpdateStack::new();
    let depth = stack.enter(WindowId(4));
    assert_eq!(depth, 0);
    assert!(stack.contains(WindowId(4)));
    stack.exit(depth);
    assert!(!stack.contains(WindowId(4)));
}

#[test]
fn nested_update_of_the_same_entity_is_refused() {
    let mut slot = EntityUpdateSlot::new();
    let previous = slot.enter(7).unwrap();
    assert_eq!(previous, None);
    assert_eq!(slot.enter(7), Err(ReentryError::NestedEntityUpdate(7)));
    let inner = slot.enter(8).unwrap();
    assert_eq!(inner, Some(7));
    slot.exit(inner);
    assert_eq!(slot.enter(7), Err(ReentryError::NestedEntityUpdate(7)));
    slot.exit(previous);
    assert_eq!(slot.enter(7), Ok(None));
}

#[test]
fn quit_mode_decides_quitting_on_last_window() {
    assert!(QuitMode::LastWindowClosed.quits_when_last_window_closes(true));
    assert!(!QuitMode::Explicit.quits_when_last_window_closes(false));
    assert!(QuitMode::Default.quits_when_last_window_closes(false));
    assert!(!QuitMode::Default.quits_when_last_window_closes(true));
}

#[test]
fn exit_past_the_top_leaves_the_stack() {
    let mut stack = WindowUpdateStack::new();
    stack.enter(WindowId(3));
    stack.exit(5);
    assert_eq!(stack.current(), Some(WindowId(3)));
}

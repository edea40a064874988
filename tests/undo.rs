use xi_modal_input::undo::{EditType, UndoStack};

#[test]
fn smoke_test() {
    let mut stack = UndoStack::new_sized(5, 'a');
    assert_eq!(stack.undo(), None);
    assert_eq!(stack.redo(), None);
    stack.add_undo_group('b');
    assert_eq!(stack.undo(), Some(&'a'));
    assert_eq!(stack.redo(), Some(&'b'));

    stack.add_undo_group('c');
    assert_eq!(stack.undo(), Some(&'b'));
    assert_eq!(stack.redo(), Some(&'c'));

    stack.add_undo_group('d');
    assert_eq!(stack.undo(), Some(&'c'));
    assert_eq!(stack.redo(), Some(&'d'));

    stack.add_undo_group('e');
    assert_eq!(stack.undo(), Some(&'d'));
    assert_eq!(stack.redo(), Some(&'e'));
    assert_eq!(stack.undo(), Some(&'d'));
    assert_eq!(stack.undo(), Some(&'c'));
    assert_eq!(stack.redo(), Some(&'d'));
    assert_eq!(stack.redo(), Some(&'e'));

    // this should have popped 'a', since we're over our capacity
    stack.add_undo_group('f');
    assert_eq!(stack.undo(), Some(&'e'));
    assert_eq!(stack.undo(), Some(&'d'));
    assert_eq!(stack.undo(), Some(&'c'));
    assert_eq!(stack.undo(), Some(&'b'));
    assert_eq!(stack.undo(), None);

    assert_eq!(stack.redo(), Some(&'c'));
    assert_eq!(stack.redo(), Some(&'d'));
    assert_eq!(stack.redo(), Some(&'e'));

    // this should drop the 'f' group, which was toggled
    stack.add_undo_group('g');
    assert_eq!(stack.redo(), None);
    assert_eq!(stack.undo(), Some(&'e'));
    assert_eq!(stack.redo(), Some(&'g'));
    assert_eq!(stack.redo(), None);
}

#[test]
fn undo_stack_stays_within_capacity() {
    let mut stack = UndoStack::new_sized(3, 0u32);
    for i in 1..10u32 {
        stack.add_undo_group(i);
        assert!(stack.stack.len() <= 3);
        assert_eq!(stack.live_index, stack.stack.len() - 1);
    }
    assert_eq!(stack.undo(), Some(&8));
    assert_eq!(stack.undo(), Some(&7));
    assert_eq!(stack.undo(), None);
}

#[test]
fn update_current_replaces_live_state() {
    let mut stack = UndoStack::new(1u8);
    stack.add_undo_group(2);
    stack.update_current_undo(3);
    assert_eq!(*stack.current(), 3);
    assert_eq!(stack.undo(), Some(&1));
    assert_eq!(stack.redo(), Some(&3));
}

#[test]
fn edit_grouping() {
    assert!(EditType::Other.breaks_undo_group(EditType::Other));
    assert!(EditType::Transpose.breaks_undo_group(EditType::Transpose));
    assert!(!EditType::InsertChars.breaks_undo_group(EditType::InsertChars));
    assert!(EditType::Delete.breaks_undo_group(EditType::InsertChars));
    assert!(!EditType::Delete.breaks_undo_group(EditType::Delete));
}

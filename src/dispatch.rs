//! Sorting host requests into events.
use crate::events::EditNotification;
use crate::strs::str_eq;
use vstd::prelude::*;

verus! {

/// The request that a host selector names, if any.
pub open spec fn selector_event(s: Seq<char>) -> Option<EditNotification> {
    if s == "deleteBackward:"@ {
        Some(EditNotification::DeleteBackward)
    } else if s == "deleteForward:"@ {
        Some(EditNotification::DeleteForward)
    } else if s == "deleteToBeginningOfLine:"@ {
        Some(EditNotification::DeleteToBeginningOfLine)
    } else if s == "deleteToEndOfParagraph:"@ {
        Some(EditNotification::DeleteToEndOfParagraph)
    } else if s == "deleteWordBackward:"@ {
        Some(EditNotification::DeleteWordBackward)
    } else if s == "deleteWordForward:"@ {
        Some(EditNotification::DeleteForward)
    } else if s == "insertNewline:"@ {
        Some(EditNotification::InsertNewline)
    } else if s == "insertTab:"@ {
        Some(EditNotification::InsertTab)
    } else if s == "moveBackward:"@ {
        Some(EditNotification::MoveBackward)
    } else if s == "moveDown:"@ {
        Some(EditNotification::MoveDown)
    } else if s == "moveDownAndModifySelection:"@ {
        Some(EditNotification::MoveDownAndModifySelection)
    } else if s == "moveForward:"@ {
        Some(EditNotification::MoveForward)
    } else if s == "moveLeft:"@ {
        Some(EditNotification::MoveLeft)
    } else if s == "moveLeftAndModifySelection:"@ {
        Some(EditNotification::MoveLeftAndModifySelection)
    } else if s == "moveRight:"@ {
        Some(EditNotification::MoveRight)
    } else if s == "moveRightAndModifySelection:"@ {
        Some(EditNotification::MoveRightAndModifySelection)
    } else if s == "moveToBeginningOfDocument:"@ {
        Some(EditNotification::MoveToBeginningOfDocument)
    } else if s == "moveToBeginningOfDocumentAndModifySelection:"@ {
        Some(EditNotification::MoveToBeginningOfDocumentAndModifySelection)
    } else if s == "moveToBeginningOfLine:"@ {
        Some(EditNotification::MoveToLeftEndOfLine)
    } else if s == "moveToBeginningOfLineAndModifySelection:"@ {
        Some(EditNotification::MoveToLeftEndOfLineAndModifySelection)
    } else if s == "moveToBeginningOfParagraph:"@ {
        Some(EditNotification::MoveToBeginningOfParagraph)
    } else if s == "moveToBeginningOfParagraphAndModifySelection:"@ {
        Some(EditNotification::MoveToBeginningOfParagraphAndModifySelection)
    } else if s == "moveToEndOfDocument:"@ {
        Some(EditNotification::MoveToEndOfDocument)
    } else if s == "moveToEndOfDocumentAndModifySelection:"@ {
        Some(EditNotification::MoveToEndOfDocumentAndModifySelection)
    } else if s == "moveToEndOfLine:"@ {
        Some(EditNotification::MoveToRightEndOfLine)
    } else if s == "moveToEndOfLineAndModifySelection:"@ {
        Some(EditNotification::MoveToRightEndOfLineAndModifySelection)
    } else if s == "moveToEndOfParagraph:"@ {
        Some(EditNotification::MoveToEndOfParagraph)
    } else if s == "moveToEndOfParagraphAndModifySelection:"@ {
        Some(EditNotification::MoveToEndOfParagraphAndModifySelection)
    } else if s == "moveToLeftEndOfLine:"@ {
        Some(EditNotification::MoveToLeftEndOfLine)
    } else if s == "moveToLeftEndOfLineAndModifySelection:"@ {
        Some(EditNotification::MoveToLeftEndOfLineAndModifySelection)
    } else if s == "moveToRightEndOfLine:"@ {
        Some(EditNotification::MoveToRightEndOfLine)
    } else if s == "moveToRightEndOfLineAndModifySelection:"@ {
        Some(EditNotification::MoveToRightEndOfLineAndModifySelection)
    } else if s == "moveUp:"@ {
        Some(EditNotification::MoveUp)
    } else if s == "moveUpAndModifySelection:"@ {
        Some(EditNotification::MoveUpAndModifySelection)
    } else if s == "moveWordLeft:"@ {
        Some(EditNotification::MoveWordLeft)
    } else if s == "moveWordLeftAndModifySelection:"@ {
        Some(EditNotification::MoveWordLeftAndModifySelection)
    } else if s == "moveWordRight:"@ {
        Some(EditNotification::MoveWordRight)
    } else if s == "moveWordRightAndModifySelection:"@ {
        Some(EditNotification::MoveWordRightAndModifySelection)
    } else if s == "pageDownAndModifySelection:"@ {
        Some(EditNotification::PageDownAndModifySelection)
    } else if s == "pageUpAndModifySelection:"@ {
        Some(EditNotification::PageUpAndModifySelection)
    } else if s == "transpose:"@ {
        Some(EditNotification::Transpose)
    } else if s == "selectAll:"@ {
        Some(EditNotification::SelectAll)
    } else if s == "cancelOperation:"@ {
        Some(EditNotification::CollapseSelections)
    } else if s == "copy"@ {
        Some(EditNotification::CopyAsync)
    } else if s == "cut"@ {
        Some(EditNotification::CutAsync)
    } else if s == "undo"@ {
        Some(EditNotification::Undo)
    } else if s == "redo"@ {
        Some(EditNotification::Redo)
    } else if s == "toggle_comment"@ {
        Some(EditNotification::ToggleComment)
    } else {
        None
    }
}

/// Looks up the request for a selector name; unknown names give `None`.
pub fn event_from_str(s: &str) -> (r: Option<EditNotification>)
    ensures
        r == selector_event(s@),
{
    if str_eq(s, "deleteBackward:") {
        Some(EditNotification::DeleteBackward)
    } else if str_eq(s, "deleteForward:") {
        Some(EditNotification::DeleteForward)
    } else if str_eq(s, "deleteToBeginningOfLine:") {
        Some(EditNotification::DeleteToBeginningOfLine)
    } else if str_eq(s, "deleteToEndOfParagraph:") {
        Some(EditNotification::DeleteToEndOfParagraph)
    } else if str_eq(s, "deleteWordBackward:") {
        Some(EditNotification::DeleteWordBackward)
    } else if str_eq(s, "deleteWordForward:") {
        Some(EditNotification::DeleteForward)
    } else if str_eq(s, "insertNewline:") {
        Some(EditNotification::InsertNewline)
    } else if str_eq(s, "insertTab:") {
        Some(EditNotification::InsertTab)
    } else if str_eq(s, "moveBackward:") {
        Some(EditNotification::MoveBackward)
    } else if str_eq(s, "moveDown:") {
        Some(EditNotification::MoveDown)
    } else if str_eq(s, "moveDownAndModifySelection:") {
        Some(EditNotification::MoveDownAndModifySelection)
    } else if str_eq(s, "moveForward:") {
        Some(EditNotification::MoveForward)
    } else if str_eq(s, "moveLeft:") {
        Some(EditNotification::MoveLeft)
    } else if str_eq(s, "moveLeftAndModifySelection:") {
        Some(EditNotification::MoveLeftAndModifySelection)
    } else if str_eq(s, "moveRight:") {
        Some(EditNotification::MoveRight)
    } else if str_eq(s, "moveRightAndModifySelection:") {
        Some(EditNotification::MoveRightAndModifySelection)
    } else if str_eq(s, "moveToBeginningOfDocument:") {
        Some(EditNotification::MoveToBeginningOfDocument)
    } else if str_eq(s, "moveToBeginningOfDocumentAndModifySelection:") {
        Some(EditNotification::MoveToBeginningOfDocumentAndModifySelection)
    } else if str_eq(s, "moveToBeginningOfLine:") {
        Some(EditNotification::MoveToLeftEndOfLine)
    } else if str_eq(s, "moveToBeginningOfLineAndModifySelection:") {
        Some(EditNotification::MoveToLeftEndOfLineAndModifySelection)
    } else if str_eq(s, "moveToBeginningOfParagraph:") {
        Some(EditNotification::MoveToBeginningOfParagraph)
    } else if str_eq(s, "moveToBeginningOfParagraphAndModifySelection:") {
        Some(EditNotification::MoveToBeginningOfParagraphAndModifySelection)
    } else if str_eq(s, "moveToEndOfDocument:") {
        Some(EditNotification::MoveToEndOfDocument)
    } else if str_eq(s, "moveToEndOfDocumentAndModifySelection:") {
        Some(EditNotification::MoveToEndOfDocumentAndModifySelection)
    } else if str_eq(s, "moveToEndOfLine:") {
        Some(EditNotification::MoveToRightEndOfLine)
    } else if str_eq(s, "moveToEndOfLineAndModifySelection:") {
        Some(EditNotification::MoveToRightEndOfLineAndModifySelection)
    } else if str_eq(s, "moveToEndOfParagraph:") {
        Some(EditNotification::MoveToEndOfParagraph)
    } else if str_eq(s, "moveToEndOfParagraphAndModifySelection:") {
        Some(EditNotification::MoveToEndOfParagraphAndModifySelection)
    } else if str_eq(s, "moveToLeftEndOfLine:") {
        Some(EditNotification::MoveToLeftEndOfLine)
    } else if str_eq(s, "moveToLeftEndOfLineAndModifySelection:") {
        Some(EditNotification::MoveToLeftEndOfLineAndModifySelection)
    } else if str_eq(s, "moveToRightEndOfLine:") {
        Some(EditNotification::MoveToRightEndOfLine)
    } else if str_eq(s, "moveToRightEndOfLineAndModifySelection:") {
        Some(EditNotification::MoveToRightEndOfLineAndModifySelection)
    } else if str_eq(s, "moveUp:") {
        Some(EditNotification::MoveUp)
    } else if str_eq(s, "moveUpAndModifySelection:") {
        Some(EditNotification::MoveUpAndModifySelection)
    } else if str_eq(s, "moveWordLeft:") {
        Some(EditNotification::MoveWordLeft)
    } else if str_eq(s, "moveWordLeftAndModifySelection:") {
        Some(EditNotification::MoveWordLeftAndModifySelection)
    } else if str_eq(s, "moveWordRight:") {
        Some(EditNotification::MoveWordRight)
    } else if str_eq(s, "moveWordRightAndModifySelection:") {
        Some(EditNotification::MoveWordRightAndModifySelection)
    } else if str_eq(s, "pageDownAndModifySelection:") {
        Some(EditNotification::PageDownAndModifySelection)
    } else if str_eq(s, "pageUpAndModifySelection:") {
        Some(EditNotification::PageUpAndModifySelection)
    } else if str_eq(s, "transpose:") {
        Some(EditNotification::Transpose)
    } else if str_eq(s, "selectAll:") {
        Some(EditNotification::SelectAll)
    } else if str_eq(s, "cancelOperation:") {
        Some(EditNotification::CollapseSelections)
    } else if str_eq(s, "copy") {
        Some(EditNotification::CopyAsync)
    } else if str_eq(s, "cut") {
        Some(EditNotification::CutAsync)
    } else if str_eq(s, "undo") {
        Some(EditNotification::Undo)
    } else if str_eq(s, "redo") {
        Some(EditNotification::Redo)
    } else if str_eq(s, "toggle_comment") {
        Some(EditNotification::ToggleComment)
    } else {
        None
    }
}

} // verus!

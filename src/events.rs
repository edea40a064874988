//! The semantic events the view engine handles.
use vstd::prelude::*;

verus! {

/// A movement of the cursor.
#[derive(PartialEq, Eq, Structural, Clone, Copy, Debug)]
pub enum Movement {
    /// One grapheme cluster to the left.
    Left,
    /// One grapheme cluster to the right.
    Right,
    LeftWord,
    RightWord,
    /// The left end of the visual line.
    LeftOfLine,
    /// The right end of the visual line.
    RightOfLine,
    Up,
    Down,
    UpPage,
    DownPage,
    /// The start of the text line.
    StartOfParagraph,
    /// The end of the text line.
    EndOfParagraph,
    /// The end of the text line, or the next line when already at its end.
    EndOfParagraphKill,
    StartOfDocument,
    EndOfDocument,
}

#[derive(PartialEq, Eq, Structural, Clone, Copy, Debug)]
pub enum SelectionGranularity {
    Point,
    Word,
    Line,
}

/// A mouse or touch gesture.
#[derive(PartialEq, Eq, Structural, Clone, Copy, Debug)]
pub enum GestureType {
    Select { granularity: SelectionGranularity, multi: bool },
    SelectExtend { granularity: SelectionGranularity },
    Drag,
    /// Older single-selection forms, one per granularity.
    Point,
    Word,
    Line,
}

impl GestureType {
    pub open spec fn spec_normalized(self) -> GestureType {
        match self {
            GestureType::Point => GestureType::Select { granularity: SelectionGranularity::Point, multi: false },
            GestureType::Word => GestureType::Select { granularity: SelectionGranularity::Word, multi: false },
            GestureType::Line => GestureType::Select { granularity: SelectionGranularity::Line, multi: false },
            other => other,
        }
    }

    /// The gesture in its current form: the older forms become a single
    /// select of their granularity.
    pub fn normalized(self) -> (r: GestureType)
        ensures
            r == self.spec_normalized(),
            !(r is Point) && !(r is Word) && !(r is Line),
    {
        match self {
            GestureType::Point => GestureType::Select { granularity: SelectionGranularity::Point, multi: false },
            GestureType::Word => GestureType::Select { granularity: SelectionGranularity::Word, multi: false },
            GestureType::Line => GestureType::Select { granularity: SelectionGranularity::Line, multi: false },
            other => other,
        }
    }
}

/// A rectangle in logical pixels.
#[derive(PartialEq, Eq, Structural, Clone, Copy, Debug)]
pub struct Rect {
    pub x: usize,
    pub y: usize,
    pub width: usize,
    pub height: usize,
}

impl Rect {
    pub fn zero() -> (r: Rect)
        ensures
            r == (Rect { x: 0, y: 0, width: 0, height: 0 }),
    {
        Rect { x: 0, y: 0, width: 0, height: 0 }
    }
}

/// Events that change only the selection, or read the document.
#[derive(PartialEq, Eq, Structural, Clone, Copy, Debug)]
pub enum ViewEvent {
    Move(Movement),
    ModifySelection(Movement),
    SelectAll,
    CollapseSelections,
    Gesture { line: u64, col: u64, ty: GestureType },
    Copy,
}

/// Events that edit the text.
#[derive(Clone, Debug)]
pub enum BufferEvent {
    Insert(Vec<u8>),
    Paste(Vec<u8>),
    Delete { movement: Movement },
    Backspace,
    InsertNewline,
    InsertTab,
    Indent,
    Outdent,
    ToggleComment,
    Transpose,
    Undo,
    Redo,
    Cut,
}

/// Events about the view itself.
#[derive(PartialEq, Eq, Structural, Clone, Copy, Debug)]
pub enum SpecialEvent {
    ViewportChange(Rect),
}

#[derive(Clone, Debug)]
pub enum EventDomain {
    View(ViewEvent),
    Buffer(BufferEvent),
    Special(SpecialEvent),
}

/// A request from the host, before it is sorted into an event family.
#[derive(Clone, Debug)]
pub enum EditNotification {
    Insert { chars: Vec<u8> },
    ViewportChange(Rect),
    Gesture { line: u64, col: u64, ty: GestureType },
    DeleteBackward,
    DeleteForward,
    DeleteToBeginningOfLine,
    DeleteToEndOfParagraph,
    DeleteWordBackward,
    DeleteWordForward,
    InsertNewline,
    InsertTab,
    MoveBackward,
    MoveDown,
    MoveDownAndModifySelection,
    MoveForward,
    MoveLeft,
    MoveLeftAndModifySelection,
    MoveRight,
    MoveRightAndModifySelection,
    MoveToBeginningOfDocument,
    MoveToBeginningOfDocumentAndModifySelection,
    MoveToBeginningOfParagraph,
    MoveToBeginningOfParagraphAndModifySelection,
    MoveToEndOfDocument,
    MoveToEndOfDocumentAndModifySelection,
    MoveToEndOfParagraph,
    MoveToEndOfParagraphAndModifySelection,
    MoveToLeftEndOfLine,
    MoveToLeftEndOfLineAndModifySelection,
    MoveToRightEndOfLine,
    MoveToRightEndOfLineAndModifySelection,
    MoveUp,
    MoveUpAndModifySelection,
    MoveWordLeft,
    MoveWordLeftAndModifySelection,
    MoveWordRight,
    MoveWordRightAndModifySelection,
    PageDownAndModifySelection,
    PageUpAndModifySelection,
    Transpose,
    SelectAll,
    CollapseSelections,
    CopyAsync,
    CutAsync,
    Undo,
    Redo,
    ToggleComment,
}

pub open spec fn mv(m: Movement) -> EventDomain {
    EventDomain::View(ViewEvent::Move(m))
}

pub open spec fn modify(m: Movement) -> EventDomain {
    EventDomain::View(ViewEvent::ModifySelection(m))
}

pub open spec fn buf(b: BufferEvent) -> EventDomain {
    EventDomain::Buffer(b)
}

/// The event family and event that a request stands for.
pub open spec fn domain_of(n: EditNotification) -> EventDomain {
    match n {
        EditNotification::Insert { chars } => buf(BufferEvent::Insert(chars)),
        EditNotification::ViewportChange(r) => EventDomain::Special(SpecialEvent::ViewportChange(r)),
        EditNotification::Gesture { line, col, ty } => EventDomain::View(ViewEvent::Gesture { line, col, ty }),
        EditNotification::DeleteBackward => buf(BufferEvent::Backspace),
        EditNotification::DeleteForward => buf(BufferEvent::Delete { movement: Movement::Right }),
        EditNotification::DeleteToBeginningOfLine => buf(BufferEvent::Delete { movement: Movement::LeftOfLine }),
        EditNotification::DeleteToEndOfParagraph => buf(BufferEvent::Delete { movement: Movement::EndOfParagraphKill }),
        EditNotification::DeleteWordBackward => buf(BufferEvent::Delete { movement: Movement::LeftWord }),
        EditNotification::DeleteWordForward => buf(BufferEvent::Delete { movement: Movement::RightWord }),
        EditNotification::InsertNewline => buf(BufferEvent::InsertNewline),
        EditNotification::InsertTab => buf(BufferEvent::InsertTab),
        EditNotification::MoveBackward => mv(Movement::Left),
        EditNotification::MoveDown => mv(Movement::Down),
        EditNotification::MoveDownAndModifySelection => modify(Movement::Down),
        EditNotification::MoveForward => mv(Movement::Right),
        EditNotification::MoveLeft => mv(Movement::Left),
        EditNotification::MoveLeftAndModifySelection => modify(Movement::Left),
        EditNotification::MoveRight => mv(Movement::Right),
        EditNotification::MoveRightAndModifySelection => modify(Movement::Right),
        EditNotification::MoveToBeginningOfDocument => mv(Movement::StartOfDocument),
        EditNotification::MoveToBeginningOfDocumentAndModifySelection => modify(Movement::StartOfDocument),
        EditNotification::MoveToBeginningOfParagraph => mv(Movement::StartOfParagraph),
        EditNotification::MoveToBeginningOfParagraphAndModifySelection => modify(Movement::StartOfParagraph),
        EditNotification::MoveToEndOfDocument => mv(Movement::EndOfDocument),
        EditNotification::MoveToEndOfDocumentAndModifySelection => modify(Movement::EndOfDocument),
        EditNotification::MoveToEndOfParagraph => mv(Movement::EndOfParagraph),
        EditNotification::MoveToEndOfParagraphAndModifySelection => modify(Movement::EndOfParagraph),
        EditNotification::MoveToLeftEndOfLine => mv(Movement::LeftOfLine),
        EditNotification::MoveToLeftEndOfLineAndModifySelection => modify(Movement::LeftOfLine),
        EditNotification::MoveToRightEndOfLine => mv(Movement::RightOfLine),
        EditNotification::MoveToRightEndOfLineAndModifySelection => modify(Movement::RightOfLine),
        EditNotification::MoveUp => mv(Movement::Up),
        EditNotification::MoveUpAndModifySelection => modify(Movement::Up),
        EditNotification::MoveWordLeft => mv(Movement::LeftWord),
        EditNotification::MoveWordLeftAndModifySelection => modify(Movement::LeftWord),
        EditNotification::MoveWordRight => mv(Movement::RightWord),
        EditNotification::MoveWordRightAndModifySelection => modify(Movement::RightWord),
        EditNotification::PageDownAndModifySelection => modify(Movement::DownPage),
        EditNotification::PageUpAndModifySelection => modify(Movement::UpPage),
        EditNotification::Transpose => buf(BufferEvent::Transpose),
        EditNotification::SelectAll => EventDomain::View(ViewEvent::SelectAll),
        EditNotification::CollapseSelections => EventDomain::View(ViewEvent::CollapseSelections),
        EditNotification::CopyAsync => EventDomain::View(ViewEvent::Copy),
        EditNotification::CutAsync => buf(BufferEvent::Cut),
        EditNotification::Undo => buf(BufferEvent::Undo),
        EditNotification::Redo => buf(BufferEvent::Redo),
        EditNotification::ToggleComment => buf(BufferEvent::ToggleComment),
    }
}

impl EditNotification {
    /// Sorts the request into its event family.
    pub fn into_domain(self) -> (r: EventDomain)
        ensures
            r == domain_of(self),
    {
        match self {
            EditNotification::Insert { chars } => EventDomain::Buffer(BufferEvent::Insert(chars)),
            EditNotification::ViewportChange(r) => EventDomain::Special(SpecialEvent::ViewportChange(r)),
            EditNotification::Gesture { line, col, ty } => EventDomain::View(ViewEvent::Gesture { line, col, ty }),
            EditNotification::DeleteBackward => EventDomain::Buffer(BufferEvent::Backspace),
            EditNotification::DeleteForward => EventDomain::Buffer(BufferEvent::Delete { movement: Movement::Right }),
            EditNotification::DeleteToBeginningOfLine => EventDomain::Buffer(BufferEvent::Delete { movement: Movement::LeftOfLine }),
            EditNotification::DeleteToEndOfParagraph => EventDomain::Buffer(BufferEvent::Delete { movement: Movement::EndOfParagraphKill }),
            EditNotification::DeleteWordBackward => EventDomain::Buffer(BufferEvent::Delete { movement: Movement::LeftWord }),
            EditNotification::DeleteWordForward => EventDomain::Buffer(BufferEvent::Delete { movement: Movement::RightWord }),
            EditNotification::InsertNewline => EventDomain::Buffer(BufferEvent::InsertNewline),
            EditNotification::InsertTab => EventDomain::Buffer(BufferEvent::InsertTab),
            EditNotification::MoveBackward => EventDomain::View(ViewEvent::Move(Movement::Left)),
            EditNotification::MoveDown => EventDomain::View(ViewEvent::Move(Movement::Down)),
            EditNotification::MoveDownAndModifySelection => EventDomain::View(ViewEvent::ModifySelection(Movement::Down)),
            EditNotification::MoveForward => EventDomain::View(ViewEvent::Move(Movement::Right)),
            EditNotification::MoveLeft => EventDomain::View(ViewEvent::Move(Movement::Left)),
            EditNotification::MoveLeftAndModifySelection => EventDomain::View(ViewEvent::ModifySelection(Movement::Left)),
            EditNotification::MoveRight => EventDomain::View(ViewEvent::Move(Movement::Right)),
            EditNotification::MoveRightAndModifySelection => EventDomain::View(ViewEvent::ModifySelection(Movement::Right)),
            EditNotification::MoveToBeginningOfDocument => EventDomain::View(ViewEvent::Move(Movement::StartOfDocument)),
            EditNotification::MoveToBeginningOfDocumentAndModifySelection => EventDomain::View(ViewEvent::ModifySelection(Movement::StartOfDocument)),
            EditNotification::MoveToBeginningOfParagraph => EventDomain::View(ViewEvent::Move(Movement::StartOfParagraph)),
            EditNotification::MoveToBeginningOfParagraphAndModifySelection => EventDomain::View(ViewEvent::ModifySelection(Movement::StartOfParagraph)),
            EditNotification::MoveToEndOfDocument => EventDomain::View(ViewEvent::Move(Movement::EndOfDocument)),
            EditNotification::MoveToEndOfDocumentAndModifySelection => EventDomain::View(ViewEvent::ModifySelection(Movement::EndOfDocument)),
            EditNotification::MoveToEndOfParagraph => EventDomain::View(ViewEvent::Move(Movement::EndOfParagraph)),
            EditNotification::MoveToEndOfParagraphAndModifySelection => EventDomain::View(ViewEvent::ModifySelection(Movement::EndOfParagraph)),
            EditNotification::MoveToLeftEndOfLine => EventDomain::View(ViewEvent::Move(Movement::LeftOfLine)),
            EditNotification::MoveToLeftEndOfLineAndModifySelection => EventDomain::View(ViewEvent::ModifySelection(Movement::LeftOfLine)),
            EditNotification::MoveToRightEndOfLine => EventDomain::View(ViewEvent::Move(Movement::RightOfLine)),
            EditNotification::MoveToRightEndOfLineAndModifySelection => EventDomain::View(ViewEvent::ModifySelection(Movement::RightOfLine)),
            EditNotification::MoveUp => EventDomain::View(ViewEvent::Move(Movement::Up)),
            EditNotification::MoveUpAndModifySelection => EventDomain::View(ViewEvent::ModifySelection(Movement::Up)),
            EditNotification::MoveWordLeft => EventDomain::View(ViewEvent::Move(Movement::LeftWord)),
            EditNotification::MoveWordLeftAndModifySelection => EventDomain::View(ViewEvent::ModifySelection(Movement::LeftWord)),
            EditNotification::MoveWordRight => EventDomain::View(ViewEvent::Move(Movement::RightWord)),
            EditNotification::MoveWordRightAndModifySelection => EventDomain::View(ViewEvent::ModifySelection(Movement::RightWord)),
            EditNotification::PageDownAndModifySelection => EventDomain::View(ViewEvent::ModifySelection(Movement::DownPage)),
            EditNotification::PageUpAndModifySelection => EventDomain::View(ViewEvent::ModifySelection(Movement::UpPage)),
            EditNotification::Transpose => EventDomain::Buffer(BufferEvent::Transpose),
            EditNotification::SelectAll => EventDomain::View(ViewEvent::SelectAll),
            EditNotification::CollapseSelections => EventDomain::View(ViewEvent::CollapseSelections),
            EditNotification::CopyAsync => EventDomain::View(ViewEvent::Copy),
            EditNotification::CutAsync => EventDomain::Buffer(BufferEvent::Cut),
            EditNotification::Undo => EventDomain::Buffer(BufferEvent::Undo),
            EditNotification::Redo => EventDomain::Buffer(BufferEvent::Redo),
            EditNotification::ToggleComment => EventDomain::Buffer(BufferEvent::ToggleComment),
        }
    }
}

impl BufferEvent {
    pub fn clone_event(&self) -> (r: BufferEvent)
        ensures
            !(self is Insert || self is Paste) ==> r == *self,
    {
        match self {
            BufferEvent::Insert(v) => BufferEvent::Insert(crate::text::copy_bytes(v)),
            BufferEvent::Paste(v) => BufferEvent::Paste(crate::text::copy_bytes(v)),
            BufferEvent::Delete { movement } => BufferEvent::Delete { movement: *movement },
            BufferEvent::Backspace => BufferEvent::Backspace,
            BufferEvent::InsertNewline => BufferEvent::InsertNewline,
            BufferEvent::InsertTab => BufferEvent::InsertTab,
            BufferEvent::Indent => BufferEvent::Indent,
            BufferEvent::Outdent => BufferEvent::Outdent,
            BufferEvent::ToggleComment => BufferEvent::ToggleComment,
            BufferEvent::Transpose => BufferEvent::Transpose,
            BufferEvent::Undo => BufferEvent::Undo,
            BufferEvent::Redo => BufferEvent::Redo,
            BufferEvent::Cut => BufferEvent::Cut,
        }
    }
}

impl EventDomain {
    pub fn clone_event(&self) -> (r: EventDomain)
        ensures
            !(self is Buffer) ==> r == *self,
    {
        match self {
            EventDomain::View(e) => EventDomain::View(*e),
            EventDomain::Buffer(b) => EventDomain::Buffer(b.clone_event()),
            EventDomain::Special(e) => EventDomain::Special(*e),
        }
    }
}

} // verus!

//! Tracking undo state.
use crate::events::BufferEvent;
use std::collections::VecDeque;
use vstd::prelude::*;

verus! {

/// The number of undo groups kept by default.
pub const DEFAULT_UNDO_STACK_SIZE: usize = 40;

/// A bounded stack of document states, with a cursor at the live state.
pub struct UndoStack<T> {
    pub max_undo_count: usize,
    pub stack: VecDeque<T>,
    /// The index in `stack` of the current document.
    pub live_index: usize,
}

impl<T> UndoStack<T> {
    pub open spec fn items(&self) -> Seq<T> {
        self.stack@
    }

    /// The stack is never empty, the live index is in bounds, and the
    /// capacity is respected.
    pub open spec fn wf(&self) -> bool {
        &&& self.max_undo_count >= 1
        &&& 1 <= self.stack@.len() <= self.max_undo_count
        &&& self.live_index < self.stack@.len()
    }

    pub fn new(init_state: T) -> (r: Self)
        ensures
            r.wf(),
            r.items() == seq![init_state],
            r.live_index == 0,
            r.max_undo_count == DEFAULT_UNDO_STACK_SIZE,
    {
        Self::new_sized(DEFAULT_UNDO_STACK_SIZE, init_state)
    }

    pub fn new_sized(max_undo_count: usize, init_state: T) -> (r: Self)
        requires
            max_undo_count >= 1,
        ensures
            r.wf(),
            r.items() == seq![init_state],
            r.live_index == 0,
            r.max_undo_count == max_undo_count,
    {
        let mut stack = VecDeque::new();
        stack.push_back(init_state);
        UndoStack { max_undo_count, stack, live_index: 0 }
    }

    /// Steps back one group, returning the state that is now live.
    pub fn undo(&mut self) -> (r: Option<&T>)
        requires
            old(self).wf(),
        ensures
            final(self).wf(),
            final(self).items() == old(self).items(),
            final(self).max_undo_count == old(self).max_undo_count,
            old(self).live_index == 0 ==> r.is_none() && final(self).live_index == 0,
            old(self).live_index > 0 ==> final(self).live_index == old(self).live_index - 1
                && r == Some(&old(self).items()[old(self).live_index - 1]),
    {
        if self.live_index == 0 {
            return None;
        }
        self.live_index = self.live_index - 1;
        Some(&self.stack[self.live_index])
    }

    /// Steps forward one group, returning the state that is now live.
    pub fn redo(&mut self) -> (r: Option<&T>)
        requires
            old(self).wf(),
        ensures
            final(self).wf(),
            final(self).items() == old(self).items(),
            final(self).max_undo_count == old(self).max_undo_count,
            old(self).live_index + 1 == old(self).items().len() ==> r.is_none()
                && final(self).live_index == old(self).live_index,
            old(self).live_index + 1 < old(self).items().len() ==> final(self).live_index
                == old(self).live_index + 1 && r == Some(&old(self).items()[old(self).live_index
                + 1]),
    {
        if self.live_index == self.stack.len() - 1 {
            return None;
        }
        self.live_index = self.live_index + 1;
        Some(&self.stack[self.live_index])
    }

    /// The states after pushing `item` as a new group: everything past the
    /// live state is dropped, and the oldest state goes when over capacity.
    pub open spec fn pushed(&self, item: T) -> Seq<T> {
        let kept = self.items().subrange(0, self.live_index + 1).push(item);
        if kept.len() > self.max_undo_count {
            kept.drop_first()
        } else {
            kept
        }
    }

    /// Starts a new undo group holding `item`, which becomes the live state.
    pub fn add_undo_group(&mut self, item: T)
        requires
            old(self).wf(),
        ensures
            final(self).wf(),
            final(self).max_undo_count == old(self).max_undo_count,
            final(self).items() == old(self).pushed(item),
            final(self).live_index == final(self).items().len() - 1,
    {
        if self.live_index < self.stack.len() - 1 {
            self.stack.truncate(self.live_index + 1);
        }
        self.live_index = self.live_index + 1;
        self.stack.push_back(item);

        if self.stack.len() > self.max_undo_count {
            self.stack.pop_front();
            self.live_index = self.live_index - 1;
        }
        proof {
            assert(self.stack@ =~= old(self).pushed(item));
        }
    }

    /// Replaces the live state. This is done when an edit continues the
    /// current group, or to record the selection before the next edit.
    pub fn update_current_undo(&mut self, item: T)
        requires
            old(self).wf(),
        ensures
            final(self).wf(),
            final(self).max_undo_count == old(self).max_undo_count,
            final(self).live_index == old(self).live_index,
            final(self).items() == old(self).items().update(old(self).live_index as int, item),
    {
        self.stack.remove(self.live_index);
        self.stack.insert(self.live_index, item);
        proof {
            assert(self.stack@ =~= old(self).items().update(old(self).live_index as int, item));
        }
    }

    /// The live state.
    pub fn current(&self) -> (r: &T)
        requires
            self.wf(),
        ensures
            *r == self.items()[self.live_index as int],
    {
        &self.stack[self.live_index]
    }
}

/// The kind of an edit, which decides how edits are grouped for undo.
#[derive(PartialEq, Eq, Structural, Clone, Copy, Debug)]
pub enum EditType {
    /// A catchall for edits that always get their own undo group.
    Other,
    /// An insert from the keyboard.
    InsertChars,
    InsertNewline,
    /// An indentation adjustment.
    Indent,
    Delete,
    Undo,
    Redo,
    Transpose,
}

impl EditType {
    pub open spec fn spec_breaks_undo_group(self, previous: EditType) -> bool {
        self == EditType::Other || self == EditType::Transpose || self != previous
    }

    pub open spec fn spec_from_event(event: BufferEvent) -> EditType {
        match event {
            BufferEvent::Delete { .. } | BufferEvent::Backspace => EditType::Delete,
            BufferEvent::Transpose => EditType::Transpose,
            BufferEvent::Undo => EditType::Undo,
            BufferEvent::Redo => EditType::Redo,
            BufferEvent::Indent | BufferEvent::Outdent => EditType::Indent,
            BufferEvent::Insert(_) | BufferEvent::InsertTab => EditType::InsertChars,
            BufferEvent::Paste(_) => EditType::Other,
            BufferEvent::InsertNewline => EditType::InsertNewline,
            _ => EditType::Other,
        }
    }

    /// The kind of edit a buffer event makes.
    pub fn from_event(event: &BufferEvent) -> (r: EditType)
        ensures
            r == Self::spec_from_event(*event),
    {
        match event {
            BufferEvent::Delete { .. } | BufferEvent::Backspace => EditType::Delete,
            BufferEvent::Transpose => EditType::Transpose,
            BufferEvent::Undo => EditType::Undo,
            BufferEvent::Redo => EditType::Redo,
            BufferEvent::Indent | BufferEvent::Outdent => EditType::Indent,
            BufferEvent::Insert(_) | BufferEvent::InsertTab => EditType::InsertChars,
            BufferEvent::Paste(_) => EditType::Other,
            BufferEvent::InsertNewline => EditType::InsertNewline,
            _ => EditType::Other,
        }
    }

    /// Whether a new undo group starts between `previous` and this edit.
    pub fn breaks_undo_group(self, previous: EditType) -> (r: bool)
        ensures
            r == self.spec_breaks_undo_group(previous),
    {
        self == EditType::Other || self == EditType::Transpose || self != previous
    }
}

/// Undoing right after a new group is pushed brings back the state that
/// was live before the push, when the stack keeps at least two states.
pub proof fn law_undo_after_push<T>(before: UndoStack<T>, item: T)
    requires
        before.wf(),
        before.max_undo_count >= 2,
    ensures
        ({
            let after = before.pushed(item);
            let live = after.len() - 1;
            &&& live >= 1
            &&& after[live - 1] == before.items()[before.live_index as int]
        }),
{
    let kept = before.items().subrange(0, before.live_index + 1).push(item);
    assert(kept[before.live_index as int] == before.items()[before.live_index as int]);
    if kept.len() > before.max_undo_count {
        assert(kept.drop_first()[kept.len() - 3] == kept[kept.len() - 2]);
    }
}

} // verus!

//! What changed while handling an event, and how the host hears of it.
use crate::lines::Size;
use vstd::prelude::*;

verus! {

/// Uniquely identifies a style, so that each is sent to the host once.
pub type StyleId = u32;

/// A text style, with colours packed as `0xAARRGGBB`.
#[derive(PartialEq, Eq, Structural, Clone, Copy, Debug, Hash)]
pub struct Style {
    pub foreground: u32,
    pub background: u32,
    pub italic: bool,
    pub bold: bool,
    pub underline: bool,
}

/// A position as line and column.
#[derive(PartialEq, Eq, Structural, Clone, Copy, Debug)]
pub struct LineCol {
    pub line: usize,
    pub col: usize,
}

/// A half-open range of lines.
#[derive(PartialEq, Eq, Structural, Clone, Copy, Debug)]
pub struct LineRange {
    pub start: usize,
    pub end: usize,
}

/// The state changes that occurred while handling an event.
#[derive(Clone, Debug)]
pub struct Update {
    pub lines: Option<LineRange>,
    pub size: Option<Size>,
    pub scroll: Option<LineCol>,
    pub styles: Option<Vec<(StyleId, Style)>>,
    pub pasteboard: Option<Vec<u8>>,
}

/// One call to the host.
#[derive(Clone, Debug)]
pub enum HostCall {
    ContentSize(Size),
    NewStyles(Vec<(StyleId, Style)>),
    Invalidate(LineRange),
    ScrollTo(LineCol),
    SetPasteboard(Vec<u8>),
}

pub open spec fn opt_seq<T>(o: Option<T>) -> Seq<T> {
    match o {
        Some(x) => seq![x],
        None => Seq::empty(),
    }
}

impl Update {
    pub fn empty() -> (r: Update)
        ensures
            r.lines.is_none(),
            r.size.is_none(),
            r.scroll.is_none(),
            r.styles.is_none(),
            r.pasteboard.is_none(),
    {
        Update { lines: None, size: None, scroll: None, styles: None, pasteboard: None }
    }

    /// The host calls that convey this update, in the order the host must
    /// receive them: size, new styles, invalidation, scroll, pasteboard.
    /// New styles thus always reach the host before lines that use them.
    pub open spec fn spec_host_calls(self) -> Seq<HostCall> {
        opt_seq(match self.size { Some(s) => Some(HostCall::ContentSize(s)), None => None })
            + opt_seq(match self.styles { Some(s) => Some(HostCall::NewStyles(s)), None => None })
            + opt_seq(match self.lines { Some(l) => Some(HostCall::Invalidate(l)), None => None })
            + opt_seq(match self.scroll { Some(l) => Some(HostCall::ScrollTo(l)), None => None })
            + opt_seq(match self.pasteboard { Some(p) => Some(HostCall::SetPasteboard(p)), None => None })
    }

    pub fn host_calls(self) -> (r: Vec<HostCall>)
        ensures
            r@ == self.spec_host_calls(),
    {
        let ghost me = self;
        let mut calls: Vec<HostCall> = Vec::new();
        if let Some(s) = self.size {
            calls.push(HostCall::ContentSize(s));
        }
        if let Some(s) = self.styles {
            calls.push(HostCall::NewStyles(s));
        }
        if let Some(l) = self.lines {
            calls.push(HostCall::Invalidate(l));
        }
        if let Some(l) = self.scroll {
            calls.push(HostCall::ScrollTo(l));
        }
        if let Some(p) = self.pasteboard {
            calls.push(HostCall::SetPasteboard(p));
        }
        proof {
            assert(calls@ =~= me.spec_host_calls());
        }
        calls
    }
}

pub open spec fn later<T>(a: Option<T>, b: Option<T>) -> Option<T> {
    match b {
        Some(x) => Some(x),
        None => a,
    }
}

/// The update of two events in a row: the invalidated lines cover both,
/// the new styles are both lists in order, and otherwise the later value
/// wins.
pub open spec fn merged_update(a: Update, b: Update) -> (Option<LineRange>, Option<Size>, Option<LineCol>, Option<Seq<(StyleId, Style)>>, Option<Vec<u8>>) {
    (
        match (a.lines, b.lines) {
            (Some(x), Some(y)) => Some(LineRange {
                start: if x.start <= y.start { x.start } else { y.start },
                end: if x.end >= y.end { x.end } else { y.end },
            }),
            (Some(x), None) => Some(x),
            (None, y) => y,
        },
        later(a.size, b.size),
        later(a.scroll, b.scroll),
        match (a.styles, b.styles) {
            (Some(x), Some(y)) => Some(x@ + y@),
            (Some(x), None) => Some(x@),
            (None, Some(y)) => Some(y@),
            (None, None) => None,
        },
        later(a.pasteboard, b.pasteboard),
    )
}

pub open spec fn update_view(u: Update) -> (Option<LineRange>, Option<Size>, Option<LineCol>, Option<Seq<(StyleId, Style)>>, Option<Vec<u8>>) {
    (u.lines, u.size, u.scroll, match u.styles { Some(x) => Some(x@), None => None }, u.pasteboard)
}

impl Update {
    /// This update followed by `b`.
    pub fn merge(self, b: Update) -> (r: Update)
        ensures
            update_view(r) == merged_update(self, b),
    {
        let ghost a0 = self;
        let ghost b0 = b;
        let lines = match (self.lines, b.lines) {
            (Some(x), Some(y)) => Some(LineRange {
                start: if x.start <= y.start { x.start } else { y.start },
                end: if x.end >= y.end { x.end } else { y.end },
            }),
            (Some(x), None) => Some(x),
            (None, y) => y,
        };
        let size = match b.size { Some(x) => Some(x), None => self.size };
        let scroll = match b.scroll { Some(x) => Some(x), None => self.scroll };
        let pasteboard = match b.pasteboard { Some(x) => Some(x), None => self.pasteboard };
        let styles = match (self.styles, b.styles) {
            (Some(mut x), Some(y)) => {
                let ghost x0 = x@;
                let mut i: usize = 0;
                while i < y.len()
                    invariant
                        0 <= i <= y@.len(),
                        x@ == x0 + y@.take(i as int),
                    decreases y@.len() - i,
                {
                    x.push(y[i]);
                    proof {
                        assert(y@.take(i + 1) =~= y@.take(i as int).push(y@[i as int]));
                    }
                    i = i + 1;
                }
                proof {
                    assert(y@.take(i as int) =~= y@);
                }
                Some(x)
            },
            (Some(x), None) => Some(x),
            (None, y) => y,
        };
        Update { lines, size, scroll, styles, pasteboard }
    }
}

/// Collects the changes that occur while handling an event.
pub struct UpdateBuilder {
    pub inner: Update,
}

impl UpdateBuilder {
    pub fn new() -> (r: UpdateBuilder)
        ensures
            r.inner.lines.is_none(),
            r.inner.size.is_none(),
            r.inner.scroll.is_none(),
            r.inner.styles.is_none(),
            r.inner.pasteboard.is_none(),
    {
        UpdateBuilder { inner: Update::empty() }
    }

    /// Marks a range of lines as invalid; ranges accumulate into the
    /// smallest range covering all of them.
    pub fn inval_lines(&mut self, range: LineRange)
        ensures
            final(self).inner.size == old(self).inner.size,
            final(self).inner.scroll == old(self).inner.scroll,
            final(self).inner.styles == old(self).inner.styles,
            final(self).inner.pasteboard == old(self).inner.pasteboard,
            final(self).inner.lines == Some(match old(self).inner.lines {
                Some(prev) => LineRange {
                    start: if prev.start <= range.start { prev.start } else { range.start },
                    end: if prev.end >= range.end { prev.end } else { range.end },
                },
                None => range,
            }),
    {
        self.inner.lines = match self.inner.lines {
            Some(prev) => Some(LineRange {
                start: if prev.start <= range.start { prev.start } else { range.start },
                end: if prev.end >= range.end { prev.end } else { range.end },
            }),
            None => Some(range),
        };
    }

    /// Records that the content size changed.
    pub fn content_size(&mut self, new_size: Size)
        ensures
            final(self).inner.size == Some(new_size),
            final(self).inner.lines == old(self).inner.lines,
            final(self).inner.scroll == old(self).inner.scroll,
            final(self).inner.styles == old(self).inner.styles,
            final(self).inner.pasteboard == old(self).inner.pasteboard,
    {
        self.inner.size = Some(new_size);
    }

    pub fn scroll_to(&mut self, point: LineCol)
        ensures
            final(self).inner.scroll == Some(point),
            final(self).inner.lines == old(self).inner.lines,
            final(self).inner.size == old(self).inner.size,
            final(self).inner.styles == old(self).inner.styles,
            final(self).inner.pasteboard == old(self).inner.pasteboard,
    {
        self.inner.scroll = Some(point);
    }

    /// Records styles that the host has not seen yet.
    pub fn new_styles(&mut self, styles: Vec<(StyleId, Style)>)
        ensures
            final(self).inner.styles == Some(styles),
            final(self).inner.lines == old(self).inner.lines,
            final(self).inner.size == old(self).inner.size,
            final(self).inner.scroll == old(self).inner.scroll,
            final(self).inner.pasteboard == old(self).inner.pasteboard,
    {
        self.inner.styles = Some(styles);
    }

    /// Text to put on the host's pasteboard.
    pub fn set_pasteboard(&mut self, text: Vec<u8>)
        ensures
            final(self).inner.pasteboard == Some(text),
            final(self).inner.lines == old(self).inner.lines,
            final(self).inner.size == old(self).inner.size,
            final(self).inner.scroll == old(self).inner.scroll,
            final(self).inner.styles == old(self).inner.styles,
    {
        self.inner.pasteboard = Some(text);
    }

    pub fn build(self) -> (r: Update)
        ensures
            r == self.inner,
    {
        self.inner
    }
}

} // verus!

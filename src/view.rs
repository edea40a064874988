//! The state of a single view of a document, and the engine that turns
//! each event into an update.
use crate::delta::Delta;
use crate::edit_ops;
use crate::events::{BufferEvent, EventDomain, GestureType, Movement, Rect, SelectionGranularity, SpecialEvent, ViewEvent};
use crate::highlight::{HighlightState, Spans};
use crate::lines::{count_breaks, max_width_of, rewrap, Breaks, Measure, Size};
use crate::selection::{Affinity, Region, Selection};
use crate::text;
use crate::undo::{EditType, UndoStack};
use crate::update::{LineCol, LineRange, Update, UpdateBuilder};
use vstd::prelude::*;

verus! {

/// The line index that asks for the whole document as one line.
pub const WHOLE_DOCUMENT_LINE: usize = 6942069;

/// Settings that shape editing.
#[derive(PartialEq, Eq, Structural, Clone, Copy, Debug)]
pub struct Config {
    pub tab_size: usize,
    pub translate_tabs_to_spaces: bool,
    pub use_tab_stops: bool,
    pub word_wrap: bool,
}

/// A document state kept for undo: the text, the selection to restore when
/// undoing to it, and the one to restore when redoing to it.
pub struct ViewUndo {
    pub text: Vec<u8>,
    pub sel_before: Selection,
    pub sel_after: Selection,
}

impl ViewUndo {
    pub open spec fn wf(&self) -> bool {
        &&& self.text@.len() < usize::MAX
        &&& self.sel_before.wf()
        &&& self.sel_before.within(self.text@.len() as int)
        &&& self.sel_after.wf()
        &&& self.sel_after.within(self.text@.len() as int)
    }

    pub fn new(text: Vec<u8>, sel_before: Selection, sel_after: Selection) -> (r: ViewUndo)
        ensures
            r.text == text,
            r.sel_before == sel_before,
            r.sel_after == sel_after,
    {
        ViewUndo { text, sel_before, sel_after }
    }
}

/// One line as the host draws it: its bytes, the caret's column if the
/// caret is on it, the selected columns, and styles as (start, length, id)
/// triplets.
pub struct Line {
    pub line: Vec<u8>,
    pub caret: Option<usize>,
    pub selection: (usize, usize),
    pub styles: Vec<usize>,
}

/// A copy of a selection.
pub fn copy_selection(s: &Selection) -> (r: Selection)
    ensures
        r.regions@ == s.regions@,
{
    let mut regions: Vec<Region> = Vec::new();
    let mut i: usize = 0;
    while i < s.regions.len()
        invariant
            0 <= i <= s.regions@.len(),
            regions@ == s.regions@.take(i as int),
        decreases s.regions@.len() - i,
    {
        regions.push(s.regions[i]);
        proof {
            assert(s.regions@.take(i + 1) =~= s.regions@.take(i as int).push(s.regions@[i as int]));
        }
        i = i + 1;
    }
    proof {
        assert(s.regions@.take(i as int) =~= s.regions@);
    }
    Selection { regions }
}

pub open spec fn sat_mul(a: int, b: int) -> int {
    if a * b > usize::MAX { usize::MAX as int } else { a * b }
}

/// The view: document, selection, wrapping, highlighting and undo.
pub struct OneView<M: Measure> {
    pub selection: Selection,
    pub text: Vec<u8>,
    pub undo_stack: UndoStack<ViewUndo>,
    pub last_edit: EditType,
    pub config: Config,
    pub breaks: Breaks,
    pub spans: Spans,
    pub highlighter: HighlightState,
    pub frame: Rect,
    pub width_cache: M,
    pub line_height: usize,
    /// The total size of the document, in logical pixels.
    pub content_size: Size,
}

impl<M: Measure> OneView<M> {
    /// What holds between events: the selection is well formed and within
    /// the text, the breaks and spans cover the text, every style id in use
    /// is in the table, and the undo stack is within its bounds.
    pub open spec fn wf(&self) -> bool {
        &&& self.wf_core()
        &&& self.undo_stack.items()[self.undo_stack.live_index as int].text@ == self.text@
        &&& self.content_size.height == sat_mul(self.spec_count_lines(), self.line_height as int)
        &&& self.content_size.width == max_width_of(self.breaks.recs@)
    }

    /// The invariant without the parts that hold only between events: the
    /// live undo state's text and the content size.
    pub open spec fn wf_core(&self) -> bool {
        &&& self.selection.wf()
        &&& self.selection.within(self.text@.len() as int)
        &&& self.text@.len() < usize::MAX
        &&& self.breaks.wf()
        &&& self.breaks.total() == self.text@.len()
        &&& count_breaks(self.breaks.recs@) < usize::MAX
        &&& self.spans.wf()
        &&& self.spans.base_len == self.text@.len()
        &&& self.highlighter.table.wf()
        &&& self.spans.ids_below(self.highlighter.table.styles@.len() as int)
        &&& self.undo_stack.wf()
        &&& forall|i: int| 0 <= i < self.undo_stack.stack@.len() ==> (#[trigger] self.undo_stack.stack@[i]).wf()
        &&& self.config.tab_size >= 1
    }

    /// What editing helpers need of the text and settings.
    pub open spec fn text_ok(&self) -> bool {
        &&& self.text@.len() < usize::MAX
        &&& self.config.tab_size >= 1
    }

    /// Every style in the table has been reported to the host.
    pub open spec fn styles_sent(&self) -> bool {
        self.highlighter.table.sent == self.highlighter.table.styles@.len()
    }

    /// The number of lines: one more than the breaks when wrapping, else
    /// one more than the newlines.
    pub open spec fn spec_count_lines(&self) -> int {
        if self.config.word_wrap {
            count_breaks(self.breaks.recs@) + 1
        } else {
            text::count_nl(self.text@) as int + 1
        }
    }

    pub fn count_lines(&self) -> (r: usize)
        requires
            self.wf_core(),
        ensures
            r == self.spec_count_lines(),
            r >= 1,
    {
        if self.config.word_wrap {
            self.breaks.count_breaks() + 1
        } else {
            let n = text::line_of_offset(&self.text, self.text.len());
            proof {
                assert(self.text@.take(self.text@.len() as int) =~= self.text@);
            }
            n + 1
        }
    }

    /// The offset where visual line `line` starts; past the last line, the
    /// end of the text.
    pub fn offset_of_line(&self, line: usize) -> (r: usize)
        requires
            self.wf_core(),
        ensures
            r <= self.text@.len(),
            line >= self.spec_count_lines() ==> r == self.text@.len(),
            line < self.spec_count_lines() ==> r == self.breaks.spec_offset_of_line(
                if line <= self.breaks.recs@.len() { line as int } else { self.breaks.recs@.len() as int }),
    {
        if line >= self.count_lines() {
            self.text.len()
        } else {
            let r = self.breaks.offset_of_line(line);
            proof {
                let k = if line <= self.breaks.recs@.len() { line as int } else { self.breaks.recs@.len() as int };
                crate::lines::lemma_total_prefix(self.breaks.recs@, k);
            }
            r
        }
    }

    /// The visual line on which `offset` lies.
    pub fn line_of_offset(&self, offset: usize) -> (r: usize)
        requires
            self.wf_core(),
        ensures
            r <= count_breaks(self.breaks.recs@),
            r == crate::lines::line_of_offset_spec(self.breaks.recs@,
                if offset < self.text@.len() { offset as int } else { self.text@.len() as int }, 0),
    {
        let offset = if offset < self.text.len() { offset } else { self.text.len() };
        self.breaks.line_of_offset(offset)
    }

    /// The size of the document: a line height per line, and the widest
    /// break record.
    pub fn compute_content_size(&self) -> (r: Size)
        requires
            self.wf_core(),
        ensures
            r.height == sat_mul(self.spec_count_lines(), self.line_height as int),
            r.width == max_width_of(self.breaks.recs@),
    {
        let lines = self.count_lines();
        let height = lines.checked_mul(self.line_height).unwrap_or(usize::MAX);
        let width = self.breaks.max_width();
        Size { width, height }
    }

    /// The line and column of the last region's active end.
    pub fn compute_scroll_point(&self, sel: &Selection) -> (r: LineCol)
        requires
            self.wf_core(),
            sel.wf(),
        ensures
            r.line <= count_breaks(self.breaks.recs@),
            r.line == crate::lines::line_of_offset_spec(self.breaks.recs@,
                if sel.regions@.last().end < self.text@.len() { sel.regions@.last().end as int } else { self.text@.len() as int }, 0),
            r.col == (if sel.regions@.last().end >= self.spec_line_offset(r.line as int) {
                sel.regions@.last().end - self.spec_line_offset(r.line as int)
            } else {
                0
            }),
    {
        let end = sel.last().end;
        let line = self.line_of_offset(end);
        let line_off = self.offset_of_line(line);
        let col = if end >= line_off { end - line_off } else { 0 };
        LineCol { line, col }
    }

    /// Rebuilds the breaks, wrapping at `width` when given.
    pub fn rewrap_all(&mut self, width: Option<usize>)
        requires
            old(self).text@.len() < usize::MAX,
        ensures
            final(self).breaks.wf(),
            final(self).breaks.total() == final(self).text@.len(),
            count_breaks(final(self).breaks.recs@) < usize::MAX,
            final(self).text == old(self).text,
            final(self).selection == old(self).selection,
            final(self).spans == old(self).spans,
            final(self).highlighter == old(self).highlighter,
            final(self).undo_stack == old(self).undo_stack,
            final(self).config == old(self).config,
            final(self).line_height == old(self).line_height,
            final(self).content_size == old(self).content_size,
            final(self).frame == old(self).frame,
            final(self).last_edit == old(self).last_edit,
    {
        let breaks = rewrap(&self.text, &self.width_cache, width);
        let n = breaks.count_breaks();
        if n < usize::MAX {
            self.breaks = breaks;
        } else {
            self.breaks = Breaks::new();
            if self.text.len() > 0 {
                self.breaks.recs.push(crate::lines::BreakRec { len: self.text.len(), width: 0, is_break: false });
            }
            proof {
                let r = self.breaks.recs@;
                if r.len() == 1 {
                    assert(r.drop_last() =~= Seq::<crate::lines::BreakRec>::empty());
                    assert(crate::lines::total_len(r) == crate::lines::total_len(r.drop_last()) + r.last().len);
                    assert(count_breaks(r) == count_breaks(r.drop_last()));
                }
            }
        }
    }
}

/// After the edit of buffer event `e` from state `a`: the text is the
/// event's edits applied and then the indentation fixes `auto_indent_spec`
/// gives (when the result fits), with the selection carried through both;
/// when no fix can apply (not an insert, or an insert of whitespace only)
/// the text is the edits applied.
pub open spec fn edit_post<M: Measure>(a: OneView<M>, b: OneView<M>, e: BufferEvent) -> bool {
    let es = a.spec_event_edits(e).unwrap();
    let t1 = edit_ops::apply_view(a.text@, es, 0);
    let s1 = edit_ops::apply_edits_spec(es, a.selection.regions@, true);
    let ty = EditType::spec_from_event(e);
    &&& b.last_edit == ty
    &&& match auto_indent_spec(t1, a.config, es, ty) {
        Some(ai) => if edit_ops::len_after_view(t1.len() as int, ai, 0, 0) < usize::MAX {
            b.text@ == edit_ops::apply_view(t1, ai, 0) && b.selection.regions@ == edit_ops::apply_edits_spec(ai, s1, true)
        } else {
            b.text@ == t1 && b.selection.regions@ == s1
        },
        None => b.text@ == t1 && b.selection.regions@ == s1,
    }
    &&& (!is_indenting(ty) || (ty == EditType::InsertChars && forall|k: int| 0 <= k < es.len() ==> text::all_ws(#[trigger] es[k].2)))
        ==> b.text@ == t1 && b.selection.regions@ == s1
}

/// The regions after `n` moves by `m` in view `v`.
pub open spec fn iter_movement<M: Measure>(v: OneView<M>, m: Movement, modify: bool, regs: Seq<Region>, n: nat) -> Seq<Region>
    decreases n,
{
    if n == 0 { regs } else { v.spec_movement(m, iter_movement(v, m, modify, regs, (n - 1) as nat), modify, false) }
}

/// Movement reads only the text, the breaks, the frame, the line height
/// and the settings.
pub proof fn lemma_movement_same<M: Measure>(a: OneView<M>, b: OneView<M>, m: Movement, regs: Seq<Region>, modify: bool, carets_only: bool)
    requires
        a.text == b.text,
        a.breaks == b.breaks,
        a.frame == b.frame,
        a.line_height == b.line_height,
        a.config == b.config,
    ensures
        a.spec_movement(m, regs, modify, carets_only) == b.spec_movement(m, regs, modify, carets_only),
    decreases regs.len(),
{
    if regs.len() > 0 {
        lemma_movement_same(a, b, m, regs.drop_last(), modify, carets_only);
        lemma_offset_same(a, b, m, regs.last(), modify);
    }
}

proof fn lemma_offset_same<M: Measure>(a: OneView<M>, b: OneView<M>, m: Movement, r: Region, modify: bool)
    requires
        a.text == b.text,
        a.breaks == b.breaks,
        a.frame == b.frame,
        a.line_height == b.line_height,
        a.config == b.config,
    ensures
        a.spec_movement_offset(m, r, modify) == b.spec_movement_offset(m, r, modify),
{
    assert(a.spec_count_lines() == b.spec_count_lines());
    assert(a.spec_page_lines() == b.spec_page_lines());
    assert forall|x: int| a.spec_line_of(x) == b.spec_line_of(x) by {}
    assert forall|x: int| a.spec_line_offset(x) == b.spec_line_offset(x) by {}
    assert forall|x: int, n: int, up: bool| a.spec_vertical(x, n, up) == b.spec_vertical(x, n, up) by {}
}

/// Logical line `n` as the editing helpers read it.
pub open spec fn line_str(t: Seq<u8>, n: int) -> Seq<u8> {
    if n >= usize::MAX { Seq::empty() } else { edit_ops::line_of(t, n) }
}

/// The indentation of the first `i` bytes: a space counts one, a tab `tab`.
pub open spec fn ws_sum(line: Seq<u8>, i: int, tab: int) -> int
    decreases i,
{
    if i <= 0 { 0 } else { ws_sum(line, i - 1, tab) + if line[i - 1] == 32u8 { 1 } else { tab } }
}

/// The indentation level of a line, at most the largest `usize`.
pub open spec fn level_of(line: Seq<u8>, tab: int) -> int {
    let s = ws_sum(line, text::leading_ws(line) as int, tab);
    if s > usize::MAX { usize::MAX as int } else { s }
}

/// The closest line before `line` holding something besides whitespace.
pub open spec fn prev_nonblank(t: Seq<u8>, line: int) -> Option<int>
    decreases line,
{
    if line <= 0 {
        None
    } else if !text::all_ws(line_str(t, line - 1)) {
        Some(line - 1)
    } else {
        prev_nonblank(t, line - 1)
    }
}

pub open spec fn increase_spec(t: Seq<u8>, line: int) -> bool {
    match prev_nonblank(t, line) {
        Some(p) => crate::highlight::increases_indent(crate::highlight::SYNTAX_NAME@, line_str(t, p)),
        None => false,
    }
}

pub open spec fn decrease_spec(t: Seq<u8>, line: int) -> bool {
    if line == 0 || line >= text::count_nl(t) + 1 {
        false
    } else {
        crate::highlight::decreases_indent(crate::highlight::SYNTAX_NAME@, line_str(t, line))
    }
}

pub open spec fn indent_text_spec(c: Config, level: int) -> Seq<u8> {
    if c.translate_tabs_to_spaces {
        Seq::new(if level <= 160 { level as nat } else { 160 }, |_i: int| 32u8)
    } else {
        Seq::new(if level / c.tab_size as int <= 40 { (level / c.tab_size as int) as nat } else { 40 }, |_i: int| 9u8)
    }
}

/// The edit that gives `line` indentation `level`, after the edits `acc`.
pub open spec fn set_indent_step(t: Seq<u8>, c: Config, line: int, level: int, acc: (Seq<(int, int, Seq<u8>)>, int))
    -> (Seq<(int, int, Seq<u8>)>, int)
{
    let start = text::line_start(t, line as nat);
    let ws = text::leading_ws(line_str(t, line)) as int;
    if start >= acc.1 && ws <= t.len() - start {
        (acc.0.push((start, start + ws, indent_text_spec(c, level))), start + ws)
    } else {
        acc
    }
}

/// The fix for the line after a newline: the previous non-blank line's
/// level, one more after an increase pattern, one less on a decrease pattern.
pub open spec fn newline_step(t: Seq<u8>, c: Config, line: int, acc: (Seq<(int, int, Seq<u8>)>, int)) -> (Seq<(int, int, Seq<u8>)>, int) {
    let tab = c.tab_size as int;
    let current = level_of(line_str(t, line), tab);
    let base = match prev_nonblank(t, line) { Some(l) => level_of(line_str(t, l), tab), None => 0 };
    let inc = if increase_spec(t, line) { tab } else { 0 };
    let dec = if decrease_spec(t, line) { tab } else { 0 };
    let up = if base + inc > usize::MAX { usize::MAX as int } else { base + inc };
    let level = if up >= dec { up - dec } else { 0 };
    if level != current { set_indent_step(t, c, line, level, acc) } else { acc }
}

/// The fix for a line where characters were typed: a line matching the
/// decrease pattern goes one level under the previous non-blank line,
/// unless that line just increased it.
pub open spec fn insert_step(t: Seq<u8>, c: Config, line: int, acc: (Seq<(int, int, Seq<u8>)>, int)) -> (Seq<(int, int, Seq<u8>)>, int) {
    let tab = c.tab_size as int;
    let current = level_of(line_str(t, line), tab);
    if line == 0 || current == 0 {
        acc
    } else {
        let base = match prev_nonblank(t, line) { Some(l) => level_of(line_str(t, l), tab), None => 0 };
        if decrease_spec(t, line) {
            let level = if !increase_spec(t, line) { if base >= tab { base - tab } else { 0 } } else { base };
            if level != current { set_indent_step(t, c, line, level, acc) } else { acc }
        } else {
            acc
        }
    }
}

/// The indentation fixes for the inserts of `es` (from the one that starts
/// at or after `pos`, whose new offset is `n`), after the fixes `acc`.
pub open spec fn auto_from(t: Seq<u8>, c: Config, es: Seq<(int, int, Seq<u8>)>, ty: EditType, pos: int, n: int,
    acc: (Seq<(int, int, Seq<u8>)>, int)) -> Option<(Seq<(int, int, Seq<u8>)>, int)>
    decreases es.len(),
{
    if es.len() == 0 {
        Some(acc)
    } else {
        let e = es[0];
        if e.0 < pos || n + (e.0 - pos) + e.2.len() > usize::MAX {
            None
        } else {
            let no = n + (e.0 - pos);
            let n2 = no + e.2.len();
            let acc2 = if e.2.len() > 0 && n2 <= t.len() {
                let line = text::count_nl(t.take(no)) as int;
                if ty == EditType::InsertNewline {
                    if line < t.len() { newline_step(t, c, line + 1, acc) } else { acc }
                } else if ty == EditType::InsertChars {
                    if !text::all_ws(e.2) { insert_step(t, c, line, acc) } else { acc }
                } else {
                    acc
                }
            } else {
                acc
            };
            auto_from(t, c, es.drop_first(), ty, e.1, n2, acc2)
        }
    }
}

/// The indentation fixes after the edits `es` made text `t`.
pub open spec fn auto_indent_spec(t: Seq<u8>, c: Config, es: Seq<(int, int, Seq<u8>)>, ty: EditType) -> Option<Seq<(int, int, Seq<u8>)>> {
    match auto_from(t, c, es, ty, 0, 0, (Seq::empty(), 0)) {
        Some(acc) => if acc.0.len() > 0 { Some(acc.0) } else { None },
        None => None,
    }
}

/// The kinds of edit after which indentation is fixed.
pub open spec fn is_indenting(t: EditType) -> bool {
    t == EditType::InsertNewline || t == EditType::InsertChars
}

/// `n` spaces, at most 160.
pub fn n_spaces(n: usize) -> (r: Vec<u8>)
    ensures
        r@ == Seq::new(if n <= 160 { n as nat } else { 160 }, |_i: int| 32u8),
{
    text::repeat_byte(32u8, if n <= 160 { n } else { 160 })
}

/// `n` tabs, at most 40.
pub fn n_tabs(n: usize) -> (r: Vec<u8>)
    ensures
        r@ == Seq::new(if n <= 40 { n as nat } else { 40 }, |_i: int| 9u8),
{
    text::repeat_byte(9u8, if n <= 40 { n } else { 40 })
}

impl<M: Measure> OneView<M> {
    /// The bytes of logical line `n`.
    pub fn get_line_str(&self, n: usize) -> (r: Vec<u8>)
        requires
            self.text_ok(),
        ensures
            r@ == line_str(self.text@, n as int),
    {
        if n == usize::MAX {
            return Vec::new();
        }
        edit_ops::line_bytes(&self.text, n)
    }

    /// The number of logical lines.
    pub fn count_text_lines(&self) -> (r: usize)
        requires
            self.text_ok(),
        ensures
            r >= 1,
            r == text::count_nl(self.text@) + 1,
    {
        let n = text::line_of_offset(&self.text, self.text.len());
        proof {
            assert(self.text@.take(self.text@.len() as int) =~= self.text@);
        }
        n + 1
    }

    /// The indentation of a logical line: a space counts one, a tab a tab
    /// width.
    pub fn indent_level_of_line(&self, line: usize) -> (r: usize)
        requires
            self.text_ok(),
        ensures
            r == level_of(line_str(self.text@, line as int), self.config.tab_size as int),
    {
        let bytes = self.get_line_str(line);
        let k = text::count_leading_ws(&bytes);
        let tab = self.config.tab_size;
        let mut level: usize = 0;
        let mut i: usize = 0;
        while i < k
            invariant
                k <= bytes@.len(),
                i <= k,
                tab >= 1,
                level == (if ws_sum(bytes@, i as int, tab as int) > usize::MAX { usize::MAX as int } else { ws_sum(bytes@, i as int, tab as int) }),
                ws_sum(bytes@, i as int, tab as int) >= 0,
            decreases k - i,
        {
            let w = if bytes[i] == 32u8 { 1 } else { tab };
            level = if level > usize::MAX - w { usize::MAX } else { level + w };
            i = i + 1;
        }
        level
    }

    /// The closest line before `line` holding something besides whitespace.
    pub fn previous_nonblank_line(&self, line: usize) -> (r: Option<usize>)
        requires
            self.text_ok(),
        ensures
            r.is_some() ==> r.unwrap() < line,
            match r { Some(p) => prev_nonblank(self.text@, line as int) == Some(p as int), None => prev_nonblank(self.text@, line as int).is_none() },
    {
        let mut n = line;
        while n > 0
            invariant
                self.text_ok(),
                n <= line,
                prev_nonblank(self.text@, line as int) == prev_nonblank(self.text@, n as int),
            decreases n,
        {
            n = n - 1;
            let bytes = self.get_line_str(n);
            if !text::is_blank(&bytes) {
                return Some(n);
            }
        }
        None
    }

    /// Whether `line` is indented one more level: the previous non-blank
    /// line matches the syntax's increase pattern.
    pub fn test_increase(&self, line: usize) -> (r: bool)
        requires
            self.text_ok(),
        ensures
            r == increase_spec(self.text@, line as int),
    {
        match self.previous_nonblank_line(line) {
            Some(prev) => self.highlighter.increase_indent(&self.get_line_str(prev)),
            None => false,
        }
    }

    /// Whether `line` is indented one level less: it matches the syntax's
    /// decrease pattern. Never for the first or past the last line.
    pub fn test_decrease(&self, line: usize) -> (r: bool)
        requires
            self.text_ok(),
        ensures
            r == decrease_spec(self.text@, line as int),
    {
        if line == 0 || line >= self.count_text_lines() {
            return false;
        }
        self.highlighter.decrease_indent(&self.get_line_str(line))
    }

    /// Replaces the leading whitespace of `line` with indentation of `level`.
    pub fn set_indent(&self, list: &mut edit_ops::EditList, line: usize, level: usize)
        requires
            self.text_ok(),
            old(list).wf(),
            old(list).base_len == self.text@.len(),
        ensures
            final(list).wf(),
            final(list).base_len == old(list).base_len,
            (final(list).edits@.map_values(|e: crate::delta::Edit| edit_ops::edit_view(e)), final(list).last_end as int) == set_indent_step(self.text@, self.config, line as int, level as int, (old(list).edits@.map_values(|e: crate::delta::Edit| edit_ops::edit_view(e)), old(list).last_end as int)),
    {
        let start = text::offset_of_line(&self.text, line);
        let bytes = self.get_line_str(line);
        let ws = text::count_leading_ws(&bytes);
        let indent = if self.config.translate_tabs_to_spaces { n_spaces(level) } else { n_tabs(level / self.config.tab_size) };
        proof {
            if !self.config.translate_tabs_to_spaces {
                assert(indent@ == indent_text_spec(self.config, level as int));
            }
        }
        let ghost before = list.edits@;
        if start >= list.last_end && ws <= self.text.len() - start {
            list.push(start, start + ws, indent);
            proof {
                let f = |e: crate::delta::Edit| edit_ops::edit_view(e);
                assert(list.edits@.map_values(f) =~= before.map_values(f).push(edit_ops::edit_view(list.edits@.last())));
            }
        }
    }

    pub fn indent_after_newline(&self, line: usize, list: &mut edit_ops::EditList)
        requires
            self.text_ok(),
            old(list).wf(),
            old(list).base_len == self.text@.len(),
        ensures
            final(list).wf(),
            final(list).base_len == old(list).base_len,
            (final(list).edits@.map_values(|e: crate::delta::Edit| edit_ops::edit_view(e)), final(list).last_end as int) == newline_step(self.text@, self.config, line as int, (old(list).edits@.map_values(|e: crate::delta::Edit| edit_ops::edit_view(e)), old(list).last_end as int)),
    {
        let tab_size = self.config.tab_size;
        let current = self.indent_level_of_line(line);
        let base = match self.previous_nonblank_line(line) {
            Some(l) => self.indent_level_of_line(l),
            None => 0,
        };
        let increase = if self.test_increase(line) { tab_size } else { 0 };
        let decrease = if self.test_decrease(line) { tab_size } else { 0 };
        let up = if base > usize::MAX - increase { usize::MAX } else { base + increase };
        let level = if up >= decrease { up - decrease } else { 0 };
        if level != current {
            self.set_indent(list, line, level);
        }
    }

    pub fn indent_after_insert(&self, line: usize, list: &mut edit_ops::EditList)
        requires
            self.text_ok(),
            old(list).wf(),
            old(list).base_len == self.text@.len(),
        ensures
            final(list).wf(),
            final(list).base_len == old(list).base_len,
            (final(list).edits@.map_values(|e: crate::delta::Edit| edit_ops::edit_view(e)), final(list).last_end as int) == insert_step(self.text@, self.config, line as int, (old(list).edits@.map_values(|e: crate::delta::Edit| edit_ops::edit_view(e)), old(list).last_end as int)),
    {
        let tab_size = self.config.tab_size;
        let current = self.indent_level_of_line(line);
        if line == 0 || current == 0 {
            return;
        }
        let just_increased = self.test_increase(line);
        let decrease = self.test_decrease(line);
        let mut level = match self.previous_nonblank_line(line) {
            Some(l) => self.indent_level_of_line(l),
            None => 0,
        };
        if decrease {
            if !just_increased {
                level = if level >= tab_size { level - tab_size } else { 0 };
            }
            if level != current {
                self.set_indent(list, line, level);
            }
        }
    }

    /// The indentation fixes after an edit: after a newline, the new line
    /// takes the indentation its context asks for; after typed characters
    /// that close a block, the line moves out a level.
    pub fn auto_indent(&self, delta: &Delta, edit_type: EditType) -> (r: Option<Delta>)
        requires
            self.text_ok(),
            delta.wf(),
        ensures
            r.is_some() ==> r.unwrap().wf() && r.unwrap().base_len == self.text@.len(),
            edit_type != EditType::InsertNewline && edit_type != EditType::InsertChars ==> r.is_none(),
            edit_type == EditType::InsertChars && (forall|k: int| 0 <= k < delta.edits@.len()
                ==> text::all_ws((#[trigger] delta.edits@[k]).text@)) ==> r.is_none(),
            match auto_indent_spec(self.text@, self.config, delta.edits@.map_values(|e: crate::delta::Edit| edit_ops::edit_view(e)), edit_type) {
                Some(a) => (edit_ops::fits(self.text@.len() as int, a) ==> r.is_some())
                    && (r.is_some() ==> r.unwrap().edits@.map_values(|e: crate::delta::Edit| edit_ops::edit_view(e)) == a),
                None => r.is_none(),
            },
    {
        let mut list = edit_ops::EditList::new(self.text.len());
        let ghost vs = delta.edits@.map_values(|e: crate::delta::Edit| edit_ops::edit_view(e));
        proof {
            assert(vs.skip(0) =~= vs);
            assert(list.edits@.map_values(|e: crate::delta::Edit| edit_ops::edit_view(e)) =~= Seq::<(int, int, Seq<u8>)>::empty());
        }
        let mut pos: usize = 0;
        let mut n: usize = 0;
        let mut i: usize = 0;
        while i < delta.edits.len()
            invariant
                self.text_ok(),
                list.wf(),
                list.base_len == self.text@.len(),
                edit_type != EditType::InsertNewline && edit_type != EditType::InsertChars ==> list.edits@.len() == 0,
                edit_type == EditType::InsertChars && (forall|k: int| 0 <= k < delta.edits@.len()
                    ==> text::all_ws((#[trigger] delta.edits@[k]).text@)) ==> list.edits@.len() == 0,
                0 <= i <= delta.edits@.len(),
                vs == delta.edits@.map_values(|e: crate::delta::Edit| edit_ops::edit_view(e)),
                auto_from(self.text@, self.config, vs, edit_type, 0, 0, (Seq::empty(), 0))
                    == auto_from(self.text@, self.config, vs.skip(i as int), edit_type, pos as int, n as int, (list.edits@.map_values(|e: crate::delta::Edit| edit_ops::edit_view(e)), list.last_end as int)),
            decreases delta.edits@.len() - i,
        {
            let e = &delta.edits[i];
            proof {
                assert(vs.skip(i as int)[0] == edit_ops::edit_view(delta.edits@[i as int]));
                assert(vs.skip(i as int).drop_first() =~= vs.skip(i + 1));
            }
            if e.start < pos {
                return None;
            }
            let gap = e.start - pos;
            if n > usize::MAX - gap || n + gap > usize::MAX - e.text.len() {
                return None;
            }
            let new_offset = n + gap;
            n = new_offset + e.text.len();
            pos = e.end;
            if e.text.len() > 0 && n <= self.text.len() {
                let line = text::line_of_offset(&self.text, new_offset);
                match edit_type {
                    EditType::InsertNewline => {
                        if line < self.text.len() {
                            self.indent_after_newline(line + 1, &mut list);
                        }
                    },
                    EditType::InsertChars => {
                        if !text::is_blank(&e.text) {
                            self.indent_after_insert(line, &mut list);
                        }
                    },
                    _ => {},
                }
            }
            i = i + 1;
        }
        proof {
            assert(vs.skip(i as int) =~= Seq::<(int, int, Seq<u8>)>::empty());
            edit_ops::lemma_len_after_view(list.base_len as int, list.edits@, 0, 0);
        }
        if list.is_empty() {
            None
        } else {
            list.build()
        }
    }

    /// One level of indentation: `tab_size` spaces (at most 160), or a tab.
    pub open spec fn spec_tab_text(&self) -> Seq<u8> {
        if self.config.translate_tabs_to_spaces {
            Seq::new(if self.config.tab_size <= 160 { self.config.tab_size as nat } else { 160 }, |_i: int| 32u8)
        } else {
            seq![9u8]
        }
    }

    /// The line ranges the selection touches.
    pub open spec fn spec_sel_lines(&self) -> Seq<(usize, usize)> {
        edit_ops::usize_ranges(edit_ops::selection_lines(self.text@, self.selection.regions@))
    }

    /// The edits of indenting (or outdenting) the touched lines.
    pub open spec fn spec_indent_edits(&self, increase: bool) -> Seq<(int, int, Seq<u8>)> {
        if increase {
            edit_ops::indent_edits(self.text@, edit_ops::range_lines(self.spec_sel_lines()), self.spec_tab_text()).0
        } else {
            edit_ops::outdent_edits(self.text@, edit_ops::range_lines(self.spec_sel_lines()), self.spec_tab_text()).0
        }
    }

    /// The edits of toggling comments on the touched lines with marker `c`.
    pub open spec fn spec_comment_edits(&self, c: Seq<u8>) -> Seq<(int, int, Seq<u8>)> {
        edit_ops::toggle_edits(self.text@, self.spec_sel_lines(), c).0
    }

    /// Indents or outdents the lines the selection touches.
    pub fn modify_indent(&self, increase: bool) -> (r: Option<Delta>)
        requires
            self.wf(),
        ensures
            r.is_some() ==> r.unwrap().wf() && r.unwrap().base_len == self.text@.len()
                && r.unwrap().edits@.map_values(|e: crate::delta::Edit| edit_ops::edit_view(e)) == self.spec_indent_edits(increase),
            edit_ops::fits(self.text@.len() as int, self.spec_indent_edits(increase)) ==> r.is_some(),
    {
        let lines = edit_ops::lines_for_selection(&self.text, &self.selection);
        let tab = if self.config.translate_tabs_to_spaces {
            n_spaces(self.config.tab_size)
        } else {
            n_tabs(1)
        };
        proof {
            if !self.config.translate_tabs_to_spaces {
                assert(tab@ =~= seq![9u8]);
            }
            assert(tab@ == self.spec_tab_text());
        }
        if increase {
            edit_ops::indent(&self.text, &lines, &tab)
        } else {
            edit_ops::outdent(&self.text, &lines, &tab)
        }
    }

    /// Comments or uncomments the lines the selection touches, with the
    /// syntax's line comment marker; nothing when it has none or there is
    /// nothing to change.
    pub fn toggle_comment(&self) -> (r: Option<Delta>)
        requires
            self.wf(),
        ensures
            r.is_some() ==> r.unwrap().wf() && r.unwrap().base_len == self.text@.len(),
            match crate::highlight::line_comment_of(crate::highlight::SYNTAX_NAME@) {
                Some(c) => (r.is_some() ==> r.unwrap().edits@.map_values(|e: crate::delta::Edit| edit_ops::edit_view(e))
                        == self.spec_comment_edits(c) && self.spec_comment_edits(c).len() > 0)
                    && (self.spec_comment_edits(c).len() > 0 && edit_ops::fits(self.text@.len() as int, self.spec_comment_edits(c)) ==> r.is_some()),
                None => r.is_none(),
            },
    {
        let comment = match self.highlighter.line_comment() {
            Some(c) => c,
            None => return None,
        };
        let lines = edit_ops::lines_for_selection(&self.text, &self.selection);
        match edit_ops::toggle_comment(&self.text, &lines, &comment) {
            Some(d) => {
                if d.edits.len() == 0 {
                    None
                } else {
                    Some(d)
                }
            },
            None => None,
        }
    }

    /// Whether a buffer event edits the text: it makes edits whose result
    /// fits, and a cut has something to cut.
    pub open spec fn edit_applies(&self, e: BufferEvent) -> bool {
        &&& !(e is Undo) && !(e is Redo)
        &&& self.spec_event_edits(e) is Some
        &&& edit_ops::len_after_view(self.text@.len() as int, self.spec_event_edits(e).unwrap(), 0, 0) < usize::MAX
        &&& !(e is Cut && edit_ops::extracted(self.text@, self.selection.regions@) is None)
    }

    /// The edits a buffer event makes, if it makes any.
    pub open spec fn spec_event_edits(&self, e: BufferEvent) -> Option<Seq<(int, int, Seq<u8>)>> {
        let t = self.text@;
        let regs = self.selection.regions@;
        let c = self.config;
        match e {
            BufferEvent::Insert(chars) => Some(edit_ops::insert_edits(regs, chars@)),
            BufferEvent::InsertNewline => Some(edit_ops::insert_edits(regs, seq![text::NEWLINE])),
            BufferEvent::InsertTab => Some(edit_ops::tab_edits(t, regs, c.tab_size as int, c.translate_tabs_to_spaces)),
            BufferEvent::Backspace | BufferEvent::Cut => Some(edit_ops::backspace_edits(t, regs, c.tab_size as int,
                c.translate_tabs_to_spaces, c.use_tab_stops).0),
            BufferEvent::Delete { movement } => Some(edit_ops::deletion_edits(self.spec_movement(movement, regs, true, true))),
            BufferEvent::Indent => Some(self.spec_indent_edits(true)),
            BufferEvent::Outdent => Some(self.spec_indent_edits(false)),
            BufferEvent::ToggleComment => match crate::highlight::line_comment_of(crate::highlight::SYNTAX_NAME@) {
                Some(cm) => if self.spec_comment_edits(cm).len() > 0 { Some(self.spec_comment_edits(cm)) } else { None },
                None => None,
            },
            _ => None,
        }
    }

    /// The delta a buffer event makes, if any.
    pub fn edit_for_event(&self, event: &BufferEvent) -> (r: Option<Delta>)
        requires
            self.wf(),
        ensures
            r.is_some() ==> r.unwrap().wf() && r.unwrap().base_len == self.text@.len(),
            match self.spec_event_edits(*event) {
                Some(es) => (edit_ops::fits(self.text@.len() as int, es) ==> r.is_some())
                    && (r.is_some() ==> r.unwrap().edits@.map_values(|e: crate::delta::Edit| edit_ops::edit_view(e)) == es),
                None => r.is_none(),
            },
            *event is Backspace ==> r.is_some() && r.unwrap().new_len() <= self.text@.len()
                && r.unwrap().edits@.map_values(|e: crate::delta::Edit| edit_ops::edit_view(e))
                    == edit_ops::backspace_edits(self.text@, self.selection.regions@, self.config.tab_size as int,
                        self.config.translate_tabs_to_spaces, self.config.use_tab_stops).0,
    {
        let c = self.config;
        match event {
            BufferEvent::Delete { movement } => {
                let deletions = self.selection_movement(*movement, &self.selection, true, true);
                edit_ops::delete_regions(self.text.len(), &deletions.regions)
            },
            BufferEvent::Backspace | BufferEvent::Cut => {
                edit_ops::delete_backward(&self.text, &self.selection, c.tab_size, c.translate_tabs_to_spaces, c.use_tab_stops)
            },
            BufferEvent::Insert(chars) => edit_ops::insert(self.text.len(), &self.selection, chars),
            BufferEvent::InsertNewline => {
                let mut nl: Vec<u8> = Vec::new();
                nl.push(text::NEWLINE);
                edit_ops::insert(self.text.len(), &self.selection, &nl)
            },
            BufferEvent::InsertTab => edit_ops::insert_tab(&self.text, &self.selection, c.tab_size, c.translate_tabs_to_spaces),
            BufferEvent::ToggleComment => self.toggle_comment(),
            BufferEvent::Indent => self.modify_indent(true),
            BufferEvent::Outdent => self.modify_indent(false),
            _ => None,
        }
    }
}

/// The start of the logical line holding position `p`.
pub open spec fn para_start(t: Seq<u8>, p: int) -> int
    decreases p,
{
    if p <= 0 { 0 } else if t[p - 1] == text::NEWLINE { p } else { para_start(t, p - 1) }
}

/// The first newline at or after `q`, or the end of the text.
pub open spec fn next_newline(t: Seq<u8>, q: int) -> int
    decreases t.len() - q,
{
    if q >= t.len() { t.len() as int } else if t[q] == text::NEWLINE { q } else { next_newline(t, q + 1) }
}

impl<M: Measure> OneView<M> {
    pub open spec fn spec_line_of(&self, offset: int) -> int {
        crate::lines::line_of_offset_spec(self.breaks.recs@,
            if offset < self.text@.len() { offset } else { self.text@.len() as int }, 0)
    }

    pub open spec fn spec_page_lines(&self) -> int {
        let n = if self.line_height > 0 { self.frame.height as int / self.line_height as int } else { 0 };
        if n > 2 { n - 2 } else { 1 }
    }

    /// Where vertical motion by `lines` from `offset` lands.
    pub open spec fn spec_vertical(&self, offset: int, lines: int, up: bool) -> int {
        let len = self.text@.len() as int;
        let line = self.spec_line_of(offset);
        let start = self.spec_line_offset(line);
        let col = if offset >= start { offset - start } else { 0 };
        let last = self.spec_line_of(len);
        if up && line < lines {
            0
        } else if !up && (lines > last || line > last - lines) {
            len
        } else {
            let target = if up { line - lines } else { line + lines };
            let ts = self.spec_line_offset(target);
            let tn = if target < usize::MAX { self.spec_line_offset(target + 1) } else { len };
            let te0 = if tn > ts { tn } else { ts };
            let te = if te0 > ts && self.text@[te0 - 1] == text::NEWLINE { te0 - 1 } else { te0 };
            if col <= te - ts { ts + col } else { te }
        }
    }

    /// Where the active end of `r` goes under movement `m`.
    pub open spec fn spec_movement_offset(&self, m: Movement, r: Region, modify: bool) -> int {
        let t = self.text@;
        let len = t.len() as int;
        match m {
            Movement::Left => if r.caret_spec() || modify { edit_ops::prev_grapheme_spec(t, r.end) } else { r.lo() },
            Movement::Right => if r.caret_spec() || modify { edit_ops::next_grapheme_spec(t, r.end) } else { r.hi() },
            Movement::LeftWord => edit_ops::word_prev_spec(t, r.end),
            Movement::RightWord => edit_ops::word_next_spec(t, r.end),
            Movement::LeftOfLine => self.spec_line_offset(self.spec_line_of(r.end as int)),
            Movement::RightOfLine => {
                let line = self.spec_line_of(r.end as int);
                if line < self.spec_line_of(len) {
                    edit_ops::prev_grapheme_spec(t, self.spec_line_offset(line + 1) as usize)
                } else {
                    len
                }
            },
            Movement::Up => self.spec_vertical(r.end as int, 1, true),
            Movement::Down => self.spec_vertical(r.end as int, 1, false),
            Movement::UpPage => self.spec_vertical(r.end as int, self.spec_page_lines(), true),
            Movement::DownPage => self.spec_vertical(r.end as int, self.spec_page_lines(), false),
            Movement::StartOfParagraph => if r.end == 0 { 0 } else { para_start(t, r.end - 1) },
            Movement::EndOfParagraph | Movement::EndOfParagraphKill => {
                let q = next_newline(t, r.end as int);
                let eol0 = if q < len { edit_ops::prev_grapheme_spec(t, (q + 1) as usize) } else { len };
                let eol = if eol0 < r.end { r.end as int } else { eol0 };
                if m == Movement::EndOfParagraphKill && eol == r.end && r.end < len {
                    edit_ops::next_grapheme_spec(t, r.end)
                } else {
                    eol
                }
            },
            Movement::StartOfDocument => 0,
            Movement::EndOfDocument => len,
        }
    }

    /// Region `r` after movement `m`.
    pub open spec fn spec_moved_region(&self, m: Movement, r: Region, modify: bool, carets_only: bool) -> Region {
        if carets_only && !r.caret_spec() {
            r
        } else {
            let off = self.spec_movement_offset(m, r, modify) as usize;
            if modify {
                Region { start: r.start, end: off, affinity: Affinity::Downstream }
            } else {
                Region::caret_spec_at(off)
            }
        }
    }

    /// The regions after movement `m`, merged where they meet.
    pub open spec fn spec_movement(&self, m: Movement, regs: Seq<Region>, modify: bool, carets_only: bool) -> Seq<Region>
        decreases regs.len(),
    {
        if regs.len() == 0 {
            Seq::empty()
        } else {
            crate::selection::add_region_spec(self.spec_movement(m, regs.drop_last(), modify, carets_only),
                self.spec_moved_region(m, regs.last(), modify, carets_only))
        }
    }
}

impl<M: Measure> OneView<M> {
    /// The number of lines a page moves.
    pub fn page_lines(&self) -> (r: usize)
        ensures
            r >= 1,
            r == self.spec_page_lines(),
    {
        let n = if self.line_height > 0 { self.frame.height / self.line_height } else { 0 };
        if n > 2 { n - 2 } else { 1 }
    }

    /// The offset `lines` visual lines above (`up`) or below `offset`, at
    /// the same column or the end of the target line.
    pub fn vertical(&self, offset: usize, lines: usize, up: bool) -> (r: usize)
        requires
            self.wf(),
        ensures
            r <= self.text@.len(),
            r == self.spec_vertical(offset as int, lines as int, up),
    {
        let len = self.text.len();
        let line = self.line_of_offset(offset);
        let start = self.offset_of_line(line);
        let col = if offset >= start { offset - start } else { 0 };
        let target = if up {
            if line < lines {
                return 0;
            }
            line - lines
        } else {
            let last = self.line_of_offset(len);
            if lines > last || line > last - lines {
                return len;
            }
            line + lines
        };
        let t_start = self.offset_of_line(target);
        let t_next = if target < usize::MAX { self.offset_of_line(target + 1) } else { len };
        let mut t_end = if t_next > t_start { t_next } else { t_start };
        if t_end > t_start && self.text[t_end - 1] == text::NEWLINE {
            t_end = t_end - 1;
        }
        if col <= t_end - t_start { t_start + col } else { t_end }
    }

    /// Where the active end of region `r` goes under movement `m`.
    pub fn movement_offset(&self, m: Movement, r: Region, modify: bool) -> (res: usize)
        requires
            self.wf(),
            r.hi() <= self.text@.len(),
        ensures
            res <= self.text@.len(),
            res == self.spec_movement_offset(m, r, modify),
    {
        let t = &self.text;
        let len = t.len();
        match m {
            Movement::Left => if r.is_caret() || modify { edit_ops::prev_grapheme(t, r.end) } else { r.min() },
            Movement::Right => if r.is_caret() || modify { edit_ops::next_grapheme(t, r.end) } else { r.max() },
            Movement::LeftWord => edit_ops::word_prev(t, r.end),
            Movement::RightWord => edit_ops::word_next(t, r.end),
            Movement::LeftOfLine => {
                let line = self.line_of_offset(r.end);
                self.offset_of_line(line)
            },
            Movement::RightOfLine => {
                let line = self.line_of_offset(r.end);
                if line < self.line_of_offset(len) {
                    let next = self.offset_of_line(line + 1);
                    edit_ops::prev_grapheme(t, next)
                } else {
                    len
                }
            },
            Movement::Up => self.vertical(r.end, 1, true),
            Movement::Down => self.vertical(r.end, 1, false),
            Movement::UpPage => self.vertical(r.end, self.page_lines(), true),
            Movement::DownPage => self.vertical(r.end, self.page_lines(), false),
            Movement::StartOfParagraph => {
                if r.end == 0 {
                    0
                } else {
                    let mut p = r.end - 1;
                    while p > 0 && t[p - 1] != text::NEWLINE
                        invariant
                            p < r.end <= len,
                            len == t@.len(),
                            para_start(t@, p as int) == para_start(t@, r.end - 1),
                        decreases p,
                    {
                        p = p - 1;
                    }
                    p
                }
            },
            Movement::EndOfParagraph | Movement::EndOfParagraphKill => {
                let mut q = r.end;
                while q < len && t[q] != text::NEWLINE
                    invariant
                        r.end <= q <= len,
                        len == t@.len(),
                        next_newline(t@, q as int) == next_newline(t@, r.end as int),
                    decreases len - q,
                {
                    q = q + 1;
                }
                let eol = if q < len { edit_ops::prev_grapheme(t, q + 1) } else { len };
                let eol = if eol < r.end { r.end } else { eol };
                if m == Movement::EndOfParagraphKill && eol == r.end && r.end < len {
                    edit_ops::next_grapheme(t, r.end)
                } else {
                    eol
                }
            },
            Movement::StartOfDocument => 0,
            Movement::EndOfDocument => len,
        }
    }

    /// The selection after moving every region by `m`: when `modify`, the
    /// anchors stay and the regions grow or shrink, else each becomes a
    /// caret at its new place. With `carets_only`, regions that are not
    /// carets stay as they are.
    pub fn selection_movement(&self, m: Movement, sel: &Selection, modify: bool, carets_only: bool) -> (r: Selection)
        requires
            self.wf(),
            sel.wf(),
            sel.within(self.text@.len() as int),
        ensures
            r.wf(),
            r.within(self.text@.len() as int),
            r.regions@ == self.spec_movement(m, sel.regions@, modify, carets_only),
    {
        let mut out = Selection { regions: Vec::new() };
        let mut i: usize = 0;
        while i < sel.regions.len()
            invariant
                self.wf(),
                sel.within(self.text@.len() as int),
                0 <= i <= sel.regions@.len(),
                crate::selection::sorted_regions(out.regions@),
                crate::selection::regions_within(out.regions@, self.text@.len() as int),
                i > 0 ==> out.regions@.len() >= 1,
                out.regions@ == self.spec_movement(m, sel.regions@.take(i as int), modify, carets_only),
            decreases sel.regions@.len() - i,
        {
            let r = sel.regions[i];
            proof {
                let tk = sel.regions@.take(i + 1);
                assert(tk.drop_last() =~= sel.regions@.take(i as int));
                assert(tk.last() == r);
            }
            proof {
                assert(sel.regions@[i as int].hi() <= self.text@.len());
            }
            let moved = if carets_only && !r.is_caret() {
                r
            } else {
                let offset = self.movement_offset(m, r, modify);
                if modify {
                    Region { start: r.start, end: offset, affinity: Affinity::Downstream }
                } else {
                    Region::caret(offset)
                }
            };
            proof {
                crate::selection::lemma_add_region_within(out.regions@, moved, self.text@.len() as int);
            }
            out.add_region(moved);
            i = i + 1;
        }
        proof {
            assert(sel.regions@.take(i as int) =~= sel.regions@);
        }
        out
    }
}

/// The last region grown to a gesture's region: to its end when the
/// gesture lies at or after its start, else to its start.
pub open spec fn spec_extended(active: Region, offset: usize, region: Region) -> Region {
    if offset >= region.start {
        Region { start: active.start, end: region.end, affinity: Affinity::Downstream }
    } else {
        Region { start: active.start, end: region.start, affinity: Affinity::Downstream }
    }
}

impl<M: Measure> OneView<M> {
    /// The region a gesture of `granularity` at `offset` selects.
    pub open spec fn spec_region_for_gesture(&self, offset: usize, granularity: SelectionGranularity) -> Region {
        match granularity {
            SelectionGranularity::Point => Region::caret_spec_at(offset),
            SelectionGranularity::Word => Region {
                start: edit_ops::word_around_spec(self.text@, offset).0,
                end: edit_ops::word_around_spec(self.text@, offset).1,
                affinity: Affinity::Downstream,
            },
            SelectionGranularity::Line => {
                let line = text::count_nl(self.text@.take(offset as int));
                Region {
                    start: text::line_start(self.text@, line) as usize,
                    end: text::line_start(self.text@, line + 1) as usize,
                    affinity: Affinity::Downstream,
                }
            },
        }
    }
}

impl<M: Measure> OneView<M> {
    /// The region a gesture of `granularity` at `offset` selects: a caret,
    /// the word around it, or its logical line.
    pub fn region_for_gesture(&self, offset: usize, granularity: SelectionGranularity) -> (r: Region)
        requires
            self.wf(),
            offset <= self.text@.len(),
        ensures
            r.hi() <= self.text@.len(),
            r == self.spec_region_for_gesture(offset, granularity),
    {
        match granularity {
            SelectionGranularity::Point => Region::caret(offset),
            SelectionGranularity::Word => {
                let (start, end) = edit_ops::word_around(&self.text, offset);
                Region::new(start, end)
            },
            SelectionGranularity::Line => {
                let line = text::line_of_offset(&self.text, offset);
                let start = text::offset_of_line(&self.text, line);
                let end = text::offset_of_line(&self.text, line + 1);
                Region::new(start, end)
            },
        }
    }

    /// The selection after a gesture at `offset`. A multi point select on
    /// a region toggles it off unless it is the only one; a multi select
    /// adds a region; an extending select grows the last region to the
    /// gesture; a drag leaves the selection.
    pub fn selection_for_gesture(&self, offset: usize, gesture: GestureType) -> (r: Selection)
        requires
            !(gesture is Point) && !(gesture is Word) && !(gesture is Line),
            self.wf(),
            offset <= self.text@.len(),
        ensures
            r.wf(),
            r.within(self.text@.len() as int),
            gesture == GestureType::Drag ==> r.regions@ == self.selection.regions@,
            (gesture matches GestureType::Select { multi: false, .. })
                ==> r.regions@ == seq![self.spec_region_for_gesture(offset, gesture->Select_granularity)],
            (gesture matches GestureType::Select { multi: true, .. }) && !(gesture->Select_granularity == SelectionGranularity::Point
                && self.selection.regions@.len() > 1
                && exists|k: int| 0 <= k < self.selection.regions@.len()
                    && crate::selection::touches(#[trigger] self.selection.regions@[k], offset as int, offset as int))
                ==> r.regions@ == crate::selection::add_region_spec(self.selection.regions@,
                    self.spec_region_for_gesture(offset, gesture->Select_granularity)),
            (gesture matches GestureType::Select { granularity: SelectionGranularity::Point, multi: true })
                && self.selection.regions@.len() > 1
                && (exists|k: int| 0 <= k < self.selection.regions@.len()
                    && crate::selection::touches(#[trigger] self.selection.regions@[k], offset as int, offset as int))
                ==> r.regions@ == (if crate::selection::without_touching(self.selection.regions@, offset as int, offset as int).len() > 0 {
                    crate::selection::without_touching(self.selection.regions@, offset as int, offset as int)
                } else {
                    self.selection.regions@
                }),
            gesture is SelectExtend ==> r.regions@ == crate::selection::add_region_spec(self.selection.regions@,
                spec_extended(self.selection.regions@.last(), offset, self.spec_region_for_gesture(offset, gesture->SelectExtend_granularity))),
    {
        if let GestureType::Select { granularity: SelectionGranularity::Point, multi: true } = gesture {
            if self.selection.any_in_range(offset, offset) && self.selection.len() > 1 {
                let mut new = copy_selection(&self.selection);
                new.delete_range(offset, offset);
                proof {
                    assert forall|k: int| 0 <= k < new.regions@.len() implies (#[trigger] new.regions@[k]).hi() <= self.text@.len() by {
                        let j = choose|j: int| 0 <= j < self.selection.regions@.len() && self.selection.regions@[j] == new.regions@[k];
                    }
                }
                return new;
            }
        }
        match gesture {
            GestureType::Select { granularity, multi } => {
                let region = self.region_for_gesture(offset, granularity);
                if multi {
                    let mut new = copy_selection(&self.selection);
                    proof {
                        crate::selection::lemma_add_region_within(new.regions@, region, self.text@.len() as int);
                    }
                    new.add_region(region);
                    new
                } else {
                    Selection::new_simple(region)
                }
            },
            GestureType::SelectExtend { granularity } => {
                let active = self.selection.last();
                proof {
                    assert(self.selection.regions@[self.selection.regions@.len() - 1].hi() <= self.text@.len());
                }
                let region = self.region_for_gesture(offset, granularity);
                let merged = if offset >= region.start {
                    Region::new(active.start, region.end)
                } else {
                    Region::new(active.start, region.start)
                };
                let mut new = copy_selection(&self.selection);
                proof {
                    crate::selection::lemma_add_region_within(new.regions@, merged, self.text@.len() as int);
                }
                new.add_region(merged);
                new
            },
            _ => copy_selection(&self.selection),
        }
    }

    /// The offset of a line and column: the column is clamped to the line.
    pub fn line_col_to_offset(&self, line: usize, col: usize) -> (r: usize)
        requires
            self.wf(),
        ensures
            r <= self.text@.len(),
    {
        let start = self.offset_of_line(line);
        let next = if line < usize::MAX { self.offset_of_line(line + 1) } else { self.text.len() };
        let mut end = if next > start { next } else { start };
        if end > start && self.text[end - 1] == text::NEWLINE {
            end = end - 1;
        }
        if col <= end - start { start + col } else { end }
    }

    pub fn handle_gesture(&self, line: u64, col: u64, ty: GestureType) -> (r: Selection)
        requires
            self.wf(),
        ensures
            r.wf(),
            r.within(self.text@.len() as int),
    {
        let line = if line > usize::MAX as u64 { usize::MAX } else { line as usize };
        let col = if col > usize::MAX as u64 { usize::MAX } else { col as usize };
        let offset = self.line_col_to_offset(line, col);
        self.selection_for_gesture(offset, ty.normalized())
    }

    /// The selection a view event asks for, if it changes the selection.
    pub fn selection_for_event(&self, event: ViewEvent) -> (r: Option<Selection>)
        requires
            self.wf(),
        ensures
            r.is_some() ==> r.unwrap().wf() && r.unwrap().within(self.text@.len() as int),
            event == ViewEvent::SelectAll ==> r.is_some() && r.unwrap().regions@ == seq![
                Region { start: 0, end: self.text@.len() as usize, affinity: Affinity::Downstream }],
            event == ViewEvent::Copy ==> r.is_none(),
            event is Move ==> r.is_some() && r.unwrap().regions@ == self.spec_movement(event->Move_0, self.selection.regions@, false, false),
            event is ModifySelection ==> r.is_some()
                && r.unwrap().regions@ == self.spec_movement(event->ModifySelection_0, self.selection.regions@, true, false),
            event == ViewEvent::CollapseSelections ==> r.is_some() && r.unwrap().regions@ == seq![Region {
                start: self.selection.regions@[0].end,
                end: self.selection.regions@[0].end,
                affinity: self.selection.regions@[0].affinity,
            }],
            event is Gesture ==> r.is_some(),
    {
        match event {
            ViewEvent::Move(m) => Some(self.selection_movement(m, &self.selection, false, false)),
            ViewEvent::ModifySelection(m) => Some(self.selection_movement(m, &self.selection, true, false)),
            ViewEvent::SelectAll => Some(Selection::new_simple(Region::new(0, self.text.len()))),
            ViewEvent::CollapseSelections => {
                let first = self.selection.regions[0];
                proof {
                    assert(self.selection.regions@[0].hi() <= self.text@.len());
                }
                Some(Selection::new_simple(Region { start: first.end, end: first.end, affinity: first.affinity }))
            },
            ViewEvent::Gesture { line, col, ty } => Some(self.handle_gesture(line, col, ty)),
            ViewEvent::Copy => None,
        }
    }

    /// Points the live undo state's selection-before at `sel`.
    fn record_sel_before(&mut self, sel: &Selection)
        requires
            old(self).wf(),
            sel.wf(),
            sel.within(old(self).text@.len() as int),
        ensures
            final(self).wf(),
            final(self).text == old(self).text,
            final(self).selection == old(self).selection,
            final(self).breaks == old(self).breaks,
            final(self).spans == old(self).spans,
            final(self).highlighter == old(self).highlighter,
            final(self).config == old(self).config,
            final(self).line_height == old(self).line_height,
            final(self).content_size == old(self).content_size,
            final(self).frame == old(self).frame,
            final(self).last_edit == old(self).last_edit,
            final(self).undo_stack.live_index == old(self).undo_stack.live_index,
            final(self).undo_stack.items()[final(self).undo_stack.live_index as int].sel_before.regions@ == sel.regions@,
            final(self).undo_stack.items().len() == old(self).undo_stack.items().len(),
    {
        let cur = self.undo_stack.current();
        let text_copy = text::copy_bytes(&cur.text);
        let after = copy_selection(&cur.sel_after);
        proof {
            assert(self.undo_stack.stack@[self.undo_stack.live_index as int].wf());
        }
        if !sel.fits(text_copy.len()) {
            return;
        }
        let before = copy_selection(sel);
        let snap = ViewUndo::new(text_copy, before, after);
        self.undo_stack.update_current_undo(snap);
        proof {
            assert forall|i: int| 0 <= i < self.undo_stack.stack@.len() implies (#[trigger] self.undo_stack.stack@[i]).wf() by {
                if i != old(self).undo_stack.live_index {
                    assert(self.undo_stack.stack@[i] == old(self).undo_stack.stack@[i]);
                }
            }
        }
    }
}

impl<M: Measure> OneView<M> {
    /// A view of an empty document. The line height is the measured height
    /// of `"a"`.
    pub fn new(width_cache: M) -> (r: OneView<M>)
        ensures
            r.wf(),
            r.styles_sent(),
            r.text@.len() == 0,
            r.selection.regions@ == seq![Region::caret_spec_at(0)],
            r.undo_stack.items().len() == 1,
            r.undo_stack.items()[0].text@.len() == 0,
            r.undo_stack.items()[0].sel_before.regions@ == seq![Region::caret_spec_at(0)],
            r.undo_stack.items()[0].sel_after.regions@ == seq![Region::caret_spec_at(0)],
            r.undo_stack.max_undo_count == crate::undo::DEFAULT_UNDO_STACK_SIZE,
            r.last_edit == EditType::Other,
            r.content_size == (Size { width: 0, height: r.line_height }),
            r.spec_count_lines() == 1,
    {
        let mut a: Vec<u8> = Vec::new();
        a.push(97u8);
        let line_height = width_cache.measure(a.as_slice()).height;
        let selection = Selection::new_simple(Region::caret(0));
        let text: Vec<u8> = Vec::new();
        let init = ViewUndo::new(Vec::new(), copy_selection(&selection), copy_selection(&selection));
        let undo_stack = UndoStack::new(init);
        let highlighter = HighlightState::new();
        let view = OneView {
            selection,
            text,
            undo_stack,
            last_edit: EditType::Other,
            config: Config { tab_size: 4, translate_tabs_to_spaces: true, use_tab_stops: true, word_wrap: true },
            breaks: Breaks::new(),
            spans: Spans::empty(0),
            highlighter,
            frame: Rect::zero(),
            width_cache,
            line_height,
            content_size: Size { width: 0, height: line_height },
        };
        proof {
            assert(view.undo_stack.stack@[0].wf());
            assert(crate::lines::total_len(view.breaks.recs@) == 0);
            assert(count_breaks(view.breaks.recs@) == 0);
            assert(max_width_of(view.breaks.recs@) == 0);
            assert(view.spec_count_lines() == 1);
            assert(sat_mul(1, line_height as int) == line_height);
        }
        view
    }

    /// Rehighlights the whole text.
    fn update_spans(&mut self)
        requires
            old(self).highlighter.table.wf(),
        ensures
            final(self).highlighter.table.wf(),
            final(self).highlighter.table.sent == old(self).highlighter.table.sent,
            final(self).spans.wf(),
            final(self).spans.base_len == old(self).text@.len(),
            final(self).spans.ids_below(final(self).highlighter.table.styles@.len() as int),
            final(self).text == old(self).text,
            final(self).selection == old(self).selection,
            final(self).breaks == old(self).breaks,
            final(self).undo_stack == old(self).undo_stack,
            final(self).config == old(self).config,
            final(self).line_height == old(self).line_height,
            final(self).content_size == old(self).content_size,
            final(self).frame == old(self).frame,
            final(self).last_edit == old(self).last_edit,
    {
        self.spans = self.highlighter.highlight_all(&self.text);
    }

    /// Handles one event, returning what the host must redraw.
    pub fn handle_event(&mut self, event: EventDomain) -> (r: Update)
        requires
            old(self).wf(),
            old(self).styles_sent(),
        ensures
            final(self).wf(),
            final(self).styles_sent(),
            event is View && event->View_0 != ViewEvent::Copy ==> r.lines
                == Some(LineRange { start: 0, end: final(self).spec_count_lines() as usize }),
            event is View ==> final(self).text == old(self).text && final(self).breaks == old(self).breaks
                && final(self).frame == old(self).frame && final(self).line_height == old(self).line_height
                && final(self).config == old(self).config,
            event is View && event->View_0 is Move ==> final(self).selection.regions@
                == old(self).spec_movement(event->View_0->Move_0, old(self).selection.regions@, false, false),
            event is View && event->View_0 is ModifySelection ==> final(self).selection.regions@
                == old(self).spec_movement(event->View_0->ModifySelection_0, old(self).selection.regions@, true, false),
            event == EventDomain::View(ViewEvent::Copy) ==> final(self).selection == old(self).selection
                && pasteboard_holds(r.pasteboard, edit_ops::extracted(old(self).text@, old(self).selection.regions@)),
            event is Special ==> final(self).text == old(self).text && final(self).selection == old(self).selection
                && final(self).frame == (event->Special_0)->ViewportChange_0,
            (event matches EventDomain::Buffer(BufferEvent::Undo)) ==> undo_post(*old(self), *final(self)),
            (event matches EventDomain::Buffer(BufferEvent::Redo)) ==> redo_post(*old(self), *final(self)),
            event is Buffer && old(self).edit_applies(event->Buffer_0) ==> edit_post(*old(self), *final(self), event->Buffer_0),
            event is Buffer ==> (if final(self).content_size != old(self).content_size {
                r.size == Some(final(self).content_size)
            } else {
                r.size.is_none()
            }),
            event is Buffer ==> match r.styles {
                Some(v) => v@.len() == final(self).highlighter.table.styles@.len() - old(self).highlighter.table.styles@.len()
                    && forall|k: int| 0 <= k < v@.len() ==> (#[trigger] v@[k]) == ((old(self).highlighter.table.styles@.len() + k) as u32,
                        final(self).highlighter.table.styles@[old(self).highlighter.table.styles@.len() + k]),
                None => final(self).highlighter.table.styles@.len() == old(self).highlighter.table.styles@.len(),
            },
            (event matches EventDomain::Buffer(BufferEvent::Cut)) ==> pasteboard_holds(r.pasteboard,
                edit_ops::extracted(old(self).text@, old(self).selection.regions@)),
            event is Buffer && !(event->Buffer_0 is Undo) && !(event->Buffer_0 is Redo) && !old(self).edit_applies(event->Buffer_0)
                ==> final(self).text == old(self).text && final(self).selection == old(self).selection,
            event is Buffer && !(event->Buffer_0 is Undo) && !(event->Buffer_0 is Redo) && final(self).text@ != old(self).text@
                && EditType::spec_from_event(event->Buffer_0).spec_breaks_undo_group(old(self).last_edit)
                && old(self).undo_stack.max_undo_count >= 2 ==> new_group_post(*old(self), *final(self)),
    {
        let mut builder = UpdateBuilder::new();
        match event {
            EventDomain::View(e) => self.handle_view_event(e, &mut builder),
            EventDomain::Buffer(e) => self.handle_edit(e, &mut builder),
            EventDomain::Special(SpecialEvent::ViewportChange(rect)) => self.viewport_change(rect, &mut builder),
        }
        builder.build()
    }

    /// Runs an event once.
    fn run_once(&mut self, event: &EventDomain) -> (u: Update)
        requires
            old(self).wf(),
            old(self).styles_sent(),
        ensures
            final(self).wf(),
            final(self).styles_sent(),
            *event is View ==> final(self).text == old(self).text && final(self).breaks == old(self).breaks
                && final(self).frame == old(self).frame && final(self).line_height == old(self).line_height
                && final(self).config == old(self).config,
            (*event matches EventDomain::View(ViewEvent::Move(m))) ==> final(self).selection.regions@
                == old(self).spec_movement(event->View_0->Move_0, old(self).selection.regions@, false, false),
            (*event matches EventDomain::View(ViewEvent::ModifySelection(m))) ==> final(self).selection.regions@
                == old(self).spec_movement(event->View_0->ModifySelection_0, old(self).selection.regions@, true, false),
            *event is View && event->View_0 != ViewEvent::Copy ==> u.lines.is_some(),
    {
        self.handle_event(event.clone_event())
    }

    /// Runs an event `repeat` times; the update covers all the runs. A move
    /// repeated moves the selection that many times.
    pub fn do_core_event(&mut self, event: &EventDomain, repeat: usize) -> (r: Option<Update>)
        requires
            old(self).wf(),
            old(self).styles_sent(),
        ensures
            final(self).wf(),
            final(self).styles_sent(),
            repeat == 0 <==> r.is_none(),
            (*event matches EventDomain::View(ViewEvent::Move(m))) ==> final(self).selection.regions@
                == iter_movement(*old(self), event->View_0->Move_0, false, old(self).selection.regions@, repeat as nat),
            (*event matches EventDomain::View(ViewEvent::ModifySelection(m))) ==> final(self).selection.regions@
                == iter_movement(*old(self), event->View_0->ModifySelection_0, true, old(self).selection.regions@, repeat as nat),
            *event is View ==> final(self).text == old(self).text,
            *event is View && event->View_0 != ViewEvent::Copy && repeat > 0 ==> r.unwrap().lines.is_some(),
    {
        let mut last: Option<Update> = None;
        let mut i: usize = 0;
        while i < repeat
            invariant
                self.wf(),
                self.styles_sent(),
                i <= repeat,
                i == 0 <==> last.is_none(),
                *event is View && event->View_0 != ViewEvent::Copy && i > 0 ==> last.unwrap().lines.is_some(),
                *event is View ==> self.text == old(self).text && self.breaks == old(self).breaks
                    && self.frame == old(self).frame && self.line_height == old(self).line_height
                    && self.config == old(self).config,
                (*event matches EventDomain::View(ViewEvent::Move(m))) ==> self.selection.regions@
                    == iter_movement(*old(self), event->View_0->Move_0, false, old(self).selection.regions@, i as nat),
                (*event matches EventDomain::View(ViewEvent::ModifySelection(m))) ==> self.selection.regions@
                    == iter_movement(*old(self), event->View_0->ModifySelection_0, true, old(self).selection.regions@, i as nat),
            decreases repeat - i,
        {
            let ghost before = *self;
            let u = self.run_once(event);
            proof {
                if *event is View {
                    let v = event->View_0;
                    if v is Move {
                        lemma_movement_same(before, *old(self), v->Move_0, before.selection.regions@, false, false);
                    }
                    if v is ModifySelection {
                        lemma_movement_same(before, *old(self), v->ModifySelection_0, before.selection.regions@, true, false);
                    }
                }
            }
            last = match last {
                Some(prev) => Some(prev.merge(u)),
                None => Some(u),
            };
            i = i + 1;
        }
        last
    }

    /// A view event: copy puts the selected text on the pasteboard; any
    /// other event that yields a selection makes it the selection, ends the
    /// current undo group and scrolls to it. All lines are redrawn.
    pub fn handle_view_event(&mut self, event: ViewEvent, update: &mut UpdateBuilder)
        requires
            old(self).wf(),
            old(self).styles_sent(),
        ensures
            final(self).wf(),
            final(self).styles_sent(),
            event is Move ==> final(self).selection.regions@ == old(self).spec_movement(event->Move_0, old(self).selection.regions@, false, false),
            event is ModifySelection ==> final(self).selection.regions@
                == old(self).spec_movement(event->ModifySelection_0, old(self).selection.regions@, true, false),
            event == ViewEvent::SelectAll ==> final(self).selection.regions@ == seq![
                Region { start: 0, end: old(self).text@.len() as usize, affinity: Affinity::Downstream }],
            event == ViewEvent::Copy && old(update).inner.pasteboard.is_none() ==> final(self).selection == old(self).selection
                && pasteboard_holds(final(update).inner.pasteboard, edit_ops::extracted(old(self).text@, old(self).selection.regions@)),
            final(self).text == old(self).text,
            final(self).breaks == old(self).breaks,
            final(self).frame == old(self).frame,
            final(self).line_height == old(self).line_height,
            final(self).config == old(self).config,
            event == ViewEvent::Copy ==> final(self).undo_stack == old(self).undo_stack
                && final(update).inner.lines == old(update).inner.lines,
            event != ViewEvent::Copy && old(update).inner.lines.is_none() ==> final(update).inner.lines
                == Some(LineRange { start: 0, end: final(self).spec_count_lines() as usize }),
            event != ViewEvent::Copy ==> live_state_current(*final(self)) || final(self).selection == old(self).selection,
    {
        if let ViewEvent::Copy = event {
            if let Some(s) = edit_ops::extract_sel_regions(&self.text, &self.selection) {
                update.set_pasteboard(s);
            }
            return;
        }
        if let Some(new_selection) = self.selection_for_event(event) {
            self.last_edit = EditType::Other;
            self.record_sel_before(&new_selection);
            let point = self.compute_scroll_point(&new_selection);
            update.scroll_to(point);
            self.selection = new_selection;
        }
        let n = self.count_lines();
        update.inval_lines(LineRange { start: 0, end: n });
    }

    /// A new frame: with word wrap on and a new width, the text is wrapped
    /// again, all lines redrawn, and a changed content size reported.
    pub fn viewport_change(&mut self, new_frame: Rect, update: &mut UpdateBuilder)
        requires
            old(self).wf(),
            old(self).styles_sent(),
        ensures
            final(self).wf(),
            final(self).styles_sent(),
            final(self).frame == new_frame,
            final(self).text == old(self).text,
            final(self).selection == old(self).selection,
            old(self).config.word_wrap && new_frame.width != old(self).frame.width ==> final(self).content_size.height
                == sat_mul(final(self).spec_count_lines(), final(self).line_height as int)
                && final(self).content_size.width == max_width_of(final(self).breaks.recs@),
    {
        if self.config.word_wrap && new_frame.width != self.frame.width {
            self.rewrap_all(Some(new_frame.width));
            let n = self.count_lines();
            update.inval_lines(LineRange { start: 0, end: n });
            let size = self.compute_content_size();
            if size != self.content_size {
                self.content_size = size;
                update.content_size(size);
            }
        }
        self.frame = new_frame;
    }

    /// Applies a delta to the text and carries the selection through it.
    fn apply_edit(&mut self, delta: &Delta) -> (ok: bool)
        requires
            old(self).selection.wf(),
            old(self).selection.within(old(self).text@.len() as int),
            old(self).text@.len() < usize::MAX,
            delta.wf(),
            delta.base_len == old(self).text@.len(),
        ensures
            final(self).undo_stack == old(self).undo_stack,
            final(self).highlighter == old(self).highlighter,
            final(self).config == old(self).config,
            final(self).last_edit == old(self).last_edit,
            final(self).frame == old(self).frame,
            final(self).line_height == old(self).line_height,
            final(self).content_size == old(self).content_size,
            final(self).breaks == old(self).breaks,
            final(self).spans == old(self).spans,
            final(self).selection.wf(),
            final(self).selection.within(final(self).text@.len() as int),
            final(self).text@.len() < usize::MAX,
            ok ==> final(self).text@ == delta.spec_apply(old(self).text@),
            ok ==> final(self).selection.regions@ == crate::selection::apply_delta_spec(*delta, old(self).selection.regions@, true),
            ok ==> delta.new_len() < usize::MAX,
            delta.new_len() < usize::MAX ==> ok,
            !ok ==> final(self).text == old(self).text && final(self).selection == old(self).selection,
    {
        let newtext = delta.apply(&self.text);
        if newtext.len() == usize::MAX {
            return false;
        }
        let newsel = self.selection.apply_delta(delta, true);
        self.text = newtext;
        self.selection = newsel;
        true
    }
}

impl<M: Measure> OneView<M> {
    /// A buffer event. Cut with only carets does nothing; otherwise the
    /// selected text goes to the pasteboard and the cut deletes like a
    /// backspace. Undo and redo restore a state of the undo stack; other
    /// events edit the text and either start an undo group or extend the
    /// current one. Then the indentation is fixed, the text wrapped and
    /// highlighted again, new styles reported, the view scrolled to the
    /// selection, a changed size reported and all lines redrawn.
    pub fn handle_edit(&mut self, event: BufferEvent, update: &mut UpdateBuilder)
        requires
            old(self).wf(),
            old(self).styles_sent(),
        ensures
            final(self).wf(),
            final(self).styles_sent(),
            final(self).text@ != old(self).text@ ==> final(self).content_size.height
                == sat_mul(final(self).spec_count_lines(), final(self).line_height as int)
                && final(self).content_size.width == max_width_of(final(self).breaks.recs@),
            final(self).undo_stack.max_undo_count == old(self).undo_stack.max_undo_count,
            final(self).line_height == old(self).line_height,
            event is Undo ==> undo_post(*old(self), *final(self)),
            event is Redo ==> redo_post(*old(self), *final(self)),
            !(event is Undo) && !(event is Redo) && final(self).text@ != old(self).text@
                && EditType::spec_from_event(event).spec_breaks_undo_group(old(self).last_edit)
                && old(self).undo_stack.max_undo_count >= 2 ==> new_group_post(*old(self), *final(self)),
            old(self).edit_applies(event) ==> live_state_current(*final(self)),
            event is Undo ==> live_state_current(*final(self)) || final(self).selection == old(self).selection,
            old(self).edit_applies(event) ==> edit_post(*old(self), *final(self), event),
            !(event is Undo) && !(event is Redo) && !old(self).edit_applies(event) ==> final(self).text == old(self).text
                && final(self).selection == old(self).selection && final(self).breaks == old(self).breaks
                && final(self).spans == old(self).spans && final(self).last_edit == old(self).last_edit
                && (!(event is Cut) ==> *final(update) == *old(update)),
            event is Cut && old(update).inner.pasteboard.is_none() ==> pasteboard_holds(final(update).inner.pasteboard,
                edit_ops::extracted(old(self).text@, old(self).selection.regions@)),
            old(update).inner.size.is_none() ==> (if final(self).content_size != old(self).content_size {
                final(update).inner.size == Some(final(self).content_size)
            } else {
                final(update).inner.size.is_none()
            }),
            old(update).inner.styles.is_none() ==> match final(update).inner.styles {
                Some(v) => v@.len() == final(self).highlighter.table.styles@.len() - old(self).highlighter.table.styles@.len()
                    && forall|k: int| 0 <= k < v@.len() ==> (#[trigger] v@[k]) == ((old(self).highlighter.table.styles@.len() + k) as u32,
                        final(self).highlighter.table.styles@[old(self).highlighter.table.styles@.len() + k]),
                None => final(self).highlighter.table.styles@.len() == old(self).highlighter.table.styles@.len(),
            },
    {
        let ghost ev = event;
        if let BufferEvent::Cut = event {
            match edit_ops::extract_sel_regions(&self.text, &self.selection) {
                Some(s) => update.set_pasteboard(s),
                None => return,
            }
        }
        match event {
            BufferEvent::Undo => {
                let (t, sel) = match self.undo_stack.undo() {
                    Some(state) => (text::copy_bytes(&state.text), copy_selection(&state.sel_before)),
                    None => return,
                };
                proof {
                    assert(self.undo_stack.stack@[self.undo_stack.live_index as int].wf());
                }
                self.text = t;
                self.selection = sel;
            },
            BufferEvent::Redo => {
                let (t, sel) = match self.undo_stack.redo() {
                    Some(state) => (text::copy_bytes(&state.text), copy_selection(&state.sel_after)),
                    None => return,
                };
                proof {
                    assert(self.undo_stack.stack@[self.undo_stack.live_index as int].wf());
                }
                self.text = t;
                self.selection = sel;
            },
            other => {
                proof {
                    assert(other == event);
                }
                if !self.perform_edit(&other) {
                    return;
                }
            },
        }
        self.refresh(update);
    }
    /// Makes the edit of a buffer event other than undo and redo: applies
    /// its delta, fixes indentation, and records the result for undo.
    /// Returns whether the edit was made; otherwise nothing changed.
    fn perform_edit(&mut self, event: &BufferEvent) -> (done: bool)
        requires
            old(self).wf(),
            !(*event is Undo),
            !(*event is Redo),
            !(*event is Cut && edit_ops::extracted(old(self).text@, old(self).selection.regions@) is None),
        ensures
            done == old(self).edit_applies(*event),
            !done ==> final(self).text == old(self).text && final(self).selection == old(self).selection
                && final(self).breaks == old(self).breaks && final(self).spans == old(self).spans
                && final(self).last_edit == old(self).last_edit && final(self).undo_stack == old(self).undo_stack,
            done ==> live_state_current(*final(self)),
            done ==> final(self).edited_state(),
            final(self).config == old(self).config,
            final(self).line_height == old(self).line_height,
            final(self).highlighter == old(self).highlighter,
            final(self).content_size == old(self).content_size,
            final(self).frame == old(self).frame,
            final(self).undo_stack.max_undo_count == old(self).undo_stack.max_undo_count,
            done ==> edit_post(*old(self), *final(self), *event),
            done && EditType::spec_from_event(*event).spec_breaks_undo_group(old(self).last_edit)
                && old(self).undo_stack.max_undo_count >= 2 ==> new_group_post(*old(self), *final(self)),
    {
        let this_edit_type = EditType::from_event(event);
        let delta = match self.edit_for_event(event) {
            Some(d) => d,
            None => return false,
        };
        let ghost old_text = self.text@;
        proof {
            edit_ops::lemma_len_after_view(delta.base_len as int, delta.edits@, 0, 0);
            
        }
        if !self.apply_edit(&delta) {
            return false;
        }
        proof {
            edit_ops::lemma_apply_view(old_text, delta.edits@, 0);
        }
        let ghost primary_text = self.text@;
        let ghost primary_sel = self.selection.regions@;
        proof {
            edit_ops::lemma_apply_edits_spec(delta, old(self).selection.regions@, true);
            edit_ops::lemma_apply_view_empty(primary_text);
            edit_ops::lemma_apply_edits_empty(primary_sel, true);
        }
        proof {
            let f = |e: crate::delta::Edit| edit_ops::edit_view(e);
            assert forall|k: int| 0 <= k < delta.edits@.len() implies (#[trigger] delta.edits@[k]).text@
                == delta.edits@.map_values(f)[k].2 by {}
        }
        let ghost mut ai: Seq<(int, int, Seq<u8>)> = Seq::empty();
        if let Some(indent_delta) = self.auto_indent(&delta, this_edit_type) {
            proof {
                edit_ops::lemma_len_after_view(indent_delta.base_len as int, indent_delta.edits@, 0, 0);
            }
            if self.apply_edit(&indent_delta) {
                proof {
                    ai = indent_delta.edits@.map_values(|e: crate::delta::Edit| edit_ops::edit_view(e));
                    edit_ops::lemma_apply_view(primary_text, indent_delta.edits@, 0);
                    edit_ops::lemma_apply_edits_spec(indent_delta, primary_sel, true);
                }
            }
        }
        proof {
            assert(self.text@ == edit_ops::apply_view(primary_text, ai, 0));
            assert(self.selection.regions@ == edit_ops::apply_edits_spec(ai, primary_sel, true));
        }
        let snap = ViewUndo::new(text::copy_bytes(&self.text), copy_selection(&self.selection), copy_selection(&self.selection));
        if this_edit_type.breaks_undo_group(self.last_edit) {
            let ghost before_stack = self.undo_stack;
            self.undo_stack.add_undo_group(snap);
            proof {
                if before_stack.max_undo_count >= 2 {
                    crate::undo::law_undo_after_push(before_stack, snap);
                }
                assert forall|i: int| 0 <= i < self.undo_stack.stack@.len() implies (#[trigger] self.undo_stack.stack@[i]).wf() by {
                    let kept = old(self).undo_stack.items().subrange(0, old(self).undo_stack.live_index + 1).push(snap);
                    if kept.len() > old(self).undo_stack.max_undo_count {
                        assert(self.undo_stack.stack@[i] == kept[i + 1]);
                    } else {
                        assert(self.undo_stack.stack@[i] == kept[i]);
                    }
                }
            }
        } else {
            self.undo_stack.update_current_undo(snap);
            proof {
                assert forall|i: int| 0 <= i < self.undo_stack.stack@.len() implies (#[trigger] self.undo_stack.stack@[i]).wf() by {
                    if i != old(self).undo_stack.live_index {
                        assert(self.undo_stack.stack@[i] == old(self).undo_stack.stack@[i]);
                    }
                }
            }
        }
        self.last_edit = this_edit_type;
        true
    }

    /// Wraps and highlights the edited text again, and reports new styles,
    /// the scroll point, a changed size and the lines to redraw.
    fn refresh(&mut self, update: &mut UpdateBuilder)
        requires
            old(self).edited_state(),
            old(self).styles_sent(),
        ensures
            final(self).wf(),
            final(self).styles_sent(),
            final(self).text == old(self).text,
            final(self).selection == old(self).selection,
            final(self).undo_stack == old(self).undo_stack,
            final(self).last_edit == old(self).last_edit,
            final(self).config == old(self).config,
            final(self).line_height == old(self).line_height,
            final(update).inner.pasteboard == old(update).inner.pasteboard,
            old(update).inner.size.is_none() ==> (if final(self).content_size != old(self).content_size {
                final(update).inner.size == Some(final(self).content_size)
            } else {
                final(update).inner.size.is_none()
            }),
            old(update).inner.styles.is_none() ==> match final(update).inner.styles {
                Some(v) => v@.len() == final(self).highlighter.table.styles@.len() - old(self).highlighter.table.styles@.len()
                    && forall|k: int| 0 <= k < v@.len() ==> (#[trigger] v@[k]) == ((old(self).highlighter.table.styles@.len() + k) as u32,
                        final(self).highlighter.table.styles@[old(self).highlighter.table.styles@.len() + k]),
                None => final(self).highlighter.table.styles@.len() == old(self).highlighter.table.styles@.len(),
            },
    {
        let view_width = if self.config.word_wrap { Some(self.frame.width) } else { None };
        self.rewrap_all(view_width);
        self.update_spans();
        if let Some(styles) = self.highlighter.take_new_styles() {
            update.new_styles(styles);
        }
        let point = self.compute_scroll_point(&self.selection);
        update.scroll_to(point);
        let size = self.compute_content_size();
        if size != self.content_size {
            self.content_size = size;
            update.content_size(size);
        }
        let n = self.count_lines();
        update.inval_lines(LineRange { start: 0, end: n });
    }

    /// What holds after an edit, before the text is wrapped and highlighted
    /// again.
    pub open spec fn edited_state(&self) -> bool {
        &&& self.selection.wf()
        &&& self.selection.within(self.text@.len() as int)
        &&& self.text@.len() < usize::MAX
        &&& self.undo_stack.wf()
        &&& forall|i: int| 0 <= i < self.undo_stack.stack@.len() ==> (#[trigger] self.undo_stack.stack@[i]).wf()
        &&& self.undo_stack.items()[self.undo_stack.live_index as int].text@ == self.text@
        &&& self.config.tab_size >= 1
        &&& self.highlighter.table.wf()
    }

}

/// The caret's column on a line `start..end` for region `r`: where its
/// active end lies inside the line, at the line's start for a downstream
/// caret and at its end for an upstream one, or at the end of the document
/// on the document's last line.
pub open spec fn caret_on_line(r: Region, start: int, end: int, len: int, end_line_is_idx: bool) -> Option<usize> {
    let c = r.end as int;
    if (c > start && c < end) || (r.affinity != Affinity::Upstream && c == start)
        || (r.affinity == Affinity::Upstream && c == end) || (c == end && c == len && end_line_is_idx) {
        Some((c - start) as usize)
    } else {
        None
    }
}

/// The spans that meet `start..end`, clipped to it, as (start, length, id)
/// triplets relative to `start`.
pub open spec fn style_triplets(spans: Seq<crate::highlight::Span>, start: int, end: int) -> Seq<usize>
    decreases spans.len(),
{
    if spans.len() == 0 {
        Seq::empty()
    } else {
        let prev = style_triplets(spans.drop_last(), start, end);
        let sp = spans.last();
        if sp.end > start && sp.start < end {
            let a = if sp.start > start { sp.start as int } else { start };
            let b = if sp.end < end { sp.end as int } else { end };
            prev + seq![(a - start) as usize, (b - a) as usize, sp.style as usize]
        } else {
            prev
        }
    }
}

impl<M: Measure> OneView<M> {
    /// The offset where visual line `line` starts.
    pub open spec fn spec_line_offset(&self, line: int) -> int {
        if line >= self.spec_count_lines() {
            self.text@.len() as int
        } else {
            self.breaks.spec_offset_of_line(if line <= self.breaks.recs@.len() { line } else { self.breaks.recs@.len() as int })
        }
    }

    /// The whole document as one line, with a final newline and nothing
    /// else.
    pub fn whole_thing(&self) -> (r: Line)
        ensures
            r.line@ == self.text@.push(text::NEWLINE),
            r.caret.is_none(),
            r.selection == (0usize, 0usize),
            r.styles@.len() == 0,
    {
        let mut t = text::copy_bytes(&self.text);
        t.push(text::NEWLINE);
        Line { line: t, caret: None, selection: (0, 0), styles: Vec::new() }
    }

    /// The style triplets of the spans within `start..end`, relative to
    /// `start`.
    fn styles_in(&self, start: usize, end: usize) -> (r: Vec<usize>)
        requires
            self.spans.wf(),
            start <= end,
        ensures
            r@ == style_triplets(self.spans.spans@, start as int, end as int),
    {
        let mut out: Vec<usize> = Vec::new();
        let mut i: usize = 0;
        while i < self.spans.spans.len()
            invariant
                self.spans.wf(),
                start <= end,
                0 <= i <= self.spans.spans@.len(),
                out@ == style_triplets(self.spans.spans@.take(i as int), start as int, end as int),
            decreases self.spans.spans@.len() - i,
        {
            let sp = self.spans.spans[i];
            proof {
                let tk = self.spans.spans@.take(i + 1);
                assert(tk.drop_last() =~= self.spans.spans@.take(i as int));
                assert(tk.last() == sp);
            }
            if sp.end > start && sp.start < end {
                let a = if sp.start > start { sp.start } else { start };
                let b = if sp.end < end { sp.end } else { end };
                let ghost before = out@;
                out.push(a - start);
                out.push(b - a);
                out.push(sp.style as usize);
                proof {
                    assert(out@ =~= before + seq![(a - start) as usize, (b - a) as usize, sp.style as usize]);
                }
            }
            i = i + 1;
        }
        proof {
            assert(self.spans.spans@.take(i as int) =~= self.spans.spans@);
        }
        out
    }

    fn caret_for(&self, r: Region, start: usize, end: usize, idx: usize) -> (res: Option<usize>)
        requires
            self.wf(),
            start <= end,
            r.hi() <= self.text@.len(),
            crate::selection::touches(r, start as int, end as int),
        ensures
            res == caret_on_line(r, start as int, end as int, self.text@.len() as int,
                crate::lines::line_of_offset_spec(self.breaks.recs@, r.end as int, 0) == idx),
    {
        let c = r.end;
        let end_line = self.line_of_offset(c);
        if (c > start && c < end) || (!r.is_upstream() && c == start) || (r.is_upstream() && c == end)
            || (c == end && c == self.text.len() && end_line == idx) {
            Some(c - start)
        } else {
            None
        }
    }

    fn selection_for_line(&self, r: Region, start: usize, end: usize) -> (res: (usize, usize))
        requires
            start <= end,
            crate::selection::touches(r, start as int, end as int),
        ensures
            res == ((if r.lo() >= start { r.lo() - start } else { 0 }) as usize,
                (if r.hi() - start < end - start { r.hi() - start } else { end - start }) as usize),
    {
        let lo = if r.min() >= start { r.min() - start } else { 0 };
        let hi = r.max() - start;
        (lo, if hi < end - start { hi } else { end - start })
    }

    /// Line `idx` as the host draws it; `None` past the line after the
    /// last. The sentinel index gives the whole document.
    pub fn get_line(&self, idx: usize) -> (r: Option<Line>)
        requires
            self.wf(),
        ensures
            idx != WHOLE_DOCUMENT_LINE && idx > self.spec_count_lines() ==> r.is_none(),
            idx != WHOLE_DOCUMENT_LINE && idx <= self.spec_count_lines() ==> r.is_some() && ({
                let l = r.unwrap();
                let start = self.spec_line_offset(idx as int);
                let end = self.spec_line_offset(idx + 1);
                &&& start <= end <= self.text@.len()
                &&& l.line@ == self.text@.subrange(start, end)
                &&& l.styles@ == style_triplets(self.spans.spans@, start, end)
                &&& (forall|k: int| 0 <= k < self.selection.regions@.len()
                    ==> !crate::selection::touches(#[trigger] self.selection.regions@[k], start, end))
                    ==> l.caret.is_none() && l.selection == (0usize, 0usize)
                &&& forall|k: int| 0 <= k < self.selection.regions@.len()
                    && crate::selection::touches(#[trigger] self.selection.regions@[k], start, end)
                    && (forall|j: int| 0 <= j < k ==> !crate::selection::touches(self.selection.regions@[j], start, end))
                    ==> {
                        let reg = self.selection.regions@[k];
                        &&& l.caret == caret_on_line(reg, start, end, self.text@.len() as int,
                            crate::lines::line_of_offset_spec(self.breaks.recs@, reg.end as int, 0) == idx)
                        &&& l.selection == ((if reg.lo() >= start { reg.lo() - start } else { 0 }) as usize,
                            (if reg.hi() - start < end - start { reg.hi() - start } else { end - start }) as usize)
                    }
            }),
            idx == WHOLE_DOCUMENT_LINE ==> r.is_some() && r.unwrap().line@ == self.text@.push(text::NEWLINE),
    {
        if idx == WHOLE_DOCUMENT_LINE {
            return Some(self.whole_thing());
        }
        let count = self.count_lines();
        if idx > count {
            return None;
        }
        let start = self.offset_of_line(idx);
        let end = if idx >= count - 1 { self.text.len() } else { self.offset_of_line(idx + 1) };
        proof {
            lemma_line_offsets_ordered(self, idx as int);
        }
        let line = text::slice(&self.text, start, end);
        let region = self.selection.first_in_range(start, end);
        let (caret, selection) = match region {
            Some(r) => {
                proof {
                    let k0 = choose|k0: int| 0 <= k0 < self.selection.regions@.len() && self.selection.regions@[k0] == r
                        && crate::selection::touches(r, start as int, end as int)
                        && forall|j: int| 0 <= j < k0 ==> !crate::selection::touches(#[trigger] self.selection.regions@[j], start as int, end as int);
                    assert(r.hi() <= self.text@.len());
                }
                (self.caret_for(r, start, end, idx), self.selection_for_line(r, start, end))
            },
            None => (None, (0, 0)),
        };
        proof {
            assert forall|k: int| 0 <= k < self.selection.regions@.len()
                && crate::selection::touches(#[trigger] self.selection.regions@[k], start as int, end as int)
                && (forall|j: int| 0 <= j < k ==> !crate::selection::touches(self.selection.regions@[j], start as int, end as int))
                implies region == Some(self.selection.regions@[k]) by {
                let r = region.unwrap();
                let k0 = choose|k0: int| 0 <= k0 < self.selection.regions@.len() && self.selection.regions@[k0] == r
                    && crate::selection::touches(r, start as int, end as int)
                    && forall|j: int| 0 <= j < k0 ==> !crate::selection::touches(#[trigger] self.selection.regions@[j], start as int, end as int);
                if k < k0 {
                    assert(!crate::selection::touches(self.selection.regions@[k], start as int, end as int));
                } else if k > k0 {
                    assert(!crate::selection::touches(self.selection.regions@[k0], start as int, end as int));
                }
            }
        }
        let styles = self.styles_in(start, end);
        Some(Line { line, caret, selection, styles })
    }
}

/// Visual line offsets never decrease.
pub proof fn lemma_line_offsets_ordered<M: Measure>(v: &OneView<M>, idx: int)
    requires
        v.wf(),
        0 <= idx,
    ensures
        v.spec_line_offset(idx) <= v.spec_line_offset(idx + 1) <= v.text@.len(),
{
    let recs = v.breaks.recs@;
    if idx + 1 < v.spec_count_lines() {
        let k = if idx <= recs.len() { idx } else { recs.len() as int };
        let k1 = if idx + 1 <= recs.len() { idx + 1 } else { recs.len() as int };
        crate::lines::lemma_total_prefix(recs, k1);
        if k1 == k + 1 {
            assert(recs.take(k1).drop_last() =~= recs.take(k));
        }
    } else {
        if idx < v.spec_count_lines() {
            let k = if idx <= recs.len() { idx } else { recs.len() as int };
            crate::lines::lemma_total_prefix(recs, k);
        }
    }
}

/// Between events, every style id a span uses has already been reported to
/// the host.
pub proof fn law_styles_reported_before_use<M: Measure>(v: &OneView<M>)
    requires
        v.wf(),
        v.styles_sent(),
    ensures
        v.spans.ids_below(v.highlighter.table.sent as int),
{
}

/// The line after the last is empty and sits at the end of the text; a
/// region puts a caret on it only when its active end is the end of the
/// document.
pub proof fn law_trailing_line<M: Measure>(v: &OneView<M>, r: Region, end_line_is_idx: bool)
    requires
        v.wf(),
    ensures
        v.spec_line_offset(v.spec_count_lines()) == v.text@.len(),
        v.spec_line_offset(v.spec_count_lines() + 1) == v.text@.len(),
        caret_on_line(r, v.text@.len() as int, v.text@.len() as int, v.text@.len() as int, end_line_is_idx) is Some
            ==> r.end == v.text@.len(),
{
}

/// After an undo: with an earlier state, the text and selection are that
/// state's text and selection-before, and it becomes the live state;
/// without one, nothing changes.
pub open spec fn undo_post<M: Measure>(a: OneView<M>, b: OneView<M>) -> bool {
    let live = a.undo_stack.live_index as int;
    if live > 0 {
        &&& b.text@ == a.undo_stack.items()[live - 1].text@
        &&& b.selection.regions@ == a.undo_stack.items()[live - 1].sel_before.regions@
        &&& b.undo_stack.live_index == live - 1
        &&& b.undo_stack.items() == a.undo_stack.items()
    } else {
        &&& b.text == a.text
        &&& b.selection == a.selection
        &&& b.undo_stack.live_index == a.undo_stack.live_index
        &&& b.undo_stack.items() == a.undo_stack.items()
    }
}

/// After a redo: with a later state, the text and selection are that
/// state's text and selection-after, and it becomes the live state;
/// without one, nothing changes.
pub open spec fn redo_post<M: Measure>(a: OneView<M>, b: OneView<M>) -> bool {
    let live = a.undo_stack.live_index as int;
    if live + 1 < a.undo_stack.items().len() {
        &&& b.text@ == a.undo_stack.items()[live + 1].text@
        &&& b.selection.regions@ == a.undo_stack.items()[live + 1].sel_after.regions@
        &&& b.undo_stack.live_index == live + 1
        &&& b.undo_stack.items() == a.undo_stack.items()
    } else {
        &&& b.text == a.text
        &&& b.selection == a.selection
        &&& b.undo_stack.live_index == a.undo_stack.live_index
        &&& b.undo_stack.items() == a.undo_stack.items()
    }
}

/// After an edit that started a new undo group, the state just before the
/// live one is the state that was live before the edit.
pub open spec fn new_group_post<M: Measure>(a: OneView<M>, b: OneView<M>) -> bool {
    &&& b.undo_stack.live_index >= 1
    &&& b.undo_stack.items()[b.undo_stack.live_index - 1] == a.undo_stack.items()[a.undo_stack.live_index as int]
}

/// The live undo state records the current text and selection.
pub open spec fn live_state_current<M: Measure>(v: OneView<M>) -> bool {
    &&& v.undo_stack.items()[v.undo_stack.live_index as int].text@ == v.text@
    &&& v.undo_stack.items()[v.undo_stack.live_index as int].sel_before.regions@ == v.selection.regions@
}

/// Undo right after an edit that started a new undo group restores the text
/// and selection from before the edit, when the live undo state recorded
/// them.
pub proof fn law_undo_restores_edit<M: Measure>(v0: OneView<M>, v1: OneView<M>, v2: OneView<M>)
    requires
        v0.wf(),
        live_state_current(v0),
        new_group_post(v0, v1),
        undo_post(v1, v2),
    ensures
        v2.text@ == v0.text@,
        v2.selection.regions@ == v0.selection.regions@,
{
}

/// The pasteboard text of an update is the extracted text, if any.
pub open spec fn pasteboard_holds(p: Option<Vec<u8>>, e: Option<Seq<u8>>) -> bool {
    match (p, e) {
        (Some(v), Some(w)) => v@ == w,
        (None, None) => true,
        _ => false,
    }
}

} // verus!

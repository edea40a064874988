//! The edits that buffer events make, as deltas over the text.
use crate::delta::{delta_from_edits, edits_ordered, len_after, Delta, Edit};
use crate::selection::{Region, Selection};
use crate::text;
use vstd::prelude::*;

verus! {

/// Edits collected in order over a text of length `base_len`.
pub struct EditList {
    pub base_len: usize,
    pub edits: Vec<Edit>,
    pub last_end: usize,
}

impl EditList {
    pub open spec fn wf(&self) -> bool {
        &&& edits_ordered(self.edits@, self.base_len as int)
        &&& self.last_end <= self.base_len
        &&& forall|k: int| 0 <= k < self.edits@.len() ==> (#[trigger] self.edits@[k]).end <= self.last_end
    }

    pub fn new(base_len: usize) -> (r: EditList)
        ensures
            r.wf(),
            r.base_len == base_len,
            r.edits@.len() == 0,
            r.last_end == 0,
    {
        EditList { base_len, edits: Vec::new(), last_end: 0 }
    }

    /// Appends the replacement of `start..end` by `t`.
    pub fn push(&mut self, start: usize, end: usize, t: Vec<u8>)
        requires
            old(self).wf(),
            old(self).last_end <= start <= end <= old(self).base_len,
        ensures
            final(self).wf(),
            final(self).base_len == old(self).base_len,
            final(self).last_end == end,
            final(self).edits@ == old(self).edits@.push(Edit { start, end, text: t }),
    {
        self.edits.push(Edit { start, end, text: t });
        self.last_end = end;
        proof {
            let e = self.edits@;
            assert forall|i: int, j: int| 0 <= i < j < e.len() implies (#[trigger] e[i]).end <= (#[trigger] e[j]).start by {
                if j == e.len() - 1 {
                    assert(old(self).edits@[i].end <= old(self).last_end);
                }
            }
        }
    }

    pub fn is_empty(&self) -> (r: bool)
        ensures
            r == (self.edits@.len() == 0),
    {
        self.edits.len() == 0
    }

    /// The delta of the collected edits, when the result's length fits.
    pub fn build(self) -> (r: Option<Delta>)
        requires
            self.wf(),
        ensures
            r.is_some() ==> r.unwrap().wf() && r.unwrap().base_len == self.base_len && r.unwrap().edits == self.edits,
            len_after(self.base_len as int, self.edits@, 0, 0) <= usize::MAX ==> r.is_some(),
    {
        delta_from_edits(self.base_len, self.edits)
    }
}

/// The edits that put `s` in place of every region.
pub open spec fn insert_edits(regs: Seq<Region>, s: Seq<u8>) -> Seq<(int, int, Seq<u8>)> {
    regs.map_values(|r: Region| (r.lo(), r.hi(), s))
}

pub open spec fn edit_view(e: Edit) -> (int, int, Seq<u8>) {
    (e.start as int, e.end as int, e.text@)
}

/// The length of the text from `pos` on once the edits `es` are applied,
/// plus `n`.
pub open spec fn len_after_view(base: int, es: Seq<(int, int, Seq<u8>)>, pos: int, n: int) -> int
    decreases es.len(),
{
    if es.len() == 0 {
        n + base - pos
    } else {
        len_after_view(base, es.drop_first(), es[0].1, n + (es[0].0 - pos) + es[0].2.len())
    }
}

/// Whether the text edited by `es` fits in memory.
pub open spec fn fits(base: int, es: Seq<(int, int, Seq<u8>)>) -> bool {
    len_after_view(base, es, 0, 0) <= usize::MAX
}

pub proof fn lemma_len_after_view(base: int, edits: Seq<Edit>, pos: int, n: int)
    ensures
        len_after(base, edits, pos, n) == len_after_view(base, edits.map_values(|e: Edit| edit_view(e)), pos, n),
    decreases edits.len(),
{
    if edits.len() > 0 {
        let f = |e: Edit| edit_view(e);
        assert(edits.map_values(f).drop_first() =~= edits.drop_first().map_values(f));
        lemma_len_after_view(base, edits.drop_first(), edits[0].end as int, n + (edits[0].start - pos) + edits[0].text@.len());
    }
}

/// Replaces every region of the selection with `s`. `None` only when the
/// result would not fit in memory.
pub fn insert(text_len: usize, sel: &Selection, s: &Vec<u8>) -> (r: Option<Delta>)
    requires
        sel.wf(),
        sel.within(text_len as int),
    ensures
        r.is_some() ==> r.unwrap().wf() && r.unwrap().base_len == text_len
            && r.unwrap().edits@.map_values(|e: Edit| edit_view(e)) == insert_edits(sel.regions@, s@),
        fits(text_len as int, insert_edits(sel.regions@, s@)) ==> r.is_some(),
{
    let mut list = EditList::new(text_len);
    let mut i: usize = 0;
    while i < sel.regions.len()
        invariant
            sel.wf(),
            sel.within(text_len as int),
            list.wf(),
            list.base_len == text_len,
            0 <= i <= sel.regions@.len(),
            i > 0 ==> list.last_end == sel.regions@[i - 1].hi(),
            i == 0 ==> list.last_end == 0,
            list.edits@.map_values(|e: Edit| edit_view(e)) == insert_edits(sel.regions@.take(i as int), s@),
        decreases sel.regions@.len() - i,
    {
        let r = sel.regions[i];
        proof {
            if i > 0 {
                assert(crate::selection::separated(sel.regions@[i - 1], sel.regions@[i as int]));
            }
            assert(sel.regions@[i as int].hi() <= text_len);
        }
        let copy = text::slice(s, 0, s.len());
        proof {
            assert(s@.subrange(0, s@.len() as int) =~= s@);
        }
        let ghost before = list.edits@;
        list.push(r.min(), r.max(), copy);
        proof {
            let f = |e: Edit| edit_view(e);
            assert(list.edits@.map_values(f) =~= before.map_values(f).push(edit_view(list.edits@.last())));
            assert(edit_view(list.edits@.last()) == (r.lo(), r.hi(), s@));
            assert(insert_edits(sel.regions@.take(i + 1), s@) =~= insert_edits(sel.regions@.take(i as int), s@).push((r.lo(), r.hi(), s@)));
        }
        i = i + 1;
    }
    proof {
        assert(sel.regions@.take(i as int) =~= sel.regions@);
    }
    proof {
        lemma_len_after_view(text_len as int, list.edits@, 0, 0);
    }
    list.build()
}

/// The deletions of the regions that are not carets.
pub open spec fn deletion_edits(regs: Seq<Region>) -> Seq<(int, int, Seq<u8>)>
    decreases regs.len(),
{
    if regs.len() == 0 {
        Seq::empty()
    } else {
        let r = regs.last();
        let rest = deletion_edits(regs.drop_last());
        if r.caret_spec() { rest } else { rest.push((r.lo(), r.hi(), Seq::empty())) }
    }
}

/// Deletes every region that is not a caret.
pub fn delete_regions(text_len: usize, regs: &Vec<Region>) -> (r: Option<Delta>)
    requires
        crate::selection::sorted_regions(regs@),
        crate::selection::regions_within(regs@, text_len as int),
    ensures
        r.is_some() ==> r.unwrap().wf() && r.unwrap().base_len == text_len
            && r.unwrap().edits@.map_values(|e: Edit| edit_view(e)) == deletion_edits(regs@),
        fits(text_len as int, deletion_edits(regs@)) ==> r.is_some(),
{
    let mut list = EditList::new(text_len);
    let mut i: usize = 0;
    while i < regs.len()
        invariant
            crate::selection::sorted_regions(regs@),
            crate::selection::regions_within(regs@, text_len as int),
            list.wf(),
            list.base_len == text_len,
            0 <= i <= regs@.len(),
            i > 0 ==> list.last_end <= regs@[i - 1].hi(),
            i == 0 ==> list.last_end == 0,
            list.edits@.map_values(|e: Edit| edit_view(e)) == deletion_edits(regs@.take(i as int)),
        decreases regs@.len() - i,
    {
        let r = regs[i];
        proof {
            if i > 0 {
                assert(crate::selection::separated(regs@[i - 1], regs@[i as int]));
            }
            assert(regs@[i as int].hi() <= text_len);
            assert(regs@.take(i + 1).drop_last() =~= regs@.take(i as int));
            assert(regs@.take(i + 1).last() == r);
        }
        let ghost before = list.edits@;
        if !r.is_caret() {
            list.push(r.min(), r.max(), Vec::new());
            proof {
                let f = |e: Edit| edit_view(e);
                assert(list.edits@.map_values(f) =~= before.map_values(f).push(edit_view(list.edits@.last())));
                assert(edit_view(list.edits@.last()) == (r.lo(), r.hi(), Seq::<u8>::empty()));
            }
        }
        i = i + 1;
    }
    proof {
        assert(regs@.take(i as int) =~= regs@);
    }
    proof {
        lemma_len_after_view(text_len as int, list.edits@, 0, 0);
    }
    list.build()
}

/// The selected text of the regions that are not carets, joined by
/// newlines; `None` when all are carets.
pub open spec fn extracted(t: Seq<u8>, regs: Seq<Region>) -> Option<Seq<u8>>
    decreases regs.len(),
{
    if regs.len() == 0 {
        None
    } else {
        let r = regs.last();
        let rest = extracted(t, regs.drop_last());
        if r.caret_spec() {
            rest
        } else {
            let val = t.subrange(r.lo(), r.hi());
            match rest {
                None => Some(val),
                Some(s) => Some(s.push(text::NEWLINE) + val),
            }
        }
    }
}

/// The selected text of every region that is not a caret, joined by
/// newlines; `None` when all regions are carets.
pub fn extract_sel_regions(t: &Vec<u8>, sel: &Selection) -> (r: Option<Vec<u8>>)
    requires
        sel.within(t@.len() as int),
    ensures
        match (r, extracted(t@, sel.regions@)) {
            (Some(v), Some(w)) => v@ == w,
            (None, None) => true,
            _ => false,
        },
{
    let mut saved: Option<Vec<u8>> = None;
    let mut i: usize = 0;
    while i < sel.regions.len()
        invariant
            sel.within(t@.len() as int),
            0 <= i <= sel.regions@.len(),
            match (saved, extracted(t@, sel.regions@.take(i as int))) {
                (Some(v), Some(w)) => v@ == w,
                (None, None) => true,
                _ => false,
            },
        decreases sel.regions@.len() - i,
    {
        let r = sel.regions[i];
        proof {
            assert(sel.regions@[i as int].hi() <= t@.len());
            assert(sel.regions@.take(i + 1).drop_last() =~= sel.regions@.take(i as int));
            assert(sel.regions@.take(i + 1).last() == r);
        }
        if !r.is_caret() {
            let val = text::slice(t, r.min(), r.max());
            saved = match saved {
                None => Some(val),
                Some(mut s) => {
                    s.push(text::NEWLINE);
                    crate::delta::push_range(&mut s, &val, 0, val.len());
                    proof {
                        assert(val@.subrange(0, val@.len() as int) =~= val@);
                    }
                    Some(s)
                },
            };
        }
        i = i + 1;
    }
    proof {
        assert(sel.regions@.take(i as int) =~= sel.regions@);
    }
    saved
}

/// Whether `offset` starts a character of UTF-8 text (or is its end).
pub open spec fn is_char_boundary(t: Seq<u8>, offset: int) -> bool {
    offset == t.len() || (0 <= offset < t.len() && (t[offset] & 0xC0u8) != 0x80u8)
}

pub fn char_boundary(t: &Vec<u8>, offset: usize) -> (r: bool)
    requires
        offset <= t@.len(),
    ensures
        r == is_char_boundary(t@, offset as int),
{
    offset == t.len() || (t[offset] & 0xC0u8) != 0x80u8
}

/// The grapheme boundary before `offset`, as xi-rope finds it.
pub uninterp spec fn prev_grapheme_of(t: Seq<u8>, offset: usize) -> Option<usize>;

/// The grapheme boundary after `offset`, as xi-rope finds it.
pub uninterp spec fn next_grapheme_of(t: Seq<u8>, offset: usize) -> Option<usize>;

/// Relies on xi_rope's Rope::prev_grapheme_offset (none for text that is
/// not UTF-8).
#[verifier::external_body]
fn prev_grapheme_raw(t: &[u8], offset: usize) -> (r: Option<usize>)
    requires
        offset <= t@.len(),
        is_char_boundary(t@, offset as int),
    ensures
        r == prev_grapheme_of(t@, offset),
{
    match std::str::from_utf8(t) {
        Ok(s) => xi_rope::Rope::from(s).prev_grapheme_offset(offset),
        Err(_) => None,
    }
}

/// Relies on xi_rope's Rope::next_grapheme_offset (none for text that is
/// not UTF-8).
#[verifier::external_body]
fn next_grapheme_raw(t: &[u8], offset: usize) -> (r: Option<usize>)
    requires
        offset <= t@.len(),
        is_char_boundary(t@, offset as int),
    ensures
        r == next_grapheme_of(t@, offset),
{
    match std::str::from_utf8(t) {
        Ok(s) => xi_rope::Rope::from(s).next_grapheme_offset(offset),
        Err(_) => None,
    }
}

/// The start of the grapheme before `offset`, as `prev_grapheme` finds it.
pub open spec fn prev_grapheme_spec(t: Seq<u8>, offset: usize) -> int {
    if offset == 0 {
        0
    } else if is_char_boundary(t, offset as int) && prev_grapheme_of(t, offset) is Some
        && prev_grapheme_of(t, offset).unwrap() < offset {
        prev_grapheme_of(t, offset).unwrap() as int
    } else {
        offset - 1
    }
}

/// The start of the grapheme before `offset`; one byte back when `offset`
/// is not on a character boundary or xi-rope finds none before it.
pub fn prev_grapheme(t: &Vec<u8>, offset: usize) -> (r: usize)
    requires
        offset <= t@.len(),
    ensures
        offset == 0 ==> r == 0,
        offset > 0 ==> r < offset,
        r == prev_grapheme_spec(t@, offset),
{
    if offset == 0 {
        return 0;
    }
    if char_boundary(t, offset) {
        match prev_grapheme_raw(t.as_slice(), offset) {
            Some(p) => if p < offset { return p; },
            None => {},
        }
    }
    offset - 1
}

/// The end of the grapheme at `offset`, as `next_grapheme` finds it.
pub open spec fn next_grapheme_spec(t: Seq<u8>, offset: usize) -> int {
    if offset == t.len() {
        offset as int
    } else if is_char_boundary(t, offset as int) && next_grapheme_of(t, offset) is Some
        && offset < next_grapheme_of(t, offset).unwrap() <= t.len() {
        next_grapheme_of(t, offset).unwrap() as int
    } else {
        offset + 1
    }
}

/// The end of the grapheme at `offset`; one byte on when `offset` is not
/// on a character boundary or xi-rope finds none after it.
pub fn next_grapheme(t: &Vec<u8>, offset: usize) -> (r: usize)
    requires
        offset <= t@.len(),
    ensures
        offset == t@.len() ==> r == offset,
        offset < t@.len() ==> offset < r <= t@.len(),
        r == next_grapheme_spec(t@, offset),
{
    if offset == t.len() {
        return offset;
    }
    if char_boundary(t, offset) {
        match next_grapheme_raw(t.as_slice(), offset) {
            Some(p) => if offset < p && p <= t.len() { return p; },
            None => {},
        }
    }
    offset + 1
}

/// The column of `offset` within its logical line.
pub open spec fn column(t: Seq<u8>, offset: int) -> int {
    let start = text::line_start(t, text::count_nl(t.take(offset)));
    if offset >= start { offset - start } else { 0 }
}

pub fn column_of(t: &Vec<u8>, offset: usize) -> (r: usize)
    requires
        offset <= t@.len(),
    ensures
        r <= offset,
        r == column(t@, offset as int),
{
    let line = text::line_of_offset(t, offset);
    let start = text::offset_of_line(t, line);
    if offset >= start { offset - start } else { 0 }
}

/// Where a backspace at caret `c` deletes back to: the previous tab stop
/// when only spaces lie between and spaces stand in for tabs, else the
/// previous grapheme.
pub open spec fn backspace_start(t: Seq<u8>, c: usize, tab_size: int, tabs_to_spaces: bool, use_tab_stops: bool) -> int {
    let col = column(t, c as int);
    let tab_off = col % tab_size;
    let n = if tab_off == 0 { tab_size } else { tab_off };
    let tab_start = if c >= n { c - n } else { 0 };
    let spaces = c > 0 && forall|i: int| tab_start <= i < c ==> t[i] == 32u8;
    if spaces && tabs_to_spaces && use_tab_stops { tab_start } else { prev_grapheme_spec(t, c) }
}

pub fn offset_for_delete_backwards(t: &Vec<u8>, c: usize, tab_size: usize, tabs_to_spaces: bool, use_tab_stops: bool) -> (r: usize)
    requires
        c <= t@.len(),
        tab_size >= 1,
    ensures
        c == 0 ==> r == 0,
        c > 0 ==> r < c,
        r == backspace_start(t@, c, tab_size as int, tabs_to_spaces, use_tab_stops),
{
    let col = column_of(t, c);
    let tab_off = col % tab_size;
    let n = if tab_off == 0 { tab_size } else { tab_off };
    let tab_start = if c >= n { c - n } else { 0 };
    let mut preceded_by_spaces = c > 0;
    let mut i = tab_start;
    while i < c
        invariant
            tab_start <= i <= c <= t@.len(),
            preceded_by_spaces == (c > 0 && forall|k: int| tab_start <= k < i ==> t@[k] == 32u8),
        decreases c - i,
    {
        if t[i] != 32u8 {
            preceded_by_spaces = false;
        }
        i = i + 1;
    }
    if preceded_by_spaces && tabs_to_spaces && use_tab_stops {
        tab_start
    } else {
        prev_grapheme(t, c)
    }
}

/// The deletions a backspace makes over `regs`, and where the last ends: a
/// region that is not a caret goes, and before a caret the text back to
/// where a backspace reaches; nothing is deleted twice.
pub open spec fn backspace_edits(t: Seq<u8>, regs: Seq<Region>, tab_size: int, tabs_to_spaces: bool, use_tab_stops: bool)
    -> (Seq<(int, int, Seq<u8>)>, int)
    decreases regs.len(),
{
    if regs.len() == 0 {
        (Seq::empty(), 0)
    } else {
        let prev = backspace_edits(t, regs.drop_last(), tab_size, tabs_to_spaces, use_tab_stops);
        let r = regs.last();
        let start = if !r.caret_spec() { r.lo() } else { backspace_start(t, r.end, tab_size, tabs_to_spaces, use_tab_stops) };
        let end = if !r.caret_spec() { r.hi() } else { r.end as int };
        let start = if start < prev.1 { prev.1 } else { start };
        if start < end { (prev.0.push((start, end, Seq::empty())), end) } else { prev }
    }
}

/// Deletes each region that is not a caret, and before each caret back to
/// where a backspace reaches.
pub fn delete_backward(t: &Vec<u8>, sel: &Selection, tab_size: usize, tabs_to_spaces: bool, use_tab_stops: bool) -> (r: Option<Delta>)
    requires
        sel.wf(),
        sel.within(t@.len() as int),
        tab_size >= 1,
    ensures
        r.is_some(),
        r.unwrap().wf() && r.unwrap().base_len == t@.len() && r.unwrap().new_len() <= t@.len()
            && r.unwrap().edits@.map_values(|e: Edit| edit_view(e))
                == backspace_edits(t@, sel.regions@, tab_size as int, tabs_to_spaces, use_tab_stops).0,
{
    let mut list = EditList::new(t.len());
    let mut i: usize = 0;
    while i < sel.regions.len()
        invariant
            sel.within(t@.len() as int),
            tab_size >= 1,
            list.wf(),
            list.base_len == t@.len(),
            0 <= i <= sel.regions@.len(),
            list.edits@.map_values(|e: Edit| edit_view(e))
                == backspace_edits(t@, sel.regions@.take(i as int), tab_size as int, tabs_to_spaces, use_tab_stops).0,
            list.last_end == backspace_edits(t@, sel.regions@.take(i as int), tab_size as int, tabs_to_spaces, use_tab_stops).1,
            forall|k: int| 0 <= k < list.edits@.len() ==> (#[trigger] list.edits@[k]).text@.len() == 0,
        decreases sel.regions@.len() - i,
    {
        let r = sel.regions[i];
        proof {
            assert(sel.regions@[i as int].hi() <= t@.len());
            assert(sel.regions@.take(i + 1).drop_last() =~= sel.regions@.take(i as int));
            assert(sel.regions@.take(i + 1).last() == r);
        }
        let (start, end) = if !r.is_caret() {
            (r.min(), r.max())
        } else {
            (offset_for_delete_backwards(t, r.end, tab_size, tabs_to_spaces, use_tab_stops), r.end)
        };
        let start = if start < list.last_end { list.last_end } else { start };
        let ghost before = list.edits@;
        if start < end {
            list.push(start, end, Vec::new());
            proof {
                let f = |e: Edit| edit_view(e);
                assert(list.edits@.map_values(f) =~= before.map_values(f).push(edit_view(list.edits@.last())));
                assert(edit_view(list.edits@.last()) == (start as int, end as int, Seq::<u8>::empty()));
            }
        }
        i = i + 1;
    }
    proof {
        assert(sel.regions@.take(i as int) =~= sel.regions@);
        lemma_deletions_shrink(t@.len() as int, list.edits@, 0, 0);
    }
    list.build()
}

/// The text a tab inserts at column `col`: spaces to the next tab stop, or
/// a tab character.
pub fn tab_text(col: usize, tab_size: usize, tabs_to_spaces: bool) -> (r: Vec<u8>)
    requires
        tab_size >= 1,
    ensures
        tabs_to_spaces ==> r@ == Seq::new((tab_size - col % tab_size) as nat, |_i: int| 32u8),
        !tabs_to_spaces ==> r@ == seq![9u8],
{
    if tabs_to_spaces {
        text::repeat_byte(32u8, tab_size - col % tab_size)
    } else {
        let mut v: Vec<u8> = Vec::new();
        v.push(9u8);
        v
    }
}

/// The text of a tab at column `col`.
pub open spec fn tab_text_spec(col: int, tab_size: int, tabs_to_spaces: bool) -> Seq<u8> {
    if tabs_to_spaces { Seq::new((tab_size - col % tab_size) as nat, |_i: int| 32u8) } else { seq![9u8] }
}

/// The edits of a tab over every region.
pub open spec fn tab_edits(t: Seq<u8>, regs: Seq<Region>, tab_size: int, tabs_to_spaces: bool) -> Seq<(int, int, Seq<u8>)> {
    regs.map_values(|r: Region| (r.lo(), r.hi(), tab_text_spec(column(t, r.lo()), tab_size, tabs_to_spaces)))
}

/// Replaces each region with the text of a tab at its start.
pub fn insert_tab(t: &Vec<u8>, sel: &Selection, tab_size: usize, tabs_to_spaces: bool) -> (r: Option<Delta>)
    requires
        sel.wf(),
        sel.within(t@.len() as int),
        tab_size >= 1,
    ensures
        r.is_some() ==> r.unwrap().wf() && r.unwrap().base_len == t@.len()
            && r.unwrap().edits@.map_values(|e: Edit| edit_view(e)) == tab_edits(t@, sel.regions@, tab_size as int, tabs_to_spaces),
        fits(t@.len() as int, tab_edits(t@, sel.regions@, tab_size as int, tabs_to_spaces)) ==> r.is_some(),
{
    let mut list = EditList::new(t.len());
    let mut i: usize = 0;
    while i < sel.regions.len()
        invariant
            sel.wf(),
            sel.within(t@.len() as int),
            tab_size >= 1,
            list.wf(),
            list.base_len == t@.len(),
            0 <= i <= sel.regions@.len(),
            i > 0 ==> list.last_end == sel.regions@[i - 1].hi(),
            i == 0 ==> list.last_end == 0,
            list.edits@.map_values(|e: Edit| edit_view(e)) == tab_edits(t@, sel.regions@.take(i as int), tab_size as int, tabs_to_spaces),
        decreases sel.regions@.len() - i,
    {
        let r = sel.regions[i];
        proof {
            if i > 0 {
                assert(crate::selection::separated(sel.regions@[i - 1], sel.regions@[i as int]));
            }
            assert(sel.regions@[i as int].hi() <= t@.len());
        }
        let col = column_of(t, r.min());
        let tab = tab_text(col, tab_size, tabs_to_spaces);
        let ghost before = list.edits@;
        list.push(r.min(), r.max(), tab);
        proof {
            let f = |e: Edit| edit_view(e);
            assert(list.edits@.map_values(f) =~= before.map_values(f).push(edit_view(list.edits@.last())));
            assert(edit_view(list.edits@.last()) == (r.lo(), r.hi(), tab_text_spec(column(t@, r.lo()), tab_size as int, tabs_to_spaces)));
            assert(tab_edits(t@, sel.regions@.take(i + 1), tab_size as int, tabs_to_spaces)
                =~= tab_edits(t@, sel.regions@.take(i as int), tab_size as int, tabs_to_spaces).push(
                    (r.lo(), r.hi(), tab_text_spec(column(t@, r.lo()), tab_size as int, tabs_to_spaces))));
        }
        i = i + 1;
    }
    proof {
        assert(sel.regions@.take(i as int) =~= sel.regions@);
    }
    proof {
        lemma_len_after_view(t@.len() as int, list.edits@, 0, 0);
    }
    list.build()
}

/// The logical lines the selection touches, as sorted, disjoint ranges
/// `first..end`. A region that ends at the start of a line does not touch
/// that line.
/// The logical lines region `r` touches, as `first..end`.
pub open spec fn region_lines(t: Seq<u8>, r: Region) -> (int, int) {
    let first = text::count_nl(t.take(r.lo())) as int;
    let last0 = text::count_nl(t.take(r.hi())) as int;
    let last1 = if r.hi() > r.lo() && last0 > first && text::line_start(t, last0 as nat) == r.hi() { last0 - 1 } else { last0 };
    let last = if last1 < first { first } else { last1 };
    (first, last + 1)
}

/// The line ranges the regions touch, merged where they overlap.
pub open spec fn selection_lines(t: Seq<u8>, regs: Seq<Region>) -> Seq<(int, int)>
    decreases regs.len(),
{
    if regs.len() == 0 {
        Seq::empty()
    } else {
        let prev = selection_lines(t, regs.drop_last());
        let (first, end) = region_lines(t, regs.last());
        let n = prev.len();
        if n > 0 && first < prev[n - 1].1 {
            if end > prev[n - 1].1 { prev.update(n - 1, (prev[n - 1].0, end)) } else { prev }
        } else {
            prev.push((first, end))
        }
    }
}

pub open spec fn ranges_view(r: Seq<(usize, usize)>) -> Seq<(int, int)> {
    r.map_values(|p: (usize, usize)| (p.0 as int, p.1 as int))
}

pub fn lines_for_selection(t: &Vec<u8>, sel: &Selection) -> (r: Vec<(usize, usize)>)
    requires
        sel.within(t@.len() as int),
        t@.len() < usize::MAX,
    ensures
        forall|k: int| 0 <= k < r@.len() ==> (#[trigger] r@[k]).0 < r@[k].1 <= t@.len() + 1,
        forall|a: int, b: int| 0 <= a < b < r@.len() ==> (#[trigger] r@[a]).1 <= (#[trigger] r@[b]).0,
        ranges_view(r@) == selection_lines(t@, sel.regions@),
        r@ == usize_ranges(selection_lines(t@, sel.regions@)),
{
    let mut out: Vec<(usize, usize)> = Vec::new();
    let mut i: usize = 0;
    while i < sel.regions.len()
        invariant
            sel.within(t@.len() as int),
            t@.len() < usize::MAX,
            0 <= i <= sel.regions@.len(),
            forall|k: int| 0 <= k < out@.len() ==> (#[trigger] out@[k]).0 < out@[k].1 <= t@.len() + 1,
            forall|a: int, b: int| 0 <= a < b < out@.len() ==> (#[trigger] out@[a]).1 <= (#[trigger] out@[b]).0,
            ranges_view(out@) == selection_lines(t@, sel.regions@.take(i as int)),
        decreases sel.regions@.len() - i,
    {
        let r = sel.regions[i];
        proof {
            assert(sel.regions@[i as int].hi() <= t@.len());
            assert(sel.regions@.take(i + 1).drop_last() =~= sel.regions@.take(i as int));
            assert(sel.regions@.take(i + 1).last() == r);
        }
        let first = text::line_of_offset(t, r.min());
        let mut last = text::line_of_offset(t, r.max());
        if r.max() > r.min() && last > first && text::offset_of_line(t, last) == r.max() {
            last = last - 1;
        }
        if last < first {
            last = first;
        }
        let n = out.len();
        let ghost before = out@;
        if n > 0 && first < out[n - 1].1 {
            let prev = out[n - 1];
            if last + 1 > prev.1 {
                out.set(n - 1, (prev.0, last + 1));
            }
        } else if n == 0 || first >= out[n - 1].1 {
            out.push((first, last + 1));
        }
        proof {
            assert forall|a: int, b: int| 0 <= a < b < out@.len() implies (#[trigger] out@[a]).1 <= (#[trigger] out@[b]).0 by {
                if b < n as int {
                    assert(before[a].1 <= before[b].0);
                } else if a < n - 1 {
                    assert(before[a].1 <= before[n - 1].0);
                }
            }
            assert(ranges_view(out@) =~= selection_lines(t@, sel.regions@.take(i + 1)));
        }
        i = i + 1;
    }
    proof {
        assert(sel.regions@.take(i as int) =~= sel.regions@);
        assert(out@ =~= usize_ranges(ranges_view(out@)));
    }
    out
}

/// Logical line `n` with its newline.
pub open spec fn line_of(t: Seq<u8>, n: int) -> Seq<u8> {
    let start = text::line_start(t, n as nat);
    let next = text::line_start(t, (n + 1) as nat);
    t.subrange(start, if next < start { start } else { next })
}

/// The bytes of logical line `n`, with its newline.
pub fn line_bytes(t: &Vec<u8>, n: usize) -> (r: Vec<u8>)
    requires
        n < usize::MAX,
    ensures
        r@ == line_of(t@, n as int),
{
    let start = text::offset_of_line(t, n);
    let end = text::offset_of_line(t, n + 1);
    let end = if end < start { start } else { end };
    text::slice(t, start, end)
}

/// The first position of `needle` in `hay`.
/// The first position at or after `i` where `n` occurs in `h`.
pub open spec fn find_from(h: Seq<u8>, n: Seq<u8>, i: int) -> Option<int>
    decreases h.len() + 1 - i,
{
    if i < 0 || i + n.len() > h.len() {
        None
    } else if h.subrange(i, i + n.len()) == n {
        Some(i)
    } else {
        find_from(h, n, i + 1)
    }
}

pub fn find(hay: &Vec<u8>, needle: &Vec<u8>) -> (r: Option<usize>)
    ensures
        r.is_some() ==> r.unwrap() + needle@.len() <= hay@.len()
            && hay@.subrange(r.unwrap() as int, r.unwrap() + needle@.len()) == needle@,
        match r { Some(p) => find_from(hay@, needle@, 0) == Some(p as int), None => find_from(hay@, needle@, 0).is_none() },
{
    if needle.len() > hay.len() {
        return None;
    }
    if needle.len() == 0 {
        proof {
            assert(hay@.subrange(0, 0) =~= needle@);
        }
        return Some(0);
    }
    let mut i: usize = 0;
    let hl = hay.len();
    while i <= hay.len() - needle.len()
        invariant
            hl == hay@.len(),
            0 < needle@.len() <= hay@.len(),
            i <= hay@.len() - needle@.len() + 1,
            find_from(hay@, needle@, 0) == find_from(hay@, needle@, i as int),
        decreases hay@.len() - i,
    {
        let mut k: usize = 0;
        let mut matched = true;
        assert(i + needle@.len() <= hay@.len());
        while matched && k < needle.len()
            invariant
                hl == hay@.len(),
                i + needle@.len() <= hay@.len(),
                0 <= k <= needle@.len(),
                matched ==> forall|q: int| 0 <= q < k ==> hay@[i + q] == needle@[q],
                !matched ==> k < needle@.len() && hay@[i + k] != needle@[k as int],
            decreases needle@.len() - k + (if matched { 1int } else { 0 }),
        {
            assert(i + k < hay@.len());
            let j = i + k;
            if hay[j] != needle[k] {
                matched = false;
            } else {
                k = k + 1;
            }
        }
        if matched && k == needle.len() {
            proof {
                assert(hay@.subrange(i as int, i + needle@.len()) =~= needle@);
            }
            return Some(i);
        }
        proof {
            if matched {
                assert(k < needle@.len());
            }
            assert(hay@.subrange(i as int, i + needle@.len())[k as int] != needle@[k as int]);
        }
        i = i + 1;
    }
    None
}

pub open spec fn ltrim_ws(v: Seq<u8>) -> Seq<u8>
    decreases v.len(),
{
    if v.len() > 0 && text::is_ws(v[0]) { ltrim_ws(v.drop_first()) } else { v }
}

pub open spec fn rtrim_ws(v: Seq<u8>) -> Seq<u8>
    decreases v.len(),
{
    if v.len() > 0 && text::is_ws(v.last()) { rtrim_ws(v.drop_last()) } else { v }
}

/// `v` without leading and trailing ASCII whitespace.
pub open spec fn trim_ws(v: Seq<u8>) -> Seq<u8> {
    rtrim_ws(ltrim_ws(v))
}

/// The bounds of `v` without leading and trailing ASCII whitespace.
pub fn trim_bounds(v: &Vec<u8>) -> (r: (usize, usize))
    ensures
        r.0 <= r.1 <= v@.len(),
        v@.subrange(r.0 as int, r.1 as int) == trim_ws(v@),
{
    let mut a: usize = 0;
    assert(v@.subrange(0, v@.len() as int) =~= v@);
    while a < v.len() && (v[a] == 32u8 || v[a] == 9u8 || v[a] == 10u8 || v[a] == 12u8 || v[a] == 13u8)
        invariant
            a <= v@.len(),
            ltrim_ws(v@.subrange(a as int, v@.len() as int)) == ltrim_ws(v@),
        decreases v@.len() - a,
    {
        proof {
            assert(v@.subrange(a as int, v@.len() as int).drop_first() =~= v@.subrange(a + 1, v@.len() as int));
        }
        a = a + 1;
    }
    proof {
        if a < v@.len() {
            assert(v@.subrange(a as int, v@.len() as int)[0] == v@[a as int]);
        }
        assert(ltrim_ws(v@.subrange(a as int, v@.len() as int)) == v@.subrange(a as int, v@.len() as int));
    }
    let mut b = v.len();
    while b > a && (v[b - 1] == 32u8 || v[b - 1] == 9u8 || v[b - 1] == 10u8 || v[b - 1] == 12u8 || v[b - 1] == 13u8)
        invariant
            a <= b <= v@.len(),
            rtrim_ws(v@.subrange(a as int, b as int)) == trim_ws(v@),
        decreases b,
    {
        proof {
            assert(v@.subrange(a as int, b as int).drop_last() =~= v@.subrange(a as int, b - 1));
        }
        b = b - 1;
    }
    proof {
        if b > a {
            assert(v@.subrange(a as int, b as int).last() == v@[b - 1]);
        }
    }
    (a, b)
}

/// `v` without leading and trailing ASCII whitespace.
pub fn trimmed(v: &Vec<u8>) -> (r: Vec<u8>)
    ensures
        r@ == trim_ws(v@),
{
    let (a, b) = trim_bounds(v);
    text::slice(v, a, b)
}

/// The lines `a..b`.
pub open spec fn line_span(a: int, b: int) -> Seq<int> {
    Seq::new(if b > a { (b - a) as nat } else { 0 }, |k: int| a + k)
}

/// The lines of the ranges, in order.
pub open spec fn range_lines(ranges: Seq<(usize, usize)>) -> Seq<int>
    decreases ranges.len(),
{
    if ranges.len() == 0 {
        Seq::empty()
    } else {
        range_lines(ranges.drop_last()) + line_span(ranges.last().0 as int, ranges.last().1 as int)
    }
}

/// The insertions of `tab` at the start of each of `lines`, and where the
/// last was made; a line that starts before the previous insertion is
/// passed over.
pub open spec fn indent_edits(t: Seq<u8>, lines: Seq<int>, tab: Seq<u8>) -> (Seq<(int, int, Seq<u8>)>, int)
    decreases lines.len(),
{
    if lines.len() == 0 {
        (Seq::empty(), 0)
    } else {
        let prev = indent_edits(t, lines.drop_last(), tab);
        let off = text::line_start(t, lines.last() as nat);
        if off >= prev.1 { (prev.0.push((off, off, tab)), off) } else { prev }
    }
}

/// Inserts `tab` at the start of every line of the ranges.
pub fn indent(t: &Vec<u8>, ranges: &Vec<(usize, usize)>, tab: &Vec<u8>) -> (r: Option<Delta>)
    ensures
        r.is_some() ==> r.unwrap().wf() && r.unwrap().base_len == t@.len()
            && r.unwrap().edits@.map_values(|e: Edit| edit_view(e)) == indent_edits(t@, range_lines(ranges@), tab@).0,
        fits(t@.len() as int, indent_edits(t@, range_lines(ranges@), tab@).0) ==> r.is_some(),
{
    let mut list = EditList::new(t.len());
    let mut i: usize = 0;
    while i < ranges.len()
        invariant
            list.wf(),
            list.base_len == t@.len(),
            0 <= i <= ranges@.len(),
            list.edits@.map_values(|e: Edit| edit_view(e)) == indent_edits(t@, range_lines(ranges@.take(i as int)), tab@).0,
            list.last_end == indent_edits(t@, range_lines(ranges@.take(i as int)), tab@).1,
        decreases ranges@.len() - i,
    {
        let (first, end) = ranges[i];
        let ghost done = range_lines(ranges@.take(i as int));
        proof {
            assert(ranges@.take(i + 1).drop_last() =~= ranges@.take(i as int));
            assert(ranges@.take(i + 1).last() == (first, end));
            assert(done + line_span(first as int, first as int) =~= done);
        }
        let mut line = first;
        while line < end
            invariant
                list.wf(),
                list.base_len == t@.len(),
                first <= line,
                line <= end || first >= end,
                first >= end ==> line == first,
                list.edits@.map_values(|e: Edit| edit_view(e)) == indent_edits(t@, done + line_span(first as int, line as int), tab@).0,
                list.last_end == indent_edits(t@, done + line_span(first as int, line as int), tab@).1,
            decreases end - line,
        {
            let off = text::offset_of_line(t, line);
            let ghost before = list.edits@;
            proof {
                let l1 = done + line_span(first as int, line + 1);
                assert(l1.drop_last() =~= done + line_span(first as int, line as int));
                assert(l1.last() == line as int);
            }
            if off >= list.last_end {
                list.push(off, off, text::copy_bytes(tab));
                proof {
                    let f = |e: Edit| edit_view(e);
                    assert(list.edits@.map_values(f) =~= before.map_values(f).push(edit_view(list.edits@.last())));
                }
            }
            line = line + 1;
        }
        proof {
            let tk = ranges@.take(i + 1);
            assert(tk.drop_last() =~= ranges@.take(i as int));
            assert(tk.last() == (first, end));
            assert(range_lines(tk) == range_lines(tk.drop_last()) + line_span(tk.last().0 as int, tk.last().1 as int));
            if first < end {
                assert(line == end);
            } else {
                assert(line_span(first as int, end as int) =~= Seq::<int>::empty());
                assert(line_span(first as int, line as int) =~= Seq::<int>::empty());
            }
            assert(done + line_span(first as int, line as int) =~= range_lines(ranges@.take(i + 1)));
        }
        i = i + 1;
    }
    proof {
        assert(ranges@.take(i as int) =~= ranges@);
    }
    proof {
        lemma_len_after_view(t@.len() as int, list.edits@, 0, 0);
    }
    list.build()
}

/// Removes one level of indentation from every line of the ranges: the
/// tab text when the line starts with it, else the whitespace before the
/// first other character within that width.
pub fn outdent(t: &Vec<u8>, ranges: &Vec<(usize, usize)>, tab: &Vec<u8>) -> (r: Option<Delta>)
    ensures
        r.is_some() ==> r.unwrap().wf() && r.unwrap().base_len == t@.len()
            && r.unwrap().edits@.map_values(|e: Edit| edit_view(e)) == outdent_edits(t@, range_lines(ranges@), tab@).0,
        fits(t@.len() as int, outdent_edits(t@, range_lines(ranges@), tab@).0) ==> r.is_some(),
{
    let mut list = EditList::new(t.len());
    let mut i: usize = 0;
    while i < ranges.len()
        invariant
            list.wf(),
            list.base_len == t@.len(),
            0 <= i <= ranges@.len(),
            list.edits@.map_values(|e: Edit| edit_view(e)) == outdent_edits(t@, range_lines(ranges@.take(i as int)), tab@).0,
            list.last_end == outdent_edits(t@, range_lines(ranges@.take(i as int)), tab@).1,
        decreases ranges@.len() - i,
    {
        let (first, end) = ranges[i];
        let ghost done = range_lines(ranges@.take(i as int));
        proof {
            assert(done + line_span(first as int, first as int) =~= done);
        }
        let mut line = first;
        while line < end
            invariant
                list.wf(),
                list.base_len == t@.len(),
                first <= line,
                line <= end || first >= end,
                first >= end ==> line == first,
                list.edits@.map_values(|e: Edit| edit_view(e)) == outdent_edits(t@, done + line_span(first as int, line as int), tab@).0,
                list.last_end == outdent_edits(t@, done + line_span(first as int, line as int), tab@).1,
            decreases end - line,
        {
            let off = text::offset_of_line(t, line);
            let win_end = if tab.len() > t.len() - off { t.len() } else { off + tab.len() };
            let window = text::slice(t, off, win_end);
            let ghost before = list.edits@;
            proof {
                let l1 = done + line_span(first as int, line + 1);
                assert(l1.drop_last() =~= done + line_span(first as int, line as int));
                assert(l1.last() == line as int);
            }
            if off >= list.last_end {
                if window.len() == tab.len() && text::starts_with(&window, tab) {
                    list.push(off, win_end, Vec::new());
                    proof {
                        let f = |e: Edit| edit_view(e);
                        assert(window@.take(tab@.len() as int) =~= window@);
                        assert(list.edits@.map_values(f) =~= before.map_values(f).push(edit_view(list.edits@.last())));
                    }
                } else {
                    let k = text::count_ws(&window);
                    if k < window.len() && k > 0 {
                        list.push(off, off + k, Vec::new());
                        proof {
                            let f = |e: Edit| edit_view(e);
                            assert(list.edits@.map_values(f) =~= before.map_values(f).push(edit_view(list.edits@.last())));
                        }
                    }
                    proof {
                        if window@ == tab@ {
                            assert(window@.take(tab@.len() as int) =~= window@);
                        }
                    }
                }
            }
            line = line + 1;
        }
        proof {
            let tk = ranges@.take(i + 1);
            assert(tk.drop_last() =~= ranges@.take(i as int));
            assert(tk.last() == (first, end));
            assert(range_lines(tk) == range_lines(tk.drop_last()) + line_span(tk.last().0 as int, tk.last().1 as int));
            if first >= end {
                assert(line_span(first as int, end as int) =~= Seq::<int>::empty());
                assert(line_span(first as int, line as int) =~= Seq::<int>::empty());
            }
            assert(done + line_span(first as int, line as int) =~= range_lines(ranges@.take(i + 1)));
        }
        i = i + 1;
    }
    proof {
        assert(ranges@.take(i as int) =~= ranges@);
    }
    proof {
        lemma_len_after_view(t@.len() as int, list.edits@, 0, 0);
    }
    list.build()
}

/// The deletions that take one level of indentation off each of `lines`,
/// and where the last ends: the tab text when the line starts with it,
/// else the whitespace before the first other byte within that width; a
/// line that starts before the previous deletion ends is passed over.
pub open spec fn outdent_edits(t: Seq<u8>, lines: Seq<int>, tab: Seq<u8>) -> (Seq<(int, int, Seq<u8>)>, int)
    decreases lines.len(),
{
    if lines.len() == 0 {
        (Seq::empty(), 0)
    } else {
        let prev = outdent_edits(t, lines.drop_last(), tab);
        let off = text::line_start(t, lines.last() as nat);
        let win_end = if tab.len() > t.len() - off { t.len() as int } else { off + tab.len() };
        let window = t.subrange(off, win_end);
        let k = text::ws_prefix(window) as int;
        if off < prev.1 {
            prev
        } else if window == tab {
            (prev.0.push((off, win_end, Seq::empty())), win_end)
        } else if k < window.len() && k > 0 {
            (prev.0.push((off, off + k, Seq::empty())), off + k)
        } else {
            prev
        }
    }
}

/// Whether a line counts as commented: once trimmed it starts with the
/// marker, or is the trimmed marker itself.
pub open spec fn is_commented(line: Seq<u8>, comment: Seq<u8>) -> bool {
    let tl = trim_ws(line);
    (comment.len() <= tl.len() && tl.take(comment.len() as int) == comment) || tl == trim_ws(comment)
}

/// Whether every non-blank line among `first..line` is commented.
pub open spec fn all_commented(t: Seq<u8>, first: int, line: int, comment: Seq<u8>) -> bool
    decreases line - first,
{
    if line <= first {
        true
    } else {
        all_commented(t, first, line - 1, comment)
            && (text::all_ws(line_of(t, line - 1)) || is_commented(line_of(t, line - 1), comment))
    }
}

/// The column a line's first byte other than a space or tab stands at; 0
/// for a line of only spaces and tabs.
pub open spec fn indent_col(line: Seq<u8>) -> int {
    if (text::leading_ws(line) as int) < line.len() { text::leading_ws(line) as int } else { 0 }
}

/// The least indentation column among lines `first..line`; `None` when
/// there are none.
pub open spec fn min_indent(t: Seq<u8>, first: int, line: int) -> Option<int>
    decreases line - first,
{
    if line <= first {
        None
    } else {
        let c = indent_col(line_of(t, line - 1));
        match min_indent(t, first, line - 1) {
            Some(m) => Some(if c < m { c } else { m }),
            None => Some(c),
        }
    }
}

/// Where a marker is taken out of a line: at its first occurrence, or the
/// whole line start when the trimmed line is the trimmed marker.
pub open spec fn comment_span(line: Seq<u8>, comment: Seq<u8>) -> Option<(int, int)> {
    match find_from(line, comment, 0) {
        Some(p) => Some((p, comment.len() as int)),
        None => if trim_ws(line) == trim_ws(comment) { Some((0, trim_ws(comment).len() as int)) } else { None },
    }
}

/// The edit for one line, added after `prev` unless it would come before
/// the previous edit's end.
pub open spec fn comment_step(t: Seq<u8>, line: int, comment: Seq<u8>, remove: bool, col: int,
    prev: (Seq<(int, int, Seq<u8>)>, int)) -> (Seq<(int, int, Seq<u8>)>, int)
{
    let off = text::line_start(t, line as nat);
    let bytes = line_of(t, line);
    if remove {
        match comment_span(bytes, comment) {
            Some((p, n)) => if p <= t.len() - off && n <= t.len() - off - p && off + p >= prev.1 {
                (prev.0.push((off + p, off + p + n, Seq::empty())), off + p + n)
            } else {
                prev
            },
            None => prev,
        }
    } else {
        let tl = trim_ws(bytes);
        if !(comment.len() <= tl.len() && tl.take(comment.len() as int) == comment) && col <= t.len() - off && off + col >= prev.1 {
            (prev.0.push((off + col, off + col, comment)), off + col)
        } else {
            prev
        }
    }
}

/// The edits for lines `first..line` of one range.
pub open spec fn range_comment_edits(t: Seq<u8>, first: int, line: int, comment: Seq<u8>, remove: bool, col: int,
    start: (Seq<(int, int, Seq<u8>)>, int)) -> (Seq<(int, int, Seq<u8>)>, int)
    decreases line - first,
{
    if line <= first {
        start
    } else {
        comment_step(t, line - 1, comment, remove, col, range_comment_edits(t, first, line - 1, comment, remove, col, start))
    }
}

/// The edits that toggle comments over the ranges: a range whose non-blank
/// lines are all commented has the marker taken out of each line; otherwise the
/// marker goes in at the least indentation of its lines, on each line not
/// already commented.
pub open spec fn toggle_edits(t: Seq<u8>, ranges: Seq<(usize, usize)>, comment: Seq<u8>) -> (Seq<(int, int, Seq<u8>)>, int)
    decreases ranges.len(),
{
    if ranges.len() == 0 {
        (Seq::empty(), 0)
    } else {
        let prev = toggle_edits(t, ranges.drop_last(), comment);
        let first = ranges.last().0 as int;
        let end = ranges.last().1 as int;
        if first < end && end <= t.len() + 1 {
            let remove = all_commented(t, first, end, comment);
            let col = match min_indent(t, first, end) { Some(m) => m, None => 0 };
            range_comment_edits(t, first, end, comment, remove, col, prev)
        } else {
            prev
        }
    }
}

/// The indentation column of a line.
fn line_indent_col(bytes: &Vec<u8>) -> (r: usize)
    ensures
        r == indent_col(bytes@),
{
    let k = text::count_leading_ws(bytes);
    if k < bytes.len() { k } else { 0 }
}

/// Comments out the lines of each range, or uncomments them when the
/// range's first line is already commented. Markers are inserted at the
/// smallest indentation among the range's lines.
pub fn toggle_comment(t: &Vec<u8>, ranges: &Vec<(usize, usize)>, comment: &Vec<u8>) -> (r: Option<Delta>)
    requires
        t@.len() < usize::MAX,
    ensures
        r.is_some() ==> r.unwrap().wf() && r.unwrap().base_len == t@.len()
            && r.unwrap().edits@.map_values(|e: Edit| edit_view(e)) == toggle_edits(t@, ranges@, comment@).0,
        fits(t@.len() as int, toggle_edits(t@, ranges@, comment@).0) ==> r.is_some(),
{
    let mut list = EditList::new(t.len());
    let trimmed_comment = trimmed(comment);
    let mut i: usize = 0;
    while i < ranges.len()
        invariant
            list.wf(),
            list.base_len == t@.len(),
            t@.len() < usize::MAX,
            0 <= i <= ranges@.len(),
            trimmed_comment@ == trim_ws(comment@),
            (list.edits@.map_values(|e: Edit| edit_view(e)), list.last_end as int) == toggle_edits(t@, ranges@.take(i as int), comment@),
        decreases ranges@.len() - i,
    {
        let (first, end) = ranges[i];
        proof {
            let tk = ranges@.take(i + 1);
            assert(tk.drop_last() =~= ranges@.take(i as int));
            assert(tk.last() == (first, end));
        }
        let ghost start = (list.edits@.map_values(|e: Edit| edit_view(e)), list.last_end as int);
        if first < end && end <= t.len() + 1 {
            let mut remove = true;
            let mut line = first;
            while line < end
                invariant
                    first <= line <= end,
                    end <= t@.len() + 1,
                    trimmed_comment@ == trim_ws(comment@),
                    remove == all_commented(t@, first as int, line as int, comment@),
                decreases end - line,
            {
                let bytes = line_bytes(t, line);
                let tl = trimmed(&bytes);
                let commented = text::starts_with(&tl, comment)
                    || (tl.len() == trimmed_comment.len() && text::starts_with(&tl, &trimmed_comment));
                proof {
                    assert(tl@.len() == trimmed_comment@.len() ==> tl@.take(trimmed_comment@.len() as int) =~= tl@);
                    assert(commented == is_commented(bytes@, comment@));
                }
                remove = remove && (text::is_blank(&bytes) || commented);
                line = line + 1;
            }
            let mut min_col: Option<usize> = None;
            let mut line = first;
            while line < end
                invariant
                    first <= line <= end,
                    end <= t@.len() + 1,
                    match (min_col, min_indent(t@, first as int, line as int)) {
                        (Some(a), Some(b)) => a == b,
                        (None, None) => true,
                        _ => false,
                    },
                decreases end - line,
            {
                let c = line_indent_col(&line_bytes(t, line));
                min_col = match min_col {
                    Some(m) => Some(if c < m { c } else { m }),
                    None => Some(c),
                };
                line = line + 1;
            }
            let col = match min_col {
                Some(m) => m,
                None => 0,
            };
            let mut line = first;
            while line < end
                invariant
                    list.wf(),
                    list.base_len == t@.len(),
                    end <= t@.len() + 1,
                    first <= line <= end,
                    trimmed_comment@ == trim_ws(comment@),
                    (list.edits@.map_values(|e: Edit| edit_view(e)), list.last_end as int)
                        == range_comment_edits(t@, first as int, line as int, comment@, remove, col as int, start),
                decreases end - line,
            {
                let off = text::offset_of_line(t, line);
                let bytes = line_bytes(t, line);
                let ghost before = list.edits@;
                if remove {
                    let tl = trimmed(&bytes);
                    let span = match find(&bytes, comment) {
                        Some(p) => Some((p, comment.len())),
                        None => if tl.len() == trimmed_comment.len() && text::starts_with(&tl, &trimmed_comment) {
                            Some((0, trimmed_comment.len()))
                        } else {
                            None
                        },
                    };
                    proof {
                        assert(tl@.len() == trimmed_comment@.len() ==> tl@.take(trimmed_comment@.len() as int) =~= tl@);
                        assert(match span { Some((p, n)) => comment_span(bytes@, comment@) == Some((p as int, n as int)),
                            None => comment_span(bytes@, comment@).is_none() });
                    }
                    if let Some((p, n)) = span {
                        if p <= t.len() - off && n <= t.len() - off - p && off + p >= list.last_end {
                            list.push(off + p, off + p + n, Vec::new());
                            proof {
                                let f = |e: Edit| edit_view(e);
                                assert(list.edits@.map_values(f) =~= before.map_values(f).push(edit_view(list.edits@.last())));
                            }
                        }
                    }
                } else {
                    let tl = trimmed(&bytes);
                    if !text::starts_with(&tl, comment) && col <= t.len() - off && off + col >= list.last_end {
                        list.push(off + col, off + col, text::copy_bytes(comment));
                        proof {
                            let f = |e: Edit| edit_view(e);
                            assert(list.edits@.map_values(f) =~= before.map_values(f).push(edit_view(list.edits@.last())));
                        }
                    }
                }
                line = line + 1;
            }
        }
        i = i + 1;
    }
    proof {
        assert(ranges@.take(i as int) =~= ranges@);
    }
    proof {
        lemma_len_after_view(t@.len() as int, list.edits@, 0, 0);
    }
    list.build()
}

/// The word boundary before `offset`, as xi-core's word cursor finds it.
pub uninterp spec fn word_prev_of(t: Seq<u8>, offset: usize) -> Option<usize>;

/// The word boundary after `offset`, as xi-core's word cursor finds it.
pub uninterp spec fn word_next_of(t: Seq<u8>, offset: usize) -> Option<usize>;

/// The word around `offset`, as xi-core's word cursor selects it.
pub uninterp spec fn word_around_of(t: Seq<u8>, offset: usize) -> (usize, usize);

/// Relies on xi_core_lib's WordCursor::prev_boundary (none for text that is
/// not UTF-8).
#[verifier::external_body]
fn word_prev_raw(t: &[u8], offset: usize) -> (r: Option<usize>)
    requires
        offset <= t@.len(),
        is_char_boundary(t@, offset as int),
    ensures
        r == word_prev_of(t@, offset),
{
    match std::str::from_utf8(t) {
        Ok(s) => xi_core_lib::word_boundaries::WordCursor::new(&xi_rope::Rope::from(s), offset).prev_boundary(),
        Err(_) => None,
    }
}

/// Relies on xi_core_lib's WordCursor::next_boundary (none for text that is
/// not UTF-8).
#[verifier::external_body]
fn word_next_raw(t: &[u8], offset: usize) -> (r: Option<usize>)
    requires
        offset <= t@.len(),
        is_char_boundary(t@, offset as int),
    ensures
        r == word_next_of(t@, offset),
{
    match std::str::from_utf8(t) {
        Ok(s) => xi_core_lib::word_boundaries::WordCursor::new(&xi_rope::Rope::from(s), offset).next_boundary(),
        Err(_) => None,
    }
}

/// Relies on xi_core_lib's WordCursor::select_word (the empty word at
/// `offset` for text that is not UTF-8).
#[verifier::external_body]
fn word_around_raw(t: &[u8], offset: usize) -> (r: (usize, usize))
    requires
        offset <= t@.len(),
        is_char_boundary(t@, offset as int),
    ensures
        r == word_around_of(t@, offset),
{
    match std::str::from_utf8(t) {
        Ok(s) => xi_core_lib::word_boundaries::WordCursor::new(&xi_rope::Rope::from(s), offset).select_word(),
        Err(_) => (offset, offset),
    }
}

pub open spec fn word_prev_spec(t: Seq<u8>, offset: usize) -> int {
    if is_char_boundary(t, offset as int) && word_prev_of(t, offset) is Some && word_prev_of(t, offset).unwrap() <= offset {
        word_prev_of(t, offset).unwrap() as int
    } else {
        0
    }
}

pub open spec fn word_next_spec(t: Seq<u8>, offset: usize) -> int {
    if is_char_boundary(t, offset as int) && word_next_of(t, offset) is Some && offset <= word_next_of(t, offset).unwrap() <= t.len() {
        word_next_of(t, offset).unwrap() as int
    } else {
        t.len() as int
    }
}

/// The start of the word before `offset`; the start of the text when there
/// is none.
pub fn word_prev(t: &Vec<u8>, offset: usize) -> (r: usize)
    requires
        offset <= t@.len(),
    ensures
        r <= offset,
        r == word_prev_spec(t@, offset),
{
    if char_boundary(t, offset) {
        match word_prev_raw(t.as_slice(), offset) {
            Some(p) => if p <= offset { return p; },
            None => {},
        }
    }
    0
}

/// The end of the word after `offset`; the end of the text when there is
/// none.
pub fn word_next(t: &Vec<u8>, offset: usize) -> (r: usize)
    requires
        offset <= t@.len(),
    ensures
        offset <= r <= t@.len(),
        r == word_next_spec(t@, offset),
{
    if char_boundary(t, offset) {
        match word_next_raw(t.as_slice(), offset) {
            Some(p) => if offset <= p && p <= t.len() { return p; },
            None => {},
        }
    }
    t.len()
}

pub open spec fn word_around_spec(t: Seq<u8>, offset: usize) -> (usize, usize) {
    if is_char_boundary(t, offset as int) && word_around_of(t, offset).0 <= offset <= word_around_of(t, offset).1 <= t.len() {
        word_around_of(t, offset)
    } else {
        (offset, offset)
    }
}

/// The bounds of the word around `offset`; the empty word at `offset` when
/// none is found around it.
pub fn word_around(t: &Vec<u8>, offset: usize) -> (r: (usize, usize))
    requires
        offset <= t@.len(),
    ensures
        r.0 <= offset <= r.1 <= t@.len(),
        r == word_around_spec(t@, offset),
{
    if char_boundary(t, offset) {
        let (a, b) = word_around_raw(t.as_slice(), offset);
        if a <= offset && offset <= b && b <= t.len() {
            return (a, b);
        }
    }
    (offset, offset)
}

/// The text from `pos` on with the edits, given as views, applied.
pub open spec fn apply_view(t: Seq<u8>, es: Seq<(int, int, Seq<u8>)>, pos: int) -> Seq<u8>
    decreases es.len(),
{
    if es.len() == 0 {
        t.subrange(pos, t.len() as int)
    } else {
        t.subrange(pos, es[0].0) + es[0].2 + apply_view(t, es.drop_first(), es[0].1)
    }
}

pub proof fn lemma_apply_view(t: Seq<u8>, edits: Seq<Edit>, pos: int)
    ensures
        crate::delta::apply_from(t, edits, pos) == apply_view(t, edits.map_values(|e: Edit| edit_view(e)), pos),
    decreases edits.len(),
{
    if edits.len() > 0 {
        let f = |e: Edit| edit_view(e);
        assert(edits.map_values(f).drop_first() =~= edits.drop_first().map_values(f));
        lemma_apply_view(t, edits.drop_first(), edits[0].end as int);
    }
}

/// Deleting never makes the text longer.
pub proof fn lemma_deletions_shrink(base_len: int, edits: Seq<Edit>, pos: int, n: int)
    requires
        edits_ordered(edits, base_len),
        pos <= base_len,
        forall|k: int| 0 <= k < edits.len() ==> pos <= (#[trigger] edits[k]).start,
        forall|k: int| 0 <= k < edits.len() ==> (#[trigger] edits[k]).text@.len() == 0,
    ensures
        len_after(base_len, edits, pos, n) <= n + base_len - pos,
    decreases edits.len(),
{
    if edits.len() > 0 {
        let e = edits[0];
        let rest = edits.drop_first();
        assert forall|k: int| 0 <= k < rest.len() implies e.end <= (#[trigger] rest[k]).start && rest[k].text@.len() == 0 by {
            assert(rest[k] == edits[k + 1]);
        }
        lemma_deletions_shrink(base_len, rest, e.end as int, n + (e.start - pos) + e.text@.len());
    }
}

/// Where offset `p` lands once the edits `es` are applied, given that the
/// previous edit ended at `prev_end`, which now stands at `n`.
pub open spec fn transform_view(es: Seq<(int, int, Seq<u8>)>, p: int, after: bool, prev_end: int, n: int) -> int
    decreases es.len(),
{
    if es.len() == 0 {
        n + p - prev_end
    } else {
        let e = es[0];
        if p < e.0 || (p == e.0 && !after) {
            n + p - prev_end
        } else if p <= e.1 {
            n + (e.0 - prev_end) + e.2.len()
        } else {
            transform_view(es.drop_first(), p, after, e.1, n + (e.0 - prev_end) + e.2.len())
        }
    }
}

pub proof fn lemma_transform_view(edits: Seq<Edit>, p: int, after: bool, prev_end: int, n: int)
    ensures
        crate::delta::transform_from(edits, p, after, prev_end, n)
            == transform_view(edits.map_values(|e: Edit| edit_view(e)), p, after, prev_end, n),
    decreases edits.len(),
{
    if edits.len() > 0 {
        let f = |e: Edit| edit_view(e);
        assert(edits.map_values(f).drop_first() =~= edits.drop_first().map_values(f));
        lemma_transform_view(edits.drop_first(), p, after, edits[0].end as int, n + (edits[0].start - prev_end) + edits[0].text@.len());
    }
}

/// Region `r` carried through the edits `es`.
pub open spec fn transform_region_view(es: Seq<(int, int, Seq<u8>)>, r: Region, after: bool) -> Region {
    Region {
        start: transform_view(es, r.start as int, after, 0, 0) as usize,
        end: transform_view(es, r.end as int, after, 0, 0) as usize,
        affinity: r.affinity,
    }
}

/// The regions `regs` carried through the edits `es`, merged where they
/// now meet.
pub open spec fn apply_edits_spec(es: Seq<(int, int, Seq<u8>)>, regs: Seq<Region>, after: bool) -> Seq<Region>
    decreases regs.len(),
{
    if regs.len() == 0 {
        Seq::empty()
    } else {
        crate::selection::add_region_spec(apply_edits_spec(es, regs.drop_last(), after), transform_region_view(es, regs.last(), after))
    }
}

pub proof fn lemma_apply_edits_spec(d: Delta, regs: Seq<Region>, after: bool)
    ensures
        crate::selection::apply_delta_spec(d, regs, after)
            == apply_edits_spec(d.edits@.map_values(|e: Edit| edit_view(e)), regs, after),
    decreases regs.len(),
{
    if regs.len() > 0 {
        lemma_apply_edits_spec(d, regs.drop_last(), after);
        let r = regs.last();
        lemma_transform_view(d.edits@, r.start as int, after, 0, 0);
        lemma_transform_view(d.edits@, r.end as int, after, 0, 0);
    }
}

/// Ranges of lines as the exec code holds them.
pub open spec fn usize_ranges(s: Seq<(int, int)>) -> Seq<(usize, usize)> {
    s.map_values(|p: (int, int)| (p.0 as usize, p.1 as usize))
}

/// Applying no edits leaves a text as it was.
pub proof fn lemma_apply_view_empty(t: Seq<u8>)
    ensures
        apply_view(t, Seq::empty(), 0) == t,
{
    assert(t.subrange(0, t.len() as int) =~= t);
}

/// Carrying regions through no edits leaves them as they were.
pub proof fn lemma_apply_edits_empty(regs: Seq<Region>, after: bool)
    requires
        crate::selection::sorted_regions(regs),
    ensures
        apply_edits_spec(Seq::empty(), regs, after) == regs,
    decreases regs.len(),
{
    if regs.len() > 0 {
        let init = regs.drop_last();
        assert forall|i: int, j: int| 0 <= i < j < init.len() implies crate::selection::separated(#[trigger] init[i], #[trigger] init[j]) by {
            assert(init[i] == regs[i]);
            assert(init[j] == regs[j]);
        }
        lemma_apply_edits_empty(init, after);
        let last = regs.last();
        assert(transform_region_view(Seq::empty(), last, after) == last);
        assert forall|k: int| 0 <= k < init.len() implies crate::selection::separated(#[trigger] init[k], last) by {
            assert(init[k] == regs[k]);
        }
        crate::selection::lemma_add_region_append(init, last);
        assert(init.push(last) =~= regs);
    }
}

} // verus!

//! Soft wrapping: the break container and the line-break engine.
use vstd::prelude::*;

verus! {

/// A size in logical pixels.
#[derive(PartialEq, Eq, Structural, Clone, Copy, Debug)]
pub struct Size {
    pub width: usize,
    pub height: usize,
}

impl Size {
    pub fn zero() -> (r: Size)
        ensures
            r == (Size { width: 0, height: 0 }),
    {
        Size { width: 0, height: 0 }
    }
}

/// Measures the rendered size of a piece of text; the host provides it.
pub trait Measure {
    fn measure(&self, text: &[u8]) -> Size;
}

/// One record of a break container: `len` bytes of text, the rendered width
/// of that stretch, and whether a line break follows it.
#[derive(PartialEq, Eq, Structural, Clone, Copy, Debug)]
pub struct BreakRec {
    pub len: usize,
    pub width: usize,
    pub is_break: bool,
}

/// A candidate or chosen line break, as the engine reports it.
#[derive(PartialEq, Eq, Structural, Clone, Copy, Debug)]
pub struct Break {
    pub offset: usize,
    pub width: usize,
    pub hard: bool,
}

/// The sequence of break records laid over a text.
#[derive(Clone, Debug)]
pub struct Breaks {
    pub recs: Vec<BreakRec>,
}

pub open spec fn sat_add(a: int, b: int) -> int {
    if a + b > usize::MAX { usize::MAX as int } else { a + b }
}

/// The total length of the text covered by `recs`.
pub open spec fn total_len(recs: Seq<BreakRec>) -> int
    decreases recs.len(),
{
    if recs.len() == 0 { 0 } else { total_len(recs.drop_last()) + recs.last().len }
}

/// The number of line breaks among `recs`.
pub open spec fn count_breaks(recs: Seq<BreakRec>) -> int
    decreases recs.len(),
{
    if recs.len() == 0 { 0 } else { count_breaks(recs.drop_last()) + if recs.last().is_break { 1int } else { 0 } }
}

/// The widest record of `recs`.
pub open spec fn max_width_of(recs: Seq<BreakRec>) -> int
    decreases recs.len(),
{
    if recs.len() == 0 { 0 } else { smax_int(max_width_of(recs.drop_last()), recs.last().width as int) }
}

pub open spec fn smax_int(a: int, b: int) -> int {
    if a >= b { a } else { b }
}

/// The breaks that the wrapping rule emits, from the `k`-th candidate on.
/// `co` is the offset reached so far and `lw` the width of the line so far;
/// a soft candidate that would overflow `vw` ends the line before it, a word
/// that is wider than `vw` on its own gets a line of its own, and at the
/// end of a non-empty text one last soft break carries the trailing width.
pub open spec fn wrap_events(cands: Seq<(usize, bool)>, widths: Seq<usize>, vw: int, k: int, co: int, lw: int) -> Seq<Break>
    decreases cands.len() - k,
{
    if k >= cands.len() {
        if co != 0 { seq![Break { offset: co as usize, width: lw as usize, hard: false }] } else { Seq::empty() }
    } else {
        let o = cands[k].0;
        let w = widths[k] as int;
        if !cands[k].1 {
            if lw == 0 && w >= vw {
                seq![Break { offset: o, width: w as usize, hard: false }]
                    + wrap_events(cands, widths, vw, k + 1, o as int, 0)
            } else if lw + w > vw {
                seq![Break { offset: co as usize, width: lw as usize, hard: false }]
                    + wrap_events(cands, widths, vw, k + 1, o as int, w)
            } else {
                wrap_events(cands, widths, vw, k + 1, o as int, lw + w)
            }
        } else {
            if lw > 0 && w + lw > vw {
                seq![Break { offset: co as usize, width: lw as usize, hard: false }, Break { offset: o, width: w as usize, hard: true }]
                    + wrap_events(cands, widths, vw, k + 1, o as int, 0)
            } else {
                seq![Break { offset: o, width: sat_add(w, lw) as usize, hard: true }]
                    + wrap_events(cands, widths, vw, k + 1, o as int, 0)
            }
        }
    }
}

/// The records built from the `k`-th break on, the previous one at `last`:
/// a soft break at the end of the text closes the sequence.
pub open spec fn build_recs(events: Seq<Break>, k: int, last: int, len: int) -> Seq<BreakRec>
    decreases events.len() - k,
{
    if k >= events.len() || k < 0 {
        Seq::empty()
    } else {
        let e = events[k];
        if e.offset == len && !e.hard {
            seq![BreakRec { len: (e.offset - last) as usize, width: e.width, is_break: false }]
        } else if last >= len {
            Seq::empty()
        } else {
            seq![BreakRec { len: (e.offset - last) as usize, width: e.width, is_break: true }]
                + build_recs(events, k + 1, e.offset as int, len)
        }
    }
}

/// Candidates are strictly increasing positions ending at the text's end.
pub open spec fn cands_wf(cands: Seq<(usize, bool)>, len: int) -> bool {
    &&& len == 0 <==> cands.len() == 0
    &&& cands.len() > 0 ==> cands.last().0 == len
    &&& forall|i: int| 0 <= i < cands.len() ==> (#[trigger] cands[i]).0 > 0
    &&& forall|i: int, j: int| 0 <= i < j < cands.len() ==> (#[trigger] cands[i]).0 < (#[trigger] cands[j]).0
}

/// The width to wrap at: without one, lines are never soft-wrapped.
pub open spec fn wrap_limit(view_width: Option<usize>) -> int {
    match view_width {
        Some(w) => w as int,
        None => usize::MAX as int,
    }
}

/// Runs the wrapping rule over the candidates.
pub fn wrap_breaks(cands: &Vec<(usize, bool)>, widths: &Vec<usize>, view_width: Option<usize>) -> (r: Vec<Break>)
    requires
        widths@.len() == cands@.len(),
    ensures
        r@ == wrap_events(cands@, widths@, wrap_limit(view_width), 0, 0, 0),
{
    let vw: usize = match view_width {
        Some(w) => w,
        None => usize::MAX,
    };
    let mut out: Vec<Break> = Vec::new();
    let mut k: usize = 0;
    let mut co: usize = 0;
    let mut lw: usize = 0;
    while k < cands.len()
        invariant
            widths@.len() == cands@.len(),
            vw == wrap_limit(view_width),
            0 <= k <= cands@.len(),
            out@ + wrap_events(cands@, widths@, vw as int, k as int, co as int, lw as int)
                == wrap_events(cands@, widths@, vw as int, 0, 0, 0),
        decreases cands@.len() - k,
    {
        let (o, hard) = cands[k];
        let w = widths[k];
        let ghost before = out@;
        let ghost lw0 = lw;
        if !hard {
            if lw == 0 && w >= vw {
                out.push(Break { offset: o, width: w, hard: false });
                lw = 0;
            } else if lw > vw || w > vw - lw {
                out.push(Break { offset: co, width: lw, hard: false });
                lw = w;
            } else {
                lw = lw + w;
            }
        } else {
            if lw > 0 && (lw > vw || w > vw - lw) {
                out.push(Break { offset: co, width: lw, hard: false });
                out.push(Break { offset: o, width: w, hard: true });
            } else {
                let total = if w > usize::MAX - lw { usize::MAX } else { w + lw };
                out.push(Break { offset: o, width: total, hard: true });
            }
            lw = 0;
        }
        proof {
            let tail = wrap_events(cands@, widths@, vw as int, k + 1, o as int, lw as int);
            assert(out@ + tail =~= before + wrap_events(cands@, widths@, vw as int, k as int, co as int, lw0 as int));
        }
        co = o;
        k = k + 1;
    }
    let ghost before = out@;
    if co != 0 {
        out.push(Break { offset: co, width: lw, hard: false });
    }
    proof {
        assert(out@ =~= before + wrap_events(cands@, widths@, vw as int, k as int, co as int, lw as int));
    }
    out
}

/// Turns the chosen breaks into records over a text of length `len`.
pub fn build_breaks(events: &Vec<Break>, len: usize) -> (r: Breaks)
    requires
        forall|i: int| 0 <= i < events@.len() ==> (#[trigger] events@[i]).offset <= len,
        forall|i: int, j: int| 0 <= i < j < events@.len() ==> (#[trigger] events@[i]).offset <= (#[trigger] events@[j]).offset,
    ensures
        r.recs@ == build_recs(events@, 0, 0, len as int),
{
    let mut recs: Vec<BreakRec> = Vec::new();
    let mut k: usize = 0;
    let mut last: usize = 0;
    while k < events.len()
        invariant
            forall|i: int| 0 <= i < events@.len() ==> (#[trigger] events@[i]).offset <= len,
            forall|i: int, j: int| 0 <= i < j < events@.len() ==> (#[trigger] events@[i]).offset <= (#[trigger] events@[j]).offset,
            0 <= k <= events@.len(),
            k > 0 ==> last == events@[k - 1].offset,
            k == 0 ==> last == 0,
            recs@ + build_recs(events@, k as int, last as int, len as int) == build_recs(events@, 0, 0, len as int),
        decreases events@.len() - k,
    {
        let e = events[k];
        assert(last <= e.offset) by {
            if k > 0 {
                assert(events@[k - 1].offset <= events@[k as int].offset);
            }
        }
        let ghost before = recs@;
        if e.offset == len && !e.hard {
            recs.push(BreakRec { len: e.offset - last, width: e.width, is_break: false });
            proof {
                assert(recs@ =~= before + build_recs(events@, k as int, last as int, len as int));
            }
            return Breaks { recs };
        }
        if last >= len {
            proof {
                assert(recs@ =~= before + build_recs(events@, k as int, last as int, len as int));
            }
            return Breaks { recs };
        }
        recs.push(BreakRec { len: e.offset - last, width: e.width, is_break: true });
        proof {
            assert(recs@ + build_recs(events@, k + 1, e.offset as int, len as int)
                =~= before + build_recs(events@, k as int, last as int, len as int));
        }
        last = e.offset;
        k = k + 1;
    }
    proof {
        assert(recs@ =~= recs@ + build_recs(events@, k as int, last as int, len as int));
    }
    Breaks { recs }
}

impl Breaks {
    pub open spec fn total(&self) -> int {
        total_len(self.recs@)
    }

    /// The number of lines: one more than the number of breaks.
    pub open spec fn spec_line_count(&self) -> int {
        count_breaks(self.recs@) + 1
    }

    /// No record past the first soft one, so each line starts after a break.
    pub open spec fn wf(&self) -> bool {
        &&& forall|i: int| 0 <= i < self.recs@.len() - 1 ==> (#[trigger] self.recs@[i]).is_break
        &&& self.total() <= usize::MAX
    }

    /// The offset at which line `n` starts, for `n` up to the number of
    /// breaks.
    pub open spec fn spec_offset_of_line(&self, n: int) -> int {
        total_len(self.recs@.take(n))
    }

    /// An empty container, for an empty text.
    pub fn new() -> (r: Breaks)
        ensures
            r.recs@.len() == 0,
            r.wf(),
    {
        Breaks { recs: Vec::new() }
    }

    /// The largest width of any record.
    pub fn max_width(&self) -> (r: usize)
        ensures
            r == max_width_of(self.recs@),
    {
        let mut m: usize = 0;
        let mut i: usize = 0;
        while i < self.recs.len()
            invariant
                0 <= i <= self.recs@.len(),
                m == max_width_of(self.recs@.take(i as int)),
            decreases self.recs@.len() - i,
        {
            proof {
                assert(self.recs@.take(i + 1).drop_last() =~= self.recs@.take(i as int));
            }
            if self.recs[i].width > m {
                m = self.recs[i].width;
            }
            i = i + 1;
        }
        proof {
            assert(self.recs@.take(i as int) =~= self.recs@);
        }
        m
    }

    /// The number of line breaks.
    pub fn count_breaks(&self) -> (r: usize)
        ensures
            r == count_breaks(self.recs@),
    {
        let mut c: usize = 0;
        let mut i: usize = 0;
        while i < self.recs.len()
            invariant
                0 <= i <= self.recs@.len(),
                c == count_breaks(self.recs@.take(i as int)),
                c <= i,
            decreases self.recs@.len() - i,
        {
            proof {
                assert(self.recs@.take(i + 1).drop_last() =~= self.recs@.take(i as int));
            }
            if self.recs[i].is_break {
                c = c + 1;
            }
            i = i + 1;
        }
        proof {
            assert(self.recs@.take(i as int) =~= self.recs@);
        }
        c
    }

    /// The offset at which line `n` starts; past the last break, the end.
    pub fn offset_of_line(&self, n: usize) -> (r: usize)
        requires
            self.wf(),
        ensures
            r == self.spec_offset_of_line(if n <= self.recs@.len() { n as int } else { self.recs@.len() as int }),
    {
        let mut off: usize = 0;
        let mut i: usize = 0;
        assert(self.recs@.take(0) =~= Seq::<BreakRec>::empty());
        while i < self.recs.len() && i < n
            invariant
                self.wf(),
                0 <= i <= self.recs@.len(),
                i <= n,
                off == total_len(self.recs@.take(i as int)),
            decreases self.recs@.len() - i,
        {
            proof {
                assert(self.recs@.take(i + 1).drop_last() =~= self.recs@.take(i as int));
                lemma_total_prefix(self.recs@, i + 1);
            }
            off = off + self.recs[i].len;
            i = i + 1;
        }
        proof {
            if i == self.recs@.len() {
                assert(self.recs@.take(i as int) =~= self.recs@);
            }
        }
        off
    }

    /// The line on which `offset` lies: the number of breaks at or before it.
    pub fn line_of_offset(&self, offset: usize) -> (r: usize)
        requires
            self.wf(),
        ensures
            r <= count_breaks(self.recs@),
            r == line_of_offset_spec(self.recs@, offset as int, 0),
    {
        let mut off: usize = 0;
        let mut i: usize = 0;
        let mut line: usize = 0;
        assert(self.recs@.skip(0) =~= self.recs@);
        assert(self.recs@.take(0) =~= Seq::<BreakRec>::empty());
        while i < self.recs.len()
            invariant
                self.wf(),
                0 <= i <= self.recs@.len(),
                off == total_len(self.recs@.take(i as int)),
                line == count_breaks(self.recs@.take(i as int)),
                line <= i,
                line_of_offset_spec(self.recs@, offset as int, 0)
                    == line + line_of_offset_spec(self.recs@.skip(i as int), offset as int, off as int),
            decreases self.recs@.len() - i,
        {
            proof {
                assert(self.recs@.take(i + 1).drop_last() =~= self.recs@.take(i as int));
                lemma_total_prefix(self.recs@, i + 1);
                let rest = self.recs@.skip(i as int);
                assert(rest.drop_first() =~= self.recs@.skip(i + 1));
                assert(rest[0] == self.recs@[i as int]);
            }
            let end = off + self.recs[i].len;
            if end > offset || !self.recs[i].is_break {
                proof {
                    lemma_count_breaks_bound(self.recs@, i as int);
                }
                return line;
            }
            off = end;
            line = line + 1;
            i = i + 1;
        }
        proof {
            assert(self.recs@.take(i as int) =~= self.recs@);
        }
        line
    }
}

/// Shape of the wrapping rule's output: offsets stay between `co` and the
/// end, never decrease, and the last break is a soft one at the end.
pub proof fn lemma_wrap_events_shape(cands: Seq<(usize, bool)>, widths: Seq<usize>, vw: int, k: int, co: int, lw: int, len: int)
    requires
        cands_wf(cands, len),
        widths.len() == cands.len(),
        0 <= k <= cands.len(),
        k == 0 ==> co == 0,
        k > 0 ==> co == cands[k - 1].0,
        0 <= lw <= usize::MAX,
        0 <= vw <= usize::MAX,
    ensures
        ({
            let e = wrap_events(cands, widths, vw, k, co, lw);
            &&& forall|i: int| 0 <= i < e.len() ==> co <= (#[trigger] e[i]).offset <= len
            &&& forall|i: int, j: int| 0 <= i < j < e.len() ==> (#[trigger] e[i]).offset <= (#[trigger] e[j]).offset
            &&& (co != 0 || k < cands.len()) ==> e.len() >= 1 && e.last().offset == len && !e.last().hard
        }),
    decreases cands.len() - k,
{
    let e = wrap_events(cands, widths, vw, k, co, lw);
    if k >= cands.len() {
        if cands.len() > 0 {
            assert(co == len);
        }
    } else {
        let o = cands[k].0 as int;
        let w = widths[k] as int;
        assert(co < o) by {
            if k > 0 {
                assert(cands[k - 1].0 < cands[k].0);
            }
        }
        assert(o <= len) by {
            if k < cands.len() - 1 {
                assert(cands[k].0 < cands[cands.len() - 1].0);
            }
        }
        let nlw: int = if !cands[k].1 {
            if lw == 0 && w >= vw { 0 } else if lw + w > vw { w } else { lw + w }
        } else { 0 };
        lemma_wrap_events_shape(cands, widths, vw, k + 1, o, nlw, len);
        let rest = wrap_events(cands, widths, vw, k + 1, o, nlw);
        let pre = e.len() - rest.len();
        assert(e =~= e.take(pre) + rest);
        assert forall|i: int| 0 <= i < e.len() implies co <= (#[trigger] e[i]).offset <= len by {
            if i >= pre {
                assert(e[i] == rest[i - pre]);
            }
        }
        assert forall|i: int, j: int| 0 <= i < j < e.len() implies (#[trigger] e[i]).offset <= (#[trigger] e[j]).offset by {
            if i >= pre {
                assert(e[i] == rest[i - pre]);
            }
            if j >= pre {
                assert(e[j] == rest[j - pre]);
            }
        }
        assert(e.last() == rest.last());
    }
}

pub proof fn lemma_total_cons(x: BreakRec, s: Seq<BreakRec>)
    ensures
        total_len(seq![x] + s) == x.len + total_len(s),
    decreases s.len(),
{
    if s.len() > 0 {
        assert((seq![x] + s).drop_last() =~= seq![x] + s.drop_last());
        assert((seq![x] + s).last() == s.last());
        lemma_total_cons(x, s.drop_last());
        let t = seq![x] + s;
        assert(total_len(t) == total_len(t.drop_last()) + t.last().len);
    } else {
        let t = seq![x] + s;
        assert(t.drop_last() =~= Seq::<BreakRec>::empty());
        assert(t.last() == x);
        assert(total_len(t) == total_len(t.drop_last()) + t.last().len);
    }
}

/// The records built from well-shaped breaks cover the text from `last` to
/// the end, and all but the last of them are line breaks.
pub proof fn lemma_build_recs_cover(events: Seq<Break>, k: int, last: int, len: int)
    requires
        0 <= k < events.len(),
        0 <= last <= len,
        forall|i: int| k <= i < events.len() ==> last <= (#[trigger] events[i]).offset <= len,
        forall|i: int, j: int| k <= i < j < events.len() ==> (#[trigger] events[i]).offset <= (#[trigger] events[j]).offset,
        events.last().offset == len && !events.last().hard,
    ensures
        total_len(build_recs(events, k, last, len)) == len - last,
        forall|i: int| 0 <= i < build_recs(events, k, last, len).len() - 1
            ==> (#[trigger] build_recs(events, k, last, len)[i]).is_break,
    decreases events.len() - k,
{
    let e = events[k];
    let r = build_recs(events, k, last, len);
    if e.offset == len && !e.hard {
        assert(r.drop_last() =~= Seq::<BreakRec>::empty());
        assert(total_len(r) == total_len(r.drop_last()) + r.last().len);
    } else if last >= len {
        assert(r.len() == 0);
    } else {
        assert(k + 1 < events.len());
        lemma_build_recs_cover(events, k + 1, e.offset as int, len);
        let rest = build_recs(events, k + 1, e.offset as int, len);
        let x = BreakRec { len: (e.offset - last) as usize, width: e.width, is_break: true };
        lemma_total_cons(x, rest);
        assert forall|i: int| 0 <= i < r.len() - 1 implies (#[trigger] r[i]).is_break by {
            if i > 0 {
                assert(r[i] == rest[i - 1]);
            }
        }
    }
}

/// The break records built by soft wrapping cover the whole text, whatever
/// the widths and the view width.
pub proof fn law_breaks_cover_text(cands: Seq<(usize, bool)>, widths: Seq<usize>, vw: int, len: int)
    requires
        cands_wf(cands, len),
        widths.len() == cands.len(),
        0 <= vw <= usize::MAX,
    ensures
        total_len(build_recs(wrap_events(cands, widths, vw, 0, 0, 0), 0, 0, len)) == len,
        forall|i: int| 0 <= i < build_recs(wrap_events(cands, widths, vw, 0, 0, 0), 0, 0, len).len() - 1
            ==> (#[trigger] build_recs(wrap_events(cands, widths, vw, 0, 0, 0), 0, 0, len)[i]).is_break,
{
    lemma_wrap_events_shape(cands, widths, vw, 0, 0, 0, len);
    let e = wrap_events(cands, widths, vw, 0, 0, 0);
    if cands.len() > 0 {
        assert(len > 0) by {
            assert(cands[0].0 > 0);
            assert(cands.last().0 == len);
            if cands.len() > 1 {
                assert(cands[0].0 < cands[cands.len() - 1].0);
            }
        }
        lemma_build_recs_cover(e, 0, 0, len);
    } else {
        assert(e.len() == 0);
    }
}

/// The number of breaks in `recs`, which start at `base`, that end at or
/// before `offset`.
pub open spec fn line_of_offset_spec(recs: Seq<BreakRec>, offset: int, base: int) -> int
    decreases recs.len(),
{
    if recs.len() == 0 {
        0
    } else {
        let end = base + recs[0].len;
        if end > offset || !recs[0].is_break { 0 } else { 1 + line_of_offset_spec(recs.drop_first(), offset, end) }
    }
}

pub proof fn lemma_total_prefix(recs: Seq<BreakRec>, i: int)
    requires
        0 <= i <= recs.len(),
    ensures
        total_len(recs.take(i)) <= total_len(recs),
    decreases recs.len(),
{
    if i < recs.len() {
        assert(recs.drop_last().take(i) =~= recs.take(i));
        lemma_total_prefix(recs.drop_last(), i);
    } else {
        assert(recs.take(i) =~= recs);
    }
}

pub proof fn lemma_count_breaks_bound(recs: Seq<BreakRec>, i: int)
    requires
        0 <= i <= recs.len(),
    ensures
        count_breaks(recs.take(i)) <= count_breaks(recs),
    decreases recs.len(),
{
    if i < recs.len() {
        assert(recs.drop_last().take(i) =~= recs.take(i));
        lemma_count_breaks_bound(recs.drop_last(), i);
    } else {
        assert(recs.take(i) =~= recs);
    }
}

/// The line-break opportunities of a text, as the Unicode line breaking
/// algorithm finds them: each offset, and whether the break is mandatory.
pub uninterp spec fn line_break_opportunities(text: Seq<u8>) -> Seq<(usize, bool)>;

/// Relies on xi_unicode::LineBreakIterator for the break opportunities of
/// the text (none when the bytes are not UTF-8).
#[verifier::external_body]
fn break_opportunities(text: &[u8]) -> (r: Vec<(usize, bool)>)
    ensures
        r@ == line_break_opportunities(text@),
{
    match std::str::from_utf8(text) {
        Ok(s) => xi_unicode::LineBreakIterator::new(s).collect(),
        Err(_) => Vec::new(),
    }
}

/// The candidates the wrapping rule works on: the opportunities when they
/// are well formed, else only the end of the text; the last one is hard
/// only when the text ends with a newline.
pub open spec fn normalized_cands(raw: Seq<(usize, bool)>, text: Seq<u8>) -> Seq<(usize, bool)> {
    let len = text.len() as int;
    if len == 0 {
        Seq::empty()
    } else {
        let base = if cands_wf(raw, len) { raw } else { seq![(len as usize, false)] };
        base.update(base.len() - 1, (len as usize, text[len - 1] == 10u8))
    }
}

/// Checks that candidates are strictly increasing, positive, and end at
/// `len`.
pub fn check_cands(cands: &Vec<(usize, bool)>, len: usize) -> (r: bool)
    ensures
        r == cands_wf(cands@, len as int),
{
    if len == 0 {
        return cands.len() == 0;
    }
    if cands.len() == 0 || cands[cands.len() - 1].0 != len {
        return false;
    }
    let mut prev: usize = 0;
    let mut i: usize = 0;
    while i < cands.len()
        invariant
            0 <= i <= cands@.len(),
            i == 0 ==> prev == 0,
            i > 0 ==> prev == cands@[i - 1].0,
            forall|a: int| 0 <= a < i ==> (#[trigger] cands@[a]).0 > 0,
            forall|a: int, b: int| 0 <= a < b < i ==> (#[trigger] cands@[a]).0 < (#[trigger] cands@[b]).0,
        decreases cands@.len() - i,
    {
        if cands[i].0 <= prev {
            proof {
                if i > 0 {
                    assert(!((cands@[i - 1]).0 < (cands@[i as int]).0));
                }
            }
            return false;
        }
        proof {
            assert forall|a: int| 0 <= a < i implies (#[trigger] cands@[a]).0 < cands@[i as int].0 by {
                if a < i - 1 {
                    assert(cands@[a].0 < cands@[i - 1].0);
                }
            }
        }
        prev = cands[i].0;
        i = i + 1;
    }
    true
}

/// Wraps `text` at `view_width` (no soft wrapping without one), measuring
/// each word with `measure`. The records cover the whole text.
pub fn rewrap<M: Measure>(text: &Vec<u8>, measure: &M, view_width: Option<usize>) -> (r: Breaks)
    ensures
        r.wf(),
        r.total() == text@.len(),
        exists|widths: Seq<usize>| widths.len() == normalized_cands(line_break_opportunities(text@), text@).len()
            && r.recs@ == build_recs(wrap_events(normalized_cands(line_break_opportunities(text@), text@), widths,
                wrap_limit(view_width), 0, 0, 0), 0, 0, text@.len() as int),
{
    let len = text.len();
    let raw = break_opportunities(text.as_slice());
    let mut cands: Vec<(usize, bool)> = Vec::new();
    if len > 0 {
        cands = if check_cands(&raw, len) { raw } else { vec![(len, false)] };
        let last = cands.len() - 1;
        cands.set(last, (len, text[len - 1] == 10u8));
    }
    proof {
        assert(cands@ =~= normalized_cands(raw@, text@));
        if len > 0 {
            let c = cands@;
            assert forall|i: int, j: int| 0 <= i < j < c.len() implies (#[trigger] c[i]).0 < (#[trigger] c[j]).0 by {
                if j == c.len() - 1 {
                    assert(c[j].0 == len);
                }
            }
            assert forall|i: int| 0 <= i < c.len() implies (#[trigger] c[i]).0 > 0 by {}
        }
        assert(cands_wf(cands@, len as int));
    }
    let mut widths: Vec<usize> = Vec::new();
    let mut prev: usize = 0;
    let mut i: usize = 0;
    while i < cands.len()
        invariant
            cands_wf(cands@, len as int),
            len == text@.len(),
            0 <= i <= cands@.len(),
            widths@.len() == i,
            i == 0 ==> prev == 0,
            i > 0 ==> prev == cands@[i - 1].0,
        decreases cands@.len() - i,
    {
        let o = cands[i].0;
        proof {
            if i > 0 {
                assert(cands@[i - 1].0 < cands@[i as int].0);
            }
            if i < cands@.len() - 1 {
                assert(cands@[i as int].0 < cands@[cands@.len() - 1].0);
            }
        }
        let word = vstd::slice::slice_subrange(text.as_slice(), prev, o);
        let size = measure.measure(word);
        widths.push(size.width);
        prev = o;
        i = i + 1;
    }
    let events = wrap_breaks(&cands, &widths, view_width);
    proof {
        lemma_wrap_events_shape(cands@, widths@, wrap_limit(view_width), 0, 0, 0, len as int);
        law_breaks_cover_text(cands@, widths@, wrap_limit(view_width), len as int);
    }
    build_breaks(&events, len)
}

/// A word at the start of a line that is as wide as the view or wider gets
/// a line of its own: the break right after it comes first.
pub proof fn law_long_word_own_line(cands: Seq<(usize, bool)>, widths: Seq<usize>, vw: int, k: int, co: int)
    requires
        0 <= k < cands.len(),
        widths.len() == cands.len(),
        !cands[k].1,
        widths[k] >= vw,
    ensures
        wrap_events(cands, widths, vw, k, co, 0)[0] == (Break { offset: cands[k].0, width: widths[k], hard: false }),
        wrap_events(cands, widths, vw, k, co, 0) == seq![Break { offset: cands[k].0, width: widths[k], hard: false }]
            + wrap_events(cands, widths, vw, k + 1, cands[k].0 as int, 0),
{
}

/// A hard break that would overflow a non-empty line first ends the line
/// with a soft break before it, and then comes on its own.
pub proof fn law_hard_after_soft(cands: Seq<(usize, bool)>, widths: Seq<usize>, vw: int, k: int, co: int, lw: int)
    requires
        0 <= k < cands.len(),
        widths.len() == cands.len(),
        cands[k].1,
        lw > 0,
        widths[k] + lw > vw,
    ensures
        wrap_events(cands, widths, vw, k, co, lw).take(2) == seq![
            Break { offset: co as usize, width: lw as usize, hard: false },
            Break { offset: cands[k].0, width: widths[k], hard: true },
        ],
{
    let e = wrap_events(cands, widths, vw, k, co, lw);
    assert(e.take(2) =~= seq![
        Break { offset: co as usize, width: lw as usize, hard: false },
        Break { offset: cands[k].0, width: widths[k], hard: true },
    ]);
}

} // verus!

//! Selections: sorted, non-overlapping sets of regions.
use crate::delta::Delta;
use vstd::prelude::*;

verus! {

/// Which side of a wrap boundary a cursor sticks to.
#[derive(PartialEq, Eq, Structural, Clone, Copy, Debug)]
pub enum Affinity {
    Downstream,
    Upstream,
}

/// A region of the text: `start` is the anchor, `end` the active edge.
#[derive(PartialEq, Eq, Structural, Clone, Copy, Debug)]
pub struct Region {
    pub start: usize,
    pub end: usize,
    pub affinity: Affinity,
}

pub open spec fn smin(a: int, b: int) -> int {
    if a <= b { a } else { b }
}

pub open spec fn smax(a: int, b: int) -> int {
    if a >= b { a } else { b }
}

impl Region {
    pub open spec fn lo(self) -> int {
        smin(self.start as int, self.end as int)
    }

    pub open spec fn hi(self) -> int {
        smax(self.start as int, self.end as int)
    }

    pub open spec fn caret_spec_at(pos: usize) -> Region {
        Region { start: pos, end: pos, affinity: Affinity::Downstream }
    }

    pub open spec fn caret_spec(self) -> bool {
        self.start == self.end
    }

    pub fn new(start: usize, end: usize) -> (r: Region)
        ensures
            r == (Region { start, end, affinity: Affinity::Downstream }),
    {
        Region { start, end, affinity: Affinity::Downstream }
    }

    pub fn caret(pos: usize) -> (r: Region)
        ensures
            r == (Region { start: pos, end: pos, affinity: Affinity::Downstream }),
    {
        Region { start: pos, end: pos, affinity: Affinity::Downstream }
    }

    pub fn min(&self) -> (r: usize)
        ensures
            r == self.lo(),
    {
        if self.start <= self.end { self.start } else { self.end }
    }

    pub fn max(&self) -> (r: usize)
        ensures
            r == self.hi(),
    {
        if self.start >= self.end { self.start } else { self.end }
    }

    pub fn is_caret(&self) -> (r: bool)
        ensures
            r == self.caret_spec(),
    {
        self.start == self.end
    }

    pub fn is_upstream(&self) -> (r: bool)
        ensures
            r == (self.affinity == Affinity::Upstream),
    {
        self.affinity == Affinity::Upstream
    }
}

/// `a` lies wholly before `b`; they may touch only when neither is a caret.
pub open spec fn separated(a: Region, b: Region) -> bool {
    a.hi() < b.lo() || (a.hi() == b.lo() && !a.caret_spec() && !b.caret_spec())
}

/// The smallest region covering `r` and `h`, in the direction of `r`.
pub open spec fn merged(r: Region, h: Region) -> Region {
    let lo = smin(r.lo(), h.lo());
    let hi = smax(r.hi(), h.hi());
    if r.start <= r.end {
        Region { start: lo as usize, end: hi as usize, affinity: Affinity::Downstream }
    } else {
        Region { start: hi as usize, end: lo as usize, affinity: Affinity::Downstream }
    }
}

pub open spec fn sorted_regions(regs: Seq<Region>) -> bool {
    forall|i: int, j: int| 0 <= i < j < regs.len() ==> separated(#[trigger] regs[i], #[trigger] regs[j])
}

pub open spec fn regions_within(regs: Seq<Region>, len: int) -> bool {
    forall|i: int| 0 <= i < regs.len() ==> (#[trigger] regs[i]).hi() <= len
}

/// `regs` with `r` added: regions that overlap `r`, or touch it where one of
/// the two is a caret, are merged into one.
pub open spec fn add_region_spec(regs: Seq<Region>, r: Region) -> Seq<Region>
    decreases regs.len(),
{
    if regs.len() == 0 {
        seq![r]
    } else {
        let h = regs[0];
        if separated(h, r) {
            seq![h] + add_region_spec(regs.drop_first(), r)
        } else if separated(r, h) {
            seq![r] + regs
        } else {
            add_region_spec(regs.drop_first(), merged(r, h))
        }
    }
}

/// Where region `r` lands once `d` is applied.
pub open spec fn transform_region(d: Delta, r: Region, after: bool) -> Region {
    Region {
        start: d.spec_transform(r.start as int, after) as usize,
        end: d.spec_transform(r.end as int, after) as usize,
        affinity: r.affinity,
    }
}

/// The regions `regs` carried through `d`, merged where they now meet.
pub open spec fn apply_delta_spec(d: Delta, regs: Seq<Region>, after: bool) -> Seq<Region>
    decreases regs.len(),
{
    if regs.len() == 0 {
        Seq::empty()
    } else {
        add_region_spec(apply_delta_spec(d, regs.drop_last(), after), transform_region(d, regs.last(), after))
    }
}

/// A set of regions, sorted and non-overlapping, never empty.
#[derive(Clone, Debug)]
pub struct Selection {
    pub regions: Vec<Region>,
}

impl Selection {
    pub open spec fn view_regions(&self) -> Seq<Region> {
        self.regions@
    }

    pub open spec fn wf(&self) -> bool {
        &&& self.regions@.len() >= 1
        &&& sorted_regions(self.regions@)
    }

    /// Every region lies within a text of length `len`.
    pub open spec fn within(&self, len: int) -> bool {
        regions_within(self.regions@, len)
    }

    /// A selection of the single region `r`.
    pub fn new_simple(r: Region) -> (s: Selection)
        ensures
            s.wf(),
            s.regions@ == seq![r],
    {
        let mut regions = Vec::new();
        regions.push(r);
        Selection { regions }
    }

    pub fn len(&self) -> (r: usize)
        ensures
            r == self.regions@.len(),
    {
        self.regions.len()
    }

    /// The last region, which holds the active cursor.
    pub fn last(&self) -> (r: Region)
        requires
            self.wf(),
        ensures
            r == self.regions@.last(),
    {
        self.regions[self.regions.len() - 1]
    }

    /// Adds a region, merging it with the regions it overlaps.
    pub fn add_region(&mut self, r: Region)
        requires
            sorted_regions(old(self).regions@),
        ensures
            final(self).wf(),
            final(self).regions@ == add_region_spec(old(self).regions@, r),
    {
        let old_regs = &self.regions;
        proof {
            lemma_add_region_sorted(old(self).regions@, r);
            assert(old_regs@.subrange(0, old_regs@.len() as int) =~= old_regs@);
        }
        let mut out: Vec<Region> = Vec::new();
        let mut cur = r;
        let mut i: usize = 0;
        assert(out@ + add_region_spec(old_regs@, r) =~= add_region_spec(old_regs@, r));
        while i < old_regs.len()
            invariant
                old_regs@ == old(self).regions@,
                sorted_regions(old_regs@),
                0 <= i <= old_regs@.len(),
                out@ + add_region_spec(old_regs@.subrange(i as int, old_regs@.len() as int), cur)
                    == add_region_spec(old_regs@, r),
            decreases old_regs@.len() - i,
        {
            let h = old_regs[i];
            proof {
                let rest = old_regs@.subrange(i as int, old_regs@.len() as int);
                assert(rest[0] == h);
                assert(rest.drop_first() =~= old_regs@.subrange(i + 1, old_regs@.len() as int));
            }
            if h.max() < cur.min() || (h.max() == cur.min() && !h.is_caret() && !cur.is_caret()) {
                let ghost before = out@;
                out.push(h);
                proof {
                    let rest = old_regs@.subrange(i as int, old_regs@.len() as int);
                    assert(out@ + add_region_spec(rest.drop_first(), cur) =~= before + add_region_spec(rest, cur));
                }
            } else if cur.max() < h.min() || (cur.max() == h.min() && !h.is_caret() && !cur.is_caret()) {
                let ghost before = out@;
                out.push(cur);
                let mut k = i;
                while k < old_regs.len()
                    invariant
                        old_regs@ == old(self).regions@,
                sorted_regions(old_regs@),
                        i <= k <= old_regs@.len(),
                        out@ == before.push(cur) + old_regs@.subrange(i as int, k as int),
                    decreases old_regs@.len() - k,
                {
                    out.push(old_regs[k]);
                    proof {
                        assert(old_regs@.subrange(i as int, k + 1) =~= old_regs@.subrange(i as int, k as int).push(old_regs@[k as int]));
                    }
                    k = k + 1;
                }
                proof {
                    let rest = old_regs@.subrange(i as int, old_regs@.len() as int);
                    assert(out@ =~= before + (seq![cur] + rest));
                    lemma_add_region_sorted(old(self).regions@, r);
                }
                self.regions = out;
                return;
            } else {
                let lo = if cur.min() <= h.min() { cur.min() } else { h.min() };
                let hi = if cur.max() >= h.max() { cur.max() } else { h.max() };
                let ghost prev = cur;
                cur = if cur.start <= cur.end { Region::new(lo, hi) } else { Region::new(hi, lo) };
                proof {
                    assert(cur == merged(prev, h));
                }
            }
            i = i + 1;
        }
        out.push(cur);
        proof {
            assert(old_regs@.subrange(i as int, old_regs@.len() as int) =~= Seq::<Region>::empty());
            lemma_add_region_sorted(old(self).regions@, r);
            assert(out@ == add_region_spec(old(self).regions@, r));
            assert(sorted_regions(out@));
        }
        self.regions = out;
    }

    /// Carries each region through an edit of the text.
    pub fn apply_delta(&self, delta: &Delta, after: bool) -> (r: Selection)
        requires
            self.wf(),
            delta.wf(),
            self.within(delta.base_len as int),
        ensures
            r.wf(),
            r.within(delta.new_len()),
            r.regions@ == apply_delta_spec(*delta, self.regions@, after),
    {
        let mut out = Selection { regions: Vec::new() };
        let mut i: usize = 0;
        while i < self.regions.len()
            invariant
                self.wf(),
                delta.wf(),
                self.within(delta.base_len as int),
                0 <= i <= self.regions@.len(),
                sorted_regions(out.regions@),
                regions_within(out.regions@, delta.new_len()),
                i > 0 ==> out.regions@.len() >= 1,
                out.regions@ == apply_delta_spec(*delta, self.regions@.take(i as int), after),
            decreases self.regions@.len() - i,
        {
            let reg = self.regions[i];
            assert(self.regions@[i as int].hi() <= delta.base_len);
            let moved = Region {
                start: delta.transform(reg.start, after),
                end: delta.transform(reg.end, after),
                affinity: reg.affinity,
            };
            proof {
                let t = self.regions@.take(i + 1);
                assert(t.drop_last() =~= self.regions@.take(i as int));
                assert(t.last() == reg);
                lemma_add_region_within(out.regions@, moved, delta.new_len());
            }
            out.add_region(moved);
            i = i + 1;
        }
        proof {
            assert(self.regions@.take(i as int) =~= self.regions@);
        }
        out
    }
}

/// Whether region `r` meets the range `start..=end`.
pub open spec fn touches(r: Region, start: int, end: int) -> bool {
    r.hi() >= start && r.lo() <= end
}

/// The regions that do not meet `start..=end`, in order.
pub open spec fn without_touching(regs: Seq<Region>, start: int, end: int) -> Seq<Region>
    decreases regs.len(),
{
    if regs.len() == 0 {
        Seq::empty()
    } else {
        let prev = without_touching(regs.drop_last(), start, end);
        if touches(regs.last(), start, end) { prev } else { prev.push(regs.last()) }
    }
}

impl Selection {
    /// Whether every region lies within a text of length `len`.
    pub fn fits(&self, len: usize) -> (r: bool)
        ensures
            r == self.within(len as int),
    {
        let mut i: usize = 0;
        while i < self.regions.len()
            invariant
                0 <= i <= self.regions@.len(),
                forall|k: int| 0 <= k < i ==> (#[trigger] self.regions@[k]).hi() <= len,
            decreases self.regions@.len() - i,
        {
            if self.regions[i].max() > len {
                return false;
            }
            i = i + 1;
        }
        true
    }

    /// Whether some region meets `start..=end`.
    pub fn any_in_range(&self, start: usize, end: usize) -> (r: bool)
        ensures
            r == exists|k: int| 0 <= k < self.regions@.len() && touches(#[trigger] self.regions@[k], start as int, end as int),
    {
        let mut i: usize = 0;
        while i < self.regions.len()
            invariant
                0 <= i <= self.regions@.len(),
                forall|k: int| 0 <= k < i ==> !touches(#[trigger] self.regions@[k], start as int, end as int),
            decreases self.regions@.len() - i,
        {
            if self.regions[i].max() >= start && self.regions[i].min() <= end {
                return true;
            }
            i = i + 1;
        }
        false
    }

    /// The first region that meets `start..=end`, if any.
    pub fn first_in_range(&self, start: usize, end: usize) -> (r: Option<Region>)
        ensures
            r.is_none() == (forall|k: int| 0 <= k < self.regions@.len() ==> !touches(#[trigger] self.regions@[k], start as int, end as int)),
            r.is_some() ==> exists|k: int| 0 <= k < self.regions@.len() && self.regions@[k] == r.unwrap()
                && touches(r.unwrap(), start as int, end as int)
                && forall|j: int| 0 <= j < k ==> !touches(#[trigger] self.regions@[j], start as int, end as int),
    {
        let mut i: usize = 0;
        while i < self.regions.len()
            invariant
                0 <= i <= self.regions@.len(),
                forall|k: int| 0 <= k < i ==> !touches(#[trigger] self.regions@[k], start as int, end as int),
            decreases self.regions@.len() - i,
        {
            if self.regions[i].max() >= start && self.regions[i].min() <= end {
                return Some(self.regions[i]);
            }
            i = i + 1;
        }
        None
    }

    /// Removes the regions that meet `start..=end`; when that would leave
    /// none, the selection stays as it is.
    pub fn delete_range(&mut self, start: usize, end: usize)
        requires
            old(self).wf(),
        ensures
            final(self).wf(),
            final(self).regions@ == (if without_touching(old(self).regions@, start as int, end as int).len() > 0 {
                without_touching(old(self).regions@, start as int, end as int)
            } else {
                old(self).regions@
            }),
            forall|k: int| 0 <= k < final(self).regions@.len() ==> old(self).regions@.contains(#[trigger] final(self).regions@[k]),
    {
        let mut kept: Vec<Region> = Vec::new();
        let mut idx: Ghost<Seq<int>> = Ghost(Seq::empty());
        let mut i: usize = 0;
        while i < self.regions.len()
            invariant
                self.wf(),
                0 <= i <= self.regions@.len(),
                idx@.len() == kept@.len(),
                forall|k: int| 0 <= k < kept@.len() ==> 0 <= #[trigger] idx@[k] < i && kept@[k] == self.regions@[idx@[k]],
                forall|a: int, b: int| 0 <= a < b < kept@.len() ==> (#[trigger] idx@[a]) < (#[trigger] idx@[b]),
                kept@ == without_touching(self.regions@.take(i as int), start as int, end as int),
            decreases self.regions@.len() - i,
        {
            let r = self.regions[i];
            proof {
                let tk = self.regions@.take(i + 1);
                assert(tk.drop_last() =~= self.regions@.take(i as int));
                assert(tk.last() == r);
            }
            if !(r.max() >= start && r.min() <= end) {
                kept.push(r);
                idx = Ghost(idx@.push(i as int));
            }
            i = i + 1;
        }
        proof {
            assert(self.regions@.take(i as int) =~= self.regions@);
        }
        if kept.len() > 0 {
            proof {
                assert forall|a: int, b: int| 0 <= a < b < kept@.len() implies separated(#[trigger] kept@[a], #[trigger] kept@[b]) by {
                    assert(idx@[a] < idx@[b]);
                }
                assert forall|k: int| 0 <= k < kept@.len() implies self.regions@.contains(#[trigger] kept@[k]) by {
                    assert(self.regions@[idx@[k]] == kept@[k]);
                }
            }
            self.regions = kept;
        }
    }
}

/// Carrying a selection through an edit that changes nothing leaves it as it
/// was.
pub proof fn law_apply_empty_delta(d: Delta, regs: Seq<Region>, after: bool)
    requires
        d.is_identity(),
        sorted_regions(regs),
    ensures
        apply_delta_spec(d, regs, after) == regs,
    decreases regs.len(),
{
    if regs.len() > 0 {
        let init = regs.drop_last();
        assert forall|i: int, j: int| 0 <= i < j < init.len() implies separated(#[trigger] init[i], #[trigger] init[j]) by {
            assert(init[i] == regs[i]);
            assert(init[j] == regs[j]);
        }
        law_apply_empty_delta(d, init, after);
        let last = regs.last();
        assert(transform_region(d, last, after) == last);
        assert forall|k: int| 0 <= k < init.len() implies separated(#[trigger] init[k], last) by {
            assert(init[k] == regs[k]);
        }
        lemma_add_region_append(init, last);
        assert(init.push(last) =~= regs);
    }
}

/// Every region of the result is separated from `h`, when `r` and all of
/// `regs` are.
pub proof fn lemma_add_region_after(regs: Seq<Region>, r: Region, h: Region)
    requires
        separated(h, r),
        forall|k: int| 0 <= k < regs.len() ==> separated(h, #[trigger] regs[k]),
    ensures
        forall|k: int| 0 <= k < add_region_spec(regs, r).len() ==> separated(h, #[trigger] add_region_spec(regs, r)[k]),
    decreases regs.len(),
{
    if regs.len() > 0 {
        let g = regs[0];
        let rest = regs.drop_first();
        assert forall|k: int| 0 <= k < rest.len() implies separated(h, #[trigger] rest[k]) by {
            assert(rest[k] == regs[k + 1]);
        }
        if separated(g, r) {
            lemma_add_region_after(rest, r, h);
            assert(separated(h, g));
            let out = add_region_spec(regs, r);
            assert forall|k: int| 0 <= k < out.len() implies separated(h, #[trigger] out[k]) by {
                if k > 0 {
                    assert(out[k] == add_region_spec(rest, r)[k - 1]);
                }
            }
        } else if separated(r, g) {
            let out = add_region_spec(regs, r);
            assert forall|k: int| 0 <= k < out.len() implies separated(h, #[trigger] out[k]) by {
                if k > 0 {
                    assert(out[k] == regs[k - 1]);
                }
            }
        } else {
            assert(add_region_spec(regs, r) == add_region_spec(rest, merged(r, g)));
            assert(separated(h, g));
            assert(separated(h, merged(r, g)));
            lemma_add_region_after(rest, merged(r, g), h);
        }
    } else {
        assert(add_region_spec(regs, r)[0] == r);
    }
}

/// Adding a region keeps a selection sorted and non-empty.
pub proof fn lemma_add_region_sorted(regs: Seq<Region>, r: Region)
    requires
        sorted_regions(regs),
    ensures
        sorted_regions(add_region_spec(regs, r)),
        add_region_spec(regs, r).len() >= 1,
    decreases regs.len(),
{
    if regs.len() > 0 {
        let h = regs[0];
        let rest = regs.drop_first();
        assert forall|i: int, j: int| 0 <= i < j < rest.len() implies separated(#[trigger] rest[i], #[trigger] rest[j]) by {
            assert(rest[i] == regs[i + 1]);
            assert(rest[j] == regs[j + 1]);
        }
        assert forall|k: int| 0 <= k < rest.len() implies separated(h, #[trigger] rest[k]) by {
            assert(rest[k] == regs[k + 1]);
        }
        if separated(h, r) {
            lemma_add_region_sorted(rest, r);
            lemma_add_region_after(rest, r, h);
            let tail = add_region_spec(rest, r);
            let out = add_region_spec(regs, r);
            assert forall|i: int, j: int| 0 <= i < j < out.len() implies separated(#[trigger] out[i], #[trigger] out[j]) by {
                assert(out[j] == tail[j - 1]);
                if i > 0 {
                    assert(out[i] == tail[i - 1]);
                }
            }
        } else if separated(r, h) {
            let out = add_region_spec(regs, r);
            assert forall|i: int, j: int| 0 <= i < j < out.len() implies separated(#[trigger] out[i], #[trigger] out[j]) by {
                assert(out[j] == regs[j - 1]);
                if i > 0 {
                    assert(out[i] == regs[i - 1]);
                } else {
                    assert(separated(h, regs[j - 1]) || j - 1 == 0);
                }
            }
        } else {
            lemma_add_region_sorted(rest, merged(r, h));
        }
    }
}

/// Adding a region that comes after all others appends it.
pub proof fn lemma_add_region_append(regs: Seq<Region>, r: Region)
    requires
        forall|k: int| 0 <= k < regs.len() ==> separated(#[trigger] regs[k], r),
    ensures
        add_region_spec(regs, r) == regs.push(r),
    decreases regs.len(),
{
    if regs.len() > 0 {
        let rest = regs.drop_first();
        assert forall|k: int| 0 <= k < rest.len() implies separated(#[trigger] rest[k], r) by {
            assert(rest[k] == regs[k + 1]);
        }
        lemma_add_region_append(rest, r);
        assert(seq![regs[0]] + rest.push(r) =~= regs.push(r));
    }
}

/// Merged regions stay within the text.
pub proof fn lemma_add_region_within(regs: Seq<Region>, r: Region, len: int)
    requires
        regions_within(regs, len),
        r.hi() <= len,
    ensures
        regions_within(add_region_spec(regs, r), len),
    decreases regs.len(),
{
    if regs.len() > 0 {
        let h = regs[0];
        let rest = regs.drop_first();
        assert forall|k: int| 0 <= k < rest.len() implies (#[trigger] rest[k]).hi() <= len by {
            assert(rest[k] == regs[k + 1]);
        }
        if separated(h, r) {
            lemma_add_region_within(rest, r, len);
            let out = add_region_spec(regs, r);
            assert forall|k: int| 0 <= k < out.len() implies (#[trigger] out[k]).hi() <= len by {
                if k > 0 {
                    assert(out[k] == add_region_spec(rest, r)[k - 1]);
                }
            }
        } else if separated(r, h) {
            let out = add_region_spec(regs, r);
            assert forall|k: int| 0 <= k < out.len() implies (#[trigger] out[k]).hi() <= len by {
                if k > 0 {
                    assert(out[k] == regs[k - 1]);
                }
            }
        } else {
            lemma_add_region_within(rest, merged(r, h), len);
        }
    }
}

} // verus!

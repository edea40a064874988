//! Text edits: a sorted list of replaced intervals over a base text.
use vstd::prelude::*;

verus! {

/// Replaces the bytes `start..end` of the base text with `text`.
#[derive(Clone, Debug)]
pub struct Edit {
    pub start: usize,
    pub end: usize,
    pub text: Vec<u8>,
}

/// A description of a text edit. Its edits are sorted and do not overlap.
#[derive(Clone, Debug)]
pub struct Delta {
    pub base_len: usize,
    pub edits: Vec<Edit>,
}

pub open spec fn edits_ordered(edits: Seq<Edit>, base_len: int) -> bool {
    &&& forall|i: int| 0 <= i < edits.len() ==> (#[trigger] edits[i]).start <= edits[i].end <= base_len
    &&& forall|i: int, j: int| 0 <= i < j < edits.len() ==> (#[trigger] edits[i]).end <= (#[trigger] edits[j]).start
}

/// The base text from `pos` on, with `edits` applied.
pub open spec fn apply_from(text: Seq<u8>, edits: Seq<Edit>, pos: int) -> Seq<u8>
    decreases edits.len(),
{
    if edits.len() == 0 {
        text.subrange(pos, text.len() as int)
    } else {
        let e = edits[0];
        text.subrange(pos, e.start as int) + e.text@ + apply_from(text, edits.drop_first(), e.end as int)
    }
}

/// The length of the text from `pos` on once `edits` are applied, plus `n`.
pub open spec fn len_after(base_len: int, edits: Seq<Edit>, pos: int, n: int) -> int
    decreases edits.len(),
{
    if edits.len() == 0 {
        n + base_len - pos
    } else {
        let e = edits[0];
        len_after(base_len, edits.drop_first(), e.end as int, n + (e.start - pos) + e.text@.len())
    }
}

/// Where offset `p` of the base text lands once `edits` are applied, given
/// that the previous edit ended at `prev_end`, which now stands at `n`.
/// A position at an insertion point lands after the inserted text when
/// `after` holds; one inside a replaced interval lands after the new text.
pub open spec fn transform_from(edits: Seq<Edit>, p: int, after: bool, prev_end: int, n: int) -> int
    decreases edits.len(),
{
    if edits.len() == 0 {
        n + p - prev_end
    } else {
        let e = edits[0];
        if p < e.start || (p == e.start && !after) {
            n + p - prev_end
        } else if p <= e.end {
            n + (e.start - prev_end) + e.text@.len()
        } else {
            transform_from(edits.drop_first(), p, after, e.end as int, n + (e.start - prev_end) + e.text@.len())
        }
    }
}

impl Delta {
    pub open spec fn wf(&self) -> bool {
        &&& edits_ordered(self.edits@, self.base_len as int)
        &&& self.new_len() <= usize::MAX
    }

    pub open spec fn new_len(&self) -> int {
        len_after(self.base_len as int, self.edits@, 0, 0)
    }

    /// The text that results from applying this delta to `text`.
    pub open spec fn spec_apply(&self, text: Seq<u8>) -> Seq<u8> {
        apply_from(text, self.edits@, 0)
    }

    pub open spec fn spec_transform(&self, p: int, after: bool) -> int {
        transform_from(self.edits@, p, after, 0, 0)
    }

    pub open spec fn is_identity(&self) -> bool {
        self.edits@.len() == 0
    }

    /// A delta that changes nothing.
    pub fn empty(base_len: usize) -> (r: Delta)
        ensures
            r.wf(),
            r.base_len == base_len,
            r.is_identity(),
    {
        Delta { base_len, edits: Vec::new() }
    }

    /// Applies the delta to `text`.
    pub fn apply(&self, text: &Vec<u8>) -> (r: Vec<u8>)
        requires
            self.wf(),
            text@.len() == self.base_len,
        ensures
            r@ == self.spec_apply(text@),
            r@.len() == self.new_len(),
    {
        let mut out: Vec<u8> = Vec::new();
        let mut pos: usize = 0;
        let mut i: usize = 0;
        proof {
            lemma_apply_len(text@, self.edits@, 0, 0);
            assert(self.edits@.subrange(0, self.edits@.len() as int) =~= self.edits@);
        }
        while i < self.edits.len()
            invariant
                self.wf(),
                text@.len() == self.base_len,
                0 <= i <= self.edits@.len(),
                pos <= self.base_len,
                i > 0 ==> pos == self.edits@[i - 1].end,
                i == 0 ==> pos == 0,
                forall|k: int| i <= k < self.edits@.len() ==> pos <= self.edits@[k].start,
                out@ + apply_from(text@, self.edits@.subrange(i as int, self.edits@.len() as int), pos as int)
                    == self.spec_apply(text@),
            decreases self.edits@.len() - i,
        {
            let e = &self.edits[i];
            proof {
                let rest = self.edits@.subrange(i as int, self.edits@.len() as int);
                assert(rest[0] == self.edits@[i as int]);
                assert(rest.drop_first() =~= self.edits@.subrange(i + 1, self.edits@.len() as int));
            }
            push_range(&mut out, text, pos, e.start);
            push_range(&mut out, &e.text, 0, e.text.len());
            proof {
                assert(e.text@.subrange(0, e.text@.len() as int) =~= e.text@);
            }
            pos = e.end;
            i = i + 1;
            proof {
                assert(forall|k: int| i <= k < self.edits@.len() ==> pos <= self.edits@[k].start);
            }
        }
        proof {
            assert(self.edits@.subrange(i as int, self.edits@.len() as int) =~= Seq::<Edit>::empty());
        }
        push_range(&mut out, text, pos, text.len());
        proof {
            assert(out@ =~= self.spec_apply(text@));
            lemma_apply_len(text@, self.edits@, 0, 0);
        }
        out
    }

    /// Where offset `p` of the base text lands in the edited text.
    pub fn transform(&self, p: usize, after: bool) -> (r: usize)
        requires
            self.wf(),
            p <= self.base_len,
        ensures
            r == self.spec_transform(p as int, after),
            r <= self.new_len(),
    {
        let mut prev_end: usize = 0;
        let mut n: usize = 0;
        let mut i: usize = 0;
        proof {
            lemma_transform_bound(self.edits@, p as int, after, 0, 0, self.base_len as int);
            assert(self.edits@.subrange(0, self.edits@.len() as int) =~= self.edits@);
        }
        while i < self.edits.len()
            invariant
                self.wf(),
                p <= self.base_len,
                0 <= i <= self.edits@.len(),
                prev_end <= p,
                i > 0 ==> prev_end == self.edits@[i - 1].end,
                i == 0 ==> prev_end == 0,
                forall|k: int| i <= k < self.edits@.len() ==> prev_end <= self.edits@[k].start,
                transform_from(self.edits@.subrange(i as int, self.edits@.len() as int), p as int, after, prev_end as int, n as int)
                    == self.spec_transform(p as int, after),
                len_after(self.base_len as int, self.edits@.subrange(i as int, self.edits@.len() as int), prev_end as int, n as int)
                    == self.new_len(),
                transform_from(self.edits@.subrange(i as int, self.edits@.len() as int), p as int, after, prev_end as int, n as int)
                    <= self.new_len(),
                n as int <= self.new_len(),
            decreases self.edits@.len() - i,
        {
            let e = &self.edits[i];
            proof {
                let rest = self.edits@.subrange(i as int, self.edits@.len() as int);
                assert(rest[0] == self.edits@[i as int]);
                assert(rest.drop_first() =~= self.edits@.subrange(i + 1, self.edits@.len() as int));
                assert forall|k: int| 0 <= k < rest.drop_first().len() implies e.end <= #[trigger] rest.drop_first()[k].start by {
                    assert(rest.drop_first()[k] == self.edits@[i + 1 + k]);
                }
                lemma_len_after_grows(self.base_len as int, rest.drop_first(), e.end as int,
                    n + (e.start - prev_end) + e.text@.len());
            }
            if p < e.start || (p == e.start && !after) {
                return n + (p - prev_end);
            }
            let next_n = n + (e.start - prev_end) + e.text.len();
            if p <= e.end {
                return next_n;
            }
            proof {
                let rest = self.edits@.subrange(i as int, self.edits@.len() as int);
                lemma_transform_bound(rest.drop_first(), p as int, after, e.end as int,
                    next_n as int, self.base_len as int);
            }
            n = next_n;
            prev_end = e.end;
            i = i + 1;
        }
        proof {
            assert(self.edits@.subrange(i as int, self.edits@.len() as int) =~= Seq::<Edit>::empty());
        }
        n + (p - prev_end)
    }
}

/// Builds a delta from ordered edits, when the edited text's length fits.
pub fn delta_from_edits(base_len: usize, edits: Vec<Edit>) -> (r: Option<Delta>)
    requires
        edits_ordered(edits@, base_len as int),
    ensures
        len_after(base_len as int, edits@, 0, 0) <= usize::MAX ==> r == Some(Delta { base_len, edits }),
        len_after(base_len as int, edits@, 0, 0) > usize::MAX ==> r.is_none(),
{
    let mut pos: usize = 0;
    let mut n: usize = 0;
    let mut i: usize = 0;
    assert(edits@.subrange(0, edits@.len() as int) =~= edits@);
    while i < edits.len()
        invariant
            edits_ordered(edits@, base_len as int),
            0 <= i <= edits@.len(),
            pos <= base_len,
            i > 0 ==> pos == edits@[i - 1].end,
            i == 0 ==> pos == 0,
            forall|k: int| i <= k < edits@.len() ==> pos <= edits@[k].start,
            len_after(base_len as int, edits@.subrange(i as int, edits@.len() as int), pos as int, n as int)
                == len_after(base_len as int, edits@, 0, 0),
        decreases edits@.len() - i,
    {
        let e = &edits[i];
        proof {
            let rest = edits@.subrange(i as int, edits@.len() as int);
            assert(rest[0] == edits@[i as int]);
            assert(rest.drop_first() =~= edits@.subrange(i + 1, edits@.len() as int));
            assert forall|k: int| 0 <= k < rest.drop_first().len() implies e.end <= #[trigger] rest.drop_first()[k].start by {
                assert(rest.drop_first()[k] == edits@[i + 1 + k]);
            }
            lemma_len_after_grows(base_len as int, rest.drop_first(), e.end as int,
                n + (e.start - pos) + e.text@.len());
        }
        let gap = e.start - pos;
        if n > usize::MAX - gap || n + gap > usize::MAX - e.text.len() {
            return None;
        }
        n = n + gap + e.text.len();
        pos = e.end;
        i = i + 1;
    }
    proof {
        assert(edits@.subrange(i as int, edits@.len() as int) =~= Seq::<Edit>::empty());
    }
    if n > usize::MAX - (base_len - pos) {
        return None;
    }
    Some(Delta { base_len, edits })
}

/// Appends `src[a..b]` to `out`.
pub fn push_range(out: &mut Vec<u8>, src: &Vec<u8>, a: usize, b: usize)
    requires
        a <= b <= src@.len(),
    ensures
        final(out)@ == old(out)@ + src@.subrange(a as int, b as int),
{
    let mut k = a;
    while k < b
        invariant
            a <= k <= b <= src@.len(),
            out@ == old(out)@ + src@.subrange(a as int, k as int),
        decreases b - k,
    {
        out.push(src[k]);
        proof {
            assert(src@.subrange(a as int, k + 1) =~= src@.subrange(a as int, k as int).push(src@[k as int]));
        }
        k = k + 1;
    }
}

pub proof fn lemma_len_after_grows(base_len: int, edits: Seq<Edit>, pos: int, n: int)
    requires
        edits_ordered(edits, base_len),
        pos <= base_len,
        forall|k: int| 0 <= k < edits.len() ==> pos <= edits[k].start,
    ensures
        len_after(base_len, edits, pos, n) >= n,
    decreases edits.len(),
{
    if edits.len() > 0 {
        let e = edits[0];
        assert forall|k: int| 0 <= k < edits.drop_first().len() implies e.end <= #[trigger] edits.drop_first()[k].start by {
            assert(edits.drop_first()[k] == edits[k + 1]);
        }
        lemma_len_after_grows(base_len, edits.drop_first(), e.end as int, n + (e.start - pos) + e.text@.len());
    }
}

pub proof fn lemma_transform_bound(edits: Seq<Edit>, p: int, after: bool, prev_end: int, n: int, base_len: int)
    requires
        edits_ordered(edits, base_len),
        prev_end <= p <= base_len,
        forall|k: int| 0 <= k < edits.len() ==> prev_end <= edits[k].start,
    ensures
        transform_from(edits, p, after, prev_end, n) <= len_after(base_len, edits, prev_end, n),
        transform_from(edits, p, after, prev_end, n) >= n,
    decreases edits.len(),
{
    if edits.len() > 0 {
        let e = edits[0];
        let rest = edits.drop_first();
        assert forall|k: int| 0 <= k < rest.len() implies e.end <= #[trigger] rest[k].start by {
            assert(rest[k] == edits[k + 1]);
        }
        lemma_len_after_grows(base_len, rest, e.end as int, n + (e.start - prev_end) + e.text@.len());
        if p < e.start || (p == e.start && !after) {
        } else if p <= e.end {
        } else {
            lemma_transform_bound(rest, p, after, e.end as int, n + (e.start - prev_end) + e.text@.len(), base_len);
        }
    }
}

pub proof fn lemma_apply_len(text: Seq<u8>, edits: Seq<Edit>, pos: int, n: int)
    requires
        edits_ordered(edits, text.len() as int),
        0 <= pos <= text.len(),
        forall|k: int| 0 <= k < edits.len() ==> pos <= edits[k].start,
    ensures
        n + apply_from(text, edits, pos).len() == len_after(text.len() as int, edits, pos, n),
    decreases edits.len(),
{
    if edits.len() > 0 {
        let e = edits[0];
        let rest = edits.drop_first();
        assert forall|k: int| 0 <= k < rest.len() implies e.end <= #[trigger] rest[k].start by {
            assert(rest[k] == edits[k + 1]);
        }
        lemma_apply_len(text, rest, e.end as int, n + (e.start - pos) + e.text@.len());
    }
}

} // verus!

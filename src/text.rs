//! Text as bytes: logical lines, slices and indentation.
use vstd::prelude::*;

verus! {

pub const NEWLINE: u8 = 10u8;

/// The offset where the `n`-th line after position `i` starts; the end of
/// the text when there are fewer lines.
pub open spec fn line_start_from(t: Seq<u8>, n: nat, i: int) -> int
    decreases t.len() - i, n,
{
    if n == 0 {
        i
    } else if i >= t.len() {
        t.len() as int
    } else if t[i] == NEWLINE {
        line_start_from(t, (n - 1) as nat, i + 1)
    } else {
        line_start_from(t, n, i + 1)
    }
}

/// The offset where logical line `n` starts.
pub open spec fn line_start(t: Seq<u8>, n: nat) -> int {
    line_start_from(t, n, 0)
}

/// The number of newlines in `t`.
pub open spec fn count_nl(t: Seq<u8>) -> nat
    decreases t.len(),
{
    if t.len() == 0 { 0 } else { count_nl(t.drop_last()) + if t.last() == NEWLINE { 1nat } else { 0 } }
}

pub proof fn lemma_line_start_bounds(t: Seq<u8>, n: nat, i: int)
    requires
        0 <= i <= t.len(),
    ensures
        i <= line_start_from(t, n, i) <= t.len(),
    decreases t.len() - i, n,
{
    if n == 0 {
    } else if i >= t.len() {
    } else if t[i] == NEWLINE {
        lemma_line_start_bounds(t, (n - 1) as nat, i + 1);
    } else {
        lemma_line_start_bounds(t, n, i + 1);
    }
}

/// The offset where logical line `n` starts; the end of the text when
/// there are fewer lines.
pub fn offset_of_line(t: &Vec<u8>, n: usize) -> (r: usize)
    ensures
        r == line_start(t@, n as nat),
        r <= t@.len(),
{
    let mut i: usize = 0;
    let mut k: usize = n;
    proof {
        lemma_line_start_bounds(t@, n as nat, 0);
    }
    while k > 0 && i < t.len()
        invariant
            0 <= i <= t@.len(),
            line_start_from(t@, k as nat, i as int) == line_start(t@, n as nat),
        decreases t@.len() - i,
    {
        if t[i] == NEWLINE {
            k = k - 1;
        }
        i = i + 1;
    }
    if k > 0 {
        t.len()
    } else {
        i
    }
}

/// The logical line `offset` lies on: the newlines before it.
pub fn line_of_offset(t: &Vec<u8>, offset: usize) -> (r: usize)
    requires
        offset <= t@.len(),
    ensures
        r == count_nl(t@.take(offset as int)),
        r <= offset,
{
    let mut i: usize = 0;
    let mut c: usize = 0;
    while i < offset
        invariant
            offset <= t@.len(),
            0 <= i <= offset,
            c == count_nl(t@.take(i as int)),
            c <= i,
        decreases offset - i,
    {
        proof {
            assert(t@.take(i + 1).drop_last() =~= t@.take(i as int));
        }
        if t[i] == NEWLINE {
            c = c + 1;
        }
        i = i + 1;
    }
    c
}

/// The bytes `t[a..b]`.
pub fn slice(t: &Vec<u8>, a: usize, b: usize) -> (r: Vec<u8>)
    requires
        a <= b <= t@.len(),
    ensures
        r@ == t@.subrange(a as int, b as int),
{
    let mut out: Vec<u8> = Vec::new();
    crate::delta::push_range(&mut out, t, a, b);
    proof {
        assert(out@ =~= t@.subrange(a as int, b as int));
    }
    out
}

/// A copy of some bytes.
pub fn copy_bytes(t: &Vec<u8>) -> (r: Vec<u8>)
    ensures
        r@ == t@,
{
    let r = slice(t, 0, t.len());
    proof {
        assert(t@.subrange(0, t@.len() as int) =~= t@);
    }
    r
}

/// The number of leading spaces and tabs.
pub open spec fn leading_ws(t: Seq<u8>) -> nat
    decreases t.len(),
{
    if t.len() > 0 && (t[0] == 32u8 || t[0] == 9u8) { 1 + leading_ws(t.drop_first()) } else { 0 }
}

pub fn count_leading_ws(t: &Vec<u8>) -> (r: usize)
    ensures
        r == leading_ws(t@),
        r <= t@.len(),
{
    let mut i: usize = 0;
    assert(t@.skip(0) =~= t@);
    while i < t.len() && (t[i] == 32u8 || t[i] == 9u8)
        invariant
            0 <= i <= t@.len(),
            leading_ws(t@) == i + leading_ws(t@.skip(i as int)),
        decreases t@.len() - i,
    {
        proof {
            assert(t@.skip(i as int).drop_first() =~= t@.skip(i + 1));
        }
        i = i + 1;
    }
    proof {
        let rest = t@.skip(i as int);
        if i < t@.len() {
            assert(rest[0] == t@[i as int]);
        }
    }
    i
}

/// Whether every byte is ASCII whitespace.
pub open spec fn is_ws(b: u8) -> bool {
    b == 32u8 || b == 9u8 || b == 10u8 || b == 12u8 || b == 13u8
}

pub open spec fn all_ws(t: Seq<u8>) -> bool {
    forall|i: int| 0 <= i < t.len() ==> is_ws(#[trigger] t[i])
}

pub fn is_blank(t: &Vec<u8>) -> (r: bool)
    ensures
        r == all_ws(t@),
{
    let mut i: usize = 0;
    while i < t.len()
        invariant
            0 <= i <= t@.len(),
            forall|k: int| 0 <= k < i ==> is_ws(#[trigger] t@[k]),
        decreases t@.len() - i,
    {
        let b = t[i];
        if !(b == 32u8 || b == 9u8 || b == 10u8 || b == 12u8 || b == 13u8) {
            return false;
        }
        i = i + 1;
    }
    true
}

/// `n` copies of byte `b`.
pub fn repeat_byte(b: u8, n: usize) -> (r: Vec<u8>)
    ensures
        r@ == Seq::new(n as nat, |_i: int| b),
{
    let mut out: Vec<u8> = Vec::new();
    let mut i: usize = 0;
    while i < n
        invariant
            0 <= i <= n,
            out@ == Seq::new(i as nat, |_i: int| b),
        decreases n - i,
    {
        out.push(b);
        i = i + 1;
        proof {
            assert(out@ =~= Seq::new(i as nat, |_i: int| b));
        }
    }
    out
}

/// Whether `t` starts with `p`.
pub fn starts_with(t: &Vec<u8>, p: &Vec<u8>) -> (r: bool)
    ensures
        r == (p@.len() <= t@.len() && t@.take(p@.len() as int) == p@),
{
    if p.len() > t.len() {
        return false;
    }
    let mut i: usize = 0;
    while i < p.len()
        invariant
            p@.len() <= t@.len(),
            0 <= i <= p@.len(),
            forall|k: int| 0 <= k < i ==> t@[k] == p@[k],
        decreases p@.len() - i,
    {
        if t[i] != p[i] {
            proof {
                assert(t@.take(p@.len() as int)[i as int] != p@[i as int]);
            }
            return false;
        }
        i = i + 1;
    }
    proof {
        assert(t@.take(p@.len() as int) =~= p@);
    }
    true
}

/// The number of leading ASCII whitespace bytes.
pub open spec fn ws_prefix(t: Seq<u8>) -> nat
    decreases t.len(),
{
    if t.len() > 0 && is_ws(t[0]) { 1 + ws_prefix(t.drop_first()) } else { 0 }
}

pub fn count_ws(t: &Vec<u8>) -> (r: usize)
    ensures
        r == ws_prefix(t@),
        r <= t@.len(),
{
    let mut i: usize = 0;
    assert(t@.skip(0) =~= t@);
    while i < t.len() && (t[i] == 32u8 || t[i] == 9u8 || t[i] == 10u8 || t[i] == 12u8 || t[i] == 13u8)
        invariant
            0 <= i <= t@.len(),
            ws_prefix(t@) == i + ws_prefix(t@.skip(i as int)),
        decreases t@.len() - i,
    {
        proof {
            assert(t@.skip(i as int).drop_first() =~= t@.skip(i + 1));
        }
        i = i + 1;
    }
    proof {
        let rest = t@.skip(i as int);
        if i < t@.len() {
            assert(rest[0] == t@[i as int]);
        }
    }
    i
}

} // verus!

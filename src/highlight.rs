//! Syntax highlighting: parsing through syntect, and a table that gives
//! each distinct style a stable id.
use crate::text::{slice, NEWLINE};
use crate::update::{Style, StyleId};
use syntect::highlighting::Theme;
use syntect::parsing::{ParseState, ScopeStack, ScopeStackOp, SyntaxSet};
use vstd::prelude::*;

verus! {

#[verifier::external_type_specification]
#[verifier::external_body]
pub struct ExSyntaxSet(SyntaxSet);

#[verifier::external_type_specification]
#[verifier::external_body]
pub struct ExTheme(Theme);

#[verifier::external_type_specification]
#[verifier::external_body]
pub struct ExParseState(ParseState);

#[verifier::external_type_specification]
#[verifier::external_body]
pub struct ExScopeStack(ScopeStack);

#[verifier::external_type_specification]
#[verifier::external_body]
pub struct ExScopeStackOp(ScopeStackOp);

/// The bundled syntax definitions and their metadata. Its field is private
/// and only `Bundled::load` fills it, so every value holds the same set.
pub struct Bundled {
    ss: SyntaxSet,
}

/// A parser for one syntax of the bundled set.
pub struct LineParser {
    ps: ParseState,
}

/// Relies on syntect's SyntaxSet::load_defaults_nonewlines for the bundled
/// syntax definitions and their metadata.
#[verifier::external_body]
fn load_syntax_set() -> SyntaxSet {
    SyntaxSet::load_defaults_nonewlines()
}

impl Bundled {
    pub fn load() -> Bundled {
        Bundled { ss: load_syntax_set() }
    }
}

/// Relies on syntect's ThemeSet::load_defaults for a bundled theme (the
/// default theme when there is none of that name).
#[verifier::external_body]
fn load_theme(name: &str) -> Theme {
    syntect::highlighting::ThemeSet::load_defaults().themes.remove(name).unwrap_or_default()
}

/// Relies on syntect's SyntaxSet::find_syntax_by_name and ParseState::new:
/// a parser for the named syntax of the bundled set, if it has one.
#[verifier::external_body]
fn parser_for(b: &Bundled, syntax: &str) -> Option<LineParser> {
    b.ss.find_syntax_by_name(syntax).map(|s| LineParser { ps: ParseState::new(s) })
}

/// Relies on syntect's ScopeStack::new for an empty scope stack.
#[verifier::external_body]
fn new_scope_stack() -> ScopeStack {
    ScopeStack::new()
}

/// Relies on syntect's ParseState::parse_line: the scope operations of one
/// line, at byte positions within it (none for a line that fails to parse).
/// The parser was made from the bundled set, which is the set passed here.
#[verifier::external_body]
fn parse_line(p: &mut LineParser, line: &[u8], b: &Bundled) -> Vec<(usize, ScopeStackOp)> {
    match std::str::from_utf8(line) {
        Ok(s) => p.ps.parse_line(s, &b.ss).unwrap_or_default(),
        Err(_) => Vec::new(),
    }
}

/// Relies on syntect's ScopeStack::apply.
#[verifier::external_body]
fn apply_op(stack: &mut ScopeStack, op: &ScopeStackOp) {
    let _ = stack.apply(op);
}

/// Relies on syntect's ScopeStack::is_empty.
#[verifier::external_body]
fn stack_is_empty(stack: &ScopeStack) -> bool {
    stack.is_empty()
}

/// The theme's style for a scope stack, as its parts: foreground and
/// background colours as (r, g, b, a), and the font style bits.
pub struct RawStyle {
    pub fg: (u8, u8, u8, u8),
    pub bg: (u8, u8, u8, u8),
    pub font_bits: u8,
}

/// Relies on syntect's Highlighter::style_for_stack.
#[verifier::external_body]
fn style_for_stack(theme: &Theme, stack: &ScopeStack) -> RawStyle {
    let s = syntect::highlighting::Highlighter::new(theme).style_for_stack(stack.as_slice());
    let (f, b) = (s.foreground, s.background);
    RawStyle { fg: (f.r, f.g, f.b, f.a), bg: (b.r, b.g, b.b, b.a), font_bits: s.font_style.bits() }
}

/// Whether the bundled indentation rules of the named syntax say that the
/// line after `line` is indented one level more.
pub uninterp spec fn increases_indent(syntax: Seq<char>, line: Seq<u8>) -> bool;

/// Whether the bundled indentation rules of the named syntax say that
/// `line` is indented one level less.
pub uninterp spec fn decreases_indent(syntax: Seq<char>, line: Seq<u8>) -> bool;

/// The line comment marker the bundled metadata gives the named syntax.
pub uninterp spec fn line_comment_of(syntax: Seq<char>) -> Option<Seq<u8>>;

/// Relies on syntect's ScopedMetadata::increase_indent, for the scope of the
/// named syntax in the bundled syntax set.
#[verifier::external_body]
fn increase_indent_rule(b: &Bundled, syntax: &str, line: &[u8]) -> (r: bool)
    ensures
        r == increases_indent(syntax@, line@),
{
    let scope = b.ss.find_syntax_by_name(syntax).map(|s| s.scope).unwrap_or_default();
    let text = String::from_utf8_lossy(line);
    b.ss.metadata().metadata_for_scope(&[scope]).increase_indent(&text)
}

/// Relies on syntect's ScopedMetadata::decrease_indent, for the scope of the
/// named syntax in the bundled syntax set.
#[verifier::external_body]
fn decrease_indent_rule(b: &Bundled, syntax: &str, line: &[u8]) -> (r: bool)
    ensures
        r == decreases_indent(syntax@, line@),
{
    let scope = b.ss.find_syntax_by_name(syntax).map(|s| s.scope).unwrap_or_default();
    let text = String::from_utf8_lossy(line);
    b.ss.metadata().metadata_for_scope(&[scope]).decrease_indent(&text)
}

/// Relies on syntect's ScopedMetadata::line_comment, for the scope of the
/// named syntax in the bundled syntax set.
#[verifier::external_body]
fn line_comment_rule(b: &Bundled, syntax: &str) -> (r: Option<Vec<u8>>)
    ensures
        match r { Some(v) => line_comment_of(syntax@) == Some(v@), None => line_comment_of(syntax@).is_none() },
{
    let scope = b.ss.find_syntax_by_name(syntax).map(|s| s.scope).unwrap_or_default();
    b.ss.metadata().metadata_for_scope(&[scope]).line_comment().map(|c| c.as_bytes().to_vec())
}

/// The syntax the highlighter reads text as.
pub const SYNTAX_NAME: &'static str = "Rust";

/// The theme styles come from.
pub const THEME_NAME: &'static str = "InspiredGitHub";

/// Packs a colour as `0xAARRGGBB`.
pub fn rgba(c: (u8, u8, u8, u8)) -> (r: u32)
    ensures
        r == (c.3 as u32) * 0x1000000 + (c.0 as u32) * 0x10000 + (c.1 as u32) * 0x100 + (c.2 as u32),
{
    let (r, g, b, a) = c;
    let v = ((a as u32) << 24u32) | ((r as u32) << 16u32) | ((g as u32) << 8u32) | (b as u32);
    assert(v == (a as u32) * 0x1000000 + (r as u32) * 0x10000 + (g as u32) * 0x100 + (b as u32)) by (bit_vector)
        requires v == ((a as u32) << 24u32) | ((r as u32) << 16u32) | ((g as u32) << 8u32) | (b as u32);
    v
}

/// The style for the raw parts: bold is bit 0, underline bit 1, italic bit 2.
pub fn style_of(raw: &RawStyle) -> (r: Style)
    ensures
        r.foreground == (raw.fg.3 as u32) * 0x1000000 + (raw.fg.0 as u32) * 0x10000 + (raw.fg.1 as u32) * 0x100 + (raw.fg.2 as u32),
        r.background == (raw.bg.3 as u32) * 0x1000000 + (raw.bg.0 as u32) * 0x10000 + (raw.bg.1 as u32) * 0x100 + (raw.bg.2 as u32),
        r.bold == (raw.font_bits & 1 != 0),
        r.underline == (raw.font_bits & 2 != 0),
        r.italic == (raw.font_bits & 4 != 0),
{
    Style {
        foreground: rgba(raw.fg),
        background: rgba(raw.bg),
        italic: raw.font_bits & 4 != 0,
        bold: raw.font_bits & 1 != 0,
        underline: raw.font_bits & 2 != 0,
    }
}

/// A styled stretch `start..end` of the text.
#[derive(PartialEq, Eq, Structural, Clone, Copy, Debug)]
pub struct Span {
    pub start: usize,
    pub end: usize,
    pub style: StyleId,
}

/// Style ids laid over a text of length `base_len`, sorted and disjoint.
#[derive(Clone, Debug)]
pub struct Spans {
    pub base_len: usize,
    pub spans: Vec<Span>,
}

impl Spans {
    pub open spec fn wf(&self) -> bool {
        &&& forall|i: int| 0 <= i < self.spans@.len() ==> (#[trigger] self.spans@[i]).start < self.spans@[i].end <= self.base_len
        &&& forall|i: int, j: int| 0 <= i < j < self.spans@.len() ==> (#[trigger] self.spans@[i]).end <= (#[trigger] self.spans@[j]).start
    }

    /// Every style id used is below `n`.
    pub open spec fn ids_below(&self, n: int) -> bool {
        forall|i: int| 0 <= i < self.spans@.len() ==> ((#[trigger] self.spans@[i]).style as int) < n
    }

    pub fn empty(base_len: usize) -> (r: Spans)
        ensures
            r.wf(),
            r.base_len == base_len,
            r.spans@.len() == 0,
    {
        Spans { base_len, spans: Vec::new() }
    }
}

/// The table of styles: a style's id is its index. Ids at and past `sent`
/// have not been reported to the host yet.
pub struct StyleTable {
    pub styles: Vec<Style>,
    pub sent: usize,
}

impl StyleTable {
    pub open spec fn wf(&self) -> bool {
        &&& self.sent <= self.styles@.len()
        &&& self.styles@.len() <= u32::MAX
        &&& forall|i: int, j: int| 0 <= i < j < self.styles@.len() ==> self.styles@[i] != self.styles@[j]
    }

    pub fn new() -> (r: StyleTable)
        ensures
            r.wf(),
            r.styles@.len() == 0,
            r.sent == 0,
    {
        StyleTable { styles: Vec::new(), sent: 0 }
    }

    /// The id of `style`, minting the next id when it is new. Returns `None`
    /// only when every id is taken.
    pub fn id_for_style(&mut self, style: Style) -> (r: Option<StyleId>)
        requires
            old(self).wf(),
        ensures
            final(self).wf(),
            final(self).sent == old(self).sent,
            r.is_some() ==> (r.unwrap() as int) < final(self).styles@.len(),
            old(self).styles@.len() <= final(self).styles@.len(),
            forall|k: int| 0 <= k < old(self).styles@.len() ==> final(self).styles@[k] == old(self).styles@[k],
            old(self).styles@.contains(style) ==> final(self).styles@ == old(self).styles@
                && r.is_some() && old(self).styles@[r.unwrap() as int] == style,
            !old(self).styles@.contains(style) && old(self).styles@.len() < u32::MAX ==> final(self).styles@
                == old(self).styles@.push(style) && r == Some(old(self).styles@.len() as u32),
            !old(self).styles@.contains(style) && old(self).styles@.len() == u32::MAX ==> final(self).styles@
                == old(self).styles@ && r.is_none(),
    {
        let mut i: usize = 0;
        while i < self.styles.len()
            invariant
                0 <= i <= self.styles@.len(),
                self.wf(),
                forall|k: int| 0 <= k < i ==> self.styles@[k] != style,
            decreases self.styles@.len() - i,
        {
            if self.styles[i] == style {
                return Some(i as u32);
            }
            i = i + 1;
        }
        if self.styles.len() >= 0xffff_ffffusize {
            return None;
        }
        let id = self.styles.len() as u32;
        self.styles.push(style);
        proof {
            assert(!old(self).styles@.contains(style));
            assert forall|a: int, b: int| 0 <= a < b < self.styles@.len() implies self.styles@[a] != self.styles@[b] by {
                if b == self.styles@.len() - 1 {
                    assert(old(self).styles@[a] != style);
                }
            }
        }
        Some(id)
    }

    /// The styles minted since the last call, which the host has not seen.
    pub fn take_new_styles(&mut self) -> (r: Option<Vec<(StyleId, Style)>>)
        requires
            old(self).wf(),
        ensures
            final(self).wf(),
            final(self).styles == old(self).styles,
            final(self).sent == final(self).styles@.len(),
            old(self).sent == old(self).styles@.len() ==> r.is_none(),
            old(self).sent < old(self).styles@.len() ==> r.is_some() && r.unwrap()@.len() == old(self).styles@.len() - old(self).sent
                && forall|k: int| 0 <= k < r.unwrap()@.len() ==> (#[trigger] r.unwrap()@[k]) == ((old(self).sent + k) as u32, old(self).styles@[old(self).sent + k]),
    {
        if self.sent == self.styles.len() {
            return None;
        }
        let mut out: Vec<(StyleId, Style)> = Vec::new();
        let mut i = self.sent;
        while i < self.styles.len()
            invariant
                old(self).sent <= i <= self.styles@.len(),
                self.styles@.len() <= u32::MAX,
                self.sent == old(self).sent,
                out@.len() == i - old(self).sent,
                forall|k: int| 0 <= k < out@.len() ==> (#[trigger] out@[k]) == ((old(self).sent + k) as u32, self.styles@[old(self).sent + k]),
            decreases self.styles@.len() - i,
        {
            out.push((i as u32, self.styles[i]));
            i = i + 1;
        }
        self.sent = self.styles.len();
        Some(out)
    }
}

/// The highlighter: syntax definitions, theme, and the style table.
pub struct HighlightState {
    pub syntax: Bundled,
    pub theme: Theme,
    pub table: StyleTable,
}

impl HighlightState {
    pub fn new() -> (r: HighlightState)
        ensures
            r.table.wf(),
            r.table.styles@.len() == 0,
            r.table.sent == 0,
    {
        HighlightState { syntax: Bundled::load(), theme: load_theme(THEME_NAME), table: StyleTable::new() }
    }

    pub fn increase_indent(&self, line: &Vec<u8>) -> (r: bool)
        ensures
            r == increases_indent(SYNTAX_NAME@, line@),
    {
        increase_indent_rule(&self.syntax, SYNTAX_NAME, line.as_slice())
    }

    pub fn decrease_indent(&self, line: &Vec<u8>) -> (r: bool)
        ensures
            r == decreases_indent(SYNTAX_NAME@, line@),
    {
        decrease_indent_rule(&self.syntax, SYNTAX_NAME, line.as_slice())
    }

    /// The line comment marker of the syntax, if it has one.
    pub fn line_comment(&self) -> (r: Option<Vec<u8>>)
        ensures
            match r { Some(v) => line_comment_of(SYNTAX_NAME@) == Some(v@), None => line_comment_of(SYNTAX_NAME@).is_none() },
    {
        line_comment_rule(&self.syntax, SYNTAX_NAME)
    }

    pub fn take_new_styles(&mut self) -> (r: Option<Vec<(StyleId, Style)>>)
        requires
            old(self).table.wf(),
        ensures
            final(self).table.wf(),
            final(self).table.styles == old(self).table.styles,
            final(self).table.sent == final(self).table.styles@.len(),
            old(self).table.sent == old(self).table.styles@.len() ==> r.is_none(),
            old(self).table.sent < old(self).table.styles@.len() ==> r.is_some() && r.unwrap()@.len()
                == old(self).table.styles@.len() - old(self).table.sent,
            forall|k: int| r.is_some() && 0 <= k < r.unwrap()@.len() ==> (#[trigger] r.unwrap()@[k]) == ((old(self).table.sent + k) as u32, old(self).table.styles@[old(self).table.sent + k]),
    {
        self.table.take_new_styles()
    }

    /// Highlights the whole text from scratch, line by line, building each
    /// line's spans with `line_spans`. The spans are well formed, cover a
    /// text of the same length and use only ids in the table; unless the
    /// table is full, every newline ends a span.
    pub fn highlight_all(&mut self, text: &Vec<u8>) -> (r: Spans)
        requires
            old(self).table.wf(),
        ensures
            final(self).table.wf(),
            final(self).table.sent == old(self).table.sent,
            old(self).table.styles@.len() <= final(self).table.styles@.len(),
            forall|k: int| 0 <= k < old(self).table.styles@.len() ==> final(self).table.styles@[k] == old(self).table.styles@[k],
            r.wf(),
            r.base_len == text@.len(),
            r.ids_below(final(self).table.styles@.len() as int),
            final(self).table.styles@.len() < u32::MAX ==> forall|k: int| 0 <= k < text@.len() && text@[k] == NEWLINE
                ==> exists|j: int| 0 <= j < r.spans@.len() && (#[trigger] r.spans@[j]).end == k + 1,
    {
        let mut spans: Vec<Span> = Vec::new();
        let len = text.len();
        let mut parser = parser_for(&self.syntax, SYNTAX_NAME);
        let mut stack = new_scope_stack();
        let mut total: usize = 0;
        let ghost old_styles = self.table.styles@;
        while total < len
            invariant
                len == text@.len(),
                total <= len,
                self.table.wf(),
                self.table.sent == old(self).table.sent,
                old_styles == old(self).table.styles@,
                old_styles.len() <= self.table.styles@.len(),
                forall|k: int| 0 <= k < old_styles.len() ==> self.table.styles@[k] == old_styles[k],
                forall|i: int| 0 <= i < spans@.len() ==> (#[trigger] spans@[i]).start < spans@[i].end <= total,
                forall|i: int, j: int| 0 <= i < j < spans@.len() ==> (#[trigger] spans@[i]).end <= (#[trigger] spans@[j]).start,
                forall|i: int| 0 <= i < spans@.len() ==> ((#[trigger] spans@[i]).style as int) < self.table.styles@.len(),
                self.table.styles@.len() < u32::MAX ==> forall|k: int| 0 <= k < total && text@[k] == NEWLINE
                    ==> exists|j: int| 0 <= j < spans@.len() && (#[trigger] spans@[j]).end == k + 1,
            decreases len - total,
        {
            let mut line_end = total;
            while line_end < len && text[line_end] != NEWLINE
                invariant
                    total <= line_end <= len,
                    len == text@.len(),
                    forall|q: int| total <= q < line_end ==> text@[q] != NEWLINE,
                decreases len - line_end,
            {
                line_end = line_end + 1;
            }
            let next = if line_end < len { line_end + 1 } else { line_end };
            let line = slice(text, total, line_end);
            let ops = match &mut parser {
                Some(p) => parse_line(p, line.as_slice(), &self.syntax),
                None => Vec::new(),
            };
            let content_len = line_end - total;
            let mut steps: Vec<(usize, Option<StyleId>)> = Vec::new();
            let mut last_pos: usize = 0;
            let mut k: usize = 0;
            let ghost len0 = self.table.styles@.len();
            while k < ops.len()
                invariant
                    last_pos <= content_len,
                    self.table.wf(),
                    self.table.sent == old(self).table.sent,
                    len0 <= self.table.styles@.len(),
                    old_styles.len() <= self.table.styles@.len(),
                    forall|q: int| 0 <= q < old_styles.len() ==> self.table.styles@[q] == old_styles[q],
                    forall|i: int| 0 <= i < spans@.len() ==> ((#[trigger] spans@[i]).style as int) < self.table.styles@.len(),
                    steps_ok(steps@, content_len as int),
                    steps@.len() == 0 ==> last_pos == 0,
                    steps@.len() > 0 ==> last_pos == steps@.last().0,
                    forall|i: int| 0 <= i < steps@.len() ==> match (#[trigger] steps@[i]).1 {
                        Some(id) => (id as int) < self.table.styles@.len(),
                        None => true,
                    },
                decreases ops@.len() - k,
            {
                let pos = if ops[k].0 < last_pos { last_pos } else if ops[k].0 > content_len { content_len } else { ops[k].0 };
                let mut id: Option<StyleId> = None;
                if !stack_is_empty(&stack) && pos > last_pos {
                    let style = style_of(&style_for_stack(&self.theme, &stack));
                    id = self.table.id_for_style(style);
                }
                steps.push((pos, id));
                last_pos = pos;
                apply_op(&mut stack, &ops[k].1);
                k = k + 1;
            }
            let mut eol: Option<StyleId> = None;
            if next > total + last_pos {
                let style = style_of(&style_for_stack(&self.theme, &stack));
                eol = self.table.id_for_style(style);
            }
            let ghost before = spans@;
            let new_spans = line_spans(total, content_len, next, &steps, eol);
            let mut q: usize = 0;
            while q < new_spans.len()
                invariant
                    0 <= q <= new_spans@.len(),
                    spans@ == before + new_spans@.take(q as int),
                decreases new_spans@.len() - q,
            {
                spans.push(new_spans[q]);
                proof {
                    assert(new_spans@.take(q + 1) =~= new_spans@.take(q as int).push(new_spans@[q as int]));
                }
                q = q + 1;
            }
            proof {
                assert(new_spans@.take(q as int) =~= new_spans@);
                let ns = new_spans@;
                assert forall|i: int| 0 <= i < spans@.len() implies (#[trigger] spans@[i]).start < spans@[i].end <= next by {
                    if i >= before.len() {
                        assert(spans@[i] == ns[i - before.len()]);
                    }
                }
                assert forall|i: int, j: int| 0 <= i < j < spans@.len() implies (#[trigger] spans@[i]).end <= (#[trigger] spans@[j]).start by {
                    if j >= before.len() {
                        assert(spans@[j] == ns[j - before.len()]);
                        if i >= before.len() {
                            assert(spans@[i] == ns[i - before.len()]);
                        }
                    }
                }
                assert forall|i: int| 0 <= i < spans@.len() implies ((#[trigger] spans@[i]).style as int) < self.table.styles@.len() by {
                    if i >= before.len() {
                        assert(spans@[i] == ns[i - before.len()]);
                    }
                }
                if self.table.styles@.len() < u32::MAX {
                    assert forall|kk: int| 0 <= kk < next && text@[kk] == NEWLINE
                        implies exists|j: int| 0 <= j < spans@.len() && (#[trigger] spans@[j]).end == kk + 1 by {
                        if kk < total {
                            let j0 = choose|j: int| 0 <= j < before.len() && (#[trigger] before[j]).end == kk + 1;
                            assert(spans@[j0] == before[j0]);
                        } else {
                            assert(kk == line_end);
                            assert(eol.is_some());
                            let jj = before.len() + ns.len() - 1;
                            assert(spans@[jj] == ns[ns.len() - 1]);
                        }
                    }
                }
            }
            total = next;
        }
        let ghost sp = spans@;
        let r = Spans { base_len: len, spans };
        proof {
            assert(total == len);
            assert(r.spans@ == sp);
            if self.table.styles@.len() < u32::MAX {
                assert forall|k: int| 0 <= k < text@.len() && text@[k] == NEWLINE
                    implies exists|j: int| 0 <= j < r.spans@.len() && (#[trigger] r.spans@[j]).end == k + 1 by {
                    assert(0 <= k < total);
                    let j = choose|j: int| 0 <= j < sp.len() && (#[trigger] sp[j]).end == k + 1;
                    assert(r.spans@[j] == sp[j]);
                }
            }
        }
        r
    }
}

/// Step positions never go back and stay within the line.
pub open spec fn steps_ok(steps: Seq<(usize, Option<StyleId>)>, content_len: int) -> bool {
    &&& forall|i: int| 0 <= i < steps.len() ==> (#[trigger] steps[i]).0 <= content_len
    &&& forall|i: int| 0 < i < steps.len() ==> steps[i - 1].0 <= (#[trigger] steps[i]).0
}

/// The position reached after the first `k` steps.
pub open spec fn step_pos(steps: Seq<(usize, Option<StyleId>)>, k: int) -> int {
    if k <= 0 { 0 } else { steps[k - 1].0 as int }
}

/// The spans of the first `k` steps of a line starting at `total`: a step
/// with a style id styles the stretch from the previous position to its own.
pub open spec fn step_spans(total: int, steps: Seq<(usize, Option<StyleId>)>, k: int) -> Seq<Span>
    decreases k,
{
    if k <= 0 {
        Seq::empty()
    } else {
        let prev = step_spans(total, steps, k - 1);
        let from = step_pos(steps, k - 1);
        let to = steps[k - 1].0 as int;
        match steps[k - 1].1 {
            Some(id) => if to > from {
                prev.push(Span { start: (total + from) as usize, end: (total + to) as usize, style: id })
            } else {
                prev
            },
            None => prev,
        }
    }
}

/// The spans of one line starting at `total` and ending (with its newline)
/// at `next`: one per step with a style id, then the rest of the line in
/// the `eol` style.
pub open spec fn line_spans_spec(total: int, next: int, steps: Seq<(usize, Option<StyleId>)>, eol: Option<StyleId>) -> Seq<Span> {
    let body = step_spans(total, steps, steps.len() as int);
    let last = step_pos(steps, steps.len() as int);
    match eol {
        Some(id) => if next > total + last {
            body.push(Span { start: (total + last) as usize, end: next as usize, style: id })
        } else {
            body
        },
        None => body,
    }
}

/// Builds the spans of one line from its steps: each step is a position in
/// the line and the style id of the text before it, if styled.
pub fn line_spans(total: usize, content_len: usize, next: usize, steps: &Vec<(usize, Option<StyleId>)>, eol: Option<StyleId>) -> (r: Vec<Span>)
    requires
        steps_ok(steps@, content_len as int),
        total + content_len <= next,
    ensures
        r@ == line_spans_spec(total as int, next as int, steps@, eol),
        forall|i: int| 0 <= i < r@.len() ==> total <= (#[trigger] r@[i]).start < r@[i].end <= next,
        forall|i: int, j: int| 0 <= i < j < r@.len() ==> (#[trigger] r@[i]).end <= (#[trigger] r@[j]).start,
        forall|i: int| 0 <= i < r@.len() ==> ((#[trigger] r@[i]).style == eol.unwrap() && eol.is_some())
            || exists|k: int| 0 <= k < steps@.len() && steps@[k].1 == Some(r@[i].style),
{
    let mut out: Vec<Span> = Vec::new();
    let mut last: usize = 0;
    let mut k: usize = 0;
    while k < steps.len()
        invariant
            steps_ok(steps@, content_len as int),
            total + content_len <= next,
            0 <= k <= steps@.len(),
            last == step_pos(steps@, k as int),
            last <= content_len,
            out@ == step_spans(total as int, steps@, k as int),
            forall|i: int| 0 <= i < out@.len() ==> total <= (#[trigger] out@[i]).start < out@[i].end <= total + last,
            forall|i: int, j: int| 0 <= i < j < out@.len() ==> (#[trigger] out@[i]).end <= (#[trigger] out@[j]).start,
            forall|i: int| 0 <= i < out@.len() ==> exists|q: int| 0 <= q < steps@.len() && steps@[q].1 == Some((#[trigger] out@[i]).style),
        decreases steps@.len() - k,
    {
        let (pos, id) = steps[k];
        proof {
            if k > 0 {
                assert(steps@[k - 1].0 <= steps@[k as int].0);
            }
        }
        if let Some(s) = id {
            if pos > last {
                out.push(Span { start: total + last, end: total + pos, style: s });
                proof {
                    assert(steps@[k as int].1 == Some(s));
                }
            }
        }
        last = pos;
        k = k + 1;
    }
    if let Some(s) = eol {
        if next > total + last {
            out.push(Span { start: total + last, end: next, style: s });
        }
    }
    out
}

} // verus!

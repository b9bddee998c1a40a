//! Decoding of delta-encoded style runs into colored text ranges.
use std::collections::HashMap;
use vstd::prelude::*;
use vstd::string::*;

verus! {

broadcast use vstd::std_specs::hash::group_hash_axioms;

/// An opaque RGBA color.
#[derive(Clone, Copy, PartialEq, Eq, Structural, Debug)]
pub struct Color {
    pub r: u8,
    pub g: u8,
    pub b: u8,
    pub a: u8,
}

/// Opaque black, the last fallback for text color.
pub open spec fn black() -> Color {
    Color { r: 0, g: 0, b: 0, a: 255 }
}

/// One run of uniform style, stored relative to the run before it.
#[derive(Clone, Copy, PartialEq, Eq, Structural, Debug)]
pub struct StyleSpan {
    pub offset: i64,
    pub length: u64,
    pub style_id: u64,
}

/// The colors registered under one style id.
#[derive(Clone, Copy, PartialEq, Eq, Structural, Debug)]
pub struct Style {
    pub fg_color: Option<Color>,
    pub bg_color: Option<Color>,
}

/// Fallback colors for text without a registered style.
#[derive(Clone, Copy, PartialEq, Eq, Structural, Debug)]
pub struct Theme {
    pub background: Option<Color>,
    pub foreground: Option<Color>,
}

/// A line of text with its style runs.
pub struct StyledLine {
    pub text: String,
    pub styles: Vec<StyleSpan>,
}

/// A sparse sequence of lines, some of which may not be loaded.
pub struct LineCache {
    pub lines: Vec<Option<StyledLine>>,
}

/// A resolved run: the character range `[start, end)` of the line and its
/// foreground color.
#[derive(Clone, Copy, PartialEq, Eq, Structural, Debug)]
pub struct TextRun {
    pub start: i64,
    pub end: i64,
    pub color: Color,
}

/// The theme's foreground, or black where the theme has none.
pub open spec fn theme_fg(theme: Theme) -> Color {
    match theme.foreground {
        Some(c) => c,
        None => black(),
    }
}

/// Opaque white, the background where the theme gives none.
pub open spec fn white() -> Color {
    Color { r: 255, g: 255, b: 255, a: 255 }
}

/// The theme's background, or white where the theme has none.
pub open spec fn theme_bg(theme: Theme) -> Color {
    match theme.background {
        Some(c) => c,
        None => white(),
    }
}

/// Every loaded line can be decoded.
pub open spec fn lines_fit(lines: Seq<Option<StyledLine>>) -> bool {
    forall|i: int|
        0 <= i < lines.len() && (#[trigger] lines[i]).is_some() ==> {
            &&& spans_fit(lines[i].unwrap().styles@)
            &&& lines[i].unwrap().text@.len() <= i64::MAX
        }
}

/// The foreground of a style id: the registered one, else the theme's.
pub open spec fn resolve_fg(registry: Map<u64, Style>, theme: Theme, id: u64) -> Color {
    if registry.contains_key(id) && registry[id].fg_color.is_some() {
        registry[id].fg_color.unwrap()
    } else {
        theme_fg(theme)
    }
}

/// The end index reached after walking all spans forward.
pub open spec fn span_total(s: Seq<StyleSpan>) -> int
    decreases s.len(),
{
    if s.len() == 0 {
        0
    } else {
        span_total(s.drop_last()) + s.last().offset + s.last().length
    }
}

/// The summed lengths of the spans.
pub open spec fn length_sum(s: Seq<StyleSpan>) -> int
    decreases s.len(),
{
    if s.len() == 0 {
        0
    } else {
        s[0].length + length_sum(s.drop_first())
    }
}

/// Where the run of span `i` ends: the total, less the lengths of the spans
/// after it.
pub open spec fn run_end(s: Seq<StyleSpan>, i: int) -> int {
    span_total(s) - length_sum(s.subrange(i + 1, s.len() as int))
}

/// Where the run of span `i` starts.
pub open spec fn run_start(s: Seq<StyleSpan>, i: int) -> int {
    run_end(s, i) - s[i].length
}

/// Every position that decoding computes fits in an `i64`.
pub open spec fn spans_fit(s: Seq<StyleSpan>) -> bool {
    &&& forall|i: int|
        0 <= i <= s.len() ==> i64::MIN <= #[trigger] span_total(s.take(i)) <= i64::MAX
    &&& forall|i: int| 0 <= i < s.len() ==> i64::MIN <= #[trigger] run_start(s, i) <= i64::MAX
}

/// The runs of a line, in the order of the reverse walk: the last span first.
pub open spec fn decoded(
    line_len: int,
    s: Seq<StyleSpan>,
    registry: Map<u64, Style>,
    theme: Theme,
    out: Seq<TextRun>,
) -> bool {
    if s.len() == 0 {
        out == seq![TextRun { start: 0, end: line_len as i64, color: theme_fg(theme) }]
    } else {
        &&& out.len() == s.len()
        &&& forall|m: int|
            0 <= m < out.len() ==> {
                let i = s.len() - 1 - m;
                #[trigger] out[m] == TextRun {
                    start: run_start(s, i) as i64,
                    end: run_end(s, i) as i64,
                    color: resolve_fg(registry, theme, s[i].style_id),
                }
            }
    }
}

proof fn lemma_length_sum_step(s: Seq<StyleSpan>, i: int)
    requires
        0 <= i < s.len(),
    ensures
        length_sum(s.subrange(i, s.len() as int)) == s[i].length + length_sum(
            s.subrange(i + 1, s.len() as int),
        ),
{
    assert(s.subrange(i, s.len() as int).drop_first() =~= s.subrange(i + 1, s.len() as int));
}

/// Looks up the foreground color of a style id, falling back to the theme.
pub fn resolve_color(registry: &HashMap<u64, Style>, theme: &Theme, id: u64) -> (c: Color)
    ensures
        c == resolve_fg(registry@, *theme, id),
{
    match registry.get(&id) {
        Some(style) => match style.fg_color {
            Some(c) => c,
            None => default_fg(theme),
        },
        None => default_fg(theme),
    }
}

/// The theme's foreground color, or black.
pub fn default_fg(theme: &Theme) -> (c: Color)
    ensures
        c == theme_fg(*theme),
{
    match theme.foreground {
        Some(c) => c,
        None => Color { r: 0, g: 0, b: 0, a: 255 },
    }
}

impl StyledLine {
    /// Decodes the style runs of this line into colored ranges, emitted in
    /// reverse-walk order (the last span's run first). A line without spans
    /// is one run over the whole text in the theme's foreground.
    pub fn decode(&self, registry: &HashMap<u64, Style>, theme: &Theme) -> (out: Vec<TextRun>)
        requires
            spans_fit(self.styles@),
            self.text@.len() <= i64::MAX,
        ensures
            decoded(self.text@.len() as int, self.styles@, registry@, *theme, out@),
    {
        let s = &self.styles;
        let n = s.len();
        let mut out: Vec<TextRun> = Vec::new();
        if n == 0 {
            let len = self.text.as_str().unicode_len();
            out.push(TextRun { start: 0, end: len as i64, color: default_fg(theme) });
            assert(out@ =~= seq![TextRun { start: 0, end: len as i64, color: theme_fg(*theme) }]);
            return out;
        }
        let mut end: i64 = 0;
        let mut i: usize = 0;
        assert(s@.take(0) =~= Seq::<StyleSpan>::empty());
        while i < n
            invariant
                n == s@.len(),
                i <= n,
                spans_fit(s@),
                end as int == span_total(s@.take(i as int)),
            decreases n - i,
        {
            assert(s@.take(i as int + 1).drop_last() =~= s@.take(i as int));
            assert(i64::MIN <= span_total(s@.take(i as int + 1)) <= i64::MAX);
            let next: i128 = end as i128 + s[i].offset as i128 + s[i].length as i128;
            end = next as i64;
            i = i + 1;
        }
        assert(s@.take(n as int) =~= s@);
        let mut k: usize = n;
        assert(s@.subrange(n as int, n as int) =~= Seq::<StyleSpan>::empty());
        while k > 0
            invariant
                n == s@.len(),
                k <= n,
                spans_fit(s@),
                out@.len() == n - k,
                end as int == span_total(s@) - length_sum(s@.subrange(k as int, n as int)),
                forall|m: int|
                    0 <= m < out@.len() ==> {
                        let j = n - 1 - m;
                        #[trigger] out@[m] == TextRun {
                            start: run_start(s@, j) as i64,
                            end: run_end(s@, j) as i64,
                            color: resolve_fg(registry@, *theme, s@[j].style_id),
                        }
                    },
            decreases k,
        {
            let j: usize = k - 1;
            proof {
                lemma_length_sum_step(s@, j as int);
            }
            assert(i64::MIN <= run_start(s@, j as int) <= i64::MAX);
            let start: i64 = (end as i128 - s[j].length as i128) as i64;
            let color = resolve_color(registry, theme, s[j].style_id);
            out.push(TextRun { start, end, color });
            end = start;
            k = j;
        }
        out
    }
}

/// The color the text area is filled with: the theme's background, or white.
pub fn background_color(theme: &Theme) -> (c: Color)
    ensures
        c == theme_bg(*theme),
{
    match theme.background {
        Some(c) => c,
        None => Color { r: 255, g: 255, b: 255, a: 255 },
    }
}

impl LineCache {
    /// The number of line slots, loaded or not.
    pub fn height(&self) -> (h: usize)
        ensures
            h == self.lines@.len(),
    {
        self.lines.len()
    }

    /// Decodes every loaded line, slot by slot; a slot that is not loaded
    /// stays empty.
    pub fn decode_lines(&self, registry: &HashMap<u64, Style>, theme: &Theme) -> (out: Vec<
        Option<Vec<TextRun>>,
    >)
        requires
            lines_fit(self.lines@),
        ensures
            out@.len() == self.lines@.len(),
            forall|i: int|
                0 <= i < out@.len() ==> match (#[trigger] out@[i], self.lines@[i]) {
                    (None, None) => true,
                    (Some(runs), Some(line)) => decoded(
                        line.text@.len() as int,
                        line.styles@,
                        registry@,
                        *theme,
                        runs@,
                    ),
                    _ => false,
                },
    {
        let mut out: Vec<Option<Vec<TextRun>>> = Vec::new();
        let mut i: usize = 0;
        while i < self.lines.len()
            invariant
                i <= self.lines@.len(),
                lines_fit(self.lines@),
                out@.len() == i,
                forall|k: int|
                    0 <= k < i ==> match (#[trigger] out@[k], self.lines@[k]) {
                        (None, None) => true,
                        (Some(runs), Some(line)) => decoded(
                            line.text@.len() as int,
                            line.styles@,
                            registry@,
                            *theme,
                            runs@,
                        ),
                        _ => false,
                    },
            decreases self.lines@.len() - i,
        {
            match &self.lines[i] {
                Some(line) => {
                    assert(self.lines@[i as int].is_some());
                    out.push(Some(line.decode(registry, theme)));
                },
                None => out.push(None),
            }
            i = i + 1;
        }
        out
    }
}

} // verus!

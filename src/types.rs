//! Values that flow between the matcher, the layout and the drawing layer.
use vstd::prelude::*;

verus! {

/// Byte offsets `[start, end)` of one match within a line.
#[derive(Clone, Copy, Debug, PartialEq, Eq, Structural)]
pub struct MatchPosition {
    pub start: u32,
    pub end: u32,
}

/// The spans of a sequence of match positions.
pub open spec fn spans_of(m: Seq<MatchPosition>) -> Seq<(int, int)> {
    m.map_values(|p: MatchPosition| (p.start as int, p.end as int))
}

/// A retained line and the spans to highlight in it (possibly none).
#[derive(Clone, Debug)]
pub struct LineWithMatches {
    pub line: String,
    pub matches: Vec<MatchPosition>,
}

/// One line of a stage's output.
#[derive(Clone, Debug)]
pub enum Line {
    LineWithMatches(LineWithMatches),
    BreakLine,
}

/// The mathematical value of a [`Line`].
pub enum LineView {
    Content { text: Seq<char>, spans: Seq<(int, int)> },
    Break,
}

impl View for Line {
    type V = LineView;

    open spec fn view(&self) -> LineView {
        match self {
            Line::LineWithMatches(l) => LineView::Content { text: l.line@, spans: spans_of(l.matches@) },
            Line::BreakLine => LineView::Break,
        }
    }
}

/// Copies match positions one by one.
pub fn copy_matches(m: &Vec<MatchPosition>) -> (r: Vec<MatchPosition>)
    ensures
        r@ == m@,
{
    let mut r: Vec<MatchPosition> = Vec::new();
    let mut i: usize = 0;
    while i < m.len()
        invariant
            0 <= i <= m@.len(),
            r@ == m@.subrange(0, i as int),
        decreases m@.len() - i,
    {
        r.push(m[i]);
        i = i + 1;
    }
    assert(r@ =~= m@);
    r
}

impl Line {
    /// A copy of this line with the same view.
    pub fn duplicate(&self) -> (r: Line)
        ensures
            r@ == self@,
    {
        match self {
            Line::LineWithMatches(l) => Line::LineWithMatches(
                LineWithMatches { line: l.line.clone(), matches: copy_matches(&l.matches) },
            ),
            Line::BreakLine => Line::BreakLine,
        }
    }
}

/// A part of a displayed line: matched text with its color index, or plain text.
#[derive(Debug)]
pub enum StringWithColorIndex {
    MatchString((String, u32)),
    String(String),
}

/// A displayed line: its colored parts, or a horizontal rule.
#[derive(Debug)]
pub enum StringWithColorIndexOrBreakLine {
    StringWithColorIndex(Vec<StringWithColorIndex>),
    BreakLine,
}

/// Everything the drawing layer needs for one frame.
#[derive(Debug)]
pub struct RenderState {
    pub regex_valid: bool,
    pub max_y: u32,
    pub max_x: u32,
    pub input_window_height: u32,
    pub pager_window_height: u32,
    pub output_search_lines: Vec<String>,
    pub output_display_lines: Vec<StringWithColorIndexOrBreakLine>,
    pub status_line: String,
}

} // verus!

//! Turning realized output lines into what fits on the screen: tab expansion,
//! horizontal trimming, and stable colors for matched text.
use vstd::prelude::*;
use crate::pattern::{spans_well_formed, utf8_of};
use crate::text::{byte_range, decimal, from_chars, push_decimal, to_chars};
use vstd::string::*;
use crate::layout::{
    content_width, content_width_of, input_window_height, input_window_height_of, pager_content_height,
    pager_content_height_of, pager_window_height, pager_window_height_of, sat_add, sat_sub, spec_min,
};
use crate::output_generator::{
    Len, OutputGenerator, chunk_end, entry_ok, lines_ok, lines_view, scan_stop, strings_view,
};
use crate::types::{Line, LineView, LineWithMatches, RenderState, StringWithColorIndex, StringWithColorIndexOrBreakLine, spans_of};

verus! {

/// Columns between tab stops.
pub const TAB_STOP: u64 = 4;

/// How many distinct match colors there are.
pub const MAX_MATCH_COLORS: u32 = 18;

/// The cells that character `c` takes at column `col`: a tab runs to the
/// next tab stop, a character of more than one UTF-8 byte shows as `_`.
pub open spec fn expand_char(col: int, c: char) -> Seq<char> {
    if c == '\t' {
        Seq::new((TAB_STOP - col % (TAB_STOP as int)) as nat, |i: int| ' ')
    } else if c as u32 >= 128 {
        seq!['_']
    } else {
        seq![c]
    }
}

/// The cells of `s` written from column `col` on.
pub open spec fn expand_tabs(col: int, s: Seq<char>) -> Seq<char>
    decreases s.len(),
{
    if s.len() == 0 {
        Seq::empty()
    } else {
        let pre = expand_tabs(col, s.drop_last());
        pre + expand_char(col + pre.len(), s.last())
    }
}

/// The part of a run of cells starting at column `start` that falls in the
/// window of `width` columns from column `from`.
pub open spec fn visible_part(cells: Seq<char>, start: int, from: int, width: int) -> Seq<char> {
    let lo = clamp(from - start, cells.len() as int);
    let hi = clamp(from + width - start, cells.len() as int);
    cells.subrange(lo, hi)
}

/// `x` clamped to `[0, n]`.
pub open spec fn clamp(x: int, n: int) -> int {
    if x < 0 { 0 } else if x > n { n } else { x }
}

/// The characters whose UTF-8 bytes lie in `[a, b)` of `line`.
pub open spec fn byte_slice(line: Seq<char>, a: int, b: int) -> Seq<char> {
    vstd::utf8::decode_utf8(utf8_of(line).subrange(a, b))
}

/// The pieces of a line cut at the first `k` spans: for each span, the
/// unmatched text before it (where there is any) and the matched text.
pub open spec fn segments_upto(line: Seq<char>, spans: Seq<(int, int)>, k: nat) -> Seq<(Seq<char>, bool)>
    decreases k,
{
    if k == 0 {
        Seq::empty()
    } else {
        let prev_end = if k == 1 { 0 } else { spans[k - 2].1 };
        let s = spans[k - 1];
        segments_upto(line, spans, (k - 1) as nat) + if prev_end < s.0 {
            seq![(byte_slice(line, prev_end, s.0), false)]
        } else {
            Seq::empty()
        } + seq![(byte_slice(line, s.0, s.1), true)]
    }
}

/// A line cut into unmatched and matched pieces, in order: the whole line
/// where it has no spans, else the pieces around each span and the text after
/// the last one.
pub open spec fn segments(line: Seq<char>, spans: Seq<(int, int)>) -> Seq<(Seq<char>, bool)> {
    if spans.len() == 0 {
        seq![(line, false)]
    } else {
        segments_upto(line, spans, spans.len()) + seq![
            (byte_slice(line, spans.last().1, utf8_of(line).len() as int), false),
        ]
    }
}

/// The colors handed out in one frame, in order of first sight, and the next
/// color to hand out.
pub struct Palette {
    pub seen: Seq<(Seq<char>, u32)>,
    pub next: u32,
}

/// The color given to `s` earlier in the frame, if any.
pub open spec fn color_lookup(seen: Seq<(Seq<char>, u32)>, s: Seq<char>) -> Option<u32>
    decreases seen.len(),
{
    if seen.len() == 0 {
        None
    } else if seen.last().0 == s {
        Some(seen.last().1)
    } else {
        color_lookup(seen.drop_last(), s)
    }
}

/// The color of matched text `s`, and the palette afterwards: text seen
/// before keeps its color; new text takes the next color, and the counter
/// stops at the last color.
pub open spec fn assign_color(p: Palette, s: Seq<char>) -> (u32, Palette) {
    match color_lookup(p.seen, s) {
        Some(c) => (c, p),
        None => (
            p.next,
            Palette {
                seen: p.seen.push((s, p.next)),
                next: if p.next < MAX_MATCH_COLORS - 1 { (p.next + 1) as u32 } else { p.next },
            },
        ),
    }
}

/// A displayed piece: matched text with its color, or plain text.
pub enum PieceView {
    Match(Seq<char>, u32),
    Plain(Seq<char>),
}

impl View for StringWithColorIndex {
    type V = PieceView;

    open spec fn view(&self) -> PieceView {
        match self {
            StringWithColorIndex::MatchString((s, c)) => PieceView::Match(s@, *c),
            StringWithColorIndex::String(s) => PieceView::Plain(s@),
        }
    }
}

/// Lays out one piece of a line after `acc` (the pieces shown so far, the
/// column reached, the palette): the piece is expanded from that column,
/// what falls in the window is shown where it is not empty, and matched text
/// takes its color.
pub open spec fn layout_step(
    acc: (Seq<PieceView>, int, Palette),
    seg: (Seq<char>, bool),
    from: int,
    width: int,
) -> (Seq<PieceView>, int, Palette) {
    let (pieces, col, pal) = acc;
    let cells = expand_tabs(col, seg.0);
    let shown = visible_part(cells, col, from, width);
    let (color, pal2) = if seg.1 { assign_color(pal, seg.0) } else { (0u32, pal) };
    let piece = if seg.1 { PieceView::Match(shown, color) } else { PieceView::Plain(shown) };
    (pieces + if shown.len() > 0 { seq![piece] } else { Seq::empty() }, col + cells.len(), pal2)
}

/// The result of laying out the first `k` pieces of a line.
pub open spec fn layout_upto(segs: Seq<(Seq<char>, bool)>, k: nat, from: int, width: int, p: Palette) -> (Seq<PieceView>, int, Palette)
    decreases k,
{
    if k == 0 {
        (Seq::empty(), 0, p)
    } else {
        layout_step(layout_upto(segs, (k - 1) as nat, from, width, p), segs[k - 1], from, width)
    }
}

/// The layout of the first `k` pieces depends on those pieces alone.
pub proof fn lemma_layout_prefix(a: Seq<(Seq<char>, bool)>, b: Seq<(Seq<char>, bool)>, k: nat, from: int, width: int, p: Palette)
    requires
        k <= a.len(),
        k <= b.len(),
        a.subrange(0, k as int) == b.subrange(0, k as int),
    ensures
        layout_upto(a, k, from, width, p) == layout_upto(b, k, from, width, p),
    decreases k,
{
    if k > 0 {
        assert(a.subrange(0, k - 1) =~= b.subrange(0, k - 1)) by {
            assert(a.subrange(0, k - 1) =~= a.subrange(0, k as int).subrange(0, k - 1));
            assert(b.subrange(0, k - 1) =~= b.subrange(0, k as int).subrange(0, k - 1));
        }
        assert(a[k - 1] == a.subrange(0, k as int)[k - 1]);
        assert(b[k - 1] == b.subrange(0, k as int)[k - 1]);
        lemma_layout_prefix(a, b, (k - 1) as nat, from, width, p);
    }
}

/// Laying out one more piece is one more step.
pub proof fn lemma_layout_push(segs: Seq<(Seq<char>, bool)>, x: (Seq<char>, bool), from: int, width: int, p: Palette)
    ensures
        layout_upto(segs.push(x), segs.len() + 1, from, width, p) == layout_step(
            layout_upto(segs, segs.len(), from, width, p),
            x,
            from,
            width,
        ),
{
    assert(segs.push(x).subrange(0, segs.len() as int) =~= segs.subrange(0, segs.len() as int));
    lemma_layout_prefix(segs.push(x), segs, segs.len(), from, width, p);
}

/// A whole line laid out.
pub open spec fn layout_line(line: Seq<char>, spans: Seq<(int, int)>, from: int, width: int, p: Palette) -> (Seq<PieceView>, Palette) {
    let segs = segments(line, spans);
    let (pieces, col, pal) = layout_upto(segs, segs.len(), from, width, p);
    (pieces, pal)
}

/// The views of displayed pieces.
pub open spec fn pieces_view(v: Seq<StringWithColorIndex>) -> Seq<PieceView> {
    v.map_values(|x: StringWithColorIndex| x@)
}

/// The colors handed out so far in a frame.
pub struct ColorTable {
    texts: Vec<String>,
    colors: Vec<u32>,
    next: u32,
}

impl View for ColorTable {
    type V = Palette;

    closed spec fn view(&self) -> Palette {
        Palette {
            seen: Seq::new(self.texts@.len(), |i: int| (self.texts@[i]@, self.colors@[i])),
            next: self.next,
        }
    }
}

impl ColorTable {
    pub closed spec fn wf(&self) -> bool {
        &&& self.texts@.len() == self.colors@.len()
        &&& self.next < MAX_MATCH_COLORS
    }

    /// An empty table: the first new text gets color 0.
    pub fn new() -> (r: ColorTable)
        ensures
            r.wf(),
            r@ == (Palette { seen: Seq::empty(), next: 0 }),
    {
        let r = ColorTable { texts: Vec::new(), colors: Vec::new(), next: 0 };
        assert(r@.seen =~= Seq::<(Seq<char>, u32)>::empty());
        r
    }

    /// The color of matched text `s`; new text takes the next color.
    pub fn color_of(&mut self, s: &str) -> (r: u32)
        requires
            old(self).wf(),
        ensures
            final(self).wf(),
            (r, final(self)@) == assign_color(old(self)@, s@),
    {
        let ghost seen = self@.seen;
        let key = s.to_owned();
        let mut i: usize = self.texts.len();
        assert(seen.subrange(0, i as int) =~= seen);
        while i > 0
            invariant
                self.wf(),
                self@.seen == seen,
                key@ == s@,
                0 <= i <= seen.len(),
                color_lookup(seen, s@) == color_lookup(seen.subrange(0, i as int), s@),
            decreases i,
        {
            assert(seen.subrange(0, i as int).drop_last() =~= seen.subrange(0, i - 1));
            assert(seen.subrange(0, i as int).last() == (self.texts@[i - 1]@, self.colors@[i - 1]));
            if self.texts[i - 1] == key {
                assert(self.texts@[i - 1]@ == s@);
                assert(color_lookup(seen.subrange(0, i as int), s@) == Some(self.colors@[i - 1]));
                return self.colors[i - 1];
            }
            assert(self.texts@[i - 1]@ != s@);
            assert(color_lookup(seen.subrange(0, i as int), s@) == color_lookup(seen.subrange(0, i - 1), s@));
            i = i - 1;
        }
        assert(seen.subrange(0, 0) =~= Seq::<(Seq<char>, u32)>::empty());
        let c = self.next;
        self.texts.push(key);
        self.colors.push(c);
        if self.next < MAX_MATCH_COLORS - 1 {
            self.next = self.next + 1;
        }
        assert(self@.seen =~= seen.push((s@, c)));
        c
    }
}

/// A character takes at least one byte in UTF-8.
pub proof fn lemma_chars_within_bytes(s: Seq<char>)
    ensures
        s.len() <= utf8_of(s).len(),
    decreases s.len(),
{
    if s.len() > 0 {
        lemma_chars_within_bytes(s.drop_first());
        assert(utf8_of(s) == vstd::utf8::encode_scalar(s[0] as u32) + utf8_of(s.drop_first()));
    }
}

/// Expansion gives at most four cells per character.
pub proof fn lemma_expand_len(col: int, s: Seq<char>)
    ensures
        expand_tabs(col, s).len() <= 4 * s.len(),
    decreases s.len(),
{
    if s.len() > 0 {
        lemma_expand_len(col, s.drop_last());
    }
}

/// Expands the characters `s` written from column `col`.
fn expand_chars(col: u64, s: &Vec<char>) -> (r: Vec<char>)
    requires
        col + 4 * s@.len() <= u64::MAX,
    ensures
        r@ == expand_tabs(col as int, s@),
{
    let mut out: Vec<char> = Vec::new();
    let mut steps: u64 = col;
    let mut i: usize = 0;
    while i < s.len()
        invariant
            0 <= i <= s@.len(),
            col + 4 * s@.len() <= u64::MAX,
            out@ == expand_tabs(col as int, s@.subrange(0, i as int)),
            steps == col + out@.len(),
            out@.len() <= 4 * i,
        decreases s@.len() - i,
    {
        let c = s[i];
        let ghost prev = out@;
        assert(s@.subrange(0, i + 1).drop_last() =~= s@.subrange(0, i as int));
        assert(s@.subrange(0, i + 1).last() == c);
        if c == '\t' {
            let width: u64 = TAB_STOP - steps % TAB_STOP;
            let mut j: u64 = 0;
            while j < width
                invariant
                    0 <= j <= width <= 4,
                    out@ == prev + Seq::new(j as nat, |x: int| ' '),
                decreases width - j,
            {
                out.push(' ');
                assert(out@ =~= prev + Seq::new((j + 1) as nat, |x: int| ' '));
                j = j + 1;
            }
            steps = steps + width;
        } else if (c as u32) >= 128 {
            out.push('_');
            steps = steps + 1;
        } else {
            out.push(c);
            steps = steps + 1;
        }
        assert(out@ =~= prev + expand_char(col + prev.len(), c));
        i = i + 1;
    }
    assert(s@.subrange(0, i as int) =~= s@);
    out
}

/// Returns `input_string` with each tab replaced by the spaces up to the
/// next tab stop, counting columns from `current_steps`, and each character
/// of more than one UTF-8 byte replaced by `_`.
pub fn replace_tabs_with_spaces(current_steps: u32, input_string: &str) -> (r: String)
    requires
        input_string@.len() <= u32::MAX,
    ensures
        r@ == expand_tabs(current_steps as int, input_string@),
{
    let chars = to_chars(input_string);
    let cells = expand_chars(current_steps as u64, &chars);
    from_chars(&cells)
}

/// The cells `[lo, hi)` of `v`.
fn sub_chars(v: &Vec<char>, lo: usize, hi: usize) -> (r: Vec<char>)
    requires
        lo <= hi <= v@.len(),
    ensures
        r@ == v@.subrange(lo as int, hi as int),
{
    let mut r: Vec<char> = Vec::new();
    let mut i: usize = lo;
    while i < hi
        invariant
            lo <= i <= hi <= v@.len(),
            r@ == v@.subrange(lo as int, i as int),
        decreases hi - i,
    {
        r.push(v[i]);
        assert(r@ =~= v@.subrange(lo as int, i + 1));
        i = i + 1;
    }
    r
}

/// The displayed pieces that an optional piece adds.
pub open spec fn opt_pieces(o: Option<StringWithColorIndex>) -> Seq<PieceView> {
    match o {
        Some(x) => seq![x@],
        None => Seq::empty(),
    }
}

/// One step of the layout of a line: lays out one piece of text from column
/// `col`; returns the column after it and what shows of it, if anything.
fn place_piece(piece: &str, is_match: bool, col: u64, from: u32, width: u32, colors: &mut ColorTable) -> (r: (
    u64,
    Option<StringWithColorIndex>,
))
    requires
        old(colors).wf(),
        col + 4 * piece@.len() <= u64::MAX,
    ensures
        final(colors).wf(),
        forall|acc: Seq<PieceView>| #[trigger]
            layout_step((acc, col as int, old(colors)@), (piece@, is_match), from as int, width as int) == (
                acc + opt_pieces(r.1),
                r.0 as int,
                final(colors)@,
            ),
        r.0 <= col + 4 * piece@.len(),
{
    let color: u32 = if is_match { colors.color_of(piece) } else { 0 };
    let chars = to_chars(piece);
    let cells = expand_chars(col, &chars);
    let n = cells.len();
    proof {
        lemma_expand_len(col as int, piece@);
    }
    let lo: usize = if (from as u64) <= col {
        0
    } else if (from as u64) - col > n as u64 {
        n
    } else {
        ((from as u64) - col) as usize
    };
    let end: u64 = from as u64 + width as u64;
    let hi: usize = if end <= col {
        0
    } else if end - col > n as u64 {
        n
    } else {
        (end - col) as usize
    };
    let shown = sub_chars(&cells, lo, hi);
    let out = if shown.len() > 0 {
        let text = from_chars(&shown);
        if is_match {
            Some(StringWithColorIndex::MatchString((text, color)))
        } else {
            Some(StringWithColorIndex::String(text))
        }
    } else {
        None
    };
    proof {
        assert forall|acc: Seq<PieceView>| #[trigger]
            layout_step((acc, col as int, old(colors)@), (piece@, is_match), from as int, width as int) == (
                acc + opt_pieces(out),
                (col + n) as int,
                colors@,
            ) by {
            if shown@.len() == 0 {
                assert(acc + opt_pieces(out) =~= acc + Seq::<PieceView>::empty());
            }
        }
    }
    (col + n as u64, out)
}

/// Appends a piece, if there is one.
fn push_piece(out: &mut Vec<StringWithColorIndex>, piece: Option<StringWithColorIndex>)
    ensures
        pieces_view(final(out)@) == pieces_view(old(out)@) + opt_pieces(piece),
{
    let ghost before = pieces_view(out@);
    match piece {
        Some(x) => {
            out.push(x);
            assert(pieces_view(out@) =~= before + seq![x@]);
        },
        None => {
            assert(pieces_view(out@) =~= before + Seq::<PieceView>::empty());
        },
    }
}

/// Lays out one piece of text from column `col` and appends what shows of
/// it to `out`; returns the column after it.
fn place_into(
    piece: &str,
    is_match: bool,
    col: u64,
    from: u32,
    width: u32,
    colors: &mut ColorTable,
    out: &mut Vec<StringWithColorIndex>,
) -> (r: u64)
    requires
        old(colors).wf(),
        col + 4 * piece@.len() <= u64::MAX,
    ensures
        final(colors).wf(),
        (pieces_view(final(out)@), r as int, final(colors)@) == layout_step(
            (pieces_view(old(out)@), col as int, old(colors)@),
            (piece@, is_match),
            from as int,
            width as int,
        ),
        r <= col + 4 * piece@.len(),
{
    let ghost before = pieces_view(out@);
    let ghost pal = colors@;
    let (next, shown) = place_piece(piece, is_match, col, from, width, colors);
    assert(layout_step((before, col as int, pal), (piece@, is_match), from as int, width as int) == (
        before + opt_pieces(shown),
        next as int,
        colors@,
    ));
    push_piece(out, shown);
    next
}

/// The characters of `text` whose bytes lie in `[a, b)`.
fn segment(text: &str, a: usize, b: usize) -> (r: &str)
    requires
        a <= b <= utf8_of(text@).len(),
        vstd::utf8::is_char_boundary(utf8_of(text@), a as int),
        vstd::utf8::is_char_boundary(utf8_of(text@), b as int),
    ensures
        r@ == byte_slice(text@, a as int, b as int),
        r@.len() <= b - a,
{
    let r = byte_range(text, a, b);
    proof {
        vstd::utf8::encode_utf8_decode_utf8(r@);
        lemma_chars_within_bytes(r@);
    }
    r
}

/// The characters of `text` whose bytes lie at or after `a`.
fn tail(text: &str, a: usize) -> (r: &str)
    requires
        a <= utf8_of(text@).len(),
        vstd::utf8::is_char_boundary(utf8_of(text@), a as int),
    ensures
        r@ == byte_slice(text@, a as int, utf8_of(text@).len() as int),
        r@.len() <= utf8_of(text@).len() - a,
{
    let (_, r) = text.split_at(a);
    proof {
        vstd::utf8::encode_utf8_decode_utf8(r@);
        lemma_chars_within_bytes(r@);
    }
    r
}

/// Lays out one output line for the screen: the line is cut into unmatched
/// and matched pieces, tabs are expanded by column across the whole line,
/// only the columns `[pager_x, pager_x + content_width)` are kept, and
/// matched text takes its color from `colors`.
pub fn trim_and_colorize_line(
    line_with_match_ranges: &LineWithMatches,
    pager_x: u32,
    content_width: u32,
    colors: &mut ColorTable,
) -> (r: StringWithColorIndexOrBreakLine)
    requires
        old(colors).wf(),
        spans_well_formed(spans_of(line_with_match_ranges.matches@), line_with_match_ranges.line@),
        utf8_of(line_with_match_ranges.line@).len() <= u32::MAX,
    ensures
        final(colors).wf(),
        r matches StringWithColorIndexOrBreakLine::StringWithColorIndex(v) && (pieces_view(v@), final(colors)@)
            == layout_line(
            line_with_match_ranges.line@,
            spans_of(line_with_match_ranges.matches@),
            pager_x as int,
            content_width as int,
            old(colors)@,
        ),
{
    let ghost line = line_with_match_ranges.line@;
    let ghost spans = spans_of(line_with_match_ranges.matches@);
    let ghost from = pager_x as int;
    let ghost width = content_width as int;
    let ghost pal0 = colors@;
    let text = line_with_match_ranges.line.as_str();
    let total = text.len();
    proof {
        vstd::utf8::encode_utf8_valid_utf8(line);
        lemma_chars_within_bytes(line);
    }
    let matches = &line_with_match_ranges.matches;
    let n = matches.len();
    let mut out: Vec<StringWithColorIndex> = Vec::new();
    let mut col: u64 = 0;
    let mut end_prev: usize = 0;
    let mut k: usize = 0;
    while k < n
        invariant
            0 <= k <= n == matches@.len(),
            spans == spans_of(matches@),
            text@ == line,
            from == pager_x as int,
            width == content_width as int,
            spans_well_formed(spans, line),
            vstd::utf8::valid_utf8(utf8_of(line)),
            total == utf8_of(line).len() <= u32::MAX,
            colors.wf(),
            end_prev == (if k == 0 { 0 } else { spans[k - 1].1 }),
            end_prev <= total,
            col <= 4 * end_prev,
            (pieces_view(out@), col as int, colors@) == layout_upto(
                segments_upto(line, spans, k as nat),
                segments_upto(line, spans, k as nat).len(),
                from,
                width,
                pal0,
            ),
        decreases n - k,
    {
        let m = matches[k];
        assert(spans[k as int] == (m.start as int, m.end as int));
        assert(0 <= spans[k as int].0 <= spans[k as int].1 <= utf8_of(line).len());
        assert(k > 0 ==> spans[k - 1].1 <= spans[k as int].0);
        assert(text@ == line);
        let start = m.start as usize;
        let end = m.end as usize;
        let ghost segs = segments_upto(line, spans, k as nat);
        if end_prev < start {
            let seg = segment(text, end_prev, start);
            proof {
                lemma_layout_push(segs, (seg@, false), from, width, pal0);
            }
            col = place_into(seg, false, col, pager_x, content_width, colors, &mut out);
        }
        let ghost segs2 = if end_prev < start {
            segs.push((byte_slice(line, end_prev as int, start as int), false))
        } else {
            segs
        };
        let seg = segment(text, start, end);
        proof {
            lemma_layout_push(segs2, (seg@, true), from, width, pal0);
            assert(segments_upto(line, spans, (k + 1) as nat) =~= segs2.push((seg@, true)));
        }
        col = place_into(seg, true, col, pager_x, content_width, colors, &mut out);
        end_prev = end;
        k = k + 1;
    }
    let ghost segs = segments_upto(line, spans, n as nat);
    if n > 0 {
        let seg = tail(text, end_prev);
        proof {
            lemma_layout_push(segs, (seg@, false), from, width, pal0);
            assert(segments(line, spans) =~= segs.push((seg@, false)));
        }
        place_into(seg, false, col, pager_x, content_width, colors, &mut out);
    } else {
        proof {
            lemma_layout_push(Seq::empty(), (line, false), from, width, pal0);
            assert(segments(line, spans) =~= Seq::<(Seq<char>, bool)>::empty().push((line, false)));
        }
        place_into(text, false, 0, pager_x, content_width, colors, &mut out);
    }
    StringWithColorIndexOrBreakLine::StringWithColorIndex(out)
}

/// A displayed line: its pieces, or a horizontal rule.
pub enum DisplayView {
    Pieces(Seq<PieceView>),
    Rule,
}

impl View for StringWithColorIndexOrBreakLine {
    type V = DisplayView;

    open spec fn view(&self) -> DisplayView {
        match self {
            StringWithColorIndexOrBreakLine::StringWithColorIndex(v) => DisplayView::Pieces(pieces_view(v@)),
            StringWithColorIndexOrBreakLine::BreakLine => DisplayView::Rule,
        }
    }
}

/// Output lines laid out one after the other, sharing one palette: break
/// markers become rules.
pub open spec fn display_lines(v: Seq<LineView>, from: int, width: int, p: Palette) -> (Seq<DisplayView>, Palette)
    decreases v.len(),
{
    if v.len() == 0 {
        (Seq::empty(), p)
    } else {
        let (pre, pal) = display_lines(v.drop_last(), from, width, p);
        match v.last() {
            LineView::Break => (pre.push(DisplayView::Rule), pal),
            LineView::Content { text, spans } => {
                let (pieces, pal2) = layout_line(text, spans, from, width, pal);
                (pre.push(DisplayView::Pieces(pieces)), pal2)
            },
        }
    }
}

/// The views of displayed lines.
pub open spec fn display_view(v: Seq<StringWithColorIndexOrBreakLine>) -> Seq<DisplayView> {
    v.map_values(|x: StringWithColorIndexOrBreakLine| x@)
}

/// The first and last output line shown from scroll offset `pager_y` with
/// `height` rows, where `len` lines are realized.
pub open spec fn shown_range(pager_y: int, height: int, len: int) -> (int, int) {
    (if pager_y < len { pager_y } else { len }, if pager_y + height < len { pager_y + height } else { len })
}

/// Lines requested beyond the visible ones, so that scrolling by a line does
/// not ask again.
pub const REQUEST_BUFFER_SIZE: u32 = 10;

/// The visible output lines, laid out: the generator is asked for the
/// lines up to the bottom of the pager (and a few more), and the realized
/// lines `[pager_y, pager_y + pager_content_height)` are laid out with one
/// palette.
pub fn output_lines_display_format(
    pager_y: u32,
    pager_x: u32,
    content_width: u32,
    pager_content_height: u32,
    result_generator: &mut OutputGenerator,
) -> (r: Vec<StringWithColorIndexOrBreakLine>)
    requires
        old(result_generator).wf(),
    ensures
        final(result_generator).wf(),
        final(result_generator).params() == old(result_generator).params(),
        final(result_generator).processed() == scan_stop(
            old(result_generator).params(),
            old(result_generator).processed(),
            chunk_end(sat_add(sat_add(pager_y as int, pager_content_height as int), REQUEST_BUFFER_SIZE as int) as u32),
        ),
        ({
            let out = final(result_generator).output();
            let (first, last) = shown_range(pager_y as int, pager_content_height as int, out.len() as int);
            display_view(r@) == display_lines(out.subrange(first, last), pager_x as int, content_width as int, Palette { seen: Seq::empty(), next: 0 }).0
        }),
{
    let wanted = pager_y.saturating_add(pager_content_height).saturating_add(REQUEST_BUFFER_SIZE);
    result_generator.request(wanted);
    let count = result_generator.len_simple();
    let first = if pager_y < count { pager_y } else { count };
    let last: u32 = if (pager_y as u64) + (pager_content_height as u64) < count as u64 {
        pager_y + pager_content_height
    } else {
        count
    };
    let visible = result_generator.slice(first, last);
    proof {
        result_generator.lemma_wf_bounds();
    }
    let ghost lines = lines_view(visible@);
    let ghost pal0 = Palette { seen: Seq::empty(), next: 0 };
    let mut colors = ColorTable::new();
    let mut out: Vec<StringWithColorIndexOrBreakLine> = Vec::new();
    let mut i: usize = 0;
    while i < visible.len()
        invariant
            0 <= i <= visible@.len(),
            lines == lines_view(visible@),
            lines_ok(lines),
            colors.wf(),
            (display_view(out@), colors@) == display_lines(lines.subrange(0, i as int), pager_x as int, content_width as int, pal0),
        decreases visible@.len() - i,
    {
        let ghost prev = display_view(out@);
        assert(lines.subrange(0, i + 1).drop_last() =~= lines.subrange(0, i as int));
        assert(lines.subrange(0, i + 1).last() == lines[i as int]);
        match &visible[i] {
            Line::BreakLine => {
                out.push(StringWithColorIndexOrBreakLine::BreakLine);
                assert(display_view(out@) =~= prev.push(DisplayView::Rule));
            },
            Line::LineWithMatches(l) => {
                assert(entry_ok(lines[i as int]));
                let shown = trim_and_colorize_line(l, pager_x, content_width, &mut colors);
                out.push(shown);
                assert(display_view(out@) =~= prev.push(shown@));
            },
        }
        i = i + 1;
    }
    assert(lines.subrange(0, i as int) =~= lines);
    out
}

/// The first `w` characters of `s`, or all of them where there are fewer.
pub open spec fn truncated(s: Seq<char>, w: int) -> Seq<char> {
    s.subrange(0, if s.len() < w { s.len() as int } else { w })
}

/// The first `w` characters of `s`.
fn truncate_chars(s: &str, w: u32) -> (r: String)
    ensures
        r@ == truncated(s@, w as int),
{
    let chars = to_chars(s);
    let n = chars.len();
    let hi: usize = if (n as u64) < (w as u64) { n } else { w as usize };
    let kept = sub_chars(&chars, 0, hi);
    from_chars(&kept)
}

/// Which stages show in the input window: the last `min(height - 2, n)`, each
/// cut to the content width.
pub open spec fn search_lines_shown(input_window_height: int, lines: Seq<Seq<char>>, content_width: int) -> Seq<Seq<char>> {
    let take = spec_min(sat_sub(input_window_height, 2), lines.len() as int);
    Seq::new(take as nat, |j: int| truncated(lines[lines.len() - take + j], content_width))
}

/// Trims the stage texts to the input window: the last ones that fit in
/// its height, each cut to the content width.
pub fn search_lines_display_format(input_window_height: u32, search_lines: &Vec<String>, content_width: u32) -> (r: Vec<String>)
    ensures
        strings_view(r@) == search_lines_shown(
            input_window_height as int,
            strings_view(search_lines@),
            content_width as int,
        ),
{
    let n = search_lines.len();
    let room = input_window_height.saturating_sub(2);
    let take: usize = if (room as u64) < (n as u64) { room as usize } else { n };
    let ghost want = search_lines_shown(input_window_height as int, strings_view(search_lines@), content_width as int);
    let mut out: Vec<String> = Vec::new();
    let mut j: usize = 0;
    while j < take
        invariant
            take <= n == search_lines@.len(),
            want.len() == take,
            want == search_lines_shown(input_window_height as int, strings_view(search_lines@), content_width as int),
            0 <= j <= take,
            out@.len() == j,
            forall|k: int| 0 <= k < j ==> (#[trigger] out@[k])@ == want[k],
        decreases take - j,
    {
        let t = truncate_chars(search_lines[n - take + j].as_str(), content_width);
        out.push(t);
        j = j + 1;
    }
    assert(strings_view(out@) =~= want);
    out
}

/// The status line before it is cut to the screen width.
pub open spec fn status_text(len: Len, pager_y: u32, pager_x: u32, context: u32) -> Seq<char> {
    "matchedLines"@ + match len {
        Len::Is(n) => "="@ + decimal(n as nat),
        Len::AtLeast(n) => ">"@ + decimal(n as nat),
    } + " pageY: "@ + decimal(pager_y as nat) + ", pageX: "@ + decimal(pager_x as nat) + ", context: "@
        + decimal(context as nat)
}

/// The status line: the output length (`=n` when exact, `>n` when a lower
/// bound), the scroll position and the context width.
fn status_line(len: &Len, pager_y: u32, pager_x: u32, context: u32) -> (r: String)
    ensures
        r@ == status_text(*len, pager_y, pager_x, context),
{
    let mut s = String::from_str("matchedLines");
    match len {
        Len::Is(n) => {
            s.append("=");
            push_decimal(&mut s, *n);
        },
        Len::AtLeast(n) => {
            s.append(">");
            push_decimal(&mut s, *n);
        },
    }
    s.append(" pageY: ");
    push_decimal(&mut s, pager_y);
    s.append(", pageX: ");
    push_decimal(&mut s, pager_x);
    s.append(", context: ");
    push_decimal(&mut s, context);
    s
}

/// `n` as a stage count for the layout functions: the same window heights
/// as the exact count.
fn stage_count_u32(n: usize) -> (r: u32)
    ensures
        forall|y: int| 0 <= y <= u32::MAX ==> #[trigger] input_window_height_of(y, r as int)
            == input_window_height_of(y, n as int),
{
    if n > u32::MAX as usize {
        u32::MAX
    } else {
        n as u32
    }
}

/// The frame `r` shows the given geometry and stages, the output lines
/// `out` realized so far (all of them where `exact`), and the status line.
pub open spec fn frame_ok(
    r: RenderState,
    regex_valid: bool,
    max_y: u32,
    max_x: u32,
    pager_y: u32,
    pager_x: u32,
    stage_texts: Seq<Seq<char>>,
    context: u32,
    out: Seq<LineView>,
    exact: bool,
) -> bool {
    let n = stage_texts.len() as int;
    let h = pager_content_height_of(pager_window_height_of(max_y as int, n));
    let (first, last) = shown_range(pager_y as int, h, out.len() as int);
    let len = if exact { Len::Is(out.len() as u32) } else { Len::AtLeast(out.len() as u32) };
    &&& r.regex_valid == regex_valid
    &&& r.max_y == max_y
    &&& r.max_x == max_x
    &&& r.input_window_height == input_window_height_of(max_y as int, n)
    &&& r.pager_window_height == pager_window_height_of(max_y as int, n)
    &&& strings_view(r.output_search_lines@) == search_lines_shown(
        input_window_height_of(max_y as int, n),
        stage_texts,
        content_width_of(max_x as int),
    )
    &&& display_view(r.output_display_lines@) == display_lines(
        out.subrange(first, last),
        pager_x as int,
        content_width_of(max_x as int),
        Palette { seen: Seq::empty(), next: 0 },
    ).0
    &&& r.status_line@ == truncated(status_text(len, pager_y, pager_x, context), max_x as int)
}

/// Everything that one frame shows: geometry, the stage texts, the visible
/// output lines laid out, and the status line cut to the screen width.
pub fn produce_render_state(
    regex_valid: bool,
    max_y: u32,
    max_x: u32,
    pager_y: u32,
    pager_x: u32,
    search_lines: &Vec<String>,
    context: u32,
    result_generator: &mut OutputGenerator,
) -> (r: RenderState)
    requires
        old(result_generator).wf(),
    ensures
        final(result_generator).wf(),
        final(result_generator).params() == old(result_generator).params(),
        final(result_generator).processed() == scan_stop(
            old(result_generator).params(),
            old(result_generator).processed(),
            chunk_end(sat_add(
                sat_add(
                    pager_y as int,
                    pager_content_height_of(pager_window_height_of(max_y as int, search_lines@.len() as int)),
                ),
                REQUEST_BUFFER_SIZE as int,
            ) as u32),
        ),
        frame_ok(
            r,
            regex_valid,
            max_y,
            max_x,
            pager_y,
            pager_x,
            strings_view(search_lines@),
            context,
            final(result_generator).output(),
            final(result_generator).processed() == final(result_generator).params().lines.len(),
        ),
{
    let n = stage_count_u32(search_lines.len());
    let input_height = input_window_height(max_y, n);
    let pager_height = pager_window_height(max_y, n);
    let content_height = pager_content_height(pager_height);
    let width = content_width(max_x);
    let output_display_lines = output_lines_display_format(pager_y, pager_x, width, content_height, result_generator);
    let len = result_generator.len();
    let status = status_line(&len, pager_y, pager_x, context);
    RenderState {
        regex_valid,
        max_y,
        max_x,
        input_window_height: input_height,
        pager_window_height: pager_height,
        output_search_lines: search_lines_display_format(input_height, search_lines, width),
        output_display_lines,
        status_line: truncate_chars(status.as_str(), max_x),
    }
}

} // verus!

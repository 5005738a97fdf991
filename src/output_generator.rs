//! The lazy matcher of one stage: it scans its input lines on demand and
//! keeps the matched lines, their context lines and break markers.
use vstd::prelude::*;
use vstd::string::*;
use std::collections::HashMap;
use crate::layout::{sat_sub, spec_min};
use crate::pattern::{Pattern, regex_spans, spans_well_formed, utf8_of};
use crate::types::{Line, LineView, LineWithMatches, MatchPosition, copy_matches, spans_of};

verus! {

broadcast use vstd::std_specs::hash::group_hash_axioms;

/// An output length: exact once the input is scanned to its end, otherwise a
/// lower bound.
#[derive(Debug, PartialEq, Eq, Structural)]
pub enum Len {
    Is(u32),
    AtLeast(u32),
}

/// Lines are scanned in chunks of this many output lines.
pub const REQUEST_CHUNK_SIZE: u32 = 1000;

/// What a matcher scans and how.
pub struct ScanParams {
    pub lines: Seq<Seq<char>>,
    pub pattern: Seq<char>,
    pub search_line_empty: bool,
    pub context: int,
    pub inverted: bool,
}

/// A retained line with its spans.
pub open spec fn content(text: Seq<char>, spans: Seq<(int, int)>) -> LineView {
    LineView::Content { text, spans }
}

/// The context lines around a match at line `i` that `d` does not hold yet,
/// and a break marker just before them where that place is free.
pub open spec fn context_additions(p: ScanParams, d: Map<usize, LineView>, i: int) -> Map<usize, LineView> {
    let first = sat_sub(i, p.context);
    let last = spec_min(p.lines.len() as int, i + p.context + 1);
    let fill = Map::new(
        |k: usize| first <= k < last && !d.contains_key(k),
        |k: usize| content(p.lines[k as int], Seq::empty()),
    );
    if p.context == 0 {
        Map::empty()
    } else if first > 0 && !d.contains_key((first - 1) as usize) {
        fill.insert((first - 1) as usize, LineView::Break)
    } else {
        fill
    }
}

/// What scanning line `i` does to the index `d`: an inverted stage keeps the
/// line with one empty span where its pattern is empty or finds nothing; a
/// plain stage keeps a line with matches, and its context; any other line is
/// dropped.
pub open spec fn scan_step(p: ScanParams, d: Map<usize, LineView>, i: int) -> Map<usize, LineView> {
    let spans = regex_spans(p.pattern, p.lines[i]);
    if p.inverted && (p.search_line_empty || spans.len() == 0) {
        d.insert(i as usize, content(p.lines[i], seq![(0int, 0int)]))
    } else if !p.inverted && spans.len() > 0 {
        let d1 = d.insert(i as usize, content(p.lines[i], spans));
        d1.union_prefer_right(context_additions(p, d1, i))
    } else {
        d
    }
}

/// The index after the first `k` lines are scanned.
pub open spec fn index_after(p: ScanParams, k: nat) -> Map<usize, LineView>
    decreases k,
{
    if k == 0 {
        Map::empty()
    } else {
        scan_step(p, index_after(p, (k - 1) as nat), k - 1)
    }
}

/// The entries of `d` with keys below `n`, in key order.
pub open spec fn ordered(d: Map<usize, LineView>, n: nat) -> Seq<LineView>
    decreases n,
{
    if n == 0 {
        Seq::empty()
    } else {
        ordered(d, (n - 1) as nat) + if d.contains_key((n - 1) as usize) {
            seq![d[(n - 1) as usize]]
        } else {
            Seq::empty()
        }
    }
}

/// The output after the first `k` lines are scanned.
pub open spec fn output_after(p: ScanParams, k: nat) -> Seq<LineView> {
    ordered(index_after(p, k), p.lines.len())
}

/// Where a request for `end` output lines stops scanning, from `k` lines
/// scanned: at the first point where the index holds `end` entries or the
/// input is exhausted.
pub open spec fn scan_stop(p: ScanParams, k: nat, end: int) -> nat
    decreases p.lines.len() - k,
{
    if k >= p.lines.len() || index_after(p, k).len() >= end {
        k
    } else {
        scan_stop(p, k + 1, end)
    }
}

/// The number of output lines that a request for `n` aims at: `n` rounded
/// down to a chunk and one chunk added, saturating.
pub open spec fn chunk_end(n: u32) -> int {
    let r = n as int - (n as int) % (REQUEST_CHUNK_SIZE as int) + REQUEST_CHUNK_SIZE as int;
    if r > u32::MAX { u32::MAX as int } else { r }
}

/// The longest byte length among the first `k` lines.
pub open spec fn widest(lines: Seq<Seq<char>>, k: nat) -> int
    decreases k,
{
    if k == 0 {
        0
    } else {
        let w = widest(lines, (k - 1) as nat);
        let b = utf8_of(lines[k - 1]).len() as int;
        if b > w { b } else { w }
    }
}

/// The texts of the retained lines, break markers left out.
pub open spec fn texts_of(v: Seq<LineView>) -> Seq<Seq<char>>
    decreases v.len(),
{
    if v.len() == 0 {
        Seq::empty()
    } else {
        texts_of(v.drop_last()) + match v.last() {
            LineView::Content { text, spans } => seq![text],
            LineView::Break => Seq::empty(),
        }
    }
}

/// Lines joined with newlines between them.
pub open spec fn joined(v: Seq<Seq<char>>) -> Seq<char>
    decreases v.len(),
{
    if v.len() == 0 {
        Seq::empty()
    } else if v.len() == 1 {
        v[0]
    } else {
        joined(v.drop_last()) + seq!['\n'] + v.last()
    }
}

/// The views of a sequence of lines.
pub open spec fn lines_view(v: Seq<Line>) -> Seq<LineView> {
    v.map_values(|l: Line| l@)
}

/// The views of a vector of strings.
pub open spec fn strings_view(v: Seq<String>) -> Seq<Seq<char>> {
    v.map_values(|s: String| s@)
}

/// Every key of the index lies below `min(#lines, k + context)`, or below `k`
/// where the context is zero.
pub proof fn lemma_index_keys(p: ScanParams, k: nat)
    requires
        k <= p.lines.len(),
        p.lines.len() <= usize::MAX,
        p.context >= 0,
    ensures
        forall|key: usize| #[trigger] index_after(p, k).contains_key(key) ==> key < k + p.context && key
            < p.lines.len() && (p.context == 0 ==> key < k),
    decreases k,
{
    if k > 0 {
        let i = k - 1;
        lemma_index_keys(p, i as nat);
        let d = index_after(p, i as nat);
        let spans = regex_spans(p.pattern, p.lines[i]);
        if !p.inverted && spans.len() > 0 {
            let d1 = d.insert(i as usize, content(p.lines[i], spans));
            let add = context_additions(p, d1, i);
            assert forall|key: usize| #[trigger] add.contains_key(key) implies key < k + p.context && key
                < p.lines.len() && (p.context == 0 ==> key < k) by {
            }
        }
    }
}

/// Entries with keys at or beyond `a` do not change the ordered output below `a`,
/// and keys missing in `[a, b)` add nothing.
pub proof fn lemma_ordered_gap(d: Map<usize, LineView>, a: nat, b: nat)
    requires
        a <= b <= usize::MAX,
        forall|key: usize| a <= key < b ==> !#[trigger] d.contains_key(key),
    ensures
        ordered(d, a) == ordered(d, b),
    decreases b - a,
{
    if a < b {
        lemma_ordered_gap(d, a, (b - 1) as nat);
        assert(!d.contains_key((b - 1) as usize));
        assert(ordered(d, b) =~= ordered(d, (b - 1) as nat));
    }
}

/// The ordered output has at most one entry per key.
pub proof fn lemma_ordered_len(d: Map<usize, LineView>, n: nat)
    ensures
        ordered(d, n).len() <= n,
    decreases n,
{
    if n > 0 {
        lemma_ordered_len(d, (n - 1) as nat);
    }
}

/// Two indexes that agree below `n` give the same ordered output below `n`.
proof fn lemma_ordered_agree(d: Map<usize, LineView>, e: Map<usize, LineView>, n: nat)
    requires
        n <= usize::MAX + 1,
        forall|key: usize| key < n ==> (d.contains_key(key) <==> #[trigger] e.contains_key(key)),
        forall|key: usize| key < n && d.contains_key(key) ==> d[key] == #[trigger] e[key],
    ensures
        ordered(d, n) == ordered(e, n),
    decreases n,
{
    if n > 0 {
        lemma_ordered_agree(d, e, (n - 1) as nat);
        assert(e.contains_key((n - 1) as usize) == d.contains_key((n - 1) as usize));
    }
}

/// Where every key lies below `n`, the ordered output has one line per
/// entry of the index.
pub proof fn lemma_ordered_len_eq(d: Map<usize, LineView>, n: nat)
    requires
        n <= usize::MAX + 1,
        forall|key: usize| #[trigger] d.contains_key(key) ==> key < n,
    ensures
        d.dom().finite(),
        ordered(d, n).len() == d.len(),
    decreases n,
{
    if n == 0 {
        assert(d.dom() =~= Set::<usize>::empty());
    } else {
        let k = (n - 1) as usize;
        let e = d.remove(k);
        lemma_ordered_len_eq(e, (n - 1) as nat);
        lemma_ordered_agree(d, e, (n - 1) as nat);
        if d.contains_key(k) {
            assert(d.dom() =~= e.dom().insert(k));
            d.lemma_remove_key_len(k);
        } else {
            assert(d.dom() =~= e.dom());
            assert(d =~= e);
        }
    }
}

/// After a request, either all input is scanned or at least the requested
/// number of lines (rounded to a chunk) is realized.
pub proof fn lemma_request_reaches(p: ScanParams, k: nat, n: u32)
    requires
        k <= p.lines.len() <= u32::MAX,
        p.context >= 0,
    ensures
        scan_stop(p, k, chunk_end(n)) == p.lines.len()
            || output_after(p, scan_stop(p, k, chunk_end(n))).len() >= chunk_end(n) >= n,
{
    lemma_scan_stop_reached(p, k, chunk_end(n));
    let s = scan_stop(p, k, chunk_end(n));
    lemma_scan_stop_le(p, k, chunk_end(n));
    lemma_index_keys(p, s);
    lemma_ordered_len_eq(index_after(p, s), p.lines.len());
    assert(chunk_end(n) >= n) by {
        assert((n as int) % 1000 < 1000);
    }
}

/// A request never scans past the input.
proof fn lemma_scan_stop_le(p: ScanParams, k: nat, end: int)
    requires
        k <= p.lines.len(),
    ensures
        k <= scan_stop(p, k, end) <= p.lines.len(),
    decreases p.lines.len() - k,
{
    if !(k >= p.lines.len() || index_after(p, k).len() >= end) {
        lemma_scan_stop_le(p, k + 1, end);
    }
}

/// An inverted stage with empty pattern text: a request for at least as
/// many lines as the input holds scans all of it, and the output then has
/// one line per input line.
pub proof fn lemma_inverted_empty_request(p: ScanParams, k: nat, n: u32)
    requires
        p.inverted,
        p.search_line_empty,
        p.context >= 0,
        k <= p.lines.len() <= u32::MAX,
        n >= p.lines.len(),
    ensures
        scan_stop(p, k, chunk_end(n)) == p.lines.len(),
        output_after(p, p.lines.len()).len() == p.lines.len(),
{
    lemma_request_reaches(p, k, n);
    let s = scan_stop(p, k, chunk_end(n));
    lemma_scan_stop_le(p, k, chunk_end(n));
    lemma_inverted_empty_keeps_every_line(p, s);
    lemma_inverted_empty_keeps_every_line(p, p.lines.len());
}

/// The same kind of line, with the same text where it is retained text.
pub open spec fn same_shape(a: LineView, b: LineView) -> bool {
    match (a, b) {
        (LineView::Break, LineView::Break) => true,
        (LineView::Content { text: t1, spans: s1 }, LineView::Content { text: t2, spans: s2 }) => t1 == t2,
        _ => false,
    }
}

/// What holds of the index after `k` lines: retained text is the text of its
/// input line, break markers lie before line `k`, an inverted stage holds
/// only scanned lines, and a plain stage holds every line from `k - c - 1`
/// up to any key it holds.
spec fn index_shape(p: ScanParams, d: Map<usize, LineView>, k: int) -> bool {
    &&& forall|y: usize| #[trigger] d.contains_key(y) ==> match d[y] {
        LineView::Content { text, spans } => text == p.lines[y as int],
        LineView::Break => y < k,
    }
    &&& p.inverted ==> forall|y: usize| #[trigger] d.contains_key(y) ==> y < k
    &&& !p.inverted ==> forall|y: usize, z: usize|
        #[trigger] d.contains_key(y) && k - p.context - 1 <= z <= y ==> #[trigger] d.contains_key(z)
}

/// The index after `k2` lines keeps every entry of the index after `k1`
/// lines, with the same shape, and adds only keys beyond all of them.
spec fn index_grows(d1: Map<usize, LineView>, d2: Map<usize, LineView>) -> bool {
    &&& forall|y: usize| #[trigger] d1.contains_key(y) ==> d2.contains_key(y) && same_shape(d1[y], d2[y])
    &&& forall|x: usize, y: usize| #[trigger] d2.contains_key(x) && !d1.contains_key(x) && #[trigger] d1.contains_key(y) ==> y < x
}

proof fn lemma_step_shape(p: ScanParams, k: nat)
    requires
        k < p.lines.len() <= usize::MAX,
        p.context >= 0,
        index_shape(p, index_after(p, k), k as int),
    ensures
        index_shape(p, index_after(p, k + 1), (k + 1) as int),
        index_grows(index_after(p, k), index_after(p, k + 1)),
{
    let d = index_after(p, k);
    let d2 = index_after(p, k + 1);
    lemma_index_keys(p, k + 1);
    assert(d2 == scan_step(p, d, k as int));
    let spans = regex_spans(p.pattern, p.lines[k as int]);
    if !p.inverted && spans.len() > 0 {
        let d1 = d.insert(k as usize, content(p.lines[k as int], spans));
        let add = context_additions(p, d1, k as int);
        assert(d2 == d1.union_prefer_right(add));
        assert forall|y: usize| #[trigger] d2.contains_key(y) implies match d2[y] {
            LineView::Content { text, spans } => text == p.lines[y as int],
            LineView::Break => y < k + 1,
        } by {
            if add.contains_key(y) {
            } else if y == k {
            } else {
                assert(d.contains_key(y));
            }
        }
        assert forall|y: usize, z: usize| #[trigger] d2.contains_key(y) && k + 1 - p.context - 1 <= z <= y
            implies #[trigger] d2.contains_key(z) by {
            if !d1.contains_key(z) {
                assert(add.contains_key(z));
            }
        }
        assert forall|y: usize| #[trigger] d.contains_key(y) implies d2.contains_key(y) && same_shape(d[y], d2[y]) by {
            if y == k {
                assert(d[y] is Content);
            } else {
                assert(!add.contains_key(y));
            }
        }
        assert forall|x: usize, y: usize| #[trigger] d2.contains_key(x) && !d.contains_key(x) && #[trigger] d.contains_key(y)
            implies y < x by {
            if x <= y {
                assert(k - p.context - 1 <= x);
                assert(d.contains_key(x));
            }
        }
    } else if p.inverted && (p.search_line_empty || spans.len() == 0) {
        assert forall|y: usize| #[trigger] d2.contains_key(y) implies match d2[y] {
            LineView::Content { text, spans } => text == p.lines[y as int],
            LineView::Break => y < k + 1,
        } by {
            if y != k {
                assert(d.contains_key(y));
            }
        }
        assert forall|y: usize| #[trigger] d.contains_key(y) implies d2.contains_key(y) && same_shape(d[y], d2[y]) by {
            assert(y < k);
        }
    } else {
        assert(d2 == d);
    }
}

proof fn lemma_shape_grows(p: ScanParams, k1: nat, k2: nat)
    requires
        k1 <= k2 <= p.lines.len() <= usize::MAX,
        p.context >= 0,
    ensures
        index_shape(p, index_after(p, k2), k2 as int),
        index_grows(index_after(p, k1), index_after(p, k2)),
    decreases k2,
{
    if k2 == 0 {
        assert(index_after(p, 0) =~= Map::<usize, LineView>::empty());
    } else if k1 == k2 {
        lemma_shape_grows(p, (k2 - 1) as nat, (k2 - 1) as nat);
        lemma_step_shape(p, (k2 - 1) as nat);
    } else {
        lemma_shape_grows(p, k1, (k2 - 1) as nat);
        lemma_step_shape(p, (k2 - 1) as nat);
        let d1 = index_after(p, k1);
        let dm = index_after(p, (k2 - 1) as nat);
        let d2 = index_after(p, k2);
        assert forall|y: usize| #[trigger] d1.contains_key(y) implies d2.contains_key(y) && same_shape(d1[y], d2[y]) by {
            assert(dm.contains_key(y));
        }
        assert forall|x: usize, y: usize| #[trigger] d2.contains_key(x) && !d1.contains_key(x) && #[trigger] d1.contains_key(y)
            implies y < x by {
            assert(dm.contains_key(y));
            if dm.contains_key(x) {
            }
        }
    }
}

proof fn lemma_ordered_same_len(d1: Map<usize, LineView>, d2: Map<usize, LineView>, n: nat)
    requires
        n <= usize::MAX + 1,
        forall|key: usize| key < n ==> (d1.contains_key(key) <==> #[trigger] d2.contains_key(key)),
    ensures
        ordered(d1, n).len() == ordered(d2, n).len(),
    decreases n,
{
    if n > 0 {
        lemma_ordered_same_len(d1, d2, (n - 1) as nat);
        assert(d1.contains_key((n - 1) as usize) == d2.contains_key((n - 1) as usize));
    }
}

proof fn lemma_ordered_grows(d1: Map<usize, LineView>, d2: Map<usize, LineView>, n: nat)
    requires
        n <= usize::MAX + 1,
        index_grows(d1, d2),
    ensures
        ordered(d1, n).len() <= ordered(d2, n).len(),
        forall|j: int| 0 <= j < ordered(d1, n).len() ==> same_shape(#[trigger] ordered(d1, n)[j], ordered(d2, n)[j]),
    decreases n,
{
    if n > 0 {
        let m = (n - 1) as nat;
        lemma_ordered_grows(d1, d2, m);
        let x = m as usize;
        let o1 = ordered(d1, n);
        let o2 = ordered(d2, n);
        if d1.contains_key(x) {
            assert forall|key: usize| key < m implies (d1.contains_key(key) <==> #[trigger] d2.contains_key(key)) by {
                if d2.contains_key(key) && !d1.contains_key(key) {
                    assert(x < key);
                }
            }
            lemma_ordered_same_len(d1, d2, m);
        }
        assert forall|j: int| 0 <= j < o1.len() implies same_shape(#[trigger] o1[j], o2[j]) by {
            if j < ordered(d1, m).len() {
                assert(o1[j] == ordered(d1, m)[j]);
                assert(o2[j] == ordered(d2, m)[j]);
            }
        }
    }
}

/// Scanning further never changes the output already realized: every line
/// realized after `k1` input lines stays in place, of the same kind and with
/// the same text, once `k2 >= k1` lines are scanned (a context line may gain
/// spans of its own).
pub proof fn lemma_output_prefix_stable(p: ScanParams, k1: nat, k2: nat)
    requires
        k1 <= k2 <= p.lines.len() <= usize::MAX,
        p.context >= 0,
    ensures
        output_after(p, k1).len() <= output_after(p, k2).len(),
        forall|j: int| 0 <= j < output_after(p, k1).len() ==> same_shape(
            #[trigger] output_after(p, k1)[j],
            output_after(p, k2)[j],
        ),
{
    lemma_shape_grows(p, k1, k2);
    lemma_ordered_grows(index_after(p, k1), index_after(p, k2), p.lines.len());
}

/// Where a request stops, the index holds `end` entries or all input is
/// scanned.
pub proof fn lemma_scan_stop_reached(p: ScanParams, k: nat, end: int)
    requires
        k <= p.lines.len(),
    ensures
        scan_stop(p, k, end) == p.lines.len() || index_after(p, scan_stop(p, k, end)).len() >= end,
    decreases p.lines.len() - k,
{
    if !(k >= p.lines.len() || index_after(p, k).len() >= end) {
        lemma_scan_stop_reached(p, k + 1, end);
    }
}

/// Asking again for no more output lines than before leaves the matcher where
/// it stands: the output already realized does not change.
pub proof fn lemma_request_idempotent(p: ScanParams, k: nat, n: u32, m: u32)
    requires
        k <= p.lines.len(),
        m <= n,
    ensures
        scan_stop(p, scan_stop(p, k, chunk_end(n)), chunk_end(m)) == scan_stop(p, k, chunk_end(n)),
        output_after(p, scan_stop(p, scan_stop(p, k, chunk_end(n)), chunk_end(m)))
            == output_after(p, scan_stop(p, k, chunk_end(n))),
    decreases p.lines.len() - k,
{
    assert(chunk_end(m) <= chunk_end(n)) by {
        assert(m as int - (m as int) % 1000 <= n as int - (n as int) % 1000) by (nonlinear_arith)
            requires
                m <= n,
        ;
    }
    if !(k >= p.lines.len() || index_after(p, k).len() >= chunk_end(n)) {
        lemma_request_idempotent(p, k + 1, n, m);
    }
}

/// The index of an inverted stage with empty pattern text after `k` lines:
/// every one of them, with one empty span.
pub open spec fn all_kept(p: ScanParams, k: nat) -> Map<usize, LineView> {
    Map::new(|key: usize| key < k, |key: usize| content(p.lines[key as int], seq![(0int, 0int)]))
}

proof fn lemma_inverted_empty_index(p: ScanParams, k: nat)
    requires
        p.inverted,
        p.search_line_empty,
        k <= p.lines.len() <= usize::MAX,
    ensures
        index_after(p, k) == all_kept(p, k),
    decreases k,
{
    if k > 0 {
        lemma_inverted_empty_index(p, (k - 1) as nat);
        assert(index_after(p, k) =~= all_kept(p, k));
    } else {
        assert(index_after(p, k) =~= all_kept(p, k));
    }
}

proof fn lemma_ordered_all_kept(p: ScanParams, k: nat, n: nat)
    requires
        n <= k <= p.lines.len() <= usize::MAX,
    ensures
        ordered(all_kept(p, k), n) == Seq::new(n, |i: int| content(p.lines[i], seq![(0int, 0int)])),
    decreases n,
{
    if n > 0 {
        lemma_ordered_all_kept(p, k, (n - 1) as nat);
        assert(ordered(all_kept(p, k), n) =~= Seq::new(n, |i: int| content(p.lines[i], seq![(0int, 0int)])));
    } else {
        assert(ordered(all_kept(p, k), n) =~= Seq::new(n, |i: int| content(p.lines[i], seq![(0int, 0int)])));
    }
}

/// An inverted stage with empty pattern text drops no line: after `k` lines
/// are scanned, the output is those lines, in order, each with exactly one
/// zero-length span.
pub proof fn lemma_inverted_empty_keeps_every_line(p: ScanParams, k: nat)
    requires
        p.inverted,
        p.search_line_empty,
        k <= p.lines.len() <= usize::MAX,
    ensures
        output_after(p, k) == Seq::new(k, |i: int| content(p.lines[i], seq![(0int, 0int)])),
{
    lemma_inverted_empty_index(p, k);
    lemma_ordered_gap(all_kept(p, k), k, p.lines.len());
    lemma_ordered_all_kept(p, k, k);
}

proof fn lemma_no_match_index(p: ScanParams, k: nat)
    requires
        !p.inverted,
        forall|i: int| 0 <= i < p.lines.len() ==> (#[trigger] regex_spans(p.pattern, p.lines[i])).len() == 0,
        k <= p.lines.len(),
    ensures
        index_after(p, k) == Map::<usize, LineView>::empty(),
    decreases k,
{
    if k > 0 {
        lemma_no_match_index(p, (k - 1) as nat);
        assert(regex_spans(p.pattern, p.lines[k - 1]).len() == 0);
    }
}

/// A plain stage whose pattern matches no line has empty output, however far
/// the scan has gone.
pub proof fn lemma_no_match_no_output(p: ScanParams, k: nat)
    requires
        !p.inverted,
        forall|i: int| 0 <= i < p.lines.len() ==> (#[trigger] regex_spans(p.pattern, p.lines[i])).len() == 0,
        k <= p.lines.len() <= usize::MAX,
    ensures
        output_after(p, k) == Seq::<LineView>::empty(),
{
    lemma_no_match_index(p, k);
    lemma_ordered_gap(Map::<usize, LineView>::empty(), 0, p.lines.len());
}

/// Every retained text in the index is short enough to count in `u32`.
pub open spec fn index_texts_fit(d: Map<usize, LineView>) -> bool {
    forall|key: usize| #[trigger] d.contains_key(key) ==> match d[key] {
        LineView::Content { text, spans } => utf8_of(text).len() <= u32::MAX,
        LineView::Break => true,
    }
}

/// Every retained text in the sequence is short enough to count in `u32`.
pub open spec fn line_texts_fit(v: Seq<LineView>) -> bool {
    forall|j: int| 0 <= j < v.len() ==> match #[trigger] v[j] {
        LineView::Content { text, spans } => utf8_of(text).len() <= u32::MAX,
        LineView::Break => true,
    }
}

proof fn lemma_index_texts_fit(p: ScanParams, k: nat)
    requires
        input_fits(p.lines),
        k <= p.lines.len(),
    ensures
        index_texts_fit(index_after(p, k)),
    decreases k,
{
    if k > 0 {
        lemma_index_texts_fit(p, (k - 1) as nat);
        assert(utf8_of(p.lines[k - 1]).len() <= u32::MAX);
        let d = index_after(p, (k - 1) as nat);
        let i = k - 1;
        let spans = regex_spans(p.pattern, p.lines[i]);
        if !p.inverted && spans.len() > 0 {
            let d1 = d.insert(i as usize, content(p.lines[i], spans));
            let add = context_additions(p, d1, i);
            assert forall|key: usize| #[trigger] add.contains_key(key) implies match add[key] {
                LineView::Content { text, spans } => utf8_of(text).len() <= u32::MAX,
                LineView::Break => true,
            } by {
                if add[key] is Content {
                    assert(utf8_of(p.lines[key as int]).len() <= u32::MAX);
                }
            }
        }
    }
}

proof fn lemma_ordered_fits(d: Map<usize, LineView>, n: nat)
    requires
        index_texts_fit(d),
    ensures
        line_texts_fit(ordered(d, n)),
    decreases n,
{
    if n > 0 {
        lemma_ordered_fits(d, (n - 1) as nat);
        let prev = ordered(d, (n - 1) as nat);
        let o = ordered(d, n);
        assert forall|j: int| 0 <= j < o.len() implies match #[trigger] o[j] {
            LineView::Content { text, spans } => utf8_of(text).len() <= u32::MAX,
            LineView::Break => true,
        } by {
            if j < prev.len() {
                assert(o[j] == prev[j]);
            } else {
                assert(d.contains_key((n - 1) as usize));
            }
        }
    }
}

proof fn lemma_texts_of_fit(v: Seq<LineView>)
    requires
        line_texts_fit(v),
    ensures
        texts_of(v).len() <= v.len(),
        forall|j: int| 0 <= j < texts_of(v).len() ==> utf8_of(#[trigger] texts_of(v)[j]).len() <= u32::MAX,
    decreases v.len(),
{
    if v.len() > 0 {
        assert(line_texts_fit(v.drop_last())) by {
            assert forall|j: int| 0 <= j < v.drop_last().len() implies match #[trigger] v.drop_last()[j] {
                LineView::Content { text, spans } => utf8_of(text).len() <= u32::MAX,
                LineView::Break => true,
            } by {
                assert(v.drop_last()[j] == v[j]);
            }
        }
        lemma_texts_of_fit(v.drop_last());
        let t = texts_of(v);
        let pt = texts_of(v.drop_last());
        assert(match v[v.len() - 1] {
            LineView::Content { text, spans } => utf8_of(text).len() <= u32::MAX,
            LineView::Break => true,
        });
        assert forall|j: int| 0 <= j < t.len() implies utf8_of(#[trigger] t[j]).len() <= u32::MAX by {
            if j < pt.len() {
                assert(t[j] == pt[j]);
            }
        }
    }
}

/// The texts that a stage passes on can themselves be scanned: no more lines
/// than its input, each no longer than `u32::MAX` bytes.
pub proof fn lemma_passed_texts_fit(p: ScanParams, k: nat)
    requires
        input_fits(p.lines),
        k <= p.lines.len(),
    ensures
        input_fits(texts_of(output_after(p, k))),
{
    lemma_index_texts_fit(p, k);
    lemma_ordered_fits(index_after(p, k), p.lines.len());
    lemma_ordered_len(index_after(p, k), p.lines.len());
    lemma_texts_of_fit(output_after(p, k));
}

/// A retained line whose spans lie in order on character boundaries of its
/// text, and whose text counts in `u32` bytes.
pub open spec fn entry_ok(l: LineView) -> bool {
    match l {
        LineView::Content { text, spans } => spans_well_formed(spans, text) && utf8_of(text).len() <= u32::MAX,
        LineView::Break => true,
    }
}

/// Every entry of the index is well formed.
pub open spec fn index_ok(d: Map<usize, LineView>) -> bool {
    forall|key: usize| #[trigger] d.contains_key(key) ==> entry_ok(d[key])
}

/// Every line of the sequence is well formed.
pub open spec fn lines_ok(v: Seq<LineView>) -> bool {
    forall|j: int| 0 <= j < v.len() ==> entry_ok(#[trigger] v[j])
}

proof fn lemma_ordered_ok(d: Map<usize, LineView>, n: nat)
    requires
        index_ok(d),
    ensures
        lines_ok(ordered(d, n)),
    decreases n,
{
    if n > 0 {
        lemma_ordered_ok(d, (n - 1) as nat);
        let prev = ordered(d, (n - 1) as nat);
        let o = ordered(d, n);
        assert forall|j: int| 0 <= j < o.len() implies entry_ok(#[trigger] o[j]) by {
            if j < prev.len() {
                assert(o[j] == prev[j]);
            } else {
                assert(d.contains_key((n - 1) as usize));
            }
        }
    }
}

/// The views of the entries of an index.
pub open spec fn index_view(m: Map<usize, Line>) -> Map<usize, LineView> {
    m.map_values(|l: Line| l@)
}

/// The generator of one stage's output. It scans its input lazily, in chunks.
#[derive(Debug)]
pub struct OutputGenerator {
    source_lines: Vec<String>,
    regex: Pattern,
    search_line_empty: bool,
    context: u32,
    inverted: bool,
    result: Vec<Line>,
    lines_processed: u32,
    widest_line_seen: u32,
    lines_with_match_ranges_dict: HashMap<usize, Line>,
}

/// Input that the generator can count in `u32`: at most `u32::MAX` lines, each
/// at most `u32::MAX` bytes long.
pub open spec fn input_fits(lines: Seq<Seq<char>>) -> bool {
    &&& lines.len() <= u32::MAX
    &&& forall|i: int| 0 <= i < lines.len() ==> utf8_of(#[trigger] lines[i]).len() <= u32::MAX
}

impl OutputGenerator {
    /// What this generator scans and how.
    pub closed spec fn params(&self) -> ScanParams {
        ScanParams {
            lines: strings_view(self.source_lines@),
            pattern: self.regex@,
            search_line_empty: self.search_line_empty,
            context: self.context as int,
            inverted: self.inverted,
        }
    }

    /// How many input lines have been scanned.
    pub closed spec fn processed(&self) -> nat {
        self.lines_processed as nat
    }

    /// The output realized so far.
    pub closed spec fn output(&self) -> Seq<LineView> {
        lines_view(self.result@)
    }

    /// The index, with the widest line, is that of the first `processed` lines.
    closed spec fn index_wf(&self) -> bool {
        &&& input_fits(self.params().lines)
        &&& self.lines_processed <= self.source_lines@.len()
        &&& index_view(self.lines_with_match_ranges_dict@) == index_after(self.params(), self.processed())
        &&& self.widest_line_seen == widest(self.params().lines, self.processed())
        &&& index_ok(index_view(self.lines_with_match_ranges_dict@))
    }

    pub closed spec fn wf(&self) -> bool {
        &&& self.index_wf()
        &&& lines_ok(self.output())
        &&& self.output() == output_after(self.params(), self.processed())
        &&& self.result@.len() <= u32::MAX
    }

    /// The length that [`Self::len`] reports.
    pub open spec fn len_of(&self) -> Len {
        if self.processed() == self.params().lines.len() {
            Len::Is(self.output().len() as u32)
        } else {
            Len::AtLeast(self.output().len() as u32)
        }
    }

    pub fn new(
        source_lines: Vec<String>,
        regex: Pattern,
        search_line_empty: bool,
        context: u32,
        inverted: bool,
    ) -> (r: OutputGenerator)
        requires
            input_fits(strings_view(source_lines@)),
        ensures
            r.wf(),
            r.params() == (ScanParams {
                lines: strings_view(source_lines@),
                pattern: regex@,
                search_line_empty,
                context: context as int,
                inverted,
            }),
            r.processed() == 0,
    {
        let r = OutputGenerator {
            source_lines,
            regex,
            search_line_empty,
            context,
            inverted,
            lines_with_match_ranges_dict: HashMap::new(),
            lines_processed: 0,
            widest_line_seen: 0,
            result: Vec::new(),
        };
        proof {
            assert(index_view(r.lines_with_match_ranges_dict@) =~= index_after(r.params(), 0));
            lemma_ordered_gap(index_after(r.params(), 0), 0, r.params().lines.len());
            assert(r.output() =~= output_after(r.params(), 0));
            assert(index_view(r.lines_with_match_ranges_dict@) =~= Map::<usize, LineView>::empty());
        }
        r
    }

    /// The number of output lines realized so far.
    pub fn len_simple(&self) -> (r: u32)
        requires
            self.wf(),
        ensures
            r == self.output().len(),
    {
        self.result.len() as u32
    }

    /// The output length: exact once all input is scanned, else a lower bound.
    pub fn len(&self) -> (r: Len)
        requires
            self.wf(),
        ensures
            r == self.len_of(),
    {
        if self.lines_processed as usize == self.source_lines.len() {
            Len::Is(self.result.len() as u32)
        } else {
            Len::AtLeast(self.result.len() as u32)
        }
    }

    /// The widest line (in bytes) among those scanned.
    pub fn widest_line_seen_so_far(&self) -> (r: u32)
        requires
            self.wf(),
        ensures
            r == widest(self.params().lines, self.processed()),
    {
        self.widest_line_seen
    }

    /// Adds the context lines around a match at line `i`, and a break marker
    /// before them where that place is free.
    fn add_context_lines(&mut self, i: usize)
        requires
            i < old(self).source_lines@.len(),
            old(self).source_lines@.len() <= u32::MAX,
        ensures
            index_view(final(self).lines_with_match_ranges_dict@) == index_view(
                old(self).lines_with_match_ranges_dict@,
            ).union_prefer_right(
                context_additions(old(self).params(), index_view(old(self).lines_with_match_ranges_dict@), i as int),
            ),
            final(self).source_lines == old(self).source_lines,
            final(self).regex == old(self).regex,
            final(self).search_line_empty == old(self).search_line_empty,
            final(self).context == old(self).context,
            final(self).inverted == old(self).inverted,
            final(self).lines_processed == old(self).lines_processed,
            final(self).widest_line_seen == old(self).widest_line_seen,
            final(self).result == old(self).result,
    {
        let ghost p = self.params();
        let ghost d0 = index_view(self.lines_with_match_ranges_dict@);
        if self.context == 0 {
            assert(index_view(self.lines_with_match_ranges_dict@) =~= d0.union_prefer_right(
                context_additions(p, d0, i as int),
            ));
            return;
        }
        let c = self.context as usize;
        let first: usize = if i > c { i - c } else { 0 };
        let n = self.source_lines.len();
        let last: usize = if (i as u64) + (c as u64) + 1 < n as u64 { i + c + 1 } else { n };
        let ghost fill = Map::new(
            |k: usize| first <= k < last && !d0.contains_key(k),
            |k: usize| content(p.lines[k as int], Seq::empty()),
        );
        let ghost base = if first > 0 && !d0.contains_key((first - 1) as usize) {
            d0.insert((first - 1) as usize, LineView::Break)
        } else {
            d0
        };
        if first > 0 && !self.lines_with_match_ranges_dict.contains_key(&(first - 1)) {
            self.lines_with_match_ranges_dict.insert(first - 1, Line::BreakLine);
        }
        assert(index_view(self.lines_with_match_ranges_dict@) =~= base);
        let mut k: usize = first;
        while k < last
            invariant
                first <= k <= last <= n,
                n == self.source_lines@.len(),
                p == self.params(),
                self.source_lines == old(self).source_lines,
                self.regex == old(self).regex,
                self.search_line_empty == old(self).search_line_empty,
                self.context == old(self).context,
                self.inverted == old(self).inverted,
                self.lines_processed == old(self).lines_processed,
                self.widest_line_seen == old(self).widest_line_seen,
                self.result == old(self).result,
                forall|key: usize| first <= key ==> (base.contains_key(key) <==> #[trigger] d0.contains_key(key)),
                index_view(self.lines_with_match_ranges_dict@) == base.union_prefer_right(
                    Map::new(
                        |key: usize| first <= key < k && !d0.contains_key(key),
                        |key: usize| content(p.lines[key as int], Seq::empty()),
                    ),
                ),
            decreases last - k,
        {
            let ghost before = index_view(self.lines_with_match_ranges_dict@);
            assert(self.lines_with_match_ranges_dict@.contains_key(k) == before.contains_key(k));
            assert(before.contains_key(k) == base.contains_key(k));
            assert(base.contains_key(k) == d0.contains_key(k));
            if !self.lines_with_match_ranges_dict.contains_key(&k) {
                assert(!d0.contains_key(k));
                let text = self.source_lines[k].clone();
                let empty: Vec<MatchPosition> = Vec::new();
                let line = Line::LineWithMatches(LineWithMatches { line: text, matches: empty });
                assert(spans_of(empty@) =~= Seq::<(int, int)>::empty());
                assert(p.lines[k as int] == text@);
                assert(line@ == content(p.lines[k as int], Seq::empty()));
                self.lines_with_match_ranges_dict.insert(k, line);
                assert(index_view(self.lines_with_match_ranges_dict@) =~= before.insert(
                    k,
                    content(p.lines[k as int], Seq::empty()),
                ));
            } else {
                assert(d0.contains_key(k));
            }
            let ghost k0 = k;
            k = k + 1;
            assert(Map::new(
                |key: usize| first <= key < k && !d0.contains_key(key),
                |key: usize| content(p.lines[key as int], Seq::empty()),
            ) =~= if d0.contains_key(k0) {
                Map::new(
                    |key: usize| first <= key < k0 && !d0.contains_key(key),
                    |key: usize| content(p.lines[key as int], Seq::empty()),
                )
            } else {
                Map::new(
                    |key: usize| first <= key < k0 && !d0.contains_key(key),
                    |key: usize| content(p.lines[key as int], Seq::empty()),
                ).insert(k0, content(p.lines[k0 as int], Seq::empty()))
            });
            assert(index_view(self.lines_with_match_ranges_dict@) =~= base.union_prefer_right(
                Map::new(
                    |key: usize| first <= key < k && !d0.contains_key(key),
                    |key: usize| content(p.lines[key as int], Seq::empty()),
                ),
            ));
        }
        assert(index_view(self.lines_with_match_ranges_dict@) =~= d0.union_prefer_right(
            context_additions(p, d0, i as int),
        ));
    }

    /// Scans the next input line into the index.
    fn scan_line(&mut self)
        requires
            old(self).index_wf(),
            old(self).lines_processed < old(self).source_lines@.len(),
        ensures
            final(self).index_wf(),
            final(self).params() == old(self).params(),
            final(self).processed() == old(self).processed() + 1,
            final(self).result == old(self).result,
    {
        let ghost p = self.params();
        let ghost d0 = index_view(self.lines_with_match_ranges_dict@);
        let i = self.lines_processed as usize;
        let line = self.source_lines[i].clone();
        assert(p.lines[i as int] == line@);
        let width = line.as_str().len();
        if width as u32 > self.widest_line_seen {
            self.widest_line_seen = width as u32;
        }
        let matches = self.regex.find_all(line.as_str());
        if self.inverted && (self.search_line_empty || matches.len() == 0) {
            let one = vec![MatchPosition { start: 0, end: 0 }];
            assert(spans_of(one@) =~= seq![(0int, 0int)]);
            self.lines_with_match_ranges_dict.insert(
                i,
                Line::LineWithMatches(LineWithMatches { line, matches: one }),
            );
            assert(index_view(self.lines_with_match_ranges_dict@) =~= scan_step(p, d0, i as int));
        } else if !self.inverted && matches.len() > 0 {
            self.lines_with_match_ranges_dict.insert(
                i,
                Line::LineWithMatches(LineWithMatches { line, matches }),
            );
            assert(index_view(self.lines_with_match_ranges_dict@) =~= d0.insert(
                i as usize,
                content(p.lines[i as int], regex_spans(p.pattern, p.lines[i as int])),
            ));
            self.add_context_lines(i);
        } else {
            assert(index_view(self.lines_with_match_ranges_dict@) =~= scan_step(p, d0, i as int));
        }
        proof {
            let d = index_view(self.lines_with_match_ranges_dict@);
            vstd::utf8::encode_utf8_valid_utf8(line@);
            assert forall|key: usize| #[trigger] d.contains_key(key) implies entry_ok(d[key]) by {
                if d0.contains_key(key) && d[key] == d0[key] {
                } else if key == i {
                } else {
                    assert(utf8_of(p.lines[key as int]).len() <= u32::MAX);
                    assert(spans_well_formed(Seq::<(int, int)>::empty(), p.lines[key as int]));
                }
            }
        }
        self.lines_processed = self.lines_processed + 1;
    }

    /// Rebuilds the realized output from the index, in line order.
    fn map_to_vec(&mut self)
        requires
            old(self).index_wf(),
        ensures
            final(self).wf(),
            final(self).params() == old(self).params(),
            final(self).processed() == old(self).processed(),
    {
        let ghost p = self.params();
        let ghost d = index_view(self.lines_with_match_ranges_dict@);
        let n = self.source_lines.len();
        let reach: u64 = self.lines_processed as u64 + self.context as u64;
        let bound: usize = if reach < n as u64 { reach as usize } else { n };
        let mut out: Vec<Line> = Vec::new();
        let mut k: usize = 0;
        while k < bound
            invariant
                0 <= k <= bound <= n,
                n == self.source_lines@.len(),
                d == index_view(self.lines_with_match_ranges_dict@),
                lines_view(out@) == ordered(d, k as nat),
            decreases bound - k,
        {
            let ghost prev = out@;
            match self.lines_with_match_ranges_dict.get(&k) {
                Some(l) => {
                    out.push(l.duplicate());
                    assert(lines_view(out@) =~= lines_view(prev) + seq![d[k]]);
                },
                None => {
                    assert(lines_view(out@) =~= lines_view(prev) + Seq::<LineView>::empty());
                },
            }
            k = k + 1;
        }
        proof {
            lemma_index_keys(p, self.processed());
            lemma_ordered_gap(d, bound as nat, n as nat);
            lemma_ordered_len(d, n as nat);
            lemma_ordered_ok(d, n as nat);
            assert(lines_view(out@).len() == out@.len());
        }
        self.result = out;
    }

    /// Scans until the index holds `end` entries or the input is exhausted.
    fn scan_to(&mut self, end: u64)
        requires
            old(self).wf(),
        ensures
            final(self).wf(),
            final(self).params() == old(self).params(),
            final(self).processed() == scan_stop(old(self).params(), old(self).processed(), end as int),
    {
        let ghost p = self.params();
        let ghost k0 = self.processed();
        while (self.lines_with_match_ranges_dict.len() as u64) < end
            && (self.lines_processed as usize) < self.source_lines.len()
            invariant
                self.index_wf(),
                self.params() == p,
                k0 <= self.processed() <= p.lines.len(),
                scan_stop(p, self.processed(), end as int) == scan_stop(p, k0, end as int),
            decreases p.lines.len() - self.processed(),
        {
            assert(index_view(self.lines_with_match_ranges_dict@).dom() =~= self.lines_with_match_ranges_dict@.dom());
            self.scan_line();
        }
        assert(index_view(self.lines_with_match_ranges_dict@).dom() =~= self.lines_with_match_ranges_dict@.dom());
        self.map_to_vec();
    }

    /// Scans all remaining input.
    fn scan_rest(&mut self)
        requires
            old(self).wf(),
        ensures
            final(self).wf(),
            final(self).params() == old(self).params(),
            final(self).processed() == old(self).params().lines.len(),
    {
        let ghost p = self.params();
        while (self.lines_processed as usize) < self.source_lines.len()
            invariant
                self.index_wf(),
                self.params() == p,
                self.processed() <= p.lines.len(),
            decreases p.lines.len() - self.processed(),
        {
            self.scan_line();
        }
        self.map_to_vec();
    }

    /// Asks for at least `requested` output lines: scanning goes on, in chunks,
    /// until the index holds `requested` rounded down to a chunk plus one
    /// chunk, or the input is exhausted. Returns the output length.
    pub fn request(&mut self, requested: u32) -> (r: Len)
        requires
            old(self).wf(),
        ensures
            final(self).wf(),
            final(self).params() == old(self).params(),
            final(self).processed() == scan_stop(old(self).params(), old(self).processed(), chunk_end(requested)),
            final(self).output() == output_after(final(self).params(), final(self).processed()),
            r == final(self).len_of(),
            final(self).processed() >= old(self).processed(),
            final(self).output().len() >= old(self).output().len(),
            forall|j: int| 0 <= j < old(self).output().len() ==> same_shape(
                #[trigger] old(self).output()[j],
                final(self).output()[j],
            ),
            old(self).params().inverted && old(self).params().search_line_empty && requested
                >= old(self).params().lines.len() ==> r == Len::Is(old(self).params().lines.len() as u32),
    {
        proof {
            if self.params().inverted && self.params().search_line_empty && requested >= self.params().lines.len() {
                lemma_inverted_empty_request(self.params(), self.processed(), requested);
            }
            lemma_scan_stop_le(self.params(), self.processed(), chunk_end(requested));
            lemma_output_prefix_stable(
                self.params(),
                self.processed(),
                scan_stop(self.params(), self.processed(), chunk_end(requested)),
            );
        }
        let end: u32 = (requested - requested % REQUEST_CHUNK_SIZE).saturating_add(REQUEST_CHUNK_SIZE);
        self.scan_to(end as u64);
        self.len()
    }

    /// Scans all input and returns the whole output.
    pub fn full_vec(&mut self) -> (r: &Vec<Line>)
        requires
            old(self).wf(),
        ensures
            final(self).wf(),
            final(self).params() == old(self).params(),
            final(self).processed() == old(self).params().lines.len(),
            lines_view(r@) == output_after(final(self).params(), final(self).processed()),
    {
        self.scan_rest();
        &self.result
    }

    /// Scans all input and returns the texts of the retained lines, in order,
    /// break markers left out: the input of the next stage.
    pub fn full_string_vec(&mut self) -> (r: Vec<String>)
        requires
            old(self).wf(),
        ensures
            final(self).wf(),
            final(self).params() == old(self).params(),
            final(self).processed() == old(self).params().lines.len(),
            strings_view(r@) == texts_of(output_after(final(self).params(), final(self).processed())),
    {
        self.scan_rest();
        let mut out: Vec<String> = Vec::new();
        let mut i: usize = 0;
        while i < self.result.len()
            invariant
                0 <= i <= self.result@.len(),
                strings_view(out@) == texts_of(lines_view(self.result@).subrange(0, i as int)),
            decreases self.result@.len() - i,
        {
            let ghost prev = out@;
            assert(lines_view(self.result@).subrange(0, i + 1).drop_last() =~= lines_view(self.result@).subrange(0, i as int));
            match &self.result[i] {
                Line::LineWithMatches(l) => {
                    out.push(l.line.clone());
                    assert(strings_view(out@) =~= strings_view(prev) + seq![l.line@]);
                },
                Line::BreakLine => {
                    assert(strings_view(out@) =~= strings_view(prev) + Seq::<Seq<char>>::empty());
                },
            }
            i = i + 1;
        }
        assert(lines_view(self.result@).subrange(0, i as int) =~= lines_view(self.result@));
        out
    }

    /// Scans all input and returns the retained texts joined by newlines.
    pub fn full_string(&mut self) -> (r: String)
        requires
            old(self).wf(),
        ensures
            final(self).wf(),
            final(self).params() == old(self).params(),
            final(self).processed() == old(self).params().lines.len(),
            r@ == joined(texts_of(output_after(final(self).params(), final(self).processed()))),
    {
        let texts = self.full_string_vec();
        join_lines(&texts)
    }

    /// The realized output lines `[start, end)`.
    pub fn slice(&self, start: u32, end: u32) -> (r: &[Line])
        requires
            self.wf(),
            start <= end <= self.output().len(),
        ensures
            lines_view(r@) == self.output().subrange(start as int, end as int),
    {
        let r = &self.result.as_slice()[start as usize..end as usize];
        assert(lines_view(r@) =~= lines_view(self.result@).subrange(start as int, end as int));
        r
    }

    /// A plain stage whose pattern matches no line reports an exact length of
    /// zero once all of its input is scanned.
    pub proof fn lemma_no_match_exact_zero(&self)
        requires
            self.wf(),
            !self.params().inverted,
            forall|i: int| 0 <= i < self.params().lines.len() ==> (#[trigger] regex_spans(
                self.params().pattern,
                self.params().lines[i],
            )).len() == 0,
            self.processed() == self.params().lines.len(),
        ensures
            self.len_of() == Len::Is(0),
    {
        lemma_no_match_no_output(self.params(), self.processed());
    }

    /// A well-formed generator has scanned no more lines than it has, and
    /// counts its input in `u32`.
    pub proof fn lemma_wf_bounds(&self)
        requires
            self.wf(),
        ensures
            self.processed() <= self.params().lines.len(),
            input_fits(self.params().lines),
            self.output() == output_after(self.params(), self.processed()),
            lines_ok(self.output()),
    {
    }
}

/// Joins lines with newlines between them.
pub fn join_lines(v: &Vec<String>) -> (r: String)
    ensures
        r@ == joined(strings_view(v@)),
{
    let mut r = String::new();
    let mut i: usize = 0;
    while i < v.len()
        invariant
            0 <= i <= v@.len(),
            r@ == joined(strings_view(v@).subrange(0, i as int)),
        decreases v@.len() - i,
    {
        let ghost prev = strings_view(v@).subrange(0, i as int);
        assert(strings_view(v@).subrange(0, i + 1).drop_last() =~= prev);
        if i > 0 {
            proof {
                reveal_strlit("\n");
            }
            r.append("\n");
        }
        r.append(v[i].as_str());
        proof {
            if i == 0 {
                assert(r@ =~= strings_view(v@).subrange(0, 1)[0]);
            } else {
                assert(r@ =~= joined(prev) + seq!['\n'] + v@[i as int]@);
            }
        }
        i = i + 1;
    }
    assert(strings_view(v@).subrange(0, i as int) =~= strings_view(v@));
    r
}

} // verus!

//! The decisions of the event loop: what a key does to the chain, and what
//! the loop has to do outside (quit, copy, open an editor).
use vstd::prelude::*;
use crate::grep::{construct_grep_line, grep_pipeline};
use crate::layout::{content_width_of, pager_content_height_of, pager_window_height_of};
use crate::layout::sat_add;
use crate::output_generator::{Len, lemma_request_reaches, chunk_end, input_fits, joined, output_after, scan_stop, strings_view, texts_of, widest};
use crate::stage_cache::{Core, chain_output, chain_params, lemma_chain_output_len, lemma_stage_lines_fit};
use crate::state::{
    ChainView, State, Stage, accepted, adjusted_context, clamp_scroll, reverted, set_last, stage_compiles,
    with_last,
};

verus! {

/// A message to the event loop.
pub enum Message {
    Character(i32),
    ReloadFile,
    ErrorMessage(String),
}

/// A message to the thread that reads keys.
pub enum CharRequesterMessage {
    ReadyToReceiveChar,
    Exit,
}

/// A key press, as the event loop hands it over.
#[derive(Debug, Clone, Copy, PartialEq, Eq)]
pub enum Key {
    Left,
    Right,
    Up,
    Down,
    PageUp,
    PageDown,
    HalfPageUp,
    HalfPageDown,
    /// The screen now has this many rows and columns.
    Resize(u32, u32),
    LessContext,
    MoreContext,
    Accept,
    Revert,
    ToggleCase,
    ToggleInverted,
    CopyGrep,
    CopyOutput,
    OpenEditor,
    Backspace,
    Quit,
    Char(char),
    Ignored,
}

/// What the event loop does after a key.
#[derive(Debug)]
pub enum Action {
    /// Render and wait for the next event.
    Continue,
    /// Restore the terminal and exit.
    Quit,
    /// Restore the terminal, copy this pipeline to the clipboard and exit.
    CopyGrep(String),
    /// Restore the terminal, copy this output to the clipboard and exit.
    CopyOutput(String),
    /// Restore the terminal, hand this output to the editor and exit.
    OpenEditor(String),
}

/// The chain with its vertical scroll offset moved by `amount`, against an
/// output of `count` lines.
pub open spec fn paged_y(v: ChainView, amount: int, count: int) -> ChainView {
    ChainView {
        pager_y: clamp_scroll(
            v.pager_y as int,
            amount,
            count,
            pager_content_height_of(pager_window_height_of(v.max_y as int, v.stages.len() as int)),
        ) as u32,
        ..v
    }
}

/// The chain with its horizontal scroll offset moved by `amount`, against a
/// widest line of `longest` cells.
pub open spec fn paged_x(v: ChainView, amount: int, longest: int) -> ChainView {
    ChainView {
        pager_x: clamp_scroll(v.pager_x as int, amount, longest, content_width_of(v.max_x as int)) as u32,
        ..v
    }
}

/// Where a vertical scroll aims: `pager_y + amount`, kept in `[0, u32::MAX]`.
pub open spec fn page_target(v: ChainView, amount: int) -> int {
    let t = v.pager_y + amount;
    if t < 0 { 0 } else if t > u32::MAX { u32::MAX as int } else { t }
}

/// How far the last stage has scanned after a vertical scroll, from `k0`
/// lines scanned: where input remains and fewer lines than the target are
/// realized, it is asked for the target plus a screen height.
pub open spec fn page_scan(v: ChainView, amount: int, k0: nat) -> nat {
    let p = chain_params(v);
    if k0 < p.lines.len() && output_after(p, k0).len() < page_target(v, amount) {
        scan_stop(p, k0, chunk_end(sat_add(page_target(v, amount), v.max_y as int) as u32))
    } else {
        k0
    }
}

/// The chain after a vertical scroll by `amount`, from `k0` lines scanned:
/// the offset is clamped against the output realized by then.
pub open spec fn paged_view(v: ChainView, amount: int, k0: nat) -> ChainView {
    paged_y(v, amount, output_after(chain_params(v), page_scan(v, amount, k0)).len() as int)
}

/// The chain after the last character of its last stage is removed.
pub open spec fn popped(v: ChainView) -> ChainView {
    let last = v.stages.last();
    set_last(v, Stage { text: if last.text.len() > 0 { last.text.drop_last() } else { last.text }, ..last })
}

/// The chain after `ch` is typed into its last stage.
pub open spec fn pushed(v: ChainView, ch: char) -> ChainView {
    let last = v.stages.last();
    set_last(v, Stage { text: last.text.push(ch), ..last })
}

/// A vertical scroll either realizes the whole output or at least as many
/// lines as it aims at.
pub proof fn lemma_page_reaches_target(v: ChainView, amount: int, k0: nat)
    requires
        input_fits(strings_view(v.source)),
        k0 <= chain_params(v).lines.len(),
    ensures
        output_after(chain_params(v), page_scan(v, amount, k0)).len() == chain_output(v).len()
            || output_after(chain_params(v), page_scan(v, amount, k0)).len() >= page_target(v, amount),
{
    let p = chain_params(v);
    lemma_stage_lines_fit(strings_view(v.source), v.stages);
    if k0 < p.lines.len() && output_after(p, k0).len() < page_target(v, amount) {
        lemma_request_reaches(p, k0, sat_add(page_target(v, amount), v.max_y as int) as u32);
    }
}

/// A page of `n` rows as a scroll amount.
pub open spec fn page_rows(n: u32) -> int {
    if n > i32::MAX { i32::MAX as int } else { n as int }
}

/// A page size as a scroll amount.
fn rows(n: u32) -> (r: i32)
    ensures
        r == page_rows(n),
{
    if n > i32::MAX as u32 { i32::MAX } else { n as i32 }
}

/// Scrolls vertically by `amount`, first asking the last stage for more
/// output where the target lies beyond what is realized.
pub fn page_y<'a>(amount: i32, s: State<'a>, c: &mut Core) -> (r: State<'a>)
    requires
        s.wf(),
        old(c).consistent(s@.source),
        input_fits(strings_view(s@.source)),
    ensures
        r.wf(),
        final(c).consistent(s@.source),
        final(c).scanned(s@) == page_scan(s@, amount as int, old(c).scanned(s@)),
        r@ == paged_view(s@, amount as int, old(c).scanned(s@)),
        output_after(chain_params(s@), final(c).scanned(s@)).len() == chain_output(s@).len()
            || output_after(chain_params(s@), final(c).scanned(s@)).len() >= page_target(s@, amount as int),
{
    let ghost v = s@;
    let ghost k0 = c.scanned(s@);
    let target: i64 = s.pager_y() as i64 + amount as i64;
    let wanted: u32 = if target < 0 {
        0
    } else if target > u32::MAX as i64 {
        u32::MAX
    } else {
        target as u32
    };
    let current = c.get_current_output_length(&s);
    proof {
        lemma_chain_output_len(v, k0);
        c.lemma_scanned_bound(v);
        lemma_page_reaches_target(v, amount as int, k0);
    }
    let count: u32 = match current {
        Len::Is(n) => n,
        Len::AtLeast(n) => {
            if n < wanted {
                let ask = wanted.saturating_add(s.max_y());
                let m = c.is_output_length_at_least(&s, ask);
                proof {
                    lemma_chain_output_len(v, c.scanned(v));
                }
                m
            } else {
                n
            }
        },
    };
    let r = s.page_y(amount, count);
    assert(r@ == paged_y(v, amount as int, count as int));
    r
}

/// What a key does: the next chain, and what the loop has to do.
pub fn handle_key<'a>(state: State<'a>, key: Key, core: &mut Core) -> (r: (State<'a>, Action))
    requires
        state.wf(),
        old(core).consistent(state@.source),
        input_fits(strings_view(state@.source)),
    ensures
        r.0.wf(),
        final(core).consistent(state@.source),
        r.0@.source == state@.source,
        ({
            let v = state@;
            let last = v.stages.last();
            match key {
                Key::Left => r.1 is Continue && r.0@ == paged_x(v, -5, widest(chain_params(v).lines, old(core).scanned(v))),
                Key::Right => r.1 is Continue && r.0@ == paged_x(v, 5, widest(chain_params(v).lines, old(core).scanned(v))),
                Key::Up => r.1 is Continue && r.0@ == paged_view(v, -1, old(core).scanned(v)),
                Key::Down => r.1 is Continue && r.0@ == paged_view(v, 1, old(core).scanned(v)),
                Key::PageUp => r.1 is Continue && r.0@ == paged_view(v, -page_rows(v.max_y), old(core).scanned(v)),
                Key::PageDown => r.1 is Continue && r.0@ == paged_view(v, page_rows(v.max_y), old(core).scanned(v)),
                Key::HalfPageUp => r.1 is Continue && r.0@ == paged_view(v, -(page_rows(v.max_y) / 2), old(core).scanned(v)),
                Key::HalfPageDown => r.1 is Continue && r.0@ == paged_view(v, page_rows(v.max_y) / 2, old(core).scanned(v)),
                Key::Resize(y, x) => r.1 is Continue && r.0@ == (ChainView { max_y: y, max_x: x, ..v }),
                Key::LessContext => r.1 is Continue && r.0@ == (ChainView {
                    stages: with_last(v.stages, Stage { context: adjusted_context(last.context, -1), ..last }),
                    ..v
                }),
                Key::MoreContext => r.1 is Continue && r.0@ == (ChainView {
                    stages: with_last(v.stages, Stage { context: adjusted_context(last.context, 1), ..last }),
                    ..v
                }),
                Key::Accept => r.1 is Continue && r.0@ == accepted(v),
                Key::Revert => r.1 is Continue && r.0@ == reverted(v),
                Key::ToggleCase => r.1 is Continue && r.0@ == set_last(
                    v,
                    Stage { case_sensitive: !last.case_sensitive, ..last },
                ),
                Key::ToggleInverted => r.1 is Continue && r.0@ == set_last(v, Stage { inverse: !last.inverse, ..last }),
                Key::CopyGrep => r.0@ == v && if stage_compiles(last) && !(forall|i: int|
                    0 <= i < v.stages.len() ==> (#[trigger] v.stages[i]).text.len() == 0) {
                    r.1 matches Action::CopyGrep(g) && g@ == grep_pipeline(v.stages)
                } else {
                    r.1 is Continue
                },
                Key::CopyOutput => r.0@ == v && if stage_compiles(last) {
                    r.1 matches Action::CopyOutput(o) && o@ == joined(texts_of(chain_output(v)))
                } else {
                    r.1 is Continue
                },
                Key::OpenEditor => r.0@ == v && if stage_compiles(last) {
                    r.1 matches Action::OpenEditor(o) && o@ == joined(texts_of(chain_output(v)))
                } else {
                    r.1 is Continue
                },
                Key::Backspace => r.1 is Continue && r.0@ == paged_view(popped(v), 0, old(core).scanned(popped(v))),
                Key::Char(ch) => r.1 is Continue && r.0@ == paged_view(pushed(v, ch), 0, old(core).scanned(pushed(v, ch))),
                Key::Quit => r.1 is Quit && r.0@ == v,
                Key::Ignored => r.1 is Continue && r.0@ == v,
            }
        }),
{
    match key {
        Key::Left => {
            let widest = core.widest_line_seen_so_far(&state);
            let ghost v = state@;
            let r = state.page_x(-5, widest);
            assert(r@ == paged_x(v, -5, widest as int));
            (r, Action::Continue)
        },
        Key::Right => {
            let widest = core.widest_line_seen_so_far(&state);
            let ghost v = state@;
            let r = state.page_x(5, widest);
            assert(r@ == paged_x(v, 5, widest as int));
            (r, Action::Continue)
        },
        Key::Up => (page_y(-1, state, core), Action::Continue),
        Key::Down => (page_y(1, state, core), Action::Continue),
        Key::PageUp => {
            let y = rows(state.max_y());
            (page_y(-y, state, core), Action::Continue)
        },
        Key::PageDown => {
            let y = rows(state.max_y());
            (page_y(y, state, core), Action::Continue)
        },
        Key::HalfPageUp => {
            let y = rows(state.max_y());
            (page_y(-(y / 2), state, core), Action::Continue)
        },
        Key::HalfPageDown => {
            let y = rows(state.max_y());
            (page_y(y / 2, state, core), Action::Continue)
        },
        Key::Resize(max_y, max_x) => (state.set_max_yx(max_y, max_x), Action::Continue),
        Key::LessContext => (state.modify_context(-1), Action::Continue),
        Key::MoreContext => (state.modify_context(1), Action::Continue),
        Key::Accept => (state.accept_partial_match(), Action::Continue),
        Key::Revert => (state.revert_partial_match(), Action::Continue),
        Key::ToggleCase => (state.toggle_case_sensitivity(), Action::Continue),
        Key::ToggleInverted => (state.toggle_inverted(), Action::Continue),
        Key::CopyGrep => {
            if !state.regex_valid() || state.empty_search_lines() {
                (state, Action::Continue)
            } else {
                let line = construct_grep_line(&state.search_lines());
                (state, Action::CopyGrep(line))
            }
        },
        Key::CopyOutput => {
            if !state.regex_valid() {
                (state, Action::Continue)
            } else {
                let out = core.get_full_output_string(&state);
                (state, Action::CopyOutput(out))
            }
        },
        Key::OpenEditor => {
            if !state.regex_valid() {
                (state, Action::Continue)
            } else {
                let out = core.get_full_output_string(&state);
                (state, Action::OpenEditor(out))
            }
        },
        Key::Backspace => {
            let ghost v = state@;
            let s = state.pop_search_char();
            assert(s@ == popped(v));
            (page_y(0, s, core), Action::Continue)
        },
        Key::Char(ch) => {
            let ghost v = state@;
            let s = state.push_search_char(ch);
            assert(s@ == pushed(v, ch));
            (page_y(0, s, core), Action::Continue)
        },
        Key::Quit => (state, Action::Quit),
        Key::Ignored => (state, Action::Continue),
    }
}

} // verus!

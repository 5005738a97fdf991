//! Screen geometry, and the projection of matched lines onto the screen.
use vstd::prelude::*;

verus! {

/// `a - b`, or zero where `b` exceeds `a`.
pub open spec fn sat_sub(a: int, b: int) -> int {
    if a > b { a - b } else { 0 }
}

/// `a + b`, or `u32::MAX` where that overflows.
pub open spec fn sat_add(a: int, b: int) -> int {
    if a + b > u32::MAX { u32::MAX as int } else { a + b }
}

pub open spec fn spec_min(a: int, b: int) -> int {
    if a < b { a } else { b }
}

pub open spec fn spec_max(a: int, b: int) -> int {
    if a > b { a } else { b }
}

/// Width of the content area: the screen width less the two border cells.
pub open spec fn content_width_of(max_x: int) -> int {
    sat_sub(max_x, 2)
}

/// Height of the input window: one row per stage plus two borders, at least
/// two and at most the screen height less five.
pub open spec fn input_window_height_of(max_y: int, stages: int) -> int {
    spec_min(sat_sub(max_y, 5), spec_max(2, stages + 2))
}

/// Height of the pager window: what the input window and the status line leave.
pub open spec fn pager_window_height_of(max_y: int, stages: int) -> int {
    sat_sub(sat_sub(max_y, input_window_height_of(max_y, stages)), 1)
}

/// Rows of the pager window that hold output: its height less two borders.
pub open spec fn pager_content_height_of(window: int) -> int {
    sat_sub(window, 2)
}

/// Width of the application content for a screen `max_x` cells wide.
pub fn content_width(max_x: u32) -> (r: u32)
    ensures
        r == content_width_of(max_x as int),
{
    max_x.saturating_sub(2)
}

/// Rows of a pager window of the given height that hold output.
pub fn pager_content_height(pager_window_height_no: u32) -> (r: u32)
    ensures
        r == pager_content_height_of(pager_window_height_no as int),
{
    pager_window_height_no.saturating_sub(2)
}

/// Height of the pager window for a screen `max_y` rows high and the given
/// number of stages.
pub fn pager_window_height(max_y: u32, search_lines: u32) -> (r: u32)
    ensures
        r == pager_window_height_of(max_y as int, search_lines as int),
{
    max_y.saturating_sub(input_window_height(max_y, search_lines)).saturating_sub(1)
}

/// Height of the input window for a screen `max_y` rows high and the given
/// number of stages.
pub fn input_window_height(max_y: u32, search_lines: u32) -> (r: u32)
    ensures
        r == input_window_height_of(max_y as int, search_lines as int),
{
    let min: u32 = 2;
    let max: u32 = max_y.saturating_sub(5);
    let wanted: u32 = search_lines.saturating_add(2);
    let lower: u32 = if wanted > min { wanted } else { min };
    if max < lower { max } else { lower }
}

} // verus!

use igrepper::events::{handle_key, Action, Key};
use igrepper::output_generator::{Len, OutputGenerator};
use igrepper::pattern::Pattern;
use igrepper::stage_cache::Core;
use igrepper::state::{SearchLine, State};
use igrepper::types::{Line, MatchPosition};

fn strings(v: &[&str]) -> Vec<String> {
    v.iter().map(|s| String::from(*s)).collect()
}

#[test]
fn test_one() {
    let source_lines = vec![String::from("blah")];
    let mut core = Core::new();
    let state = State::new(&source_lines, vec![SearchLine::new(String::from(""), 0, true, false)], 0, 0, 10, 10);
    let output = core.get_render_state(&state);
    let serialized = format!("{:?}", output);
    assert_eq!(serialized, "RenderState { regex_valid: true, max_y: 10, max_x: 10, input_window_height: 3, pager_window_height: 6, output_search_lines: [\"\"], output_display_lines: [StringWithColorIndex([String(\"b\"), String(\"l\"), String(\"a\"), String(\"h\")])], status_line: \"matchedLin\" }");
}

#[test]
fn test_context() {
    let source_lines = vec![String::from("1"), String::from("2"), String::from("3"), String::from("4")];
    let mut core = Core::new();
    let state = State::new(&source_lines, vec![SearchLine::new(String::from("1"), 1, true, false)], 0, 0, 10, 10);
    let output = core.get_render_state(&state);
    let serialized = format!("{:?}", output);
    assert_eq!(serialized, "RenderState { regex_valid: true, max_y: 10, max_x: 10, input_window_height: 3, pager_window_height: 6, output_search_lines: [\"1\"], output_display_lines: [StringWithColorIndex([MatchString((\"1\", 0))]), StringWithColorIndex([String(\"2\")])], status_line: \"matchedLin\" }");
}

#[test]
fn test_case_sensitivity() {
    let source_lines = vec![String::from("ab"), String::from("Ab"), String::from("aB"), String::from("BB")];
    let state = State::new(
        &source_lines,
        vec![
            SearchLine::new(String::from("a"), 0, false, false),
            SearchLine::new(String::from("b"), 0, true, false),
        ],
        0,
        0,
        10,
        10,
    );
    let output = Core::new().get_render_state(&state);
    let serialized = format!("{:?}", output);
    assert_eq!(serialized, "RenderState { regex_valid: true, max_y: 10, max_x: 10, input_window_height: 4, pager_window_height: 5, output_search_lines: [\"(?i)a\", \"b\"], output_display_lines: [StringWithColorIndex([String(\"a\"), MatchString((\"b\", 0))]), StringWithColorIndex([String(\"A\"), MatchString((\"b\", 0))])], status_line: \"matchedLin\" }");
}

fn content(line: &Line) -> (String, Vec<(u32, u32)>) {
    match line {
        Line::LineWithMatches(l) => (l.line.clone(), l.matches.iter().map(|m: &MatchPosition| (m.start, m.end)).collect()),
        Line::BreakLine => (String::from("<break>"), vec![]),
    }
}

fn generator(lines: &[&str], pattern: &str, empty: bool, context: u32, inverted: bool) -> OutputGenerator {
    OutputGenerator::new(strings(lines), Pattern::compile(pattern).unwrap(), empty, context, inverted)
}

#[test]
fn context_window_at_start_has_no_break() {
    let mut g = generator(&["1", "2", "3", "4"], "1", false, 1, false);
    let out: Vec<_> = g.full_vec().iter().map(content).collect();
    assert_eq!(out, vec![(String::from("1"), vec![(0, 1)]), (String::from("2"), vec![])]);
    assert!(matches!(g.len(), Len::Is(2)));
}

#[test]
fn break_between_distant_matches() {
    let mut g = generator(&["x", "a", "b", "c", "d", "x", "e"], "x", false, 1, false);
    let out: Vec<_> = g.full_vec().iter().map(content).collect();
    assert_eq!(
        out,
        vec![
            (String::from("x"), vec![(0, 1)]),
            (String::from("a"), vec![]),
            (String::from("<break>"), vec![]),
            (String::from("d"), vec![]),
            (String::from("x"), vec![(0, 1)]),
            (String::from("e"), vec![]),
        ]
    );
    assert_eq!(g.full_string_vec(), strings(&["x", "a", "d", "x", "e"]));
    assert_eq!(g.full_string(), "x\na\nd\nx\ne");
}

#[test]
fn chained_stages_filter_in_turn() {
    let source_lines = strings(&["ab", "Ab", "aB", "BB"]);
    let state = State::new(
        &source_lines,
        vec![
            SearchLine::new(String::from("a"), 0, false, false),
            SearchLine::new(String::from("b"), 0, true, false),
        ],
        0,
        0,
        10,
        10,
    );
    let mut core = Core::new();
    assert_eq!(core.get_full_output_string(&state), "ab\nAb");
    assert!(matches!(core.get_current_output_length(&state), Len::Is(2)));
    assert_eq!(core.widest_line_seen_so_far(&state), 2);
    assert_eq!(core.is_output_length_at_least(&state, 1), 2);
}

#[test]
fn inverted_empty_pattern_keeps_every_line() {
    let mut g = generator(&["a", "", "c"], "(?i)", true, 3, true);
    let out: Vec<_> = g.full_vec().iter().map(content).collect();
    assert_eq!(
        out,
        vec![(String::from("a"), vec![(0, 0)]), (String::from(""), vec![(0, 0)]), (String::from("c"), vec![(0, 0)])]
    );
}

#[test]
fn inverted_pattern_keeps_lines_without_match() {
    let mut g = generator(&["apple", "berry", "cherry"], "rr", false, 0, true);
    assert_eq!(g.full_string_vec(), strings(&["apple"]));
}

#[test]
fn no_match_gives_exact_empty_output() {
    let mut g = generator(&["a", "b", "c"], "zzz", false, 2, false);
    assert!(matches!(g.request(5), Len::Is(0)));
    assert_eq!(g.len_simple(), 0);
    assert_eq!(g.widest_line_seen_so_far(), 1);
}

#[test]
fn requests_are_chunked_and_idempotent() {
    let lines: Vec<String> = (0..2500).map(|i| format!("{}", i)).collect();
    let mut g = OutputGenerator::new(lines, Pattern::compile("").unwrap(), true, 0, false);
    assert!(matches!(g.request(10), Len::AtLeast(1000)));
    let first: Vec<_> = g.slice(0, 1000).iter().map(content).collect();
    assert!(matches!(g.request(5), Len::AtLeast(1000)));
    let again: Vec<_> = g.slice(0, 1000).iter().map(content).collect();
    assert_eq!(first, again);
    assert!(matches!(g.request(1500), Len::AtLeast(2000)));
    assert!(matches!(g.request(2500), Len::Is(2500)));
    assert_eq!(g.widest_line_seen_so_far(), 4);
}

#[test]
fn cache_follows_edits() {
    let source_lines = strings(&["foo", "bar", "baz"]);
    let mut core = Core::new();
    let state = State::new(&source_lines, vec![SearchLine::new(String::from("ba"), 0, true, false)], 0, 0, 10, 10);
    assert_eq!(core.get_full_output_string(&state), "bar\nbaz");
    let state = state.push_search_char('z');
    assert_eq!(core.get_full_output_string(&state), "baz");
    let state = state.toggle_inverted();
    assert_eq!(core.get_full_output_string(&state), "foo\nbar");
    let state = state.pop_search_char().toggle_inverted();
    assert_eq!(core.get_full_output_string(&state), "bar\nbaz");
    core.clear_cache();
    assert_eq!(core.get_full_output_string(&state), "bar\nbaz");
}

#[test]
fn keys_drive_the_chain() {
    let source_lines = strings(&["alpha", "beta", "gamma"]);
    let mut core = Core::new();
    let state = State::new(&source_lines, vec![SearchLine::new(String::from(""), 0, false, false)], 0, 0, 10, 10);
    let (state, action) = handle_key(state, Key::Char('a'), &mut core);
    assert!(matches!(action, Action::Continue));
    let (state, _) = handle_key(state, Key::Char('m'), &mut core);
    assert_eq!(state.search_line_strings(), strings(&["am"]));
    let (state, action) = handle_key(state, Key::CopyOutput, &mut core);
    match action {
        Action::CopyOutput(s) => assert_eq!(s, "gamma"),
        _ => panic!("expected output"),
    }
    let (state, _) = handle_key(state, Key::Accept, &mut core);
    let (state, action) = handle_key(state, Key::CopyGrep, &mut core);
    match action {
        Action::CopyGrep(s) => assert_eq!(s, "grep --perl-regexp '(?i)am'"),
        _ => panic!("expected pipeline"),
    }
    let (state, _) = handle_key(state, Key::Char('('), &mut core);
    let (state, action) = handle_key(state, Key::OpenEditor, &mut core);
    assert!(matches!(action, Action::Continue));
    let (state, action) = handle_key(state, Key::Quit, &mut core);
    assert!(matches!(action, Action::Quit));
    assert_eq!(state.search_line_strings(), strings(&["am", "("]));
}

#[test]
fn cache_queries_scan_only_when_asked() {
    let source_lines = strings(&["short", "a much longer line", "x"]);
    let state = State::new(&source_lines, vec![SearchLine::new(String::from(""), 0, true, false)], 0, 0, 10, 10);
    let mut core = Core::new();
    assert_eq!(core.widest_line_seen_so_far(&state), 0);
    assert!(matches!(core.get_current_output_length(&state), Len::AtLeast(0)));
    assert_eq!(core.is_output_length_at_least(&state, 1), 3);
    assert_eq!(core.widest_line_seen_so_far(&state), 18);
    assert!(matches!(core.get_current_output_length(&state), Len::Is(3)));
}

#[test]
fn inverted_empty_full_request_is_exact() {
    let lines: Vec<String> = (0..1500).map(|i| format!("line {}", i)).collect();
    let mut g = OutputGenerator::new(lines, Pattern::compile("").unwrap(), true, 0, true);
    assert!(matches!(g.request(1500), Len::Is(1500)));
    assert_eq!(g.len_simple(), 1500);
}

#[test]
fn paging_down_realizes_enough_lines() {
    let source_lines: Vec<String> = (0..3000).map(|i| format!("{}", i)).collect();
    let mut core = Core::new();
    let state = State::new(&source_lines, vec![SearchLine::new(String::from(""), 0, true, false)], 0, 0, 10, 10);
    let (state, _) = handle_key(state, Key::PageDown, &mut core);
    assert_eq!(state.pager_y(), 10);
    let state = state.page_y(2000, 3000);
    let (state, _) = handle_key(state, Key::Down, &mut core);
    assert_eq!(state.pager_y(), 2011);
    let (state, _) = handle_key(state, Key::Right, &mut core);
    assert_eq!(state.pager_x(), 0);
}

use igrepper::state::{SearchLine, State};

fn get_state(source_lines: &Vec<String>) -> State<'_> {
    State::new(
        source_lines,
        vec![
            SearchLine::new(String::from("abc"), 0, false, false),
            SearchLine::new(String::from("d"), 0, false, false),
        ],
        0,
        0,
        10,
        10,
    )
}

fn get_source_lines() -> Vec<String> {
    vec![
        String::from("one"),
        String::from("two"),
        String::from("three"),
    ]
}

fn lines(state: &State) -> Vec<(String, u32, bool, bool)> {
    state
        .search_lines()
        .into_iter()
        .map(|l| (l.line, l.context, l.case_sensitive, l.inverse))
        .collect()
}

fn stage(line: &str, context: u32, inverse: bool) -> (String, u32, bool, bool) {
    (String::from(line), context, false, inverse)
}

fn assert_view(state: &State, search: Vec<(String, u32, bool, bool)>, regex: &str, pager_x: u32, pager_y: u32) {
    assert_eq!(state.source_lines(), &get_source_lines());
    assert_eq!(lines(state), search);
    assert_eq!(state.last_valid_regex().as_str(), regex);
    assert_eq!(state.pager_x(), pager_x);
    assert_eq!(state.pager_y(), pager_y);
    assert_eq!(state.max_y(), 10);
    assert_eq!(state.max_x(), 10);
}

#[test]
fn push_char() {
    let source_lines = get_source_lines();
    let state = get_state(&source_lines).push_search_char('e');
    assert_view(&state, vec![stage("abc", 0, false), stage("de", 0, false)], "(?i)de", 0, 0);
}

#[test]
fn push_char_create_invalid_regex() {
    let source_lines = get_source_lines();
    let state = get_state(&source_lines).push_search_char('\\');
    assert_eq!(state.last_valid_regex().as_str(), "(?i)d");
    assert!(!state.regex_valid());
}

#[test]
fn pop_char() {
    let source_lines = get_source_lines();
    let state = get_state(&source_lines).pop_search_char();
    assert_view(&state, vec![stage("abc", 0, false), stage("", 0, false)], "(?i)", 0, 0);
    let state = state.pop_search_char();
    assert_view(&state, vec![stage("abc", 0, false), stage("", 0, false)], "(?i)", 0, 0);
}

#[test]
fn accepting_match() {
    let source_lines = get_source_lines();
    let state = get_state(&source_lines).accept_partial_match();
    assert_view(
        &state,
        vec![stage("abc", 0, false), stage("d", 0, false), stage("", 0, false)],
        "(?i)",
        0,
        0,
    );
}

#[test]
fn accepting_match_should_reject_invalid_regex() {
    let source_lines = get_source_lines();
    let state = get_state(&source_lines)
        .push_search_char('\\')
        .accept_partial_match();
    assert_view(&state, vec![stage("abc", 0, false), stage("d\\", 0, false)], "(?i)d", 0, 0);
}

#[test]
fn reverting_match() {
    let source_lines = get_source_lines();
    let state = get_state(&source_lines).revert_partial_match();
    assert_view(&state, vec![stage("abc", 0, false)], "(?i)abc", 0, 0);
}

#[test]
fn incrementing_context() {
    let source_lines = get_source_lines();
    let state = get_state(&source_lines).modify_context(1);
    assert_view(&state, vec![stage("abc", 0, false), stage("d", 1, false)], "(?i)d", 0, 0);
    let state = state.modify_context(2);
    assert_view(&state, vec![stage("abc", 0, false), stage("d", 3, false)], "(?i)d", 0, 0);
}

#[test]
fn decrementing_context() {
    let source_lines = get_source_lines();
    let state = get_state(&source_lines).modify_context(-1);
    assert_view(&state, vec![stage("abc", 0, false), stage("d", 0, false)], "(?i)d", 0, 0);
}

#[test]
fn page_y() {
    let source_lines = get_source_lines();
    let two = vec![stage("abc", 0, false), stage("d", 0, false)];
    let state = get_state(&source_lines).page_y(1, 10);
    assert_view(&state, two.clone(), "(?i)d", 0, 1);
    let state = state.page_y(100, 10);
    assert_view(&state, two.clone(), "(?i)d", 0, 7);
    let state = state.page_y(-100, 10);
    assert_view(&state, two, "(?i)d", 0, 0);
}

#[test]
fn page_x() {
    let longest_line_length = 15;
    let source_lines = get_source_lines();
    let two = vec![stage("abc", 0, false), stage("d", 0, false)];
    let state = get_state(&source_lines).page_x(1, longest_line_length);
    assert_view(&state, two.clone(), "(?i)d", 1, 0);
    let state = state.page_x(100, longest_line_length);
    assert_view(&state, two.clone(), "(?i)d", 7, 0);
    let state = state.page_x(-100, longest_line_length);
    assert_view(&state, two, "(?i)d", 0, 0);
}

#[test]
fn toggle_inverted_match() {
    let longest_line_length = 15;
    let source_lines = get_source_lines();
    let state = get_state(&source_lines).page_x(1, longest_line_length);
    assert_view(&state, vec![stage("abc", 0, false), stage("d", 0, false)], "(?i)d", 1, 0);
    let state = state.toggle_inverted();
    assert_view(&state, vec![stage("abc", 0, false), stage("d", 0, true)], "(?i)d", 1, 0);
}

#[test]
fn try_new_rejects_empty_stage_list() {
    let source_lines = get_source_lines();
    assert!(State::try_new(&source_lines, vec![], 0, 0, 10, 10).is_none());
}

#[test]
fn try_new_rejects_invalid_non_last_stage() {
    let source_lines = get_source_lines();
    let stages = vec![
        SearchLine::new(String::from("\\"), 0, false, false),
        SearchLine::new(String::from(""), 0, false, false),
    ];
    assert!(State::try_new(&source_lines, stages, 0, 0, 0, 0).is_none());
}

#[test]
fn try_new_accepts_invalid_last_stage() {
    let source_lines = get_source_lines();
    let stages = vec![
        SearchLine::new(String::from("a"), 0, false, false),
        SearchLine::new(String::from("("), 0, false, false),
    ];
    let state = State::try_new(&source_lines, stages, 0, 0, 10, 10).unwrap();
    assert!(!state.regex_valid());
    assert_eq!(state.last_valid_regex().as_str(), "(?i)");
}

#[test]
fn accept_then_revert_restores_chain() {
    let source_lines = get_source_lines();
    let state = get_state(&source_lines).modify_context(2).toggle_case_sensitivity();
    let before = lines(&state);
    let regex = String::from(state.last_valid_regex().as_str());
    let accepted = state.accept_partial_match();
    assert_eq!(lines(&accepted).len(), 3);
    assert_eq!(lines(&accepted)[2], (String::from(""), 2, true, false));
    let back = accepted.revert_partial_match();
    assert_eq!(lines(&back), before);
    assert_eq!(back.last_valid_regex().as_str(), regex);
    assert_eq!(regex, "d");
}

#[test]
fn revert_single_stage_is_noop() {
    let source_lines = get_source_lines();
    let state = State::new(&source_lines, vec![SearchLine::new(String::from("x"), 1, true, true)], 3, 4, 10, 10);
    let back = state.revert_partial_match();
    assert_eq!(lines(&back), vec![(String::from("x"), 1, true, true)]);
    assert_eq!(back.pager_x(), 3);
    assert_eq!(back.pager_y(), 4);
}

#[test]
fn accept_empty_stage_is_noop() {
    let source_lines = get_source_lines();
    let state = get_state(&source_lines).pop_search_char().accept_partial_match();
    assert_eq!(lines(&state).len(), 2);
}

#[test]
fn paging_never_leaves_range() {
    let source_lines = get_source_lines();
    let state = get_state(&source_lines).page_y(i32::MAX, 2);
    assert_eq!(state.pager_y(), 0);
    let state = state.page_y(i32::MIN, 2);
    assert_eq!(state.pager_y(), 0);
    let state = state.page_x(i32::MAX, u32::MAX);
    assert_eq!(state.pager_x(), i32::MAX as u32);
    let state = state.page_x(i32::MIN, 3);
    assert_eq!(state.pager_x(), 0);
    let state = get_state(&source_lines).page_y(5, 100).set_max_yx(50, 10).page_y(-1, 4);
    assert_eq!(state.pager_y(), 0);
}

#[test]
fn context_saturates() {
    let source_lines = get_source_lines();
    let state = get_state(&source_lines).modify_context(i32::MIN);
    assert_eq!(state.current_context(), 0);
    let state = state.modify_context(i32::MAX).modify_context(i32::MAX).modify_context(i32::MAX);
    assert_eq!(state.current_context(), u32::MAX);
}

#[test]
fn toggle_case_recompiles() {
    let source_lines = get_source_lines();
    let state = get_state(&source_lines).toggle_case_sensitivity();
    assert_eq!(state.last_valid_regex().as_str(), "d");
    assert_eq!(
        state.search_line_strings_with_case_sensitivity(),
        vec![String::from("(?i)abc"), String::from("d")]
    );
    assert_eq!(state.search_line_strings(), vec![String::from("abc"), String::from("d")]);
    assert!(!state.last_search_line_empty());
    assert!(!state.inverted());
}

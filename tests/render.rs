use igrepper::source::{SourceInput, SourceProducer};
use igrepper::stage_cache::Core;
use igrepper::state::{SearchLine, State};
use igrepper::types::StringWithColorIndexOrBreakLine;

#[test]
fn status_line_reports_lower_bound_and_position() {
    let source_lines: Vec<String> = (0..2500).map(|i| format!("{}", i)).collect();
    let state = State::new(&source_lines, vec![SearchLine::new(String::from("1"), 0, true, false)], 0, 0, 30, 100);
    let state = state.page_x(3, 4).page_y(2, 100);
    let output = Core::new().get_render_state(&state);
    assert_eq!(output.status_line, "matchedLines>1000 pageY: 2, pageX: 0, context: 0");
    assert_eq!(output.output_display_lines.len(), 24);
}

#[test]
fn status_line_reports_exact_length() {
    let source_lines: Vec<String> = vec![String::from("abc"), String::from("bcd")];
    let state = State::new(&source_lines, vec![SearchLine::new(String::from("c"), 2, false, false)], 0, 0, 30, 100);
    let output = Core::new().get_render_state(&state);
    assert_eq!(output.status_line, "matchedLines=2 pageY: 0, pageX: 0, context: 2");
}

#[test]
fn break_lines_render_as_rules() {
    let source_lines: Vec<String> = ["m", "a", "b", "c", "m"].iter().map(|s| String::from(*s)).collect();
    let state = State::new(&source_lines, vec![SearchLine::new(String::from("m"), 1, true, false)], 0, 0, 20, 20);
    let output = Core::new().get_render_state(&state);
    let kinds: Vec<bool> = output
        .output_display_lines
        .iter()
        .map(|l| matches!(l, StringWithColorIndexOrBreakLine::BreakLine))
        .collect();
    assert_eq!(kinds, vec![false, false, true, false, false]);
}

#[test]
fn invalid_last_stage_keeps_last_valid_output() {
    let source_lines: Vec<String> = vec![String::from("ab"), String::from("cd")];
    let state = State::new(&source_lines, vec![SearchLine::new(String::from("a"), 0, true, false)], 0, 0, 20, 20);
    let state = state.push_search_char('(');
    let mut core = Core::new();
    let output = core.get_render_state(&state);
    assert!(!output.regex_valid);
    assert_eq!(core.get_full_output_string(&state), "ab");
}

#[test]
fn construct_regex_reports_errors() {
    assert!(SearchLine::new(String::from("("), 0, true, false).construct_regex().is_err());
    let p = SearchLine::new(String::from("x+"), 0, false, false).construct_regex().unwrap();
    assert_eq!(p.as_str(), "(?i)x+");
    assert_eq!(SearchLine::new(String::from("x"), 0, false, false).line_with_sensitivity_prefix(), "(?i)x");
}

#[test]
fn source_in_memory_or_from_file() {
    let memory = SourceProducer { input: SourceInput::FullInput(vec![String::from("a")]) };
    assert_eq!(memory.get_source(), Some(vec![String::from("a")]));
    assert_eq!(memory.file_path(), None);
    let file = SourceProducer { input: SourceInput::FilePath(String::from("x.txt")) };
    assert_eq!(file.get_source(), None);
    assert_eq!(file.file_path(), Some(&String::from("x.txt")));
}

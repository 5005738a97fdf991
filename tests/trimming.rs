use igrepper::layout::{content_width, input_window_height, pager_content_height, pager_window_height};
use igrepper::trimming::{
    replace_tabs_with_spaces, search_lines_display_format, trim_and_colorize_line, ColorTable,
};
use igrepper::types::{LineWithMatches, MatchPosition, StringWithColorIndex, StringWithColorIndexOrBreakLine};

#[test]
fn replace_tabs_with_spaces_zero_current_steps() {
    assert_eq!("    x", replace_tabs_with_spaces(0, "\tx"));
    assert_eq!("x   x", replace_tabs_with_spaces(0, "x\tx"));
    assert_eq!("xx  x", replace_tabs_with_spaces(0, "xx\tx"));
    assert_eq!("xxx x", replace_tabs_with_spaces(0, "xxx\tx"));
    assert_eq!("xxxx    x", replace_tabs_with_spaces(0, "xxxx\tx"));
}

#[test]
fn replace_tabs_with_spaces_different_current_steps() {
    assert_eq!("   x", replace_tabs_with_spaces(1, "\tx"));
    assert_eq!("  x", replace_tabs_with_spaces(2, "\tx"));
    assert_eq!(" x", replace_tabs_with_spaces(3, "\tx"));
    assert_eq!("    x", replace_tabs_with_spaces(4, "\tx"));
}

#[test]
fn replace_multibyte_characters() {
    assert_eq!("a_b_", replace_tabs_with_spaces(0, "aébß"));
    assert_eq!("", replace_tabs_with_spaces(7, ""));
}

#[test]
fn geometry() {
    assert_eq!(content_width(10), 8);
    assert_eq!(content_width(1), 0);
    assert_eq!(input_window_height(10, 1), 3);
    assert_eq!(input_window_height(10, 7), 5);
    assert_eq!(input_window_height(3, 1), 0);
    assert_eq!(input_window_height(100, 0), 2);
    assert_eq!(pager_window_height(10, 1), 6);
    assert_eq!(pager_window_height(10, 2), 5);
    assert_eq!(pager_content_height(6), 4);
    assert_eq!(pager_content_height(1), 0);
}

fn parts(r: StringWithColorIndexOrBreakLine) -> Vec<(String, Option<u32>)> {
    match r {
        StringWithColorIndexOrBreakLine::StringWithColorIndex(v) => v
            .into_iter()
            .map(|p| match p {
                StringWithColorIndex::MatchString((s, c)) => (s, Some(c)),
                StringWithColorIndex::String(s) => (s, None),
            })
            .collect(),
        StringWithColorIndexOrBreakLine::BreakLine => panic!("not a content line"),
    }
}

fn owned(v: Vec<(&str, Option<u32>)>) -> Vec<(String, Option<u32>)> {
    v.into_iter().map(|(s, c)| (String::from(s), c)).collect()
}

#[test]
fn trim_keeps_window_and_colors() {
    let line = LineWithMatches {
        line: String::from("ab\tcdab"),
        matches: vec![MatchPosition { start: 0, end: 2 }, MatchPosition { start: 5, end: 7 }],
    };
    let mut colors = ColorTable::new();
    let all = parts(trim_and_colorize_line(&line, 0, 100, &mut colors));
    assert_eq!(all, owned(vec![("ab", Some(0)), ("  cd", None), ("ab", Some(0))]));
    let mut colors = ColorTable::new();
    let window = parts(trim_and_colorize_line(&line, 1, 4, &mut colors));
    assert_eq!(window, owned(vec![("b", Some(0)), ("  c", None)]));
}

#[test]
fn trim_distinct_matches_get_distinct_colors() {
    let line = LineWithMatches {
        line: String::from("xay"),
        matches: vec![
            MatchPosition { start: 0, end: 1 },
            MatchPosition { start: 1, end: 2 },
            MatchPosition { start: 2, end: 3 },
        ],
    };
    let mut colors = ColorTable::new();
    let r = parts(trim_and_colorize_line(&line, 0, 10, &mut colors));
    assert_eq!(r, owned(vec![("x", Some(0)), ("a", Some(1)), ("y", Some(2))]));
    let again = parts(trim_and_colorize_line(&line, 0, 10, &mut colors));
    assert_eq!(again, r);
}

#[test]
fn colors_stop_at_last_index() {
    let mut colors = ColorTable::new();
    for i in 0..20u32 {
        let c = colors.color_of(&format!("m{}", i));
        assert_eq!(c, if i < 17 { i } else { 17 });
    }
    assert_eq!(colors.color_of("m3"), 3);
}

#[test]
fn trim_line_without_matches() {
    let line = LineWithMatches { line: String::from("hello"), matches: vec![] };
    let mut colors = ColorTable::new();
    assert_eq!(parts(trim_and_colorize_line(&line, 2, 2, &mut colors)), owned(vec![("ll", None)]));
    assert_eq!(parts(trim_and_colorize_line(&line, 9, 2, &mut colors)), owned(vec![]));
}

#[test]
fn search_lines_are_trimmed() {
    let lines = vec![String::from("first"), String::from("second"), String::from("third")];
    assert_eq!(
        search_lines_display_format(4, &lines, 3),
        vec![String::from("sec"), String::from("thi")]
    );
    assert_eq!(search_lines_display_format(1, &lines, 3), Vec::<String>::new());
}

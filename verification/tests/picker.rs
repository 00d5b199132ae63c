use std::collections::HashSet;

use miru::line::StyledLine;
use miru::picker::{
    picker_visible, render_picker_help, render_picker_list, render_picker_title,
    styled_filename_with_matches, Picker, PickerAction,
};
use miru::reader::{Key, KeyCode};
use miru::style::{Style, Theme};

fn texts(line: &StyledLine) -> Vec<String> {
    line.spans.iter().map(|s| s.content.clone()).collect()
}

fn press(code: KeyCode) -> Key {
    Key { code, ctrl: false, press: true }
}

#[test]
fn styled_filename_no_matches() {
    let spans = styled_filename_with_matches(
        "readme.md",
        &HashSet::new(),
        Style::default(),
        Style::default(),
    );
    assert_eq!(spans.len(), 1);
    assert_eq!(spans[0].content.as_str(), "readme.md");
}

#[test]
fn styled_filename_with_some_matches() {
    let matched: HashSet<usize> = [0, 4].into_iter().collect();
    let spans =
        styled_filename_with_matches("readme.md", &matched, Style::default(), Style::default());
    // 'r' matched, 'ead' normal, 'm' matched, 'e.md' normal
    let text: String = spans.iter().map(|s| s.content.to_string()).collect();
    assert_eq!(text, "readme.md");
    assert!(spans.len() > 1);
}

#[test]
fn styled_filename_marks_each_matched_char() {
    let theme = Theme::dark();
    let matched: HashSet<usize> = [0, 4].into_iter().collect();
    let spans =
        styled_filename_with_matches("readme.md", &matched, theme.picker_file, theme.picker_match);
    let contents: Vec<&str> = spans.iter().map(|s| s.content.as_str()).collect();
    assert_eq!(contents, vec!["r", "ead", "m", "e.md"]);
    assert_eq!(spans[0].style, theme.picker_match);
    assert_eq!(spans[1].style, theme.picker_file);
    assert_eq!(spans[2].style, theme.picker_match);
    assert_eq!(spans[3].style, theme.picker_file);
}

#[test]
fn styled_filename_all_matched() {
    let matched: HashSet<usize> = [0, 1].into_iter().collect();
    let m = Style::new().bg(miru::style::Color::Yellow);
    let spans = styled_filename_with_matches("ab", &matched, Style::new(), m);
    let contents: Vec<&str> = spans.iter().map(|s| s.content.as_str()).collect();
    assert_eq!(contents, vec!["a", "b"]);
    assert!(spans.iter().all(|s| s.style == m));
}

#[test]
fn visible_with_empty_filter_shows_every_file() {
    let files = vec!["./a.md".to_string(), "./docs/b.md".to_string()];
    let shown = picker_visible(&files, "");
    assert_eq!(shown.len(), 2);
    assert_eq!(shown[0].0, 0);
    assert_eq!(shown[1].0, 1);
    assert!(shown[0].1.is_empty());
    assert!(shown[1].1.is_empty());
}

#[test]
fn visible_filters_fuzzily() {
    let files = vec!["./docs/readme.md".to_string(), "./notes.md".to_string()];
    let shown = picker_visible(&files, "rdm");
    assert_eq!(shown.len(), 1);
    assert_eq!(shown[0].0, 0);
    // the positions are those of the path without its "./"
    let name: Vec<char> = "docs/readme.md".chars().collect();
    let mut marked: Vec<usize> = shown[0].1.iter().copied().collect();
    marked.sort();
    assert_eq!(marked.len(), 3);
    assert_eq!(name[marked[0]], 'r');
    assert_eq!(name[marked[1]], 'd');
    assert_eq!(name[marked[2]], 'm');
}

#[test]
fn visible_with_no_match_is_empty() {
    let files = vec!["./a.md".to_string()];
    let shown = picker_visible(&files, "zzz");
    assert!(shown.is_empty());
}

#[test]
fn picker_keys_move_within_the_list() {
    let files = vec!["./a.md".to_string(), "./b.md".to_string(), "./c.md".to_string()];
    let shown = picker_visible(&files, "");
    let mut p = Picker::new();
    assert_eq!(p.handle_key(press(KeyCode::Char('k')), &shown), PickerAction::Continue);
    assert_eq!(p.selected, 0);
    p.handle_key(press(KeyCode::Char('j')), &shown);
    p.handle_key(press(KeyCode::Down), &shown);
    assert_eq!(p.selected, 2);
    p.handle_key(press(KeyCode::Char('j')), &shown);
    assert_eq!(p.selected, 2);
    p.handle_key(press(KeyCode::Up), &shown);
    assert_eq!(p.selected, 1);
    assert_eq!(p.handle_key(press(KeyCode::Enter), &shown), PickerAction::Open(1));
    let release = Key { code: KeyCode::Char('q'), ctrl: false, press: false };
    assert_eq!(p.handle_key(release, &shown), PickerAction::Continue);
    assert_eq!(p.handle_key(press(KeyCode::Char('q')), &shown), PickerAction::Quit);
}

#[test]
fn picker_filter_typing_and_escape() {
    let files = vec!["./a.md".to_string(), "./b.md".to_string()];
    let mut p = Picker::new();
    let all = picker_visible(&files, "");
    p.handle_key(press(KeyCode::Down), &all);
    assert_eq!(p.selected, 1);
    p.handle_key(press(KeyCode::Char('/')), &all);
    assert!(p.filter_mode);
    assert_eq!(p.filter_text, "");
    p.handle_key(press(KeyCode::Char('b')), &all);
    assert_eq!(p.filter_text, "b");
    assert_eq!(p.selected, 0);
    // 'q' is typed into the filter, not taken as quit
    let shown = picker_visible(&files, &p.filter_text);
    assert_eq!(p.handle_key(press(KeyCode::Char('q')), &shown), PickerAction::Continue);
    assert_eq!(p.filter_text, "bq");
    p.handle_key(press(KeyCode::Backspace), &shown);
    assert_eq!(p.filter_text, "b");
    // Esc clears the filter and every file shows again
    let shown = picker_visible(&files, &p.filter_text);
    p.handle_key(press(KeyCode::Esc), &shown);
    assert!(!p.filter_mode);
    assert_eq!(p.filter_text, "");
    assert_eq!(picker_visible(&files, &p.filter_text).len(), 2);
    // outside the filter bar Esc quits
    assert_eq!(p.handle_key(press(KeyCode::Esc), &all), PickerAction::Quit);
}

#[test]
fn picker_backspace_on_last_char_closes_filter() {
    let files = vec!["./a.md".to_string()];
    let all = picker_visible(&files, "");
    let mut p = Picker::new();
    p.handle_key(press(KeyCode::Char('/')), &all);
    p.handle_key(press(KeyCode::Char('a')), &all);
    p.handle_key(press(KeyCode::Backspace), &all);
    assert!(!p.filter_mode);
    assert_eq!(p.filter_text, "");
}

#[test]
fn picker_enter_with_nothing_shown_continues() {
    let shown: Vec<(usize, HashSet<usize>)> = Vec::new();
    let mut p = Picker::new();
    assert_eq!(p.handle_key(press(KeyCode::Enter), &shown), PickerAction::Continue);
}

#[test]
fn clamp_selection_keeps_row_on_list() {
    let mut p = Picker::new();
    p.selected = 7;
    p.clamp_selection(3);
    assert_eq!(p.selected, 2);
    p.clamp_selection(0);
    assert_eq!(p.selected, 0);
}

#[test]
fn picker_title_and_help() {
    let theme = Theme::dark();
    assert_eq!(texts(&render_picker_title(false, "", &theme)), vec!["miru"]);
    assert_eq!(texts(&render_picker_title(true, "ab", &theme)), vec!["Filter: ", "ab"]);
    assert_eq!(
        texts(&render_picker_help(&theme)),
        vec!["j/k navigate · / filter · enter open · q quit"]
    );
}

#[test]
fn picker_list_lines() {
    let theme = Theme::dark();
    let files = vec!["./a.md".to_string(), "./dir/b.md".to_string()];
    let metas = vec![
        ("1 B".to_string(), "today".to_string()),
        ("2.0 KB".to_string(), "yesterday".to_string()),
    ];
    let shown = picker_visible(&files, "");
    let lines = render_picker_list(&files, &metas, &shown, 0, false, 10, &theme);
    assert_eq!(lines.len(), 4);
    assert_eq!(texts(&lines[0]), vec!["▌ ", "./a.md"]);
    assert_eq!(lines[0].spans[0].style, theme.picker_gutter);
    assert_eq!(lines[0].spans[1].style, theme.picker_selected);
    assert_eq!(texts(&lines[1]), vec!["  ", "1 B  today"]);
    assert_eq!(texts(&lines[2]), vec!["  ", "dir/", "b.md"]);
    assert_eq!(lines[2].spans[1].style, theme.picker_dir);
    assert_eq!(lines[2].spans[2].style, theme.picker_file);
    assert_eq!(texts(&lines[3]), vec!["  ", "2.0 KB  yesterday"]);
}

#[test]
fn picker_list_scrolls_to_selection_and_fits_height() {
    let theme = Theme::dark();
    let files: Vec<String> = (0..5).map(|i| format!("./f{i}.md")).collect();
    let metas: Vec<(String, String)> =
        (0..5).map(|_| ("1 B".to_string(), "today".to_string())).collect();
    let shown = picker_visible(&files, "");
    // four lines: two files per screen; file 3 selected, so files 2 and 3 show
    let lines = render_picker_list(&files, &metas, &shown, 3, false, 4, &theme);
    assert_eq!(lines.len(), 4);
    assert_eq!(texts(&lines[0]), vec!["  ", "./f2.md"]);
    assert_eq!(texts(&lines[2]), vec!["▌ ", "./f3.md"]);
    // an odd height leaves out the last size line
    let lines = render_picker_list(&files, &metas, &shown, 0, false, 3, &theme);
    assert_eq!(lines.len(), 3);
    assert_eq!(texts(&lines[2]), vec!["  ", "./f1.md"]);
}

#[test]
fn picker_list_marks_matches_across_directory_and_name() {
    let theme = Theme::dark();
    let files = vec!["./ab/cd.md".to_string()];
    let metas = vec![("1 B".to_string(), "today".to_string())];
    let mut marked = HashSet::new();
    marked.insert(0usize); // 'a' of the directory
    marked.insert(3usize); // 'c', the first character of the name
    let shown = vec![(0usize, marked)];
    let lines = render_picker_list(&files, &metas, &shown, 0, true, 2, &theme);
    assert_eq!(texts(&lines[0]), vec!["▌ ", "a", "b/", "c", "d.md"]);
    assert_eq!(lines[0].spans[1].style, theme.picker_match);
    assert_eq!(lines[0].spans[2].style, theme.picker_dir);
    assert_eq!(lines[0].spans[3].style, theme.picker_match);
    assert_eq!(lines[0].spans[4].style, theme.picker_selected);
}

#[test]
fn picker_marks_the_matched_characters_of_a_root_file() {
    let theme = Theme::dark();
    let files = vec!["./ab.md".to_string()];
    let metas = vec![("1 B".to_string(), "today".to_string())];
    let shown = picker_visible(&files, "b");
    assert_eq!(shown.len(), 1);
    let lines = render_picker_list(&files, &metas, &shown, 0, true, 2, &theme);
    assert_eq!(texts(&lines[0]), vec!["▌ ", "./a", "b", ".md"]);
    assert_eq!(lines[0].spans[2].style, theme.picker_match);
}

#[test]
fn picker_shifts_marks_past_a_wide_directory() {
    let theme = Theme::dark();
    let files = vec!["./é/x.md".to_string()];
    let metas = vec![("1 B".to_string(), "today".to_string())];
    let shown = picker_visible(&files, "x");
    assert_eq!(shown.len(), 1);
    let lines = render_picker_list(&files, &metas, &shown, 0, true, 2, &theme);
    assert_eq!(texts(&lines[0]), vec!["▌ ", "é/", "x", ".md"]);
    assert_eq!(lines[0].spans[2].style, theme.picker_match);
}

#[test]
fn shown_files_keep_the_selection_on_the_list() {
    let files = vec!["./a.md".to_string(), "./b.md".to_string(), "./bb.md".to_string()];
    let mut p = Picker::new();
    p.selected = 2;
    let shown = p.shown_files(&files);
    assert_eq!(shown.len(), 3);
    assert_eq!(p.selected, 2);
    p.filter_text = "a".to_string();
    let shown = p.shown_files(&files);
    assert_eq!(shown.len(), 1);
    assert_eq!(shown[0].0, 0);
    assert_eq!(p.selected, 0);
    p.filter_text = "zz".to_string();
    let shown = p.shown_files(&files);
    assert!(shown.is_empty());
    assert_eq!(p.selected, 0);
}

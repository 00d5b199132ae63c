use miru::line::{StyledLine, StyledSpan};
use miru::reader::{after_reader, next_screen, Key, KeyCode, Reader, ReaderAction, Screen};
use miru::search::{highlight_line, map_lower_offset_checked, map_lower_offset_to_orig};
use miru::style::{Color, Style, Theme};
use miru::tab::Tab;
use miru::view::{
    render_bottom_bar, render_document, render_help_bar, render_index, render_index_help,
    render_index_title, render_search_bar, render_tab_bar, shows_search_bar,
};

fn texts(line: &StyledLine) -> Vec<String> {
    line.spans.iter().map(|s| s.content.clone()).collect()
}

fn press(code: KeyCode) -> Key {
    Key { code, ctrl: false, press: true }
}

fn line_of(parts: &[(&str, Style)]) -> StyledLine {
    StyledLine::from_spans(
        parts.iter().map(|(t, s)| StyledSpan::styled(t.to_string(), *s)).collect(),
    )
}

const DOC: &str = "# Title\n\nfoo bar\nBaz FOO\n\n## Next\n\nend";

fn reader_with(paths: &[&str]) -> Reader {
    let theme = Theme::dark();
    let mut r = Reader::new();
    for p in paths {
        r.push_tab(Tab::new(p.to_string(), DOC, &theme, 80));
    }
    r
}

#[test]
fn new_tab_takes_file_name() {
    let theme = Theme::dark();
    let t = Tab::new("docs/notes.md".to_string(), DOC, &theme, 80);
    assert_eq!(t.name, "notes.md");
    assert_eq!(t.path, "docs/notes.md");
    assert_eq!(t.scroll, 0);
    assert_eq!(t.last_viewport_height, 24);
    assert!(!t.search_mode);
    assert!(t.matches.is_empty());
    assert_eq!(t.headings.len(), 2);
}

#[test]
fn scrolling_saturates_and_clamps() {
    let theme = Theme::dark();
    let mut t = Tab::new("a.md".to_string(), DOC, &theme, 80);
    t.scroll_up(3);
    assert_eq!(t.scroll, 0);
    t.scroll_down(usize::MAX);
    t.scroll_down(5);
    assert_eq!(t.scroll, usize::MAX);
    let n = t.lines.len();
    t.clamp_scroll(4);
    assert_eq!(t.scroll, n - 4);
    assert_eq!(t.last_viewport_height, 4);
    t.clamp_scroll(1000);
    assert_eq!(t.scroll, 0);
}

#[test]
fn search_finds_lines_case_insensitively() {
    let theme = Theme::dark();
    let mut t = Tab::new("a.md".to_string(), DOC, &theme, 80);
    t.reading_key(KeyCode::Char('/'));
    assert!(t.search_mode);
    for c in "foo".chars() {
        t.search_key(KeyCode::Char(c));
    }
    assert_eq!(t.search_query, "foo");
    // "foo bar" and "Baz FOO"
    assert_eq!(t.matches.len(), 2);
    assert!(t.match_set.contains(&t.matches[0]));
    assert_eq!(t.current_match, 0);
    let bar = render_search_bar(&t, &theme);
    assert_eq!(texts(&bar), vec!["/ ", "foo", "  [1/2]"]);
    t.search_key(KeyCode::Enter);
    assert!(!t.search_mode);
    assert_eq!(t.scroll, t.matches[0]);
    t.reading_key(KeyCode::Char('n'));
    assert_eq!(t.current_match, 1);
    assert_eq!(t.scroll, t.matches[1]);
    assert_eq!(texts(&render_search_bar(&t, &theme)), vec!["/ ", "foo", "  [2/2]"]);
    t.reading_key(KeyCode::Char('n'));
    assert_eq!(t.current_match, 0);
    t.reading_key(KeyCode::Char('N'));
    assert_eq!(t.current_match, 1);
}

#[test]
fn next_then_prev_match_returns() {
    let theme = Theme::dark();
    let mut t = Tab::new("a.md".to_string(), DOC, &theme, 80);
    t.search_query = "o".to_string();
    t.update_matches();
    let before = (t.current_match, t.matches.clone());
    t.next_match();
    t.prev_match();
    assert_eq!((t.current_match, t.matches.clone()), before);
}

#[test]
fn search_backspace_and_escape() {
    let theme = Theme::dark();
    let mut t = Tab::new("a.md".to_string(), DOC, &theme, 80);
    t.reading_key(KeyCode::Char('/'));
    t.search_key(KeyCode::Char('q'));
    assert!(t.matches.is_empty());
    assert_eq!(texts(&render_search_bar(&t, &theme)), vec!["/ ", "q"]);
    t.search_key(KeyCode::Backspace);
    assert_eq!(t.search_query, "");
    t.search_key(KeyCode::Char('e'));
    assert!(!t.matches.is_empty());
    t.search_key(KeyCode::Esc);
    assert!(!t.search_mode);
    assert_eq!(t.search_query, "");
    assert!(t.matches.is_empty());
    assert!(t.match_set.is_empty());
}

#[test]
fn reading_keys_scroll() {
    let theme = Theme::dark();
    let mut t = Tab::new("a.md".to_string(), DOC, &theme, 80);
    t.reading_key(KeyCode::Char('j'));
    t.reading_key(KeyCode::Down);
    assert_eq!(t.scroll, 2);
    t.reading_key(KeyCode::Char('k'));
    assert_eq!(t.scroll, 1);
    t.reading_key(KeyCode::Char('d'));
    assert_eq!(t.scroll, 13);
    t.reading_key(KeyCode::Char('u'));
    assert_eq!(t.scroll, 1);
    t.reading_key(KeyCode::Char('G'));
    assert_eq!(t.scroll, t.lines.len());
    t.reading_key(KeyCode::Char('g'));
    assert_eq!(t.scroll, 0);
}

#[test]
fn switching_tabs_and_back() {
    let mut r = reader_with(&["a.md", "b.md", "c.md"]);
    assert_eq!(r.active, 2);
    r.tabs[2].scroll = 5;
    assert_eq!(r.handle_key(press(KeyCode::Char('l'))), ReaderAction::Continue);
    assert_eq!(r.active, 0);
    assert_eq!(r.handle_key(press(KeyCode::Char('h'))), ReaderAction::Continue);
    assert_eq!(r.active, 2);
    assert_eq!(r.tabs[2].scroll, 5);
    r.handle_key(press(KeyCode::Char('h')));
    assert_eq!(r.active, 1);
}

#[test]
fn open_switches_to_a_tab_already_open() {
    let mut r = reader_with(&["a.md", "b.md"]);
    assert!(r.switch_to_open("a.md"));
    assert_eq!(r.active, 0);
    assert!(!r.switch_to_open("c.md"));
    assert_eq!(r.active, 0);
    assert_eq!(r.position_of("b.md"), Some(1));
    assert_eq!(r.position_of("x.md"), None);
}

#[test]
fn closing_tabs() {
    let mut r = reader_with(&["a.md", "b.md"]);
    assert_eq!(r.active, 1);
    assert_eq!(r.handle_key(press(KeyCode::Char('w'))), ReaderAction::Continue);
    assert_eq!(r.tabs.len(), 1);
    assert_eq!(r.active, 0);
    assert_eq!(r.tabs[0].path, "a.md");
    assert_eq!(r.handle_key(press(KeyCode::Char('w'))), ReaderAction::BackToPicker);
    assert!(r.tabs.is_empty());
    r.close_active();
    assert!(r.tabs.is_empty());
}

#[test]
fn reader_actions() {
    let mut r = reader_with(&["a.md"]);
    assert_eq!(r.handle_key(press(KeyCode::Char('q'))), ReaderAction::Quit);
    assert_eq!(r.handle_key(press(KeyCode::Backspace)), ReaderAction::BackToPicker);
    let ctrl_t = Key { code: KeyCode::Char('t'), ctrl: true, press: true };
    assert_eq!(r.handle_key(ctrl_t), ReaderAction::OpenNewTab);
    assert!(!r.show_help);
    r.handle_key(press(KeyCode::Char('?')));
    assert!(r.show_help);
    let release = Key { code: KeyCode::Char('q'), ctrl: false, press: false };
    assert_eq!(r.handle_key(release), ReaderAction::Continue);
}

#[test]
fn search_bar_takes_q_as_text() {
    let mut r = reader_with(&["a.md"]);
    r.handle_key(press(KeyCode::Char('/')));
    assert_eq!(r.handle_key(press(KeyCode::Char('q'))), ReaderAction::Continue);
    assert_eq!(r.tabs[0].search_query, "q");
}

#[test]
fn index_jumps_to_heading() {
    let mut r = reader_with(&["a.md"]);
    r.handle_key(press(KeyCode::Tab));
    assert!(r.index_mode);
    assert_eq!(r.tabs[0].index_selected, 0);
    r.handle_key(press(KeyCode::Char('j')));
    r.handle_key(press(KeyCode::Char('j')));
    assert_eq!(r.tabs[0].index_selected, 1);
    r.handle_key(press(KeyCode::Char('k')));
    assert_eq!(r.tabs[0].index_selected, 0);
    r.handle_key(press(KeyCode::Char('G')));
    assert_eq!(r.tabs[0].index_selected, 1);
    r.handle_key(press(KeyCode::Enter));
    assert!(!r.index_mode);
    let line = r.tabs[0].headings[1].line_index;
    assert_eq!(r.tabs[0].scroll, line);
    assert_eq!(texts(&r.tabs[0].lines[line]), vec!["Next"]);
    r.handle_key(press(KeyCode::Tab));
    // reopening the index keeps the selection
    assert_eq!(r.tabs[0].index_selected, 1);
    r.handle_key(press(KeyCode::Char('g')));
    assert_eq!(r.tabs[0].index_selected, 0);
    r.handle_key(press(KeyCode::Esc));
    assert!(!r.index_mode);
    r.handle_key(press(KeyCode::Tab));
    assert_eq!(r.handle_key(press(KeyCode::Char('q'))), ReaderAction::Quit);
}

#[test]
fn each_tab_keeps_its_index_selection() {
    let mut r = reader_with(&["a.md", "b.md"]);
    r.handle_key(press(KeyCode::Char('l')));
    assert_eq!(r.active, 0);
    r.tabs[0].scroll = 3;
    r.handle_key(press(KeyCode::Tab));
    r.handle_key(press(KeyCode::Char('j')));
    r.handle_key(press(KeyCode::Esc));
    r.handle_key(press(KeyCode::Char('l')));
    assert_eq!(r.active, 1);
    r.handle_key(press(KeyCode::Tab));
    assert_eq!(r.tabs[1].index_selected, 0);
    r.handle_key(press(KeyCode::Esc));
    r.handle_key(press(KeyCode::Char('h')));
    r.handle_key(press(KeyCode::Tab));
    assert!(r.index_mode);
    assert_eq!(r.active, 0);
    assert_eq!(r.tabs[0].index_selected, 1);
    assert_eq!(r.tabs[0].scroll, 3);
}

#[test]
fn search_bar_stays_after_enter_while_matches_show() {
    let theme = Theme::dark();
    let mut t = Tab::new("a.md".to_string(), DOC, &theme, 80);
    assert!(!shows_search_bar(&t));
    t.reading_key(KeyCode::Char('/'));
    assert!(shows_search_bar(&t));
    for c in "foo".chars() {
        t.search_key(KeyCode::Char(c));
    }
    t.search_key(KeyCode::Enter);
    t.reading_key(KeyCode::Char('n'));
    assert!(shows_search_bar(&t));
    assert_eq!(texts(&render_search_bar(&t, &theme)), vec!["/ ", "foo", "  [2/2]"]);
    t.reading_key(KeyCode::Char('/'));
    t.search_key(KeyCode::Esc);
    assert!(!shows_search_bar(&t));
}

#[test]
fn index_title_and_help() {
    let theme = Theme::dark();
    assert_eq!(texts(&render_index_title(&theme)), vec!["Index"]);
    assert_eq!(render_index_title(&theme).spans[0].style, theme.index_title);
    assert_eq!(
        texts(&render_index_help(&theme)),
        vec!["j/k navigate · enter jump · tab/esc close"]
    );
}

#[test]
fn open_compares_paths_by_component() {
    let mut r = reader_with(&["a/b.md", "c.md"]);
    assert!(r.switch_to_open("a//b.md"));
    assert_eq!(r.active, 0);
    // a leading "." is a component of its own
    assert!(!r.switch_to_open("./c.md"));
    assert_eq!(r.position_of("a/./b.md"), Some(0));
    assert_eq!(r.position_of("a/x.md"), None);
}

#[test]
fn lower_offset_checked() {
    assert_eq!(map_lower_offset_checked("HELLO", "hello", 0, 0, 3), Some(3));
    assert_eq!(map_lower_offset_checked("İx", "i̇x", 0, 0, 3), Some(2));
    // the lower-case text runs out before the target
    assert_eq!(map_lower_offset_checked("ab", "ab", 0, 0, 5), None);
    // a start offset inside a character
    assert_eq!(map_lower_offset_checked("éa", "éa", 1, 1, 2), None);
}

#[test]
fn tab_bar_fills_the_width() {
    let theme = Theme::dark();
    let r = reader_with(&["a.md", "b.md"]);
    let bar = render_tab_bar(&r, &theme, 20);
    assert_eq!(texts(&bar), vec![" a.md ", " ", " b.md ", "       "]);
    assert_eq!(bar.spans[0].style, theme.tab_inactive);
    assert_eq!(bar.spans[2].style, theme.tab_active);
    assert_eq!(bar.spans[3].style, theme.tab_bar_bg);
    let narrow = render_tab_bar(&r, &theme, 5);
    assert_eq!(narrow.spans.len(), 3);
}

#[test]
fn help_and_bottom_bars() {
    let theme = Theme::dark();
    let help = render_help_bar(&theme);
    assert_eq!(
        help.text(),
        "j/k scroll  d/u page  / search  h/l tabs  tab index  ^T open  w close  q quit"
    );
    assert_eq!(help.spans[0].style, theme.help_key);
    assert_eq!(help.spans[1].style, theme.help_bar);
    assert_eq!(texts(&render_bottom_bar(false, &theme)), vec!["? help"]);
    assert_eq!(render_bottom_bar(true, &theme).text(), help.text());
}

#[test]
fn index_lines_show_levels_and_selection() {
    let theme = Theme::dark();
    let t = Tab::new("a.md".to_string(), "# A\n\n## B\n\n### C", &theme, 80);
    let lines = render_index(&t.headings, 1, 10, &theme);
    assert_eq!(lines.len(), 3);
    assert_eq!(texts(&lines[0]), vec!["  ", "A"]);
    assert_eq!(texts(&lines[1]), vec!["▌ ", "  B"]);
    assert_eq!(lines[1].spans[0].style, theme.index_gutter);
    assert_eq!(lines[1].spans[1].style, theme.index_selected);
    assert_eq!(texts(&lines[2]), vec!["  ", "    C"]);
    assert_eq!(lines[2].spans[1].style, theme.index_item);
    // two lines high with the last one selected: the list scrolls
    let lines = render_index(&t.headings, 2, 2, &theme);
    assert_eq!(lines.len(), 2);
    assert_eq!(texts(&lines[0]), vec!["  ", "  B"]);
}

#[test]
fn document_highlights_matching_lines() {
    let theme = Theme::dark();
    let mut t = Tab::new("a.md".to_string(), "abc\n\nxbx", &theme, 80);
    t.search_query = "b".to_string();
    t.update_matches();
    assert_eq!(t.matches, vec![0, 2]);
    let lines = render_document(&t, &theme);
    assert_eq!(texts(&lines[0]), vec!["a", "b", "c"]);
    assert_eq!(lines[0].spans[1].style, theme.search_active);
    assert_eq!(texts(&lines[2]), vec!["x", "b", "x"]);
    assert_eq!(lines[2].spans[1].style, theme.search_highlight);
    assert!(lines[1].spans.is_empty());
    t.search_query = String::new();
    let plain = render_document(&t, &theme);
    assert_eq!(texts(&plain[0]), vec!["abc"]);
}

#[test]
fn highlight_line_marks_each_occurrence() {
    let hl = Style::new().fg(Color::Black).bg(Color::Yellow);
    let base = Style::new().fg(Color::Blue);
    let line = line_of(&[("Hello World", base)]);
    let out = highlight_line(&line, "world", hl);
    assert_eq!(texts(&out), vec!["Hello ", "World"]);
    assert_eq!(out.spans[0].style, base);
    assert_eq!(out.spans[1].style, hl);
    let out = highlight_line(&line_of(&[("aXa", base)]), "A", hl);
    assert_eq!(texts(&out), vec!["a", "X", "a"]);
    assert_eq!(out.spans[0].style, hl);
    assert_eq!(out.spans[1].style, base);
    assert_eq!(out.spans[2].style, hl);
}

#[test]
fn highlight_line_works_span_by_span() {
    let hl = Style::new().bg(Color::Yellow);
    let line = line_of(&[("fo", Style::new()), ("o foo", Style::new().fg(Color::Green))]);
    let out = highlight_line(&line, "foo", hl);
    // a match across two spans is not marked
    assert_eq!(texts(&out), vec!["fo", "o ", "foo"]);
    assert_eq!(out.spans[2].style, hl);
    assert_eq!(out.text(), line.text());
}

#[test]
fn highlight_line_keeps_original_case_and_width() {
    let hl = Style::new().bg(Color::Yellow);
    // 'İ' lower-cases to two characters; the match still covers 'İ' only
    let out = highlight_line(&line_of(&[("xİy", Style::new())]), "i̇", hl);
    assert_eq!(texts(&out), vec!["x", "İ", "y"]);
    assert_eq!(out.spans[1].style, hl);
}

#[test]
fn highlight_line_without_match_keeps_line() {
    let hl = Style::new().bg(Color::Yellow);
    let line = line_of(&[("abc", Style::new())]);
    assert_eq!(texts(&highlight_line(&line, "zz", hl)), vec!["abc"]);
}

#[test]
fn lower_offset_maps_back() {
    assert_eq!(map_lower_offset_to_orig("HELLO", "hello", 0, 0, 3), 3);
    assert_eq!(map_lower_offset_to_orig("ABCDEF", "abcdef", 2, 2, 5), 5);
    // 'İ' is two bytes and lower-cases to three
    assert_eq!(map_lower_offset_to_orig("İx", "i̇x", 0, 0, 3), 2);
    assert_eq!(map_lower_offset_to_orig("İx", "i̇x", 0, 0, 4), 3);
    assert_eq!(map_lower_offset_to_orig("abc", "abc", 1, 1, 1), 1);
}

#[test]
fn screens_follow_the_reader() {
    assert_eq!(next_screen(false, false), Screen::Done);
    assert_eq!(next_screen(false, true), Screen::Picker);
    assert_eq!(next_screen(true, false), Screen::Reader);
    assert_eq!(after_reader(ReaderAction::Quit, true, true), Screen::Done);
    assert_eq!(after_reader(ReaderAction::BackToPicker, false, true), Screen::Picker);
    assert_eq!(after_reader(ReaderAction::BackToPicker, true, false), Screen::Done);
    assert_eq!(after_reader(ReaderAction::BackToPicker, true, true), Screen::Reader);
    assert_eq!(after_reader(ReaderAction::OpenNewTab, true, true), Screen::Picker);
    assert_eq!(after_reader(ReaderAction::OpenNewTab, true, false), Screen::Reader);
}

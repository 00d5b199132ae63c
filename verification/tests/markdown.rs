use miru::line::StyledLine;
use miru::parse::parse;
use miru::render::render_code_block;
use miru::style::{Mode, Style, Theme};

fn texts(line: &StyledLine) -> Vec<String> {
    line.spans.iter().map(|s| s.content.clone()).collect()
}

fn text(line: &StyledLine) -> String {
    line.spans.iter().map(|s| s.content.as_str()).collect()
}

#[test]
fn h1_is_upper_case_and_underlined() {
    let theme = Theme::dark();
    let (lines, headings) = parse("# Hello", &theme, 80);
    assert_eq!(lines.len(), 3);
    assert_eq!(texts(&lines[0]), vec!["HELLO"]);
    assert_eq!(lines[0].spans[0].style, theme.h1);
    assert_eq!(texts(&lines[1]), vec!["═════"]);
    assert_eq!(lines[1].spans[0].style, theme.border);
    assert!(lines[2].spans.is_empty());
    assert_eq!(headings.len(), 1);
    assert_eq!(headings[0].text, "Hello");
    assert_eq!(headings[0].level, 1);
    assert_eq!(headings[0].line_index, 0);
}

#[test]
fn h2_and_h3_headings() {
    let theme = Theme::dark();
    let (lines, headings) = parse("## Sub\n\n### Deep", &theme, 80);
    assert_eq!(texts(&lines[0]), vec!["Sub"]);
    assert_eq!(lines[0].spans[0].style, theme.h2);
    assert_eq!(texts(&lines[1]), vec!["───"]);
    assert!(lines[2].spans.is_empty());
    assert_eq!(texts(&lines[3]), vec!["Deep"]);
    assert_eq!(lines[3].spans[0].style, theme.h3);
    assert!(lines[4].spans.is_empty());
    assert_eq!(lines.len(), 5);
    assert_eq!(headings.len(), 2);
    assert_eq!((headings[0].level, headings[0].line_index), (2, 0));
    assert_eq!((headings[1].level, headings[1].line_index), (3, 3));
}

#[test]
fn heading_underline_counts_bytes() {
    let theme = Theme::dark();
    let (lines, _) = parse("## é", &theme, 80);
    // "é" is two bytes long
    assert_eq!(texts(&lines[1]), vec!["──"]);
}

#[test]
fn headings_point_at_their_lines() {
    let theme = Theme::light();
    let doc = "# One\n\nText here.\n\n## Two\n\nMore.\n\n#### Four";
    let (lines, headings) = parse(doc, &theme, 40);
    assert_eq!(headings.len(), 3);
    let mut last = 0;
    for (i, h) in headings.iter().enumerate() {
        assert!(h.line_index < lines.len());
        if i > 0 {
            assert!(h.line_index > last);
        }
        last = h.line_index;
    }
    assert_eq!(text(&lines[headings[0].line_index]), "ONE");
    assert_eq!(text(&lines[headings[1].line_index]), "Two");
    assert_eq!(text(&lines[headings[2].line_index]), "Four");
    assert_eq!(lines[headings[2].line_index].spans[0].style, theme.h_other);
}

#[test]
fn paragraph_with_emphasis_strong_and_code() {
    let theme = Theme::dark();
    let (lines, headings) = parse("Some *it* and **bold** `x`.", &theme, 80);
    assert!(headings.is_empty());
    assert_eq!(lines.len(), 2);
    assert_eq!(texts(&lines[0]), vec!["Some ", "it", " and ", "bold", " ", " x ", "."]);
    assert_eq!(lines[0].spans[0].style, Style::new());
    assert_eq!(lines[0].spans[1].style, theme.emphasis);
    assert_eq!(lines[0].spans[3].style, theme.strong);
    assert_eq!(lines[0].spans[5].style, theme.inline_code);
    assert!(lines[1].spans.is_empty());
}

#[test]
fn soft_break_starts_a_new_line() {
    let theme = Theme::dark();
    let (lines, _) = parse("one\ntwo", &theme, 80);
    assert_eq!(lines.len(), 3);
    assert_eq!(texts(&lines[0]), vec!["one"]);
    assert_eq!(texts(&lines[1]), vec!["two"]);
    assert!(lines[2].spans.is_empty());
}

#[test]
fn link_shows_its_target() {
    let theme = Theme::dark();
    let (lines, _) = parse("[site](http://a.b)", &theme, 80);
    assert_eq!(texts(&lines[0]), vec!["site", " (http://a.b)"]);
    assert_eq!(lines[0].spans[0].style, theme.link);
    assert_eq!(lines[0].spans[1].style, theme.link);
}

#[test]
fn list_items_with_bullets() {
    let theme = Theme::dark();
    let (lines, _) = parse("- one\n- two\n", &theme, 80);
    assert_eq!(lines.len(), 3);
    assert_eq!(texts(&lines[0]), vec!["  • ", "one"]);
    assert_eq!(lines[0].spans[0].style, theme.list_bullet);
    assert_eq!(texts(&lines[1]), vec!["  • ", "two"]);
    assert!(lines[2].spans.is_empty());
}

#[test]
fn nested_list_items_get_their_own_lines() {
    let theme = Theme::dark();
    let (lines, _) = parse("- a\n  - b\n", &theme, 80);
    assert_eq!(texts(&lines[0]), vec!["  • ", "a"]);
    assert_eq!(texts(&lines[1]), vec!["    • ", "b"]);
    assert!(lines[2..].iter().all(|l| l.spans.is_empty()));
}

#[test]
fn rule_spans_the_width() {
    let theme = Theme::dark();
    let (lines, _) = parse("a\n\n***\n", &theme, 5);
    assert_eq!(texts(&lines[0]), vec!["a"]);
    assert!(lines[1].spans.is_empty());
    assert_eq!(texts(&lines[2]), vec!["─────"]);
    assert_eq!(lines[2].spans[0].style, theme.rule);
    assert!(lines[3].spans.is_empty());
    assert_eq!(lines.len(), 4);
}

#[test]
fn blockquote_is_styled() {
    let theme = Theme::dark();
    let (lines, _) = parse("> quoted", &theme, 80);
    assert_eq!(texts(&lines[0]), vec!["│ ", "quoted"]);
    assert_eq!(lines[0].spans[0].style, theme.blockquote);
    assert_eq!(lines[0].spans[1].style, theme.blockquote);
}

#[test]
fn fenced_code_block_with_label_and_numbers() {
    let theme = Theme::dark();
    let (lines, _) = parse("```rust\nfn main() {}\nlet x = 1;\n```\n", &theme, 80);
    assert_eq!(lines.len(), 4);
    assert_eq!(texts(&lines[0]), vec!["  rust"]);
    assert_eq!(lines[0].spans[0].style, theme.code_label);
    assert_eq!(texts(&lines[1]), vec!["  1", " │ ", "fn main() {}"]);
    assert_eq!(lines[1].spans[0].style, theme.code_line_nr);
    assert_eq!(lines[1].spans[1].style, theme.border);
    assert_eq!(lines[1].spans[2].style, theme.code_text);
    assert_eq!(texts(&lines[2]), vec!["  2", " │ ", "let x = 1;"]);
    assert!(lines[3].spans.is_empty());
}

#[test]
fn code_block_numbers_are_right_aligned() {
    let theme = Theme::dark();
    let code: Vec<String> = (1..=10).map(|i| format!("l{i}")).collect();
    let mut lines: Vec<StyledLine> = Vec::new();
    render_code_block("", &code, &mut lines, &theme);
    assert_eq!(lines.len(), 11);
    assert_eq!(texts(&lines[0]), vec!["   1", " │ ", "l1"]);
    assert_eq!(texts(&lines[9]), vec!["  10", " │ ", "l10"]);
    assert!(lines[10].spans.is_empty());
}

#[test]
fn code_block_drops_trailing_empty_lines() {
    let theme = Theme::dark();
    let code = vec!["a".to_string(), String::new(), String::new()];
    let mut lines: Vec<StyledLine> = Vec::new();
    render_code_block("py", &code, &mut lines, &theme);
    assert_eq!(lines.len(), 3);
    assert_eq!(texts(&lines[0]), vec!["  py"]);
    assert_eq!(texts(&lines[1]), vec!["  1", " │ ", "a"]);
}

#[test]
fn table_is_boxed_and_aligned() {
    let theme = Theme::dark();
    let (lines, _) = parse("| a | bb |\n|---|---|\n| ccc | d |\n", &theme, 80);
    let rendered: Vec<String> = lines.iter().map(text).collect();
    assert_eq!(
        rendered,
        vec![
            "┌─────┬────┐",
            "│ a   │ bb │",
            "├─────┼────┤",
            "│ ccc │ d  │",
            "└─────┴────┘",
            "",
        ]
    );
    assert_eq!(lines[1].spans[1].style, theme.table_header);
    assert_eq!(lines[3].spans[1].style, theme.table_cell);
    assert_eq!(lines[0].spans[0].style, theme.table_border);
    // every line of the box has the same number of characters
    let widths: Vec<usize> = rendered[..5].iter().map(|l| l.chars().count()).collect();
    assert!(widths.iter().all(|w| *w == widths[0]));
}

#[test]
fn table_cell_keeps_inline_code_ticks() {
    let theme = Theme::dark();
    let (lines, _) = parse("| `x` |\n|---|\n", &theme, 80);
    assert_eq!(text(&lines[1]), "│ `x` │");
}

#[test]
fn empty_document_has_no_lines() {
    let theme = Theme::for_mode(Mode::Dark);
    let (lines, headings) = parse("", &theme, 80);
    assert!(lines.is_empty());
    assert!(headings.is_empty());
}

#[test]
fn themes_differ_by_mode() {
    let d = Theme::for_mode(Mode::Dark);
    let l = Theme::for_mode(Mode::Light);
    assert_eq!(d.h1, Theme::dark().h1);
    assert_eq!(l.h1, Theme::light().h1);
    assert_ne!(Theme::dark().picker_file, Theme::light().picker_file);
}

#[test]
fn table_with_wide_characters_stays_aligned() {
    let theme = Theme::dark();
    let (lines, _) = parse("| é | b |\n|---|---|\n| x | yy |\n", &theme, 80);
    let rendered: Vec<String> = lines.iter().map(text).collect();
    let widths: Vec<usize> = rendered[..5].iter().map(|l| l.chars().count()).collect();
    assert!(widths.iter().all(|w| *w == widths[0]));
}

#[test]
fn heading_levels_run_from_one_to_six() {
    let theme = Theme::dark();
    let (_, headings) = parse("# a\n\n###### f", &theme, 80);
    assert_eq!(headings.len(), 2);
    assert_eq!(headings[0].level, 1);
    assert_eq!(headings[1].level, 6);
}

#[test]
fn quoted_heading_keeps_its_text() {
    let theme = Theme::dark();
    let (lines, headings) = parse("> # T", &theme, 80);
    assert_eq!(headings.len(), 1);
    assert_eq!(headings[0].text, "T");
    assert_eq!(headings[0].level, 1);
    assert_eq!(text(&lines[headings[0].line_index]), "T");
}

#[test]
fn quote_marks_each_of_its_lines() {
    let theme = Theme::dark();
    let (lines, _) = parse("> a\n> b", &theme, 80);
    assert_eq!(texts(&lines[0]), vec!["│ ", "a"]);
    assert_eq!(texts(&lines[1]), vec!["│ ", "b"]);
    assert_eq!(lines[1].spans[0].style, theme.blockquote);
}

#[test]
fn quoted_list_has_no_stray_line() {
    let theme = Theme::dark();
    let (lines, _) = parse("> - a", &theme, 80);
    assert_eq!(texts(&lines[0]), vec!["│ ", "  • ", "a"]);
    assert!(lines[1..].iter().all(|l| l.spans.is_empty()));
}

#[test]
fn text_after_a_quote_is_not_marked() {
    let theme = Theme::dark();
    let (lines, _) = parse("> a\n\nb", &theme, 80);
    let b = lines.iter().find(|l| text(l) == "b");
    assert!(b.is_some());
}

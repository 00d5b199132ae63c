//! Colours, styles and the two palettes (dark and light) of the reader.
use vstd::prelude::*;

verus! {

/// A terminal colour.
#[derive(Clone, Copy, Debug, PartialEq, Eq, Structural)]
pub enum Color {
    Black,
    Green,
    Yellow,
    Blue,
    Magenta,
    Cyan,
    DarkGray,
    White,
    Rgb(u8, u8, u8),
}

/// A text modifier.
#[derive(Clone, Copy, Debug, PartialEq, Eq, Structural)]
pub enum Modifier {
    Bold,
    Italic,
    Underlined,
}

/// How a piece of text is drawn: optional foreground and background colours
/// and three modifiers. `Style::new()` leaves the terminal's defaults.
#[derive(Clone, Copy, Debug, PartialEq, Eq, Structural)]
pub struct Style {
    pub fg: Option<Color>,
    pub bg: Option<Color>,
    pub bold: bool,
    pub italic: bool,
    pub underlined: bool,
}

/// The style with the given colours and modifiers.
pub open spec fn style(
    fg: Option<Color>,
    bg: Option<Color>,
    bold: bool,
    italic: bool,
    underlined: bool,
) -> Style {
    Style { fg, bg, bold, italic, underlined }
}

/// The style that changes nothing.
pub open spec fn plain_style() -> Style {
    style(None, None, false, false, false)
}

impl Style {
    /// The style that changes nothing.
    pub fn new() -> (s: Style)
        ensures
            s == plain_style(),
    {
        Style { fg: None, bg: None, bold: false, italic: false, underlined: false }
    }

    /// This style with foreground colour `c`.
    pub fn fg(self, c: Color) -> (s: Style)
        ensures
            s == (Style { fg: Some(c), ..self }),
    {
        Style { fg: Some(c), ..self }
    }

    /// This style with background colour `c`.
    pub fn bg(self, c: Color) -> (s: Style)
        ensures
            s == (Style { bg: Some(c), ..self }),
    {
        Style { bg: Some(c), ..self }
    }

    /// This style with modifier `m` added.
    pub fn add_modifier(self, m: Modifier) -> (s: Style)
        ensures
            s == (match m {
                Modifier::Bold => Style { bold: true, ..self },
                Modifier::Italic => Style { italic: true, ..self },
                Modifier::Underlined => Style { underlined: true, ..self },
            }),
    {
        match m {
            Modifier::Bold => Style { bold: true, ..self },
            Modifier::Italic => Style { italic: true, ..self },
            Modifier::Underlined => Style { underlined: true, ..self },
        }
    }
}

impl Default for Style {
    fn default() -> (s: Style)
        ensures
            s == plain_style(),
    {
        Style::new()
    }
}

/// Whether the terminal has a dark or a light background.
#[derive(Clone, Copy, Debug, PartialEq, Eq, Structural)]
pub enum Mode {
    Dark,
    Light,
}

/// The styles of every part of the reader and the picker.
#[derive(Clone, Copy, Debug)]
pub struct Theme {
    // Markdown
    pub h1: Style,
    pub h2: Style,
    pub h3: Style,
    pub h_other: Style,
    pub emphasis: Style,
    pub strong: Style,
    pub blockquote: Style,
    pub link: Style,
    pub inline_code: Style,
    pub list_bullet: Style,
    pub rule: Style,
    pub border: Style,
    pub code_label: Style,
    pub code_line_nr: Style,
    pub code_text: Style,
    pub table_header: Style,
    pub table_cell: Style,
    pub table_border: Style,
    // Picker
    pub picker_title: Style,
    pub picker_selected: Style,
    pub picker_gutter: Style,
    pub picker_file: Style,
    pub picker_meta: Style,
    pub picker_help: Style,
    pub picker_filter_prompt: Style,
    pub picker_filter_input: Style,
    pub picker_match: Style,
    pub picker_dir: Style,
    // Reader search
    pub search_highlight: Style,
    pub search_active: Style,
    pub search_prompt: Style,
    // Tabs
    pub tab_active: Style,
    pub tab_inactive: Style,
    pub tab_bar_bg: Style,
    // Help bar
    pub help_bar: Style,
    pub help_key: Style,
    // Headings index
    pub index_title: Style,
    pub index_selected: Style,
    pub index_item: Style,
    pub index_gutter: Style,
}

/// The palette for dark backgrounds.
pub open spec fn dark_theme() -> Theme {
    Theme {
            h1: style(Some(Color::Magenta), None, true, false, false),
            h2: style(Some(Color::Cyan), None, true, false, false),
            h3: style(Some(Color::Green), None, true, false, false),
            h_other: style(Some(Color::Yellow), None, true, false, false),
            emphasis: style(None, None, false, true, false),
            strong: style(None, None, true, false, false),
            blockquote: style(Some(Color::DarkGray), None, false, true, false),
            link: style(Some(Color::Blue), None, false, false, true),
            inline_code: style(Some(Color::Green), Some(Color::Rgb(40, 40, 40)), false, false, false),
            list_bullet: style(None, None, false, false, false),
            rule: style(Some(Color::DarkGray), None, false, false, false),
            border: style(Some(Color::DarkGray), None, false, false, false),
            code_label: style(Some(Color::Cyan), None, true, false, false),
            code_line_nr: style(Some(Color::DarkGray), None, false, false, false),
            code_text: style(None, None, false, false, false),
            table_header: style(Some(Color::Cyan), None, true, false, false),
            table_cell: style(None, None, false, false, false),
            table_border: style(Some(Color::DarkGray), None, false, false, false),
            picker_title: style(Some(Color::Magenta), None, true, false, false),
            picker_selected: style(Some(Color::Magenta), None, false, false, false),
            picker_gutter: style(Some(Color::Magenta), None, false, false, false),
            picker_file: style(Some(Color::Rgb(221, 221, 221)), None, false, false, false),
            picker_meta: style(Some(Color::DarkGray), None, false, false, false),
            picker_help: style(Some(Color::DarkGray), None, false, false, false),
            picker_filter_prompt: style(Some(Color::Cyan), None, true, false, false),
            picker_filter_input: style(Some(Color::White), None, false, false, false),
            picker_match: style(Some(Color::Magenta), None, false, false, true),
            picker_dir: style(Some(Color::DarkGray), None, false, false, false),
            search_highlight: style(Some(Color::Black), Some(Color::Yellow), false, false, false),
            search_active: style(Some(Color::Black), Some(Color::Rgb(255, 150, 50)), false, false, false),
            search_prompt: style(Some(Color::Cyan), None, true, false, false),
            tab_active: style(Some(Color::Black), Some(Color::Magenta), true, false, false),
            tab_inactive: style(Some(Color::Rgb(180, 180, 180)), Some(Color::Rgb(30, 30, 30)), false, false, false),
            tab_bar_bg: style(None, Some(Color::Rgb(30, 30, 30)), false, false, false),
            help_bar: style(Some(Color::DarkGray), None, false, false, false),
            help_key: style(Some(Color::Rgb(200, 200, 200)), None, true, false, false),
            index_title: style(Some(Color::Magenta), None, true, false, false),
            index_selected: style(Some(Color::Magenta), None, false, false, false),
            index_item: style(Some(Color::Rgb(180, 180, 180)), None, false, false, false),
            index_gutter: style(Some(Color::Magenta), None, false, false, false),
    }
}

/// The palette for light backgrounds.
pub open spec fn light_theme() -> Theme {
    Theme {
            h1: style(Some(Color::Rgb(170, 0, 170)), None, true, false, false),
            h2: style(Some(Color::Rgb(0, 130, 155)), None, true, false, false),
            h3: style(Some(Color::Rgb(0, 130, 0)), None, true, false, false),
            h_other: style(Some(Color::Rgb(160, 120, 0)), None, true, false, false),
            emphasis: style(None, None, false, true, false),
            strong: style(None, None, true, false, false),
            blockquote: style(Some(Color::Rgb(120, 120, 120)), None, false, true, false),
            link: style(Some(Color::Rgb(0, 50, 200)), None, false, false, true),
            inline_code: style(Some(Color::Rgb(0, 120, 0)), Some(Color::Rgb(230, 230, 230)), false, false, false),
            list_bullet: style(None, None, false, false, false),
            rule: style(Some(Color::Rgb(180, 180, 180)), None, false, false, false),
            border: style(Some(Color::Rgb(180, 180, 180)), None, false, false, false),
            code_label: style(Some(Color::Rgb(0, 130, 155)), None, true, false, false),
            code_line_nr: style(Some(Color::Rgb(160, 160, 160)), None, false, false, false),
            code_text: style(None, None, false, false, false),
            table_header: style(Some(Color::Rgb(0, 130, 155)), None, true, false, false),
            table_cell: style(None, None, false, false, false),
            table_border: style(Some(Color::Rgb(180, 180, 180)), None, false, false, false),
            picker_title: style(Some(Color::Rgb(170, 0, 170)), None, true, false, false),
            picker_selected: style(Some(Color::Rgb(170, 0, 170)), None, false, false, false),
            picker_gutter: style(Some(Color::Rgb(170, 0, 170)), None, false, false, false),
            picker_file: style(Some(Color::Rgb(30, 30, 30)), None, false, false, false),
            picker_meta: style(Some(Color::Rgb(140, 140, 140)), None, false, false, false),
            picker_help: style(Some(Color::Rgb(140, 140, 140)), None, false, false, false),
            picker_filter_prompt: style(Some(Color::Rgb(0, 130, 155)), None, true, false, false),
            picker_filter_input: style(Some(Color::Rgb(30, 30, 30)), None, false, false, false),
            picker_match: style(Some(Color::Rgb(170, 0, 170)), None, false, false, true),
            picker_dir: style(Some(Color::Rgb(140, 140, 140)), None, false, false, false),
            search_highlight: style(Some(Color::Black), Some(Color::Rgb(255, 230, 100)), false, false, false),
            search_active: style(Some(Color::Black), Some(Color::Rgb(255, 170, 50)), false, false, false),
            search_prompt: style(Some(Color::Rgb(0, 130, 155)), None, true, false, false),
            tab_active: style(Some(Color::White), Some(Color::Rgb(170, 0, 170)), true, false, false),
            tab_inactive: style(Some(Color::Rgb(80, 80, 80)), Some(Color::Rgb(230, 230, 230)), false, false, false),
            tab_bar_bg: style(None, Some(Color::Rgb(230, 230, 230)), false, false, false),
            help_bar: style(Some(Color::Rgb(140, 140, 140)), None, false, false, false),
            help_key: style(Some(Color::Rgb(60, 60, 60)), None, true, false, false),
            index_title: style(Some(Color::Rgb(170, 0, 170)), None, true, false, false),
            index_selected: style(Some(Color::Rgb(170, 0, 170)), None, false, false, false),
            index_item: style(Some(Color::Rgb(80, 80, 80)), None, false, false, false),
            index_gutter: style(Some(Color::Rgb(170, 0, 170)), None, false, false, false),
    }
}

/// The palette for a background mode.
pub open spec fn theme_for(mode: Mode) -> Theme {
    match mode {
        Mode::Dark => dark_theme(),
        Mode::Light => light_theme(),
    }
}

impl Theme {
    /// The palette for dark backgrounds.
    pub fn dark() -> (t: Theme)
        ensures
            t == dark_theme(),
    {
        Theme {
            h1: Style::new().fg(Color::Magenta).add_modifier(Modifier::Bold),
            h2: Style::new().fg(Color::Cyan).add_modifier(Modifier::Bold),
            h3: Style::new().fg(Color::Green).add_modifier(Modifier::Bold),
            h_other: Style::new().fg(Color::Yellow).add_modifier(Modifier::Bold),
            emphasis: Style::new().add_modifier(Modifier::Italic),
            strong: Style::new().add_modifier(Modifier::Bold),
            blockquote: Style::new().fg(Color::DarkGray).add_modifier(Modifier::Italic),
            link: Style::new().fg(Color::Blue).add_modifier(Modifier::Underlined),
            inline_code: Style::new().fg(Color::Green).bg(Color::Rgb(40, 40, 40)),
            list_bullet: Style::new(),
            rule: Style::new().fg(Color::DarkGray),
            border: Style::new().fg(Color::DarkGray),
            code_label: Style::new().fg(Color::Cyan).add_modifier(Modifier::Bold),
            code_line_nr: Style::new().fg(Color::DarkGray),
            code_text: Style::new(),
            table_header: Style::new().fg(Color::Cyan).add_modifier(Modifier::Bold),
            table_cell: Style::new(),
            table_border: Style::new().fg(Color::DarkGray),
            picker_title: Style::new().fg(Color::Magenta).add_modifier(Modifier::Bold),
            picker_selected: Style::new().fg(Color::Magenta),
            picker_gutter: Style::new().fg(Color::Magenta),
            picker_file: Style::new().fg(Color::Rgb(221, 221, 221)),
            picker_meta: Style::new().fg(Color::DarkGray),
            picker_help: Style::new().fg(Color::DarkGray),
            picker_filter_prompt: Style::new().fg(Color::Cyan).add_modifier(Modifier::Bold),
            picker_filter_input: Style::new().fg(Color::White),
            picker_match: Style::new().fg(Color::Magenta).add_modifier(Modifier::Underlined),
            picker_dir: Style::new().fg(Color::DarkGray),
            search_highlight: Style::new().fg(Color::Black).bg(Color::Yellow),
            search_active: Style::new().fg(Color::Black).bg(Color::Rgb(255, 150, 50)),
            search_prompt: Style::new().fg(Color::Cyan).add_modifier(Modifier::Bold),
            tab_active: Style::new().fg(Color::Black).bg(Color::Magenta).add_modifier(Modifier::Bold),
            tab_inactive: Style::new().fg(Color::Rgb(180, 180, 180)).bg(Color::Rgb(30, 30, 30)),
            tab_bar_bg: Style::new().bg(Color::Rgb(30, 30, 30)),
            help_bar: Style::new().fg(Color::DarkGray),
            help_key: Style::new().fg(Color::Rgb(200, 200, 200)).add_modifier(Modifier::Bold),
            index_title: Style::new().fg(Color::Magenta).add_modifier(Modifier::Bold),
            index_selected: Style::new().fg(Color::Magenta),
            index_item: Style::new().fg(Color::Rgb(180, 180, 180)),
            index_gutter: Style::new().fg(Color::Magenta),
        }
    }

    /// The palette for light backgrounds.
    pub fn light() -> (t: Theme)
        ensures
            t == light_theme(),
    {
        Theme {
            h1: Style::new().fg(Color::Rgb(170, 0, 170)).add_modifier(Modifier::Bold),
            h2: Style::new().fg(Color::Rgb(0, 130, 155)).add_modifier(Modifier::Bold),
            h3: Style::new().fg(Color::Rgb(0, 130, 0)).add_modifier(Modifier::Bold),
            h_other: Style::new().fg(Color::Rgb(160, 120, 0)).add_modifier(Modifier::Bold),
            emphasis: Style::new().add_modifier(Modifier::Italic),
            strong: Style::new().add_modifier(Modifier::Bold),
            blockquote: Style::new().fg(Color::Rgb(120, 120, 120)).add_modifier(Modifier::Italic),
            link: Style::new().fg(Color::Rgb(0, 50, 200)).add_modifier(Modifier::Underlined),
            inline_code: Style::new().fg(Color::Rgb(0, 120, 0)).bg(Color::Rgb(230, 230, 230)),
            list_bullet: Style::new(),
            rule: Style::new().fg(Color::Rgb(180, 180, 180)),
            border: Style::new().fg(Color::Rgb(180, 180, 180)),
            code_label: Style::new().fg(Color::Rgb(0, 130, 155)).add_modifier(Modifier::Bold),
            code_line_nr: Style::new().fg(Color::Rgb(160, 160, 160)),
            code_text: Style::new(),
            table_header: Style::new().fg(Color::Rgb(0, 130, 155)).add_modifier(Modifier::Bold),
            table_cell: Style::new(),
            table_border: Style::new().fg(Color::Rgb(180, 180, 180)),
            picker_title: Style::new().fg(Color::Rgb(170, 0, 170)).add_modifier(Modifier::Bold),
            picker_selected: Style::new().fg(Color::Rgb(170, 0, 170)),
            picker_gutter: Style::new().fg(Color::Rgb(170, 0, 170)),
            picker_file: Style::new().fg(Color::Rgb(30, 30, 30)),
            picker_meta: Style::new().fg(Color::Rgb(140, 140, 140)),
            picker_help: Style::new().fg(Color::Rgb(140, 140, 140)),
            picker_filter_prompt: Style::new().fg(Color::Rgb(0, 130, 155)).add_modifier(Modifier::Bold),
            picker_filter_input: Style::new().fg(Color::Rgb(30, 30, 30)),
            picker_match: Style::new().fg(Color::Rgb(170, 0, 170)).add_modifier(Modifier::Underlined),
            picker_dir: Style::new().fg(Color::Rgb(140, 140, 140)),
            search_highlight: Style::new().fg(Color::Black).bg(Color::Rgb(255, 230, 100)),
            search_active: Style::new().fg(Color::Black).bg(Color::Rgb(255, 170, 50)),
            search_prompt: Style::new().fg(Color::Rgb(0, 130, 155)).add_modifier(Modifier::Bold),
            tab_active: Style::new().fg(Color::White).bg(Color::Rgb(170, 0, 170)).add_modifier(Modifier::Bold),
            tab_inactive: Style::new().fg(Color::Rgb(80, 80, 80)).bg(Color::Rgb(230, 230, 230)),
            tab_bar_bg: Style::new().bg(Color::Rgb(230, 230, 230)),
            help_bar: Style::new().fg(Color::Rgb(140, 140, 140)),
            help_key: Style::new().fg(Color::Rgb(60, 60, 60)).add_modifier(Modifier::Bold),
            index_title: Style::new().fg(Color::Rgb(170, 0, 170)).add_modifier(Modifier::Bold),
            index_selected: Style::new().fg(Color::Rgb(170, 0, 170)),
            index_item: Style::new().fg(Color::Rgb(80, 80, 80)),
            index_gutter: Style::new().fg(Color::Rgb(170, 0, 170)),
        }
    }

    /// The palette for `mode`.
    pub fn for_mode(mode: Mode) -> (t: Theme)
        ensures
            t == theme_for(mode),
    {
        match mode {
            Mode::Dark => Self::dark(),
            Mode::Light => Self::light(),
        }
    }
}

} // verus!

//! A terminal markdown reader: rendering of markdown into styled lines,
//! search, tabs, the headings index and the file picker.
pub mod text;
pub mod filemeta;
pub mod style;
pub mod line;
pub mod markdown;
pub mod render;
pub mod parse;
pub mod search;
pub mod path;
pub mod files;
pub mod tab;
pub mod reader;
pub mod view;
pub mod picker;

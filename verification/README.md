# miru

A minimal terminal markdown reader, with its logic verified by Verus.

`src/` is the verified library:

- `parse`, `markdown`, `render`: markdown text (parsed by `pulldown_cmark`)
  rendered into styled lines and a list of headings; the renderer is a state
  machine over the parser's events, specified in `markdown` and proved in
  `render`.
- `search`: case-insensitive search and highlighting of matches.
- `tab`, `reader`: open documents, scrolling, search, tabs, the headings
  index, and what each key does.
- `picker`: the file picker, with fuzzy filtering by `fuzzy_matcher`.
- `view`: the tab bar, help bar, index, document and search bar as lines.
- `filemeta`: file size and age labels.
- `files`: the markdown files among the paths of a directory tree, sorted.
- `style`, `line`, `text`, `path`: styles and palettes, styled lines, string
  helpers, path operations.

`app/` is the program around it: command line, file system, terminal and
event loop. `tests/` exercises the library.

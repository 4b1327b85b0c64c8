# helix_extensions

What plugins of a modal editor can ask of it, as a verified library:

- `archive`: a bounded index of ZIP and TAR archives, and reads of their members
- `binary`: bounded reads and searches of binary files
- `file_snapshot`: when a file is still the one that was opened
- `custom_text`: annotations and edits that plugins make to a text
- `diagnostics`: diagnostics of plugins beside those of language servers
- `editor`, `tree`: views, linked scrolling, fullscreen and temporary layouts
- `render`: how a text and its annotations are drawn into a viewport
- `lazy_plugins`: plugins that are loaded when one of their commands is called
- `json`, `regex_engine`, `syntax_highlight`, `kitty_graphics`: services for scripts

Every function states what it returns or changes. `app/` is the part that touches
files and threads and runs scripts.

A law of the library is a public proof function whose name starts with `law_`.

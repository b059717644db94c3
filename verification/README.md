# orcashell_ui

The user interface of a terminal workspace, as a verified library: what its views keep, decide and
show, without the toolkit that draws them.

## Layout

- `src/` is the library. Every function in it has a contract that Verus proves.
  - Text: `strings`, `text`, `time`, `model`, `theme`, `keys`.
  - Diffs: `diff_state` is a tab, `diff_cache` what a frame is drawn from, `diff_text` and
    `diff_runs` the text and styles of a line, `diff_elements` the drawn lines, `tree` and
    `diff_rows` the files, and `diff_header`, `diff_panes` and `diff_stash` the parts of the tab,
    which `diff_explorer` brings together.
  - Conflicts: `conflict_document` holds and edits a text, `indentation` and `editing` relate its
    edits, `conflict_lines` and `conflict_highlight` make its lines, and `conflict_keys` runs its
    keys.
  - Repositories: `repository_graph` lays out the history, `branch_rail` the branches,
    `repository_keys` says when what is kept is still good, and `repository_state`,
    `repository_actions`, `repository_panes` and `repository_browser` are the tab.
  - The feed of changes: `feed` and `live_diff_stream`.
  - The window: `app_view`, `pane`, `context_menu`, `prompt_dialog`, `prompts`, `settings`,
    `settings_view` and `widgets`.
- `app/` is what surrounds it: measures in pixels, threads, channels, the store and the clipboard.
- `tests/` runs the library.

## Models

Texts are sequences of characters, and offsets into them count the bytes of their encoding. A path
is the sequence of its parts. A tree of files is compared by the sequence of its nodes, and what is
kept between frames by whether it is what would be made anew.

A syntax highlighter is a function from a state and a line to the next state and the styles of the
line. The editor of conflicts keeps the states at some lines and starts again from them; what it
shows is proved to be what it would show if it started from the first line.

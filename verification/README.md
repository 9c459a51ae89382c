# tab-notes

Keeps a note beside every tab of a Zellij session. A watcher runs in the background and keeps
the names of the tabs in step with the notes; a modal shows the note of the tab in which it was
opened.

The library under `src/` holds what the two decide, verified with Verus. It never talks to the
host: events come in as plain values, and what is to be done comes out as plain values. The
plugin under `app/` hands events in and does what comes out.

| Module | What it holds |
| --- | --- |
| `reconcile` | one round: which tabs are renamed and which notes are moved |
| `plan`, `numbering`, `order` | the model of a round |
| `collisions`, `settling` | what holds of rounds |
| `watcher`, `watcher_plan`, `watcher_laws` | the watcher, its model, and what holds of it |
| `modal`, `modal_plan`, `modal_laws` | the modal, its model, and what holds of it |
| `screen`, `style`, `markdown`, `viewport` | what the modal draws |
| `fs_ops`, `session` | the commands that are run on notes, and the current session |
| `listing`, `paths`, `icon`, `config` | listings, file names, tab names, configuration |
| `note_set`, `text`, `finding` | sets of keys, texts, searches |

The modal draws lines that it is handed. `style` knows headings, bullets, checkboxes, quotes, code
and strong runs, but the plugin hands in the lines of a note as they are written, each as plain
text. It renders no Markdown and wraps no line, so only the style of plain text is ever reached.

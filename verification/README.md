# zsm

A session picker for Zellij that offers live sessions, resurrectable
sessions and zoxide directories in one list, with fuzzy search, pinned
directories and a form for new sessions.

The logic is a library verified with Verus (`src/`):

- `state` holds the picker's state; `PluginState::update` takes one event
  (a key, a session report, a finished command, a visibility change) and
  returns whether to draw again and the effects the host must carry out,
  in order.
- `session` keeps the sessions Zellij and its CLI report, `picker` builds
  the rows, `zoxide` reads zoxide's output and searches the rows,
  `new_session_info` is the new-session form.
- `naming` and `session_name` name sessions after directories and check
  names; `session_usage` and `projects` are the records shared between
  instances (visits, pins and session folders), written by `records`.
- `text`, `list` and `ui` fit text to columns, scroll lists and lay out
  what the screens show.

`app/` is the Zellij plugin around the library: it turns Zellij's events
into the library's, performs the effects (commands, switching, killing,
hiding), reads the zoxide scores, and draws. `tests/` exercises the
library.

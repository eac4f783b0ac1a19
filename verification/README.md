# CodeSwarm

CodeSwarm is a full-screen terminal workspace in which several coding agents share one
conversation.

- `src/` is the library, verified with Verus: the transcript and its layout, the roster and
  the events of the agents, the prompt and its queue, the configuration and store panels,
  the command line, settings and session metadata, the relay's decisions, and the state
  machine of a running conversation. Public proof functions named `law_...` state what
  holds across functions.
- `tests/` runs the library, with the outside crates that it calls.
- `app/` is the program around it: the terminal, files, threads and processes.

## Layout of the library

| Area | Modules |
| --- | --- |
| Text and order | `text`, `encoding`, `order`, `labels` |
| Conversation | `transcript`, `layout`, `layout_laws`, `events`, `app`, `event_laws`, `streams`, `history`, `collaboration`, `trace`, `fixtures` |
| Agents | `roster`, `slots`, `relay`, `direct`, `controls`, `roster_sync`, `looping`, `goal`, `outcomes` |
| Prompt | `editor`, `commands`, `queue`, `permission`, `path_index`, `picker` |
| Panels and drawing | `surface`, `config`, `config_keys`, `config_models`, `palette`, `notice`, `store`, `catalog_rows`, `panels`, `screen`, `footer`, `markdown`, `style`, `theme`, `frame_scheduler` |
| Launch and files | `launch`, `launcher`, `json`, `settings`, `preferences`, `resume`, `project`, `paths`, `opening`, `journal` |
| Running conversation | `terminal_input`, `session`, `session_keys` |

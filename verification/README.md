# semctl

The logic of a code-index client as a verified Verus library: what a checkout's
index holds, when it is reconciled, how changes are uploaded, how sessions share
one local daemon, and what the tools of a session ask and answer.

- `src/engine`: one engine per process. It watches checkouts (`watch_hub`),
  decides when each is reconciled (`coordinator`, `reconcile`), shares them
  between sessions (`registry`) and bounds the work that runs at once
  (`scheduler`).
- `src/sync`: which files belong to the index (`policy`, `walker`), how a
  checkout is scanned (`scan`, `cache`, `source`), which changes matter
  (`relevance`), and the course of a sync and of its upload (`run`, `upload`).
- `src/ipc`: the local endpoint, its handshake and the copy between streams.
- `src/mcp`: which codebase a call is about (`selection`), first indexes
  (`indexing`, `readiness`, `leases`), the tools and their texts.
- `src/query`: the questions that a server is asked, and its answers as text.
- `app`: the program around the library: arguments, files, sockets, processes,
  the platform watcher and JSON.

Outside work is done by the program. Where decisions and outside work alternate,
the library is a state machine: a step takes what was learned and gives the next
action, and its contract states both exactly. The functions named `law_...` state
what holds across steps and calls.

Paths are POSIX paths: `/` separates their components, and an absolute path starts
with it. The program can scan and follow a checkout and show what a server
answered; it has no connection to a server of its own, so a sync ends where it
needs one.

# hibiscus

A terminal chat client around the Pi agent. The library in `src/` holds
everything that is decided or computed: the screen and its rows, the composer,
markdown, the exchange of records with Pi, dialogs, sessions, updates. It is
written in Verus, and every function has a contract that is proved. The program
in `app/` is what is left: processes, pipes, files and the terminal.

## The library

| Modules | What they hold |
| --- | --- |
| `text`, `lines`, `number`, `utf8`, `base64`, `table` | text, numbers and bytes |
| `json`, `wire`, `transport` | records, their lines, and the bounded mailbox they arrive in |
| `rpc`, `exchange`, `run`, `queue`, `compaction`, `tools` | commands, and a turn of the conversation |
| `error`, `diagnostics` | errors and warnings that are safe to show |
| `keys`, `terminal`, `draft`, `composer`, `input`, `pending` | keys, drafts, and what waits to be sent |
| `markdown`, `activity`, `transcript`, `display`, `frame`, `paint`, `picker`, `modal`, `screen`, `render` | what is shown |
| `dialog`, `auth`, `logout`, `models`, `thinking`, `commands`, `sessions`, `clipboard`, `update`, `cli`, `paths`, `chat`, `ui` | what the user can ask for |

Each type has a view, a mathematical value that its contracts speak of. What
holds across functions is stated by the public proof functions named `law_*`.

Values that another crate or the standard library computes enter through a few
trusted functions, marked `#[verifier::external_body]`. Their doc comments name
the function that they call and say what is believed of it.

## The program

Scripts that the program hands to Node and the shell (`approval.mjs`,
`codex-auth.mjs`, `logout.mjs`, `install.sh`) are read from `HIBISCUS_SHARE`, or
from `../share/hibiscus` next to the program.

# tetron-messageboard

A message board for one tetron network, served over the mesh itself. Whoever is
admitted to the mesh can read, post text and images, and delete; the source
address of a request, which the mesh vouches for, is the poster's identity.

`src/` is a Verus library: everything the board decides, stated in contracts and
proved. `app/` is the program around it: the command line, the HTTP server, the
files, the service manager and the connection to the local tetron daemon.

| Module | What it holds |
| --- | --- |
| `text`, `lines`, `raw`, `number`, `compose`, `rank` | characters, lines of text and of bytes, numbers, comparing and joining texts, a stable sort |
| `clock`, `ratelimit` | the time of day; the token bucket per source |
| `config` | knobs, network tokens, places on disk, migration of single-board data |
| `roster` | which network is served and how its members are called |
| `content`, `quota`, `store` | content addresses, the attachment quota, the message log |
| `upload`, `api` | image formats and names; what each HTTP route decides and answers |
| `steps`, `service` | the files and commands of a per-user service; install, uninstall, list, restart |

Properties that span several functions are public proof functions whose names
begin with `law_`, at the end of the module they belong to.

The library calls a few functions that it does not verify: `blake3::hash`,
`str::from_utf8`, `str::to_lowercase`, `String::push`, and the system's clocks. Each stands behind a
declaration that says what is believed of it.

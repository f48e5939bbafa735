# rubypass

RuBypass keeps traffic to Russian IPv4 networks off the VPN: it downloads
the RIPE NCC delegation statistics, extracts the Russian allocations, and
routes them through the physical gateway instead of the tunnel. On Windows
it can instead install a proxy auto-config file that sends browser traffic
through a small local router, which decides per host name.

## Layout

- `src/` is the library, verified with Verus. Its functions carry contracts;
  the few that only wrap a call into std or chrono say what the outside
  documentation promises, or only what holds of every reading where the
  clock decides. The shared state sits in a `Mutex`, whose contents are
  stated as the value it was created with. The laws of the library are
  public proof functions.
  - `text` — character-level primitives (`split`, `lines`, `trim`, number
    parsing, ...) specified by spec functions.
  - `net`, `aggregate` — IPv4 addresses, CIDR blocks, and the merging of
    sibling blocks.
  - `updater` — the statistics parser and the stored list.
  - `routing`, `helper` — route batches, helper scripts and the readers of
    the system's routing tables.
  - `gateway`, `status` — the default gateway and the status readers.
  - `scheduler`, `network_watch`, `commands` — when to update, when to
    reapply, and the decisions of the commands.
  - `pac` — the Windows proxy router: upstream choice, request parsing,
    the routing decision, SOCKS5 messages and counters.
- `tests/` runs the library on concrete values.
- `app/` is the tray application around the library: the window, threads,
  files, processes, the registry and sockets.

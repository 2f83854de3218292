# gpui_agent

A verified core for driving a GPU-rendered desktop app over a small local
automation protocol (newline-delimited JSON over loopback TCP), with a
headless todo app as the sample host.

## Layout

- `src/` — the library, verified with Verus:
  - `protocol`, `dispatch`, `security`, `hmac_auth`, `ndjson`: the wire
    vocabulary, the request gate and routing, token policy and HMAC
    challenge, capped line reading.
  - `keybinding`, `screenshot`, `scroll_capture`, `virtual_input`: the
    action-id keymap rules, screenshot path confinement, PNG crop/stitch,
    keystroke planning.
  - `recipe`, `placeholders`, `bind`, `plan`, `schema`, `registry`,
    `resolve`, `run`, `record`: recipes (`.wants` text), the `$param`
    names their ops use and their binding from `--set`, validation,
    dependency waves, the schema registry, intent resolution, the run's
    stop rule, recorded frames (SVG/PPM).
  - `todo` (with `todo/tree`), `tree_ids`, `assertion`: the sample todo
    store, its semantic tree and the view read back from it.
  - `cli`, `mcp`, `mailbox`, `connections`, `server`: command lines, the
    MCP tool mapping, bounded queues and limits.
- `app/` — the `todo-headless` program: TCP server and client, process
  environment, JSON (serde) shapes, the `recipe`, `agent` (one request per
  command) and MCP front ends, a daemon bridge for a windowed client, and
  the `f32` window geometry and scrolled-capture driver a painted host
  would use.
- `tests/` — tests run against the compiled library.

Outside crates are called from `src/` through trusted wrappers: `hmac` and
`sha2` (HMAC-SHA256), `getrandom` (minted tokens), `png` (decode/encode),
`clap` (subcommand parsing), `serde_json` (JSON values).

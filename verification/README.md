# El-Terminal

A borderless GTK4 + VTE terminal emulator with tabs, split panes and an
optional OpenAI-compatible "Ask AI" panel.

The project is split in two:

- `src/` is the `el_terminal` library, written in Verus. Every function in it
  carries a `requires` / `ensures` contract that Verus proves. It holds the
  logic: parsing assistant replies (JSON command lists, fenced code blocks,
  streamed server-sent events), building the Ask request and its environment
  pre-prompt, detecting the terminal session kind, the in-shell Ask prefix,
  linkifying URLs, settings normalization and the theme catalog, the tab /
  pane model, window shortcuts and resize edges, and tab titles.
- `app/` is the GTK program around it: windows and widgets, VTE terminals,
  Wayland blur, HTTP, files on disk, and everything with floating-point
  geometry or colour.

Modules of the library:

| module | what it holds |
|--------|---------------|
| `text` | character-level string helpers and their specifications |
| `json` | the JSON documents the library reads (parsed by `serde_json`) |
| `llm` | Ask replies, response bodies, SSE streams, requests and API errors |
| `ask` | in-shell Ask queries, panel / shell outcomes, replies as terminal text |
| `env_context` | terminal environment hints, session kind, the pre-prompt, `file://` URIs |
| `terminal_links` | URL detection and OSC 8 hyperlink markup |
| `settings` | settings rules, the theme catalog, the settings form |
| `tabs` | tabs, panes, focus, and how they open and close |
| `input` | keyboard shortcuts and window resize edges |
| `title` | tab titles |
| `session` | how a pane's shell is started |
| `launch` | the launch options of the process |
| `chrome` | the grain hash of the window chrome |

Laws that span several functions (normalizing twice, the first stored launch
options winning, tab names staying unique, cycling there and back, closing
never emptying the window, ...) are public proof functions next to the
functions they speak of.

Theme files (`themes/*.json`) and the base stylesheet (`theme.css`) are read at
run time from `/usr/share/el-terminal`, `/usr/local/share/el-terminal`, the
directory of the executable, and `~/.config/el-terminal/themes`.

# shipwright

Hot reloading for LiveView templates, with its decisions proved by Verus.

`src/` is the library. Each public function states in its contract what it
returns and how it changes its arguments, over spec functions and views:

- `protocol`, `template_cache`, `enhanced_cache`, `build_cache`: template
  identifiers, updates and the caches that hold them, with their counters.
- `template_diff`, `diff_integration`, `dom_diff`: diffing templates and DOM
  trees, deciding what can be hot reloaded, and batching the edits.
- `error_recovery`: error boundaries, recovery strategies tried by priority,
  fallbacks and the circuit breaker.
- `performance_monitor`, `logging`: timings and their statistics, counters,
  memory readings, the event buffer and debug sessions.
- `runtime`, `liveview_integration`, `watcher`, `enhanced_watcher`, `server`:
  the template registry, the client's handling of messages, and which file
  changes are processed.
- `commands`, `config`, `workspace`, `build_command`, `parser`: the command
  line tool's configuration, project layout and generated files.

Calls into other crates (`blake3`, `flate2`, `brotli`, `uuid`, `chrono`) and
into the parts of std that Verus does not specify stand behind small trusted
functions whose doc comments say what is assumed of them.

`app/` is the command line program around the library: argument parsing,
files, the WebSocket server and the process handling that Verus does not see.
`tests/` runs the library on concrete values.

# completion_kit

Requests to the Anthropic messages API, the events that come back from it, and two small tools
around them, verified with Verus.

- `src/completion.rs` turns a language model request into a request of the messages API;
  `src/cache.rs` decides which blocks of the conversation carry a cache breakpoint.
- `src/event_mapper.rs` turns the events of a streamed response into the events of a completion.
- `src/cpu_probe.rs` counts and times hot paths, and reports about once a second.
- `src/echo_agent.rs` reads the messages to an agent that streams prompts back, and decides what
  it does about each.
- `src/anthropic.rs` and `src/language_model.rs` hold the types of the two sides, each with its
  view; `src/text.rs`, `src/number.rs` and `src/json.rs` hold what the others need of texts,
  numbers and JSON.
- `src/laws/` states and proves what holds of the library as a whole.

`app/` is ordinary Rust around the library: streams of events, the clock and the log, standard
input and output. Making JSON out of the beginning of a JSON text, and reading the arguments of a
tool call, is up to the host, which hands in a function for each.

What is taken on trust: how `serde_json` reads a document and finds its parts (`src/json.rs`), and
that `String::push` appends a character (`src/text.rs`).

# tv-shell

The decisions behind a shell for a box under a television, written in Verus:
executable Rust whose behaviour is stated in contracts and proved.

- `src/` is the library. Every function in it is verified, but for the few that
  call other crates and are named below. It reads what the
  compositor reports, decides where windows go, changes display modes and undoes
  them, steps through HDMI-CEC requests, wakes hosts, counts, decides who may use
  the web panel and which routes it has, and makes the patches and pages that the
  panel sends and shows.
- `app/` is ordinary Rust around it: sockets, files, clocks, processes, the HTTP
  servers, templates, and everything that computes with floating point. It builds
  one program with three roles, `daemon`, `host` and `panel`.
- `tests/` runs the library.

## How the library is written

Functions take plain values and give plain values back. Where work outside
alternates with decisions, the decisions are a state machine: `cec_worker::Worker`
names one call at a time and takes its answer, `display_change` says what to send
and takes the outcome, `capabilities::handshake_step` says whether to ask again.

Contracts are stated over mathematical models. Text is a sequence of characters
(`text`), a JSON document a tree (`json::JsonView`), an address a sequence of
numbers (`net_addr`). Properties that span functions are public proof functions
named `law_…`, next to the functions that they speak of.

A refresh rate is held as its bits, which order as the rate does, and its
spellings; whether two rates are close is handed in.

## What is believed without proof

- `text`: `String::push` and `String::push_str` append; the `Debug` spelling of a
  string or a character depends on it alone.
- `json`: what `serde_json` reads, as a document or as a map of texts, depends on
  the text alone, and it reads back what is written here in its two layouts, but
  for documents with fractions, with more than 100 levels, with keys out of order
  or with a key that it keeps for itself in front; that it spells a number with
  digits, signs, a point and an `e`; how it quotes a string; that its `Value` is
  taken apart into the tree that it holds.
- `auth`: `subtle` compares two strings as equal exactly if they are.
- `host`: `ring` gives 32 random bytes, or fails.

# mii-text

A command line client for LLM services that speak the OpenAI protocols: pipe text in, get
structured output. It keeps conversations in a file, answers in a SQLite cache, and its defaults
and secrets in a server that other invocations reach over a local socket.

The logic is a library written in Verus; the program around it is ordinary Rust.

- `src/` is the library. Every function states what it returns or changes, and Verus proves it.
  - `args`, `conversation`, `tools`, `constraints`: what a request is made of.
  - `providers`: what is sent to a provider, and what each piece of its reply does to the answer.
  - `output`, `sink`, `stats`: how an answer is shown, and the report on it.
  - `cache`, `run`: the key of a request, the rows of the cache, and the steps of a run.
  - `ipc`, `server`, `client`: the protocol between server and client, and both its ends.
  - `json`, `bridge`, `text`: JSON values and texts. `bridge` and `cache` hold the functions of
    `serde_json` and `sha2` that are trusted rather than proved.
- `tests/` runs the library.
- `app/` is the program: devices, files, the database, sockets, the network and the clock.

What holds of the library as a whole stands in proof functions whose names begin with `law_`:
that a replay from the cache shows what was shown, that a server finds in a request what the
client found, that what is kept reads back, and more.
